//! Tests for the node matcher: balancing, navigation, and attribute
//! lookup.

use tagmatch::Node;

#[test]
fn simple() {
    let n = Node::read("<xml></xml>");
    assert_eq!(n.unwrap().name, "xml")
}

#[test]
fn simple_salt() {
    let n = Node::read("aaa<xml></xml>");
    assert_eq!(n.unwrap().name, "xml")
}

#[test]
fn with_body() {
    let n = Node::read("<xml>Ahihi</xml>");
    assert_eq!(n.unwrap().name, "xml")
}

#[test]
fn with_hard_body() {
    let n = Node::read("<xml><xml></xml>");
    assert!(n.is_none())
}

#[test]
fn wrong_closing() {
    let n = Node::read("<xml></Xml>");
    assert!(n.is_none())
}

#[test]
fn no_slash() {
    let n = Node::read("<xml><xml>");
    assert!(n.is_none())
}

#[test]
fn no_open() {
    let n = Node::read("xml><xml>");
    assert!(n.is_none())
}

#[test]
fn only_close() {
    let n = Node::read("<xml>");
    assert!(n.is_none())
}

#[test]
fn sister() {
    let n = Node::read("<alice>Alice</alice><maria></maria>");
    let n2 = n.unwrap().next();
    assert_eq!(n2.unwrap().name, "maria");
}

#[test]
fn sister_daughter() {
    let n = Node::read("<mama><alice>Alice</alice><maria></maria></mama>");
    assert_eq!(n.unwrap().name, "mama");
    let n = Node::read(n.unwrap().body);
    assert_eq!(n.unwrap().name, "alice");
    let n = n.unwrap().next();
    assert_eq!(n.unwrap().name, "maria");
}

#[test]
fn nest() {
    let n = Node::read("   <Foo name=foo><Foo></Foo></Foo>  ");
    assert_eq!(n.unwrap().name, "Foo");
    let n = Node::read(n.unwrap().body);
    assert_eq!(n.unwrap().name, "Foo");
    let n = Node::read(n.unwrap().body);
    assert!(n.is_none());
}

#[test]
fn attr() {
    let n = Node::read("   <Foo name=foo></Foo>  ");
    assert_eq!(n.unwrap().attribute("name").unwrap(), "foo");
}

#[test]
fn exact_body_and_continuation() {
    let n = Node::read("<xml>Ahihi</xml> tail").unwrap();
    assert_eq!(n.name, "xml");
    assert_eq!(n.body, "Ahihi");
    assert_eq!(n.after, " tail");
}

#[test]
fn empty_input() {
    assert!(Node::read("").is_none());
}

#[test]
fn leading_closer() {
    // A closing tag with no open element to close never matches, even when
    // a balancing pair could be pieced together further on.
    assert!(Node::read("</xml></xml>").is_none());
    assert!(Node::read("</xml><xml></xml>").is_none());
}

#[test]
fn nested_same_name_balanced() {
    let n = Node::read("<x>a<x>b</x>c</x>").unwrap();
    assert_eq!(n.name, "x");
    assert_eq!(n.body, "a<x>b</x>c");
}

#[test]
fn other_names_do_not_affect_balance() {
    let n = Node::read("<x><y></x>").unwrap();
    assert_eq!(n.name, "x");
    assert_eq!(n.body, "<y>");
}

#[test]
fn sibling_advance() {
    let first = Node::read("<a>X</a><b></b>").unwrap();
    assert_eq!(first.name, "a");
    assert_eq!(first.body, "X");
    let second = first.next().unwrap();
    assert_eq!(second.name, "b");
    assert!(second.next().is_none());
}

#[test]
fn child_descent_then_sibling() {
    let outer = Node::read("<m><a>X</a><b></b></m>").unwrap();
    assert_eq!(outer.name, "m");
    let child = Node::read(outer.body).unwrap();
    assert_eq!(child.name, "a");
    let sibling = child.next().unwrap();
    assert_eq!(sibling.name, "b");
}

#[test]
fn leaf_has_no_child() {
    let n = Node::read("<a>plain text</a>").unwrap();
    assert!(Node::read(n.body).is_none());
}

#[test]
fn attribute_present_and_absent() {
    let n = Node::read("<n attr=val></n>").unwrap();
    assert_eq!(n.attribute("attr"), Some("val"));
    assert_eq!(n.attribute("other"), None);
}

#[test]
fn attribute_first_of_equal_names() {
    let n = Node::read("<n a=1 a=2></n>").unwrap();
    assert_eq!(n.attribute("a"), Some("1"));
}

#[test]
fn attribute_bare_token_has_empty_value() {
    let n = Node::read("<n flag attr=val></n>").unwrap();
    assert_eq!(n.attribute("flag"), Some(""));
    assert_eq!(n.attribute("attr"), Some("val"));
}

#[test]
fn attribute_name_is_not_an_attribute() {
    // The tag's own name is not part of the attribute text.
    let n = Node::read("<n a=1></n>").unwrap();
    assert_eq!(n.attribute("n"), None);
}

#[test]
fn rematch_is_identical() {
    let source = "  <a k=v>body<a></a></a> rest";
    let first = Node::read(source).unwrap();
    let second = Node::read(source).unwrap();
    assert_eq!(first.name, second.name);
    assert_eq!(first.body, second.body);
    assert_eq!(first.after, second.after);
    assert_eq!(first.attrs, second.attrs);
}
