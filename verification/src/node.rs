//! The node matcher: finding the closing tag that balances the first
//! opening tag of a buffer, and navigating the matched element.

use vstd::prelude::*;

use crate::scan::find_char_in;
use crate::scan::find_to;
use crate::scan::get_tag_name;
use crate::scan::is_space;
use crate::scan::lemma_space_end;
use crate::scan::lemma_tag_bounds_from;
use crate::scan::scan_space;
use crate::scan::space_end;
use crate::scan::spec_is_space;
use crate::scan::spec_tag_name;
use crate::scan::str_eq;
use crate::scan::tag_bounds_from;
use crate::scan::tag_from;

verus! {

/// One matched element: zero-copy views into the buffer it was read from.
#[derive(Debug, Clone, Copy)]
pub struct Node<'a> {
    /// The element's name, taken from its opening tag.
    pub name: &'a str,
    /// The text strictly between the opening tag's `>` and the balancing
    /// closing tag's `<`.
    pub body: &'a str,
    /// The text immediately after the balancing closing tag's `>`: the
    /// continuation where the next sibling is sought.
    pub after: &'a str,
    /// The opening tag's attribute text: its interior past the name.
    pub attrs: &'a str,
}

/// The mathematical content of a matched element.
pub struct NodeView {
    pub name: Seq<char>,
    pub body: Seq<char>,
    pub after: Seq<char>,
    pub attrs: Seq<char>,
}

impl<'a> View for Node<'a> {
    type V = NodeView;

    open spec fn view(&self) -> NodeView {
        NodeView { name: self.name@, body: self.body@, after: self.after@, attrs: self.attrs@ }
    }
}

/// The interior bounds of the closing tag that balances an element named
/// `opener` when the scan stands at `pos` with `nest` unclosed same-named
/// openers, or `None` when the input ends first.
///
/// Tags whose name differs from `opener` are ignored entirely; a same-named
/// opener deepens the nesting, and a same-named closer either balances it
/// (at depth zero) or closes one nested level.
pub open spec fn balance_from(s: Seq<char>, opener: Seq<char>, pos: int, nest: nat) -> Option<
    (int, int),
>
    decreases s.len() - pos,
        when 0 <= pos <= s.len()
        via balance_from_decreases
{
    match tag_bounds_from(s, pos) {
        None => None,
        Some(p) => {
            if spec_tag_name(s, p.0, p.1) == opener {
                if s[p.0] == '/' {
                    if nest == 0 {
                        Some(p)
                    } else {
                        balance_from(s, opener, p.1, (nest - 1) as nat)
                    }
                } else {
                    balance_from(s, opener, p.1, nest + 1)
                }
            } else {
                balance_from(s, opener, p.1, nest)
            }
        },
    }
}

#[via_fn]
proof fn balance_from_decreases(s: Seq<char>, opener: Seq<char>, pos: int, nest: nat) {
    lemma_tag_bounds_from(s, pos);
}

/// What reading a buffer yields: the outermost matched element, if any.
///
/// The first tag found is the opener; a buffer whose first tag is a closing
/// tag has no open element to close and yields `None`.
pub open spec fn read_result(s: Seq<char>) -> Option<NodeView> {
    match tag_bounds_from(s, 0) {
        None => None,
        Some(p) => {
            if s[p.0] == '/' {
                None
            } else {
                match balance_from(s, spec_tag_name(s, p.0, p.1), p.1, 0) {
                    None => None,
                    Some(q) => Some(
                        NodeView {
                            name: spec_tag_name(s, p.0, p.1),
                            body: s.subrange(p.1 + 1, q.0 - 1),
                            after: s.subrange(q.1 + 1, s.len() as int),
                            attrs: s.subrange(space_end(s, p.0, p.1), p.1),
                        },
                    ),
                }
            }
        },
    }
}

/// The value of the first `name=value` token in `attrs` at or after `from`
/// whose name is `key`, or `None` when no token matches.
///
/// Tokens are maximal whitespace-free runs; each splits at its first `=`
/// into a name and a value, and a token without `=` is a bare attribute
/// whose value is empty.
pub open spec fn attr_lookup_from(attrs: Seq<char>, from: int, key: Seq<char>) -> Option<Seq<char>>
    decreases attrs.len() - from,
        when 0 <= from <= attrs.len()
        via attr_lookup_from_decreases
{
    if from >= attrs.len() {
        None
    } else if spec_is_space(attrs[from]) {
        attr_lookup_from(attrs, from + 1, key)
    } else {
        let end = space_end(attrs, from, attrs.len() as int);
        let nm = match find_char_in(attrs, from, end, '=') {
            Some(e) => attrs.subrange(from, e),
            None => attrs.subrange(from, end),
        };
        if nm == key {
            match find_char_in(attrs, from, end, '=') {
                Some(e) => Some(attrs.subrange(e + 1, end)),
                None => Some(Seq::<char>::empty()),
            }
        } else {
            attr_lookup_from(attrs, end, key)
        }
    }
}

#[via_fn]
proof fn attr_lookup_from_decreases(attrs: Seq<char>, from: int, key: Seq<char>) {
    if 0 <= from < attrs.len() && !spec_is_space(attrs[from]) {
        lemma_space_end(attrs, from, attrs.len() as int);
    }
}

impl<'a> Node<'a> {
    /// Read the outermost element beginning at the first tag of `source`.
    ///
    /// Returns `None` when no tag is present, when the first tag is a
    /// closing tag, or when no balancing closer exists before the input
    /// ends.
    pub fn read(source: &'a str) -> (r: Option<Node<'a>>)
        ensures
            match r {
                Some(node) => read_result(source@) == Some(node@),
                None => read_result(source@) is None,
            },
    {
        let n = source.unicode_len();
        let opener = match tag_from(source, 0) {
            Some(p) => p,
            None => {
                return None;
            },
        };
        if source.get_char(opener.0) == '/' {
            return None;
        }
        let name = get_tag_name(source, opener);
        let name_end = scan_space(source, opener.0, opener.1);
        let mut nest: usize = 0;
        let mut cur: usize = opener.1;
        loop
            invariant
                n == source@.len(),
                opener.0 <= opener.1 < n,
                source@[opener.1 as int] == '>',
                source@[opener.0 as int] != '/',
                tag_bounds_from(source@, 0) == Some((opener.0 as int, opener.1 as int)),
                name@ == spec_tag_name(source@, opener.0 as int, opener.1 as int),
                name_end == space_end(source@, opener.0 as int, opener.1 as int),
                opener.0 <= name_end <= opener.1,
                opener.1 <= cur < n,
                source@[cur as int] == '>',
                nest <= cur,
                balance_from(source@, name@, cur as int, nest as nat) == balance_from(
                    source@,
                    name@,
                    opener.1 as int,
                    0,
                ),
            decreases n - cur,
        {
            let pos = match tag_from(source, cur) {
                Some(p) => p,
                None => {
                    return None;
                },
            };
            let tag_name = get_tag_name(source, pos);
            if str_eq(tag_name, name) {
                if source.get_char(pos.0) == '/' {
                    if nest == 0 {
                        return Some(
                            Node {
                                name,
                                body: source.substring_char(opener.1 + 1, pos.0 - 1),
                                after: source.substring_char(pos.1 + 1, n),
                                attrs: source.substring_char(name_end, opener.1),
                            },
                        );
                    } else {
                        nest = nest - 1;
                    }
                } else {
                    nest = nest + 1;
                }
            }
            cur = pos.1;
        }
    }

    /// Read the next sibling: the first element in the text after this
    /// one's closing tag.
    pub fn next(&self) -> (r: Option<Node<'a>>)
        ensures
            match r {
                Some(node) => read_result(self@.after) == Some(node@),
                None => read_result(self@.after) is None,
            },
    {
        Node::read(self.after)
    }

    /// Look up the value of attribute `key` in this node's opening tag:
    /// the value of the first `key=value` pair in the attribute text, an
    /// empty string for a bare `key` token, or `None` when absent.
    pub fn attribute(&self, key: &str) -> (r: Option<&'a str>)
        ensures
            match r {
                Some(v) => attr_lookup_from(self@.attrs, 0, key@) == Some(v@),
                None => attr_lookup_from(self@.attrs, 0, key@) is None,
            },
    {
        let attrs = self.attrs;
        let n = attrs.unicode_len();
        let mut i: usize = 0;
        while i < n
            invariant
                attrs@ == self@.attrs,
                n == attrs@.len(),
                i <= n,
                attr_lookup_from(attrs@, i as int, key@) == attr_lookup_from(attrs@, 0, key@),
            decreases n - i,
        {
            if is_space(attrs.get_char(i)) {
                i += 1;
            } else {
                let end = scan_space(attrs, i, n);
                proof {
                    lemma_space_end(attrs@, i as int, n as int);
                }
                match find_to(attrs, i, end, '=') {
                    Some(e) => {
                        if str_eq(attrs.substring_char(i, e), key) {
                            let v = attrs.substring_char(e + 1, end);
                            proof {
                                assert(attr_lookup_from(attrs@, i as int, key@) == Some(v@));
                            }
                            return Some(v);
                        }
                    },
                    None => {
                        if str_eq(attrs.substring_char(i, end), key) {
                            let v = attrs.substring_char(end, end);
                            proof {
                                assert(v@ =~= Seq::<char>::empty());
                                assert(attr_lookup_from(attrs@, i as int, key@) == Some(v@));
                            }
                            return Some(v);
                        }
                    },
                }
                i = end;
            }
        }
        None
    }
}

} // verus!
