//! General laws of the matcher, stated over whole families of inputs and
//! proved from the specification functions of the scanner and the node
//! matcher.

use vstd::prelude::*;

use crate::node::read_result;
use crate::node::balance_from;
use crate::scan::lemma_find_char_in_absent;
use crate::scan::lemma_find_char_in_present;
use crate::scan::lemma_space_end;
use crate::scan::name_start;
use crate::scan::space_end;
use crate::scan::spec_is_space;
use crate::scan::spec_tag_name;
use crate::scan::tag_bounds_from;

verus! {

/// Characters that may stand in a tag name: anything but the delimiters,
/// the closing-tag mark, and whitespace.
pub open spec fn name_char(c: char) -> bool {
    c != '<' && c != '>' && c != '/' && !spec_is_space(c)
}

/// A sequence made of name characters only.
pub open spec fn named(t: Seq<char>) -> bool {
    forall|i: int| 0 <= i < t.len() ==> name_char(#[trigger] t[i])
}

/// Text free of tag delimiters.
pub open spec fn tagless(t: Seq<char>) -> bool {
    forall|i: int| 0 <= i < t.len() ==> #[trigger] t[i] != '<' && t[i] != '>'
}

/// When the delimiters near `from` are known pointwise, the first tag at or
/// after `from` is exactly the one delimited at `lt` and `gt`.
proof fn lemma_tag_bounds_at(s: Seq<char>, from: int, lt: int, gt: int)
    requires
        0 <= from <= lt < gt < s.len(),
        s[lt] == '<',
        s[gt] == '>',
        forall|j: int| from <= j < lt ==> #[trigger] s[j] != '<',
        forall|j: int| lt <= j < gt ==> #[trigger] s[j] != '>',
    ensures
        tag_bounds_from(s, from) == Some((lt + 1, gt)),
{
    lemma_find_char_in_present(s, from, s.len() as int, '<', lt);
    lemma_find_char_in_present(s, lt, s.len() as int, '>', gt);
}

/// Where no `<` stands at or after `from`, no further tag exists.
proof fn lemma_no_tag_after(s: Seq<char>, from: int)
    requires
        0 <= from <= s.len(),
        forall|j: int| from <= j < s.len() ==> #[trigger] s[j] != '<',
    ensures
        tag_bounds_from(s, from) is None,
{
    lemma_find_char_in_absent(s, from, s.len() as int, '<');
}

/// A tag whose interior past `name_start` spells out `name` in name
/// characters has exactly that name.
proof fn lemma_tag_name_at(s: Seq<char>, a: int, b: int, name: Seq<char>)
    requires
        0 <= a <= b < s.len(),
        name_start(s, a) + name.len() == b,
        forall|j: int| name_start(s, a) <= j < b ==> #[trigger] s[j] == name[j - name_start(s, a)],
        named(name),
    ensures
        spec_tag_name(s, a, b) == name,
{
    let start = name_start(s, a);
    lemma_space_end(s, start, b);
    assert(space_end(s, start, b) == b);
    assert(s.subrange(start, b) =~= name);
}

/// An input without any `<` holds no tag at all, so nothing matches.
pub proof fn lemma_no_tag_no_match(s: Seq<char>)
    requires
        forall|j: int| 0 <= j < s.len() ==> #[trigger] s[j] != '<',
    ensures
        read_result(s) is None,
{
    lemma_no_tag_after(s, 0);
}

/// An input holding exactly one well-formed element `<n>body</n>` matches,
/// with name `n` and exactly the text between the tags as the body.
pub proof fn lemma_single_element(s: Seq<char>, name: Seq<char>, body: Seq<char>)
    requires
        s =~= seq!['<'] + name + seq!['>'] + body + seq!['<', '/'] + name + seq!['>'],
        0 < name.len(),
        named(name),
        tagless(body),
    ensures
        read_result(s) matches Some(n) && n.name == name && n.body == body,
{
    let nl = name.len() as int;
    let bl = body.len() as int;
    let len = s.len() as int;
    assert(len == 2 * nl + bl + 5);
    assert(s[0] == '<');
    assert forall|j: int| 1 <= j < 1 + nl implies #[trigger] s[j] == name[j - 1] by {}
    assert(s[1 + nl] == '>');
    assert forall|j: int| 2 + nl <= j < 2 + nl + bl implies #[trigger] s[j] == body[
        j - (2 + nl)
    ] by {}
    assert(s[2 + nl + bl] == '<');
    assert(s[3 + nl + bl] == '/');
    assert forall|j: int| 4 + nl + bl <= j < 4 + 2 * nl + bl implies #[trigger] s[j] == name[
        j - (4 + nl + bl)
    ] by {}
    assert(s[4 + 2 * nl + bl] == '>');

    // The opening tag is `(1, 1 + nl)`, named `name`.
    lemma_tag_bounds_at(s, 0, 0, 1 + nl);
    lemma_tag_name_at(s, 1, 1 + nl, name);
    assert(s[1] != '/');

    // The only tag after it is the closer, which balances at depth zero.
    lemma_tag_bounds_at(s, 1 + nl, 2 + nl + bl, 4 + 2 * nl + bl);
    lemma_tag_name_at(s, 3 + nl + bl, 4 + 2 * nl + bl, name);
    assert(balance_from(s, name, 1 + nl, 0) == Some((3 + nl + bl, 4 + 2 * nl + bl)));

    assert(s.subrange(2 + nl, 2 + nl + bl) =~= body);
}

/// An element closed only by a differently-named tag does not match: the
/// mismatched closer is ignored, and the element stays unterminated.
pub proof fn lemma_mismatched_closer(s: Seq<char>, name: Seq<char>, other: Seq<char>)
    requires
        s =~= seq!['<'] + name + seq!['>'] + seq!['<', '/'] + other + seq!['>'],
        0 < name.len(),
        0 < other.len(),
        named(name),
        named(other),
        name != other,
    ensures
        read_result(s) is None,
{
    let nl = name.len() as int;
    let ol = other.len() as int;
    let len = s.len() as int;
    assert(len == nl + ol + 5);
    assert(s[0] == '<');
    assert forall|j: int| 1 <= j < 1 + nl implies #[trigger] s[j] == name[j - 1] by {}
    assert(s[1 + nl] == '>');
    assert(s[2 + nl] == '<');
    assert(s[3 + nl] == '/');
    assert forall|j: int| 4 + nl <= j < 4 + nl + ol implies #[trigger] s[j] == other[
        j - (4 + nl)
    ] by {}
    assert(s[4 + nl + ol] == '>');

    // The opening tag is `(1, 1 + nl)`, named `name`.
    lemma_tag_bounds_at(s, 0, 0, 1 + nl);
    lemma_tag_name_at(s, 1, 1 + nl, name);
    assert(s[1] != '/');

    // The next tag is the differently-named closer: it is ignored.
    lemma_tag_bounds_at(s, 1 + nl, 2 + nl, 4 + nl + ol);
    lemma_tag_name_at(s, 3 + nl, 4 + nl + ol, other);

    // Nothing follows it, so the element is unterminated.
    lemma_no_tag_after(s, 4 + nl + ol);
    assert(balance_from(s, name, 4 + nl + ol, 0) is None);
    assert(balance_from(s, name, 1 + nl, 0) is None);
}

/// A nested same-named opener deepens the nesting, so the one closer that
/// follows closes the nested level only: with no second closer, the outer
/// element stays unterminated and nothing matches.
pub proof fn lemma_nested_opener_unterminated(
    s: Seq<char>,
    name: Seq<char>,
    fill1: Seq<char>,
    fill2: Seq<char>,
    fill3: Seq<char>,
)
    requires
        s =~= seq!['<'] + name + seq!['>'] + fill1 + seq!['<'] + name + seq!['>'] + fill2 + seq![
            '<',
            '/',
        ] + name + seq!['>'] + fill3,
        0 < name.len(),
        named(name),
        tagless(fill1),
        tagless(fill2),
        tagless(fill3),
    ensures
        read_result(s) is None,
{
    let nl = name.len() as int;
    let l1 = fill1.len() as int;
    let l2 = fill2.len() as int;
    let l3 = fill3.len() as int;
    let len = s.len() as int;
    let t2 = 4 + 2 * nl + l1 + l2;
    assert(len == 3 * nl + l1 + l2 + l3 + 7);
    assert(s[0] == '<');
    assert forall|j: int| 1 <= j < 1 + nl implies #[trigger] s[j] == name[j - 1] by {}
    assert(s[1 + nl] == '>');
    assert forall|j: int| 2 + nl <= j < 2 + nl + l1 implies #[trigger] s[j] == fill1[
        j - (2 + nl)
    ] by {}
    assert(s[2 + nl + l1] == '<');
    assert forall|j: int| 3 + nl + l1 <= j < 3 + 2 * nl + l1 implies #[trigger] s[j] == name[
        j - (3 + nl + l1)
    ] by {}
    assert(s[3 + 2 * nl + l1] == '>');
    assert forall|j: int| 4 + 2 * nl + l1 <= j < t2 implies #[trigger] s[j] == fill2[
        j - (4 + 2 * nl + l1)
    ] by {}
    assert(s[t2] == '<');
    assert(s[t2 + 1] == '/');
    assert forall|j: int| t2 + 2 <= j < t2 + 2 + nl implies #[trigger] s[j] == name[
        j - (t2 + 2)
    ] by {}
    assert(s[t2 + 2 + nl] == '>');
    assert forall|j: int| t2 + 3 + nl <= j < len implies #[trigger] s[j] == fill3[
        j - (t2 + 3 + nl)
    ] by {}

    // The opening tag is `(1, 1 + nl)`, named `name`.
    lemma_tag_bounds_at(s, 0, 0, 1 + nl);
    lemma_tag_name_at(s, 1, 1 + nl, name);
    assert(s[1] != '/');

    // The next tag is a same-named opener: the nesting deepens to one.
    lemma_tag_bounds_at(s, 1 + nl, 2 + nl + l1, 3 + 2 * nl + l1);
    lemma_tag_name_at(s, 3 + nl + l1, 3 + 2 * nl + l1, name);
    assert(s[3 + nl + l1] != '/');

    // The one closer that follows closes the nested level, not the outer.
    lemma_tag_bounds_at(s, 3 + 2 * nl + l1, t2, t2 + 2 + nl);
    lemma_tag_name_at(s, t2 + 1, t2 + 2 + nl, name);

    // Nothing follows it, so the outer element stays unterminated.
    lemma_no_tag_after(s, t2 + 2 + nl);
    assert(balance_from(s, name, t2 + 2 + nl, 0) is None);
    assert(balance_from(s, name, 3 + 2 * nl + l1, 1) is None);
    assert(balance_from(s, name, 1 + nl, 0) is None);
}

} // verus!
