//! Scanner primitives: locating delimiter characters and tag boundaries
//! inside a character buffer.

use vstd::prelude::*;

verus! {

/// Whitespace for the purposes of tag-name and attribute separation.
pub open spec fn spec_is_space(c: char) -> bool {
    c == ' ' || c == '\t' || c == '\n' || c == '\r'
}

/// Whether `c` separates a tag name from the attribute text.
#[verifier::when_used_as_spec(spec_is_space)]
pub fn is_space(c: char) -> (r: bool)
    ensures
        r == spec_is_space(c),
{
    c == ' ' || c == '\t' || c == '\n' || c == '\r'
}

/// The least index in `[from, end)` at which `s` holds `c`, if any.
pub open spec fn find_char_in(s: Seq<char>, from: int, end: int, c: char) -> Option<int>
    decreases end - from,
{
    if from < 0 || from >= end || end > s.len() {
        None
    } else if s[from] == c {
        Some(from)
    } else {
        find_char_in(s, from + 1, end, c)
    }
}

/// `find_char_in` yields the least index holding `c`, and `None` exactly
/// when `c` is absent from `[from, end)`.
pub proof fn lemma_find_char_in(s: Seq<char>, from: int, end: int, c: char)
    requires
        0 <= from,
        end <= s.len(),
    ensures
        match find_char_in(s, from, end, c) {
            Some(i) => {
                &&& from <= i < end
                &&& s[i] == c
                &&& forall|j: int| from <= j < i ==> s[j] != c
            },
            None => forall|j: int| from <= j < end ==> s[j] != c,
        },
    decreases end - from,
{
    if from < end && s[from] != c {
        lemma_find_char_in(s, from + 1, end, c);
    }
}

/// If `c` first occurs at `i`, the search finds exactly `i`.
pub proof fn lemma_find_char_in_present(s: Seq<char>, from: int, end: int, c: char, i: int)
    requires
        0 <= from <= i < end <= s.len(),
        s[i] == c,
        forall|j: int| from <= j < i ==> s[j] != c,
    ensures
        find_char_in(s, from, end, c) == Some(i),
{
    lemma_find_char_in(s, from, end, c);
}

/// If `c` does not occur in `[from, end)`, the search finds nothing.
pub proof fn lemma_find_char_in_absent(s: Seq<char>, from: int, end: int, c: char)
    requires
        0 <= from,
        end <= s.len(),
        forall|j: int| from <= j < end ==> s[j] != c,
    ensures
        find_char_in(s, from, end, c) is None,
{
    lemma_find_char_in(s, from, end, c);
}

/// The least index in `[from, end)` holding whitespace, or `end` if none.
pub open spec fn space_end(s: Seq<char>, from: int, end: int) -> int
    decreases end - from,
{
    if from < 0 || from >= end || end > s.len() {
        end
    } else if spec_is_space(s[from]) {
        from
    } else {
        space_end(s, from + 1, end)
    }
}

/// `space_end` yields the least whitespace index, or `end` when none exists.
pub proof fn lemma_space_end(s: Seq<char>, from: int, end: int)
    requires
        0 <= from <= end <= s.len(),
    ensures
        from <= space_end(s, from, end) <= end,
        space_end(s, from, end) < end ==> spec_is_space(s[space_end(s, from, end)]),
        forall|j: int| from <= j < space_end(s, from, end) ==> !spec_is_space(s[j]),
    decreases end - from,
{
    if from < end && !spec_is_space(s[from]) {
        lemma_space_end(s, from + 1, end);
    }
}

/// The least index in `[from, end)` at which `s` holds `c`, searched
/// iteratively.
pub(crate) fn find_to(s: &str, from: usize, end: usize, c: char) -> (r: Option<usize>)
    requires
        from <= end <= s@.len(),
    ensures
        match r {
            Some(i) => from <= i < end && find_char_in(s@, from as int, end as int, c) == Some(
                i as int,
            ),
            None => find_char_in(s@, from as int, end as int, c) is None,
        },
{
    let mut i = from;
    while i < end
        invariant
            from <= i <= end <= s@.len(),
            forall|j: int| from <= j < i ==> s@[j] != c,
        decreases end - i,
    {
        if s.get_char(i) == c {
            proof {
                lemma_find_char_in_present(s@, from as int, end as int, c, i as int);
            }
            return Some(i);
        }
        i += 1;
    }
    proof {
        lemma_find_char_in_absent(s@, from as int, end as int, c);
    }
    None
}

/// The zero-based offset of the first occurrence of `c` in `s`, if any.
/// An empty or exhausted `s` yields `None`.
pub fn count_until(s: &str, c: char) -> (r: Option<usize>)
    ensures
        match r {
            Some(i) => {
                &&& i < s@.len()
                &&& s@[i as int] == c
                &&& forall|j: int| 0 <= j < i ==> s@[j] != c
            },
            None => forall|j: int| 0 <= j < s@.len() ==> s@[j] != c,
        },
{
    let n = s.unicode_len();
    let r = find_to(s, 0, n, c);
    proof {
        lemma_find_char_in(s@, 0, s@.len() as int, c);
    }
    r
}

/// The interior bounds of the first tag at or after `from`: the index just
/// past its `<` and the index of its `>`.  `None` when either delimiter is
/// missing.
pub open spec fn tag_bounds_from(s: Seq<char>, from: int) -> Option<(int, int)> {
    match find_char_in(s, from, s.len() as int, '<') {
        None => None,
        Some(lt) => match find_char_in(s, lt, s.len() as int, '>') {
            None => None,
            Some(gt) => Some((lt + 1, gt)),
        },
    }
}

/// Bounds produced by `tag_bounds_from` delimit a genuine `<...>` region
/// after `from`.
pub proof fn lemma_tag_bounds_from(s: Seq<char>, from: int)
    requires
        0 <= from <= s.len(),
    ensures
        match tag_bounds_from(s, from) {
            Some(p) => {
                &&& from < p.0 <= p.1 < s.len()
                &&& s[p.0 - 1] == '<'
                &&& s[p.1] == '>'
            },
            None => true,
        },
{
    lemma_find_char_in(s, from, s.len() as int, '<');
    if let Some(lt) = find_char_in(s, from, s.len() as int, '<') {
        lemma_find_char_in(s, lt, s.len() as int, '>');
    }
}

/// The interior bounds of the first tag at or after `from`, searched
/// iteratively.
pub(crate) fn tag_from(s: &str, from: usize) -> (r: Option<(usize, usize)>)
    requires
        from <= s@.len(),
    ensures
        match r {
            Some(p) => {
                &&& tag_bounds_from(s@, from as int) == Some((p.0 as int, p.1 as int))
                &&& from < p.0 <= p.1 < s@.len()
                &&& s@[p.0 - 1] == '<'
                &&& s@[p.1 as int] == '>'
            },
            None => tag_bounds_from(s@, from as int) is None,
        },
{
    let n = s.unicode_len();
    proof {
        lemma_tag_bounds_from(s@, from as int);
    }
    match find_to(s, from, n, '<') {
        None => None,
        Some(lt) => match find_to(s, lt, n, '>') {
            None => None,
            Some(gt) => Some((lt + 1, gt)),
        },
    }
}

/// The interior bounds of the first `<...>` tag in `s`: the index just past
/// `<` and the index of `>`.
pub fn get_tag_pos(s: &str) -> (r: Option<(usize, usize)>)
    ensures
        match r {
            Some(p) => {
                &&& tag_bounds_from(s@, 0) == Some((p.0 as int, p.1 as int))
                &&& 0 < p.0 <= p.1 < s@.len()
                &&& s@[p.0 - 1] == '<'
                &&& s@[p.1 as int] == '>'
            },
            None => tag_bounds_from(s@, 0) is None,
        },
{
    tag_from(s, 0)
}

/// The first whitespace position in `[from, end)`, or `end` if none,
/// searched iteratively.
pub(crate) fn scan_space(s: &str, from: usize, end: usize) -> (r: usize)
    requires
        from <= end <= s@.len(),
    ensures
        from <= r <= end,
        r == space_end(s@, from as int, end as int),
{
    let mut i = from;
    while i < end
        invariant
            from <= i <= end <= s@.len(),
            space_end(s@, from as int, end as int) == space_end(s@, i as int, end as int),
        decreases end - i,
    {
        if is_space(s.get_char(i)) {
            return i;
        }
        i += 1;
    }
    i
}

/// Where a tag's name begins inside an interior starting at `a`: one past a
/// leading `/`, which marks a closing tag.
pub open spec fn name_start(s: Seq<char>, a: int) -> int {
    if s[a] == '/' {
        a + 1
    } else {
        a
    }
}

/// The name of the tag whose interior bounds are `(a, b)`: from past any
/// leading `/` up to the first whitespace character, or to `b` if none.
pub open spec fn spec_tag_name(s: Seq<char>, a: int, b: int) -> Seq<char> {
    s.subrange(name_start(s, a), space_end(s, name_start(s, a), b))
}

/// The name of the tag whose interior bounds in `s` are `pos`, as produced
/// by `get_tag_pos`.
pub fn get_tag_name(s: &str, pos: (usize, usize)) -> (r: &str)
    requires
        pos.0 <= pos.1 < s@.len(),
        s@[pos.1 as int] == '>',
    ensures
        r@ == spec_tag_name(s@, pos.0 as int, pos.1 as int),
{
    let start = if s.get_char(pos.0) == '/' {
        pos.0 + 1
    } else {
        pos.0
    };
    let end = scan_space(s, start, pos.1);
    s.substring_char(start, end)
}

/// Whether two strings hold the same characters.
pub fn str_eq(a: &str, b: &str) -> (r: bool)
    ensures
        r <==> a@ == b@,
{
    let n = a.unicode_len();
    if n != b.unicode_len() {
        return false;
    }
    let mut i: usize = 0;
    while i < n
        invariant
            i <= n,
            n == a@.len() == b@.len(),
            forall|j: int| 0 <= j < i ==> a@[j] == b@[j],
        decreases n - i,
    {
        if a.get_char(i) != b.get_char(i) {
            return false;
        }
        i += 1;
    }
    proof {
        assert(a@ =~= b@);
    }
    true
}

} // verus!
