//! Small helpers on text, stated over sequences of characters.

use vstd::prelude::*;
use vstd::string::*;

verus! {

/// Where `c` first stands in `s`; the length of `s` if it does not occur.
pub open spec fn first_index(s: Seq<char>, c: char) -> int
    decreases s.len(),
{
    if s.len() == 0 || s[0] == c {
        0
    } else {
        1 + first_index(s.drop_first(), c)
    }
}

/// What `first_index` finds is the first occurrence, or the end.
pub proof fn lemma_first_index(s: Seq<char>, c: char)
    ensures
        0 <= first_index(s, c) <= s.len(),
        forall|j: int| 0 <= j < first_index(s, c) ==> s[j] != c,
        first_index(s, c) < s.len() ==> s[first_index(s, c)] == c,
    decreases s.len(),
{
    if s.len() == 0 || s[0] == c {
    } else {
        let t = s.drop_first();
        lemma_first_index(t, c);
        assert forall|j: int| 0 <= j < first_index(s, c) implies s[j] != c by {
            if j > 0 {
                assert(s[j] == t[j - 1]);
            }
        }
        if first_index(s, c) < s.len() {
            assert(s[first_index(s, c)] == t[first_index(t, c)]);
        }
    }
}

/// An index with `c` at it and none before it is what `first_index` finds.
pub proof fn lemma_first_index_is(s: Seq<char>, c: char, p: int)
    requires
        0 <= p <= s.len(),
        forall|j: int| 0 <= j < p ==> s[j] != c,
        p < s.len() ==> s[p] == c,
    ensures
        first_index(s, c) == p,
{
    lemma_first_index(s, c);
    let q = first_index(s, c);
    if q < p {
        assert(s[q] == c);
    } else if p < q {
        assert(s[p] == c);
    }
}

/// Whether `c` is white space: a character with Unicode's `White_Space`
/// property.
pub open spec fn white_space(c: char) -> bool {
    let u = c as u32;
    ||| 9 <= u <= 13
    ||| u == 0x20
    ||| u == 0x85
    ||| u == 0xA0
    ||| u == 0x1680
    ||| 0x2000 <= u <= 0x200A
    ||| u == 0x2028
    ||| u == 0x2029
    ||| u == 0x202F
    ||| u == 0x205F
    ||| u == 0x3000
}

/// `s` without the white space at its start.
pub open spec fn trim_start(s: Seq<char>) -> Seq<char>
    decreases s.len(),
{
    if s.len() > 0 && white_space(s[0]) {
        trim_start(s.drop_first())
    } else {
        s
    }
}

/// `s` without the white space at its end.
pub open spec fn trim_end(s: Seq<char>) -> Seq<char>
    decreases s.len(),
{
    if s.len() > 0 && white_space(s.last()) {
        trim_end(s.drop_last())
    } else {
        s
    }
}

/// `s` without the white space at its two ends.
pub open spec fn trimmed(s: Seq<char>) -> Seq<char> {
    trim_end(trim_start(s))
}

/// The part of `s` before its first `c`; all of `s` if it has none.
pub open spec fn before(s: Seq<char>, c: char) -> Seq<char> {
    s.subrange(0, first_index(s, c))
}

/// The part of `s` behind its first `c`, if it has one.
pub open spec fn behind(s: Seq<char>, c: char) -> Option<Seq<char>> {
    if first_index(s, c) < s.len() {
        Some(s.subrange(first_index(s, c) + 1, s.len() as int))
    } else {
        None
    }
}

/// Whether two texts hold the same characters.
pub fn str_eq(a: &str, b: &str) -> (r: bool)
    ensures
        r == (a@ == b@),
{
    let n = a.unicode_len();
    if b.unicode_len() != n {
        return false;
    }
    let mut i: usize = 0;
    while i < n
        invariant
            i <= n,
            n == a@.len(),
            n == b@.len(),
            forall|j: int| 0 <= j < i ==> a@[j] == b@[j],
        decreases n - i,
    {
        if a.get_char(i) != b.get_char(i) {
            return false;
        }
        i += 1;
    }
    proof {
        assert(a@ =~= b@);
    }
    true
}

/// Where `c` first stands in `s`; the length of `s` if it does not occur.
pub fn find_char(s: &str, c: char) -> (r: usize)
    ensures
        r == first_index(s@, c),
        r <= s@.len(),
{
    let len = s.unicode_len();
    let mut p: usize = 0;
    while p < len && s.get_char(p) != c
        invariant
            p <= len,
            len == s@.len(),
            forall|j: int| 0 <= j < p ==> s@[j] != c,
        decreases len - p,
    {
        p += 1;
    }
    proof {
        lemma_first_index_is(s@, c, p as int);
    }
    p
}

/// The part of `s` before its first `c`, and the part behind it if there is
/// one.
pub fn split_once<'a>(s: &'a str, c: char) -> (r: (&'a str, Option<&'a str>))
    ensures
        r.0@ == before(s@, c),
        match r.1 {
            Some(rest) => behind(s@, c) == Some(rest@),
            None => behind(s@, c) is None,
        },
{
    let len = s.unicode_len();
    let p = find_char(s, c);
    let head = s.substring_char(0, p);
    if p < len {
        (head, Some(s.substring_char(p + 1, len)))
    } else {
        (head, None)
    }
}

/// Whether `c` is white space.
pub fn is_white_space(c: char) -> (r: bool)
    ensures
        r == white_space(c),
{
    let u = c as u32;
    (9 <= u && u <= 13) || u == 0x20 || u == 0x85 || u == 0xA0 || u == 0x1680 || (0x2000 <= u && u
        <= 0x200A) || u == 0x2028 || u == 0x2029 || u == 0x202F || u == 0x205F || u == 0x3000
}

/// `s` without the white space at its two ends.
pub fn trim(s: &str) -> (r: &str)
    ensures
        r@ == trimmed(s@),
{
    let len = s.unicode_len();
    let mut from: usize = 0;
    proof {
        assert(s@.subrange(0, len as int) =~= s@);
    }
    while from < len && is_white_space(s.get_char(from))
        invariant
            from <= len,
            len == s@.len(),
            trim_start(s@) == trim_start(s@.subrange(from as int, len as int)),
        decreases len - from,
    {
        proof {
            let rest = s@.subrange(from as int, len as int);
            assert(rest[0] == s@[from as int]);
            assert(rest.drop_first() =~= s@.subrange(from + 1, len as int));
        }
        from += 1;
    }
    let ghost stem = s@.subrange(from as int, len as int);
    proof {
        if from < len {
            assert(stem[0] == s@[from as int]);
        }
        assert(trim_start(s@) == stem);
        assert(s@.subrange(from as int, len as int) == stem);
    }
    let mut to: usize = len;
    while to > from && is_white_space(s.get_char(to - 1))
        invariant
            from <= to <= len,
            len == s@.len(),
            trim_end(stem) == trim_end(s@.subrange(from as int, to as int)),
        decreases to - from,
    {
        proof {
            let rest = s@.subrange(from as int, to as int);
            assert(rest.last() == s@[to - 1]);
            assert(rest.drop_last() =~= s@.subrange(from as int, to - 1));
        }
        to -= 1;
    }
    proof {
        let rest = s@.subrange(from as int, to as int);
        if to > from {
            assert(rest.last() == s@[to - 1]);
        }
    }
    s.substring_char(from, to)
}

} // verus!
