//! Searching and trimming byte strings.

use vstd::prelude::*;

verus! {

/// The position of the first `b` in `s`, or the length of `s` where it holds none.
pub open spec fn find(s: Seq<u8>, b: u8) -> int
    decreases s.len(),
{
    if s.len() == 0 || s[0] == b {
        0
    } else {
        1 + find(s.drop_first(), b)
    }
}

/// `find` gives a position within `s`, with no `b` before it and, unless it
/// is the end of `s`, a `b` at it.
pub proof fn lemma_find(s: Seq<u8>, b: u8)
    ensures
        0 <= find(s, b) <= s.len(),
        forall|j: int| 0 <= j < find(s, b) ==> s[j] != b,
        find(s, b) < s.len() ==> s[find(s, b)] == b,
    decreases s.len(),
{
    if s.len() == 0 || s[0] == b {
    } else {
        let t = s.drop_first();
        lemma_find(t, b);
        assert forall|j: int| 0 <= j < find(s, b) implies s[j] != b by {
            if j > 0 {
                assert(s[j] == t[j - 1]);
            }
        }
    }
}

/// A position with no `b` before it that is the end of `s` or holds a `b` is
/// the one that `find` gives.
pub proof fn lemma_find_is(s: Seq<u8>, b: u8, p: int)
    requires
        0 <= p <= s.len(),
        forall|j: int| 0 <= j < p ==> s[j] != b,
        p < s.len() ==> s[p] == b,
    ensures
        find(s, b) == p,
{
    lemma_find(s, b);
    let q = find(s, b);
    if q < p {
        assert(s[q] != b);
    } else if p < q {
        assert(s[p] == b);
    }
}

/// The first position of `b` in `s[start..end]`, counted in `s`; `end` where
/// there is none.
pub fn find_in(s: &[u8], start: usize, end: usize, b: u8) -> (p: usize)
    requires
        start <= end <= s@.len(),
    ensures
        start <= p <= end,
        p == start + find(s@.subrange(start as int, end as int), b),
{
    let ghost part = s@.subrange(start as int, end as int);
    let mut i: usize = start;
    while i < end && s[i] != b
        invariant
            start <= i <= end <= s@.len(),
            part == s@.subrange(start as int, end as int),
            forall|j: int| 0 <= j < i - start ==> part[j] != b,
        decreases end - i,
    {
        assert(part[i - start] == s@[i as int]);
        i = i + 1;
    }
    proof {
        if i < end {
            assert(part[i - start] == s@[i as int]);
        }
        lemma_find_is(part, b, i - start);
    }
    i
}

/// Whether `b` is one of the white-space characters that take one byte.
pub open spec fn is_narrow_space(b: u8) -> bool {
    (9 <= b <= 13) || b == 32
}

/// Whether `a b` encodes one of the white-space characters that take two bytes.
pub open spec fn is_medium_space(a: u8, b: u8) -> bool {
    a == 0xC2 && (b == 0x85 || b == 0xA0)
}

/// Whether `a b c` encodes one of the white-space characters that take three bytes.
pub open spec fn is_wide_space(a: u8, b: u8, c: u8) -> bool {
    ||| (a == 0xE1 && b == 0x9A && c == 0x80)
    ||| (a == 0xE2 && b == 0x80 && (0x80 <= c <= 0x8A || c == 0xA8 || c == 0xA9 || c == 0xAF))
    ||| (a == 0xE2 && b == 0x81 && c == 0x9F)
    ||| (a == 0xE3 && b == 0x80 && c == 0x80)
}

/// The number of bytes that the white-space character at the end of `s`
/// takes, 0 where `s` does not end in one.
pub open spec fn space_tail(s: Seq<u8>) -> int {
    let n = s.len() as int;
    if n >= 1 && is_narrow_space(s[n - 1]) {
        1
    } else if n >= 2 && is_medium_space(s[n - 2], s[n - 1]) {
        2
    } else if n >= 3 && is_wide_space(s[n - 3], s[n - 2], s[n - 1]) {
        3
    } else {
        0
    }
}

/// `s` without the white space at its end.
pub open spec fn trim_end(s: Seq<u8>) -> Seq<u8>
    decreases s.len(),
{
    if space_tail(s) > 0 {
        trim_end(s.take(s.len() - space_tail(s)))
    } else {
        s
    }
}

/// The end of `s[start..end]` once the white space at its end is taken off.
pub fn trim_end_in(s: &[u8], start: usize, end: usize) -> (e: usize)
    requires
        start <= end <= s@.len(),
    ensures
        start <= e <= end,
        s@.subrange(start as int, e as int) == trim_end(s@.subrange(start as int, end as int)),
{
    let mut e: usize = end;
    loop
        invariant
            start <= e <= end <= s@.len(),
            trim_end(s@.subrange(start as int, e as int)) == trim_end(
                s@.subrange(start as int, end as int),
            ),
        decreases e,
    {
        let ghost part = s@.subrange(start as int, e as int);
        let n: usize = e - start;
        let mut tail: usize = 0;
        if n >= 1 && ((9 <= s[e - 1] && s[e - 1] <= 13) || s[e - 1] == 32) {
            tail = 1;
        } else if n >= 2 && s[e - 2] == 0xC2 && (s[e - 1] == 0x85 || s[e - 1] == 0xA0) {
            tail = 2;
        } else if n >= 3 {
            let a: u8 = s[e - 3];
            let b: u8 = s[e - 2];
            let c: u8 = s[e - 1];
            if (a == 0xE1 && b == 0x9A && c == 0x80) || (a == 0xE2 && b == 0x80 && ((0x80 <= c
                && c <= 0x8A) || c == 0xA8 || c == 0xA9 || c == 0xAF)) || (a == 0xE2 && b == 0x81
                && c == 0x9F) || (a == 0xE3 && b == 0x80 && c == 0x80) {
                tail = 3;
            }
        }
        proof {
            if n >= 1 {
                assert(part[n - 1] == s@[e - 1]);
            }
            if n >= 2 {
                assert(part[n - 2] == s@[e - 2]);
            }
            if n >= 3 {
                assert(part[n - 3] == s@[e - 3]);
            }
            assert(tail == space_tail(part));
            assert(part.take(part.len() - tail) =~= s@.subrange(start as int, e - tail));
        }
        if tail == 0 {
            return e;
        }
        e = e - tail;
    }
}

} // verus!
