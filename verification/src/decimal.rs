//! Decimal text of unsigned 32-bit identifiers, as bytes.

use vstd::prelude::*;

verus! {

/// Whether `b` is an ASCII decimal digit.
pub open spec fn is_digit(b: u8) -> bool {
    48 <= b <= 57
}

/// Whether every byte of `s` is a decimal digit.
pub open spec fn all_digits(s: Seq<u8>) -> bool {
    forall|i: int| 0 <= i < s.len() ==> is_digit(#[trigger] s[i])
}

/// The number that a string of digits denotes, most significant digit first.
pub open spec fn digits_value(s: Seq<u8>) -> nat
    decreases s.len(),
{
    if s.len() == 0 {
        0
    } else {
        digits_value(s.drop_last()) * 10 + (s.last() - 48) as nat
    }
}

/// The digits of an identifier once an optional leading `+` is taken off.
pub open spec fn unsigned_part(s: Seq<u8>) -> Seq<u8> {
    if s.len() > 0 && s[0] == 43 {
        s.skip(1)
    } else {
        s
    }
}

/// The identifier that `s` denotes: an optional `+`, then one or more decimal
/// digits whose value fits in 32 bits. Anything else denotes nothing.
pub open spec fn parse_u32(s: Seq<u8>) -> Option<u32> {
    let d = unsigned_part(s);
    if d.len() > 0 && all_digits(d) && digits_value(d) <= u32::MAX {
        Some(digits_value(d) as u32)
    } else {
        None
    }
}

/// The shortest decimal text of `n`.
pub open spec fn decimal(n: nat) -> Seq<u8>
    decreases n,
{
    if n < 10 {
        seq![(48 + n) as u8]
    } else {
        decimal(n / 10).push((48 + n % 10) as u8)
    }
}

/// A longer string of digits denotes no smaller a number than its prefix.
pub proof fn lemma_digits_value_prefix(s: Seq<u8>, i: int)
    requires
        0 <= i <= s.len(),
        all_digits(s),
    ensures
        digits_value(s.take(i)) <= digits_value(s),
    decreases s.len(),
{
    if i == s.len() {
        assert(s.take(i) =~= s);
    } else {
        lemma_digits_value_prefix(s.drop_last(), i);
        assert(s.drop_last().take(i) =~= s.take(i));
        assert(is_digit(s[s.len() - 1]));
    }
}

/// The decimal text of a number is made of digits only and denotes that number.
pub proof fn lemma_decimal_digits(n: nat)
    ensures
        decimal(n).len() > 0,
        all_digits(decimal(n)),
        digits_value(decimal(n)) == n,
    decreases n,
{
    if n < 10 {
        let s = decimal(n);
        assert(s.drop_last() =~= Seq::<u8>::empty());
        assert(digits_value(s.drop_last()) == 0);
    } else {
        lemma_decimal_digits(n / 10);
        let p = decimal(n / 10);
        let s = decimal(n);
        assert(s.drop_last() =~= p);
        assert(s.last() == (48 + n % 10) as u8);
    }
}

/// Reading the decimal text of an identifier gives the identifier back.
pub proof fn lemma_parse_decimal(n: u32)
    ensures
        parse_u32(decimal(n as nat)) == Some(n),
{
    lemma_decimal_digits(n as nat);
    let s = decimal(n as nat);
    assert(is_digit(s[0]));
}

/// Reads the identifier written in `s[start..end]`.
pub fn parse_u32_range(s: &[u8], start: usize, end: usize) -> (r: Option<u32>)
    requires
        start <= end <= s@.len(),
    ensures
        r == parse_u32(s@.subrange(start as int, end as int)),
{
    let ghost whole = s@.subrange(start as int, end as int);
    let mut i: usize = start;
    if start < end && s[start] == 43 {
        i = start + 1;
    }
    let first: usize = i;
    let ghost d = s@.subrange(first as int, end as int);
    assert(d =~= unsigned_part(whole));
    if first == end {
        return None;
    }
    let mut acc: u64 = 0;
    while i < end
        invariant
            start <= first <= i <= end <= s@.len(),
            whole == s@.subrange(start as int, end as int),
            d == s@.subrange(first as int, end as int),
            d == unsigned_part(whole),
            d.len() > 0,
            all_digits(d.take(i - first)),
            acc == digits_value(d.take(i - first)),
            acc <= u32::MAX,
        decreases end - i,
    {
        let b: u8 = s[i];
        assert(d[i - first] == b);
        if b < 48 || b > 57 {
            return None;
        }
        let next: u64 = acc * 10 + (b - 48) as u64;
        proof {
            let q = d.take(i - first + 1);
            assert(q.drop_last() =~= d.take(i - first));
            assert(q.last() == b);
            assert(digits_value(q) == next);
            assert forall|j: int| 0 <= j < q.len() implies is_digit(#[trigger] q[j]) by {
                if j < q.len() - 1 {
                    assert(q[j] == d.take(i - first)[j]);
                }
            }
        }
        if next > 0xffff_ffff {
            proof {
                if all_digits(d) {
                    lemma_digits_value_prefix(d, i - first + 1);
                }
            }
            return None;
        }
        acc = next;
        i = i + 1;
    }
    assert(d.take(i - first) =~= d);
    Some(acc as u32)
}

/// Appends the shortest decimal text of `n` to `out`.
pub fn push_decimal(out: &mut Vec<u8>, n: u32)
    ensures
        final(out)@ == old(out)@ + decimal(n as nat),
    decreases n,
{
    if n >= 10 {
        push_decimal(out, n / 10);
    }
    let digit: u8 = 48 + (n % 10) as u8;
    out.push(digit);
    assert(final(out)@ =~= old(out)@ + decimal(n as nat));
}

/// The shortest decimal text of `n`: the name under which an entity with this
/// identifier is kept.
pub fn entry_name(n: u32) -> (name: Vec<u8>)
    ensures
        name@ == decimal(n as nat),
{
    let mut name: Vec<u8> = Vec::new();
    push_decimal(&mut name, n);
    assert(name@ =~= decimal(n as nat));
    name
}

} // verus!
