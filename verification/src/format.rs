//! The text of an index file: the issue count on the first line, then one
//! line `issue count` for each issue that has a comment counter.

use vstd::prelude::*;
use crate::decimal::{decimal, is_digit, lemma_decimal_digits, lemma_parse_decimal, parse_u32, parse_u32_range, push_decimal};
use crate::error::FsError;
use crate::index::{distinct_keys, pairs_map, Index};
use crate::text::{find, find_in, lemma_find, lemma_find_is, space_tail, trim_end, trim_end_in};

verus! {

/// The line of one issue: the two numbers with a space between them, and a
/// line feed.
pub open spec fn entry_line(p: (u32, u32)) -> Seq<u8> {
    decimal(p.0 as nat) + seq![32u8] + decimal(p.1 as nat) + seq![10u8]
}

/// The lines of the issues `e`, in their order.
pub open spec fn entries_text(e: Seq<(u32, u32)>) -> Seq<u8>
    decreases e.len(),
{
    if e.len() == 0 {
        Seq::empty()
    } else {
        entry_line(e[0]) + entries_text(e.drop_first())
    }
}

/// The text of the index with issue count `count` and comment counters `e`.
pub open spec fn index_text(count: u32, e: Seq<(u32, u32)>) -> Seq<u8> {
    decimal(count as nat) + seq![10u8] + entries_text(e)
}

/// The length of the first line of `s`, its line feed included.
pub open spec fn line_len(s: Seq<u8>) -> int {
    if find(s, 10) < s.len() {
        find(s, 10) + 1
    } else {
        s.len() as int
    }
}

/// The pair that a line after the first denotes: an identifier, one space,
/// and a count that white space may follow. No other line denotes a pair.
pub open spec fn parse_entry(line: Seq<u8>) -> Option<(u32, u32)> {
    let sp = find(line, 32);
    if sp >= line.len() {
        None
    } else {
        let rest = line.skip(sp + 1);
        if find(rest, 32) < rest.len() {
            None
        } else {
            match (parse_u32(line.take(sp)), parse_u32(trim_end(rest))) {
                (Some(k), Some(v)) => Some((k, v)),
                _ => None,
            }
        }
    }
}

/// The pairs that the lines of `s` denote, in their order; nothing where a
/// line denotes no pair.
pub open spec fn parse_entries(s: Seq<u8>) -> Option<Seq<(u32, u32)>>
    decreases s.len(),
    via parse_entries_decreases
{
    if s.len() == 0 {
        Some(Seq::empty())
    } else {
        let n = line_len(s);
        match (parse_entry(s.take(n)), parse_entries(s.skip(n))) {
            (Some(p), Some(rest)) => Some(seq![p] + rest),
            _ => None,
        }
    }
}

#[via_fn]
proof fn parse_entries_decreases(s: Seq<u8>) {
    lemma_find(s, 10);
}

/// The issue count and the pairs that the text of an index denotes; nothing
/// where the text is empty, its first line is no count, or a later line
/// denotes no pair.
pub open spec fn parse_index(s: Seq<u8>) -> Option<(u32, Seq<(u32, u32)>)> {
    if s.len() == 0 {
        None
    } else {
        let n = line_len(s);
        match (parse_u32(trim_end(s.take(n))), parse_entries(s.skip(n))) {
            (Some(c), Some(e)) => Some((c, e)),
            _ => None,
        }
    }
}

/// The end of the line that starts at `pos`, its line feed included.
fn line_end(text: &[u8], pos: usize) -> (end: usize)
    requires
        pos < text@.len(),
    ensures
        pos < end <= text@.len(),
        end == pos + line_len(text@.skip(pos as int)),
        text@.skip(pos as int).take(end - pos) == text@.subrange(pos as int, end as int),
{
    let len = text.len();
    assert(text@.skip(pos as int) =~= text@.subrange(pos as int, len as int));
    let nl = find_in(text, pos, len, 10);
    let end: usize = if nl < len {
        nl + 1
    } else {
        len
    };
    assert(text@.skip(pos as int).take(end - pos) =~= text@.subrange(pos as int, end as int));
    end
}

/// Reads the pair that the line `text[pos..end]` denotes.
fn parse_entry_in(text: &[u8], pos: usize, end: usize) -> (pair: Option<(u32, u32)>)
    requires
        pos <= end <= text@.len(),
    ensures
        pair == parse_entry(text@.subrange(pos as int, end as int)),
{
    let ghost line = text@.subrange(pos as int, end as int);
    let sp = find_in(text, pos, end, 32);
    if sp >= end {
        return None;
    }
    assert(line.skip(sp - pos + 1) =~= text@.subrange(sp + 1, end as int));
    assert(line.take(sp - pos) =~= text@.subrange(pos as int, sp as int));
    let sp2 = find_in(text, sp + 1, end, 32);
    if sp2 < end {
        return None;
    }
    let key = parse_u32_range(text, pos, sp);
    let e = trim_end_in(text, sp + 1, end);
    let value = parse_u32_range(text, sp + 1, e);
    match (key, value) {
        (Some(k), Some(v)) => Some((k, v)),
        _ => None,
    }
}

/// Reads an index from the text of an index file.
pub fn parse_index_text(text: &[u8]) -> (r: Result<Index, FsError>)
    ensures
        match parse_index(text@) {
            Some((count, pairs)) => r matches Ok(index) && index.issue_count() == count
                && index.comment_count() == pairs_map(pairs),
            None => r matches Err(FsError::BadIndex),
        },
{
    let len = text.len();
    if len == 0 {
        return Err(FsError::BadIndex);
    }
    let first = line_end(text, 0);
    assert(text@.skip(0) =~= text@);
    let e = trim_end_in(text, 0, first);
    let count = match parse_u32_range(text, 0, e) {
        Some(c) => c,
        None => {
            return Err(FsError::BadIndex);
        },
    };
    let mut index = Index::new();
    index.set_issue_count(count);
    let mut pos: usize = first;
    let ghost mut acc: Seq<(u32, u32)> = Seq::empty();
    proof {
        match parse_entries(text@.skip(first as int)) {
            Some(rest) => {
                assert(acc + rest =~= rest);
            },
            None => {},
        }
    }
    while pos < len
        invariant
            first <= pos <= len == text@.len(),
            index.issue_count() == count,
            index.comment_count() == pairs_map(acc),
            parse_index(text@) == (match parse_entries(text@.skip(first as int)) {
                Some(pairs) => Some((count, pairs)),
                None => None,
            }),
            parse_entries(text@.skip(first as int)) == (match parse_entries(
                text@.skip(pos as int),
            ) {
                Some(rest) => Some(acc + rest),
                None => None,
            }),
        decreases len - pos,
    {
        let end = line_end(text, pos);
        let ghost here = text@.skip(pos as int);
        assert(here.skip(end - pos) =~= text@.skip(end as int));
        match parse_entry_in(text, pos, end) {
            None => {
                return Err(FsError::BadIndex);
            },
            Some((k, v)) => {
                index.set_comment_count(k, v);
                proof {
                    let next = acc.push((k, v));
                    assert(next.drop_last() =~= acc);
                    match parse_entries(text@.skip(end as int)) {
                        Some(rest) => {
                            assert(acc + (seq![(k, v)] + rest) =~= next + rest);
                        },
                        None => {},
                    }
                    acc = next;
                }
                pos = end;
            },
        }
    }
    assert(acc + Seq::<(u32, u32)>::empty() =~= acc);
    Ok(index)
}

/// Whether `text` is a text of the index with issue count `count` and
/// comment counters `counters`: the count, then the line of each issue
/// once, in some order.
pub open spec fn is_index_text(text: Seq<u8>, count: u32, counters: Map<u32, u32>) -> bool {
    exists|e: Seq<(u32, u32)>|
        #[trigger] index_text(count, e) == text && distinct_keys(e) && pairs_map(e) == counters
}

/// Writes the text of `index`. The lines of the issues come in the order in
/// which the map hands them out.
pub fn index_to_text(index: &Index) -> (text: Vec<u8>)
    ensures
        is_index_text(text@, index.issue_count(), index.comment_count()),
{
    let mut text: Vec<u8> = Vec::new();
    push_decimal(&mut text, index.next_issue_id());
    text.push(10);
    let pairs = index.pairs();
    let n = pairs.len();
    let mut i: usize = 0;
    assert(pairs@.take(0) =~= Seq::<(u32, u32)>::empty());
    assert(text@ =~= index_text(index.issue_count(), pairs@.take(0)));
    while i < n
        invariant
            i <= n == pairs@.len(),
            text@ == index_text(index.issue_count(), pairs@.take(i as int)),
        decreases n - i,
    {
        let (k, v) = pairs[i];
        let ghost before = text@;
        push_decimal(&mut text, k);
        text.push(32);
        push_decimal(&mut text, v);
        text.push(10);
        proof {
            let done = pairs@.take(i as int);
            lemma_entries_text_push(done, (k, v));
            assert(done.push((k, v)) =~= pairs@.take(i + 1));
            assert(text@ =~= before + entry_line((k, v)));
            assert(text@ =~= index_text(index.issue_count(), pairs@.take(i + 1)));
        }
        i = i + 1;
    }
    assert(pairs@.take(n as int) =~= pairs@);
    assert(index_text(index.issue_count(), pairs@) == text@);
    text
}

/// Every text of an index is read back as its issue count and its comment
/// counters, whatever the order of its lines.
pub proof fn lemma_index_text_reads_back(text: Seq<u8>, count: u32, counters: Map<u32, u32>)
    requires
        is_index_text(text, count, counters),
    ensures
        parse_index(text) is Some,
        parse_index(text).unwrap().0 == count,
        pairs_map(parse_index(text).unwrap().1) == counters,
{
    let e = choose|e: Seq<(u32, u32)>|
        #[trigger] index_text(count, e) == text && distinct_keys(e) && pairs_map(e) == counters;
    lemma_parse_index_text(count, e);
}

/// The lines of a list with one more pair are the lines of the list, then
/// the line of that pair.
pub proof fn lemma_entries_text_push(e: Seq<(u32, u32)>, p: (u32, u32))
    ensures
        entries_text(e.push(p)) == entries_text(e) + entry_line(p),
    decreases e.len(),
{
    let f = e.push(p);
    if e.len() == 0 {
        assert(f.drop_first() =~= e);
        assert(entries_text(e) =~= Seq::<u8>::empty());
        assert(entries_text(f) =~= entry_line(p) + entries_text(e));
        assert(entries_text(f) =~= entries_text(e) + entry_line(p));
    } else {
        lemma_entries_text_push(e.drop_first(), p);
        assert(f.drop_first() =~= e.drop_first().push(p));
        assert(f[0] == e[0]);
        assert(entries_text(f) =~= entries_text(e) + entry_line(p));
    }
}

/// The decimal text of a number, with a line feed behind it or not, is read
/// back as that number once trimmed, and holds no space and no line feed.
pub proof fn lemma_decimal_trimmed(n: u32)
    ensures
        trim_end(decimal(n as nat) + seq![10u8]) == decimal(n as nat),
        forall|i: int| 0 <= i < decimal(n as nat).len() ==> is_digit(#[trigger] decimal(n as nat)[i]),
        decimal(n as nat).len() > 0,
{
    let d = decimal(n as nat);
    lemma_decimal_digits(n as nat);
    let t = d + seq![10u8];
    assert(t[t.len() - 1] == 10);
    assert(space_tail(t) == 1);
    assert(t.take(t.len() - 1) =~= d);
    assert(is_digit(d[d.len() - 1]));
    assert(space_tail(d) == 0);
    assert(trim_end(d) == d);
    assert(trim_end(t) == trim_end(t.take(t.len() - 1)));
}

/// The line of a pair is read back as that pair, and a text that starts
/// with it has it as first line.
pub proof fn lemma_entry_line(p: (u32, u32), rest: Seq<u8>)
    ensures
        parse_entry(entry_line(p)) == Some(p),
        line_len(entry_line(p) + rest) == entry_line(p).len(),
        entry_line(p).len() > 0,
{
    let dk = decimal(p.0 as nat);
    let dv = decimal(p.1 as nat);
    let line = entry_line(p);
    lemma_decimal_trimmed(p.0);
    lemma_decimal_trimmed(p.1);
    lemma_parse_decimal(p.0);
    lemma_parse_decimal(p.1);
    assert(line.len() == dk.len() + dv.len() + 2);
    assert forall|j: int| 0 <= j < dk.len() implies line[j] != 32 && line[j] != 10 by {
        assert(line[j] == dk[j]);
    }
    assert forall|j: int| dk.len() < j < line.len() - 1 implies line[j] != 32 && line[j] != 10 by {
        assert(line[j] == dv[j - dk.len() - 1]);
    }
    assert(line[dk.len() as int] == 32);
    assert(line[line.len() - 1] == 10);
    lemma_find_is(line, 32, dk.len() as int);
    let tail = line.skip(dk.len() as int + 1);
    assert(tail =~= dv + seq![10u8]);
    assert forall|j: int| 0 <= j < tail.len() implies tail[j] != 32 by {
        if j < dv.len() {
            assert(tail[j] == dv[j]);
        }
    }
    lemma_find_is(tail, 32, tail.len() as int);
    assert(line.take(dk.len() as int) =~= dk);
    let whole = line + rest;
    assert forall|j: int| 0 <= j < line.len() - 1 implies whole[j] != 10 by {
        assert(whole[j] == line[j]);
    }
    assert(whole[line.len() - 1] == 10);
    lemma_find_is(whole, 10, line.len() - 1);
}

/// The lines of a list of pairs are read back as that list.
pub proof fn lemma_parse_entries_text(e: Seq<(u32, u32)>)
    ensures
        parse_entries(entries_text(e)) == Some(e),
    decreases e.len(),
{
    if e.len() > 0 {
        let line = entry_line(e[0]);
        let rest = entries_text(e.drop_first());
        let s = entries_text(e);
        lemma_entry_line(e[0], rest);
        lemma_parse_entries_text(e.drop_first());
        assert(s.take(line.len() as int) =~= line);
        assert(s.skip(line.len() as int) =~= rest);
        assert(seq![e[0]] + e.drop_first() =~= e);
    }
}

/// Reading the text of an index gives back its issue count and its comment
/// counters.
pub proof fn lemma_parse_index_text(count: u32, e: Seq<(u32, u32)>)
    ensures
        parse_index(index_text(count, e)) == Some((count, e)),
{
    let d = decimal(count as nat);
    let head = d + seq![10u8];
    let rest = entries_text(e);
    let s = index_text(count, e);
    lemma_decimal_trimmed(count);
    lemma_parse_decimal(count);
    lemma_parse_entries_text(e);
    assert(s =~= head + rest);
    assert forall|j: int| 0 <= j < d.len() implies s[j] != 10 by {
        assert(s[j] == d[j]);
    }
    assert(s[d.len() as int] == 10);
    lemma_find_is(s, 10, d.len() as int);
    assert(s.take(head.len() as int) =~= head);
    assert(s.skip(head.len() as int) =~= rest);
}

} // verus!
