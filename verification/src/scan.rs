//! Rebuilding the index from the names found in the directory tree.

use vstd::prelude::*;
use crate::decimal::{parse_u32, parse_u32_range};
use crate::error::FsError;
use crate::index::{pairs_map, Index};

verus! {

/// One entry of the root directory: its name, and the names of the entries
/// in it (none for the index file, which is not looked into).
#[derive(Debug, Clone)]
pub struct ScanEntry {
    pub name: Vec<u8>,
    pub comments: Vec<Vec<u8>>,
}

/// The names in `v` as byte strings.
pub open spec fn names_view(v: Seq<Vec<u8>>) -> Seq<Seq<u8>> {
    Seq::new(v.len(), |i: int| v[i]@)
}

/// The name of the index file, `index.txt`.
pub open spec fn index_name() -> Seq<u8> {
    seq![105u8, 110u8, 100u8, 101u8, 120u8, 46u8, 116u8, 120u8, 116u8]
}

/// The identifier that an entry's name denotes. The largest 32-bit number
/// names no entry, as the count one past it could not be kept.
pub open spec fn entry_id(name: Seq<u8>) -> Option<u32> {
    match parse_u32(name) {
        Some(id) => if id < u32::MAX {
            Some(id)
        } else {
            None
        },
        None => None,
    }
}

/// One past the largest identifier among `names`, 0 where there are none;
/// nothing where a name denotes no identifier.
pub open spec fn id_bound(names: Seq<Seq<u8>>) -> Option<u32>
    decreases names.len(),
{
    if names.len() == 0 {
        Some(0)
    } else {
        match (id_bound(names.drop_last()), entry_id(names.last())) {
            (Some(b), Some(id)) => Some(
                if b > id {
                    b
                } else {
                    (id + 1) as u32
                },
            ),
            _ => None,
        }
    }
}

/// The issue count and the comment counters that a scan of the tree gives:
/// the index file is passed over, every other entry names an issue and
/// holds entries that name comments. Nothing where a name denotes no
/// identifier.
pub open spec fn scan(entries: Seq<ScanEntry>) -> Option<(u32, Seq<(u32, u32)>)>
    decreases entries.len(),
{
    if entries.len() == 0 {
        Some((0, Seq::empty()))
    } else {
        let e = entries.last();
        match scan(entries.drop_last()) {
            None => None,
            Some((count, pairs)) => if e.name@ == index_name() {
                Some((count, pairs))
            } else {
                match (entry_id(e.name@), id_bound(names_view(e.comments@))) {
                    (Some(id), Some(n)) => Some(
                        (
                            if count > id {
                                count
                            } else {
                                (id + 1) as u32
                            },
                            pairs.push((id, n)),
                        ),
                    ),
                    _ => None,
                }
            },
        }
    }
}

/// Where some of the names denote no bound, all of them denote none.
pub proof fn lemma_id_bound_prefix(names: Seq<Seq<u8>>, j: int)
    requires
        0 <= j <= names.len(),
        id_bound(names.take(j)) is None,
    ensures
        id_bound(names) is None,
    decreases names.len(),
{
    if j == names.len() {
        assert(names.take(j) =~= names);
    } else {
        assert(names.drop_last().take(j) =~= names.take(j));
        lemma_id_bound_prefix(names.drop_last(), j);
    }
}

/// Where the scan of some of the entries fails, the scan of all of them fails.
pub proof fn lemma_scan_prefix(entries: Seq<ScanEntry>, j: int)
    requires
        0 <= j <= entries.len(),
        scan(entries.take(j)) is None,
    ensures
        scan(entries) is None,
    decreases entries.len(),
{
    if j == entries.len() {
        assert(entries.take(j) =~= entries);
    } else {
        assert(entries.drop_last().take(j) =~= entries.take(j));
        lemma_scan_prefix(entries.drop_last(), j);
    }
}

/// Reads the identifier that an entry's name denotes.
pub fn entry_id_of(name: &Vec<u8>) -> (id: Option<u32>)
    ensures
        id == entry_id(name@),
{
    assert(name@.subrange(0, name@.len() as int) =~= name@);
    match parse_u32_range(name.as_slice(), 0, name.len()) {
        Some(id) => if id < u32::MAX {
            Some(id)
        } else {
            None
        },
        None => None,
    }
}

/// One past the largest identifier among `names`.
pub fn id_bound_of(names: &Vec<Vec<u8>>) -> (bound: Option<u32>)
    ensures
        bound == id_bound(names_view(names@)),
{
    let ghost all = names_view(names@);
    let mut bound: u32 = 0;
    let mut i: usize = 0;
    assert(all.take(0) =~= Seq::<Seq<u8>>::empty());
    while i < names.len()
        invariant
            i <= names@.len(),
            all == names_view(names@),
            id_bound(all.take(i as int)) == Some(bound),
        decreases names@.len() - i,
    {
        let ghost next = all.take(i + 1);
        assert(next.drop_last() =~= all.take(i as int));
        assert(next.last() == names@[i as int]@);
        match entry_id_of(&names[i]) {
            Some(id) => {
                if bound <= id {
                    bound = id + 1;
                }
            },
            None => {
                proof {
                    lemma_id_bound_prefix(all, i + 1);
                }
                return None;
            },
        }
        i = i + 1;
    }
    assert(all.take(i as int) =~= all);
    Some(bound)
}

/// Whether `name` is the name of the index file.
pub fn is_index_name(name: &Vec<u8>) -> (b: bool)
    ensures
        b == (name@ == index_name()),
{
    let b = name.len() == 9 && name[0] == 105 && name[1] == 110 && name[2] == 100 && name[3]
        == 101 && name[4] == 120 && name[5] == 46 && name[6] == 116 && name[7] == 120 && name[8]
        == 116;
    proof {
        if b {
            assert(name@ =~= index_name());
        } else if name@.len() == 9 {
            let s = index_name();
            assert(s[0] == 105 && s[1] == 110 && s[2] == 100 && s[3] == 101 && s[4] == 120 && s[5]
                == 46 && s[6] == 116 && s[7] == 120 && s[8] == 116);
        } else {
            assert(index_name().len() == 9);
        }
    }
    b
}

/// Rebuilds the index from the entries of the root directory.
pub fn rebuild_index(entries: &Vec<ScanEntry>) -> (r: Result<Index, FsError>)
    ensures
        match scan(entries@) {
            Some((count, pairs)) => r matches Ok(index) && index.issue_count() == count
                && index.comment_count() == pairs_map(pairs),
            None => r matches Err(FsError::BadDb),
        },
{
    let mut index = Index::new();
    let mut count: u32 = 0;
    let ghost mut acc: Seq<(u32, u32)> = Seq::empty();
    let mut i: usize = 0;
    assert(entries@.take(0) =~= Seq::<ScanEntry>::empty());
    while i < entries.len()
        invariant
            i <= entries@.len(),
            index.comment_count() == pairs_map(acc),
            scan(entries@.take(i as int)) == Some((count, acc)),
        decreases entries@.len() - i,
    {
        let ghost next = entries@.take(i + 1);
        assert(next.drop_last() =~= entries@.take(i as int));
        assert(next.last() == entries@[i as int]);
        let entry = &entries[i];
        if !is_index_name(&entry.name) {
            match (entry_id_of(&entry.name), id_bound_of(&entry.comments)) {
                (Some(id), Some(n)) => {
                    if count <= id {
                        count = id + 1;
                    }
                    index.set_comment_count(id, n);
                    proof {
                        assert(acc.push((id, n)).drop_last() =~= acc);
                        acc = acc.push((id, n));
                    }
                },
                _ => {
                    proof {
                        lemma_scan_prefix(entries@, i + 1);
                    }
                    return Err(FsError::BadDb);
                },
            }
        }
        i = i + 1;
    }
    assert(entries@.take(i as int) =~= entries@);
    index.set_issue_count(count);
    Ok(index)
}

/// A bound is past every identifier among the names, and one past the
/// largest of them: it is 0 where there are no names, and else one past an
/// identifier that is among them. There is none exactly where some name
/// denotes no identifier.
pub proof fn lemma_id_bound(names: Seq<Seq<u8>>)
    ensures
        match id_bound(names) {
            Some(b) => {
                &&& forall|i: int|
                    0 <= i < names.len() ==> entry_id(#[trigger] names[i]) is Some && entry_id(
                        names[i],
                    ).unwrap() < b
                &&& names.len() == 0 ==> b == 0
                &&& names.len() > 0 ==> exists|i: int|
                    0 <= i < names.len() && entry_id(#[trigger] names[i]) == Some((b - 1) as u32)
            },
            None => exists|i: int| 0 <= i < names.len() && entry_id(#[trigger] names[i]) is None,
        },
    decreases names.len(),
{
    if names.len() > 0 {
        let t = names.drop_last();
        let last = names.len() - 1;
        lemma_id_bound(t);
        assert(names[last] == names.last());
        match (id_bound(t), entry_id(names.last())) {
            (Some(b), Some(id)) => {
                assert forall|i: int| 0 <= i < names.len() implies entry_id(
                    #[trigger] names[i],
                ) is Some && entry_id(names[i]).unwrap() < id_bound(names).unwrap() by {
                    if i < last {
                        assert(names[i] == t[i]);
                    }
                }
                if b > id {
                    let w = choose|i: int|
                        0 <= i < t.len() && entry_id(#[trigger] t[i]) == Some((b - 1) as u32);
                    assert(names[w] == t[w]);
                } else {
                    assert(entry_id(names[last]) == Some(id));
                }
            },
            (None, _) => {
                let w = choose|i: int| 0 <= i < t.len() && entry_id(#[trigger] t[i]) is None;
                assert(names[w] == t[w]);
            },
            (Some(_), None) => {
                assert(entry_id(names[last]) is None);
            },
        }
    }
}

/// Whether the entry at `i` is taken for an issue: any but the index file.
pub open spec fn is_issue_at(entries: Seq<ScanEntry>, i: int) -> bool {
    0 <= i < entries.len() && entries[i].name@ != index_name()
}

/// The identifier that the name of the entry at `i` denotes.
pub open spec fn issue_id_at(entries: Seq<ScanEntry>, i: int) -> Option<u32> {
    entry_id(entries[i].name@)
}

/// Whether no issue entry after the one at `i` denotes the same identifier.
pub open spec fn last_of_its_id(entries: Seq<ScanEntry>, i: int) -> bool {
    forall|j: int|
        i < j && #[trigger] is_issue_at(entries, j) ==> issue_id_at(entries, j) != issue_id_at(
            entries,
            i,
        )
}

/// What a scan that succeeds gives. The issue count is past the identifier
/// of every issue entry; it is 0 where there is none, and else one past the
/// identifier of one of them. The issues with a comment counter are those
/// of the issue entries, and the counter of each is the bound of the names
/// in its entry (in the last entry, where several denote the same issue).
pub proof fn lemma_scan_counts(entries: Seq<ScanEntry>)
    requires
        scan(entries) is Some,
    ensures
        ({
            let count = scan(entries).unwrap().0;
            let counters = pairs_map(scan(entries).unwrap().1);
            &&& forall|i: int| #[trigger]
                is_issue_at(entries, i) ==> {
                    &&& issue_id_at(entries, i) is Some
                    &&& issue_id_at(entries, i).unwrap() < count
                    &&& counters.contains_key(issue_id_at(entries, i).unwrap())
                    &&& last_of_its_id(entries, i) ==> Some(
                        counters[issue_id_at(entries, i).unwrap()],
                    ) == id_bound(names_view(entries[i].comments@))
                }
            &&& forall|k: u32| #[trigger]
                counters.contains_key(k) ==> exists|i: int| #[trigger]
                    is_issue_at(entries, i) && issue_id_at(entries, i) == Some(k)
            &&& count > 0 ==> exists|i: int| #[trigger]
                is_issue_at(entries, i) && issue_id_at(entries, i) == Some((count - 1) as u32)
            &&& count == 0 ==> forall|i: int| !#[trigger] is_issue_at(entries, i)
        }),
    decreases entries.len(),
{
    if entries.len() > 0 {
        let t = entries.drop_last();
        let last = entries.len() - 1;
        let e = entries.last();
        lemma_scan_counts(t);
        let old_count = scan(t).unwrap().0;
        let old_pairs = scan(t).unwrap().1;
        let old_counters = pairs_map(old_pairs);
        let count = scan(entries).unwrap().0;
        let counters = pairs_map(scan(entries).unwrap().1);
        assert(entries[last] == e);
        assert forall|i: int| 0 <= i < last implies is_issue_at(entries, i) == is_issue_at(t, i)
            && issue_id_at(entries, i) == issue_id_at(t, i) && entries[i] == t[i] by {}
        if e.name@ != index_name() {
            let id = entry_id(e.name@).unwrap();
            let n = id_bound(names_view(e.comments@)).unwrap();
            assert(old_pairs.push((id, n)).drop_last() =~= old_pairs);
            assert(counters == old_counters.insert(id, n));
            assert(is_issue_at(entries, last) && issue_id_at(entries, last) == Some(id));
        }
        assert forall|i: int| #[trigger] is_issue_at(entries, i) implies {
            &&& issue_id_at(entries, i) is Some
            &&& issue_id_at(entries, i).unwrap() < count
            &&& counters.contains_key(issue_id_at(entries, i).unwrap())
            &&& last_of_its_id(entries, i) ==> Some(counters[issue_id_at(entries, i).unwrap()])
                == id_bound(names_view(entries[i].comments@))
        } by {
            if i < last {
                assert(is_issue_at(t, i));
                if last_of_its_id(entries, i) {
                    assert forall|j: int| i < j && #[trigger] is_issue_at(t, j) implies issue_id_at(
                        t,
                        j,
                    ) != issue_id_at(t, i) by {
                        assert(is_issue_at(entries, j));
                    }
                    if e.name@ != index_name() {
                        assert(is_issue_at(entries, last));
                    }
                }
            }
        }
        assert forall|k: u32| #[trigger] counters.contains_key(k) implies exists|i: int| #[trigger]
            is_issue_at(entries, i) && issue_id_at(entries, i) == Some(k) by {
            if old_counters.contains_key(k) {
                let w = choose|i: int| #[trigger]
                    is_issue_at(t, i) && issue_id_at(t, i) == Some(k);
                assert(is_issue_at(entries, w) && issue_id_at(entries, w) == Some(k));
            } else {
                assert(is_issue_at(entries, last));
            }
        }
        if count > 0 {
            if count == old_count {
                let w = choose|i: int| #[trigger]
                    is_issue_at(t, i) && issue_id_at(t, i) == Some((old_count - 1) as u32);
                assert(is_issue_at(entries, w) && issue_id_at(entries, w) == Some(
                    (count - 1) as u32,
                ));
            } else {
                assert(is_issue_at(entries, last));
            }
        }
        if count == 0 {
            assert forall|i: int| !#[trigger] is_issue_at(entries, i) by {
                if 0 <= i < last {
                    assert(!is_issue_at(t, i));
                }
            }
        }
    } else {
        assert(pairs_map(Seq::<(u32, u32)>::empty()) =~= Map::<u32, u32>::empty());
    }
}

} // verus!
