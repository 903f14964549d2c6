//! Retention: which rotated files are removed, by their number and by their age.

use crate::text::{starts_with, to_chars};
use crate::time::Timestamp;
use vstd::prelude::*;
use vstd::relations::{sorted_by, total_ordering};
use vstd::seq_lib::{group_to_multiset_ensures, lemma_sorted_unique};

verus! {

/// A file of a directory: its name, and when it was last modified, in
/// nanoseconds since the epoch.
#[derive(Clone, Debug)]
pub struct FileEntry {
    pub name: String,
    pub modified: i128,
}

/// Whether a name is that of a rotated file of a sink: it begins with the
/// stem of the sink's file and is not the name of that file.
pub open spec fn is_rotated(name: Seq<char>, stem: Seq<char>, current: Seq<char>) -> bool {
    starts_with(name, stem) && name != current
}

/// The places of the rotated files in a listing, in the order of the listing.
pub open spec fn rotated_files(entries: Seq<FileEntry>, stem: Seq<char>, current: Seq<char>) -> Seq<usize>
    decreases entries.len(),
{
    if entries.len() == 0 {
        Seq::empty()
    } else {
        let before = rotated_files(entries.drop_last(), stem, current);
        if is_rotated(entries.last().name@, stem, current) {
            before.push((entries.len() - 1) as usize)
        } else {
            before
        }
    }
}

/// The order of age: a file comes before the files that were modified later,
/// and before those of the same moment that stand later in the listing.
pub open spec fn not_younger(entries: Seq<FileEntry>) -> spec_fn(usize, usize) -> bool {
    |a: usize, b: usize|
        entries[a as int].modified < entries[b as int].modified || (entries[a as int].modified
            == entries[b as int].modified && a <= b)
}

/// The places of the rotated files, the oldest first.
pub open spec fn oldest_first(entries: Seq<FileEntry>, stem: Seq<char>, current: Seq<char>) -> Seq<usize> {
    rotated_files(entries, stem, current).sort_by(not_younger(entries))
}

/// How many of `files` files are more than may be kept.
pub open spec fn surplus(files: nat, keep: Option<u32>) -> nat {
    match keep {
        Some(max) => if files > max {
            (files - max) as nat
        } else {
            0
        },
        None => 0,
    }
}

/// The moment `days` days before `now`, in nanoseconds since the epoch.
pub open spec fn cutoff(now: Timestamp, days: u32) -> int {
    now.total_nanos() - days * 86_400_000_000_000
}

/// Of the places in `order`, those of files modified before `limit`, in their order.
pub open spec fn older_than(entries: Seq<FileEntry>, order: Seq<usize>, limit: int) -> Seq<usize>
    decreases order.len(),
{
    if order.len() == 0 {
        Seq::empty()
    } else {
        let before = older_than(entries, order.drop_last(), limit);
        if entries[order.last() as int].modified < limit {
            before.push(order.last())
        } else {
            before
        }
    }
}

/// The places of the files to remove, in the order of their removal. First go
/// the oldest files that are more than `keep`; then, of the files that are
/// left, those that are older than `days` days, the oldest first.
pub open spec fn expired(
    entries: Seq<FileEntry>,
    stem: Seq<char>,
    current: Seq<char>,
    keep: Option<u32>,
    days: Option<u32>,
    now: Timestamp,
) -> Seq<usize> {
    let order = oldest_first(entries, stem, current);
    let k = surplus(order.len(), keep) as int;
    order.take(k) + (match days {
        Some(d) => older_than(entries, order.skip(k), cutoff(now, d)),
        None => Seq::empty(),
    })
}

/// The order of age is a total order.
proof fn lemma_age_is_total(entries: Seq<FileEntry>)
    ensures
        total_ordering(not_younger(entries)),
{
    let leq = not_younger(entries);
    assert forall|x: usize| #[trigger] leq(x, x) by {}
    assert forall|x: usize, y: usize| #[trigger] leq(x, y) && #[trigger] leq(y, x) implies x == y by {}
    assert forall|x: usize, y: usize, z: usize| #[trigger] leq(x, y) && #[trigger] leq(y, z) implies leq(
        x,
        z,
    ) by {}
    assert forall|x: usize, y: usize| #[trigger] leq(x, y) || #[trigger] leq(y, x) by {}
}

fn is_rotated_name(name: &str, stem: &Vec<char>, current: &Vec<char>) -> (r: bool)
    ensures
        r == is_rotated(name@, stem@, current@),
{
    let chars = to_chars(name);
    if chars.len() < stem.len() {
        return false;
    }
    let mut i: usize = 0;
    while i < stem.len()
        invariant
            i <= stem.len() <= chars.len(),
            chars@ == name@,
            forall|k: int| 0 <= k < i ==> chars@[k] == stem@[k],
        decreases stem.len() - i,
    {
        if chars[i] != stem[i] {
            assert(chars@.subrange(0, stem@.len() as int)[i as int] != stem@[i as int]);
            return false;
        }
        i += 1;
    }
    assert(chars@.subrange(0, stem@.len() as int) =~= stem@);
    if chars.len() != current.len() {
        return true;
    }
    let mut j: usize = 0;
    while j < chars.len()
        invariant
            j <= chars.len(),
            chars.len() == current.len(),
            chars@ == name@,
            starts_with(name@, stem@),
            forall|k: int| 0 <= k < j ==> chars@[k] == current@[k],
        decreases chars.len() - j,
    {
        if chars[j] != current[j] {
            return true;
        }
        j += 1;
    }
    assert(chars@ =~= current@);
    false
}

/// The places of the rotated files among `entries`, the oldest first.
fn sort_by_age(entries: &Vec<FileEntry>, stem: &Vec<char>, current: &Vec<char>) -> (order: Vec<usize>)
    ensures
        order@ == oldest_first(entries@, stem@, current@),
        forall|a: int| 0 <= a < order.len() ==> (#[trigger] order[a]) < entries.len(),
{
    broadcast use group_to_multiset_ensures;

    let ghost leq = not_younger(entries@);
    let mut order: Vec<usize> = Vec::new();
    let mut i: usize = 0;
    assert(entries@.take(0) =~= Seq::<FileEntry>::empty());
    while i < entries.len()
        invariant
            i <= entries.len(),
            leq == not_younger(entries@),
            order@.to_multiset() == rotated_files(entries@.take(i as int), stem@, current@).to_multiset(),
            forall|a: int| 0 <= a < order.len() ==> (#[trigger] order[a]) < i,
            forall|a: int, b: int|
                0 <= a < b < order.len() ==> entries[order[a] as int].modified < entries[order[b] as int].modified
                    || (entries[order[a] as int].modified == entries[order[b] as int].modified
                    && order[a] < order[b]),
        decreases entries.len() - i,
    {
        proof {
            assert(entries@.take(i + 1).drop_last() =~= entries@.take(i as int));
            assert(entries@.take(i + 1).last() == entries@[i as int]);
        }
        if is_rotated_name(entries[i].name.as_str(), stem, current) {
            let modified = entries[i].modified;
            let mut pos: usize = 0;
            while pos < order.len() && entries[order[pos]].modified <= modified
                invariant
                    pos <= order.len(),
                    i < entries.len(),
                    forall|a: int| 0 <= a < order.len() ==> (#[trigger] order[a]) < i,
                    forall|a: int| 0 <= a < pos ==> entries[order[a] as int].modified <= modified,
                decreases order.len() - pos,
            {
                pos += 1;
            }
            let ghost before = order@;
            order.insert(pos, i);
            proof {
                before.insert_ensures(pos as int, i);
                assert forall|a: int, b: int| 0 <= a < b < order.len() implies entries[order[a] as int].modified
                    < entries[order[b] as int].modified || (entries[order[a] as int].modified
                    == entries[order[b] as int].modified && order[a] < order[b]) by {
                    if b < pos {
                        assert(order[a] == before[a] && order[b] == before[b]);
                    } else if b == pos {
                        assert(order[a] == before[a]);
                    } else if a < pos {
                        assert(order[a] == before[a] && order[b] == before[b - 1]);
                        if pos < b - 1 {
                            assert(entries[before[pos as int] as int].modified <= entries[before[b - 1] as int].modified);
                        }
                    } else if a == pos {
                        assert(order[b] == before[b - 1]);
                        if pos < b - 1 {
                            assert(entries[before[pos as int] as int].modified <= entries[before[b - 1] as int].modified);
                        }
                    } else {
                        assert(order[a] == before[a - 1] && order[b] == before[b - 1]);
                    }
                }
                assert forall|a: int| 0 <= a < order.len() implies (#[trigger] order[a]) < i + 1 by {
                    if a < pos {
                        assert(order[a] == before[a]);
                    } else if a > pos {
                        assert(order[a] == before[a - 1]);
                    }
                }
                assert(order@ == before.insert(pos as int, i));
                vstd::seq_lib::to_multiset_insert(before, pos as int, i);
                let earlier = rotated_files(entries@.take(i as int), stem@, current@);
                vstd::seq_lib::to_multiset_build(earlier, i);
                assert(rotated_files(entries@.take(i + 1), stem@, current@) == earlier.push(i));
            }
        }
        i += 1;
    }
    proof {
        assert(entries@.take(entries.len() as int) =~= entries@);
        let files = rotated_files(entries@, stem@, current@);
        lemma_age_is_total(entries@);
        files.lemma_sort_by_ensures(leq);
        assert(sorted_by(order@, leq));
        lemma_sorted_unique(order@, files.sort_by(leq), leq);
    }
    order
}

/// Chooses the rotated files to remove from the listing of a directory.
///
/// `stem` and `current` are the stem and the name of the sink's file, `keep`
/// is the number of rotated files that may stay, `days` the age in days from
/// which a file goes.
pub fn select_expired(
    entries: &Vec<FileEntry>,
    stem: &str,
    current: &str,
    keep: Option<u32>,
    days: Option<u32>,
    now: &Timestamp,
) -> (r: Vec<usize>)
    ensures
        r@ == expired(entries@, stem@, current@, keep, days, *now),
        forall|a: int| 0 <= a < r.len() ==> (#[trigger] r[a]) < entries.len(),
{
    let stem_chars = to_chars(stem);
    let current_chars = to_chars(current);
    let order = sort_by_age(entries, &stem_chars, &current_chars);
    let k: usize = match keep {
        Some(max) => if order.len() > max as usize {
            order.len() - max as usize
        } else {
            0
        },
        None => 0,
    };
    let mut r: Vec<usize> = Vec::new();
    let mut i: usize = 0;
    while i < k
        invariant
            i <= k <= order.len(),
            r@ == order@.take(i as int),
            forall|a: int| 0 <= a < order.len() ==> (#[trigger] order[a]) < entries.len(),
        decreases k - i,
    {
        r.push(order[i]);
        i += 1;
        assert(r@ =~= order@.take(i as int));
    }
    match days {
        Some(d) => {
            let limit: i128 = (now.secs as i128) * 1_000_000_000 + now.nanos as i128 - (d as i128)
                * 86_400_000_000_000;
            let ghost rest = order@.skip(k as int);
            let mut j: usize = k;
            assert(rest.take(0) =~= Seq::<usize>::empty());
            assert(r@ =~= order@.take(k as int) + older_than(entries@, rest.take(0), limit as int));
            while j < order.len()
                invariant
                    k <= j <= order.len(),
                    rest == order@.skip(k as int),
                    r@ == order@.take(k as int) + older_than(entries@, rest.take(j - k), limit as int),
                    forall|a: int| 0 <= a < order.len() ==> (#[trigger] order[a]) < entries.len(),
                    forall|a: int| 0 <= a < r.len() ==> (#[trigger] r[a]) < entries.len(),
                decreases order.len() - j,
            {
                proof {
                    assert(rest.take(j - k + 1).drop_last() =~= rest.take(j - k));
                    assert(rest.take(j - k + 1).last() == order[j as int]);
                }
                let ghost before = r@;
                if entries[order[j]].modified < limit {
                    r.push(order[j]);
                    assert(r@ =~= order@.take(k as int) + older_than(
                        entries@,
                        rest.take(j - k + 1),
                        limit as int,
                    ));
                }
                j += 1;
            }
            assert(rest.take(order.len() - k) =~= rest);
        },
        None => {
            assert(r@ =~= order@.take(k as int) + Seq::<usize>::empty());
        },
    }
    r
}

} // verus!
