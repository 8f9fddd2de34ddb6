//! Which entries of a directory walk are transformed.

use vstd::prelude::*;
use crate::job::{DencryptData, EntryKind};

verus! {

/// One entry that a walk of the target found.
#[derive(Debug, Clone)]
pub struct WalkEntry {
    /// The path of the entry, as the walk gives it.
    pub path: String,
    /// What the path names.
    pub kind: EntryKind,
}

/// Whether `entry` is transformed in a walk that started at `root`: it is a
/// regular file, and it is not the root itself.
pub open spec fn is_transform_target(root: Seq<char>, entry: WalkEntry) -> bool {
    entry.kind is File && entry.path@ != root
}

/// Whether position `i` is one of `targets`.
pub open spec fn lists(targets: Seq<usize>, i: int) -> bool {
    exists|k: int| 0 <= k < targets.len() && #[trigger] targets[k] == i
}

/// Whether `targets` lists, in ascending order and each once, the positions
/// in `entries` of exactly the entries that are transformed.
pub open spec fn is_selection(targets: Seq<usize>, root: Seq<char>, entries: Seq<WalkEntry>) -> bool {
    &&& forall|k: int|
        0 <= k < targets.len() ==> (#[trigger] targets[k]) < entries.len() && is_transform_target(
            root,
            entries[targets[k] as int],
        )
    &&& forall|i: int|
        0 <= i < entries.len() && is_transform_target(root, #[trigger] entries[i])
            ==> lists(targets, i)
    &&& forall|j: int, k: int|
        0 <= j < k < targets.len() ==> (#[trigger] targets[j]) < (#[trigger] targets[k])
}

impl WalkEntry {
    /// An entry with the given path and kind.
    pub fn new(path: String, kind: EntryKind) -> (entry: Self)
        ensures
            entry.path == path,
            entry.kind == kind,
    {
        Self { path, kind }
    }
}

impl DencryptData {
    /// Picks the entries of a walk that are transformed.
    ///
    /// A job that is not recursive picks nothing. A recursive one picks the
    /// positions of all regular files but the root, in the order of the walk
    /// and each once; directories and other entries are never picked.
    /// Whether workers were asked for plays no part.
    pub fn check_rec(&self, entries: &Vec<WalkEntry>) -> (targets: Vec<usize>)
        ensures
            !self.is_recursive ==> targets@.len() == 0,
            self.is_recursive ==> is_selection(targets@, self.path@, entries@),
    {
        let mut targets: Vec<usize> = Vec::new();
        if !self.is_recursive {
            return targets;
        }
        let mut i: usize = 0;
        while i < entries.len()
            invariant
                i <= entries@.len(),
                is_selection(targets@, self.path@, entries@.subrange(0, i as int)),
            decreases entries@.len() - i,
        {
            let entry: &WalkEntry = &entries[i];
            let ghost before = targets@;
            let ghost seen = entries@.subrange(0, i as int);
            let ghost next = entries@.subrange(0, i + 1);
            let is_file: bool = match entry.kind {
                EntryKind::File => true,
                _ => false,
            };
            let picked: bool = is_file && !(entry.path == self.path);
            if picked {
                targets.push(i);
            }
            proof {
                assert forall|k: int| 0 <= k < before.len() implies is_transform_target(
                    self.path@,
                    next[(#[trigger] before[k]) as int],
                ) by {
                    assert(next[before[k] as int] == seen[before[k] as int]);
                }
                assert forall|n: int|
                    0 <= n < next.len() && is_transform_target(
                        self.path@,
                        #[trigger] next[n],
                    ) implies lists(targets@, n) by {
                    if n < i {
                        assert(seen[n] == next[n]);
                        let k = choose|k: int| 0 <= k < before.len() && before[k] == n;
                        assert(targets@[k] == n);
                    } else {
                        assert(targets@[before.len() as int] == i);
                    }
                }
            }
            i += 1;
        }
        assert(entries@.subrange(0, i as int) =~= entries@);
        targets
    }
}

/// Two ascending lists agree on their first `k` places when they hold the
/// same positions.
proof fn lemma_ascending_lists_agree(a: Seq<usize>, b: Seq<usize>, k: int)
    requires
        0 <= k <= a.len(),
        k <= b.len(),
        forall|i: int, j: int| 0 <= i < j < a.len() ==> (#[trigger] a[i]) < (#[trigger] a[j]),
        forall|i: int, j: int| 0 <= i < j < b.len() ==> (#[trigger] b[i]) < (#[trigger] b[j]),
        forall|x: int| lists(a, x) <==> lists(b, x),
    ensures
        forall|j: int| 0 <= j < k ==> a[j] == b[j],
    decreases k,
{
    if k > 0 {
        lemma_ascending_lists_agree(a, b, k - 1);
        let last = k - 1;
        assert(lists(a, a[last] as int));
        let m = choose|m: int| 0 <= m < b.len() && b[m] == a[last];
        if m < last {
            assert(a[m] == b[m]);
            assert(a[m] < a[last]);
        }
        assert(lists(b, b[last] as int));
        let n = choose|n: int| 0 <= n < a.len() && a[n] == b[last];
        if n < last {
            assert(a[n] == b[n]);
            assert(b[n] < b[last]);
        }
        if m > last {
            assert(b[last] < b[m]);
        }
        if n > last {
            assert(a[last] < a[n]);
        }
    }
}

/// Directory coverage: the files that a walk transforms are fixed by the
/// root and the entries alone. Two selections from the same walk are the
/// same list, whichever job made them, with workers or without.
pub proof fn lemma_selection_is_unique(
    first: Seq<usize>,
    second: Seq<usize>,
    root: Seq<char>,
    entries: Seq<WalkEntry>,
)
    requires
        is_selection(first, root, entries),
        is_selection(second, root, entries),
    ensures
        first == second,
{
    assert forall|x: int| lists(first, x) implies lists(second, x) by {
        let k = choose|k: int| 0 <= k < first.len() && first[k] == x;
        assert(is_transform_target(root, entries[first[k] as int]));
    }
    assert forall|x: int| lists(second, x) implies lists(first, x) by {
        let k = choose|k: int| 0 <= k < second.len() && second[k] == x;
        assert(is_transform_target(root, entries[second[k] as int]));
    }
    let shorter = if first.len() <= second.len() {
        first.len() as int
    } else {
        second.len() as int
    };
    lemma_ascending_lists_agree(first, second, shorter);
    if first.len() < second.len() {
        let extra = second[shorter];
        assert(lists(second, extra as int));
        let m = choose|m: int| 0 <= m < first.len() && first[m] == extra;
        assert(second[m] < second[shorter]);
    }
    if second.len() < first.len() {
        let extra = first[shorter];
        assert(lists(first, extra as int));
        let m = choose|m: int| 0 <= m < second.len() && second[m] == extra;
        assert(first[m] < first[shorter]);
    }
    assert(first =~= second);
}

/// Directory coverage: a selection holds every regular file of the walk but
/// the root exactly once, and nothing else. No directory and no other entry
/// is in it, no position comes twice, and it is as long as the walk has
/// such files.
pub proof fn lemma_selection_covers_files_once(
    targets: Seq<usize>,
    root: Seq<char>,
    entries: Seq<WalkEntry>,
)
    requires
        is_selection(targets, root, entries),
    ensures
        targets.no_duplicates(),
        forall|k: int|
            0 <= k < targets.len() ==> entries[(#[trigger] targets[k]) as int].kind is File,
        forall|i: int|
            0 <= i < entries.len() ==> (lists(targets, i) <==> is_transform_target(
                root,
                #[trigger] entries[i],
            )),
        targets.len() == entries.filter(|entry: WalkEntry| is_transform_target(root, entry)).len(),
    decreases entries.len(),
{
    assert forall|i: int, j: int|
        0 <= i < targets.len() && 0 <= j < targets.len() && i != j implies targets[i]
        != targets[j] by {
        if i < j {
            assert(targets[i] < targets[j]);
        } else {
            assert(targets[j] < targets[i]);
        }
    }
    assert forall|i: int| 0 <= i < entries.len() && lists(targets, i)
        implies is_transform_target(root, #[trigger] entries[i]) by {
        let k = choose|k: int| 0 <= k < targets.len() && targets[k] == i;
        assert(is_transform_target(root, entries[targets[k] as int]));
    }
    let wanted = |entry: WalkEntry| is_transform_target(root, entry);
    reveal(Seq::filter);
    if entries.len() > 0 {
        let last = entries.len() - 1;
        let rest = entries.drop_last();
        if is_transform_target(root, entries[last]) {
            assert(lists(targets, last));
            let at = choose|at: int| 0 <= at < targets.len() && targets[at] == last;
            if at < targets.len() - 1 {
                assert(targets[at] < targets[targets.len() - 1]);
            }
            let earlier = targets.drop_last();
            assert forall|i: int| 0 <= i < rest.len() && is_transform_target(
                root,
                #[trigger] rest[i],
            ) implies lists(earlier, i) by {
                assert(entries[i] == rest[i]);
                let k = choose|k: int| 0 <= k < targets.len() && targets[k] == i;
                assert(earlier[k] == i);
            }
            assert forall|k: int| 0 <= k < earlier.len() implies (#[trigger] earlier[k])
                < rest.len() && is_transform_target(root, rest[earlier[k] as int]) by {
                assert(targets[k] < targets[at]);
                assert(is_transform_target(root, entries[targets[k] as int]));
            }
            lemma_selection_covers_files_once(earlier, root, rest);
        } else {
            assert forall|k: int| 0 <= k < targets.len() implies (#[trigger] targets[k])
                < rest.len() && is_transform_target(root, rest[targets[k] as int]) by {
                assert(is_transform_target(root, entries[targets[k] as int]));
            }
            assert forall|i: int| 0 <= i < rest.len() && is_transform_target(
                root,
                #[trigger] rest[i],
            ) implies lists(targets, i) by {
                assert(entries[i] == rest[i]);
            }
            lemma_selection_covers_files_once(targets, root, rest);
        }
    } else {
        if targets.len() > 0 {
            assert(targets[0] < entries.len());
        }
    }
}

} // verus!
