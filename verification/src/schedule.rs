//! The order in which the files of a walk are transformed, and why it does
//! not matter: every file is the work of one worker, and no worker reads
//! what another one wrote.

use vstd::prelude::*;
use crate::engine::xor_stream;
use crate::walk::lists;

verus! {

/// The contents of the entries of a walk after the entries at the positions
/// `order` were transformed one after another, in that order, each worker
/// reading what is there when its turn comes.
pub open spec fn run_in_order(contents: Seq<Seq<u8>>, order: Seq<usize>, key: Seq<u8>) -> Seq<
    Seq<u8>,
>
    decreases order.len(),
{
    if order.len() == 0 {
        contents
    } else {
        let before = run_in_order(contents, order.drop_last(), key);
        let at = order.last() as int;
        before.update(at, xor_stream(before[at], key))
    }
}

/// The contents of the entries of a walk once each of `targets` was
/// transformed: a target holds the transform of what it held, every other
/// entry holds what it held.
pub open spec fn run_outcome(contents: Seq<Seq<u8>>, targets: Seq<usize>, key: Seq<u8>) -> Seq<
    Seq<u8>,
> {
    Seq::new(
        contents.len(),
        |i: int|
            if lists(targets, i) {
                xor_stream(contents[i], key)
            } else {
                contents[i]
            },
    )
}

/// Workers that each take another file leave the outcome behind, whatever
/// their order: every target is transformed once, from what it held at the
/// start, and nothing else changes.
pub proof fn lemma_run_in_order_is_outcome(
    contents: Seq<Seq<u8>>,
    order: Seq<usize>,
    key: Seq<u8>,
)
    requires
        order.no_duplicates(),
        forall|k: int| 0 <= k < order.len() ==> (#[trigger] order[k]) < contents.len(),
    ensures
        run_in_order(contents, order, key) == run_outcome(contents, order, key),
    decreases order.len(),
{
    if order.len() == 0 {
        assert(run_outcome(contents, order, key) =~= contents);
    } else {
        let earlier = order.drop_last();
        let at = order.last() as int;
        lemma_run_in_order_is_outcome(contents, earlier, key);
        let before = run_in_order(contents, earlier, key);
        if lists(earlier, at) {
            let k = choose|k: int| 0 <= k < earlier.len() && earlier[k] == at;
            assert(order[k] == order[order.len() - 1]);
        }
        assert(before[at] == contents[at]);
        assert forall|i: int| 0 <= i < contents.len() implies (lists(order, i) <==> (i == at
            || lists(earlier, i))) by {
            if lists(order, i) {
                let k = choose|k: int| 0 <= k < order.len() && order[k] == i;
                if k < earlier.len() {
                    assert(earlier[k] == i);
                }
            }
            if lists(earlier, i) {
                let k = choose|k: int| 0 <= k < earlier.len() && earlier[k] == i;
                assert(order[k] == i);
            }
            if i == at {
                assert(order[order.len() - 1] == i);
            }
        }
        assert(run_in_order(contents, order, key) =~= run_outcome(contents, order, key));
    }
}

/// Concurrency equivalence: when the workers finish in another order than
/// the walk found the files, the contents of every file are the same in the
/// end. `targets` is what a selection lists, `order` the same positions in
/// the order in which the workers ran.
pub proof fn lemma_run_order_is_irrelevant(
    contents: Seq<Seq<u8>>,
    targets: Seq<usize>,
    order: Seq<usize>,
    key: Seq<u8>,
)
    requires
        targets.no_duplicates(),
        order.no_duplicates(),
        forall|k: int| 0 <= k < targets.len() ==> (#[trigger] targets[k]) < contents.len(),
        forall|i: int| lists(order, i) <==> lists(targets, i),
    ensures
        run_in_order(contents, order, key) == run_in_order(contents, targets, key),
        run_in_order(contents, order, key).to_multiset() == run_in_order(
            contents,
            targets,
            key,
        ).to_multiset(),
{
    assert forall|k: int| 0 <= k < order.len() implies (#[trigger] order[k]) < contents.len() by {
        assert(lists(order, order[k] as int));
        let j = choose|j: int| 0 <= j < targets.len() && targets[j] == order[k];
        assert(targets[j] < contents.len());
    }
    lemma_run_in_order_is_outcome(contents, order, key);
    lemma_run_in_order_is_outcome(contents, targets, key);
    assert(run_outcome(contents, order, key) =~= run_outcome(contents, targets, key));
}

} // verus!
