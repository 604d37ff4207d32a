//! What passes between the host and its providers, in the order in which it
//! passes.
//!
//! A check asks every provider once and hands every answer back before it
//! asks the next provider. Written down as a log, that is a round of pairs;
//! several checks make several rounds. What is proved here of such logs is
//! what a run of checks amounts to for each provider: as many answers asked
//! for as handed back, each one handed back at once.

use vstd::prelude::*;

verus! {

/// A step between the host and one of its providers.
#[derive(Clone, Copy, Debug, PartialEq, Eq)]
pub enum Exchange {
    /// The provider was asked to check a text and gave its answer.
    Asked { provider: usize },
    /// The answer was handed back to the provider, read to its end.
    Returned { provider: usize },
}

/// The log of one check by `count` providers: each provider in turn is
/// asked and gets its answer back.
pub open spec fn round(count: nat) -> Seq<Exchange>
    decreases count,
{
    if count == 0 {
        Seq::empty()
    } else {
        round((count - 1) as nat).push(Exchange::Asked { provider: (count - 1) as usize }).push(
            Exchange::Returned { provider: (count - 1) as usize },
        )
    }
}

/// The log of `calls` checks by `count` providers.
pub open spec fn rounds(count: nat, calls: nat) -> Seq<Exchange>
    decreases calls,
{
    if calls == 0 {
        Seq::empty()
    } else {
        rounds(count, (calls - 1) as nat) + round(count)
    }
}

/// How often a step stands in a log.
pub open spec fn times(log: Seq<Exchange>, step: Exchange) -> nat
    decreases log.len(),
{
    if log.len() == 0 {
        0
    } else {
        times(log.drop_last(), step) + if log.last() == step {
            1nat
        } else {
            0nat
        }
    }
}

/// Whether every answer in a log is handed back at once: the log is made of
/// pairs, and each pair is a provider asked and that provider's answer
/// returned. Then no answer is outstanding when another provider is asked,
/// none is returned twice, and none is left.
pub open spec fn returned_at_once(log: Seq<Exchange>) -> bool {
    &&& log.len() % 2 == 0
    &&& forall|at: int|
        0 <= at < log.len() && at % 2 == 0 ==> (#[trigger] log[at]) is Asked && log[at + 1] == (
        Exchange::Returned { provider: log[at]->Asked_provider })
    &&& forall|at: int| 0 <= at < log.len() && at % 2 == 1 ==> (#[trigger] log[at]) is Returned
}

/// A step stands in two logs put together as often as in both.
pub proof fn lemma_times_add(first: Seq<Exchange>, second: Seq<Exchange>, step: Exchange)
    ensures
        times(first + second, step) == times(first, step) + times(second, step),
    decreases second.len(),
{
    if second.len() == 0 {
        assert(first + second =~= first);
    } else {
        lemma_times_add(first, second.drop_last(), step);
        assert((first + second).drop_last() =~= first + second.drop_last());
    }
}

/// Two logs in which every answer is handed back at once make such a log
/// together.
pub proof fn lemma_returned_at_once_add(first: Seq<Exchange>, second: Seq<Exchange>)
    requires
        returned_at_once(first),
        returned_at_once(second),
    ensures
        returned_at_once(first + second),
{
    let both = first + second;
    assert forall|at: int| 0 <= at < both.len() && at % 2 == 0 implies (#[trigger] both[at]) is Asked
        && both[at + 1] == (Exchange::Returned { provider: both[at]->Asked_provider }) by {
        if at < first.len() {
            assert(both[at] == first[at]);
            assert(both[at + 1] == first[at + 1]);
        } else {
            assert(both[at] == second[at - first.len()]);
            assert(both[at + 1] == second[at - first.len() + 1]);
        }
    }
    assert forall|at: int| 0 <= at < both.len() && at % 2 == 1 implies (
    #[trigger] both[at]) is Returned by {
        if at < first.len() {
            assert(both[at] == first[at]);
        } else {
            assert(both[at] == second[at - first.len()]);
        }
    }
}

/// One check: every provider is asked once and gets its answer back once
/// and at once; no other provider is spoken to.
pub proof fn lemma_round(count: nat, provider: usize)
    requires
        count <= usize::MAX,
    ensures
        round(count).len() == 2 * count,
        returned_at_once(round(count)),
        times(round(count), Exchange::Asked { provider }) == if provider < count {
            1nat
        } else {
            0nat
        },
        times(round(count), Exchange::Returned { provider }) == if provider < count {
            1nat
        } else {
            0nat
        },
    decreases count,
{
    if count > 0 {
        let earlier = round((count - 1) as nat);
        let last = (count - 1) as usize;
        let pair = seq![Exchange::Asked { provider: last }, Exchange::Returned { provider: last }];
        lemma_round((count - 1) as nat, provider);
        assert(round(count) =~= earlier + pair);
        assert(returned_at_once(pair));
        lemma_returned_at_once_add(earlier, pair);
        lemma_times_add(earlier, pair, Exchange::Asked { provider });
        lemma_times_add(earlier, pair, Exchange::Returned { provider });
        reveal_with_fuel(times, 3);
        assert(pair.drop_last() =~= seq![Exchange::Asked { provider: last }]);
        assert(pair.drop_last().drop_last() =~= Seq::<Exchange>::empty());
    }
}

/// A run of checks: after `calls` checks every provider has been asked
/// `calls` times and has got an answer back `calls` times, each one at once
/// after it gave it.
pub proof fn lemma_rounds(count: nat, calls: nat, provider: usize)
    requires
        count <= usize::MAX,
        provider < count,
    ensures
        returned_at_once(rounds(count, calls)),
        times(rounds(count, calls), Exchange::Asked { provider }) == calls,
        times(rounds(count, calls), Exchange::Returned { provider }) == calls,
    decreases calls,
{
    if calls > 0 {
        let earlier = rounds(count, (calls - 1) as nat);
        lemma_rounds(count, (calls - 1) as nat, provider);
        lemma_round(count, provider);
        lemma_returned_at_once_add(earlier, round(count));
        lemma_times_add(earlier, round(count), Exchange::Asked { provider });
        lemma_times_add(earlier, round(count), Exchange::Returned { provider });
    }
}

} // verus!
