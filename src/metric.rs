//! The one number read from a snapshot: how many entities it lists.
use vstd::prelude::*;

verus! {

/// Which entities of a snapshot are counted.
#[derive(Clone, Copy, Debug, PartialEq, Eq, Structural)]
pub enum MetricRule {
    /// Every entity.
    AllEntities,
    /// Only the entities that carry a display title.
    Titled,
}

/// How many entries of `titled` are `true`.
pub open spec fn count_titled(titled: Seq<bool>) -> nat
    decreases titled.len(),
{
    if titled.len() == 0 {
        0
    } else {
        count_titled(titled.drop_last()) + if titled.last() {
            1nat
        } else {
            0nat
        }
    }
}

pub open spec fn metric_of(titled: Seq<bool>, rule: MetricRule) -> nat {
    match rule {
        MetricRule::AllEntities => titled.len(),
        MetricRule::Titled => count_titled(titled),
    }
}

proof fn lemma_count_titled_bound(titled: Seq<bool>)
    ensures
        count_titled(titled) <= titled.len(),
    decreases titled.len(),
{
    if titled.len() > 0 {
        lemma_count_titled_bound(titled.drop_last());
    }
}

/// The count of a snapshot whose entities are given, in order, by whether
/// each carries a display title.
pub fn snapshot_metric(titled: &Vec<bool>, rule: MetricRule) -> (r: u64)
    ensures
        r == metric_of(titled@, rule),
{
    match rule {
        MetricRule::AllEntities => titled.len() as u64,
        MetricRule::Titled => {
            let mut n: u64 = 0;
            let mut i: usize = 0;
            while i < titled.len()
                invariant
                    0 <= i <= titled@.len(),
                    n == count_titled(titled@.subrange(0, i as int)),
                decreases titled@.len() - i,
            {
                assert(titled@.subrange(0, i + 1).drop_last() =~= titled@.subrange(0, i as int));
                proof {
                    lemma_count_titled_bound(titled@.subrange(0, i as int));
                }
                if titled[i] {
                    n = n + 1;
                }
                i = i + 1;
            }
            assert(titled@.subrange(0, titled@.len() as int) =~= titled@);
            n
        },
    }
}

} // verus!
