//! The best record seen so far, and whether a fitness was reached.
use crate::explore::record::GenerationRecord;
use crate::scalar::Real32;
use vstd::prelude::*;

verus! {

/// The best record after one more record has been seen: the new record
/// takes the place only if its fitness is strictly greater, so among records
/// of equal fitness the one seen first stays.
pub open spec fn better(best: Option<GenerationRecord>, record: GenerationRecord) -> Option<
    GenerationRecord,
> {
    match best {
        None => Some(record),
        Some(b) => if record.fitness.spec_gt(b.fitness) {
            Some(record)
        } else {
            Some(b)
        },
    }
}

/// The best record after the records of a list have been seen in order.
pub open spec fn best_of(best: Option<GenerationRecord>, records: Seq<GenerationRecord>) -> Option<
    GenerationRecord,
>
    decreases records.len(),
{
    if records.len() == 0 {
        best
    } else {
        better(best_of(best, records.drop_last()), records.last())
    }
}

/// Whether some record of the list has at least the desired fitness.
pub open spec fn reaches(records: Seq<GenerationRecord>, desired: Real32) -> bool {
    exists|i: int| 0 <= i < records.len() && (#[trigger] records[i]).fitness.spec_ge(desired)
}

/// Whether `k` is the place of the first record of the list whose fitness
/// no record exceeds.
pub open spec fn is_first_maximum(records: Seq<GenerationRecord>, k: int) -> bool {
    &&& 0 <= k < records.len()
    &&& forall|j: int|
        0 <= j < records.len() ==> !(#[trigger] records[j]).fitness.spec_gt(records[k].fitness)
    &&& forall|j: int| 0 <= j < k ==> records[k].fitness.spec_gt((#[trigger] records[j]).fitness)
}

/// Seeing two lists one after the other is seeing their concatenation.
pub proof fn lemma_best_of_concat(
    best: Option<GenerationRecord>,
    first: Seq<GenerationRecord>,
    second: Seq<GenerationRecord>,
)
    ensures
        best_of(best_of(best, first), second) == best_of(best, first + second),
    decreases second.len(),
{
    if second.len() == 0 {
        assert(first + second =~= first);
    } else {
        lemma_best_of_concat(best, first, second.drop_last());
        assert((first + second).drop_last() =~= first + second.drop_last());
        assert((first + second).last() == second.last());
    }
}

/// The tracker keeps a running maximum: started from nothing and shown a
/// list of records whose fitness values are numbers, it holds the first
/// record of the list whose fitness no record exceeds.
pub proof fn lemma_best_is_first_maximum(records: Seq<GenerationRecord>) -> (k: int)
    requires
        records.len() > 0,
        forall|j: int| 0 <= j < records.len() ==> !(#[trigger] records[j]).fitness.is_nan(),
    ensures
        is_first_maximum(records, k),
        best_of(None, records) == Some(records[k]),
    decreases records.len(),
{
    let rest = records.drop_last();
    let last = records.last();
    if rest.len() == 0 {
        assert(best_of(None, rest) == None::<GenerationRecord>);
        0
    } else {
        let k = lemma_best_is_first_maximum(rest);
        assert(rest[k] == records[k]);
        if last.fitness.spec_gt(rest[k].fitness) {
            let n = records.len() - 1;
            assert forall|j: int| 0 <= j < records.len() implies !(
            #[trigger] records[j]).fitness.spec_gt(records[n].fitness) by {
                if j < n {
                    assert(rest[j] == records[j]);
                    assert(!rest[j].fitness.spec_gt(rest[k].fitness));
                }
            }
            assert forall|j: int| 0 <= j < n implies records[n].fitness.spec_gt(
                (#[trigger] records[j]).fitness,
            ) by {
                assert(rest[j] == records[j]);
                assert(!rest[j].fitness.spec_gt(rest[k].fitness));
            }
            n
        } else {
            assert forall|j: int| 0 <= j < records.len() implies !(
            #[trigger] records[j]).fitness.spec_gt(records[k].fitness) by {
                if j < rest.len() {
                    assert(rest[j] == records[j]);
                }
            }
            assert forall|j: int| 0 <= j < k implies records[k].fitness.spec_gt(
                (#[trigger] records[j]).fitness,
            ) by {
                assert(rest[j] == records[j]);
            }
            k
        }
    }
}

/// Keeps the best record of all that it has been shown.
pub struct BestTracker {
    /// The best record so far; none before the first record.
    pub best: Option<GenerationRecord>,
}

impl BestTracker {
    /// A tracker that has seen nothing.
    pub fn new() -> (tracker: BestTracker)
        ensures
            tracker.best.is_none(),
    {
        BestTracker { best: None }
    }

    /// Shows the tracker one record.
    pub fn observe(&mut self, record: &GenerationRecord)
        ensures
            final(self).best == better(old(self).best, *record),
    {
        let replace = match &self.best {
            Some(x) => record.fitness.gt(&x.fitness),
            None => true,
        };
        if replace {
            self.best = Some(record.clone());
        }
    }

    /// Shows the tracker the records of a list, in order.
    pub fn observe_all(&mut self, records: &Vec<GenerationRecord>)
        ensures
            final(self).best == best_of(old(self).best, records@),
    {
        let mut i: usize = 0;
        while i < records.len()
            invariant
                i <= records.len(),
                self.best == best_of(old(self).best, records@.take(i as int)),
            decreases records.len() - i,
        {
            self.observe(&records[i]);
            assert(records@.take(i + 1).drop_last() =~= records@.take(i as int));
            i += 1;
        }
        assert(records@.take(records@.len() as int) =~= records@);
    }
}

/// Tells whether some record of the list has at least the desired fitness.
pub fn reached(records: &Vec<GenerationRecord>, desired: &Real32) -> (flag: bool)
    ensures
        flag == reaches(records@, *desired),
{
    let mut i: usize = 0;
    while i < records.len()
        invariant
            i <= records.len(),
            forall|j: int| 0 <= j < i ==> !(#[trigger] records@[j]).fitness.spec_ge(*desired),
        decreases records.len() - i,
    {
        if records[i].fitness.ge(desired) {
            return true;
        }
        i += 1;
    }
    false
}

} // verus!
