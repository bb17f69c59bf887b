//! Putting the gathered results back into the order of the population.
//!
//! The gather places the results of each worker one after the other, in the
//! order of the workers, so that the results of worker `w` start where its
//! shard starts in the population. A worker numbers its results from 0; the
//! root adds to each index the start of the worker's shard.
use crate::explore::error::ExploreError;
use crate::explore::record::GenerationRecord;
use crate::explore::shard::lemma_offsets_step;
use crate::explore::shard::lemma_total_nonnegative;
use crate::explore::shard::offset_of;
use crate::explore::shard::total;
use vstd::prelude::*;

verus! {

/// Whether `j` is a place in shard `w`.
pub open spec fn in_shard(sizes: Seq<usize>, w: int, j: int) -> bool {
    0 <= w < sizes.len() && 0 <= j < sizes[w]
}

/// The place in the gathered results of the `j`-th result of worker `w`.
pub open spec fn placed(sizes: Seq<usize>, w: int, j: int) -> int {
    offset_of(sizes, w) + j
}

/// Whether gathered results have the shape that the shard sizes announce:
/// there are as many results as the sizes say, and every index, moved by the
/// start of its shard, is still a 32-bit signed number.
pub open spec fn well_shaped(records: Seq<GenerationRecord>, sizes: Seq<usize>) -> bool {
    &&& records.len() == total(sizes)
    &&& forall|w: int, j: int|
        in_shard(sizes, w, j) ==> (#[trigger] records[placed(sizes, w, j)]).index + offset_of(
            sizes,
            w,
        ) <= i32::MAX
}

/// A record with its index moved by `start`.
pub open spec fn moved(record: GenerationRecord, start: int) -> GenerationRecord {
    GenerationRecord { index: (record.index + start) as i32, ..record }
}

/// Whether `out` is `records` with each index moved by the start of the
/// shard that the record came from, and nothing else changed.
pub open spec fn is_corrected(
    out: Seq<GenerationRecord>,
    records: Seq<GenerationRecord>,
    sizes: Seq<usize>,
) -> bool {
    &&& out.len() == records.len()
    &&& forall|w: int, j: int|
        in_shard(sizes, w, j) ==> #[trigger] out[placed(sizes, w, j)] == moved(
            records[placed(sizes, w, j)],
            offset_of(sizes, w),
        )
}

/// Shards that come later start later.
pub proof fn lemma_offsets_monotone(sizes: Seq<usize>, a: int, b: int)
    requires
        0 <= a <= b <= sizes.len(),
    ensures
        0 <= offset_of(sizes, a) <= offset_of(sizes, b) <= total(sizes),
    decreases b - a,
{
    lemma_total_nonnegative(sizes.take(a));
    if a < b {
        lemma_offsets_step(sizes, a);
        lemma_offsets_monotone(sizes, a + 1, b);
    } else if b < sizes.len() {
        lemma_offsets_step(sizes, b);
    } else {
        assert(sizes.take(sizes.len() as int) =~= sizes);
    }
}

/// Every place in the gathered results is a place in exactly one shard.
pub proof fn lemma_place_has_shard(sizes: Seq<usize>, g: int) -> (at: (int, int))
    requires
        0 <= g < total(sizes),
    ensures
        in_shard(sizes, at.0, at.1),
        placed(sizes, at.0, at.1) == g,
    decreases sizes.len(),
{
    let last = sizes.len() - 1;
    assert(sizes.len() > 0);
    lemma_offsets_step(sizes, last);
    if g >= offset_of(sizes, last) {
        (last, g - offset_of(sizes, last))
    } else {
        let rest = sizes.drop_last();
        assert(sizes.take(last) =~= rest);
        let at = lemma_place_has_shard(rest, g);
        assert(rest.take(at.0) =~= sizes.take(at.0));
        at
    }
}

/// The start of the shard that holds place `g` of the gathered results.
pub open spec fn start_of(sizes: Seq<usize>, g: int) -> int
    decreases sizes.len(),
{
    if sizes.len() == 0 {
        0
    } else if g >= offset_of(sizes, sizes.len() - 1) {
        offset_of(sizes, sizes.len() - 1)
    } else {
        start_of(sizes.drop_last(), g)
    }
}

/// The gathered results with each index moved by the start of the shard
/// that the record came from.
pub open spec fn corrected(records: Seq<GenerationRecord>, sizes: Seq<usize>) -> Seq<
    GenerationRecord,
> {
    Seq::new(records.len(), |g: int| moved(records[g], start_of(sizes, g)))
}

/// The shard that holds a place starts where `start_of` says.
pub proof fn lemma_start_of_place(sizes: Seq<usize>, w: int, j: int)
    requires
        in_shard(sizes, w, j),
    ensures
        start_of(sizes, placed(sizes, w, j)) == offset_of(sizes, w),
    decreases sizes.len(),
{
    let last = sizes.len() - 1;
    lemma_offsets_step(sizes, w);
    if w == last {
    } else {
        lemma_offsets_monotone(sizes, w + 1, last);
        let rest = sizes.drop_last();
        assert(rest.take(w) =~= sizes.take(w));
        lemma_start_of_place(rest, w, j);
    }
}

/// There is one way to correct the indices.
pub proof fn lemma_corrected_is_unique(
    out: Seq<GenerationRecord>,
    records: Seq<GenerationRecord>,
    sizes: Seq<usize>,
)
    requires
        records.len() == total(sizes),
    ensures
        is_corrected(out, records, sizes) <==> out == corrected(records, sizes),
{
    let fixed = corrected(records, sizes);
    if is_corrected(out, records, sizes) {
        assert forall|g: int| 0 <= g < out.len() implies out[g] == fixed[g] by {
            let at = lemma_place_has_shard(sizes, g);
            lemma_start_of_place(sizes, at.0, at.1);
            assert(out[placed(sizes, at.0, at.1)] == moved(
                records[placed(sizes, at.0, at.1)],
                offset_of(sizes, at.0),
            ));
        }
        assert(out =~= fixed);
    }
    if out == fixed {
        assert forall|w: int, j: int| in_shard(sizes, w, j) implies #[trigger] out[placed(
            sizes,
            w,
            j,
        )] == moved(records[placed(sizes, w, j)], offset_of(sizes, w)) by {
            lemma_start_of_place(sizes, w, j);
            lemma_offsets_step(sizes, w);
            lemma_offsets_monotone(sizes, w + 1, sizes.len() as int);
            lemma_offsets_monotone(sizes, 0, w);
        }
    }
}

/// Gives gathered results their places in the population: the index of each
/// record is moved by the start of the shard that the record came from.
/// Results that do not have the shape that the shard sizes announce are a
/// protocol failure.
pub fn correct_indices(records: Vec<GenerationRecord>, sizes: &Vec<usize>) -> (result: Result<
    Vec<GenerationRecord>,
    ExploreError,
>)
    ensures
        result.is_ok() == well_shaped(records@, sizes@),
        result.is_ok() ==> is_corrected(result.unwrap()@, records@, sizes@),
        result.is_ok() ==> result.unwrap()@ == corrected(records@, sizes@),
        result.is_err() ==> result.unwrap_err() == ExploreError::ProtocolFailure,
{
    let mut out = records;
    let n = out.len();
    let mut start: usize = 0;
    let mut w: usize = 0;
    while w < sizes.len()
        invariant
            w <= sizes.len(),
            n == records@.len(),
            out@.len() == n,
            start == offset_of(sizes@, w as int),
            start <= n,
            forall|k: int| start <= k < n ==> out@[k] == records@[k],
            forall|a: int, j: int|
                in_shard(sizes@, a, j) && a < w ==> (#[trigger] records@[placed(sizes@, a, j)]).index
                    + offset_of(sizes@, a) <= i32::MAX,
            forall|a: int, j: int|
                in_shard(sizes@, a, j) && a < w ==> #[trigger] out@[placed(sizes@, a, j)] == moved(
                    records@[placed(sizes@, a, j)],
                    offset_of(sizes@, a),
                ),
        decreases sizes.len() - w,
    {
        let size = sizes[w];
        proof {
            lemma_offsets_step(sizes@, w as int);
            lemma_offsets_monotone(sizes@, w + 1, sizes@.len() as int);
        }
        if size > n - start {
            assert(total(sizes@) > n);
            return Err(ExploreError::ProtocolFailure);
        }
        let mut j: usize = 0;
        while j < size
            invariant
                j <= size,
                w < sizes.len(),
                size == sizes@[w as int],
                n == records@.len(),
                out@.len() == n,
                start == offset_of(sizes@, w as int),
                start + size <= n,
                forall|k: int| start + j <= k < n ==> out@[k] == records@[k],
                forall|i: int|
                    0 <= i < j ==> (#[trigger] records@[placed(sizes@, w as int, i)]).index + start
                        <= i32::MAX,
                forall|i: int|
                    0 <= i < j ==> #[trigger] out@[placed(sizes@, w as int, i)] == moved(
                        records@[placed(sizes@, w as int, i)],
                        start as int,
                    ),
                forall|a: int, i: int|
                    in_shard(sizes@, a, i) && a < w ==> #[trigger] out@[placed(sizes@, a, i)]
                        == moved(records@[placed(sizes@, a, i)], offset_of(sizes@, a)),
            decreases size - j,
        {
            let k = start + j;
            let index = out[k].index;
            let sum: i128 = index as i128 + start as i128;
            if sum > i32::MAX as i128 {
                assert(in_shard(sizes@, w as int, j as int));
                assert(records@[placed(sizes@, w as int, j as int)].index + offset_of(
                    sizes@,
                    w as int,
                ) > i32::MAX);
                return Err(ExploreError::ProtocolFailure);
            }
            let ghost before = out@;
            out[k].index = sum as i32;
            proof {
                assert forall|a: int, i: int| in_shard(sizes@, a, i) && a < w implies #[trigger] out@[placed(
                    sizes@,
                    a,
                    i,
                )] == moved(records@[placed(sizes@, a, i)], offset_of(sizes@, a)) by {
                    lemma_offsets_step(sizes@, a);
                    lemma_offsets_monotone(sizes@, a + 1, w as int);
                    assert(out@[placed(sizes@, a, i)] == before[placed(sizes@, a, i)]);
                }
                assert forall|i: int| 0 <= i < j + 1 implies #[trigger] out@[placed(
                    sizes@,
                    w as int,
                    i,
                )] == moved(records@[placed(sizes@, w as int, i)], start as int) by {
                    if i < j {
                        assert(out@[placed(sizes@, w as int, i)] == before[placed(
                            sizes@,
                            w as int,
                            i,
                        )]);
                    }
                }
            }
            j += 1;
        }
        start = start + size;
        w += 1;
    }
    proof {
        assert(sizes@.take(sizes@.len() as int) =~= sizes@);
    }
    if start != n {
        return Err(ExploreError::ProtocolFailure);
    }
    proof {
        lemma_corrected_is_unique(out@, records@, sizes@);
    }
    Ok(out)
}

/// After the correction, the index of each record is its place in the
/// population, if every worker numbered its results from 0: the indices are
/// 0, 1, and so on up to the last, each once, however many workers there are
/// and whatever the sizes of their shards.
pub proof fn lemma_corrected_indices_are_places(
    out: Seq<GenerationRecord>,
    records: Seq<GenerationRecord>,
    sizes: Seq<usize>,
    g: int,
)
    requires
        records.len() == total(sizes),
        total(sizes) <= i32::MAX,
        forall|w: int, j: int|
            in_shard(sizes, w, j) ==> (#[trigger] records[placed(sizes, w, j)]).index == j,
        is_corrected(out, records, sizes),
        0 <= g < records.len(),
    ensures
        well_shaped(records, sizes),
        out[g].index == g,
{
    assert forall|w: int, j: int| in_shard(sizes, w, j) implies (#[trigger] records[placed(
        sizes,
        w,
        j,
    )]).index + offset_of(sizes, w) <= i32::MAX by {
        lemma_offsets_step(sizes, w);
        lemma_offsets_monotone(sizes, w + 1, sizes.len() as int);
    }
    let at = lemma_place_has_shard(sizes, g);
    lemma_offsets_monotone(sizes, 0, at.0);
    assert(out[placed(sizes, at.0, at.1)] == moved(
        records[placed(sizes, at.0, at.1)],
        offset_of(sizes, at.0),
    ));
}

} // verus!
