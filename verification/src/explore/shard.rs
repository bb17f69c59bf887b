//! How a population is cut into one shard per process.
//!
//! The shards are contiguous pieces of the population, in its order. Every
//! process gets `N / P` individuals, and the first `N % P` processes get one
//! more.
use vstd::prelude::*;

verus! {

/// The size of shard `i` when `n` individuals are dealt to `p` processes.
pub open spec fn shard_size(n: int, p: int, i: int) -> int {
    n / p + if i < n % p {
        1int
    } else {
        0int
    }
}

/// The sizes of all shards when `n` individuals are dealt to `p` processes.
pub open spec fn shard_sizes_of(n: usize, p: usize) -> Seq<usize> {
    Seq::new(p as nat, |i: int| shard_size(n as int, p as int, i) as usize)
}

/// The sum of a list of sizes.
pub open spec fn total(sizes: Seq<usize>) -> int
    decreases sizes.len(),
{
    if sizes.len() == 0 {
        0
    } else {
        total(sizes.drop_last()) + sizes.last()
    }
}

/// Where shard `w` starts in the population: the sum of the sizes of the
/// shards before it.
pub open spec fn offset_of(sizes: Seq<usize>, w: int) -> int {
    total(sizes.take(w))
}

/// The start of a shard is the start of the shard before it plus that
/// shard's size; the first shard starts at 0 and the last ends at the total.
pub proof fn lemma_offsets_step(sizes: Seq<usize>, w: int)
    requires
        0 <= w < sizes.len(),
    ensures
        offset_of(sizes, 0) == 0,
        offset_of(sizes, w + 1) == offset_of(sizes, w) + sizes[w],
        offset_of(sizes, sizes.len() as int) == total(sizes),
        0 <= offset_of(sizes, w),
        offset_of(sizes, w + 1) <= total(sizes),
    decreases sizes.len() - w,
{
    assert(sizes.take(w + 1).drop_last() =~= sizes.take(w));
    assert(sizes.take(sizes.len() as int) =~= sizes);
    lemma_total_nonnegative(sizes.take(w));
    if w + 1 < sizes.len() {
        lemma_offsets_step(sizes, w + 1);
        lemma_total_nonnegative(sizes.take(w + 2));
    }
}

/// A sum of sizes is not negative.
pub proof fn lemma_total_nonnegative(sizes: Seq<usize>)
    ensures
        0 <= total(sizes),
    decreases sizes.len(),
{
    if sizes.len() > 0 {
        lemma_total_nonnegative(sizes.drop_last());
    }
}

/// Quotient and remainder of a division by a positive number.
pub proof fn lemma_division(n: int, p: int)
    requires
        0 <= n,
        1 <= p,
    ensures
        0 <= n % p < p,
        0 <= n / p <= n,
        p * (n / p) + n % p == n,
        n % p > 0 ==> n / p < n,
{
    assert(0 <= n % p < p && 0 <= n / p <= n && p * (n / p) + n % p == n && (n % p > 0 ==> n / p
        < n)) by (nonlinear_arith)
        requires
            0 <= n,
            1 <= p,
    ;
}

/// The first `i` shards together hold `i` times the common share, plus one
/// for each of them that is among the first `N % P`.
pub proof fn lemma_shard_offsets(n: usize, p: usize, i: int)
    requires
        p >= 1,
        0 <= i <= p,
    ensures
        offset_of(shard_sizes_of(n, p), i) == i * (n as int / p as int) + if i < n as int
            % p as int {
            i
        } else {
            n as int % p as int
        },
    decreases i,
{
    let sizes = shard_sizes_of(n, p);
    let q = n as int / p as int;
    let r = n as int % p as int;
    lemma_division(n as int, p as int);
    if i > 0 {
        lemma_shard_offsets(n, p, i - 1);
        lemma_offsets_step(sizes, i - 1);
        assert(sizes[i - 1] == shard_size(n as int, p as int, i - 1));
        assert(i * q == (i - 1) * q + q) by (nonlinear_arith);
        assert(offset_of(sizes, i - 1) == (i - 1) * q + if i - 1 < r {
            i - 1
        } else {
            r
        });
        assert(offset_of(sizes, i) == offset_of(sizes, i - 1) + sizes[i - 1]);
    } else {
        lemma_offsets_step(sizes, 0);
        assert(0 * q == 0);
    }
}

/// However many individuals and processes there are: the shard sizes sum to
/// the size of the population; no two of them differ by more than one; and
/// the larger size is that of exactly the first `N % P` shards.
pub proof fn lemma_shards_cover(n: usize, p: usize)
    requires
        p >= 1,
    ensures
        total(shard_sizes_of(n, p)) == n,
        forall|i: int, j: int|
            0 <= i < p && 0 <= j < p ==> -1 <= #[trigger] shard_sizes_of(n, p)[i]
                - #[trigger] shard_sizes_of(n, p)[j] <= 1,
        forall|i: int|
            0 <= i < p ==> (#[trigger] shard_sizes_of(n, p)[i] == n as int / p as int + 1 <==> i
                < n as int % p as int),
        forall|i: int|
            0 <= i < p ==> (#[trigger] shard_sizes_of(n, p)[i] == n as int / p as int <==> i
                >= n as int % p as int),
{
    let sizes = shard_sizes_of(n, p);
    lemma_division(n as int, p as int);
    lemma_shard_offsets(n, p, p as int);
    assert(sizes.take(p as int) =~= sizes);
    assert(p * (n as int / p as int) == (p as int) * (n as int / p as int));
}

/// Computes the size of each process's shard.
pub fn shard_sizes(population_size: usize, num_procs: usize) -> (sizes: Vec<usize>)
    requires
        num_procs >= 1,
    ensures
        sizes@ == shard_sizes_of(population_size, num_procs),
{
    let population_size_per_process = population_size / num_procs;
    let mut remainder = population_size % num_procs;
    let mut sizes: Vec<usize> = Vec::with_capacity(num_procs);
    proof {
        lemma_division(population_size as int, num_procs as int);
    }
    let mut i: usize = 0;
    while i < num_procs
        invariant
            i <= num_procs,
            num_procs >= 1,
            population_size_per_process == population_size as int / num_procs as int,
            remainder > 0 ==> population_size_per_process < population_size,
            remainder == if i < population_size as int % num_procs as int {
                population_size as int % num_procs as int - i
            } else {
                0
            },
            sizes@ == shard_sizes_of(population_size, num_procs).take(i as int),
        decreases num_procs - i,
    {
        let sub_population_size = if remainder > 0 {
            remainder -= 1;
            population_size_per_process + 1
        } else {
            population_size_per_process
        };
        sizes.push(sub_population_size);
        assert(sizes@ =~= shard_sizes_of(population_size, num_procs).take(i + 1));
        i += 1;
    }
    assert(shard_sizes_of(population_size, num_procs).take(num_procs as int) =~= shard_sizes_of(
        population_size,
        num_procs,
    ));
    sizes
}

/// Computes where each shard starts: the running sum of the sizes before it.
pub fn shard_offsets(sizes: &Vec<usize>) -> (offsets: Vec<usize>)
    requires
        total(sizes@) <= usize::MAX,
    ensures
        offsets@.len() == sizes@.len(),
        forall|w: int| 0 <= w < sizes@.len() ==> #[trigger] offsets@[w] == offset_of(sizes@, w),
{
    let mut offsets: Vec<usize> = Vec::with_capacity(sizes.len());
    let mut acc: usize = 0;
    let mut w: usize = 0;
    while w < sizes.len()
        invariant
            w <= sizes.len(),
            total(sizes@) <= usize::MAX,
            offsets@.len() == w,
            acc == offset_of(sizes@, w as int),
            forall|k: int| 0 <= k < w ==> #[trigger] offsets@[k] == offset_of(sizes@, k),
        decreases sizes.len() - w,
    {
        proof {
            lemma_offsets_step(sizes@, w as int);
        }
        offsets.push(acc);
        acc = acc + sizes[w];
        w += 1;
    }
    offsets
}

/// The shards of a population: shard `w` is the piece of the population
/// from the start of shard `w` to the start of the next.
pub open spec fn shards_of(population: Seq<String>, p: usize) -> Seq<Seq<String>> {
    Seq::new(
        p as nat,
        |w: int|
            population.subrange(
                offset_of(shard_sizes_of(population.len() as usize, p), w),
                offset_of(shard_sizes_of(population.len() as usize, p), w + 1),
            ),
    )
}

/// The contents of a list of shards.
pub open spec fn shard_views(shards: Seq<Vec<String>>) -> Seq<Seq<String>> {
    shards.map_values(|s: Vec<String>| s@)
}

/// Cuts the population into one shard per process. The shards follow each
/// other in the population: put end to end, in the order of the processes,
/// they are the population again.
pub fn partition(population: &Vec<String>, num_procs: usize) -> (shards: Vec<Vec<String>>)
    requires
        num_procs >= 1,
    ensures
        shard_views(shards@) == shards_of(population@, num_procs),
{
    let sizes = shard_sizes(population.len(), num_procs);
    proof {
        lemma_shards_cover(population.len(), num_procs);
    }
    let mut shards: Vec<Vec<String>> = Vec::with_capacity(num_procs);
    let mut start: usize = 0;
    let mut w: usize = 0;
    while w < num_procs
        invariant
            w <= num_procs,
            sizes@ == shard_sizes_of(population.len(), num_procs),
            sizes@.len() == num_procs,
            total(sizes@) == population@.len(),
            shards@.len() == w,
            start == offset_of(sizes@, w as int),
            forall|k: int|
                0 <= k < w ==> (#[trigger] shards@[k])@ == population@.subrange(
                    offset_of(sizes@, k),
                    offset_of(sizes@, k + 1),
                ),
        decreases num_procs - w,
    {
        proof {
            lemma_offsets_step(sizes@, w as int);
        }
        let size = sizes[w];
        assert(start + size == offset_of(sizes@, w + 1));
        assert(start + size <= population@.len());
        let mut shard: Vec<String> = Vec::with_capacity(size);
        let mut j: usize = 0;
        while j < size
            invariant
                j <= size,
                start + size <= population@.len(),
                population@.len() <= usize::MAX,
                shard@ == population@.subrange(start as int, start + j),
            decreases size - j,
        {
            shard.push(population[start + j].clone());
            assert(shard@ =~= population@.subrange(start as int, start + j + 1));
            j += 1;
        }
        shards.push(shard);
        start = start + size;
        w += 1;
    }
    assert(shard_views(shards@) =~= shards_of(population@, num_procs));
    shards
}

} // verus!
