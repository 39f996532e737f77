use vstd::prelude::*;

verus! {

/// Sum of a list of sample counts.
pub open spec fn total(s: Seq<u32>) -> int
    decreases s.len(),
{
    if s.len() == 0 {
        0
    } else {
        total(s.drop_last()) + s.last()
    }
}

/// Cuts the per-pixel sample budget into consecutive tasks of `per_task`
/// samples each; the last task takes what is left.
pub fn split_samples(sample_per_pixel: u32, per_task: u32) -> (r: Vec<u32>)
    requires
        per_task > 0,
    ensures
        total(r@) == sample_per_pixel,
        r@.len() == (sample_per_pixel + per_task - 1) / per_task as int,
        forall|k: int| 0 <= k < r@.len() ==> 0 < #[trigger] r@[k] <= per_task,
        forall|k: int| 0 <= k < r@.len() - 1 ==> #[trigger] r@[k] == per_task,
{
    let mut tasks: Vec<u32> = Vec::new();
    let mut left = sample_per_pixel;
    while left > 0
        invariant
            per_task > 0,
            total(tasks@) + left == sample_per_pixel,
            tasks@.len() * per_task == sample_per_pixel - left,
            tasks@.len() > 0 ==> left > 0,
            forall|k: int| 0 <= k < tasks@.len() ==> #[trigger] tasks@[k] == per_task,
        decreases left,
    {
        let count = if left < per_task { left } else { per_task };
        let ghost before = tasks@;
        tasks.push(count);
        assert(tasks@.drop_last() == before);
        left = left - count;
        if left > 0 {
            proof {
                assert(tasks@.len() * per_task == before.len() * per_task + per_task) by (nonlinear_arith)
                    requires tasks@.len() == before.len() + 1;
            }
        } else {
            assert(total(tasks@) == sample_per_pixel);
            proof {
                lemma_ceil_div(before.len() as int, per_task as int, count as int, sample_per_pixel as int);
            }
            return tasks;
        }
    }
    proof {
        lemma_ceil_div(-1, per_task as int, per_task as int, 0);
    }
    tasks
}

/// `k` full tasks plus a last task of `c` samples need `k + 1` tasks.
proof fn lemma_ceil_div(k: int, p: int, c: int, n: int)
    requires
        p > 0,
        0 < c <= p,
        k >= -1,
        n == k * p + c,
        k == -1 ==> n == 0 && c == p,
    ensures
        (n + p - 1) / p == k + 1,
{
    if k >= 0 {
        assert(n + p - 1 == (k + 1) * p + (c - 1)) by (nonlinear_arith)
            requires n == k * p + c;
        assert(n + p - 1 == p * (k + 1) + (c - 1)) by (nonlinear_arith)
            requires n + p - 1 == (k + 1) * p + (c - 1);
        vstd::arithmetic::div_mod::lemma_fundamental_div_mod_converse(n + p - 1, p, k + 1, c - 1);
    } else {
        vstd::arithmetic::div_mod::lemma_fundamental_div_mod_converse(p - 1, p, 0, p - 1);
    }
}

/// Shares the per-pixel sample budget among `workers` workers as evenly as
/// possible: the first `sample_per_pixel % workers` workers take one more.
pub fn partition_samples(sample_per_pixel: u32, workers: u32) -> (r: Vec<u32>)
    requires
        workers > 0,
    ensures
        r@.len() == workers,
        total(r@) == sample_per_pixel,
        forall|k: int|
            0 <= k < workers ==> #[trigger] r@[k] == sample_per_pixel / workers + (if k < sample_per_pixel
                % workers { 1int } else { 0int }),
{
    let base = sample_per_pixel / workers;
    let extra = sample_per_pixel % workers;
    proof {
        vstd::arithmetic::div_mod::lemma_fundamental_div_mod(sample_per_pixel as int, workers as int);
    }
    let mut shares: Vec<u32> = Vec::new();
    let mut k: u32 = 0;
    while k < workers
        invariant
            k <= workers,
            base == sample_per_pixel / workers,
            extra == sample_per_pixel % workers,
            extra < workers,
            sample_per_pixel == workers * base + extra,
            shares@.len() == k,
            total(shares@) == k * base + (if k < extra { k as int } else { extra as int }),
            forall|m: int|
                0 <= m < k ==> #[trigger] shares@[m] == base + (if m < extra { 1int } else { 0int }),
        decreases workers - k,
    {
        proof {
            assert(k < extra ==> base + 1 <= sample_per_pixel) by (nonlinear_arith)
                requires sample_per_pixel == workers * base + extra, workers > 0, extra >= 0, base >= 0;
        }
        let share = if k < extra { base + 1 } else { base };
        let ghost before = shares@;
        shares.push(share);
        assert(shares@.drop_last() == before);
        proof {
            assert((k + 1) * base == k * base + base) by (nonlinear_arith);
        }
        k = k + 1;
    }
    proof {
        assert(workers * base == base * workers) by (nonlinear_arith);
    }
    shares
}

/// A worker's private buffer after `count` passes over an image of
/// `image_size` pixels: each pass adds one sample to every pixel.
pub fn task_buffer(image_size: usize, count: u32) -> (r: Vec<u64>)
    ensures
        r@.len() == image_size,
        forall|p: int| 0 <= p < image_size ==> #[trigger] r@[p] == count,
{
    let mut buf: Vec<u64> = Vec::new();
    let mut p: usize = 0;
    while p < image_size
        invariant
            p <= image_size,
            buf@.len() == p,
            forall|q: int| 0 <= q < p ==> #[trigger] buf@[q] == 0,
        decreases image_size - p,
    {
        buf.push(0);
        p = p + 1;
    }
    let mut pass: u32 = 0;
    while pass < count
        invariant
            pass <= count,
            buf@.len() == image_size,
            forall|q: int| 0 <= q < image_size ==> #[trigger] buf@[q] == pass,
        decreases count - pass,
    {
        let mut p: usize = 0;
        while p < image_size
            invariant
                pass < count,
                p <= image_size,
                buf@.len() == image_size,
                forall|q: int| 0 <= q < p ==> #[trigger] buf@[q] == pass + 1,
                forall|q: int| p <= q < image_size ==> #[trigger] buf@[q] == pass,
            decreases image_size - p,
        {
            let v = buf[p];
            buf.set(p, v + 1);
            p = p + 1;
        }
        pass = pass + 1;
    }
    buf
}

/// Adds a worker's private buffer into the shared output, pixel by pixel.
pub fn merge_into(output: &mut Vec<u64>, result: &Vec<u64>)
    requires
        old(output)@.len() == result@.len(),
        forall|p: int| 0 <= p < result@.len() ==> old(output)@[p] + result@[p] <= u64::MAX,
    ensures
        final(output)@.len() == old(output)@.len(),
        forall|p: int| 0 <= p < result@.len() ==> #[trigger] final(output)@[p] == old(output)@[p] + result@[p],
{
    let n = result.len();
    let mut p: usize = 0;
    while p < n
        invariant
            n == result@.len(),
            output@.len() == n,
            p <= n,
            forall|q: int| 0 <= q < n ==> old(output)@[q] + result@[q] <= u64::MAX,
            forall|q: int| 0 <= q < p ==> #[trigger] output@[q] == old(output)@[q] + result@[q],
            forall|q: int| p <= q < n ==> #[trigger] output@[q] == old(output)@[q],
        decreases n - p,
    {
        let v = output[p] + result[p];
        output.set(p, v);
        p = p + 1;
    }
}

/// Runs the sample bookkeeping of a render shared among `workers` workers:
/// each worker fills a private buffer with its share, and the buffers are
/// merged after all of them finish. Whatever the number of workers, every
/// pixel ends up with exactly `sample_per_pixel` samples.
pub fn accumulated_counts(image_size: usize, sample_per_pixel: u32, workers: u32) -> (r: Vec<u64>)
    requires
        workers > 0,
    ensures
        r@.len() == image_size,
        forall|p: int| 0 <= p < image_size ==> #[trigger] r@[p] == sample_per_pixel,
{
    let shares = partition_samples(sample_per_pixel, workers);
    let mut output: Vec<u64> = task_buffer(image_size, 0);
    let mut k: usize = 0;
    while k < shares.len()
        invariant
            shares@.len() == workers,
            total(shares@) == sample_per_pixel,
            k <= shares@.len(),
            output@.len() == image_size,
            forall|p: int| 0 <= p < image_size ==> #[trigger] output@[p] == total(shares@.take(k as int)),
        decreases shares@.len() - k,
    {
        proof {
            lemma_total_prefix_bound(shares@, k as int + 1);
            assert(shares@.take(k as int + 1).drop_last() =~= shares@.take(k as int));
        }
        let result = task_buffer(image_size, shares[k]);
        merge_into(&mut output, &result);
        k = k + 1;
    }
    assert(shares@.take(k as int) =~= shares@);
    output
}

/// A prefix of a list of counts sums to no more than the whole list.
proof fn lemma_total_prefix_bound(s: Seq<u32>, k: int)
    requires
        0 <= k <= s.len(),
    ensures
        0 <= total(s.take(k)) <= total(s),
    decreases s.len(),
{
    if k < s.len() {
        assert(s.drop_last().take(k) =~= s.take(k));
        lemma_total_prefix_bound(s.drop_last(), k);
    } else {
        assert(s.take(k) =~= s);
    }
    lemma_total_nonneg(s.take(k));
}

proof fn lemma_total_nonneg(s: Seq<u32>)
    ensures
        total(s) >= 0,
    decreases s.len(),
{
    if s.len() > 0 {
        lemma_total_nonneg(s.drop_last());
    }
}

/// The cell of the `sqrt_spp x sqrt_spp` stratification grid that sample `s`
/// falls in, row by row, starting over after a full grid.
pub open spec fn stratum_spec(s: int, n: int) -> (int, int) {
    ((s / n) % n, s % n)
}

pub fn stratum_of(s: u32, sqrt_spp: u32) -> (r: (u32, u32))
    requires
        sqrt_spp > 0,
    ensures
        (r.0 as int, r.1 as int) == stratum_spec(s as int, sqrt_spp as int),
        r.0 < sqrt_spp && r.1 < sqrt_spp,
{
    ((s / sqrt_spp) % sqrt_spp, s % sqrt_spp)
}

/// Within one full grid the samples visit every cell exactly once: cell
/// `(a, b)` is sample `a * n + b`, and two samples of the grid share a cell
/// only if they are the same sample.
pub proof fn lemma_strata_cover_grid(n: int, a: int, b: int, s1: int, s2: int)
    requires
        n > 0,
        0 <= a < n,
        0 <= b < n,
        0 <= s1 < n * n,
        0 <= s2 < n * n,
    ensures
        stratum_spec(a * n + b, n) == (a, b),
        stratum_spec(s1, n) == stratum_spec(s2, n) ==> s1 == s2,
{
    vstd::arithmetic::div_mod::lemma_fundamental_div_mod_converse(a * n + b, n, a, b);
    vstd::arithmetic::div_mod::lemma_small_mod(a as nat, n as nat);
    vstd::arithmetic::div_mod::lemma_fundamental_div_mod(s1, n);
    vstd::arithmetic::div_mod::lemma_fundamental_div_mod(s2, n);
    vstd::arithmetic::div_mod::lemma_div_pos_is_pos(s1, n);
    vstd::arithmetic::div_mod::lemma_div_pos_is_pos(s2, n);
    assert(s1 / n < n) by {
        vstd::arithmetic::div_mod::lemma_div_is_ordered(s1, n * n - 1, n);
        assert(n * n - 1 == (n - 1) * n + (n - 1)) by (nonlinear_arith);
        vstd::arithmetic::div_mod::lemma_fundamental_div_mod_converse(n * n - 1, n, n - 1, n - 1);
    }
    assert(s2 / n < n) by {
        vstd::arithmetic::div_mod::lemma_div_is_ordered(s2, n * n - 1, n);
        assert(n * n - 1 == (n - 1) * n + (n - 1)) by (nonlinear_arith);
        vstd::arithmetic::div_mod::lemma_fundamental_div_mod_converse(n * n - 1, n, n - 1, n - 1);
    }
    vstd::arithmetic::div_mod::lemma_small_mod((s1 / n) as nat, n as nat);
    vstd::arithmetic::div_mod::lemma_small_mod((s2 / n) as nat, n as nat);
}

} // verus!
