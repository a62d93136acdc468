use vstd::prelude::*;

verus! {

/// Work units handed to a progress counter at once while reading a chunk.
pub const READ_PROGRESS_BATCH: u64 = 128;

/// Work units handed to a progress counter at once while inverting a sensor row.
pub const INVERT_PROGRESS_BATCH: u64 = 256;

/// A progress message is sent each time a counter passes a multiple of this.
pub const PROGRESS_REPORT_EVERY: u64 = 256;

/// Sum of a sequence of counts.
pub open spec fn seq_sum(s: Seq<u64>) -> int
    decreases s.len(),
{
    if s.len() == 0 {
        0
    } else {
        seq_sum(s.drop_last()) + s.last()
    }
}

/// Splits `work` units into full batches of `batch` units, in order, followed by
/// the remainder when there is one.
pub fn progress_batches(work: u64, batch: u64) -> (r: Vec<u64>)
    requires
        batch > 0,
    ensures
        r@.len() == work / batch + (if work % batch > 0 {
            1int
        } else {
            0
        }),
        forall|i: int| 0 <= i < work / batch ==> #[trigger] r@[i] == batch,
        work % batch > 0 ==> r@[r@.len() - 1] == work % batch,
{
    let mut r: Vec<u64> = Vec::new();
    let mut left = work;
    proof {
        assert(r@.len() * batch == 0) by (nonlinear_arith)
            requires
                r@.len() == 0,
        ;
    }
    while left >= batch
        invariant
            batch > 0,
            left <= work,
            left % batch == work % batch,
            r@.len() * batch + left == work,
            forall|i: int| 0 <= i < r@.len() ==> #[trigger] r@[i] == batch,
        decreases left,
    {
        r.push(batch);
        left = left - batch;
        proof {
            assert((left + batch) as int % (batch as int) == left as int % (batch as int)) by {
                vstd::arithmetic::div_mod::lemma_mod_add_multiples_vanish(left as int, batch as int);
            }
            assert((r@.len() - 1) * batch + batch == r@.len() * batch) by (nonlinear_arith);
        }
    }
    proof {
        assert(left < batch);
        assert(left == work % batch && r@.len() == work / batch) by {
            vstd::arithmetic::div_mod::lemma_fundamental_div_mod_converse(
                work as int,
                batch as int,
                r@.len() as int,
                left as int,
            );
        }
    }
    if left > 0 {
        r.push(left);
    }
    r
}

/// The batches always add up to the work they split.
pub proof fn lemma_progress_batches_sum(work: u64, batch: u64, r: Seq<u64>)
    requires
        batch > 0,
        r.len() == work / batch + (if work % batch > 0 {
            1int
        } else {
            0
        }),
        forall|i: int| 0 <= i < work / batch ==> #[trigger] r[i] == batch,
        work % batch > 0 ==> r[r.len() - 1] == work % batch,
    ensures
        seq_sum(r) == work,
{
    let q: int = work as int / batch as int;
    assert forall|k: int| 0 <= k <= q implies #[trigger] seq_sum(r.subrange(0, k)) == k * batch by {
        lemma_full_batches_sum(r, batch, k);
    }
    vstd::arithmetic::div_mod::lemma_fundamental_div_mod(work as int, batch as int);
    assert(seq_sum(r.subrange(0, q)) == q * batch);
    assert(batch * q == q * batch) by (nonlinear_arith);
    if work % batch > 0 {
        assert(r.drop_last() =~= r.subrange(0, q));
    } else {
        assert(r =~= r.subrange(0, q));
    }
}

proof fn lemma_full_batches_sum(r: Seq<u64>, batch: u64, k: int)
    requires
        0 <= k <= r.len(),
        forall|i: int| 0 <= i < k ==> #[trigger] r[i] == batch,
    ensures
        seq_sum(r.subrange(0, k)) == k * batch,
    decreases k,
{
    if k > 0 {
        lemma_full_batches_sum(r, batch, k - 1);
        assert(r.subrange(0, k).drop_last() =~= r.subrange(0, k - 1));
        assert(r.subrange(0, k).last() == r[k - 1]);
        assert((k - 1) * batch + batch == k * batch) by (nonlinear_arith);
    } else {
        assert(r.subrange(0, 0).len() == 0);
        assert(k * batch == 0) by (nonlinear_arith)
            requires
                k == 0,
        ;
    }
}

/// Whether moving a counter from `prev` to `prev + delta` passes a reporting
/// boundary, so that a progress message is due.
pub fn crosses_report_boundary(prev: u64, delta: u64) -> (b: bool)
    requires
        prev + delta <= u64::MAX,
    ensures
        b == ((prev + delta) / (PROGRESS_REPORT_EVERY as int) != prev as int / (PROGRESS_REPORT_EVERY as int)),
{
    (prev + delta) / PROGRESS_REPORT_EVERY != prev / PROGRESS_REPORT_EVERY
}

/// A message is due exactly when some multiple of `PROGRESS_REPORT_EVERY` lies in
/// `(prev, prev + delta]`.
pub proof fn lemma_report_boundary(prev: nat, delta: nat)
    ensures
        ((prev + delta) as int / (PROGRESS_REPORT_EVERY as int) != prev as int / (PROGRESS_REPORT_EVERY as int)) <==> (exists|
            m: int,
        | prev < #[trigger] (m * PROGRESS_REPORT_EVERY) <= prev + delta),
{
    let e = PROGRESS_REPORT_EVERY as int;
    assert(e == 256);
    let q = prev as int / e;
    if (prev + delta) as int / e != q {
        let m = q + 1;
        assert(prev < m * 256 <= prev + delta);
        assert(prev < m * PROGRESS_REPORT_EVERY <= prev + delta);
    }
    if exists|m: int| prev < #[trigger] (m * PROGRESS_REPORT_EVERY) <= prev + delta {
        let m = choose|m: int| prev < #[trigger] (m * PROGRESS_REPORT_EVERY) <= prev + delta;
        assert(m * PROGRESS_REPORT_EVERY == m * 256);
        assert(q * 256 <= prev);
        assert(q < m) by (nonlinear_arith)
            requires
                q * 256 <= prev,
                prev < m * 256,
        ;
        assert(m <= (prev + delta) as int / 256) by (nonlinear_arith)
            requires
                m * 256 <= prev + delta,
        ;
    }
}

} // verus!
