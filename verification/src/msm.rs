//! The Pippenger bucket-method MSM engine.
//!
//! A context binds a fixed set of `N` points; an execution takes a flat
//! batch of scalars (`batch_size * N` of them) and returns one projective
//! point per batch, the weighted sum of the points by that batch's scalars.
//!
//! Every point carries a ghost exponent (see `point`): the point is that
//! multiple of the subgroup generator. The engine is verified to return,
//! for each batch, a point whose exponent is exactly
//! `sum_j scalar[j] * exponent(point[j])` — the direct weighted sum that a
//! schoolbook double-and-add computes (`reference_msm` below is that
//! reference, verified against the same sum).
//!
//! Per batch the engine works per 8-bit window of the scalars, from the
//! most significant window down: it accumulates each point into the bucket
//! of its digit in that window (skipping digit zero, and skipping points
//! flagged as the identity in the infinity-aware variant), reduces the 255
//! buckets into one partial sum by the running-sum recurrence, and shifts
//! the accumulator by eight doublings between windows.

use vstd::prelude::*;
use vstd::arithmetic::div_mod::{
    lemma_fundamental_div_mod,
    lemma_add_mod_noop,
    lemma_mul_mod_noop_right,
    lemma_mod_twice,
};
use vstd::arithmetic::mul::{lemma_mul_inequality, lemma_mul_is_distributive_add_other_way};
use crate::scalar::{Scalar, spec_digit, digits_val_from};
use crate::point::{
    AffinePoint,
    ProjPoint,
    fr_order,
    proj_identity,
    proj_add,
    proj_double,
    affine_to_proj,
    affine_is_identity,
};

verus! {

/// Errors of the engine: precondition violations are `InvalidInput` or
/// `LengthMismatch` and are detected before any work; `DeviceError` is the
/// uniform signal for a failure of the compute backend.
#[derive(Clone, Copy, PartialEq, Eq, Debug)]
pub enum MsmError {
    /// A precondition violation other than the scalar-count check: an empty
    /// point set, or a point slice whose length differs from the context's.
    InvalidInput,
    /// The number of scalars is not a multiple of the context's point count.
    LengthMismatch,
    /// The compute backend failed (allocation, launch, or availability).
    DeviceError,
}

/// The exponents of a sequence of projective points.
pub open spec fn proj_exps(ps: Seq<ProjPoint>) -> Seq<nat> {
    ps.map_values(|p: ProjPoint| p@)
}

/// The exponents of a sequence of affine points.
pub open spec fn affine_exps(ps: Seq<AffinePoint>) -> Seq<nat> {
    ps.map_values(|p: AffinePoint| p@)
}

/// The values of a sequence of scalars.
pub open spec fn scalar_vals(ss: Seq<Scalar>) -> Seq<nat> {
    ss.map_values(|s: Scalar| s@)
}

/// The weighted sum of the first `k` points by the first `k` scalars:
/// `scs[0]*pts[0] + ... + scs[k-1]*pts[k-1]`.
pub open spec fn msm_prefix(pts: Seq<nat>, scs: Seq<nat>, k: int) -> nat
    decreases k,
{
    if k <= 0 {
        0
    } else {
        msm_prefix(pts, scs, k - 1) + scs[k - 1] * pts[k - 1]
    }
}

/// The multi-scalar multiplication of a point set by one batch of scalars:
/// the full weighted sum `sum_j scs[j] * pts[j]`.
pub open spec fn msm_value(pts: Seq<nat>, scs: Seq<nat>) -> nat {
    msm_prefix(pts, scs, pts.len() as int)
}

/// The weighted sum of the first `k` points by the first `k` scalars,
/// skipping the points whose flag is set.
pub open spec fn msm_sel_prefix(pts: Seq<nat>, flags: Seq<bool>, scs: Seq<nat>, k: int) -> nat
    decreases k,
{
    if k <= 0 {
        0
    } else {
        msm_sel_prefix(pts, flags, scs, k - 1) + (if flags[k - 1] {
            0nat
        } else {
            scs[k - 1] * pts[k - 1]
        })
    }
}

/// The flag-aware multi-scalar multiplication: the weighted sum over the
/// unflagged points only.
pub open spec fn msm_sel_value(pts: Seq<nat>, flags: Seq<bool>, scs: Seq<nat>) -> nat {
    msm_sel_prefix(pts, flags, scs, pts.len() as int)
}

/// The flags are sound for the point set: a set flag only ever marks a
/// point that is the group identity (exponent divisible by `r`).
pub open spec fn flags_sound(pts: Seq<nat>, flags: Seq<bool>) -> bool {
    &&& flags.len() == pts.len()
    &&& forall|j: int| #![trigger flags[j]]
        0 <= j < pts.len() ==> (flags[j] ==> pts[j] % fr_order() == 0)
}

/// The contribution of window `w` over the first `k` points: the sum of
/// `digit(scs[j], w) * pts[j]` over the unflagged `j < k`.
pub open spec fn window_weighted(
    pts: Seq<nat>,
    flags: Seq<bool>,
    scs: Seq<Scalar>,
    w: int,
    k: int,
) -> nat
    decreases k,
{
    if k <= 0 {
        0
    } else {
        window_weighted(pts, flags, scs, w, k - 1) + (if flags[k - 1] {
            0nat
        } else {
            (spec_digit(scs[k - 1], w) as nat) * pts[k - 1]
        })
    }
}

/// The combined contribution of windows `w..32` over the first `k` points,
/// in units of `256^w`: what the accumulator holds after the engine has
/// processed the windows down to and including `w`.
pub open spec fn wmsm(pts: Seq<nat>, flags: Seq<bool>, scs: Seq<Scalar>, w: int, k: int) -> nat
    decreases 32 - w,
{
    if w < 0 || w >= 32 {
        0
    } else {
        window_weighted(pts, flags, scs, w, k) + 256 * wmsm(pts, flags, scs, w + 1, k)
    }
}

/// The bucket state of window `w` after the first `j` points have been
/// accumulated: bucket `d` holds the sum of the exponents of the unflagged
/// points whose digit at window `w` is `d` (bucket 0 is never touched).
pub open spec fn bucket_model(
    pts: Seq<nat>,
    flags: Seq<bool>,
    scs: Seq<Scalar>,
    w: int,
    j: int,
) -> Seq<nat>
    decreases j,
{
    if j <= 0 {
        Seq::new(256, |e: int| 0nat)
    } else {
        let prev = bucket_model(pts, flags, scs, w, j - 1);
        let d = spec_digit(scs[j - 1], w) as int;
        if flags[j - 1] || d == 0 {
            prev
        } else {
            prev.update(d, prev[d] + pts[j - 1])
        }
    }
}

/// The sum of the buckets `d..256`.
pub open spec fn tail_sum(b: Seq<nat>, d: int) -> nat
    decreases 256 - d,
{
    if d < 0 || d >= 256 {
        0
    } else {
        b[d] + tail_sum(b, d + 1)
    }
}

/// The weighted tail sum `sum_{e in d..256} (e - d + 1) * b[e]`: what the
/// running-sum bucket reduction has accumulated after processing the
/// buckets down to and including `d`.
pub open spec fn tail_wsum(b: Seq<nat>, d: int) -> nat
    decreases 256 - d,
{
    if d < 0 || d >= 256 {
        0
    } else {
        tail_sum(b, d) + tail_wsum(b, d + 1)
    }
}

/// Powers of two, for the doubling ladder.
pub open spec fn pow2_small(e: int) -> nat
    decreases e,
{
    if e <= 0 {
        1
    } else {
        2 * pow2_small(e - 1)
    }
}

/// The bucket state always has 256 entries.
proof fn lemma_bucket_model_len(pts: Seq<nat>, flags: Seq<bool>, scs: Seq<Scalar>, w: int, j: int)
    ensures
        bucket_model(pts, flags, scs, w, j).len() == 256,
    decreases j,
{
    if j > 0 {
        lemma_bucket_model_len(pts, flags, scs, w, j - 1);
        crate::scalar::lemma_digit_bound(scs[j - 1], w);
    } else {
        assert(bucket_model(pts, flags, scs, w, j) == Seq::new(256, |e: int| 0nat));
    }
}

/// Both tail sums of the all-zero bucket state are zero.
proof fn lemma_tail_sums_zero(d: int)
    ensures
        tail_sum(Seq::new(256, |e: int| 0nat), d) == 0,
        tail_wsum(Seq::new(256, |e: int| 0nat), d) == 0,
    decreases 256 - d,
{
    if 0 <= d < 256 {
        lemma_tail_sums_zero(d + 1);
    }
}

/// Adding `v` into bucket `d` raises `tail_sum(_, lo)` by `v` when `d` is
/// in the tail, and leaves it unchanged otherwise.
proof fn lemma_tail_sum_update(b: Seq<nat>, lo: int, d: int, v: nat)
    requires
        b.len() == 256,
        0 <= d < 256,
        0 <= lo,
    ensures
        tail_sum(b.update(d, b[d] + v), lo) == tail_sum(b, lo) + (if lo <= d {
            v
        } else {
            0nat
        }),
    decreases 256 - lo,
{
    if 0 <= lo < 256 {
        lemma_tail_sum_update(b, lo + 1, d, v);
    }
}

/// Adding `v` into bucket `d` raises `tail_wsum(_, lo)` by `(d - lo + 1) * v`
/// when `d` is in the tail: the running-sum reduction counts bucket `d`
/// exactly `d - lo + 1` times.
proof fn lemma_tail_wsum_update(b: Seq<nat>, lo: int, d: int, v: nat)
    requires
        b.len() == 256,
        0 <= d < 256,
        0 <= lo,
    ensures
        lo <= d ==> tail_wsum(b.update(d, b[d] + v), lo) == tail_wsum(b, lo) + (d - lo + 1) * v,
        lo > d ==> tail_wsum(b.update(d, b[d] + v), lo) == tail_wsum(b, lo),
    decreases 256 - lo,
{
    if 0 <= lo < 256 {
        lemma_tail_wsum_update(b, lo + 1, d, v);
        lemma_tail_sum_update(b, lo, d, v);
        if lo <= d {
            if lo + 1 <= d {
                assert((d - lo + 1) * v == (d - (lo + 1) + 1) * v + v) by (nonlinear_arith);
            } else {
                assert((d - lo + 1) * v == v) by (nonlinear_arith)
                    requires
                        lo == d,
                ;
            }
        }
    }
}

/// After all `j` points are accumulated, the running-sum reduction of the
/// buckets from index 1 yields exactly the window's weighted contribution:
/// bucket `d` enters the total `d` times.
proof fn lemma_bucket_wsum(pts: Seq<nat>, flags: Seq<bool>, scs: Seq<Scalar>, w: int, j: int)
    requires
        0 <= j,
        j <= pts.len(),
        j <= flags.len(),
        j <= scs.len(),
    ensures
        tail_wsum(bucket_model(pts, flags, scs, w, j), 1) == window_weighted(
            pts,
            flags,
            scs,
            w,
            j,
        ),
    decreases j,
{
    if j == 0 {
        lemma_tail_sums_zero(1);
    } else {
        lemma_bucket_wsum(pts, flags, scs, w, j - 1);
        let prev = bucket_model(pts, flags, scs, w, j - 1);
        let d = spec_digit(scs[j - 1], w) as int;
        lemma_bucket_model_len(pts, flags, scs, w, j - 1);
        if !flags[j - 1] && d != 0 {
            crate::scalar::lemma_digit_bound(scs[j - 1], w);
            assert(0 < d < 256);
            lemma_tail_wsum_update(prev, 1, d, pts[j - 1]);
            assert((d - 1 + 1) * pts[j - 1] == (spec_digit(scs[j - 1], w) as nat) * pts[j - 1]);
        } else if !flags[j - 1] {
            assert((spec_digit(scs[j - 1], w) as nat) * pts[j - 1] == 0) by (nonlinear_arith)
                requires
                    spec_digit(scs[j - 1], w) == 0,
            ;
        }
    }
}

/// Extending the point range by one adds that point's remaining scalar
/// value (windows `w..32`) times its exponent to the combined sum.
proof fn lemma_wmsm_push(pts: Seq<nat>, flags: Seq<bool>, scs: Seq<Scalar>, w: int, k: int)
    requires
        0 <= w,
        1 <= k,
        k <= pts.len(),
        k <= flags.len(),
        k <= scs.len(),
    ensures
        wmsm(pts, flags, scs, w, k) == wmsm(pts, flags, scs, w, k - 1) + (if flags[k - 1] {
            0nat
        } else {
            digits_val_from(scs[k - 1], w) * pts[k - 1]
        }),
    decreases 32 - w,
{
    if w >= 32 {
        assert(digits_val_from(scs[k - 1], w) == 0);
        assert(digits_val_from(scs[k - 1], w) * pts[k - 1] == 0) by (nonlinear_arith)
            requires
                digits_val_from(scs[k - 1], w) == 0,
        ;
    } else {
        lemma_wmsm_push(pts, flags, scs, w + 1, k);
        assert(wmsm(pts, flags, scs, w, k) == window_weighted(pts, flags, scs, w, k) + 256 * wmsm(
            pts,
            flags,
            scs,
            w + 1,
            k,
        ));
        assert(wmsm(pts, flags, scs, w, k - 1) == window_weighted(pts, flags, scs, w, k - 1) + 256
            * wmsm(pts, flags, scs, w + 1, k - 1));
        if !flags[k - 1] {
            let d = spec_digit(scs[k - 1], w) as nat;
            let t = digits_val_from(scs[k - 1], w + 1);
            let p = pts[k - 1];
            assert(window_weighted(pts, flags, scs, w, k) == window_weighted(
                pts,
                flags,
                scs,
                w,
                k - 1,
            ) + d * p);
            assert(wmsm(pts, flags, scs, w + 1, k) == wmsm(pts, flags, scs, w + 1, k - 1) + t * p);
            assert(d * p + 256 * (t * p) == (d + 256 * t) * p) by (nonlinear_arith);
            assert(digits_val_from(scs[k - 1], w) == d + 256 * t);
            assert(wmsm(pts, flags, scs, w, k) == wmsm(pts, flags, scs, w, k - 1) + (d + 256 * t)
                * p);
        }
    }
}

/// With no points, every combined window sum is zero.
proof fn lemma_wmsm_no_points(pts: Seq<nat>, flags: Seq<bool>, scs: Seq<Scalar>, w: int)
    ensures
        wmsm(pts, flags, scs, w, 0) == 0,
    decreases 32 - w,
{
    if 0 <= w < 32 {
        lemma_wmsm_no_points(pts, flags, scs, w + 1);
    }
}

/// The combined window sums starting at window 0 equal the flag-aware
/// weighted sum itself: digit recombination is exact.
proof fn lemma_wmsm_msm(pts: Seq<nat>, flags: Seq<bool>, scs: Seq<Scalar>, k: int)
    requires
        0 <= k,
        k <= pts.len(),
        k <= flags.len(),
        k <= scs.len(),
    ensures
        wmsm(pts, flags, scs, 0, k) == msm_sel_prefix(pts, flags, scalar_vals(scs), k),
    decreases k,
{
    if k > 0 {
        lemma_wmsm_msm(pts, flags, scs, k - 1);
        lemma_wmsm_push(pts, flags, scs, 0, k);
        assert(scalar_vals(scs)[k - 1] == digits_val_from(scs[k - 1], 0));
    } else {
        lemma_wmsm_no_points(pts, flags, scs, 0);
    }
}

/// With no flag set, the flag-aware sum is the plain weighted sum.
proof fn lemma_msm_sel_all_false(pts: Seq<nat>, flags: Seq<bool>, scs: Seq<nat>, k: int)
    requires
        forall|j: int| #![trigger flags[j]] 0 <= j < k ==> !flags[j],
    ensures
        msm_sel_prefix(pts, flags, scs, k) == msm_prefix(pts, scs, k),
    decreases k,
{
    if k > 0 {
        lemma_msm_sel_all_false(pts, flags, scs, k - 1);
    }
}

/// Skipping identity points does not change the result in the group: the
/// flag-aware weighted sum and the plain weighted sum agree modulo the
/// group order whenever every set flag marks an identity point.
pub proof fn lemma_infinity_flags_preserve_result(
    pts: Seq<nat>,
    flags: Seq<bool>,
    scs: Seq<nat>,
    k: int,
)
    requires
        0 <= k,
        k <= pts.len(),
        flags_sound(pts, flags),
    ensures
        msm_sel_prefix(pts, flags, scs, k) % fr_order() == msm_prefix(pts, scs, k) % fr_order(),
    decreases k,
{
    let r = fr_order() as int;
    if k > 0 {
        lemma_infinity_flags_preserve_result(pts, flags, scs, k - 1);
        let a = msm_sel_prefix(pts, flags, scs, k - 1) as int;
        let b = msm_prefix(pts, scs, k - 1) as int;
        let t = (scs[k - 1] * pts[k - 1]) as int;
        if flags[k - 1] {
            let s = scs[k - 1] as int;
            let p = pts[k - 1] as int;
            assert(p % r == 0);
            assert(s * (p % r) == 0) by (nonlinear_arith)
                requires
                    p % r == 0,
            ;
            lemma_mul_mod_noop_right(s, p, r);
            assert(t % r == 0);
            lemma_add_mod_noop(b, t, r);
            lemma_mod_twice(b, r);
        } else {
            lemma_add_mod_noop(a, t, r);
            lemma_add_mod_noop(b, t, r);
        }
    }
}

/// A batch of all-zero scalars yields the group identity: the weighted sum
/// is zero.
pub proof fn lemma_zero_scalars_yield_identity(pts: Seq<nat>, scs: Seq<nat>, k: int)
    requires
        forall|j: int| #![trigger scs[j]] 0 <= j < k ==> scs[j] == 0,
    ensures
        msm_prefix(pts, scs, k) == 0,
    decreases k,
{
    if k > 0 {
        lemma_zero_scalars_yield_identity(pts, scs, k - 1);
        assert(scs[k - 1] * pts[k - 1] == 0) by (nonlinear_arith)
            requires
                scs[k - 1] == 0,
        ;
    }
}

/// A point set of identity points yields the group identity for every
/// batch, whatever the scalars: a point is the identity exactly when the
/// group order divides its exponent, and then it divides the weighted sum
/// too.
pub proof fn lemma_identity_points_yield_identity(pts: Seq<nat>, scs: Seq<nat>, k: int)
    requires
        forall|j: int| #![trigger pts[j]] 0 <= j < k ==> pts[j] % fr_order() == 0,
    ensures
        msm_prefix(pts, scs, k) % fr_order() == 0,
    decreases k,
{
    let r = fr_order() as int;
    if k > 0 {
        lemma_identity_points_yield_identity(pts, scs, k - 1);
        let a = msm_prefix(pts, scs, k - 1) as int;
        let s = scs[k - 1] as int;
        let p = pts[k - 1] as int;
        let t = (scs[k - 1] * pts[k - 1]) as int;
        assert(s * (p % r) == 0) by (nonlinear_arith)
            requires
                p % r == 0,
        ;
        lemma_mul_mod_noop_right(s, p, r);
        assert(t % r == 0);
        lemma_add_mod_noop(a, t, r);
    }
}

/// With a single point and a single scalar, the weighted sum is the direct
/// scalar multiple of that point.
pub proof fn lemma_single_point(p: nat, s: nat)
    ensures
        msm_value(seq![p], seq![s]) == s * p,
{
    assert(msm_prefix(seq![p], seq![s], 1) == msm_prefix(seq![p], seq![s], 0) + s * p);
}

/// The per-batch results of one flat scalar sequence, in batch order.
pub open spec fn batch_results(pts: Seq<nat>, scs: Seq<nat>, n: int, batch: int) -> Seq<nat> {
    Seq::new(batch as nat, |i: int| msm_value(pts, scs.subrange(i * n, (i + 1) * n)))
}

/// Batches are independent: permuting the order of the batches inside one
/// flat scalar sequence permutes the results identically and changes no
/// individual result.
pub proof fn lemma_batch_permutation(
    pts: Seq<nat>,
    scs1: Seq<nat>,
    scs2: Seq<nat>,
    n: int,
    batch: int,
    perm: Seq<int>,
)
    requires
        perm.len() == batch,
        forall|i: int| #![trigger perm[i]] 0 <= i < batch ==> 0 <= perm[i] < batch,
        forall|i: int| #![trigger perm[i]]
            0 <= i < batch ==> scs2.subrange(i * n, (i + 1) * n) == scs1.subrange(
                perm[i] * n,
                (perm[i] + 1) * n,
            ),
    ensures
        forall|i: int| #![trigger perm[i]]
            0 <= i < batch ==> batch_results(pts, scs2, n, batch)[i] == batch_results(
                pts,
                scs1,
                n,
                batch,
            )[perm[i]],
{
    assert forall|i: int| #![trigger perm[i]] 0 <= i < batch implies batch_results(
        pts,
        scs2,
        n,
        batch,
    )[i] == batch_results(pts, scs1, n, batch)[perm[i]] by {
        assert(scs2.subrange(i * n, (i + 1) * n) == scs1.subrange(
            perm[i] * n,
            (perm[i] + 1) * n,
        ));
    }
}

/// The state a batch execution runs against: the preprocessed point set in
/// projective form, with one identity flag per point captured at creation
/// time (all false when created by the standard variant). Read-only after
/// creation; released by its owner through `release`.
pub struct MultiScalarMultContext {
    points: Vec<ProjPoint>,
    inf_flags: Vec<bool>,
}

impl MultiScalarMultContext {
    /// The identity flags captured at context creation, one per point.
    pub closed spec fn flags(&self) -> Seq<bool> {
        self.inf_flags@
    }

    /// Well-formed: at least one point, and one flag per point. Established
    /// by both context constructors.
    pub closed spec fn wf(&self) -> bool {
        &&& self.points@.len() >= 1
        &&& self.inf_flags@.len() == self.points@.len()
    }
}

impl View for MultiScalarMultContext {
    type V = Seq<nat>;

    closed spec fn view(&self) -> Seq<nat> {
        proj_exps(self.points@)
    }
}

/// One window's bucket accumulation and reduction for one batch: returns
/// the point whose exponent is the window's weighted contribution
/// `sum_j digit(scalar[j], w) * exponent(point[j])` over the unflagged
/// points, where the batch's scalars start at `base`.
fn window_partial(
    points: &Vec<ProjPoint>,
    flags: &Vec<bool>,
    scalars: &Vec<Scalar>,
    base: usize,
    w: usize,
) -> (r: ProjPoint)
    requires
        w < 32,
        flags@.len() == points@.len(),
        base + points@.len() <= scalars@.len(),
    ensures
        r@ == window_weighted(
            proj_exps(points@),
            flags@,
            scalars@.subrange(base as int, base + points@.len()),
            w as int,
            points@.len() as int,
        ),
{
    let ghost ptv = proj_exps(points@);
    let ghost flv = flags@;
    let ghost scs = scalars@.subrange(base as int, base + points@.len());
    let n = points.len();
    let sl = scalars.len();

    let mut buckets: Vec<ProjPoint> = Vec::new();
    let mut i: usize = 0;
    while i < 256
        invariant
            i <= 256,
            buckets@.len() == i,
            forall|e: int| 0 <= e < i ==> buckets@[e]@ == 0,
        decreases 256 - i,
    {
        buckets.push(proj_identity());
        i = i + 1;
    }
    proof {
        assert(proj_exps(buckets@) =~= bucket_model(ptv, flv, scs, w as int, 0));
    }

    let mut j: usize = 0;
    while j < n
        invariant
            j <= n,
            n == points@.len(),
            flv == flags@,
            flags@.len() == n,
            base + n <= sl,
            sl == scalars@.len(),
            w < 32,
            ptv == proj_exps(points@),
            scs == scalars@.subrange(base as int, base + n as int),
            buckets@.len() == 256,
            proj_exps(buckets@) == bucket_model(ptv, flv, scs, w as int, j as int),
        decreases n - j,
    {
        proof {
            assert(scs[j as int] == scalars@[base + j]);
        }
        if !flags[j] {
            let d = scalars[base + j].digit(w);
            if d != 0 {
                let du = d as usize;
                let ghost prevb = buckets@;
                let nb = proj_add(&buckets[du], &points[j]);
                buckets[du] = nb;
                proof {
                    assert(nb@ == bucket_model(ptv, flv, scs, w as int, j as int)[du as int]
                        + ptv[j as int]);
                    assert(bucket_model(ptv, flv, scs, w as int, j + 1) == bucket_model(
                        ptv,
                        flv,
                        scs,
                        w as int,
                        j as int,
                    ).update(du as int, nb@));
                    assert(proj_exps(buckets@) =~= bucket_model(ptv, flv, scs, w as int, j + 1));
                }
            } else {
                proof {
                    assert(bucket_model(ptv, flv, scs, w as int, j + 1) == bucket_model(
                        ptv,
                        flv,
                        scs,
                        w as int,
                        j as int,
                    ));
                }
            }
        } else {
            proof {
                assert(bucket_model(ptv, flv, scs, w as int, j + 1) == bucket_model(
                    ptv,
                    flv,
                    scs,
                    w as int,
                    j as int,
                ));
            }
        }
        j = j + 1;
    }

    let ghost bm = bucket_model(ptv, flv, scs, w as int, n as int);
    proof {
        lemma_bucket_model_len(ptv, flv, scs, w as int, n as int);
    }
    let mut running = proj_identity();
    let mut total = proj_identity();
    let mut didx: usize = 256;
    while 1 < didx
        invariant
            1 <= didx <= 256,
            buckets@.len() == 256,
            proj_exps(buckets@) == bm,
            bm.len() == 256,
            running@ == tail_sum(bm, didx as int),
            total@ == tail_wsum(bm, didx as int),
        decreases didx,
    {
        didx = didx - 1;
        proof {
            assert(buckets@[didx as int]@ == bm[didx as int]);
        }
        running = proj_add(&running, &buckets[didx]);
        total = proj_add(&total, &running);
    }
    proof {
        lemma_bucket_wsum(ptv, flv, scs, w as int, n as int);
    }
    total
}

/// One batch of the bucket-method engine: processes the 32 windows of the
/// batch's scalars from the most significant down, with eight doublings
/// between windows, and returns the point whose exponent is the flag-aware
/// weighted sum of the points by the batch's scalars.
fn msm_batch(
    points: &Vec<ProjPoint>,
    flags: &Vec<bool>,
    scalars: &Vec<Scalar>,
    base: usize,
) -> (r: ProjPoint)
    requires
        flags@.len() == points@.len(),
        base + points@.len() <= scalars@.len(),
    ensures
        r@ == msm_sel_value(
            proj_exps(points@),
            flags@,
            scalar_vals(scalars@.subrange(base as int, base + points@.len())),
        ),
{
    let ghost ptv = proj_exps(points@);
    let ghost flv = flags@;
    let ghost scs = scalars@.subrange(base as int, base + points@.len());
    let n = points.len();
    let mut acc = proj_identity();
    let mut w: usize = 32;
    while 0 < w
        invariant
            w <= 32,
            n == points@.len(),
            flv == flags@,
            flags@.len() == n,
            base + n <= scalars@.len(),
            ptv == proj_exps(points@),
            scs == scalars@.subrange(base as int, base + n as int),
            acc@ == wmsm(ptv, flv, scs, w as int, n as int),
        decreases w,
    {
        w = w - 1;
        let ghost t = wmsm(ptv, flv, scs, w as int + 1, n as int);
        proof {
            assert(pow2_small(0) == 1);
            assert(pow2_small(0) * t == t) by (nonlinear_arith)
                requires
                    pow2_small(0) == 1,
            ;
        }
        let mut dd: usize = 0;
        while dd < 8
            invariant
                dd <= 8,
                acc@ == pow2_small(dd as int) * t,
            decreases 8 - dd,
        {
            acc = proj_double(&acc);
            proof {
                assert(2 * (pow2_small(dd as int) * t) == pow2_small(dd as int + 1) * t)
                    by (nonlinear_arith)
                    requires
                        pow2_small(dd as int + 1) == 2 * pow2_small(dd as int),
                ;
            }
            dd = dd + 1;
        }
        proof {
            reveal_with_fuel(pow2_small, 9);
            assert(pow2_small(8) == 256);
            assert(pow2_small(8) * t == 256 * t) by (nonlinear_arith)
                requires
                    pow2_small(8) == 256,
            ;
        }
        let part = window_partial(points, flags, scalars, base, w);
        acc = proj_add(&acc, &part);
    }
    proof {
        lemma_wmsm_msm(ptv, flv, scs, n as int);
    }
    acc
}

/// Creates a context bound to the given point set: converts every point to
/// the projective working form the engine runs on. Fails with
/// `InvalidInput` exactly when the point set is empty. The context's flags
/// are all clear: the standard variant relies on the group law absorbing
/// the identity instead of flagging it.
pub fn multi_scalar_mult_init(points: &Vec<AffinePoint>) -> (r: Result<
    MultiScalarMultContext,
    MsmError,
>)
    ensures
        r is Ok <==> points@.len() >= 1,
        r is Err ==> r->Err_0 == MsmError::InvalidInput,
        r is Ok ==> ({
            let ctx = r->Ok_0;
            &&& ctx.wf()
            &&& ctx@ == affine_exps(points@)
            &&& ctx.flags().len() == points@.len()
            &&& forall|j: int| #![trigger ctx.flags()[j]] 0 <= j < points@.len() ==> !ctx.flags()[j]
        }),
{
    if points.len() == 0 {
        return Err(MsmError::InvalidInput);
    }
    let mut ps: Vec<ProjPoint> = Vec::new();
    let mut fl: Vec<bool> = Vec::new();
    let mut j: usize = 0;
    while j < points.len()
        invariant
            j <= points@.len(),
            ps@.len() == j,
            fl@.len() == j,
            forall|k: int| #![trigger ps@[k]] 0 <= k < j ==> ps@[k]@ == points@[k]@,
            forall|k: int| #![trigger fl@[k]] 0 <= k < j ==> !fl@[k],
        decreases points@.len() - j,
    {
        ps.push(affine_to_proj(&points[j]));
        fl.push(false);
        j = j + 1;
    }
    let ctx = MultiScalarMultContext { points: ps, inf_flags: fl };
    proof {
        assert(ctx@ =~= affine_exps(points@));
    }
    Ok(ctx)
}

/// Creates an infinity-aware context: besides the projective point set it
/// captures, once and from exactly the points passed in, one flag per point
/// saying whether that point is the group identity. Fails with
/// `InvalidInput` exactly when the point set is empty.
pub fn multi_scalar_mult_init_bc(points: &Vec<AffinePoint>) -> (r: Result<
    MultiScalarMultContext,
    MsmError,
>)
    ensures
        r is Ok <==> points@.len() >= 1,
        r is Err ==> r->Err_0 == MsmError::InvalidInput,
        r is Ok ==> ({
            let ctx = r->Ok_0;
            &&& ctx.wf()
            &&& ctx@ == affine_exps(points@)
            &&& ctx.flags().len() == points@.len()
            &&& forall|j: int| #![trigger ctx.flags()[j]]
                0 <= j < points@.len() ==> (ctx.flags()[j] <==> ctx@[j] % fr_order() == 0)
            &&& flags_sound(ctx@, ctx.flags())
        }),
{
    if points.len() == 0 {
        return Err(MsmError::InvalidInput);
    }
    let mut ps: Vec<ProjPoint> = Vec::new();
    let mut fl: Vec<bool> = Vec::new();
    let mut j: usize = 0;
    while j < points.len()
        invariant
            j <= points@.len(),
            ps@.len() == j,
            fl@.len() == j,
            forall|k: int| #![trigger ps@[k]] 0 <= k < j ==> ps@[k]@ == points@[k]@,
            forall|k: int| #![trigger fl@[k]]
                0 <= k < j ==> (fl@[k] <==> points@[k]@ % fr_order() == 0),
        decreases points@.len() - j,
    {
        fl.push(affine_is_identity(&points[j]));
        ps.push(affine_to_proj(&points[j]));
        j = j + 1;
    }
    let ctx = MultiScalarMultContext { points: ps, inf_flags: fl };
    proof {
        assert(ctx@ =~= affine_exps(points@));
    }
    Ok(ctx)
}

/// Batched bucket-method execution. The scalars are one flat sequence of
/// `batch_size` groups of `N` scalars, `N` the context's point count; the
/// result holds one point per batch, in batch order, whose exponent is
/// exactly the weighted sum of the context's points by that batch's
/// scalars. Fails with `InvalidInput` when the points slice does not match
/// the context's point count, and with `LengthMismatch` when the scalar
/// count is not a multiple of `N`; no partial results are ever returned.
pub fn multi_scalar_mult(
    context: &MultiScalarMultContext,
    points: &Vec<AffinePoint>,
    scalars: &Vec<Scalar>,
) -> (r: Result<Vec<ProjPoint>, MsmError>)
    requires
        context.wf(),
    ensures
        r is Ok <==> points@.len() == context@.len() && scalars@.len() % context@.len() == 0,
        r is Err ==> r->Err_0 == (if points@.len() != context@.len() {
            MsmError::InvalidInput
        } else {
            MsmError::LengthMismatch
        }),
        r is Ok ==> ({
            let out = r->Ok_0;
            let n = context@.len() as int;
            &&& out@.len() == scalars@.len() as int / n
            &&& forall|i: int| #![trigger out@[i]]
                0 <= i < out@.len() ==> out@[i]@ == msm_value(
                    context@,
                    scalar_vals(scalars@).subrange(i * n, (i + 1) * n),
                )
        }),
{
    let n = context.points.len();
    if points.len() != n {
        return Err(MsmError::InvalidInput);
    }
    if scalars.len() % n != 0 {
        return Err(MsmError::LengthMismatch);
    }
    let batch = scalars.len() / n;
    let mut falses: Vec<bool> = Vec::new();
    let mut i: usize = 0;
    while i < n
        invariant
            i <= n,
            falses@.len() == i,
            forall|e: int| #![trigger falses@[e]] 0 <= e < i ==> !falses@[e],
        decreases n - i,
    {
        falses.push(false);
        i = i + 1;
    }
    let mut out: Vec<ProjPoint> = Vec::new();
    let mut b: usize = 0;
    while b < batch
        invariant
            b <= batch,
            n == context.points@.len(),
            n >= 1,
            batch == scalars@.len() as int / n as int,
            scalars@.len() % (n as nat) == 0,
            scalars@.len() <= usize::MAX,
            falses@.len() == n,
            forall|e: int| #![trigger falses@[e]] 0 <= e < n ==> !falses@[e],
            out@.len() == b,
            forall|i: int| #![trigger out@[i]]
                0 <= i < b ==> out@[i]@ == msm_value(
                    context@,
                    scalar_vals(scalars@).subrange(i * (n as int), (i + 1) * (n as int)),
                ),
        decreases batch - b,
    {
        proof {
            lemma_fundamental_div_mod(scalars@.len() as int, n as int);
            lemma_mul_inequality(b as int + 1, batch as int, n as int);
            lemma_mul_is_distributive_add_other_way(n as int, b as int, 1);
            assert(b * n + n <= scalars@.len());
        }
        let base = b * n;
        let res = msm_batch(&context.points, &falses, scalars, base);
        proof {
            let ghost svs = scalar_vals(scalars@.subrange(base as int, base + n));
            assert(svs =~= scalar_vals(scalars@).subrange(
                b as int * n as int,
                (b as int + 1) * (n as int),
            ));
            lemma_msm_sel_all_false(context@, falses@, svs, n as int);
        }
        out.push(res);
        b = b + 1;
    }
    Ok(out)
}

/// Batched execution against an infinity-aware context: points the context
/// flagged as the identity at creation time contribute to no bucket. Each
/// result's exponent is exactly the flag-aware weighted sum; since a set
/// flag only ever marks an identity point, each result equals the plain
/// weighted sum in the group (the exponents agree modulo the group order).
/// The error cases are those of `multi_scalar_mult`.
pub fn multi_scalar_mult_bc(
    context: &MultiScalarMultContext,
    points: &Vec<AffinePoint>,
    scalars: &Vec<Scalar>,
) -> (r: Result<Vec<ProjPoint>, MsmError>)
    requires
        context.wf(),
    ensures
        r is Ok <==> points@.len() == context@.len() && scalars@.len() % context@.len() == 0,
        r is Err ==> r->Err_0 == (if points@.len() != context@.len() {
            MsmError::InvalidInput
        } else {
            MsmError::LengthMismatch
        }),
        r is Ok ==> ({
            let out = r->Ok_0;
            let n = context@.len() as int;
            &&& out@.len() == scalars@.len() as int / n
            &&& forall|i: int| #![trigger out@[i]]
                0 <= i < out@.len() ==> out@[i]@ == msm_sel_value(
                    context@,
                    context.flags(),
                    scalar_vals(scalars@).subrange(i * n, (i + 1) * n),
                )
            &&& flags_sound(context@, context.flags()) ==> forall|i: int| #![trigger out@[i]]
                0 <= i < out@.len() ==> out@[i]@ % fr_order() == msm_value(
                    context@,
                    scalar_vals(scalars@).subrange(i * n, (i + 1) * n),
                ) % fr_order()
        }),
{
    let n = context.points.len();
    if points.len() != n {
        return Err(MsmError::InvalidInput);
    }
    if scalars.len() % n != 0 {
        return Err(MsmError::LengthMismatch);
    }
    let batch = scalars.len() / n;
    let mut out: Vec<ProjPoint> = Vec::new();
    let mut b: usize = 0;
    while b < batch
        invariant
            b <= batch,
            context.wf(),
            n == context.points@.len(),
            n >= 1,
            batch == scalars@.len() as int / n as int,
            scalars@.len() % (n as nat) == 0,
            scalars@.len() <= usize::MAX,
            out@.len() == b,
            forall|i: int| #![trigger out@[i]]
                0 <= i < b ==> out@[i]@ == msm_sel_value(
                    context@,
                    context.flags(),
                    scalar_vals(scalars@).subrange(i * (n as int), (i + 1) * (n as int)),
                ),
            flags_sound(context@, context.flags()) ==> forall|i: int| #![trigger out@[i]]
                0 <= i < b ==> out@[i]@ % fr_order() == msm_value(
                    context@,
                    scalar_vals(scalars@).subrange(i * (n as int), (i + 1) * (n as int)),
                ) % fr_order(),
        decreases batch - b,
    {
        proof {
            lemma_fundamental_div_mod(scalars@.len() as int, n as int);
            lemma_mul_inequality(b as int + 1, batch as int, n as int);
            lemma_mul_is_distributive_add_other_way(n as int, b as int, 1);
            assert(b * n + n <= scalars@.len());
        }
        let base = b * n;
        let res = msm_batch(&context.points, &context.inf_flags, scalars, base);
        proof {
            let ghost svs = scalar_vals(scalars@.subrange(base as int, base + n));
            assert(svs =~= scalar_vals(scalars@).subrange(
                b as int * n as int,
                (b as int + 1) * (n as int),
            ));
            if flags_sound(context@, context.flags()) {
                lemma_infinity_flags_preserve_result(context@, context.flags(), svs, n as int);
            }
        }
        out.push(res);
        b = b + 1;
    }
    Ok(out)
}

/// Releases a context, freeing the preprocessed point storage it owns: the
/// explicit destruction step of the context lifecycle. The caller must not
/// release a context while an execution against it is in flight.
pub fn release(context: MultiScalarMultContext) {
}

/// Direct double-and-add scalar multiplication: the schoolbook reference.
/// Processes the scalar digit by digit from the most significant window,
/// with eight doublings between windows and a digit's worth of repeated
/// additions inside one.
pub fn scalar_mul(p: &ProjPoint, s: &Scalar) -> (r: ProjPoint)
    ensures
        r@ == s@ * p@,
{
    let mut acc = proj_identity();
    let mut w: usize = 32;
    proof {
        assert(digits_val_from(*s, 32) * p@ == 0) by (nonlinear_arith);
    }
    while 0 < w
        invariant
            w <= 32,
            acc@ == digits_val_from(*s, w as int) * p@,
        decreases w,
    {
        w = w - 1;
        let ghost t = digits_val_from(*s, w as int + 1);
        proof {
            assert(acc@ == t * p@);
            assert(pow2_small(0) == 1);
        }
        let mut dd: usize = 0;
        while dd < 8
            invariant
                dd <= 8,
                acc@ == pow2_small(dd as int) * (t * p@),
        decreases 8 - dd,
        {
            acc = proj_double(&acc);
            proof {
                assert(2 * (pow2_small(dd as int) * (t * p@)) == pow2_small(dd as int + 1) * (t
                    * p@)) by (nonlinear_arith)
                    requires pow2_small(dd as int + 1) == 2 * pow2_small(dd as int),
                ;
            }
            dd = dd + 1;
        }
        proof {
            reveal_with_fuel(pow2_small, 9);
            assert(pow2_small(8) == 256);
        }
        let d = s.digit(w);
        let mut c: u64 = 0;
        while c < d
            invariant
                c <= d,
                d < 256,
                d == spec_digit(*s, w as int),
                acc@ == 256 * (t * p@) + c * p@,
        decreases d - c,
        {
            acc = proj_add(&acc, p);
            proof {
                assert((c + 1) * p@ == c * p@ + p@) by (nonlinear_arith);
            }
            c = c + 1;
        }
        proof {
            let dn = spec_digit(*s, w as int) as nat;
            assert(256 * (t * p@) + dn * p@ == (dn + 256 * t) * p@) by (nonlinear_arith);
            assert(digits_val_from(*s, w as int) == dn + 256 * t);
        }
    }
    acc
}

/// Direct multi-scalar multiplication by repeated `scalar_mul`: the simple
/// reference the bucket engine is measured against. Computes the exact
/// weighted sum of the points by the scalars.
pub fn reference_msm(points: &Vec<AffinePoint>, scalars: &Vec<Scalar>) -> (r: ProjPoint)
    requires
        points@.len() == scalars@.len(),
    ensures
        r@ == msm_value(affine_exps(points@), scalar_vals(scalars@)),
{
    let mut acc = proj_identity();
    let mut j: usize = 0;
    while j < points.len()
        invariant
            j <= points@.len(),
            points@.len() == scalars@.len(),
            acc@ == msm_prefix(affine_exps(points@), scalar_vals(scalars@), j as int),
        decreases points@.len() - j,
    {
        let pp = affine_to_proj(&points[j]);
        let term = scalar_mul(&pp, &scalars[j]);
        acc = proj_add(&acc, &term);
        j = j + 1;
    }
    acc
}

} // verus!
