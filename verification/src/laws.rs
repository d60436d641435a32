//! The engine's guarantees, proved of the model that `process` is
//! proved to follow channel by channel:
//!
//! - feeding samples in any partition of blocks gives the same outputs
//!   and the same final state as feeding them all at once;
//! - from a fresh engine, every output sample equals the input sample
//!   from exactly one window earlier, as the transform rewrote its
//!   window, after one window of zeros;
//! - clearing the buffers after a whole number of windows restores the
//!   fresh engine's outputs.
use vstd::prelude::*;

use crate::engine::EngineView;
use crate::model::{
    chan_run, chan_step, chan_wf, keeps_len, lemma_chan_run_snoc, lemma_chan_run_wf, virgin_chan,
    zero_window, ChanRun, ChanState,
};
use crate::transform::{
    lemma_identity_transform_fn, lemma_transform_fn_keeps_len, transform_fn, IdentityTransform,
};

verus! {

/// Feeding `xs` and then `ys` is the same as feeding `xs + ys` at
/// once: the block engine's behaviour does not depend on where the
/// host splits the stream.
pub proof fn lemma_chan_run_append<S>(
    st: ChanState<S>,
    xs: Seq<S>,
    ys: Seq<S>,
    w: int,
    tr: spec_fn(Seq<S>) -> Seq<S>,
)
    ensures
        ({
            let r1 = chan_run(st, xs, w, tr);
            let r2 = chan_run(r1.st, ys, w, tr);
            chan_run(st, xs + ys, w, tr) == ChanRun { st: r2.st, out: r1.out + r2.out }
        }),
    decreases ys.len(),
{
    let r1 = chan_run(st, xs, w, tr);
    if ys.len() == 0 {
        assert(xs + ys =~= xs);
        assert(chan_run(r1.st, ys, w, tr).out =~= Seq::<S>::empty());
        assert(r1.out + Seq::<S>::empty() =~= r1.out);
    } else {
        let ys0 = ys.drop_last();
        let y = ys.last();
        lemma_chan_run_append(st, xs, ys0, w, tr);
        let r10 = chan_run(r1.st, ys0, w, tr);
        lemma_chan_run_snoc(st, xs + ys0, y, w, tr);
        lemma_chan_run_snoc(r1.st, ys0, y, w, tr);
        assert((xs + ys0).push(y) =~= xs + ys);
        assert(ys0.push(y) =~= ys);
        let last = chan_step(r10.st, y, w, tr);
        assert(chan_run(st, xs + ys, w, tr).out =~= (r1.out + r10.out).push(last.1));
        assert(r1.out + r10.out.push(last.1) =~= (r1.out + r10.out).push(last.1));
    }
}

/// Running the engine block by block over a partition of the stream.
pub open spec fn chan_run_chunks<S>(
    st: ChanState<S>,
    chunks: Seq<Seq<S>>,
    w: int,
    tr: spec_fn(Seq<S>) -> Seq<S>,
) -> ChanRun<S>
    decreases chunks.len(),
{
    if chunks.len() == 0 {
        ChanRun { st, out: Seq::empty() }
    } else {
        let first = chan_run(st, chunks[0], w, tr);
        let rest = chan_run_chunks(first.st, chunks.drop_first(), w, tr);
        ChanRun { st: rest.st, out: first.out + rest.out }
    }
}

/// However the host chops the stream into blocks, the concatenated
/// outputs and the final state are those of one run over the whole
/// stream.
pub proof fn lemma_any_partition<S>(
    st: ChanState<S>,
    chunks: Seq<Seq<S>>,
    w: int,
    tr: spec_fn(Seq<S>) -> Seq<S>,
)
    ensures
        chan_run_chunks(st, chunks, w, tr) == chan_run(st, chunks.flatten(), w, tr),
    decreases chunks.len(),
{
    if chunks.len() == 0 {
        assert(chunks.flatten() =~= Seq::<S>::empty());
    } else {
        let first = chan_run(st, chunks[0], w, tr);
        lemma_any_partition(first.st, chunks.drop_first(), w, tr);
        lemma_chan_run_append(st, chunks[0], chunks.drop_first().flatten(), w, tr);
        assert(chunks.flatten() == chunks[0] + chunks.drop_first().flatten());
    }
}

/// `base` with its first `ys.len()` slots replaced by `ys`.
pub open spec fn overwrite_prefix<S>(base: Seq<S>, ys: Seq<S>) -> Seq<S> {
    Seq::new(
        base.len(),
        |i: int|
            if i < ys.len() {
                ys[i]
            } else {
                base[i]
            },
    )
}

/// The first window fills from a fresh engine: no window completes, so
/// the drain buffer stays zeroed and only zeros come out.
proof fn lemma_virgin_partial<S>(ys: Seq<S>, w: int, zero: S, tr: spec_fn(Seq<S>) -> Seq<S>)
    requires
        w >= 1,
        0 <= ys.len() <= w,
    ensures
        ({
            let r = chan_run(virgin_chan(w, zero), ys, w, tr);
            &&& r.st.fill == overwrite_prefix(zero_window(w, zero), ys)
            &&& r.st.drain == zero_window(w, zero)
            &&& r.st.cnt == ys.len()
            &&& r.st.oidx == (if ys.len() == w {
                0int
            } else {
                ys.len() as int
            })
            &&& r.out == Seq::new(ys.len(), |i: int| zero)
        }),
    decreases ys.len(),
{
    if ys.len() == 0 {
        assert(overwrite_prefix(zero_window(w, zero), ys) =~= zero_window(w, zero));
        assert(chan_run(virgin_chan(w, zero), ys, w, tr).out =~= Seq::new(
            ys.len(),
            |i: int| zero,
        ));
    } else {
        let ys0 = ys.drop_last();
        let y = ys.last();
        lemma_virgin_partial(ys0, w, zero, tr);
        lemma_chan_run_snoc(virgin_chan(w, zero), ys0, y, w, tr);
        assert(ys0.push(y) =~= ys);
        let r0 = chan_run(virgin_chan(w, zero), ys0, w, tr);
        let last = chan_step(r0.st, y, w, tr);
        let r = chan_run(virgin_chan(w, zero), ys, w, tr);
        assert(r.st.fill =~= overwrite_prefix(zero_window(w, zero), ys));
        assert(r.out =~= Seq::new(ys.len(), |i: int| zero));
    }
}

/// One more window fills from a window boundary: the buffers swap at
/// the first sample, the window that just completed drains out as the
/// transform rewrote it, and the incoming samples overwrite the buffer
/// that just finished draining.
proof fn lemma_aligned_partial<S>(st: ChanState<S>, ys: Seq<S>, w: int, tr: spec_fn(Seq<S>) -> Seq<S>)
    requires
        chan_wf(st, w),
        keeps_len(tr, w),
        st.cnt == w,
        st.oidx == 0,
        1 <= ys.len() <= w,
    ensures
        ({
            let r = chan_run(st, ys, w, tr);
            &&& r.st.fill == overwrite_prefix(st.drain, ys)
            &&& r.st.drain == tr(st.fill)
            &&& r.st.cnt == ys.len()
            &&& r.st.oidx == (if ys.len() == w {
                0int
            } else {
                ys.len() as int
            })
            &&& r.out == tr(st.fill).take(ys.len() as int)
        }),
    decreases ys.len(),
{
    assert(tr(st.fill).len() == w);
    if ys.len() == 1 {
        reveal_with_fuel(chan_run, 2);
        let first = chan_step(st, ys[0], w, tr);
        assert(ys.drop_first() =~= Seq::<S>::empty());
        let r = chan_run(st, ys, w, tr);
        assert(r.out =~= seq![first.1]);
        assert(r.st.fill =~= overwrite_prefix(st.drain, ys));
        assert(r.out =~= tr(st.fill).take(1));
    } else {
        let ys0 = ys.drop_last();
        let y = ys.last();
        lemma_aligned_partial(st, ys0, w, tr);
        lemma_chan_run_snoc(st, ys0, y, w, tr);
        assert(ys0.push(y) =~= ys);
        let r0 = chan_run(st, ys0, w, tr);
        let last = chan_step(r0.st, y, w, tr);
        let r = chan_run(st, ys, w, tr);
        assert(r.st.fill =~= overwrite_prefix(st.drain, ys));
        assert(r.out =~= tr(st.fill).take(ys.len() as int));
    }
}

/// The first `k` complete windows of `xs`, each rewritten by the
/// transform, laid end to end.
pub open spec fn transformed_windows<S>(
    xs: Seq<S>,
    k: int,
    w: int,
    tr: spec_fn(Seq<S>) -> Seq<S>,
) -> Seq<S>
    decreases k,
{
    if k <= 0 {
        Seq::empty()
    } else {
        transformed_windows(xs, k - 1, w, tr) + tr(xs.subrange((k - 1) * w, k * w))
    }
}

proof fn lemma_transformed_windows_len<S>(xs: Seq<S>, k: int, w: int, tr: spec_fn(Seq<S>) -> Seq<S>)
    requires
        w >= 1,
        keeps_len(tr, w),
        k * w <= xs.len(),
    ensures
        transformed_windows(xs, k, w, tr).len() == (if k <= 0 {
            0int
        } else {
            k * w
        }),
    decreases k,
{
    if k > 0 {
        assert((k - 1) * w == k * w - w) by (nonlinear_arith);
        lemma_transformed_windows_len(xs, k - 1, w, tr);
        assert(xs.subrange((k - 1) * w, k * w).len() == w);
    }
}

/// After `k` complete windows from a fresh engine: the fill buffer
/// holds the latest window, the drain buffer the transformed window
/// before it, both cursors sit at the boundary, and the outputs so far
/// are one window of zeros followed by the earlier windows transformed.
proof fn lemma_windows_progress<S>(xs: Seq<S>, k: int, w: int, zero: S, tr: spec_fn(Seq<S>) -> Seq<S>)
    requires
        w >= 1,
        keeps_len(tr, w),
        0 <= k,
        k * w <= xs.len(),
    ensures
        ({
            let r = chan_run(virgin_chan(w, zero), xs.take(k * w), w, tr);
            &&& k == 0 ==> r.st == virgin_chan(w, zero)
            &&& k >= 1 ==> {
                &&& r.st.cnt == w
                &&& r.st.oidx == 0
                &&& r.st.fill == xs.subrange((k - 1) * w, k * w)
                &&& r.st.drain == (if k == 1 {
                    zero_window(w, zero)
                } else {
                    tr(xs.subrange((k - 2) * w, (k - 1) * w))
                })
            }
            &&& r.out == (if k == 0 {
                Seq::<S>::empty()
            } else {
                zero_window(w, zero) + transformed_windows(xs, k - 1, w, tr)
            })
        }),
    decreases k,
{
    if k == 0 {
        assert(k * w == 0) by (nonlinear_arith)
            requires
                k == 0,
        ;
        assert(xs.take(0) =~= Seq::<S>::empty());
        assert(chan_run(virgin_chan(w, zero), xs.take(0), w, tr).out =~= Seq::<S>::empty());
    } else if k == 1 {
        assert(k * w == w) by (nonlinear_arith)
            requires
                k == 1,
        ;
        assert((k - 1) * w == 0) by (nonlinear_arith)
            requires
                k == 1,
        ;
        let ys = xs.take(w);
        lemma_virgin_partial(ys, w, zero, tr);
        let r = chan_run(virgin_chan(w, zero), ys, w, tr);
        assert(r.st.fill =~= xs.subrange(0, w));
        assert(r.out =~= zero_window(w, zero) + transformed_windows(xs, 0, w, tr));
    } else {
        assert((k - 1) * w == k * w - w) by (nonlinear_arith);
        assert((k - 2) * w == k * w - 2 * w) by (nonlinear_arith);
        assert(0 <= (k - 2) * w) by (nonlinear_arith)
            requires
                k >= 2,
                w >= 1,
        ;
        lemma_windows_progress(xs, k - 1, w, zero, tr);
        let prefix = xs.take((k - 1) * w);
        let ys = xs.subrange((k - 1) * w, k * w);
        let r0 = chan_run(virgin_chan(w, zero), prefix, w, tr);
        lemma_chan_run_append(virgin_chan(w, zero), prefix, ys, w, tr);
        assert(prefix + ys =~= xs.take(k * w));
        lemma_chan_run_wf(virgin_chan(w, zero), prefix, w, tr);
        lemma_aligned_partial(r0.st, ys, w, tr);
        let r1 = chan_run(r0.st, ys, w, tr);
        let r = chan_run(virgin_chan(w, zero), xs.take(k * w), w, tr);
        assert(r1.st.fill =~= ys);
        assert(r1.out =~= tr(r0.st.fill));
        assert(r.out =~= zero_window(w, zero) + transformed_windows(xs, k - 1, w, tr));
    }
}

/// The output stream a fresh engine owes for the input stream `xs`:
/// one window of zeros (the engine's latency), then every completed
/// window of `xs` as the transform rewrote it, cut to the input
/// length.
pub open spec fn delayed_output<S>(
    xs: Seq<S>,
    w: int,
    zero: S,
    tr: spec_fn(Seq<S>) -> Seq<S>,
) -> Seq<S> {
    (zero_window(w, zero) + transformed_windows(xs, xs.len() as int / w, w, tr)).take(
        xs.len() as int,
    )
}

/// From a fresh engine, whatever the input stream, the output is the
/// input delayed by exactly one window, transformed window by window:
/// zeros while the first window fills, then each window's transform
/// result while the next window fills.
pub proof fn lemma_window_delay<S>(xs: Seq<S>, w: int, zero: S, tr: spec_fn(Seq<S>) -> Seq<S>)
    requires
        w >= 1,
        keeps_len(tr, w),
    ensures
        chan_run(virgin_chan(w, zero), xs, w, tr).out == delayed_output(xs, w, zero, tr),
{
    let len = xs.len() as int;
    let k = len / w;
    vstd::arithmetic::div_mod::lemma_fundamental_div_mod(len, w);
    vstd::arithmetic::div_mod::lemma_mod_bound(len, w);
    assert(len == w * k + len % w);
    assert(k * w == w * k) by (nonlinear_arith);
    assert(k >= 0) by (nonlinear_arith)
        requires
            w >= 1,
            w * k + len % w == len,
            0 <= len % w < w,
            len >= 0,
    ;
    lemma_windows_progress(xs, k, w, zero, tr);
    lemma_transformed_windows_len(xs, k, w, tr);
    let prefix = xs.take(k * w);
    let rem = xs.skip(k * w);
    let r0 = chan_run(virgin_chan(w, zero), prefix, w, tr);
    lemma_chan_run_append(virgin_chan(w, zero), prefix, rem, w, tr);
    assert(prefix + rem =~= xs);
    let pad = zero_window(w, zero) + transformed_windows(xs, k, w, tr);
    if rem.len() == 0 {
        assert(chan_run(r0.st, rem, w, tr).out =~= Seq::<S>::empty());
        assert(chan_run(virgin_chan(w, zero), xs, w, tr).out =~= r0.out);
        if k == 0 {
            assert(r0.out =~= pad.take(len));
        } else {
            assert((k - 1) * w == k * w - w) by (nonlinear_arith);
            lemma_transformed_windows_len(xs, k - 1, w, tr);
            assert(transformed_windows(xs, k, w, tr) == transformed_windows(xs, k - 1, w, tr)
                + tr(xs.subrange((k - 1) * w, k * w)));
            assert(r0.out =~= pad.take(len));
        }
    } else {
        if k == 0 {
            lemma_virgin_partial(rem, w, zero, tr);
            assert(rem =~= xs);
            assert(chan_run(virgin_chan(w, zero), xs, w, tr).out =~= pad.take(len));
        } else {
            lemma_chan_run_wf(virgin_chan(w, zero), prefix, w, tr);
            lemma_aligned_partial(r0.st, rem, w, tr);
            assert((k - 1) * w == k * w - w) by (nonlinear_arith);
            lemma_transformed_windows_len(xs, k - 1, w, tr);
            assert(transformed_windows(xs, k, w, tr) == transformed_windows(xs, k - 1, w, tr)
                + tr(xs.subrange((k - 1) * w, k * w)));
            assert(tr(r0.st.fill).len() == w);
            assert(chan_run(virgin_chan(w, zero), xs, w, tr).out =~= pad.take(len));
        }
    }
}

proof fn lemma_identity_windows<S>(xs: Seq<S>, k: int, w: int, tr: spec_fn(Seq<S>) -> Seq<S>)
    requires
        w >= 1,
        0 <= k,
        k * w <= xs.len(),
        forall|s: Seq<S>| #[trigger] tr(s) == s,
    ensures
        transformed_windows(xs, k, w, tr) == xs.take(k * w),
    decreases k,
{
    if k == 0 {
        assert(k * w == 0) by (nonlinear_arith)
            requires
                k == 0,
        ;
        assert(xs.take(0) =~= Seq::<S>::empty());
    } else {
        assert((k - 1) * w == k * w - w) by (nonlinear_arith);
        lemma_identity_windows(xs, k - 1, w, tr);
        assert(tr(xs.subrange((k - 1) * w, k * w)) == xs.subrange((k - 1) * w, k * w));
        assert(xs.take((k - 1) * w) + xs.subrange((k - 1) * w, k * w) =~= xs.take(k * w));
    }
}

/// With a transform that leaves every window untouched, the output is
/// the input itself, delayed by exactly one window of zeros — whatever
/// the input and however the host splits it (`lemma_any_partition`).
pub proof fn lemma_identity_window_delay<S>(
    xs: Seq<S>,
    w: int,
    zero: S,
    tr: spec_fn(Seq<S>) -> Seq<S>,
)
    requires
        w >= 1,
        forall|s: Seq<S>| #[trigger] tr(s) == s,
    ensures
        chan_run(virgin_chan(w, zero), xs, w, tr).out == (zero_window(w, zero) + xs).take(
            xs.len() as int,
        ),
        chan_run(virgin_chan(w, zero), xs, w, tr).out.len() == xs.len(),
        forall|t: int|
            0 <= t < xs.len() ==> chan_run(virgin_chan(w, zero), xs, w, tr).out[t] == (if t < w {
                zero
            } else {
                xs[t - w]
            }),
{
    let len = xs.len() as int;
    let k = len / w;
    vstd::arithmetic::div_mod::lemma_fundamental_div_mod(len, w);
    vstd::arithmetic::div_mod::lemma_mod_bound(len, w);
    assert(k * w == w * k) by (nonlinear_arith);
    assert(k >= 0) by (nonlinear_arith)
        requires
            w >= 1,
            w * k + len % w == len,
            0 <= len % w < w,
            len >= 0,
    ;
    lemma_window_delay(xs, w, zero, tr);
    lemma_identity_windows(xs, k, w, tr);
    assert(delayed_output(xs, w, zero, tr) =~= (zero_window(w, zero) + xs).take(len));
    let out = chan_run(virgin_chan(w, zero), xs, w, tr).out;
    assert forall|t: int| 0 <= t < xs.len() implies out[t] == (if t < w {
        zero
    } else {
        xs[t - w]
    }) by {
        assert(out[t] == (zero_window(w, zero) + xs)[t]);
    }
}

proof fn lemma_zero_windows<S>(xs: Seq<S>, k: int, w: int, zero: S, tr: spec_fn(Seq<S>) -> Seq<S>)
    requires
        w >= 1,
        keeps_len(tr, w),
        0 <= k,
        k * w <= xs.len(),
        tr(zero_window(w, zero)) == zero_window(w, zero),
        forall|i: int| 0 <= i < xs.len() ==> xs[i] == zero,
    ensures
        transformed_windows(xs, k, w, tr).len() == (if k <= 0 {
            0int
        } else {
            k * w
        }),
        forall|t: int|
            0 <= t < transformed_windows(xs, k, w, tr).len() ==> transformed_windows(
                xs,
                k,
                w,
                tr,
            )[t] == zero,
    decreases k,
{
    lemma_transformed_windows_len(xs, k, w, tr);
    if k > 0 {
        assert((k - 1) * w == k * w - w) by (nonlinear_arith);
        lemma_zero_windows(xs, k - 1, w, zero, tr);
        assert(xs.subrange((k - 1) * w, k * w) =~= zero_window(w, zero));
    }
}

/// Silence in, silence out: on an all-zero input stream, with a
/// transform that keeps a zero window zero, a fresh engine emits only
/// zeros — both during the first window of latency and ever after.
pub proof fn lemma_silence<S>(xs: Seq<S>, w: int, zero: S, tr: spec_fn(Seq<S>) -> Seq<S>)
    requires
        w >= 1,
        keeps_len(tr, w),
        tr(zero_window(w, zero)) == zero_window(w, zero),
        forall|i: int| 0 <= i < xs.len() ==> xs[i] == zero,
    ensures
        chan_run(virgin_chan(w, zero), xs, w, tr).out.len() == xs.len(),
        forall|t: int|
            0 <= t < xs.len() ==> chan_run(virgin_chan(w, zero), xs, w, tr).out[t] == zero,
{
    let len = xs.len() as int;
    let k = len / w;
    vstd::arithmetic::div_mod::lemma_fundamental_div_mod(len, w);
    vstd::arithmetic::div_mod::lemma_mod_bound(len, w);
    assert(k * w == w * k) by (nonlinear_arith);
    assert(k >= 0) by (nonlinear_arith)
        requires
            w >= 1,
            w * k + len % w == len,
            0 <= len % w < w,
            len >= 0,
    ;
    lemma_window_delay(xs, w, zero, tr);
    lemma_zero_windows(xs, k, w, zero, tr);
    lemma_chan_run_wf(virgin_chan(w, zero), xs, w, tr);
    let out = chan_run(virgin_chan(w, zero), xs, w, tr).out;
    assert forall|t: int| 0 <= t < xs.len() implies out[t] == zero by {
        assert(out[t] == (zero_window(w, zero) + transformed_windows(xs, k, w, tr))[t]);
    }
}

/// A state at a window boundary whose buffers hold only zeros behaves
/// like a fresh engine, provided the transform keeps a zero window
/// zero: the pending swap only exchanges one zeroed buffer for another.
proof fn lemma_zeroed_boundary_like_virgin<S>(
    xs: Seq<S>,
    w: int,
    zero: S,
    tr: spec_fn(Seq<S>) -> Seq<S>,
)
    requires
        w >= 1,
        tr(zero_window(w, zero)) == zero_window(w, zero),
    ensures
        ({
            let boundary = ChanState {
                fill: zero_window(w, zero),
                drain: zero_window(w, zero),
                cnt: w,
                oidx: 0,
            };
            chan_run(boundary, xs, w, tr).out == chan_run(virgin_chan(w, zero), xs, w, tr).out
        }),
{
    let boundary = ChanState {
        fill: zero_window(w, zero),
        drain: zero_window(w, zero),
        cnt: w,
        oidx: 0,
    };
    if xs.len() == 0 {
        assert(chan_run(boundary, xs, w, tr).out =~= chan_run(
            virgin_chan(w, zero),
            xs,
            w,
            tr,
        ).out);
    } else {
        assert(chan_step(boundary, xs[0], w, tr) == chan_step(virgin_chan(w, zero), xs[0], w, tr));
    }
}

/// Clearing the buffers restores a fresh engine's behaviour, provided
/// the stream so far filled a whole number of windows (so the cursors
/// sit at a window boundary) and the transform keeps a zero window
/// zero: replaying the same input gives the same output as the first
/// run did.
pub proof fn lemma_reset_replay<S>(xs: Seq<S>, w: int, zero: S, tr: spec_fn(Seq<S>) -> Seq<S>)
    requires
        w >= 1,
        keeps_len(tr, w),
        xs.len() as int % w == 0,
        tr(zero_window(w, zero)) == zero_window(w, zero),
    ensures
        ({
            let first = chan_run(virgin_chan(w, zero), xs, w, tr);
            let cleared = ChanState {
                fill: zero_window(w, zero),
                drain: zero_window(w, zero),
                cnt: first.st.cnt,
                oidx: first.st.oidx,
            };
            chan_run(cleared, xs, w, tr).out == first.out
        }),
{
    let len = xs.len() as int;
    let k = len / w;
    vstd::arithmetic::div_mod::lemma_fundamental_div_mod(len, w);
    assert(k * w == w * k) by (nonlinear_arith);
    assert(k >= 0) by (nonlinear_arith)
        requires
            w >= 1,
            w * k == len,
            len >= 0,
    ;
    let first = chan_run(virgin_chan(w, zero), xs, w, tr);
    assert(xs.take(k * w) =~= xs);
    lemma_windows_progress(xs, k, w, zero, tr);
    if k == 0 {
        assert(xs =~= Seq::<S>::empty());
    } else {
        assert(first.st.cnt == w && first.st.oidx == 0);
        lemma_zeroed_boundary_like_virgin(xs, w, zero, tr);
    }
}

/// The one-window delay, said of the engine's own state: a channel of
/// a freshly built engine (`FFTHelper::new`, whose view is
/// `EngineView::virgin`), run with the identity transform as
/// `process`'s contract describes it, emits one window of zeros and
/// then the input itself, whole and unchanged.
pub proof fn lemma_engine_identity_delay<S>(channels: int, w: int, zero: S, c: int, xs: Seq<S>)
    requires
        w >= 1,
        0 <= c < channels,
    ensures
        chan_run(
            EngineView::virgin(channels, w, zero).chan(c),
            xs,
            w,
            transform_fn::<S, IdentityTransform>(c),
        ).out == (zero_window(w, zero) + xs).take(xs.len() as int),
{
    assert(EngineView::virgin(channels, w, zero).chan(c) == virgin_chan(w, zero));
    lemma_identity_transform_fn::<S>(c);
    lemma_identity_window_delay(xs, w, zero, transform_fn::<S, IdentityTransform>(c));
}

/// Silence maps to silence, said of the engine's own state: on an
/// all-zero stream a fresh engine's channel emits only zeros under the
/// identity transform, both while the first window fills and after.
pub proof fn lemma_engine_silence<S>(channels: int, w: int, zero: S, c: int, xs: Seq<S>)
    requires
        w >= 1,
        0 <= c < channels,
        forall|i: int| 0 <= i < xs.len() ==> xs[i] == zero,
    ensures
        ({
            let out = chan_run(
                EngineView::virgin(channels, w, zero).chan(c),
                xs,
                w,
                transform_fn::<S, IdentityTransform>(c),
            ).out;
            out.len() == xs.len() && forall|t: int| 0 <= t < out.len() ==> out[t] == zero
        }),
{
    let tf = transform_fn::<S, IdentityTransform>(c);
    assert(EngineView::virgin(channels, w, zero).chan(c) == virgin_chan(w, zero));
    lemma_identity_transform_fn::<S>(c);
    lemma_transform_fn_keeps_len::<S, IdentityTransform>(c, w);
    lemma_silence(xs, w, zero, tf);
}

/// Reset restores a fresh engine's outputs, said of the engine's own
/// state: run a whole number of windows from fresh, clear the buffers
/// as `reset` does (cursors kept), and the same input drains the same
/// output again, under the identity transform.
pub proof fn lemma_engine_reset_replay<S>(channels: int, w: int, zero: S, c: int, xs: Seq<S>)
    requires
        w >= 1,
        0 <= c < channels,
        xs.len() as int % w == 0,
    ensures
        ({
            let tf = transform_fn::<S, IdentityTransform>(c);
            let first = chan_run(EngineView::virgin(channels, w, zero).chan(c), xs, w, tf);
            let cleared = ChanState {
                fill: zero_window(w, zero),
                drain: zero_window(w, zero),
                cnt: first.st.cnt,
                oidx: first.st.oidx,
            };
            chan_run(cleared, xs, w, tf).out == first.out
        }),
{
    let tf = transform_fn::<S, IdentityTransform>(c);
    assert(EngineView::virgin(channels, w, zero).chan(c) == virgin_chan(w, zero));
    lemma_identity_transform_fn::<S>(c);
    lemma_transform_fn_keeps_len::<S, IdentityTransform>(c, w);
    lemma_reset_replay(xs, w, zero, tf);
}

} // verus!
