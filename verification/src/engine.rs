//! The overlap block engine: decouples the fixed analysis window size
//! from the host's per-callback block size at the cost of exactly one
//! window of latency.
//!
//! Two window-sized buffers per channel swap roles at every window
//! boundary: one fills with incoming samples while the other drains
//! into the output. When the filling buffer is complete, the window
//! transform rewrites it in place, the buffers swap, and the rewritten
//! window drains over the next `block_size` samples.
use vstd::prelude::*;

use crate::model::{chan_flip, chan_run, chan_step, zero_window, ChanState};
use crate::transform::{lemma_transform_fn_keeps_len, transform_fn, WindowTransform};

verus! {

/// Accumulates host-supplied sample blocks of arbitrary length into
/// fixed-size windows for a block-synchronous transform, emitting every
/// sample again exactly one window later.
///
/// Meant for the case where the transform's window size is at least as
/// large as the host's block size, though any block length is handled.
pub struct FFTHelper<S> {
    /// Per-channel buffer now filling with incoming samples.
    fill_buf: Vec<Vec<S>>,
    /// Per-channel buffer now draining into the output; it holds the
    /// previous window, already rewritten by the transform.
    drain_buf: Vec<Vec<S>>,
    /// Per-channel staging buffer, allocated with the others so the
    /// processing path never allocates; the drain buffer serves the
    /// output directly, so nothing reads it yet.
    #[allow(dead_code)]
    output_buffer: Vec<Vec<S>>,
    channels: usize,
    block_size: usize,
    /// The sample value buffers are cleared to.
    zero: S,
    /// Fill progress into `fill_buf`, `0..=block_size`.
    sample_cnt: usize,
    /// Read position in `drain_buf`, `0..block_size`, wrapping.
    out_buffer_idx: usize,
}

/// The engine state as mathematics: per-channel buffer contents plus
/// the two shared cursors.
#[verifier::ext_equal]
pub ghost struct EngineView<S> {
    pub channels: int,
    pub block_size: int,
    pub zero: S,
    pub fill: Seq<Seq<S>>,
    pub drain: Seq<Seq<S>>,
    pub cnt: int,
    pub oidx: int,
}

impl<S> EngineView<S> {
    /// Buffer dimensions match the channel count and window size, and
    /// both cursors are in range.
    pub open spec fn wf(self) -> bool {
        &&& 1 <= self.channels
        &&& 1 <= self.block_size
        &&& self.fill.len() == self.channels
        &&& self.drain.len() == self.channels
        &&& (forall|c: int|
            0 <= c < self.channels ==> (#[trigger] self.fill[c]).len() == self.block_size)
        &&& (forall|c: int|
            0 <= c < self.channels ==> (#[trigger] self.drain[c]).len() == self.block_size)
        &&& 0 <= self.cnt <= self.block_size
        &&& 0 <= self.oidx < self.block_size
    }

    /// Channel `c`'s slice of the state.
    pub open spec fn chan(self, c: int) -> ChanState<S> {
        ChanState { fill: self.fill[c], drain: self.drain[c], cnt: self.cnt, oidx: self.oidx }
    }

    /// The state of a freshly built engine: everything zeroed.
    pub open spec fn virgin(channels: int, block_size: int, zero: S) -> EngineView<S> {
        EngineView {
            channels,
            block_size,
            zero,
            fill: Seq::new(channels as nat, |c: int| zero_window(block_size, zero)),
            drain: Seq::new(channels as nat, |c: int| zero_window(block_size, zero)),
            cnt: 0,
            oidx: 0,
        }
    }
}

impl<S> View for FFTHelper<S> {
    type V = EngineView<S>;

    closed spec fn view(&self) -> EngineView<S> {
        EngineView {
            channels: self.channels as int,
            block_size: self.block_size as int,
            zero: self.zero,
            fill: self.fill_buf@.map_values(|row: Vec<S>| row@),
            drain: self.drain_buf@.map_values(|row: Vec<S>| row@),
            cnt: self.sample_cnt as int,
            oidx: self.out_buffer_idx as int,
        }
    }
}

/// Overwrite every slot of `row` with `zero`.
fn zero_row<S: Copy>(row: &mut Vec<S>, zero: S)
    ensures
        final(row)@ == zero_window(old(row)@.len() as int, zero),
{
    let n = row.len();
    let mut k: usize = 0;
    while k < n
        invariant
            k <= n,
            row@.len() == n,
            forall|i: int| 0 <= i < k ==> row@[i] == zero,
        decreases n - k,
    {
        row.set(k, zero);
        k += 1;
    }
    proof {
        assert(row@ =~= zero_window(n as int, zero));
    }
}

/// A fresh channel-major matrix of `channels` rows, each `block_size`
/// slots of `zero`.
fn zero_matrix<S: Copy>(channels: usize, block_size: usize, zero: S) -> (r: Vec<Vec<S>>)
    ensures
        r@.map_values(|row: Vec<S>| row@) == Seq::new(
            channels as nat,
            |c: int| zero_window(block_size as int, zero),
        ),
{
    let mut r: Vec<Vec<S>> = Vec::new();
    let mut c: usize = 0;
    while c < channels
        invariant
            c <= channels,
            r@.len() == c,
            forall|i: int| 0 <= i < c ==> (#[trigger] r@[i])@ == zero_window(
                block_size as int,
                zero,
            ),
        decreases channels - c,
    {
        let mut row: Vec<S> = Vec::new();
        let mut k: usize = 0;
        while k < block_size
            invariant
                k <= block_size,
                row@.len() == k,
                forall|i: int| 0 <= i < k ==> row@[i] == zero,
            decreases block_size - k,
        {
            row.push(zero);
            k += 1;
        }
        proof {
            assert(row@ =~= zero_window(block_size as int, zero));
        }
        r.push(row);
        c += 1;
    }
    proof {
        assert(r@.map_values(|row: Vec<S>| row@) =~~= Seq::new(
            channels as nat,
            |c: int| zero_window(block_size as int, zero),
        ));
    }
    r
}

impl<S: Copy> FFTHelper<S> {
    /// Whether the engine's buffers and cursors are well formed; every
    /// engine this module hands out satisfies it, and every method
    /// keeps it.
    pub open spec fn wf(&self) -> bool {
        self@.wf()
    }

    /// Build an engine for `channels` channels and windows of
    /// `block_size` samples, every buffer slot holding `zero`.
    pub fn new(channels: usize, block_size: usize, zero: S) -> (r: Self)
        requires
            1 <= channels,
            1 <= block_size,
        ensures
            r.wf(),
            r@ == EngineView::virgin(channels as int, block_size as int, zero),
    {
        let r = FFTHelper {
            fill_buf: zero_matrix(channels, block_size, zero),
            drain_buf: zero_matrix(channels, block_size, zero),
            output_buffer: zero_matrix(channels, block_size, zero),
            channels,
            block_size,
            zero,
            sample_cnt: 0,
            out_buffer_idx: 0,
        };
        proof {
            assert(r@ =~~= EngineView::virgin(channels as int, block_size as int, zero));
        }
        r
    }

    /// The fixed delay, in samples, between a sample entering the
    /// engine and the corresponding sample leaving it: exactly one
    /// window. This is the latency to report to the host.
    pub fn latency_samples(&self) -> (r: usize)
        ensures
            r as int == self@.block_size,
    {
        self.block_size
    }

    /// How many channels the engine was built for.
    pub fn num_channels(&self) -> (r: usize)
        ensures
            r as int == self@.channels,
    {
        self.channels
    }

    /// The window boundary: swap the roles of the two buffers and let
    /// the transform rewrite the window that just finished filling,
    /// channel by channel, before it starts draining.
    fn run_transforms<T: WindowTransform<S>>(&mut self, tr: &mut T)
        requires
            old(self).wf(),
            old(self)@.cnt == old(self)@.block_size,
        ensures
            final(self).wf(),
            final(self)@.channels == old(self)@.channels,
            final(self)@.block_size == old(self)@.block_size,
            final(self)@.zero == old(self)@.zero,
            final(self)@.cnt == 0,
            final(self)@.oidx == old(self)@.oidx,
            forall|c: int|
                0 <= c < old(self)@.channels ==> (#[trigger] final(self)@.chan(c)) == chan_flip(
                    old(self)@.chan(c),
                    transform_fn::<S, T>(c),
                ),
    {
        core::mem::swap(&mut self.fill_buf, &mut self.drain_buf);
        self.sample_cnt = 0;
        let ghost mid = self@;
        let channels = self.channels;
        let mut c: usize = 0;
        while c < channels
            invariant
                mid.wf(),
                c <= channels,
                self@.channels == mid.channels == channels,
                self@.block_size == mid.block_size,
                self@.zero == mid.zero,
                self@.cnt == 0,
                self@.oidx == mid.oidx,
                self@.fill == mid.fill,
                self@.drain.len() == channels,
                forall|i: int|
                    0 <= i < c ==> (#[trigger] self@.drain[i]) == (transform_fn::<S, T>(i))(
                        mid.drain[i],
                    ),
                forall|i: int| c <= i < channels ==> (#[trigger] self@.drain[i]) == mid.drain[i],
            decreases channels - c,
        {
            let ghost snap = self@;
            proof {
                assert(self@.drain[c as int] == self.drain_buf@.map_values(|row: Vec<S>| row@)[
                    c as int]);
            }
            let row = &mut self.drain_buf[c];
            tr.apply(c, row);
            proof {
                assert(self@.drain =~= snap.drain.update(
                    c as int,
                    (transform_fn::<S, T>(c as int))(mid.drain[c as int]),
                ));
            }
            c += 1;
        }
        proof {
            assert forall|c: int| 0 <= c < old(self)@.channels implies (#[trigger] self@.chan(c))
                == chan_flip(old(self)@.chan(c), transform_fn::<S, T>(c)) by {
                lemma_transform_fn_keeps_len::<S, T>(c, mid.block_size);
            }
            assert(self@.wf()) by {
                assert forall|c: int| 0 <= c < channels implies (#[trigger] self@.drain[c]).len()
                    == mid.block_size by {
                    lemma_transform_fn_keeps_len::<S, T>(c, mid.block_size);
                }
            }
        }
    }

    /// Feed one host block through the engine, in place.
    ///
    /// `block` holds one sample vector per channel, all of the same
    /// length (the host picks it; it may be smaller or larger than the
    /// window, and may differ from call to call). Every incoming sample
    /// is stored into the filling buffer, and the slot it came from is
    /// overwritten with the sample that entered the engine exactly one
    /// window earlier, as rewritten by the transform of the window it
    /// belonged to. Channel by channel, state and output are exactly a
    /// `chan_run` of the model over the incoming samples.
    pub fn process<T: WindowTransform<S>>(&mut self, block: &mut Vec<Vec<S>>, tr: &mut T)
        requires
            old(self).wf(),
            old(block)@.len() == old(self)@.channels,
            forall|c: int|
                0 <= c < old(block)@.len() ==> (#[trigger] old(block)@[c])@.len() == old(
                    block,
                )@[0]@.len(),
        ensures
            final(self).wf(),
            final(self)@.channels == old(self)@.channels,
            final(self)@.block_size == old(self)@.block_size,
            final(self)@.zero == old(self)@.zero,
            final(block)@.len() == old(block)@.len(),
            forall|c: int|
                0 <= c < old(self)@.channels ==> (#[trigger] final(block)@[c])@ == chan_run(
                    old(self)@.chan(c),
                    old(block)@[c]@,
                    old(self)@.block_size,
                    transform_fn::<S, T>(c),
                ).out,
            forall|c: int|
                0 <= c < old(self)@.channels ==> (#[trigger] final(self)@.chan(c)) == chan_run(
                    old(self)@.chan(c),
                    old(block)@[c]@,
                    old(self)@.block_size,
                    transform_fn::<S, T>(c),
                ).st,
    {
        let ghost st0 = self@;
        let ghost b0 = block@;
        let ghost w = self@.block_size;
        let n = block[0].len();
        let channels = self.channels;
        let mut j: usize = 0;
        proof {
            assert forall|c: int| 0 <= c < channels implies (#[trigger] self@.chan(c)) == chan_run(
                st0.chan(c),
                b0[c]@.take(0),
                w,
                transform_fn::<S, T>(c),
            ).st by {
                assert(b0[c]@.take(0) =~= Seq::<S>::empty());
            }
            assert forall|c: int| 0 <= c < channels implies (#[trigger] block@[c])@ == chan_run(
                st0.chan(c),
                b0[c]@.take(0),
                w,
                transform_fn::<S, T>(c),
            ).out + b0[c]@.skip(0) by {
                assert(b0[c]@.take(0) =~= Seq::<S>::empty());
                assert(block@[c]@ =~= Seq::<S>::empty() + b0[c]@.skip(0));
            }
        }
        while j < n
            invariant
                st0.wf(),
                self@.wf(),
                j <= n,
                channels == st0.channels,
                w == st0.block_size,
                self@.channels == channels,
                self@.block_size == w,
                self@.zero == st0.zero,
                b0.len() == channels,
                block@.len() == channels,
                forall|c: int| 0 <= c < channels ==> (#[trigger] b0[c])@.len() == n,
                forall|c: int|
                    0 <= c < channels ==> (#[trigger] self@.chan(c)) == chan_run(
                        st0.chan(c),
                        b0[c]@.take(j as int),
                        w,
                        transform_fn::<S, T>(c),
                    ).st,
                forall|c: int|
                    0 <= c < channels ==> (#[trigger] block@[c])@ == chan_run(
                        st0.chan(c),
                        b0[c]@.take(j as int),
                        w,
                        transform_fn::<S, T>(c),
                    ).out + b0[c]@.skip(j as int),
            decreases n - j,
        {
            let ghost stpre = self@;
            if self.sample_cnt >= self.block_size {
                self.run_transforms(tr);
            }
            let ghost stj = self@;
            proof {
                assert forall|c: int| 0 <= c < channels implies (#[trigger] stj.chan(c))
                    == if stpre.cnt >= w {
                    chan_flip(stpre.chan(c), transform_fn::<S, T>(c))
                } else {
                    stpre.chan(c)
                } by {
                }
                assert forall|c: int| 0 <= c < channels implies (#[trigger] block@[c])@.len()
                    == n by {
                    lemma_transform_fn_keeps_len::<S, T>(c, w);
                    crate::model::lemma_chan_run_wf(
                        st0.chan(c),
                        b0[c]@.take(j as int),
                        w,
                        transform_fn::<S, T>(c),
                    );
                }
            }
            let cnt = self.sample_cnt;
            let oidx = self.out_buffer_idx;
            let ghost bj = block@;
            let mut c: usize = 0;
            while c < channels
                invariant
                    c <= channels,
                    j < n,
                    cnt < w,
                    0 <= oidx < w,
                    stj.wf(),
                    channels == stj.channels,
                    w == stj.block_size,
                    cnt == stj.cnt,
                    oidx == stj.oidx,
                    bj.len() == channels,
                    forall|i: int| 0 <= i < channels ==> (#[trigger] bj[i])@.len() == n,
                    self@.channels == channels,
                    self@.block_size == w,
                    self@.zero == stj.zero,
                    self@.cnt == stj.cnt,
                    self@.oidx == stj.oidx,
                    self@.drain == stj.drain,
                    self@.fill.len() == channels,
                    block@.len() == channels,
                    forall|i: int|
                        0 <= i < c ==> (#[trigger] self@.fill[i]) == stj.fill[i].update(
                            stj.cnt,
                            bj[i]@[j as int],
                        ),
                    forall|i: int| c <= i < channels ==> (#[trigger] self@.fill[i]) == stj.fill[i],
                    forall|i: int|
                        0 <= i < c ==> (#[trigger] block@[i])@ == bj[i]@.update(
                            j as int,
                            stj.drain[i][stj.oidx],
                        ),
                    forall|i: int| c <= i < channels ==> (#[trigger] block@[i]) == bj[i],
                decreases channels - c,
            {
                let ghost fsnap = self@;
                let ghost bsnap = block@;
                proof {
                    assert(self@.fill[c as int] == self.fill_buf@.map_values(|row: Vec<S>| row@)[
                        c as int]);
                    assert(self@.fill[c as int] == stj.fill[c as int]);
                    assert(stj.fill[c as int].len() == w);
                    assert(self@.drain[c as int] == self.drain_buf@.map_values(
                        |row: Vec<S>| row@,
                    )[c as int]);
                    assert(stj.drain[c as int].len() == w);
                    assert(block@[c as int] == bj[c as int]);
                    assert(bj[c as int]@.len() == n);
                }
                let x = block[c][j];
                let frow = &mut self.fill_buf[c];
                frow.set(cnt, x);
                let y = self.drain_buf[c][oidx];
                let brow = &mut block[c];
                brow.set(j, y);
                proof {
                    assert(self@.fill =~= fsnap.fill.update(
                        c as int,
                        stj.fill[c as int].update(stj.cnt, bj[c as int]@[j as int]),
                    ));
                    assert(block@ =~= bsnap.update(c as int, block@[c as int]));
                    assert(block@[c as int]@ =~= bj[c as int]@.update(
                        j as int,
                        stj.drain[c as int][stj.oidx],
                    ));
                }
                c += 1;
            }
            self.out_buffer_idx += 1;
            self.sample_cnt += 1;
            if self.out_buffer_idx >= self.block_size {
                self.out_buffer_idx = 0;
            }
            proof {
                assert forall|c: int| 0 <= c < channels implies (#[trigger] self@.chan(c))
                    == chan_run(st0.chan(c), b0[c]@.take(j + 1), w, transform_fn::<S, T>(c)).st by {
                    let tf = transform_fn::<S, T>(c);
                    let rj = chan_run(st0.chan(c), b0[c]@.take(j as int), w, tf);
                    lemma_transform_fn_keeps_len::<S, T>(c, w);
                    crate::model::lemma_chan_run_wf(st0.chan(c), b0[c]@.take(j as int), w, tf);
                    // the sample this frame consumed is the one the caller passed in
                    assert(rj.out.len() == j);
                    assert(bj[c]@[j as int] == b0[c]@[j as int]);
                    // the frame's effect on channel c is one model step
                    let cur = if stpre.cnt >= w {
                        chan_flip(stpre.chan(c), tf)
                    } else {
                        stpre.chan(c)
                    };
                    assert(stj.chan(c) == cur);
                    assert(self@.fill[c] == stj.fill[c].update(stj.cnt, bj[c]@[j as int]));
                    assert(self@.drain[c] == stj.drain[c]);
                    assert(self@.cnt == stj.cnt + 1);
                    assert(self@.oidx == if stj.oidx + 1 == w {
                        0int
                    } else {
                        stj.oidx + 1
                    });
                    let step = chan_step(stpre.chan(c), b0[c]@[j as int], w, tf);
                    assert(self@.chan(c) == step.0);
                    crate::model::lemma_chan_run_snoc(
                        st0.chan(c),
                        b0[c]@.take(j as int),
                        b0[c]@[j as int],
                        w,
                        tf,
                    );
                    assert(b0[c]@.take(j + 1) =~= b0[c]@.take(j as int).push(b0[c]@[j as int]));
                }
                assert forall|c: int| 0 <= c < channels implies (#[trigger] block@[c])@
                    == chan_run(st0.chan(c), b0[c]@.take(j + 1), w, transform_fn::<S, T>(c)).out
                    + b0[c]@.skip(j + 1) by {
                    let tf = transform_fn::<S, T>(c);
                    let rj = chan_run(st0.chan(c), b0[c]@.take(j as int), w, tf);
                    lemma_transform_fn_keeps_len::<S, T>(c, w);
                    crate::model::lemma_chan_run_wf(st0.chan(c), b0[c]@.take(j as int), w, tf);
                    assert(rj.out.len() == j);
                    assert(bj[c]@[j as int] == b0[c]@[j as int]);
                    let cur = if stpre.cnt >= w {
                        chan_flip(stpre.chan(c), tf)
                    } else {
                        stpre.chan(c)
                    };
                    assert(stj.chan(c) == cur);
                    let step = chan_step(stpre.chan(c), b0[c]@[j as int], w, tf);
                    assert(block@[c]@[j as int] == step.1);
                    crate::model::lemma_chan_run_snoc(
                        st0.chan(c),
                        b0[c]@.take(j as int),
                        b0[c]@[j as int],
                        w,
                        tf,
                    );
                    assert(b0[c]@.take(j + 1) =~= b0[c]@.take(j as int).push(b0[c]@[j as int]));
                    assert(block@[c]@ =~= rj.out.push(step.1) + b0[c]@.skip(j + 1));
                }
            }
            j += 1;
        }
        proof {
            assert forall|c: int| 0 <= c < channels implies (#[trigger] block@[c])@ == chan_run(
                st0.chan(c),
                b0[c]@,
                w,
                transform_fn::<S, T>(c),
            ).out && (#[trigger] self@.chan(c)) == chan_run(
                st0.chan(c),
                b0[c]@,
                w,
                transform_fn::<S, T>(c),
            ).st by {
                assert(b0[c]@.take(n as int) =~= b0[c]@);
                assert(b0[c]@.skip(n as int) =~= Seq::<S>::empty());
                let r = chan_run(st0.chan(c), b0[c]@, w, transform_fn::<S, T>(c));
                assert(block@[c]@ =~= r.out + Seq::<S>::empty());
                assert(block@[c]@ =~= r.out);
            }
        }
    }

    /// Clear every sample slot of both overlap buffers to `zero`. The
    /// cursors keep their positions: they are range-bounded and
    /// self-correct, only stale content would cause artifacts.
    pub fn reset(&mut self)
        requires
            old(self).wf(),
        ensures
            final(self).wf(),
            final(self)@ == (EngineView {
                fill: Seq::new(
                    old(self)@.channels as nat,
                    |c: int| zero_window(old(self)@.block_size, old(self)@.zero),
                ),
                drain: Seq::new(
                    old(self)@.channels as nat,
                    |c: int| zero_window(old(self)@.block_size, old(self)@.zero),
                ),
                ..old(self)@
            }),
    {
        let ghost pre = self@;
        let channels = self.channels;
        let mut c: usize = 0;
        while c < channels
            invariant
                pre.wf(),
                c <= channels,
                self@.channels == pre.channels == channels,
                self@.block_size == pre.block_size,
                self@.zero == pre.zero,
                self@.cnt == pre.cnt,
                self@.oidx == pre.oidx,
                self@.fill.len() == channels,
                self@.drain.len() == channels,
                forall|i: int|
                    0 <= i < c ==> (#[trigger] self@.fill[i]) == zero_window(
                        pre.block_size,
                        pre.zero,
                    ),
                forall|i: int|
                    0 <= i < c ==> (#[trigger] self@.drain[i]) == zero_window(
                        pre.block_size,
                        pre.zero,
                    ),
                forall|i: int| c <= i < channels ==> (#[trigger] self@.fill[i]) == pre.fill[i],
                forall|i: int| c <= i < channels ==> (#[trigger] self@.drain[i]) == pre.drain[i],
            decreases channels - c,
        {
            let zero = self.zero;
            let ghost snap = self@;
            proof {
                assert(self@.fill[c as int] == self.fill_buf@.map_values(|row: Vec<S>| row@)[
                    c as int]);
                assert(self@.fill[c as int].len() == pre.block_size);
                assert(self@.drain[c as int].len() == pre.block_size);
            }
            let row = &mut self.fill_buf[c];
            zero_row(row, zero);
            let row2 = &mut self.drain_buf[c];
            zero_row(row2, zero);
            proof {
                assert(self@.fill =~= snap.fill.update(
                    c as int,
                    zero_window(pre.block_size, pre.zero),
                ));
                assert(self@.drain =~= snap.drain.update(
                    c as int,
                    zero_window(pre.block_size, pre.zero),
                ));
            }
            c += 1;
        }
        proof {
            assert(self@ =~~= (EngineView {
                fill: Seq::new(
                    pre.channels as nat,
                    |c: int| zero_window(pre.block_size, pre.zero),
                ),
                drain: Seq::new(
                    pre.channels as nat,
                    |c: int| zero_window(pre.block_size, pre.zero),
                ),
                ..pre
            }));
        }
    }
}

} // verus!
