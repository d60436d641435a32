//! Mathematical model of the overlap block engine, per channel.
//!
//! The engine keeps two window-sized buffers per channel: one that is
//! filling with incoming samples and one that drains into the output.
//! Both cursors (the fill count and the output index) advance in
//! lockstep across channels, so one channel's evolution is a function
//! of its own buffers, the shared cursors, and that channel's input
//! samples alone. The model below captures exactly that evolution; the
//! executable engine is proved to follow it channel by channel.
use vstd::prelude::*;

verus! {

/// One channel's slice of the engine state: its two window buffers and
/// a copy of the shared cursors.
///
/// `cnt` counts how many slots of `fill` hold samples of the window
/// currently being collected; `cnt == fill.len()` means the window is
/// complete and the buffers swap roles the moment the next sample
/// arrives. `oidx` is the position in `drain` that the next output
/// sample is read from.
pub ghost struct ChanState<S> {
    pub fill: Seq<S>,
    pub drain: Seq<S>,
    pub cnt: int,
    pub oidx: int,
}

/// Well-formedness of one channel's state for window size `w`.
pub open spec fn chan_wf<S>(st: ChanState<S>, w: int) -> bool {
    &&& 1 <= w
    &&& st.fill.len() == w
    &&& st.drain.len() == w
    &&& 0 <= st.cnt <= w
    &&& 0 <= st.oidx < w
}

/// A transform keeps the length of every window of size `w`.
pub open spec fn keeps_len<S>(tr: spec_fn(Seq<S>) -> Seq<S>, w: int) -> bool {
    forall|s: Seq<S>| s.len() == w ==> (#[trigger] tr(s)).len() == w
}

/// The window of size `w` with every slot holding the zero sample.
pub open spec fn zero_window<S>(w: int, zero: S) -> Seq<S> {
    Seq::new(w as nat, |i: int| zero)
}

/// The state of a channel in a freshly built engine: both buffers
/// zeroed and both cursors at the start.
pub open spec fn virgin_chan<S>(w: int, zero: S) -> ChanState<S> {
    ChanState { fill: zero_window(w, zero), drain: zero_window(w, zero), cnt: 0, oidx: 0 }
}

/// The buffer swap at a window boundary: the drained buffer becomes the
/// new fill target, and the window that just finished filling becomes
/// the new drain source after the transform has rewritten it.
pub open spec fn chan_flip<S>(st: ChanState<S>, tr: spec_fn(Seq<S>) -> Seq<S>) -> ChanState<S> {
    ChanState { fill: st.drain, drain: tr(st.fill), cnt: 0, oidx: st.oidx }
}

/// One sample through one channel: swap buffers first if the fill
/// window is complete, then store the incoming sample at the fill
/// cursor and emit the drain sample at the output cursor, advancing
/// both cursors (the output cursor wraps at the window size).
pub open spec fn chan_step<S>(
    st: ChanState<S>,
    x: S,
    w: int,
    tr: spec_fn(Seq<S>) -> Seq<S>,
) -> (ChanState<S>, S) {
    let cur = if st.cnt >= w {
        chan_flip(st, tr)
    } else {
        st
    };
    (
        ChanState {
            fill: cur.fill.update(cur.cnt, x),
            drain: cur.drain,
            cnt: cur.cnt + 1,
            oidx: if cur.oidx + 1 == w {
                0
            } else {
                cur.oidx + 1
            },
        },
        cur.drain[cur.oidx],
    )
}

/// The result of running a channel over a whole input sequence: the
/// final channel state and the emitted output samples.
pub ghost struct ChanRun<S> {
    pub st: ChanState<S>,
    pub out: Seq<S>,
}

/// Run one channel over the input samples `xs`, one `chan_step` each.
pub open spec fn chan_run<S>(
    st: ChanState<S>,
    xs: Seq<S>,
    w: int,
    tr: spec_fn(Seq<S>) -> Seq<S>,
) -> ChanRun<S>
    decreases xs.len(),
{
    if xs.len() == 0 {
        ChanRun { st, out: Seq::empty() }
    } else {
        let first = chan_step(st, xs[0], w, tr);
        let rest = chan_run(first.0, xs.drop_first(), w, tr);
        ChanRun { st: rest.st, out: seq![first.1] + rest.out }
    }
}

/// One step preserves well-formedness, given a length-keeping transform.
pub proof fn lemma_chan_step_wf<S>(st: ChanState<S>, x: S, w: int, tr: spec_fn(Seq<S>) -> Seq<S>)
    requires
        chan_wf(st, w),
        keeps_len(tr, w),
    ensures
        chan_wf(chan_step(st, x, w, tr).0, w),
{
}

/// Running a channel preserves well-formedness and emits one output
/// sample per input sample.
pub proof fn lemma_chan_run_wf<S>(st: ChanState<S>, xs: Seq<S>, w: int, tr: spec_fn(Seq<S>) -> Seq<S>)
    requires
        chan_wf(st, w),
        keeps_len(tr, w),
    ensures
        chan_wf(chan_run(st, xs, w, tr).st, w),
        chan_run(st, xs, w, tr).out.len() == xs.len(),
    decreases xs.len(),
{
    if xs.len() > 0 {
        let first = chan_step(st, xs[0], w, tr);
        lemma_chan_step_wf(st, xs[0], w, tr);
        lemma_chan_run_wf(first.0, xs.drop_first(), w, tr);
    }
}

/// Extending the input by one sample at the end runs the channel over
/// the prefix and then takes one more step.
pub proof fn lemma_chan_run_snoc<S>(
    st: ChanState<S>,
    xs: Seq<S>,
    x: S,
    w: int,
    tr: spec_fn(Seq<S>) -> Seq<S>,
)
    ensures
        ({
            let r = chan_run(st, xs, w, tr);
            let last = chan_step(r.st, x, w, tr);
            chan_run(st, xs.push(x), w, tr) == ChanRun { st: last.0, out: r.out.push(last.1) }
        }),
    decreases xs.len(),
{
    let ys = xs.push(x);
    if xs.len() == 0 {
        reveal_with_fuel(chan_run, 2);
        assert(ys[0] == x);
        assert(ys.drop_first() =~= Seq::<S>::empty());
        let first = chan_step(st, x, w, tr);
        assert(chan_run(st, ys, w, tr).out =~= seq![first.1]);
        assert(chan_run(st, xs, w, tr).out.push(first.1) =~= seq![first.1]);
    } else {
        assert(ys[0] == xs[0]);
        let first = chan_step(st, xs[0], w, tr);
        assert(ys.drop_first() =~= xs.drop_first().push(x));
        lemma_chan_run_snoc(first.0, xs.drop_first(), x, w, tr);
        let r = chan_run(st, xs, w, tr);
        let last = chan_step(r.st, x, w, tr);
        assert(chan_run(st, ys, w, tr).out =~= r.out.push(last.1));
    }
}

} // verus!
