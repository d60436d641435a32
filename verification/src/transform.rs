//! The window transform strategy applied at every window boundary.
use vstd::prelude::*;

verus! {

/// A window transform strategy: applied in place, once per channel, to
/// every analysis window that finishes filling. The spectral filter
/// that removes the DC component of a window is one such strategy;
/// leaving every window untouched is another.
///
/// The description is pointwise — `transformed_at` gives the sample
/// the transform puts at each position — so a transform never changes
/// a window's length, whatever its description says.
pub trait WindowTransform<S>: Sized {
    /// The sample the transform leaves at position `i` of a window of
    /// channel `ch` that held `w`. An implementation that does not say
    /// otherwise is described as leaving the window untouched; whether
    /// `apply` lives up to the description is checked only for
    /// implementations that Verus has seen.
    open spec fn transformed_at(ch: int, w: Seq<S>, i: int) -> S {
        w[i]
    }

    /// Rewrite one channel's completed window in place.
    fn apply(&mut self, ch: usize, w: &mut Vec<S>)
        ensures
            final(w)@ == Seq::new(
                old(w)@.len(),
                |i: int| Self::transformed_at(ch as int, old(w)@, i),
            ),
    ;
}

/// The whole window as the transform `T` rewrites it.
pub open spec fn transformed<S, T: WindowTransform<S>>(ch: int, w: Seq<S>) -> Seq<S> {
    Seq::new(w.len(), |i: int| T::transformed_at(ch, w, i))
}

/// What the transform `T` does to windows of channel `ch`, as a plain
/// function on sequences.
pub open spec fn transform_fn<S, T: WindowTransform<S>>(ch: int) -> spec_fn(Seq<S>) -> Seq<S> {
    |w: Seq<S>| transformed::<S, T>(ch, w)
}

/// Every window transform keeps window lengths, stated of the plain
/// function `transform_fn` hands out.
pub proof fn lemma_transform_fn_keeps_len<S, T: WindowTransform<S>>(ch: int, w: int)
    ensures
        crate::model::keeps_len(transform_fn::<S, T>(ch), w),
{
    assert forall|s: Seq<S>| s.len() == w implies (#[trigger] (transform_fn::<S, T>(ch))(
        s,
    )).len() == w by {
    }
}

/// The transform that leaves every window untouched.
pub struct IdentityTransform;

/// `IdentityTransform`'s description really is the identity on every
/// window, which lets its runs through the engine meet the laws stated
/// of identity transforms.
pub proof fn lemma_identity_transform_fn<S>(ch: int)
    ensures
        forall|s: Seq<S>| #[trigger] (transform_fn::<S, IdentityTransform>(ch))(s) == s,
{
    assert forall|s: Seq<S>| #[trigger] (transform_fn::<S, IdentityTransform>(ch))(s) == s by {
        assert(transformed::<S, IdentityTransform>(ch, s) =~= s);
    }
}

impl<S> WindowTransform<S> for IdentityTransform {
    fn apply(&mut self, ch: usize, w: &mut Vec<S>) {
        proof {
            assert(w@ =~= Seq::new(w@.len(), |i: int| Self::transformed_at(ch as int, w@, i)));
        }
    }
}

} // verus!
