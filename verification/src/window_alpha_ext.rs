//! Writing a window's alpha so that it can be undone.

use vstd::prelude::*;

use crate::animation::OpacityValue;
use crate::native_window_properties::{AlphaState, NativeWindowProperties};

verus! {

/// A change of opacity.
#[derive(Clone, Copy, Debug, PartialEq, Eq, Structural)]
pub struct OpacityDelta {
    pub amount: OpacityValue,
    pub is_negative: bool,
}

/// What is written to a window to change its alpha.
#[derive(Clone, Copy, Debug, PartialEq, Eq, Structural)]
pub enum AlphaWrite {
    Replace(OpacityValue),
    Adjust(OpacityDelta),
}

/// What hands a window back as it was.
#[derive(Clone, Copy, Debug, PartialEq, Eq, Structural)]
pub enum AlphaRestore {
    /// There is nothing to undo.
    Nothing,
    /// The app had made the window layered. It only gets full alpha back.
    SetAlpha(OpacityValue),
    /// The WM had made the window layered. The style goes.
    RemoveLayered,
}

impl AlphaState {
    /// The state after a write to a window that is or is not layered before it.
    /// Only the first write counts.
    pub open spec fn claimed(self, is_layered: bool) -> Self {
        match self {
            AlphaState::Untouched => if is_layered {
                AlphaState::Written
            } else {
                AlphaState::Layered
            },
            _ => self,
        }
    }

    /// What undoes the writes.
    pub open spec fn undoing(self) -> AlphaRestore {
        match self {
            AlphaState::Untouched => AlphaRestore::Nothing,
            AlphaState::Written => AlphaRestore::SetAlpha(OpacityValue { alpha: u8::MAX }),
            AlphaState::Layered => AlphaRestore::RemoveLayered,
        }
    }
}

impl AlphaRestore {
    /// Whether a window is layered afterwards that was or was not before.
    pub open spec fn leaves_layered(self, is_layered: bool) -> bool {
        is_layered && !(self is RemoveLayered)
    }
}

/// Alpha writes that remember what the WM changed, so it can be undone.
///
/// Every alpha the WM writes goes through here. The first write records whether
/// the window was already layered, which decides how
/// [`WindowAlphaExt::restore_opacity`] hands the window back.
pub trait WindowAlphaExt: Sized {
    spec fn alpha(&self) -> AlphaState;

    /// The same window with another alpha state.
    spec fn with_alpha(&self, state: AlphaState) -> Self;

    /// Records the first alpha write, and whether it has to add the layered
    /// style to make it.
    fn claim_alpha(&mut self, is_layered: bool)
        ensures
            *final(self) == old(self).with_alpha(old(self).alpha().claimed(is_layered)),
            final(self).alpha() == old(self).alpha().claimed(is_layered),
    ;

    /// Sets the window's alpha. Returns what to write.
    fn set_alpha(&mut self, opacity: OpacityValue, is_layered: bool) -> (write: AlphaWrite)
        ensures
            *final(self) == old(self).with_alpha(old(self).alpha().claimed(is_layered)),
            final(self).alpha() == old(self).alpha().claimed(is_layered),
            write == AlphaWrite::Replace(opacity),
    ;

    /// Adjusts the window's alpha by a delta. Returns what to write.
    fn adjust_alpha(&mut self, delta: OpacityDelta, is_layered: bool) -> (write: AlphaWrite)
        ensures
            *final(self) == old(self).with_alpha(old(self).alpha().claimed(is_layered)),
            final(self).alpha() == old(self).alpha().claimed(is_layered),
            write == AlphaWrite::Adjust(delta),
    ;

    /// Tells how to undo every alpha change the WM made to the window.
    ///
    /// Removes the layered style if the WM added it, so the window is
    /// indistinguishable from one the WM never touched. A window its app made
    /// layered keeps the style and only gets full alpha back.
    fn restore_opacity(&self) -> (restore: AlphaRestore)
        ensures
            restore == self.alpha().undoing(),
    ;

    /// Records that the alpha changes have been undone.
    fn opacity_restored(&mut self)
        ensures
            *final(self) == old(self).with_alpha(AlphaState::Untouched),
            final(self).alpha() is Untouched,
    ;
}

impl WindowAlphaExt for NativeWindowProperties {
    open spec fn alpha(&self) -> AlphaState {
        self.alpha_state
    }

    open spec fn with_alpha(&self, state: AlphaState) -> Self {
        NativeWindowProperties { alpha_state: state, ..*self }
    }

    fn claim_alpha(&mut self, is_layered: bool) {
        if !matches!(self.alpha_state, AlphaState::Untouched) {
            return;
        }
        self.alpha_state = if is_layered {
            AlphaState::Written
        } else {
            AlphaState::Layered
        };
    }

    fn set_alpha(&mut self, opacity: OpacityValue, is_layered: bool) -> (write: AlphaWrite) {
        self.claim_alpha(is_layered);
        AlphaWrite::Replace(opacity)
    }

    fn adjust_alpha(&mut self, delta: OpacityDelta, is_layered: bool) -> (write: AlphaWrite) {
        self.claim_alpha(is_layered);
        AlphaWrite::Adjust(delta)
    }

    fn restore_opacity(&self) -> (restore: AlphaRestore) {
        match self.alpha_state {
            AlphaState::Untouched => AlphaRestore::Nothing,
            AlphaState::Written => AlphaRestore::SetAlpha(OpacityValue::from_alpha(u8::MAX)),
            AlphaState::Layered => AlphaRestore::RemoveLayered,
        }
    }

    fn opacity_restored(&mut self) {
        self.alpha_state = AlphaState::Untouched;
    }
}

/// Writing alpha makes a window layered. However many writes there were,
/// undoing them leaves the window layered exactly if it was before the first.
pub proof fn law_restoring_undoes_what_was_done(is_layered: bool, later: Seq<bool>)
    ensures
        claimed_all(AlphaState::Untouched.claimed(is_layered), later)
            == AlphaState::Untouched.claimed(is_layered),
        claimed_all(
            AlphaState::Untouched.claimed(is_layered),
            later,
        ).undoing().leaves_layered(true) == is_layered,
    decreases later.len(),
{
    if later.len() > 0 {
        law_restoring_undoes_what_was_done(is_layered, later.drop_last());
    }
}

/// The state after a number of writes, by whether the window was layered before
/// each.
pub open spec fn claimed_all(state: AlphaState, layered: Seq<bool>) -> AlphaState
    decreases layered.len(),
{
    if layered.len() == 0 {
        state
    } else {
        claimed_all(state, layered.drop_last()).claimed(layered.last())
    }
}

/// A window that the WM never touched is left alone.
pub proof fn law_untouched_windows_are_left_alone(state: AlphaState)
    ensures
        state.undoing() is Nothing <==> state is Untouched,
{
}

/// The first write tells who made the window layered, and later ones do not
/// change that.
pub proof fn law_only_the_first_write_counts(state: AlphaState, is_layered: bool)
    ensures
        !(state is Untouched) ==> state.claimed(is_layered) == state,
        state is Untouched && is_layered ==> state.claimed(is_layered) is Written,
        state is Untouched && !is_layered ==> state.claimed(is_layered) is Layered,
{
}

/// A window that its app made layered gets full alpha back, and one that the WM
/// made layered loses the style.
pub proof fn law_windows_are_handed_back_as_they_were(state: AlphaState)
    ensures
        state is Written <==> state.undoing() is SetAlpha,
        state is Layered <==> state.undoing() is RemoveLayered,
        state.undoing() matches AlphaRestore::SetAlpha(opacity) ==> opacity.alpha == 255,
{
}

/// A window with another alpha state has that state and is otherwise the same.
pub proof fn law_alpha_is_recorded_alone(window: NativeWindowProperties, state: AlphaState)
    ensures
        window.alpha() == window.alpha_state,
        window.with_alpha(state).alpha() == state,
        window.with_alpha(state) == (NativeWindowProperties { alpha_state: state, ..window }),
{
}

} // verus!
