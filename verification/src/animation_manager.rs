//! Which windows are animated, and what each step of an animation asks of the
//! operating system.

use std::collections::{HashMap, HashSet};
use vstd::prelude::*;

use crate::animation;
use crate::animation::{
    AnimationEffectConfig, AnimationTrigger, AnimationsConfig, WindowAnimationState,
};
use crate::ids::ids_of;
use crate::platform::{Platform, WindowId};
use crate::rect::Rect;

verus! {

broadcast use vstd::std_specs::hash::group_hash_axioms;

/// The frame rate of a monitor that does not tell its refresh rate.
pub const DEFAULT_FRAME_RATE: u32 = 60;

/// How long an overlay stays up after its animation, in milliseconds, to hide
/// flicker while the window is put in place.
pub const OVERLAY_LINGER_MS: u64 = 20;

/// How a window takes part in the layout.
#[derive(Clone, Copy, Debug, PartialEq, Eq, Structural)]
pub enum WindowState {
    Tiling,
    Floating,
    Minimized,
    Fullscreen,
}

/// Whether a window is on screen, or on its way there.
#[derive(Clone, Copy, Debug, PartialEq, Eq, Structural)]
pub enum DisplayState {
    Shown,
    Showing,
    Hidden,
    Hiding,
}

/// What decides whether and how a window is animated.
#[derive(Clone, Copy, Debug, PartialEq, Eq, Structural)]
pub struct AnimatedWindow {
    pub id: u128,
    pub state: WindowState,
    pub is_minimized: bool,
    pub is_maximized: bool,
    /// Whether the window is parked in the corner of its monitor's working
    /// area.
    pub is_in_corner: bool,
    pub frame: Rect,
}

#[derive(Clone, Copy, Debug, PartialEq, Eq, Structural)]
pub enum AnimationError {
    /// Nothing can be drawn before the context of the overlays is there.
    ContextNotInitialized,
}

/// What becomes of the task that emits ticks.
#[derive(Clone, Copy, Debug, PartialEq, Eq, Structural)]
pub enum TickChange {
    /// The task, if there is one, goes on.
    Keep,
    /// The task ends.
    Stop,
    /// A task with one tick per `frame_time_ms`, in whole milliseconds, starts, in
    /// place of the running one if there is one.
    Start { frame_time_ms: u32, replaces: bool },
}

/// What ending an animation leaves to do.
#[derive(Clone, Copy, Debug, PartialEq, Eq, Structural)]
pub struct Teardown {
    pub tick: TickChange,
    /// Whether there is an overlay to destroy.
    pub overlay: bool,
}

/// What one tick draws, by window.
pub struct TickPlan {
    /// Windows whose animation is still running.
    pub active: Vec<u128>,
    /// Those whose overlay is drawn, all in one transaction.
    pub overlays: Vec<u128>,
    /// Those whose real window is moved along after that.
    pub followers: Vec<u128>,
}

/// The frames to capture, and whether there is no context to do so yet.
pub struct CaptureRequest {
    pub windows: Vec<(u128, WindowId)>,
    pub needs_context: bool,
}

/// How the overlay of a starting animation comes about.
#[derive(Clone, Copy, Debug, PartialEq, Eq, Structural)]
pub enum OverlayAction {
    /// An overlay is up already. It is resized and drawn again at once.
    Resize,
    /// An overlay is made from a frame that was captured beforehand.
    CreateFromCapture,
    /// A frame is captured now and an overlay is made from it.
    CaptureAndCreate,
}

#[derive(Clone, Copy, Debug, PartialEq, Eq, Structural)]
pub struct OverlayPlan {
    /// Frame of the overlay.
    pub outer_rect: Rect,
    /// Whether a context has to be made first.
    pub needs_context: bool,
    pub action: OverlayAction,
}

/// Manages animations for all windows.
pub struct AnimationManager {
    /// Active animations keyed by window ID.
    animations: HashMap<u128, WindowAnimationState>,
    /// Windows with an overlay.
    windows: HashSet<u128>,
    /// Windows with a captured frame that waits for the animation to start.
    pending_captures: HashSet<u128>,
    /// Whether the context that overlays share has been made.
    context: bool,
    /// The frame rate of the running tick task, if any.
    tick_rate: Option<u32>,
    platform: Platform,
    /// Whether windows are confined to one display each.
    displays_have_separate_spaces: bool,
}

#[verifier::ext_equal]
pub struct AnimationManagerView {
    pub animations: Map<u128, WindowAnimationState>,
    pub overlays: Set<u128>,
    pub captures: Set<u128>,
    pub context: bool,
    pub tick_rate: Option<u32>,
    pub platform: Platform,
    pub separate_spaces: bool,
}

/// Whether `rate` is the highest frame rate among the animations, or `None` for
/// want of any.
pub open spec fn is_highest_rate(
    animations: Map<u128, WindowAnimationState>,
    rate: Option<u32>,
) -> bool {
    match rate {
        None => animations.dom() == Set::<u128>::empty(),
        Some(rate) => {
            &&& exists|id: u128| #[trigger]
                animations.contains_key(id) && animations[id].frame_rate == rate
            &&& forall|id: u128| #[trigger]
                animations.contains_key(id) ==> animations[id].frame_rate <= rate
        },
    }
}

/// How a task at the old rate becomes one at the new rate.
pub open spec fn tick_change(old_rate: Option<u32>, new_rate: Option<u32>) -> TickChange {
    match new_rate {
        None => if old_rate is Some {
            TickChange::Stop
        } else {
            TickChange::Keep
        },
        Some(rate) => if old_rate == new_rate {
            TickChange::Keep
        } else {
            TickChange::Start { frame_time_ms: 1000u32 / rate, replaces: old_rate is Some }
        },
    }
}

pub open spec fn apart(a: int, b: int) -> int {
    if a >= b {
        a - b
    } else {
        b - a
    }
}

/// How far it is from one rectangle to the other, in position and size.
pub open spec fn travel(a: Rect, b: Rect) -> int {
    apart(a.left as int, b.left as int) + apart(a.top as int, b.top as int) + apart(
        a.spec_width(),
        b.spec_width(),
    ) + apart(a.spec_height(), b.spec_height())
}

/// Whether a window is never animated in the state it is in.
pub open spec fn never_animated(manager: AnimationManagerView, window: AnimatedWindow) -> bool {
    ||| window.is_minimized
    ||| window.state is Fullscreen
    ||| window.is_maximized && manager.platform is MacOs
    ||| window.is_in_corner && !manager.animations.contains_key(window.id)
}

/// Where a window is bound for: the target of its animation, or where it is.
pub open spec fn headed_for(manager: AnimationManagerView, window: AnimatedWindow) -> Rect {
    if manager.animations.contains_key(window.id) {
        manager.animations[window.id].target_rect
    } else {
        window.frame
    }
}

/// The animation that a trigger starts for a window, if any.
pub open spec fn effect_for(
    manager: AnimationManagerView,
    window: AnimatedWindow,
    trigger: AnimationTrigger,
    target_rect: Rect,
    config: AnimationsConfig,
) -> Option<AnimationEffectConfig> {
    if never_animated(manager, window) {
        None
    } else {
        match trigger {
            AnimationTrigger::WindowOpened => if manager.animations.contains_key(window.id) {
                None
            } else {
                config.window_open
            },
            AnimationTrigger::WorkspaceEntering(_) => config.workspace_switch,
            AnimationTrigger::WorkspaceLeaving(_) => config.workspace_switch,
            AnimationTrigger::WindowMoved => match config.window_move {
                None => None,
                Some(moving) => {
                    let sliding = manager.animations.contains_key(window.id)
                        && manager.animations[window.id].is_slide;
                    if !sliding && travel(headed_for(manager, window), target_rect)
                        > moving.trigger_threshold {
                        Some(moving.effect)
                    } else {
                        None
                    }
                },
            },
        }
    }
}

/// Whether a window's animation is running and not over.
pub open spec fn is_active(
    animations: Map<u128, WindowAnimationState>,
    id: u128,
    now: u64,
) -> bool {
    animations.contains_key(id) && !animations[id].complete(now)
}

/// Whether the real window moves along under the overlay of its animation: it
/// is shown and keeps its size.
pub open spec fn follows(
    manager: AnimationManagerView,
    states: Map<u128, DisplayState>,
    id: u128,
) -> bool {
    &&& manager.platform is Windows
    &&& states.contains_key(id)
    &&& states[id] is Showing || states[id] is Shown
    &&& manager.animations.contains_key(id)
    &&& manager.animations[id].translates()
}

/// Where an animation starts: where it is told to, or where the window appears
/// to be.
pub open spec fn start_of(
    manager: AnimationManagerView,
    window: AnimatedWindow,
    start_override: Option<Rect>,
    current_rect: Option<Rect>,
) -> Rect {
    match start_override {
        Some(rect) => rect,
        None => if manager.animations.contains_key(window.id) {
            current_rect->0
        } else {
            window.frame
        },
    }
}

/// The animation that starts for a window.
pub open spec fn started(
    start_rect: Rect,
    target_rect: Rect,
    config: AnimationEffectConfig,
    refresh_rate: Option<u32>,
    is_slide: bool,
    now: u64,
) -> WindowAnimationState {
    let frame_rate = match refresh_rate {
        Some(rate) => rate,
        None => DEFAULT_FRAME_RATE,
    };
    WindowAnimationState::movement(start_rect, target_rect, config, frame_rate, is_slide, now)
}

fn distance(a: i64, b: i64) -> (length: i64)
    requires
        -0x2_0000_0000 < a < 0x2_0000_0000,
        -0x2_0000_0000 < b < 0x2_0000_0000,
    ensures
        length == apart(a as int, b as int),
{
    if a >= b {
        a - b
    } else {
        b - a
    }
}

fn travel_between(a: &Rect, b: &Rect) -> (length: i64)
    ensures
        length == travel(*a, *b),
{
    distance(a.left as i64, b.left as i64) + distance(a.top as i64, b.top as i64) + distance(
        animation::extent(a.left, a.right),
        animation::extent(b.left, b.right),
    ) + distance(animation::extent(a.top, a.bottom), animation::extent(b.top, b.bottom))
}

impl AnimationManager {
    pub closed spec fn view(&self) -> AnimationManagerView {
        AnimationManagerView {
            animations: self.animations@,
            overlays: self.windows@,
            captures: self.pending_captures@,
            context: self.context,
            tick_rate: self.tick_rate,
            platform: self.platform,
            separate_spaces: self.displays_have_separate_spaces,
        }
    }

    /// Every animation has a frame rate.
    pub open spec fn wf(&self) -> bool {
        forall|id: u128| #[trigger]
            self@.animations.contains_key(id) ==> 0 < self@.animations[id].frame_rate
    }

    pub fn new(platform: Platform, displays_have_separate_spaces: bool) -> (manager: Self)
        ensures
            manager.wf(),
            manager@ == (AnimationManagerView {
                animations: Map::empty(),
                overlays: Set::empty(),
                captures: Set::empty(),
                context: false,
                tick_rate: None,
                platform,
                separate_spaces: displays_have_separate_spaces,
            }),
    {
        AnimationManager {
            animations: HashMap::new(),
            windows: HashSet::new(),
            pending_captures: HashSet::new(),
            context: false,
            tick_rate: None,
            platform,
            displays_have_separate_spaces,
        }
    }

    /// Whether an animation is currently active for a given window.
    pub fn is_animating(&self, window_id: u128) -> (animating: bool)
        ensures
            animating == self@.animations.contains_key(window_id),
    {
        self.animations.contains_key(&window_id)
    }

    /// The animation of a given window.
    pub fn animation(&self, window_id: u128) -> (state: Option<WindowAnimationState>)
        ensures
            state == (if self@.animations.contains_key(window_id) {
                Some(self@.animations[window_id])
            } else {
                None
            }),
    {
        match self.animations.get(&window_id) {
            Some(state) => Some(*state),
            None => None,
        }
    }

    /// Gets the window IDs of animations that have completed.
    pub fn completed_ids(&self, now: u64) -> (ids: HashSet<u128>)
        ensures
            forall|id: u128| #[trigger]
                ids@.contains(id) <==> self@.animations.contains_key(id)
                    && self@.animations[id].complete(now),
    {
        let all = ids_of(&self.animations);
        let mut ids: HashSet<u128> = HashSet::new();
        for k in 0..all.len()
            invariant
                all@.to_set() == self@.animations.dom(),
                forall|id: u128| #[trigger]
                    ids@.contains(id) <==> self@.animations.contains_key(id)
                        && self@.animations[id].complete(now) && all@.take(k as int).contains(id),
        {
            let id: u128 = all[k];
            let ghost before = ids@;
            proof {
                assert(all@.contains(all@[k as int]));
                assert(self@.animations.dom().contains(id));
                assert(all@.take(k + 1) =~= all@.take(k as int).push(id));
                assert forall|other: u128| all@.take(k + 1).contains(other) <==> all@.take(
                    k as int,
                ).contains(other) || other == id by {
                    if all@.take(k as int).contains(other) {
                        let at = all@.take(k as int).index_of(other);
                        assert(all@.take(k + 1)[at] == other);
                    }
                    if other == id {
                        assert(all@.take(k + 1)[k as int] == other);
                    }
                }
            }
            if let Some(state) = self.animations.get(&id) {
                if state.is_complete(now) {
                    ids.insert(id);
                }
            }
        }
        proof {
            assert(all@.take(all@.len() as int) =~= all@);
            assert forall|id: u128| self@.animations.contains_key(id) implies all@.contains(id) by {
                assert(all@.to_set().contains(id));
            }
        }
        ids
    }

    /// The highest frame rate among the animated windows.
    fn highest_rate(&self) -> (rate: Option<u32>)
        ensures
            is_highest_rate(self@.animations, rate),
    {
        let all = ids_of(&self.animations);
        let mut rate: Option<u32> = None;
        for k in 0..all.len()
            invariant
                all@.to_set() == self@.animations.dom(),
                rate is None <==> k == 0,
                rate matches Some(rate) ==> exists|id: u128| #[trigger]
                    self@.animations.contains_key(id) && self@.animations[id].frame_rate == rate,
                forall|i: int|
                    0 <= i < k ==> self@.animations[#[trigger] all@[i]].frame_rate <= rate->0,
        {
            let id: u128 = all[k];
            proof {
                assert(all@.contains(all@[k as int]));
                assert(self@.animations.dom().contains(id));
            }
            if let Some(state) = self.animations.get(&id) {
                let faster: bool = match rate {
                    Some(rate) => state.frame_rate > rate,
                    None => true,
                };
                if faster {
                    assert(self@.animations.contains_key(id));
                    rate = Some(state.frame_rate);
                }
            }
        }
        proof {
            assert forall|id: u128| #[trigger] self@.animations.contains_key(id) implies exists|
                i: int,
            | 0 <= i < all@.len() && all@[i] == id by {
                assert(all@.to_set().contains(id));
            }
            if rate is None {
                assert(self@.animations.dom() =~= Set::<u128>::empty());
            }
        }
        rate
    }

    /// Settles at which frame rate ticks are emitted.
    ///
    /// The ticks are emitted at the highest frame rate among the animated
    /// windows. A running task is only replaced when that rate changes.
    fn update_tick_rate(&mut self) -> (change: TickChange)
        requires
            old(self).wf(),
        ensures
            final(self).wf(),
            is_highest_rate(old(self)@.animations, final(self)@.tick_rate),
            final(self)@ == (AnimationManagerView {
                tick_rate: final(self)@.tick_rate,
                ..old(self)@
            }),
            change == tick_change(old(self)@.tick_rate, final(self)@.tick_rate),
    {
        let running: Option<u32> = self.tick_rate;
        let rate: Option<u32> = self.highest_rate();
        self.tick_rate = rate;
        match rate {
            None => if running.is_some() {
                TickChange::Stop
            } else {
                TickChange::Keep
            },
            Some(rate) => {
                if let Some(current) = running {
                    if current == rate {
                        return TickChange::Keep;
                    }
                }
                TickChange::Start { frame_time_ms: 1000u32 / rate, replaces: running.is_some() }
            },
        }
    }

    /// Clears the animation of a window. What is left is to destroy its
    /// overlay, `OVERLAY_LINGER_MS` from now.
    pub fn destroy_animation(&mut self, window_id: u128) -> (teardown: Teardown)
        requires
            old(self).wf(),
        ensures
            final(self).wf(),
            final(self)@ == (AnimationManagerView {
                animations: old(self)@.animations.remove(window_id),
                overlays: old(self)@.overlays.remove(window_id),
                captures: old(self)@.captures.remove(window_id),
                tick_rate: final(self)@.tick_rate,
                ..old(self)@
            }),
            is_highest_rate(final(self)@.animations, final(self)@.tick_rate),
            teardown.tick == tick_change(old(self)@.tick_rate, final(self)@.tick_rate),
            teardown.overlay == old(self)@.overlays.contains(window_id),
    {
        self.animations.remove(&window_id);
        self.pending_captures.remove(&window_id);
        let tick: TickChange = self.update_tick_rate();
        let overlay: bool = self.windows.remove(&window_id);
        Teardown { tick, overlay }
    }

    /// Works out what a single tick draws: nothing at all, not even an empty
    /// transaction, while no window is animated.
    ///
    /// `display_states` holds the windows with a running animation, so that
    /// their real frames can follow the overlays.
    pub fn tick_update(
        &self,
        now: u64,
        display_states: &HashMap<u128, DisplayState>,
    ) -> (plan: Result<Option<TickPlan>, AnimationError>)
        ensures
            self@.animations.dom() == Set::<u128>::empty() <==> plan == Ok::<
                Option<TickPlan>,
                AnimationError,
            >(None),
            self@.animations.dom() != Set::<u128>::empty() && !self@.context <==> plan == Err::<
                Option<TickPlan>,
                AnimationError,
            >(AnimationError::ContextNotInitialized),
            self@.animations.dom() != Set::<u128>::empty() && self@.context <==> plan matches Ok(
                Some(_),
            ),
            plan matches Ok(Some(plan)) ==> {
                &&& plan.active@.no_duplicates()
                &&& forall|id: u128| #[trigger]
                    plan.active@.contains(id) <==> is_active(self@.animations, id, now)
                &&& plan.overlays@ == plan.active@.filter(|id: u128| self@.overlays.contains(id))
                &&& plan.followers@ == plan.active@.filter(
                    |id: u128| follows(self@, display_states@, id),
                )
            },
    {
        if self.animations.is_empty() {
            assert(self@.animations.dom() =~= Set::<u128>::empty());
            return Ok(None);
        }
        assert(self@.animations.dom() != Set::<u128>::empty());
        if !self.context {
            return Err(AnimationError::ContextNotInitialized);
        }
        let active = self.active_ids(now);
        let mut overlays: Vec<u128> = Vec::new();
        let mut followers: Vec<u128> = Vec::new();
        let ghost drawn = |id: u128| self@.overlays.contains(id);
        let ghost moved = |id: u128| follows(self@, display_states@, id);
        assert(active@.take(0) =~= Seq::<u128>::empty());
        proof {
            reveal(Seq::filter);
        }
        for k in 0..active.len()
            invariant
                drawn == (|id: u128| self@.overlays.contains(id)),
                moved == (|id: u128| follows(self@, display_states@, id)),
                overlays@ == active@.take(k as int).filter(drawn),
                followers@ == active@.take(k as int).filter(moved),
        {
            let id: u128 = active[k];
            proof {
                reveal(Seq::filter);
                assert(active@.take(k + 1).drop_last() =~= active@.take(k as int));
            }
            if self.windows.contains(&id) {
                overlays.push(id);
            }
            if self.is_follower(display_states, id) {
                followers.push(id);
            }
        }
        assert(active@.take(active@.len() as int) =~= active@);
        Ok(Some(TickPlan { active, overlays, followers }))
    }

    /// The windows whose animation is running and not over.
    fn active_ids(&self, now: u64) -> (active: Vec<u128>)
        ensures
            active@.no_duplicates(),
            forall|id: u128| #[trigger]
                active@.contains(id) <==> is_active(self@.animations, id, now),
    {
        let all = ids_of(&self.animations);
        let mut active: Vec<u128> = Vec::new();
        for k in 0..all.len()
            invariant
                all@.no_duplicates(),
                all@.to_set() == self@.animations.dom(),
                active@.no_duplicates(),
                forall|i: int|
                    0 <= i < active@.len() ==> is_active(
                        self@.animations,
                        #[trigger] active@[i],
                        now,
                    ) && all@.take(k as int).contains(active@[i]),
                forall|i: int|
                    0 <= i < k && is_active(self@.animations, #[trigger] all@[i], now)
                        ==> active@.contains(all@[i]),
        {
            let id: u128 = all[k];
            let ghost before = active@;
            proof {
                assert(all@.contains(all@[k as int]));
                assert(self@.animations.dom().contains(id));
                assert forall|i: int| 0 <= i < active@.len() implies all@.take(k + 1).contains(
                    #[trigger] active@[i],
                ) && active@[i] != id by {
                    let at = all@.take(k as int).index_of(active@[i]);
                    assert(all@.take(k + 1)[at] == active@[i]);
                    assert(all@[at] == active@[i]);
                }
                assert(all@.take(k + 1)[k as int] == id);
            }
            if let Some(state) = self.animations.get(&id) {
                if !state.is_complete(now) {
                    active.push(id);
                    assert(active@[before.len() as int] == id);
                    assert forall|i: int| 0 <= i < before.len() implies active@.contains(
                        #[trigger] before[i],
                    ) by {
                        assert(active@[i] == before[i]);
                    }
                }
            }
        }
        proof {
            assert forall|id: u128| is_active(self@.animations, id, now) implies active@.contains(
                id,
            ) by {
                assert(all@.to_set().contains(id));
                let at = all@.index_of(id);
                assert(all@[at] == id);
            }
        }
        active
    }

    /// Whether the real window moves along under its overlay.
    fn is_follower(&self, display_states: &HashMap<u128, DisplayState>, id: u128) -> (follower: bool)
        ensures
            follower == follows(self@, display_states@, id),
    {
        // Only a shown window follows. A hidden one is cloaked or parked in
        // the corner, and pulling it out of the corner opaque would put it on
        // screen under the overlay.
        let shown: bool = match display_states.get(&id) {
            Some(state) => matches!(*state, DisplayState::Showing | DisplayState::Shown),
            None => false,
        };
        // Only a pure translation follows. A size change would resize the app
        // every tick, which games in particular resent.
        let translates: bool = match self.animations.get(&id) {
            Some(state) => state.is_translation(),
            None => false,
        };
        matches!(self.platform, Platform::Windows) && shown && translates
    }

    /// Returns the animation effect config if an animation should be started
    /// for a window, or `None` if no animation is needed.
    pub fn animation_effect_for_window(
        &self,
        window: &AnimatedWindow,
        trigger: AnimationTrigger,
        target_rect: &Rect,
        config: &AnimationsConfig,
    ) -> (effect: Option<AnimationEffectConfig>)
        ensures
            effect == effect_for(self@, *window, trigger, *target_rect, *config),
    {
        // Skip animation if:
        //  - The window is minimized.
        //  - The window is fullscreen. Games and video players live here, and
        //    an animation would capture, layer, cloak, overlay and move them.
        //    They get the hard cut a desktop normally gives them.
        //  - The window is maximized (macOS only - can't override the OS's
        //    animation).
        //  - The window is hidden in the corner, but not animating. Safeguards
        //    against race condition where window finished an animation, but
        //    hasn't been moved to the real window position yet.
        if window.is_minimized || matches!(window.state, WindowState::Fullscreen) || (
        window.is_maximized && matches!(self.platform, Platform::MacOs)) || (!self.is_animating(
            window.id,
        ) && window.is_in_corner) {
            return None;
        }
        match trigger {
            AnimationTrigger::WindowOpened => if self.is_animating(window.id) {
                None
            } else {
                config.window_open
            },
            AnimationTrigger::WorkspaceEntering(_) => config.workspace_switch,
            AnimationTrigger::WorkspaceLeaving(_) => config.workspace_switch,
            AnimationTrigger::WindowMoved => match config.window_move {
                None => None,
                Some(moving) => {
                    // If the window is mid-animation, compare the previous
                    // animation target to the new target.
                    let headed: Rect = match self.animations.get(&window.id) {
                        Some(state) => {
                            // A slide owns its windows for its whole duration.
                            // A redraw landing mid-slide targets the windows'
                            // tiles, which differ from the slide targets, so
                            // the distance alone would restart the slide
                            // mid-flight. The slide finishes, and the redraw
                            // re-runs after it anyway.
                            if state.is_slide {
                                return None;
                            }
                            state.target_rect
                        },
                        None => window.frame,
                    };
                    if travel_between(&headed, target_rect) > moving.trigger_threshold as i64 {
                        Some(moving.effect)
                    } else {
                        None
                    }
                },
            },
        }
    }

    /// Decides whose frames to capture in one batch, before animations start.
    ///
    /// Captures of an earlier batch whose animations never started are
    /// dropped. A window whose overlay is still up keeps its frame, so a fresh
    /// capture would only be discarded.
    pub fn pre_capture(&mut self, windows: &Vec<(u128, WindowId)>) -> (request: CaptureRequest)
        ensures
            final(self)@ == (AnimationManagerView { captures: Set::empty(), ..old(self)@ }),
            request.windows@ == windows@.filter(
                |window: (u128, WindowId)| !old(self)@.overlays.contains(window.0),
            ),
            request.needs_context == (request.windows@.len() > 0 && !old(self)@.context),
    {
        self.pending_captures.clear();
        let mut wanted: Vec<(u128, WindowId)> = Vec::new();
        let ghost uncovered = |window: (u128, WindowId)| !self@.overlays.contains(window.0);
        proof {
            reveal(Seq::filter);
            assert(windows@.take(0) =~= Seq::<(u128, WindowId)>::empty());
        }
        for k in 0..windows.len()
            invariant
                uncovered == (|window: (u128, WindowId)| !self@.overlays.contains(window.0)),
                wanted@ == windows@.take(k as int).filter(uncovered),
        {
            let window: (u128, WindowId) = windows[k];
            proof {
                reveal(Seq::filter);
                assert(windows@.take(k + 1).drop_last() =~= windows@.take(k as int));
            }
            if !self.windows.contains(&window.0) {
                wanted.push(window);
            }
        }
        assert(windows@.take(windows@.len() as int) =~= windows@);
        let needs_context: bool = wanted.len() > 0 && !self.context;
        CaptureRequest { windows: wanted, needs_context }
    }

    /// Keeps the frames that were captured, by window and whether its capture
    /// succeeded, until their animations start.
    pub fn store_captures(&mut self, results: &Vec<(u128, bool)>)
        ensures
            final(self)@ == (AnimationManagerView {
                captures: final(self)@.captures,
                ..old(self)@
            }),
            forall|id: u128| #[trigger]
                final(self)@.captures.contains(id) <==> old(self)@.captures.contains(id)
                    || results@.contains((id, true)),
    {
        let ghost before = self@;
        for k in 0..results.len()
            invariant
                self@ == (AnimationManagerView { captures: self@.captures, ..before }),
                forall|id: u128| #[trigger]
                    self@.captures.contains(id) <==> before.captures.contains(id) || exists|i: int|
                        0 <= i < k && #[trigger] results@[i] == (id, true),
        {
            let result: (u128, bool) = results[k];
            let ghost captures = self@.captures;
            if result.1 {
                self.pending_captures.insert(result.0);
            }
            proof {
                assert(results@[k as int] == result);
                assert forall|id: u128| #[trigger]
                    self@.captures.contains(id) <==> before.captures.contains(id) || exists|i: int|
                        0 <= i < k + 1 && #[trigger] results@[i] == (id, true) by {
                    assert(self@.captures.contains(id) <==> captures.contains(id) || (result.1
                        && id == result.0));
                    assert(captures.contains(id) <==> before.captures.contains(id) || exists|
                        i: int,
                    | 0 <= i < k && #[trigger] results@[i] == (id, true));
                }
            }
        }
    }

    /// Records that the context of the overlays has been made.
    pub fn context_created(&mut self)
        ensures
            final(self)@ == (AnimationManagerView { context: true, ..old(self)@ }),
    {
        self.context = true;
    }

    /// Starts a new animation, or extends an existing animation. Returns the
    /// bounding box of the way the window goes.
    ///
    /// `start_override` forces where the animation begins, for a window that
    /// is not currently where it should appear to come from. A workspace
    /// entering from off screen is the case that needs it: its real frame is
    /// already the tile it will occupy, so without an override there is
    /// nothing to travel. `current_rect` is where a running animation of the
    /// window has got to.
    pub fn start_animation(
        &mut self,
        window: &AnimatedWindow,
        effect_config: &AnimationEffectConfig,
        target_rect: Rect,
        refresh_rate: Option<u32>,
        start_override: Option<Rect>,
        current_rect: Option<Rect>,
        is_slide: bool,
        now: u64,
    ) -> (path: Rect)
        requires
            old(self).wf(),
            refresh_rate matches Some(rate) ==> 0 < rate,
            start_override is None && old(self)@.animations.contains_key(window.id)
                ==> current_rect is Some,
        ensures
            final(self).wf(),
            ({
                let start = start_of(old(self)@, *window, start_override, current_rect);
                let state = started(
                    start,
                    target_rect,
                    *effect_config,
                    refresh_rate,
                    is_slide,
                    now,
                );
                &&& final(self)@ == (AnimationManagerView {
                    animations: old(self)@.animations.insert(window.id, state),
                    ..old(self)@
                })
                &&& path == start.spec_union(target_rect)
            }),
    {
        // Sync the frame rate to the monitor's refresh rate. Since ticks are
        // skipped if the animation is behind, the frame rate is variable.
        let frame_rate: u32 = match refresh_rate {
            Some(rate) => rate,
            None => DEFAULT_FRAME_RATE,
        };
        let start_rect: Rect = match start_override {
            Some(rect) => rect,
            None => match (self.is_animating(window.id), current_rect) {
                (true, Some(rect)) => rect,
                _ => window.frame,
            },
        };
        let state: WindowAnimationState = WindowAnimationState::new(
            start_rect,
            target_rect,
            effect_config,
            frame_rate,
            is_slide,
            now,
        );
        self.animations.insert(window.id, state);
        start_rect.union(&target_rect)
    }

    /// Whether overlays are cropped to the display that their window is on.
    ///
    /// On macOS, windows cannot span across multiple displays when "Displays
    /// have separate Spaces" is enabled. Attempting to position a window beyond
    /// the display bounds causes it to wrap around on the same display. The
    /// animation is therefore only shown on the source display.
    pub open spec fn crops_to_display(&self) -> bool {
        self@.platform is MacOs && self@.separate_spaces
    }

    /// Whether the bounds of the display are needed to start an animation.
    pub fn needs_display_bounds(&self) -> (needed: bool)
        ensures
            needed == self.crops_to_display(),
    {
        matches!(self.platform, Platform::MacOs) && self.displays_have_separate_spaces
    }

    /// Decides how the overlay of a window whose animation has started comes
    /// about, and uses up the window's captured frame.
    pub fn plan_overlay(
        &mut self,
        window_id: u128,
        path: Rect,
        display_bounds: Option<Rect>,
    ) -> (plan: OverlayPlan)
        requires
            old(self).crops_to_display() ==> display_bounds is Some,
        ensures
            final(self)@ == (AnimationManagerView {
                captures: old(self)@.captures.remove(window_id),
                ..old(self)@
            }),
            plan.outer_rect == (if old(self).crops_to_display() {
                path.spec_crop(display_bounds->0)
            } else {
                path
            }),
            plan.needs_context == !old(self)@.context,
            plan.action == (if old(self)@.overlays.contains(window_id) {
                OverlayAction::Resize
            } else if old(self)@.captures.contains(window_id) {
                OverlayAction::CreateFromCapture
            } else {
                OverlayAction::CaptureAndCreate
            }),
    {
        let outer_rect: Rect = match (self.needs_display_bounds(), display_bounds) {
            (true, Some(bounds)) => path.crop(&bounds),
            _ => path,
        };
        let captured: bool = self.pending_captures.remove(&window_id);
        let action: OverlayAction = if self.windows.contains(&window_id) {
            OverlayAction::Resize
        } else if captured {
            OverlayAction::CreateFromCapture
        } else {
            OverlayAction::CaptureAndCreate
        };
        OverlayPlan { outer_rect, needs_context: !self.context, action }
    }

    /// Records that the overlay of a window is up. Only now does its animation
    /// begin to run.
    pub fn overlay_ready(&mut self, window_id: u128, now: u64) -> (tick: TickChange)
        requires
            old(self).wf(),
        ensures
            final(self).wf(),
            final(self)@ == (AnimationManagerView {
                animations: if old(self)@.animations.contains_key(window_id) {
                    old(self)@.animations.insert(
                        window_id,
                        WindowAnimationState {
                            start_time: now,
                            ..old(self)@.animations[window_id]
                        },
                    )
                } else {
                    old(self)@.animations
                },
                overlays: old(self)@.overlays.insert(window_id),
                tick_rate: final(self)@.tick_rate,
                ..old(self)@
            }),
            is_highest_rate(final(self)@.animations, final(self)@.tick_rate),
            tick == tick_change(old(self)@.tick_rate, final(self)@.tick_rate),
    {
        self.windows.insert(window_id);
        if let Some(state) = self.animation(window_id) {
            self.animations.insert(
                window_id,
                WindowAnimationState { start_time: now, ..state },
            );
        }
        self.update_tick_rate()
    }
}

/// A redraw never interrupts a workspace slide.
pub proof fn law_slides_are_not_interrupted(
    manager: AnimationManagerView,
    window: AnimatedWindow,
    target_rect: Rect,
    config: AnimationsConfig,
)
    requires
        manager.animations.contains_key(window.id),
        manager.animations[window.id].is_slide,
    ensures
        effect_for(manager, window, AnimationTrigger::WindowMoved, target_rect, config) is None,
        effect_for(manager, window, AnimationTrigger::WindowOpened, target_rect, config) is None,
{
}

/// A fullscreen or minimized window is never animated, whatever happens to it.
pub proof fn law_fullscreen_and_minimized_windows_keep_still(
    manager: AnimationManagerView,
    window: AnimatedWindow,
    trigger: AnimationTrigger,
    target_rect: Rect,
    config: AnimationsConfig,
)
    requires
        window.state is Fullscreen || window.is_minimized,
    ensures
        effect_for(manager, window, trigger, target_rect, config) is None,
{
}

/// A redraw that asks a moving window to go where it is going already leaves
/// the animation alone.
pub proof fn law_moving_to_the_same_place_is_no_move(
    manager: AnimationManagerView,
    window: AnimatedWindow,
    config: AnimationsConfig,
)
    requires
        config.window_move matches Some(moving) ==> moving.trigger_threshold >= 0,
    ensures
        effect_for(
            manager,
            window,
            AnimationTrigger::WindowMoved,
            headed_for(manager, window),
            config,
        ) is None,
{
}

/// Animations determine the rate of their ticks, and a task that runs at that
/// rate is left running.
pub proof fn law_the_tick_rate_is_settled(
    animations: Map<u128, WindowAnimationState>,
    a: Option<u32>,
    b: Option<u32>,
)
    requires
        is_highest_rate(animations, a),
        is_highest_rate(animations, b),
    ensures
        a == b,
        tick_change(a, b) is Keep,
{
    if a is Some && b is Some {
        let fast = choose|id: u128| #[trigger]
            animations.contains_key(id) && animations[id].frame_rate == a->0;
        let other = choose|id: u128| #[trigger]
            animations.contains_key(id) && animations[id].frame_rate == b->0;
        assert(animations[fast].frame_rate <= b->0);
        assert(animations[other].frame_rate <= a->0);
    } else if a is Some {
        let fast = choose|id: u128| #[trigger]
            animations.contains_key(id) && animations[id].frame_rate == a->0;
        assert(animations.dom().contains(fast));
    } else if b is Some {
        let fast = choose|id: u128| #[trigger]
            animations.contains_key(id) && animations[id].frame_rate == b->0;
        assert(animations.dom().contains(fast));
    }
}

/// A window that is hidden, or that changes its size, is not moved along under
/// its overlay.
pub proof fn law_hidden_and_resized_windows_stay_put(
    manager: AnimationManagerView,
    states: Map<u128, DisplayState>,
    id: u128,
)
    requires
        (states.contains_key(id) && (states[id] is Hidden || states[id] is Hiding)) || (
        manager.animations.contains_key(id) && !manager.animations[id].translates()),
    ensures
        !follows(manager, states, id),
{
}

/// A window that is neither minimized nor fullscreen, not maximized where the
/// system animates that itself, and not parked in the corner at rest, is
/// animated as its trigger says, whatever else its state is: it opens, changes
/// workspaces and, where it has farther to go than the threshold, moves with
/// the effect that is configured for it.
pub proof fn law_ordinary_windows_are_animated(
    manager: AnimationManagerView,
    window: AnimatedWindow,
    trigger: AnimationTrigger,
    target_rect: Rect,
    config: AnimationsConfig,
)
    requires
        !window.is_minimized,
        window.state !is Fullscreen,
        window.is_maximized ==> manager.platform !is MacOs,
        window.is_in_corner ==> manager.animations.contains_key(window.id),
    ensures
        ({
            let effect = effect_for(manager, window, trigger, target_rect, config);
            let animating = manager.animations.contains_key(window.id);
            let from = if animating {
                manager.animations[window.id].target_rect
            } else {
                window.frame
            };
            let way = vstd::math::abs(from.left - target_rect.left) + vstd::math::abs(
                from.top - target_rect.top,
            ) + vstd::math::abs(
                (from.right - from.left) - (target_rect.right - target_rect.left),
            ) + vstd::math::abs(
                (from.bottom - from.top) - (target_rect.bottom - target_rect.top),
            );
            match trigger {
                AnimationTrigger::WindowOpened => effect == if animating {
                    None
                } else {
                    config.window_open
                },
                AnimationTrigger::WorkspaceEntering(_) => effect == config.workspace_switch,
                AnimationTrigger::WorkspaceLeaving(_) => effect == config.workspace_switch,
                AnimationTrigger::WindowMoved => match config.window_move {
                    None => effect is None,
                    Some(moving) => {
                        &&& animating && manager.animations[window.id].is_slide ==> effect is None
                        &&& way <= moving.trigger_threshold ==> effect is None
                        &&& way > moving.trigger_threshold && !(animating
                            && manager.animations[window.id].is_slide) ==> effect == Some(
                            moving.effect,
                        )
                    },
                },
            }
        }),
{
}

/// Whether a window tiles or floats makes no difference to how it is animated.
pub proof fn law_tiling_and_floating_windows_are_animated_alike(
    manager: AnimationManagerView,
    window: AnimatedWindow,
    trigger: AnimationTrigger,
    target_rect: Rect,
    config: AnimationsConfig,
)
    ensures
        effect_for(
            manager,
            AnimatedWindow { state: WindowState::Tiling, ..window },
            trigger,
            target_rect,
            config,
        ) == effect_for(
            manager,
            AnimatedWindow { state: WindowState::Floating, ..window },
            trigger,
            target_rect,
            config,
        ),
{
}

/// A window that the system animates itself, and one at rest in the corner, are
/// not animated, whatever happens to them.
pub proof fn law_maximized_and_parked_windows_keep_still(
    manager: AnimationManagerView,
    window: AnimatedWindow,
    trigger: AnimationTrigger,
    target_rect: Rect,
    config: AnimationsConfig,
)
    requires
        (window.is_maximized && manager.platform is MacOs) || (window.is_in_corner
            && !manager.animations.contains_key(window.id)),
    ensures
        effect_for(manager, window, trigger, target_rect, config) is None,
{
}

/// The way between two rectangles is how far their corners, their widths and
/// their heights are apart, added up.
pub proof fn law_the_way_counts_position_and_size(a: Rect, b: Rect)
    ensures
        travel(a, b) == vstd::math::abs(a.left - b.left) + vstd::math::abs(a.top - b.top)
            + vstd::math::abs((a.right - a.left) - (b.right - b.left)) + vstd::math::abs(
            (a.bottom - a.top) - (b.bottom - b.top),
        ),
        travel(a, b) == travel(b, a),
        travel(a, b) == 0 <==> a == b,
{
}

/// Ticks come at the rate of the fastest animation, and at none only while
/// nothing is animated.
pub proof fn law_ticks_keep_up_with_every_animation(
    animations: Map<u128, WindowAnimationState>,
    rate: Option<u32>,
    id: u128,
)
    requires
        is_highest_rate(animations, rate),
    ensures
        animations.contains_key(id) ==> rate is Some && animations[id].frame_rate <= rate->0,
        rate is Some ==> exists|fastest: u128| #[trigger]
            animations.contains_key(fastest) && animations[fastest].frame_rate == rate->0,
{
    if animations.contains_key(id) {
        assert(animations.dom().contains(id));
    }
}

/// The task that emits ticks goes on while its rate stays, ends when there is
/// no rate any more, and otherwise gives way to one whose ticks are as many
/// whole milliseconds apart as go into a second at the new rate.
pub proof fn law_the_tick_task_follows_its_rate(old_rate: Option<u32>, new_rate: Option<u32>)
    requires
        new_rate is Some ==> new_rate->0 > 0,
    ensures
        tick_change(old_rate, new_rate) is Keep <==> old_rate == new_rate,
        tick_change(old_rate, new_rate) is Stop <==> old_rate is Some && new_rate is None,
        tick_change(old_rate, new_rate) matches TickChange::Start { frame_time_ms, replaces } ==> {
            &&& new_rate is Some
            &&& frame_time_ms * new_rate->0 <= 1000 < (frame_time_ms + 1) * new_rate->0
            &&& replaces <==> old_rate is Some
        },
{
    if new_rate is Some && old_rate != new_rate {
        let rate: int = new_rate->0 as int;
        let time: int = 1000int / rate;
        vstd::arithmetic::div_mod::lemma_fundamental_div_mod(1000, rate);
        vstd::arithmetic::div_mod::lemma_mod_bound(1000, rate);
        assert(rate * time == time * rate && (time + 1) * rate == time * rate + rate)
            by (nonlinear_arith);
    }
}

/// An animation is drawn from its start until its duration has passed.
pub proof fn law_animations_are_drawn_until_they_end(
    animations: Map<u128, WindowAnimationState>,
    id: u128,
    now: u64,
)
    ensures
        is_active(animations, id, now) <==> animations.contains_key(id)
            && animations[id].duration > 0 && now < animations[id].start_time
            + animations[id].duration,
{
}

/// On Windows a real window on screen, or on its way there, moves along with an
/// animation that keeps its size. No other does.
pub proof fn law_shown_windows_of_one_size_move_along(
    manager: AnimationManagerView,
    states: Map<u128, DisplayState>,
    id: u128,
)
    ensures
        follows(manager, states, id) <==> {
            let state = manager.animations[id];
            &&& manager.platform is Windows
            &&& states.contains_key(id)
            &&& states[id] == DisplayState::Showing || states[id] == DisplayState::Shown
            &&& manager.animations.contains_key(id)
            &&& state.start_rect.right - state.start_rect.left == state.target_rect.right
                - state.target_rect.left
            &&& state.start_rect.bottom - state.start_rect.top == state.target_rect.bottom
                - state.target_rect.top
        },
{
}

/// An animation starts where it is told to, else where a running one has got
/// to, else where the window is.
pub proof fn law_animations_start_where_the_window_appears(
    manager: AnimationManagerView,
    window: AnimatedWindow,
    start_override: Option<Rect>,
    current_rect: Option<Rect>,
)
    ensures
        ({
            let start = start_of(manager, window, start_override, current_rect);
            &&& start_override is Some ==> Some(start) == start_override
            &&& start_override is None && !manager.animations.contains_key(window.id) ==> start
                == window.frame
            &&& start_override is None && manager.animations.contains_key(window.id)
                && current_rect is Some ==> Some(start) == current_rect
        }),
{
}

/// A started animation runs at the refresh rate of its monitor, or at 60 frames
/// a second where that is not known, for as long and with the easing that its
/// effect says.
pub proof fn law_animations_run_at_the_refresh_rate(
    start_rect: Rect,
    target_rect: Rect,
    config: AnimationEffectConfig,
    refresh_rate: Option<u32>,
    is_slide: bool,
    now: u64,
)
    ensures
        ({
            let state = started(start_rect, target_rect, config, refresh_rate, is_slide, now);
            &&& refresh_rate is Some ==> Some(state.frame_rate) == refresh_rate
            &&& refresh_rate is None ==> state.frame_rate == 60
            &&& state.easing == config.easing
            &&& state.duration == config.duration_ms * 1_000_000
            &&& state.start_rect == start_rect
            &&& state.target_rect == target_rect
            &&& state.is_slide == is_slide
            &&& state.start_time == now
            &&& state.start_opacity is None
            &&& state.target_opacity is None
        }),
{
}

/// Overlays are cropped only on macOS, and only where each display has its own
/// spaces.
pub proof fn law_overlays_are_cropped_where_displays_are_separate(manager: AnimationManager)
    ensures
        manager.crops_to_display() <==> manager@.platform == Platform::MacOs
            && manager@.separate_spaces,
{
}

} // verus!
