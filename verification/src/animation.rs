//! What an animation of a window is, and what sets one off.

use vstd::prelude::*;

use crate::rect;
use crate::rect::Rect;

verus! {

/// Which way the workspaces travel during a switch.
///
/// Named for the motion of the content, not the key pressed: moving to a
/// higher-numbered workspace sends the old content `Left` and brings the new
/// one in from the right, the way a pager works.
#[derive(Clone, Copy, Debug, PartialEq, Eq, Structural)]
pub enum SlideDirection {
    Left,
    Right,
}

#[derive(Clone, Copy, Debug, PartialEq, Eq, Structural)]
pub enum AnimationTrigger {
    WindowOpened,
    WindowMoved,
    /// A window arriving with the workspace being switched to. It starts one
    /// screen away, on the side it is travelling from.
    WorkspaceEntering(SlideDirection),
    /// A window leaving with the workspace being switched away from. It ends
    /// one screen away and is hidden once it gets there.
    WorkspaceLeaving(SlideDirection),
}

/// How progress through an animation turns into motion.
#[derive(Clone, Copy, Debug, PartialEq, Eq, Structural)]
pub enum EasingFunction {
    Linear,
    EaseIn,
    EaseOut,
    EaseInOut,
    EaseInCubic,
    EaseOutCubic,
    EaseInOutCubic,
}

/// How opaque a window is, from 0 to 255.
#[derive(Clone, Copy, Debug, PartialEq, Eq, Structural)]
pub struct OpacityValue {
    pub alpha: u8,
}

impl OpacityValue {
    pub fn from_alpha(alpha: u8) -> (opacity: Self)
        ensures
            opacity.alpha == alpha,
    {
        OpacityValue { alpha }
    }

    pub fn to_alpha(&self) -> (alpha: u8)
        ensures
            alpha == self.alpha,
    {
        self.alpha
    }
}

#[derive(Clone, Copy, Debug, PartialEq, Eq, Structural)]
pub struct AnimationEffectConfig {
    pub duration_ms: u32,
    pub easing: EasingFunction,
}

/// When moving a window is animated, and how.
#[derive(Clone, Copy, Debug, PartialEq, Eq, Structural)]
pub struct WindowMoveConfig {
    pub effect: AnimationEffectConfig,
    /// How far a window must move to be animated, in pixels.
    pub trigger_threshold: i32,
}

/// The animations that are switched on.
#[derive(Clone, Copy, Debug, PartialEq, Eq, Structural)]
pub struct AnimationsConfig {
    pub window_open: Option<AnimationEffectConfig>,
    pub window_move: Option<WindowMoveConfig>,
    pub workspace_switch: Option<AnimationEffectConfig>,
}

impl SlideDirection {
    /// How far, and which way, a slide on `monitor` moves things.
    pub open spec fn distance(self, monitor: Rect) -> int {
        match self {
            SlideDirection::Left => -monitor.spec_width(),
            SlideDirection::Right => monitor.spec_width(),
        }
    }

    /// Whether a rectangle stays within range of an `i32` when it slides.
    pub open spec fn can_offset(self, rect: Rect, monitor: Rect) -> bool {
        &&& rect.measurable()
        &&& rect::fits(monitor.spec_width())
        &&& rect::fits(self.distance(monitor))
        &&& rect::fits(rect.left + self.distance(monitor))
        &&& rect::fits(rect.right + self.distance(monitor))
    }

    /// `rect` moved by one monitor width.
    pub open spec fn spec_offset(self, rect: Rect, monitor: Rect) -> Rect {
        Rect {
            left: (rect.left + self.distance(monitor)) as i32,
            right: (rect.right + self.distance(monitor)) as i32,
            ..rect
        }
    }

    /// Offsets `rect` by one monitor width in this direction.
    ///
    /// A whole monitor rather than the window's own width so every window on
    /// the workspace travels the same distance and the layout moves as one
    /// sheet. Offsetting by each window's width would have them arrive at
    /// different times and read as a scatter.
    #[must_use]
    pub fn offset(self, rect: &Rect, monitor: &Rect) -> (moved: Rect)
        requires
            self.can_offset(*rect, *monitor),
        ensures
            moved == self.spec_offset(*rect, *monitor),
    {
        let distance: i32 = match self {
            SlideDirection::Left => -monitor.width(),
            SlideDirection::Right => monitor.width(),
        };
        rect.translate_to_coordinates(rect.x() + distance, rect.y())
    }

    pub open spec fn spec_opposite(self) -> Self {
        match self {
            SlideDirection::Left => SlideDirection::Right,
            SlideDirection::Right => SlideDirection::Left,
        }
    }

    /// The side an entering workspace arrives from, which is the side the
    /// outgoing one is heading toward.
    #[must_use]
    pub fn opposite(self) -> (other: Self)
        ensures
            other == self.spec_opposite(),
    {
        match self {
            SlideDirection::Left => SlideDirection::Right,
            SlideDirection::Right => SlideDirection::Left,
        }
    }

    pub open spec fn spec_between(from_index: int, to_index: int) -> Self {
        if to_index > from_index {
            SlideDirection::Left
        } else {
            SlideDirection::Right
        }
    }

    /// The direction the outgoing workspace travels when moving from
    /// `from_index` to `to_index` in the monitor's workspace order.
    #[must_use]
    pub fn between(from_index: usize, to_index: usize) -> (direction: Self)
        ensures
            direction == Self::spec_between(from_index as int, to_index as int),
    {
        if to_index > from_index {
            SlideDirection::Left
        } else {
            SlideDirection::Right
        }
    }
}

/// The nanoseconds in a millisecond.
pub const NANOS_PER_MILLI: u64 = 1_000_000;

/// State of an individual window animation.
///
/// Times are nanoseconds on one monotonic clock.
#[derive(Clone, Copy, Debug, PartialEq, Eq, Structural)]
pub struct WindowAnimationState {
    pub start_time: u64,
    pub duration: u64,
    pub easing: EasingFunction,
    /// Target frame rate for the animation.
    pub frame_rate: u32,
    /// Start and target positions for the animation.
    pub start_rect: Rect,
    pub target_rect: Rect,
    /// Whether the animation is part of a workspace slide. A slide is never
    /// interrupted by a redraw that is not one.
    pub is_slide: bool,
    /// Start and target opacity, or `None` if opacity is not animated.
    pub start_opacity: Option<OpacityValue>,
    pub target_opacity: Option<OpacityValue>,
}

/// How far through an animation is.
#[derive(Clone, Copy, Debug, PartialEq, Eq, Structural)]
pub enum Progress {
    Complete,
    /// The fraction `elapsed_ms / duration_ms`, which is less than one.
    Partial { elapsed_ms: u64, duration_ms: u64 },
}

impl WindowAnimationState {
    /// A movement from one rectangle to another.
    pub open spec fn movement(
        start_rect: Rect,
        target_rect: Rect,
        config: AnimationEffectConfig,
        frame_rate: u32,
        is_slide: bool,
        now: u64,
    ) -> Self {
        WindowAnimationState {
            start_time: now,
            duration: (config.duration_ms * NANOS_PER_MILLI) as u64,
            easing: config.easing,
            frame_rate,
            start_rect,
            target_rect,
            is_slide,
            start_opacity: None,
            target_opacity: None,
        }
    }

    /// Creates a new movement animation between two rects.
    pub fn new(
        start_rect: Rect,
        target_rect: Rect,
        config: &AnimationEffectConfig,
        frame_rate: u32,
        is_slide: bool,
        now: u64,
    ) -> (state: Self)
        ensures
            state == Self::movement(start_rect, target_rect, *config, frame_rate, is_slide, now),
            state.duration == config.duration_ms * NANOS_PER_MILLI,
            state.easing == config.easing,
            state.start_time == now,
            state.frame_rate == frame_rate,
            state.start_rect == start_rect,
            state.target_rect == target_rect,
            state.is_slide == is_slide,
            state.start_opacity is None,
            state.target_opacity is None,
    {
        WindowAnimationState {
            start_time: now,
            duration: config.duration_ms as u64 * NANOS_PER_MILLI,
            easing: config.easing,
            frame_rate,
            start_rect,
            target_rect,
            is_slide,
            start_opacity: None,
            target_opacity: None,
        }
    }

    /// How long the animation has been running. A clock that has not reached
    /// the start yet counts as not having moved.
    pub open spec fn elapsed(self, now: u64) -> int {
        if now >= self.start_time {
            now - self.start_time
        } else {
            0
        }
    }

    /// Whether the animation has run for its whole duration.
    pub open spec fn complete(self, now: u64) -> bool {
        self.elapsed(now) >= self.duration
    }

    /// How far through the animation is.
    pub fn progress(&self, now: u64) -> (progress: Progress)
        ensures
            progress == (if self.complete(now) {
                Progress::Complete
            } else {
                Progress::Partial {
                    elapsed_ms: (self.elapsed(now) / NANOS_PER_MILLI as int) as u64,
                    duration_ms: (self.duration / NANOS_PER_MILLI) as u64,
                }
            }),
            progress is Complete <==> self.duration == 0 || now >= self.start_time + self.duration,
            progress matches Progress::Partial { elapsed_ms, duration_ms } ==> {
                &&& now >= self.start_time ==> elapsed_ms * 1_000_000 <= now - self.start_time < (
                elapsed_ms + 1) * 1_000_000
                &&& now < self.start_time ==> elapsed_ms == 0
                &&& duration_ms * 1_000_000 <= self.duration < (duration_ms + 1) * 1_000_000
            },
    {
        let elapsed: u64 = if now >= self.start_time {
            now - self.start_time
        } else {
            0
        };
        if elapsed >= self.duration {
            Progress::Complete
        } else {
            Progress::Partial {
                elapsed_ms: elapsed / NANOS_PER_MILLI,
                duration_ms: self.duration / NANOS_PER_MILLI,
            }
        }
    }

    /// Whether the animation has completed.
    pub fn is_complete(&self, now: u64) -> (done: bool)
        ensures
            done == self.complete(now),
    {
        matches!(self.progress(now), Progress::Complete)
    }

    /// The opacities to animate between, or `None` if opacity is not animated.
    pub fn opacity_range(&self) -> (range: Option<(OpacityValue, OpacityValue)>)
        ensures
            range == (match (self.start_opacity, self.target_opacity) {
                (Some(start), Some(target)) => Some((start, target)),
                _ => None,
            }),
    {
        match (self.start_opacity, self.target_opacity) {
            (Some(start), Some(target)) => Some((start, target)),
            _ => None,
        }
    }

    /// Whether the animation moves the window without changing its size.
    pub open spec fn translates(self) -> bool {
        &&& self.start_rect.spec_width() == self.target_rect.spec_width()
        &&& self.start_rect.spec_height() == self.target_rect.spec_height()
    }

    /// Whether the animation moves the window without changing its size.
    pub fn is_translation(&self) -> (translates: bool)
        ensures
            translates == self.translates(),
    {
        extent(self.start_rect.left, self.start_rect.right) == extent(
            self.target_rect.left,
            self.target_rect.right,
        ) && extent(self.start_rect.top, self.start_rect.bottom) == extent(
            self.target_rect.top,
            self.target_rect.bottom,
        )
    }
}

/// The distance from one edge to the other.
pub(crate) fn extent(from: i32, to: i32) -> (length: i64)
    ensures
        length == to - from,
{
    to as i64 - from as i64
}

/// Sliding one way and then the other puts a rectangle back where it was.
pub proof fn law_opposite_slides_cancel(direction: SlideDirection, rect: Rect, monitor: Rect)
    requires
        direction.can_offset(rect, monitor),
    ensures
        direction.spec_opposite().spec_offset(
            direction.spec_offset(rect, monitor),
            monitor,
        ) == rect,
        direction.spec_opposite().spec_opposite() == direction,
{
}

/// Every rectangle slides the same distance, so those on one monitor keep
/// their places relative to each other.
pub proof fn law_slides_move_as_one_sheet(
    direction: SlideDirection,
    a: Rect,
    b: Rect,
    monitor: Rect,
)
    requires
        direction.can_offset(a, monitor),
        direction.can_offset(b, monitor),
    ensures
        ({
            let c = direction.spec_offset(a, monitor);
            let d = direction.spec_offset(b, monitor);
            &&& d.left - c.left == b.left - a.left
            &&& d.right - c.right == b.right - a.right
            &&& d.top - c.top == b.top - a.top
            &&& d.bottom - c.bottom == b.bottom - a.bottom
        }),
{
}

/// Switching to another workspace and switching back travel opposite ways.
pub proof fn law_switching_back_slides_back(from_index: int, to_index: int)
    requires
        from_index != to_index,
    ensures
        SlideDirection::spec_between(to_index, from_index) == SlideDirection::spec_between(
            from_index,
            to_index,
        ).spec_opposite(),
{
}

/// An animation that has completed stays complete.
pub proof fn law_completion_is_final(state: WindowAnimationState, now: u64, later: u64)
    requires
        now <= later,
        state.complete(now),
    ensures
        state.complete(later),
{
}

/// An animation takes its duration and its easing from the effect that it was
/// started with, runs between the two rectangles that it was given, from the
/// moment that it was given, and leaves opacity alone.
pub proof fn law_animations_run_as_configured(
    start_rect: Rect,
    target_rect: Rect,
    config: AnimationEffectConfig,
    frame_rate: u32,
    is_slide: bool,
    now: u64,
)
    ensures
        ({
            let state = WindowAnimationState::movement(
                start_rect,
                target_rect,
                config,
                frame_rate,
                is_slide,
                now,
            );
            &&& state.easing == config.easing
            &&& state.duration == config.duration_ms * 1_000_000
            &&& state.start_rect == start_rect
            &&& state.target_rect == target_rect
            &&& state.start_time == now
            &&& state.frame_rate == frame_rate
            &&& state.is_slide == is_slide
            &&& state.start_opacity is None
            &&& state.target_opacity is None
        }),
{
}

/// Two effects that differ in their easing give animations that differ in it,
/// and in nothing else.
pub proof fn law_easings_are_told_apart(
    start_rect: Rect,
    target_rect: Rect,
    config: AnimationEffectConfig,
    easing: EasingFunction,
    frame_rate: u32,
    is_slide: bool,
    now: u64,
)
    ensures
        ({
            let one = WindowAnimationState::movement(
                start_rect,
                target_rect,
                config,
                frame_rate,
                is_slide,
                now,
            );
            let other = WindowAnimationState::movement(
                start_rect,
                target_rect,
                AnimationEffectConfig { easing, ..config },
                frame_rate,
                is_slide,
                now,
            );
            &&& one.easing == other.easing <==> config.easing == easing
            &&& other == (WindowAnimationState { easing, ..one })
        }),
{
}

/// An animation is complete once its duration has passed since it started, and
/// not before; one without a duration is complete at any time.
pub proof fn law_animations_last_their_duration(state: WindowAnimationState, now: u64)
    ensures
        state.complete(now) <==> state.duration == 0 || now >= state.start_time + state.duration,
        now >= state.start_time ==> state.elapsed(now) == now - state.start_time,
        now < state.start_time ==> state.elapsed(now) == 0,
{
}

/// An animation is a pure translation if both its ends are equally wide and
/// equally tall.
pub proof fn law_translations_keep_the_size(state: WindowAnimationState)
    ensures
        state.translates() <==> state.start_rect.right - state.start_rect.left
            == state.target_rect.right - state.target_rect.left && state.start_rect.bottom
            - state.start_rect.top == state.target_rect.bottom - state.target_rect.top,
{
}

/// A slide moves a rectangle sideways by exactly the width of the monitor, to
/// the side that it is named for, and not up or down.
pub proof fn law_slides_cross_the_whole_monitor(
    direction: SlideDirection,
    rect: Rect,
    monitor: Rect,
)
    requires
        direction.can_offset(rect, monitor),
    ensures
        ({
            let moved = direction.spec_offset(rect, monitor);
            let width = monitor.right - monitor.left;
            &&& direction is Left ==> moved.left == rect.left - width && moved.right == rect.right
                - width
            &&& direction is Right ==> moved.left == rect.left + width && moved.right
                == rect.right + width
            &&& moved.top == rect.top
            &&& moved.bottom == rect.bottom
        }),
{
}

/// Moving to a later workspace sends the old content left, and only that does.
pub proof fn law_later_workspaces_come_from_the_right(from_index: int, to_index: int)
    ensures
        SlideDirection::spec_between(from_index, to_index) is Left <==> to_index > from_index,
        SlideDirection::Left.spec_opposite() is Right,
        SlideDirection::Right.spec_opposite() is Left,
{
}

} // verus!
