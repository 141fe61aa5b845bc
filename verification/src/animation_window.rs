//! The overlay windows that stand in for windows while they are animated.

use vstd::prelude::*;

use crate::animation::{EasingFunction, OpacityValue};
use crate::platform::{Dispatcher, PlatformError, WindowId};
use crate::rect;
use crate::rect::Rect;
use crate::win32;

verus! {

/// What overlay windows share.
///
/// Holds nothing on Windows. The compositor paints the overlay from the source
/// window's own surface, so there is no device to share and nothing to commit.
pub struct AnimationContext;

/// A token standing in for a capture; the overlay draws the window live.
pub struct AnimationCapture {
    pub window_id: WindowId,
}

impl AnimationContext {
    pub fn new(_dispatcher: &Dispatcher) -> (context: Result<Self, PlatformError>)
        ensures
            context is Ok,
    {
        Ok(AnimationContext)
    }

    /// Nothing is captured. The overlay shows the window live, so this returns
    /// at once from any thread.
    pub fn capture_frame(&self, window_id: WindowId) -> (capture: Result<
        AnimationCapture,
        PlatformError,
    >)
        ensures
            capture == Ok::<AnimationCapture, PlatformError>(AnimationCapture { window_id }),
    {
        Ok(AnimationCapture { window_id })
    }
}

/// Where and how a thumbnail of a window is drawn within another window.
#[derive(Clone, Copy, Debug, PartialEq, Eq, Structural)]
pub struct ThumbnailProperties {
    /// Which of the properties are given.
    pub flags: u32,
    pub destination: Rect,
    pub opacity: u8,
    pub visible: bool,
    pub source_client_area_only: bool,
}

/// Where a window is put.
#[derive(Clone, Copy, Debug, PartialEq, Eq, Structural)]
pub struct WindowPlacement {
    pub x: i32,
    pub y: i32,
    pub width: i32,
    pub height: i32,
}

/// Whether a rectangle can be told relative to a frame.
pub open spec fn can_relate(inner: Rect, outer: Rect) -> bool {
    &&& rect::fits(inner.left - outer.left)
    &&& rect::fits(inner.right - outer.left)
    &&& rect::fits(inner.top - outer.top)
    &&& rect::fits(inner.bottom - outer.top)
}

/// A rectangle relative to the corner of a frame.
pub open spec fn related(inner: Rect, outer: Rect) -> Rect {
    Rect {
        left: (inner.left - outer.left) as i32,
        top: (inner.top - outer.top) as i32,
        right: (inner.right - outer.left) as i32,
        bottom: (inner.bottom - outer.top) as i32,
    }
}

/// Where and how opaque a thumbnail is drawn.
pub open spec fn thumbnail(
    inner: Rect,
    outer: Rect,
    opacity: Option<OpacityValue>,
) -> ThumbnailProperties {
    ThumbnailProperties {
        // Destination, visibility and source area, and opacity where it is
        // given.
        flags: if opacity is Some {
            1u32 | 8u32 | 16u32 | 4u32
        } else {
            1u32 | 8u32 | 16u32
        },
        destination: related(inner, outer),
        opacity: match opacity {
            Some(opacity) => opacity.alpha,
            None => u8::MAX,
        },
        visible: true,
        // The whole frame, title bar included, matching the frame rect the
        // animation is computed from.
        source_client_area_only: false,
    }
}

/// An overlay window.
///
/// On Windows, a popup that the compositor paints a live thumbnail of the
/// source window into. A thumbnail is drawn from the source's own surface, so
/// it keeps rendering while the source is transparent or cloaked, costs no
/// capture, and shows the window exactly as it looks when handed back.
#[derive(Clone, Copy, Debug, PartialEq, Eq, Structural)]
pub struct AnimationWindow {
    pub handle: isize,
    pub thumbnail: isize,
    /// Frame of the overlay.
    pub outer_rect: Rect,
    pub dispatcher: Dispatcher,
}

impl AnimationWindow {
    /// An overlay made of a window and the thumbnail registered for it.
    pub fn new(
        handle: isize,
        thumbnail: isize,
        outer_rect: &Rect,
        dispatcher: &Dispatcher,
    ) -> (window: Self)
        ensures
            window == (AnimationWindow {
                handle,
                thumbnail,
                outer_rect: *outer_rect,
                dispatcher: *dispatcher,
            }),
    {
        AnimationWindow {
            handle,
            thumbnail,
            outer_rect: *outer_rect,
            dispatcher: *dispatcher,
        }
    }

    /// Where to create or move a window so that it fills `rect`.
    pub fn placement(rect: &Rect) -> (placement: WindowPlacement)
        requires
            rect.measurable(),
        ensures
            placement == (WindowPlacement {
                x: rect.left,
                y: rect.top,
                width: rect.spec_width() as i32,
                height: rect.spec_height() as i32,
            }),
    {
        WindowPlacement { x: rect.x(), y: rect.y(), width: rect.width(), height: rect.height() }
    }

    /// The handle of a window that was created, or the error that none was.
    pub fn created(handle: isize) -> (created: Result<isize, PlatformError>)
        ensures
            created == (if handle == 0 {
                Err::<isize, PlatformError>(PlatformError::WindowCreation)
            } else {
                Ok(handle)
            }),
    {
        if handle == 0 {
            return Err(PlatformError::WindowCreation);
        }
        Ok(handle)
    }

    /// Gives the overlay another frame. Returns where to move its window.
    pub fn resize(&mut self, outer_rect: &Rect) -> (placement: WindowPlacement)
        requires
            outer_rect.measurable(),
        ensures
            *final(self) == (AnimationWindow { outer_rect: *outer_rect, ..*old(self) }),
            placement == (WindowPlacement {
                x: outer_rect.left,
                y: outer_rect.top,
                width: outer_rect.spec_width() as i32,
                height: outer_rect.spec_height() as i32,
            }),
    {
        self.outer_rect = *outer_rect;
        Self::placement(outer_rect)
    }

    /// Works out how to draw the window at `inner_rect`.
    pub fn update(
        &self,
        inner_rect: &Rect,
        opacity: Option<OpacityValue>,
    ) -> (properties: ThumbnailProperties)
        requires
            can_relate(*inner_rect, self.outer_rect),
        ensures
            properties == thumbnail(*inner_rect, self.outer_rect, opacity),
    {
        Self::thumbnail_properties(inner_rect, &self.outer_rect, opacity)
    }

    /// Where and how opaque a thumbnail is drawn within the window.
    ///
    /// `inner_rect` is in screen coordinates and lands relative to
    /// `outer_rect`, the window's frame. The source is scaled to fit.
    pub fn thumbnail_properties(
        inner_rect: &Rect,
        outer_rect: &Rect,
        opacity: Option<OpacityValue>,
    ) -> (properties: ThumbnailProperties)
        requires
            can_relate(*inner_rect, *outer_rect),
        ensures
            properties == thumbnail(*inner_rect, *outer_rect, opacity),
    {
        let mut properties = ThumbnailProperties {
            flags: win32::dwm_tnp_rectdestination() | win32::dwm_tnp_visible()
                | win32::dwm_tnp_sourceclientareaonly(),
            destination: Rect {
                left: inner_rect.left - outer_rect.left,
                top: inner_rect.top - outer_rect.top,
                right: inner_rect.right - outer_rect.left,
                bottom: inner_rect.bottom - outer_rect.top,
            },
            opacity: u8::MAX,
            visible: true,
            source_client_area_only: false,
        };
        if let Some(opacity) = opacity {
            properties.flags = properties.flags | win32::dwm_tnp_opacity();
            properties.opacity = opacity.to_alpha();
        }
        properties
    }

    /// What the overlay answers to a message, or `None` if it is left to the
    /// default. Routes all mouse inputs to the window below.
    pub fn overlay_wnd_proc(message: u32) -> (answer: Option<isize>)
        ensures
            answer == (if message == 132 {
                Some(-1isize)
            } else {
                None
            }),
    {
        if message == win32::wm_nchittest() {
            Some(win32::httransparent() as isize)
        } else {
            None
        }
    }

    /// The frame of the layer that shows the window at `inner_rect`, within an
    /// overlay on macOS: relative to the overlay and with its origin at the
    /// bottom left.
    pub fn layer_frame(inner_rect: &Rect, outer_rect: &Rect) -> (frame: Rect)
        requires
            inner_rect.measurable(),
            can_relate(*inner_rect, *outer_rect),
            rect::fits(outer_rect.spec_height()),
            rect::fits(outer_rect.bottom - inner_rect.top),
            rect::fits(outer_rect.bottom - inner_rect.bottom),
        ensures
            frame.left == inner_rect.left - outer_rect.left,
            frame.right == inner_rect.right - outer_rect.left,
            frame.top == outer_rect.bottom - inner_rect.bottom,
            frame.bottom == outer_rect.bottom - inner_rect.top,
    {
        let offset_rect: Rect = Rect::from_xy(
            inner_rect.x() - outer_rect.x(),
            inner_rect.y() - outer_rect.y(),
            inner_rect.width(),
            inner_rect.height(),
        );
        offset_rect.flip_y(outer_rect.height())
    }
}

/// The control points of the cubic curve that an easing follows, in
/// thousandths.
///
/// Core Animation expresses easing as a timing curve rather than a per-frame
/// function, so each variant maps to the curve that matches it most closely.
pub open spec fn timing_curve(easing: EasingFunction) -> (u32, u32, u32, u32) {
    match easing {
        EasingFunction::Linear => (0, 0, 1000, 1000),
        EasingFunction::EaseIn => (550, 85, 680, 530),
        EasingFunction::EaseOut => (250, 460, 450, 940),
        EasingFunction::EaseInOut => (455, 30, 515, 955),
        EasingFunction::EaseInCubic => (550, 55, 675, 190),
        EasingFunction::EaseOutCubic => (215, 610, 355, 1000),
        EasingFunction::EaseInOutCubic => (645, 45, 355, 1000),
    }
}

/// Cubic Bezier control points for an [`EasingFunction`], in thousandths.
pub fn control_points(easing: &EasingFunction) -> (points: (u32, u32, u32, u32))
    ensures
        points == timing_curve(*easing),
{
    match easing {
        EasingFunction::Linear => (0, 0, 1000, 1000),
        EasingFunction::EaseIn => (550, 85, 680, 530),
        EasingFunction::EaseOut => (250, 460, 450, 940),
        EasingFunction::EaseInOut => (455, 30, 515, 955),
        EasingFunction::EaseInCubic => (550, 55, 675, 190),
        EasingFunction::EaseOutCubic => (215, 610, 355, 1000),
        EasingFunction::EaseInOutCubic => (645, 45, 355, 1000),
    }
}

/// A timing curve stays between the start and the end of its animation.
pub proof fn law_timing_curves_stay_in_range(easing: EasingFunction)
    ensures
        timing_curve(easing).0 <= 1000,
        timing_curve(easing).1 <= 1000,
        timing_curve(easing).2 <= 1000,
        timing_curve(easing).3 <= 1000,
{
}

/// Whatever part of the way a window has gone, it is drawn inside an overlay
/// that covers the whole way, and keeps its size.
pub proof fn law_windows_are_drawn_inside_their_overlay(inner: Rect, outer: Rect)
    requires
        can_relate(inner, outer),
        outer.left <= inner.left,
        outer.top <= inner.top,
        inner.right <= outer.right,
        inner.bottom <= outer.bottom,
    ensures
        ({
            let drawn = related(inner, outer);
            &&& 0 <= drawn.left
            &&& 0 <= drawn.top
            &&& drawn.right <= outer.spec_width()
            &&& drawn.bottom <= outer.spec_height()
            &&& drawn.spec_width() == inner.spec_width()
            &&& drawn.spec_height() == inner.spec_height()
        }),
{
}

/// The flags tell that an opacity is given exactly when it is.
pub proof fn law_opacity_is_flagged(inner: Rect, outer: Rect, opacity: Option<OpacityValue>)
    ensures
        thumbnail(inner, outer, opacity).flags & 4u32 != 0 <==> opacity is Some,
        thumbnail(inner, outer, opacity).flags & (1u32 | 8u32 | 16u32) == (1u32 | 8u32 | 16u32),
        opacity is None ==> thumbnail(inner, outer, opacity).opacity == u8::MAX,
{
    assert((1u32 | 8u32 | 16u32 | 4u32) & 4u32 != 0) by (bit_vector);
    assert((1u32 | 8u32 | 16u32) & 4u32 == 0) by (bit_vector);
    assert((1u32 | 8u32 | 16u32 | 4u32) & (1u32 | 8u32 | 16u32) == (1u32 | 8u32 | 16u32))
        by (bit_vector);
    assert((1u32 | 8u32 | 16u32) & (1u32 | 8u32 | 16u32) == (1u32 | 8u32 | 16u32)) by (bit_vector);
}

/// A rectangle relative to a frame is found by moving it back by the frame's
/// corner, each edge by as much.
pub proof fn law_rectangles_are_told_from_the_corner(inner: Rect, outer: Rect)
    requires
        can_relate(inner, outer),
    ensures
        ({
            let drawn = related(inner, outer);
            &&& drawn.left + outer.left == inner.left
            &&& drawn.right + outer.left == inner.right
            &&& drawn.top + outer.top == inner.top
            &&& drawn.bottom + outer.top == inner.bottom
        }),
{
}

/// A thumbnail is visible and shows the whole frame of its window, where the
/// window would be in the overlay, as opaque as asked for and else fully so.
pub proof fn law_thumbnails_show_the_whole_window(
    inner: Rect,
    outer: Rect,
    opacity: Option<OpacityValue>,
)
    requires
        can_relate(inner, outer),
    ensures
        ({
            let shown = thumbnail(inner, outer, opacity);
            &&& shown.visible
            &&& !shown.source_client_area_only
            &&& shown.destination.left == inner.left - outer.left
            &&& shown.destination.right == inner.right - outer.left
            &&& shown.destination.top == inner.top - outer.top
            &&& shown.destination.bottom == inner.bottom - outer.top
            &&& opacity is Some ==> shown.opacity == opacity->0.alpha && shown.flags == 29
            &&& opacity is None ==> shown.opacity == 255 && shown.flags == 25
        }),
{
    assert(1u32 | 8u32 | 16u32 | 4u32 == 29) by (bit_vector);
    assert(1u32 | 8u32 | 16u32 == 25) by (bit_vector);
}

/// Only the linear curve follows the diagonal. A curve that eases in leaves its
/// start below the diagonal, one that eases out starts or ends above it, and
/// one that does both leaves below and arrives above it. The cubic curves
/// leave flatter than the others, or arrive so.
pub proof fn law_timing_curves_ease_where_they_say()
    ensures
        timing_curve(EasingFunction::Linear).0 == timing_curve(EasingFunction::Linear).1,
        timing_curve(EasingFunction::Linear).2 == timing_curve(EasingFunction::Linear).3,
        timing_curve(EasingFunction::EaseIn).1 < timing_curve(EasingFunction::EaseIn).0,
        timing_curve(EasingFunction::EaseInCubic).1 < timing_curve(EasingFunction::EaseIn).1,
        timing_curve(EasingFunction::EaseInCubic).0 == timing_curve(EasingFunction::EaseIn).0,
        timing_curve(EasingFunction::EaseOut).1 > timing_curve(EasingFunction::EaseOut).0,
        timing_curve(EasingFunction::EaseOut).3 > timing_curve(EasingFunction::EaseOut).2,
        timing_curve(EasingFunction::EaseOutCubic).3 > timing_curve(EasingFunction::EaseOut).3,
        timing_curve(EasingFunction::EaseInOut).1 < timing_curve(EasingFunction::EaseInOut).0,
        timing_curve(EasingFunction::EaseInOut).3 > timing_curve(EasingFunction::EaseInOut).2,
        timing_curve(EasingFunction::EaseInOutCubic).1 < timing_curve(
            EasingFunction::EaseInOutCubic,
        ).0,
        timing_curve(EasingFunction::EaseInOutCubic).3 > timing_curve(EasingFunction::EaseInOut).3,
{
}

} // verus!
