//! Animating windows.

use std::collections::{HashMap, HashSet};

use wm::animation::{
    AnimationEffectConfig, AnimationTrigger, AnimationsConfig, EasingFunction, OpacityValue,
    Progress, SlideDirection, WindowAnimationState, WindowMoveConfig,
};
use wm::animation_manager::{
    AnimatedWindow, AnimationError, AnimationManager, DisplayState, OverlayAction, TickChange,
    WindowState, DEFAULT_FRAME_RATE, OVERLAY_LINGER_MS,
};
use wm::animation_window::{
    control_points, AnimationContext, AnimationWindow, WindowPlacement,
};
use wm::platform::{Dispatcher, Platform, PlatformError, WindowId};
use wm::rect::Rect;

const MS: u64 = 1_000_000;

const EFFECT: AnimationEffectConfig =
    AnimationEffectConfig { duration_ms: 140, easing: EasingFunction::EaseOut };

const OPEN: AnimationEffectConfig =
    AnimationEffectConfig { duration_ms: 100, easing: EasingFunction::Linear };

const SWITCH: AnimationEffectConfig =
    AnimationEffectConfig { duration_ms: 250, easing: EasingFunction::EaseInOutCubic };

fn config() -> AnimationsConfig {
    AnimationsConfig {
        window_open: Some(OPEN),
        window_move: Some(WindowMoveConfig { effect: EFFECT, trigger_threshold: 10 }),
        workspace_switch: Some(SWITCH),
    }
}

fn window(id: u128) -> AnimatedWindow {
    AnimatedWindow {
        id,
        state: WindowState::Tiling,
        is_minimized: false,
        is_maximized: false,
        is_in_corner: false,
        frame: Rect::from_xy(0, 0, 100, 100),
    }
}

fn manager() -> AnimationManager {
    AnimationManager::new(Platform::Windows, false)
}

/// Starts an animation and brings up its overlay.
fn start(
    manager: &mut AnimationManager,
    id: u128,
    target: Rect,
    rate: Option<u32>,
    is_slide: bool,
    now: u64,
) -> TickChange {
    let path = manager.start_animation(
        &window(id),
        &EFFECT,
        target,
        rate,
        None,
        Some(Rect::from_xy(7, 7, 7, 7)),
        is_slide,
        now,
    );
    manager.plan_overlay(id, path, None);
    manager.context_created();
    manager.overlay_ready(id, now)
}

#[test]
fn slides_move_by_a_monitor_width() {
    let monitor = Rect::from_xy(0, 0, 1920, 1080);
    let tile = Rect::from_xy(10, 20, 300, 400);
    assert_eq!(SlideDirection::Left.offset(&tile, &monitor), Rect::from_xy(-1910, 20, 300, 400));
    assert_eq!(SlideDirection::Right.offset(&tile, &monitor), Rect::from_xy(1930, 20, 300, 400));
}

#[test]
fn opposite_slides_cancel() {
    let monitor = Rect::from_xy(0, 0, 1920, 1080);
    let tile = Rect::from_xy(10, 20, 300, 400);
    for direction in [SlideDirection::Left, SlideDirection::Right] {
        assert_ne!(direction, direction.opposite());
        assert_eq!(direction.opposite().opposite(), direction);
        let there = direction.offset(&tile, &monitor);
        assert_eq!(direction.opposite().offset(&there, &monitor), tile);
    }
}

#[test]
fn a_later_workspace_sends_the_content_left() {
    assert_eq!(SlideDirection::between(0, 1), SlideDirection::Left);
    assert_eq!(SlideDirection::between(1, 0), SlideDirection::Right);
    assert_eq!(SlideDirection::between(1, 1), SlideDirection::Right);
}

#[test]
fn progress_runs_from_start_to_complete() {
    let from = Rect::from_xy(0, 0, 100, 100);
    let to = Rect::from_xy(50, 0, 100, 100);
    let state = WindowAnimationState::new(from, to, &EFFECT, 60, false, 1_000 * MS);
    assert_eq!(state.duration, 140 * MS);
    assert_eq!(state.progress(900 * MS), Progress::Partial { elapsed_ms: 0, duration_ms: 140 });
    assert_eq!(
        state.progress(1_070 * MS + MS / 2),
        Progress::Partial { elapsed_ms: 70, duration_ms: 140 }
    );
    assert!(!state.is_complete(1_140 * MS - 1));
    assert!(state.is_complete(1_140 * MS));
    assert_eq!(state.progress(2_000 * MS), Progress::Complete);
    assert!(state.is_translation());
    assert_eq!(state.opacity_range(), None);
}

#[test]
fn opacity_is_animated_between_both_ends_only() {
    let rect = Rect::from_xy(0, 0, 1, 1);
    let mut state = WindowAnimationState::new(rect, rect, &EFFECT, 60, false, 0);
    state.start_opacity = Some(OpacityValue::from_alpha(10));
    assert_eq!(state.opacity_range(), None);
    state.target_opacity = Some(OpacityValue::from_alpha(200));
    assert_eq!(
        state.opacity_range(),
        Some((OpacityValue { alpha: 10 }, OpacityValue { alpha: 200 }))
    );
}

#[test]
fn opening_animates_once() {
    let mut manager = manager();
    let target = Rect::from_xy(0, 0, 100, 100);
    let trigger = AnimationTrigger::WindowOpened;
    assert_eq!(
        manager.animation_effect_for_window(&window(1), trigger, &target, &config()),
        Some(OPEN)
    );
    start(&mut manager, 1, target, None, false, 0);
    assert_eq!(
        manager.animation_effect_for_window(&window(1), trigger, &target, &config()),
        None
    );
}

#[test]
fn moves_below_the_threshold_are_not_animated() {
    let manager = manager();
    let trigger = AnimationTrigger::WindowMoved;
    // Three pixels right, two down, three wider and two taller make ten.
    let near = Rect::from_xy(3, 2, 103, 102);
    let far = Rect::from_xy(3, 2, 103, 103);
    assert_eq!(manager.animation_effect_for_window(&window(1), trigger, &near, &config()), None);
    assert_eq!(
        manager.animation_effect_for_window(&window(1), trigger, &far, &config()),
        Some(EFFECT)
    );
    let none = AnimationsConfig { window_move: None, ..config() };
    assert_eq!(manager.animation_effect_for_window(&window(1), trigger, &far, &none), None);
}

#[test]
fn a_moving_window_is_measured_from_its_target() {
    let mut manager = manager();
    let trigger = AnimationTrigger::WindowMoved;
    let target = Rect::from_xy(500, 0, 100, 100);
    start(&mut manager, 1, target, None, false, 0);
    assert_eq!(manager.animation_effect_for_window(&window(1), trigger, &target, &config()), None);
    let back = Rect::from_xy(0, 0, 100, 100);
    assert_eq!(
        manager.animation_effect_for_window(&window(1), trigger, &back, &config()),
        Some(EFFECT)
    );
}

#[test]
fn a_slide_is_not_interrupted_by_a_redraw() {
    let mut manager = manager();
    start(&mut manager, 1, Rect::from_xy(-1920, 0, 100, 100), None, true, 0);
    let tile = Rect::from_xy(0, 0, 100, 100);
    assert_eq!(
        manager.animation_effect_for_window(
            &window(1),
            AnimationTrigger::WindowMoved,
            &tile,
            &config()
        ),
        None
    );
    assert_eq!(
        manager.animation_effect_for_window(
            &window(1),
            AnimationTrigger::WorkspaceEntering(SlideDirection::Left),
            &tile,
            &config()
        ),
        Some(SWITCH)
    );
}

#[test]
fn windows_that_cannot_be_animated_are_left_alone() {
    let trigger = AnimationTrigger::WorkspaceLeaving(SlideDirection::Right);
    let target = Rect::from_xy(900, 0, 100, 100);
    let mut on_windows = manager();
    let on_macos = AnimationManager::new(Platform::MacOs, false);

    let minimized = AnimatedWindow { is_minimized: true, ..window(1) };
    let fullscreen = AnimatedWindow { state: WindowState::Fullscreen, ..window(1) };
    let maximized = AnimatedWindow { is_maximized: true, ..window(1) };
    let parked = AnimatedWindow { is_in_corner: true, ..window(1) };

    let effect = |manager: &AnimationManager, window: &AnimatedWindow| {
        manager.animation_effect_for_window(window, trigger, &target, &config())
    };
    assert_eq!(effect(&on_windows, &minimized), None);
    assert_eq!(effect(&on_windows, &fullscreen), None);
    assert_eq!(effect(&on_windows, &maximized), Some(SWITCH));
    assert_eq!(effect(&on_macos, &maximized), None);
    assert_eq!(effect(&on_windows, &parked), None);

    start(&mut on_windows, 1, target, None, false, 0);
    assert_eq!(effect(&on_windows, &parked), Some(SWITCH));
}

#[test]
fn the_fastest_animation_sets_the_tick_rate() {
    let mut manager = manager();
    let target = Rect::from_xy(500, 0, 100, 100);
    assert_eq!(
        start(&mut manager, 1, target, Some(60), false, 0),
        TickChange::Start { frame_time_ms: 16, replaces: false }
    );
    assert_eq!(start(&mut manager, 2, target, Some(60), false, 0), TickChange::Keep);
    assert_eq!(
        start(&mut manager, 3, target, Some(144), false, 0),
        TickChange::Start { frame_time_ms: 6, replaces: true }
    );

    let teardown = manager.destroy_animation(3);
    assert_eq!(teardown.tick, TickChange::Start { frame_time_ms: 16, replaces: true });
    assert!(teardown.overlay);
    assert_eq!(manager.destroy_animation(1).tick, TickChange::Keep);
    assert_eq!(manager.destroy_animation(2).tick, TickChange::Stop);
    let nothing = manager.destroy_animation(2);
    assert_eq!(nothing.tick, TickChange::Keep);
    assert!(!nothing.overlay);
    assert_eq!(OVERLAY_LINGER_MS, 20);
}

#[test]
fn frames_shorter_than_a_millisecond_count_as_none() {
    let mut manager = manager();
    let target = Rect::from_xy(500, 0, 100, 100);
    assert_eq!(
        start(&mut manager, 1, target, Some(1_000), false, 0),
        TickChange::Start { frame_time_ms: 1, replaces: false }
    );
    assert_eq!(
        start(&mut manager, 2, target, Some(1_001), false, 0),
        TickChange::Start { frame_time_ms: 0, replaces: true }
    );
}

#[test]
fn completed_animations_are_told() {
    let mut manager = manager();
    let target = Rect::from_xy(500, 0, 100, 100);
    start(&mut manager, 1, target, None, false, 0);
    start(&mut manager, 2, target, None, false, 100 * MS);
    assert_eq!(manager.completed_ids(139 * MS), HashSet::new());
    assert_eq!(manager.completed_ids(140 * MS), HashSet::from([1]));
    assert_eq!(manager.completed_ids(240 * MS), HashSet::from([1, 2]));
    assert!(manager.is_animating(1));
    assert!(!manager.is_animating(3));
}

#[test]
fn a_tick_draws_running_animations() {
    let mut manager = manager();
    let states = HashMap::from([
        (1, DisplayState::Shown),
        (2, DisplayState::Hidden),
        (3, DisplayState::Showing),
    ]);
    // Nothing is animated, so nothing is drawn, with or without a context.
    assert!(matches!(manager.tick_update(0, &states), Ok(None)));

    manager.start_animation(
        &window(1),
        &EFFECT,
        Rect::from_xy(500, 0, 100, 100),
        None,
        None,
        None,
        false,
        0,
    );
    assert_eq!(
        manager.tick_update(0, &states).err(),
        Some(AnimationError::ContextNotInitialized)
    );
    manager.context_created();
    let bare = manager.tick_update(0, &states).ok().unwrap().unwrap();
    assert_eq!(bare.active, vec![1]);
    assert!(bare.overlays.is_empty());

    start(&mut manager, 1, Rect::from_xy(500, 0, 7, 7), None, false, 0);
    start(&mut manager, 2, Rect::from_xy(500, 0, 100, 100), None, false, 0);
    start(&mut manager, 3, Rect::from_xy(500, 0, 200, 100), None, false, 0);
    let plan = manager.tick_update(10 * MS, &states).ok().unwrap().unwrap();
    assert_eq!(plan.overlays.iter().copied().collect::<HashSet<_>>(), HashSet::from([1, 2, 3]));
    // The second is hidden and the third changes its size.
    assert_eq!(plan.followers, vec![1]);

    // All are complete but not gone, so an empty frame is drawn.
    let late = manager.tick_update(140 * MS, &states).ok().unwrap().unwrap();
    assert!(late.active.is_empty() && late.overlays.is_empty() && late.followers.is_empty());

    for id in [1, 2, 3] {
        manager.destroy_animation(id);
    }
    assert!(matches!(manager.tick_update(0, &states), Ok(None)));
}

#[test]
fn real_windows_follow_on_windows_only() {
    let mut manager = AnimationManager::new(Platform::MacOs, false);
    start(&mut manager, 1, Rect::from_xy(500, 0, 100, 100), None, false, 0);
    let states = HashMap::from([(1, DisplayState::Shown)]);
    let plan = manager.tick_update(0, &states).ok().unwrap().unwrap();
    assert_eq!(plan.overlays, vec![1]);
    assert!(plan.followers.is_empty());
}

#[test]
fn an_animation_starts_where_the_window_appears() {
    let mut manager = manager();
    let target = Rect::from_xy(500, 0, 100, 100);
    let path = manager.start_animation(&window(1), &EFFECT, target, None, None, None, false, 5);
    assert_eq!(path, Rect::from_xy(0, 0, 600, 100));
    let state = manager.animation(1).unwrap();
    assert_eq!(state.start_rect, window(1).frame);
    assert_eq!(state.frame_rate, DEFAULT_FRAME_RATE);
    assert_eq!(state.start_time, 5);

    // Extended while it runs, it goes on from where it has got to.
    let midway = Rect::from_xy(250, 0, 100, 100);
    let back = Rect::from_xy(0, 50, 100, 100);
    manager.start_animation(&window(1), &EFFECT, back, Some(144), None, Some(midway), true, 9);
    let state = manager.animation(1).unwrap();
    assert_eq!(state.start_rect, midway);
    assert_eq!(state.target_rect, back);
    assert_eq!(state.frame_rate, 144);
    assert!(state.is_slide);

    let outside = Rect::from_xy(-1920, 0, 100, 100);
    manager.start_animation(&window(1), &EFFECT, back, None, Some(outside), Some(midway), true, 9);
    assert_eq!(manager.animation(1).unwrap().start_rect, outside);
}

#[test]
fn overlays_are_resized_or_made_from_captures() {
    let mut manager = manager();
    let request = manager.pre_capture(&vec![(1, WindowId(11)), (2, WindowId(12))]);
    assert_eq!(request.windows, vec![(1, WindowId(11)), (2, WindowId(12))]);
    assert!(request.needs_context);
    manager.context_created();
    manager.store_captures(&vec![(1, true), (2, false)]);

    let target = Rect::from_xy(500, 0, 100, 100);
    let path = manager.start_animation(&window(1), &EFFECT, target, None, None, None, false, 0);
    let plan = manager.plan_overlay(1, path, None);
    assert_eq!(plan.action, OverlayAction::CreateFromCapture);
    assert_eq!(plan.outer_rect, path);
    assert!(!plan.needs_context);
    manager.overlay_ready(1, 42);
    assert_eq!(manager.animation(1).unwrap().start_time, 42);

    assert_eq!(manager.plan_overlay(2, path, None).action, OverlayAction::CaptureAndCreate);
    assert_eq!(manager.plan_overlay(1, path, None).action, OverlayAction::Resize);

    // A window whose overlay is up is not captured again, and what was
    // captured before is dropped.
    manager.store_captures(&vec![(3, true)]);
    let request = manager.pre_capture(&vec![(1, WindowId(11))]);
    assert!(request.windows.is_empty());
    assert!(!request.needs_context);
    assert_eq!(manager.plan_overlay(3, path, None).action, OverlayAction::CaptureAndCreate);
}

#[test]
fn overlays_are_cropped_where_spaces_are_separate() {
    let path = Rect::from_xy(-100, 0, 600, 100);
    let bounds = Rect::from_xy(0, 0, 400, 400);

    let mut cropping = AnimationManager::new(Platform::MacOs, true);
    assert!(cropping.needs_display_bounds());
    let plan = cropping.plan_overlay(1, path, Some(bounds));
    assert_eq!(plan.outer_rect, Rect::from_xy(0, 0, 400, 100));
    assert!(plan.needs_context);

    let mut spanning = AnimationManager::new(Platform::MacOs, false);
    assert!(!spanning.needs_display_bounds());
    assert_eq!(spanning.plan_overlay(1, path, Some(bounds)).outer_rect, path);
    assert!(!AnimationManager::new(Platform::Windows, true).needs_display_bounds());
}

#[test]
fn thumbnails_are_drawn_relative_to_the_overlay() {
    let outer = Rect::from_xy(100, 50, 800, 600);
    let inner = Rect::from_xy(150, 60, 300, 200);
    let plain = AnimationWindow::thumbnail_properties(&inner, &outer, None);
    assert_eq!(plain.destination, Rect::from_xy(50, 10, 300, 200));
    assert_eq!(plain.opacity, 255);
    assert_eq!(plain.flags, 1 | 8 | 16);
    assert!(plain.visible);
    assert!(!plain.source_client_area_only);

    let faint = AnimationWindow::thumbnail_properties(
        &inner,
        &outer,
        Some(OpacityValue::from_alpha(100)),
    );
    assert_eq!(faint.opacity, 100);
    assert_eq!(faint.flags, 1 | 4 | 8 | 16);
}

#[test]
fn resizing_an_overlay_changes_where_it_draws() {
    let outer = Rect::from_xy(0, 0, 100, 100);
    let mut overlay = AnimationWindow::new(3, 4, &outer, &Dispatcher::mock());
    let wider = Rect::from_xy(-50, 0, 300, 100);
    assert_eq!(
        overlay.resize(&wider),
        WindowPlacement { x: -50, y: 0, width: 300, height: 100 }
    );
    assert_eq!(overlay.outer_rect, wider);
    assert_eq!(overlay.handle, 3);
    let inner = Rect::from_xy(0, 0, 100, 100);
    assert_eq!(overlay.update(&inner, None).destination, Rect::from_xy(50, 0, 100, 100));
}

#[test]
fn layers_count_from_the_bottom() {
    let outer = Rect::from_xy(100, 50, 800, 600);
    let inner = Rect::from_xy(150, 60, 300, 200);
    assert_eq!(AnimationWindow::layer_frame(&inner, &outer), Rect::from_xy(50, 390, 300, 200));
}

#[test]
fn a_window_that_was_not_created_is_an_error() {
    assert_eq!(AnimationWindow::created(0), Err(PlatformError::WindowCreation));
    assert_eq!(AnimationWindow::created(5), Ok(5));
}

#[test]
fn overlays_let_the_pointer_through() {
    // The hit test is answered; other messages are left to the default.
    assert_eq!(AnimationWindow::overlay_wnd_proc(0x0084), Some(-1));
    assert_eq!(AnimationWindow::overlay_wnd_proc(0x000F), None);
}

#[test]
fn capturing_a_live_window_always_works() {
    let context = AnimationContext::new(&Dispatcher::mock()).ok().unwrap();
    assert_eq!(context.capture_frame(WindowId(7)).ok().unwrap().window_id, WindowId(7));
}

#[test]
fn easings_have_their_curves() {
    assert_eq!(control_points(&EasingFunction::Linear), (0, 0, 1000, 1000));
    assert_eq!(control_points(&EasingFunction::EaseIn), (550, 85, 680, 530));
    assert_eq!(control_points(&EasingFunction::EaseOut), (250, 460, 450, 940));
    assert_eq!(control_points(&EasingFunction::EaseInOut), (455, 30, 515, 955));
    assert_eq!(control_points(&EasingFunction::EaseInCubic), (550, 55, 675, 190));
    assert_eq!(control_points(&EasingFunction::EaseOutCubic), (215, 610, 355, 1000));
    assert_eq!(control_points(&EasingFunction::EaseInOutCubic), (645, 45, 355, 1000));
}

#[test]
fn slides_move_as_one_sheet() {
    let monitor = Rect::from_xy(0, 0, 1920, 1080);
    let a = Rect::from_xy(0, 0, 500, 1080);
    let b = Rect::from_xy(500, 0, 1420, 1080);
    let (c, d) =
        (SlideDirection::Left.offset(&a, &monitor), SlideDirection::Left.offset(&b, &monitor));
    assert_eq!(d.left - c.left, b.left - a.left);
    assert_eq!(c.right, d.left);
}

#[test]
fn a_complete_animation_stays_complete() {
    let rect = Rect::from_xy(0, 0, 1, 1);
    let state = WindowAnimationState::new(rect, rect, &OPEN, 60, false, 10 * MS);
    assert!(state.is_complete(110 * MS));
    assert!(state.is_complete(u64::MAX));
}
