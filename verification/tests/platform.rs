//! What comes from and goes to the operating system.

use wm::animation::OpacityValue;
use wm::application_observer::{
    app_notification_name, check_observer, register_notifications, window_notification_name,
    ApplicationObserver, CallbackStep, LiveWindow, Notification, ObservedWindow,
    RegistrationStep, RequeryStep, ResolveStep, WindowEvent, WindowEventKind,
    APP_NOTIFICATION_COUNT, AX_SUCCESS, WINDOW_NOTIFICATION_COUNT,
};
use wm::event_tap::{
    reenable_if_tap_disabled, runs_tap_loop, TapReaction, TapRunLoop, TapRunLoopCell,
    TapRunLoopUnavailable, READY_TIMEOUT_MS, TAP_DISABLED_BY_TIMEOUT, TAP_DISABLED_BY_USER_INPUT,
};
use wm::frame_clock::{sleeps_instead, wait_timeout_ms, ClockEvent, ClockStep, FrameClock};
use wm::native_window_properties::{
    handle_window_title_changed, AlphaState, NativeWindowProperties, RectDelta, WindowReadings,
};
use wm::platform::{Dispatcher, Display, NativeWindow, Platform, PlatformError, WindowId};
use wm::rect::Rect;
use wm::window_alpha_ext::{AlphaRestore, AlphaWrite, OpacityDelta, WindowAlphaExt};

/// The tap-disabled event types must match the values documented by Apple.
#[test]
fn tap_disabled_event_type_values() {
    assert_eq!(TAP_DISABLED_BY_TIMEOUT, 0xFFFF_FFFE);
    assert_eq!(TAP_DISABLED_BY_USER_INPUT, 0xFFFF_FFFF);
}

#[test]
fn disabled_taps_are_enabled_again() {
    for event_type in [TAP_DISABLED_BY_TIMEOUT, TAP_DISABLED_BY_USER_INPUT] {
        assert_eq!(reenable_if_tap_disabled(event_type, true), TapReaction::Reenable);
        assert_eq!(reenable_if_tap_disabled(event_type, false), TapReaction::NoPort);
        assert!(reenable_if_tap_disabled(event_type, false).is_handled());
    }
    assert_eq!(reenable_if_tap_disabled(10, true), TapReaction::NotDisabled);
    assert!(!reenable_if_tap_disabled(10, true).is_handled());
}

#[test]
fn the_tap_run_loop_is_started_once() {
    let mut cell = TapRunLoopCell::new();
    assert!(cell.needs_start());
    assert_eq!(cell.tap_run_loop(), None);

    let started = TapRunLoop::new(true, Some(Ok(5)));
    let run_loop = started.unwrap();
    assert_eq!(run_loop.dispatcher().dispatch_source(), Ok(5));
    cell.set_started(started);
    cell.set_started(TapRunLoop::new(false, None));
    assert!(!cell.needs_start());
    assert_eq!(cell.tap_run_loop(), Some(Ok(run_loop)));
    assert_eq!(READY_TIMEOUT_MS, 5_000);
}

#[test]
fn a_tap_run_loop_that_failed_is_reported() {
    assert_eq!(TapRunLoop::new(false, Some(Ok(5))), Err(PlatformError::ThreadSpawn));
    assert_eq!(TapRunLoop::new(true, None), Err(PlatformError::ChannelRecv));
    let stopped = TapRunLoop::new(true, Some(Err(PlatformError::EventLoopStopped)));
    assert_eq!(stopped, Err(PlatformError::EventLoopStopped));

    let mut cell = TapRunLoopCell::new();
    cell.set_started(stopped);
    assert_eq!(
        cell.tap_run_loop(),
        Some(Err(TapRunLoopUnavailable { cause: PlatformError::EventLoopStopped }))
    );
    assert!(runs_tap_loop(true, true));
    assert!(!runs_tap_loop(false, true));
    assert!(!runs_tap_loop(true, false));
}

#[test]
fn mocks_stand_for_nothing() {
    assert_eq!(Dispatcher::mock().dispatch_source(), Err(PlatformError::EventLoopStopped));
    assert_eq!(NativeWindow::mock().handle, 0);
    assert_eq!(Display::mock().handle, 0);
}

#[test]
fn a_clock_ticks_until_it_is_stopped() {
    let mut clock = FrameClock::start(144);
    assert_eq!(clock.rate(), 144);
    assert_eq!(clock.next(ClockEvent::Started), ClockStep::WaitForFrame);
    assert_eq!(clock.next(ClockEvent::FrameWaited), ClockStep::Tick);
    assert_eq!(clock.next(ClockEvent::Ticked { goes_on: true }), ClockStep::WaitForFrame);
    assert_eq!(clock.next(ClockEvent::Ticked { goes_on: false }), ClockStep::Exit);
    clock.stop();
    assert_eq!(clock.next(ClockEvent::Started), ClockStep::Exit);
    assert_eq!(clock.next(ClockEvent::FrameWaited), ClockStep::Exit);
    assert_eq!(clock.next(ClockEvent::Ticked { goes_on: true }), ClockStep::Exit);
    assert_eq!(FrameClock::start(0).rate(), 1);
}

#[test]
fn waits_for_a_frame_are_bounded() {
    assert_eq!(wait_timeout_ms(16_666_667), 64);
    assert_eq!(wait_timeout_ms(999_999), 1);
    assert_eq!(wait_timeout_ms(0), 1);
    assert_eq!(wait_timeout_ms(2_000_000_000 * 1_000_000), u32::MAX);
    assert_eq!(wait_timeout_ms((0x1_0000_0000 + 3) * 1_000_000), 12);
}

#[test]
fn a_frame_is_slept_for_when_the_wait_fails() {
    // Signalled and timed out are the good ends of a wait.
    assert!(!sleeps_instead(0));
    assert!(!sleeps_instead(0x102));
    assert!(sleeps_instead(0xFFFF_FFFF));
    assert!(sleeps_instead(1));
}

fn readings() -> WindowReadings {
    WindowReadings {
        title: Ok("title".to_string()),
        class_name: Ok("class".to_string()),
        bundle_id: Some("bundle".to_string()),
        process_name: Ok("process".to_string()),
        frame: Ok(Rect::from_xy(1, 2, 3, 4)),
        is_minimized: Ok(false),
        is_maximized: Ok(true),
        is_resizable: Ok(true),
        shadow_borders: Ok(RectDelta { left: 7, top: 0, right: 7, bottom: 7 }),
    }
}

fn properties() -> NativeWindowProperties {
    NativeWindowProperties::try_from(readings(), Platform::Windows, 0).ok().unwrap()
}

#[test]
fn properties_are_taken_down_by_platform() {
    let window = properties();
    assert_eq!(window.title, "title");
    assert_eq!(window.class_name, Some("class".to_string()));
    assert_eq!(window.bundle_id, None);
    assert_eq!(window.process_name, "process");
    assert_eq!(window.frame, Rect::from_xy(1, 2, 3, 4));
    assert!(!window.is_minimized && window.is_maximized && window.is_resizable);
    assert_eq!(window.shadow_borders, Some(RectDelta { left: 7, top: 0, right: 7, bottom: 7 }));
    assert_eq!(window.alpha_state, AlphaState::Untouched);

    let failed = PlatformError::EventLoopStopped;
    let on_macos = WindowReadings {
        class_name: Err(failed),
        shadow_borders: Err(failed),
        ..readings()
    };
    let window = NativeWindowProperties::try_from(on_macos, Platform::MacOs, 9).ok().unwrap();
    assert_eq!(window.class_name, None);
    assert_eq!(window.bundle_id, Some("bundle".to_string()));
    assert_eq!(window.shadow_borders, None);
    assert_eq!(window.title_read_at, 9);
}

#[test]
fn the_first_failed_reading_is_the_error() {
    let first = PlatformError::EventLoopStopped;
    let second = PlatformError::InvalidPointer;
    let error = |readings| NativeWindowProperties::try_from(readings, Platform::Windows, 0).err();
    assert_eq!(
        error(WindowReadings { title: Err(first), class_name: Err(second), ..readings() }),
        Some(first)
    );
    assert_eq!(
        error(WindowReadings { class_name: Err(first), process_name: Err(second), ..readings() }),
        Some(first)
    );
    assert_eq!(
        error(WindowReadings { process_name: Err(first), frame: Err(second), ..readings() }),
        Some(first)
    );
    assert_eq!(
        error(WindowReadings { frame: Err(first), is_minimized: Err(second), ..readings() }),
        Some(first)
    );
    assert_eq!(
        error(WindowReadings { is_minimized: Err(first), is_maximized: Err(second), ..readings() }),
        Some(first)
    );
    assert_eq!(
        error(WindowReadings { is_maximized: Err(first), is_resizable: Err(second), ..readings() }),
        Some(first)
    );
    assert_eq!(
        error(WindowReadings {
            is_resizable: Err(first),
            shadow_borders: Err(second),
            ..readings()
        }),
        Some(first)
    );
    assert_eq!(error(WindowReadings { shadow_borders: Err(second), ..readings() }), Some(second));
}

#[test]
fn borders_grow_a_frame() {
    let borders = RectDelta { left: 7, top: 0, right: 7, bottom: 8 };
    assert_eq!(
        borders.apply_to(&Rect::from_xy(100, 50, 300, 200)),
        Rect::from_xy(93, 50, 314, 208)
    );
}

#[test]
fn properties_can_be_copied_and_shown() {
    let window = properties();
    assert_eq!(format!("{:?}", window.clone()), format!("{window:?}"));
}

#[test]
fn titles_are_read_once_per_gap() {
    let mut window = properties();
    assert!(!handle_window_title_changed(None, 1_000_000_000));
    assert!(!handle_window_title_changed(Some(&window), 199_999_999));
    assert!(handle_window_title_changed(Some(&window), 200_000_000));

    // A title that could not be read leaves everything as it was.
    assert!(!window.title_read(None, 300_000_000));
    assert_eq!(window.title, "title");
    assert_eq!(window.title_read_at, 0);

    assert!(window.title_read(Some("new".to_string()), 300_000_000));
    assert_eq!(window.title, "new");
    assert!(!handle_window_title_changed(Some(&window), 499_999_999));
    assert!(handle_window_title_changed(Some(&window), 500_000_000));
    assert!(!handle_window_title_changed(Some(&window), 0));
}

#[test]
fn alpha_is_handed_back_as_it_was() {
    let opacity = OpacityValue::from_alpha(128);
    let delta = OpacityDelta { amount: opacity, is_negative: true };

    let mut plain = properties();
    assert_eq!(plain.restore_opacity(), AlphaRestore::Nothing);
    assert_eq!(plain.set_alpha(opacity, false), AlphaWrite::Replace(opacity));
    assert_eq!(plain.alpha_state, AlphaState::Layered);
    // Later writes find the window layered, but it was not to begin with.
    assert_eq!(plain.adjust_alpha(delta, true), AlphaWrite::Adjust(delta));
    assert_eq!(plain.alpha_state, AlphaState::Layered);
    assert_eq!(plain.restore_opacity(), AlphaRestore::RemoveLayered);
    plain.opacity_restored();
    assert_eq!(plain.alpha_state, AlphaState::Untouched);

    let mut layered = properties();
    layered.adjust_alpha(delta, true);
    assert_eq!(layered.alpha_state, AlphaState::Written);
    assert_eq!(
        layered.restore_opacity(),
        AlphaRestore::SetAlpha(OpacityValue::from_alpha(255))
    );
}

fn observed(id: u32, element: u64) -> ObservedWindow {
    ObservedWindow { id: WindowId(id), element }
}

fn event(id: u32, kind: WindowEventKind, from_notification: bool) -> WindowEvent {
    WindowEvent { window: WindowId(id), kind, from_notification }
}

fn observer() -> ApplicationObserver {
    ApplicationObserver::new(42, Some(vec![observed(1, 10), observed(2, 20)])).0
}

#[test]
fn existing_windows_are_shown_at_first() {
    let (observer, events) =
        ApplicationObserver::new(42, Some(vec![observed(1, 10), observed(2, 20)]));
    assert_eq!(observer.pid, 42);
    assert_eq!(
        events,
        vec![event(1, WindowEventKind::Shown, false), event(2, WindowEventKind::Shown, false)]
    );
    let (observer, events) = ApplicationObserver::new(42, None);
    assert!(observer.app_windows.is_empty());
    assert!(events.is_empty());
}

#[test]
fn all_windows_are_told_together() {
    let observer = observer();
    assert_eq!(
        observer.emit_all_windows_destroyed(),
        vec![
            event(1, WindowEventKind::Destroyed, false),
            event(2, WindowEventKind::Destroyed, false)
        ]
    );
    assert_eq!(observer.emit_all_windows_hidden()[1], event(2, WindowEventKind::Hidden, false));
    assert_eq!(observer.emit_all_windows_shown()[0], event(1, WindowEventKind::Shown, false));
}

#[test]
fn notifications_about_known_windows_become_events() {
    let observer = observer();
    let expected = [
        ("AXFocusedWindowChanged", WindowEventKind::Focused),
        (
            "AXWindowMoved",
            WindowEventKind::MovedOrResized {
                is_interactive_start: false,
                is_interactive_end: false,
            },
        ),
        (
            "AXWindowResized",
            WindowEventKind::MovedOrResized {
                is_interactive_start: false,
                is_interactive_end: false,
            },
        ),
        ("AXWindowMiniaturized", WindowEventKind::Minimized),
        ("AXWindowDeminiaturized", WindowEventKind::MinimizeEnded),
        ("AXTitleChanged", WindowEventKind::TitleChanged),
    ];
    for (name, kind) in expected {
        let notification = Notification::from_name(&name.to_string());
        assert_eq!(
            observer.window_event_callback(notification, 20),
            CallbackStep::Emit(event(2, kind, true))
        );
    }
    let created = Notification::from_name(&"AXWindowCreated".to_string());
    assert_eq!(created, Notification::Other);
    assert_eq!(observer.window_event_callback(created, 20), CallbackStep::Ignore);
}

#[test]
fn new_elements_are_resolved_and_shown() {
    let mut observer = observer();
    assert_eq!(
        observer.window_event_callback(Notification::FocusedWindowChanged, 30),
        CallbackStep::Resolve
    );
    assert_eq!(
        observer.element_resolved(Notification::FocusedWindowChanged, 30, None),
        ResolveStep::Ignore
    );
    assert_eq!(observer.app_windows.len(), 2);
    assert_eq!(
        observer.element_resolved(Notification::FocusedWindowChanged, 30, Some(WindowId(3))),
        ResolveStep::Observe {
            window: WindowId(3),
            shown: event(3, WindowEventKind::Shown, true),
            event: Some(event(3, WindowEventKind::Focused, true)),
        }
    );
    assert_eq!(observer.app_windows[2], observed(3, 30));
    assert_eq!(
        observer.window_event_callback(Notification::TitleChanged, 30),
        CallbackStep::Emit(event(3, WindowEventKind::TitleChanged, true))
    );
    assert_eq!(
        observer.element_resolved(Notification::Other, 40, Some(WindowId(4))),
        ResolveStep::Observe {
            window: WindowId(4),
            shown: event(4, WindowEventKind::Shown, true),
            event: None,
        }
    );
}

#[test]
fn destroyed_elements_are_looked_into() {
    let mut observer = observer();
    assert_eq!(
        observer.window_event_callback(Notification::Destroyed, 99),
        CallbackStep::Ignore
    );
    assert_eq!(
        observer.window_event_callback(Notification::Destroyed, 20),
        CallbackStep::Requery { at: 1 }
    );

    assert_eq!(observer.window_requeried(1, None), RequeryStep::Ignore);
    assert_eq!(observer.app_windows.len(), 2);

    // The window lives on behind another element.
    let live = vec![
        LiveWindow { id: WindowId(1), element: Some(10) },
        LiveWindow { id: WindowId(2), element: Some(21) },
    ];
    assert_eq!(
        observer.window_requeried(1, Some(live)),
        RequeryStep::Rebind { element: 21 }
    );
    observer.element_rebound(1, 21);
    assert_eq!(observer.app_windows, vec![observed(1, 10), observed(2, 21)]);

    // Now it is gone.
    let live = vec![LiveWindow { id: WindowId(1), element: Some(10) }];
    assert_eq!(
        observer.window_requeried(1, Some(live)),
        RequeryStep::Emit(event(2, WindowEventKind::Destroyed, true))
    );
    assert_eq!(observer.app_windows, vec![observed(1, 10)]);

    // A window whose element cannot be read is as good as gone.
    let live = vec![LiveWindow { id: WindowId(1), element: None }];
    assert_eq!(
        observer.window_requeried(0, Some(live)),
        RequeryStep::Emit(event(1, WindowEventKind::Destroyed, true))
    );
    assert!(observer.app_windows.is_empty());
}

#[test]
fn notifications_are_registered_up_to_the_first_failure() {
    assert_eq!(app_notification_name(0), "AXFocusedWindowChanged");
    assert_eq!(app_notification_name(1), "AXWindowCreated");
    let names: Vec<&str> = (0..WINDOW_NOTIFICATION_COUNT).map(window_notification_name).collect();
    assert_eq!(
        names,
        vec![
            "AXTitleChanged",
            "AXUIElementDestroyed",
            "AXWindowMoved",
            "AXWindowResized",
            "AXWindowDeminiaturized",
            "AXWindowMiniaturized",
        ]
    );
    let count = APP_NOTIFICATION_COUNT;
    assert_eq!(register_notifications(count, &vec![]), RegistrationStep::Register(0));
    assert_eq!(register_notifications(count, &vec![AX_SUCCESS]), RegistrationStep::Register(1));
    assert_eq!(
        register_notifications(count, &vec![AX_SUCCESS, AX_SUCCESS]),
        RegistrationStep::Done
    );
    assert_eq!(
        register_notifications(count, &vec![AX_SUCCESS, -25204]),
        RegistrationStep::Failed(PlatformError::Notification(1, -25204))
    );
}

#[test]
fn observers_that_cannot_be_used_are_errors() {
    assert_eq!(check_observer(AX_SUCCESS, false, true), Ok(()));
    assert_eq!(check_observer(-25200, true, false), Err(PlatformError::Accessibility(-25200)));
    assert_eq!(check_observer(AX_SUCCESS, true, false), Err(PlatformError::InvalidPointer));
    assert_eq!(check_observer(AX_SUCCESS, false, false), Err(PlatformError::EventLoopStopped));
}
