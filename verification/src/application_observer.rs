//! Following the windows of an application through the notifications that the
//! macOS accessibility service sends about them.

use vstd::prelude::*;

use crate::platform::{PlatformError, WindowId};

verus! {

/// The code of an accessibility call that succeeded.
pub const AX_SUCCESS: i32 = 0;

/// How many notifications are registered for an application.
pub const APP_NOTIFICATION_COUNT: usize = 2;

/// How many notifications are registered for a window.
pub const WINDOW_NOTIFICATION_COUNT: usize = 6;

/// A window of the application, with the number of the accessibility element
/// that stands for it. Elements that are equal have the same number.
#[derive(Clone, Copy, Debug, PartialEq, Eq, Structural)]
pub struct ObservedWindow {
    pub id: WindowId,
    pub element: u64,
}

/// What a notification is about.
#[derive(Clone, Copy, Debug, PartialEq, Eq, Structural)]
pub enum Notification {
    Destroyed,
    FocusedWindowChanged,
    Moved,
    Resized,
    Miniaturized,
    Deminiaturized,
    TitleChanged,
    /// Anything else, a new window among others.
    Other,
}

#[derive(Clone, Copy, Debug, PartialEq, Eq, Structural)]
pub enum WindowEventKind {
    Shown,
    Hidden,
    Destroyed,
    Focused,
    MovedOrResized { is_interactive_start: bool, is_interactive_end: bool },
    Minimized,
    MinimizeEnded,
    TitleChanged,
}

#[derive(Clone, Copy, Debug, PartialEq, Eq, Structural)]
pub struct WindowEvent {
    pub window: WindowId,
    pub kind: WindowEventKind,
    /// Whether the event comes with the notification that caused it.
    pub from_notification: bool,
}

/// What a notification calls for.
#[derive(Clone, Copy, Debug, PartialEq, Eq, Structural)]
pub enum CallbackStep {
    /// Nothing.
    Ignore,
    /// Some apps swap the element that backs a live window. The live windows
    /// are asked for to see whether the window at this place is really gone.
    Requery { at: usize },
    /// The element is new. It is asked which window it stands for.
    Resolve,
    /// An event.
    Emit(WindowEvent),
}

/// What asking for the live windows comes to.
#[derive(Clone, Copy, Debug, PartialEq, Eq, Structural)]
pub enum RequeryStep {
    /// They could not be told, so nothing is concluded.
    Ignore,
    /// The window lives on behind this element.
    Rebind { element: u64 },
    /// The window is gone.
    Emit(WindowEvent),
}

/// What a new window calls for.
#[derive(Clone, Copy, Debug, PartialEq, Eq, Structural)]
pub enum ResolveStep {
    /// The element stands for no window.
    Ignore,
    /// The notifications of the window are registered, and these events follow.
    Observe { window: WindowId, shown: WindowEvent, event: Option<WindowEvent> },
}

/// A window that an application has at the moment, and its element if that
/// could be read.
#[derive(Clone, Copy, Debug, PartialEq, Eq, Structural)]
pub struct LiveWindow {
    pub id: WindowId,
    pub element: Option<u64>,
}

/// What registering the next notification in a list comes to.
#[derive(Clone, Copy, Debug, PartialEq, Eq, Structural)]
pub enum RegistrationStep {
    /// The notification at this place is added.
    Register(usize),
    Done,
    Failed(PlatformError),
}

/// Represents an accessibility observer for a specific application.
pub struct ApplicationObserver {
    pub pid: i32,
    pub app_windows: Vec<ObservedWindow>,
}

/// What a notification of a given name is about.
pub open spec fn notification_named(name: Seq<char>) -> Notification {
    if name == "AXUIElementDestroyed"@ {
        Notification::Destroyed
    } else if name == "AXFocusedWindowChanged"@ {
        Notification::FocusedWindowChanged
    } else if name == "AXWindowMoved"@ {
        Notification::Moved
    } else if name == "AXWindowResized"@ {
        Notification::Resized
    } else if name == "AXWindowMiniaturized"@ {
        Notification::Miniaturized
    } else if name == "AXWindowDeminiaturized"@ {
        Notification::Deminiaturized
    } else if name == "AXTitleChanged"@ {
        Notification::TitleChanged
    } else {
        Notification::Other
    }
}

impl Notification {
    /// The event that a notification about a known window amounts to.
    pub open spec fn event_kind(self) -> Option<WindowEventKind> {
        match self {
            Notification::FocusedWindowChanged => Some(WindowEventKind::Focused),
            Notification::Moved | Notification::Resized => Some(
                WindowEventKind::MovedOrResized {
                    is_interactive_start: false,
                    is_interactive_end: false,
                },
            ),
            Notification::Miniaturized => Some(WindowEventKind::Minimized),
            Notification::Deminiaturized => Some(WindowEventKind::MinimizeEnded),
            Notification::TitleChanged => Some(WindowEventKind::TitleChanged),
            Notification::Destroyed | Notification::Other => None,
        }
    }

    /// What a notification of a given name is about.
    pub fn from_name(name: &String) -> (notification: Self)
        ensures
            notification == notification_named(name@),
    {
        if *name == "AXUIElementDestroyed".to_owned() {
            Notification::Destroyed
        } else if *name == "AXFocusedWindowChanged".to_owned() {
            Notification::FocusedWindowChanged
        } else if *name == "AXWindowMoved".to_owned() {
            Notification::Moved
        } else if *name == "AXWindowResized".to_owned() {
            Notification::Resized
        } else if *name == "AXWindowMiniaturized".to_owned() {
            Notification::Miniaturized
        } else if *name == "AXWindowDeminiaturized".to_owned() {
            Notification::Deminiaturized
        } else if *name == "AXTitleChanged".to_owned() {
            Notification::TitleChanged
        } else {
            Notification::Other
        }
    }

    /// The event about a window that a notification amounts to.
    fn event(self, window: WindowId) -> (event: Option<WindowEvent>)
        ensures
            event == notified(self.event_kind(), window),
    {
        let kind: WindowEventKind = match self {
            Notification::FocusedWindowChanged => WindowEventKind::Focused,
            Notification::Moved | Notification::Resized => WindowEventKind::MovedOrResized {
                is_interactive_start: false,
                is_interactive_end: false,
            },
            Notification::Miniaturized => WindowEventKind::Minimized,
            Notification::Deminiaturized => WindowEventKind::MinimizeEnded,
            Notification::TitleChanged => WindowEventKind::TitleChanged,
            Notification::Destroyed | Notification::Other => return None,
        };
        Some(WindowEvent { window, kind, from_notification: true })
    }
}

/// The event of a given kind about a window, as its notification tells it.
pub open spec fn notified(kind: Option<WindowEventKind>, window: WindowId) -> Option<WindowEvent> {
    match kind {
        Some(kind) => Some(WindowEvent { window, kind, from_notification: true }),
        None => None,
    }
}

/// The names of the notifications to register for the element of an
/// application.
pub open spec fn app_notification(at: int) -> Seq<char> {
    if at == 0 {
        "AXFocusedWindowChanged"@
    } else {
        "AXWindowCreated"@
    }
}

/// The names of the notifications to register for the element of a window.
pub open spec fn window_notification(at: int) -> Seq<char> {
    if at == 0 {
        "AXTitleChanged"@
    } else if at == 1 {
        "AXUIElementDestroyed"@
    } else if at == 2 {
        "AXWindowMoved"@
    } else if at == 3 {
        "AXWindowResized"@
    } else if at == 4 {
        "AXWindowDeminiaturized"@
    } else {
        "AXWindowMiniaturized"@
    }
}

/// Notifications to register for the element of an application.
pub fn app_notification_name(at: usize) -> (name: &'static str)
    requires
        at < APP_NOTIFICATION_COUNT,
    ensures
        name@ == app_notification(at as int),
{
    if at == 0 {
        "AXFocusedWindowChanged"
    } else {
        "AXWindowCreated"
    }
}

/// Notifications to register for the element of a window.
pub fn window_notification_name(at: usize) -> (name: &'static str)
    requires
        at < WINDOW_NOTIFICATION_COUNT,
    ensures
        name@ == window_notification(at as int),
{
    if at == 0 {
        "AXTitleChanged"
    } else if at == 1 {
        "AXUIElementDestroyed"
    } else if at == 2 {
        "AXWindowMoved"
    } else if at == 3 {
        "AXWindowResized"
    } else if at == 4 {
        "AXWindowDeminiaturized"
    } else {
        "AXWindowMiniaturized"
    }
}

/// What registering notifications comes to, given the codes that came back so
/// far: the first that fails ends it.
pub open spec fn registration(count: nat, codes: Seq<i32>) -> RegistrationStep {
    if codes.len() > 0 && codes.last() != AX_SUCCESS {
        RegistrationStep::Failed(
            PlatformError::Notification((codes.len() - 1) as usize, codes.last()),
        )
    } else if codes.len() == count {
        RegistrationStep::Done
    } else {
        RegistrationStep::Register(codes.len() as usize)
    }
}

/// Decides how registering `count` notifications goes on after `codes` came
/// back for the first of them.
pub fn register_notifications(count: usize, codes: &Vec<i32>) -> (step: RegistrationStep)
    requires
        codes@.len() <= count,
        forall|i: int| 0 <= i < codes@.len() - 1 ==> #[trigger] codes@[i] == AX_SUCCESS,
    ensures
        step == registration(count as nat, codes@),
{
    let n: usize = codes.len();
    if n > 0 && codes[n - 1] != AX_SUCCESS {
        RegistrationStep::Failed(PlatformError::Notification(n - 1, codes[n - 1]))
    } else if n == count {
        RegistrationStep::Done
    } else {
        RegistrationStep::Register(n)
    }
}

/// Whether an observer that was asked for can be used: the call succeeded, it
/// gave an observer, and there is a run loop for its source.
pub fn check_observer(code: i32, is_null: bool, has_run_loop: bool) -> (checked: Result<
    (),
    PlatformError,
>)
    ensures
        checked == (if code != AX_SUCCESS {
            Err::<(), PlatformError>(PlatformError::Accessibility(code))
        } else if is_null {
            Err(PlatformError::InvalidPointer)
        } else if !has_run_loop {
            Err(PlatformError::EventLoopStopped)
        } else {
            Ok(())
        }),
        checked is Ok <==> code == 0 && !is_null && has_run_loop,
{
    if code != AX_SUCCESS {
        Err(PlatformError::Accessibility(code))
    } else if is_null {
        Err(PlatformError::InvalidPointer)
    } else if !has_run_loop {
        Err(PlatformError::EventLoopStopped)
    } else {
        Ok(())
    }
}

/// One event of a given kind for each window.
pub open spec fn event_each(
    windows: Seq<ObservedWindow>,
    kind: WindowEventKind,
) -> Seq<WindowEvent> {
    windows.map_values(
        |window: ObservedWindow|
            WindowEvent { window: window.id, kind, from_notification: false },
    )
}

/// The first window of those listed, from `from` on, that an element stands
/// for.
pub open spec fn found_from(windows: Seq<ObservedWindow>, element: u64, from: int) -> Option<int>
    decreases windows.len() - from,
{
    if from < 0 || from >= windows.len() {
        None
    } else if windows[from].element == element {
        Some(from)
    } else {
        found_from(windows, element, from + 1)
    }
}

/// The element of the first live window with a given ID, from `from` on.
pub open spec fn live_element_from(live: Seq<LiveWindow>, id: WindowId, from: int) -> Option<u64>
    decreases live.len() - from,
{
    if from < 0 || from >= live.len() {
        None
    } else if live[from].id == id {
        live[from].element
    } else {
        live_element_from(live, id, from + 1)
    }
}

/// All windows but those with a given ID.
pub open spec fn without(windows: Seq<ObservedWindow>, id: WindowId) -> Seq<ObservedWindow> {
    windows.filter(|window: ObservedWindow| window.id != id)
}

fn emit_each(windows: &Vec<ObservedWindow>, kind: WindowEventKind) -> (events: Vec<WindowEvent>)
    ensures
        events@ == event_each(windows@, kind),
{
    let mut events: Vec<WindowEvent> = Vec::new();
    for k in 0..windows.len()
        invariant
            events@ == event_each(windows@, kind).take(k as int),
    {
        events.push(WindowEvent { window: windows[k].id, kind, from_notification: false });
        assert(event_each(windows@, kind).take(k + 1) =~= event_each(windows@, kind).take(
            k as int,
        ).push(event_each(windows@, kind)[k as int]));
    }
    assert(event_each(windows@, kind).take(windows@.len() as int) =~= event_each(windows@, kind));
    events
}

impl ApplicationObserver {
    /// Creates a new `ApplicationObserver` for an application with the given
    /// windows, and the events to emit for them.
    ///
    /// Window enumeration failure is tolerated so future windows are still
    /// observed. `Shown` is idempotent and adopts windows missed during
    /// startup.
    pub fn new(pid: i32, windows: Option<Vec<ObservedWindow>>) -> (created: (
        Self,
        Vec<WindowEvent>,
    ))
        ensures
            created.0.pid == pid,
            created.0.app_windows@ == (match windows {
                Some(windows) => windows@,
                None => Seq::empty(),
            }),
            created.1@ == event_each(created.0.app_windows@, WindowEventKind::Shown),
    {
        let app_windows: Vec<ObservedWindow> = match windows {
            Some(windows) => windows,
            None => Vec::new(),
        };
        let events = emit_each(&app_windows, WindowEventKind::Shown);
        (ApplicationObserver { pid, app_windows }, events)
    }

    pub fn emit_all_windows_destroyed(&self) -> (events: Vec<WindowEvent>)
        ensures
            events@ == event_each(self.app_windows@, WindowEventKind::Destroyed),
    {
        emit_each(&self.app_windows, WindowEventKind::Destroyed)
    }

    pub fn emit_all_windows_hidden(&self) -> (events: Vec<WindowEvent>)
        ensures
            events@ == event_each(self.app_windows@, WindowEventKind::Hidden),
    {
        emit_each(&self.app_windows, WindowEventKind::Hidden)
    }

    pub fn emit_all_windows_shown(&self) -> (events: Vec<WindowEvent>)
        ensures
            events@ == event_each(self.app_windows@, WindowEventKind::Shown),
    {
        emit_each(&self.app_windows, WindowEventKind::Shown)
    }

    /// The window that an element stands for.
    fn find_element(&self, element: u64) -> (found: Option<usize>)
        ensures
            match found {
                Some(at) => found_from(self.app_windows@, element, 0) == Some(at as int) && at
                    < self.app_windows@.len() && self.app_windows@[at as int].element == element,
                None => found_from(self.app_windows@, element, 0) is None,
            },
    {
        for k in 0..self.app_windows.len()
            invariant
                found_from(self.app_windows@, element, 0) == found_from(
                    self.app_windows@,
                    element,
                    k as int,
                ),
        {
            if self.app_windows[k].element == element {
                return Some(k);
            }
        }
        None
    }

    /// Decides what a notification about an element calls for.
    pub fn window_event_callback(&self, notification: Notification, element: u64) -> (step:
        CallbackStep)
        ensures
            step == (match found_from(self.app_windows@, element, 0) {
                Some(at) => if notification is Destroyed {
                    CallbackStep::Requery { at: at as usize }
                } else {
                    match notified(notification.event_kind(), self.app_windows@[at].id) {
                        Some(event) => CallbackStep::Emit(event),
                        None => CallbackStep::Ignore,
                    }
                },
                None => if notification is Destroyed {
                    CallbackStep::Ignore
                } else {
                    CallbackStep::Resolve
                },
            }),
            step matches CallbackStep::Requery { at } ==> at < self.app_windows@.len()
                && self.app_windows@[at as int].element == element,
            step is Requery <==> notification is Destroyed && exists|i: int|
                0 <= i < self.app_windows@.len() && (#[trigger] self.app_windows@[i]).element
                    == element,
            step is Resolve <==> !(notification is Destroyed) && forall|i: int|
                0 <= i < self.app_windows@.len() ==> (#[trigger] self.app_windows@[i]).element
                    != element,
            step matches CallbackStep::Emit(event) ==> event.from_notification && exists|i: int|
                0 <= i < self.app_windows@.len() && (#[trigger] self.app_windows@[i]).element
                    == element && self.app_windows@[i].id == event.window,
    {
        proof {
            law_elements_are_found_in_order(self.app_windows@, element, 0);
        }
        let found = self.find_element(element);
        if matches!(notification, Notification::Destroyed) {
            return match found {
                Some(at) => CallbackStep::Requery { at },
                None => CallbackStep::Ignore,
            };
        }
        match found {
            Some(at) => match notification.event(self.app_windows[at].id) {
                Some(event) => CallbackStep::Emit(event),
                None => CallbackStep::Ignore,
            },
            None => CallbackStep::Resolve,
        }
    }

    /// Decides what becomes of the window at `at`, whose element was destroyed,
    /// given the live windows if they could be told.
    pub fn window_requeried(&mut self, at: usize, live: Option<Vec<LiveWindow>>) -> (step:
        RequeryStep)
        requires
            at < old(self).app_windows@.len(),
        ensures
            final(self).pid == old(self).pid,
            ({
                let id = old(self).app_windows@[at as int].id;
                match live {
                    None => {
                        &&& step is Ignore
                        &&& final(self).app_windows@ == old(self).app_windows@
                    },
                    Some(live) => match live_element_from(live@, id, 0) {
                        Some(element) => {
                            &&& step == RequeryStep::Rebind { element }
                            &&& final(self).app_windows@ == old(self).app_windows@
                        },
                        None => {
                            &&& step == RequeryStep::Emit(
                                WindowEvent {
                                    window: id,
                                    kind: WindowEventKind::Destroyed,
                                    from_notification: true,
                                },
                            )
                            &&& final(self).app_windows@ == without(old(self).app_windows@, id)
                        },
                    },
                }
            }),
    {
        let id: WindowId = self.app_windows[at].id;
        let live: Vec<LiveWindow> = match live {
            Some(live) => live,
            None => return RequeryStep::Ignore,
        };
        match live_element(&live, id) {
            Some(element) => RequeryStep::Rebind { element },
            None => {
                self.forget(id);
                RequeryStep::Emit(
                    WindowEvent {
                        window: id,
                        kind: WindowEventKind::Destroyed,
                        from_notification: true,
                    },
                )
            },
        }
    }

    /// Drops all windows with a given ID.
    fn forget(&mut self, id: WindowId)
        ensures
            final(self).pid == old(self).pid,
            final(self).app_windows@ == without(old(self).app_windows@, id),
    {
        let mut kept: Vec<ObservedWindow> = Vec::new();
        let ghost stays = |window: ObservedWindow| window.id != id;
        proof {
            reveal(Seq::filter);
            assert(self.app_windows@.take(0) =~= Seq::<ObservedWindow>::empty());
        }
        for k in 0..self.app_windows.len()
            invariant
                stays == (|window: ObservedWindow| window.id != id),
                kept@ == self.app_windows@.take(k as int).filter(stays),
                self.pid == old(self).pid,
                self.app_windows@ == old(self).app_windows@,
        {
            let window: ObservedWindow = self.app_windows[k];
            proof {
                reveal(Seq::filter);
                assert(self.app_windows@.take(k + 1).drop_last() =~= self.app_windows@.take(
                    k as int,
                ));
            }
            if window.id != id {
                kept.push(window);
            }
        }
        assert(self.app_windows@.take(self.app_windows@.len() as int) =~= self.app_windows@);
        self.app_windows = kept;
    }

    /// Records that the window at `at` lives on behind another element, whose
    /// notifications are registered next.
    pub fn element_rebound(&mut self, at: usize, element: u64)
        requires
            at < old(self).app_windows@.len(),
        ensures
            final(self).pid == old(self).pid,
            final(self).app_windows@ == old(self).app_windows@.update(
                at as int,
                ObservedWindow { id: old(self).app_windows@[at as int].id, element },
            ),
    {
        let id: WindowId = self.app_windows[at].id;
        self.app_windows.set(at, ObservedWindow { id, element });
    }

    /// Decides what becomes of an element that stood for no known window, given
    /// the window that it does stand for.
    pub fn element_resolved(
        &mut self,
        notification: Notification,
        element: u64,
        id: Option<WindowId>,
    ) -> (step: ResolveStep)
        ensures
            final(self).pid == old(self).pid,
            match id {
                None => {
                    &&& step is Ignore
                    &&& final(self).app_windows@ == old(self).app_windows@
                },
                Some(id) => {
                    &&& step == ResolveStep::Observe {
                        window: id,
                        shown: WindowEvent {
                            window: id,
                            kind: WindowEventKind::Shown,
                            from_notification: true,
                        },
                        event: notified(notification.event_kind(), id),
                    }
                    &&& final(self).app_windows@ == old(self).app_windows@.push(
                        ObservedWindow { id, element },
                    )
                },
            },
    {
        let id: WindowId = match id {
            Some(id) => id,
            None => return ResolveStep::Ignore,
        };
        self.app_windows.push(ObservedWindow { id, element });
        let shown: WindowEvent = WindowEvent {
            window: id,
            kind: WindowEventKind::Shown,
            from_notification: true,
        };
        ResolveStep::Observe { window: id, shown, event: notification.event(id) }
    }
}

fn live_element(live: &Vec<LiveWindow>, id: WindowId) -> (element: Option<u64>)
    ensures
        element == live_element_from(live@, id, 0),
{
    for k in 0..live.len()
        invariant
            live_element_from(live@, id, 0) == live_element_from(live@, id, k as int),
    {
        if live[k].id == id {
            return live[k].element;
        }
    }
    None
}

/// An element is found at the first window that it stands for, or not at all.
pub proof fn law_elements_are_found_in_order(
    windows: Seq<ObservedWindow>,
    element: u64,
    from: int,
)
    requires
        0 <= from,
    ensures
        match found_from(windows, element, from) {
            Some(at) => {
                &&& from <= at < windows.len()
                &&& windows[at].element == element
                &&& forall|i: int| from <= i < at ==> (#[trigger] windows[i]).element != element
            },
            None => forall|i: int|
                from <= i < windows.len() ==> (#[trigger] windows[i]).element != element,
        },
    decreases windows.len() - from,
{
    if from < windows.len() && windows[from].element != element {
        law_elements_are_found_in_order(windows, element, from + 1);
    }
}

/// Once an element has been resolved, or bound to a window anew, it stands for
/// a known window.
pub proof fn law_bound_elements_are_known(
    windows: Seq<ObservedWindow>,
    at: int,
    id: WindowId,
    element: u64,
)
    ensures
        found_from(windows.push(ObservedWindow { id, element }), element, 0) is Some,
        0 <= at < windows.len() ==> found_from(
            windows.update(at, ObservedWindow { id, element }),
            element,
            0,
        ) is Some,
{
    let pushed = windows.push(ObservedWindow { id, element });
    law_elements_are_found_in_order(pushed, element, 0);
    assert(pushed[windows.len() as int].element == element);
    if 0 <= at < windows.len() {
        let updated = windows.update(at, ObservedWindow { id, element });
        law_elements_are_found_in_order(updated, element, 0);
        assert(updated[at].element == element);
    }
}

/// A window that is still listed with an element is not taken for destroyed,
/// and one that is not listed is.
pub proof fn law_only_vanished_windows_are_destroyed(
    live: Seq<LiveWindow>,
    id: WindowId,
    from: int,
)
    requires
        0 <= from,
    ensures
        (forall|i: int| from <= i < live.len() ==> (#[trigger] live[i]).id != id)
            ==> live_element_from(live, id, from) is None,
        (exists|i: int| from <= i < live.len() && (#[trigger] live[i]).id == id) && (forall|i: int|
            from <= i < live.len() && (#[trigger] live[i]).id == id ==> live[i].element is Some)
            ==> live_element_from(live, id, from) is Some,
    decreases live.len() - from,
{
    if from < live.len() && live[from].id != id {
        law_only_vanished_windows_are_destroyed(live, id, from + 1);
    }
}

/// A destroyed window leaves the list under each of its entries, and the other
/// windows stay.
pub proof fn law_destroyed_windows_are_forgotten(windows: Seq<ObservedWindow>, id: WindowId)
    ensures
        forall|window: ObservedWindow| #[trigger]
            without(windows, id).contains(window) <==> windows.contains(window) && window.id != id,
{
    let stays = |window: ObservedWindow| window.id != id;
    assert forall|window: ObservedWindow| #[trigger]
        without(windows, id).contains(window) <==> windows.contains(window) && window.id != id by {
        if without(windows, id).contains(window) {
            let at = without(windows, id).index_of(window);
            windows.lemma_filter_pred(stays, at);
            windows.lemma_filter_contains_rev(stays, window);
        }
        if windows.contains(window) && window.id != id {
            windows.lemma_filter_contains(stays, windows.index_of(window));
        }
    }
}

/// Registering ends well only when all notifications were added, and badly at
/// the first that was not.
pub proof fn law_registration_is_all_or_nothing(count: nat, codes: Seq<i32>)
    requires
        codes.len() <= count <= usize::MAX,
        forall|i: int| 0 <= i < codes.len() - 1 ==> #[trigger] codes[i] == AX_SUCCESS,
    ensures
        registration(count, codes) is Done <==> codes.len() == count && forall|i: int|
            0 <= i < codes.len() ==> #[trigger] codes[i] == AX_SUCCESS,
        registration(count, codes) is Failed <==> exists|i: int|
            0 <= i < codes.len() && #[trigger] codes[i] != AX_SUCCESS,
{
    if codes.len() > 0 {
        assert(codes.last() == codes[codes.len() - 1]);
    }
}

/// Each notification that is registered for a window is told apart from the
/// others, and is about the destruction of the window or leads to an event.
pub proof fn law_registered_notifications_are_understood()
    ensures
        notification_named(window_notification(0)) is TitleChanged,
        notification_named(window_notification(1)) is Destroyed,
        notification_named(window_notification(2)) is Moved,
        notification_named(window_notification(3)) is Resized,
        notification_named(window_notification(4)) is Deminiaturized,
        notification_named(window_notification(5)) is Miniaturized,
        notification_named(app_notification(0)) is FocusedWindowChanged,
        notification_named(app_notification(1)) is Other,
        forall|at: int|
            0 <= at < WINDOW_NOTIFICATION_COUNT ==> {
                let notification = notification_named(#[trigger] window_notification(at));
                notification is Destroyed || notification.event_kind() is Some
            },
{
    reveal_strlit("AXUIElementDestroyed");
    reveal_strlit("AXFocusedWindowChanged");
    reveal_strlit("AXWindowCreated");
    reveal_strlit("AXWindowMoved");
    reveal_strlit("AXWindowResized");
    reveal_strlit("AXWindowMiniaturized");
    reveal_strlit("AXWindowDeminiaturized");
    reveal_strlit("AXTitleChanged");
    assert("AXUIElementDestroyed"@.len() == 20);
    assert("AXFocusedWindowChanged"@.len() == 22);
    assert("AXWindowCreated"@.len() == 15);
    assert("AXWindowMoved"@.len() == 13);
    assert("AXWindowResized"@.len() == 15);
    assert("AXWindowMiniaturized"@.len() == 20);
    assert("AXWindowDeminiaturized"@.len() == 22);
    assert("AXTitleChanged"@.len() == 14);
    assert("AXWindowMiniaturized"@[2] != "AXUIElementDestroyed"@[2]);
    assert("AXWindowDeminiaturized"@[2] != "AXFocusedWindowChanged"@[2]);
    assert("AXWindowCreated"@[8] != "AXWindowResized"@[8]);
}

/// A notification of no known name is about something else, and each known name
/// is about something of its own.
pub proof fn law_names_are_told_apart(name: Seq<char>)
    ensures
        notification_named(name) is Destroyed <==> name == "AXUIElementDestroyed"@,
        notification_named(name) is FocusedWindowChanged <==> name == "AXFocusedWindowChanged"@,
        notification_named(name) is Moved <==> name == "AXWindowMoved"@,
        notification_named(name) is Resized <==> name == "AXWindowResized"@,
        notification_named(name) is Miniaturized <==> name == "AXWindowMiniaturized"@,
        notification_named(name) is Deminiaturized <==> name == "AXWindowDeminiaturized"@,
        notification_named(name) is TitleChanged <==> name == "AXTitleChanged"@,
        notification_named(name) is Other <==> name != "AXUIElementDestroyed"@ && name
            != "AXFocusedWindowChanged"@ && name != "AXWindowMoved"@ && name
            != "AXWindowResized"@ && name != "AXWindowMiniaturized"@ && name
            != "AXWindowDeminiaturized"@ && name != "AXTitleChanged"@,
{
    reveal_strlit("AXUIElementDestroyed");
    reveal_strlit("AXFocusedWindowChanged");
    reveal_strlit("AXWindowMoved");
    reveal_strlit("AXWindowResized");
    reveal_strlit("AXWindowMiniaturized");
    reveal_strlit("AXWindowDeminiaturized");
    reveal_strlit("AXTitleChanged");
    assert("AXUIElementDestroyed"@.len() == 20);
    assert("AXFocusedWindowChanged"@.len() == 22);
    assert("AXWindowMoved"@.len() == 13);
    assert("AXWindowResized"@.len() == 15);
    assert("AXWindowMiniaturized"@.len() == 20);
    assert("AXWindowDeminiaturized"@.len() == 22);
    assert("AXTitleChanged"@.len() == 14);
    assert("AXWindowMiniaturized"@[2] != "AXUIElementDestroyed"@[2]);
    assert("AXWindowDeminiaturized"@[2] != "AXFocusedWindowChanged"@[2]);
}

/// A notification about a known window becomes the event of its name, never one
/// that starts or ends an interactive move, and it comes with its
/// notification. Only destruction and the unknown become none.
pub proof fn law_notifications_become_their_events(notification: Notification, window: WindowId)
    ensures
        ({
            let event = notified(notification.event_kind(), window);
            &&& event is None <==> notification is Destroyed || notification is Other
            &&& event is Some ==> event->0.window == window && event->0.from_notification
            &&& event is Some ==> {
                let kind = event->0.kind;
                &&& kind is Focused <==> notification is FocusedWindowChanged
                &&& kind is MovedOrResized <==> notification is Moved || notification is Resized
                &&& kind is Minimized <==> notification is Miniaturized
                &&& kind is MinimizeEnded <==> notification is Deminiaturized
                &&& kind is TitleChanged <==> notification is TitleChanged
                &&& kind matches WindowEventKind::MovedOrResized {
                    is_interactive_start,
                    is_interactive_end,
                } ==> !is_interactive_start && !is_interactive_end
            }
        }),
{
}

/// Every window has its one event, in the order of the windows, and none comes
/// with a notification.
pub proof fn law_each_window_has_its_event(
    windows: Seq<ObservedWindow>,
    kind: WindowEventKind,
    at: int,
)
    ensures
        event_each(windows, kind).len() == windows.len(),
        0 <= at < windows.len() ==> {
            let event = event_each(windows, kind)[at];
            &&& event.window == windows[at].id
            &&& event.kind == kind
            &&& !event.from_notification
        },
{
}

/// A live window lives on behind the element of the first entry with its ID.
pub proof fn law_the_first_live_entry_counts(
    live: Seq<LiveWindow>,
    id: WindowId,
    from: int,
    at: int,
)
    requires
        0 <= from <= at < live.len(),
        live[at].id == id,
        forall|i: int| from <= i < at ==> (#[trigger] live[i]).id != id,
    ensures
        live_element_from(live, id, from) == live[at].element,
    decreases at - from,
{
    if from < at {
        assert(live[from].id != id);
        law_the_first_live_entry_counts(live, id, from + 1, at);
    }
}

/// The windows that stay when one is forgotten keep their order and their
/// number: going through the list, one with the ID is passed over and any
/// other is kept.
pub proof fn law_forgetting_keeps_the_order(
    windows: Seq<ObservedWindow>,
    next: ObservedWindow,
    id: WindowId,
)
    ensures
        without(Seq::empty(), id) == Seq::<ObservedWindow>::empty(),
        next.id == id ==> without(windows.push(next), id) == without(windows, id),
        next.id != id ==> without(windows.push(next), id) == without(windows, id).push(next),
{
    reveal(Seq::filter);
    assert(windows.push(next).drop_last() =~= windows);
}

/// While all goes well the notifications are registered one after the other,
/// and the one that fails is told with its code.
pub proof fn law_notifications_are_registered_in_order(count: nat, codes: Seq<i32>)
    requires
        codes.len() <= count <= usize::MAX,
    ensures
        (codes.len() == 0 || codes.last() == 0) && codes.len() < count ==> registration(
            count,
            codes,
        ) == RegistrationStep::Register(codes.len() as usize),
        (codes.len() == 0 || codes.last() == 0) && codes.len() == count ==> registration(
            count,
            codes,
        ) is Done,
        codes.len() > 0 && codes.last() != 0 ==> registration(count, codes)
            == RegistrationStep::Failed(
            PlatformError::Notification((codes.len() - 1) as usize, codes.last()),
        ),
{
}

/// The notifications to register are told apart by their places.
pub proof fn law_each_place_has_its_notification()
    ensures
        app_notification(0) == "AXFocusedWindowChanged"@,
        app_notification(1) == "AXWindowCreated"@,
        APP_NOTIFICATION_COUNT == 2,
        WINDOW_NOTIFICATION_COUNT == 6,
        forall|at: int|
            0 <= at < WINDOW_NOTIFICATION_COUNT ==> {
                let notification = notification_named(#[trigger] window_notification(at));
                &&& notification is TitleChanged <==> at == 0
                &&& notification is Destroyed <==> at == 1
                &&& notification is Moved <==> at == 2
                &&& notification is Resized <==> at == 3
                &&& notification is Deminiaturized <==> at == 4
                &&& notification is Miniaturized <==> at == 5
            },
{
    law_registered_notifications_are_understood();
}

} // verus!
