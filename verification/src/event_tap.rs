//! Keeping event taps enabled on macOS, and the thread that serves them.

use vstd::prelude::*;

use crate::platform::{Dispatcher, PlatformError};

verus! {

/// The type of the event that tells that a tap was too slow to respond and has
/// been disabled (`kCGEventTapDisabledByTimeout`).
pub const TAP_DISABLED_BY_TIMEOUT: u32 = 0xFFFF_FFFE;

/// The type of the event that tells that a user has disabled a tap
/// (`kCGEventTapDisabledByUserInput`).
pub const TAP_DISABLED_BY_USER_INPUT: u32 = 0xFFFF_FFFF;

/// How long the tap thread is given to publish its dispatch source, in
/// milliseconds.
pub const READY_TIMEOUT_MS: u64 = 5_000;

/// What an event means for the tap that it came through.
#[derive(Clone, Copy, Debug, PartialEq, Eq, Structural)]
pub enum TapReaction {
    /// It is an ordinary event.
    NotDisabled,
    /// The tap has been disabled and is enabled again.
    Reenable,
    /// The tap has been disabled and cannot be enabled again for want of its
    /// port.
    NoPort,
}

/// Whether an event tells that its tap has been disabled.
pub open spec fn is_tap_disabled(event_type: u32) -> bool {
    event_type == TAP_DISABLED_BY_TIMEOUT || event_type == TAP_DISABLED_BY_USER_INPUT
}

impl TapReaction {
    /// Whether the event has been dealt with, in which case the caller should
    /// return it immediately without further processing.
    pub fn is_handled(&self) -> (handled: bool)
        ensures
            handled == !(*self is NotDisabled),
    {
        !matches!(*self, TapReaction::NotDisabled)
    }
}

/// Re-enables an event tap if `event_type` is a tap-disabled notification.
///
/// macOS disables an event tap when its callback is too slow to respond or when
/// a user physically disables it. A disabled tap stops receiving events until
/// it is explicitly re-enabled, so callbacks must handle these notifications to
/// recover.
pub fn reenable_if_tap_disabled(event_type: u32, has_port: bool) -> (reaction: TapReaction)
    ensures
        reaction == (if !is_tap_disabled(event_type) {
            TapReaction::NotDisabled
        } else if has_port {
            TapReaction::Reenable
        } else {
            TapReaction::NoPort
        }),
        reaction is NotDisabled <==> event_type < 0xFFFF_FFFE,
{
    if event_type != TAP_DISABLED_BY_TIMEOUT && event_type != TAP_DISABLED_BY_USER_INPUT {
        return TapReaction::NotDisabled;
    }
    if has_port {
        TapReaction::Reenable
    } else {
        TapReaction::NoPort
    }
}

/// A thread whose only job is to service the keyboard and mouse event taps.
///
/// An event tap needs a run loop, not the main one. Hosting the taps on the
/// main run loop put them behind every accessibility call, which is
/// cross-process and blocks: waiting on a busy application stalled input for
/// the whole system, and macOS answers a long enough stall by disabling the tap
/// outright, which drops keys and clicks until something re-enables it.
#[derive(Clone, Copy, Debug, PartialEq, Eq, Structural)]
pub struct TapRunLoop {
    pub dispatcher: Dispatcher,
}

impl TapRunLoop {
    /// The run loop of a thread that was asked to start: whether it started,
    /// and what it reported within the time it was given.
    pub fn new(spawned: bool, report: Option<Result<usize, PlatformError>>) -> (run_loop: Result<
        Self,
        PlatformError,
    >)
        ensures
            run_loop == (if !spawned {
                Err::<TapRunLoop, PlatformError>(PlatformError::ThreadSpawn)
            } else {
                match report {
                    None => Err(PlatformError::ChannelRecv),
                    Some(Err(error)) => Err(error),
                    Some(Ok(source)) => Ok(
                        TapRunLoop {
                            dispatcher: Dispatcher { source: Some(source), stopped: false },
                        },
                    ),
                }
            }),
            run_loop is Ok <==> spawned && report is Some && report->0 is Ok,
    {
        if !spawned {
            return Err(PlatformError::ThreadSpawn);
        }
        match report {
            None => Err(PlatformError::ChannelRecv),
            Some(Err(error)) => Err(error),
            Some(Ok(source)) => Ok(TapRunLoop { dispatcher: Dispatcher::new(Some(source), false) }),
        }
    }

    /// Dispatcher for the event tap thread.
    ///
    /// Taps are created, enabled, and invalidated through this rather than
    /// through the main dispatcher, so that every one of those calls lands on
    /// the thread whose run loop owns them.
    pub fn dispatcher(&self) -> (dispatcher: &Dispatcher)
        ensures
            *dispatcher == self.dispatcher,
    {
        &self.dispatcher
    }
}

/// Whether the tap thread goes on to run its loop. A receiver that has gone
/// away means nothing will ever dispatch here, so there is no run loop worth
/// running; nor is there one without a source.
pub fn runs_tap_loop(is_sent: bool, is_ready: bool) -> (runs: bool)
    ensures
        runs == (is_sent && is_ready),
{
    is_sent && is_ready
}

/// The event tap run loop could not be started, for this reason.
#[derive(Clone, Copy, Debug, PartialEq, Eq, Structural)]
pub struct TapRunLoopUnavailable {
    pub cause: PlatformError,
}

/// The place of the one event tap run loop of the process.
///
/// The thread is started once and never restarted: a failure here means the
/// process could not spawn a thread, which the caller reports rather than
/// retries.
pub struct TapRunLoopCell {
    started: Option<Result<TapRunLoop, PlatformError>>,
}

impl TapRunLoopCell {
    pub closed spec fn view(&self) -> Option<Result<TapRunLoop, PlatformError>> {
        self.started
    }

    pub fn new() -> (cell: Self)
        ensures
            cell@ is None,
    {
        TapRunLoopCell { started: None }
    }

    /// Whether starting the run loop has not been tried yet.
    pub fn needs_start(&self) -> (needed: bool)
        ensures
            needed == (self@ is None),
    {
        self.started.is_none()
    }

    /// Records how starting the run loop went. Only the first time counts.
    pub fn set_started(&mut self, started: Result<TapRunLoop, PlatformError>)
        ensures
            final(self)@ == (match old(self)@ {
                Some(first) => Some(first),
                None => Some(started),
            }),
    {
        if self.started.is_none() {
            self.started = Some(started);
        }
    }

    /// Gets the process-wide event tap run loop, or `None` until starting it was
    /// tried.
    pub fn tap_run_loop(&self) -> (run_loop: Option<Result<TapRunLoop, TapRunLoopUnavailable>>)
        ensures
            run_loop == (match self@ {
                None => None,
                Some(Ok(run_loop)) => Some(Ok::<TapRunLoop, TapRunLoopUnavailable>(run_loop)),
                Some(Err(cause)) => Some(Err(TapRunLoopUnavailable { cause })),
            }),
    {
        match self.started {
            None => None,
            Some(Ok(run_loop)) => Some(Ok(run_loop)),
            Some(Err(cause)) => Some(Err(TapRunLoopUnavailable { cause })),
        }
    }
}

/// The two highest event types, and no others, tell that a tap has been
/// disabled.
pub proof fn law_only_the_highest_types_disable(event_type: u32)
    ensures
        is_tap_disabled(event_type) <==> event_type >= 0xFFFF_FFFE,
{
}

} // verus!
