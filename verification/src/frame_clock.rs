//! Pacing an animation by the frames that are composed.

use vstd::prelude::*;

use crate::win32;

verus! {

/// Ticks once per composed frame, on a thread of its own.
///
/// Timers are the wrong tool for pacing an animation. A timer on Windows
/// resolves to the 15.6ms system timer whatever it asks for, so a 155Hz monitor
/// got nine frames of a 140ms animation and the odd 31ms hitch. The
/// compositor's own clock is what frames are made to.
pub struct FrameClock {
    stopped: bool,
    rate: u32,
}

/// What has just happened on the thread of a clock.
#[derive(Clone, Copy, Debug, PartialEq, Eq, Structural)]
pub enum ClockEvent {
    /// The thread has started.
    Started,
    /// A frame has been waited for.
    FrameWaited,
    /// The clock has ticked, and is told whether to go on.
    Ticked { goes_on: bool },
}

/// What the thread of a clock does next.
#[derive(Clone, Copy, Debug, PartialEq, Eq, Structural)]
pub enum ClockStep {
    WaitForFrame,
    Tick,
    Exit,
}

/// What follows on what, for a clock that has or has not been stopped.
pub open spec fn next_step(stopped: bool, event: ClockEvent) -> ClockStep {
    if stopped {
        ClockStep::Exit
    } else {
        match event {
            ClockEvent::Started => ClockStep::WaitForFrame,
            ClockEvent::FrameWaited => ClockStep::Tick,
            ClockEvent::Ticked { goes_on } => if goes_on {
                ClockStep::WaitForFrame
            } else {
                ClockStep::Exit
            },
        }
    }
}

impl FrameClock {
    pub closed spec fn is_stopped(&self) -> bool {
        self.stopped
    }

    /// How many frames a second the clock counts on where no compositor clock
    /// is available.
    pub closed spec fn frame_rate(&self) -> u32 {
        self.rate
    }

    /// Starts ticking.
    ///
    /// `fallback_rate` paces the clock where no compositor clock is available.
    pub fn start(fallback_rate: u32) -> (clock: Self)
        ensures
            !clock.is_stopped(),
            clock.frame_rate() == (if fallback_rate == 0 {
                1
            } else {
                fallback_rate
            }),
    {
        let rate: u32 = if fallback_rate < 1 {
            1
        } else {
            fallback_rate
        };
        FrameClock { stopped: false, rate }
    }

    /// Stops the clock. Its thread exits after the frame it is waiting on.
    pub fn stop(&mut self)
        ensures
            final(self).is_stopped(),
            final(self).frame_rate() == old(self).frame_rate(),
    {
        self.stopped = true;
    }

    /// The rate at which the clock ticks where no compositor clock is
    /// available.
    pub fn rate(&self) -> (rate: u32)
        ensures
            rate == self.frame_rate(),
    {
        self.rate
    }

    /// What the thread of the clock does after what has just happened.
    pub fn next(&self, event: ClockEvent) -> (step: ClockStep)
        ensures
            step == next_step(self.is_stopped(), event),
    {
        if self.stopped {
            return ClockStep::Exit;
        }
        match event {
            ClockEvent::Started => ClockStep::WaitForFrame,
            ClockEvent::FrameWaited => ClockStep::Tick,
            ClockEvent::Ticked { goes_on } => if goes_on {
                ClockStep::WaitForFrame
            } else {
                ClockStep::Exit
            },
        }
    }
}

/// For how long the compositor's next frame is waited for at most: four frames,
/// in whole milliseconds, but at least one millisecond. A frame's milliseconds
/// are cut to 32 bits.
pub open spec fn wait_limit(frame_ns: int) -> int {
    let frame_ms = (frame_ns / 1_000_000) % 0x1_0000_0000;
    if frame_ms == 0 {
        1
    } else if 4 * frame_ms > u32::MAX {
        u32::MAX as int
    } else {
        4 * frame_ms
    }
}

/// Bounds the wait for a frame so a stalled compositor (a display mode change,
/// say) cannot freeze the clock. Progress is wall-clock, so a late tick is
/// harmless.
pub fn wait_timeout_ms(frame_ns: u128) -> (timeout: u32)
    ensures
        timeout == wait_limit(frame_ns as int),
{
    let frame_ms: u64 = ((frame_ns / 1_000_000) % 0x1_0000_0000) as u64;
    let timeout: u64 = if frame_ms == 0 {
        1
    } else {
        4 * frame_ms
    };
    if timeout > u32::MAX as u64 {
        u32::MAX
    } else {
        timeout as u32
    }
}

/// Whether a frame is slept for instead, because the compositor clock could not
/// be waited on: the wait came to neither of its two good ends.
pub fn sleeps_instead(result: u32) -> (sleeps: bool)
    ensures
        sleeps == (result != 0 && result != 258),
{
    result != win32::wait_object_0() && result != win32::wait_timeout()
}

/// Once a clock is stopped its thread exits at the next step, whatever that is;
/// and until it is stopped or told to end it goes on.
pub proof fn law_only_stopped_clocks_exit(stopped: bool, event: ClockEvent)
    ensures
        next_step(stopped, event) is Exit <==> stopped || event == (ClockEvent::Ticked {
            goes_on: false,
        }),
{
}

/// The wait for a frame never ends at once, and never lasts more than four
/// frames except to last a millisecond.
pub proof fn law_waits_are_bounded(frame_ns: int)
    requires
        0 <= frame_ns,
    ensures
        1 <= wait_limit(frame_ns) <= u32::MAX,
        wait_limit(frame_ns) == 1 || wait_limit(frame_ns) * 1_000_000 <= 4 * frame_ns,
{
    let frame_ms: int = frame_ns / 1_000_000;
    assert(0 <= frame_ms);
    assert(frame_ms * 1_000_000 <= frame_ns);
    assert(0 <= frame_ms % 0x1_0000_0000 <= frame_ms);
}

/// Until it is stopped, a clock waits for a frame when it starts and after each
/// tick that tells it to go on, and ticks after each frame.
pub proof fn law_clocks_tick_once_a_frame(event: ClockEvent)
    ensures
        next_step(false, event) is Tick <==> event is FrameWaited,
        next_step(false, event) is WaitForFrame <==> event is Started || event
            == (ClockEvent::Ticked { goes_on: true }),
        next_step(true, event) is Exit,
{
}

/// A frame of at least a millisecond is waited for four times its whole
/// milliseconds, as far as these fit; a shorter one for a millisecond.
pub proof fn law_four_frames_are_waited_for(frame_ms: int, rest: int)
    requires
        0 <= frame_ms < 0x4000_0000,
        0 <= rest < 1_000_000,
    ensures
        frame_ms > 0 ==> wait_limit(frame_ms * 1_000_000 + rest) == 4 * frame_ms,
        frame_ms == 0 ==> wait_limit(rest) == 1,
{
    assert((frame_ms * 1_000_000 + rest) / 1_000_000 == frame_ms);
}

/// The milliseconds of a frame count by their lower 32 bits, and a wait that
/// would not fit in 32 bits lasts as long as fits.
pub proof fn law_long_waits_are_held(frame_ms: int, rest: int, more: int)
    requires
        0 <= frame_ms < 0x1_0000_0000,
        0 <= rest < 1_000_000,
        0 <= more,
    ensures
        frame_ms >= 0x4000_0000 ==> wait_limit(frame_ms * 1_000_000 + rest) == 0xffff_ffff,
        wait_limit((frame_ms + more * 0x1_0000_0000) * 1_000_000 + rest) == wait_limit(
            frame_ms * 1_000_000 + rest,
        ),
{
    let long: int = frame_ms + more * 0x1_0000_0000;
    assert((frame_ms * 1_000_000 + rest) / 1_000_000 == frame_ms);
    assert((long * 1_000_000 + rest) / 1_000_000 == long);
    assert(long % 0x1_0000_0000 == frame_ms) by (nonlinear_arith)
        requires
            long == frame_ms + more * 0x1_0000_0000,
            0 <= frame_ms < 0x1_0000_0000,
    ;
}

} // verus!
