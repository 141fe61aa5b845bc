//! What the window manager holds of the operating system.

use vstd::prelude::*;

verus! {

/// The operating system that windows live on.
#[derive(Clone, Copy, Debug, PartialEq, Eq, Structural)]
pub enum Platform {
    Windows,
    MacOs,
}

/// Why an operating system call did not do what was asked.
#[derive(Clone, Copy, Debug, PartialEq, Eq, Structural)]
pub enum PlatformError {
    /// The event loop has stopped, so nothing can be dispatched to it.
    EventLoopStopped,
    /// An accessibility call failed with the given code.
    Accessibility(i32),
    /// A call that promised an object returned null.
    InvalidPointer,
    /// A notification could not be added; its place in the list of
    /// notifications and the code that came back.
    Notification(usize, i32),
    /// A window could not be created.
    WindowCreation,
    /// A thread could not be started.
    ThreadSpawn,
    /// A thread did not report back in time.
    ChannelRecv,
}

/// A way to run code on the thread of an event loop.
#[derive(Clone, Copy, Debug, PartialEq, Eq, Structural)]
pub struct Dispatcher {
    /// Handle of the event loop source to dispatch through.
    pub source: Option<usize>,
    /// Whether the event loop has stopped.
    pub stopped: bool,
}

impl Dispatcher {
    pub fn new(source: Option<usize>, stopped: bool) -> (dispatcher: Self)
        ensures
            dispatcher == (Dispatcher { source, stopped }),
    {
        Dispatcher { source, stopped }
    }

    /// Creates a mock `Dispatcher` for use in tests.
    ///
    /// Dispatching through the mock fails rather than runs: it is marked
    /// stopped, so a dispatch returns `EventLoopStopped` instead of reaching
    /// for the event loop source it does not have.
    #[must_use]
    pub fn mock() -> (dispatcher: Self)
        ensures
            dispatcher.source is None,
            dispatcher.stopped,
    {
        Self::new(None, true)
    }

    /// Whether dispatching finds either a stopped loop or a source to use.
    pub open spec fn dispatchable(self) -> bool {
        self.stopped || self.source is Some
    }

    /// The source to dispatch through, or the error that the loop has
    /// stopped.
    pub fn dispatch_source(&self) -> (source: Result<usize, PlatformError>)
        requires
            self.dispatchable(),
        ensures
            source == (if self.stopped {
                Err::<usize, PlatformError>(PlatformError::EventLoopStopped)
            } else {
                Ok(self.source->0)
            }),
    {
        if self.stopped {
            return Err(PlatformError::EventLoopStopped);
        }
        match self.source {
            Some(source) => Ok(source),
            None => Err(PlatformError::EventLoopStopped),
        }
    }
}

/// Identifies a window to the operating system for as long as it lives.
#[derive(Clone, Copy, Debug, PartialEq, Eq, Structural)]
pub struct WindowId(pub u32);

/// A window of some application.
#[derive(Clone, Copy, Debug, PartialEq, Eq, Structural)]
pub struct NativeWindow {
    pub handle: isize,
}

impl NativeWindow {
    pub fn new(handle: isize) -> (window: Self)
        ensures
            window.handle == handle,
    {
        NativeWindow { handle }
    }

    /// Creates a mock `NativeWindow` for use in tests.
    ///
    /// It belongs to no window, so nothing can be asked of it.
    #[must_use]
    pub fn mock() -> (window: Self)
        ensures
            window.handle == 0,
    {
        Self::new(0)
    }
}

/// A display that windows are shown on.
#[derive(Clone, Copy, Debug, PartialEq, Eq, Structural)]
pub struct Display {
    pub handle: isize,
}

impl Display {
    pub fn new(handle: isize) -> (display: Self)
        ensures
            display.handle == handle,
    {
        Display { handle }
    }

    /// Creates a mock `Display` for use in tests.
    ///
    /// It belongs to no display, so nothing can be asked of it.
    #[must_use]
    pub fn mock() -> (display: Self)
        ensures
            display.handle == 0,
    {
        Self::new(0)
    }
}

} // verus!
