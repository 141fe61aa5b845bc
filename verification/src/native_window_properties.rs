//! What is known of a window from asking the operating system about it.

use vstd::prelude::*;

use crate::platform::{Platform, PlatformError};
use crate::rect;
use crate::rect::Rect;

verus! {

/// Shortest gap between two title reads for the same window, in nanoseconds.
///
/// Short enough that a title-matching window rule still reacts as the user
/// perceives it, long enough to collapse a burst into one read.
pub const TITLE_READ_INTERVAL: u64 = 200_000_000;

/// How far each edge of a rectangle is moved outwards.
#[derive(Clone, Copy, Debug, PartialEq, Eq, Structural)]
pub struct RectDelta {
    pub left: i32,
    pub top: i32,
    pub right: i32,
    pub bottom: i32,
}

impl RectDelta {
    /// Whether a rectangle stays within range of an `i32` when it grows.
    pub open spec fn can_apply(self, rect: Rect) -> bool {
        &&& rect::fits(rect.left - self.left)
        &&& rect::fits(rect.top - self.top)
        &&& rect::fits(rect.right + self.right)
        &&& rect::fits(rect.bottom + self.bottom)
    }

    /// The rectangle with its edges moved outwards.
    pub fn apply_to(&self, rect: &Rect) -> (grown: Rect)
        requires
            self.can_apply(*rect),
        ensures
            grown.left == rect.left - self.left,
            grown.top == rect.top - self.top,
            grown.right == rect.right + self.right,
            grown.bottom == rect.bottom + self.bottom,
    {
        Rect {
            left: rect.left - self.left,
            top: rect.top - self.top,
            right: rect.right + self.right,
            bottom: rect.bottom + self.bottom,
        }
    }
}

/// What the WM has done to a window's alpha.
///
/// Recorded on the first write and cleared on restore, so the WM undoes exactly
/// what it did and nothing the app did itself.
#[derive(Clone, Copy, Debug, PartialEq, Eq, Structural)]
pub enum AlphaState {
    /// The WM has not written the window's alpha.
    Untouched,
    /// The WM wrote alpha to a window its app had already made layered.
    Written,
    /// The WM made the window layered in order to write alpha.
    Layered,
}

impl Default for AlphaState {
    fn default() -> (state: Self)
        ensures
            state is Untouched,
    {
        AlphaState::Untouched
    }
}

#[derive(Clone, Debug)]
pub struct NativeWindowProperties {
    pub title: String,
    /// When the title was last read.
    pub title_read_at: u64,
    /// Class of the window, on Windows.
    pub class_name: Option<String>,
    /// Bundle of the window's application, on macOS, if it has one.
    pub bundle_id: Option<String>,
    pub process_name: String,
    pub frame: Rect,
    pub is_minimized: bool,
    pub is_maximized: bool,
    pub is_resizable: bool,
    /// The invisible borders of the window, on Windows.
    pub shadow_borders: Option<RectDelta>,
    /// What the WM has done to the window's alpha, so it can be undone.
    pub alpha_state: AlphaState,
}

/// What the operating system answered about a window.
pub struct WindowReadings {
    pub title: Result<String, PlatformError>,
    /// Only asked for on Windows.
    pub class_name: Result<String, PlatformError>,
    /// Only asked for on macOS.
    pub bundle_id: Option<String>,
    pub process_name: Result<String, PlatformError>,
    pub frame: Result<Rect, PlatformError>,
    pub is_minimized: Result<bool, PlatformError>,
    pub is_maximized: Result<bool, PlatformError>,
    pub is_resizable: Result<bool, PlatformError>,
    /// Only asked for on Windows.
    pub shadow_borders: Result<RectDelta, PlatformError>,
}

impl WindowReadings {
    /// The first answer that is an error, in the order in which the questions
    /// are asked.
    pub open spec fn first_error(self, platform: Platform) -> Option<PlatformError> {
        if self.title is Err {
            Some(self.title->Err_0)
        } else if platform is Windows && self.class_name is Err {
            Some(self.class_name->Err_0)
        } else if self.process_name is Err {
            Some(self.process_name->Err_0)
        } else if self.frame is Err {
            Some(self.frame->Err_0)
        } else if self.is_minimized is Err {
            Some(self.is_minimized->Err_0)
        } else if self.is_maximized is Err {
            Some(self.is_maximized->Err_0)
        } else if self.is_resizable is Err {
            Some(self.is_resizable->Err_0)
        } else if platform is Windows && self.shadow_borders is Err {
            Some(self.shadow_borders->Err_0)
        } else {
            None
        }
    }
}

impl NativeWindowProperties {
    /// The properties of a window as the operating system tells them at `now`.
    pub open spec fn told(readings: WindowReadings, platform: Platform, now: u64) -> Self {
        NativeWindowProperties {
            title: readings.title->Ok_0,
            title_read_at: now,
            class_name: if platform is Windows {
                Some(readings.class_name->Ok_0)
            } else {
                None
            },
            bundle_id: if platform is MacOs {
                readings.bundle_id
            } else {
                None
            },
            process_name: readings.process_name->Ok_0,
            frame: readings.frame->Ok_0,
            is_minimized: readings.is_minimized->Ok_0,
            is_maximized: readings.is_maximized->Ok_0,
            is_resizable: readings.is_resizable->Ok_0,
            shadow_borders: if platform is Windows {
                Some(readings.shadow_borders->Ok_0)
            } else {
                None
            },
            alpha_state: AlphaState::Untouched,
        }
    }

    /// Takes down what the operating system told about a window at `now`. The
    /// first error stands for all.
    pub fn try_from(readings: WindowReadings, platform: Platform, now: u64) -> (properties: Result<
        Self,
        PlatformError,
    >)
        ensures
            properties == (match readings.first_error(platform) {
                Some(error) => Err(error),
                None => Ok(Self::told(readings, platform, now)),
            }),
            properties is Ok <==> readings.title is Ok && readings.process_name is Ok
                && readings.frame is Ok && readings.is_minimized is Ok && readings.is_maximized is Ok
                && readings.is_resizable is Ok && (platform is Windows ==> readings.class_name is Ok
                && readings.shadow_borders is Ok),
    {
        let title: String = match readings.title {
            Ok(title) => title,
            Err(error) => return Err(error),
        };
        let class_name: Option<String> = match platform {
            Platform::Windows => match readings.class_name {
                Ok(class_name) => Some(class_name),
                Err(error) => return Err(error),
            },
            Platform::MacOs => None,
        };
        let bundle_id: Option<String> = match platform {
            Platform::Windows => None,
            Platform::MacOs => readings.bundle_id,
        };
        let process_name: String = match readings.process_name {
            Ok(process_name) => process_name,
            Err(error) => return Err(error),
        };
        let frame: Rect = match readings.frame {
            Ok(frame) => frame,
            Err(error) => return Err(error),
        };
        let is_minimized: bool = match readings.is_minimized {
            Ok(is_minimized) => is_minimized,
            Err(error) => return Err(error),
        };
        let is_maximized: bool = match readings.is_maximized {
            Ok(is_maximized) => is_maximized,
            Err(error) => return Err(error),
        };
        let is_resizable: bool = match readings.is_resizable {
            Ok(is_resizable) => is_resizable,
            Err(error) => return Err(error),
        };
        let shadow_borders: Option<RectDelta> = match platform {
            Platform::Windows => match readings.shadow_borders {
                Ok(shadow_borders) => Some(shadow_borders),
                Err(error) => return Err(error),
            },
            Platform::MacOs => None,
        };
        let alpha_state: AlphaState = AlphaState::default();
        Ok(
            NativeWindowProperties {
                title,
                title_read_at: now,
                class_name,
                bundle_id,
                process_name,
                frame,
                is_minimized,
                is_maximized,
                is_resizable,
                shadow_borders,
                alpha_state,
            },
        )
    }

    /// Whether a title that changed at `now` is read: not if it was read less
    /// than a gap ago.
    pub open spec fn reads_title(&self, now: u64) -> bool {
        now - self.title_read_at >= TITLE_READ_INTERVAL
    }

    /// Takes down a title that was read at `now`, if it could be read. Tells
    /// whether the window rules for title changes are to run.
    pub fn title_read(&mut self, title: Option<String>, now: u64) -> (runs_rules: bool)
        ensures
            match title {
                Some(title) => {
                    &&& runs_rules
                    &&& *final(self) == (NativeWindowProperties {
                        title,
                        title_read_at: now,
                        ..*old(self)
                    })
                },
                None => !runs_rules && *final(self) == *old(self),
            },
    {
        match title {
            Some(title) => {
                self.title = title;
                self.title_read_at = now;
                true
            },
            None => false,
        }
    }
}

/// Decides whether the title of a window is read after it changed at `now`. A
/// window that is not managed is left alone.
///
/// Reading a title is a blocking call into the app that just changed it, on the
/// thread that also handles input. A terminal rewrites its title several times
/// a second while busy, so answering every event means waiting on the slowest
/// app at its slowest moment, over and over. Coalesce: a title is read once per
/// gap.
pub fn handle_window_title_changed(window: Option<&NativeWindowProperties>, now: u64) -> (reads:
    bool)
    ensures
        reads == (match window {
            Some(window) => window.reads_title(now),
            None => false,
        }),
{
    match window {
        Some(window) => now >= window.title_read_at && now - window.title_read_at
            >= TITLE_READ_INTERVAL,
        None => false,
    }
}

/// Two titles of one window that are taken down are read at least a gap apart,
/// whatever happens between, and once a gap has passed the next change is read.
pub proof fn law_title_reads_are_spaced(
    before: NativeWindowProperties,
    title: String,
    read_at: u64,
    now: u64,
)
    ensures
        ({
            let window = NativeWindowProperties { title, title_read_at: read_at, ..before };
            window.reads_title(now) <==> now >= read_at + TITLE_READ_INTERVAL
        }),
{
}

/// What is known of a window is what the operating system answered, each answer
/// in its place. The class and the borders of a window are known on Windows
/// only, its bundle on macOS only, and its alpha has not been touched.
pub proof fn law_properties_are_what_was_answered(
    readings: WindowReadings,
    platform: Platform,
    now: u64,
)
    requires
        readings.first_error(platform) is None,
    ensures
        ({
            let told = NativeWindowProperties::told(readings, platform, now);
            &&& readings.title == Ok::<String, PlatformError>(told.title)
            &&& readings.process_name == Ok::<String, PlatformError>(told.process_name)
            &&& readings.frame == Ok::<Rect, PlatformError>(told.frame)
            &&& readings.is_minimized == Ok::<bool, PlatformError>(told.is_minimized)
            &&& readings.is_maximized == Ok::<bool, PlatformError>(told.is_maximized)
            &&& readings.is_resizable == Ok::<bool, PlatformError>(told.is_resizable)
            &&& told.title_read_at == now
            &&& told.alpha_state is Untouched
            &&& platform is Windows ==> {
                &&& told.class_name is Some
                &&& readings.class_name == Ok::<String, PlatformError>(told.class_name->0)
                &&& told.shadow_borders is Some
                &&& readings.shadow_borders == Ok::<RectDelta, PlatformError>(
                    told.shadow_borders->0,
                )
                &&& told.bundle_id is None
            }
            &&& platform is MacOs ==> {
                &&& told.class_name is None
                &&& told.shadow_borders is None
                &&& told.bundle_id == readings.bundle_id
            }
        }),
{
}

/// An answer that is an error is told, unless an earlier one is too: the title
/// is asked for first, then the class on Windows, the process, the frame,
/// whether the window is minimized, maximized and resizable, and last its
/// borders on Windows. What is not asked for is never an error.
pub proof fn law_the_first_error_is_told(readings: WindowReadings, platform: Platform)
    ensures
        ({
            let told = readings.first_error(platform);
            let named = !(readings.title is Err) && !(platform is Windows
                && readings.class_name is Err);
            let placed = named && !(readings.process_name is Err) && !(readings.frame is Err);
            let sized = placed && !(readings.is_minimized is Err) && !(
            readings.is_maximized is Err);
            &&& readings.title matches Err(error) ==> told == Some(error)
            &&& platform is Windows && !(readings.title is Err) ==> (
            readings.class_name matches Err(error) ==> told == Some(error))
            &&& named ==> (readings.process_name matches Err(error) ==> told == Some(error))
            &&& named && !(readings.process_name is Err) ==> (
            readings.frame matches Err(error) ==> told == Some(error))
            &&& placed ==> (readings.is_minimized matches Err(error) ==> told == Some(error))
            &&& placed && !(readings.is_minimized is Err) ==> (
            readings.is_maximized matches Err(error) ==> told == Some(error))
            &&& sized ==> (readings.is_resizable matches Err(error) ==> told == Some(error))
            &&& sized && !(readings.is_resizable is Err) && platform is Windows ==> (
            readings.shadow_borders matches Err(error) ==> told == Some(error))
            &&& sized && !(readings.is_resizable is Err) && (platform is Windows ==> !(
            readings.shadow_borders is Err)) ==> told is None
        }),
{
}

/// A title is read if 200 milliseconds have passed since it was read last, and
/// otherwise not.
pub proof fn law_titles_are_read_after_the_gap(window: NativeWindowProperties, now: u64)
    ensures
        window.reads_title(now) <==> now - window.title_read_at >= 200 * 1_000_000,
{
}

} // verus!
