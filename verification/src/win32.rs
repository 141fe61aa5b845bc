//! Values that the Windows API fixes, as the `windows` crate names them.

use vstd::prelude::*;
use windows::Win32::Foundation::{WAIT_OBJECT_0, WAIT_TIMEOUT};
use windows::Win32::Graphics::Dwm::{
    DWM_TNP_OPACITY, DWM_TNP_RECTDESTINATION, DWM_TNP_SOURCECLIENTAREAONLY, DWM_TNP_VISIBLE,
};
use windows::Win32::UI::WindowsAndMessaging::{HTTRANSPARENT, WM_NCHITTEST};

verus! {

/// `WAIT_OBJECT_0` of the `windows` crate: the result of a wait for something
/// that happened. Its value is 0.
#[verifier::external_body]
pub(crate) fn wait_object_0() -> (code: u32)
    ensures
        code == 0,
{
    WAIT_OBJECT_0.0
}

/// `WAIT_TIMEOUT` of the `windows` crate: the result of a wait that took too
/// long. Its value is 258.
#[verifier::external_body]
pub(crate) fn wait_timeout() -> (code: u32)
    ensures
        code == 258,
{
    WAIT_TIMEOUT.0
}

/// `DWM_TNP_RECTDESTINATION` of the `windows` crate: thumbnail properties give
/// where to draw. Its value is 1.
#[verifier::external_body]
pub(crate) fn dwm_tnp_rectdestination() -> (flag: u32)
    ensures
        flag == 1,
{
    DWM_TNP_RECTDESTINATION
}

/// `DWM_TNP_OPACITY` of the `windows` crate: thumbnail properties give an
/// opacity. Its value is 4.
#[verifier::external_body]
pub(crate) fn dwm_tnp_opacity() -> (flag: u32)
    ensures
        flag == 4,
{
    DWM_TNP_OPACITY
}

/// `DWM_TNP_VISIBLE` of the `windows` crate: thumbnail properties tell whether
/// the thumbnail is visible. Its value is 8.
#[verifier::external_body]
pub(crate) fn dwm_tnp_visible() -> (flag: u32)
    ensures
        flag == 8,
{
    DWM_TNP_VISIBLE
}

/// `DWM_TNP_SOURCECLIENTAREAONLY` of the `windows` crate: thumbnail properties
/// tell whether only the client area is drawn. Its value is 16.
#[verifier::external_body]
pub(crate) fn dwm_tnp_sourceclientareaonly() -> (flag: u32)
    ensures
        flag == 16,
{
    DWM_TNP_SOURCECLIENTAREAONLY
}

/// `WM_NCHITTEST` of the `windows` crate: the message that asks what part of a
/// window is under the pointer. Its value is 132.
#[verifier::external_body]
pub(crate) fn wm_nchittest() -> (message: u32)
    ensures
        message == 132,
{
    WM_NCHITTEST
}

/// `HTTRANSPARENT` of the `windows` crate: the answer that the pointer is over
/// the window below. Its value is -1.
#[verifier::external_body]
pub(crate) fn httransparent() -> (answer: i32)
    ensures
        answer == -1,
{
    HTTRANSPARENT
}

} // verus!
