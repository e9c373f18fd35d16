//! Display backends and what each panel operation asks of them:
//!  - qtfb (windowed, inside xochitl) whenever a window key is given;
//!  - takeover otherwise: quill (vendor engine) on the Paper Pro, or rm2fb
//!    (community server) on the reMarkable 2.
//!
//! Each operation returns the backend request to perform; the caller, which
//! owns the connections, performs it.

use vstd::prelude::*;
use crate::rm2fb::{UPDATE_MODE_FULL, UPDATE_MODE_PARTIAL, WAVEFORM_DU, WAVEFORM_GC16, WAVEFORM_GL16};

verus! {

/// quill swap mode for live ink: the fastest waveform.
pub const QUILL_MODE_FAST: i32 = 0;
/// quill swap mode for text and animation.
pub const QUILL_MODE_BALANCED: i32 = 3;
/// quill swap mode for a flashing clear.
pub const QUILL_MODE_CLEAR: i32 = 4;

/// The backend in use, holding its connection (`Q` for a qtfb client, `R`
/// for an rm2fb connection).
#[derive(Debug)]
pub enum Display<Q, R> {
    Qtfb(Q),
    Quill,
    Rm2fb(R),
}

/// One request to a backend.
#[derive(Debug, PartialEq, Eq)]
pub enum Request<'a, Q, R> {
    /// qtfb: push the rectangle `(x, y, w, h)`.
    QtfbPartial(&'a Q, i32, i32, i32, i32),
    /// qtfb: push the whole window.
    QtfbAll(&'a Q),
    /// qtfb: flashing full refresh.
    QtfbFullRefresh(&'a Q),
    /// qtfb: drain window events (an error means the window closed).
    QtfbEvents(&'a Q),
    /// qtfb: close the window.
    QtfbTerminate(&'a Q),
    /// quill: swap the rectangle `(x, y, w, h)` with a mode and a full-flash
    /// flag, then process events.
    QuillSwap(i32, i32, i32, i32, i32, i32),
    /// quill: process events.
    QuillEvents,
    /// rm2fb: update `(x, y, w, h)` with a waveform and an update mode.
    Rm2fbUpdate(&'a R, i32, i32, i32, i32, u32, u32),
    /// Nothing to do.
    Nothing,
}

impl<Q, R> Display<Q, R> {
    /// True when we own the whole device (no window system): touch and the
    /// power button are ours too.
    pub fn takeover(&self) -> (r: bool)
        ensures
            r == !(self is Qtfb),
    {
        match self {
            Display::Qtfb(_) => false,
            _ => true,
        }
    }

    /// Push a region to the panel; `fast` selects the low-latency waveform.
    pub fn update(&self, x: i32, y: i32, w: i32, h: i32, fast: bool) -> (r: Request<'_, Q, R>)
        ensures
            match self {
                Display::Qtfb(c) => r == Request::<Q, R>::QtfbPartial(c, x, y, w, h),
                Display::Quill => r == Request::<Q, R>::QuillSwap(x, y, w, h, if fast { QUILL_MODE_FAST } else { QUILL_MODE_BALANCED }, 0),
                Display::Rm2fb(fb) => r == Request::<Q, R>::Rm2fbUpdate(
                    fb,
                    x,
                    y,
                    w,
                    h,
                    if fast { WAVEFORM_DU } else { WAVEFORM_GL16 },
                    UPDATE_MODE_PARTIAL,
                ),
            },
    {
        match self {
            Display::Qtfb(c) => Request::QtfbPartial(c, x, y, w, h),
            Display::Quill => Request::QuillSwap(x, y, w, h, if fast { QUILL_MODE_FAST } else { QUILL_MODE_BALANCED }, 0),
            Display::Rm2fb(fb) => Request::Rm2fbUpdate(
                fb,
                x,
                y,
                w,
                h,
                if fast { WAVEFORM_DU } else { WAVEFORM_GL16 },
                UPDATE_MODE_PARTIAL,
            ),
        }
    }

    /// Push the whole `w` x `h` panel without flashing.
    pub fn update_all(&self, w: usize, h: usize) -> (r: Request<'_, Q, R>)
        ensures
            match self {
                Display::Qtfb(c) => r == Request::<Q, R>::QtfbAll(c),
                Display::Quill => r == Request::<Q, R>::QuillSwap(0, 0, w as i32, h as i32, QUILL_MODE_BALANCED, 0),
                Display::Rm2fb(fb) => r == Request::<Q, R>::Rm2fbUpdate(
                    fb,
                    0,
                    0,
                    w as i32,
                    h as i32,
                    WAVEFORM_GL16,
                    UPDATE_MODE_PARTIAL,
                ),
            },
    {
        match self {
            Display::Qtfb(c) => Request::QtfbAll(c),
            Display::Quill => Request::QuillSwap(0, 0, w as i32, h as i32, QUILL_MODE_BALANCED, 0),
            Display::Rm2fb(fb) => Request::Rm2fbUpdate(fb, 0, 0, w as i32, h as i32, WAVEFORM_GL16, UPDATE_MODE_PARTIAL),
        }
    }

    /// Flashing clear of the whole `w` x `h` panel (ghost removal).
    pub fn full_refresh(&self, w: usize, h: usize) -> (r: Request<'_, Q, R>)
        ensures
            match self {
                Display::Qtfb(c) => r == Request::<Q, R>::QtfbFullRefresh(c),
                Display::Quill => r == Request::<Q, R>::QuillSwap(0, 0, w as i32, h as i32, QUILL_MODE_CLEAR, 1),
                Display::Rm2fb(fb) => r == Request::<Q, R>::Rm2fbUpdate(
                    fb,
                    0,
                    0,
                    w as i32,
                    h as i32,
                    WAVEFORM_GC16,
                    UPDATE_MODE_FULL,
                ),
            },
    {
        match self {
            Display::Qtfb(c) => Request::QtfbFullRefresh(c),
            Display::Quill => Request::QuillSwap(0, 0, w as i32, h as i32, QUILL_MODE_CLEAR, 1),
            Display::Rm2fb(fb) => Request::Rm2fbUpdate(fb, 0, 0, w as i32, h as i32, WAVEFORM_GC16, UPDATE_MODE_FULL),
        }
    }

    /// Drain window-system events: qtfb has a window that can close; quill
    /// only processes its events; rm2fb has none (no events).
    pub fn pump(&self) -> (r: Request<'_, Q, R>)
        ensures
            match self {
                Display::Qtfb(c) => r == Request::<Q, R>::QtfbEvents(c),
                Display::Quill => r == Request::<Q, R>::QuillEvents,
                Display::Rm2fb(_) => r == Request::<Q, R>::Nothing,
            },
    {
        match self {
            Display::Qtfb(c) => Request::QtfbEvents(c),
            Display::Quill => Request::QuillEvents,
            Display::Rm2fb(_) => Request::Nothing,
        }
    }

    /// Close the window, if there is one.
    pub fn terminate(&self) -> (r: Request<'_, Q, R>)
        ensures
            match self {
                Display::Qtfb(c) => r == Request::<Q, R>::QtfbTerminate(c),
                _ => r == Request::<Q, R>::Nothing,
            },
    {
        match self {
            Display::Qtfb(c) => Request::QtfbTerminate(c),
            _ => Request::Nothing,
        }
    }
}

} // verus!
