//! Update requests for the reMarkable 2 takeover backend (rm2fb).
//!
//! The rm2fb server hosts the software TCON, exposes a shared-memory
//! framebuffer (1404 x 1872, RGB565) and takes mxcfb-style update requests
//! on a message queue. This module builds those requests: the region is
//! clamped to the panel and each request carries a fresh marker.

use vstd::prelude::*;
use crate::pen::clamp;
use vstd::arithmetic::div_mod::{lemma_add_mod_noop, lemma_mod_bound};

verus! {

pub const WIDTH: usize = 1404;
pub const HEIGHT: usize = 1872;
pub const BPP: usize = 2;

// mxcfb waveform / update modes (i.MX EPDC convention, as rm2fb expects).
/// 1-bit, fastest — live ink.
pub const WAVEFORM_DU: u32 = 1;
/// 16-level, highest quality.
pub const WAVEFORM_GC16: u32 = 2;
/// 16-level, no flash — text and animation.
pub const WAVEFORM_GL16: u32 = 3;
pub const UPDATE_MODE_PARTIAL: u32 = 0;
pub const UPDATE_MODE_FULL: u32 = 1;

pub const TEMP_USE_REMARKABLE: i32 = 0x0018;

/// The panel's width as the signed coordinate the requests clamp to.
pub const WIDTH_I32: i32 = 1404;
/// The panel's height as the signed coordinate the requests clamp to.
pub const HEIGHT_I32: i32 = 1872;

#[derive(Clone, Copy, Debug, PartialEq, Eq, Structural)]
pub struct MxcfbRect {
    pub top: u32,
    pub left: u32,
    pub width: u32,
    pub height: u32,
}

#[derive(Clone, Copy, Debug, PartialEq, Eq, Structural)]
pub struct MxcfbAltBufferData {
    pub phys_addr: u32,
    pub width: u32,
    pub height: u32,
    pub alt_update_region: MxcfbRect,
}

/// The payload of one update message (`struct mxcfb_update_data`).
#[derive(Clone, Copy, Debug, PartialEq, Eq, Structural)]
pub struct MxcfbUpdateData {
    pub update_region: MxcfbRect,
    pub waveform_mode: u32,
    pub update_mode: u32,
    pub update_marker: u32,
    pub temp: i32,
    pub flags: u32,
    pub dither_mode: i32,
    pub quant_bit: i32,
    pub alt_buffer_data: MxcfbAltBufferData,
}

/// The region a request for `(x, y, w, h)` covers: the origin clamped onto
/// the panel, then the size clamped to at least one pixel and to what is
/// left of the panel from there.
pub open spec fn spec_region(x: i32, y: i32, w: i32, h: i32) -> MxcfbRect {
    let cx = clamp(x as int, 0, WIDTH_I32 - 1);
    let cy = clamp(y as int, 0, HEIGHT_I32 - 1);
    let cw = clamp(w as int, 1, WIDTH_I32 - cx);
    let ch = clamp(h as int, 1, HEIGHT_I32 - cy);
    MxcfbRect { top: cy as u32, left: cx as u32, width: cw as u32, height: ch as u32 }
}

/// The marker that follows `marker` (wrapping).
pub open spec fn next_marker(marker: u32) -> u32 {
    ((marker + 1) % 0x1_0000_0000) as u32
}

/// The marker a fresh connection starts from; its first request carries the next one.
pub const INITIAL_MARKER: u32 = 1;

/// The payload of the request for `(x, y, w, h)` carrying `marker`.
pub open spec fn spec_request(marker: u32, x: i32, y: i32, w: i32, h: i32, waveform: u32, mode: u32) -> MxcfbUpdateData {
    MxcfbUpdateData {
        update_region: spec_region(x, y, w, h),
        waveform_mode: waveform,
        update_mode: mode,
        update_marker: marker,
        temp: TEMP_USE_REMARKABLE,
        flags: 0,
        dither_mode: 0,
        quant_bit: 0,
        alt_buffer_data: MxcfbAltBufferData {
            phys_addr: 0,
            width: 0,
            height: 0,
            alt_update_region: MxcfbRect { top: 0, left: 0, width: 0, height: 0 },
        },
    }
}

/// The update side of an rm2fb connection: the server's message queue and
/// the marker of the last request.
pub struct Rm2fbView {
    pub msqid: i32,
    pub marker: u32,
}

/// The update side of an rm2fb connection.
#[derive(Clone, Copy, Debug)]
pub struct Rm2fb {
    msqid: i32,
    marker: u32,
}

impl View for Rm2fb {
    type V = Rm2fbView;

    closed spec fn view(&self) -> Rm2fbView {
        Rm2fbView { msqid: self.msqid, marker: self.marker }
    }
}

impl Rm2fb {
    /// A fresh connection to the queue `msqid`.
    pub fn new(msqid: i32) -> (r: Rm2fb)
        ensures
            r@.msqid == msqid,
            r@.marker == INITIAL_MARKER,
    {
        Rm2fb { msqid, marker: INITIAL_MARKER }
    }

    pub fn msqid(&self) -> (q: i32)
        ensures
            q == self@.msqid,
    {
        self.msqid
    }

    /// Ask the server to push a region to glass: advances the marker and
    /// returns the payload to send, which carries the new marker.
    pub fn update(&mut self, x: i32, y: i32, w: i32, h: i32, waveform: u32, mode: u32) -> (d: MxcfbUpdateData)
        ensures
            final(self)@.msqid == old(self)@.msqid,
            final(self)@.marker == next_marker(old(self)@.marker),
            d == spec_request(final(self)@.marker, x, y, w, h, waveform, mode),
            d.waveform_mode == waveform,
            d.update_mode == mode,
            d.update_marker == final(self)@.marker,
            d.update_region.width >= 1 && d.update_region.height >= 1,
            d.update_region.left + d.update_region.width <= WIDTH,
            d.update_region.top + d.update_region.height <= HEIGHT,
            (0 <= x && 0 <= y && 1 <= w && 1 <= h && x + w <= WIDTH && y + h <= HEIGHT) ==> d.update_region == (
            MxcfbRect { top: y as u32, left: x as u32, width: w as u32, height: h as u32 }),
    {
        proof {
            lemma_region_on_panel(x, y, w, h);
        }
        let x = if x < 0 { 0 } else if x > WIDTH_I32 - 1 { WIDTH_I32 - 1 } else { x };
        let y = if y < 0 { 0 } else if y > HEIGHT_I32 - 1 { HEIGHT_I32 - 1 } else { y };
        let w = if w < 1 { 1 } else if w > WIDTH_I32 - x { WIDTH_I32 - x } else { w };
        let h = if h < 1 { 1 } else if h > HEIGHT_I32 - y { HEIGHT_I32 - y } else { h };
        self.marker = self.marker.wrapping_add(1);
        MxcfbUpdateData {
            update_region: MxcfbRect { top: y as u32, left: x as u32, width: w as u32, height: h as u32 },
            waveform_mode: waveform,
            update_mode: mode,
            update_marker: self.marker,
            temp: TEMP_USE_REMARKABLE,
            flags: 0,
            dither_mode: 0,
            quant_bit: 0,
            alt_buffer_data: MxcfbAltBufferData {
                phys_addr: 0,
                width: 0,
                height: 0,
                alt_update_region: MxcfbRect { top: 0, left: 0, width: 0, height: 0 },
            },
        }
    }
}

/// The marker the `k`-th request of a fresh connection carries (wrapping).
pub open spec fn marker_after(k: nat) -> u32 {
    ((INITIAL_MARKER + k) % 0x1_0000_0000) as u32
}

/// Over any run of updates on a fresh connection, the marker rises by
/// exactly one per call: after `k` calls it is `marker_after(k)`, so the
/// `k`-th request carries `(1 + k) mod 2^32`.
pub proof fn lemma_markers_count_updates(states: Seq<Rm2fbView>)
    requires
        states.len() > 0,
        states[0].marker == INITIAL_MARKER,
        forall|i: int| 0 <= i < states.len() - 1 ==> #[trigger] states[i + 1].marker == next_marker(states[i].marker),
    ensures
        forall|i: int| 0 <= i < states.len() ==> #[trigger] states[i].marker == marker_after(i as nat),
    decreases states.len(),
{
    if states.len() > 1 {
        let prev = states.drop_last();
        lemma_markers_count_updates(prev);
        assert forall|i: int| 0 <= i < states.len() implies #[trigger] states[i].marker == marker_after(i as nat) by {
            if i < prev.len() {
                assert(prev[i] == states[i]);
            } else {
                let j = i - 1;
                assert(prev[j] == states[j]);
                assert(states[j + 1].marker == next_marker(states[j].marker));
                assert(states[j].marker == marker_after(j as nat));
                assert(((INITIAL_MARKER + j) % 0x1_0000_0000 + 1) % 0x1_0000_0000 == (INITIAL_MARKER + j + 1)
                    % 0x1_0000_0000) by {
                    lemma_add_mod_noop(INITIAL_MARKER + j, 1, 0x1_0000_0000);
                    lemma_mod_bound(1, 0x1_0000_0000);
                }
            }
        }
    }
}

/// Every request stays on the panel: a non-empty rectangle inside it,
/// whatever region was asked for.
pub proof fn lemma_region_on_panel(x: i32, y: i32, w: i32, h: i32)
    ensures
        spec_region(x, y, w, h).width >= 1,
        spec_region(x, y, w, h).height >= 1,
        spec_region(x, y, w, h).left + spec_region(x, y, w, h).width <= WIDTH,
        spec_region(x, y, w, h).top + spec_region(x, y, w, h).height <= HEIGHT,
{
}

/// A request that already lies on the panel is sent unchanged.
pub proof fn lemma_region_kept(x: i32, y: i32, w: i32, h: i32)
    requires
        0 <= x,
        0 <= y,
        1 <= w,
        1 <= h,
        x + w <= WIDTH,
        y + h <= HEIGHT,
    ensures
        spec_region(x, y, w, h) == (MxcfbRect { top: y as u32, left: x as u32, width: w as u32, height: h as u32 }),
{
}

/// Consecutive requests carry consecutive markers, wrapping after `u32::MAX`.
pub proof fn lemma_marker_advances(marker: u32)
    ensures
        marker < u32::MAX ==> next_marker(marker) == marker + 1,
        marker == u32::MAX ==> next_marker(marker) == 0,
{
}


/// A request carries exactly the waveform and update mode it was asked
/// for, and the marker it was given; the region is the only thing adjusted.
pub proof fn lemma_request_carries_its_arguments(marker: u32, x: i32, y: i32, w: i32, h: i32, waveform: u32, mode: u32)
    ensures
        spec_request(marker, x, y, w, h, waveform, mode).waveform_mode == waveform,
        spec_request(marker, x, y, w, h, waveform, mode).update_mode == mode,
        spec_request(marker, x, y, w, h, waveform, mode).update_marker == marker,
        spec_request(marker, x, y, w, h, waveform, mode).temp == TEMP_USE_REMARKABLE,
        spec_request(marker, x, y, w, h, waveform, mode).flags == 0,
{
}

} // verus!
