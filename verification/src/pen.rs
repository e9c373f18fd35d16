//! Raw evdev pen input: the full digitizer, with full-resolution pressure,
//! hover and the eraser tip, decoded into one sample per changed frame.

pub mod elan;
pub mod wacom;

use vstd::prelude::*;
use crate::evdev::{decode_all, records, EV_ABS, EV_KEY, EV_SYN, SYN_REPORT};
use crate::panel::Model;
use vstd::arithmetic::div_mod::{lemma_div_is_ordered, lemma_div_multiples_vanish, lemma_div_pos_is_pos};
use vstd::arithmetic::mul::{lemma_mul_inequality, lemma_mul_is_commutative};

verus! {

/// Rust's `/` on integers: the quotient rounded toward zero.
pub open spec fn trunc_div(a: int, b: int) -> int {
    if a >= 0 { a / b } else { -((-a) / b) }
}


/// Full-scale pressure reported by the digitizers.
pub const MAX_PRESSURE: i32 = 4096;

pub const ABS_X: u16 = 0;
pub const ABS_Y: u16 = 1;
pub const ABS_PRESSURE: u16 = 24;
pub const BTN_TOOL_PEN: u16 = 320;
pub const BTN_TOOL_RUBBER: u16 = 321;
pub const BTN_TOUCH: u16 = 330;

#[derive(Clone, Copy, Debug, PartialEq, Eq, Structural)]
pub enum Tool {
    Pen,
    Eraser,
}

#[derive(Clone, Copy, Debug)]
pub struct PenSample {
    /// Screen coordinates.
    pub x: i32,
    pub y: i32,
    /// 0..4096
    pub pressure: i32,
    pub tool: Tool,
    pub touching: bool,
}

/// `raw_x` is one the model's digitizer mapping can scale.
pub open spec fn raw_x_ok(model: Model, raw_x: i32) -> bool {
    match model {
        Model::PaperPro => elan::raw_x_ok(raw_x),
        Model::Rm2 => wacom::raw_x_ok(raw_x),
    }
}

/// `raw_y` is one the model's digitizer mapping can scale.
pub open spec fn raw_y_ok(model: Model, raw_y: i32) -> bool {
    match model {
        Model::PaperPro => elan::raw_y_ok(raw_y),
        Model::Rm2 => wacom::raw_y_ok(raw_y),
    }
}

pub open spec fn spec_map(model: Model, raw_x: i32, raw_y: i32) -> (i32, i32) {
    match model {
        Model::PaperPro => elan::spec_map(raw_x, raw_y),
        Model::Rm2 => wacom::spec_map(raw_x, raw_y),
    }
}

/// The digitizer mapping of `model`.
pub fn map(model: Model, raw_x: i32, raw_y: i32) -> (r: (i32, i32))
    requires
        raw_x_ok(model, raw_x),
        raw_y_ok(model, raw_y),
    ensures
        r == spec_map(model, raw_x, raw_y),
{
    match model {
        Model::PaperPro => elan::map(raw_x, raw_y),
        Model::Rm2 => wacom::map(raw_x, raw_y),
    }
}

/// `v` limited to `[lo, hi]` (as `Ord::clamp`, for `lo <= hi`).
pub open spec fn clamp(v: int, lo: int, hi: int) -> int {
    if v < lo { lo } else if v > hi { hi } else { v }
}

/// The decoder's state: the descriptor it reads, the model it maps for,
/// and what the current frame has reported so far.
pub struct PenView {
    pub fd: i32,
    pub model: Model,
    pub raw_x: i32,
    pub raw_y: i32,
    pub pressure: i32,
    pub tool: Tool,
    pub touching: bool,
    /// Something changed since the last SYN_REPORT.
    pub dirty: bool,
}

impl PenView {
    /// Origin axes, zero pressure, pen tool, no contact, nothing pending.
    pub open spec fn is_fresh(self) -> bool {
        &&& self.raw_x == 0 && self.raw_y == 0 && self.pressure == 0
        &&& self.tool == Tool::Pen
        &&& !self.touching && !self.dirty
    }

    /// The sample this state stands for, clamped to the screen.
    pub open spec fn sample(self) -> PenSample {
        let (x, y) = spec_map(self.model, self.raw_x, self.raw_y);
        PenSample {
            x: clamp(x as int, 0, self.model.spec_screen_w() - 1) as i32,
            y: clamp(y as int, 0, self.model.spec_screen_h() - 1) as i32,
            pressure: self.pressure,
            tool: self.tool,
            touching: self.touching,
        }
    }

    /// The record closes a changed frame: the sample is made here.
    pub open spec fn closes_frame(self, rec: (u16, u16, i32)) -> bool {
        rec.0 == EV_SYN && rec.1 == SYN_REPORT && self.dirty
    }

    /// The record can be taken: where it makes a sample, the stored axes
    /// can be mapped without leaving `i32`.
    pub open spec fn accepts(self, rec: (u16, u16, i32)) -> bool {
        self.closes_frame(rec) ==> raw_x_ok(self.model, self.raw_x) && raw_y_ok(self.model, self.raw_y)
    }

    /// The state after one record. Axis, pressure, contact and tool records
    /// change the frame; a SYN_REPORT closes it.
    pub open spec fn after(self, rec: (u16, u16, i32)) -> PenView {
        let (t, c, v) = rec;
        if t == EV_ABS && c == ABS_X {
            PenView { raw_x: v, dirty: true, ..self }
        } else if t == EV_ABS && c == ABS_Y {
            PenView { raw_y: v, dirty: true, ..self }
        } else if t == EV_ABS && c == ABS_PRESSURE {
            PenView { pressure: v, dirty: true, ..self }
        } else if t == EV_KEY && c == BTN_TOOL_PEN && v == 1 {
            PenView { tool: Tool::Pen, dirty: true, ..self }
        } else if t == EV_KEY && c == BTN_TOOL_RUBBER {
            PenView { tool: if v == 1 { Tool::Eraser } else { Tool::Pen }, dirty: true, ..self }
        } else if t == EV_KEY && c == BTN_TOUCH {
            PenView { touching: v == 1, dirty: true, ..self }
        } else if t == EV_SYN && c == SYN_REPORT {
            PenView { dirty: false, ..self }
        } else {
            self
        }
    }

    /// The sample one record emits: a SYN_REPORT closing a frame that changed something.
    pub open spec fn emits(self, rec: (u16, u16, i32)) -> Option<PenSample> {
        if self.closes_frame(rec) {
            Some(self.sample())
        } else {
            None
        }
    }

    /// The state after a run of records.
    pub open spec fn after_all(self, recs: Seq<(u16, u16, i32)>) -> PenView
        decreases recs.len(),
    {
        if recs.len() == 0 {
            self
        } else {
            self.after_all(recs.drop_last()).after(recs.last())
        }
    }

    /// The samples a run of records emits, in order.
    pub open spec fn emitted(self, recs: Seq<(u16, u16, i32)>) -> Seq<PenSample>
        decreases recs.len(),
    {
        if recs.len() == 0 {
            Seq::empty()
        } else {
            let before = self.after_all(recs.drop_last());
            let prev = self.emitted(recs.drop_last());
            match before.emits(recs.last()) {
                Some(s) => prev.push(s),
                None => prev,
            }
        }
    }

    /// Every record of the run can be taken, in the state the records before it leave.
    pub open spec fn accepts_all(self, recs: Seq<(u16, u16, i32)>) -> bool {
        forall|i: int| 0 <= i < recs.len() ==> #[trigger] self.after_all(recs.take(i)).accepts(recs[i])
    }
}

/// The stylus device: its descriptor and the state accumulated between
/// SYN_REPORTs.
#[derive(Debug)]
pub struct PenDevice {
    fd: i32,
    model: Model,
    raw_x: i32,
    raw_y: i32,
    pressure: i32,
    tool: Tool,
    touching: bool,
    dirty: bool,
}

impl View for PenDevice {
    type V = PenView;

    closed spec fn view(&self) -> PenView {
        PenView {
            fd: self.fd,
            model: self.model,
            raw_x: self.raw_x,
            raw_y: self.raw_y,
            pressure: self.pressure,
            tool: self.tool,
            touching: self.touching,
            dirty: self.dirty,
        }
    }
}

impl PenDevice {
    /// A fresh device state around an opened descriptor: pen tool, no
    /// contact, origin axes, nothing pending.
    pub fn new(fd: i32, model: Model) -> (r: PenDevice)
        ensures
            r@.fd == fd,
            r@.model == model,
            r@.is_fresh(),
    {
        PenDevice { fd, model, raw_x: 0, raw_y: 0, pressure: 0, tool: Tool::Pen, touching: false, dirty: false }
    }

    pub fn raw_fd(&self) -> (fd: i32)
        ensures
            fd == self@.fd,
    {
        self.fd
    }

    fn duplicate(&self) -> (r: PenDevice)
        ensures
            r@ == self@,
    {
        PenDevice {
            fd: self.fd,
            model: self.model,
            raw_x: self.raw_x,
            raw_y: self.raw_y,
            pressure: self.pressure,
            tool: self.tool,
            touching: self.touching,
            dirty: self.dirty,
        }
    }

    /// Take one record into the frame state; returns the sample it closes, if any.
    pub fn feed(&mut self, etype: u16, code: u16, value: i32) -> (r: Option<PenSample>)
        requires
            old(self)@.accepts((etype, code, value)),
        ensures
            final(self)@ == old(self)@.after((etype, code, value)),
            r == old(self)@.emits((etype, code, value)),
    {
        if etype == EV_ABS && code == ABS_X {
            self.raw_x = value;
            self.dirty = true;
            None
        } else if etype == EV_ABS && code == ABS_Y {
            self.raw_y = value;
            self.dirty = true;
            None
        } else if etype == EV_ABS && code == ABS_PRESSURE {
            self.pressure = value;
            self.dirty = true;
            None
        } else if etype == EV_KEY && code == BTN_TOOL_PEN && value == 1 {
            self.tool = Tool::Pen;
            self.dirty = true;
            None
        } else if etype == EV_KEY && code == BTN_TOOL_RUBBER {
            self.tool = if value == 1 { Tool::Eraser } else { Tool::Pen };
            self.dirty = true;
            None
        } else if etype == EV_KEY && code == BTN_TOUCH {
            self.touching = value == 1;
            self.dirty = true;
            None
        } else if etype == EV_SYN && code == SYN_REPORT {
            if self.dirty {
                self.dirty = false;
                let (x, y) = map(self.model, self.raw_x, self.raw_y);
                let w = self.model.screen_w();
                let h = self.model.screen_h();
                let cx = if x < 0 { 0 } else if x > w - 1 { w - 1 } else { x };
                let cy = if y < 0 { 0 } else if y > h - 1 { h - 1 } else { y };
                Some(PenSample { x: cx, y: cy, pressure: self.pressure, tool: self.tool, touching: self.touching })
            } else {
                None
            }
        } else {
            None
        }
    }

    /// Whether `buf` can be fed: every sample it makes maps without overflow.
    pub fn can_feed(&self, buf: &[u8]) -> (r: bool)
        ensures
            r == self@.accepts_all(records(buf@)),
    {
        let recs = decode_all(buf);
        let mut probe = self.duplicate();
        let ghost start = self@;
        let mut i: usize = 0;
        while i < recs.len()
            invariant
                recs@ == records(buf@),
                i <= recs@.len(),
                start == self@,
                probe@ == start.after_all(recs@.take(i as int)),
                forall|j: int| 0 <= j < i ==> #[trigger] start.after_all(recs@.take(j)).accepts(recs@[j]),
            decreases recs@.len() - i,
        {
            let (t, c, v) = recs[i];
            if t == EV_SYN && c == SYN_REPORT && probe.dirty {
                let ok_x = match probe.model {
                    Model::PaperPro => elan::raw_x_in_range(probe.raw_x),
                    Model::Rm2 => wacom::raw_x_in_range(probe.raw_x),
                };
                let ok_y = match probe.model {
                    Model::PaperPro => elan::raw_y_in_range(probe.raw_y),
                    Model::Rm2 => wacom::raw_y_in_range(probe.raw_y),
                };
                if !(ok_x && ok_y) {
                    assert(!start.after_all(recs@.take(i as int)).accepts(recs@[i as int]));
                    return false;
                }
            }
            assert(start.after_all(recs@.take(i as int)).accepts(recs@[i as int]));
            assert(recs@.take(i + 1).drop_last() =~= recs@.take(i as int));
            probe.feed(t, c, v);
            i = i + 1;
        }
        true
    }

    /// Take a whole read buffer of records; returns one sample per
    /// SYN_REPORT frame that changed state, in order. A trailing partial
    /// record is ignored.
    pub fn feed_bytes(&mut self, buf: &[u8]) -> (r: Vec<PenSample>)
        requires
            old(self)@.accepts_all(records(buf@)),
        ensures
            final(self)@ == old(self)@.after_all(records(buf@)),
            r@ == old(self)@.emitted(records(buf@)),
    {
        let recs = decode_all(buf);
        let ghost start = self@;
        let mut out: Vec<PenSample> = Vec::new();
        let mut i: usize = 0;
        while i < recs.len()
            invariant
                recs@ == records(buf@),
                i <= recs@.len(),
                start.accepts_all(recs@),
                self@ == start.after_all(recs@.take(i as int)),
                out@ == start.emitted(recs@.take(i as int)),
            decreases recs@.len() - i,
        {
            let (t, c, v) = recs[i];
            assert(start.after_all(recs@.take(i as int)).accepts(recs@[i as int]));
            assert(recs@.take(i + 1).drop_last() =~= recs@.take(i as int));
            let s = self.feed(t, c, v);
            match s {
                Some(sample) => out.push(sample),
                None => {},
            }
            i = i + 1;
        }
        assert(recs@.take(recs@.len() as int) =~= recs@);
        out
    }
}

/// Scaling `a` and `b` in `[0, m]` by `k / m` keeps their order and lands in `[0, k]`.
pub proof fn lemma_scale(a: int, b: int, k: int, m: int)
    requires
        0 <= a <= b <= m,
        0 <= k,
        0 < m,
    ensures
        0 <= (a * k) / m <= (b * k) / m <= k,
{
    lemma_mul_inequality(0, a, k);
    lemma_mul_inequality(a, b, k);
    lemma_mul_inequality(b, m, k);
    lemma_div_pos_is_pos(a * k, m);
    lemma_div_is_ordered(a * k, b * k, m);
    lemma_div_is_ordered(b * k, m * k, m);
    lemma_mul_is_commutative(m, k);
    lemma_div_multiples_vanish(k, m);
}

/// The number of SYN_REPORT records in a run.
pub open spec fn syn_reports(recs: Seq<(u16, u16, i32)>) -> nat
    decreases recs.len(),
{
    if recs.len() == 0 {
        0
    } else {
        syn_reports(recs.drop_last()) + if recs.last().0 == EV_SYN && recs.last().1 == SYN_REPORT {
            1nat
        } else {
            0nat
        }
    }
}


impl PenView {
    /// Every sample the decoder emits lies on the screen of its model.
    pub proof fn lemma_samples_on_screen(self, recs: Seq<(u16, u16, i32)>)
        ensures
            forall|i: int|
                0 <= i < self.emitted(recs).len() ==> {
                    &&& 0 <= #[trigger] self.emitted(recs)[i].x <= self.model.spec_screen_w() - 1
                    &&& 0 <= self.emitted(recs)[i].y <= self.model.spec_screen_h() - 1
                },
        decreases recs.len(),
    {
        if recs.len() > 0 {
            self.lemma_samples_on_screen(recs.drop_last());
            self.lemma_model_kept(recs.drop_last());
        }
    }

    /// Decoding never changes which model the device maps for, nor its descriptor.
    pub proof fn lemma_model_kept(self, recs: Seq<(u16, u16, i32)>)
        ensures
            self.after_all(recs).model == self.model,
            self.after_all(recs).fd == self.fd,
        decreases recs.len(),
    {
        if recs.len() > 0 {
            self.lemma_model_kept(recs.drop_last());
        }
    }

    /// A run of records emits at most one sample per SYN_REPORT.
    pub proof fn lemma_at_most_one_sample_per_report(self, recs: Seq<(u16, u16, i32)>)
        ensures
            self.emitted(recs).len() <= syn_reports(recs),
        decreases recs.len(),
    {
        if recs.len() > 0 {
            self.lemma_at_most_one_sample_per_report(recs.drop_last());
        }
    }

    /// Reading nothing changes nothing: no records leave the state as it was
    /// and emit no sample.
    pub proof fn lemma_empty_read(self)
        ensures
            self.after_all(Seq::empty()) == self,
            self.emitted(Seq::empty()).len() == 0,
    {
    }

    /// A SYN_REPORT closes the frame: a second one with nothing in between
    /// emits no sample.
    pub proof fn lemma_report_closes_frame(self, v: i32, w: i32)
        ensures
            self.after((EV_SYN, SYN_REPORT, v)).emits((EV_SYN, SYN_REPORT, w)) is None,
    {
    }

    /// Every change of state — axes, pressure, contact, or tool — changes
    /// the frame, so the next SYN_REPORT reports it with the new values.
    pub proof fn lemma_changes_are_reported(self, rec: (u16, u16, i32), v: i32)
        requires
            (rec.0 == EV_ABS && (rec.1 == ABS_X || rec.1 == ABS_Y || rec.1 == ABS_PRESSURE))
                || (rec.0 == EV_KEY && (rec.1 == BTN_TOUCH || rec.1 == BTN_TOOL_RUBBER))
                || (rec.0 == EV_KEY && rec.1 == BTN_TOOL_PEN && rec.2 == 1),
        ensures
            self.after(rec).dirty,
            self.after(rec).emits((EV_SYN, SYN_REPORT, v)) == Some(self.after(rec).sample()),
            rec.0 == EV_KEY && rec.1 == BTN_TOOL_RUBBER ==> self.after(rec).sample().tool == (if rec.2 == 1 {
                Tool::Eraser
            } else {
                Tool::Pen
            }),
            rec.0 == EV_KEY && rec.1 == BTN_TOUCH ==> self.after(rec).sample().touching == (rec.2 == 1),
            rec.0 == EV_ABS && rec.1 == ABS_PRESSURE ==> self.after(rec).sample().pressure == rec.2,
    {
    }

    /// A changed frame is reported at its SYN_REPORT with the stored
    /// pressure, tool and contact, and the mapped, clamped position.
    pub proof fn lemma_changed_frame_reported(self, v: i32)
        requires
            self.dirty,
        ensures
            self.emits((EV_SYN, SYN_REPORT, v)) == Some(self.sample()),
            self.sample().pressure == self.pressure,
            self.sample().tool == self.tool,
            self.sample().touching == self.touching,
            self.sample().x == clamp(spec_map(self.model, self.raw_x, self.raw_y).0 as int, 0, self.model.spec_screen_w() - 1),
            self.sample().y == clamp(spec_map(self.model, self.raw_x, self.raw_y).1 as int, 0, self.model.spec_screen_h() - 1),
    {
    }
}


impl PenView {
    /// A SYN_REPORT only closes the frame: the axes, pressure, tool and
    /// contact accumulated so far stay as they were, for the next frame.
    pub proof fn lemma_report_keeps_state(self, v: i32)
        ensures
            self.after((EV_SYN, SYN_REPORT, v)).raw_x == self.raw_x,
            self.after((EV_SYN, SYN_REPORT, v)).raw_y == self.raw_y,
            self.after((EV_SYN, SYN_REPORT, v)).pressure == self.pressure,
            self.after((EV_SYN, SYN_REPORT, v)).tool == self.tool,
            self.after((EV_SYN, SYN_REPORT, v)).touching == self.touching,
            self.after((EV_SYN, SYN_REPORT, v)).model == self.model,
            self.after((EV_SYN, SYN_REPORT, v)).fd == self.fd,
            !self.after((EV_SYN, SYN_REPORT, v)).dirty,
    {
    }

    /// evdev reports only what changed. After a reported frame, a frame
    /// that reports only a new raw X gives a sample with the first sample's
    /// pressure, tool and contact, and with the screen coordinate that raw X
    /// does not feed unchanged (y on the Paper Pro, x on the rM2, whose
    /// digitizer is rotated).
    pub proof fn lemma_unreported_values_persist(self, x2: i32, v: i32, w: i32)
        requires
            self.dirty,
        ensures
            ({
                let first = self.emits((EV_SYN, SYN_REPORT, v));
                let next = self.after((EV_SYN, SYN_REPORT, v)).after((EV_ABS, ABS_X, x2));
                let second = next.emits((EV_SYN, SYN_REPORT, w));
                &&& first is Some && second is Some
                &&& second->0.pressure == first->0.pressure
                &&& second->0.tool == first->0.tool
                &&& second->0.touching == first->0.touching
                &&& self.model == Model::PaperPro ==> second->0.y == first->0.y
                &&& self.model == Model::Rm2 ==> second->0.x == first->0.x
            }),
    {
    }
}


impl PenView {
    /// Each record sets exactly its own field: an axis record its axis,
    /// pressure its pressure, contact the contact, the tool keys the tool.
    pub proof fn lemma_records_set_their_field(self, v: i32)
        ensures
            self.after((EV_ABS, ABS_X, v)).raw_x == v && self.after((EV_ABS, ABS_X, v)).raw_y == self.raw_y
                && self.after((EV_ABS, ABS_X, v)).pressure == self.pressure,
            self.after((EV_ABS, ABS_Y, v)).raw_y == v && self.after((EV_ABS, ABS_Y, v)).raw_x == self.raw_x
                && self.after((EV_ABS, ABS_Y, v)).pressure == self.pressure,
            self.after((EV_ABS, ABS_PRESSURE, v)).pressure == v && self.after((EV_ABS, ABS_PRESSURE, v)).raw_x
                == self.raw_x && self.after((EV_ABS, ABS_PRESSURE, v)).raw_y == self.raw_y,
            self.after((EV_KEY, BTN_TOUCH, v)).touching == (v == 1) && self.after((EV_KEY, BTN_TOUCH, v)).tool
                == self.tool,
            self.after((EV_KEY, BTN_TOOL_RUBBER, 1)).tool == Tool::Eraser,
            v != 1 ==> self.after((EV_KEY, BTN_TOOL_RUBBER, v)).tool == Tool::Pen,
            self.after((EV_KEY, BTN_TOOL_PEN, 1)).tool == Tool::Pen,
            v != 1 ==> self.after((EV_KEY, BTN_TOOL_PEN, v)) == self,
            self.after((EV_KEY, BTN_TOOL_RUBBER, v)).touching == self.touching,
    {
    }
}

} // verus!
