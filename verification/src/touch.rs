//! Raw multitouch input for takeover mode: quit gestures — five fingers
//! down at once, or (rM2) a swipe down from the top edge.

pub mod paper_pro;
pub mod rm2;

use vstd::prelude::*;
use crate::evdev::{decode_all, records, EV_ABS, EV_SYN, SYN_REPORT};
use crate::panel::Model;

verus! {

pub const ABS_MT_SLOT: u16 = 47;
pub const ABS_MT_POSITION_X: u16 = 53;
pub const ABS_MT_POSITION_Y: u16 = 54;
pub const ABS_MT_TRACKING_ID: u16 = 57;
pub const MAX_SLOTS: usize = 16;
/// Contacts that, down at once, close the diary.
pub const QUIT_FINGERS: usize = 5;

/// How many slots hold a contact.
pub open spec fn active_count(slots: Seq<bool>) -> nat
    decreases slots.len(),
{
    if slots.len() == 0 {
        0
    } else {
        active_count(slots.drop_last()) + if slots.last() { 1nat } else { 0nat }
    }
}

/// The slot an `ABS_MT_SLOT` value selects: negative values pick slot 0 and
/// values past the table pick the last slot.
pub open spec fn slot_of(value: i32) -> nat {
    if value < 0 { 0 } else if value >= MAX_SLOTS { (MAX_SLOTS - 1) as nat } else { value as nat }
}

/// The multitouch protocol B state: per slot, whether a contact is down,
/// its live position, and where its gesture started.
pub struct TouchView {
    pub fd: i32,
    pub model: Model,
    pub slots: Seq<bool>,
    pub cur: nat,
    pub pos: Seq<(i32, i32)>,
    pub start: Seq<Option<(i32, i32)>>,
}

impl TouchView {
    pub open spec fn wf(self) -> bool {
        &&& self.slots.len() == MAX_SLOTS
        &&& self.pos.len() == MAX_SLOTS
        &&& self.start.len() == MAX_SLOTS
        &&& self.cur < MAX_SLOTS
    }

    /// The gesture test of the model for the current slot.
    pub open spec fn swipe(self, s: (i32, i32), p: (i32, i32)) -> bool {
        match self.model {
            Model::Rm2 => rm2::spec_top_swipe_down(s.0, s.1, p.0, p.1),
            Model::PaperPro => false,
        }
    }

    /// The record is one the state can take without overflow.
    pub open spec fn accepts(self, rec: (u16, u16, i32)) -> bool {
        let cur = self.cur as int;
        let s = self.start[cur]->0;
        let p = self.pos[cur];
        (rec.0 == EV_SYN && rec.1 == SYN_REPORT && self.model == Model::Rm2 && self.slots[cur]
            && self.start[cur] is Some) ==> rm2::swipe_ok(s.0, s.1, p.0, p.1)
    }

    pub open spec fn after(self, rec: (u16, u16, i32)) -> TouchView {
        let (t, c, v) = rec;
        let cur = self.cur as int;
        if t == EV_ABS && c == ABS_MT_SLOT {
            TouchView { cur: slot_of(v), ..self }
        } else if t == EV_ABS && c == ABS_MT_TRACKING_ID {
            TouchView { slots: self.slots.update(cur, v != -1), start: self.start.update(cur, None), ..self }
        } else if t == EV_ABS && c == ABS_MT_POSITION_X {
            TouchView { pos: self.pos.update(cur, (v, self.pos[cur].1)), ..self }
        } else if t == EV_ABS && c == ABS_MT_POSITION_Y {
            TouchView { pos: self.pos.update(cur, (self.pos[cur].0, v)), ..self }
        } else if t == EV_SYN && c == SYN_REPORT && self.slots[cur] && self.start[cur] is None {
            TouchView { start: self.start.update(cur, Some(self.pos[cur])), ..self }
        } else {
            self
        }
    }

    /// The record signals a quit: a tracking change that leaves at least
    /// five contacts down, or a frame that completes a close swipe.
    pub open spec fn quits(self, rec: (u16, u16, i32)) -> bool {
        let (t, c, v) = rec;
        let cur = self.cur as int;
        if t == EV_ABS && c == ABS_MT_TRACKING_ID {
            active_count(self.after(rec).slots) >= QUIT_FINGERS
        } else if t == EV_SYN && c == SYN_REPORT && self.slots[cur] && self.start[cur] is Some {
            self.swipe(self.start[cur]->0, self.pos[cur])
        } else {
            false
        }
    }

    pub open spec fn after_all(self, recs: Seq<(u16, u16, i32)>) -> TouchView
        decreases recs.len(),
    {
        if recs.len() == 0 {
            self
        } else {
            self.after_all(recs.drop_last()).after(recs.last())
        }
    }

    /// Some record of the run signals a quit.
    pub open spec fn quit_in(self, recs: Seq<(u16, u16, i32)>) -> bool
        decreases recs.len(),
    {
        if recs.len() == 0 {
            false
        } else {
            self.quit_in(recs.drop_last()) || self.after_all(recs.drop_last()).quits(recs.last())
        }
    }

    /// Every record of the run can be taken without overflow.
    pub open spec fn accepts_all(self, recs: Seq<(u16, u16, i32)>) -> bool {
        forall|i: int| 0 <= i < recs.len() ==> #[trigger] self.after_all(recs.take(i)).accepts(recs[i])
    }
}

impl TouchView {
    /// On the Paper Pro only fingers close the diary: a quit always comes
    /// from a tracking change that leaves five or more contacts down.
    pub proof fn lemma_paper_pro_quits_by_fingers(self, rec: (u16, u16, i32))
        requires
            self.model == Model::PaperPro,
            self.quits(rec),
        ensures
            rec.0 == EV_ABS && rec.1 == ABS_MT_TRACKING_ID,
            active_count(self.after(rec).slots) >= QUIT_FINGERS,
    {
    }

    /// A buffer signals a quit exactly when one of its records does, in the
    /// state the records before it leave.
    pub proof fn lemma_quit_in_some_record(self, recs: Seq<(u16, u16, i32)>)
        ensures
            self.quit_in(recs) <==> exists|i: int|
                0 <= i < recs.len() && #[trigger] self.after_all(recs.take(i)).quits(recs[i]),
        decreases recs.len(),
    {
        if recs.len() > 0 {
            let prev = recs.drop_last();
            self.lemma_quit_in_some_record(prev);
            assert forall|i: int| 0 <= i < prev.len() implies #[trigger] prev.take(i) == recs.take(i) && prev[i] == recs[i] by {
                assert(prev.take(i) =~= recs.take(i));
            }
            assert(recs.take(prev.len() as int) =~= prev);
            if self.quit_in(recs) {
                if self.quit_in(prev) {
                    let i = choose|i: int| 0 <= i < prev.len() && #[trigger] self.after_all(prev.take(i)).quits(prev[i]);
                    assert(prev.take(i) == recs.take(i) && prev[i] == recs[i]);
                } else {
                    let i = prev.len() as int;
                    assert(self.after_all(recs.take(i)).quits(recs[i]));
                }
            } else {
                assert forall|i: int| 0 <= i < recs.len() implies !#[trigger] self.after_all(recs.take(i)).quits(recs[i]) by {
                    if i < prev.len() {
                        assert(prev.take(i) == recs.take(i) && prev[i] == recs[i]);
                    }
                }
            }
        }
    }

    /// Taking records never breaks the slot table's shape: the current slot
    /// stays within the table.
    pub proof fn lemma_wf_kept(self, recs: Seq<(u16, u16, i32)>)
        requires
            self.wf(),
        ensures
            self.after_all(recs).wf(),
            self.after_all(recs).model == self.model,
            self.after_all(recs).fd == self.fd,
        decreases recs.len(),
    {
        if recs.len() > 0 {
            self.lemma_wf_kept(recs.drop_last());
        }
    }
}

impl TouchView {
    /// A tracking change forgets the slot's gesture start, whatever the slot
    /// held before: a contact going down is judged from where it lands. The
    /// next frame with the contact down arms the start at its position.
    pub proof fn lemma_tracking_change_rearms(self, id: i32, x: i32, y: i32, v: i32)
        requires
            self.wf(),
        ensures
            self.after((EV_ABS, ABS_MT_TRACKING_ID, id)).start[self.cur as int] is None,
            self.after((EV_ABS, ABS_MT_TRACKING_ID, id)).slots[self.cur as int] == (id != -1),
            id != -1 ==> ({
                let down = self.after((EV_ABS, ABS_MT_TRACKING_ID, id)).after((EV_ABS, ABS_MT_POSITION_X, x)).after(
                    (EV_ABS, ABS_MT_POSITION_Y, y),
                ).after((EV_SYN, SYN_REPORT, v));
                down.start[self.cur as int] == Some((x, y))
            }),
    {
    }

    /// On the rM2, a new contact that lands at `(x, y)` and moves straight
    /// to `(x, y2)` quits exactly when it landed in the top band and
    /// travelled at least `SWIPE_TRAVEL` down (or when it is the fifth
    /// finger down) — whatever the slot held before.
    pub proof fn lemma_new_contact_swipe(self, id: i32, x: i32, y: i32, y2: i32)
        requires
            self.wf(),
            self.model == Model::Rm2,
            id != -1,
        ensures
            ({
                let recs = seq![
                    (EV_ABS, ABS_MT_TRACKING_ID, id),
                    (EV_ABS, ABS_MT_POSITION_X, x),
                    (EV_ABS, ABS_MT_POSITION_Y, y),
                    (EV_SYN, SYN_REPORT, 0i32),
                    (EV_ABS, ABS_MT_POSITION_Y, y2),
                    (EV_SYN, SYN_REPORT, 0i32),
                ];
                self.quit_in(recs) <==> (active_count(self.slots.update(self.cur as int, true)) >= QUIT_FINGERS
                    || (y >= rm2::TOUCH_MAX_Y - rm2::TOP_BAND && y - y2 >= rm2::SWIPE_TRAVEL))
            }),
    {
        let r0 = (EV_ABS, ABS_MT_TRACKING_ID, id);
        let r1 = (EV_ABS, ABS_MT_POSITION_X, x);
        let r2 = (EV_ABS, ABS_MT_POSITION_Y, y);
        let r3 = (EV_SYN, SYN_REPORT, 0i32);
        let r4 = (EV_ABS, ABS_MT_POSITION_Y, y2);
        let r5 = (EV_SYN, SYN_REPORT, 0i32);
        let recs = seq![r0, r1, r2, r3, r4, r5];
        let s1 = seq![r0];
        let s2 = seq![r0, r1];
        let s3 = seq![r0, r1, r2];
        let s4 = seq![r0, r1, r2, r3];
        let s5 = seq![r0, r1, r2, r3, r4];
        assert(recs.drop_last() =~= s5);
        assert(s5.drop_last() =~= s4);
        assert(s4.drop_last() =~= s3);
        assert(s3.drop_last() =~= s2);
        assert(s2.drop_last() =~= s1);
        assert(s1.drop_last() =~= Seq::<(u16, u16, i32)>::empty());
        let a0 = self;
        let a1 = a0.after(r0);
        let a2 = a1.after(r1);
        let a3 = a2.after(r2);
        let a4 = a3.after(r3);
        let a5 = a4.after(r4);
        assert(s1.last() == r0 && s2.last() == r1 && s3.last() == r2 && s4.last() == r3 && s5.last() == r4
            && recs.last() == r5);
        assert(self.after_all(Seq::<(u16, u16, i32)>::empty()) == self);
        assert(self.after_all(s1) == a1);
        assert(self.after_all(s2) == a2);
        assert(self.after_all(s3) == a3);
        assert(self.after_all(s4) == a4);
        assert(self.after_all(s5) == a5);
        let c = self.cur as int;
        assert(a1.slots =~= self.slots.update(c, true));
        assert(!self.quit_in(Seq::<(u16, u16, i32)>::empty()));
        assert(self.quit_in(s1) == a0.quits(r0));
        assert(!a1.quits(r1) && !a2.quits(r2) && !a4.quits(r4));
        assert(a3.start[c] is None);
        assert(!a3.quits(r3));
        assert(a4.start[c] == Some((x, y)));
        assert(a5.pos[c] == (x, y2));
        assert(a5.quits(r5) == rm2::spec_top_swipe_down(x, y, x, y2));
        assert(self.quit_in(s2) == (a0.quits(r0) || a1.quits(r1)));
        assert(self.quit_in(s3) == (a0.quits(r0) || a1.quits(r1) || a2.quits(r2)));
        assert(self.quit_in(s4) == (self.quit_in(s3) || a3.quits(r3)));
        assert(self.quit_in(s5) == (self.quit_in(s4) || a4.quits(r4)));
        assert(self.quit_in(recs) == (self.quit_in(s5) || a5.quits(r5)));
        assert(self.quit_in(recs) == (a0.quits(r0) || a5.quits(r5)));
    }
}

/// Counting contacts: none in an empty table, one more when a free slot
/// gets a contact, never more than the slots.
pub proof fn lemma_active_count(slots: Seq<bool>, i: int)
    requires
        0 <= i < slots.len(),
    ensures
        active_count(slots) <= slots.len(),
        !slots[i] ==> active_count(slots.update(i, true)) == active_count(slots) + 1,
        slots[i] ==> active_count(slots.update(i, false)) + 1 == active_count(slots),
        active_count(Seq::new(slots.len(), |j: int| false)) == 0,
    decreases slots.len(),
{
    let n = slots.len() - 1;
    if i < n {
        lemma_active_count(slots.drop_last(), i);
        assert(slots.update(i, true).drop_last() =~= slots.drop_last().update(i, true));
        assert(slots.update(i, false).drop_last() =~= slots.drop_last().update(i, false));
    } else {
        assert(slots.update(i, true).drop_last() =~= slots.drop_last());
        assert(slots.update(i, false).drop_last() =~= slots.drop_last());
        if n > 0 {
            lemma_active_count(slots.drop_last(), n - 1);
        }
    }
    lemma_no_contacts(slots.len());
}

/// A table with no contact counts none.
pub proof fn lemma_no_contacts(n: nat)
    ensures
        active_count(Seq::new(n, |j: int| false)) == 0,
    decreases n,
{
    if n > 0 {
        lemma_no_contacts((n - 1) as nat);
        assert(Seq::new(n, |j: int| false).drop_last() =~= Seq::new((n - 1) as nat, |j: int| false));
    }
}

impl TouchView {
    /// Five fingers close the diary: a contact that lands while four others
    /// are down signals a quit; one that lands while three are down does not.
    pub proof fn lemma_fifth_finger_quits(self, id: i32)
        requires
            self.wf(),
            !self.slots[self.cur as int],
            id != -1,
        ensures
            active_count(self.slots) == 4 ==> self.quits((EV_ABS, ABS_MT_TRACKING_ID, id)),
            active_count(self.slots) == 3 ==> !self.quits((EV_ABS, ABS_MT_TRACKING_ID, id)),
            active_count(self.slots) < 4 ==> !self.quits((EV_ABS, ABS_MT_TRACKING_ID, id)),
    {
        lemma_active_count(self.slots, self.cur as int);
    }

    /// A contact lifting never signals a quit by itself.
    pub proof fn lemma_lift_never_quits(self)
        requires
            self.wf(),
            active_count(self.slots) < QUIT_FINGERS + 1,
            self.slots[self.cur as int],
        ensures
            !self.quits((EV_ABS, ABS_MT_TRACKING_ID, -1i32)),
            !self.after((EV_ABS, ABS_MT_TRACKING_ID, -1i32)).slots[self.cur as int],
    {
        lemma_active_count(self.slots, self.cur as int);
    }

    /// Slot selection: a value within the table picks that slot, a negative
    /// one slot 0, a larger one the last slot; nothing else changes.
    pub proof fn lemma_slot_selection(self, v: i32)
        ensures
            0 <= v < MAX_SLOTS ==> self.after((EV_ABS, ABS_MT_SLOT, v)).cur == v,
            v < 0 ==> self.after((EV_ABS, ABS_MT_SLOT, v)).cur == 0,
            v >= MAX_SLOTS ==> self.after((EV_ABS, ABS_MT_SLOT, v)).cur == MAX_SLOTS - 1,
            self.after((EV_ABS, ABS_MT_SLOT, v)).slots == self.slots,
            self.after((EV_ABS, ABS_MT_SLOT, v)).pos == self.pos,
            self.after((EV_ABS, ABS_MT_SLOT, v)).start == self.start,
    {
    }

    /// Position records move the current slot's contact along one axis only.
    pub proof fn lemma_position_updates(self, v: i32)
        requires
            self.wf(),
        ensures
            self.after((EV_ABS, ABS_MT_POSITION_X, v)).pos[self.cur as int] == (v, self.pos[self.cur as int].1),
            self.after((EV_ABS, ABS_MT_POSITION_Y, v)).pos[self.cur as int] == (self.pos[self.cur as int].0, v),
            forall|j: int| 0 <= j < MAX_SLOTS && j != self.cur ==> #[trigger] self.after((EV_ABS, ABS_MT_POSITION_X, v)).pos[j] == self.pos[j],
            self.after((EV_ABS, ABS_MT_POSITION_X, v)).slots == self.slots,
            self.after((EV_ABS, ABS_MT_POSITION_X, v)).start == self.start,
    {
    }
}

/// The touch device: its descriptor and the protocol B slot state.
#[derive(Debug)]
pub struct TouchDevice {
    fd: i32,
    model: Model,
    slots: Vec<bool>,
    cur: usize,
    pos: Vec<(i32, i32)>,
    start: Vec<Option<(i32, i32)>>,
}

impl View for TouchDevice {
    type V = TouchView;

    closed spec fn view(&self) -> TouchView {
        TouchView { fd: self.fd, model: self.model, slots: self.slots@, cur: self.cur as nat, pos: self.pos@, start: self.start@ }
    }
}

impl TouchDevice {
    /// A fresh state around an opened descriptor: no contacts, slot 0,
    /// positions at the origin, no gesture started.
    pub fn new(fd: i32, model: Model) -> (r: TouchDevice)
        ensures
            r@.fd == fd,
            r@.wf(),
            r@.model == model,
            r@.cur == 0,
            r@.slots == Seq::new(MAX_SLOTS as nat, |i: int| false),
            r@.pos == Seq::new(MAX_SLOTS as nat, |i: int| (0i32, 0i32)),
            r@.start == Seq::new(MAX_SLOTS as nat, |i: int| None::<(i32, i32)>),
    {
        let mut slots: Vec<bool> = Vec::new();
        let mut pos: Vec<(i32, i32)> = Vec::new();
        let mut start: Vec<Option<(i32, i32)>> = Vec::new();
        let mut i: usize = 0;
        while i < MAX_SLOTS
            invariant
                i <= MAX_SLOTS,
                slots@ == Seq::new(i as nat, |j: int| false),
                pos@ == Seq::new(i as nat, |j: int| (0i32, 0i32)),
                start@ == Seq::new(i as nat, |j: int| None::<(i32, i32)>),
            decreases MAX_SLOTS - i,
        {
            slots.push(false);
            pos.push((0, 0));
            start.push(None);
            i = i + 1;
        }
        TouchDevice { fd, model, slots, cur: 0, pos, start }
    }

    pub fn raw_fd(&self) -> (fd: i32)
        ensures
            fd == self@.fd,
    {
        self.fd
    }

    fn count_active(&self) -> (n: usize)
        requires
            self@.wf(),
        ensures
            n == active_count(self.slots@),
    {
        let mut n: usize = 0;
        let mut i: usize = 0;
        while i < self.slots.len()
            invariant
                i <= self.slots@.len(),
                self.slots@.len() == MAX_SLOTS,
                n == active_count(self.slots@.take(i as int)),
                n <= i,
            decreases self.slots@.len() - i,
        {
            assert(self.slots@.take(i + 1).drop_last() =~= self.slots@.take(i as int));
            if self.slots[i] {
                n = n + 1;
            }
            i = i + 1;
        }
        assert(self.slots@.take(self.slots@.len() as int) =~= self.slots@);
        n
    }

    /// Take one record; returns whether it signals a quit.
    pub fn feed(&mut self, etype: u16, code: u16, value: i32) -> (quit: bool)
        requires
            old(self)@.wf(),
            old(self)@.accepts((etype, code, value)),
        ensures
            final(self)@.wf(),
            final(self)@ == old(self)@.after((etype, code, value)),
            quit == old(self)@.quits((etype, code, value)),
    {
        let cur = self.cur;
        if etype == EV_ABS && code == ABS_MT_SLOT {
            self.cur = if value < 0 { 0 } else if value as usize >= MAX_SLOTS { MAX_SLOTS - 1 } else { value as usize };
            false
        } else if etype == EV_ABS && code == ABS_MT_TRACKING_ID {
            self.slots.set(cur, value != -1);
            self.start.set(cur, None);
            self.count_active() >= QUIT_FINGERS
        } else if etype == EV_ABS && code == ABS_MT_POSITION_X {
            let p = (value, self.pos[cur].1);
            self.pos.set(cur, p);
            false
        } else if etype == EV_ABS && code == ABS_MT_POSITION_Y {
            let p = (self.pos[cur].0, value);
            self.pos.set(cur, p);
            false
        } else if etype == EV_SYN && code == SYN_REPORT {
            if self.slots[cur] {
                match self.start[cur] {
                    None => {
                        let p = self.pos[cur];
                        self.start.set(cur, Some(p));
                        false
                    },
                    Some((sx, sy)) => {
                        let (x, y) = self.pos[cur];
                        match self.model {
                            Model::Rm2 => rm2::top_swipe_down(sx, sy, x, y),
                            Model::PaperPro => paper_pro::top_swipe_down(sx, sy, x, y),
                        }
                    },
                }
            } else {
                false
            }
        } else {
            false
        }
    }

    fn duplicate(&self) -> (r: TouchDevice)
        requires
            self@.wf(),
        ensures
            r@ == self@,
    {
        let mut slots: Vec<bool> = Vec::new();
        let mut pos: Vec<(i32, i32)> = Vec::new();
        let mut start: Vec<Option<(i32, i32)>> = Vec::new();
        let mut i: usize = 0;
        while i < MAX_SLOTS
            invariant
                self@.wf(),
                i <= MAX_SLOTS,
                slots@ == self.slots@.take(i as int),
                pos@ == self.pos@.take(i as int),
                start@ == self.start@.take(i as int),
            decreases MAX_SLOTS - i,
        {
            slots.push(self.slots[i]);
            pos.push(self.pos[i]);
            start.push(self.start[i]);
            i = i + 1;
            assert(slots@ =~= self.slots@.take(i as int));
            assert(pos@ =~= self.pos@.take(i as int));
            assert(start@ =~= self.start@.take(i as int));
        }
        assert(slots@ =~= self.slots@);
        assert(pos@ =~= self.pos@);
        assert(start@ =~= self.start@);
        TouchDevice { fd: self.fd, model: self.model, slots, cur: self.cur, pos, start }
    }

    /// Whether `buf` can be fed: no gesture test in it leaves `i32`.
    pub fn can_feed(&self, buf: &[u8]) -> (r: bool)
        requires
            self@.wf(),
        ensures
            r == self@.accepts_all(records(buf@)),
    {
        let recs = decode_all(buf);
        let mut probe = self.duplicate();
        let ghost start = self@;
        let mut i: usize = 0;
        while i < recs.len()
            invariant
                recs@ == records(buf@),
                i <= recs@.len(),
                probe@.wf(),
                probe@ == start.after_all(recs@.take(i as int)),
                start == self@,
                forall|j: int| 0 <= j < i ==> #[trigger] start.after_all(recs@.take(j)).accepts(recs@[j]),
            decreases recs@.len() - i,
        {
            let (t, c, v) = recs[i];
            let cur = probe.cur;
            if t == EV_SYN && c == SYN_REPORT && probe.slots[cur] {
                if let Some((sx, sy)) = probe.start[cur] {
                    let (x, y) = probe.pos[cur];
                    let ok = match probe.model {
                        Model::Rm2 => rm2::swipe_in_range(sx, sy, x, y),
                        Model::PaperPro => true,
                    };
                    if !ok {
                        assert(!start.after_all(recs@.take(i as int)).accepts(recs@[i as int]));
                        return false;
                    }
                }
            }
            assert(start.after_all(recs@.take(i as int)).accepts(recs@[i as int]));
            assert(recs@.take(i + 1).drop_last() =~= recs@.take(i as int));
            probe.feed(t, c, v);
            i = i + 1;
        }
        true
    }

    /// Take a whole read buffer of records; returns whether any of them
    /// signals a quit. A trailing partial record is ignored.
    pub fn feed_bytes(&mut self, buf: &[u8]) -> (quit: bool)
        requires
            old(self)@.wf(),
            old(self)@.accepts_all(records(buf@)),
        ensures
            final(self)@.wf(),
            final(self)@ == old(self)@.after_all(records(buf@)),
            quit == old(self)@.quit_in(records(buf@)),
    {
        let recs = decode_all(buf);
        let ghost start = self@;
        let mut quit = false;
        let mut i: usize = 0;
        while i < recs.len()
            invariant
                recs@ == records(buf@),
                i <= recs@.len(),
                self@.wf(),
                start.accepts_all(recs@),
                self@ == start.after_all(recs@.take(i as int)),
                quit == start.quit_in(recs@.take(i as int)),
            decreases recs@.len() - i,
        {
            let (t, c, v) = recs[i];
            assert(start.after_all(recs@.take(i as int)).accepts(recs@[i as int]));
            assert(recs@.take(i + 1).drop_last() =~= recs@.take(i as int));
            let q = self.feed(t, c, v);
            quit = quit || q;
            i = i + 1;
        }
        assert(recs@.take(recs@.len() as int) =~= recs@);
        quit
    }
}

} // verus!
