use riddle::diary::{
    blot_square, flush_due, flush_interval, Action, Diary, DrawOp, InkOp, OracleNews, QtfbPen, State, WritePlan,
};
use riddle::bounds::{ops_bounds, stroke_bounds, Bounds};
use riddle::display::{Display, Request};
use riddle::evdev::{decode_all, ev_size, name_matches, parse, EV_ABS, EV_KEY, EV_SYN, SYN_REPORT};
use riddle::layout::{first_line_y, line_x, lines_fit, place_lines, place_stroke, Jitter, TracedLine};
use riddle::panel::Model;
use riddle::pen::{elan, wacom, PenDevice, PenSample, Tool, ABS_PRESSURE, ABS_X, ABS_Y, BTN_TOOL_PEN, BTN_TOOL_RUBBER, BTN_TOUCH};
use riddle::power::{counter_value, PowerButton, KEY_POWER};
use riddle::rm2fb::{MxcfbRect, Rm2fb, UPDATE_MODE_PARTIAL, WAVEFORM_DU};
use riddle::touch::{paper_pro, rm2, TouchDevice, ABS_MT_POSITION_X, ABS_MT_POSITION_Y, ABS_MT_SLOT, ABS_MT_TRACKING_ID};

type Region = (i32, i32, i32, i32);

/// One raw record in this target's layout.
fn record(t: u16, c: u16, v: i32) -> Vec<u8> {
    let mut r = vec![0u8; ev_size() - 8];
    r.extend_from_slice(&t.to_le_bytes());
    r.extend_from_slice(&c.to_le_bytes());
    r.extend_from_slice(&v.to_le_bytes());
    r
}

fn records(list: &[(u16, u16, i32)]) -> Vec<u8> {
    let mut out = Vec::new();
    for &(t, c, v) in list {
        out.extend(record(t, c, v));
    }
    out
}

#[test]
fn record_size_follows_pointer_width() {
    assert_eq!(ev_size(), if usize::BITS == 64 { 24 } else { 16 });
}

#[test]
fn parse_decodes_little_endian_fields() {
    let rec = record(EV_ABS, ABS_X, 10000);
    assert_eq!(parse(&rec), (3, 0, 10000));
    let rec = record(EV_KEY, 330, -1);
    assert_eq!(parse(&rec), (1, 330, -1));
    let rec = record(0x0102, 0x0304, 0x0506_0708);
    assert_eq!(parse(&rec), (0x0102, 0x0304, 0x0506_0708));
}

#[test]
fn parse_ignores_the_timeval() {
    let mut rec = record(EV_SYN, SYN_REPORT, 7);
    for b in rec.iter_mut().take(ev_size() - 8) {
        *b = 0xAB;
    }
    assert_eq!(parse(&rec), (0, 0, 7));
}

#[test]
fn decode_all_drops_a_partial_record() {
    let mut buf = records(&[(EV_ABS, ABS_X, 1), (EV_SYN, SYN_REPORT, 0)]);
    buf.extend_from_slice(&[1, 2, 3]);
    assert_eq!(decode_all(&buf), vec![(EV_ABS, ABS_X, 1), (EV_SYN, SYN_REPORT, 0)]);
    assert_eq!(decode_all(&[]), vec![]);
}

#[test]
fn device_names_match_ignoring_case() {
    assert!(name_matches(b"Elan Marker Input\n", &[b"marker"]));
    assert!(name_matches(b"Elan Marker Input\n", &[b"Marker"]));
    assert!(name_matches(b"elan marker input", &[b"MARKER"]));
    assert!(name_matches(b"Wacom I2C Digitizer", &[b"marker", b"wacom"]));
    assert!(!name_matches(b"Wacom I2C Digitizer", &[b"marker"]));
    assert!(name_matches(b"Wacom", &[b"wACOM"]));
    assert!(name_matches(b"snvs-powerkey", &[b"powerkey", b"power button"]));
    assert!(!name_matches(b"", &[b"touch"]));
    assert!(!name_matches(b"anything", &[]));
}

#[test]
fn elan_map_scales_and_truncates() {
    assert_eq!(elan::map(0, 0), (0, 0));
    assert_eq!(elan::map(11180, 15340), (1619, 2159));
    assert_eq!(elan::map(5590, 7670), (809, 1079));
    assert_eq!(elan::map(-1, -1), (0, 0));
    assert_eq!(elan::map(-20, 0), (-2, 0));
}

#[test]
fn wacom_map_rotates_and_inverts() {
    assert_eq!(wacom::map(0, 0), (0, 1871));
    assert_eq!(wacom::map(20966, 15725), (1403, 0));
    assert_eq!(wacom::map(10483, 0), (0, 935));
}

#[test]
fn pen_frame_emits_one_sample() {
    let mut dev = PenDevice::new(7, Model::PaperPro);
    assert_eq!(dev.raw_fd(), 7);
    let buf = records(&[
        (EV_ABS, ABS_X, 5590),
        (EV_ABS, ABS_Y, 7670),
        (EV_ABS, ABS_PRESSURE, 2000),
        (EV_KEY, BTN_TOUCH, 1),
        (EV_SYN, SYN_REPORT, 0),
        (EV_SYN, SYN_REPORT, 0),
    ]);
    assert!(dev.can_feed(&buf));
    let out = dev.feed_bytes(&buf);
    assert_eq!(out.len(), 1);
    let s = out[0];
    assert_eq!((s.x, s.y, s.pressure, s.tool, s.touching), (809, 1079, 2000, Tool::Pen, true));
}

#[test]
fn tool_switch_is_a_changed_frame() {
    let mut dev = PenDevice::new(3, Model::PaperPro);
    let buf = records(&[(EV_ABS, ABS_X, 0), (EV_SYN, SYN_REPORT, 0), (EV_KEY, BTN_TOOL_RUBBER, 1), (EV_SYN, SYN_REPORT, 0)]);
    let out = dev.feed_bytes(&buf);
    assert_eq!(out.len(), 2);
    assert_eq!((out[0].tool, out[1].tool), (Tool::Pen, Tool::Eraser));
    let out = dev.feed_bytes(&records(&[(EV_KEY, BTN_TOOL_PEN, 1), (EV_SYN, SYN_REPORT, 0)]));
    assert_eq!(out.len(), 1);
    assert_eq!(out[0].tool, Tool::Pen);
    let out = dev.feed_bytes(&records(&[(EV_KEY, BTN_TOOL_PEN, 0), (EV_SYN, SYN_REPORT, 0)]));
    assert!(out.is_empty());
    let buf = records(&[(EV_KEY, BTN_TOOL_RUBBER, 1), (EV_ABS, ABS_PRESSURE, 100), (EV_SYN, SYN_REPORT, 0)]);
    let out = dev.feed_bytes(&buf);
    assert_eq!(out.len(), 1);
    assert_eq!(out[0].tool, Tool::Eraser);
    let buf = records(&[(EV_KEY, BTN_TOOL_RUBBER, 0), (EV_KEY, BTN_TOUCH, 0), (EV_SYN, SYN_REPORT, 0)]);
    let out = dev.feed_bytes(&buf);
    assert_eq!((out[0].tool, out[0].touching), (Tool::Pen, false));
}

#[test]
fn pen_samples_are_clamped_to_screen() {
    let mut dev = PenDevice::new(3, Model::PaperPro);
    let out = dev.feed_bytes(&records(&[(EV_ABS, ABS_X, 20000), (EV_ABS, ABS_Y, -500), (EV_SYN, SYN_REPORT, 0)]));
    assert_eq!((out[0].x, out[0].y), (1619, 0));
    let mut dev = PenDevice::new(3, Model::Rm2);
    let out = dev.feed_bytes(&records(&[(EV_ABS, ABS_X, 30000), (EV_SYN, SYN_REPORT, 0)]));
    assert_eq!((out[0].x, out[0].y), (0, 0));
}

#[test]
fn pen_rejects_overflowing_samples_only() {
    let dev = PenDevice::new(3, Model::PaperPro);
    assert!(!dev.can_feed(&records(&[(EV_ABS, ABS_X, i32::MAX), (EV_SYN, SYN_REPORT, 0)])));
    assert!(dev.can_feed(&records(&[(EV_ABS, ABS_X, i32::MAX)])));
    assert!(dev.can_feed(&records(&[(EV_ABS, ABS_X, i32::MAX), (EV_ABS, ABS_X, 10), (EV_SYN, SYN_REPORT, 0)])));
    assert!(dev.can_feed(&records(&[(EV_ABS, ABS_PRESSURE, i32::MAX), (EV_SYN, SYN_REPORT, 0)])));
    let dev = PenDevice::new(3, Model::Rm2);
    assert!(!dev.can_feed(&records(&[(EV_ABS, ABS_Y, i32::MIN), (EV_SYN, SYN_REPORT, 0)])));
}

#[test]
fn empty_read_changes_nothing() {
    let mut dev = PenDevice::new(3, Model::PaperPro);
    assert!(dev.feed_bytes(&records(&[(EV_ABS, ABS_X, 5590)])).is_empty());
    assert!(dev.feed_bytes(&[]).is_empty());
    let out = dev.feed_bytes(&records(&[(EV_SYN, SYN_REPORT, 0)]));
    assert_eq!(out[0].x, 809);
}

fn finger(slot: i32, id: i32) -> Vec<(u16, u16, i32)> {
    vec![(EV_ABS, ABS_MT_SLOT, slot), (EV_ABS, ABS_MT_TRACKING_ID, id)]
}

#[test]
fn five_fingers_quit() {
    let mut dev = TouchDevice::new(4, Model::PaperPro);
    let mut four = Vec::new();
    for s in 0..4 {
        four.extend(finger(s, 100 + s));
    }
    assert!(!dev.feed_bytes(&records(&four)));
    assert!(dev.feed_bytes(&records(&finger(4, 104))));
}

#[test]
fn lifted_fingers_do_not_count() {
    let mut dev = TouchDevice::new(4, Model::PaperPro);
    let mut recs = Vec::new();
    for s in 0..4 {
        recs.extend(finger(s, 100 + s));
    }
    recs.extend(finger(0, -1));
    recs.extend(finger(4, 104));
    assert!(!dev.feed_bytes(&records(&recs)));
}

#[test]
fn out_of_range_slots_are_clamped() {
    let mut dev = TouchDevice::new(4, Model::PaperPro);
    let mut recs = Vec::new();
    for s in [-3, 0, 1, 2] {
        recs.extend(finger(s, 1));
    }
    recs.extend(finger(99, 1));
    assert!(!dev.feed_bytes(&records(&recs)));
    assert!(dev.feed_bytes(&records(&finger(15, 1)).iter().chain(records(&finger(14, 1)).iter()).copied().collect::<Vec<u8>>()));
}

fn swipe() -> Vec<u8> {
    records(&[
        (EV_ABS, ABS_MT_SLOT, 0),
        (EV_ABS, ABS_MT_TRACKING_ID, 5),
        (EV_ABS, ABS_MT_POSITION_X, 700),
        (EV_ABS, ABS_MT_POSITION_Y, 1860),
        (EV_SYN, SYN_REPORT, 0),
        (EV_ABS, ABS_MT_POSITION_Y, 1500),
        (EV_SYN, SYN_REPORT, 0),
    ])
}

#[test]
fn rm2_top_swipe_quits() {
    let mut dev = TouchDevice::new(4, Model::Rm2);
    let buf = swipe();
    assert!(dev.can_feed(&buf));
    assert!(dev.feed_bytes(&buf));
    let mut dev = TouchDevice::new(4, Model::PaperPro);
    assert!(!dev.feed_bytes(&swipe()));
}

#[test]
fn swipe_gesture_rules() {
    assert!(rm2::top_swipe_down(700, 1860, 700, 1500));
    assert!(!rm2::top_swipe_down(700, 1800, 700, 1400));
    assert!(!rm2::top_swipe_down(700, 1860, 700, 1600));
    assert!(!rm2::top_swipe_down(700, 1860, 900, 1500));
    assert!(rm2::top_swipe_down(700, 1860, 880, 1500));
    assert!(!paper_pro::top_swipe_down(700, 1860, 700, 1500));
}

#[test]
fn power_press_detected() {
    let p = PowerButton::new(9, true);
    assert_eq!(p.raw_fd(), 9);
    assert!(p.grabbed);
    assert!(p.pressed(&records(&[(EV_KEY, KEY_POWER, 1), (EV_SYN, SYN_REPORT, 0)])));
    assert!(!p.pressed(&records(&[(EV_KEY, KEY_POWER, 0), (EV_KEY, KEY_POWER, 2)])));
    assert!(!p.pressed(&records(&[(EV_KEY, 115, 1)])));
}

#[test]
fn suspend_counter_parsing() {
    assert_eq!(counter_value(b"42\n"), 42);
    assert_eq!(counter_value(b"  +7\t"), 7);
    assert_eq!(counter_value(b"0"), 0);
    assert_eq!(counter_value(b"abc"), 0);
    assert_eq!(counter_value(b""), 0);
    assert_eq!(counter_value(b"+"), 0);
    assert_eq!(counter_value(b"-3"), 0);
    assert_eq!(counter_value(b"1 2"), 0);
    assert_eq!(counter_value(b"18446744073709551615\n"), u64::MAX);
    assert_eq!(counter_value(b"18446744073709551616"), 0);
    assert_eq!(counter_value("\u{a0}12\u{3000}".as_bytes()), 12);
    assert_eq!(counter_value("\u{2009}\u{85}5\u{205f}\u{1680}\n".as_bytes()), 5);
    for s in ["12", " 5 ", "+9", "x", "99999999999999999999", "\u{2028}3\u{202f}", "\u{200b}4", "\u{b}8\u{c}"] {
        assert_eq!(counter_value(s.as_bytes()), s.trim().parse::<u64>().unwrap_or(0));
    }
}

#[test]
fn rm2fb_requests_are_clamped_and_marked() {
    let mut fb = Rm2fb::new(11);
    assert_eq!(fb.msqid(), 11);
    let d = fb.update(-5, -5, 0, 0, WAVEFORM_DU, UPDATE_MODE_PARTIAL);
    assert_eq!(d.update_marker, 2);
    assert_eq!(d.update_region, MxcfbRect { top: 0, left: 0, width: 1, height: 1 });
    assert_eq!(d.temp, 0x18);
    let d = fb.update(1400, 1870, 100, 100, 3, 0);
    assert_eq!(d.update_marker, 3);
    assert_eq!(d.update_region, MxcfbRect { top: 1870, left: 1400, width: 4, height: 2 });
    let d = fb.update(10, 20, 30, 40, 2, 1);
    assert_eq!(d.update_marker, 4);
    assert_eq!(d.update_region, MxcfbRect { top: 20, left: 10, width: 30, height: 40 });
    assert_eq!((d.waveform_mode, d.update_mode), (2, 1));
    assert_eq!(fb.msqid(), 11);
}

#[test]
fn rm2fb_marker_wraps() {
    let mut fb = Rm2fb::new(1);
    let mut last = 0;
    for k in 1..=5u32 {
        last = fb.update(i32::MIN, i32::MAX, i32::MAX, i32::MIN, 1, 0).update_marker;
        assert_eq!(last, 1 + k);
    }
    assert_eq!(last, 6);
}

#[test]
fn display_requests() {
    let q: Display<String, u8> = Display::Qtfb("win".to_string());
    assert!(!q.takeover());
    assert_eq!(q.update(1, 2, 3, 4, true), Request::QtfbPartial(&"win".to_string(), 1, 2, 3, 4));
    assert_eq!(q.terminate(), Request::QtfbTerminate(&"win".to_string()));
    assert_eq!(q.pump(), Request::QtfbEvents(&"win".to_string()));
    let quill: Display<String, u8> = Display::Quill;
    assert!(quill.takeover());
    assert_eq!(quill.update(1, 2, 3, 4, true), Request::QuillSwap(1, 2, 3, 4, 0, 0));
    assert_eq!(quill.update(1, 2, 3, 4, false), Request::QuillSwap(1, 2, 3, 4, 3, 0));
    assert_eq!(quill.update_all(1620, 2160), Request::QuillSwap(0, 0, 1620, 2160, 3, 0));
    assert_eq!(quill.full_refresh(1620, 2160), Request::QuillSwap(0, 0, 1620, 2160, 4, 1));
    assert_eq!(quill.terminate(), Request::Nothing);
    assert_eq!(quill.pump(), Request::QuillEvents);
    let fb: Display<String, u8> = Display::Rm2fb(7);
    assert!(fb.takeover());
    assert_eq!(fb.update(1, 2, 3, 4, true), Request::Rm2fbUpdate(&7, 1, 2, 3, 4, 1, 0));
    assert_eq!(fb.update(1, 2, 3, 4, false), Request::Rm2fbUpdate(&7, 1, 2, 3, 4, 3, 0));
    assert_eq!(fb.full_refresh(1404, 1872), Request::Rm2fbUpdate(&7, 0, 0, 1404, 1872, 2, 1));
    assert_eq!(fb.update_all(1404, 1872), Request::Rm2fbUpdate(&7, 0, 0, 1404, 1872, 3, 0));
    assert_eq!(fb.pump(), Request::Nothing);
}

fn sample(pressure: i32, tool: Tool, touching: bool) -> PenSample {
    PenSample { x: 100, y: 200, pressure, tool, touching }
}

#[test]
fn writing_inks_and_lifting_lifts() {
    let mut d: Diary<Region> = Diary::new();
    assert_eq!(d.pen_sample(sample(2048, Tool::Pen, true), 10), InkOp::Pen(100, 200, 3));
    assert!(d.pen_down);
    assert_eq!(d.pen_sample(sample(4096, Tool::Eraser, true), 11), InkOp::Erase(100, 200, 22));
    assert_eq!(d.pen_sample(sample(40, Tool::Pen, true), 12), InkOp::Lift);
    assert!(!d.pen_down);
    assert_eq!(d.state, State::Listening { last_pen: Some(12) });
    assert_eq!(d.pen_sample(sample(0, Tool::Pen, false), 13), InkOp::Nothing);
    assert_eq!(d.state, State::Listening { last_pen: Some(12) });
}

#[test]
fn qtfb_pen_events() {
    let mut d: Diary<Region> = Diary::new();
    assert_eq!(d.qtfb_pen(QtfbPen::Press, 5, 6, 100, 1), InkOp::Pen(5, 6, 4));
    assert_eq!(d.qtfb_pen(QtfbPen::Update, 5, 6, -5, 2), InkOp::Pen(5, 6, 2));
    assert_eq!(d.qtfb_pen(QtfbPen::Update, 5, 6, 50, 3), InkOp::Pen(5, 6, 3));
    assert_eq!(d.qtfb_pen(QtfbPen::Release, 5, 6, 0, 4), InkOp::Lift);
    assert_eq!(d.qtfb_pen(QtfbPen::Release, 5, 6, 0, 5), InkOp::Nothing);
    assert_eq!(d.state, State::Listening { last_pen: Some(4) });
}

const INK: Region = (1, 2, 3, 4);

fn tick(d: Diary<Region>, now: u64, news: OracleNews<Region>) -> (Diary<Region>, Vec<Action<Region>>) {
    d.tick(now, Some(INK), news)
}

#[test]
fn idle_pause_commits_the_page() {
    let mut d: Diary<Region> = Diary::new();
    d.pen_sample(sample(2048, Tool::Pen, true), 1000);
    let (d, a) = tick(d, 5000, OracleNews::Waiting);
    assert!(a.is_empty(), "the pen is still down");
    let mut d = d;
    d.pen_sample(sample(0, Tool::Pen, false), 1000);
    let (d, a) = tick(d, 3799, OracleNews::Waiting);
    assert!(a.is_empty());
    let (d2, a) = d.tick(3800, None, OracleNews::Waiting);
    assert!(a.is_empty(), "no ink, nothing to drink");
    let (d, a) = tick(d2, 3800, OracleNews::Waiting);
    assert_eq!(a, vec![Action::SavePage]);
    assert_eq!(d.state, State::Drinking { stage: 0, next: 3800, region: INK });
}

#[test]
fn drinking_takes_fourteen_passes_then_asks() {
    let mut d: Diary<Region> = Diary { state: State::Drinking { stage: 0, next: 0, region: INK }, pen_down: false };
    let mut now = 0;
    for stage in 0..13 {
        let (nd, a) = tick(d, now, OracleNews::Waiting);
        assert_eq!(a, vec![Action::Dissolve(INK, stage, 14)]);
        now += 70;
        assert_eq!(nd.state, State::Drinking { stage: stage + 1, next: now, region: INK });
        let (nd, a) = tick(nd, now - 1, OracleNews::Waiting);
        assert!(a.is_empty());
        d = nd;
    }
    let (d, a) = tick(d, now, OracleNews::Waiting);
    assert_eq!(a, vec![Action::Dissolve(INK, 13, 14), Action::ClearInk, Action::AskOracle]);
    assert_eq!(d.state, State::Thinking { pulse: now, blot_on: false });
}

#[test]
fn thinking_blot_blinks_and_gives_up() {
    let d: Diary<Region> = Diary { state: State::Thinking { pulse: 0, blot_on: false }, pen_down: false };
    let (d, a) = tick(d, 599, OracleNews::Waiting);
    assert!(a.is_empty());
    let (d, a) = tick(d, 600, OracleNews::Waiting);
    assert_eq!(a, vec![Action::DrawBlot]);
    let (d, a) = tick(d, 1200, OracleNews::Waiting);
    assert_eq!(a, vec![Action::EraseBlot]);
    assert_eq!(d.state, State::Thinking { pulse: 1200, blot_on: false });
    let (d, a) = tick(d, 1300, OracleNews::Gone);
    assert!(a.is_empty());
    assert_eq!(d.state, State::Listening { last_pen: None });
}

#[test]
fn answer_is_written_then_lingers() {
    let d: Diary<Region> = Diary { state: State::Thinking { pulse: 0, blot_on: true }, pen_down: false };
    let plan = WritePlan::new(vec![vec![(0, 0), (1, 1)], vec![], vec![(5, 5)]], INK);
    let (d, a) = tick(d, 50, OracleNews::Answer(plan));
    assert_eq!(a, vec![Action::EraseBlot]);
    let (d, a) = tick(d, 50, OracleNews::Waiting);
    assert_eq!(
        a,
        vec![Action::Write(vec![DrawOp::Stamp((0, 0)), DrawOp::Line((0, 0), (1, 1)), DrawOp::Stamp((5, 5))])]
    );
    assert_eq!(d.state, State::Lingering { until: 50 + 4006, region: INK });
}

#[test]
fn long_answer_is_written_in_batches() {
    let stroke: Vec<(i32, i32)> = (0..30).map(|i| (i, i)).collect();
    let mut plan = WritePlan::new(vec![stroke.clone(), vec![]], INK);
    let first = plan.step();
    assert_eq!(first.len(), 26);
    assert!(!plan.finished());
    assert_eq!(first[0], DrawOp::Stamp((0, 0)));
    assert_eq!(first[25], DrawOp::Line((24, 24), (25, 25)));
    let rest = plan.step();
    assert_eq!(rest.len(), 4);
    assert!(plan.finished());
    assert_eq!(plan.linger(), 4060);
    let plan = WritePlan::new(vec![stroke; 400], INK);
    assert_eq!(plan.linger(), 20000);
    let mut exact = WritePlan::new(vec![(0..26).map(|i| (i, 0)).collect::<Vec<_>>()], INK);
    assert_eq!(exact.step().len(), 26);
    assert!(!exact.finished());
    assert!(exact.step().is_empty());
    assert!(exact.finished());
}

#[test]
fn pen_on_lingering_answer_starts_fade_and_fade_ends_listening() {
    let mut d: Diary<Region> = Diary { state: State::Lingering { until: 9000, region: INK }, pen_down: false };
    assert_eq!(d.pen_sample(sample(2048, Tool::Pen, true), 100), InkOp::Nothing);
    assert_eq!(d.state, State::FadingReply { stage: 0, next: 100, region: INK });
    let mut now = 100;
    for stage in 0..9 {
        let (nd, a) = tick(d, now, OracleNews::Waiting);
        assert_eq!(a, vec![Action::Dissolve(INK, stage, 10)]);
        now += 80;
        d = nd;
    }
    let (d, a) = tick(d, now, OracleNews::Waiting);
    assert_eq!(a, vec![Action::Dissolve(INK, 9, 10), Action::FullRefresh]);
    assert_eq!(d.state, State::Listening { last_pen: None });
}

#[test]
fn lingering_times_out_into_fade() {
    let d: Diary<Region> = Diary { state: State::Lingering { until: 9000, region: INK }, pen_down: false };
    let (d, a) = tick(d, 8999, OracleNews::Waiting);
    assert!(a.is_empty());
    let (d, _) = tick(d, 9000, OracleNews::Waiting);
    assert_eq!(d.state, State::FadingReply { stage: 0, next: 9000, region: INK });
}

#[test]
fn flush_and_blot_geometry() {
    assert_eq!(flush_interval(true), 8);
    assert_eq!(flush_interval(false), 35);
    assert!(flush_due(true, 100, 65, false));
    assert!(!flush_due(true, 100, 66, false));
    assert!(!flush_due(false, 100, 0, true));
    assert!(!flush_due(true, 10, 50, true));
    assert_eq!(blot_square(Model::PaperPro), (796, 1066, 28, 28));
    assert_eq!(blot_square(Model::Rm2), (688, 922, 28, 28));
}

#[test]
fn jitter_sequence() {
    let mut j = Jitter::new();
    let mut seed: u32 = 0x1234;
    let first = j.next();
    assert_eq!(first, 2);
    seed = seed.wrapping_mul(1664525).wrapping_add(1013904223);
    assert_eq!(((seed >> 16) % 7) as i32 - 3, first);
    for _ in 0..100 {
        seed = seed.wrapping_mul(1664525).wrapping_add(1013904223);
        let w = j.next();
        assert_eq!(w, ((seed >> 16) % 7) as i32 - 3);
        assert!((-3..=3).contains(&w));
    }
}

#[test]
fn reply_layout() {
    assert_eq!(first_line_y(Model::PaperPro, 120, 3), 600);
    assert_eq!(first_line_y(Model::PaperPro, 120, 20), 60);
    assert_eq!(first_line_y(Model::Rm2, 120, 1), 584);
    assert_eq!(line_x(Model::PaperPro, 1000), 310);
    assert_eq!(line_x(Model::PaperPro, 1621), 0);
    assert_eq!(place_stroke(&vec![(1, 2), (3, 4)], 10, 100, -3), vec![(11, 99), (13, 101)]);
}

#[test]
fn lines_are_stacked_centred_and_wobbled() {
    let lines = vec![
        TracedLine { width: 1000, strokes: vec![vec![(0, 0), (5, 7)], vec![(1, 1)]] },
        TracedLine { width: 20, strokes: vec![] },
        TracedLine { width: 620, strokes: vec![vec![(2, 3)]] },
    ];
    assert!(lines_fit(Model::PaperPro, &lines, 600, 120));
    let out = place_lines(Model::PaperPro, &lines, 600, 120);
    let mut j = Jitter::new();
    let w0 = j.next();
    let _w1 = j.next();
    let w2 = j.next();
    assert_eq!(out, vec![
        vec![(310, 600 + w0), (315, 607 + w0)],
        vec![(311, 601 + w0)],
        vec![(502, 843 + w2)],
    ]);
    assert!(!lines_fit(Model::PaperPro, &lines, i32::MAX - 100, 120));
    let wide = vec![TracedLine { width: 1, strokes: vec![vec![(i32::MAX, 0)]] }];
    assert!(!lines_fit(Model::PaperPro, &wide, 0, 120));
}

#[test]
fn bounds_cover_points_with_margin() {
    assert_eq!(stroke_bounds(&vec![], 5), None);
    assert_eq!(stroke_bounds(&vec![vec![], vec![]], 5), None);
    let strokes = vec![vec![(10, 20), (3, 40)], vec![], vec![(7, -2)]];
    assert_eq!(stroke_bounds(&strokes, 5), Some(Bounds { x0: -2, y0: -7, x1: 15, y1: 45 }));
    assert_eq!(stroke_bounds(&vec![vec![(i32::MAX, i32::MIN)]], 5), Some(Bounds {
        x0: i32::MAX as i64 - 5,
        y0: i32::MIN as i64 - 5,
        x1: i32::MAX as i64 + 5,
        y1: i32::MIN as i64 + 5,
    }));
    let ops = vec![DrawOp::Stamp((1, 1)), DrawOp::Line((100, 100), (4, 9))];
    assert_eq!(ops_bounds(&ops, 4), Some(Bounds { x0: -3, y0: -3, x1: 8, y1: 13 }));
    assert_eq!(ops_bounds(&vec![], 4), None);
}

#[test]
fn device_names_fold_ascii_case_only() {
    assert!(!name_matches("MAR\u{212A}ER".as_bytes(), &[b"marker"]));
    assert!(name_matches("MAR\u{212A}ER".to_lowercase().as_bytes(), &[b"marker"]));
}
