//! Power button for takeover mode, and the kernel's suspend counter.

use vstd::prelude::*;
use crate::evdev::{decode_all, records, EV_KEY};

verus! {

pub const KEY_POWER: u16 = 116;

/// A record is a power-key press (not a release or autorepeat).
pub open spec fn is_press(rec: (u16, u16, i32)) -> bool {
    rec.0 == EV_KEY && rec.1 == KEY_POWER && rec.2 == 1
}

/// Some record of the run is a power-key press.
pub open spec fn pressed_in(recs: Seq<(u16, u16, i32)>) -> bool {
    exists|i: int| 0 <= i < recs.len() && is_press(#[trigger] recs[i])
}

/// The power button device: its descriptor, and whether it is grabbed (if
/// not, logind also sees the press and suspends by itself).
#[derive(Debug)]
pub struct PowerButton {
    pub fd: i32,
    pub grabbed: bool,
}

impl PowerButton {
    pub fn new(fd: i32, grabbed: bool) -> (p: PowerButton)
        ensures
            p.fd == fd,
            p.grabbed == grabbed,
    {
        PowerButton { fd, grabbed }
    }

    pub fn raw_fd(&self) -> (fd: i32)
        ensures
            fd == self.fd,
    {
        self.fd
    }

    /// Whether a read buffer holds a power-key press. A trailing partial
    /// record is ignored.
    pub fn pressed(&self, buf: &[u8]) -> (r: bool)
        ensures
            r == pressed_in(records(buf@)),
    {
        let recs = decode_all(buf);
        let mut i: usize = 0;
        while i < recs.len()
            invariant
                recs@ == records(buf@),
                i <= recs@.len(),
                forall|j: int| 0 <= j < i ==> !is_press(#[trigger] recs@[j]),
            decreases recs@.len() - i,
        {
            let (t, c, v) = recs[i];
            if t == EV_KEY && c == KEY_POWER && v == 1 {
                assert(is_press(recs@[i as int]));
                return true;
            }
            i = i + 1;
        }
        false
    }
}

/// ASCII white space, as `char::is_whitespace` classifies those bytes.
pub open spec fn is_space(b: u8) -> bool {
    b == 9 || b == 10 || b == 11 || b == 12 || b == 13 || b == 32
}

pub open spec fn is_digit(b: u8) -> bool {
    48 <= b <= 57
}

pub open spec fn all_digits(d: Seq<u8>) -> bool {
    forall|i: int| 0 <= i < d.len() ==> is_digit(#[trigger] d[i])
}

/// The value of a run of decimal digits.
pub open spec fn decimal(digits: Seq<u8>) -> nat
    decreases digits.len(),
{
    if digits.len() == 0 {
        0
    } else {
        decimal(digits.drop_last()) * 10 + (digits.last() - 48) as nat
    }
}

/// The UTF-8 encodings of the non-ASCII white space characters (Unicode
/// `White_Space`, as `char::is_whitespace` and `str::trim` use it) are
/// `C2 85`, `C2 A0`, `E1 9A 80`, `E2 80 80`..`E2 80 8A`, `E2 80 A8`,
/// `E2 80 A9`, `E2 80 AF`, `E2 81 9F` and `E3 80 80`.
pub open spec fn is_space2(a: u8, b: u8) -> bool {
    a == 0xC2 && (b == 0x85 || b == 0xA0)
}

pub open spec fn is_space3(a: u8, b: u8, c: u8) -> bool {
    ||| a == 0xE1 && b == 0x9A && c == 0x80
    ||| a == 0xE2 && b == 0x80 && ((0x80 <= c <= 0x8A) || c == 0xA8 || c == 0xA9 || c == 0xAF)
    ||| a == 0xE2 && b == 0x81 && c == 0x9F
    ||| a == 0xE3 && b == 0x80 && c == 0x80
}

/// The byte length of the white space character `s` starts with, 0 if none.
pub open spec fn lead_space(s: Seq<u8>) -> nat {
    if s.len() >= 1 && is_space(s[0]) {
        1
    } else if s.len() >= 2 && is_space2(s[0], s[1]) {
        2
    } else if s.len() >= 3 && is_space3(s[0], s[1], s[2]) {
        3
    } else {
        0
    }
}

/// The byte length of the white space character `s` ends with, 0 if none.
pub open spec fn trail_space(s: Seq<u8>) -> nat {
    let n = s.len() as int;
    if n >= 1 && is_space(s[n - 1]) {
        1
    } else if n >= 2 && is_space2(s[n - 2], s[n - 1]) {
        2
    } else if n >= 3 && is_space3(s[n - 3], s[n - 2], s[n - 1]) {
        3
    } else {
        0
    }
}

/// Leading white space removed.
pub open spec fn trim_start(s: Seq<u8>) -> Seq<u8>
    decreases s.len(),
{
    if lead_space(s) > 0 { trim_start(s.skip(lead_space(s) as int)) } else { s }
}

/// Trailing white space removed.
pub open spec fn trim_end(s: Seq<u8>) -> Seq<u8>
    decreases s.len(),
{
    if trail_space(s) > 0 { trim_end(s.take(s.len() - trail_space(s))) } else { s }
}

/// The unsigned decimal number a trimmed text spells: an optional `+`, then
/// one or more digits whose value fits `u64`.
pub open spec fn spec_parse_u64(t: Seq<u8>) -> Option<u64> {
    let d = if t.len() > 0 && t[0] == 43 { t.drop_first() } else { t };
    if d.len() > 0 && all_digits(d) && decimal(d) <= u64::MAX {
        Some(decimal(d) as u64)
    } else {
        None
    }
}

/// The counter a sysfs counter file holds: its trimmed text as a `u64`, or
/// 0 when that is not a number.
pub open spec fn spec_counter_value(text: Seq<u8>) -> u64 {
    match spec_parse_u64(trim_end(trim_start(text))) {
        Some(v) => v,
        None => 0,
    }
}

/// Read the successful-suspend count from the (UTF-8) text of
/// `/sys/power/suspend_stats/success`: the text trimmed of white space and
/// read as a `u64`, or 0 when that is not a number.
pub fn counter_value(text: &[u8]) -> (v: u64)
    ensures
        v == spec_counter_value(text@),
{
    let n = text.len();
    let mut lo: usize = 0;
    assert(text@.skip(0) =~= text@);
    loop
        invariant
            n == text@.len(),
            lo <= n,
            trim_start(text@) == trim_start(text@.skip(lo as int)),
        ensures
            n == text@.len(),
            lo <= n,
            trim_start(text@) == trim_start(text@.skip(lo as int)),
            lead_space(text@.skip(lo as int)) == 0,
        decreases n - lo,
    {
        let k = space_at_start(text, lo);
        assert(text@.subrange(lo as int, n as int) =~= text@.skip(lo as int));
        if k == 0 {
            break;
        }
        assert(text@.skip(lo as int).skip(k as int) =~= text@.skip(lo + k));
        lo = lo + k;
    }
    assert(trim_start(text@) == text@.skip(lo as int));
    let mut hi: usize = n;
    assert(text@.skip(lo as int) =~= text@.subrange(lo as int, n as int));
    loop
        invariant
            n == text@.len(),
            lo <= hi <= n,
            trim_end(text@.skip(lo as int)) == trim_end(text@.subrange(lo as int, hi as int)),
        ensures
            n == text@.len(),
            lo <= hi <= n,
            trim_end(text@.skip(lo as int)) == trim_end(text@.subrange(lo as int, hi as int)),
            trail_space(text@.subrange(lo as int, hi as int)) == 0,
        decreases hi - lo,
    {
        let k = space_at_end(text, lo, hi);
        if k == 0 {
            break;
        }
        assert(text@.subrange(lo as int, hi as int).take(hi - lo - k) =~= text@.subrange(lo as int, hi - k));
        hi = hi - k;
    }
    let ghost t = text@.subrange(lo as int, hi as int);
    assert(trim_end(trim_start(text@)) == t);
    let mut start = lo;
    if start < hi && text[start] == 43 {
        start = start + 1;
    }
    let ghost d = if t.len() > 0 && t[0] == 43 { t.drop_first() } else { t };
    assert(d =~= text@.subrange(start as int, hi as int));
    assert(spec_counter_value(text@) == (if d.len() > 0 && all_digits(d)
        && decimal(d) <= u64::MAX { decimal(d) as u64 } else { 0 }));
    if start >= hi {
        return 0;
    }
    let mut value: u64 = 0;
    let mut i: usize = start;
    while i < hi
        invariant
            n == text@.len(),
            start <= i <= hi <= n,
            d == text@.subrange(start as int, hi as int),
            forall|j: int| 0 <= j < i - start ==> is_digit(#[trigger] d[j]),
            value == decimal(d.take(i - start)),
            spec_counter_value(text@) == (if d.len() > 0 && all_digits(d)
                && decimal(d) <= u64::MAX { decimal(d) as u64 } else { 0 }),
        decreases hi - i,
    {
        let b = text[i];
        if !(48 <= b && b <= 57) {
            assert(!is_digit(d[i - start]));
            return 0;
        }
        assert(d.take(i - start + 1).drop_last() =~= d.take(i - start));
        if value > (u64::MAX - (b - 48) as u64) / 10 {
            proof {
                let k = (i - start + 1) as int;
                let dig = (b - 48) as int;
                assert(decimal(d.take(k)) == value * 10 + dig);
                assert(value * 10 + dig > u64::MAX) by (nonlinear_arith)
                    requires
                        value > (u64::MAX - dig) / 10,
                        0 <= dig <= 9,
                ;
                if all_digits(d) {
                    lemma_decimal_grows(d, k);
                }
            }
            return 0;
        }
        value = value * 10 + (b - 48) as u64;
        i = i + 1;
    }
    assert(d.take(d.len() as int) =~= d);
    assert(decimal(d) <= u64::MAX);
    value
}

/// The byte length of the white space character at `text[lo..]`'s start.
fn space_at_start(text: &[u8], lo: usize) -> (k: usize)
    requires
        lo <= text@.len(),
    ensures
        k == lead_space(text@.subrange(lo as int, text@.len() as int)),
        lo + k <= text@.len(),
{
    let n = text.len();
    if lo < n && is_space_byte(text[lo]) {
        1
    } else if n - lo > 1 && text[lo] == 0xC2 && (text[lo + 1] == 0x85 || text[lo + 1] == 0xA0) {
        2
    } else if n - lo > 2 && is_space3_bytes(text[lo], text[lo + 1], text[lo + 2]) {
        3
    } else {
        0
    }
}

/// The byte length of the white space character `text[lo..hi]` ends with.
fn space_at_end(text: &[u8], lo: usize, hi: usize) -> (k: usize)
    requires
        lo <= hi <= text@.len(),
    ensures
        k == trail_space(text@.subrange(lo as int, hi as int)),
        k <= hi - lo,
{
    let len = hi - lo;
    if len >= 1 && is_space_byte(text[hi - 1]) {
        1
    } else if len >= 2 && text[hi - 2] == 0xC2 && (text[hi - 1] == 0x85 || text[hi - 1] == 0xA0) {
        2
    } else if len >= 3 && is_space3_bytes(text[hi - 3], text[hi - 2], text[hi - 1]) {
        3
    } else {
        0
    }
}

fn is_space3_bytes(a: u8, b: u8, c: u8) -> (r: bool)
    ensures
        r == is_space3(a, b, c),
{
    (a == 0xE1 && b == 0x9A && c == 0x80) || (a == 0xE2 && b == 0x80 && ((0x80 <= c && c <= 0x8A) || c == 0xA8
        || c == 0xA9 || c == 0xAF)) || (a == 0xE2 && b == 0x81 && c == 0x9F) || (a == 0xE3 && b == 0x80 && c
        == 0x80)
}

fn is_space_byte(b: u8) -> (r: bool)
    ensures
        r == is_space(b),
{
    b == 9 || b == 10 || b == 11 || b == 12 || b == 13 || b == 32
}

/// A run of digits is worth at least any prefix of it.
proof fn lemma_decimal_grows(d: Seq<u8>, k: int)
    requires
        0 <= k <= d.len(),
        all_digits(d),
    ensures
        decimal(d.take(k)) <= decimal(d),
    decreases d.len() - k,
{
    if k < d.len() {
        lemma_decimal_grows(d, k + 1);
        assert(d.take(k + 1).drop_last() =~= d.take(k));
        assert(decimal(d.take(k + 1)) == decimal(d.take(k)) * 10 + (d[k] - 48) as nat);
    } else {
        assert(d.take(k) =~= d);
    }
}


/// Digits are read in base ten, most significant first: appending a digit
/// multiplies the value by ten and adds the digit.
pub proof fn lemma_decimal_appends(d: Seq<u8>, b: u8)
    requires
        is_digit(b),
    ensures
        decimal(d.push(b)) == decimal(d) * 10 + (b - 48),
        decimal(seq![b]) == b - 48,
{
    assert(d.push(b).drop_last() =~= d);
    assert(seq![b].drop_last() =~= Seq::<u8>::empty());
    assert(seq![b].last() == b);
    assert(decimal(Seq::<u8>::empty()) == 0);
    assert(decimal(seq![b]) == decimal(seq![b].drop_last()) * 10 + (seq![b].last() - 48) as nat);
}

/// A press is a key-down of the power key: releases and autorepeats are not
/// presses, nor are other keys.
pub proof fn lemma_only_power_key_down(code: u16, v: i32)
    ensures
        is_press((EV_KEY, code, v)) <==> (code == KEY_POWER && v == 1),
        !is_press((EV_KEY, KEY_POWER, 0)),
        !is_press((EV_KEY, KEY_POWER, 2)),
{
}

} // verus!
