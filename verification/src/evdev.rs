//! Raw evdev records shared by the pen, touch and power-button readers.
//!
//! `struct input_event` starts with a `struct timeval` whose size follows the
//! userspace ABI: 16 bytes on 64-bit targets and 8 bytes on 32-bit ones.
//! `type`, `code` and `value` follow it, so both the record size and the
//! field offsets depend on the pointer width.

use vstd::prelude::*;

verus! {

pub const EV_SYN: u16 = 0;
pub const EV_KEY: u16 = 1;
pub const EV_ABS: u16 = 3;
pub const SYN_REPORT: u16 = 0;

/// Size of one record: 24 bytes with a 64-bit `timeval`, 16 with a 32-bit one.
pub open spec fn spec_ev_size() -> nat {
    if usize::BITS == 64 { 24 } else { 16 }
}

/// Offset of the `type` field inside a record (right after the `timeval`).
pub open spec fn spec_type_off() -> nat {
    (spec_ev_size() - 8) as nat
}

/// Little-endian unsigned 16-bit value of two bytes.
pub open spec fn le_u16(lo: u8, hi: u8) -> int {
    lo + 256 * hi
}

/// Little-endian two's-complement 32-bit value of four bytes.
pub open spec fn le_i32(b0: u8, b1: u8, b2: u8, b3: u8) -> int {
    let u = b0 + 256 * b1 + 65536 * b2 + 16777216 * b3;
    if u < 0x8000_0000 { u } else { u - 0x1_0000_0000 }
}

/// The `(type, code, value)` triple of the record whose `type` field starts at `pos`.
pub open spec fn fields_at(s: Seq<u8>, pos: int) -> (u16, u16, i32) {
    (
        le_u16(s[pos], s[pos + 1]) as u16,
        le_u16(s[pos + 2], s[pos + 3]) as u16,
        le_i32(s[pos + 4], s[pos + 5], s[pos + 6], s[pos + 7]) as i32,
    )
}

/// The triple decoded from the record that starts at byte `start`.
pub open spec fn record_at(s: Seq<u8>, start: int) -> (u16, u16, i32) {
    fields_at(s, start + spec_type_off())
}

/// Every complete record of `s`, in order; a trailing partial record is ignored.
pub open spec fn records(s: Seq<u8>) -> Seq<(u16, u16, i32)> {
    Seq::new(s.len() / spec_ev_size(), |i: int| record_at(s, i * spec_ev_size()))
}

/// Record size on this target.
pub fn ev_size() -> (n: usize)
    ensures
        n == spec_ev_size(),
{
    if usize::BITS == 64 {
        24
    } else {
        16
    }
}

fn u16_le(lo: u8, hi: u8) -> (r: u16)
    ensures
        r == le_u16(lo, hi),
{
    let r = (lo as u16) | ((hi as u16) << 8u16);
    assert(r == lo + 256 * hi) by (bit_vector)
        requires
            r == (lo as u16) | ((hi as u16) << 8u16),
    ;
    r
}

fn i32_le(b0: u8, b1: u8, b2: u8, b3: u8) -> (r: i32)
    ensures
        r == le_i32(b0, b1, b2, b3),
{
    let u: u32 = (b0 as u32) | ((b1 as u32) << 8u32) | ((b2 as u32) << 16u32) | ((b3 as u32) << 24u32);
    assert(u == b0 + 256 * b1 + 65536 * b2 + 16777216 * b3) by (bit_vector)
        requires
            u == (b0 as u32) | ((b1 as u32) << 8u32) | ((b2 as u32) << 16u32) | ((b3 as u32) << 24u32),
    ;
    let r = u as i32;
    assert(r == (if u < 0x8000_0000u32 { u as int } else { u - 0x1_0000_0000int })) by (bit_vector)
        requires
            r == u as i32,
    ;
    r
}

fn fields(s: &[u8], pos: usize) -> (r: (u16, u16, i32))
    requires
        pos + 8 <= s@.len(),
    ensures
        r == fields_at(s@, pos as int),
{
    (
        u16_le(s[pos], s[pos + 1]),
        u16_le(s[pos + 2], s[pos + 3]),
        i32_le(s[pos + 4], s[pos + 5], s[pos + 6], s[pos + 7]),
    )
}

/// Decode one raw `input_event` record into `(type, code, value)`.
pub fn parse(chunk: &[u8]) -> (r: (u16, u16, i32))
    requires
        chunk@.len() >= spec_ev_size(),
    ensures
        r == record_at(chunk@, 0),
{
    let off = ev_size() - 8;
    fields(chunk, off)
}

/// Decode every complete record of a read buffer, in order.
pub fn decode_all(buf: &[u8]) -> (r: Vec<(u16, u16, i32)>)
    ensures
        r@ == records(buf@),
{
    let size = ev_size();
    let len = buf.len();
    let n = len / size;
    let mut out: Vec<(u16, u16, i32)> = Vec::new();
    let mut i: usize = 0;
    while i < n
        invariant
            size == spec_ev_size(),
            len == buf@.len(),
            n == buf@.len() / spec_ev_size(),
            i <= n,
            out@ == records(buf@).take(i as int),
        decreases n - i,
    {
        assert((i + 1) * size <= n * size) by (nonlinear_arith)
            requires i + 1 <= n;
        assert(n * size <= buf@.len()) by (nonlinear_arith)
            requires n as int == buf@.len() as int / size as int, size > 0;
        assert(i * size + size == (i + 1) * size) by (nonlinear_arith);
        assert(i * size + size <= buf@.len());
        let start = i * size;
        let rec = fields(buf, start + (size - 8));
        out.push(rec);
        i = i + 1;
        assert(out@ =~= records(buf@).take(i as int));
    }
    assert(out@ =~= records(buf@));
    out
}


/// ASCII case folding of one byte.
pub open spec fn ascii_lower(b: u8) -> u8 {
    if 65 <= b <= 90 { (b + 32) as u8 } else { b }
}

fn fold(b: u8) -> (r: u8)
    ensures
        r == ascii_lower(b),
{
    if 65 <= b && b <= 90 {
        b + 32
    } else {
        b
    }
}

/// `needle` occurs in `hay` starting at `at`, ignoring ASCII case.
pub open spec fn occurs_at(hay: Seq<u8>, needle: Seq<u8>, at: int) -> bool {
    &&& 0 <= at
    &&& at + needle.len() <= hay.len()
    &&& forall|j: int| 0 <= j < needle.len() ==> ascii_lower(#[trigger] hay[at + j]) == ascii_lower(needle[j])
}

/// The device name contains `needle`, ignoring ASCII case.
pub open spec fn name_contains(name: Seq<u8>, needle: Seq<u8>) -> bool {
    exists|at: int| occurs_at(name, needle, at)
}

fn contains_at(name: &[u8], needle: &[u8], at: usize) -> (r: bool)
    requires
        at + needle@.len() <= name@.len(),
    ensures
        r == occurs_at(name@, needle@, at as int),
{
    let n = name.len();
    let mut j: usize = 0;
    while j < needle.len()
        invariant
            n == name@.len(),
            at + needle@.len() <= name@.len(),
            j <= needle@.len(),
            forall|k: int| 0 <= k < j ==> ascii_lower(#[trigger] name@[at + k]) == ascii_lower(needle@[k]),
        decreases needle@.len() - j,
    {
        if fold(name[at + j]) != fold(needle[j]) {
            return false;
        }
        j = j + 1;
    }
    true
}

/// Whether the device name contains `needle`, ignoring ASCII case.
pub fn contains_name(name: &[u8], needle: &[u8]) -> (r: bool)
    ensures
        r == name_contains(name@, needle@),
{
    if needle.len() > name.len() {
        assert forall|at: int| !occurs_at(name@, needle@, at) by {}
        return false;
    }
    let n = name.len();
    let last = n - needle.len();
    let mut at: usize = 0;
    while at <= last
        invariant
            n == name@.len(),
            last == name@.len() - needle@.len(),
            at <= last + 1,
            forall|k: int| 0 <= k < at ==> !occurs_at(name@, needle@, k),
        decreases last + 1 - at,
    {
        if contains_at(name, needle, at) {
            return true;
        }
        at = at + 1;
    }
    assert forall|k: int| !occurs_at(name@, needle@, k) by {
        if 0 <= k < at {
        }
    }
    false
}

/// The device name contains one of `needles`, ignoring ASCII case.
pub open spec fn name_matches_any(name: Seq<u8>, needles: Seq<&[u8]>) -> bool {
    exists|i: int| 0 <= i < needles.len() && name_contains(name, #[trigger] needles[i]@)
}

/// Whether a device name contains one of `needles`, ignoring ASCII case on
/// both sides. Only ASCII letters are folded here: to ignore case beyond
/// ASCII as well, pass the name lower-cased with Unicode rules (as
/// `str::to_lowercase` does).
pub fn name_matches(name: &[u8], needles: &[&[u8]]) -> (r: bool)
    ensures
        r == name_matches_any(name@, needles@),
{
    let mut i: usize = 0;
    while i < needles.len()
        invariant
            i <= needles@.len(),
            forall|k: int| 0 <= k < i ==> !name_contains(name@, #[trigger] needles@[k]@),
        decreases needles@.len() - i,
    {
        if contains_name(name, needles[i]) {
            assert(name_contains(name@, needles@[i as int]@));
            return true;
        }
        i = i + 1;
    }
    false
}


/// Decoding a whole buffer is parsing each of its fixed-size chunks in turn:
/// record `i` is what `parse` gives for bytes `[i * size, (i + 1) * size)`.
pub proof fn lemma_records_are_chunks(s: Seq<u8>, i: int)
    requires
        0 <= i < records(s).len(),
    ensures
        (i + 1) * spec_ev_size() <= s.len(),
        records(s)[i] == record_at(s.subrange(i * spec_ev_size(), (i + 1) * spec_ev_size()), 0),
{
    let size = spec_ev_size() as int;
    let n = s.len() as int / size;
    assert((i + 1) * size <= n * size) by (nonlinear_arith)
        requires i + 1 <= n, size > 0;
    assert(n * size <= s.len()) by (nonlinear_arith)
        requires n == s.len() as int / size, size > 0;
    assert(i * size + size == (i + 1) * size) by (nonlinear_arith);
}


/// Little-endian decoding inverts the encoding: the low byte first, then
/// the higher ones, and a 32-bit value read back as two's complement.
pub proof fn lemma_le_roundtrip(v: u16, w: i32)
    ensures
        le_u16((v % 256) as u8, (v / 256) as u8) == v,
        ({
            let u: int = if w >= 0 { w as int } else { w + 0x1_0000_0000 };
            le_i32((u % 256) as u8, ((u / 256) % 256) as u8, ((u / 65536) % 256) as u8, (u / 16777216) as u8) == w
        }),
{
}

} // verus!
