//! The older byte-level decoder of blackbox logs.
//!
//! A log is an optional gzip wrapper around a text header of `H ` lines
//! followed by frames: `I` frames carry every field in full, `P` frames carry
//! a signed delta per field against the last value of the field with the
//! same name, and `E` frames carry one line of event text. A frame that
//! cannot be decoded is skipped up to the next frame marker.

use crate::blackbox::fields::definition_name;
use crate::domain::{FlightEvent, FlightEventType};
use crate::error::DronetunerError;
use crate::info_map::{InfoMap, NamedValues};
use crate::text::{
    chars_of, concat, contains, contains_spec, decode_text, find_char_spec, lossy_decode,
    starts_with, starts_with_spec, string_of, trim,
};
use vstd::prelude::*;

verus! {

// ---------------------------------------------------------------------------
// Value encodings
// ---------------------------------------------------------------------------

/// How a field's value is stored in an `I` frame.
#[derive(Debug, Clone, Copy, PartialEq, Eq, Structural)]
pub enum EncodingType {
    /// Variable-length signed encoding
    SignedVB,
    /// Variable-length unsigned encoding
    UnsignedVB,
    /// Fixed-width little-endian encoding of the given number of bytes
    Fixed(usize),
    /// Delta from the previous value (read as signed in `I` frames)
    Delta,
}

/// Signed variable-byte value at the start of `input`: bytes consumed and
/// value. A byte below 0x80 holds a 6-bit magnitude with bit 6 as the sign;
/// otherwise a second byte follows and the two 7-bit groups form the value.
pub open spec fn signed_vb_spec(input: Seq<u8>) -> Option<(int, i32)> {
    if input.len() == 0 {
        None
    } else {
        let b = input[0];
        if b < 128 {
            let m = (b % 64) as int;
            Some((1, (if b >= 64 { -m } else { m }) as i32))
        } else if input.len() < 2 {
            None
        } else {
            Some((2, ((b - 128) + (input[1] % 128) * 128) as i32))
        }
    }
}

/// Unsigned variable-byte value at the start of `input`.
pub open spec fn unsigned_vb_spec(input: Seq<u8>) -> Option<(int, u32)> {
    if input.len() == 0 {
        None
    } else {
        let b = input[0];
        if b < 128 {
            Some((1, b as u32))
        } else if input.len() < 2 {
            None
        } else {
            Some((2, ((b - 128) + (input[1] % 128) * 128) as u32))
        }
    }
}

/// Little-endian two's-complement value of `size` bytes (1 byte unsigned;
/// sizes other than 1, 2 and 4 read as 0).
pub open spec fn fixed_value(bytes: Seq<u8>, size: usize) -> i32 {
    if size == 1 {
        bytes[0] as i32
    } else if size == 2 {
        let v = bytes[0] + bytes[1] * 256;
        (if v >= 32768 { v - 65536 } else { v }) as i32
    } else if size == 4 {
        let v = bytes[0] + bytes[1] * 256 + bytes[2] * 65536 + bytes[3] * 16777216;
        (if v >= 0x8000_0000 { v - 0x1_0000_0000 } else { v }) as i32
    } else {
        0
    }
}

/// One field value of an `I` frame at the start of `input`.
pub open spec fn field_value_spec(enc: EncodingType, input: Seq<u8>) -> Option<(int, i32)> {
    match enc {
        EncodingType::SignedVB => signed_vb_spec(input),
        EncodingType::Delta => signed_vb_spec(input),
        EncodingType::UnsignedVB => match unsigned_vb_spec(input) {
            Some((n, v)) => Some((n, v as i32)),
            None => None,
        },
        EncodingType::Fixed(size) => if input.len() < size {
            None
        } else {
            Some((size as int, fixed_value(input, size)))
        },
    }
}

/// Decode a signed variable-byte value at `pos`.
fn decode_signed_vb(data: &[u8], pos: usize) -> (res: Option<(usize, i32)>)
    requires
        pos <= data@.len(),
    ensures
        match res {
            Some((n, v)) => signed_vb_spec(data@.skip(pos as int)) == Some((n as int, v)),
            None => signed_vb_spec(data@.skip(pos as int)) is None,
        },
{
    if pos >= data.len() {
        return None;
    }
    let b = data[pos];
    if b < 128 {
        let m = (b % 64) as i32;
        Some((1, if b >= 64 { -m } else { m }))
    } else if data.len() - pos < 2 {
        None
    } else {
        let v = ((b - 128) as i32) + ((data[pos + 1] % 128) as i32) * 128;
        Some((2, v))
    }
}

/// Decode an unsigned variable-byte value at `pos`.
fn decode_unsigned_vb(data: &[u8], pos: usize) -> (res: Option<(usize, u32)>)
    requires
        pos <= data@.len(),
    ensures
        match res {
            Some((n, v)) => unsigned_vb_spec(data@.skip(pos as int)) == Some((n as int, v)),
            None => unsigned_vb_spec(data@.skip(pos as int)) is None,
        },
{
    if pos >= data.len() {
        return None;
    }
    let b = data[pos];
    if b < 128 {
        Some((1, b as u32))
    } else if data.len() - pos < 2 {
        None
    } else {
        let v = ((b - 128) as u32) + ((data[pos + 1] % 128) as u32) * 128;
        Some((2, v))
    }
}

/// Decode a signed variable-byte value: bytes consumed and value.
pub fn read_signed_vb(input: &[u8]) -> (res: Option<(usize, i32)>)
    ensures
        match res {
            Some((n, v)) => signed_vb_spec(input@) == Some((n as int, v)),
            None => signed_vb_spec(input@) is None,
        },
{
    assert(input@.skip(0) =~= input@);
    decode_signed_vb(input, 0)
}

/// Decode an unsigned variable-byte value: bytes consumed and value.
pub fn read_unsigned_vb(input: &[u8]) -> (res: Option<(usize, u32)>)
    ensures
        match res {
            Some((n, v)) => unsigned_vb_spec(input@) == Some((n as int, v)),
            None => unsigned_vb_spec(input@) is None,
        },
{
    assert(input@.skip(0) =~= input@);
    decode_unsigned_vb(input, 0)
}

fn fixed_value_exec(data: &[u8], pos: usize, size: usize) -> (res: i32)
    requires
        pos <= data@.len(),
        data@.len() - pos >= size,
    ensures
        res == fixed_value(data@.skip(pos as int), size),
{
    let ghost input = data@.skip(pos as int);
    if size == 1 {
        assert(input[0] == data@[pos as int]);
        data[pos] as i32
    } else if size == 2 {
        assert(input[0] == data@[pos as int]);
        assert(input[1] == data@[pos + 1]);
        let v: i32 = (data[pos] as i32) + (data[pos + 1] as i32) * 256;
        if v >= 32768 {
            v - 65536
        } else {
            v
        }
    } else if size == 4 {
        assert(input[0] == data@[pos as int]);
        assert(input[1] == data@[pos + 1]);
        assert(input[2] == data@[pos + 2]);
        assert(input[3] == data@[pos + 3]);
        let v: i64 = (data[pos] as i64) + (data[pos + 1] as i64) * 256 + (data[pos + 2] as i64)
            * 65536 + (data[pos + 3] as i64) * 16777216;
        if v >= 0x8000_0000 {
            (v - 0x1_0000_0000) as i32
        } else {
            v as i32
        }
    } else {
        0
    }
}

/// Decode one field value of an `I` frame at `pos`.
fn decode_field_value(enc: EncodingType, data: &[u8], pos: usize) -> (res: Option<(usize, i32)>)
    requires
        pos <= data@.len(),
    ensures
        match res {
            Some((n, v)) => field_value_spec(enc, data@.skip(pos as int)) == Some((n as int, v)),
            None => field_value_spec(enc, data@.skip(pos as int)) is None,
        },
{
    match enc {
        EncodingType::SignedVB => decode_signed_vb(data, pos),
        EncodingType::Delta => decode_signed_vb(data, pos),
        EncodingType::UnsignedVB => match decode_unsigned_vb(data, pos) {
            Some((n, v)) => Some((n, v as i32)),
            None => None,
        },
        EncodingType::Fixed(size) => {
            if data.len() - pos < size {
                None
            } else {
                Some((size, fixed_value_exec(data, pos, size)))
            }
        },
    }
}

/// A decoded value consumes no more than what is there.
pub proof fn lemma_field_value_within(enc: EncodingType, input: Seq<u8>)
    ensures
        field_value_spec(enc, input) matches Some((n, _)) ==> 1 <= n <= input.len() || (n == 0
            && enc is Fixed),
        signed_vb_spec(input) matches Some((n, _)) ==> 1 <= n <= input.len(),
{
}

// ---------------------------------------------------------------------------
// Frames
// ---------------------------------------------------------------------------

/// Frame marker bytes.
pub const I_MARKER: u8 = 73;
/// `P` frame marker.
pub const P_MARKER: u8 = 80;
/// `E` frame marker.
pub const E_MARKER: u8 = 69;
/// Line terminator.
pub const NEWLINE: u8 = 10;

/// Index of the first occurrence of `b` in `s`.
pub open spec fn find_byte_spec(s: Seq<u8>, b: u8) -> Option<int>
    decreases s.len(),
{
    if s.len() == 0 {
        None
    } else if s[0] == b {
        Some(0)
    } else {
        match find_byte_spec(s.drop_first(), b) {
            Some(i) => Some(i + 1),
            None => None,
        }
    }
}

/// What `find_byte_spec` finds is an occurrence, and the first one.
pub proof fn lemma_find_byte(s: Seq<u8>, b: u8)
    ensures
        find_byte_spec(s, b) matches Some(i) ==> 0 <= i < s.len() && s[i] == b && forall|k: int|
            0 <= k < i ==> s[k] != b,
        find_byte_spec(s, b) is None ==> forall|k: int| 0 <= k < s.len() ==> s[k] != b,
    decreases s.len(),
{
    if s.len() > 0 {
        lemma_find_byte(s.drop_first(), b);
        if s[0] != b {
            assert forall|k: int| 1 <= k < s.len() implies s[k] == s.drop_first()[k - 1] by {}
        }
    }
}

/// Index (relative to `from`) of the first `b` at or after `from`.
fn find_byte_from(data: &[u8], from: usize, b: u8) -> (res: Option<usize>)
    requires
        from <= data@.len(),
    ensures
        match res {
            Some(j) => find_byte_spec(data@.skip(from as int), b) == Some(j as int),
            None => find_byte_spec(data@.skip(from as int), b) is None,
        },
{
    let ghost s = data@.skip(from as int);
    let mut i = from;
    while i < data.len()
        invariant
            from <= i <= data@.len(),
            s == data@.skip(from as int),
            forall|k: int| 0 <= k < i - from ==> s[k] != b,
        decreases data@.len() - i,
    {
        if data[i] == b {
            proof {
                lemma_find_byte(s, b);
                assert(s[i - from] == b);
                if let Some(j) = find_byte_spec(s, b) {
                    assert(j == i - from);
                }
            }
            return Some(i - from);
        }
        i = i + 1;
    }
    proof {
        lemma_find_byte(s, b);
    }
    None
}

/// A field of the frame layout.
#[derive(Debug, Clone)]
pub struct FieldDefinition {
    /// Field name
    pub name: String,
    /// Field index in frame
    pub index: usize,
    /// Encoding method
    pub encoding: EncodingType,
}

/// The frame layout as names and encodings.
pub open spec fn layout_view(defs: Seq<FieldDefinition>) -> Seq<(Seq<char>, EncodingType)> {
    defs.map_values(|d: FieldDefinition| (d.name@, d.encoding))
}

/// The last decoded value of a field name, 0 when there is none yet.
pub open spec fn previous_of(prev: Map<Seq<char>, i32>, name: Seq<char>) -> i32 {
    if prev.contains_key(name) {
        prev[name]
    } else {
        0
    }
}

/// Two's-complement wrapping addition of 32-bit integers.
pub open spec fn wrapping_add_i32(a: i32, b: i32) -> i32 {
    let s = a + b;
    (if s > i32::MAX {
        s - 0x1_0000_0000
    } else if s < i32::MIN {
        s + 0x1_0000_0000
    } else {
        s
    }) as i32
}

fn wrapping_add_exec(a: i32, b: i32) -> (res: i32)
    ensures
        res == wrapping_add_i32(a, b),
{
    let s: i64 = (a as i64) + (b as i64);
    if s > 0x7fff_ffff {
        (s - 0x1_0000_0000) as i32
    } else if s < -0x8000_0000 {
        (s + 0x1_0000_0000) as i32
    } else {
        s as i32
    }
}

/// Decoding of an `I` frame body field by field: whether all fields so far
/// decoded, bytes consumed, the values, and the last-value table, in which
/// every decoded field's value is recorded under its name at once.
pub open spec fn i_body(layout: Seq<(Seq<char>, EncodingType)>, input: Seq<u8>, prev: Map<
    Seq<char>,
    i32,
>) -> (bool, int, Seq<i32>, Map<Seq<char>, i32>)
    decreases layout.len(),
{
    if layout.len() == 0 {
        (true, 0, Seq::empty(), prev)
    } else {
        let (ok, c, vs, m) = i_body(layout.drop_last(), input, prev);
        if !ok {
            (ok, c, vs, m)
        } else {
            match field_value_spec(layout.last().1, input.skip(c)) {
                Some((d, v)) => (true, c + d, vs.push(v), m.insert(layout.last().0, v)),
                None => (false, c, vs, m),
            }
        }
    }
}

/// Decoding of a `P` frame body: every field is a signed delta added to the
/// last value of the field's name.
pub open spec fn p_body(layout: Seq<(Seq<char>, EncodingType)>, input: Seq<u8>, prev: Map<
    Seq<char>,
    i32,
>) -> (bool, int, Seq<i32>, Map<Seq<char>, i32>)
    decreases layout.len(),
{
    if layout.len() == 0 {
        (true, 0, Seq::empty(), prev)
    } else {
        let (ok, c, vs, m) = p_body(layout.drop_last(), input, prev);
        if !ok {
            (ok, c, vs, m)
        } else {
            match signed_vb_spec(input.skip(c)) {
                Some((d, delta)) => {
                    let v = wrapping_add_i32(previous_of(m, layout.last().0), delta);
                    (true, c + d, vs.push(v), m.insert(layout.last().0, v))
                },
                None => (false, c, vs, m),
            }
        }
    }
}

/// Decoding never reads past the end.
pub proof fn lemma_bodies_within(
    layout: Seq<(Seq<char>, EncodingType)>,
    input: Seq<u8>,
    prev: Map<Seq<char>, i32>,
)
    ensures
        0 <= i_body(layout, input, prev).1 <= input.len(),
        0 <= p_body(layout, input, prev).1 <= input.len(),
        i_body(layout, input, prev).2.len() <= layout.len(),
        p_body(layout, input, prev).2.len() <= layout.len(),
    decreases layout.len(),
{
    if layout.len() > 0 {
        lemma_bodies_within(layout.drop_last(), input, prev);
        let c1 = i_body(layout.drop_last(), input, prev).1;
        let c2 = p_body(layout.drop_last(), input, prev).1;
        lemma_field_value_within(layout.last().1, input.skip(c1));
        lemma_field_value_within(layout.last().1, input.skip(c2));
    }
}

/// A decoded frame, as values.
pub enum FrameView {
    /// Full values
    I(Seq<i32>),
    /// Values reconstructed from deltas
    P(Seq<i32>),
    /// Event text and event data
    Event(Seq<char>, Map<Seq<char>, Seq<char>>),
}

/// A decoded frame.
#[derive(Debug, Clone)]
pub enum DataFrame {
    /// I-frame (full data)
    I(Vec<i32>),
    /// P-frame (delta data)
    P(Vec<i32>),
    /// Event frame
    Event(String, InfoMap),
}

impl View for DataFrame {
    type V = FrameView;

    /// The frame's values.
    open spec fn view(&self) -> FrameView {
        match self {
            DataFrame::I(v) => FrameView::I(v@),
            DataFrame::P(v) => FrameView::P(v@),
            DataFrame::Event(s, m) => FrameView::Event(s@, m@),
        }
    }
}

/// The frames' values.
pub open spec fn frame_views(frames: Seq<DataFrame>) -> Seq<FrameView> {
    frames.map_values(|f: DataFrame| f@)
}

/// One frame at the start of `input`: bytes consumed and frame, or none
/// when it cannot be decoded; and the last-value table afterwards, which
/// keeps the values of the fields decoded before a failure.
pub open spec fn frame_spec(
    layout: Seq<(Seq<char>, EncodingType)>,
    input: Seq<u8>,
    prev: Map<Seq<char>, i32>,
) -> (Option<(int, FrameView)>, Map<Seq<char>, i32>) {
    if input.len() == 0 {
        (None, prev)
    } else if input[0] == I_MARKER {
        let (ok, c, vs, m) = i_body(layout, input.skip(1), prev);
        (if ok { Some((1 + c, FrameView::I(vs))) } else { None }, m)
    } else if input[0] == P_MARKER {
        let (ok, c, vs, m) = p_body(layout, input.skip(1), prev);
        (if ok { Some((1 + c, FrameView::P(vs))) } else { None }, m)
    } else if input[0] == E_MARKER {
        match find_byte_spec(input.skip(1), NEWLINE) {
            Some(j) => (
                Some((j + 2, FrameView::Event(lossy_decode(input.subrange(1, 1 + j)), Map::empty()))),
                prev,
            ),
            None => (None, prev),
        }
    } else {
        (None, prev)
    }
}

/// A decoded frame consumes at least its marker and no more than is there.
pub proof fn lemma_frame_within(
    layout: Seq<(Seq<char>, EncodingType)>,
    input: Seq<u8>,
    prev: Map<Seq<char>, i32>,
)
    ensures
        frame_spec(layout, input, prev).0 matches Some((c, _)) ==> 1 <= c <= input.len(),
{
    if input.len() > 0 {
        lemma_bodies_within(layout, input.skip(1), prev);
        lemma_find_byte(input.skip(1), NEWLINE);
    }
}

/// Whether a byte starts a frame.
pub open spec fn is_marker(b: u8) -> bool {
    b == I_MARKER || b == P_MARKER || b == E_MARKER
}

/// Index of the first frame marker in `s`.
pub open spec fn first_marker(s: Seq<u8>) -> Option<int>
    decreases s.len(),
{
    if s.len() == 0 {
        None
    } else if is_marker(s[0]) {
        Some(0)
    } else {
        match first_marker(s.drop_first()) {
            Some(i) => Some(i + 1),
            None => None,
        }
    }
}

/// Bytes dropped after an undecodable frame: up to the next marker after
/// the first byte, or everything.
pub open spec fn skip_len(input: Seq<u8>) -> int {
    if input.len() == 0 {
        0
    } else {
        match first_marker(input.skip(1)) {
            Some(k) => k + 1,
            None => input.len() as int,
        }
    }
}

/// What `first_marker` finds is a marker, and the first one.
pub proof fn lemma_first_marker(s: Seq<u8>)
    ensures
        first_marker(s) matches Some(i) ==> 0 <= i < s.len() && is_marker(s[i]) && forall|k: int|
            0 <= k < i ==> !is_marker(s[k]),
        first_marker(s) is None ==> forall|k: int| 0 <= k < s.len() ==> !is_marker(s[k]),
    decreases s.len(),
{
    if s.len() > 0 {
        lemma_first_marker(s.drop_first());
        if !is_marker(s[0]) {
            assert forall|k: int| 1 <= k < s.len() implies s[k] == s.drop_first()[k - 1] by {}
        }
    }
}

/// Skipping drops at least one byte and no more than there are.
pub proof fn lemma_skip_within(input: Seq<u8>)
    requires
        input.len() > 0,
    ensures
        1 <= skip_len(input) <= input.len(),
{
    lemma_first_marker(input.skip(1));
}

/// Totals of decoding a run of frames.
pub struct FrameTally {
    /// Decoded frames in order
    pub frames: Seq<FrameView>,
    /// Frames that started with an `I` marker
    pub i_frames: nat,
    /// Frames that started with a `P` marker
    pub p_frames: nat,
    /// Frames that started with an `E` marker
    pub event_frames: nat,
    /// Undecodable frames skipped
    pub corrupted: nat,
    /// The last-value table at the end
    pub prev: Map<Seq<char>, i32>,
}

/// Marker counts of a byte: (`I`, `P`, `E`).
pub open spec fn marker_counts(b: u8) -> (nat, nat, nat) {
    (
        if b == I_MARKER { 1nat } else { 0nat },
        if b == P_MARKER { 1nat } else { 0nat },
        if b == E_MARKER { 1nat } else { 0nat },
    )
}

/// Decoding the frames of `input` to its end: each frame is decoded in turn
/// and, when it cannot be, skipped up to the next marker.
pub open spec fn scan_frames(
    layout: Seq<(Seq<char>, EncodingType)>,
    input: Seq<u8>,
    prev: Map<Seq<char>, i32>,
) -> FrameTally
    decreases input.len(),
{
    if input.len() == 0 {
        FrameTally {
            frames: Seq::empty(),
            i_frames: 0,
            p_frames: 0,
            event_frames: 0,
            corrupted: 0,
            prev,
        }
    } else {
        let (r, m) = frame_spec(layout, input, prev);
        let (ci, cp, ce) = marker_counts(input[0]);
        match r {
            Some((c, f)) => {
                proof {
                    lemma_frame_within(layout, input, prev);
                }
                let t = scan_frames(layout, input.skip(c), m);
                FrameTally {
                    frames: seq![f] + t.frames,
                    i_frames: t.i_frames + ci,
                    p_frames: t.p_frames + cp,
                    event_frames: t.event_frames + ce,
                    corrupted: t.corrupted,
                    prev: t.prev,
                }
            },
            None => {
                proof {
                    lemma_skip_within(input);
                }
                let t = scan_frames(layout, input.skip(skip_len(input)), m);
                FrameTally {
                    frames: t.frames,
                    i_frames: t.i_frames + ci,
                    p_frames: t.p_frames + cp,
                    event_frames: t.event_frames + ce,
                    corrupted: t.corrupted + 1,
                    prev: t.prev,
                }
            },
        }
    }
}

fn decode_i_body(layout: &Vec<FieldDefinition>, data: &[u8], pos: usize, prev: &mut NamedValues) -> (res:
    Option<(usize, Vec<i32>)>)
    requires
        pos <= data@.len(),
    ensures
        ({
            let (ok, c, vs, m) = i_body(layout_view(layout@), data@.skip(pos as int), old(prev)@);
            &&& final(prev)@ == m
            &&& match res {
                Some((n, v)) => ok && n == c && v@ == vs,
                None => !ok,
            }
        }),
{
    let ghost lv = layout_view(layout@);
    let ghost input = data@.skip(pos as int);
    let ghost prev0 = prev@;
    let dlen = data.len();
    let mut vals: Vec<i32> = Vec::new();
    let mut cur = pos;
    let mut k: usize = 0;
    while k < layout.len()
        invariant
            0 <= k <= layout@.len(),
            dlen == data@.len(),
            prev0 == old(prev)@,
            lv == layout_view(layout@),
            input == data@.skip(pos as int),
            pos <= cur <= data@.len(),
            i_body(lv.take(k as int), input, prev0) == (true, cur - pos, vals@, prev@),
        decreases layout@.len() - k,
    {
        proof {
            assert(lv.take(k + 1).drop_last() =~= lv.take(k as int));
            assert(input.skip(cur - pos) =~= data@.skip(cur as int));
            assert(lv[k as int] == (layout@[k as int].name@, layout@[k as int].encoding));
        }
        let enc = layout[k].encoding;
        match decode_field_value(enc, data, cur) {
            Some((n, v)) => {
                proof {
                    lemma_field_value_within(enc, data@.skip(cur as int));
                }
                vals.push(v);
                prev.insert(layout[k].name.as_str(), v);
                cur = cur + n;
            },
            None => {
                proof {
                    lemma_i_body_fails_on(lv, k as int, input, prev0);
                }
                return None;
            },
        }
        k = k + 1;
    }
    proof {
        assert(lv.take(layout@.len() as int) =~= lv);
    }
    Some((cur - pos, vals))
}

fn decode_p_body(layout: &Vec<FieldDefinition>, data: &[u8], pos: usize, prev: &mut NamedValues) -> (res:
    Option<(usize, Vec<i32>)>)
    requires
        pos <= data@.len(),
    ensures
        ({
            let (ok, c, vs, m) = p_body(layout_view(layout@), data@.skip(pos as int), old(prev)@);
            &&& final(prev)@ == m
            &&& match res {
                Some((n, v)) => ok && n == c && v@ == vs,
                None => !ok,
            }
        }),
{
    let ghost lv = layout_view(layout@);
    let ghost input = data@.skip(pos as int);
    let ghost prev0 = prev@;
    let dlen = data.len();
    let mut vals: Vec<i32> = Vec::new();
    let mut cur = pos;
    let mut k: usize = 0;
    while k < layout.len()
        invariant
            0 <= k <= layout@.len(),
            dlen == data@.len(),
            prev0 == old(prev)@,
            lv == layout_view(layout@),
            input == data@.skip(pos as int),
            pos <= cur <= data@.len(),
            p_body(lv.take(k as int), input, prev0) == (true, cur - pos, vals@, prev@),
        decreases layout@.len() - k,
    {
        proof {
            assert(lv.take(k + 1).drop_last() =~= lv.take(k as int));
            assert(input.skip(cur - pos) =~= data@.skip(cur as int));
            assert(lv[k as int] == (layout@[k as int].name@, layout@[k as int].encoding));
        }
        match decode_signed_vb(data, cur) {
            Some((n, delta)) => {
                proof {
                    lemma_field_value_within(EncodingType::SignedVB, data@.skip(cur as int));
                }
                let name = layout[k].name.as_str();
                let previous = match prev.get(name) {
                    Some(v) => v,
                    None => 0,
                };
                let v = wrapping_add_exec(previous, delta);
                vals.push(v);
                prev.insert(name, v);
                cur = cur + n;
            },
            None => {
                proof {
                    lemma_p_body_fails_on(lv, k as int, input, prev0);
                }
                return None;
            },
        }
        k = k + 1;
    }
    proof {
        assert(lv.take(layout@.len() as int) =~= lv);
    }
    Some((cur - pos, vals))
}

/// Once a field fails, the decoding of the whole body fails with the same
/// consumption and table.
pub proof fn lemma_i_body_fails_on(
    lv: Seq<(Seq<char>, EncodingType)>,
    k: int,
    input: Seq<u8>,
    prev: Map<Seq<char>, i32>,
)
    requires
        0 <= k < lv.len(),
        i_body(lv.take(k), input, prev).0,
        field_value_spec(lv[k].1, input.skip(i_body(lv.take(k), input, prev).1)) is None,
    ensures
        !i_body(lv, input, prev).0,
        i_body(lv, input, prev).3 == i_body(lv.take(k), input, prev).3,
    decreases lv.len() - k,
{
    if k == lv.len() - 1 {
        assert(lv.drop_last() =~= lv.take(k));
    } else {
        assert(lv.take(k + 1).drop_last() =~= lv.take(k));
        lemma_i_body_fails_stays(lv, k + 1, input, prev);
        assert(lv.take(lv.len() as int) =~= lv);
    }
}

/// A failed body prefix stays failed, with the same table, on every longer prefix.
pub proof fn lemma_i_body_fails_stays(
    lv: Seq<(Seq<char>, EncodingType)>,
    k: int,
    input: Seq<u8>,
    prev: Map<Seq<char>, i32>,
)
    requires
        0 < k <= lv.len(),
        !i_body(lv.take(k), input, prev).0 || (i_body(lv.take(k - 1), input, prev).0
            && field_value_spec(lv[k - 1].1, input.skip(i_body(lv.take(k - 1), input, prev).1)) is None),
    ensures
        !i_body(lv.take(k), input, prev).0,
        forall|j: int|
            k <= j <= lv.len() ==> !(#[trigger] i_body(lv.take(j), input, prev)).0 && i_body(
                lv.take(j),
                input,
                prev,
            ).3 == i_body(lv.take(k), input, prev).3,
    decreases lv.len() - k,
{
    assert(lv.take(k).drop_last() =~= lv.take(k - 1));
    if k < lv.len() {
        assert(lv.take(k + 1).drop_last() =~= lv.take(k));
        lemma_i_body_fails_stays(lv, k + 1, input, prev);
    }
}

/// Once a field fails, the decoding of the whole `P` body fails with the
/// same table.
pub proof fn lemma_p_body_fails_on(
    lv: Seq<(Seq<char>, EncodingType)>,
    k: int,
    input: Seq<u8>,
    prev: Map<Seq<char>, i32>,
)
    requires
        0 <= k < lv.len(),
        p_body(lv.take(k), input, prev).0,
        signed_vb_spec(input.skip(p_body(lv.take(k), input, prev).1)) is None,
    ensures
        !p_body(lv, input, prev).0,
        p_body(lv, input, prev).3 == p_body(lv.take(k), input, prev).3,
    decreases lv.len() - k,
{
    if k == lv.len() - 1 {
        assert(lv.drop_last() =~= lv.take(k));
    } else {
        assert(lv.take(k + 1).drop_last() =~= lv.take(k));
        lemma_p_body_fails_stays(lv, k + 1, input, prev);
        assert(lv.take(lv.len() as int) =~= lv);
    }
}

/// A failed `P` body prefix stays failed, with the same table.
pub proof fn lemma_p_body_fails_stays(
    lv: Seq<(Seq<char>, EncodingType)>,
    k: int,
    input: Seq<u8>,
    prev: Map<Seq<char>, i32>,
)
    requires
        0 < k <= lv.len(),
        !p_body(lv.take(k), input, prev).0 || (p_body(lv.take(k - 1), input, prev).0
            && signed_vb_spec(input.skip(p_body(lv.take(k - 1), input, prev).1)) is None),
    ensures
        !p_body(lv.take(k), input, prev).0,
        forall|j: int|
            k <= j <= lv.len() ==> !(#[trigger] p_body(lv.take(j), input, prev)).0 && p_body(
                lv.take(j),
                input,
                prev,
            ).3 == p_body(lv.take(k), input, prev).3,
    decreases lv.len() - k,
{
    assert(lv.take(k).drop_last() =~= lv.take(k - 1));
    if k < lv.len() {
        assert(lv.take(k + 1).drop_last() =~= lv.take(k));
        lemma_p_body_fails_stays(lv, k + 1, input, prev);
    }
}

fn first_marker_from(data: &[u8], from: usize) -> (res: Option<usize>)
    requires
        from <= data@.len(),
    ensures
        match res {
            Some(j) => first_marker(data@.skip(from as int)) == Some(j as int),
            None => first_marker(data@.skip(from as int)) is None,
        },
{
    let ghost s = data@.skip(from as int);
    let mut i = from;
    while i < data.len()
        invariant
            from <= i <= data@.len(),
            s == data@.skip(from as int),
            forall|k: int| 0 <= k < i - from ==> !is_marker(s[k]),
        decreases data@.len() - i,
    {
        let b = data[i];
        if b == 73 || b == 80 || b == 69 {
            proof {
                lemma_first_marker(s);
                assert(is_marker(s[i - from]));
                if let Some(j) = first_marker(s) {
                    assert(j == i - from);
                }
            }
            return Some(i - from);
        }
        i = i + 1;
    }
    proof {
        lemma_first_marker(s);
    }
    None
}

/// Decode the frame at `pos`.
fn decode_frame(layout: &Vec<FieldDefinition>, data: &[u8], pos: usize, prev: &mut NamedValues) -> (res:
    Option<(usize, DataFrame)>)
    requires
        pos < data@.len(),
    ensures
        ({
            let (r, m) = frame_spec(layout_view(layout@), data@.skip(pos as int), old(prev)@);
            &&& final(prev)@ == m
            &&& match res {
                Some((n, f)) => r == Some((n as int, f@)),
                None => r is None,
            }
        }),
{
    let ghost input = data@.skip(pos as int);
    let b = data[pos];
    assert(input[0] == b);
    assert(input.skip(1) =~= data@.skip(pos + 1));
    if b == 73 {
        match decode_i_body(layout, data, pos + 1, prev) {
            Some((c, vals)) => {
                proof {
                    lemma_bodies_within(layout_view(layout@), input.skip(1), old(prev)@);
                }
                Some((c + 1, DataFrame::I(vals)))
            },
            None => None,
        }
    } else if b == 80 {
        match decode_p_body(layout, data, pos + 1, prev) {
            Some((c, vals)) => {
                proof {
                    lemma_bodies_within(layout_view(layout@), input.skip(1), old(prev)@);
                }
                Some((c + 1, DataFrame::P(vals)))
            },
            None => None,
        }
    } else if b == 69 {
        match find_byte_from(data, pos + 1, 10) {
            Some(j) => {
                proof {
                    lemma_find_byte(input.skip(1), NEWLINE);
                }
                let text_bytes = vstd::slice::slice_subrange(data, pos + 1, pos + 1 + j);
                assert(text_bytes@ =~= input.subrange(1, 1 + j));
                let text = decode_text(text_bytes);
                Some((j + 2, DataFrame::Event(string_of(&text), InfoMap::new())))
            },
            None => None,
        }
    } else {
        None
    }
}

/// Counts of a run of decoded frames.
#[derive(Debug, Clone, Copy, PartialEq, Eq, Structural)]
pub struct FrameCounts {
    /// Frames that started with an `I` marker
    pub i_frames: usize,
    /// Frames that started with a `P` marker
    pub p_frames: usize,
    /// Frames that started with an `E` marker
    pub event_frames: usize,
    /// Undecodable frames skipped
    pub corrupted: usize,
}

/// Decode every frame from `start` to the end of `data`.
fn decode_frames(layout: &Vec<FieldDefinition>, data: &[u8], start: usize, prev: &mut NamedValues) -> (res:
    (Vec<DataFrame>, FrameCounts))
    requires
        start <= data@.len(),
    ensures
        ({
            let t = scan_frames(layout_view(layout@), data@.skip(start as int), old(prev)@);
            &&& frame_views(res.0@) == t.frames
            &&& res.1.i_frames == t.i_frames
            &&& res.1.p_frames == t.p_frames
            &&& res.1.event_frames == t.event_frames
            &&& res.1.corrupted == t.corrupted
            &&& final(prev)@ == t.prev
        }),
{
    let ghost lv = layout_view(layout@);
    let ghost prev0 = prev@;
    let ghost t0 = scan_frames(lv, data@.skip(start as int), prev0);
    let dlen = data.len();
    let mut frames: Vec<DataFrame> = Vec::new();
    let mut counts = FrameCounts { i_frames: 0, p_frames: 0, event_frames: 0, corrupted: 0 };
    let mut pos = start;
    while pos < data.len()
        invariant
            start <= pos <= data@.len(),
            dlen == data@.len(),
            lv == layout_view(layout@),
            t0 == scan_frames(lv, data@.skip(start as int), prev0),
            counts.i_frames + counts.p_frames + counts.event_frames <= pos - start,
            counts.corrupted <= pos - start,
            ({
                let t = scan_frames(lv, data@.skip(pos as int), prev@);
                &&& frame_views(frames@) + t.frames == t0.frames
                &&& counts.i_frames + t.i_frames == t0.i_frames
                &&& counts.p_frames + t.p_frames == t0.p_frames
                &&& counts.event_frames + t.event_frames == t0.event_frames
                &&& counts.corrupted + t.corrupted == t0.corrupted
                &&& t.prev == t0.prev
            }),
        decreases data@.len() - pos,
    {
        let ghost input = data@.skip(pos as int);
        let ghost prev_before = prev@;
        let b = data[pos];
        assert(input[0] == b);
        if b == 73 {
            counts.i_frames = counts.i_frames + 1;
        } else if b == 80 {
            counts.p_frames = counts.p_frames + 1;
        } else if b == 69 {
            counts.event_frames = counts.event_frames + 1;
        }
        match decode_frame(layout, data, pos, prev) {
            Some((n, frame)) => {
                proof {
                    lemma_frame_within(lv, input, prev_before);
                    assert(input.skip(n as int) =~= data@.skip(pos + n));
                    let ghost before = frame_views(frames@);
                    assert(frame_views(frames@.push(frame)) =~= before.push(frame@));
                    assert(before.push(frame@) + scan_frames(lv, data@.skip(pos + n), prev@).frames
                        =~= before + (seq![frame@] + scan_frames(lv, data@.skip(pos + n), prev@).frames));
                }
                frames.push(frame);
                pos = pos + n;
            },
            None => {
                let found = first_marker_from(data, pos + 1);
                proof {
                    lemma_first_marker(data@.skip(pos + 1));
                }
                let skip = match found {
                    Some(k) => k + 1,
                    None => dlen - pos,
                };
                proof {
                    assert(input.skip(1) =~= data@.skip(pos + 1));
                    lemma_skip_within(input);
                    assert(skip == skip_len(input));
                    assert(input.skip(skip as int) =~= data@.skip(pos + skip));
                }
                counts.corrupted = counts.corrupted + 1;
                pos = pos + skip;
            },
        }
    }
    assert(data@.skip(pos as int).len() == 0);
    assert(frame_views(frames@) + Seq::<FrameView>::empty() =~= frame_views(frames@));
    (frames, counts)
}

// ---------------------------------------------------------------------------
// Header
// ---------------------------------------------------------------------------

/// The bytes of `H Product:`.
pub open spec fn product_tag() -> Seq<u8> {
    seq![72u8, 32u8, 80u8, 114u8, 111u8, 100u8, 117u8, 99u8, 116u8, 58u8]
}

/// Why the start of a header was not recognized.
#[derive(Debug, Clone, Copy, PartialEq, Eq, Structural)]
pub enum HeaderErrorKind {
    /// Neither `H Product:` nor `H ` starts the input
    Tag,
    /// The first `H ` line has no line end
    TakeUntil,
}

/// Where the header lines start: after `H Product:`, or after the whole
/// first line when it starts with `H ` otherwise; or where and why not.
pub open spec fn header_start_spec(input: Seq<u8>) -> Result<int, (int, HeaderErrorKind)> {
    if input.len() >= 10 && input.take(10) == product_tag() {
        Ok(10)
    } else if input.len() >= 2 && input[0] == 72 && input[1] == 32 {
        match find_byte_spec(input.skip(2), NEWLINE) {
            Some(j) => Ok(j + 3),
            None => Err((2, HeaderErrorKind::TakeUntil)),
        }
    } else {
        Err((0, HeaderErrorKind::Tag))
    }
}

/// The `H ` lines at the start of `input` (without the `H ` and the line
/// end, decoded as text), and the bytes they take. A line that starts with
/// `H` but is not a proper `H ` line is skipped when it has a line end and
/// ends the header otherwise.
pub open spec fn header_lines_spec(input: Seq<u8>) -> (Seq<Seq<char>>, int)
    decreases input.len(),
{
    if input.len() == 0 || input[0] != 72 {
        (Seq::empty(), 0)
    } else if input.len() >= 2 && input[1] == 32 && find_byte_spec(input.skip(2), NEWLINE) is Some {
        let j = find_byte_spec(input.skip(2), NEWLINE)->Some_0;
        proof {
            lemma_find_byte(input.skip(2), NEWLINE);
        }
        let line = lossy_decode(input.subrange(2, 2 + j));
        let (ls, c) = header_lines_spec(input.skip(j + 3));
        (seq![line] + ls, j + 3 + c)
    } else {
        match find_byte_spec(input, NEWLINE) {
            Some(k) => {
                proof {
                    lemma_find_byte(input, NEWLINE);
                }
                let (ls, c) = header_lines_spec(input.skip(k + 1));
                (ls, k + 1 + c)
            },
            None => (Seq::empty(), 0),
        }
    }
}

/// The header lines never take more than there is.
pub proof fn lemma_header_lines_within(input: Seq<u8>)
    ensures
        0 <= header_lines_spec(input).1 <= input.len(),
    decreases input.len(),
{
    if input.len() > 0 && input[0] == 72 {
        lemma_find_byte(input.skip(2), NEWLINE);
        lemma_find_byte(input, NEWLINE);
        if input.len() >= 2 && input[1] == 32 && find_byte_spec(input.skip(2), NEWLINE) is Some {
            let j = find_byte_spec(input.skip(2), NEWLINE)->Some_0;
            lemma_header_lines_within(input.skip(j + 3));
        } else if let Some(k) = find_byte_spec(input, NEWLINE) {
            lemma_header_lines_within(input.skip(k + 1));
        }
    }
}

/// The last line starting with `p`, or nothing.
pub open spec fn last_starting(lines: Seq<Seq<char>>, p: Seq<char>) -> Seq<char>
    decreases lines.len(),
{
    if lines.len() == 0 {
        Seq::empty()
    } else if starts_with_spec(lines.last(), p) {
        lines.last()
    } else {
        last_starting(lines.drop_last(), p)
    }
}

/// The field names of the `Field` lines that hold a `:`.
pub open spec fn header_field_names(lines: Seq<Seq<char>>) -> Seq<Seq<char>>
    decreases lines.len(),
{
    if lines.len() == 0 {
        Seq::empty()
    } else {
        let rest = header_field_names(lines.drop_last());
        let l = lines.last();
        if starts_with_spec(l, "Field"@) && find_char_spec(l, ':') is Some {
            rest.push(definition_name(l))
        } else {
            rest
        }
    }
}

/// Data types of header fields.
#[derive(Debug, Clone, Copy, PartialEq, Eq, Structural)]
pub enum DataType {
    /// Signed integer
    SignedInt,
    /// Unsigned integer
    UnsignedInt,
    /// Floating point
    Float,
}

/// Rate information from the header.
#[derive(Debug, Clone, Copy, PartialEq, Eq, Structural)]
pub struct RateInfo {
    /// Main loop rate (PID loop)
    pub pid_rate: u32,
    /// Gyro sample rate
    pub gyro_rate: u32,
    /// Blackbox logging rate
    pub blackbox_rate: u32,
}

/// Field information from the header.
#[derive(Debug, Clone)]
pub struct FieldInfo {
    /// Field name
    pub name: String,
    /// Field index
    pub index: usize,
    /// Data type
    pub data_type: DataType,
    /// Encoding method
    pub encoding: EncodingType,
}

/// The decoded header. The PID and filter configuration of the header are
/// the defaults of the domain model and are not carried here.
#[derive(Debug, Clone)]
pub struct BlackboxHeader {
    /// Firmware name and version line
    pub firmware_info: String,
    /// Hardware target line
    pub hardware_info: String,
    /// Sample rate information
    pub rates: RateInfo,
    /// Field definitions
    pub fields: Vec<FieldInfo>,
}

/// The header a decoder builds from its lines.
pub struct HeaderView {
    /// The last `Firmware` line
    pub firmware: Seq<char>,
    /// The last `Board` line
    pub hardware: Seq<char>,
    /// The defined field names, in order
    pub field_names: Seq<Seq<char>>,
}

/// The header built from `lines`.
pub open spec fn header_from_lines(lines: Seq<Seq<char>>) -> HeaderView {
    HeaderView {
        firmware: last_starting(lines, "Firmware"@),
        hardware: last_starting(lines, "Board"@),
        field_names: header_field_names(lines),
    }
}

/// The rates every decoded header carries.
pub open spec fn default_rates() -> RateInfo {
    RateInfo { pid_rate: 8000, gyro_rate: 8000, blackbox_rate: 1000 }
}

impl View for BlackboxHeader {
    type V = HeaderView;

    /// The header's text content.
    open spec fn view(&self) -> HeaderView {
        HeaderView {
            firmware: self.firmware_info@,
            hardware: self.hardware_info@,
            field_names: self.fields@.map_values(|f: FieldInfo| f.name@),
        }
    }
}

impl BlackboxHeader {
    /// Every field is a signed integer with variable-byte encoding, index 0,
    /// and the rates are the defaults.
    pub open spec fn has_defaults(&self) -> bool {
        &&& self.rates == default_rates()
        &&& forall|i: int|
            0 <= i < self.fields@.len() ==> {
                let f = #[trigger] self.fields@[i];
                &&& f.index == 0
                &&& f.data_type == DataType::SignedInt
                &&& f.encoding == EncodingType::SignedVB
            }
    }

    /// A copy of the header.
    pub fn duplicate(&self) -> (res: Self)
        ensures
            res@ == self@,
            res.rates == self.rates,
            res.fields@.len() == self.fields@.len(),
            forall|i: int|
                0 <= i < self.fields@.len() ==> (#[trigger] res.fields@[i]).index
                    == self.fields@[i].index && res.fields@[i].data_type
                    == self.fields@[i].data_type && res.fields@[i].encoding
                    == self.fields@[i].encoding,
    {
        let mut fields: Vec<FieldInfo> = Vec::new();
        let mut i: usize = 0;
        while i < self.fields.len()
            invariant
                0 <= i <= self.fields@.len(),
                fields@.len() == i,
                forall|k: int|
                    0 <= k < i ==> (#[trigger] fields@[k]).name@ == self.fields@[k].name@
                        && fields@[k].index == self.fields@[k].index && fields@[k].data_type
                        == self.fields@[k].data_type && fields@[k].encoding
                        == self.fields@[k].encoding,
            decreases self.fields@.len() - i,
        {
            let f = &self.fields[i];
            fields.push(
                FieldInfo {
                    name: f.name.clone(),
                    index: f.index,
                    data_type: f.data_type,
                    encoding: f.encoding,
                },
            );
            i = i + 1;
        }
        let res = BlackboxHeader {
            firmware_info: self.firmware_info.clone(),
            hardware_info: self.hardware_info.clone(),
            rates: self.rates,
            fields,
        };
        assert(res@.field_names =~= self@.field_names);
        res
    }
}

fn bytes_start_with(data: &[u8], tag: &[u8]) -> (res: bool)
    ensures
        res == (data@.len() >= tag@.len() && data@.take(tag@.len() as int) == tag@),
{
    if data.len() < tag.len() {
        return false;
    }
    let mut i: usize = 0;
    while i < tag.len()
        invariant
            0 <= i <= tag@.len(),
            tag@.len() <= data@.len(),
            forall|k: int| 0 <= k < i ==> data@[k] == tag@[k],
        decreases tag@.len() - i,
    {
        if data[i] != tag[i] {
            assert(data@.take(tag@.len() as int)[i as int] != tag@[i as int]);
            return false;
        }
        i = i + 1;
    }
    assert(data@.take(tag@.len() as int) =~= tag@);
    true
}

/// Find where the header lines start.
fn header_start(data: &[u8]) -> (res: Result<usize, (usize, HeaderErrorKind)>)
    ensures
        match res {
            Ok(n) => header_start_spec(data@) == Ok::<int, (int, HeaderErrorKind)>(n as int),
            Err((o, k)) => header_start_spec(data@) == Err::<int, (int, HeaderErrorKind)>(
                (o as int, k),
            ),
        },
{
    let tag: [u8; 10] = [72, 32, 80, 114, 111, 100, 117, 99, 116, 58];
    assert(tag@ =~= product_tag());
    if bytes_start_with(data, &tag) {
        return Ok(10);
    }
    if data.len() >= 2 && data[0] == 72 && data[1] == 32 {
        match find_byte_from(data, 2, 10) {
            Some(j) => {
                proof {
                    lemma_find_byte(data@.skip(2), NEWLINE);
                }
                Ok(j + 3)
            },
            None => Err((2, HeaderErrorKind::TakeUntil)),
        }
    } else {
        Err((0, HeaderErrorKind::Tag))
    }
}

/// The views of lines of text.
pub open spec fn line_views(lines: Seq<Vec<char>>) -> Seq<Seq<char>> {
    lines.map_values(|l: Vec<char>| l@)
}

/// Collect the header lines from `start`; returns them and where they end.
fn collect_header_lines(data: &[u8], start: usize) -> (res: (Vec<Vec<char>>, usize))
    requires
        start <= data@.len(),
    ensures
        line_views(res.0@) == header_lines_spec(data@.skip(start as int)).0,
        res.1 == start + header_lines_spec(data@.skip(start as int)).1,
        res.1 <= data@.len(),
{
    let ghost whole = header_lines_spec(data@.skip(start as int));
    let dlen = data.len();
    let mut lines: Vec<Vec<char>> = Vec::new();
    let mut pos = start;
    loop
        invariant
            start <= pos <= data@.len(),
            dlen == data@.len(),
            whole == header_lines_spec(data@.skip(start as int)),
            line_views(lines@) + header_lines_spec(data@.skip(pos as int)).0 == whole.0,
            pos - start + header_lines_spec(data@.skip(pos as int)).1 == whole.1,
        ensures
            start <= pos <= data@.len(),
            line_views(lines@) == whole.0,
            pos - start == whole.1,
        decreases data@.len() - pos,
    {
        let ghost input = data@.skip(pos as int);
        if pos >= dlen || data[pos] != 72 {
            assert(line_views(lines@) + Seq::<Seq<char>>::empty() =~= line_views(lines@));
            break;
        }
        assert(input[0] == data@[pos as int]);
        if dlen - pos >= 2 && data[pos + 1] == 32 {
            assert(input[1] == data@[pos + 1]);
            assert(input.skip(2) =~= data@.skip(pos + 2));
            match find_byte_from(data, pos + 2, 10) {
                Some(j) => {
                    proof {
                        lemma_find_byte(input.skip(2), NEWLINE);
                    }
                    let text_bytes = vstd::slice::slice_subrange(data, pos + 2, pos + 2 + j);
                    assert(text_bytes@ =~= input.subrange(2, 2 + j));
                    let line = decode_text(text_bytes);
                    proof {
                        assert(input.skip(j + 3) =~= data@.skip(pos + j + 3));
                        assert(line_views(lines@.push(line)) =~= line_views(lines@).push(line@));
                        let rest = header_lines_spec(data@.skip(pos + j + 3)).0;
                        assert(line_views(lines@).push(line@) + rest =~= line_views(lines@) + (
                        seq![line@] + rest));
                    }
                    lines.push(line);
                    pos = pos + j + 3;
                    continue;
                },
                None => {},
            }
        }
        match find_byte_from(data, pos, 10) {
            Some(k) => {
                proof {
                    lemma_find_byte(input, NEWLINE);
                    assert(input.skip(k + 1) =~= data@.skip(pos + k + 1));
                }
                pos = pos + k + 1;
            },
            None => {
                assert(line_views(lines@) + Seq::<Seq<char>>::empty() =~= line_views(lines@));
                break;
            },
        }
    }
    (lines, pos)
}

fn field_definition_line(line: &Vec<char>) -> (res: bool)
    ensures
        res == (starts_with_spec(line@, "Field"@) && find_char_spec(line@, ':') is Some),
{
    let prefix = chars_of("Field");
    if !starts_with(line, &prefix) {
        return false;
    }
    match crate::text::find_char(line, ':') {
        Some(_) => true,
        None => false,
    }
}

fn definition_name_of(line: &Vec<char>) -> (res: Vec<char>)
    requires
        find_char_spec(line@, ':') is Some,
    ensures
        res@ == definition_name(line@),
{
    let n = line.len();
    let i = match crate::text::find_char(line, ':') {
        Some(i) => i,
        None => {
            return Vec::new();
        },
    };
    assert(i < n);
    let rest = crate::text::slice_chars(line, i + 1, n);
    assert(rest@ =~= line@.skip(i + 1));
    let seg = match crate::text::find_char(&rest, ':') {
        Some(j) => {
            assert(rest@.subrange(0, j as int) =~= rest@.take(j as int));
            crate::text::slice_chars(&rest, 0, j)
        },
        None => rest,
    };
    trim(&seg)
}

/// Build the header from its lines: the last `Firmware` and `Board` lines,
/// and the fields of the `Field` lines.
fn build_header_from_lines(lines: &Vec<Vec<char>>) -> (res: BlackboxHeader)
    ensures
        res@ == header_from_lines(line_views(lines@)),
        res.has_defaults(),
{
    let ghost ls = line_views(lines@);
    let mut firmware: Vec<char> = Vec::new();
    let mut hardware: Vec<char> = Vec::new();
    let mut fields: Vec<FieldInfo> = Vec::new();
    let fw = chars_of("Firmware");
    let board = chars_of("Board");
    let mut i: usize = 0;
    while i < lines.len()
        invariant
            0 <= i <= lines@.len(),
            ls == line_views(lines@),
            fw@ == "Firmware"@,
            board@ == "Board"@,
            firmware@ == last_starting(ls.take(i as int), "Firmware"@),
            hardware@ == last_starting(ls.take(i as int), "Board"@),
            fields@.map_values(|f: FieldInfo| f.name@) == header_field_names(ls.take(i as int)),
            forall|k: int|
                0 <= k < fields@.len() ==> {
                    let f = #[trigger] fields@[k];
                    &&& f.index == 0
                    &&& f.data_type == DataType::SignedInt
                    &&& f.encoding == EncodingType::SignedVB
                },
        decreases lines@.len() - i,
    {
        let line = &lines[i];
        proof {
            assert(ls.take(i + 1).drop_last() =~= ls.take(i as int));
            assert(ls.take(i + 1).last() == line@);
        }
        if starts_with(line, &fw) {
            firmware = crate::text::slice_chars(line, 0, line.len());
            assert(firmware@ =~= line@);
        } else if starts_with(line, &board) {
            hardware = crate::text::slice_chars(line, 0, line.len());
            assert(hardware@ =~= line@);
        } else if field_definition_line(line) {
            let name = definition_name_of(line);
            let ghost before = fields@;
            fields.push(
                FieldInfo {
                    name: string_of(&name),
                    index: 0,
                    data_type: DataType::SignedInt,
                    encoding: EncodingType::SignedVB,
                },
            );
            assert(fields@.map_values(|f: FieldInfo| f.name@) =~= before.map_values(
                |f: FieldInfo| f.name@,
            ).push(name@));
        }
        proof {
            let l = line@;
            reveal_strlit("Firmware");
            reveal_strlit("Board");
            reveal_strlit("Field");
            if starts_with_spec(l, "Firmware"@) {
                assert(l[0] == l.take(8)[0]);
                assert(l[2] == l.take(8)[2]);
                if starts_with_spec(l, "Board"@) {
                    assert(l[0] == l.take(5)[0]);
                }
                if starts_with_spec(l, "Field"@) {
                    assert(l[2] == l.take(5)[2]);
                }
            } else if starts_with_spec(l, "Board"@) {
                assert(l[0] == l.take(5)[0]);
                if starts_with_spec(l, "Field"@) {
                    assert(l[0] == l.take(5)[0]);
                }
            }
        }
        i = i + 1;
    }
    proof {
        assert(ls.take(lines@.len() as int) =~= ls);
    }
    BlackboxHeader {
        firmware_info: string_of(&firmware),
        hardware_info: string_of(&hardware),
        rates: RateInfo { pid_rate: 8000, gyro_rate: 8000, blackbox_rate: 1000 },
        fields,
    }
}

// ---------------------------------------------------------------------------
// Outside calls
// ---------------------------------------------------------------------------

/// What gzip decoding of a byte sequence yields: the decompressed bytes of
/// its first member, or nothing when the bytes are not valid gzip data.
pub uninterp spec fn gunzip_result(bytes: Seq<u8>) -> Option<Seq<u8>>;

/// `flate2::read::GzDecoder` read to the end: the decompressed bytes, or the
/// I/O error the decoder reports. The outcome depends on the input bytes
/// only, and is named rather than stated.
#[verifier::external_body]
fn gunzip(data: &[u8]) -> (res: Result<Vec<u8>, std::io::Error>)
    ensures
        match res {
            Ok(v) => gunzip_result(data@) == Some(v@),
            Err(_) => gunzip_result(data@) is None,
        },
{
    let mut decoder = flate2::read::GzDecoder::new(data);
    let mut out = Vec::new();
    match std::io::Read::read_to_end(&mut decoder, &mut out) {
        Ok(_) => Ok(out),
        Err(e) => Err(e),
    }
}

/// The text of a `nom` parse error at `input` of the given kind, as nom's
/// `Display` for `Err::Error` prints it.
pub uninterp spec fn nom_error_text(input: Seq<u8>, kind: HeaderErrorKind) -> Seq<char>;

/// `Display` of `nom::Err::Error(nom::error::Error::new(input, kind))`
/// (`Parsing Error: ` followed by the error's debug form). The debug form
/// of nom's error type is derived and not documented, so the text is named
/// rather than stated.
#[verifier::external_body]
fn nom_error_display(input: &[u8], kind: HeaderErrorKind) -> (res: String)
    ensures
        res@ == nom_error_text(input@, kind),
{
    let code = match kind {
        HeaderErrorKind::Tag => nom::error::ErrorKind::Tag,
        HeaderErrorKind::TakeUntil => nom::error::ErrorKind::TakeUntil,
    };
    let err: nom::Err<nom::error::Error<&[u8]>> = nom::Err::Error(
        nom::error::Error::new(input, code),
    );
    format!("{}", err)
}

// ---------------------------------------------------------------------------
// The decoder
// ---------------------------------------------------------------------------

/// Whether the bytes start with the gzip magic number.
pub open spec fn is_gzip(data: Seq<u8>) -> bool {
    data.len() >= 2 && data[0] == 0x1f && data[1] == 0x8b
}

/// The bytes the decoder reads: the decompressed data when the input is
/// gzip data, the input itself otherwise; none when decompression fails.
pub open spec fn decoded_input(data: Seq<u8>) -> Option<Seq<u8>> {
    if is_gzip(data) {
        gunzip_result(data)
    } else {
        Some(data)
    }
}

/// The frame layout of a header: its field names, signed variable-byte each.
pub open spec fn header_layout(names: Seq<Seq<char>>) -> Seq<(Seq<char>, EncodingType)> {
    names.map_values(|n: Seq<char>| (n, EncodingType::SignedVB))
}

/// Statistics collected during decoding.
#[derive(Debug, Clone, Copy, PartialEq, Eq, Structural)]
pub struct FrameStats {
    /// Total frames decoded
    pub total_frames: u64,
    /// Number of `I` frames
    pub i_frames: u64,
    /// Number of `P` frames
    pub p_frames: u64,
    /// Number of event frames
    pub event_frames: u64,
    /// Number of corrupted frames skipped
    pub corrupted_frames: u64,
    /// Total bytes processed
    pub bytes_processed: usize,
}

/// `a + b`, or the largest `u64` when that does not fit.
pub open spec fn sat_add(a: u64, b: nat) -> u64 {
    if a + b > u64::MAX {
        u64::MAX
    } else {
        (a + b) as u64
    }
}

/// Whether `t` is the event type an event line names: an arming when the
/// text contains `ARMED`, a disarming when it contains `DISARMED` (which
/// contains `ARMED`, so this never decides), a custom event otherwise.
pub open spec fn is_event_type_of(t: FlightEventType, text: Seq<char>) -> bool {
    if contains_spec(text, "ARMED"@) {
        t is Armed
    } else if contains_spec(text, "DISARMED"@) {
        t is Disarmed
    } else {
        t matches FlightEventType::Custom(s) && s@ == text
    }
}

/// Byte-level blackbox decoder. Decoding state (the last value of every
/// field name, the decoded frames and the statistics) carries over from one
/// decoded log to the next.
#[derive(Debug)]
pub struct BlackboxParser {
    previous_values: NamedValues,
    header: Option<BlackboxHeader>,
    field_defs: Vec<FieldDefinition>,
    frames: Vec<DataFrame>,
    stats: FrameStats,
}

impl BlackboxParser {
    /// The last value of every field name.
    pub closed spec fn previous(&self) -> Map<Seq<char>, i32> {
        self.previous_values@
    }

    /// The decoded header, if a header was decoded.
    pub closed spec fn header_spec(&self) -> Option<BlackboxHeader> {
        self.header
    }

    /// The frame layout in use.
    pub closed spec fn layout(&self) -> Seq<(Seq<char>, EncodingType)> {
        layout_view(self.field_defs@)
    }

    /// All decoded frames, as values.
    pub closed spec fn frames_view(&self) -> Seq<FrameView> {
        frame_views(self.frames@)
    }

    /// The statistics.
    pub closed spec fn stats_spec(&self) -> FrameStats {
        self.stats
    }

    /// A decoder with no state.
    pub fn new() -> (res: Self)
        ensures
            res.previous() == Map::<Seq<char>, i32>::empty(),
            res.header_spec() is None,
            res.layout().len() == 0,
            res.frames_view().len() == 0,
            res.stats_spec() == (FrameStats {
                total_frames: 0,
                i_frames: 0,
                p_frames: 0,
                event_frames: 0,
                corrupted_frames: 0,
                bytes_processed: 0,
            }),
    {
        let res = BlackboxParser {
            previous_values: NamedValues::new(),
            header: None,
            field_defs: Vec::new(),
            frames: Vec::new(),
            stats: FrameStats {
                total_frames: 0,
                i_frames: 0,
                p_frames: 0,
                event_frames: 0,
                corrupted_frames: 0,
                bytes_processed: 0,
            },
        };
        assert(res.layout() =~= Seq::<(Seq<char>, EncodingType)>::empty());
        assert(res.frames_view() =~= Seq::<FrameView>::empty());
        res
    }

    /// Parsing statistics.
    pub fn stats(&self) -> (res: &FrameStats)
        ensures
            *res == self.stats_spec(),
    {
        &self.stats
    }

    /// The decoded header, if any.
    pub fn header(&self) -> (res: &Option<BlackboxHeader>)
        ensures
            *res == self.header_spec(),
    {
        &self.header
    }

    /// The decoded frames.
    pub fn frames(&self) -> (res: &Vec<DataFrame>)
        ensures
            frame_views(res@) == self.frames_view(),
    {
        &self.frames
    }

    /// Decode a signed variable-byte value: bytes consumed and value.
    pub fn parse_signed_vb(&self, input: &[u8]) -> (res: Option<(usize, i32)>)
        ensures
            match res {
                Some((n, v)) => signed_vb_spec(input@) == Some((n as int, v)),
                None => signed_vb_spec(input@) is None,
            },
    {
        read_signed_vb(input)
    }

    /// Decode an unsigned variable-byte value: bytes consumed and value.
    pub fn parse_unsigned_vb(&self, input: &[u8]) -> (res: Option<(usize, u32)>)
        ensures
            match res {
                Some((n, v)) => unsigned_vb_spec(input@) == Some((n as int, v)),
                None => unsigned_vb_spec(input@) is None,
            },
    {
        read_unsigned_vb(input)
    }

    /// Every decoding error is recovered from by skipping to the next frame.
    pub fn is_recoverable_error(&self) -> (res: bool)
        ensures
            res,
    {
        true
    }

    /// Where the next frame starts after an undecodable one: at the next
    /// frame marker after the first byte, or at the end.
    pub fn skip_to_next_frame(&self, input: &[u8]) -> (res: usize)
        ensures
            res == skip_len(input@),
    {
        let n = input.len();
        if n == 0 {
            return 0;
        }
        let found = first_marker_from(input, 1);
        proof {
            lemma_first_marker(input@.skip(1));
        }
        match found {
            Some(k) => {
                assert(k < n);
                k + 1
            },
            None => n,
        }
    }

    /// Decode the frame at the start of `input` with the current layout:
    /// bytes consumed and frame, or none when it cannot be decoded. The
    /// frame kind's counter goes up either way, and the last-value table
    /// keeps the fields decoded before a failure.
    pub fn parse_frame(&mut self, input: &[u8]) -> (res: Option<(usize, DataFrame)>)
        ensures
            ({
                let (r, m) = frame_spec(old(self).layout(), input@, old(self).previous());
                &&& final(self).previous() == m
                &&& match res {
                    Some((n, f)) => r == Some((n as int, f@)),
                    None => r is None,
                }
            }),
            final(self).layout() == old(self).layout(),
            final(self).frames_view() == old(self).frames_view(),
            final(self).header_spec() == old(self).header_spec(),
            input@.len() == 0 ==> final(self).stats_spec() == old(self).stats_spec(),
            input@.len() > 0 ==> ({
                let (ci, cp, ce) = marker_counts(input@[0]);
                let o = old(self).stats_spec();
                final(self).stats_spec() == FrameStats {
                    i_frames: sat_add(o.i_frames, ci),
                    p_frames: sat_add(o.p_frames, cp),
                    event_frames: sat_add(o.event_frames, ce),
                    ..o
                }
            }),
    {
        if input.len() == 0 {
            return None;
        }
        let b = input[0];
        if b == 73 {
            self.stats.i_frames = self.stats.i_frames.saturating_add(1);
        } else if b == 80 {
            self.stats.p_frames = self.stats.p_frames.saturating_add(1);
        } else if b == 69 {
            self.stats.event_frames = self.stats.event_frames.saturating_add(1);
        }
        assert(input@.skip(0) =~= input@);
        decode_frame(&self.field_defs, input, 0, &mut self.previous_values)
    }

    /// Whether the data is gzip-compressed (starts with the gzip magic number).
    pub fn is_compressed(&self, data: &[u8]) -> (res: Result<bool, DronetunerError>)
        ensures
            res matches Ok(b) && b == is_gzip(data@),
    {
        if data.len() < 2 {
            return Ok(false);
        }
        Ok(data[0] == 0x1f && data[1] == 0x8b)
    }

    /// Decompress gzip data; a failure is a parse error whose message starts
    /// with `Decompression failed: ` and goes on with the decoder's error.
    pub fn decompress(&self, data: &[u8]) -> (res: Result<Vec<u8>, DronetunerError>)
        ensures
            match res {
                Ok(v) => gunzip_result(data@) == Some(v@),
                Err(e) => gunzip_result(data@) is None && (e matches DronetunerError::ParseError {
                    message,
                    position,
                } && position is None && starts_with_spec(message@, "Decompression failed: "@)),
            },
    {
        match gunzip(data) {
            Ok(v) => Ok(v),
            Err(e) => {
                let text = e.to_string();
                let prefix = chars_of("Decompression failed: ");
                let m = concat(&prefix, &chars_of(text.as_str()));
                assert(m@.take(prefix@.len() as int) =~= prefix@);
                Err(DronetunerError::parse_error(string_of(&m), None))
            },
        }
    }

    /// Decode the header at the start of `data`: where the frames start and
    /// the header, or where and why the header start was not recognized.
    pub fn parse_header(&self, data: &[u8]) -> (res: Result<
        (usize, BlackboxHeader),
        (usize, HeaderErrorKind),
    >)
        ensures
            match header_start_spec(data@) {
                Ok(s) => {
                    let (ls, c) = header_lines_spec(data@.skip(s));
                    res matches Ok((n, h)) && n == s + c && n <= data@.len() && h@
                        == header_from_lines(ls) && h.has_defaults()
                },
                Err((o, k)) => res == Err::<(usize, BlackboxHeader), (usize, HeaderErrorKind)>(
                    (o as usize, k),
                ),
            },
    {
        match header_start(data) {
            Ok(s) => {
                proof {
                    lemma_find_byte(data@.skip(2), NEWLINE);
                }
                let (lines, end) = collect_header_lines(data, s);
                let header = build_header_from_lines(&lines);
                Ok((end, header))
            },
            Err((o, k)) => Err((o, k)),
        }
    }

    /// The frame layout of a header: its fields in order, by index.
    pub fn extract_field_definitions(&self, header: &BlackboxHeader) -> (res: Vec<FieldDefinition>)
        ensures
            res@.len() == header.fields@.len(),
            forall|i: int|
                0 <= i < res@.len() ==> (#[trigger] res@[i]).name@ == header.fields@[i].name@
                    && res@[i].index == i && res@[i].encoding == header.fields@[i].encoding,
    {
        let mut defs: Vec<FieldDefinition> = Vec::new();
        let mut i: usize = 0;
        while i < header.fields.len()
            invariant
                0 <= i <= header.fields@.len(),
                defs@.len() == i,
                forall|k: int|
                    0 <= k < i ==> (#[trigger] defs@[k]).name@ == header.fields@[k].name@
                        && defs@[k].index == k && defs@[k].encoding
                        == header.fields@[k].encoding,
            decreases header.fields@.len() - i,
        {
            let f = &header.fields[i];
            defs.push(FieldDefinition { name: f.name.clone(), index: i, encoding: f.encoding });
            i = i + 1;
        }
        defs
    }

    /// Decode a log: decompress it when it is gzip data, decode the header,
    /// then decode every frame after it, skipping undecodable ones.
    ///
    /// Fails when decompression fails, when the header start is not
    /// recognized (`Header parsing failed: ` and nom's error text), and when
    /// the header defines no field. On success the decoded frames are
    /// appended to the decoder's frames and the header is returned.
    pub fn parse_file(&mut self, data: &[u8]) -> (res: Result<BlackboxHeader, DronetunerError>)
        ensures
            match decoded_input(data@) {
                None => {
                    &&& res matches Err(DronetunerError::ParseError { message, position })
                    &&& position is None
                    &&& starts_with_spec(message@, "Decompression failed: "@)
                    &&& final(self).stats_spec() == old(self).stats_spec()
                    &&& final(self).header_spec() == old(self).header_spec()
                    &&& final(self).layout() == old(self).layout()
                    &&& final(self).frames_view() == old(self).frames_view()
                    &&& final(self).previous() == old(self).previous()
                },
                Some(bytes) => {
                    &&& final(self).stats_spec().bytes_processed == bytes.len()
                    &&& match header_start_spec(bytes) {
                        Err((o, k)) => {
                            &&& res matches Err(e) && crate::error::is_parse_error(
                                e,
                                "Header parsing failed: "@ + nom_error_text(bytes.skip(o), k),
                                None,
                            )
                            &&& final(self).header_spec() == old(self).header_spec()
                            &&& final(self).layout() == old(self).layout()
                            &&& final(self).frames_view() == old(self).frames_view()
                            &&& final(self).previous() == old(self).previous()
                        },
                        Ok(s) => {
                            let (ls, c) = header_lines_spec(bytes.skip(s));
                            let hv = header_from_lines(ls);
                            &&& final(self).header_spec() matches Some(h) && h@ == hv && h.has_defaults()
                            &&& final(self).layout() == header_layout(hv.field_names)
                            &&& if hv.field_names.len() == 0 {
                                &&& res matches Err(e) && crate::error::is_parse_error(
                                    e,
                                    "No field definitions found in header - cannot parse frames"@,
                                    None,
                                )
                                &&& final(self).frames_view() == old(self).frames_view()
                                &&& final(self).previous() == old(self).previous()
                            } else {
                                let t = scan_frames(
                                    header_layout(hv.field_names),
                                    bytes.skip(s + c),
                                    old(self).previous(),
                                );
                                &&& res matches Ok(h) && h@ == hv && h.has_defaults()
                                &&& final(self).frames_view() == old(self).frames_view()
                                    + t.frames
                                &&& final(self).previous() == t.prev
                                &&& final(self).stats_spec().total_frames == sat_add(
                                    old(self).stats_spec().total_frames,
                                    t.frames.len(),
                                )
                                &&& final(self).stats_spec().i_frames == sat_add(
                                    old(self).stats_spec().i_frames,
                                    t.i_frames,
                                )
                                &&& final(self).stats_spec().p_frames == sat_add(
                                    old(self).stats_spec().p_frames,
                                    t.p_frames,
                                )
                                &&& final(self).stats_spec().event_frames == sat_add(
                                    old(self).stats_spec().event_frames,
                                    t.event_frames,
                                )
                                &&& final(self).stats_spec().corrupted_frames == sat_add(
                                    old(self).stats_spec().corrupted_frames,
                                    t.corrupted,
                                )
                            }
                        },
                    }
                },
            },
    {
        let compressed = match self.is_compressed(data) {
            Ok(b) => b,
            Err(e) => {
                return Err(e);
            },
        };
        let decoded: Vec<u8> = if compressed {
            match self.decompress(data) {
                Ok(v) => v,
                Err(e) => {
                    return Err(e);
                },
            }
        } else {
            vstd::slice::slice_to_vec(data)
        };
        self.stats.bytes_processed = decoded.len();
        let (start, header) = match self.parse_header(&decoded) {
            Ok(r) => r,
            Err((o, k)) => {
                let rest = vstd::slice::slice_subrange(decoded.as_slice(), o, decoded.len());
                assert(rest@ =~= decoded@.skip(o as int));
                let text = nom_error_display(rest, k);
                let m = concat(&chars_of("Header parsing failed: "), &chars_of(text.as_str()));
                return Err(DronetunerError::parse_error(string_of(&m), None));
            },
        };
        self.header = Some(header.duplicate());
        proof {
            assert(self.header_spec().unwrap().has_defaults());
        }
        self.field_defs = self.extract_field_definitions(&header);
        proof {
            assert(self.layout() =~= header_layout(header@.field_names));
        }
        if self.field_defs.len() == 0 {
            return Err(
                DronetunerError::parse_error(
                    "No field definitions found in header - cannot parse frames".to_string(),
                    None,
                ),
            );
        }
        let (mut new_frames, counts) = decode_frames(
            &self.field_defs,
            decoded.as_slice(),
            start,
            &mut self.previous_values,
        );
        let ghost old_frames = self.frames_view();
        let ghost added = frame_views(new_frames@);
        let n_new = new_frames.len();
        let ghost old_vec = self.frames@;
        let ghost new_vec = new_frames@;
        self.frames.append(&mut new_frames);
        assert(self.frames@ =~= old_vec + new_vec);
        assert(self.frames_view() =~= old_frames + added);
        self.stats.total_frames = self.stats.total_frames.saturating_add(n_new as u64);
        self.stats.i_frames = self.stats.i_frames.saturating_add(counts.i_frames as u64);
        self.stats.p_frames = self.stats.p_frames.saturating_add(counts.p_frames as u64);
        self.stats.event_frames = self.stats.event_frames.saturating_add(
            counts.event_frames as u64,
        );
        self.stats.corrupted_frames = self.stats.corrupted_frames.saturating_add(
            counts.corrupted as u64,
        );
        Ok(header)
    }

    /// Flight events of the decoded event frames, in order: an event whose
    /// text contains `ARMED` is an arming (so is a disarming, whose text
    /// contains `ARMED` too), any other text is a custom event; every event
    /// has time 0 and the frame's (empty) data.
    pub fn build_flight_events(&self) -> (res: Vec<FlightEvent>)
        ensures
            res@.len() == event_texts(self.frames_view()).len(),
            forall|i: int|
                0 <= i < res@.len() ==> {
                    let ev = #[trigger] res@[i];
                    &&& ev.timestamp_ms == 0
                    &&& is_event_type_of(ev.event_type, event_texts(self.frames_view())[i])
                    &&& ev.data is Some
                },
    {
        let mut events: Vec<FlightEvent> = Vec::new();
        let mut i: usize = 0;
        let armed = chars_of("ARMED");
        let disarmed = chars_of("DISARMED");
        while i < self.frames.len()
            invariant
                0 <= i <= self.frames@.len(),
                armed@ == "ARMED"@,
                disarmed@ == "DISARMED"@,
                events@.len() == event_texts(frame_views(self.frames@.take(i as int))).len(),
                forall|k: int|
                    0 <= k < events@.len() ==> {
                        let ev = #[trigger] events@[k];
                        &&& ev.timestamp_ms == 0
                        &&& is_event_type_of(
                            ev.event_type,
                            event_texts(frame_views(self.frames@.take(i as int)))[k],
                        )
                        &&& ev.data is Some
                    },
            decreases self.frames@.len() - i,
        {
            let ghost fv_i = frame_views(self.frames@.take(i as int));
            let ghost fv_next = frame_views(self.frames@.take(i + 1));
            let ghost texts_i = event_texts(fv_i);
            proof {
                assert(fv_next =~= fv_i.push(self.frames@[i as int]@));
                assert(fv_next.drop_last() =~= fv_i);
                assert(fv_next.last() == self.frames@[i as int]@);
            }
            match &self.frames[i] {
                DataFrame::Event(text, data) => {
                    let t = chars_of(text.as_str());
                    let event_type = if contains(&t, &armed) {
                        FlightEventType::Armed
                    } else if contains(&t, &disarmed) {
                        FlightEventType::Disarmed
                    } else {
                        FlightEventType::Custom(text.clone())
                    };
                    let ghost before = events@;
                    events.push(
                        FlightEvent { timestamp_ms: 0, event_type, data: Some(data.clone()) },
                    );
                    proof {
                        assert(event_texts(fv_next) == texts_i.push(text@));
                        assert forall|k: int| 0 <= k < events@.len() implies {
                            let ev = #[trigger] events@[k];
                            &&& ev.timestamp_ms == 0
                            &&& is_event_type_of(ev.event_type, event_texts(fv_next)[k])
                            &&& ev.data is Some
                        } by {
                            if k < before.len() {
                                assert(events@[k] == before[k]);
                                assert(event_texts(fv_next)[k] == texts_i[k]);
                            }
                        }
                    }
                },
                _ => {
                    proof {
                        assert(event_texts(fv_next) == texts_i);
                    }
                },
            }
            i = i + 1;
        }
        proof {
            assert(self.frames@.take(self.frames@.len() as int) =~= self.frames@);
        }
        events
    }
}

/// The texts of the event frames, in order.
pub open spec fn event_texts(frames: Seq<FrameView>) -> Seq<Seq<char>>
    decreases frames.len(),
{
    if frames.len() == 0 {
        Seq::empty()
    } else {
        let rest = event_texts(frames.drop_last());
        match frames.last() {
            FrameView::Event(t, _) => rest.push(t),
            _ => rest,
        }
    }
}

/// Variable-byte values round-trip: a value below 128 is its own single
/// byte; any value below 16384 written as its low seven bits with the high
/// bit set, then its high seven bits, reads back as that value, signed or
/// unsigned; bytes after the value are not read.
pub proof fn lemma_vb_round_trip(v: u32, rest: Seq<u8>)
    requires
        v < 16384,
    ensures
        v < 128 ==> unsigned_vb_spec(seq![v as u8] + rest) == Some((1int, v)),
        unsigned_vb_spec(seq![(v % 128 + 128) as u8, (v / 128) as u8] + rest) == Some((2int, v)),
        signed_vb_spec(seq![(v % 128 + 128) as u8, (v / 128) as u8] + rest) == Some((2int, v as i32)),
{
    let lo = (v % 128 + 128) as u8;
    let hi = (v / 128) as u8;
    assert(v == (v % 128) + (v / 128) * 128 && v / 128 < 128) by (nonlinear_arith)
        requires
            v < 16384,
    ;
    let s2 = seq![lo, hi] + rest;
    assert(s2[0] == lo && s2[1] == hi);
    assert(hi % 128 == hi);
    if v < 128 {
        let s1 = seq![v as u8] + rest;
        assert(s1[0] == v as u8);
    }
}

/// A single byte below 0x80 holds a value of magnitude below 64: bit 6 set
/// makes it negative.
pub proof fn lemma_signed_vb_single_byte(b: u8)
    requires
        b < 128,
    ensures
        signed_vb_spec(seq![b]) == Some((
            1int,
            (if b < 64 {
                b as int
            } else {
                -((b - 64) as int)
            }) as i32,
        )),
{
}

/// One field decoded from a single byte `b` below 0x80, whose value is
/// `d` (`b`, or minus `b - 64` when bit 6 is set): an `I` frame reads `d`
/// and records it as the field's last value; a `P` frame reads `d` as a
/// delta, adds it to the field's last value (0 when there is none) and
/// records the sum. Both consume exactly that byte.
pub proof fn lemma_single_field_frames(
    name: Seq<char>,
    b: u8,
    rest: Seq<u8>,
    prev: Map<Seq<char>, i32>,
)
    requires
        b < 128,
    ensures
        ({
            let d: i32 = (if b < 64 {
                b as int
            } else {
                -((b - 64) as int)
            }) as i32;
            let layout = seq![(name, EncodingType::SignedVB)];
            let input = seq![b] + rest;
            let last: i32 = if prev.contains_key(name) {
                prev[name]
            } else {
                0
            };
            &&& i_body(layout, input, prev) == (true, 1int, seq![d], prev.insert(name, d))
            &&& p_body(layout, input, prev).0
            &&& p_body(layout, input, prev).1 == 1
            &&& p_body(layout, input, prev).2 == seq![wrapping_add_i32(last, d)]
            &&& p_body(layout, input, prev).3 == prev.insert(name, wrapping_add_i32(last, d))
            &&& (-64 <= last + d <= 64 ==> wrapping_add_i32(last, d) == last + d)
        }),
{
    let layout = seq![(name, EncodingType::SignedVB)];
    let input = seq![b] + rest;
    let d: i32 = (if b < 64 {
        b as int
    } else {
        -((b - 64) as int)
    }) as i32;
    let e = Seq::<(Seq<char>, EncodingType)>::empty();
    assert(layout.drop_last() =~= e);
    assert(layout.last() == (name, EncodingType::SignedVB));
    assert(input.skip(0) =~= input);
    assert(input[0] == b);
    assert(signed_vb_spec(input) == Some((1int, d)));
    assert(i_body(e, input, prev) == (true, 0int, Seq::<i32>::empty(), prev));
    assert(p_body(e, input, prev) == (true, 0int, Seq::<i32>::empty(), prev));
    assert(field_value_spec(EncodingType::SignedVB, input.skip(0)) == Some((1int, d)));
    assert(Seq::<i32>::empty().push(d) =~= seq![d]);
    let last: i32 = if prev.contains_key(name) {
        prev[name]
    } else {
        0
    };
    assert(previous_of(prev, name) == last);
    assert(Seq::<i32>::empty().push(wrapping_add_i32(last, d)) =~= seq![wrapping_add_i32(last, d)]);
}

/// A `P` frame whose deltas are all zero repeats the last value of every
/// field and leaves every last value as it was.
pub proof fn lemma_zero_deltas_keep_values(
    layout: Seq<(Seq<char>, EncodingType)>,
    input: Seq<u8>,
    prev: Map<Seq<char>, i32>,
)
    requires
        input.len() >= layout.len(),
        forall|i: int| 0 <= i < layout.len() ==> input[i] == 0,
    ensures
        p_body(layout, input, prev).0,
        p_body(layout, input, prev).1 == layout.len(),
        p_body(layout, input, prev).2.len() == layout.len(),
        forall|i: int|
            0 <= i < layout.len() ==> (#[trigger] p_body(layout, input, prev).2[i]) == previous_of(
                prev,
                layout[i].0,
            ),
        forall|n: Seq<char>|
            #[trigger] previous_of(p_body(layout, input, prev).3, n) == previous_of(prev, n),
    decreases layout.len(),
{
    if layout.len() > 0 {
        let d = layout.drop_last();
        lemma_zero_deltas_keep_values(d, input, prev);
        let (ok, c, vs, m) = p_body(d, input, prev);
        let name = layout.last().0;
        assert(input.skip(c)[0] == input[c]);
        let v = wrapping_add_i32(previous_of(m, name), 0);
        assert(v == previous_of(m, name));
        assert forall|i: int| 0 <= i < layout.len() implies (#[trigger] p_body(
            layout,
            input,
            prev,
        ).2[i]) == previous_of(prev, layout[i].0) by {
            if i < d.len() {
                assert(layout[i] == d[i]);
            }
        }
        assert forall|n: Seq<char>|
            #[trigger] previous_of(p_body(layout, input, prev).3, n) == previous_of(prev, n) by {
            assert(previous_of(m, n) == previous_of(prev, n));
        }
    }
}

} // verus!
