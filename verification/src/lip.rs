//! Decode-only support for Skyrim FaceFX `.lip` files.
//!
//! A `.lip` file is a 24-byte header followed, possibly after a few stray
//! bytes, by a run-length encoded stream of `f32` curve values. The values
//! fill rows of [`SLOTS_PER_FRAME`] curve slots, one row per frame, so that the
//! last value lands just before slot [`PHONEME_SLOT_BASE`] of the last row.
//! Every `f32` is held as its IEEE-754 bit pattern.

use vstd::prelude::*;
use vstd::slice::slice_subrange;
use crate::le::{u16_le, u32_le, i32_le, u16_at, u32_at, i32_at};

verus! {

/// Curve slots in one frame row.
pub const SLOTS_PER_FRAME: usize = 33;

/// Slot of the first FaceGen viseme curve in a row.
pub const PHONEME_SLOT_BASE: usize = 6;

/// Number of FaceGen viseme curves, which follow [`PHONEME_SLOT_BASE`].
pub const VISEME_COUNT: usize = 16;

/// Frames per second of the curves.
pub const FPS: u32 = 30;

/// Size of the fixed `.lip` header.
pub const HEADER_SIZE: usize = 24;

/// Stray bytes that may stand between the header and the curve stream.
pub const MAX_EXTRA_HEADER_BYTES: usize = 8;

/// Largest decoded curve stream accepted, in bytes.
pub const MAX_DECODED_BYTES: usize = 16777216;

/// Value of `const20` in a header whose `first` field is a reliable pre-roll.
pub const TIMING_MARKER: u16 = 16;

/// Earliest pre-roll offset, in frames, that counts as reliable.
pub const EARLIEST_FIRST: i32 = -120;

/// The fixed `.lip` header.
#[derive(Debug, Clone, Copy, PartialEq, Eq, Structural)]
pub struct LipHeader {
    pub version: u32,
    pub gridsize: u32,
    pub num_curves: u32,
    pub frames: u16,
    pub const14: u16,
    pub first: i32,
    pub const20: u16,
    pub u22: u16,
}

/// Why a `.lip` file could not be decoded.
#[derive(Debug, Clone, Copy, PartialEq, Eq, Structural)]
pub enum LipError {
    /// The file is shorter than the header.
    TooShort,
    /// A header field lies past the end of the bytes.
    TruncatedHeader,
    /// A zero-run packet lacks its two count bytes.
    TruncatedZeroRun,
    /// A zero-run packet has a count of zero.
    EmptyZeroRun,
    /// The decoded stream would exceed [`MAX_DECODED_BYTES`].
    PayloadTooLarge,
    /// No payload offset gives plausible values.
    NoPlausiblePayload,
}

/// A decoded `.lip` file.
#[derive(Debug, Clone)]
pub struct LipFile {
    pub header: LipHeader,
    /// Rows of all [`SLOTS_PER_FRAME`] curve slots, as `f32` bit patterns.
    pub grid: Vec<[u32; SLOTS_PER_FRAME]>,
    /// Reliable pre-roll offset in frames, if the header provides one.
    pub timing_first: Option<i32>,
    /// Offset of the run-length encoded stream in the file.
    pub payload_offset: usize,
    /// Number of `f32` values the decoded stream holds.
    pub payload_float_count: usize,
}

// ---------------------------------------------------------------------------
// Header

/// The header stored in the first [`HEADER_SIZE`] bytes of `s`.
pub open spec fn header_of(s: Seq<u8>) -> LipHeader {
    LipHeader {
        version: u32_le(s, 0) as u32,
        gridsize: u32_le(s, 4) as u32,
        num_curves: u32_le(s, 8) as u32,
        frames: u16_le(s, 12) as u16,
        const14: u16_le(s, 14) as u16,
        first: i32_le(s, 16) as i32,
        const20: u16_le(s, 20) as u16,
        u22: u16_le(s, 22) as u16,
    }
}

/// Reads the header at the start of `data`.
pub fn parse_header(data: &[u8]) -> (r: Result<LipHeader, LipError>)
    ensures
        r is Ok <==> data@.len() >= HEADER_SIZE,
        r matches Ok(h) ==> h == header_of(data@),
        r matches Err(e) ==> e == LipError::TruncatedHeader,
{
    let version = match u32_at(data, 0) {
        Some(v) => v,
        None => return Err(LipError::TruncatedHeader),
    };
    let gridsize = match u32_at(data, 4) {
        Some(v) => v,
        None => return Err(LipError::TruncatedHeader),
    };
    let num_curves = match u32_at(data, 8) {
        Some(v) => v,
        None => return Err(LipError::TruncatedHeader),
    };
    let frames = match u16_at(data, 12) {
        Some(v) => v,
        None => return Err(LipError::TruncatedHeader),
    };
    let const14 = match u16_at(data, 14) {
        Some(v) => v,
        None => return Err(LipError::TruncatedHeader),
    };
    let first = match i32_at(data, 16) {
        Some(v) => v,
        None => return Err(LipError::TruncatedHeader),
    };
    let const20 = match u16_at(data, 20) {
        Some(v) => v,
        None => return Err(LipError::TruncatedHeader),
    };
    let u22 = match u16_at(data, 22) {
        Some(v) => v,
        None => return Err(LipError::TruncatedHeader),
    };
    Ok(LipHeader { version, gridsize, num_curves, frames, const14, first, const20, u22 })
}


// ---------------------------------------------------------------------------
// Run-length decoding

/// Run-length decoding of `p` from position `i` on, after `acc` has been
/// produced: a `0` byte starts a zero-run packet whose next two bytes give, in
/// little-endian order, a nonzero count of zero bytes to emit; any other byte
/// is emitted as is. The output may not grow past [`MAX_DECODED_BYTES`].
pub open spec fn unrle_from(p: Seq<u8>, i: int, acc: Seq<u8>) -> Result<Seq<u8>, LipError>
    decreases p.len() - i,
{
    if i < 0 || i >= p.len() {
        Ok(acc)
    } else if p[i] == 0 {
        if i + 2 >= p.len() {
            Err(LipError::TruncatedZeroRun)
        } else {
            let count = u16_le(p, i + 1);
            if count == 0 {
                Err(LipError::EmptyZeroRun)
            } else if acc.len() + count > MAX_DECODED_BYTES {
                Err(LipError::PayloadTooLarge)
            } else {
                unrle_from(p, i + 3, acc + Seq::new(count as nat, |_j: int| 0u8))
            }
        }
    } else if acc.len() >= MAX_DECODED_BYTES {
        Err(LipError::PayloadTooLarge)
    } else {
        unrle_from(p, i + 1, acc.push(p[i]))
    }
}

/// Run-length decoding of a whole payload.
pub open spec fn unrle_spec(p: Seq<u8>) -> Result<Seq<u8>, LipError> {
    unrle_from(p, 0, Seq::empty())
}

/// Decodes the run-length encoded `payload`.
pub fn unrle(payload: &[u8]) -> (r: Result<Vec<u8>, LipError>)
    ensures
        r matches Ok(out) ==> unrle_spec(payload@) == Ok::<Seq<u8>, LipError>(out@)
            && out@.len() <= MAX_DECODED_BYTES,
        r matches Err(e) ==> unrle_spec(payload@) == Err::<Seq<u8>, LipError>(e),
{
    let mut output: Vec<u8> = Vec::new();
    let mut index: usize = 0;
    while index < payload.len()
        invariant
            index <= payload@.len(),
            output@.len() <= MAX_DECODED_BYTES,
            unrle_from(payload@, index as int, output@) == unrle_spec(payload@),
        decreases payload@.len() - index,
    {
        if payload[index] == 0 {
            if payload.len() - index <= 2 {
                return Err(LipError::TruncatedZeroRun);
            }
            let count: usize = payload[index + 1] as usize + 256 * (payload[index + 2] as usize);
            if count == 0 {
                return Err(LipError::EmptyZeroRun);
            }
            if output.len() + count > MAX_DECODED_BYTES {
                return Err(LipError::PayloadTooLarge);
            }
            let ghost before = output@;
            output.resize(output.len() + count, 0u8);
            assert(output@ =~= before + Seq::new(count as nat, |_j: int| 0u8));
            index += 3;
        } else {
            if output.len() >= MAX_DECODED_BYTES {
                return Err(LipError::PayloadTooLarge);
            }
            output.push(payload[index]);
            index += 1;
        }
    }
    Ok(output)
}


// ---------------------------------------------------------------------------
// Candidate payload offsets

/// Whether the `f32` with bit pattern `bits` lies in `[-2.0, 2.0]`. Apart from
/// the sign bit, the bit patterns of non-negative floats are ordered like the
/// floats, `2.0` is `0x4000_0000`, and every NaN lies above the infinities.
pub open spec fn plausible(bits: u32) -> bool {
    bits % 0x8000_0000 <= 0x4000_0000
}

/// The little-endian 32-bit words of `raw`, four bytes each.
pub open spec fn words_of(raw: Seq<u8>) -> Seq<u32> {
    Seq::new(raw.len() / 4, |k: int| u32_le(raw, 4 * k) as u32)
}

/// The curve values of the stream that starts `extra` bytes past the header:
/// present when the stream decodes, to a nonzero whole number of words, all of
/// them plausible.
pub open spec fn payload_words(data: Seq<u8>, extra: int) -> Option<Seq<u32>> {
    let offset = HEADER_SIZE + extra;
    if offset > data.len() {
        None
    } else {
        match unrle_spec(data.subrange(offset, data.len() as int)) {
            Ok(raw) => if raw.len() > 0 && raw.len() % 4 == 0 && (forall|k: int|
                0 <= k < words_of(raw).len() ==> #[trigger] plausible(words_of(raw)[k])) {
                Some(words_of(raw))
            } else {
                None
            },
            Err(_) => None,
        }
    }
}

/// Slot of the first of `count` values, chosen so that the slot after the last
/// value is [`PHONEME_SLOT_BASE`] of a row.
pub open spec fn first_slot(count: int) -> int {
    (PHONEME_SLOT_BASE + SLOTS_PER_FRAME - count % SLOTS_PER_FRAME as int) % SLOTS_PER_FRAME as int
}

/// Rows that `count` values starting at [`first_slot`] occupy.
pub open spec fn row_count(count: int) -> int {
    (first_slot(count) + count + SLOTS_PER_FRAME - 1) / SLOTS_PER_FRAME as int
}

/// How far the rows of `count` values are from the `frames` the header
/// declares.
pub open spec fn frame_distance(count: int, frames: int) -> int {
    let rows = row_count(count);
    if rows >= frames {
        rows - frames
    } else {
        frames - rows
    }
}

/// [`frame_distance`] of the stream `extra` bytes past the header.
pub open spec fn candidate_distance(data: Seq<u8>, extra: int) -> int {
    frame_distance(payload_words(data, extra).unwrap().len() as int, u16_le(data, 12))
}

/// `e` is the offset past the header whose stream is plausible and comes
/// closest to the declared frame count, the smallest such offset on a tie.
pub open spec fn is_best_extra(data: Seq<u8>, e: int) -> bool {
    &&& 0 <= e <= MAX_EXTRA_HEADER_BYTES
    &&& payload_words(data, e) is Some
    &&& forall|f: int|
        0 <= f <= MAX_EXTRA_HEADER_BYTES && (#[trigger] payload_words(data, f)) is Some ==> {
            ||| candidate_distance(data, e) < candidate_distance(data, f)
            ||| (candidate_distance(data, e) == candidate_distance(data, f) && e <= f)
        }
}

/// The best offset past the header, if any offset is plausible.
pub open spec fn best_extra(data: Seq<u8>) -> Option<int> {
    if exists|e: int| is_best_extra(data, e) {
        Some(choose|e: int| is_best_extra(data, e))
    } else {
        None
    }
}

/// At most one offset is the best one.
pub proof fn lemma_best_extra_unique(data: Seq<u8>, e1: int, e2: int)
    requires
        is_best_extra(data, e1),
        is_best_extra(data, e2),
    ensures
        e1 == e2,
{
    assert(payload_words(data, e1) is Some);
    assert(payload_words(data, e2) is Some);
}

/// Decodes the stream `extra` bytes past the header into plausible values.
fn payload_candidate(data: &[u8], extra: usize) -> (r: Option<Vec<u32>>)
    requires
        extra <= MAX_EXTRA_HEADER_BYTES,
    ensures
        r is Some <==> payload_words(data@, extra as int) is Some,
        r matches Some(v) ==> v@ == payload_words(data@, extra as int).unwrap() && v@.len()
            <= MAX_DECODED_BYTES / 4,
{
    let offset = HEADER_SIZE + extra;
    if offset > data.len() {
        return None;
    }
    let payload = slice_subrange(data, offset, data.len());
    let raw = match unrle(payload) {
        Ok(raw) => raw,
        Err(_) => return None,
    };
    if raw.len() == 0 || raw.len() % 4 != 0 {
        return None;
    }
    let n = raw.len() / 4;
    let ghost words = words_of(raw@);
    let mut values: Vec<u32> = Vec::new();
    let mut k: usize = 0;
    let mut pos: usize = 0;
    while k < n
        invariant
            n == raw@.len() / 4,
            raw@.len() % 4 == 0,
            raw@.len() > 0,
            offset == HEADER_SIZE + extra,
            offset <= data@.len(),
            unrle_spec(data@.subrange(offset as int, data@.len() as int)) == Ok::<Seq<u8>, LipError>(raw@),
            k <= n,
            words == words_of(raw@),
            values@ == words.take(k as int),
            pos == 4 * k,
            forall|j: int| 0 <= j < k ==> #[trigger] plausible(words[j]),
        decreases n - k,
    {
        assert(pos + 4 <= raw@.len()) by (nonlinear_arith)
            requires
                k < n,
                n == raw@.len() / 4,
                pos == 4 * k,
        ;
        let v = match u32_at(raw.as_slice(), pos) {
            Some(v) => v,
            None => return None,
        };
        assert(v == words[k as int]);
        if v % 0x8000_0000 > 0x4000_0000 {
            assert(!plausible(words_of(raw@)[k as int]));
            return None;
        }
        values.push(v);
        assert(pos + 4 <= raw.len());
        k += 1;
        pos += 4;
        assert(values@ =~= words.take(k as int));
    }
    assert(values@ =~= words);
    Some(values)
}

/// [`frame_distance`] for a stream of `count` values.
fn distance_to_frames(count: usize, frames: u16) -> (d: usize)
    requires
        count <= MAX_DECODED_BYTES / 4,
    ensures
        d == frame_distance(count as int, frames as int),
{
    let p0 = (PHONEME_SLOT_BASE + SLOTS_PER_FRAME - count % SLOTS_PER_FRAME) % SLOTS_PER_FRAME;
    let rows = (p0 + count + SLOTS_PER_FRAME - 1) / SLOTS_PER_FRAME;
    let frames = frames as usize;
    if rows >= frames {
        rows - frames
    } else {
        frames - rows
    }
}

// ---------------------------------------------------------------------------
// Timing

/// A header whose `first` field is a usable pre-roll offset.
pub open spec fn reliable(h: LipHeader) -> bool {
    h.const20 == TIMING_MARKER && EARLIEST_FIRST <= h.first <= 0
}

/// The header bytes of a file into which one stray byte was written at
/// offset 14: the 25 leading bytes without that one.
pub open spec fn repaired_header_bytes(data: Seq<u8>) -> Seq<u8> {
    data.subrange(0, 14) + data.subrange(15, HEADER_SIZE + 1)
}

/// The reliable pre-roll offset of a file with header `header`, and the size
/// of the header it was read from: the header's own `first` when it is
/// reliable, otherwise that of the header with one stray byte at offset 14
/// removed, when that header agrees on the leading fields and is reliable.
pub open spec fn timing_spec(data: Seq<u8>, header: LipHeader) -> (Option<i32>, usize) {
    if reliable(header) {
        (Some(header.first), HEADER_SIZE)
    } else if data.len() < HEADER_SIZE + 1 {
        (None, HEADER_SIZE)
    } else {
        let r = header_of(repaired_header_bytes(data));
        if r.version == header.version && r.gridsize == header.gridsize && r.num_curves
            == header.num_curves && r.frames == header.frames && reliable(r) {
            (Some(r.first), (HEADER_SIZE + 1) as usize)
        } else {
            (None, HEADER_SIZE)
        }
    }
}

/// Finds the reliable pre-roll offset of `data`, whose header is `header`.
pub fn timing_fields(data: &[u8], header: LipHeader) -> (r: (Option<i32>, usize))
    ensures
        r == timing_spec(data@, header),
{
    if header.const20 == TIMING_MARKER && EARLIEST_FIRST <= header.first && header.first <= 0 {
        return (Some(header.first), HEADER_SIZE);
    }
    if data.len() < HEADER_SIZE + 1 {
        return (None, HEADER_SIZE);
    }
    let mut repaired: Vec<u8> = Vec::new();
    let mut i: usize = 0;
    while i < HEADER_SIZE + 1
        invariant
            data@.len() >= HEADER_SIZE + 1,
            i <= HEADER_SIZE + 1,
            i <= 14 ==> repaired@ == data@.subrange(0, i as int),
            i > 14 ==> repaired@ == data@.subrange(0, 14) + data@.subrange(15, i as int),
        decreases HEADER_SIZE + 1 - i,
    {
        if i != 14 {
            repaired.push(data[i]);
        }
        i += 1;
        if i <= 14 {
            assert(repaired@ =~= data@.subrange(0, i as int));
        } else if i > 15 {
            assert(repaired@ =~= data@.subrange(0, 14) + data@.subrange(15, i as int));
        } else {
            assert(repaired@ =~= data@.subrange(0, 14) + data@.subrange(15, i as int));
        }
    }
    let repaired_header = match parse_header(repaired.as_slice()) {
        Ok(h) => h,
        Err(_) => return (None, HEADER_SIZE),
    };
    if repaired_header.version == header.version && repaired_header.gridsize == header.gridsize
        && repaired_header.num_curves == header.num_curves && repaired_header.frames
        == header.frames && repaired_header.const20 == TIMING_MARKER && EARLIEST_FIRST
        <= repaired_header.first && repaired_header.first <= 0 {
        (Some(repaired_header.first), HEADER_SIZE + 1)
    } else {
        (None, HEADER_SIZE)
    }
}


// ---------------------------------------------------------------------------
// Decoding

/// The value in slot `col` of row `row` when `values` are laid out from
/// [`first_slot`] on; every other slot holds `0.0`.
pub open spec fn slot_value(values: Seq<u32>, row: int, col: int) -> u32 {
    let index = row * SLOTS_PER_FRAME + col - first_slot(values.len() as int);
    if 0 <= index < values.len() {
        values[index]
    } else {
        0
    }
}

/// `lip` is what `data` decodes to: the header at the start, the values of
/// the best payload offset laid out in rows, and the timing the header gives.
pub open spec fn decodes_to(data: Seq<u8>, lip: LipFile) -> bool {
    &&& data.len() >= HEADER_SIZE
    &&& best_extra(data) matches Some(e)
    &&& lip.header == header_of(data)
    &&& lip.timing_first == timing_spec(data, header_of(data)).0
    &&& lip.payload_offset == HEADER_SIZE + e
    &&& lip.payload_float_count == payload_words(data, e).unwrap().len()
    &&& lip.grid@.len() == row_count(lip.payload_float_count as int)
    &&& forall|r: int, c: int|
        0 <= r < lip.grid@.len() && 0 <= c < SLOTS_PER_FRAME ==> #[trigger] lip.grid@[r]@[c]
            == slot_value(payload_words(data, e).unwrap(), r, c)
}

/// Decodes a `.lip` file.
///
/// Every offset from [`HEADER_SIZE`] to [`HEADER_SIZE`] +
/// [`MAX_EXTRA_HEADER_BYTES`] is tried as the start of the curve stream; the
/// plausible one whose row count is closest to the header's frame count wins.
pub fn decode_bytes(data: &[u8]) -> (r: Result<LipFile, LipError>)
    ensures
        r is Ok <==> data@.len() >= HEADER_SIZE && best_extra(data@) is Some,
        r matches Err(e) ==> e == (if data@.len() < HEADER_SIZE {
            LipError::TooShort
        } else {
            LipError::NoPlausiblePayload
        }),
        r matches Ok(lip) ==> decodes_to(data@, lip),
{
    if data.len() < HEADER_SIZE {
        return Err(LipError::TooShort);
    }
    let header = match parse_header(data) {
        Ok(h) => h,
        Err(e) => return Err(e),
    };

    let mut best: Option<(usize, usize, Vec<u32>)> = None;
    let mut extra: usize = 0;
    while extra <= MAX_EXTRA_HEADER_BYTES
        invariant
            extra <= MAX_EXTRA_HEADER_BYTES + 1,
            data@.len() >= HEADER_SIZE,
            header == header_of(data@),
            best matches Some((d, b, values)) ==> {
                &&& b < extra
                &&& payload_words(data@, b as int) == Some(values@)
                &&& values@.len() <= MAX_DECODED_BYTES / 4
                &&& d == candidate_distance(data@, b as int)
                &&& forall|f: int|
                    0 <= f < extra && (#[trigger] payload_words(data@, f)) is Some ==> {
                        ||| d < candidate_distance(data@, f)
                        ||| (d == candidate_distance(data@, f) && b <= f)
                    }
            },
            best is None ==> forall|f: int| 0 <= f < extra ==> (#[trigger] payload_words(data@, f)) is None,
        decreases MAX_EXTRA_HEADER_BYTES + 1 - extra,
    {
        match payload_candidate(data, extra) {
            Some(values) => {
                let d = distance_to_frames(values.len(), header.frames);
                let better = match &best {
                    None => true,
                    Some((best_d, _, _)) => d < *best_d,
                };
                if better {
                    best = Some((d, extra, values));
                }
            },
            None => {},
        }
        extra += 1;
    }

    let (payload_offset, values) = match best {
        None => {
            assert(!exists|e: int| is_best_extra(data@, e));
            return Err(LipError::NoPlausiblePayload);
        },
        Some((_, b, values)) => {
            assert(is_best_extra(data@, b as int));
            proof {
                let c = choose|e: int| is_best_extra(data@, e);
                lemma_best_extra_unique(data@, b as int, c);
            }
            (HEADER_SIZE + b, values)
        },
    };

    let (timing_first, _) = timing_fields(data, header);
    let count = values.len();
    let p0 = (PHONEME_SLOT_BASE + SLOTS_PER_FRAME - count % SLOTS_PER_FRAME) % SLOTS_PER_FRAME;
    let row_total = (p0 + count + SLOTS_PER_FRAME - 1) / SLOTS_PER_FRAME;
    let mut grid: Vec<[u32; SLOTS_PER_FRAME]> = Vec::new();
    let mut r: usize = 0;
    while r < row_total
        invariant
            count == values@.len(),
            count <= MAX_DECODED_BYTES / 4,
            p0 == first_slot(count as int),
            row_total == row_count(count as int),
            r <= row_total,
            grid@.len() == r,
            forall|rr: int, c: int|
                0 <= rr < r && 0 <= c < SLOTS_PER_FRAME ==> #[trigger] grid@[rr]@[c]
                    == slot_value(values@, rr, c),
        decreases row_total - r,
    {
        let mut row = [0u32; SLOTS_PER_FRAME];
        let mut c: usize = 0;
        while c < SLOTS_PER_FRAME
            invariant
                count == values@.len(),
                count <= MAX_DECODED_BYTES / 4,
                p0 == first_slot(count as int),
                row_total == row_count(count as int),
                r < row_total,
                c <= SLOTS_PER_FRAME,
                forall|cc: int| 0 <= cc < c ==> #[trigger] row@[cc] == slot_value(values@, r as int, cc),
                forall|cc: int| c <= cc < SLOTS_PER_FRAME ==> #[trigger] row@[cc] == 0,
            decreases SLOTS_PER_FRAME - c,
        {
            let slot = r * SLOTS_PER_FRAME + c;
            if slot >= p0 && slot - p0 < count {
                row[c] = values[slot - p0];
            }
            c += 1;
        }
        grid.push(row);
        r += 1;
    }

    Ok(LipFile { header, grid, timing_first, payload_offset, payload_float_count: count })
}

impl LipFile {
    /// The 16 FaceGen viseme curves of each frame, slots
    /// [`PHONEME_SLOT_BASE`] onwards of each row.
    pub fn visemes(&self) -> (v: Vec<[u32; VISEME_COUNT]>)
        ensures
            v@.len() == self.grid@.len(),
            forall|r: int, i: int|
                0 <= r < v@.len() && 0 <= i < VISEME_COUNT ==> #[trigger] v@[r]@[i]
                    == self.grid@[r]@[PHONEME_SLOT_BASE + i],
    {
        let mut out: Vec<[u32; VISEME_COUNT]> = Vec::new();
        let mut r: usize = 0;
        while r < self.grid.len()
            invariant
                r <= self.grid@.len(),
                out@.len() == r,
                forall|rr: int, i: int|
                    0 <= rr < r && 0 <= i < VISEME_COUNT ==> #[trigger] out@[rr]@[i]
                        == self.grid@[rr]@[PHONEME_SLOT_BASE + i],
            decreases self.grid@.len() - r,
        {
            let source = self.grid[r];
            let mut row = [0u32; VISEME_COUNT];
            let mut i: usize = 0;
            while i < VISEME_COUNT
                invariant
                    i <= VISEME_COUNT,
                    source == self.grid@[r as int],
                    forall|j: int| 0 <= j < i ==> #[trigger] row@[j] == source@[PHONEME_SLOT_BASE + j],
                decreases VISEME_COUNT - i,
            {
                row[i] = source[PHONEME_SLOT_BASE + i];
                i += 1;
            }
            out.push(row);
            r += 1;
        }
        out
    }

    /// The time of `frame` counted in frames from the start of the audio:
    /// `frame` plus the reliable pre-roll offset, when there is one. The
    /// time in seconds is this over [`FPS`].
    pub fn frame_time(&self, frame: usize) -> (t: Option<i128>)
        ensures
            match self.timing_first {
                Some(first) => t == Some((frame as int + first as int) as i128),
                None => t is None,
            },
    {
        match self.timing_first {
            Some(first) => Some(frame as i128 + first as i128),
            None => None,
        }
    }
}

} // verus!
