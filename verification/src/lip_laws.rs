//! Properties of `.lip` decoding that hold for every input.

use vstd::prelude::*;
use crate::le::u16_le;
use crate::lip::{
    LipHeader, LipFile, HEADER_SIZE, EARLIEST_FIRST, MAX_EXTRA_HEADER_BYTES, SLOTS_PER_FRAME,
    PHONEME_SLOT_BASE, header_of, reliable, repaired_header_bytes, timing_spec, payload_words,
    is_best_extra, best_extra, candidate_distance, lemma_best_extra_unique, decodes_to, first_slot, slot_value,
    unrle_spec, unrle_from, MAX_DECODED_BYTES, plausible, row_count, words_of,
};
use crate::le::{le16, u32_le};

verus! {

/// The bytes of `d` with one stray byte `b` written at offset 14.
pub open spec fn with_stray_byte(d: Seq<u8>, b: u8) -> Seq<u8> {
    d.take(14).push(b) + d.skip(14)
}

/// A timing the header yields is a reliable pre-roll read from a header of
/// 24 or 25 bytes, and a reliable header yields its own `first`.
pub proof fn lemma_timing_is_reliable(data: Seq<u8>, header: LipHeader)
    ensures
        timing_spec(data, header).0 matches Some(f) ==> EARLIEST_FIRST <= f <= 0,
        timing_spec(data, header).0 is None ==> timing_spec(data, header).1 == HEADER_SIZE,
        timing_spec(data, header).1 == HEADER_SIZE || timing_spec(data, header).1 == HEADER_SIZE
            + 1,
        reliable(header) ==> timing_spec(data, header) == (Some(header.first), HEADER_SIZE),
{
}

/// A file whose header is reliable, with one stray byte written at offset
/// 14, still yields the pre-roll of the file without it, read from a 25-byte header.
pub proof fn lemma_stray_byte_is_repaired(d: Seq<u8>, b: u8)
    requires
        d.len() >= HEADER_SIZE,
        reliable(header_of(d)),
    ensures
        timing_spec(with_stray_byte(d, b), header_of(with_stray_byte(d, b))) == (
            Some(header_of(d).first),
            (HEADER_SIZE + 1) as usize,
        ),
{
    let s = with_stray_byte(d, b);
    assert(s.len() == d.len() + 1);
    assert forall|i: int| 0 <= i < 14 implies #[trigger] s[i] == d[i] by {}
    assert forall|i: int| 15 <= i < s.len() implies #[trigger] s[i] == d[i - 1] by {}
    assert(s[14] == b);
    let hd = header_of(d);
    let hs = header_of(s);
    assert(d[20] as int + 256 * (d[21] as int) == 16);
    assert(d[20] == 16);
    assert(hs.const20 as int == s[20] as int + 256 * (s[21] as int));
    assert(s[21] == d[20]);
    assert(!reliable(hs));
    let r = repaired_header_bytes(s);
    assert(r =~= d.take(HEADER_SIZE as int));
    assert forall|i: int| 0 <= i < 24 implies #[trigger] r[i] == d[i] by {}
    assert(header_of(r) == hd);
    assert(hs.version == hd.version);
    assert(hs.gridsize == hd.gridsize);
    assert(hs.num_curves == hd.num_curves);
    assert(hs.frames == hd.frames);
}

/// The curves of a file depend only on the declared frame count and the
/// bytes past the header: whatever the other header bytes hold, the same
/// payload offset wins, or none does.
pub proof fn lemma_curves_ignore_other_header_bytes(d1: Seq<u8>, d2: Seq<u8>)
    requires
        d1.len() >= HEADER_SIZE,
        d2.len() >= HEADER_SIZE,
        d1[12] == d2[12],
        d1[13] == d2[13],
        d1.skip(HEADER_SIZE as int) == d2.skip(HEADER_SIZE as int),
    ensures
        forall|e: int| 0 <= e ==> #[trigger] payload_words(d1, e) == payload_words(d2, e),
        best_extra(d1) == best_extra(d2),
{
    assert(d1.len() == d2.len()) by {
        assert(d1.skip(HEADER_SIZE as int).len() == d1.len() - HEADER_SIZE);
        assert(d2.skip(HEADER_SIZE as int).len() == d2.len() - HEADER_SIZE);
    }
    assert forall|i: int| HEADER_SIZE <= i < d1.len() implies #[trigger] d1[i] == d2[i] by {
        assert(d1[i] == d1.skip(HEADER_SIZE as int)[i - HEADER_SIZE]);
        assert(d2[i] == d2.skip(HEADER_SIZE as int)[i - HEADER_SIZE]);
    }
    assert forall|e: int| 0 <= e implies #[trigger] payload_words(d1, e) == payload_words(d2, e) by {
        if HEADER_SIZE + e <= d1.len() {
            assert(d1.subrange(HEADER_SIZE + e, d1.len() as int) =~= d2.subrange(
                HEADER_SIZE + e,
                d2.len() as int,
            ));
        }
    }
    assert(u16_le(d1, 12) == u16_le(d2, 12));
    assert forall|e: int| is_best_extra(d1, e) <==> is_best_extra(d2, e) by {
        if 0 <= e <= MAX_EXTRA_HEADER_BYTES {
            assert(payload_words(d1, e) == payload_words(d2, e));
            assert forall|f: int| 0 <= f <= MAX_EXTRA_HEADER_BYTES implies candidate_distance(d1, f)
                == candidate_distance(d2, f) && (payload_words(d1, f) is Some <==> payload_words(d2, f) is Some) by {
                assert(payload_words(d1, f) == payload_words(d2, f));
            }
        }
    }
    if exists|e: int| is_best_extra(d1, e) {
        let c1 = choose|e: int| is_best_extra(d1, e);
        let c2 = choose|e: int| is_best_extra(d2, e);
        assert(is_best_extra(d2, c1));
        lemma_best_extra_unique(d2, c1, c2);
    }
}

/// Two files that agree on the declared frame count and on every byte past
/// the header decode to the same curve grid from the same payload offset.
pub proof fn lemma_decoded_curves_ignore_other_header_bytes(
    d1: Seq<u8>,
    d2: Seq<u8>,
    lip1: LipFile,
    lip2: LipFile,
)
    requires
        d1[12] == d2[12],
        d1[13] == d2[13],
        d1.skip(HEADER_SIZE as int) == d2.skip(HEADER_SIZE as int),
        decodes_to(d1, lip1),
        decodes_to(d2, lip2),
    ensures
        lip1.payload_offset == lip2.payload_offset,
        lip1.payload_float_count == lip2.payload_float_count,
        lip1.grid@ == lip2.grid@,
{
    lemma_curves_ignore_other_header_bytes(d1, d2);
    let e = best_extra(d1).unwrap();
    assert(payload_words(d1, e) == payload_words(d2, e));
    assert forall|r: int| 0 <= r < lip1.grid@.len() implies #[trigger] lip1.grid@[r]
        == lip2.grid@[r] by {
        assert forall|c: int| 0 <= c < SLOTS_PER_FRAME implies lip1.grid@[r]@[c]
            == lip2.grid@[r]@[c] by {}
        assert(lip1.grid@[r]@ =~= lip2.grid@[r]@);
    }
    assert(lip1.grid@ =~= lip2.grid@);
}

/// The row that holds value `i` of `count`.
pub open spec fn row_of(count: int, i: int) -> int {
    (first_slot(count) + i) / (SLOTS_PER_FRAME as int)
}

/// The slot within its row that holds value `i` of `count`.
pub open spec fn col_of(count: int, i: int) -> int {
    (first_slot(count) + i) % (SLOTS_PER_FRAME as int)
}

/// The decoded values fill consecutive slots from [`first_slot`] on and the
/// slot after the last value is [`PHONEME_SLOT_BASE`] of a row; every value
/// can be read back from its slot, and the grid has just enough rows.
pub proof fn lemma_grid_holds_payload(data: Seq<u8>, lip: LipFile)
    requires
        decodes_to(data, lip),
    ensures
        HEADER_SIZE <= lip.payload_offset <= HEADER_SIZE + MAX_EXTRA_HEADER_BYTES,
        lip.payload_float_count >= 1,
        0 <= first_slot(lip.payload_float_count as int) < SLOTS_PER_FRAME,
        (first_slot(lip.payload_float_count as int) + lip.payload_float_count) % (
        SLOTS_PER_FRAME as int) == PHONEME_SLOT_BASE,
        lip.grid@.len() * SLOTS_PER_FRAME >= first_slot(lip.payload_float_count as int)
            + lip.payload_float_count,
        forall|i: int|
            0 <= i < lip.payload_float_count ==> {
                &&& row_of(lip.payload_float_count as int, i) < lip.grid@.len()
                &&& #[trigger] lip.grid@[row_of(lip.payload_float_count as int, i)]@[col_of(
                    lip.payload_float_count as int,
                    i,
                )] == payload_words(data, lip.payload_offset - HEADER_SIZE).unwrap()[i]
            },
{
    let e = lip.payload_offset - HEADER_SIZE;
    let values = payload_words(data, e).unwrap();
    let count = values.len() as int;
    let p0 = first_slot(count);
    let rows = lip.grid@.len() as int;
    assert(count >= 1) by {
        let raw = unrle_spec(data.subrange(HEADER_SIZE + e, data.len() as int)).unwrap();
        assert(raw.len() >= 4);
    }
    assert(0 <= p0 < 33);
    assert((p0 + count) % 33 == 6) by (nonlinear_arith)
        requires
            p0 == (6 + 33 - count % 33) % 33,
            count >= 0,
    ;
    assert(rows * 33 >= p0 + count) by (nonlinear_arith)
        requires
            rows == (p0 + count + 33 - 1) / 33,
            p0 + count >= 0,
    ;
    assert forall|i: int| 0 <= i < count implies {
        &&& row_of(count, i) < rows
        &&& #[trigger] lip.grid@[row_of(count, i)]@[col_of(count, i)] == values[i]
    } by {
        let slot = p0 + i;
        assert(slot / 33 < rows && slot / 33 * 33 + slot % 33 == slot && 0 <= slot % 33 < 33)
            by (nonlinear_arith)
            requires
                rows * 33 >= p0 + count,
                slot == p0 + i,
                0 <= i < count,
                0 <= p0,
        ;
        assert(slot_value(values, slot / 33, slot % 33) == values[i]);
    }
}

// ---------------------------------------------------------------------------
// Run-length encoding

/// The zero-run packets for `count` zero bytes: `0` and a little-endian
/// count of at most 65535 each, longest first.
pub open spec fn zero_packets(count: nat) -> Seq<u8>
    decreases count,
{
    if count == 0 {
        Seq::empty()
    } else {
        let run: nat = if count > 65535 { 65535 } else { count };
        seq![0u8] + le16(run as int) + zero_packets((count - run) as nat)
    }
}

/// Run-length encoding of `raw` from position `i` on, with `run` zero bytes
/// pending before it: each maximal run of zero bytes becomes its zero-run
/// packets, and every other byte is copied.
pub open spec fn rle_from(raw: Seq<u8>, i: int, run: nat) -> Seq<u8>
    decreases raw.len() - i,
{
    if i < 0 || i >= raw.len() {
        zero_packets(run)
    } else if raw[i] == 0 {
        rle_from(raw, i + 1, run + 1)
    } else {
        zero_packets(run) + seq![raw[i]] + rle_from(raw, i + 1, 0)
    }
}

/// Run-length encoding of a whole stream.
pub open spec fn rle_spec(raw: Seq<u8>) -> Seq<u8> {
    rle_from(raw, 0, 0)
}

/// `count` zero bytes.
pub open spec fn zeros(count: nat) -> Seq<u8> {
    Seq::new(count, |_j: int| 0u8)
}

/// Decoding reads only what lies at or past its position.
proof fn lemma_unrle_shift(q: Seq<u8>, r: Seq<u8>, j: int, acc: Seq<u8>)
    requires
        0 <= j,
    ensures
        unrle_from(q + r, q.len() + j, acc) == unrle_from(r, j, acc),
    decreases r.len() - j,
{
    let p = q + r;
    let i = q.len() + j;
    if j < r.len() {
        assert(p[i] == r[j]);
        if r[j] == 0 {
            if j + 2 < r.len() {
                assert(p[i + 1] == r[j + 1]);
                assert(p[i + 2] == r[j + 2]);
                let count = u16_le(r, j + 1);
                lemma_unrle_shift(q, r, j + 3, acc + Seq::new(count as nat, |_k: int| 0u8));
            }
        } else {
            lemma_unrle_shift(q, r, j + 1, acc.push(r[j]));
        }
    }
}

/// Decoding the zero-run packets for `count` zeros emits `count` zeros.
proof fn lemma_unrle_zero_packets(count: nat, t: Seq<u8>, acc: Seq<u8>)
    requires
        acc.len() + count <= MAX_DECODED_BYTES,
    ensures
        unrle_from(zero_packets(count) + t, 0, acc) == unrle_from(t, 0, acc + zeros(count)),
    decreases count,
{
    if count == 0 {
        assert(zero_packets(count) + t =~= t);
        assert(acc + zeros(count) =~= acc);
    } else {
        let run: nat = if count > 65535 { 65535 } else { count };
        let rest = zero_packets((count - run) as nat);
        let head = seq![0u8] + le16(run as int);
        let p = zero_packets(count) + t;
        assert(p =~= head + (rest + t));
        assert(p[0] == 0);
        assert(p[1] == (run % 256) as u8 && p[2] == ((run / 256) % 256) as u8);
        assert(u16_le(p, 1) == run);
        lemma_unrle_shift(head, rest + t, 0, acc + Seq::new(run, |_k: int| 0u8));
        lemma_unrle_zero_packets((count - run) as nat, t, acc + zeros(run));
        assert(acc + zeros(run) + zeros((count - run) as nat) =~= acc + zeros(count));
        assert(Seq::new(run, |_k: int| 0u8) =~= zeros(run));
    }
}

/// Decoding the encoding of `raw` from `i` on, with `run` zeros pending,
/// emits those zeros and the rest of `raw`.
proof fn lemma_unrle_rle_from(raw: Seq<u8>, i: int, run: nat, acc: Seq<u8>)
    requires
        0 <= i <= raw.len(),
        acc.len() + run + (raw.len() - i) <= MAX_DECODED_BYTES,
    ensures
        unrle_from(rle_from(raw, i, run), 0, acc) == Ok::<Seq<u8>, crate::lip::LipError>(acc
            + zeros(run) + raw.skip(i)),
    decreases raw.len() - i,
{
    if i == raw.len() {
        lemma_unrle_zero_packets(run, Seq::empty(), acc);
        assert(zero_packets(run) + Seq::<u8>::empty() =~= zero_packets(run));
        assert(acc + zeros(run) + raw.skip(i) =~= acc + zeros(run));
    } else if raw[i] == 0 {
        lemma_unrle_rle_from(raw, i + 1, run + 1, acc);
        assert(acc + zeros(run + 1) + raw.skip(i + 1) =~= acc + zeros(run) + raw.skip(i));
    } else {
        let rest = rle_from(raw, i + 1, 0);
        let t = seq![raw[i]] + rest;
        assert(rle_from(raw, i, run) =~= zero_packets(run) + t);
        lemma_unrle_zero_packets(run, t, acc);
        let acc2 = acc + zeros(run);
        assert(t[0] == raw[i]);
        lemma_unrle_shift(seq![raw[i]], rest, 0, acc2.push(raw[i]));
        lemma_unrle_rle_from(raw, i + 1, 0, acc2.push(raw[i]));
        assert(acc2.push(raw[i]) + zeros(0) + raw.skip(i + 1) =~= acc + zeros(run) + raw.skip(i));
    }
}

/// Run-length decoding gives back every stream that fits the decoder's
/// limit, run-length encoded with each maximal zero run as packets of at
/// most 65535 zeros and every other byte copied.
pub proof fn lemma_unrle_inverts_rle(raw: Seq<u8>)
    requires
        raw.len() <= MAX_DECODED_BYTES,
    ensures
        unrle_spec(rle_spec(raw)) == Ok::<Seq<u8>, crate::lip::LipError>(raw),
{
    lemma_unrle_rle_from(raw, 0, 0, Seq::empty());
    assert(Seq::<u8>::empty() + zeros(0) + raw.skip(0) =~= raw);
}

// ---------------------------------------------------------------------------
// Plausible values

/// Plausibility ignores the sign: a value and its negation, whose bit
/// patterns differ in the top bit alone, are both plausible or both not.
/// Among non-negative values it is a lower range: a smaller bit pattern is
/// a smaller float, and a value below a plausible one is plausible. `2.0`
/// (`0x4000_0000`) is its top and the next float above is not plausible,
/// so the plausible values are exactly those in `[-2.0, 2.0]`.
pub proof fn lemma_plausible_is_the_range_to_two(b: u32, c: u32)
    ensures
        plausible(b) == plausible(b ^ 0x8000_0000u32),
        c <= b < 0x8000_0000 && plausible(b) ==> plausible(c),
        plausible(0x4000_0000u32),
        !plausible(0x4000_0001u32),
        plausible(0u32),
        plausible(0x8000_0000u32),
        plausible(0xc000_0000u32),
        !plausible(0xc000_0001u32),
{
    assert((b ^ 0x8000_0000u32) % 0x8000_0000u32 == b % 0x8000_0000u32) by (bit_vector);
}

// ---------------------------------------------------------------------------
// Rows and the choice of payload

/// `count` values laid out so that the slot after the last is
/// [`PHONEME_SLOT_BASE`] of a row start in the first row, and take just
/// enough rows: one row fewer would not hold them.
pub proof fn lemma_rows_are_just_enough(count: int)
    requires
        count >= 0,
    ensures
        0 <= first_slot(count) < SLOTS_PER_FRAME,
        (first_slot(count) + count) % (SLOTS_PER_FRAME as int) == PHONEME_SLOT_BASE,
        row_count(count) * SLOTS_PER_FRAME >= first_slot(count) + count,
        (row_count(count) - 1) * SLOTS_PER_FRAME < first_slot(count) + count,
{
    let p0 = first_slot(count);
    let rows = row_count(count);
    assert(0 <= p0 < 33);
    assert((p0 + count) % 33 == 6) by (nonlinear_arith)
        requires
            p0 == (6 + 33 - count % 33) % 33,
            count >= 0,
    ;
    assert(rows * 33 >= p0 + count && (rows - 1) * 33 < p0 + count) by (nonlinear_arith)
        requires
            rows == (p0 + count + 33 - 1) / 33,
            p0 + count >= 0,
    ;
}

/// `|a - b|`.
pub open spec fn gap(a: int, b: int) -> int {
    if a >= b {
        a - b
    } else {
        b - a
    }
}

/// Of every offset past the header whose stream decodes to plausible
/// values, the decoded file takes the one whose row count is closest to the
/// header's frame count, and the earliest of those on a tie.
pub proof fn lemma_decode_picks_the_closest_rows(data: Seq<u8>, lip: LipFile, f: int)
    requires
        decodes_to(data, lip),
        0 <= f <= MAX_EXTRA_HEADER_BYTES,
        payload_words(data, f) is Some,
    ensures
        ({
            let frames = lip.header.frames as int;
            let rows = row_count(payload_words(data, f).unwrap().len() as int);
            ||| gap(lip.grid@.len() as int, frames) < gap(rows, frames)
            ||| (gap(lip.grid@.len() as int, frames) == gap(rows, frames)
                && lip.payload_offset <= HEADER_SIZE + f)
        }),
{
    let e = best_extra(data).unwrap();
    assert(is_best_extra(data, e)) by {
        let c = choose|c: int| is_best_extra(data, c);
        assert(is_best_extra(data, c));
    }
    assert(payload_words(data, f) is Some);
}

/// Every value the decoded grid holds, its padding included, is a
/// plausible curve value, and the values are the little-endian words of the
/// stream that run-length decodes from the payload offset on.
pub proof fn lemma_grid_values_come_from_the_stream(data: Seq<u8>, lip: LipFile)
    requires
        decodes_to(data, lip),
    ensures
        forall|r: int, c: int|
            0 <= r < lip.grid@.len() && 0 <= c < SLOTS_PER_FRAME ==> plausible(
                #[trigger] lip.grid@[r]@[c],
            ),
        unrle_spec(data.subrange(lip.payload_offset as int, data.len() as int)) matches Ok(raw)
            && raw.len() == 4 * lip.payload_float_count && forall|i: int|
            0 <= i < lip.payload_float_count ==> #[trigger] lip.grid@[row_of(
                lip.payload_float_count as int,
                i,
            )]@[col_of(lip.payload_float_count as int, i)] == u32_le(raw, 4 * i),
{
    let e = lip.payload_offset - HEADER_SIZE;
    let values = payload_words(data, e).unwrap();
    lemma_grid_holds_payload(data, lip);
    let raw = unrle_spec(data.subrange(HEADER_SIZE + e, data.len() as int))->Ok_0;
    assert(values == words_of(raw));
    assert forall|r: int, c: int|
        0 <= r < lip.grid@.len() && 0 <= c < SLOTS_PER_FRAME implies plausible(
            #[trigger] lip.grid@[r]@[c],
        ) by {
        let index = r * SLOTS_PER_FRAME + c - first_slot(values.len() as int);
        if 0 <= index < values.len() {
            assert(plausible(words_of(raw)[index]));
        }
    }
    assert forall|i: int| 0 <= i < lip.payload_float_count implies #[trigger] lip.grid@[row_of(
        lip.payload_float_count as int,
        i,
    )]@[col_of(lip.payload_float_count as int, i)] == u32_le(raw, 4 * i) by {
        assert(words_of(raw)[i] == u32_le(raw, 4 * i) as u32);
        assert(0 <= u32_le(raw, 4 * i) < 0x1_0000_0000) by {
            assert(0 <= raw[4 * i] < 256 && 0 <= raw[4 * i + 1] < 256 && 0 <= raw[4 * i + 2] < 256
                && 0 <= raw[4 * i + 3] < 256);
        }
    }
}

} // verus!
