//! DST (Tajima) encoding: a 512-byte ASCII header followed by 3-byte
//! balanced-ternary move records.
use vstd::prelude::*;

use crate::design::{
    color_change_total, highest, label_field, lowest, needs_end, push_label, ExportStitchType,
    UnitDesign, UnitStitch,
};
use crate::text::{
    push_signed_zero_padded, push_str, push_zero_padded, signed_zero_padded, utf8, zero_padded,
};

verus! {

/// Largest displacement, per axis, that one DST record can carry.
pub const MAX_DELTA: i32 = 121;

/// The kind of move one DST record performs.
#[derive(Debug, Clone, Copy, PartialEq, Eq, Structural)]
pub enum MoveType {
    /// Sew to the new position.
    Stitch,
    /// Move with the needle raised.
    Jump,
    /// Move and switch to the next thread.
    ColorChange,
}

/// The lowest balanced-ternary digit of `v`, in {-1, 0, 1}.
pub open spec fn bt_low(v: int) -> int {
    let r = v % 3;
    if r == 0 {
        0
    } else if r == 1 {
        1
    } else {
        -1
    }
}

/// What remains of `v` once its lowest balanced-ternary digit is taken off.
pub open spec fn bt_rest(v: int) -> int {
    (v - bt_low(v)) / 3
}

/// Balanced-ternary digit `k` of `v` (weight 3^k).
pub open spec fn bt_digit(v: int, k: nat) -> int
    decreases k,
{
    if k == 0 {
        bt_low(v)
    } else {
        bt_digit(bt_rest(v), (k - 1) as nat)
    }
}

/// The bit pattern for one digit: `pos` when it is 1, `neg` when it is -1.
pub open spec fn digit_bits_spec(d: int, pos: u8, neg: u8) -> u8 {
    if d > 0 {
        pos
    } else if d < 0 {
        neg
    } else {
        0
    }
}

/// The control bits of a record: bit 7 for Jump and ColorChange, bit 6 for
/// ColorChange only.
pub open spec fn control_bits(t: MoveType) -> u8 {
    match t {
        MoveType::Stitch => 0x00u8,
        MoveType::Jump => 0x80u8,
        MoveType::ColorChange => 0xC0u8,
    }
}

/// First byte of a record: y digits 1 and 9, x digits 1 and 9.
pub open spec fn record_b0(dx: int, dy: int) -> u8 {
    digit_bits_spec(bt_digit(dy, 0), 0x80, 0x40) | digit_bits_spec(bt_digit(dy, 2), 0x20, 0x10)
        | digit_bits_spec(bt_digit(dx, 0), 0x04, 0x08) | digit_bits_spec(bt_digit(dx, 2), 0x01, 0x02)
}

/// Second byte of a record: y digits 3 and 27, x digits 3 and 27.
pub open spec fn record_b1(dx: int, dy: int) -> u8 {
    digit_bits_spec(bt_digit(dy, 1), 0x80, 0x40) | digit_bits_spec(bt_digit(dy, 3), 0x20, 0x10)
        | digit_bits_spec(bt_digit(dx, 1), 0x04, 0x08) | digit_bits_spec(bt_digit(dx, 3), 0x01, 0x02)
}

/// Third byte of a record: the fixed bits 0 and 1, the move type, and the
/// digits of weight 81.
pub open spec fn record_b2(dx: int, dy: int, t: MoveType) -> u8 {
    0x03u8 | control_bits(t) | digit_bits_spec(bt_digit(dy, 4), 0x20, 0x10)
        | digit_bits_spec(bt_digit(dx, 4), 0x04, 0x08)
}

/// The three bytes of one DST record.
pub open spec fn dst_record(dx: int, dy: int, t: MoveType) -> Seq<u8> {
    seq![record_b0(dx, dy), record_b1(dx, dy), record_b2(dx, dy, t)]
}

/// 1 when any bit of the mask `m` is set in `b`, else 0.
pub open spec fn bit(b: u8, m: u8) -> int {
    if b & m != 0 {
        1
    } else {
        0
    }
}

/// The x displacement that a record's bits state.
pub open spec fn decoded_dx(b0: u8, b1: u8, b2: u8) -> int {
    bit(b0, 0x04) - bit(b0, 0x08) + 9 * bit(b0, 0x01) - 9 * bit(b0, 0x02) + 3 * bit(b1, 0x04) - 3
        * bit(b1, 0x08) + 27 * bit(b1, 0x01) - 27 * bit(b1, 0x02) + 81 * bit(b2, 0x04) - 81 * bit(
        b2,
        0x08,
    )
}

/// The y displacement that a record's bits state.
pub open spec fn decoded_dy(b0: u8, b1: u8, b2: u8) -> int {
    bit(b0, 0x80) - bit(b0, 0x40) + 9 * bit(b0, 0x20) - 9 * bit(b0, 0x10) + 3 * bit(b1, 0x80) - 3
        * bit(b1, 0x40) + 27 * bit(b1, 0x20) - 27 * bit(b1, 0x10) + 81 * bit(b2, 0x20) - 81 * bit(
        b2,
        0x10,
    )
}

/// The move type that a record's control bits state.
pub open spec fn decoded_type(b2: u8) -> MoveType {
    if b2 & 0x40 != 0 {
        MoveType::ColorChange
    } else if b2 & 0x80 != 0 {
        MoveType::Jump
    } else {
        MoveType::Stitch
    }
}

/// What a decoder reads from the three bytes of a record.
pub open spec fn decode_record(b0: u8, b1: u8, b2: u8) -> (int, int, MoveType) {
    (decoded_dx(b0, b1, b2), decoded_dy(b0, b1, b2), decoded_type(b2))
}

/// One balanced-ternary step: the lowest digit and what remains.
fn ternary_step(v: i32) -> (r: (i8, i32))
    ensures
        r.0 == bt_low(v as int),
        r.1 == bt_rest(v as int),
{
    let w = v as i64;
    let rem = ((w % 3) + 3) % 3;
    if rem == 0 {
        (0, (w / 3) as i32)
    } else if rem == 1 {
        (1, ((w - 1) / 3) as i32)
    } else {
        (-1, ((w + 1) / 3) as i32)
    }
}


/// The five lowest balanced-ternary digits of `val`, weights 1, 3, 9, 27, 81.
pub fn balanced_ternary(val: i32) -> (digits: [i8; 5])
    ensures
        forall|k: int| 0 <= k < 5 ==> #[trigger] digits@[k] == bt_digit(val as int, k as nat),
{
    let (d0, v1) = ternary_step(val);
    let (d1, v2) = ternary_step(v1);
    let (d2, v3) = ternary_step(v2);
    let (d3, v4) = ternary_step(v3);
    let (d4, _v5) = ternary_step(v4);
    proof {
        assert(bt_digit(val as int, 1) == bt_digit(v1 as int, 0));
        assert(bt_digit(val as int, 2) == bt_digit(v2 as int, 0)) by {
            assert(bt_digit(val as int, 2) == bt_digit(v1 as int, 1));
        }
        assert(bt_digit(val as int, 3) == bt_digit(v3 as int, 0)) by {
            assert(bt_digit(val as int, 3) == bt_digit(v1 as int, 2));
            assert(bt_digit(v1 as int, 2) == bt_digit(v2 as int, 1));
        }
        assert(bt_digit(val as int, 4) == bt_digit(v4 as int, 0)) by {
            assert(bt_digit(val as int, 4) == bt_digit(v1 as int, 3));
            assert(bt_digit(v1 as int, 3) == bt_digit(v2 as int, 2));
            assert(bt_digit(v2 as int, 2) == bt_digit(v3 as int, 1));
        }
    }
    let digits = [d0, d1, d2, d3, d4];
    assert forall|k: int| 0 <= k < 5 implies #[trigger] digits@[k] == bt_digit(val as int, k as nat) by {
        if k == 0 {
        } else if k == 1 {
        } else if k == 2 {
        } else if k == 3 {
        } else {
        }
    }
    digits
}

/// The bit pattern of one digit: `pos` for 1, `neg` for -1, nothing for 0.
fn digit_bits(d: i8, pos: u8, neg: u8) -> (b: u8)
    ensures
        b == digit_bits_spec(d as int, pos, neg),
{
    if d > 0 {
        pos
    } else if d < 0 {
        neg
    } else {
        0
    }
}

/// Appends the 3-byte record for a move of `(dx, dy)`; only the five lowest
/// balanced-ternary digits of each axis are representable.
pub fn encode_3byte(dx: i32, dy: i32, move_type: MoveType, out: &mut Vec<u8>)
    ensures
        final(out)@ == old(out)@ + dst_record(dx as int, dy as int, move_type),
{
    let b2_control: u8 = match move_type {
        MoveType::Stitch => 0x00,
        MoveType::Jump => 0x80,
        MoveType::ColorChange => 0xC0,
    };
    let yd = balanced_ternary(dy);
    let xd = balanced_ternary(dx);
    let b0 = digit_bits(yd[0], 0x80, 0x40) | digit_bits(yd[2], 0x20, 0x10) | digit_bits(
        xd[0],
        0x04,
        0x08,
    ) | digit_bits(xd[2], 0x01, 0x02);
    let b1 = digit_bits(yd[1], 0x80, 0x40) | digit_bits(yd[3], 0x20, 0x10) | digit_bits(
        xd[1],
        0x04,
        0x08,
    ) | digit_bits(xd[3], 0x01, 0x02);
    let b2 = 0x03u8 | b2_control | digit_bits(yd[4], 0x20, 0x10) | digit_bits(xd[4], 0x04, 0x08);
    assert(bt_digit(dy as int, 0) == yd@[0]);
    assert(bt_digit(dy as int, 1) == yd@[1]);
    assert(bt_digit(dy as int, 2) == yd@[2]);
    assert(bt_digit(dy as int, 3) == yd@[3]);
    assert(bt_digit(dy as int, 4) == yd@[4]);
    assert(bt_digit(dx as int, 0) == xd@[0]);
    assert(bt_digit(dx as int, 1) == xd@[1]);
    assert(bt_digit(dx as int, 2) == xd@[2]);
    assert(bt_digit(dx as int, 3) == xd@[3]);
    assert(bt_digit(dx as int, 4) == xd@[4]);
    out.push(b0);
    out.push(b1);
    out.push(b2);
    assert(final(out)@ == old(out)@ + dst_record(dx as int, dy as int, move_type)) by {
        assert(out@ =~= old(out)@ + dst_record(dx as int, dy as int, move_type));
    }
}

/// 1 when any bit of the mask `m` is set in `b`, else 0.
fn test_bit(b: u8, m: u8) -> (r: i32)
    ensures
        r == bit(b, m),
        0 <= r <= 1,
{
    if b & m != 0 {
        1
    } else {
        0
    }
}

/// Reads the displacement and move type back from a 3-byte record.
pub fn decode_3byte(b0: u8, b1: u8, b2: u8) -> (r: (i32, i32, MoveType))
    ensures
        (r.0 as int, r.1 as int, r.2) == decode_record(b0, b1, b2),
{
    let dy = test_bit(b0, 0x80) - test_bit(b0, 0x40) + 9 * test_bit(b0, 0x20) - 9 * test_bit(b0, 0x10)
        + 3 * test_bit(b1, 0x80) - 3 * test_bit(b1, 0x40) + 27 * test_bit(b1, 0x20) - 27 * test_bit(
        b1,
        0x10,
    ) + 81 * test_bit(b2, 0x20) - 81 * test_bit(b2, 0x10);
    let dx = test_bit(b0, 0x04) - test_bit(b0, 0x08) + 9 * test_bit(b0, 0x01) - 9 * test_bit(b0, 0x02)
        + 3 * test_bit(b1, 0x04) - 3 * test_bit(b1, 0x08) + 27 * test_bit(b1, 0x01) - 27 * test_bit(
        b1,
        0x02,
    ) + 81 * test_bit(b2, 0x04) - 81 * test_bit(b2, 0x08);
    let move_type = if b2 & 0x40 != 0 {
        MoveType::ColorChange
    } else if b2 & 0x80 != 0 {
        MoveType::Jump
    } else {
        MoveType::Stitch
    };
    (dx, dy, move_type)
}


/// Five balanced-ternary digits represent every value in `[-121, 121]` exactly.
pub proof fn lemma_ternary_digits(v: int)
    requires
        -121 <= v <= 121,
    ensures
        forall|k: nat| k < 5 ==> -1 <= #[trigger] bt_digit(v, k) <= 1,
        bt_digit(v, 0) + 3 * bt_digit(v, 1) + 9 * bt_digit(v, 2) + 27 * bt_digit(v, 3) + 81
            * bt_digit(v, 4) == v,
{
    let v1 = bt_rest(v);
    let v2 = bt_rest(v1);
    let v3 = bt_rest(v2);
    let v4 = bt_rest(v3);
    assert(-40 <= v1 <= 40);
    assert(-13 <= v2 <= 13);
    assert(-4 <= v3 <= 4);
    assert(-1 <= v4 <= 1);
    assert(bt_digit(v, 1) == bt_low(v1)) by {
        assert(bt_digit(v, 1) == bt_digit(v1, 0));
    }
    assert(bt_digit(v, 2) == bt_low(v2)) by {
        assert(bt_digit(v, 2) == bt_digit(v1, 1));
        assert(bt_digit(v1, 1) == bt_digit(v2, 0));
    }
    assert(bt_digit(v, 3) == bt_low(v3)) by {
        assert(bt_digit(v, 3) == bt_digit(v1, 2));
        assert(bt_digit(v1, 2) == bt_digit(v2, 1));
        assert(bt_digit(v2, 1) == bt_digit(v3, 0));
    }
    assert(bt_digit(v, 4) == bt_low(v4)) by {
        assert(bt_digit(v, 4) == bt_digit(v1, 3));
        assert(bt_digit(v1, 3) == bt_digit(v2, 2));
        assert(bt_digit(v2, 2) == bt_digit(v3, 1));
        assert(bt_digit(v3, 1) == bt_digit(v4, 0));
    }
    assert forall|k: nat| k < 5 implies -1 <= #[trigger] bt_digit(v, k) <= 1 by {
        if k == 0 {
        } else if k == 1 {
        } else if k == 2 {
        } else if k == 3 {
        } else {
        }
    }
}

proof fn lemma_low_byte_bits(p: u8, q: u8, r: u8, s: u8)
    requires
        p == 0 || p == 0x80 || p == 0x40,
        q == 0 || q == 0x20 || q == 0x10,
        r == 0 || r == 0x04 || r == 0x08,
        s == 0 || s == 0x01 || s == 0x02,
    ensures
        ((p | q | r | s) & 0x80 != 0) == (p == 0x80),
        ((p | q | r | s) & 0x40 != 0) == (p == 0x40),
        ((p | q | r | s) & 0x20 != 0) == (q == 0x20),
        ((p | q | r | s) & 0x10 != 0) == (q == 0x10),
        ((p | q | r | s) & 0x04 != 0) == (r == 0x04),
        ((p | q | r | s) & 0x08 != 0) == (r == 0x08),
        ((p | q | r | s) & 0x01 != 0) == (s == 0x01),
        ((p | q | r | s) & 0x02 != 0) == (s == 0x02),
{
    assert(((p | q | r | s) & 0x80 != 0) == (p == 0x80)) by (bit_vector)
        requires
            p == 0 || p == 0x80 || p == 0x40,
            q == 0 || q == 0x20 || q == 0x10,
            r == 0 || r == 0x04 || r == 0x08,
            s == 0 || s == 0x01 || s == 0x02,
    ;
    assert(((p | q | r | s) & 0x40 != 0) == (p == 0x40)) by (bit_vector)
        requires
            p == 0 || p == 0x80 || p == 0x40,
            q == 0 || q == 0x20 || q == 0x10,
            r == 0 || r == 0x04 || r == 0x08,
            s == 0 || s == 0x01 || s == 0x02,
    ;
    assert(((p | q | r | s) & 0x20 != 0) == (q == 0x20) && ((p | q | r | s) & 0x10 != 0) == (q
        == 0x10)) by (bit_vector)
        requires
            p == 0 || p == 0x80 || p == 0x40,
            q == 0 || q == 0x20 || q == 0x10,
            r == 0 || r == 0x04 || r == 0x08,
            s == 0 || s == 0x01 || s == 0x02,
    ;
    assert(((p | q | r | s) & 0x04 != 0) == (r == 0x04) && ((p | q | r | s) & 0x08 != 0) == (r
        == 0x08)) by (bit_vector)
        requires
            p == 0 || p == 0x80 || p == 0x40,
            q == 0 || q == 0x20 || q == 0x10,
            r == 0 || r == 0x04 || r == 0x08,
            s == 0 || s == 0x01 || s == 0x02,
    ;
    assert(((p | q | r | s) & 0x01 != 0) == (s == 0x01) && ((p | q | r | s) & 0x02 != 0) == (s
        == 0x02)) by (bit_vector)
        requires
            p == 0 || p == 0x80 || p == 0x40,
            q == 0 || q == 0x20 || q == 0x10,
            r == 0 || r == 0x04 || r == 0x08,
            s == 0 || s == 0x01 || s == 0x02,
    ;
}

proof fn lemma_high_byte_bits(c: u8, q: u8, r: u8)
    requires
        c == 0 || c == 0x80 || c == 0xC0,
        q == 0 || q == 0x20 || q == 0x10,
        r == 0 || r == 0x04 || r == 0x08,
    ensures
        ((0x03u8 | c | q | r) & 0x80 != 0) == (c != 0),
        ((0x03u8 | c | q | r) & 0x40 != 0) == (c == 0xC0),
        ((0x03u8 | c | q | r) & 0x20 != 0) == (q == 0x20),
        ((0x03u8 | c | q | r) & 0x10 != 0) == (q == 0x10),
        ((0x03u8 | c | q | r) & 0x04 != 0) == (r == 0x04),
        ((0x03u8 | c | q | r) & 0x08 != 0) == (r == 0x08),
{
    assert(((0x03u8 | c | q | r) & 0x80 != 0) == (c != 0) && ((0x03u8 | c | q | r) & 0x40 != 0)
        == (c == 0xC0)) by (bit_vector)
        requires
            c == 0 || c == 0x80 || c == 0xC0,
            q == 0 || q == 0x20 || q == 0x10,
            r == 0 || r == 0x04 || r == 0x08,
    ;
    assert(((0x03u8 | c | q | r) & 0x20 != 0) == (q == 0x20) && ((0x03u8 | c | q | r) & 0x10 != 0)
        == (q == 0x10)) by (bit_vector)
        requires
            c == 0 || c == 0x80 || c == 0xC0,
            q == 0 || q == 0x20 || q == 0x10,
            r == 0 || r == 0x04 || r == 0x08,
    ;
    assert(((0x03u8 | c | q | r) & 0x04 != 0) == (r == 0x04) && ((0x03u8 | c | q | r) & 0x08 != 0)
        == (r == 0x08)) by (bit_vector)
        requires
            c == 0 || c == 0x80 || c == 0xC0,
            q == 0 || q == 0x20 || q == 0x10,
            r == 0 || r == 0x04 || r == 0x08,
    ;
}

/// Decoding the record written for a move recovers the move exactly, for
/// every displacement in `[-121, 121]` on both axes and every move type.
pub proof fn lemma_record_round_trip(dx: int, dy: int, t: MoveType)
    requires
        -121 <= dx <= 121,
        -121 <= dy <= 121,
    ensures
        decode_record(
            dst_record(dx, dy, t)[0],
            dst_record(dx, dy, t)[1],
            dst_record(dx, dy, t)[2],
        ) == (dx, dy, t),
{
    lemma_ternary_digits(dx);
    lemma_ternary_digits(dy);
    assert(-1 <= bt_digit(dx, 0) <= 1 && -1 <= bt_digit(dx, 1) <= 1 && -1 <= bt_digit(dx, 2) <= 1
        && -1 <= bt_digit(dx, 3) <= 1 && -1 <= bt_digit(dx, 4) <= 1);
    assert(-1 <= bt_digit(dy, 0) <= 1 && -1 <= bt_digit(dy, 1) <= 1 && -1 <= bt_digit(dy, 2) <= 1
        && -1 <= bt_digit(dy, 3) <= 1 && -1 <= bt_digit(dy, 4) <= 1);
    lemma_low_byte_bits(
        digit_bits_spec(bt_digit(dy, 0), 0x80, 0x40),
        digit_bits_spec(bt_digit(dy, 2), 0x20, 0x10),
        digit_bits_spec(bt_digit(dx, 0), 0x04, 0x08),
        digit_bits_spec(bt_digit(dx, 2), 0x01, 0x02),
    );
    lemma_low_byte_bits(
        digit_bits_spec(bt_digit(dy, 1), 0x80, 0x40),
        digit_bits_spec(bt_digit(dy, 3), 0x20, 0x10),
        digit_bits_spec(bt_digit(dx, 1), 0x04, 0x08),
        digit_bits_spec(bt_digit(dx, 3), 0x01, 0x02),
    );
    lemma_high_byte_bits(
        control_bits(t),
        digit_bits_spec(bt_digit(dy, 4), 0x20, 0x10),
        digit_bits_spec(bt_digit(dx, 4), 0x04, 0x08),
    );
}


/// Absolute value.
pub open spec fn abs(v: int) -> int {
    if v < 0 {
        -v
    } else {
        v
    }
}

/// `v` clamped to one record's reach, `[-121, 121]`.
pub open spec fn clamp_delta(v: int) -> int {
    if v > 121 {
        121
    } else if v < -121 {
        -121
    } else {
        v
    }
}

/// The records for one move: while either axis is beyond 121 units, a Jump
/// of the clamped step; then one record of the intended type with the rest.
pub open spec fn move_records(dx: int, dy: int, t: MoveType) -> Seq<u8>
    decreases abs(dx) + abs(dy),
{
    if abs(dx) > 121 || abs(dy) > 121 {
        dst_record(clamp_delta(dx), clamp_delta(dy), MoveType::Jump) + move_records(
            dx - clamp_delta(dx),
            dy - clamp_delta(dy),
            t,
        )
    } else {
        dst_record(dx, dy, t)
    }
}

/// Appends the records of a move of `(dx, dy)`, split into Jumps of at most
/// 121 units per axis before the final record of type `move_type`.
pub fn encode_move(dx: i64, dy: i64, move_type: MoveType, out: &mut Vec<u8>)
    requires
        -0x1_0000_0000 <= dx <= 0x1_0000_0000,
        -0x1_0000_0000 <= dy <= 0x1_0000_0000,
    ensures
        final(out)@ == old(out)@ + move_records(dx as int, dy as int, move_type),
{
    let mut remaining_dx = dx;
    let mut remaining_dy = dy;
    let ghost start = old(out)@;
    let limit = MAX_DELTA as i64;
    while remaining_dx > limit || remaining_dx < -limit || remaining_dy > limit || remaining_dy < -limit
        invariant
            limit == 121,
            -0x1_0000_0000 <= remaining_dx <= 0x1_0000_0000,
            -0x1_0000_0000 <= remaining_dy <= 0x1_0000_0000,
            out@ + move_records(remaining_dx as int, remaining_dy as int, move_type) == start
                + move_records(dx as int, dy as int, move_type),
        decreases abs(remaining_dx as int) + abs(remaining_dy as int),
    {
        let chunk_dx: i64 = if remaining_dx > limit {
            limit
        } else if remaining_dx < -limit {
            -limit
        } else {
            remaining_dx
        };
        let chunk_dy: i64 = if remaining_dy > limit {
            limit
        } else if remaining_dy < -limit {
            -limit
        } else {
            remaining_dy
        };
        let ghost before = out@;
        encode_3byte(chunk_dx as i32, chunk_dy as i32, MoveType::Jump, out);
        remaining_dx = remaining_dx - chunk_dx;
        remaining_dy = remaining_dy - chunk_dy;
        assert(out@ + move_records(remaining_dx as int, remaining_dy as int, move_type) == before
            + move_records(remaining_dx + chunk_dx, remaining_dy + chunk_dy, move_type));
    }
    encode_3byte(remaining_dx as i32, remaining_dy as i32, move_type, out);
}


/// The DST end-of-design marker.
pub open spec fn end_marker() -> Seq<u8> {
    seq![0x00u8, 0x00u8, 0xF3u8]
}

/// The trim idiom: three short Jumps with no net displacement.
pub open spec fn trim_records() -> Seq<u8> {
    dst_record(1, 1, MoveType::Jump) + dst_record(-2, -2, MoveType::Jump) + dst_record(
        1,
        1,
        MoveType::Jump,
    )
}

/// The bytes written for stitch `st` when the needle stands at `(px, py)`.
pub open spec fn stitch_records(px: int, py: int, st: UnitStitch) -> Seq<u8> {
    let dx = st.x - px;
    let dy = st.y - py;
    match st.stitch_type {
        ExportStitchType::Normal => move_records(dx, dy, MoveType::Stitch),
        ExportStitchType::Jump => move_records(dx, dy, MoveType::Jump),
        ExportStitchType::Trim => trim_records() + move_records(dx, dy, MoveType::Jump),
        ExportStitchType::ColorChange => move_records(dx, dy, MoveType::ColorChange),
        ExportStitchType::End => end_marker(),
    }
}

/// The needle position before stitch `i`: the origin, then each stitch's position.
pub open spec fn position_before(s: Seq<UnitStitch>, i: int) -> (int, int) {
    if i <= 0 {
        (0, 0)
    } else {
        (s[i - 1].x as int, s[i - 1].y as int)
    }
}

/// The records of the first `n` stitches.
pub open spec fn body_prefix(s: Seq<UnitStitch>, n: int) -> Seq<u8>
    decreases n,
{
    if n <= 0 {
        Seq::empty()
    } else {
        body_prefix(s, n - 1) + stitch_records(
            position_before(s, n - 1).0,
            position_before(s, n - 1).1,
            s[n - 1],
        )
    }
}

/// The whole DST body: every stitch's records, then an end marker unless the
/// stream already ends with `End`.
pub open spec fn dst_body(s: Seq<UnitStitch>) -> Seq<u8> {
    body_prefix(s, s.len() as int) + if needs_end(s) {
        end_marker()
    } else {
        Seq::empty()
    }
}

fn push_end_marker(out: &mut Vec<u8>)
    ensures
        final(out)@ == old(out)@ + end_marker(),
{
    out.push(0x00);
    out.push(0x00);
    out.push(0xF3);
    assert(out@ =~= old(out)@ + end_marker());
}

/// Appends the DST body of the design's stitches.
pub fn write_body(design: &UnitDesign, out: &mut Vec<u8>)
    ensures
        final(out)@ == old(out)@ + dst_body(design.stitches@),
{
    let s = &design.stitches;
    let ghost start = old(out)@;
    let mut prev_x: i32 = 0;
    let mut prev_y: i32 = 0;
    let mut i: usize = 0;
    while i < s.len()
        invariant
            i <= s@.len(),
            (prev_x as int, prev_y as int) == position_before(s@, i as int),
            out@ == start + body_prefix(s@, i as int),
        decreases s@.len() - i,
    {
        let st = s[i];
        let dx = st.x as i64 - prev_x as i64;
        let dy = st.y as i64 - prev_y as i64;
        let ghost before = out@;
        match st.stitch_type {
            ExportStitchType::Normal => {
                encode_move(dx, dy, MoveType::Stitch, out);
            },
            ExportStitchType::Jump => {
                encode_move(dx, dy, MoveType::Jump, out);
            },
            ExportStitchType::Trim => {
                encode_3byte(1, 1, MoveType::Jump, out);
                encode_3byte(-2, -2, MoveType::Jump, out);
                encode_3byte(1, 1, MoveType::Jump, out);
                encode_move(dx, dy, MoveType::Jump, out);
                assert(out@ =~= before + stitch_records(prev_x as int, prev_y as int, st));
            },
            ExportStitchType::ColorChange => {
                encode_move(dx, dy, MoveType::ColorChange, out);
            },
            ExportStitchType::End => {
                push_end_marker(out);
            },
        }
        assert(out@ == before + stitch_records(prev_x as int, prev_y as int, st));
        prev_x = st.x;
        prev_y = st.y;
        i = i + 1;
    }
    if s.len() == 0 || s[s.len() - 1].stitch_type != ExportStitchType::End {
        push_end_marker(out);
    } else {
        assert(out@ =~= start + dst_body(s@));
    }
}


/// DST header size in bytes when every field fits its width.
pub const HEADER_SIZE: usize = 512;

/// How far the design reaches below zero on an axis, as a magnitude.
pub open spec fn below_zero(v: int) -> nat {
    if v < 0 {
        (-v) as nat
    } else {
        0
    }
}

/// The label, stitch-count and color-change fields.
pub open spec fn count_fields(name: Seq<char>, s: Seq<UnitStitch>) -> Seq<u8> {
    let cr = seq![0x0Du8];
    utf8("LA:"@) + label_field(utf8(name)) + cr + utf8("ST:"@) + zero_padded(s.len(), 7) + cr
        + utf8("CO:"@) + zero_padded(color_change_total(s), 3) + cr
}

/// The two extent fields of one axis: how far the design reaches above
/// zero, and how far below.
pub open spec fn axis_fields(plus: Seq<char>, minus: Seq<char>, hi: int, lo: int) -> Seq<u8> {
    utf8(plus) + signed_zero_padded(hi, 5) + seq![0x0Du8] + utf8(minus) + zero_padded(
        below_zero(lo),
        5,
    ) + seq![0x0Du8]
}

/// The four extent fields, in 0.1 mm.
pub open spec fn extent_fields(s: Seq<UnitStitch>) -> Seq<u8> {
    axis_fields("+X:"@, "-X:"@, highest(s, false), lowest(s, false)) + axis_fields(
        "+Y:"@,
        "-Y:"@,
        highest(s, true),
        lowest(s, true),
    )
}

/// The fixed fields that close the header.
pub open spec fn fixed_fields() -> Seq<u8> {
    utf8("AX:+    0\rAY:+    0\rMX:+    0\rMY:+    0\rPD:******\r"@)
}

/// The header fields before padding.
pub open spec fn header_text(name: Seq<char>, s: Seq<UnitStitch>) -> Seq<u8> {
    count_fields(name, s) + extent_fields(s) + fixed_fields()
}

/// The header: its fields, space-padded to 512 bytes.
pub open spec fn dst_header(name: Seq<char>, s: Seq<UnitStitch>) -> Seq<u8> {
    let h = header_text(name, s);
    if h.len() < 512 {
        h + Seq::new((512 - h.len()) as nat, |i: int| 0x20u8)
    } else {
        h
    }
}

/// The whole DST file of a design.
pub open spec fn dst_file(name: Seq<char>, s: Seq<UnitStitch>) -> Seq<u8> {
    dst_header(name, s) + dst_body(s)
}

fn push_count_fields(design: &UnitDesign, out: &mut Vec<u8>)
    ensures
        final(out)@ == old(out)@ + count_fields(design.name@, design.stitches@),
{
    let ghost start = out@;
    push_str(out, "LA:");
    push_label(out, &design.name);
    out.push(0x0D);
    push_str(out, "ST:");
    push_zero_padded(out, design.stitches.len() as u64, 7);
    out.push(0x0D);
    let color_changes = design.color_change_count();
    push_str(out, "CO:");
    push_zero_padded(out, color_changes as u64, 3);
    out.push(0x0D);
    assert(out@ =~= start + count_fields(design.name@, design.stitches@));
}

fn push_axis_fields(out: &mut Vec<u8>, plus: &str, minus: &str, hi: i32, lo: i32)
    ensures
        final(out)@ == old(out)@ + axis_fields(plus@, minus@, hi as int, lo as int),
{
    let ghost start = out@;
    let below: i64 = if lo < 0 {
        -(lo as i64)
    } else {
        0
    };
    push_str(out, plus);
    push_signed_zero_padded(out, hi as i64, 5);
    out.push(0x0D);
    push_str(out, minus);
    push_zero_padded(out, below as u64, 5);
    out.push(0x0D);
    assert(out@ =~= start + axis_fields(plus@, minus@, hi as int, lo as int));
}

fn push_extent_fields(design: &UnitDesign, out: &mut Vec<u8>)
    ensures
        final(out)@ == old(out)@ + extent_fields(design.stitches@),
{
    let ghost start = out@;
    let (min_x, min_y, max_x, max_y) = design.extents();
    push_axis_fields(out, "+X:", "-X:", max_x, min_x);
    push_axis_fields(out, "+Y:", "-Y:", max_y, min_y);
    assert(out@ =~= start + extent_fields(design.stitches@));
}

/// Appends the DST header of the design.
pub fn write_header(design: &UnitDesign, out: &mut Vec<u8>)
    ensures
        final(out)@ == old(out)@ + dst_header(design.name@, design.stitches@),
{
    let ghost start = out@;
    let ghost h = header_text(design.name@, design.stitches@);
    let len0 = out.len();
    push_count_fields(design, out);
    push_extent_fields(design, out);
    push_str(out, "AX:+    0\rAY:+    0\rMX:+    0\rMY:+    0\rPD:******\r");
    assert(out@ =~= start + h);
    let mut k: usize = out.len() - len0;
    while k < HEADER_SIZE
        invariant
            h.len() <= k,
            k <= 512 || k == h.len(),
            out@ == start + h + Seq::new((k - h.len()) as nat, |j: int| 0x20u8),
        decreases 512 - k,
    {
        out.push(0x20);
        assert(out@ =~= start + h + Seq::new((k + 1 - h.len()) as nat, |j: int| 0x20u8));
        k = k + 1;
    }
    assert(out@ =~= start + dst_header(design.name@, design.stitches@));
}

/// Encodes a design as a DST file: the header, then the body.
pub fn export_dst(design: &UnitDesign) -> (r: Result<Vec<u8>, String>)
    ensures
        r is Ok,
        r matches Ok(bytes) && bytes@ == dst_file(design.name@, design.stitches@),
{
    let mut output: Vec<u8> = Vec::new();
    write_header(design, &mut output);
    write_body(design, &mut output);
    assert(output@ =~= dst_file(design.name@, design.stitches@));
    Ok(output)
}


proof fn lemma_move_records_len(dx: int, dy: int, t: MoveType)
    ensures
        move_records(dx, dy, t).len() % 3 == 0,
        move_records(dx, dy, t).len() >= 3,
    decreases abs(dx) + abs(dy),
{
    if abs(dx) > 121 || abs(dy) > 121 {
        lemma_move_records_len(dx - clamp_delta(dx), dy - clamp_delta(dy), t);
    }
}

proof fn lemma_body_prefix_len(s: Seq<UnitStitch>, n: int)
    requires
        n <= s.len(),
    ensures
        body_prefix(s, n).len() % 3 == 0,
    decreases n,
{
    if n > 0 {
        lemma_body_prefix_len(s, n - 1);
        let p = position_before(s, n - 1);
        lemma_move_records_len(s[n - 1].x - p.0, s[n - 1].y - p.1, MoveType::Stitch);
        lemma_move_records_len(s[n - 1].x - p.0, s[n - 1].y - p.1, MoveType::Jump);
        lemma_move_records_len(s[n - 1].x - p.0, s[n - 1].y - p.1, MoveType::ColorChange);
    }
}

/// Every DST body is a whole number of 3-byte records and ends with the
/// `00 00 F3` end marker.
pub proof fn lemma_dst_body_framing(s: Seq<UnitStitch>)
    ensures
        dst_body(s).len() % 3 == 0,
        dst_body(s).len() >= 3,
        dst_body(s).subrange(dst_body(s).len() - 3, dst_body(s).len() as int) == end_marker(),
{
    lemma_body_prefix_len(s, s.len() as int);
    let b = dst_body(s);
    if needs_end(s) {
        assert(b.subrange(b.len() - 3, b.len() as int) =~= end_marker());
    } else {
        let n = s.len() as int;
        lemma_body_prefix_len(s, n - 1);
        assert(b == body_prefix(s, n - 1) + end_marker());
        assert(b.subrange(b.len() - 3, b.len() as int) =~= end_marker());
    }
}

/// The moves a decoder reads from a run of records, three bytes each.
pub open spec fn decode_records(b: Seq<u8>) -> Seq<(int, int, MoveType)>
    decreases b.len(),
{
    if b.len() < 3 {
        Seq::empty()
    } else {
        seq![decode_record(b[0], b[1], b[2])] + decode_records(b.subrange(3, b.len() as int))
    }
}

/// The total x displacement of a run of moves.
pub open spec fn sum_dx(r: Seq<(int, int, MoveType)>) -> int
    decreases r.len(),
{
    if r.len() == 0 {
        0
    } else {
        r[0].0 + sum_dx(r.drop_first())
    }
}

/// The total y displacement of a run of moves.
pub open spec fn sum_dy(r: Seq<(int, int, MoveType)>) -> int
    decreases r.len(),
{
    if r.len() == 0 {
        0
    } else {
        r[0].1 + sum_dy(r.drop_first())
    }
}

/// The record type that carries a stitch command's own move.
pub open spec fn carried_type(t: ExportStitchType) -> MoveType {
    match t {
        ExportStitchType::Normal => MoveType::Stitch,
        ExportStitchType::ColorChange => MoveType::ColorChange,
        _ => MoveType::Jump,
    }
}

/// A run of decoded moves that performs `(dx, dy)` as a move of type `t`:
/// steps of at most 121 units per axis, Jumps but for the last, of type `t`.
pub open spec fn performs_move(r: Seq<(int, int, MoveType)>, dx: int, dy: int, t: MoveType) -> bool {
    &&& r.len() >= 1
    &&& sum_dx(r) == dx
    &&& sum_dy(r) == dy
    &&& r.last().2 == t
    &&& forall|i: int| 0 <= i < r.len() - 1 ==> (#[trigger] r[i]).2 == MoveType::Jump
    &&& forall|i: int| 0 <= i < r.len() ==> -121 <= (#[trigger] r[i]).0 <= 121 && -121 <= r[i].1 <= 121
}

proof fn lemma_decode_concat(a: Seq<u8>, b: Seq<u8>)
    requires
        a.len() % 3 == 0,
    ensures
        decode_records(a + b) == decode_records(a) + decode_records(b),
    decreases a.len(),
{
    if a.len() == 0 {
        assert(a + b =~= b);
        assert(decode_records(a) + decode_records(b) =~= decode_records(b));
    } else {
        let ab = a + b;
        assert(ab.subrange(3, ab.len() as int) =~= a.subrange(3, a.len() as int) + b);
        lemma_decode_concat(a.subrange(3, a.len() as int), b);
        assert(decode_records(ab) =~= decode_records(a) + decode_records(b));
    }
}

proof fn lemma_decode_one(dx: int, dy: int, t: MoveType)
    requires
        -121 <= dx <= 121,
        -121 <= dy <= 121,
    ensures
        decode_records(dst_record(dx, dy, t)) == seq![(dx, dy, t)],
{
    lemma_record_round_trip(dx, dy, t);
    let r = dst_record(dx, dy, t);
    assert(decode_records(r.subrange(3, 3)) =~= Seq::<(int, int, MoveType)>::empty());
    assert(decode_records(r) =~= seq![(dx, dy, t)]);
}

proof fn lemma_decode_move(dx: int, dy: int, t: MoveType)
    ensures
        performs_move(decode_records(move_records(dx, dy, t)), dx, dy, t),
    decreases abs(dx) + abs(dy),
{
    if abs(dx) > 121 || abs(dy) > 121 {
        let cx = clamp_delta(dx);
        let cy = clamp_delta(dy);
        lemma_decode_move(dx - cx, dy - cy, t);
        lemma_decode_one(cx, cy, MoveType::Jump);
        lemma_decode_concat(dst_record(cx, cy, MoveType::Jump), move_records(dx - cx, dy - cy, t));
        let rest = decode_records(move_records(dx - cx, dy - cy, t));
        let r = decode_records(move_records(dx, dy, t));
        assert(r == seq![(cx, cy, MoveType::Jump)] + rest);
        assert(r.drop_first() =~= rest);
        assert(r[0] == (cx, cy, MoveType::Jump));
        assert(sum_dx(r) == cx + sum_dx(rest));
        assert(sum_dy(r) == cy + sum_dy(rest));
        assert(r.last() == rest.last());
        assert forall|i: int| 0 <= i < r.len() - 1 implies (#[trigger] r[i]).2 == MoveType::Jump by {
            if i > 0 {
                assert(r[i] == rest[i - 1]);
            }
        }
        assert forall|i: int| 0 <= i < r.len() implies -121 <= (#[trigger] r[i]).0 <= 121 && -121
            <= r[i].1 <= 121 by {
            if i > 0 {
                assert(r[i] == rest[i - 1]);
            }
        }
    } else {
        lemma_decode_one(dx, dy, t);
        let r = decode_records(move_records(dx, dy, t));
        assert(r.drop_first() =~= Seq::<(int, int, MoveType)>::empty());
        assert(sum_dx(r) == dx + sum_dx(r.drop_first()));
        assert(sum_dy(r) == dy + sum_dy(r.drop_first()));
    }
}

/// Decoding the records written for one stitch gives back its move, in 0.1 mm,
/// up to chunking: steps of at most 121 units whose sum is the stitch's
/// displacement, all Jumps but the last, which carries the stitch's own type.
/// A Trim is preceded by the three zero-sum trim Jumps; `End` writes the end
/// marker.
pub proof fn lemma_stitch_round_trip(px: int, py: int, st: UnitStitch)
    ensures
        st.stitch_type == ExportStitchType::End ==> stitch_records(px, py, st) == end_marker(),
        st.stitch_type != ExportStitchType::End && st.stitch_type != ExportStitchType::Trim
            ==> performs_move(
            decode_records(stitch_records(px, py, st)),
            st.x - px,
            st.y - py,
            carried_type(st.stitch_type),
        ),
        st.stitch_type == ExportStitchType::Trim ==> decode_records(stitch_records(px, py, st))
            == seq![(1int, 1int, MoveType::Jump), (-2int, -2int, MoveType::Jump), (1int, 1int, MoveType::Jump)]
            + decode_records(move_records(st.x - px, st.y - py, MoveType::Jump)),
        st.stitch_type == ExportStitchType::Trim ==> performs_move(
            decode_records(move_records(st.x - px, st.y - py, MoveType::Jump)),
            st.x - px,
            st.y - py,
            MoveType::Jump,
        ),
{
    let dx = st.x - px;
    let dy = st.y - py;
    lemma_decode_move(dx, dy, carried_type(st.stitch_type));
    if st.stitch_type == ExportStitchType::Trim {
        let a = dst_record(1, 1, MoveType::Jump);
        let b = dst_record(-2, -2, MoveType::Jump);
        let m = move_records(dx, dy, MoveType::Jump);
        lemma_decode_one(1, 1, MoveType::Jump);
        lemma_decode_one(-2, -2, MoveType::Jump);
        assert(stitch_records(px, py, st) == a + (b + (a + m))) by {
            assert(stitch_records(px, py, st) =~= a + (b + (a + m)));
        }
        lemma_decode_concat(a, m);
        lemma_decode_concat(b, a + m);
        lemma_decode_concat(a, b + (a + m));
        assert(decode_records(stitch_records(px, py, st)) =~= seq![
            (1int, 1int, MoveType::Jump),
            (-2int, -2int, MoveType::Jump),
            (1int, 1int, MoveType::Jump),
        ] + decode_records(m));
    }
}


/// The decoded moves of the first `n` stitches, stitch by stitch.
pub open spec fn decoded_prefix(s: Seq<UnitStitch>, n: int) -> Seq<(int, int, MoveType)>
    decreases n,
{
    if n <= 0 {
        Seq::empty()
    } else {
        decoded_prefix(s, n - 1) + decode_records(
            stitch_records(position_before(s, n - 1).0, position_before(s, n - 1).1, s[n - 1]),
        )
    }
}

/// Decoding a whole DST body reads, stitch after stitch, exactly the moves
/// that each stitch's records decode to (see `lemma_stitch_round_trip`),
/// then the end marker's record.
pub proof fn lemma_body_round_trip(s: Seq<UnitStitch>, n: int)
    requires
        0 <= n <= s.len(),
    ensures
        decode_records(body_prefix(s, n)) == decoded_prefix(s, n),
    decreases n,
{
    if n == 0 {
        assert(decode_records(body_prefix(s, 0)) =~= Seq::<(int, int, MoveType)>::empty());
    } else {
        lemma_body_round_trip(s, n - 1);
        lemma_body_prefix_len(s, n - 1);
        let p = position_before(s, n - 1);
        lemma_decode_concat(body_prefix(s, n - 1), stitch_records(p.0, p.1, s[n - 1]));
    }
}

/// Reads every whole 3-byte record of `bytes`.
pub fn decode_body(bytes: &Vec<u8>) -> (r: Vec<(i32, i32, MoveType)>)
    ensures
        r@.len() == bytes@.len() / 3,
        forall|i: int|
            0 <= i < r@.len() ==> ((#[trigger] r@[i]).0 as int, r@[i].1 as int, r@[i].2)
                == decode_records(bytes@)[i],
{
    let mut r: Vec<(i32, i32, MoveType)> = Vec::new();
    let mut k: usize = 0;
    assert(bytes@.subrange(0, bytes@.len() as int) =~= bytes@);
    assert(Seq::new(r@.len(), |i: int| (r@[i].0 as int, r@[i].1 as int, r@[i].2)) + decode_records(
        bytes@,
    ) =~= decode_records(bytes@));
    while bytes.len() - k >= 3
        invariant
            k % 3 == 0,
            k <= bytes@.len(),
            r@.len() == k / 3,
            decode_records(bytes@) == {
                let done = Seq::new(r@.len(), |i: int| (r@[i].0 as int, r@[i].1 as int, r@[i].2));
                done + decode_records(bytes@.subrange(k as int, bytes@.len() as int))
            },
        decreases bytes@.len() - k,
    {
        let ghost rest = bytes@.subrange(k as int, bytes@.len() as int);
        let rec = decode_3byte(bytes[k], bytes[k + 1], bytes[k + 2]);
        let ghost before = r@;
        r.push(rec);
        assert(rest.subrange(3, rest.len() as int) =~= bytes@.subrange(k + 3, bytes@.len() as int));
        assert(decode_records(rest) == seq![decode_record(rest[0], rest[1], rest[2])]
            + decode_records(rest.subrange(3, rest.len() as int)));
        assert(Seq::new(r@.len(), |i: int| (r@[i].0 as int, r@[i].1 as int, r@[i].2)) =~= Seq::new(
            before.len(),
            |i: int| (before[i].0 as int, before[i].1 as int, before[i].2),
        ).push((rec.0 as int, rec.1 as int, rec.2)));
        k = k + 3;
        assert(decode_records(bytes@) =~= Seq::new(
            r@.len(),
            |i: int| (r@[i].0 as int, r@[i].1 as int, r@[i].2),
        ) + decode_records(bytes@.subrange(k as int, bytes@.len() as int)));
    }
    assert(decode_records(bytes@.subrange(k as int, bytes@.len() as int)) =~= Seq::<
        (int, int, MoveType),
    >::empty());
    assert(decode_records(bytes@) =~= Seq::new(
        r@.len(),
        |i: int| (r@[i].0 as int, r@[i].1 as int, r@[i].2),
    ));
    r
}


proof fn lemma_literal_len(s: &str, n: nat)
    requires
        vstd::utf8::is_ascii_chars(s@),
        s@.len() == n,
    ensures
        utf8(s@).len() == n,
{
    crate::text::lemma_ascii_bytes(s@);
}

/// When every field fits its width (fewer than 10^7 stitches, fewer than
/// 1000 color changes, extents within five digits), the DST header is
/// exactly 512 bytes, so the body starts at byte 512 of the file.
pub proof fn lemma_dst_header_fits(name: Seq<char>, s: Seq<UnitStitch>)
    requires
        s.len() < 10_000_000,
        color_change_total(s) < 1000,
        -10_000 < highest(s, false) < 100_000,
        -10_000 < highest(s, true) < 100_000,
        -100_000 < lowest(s, false),
        -100_000 < lowest(s, true),
    ensures
        dst_header(name, s).len() == 512,
        dst_file(name, s).subrange(512, dst_file(name, s).len() as int) == dst_body(s),
{
    reveal_strlit("LA:");
    reveal_strlit("ST:");
    reveal_strlit("CO:");
    reveal_strlit("+X:");
    reveal_strlit("-X:");
    reveal_strlit("+Y:");
    reveal_strlit("-Y:");
    reveal_strlit("AX:+    0\rAY:+    0\rMX:+    0\rMY:+    0\rPD:******\r");
    lemma_literal_len("LA:", 3);
    lemma_literal_len("ST:", 3);
    lemma_literal_len("CO:", 3);
    lemma_literal_len("+X:", 3);
    lemma_literal_len("-X:", 3);
    lemma_literal_len("+Y:", 3);
    lemma_literal_len("-Y:", 3);
    lemma_literal_len("AX:+    0\rAY:+    0\rMX:+    0\rMY:+    0\rPD:******\r", 50);
    reveal_with_fuel(crate::text::pow10, 8);
    assert(crate::text::pow10(3) == 1000 && crate::text::pow10(4) == 10000 && crate::text::pow10(5)
        == 100000 && crate::text::pow10(7) == 10000000);
    crate::text::lemma_zero_padded_len(s.len(), 7);
    crate::text::lemma_zero_padded_len(color_change_total(s), 3);
    crate::text::lemma_zero_padded_len(below_zero(lowest(s, false)), 5);
    crate::text::lemma_zero_padded_len(below_zero(lowest(s, true)), 5);
    let hx = highest(s, false);
    let hy = highest(s, true);
    if hx < 0 {
        crate::text::lemma_zero_padded_len((-hx) as nat, 4);
    } else {
        crate::text::lemma_zero_padded_len(hx as nat, 5);
    }
    if hy < 0 {
        crate::text::lemma_zero_padded_len((-hy) as nat, 4);
    } else {
        crate::text::lemma_zero_padded_len(hy as nat, 5);
    }
    let n = utf8(name);
    assert(label_field(n).len() == 16);
    assert(header_text(name, s).len() == 124);
    let f = dst_file(name, s);
    assert(f.subrange(512, f.len() as int) =~= dst_body(s));
}

} // verus!
