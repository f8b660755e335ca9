//! PES v1 encoding: a CEmbOne and CSewSeg container around the PEC block.
use vstd::prelude::*;
use vstd::string::StringExecFns;

use crate::design::{
    color_change_total, highest, lowest, Color, UnitDesign, UnitStitch,
};
use crate::pec::{pec_block, pec_index, nearest_pec_color, write_pec_block};
use crate::text::{append_decimal, append_tenths, decimal_text, push_all, push_str, tenths_text, utf8};

verus! {

/// Most stitches a PES file can hold.
pub const MAX_PES_STITCH_COUNT: usize = 65535;

/// Largest coordinate magnitude a PES file can hold, in 0.1 mm.
pub const MAX_PES_COORDINATE: i32 = 32767;

/// Palette index written for a design without colors: black.
pub const DEFAULT_PEC_COLOR_BLACK: u16 = 20;

/// Two bytes, little-endian, of `v` taken modulo 2^16.
#[verifier::opaque]
pub open spec fn le16(v: int) -> Seq<u8> {
    let u = v % 65536;
    seq![(u % 256) as u8, (u / 256) as u8]
}

/// Four bytes, little-endian, of `v` taken modulo 2^32.
#[verifier::opaque]
pub open spec fn le32(v: int) -> Seq<u8> {
    let u = v % 0x1_0000_0000;
    seq![(u % 256) as u8, ((u / 256) % 256) as u8, ((u / 65536) % 256) as u8, (u / 16777216) as u8]
}

/// The identity affine `1, 0, 0, 1, 0, 0` as six little-endian IEEE-754 singles.
pub open spec fn identity_affine() -> Seq<u8> {
    seq![
        0x00u8, 0x00u8, 0x80u8, 0x3Fu8,
        0x00u8, 0x00u8, 0x00u8, 0x00u8,
        0x00u8, 0x00u8, 0x00u8, 0x00u8,
        0x00u8, 0x00u8, 0x80u8, 0x3Fu8,
        0x00u8, 0x00u8, 0x00u8, 0x00u8,
        0x00u8, 0x00u8, 0x00u8, 0x00u8,
    ]
}

/// The design extents `left, top, right, bottom`.
pub open spec fn extents_le(s: Seq<UnitStitch>) -> Seq<u8> {
    le16(lowest(s, false)) + le16(lowest(s, true)) + le16(highest(s, false)) + le16(highest(s, true))
}

/// The CEmbOne block: the extents twice, then the identity affine.
pub open spec fn cembone(s: Seq<UnitStitch>) -> Seq<u8> {
    extents_le(s) + extents_le(s) + identity_affine()
}

/// One `(block index, palette index)` pair per color.
pub open spec fn color_pairs(c: Seq<Color>) -> Seq<u8>
    decreases c.len(),
{
    if c.len() == 0 {
        Seq::empty()
    } else {
        color_pairs(c.drop_last()) + le16(c.len() - 1) + le16(pec_index(c.last()) as int)
    }
}

/// Every stitch position as a pair of 16-bit values.
pub open spec fn positions_le(s: Seq<UnitStitch>) -> Seq<u8>
    decreases s.len(),
{
    if s.len() == 0 {
        Seq::empty()
    } else {
        positions_le(s.drop_last()) + le16(s.last().x as int) + le16(s.last().y as int)
    }
}

/// The CSewSeg block: the color count, the color pairs (black when there are
/// none), the stitch count and the positions.
pub open spec fn csewseg(s: Seq<UnitStitch>, colors: Seq<Color>) -> Seq<u8> {
    le16((color_change_total(s) + 1) as int) + color_pairs(colors) + (if colors.len() == 0 {
        le16(0) + le16(20)
    } else {
        Seq::empty()
    }) + le16(s.len() as int) + positions_le(s)
}

/// Everything between the PEC offset field and the PEC block.
pub open spec fn pes_sections(s: Seq<UnitStitch>, colors: Seq<Color>) -> Seq<u8> {
    le16(1) + le16(1) + le16(1) + cembone(s) + csewseg(s, colors)
}

/// `#PES0001`.
pub open spec fn pes_magic() -> Seq<u8> {
    utf8("#PES0001"@)
}

/// Where the PEC block starts.
pub open spec fn pec_offset(s: Seq<UnitStitch>, colors: Seq<Color>) -> int {
    (pes_magic().len() + 4 + pes_sections(s, colors).len()) as int
}

/// The whole PES file of a design.
pub open spec fn pes_file(name: Seq<char>, s: Seq<UnitStitch>, colors: Seq<Color>) -> Seq<u8> {
    pes_magic() + le32(pec_offset(s, colors)) + pes_sections(s, colors) + pec_block(name, s, colors)
}

/// Whether every stitch position fits the PES coordinate range.
pub open spec fn pes_in_range(s: Seq<UnitStitch>) -> bool {
    &&& lowest(s, false) >= -32767
    &&& highest(s, false) <= 32767
    &&& lowest(s, true) >= -32767
    &&& highest(s, true) <= 32767
}

pub open spec fn too_many_stitches_message(count: nat) -> Seq<char> {
    "PES format supports at most 65535 stitches, design has "@ + decimal_text(count)
}

pub open spec fn coordinate_range_message(s: Seq<UnitStitch>) -> Seq<char> {
    "PES format coordinate range is +/-3276.7mm, design extents are ("@ + tenths_text(
        lowest(s, false),
    ) + ", "@ + tenths_text(lowest(s, true)) + ") to ("@ + tenths_text(highest(s, false)) + ", "@
        + tenths_text(highest(s, true)) + ")"@
}

proof fn lemma_le16_bits(v: u16)
    ensures
        (v & 0xFF) as u8 as int == (v as int) % 256,
        ((v >> 8u16) & 0xFF) as u8 as int == ((v as int) / 256) % 256,
{
    assert((v & 0xFF) == v % 256) by (bit_vector);
    assert(((v >> 8u16) & 0xFF) == (v / 256) % 256) by (bit_vector);
}

/// Appends `val` as two little-endian bytes.
pub fn write_u16_le(out: &mut Vec<u8>, val: u16)
    ensures
        final(out)@ == old(out)@ + le16(val as int),
{
    proof {
        lemma_le16_bits(val);
        reveal(le16);
    }
    out.push((val & 0xFF) as u8);
    out.push(((val >> 8) & 0xFF) as u8);
    assert(out@ =~= old(out)@ + le16(val as int));
}

/// Appends `val` as two little-endian bytes of two's complement.
pub fn write_s16_le(out: &mut Vec<u8>, val: i16)
    ensures
        final(out)@ == old(out)@ + le16(val as int),
{
    let u: u16 = if val < 0 {
        (val as i32 + 65536) as u16
    } else {
        val as u16
    };
    assert(u as int == (val as int) % 65536);
    write_u16_le(out, u);
    assert(le16(u as int) =~= le16(val as int)) by {
        reveal(le16);
    }
}


/// Appends the low 16 bits of `v`, little-endian.
fn write_low16(out: &mut Vec<u8>, v: i64)
    ensures
        final(out)@ == old(out)@ + le16(v as int),
{
    let u = ((v % 65536) + 65536) % 65536;
    assert(u == (v as int) % 65536);
    write_u16_le(out, u as u16);
    assert(le16(u as int) =~= le16(v as int)) by {
        reveal(le16);
    }
}

/// Appends the low 32 bits of `v`, little-endian.
fn write_low32(out: &mut Vec<u8>, v: u64)
    ensures
        final(out)@ == old(out)@ + le32(v as int),
{
    let u = v % 0x1_0000_0000;
    reveal(le32);
    out.push((u % 256) as u8);
    out.push(((u / 256) % 256) as u8);
    out.push(((u / 65536) % 256) as u8);
    out.push((u / 16777216) as u8);
    assert(out@ =~= old(out)@ + le32(v as int));
}

fn write_extents(out: &mut Vec<u8>, left: i16, top: i16, right: i16, bottom: i16)
    ensures
        final(out)@ == old(out)@ + le16(left as int) + le16(top as int) + le16(right as int) + le16(
            bottom as int,
        ),
{
    write_s16_le(out, left);
    write_s16_le(out, top);
    write_s16_le(out, right);
    write_s16_le(out, bottom);
}

/// Appends the CEmbOne block.
fn write_cembone(out: &mut Vec<u8>, design: &UnitDesign)
    requires
        pes_in_range(design.stitches@),
    ensures
        final(out)@ == old(out)@ + cembone(design.stitches@),
{
    let ghost start = out@;
    let (min_x, min_y, max_x, max_y) = design.extents();
    let left = min_x as i16;
    let top = min_y as i16;
    let right = max_x as i16;
    let bottom = max_y as i16;
    write_extents(out, left, top, right, bottom);
    write_extents(out, left, top, right, bottom);
    let ghost before_affine = out@;
    let affine: [u8; 24] = [
        0x00, 0x00, 0x80, 0x3F,
        0x00, 0x00, 0x00, 0x00,
        0x00, 0x00, 0x00, 0x00,
        0x00, 0x00, 0x80, 0x3F,
        0x00, 0x00, 0x00, 0x00,
        0x00, 0x00, 0x00, 0x00,
    ];
    assert(affine@ =~= identity_affine());
    let mut i: usize = 0;
    while i < 24
        invariant
            i <= 24,
            affine@ == identity_affine(),
            out@ == before_affine + identity_affine().subrange(0, i as int),
        decreases 24 - i,
    {
        out.push(affine[i]);
        assert(identity_affine().subrange(0, i + 1) =~= identity_affine().subrange(0, i as int).push(
            affine@[i as int],
        ));
        i = i + 1;
    }
    assert(identity_affine().subrange(0, 24) =~= identity_affine());
    assert(out@ =~= start + cembone(design.stitches@));
}

/// Appends the CSewSeg block.
fn write_csewseg(out: &mut Vec<u8>, design: &UnitDesign)
    requires
        design.stitches@.len() <= 65535,
    ensures
        final(out)@ == old(out)@ + csewseg(design.stitches@, design.colors@),
{
    let ghost start = out@;
    let s = &design.stitches;
    let colors = &design.colors;
    let changes = design.color_change_count();
    write_low16(out, changes as i64 + 1);
    let ghost lead = out@;
    let mut i: usize = 0;
    while i < colors.len()
        invariant
            i <= colors@.len(),
            out@ == lead + color_pairs(colors@.subrange(0, i as int)),
        decreases colors@.len() - i,
    {
        let c = colors[i];
        let ghost before = out@;
        assert(colors@.subrange(0, i + 1).drop_last() =~= colors@.subrange(0, i as int));
        write_low16(out, (i % 65536) as i64);
        assert(le16((i % 65536) as int) == le16(i as int)) by {
            reveal(le16);
        }
        let idx = nearest_pec_color(c.r, c.g, c.b);
        write_u16_le(out, idx as u16);
        assert(pec_index(c) == idx);
        assert(before == lead + color_pairs(colors@.subrange(0, i as int)));
        assert(out@ == before + le16(i as int) + le16(pec_index(c) as int));
        assert(color_pairs(colors@.subrange(0, i + 1)) == color_pairs(colors@.subrange(0, i as int))
            + le16(i as int) + le16(pec_index(c) as int));
        assert(out@ =~= lead + color_pairs(colors@.subrange(0, i + 1)));
        i = i + 1;
    }
    assert(colors@.subrange(0, i as int) =~= colors@);
    let ghost paired = out@;
    if colors.len() == 0 {
        write_u16_le(out, 0);
        write_u16_le(out, DEFAULT_PEC_COLOR_BLACK);
    }
    assert(out@ =~= paired + (if colors@.len() == 0 {
        le16(0) + le16(20)
    } else {
        Seq::empty()
    }));
    write_u16_le(out, s.len() as u16);
    let ghost counted = out@;
    let mut k: usize = 0;
    while k < s.len()
        invariant
            k <= s@.len(),
            out@ == counted + positions_le(s@.subrange(0, k as int)),
        decreases s@.len() - k,
    {
        let st = s[k];
        assert(s@.subrange(0, k + 1).drop_last() =~= s@.subrange(0, k as int));
        write_low16(out, st.x as i64);
        write_low16(out, st.y as i64);
        assert(out@ =~= counted + positions_le(s@.subrange(0, k + 1)));
        k = k + 1;
    }
    assert(s@.subrange(0, k as int) =~= s@);
    assert(out@ =~= start + csewseg(s@, colors@));
}

proof fn lemma_magic_len()
    ensures
        pes_magic().len() == 8,
{
    reveal_strlit("#PES0001");
    crate::text::lemma_ascii_bytes("#PES0001"@);
}

fn too_many_stitches(count: usize) -> (m: String)
    ensures
        m@ == too_many_stitches_message(count as nat),
{
    let mut m = String::from_str("PES format supports at most 65535 stitches, design has ");
    append_decimal(&mut m, count as u64);
    m
}

fn coordinate_out_of_range(design: &UnitDesign) -> (m: String)
    ensures
        m@ == coordinate_range_message(design.stitches@),
{
    let (min_x, min_y, max_x, max_y) = design.extents();
    let mut m = String::from_str("PES format coordinate range is +/-3276.7mm, design extents are (");
    append_tenths(&mut m, min_x);
    m.append(", ");
    append_tenths(&mut m, min_y);
    m.append(") to (");
    append_tenths(&mut m, max_x);
    m.append(", ");
    append_tenths(&mut m, max_y);
    m.append(")");
    m
}

fn write_sections(design: &UnitDesign) -> (sections: Vec<u8>)
    requires
        design.stitches@.len() <= 65535,
        pes_in_range(design.stitches@),
    ensures
        sections@ == pes_sections(design.stitches@, design.colors@),
{
    let mut sections: Vec<u8> = Vec::new();
    write_u16_le(&mut sections, 1);  // 130x180 mm hoop
    write_u16_le(&mut sections, 1);  // use the existing design area
    write_u16_le(&mut sections, 1);  // one segment block
    write_cembone(&mut sections, design);
    write_csewseg(&mut sections, design);
    assert(sections@ =~= pes_sections(design.stitches@, design.colors@));
    sections
}

fn assemble_pes(design: &UnitDesign) -> (output: Vec<u8>)
    requires
        design.stitches@.len() <= 65535,
        pes_in_range(design.stitches@),
    ensures
        output@ == pes_file(design.name@, design.stitches@, design.colors@),
{
    let sections = write_sections(design);
    let mut output: Vec<u8> = Vec::new();
    push_str(&mut output, "#PES0001");
    proof {
        lemma_magic_len();
    }
    let offset: u64 = (sections.len() as u64 % 0x1_0000_0000) + 12;
    write_low32(&mut output, offset);
    assert(le32(offset as int) == le32(pec_offset(design.stitches@, design.colors@))) by {
        reveal(le32);
        assert((offset as int) % 0x1_0000_0000 == (12 + sections@.len()) % 0x1_0000_0000);
    }
    push_all(&mut output, &sections);
    let pec = write_pec_block(design);
    push_all(&mut output, &pec);
    assert(output@ =~= pes_file(design.name@, design.stitches@, design.colors@));
    output
}

/// Encodes a design as a PES file, or reports why PES cannot hold it: more
/// than 65535 stitches, or a position beyond 32767 units (3276.7 mm) from
/// the origin on either axis.
pub fn export_pes(design: &UnitDesign) -> (r: Result<Vec<u8>, String>)
    ensures
        design.stitches@.len() > 65535 ==> (r matches Err(m) && m@ == too_many_stitches_message(
            design.stitches@.len(),
        )),
        design.stitches@.len() <= 65535 && !pes_in_range(design.stitches@) ==> (r matches Err(m)
            && m@ == coordinate_range_message(design.stitches@)),
        design.stitches@.len() <= 65535 && pes_in_range(design.stitches@) ==> (r matches Ok(b)
            && b@ == pes_file(design.name@, design.stitches@, design.colors@)),
{
    let count = design.stitches.len();
    if count > MAX_PES_STITCH_COUNT {
        return Err(too_many_stitches(count));
    }
    let (min_x, min_y, max_x, max_y) = design.extents();
    if min_x < -MAX_PES_COORDINATE || max_x > MAX_PES_COORDINATE || min_y < -MAX_PES_COORDINATE
        || max_y > MAX_PES_COORDINATE {
        return Err(coordinate_out_of_range(design));
    }
    Ok(assemble_pes(design))
}


proof fn lemma_label_prefix_len()
    ensures
        utf8("LA:"@).len() == 3,
{
    reveal_strlit("LA:");
    crate::text::lemma_ascii_bytes("LA:"@);
}

/// A PES file starts with `#PES0001`, and the little-endian value in bytes
/// 8 to 11 is where its PEC block starts, with `LA:` (whenever that offset
/// fits in 32 bits).
pub proof fn lemma_pes_layout(name: Seq<char>, s: Seq<UnitStitch>, colors: Seq<Color>)
    requires
        pec_offset(s, colors) < 0x1_0000_0000,
    ensures
        pes_file(name, s, colors).subrange(0, 8) == utf8("#PES0001"@),
        pes_file(name, s, colors)[8] + 256 * pes_file(name, s, colors)[9] + 65536 * pes_file(
            name,
            s,
            colors,
        )[10] + 16777216 * pes_file(name, s, colors)[11] == pec_offset(s, colors),
        pes_file(name, s, colors).subrange(pec_offset(s, colors), pec_offset(s, colors) + 3)
            == utf8("LA:"@),
{
    lemma_magic_len();
    lemma_label_prefix_len();
    reveal(le32);
    let f = pes_file(name, s, colors);
    let off = pec_offset(s, colors);
    let pre = pes_magic() + le32(off) + pes_sections(s, colors);
    let pec = pec_block(name, s, colors);
    assert(f == pre + pec);
    assert(pre.len() == off);
    assert(f.subrange(0, 8) =~= pes_magic());
    assert(f[8] == le32(off)[0] && f[9] == le32(off)[1] && f[10] == le32(off)[2] && f[11] == le32(
        off,
    )[3]);
    assert(le32(off)[0] + 256 * le32(off)[1] + 65536 * le32(off)[2] + 16777216 * le32(off)[3] == off)
        by (nonlinear_arith)
        requires
            0 <= off < 0x1_0000_0000,
            le32(off)[0] == off % 256,
            le32(off)[1] == (off / 256) % 256,
            le32(off)[2] == (off / 65536) % 256,
            le32(off)[3] == off / 16777216,
    ;
    let head = crate::pec::pec_color_list(name, s, colors);
    assert(pec.subrange(0, 3) == head.subrange(0, 3));
    assert(head.subrange(0, 3) =~= utf8("LA:"@));
    assert(f.subrange(off, off + 3) =~= pec.subrange(0, 3));
}


proof fn lemma_color_pairs_len(c: Seq<Color>)
    ensures
        color_pairs(c).len() == 4 * c.len(),
    decreases c.len(),
{
    reveal(le16);
    if c.len() > 0 {
        lemma_color_pairs_len(c.drop_last());
    }
}

proof fn lemma_positions_len(s: Seq<UnitStitch>)
    ensures
        positions_le(s).len() == 4 * s.len(),
    decreases s.len(),
{
    reveal(le16);
    if s.len() > 0 {
        lemma_positions_len(s.drop_last());
    }
}

/// The PEC block starts 62 bytes plus four per color (at least one) plus
/// four per stitch into a PES file.
pub proof fn lemma_pec_offset_value(s: Seq<UnitStitch>, colors: Seq<Color>)
    ensures
        pec_offset(s, colors) == 62 + 4 * (if colors.len() == 0 {
            1
        } else {
            colors.len() as int
        }) + 4 * s.len(),
{
    reveal(le16);
    lemma_magic_len();
    lemma_color_pairs_len(colors);
    lemma_positions_len(s);
}

} // verus!
