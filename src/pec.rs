//! PEC encoding: the stitch block that Brother machines execute, embedded in PES.
use vstd::prelude::*;

use crate::design::{
    color_change_total, label_field, needs_end, push_label, Color, ExportStitchType, UnitDesign,
    UnitStitch,
};
use crate::dst::abs;
use crate::text::{push_str, utf8};

verus! {

/// The PEC thread palette; index 0 is reserved, 1 through 64 are threads.
pub open spec fn pec_palette() -> Seq<(u8, u8, u8)> {
    seq![
        (0u8, 0u8, 0u8),  // 0: Unknown/padding
        (14u8, 31u8, 124u8),  // 1: Prussian Blue
        (10u8, 85u8, 163u8),  // 2: Blue
        (48u8, 135u8, 119u8),  // 3: Teal Green
        (75u8, 107u8, 175u8),  // 4: Cornflower Blue
        (237u8, 23u8, 31u8),  // 5: Red
        (209u8, 92u8, 0u8),  // 6: Reddish Brown
        (145u8, 54u8, 151u8),  // 7: Magenta
        (228u8, 154u8, 203u8),  // 8: Light Lilac
        (145u8, 95u8, 172u8),  // 9: Lilac
        (158u8, 214u8, 125u8),  // 10: Mint Green
        (232u8, 169u8, 0u8),  // 11: Deep Gold
        (254u8, 186u8, 53u8),  // 12: Orange
        (255u8, 255u8, 0u8),  // 13: Yellow
        (112u8, 188u8, 31u8),  // 14: Lime Green
        (186u8, 152u8, 0u8),  // 15: Brass
        (168u8, 168u8, 168u8),  // 16: Silver
        (125u8, 111u8, 0u8),  // 17: Russet Brown
        (255u8, 255u8, 179u8),  // 18: Cream Brown
        (79u8, 85u8, 86u8),  // 19: Pewter
        (0u8, 0u8, 0u8),  // 20: Black
        (11u8, 61u8, 145u8),  // 21: Ultramarine
        (119u8, 1u8, 118u8),  // 22: Royal Purple
        (41u8, 49u8, 51u8),  // 23: Dark Gray
        (42u8, 19u8, 1u8),  // 24: Dark Brown
        (246u8, 74u8, 138u8),  // 25: Deep Rose
        (178u8, 118u8, 36u8),  // 26: Light Brown
        (252u8, 187u8, 197u8),  // 27: Salmon Pink
        (254u8, 55u8, 15u8),  // 28: Vermillion
        (240u8, 240u8, 240u8),  // 29: White
        (106u8, 28u8, 138u8),  // 30: Violet
        (168u8, 221u8, 196u8),  // 31: Seacrest
        (37u8, 132u8, 187u8),  // 32: Sky Blue
        (254u8, 179u8, 67u8),  // 33: Pumpkin
        (255u8, 243u8, 107u8),  // 34: Cream Yellow
        (208u8, 166u8, 96u8),  // 35: Khaki
        (209u8, 84u8, 0u8),  // 36: Clay Brown
        (102u8, 186u8, 73u8),  // 37: Leaf Green
        (19u8, 74u8, 70u8),  // 38: Peacock Blue
        (135u8, 135u8, 135u8),  // 39: Gray
        (216u8, 204u8, 198u8),  // 40: Warm Gray
        (67u8, 86u8, 7u8),  // 41: Dark Olive
        (253u8, 217u8, 222u8),  // 42: Flesh Pink
        (249u8, 147u8, 188u8),  // 43: Pink
        (0u8, 56u8, 34u8),  // 44: Deep Green
        (178u8, 175u8, 212u8),  // 45: Lavender
        (104u8, 106u8, 176u8),  // 46: Wisteria Blue
        (239u8, 227u8, 185u8),  // 47: Beige
        (247u8, 56u8, 102u8),  // 48: Carmine
        (181u8, 76u8, 100u8),  // 49: Amber Red
        (19u8, 43u8, 26u8),  // 50: Olive Green
        (199u8, 1u8, 86u8),  // 51: Dark Fuschia
        (254u8, 158u8, 50u8),  // 52: Tangerine
        (168u8, 222u8, 235u8),  // 53: Light Blue
        (0u8, 103u8, 62u8),  // 54: Emerald Green
        (78u8, 41u8, 144u8),  // 55: Purple
        (47u8, 126u8, 32u8),  // 56: Moss Green
        (255u8, 204u8, 204u8),  // 57: Flesh Pink (alt)
        (255u8, 217u8, 17u8),  // 58: Harvest Gold
        (9u8, 91u8, 166u8),  // 59: Electric Blue
        (240u8, 249u8, 112u8),  // 60: Lemon Yellow
        (227u8, 243u8, 91u8),  // 61: Fresh Green
        (255u8, 153u8, 0u8),  // 62: Orange (alt)
        (255u8, 240u8, 141u8),  // 63: Cream Yellow (alt)
        (255u8, 200u8, 200u8),  // 64: Applique
    ]
}

fn palette_table() -> (t: Vec<(u8, u8, u8)>)
    ensures
        t@ == pec_palette(),
{
    let t: Vec<(u8, u8, u8)> = vec![
        (0, 0, 0),
        (14, 31, 124),
        (10, 85, 163),
        (48, 135, 119),
        (75, 107, 175),
        (237, 23, 31),
        (209, 92, 0),
        (145, 54, 151),
        (228, 154, 203),
        (145, 95, 172),
        (158, 214, 125),
        (232, 169, 0),
        (254, 186, 53),
        (255, 255, 0),
        (112, 188, 31),
        (186, 152, 0),
        (168, 168, 168),
        (125, 111, 0),
        (255, 255, 179),
        (79, 85, 86),
        (0, 0, 0),
        (11, 61, 145),
        (119, 1, 118),
        (41, 49, 51),
        (42, 19, 1),
        (246, 74, 138),
        (178, 118, 36),
        (252, 187, 197),
        (254, 55, 15),
        (240, 240, 240),
        (106, 28, 138),
        (168, 221, 196),
        (37, 132, 187),
        (254, 179, 67),
        (255, 243, 107),
        (208, 166, 96),
        (209, 84, 0),
        (102, 186, 73),
        (19, 74, 70),
        (135, 135, 135),
        (216, 204, 198),
        (67, 86, 7),
        (253, 217, 222),
        (249, 147, 188),
        (0, 56, 34),
        (178, 175, 212),
        (104, 106, 176),
        (239, 227, 185),
        (247, 56, 102),
        (181, 76, 100),
        (19, 43, 26),
        (199, 1, 86),
        (254, 158, 50),
        (168, 222, 235),
        (0, 103, 62),
        (78, 41, 144),
        (47, 126, 32),
        (255, 204, 204),
        (255, 217, 17),
        (9, 91, 166),
        (240, 249, 112),
        (227, 243, 91),
        (255, 153, 0),
        (255, 240, 141),
        (255, 200, 200),
    ];
    assert(t@ =~= pec_palette());
    t
}

/// Squared RGB distance from `(r, g, b)` to palette entry `i`.
pub open spec fn palette_distance(r: u8, g: u8, b: u8, i: int) -> int {
    let p = pec_palette()[i];
    (r - p.0) * (r - p.0) + (g - p.1) * (g - p.1) + (b - p.2) * (b - p.2)
}

/// The first palette index in `1..=k` at the smallest distance.
pub open spec fn nearest_upto(r: u8, g: u8, b: u8, k: int) -> int
    decreases k,
{
    if k <= 1 {
        1
    } else {
        let m = nearest_upto(r, g, b, k - 1);
        if palette_distance(r, g, b, k) < palette_distance(r, g, b, m) {
            k
        } else {
            m
        }
    }
}

/// The PEC palette index of the thread nearest to a color.
pub open spec fn pec_index(c: Color) -> u8 {
    nearest_upto(c.r, c.g, c.b, 64) as u8
}

/// The palette index in 1..=64 nearest to `(r, g, b)` by squared RGB
/// distance; the lowest such index on ties.
pub fn nearest_pec_color(r: u8, g: u8, b: u8) -> (idx: u8)
    ensures
        1 <= idx <= 64,
        idx as int == nearest_upto(r, g, b, 64),
        forall|j: int| 1 <= j <= 64 ==> palette_distance(r, g, b, idx as int) <= #[trigger] palette_distance(r, g, b, j),
        forall|j: int| 1 <= j < idx ==> palette_distance(r, g, b, idx as int) < #[trigger] palette_distance(r, g, b, j),
{
    let palette = palette_table();
    let ri = r as i32;
    let gi = g as i32;
    let bi = b as i32;
    let mut best_idx: u8 = 1;
    let mut best_dist: i32 = i32::MAX;
    let mut i: u8 = 1;
    while i <= 64
        invariant
            palette@ == pec_palette(),
            ri == r as i32,
            gi == g as i32,
            bi == b as i32,
            1 <= i <= 65,
            1 <= best_idx <= 64,
            i == 1 ==> best_dist == i32::MAX && best_idx == 1,
            i > 1 ==> best_idx < i && best_idx as int == nearest_upto(r, g, b, i - 1),
            i > 1 ==> best_dist == palette_distance(r, g, b, best_idx as int),
            forall|j: int| 1 <= j < i ==> best_dist <= #[trigger] palette_distance(r, g, b, j),
            forall|j: int| 1 <= j < best_idx ==> best_dist < #[trigger] palette_distance(r, g, b, j),
        decreases 65 - i,
    {
        let (pr, pg, pb) = palette[i as usize];
        let dr = ri - pr as i32;
        let dg = gi - pg as i32;
        let db = bi - pb as i32;
        assert(dr * dr <= 65025 && dg * dg <= 65025 && db * db <= 65025) by (nonlinear_arith)
            requires
                -255 <= dr <= 255,
                -255 <= dg <= 255,
                -255 <= db <= 255,
        ;
        assert(dr * dr >= 0 && dg * dg >= 0 && db * db >= 0) by (nonlinear_arith);
        let dist = dr * dr + dg * dg + db * db;
        assert(dist == palette_distance(r, g, b, i as int));
        if dist < best_dist {
            best_dist = dist;
            best_idx = i;
        }
        i = i + 1;
    }
    best_idx
}


/// The bytes of one axis of a PEC move: one 7-bit sign-magnitude byte for a
/// short non-jump move, else two bytes holding the clamped 12-bit two's
/// complement value, flagged long (0x80) and, for a jump, 0x10.
pub open spec fn pec_axis(v: int, jump: bool) -> Seq<u8> {
    if abs(v) < 64 && !jump {
        seq![(if v < 0 { v + 128 } else { v }) as u8]
    } else {
        let c = if v < -2048 {
            -2048
        } else if v > 2047 {
            2047
        } else {
            v
        };
        let u = if c < 0 {
            c + 4096
        } else {
            c
        };
        seq![(0x80 + u / 256 + if jump { 0x10int } else { 0 }) as u8, (u % 256) as u8]
    }
}

proof fn lemma_split_twelve_bits(u: u16, jump: bool)
    requires
        u < 4096,
    ensures
        (((u >> 8u16) & 0x0F) as u8 | 0x80u8) as int == 0x80 + u / 256,
        ((((u >> 8u16) & 0x0F) as u8 | 0x80u8) | 0x10u8) as int == 0x90 + u / 256,
        (u & 0xFF) as u8 as int == u % 256,
{
    assert(((u >> 8u16) & 0x0F) == u / 256) by (bit_vector)
        requires
            u < 4096,
    ;
    assert((u & 0xFF) == u % 256) by (bit_vector);
    let h = ((u >> 8u16) & 0x0F) as u8;
    assert(h < 16);
    assert((h | 0x80u8) == h + 0x80 && ((h | 0x80u8) | 0x10u8) == h + 0x90) by (bit_vector)
        requires
            h < 16,
    ;
}

/// Appends one axis of a PEC move.
pub fn encode_pec_axis(val: i64, is_jump: bool, out: &mut Vec<u8>)
    requires
        i64::MIN < val,
    ensures
        final(out)@ == old(out)@ + pec_axis(val as int, is_jump),
{
    let magnitude = if val < 0 {
        -val
    } else {
        val
    };
    if magnitude < 64 && !is_jump {
        if val < 0 {
            out.push((val + 128) as u8);
        } else {
            out.push(val as u8);
        }
    } else {
        let clamped: i64 = if val < -2048 {
            -2048
        } else if val > 2047 {
            2047
        } else {
            val
        };
        let unsigned_val: u16 = if clamped < 0 {
            (clamped + 4096) as u16
        } else {
            clamped as u16
        };
        proof {
            lemma_split_twelve_bits(unsigned_val, is_jump);
        }
        let mut high = ((unsigned_val >> 8) & 0x0F) as u8;
        high = high | 0x80;
        if is_jump {
            high = high | 0x10;
        }
        let low = (unsigned_val & 0xFF) as u8;
        out.push(high);
        out.push(low);
    }
    assert(out@ =~= old(out)@ + pec_axis(val as int, is_jump));
}

/// Appends a PEC move: the x axis, then the y axis.
pub fn encode_pec_stitch(dx: i64, dy: i64, is_jump: bool, out: &mut Vec<u8>)
    requires
        i64::MIN < dx,
        i64::MIN < dy,
    ensures
        final(out)@ == old(out)@ + pec_axis(dx as int, is_jump) + pec_axis(dy as int, is_jump),
{
    encode_pec_axis(dx, is_jump, out);
    encode_pec_axis(dy, is_jump, out);
}

/// The PEC bytes of stitch `st` when the needle stands at `(px, py)`.
pub open spec fn pec_stitch_bytes(px: int, py: int, st: UnitStitch) -> Seq<u8> {
    let dx = st.x - px;
    let dy = st.y - py;
    match st.stitch_type {
        ExportStitchType::Normal => pec_axis(dx, false) + pec_axis(dy, false),
        ExportStitchType::Jump => pec_axis(dx, true) + pec_axis(dy, true),
        ExportStitchType::Trim => pec_axis(dx, true) + pec_axis(dy, true),
        ExportStitchType::ColorChange => seq![0xFEu8, 0xB0u8] + if dx != 0 || dy != 0 {
            pec_axis(dx, false) + pec_axis(dy, false)
        } else {
            Seq::empty()
        },
        ExportStitchType::End => seq![0xFFu8],
    }
}

/// The PEC bytes of the first `n` stitches.
pub open spec fn pec_prefix(s: Seq<UnitStitch>, n: int) -> Seq<u8>
    decreases n,
{
    if n <= 0 {
        Seq::empty()
    } else {
        let p = crate::dst::position_before(s, n - 1);
        pec_prefix(s, n - 1) + pec_stitch_bytes(p.0, p.1, s[n - 1])
    }
}

/// The PEC stitch stream: every stitch's bytes, then `0xFF` unless the
/// stream already ends with `End`.
pub open spec fn pec_stream(s: Seq<UnitStitch>) -> Seq<u8> {
    pec_prefix(s, s.len() as int) + if needs_end(s) {
        seq![0xFFu8]
    } else {
        Seq::empty()
    }
}

/// Appends the PEC stitch stream of the design's stitches.
fn push_pec_stitches(design: &UnitDesign, out: &mut Vec<u8>)
    ensures
        final(out)@ == old(out)@ + pec_stream(design.stitches@),
{
    let s = &design.stitches;
    let ghost start = old(out)@;
    let mut prev_x: i32 = 0;
    let mut prev_y: i32 = 0;
    let mut i: usize = 0;
    while i < s.len()
        invariant
            i <= s@.len(),
            (prev_x as int, prev_y as int) == crate::dst::position_before(s@, i as int),
            out@ == start + pec_prefix(s@, i as int),
        decreases s@.len() - i,
    {
        let st = s[i];
        let dx = st.x as i64 - prev_x as i64;
        let dy = st.y as i64 - prev_y as i64;
        let ghost before = out@;
        match st.stitch_type {
            ExportStitchType::Normal => {
                encode_pec_stitch(dx, dy, false, out);
            },
            ExportStitchType::Jump | ExportStitchType::Trim => {
                encode_pec_stitch(dx, dy, true, out);
            },
            ExportStitchType::ColorChange => {
                out.push(0xFE);
                out.push(0xB0);
                if dx != 0 || dy != 0 {
                    encode_pec_stitch(dx, dy, false, out);
                }
                assert(out@ =~= before + pec_stitch_bytes(prev_x as int, prev_y as int, st));
            },
            ExportStitchType::End => {
                out.push(0xFF);
            },
        }
        assert(out@ =~= before + pec_stitch_bytes(prev_x as int, prev_y as int, st));
        prev_x = st.x;
        prev_y = st.y;
        i = i + 1;
    }
    if s.len() == 0 || s[s.len() - 1].stitch_type != ExportStitchType::End {
        out.push(0xFF);
    }
    assert(out@ =~= start + pec_stream(s@));
}


/// The PEC stitch stream of a design.
pub fn encode_pec_stitches(design: &UnitDesign) -> (data: Vec<u8>)
    ensures
        data@ == pec_stream(design.stitches@),
{
    let mut data: Vec<u8> = Vec::new();
    push_pec_stitches(design, &mut data);
    assert(data@ =~= pec_stream(design.stitches@));
    data
}

/// Size of the PEC label and color-list region before the stitch stream.
pub const PEC_COLOR_LIST_SIZE: usize = 463;

/// Palette index used for missing colors: black.
pub const PEC_BLACK: u8 = 20;

/// The number of color slots: one more than the color changes, at most 255.
pub open spec fn pec_color_slots(s: Seq<UnitStitch>) -> nat {
    if color_change_total(s) + 1 > 255 {
        255
    } else {
        color_change_total(s) + 1
    }
}

/// The label, the color count byte, the palette index of every design color
/// and black for the slots the design leaves empty.
pub open spec fn pec_color_list(name: Seq<char>, s: Seq<UnitStitch>, colors: Seq<Color>) -> Seq<u8> {
    let n = pec_color_slots(s);
    let missing: nat = if n > colors.len() {
        (n - colors.len()) as nat
    } else {
        0
    };
    utf8("LA:"@) + label_field(utf8(name)) + seq![0x0Du8] + Seq::new(12, |i: int| 0x20u8) + seq![
        (n - 1) as u8,
    ] + colors.map_values(|c: Color| pec_index(c)) + Seq::new(missing, |i: int| 20u8)
}

/// The PEC block: the color list space-padded to 463 bytes, then the stitch stream.
pub open spec fn pec_block(name: Seq<char>, s: Seq<UnitStitch>, colors: Seq<Color>) -> Seq<u8> {
    let head = pec_color_list(name, s, colors);
    let padded = if head.len() < 463 {
        head + Seq::new((463 - head.len()) as nat, |i: int| 0x20u8)
    } else {
        head
    };
    padded + pec_stream(s)
}

fn push_color_list(design: &UnitDesign, out: &mut Vec<u8>)
    ensures
        final(out)@ == old(out)@ + pec_color_list(design.name@, design.stitches@, design.colors@),
{
    let ghost start = out@;
    push_str(out, "LA:");
    push_label(out, &design.name);
    out.push(0x0D);
    let mut k: usize = 0;
    while k < 12
        invariant
            k <= 12,
            out@ == start + utf8("LA:"@) + label_field(utf8(design.name@)) + seq![0x0Du8]
                + Seq::new(k as nat, |i: int| 0x20u8),
        decreases 12 - k,
    {
        out.push(0x20);
        assert(out@ =~= start + utf8("LA:"@) + label_field(utf8(design.name@)) + seq![0x0Du8]
            + Seq::new((k + 1) as nat, |i: int| 0x20u8));
        k = k + 1;
    }
    let changes = design.color_change_count();
    let num_colors: u8 = if changes >= 254 {
        255
    } else {
        (changes + 1) as u8
    };
    out.push(num_colors - 1);
    let ghost lead = out@;
    let colors = &design.colors;
    let mut i: usize = 0;
    while i < colors.len()
        invariant
            i <= colors@.len(),
            out@ == lead + colors@.subrange(0, i as int).map_values(|c: Color| pec_index(c)),
        decreases colors@.len() - i,
    {
        let c = colors[i];
        let idx = nearest_pec_color(c.r, c.g, c.b);
        out.push(idx);
        assert(colors@.subrange(0, i + 1).map_values(|c: Color| pec_index(c)) =~= colors@.subrange(
            0,
            i as int,
        ).map_values(|c: Color| pec_index(c)).push(idx));
        i = i + 1;
    }
    assert(colors@.subrange(0, i as int) =~= colors@);
    let ghost listed = out@;
    let needed = num_colors as usize;
    let mut j: usize = colors.len();
    while j < needed
        invariant
            colors@.len() <= j,
            j <= needed || j == colors@.len(),
            out@ == listed + Seq::new((j - colors@.len()) as nat, |i: int| 20u8),
        decreases needed - j,
    {
        out.push(PEC_BLACK);
        assert(out@ =~= listed + Seq::new((j + 1 - colors@.len()) as nat, |i: int| 20u8));
        j = j + 1;
    }
    assert(out@ =~= start + pec_color_list(design.name@, design.stitches@, design.colors@));
}

/// The PEC block of a design.
pub fn write_pec_block(design: &UnitDesign) -> (pec: Vec<u8>)
    ensures
        pec@ == pec_block(design.name@, design.stitches@, design.colors@),
{
    let mut pec: Vec<u8> = Vec::new();
    push_color_list(design, &mut pec);
    let ghost head = pec@;
    let mut k: usize = pec.len();
    while k < PEC_COLOR_LIST_SIZE
        invariant
            head.len() <= k,
            k <= 463 || k == head.len(),
            pec@ == head + Seq::new((k - head.len()) as nat, |j: int| 0x20u8),
        decreases 463 - k,
    {
        pec.push(0x20);
        assert(pec@ =~= head + Seq::new((k + 1 - head.len()) as nat, |j: int| 0x20u8));
        k = k + 1;
    }
    push_pec_stitches(design, &mut pec);
    assert(pec@ =~= pec_block(design.name@, design.stitches@, design.colors@));
    pec
}

} // verus!
