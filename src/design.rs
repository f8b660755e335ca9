use vstd::prelude::*;

use crate::text::utf8;

verus! {

/// A stitch command for export.
#[derive(Debug, Clone, Copy, PartialEq, Eq, Structural)]
pub enum ExportStitchType {
    /// Needle penetration.
    Normal,
    /// Move without sewing.
    Jump,
    /// Cut the thread.
    Trim,
    /// Switch to the next thread.
    ColorChange,
    /// End of design.
    End,
}

/// An RGBA color, 8 bits per channel.
#[derive(Debug, Clone, Copy, PartialEq, Eq, Structural)]
pub struct Color {
    pub r: u8,
    pub g: u8,
    pub b: u8,
    pub a: u8,
}

impl Color {
    pub fn new(r: u8, g: u8, b: u8, a: u8) -> (c: Color)
        ensures
            c == (Color { r, g, b, a }),
    {
        Color { r, g, b, a }
    }
}


/// One stitch command with its position in 0.1 mm units.
#[derive(Debug, Clone, Copy, PartialEq, Eq, Structural)]
pub struct UnitStitch {
    pub x: i32,
    pub y: i32,
    pub stitch_type: ExportStitchType,
}

impl UnitStitch {
    pub fn new(x: i32, y: i32, stitch_type: ExportStitchType) -> (s: UnitStitch)
        ensures
            s == (UnitStitch { x, y, stitch_type }),
    {
        UnitStitch { x, y, stitch_type }
    }
}

/// A design ready for export: a name, the stitch stream in 0.1 mm units and
/// the thread colors in the order the color changes select them.
pub struct UnitDesign {
    pub name: String,
    pub stitches: Vec<UnitStitch>,
    pub colors: Vec<Color>,
}

/// The position of a stitch along one axis.
pub open spec fn coord(s: UnitStitch, on_y: bool) -> int {
    if on_y {
        s.y as int
    } else {
        s.x as int
    }
}

/// The smallest coordinate along one axis over the stream; 0 for an empty stream.
pub open spec fn lowest(s: Seq<UnitStitch>, on_y: bool) -> int
    decreases s.len(),
{
    if s.len() == 0 {
        0
    } else if s.len() == 1 {
        coord(s[0], on_y)
    } else {
        let m = lowest(s.drop_last(), on_y);
        let c = coord(s.last(), on_y);
        if c < m {
            c
        } else {
            m
        }
    }
}

/// The largest coordinate along one axis over the stream; 0 for an empty stream.
pub open spec fn highest(s: Seq<UnitStitch>, on_y: bool) -> int
    decreases s.len(),
{
    if s.len() == 0 {
        0
    } else if s.len() == 1 {
        coord(s[0], on_y)
    } else {
        let m = highest(s.drop_last(), on_y);
        let c = coord(s.last(), on_y);
        if c > m {
            c
        } else {
            m
        }
    }
}

/// The number of color-change commands in the stream.
pub open spec fn color_change_total(s: Seq<UnitStitch>) -> nat
    decreases s.len(),
{
    if s.len() == 0 {
        0
    } else {
        color_change_total(s.drop_last()) + if s.last().stitch_type == ExportStitchType::ColorChange {
            1nat
        } else {
            0nat
        }
    }
}

/// The 16-byte label field: the first 16 bytes of the name, space-padded.
pub open spec fn label_field(name: Seq<u8>) -> Seq<u8> {
    if name.len() >= 16 {
        name.subrange(0, 16)
    } else {
        name + Seq::new((16 - name.len()) as nat, |i: int| 0x20u8)
    }
}

/// Whether the stream needs an end marker appended: it is empty or its last
/// command is not `End`.
pub open spec fn needs_end(s: Seq<UnitStitch>) -> bool {
    s.len() == 0 || s.last().stitch_type != ExportStitchType::End
}

impl UnitDesign {
    pub fn new(name: String, stitches: Vec<UnitStitch>, colors: Vec<Color>) -> (d: UnitDesign)
        ensures
            d.name@ == name@,
            d.stitches@ == stitches@,
            d.colors@ == colors@,
    {
        UnitDesign { name, stitches, colors }
    }

    /// The number of color changes in the design.
    pub fn color_change_count(&self) -> (n: usize)
        ensures
            n == color_change_total(self.stitches@),
            n <= self.stitches@.len(),
    {
        let mut n: usize = 0;
        let mut i: usize = 0;
        while i < self.stitches.len()
            invariant
                i <= self.stitches@.len(),
                n == color_change_total(self.stitches@.subrange(0, i as int)),
                n <= i,
            decreases self.stitches@.len() - i,
        {
            assert(self.stitches@.subrange(0, i + 1).drop_last() == self.stitches@.subrange(
                0,
                i as int,
            ));
            if self.stitches[i].stitch_type == ExportStitchType::ColorChange {
                n = n + 1;
            }
            i = i + 1;
        }
        assert(self.stitches@.subrange(0, i as int) == self.stitches@);
        n
    }

    /// The bounding box of the stitch positions, `(min_x, min_y, max_x, max_y)`;
    /// all zero for an empty design.
    pub fn extents(&self) -> (r: (i32, i32, i32, i32))
        ensures
            r.0 == lowest(self.stitches@, false),
            r.1 == lowest(self.stitches@, true),
            r.2 == highest(self.stitches@, false),
            r.3 == highest(self.stitches@, true),
    {
        let s = &self.stitches;
        if s.len() == 0 {
            return (0, 0, 0, 0);
        }
        let mut min_x = s[0].x;
        let mut min_y = s[0].y;
        let mut max_x = s[0].x;
        let mut max_y = s[0].y;
        let mut i: usize = 1;
        while i < s.len()
            invariant
                1 <= i <= s@.len(),
                min_x == lowest(s@.subrange(0, i as int), false),
                min_y == lowest(s@.subrange(0, i as int), true),
                max_x == highest(s@.subrange(0, i as int), false),
                max_y == highest(s@.subrange(0, i as int), true),
            decreases s@.len() - i,
        {
            assert(s@.subrange(0, i + 1).drop_last() == s@.subrange(0, i as int));
            let p = s[i];
            if p.x < min_x {
                min_x = p.x;
            }
            if p.y < min_y {
                min_y = p.y;
            }
            if p.x > max_x {
                max_x = p.x;
            }
            if p.y > max_y {
                max_y = p.y;
            }
            i = i + 1;
        }
        assert(s@.subrange(0, i as int) == s@);
        (min_x, min_y, max_x, max_y)
    }
}

/// Appends the 16-byte label field of `name`.
pub fn push_label(out: &mut Vec<u8>, name: &String)
    ensures
        final(out)@ == old(out)@ + label_field(utf8(name@)),
{
    let bytes = name.as_str().as_bytes();
    let ghost start = out@;
    let ghost nb = utf8(name@);
    assert(bytes@ == nb);
    let mut i: usize = 0;
    while i < 16
        invariant
            i <= 16,
            bytes@ == nb,
            out@ == start + label_field(nb).subrange(0, i as int),
        decreases 16 - i,
    {
        let c: u8 = if i < bytes.len() {
            bytes[i]
        } else {
            0x20u8
        };
        assert(label_field(nb)[i as int] == c);
        out.push(c);
        assert(label_field(nb).subrange(0, i + 1) == label_field(nb).subrange(0, i as int).push(c));
        i = i + 1;
    }
    assert(label_field(nb).subrange(0, 16) == label_field(nb));
}

} // verus!
