//! Pixel and color data model, and the shared canvas state: a dense grid of
//! optional colors paired with the ordered list of colored coordinates.

use vstd::prelude::*;

verus! {

/// Canvas width in pixels.
pub const WIDTH: usize = 1920;

/// Canvas height in pixels.
pub const HEIGHT: usize = 1080;

/// A coordinate on the canvas: x in [0, 1920), y in [0, 1080).
#[derive(Debug, Clone, Copy, PartialEq, Eq, Structural)]
pub struct Pixel(pub u16, pub u16);

impl Pixel {
    /// Builds a pixel from in-range coordinates.
    pub fn new(x: usize, y: usize) -> (r: Self)
        requires
            x < WIDTH,
            y < HEIGHT,
        ensures
            r.0 == x as u16,
            r.1 == y as u16,
    {
        Pixel(x as u16, y as u16)
    }

    /// True when both coordinates lie on the canvas.
    pub open spec fn in_bounds(self) -> bool {
        self.0 < WIDTH && self.1 < HEIGHT
    }
}

/// An opaque color as (red, green, blue) channel values.
#[derive(Debug, Clone, Copy, PartialEq, Eq, Structural)]
pub struct Color(pub u8, pub u8, pub u8);

impl Color {
    /// Builds a color from channel values below 256.
    pub fn new(r: &usize, g: &usize, b: &usize) -> (c: Self)
        requires
            *r < 256,
            *g < 256,
            *b < 256,
        ensures
            c.0 == *r as u8,
            c.1 == *g as u8,
            c.2 == *b as u8,
    {
        Color(*r as u8, *g as u8, *b as u8)
    }
}

/// True for an ASCII hexadecimal digit.
pub open spec fn is_hex_digit(c: char) -> bool {
    ('0' <= c && c <= '9') || ('a' <= c && c <= 'f') || ('A' <= c && c <= 'F')
}

/// Numeric value of one hexadecimal digit (0 for anything else).
pub open spec fn hex_digit_value(c: char) -> nat {
    if '0' <= c && c <= '9' {
        (c as nat - '0' as nat) as nat
    } else if 'a' <= c && c <= 'f' {
        (c as nat - 'a' as nat + 10) as nat
    } else if 'A' <= c && c <= 'F' {
        (c as nat - 'A' as nat + 10) as nat
    } else {
        0
    }
}

/// Value of a big-endian string of hexadecimal digits.
pub open spec fn hex_value(s: Seq<char>) -> nat
    decreases s.len(),
{
    if s.len() == 0 {
        0
    } else {
        hex_value(s.drop_last()) * 16 + hex_digit_value(s.last())
    }
}

/// A prefix of a hex string never exceeds the whole string's value.
proof fn lemma_hex_prefix_le(s: Seq<char>, i: int)
    requires
        0 <= i <= s.len(),
    ensures
        hex_value(s.take(i)) <= hex_value(s),
    decreases s.len(),
{
    if i < s.len() {
        let pre = s.drop_last();
        assert(s.take(i) =~= pre.take(i));
        lemma_hex_prefix_le(pre, i);
        assert(hex_value(s) == hex_value(pre) * 16 + hex_digit_value(s.last()));
        assert(hex_value(pre) * 16 >= hex_value(pre));
    } else {
        assert(s.take(i) =~= s);
    }
}

fn hex_digit(c: char) -> (r: u8)
    requires
        is_hex_digit(c),
    ensures
        r == hex_digit_value(c),
        r < 16,
{
    let code = c as u32;
    if '0' <= c && c <= '9' {
        (code - ('0' as u32)) as u8
    } else if 'a' <= c && c <= 'f' {
        (code - ('a' as u32) + 10) as u8
    } else {
        (code - ('A' as u32) + 10) as u8
    }
}

impl Color {
    /// Parses a color from a big-endian string of hexadecimal digits whose
    /// value fits a 64-bit word, such as `"FFD100"`; only the low 24 bits
    /// contribute, red highest.
    pub fn from_hex(hex: &str) -> (c: Self)
        requires
            1 <= hex@.len(),
            forall|i: int| 0 <= i < hex@.len() ==> is_hex_digit(#[trigger] hex@[i]),
            hex_value(hex@) <= u64::MAX,
        ensures
            c.0 == hex_value(hex@) / 0x10000 % 0x100,
            c.1 == hex_value(hex@) / 0x100 % 0x100,
            c.2 == hex_value(hex@) % 0x100,
    {
        let len = hex.unicode_len();
        let mut acc: u64 = 0;
        let mut i: usize = 0;
        while i < len
            invariant
                i <= len,
                len == hex@.len(),
                forall|j: int| 0 <= j < hex@.len() ==> is_hex_digit(#[trigger] hex@[j]),
                hex_value(hex@) <= u64::MAX,
                acc == hex_value(hex@.take(i as int)),
            decreases len - i,
        {
            let d = hex_digit(hex.get_char(i));
            proof {
                lemma_hex_prefix_le(hex@, i as int + 1);
                assert(hex@.take(i as int + 1).drop_last() =~= hex@.take(i as int));
            }
            acc = acc * 16 + (d as u64);
            i = i + 1;
        }
        proof {
            assert(hex@.take(len as int) =~= hex@);
        }
        let r = ((acc >> 16) & 0xff) as u8;
        let g = ((acc >> 8) & 0xff) as u8;
        let b = (acc & 0xff) as u8;
        proof {
            assert(((acc >> 16) & 0xff) as u8 == acc / 0x10000 % 0x100 && ((acc >> 8) & 0xff)
                as u8 == acc / 0x100 % 0x100 && (acc & 0xff) as u8 == acc % 0x100)
                by (bit_vector);
        }
        Color(r, g, b)
    }
}

/// The dense canvas table: one optional color per coordinate, stored
/// column by column (index `x * HEIGHT + y`).
pub struct PixelMap {
    pub cells: Vec<Option<Color>>,
}

impl PixelMap {
    /// The table holds exactly one cell per canvas coordinate.
    pub open spec fn wf(self) -> bool {
        self.cells@.len() == WIDTH * HEIGHT
    }

    /// The cell for coordinate (x, y).
    pub open spec fn spec_at(self, x: int, y: int) -> Option<Color> {
        self.cells@[x * (HEIGHT as int) + y]
    }

    /// Reads the cell for an in-range coordinate.
    pub fn get(&self, x: u16, y: u16) -> (r: Option<Color>)
        requires
            self.wf(),
            x < WIDTH,
            y < HEIGHT,
        ensures
            r == self.spec_at(x as int, y as int),
    {
        let idx: usize = (x as usize) * HEIGHT + (y as usize);
        self.cells[idx]
    }

    /// Writes the cell for an in-range coordinate.
    pub fn put(&mut self, x: u16, y: u16, v: Option<Color>)
        requires
            old(self).wf(),
            x < WIDTH,
            y < HEIGHT,
        ensures
            final(self).wf(),
            final(self).spec_at(x as int, y as int) == v,
            forall|a: int, b: int|
                0 <= a < WIDTH && 0 <= b < HEIGHT && !(a == x && b == y) ==> final(self).spec_at(
                    a,
                    b,
                ) == old(self).spec_at(a, b),
    {
        let idx: usize = (x as usize) * HEIGHT + (y as usize);
        self.cells.set(idx, v);
        proof {
            assert forall|a: int, b: int|
                0 <= a < WIDTH && 0 <= b < HEIGHT && !(a == x && b == y) implies self.spec_at(a, b)
                == old(self).spec_at(a, b) by {
                lemma_cell_index_injective(a, b, x as int, y as int);
            }
        }
    }
}

/// Distinct in-range coordinates occupy distinct cells.
proof fn lemma_cell_index_injective(a: int, b: int, x: int, y: int)
    requires
        0 <= a < WIDTH,
        0 <= b < HEIGHT,
        0 <= x < WIDTH,
        0 <= y < HEIGHT,
        a != x || b != y,
    ensures
        a * (HEIGHT as int) + b != x * (HEIGHT as int) + y,
{
    if a < x {
        vstd::arithmetic::mul::lemma_mul_inequality(a + 1, x, HEIGHT as int);
        vstd::arithmetic::mul::lemma_mul_is_distributive_add_other_way(HEIGHT as int, a, 1);
    } else if x < a {
        vstd::arithmetic::mul::lemma_mul_inequality(x + 1, a, HEIGHT as int);
        vstd::arithmetic::mul::lemma_mul_is_distributive_add_other_way(HEIGHT as int, x, 1);
    }
}

/// Allocates the empty canvas table, every cell unset.
pub fn create_empty_map_on_heap() -> (r: PixelMap)
    ensures
        r.wf(),
        forall|x: int, y: int|
            0 <= x < WIDTH && 0 <= y < HEIGHT ==> r.spec_at(x, y) is None,
{
    let total: usize = WIDTH * HEIGHT;
    let mut cells: Vec<Option<Color>> = Vec::with_capacity(total);
    let mut i: usize = 0;
    while i < total
        invariant
            i <= total,
            total == WIDTH * HEIGHT,
            cells@.len() == i,
            forall|j: int| 0 <= j < i ==> cells@[j] is None,
        decreases total - i,
    {
        cells.push(None);
        i = i + 1;
    }
    let r = PixelMap { cells };
    assert forall|x: int, y: int|
        0 <= x < WIDTH && 0 <= y < HEIGHT implies r.spec_at(x, y) is None by {
        vstd::arithmetic::mul::lemma_mul_inequality(x + 1, WIDTH as int, HEIGHT as int);
        vstd::arithmetic::mul::lemma_mul_is_distributive_add_other_way(HEIGHT as int, x, 1);
        vstd::arithmetic::mul::lemma_mul_nonnegative(x, HEIGHT as int);
    }
    r
}

/// A canvas table and pixel list that belong together: every listed
/// coordinate is on the canvas and has a color in the table.
pub open spec fn pair_wf(m: PixelMap, list: Seq<Pixel>) -> bool {
    m.wf() && forall|i: int|
        0 <= i < list.len() ==> (#[trigger] list[i]).in_bounds() && m.spec_at(
            list[i].0 as int,
            list[i].1 as int,
        ) is Some
}

/// The shared canvas state: the current (grid, pixel list) pair. Both parts
/// are always replaced together, never edited independently.
pub struct Task {
    pub map: PixelMap,
    pub data_pixels: Vec<Pixel>,
}

impl Task {
    /// The held pair is consistent.
    pub open spec fn wf(self) -> bool {
        pair_wf(self.map, self.data_pixels@)
    }

    /// The empty state: no pixel has a color yet.
    pub fn blank() -> (r: Self)
        ensures
            r.wf(),
            r.data_pixels@.len() == 0,
            forall|x: int, y: int|
                0 <= x < WIDTH && 0 <= y < HEIGHT ==> r.map.spec_at(x, y) is None,
    {
        Task { map: create_empty_map_on_heap(), data_pixels: Vec::new() }
    }

    /// Reads the color of a coordinate that is known to be set.
    pub fn get_colored_pixel(&self, p: &Pixel) -> (c: Color)
        requires
            self.wf(),
            p.in_bounds(),
            self.map.spec_at(p.0 as int, p.1 as int) is Some,
        ensures
            self.map.spec_at(p.0 as int, p.1 as int) == Some(c),
    {
        let cell = self.map.get(p.0, p.1);
        match cell {
            Some(c) => c,
            None => {
                proof {
                    assert(false);
                }
                Color(0, 0, 0)
            },
        }
    }

    /// Captures the current pair as one value: each listed coordinate paired
    /// eagerly with its color, so a full transmission pass needs no further
    /// access to the shared state.
    pub fn snapshot(&self) -> (r: Vec<(Pixel, Color)>)
        requires
            self.wf(),
        ensures
            r@.len() == self.data_pixels@.len(),
            forall|i: int|
                0 <= i < r@.len() ==> (#[trigger] r@[i]).0 == self.data_pixels@[i] && self.map.spec_at(
                    r@[i].0.0 as int,
                    r@[i].0.1 as int,
                ) == Some(r@[i].1),
    {
        let mut out: Vec<(Pixel, Color)> = Vec::new();
        let n = self.data_pixels.len();
        let mut i: usize = 0;
        while i < n
            invariant
                i <= n,
                n == self.data_pixels@.len(),
                self.wf(),
                out@.len() == i,
                forall|j: int|
                    0 <= j < i ==> (#[trigger] out@[j]).0 == self.data_pixels@[j] && self.map.spec_at(
                        out@[j].0.0 as int,
                        out@[j].0.1 as int,
                    ) == Some(out@[j].1),
            decreases n - i,
        {
            let p = self.data_pixels[i];
            let c = self.get_colored_pixel(&p);
            out.push((p, c));
            i = i + 1;
        }
        out
    }

    /// Substitutes the whole (grid, pixel list) pair in one step; the
    /// previous generation is discarded.
    pub fn replace(&mut self, new_map: PixelMap, new_list: Vec<Pixel>)
        requires
            pair_wf(new_map, new_list@),
        ensures
            final(self).wf(),
            final(self).map == new_map,
            final(self).data_pixels == new_list,
    {
        self.map = new_map;
        self.data_pixels = new_list;
    }
}

} // verus!
