use vstd::prelude::*;
use crate::raw_image::RawImage;

verus! {

/// The channel value of grid level `l` (0..=4).
pub open spec fn level_value(l: int) -> u8 {
    if l <= 0 {
        0
    } else if l == 1 {
        64
    } else if l == 2 {
        128
    } else if l == 3 {
        191
    } else {
        255
    }
}

/// `round(c * 4 / 255)`; no value lies exactly half-way, so the rounding mode
/// never matters.
pub open spec fn level_of(c: int) -> int {
    (8 * c + 255) / 510
}

/// The palette index whose entry is the grid color nearest to `(r, g, b)`.
pub open spec fn nearest_index_of(r: int, g: int, b: int) -> int {
    level_of(r) * 25 + level_of(g) * 5 + level_of(b)
}

/// The color held by slot `i` of the generated palette.
pub open spec fn default_entry(i: int) -> Seq<u8> {
    if 0 <= i < 125 {
        seq![level_value(i / 25), level_value((i / 5) % 5), level_value(i % 5)]
    } else {
        seq![0u8, 0u8, 0u8]
    }
}

/// The channel value of grid level `l`.
pub fn level_to_value(l: u8) -> (r: u8)
    requires
        l < 5,
    ensures
        r == level_value(l as int),
{
    if l == 0 {
        0
    } else if l == 1 {
        64
    } else if l == 2 {
        128
    } else if l == 3 {
        191
    } else {
        255
    }
}

/// `round(c * 4 / 255)`, the grid level nearest to channel value `c`.
pub fn value_to_level(c: u8) -> (r: u8)
    ensures
        r as int == level_of(c as int),
        r < 5,
{
    ((8 * (c as u32) + 255) / 510) as u8
}

/// A palette of exactly 255 RGB entries.
#[derive(Debug, Clone, Copy)]
pub struct ColorTable(pub [[u8; 3]; 255]);

impl ColorTable {
    /// The colors of the table, each as an `[r, g, b]` sequence.
    pub open spec fn colors(&self) -> Seq<Seq<u8>> {
        Seq::new(255, |i: int| self.0@[i]@)
    }

    /// Whether this is the table that `generate_optimal` builds.
    pub open spec fn is_default(&self) -> bool {
        forall|i: int| 0 <= i < 255 ==> #[trigger] self.0@[i]@ == default_entry(i)
    }

    /// Wraps an array of the proper size.
    pub fn wrap(w: [[u8; 3]; 255]) -> (r: Self)
        ensures
            r.0 == w,
    {
        ColorTable(w)
    }

    /// The underlying array.
    pub fn inner(&self) -> (r: [[u8; 3]; 255])
        ensures
            r == self.0,
    {
        self.0
    }

    /// Builds the palette for `img`: a 5x5x5 grid over the levels
    /// 0, 64, 128, 191, 255, red slowest and blue fastest, in slots 0..125;
    /// the other slots are black.
    pub fn generate_optimal(_img: &RawImage) -> (r: Self)
        ensures
            r.is_default(),
    {
        let mut table: [[u8; 3]; 255] = [[0u8; 3]; 255];
        let mut i: usize = 0;
        while i < 125
            invariant
                i <= 125,
                forall|j: int| 0 <= j < i ==> #[trigger] table@[j]@ == default_entry(j),
                forall|j: int| i <= j < 255 ==> #[trigger] table@[j]@ == seq![0u8, 0u8, 0u8],
            decreases 125 - i,
        {
            let red = level_to_value((i / 25) as u8);
            let green = level_to_value(((i / 5) % 5) as u8);
            let blue = level_to_value((i % 5) as u8);
            table[i] = [red, green, blue];
            i += 1;
        }
        ColorTable(table)
    }

    /// The slot of the grid color nearest to `(red, green, blue)`: each channel
    /// is rounded to its nearest level on its own.
    pub fn find_index_nearest(&self, red: u8, green: u8, blue: u8) -> (r: u8)
        ensures
            r as int == nearest_index_of(red as int, green as int, blue as int),
            r < 125,
    {
        let red_ind = value_to_level(red);
        let green_ind = value_to_level(green);
        let blue_ind = value_to_level(blue);
        red_ind * 25 + green_ind * 5 + blue_ind
    }

    /// The color of slot `index`; indices of 255 and above address no slot.
    pub fn entry(&self, index: usize) -> (r: [u8; 3])
        requires
            index < 255,
        ensures
            r == self.0@[index as int],
    {
        self.0[index]
    }
}

} // verus!
