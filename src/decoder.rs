use vstd::prelude::*;
use crate::color_table::ColorTable;
use crate::encoder::encodes_to;
use crate::image::VanGoghImage;
use crate::raw_image::RawImage;

verus! {

/// The color that index `idx` stands for: its palette slot, or black for a
/// byte that addresses no slot.
pub open spec fn slot_color(t: ColorTable, idx: int) -> Seq<u8> {
    if 0 <= idx < 255 {
        t.0@[idx]@
    } else {
        seq![0u8, 0u8, 0u8]
    }
}

/// Whether `r` is what decoding `img` gives: the same dimensions, and each
/// pixel the color of its index.
pub open spec fn decodes_to(img: VanGoghImage, r: RawImage) -> bool {
    &&& r.wf()
    &&& r.width == img.width
    &&& r.height == img.height
    &&& forall|i: int|
        0 <= i < img.data@.len() ==> {
            let c = slot_color(img.color_table, #[trigger] img.data@[i] as int);
            r.red@[i] == c[0] && r.green@[i] == c[1] && r.blue@[i] == c[2]
        }
}

/// Encoding an image and decoding the result gives an image of the same
/// width and height.
pub proof fn lemma_round_trip_dimensions(img: RawImage, bs: int, e: VanGoghImage, d: RawImage)
    requires
        img.wf(),
        bs > 0,
        encodes_to(img, bs, e),
        decodes_to(e, d),
    ensures
        d.wf(),
        d.width == img.width,
        d.height == img.height,
{
}

/// Expands palette-indexed images back into RGB planes.
pub struct VanGoghDecoder;

impl VanGoghDecoder {
    /// Replaces each index by the color of its palette slot.
    pub fn decode(img: VanGoghImage) -> (r: RawImage)
        requires
            img.wf(),
        ensures
            decodes_to(img, r),
    {
        let n = img.data.len();
        let mut red: Vec<u8> = Vec::new();
        let mut green: Vec<u8> = Vec::new();
        let mut blue: Vec<u8> = Vec::new();
        let mut i: usize = 0;
        while i < n
            invariant
                n == img.data@.len(),
                i <= n,
                red@.len() == i,
                green@.len() == i,
                blue@.len() == i,
                forall|k: int|
                    0 <= k < i ==> {
                        let c = slot_color(img.color_table, #[trigger] img.data@[k] as int);
                        red@[k] == c[0] && green@[k] == c[1] && blue@[k] == c[2]
                    },
            decreases n - i,
        {
            let idx = img.data[i];
            if idx < 255 {
                let c = img.color_table.entry(idx as usize);
                red.push(c[0]);
                green.push(c[1]);
                blue.push(c[2]);
            } else {
                red.push(0);
                green.push(0);
                blue.push(0);
            }
            i += 1;
        }
        RawImage { red, green, blue, width: img.width, height: img.height }
    }
}

} // verus!
