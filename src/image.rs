use vstd::prelude::*;
use crate::color_table::ColorTable;

verus! {

/// Size in bytes of the palette region: 255 entries of three bytes.
pub const PALETTE_BYTES: usize = 765;

/// Size in bytes of the palette region and the two dimensions.
pub const HEADER_BYTES: usize = 773;

/// Why a container could not be written or read.
#[derive(Debug, Clone, Copy, PartialEq, Eq, Structural)]
pub enum CodecError {
    /// The stream ends before the 765 bytes of the palette.
    TruncatedPalette,
    /// The stream ends inside the width or the height.
    TruncatedHeader,
    /// The stream holds fewer index bytes than width times height.
    TruncatedData,
    /// The index buffer's length is not width times height.
    SizeMismatch,
}

/// A palette-indexed image: one palette slot per pixel, row-major.
pub struct VanGoghImage {
    pub color_table: ColorTable,
    pub width: u32,
    pub height: u32,
    pub data: Vec<u8>,
}

/// The four bytes of `x`, most significant first.
pub open spec fn be_bytes(x: u32) -> Seq<u8> {
    seq![(x / 0x100_0000) as u8, ((x / 0x1_0000) % 256) as u8, ((x / 256) % 256) as u8, (x % 256) as u8]
}

/// The number that four bytes spell, most significant first.
pub open spec fn be_value(s: Seq<u8>) -> int {
    s[0] * 0x100_0000 + s[1] * 0x1_0000 + s[2] * 256 + s[3]
}

/// The palette flattened to `[r, g, b]` triples in slot order.
pub open spec fn palette_bytes(t: ColorTable) -> Seq<u8> {
    Seq::new(765, |i: int| t.0@[i / 3]@[i % 3])
}

/// The serialized form of `img`: palette, width, height, index buffer.
pub open spec fn container_bytes(img: VanGoghImage) -> Seq<u8> {
    palette_bytes(img.color_table) + be_bytes(img.width) + be_bytes(img.height) + img.data@
}

/// The width that a container stream declares.
pub open spec fn declared_width(s: Seq<u8>) -> int {
    be_value(s.subrange(765, 769))
}

/// The height that a container stream declares.
pub open spec fn declared_height(s: Seq<u8>) -> int {
    be_value(s.subrange(769, 773))
}

/// The error that reading stream `s` meets, if any.
pub open spec fn read_error(s: Seq<u8>) -> Option<CodecError> {
    if s.len() < 765 {
        Some(CodecError::TruncatedPalette)
    } else if s.len() < 773 {
        Some(CodecError::TruncatedHeader)
    } else if s.len() - 773 < declared_width(s) * declared_height(s) {
        Some(CodecError::TruncatedData)
    } else {
        None
    }
}

/// Whether `img` is what stream `s` holds; bytes past the index buffer are
/// not part of the image.
pub open spec fn parses_to(s: Seq<u8>, img: VanGoghImage) -> bool {
    &&& s.len() >= 773
    &&& img.width == declared_width(s)
    &&& img.height == declared_height(s)
    &&& s.len() - 773 >= img.width * img.height
    &&& forall|i: int| 0 <= i < 255 ==> #[trigger] img.color_table.0@[i]@ == s.subrange(3 * i, 3 * i + 3)
    &&& img.data@ == s.subrange(773, 773 + img.width * img.height)
}

/// `w * h`, which always fits in 64 bits.
pub fn pixel_count(w: u32, h: u32) -> (r: u64)
    ensures
        r == w * h,
{
    assert(w * h <= u32::MAX * u32::MAX) by (nonlinear_arith)
        requires
            w <= u32::MAX,
            h <= u32::MAX,
    ;
    w as u64 * h as u64
}

proof fn lemma_be_round_trip(x: u32)
    ensures
        be_value(be_bytes(x)) == x,
{
    let s = be_bytes(x);
    assert(s[0] == x / 0x100_0000);
    assert(s[1] == (x / 0x1_0000) % 256);
    assert(s[2] == (x / 256) % 256);
    assert(s[3] == x % 256);
    assert(be_value(s) == x) by (nonlinear_arith)
        requires
            s[0] == x / 0x100_0000,
            s[1] == (x / 0x1_0000) % 256,
            s[2] == (x / 256) % 256,
            s[3] == x % 256,
            be_value(s) == s[0] * 0x100_0000 + s[1] * 0x1_0000 + s[2] * 256 + s[3],
            x <= u32::MAX,
    ;
}

/// Reading what was written gives back the same palette, width, height and
/// index buffer.
pub proof fn lemma_container_round_trip(img: VanGoghImage)
    requires
        img.wf(),
    ensures
        read_error(container_bytes(img)) is None,
        parses_to(container_bytes(img), img),
{
    let s = container_bytes(img);
    let pb = palette_bytes(img.color_table);
    lemma_be_round_trip(img.width);
    lemma_be_round_trip(img.height);
    assert(s.subrange(765, 769) =~= be_bytes(img.width));
    assert(s.subrange(769, 773) =~= be_bytes(img.height));
    assert(s.subrange(773, 773 + img.width * img.height) =~= img.data@);
    assert forall|i: int| 0 <= i < 255 implies #[trigger] img.color_table.0@[i]@ == s.subrange(3 * i, 3 * i + 3) by {
        assert(pb[3 * i] == img.color_table.0@[i]@[0]);
        assert(pb[3 * i + 1] == img.color_table.0@[i]@[1]);
        assert(pb[3 * i + 2] == img.color_table.0@[i]@[2]);
        assert(img.color_table.0@[i]@ =~= s.subrange(3 * i, 3 * i + 3));
    }
}

/// A stream cut off before the end of the palette is always refused as a
/// truncated palette.
pub proof fn lemma_truncated_palette_refused(img: VanGoghImage, n: int)
    requires
        0 <= n < 765,
    ensures
        read_error(container_bytes(img).take(n)) == Some(CodecError::TruncatedPalette),
{
}

/// Appends the four bytes of `x`, most significant first.
fn push_be_u32(out: &mut Vec<u8>, x: u32)
    ensures
        final(out)@ == old(out)@ + be_bytes(x),
{
    out.push((x / 0x100_0000) as u8);
    out.push(((x / 0x1_0000) % 256) as u8);
    out.push(((x / 256) % 256) as u8);
    out.push((x % 256) as u8);
}

/// The number spelled by the four bytes at `at`, most significant first.
fn read_be_u32(bytes: &[u8], at: usize) -> (r: u32)
    requires
        at + 4 <= bytes@.len(),
    ensures
        r as int == be_value(bytes@.subrange(at as int, at + 4)),
{
    let b0 = bytes[at] as u32;
    let b1 = bytes[at + 1] as u32;
    let b2 = bytes[at + 2] as u32;
    let b3 = bytes[at + 3] as u32;
    b0 * 0x100_0000 + b1 * 0x1_0000 + b2 * 256 + b3
}

impl VanGoghImage {
    /// The index buffer holds one byte per pixel.
    pub open spec fn wf(&self) -> bool {
        self.data@.len() == self.width * self.height
    }

    /// Appends the serialized image to `out`; an index buffer whose length is
    /// not width times height is refused and nothing is written.
    pub fn write_to(&self, out: &mut Vec<u8>) -> (r: Result<(), CodecError>)
        ensures
            self.wf() ==> r is Ok && final(out)@ == old(out)@ + container_bytes(*self),
            !self.wf() ==> r == Err::<(), CodecError>(CodecError::SizeMismatch) && final(out)@ == old(out)@,
    {
        let size = pixel_count(self.width, self.height);
        if self.data.len() as u64 != size {
            return Err(CodecError::SizeMismatch);
        }
        let ghost start = out@;
        let mut i: usize = 0;
        while i < 255
            invariant
                i <= 255,
                out@ == start + palette_bytes(self.color_table).take(3 * i),
            decreases 255 - i,
        {
            let c = self.color_table.0[i];
            out.push(c[0]);
            out.push(c[1]);
            out.push(c[2]);
            proof {
                let pb = palette_bytes(self.color_table);
                assert(pb[3 * i] == c@[0]);
                assert(pb[3 * i + 1] == c@[1]);
                assert(pb[3 * i + 2] == c@[2]);
                assert(out@ =~= start + pb.take(3 * (i + 1)));
            }
            i += 1;
        }
        assert(palette_bytes(self.color_table).take(765) =~= palette_bytes(self.color_table));
        push_be_u32(out, self.width);
        push_be_u32(out, self.height);
        let ghost mid = out@;
        let mut j: usize = 0;
        while j < self.data.len()
            invariant
                j <= self.data@.len(),
                out@ == mid + self.data@.take(j as int),
            decreases self.data@.len() - j,
        {
            out.push(self.data[j]);
            assert(out@ =~= mid + self.data@.take(j + 1));
            j += 1;
        }
        assert(self.data@.take(self.data@.len() as int) =~= self.data@);
        assert(out@ =~= start + container_bytes(*self));
        Ok(())
    }

    /// Parses a serialized image from the start of `bytes`.
    pub fn read_from(bytes: &[u8]) -> (r: Result<VanGoghImage, CodecError>)
        ensures
            match r {
                Ok(img) => read_error(bytes@) is None && parses_to(bytes@, img) && img.wf(),
                Err(e) => read_error(bytes@) == Some(e),
            },
    {
        if bytes.len() < PALETTE_BYTES {
            return Err(CodecError::TruncatedPalette);
        }
        if bytes.len() < HEADER_BYTES {
            return Err(CodecError::TruncatedHeader);
        }
        let width = read_be_u32(bytes, 765);
        let height = read_be_u32(bytes, 769);
        let size = pixel_count(width, height);
        if ((bytes.len() - HEADER_BYTES) as u64) < size {
            return Err(CodecError::TruncatedData);
        }
        let mut table: [[u8; 3]; 255] = [[0u8; 3]; 255];
        let mut i: usize = 0;
        while i < 255
            invariant
                i <= 255,
                bytes@.len() >= 773,
                forall|k: int| 0 <= k < i ==> #[trigger] table@[k]@ == bytes@.subrange(3 * k, 3 * k + 3),
            decreases 255 - i,
        {
            table[i] = [bytes[3 * i], bytes[3 * i + 1], bytes[3 * i + 2]];
            assert(table@[i as int]@ =~= bytes@.subrange(3 * i, 3 * i + 3));
            i += 1;
        }
        let total = bytes.len();
        let size = size as usize;
        let mut data: Vec<u8> = Vec::new();
        let mut j: usize = 0;
        while j < size
            invariant
                j <= size,
                773 + size <= bytes@.len(),
                total == bytes@.len(),
                data@ == bytes@.subrange(773, 773 + j),
            decreases size - j,
        {
            data.push(bytes[HEADER_BYTES + j]);
            assert(data@ =~= bytes@.subrange(773, 773 + j + 1));
            j += 1;
        }
        Ok(VanGoghImage { color_table: ColorTable(table), width, height, data })
    }
}

} // verus!
