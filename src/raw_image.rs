use vstd::prelude::*;
use crate::image::pixel_count;

verus! {

/// An RGB image held as three planes of bytes, row-major.
pub struct RawImage {
    pub red: Vec<u8>,
    pub green: Vec<u8>,
    pub blue: Vec<u8>,
    pub width: u32,
    pub height: u32,
}

/// How the samples of a PNG frame are laid out.
#[derive(Debug, Clone, Copy, PartialEq, Eq, Structural)]
pub enum PngColor {
    Grayscale,
    Rgb,
    Indexed,
    GrayscaleAlpha,
    Rgba,
}

/// The first frame of a PNG stream: its interleaved samples, size, sample
/// layout and bits per sample.
pub struct PngFrame {
    pub samples: Vec<u8>,
    pub width: u32,
    pub height: u32,
    pub color: PngColor,
    pub bit_depth: u8,
}

/// Why PNG data could not become planes, or planes PNG data.
#[derive(Debug, Clone, Copy, PartialEq, Eq, Structural)]
pub enum ImageError {
    /// The png crate refused the stream or the samples.
    Png,
    /// The frame is not 8-bit RGB or RGBA.
    UnsupportedFormat,
    /// The frame holds fewer samples than its size calls for.
    ShortFrame,
}

/// The first frame that png's decoder reads from a stream: samples, width,
/// height, sample layout and bits per sample; `None` where it refuses.
pub uninterp spec fn png_first_frame(bytes: Seq<u8>) -> Option<(Seq<u8>, u32, u32, PngColor, u8)>;

/// The stream that png's encoder writes for 8-bit RGB samples of the given
/// size; `None` where it refuses them.
pub uninterp spec fn png_rgb_stream(width: u32, height: u32, samples: Seq<u8>) -> Option<Seq<u8>>;

/// Relies on png's `Decoder::read_info`, `Reader::output_buffer_size` and
/// `Reader::next_frame`: decodes the first frame of `bytes`, with no
/// transformation of its samples.
#[verifier::external_body]
fn decode_png_frame(bytes: &[u8]) -> (r: Option<PngFrame>)
    ensures
        match r {
            Some(f) => png_first_frame(bytes@) == Some((f.samples@, f.width, f.height, f.color, f.bit_depth)),
            None => png_first_frame(bytes@) is None,
        },
{
    let mut reader = png::Decoder::new(bytes).read_info().ok()?;
    let mut samples = vec![0; reader.output_buffer_size()];
    let info = reader.next_frame(&mut samples).ok()?;
    let color = match info.color_type {
        png::ColorType::Grayscale => PngColor::Grayscale,
        png::ColorType::Rgb => PngColor::Rgb,
        png::ColorType::Indexed => PngColor::Indexed,
        png::ColorType::GrayscaleAlpha => PngColor::GrayscaleAlpha,
        png::ColorType::Rgba => PngColor::Rgba,
    };
    Some(PngFrame { samples, width: info.width, height: info.height, color, bit_depth: info.bit_depth as u8 })
}

/// Relies on png's `Encoder` (`write_header`, `write_image_data`, `finish`):
/// an 8-bit RGB PNG stream of the given size holding `samples`. The samples
/// must be exactly three per pixel, which keeps png's row-times-height size
/// computation in range.
#[verifier::external_body]
fn encode_png_rgb(width: u32, height: u32, samples: &[u8]) -> (r: Option<Vec<u8>>)
    requires
        samples@.len() == 3 * (width * height),
    ensures
        match r {
            Some(o) => png_rgb_stream(width, height, samples@) == Some(o@),
            None => png_rgb_stream(width, height, samples@) is None,
        },
{
    let mut out: Vec<u8> = Vec::new();
    let mut encoder = png::Encoder::new(&mut out, width, height);
    encoder.set_color(png::ColorType::Rgb);
    let mut writer = encoder.write_header().ok()?;
    writer.write_image_data(samples).ok()?;
    writer.finish().ok()?;
    Some(out)
}

/// The planes of `img` interleaved as `[r, g, b]` samples, pixel by pixel.
pub open spec fn rgb_samples(img: RawImage) -> Seq<u8> {
    Seq::new(
        3 * img.red@.len(),
        |i: int|
            if i % 3 == 0 {
                img.red@[i / 3]
            } else if i % 3 == 1 {
                img.green@[i / 3]
            } else {
                img.blue@[i / 3]
            },
    )
}

/// What a decoded frame becomes: only 8-bit RGB and RGBA frames with
/// enough samples give planes, RGBA laid over black.
pub open spec fn frame_planes(
    samples: Seq<u8>,
    width: u32,
    height: u32,
    color: PngColor,
    bit_depth: u8,
    r: Result<RawImage, ImageError>,
) -> bool {
    &&& (bit_depth != 8 || (color != PngColor::Rgb && color != PngColor::Rgba) ==> r
            == Err::<RawImage, ImageError>(ImageError::UnsupportedFormat))
    &&& (bit_depth == 8 && color == PngColor::Rgb ==> if samples.len() < 3 * (width
            * height) {
            r == Err::<RawImage, ImageError>(ImageError::ShortFrame)
        } else {
            r matches Ok(img) && img.wf() && img.width == width && img.height == height && forall|
                i: int,
            |
                0 <= i < width * height ==> #[trigger] img.red@[i] == samples[3 * i]
                    && img.green@[i] == samples[3 * i + 1] && img.blue@[i] == samples[3 * i + 2]
        })
    &&& (bit_depth == 8 && color == PngColor::Rgba ==> if samples.len() < 4 * (width * height) {
        r == Err::<RawImage, ImageError>(ImageError::ShortFrame)
    } else {
        r matches Ok(img) && img.wf() && img.width == width && img.height == height
            && (forall|i: int|
            0 <= i < width * height ==> #[trigger] img.red@[i] == over_black_value(samples[4 * i], samples[4 * i + 3]))
            && (forall|i: int|
            0 <= i < width * height ==> #[trigger] img.green@[i] == over_black_value(
                samples[4 * i + 1],
                samples[4 * i + 3],
            )) && (forall|i: int|
            0 <= i < width * height ==> #[trigger] img.blue@[i] == over_black_value(
                samples[4 * i + 2],
                samples[4 * i + 3],
            ))
    })
}

/// Channel value `c` under alpha `a`, laid over black: `c * a / 255`.
#[verifier::opaque]
pub open spec fn over_black_value(c: u8, a: u8) -> int {
    c * a / 255
}

/// Channel value `c` under alpha `a`, laid over black.
fn over_black(c: u8, a: u8) -> (r: u8)
    ensures
        r == over_black_value(c, a),
{
    assert(c * a <= 255 * 255) by (nonlinear_arith)
        requires
            c <= 255,
            a <= 255,
    ;
    proof {
        reveal(over_black_value);
        vstd::arithmetic::div_mod::lemma_div_is_ordered((c * a) as int, 255 * 255 as int, 255 as int);
    }
    (c as u32 * a as u32 / 255) as u8
}

impl RawImage {
    /// Each plane holds one byte per pixel.
    pub open spec fn wf(&self) -> bool {
        &&& self.red@.len() == self.width * self.height
        &&& self.green@.len() == self.width * self.height
        &&& self.blue@.len() == self.width * self.height
    }

    /// A black image of the given size.
    pub fn empty(width: u32, height: u32) -> (r: Self)
        requires
            width * height <= usize::MAX,
        ensures
            r.wf(),
            r.width == width,
            r.height == height,
            forall|i: int| 0 <= i < width * height ==> r.red@[i] == 0 && r.green@[i] == 0 && r.blue@[i] == 0,
    {
        let buf_len = (width as u64 * height as u64) as usize;
        RawImage { red: vec![0u8; buf_len], green: vec![0u8; buf_len], blue: vec![0u8; buf_len], width, height }
    }

    /// Splits interleaved `[r, g, b]` samples into planes.
    pub fn from_png_rgb(buf: &Vec<u8>, width: u32, height: u32) -> (r: Self)
        requires
            buf@.len() >= 3 * (width * height),
        ensures
            r.wf(),
            r.width == width,
            r.height == height,
            forall|i: int|
                0 <= i < width * height ==> #[trigger] r.red@[i] == buf@[3 * i] && r.green@[i] == buf@[3 * i + 1]
                    && r.blue@[i] == buf@[3 * i + 2],
    {
        let total = buf.len();
        let n = total / 3;
        assert(n >= width * height);
        let n = (width as u64 * height as u64) as usize;
        let mut red: Vec<u8> = Vec::new();
        let mut green: Vec<u8> = Vec::new();
        let mut blue: Vec<u8> = Vec::new();
        let mut i: usize = 0;
        while i < n
            invariant
                n == width * height,
                buf@.len() >= 3 * n,
                total == buf@.len(),
                i <= n,
                red@.len() == i,
                green@.len() == i,
                blue@.len() == i,
                forall|k: int|
                    0 <= k < i ==> #[trigger] red@[k] == buf@[3 * k] && green@[k] == buf@[3 * k + 1] && blue@[k]
                        == buf@[3 * k + 2],
            decreases n - i,
        {
            red.push(buf[3 * i]);
            green.push(buf[3 * i + 1]);
            blue.push(buf[3 * i + 2]);
            i += 1;
        }
        RawImage { red, green, blue, width, height }
    }

    /// Splits interleaved `[r, g, b, a]` samples into planes, each channel
    /// laid over black: `c * a / 255`.
    pub fn from_png_rgba(buf: &Vec<u8>, width: u32, height: u32) -> (r: Self)
        requires
            buf@.len() >= 4 * (width * height),
        ensures
            r.wf(),
            r.width == width,
            r.height == height,
            forall|i: int|
                0 <= i < width * height ==> #[trigger] r.red@[i] == over_black_value(buf@[4 * i], buf@[4 * i + 3]),
            forall|i: int|
                0 <= i < width * height ==> #[trigger] r.green@[i] == over_black_value(buf@[4 * i + 1], buf@[4 * i + 3]),
            forall|i: int|
                0 <= i < width * height ==> #[trigger] r.blue@[i] == over_black_value(buf@[4 * i + 2], buf@[4 * i + 3]),
    {
        let total = buf.len();
        let n = (width as u64 * height as u64) as usize;
        let mut red: Vec<u8> = Vec::new();
        let mut green: Vec<u8> = Vec::new();
        let mut blue: Vec<u8> = Vec::new();
        let mut i: usize = 0;
        while i < n
            invariant
                n == width * height,
                buf@.len() >= 4 * n,
                total == buf@.len(),
                i <= n,
                red@.len() == i,
                green@.len() == i,
                blue@.len() == i,
                forall|k: int| 0 <= k < i ==> #[trigger] red@[k] == over_black_value(buf@[4 * k], buf@[4 * k + 3]),
                forall|k: int|
                    0 <= k < i ==> #[trigger] green@[k] == over_black_value(buf@[4 * k + 1], buf@[4 * k + 3]),
                forall|k: int|
                    0 <= k < i ==> #[trigger] blue@[k] == over_black_value(buf@[4 * k + 2], buf@[4 * k + 3]),
            decreases n - i,
        {
            red.push(over_black(buf[4 * i], buf[4 * i + 3]));
            green.push(over_black(buf[4 * i + 1], buf[4 * i + 3]));
            blue.push(over_black(buf[4 * i + 2], buf[4 * i + 3]));
            i += 1;
        }
        RawImage { red, green, blue, width, height }
    }

    /// Planes from a decoded PNG frame; only 8-bit RGB and RGBA frames are
    /// understood, RGBA laid over black.
    pub fn from_png_frame(frame: &PngFrame) -> (r: Result<Self, ImageError>)
        ensures
            frame_planes(frame.samples@, frame.width, frame.height, frame.color, frame.bit_depth, r),
    {
        if frame.bit_depth != 8 {
            return Err(ImageError::UnsupportedFormat);
        }
        let n = pixel_count(frame.width, frame.height);
        let len = frame.samples.len() as u128;
        match frame.color {
            PngColor::Rgb => {
                if len < 3 * (n as u128) {
                    Err(ImageError::ShortFrame)
                } else {
                    let img = Self::from_png_rgb(&frame.samples, frame.width, frame.height);
                    let r: Result<Self, ImageError> = Ok(img);
                    assert(frame_planes(frame.samples@, frame.width, frame.height, frame.color, frame.bit_depth, r));
                    r
                }
            },
            PngColor::Rgba => {
                if len < 4 * (n as u128) {
                    Err(ImageError::ShortFrame)
                } else {
                    let img = Self::from_png_rgba(&frame.samples, frame.width, frame.height);
                    let r: Result<Self, ImageError> = Ok(img);
                    assert(frame_planes(frame.samples@, frame.width, frame.height, frame.color, frame.bit_depth, r));
                    r
                }
            },
            _ => Err(ImageError::UnsupportedFormat),
        }
    }

    /// Planes from a PNG stream: its first frame, read as `from_png_frame`
    /// reads it; a stream the png crate refuses gives `ImageError::Png`.
    pub fn from_png(bytes: &[u8]) -> (r: Result<Self, ImageError>)
        ensures
            match png_first_frame(bytes@) {
                Some(f) => frame_planes(f.0, f.1, f.2, f.3, f.4, r),
                None => r == Err::<Self, ImageError>(ImageError::Png),
            },
    {
        match decode_png_frame(bytes) {
            Some(frame) => Self::from_png_frame(&frame),
            None => Err(ImageError::Png),
        }
    }

    /// The image as an 8-bit RGB PNG stream; `ImageError::Png` where the png
    /// crate refuses it.
    pub fn to_png(&self) -> (r: Result<Vec<u8>, ImageError>)
        requires
            self.wf(),
        ensures
            match png_rgb_stream(self.width, self.height, rgb_samples(*self)) {
                Some(o) => r matches Ok(v) && v@ == o,
                None => r == Err::<Vec<u8>, ImageError>(ImageError::Png),
            },
    {
        let samples = self.to_rgb_bytes();
        match encode_png_rgb(self.width, self.height, samples.as_slice()) {
            Some(out) => Ok(out),
            None => Err(ImageError::Png),
        }
    }

    /// The planes interleaved as `[r, g, b]` samples, pixel by pixel.
    pub fn to_rgb_bytes(&self) -> (r: Vec<u8>)
        requires
            self.wf(),
        ensures
            r@ == rgb_samples(*self),
            r@.len() == 3 * self.red@.len(),
            forall|i: int|
                0 <= i < self.red@.len() ==> #[trigger] r@[3 * i] == self.red@[i] && r@[3 * i + 1] == self.green@[i]
                    && r@[3 * i + 2] == self.blue@[i],
    {
        let n = self.red.len();
        let mut out: Vec<u8> = Vec::new();
        let mut i: usize = 0;
        while i < n
            invariant
                self.wf(),
                n == self.red@.len(),
                i <= n,
                out@.len() == 3 * i,
                forall|k: int|
                    0 <= k < i ==> #[trigger] out@[3 * k] == self.red@[k] && out@[3 * k + 1] == self.green@[k]
                        && out@[3 * k + 2] == self.blue@[k],
            decreases n - i,
        {
            let ghost before = out@;
            out.push(self.red[i]);
            out.push(self.green[i]);
            out.push(self.blue[i]);
            assert(out@ =~= before + seq![self.red@[i as int], self.green@[i as int], self.blue@[i as int]]);
            assert forall|k: int| 0 <= k < i implies #[trigger] out@[3 * k] == before[3 * k] && out@[3 * k + 1]
                == before[3 * k + 1] && out@[3 * k + 2] == before[3 * k + 2] by {}
            i += 1;
        }
        proof {
            assert forall|j: int| 0 <= j < out@.len() implies out@[j] == rgb_samples(*self)[j] by {
                let k = j / 3;
                assert(j == 3 * k + j % 3);
                assert(out@[3 * k] == self.red@[k]);
            }
            assert(out@ =~= rgb_samples(*self));
        }
        out
    }
}

} // verus!
