//! Decoding a picture and scaling it down. The decoders and the resampler
//! are outside crates; what is decided around them is verified: which
//! decoder's result counts, and the size that the picture is scaled to.

use crate::geometry::{scaled_dimensions, scaled_size};
use fast_image_resize::images::{Image, ImageRef};
use fast_image_resize::{PixelType, ResizeAlg, ResizeOptions, Resizer};
use vstd::prelude::*;
use vstd::string::StringExecFns;

verus! {

/// A picture of three bytes per pixel, red, green and blue, row by row.
#[derive(Debug, PartialEq, Eq)]
pub struct RgbImage {
    pub width: u32,
    pub height: u32,
    pub pixels: Vec<u8>,
}

pub struct RgbView {
    pub width: u32,
    pub height: u32,
    pub pixels: Seq<u8>,
}

impl View for RgbImage {
    type V = RgbView;

    open spec fn view(&self) -> RgbView {
        RgbView { width: self.width, height: self.height, pixels: self.pixels@ }
    }
}

impl RgbView {
    /// The buffer holds exactly the pixels of the picture.
    pub open spec fn well_formed(self) -> bool {
        self.pixels.len() == self.width * self.height * 3
    }
}

/// What `image::load_from_memory_with_format` makes of `bytes`, read as the
/// format that the extension of `path` names, and turned into RGB: width,
/// height and pixels, or `None` where the format is unknown or the bytes do
/// not decode.
pub uninterp spec fn image_decoding(bytes: Seq<u8>, path: Seq<char>) -> Option<(u32, u32, Seq<u8>)>;

/// What `jpeg_decoder::Decoder` makes of `bytes`: the pixels or the text of
/// its error, and the size that it read. The crate is built with its
/// feature `platform_independent`, under which it runs the same code, with
/// the same output, on every machine. One thing differs between machines:
/// grey samples of more than eight bits are written in the machine's byte
/// order. For a file with such samples the name stands for the pixels on a
/// machine that stores the low byte first.
pub uninterp spec fn jpeg_decoding(bytes: Seq<u8>) -> (
    Result<Seq<u8>, Seq<char>>,
    Option<(u16, u16)>,
);

/// The pixels that `fast_image_resize` gives for an RGB picture of `width`
/// by `height` resampled to `to_width` by `to_height` with its nearest
/// neighbour algorithm.
pub uninterp spec fn nearest_resizing(
    pixels: Seq<u8>,
    width: u32,
    height: u32,
    to_width: u32,
    to_height: u32,
) -> Seq<u8>;

pub open spec fn pixels_of(r: Option<(u32, u32, Vec<u8>)>) -> Option<(u32, u32, Seq<u8>)> {
    match r {
        Some((w, h, p)) => Some((w, h, p@)),
        None => None,
    }
}

pub open spec fn outcome_of(r: Result<Vec<u8>, String>) -> Result<Seq<u8>, Seq<char>> {
    match r {
        Ok(p) => Ok(p@),
        Err(e) => Err(e@),
    }
}

/// Calls `image::ImageFormat::from_path` for the format that the extension
/// of `path` names, `image::load_from_memory_with_format` on `bytes`, and
/// `DynamicImage::to_rgb8` on what was decoded. Decoding reads nothing but
/// its arguments, so the result is named after them; nothing else is claimed.
#[verifier::external_body]
fn decode_with_image(bytes: &[u8], path: &str) -> (r: Option<(u32, u32, Vec<u8>)>)
    ensures
        pixels_of(r) == image_decoding(bytes@, path@),
{
    let format = image::ImageFormat::from_path(path).ok()?;
    let rgb = image::load_from_memory_with_format(bytes, format).ok()?.to_rgb8();
    Some((rgb.width(), rgb.height(), rgb.into_raw()))
}

/// Calls `jpeg_decoder::Decoder::new` on `bytes`, then `decode` and `info`.
/// The error is handed on as its text. Decoding reads nothing but `bytes`,
/// so the result is named after them; nothing else is claimed.
#[verifier::external_body]
fn decode_with_jpeg_decoder(bytes: &[u8]) -> (r: (Result<Vec<u8>, String>, Option<(u16, u16)>))
    ensures
        (outcome_of(r.0), r.1) == jpeg_decoding(bytes@),
{
    let mut decoder = jpeg_decoder::Decoder::new(bytes);
    let pixels = decoder.decode().map_err(|e| e.to_string());
    (pixels, decoder.info().map(|info| (info.width, info.height)))
}

/// Calls `fast_image_resize::Resizer::resize` with `ResizeAlg::Nearest`,
/// from a view of `pixels` as `width` by `height` pixels of three bytes to a
/// new picture of `to_width` by `to_height`, and hands out the new picture's
/// buffer, which `Image::new` made of `to_width * to_height * 3` bytes. The
/// source must hold its pixels, and the new buffer must be one that a
/// vector can hold.
#[verifier::external_body]
fn resize_nearest(pixels: &[u8], width: u32, height: u32, to_width: u32, to_height: u32) -> (r:
    Vec<u8>)
    requires
        pixels@.len() == width * height * 3,
        to_width * to_height * 3 <= isize::MAX,
    ensures
        r@ == nearest_resizing(pixels@, width, height, to_width, to_height),
        r@.len() == to_width * to_height * 3,
{
    let source = ImageRef::new(width, height, pixels, PixelType::U8x3).unwrap();
    let mut target = Image::new(to_width, to_height, PixelType::U8x3);
    let options = ResizeOptions::new().resize_alg(ResizeAlg::Nearest);
    Resizer::new().resize(&source, &mut target, &options).unwrap();
    target.into_vec()
}

/// Whether `pixels` holds exactly `width * height * 3` bytes.
fn holds_rgb(pixels: &Vec<u8>, width: u32, height: u32) -> (r: bool)
    ensures
        r == (pixels@.len() == width * height * 3),
{
    proof {
        assert(width as u128 * height as u128 <= 0xffff_ffff * 0xffff_ffff) by (nonlinear_arith)
            requires
                width <= 0xffff_ffff,
                height <= 0xffff_ffff,
        ;
    }
    pixels.len() as u128 == width as u128 * height as u128 * 3
}

/// What the first decoder's result counts for: the picture, where the
/// buffer holds exactly its pixels.
pub open spec fn accepted_picture(decoding: Option<(u32, u32, Seq<u8>)>) -> Option<RgbView> {
    match decoding {
        Some((width, height, pixels)) => if pixels.len() == width * height * 3 {
            Some(RgbView { width, height, pixels })
        } else {
            None
        },
        None => None,
    }
}

/// The text of the error for a file of which the JPEG decoder gave pixels
/// and no size.
pub open spec fn no_size_text() -> Seq<char> {
    "the decoder read no size"@
}

/// Grey pixels as `n` pixels of three bytes: the grey byte of every pixel
/// three times, where the grey byte of pixel `i` is byte `first + i * step`
/// of `pixels`, and black where `pixels` ends before it.
pub open spec fn grey_to_rgb(pixels: Seq<u8>, n: nat, first: nat, step: nat) -> Seq<u8> {
    Seq::new(
        n * 3,
        |j: int|
            if first + (j / 3) * step < pixels.len() {
                pixels[first + (j / 3) * step]
            } else {
                0u8
            },
    )
}

/// The picture of `width` by `height` that the pixels of the JPEG decoder
/// are read as. The decoder gives one, two, three or four bytes for each
/// pixel, and a buffer of any length is read by the same rule:
/// - a buffer of at least three bytes for each pixel is handed on, cut to
///   three bytes for each pixel; that is colour as it stands, and the
///   bytes of CMYK taken for red, green and blue in turn;
/// - a buffer of at least two bytes for each pixel is grey of sixteen bits,
///   and the grey of a pixel is the second byte of its sample, which holds
///   the high bits where the low byte is stored first;
/// - any shorter buffer is grey of eight bits.
pub open spec fn jpeg_picture(pixels: Seq<u8>, width: u16, height: u16) -> RgbView {
    let n = (width * height) as nat;
    RgbView {
        width: width as u32,
        height: height as u32,
        pixels: if pixels.len() >= n * 3 {
            pixels.take((n * 3) as int)
        } else if pixels.len() >= n * 2 {
            grey_to_rgb(pixels, n, 1, 2)
        } else {
            grey_to_rgb(pixels, n, 0, 1)
        },
    }
}

/// What the JPEG decoder's result counts for: wherever it gave pixels and
/// a size, the picture of that size; else the text of its error.
pub open spec fn accepted_jpeg(decoding: (Result<Seq<u8>, Seq<char>>, Option<(u16, u16)>))
    -> Result<RgbView, Seq<char>> {
    match decoding {
        (Ok(pixels), Some((width, height))) => Ok(jpeg_picture(pixels, width, height)),
        (Ok(_), None) => Err(no_size_text()),
        (Err(e), _) => Err(e),
    }
}

/// The picture that the two decoders make of a file: that of the first,
/// and where it gives none, that of the JPEG decoder.
pub open spec fn decoded_picture(
    first: Option<(u32, u32, Seq<u8>)>,
    second: (Result<Seq<u8>, Seq<char>>, Option<(u16, u16)>),
) -> Result<RgbView, Seq<char>> {
    match accepted_picture(first) {
        Some(picture) => Ok(picture),
        None => accepted_jpeg(second),
    }
}

pub open spec fn picture_of(r: Result<RgbImage, String>) -> Result<RgbView, Seq<char>> {
    match r {
        Ok(p) => Ok(p@),
        Err(e) => Err(e@),
    }
}

/// Judges the result of the first decoder.
pub fn accept_picture(decoding: Option<(u32, u32, Vec<u8>)>) -> (r: Option<RgbImage>)
    ensures
        match r {
            Some(p) => Some(p@),
            None => None,
        } == accepted_picture(pixels_of(decoding)),
        r matches Some(p) ==> p@.well_formed(),
{
    match decoding {
        Some((width, height, pixels)) => if holds_rgb(&pixels, width, height) {
            Some(RgbImage { width, height, pixels })
        } else {
            None
        },
        None => None,
    }
}

/// Writes the grey byte of each of `n` pixels three times.
fn expand_grey(pixels: &Vec<u8>, n: usize, first: usize, step: usize) -> (r: Vec<u8>)
    requires
        first <= 1,
        step <= 2,
        n <= 0xffff * 0xffff,
    ensures
        r@ == grey_to_rgb(pixels@, n as nat, first as nat, step as nat),
{
    let mut r: Vec<u8> = Vec::new();
    let mut i: usize = 0;
    while i < n
        invariant
            i <= n,
            first <= 1,
            step <= 2,
            n <= 0xffff * 0xffff,
            r@.len() == 3 * i,
            forall|j: int|
                0 <= j < r@.len() ==> r@[j] == if first + (j / 3) * step < pixels@.len() {
                    pixels@[first + (j / 3) * step]
                } else {
                    0u8
                },
        decreases n - i,
    {
        proof {
            assert(i as u64 * step as u64 <= 0xffff * 0xffff * 2) by (nonlinear_arith)
                requires
                    i <= 0xffff * 0xffff,
                    step <= 2,
            ;
        }
        let at: u64 = first as u64 + i as u64 * step as u64;
        let b: u8 = if at < pixels.len() as u64 {
            pixels[at as usize]
        } else {
            0
        };
        r.push(b);
        r.push(b);
        r.push(b);
        i = i + 1;
    }
    proof {
        assert(r@ =~= grey_to_rgb(pixels@, n as nat, first as nat, step as nat));
    }
    r
}

/// Reads the pixels of the JPEG decoder as a picture of `width` by
/// `height`.
pub fn read_jpeg_pixels(pixels: Vec<u8>, width: u16, height: u16) -> (r: RgbImage)
    ensures
        r@ == jpeg_picture(pixels@, width, height),
        r@.well_formed(),
{
    proof {
        assert(width as usize * height as usize <= 0xffff * 0xffff) by (nonlinear_arith)
            requires
                width <= 0xffff,
                height <= 0xffff,
        ;
    }
    let n: usize = width as usize * height as usize;
    let len: u64 = pixels.len() as u64;
    let pixels = if len >= n as u64 * 3 {
        let mut kept = pixels;
        kept.truncate(n * 3);
        proof {
            assert(kept@ =~= pixels@.take((n * 3) as int));
        }
        kept
    } else if len >= n as u64 * 2 {
        expand_grey(&pixels, n, 1, 2)
    } else {
        expand_grey(&pixels, n, 0, 1)
    };
    RgbImage { width: width as u32, height: height as u32, pixels }
}

/// Judges the result of the JPEG decoder.
pub fn accept_jpeg(pixels: Result<Vec<u8>, String>, size: Option<(u16, u16)>) -> (r: Result<
    RgbImage,
    String,
>)
    ensures
        picture_of(r) == accepted_jpeg((outcome_of(pixels), size)),
        r matches Ok(p) ==> p@.well_formed(),
        r is Ok <==> pixels is Ok && size is Some,
{
    match pixels {
        Ok(pixels) => match size {
            Some((width, height)) => Ok(read_jpeg_pixels(pixels, width, height)),
            None => Err(String::from_str("the decoder read no size")),
        },
        Err(e) => Err(e),
    }
}

/// Decodes the picture in `bytes`, the content of the file at `path`: with
/// the decoder for the format that the extension names, and where that
/// fails, with the JPEG decoder. There is an error only where both fail,
/// and it is that of the JPEG decoder.
pub fn decode_image(bytes: &[u8], path: &str) -> (r: Result<RgbImage, String>)
    ensures
        picture_of(r) == decoded_picture(image_decoding(bytes@, path@), jpeg_decoding(bytes@)),
        r matches Ok(p) ==> p@.well_formed(),
        r is Err <==> accepted_picture(image_decoding(bytes@, path@)) is None && !(jpeg_decoding(
            bytes@,
        ).0 is Ok && jpeg_decoding(bytes@).1 is Some),
{
    match accept_picture(decode_with_image(bytes, path)) {
        Some(picture) => Ok(picture),
        None => {
            let (pixels, size) = decode_with_jpeg_decoder(bytes);
            accept_jpeg(pixels, size)
        },
    }
}

/// Whether `picture` can be encoded: it has pixels, that is neither side
/// is zero, and its buffer holds exactly its pixels.
pub fn encodable(picture: &RgbImage) -> (r: bool)
    ensures
        r == (picture.width > 0 && picture.height > 0 && picture@.well_formed()),
{
    picture.width > 0 && picture.height > 0 && holds_rgb(
        &picture.pixels,
        picture.width,
        picture.height,
    )
}

/// The picture scaled for encoding, as far as it is named here: its size is
/// `scaled_size`, its pixels are those of the resampler.
pub open spec fn scaled_picture(picture: RgbView, imgsz: u32) -> RgbView {
    let size = scaled_size(picture.width as nat, picture.height as nat, imgsz as nat);
    RgbView {
        width: size.0 as u32,
        height: size.1 as u32,
        pixels: nearest_resizing(
            picture.pixels,
            picture.width,
            picture.height,
            size.0 as u32,
            size.1 as u32,
        ),
    }
}

/// Scales `picture` so that its longer side becomes `imgsz`.
pub fn scale_picture(picture: &RgbImage, imgsz: u32) -> (r: RgbImage)
    requires
        picture@.well_formed(),
        (imgsz + 1) * (imgsz + 1) * 3 <= isize::MAX,
    ensures
        r@ == scaled_picture(picture@, imgsz),
        r@.well_formed(),
{
    proof {
        assert(imgsz < 0xffff_ffff) by (nonlinear_arith)
            requires
                (imgsz + 1) * (imgsz + 1) * 3 <= 0x7fff_ffff_ffff_ffff,
                imgsz <= 0xffff_ffff,
        ;
    }
    let (width, height) = scaled_dimensions(picture.width, picture.height, imgsz);
    proof {
        crate::geometry::lemma_scaled_bounded(
            picture.width as nat,
            picture.height as nat,
            imgsz as nat,
        );
        assert(width * height * 3 <= (imgsz + 1) * (imgsz + 1) * 3) by (nonlinear_arith)
            requires
                0 <= width <= imgsz + 1,
                0 <= height <= imgsz + 1,
        ;
    }
    let pixels = resize_nearest(picture.pixels.as_slice(), picture.width, picture.height, width, height);
    RgbImage { width, height, pixels }
}

} // verus!
