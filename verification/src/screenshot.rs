//! Turning a captured screen (32-bit BGRA pixels, top row first) into the PNG
//! file that Mode 2 and Mode 3 upload.
use vstd::prelude::*;

use crate::text::{append_chars, chars_of, string_of};

verus! {

/// The name the uploaded screenshot carries.
pub open spec fn screenshot_file_name() -> Seq<char> {
    "assistant-screenshot.png"@
}

pub struct ScreenshotPng {
    pub file_name: String,
    pub bytes: Vec<u8>,
}

/// Each whole 4-byte BGRA pixel as RGBA with full opacity; trailing bytes
/// that make no whole pixel are dropped.
pub open spec fn rgba_from_bgra(bgra: Seq<u8>) -> Seq<u8> {
    Seq::new(
        4 * (bgra.len() / 4),
        |i: int|
            {
                let p = 4 * (i / 4);
                let c = i % 4;
                if c == 0 {
                    bgra[p + 2]
                } else if c == 1 {
                    bgra[p + 1]
                } else if c == 2 {
                    bgra[p]
                } else {
                    255u8
                }
            },
    )
}

proof fn lemma_pixel_position(k: int, j: int)
    requires
        0 <= k,
        4 * k <= j < 4 * k + 4,
    ensures
        j / 4 == k,
        j % 4 == j - 4 * k,
{
    assert(j / 4 == k && j % 4 == j - 4 * k) by (nonlinear_arith)
        requires
            0 <= k,
            4 * k <= j < 4 * k + 4,
    ;
}

/// See `rgba_from_bgra`.
pub fn bgra_to_rgba(bgra: &[u8]) -> (r: Vec<u8>)
    ensures
        r@ == rgba_from_bgra(bgra@),
{
    let len = bgra.len();
    let pixels = len / 4;
    let mut out: Vec<u8> = Vec::new();
    let mut k: usize = 0;
    while k < pixels
        invariant
            len == bgra@.len(),
            pixels == bgra@.len() / 4,
            k <= pixels,
            out@.len() == 4 * k,
            forall|j: int| 0 <= j < 4 * k ==> out@[j] == #[trigger] rgba_from_bgra(bgra@)[j],
        decreases pixels - k,
    {
        assert(4 * (k as int) + 4 <= bgra@.len()) by (nonlinear_arith)
            requires
                (k as int) < bgra@.len() / 4,
        ;
        let base = 4 * k;
        let b = bgra[base];
        let g = bgra[base + 1];
        let r = bgra[base + 2];
        out.push(r);
        out.push(g);
        out.push(b);
        out.push(255);
        proof {
            assert forall|j: int| 0 <= j < 4 * (k + 1) implies out@[j]
                == #[trigger] rgba_from_bgra(bgra@)[j] by {
                if j >= 4 * k {
                    lemma_pixel_position(k as int, j);
                }
            }
        }
        k = k + 1;
    }
    assert(out@ =~= rgba_from_bgra(bgra@));
    out
}

/// The stage at which the PNG encoder stopped.
#[derive(Debug)]
pub enum PngFailure {
    /// Writing the PNG header failed, with the encoder's error text.
    Header(String),
    /// Writing the image data failed, with the encoder's error text.
    Data(String),
}

/// The PNG file that the `png` crate writes for an 8-bit RGBA image of the
/// given size and pixels.
pub uninterp spec fn png_rgba8(width: u32, height: u32, rgba: Seq<u8>) -> Seq<u8>;

/// `png::Encoder::new` on a byte vector, with color type RGBA and bit depth 8,
/// then `write_header` and `write_image_data`. Trusted: the bytes written are
/// `png_rgba8` of the arguments; a zero width or height fails at the header
/// (the header check rejects them first), and pixel data of another length
/// than width × height × 4 fails. With a positive size and pixel data of that
/// length it succeeds: the header check fails only on a zero size or an
/// invalid color/depth pair (RGBA at 8 bits is valid), the data check only
/// on an indexed image without palette or a wrong length, and writes into a
/// `Vec` do not fail. The encoder's error text is left unsaid.
#[verifier::external_body]
fn write_rgba8_png(width: u32, height: u32, rgba: &[u8]) -> (r: Result<Vec<u8>, PngFailure>)
    requires
        4 * width * height <= usize::MAX,
    ensures
        r matches Ok(bytes) ==> bytes@ == png_rgba8(width, height, rgba@),
        (width == 0 || height == 0) ==> r matches Err(PngFailure::Header(_)),
        rgba@.len() != 4 * width * height ==> r is Err,
        (width > 0 && height > 0 && rgba@.len() == 4 * width * height) ==> r is Ok,
{
    let mut out: Vec<u8> = Vec::new();
    {
        let mut encoder = png::Encoder::new(&mut out, width, height);
        encoder.set_color(png::ColorType::Rgba);
        encoder.set_depth(png::BitDepth::Eight);
        let mut writer = match encoder.write_header() {
            Ok(writer) => writer,
            Err(error) => return Err(PngFailure::Header(error.to_string())),
        };
        if let Err(error) = writer.write_image_data(rgba) {
            return Err(PngFailure::Data(error.to_string()));
        }
    }
    Ok(out)
}

/// The encoder's outcome as the capture reports it: the bytes, or the error
/// text after a note of the stage that failed.
pub open spec fn png_outcome_spec(outcome: Result<Seq<u8>, (bool, Seq<char>)>) -> Result<Seq<u8>, Seq<char>> {
    match outcome {
        Ok(bytes) => Ok(bytes),
        Err((true, e)) => Err("Failed to initialize PNG encoder: "@ + e),
        Err((false, e)) => Err("Failed to encode screenshot PNG: "@ + e),
    }
}

pub open spec fn png_failure_view(outcome: Result<Vec<u8>, PngFailure>) -> Result<Seq<u8>, (bool, Seq<char>)> {
    match outcome {
        Ok(bytes) => Ok(bytes@),
        Err(PngFailure::Header(e)) => Err((true, e@)),
        Err(PngFailure::Data(e)) => Err((false, e@)),
    }
}

pub open spec fn bytes_result_view(r: Result<Vec<u8>, String>) -> Result<Seq<u8>, Seq<char>> {
    match r {
        Ok(bytes) => Ok(bytes@),
        Err(e) => Err(e@),
    }
}

/// See `png_outcome_spec`.
pub fn png_outcome(outcome: Result<Vec<u8>, PngFailure>) -> (r: Result<Vec<u8>, String>)
    ensures
        bytes_result_view(r) == png_outcome_spec(png_failure_view(outcome)),
{
    match outcome {
        Ok(bytes) => Ok(bytes),
        Err(PngFailure::Header(e)) => {
            let mut text = chars_of("Failed to initialize PNG encoder: ");
            append_chars(&mut text, &chars_of(e.as_str()));
            Err(string_of(&text))
        },
        Err(PngFailure::Data(e)) => {
            let mut text = chars_of("Failed to encode screenshot PNG: ");
            append_chars(&mut text, &chars_of(e.as_str()));
            Err(string_of(&text))
        },
    }
}

/// Encodes captured BGRA pixels as a PNG of the given size.
pub fn encode_png(width: u32, height: u32, bgra: &[u8]) -> (r: Result<Vec<u8>, String>)
    requires
        4 * width * height <= usize::MAX,
    ensures
        r matches Ok(bytes) ==> bytes@ == png_rgba8(width, height, rgba_from_bgra(bgra@)),
        (width == 0 || height == 0) ==> (r matches Err(e) && e@.take(34)
            == "Failed to initialize PNG encoder: "@),
        rgba_from_bgra(bgra@).len() != 4 * width * height ==> r is Err,
        (width > 0 && height > 0 && rgba_from_bgra(bgra@).len() == 4 * width * height) ==> (r matches Ok(
            bytes,
        ) && bytes@ == png_rgba8(width, height, rgba_from_bgra(bgra@))),
{
    let rgba = bgra_to_rgba(bgra);
    let outcome = write_rgba8_png(width, height, &rgba);
    let r = png_outcome(outcome);
    proof {
        reveal_strlit("Failed to initialize PNG encoder: ");
        if width == 0 || height == 0 {
            assert(r->Err_0@.take(34) =~= "Failed to initialize PNG encoder: "@);
        }
    }
    r
}

pub open spec fn display_unavailable_message() -> Seq<char> {
    "Primary display dimensions are unavailable."@
}

/// The screenshot file for a capture of the primary display: the display
/// must have a positive size, and the pixels are encoded as PNG.
pub fn screenshot_png(width: i32, height: i32, bgra: &[u8]) -> (r: Result<ScreenshotPng, String>)
    requires
        (width > 0 && height > 0) ==> 4 * width * height <= usize::MAX,
    ensures
        (width <= 0 || height <= 0) ==> (r matches Err(e) && e@ == display_unavailable_message()),
        r matches Ok(s) ==> s.file_name@ == screenshot_file_name() && s.bytes@ == png_rgba8(
            width as u32,
            height as u32,
            rgba_from_bgra(bgra@),
        ),
        (width > 0 && height > 0 && rgba_from_bgra(bgra@).len() != 4 * width * height) ==> r is Err,
        (width > 0 && height > 0 && rgba_from_bgra(bgra@).len() == 4 * width * height) ==> r is Ok,
{
    if width <= 0 || height <= 0 {
        return Err(string_of(&chars_of("Primary display dimensions are unavailable.")));
    }
    let w = width as u32;
    let h = height as u32;
    match encode_png(w, h, bgra) {
        Ok(bytes) => Ok(
            ScreenshotPng {
                file_name: string_of(&chars_of("assistant-screenshot.png")),
                bytes,
            },
        ),
        Err(e) => Err(e),
    }
}

} // verus!
