//! Images in and out: frames on their way to the web viewport (channel
//! order, PNG and base64), and PNG assets decoded for their preview.
use vstd::prelude::*;
use base64::Engine;
use crate::text::{concat, nat_decimal, string_from_chars, u64_decimal};

verus! {

// ─── channel order ─────────────────────────────────────────────────────────

/// `pixels` with the first and third byte of every 4-byte pixel swapped
/// (BGRA to RGBA).
pub open spec fn swapped_red_blue(pixels: Seq<u8>) -> Seq<u8> {
    Seq::new(
        pixels.len(),
        |i: int| if i % 4 == 0 { pixels[i + 2] } else if i % 4 == 2 { pixels[i - 2] } else { pixels[i] },
    )
}

/// Turns BGRA pixels into RGBA ones.
pub fn bgra_to_rgba(pixels: &[u8]) -> (r: Vec<u8>)
    requires
        pixels@.len() % 4 == 0,
    ensures
        r@ == swapped_red_blue(pixels@),
{
    let mut out: Vec<u8> = Vec::new();
    let n = pixels.len();
    let mut i: usize = 0;
    while i < n
        invariant
            n == pixels@.len(),
            n % 4 == 0,
            i % 4 == 0,
            i <= n,
            out@ == swapped_red_blue(pixels@).take(i as int),
        decreases n - i,
    {
        out.push(pixels[i + 2]);
        out.push(pixels[i + 1]);
        out.push(pixels[i]);
        out.push(pixels[i + 3]);
        proof {
            let sw = swapped_red_blue(pixels@);
            assert(sw.take(i + 4) =~= sw.take(i as int).push(sw[i as int]).push(sw[i + 1]).push(sw[i + 2]).push(sw[i + 3]));
        }
        i += 4;
    }
    proof {
        assert(swapped_red_blue(pixels@).take(n as int) =~= swapped_red_blue(pixels@));
    }
    out
}

/// A vector holding the bytes of `data`.
pub fn copy_bytes(data: &[u8]) -> (r: Vec<u8>)
    ensures
        r@ == data@,
{
    let mut out: Vec<u8> = Vec::new();
    let mut i: usize = 0;
    while i < data.len()
        invariant
            i <= data@.len(),
            out@ == data@.take(i as int),
        decreases data@.len() - i,
    {
        out.push(data[i]);
        assert(data@.take(i + 1) =~= data@.take(i as int).push(data@[i as int]));
        i += 1;
    }
    assert(data@.take(data@.len() as int) =~= data@);
    out
}

// ─── PNG ───────────────────────────────────────────────────────────────────

/// What the `image` crate's PNG encoder makes of a `width`×`height` RGBA
/// image with these pixel bytes: the PNG file, or nothing when it fails.
pub uninterp spec fn png_encoded(width: u32, height: u32, rgba: Seq<u8>) -> Option<Seq<u8>>;

/// An optional byte vector, as a sequence.
pub open spec fn opt_bytes(r: Option<Vec<u8>>) -> Option<Seq<u8>> {
    match r {
        Some(v) => Some(v@),
        None => None,
    }
}

/// `ImageBuffer::<Rgba<u8>, _>::from_raw` followed by `write_to` with
/// `ImageFormat::Png` into a memory buffer. `from_raw` refuses a buffer
/// shorter than `4 * width * height` bytes (or a size that overflows
/// `usize`); otherwise the encoder reads only those first bytes, and the
/// result is `png_encoded` of them.
#[verifier::external_body]
fn encode_png(width: u32, height: u32, rgba: Vec<u8>) -> (r: Option<Vec<u8>>)
    ensures
        4 * width * height > usize::MAX || rgba@.len() < 4 * width * height ==> r is None,
        !(4 * width * height > usize::MAX || rgba@.len() < 4 * width * height) ==> opt_bytes(r) == png_encoded(
            width,
            height,
            rgba@.take(4 * width * height),
        ),
{
    let image = image::ImageBuffer::<image::Rgba<u8>, _>::from_raw(width, height, rgba)?;
    let mut buffer = std::io::Cursor::new(Vec::new());
    image.write_to(&mut buffer, image::ImageFormat::Png).ok()?;
    Some(buffer.into_inner())
}

/// The pixels in RGBA order: swapped when they came as BGRA.
pub open spec fn rgba_pixels(pixels: Seq<u8>, bgra: bool) -> Seq<u8> {
    if bgra { swapped_red_blue(pixels) } else { pixels }
}

/// A captured frame as a PNG file. `bgra` says the pixels come in BGRA
/// order (the `Bgra8Unorm` texture formats); they are put in RGBA order
/// first. `None` when there are fewer than `4 * width * height` bytes;
/// otherwise what the encoder makes of the first `4 * width * height`.
pub fn encode_frame(pixels: &[u8], width: u32, height: u32, bgra: bool) -> (r: Option<Vec<u8>>)
    requires
        bgra ==> pixels@.len() % 4 == 0,
    ensures
        4 * width * height > usize::MAX || pixels@.len() < 4 * width * height ==> r is None,
        !(4 * width * height > usize::MAX || pixels@.len() < 4 * width * height) ==> opt_bytes(r) == png_encoded(
            width,
            height,
            rgba_pixels(pixels@, bgra).take(4 * width * height),
        ),
{
    let rgba: Vec<u8> = if bgra {
        bgra_to_rgba(pixels)
    } else {
        copy_bytes(pixels)
    };
    encode_png(width, height, rgba)
}

// ─── base64 ────────────────────────────────────────────────────────────────

/// The character of a 6-bit value in the standard base64 alphabet.
pub open spec fn b64_digit(v: int) -> char {
    "ABCDEFGHIJKLMNOPQRSTUVWXYZabcdefghijklmnopqrstuvwxyz0123456789+/"@[v]
}

/// Standard base64 (RFC 4648, with `=` padding) of `d`.
pub open spec fn base64_of(d: Seq<u8>) -> Seq<char>
    decreases d.len(),
{
    if d.len() == 0 {
        Seq::empty()
    } else if d.len() == 1 {
        seq![b64_digit(d[0] as int / 4), b64_digit((d[0] % 4) * 16), '=', '=']
    } else if d.len() == 2 {
        seq![b64_digit(d[0] as int / 4), b64_digit((d[0] % 4) * 16 + d[1] / 16), b64_digit((d[1] % 16) * 4), '=']
    } else {
        seq![
            b64_digit(d[0] as int / 4),
            b64_digit((d[0] % 4) * 16 + d[1] / 16),
            b64_digit((d[1] % 16) * 4 + d[2] / 64),
            b64_digit(d[2] as int % 64),
        ] + base64_of(d.skip(3))
    }
}

/// `base64::engine::general_purpose::STANDARD.encode`: the standard
/// alphabet with `=` padding, as the crate documents it.
#[verifier::external_body]
fn standard_base64(data: &[u8]) -> (r: String)
    ensures
        r@ == base64_of(data@),
{
    base64::engine::general_purpose::STANDARD.encode(data)
}

/// Standard base64 (with padding) of `data`.
pub fn base64_encode(data: &[u8]) -> (r: String)
    ensures
        r@ == base64_of(data@),
{
    standard_base64(data)
}


/// Base64 turns every started group of three bytes into four characters.
pub proof fn lemma_base64_len(d: Seq<u8>)
    ensures
        base64_of(d).len() == 4 * ((d.len() + 2) / 3),
    decreases d.len(),
{
    if d.len() > 2 {
        lemma_base64_len(d.skip(3));
    }
}
// ─── decoding an image asset ───────────────────────────────────────────────

/// What `image::load_from_memory` then `to_rgba8` make of these bytes: the
/// width, the height and the RGBA pixels of the image, or the text of the
/// error.
pub uninterp spec fn image_decoded(bytes: Seq<u8>) -> Result<(u32, u32, Seq<u8>), Seq<char>>;

/// `image::load_from_memory`, `DynamicImage::to_rgba8`, then the buffer's
/// dimensions and pixels; the error as its text.
#[verifier::external_body]
fn decode_rgba(bytes: &[u8]) -> (r: Result<(u32, u32, Vec<u8>), String>)
    ensures
        match r {
            Ok((w, h, px)) => image_decoded(bytes@) == Ok::<(u32, u32, Seq<u8>), Seq<char>>((w, h, px@)),
            Err(e) => image_decoded(bytes@) == Err::<(u32, u32, Seq<u8>), Seq<char>>(e@),
        },
{
    let image = image::load_from_memory(bytes).map_err(|e| e.to_string())?;
    let rgba = image.to_rgba8();
    let (width, height) = rgba.dimensions();
    Ok((width, height, rgba.into_raw()))
}

/// An image asset decoded for its preview.
pub struct DecodedImage {
    pub width: u32,
    pub height: u32,
    /// RGBA pixels, row after row
    pub rgba: Vec<u8>,
}

/// Decodes an image asset for its preview; a failure is reported as
/// `Failed to decode image: ` and the decoder's message.
pub fn decode_preview_image(bytes: &[u8]) -> (r: Result<DecodedImage, String>)
    ensures
        match r {
            Ok(d) => image_decoded(bytes@) == Ok::<(u32, u32, Seq<u8>), Seq<char>>((d.width, d.height, d.rgba@)),
            Err(e) => match image_decoded(bytes@) {
                Err(x) => e@ == "Failed to decode image: "@ + x,
                Ok(_) => false,
            },
        },
{
    match decode_rgba(bytes) {
        Ok((width, height, rgba)) => Ok(DecodedImage { width, height, rgba }),
        Err(e) => Err(concat("Failed to decode image: ", e.as_str())),
    }
}

/// Decodes the `skeleton.png` page of an animation archive; a failure is
/// reported as `Failed to decode skeleton.png: ` and the decoder's message.
pub fn decode_skeleton_png(bytes: &[u8]) -> (r: Result<DecodedImage, String>)
    ensures
        match r {
            Ok(d) => image_decoded(bytes@) == Ok::<(u32, u32, Seq<u8>), Seq<char>>((d.width, d.height, d.rgba@)),
            Err(e) => match image_decoded(bytes@) {
                Err(x) => e@ == "Failed to decode skeleton.png: "@ + x,
                Ok(_) => false,
            },
        },
{
    match decode_rgba(bytes) {
        Ok((width, height, rgba)) => Ok(DecodedImage { width, height, rgba }),
        Err(e) => Err(concat("Failed to decode skeleton.png: ", e.as_str())),
    }
}

/// The size line of an image's inspector: `{width} x {height} px`.
pub fn dimensions_label(width: u32, height: u32) -> (r: String)
    ensures
        r@ == nat_decimal(width as nat) + " x "@ + nat_decimal(height as nat) + " px"@,
{
    let w = string_from_chars(&u64_decimal(width as u64));
    let h = string_from_chars(&u64_decimal(height as u64));
    let a = concat(w.as_str(), " x ");
    let b = concat(a.as_str(), h.as_str());
    concat(b.as_str(), " px")
}

} // verus!
