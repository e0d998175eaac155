//! The screenshot compressor: a base64 JPEG capture over the attachment
//! budget is re-encoded on a descending quality ladder, downscaling by a
//! fifth between rounds, until it fits or every option is exhausted.

use vstd::prelude::*;
use base64::Engine;
use crate::text::{bytes_len, lemma_bytes_len_is_utf8};

verus! {

/// The base64-length budget an attached screenshot must fit in.
pub const MAX_SCREENSHOT_BASE64: usize = 6400000;

/// What the base64 crate's standard-alphabet encoder returns for the
/// given bytes.
pub uninterp spec fn b64_encode_of(b: Seq<u8>) -> Seq<char>;

/// What its decoder returns: the decoded bytes, or None for text that is
/// not valid padded base64.
pub uninterp spec fn b64_decode_of(s: Seq<char>) -> Option<Seq<u8>>;

/// Relies on base64's Engine::encode with the STANDARD engine: the padded
/// standard-alphabet encoding, four characters for every three bytes.
#[verifier::external_body]
pub(crate) fn b64_encode(b: &Vec<u8>) -> (r: String)
    ensures
        r@ == b64_encode_of(b@),
        r@.len() == 4 * ((b@.len() + 2) / 3),
{
    base64::engine::general_purpose::STANDARD.encode(b)
}

/// Relies on base64's Engine::decode with the STANDARD engine: the decoded
/// bytes of valid padded base64 text, or the engine's own error text.
#[verifier::external_body]
fn b64_decode(s: &str) -> (r: Result<Vec<u8>, String>)
    ensures
        match r {
            Ok(b) => b64_decode_of(s@) == Some(b@),
            Err(_) => b64_decode_of(s@) is None,
        },
{
    match base64::engine::general_purpose::STANDARD.decode(s) {
        Ok(b) => Ok(b),
        Err(e) => Err(format!("{}", e)),
    }
}

#[verifier::external_type_specification]
#[verifier::external_body]
pub struct ExDynamicImage(image::DynamicImage);

/// Relies on image::load_from_memory_with_format: decodes JPEG bytes into
/// an image, or returns the library's own error text.
#[verifier::external_body]
fn decode_jpeg(bytes: &Vec<u8>) -> (r: Result<image::DynamicImage, String>)
{
    match image::load_from_memory_with_format(bytes, image::ImageFormat::Jpeg) {
        Ok(img) => Ok(img),
        Err(e) => Err(format!("{}", e)),
    }
}

/// Relies on image::DynamicImage::width.
#[verifier::external_body]
fn img_width(img: &image::DynamicImage) -> (r: u32)
{
    img.width()
}

/// Relies on image::DynamicImage::height.
#[verifier::external_body]
fn img_height(img: &image::DynamicImage) -> (r: u32)
{
    img.height()
}

/// Relies on image's JpegEncoder (new_with_quality and encode_image):
/// encodes the image as JPEG bytes at the given quality, or returns the
/// library's own error text.
#[verifier::external_body]
fn encode_jpeg(img: &image::DynamicImage, quality: u8) -> (r: Result<Vec<u8>, String>)
{
    let mut buf: Vec<u8> = Vec::new();
    let mut encoder = image::codecs::jpeg::JpegEncoder::new_with_quality(&mut buf, quality);
    match encoder.encode_image(img) {
        Ok(()) => Ok(buf),
        Err(e) => Err(format!("{}", e)),
    }
}

/// Relies on image::DynamicImage::resize with the triangle filter: a copy
/// scaled to fit within the given bounds, aspect ratio preserved.
#[verifier::external_body]
fn resize_image(img: &image::DynamicImage, w: u32, h: u32) -> (r: image::DynamicImage)
    requires
        w >= 1,
        h >= 1,
{
    img.resize(w, h, image::imageops::FilterType::Triangle)
}

/// Why a screenshot could not be attached.
#[derive(Debug)]
pub enum CompressError {
    /// The capture was not valid base64.
    Decode(String),
    /// The decoded bytes were not a readable JPEG image.
    Parse(String),
    /// Re-encoding failed.
    Encode(String),
    /// No quality or resolution in the ladder fit the budget.
    TooLarge,
}

impl CompressError {
    /// The caller-facing description of the failure.
    pub open spec fn message_spec(&self) -> Seq<char> {
        match self {
            CompressError::Decode(m) => "Failed to decode screenshot: "@ + m@,
            CompressError::Parse(m) => "Failed to parse screenshot image: "@ + m@,
            CompressError::Encode(m) => "Failed to re-encode screenshot: "@ + m@,
            CompressError::TooLarge => "Screenshot too large to attach"@,
        }
    }

    /// The caller-facing description of the failure.
    pub fn message(&self) -> (r: String)
        ensures
            r@ == self.message_spec(),
    {
        match self {
            CompressError::Decode(m) => {
                let mut s = String::from_str("Failed to decode screenshot: ");
                s.append(m.as_str());
                s
            },
            CompressError::Parse(m) => {
                let mut s = String::from_str("Failed to parse screenshot image: ");
                s.append(m.as_str());
                s
            },
            CompressError::Encode(m) => {
                let mut s = String::from_str("Failed to re-encode screenshot: ");
                s.append(m.as_str());
                s
            },
            CompressError::TooLarge => String::from_str("Screenshot too large to attach"),
        }
    }
}

/// The quality ladder tried at each resolution, in order.
fn quality_step(qi: usize) -> (r: u8)
    requires
        qi < 4,
    ensures
        r == 70 - 10 * qi,
{
    if qi == 0 {
        70
    } else if qi == 1 {
        60
    } else if qi == 2 {
        50
    } else {
        40
    }
}

/// Compresses a base64-encoded JPEG capture under the attachment budget.
/// Empty input and input already within the budget pass through unchanged;
/// anything larger is decoded and re-encoded at descending qualities,
/// downscaled by a factor of four fifths between rounds (never below
/// 640 by 360), and the first encoding within budget is returned.  The
/// result is never over budget; when every attempt fails, the call fails.
pub fn compress_screenshot_base64(raw_base64: &str) -> (r: Result<String, CompressError>)
    ensures
        raw_base64@.len() == 0 ==> r is Ok && r->Ok_0@ == Seq::<char>::empty(),
        (raw_base64@.len() != 0 && bytes_len(raw_base64@) <= MAX_SCREENSHOT_BASE64 as int) ==> (
        r is Ok && r->Ok_0@ == raw_base64@),
        r is Ok ==> bytes_len(r->Ok_0@) <= MAX_SCREENSHOT_BASE64 as int,
        r is Err ==> bytes_len(raw_base64@) > MAX_SCREENSHOT_BASE64 as int,
        (r is Err && r->Err_0 is Decode) <==> (bytes_len(raw_base64@)
            > MAX_SCREENSHOT_BASE64 as int && b64_decode_of(raw_base64@) is None),
{
    proof {
        lemma_bytes_len_is_utf8(raw_base64@);
    }
    if raw_base64.is_empty() {
        return Ok(String::new());
    }
    if raw_base64.as_bytes().len() <= MAX_SCREENSHOT_BASE64 {
        return Ok(raw_base64.to_owned());
    }
    let jpeg_bytes = match b64_decode(raw_base64) {
        Ok(b) => b,
        Err(m) => {
            return Err(CompressError::Decode(m));
        },
    };
    let img = match decode_jpeg(&jpeg_bytes) {
        Ok(i) => i,
        Err(m) => {
            return Err(CompressError::Parse(m));
        },
    };
    let mut current = img;
    let mut round: usize = 0;
    while round < 4
        invariant
            raw_base64@.len() != 0,
            bytes_len(raw_base64@) > MAX_SCREENSHOT_BASE64 as int,
            b64_decode_of(raw_base64@) is Some,
        decreases 4 - round,
    {
        let mut qi: usize = 0;
        while qi < 4
            invariant
                raw_base64@.len() != 0,
                bytes_len(raw_base64@) > MAX_SCREENSHOT_BASE64 as int,
                b64_decode_of(raw_base64@) is Some,
            decreases 4 - qi,
        {
            let quality = quality_step(qi);
            let encoded = match encode_jpeg(&current, quality) {
                Ok(b) => b,
                Err(m) => {
                    return Err(CompressError::Encode(m));
                },
            };
            let b64 = b64_encode(&encoded);
            if b64.as_str().as_bytes().len() <= MAX_SCREENSHOT_BASE64 {
                proof {
                    lemma_bytes_len_is_utf8(b64@);
                }
                return Ok(b64);
            }
            qi = qi + 1;
        }
        let w = img_width(&current);
        let h = img_height(&current);
        let next_w = ((4 * (w as u64) + 2) / 5) as u32;
        let next_h = ((4 * (h as u64) + 2) / 5) as u32;
        if next_w < 640 || next_h < 360 {
            break;
        }
        current = resize_image(&current, next_w, next_h);
        round = round + 1;
    }
    Err(CompressError::TooLarge)
}

} // verus!
