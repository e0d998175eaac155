//! Image payload checks: the format sniffed from magic bytes with a
//! file-extension fallback, and the size gate applied to fetched images
//! before they are encoded for the chat.

use vstd::prelude::*;
use vstd::string::StringExecFns;
use crate::text::{chars_of, run_end, lemma_run_end_is};
use crate::config::{lower_seq, last_dot_after, lemma_last_dot_is, has_prefix};
use crate::pattern::copy_range;
use crate::screenshot::{b64_encode_of, b64_encode};

verus! {

/// The largest image accepted for the chat, in bytes.
pub const MAX_IMAGE_BYTES: usize = 10 * 1024 * 1024;

/// What a fetched image yields: its bytes as base64 and its detected type.
#[derive(Debug)]
pub struct FetchImageResult {
    pub base64: String,
    pub mime_type: String,
}

pub open spec fn not_query_fn() -> spec_fn(char) -> bool {
    |c: char| c != '?' && c != '#'
}

/// The media type named by the path's extension, once any query or
/// fragment suffix is cut away; the text after the last dot decides, or
/// the whole name when there is no dot.
pub open spec fn mime_from_extension(path: Seq<char>) -> Option<Seq<char>> {
    let cut = run_end(path, 0, not_query_fn());
    let clean = path.take(cut);
    let d = last_dot_after(clean, 0);
    let seg = if d >= 0 {
        clean.subrange(d + 1, clean.len() as int)
    } else {
        clean
    };
    let low = lower_seq(seg);
    if low == "png"@ {
        Some("image/png"@)
    } else if low == "jpg"@ || low == "jpeg"@ {
        Some("image/jpeg"@)
    } else if low == "gif"@ {
        Some("image/gif"@)
    } else if low == "webp"@ {
        Some("image/webp"@)
    } else if low == "bmp"@ {
        Some("image/bmp"@)
    } else {
        None
    }
}

/// The media type of an image: the four known magic-byte signatures are
/// checked first, then the path's extension.
pub open spec fn detect_mime_spec(path: Seq<char>, bytes: Seq<u8>) -> Option<Seq<char>> {
    if bytes.len() >= 4 && bytes[0] == 0x89 && bytes[1] == 0x50 && bytes[2] == 0x4E && bytes[3]
        == 0x47 {
        Some("image/png"@)
    } else if bytes.len() >= 3 && bytes[0] == 0xFF && bytes[1] == 0xD8 && bytes[2] == 0xFF {
        Some("image/jpeg"@)
    } else if bytes.len() >= 4 && bytes[0] == 0x47 && bytes[1] == 0x49 && bytes[2] == 0x46
        && bytes[3] == 0x38 {
        Some("image/gif"@)
    } else if bytes.len() >= 12 && bytes[0] == 0x52 && bytes[1] == 0x49 && bytes[2] == 0x46
        && bytes[3] == 0x46 && bytes[8] == 0x57 && bytes[9] == 0x45 && bytes[10] == 0x42
        && bytes[11] == 0x50 {
        Some("image/webp"@)
    } else {
        mime_from_extension(path)
    }
}

/// Executable text equality against a vector.
fn text_is(v: &Vec<char>, lit: &Vec<char>) -> (r: bool)
    ensures
        r == (v@ == lit@),
{
    if v.len() != lit.len() {
        return false;
    }
    let mut i: usize = 0;
    while i < v.len()
        invariant
            v@.len() == lit@.len(),
            0 <= i <= v@.len(),
            forall|k: int| 0 <= k < i ==> v@[k] == lit@[k],
        decreases v.len() - i,
    {
        if v[i] != lit[i] {
            return false;
        }
        i = i + 1;
    }
    proof {
        assert(v@ =~= lit@);
    }
    true
}

/// Detects an image's media type from its bytes, falling back to the
/// path's extension.
pub fn detect_image_mime(path: &str, bytes: &[u8]) -> (r: Option<String>)
    ensures
        match r {
            Some(s) => detect_mime_spec(path@, bytes@) == Some(s@),
            None => detect_mime_spec(path@, bytes@) is None,
        },
{
    if bytes.len() >= 4 && bytes[0] == 0x89 && bytes[1] == 0x50 && bytes[2] == 0x4E && bytes[3]
        == 0x47 {
        return Some(String::from_str("image/png"));
    }
    if bytes.len() >= 3 && bytes[0] == 0xFF && bytes[1] == 0xD8 && bytes[2] == 0xFF {
        return Some(String::from_str("image/jpeg"));
    }
    if bytes.len() >= 4 && bytes[0] == 0x47 && bytes[1] == 0x49 && bytes[2] == 0x46 && bytes[3]
        == 0x38 {
        return Some(String::from_str("image/gif"));
    }
    if bytes.len() >= 12 && bytes[0] == 0x52 && bytes[1] == 0x49 && bytes[2] == 0x46 && bytes[3]
        == 0x46 && bytes[8] == 0x57 && bytes[9] == 0x45 && bytes[10] == 0x42 && bytes[11]
        == 0x50 {
        return Some(String::from_str("image/webp"));
    }
    let v = chars_of(path);
    let mut cut: usize = 0;
    while cut < v.len() && v[cut] != '?' && v[cut] != '#'
        invariant
            0 <= cut <= v@.len(),
            forall|k: int| 0 <= k < cut ==> v@[k] != '?' && v@[k] != '#',
        decreases v.len() - cut,
    {
        cut = cut + 1;
    }
    proof {
        lemma_run_end_is(v@, 0, not_query_fn(), cut as int);
    }
    let mut clean: Vec<char> = Vec::new();
    copy_range(&mut clean, &v, 0, cut);
    proof {
        assert(clean@ =~= v@.take(cut as int));
    }
    let mut j = clean.len();
    while j > 0 && clean[j - 1] != '.'
        invariant
            0 <= j <= clean@.len(),
            forall|k: int| j <= k < clean@.len() ==> clean@[k] != '.',
        decreases j,
    {
        j = j - 1;
    }
    let seg: Vec<char>;
    if j > 0 {
        proof {
            lemma_last_dot_is(clean@, 0, j - 1);
        }
        let mut s: Vec<char> = Vec::new();
        copy_range(&mut s, &clean, j, clean.len());
        seg = s;
    } else {
        proof {
            lemma_last_dot_is(clean@, 0, -1);
            assert(clean@.subrange(0, clean@.len() as int) =~= clean@);
        }
        seg = clean;
    }
    let mut low: Vec<char> = Vec::new();
    let mut i: usize = 0;
    while i < seg.len()
        invariant
            0 <= i <= seg@.len(),
            low@ =~= lower_seq(seg@).take(i as int),
        decreases seg.len() - i,
    {
        low.push(crate::text::to_lower_char(seg[i]));
        i = i + 1;
        proof {
            assert(low@ =~= lower_seq(seg@).take(i as int));
        }
    }
    proof {
        assert(low@ =~= lower_seq(seg@));
    }
    if text_is(&low, &chars_of("png")) {
        Some(String::from_str("image/png"))
    } else if text_is(&low, &chars_of("jpg")) || text_is(&low, &chars_of("jpeg")) {
        Some(String::from_str("image/jpeg"))
    } else if text_is(&low, &chars_of("gif")) {
        Some(String::from_str("image/gif"))
    } else if text_is(&low, &chars_of("webp")) {
        Some(String::from_str("image/webp"))
    } else if text_is(&low, &chars_of("bmp")) {
        Some(String::from_str("image/bmp"))
    } else {
        None
    }
}

/// The media type an image payload is served under: a trusted header type
/// wins; otherwise it must be detectable from the bytes or the path.
pub open spec fn payload_mime(
    path: Seq<char>,
    header_mime: Option<Seq<char>>,
    bytes: Seq<u8>,
) -> Option<Seq<char>> {
    match header_mime {
        Some(h) => if has_prefix(h, "image/"@) {
            Some(h)
        } else {
            detect_mime_spec(path, bytes)
        },
        None => detect_mime_spec(path, bytes),
    }
}

/// Gates and encodes a fetched image for the chat: payloads over the size
/// limit are rejected, the media type comes from the header when it names
/// an image and from the bytes or path otherwise, and the accepted bytes
/// are returned as base64.
pub fn encode_fetched_image(path: &str, header_mime: Option<String>, bytes: &Vec<u8>) -> (r:
    Result<FetchImageResult, String>)
    ensures
        ({
            let hm = match header_mime {
                Some(h) => Some(h@),
                None => None::<Seq<char>>,
            };
            match r {
                Ok(fr) => {
                    &&& bytes@.len() <= MAX_IMAGE_BYTES
                    &&& fr.base64@ == b64_encode_of(bytes@)
                    &&& payload_mime(path@, hm, bytes@) == Some(fr.mime_type@)
                },
                Err(e) => {
                    &&& (bytes@.len() > MAX_IMAGE_BYTES ==> e@ == "Image exceeds 10MB limit"@)
                    &&& (bytes@.len() <= MAX_IMAGE_BYTES ==> payload_mime(path@, hm, bytes@)
                        is None && e@ == "URL is not a supported image"@)
                },
            }
        }),
{
    if bytes.len() > MAX_IMAGE_BYTES {
        return Err(String::from_str("Image exceeds 10MB limit"));
    }
    let header_is_image = match &header_mime {
        Some(h) => {
            let hv = chars_of(h.as_str());
            let pref = chars_of("image/");
            crate::config::starts_with_chars(&hv, &pref)
        },
        None => false,
    };
    let mime_type = if header_is_image {
        match header_mime {
            Some(h) => h,
            None => String::new(),
        }
    } else {
        match detect_image_mime(path, bytes.as_slice()) {
            Some(m) => m,
            None => {
                return Err(String::from_str("URL is not a supported image"));
            },
        }
    };
    let base64 = b64_encode(bytes);
    Ok(FetchImageResult { base64, mime_type })
}


/// Gates and encodes an image read from a file: payloads over the size
/// limit are rejected, the media type must be detectable from the bytes or
/// the file name, and the accepted bytes are returned as base64.
pub fn encode_image_file(path: &str, bytes: &Vec<u8>) -> (r: Result<FetchImageResult, String>)
    ensures
        match r {
            Ok(fr) => {
                &&& bytes@.len() <= MAX_IMAGE_BYTES
                &&& fr.base64@ == b64_encode_of(bytes@)
                &&& detect_mime_spec(path@, bytes@) == Some(fr.mime_type@)
            },
            Err(e) => {
                &&& (bytes@.len() > MAX_IMAGE_BYTES ==> e@ == "Image exceeds 10MB limit"@)
                &&& (bytes@.len() <= MAX_IMAGE_BYTES ==> detect_mime_spec(path@, bytes@) is None
                    && e@ == "Not a supported image file"@)
            },
        },
{
    if bytes.len() > MAX_IMAGE_BYTES {
        return Err(String::from_str("Image exceeds 10MB limit"));
    }
    let mime_type = match detect_image_mime(path, bytes.as_slice()) {
        Some(m) => m,
        None => {
            return Err(String::from_str("Not a supported image file"));
        },
    };
    let base64 = b64_encode(bytes);
    Ok(FetchImageResult { base64, mime_type })
}

} // verus!
