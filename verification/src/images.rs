//! Images embedded in a template: base64 text, decoded by `base64` into
//! the bytes of an image file, and the RGBA pixels that the renderer reads
//! from them, split into the colour plane and the transparency plane that a
//! PDF image and its soft mask carry.
use vstd::prelude::*;

use crate::text::owned;
use base64::Engine;
use vstd::string::StringExecFns;

verus! {

/// The widest and tallest image that the renderer decodes, in pixels.
pub const MAX_IMAGE_SIDE: u32 = 10000;
/// The most memory an image decoder may take, in bytes.
pub const MAX_IMAGE_ALLOC: u64 = 128 * 1024 * 1024;
pub const BAD_IMAGE_DATA: &'static str = "Invalid UDF image data.";
pub const UNDECODABLE_PREFIX: &'static str = "Cannot decode UDF image: ";

/// Whether the character has the Unicode `White_Space` property, as
/// `char::is_whitespace` says: U+0009 to U+000D, U+0020, U+0085, U+00A0,
/// U+1680, U+2000 to U+200A, U+2028, U+2029, U+202F, U+205F and U+3000.
pub open spec fn is_white_space(c: char) -> bool {
    let v = c as u32;
    (0x09 <= v && v <= 0x0d) || v == 0x20 || v == 0x85 || v == 0xa0 || v == 0x1680 || (0x2000 <= v && v
        <= 0x200a) || v == 0x2028 || v == 0x2029 || v == 0x202f || v == 0x205f || v == 0x3000
}

/// Whether the character is not white space.
pub open spec fn not_white() -> spec_fn(char) -> bool {
    |c: char| !is_white_space(c)
}

/// Whether the character has the Unicode `White_Space` property.
pub fn is_whitespace(c: char) -> (white: bool)
    ensures
        white == is_white_space(c),
{
    let v = c as u32;
    (0x09 <= v && v <= 0x0d) || v == 0x20 || v == 0x85 || v == 0xa0 || v == 0x1680 || (0x2000 <= v && v
        <= 0x200a) || v == 0x2028 || v == 0x2029 || v == 0x202f || v == 0x205f || v == 0x3000
}

/// The text without its white space.
pub fn strip_whitespace(text: &str) -> (stripped: String)
    ensures
        stripped@ == text@.filter(not_white()),
{
    let mut chars: Vec<char> = Vec::new();
    crate::text::append_chars(&mut chars, text);
    assert(chars@ =~= text@);
    let mut stripped = String::new();
    let mut i: usize = 0;
    while i < chars.len()
        invariant
            i <= chars@.len(),
            chars@ == text@,
            stripped@ == chars@.take(i as int).filter(not_white()),
        decreases chars@.len() - i,
    {
        let c = chars[i];
        proof {
            assert(chars@.take(i + 1) =~= chars@.take(i as int).push(c));
            chars@.take(i as int).lemma_filter_push(c, not_white());
        }
        if !is_whitespace(c) {
            crate::text::push_char(&mut stripped, c);
        }
        i += 1;
    }
    assert(chars@.take(chars@.len() as int) =~= chars@);
    stripped
}

/// The colour bytes of RGBA pixels: the first three of every four.
pub open spec fn rgb_of(pixels: Seq<u8>) -> Seq<u8> {
    Seq::new((pixels.len() / 4) * 3, |k: int| pixels[(k / 3) * 4 + k % 3])
}

/// The transparency bytes of RGBA pixels: the last of every four.
pub open spec fn alpha_of(pixels: Seq<u8>) -> Seq<u8> {
    Seq::new(pixels.len() / 4, |k: int| pixels[k * 4 + 3])
}

/// Splits RGBA pixels into their colour and transparency planes; a trailing
/// incomplete pixel is left out.
pub fn split_rgba(pixels: &Vec<u8>) -> (planes: (Vec<u8>, Vec<u8>))
    ensures
        planes.0@ == rgb_of(pixels@),
        planes.1@ == alpha_of(pixels@),
{
    let n = pixels.len();
    let count = n / 4;
    let mut rgb: Vec<u8> = Vec::new();
    let mut alpha: Vec<u8> = Vec::new();
    let mut p: usize = 0;
    while p < count
        invariant
            n == pixels@.len(),
            count == n / 4,
            p <= count,
            rgb@.len() == p * 3,
            alpha@.len() == p,
            forall|k: int| 0 <= k < p * 3 ==> #[trigger] rgb@[k] == pixels@[(k / 3) * 4 + k % 3],
            forall|k: int| 0 <= k < p ==> #[trigger] alpha@[k] == pixels@[k * 4 + 3],
        decreases count - p,
    {
        assert(p * 4 + 3 < n) by (nonlinear_arith)
            requires
                p < count,
                count == n / 4,
        ;
        let base = p * 4;
        let ghost before = rgb@;
        rgb.push(pixels[base]);
        rgb.push(pixels[base + 1]);
        rgb.push(pixels[base + 2]);
        alpha.push(pixels[base + 3]);
        assert forall|k: int| 0 <= k < (p + 1) * 3 implies #[trigger] rgb@[k] == pixels@[(k / 3) * 4 + k % 3] by {
            if k >= p * 3 {
                assert(k / 3 == p && k % 3 == k - p * 3) by (nonlinear_arith)
                    requires
                        p * 3 <= k < (p + 1) * 3,
                ;
            } else {
                assert(rgb@[k] == before[k]);
            }
        }
        p += 1;
    }
    assert(rgb@ =~= rgb_of(pixels@));
    assert(alpha@ =~= alpha_of(pixels@));
    (rgb, alpha)
}

/// Why the `image` crate could not read an image.
#[derive(Debug)]
pub enum ImageError {
    /// Guessing the format failed, with this message.
    Unreadable(String),
    /// Decoding failed, with this message.
    Undecodable(String),
}

pub enum ImageErrorView {
    Unreadable(Seq<char>),
    Undecodable(Seq<char>),
}

impl DeepView for ImageError {
    type V = ImageErrorView;

    open spec fn deep_view(&self) -> ImageErrorView {
        match self {
            ImageError::Unreadable(e) => ImageErrorView::Unreadable(e@),
            ImageError::Undecodable(e) => ImageErrorView::Undecodable(e@),
        }
    }
}

/// What `base64`'s standard engine decodes from this text, or `None` where
/// it refuses it.
pub uninterp spec fn base64_decoded(text: Seq<char>) -> Option<Seq<u8>>;

/// Calls `decode` of `base64::engine::general_purpose::STANDARD`. The
/// contract only names the result: it is a function of the text alone.
#[verifier::external_body]
fn decode_base64(text: &str) -> (bytes: Option<Vec<u8>>)
    ensures
        bytes.deep_view() == base64_decoded(text@),
{
    base64::engine::general_purpose::STANDARD.decode(text).ok()
}

/// An image ready for a PDF: its size in pixels, its colour plane and its
/// transparency plane.
#[derive(Debug)]
pub struct Picture {
    pub width: u32,
    pub height: u32,
    pub rgb: Vec<u8>,
    pub alpha: Vec<u8>,
}

pub struct PictureView {
    pub width: u32,
    pub height: u32,
    pub rgb: Seq<u8>,
    pub alpha: Seq<u8>,
}

impl DeepView for Picture {
    type V = PictureView;

    open spec fn deep_view(&self) -> PictureView {
        PictureView { width: self.width, height: self.height, rgb: self.rgb@, alpha: self.alpha@ }
    }
}

/// The picture that a decoded image gives, or the message for why it could
/// not be decoded.
pub open spec fn picture_of(decoded: Result<(u32, u32, Seq<u8>), ImageErrorView>) -> Result<PictureView, Seq<char>> {
    match decoded {
        Ok((w, h, p)) => Ok(PictureView { width: w, height: h, rgb: rgb_of(p), alpha: alpha_of(p) }),
        Err(ImageErrorView::Unreadable(e)) => Err(e),
        Err(ImageErrorView::Undecodable(e)) => Err(UNDECODABLE_PREFIX@ + e),
    }
}

/// The picture of what `image` decoded, or the message for why it could
/// not.
pub fn picture_from(decoded: Result<(u32, u32, Vec<u8>), ImageError>) -> (picture: Result<Picture, String>)
    ensures
        match picture {
            Ok(p) => picture_of(
                match decoded {
                    Ok((w, h, px)) => Ok((w, h, px@)),
                    Err(e) => Err(e.deep_view()),
                },
            ) == Ok::<PictureView, Seq<char>>(p.deep_view()),
            Err(m) => picture_of(
                match decoded {
                    Ok((w, h, px)) => Ok((w, h, px@)),
                    Err(e) => Err(e.deep_view()),
                },
            ) == Err::<PictureView, Seq<char>>(m@),
        },
{
    match decoded {
        Ok((width, height, pixels)) => {
            let (rgb, alpha) = split_rgba(&pixels);
            Ok(Picture { width, height, rgb, alpha })
        },
        Err(ImageError::Unreadable(e)) => Err(e),
        Err(ImageError::Undecodable(e)) => {
            let mut message = owned(UNDECODABLE_PREFIX);
            message.append(e.as_str());
            Err(message)
        },
    }
}

/// The image bytes that an element's `imageData` carries: base64 text,
/// white space ignored.
pub open spec fn spec_image_data(data: Seq<char>) -> Result<Seq<u8>, Seq<char>> {
    match base64_decoded(data.filter(not_white())) {
        None => Err(BAD_IMAGE_DATA@),
        Some(bytes) => Ok(bytes),
    }
}

/// Decodes the base64 text of an element's `imageData` into the bytes of
/// the image file, for `image` to read; `picture_from` takes what it reads.
pub fn image_data(data: &str) -> (bytes: Result<Vec<u8>, String>)
    ensures
        match bytes {
            Ok(b) => spec_image_data(data@) == Ok::<Seq<u8>, Seq<char>>(b@),
            Err(m) => spec_image_data(data@) == Err::<Seq<u8>, Seq<char>>(m@),
        },
{
    let encoded = strip_whitespace(data);
    match decode_base64(encoded.as_str()) {
        None => Err(owned(BAD_IMAGE_DATA)),
        Some(bytes) => {
            proof {
                crate::cms_der::lemma_bytes_deep_view(bytes);
            }
            Ok(bytes)
        },
    }
}

} // verus!
