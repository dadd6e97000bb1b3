//! The decode pipeline: raw bytes, with an optional format hint, to a
//! normalized non-premultiplied RGBA pixel buffer. The codec itself is the
//! image crate; its outcome on given bytes is named, and everything around
//! the call is verified against that name.

use vstd::prelude::*;

verus! {

/// Mathematical view of a pixel buffer.
pub struct PixelsView {
    pub width: u32,
    pub height: u32,
    pub rgba: Seq<u8>,
}

impl PixelsView {
    /// Four RGBA bytes for every texel.
    pub open spec fn wf(self) -> bool {
        self.rgba.len() == 4 * (self.width as int) * (self.height as int)
    }
}

/// A decoded image: explicit dimensions and non-premultiplied RGBA bytes,
/// four per texel.
pub struct PixelBuffer {
    width: u32,
    height: u32,
    rgba: Vec<u8>,
}

impl View for PixelBuffer {
    type V = PixelsView;

    closed spec fn view(&self) -> PixelsView {
        PixelsView { width: self.width, height: self.height, rgba: self.rgba@ }
    }
}

impl PixelBuffer {
    /// The width in texels.
    pub fn width(&self) -> (r: u32)
        ensures
            r == self@.width,
    {
        self.width
    }

    /// The height in texels.
    pub fn height(&self) -> (r: u32)
        ensures
            r == self@.height,
    {
        self.height
    }

    /// The RGBA bytes, row by row, four per texel.
    pub fn data(&self) -> (r: &Vec<u8>)
        ensures
            r@ == self@.rgba,
    {
        &self.rgba
    }
}

/// A format hint constraining the decoder, when the source's format is
/// known up front.
#[derive(Clone, Copy, PartialEq, Eq, Debug)]
pub enum ImageFormat {
    Png,
    Jpeg,
    Gif,
    WebP,
    Bmp,
}

/// What the codec yields for these bytes with the format auto-detected:
/// a decoded pixel buffer, or the stringified decode error. A function of
/// the bytes alone.
pub uninterp spec fn decoded(bytes: Seq<u8>) -> Result<PixelsView, Seq<char>>;

/// What the codec yields for these bytes when constrained to the given
/// format. A function of the bytes and the format alone.
pub uninterp spec fn decoded_with_format(bytes: Seq<u8>, format: ImageFormat) -> Result<
    PixelsView,
    Seq<char>,
>;

/// Relies on image::load_from_memory and DynamicImage::to_rgba8: the
/// format is guessed from the bytes, a success yields a width x height
/// RGBA8 buffer with exactly four bytes per texel, a failure reports the
/// stringified cause; the outcome depends on the bytes alone.
#[verifier::external_body]
fn decode_auto(bytes: &Vec<u8>) -> (r: Result<PixelBuffer, String>)
    ensures
        r is Ok <==> decoded(bytes@) is Ok,
        r is Ok ==> r->Ok_0@ == decoded(bytes@)->Ok_0 && r->Ok_0@.wf(),
        r is Err ==> r->Err_0@ == decoded(bytes@)->Err_0,
{
    match image::load_from_memory(bytes.as_slice()) {
        Ok(img) => {
            let rgba = img.to_rgba8();
            let (width, height) = (rgba.width(), rgba.height());
            Ok(PixelBuffer { width, height, rgba: rgba.into_raw() })
        },
        Err(e) => Err(e.to_string()),
    }
}

/// Relies on image::load_from_memory_with_format and
/// DynamicImage::to_rgba8: as with the auto-detected decode, but the
/// decoder is constrained to the named format; the outcome depends on the
/// bytes and the format alone.
#[verifier::external_body]
fn decode_constrained(bytes: &Vec<u8>, format: ImageFormat) -> (r: Result<PixelBuffer, String>)
    ensures
        r is Ok <==> decoded_with_format(bytes@, format) is Ok,
        r is Ok ==> r->Ok_0@ == decoded_with_format(bytes@, format)->Ok_0 && r->Ok_0@.wf(),
        r is Err ==> r->Err_0@ == decoded_with_format(bytes@, format)->Err_0,
{
    let f = match format {
        ImageFormat::Png => image::ImageFormat::Png,
        ImageFormat::Jpeg => image::ImageFormat::Jpeg,
        ImageFormat::Gif => image::ImageFormat::Gif,
        ImageFormat::WebP => image::ImageFormat::WebP,
        ImageFormat::Bmp => image::ImageFormat::Bmp,
    };
    match image::load_from_memory_with_format(bytes.as_slice(), f) {
        Ok(img) => {
            let rgba = img.to_rgba8();
            let (width, height) = (rgba.width(), rgba.height());
            Ok(PixelBuffer { width, height, rgba: rgba.into_raw() })
        },
        Err(e) => Err(e.to_string()),
    }
}

/// A decode failure: the bytes could not be interpreted as a supported
/// image, with the underlying cause stringified. Terminal for the load.
#[derive(Debug)]
pub enum DecodeError {
    DecodeFailed(String),
}

impl View for DecodeError {
    type V = Seq<char>;

    open spec fn view(&self) -> Seq<char> {
        match self {
            DecodeError::DecodeFailed(s) => s@,
        }
    }
}

impl DecodeError {
    /// The stringified underlying cause.
    pub fn cause(&self) -> (r: &String)
        ensures
            r@ == self@,
    {
        match self {
            DecodeError::DecodeFailed(s) => s,
        }
    }
}

/// What `decode` yields: the constrained decode under a hint, the
/// auto-detected one without.
pub open spec fn spec_decode(bytes: Seq<u8>, format: Option<ImageFormat>) -> Result<
    PixelsView,
    Seq<char>,
> {
    match format {
        Some(f) => decoded_with_format(bytes, f),
        None => decoded(bytes),
    }
}

/// Decode raw bytes to a normalized RGBA pixel buffer. A present hint
/// constrains decoding to that format; otherwise the format is
/// auto-detected from the content. Any failure is terminal and carries
/// the stringified cause.
pub fn decode(bytes: &Vec<u8>, format: Option<ImageFormat>) -> (r: Result<PixelBuffer, DecodeError>)
    ensures
        r is Ok <==> spec_decode(bytes@, format) is Ok,
        r is Ok ==> r->Ok_0@ == spec_decode(bytes@, format)->Ok_0 && r->Ok_0@.wf(),
        r is Err ==> r->Err_0@ == spec_decode(bytes@, format)->Err_0,
{
    let outcome = match format {
        Some(f) => decode_constrained(bytes, f),
        None => decode_auto(bytes),
    };
    match outcome {
        Ok(p) => Ok(p),
        Err(e) => Err(DecodeError::DecodeFailed(e)),
    }
}

} // verus!
