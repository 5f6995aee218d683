//! Images: arrays seen as pictures, and their encoded forms.
//!
//! Encoding and decoding are the work of the `image` crate. This module
//! decides which arrays are pictures, which format a path asks for, and what
//! becomes of the codec's answers.

use vstd::prelude::*;
use std::io::Cursor;
use image::{DynamicImage, GrayImage, ImageOutputFormat, RgbImage, RgbaImage};
use crate::error::{Expected, RuntimeError};
use crate::number::{intensity_byte, to_intensity};
use crate::text::{after_last, last_index, push_str, string_from_chars};
use crate::value::{Array, ArrayView, Buffer, BufferView, Value, ValueView};

verus! {

/// How many bytes make up a pixel.
#[derive(Clone, Copy, Debug, PartialEq, Eq, Structural)]
pub enum Channels {
    /// One byte: luminance.
    Gray,
    /// Three bytes: red, green, blue.
    Rgb,
    /// Four bytes: red, green, blue, alpha.
    Rgba,
}

impl Channels {
    /// The number of bytes in a pixel.
    pub open spec fn count(self) -> nat {
        match self {
            Channels::Gray => 1,
            Channels::Rgb => 3,
            Channels::Rgba => 4,
        }
    }

    /// The number of bytes in a pixel.
    pub fn number(&self) -> (n: usize)
        ensures
            n == self.count(),
    {
        match self {
            Channels::Gray => 1,
            Channels::Rgb => 3,
            Channels::Rgba => 4,
        }
    }

    /// The pixel layout with `n` bytes, if there is one.
    pub fn from_count(n: usize) -> (channels: Option<Channels>)
        ensures
            match channels {
                Some(c) => c.count() == n,
                None => n != 1 && n != 3 && n != 4,
            },
    {
        if n == 1 {
            Some(Channels::Gray)
        } else if n == 3 {
            Some(Channels::Rgb)
        } else if n == 4 {
            Some(Channels::Rgba)
        } else {
            None
        }
    }
}

/// Whether a buffer of `len` bytes holds a picture of the given size: the
/// number of bytes needed, `channels * width * height`, worked out in that
/// order, stays within `usize` at each step and is at most `len`.
pub open spec fn fits(width: u32, height: u32, channels: Channels, len: nat) -> bool {
    &&& channels.count() * width <= usize::MAX
    &&& channels.count() * width * height <= usize::MAX
    &&& channels.count() * width * height <= len
}

/// The mathematical content of a picture.
pub struct ImageView {
    pub width: u32,
    pub height: u32,
    pub channels: Channels,
    pub bytes: Seq<u8>,
}

/// A picture: rows of pixels, each of one, three or four bytes. The buffer
/// holds at least `channels * width * height` bytes.
#[derive(Debug, PartialEq, Eq)]
pub struct Image {
    width: u32,
    height: u32,
    channels: Channels,
    bytes: Vec<u8>,
}

impl View for Image {
    type V = ImageView;

    closed spec fn view(&self) -> ImageView {
        ImageView {
            width: self.width,
            height: self.height,
            channels: self.channels,
            bytes: self.bytes@,
        }
    }
}

impl Image {
    #[verifier::type_invariant]
    spec fn buffer_fits(&self) -> bool {
        fits(self.width, self.height, self.channels, self.bytes@.len())
    }

    /// The picture of the given size over the given bytes, if they are
    /// enough for it.
    pub fn from_raw(width: u32, height: u32, channels: Channels, bytes: Vec<u8>) -> (made: Option<
        Image,
    >)
        ensures
            match made {
                Some(image) => fits(width, height, channels, bytes@.len()) && image@ == (ImageView {
                    width,
                    height,
                    channels,
                    bytes: bytes@,
                }),
                None => !fits(width, height, channels, bytes@.len()),
            },
    {
        let row = match channels.number().checked_mul(width as usize) {
            Some(n) => n,
            None => {
                return None;
            },
        };
        let needed = match row.checked_mul(height as usize) {
            Some(n) => n,
            None => {
                return None;
            },
        };
        if needed <= bytes.len() {
            Some(Image { width, height, channels, bytes })
        } else {
            None
        }
    }

    /// The width in pixels.
    pub fn width(&self) -> (w: u32)
        ensures
            w == self@.width,
    {
        self.width
    }

    /// The height in pixels.
    pub fn height(&self) -> (h: u32)
        ensures
            h == self@.height,
    {
        self.height
    }

    /// The pixel layout.
    pub fn channels(&self) -> (c: Channels)
        ensures
            c == self@.channels,
    {
        self.channels
    }

    /// The bytes of the pixels, row by row; enough of them for the size.
    pub fn bytes(&self) -> (b: &Vec<u8>)
        ensures
            b@ == self@.bytes,
            fits(self@.width, self@.height, self@.channels, b@.len()),
    {
        proof {
            use_type_invariant(self);
        }
        &self.bytes
    }
}

impl Clone for Image {
    fn clone(&self) -> (copy: Self)
        ensures
            copy@ == self@,
    {
        proof {
            use_type_invariant(self);
        }
        Image {
            width: self.width,
            height: self.height,
            channels: self.channels,
            bytes: self.bytes.clone(),
        }
    }
}

/// The formats a picture can be written in.
#[derive(Clone, Copy, Debug, PartialEq, Eq, Structural)]
pub enum ImageFormat {
    /// JPEG, at quality 100.
    Jpeg,
    Png,
    Bmp,
    Gif,
    Ico,
    Tga,
    Tiff,
}

/// What follows the last `.` of a path; the whole path if it has no `.`.
pub open spec fn suffix(path: Seq<char>) -> Seq<char> {
    path.skip(last_index(path, '.') + 1)
}

/// The format that a suffix names; PNG for any other.
pub open spec fn format_named(suffix: Seq<char>) -> ImageFormat {
    if suffix == seq!['j', 'p', 'g'] || suffix == seq!['j', 'p', 'e', 'g'] {
        ImageFormat::Jpeg
    } else if suffix == seq!['b', 'm', 'p'] {
        ImageFormat::Bmp
    } else if suffix == seq!['g', 'i', 'f'] {
        ImageFormat::Gif
    } else if suffix == seq!['i', 'c', 'o'] {
        ImageFormat::Ico
    } else if suffix == seq!['t', 'g', 'a'] {
        ImageFormat::Tga
    } else if suffix == seq!['t', 'i', 'f', 'f'] {
        ImageFormat::Tiff
    } else {
        ImageFormat::Png
    }
}

impl ImageFormat {
    /// The format that the suffix of a path asks for: `jpg` and `jpeg` ask
    /// for JPEG, `png`, `bmp`, `gif`, `ico`, `tga` and `tiff` for themselves,
    /// anything else for PNG.
    pub fn from_path(path: &Vec<char>) -> (format: ImageFormat)
        ensures
            format == format_named(suffix(path@)),
    {
        proof {
            assert(path@.skip(0) == path@);
        }
        let start = after_last(path, 0, '.');
        let n = path.len() - start;
        let ghost ext = suffix(path@);
        assert(ext.len() == n);
        assert(forall|i: int| 0 <= i < n ==> ext[i] == path@[start + i]);
        if n == 3 {
            let (a, b, c) = (path[start], path[start + 1], path[start + 2]);
            assert(ext == seq![a, b, c]);
            if a == 'j' && b == 'p' && c == 'g' {
                ImageFormat::Jpeg
            } else if a == 'b' && b == 'm' && c == 'p' {
                ImageFormat::Bmp
            } else if a == 'g' && b == 'i' && c == 'f' {
                ImageFormat::Gif
            } else if a == 'i' && b == 'c' && c == 'o' {
                ImageFormat::Ico
            } else if a == 't' && b == 'g' && c == 'a' {
                ImageFormat::Tga
            } else {
                ImageFormat::Png
            }
        } else if n == 4 {
            let (a, b, c, d) = (path[start], path[start + 1], path[start + 2], path[start + 3]);
            assert(ext == seq![a, b, c, d]);
            if a == 'j' && b == 'p' && c == 'e' && d == 'g' {
                ImageFormat::Jpeg
            } else if a == 't' && b == 'i' && c == 'f' && d == 'f' {
                ImageFormat::Tiff
            } else {
                ImageFormat::Png
            }
        } else {
            ImageFormat::Png
        }
    }
}

/// The bytes of the pixels of an array of numbers or bytes: a number
/// becomes its intensity, a byte stays.
pub open spec fn pixel_bytes(data: BufferView) -> Seq<u8> {
    match data {
        BufferView::Num(s) => s.map_values(|n: u64| intensity_byte(n)),
        BufferView::Byte(s) => s,
        _ => Seq::empty(),
    }
}

/// The picture that a value is, or why it is none.
///
/// The value must be an array of rank 3 of numbers or bytes. Its last
/// dimension is the number of channels and must be 1, 3 or 4. Its first
/// dimension is the height and its second the width; a picture with a side
/// that does not fit in 32 bits is refused with `ImageCreation`.
pub open spec fn image_of(value: ValueView) -> Result<ImageView, RuntimeError> {
    if !(value is Array) || value->Array_0.rank() != 3 {
        Err(RuntimeError::TypeMismatch(Expected::Image))
    } else {
        let array = value->Array_0;
        let (height, width, count) = (
            array.shape[0] as u32,
            array.shape[1] as u32,
            array.shape[2],
        );
        if !(array.data is Num || array.data is Byte) {
            Err(RuntimeError::TypeMismatch(Expected::Image))
        } else if count != 1 && count != 3 && count != 4 {
            Err(RuntimeError::InvalidImageChannels(count))
        } else if array.shape[0] > u32::MAX || array.shape[1] > u32::MAX {
            Err(RuntimeError::ImageCreation)
        } else {
            let channels = if count == 1 {
                Channels::Gray
            } else if count == 3 {
                Channels::Rgb
            } else {
                Channels::Rgba
            };
            if fits(width, height, channels, pixel_bytes(array.data).len()) {
                Ok(ImageView { width, height, channels, bytes: pixel_bytes(array.data) })
            } else {
                Err(RuntimeError::ImageCreation)
            }
        }
    }
}

/// The picture that a value is, or why it is none.
pub fn value_to_image(value: &Value) -> (made: Result<Image, RuntimeError>)
    ensures
        match made {
            Ok(image) => image_of(value@) == Ok::<ImageView, RuntimeError>(image@),
            Err(e) => image_of(value@) == Err::<ImageView, RuntimeError>(e),
        },
{
    let array = match value {
        Value::Array(a) => a,
        Value::Func(_) => {
            return Err(RuntimeError::TypeMismatch(Expected::Image));
        },
    };
    if array.rank() != 3 {
        return Err(RuntimeError::TypeMismatch(Expected::Image));
    }
    let bytes: Vec<u8> = match array.data() {
        Buffer::Num(numbers) => {
            let mut out: Vec<u8> = Vec::new();
            let mut i: usize = 0;
            while i < numbers.len()
                invariant
                    i <= numbers.len(),
                    out@ == numbers@.take(i as int).map_values(|n: u64| intensity_byte(n)),
                decreases numbers.len() - i,
            {
                let ghost before = numbers@.take(i as int).map_values(|n: u64| intensity_byte(n));
                out.push(to_intensity(numbers[i]));
                i += 1;
                assert(numbers@.take(i as int).map_values(|n: u64| intensity_byte(n))
                    == before.push(intensity_byte(numbers@[i - 1])));
            }
            assert(numbers@.take(numbers@.len() as int) == numbers@);
            out
        },
        Buffer::Byte(bytes) => bytes.clone(),
        _ => {
            return Err(RuntimeError::TypeMismatch(Expected::Image));
        },
    };
    let shape = array.shape();
    let channels = match Channels::from_count(shape[2]) {
        Some(c) => c,
        None => {
            return Err(RuntimeError::InvalidImageChannels(shape[2]));
        },
    };
    if shape[0] > 0xFFFF_FFFF || shape[1] > 0xFFFF_FFFF {
        return Err(RuntimeError::ImageCreation);
    }
    let height = shape[0] as u32;
    let width = shape[1] as u32;
    match Image::from_raw(width, height, channels, bytes) {
        Some(image) => Ok(image),
        None => Err(RuntimeError::ImageCreation),
    }
}

/// The error of the `image` crate.
#[verifier::external_type_specification]
#[verifier::external_body]
pub struct ExImageError(image::ImageError);

/// The file that the `image` crate writes for a picture in one of its
/// output formats, or `None` where it refuses to.
pub uninterp spec fn encoded_as(
    width: u32,
    height: u32,
    channels: Channels,
    bytes: Seq<u8>,
    target: ImageOutputFormat,
) -> Option<Seq<u8>>;

/// The picture that the `image` crate reads from a file, as width, height
/// and RGBA bytes, or `None` where it refuses to.
pub uninterp spec fn decoded_image(file: Seq<u8>) -> Option<(u32, u32, Seq<u8>)>;

/// The `image` crate's name for a format; JPEG is written at quality 100.
pub open spec fn target_of(format: ImageFormat) -> ImageOutputFormat {
    match format {
        ImageFormat::Jpeg => ImageOutputFormat::Jpeg(100),
        ImageFormat::Png => ImageOutputFormat::Png,
        ImageFormat::Bmp => ImageOutputFormat::Bmp,
        ImageFormat::Gif => ImageOutputFormat::Gif,
        ImageFormat::Ico => ImageOutputFormat::Ico,
        ImageFormat::Tga => ImageOutputFormat::Tga,
        ImageFormat::Tiff => ImageOutputFormat::Tiff,
    }
}

/// The longest side of a picture that is written as BMP: the encoder
/// multiplies the width by up to four and the height by up to three in 32
/// bits.
pub const LONGEST_BMP_SIDE: u32 = 0x3FFF_FFFF;

/// Whether a picture has a side too long for the format it is to be written
/// in.
pub open spec fn too_long(width: u32, height: u32, format: ImageFormat) -> bool {
    format is Bmp && (width > LONGEST_BMP_SIDE || height > LONGEST_BMP_SIDE)
}

/// The file for a picture in a format, or `None` where the picture cannot
/// be written in it: it has a side too long for the format, or the codec
/// refuses it.
pub open spec fn encoded_image(
    width: u32,
    height: u32,
    channels: Channels,
    bytes: Seq<u8>,
    format: ImageFormat,
) -> Option<Seq<u8>> {
    if too_long(width, height, format) {
        None
    } else {
        encoded_as(width, height, channels, bytes, target_of(format))
    }
}

/// Encodes a picture.
///
/// Builds the `image` crate's picture over the same bytes and has
/// `DynamicImage::write_to` write it, into memory, in the given output
/// format. What is written depends on the picture and the format alone. The
/// BMP encoder multiplies the width by the bytes of a pixel and the height by
/// the padding of a row in 32 bits without a check, so a picture with a side
/// too long for that is not to be handed to it.
#[verifier::external_body]
fn encode(image: &Image, target: ImageOutputFormat) -> (file: Result<Vec<u8>, image::ImageError>)
    requires
        target is Bmp ==> image@.width <= LONGEST_BMP_SIDE && image@.height <= LONGEST_BMP_SIDE,
    ensures
        match file {
            Ok(bytes) => encoded_as(
                image@.width,
                image@.height,
                image@.channels,
                image@.bytes,
                target,
            ) == Some(bytes@),
            Err(_) => encoded_as(
                image@.width,
                image@.height,
                image@.channels,
                image@.bytes,
                target,
            ) is None,
        },
{
    let (w, h, b) = (image.width, image.height, image.bytes.clone());
    let picture = match image.channels {
        Channels::Gray => GrayImage::from_raw(w, h, b).map(DynamicImage::ImageLuma8),
        Channels::Rgb => RgbImage::from_raw(w, h, b).map(DynamicImage::ImageRgb8),
        Channels::Rgba => RgbaImage::from_raw(w, h, b).map(DynamicImage::ImageRgba8),
    };
    let mut out = Cursor::new(Vec::new());
    picture.expect("the buffer fits").write_to(&mut out, target).map(|_| out.into_inner())
}

/// The `image` crate's name for a format.
fn output_format(format: ImageFormat) -> (target: ImageOutputFormat)
    ensures
        target == target_of(format),
{
    match format {
        ImageFormat::Jpeg => ImageOutputFormat::Jpeg(100),
        ImageFormat::Png => ImageOutputFormat::Png,
        ImageFormat::Bmp => ImageOutputFormat::Bmp,
        ImageFormat::Gif => ImageOutputFormat::Gif,
        ImageFormat::Ico => ImageOutputFormat::Ico,
        ImageFormat::Tga => ImageOutputFormat::Tga,
        ImageFormat::Tiff => ImageOutputFormat::Tiff,
    }
}

/// The output formats of the `image` crate.
#[verifier::external_type_specification]
pub struct ExImageOutputFormat(image::ImageOutputFormat);

/// Decodes a picture.
///
/// Has `image::load_from_memory` guess the format and read the file, and
/// takes the picture as RGBA. What is read depends on the file alone, and
/// an RGBA picture holds four bytes for each of its pixels.
#[verifier::external_body]
fn decode(file: &Vec<u8>) -> (picture: Result<(u32, u32, Vec<u8>), image::ImageError>)
    ensures
        match picture {
            Ok((w, h, bytes)) => decoded_image(file@) == Some((w, h, bytes@)) && bytes@.len() == 4
                * w * h,
            Err(_) => decoded_image(file@) is None,
        },
{
    let picture = image::load_from_memory(file)?.into_rgba8();
    Ok((picture.width(), picture.height(), picture.into_raw()))
}

/// The text of an error of the `image` crate, as its `Display` gives it.
#[verifier::external_body]
fn error_text(error: &image::ImageError) -> (text: String) {
    error.to_string()
}

/// Whether `text` begins with `prefix`.
pub open spec fn starts_with(text: Seq<char>, prefix: Seq<char>) -> bool {
    text.len() >= prefix.len() && text.subrange(0, prefix.len() as int) == prefix
}

fn failure(prefix: &str, error: &image::ImageError) -> (err: RuntimeError)
    ensures
        err matches RuntimeError::Io(m) && starts_with(m@, prefix@),
{
    let mut out: Vec<char> = Vec::new();
    push_str(&mut out, prefix);
    let text = error_text(error);
    push_str(&mut out, text.as_str());
    assert(out@.subrange(0, prefix@.len() as int) == prefix@);
    RuntimeError::Io(string_from_chars(&out))
}

/// The file for a value as a picture in a format.
///
/// Fails as `value_to_image` does where the value is no picture, and with an
/// `Io` error whose message begins with `Failed to write image: ` where the
/// picture has a side too long for the format or the codec refuses it.
pub fn value_to_image_bytes(value: &Value, format: ImageFormat) -> (file: Result<
    Vec<u8>,
    RuntimeError,
>)
    ensures
        match image_of(value@) {
            Err(e) => file == Err::<Vec<u8>, RuntimeError>(e),
            Ok(image) => match encoded_image(
                image.width,
                image.height,
                image.channels,
                image.bytes,
                format,
            ) {
                Some(bytes) => file matches Ok(b) && b@ == bytes,
                None => file matches Err(RuntimeError::Io(m)) && starts_with(
                    m@,
                    "Failed to write image: "@,
                ),
            },
        },
{
    let image = value_to_image(value)?;
    if let ImageFormat::Bmp = format {
        if image.width() > LONGEST_BMP_SIDE || image.height() > LONGEST_BMP_SIDE {
            let told = String::from_str("Failed to write image: a side is too long for BMP");
            proof {
                reveal_strlit("Failed to write image: a side is too long for BMP");
                reveal_strlit("Failed to write image: ");
                assert(told@.subrange(0, "Failed to write image: "@.len() as int)
                    =~= "Failed to write image: "@);
            }
            return Err(RuntimeError::Io(told));
        }
    }
    match encode(&image, output_format(format)) {
        Ok(bytes) => Ok(bytes),
        Err(e) => Err(failure("Failed to write image: ", &e)),
    }
}

/// The array for a picture that was read: shape `[height, width, 4]` over
/// the four bytes of each of its pixels, row by row.
pub open spec fn rgba_array(width: u32, height: u32, bytes: Seq<u8>) -> ArrayView {
    ArrayView {
        shape: seq![height as usize, width as usize, 4usize],
        data: BufferView::Byte(Seq::new((4 * width * height) as nat, |i: int| bytes[i])),
    }
}

/// The array that an image file is read as, or `None` where the codec
/// refuses the file.
pub open spec fn picture_read(file: Seq<u8>) -> Option<ArrayView> {
    match decoded_image(file) {
        Some((width, height, bytes)) => Some(rgba_array(width, height, bytes)),
        None => None,
    }
}

/// The array of a picture that was read has as many elements as its shape
/// says.
pub proof fn lemma_picture_keeps_shape(width: u32, height: u32, bytes: Seq<u8>)
    ensures
        rgba_array(width, height, bytes).wf(),
        rgba_array(width, height, bytes).rank() == 3,
{
    let array = rgba_array(width, height, bytes);
    lemma_rgba_product(array.shape);
    let (w, h) = (width as nat, height as nat);
    assert(h * w * 4 == 4 * w * h) by (nonlinear_arith);
}

/// The array for an image file: rank 3, shape `[height, width, 4]`, bytes.
///
/// Fails with an `Io` error whose message begins with
/// `Failed to read image: ` where the codec refuses the file, and only
/// there.
pub fn image_from_bytes(file: &Vec<u8>) -> (made: Result<Array, RuntimeError>)
    ensures
        match picture_read(file@) {
            None => made matches Err(RuntimeError::Io(m)) && starts_with(
                m@,
                "Failed to read image: "@,
            ),
            Some(a) => made matches Ok(array) && array@ == a,
        },
{
    match decode(file) {
        Ok((width, height, bytes)) => {
            let mut shape: Vec<usize> = Vec::new();
            shape.push(height as usize);
            shape.push(width as usize);
            shape.push(4);
            proof {
                assert(shape@ == seq![height as usize, width as usize, 4usize]);
                lemma_picture_keeps_shape(width, height, bytes@);
                assert(Seq::new((4 * width * height) as nat, |i: int| bytes@[i]) =~= bytes@);
            }
            match Array::new(shape, Buffer::Byte(bytes)) {
                Ok(array) => Ok(array),
                Err(_) => {
                    assert(false);
                    Err(RuntimeError::ShapeMismatch)
                },
            }
        },
        Err(e) => Err(failure("Failed to read image: ", &e)),
    }
}

proof fn lemma_rgba_product(shape: Seq<usize>)
    requires
        shape.len() == 3,
    ensures
        crate::value::shape_product(shape) == (shape[0] as nat) * (shape[1] as nat) * (
        shape[2] as nat),
{
    let two = shape.drop_last();
    let one = two.drop_last();
    assert(one.drop_last() == Seq::<usize>::empty());
    assert(crate::value::shape_product(one.drop_last()) == 1);
    assert(crate::value::shape_product(one) == 1 * (shape[0] as nat));
    assert(crate::value::shape_product(two) == crate::value::shape_product(one) * (
    shape[1] as nat));
}

} // verus!
