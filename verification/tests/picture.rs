use uiua::backend::IoBackend;
use uiua::error::{Expected, RuntimeError};
use uiua::io::IoOp;
use uiua::kernel::Kernel;
use uiua::picture::{
    image_from_bytes, value_to_image, value_to_image_bytes, Channels, Image, ImageFormat,
};
use uiua::value::{Array, Buffer, Value};
use uiua::vm::Env;

fn bytes(shape: Vec<usize>, data: Vec<u8>) -> Value {
    Value::Array(Array::new(shape, Buffer::Byte(data)).unwrap())
}

fn path(s: &str) -> Vec<char> {
    s.chars().collect()
}

#[test]
fn the_suffix_of_the_path_names_the_format() {
    let cases = [
        ("a.jpg", ImageFormat::Jpeg),
        ("a.jpeg", ImageFormat::Jpeg),
        ("a.png", ImageFormat::Png),
        ("a.bmp", ImageFormat::Bmp),
        ("a.gif", ImageFormat::Gif),
        ("a.ico", ImageFormat::Ico),
        ("a.tga", ImageFormat::Tga),
        ("a.tiff", ImageFormat::Tiff),
        ("a.tif", ImageFormat::Png),
        ("a.JPG", ImageFormat::Png),
        ("a.webp", ImageFormat::Png),
        ("a", ImageFormat::Png),
        ("", ImageFormat::Png),
        ("bmp", ImageFormat::Bmp),
        ("x.png.gif", ImageFormat::Gif),
        ("dir.gif/file", ImageFormat::Png),
        ("a.", ImageFormat::Png),
    ];
    for (p, format) in cases {
        assert_eq!(ImageFormat::from_path(&path(p)), format, "for {p:?}");
    }
}

#[test]
fn from_raw_wants_enough_bytes() {
    assert!(Image::from_raw(2, 2, Channels::Rgb, vec![0; 12]).is_some());
    assert!(Image::from_raw(2, 2, Channels::Rgb, vec![0; 13]).is_some());
    assert!(Image::from_raw(2, 2, Channels::Rgb, vec![0; 11]).is_none());
    assert!(Image::from_raw(0, 5, Channels::Rgba, Vec::new()).is_some());
    assert!(Image::from_raw(u32::MAX, u32::MAX, Channels::Rgba, vec![0; 16]).is_none());
    let image = Image::from_raw(3, 1, Channels::Gray, vec![1, 2, 3]).unwrap();
    assert_eq!((image.width(), image.height(), image.channels()), (3, 1, Channels::Gray));
    assert_eq!(image.bytes(), &vec![1, 2, 3]);
}

#[test]
fn an_image_is_a_rank_3_array_of_numbers_or_bytes() {
    let wrong = Err(RuntimeError::TypeMismatch(Expected::Image));
    assert_eq!(value_to_image(&bytes(vec![4], vec![0; 4])), wrong);
    assert_eq!(value_to_image(&bytes(vec![2, 2], vec![0; 4])), wrong);
    assert_eq!(value_to_image(&bytes(vec![1, 1, 1, 1], vec![0])), wrong);
    assert_eq!(value_to_image(&Value::Array(Array::string("abc"))), wrong);
    let chars = Array::new(vec![1, 1, 3], Buffer::Char(vec!['a', 'b', 'c'])).unwrap();
    assert_eq!(value_to_image(&Value::Array(chars)), wrong);
    assert_eq!(value_to_image(&Value::Func(uiua::function::FunctionId { line: 0, index: 0 })), wrong);
}

#[test]
fn the_last_dimension_must_be_1_3_or_4() {
    for n in [0usize, 2, 5] {
        let value = bytes(vec![1, 1, n], vec![0; n]);
        assert_eq!(value_to_image(&value), Err(RuntimeError::InvalidImageChannels(n)));
    }
    assert_eq!(
        RuntimeError::InvalidImageChannels(2).message(),
        "The last dimension of an image array must be 1, 3, or 4, but it is 2"
    );
    for (n, channels) in [(1, Channels::Gray), (3, Channels::Rgb), (4, Channels::Rgba)] {
        let image = value_to_image(&bytes(vec![2, 1, n], vec![7; 2 * n])).unwrap();
        assert_eq!(image.channels(), channels);
    }
}

#[test]
fn the_first_dimension_is_the_height() {
    let image = value_to_image(&bytes(vec![3, 2, 1], vec![1, 2, 3, 4, 5, 6])).unwrap();
    assert_eq!((image.height(), image.width()), (3, 2));
    assert_eq!(image.bytes(), &vec![1, 2, 3, 4, 5, 6]);
    let image = value_to_image(&bytes(vec![1, 2, 3], vec![1, 2, 3, 4, 5, 6])).unwrap();
    assert_eq!((image.height(), image.width()), (1, 2));
}

#[test]
fn a_side_that_does_not_fit_in_32_bits_is_refused() {
    let wide = bytes(vec![1usize << 32, 0, 3], vec![]);
    assert_eq!(value_to_image(&wide), Err(RuntimeError::ImageCreation));
    let tall = bytes(vec![0, (1usize << 32) + 1, 4], vec![]);
    assert_eq!(value_to_image(&tall), Err(RuntimeError::ImageCreation));
}

#[test]
fn a_side_too_long_for_bmp_is_refused_by_the_library() {
    let wide = bytes(vec![0, 1 << 30, 4], vec![]);
    match value_to_image_bytes(&wide, ImageFormat::Bmp) {
        Err(RuntimeError::Io(m)) => {
            assert_eq!(m, "Failed to write image: a side is too long for BMP")
        }
        other => panic!("{other:?}"),
    }
    let tall = bytes(vec![1 << 30, 0, 1], vec![]);
    assert!(matches!(value_to_image_bytes(&tall, ImageFormat::Bmp), Err(RuntimeError::Io(_))));
}

#[test]
fn numbers_become_intensities() {
    let data = Buffer::Num([0.0f64, 0.5, 1.0, 2.0, -1.0, 0.2].iter().map(|x| x.to_bits()).collect());
    let value = Value::Array(Array::new(vec![2, 1, 3], data).unwrap());
    let image = value_to_image(&value).unwrap();
    assert_eq!(image.bytes(), &vec![0, 127, 255, 255, 0, 51]);
}

#[test]
fn a_written_png_is_read_back_as_rgba() {
    let pixels = vec![255, 0, 0, 0, 255, 0, 0, 0, 255, 255, 255, 255];
    let file = value_to_image_bytes(&bytes(vec![2, 2, 3], pixels), ImageFormat::Png).unwrap();
    assert_eq!(&file[..8], b"\x89PNG\r\n\x1a\n");
    let array = image_from_bytes(&file).unwrap();
    assert_eq!(array.shape(), &vec![2, 2, 4]);
    assert_eq!(
        array.data(),
        &Buffer::Byte(vec![255, 0, 0, 255, 0, 255, 0, 255, 0, 0, 255, 255, 255, 255, 255, 255])
    );
}

#[test]
fn four_channels_come_back_unchanged_from_lossless_formats() {
    let pixels: Vec<u8> = (0..2 * 2 * 4).map(|i| (i * 13 % 256) as u8).collect();
    let value = bytes(vec![2, 2, 4], pixels.clone());
    for format in [ImageFormat::Png, ImageFormat::Bmp, ImageFormat::Tiff] {
        let file = value_to_image_bytes(&value, format).unwrap();
        let array = image_from_bytes(&file).unwrap();
        assert_eq!(Value::Array(array), value, "{format:?}");
    }
}

#[test]
fn gray_and_rgb_come_back_as_rgba_with_the_same_colours() {
    let gray = bytes(vec![2, 1, 1], vec![10, 200]);
    for format in [ImageFormat::Png, ImageFormat::Bmp, ImageFormat::Tiff] {
        let file = value_to_image_bytes(&gray, format).unwrap();
        let array = image_from_bytes(&file).unwrap();
        assert_eq!(array.shape(), &vec![2, 1, 4]);
        assert_eq!(array.data(), &Buffer::Byte(vec![10, 10, 10, 255, 200, 200, 200, 255]));
    }
}

#[test]
fn a_picture_that_is_not_square_comes_back_as_it_was() {
    let pixels: Vec<u8> = (0..3 * 2 * 4).map(|i| i as u8).collect();
    for shape in [vec![3, 2, 4], vec![2, 3, 4], vec![1, 6, 4], vec![6, 1, 4]] {
        let value = bytes(shape, pixels.clone());
        for format in [ImageFormat::Png, ImageFormat::Bmp, ImageFormat::Tiff] {
            let file = value_to_image_bytes(&value, format).unwrap();
            assert_eq!(Value::Array(image_from_bytes(&file).unwrap()), value, "{format:?}");
        }
    }
}

#[test]
fn every_format_writes_its_own_signature() {
    let value = bytes(vec![2, 2, 3], vec![9; 12]);
    let starts: [(ImageFormat, &[u8]); 6] = [
        (ImageFormat::Jpeg, &[0xff, 0xd8, 0xff]),
        (ImageFormat::Png, b"\x89PNG"),
        (ImageFormat::Bmp, b"BM"),
        (ImageFormat::Gif, b"GIF8"),
        (ImageFormat::Ico, &[0, 0, 1, 0]),
        (ImageFormat::Tiff, b"II"),
    ];
    for (format, start) in starts {
        let file = value_to_image_bytes(&value, format).unwrap();
        assert!(file.starts_with(start), "{format:?}");
    }
    assert!(!value_to_image_bytes(&value, ImageFormat::Tga).unwrap().is_empty());
}

#[test]
fn encoding_gives_the_same_file_every_time() {
    let value = bytes(vec![3, 2, 3], (0..18).collect());
    for format in [ImageFormat::Png, ImageFormat::Jpeg, ImageFormat::Gif, ImageFormat::Bmp] {
        let first = value_to_image_bytes(&value, format).unwrap();
        let second = value_to_image_bytes(&value, format).unwrap();
        assert_eq!(first, second, "{format:?}");
    }
}

#[test]
fn a_picture_that_the_codec_refuses_fails_to_write() {
    let wide = bytes(vec![300, 1, 1], vec![0; 300]);
    let Err(RuntimeError::Io(message)) = value_to_image_bytes(&wide, ImageFormat::Ico) else {
        panic!("an ico of 300 pixels width")
    };
    assert!(message.starts_with("Failed to write image: "), "{message}");
    assert!(message.len() > "Failed to write image: ".len());
}

#[test]
fn bytes_that_are_no_picture_fail_to_read() {
    let Err(RuntimeError::Io(message)) = image_from_bytes(&b"not a picture".to_vec()) else {
        panic!("no picture")
    };
    assert!(message.starts_with("Failed to read image: "), "{message}");
    let Err(RuntimeError::Io(message)) = image_from_bytes(&b"\x89PNG\r\n\x1a\nrubbish".to_vec())
    else {
        panic!("no picture")
    };
    assert!(message.starts_with("Failed to read image: "), "{message}");
}

/// A kernel for pictures of bytes, which never asks it anything.
struct NoNumbers;

impl Kernel for NoNumbers {
    fn read(&mut self, _literal: &str) -> u64 {
        0
    }
    fn text(&mut self, _a: u64) -> String {
        String::new()
    }
    fn neg(&mut self, a: u64) -> u64 {
        a
    }
    fn add(&mut self, a: u64, _b: u64) -> u64 {
        a
    }
    fn sub(&mut self, a: u64, _b: u64) -> u64 {
        a
    }
    fn mul(&mut self, a: u64, _b: u64) -> u64 {
        a
    }
    fn div(&mut self, a: u64, _b: u64) -> u64 {
        a
    }
}

struct Files(std::collections::BTreeMap<String, Vec<u8>>);

impl IoBackend for Files {
    fn print_str(&mut self, _s: &str) {}
    fn rand(&mut self) -> u64 {
        0
    }
    fn read_file(&mut self, path: &str, _env: &Env) -> Result<Vec<u8>, RuntimeError> {
        self.0.get(path).cloned().ok_or(RuntimeError::Io("missing".to_string()))
    }
    fn write_file(&mut self, path: &str, contents: Vec<u8>, _env: &Env) -> Result<(), RuntimeError> {
        self.0.insert(path.to_string(), contents);
        Ok(())
    }
}

#[test]
fn imwrite_then_imread_gives_the_picture_back() {
    let mut io = Files(Default::default());
    let mut env = Env::new();
    let picture = bytes(vec![2, 2, 3], vec![255, 0, 0, 0, 255, 0, 0, 0, 255, 255, 255, 255]);
    env.push(picture);
    env.push(Value::Array(Array::string("out.png")));
    assert_eq!(IoOp::ImWrite.run(&mut env, &mut io, &mut NoNumbers), Ok(()));
    assert_eq!(env.height(), 0);
    env.push(Value::Array(Array::string("out.png")));
    assert_eq!(IoOp::ImRead.run(&mut env, &mut io, &mut NoNumbers), Ok(()));
    assert_eq!(
        env.pop(1).unwrap(),
        bytes(
            vec![2, 2, 4],
            vec![255, 0, 0, 255, 0, 255, 0, 255, 0, 0, 255, 255, 255, 255, 255, 255]
        )
    );
}

#[test]
fn imwrite_picks_the_format_by_the_path() {
    let mut io = Files(Default::default());
    let mut env = Env::new();
    for (name, start) in [("a.bmp", &b"BM"[..]), ("b.unknown", &b"\x89PNG"[..]), ("c", &b"\x89PNG"[..])] {
        env.push(bytes(vec![1, 1, 1], vec![5]));
        env.push(Value::Array(Array::string(name)));
        assert_eq!(IoOp::ImWrite.run(&mut env, &mut io, &mut NoNumbers), Ok(()));
        assert!(io.0[name].starts_with(start), "{name}");
    }
    env.push(bytes(vec![1, 1, 2], vec![5, 6]));
    env.push(Value::Array(Array::string("d.png")));
    assert_eq!(IoOp::ImWrite.run(&mut env, &mut io, &mut NoNumbers), Err(RuntimeError::InvalidImageChannels(2)));
}

#[test]
fn a_picture_without_pixels_is_written_or_refused() {
    let formats = [
        ImageFormat::Jpeg,
        ImageFormat::Png,
        ImageFormat::Bmp,
        ImageFormat::Gif,
        ImageFormat::Ico,
        ImageFormat::Tga,
        ImageFormat::Tiff,
    ];
    for format in formats {
        for shape in [vec![0, 0, 3], vec![0, 2, 4], vec![2, 0, 1]] {
            match value_to_image_bytes(&bytes(shape, vec![]), format) {
                Ok(file) => assert!(!file.is_empty()),
                Err(RuntimeError::Io(m)) => assert!(m.starts_with("Failed to write image: ")),
                Err(e) => panic!("{e:?}"),
            }
        }
    }
}

#[test]
fn a_picture_that_is_too_long_for_a_format_is_written_or_refused() {
    let formats = [
        ImageFormat::Jpeg,
        ImageFormat::Png,
        ImageFormat::Bmp,
        ImageFormat::Gif,
        ImageFormat::Ico,
        ImageFormat::Tga,
        ImageFormat::Tiff,
    ];
    for format in formats {
        for shape in [vec![70_000, 1, 1], vec![1, 70_000, 3], vec![257, 1, 4]] {
            let count = shape[0] * shape[1] * shape[2];
            match value_to_image_bytes(&bytes(shape, vec![7; count]), format) {
                Ok(file) => assert!(!file.is_empty()),
                Err(RuntimeError::Io(m)) => assert!(m.starts_with("Failed to write image: ")),
                Err(e) => panic!("{e:?}"),
            }
        }
    }
}

#[test]
fn a_very_long_picture_without_pixels_is_written_or_refused() {
    let formats = [
        ImageFormat::Jpeg,
        ImageFormat::Png,
        ImageFormat::Gif,
        ImageFormat::Ico,
        ImageFormat::Tga,
        ImageFormat::Tiff,
        ImageFormat::Bmp,
    ];
    let longest = u32::MAX as usize;
    for format in formats {
        for count in [1, 3, 4] {
            for shape in [vec![0, longest, count], vec![0, (1 << 30) - 1, count]] {
                match value_to_image_bytes(&bytes(shape, vec![]), format) {
                    Ok(file) => assert!(!file.is_empty()),
                    Err(RuntimeError::Io(m)) => assert!(m.starts_with("Failed to write image: ")),
                    Err(e) => panic!("{e:?}"),
                }
            }
        }
    }
}

#[test]
fn a_very_tall_picture_without_pixels_is_written_or_refused() {
    let formats = [
        ImageFormat::Jpeg,
        ImageFormat::Png,
        ImageFormat::Gif,
        ImageFormat::Ico,
        ImageFormat::Tga,
        ImageFormat::Tiff,
    ];
    for format in formats {
        for count in [1, 3, 4] {
            for shape in [vec![u32::MAX as usize, 0, count], vec![1 << 20, 0, count]] {
                match value_to_image_bytes(&bytes(shape, vec![]), format) {
                    Ok(file) => assert!(!file.is_empty()),
                    Err(RuntimeError::Io(m)) => assert!(m.starts_with("Failed to write image: ")),
                    Err(e) => panic!("{e:?}"),
                }
            }
        }
    }
    let tall = bytes(vec![1 << 20, 0, 4], vec![]);
    assert!(value_to_image_bytes(&tall, ImageFormat::Bmp).is_ok());
}
