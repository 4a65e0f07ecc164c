use wbmp::pixels::{row_len, unpack_row_into};
use wbmp::{ColorType, Decoder, Encoder, WbmpError};

#[test]
fn usage_error_when_buffer_too_small() {
    let image_bytes = [0x00u8, 0x00, 0x02, 0x02, 0xC0, 0xC0];
    let mut decoder = Decoder::new(&image_bytes).unwrap();
    let mut small = [0u8; 3];
    let err = decoder.read_image_data(&mut small).err().unwrap();
    match &err {
        WbmpError::UsageError(reason) => {
            assert_eq!(reason, "Provided buffer does not have enough capacity")
        }
        other => panic!("expected a usage error, got {:?}", other),
    }
    assert_eq!(small, [0u8; 3]);
    // Nothing was read: a large enough buffer still gets the image.
    let mut pixels = [0u8; 4];
    decoder.read_image_data(&mut pixels).unwrap();
    assert_eq!(pixels, [0xFF; 4]);
}

#[test]
fn usage_error_on_huge_dimensions() {
    // 0xFFFFFFFF by 0xFFFFFFFF: the product does not fit in 32 bits.
    let image_bytes = [
        0x00u8, 0x00, 0x8F, 0xFF, 0xFF, 0xFF, 0x7F, 0x8F, 0xFF, 0xFF, 0xFF, 0x7F,
    ];
    let mut decoder = Decoder::new(&image_bytes).unwrap();
    assert_eq!(decoder.dimensions(), (u32::MAX, u32::MAX));
    let mut buf = [0u8; 16];
    let err = decoder.read_image_data(&mut buf).err().unwrap();
    assert!(matches!(err, WbmpError::UsageError(_)));
}

#[test]
fn io_error_when_pixel_data_is_short() {
    // 9 wide, 3 high needs 6 octets; only 3 are there.
    let image_bytes = [0x00u8, 0x00, 0x09, 0x03, 0xFF, 0x80, 0xFF];
    let mut decoder = Decoder::new(&image_bytes).unwrap();
    let mut pixels = vec![0u8; 27];
    let err = decoder.read_image_data(&mut pixels).err().unwrap();
    match err {
        WbmpError::IoError(e) => assert_eq!(e.kind(), std::io::ErrorKind::UnexpectedEof),
        other => panic!("expected an I/O error, got {:?}", other),
    }
    // The one whole row was unpacked, nothing of the broken one.
    let mut expected = vec![0xFFu8; 9];
    expected.extend(vec![0u8; 18]);
    assert_eq!(pixels, expected);
    // The stream is used up.
    let mut again = vec![0u8; 27];
    let err = decoder.read_image_data(&mut again).err().unwrap();
    assert!(matches!(err, WbmpError::IoError(_)));
    assert_eq!(again, vec![0u8; 27]);
}

#[test]
fn invalid_image_data_luma8() {
    let mut out_bytes = Vec::new();
    let err = Encoder::new(&mut out_bytes)
        .encode(&[0xFF; 3], 2, 2, ColorType::Luma8)
        .err()
        .unwrap();
    assert!(matches!(err, WbmpError::InvalidImageData));
    // The header was written before the samples were counted.
    assert_eq!(out_bytes, vec![0x00, 0x00, 0x02, 0x02]);
}

#[test]
fn invalid_image_data_rgba8() {
    let mut out_bytes = Vec::new();
    let err = Encoder::new(&mut out_bytes)
        .encode(&[0xFF; 4], 2, 2, ColorType::Rgba8)
        .err()
        .unwrap();
    assert!(matches!(err, WbmpError::InvalidImageData));
    assert_eq!(out_bytes, vec![0x00, 0x00, 0x02, 0x02]);
    let mut out_bytes = Vec::new();
    let err = Encoder::new(&mut out_bytes)
        .encode(&[0xFF; 17], 2, 2, ColorType::Rgba8)
        .err()
        .unwrap();
    assert!(matches!(err, WbmpError::InvalidImageData));
}

#[test]
fn invalid_image_data_on_huge_dimensions() {
    let mut out_bytes = Vec::new();
    let err = Encoder::new(&mut out_bytes)
        .encode(&[], 0x1_0000, 0x1_0000, ColorType::Luma8)
        .err()
        .unwrap();
    assert!(matches!(err, WbmpError::InvalidImageData));
    let mut out_bytes = Vec::new();
    let err = Encoder::new(&mut out_bytes)
        .encode(&[], 0x8000_0000, 0x8000_0000, ColorType::Rgba8)
        .err()
        .unwrap();
    assert!(matches!(err, WbmpError::InvalidImageData));
}

#[test]
fn error_descriptions() {
    let io = WbmpError::from(std::io::Error::from(std::io::ErrorKind::BrokenPipe));
    assert_eq!(io.description(), "IO error");
    assert_eq!(WbmpError::UnsupportedType(3).description(), "Unsupported Type error");
    assert_eq!(WbmpError::UnsupportedHeaders.description(), "Unsupported Headers error");
    assert_eq!(WbmpError::UsageError(String::from("x")).description(), "Usage error");
    assert_eq!(WbmpError::InvalidImageData.description(), "Invalid image data error");
}

#[test]
fn error_messages() {
    assert_eq!(
        WbmpError::UsageError(String::from("now")).message(),
        "The requested operation could not be completed now"
    );
    for value in [0u8, 7, 9, 10, 42, 99, 100, 101, 110, 200, 255] {
        assert_eq!(
            WbmpError::UnsupportedType(value).message(),
            format!("The Decoder does not support the image type `{}`", value)
        );
    }
    assert_eq!(
        WbmpError::UnsupportedHeaders.message(),
        "The Decoder does not support extension headers"
    );
    assert_eq!(
        WbmpError::InvalidImageData.message(),
        "The Image data does not match the ColorType"
    );
    let inner = std::io::Error::new(std::io::ErrorKind::Other, "pipe fell off");
    assert_eq!(WbmpError::from(inner).message(), "pipe fell off");
}

#[test]
fn error_cause() {
    let io = WbmpError::from(std::io::Error::from(std::io::ErrorKind::BrokenPipe));
    assert_eq!(io.cause().unwrap().kind(), std::io::ErrorKind::BrokenPipe);
    assert!(WbmpError::UnsupportedType(3).cause().is_none());
    assert!(WbmpError::UnsupportedHeaders.cause().is_none());
    assert!(WbmpError::UsageError(String::new()).cause().is_none());
    assert!(WbmpError::InvalidImageData.cause().is_none());
}

#[test]
fn error_from_io_error() {
    let err: WbmpError = std::io::Error::from(std::io::ErrorKind::WriteZero).into();
    match err {
        WbmpError::IoError(e) => assert_eq!(e.kind(), std::io::ErrorKind::WriteZero),
        other => panic!("expected an I/O error, got {:?}", other),
    }
}

#[test]
fn row_length() {
    assert_eq!(row_len(0), 0);
    assert_eq!(row_len(1), 1);
    assert_eq!(row_len(8), 1);
    assert_eq!(row_len(9), 2);
    assert_eq!(row_len(16), 2);
    assert_eq!(row_len(640), 80);
    assert_eq!(row_len(u32::MAX), 0x2000_0000);
}

#[test]
fn unpack_single_row() {
    let mut out = vec![1u8; 12];
    unpack_row_into(&[0b1010_0101, 0b0111_1111], 9, &mut out, 2);
    assert_eq!(out, vec![1, 1, 0xFF, 1, 0xFF, 1, 1, 0xFF, 1, 0xFF, 1, 1]);
}
