use wbmp::Decoder;

#[test]
fn test_decode_4x4() {
    const EXPECTED_WIDTH: u32 = 2;
    const EXPECTED_HEIGHT: u32 = 2;
    const EXPECTED_DATA_LEN: usize = 4;
    let image_bytes = [0x00, 0x00, 0x02, 0x02, 0xC0, 0xC0];

    let mut decoder = Decoder::new(&image_bytes).expect("Decoder should be instantiable");
    let (width, height) = decoder.dimensions();
    assert!(width == EXPECTED_WIDTH, "Decoded image width should be 2");
    assert!(
        height == EXPECTED_HEIGHT,
        "Decoded image height should be 2"
    );

    let mut decoded_bytes = [0_u8; EXPECTED_DATA_LEN];
    decoder
        .read_image_data(&mut decoded_bytes)
        .expect("Decoder should be able to read image bytes");
    for byte in decoded_bytes.iter() {
        assert!(*byte == 0xFF);
    }
}

#[test]
fn test_decode_9x9() {
    const EXPECTED_WIDTH: u32 = 9;
    const EXPECTED_HEIGHT: u32 = 9;
    const EXPECTED_DATA_LEN: usize = 81;
    let image_bytes = [
        // headers
        0x00, 0x00, // dimensions
        0x09, 0x09, // image data
        0xFF, 0x80, 0xFF, 0x80, 0xFF, 0x80, 0xFF, 0x80, 0xFF, 0x80, 0xFF, 0x80, 0xFF, 0x80, 0xFF,
        0x80, 0xFF, 0x80,
    ];
    let mut decoder = Decoder::new(&image_bytes).expect("Decoder should be instantiable");
    let (width, height) = decoder.dimensions();
    assert!(width == EXPECTED_WIDTH);
    assert!(height == EXPECTED_HEIGHT);
    let mut decoded_bytes = [0_u8; EXPECTED_DATA_LEN];
    decoder
        .read_image_data(&mut decoded_bytes)
        .expect("Decoder should be able to read image bytes");
    for byte in decoded_bytes.iter() {
        assert!(*byte == 0xFF);
    }
}

#[test]
fn decode_scenario_two_by_two_white() {
    let image_bytes = [0x00u8, 0x00, 0x02, 0x02, 0xC0, 0xC0];
    let mut decoder = Decoder::new(&image_bytes).unwrap();
    assert_eq!(decoder.dimensions(), (2, 2));
    let mut pixels = vec![0u8; 4];
    decoder.read_image_data(&mut pixels).unwrap();
    assert_eq!(pixels, vec![0xFF, 0xFF, 0xFF, 0xFF]);
}

#[test]
fn decode_mixed_pixels_msb_first() {
    // 3 wide, 2 high: row 0 = 1 0 1, row 1 = 0 1 1; padding bits set to 1
    // on purpose, they must be skipped.
    let image_bytes = [0x00u8, 0x00, 0x03, 0x02, 0b1011_1111, 0b0111_1111];
    let mut decoder = Decoder::new(&image_bytes).unwrap();
    assert_eq!(decoder.dimensions(), (3, 2));
    let mut pixels = vec![0u8; 6];
    decoder.read_image_data(&mut pixels).unwrap();
    assert_eq!(pixels, vec![0xFF, 0x00, 0xFF, 0x00, 0xFF, 0xFF]);
}

#[test]
fn decode_row_padding_width_nine() {
    let image_bytes = [0x00u8, 0x00, 0x09, 0x01, 0xFF, 0x80];
    let mut decoder = Decoder::new(&image_bytes).unwrap();
    let mut pixels = vec![0u8; 9];
    decoder.read_image_data(&mut pixels).unwrap();
    assert_eq!(pixels, vec![0xFF; 9]);
}

#[test]
fn decode_leaves_black_pixels_and_tail_untouched() {
    let image_bytes = [0x00u8, 0x00, 0x02, 0x01, 0b0100_0000];
    let mut decoder = Decoder::new(&image_bytes).unwrap();
    let mut pixels = vec![0x11u8, 0x22, 0x33, 0x44];
    decoder.read_image_data(&mut pixels).unwrap();
    assert_eq!(pixels, vec![0x11, 0xFF, 0x33, 0x44]);
}

#[test]
fn decode_multi_octet_dimensions() {
    // width 640 = 0x85 0x00, height 426 = 0x83 0x2a
    let mut image_bytes = vec![0x00u8, 0x00, 0x85, 0x00, 0x83, 0x2a];
    image_bytes.extend(std::iter::repeat(0xAAu8).take(80 * 426));
    let mut decoder = Decoder::new(&image_bytes).unwrap();
    assert_eq!(decoder.dimensions(), (640, 426));
    let mut pixels = vec![0u8; 640 * 426];
    decoder.read_image_data(&mut pixels).unwrap();
    for (i, p) in pixels.iter().enumerate() {
        let expected = if i % 2 == 0 { 0xFF } else { 0x00 };
        assert_eq!(*p, expected);
    }
}

#[test]
fn decode_accepts_extension_type_bits_without_flag() {
    let image_bytes = [0x00u8, 0x60, 0x01, 0x01, 0x80];
    let mut decoder = Decoder::new(&image_bytes).unwrap();
    assert_eq!(decoder.dimensions(), (1, 1));
    let mut pixels = [0u8; 1];
    decoder.read_image_data(&mut pixels).unwrap();
    assert_eq!(pixels, [0xFF]);
}

#[test]
fn decode_non_minimal_and_overlong_integers() {
    // 0x80 0x02 is a padded way of writing 2.
    let image_bytes = [0x00u8, 0x00, 0x80, 0x02, 0x01];
    let decoder = Decoder::new(&image_bytes).unwrap();
    assert_eq!(decoder.dimensions(), (2, 1));
    // Six groups: the top group is shifted out of the 32-bit accumulator.
    let image_bytes = [0x00u8, 0x00, 0x81, 0x80, 0x80, 0x80, 0x80, 0x05, 0x8F, 0xFF, 0xFF, 0xFF, 0x7F];
    let decoder = Decoder::new(&image_bytes).unwrap();
    assert_eq!(decoder.dimensions(), (5, 0xFFFF_FFFF));
}

#[test]
fn decode_zero_sized_images() {
    let image_bytes = [0x00u8, 0x00, 0x00, 0x05];
    let mut decoder = Decoder::new(&image_bytes).unwrap();
    assert_eq!(decoder.dimensions(), (0, 5));
    let mut pixels: Vec<u8> = Vec::new();
    decoder.read_image_data(&mut pixels).unwrap();
    let image_bytes = [0x00u8, 0x00, 0x05, 0x00];
    let mut decoder = Decoder::new(&image_bytes).unwrap();
    assert_eq!(decoder.dimensions(), (5, 0));
    let mut pixels = vec![7u8; 3];
    decoder.read_image_data(&mut pixels).unwrap();
    assert_eq!(pixels, vec![7u8; 3]);
}

#[test]
fn decode_second_read_continues_in_the_stream() {
    // Two images' worth of rows behind one header.
    let image_bytes = [0x00u8, 0x00, 0x08, 0x01, 0xF0, 0x0F];
    let mut decoder = Decoder::new(&image_bytes).unwrap();
    let mut first = vec![0u8; 8];
    decoder.read_image_data(&mut first).unwrap();
    assert_eq!(first, vec![0xFF, 0xFF, 0xFF, 0xFF, 0, 0, 0, 0]);
    let mut second = vec![0u8; 8];
    decoder.read_image_data(&mut second).unwrap();
    assert_eq!(second, vec![0, 0, 0, 0, 0xFF, 0xFF, 0xFF, 0xFF]);
    let mut third = vec![0u8; 8];
    let err = decoder.read_image_data(&mut third).err().unwrap();
    assert!(matches!(err, wbmp::WbmpError::IoError(_)));
    assert_eq!(third, vec![0u8; 8]);
}
