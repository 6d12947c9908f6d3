use web_server::encoder::{encode, generate_bitmap, sentinel_frame, transform_pixels, EncodeError};
use web_server::layout::{
    check_frame_fits, FrameHeader, BITS_PER_PIXEL, BMP_HEADER_SIZE, COLOR_PLANES, COMPRESSION,
    DIB_HEADER_SIZE, MAGIC_FIRST, MAGIC_SECOND, PIXELS_PER_METER, PIXEL_BYTE_SIZE,
};

fn counting(len: usize) -> Vec<u8> {
    (0..len).map(|i| (i % 251) as u8).collect()
}

#[test]
fn constants_have_the_values_of_the_format() {
    assert_eq!(BMP_HEADER_SIZE, 54);
    assert_eq!(PIXEL_BYTE_SIZE, 4);
    assert_eq!(DIB_HEADER_SIZE, 40);
    assert_eq!(PIXELS_PER_METER, 2835);
    assert_eq!(BITS_PER_PIXEL, 32);
    assert_eq!(COLOR_PLANES, 1);
    assert_eq!(COMPRESSION, 0);
    assert_eq!([MAGIC_FIRST, MAGIC_SECOND], [0x42, 0x4D]);
}

#[test]
fn header_of_two_by_two_is_byte_exact() {
    let frame = encode(&[0u8; 16], 2, 2);
    let expected: [u8; 54] = [
        0x42, 0x4D, // magic
        70, 0, 0, 0, // file size
        0, 0, 0, 0, // reserved
        54, 0, 0, 0, // data offset
        40, 0, 0, 0, // info header size
        2, 0, 0, 0, // width
        2, 0, 0, 0, // height
        1, 0, // planes
        32, 0, // bit depth
        0, 0, 0, 0, // compression
        16, 0, 0, 0, // image size
        0x13, 0x0B, 0, 0, // horizontal resolution
        0x13, 0x0B, 0, 0, // vertical resolution
        0, 0, 0, 0, // palette
        0, 0, 0, 0, // important colours
    ];
    assert_eq!(&frame[..54], &expected[..]);
    assert_eq!(frame.len(), 70);
}

#[test]
fn header_of_an_800_by_800_frame() {
    let raw = vec![7u8; 800 * 800 * 4];
    let frame = encode(&raw, 800, 800);
    assert_eq!(frame.len(), 2_560_054);
    assert_eq!(&frame[2..6], &[0x36, 0x10, 0x27, 0x00]);
    assert_eq!(&frame[18..22], &[0x20, 0x03, 0x00, 0x00]);
    assert_eq!(&frame[22..26], &[0x20, 0x03, 0x00, 0x00]);
    assert_eq!(&frame[34..38], &[0x00, 0x10, 0x27, 0x00]);
    assert!(frame[54..].iter().all(|b| *b == 7));
}

#[test]
fn encode_length_and_declared_fields_match_dimensions() {
    for (width, height) in [(0u32, 0u32), (1, 1), (3, 2), (2, 3), (7, 5), (1, 9), (16, 16)] {
        let pixels = (width * height * 4) as usize;
        let frame = encode(&counting(pixels), width, height);
        assert_eq!(frame.len(), BMP_HEADER_SIZE + pixels);
        let header = FrameHeader::decode(&frame).expect("an encoded frame has a header");
        assert_eq!(header.width, width);
        assert_eq!(header.height, height);
        assert_eq!(header.image_size as usize, pixels);
        assert_eq!(header.file_size as usize, frame.len());
    }
}

#[test]
fn header_constants_do_not_depend_on_pixels() {
    let dark = encode(&[0u8; 24], 3, 2);
    let noisy = encode(&counting(24), 3, 2);
    assert_eq!(&dark[..54], &noisy[..54]);
    let header = FrameHeader::decode(&noisy).unwrap();
    assert_eq!(
        header,
        FrameHeader {
            file_size: 78,
            reserved: 0,
            data_offset: 54,
            info_size: 40,
            width: 3,
            height: 2,
            planes: 1,
            bits_per_pixel: 32,
            compression: 0,
            image_size: 24,
            x_resolution: 2835,
            y_resolution: 2835,
            palette_colors: 0,
            important_colors: 0,
        }
    );
    assert_eq!(header, FrameHeader::for_dimensions(3, 2));
}

#[test]
fn header_written_and_read_back_is_the_same() {
    let header = FrameHeader {
        file_size: 0xDEAD_BEEF,
        reserved: 0x0102_0304,
        data_offset: 54,
        info_size: 40,
        width: 0xFFFF_FFFF,
        height: 0x8000_0001,
        planes: 0xABCD,
        bits_per_pixel: 0x00FF,
        compression: 3,
        image_size: 0x0001_0000,
        x_resolution: 255,
        y_resolution: 256,
        palette_colors: 65535,
        important_colors: 65536,
    };
    let mut bytes = vec![9u8, 9];
    header.write_to(&mut bytes);
    assert_eq!(bytes.len(), 56);
    assert_eq!(&bytes[..2], &[9, 9]);
    assert_eq!(&bytes[4..8], &[0xEF, 0xBE, 0xAD, 0xDE]);
    assert_eq!(&bytes[28..30], &[0xCD, 0xAB]);
    bytes.extend_from_slice(&[1, 2, 3]);
    assert_eq!(FrameHeader::decode(&bytes[2..]), Some(header));
}

#[test]
fn decode_refuses_what_is_no_header() {
    assert_eq!(FrameHeader::decode(&[]), None);
    assert_eq!(FrameHeader::decode(&[0x42, 0x4D]), None);
    let mut frame = encode(&[0u8; 4], 1, 1);
    assert!(FrameHeader::decode(&frame[..53]).is_none());
    assert!(FrameHeader::decode(&frame[..54]).is_some());
    frame[0] = 0x43;
    assert_eq!(FrameHeader::decode(&frame), None);
    frame[0] = 0x42;
    frame[1] = 0x4E;
    assert_eq!(FrameHeader::decode(&frame), None);
}

#[test]
fn rows_are_flipped_and_channels_swapped() {
    let raw: Vec<u8> = (1..=16).collect();
    let frame = encode(&raw, 2, 2);
    assert_eq!(
        &frame[54..],
        &[11, 10, 9, 12, 15, 14, 13, 16, 3, 2, 1, 4, 7, 6, 5, 8]
    );
}

#[test]
fn width_and_height_are_not_mixed_up() {
    let raw: Vec<u8> = (0..24).collect();
    let wide = transform_pixels(&raw, 3, 2);
    assert_eq!(
        wide,
        vec![
            14, 13, 12, 15, 18, 17, 16, 19, 22, 21, 20, 23, 2, 1, 0, 3, 6, 5, 4, 7, 10, 9, 8, 11
        ]
    );
    let tall = transform_pixels(&raw, 2, 3);
    assert_eq!(
        tall,
        vec![
            18, 17, 16, 19, 22, 21, 20, 23, 10, 9, 8, 11, 14, 13, 12, 15, 2, 1, 0, 3, 6, 5, 4, 7
        ]
    );
}

#[test]
fn single_row_only_swaps_channels() {
    let raw: Vec<u8> = (0..12).collect();
    assert_eq!(
        transform_pixels(&raw, 3, 1),
        vec![2, 1, 0, 3, 6, 5, 4, 7, 10, 9, 8, 11]
    );
}

#[test]
fn single_column_only_flips_rows_and_swaps() {
    let raw: Vec<u8> = (0..12).collect();
    assert_eq!(
        transform_pixels(&raw, 1, 3),
        vec![10, 9, 8, 11, 6, 5, 4, 7, 2, 1, 0, 3]
    );
}

#[test]
fn transform_twice_gives_the_raw_frame_back() {
    for (width, height) in [(1u32, 1u32), (2, 2), (3, 2), (2, 3), (5, 7), (8, 1), (1, 8)] {
        let raw = counting((width * height * 4) as usize);
        let once = transform_pixels(&raw, width, height);
        assert_eq!(once.len(), raw.len());
        let twice = transform_pixels(&once, width, height);
        assert_eq!(twice, raw);
    }
}

#[test]
fn a_longer_buffer_is_read_from_its_start() {
    let mut raw: Vec<u8> = (1..=16).collect();
    let exact = encode(&raw, 2, 2);
    raw.extend_from_slice(&[99, 98, 97, 96, 95]);
    assert_eq!(encode(&raw, 2, 2), exact);
    assert_eq!(generate_bitmap(Some(&raw), 2, 2), Ok(exact));
}

#[test]
fn encode_is_the_transform_behind_the_header() {
    let raw = counting(5 * 3 * 4);
    let frame = encode(&raw, 5, 3);
    assert_eq!(&frame[54..], &transform_pixels(&raw, 5, 3)[..]);
    let mut header = Vec::new();
    FrameHeader::for_dimensions(5, 3).write_to(&mut header);
    assert_eq!(&frame[..54], &header[..]);
}

#[test]
fn empty_frames_are_a_header_alone() {
    let none = encode(&[], 0, 0);
    assert_eq!(none.len(), 54);
    assert_eq!(&none[2..6], &[54, 0, 0, 0]);
    let flat = encode(&[], 0, 5);
    assert_eq!(flat.len(), 54);
    assert_eq!(&flat[22..26], &[5, 0, 0, 0]);
    assert_eq!(&flat[34..38], &[0, 0, 0, 0]);
    assert_eq!(transform_pixels(&[1, 2, 3], 4, 0), Vec::<u8>::new());
}

#[test]
fn encoding_the_same_raw_frame_twice_gives_identical_frames() {
    let raw = counting(4 * 4 * 4);
    assert_eq!(encode(&raw, 4, 4), encode(&raw, 4, 4));
    assert_eq!(
        generate_bitmap(Some(&raw), 4, 4),
        generate_bitmap(Some(&raw), 4, 4)
    );
}

#[test]
fn absent_sample_is_encoded_as_zeros() {
    let frame = generate_bitmap(None, 2, 2).expect("the sentinel can be encoded");
    assert_eq!(frame.len(), 70);
    assert_eq!(frame, encode(&[0u8; 16], 2, 2));
    assert!(frame[54..].iter().all(|b| *b == 0));
    assert_eq!(sentinel_frame(2, 2), vec![0u8; 16]);
    assert_eq!(sentinel_frame(0, 3), Vec::<u8>::new());
}

#[test]
fn present_sample_is_encoded_as_it_is() {
    let raw: Vec<u8> = (1..=16).collect();
    assert_eq!(generate_bitmap(Some(&raw), 2, 2), Ok(encode(&raw, 2, 2)));
}

#[test]
fn short_buffer_is_a_contract_violation() {
    assert_eq!(
        generate_bitmap(Some(&[0u8; 15]), 2, 2),
        Err(EncodeError::BufferTooShort)
    );
    assert_eq!(
        generate_bitmap(Some(&[]), 1, 1),
        Err(EncodeError::BufferTooShort)
    );
    assert!(generate_bitmap(Some(&[0u8; 16]), 2, 2).is_ok());
    assert!(generate_bitmap(Some(&[]), 0, 7).is_ok());
}

#[test]
fn oversized_dimensions_are_refused() {
    assert_eq!(
        generate_bitmap(None, 65536, 65536),
        Err(EncodeError::FrameTooLarge)
    );
    assert_eq!(
        generate_bitmap(Some(&[1, 2, 3, 4]), u32::MAX, u32::MAX),
        Err(EncodeError::FrameTooLarge)
    );
    assert_eq!(
        generate_bitmap(Some(&[]), 1_073_741_811, 1),
        Err(EncodeError::FrameTooLarge)
    );
}

#[test]
fn frame_fits_up_to_the_last_size_the_header_can_say() {
    assert!(check_frame_fits(0, 0));
    assert!(check_frame_fits(800, 800));
    assert!(check_frame_fits(u32::MAX, 0));
    assert!(check_frame_fits(0, u32::MAX));
    assert!(check_frame_fits(1_073_741_810, 1));
    assert!(check_frame_fits(1, 1_073_741_810));
    assert!(!check_frame_fits(1_073_741_811, 1));
    assert!(!check_frame_fits(32768, 32768));
    assert!(check_frame_fits(32767, 32768));
    assert!(!check_frame_fits(u32::MAX, u32::MAX));
}

#[test]
fn uniform_red_is_encoded_as_blue_green_red_alpha() {
    let raw: Vec<u8> = [255u8, 0, 0, 255].repeat(4);
    let frame = encode(&raw, 2, 2);
    assert_eq!(&frame[54..], &[0u8, 0, 255, 255].repeat(4)[..]);
}
