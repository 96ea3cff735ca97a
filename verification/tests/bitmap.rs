use raytracer::bitmap::{encode, header, pixel_data, set_u32, Rgb, HEADER_SIZE};
use raytracer::graphics::Image;

#[test]
fn set_u32_writes_least_significant_byte_first() {
    let mut bytes = [0xAAu8; 8];
    set_u32(&mut bytes, 2, 0x0403_0201);
    assert_eq!(bytes, [0xAA, 0xAA, 0x01, 0x02, 0x03, 0x04, 0xAA, 0xAA]);
}

#[test]
fn header_of_a_small_image() {
    let bytes = header(3, 2);
    assert_eq!(bytes.len(), HEADER_SIZE);
    assert_eq!(&bytes[0..2], b"BM");
    // rows of 3 pixels take 9 bytes and 3 of padding
    assert_eq!(&bytes[2..6], &[140 + 24, 0, 0, 0]);
    assert_eq!(&bytes[10..14], &[140, 0, 0, 0]);
    assert_eq!(&bytes[14..18], &[0x7c, 0, 0, 0]);
    assert_eq!(&bytes[18..22], &[3, 0, 0, 0]);
    assert_eq!(&bytes[22..26], &[2, 0, 0, 0]);
    assert_eq!(bytes[26], 1);
    assert_eq!(bytes[28], 24);
}

#[test]
fn pixel_rows_are_blue_green_red_with_padding() {
    let mut image = Image::new(1, 2, Rgb { red: 0, green: 0, blue: 0 });
    *image.at(0, 0) = Rgb { red: 1, green: 2, blue: 3 };
    *image.at(0, 1) = Rgb { red: 4, green: 5, blue: 6 };
    assert_eq!(pixel_data(&image), vec![3, 2, 1, 0, 6, 5, 4, 0]);
    let file = encode(&image);
    assert_eq!(file.len(), 148);
    assert_eq!(&file[140..], &[3, 2, 1, 0, 6, 5, 4, 0]);
}

#[test]
fn set_u32_of_extremes() {
    let mut bytes = [7u8; 4];
    set_u32(&mut bytes, 0, 0);
    assert_eq!(bytes, [0, 0, 0, 0]);
    set_u32(&mut bytes, 0, u32::MAX);
    assert_eq!(bytes, [255, 255, 255, 255]);
    set_u32(&mut bytes, 0, 256);
    assert_eq!(bytes, [0, 1, 0, 0]);
    set_u32(&mut bytes, 0, 0x1234_5678);
    assert_eq!(bytes, 0x1234_5678u32.to_le_bytes());
}

#[test]
fn rows_are_padded_to_four_bytes() {
    // three bytes for each pixel and `width % 4` of padding
    let lengths: Vec<usize> = (0..9)
        .map(|width| pixel_data(&Image::new(width, 1, Rgb { red: 1, green: 2, blue: 3 })).len())
        .collect();
    assert_eq!(lengths, vec![0, 4, 8, 12, 12, 16, 20, 24, 24]);
    for width in 0..9 {
        let data = pixel_data(&Image::new(width, 3, Rgb { red: 1, green: 2, blue: 3 }));
        assert_eq!(data.len(), 3 * lengths[width]);
        assert_eq!(data.len() % 4, 0);
    }
}

#[test]
fn padding_bytes_are_zero() {
    let data = pixel_data(&Image::new(2, 2, Rgb { red: 9, green: 8, blue: 7 }));
    assert_eq!(data, vec![7, 8, 9, 7, 8, 9, 0, 0, 7, 8, 9, 7, 8, 9, 0, 0]);
}

#[test]
fn header_holds_the_file_size() {
    let bytes = header(400, 225);
    let size = 140 + 1200 * 225;
    assert_eq!(&bytes[2..6], &(size as u32).to_le_bytes());
    assert_eq!(&bytes[18..22], &400u32.to_le_bytes());
    assert_eq!(&bytes[22..26], &225u32.to_le_bytes());
    let zeros = [6, 7, 8, 9, 27, 29, 30, 100, 139];
    for i in zeros {
        assert_eq!(bytes[i], 0);
    }
}

#[test]
fn header_keeps_the_low_bits_of_large_sizes() {
    let bytes = header(usize::MAX, 0);
    assert_eq!(&bytes[2..6], &[140, 0, 0, 0]);
    assert_eq!(&bytes[18..22], &[255, 255, 255, 255]);
    assert_eq!(&bytes[22..26], &[0, 0, 0, 0]);
    let bytes = header(0x1_0000_0001, 0x1_0000_0002);
    // as if the image were 1 by 2: rows of 3 bytes and 1 of padding
    assert_eq!(&bytes[2..6], &[148, 0, 0, 0]);
    assert_eq!(&bytes[18..22], &[1, 0, 0, 0]);
    assert_eq!(&bytes[22..26], &[2, 0, 0, 0]);
}

#[test]
fn empty_image_is_a_bare_header() {
    let image = Image::new(0, 0, Rgb { red: 0, green: 0, blue: 0 });
    assert_eq!(encode(&image), header(0, 0));
    assert_eq!(encode(&image).len(), HEADER_SIZE);
}
