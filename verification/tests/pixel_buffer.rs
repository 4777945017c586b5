use image::{Rgba, RgbaImage};
use stegano_core::PixelBuffer;

#[test]
fn from_raw_takes_samples_that_cover_the_grid() {
    assert!(PixelBuffer::from_raw(2, 3, vec![0; 24]).is_some());
    assert!(PixelBuffer::from_raw(2, 3, vec![0; 25]).is_some());
    assert!(PixelBuffer::from_raw(0, 0, Vec::new()).is_some());
    assert!(PixelBuffer::from_raw(0, 5, Vec::new()).is_some());
}

#[test]
fn from_raw_refuses_samples_that_do_not_cover_the_grid() {
    assert!(PixelBuffer::from_raw(2, 3, vec![0; 23]).is_none());
    assert!(PixelBuffer::from_raw(1, 1, Vec::new()).is_none());
    assert!(PixelBuffer::from_raw(u32::MAX, u32::MAX, vec![0; 16]).is_none());
}

#[test]
fn into_raw_gives_dimensions_and_samples_back() {
    let samples: Vec<u8> = (0..24).collect();
    let buffer = PixelBuffer::from_raw(3, 2, samples.clone()).unwrap();
    assert_eq!(buffer.dimensions(), (3, 2));
    assert_eq!(buffer.into_raw(), (3, 2, samples));
}

#[test]
fn get_reads_rows_of_four_channel_pixels() {
    let samples: Vec<u8> = (0..24).collect();
    let buffer = PixelBuffer::from_raw(3, 2, samples).unwrap();
    assert_eq!(buffer.get(0, 0, 0), 0);
    assert_eq!(buffer.get(0, 0, 3), 3);
    assert_eq!(buffer.get(1, 0, 0), 4);
    assert_eq!(buffer.get(2, 0, 2), 10);
    assert_eq!(buffer.get(0, 1, 0), 12);
    assert_eq!(buffer.get(2, 1, 3), 23);
}

#[test]
fn set_changes_one_sample() {
    let mut buffer = PixelBuffer::from_raw(3, 2, vec![7; 24]).unwrap();
    buffer.set(1, 1, 2, 200);
    assert_eq!(buffer.get(1, 1, 2), 200);
    let (_, _, samples) = buffer.into_raw();
    let mut expected = vec![7u8; 24];
    expected[4 * (1 * 3 + 1) + 2] = 200;
    assert_eq!(samples, expected);
}

#[test]
fn samples_are_those_of_an_rgba_image() {
    let mut image = RgbaImage::from_pixel(4, 3, Rgba([10, 20, 30, 40]));
    image.put_pixel(2, 1, Rgba([1, 2, 3, 4]));
    let (width, height) = image.dimensions();
    let buffer = PixelBuffer::from_raw(width, height, image.clone().into_raw()).unwrap();
    for y in 0..height {
        for x in 0..width {
            for c in 0..4u8 {
                assert_eq!(buffer.get(x, y, c), image.get_pixel(x, y).0[c as usize]);
            }
        }
    }
    let (w, h, samples) = buffer.into_raw();
    assert_eq!(RgbaImage::from_raw(w, h, samples).unwrap(), image);
}
