use raytracer_core::canvas::Canvas;
use raytracer_core::png_image::PngError;
use raytracer_core::ppm::Rgb8;

fn rgb(red: u8, green: u8, blue: u8) -> Rgb8 {
    Rgb8 { red, green, blue }
}

#[test]
fn rgb_bytes_row_after_row() {
    let mut canvas = Canvas::new(2, 2, rgb(0, 0, 0));
    canvas.write_pixel(1, 0, rgb(1, 2, 3));
    canvas.write_pixel(0, 1, rgb(4, 5, 6));
    assert_eq!(canvas.rgb_bytes(), vec![0, 0, 0, 1, 2, 3, 4, 5, 6, 0, 0, 0]);
}

#[test]
fn png_round_trip() {
    let mut canvas = Canvas::new(3, 2, rgb(10, 20, 30));
    canvas.write_pixel(2, 1, rgb(255, 0, 128));
    let bytes = canvas.to_png().unwrap();

    assert_eq!(&bytes[..8], &[137, 80, 78, 71, 13, 10, 26, 10]);
    let decoder = png::Decoder::new(&bytes[..]);
    let mut reader = decoder.read_info().unwrap();
    let mut buf = vec![0; reader.output_buffer_size()];
    let info = reader.next_frame(&mut buf).unwrap();
    assert_eq!((info.width, info.height), (3, 2));
    assert_eq!(info.color_type, png::ColorType::Rgb);
    assert_eq!(info.bit_depth, png::BitDepth::Eight);
    assert_eq!(&buf[..info.buffer_size()], &canvas.rgb_bytes()[..]);
}

#[test]
fn png_of_empty_canvas_is_refused() {
    assert_eq!(Canvas::new(0, 3, rgb(0, 0, 0)).to_png(), Err(PngError::Encoding));
    assert_eq!(Canvas::new(3, 0, rgb(0, 0, 0)).to_png(), Err(PngError::Encoding));
}
