use vstd::prelude::*;

use crate::canvas::Canvas;
use crate::ppm::{channels, lemma_channels_len, row_channels, Rgb8};

verus! {

#[verifier::external_type_specification]
#[verifier::external_body]
pub struct ExEncodingError(png::EncodingError);

/// The PNG file that the `png` crate's encoder writes, with its default
/// options, for a `width` by `height` RGB image with 8-bit channels whose
/// pixel bytes, row after row, are `data`.
pub uninterp spec fn png_rgb8(width: nat, height: nat, data: Seq<u8>) -> Seq<u8>;

/// Relies on `png::Encoder` (`new`, `set_color`, `set_depth`,
/// `write_header`, then `Writer::write_image_data` and `Writer::finish`):
/// encodes an 8-bit RGB image, given as three bytes per pixel, into memory.
/// `write_header` refuses a zero width or height.
#[verifier::external_body]
fn encode_rgb8(width: u32, height: u32, data: &[u8]) -> (r: Result<Vec<u8>, png::EncodingError>)
    requires
        data@.len() == 3 * width * height,
    ensures
        width == 0 || height == 0 ==> r is Err,
        r matches Ok(bytes) ==> bytes@ == png_rgb8(width as nat, height as nat, data@),
{
    let mut out: Vec<u8> = Vec::new();
    let mut encoder = png::Encoder::new(&mut out, width, height);
    encoder.set_color(png::ColorType::Rgb);
    encoder.set_depth(png::BitDepth::Eight);
    let mut writer = encoder.write_header()?;
    writer.write_image_data(data)?;
    writer.finish()?;
    Ok(out)
}

/// Why a canvas could not be written as PNG.
#[derive(Clone, Copy, Debug, PartialEq, Eq, Structural)]
pub enum PngError {
    /// A side of the canvas does not fit the 32 bits that PNG gives it.
    TooLarge,
    /// The encoder refused the image, as it does one with no pixels.
    Encoding,
}

/// The channel values of all of `rows`, row after row.
pub open spec fn image_bytes(rows: Seq<Seq<Rgb8>>) -> Seq<u8>
    decreases rows.len(),
{
    if rows.len() == 0 {
        Seq::empty()
    } else {
        image_bytes(rows.drop_last()) + channels(rows.last())
    }
}

/// Rows of `width` pixels give three channel values per pixel.
proof fn lemma_image_bytes_len(rows: Seq<Seq<Rgb8>>, width: nat)
    requires
        forall|y: int| 0 <= y < rows.len() ==> #[trigger] rows[y].len() == width,
    ensures
        image_bytes(rows).len() == 3 * width * rows.len(),
    decreases rows.len(),
{
    if rows.len() > 0 {
        let n = rows.len() - 1;
        assert forall|y: int| 0 <= y < n implies #[trigger] rows.drop_last()[y].len() == width by {
            assert(rows.drop_last()[y] == rows[y]);
        }
        lemma_image_bytes_len(rows.drop_last(), width);
        lemma_channels_len(rows.last());
        assert(3 * width * n + 3 * width == 3 * width * rows.len()) by (nonlinear_arith)
            requires
                n + 1 == rows.len(),
        ;
    }
}

impl Canvas<Rgb8> {
    /// The channel values of the canvas, red, green and blue of each pixel,
    /// row after row from the top.
    pub fn rgb_bytes(&self) -> (r: Vec<u8>)
        ensures
            r@ == image_bytes(self@),
    {
        let mut out: Vec<u8> = Vec::new();
        let mut y: usize = 0;
        while y < self.height()
            invariant
                y <= self@.len(),
                out@ == image_bytes(self@.subrange(0, y as int)),
            decreases self@.len() - y,
        {
            let mut vals = row_channels(self.row(y));
            out.append(&mut vals);
            proof {
                let s = self@.subrange(0, y + 1);
                assert(s.drop_last() =~= self@.subrange(0, y as int));
            }
            y = y + 1;
            assert(out@ =~= image_bytes(self@.subrange(0, y as int)));
        }
        assert(self@.subrange(0, self@.len() as int) =~= self@);
        out
    }

    /// The canvas as a PNG file with 8-bit RGB channels.
    pub fn to_png(&self) -> (r: Result<Vec<u8>, PngError>)
        requires
            self.inv(),
        ensures
            self.spec_width() > u32::MAX || self.spec_height() > u32::MAX <==> r == Err::<
                Vec<u8>,
                PngError,
            >(PngError::TooLarge),
            self.spec_width() == 0 || self.spec_height() == 0 ==> r is Err,
            r matches Ok(bytes) ==> bytes@ == png_rgb8(
                self.spec_width(),
                self.spec_height(),
                image_bytes(self@),
            ),
    {
        let width = self.width();
        let height = self.height();
        if width > u32::MAX as usize || height > u32::MAX as usize {
            return Err(PngError::TooLarge);
        }
        let data = self.rgb_bytes();
        proof {
            lemma_image_bytes_len(self@, self.spec_width());
        }
        match encode_rgb8(width as u32, height as u32, data.as_slice()) {
            Ok(bytes) => Ok(bytes),
            Err(_) => Err(PngError::Encoding),
        }
    }
}

} // verus!
