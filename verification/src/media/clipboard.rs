//! Images from the clipboard, which hands out raw pixels.

use crate::media::segment::ImageRef;
use crate::media::store::{put_bytes, stored_ref};
use vstd::prelude::*;

verus! {

/// The PNG file of an image given by its RGBA pixels, or why there is none.
pub uninterp spec fn png_of(width: u32, height: u32, rgba: Seq<u8>) -> Result<Seq<u8>, Seq<char>>;

/// The view of an encoded image.
pub open spec fn png_view(r: Result<Vec<u8>, String>) -> Result<Seq<u8>, Seq<char>> {
    match r {
        Ok(b) => Ok(b@),
        Err(e) => Err(e@),
    }
}

/// `image::RgbaImage::from_raw` and `image::DynamicImage::write_to` as PNG: what is written depends on the
/// size and the pixels alone. There are as many bytes as the size calls for.
#[verifier::external_body]
fn encode_png(width: u32, height: u32, rgba: Vec<u8>) -> (r: Result<Vec<u8>, String>)
    requires
        rgba@.len() == 4 * width * height,
    ensures
        png_view(r) == png_of(width, height, rgba@),
{
    let mut png: Vec<u8> = Vec::new();
    let buffer = image::RgbaImage::from_raw(width, height, rgba).unwrap_or_default();
    let mut cursor = std::io::Cursor::new(&mut png);
    match image::DynamicImage::ImageRgba8(buffer).write_to(&mut cursor, image::ImageFormat::Png) {
        Ok(()) => Ok(png),
        Err(e) => Err(e.to_string()),
    }
}

/// What comes of an image of the clipboard, given what encoding it gave.
pub open spec fn pasted(
    width: u32,
    height: u32,
    len: nat,
    encoded: Result<Seq<u8>, Seq<char>>,
) -> Result<Seq<u8>, Seq<char>> {
    if len < 4 * width * height {
        Err("clipboard image: RGBA buffer dimensions mismatch"@)
    } else {
        match encoded {
            Ok(b) => Ok(b),
            Err(e) => Err("clipboard image: PNG encode failed: "@ + e),
        }
    }
}

/// What comes of an encoded image.
pub fn encoded_image(encoded: Result<Vec<u8>, String>) -> (r: Result<Vec<u8>, String>)
    ensures
        png_view(r) == match png_view(encoded) {
            Ok(b) => Ok(b),
            Err(e) => Err("clipboard image: PNG encode failed: "@ + e),
        },
{
    match encoded {
        Ok(b) => Ok(b),
        Err(e) => Err("clipboard image: PNG encode failed: ".to_owned().concat(e.as_str())),
    }
}

/// The PNG file of an image of the clipboard. There are no more bytes than the size calls for.
pub fn clipboard_png(width: u32, height: u32, rgba: Vec<u8>) -> (r: Result<Vec<u8>, String>)
    requires
        rgba@.len() <= 4 * width * height,
    ensures
        png_view(r) == pasted(width, height, rgba@.len(), png_of(width, height, rgba@)),
{
    assert(width * height <= 0xffff_ffff * 0xffff_ffff) by (nonlinear_arith)
        requires
            0 <= width <= 0xffff_ffff,
            0 <= height <= 0xffff_ffff,
    ;
    assert(4 * width * height == 4 * (width * height)) by (nonlinear_arith);
    let area: u64 = width as u64 * height as u64;
    let need: u128 = area as u128 * 4;
    if (rgba.len() as u128) < need {
        return Err("clipboard image: RGBA buffer dimensions mismatch".to_owned());
    }
    encoded_image(encode_png(width, height, rgba))
}

/// The reference under which an image of the clipboard is stored, with its PNG file.
pub fn paste_image(width: u32, height: u32, rgba: Vec<u8>) -> (r: Result<(ImageRef, Vec<u8>), String>)
    requires
        rgba@.len() <= 4 * width * height,
    ensures
        match r {
            Ok((x, b)) => pasted(width, height, rgba@.len(), png_of(width, height, rgba@)) == Ok::<
                Seq<u8>,
                Seq<char>,
            >(b@) && x@ == stored_ref(b@, Some("png"@)),
            Err(e) => pasted(width, height, rgba@.len(), png_of(width, height, rgba@)) == Err::<
                Seq<u8>,
                Seq<char>,
            >(e@),
        },
{
    match clipboard_png(width, height, rgba) {
        Ok(png) => {
            let x = put_bytes(png.as_slice(), Some("png".to_owned()));
            Ok((x, png))
        },
        Err(e) => Err(e),
    }
}

/// An image that is pasted is refused where it has fewer bytes than four for each of its dots; otherwise it is what
/// its encoding is, or says why it could not be encoded.
pub proof fn law_image_pasted(width: u32, height: u32, len: nat, b: Seq<u8>, e: Seq<char>)
    ensures
        len < 4 * width * height ==> pasted(width, height, len, Ok(b)) == Err::<Seq<u8>, Seq<char>>(
            "clipboard image: RGBA buffer dimensions mismatch"@,
        ),
        len >= 4 * width * height ==> pasted(width, height, len, Ok(b)) == Ok::<Seq<u8>, Seq<char>>(b),
        len >= 4 * width * height ==> pasted(width, height, len, Err(e)) == Err::<Seq<u8>, Seq<char>>(
            "clipboard image: PNG encode failed: "@ + e,
        ),
{
}

} // verus!
