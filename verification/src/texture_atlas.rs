//! The block texture atlas: which textures it holds, in which order, and
//! their decoding from image files.
use vstd::prelude::*;

verus! {

/// The atlas textures, in layer order.
pub fn atlas_texture_names() -> (r: [&'static str; 9])
    ensures
        r[0]@ == "cobblestone"@,
        r[1]@ == "dirt"@,
        r[2]@ == "grass"@,
        r[3]@ == "grass_side"@,
        r[4]@ == "selection"@,
        r[5]@ == "debug_red"@,
        r[6]@ == "debug_green"@,
        r[7]@ == "debug_blue"@,
        r[8]@ == "log"@,
{
    ["cobblestone", "dirt", "grass", "grass_side", "selection", "debug_red", "debug_green", "debug_blue", "log"]
}

/// The image that the file `bytes` holds, as its width, its height and its
/// pixels as 8-bit RGBA rows, or `None` where the bytes are no image the
/// decoder reads.
pub uninterp spec fn decoded_image(bytes: Seq<u8>) -> Option<(u32, u32, Seq<u8>)>;

/// `image::load_from_memory`, its result taken as 8-bit RGBA pixels
/// (`DynamicImage::to_rgba8`): the decoded image of `bytes`, or `None` when
/// decoding fails. The decoder's work is not restated; its result is named.
#[verifier::external_body]
fn decode_image(bytes: &Vec<u8>) -> (r: Option<(u32, u32, Vec<u8>)>)
    ensures
        r is None <==> decoded_image(bytes@) is None,
        r matches Some((w, h, px)) ==> decoded_image(bytes@) == Some((w, h, px@)),
{
    match image::load_from_memory(bytes.as_slice()) {
        Ok(img) => {
            let rgba = img.to_rgba8();
            Some((rgba.width(), rgba.height(), rgba.into_raw()))
        },
        Err(_) => None,
    }
}

/// Whether every file decodes.
pub open spec fn all_decode(files: Seq<Vec<u8>>) -> bool {
    forall|i: int| 0 <= i < files.len() ==> (#[trigger] decoded_image(files[i]@)) is Some
}

/// The layers of the atlas, one per file in the order of the files (for the
/// block atlas, the order of `atlas_texture_names`); `None` when a file does
/// not decode.
pub fn decode_atlas_layers(files: &Vec<Vec<u8>>) -> (r: Option<Vec<(u32, u32, Vec<u8>)>>)
    ensures
        r is Some <==> all_decode(files@),
        r matches Some(layers) ==> layers@.len() == files@.len() && forall|i: int|
            0 <= i < files@.len() ==> decoded_image(files@[i]@) == Some(
                ((#[trigger] layers@[i]).0, layers@[i].1, layers@[i].2@),
            ),
{
    let mut layers: Vec<(u32, u32, Vec<u8>)> = Vec::new();
    let mut i: usize = 0;
    while i < files.len()
        invariant
            i <= files@.len(),
            layers@.len() == i,
            forall|j: int| 0 <= j < i ==> (#[trigger] decoded_image(files@[j]@)) is Some,
            forall|j: int|
                0 <= j < i ==> decoded_image(files@[j]@) == Some(
                    ((#[trigger] layers@[j]).0, layers@[j].1, layers@[j].2@),
                ),
        decreases files@.len() - i,
    {
        match decode_image(&files[i]) {
            Some(layer) => {
                layers.push(layer);
            },
            None => {
                assert(!all_decode(files@)) by {
                    assert(decoded_image(files@[i as int]@) is None);
                }
                return None;
            },
        }
        i = i + 1;
    }
    Some(layers)
}

} // verus!
