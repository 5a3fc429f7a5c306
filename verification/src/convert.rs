//! Conversion of raster images to text art. The drawing itself is the
//! `artem` crate's; this module decides which images may be handed to it and
//! cuts its output into rows.

use vstd::prelude::*;
use crate::error::PlaybackError;
use crate::frame::{Frame, FrameStore};
use crate::geometry::strip_escapes;
use crate::source::{frame_size, RasterImage};
use crate::text::{lines, split_lines};

verus! {

/// Widest tile, in pixels, that the converter is given. The converter
/// multiplies a tile's width by its height, which is the width divided by
/// 0.42, in 32 bits; up to this width the product stays in range.
pub const MAX_TILE_WIDTH: u32 = 40000;

/// Pixels of the image that one text column stands for, when an image
/// `width` pixels wide is drawn in at most `target_size` columns.
pub open spec fn tile_width(width: nat, target_size: nat) -> nat {
    if width > target_size {
        width / target_size
    } else {
        1
    }
}

/// Images that can be converted: well-formed, and not so wide for the column
/// budget that a tile would exceed `MAX_TILE_WIDTH`.
pub open spec fn convertible(image: RasterImage, target_size: u32) -> bool {
    image.wf() && tile_width(image.width as nat, target_size as nat) <= MAX_TILE_WIDTH
}

/// Rows that are the lines of some text.
pub open spec fn is_text_art(rows: Seq<Seq<char>>) -> bool {
    exists|art: Seq<char>| rows == lines(art)
}

/// Text columns that an image `width` pixels wide is drawn in: the column
/// budget, or the image's own width where that is less.
pub open spec fn columns_of(width: nat, target_size: nat) -> nat {
    if width > target_size {
        target_size
    } else {
        width
    }
}

/// A grid of text art: at least one row, and every row shows `columns`
/// characters once its colour sequences are taken out.
pub open spec fn is_grid(rows: Seq<Seq<char>>, columns: nat) -> bool {
    &&& rows.len() >= 1
    &&& forall|r: int| 0 <= r < rows.len() ==> strip_escapes(#[trigger] rows[r]).len() == columns
}

/// Builds an RGB image with `image::ImageBuffer::from_raw` and draws it with
/// `artem::convert`, at `artem`'s default settings but for the column budget.
///
/// `from_raw` yields an image exactly when the buffer holds at least
/// `3 * width * height` bytes. Of the text that `convert` returns only the
/// shape is claimed: it draws at least one row, ends each row with a line
/// feed, and puts one cell per column in it, where a cell is one character
/// of the density string, either bare or between a colour sequence
/// `ESC [ .. m` and the reset `ESC [ 0 m`. Which of the two, and which
/// character, is not claimed: the colouring depends on the process
/// environment. The preconditions leave out what makes `convert` divide by
/// zero or overflow.
#[verifier::external_body]
fn convert_pixels(width: u32, height: u32, pixels: &Vec<u8>, target_size: u32) -> (art: Option<
    String,
>)
    requires
        width > 0,
        height > 0,
        target_size > 0,
        tile_width(width as nat, target_size as nat) <= MAX_TILE_WIDTH,
    ensures
        art is Some <==> 3 * width * height <= pixels@.len(),
        art is Some ==> is_grid(
            lines(art->Some_0@),
            columns_of(width as nat, target_size as nat),
        ),
{
    let columns = std::num::NonZeroU32::new(target_size)?;
    let config = artem::config::ConfigBuilder::new().target_size(columns).build();
    let buffer = image::ImageBuffer::from_raw(width, height, pixels.clone())?;
    Some(artem::convert(image::DynamicImage::ImageRgb8(buffer), &config))
}

/// Whether `image` can be converted for `target_size` columns.
pub fn is_convertible(image: &RasterImage, target_size: u32) -> (ok: bool)
    requires
        target_size > 0,
    ensures
        ok == convertible(*image, target_size),
{
    let fits: bool = match frame_size(image.width, image.height) {
        Some(size) => image.pixels.len() == size,
        None => false,
    };
    if !fits {
        return false;
    }
    let tile: u32 = if image.width > target_size {
        image.width / target_size
    } else {
        1
    };
    tile <= MAX_TILE_WIDTH
}

/// Converts one image to a frame of text art: a grid of at least one row,
/// as many columns wide as the budget `target_size` or the image's width
/// allows. An image that cannot be converted is a decoding failure.
pub fn frame_to_ascii(frame: &RasterImage, target_size: u32) -> (result: Result<
    Frame,
    PlaybackError,
>)
    requires
        target_size > 0,
    ensures
        convertible(*frame, target_size) ==> result is Ok && is_text_art(result->Ok_0@)
            && is_grid(result->Ok_0@, columns_of(frame.width as nat, target_size as nat)),
        !convertible(*frame, target_size) ==> result == Err::<Frame, PlaybackError>(
            PlaybackError::Decode,
        ),
{
    if !is_convertible(frame, target_size) {
        return Err(PlaybackError::Decode);
    }
    match convert_pixels(frame.width, frame.height, &frame.pixels, target_size) {
        Some(art) => Ok(rows_of(art.as_str())),
        None => Err(PlaybackError::Decode),
    }
}

/// The frame whose rows are the lines of `art`.
pub fn rows_of(art: &str) -> (frame: Frame)
    ensures
        frame@ == lines(art@),
{
    Frame::new(split_lines(art))
}

/// Whether every image of `images` can be converted.
pub open spec fn all_convertible(images: Seq<RasterImage>, target_size: u32) -> bool {
    forall|i: int| 0 <= i < images.len() ==> #[trigger] convertible(images[i], target_size)
}

/// Converts every image, in order, and loads the frames into a store, each
/// frame a grid as wide as its image and the budget allow. One image that
/// cannot be converted fails the whole load; so does an empty sequence.
pub fn convert_frames(images: &Vec<RasterImage>, target_size: u32) -> (result: Result<
    FrameStore,
    PlaybackError,
>)
    requires
        target_size > 0,
    ensures
        !all_convertible(images@, target_size) ==> result == Err::<FrameStore, PlaybackError>(
            PlaybackError::Decode,
        ),
        all_convertible(images@, target_size) && images@.len() == 0 ==> result == Err::<
            FrameStore,
            PlaybackError,
        >(PlaybackError::EmptyInput),
        all_convertible(images@, target_size) && images@.len() > 0 ==> result is Ok && ({
            let store = result->Ok_0@;
            &&& store.len() == images@.len()
            &&& forall|i: int|
                0 <= i < store.len() ==> is_text_art(#[trigger] store[i]) && is_grid(
                    store[i],
                    columns_of(images@[i].width as nat, target_size as nat),
                )
        }),
{
    let mut frames: Vec<Frame> = Vec::new();
    let mut i: usize = 0;
    while i < images.len()
        invariant
            target_size > 0,
            i <= images.len(),
            frames@.len() == i,
            all_convertible(images@.take(i as int), target_size),
            forall|j: int|
                0 <= j < i ==> is_text_art((#[trigger] frames@[j])@) && is_grid(
                    frames@[j]@,
                    columns_of(images@[j].width as nat, target_size as nat),
                ),
        decreases images.len() - i,
    {
        match frame_to_ascii(&images[i], target_size) {
            Ok(frame) => {
                frames.push(frame);
            },
            Err(error) => {
                return Err(error);
            },
        }
        proof {
            assert forall|j: int| 0 <= j < i + 1 implies #[trigger] convertible(
                images@.take(i + 1)[j],
                target_size,
            ) by {
                if j < i {
                    assert(images@.take(i as int)[j] == images@.take(i + 1)[j]);
                }
            }
        }
        i += 1;
    }
    proof {
        assert(images@.take(i as int) =~= images@);
    }
    FrameStore::load(frames)
}

} // verus!
