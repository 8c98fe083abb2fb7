//! Frames as full images: each frame's indices looked up in its palette and
//! laid over the frame before it, and the images written as plain pixmaps.

use crate::decoder::types::{GifFile, GifFileView, GifFrameView, ImageDescriptor, Pixel};
use crate::text::{append_decimal, decimal};
use vstd::prelude::*;
use vstd::string::StringExecFns;

verus! {

/// Why the frames of a file cannot be drawn.
#[derive(Debug, PartialEq, Eq, Clone, Copy, Structural)]
pub enum RenderError {
    /// The file has no global colour table.
    MissingGlobalColorTable,
    /// A frame holds an index that its palette has no colour for.
    PaletteIndexOutOfRange,
    /// The frame before has pixels, and the canvas is zero pixels wide.
    EmptyCanvas,
    /// A frame has fewer pixels than the part of its rectangle that lies
    /// over the frame before.
    FrameDataTooShort,
}

/// The colours of `indices` in `table`, where the table has a colour for each.
pub open spec fn spec_resolve(indices: Seq<u8>, table: Seq<Pixel>) -> Option<Seq<Pixel>> {
    if forall|i: int| 0 <= i < indices.len() ==> (#[trigger] indices[i]) < table.len() {
        Some(Seq::new(indices.len(), |i: int| table[indices[i] as int]))
    } else {
        None
    }
}

/// Cell `position` of a canvas `canvas_width` wide, counted row by row, lies
/// in the rectangle of `descriptor`.
pub open spec fn covered(descriptor: ImageDescriptor, canvas_width: u16, position: int) -> bool {
    let x = position % (canvas_width as int);
    let y = position / (canvas_width as int);
    &&& descriptor.left <= x < descriptor.left + descriptor.width
    &&& descriptor.top <= y < descriptor.top + descriptor.height
}

/// The cell of the frame that lies over cell `position` of the canvas.
pub open spec fn cell_over(descriptor: ImageDescriptor, canvas_width: u16, position: int) -> int {
    let x = position % (canvas_width as int);
    let y = position / (canvas_width as int);
    (y - descriptor.top) * descriptor.width + (x - descriptor.left)
}

/// The image of a frame with the colours `data`: the frame itself where no
/// frame came before, else the frame before with this frame's rectangle
/// laid over it.
pub open spec fn spec_image_over(
    previous: Option<Seq<Pixel>>,
    canvas_width: u16,
    descriptor: ImageDescriptor,
    data: Seq<Pixel>,
) -> Result<Seq<Pixel>, RenderError> {
    match previous {
        None => Ok(data),
        Some(under) => if under.len() > 0 && canvas_width == 0 {
            Err(RenderError::EmptyCanvas)
        } else if exists|position: int|
            0 <= position < under.len() && covered(descriptor, canvas_width, position)
                && #[trigger] cell_over(descriptor, canvas_width, position) >= data.len() {
            Err(RenderError::FrameDataTooShort)
        } else {
            Ok(
                Seq::new(
                    under.len(),
                    |position: int|
                        if covered(descriptor, canvas_width, position) {
                            data[cell_over(descriptor, canvas_width, position)]
                        } else {
                            under[position]
                        },
                ),
            )
        },
    }
}

/// The images of `frames`, where `table` is the palette in force and
/// `previous` the colours of the frame before. A local colour table stays
/// in force for the frames after it.
pub open spec fn spec_compose_from(
    frames: Seq<GifFrameView>,
    canvas_width: u16,
    table: Seq<Pixel>,
    previous: Option<Seq<Pixel>>,
) -> Result<Seq<Seq<Pixel>>, RenderError>
    decreases frames.len(),
{
    if frames.len() == 0 {
        Ok(Seq::empty())
    } else {
        let frame = frames[0];
        let palette = match frame.local_color_table {
            Some(local) => local,
            None => table,
        };
        match spec_resolve(frame.frame_indices, palette) {
            None => Err(RenderError::PaletteIndexOutOfRange),
            Some(data) => match spec_image_over(
                previous,
                canvas_width,
                frame.image_descriptor,
                data,
            ) {
                Err(e) => Err(e),
                Ok(image) => match spec_compose_from(
                    frames.skip(1),
                    canvas_width,
                    palette,
                    Some(data),
                ) {
                    Err(e) => Err(e),
                    Ok(rest) => Ok(seq![image] + rest),
                },
            },
        }
    }
}

/// The images of the frames of `file`, one for each frame.
pub open spec fn spec_compose(file: GifFileView) -> Result<Seq<Seq<Pixel>>, RenderError> {
    match file.global_color_table {
        None => Err(RenderError::MissingGlobalColorTable),
        Some(table) => spec_compose_from(
            file.frames,
            file.logical_screen_descriptor.canvas_width,
            table,
            None,
        ),
    }
}

/// Looks up each index of `indices` in `table`.
pub fn resolve_colors(indices: &Vec<u8>, table: &Vec<Pixel>) -> (res: Result<
    Vec<Pixel>,
    RenderError,
>)
    ensures
        match res {
            Ok(data) => spec_resolve(indices@, table@) == Some(data@),
            Err(e) => e == RenderError::PaletteIndexOutOfRange && spec_resolve(indices@, table@)
                is None,
        },
{
    let mut data: Vec<Pixel> = Vec::new();
    let mut i: usize = 0;
    while i < indices.len()
        invariant
            i <= indices@.len(),
            data@.len() == i,
            forall|k: int| 0 <= k < i ==> (#[trigger] indices@[k]) < table@.len(),
            forall|k: int| 0 <= k < i ==> #[trigger] data@[k] == table@[indices@[k] as int],
        decreases indices@.len() - i,
    {
        let index = indices[i] as usize;
        if index >= table.len() {
            return Err(RenderError::PaletteIndexOutOfRange);
        }
        data.push(table[index]);
        i = i + 1;
    }
    assert(data@ =~= spec_resolve(indices@, table@)->Some_0);
    Ok(data)
}

/// Lays the frame with colours `data` over the colours `under` of the frame
/// before it.
pub fn overlay(
    under: &Vec<Pixel>,
    canvas_width: u16,
    descriptor: &ImageDescriptor,
    data: &Vec<Pixel>,
) -> (res: Result<Vec<Pixel>, RenderError>)
    ensures
        match res {
            Ok(image) => spec_image_over(Some(under@), canvas_width, *descriptor, data@) == Ok::<
                Seq<Pixel>,
                RenderError,
            >(image@),
            Err(e) => spec_image_over(Some(under@), canvas_width, *descriptor, data@) == Err::<
                Seq<Pixel>,
                RenderError,
            >(e),
        },
{
    if under.len() > 0 && canvas_width == 0 {
        return Err(RenderError::EmptyCanvas);
    }
    let mut image: Vec<Pixel> = Vec::new();
    let mut position: usize = 0;
    while position < under.len()
        invariant
            position <= under@.len(),
            under@.len() > 0 ==> canvas_width > 0,
            image@.len() == position,
            forall|p: int|
                0 <= p < position && covered(*descriptor, canvas_width, p) ==> #[trigger] cell_over(
                    *descriptor,
                    canvas_width,
                    p,
                ) < data@.len(),
            forall|p: int|
                0 <= p < position ==> #[trigger] image@[p] == if covered(
                    *descriptor,
                    canvas_width,
                    p,
                ) {
                    data@[cell_over(*descriptor, canvas_width, p)]
                } else {
                    under@[p]
                },
        decreases under@.len() - position,
    {
        let x = (position % (canvas_width as usize)) as u64;
        let y = (position / (canvas_width as usize)) as u64;
        let left = descriptor.left as u64;
        let top = descriptor.top as u64;
        let width = descriptor.width as u64;
        let height = descriptor.height as u64;
        if x >= left && x < left + width && y >= top && y < top + height {
            assert((y - top) * width <= 65535 * 65535) by (nonlinear_arith)
                requires
                    0 <= y - top < 65536,
                    0 <= width < 65536,
            ;
            let cell: u64 = (y - top) * width + (x - left);
            assert(cell == cell_over(*descriptor, canvas_width, position as int));
            if cell >= data.len() as u64 {
                return Err(RenderError::FrameDataTooShort);
            }
            image.push(data[cell as usize]);
        } else {
            image.push(under[position]);
        }
        position = position + 1;
    }
    assert(image@ =~= spec_image_over(Some(under@), canvas_width, *descriptor, data@)->Ok_0);
    Ok(image)
}

/// The images `prefix`, followed by the outcome `part` for the frames after
/// them.
pub open spec fn images_then(prefix: Seq<Seq<Pixel>>, part: Result<Seq<Seq<Pixel>>, RenderError>)
    -> Result<Seq<Seq<Pixel>>, RenderError> {
    match part {
        Ok(rest) => Ok(prefix + rest),
        Err(e) => Err(e),
    }
}

/// A copy of `pixels`.
fn copy_pixels(pixels: &Vec<Pixel>) -> (copy: Vec<Pixel>)
    ensures
        copy@ == pixels@,
{
    let mut copy: Vec<Pixel> = Vec::new();
    let mut i: usize = 0;
    while i < pixels.len()
        invariant
            i <= pixels@.len(),
            copy@ == pixels@.take(i as int),
        decreases pixels@.len() - i,
    {
        copy.push(pixels[i]);
        i = i + 1;
    }
    assert(pixels@.take(i as int) =~= pixels@);
    copy
}

/// A vector of colours is its own mathematical value.
proof fn lemma_pixels_view(pixels: Vec<Pixel>)
    ensures
        pixels.deep_view() == pixels@,
{
    assert(pixels.deep_view() =~= pixels@);
}

/// Draws each frame of `image` as a full image: its indices looked up in
/// the palette in force, laid over the colours of the frame before.
pub fn compose(image: &GifFile) -> (res: Result<Vec<Vec<Pixel>>, RenderError>)
    ensures
        match res {
            Ok(images) => spec_compose(image.deep_view()) == Ok::<
                Seq<Seq<Pixel>>,
                RenderError,
            >(images.deep_view()),
            Err(e) => spec_compose(image.deep_view()) == Err::<Seq<Seq<Pixel>>, RenderError>(e),
        },
{
    let canvas_width = image.logical_screen_descriptor.canvas_width;
    let mut table: &Vec<Pixel> = match &image.global_color_table {
        Some(table) => table,
        None => {
            return Err(RenderError::MissingGlobalColorTable);
        },
    };
    let mut previous: Option<Vec<Pixel>> = None;
    let mut images: Vec<Vec<Pixel>> = Vec::new();
    let ghost frames = image.frames.deep_view();
    let mut i: usize = 0;
    proof {
        lemma_pixels_view(*table);
        assert(frames.skip(0) =~= frames);
        assert(images.deep_view() =~= Seq::<Seq<Pixel>>::empty());
        assert(Seq::<Seq<Pixel>>::empty() + spec_compose_from(
            frames,
            canvas_width,
            table@,
            None,
        )->Ok_0 =~= spec_compose_from(frames, canvas_width, table@, None)->Ok_0);
    }
    while i < image.frames.len()
        invariant
            i <= image.frames@.len(),
            frames == image.frames.deep_view(),
            canvas_width == image.logical_screen_descriptor.canvas_width,
            spec_compose(image.deep_view()) == images_then(
                images.deep_view(),
                spec_compose_from(
                    frames.skip(i as int),
                    canvas_width,
                    table@,
                    match previous {
                        Some(under) => Some(under@),
                        None => None,
                    },
                ),
            ),
        decreases image.frames@.len() - i,
    {
        let frame = &image.frames[i];
        let ghost before = images.deep_view();
        let ghost rest = frames.skip(i as int);
        proof {
            assert(rest[0] == frame.deep_view());
            assert(rest.skip(1) =~= frames.skip(i + 1));
        }
        match &frame.local_color_table {
            Some(local) => {
                proof {
                    lemma_pixels_view(*local);
                }
                table = local;
            },
            None => {},
        }
        let data = match resolve_colors(&frame.frame_indices, table) {
            Ok(data) => data,
            Err(e) => {
                return Err(e);
            },
        };
        let drawn = match &previous {
            None => copy_pixels(&data),
            Some(under) => match overlay(under, canvas_width, &frame.image_descriptor, &data) {
                Ok(drawn) => drawn,
                Err(e) => {
                    return Err(e);
                },
            },
        };
        proof {
            lemma_pixels_view(drawn);
            match spec_compose_from(rest.skip(1), canvas_width, table@, Some(data@)) {
                Ok(more) => {
                    assert(before + (seq![drawn@] + more) =~= before.push(drawn@) + more);
                },
                Err(_) => {},
            }
        }
        images.push(drawn);
        assert(images.deep_view() =~= before.push(drawn@));
        previous = Some(data);
        i = i + 1;
    }
    proof {
        assert(images.deep_view() + Seq::<Seq<Pixel>>::empty() =~= images.deep_view());
    }
    Ok(images)
}

/// One line of a pixmap: the three parts of a colour, with commas between.
pub open spec fn pixel_line(pixel: Pixel) -> Seq<char> {
    decimal(pixel.red as nat) + seq![','] + decimal(pixel.green as nat) + seq![','] + decimal(
        pixel.blue as nat,
    )
}

/// One line for each pixel, with line feeds between.
pub open spec fn pixel_lines(pixels: Seq<Pixel>) -> Seq<char>
    decreases pixels.len(),
{
    if pixels.len() == 0 {
        Seq::empty()
    } else if pixels.len() == 1 {
        pixel_line(pixels[0])
    } else {
        pixel_lines(pixels.drop_last()) + seq!['\n'] + pixel_line(pixels.last())
    }
}

/// A plain pixmap: the magic `P3`, the size of the canvas, the largest
/// value 255, and the pixels.
pub open spec fn ppm_text(width: u16, height: u16, pixels: Seq<Pixel>) -> Seq<char> {
    seq!['P', '3', '\n'] + decimal(width as nat) + seq![' '] + decimal(height as nat)
        + seq!['\n', '2', '5', '5', '\n'] + pixel_lines(pixels)
}

/// Appends the line of `pixel` to `out`.
fn append_pixel_line(out: &mut String, pixel: &Pixel)
    ensures
        final(out)@ == old(out)@ + pixel_line(*pixel),
{
    proof {
        reveal_strlit(",");
    }
    append_decimal(out, pixel.red as u16);
    out.append(",");
    append_decimal(out, pixel.green as u16);
    out.append(",");
    append_decimal(out, pixel.blue as u16);
    assert(out@ =~= old(out)@ + pixel_line(*pixel));
}

/// Writes the image `pixels` of a canvas `width` by `height` as a plain
/// pixmap.
pub fn write_ppm(width: u16, height: u16, pixels: &Vec<Pixel>) -> (text: String)
    ensures
        text@ == ppm_text(width, height, pixels@),
{
    proof {
        reveal_strlit("P3\n");
        reveal_strlit(" ");
        reveal_strlit("\n255\n");
        reveal_strlit("\n");
    }
    let mut text = String::new();
    text.append("P3\n");
    append_decimal(&mut text, width);
    text.append(" ");
    append_decimal(&mut text, height);
    text.append("\n255\n");
    let ghost head = text@;
    assert(head =~= seq!['P', '3', '\n'] + decimal(width as nat) + seq![' '] + decimal(
        height as nat,
    ) + seq!['\n', '2', '5', '5', '\n']);
    let mut i: usize = 0;
    assert(pixels@.take(0) =~= Seq::<Pixel>::empty());
    while i < pixels.len()
        invariant
            i <= pixels@.len(),
            text@ == head + pixel_lines(pixels@.take(i as int)),
        decreases pixels@.len() - i,
    {
        let ghost so_far = pixels@.take(i as int);
        let ghost next = pixels@.take(i + 1);
        proof {
            reveal_strlit("\n");
            assert(next.drop_last() =~= so_far);
            assert(next.last() == pixels@[i as int]);
        }
        if i > 0 {
            text.append("\n");
        }
        append_pixel_line(&mut text, &pixels[i]);
        assert(text@ =~= head + pixel_lines(next));
        i = i + 1;
    }
    assert(pixels@.take(i as int) =~= pixels@);
    text
}

/// Draws each frame of `image` and writes it as a plain pixmap, with the
/// number of the frame beside it.
pub fn get_ppm_representation(image: GifFile) -> (res: Result<Vec<(usize, String)>, RenderError>)
    ensures
        match res {
            Ok(ret) => {
                &&& spec_compose(image.deep_view()) matches Ok(images)
                &&& ret@.len() == images.len()
                &&& forall|i: int|
                    0 <= i < ret@.len() ==> (#[trigger] ret@[i]).0 == i && ret@[i].1@ == ppm_text(
                        image.logical_screen_descriptor.canvas_width,
                        image.logical_screen_descriptor.canvas_height,
                        images[i],
                    )
            },
            Err(e) => spec_compose(image.deep_view()) == Err::<Seq<Seq<Pixel>>, RenderError>(e),
        },
{
    let width = image.logical_screen_descriptor.canvas_width;
    let height = image.logical_screen_descriptor.canvas_height;
    let images = compose(&image)?;
    let mut ret: Vec<(usize, String)> = Vec::new();
    let mut idx: usize = 0;
    while idx < images.len()
        invariant
            idx <= images@.len(),
            ret@.len() == idx,
            forall|i: int|
                0 <= i < idx ==> (#[trigger] ret@[i]).0 == i && ret@[i].1@ == ppm_text(
                    width,
                    height,
                    images@[i]@,
                ),
        decreases images@.len() - idx,
    {
        let text = write_ppm(width, height, &images[idx]);
        ret.push((idx, text));
        idx = idx + 1;
    }
    proof {
        assert forall|i: int| 0 <= i < images@.len() implies images.deep_view()[i]
            == images@[i]@ by {
            lemma_pixels_view(images@[i]);
        }
    }
    Ok(ret)
}

} // verus!
