use vstd::prelude::*;
use vstd::string::StringExecFns;

use crate::error::Error;

verus! {

/// What a canvas holds: its size in pixels and its bytes, four per pixel
/// (red, green, blue, alpha), the rows from the top, each from the left.
pub struct Raster {
    pub width: nat,
    pub height: nat,
    pub pixels: Seq<u8>,
}

impl Raster {
    /// Whether the bytes are exactly those of `width` times `height`
    /// pixels.
    pub open spec fn well_formed(self) -> bool {
        self.pixels.len() == 4 * self.width * self.height
    }

    /// Whether the raster has no pixel.
    pub open spec fn is_empty(self) -> bool {
        self.width == 0 || self.height == 0
    }

    /// The raster of the given size whose pixels are all transparent black.
    pub open spec fn blank(width: nat, height: nat) -> Raster {
        Raster { width, height, pixels: Seq::new(4 * width * height, |i: int| 0u8) }
    }
}

/// Whether the bytes of an image of the given size can be held in memory at
/// all: no allocation is larger than `isize::MAX` bytes.
pub open spec fn canvas_fits(width: u32, height: u32) -> bool {
    4 * width * height <= isize::MAX
}

/// An RGBA image in memory.
pub struct Canvas {
    width: u32,
    height: u32,
    pixels: Vec<u8>,
}

impl View for Canvas {
    type V = Raster;

    closed spec fn view(&self) -> Raster {
        Raster { width: self.width as nat, height: self.height as nat, pixels: self.pixels@ }
    }
}

impl Canvas {
    #[verifier::type_invariant]
    spec fn holds_its_pixels(self) -> bool {
        self@.well_formed()
    }

    /// A canvas of the given size whose pixels are all transparent black,
    /// or `None` where such a canvas cannot be held in memory.
    pub fn blank(width: u32, height: u32) -> (canvas: Option<Canvas>)
        ensures
            match canvas {
                Some(canvas) => canvas_fits(width, height) && canvas@ == Raster::blank(
                    width as nat,
                    height as nat,
                ),
                None => !canvas_fits(width, height),
            },
    {
        assert(4 * width * height <= 4 * 0xffff_ffff * 0xffff_ffff) by (nonlinear_arith)
            requires
                0 <= width <= 0xffff_ffff,
                0 <= height <= 0xffff_ffff,
        ;
        let bytes: u128 = 4u128 * (width as u128) * (height as u128);
        if bytes > isize::MAX as u128 {
            return None;
        }
        let pixels = vec![0u8; bytes as usize];
        assert(pixels@ =~= Raster::blank(width as nat, height as nat).pixels);
        Some(Canvas { width, height, pixels })
    }

    pub fn width(&self) -> (width: u32)
        ensures
            width == self@.width,
    {
        self.width
    }

    pub fn height(&self) -> (height: u32)
        ensures
            height == self@.height,
    {
        self.height
    }

    /// Lays another image over this one, the top left corner of the one on
    /// that of the other. What of `top` lies beyond the edges is left out.
    pub fn lay_over(&mut self, top: &Canvas)
        ensures
            final(self)@ == laid_over(old(self)@, top@),
    {
        proof {
            use_type_invariant(&*self);
            use_type_invariant(top);
        }
        overlay(self, top);
    }

    /// The bytes of the pixels.
    pub fn pixels(&self) -> (pixels: &Vec<u8>)
        ensures
            pixels@ == self@.pixels,
            self@.well_formed(),
    {
        proof {
            use_type_invariant(self);
        }
        &self.pixels
    }
}

/// What `image::load_from_memory` makes of the bytes of a file, as RGBA
/// pixels of one byte per channel; `None` where it reports an error.
pub uninterp spec fn decoded_image(file: Seq<u8>) -> Option<Raster>;

/// The pixels of `bottom` after `image::imageops::overlay` has laid `top`
/// over it, the top left corner of the one on that of the other.
pub uninterp spec fn overlaid(bottom: Raster, top: Raster) -> Seq<u8>;

/// The PNG file that the `image` crate writes for a raster; `None` where
/// the encoder reports an error.
pub uninterp spec fn png_of(image: Raster) -> Option<Seq<u8>>;

/// The sixty-four digits of base64, by value.
pub open spec fn base64_digits() -> Seq<char> {
    "ABCDEFGHIJKLMNOPQRSTUVWXYZabcdefghijklmnopqrstuvwxyz0123456789+/"@
}

/// The base64 text of bytes, in the standard alphabet: each three bytes
/// are written as four digits of six bits, the high bits first, and one or
/// two bytes left at the end as two or three digits, filled up to four
/// with `=`.
pub open spec fn base64_of(bytes: Seq<u8>) -> Seq<char>
    decreases bytes.len(),
{
    let digits = base64_digits();
    if bytes.len() == 0 {
        Seq::empty()
    } else if bytes.len() == 1 {
        let a = bytes[0] as int;
        seq![digits[a / 4], digits[a % 4 * 16], '=', '=']
    } else if bytes.len() == 2 {
        let a = bytes[0] as int;
        let b = bytes[1] as int;
        seq![digits[a / 4], digits[a % 4 * 16 + b / 16], digits[b % 16 * 4], '=']
    } else {
        let a = bytes[0] as int;
        let b = bytes[1] as int;
        let c = bytes[2] as int;
        seq![
            digits[a / 4],
            digits[a % 4 * 16 + b / 16],
            digits[b % 16 * 4 + c / 64],
            digits[c % 64],
        ] + base64_of(bytes.skip(3))
    }
}

/// The eight bytes that every PNG file begins with.
pub open spec fn png_signature() -> Seq<u8> {
    seq![137u8, 80u8, 78u8, 71u8, 13u8, 10u8, 26u8, 10u8]
}

/// Whether the bytes of a file are an image with at least one pixel.
pub open spec fn opens(file: Seq<u8>) -> bool {
    decoded_image(file) matches Some(image) && !image.is_empty()
}

/// The size from which on an image is not resampled: below it the
/// resampler's single-precision arithmetic places every pixel exactly.
pub const RESAMPLING_LIMIT: u32 = 8_388_608;

/// Whether an image can be resampled to the given size: its width and
/// height and those asked for all lie below the resampling limit, and the
/// rows that resampling keeps in between, sixteen bytes per pixel, are not
/// larger than `isize::MAX` bytes.
pub open spec fn resamples(source: Raster, width: u32, height: u32) -> bool {
    &&& source.width < RESAMPLING_LIMIT
    &&& source.height < RESAMPLING_LIMIT
    &&& width < RESAMPLING_LIMIT
    &&& height < RESAMPLING_LIMIT
    &&& 16 * source.width * height <= isize::MAX
}

/// Whether an image can be brought to the given size: the result can be
/// held in memory, and the image has that size already or can be
/// resampled to it.
pub open spec fn resize_fits(source: Raster, width: u32, height: u32) -> bool {
    &&& canvas_fits(width, height)
    &&& (source.width == width && source.height == height) || resamples(source, width, height)
}

/// Whether a file can be used as a layer of an image of the given size.
pub open spec fn usable(file: Seq<u8>, width: u32, height: u32) -> bool {
    opens(file) && resize_fits(decoded_image(file).unwrap(), width, height)
}

/// What is known of an image brought to another size: it has that size,
/// and an image that had it already is unchanged. The pixels of a
/// resampled image depend on the floating-point arithmetic of the machine.
pub open spec fn resized_from(source: Raster, resized: Raster, width: u32, height: u32) -> bool {
    &&& resized.well_formed()
    &&& resized.width == width
    &&& resized.height == height
    &&& (source.width == width && source.height == height ==> resized == source)
}

/// A raster with another laid over it. Its size is that of the one below.
pub open spec fn laid_over(bottom: Raster, top: Raster) -> Raster {
    Raster { width: bottom.width, height: bottom.height, pixels: overlaid(bottom, top) }
}

/// A raster with layers laid over it one after the other, so that each
/// covers those before it.
pub open spec fn composite(base: Raster, layers: Seq<Raster>) -> Raster
    decreases layers.len(),
{
    if layers.len() == 0 {
        base
    } else {
        laid_over(composite(base, layers.drop_last()), layers.last())
    }
}

/// The files of an image from the bottom up: the background, where there is
/// one, and then the parts in their order.
pub open spec fn layer_stack(background: Option<Seq<u8>>, parts: Seq<Seq<u8>>) -> Seq<Seq<u8>> {
    match background {
        Some(file) => seq![file] + parts,
        None => parts,
    }
}

/// The bytes of each file of a list.
pub open spec fn contents(files: Seq<Vec<u8>>) -> Seq<Seq<u8>> {
    Seq::new(files.len(), |i: int| files[i]@)
}

/// The bytes of an optional file.
pub open spec fn content(file: Option<Vec<u8>>) -> Option<Seq<u8>> {
    match file {
        Some(bytes) => Some(bytes@),
        None => None,
    }
}

/// Whether `layers` are the images of the files of a stack, each brought
/// to the given size.
pub open spec fn brought_to_size(
    stack: Seq<Seq<u8>>,
    layers: Seq<Raster>,
    width: u32,
    height: u32,
) -> bool {
    &&& layers.len() == stack.len()
    &&& forall|i: int|
        0 <= i < stack.len() ==> resized_from(
            decoded_image(stack[i]).unwrap(),
            #[trigger] layers[i],
            width,
            height,
        )
}

/// Whether `image` is a blank canvas of the given size with the files of
/// `stack` laid over it from the first to the last, each brought to that
/// size first.
pub open spec fn composes(stack: Seq<Seq<u8>>, width: u32, height: u32, image: Raster) -> bool {
    exists|layers: Seq<Raster>| #[trigger]
        brought_to_size(stack, layers, width, height) && image == composite(
            Raster::blank(width as nat, height as nat),
            layers,
        )
}

/// Whether a text of the base64 of that many bytes can be held in memory.
pub open spec fn base64_fits(bytes: int) -> bool {
    4 * ((bytes + 2) / 3) <= isize::MAX
}

/// Whether `text` is the base64 of the PNG file of `image`, a text that
/// can be held in memory.
pub open spec fn encodes(image: Raster, text: Seq<char>) -> bool {
    &&& png_of(image) matches Some(file)
    &&& base64_fits(file.len() as int)
    &&& text == base64_of(file)
}

/// The base64 text of bytes has four digits for each three bytes begun.
pub proof fn base64_has_four_digits_for_three_bytes(bytes: Seq<u8>)
    ensures
        base64_of(bytes).len() == 4 * ((bytes.len() + 2) / 3),
    decreases bytes.len(),
{
    if bytes.len() >= 3 {
        base64_has_four_digits_for_three_bytes(bytes.skip(3));
    }
}

/// Laying layers over a raster leaves its size as it was.
pub proof fn composite_keeps_the_size(base: Raster, layers: Seq<Raster>)
    ensures
        composite(base, layers).width == base.width,
        composite(base, layers).height == base.height,
    decreases layers.len(),
{
    if layers.len() > 0 {
        composite_keeps_the_size(base, layers.drop_last());
    }
}

/// Calls `image::load_from_memory` and turns what it gives into RGBA
/// pixels with `DynamicImage::into_rgba8`. The contract names the result,
/// takes an error for `None`, and claims that the buffer of a decoded image
/// holds four bytes for each of its pixels.
#[verifier::external_body]
fn decode(file: &Vec<u8>) -> (decoded: Result<Canvas, String>)
    ensures
        match decoded {
            Ok(image) => decoded_image(file@) == Some(image@) && image@.well_formed(),
            Err(_) => decoded_image(file@) is None,
        },
{
    match ::image::load_from_memory(file.as_slice()) {
        Ok(image) => {
            let image = image.into_rgba8();
            Ok(Canvas { width: image.width(), height: image.height(), pixels: image.into_raw() })
        },
        Err(error) => Err(format!("{error:#?}")),
    }
}

/// Calls `image::imageops::resize` with the Lanczos3 filter, on the image
/// that `ImageBuffer::from_raw` makes of the canvas. The contract claims
/// the size of the result, and that an image of that size already is
/// copied as it is. It leaves out an image without pixels, sizes for which
/// the function's buffers cannot be allocated, and, where the image is
/// resampled, sizes from the resampling limit on: there the function
/// computes the places of pixels in single precision, the weights of a
/// pixel can come out as all zero, and it panics on what it divides by
/// their sum.
#[verifier::external_body]
fn resize(image: &Canvas, width: u32, height: u32) -> (resized: Canvas)
    requires
        image@.well_formed(),
        !image@.is_empty(),
        resize_fits(image@, width, height),
    ensures
        resized_from(image@, resized@, width, height),
{
    let source = ::image::ImageBuffer::<::image::Rgba<u8>, &[u8]>::from_raw(
        image.width,
        image.height,
        image.pixels.as_slice(),
    ).unwrap();
    let filter = ::image::imageops::FilterType::Lanczos3;
    let resized = ::image::imageops::resize(&source, width, height, filter);
    Canvas { width, height, pixels: resized.into_raw() }
}

/// Calls `image::imageops::overlay` at the origin, on the images that
/// `ImageBuffer::from_raw` makes of the two canvases. The contract names
/// the pixels of the result and claims that the size of `bottom` stays.
#[verifier::external_body]
fn overlay(bottom: &mut Canvas, top: &Canvas)
    requires
        old(bottom)@.well_formed(),
        top@.well_formed(),
    ensures
        final(bottom)@.pixels == overlaid(old(bottom)@, top@),
        final(bottom)@.width == old(bottom)@.width,
        final(bottom)@.height == old(bottom)@.height,
        final(bottom)@.well_formed(),
{
    let below = std::mem::take(&mut bottom.pixels);
    let mut base = ::image::RgbaImage::from_raw(bottom.width, bottom.height, below).unwrap();
    let layer = ::image::ImageBuffer::<::image::Rgba<u8>, &[u8]>::from_raw(
        top.width,
        top.height,
        top.pixels.as_slice(),
    ).unwrap();
    ::image::imageops::overlay(&mut base, &layer, 0, 0);
    bottom.pixels = base.into_raw();
}

/// Calls `ImageBuffer::write_to` with the PNG format on a buffer in
/// memory, for the image that `ImageBuffer::from_raw` makes of the canvas.
/// The contract names the file, takes an error for `None`, and claims that
/// a file that was written begins with the PNG signature, which the encoder
/// writes before anything else.
#[verifier::external_body]
fn encode_png(image: &Canvas) -> (encoded: Result<Vec<u8>, String>)
    requires
        image@.well_formed(),
    ensures
        match encoded {
            Ok(file) => {
                &&& png_of(image@) == Some(file@)
                &&& file@.len() >= 8
                &&& file@.subrange(0, 8) == png_signature()
            },
            Err(_) => png_of(image@) is None,
        },
{
    let source = ::image::ImageBuffer::<::image::Rgba<u8>, &[u8]>::from_raw(
        image.width,
        image.height,
        image.pixels.as_slice(),
    ).unwrap();
    let mut file: Vec<u8> = Vec::new();
    let format = ::image::ImageOutputFormat::Png;
    match source.write_to(&mut std::io::Cursor::new(&mut file), format) {
        Ok(()) => Ok(file),
        Err(error) => Err(format!("{error:#?}")),
    }
}

/// Calls `base64::encode`. The contract states the text: base64 in the
/// standard alphabet, padded. It leaves out inputs whose text would be
/// larger than `isize::MAX` bytes.
#[verifier::external_body]
fn encode_base64(bytes: &Vec<u8>) -> (text: String)
    requires
        base64_fits(bytes.len() as int),
    ensures
        text@ == base64_of(bytes@),
{
    ::base64::encode(bytes)
}

/// Whether every file of a stack can be used as a layer.
pub open spec fn all_usable(stack: Seq<Seq<u8>>, width: u32, height: u32) -> bool {
    forall|i: int| 0 <= i < stack.len() ==> usable(#[trigger] stack[i], width, height)
}

/// Whether the file at `at` is the first of a stack that cannot be used.
pub open spec fn first_unusable(stack: Seq<Seq<u8>>, width: u32, height: u32, at: int) -> bool {
    &&& 0 <= at < stack.len()
    &&& !usable(stack[at], width, height)
    &&& forall|j: int| 0 <= j < at ==> usable(#[trigger] stack[j], width, height)
}

/// Whether `error` is what building an image of the given size from a
/// stack of files fails with: an image that cannot be held in memory is an
/// `ImageProcessingError`; else the first file that cannot be used decides,
/// with `ImageOpenFailed` where it is no image with pixels and
/// `ImageProcessingError` where it cannot be brought to the size.
pub open spec fn build_fails_with(stack: Seq<Seq<u8>>, width: u32, height: u32, error: Error) -> bool {
    if !canvas_fits(width, height) {
        error is ImageProcessingError
    } else {
        exists|at: int|
            #[trigger] first_unusable(stack, width, height, at) && if opens(stack[at]) {
                error is ImageProcessingError
            } else {
                error is ImageOpenFailed
            }
    }
}

/// Whether writing `image` as base64 text fails: the PNG encoder reports
/// an error, or the text of its file cannot be held in memory.
pub open spec fn encoding_fails(image: Raster) -> bool {
    !(png_of(image) matches Some(file) && base64_fits(file.len() as int))
}

/// Whether `after` is `before` with the image of a file laid over it, the
/// image brought to the given size first.
pub open spec fn appended(before: Raster, file: Seq<u8>, width: u32, height: u32, after: Raster) -> bool {
    exists|layer: Raster|
        #[trigger] resized_from(decoded_image(file).unwrap(), layer, width, height) && after
            == laid_over(before, layer)
}

/// Decodes the bytes of a file as an image. An image without pixels is
/// refused like a file that is no image.
pub fn try_open_image(file: &Vec<u8>) -> (opened: Result<Canvas, Error>)
    ensures
        match opened {
            Ok(image) => opens(file@) && decoded_image(file@) == Some(image@),
            Err(error) => !opens(file@) && error is ImageOpenFailed,
        },
{
    match decode(file) {
        Ok(image) => {
            if image.width == 0 || image.height == 0 {
                Err(Error::ImageOpenFailed(String::from_str("the image has no pixels")))
            } else {
                Ok(image)
            }
        },
        Err(detail) => Err(Error::ImageOpenFailed(detail)),
    }
}

/// Tells whether an image can be brought to the given size.
fn can_resize(image: &Canvas, width: u32, height: u32) -> (yes: bool)
    ensures
        yes == resize_fits(image@, width, height),
{
    assert(4 * width * height <= 4 * 0xffff_ffff * 0xffff_ffff && 16 * image.width * height <= 16
        * 0xffff_ffff * 0xffff_ffff) by (nonlinear_arith)
        requires
            0 <= width <= 0xffff_ffff,
            0 <= height <= 0xffff_ffff,
            0 <= image.width <= 0xffff_ffff,
    ;
    let result: u128 = 4u128 * (width as u128) * (height as u128);
    if result > isize::MAX as u128 {
        return false;
    }
    if image.width == width && image.height == height {
        return true;
    }
    let rows: u128 = 16u128 * (image.width as u128) * (height as u128);
    image.width < RESAMPLING_LIMIT && image.height < RESAMPLING_LIMIT && width < RESAMPLING_LIMIT
        && height < RESAMPLING_LIMIT && rows <= isize::MAX as u128
}

/// Lays the image of a file over `base`, brought to the given size first.
/// Where the file cannot be used, `base` stays as it was.
pub fn append_to_image(base: &mut Canvas, file: &Vec<u8>, width: u32, height: u32) -> (done: Result<
    (),
    Error,
>)
    ensures
        match done {
            Ok(()) => usable(file@, width, height) && appended(
                old(base)@,
                file@,
                width,
                height,
                final(base)@,
            ),
            Err(error) => {
                &&& !usable(file@, width, height)
                &&& final(base)@ == old(base)@
                &&& if opens(file@) {
                    error is ImageProcessingError
                } else {
                    error is ImageOpenFailed
                }
            },
        },
{
    let image = match try_open_image(file) {
        Ok(image) => image,
        Err(error) => {
            return Err(error);
        },
    };
    if !can_resize(&image, width, height) {
        return Err(
            Error::ImageProcessingError(String::from_str("the image is too large to resize")),
        );
    }
    proof {
        use_type_invariant(&image);
    }
    let layer = resize(&image, width, height);
    base.lay_over(&layer);
    assert(resized_from(decoded_image(file@).unwrap(), layer@, width, height));
    Ok(())
}

/// Builds an image of the given size from the files of its layers: the
/// background, where there is one, lies at the bottom, and each part covers
/// those before it. Fails at the first file that cannot be used, and
/// before any file is looked at where an image of that size cannot be held
/// in memory.
pub fn build_robo_hash_image(
    robo_parts: &Vec<Vec<u8>>,
    background: &Option<Vec<u8>>,
    width: u32,
    height: u32,
) -> (built: Result<Canvas, Error>)
    ensures
        match built {
            Ok(image) => {
                &&& canvas_fits(width, height)
                &&& all_usable(
                    layer_stack(content(*background), contents(robo_parts@)),
                    width,
                    height,
                )
                &&& composes(
                    layer_stack(content(*background), contents(robo_parts@)),
                    width,
                    height,
                    image@,
                )
                &&& image@.width == width
                &&& image@.height == height
                &&& image@.well_formed()
            },
            Err(error) => build_fails_with(
                layer_stack(content(*background), contents(robo_parts@)),
                width,
                height,
                error,
            ),
        },
{
    let ghost stack = layer_stack(content(*background), contents(robo_parts@));
    let ghost blank = Raster::blank(width as nat, height as nat);
    let mut base_image = match Canvas::blank(width, height) {
        Some(canvas) => canvas,
        None => {
            return Err(
                Error::ImageProcessingError(String::from_str("the image is too large to hold")),
            );
        },
    };
    let ghost mut layers: Seq<Raster> = Seq::empty();
    let ghost below: int = if background is Some { 1 } else { 0 };
    if let Some(file) = background {
        let ghost before = base_image@;
        match append_to_image(&mut base_image, file, width, height) {
            Ok(()) => {},
            Err(error) => {
                assert(first_unusable(stack, width, height, 0));
                return Err(error);
            },
        }
        proof {
            let layer = choose|layer: Raster|
                #[trigger] resized_from(decoded_image(file@).unwrap(), layer, width, height)
                    && base_image@ == laid_over(before, layer);
            assert(composite(blank, layers) == blank);
            assert(layers.push(layer).drop_last() =~= layers);
            layers = layers.push(layer);
            assert(stack[0] == file@);
        }
    }
    let mut i: usize = 0;
    while i < robo_parts.len()
        invariant
            i <= robo_parts.len(),
            stack == layer_stack(content(*background), contents(robo_parts@)),
            blank == Raster::blank(width as nat, height as nat),
            below == if background is Some { 1int } else { 0int },
            stack.len() == below + robo_parts.len(),
            canvas_fits(width, height),
            forall|k: int| 0 <= k < below + i ==> usable(#[trigger] stack[k], width, height),
            brought_to_size(stack.take(below + i), layers, width, height),
            base_image@ == composite(blank, layers),
        decreases robo_parts.len() - i,
    {
        let ghost before = base_image@;
        let ghost file = robo_parts[i as int]@;
        assert(stack[below + i] == file);
        match append_to_image(&mut base_image, &robo_parts[i], width, height) {
            Ok(()) => {},
            Err(error) => {
                assert(first_unusable(stack, width, height, below + i));
                return Err(error);
            },
        }
        proof {
            let layer = choose|layer: Raster|
                #[trigger] resized_from(decoded_image(file).unwrap(), layer, width, height)
                    && base_image@ == laid_over(before, layer);
            assert(layers.push(layer).drop_last() =~= layers);
            layers = layers.push(layer);
        }
        i += 1;
    }
    proof {
        assert(stack.take(below + i) =~= stack);
        composite_keeps_the_size(blank, layers);
        use_type_invariant(&base_image);
    }
    Ok(base_image)
}

/// Tells whether the base64 text of a file can be held in memory.
fn can_encode(file: &Vec<u8>) -> (yes: bool)
    ensures
        yes == base64_fits(file.len() as int),
{
    let quads: u128 = (file.len() as u128 + 2) / 3;
    4 * quads <= isize::MAX as u128
}

/// Writes the bytes of a file as base64 text, where the text can be held
/// in memory.
pub fn encode_file(file: &Vec<u8>) -> (written: Result<String, Error>)
    ensures
        match written {
            Ok(text) => base64_fits(file.len() as int) && text@ == base64_of(file@),
            Err(error) => !base64_fits(file.len() as int) && error is ImageProcessingError,
        },
{
    if can_encode(file) {
        Ok(encode_base64(file))
    } else {
        Err(
            Error::ImageProcessingError(String::from_str("the image file is too large to encode")),
        )
    }
}

/// Writes an image as a PNG file and the file as base64 text. The text is
/// never empty.
pub fn to_base_64(image: &Canvas) -> (written: Result<String, Error>)
    ensures
        match written {
            Ok(text) => encodes(image@, text@) && text@.len() > 0,
            Err(error) => error is ImageProcessingError && encoding_fails(image@),
        },
{
    proof {
        use_type_invariant(image);
    }
    match encode_png(image) {
        Ok(file) => {
            proof {
                base64_has_four_digits_for_three_bytes(file@);
            }
            encode_file(&file)
        },
        Err(detail) => Err(Error::ImageProcessingError(detail)),
    }
}

/// Whether every file of a stack is an image of exactly the given size, so
/// that none is resampled.
pub open spec fn all_of_size(stack: Seq<Seq<u8>>, width: u32, height: u32) -> bool {
    forall|i: int|
        0 <= i < stack.len() ==> {
            &&& (#[trigger] decoded_image(stack[i])) matches Some(image)
            &&& image.width == width
            &&& image.height == height
        }
}

/// Files that have the size of the image already compose to one image
/// only: whatever two runs give is equal, pixel for pixel.
pub proof fn composing_is_determined(
    stack: Seq<Seq<u8>>,
    width: u32,
    height: u32,
    first: Raster,
    second: Raster,
)
    requires
        all_of_size(stack, width, height),
        composes(stack, width, height, first),
        composes(stack, width, height, second),
    ensures
        first == second,
{
    let blank = Raster::blank(width as nat, height as nat);
    let a = choose|layers: Seq<Raster>| #[trigger]
        brought_to_size(stack, layers, width, height) && first == composite(blank, layers);
    let b = choose|layers: Seq<Raster>| #[trigger]
        brought_to_size(stack, layers, width, height) && second == composite(blank, layers);
    assert forall|i: int| 0 <= i < stack.len() implies a[i] == b[i] by {
        assert(decoded_image(stack[i]) is Some);
        assert(resized_from(decoded_image(stack[i]).unwrap(), a[i], width, height));
        assert(resized_from(decoded_image(stack[i]).unwrap(), b[i], width, height));
    }
    assert(a =~= b);
}

/// An image is written as one text only.
pub proof fn encoding_is_determined(image: Raster, first: Seq<char>, second: Seq<char>)
    requires
        encodes(image, first),
        encodes(image, second),
    ensures
        first == second,
{
}

} // verus!
