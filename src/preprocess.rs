use crate::error::ModelError;
use crate::geometry::{max_u32, padding_geometry};
use crate::strings::{decimal_digits, push_decimal, push_text, text};
use vstd::prelude::*;

verus! {

/// Side length used when the model does not declare a usable square input.
pub const FALLBACK_MODEL_INPUT_SIZE: u32 = 448;

/// An RGBA image: `width * height` pixels of four bytes, row by row.
#[derive(Clone, Debug)]
pub struct RgbaPixels {
    pub width: u32,
    pub height: u32,
    pub data: Vec<u8>,
}

impl RgbaPixels {
    pub open spec fn wf(&self) -> bool {
        self.data@.len() == 4 * self.width * self.height
    }
}

/// An RGB image: `width * height` pixels of three bytes, row by row.
#[derive(Clone, Debug)]
pub struct RgbPixels {
    pub width: u32,
    pub height: u32,
    pub data: Vec<u8>,
}

impl RgbPixels {
    pub open spec fn wf(&self) -> bool {
        self.data@.len() == 3 * self.width * self.height
    }
}

/// Resampling kernel used when an image is resized.
#[derive(Clone, Copy, Debug, PartialEq, Eq, Structural)]
pub enum ResampleFilter {
    /// Bicubic (Catmull-Rom) kernel.
    CatmullRom,
    /// Bilinear kernel.
    Triangle,
}

/// What the image decoder makes of `bytes`: width, height and RGBA pixels,
/// or nothing when the bytes are not a decodable image. The format is found
/// from the bytes with the decoder's built-in signature table, and the
/// built-in decoder for it is used; no process-wide hook is consulted. The
/// JPEG decoder picks a vectorised or a scalar path by the processor's
/// features, and its sources do not say the two give the same pixels: the
/// name is exact within one machine, and across machines for the other
/// formats.
pub uninterp spec fn decoded_rgba(bytes: Seq<u8>) -> Option<(u32, u32, Seq<u8>)>;

/// The RGBA pixels of `bottom` after `top` is alpha-blended onto it with its
/// top-left corner at (`x`, `y`).
pub uninterp spec fn overlaid(
    bottom: Seq<u8>,
    bottom_width: u32,
    bottom_height: u32,
    top: Seq<u8>,
    top_width: u32,
    top_height: u32,
    x: i64,
    y: i64,
) -> Seq<u8>;

/// The RGB pixels of an image resampled to `new_width` x `new_height`.
pub uninterp spec fn resized_rgb(
    data: Seq<u8>,
    width: u32,
    height: u32,
    new_width: u32,
    new_height: u32,
    filter: ResampleFilter,
) -> Seq<u8>;

/// Relies on `image::guess_format` (built-in signature table only),
/// `image::load_from_memory_with_format` (the built-in decoder for that
/// format) and `DynamicImage::to_rgba8`: the decoded pixels depend on the
/// bytes alone, and an image buffer holds at least four bytes for each RGBA
/// pixel.
#[verifier::external_body]
fn decode_rgba_raw(bytes: &[u8]) -> (r: Option<RgbaPixels>)
    ensures
        match decoded_rgba(bytes@) {
            Some(t) => match r {
                Some(p) => p.width == t.0 && p.height == t.1 && p.data@ == t.2 && p.data@.len() >= 4
                    * p.width * p.height,
                None => false,
            },
            None => r is None,
        },
{
    let format = match image::guess_format(bytes) {
        Ok(f) => f,
        Err(_) => return None,
    };
    match image::load_from_memory_with_format(bytes, format) {
        Ok(img) => {
            let rgba = img.to_rgba8();
            let (width, height) = rgba.dimensions();
            Some(RgbaPixels { width, height, data: rgba.into_raw() })
        },
        Err(_) => None,
    }
}

/// Width, height and RGBA pixels of the image encoded in `bytes`, or nothing
/// when the bytes do not decode.
pub open spec fn decoded_image(bytes: Seq<u8>) -> Option<(u32, u32, Seq<u8>)> {
    match decoded_rgba(bytes) {
        Some(t) => Some((t.0, t.1, t.2.take(4 * t.0 * t.1))),
        None => None,
    }
}

/// Decodes an encoded image (format guessed from the bytes) into RGBA pixels.
pub fn decode_rgba(bytes: &[u8]) -> (r: Option<RgbaPixels>)
    ensures
        match decoded_image(bytes@) {
            Some(t) => match r {
                Some(p) => p.width == t.0 && p.height == t.1 && p.data@ == t.2 && p.wf(),
                None => false,
            },
            None => r is None,
        },
{
    match decode_rgba_raw(bytes) {
        None => None,
        Some(mut p) => {
            let ghost raw = p.data@;
            let n = p.data.len();
            let w = p.width as usize;
            let h = p.height as usize;
            assert(w * h <= n / 4) by (nonlinear_arith)
                requires
                    n >= 4 * w * h,
            ;
            let len: usize = 4 * (w * h);
            assert(len == 4 * p.width * p.height) by (nonlinear_arith)
                requires
                    len == 4 * (w * h),
                    w == p.width,
                    h == p.height,
            ;
            p.data.truncate(len);
            assert(p.data@ =~= raw.take(4 * p.width * p.height));
            Some(p)
        },
    }
}

/// Relies on `image::imageops::overlay`: blends `top` onto `bottom` in place;
/// `bottom` keeps its size.
#[verifier::external_body]
fn overlay_rgba(bottom: &mut RgbaPixels, top: &RgbaPixels, x: i64, y: i64)
    requires
        old(bottom).wf(),
        top.wf(),
    ensures
        final(bottom).width == old(bottom).width,
        final(bottom).height == old(bottom).height,
        final(bottom).data@ == overlaid(
            old(bottom).data@,
            old(bottom).width,
            old(bottom).height,
            top.data@,
            top.width,
            top.height,
            x,
            y,
        ),
        final(bottom).wf(),
{
    let data = std::mem::take(&mut bottom.data);
    let mut canvas = image::RgbaImage::from_raw(bottom.width, bottom.height, data).expect(
        "buffer holds width * height pixels",
    );
    let layer = image::ImageBuffer::<image::Rgba<u8>, &[u8]>::from_raw(
        top.width,
        top.height,
        &top.data[..],
    ).expect("buffer holds width * height pixels");
    image::imageops::overlay(&mut canvas, &layer, x, y);
    bottom.data = canvas.into_raw();
}

/// Relies on `image::imageops::resize`: resamples to exactly the size asked
/// for; with the kernels offered here (piecewise polynomials, plain IEEE
/// arithmetic) the result depends on the pixels, both sizes and the kernel
/// alone.
#[verifier::external_body]
fn resize_rgb(px: &RgbPixels, new_width: u32, new_height: u32, filter: ResampleFilter) -> (r:
    RgbPixels)
    requires
        px.wf(),
        4 * px.width * new_height <= usize::MAX,
        4 * new_width * new_height <= usize::MAX,
    ensures
        r.width == new_width,
        r.height == new_height,
        r.wf(),
        r.data@ == resized_rgb(px.data@, px.width, px.height, new_width, new_height, filter),
{
    let img = image::ImageBuffer::<image::Rgb<u8>, &[u8]>::from_raw(
        px.width,
        px.height,
        &px.data[..],
    ).expect("buffer holds width * height pixels");
    let kernel = match filter {
        ResampleFilter::CatmullRom => image::imageops::FilterType::CatmullRom,
        ResampleFilter::Triangle => image::imageops::FilterType::Triangle,
    };
    let out = image::imageops::resize(&img, new_width, new_height, kernel);
    RgbPixels { width: new_width, height: new_height, data: out.into_raw() }
}

/// An opaque white RGBA canvas of `side` x `side` pixels.
pub open spec fn white_canvas(side: u32) -> Seq<u8> {
    Seq::new((4 * side * side) as nat, |i: int| 255u8)
}

/// The image centered on a white square canvas whose side is its longer
/// dimension.
pub open spec fn padded_canvas(width: u32, height: u32, data: Seq<u8>) -> Seq<u8> {
    let side = max_u32(width, height);
    overlaid(
        white_canvas(side),
        side,
        side,
        data,
        width,
        height,
        ((side - width) / 2) as i64,
        ((side - height) / 2) as i64,
    )
}

/// RGB bytes of RGBA pixels: the alpha byte of each pixel dropped.
pub open spec fn rgb_of_rgba(rgba: Seq<u8>) -> Seq<u8> {
    Seq::new((rgba.len() / 4 * 3) as nat, |i: int| rgba[(i / 3) * 4 + i % 3])
}

/// The channels of each RGB pixel in reverse order: blue, green, red.
pub open spec fn bgr_of_rgb(rgb: Seq<u8>) -> Seq<u8> {
    Seq::new(rgb.len(), |i: int| rgb[(i / 3) * 3 + (2 - i % 3)])
}

/// The model input: padded to a white square, resized to `target` x
/// `target` with the bicubic kernel, channels in blue-green-red order, laid
/// out height, width, channel.
pub open spec fn preprocessed(width: u32, height: u32, data: Seq<u8>, target: u32) -> Seq<u8> {
    let side = max_u32(width, height);
    bgr_of_rgb(
        resized_rgb(
            rgb_of_rgba(padded_canvas(width, height, data)),
            side,
            side,
            target,
            target,
            ResampleFilter::CatmullRom,
        ),
    )
}

proof fn lemma_pixel_index(q: int, c: int, n: int)
    requires
        0 <= q,
        0 <= c < n,
        n > 0,
    ensures
        (n * q + c) / n == q,
        (n * q + c) % n == c,
{
    vstd::arithmetic::mul::lemma_mul_is_commutative(n, q);
    vstd::arithmetic::div_mod::lemma_fundamental_div_mod_converse(n * q + c, n, q, c);
}

/// Drops the alpha byte of every pixel.
pub fn rgb_from_rgba(px: &RgbaPixels) -> (r: RgbPixels)
    requires
        px.wf(),
    ensures
        r.width == px.width,
        r.height == px.height,
        r.wf(),
        r.data@ == rgb_of_rgba(px.data@),
{
    let len = px.data.len();
    let npix = len / 4;
    assert(npix == px.width * px.height && 4 * npix == len) by (nonlinear_arith)
        requires
            len == 4 * px.width * px.height,
            npix == len / 4,
    ;
    let mut out: Vec<u8> = Vec::new();
    let mut q: usize = 0;
    while q < npix
        invariant
            px.wf(),
            npix == px.width * px.height,
            4 * npix == px.data@.len(),
            len == px.data@.len(),
            0 <= q <= npix,
            out@.len() == 3 * q,
            forall|j: int| 0 <= j < out@.len() ==> #[trigger] out@[j] == px.data@[(j / 3) * 4 + j % 3],
        decreases npix - q,
    {
        let base = 4 * q;
        out.push(px.data[base]);
        out.push(px.data[base + 1]);
        out.push(px.data[base + 2]);
        proof {
            lemma_pixel_index(q as int, 0, 3);
            lemma_pixel_index(q as int, 1, 3);
            lemma_pixel_index(q as int, 2, 3);
            assert forall|j: int| 0 <= j < out@.len() implies #[trigger] out@[j] == px.data@[(j / 3)
                * 4 + j % 3] by {
                if j >= 3 * q {
                    assert(j == 3 * q || j == 3 * q + 1 || j == 3 * q + 2);
                }
            }
        }
        q = q + 1;
    }
    assert(px.data@.len() / 4 * 3 == 3 * npix);
    assert(3 * npix == 3 * px.width * px.height) by (nonlinear_arith)
        requires
            npix == px.width * px.height,
    ;
    assert(out@ =~= rgb_of_rgba(px.data@));
    RgbPixels { width: px.width, height: px.height, data: out }
}

/// Reorders the channels of every pixel to blue, green, red.
pub fn bgr_from_rgb(px: &RgbPixels) -> (r: Vec<u8>)
    requires
        px.wf(),
    ensures
        r@ == bgr_of_rgb(px.data@),
{
    let len = px.data.len();
    let npix = len / 3;
    assert(npix == px.width * px.height && 3 * npix == len) by (nonlinear_arith)
        requires
            len == 3 * px.width * px.height,
            npix == len / 3,
    ;
    let mut out: Vec<u8> = Vec::new();
    let mut q: usize = 0;
    while q < npix
        invariant
            3 * npix == px.data@.len(),
            len == px.data@.len(),
            0 <= q <= npix,
            out@.len() == 3 * q,
            forall|j: int| 0 <= j < out@.len() ==> #[trigger] out@[j] == px.data@[(j / 3) * 3 + (2 - j % 3)],
        decreases npix - q,
    {
        let base = 3 * q;
        out.push(px.data[base + 2]);
        out.push(px.data[base + 1]);
        out.push(px.data[base]);
        proof {
            lemma_pixel_index(q as int, 0, 3);
            lemma_pixel_index(q as int, 1, 3);
            lemma_pixel_index(q as int, 2, 3);
            assert forall|j: int| 0 <= j < out@.len() implies #[trigger] out@[j] == px.data@[(j / 3)
                * 3 + (2 - j % 3)] by {
                if j >= 3 * q {
                    assert(j == 3 * q || j == 3 * q + 1 || j == 3 * q + 2);
                }
            }
        }
        q = q + 1;
    }
    assert(out@ =~= bgr_of_rgb(px.data@));
    out
}

} // verus!

verus! {

/// The sizes the preprocessing buffers need fit in memory.
pub open spec fn fits_preprocessing(width: u32, height: u32, target: u32) -> bool {
    let side = max_u32(width, height);
    &&& 4 * side * side <= usize::MAX
    &&& 4 * side * target <= usize::MAX
    &&& 4 * target * target <= usize::MAX
}

fn white_pixels(side: u32) -> (r: Vec<u8>)
    requires
        4 * side * side <= usize::MAX,
    ensures
        r@ == white_canvas(side),
{
    let s = side as usize;
    assert(4 * s <= usize::MAX && 4 * s * s <= usize::MAX) by (nonlinear_arith)
        requires
            4 * s * s <= usize::MAX,
            s <= u32::MAX,
            usize::MAX >= u32::MAX,
    ;
    let n: usize = 4 * s * s;
    let mut out: Vec<u8> = Vec::new();
    let mut i: usize = 0;
    while i < n
        invariant
            0 <= i <= n,
            out@.len() == i,
            forall|k: int| 0 <= k < i ==> out@[k] == 255u8,
        decreases n - i,
    {
        out.push(255u8);
        i = i + 1;
    }
    assert(out@ =~= white_canvas(side));
    out
}

/// Turns an RGBA image into the model's input: centered on a white square
/// canvas, resized to `target` x `target` with the bicubic kernel, channels
/// in blue-green-red order, laid out height, width, channel (one byte per
/// channel; the engine's input is each byte divided by 255).
pub fn preprocess_image(img: &RgbaPixels, target: u32) -> (r: Vec<u8>)
    requires
        img.wf(),
        fits_preprocessing(img.width, img.height, target),
    ensures
        r@ == preprocessed(img.width, img.height, img.data@, target),
        r@.len() == 3 * target * target,
{
    let g = padding_geometry(img.width, img.height);
    let side = g.side;
    let mut canvas = RgbaPixels { width: side, height: side, data: white_pixels(side) };
    overlay_rgba(&mut canvas, img, g.x_offset as i64, g.y_offset as i64);
    let rgb = rgb_from_rgba(&canvas);
    let resized = resize_rgb(&rgb, target, target, ResampleFilter::CatmullRom);
    let out = bgr_from_rgb(&resized);
    assert(out@.len() == 3 * target * target);
    out
}

/// What preprocessing makes of encoded image bytes: the model input, or why
/// there is none.
pub open spec fn preprocessed_bytes(bytes: Seq<u8>, target: u32) -> Result<Seq<u8>, ModelError> {
    match decoded_image(bytes) {
        None => Err(ModelError::ImageDecodeFailed),
        Some(t) => if fits_preprocessing(t.0, t.1, target) {
            Ok(preprocessed(t.0, t.1, t.2, target))
        } else {
            Err(ModelError::ImageTooLarge)
        },
    }
}

/// Decodes encoded image bytes and preprocesses the image.
pub fn preprocess_bytes(bytes: &[u8], target: u32) -> (r: Result<Vec<u8>, ModelError>)
    ensures
        match preprocessed_bytes(bytes@, target) {
            Ok(t) => r is Ok && r->Ok_0@ == t,
            Err(e) => r == Err::<Vec<u8>, ModelError>(e),
        },
{
    match decode_rgba(bytes) {
        None => Err(ModelError::ImageDecodeFailed),
        Some(img) => {
            let side = if img.width >= img.height {
                img.width
            } else {
                img.height
            };
            let s = side as u64;
            let t = target as u64;
            let limit = usize::MAX as u64;
            assert(s * s <= u64::MAX && s * t <= u64::MAX && t * t <= u64::MAX) by (nonlinear_arith)
                requires
                    s <= u32::MAX,
                    t <= u32::MAX,
            ;
            let fits = s * s <= limit / 4 && s * t <= limit / 4 && t * t <= limit / 4;
            assert(fits == fits_preprocessing(img.width, img.height, target)) by (nonlinear_arith)
                requires
                    s == max_u32(img.width, img.height),
                    t == target,
                    limit == usize::MAX,
                    fits == (s * s <= limit / 4 && s * t <= limit / 4 && t * t <= limit / 4),
            ;
            if fits {
                Ok(preprocess_image(&img, target))
            } else {
                Err(ModelError::ImageTooLarge)
            }
        },
    }
}

/// Side length the model declares in an input shape (batch, height, width,
/// channels), when that shape is square with a positive side that fits in
/// `u32`; the fallback side otherwise.
pub open spec fn input_size_of(shape: Seq<i64>) -> u32 {
    if shape.len() >= 4 && 0 < shape[1] <= u32::MAX && shape[1] == shape[2] {
        shape[1] as u32
    } else {
        FALLBACK_MODEL_INPUT_SIZE
    }
}

/// Side length of the model's square input, read from its declared input
/// shape.
pub fn model_input_size(shape: &Vec<i64>) -> (r: u32)
    ensures
        r == input_size_of(shape@),
{
    if shape.len() >= 4 {
        let h = shape[1];
        let w = shape[2];
        if 0 < h && h <= u32::MAX as i64 && h == w {
            return h as u32;
        }
    }
    FALLBACK_MODEL_INPUT_SIZE
}

/// Preprocessing is a function of its inputs: the same image and target
/// side always give the same model input.
pub proof fn lemma_preprocess_deterministic(
    width_a: u32,
    height_a: u32,
    data_a: Seq<u8>,
    width_b: u32,
    height_b: u32,
    data_b: Seq<u8>,
    target: u32,
)
    requires
        width_a == width_b,
        height_a == height_b,
        data_a == data_b,
    ensures
        preprocessed(width_a, height_a, data_a, target) == preprocessed(
            width_b,
            height_b,
            data_b,
            target,
        ),
{
}

} // verus!

verus! {

/// Sizes through the preprocessing steps, for introspection.
#[derive(Debug)]
pub struct DebugPreprocessResult {
    pub original_size: (u32, u32),
    pub padded_size: (u32, u32),
    pub final_size: (u32, u32),
    pub preprocessing_steps: Vec<String>,
    pub success: bool,
}

/// The sizes an image of `width` x `height` goes through on its way to a
/// `target` x `target` model input, with one line per step.
pub fn describe_preprocessing(width: u32, height: u32, target: u32) -> (r: DebugPreprocessResult)
    ensures
        r.original_size == (width, height),
        r.padded_size == (max_u32(width, height), max_u32(width, height)),
        r.final_size == (target, target),
        r.preprocessing_steps.len() == 4,
        r.preprocessing_steps[0]@ == "Loaded image: "@ + decimal_digits(width as nat) + "x"@
            + decimal_digits(height as nat) + " pixels"@,
        r.preprocessing_steps[1]@ == "Padded to square: "@ + decimal_digits(
            max_u32(width, height) as nat,
        ) + "x"@ + decimal_digits(max_u32(width, height) as nat) + " pixels (white background)"@,
        r.preprocessing_steps[2]@ == "Resized to model input: "@ + decimal_digits(target as nat)
            + "x"@ + decimal_digits(target as nat)
            + " pixels (bicubic), channels reordered to blue, green, red"@,
        r.preprocessing_steps[3]@ == "Normalized pixel values to [0.0, 1.0]"@,
        r.success,
{
    let g = padding_geometry(width, height);
    let mut steps: Vec<String> = Vec::new();
    let mut loaded = text("Loaded image: ");
    push_decimal(&mut loaded, width as usize);
    push_text(&mut loaded, "x");
    push_decimal(&mut loaded, height as usize);
    push_text(&mut loaded, " pixels");
    steps.push(loaded);
    let mut padded = text("Padded to square: ");
    push_decimal(&mut padded, g.side as usize);
    push_text(&mut padded, "x");
    push_decimal(&mut padded, g.side as usize);
    push_text(&mut padded, " pixels (white background)");
    steps.push(padded);
    let mut resized = text("Resized to model input: ");
    push_decimal(&mut resized, target as usize);
    push_text(&mut resized, "x");
    push_decimal(&mut resized, target as usize);
    push_text(&mut resized, " pixels (bicubic), channels reordered to blue, green, red");
    steps.push(resized);
    steps.push(text("Normalized pixel values to [0.0, 1.0]"));
    DebugPreprocessResult {
        original_size: (width, height),
        padded_size: (g.side, g.side),
        final_size: (target, target),
        preprocessing_steps: steps,
        success: true,
    }
}

} // verus!
