//! Desktop screenshots for the assistant: which monitor, at what size, and
//! how the picture is packed (PNG in Base64).

use base64::Engine;
use image::ImageEncoder;
use vstd::prelude::*;

verus! {

/// Screenshots wider than this many pixels are scaled down to it.
pub const MAX_WIDTH: u32 = 1600;

/// `image::ImageError`, carried from the encoder to its message.
#[verifier::external_type_specification]
#[verifier::external_body]
pub struct ExImageError(image::ImageError);

/// The monitor to capture: the first primary one, else the first one.
pub open spec fn chosen_monitor(primary: Seq<bool>) -> Option<int> {
    if exists|i: int| 0 <= i < primary.len() && primary[i] {
        Some(choose|i: int| 0 <= i < primary.len() && primary[i] && forall|j: int| 0 <= j < i ==> !primary[j])
    } else if primary.len() > 0 {
        Some(0)
    } else {
        None
    }
}

/// The message when there is no monitor.
pub open spec fn no_monitor_message() -> Seq<char> {
    "kein Monitor gefunden"@
}

/// Picks the monitor to capture from whether each monitor is the primary
/// one (a monitor that cannot say counts as not primary).
pub fn select_monitor(primary: &Vec<bool>) -> (res: Result<usize, String>)
    ensures
        match res {
            Ok(i) => chosen_monitor(primary@) == Some(i as int),
            Err(e) => chosen_monitor(primary@) is None && e@ == no_monitor_message(),
        },
{
    let mut i: usize = 0;
    while i < primary.len()
        invariant
            i <= primary@.len(),
            forall|j: int| 0 <= j < i ==> !primary@[j],
        decreases primary@.len() - i,
    {
        if primary[i] {
            proof {
                let k = choose|k: int|
                    0 <= k < primary@.len() && primary@[k] && forall|j: int|
                        0 <= j < k ==> !primary@[j];
                assert(0 <= i < primary@.len() && primary@[i as int] && forall|j: int|
                    0 <= j < i ==> !primary@[j]);
                if k < i {
                    assert(!primary@[k]);
                } else if k > i {
                    assert(!primary@[i as int]);
                }
            }
            return Ok(i);
        }
        i = i + 1;
    }
    if primary.len() > 0 {
        Ok(0)
    } else {
        Err(String::from_str("kein Monitor gefunden"))
    }
}

/// The size a screenshot is scaled to: at most [`MAX_WIDTH`] wide, the
/// height scaled in proportion and rounded down.
pub open spec fn scaled_size(width: nat, height: nat) -> (nat, nat) {
    if width > 1600 {
        (1600, height * 1600 / width)
    } else {
        (width, height)
    }
}

/// The height of a picture `width` x `height` scaled to [`MAX_WIDTH`]
/// pixels wide, rounded down. (Computing it in double precision and
/// truncating gives the same value for all 32-bit sizes: the quotient is
/// exact to far better than 1/width.)
pub fn scaled_height(width: u32, height: u32) -> (res: u32)
    requires
        width > 1600,
    ensures
        res == (height as nat) * 1600 / (width as nat),
        res <= height,
{
    let wide: u64 = (height as u64) * 1600;
    let q: u64 = wide / (width as u64);
    assert(q <= height) by (nonlinear_arith)
        requires
            wide == height * 1600,
            q == wide / (width as u64),
            width > 1600,
    ;
    q as u32
}

/// A scaled screenshot is at most [`MAX_WIDTH`] wide and no higher than the
/// original; one that fits is left as it is.
pub proof fn law_scaled_size_within_limit(width: nat, height: nat)
    ensures
        scaled_size(width, height).0 <= 1600,
        scaled_size(width, height).1 <= height,
        width <= 1600 ==> scaled_size(width, height) == (width, height),
        width > 1600 ==> scaled_size(width, height).1 * width <= height * 1600,
{
    if width > 1600 {
        assert(height * 1600 / width <= height) by (nonlinear_arith)
            requires
                width > 1600,
        ;
        assert((height * 1600 / width) * width <= height * 1600) by (nonlinear_arith)
            requires
                width > 1600,
        ;
    }
}

/// A picture wider than [`MAX_WIDTH`] is scaled to exactly that width, its
/// height in proportion rounded down (the aspect ratio is kept up to one
/// pixel of height), and the pixels encoded are the original ones resized
/// to that very size.
pub proof fn law_wide_picture_scaled_to_max_width(rgba: Seq<u8>, width: nat, height: nat)
    requires
        width > 1600,
    ensures
        scaled_size(width, height).0 == 1600,
        scaled_size(width, height).1 * width <= height * 1600,
        height * 1600 < (scaled_size(width, height).1 + 1) * width,
        prepared_pixels(rgba, width, height) == spec_resize_rgba8(
            rgba,
            width,
            height,
            scaled_size(width, height).0,
            scaled_size(width, height).1,
        ),
{
    let h = height * 1600 / width;
    assert(h * width <= height * 1600 && height * 1600 < (h + 1) * width) by (nonlinear_arith)
        requires
            width > 1600,
            h == height * 1600 / width,
    ;
}

/// The Base64 digit for a value below 64 (standard alphabet).
pub open spec fn base64_digit(v: nat) -> char {
    if v < 26 {
        (65 + v) as char
    } else if v < 52 {
        (97 + v - 26) as char
    } else if v < 62 {
        (48 + v - 52) as char
    } else if v == 62 {
        '+'
    } else {
        '/'
    }
}

/// Standard Base64 (RFC 4648, section 4) with `=` padding: each group of
/// three bytes becomes four digits of six bits each, most significant
/// first; a final group of one or two bytes is padded.
pub open spec fn base64_standard(b: Seq<u8>) -> Seq<char>
    decreases b.len(),
{
    if b.len() == 0 {
        Seq::empty()
    } else if b.len() == 1 {
        seq![base64_digit(b[0] as nat / 4), base64_digit((b[0] as nat % 4) * 16), '=', '=']
    } else if b.len() == 2 {
        seq![
            base64_digit(b[0] as nat / 4),
            base64_digit((b[0] as nat % 4) * 16 + b[1] as nat / 16),
            base64_digit((b[1] as nat % 16) * 4),
            '=',
        ]
    } else {
        seq![
            base64_digit(b[0] as nat / 4),
            base64_digit((b[0] as nat % 4) * 16 + b[1] as nat / 16),
            base64_digit((b[1] as nat % 16) * 4 + b[2] as nat / 64),
            base64_digit(b[2] as nat % 64),
        ] + base64_standard(b.subrange(3, b.len() as int))
    }
}

/// Calls `base64::engine::general_purpose::STANDARD.encode`.
///
/// Trusted: the text is the standard Base64 encoding with padding. The
/// engine panics when the length of the text overflows `usize`, which the
/// precondition rules out.
#[verifier::external_body]
fn base64_encode(bytes: &[u8]) -> (res: String)
    requires
        (bytes@.len() + 2) / 3 * 4 <= usize::MAX,
    ensures
        res@ == base64_standard(bytes@),
{
    base64::engine::general_purpose::STANDARD.encode(bytes)
}

/// What `image::codecs::png::PngEncoder::write_image` writes for an RGBA8
/// picture (`None` when it reports an error).
pub uninterp spec fn spec_png_rgba8(rgba: Seq<u8>, width: nat, height: nat) -> Option<Seq<u8>>;

/// Calls `PngEncoder::write_image` for an RGBA8 picture into a new buffer.
///
/// Trusted: success and the bytes written are the named outcome of the
/// encoder on these pixels and this size. The encoder panics unless the
/// buffer holds exactly four bytes per pixel, which the precondition asks.
#[verifier::external_body]
fn encode_png(rgba: &[u8], width: u32, height: u32) -> (res: Result<Vec<u8>, image::ImageError>)
    requires
        rgba@.len() == width * height * 4,
    ensures
        res is Ok <==> spec_png_rgba8(rgba@, width as nat, height as nat) is Some,
        res matches Ok(png) ==> spec_png_rgba8(rgba@, width as nat, height as nat) == Some(png@),
{
    let mut png: Vec<u8> = Vec::new();
    match image::codecs::png::PngEncoder::new(&mut png).write_image(
        rgba,
        width,
        height,
        image::ExtendedColorType::Rgba8,
    ) {
        Ok(()) => Ok(png),
        Err(e) => Err(e),
    }
}

/// The pixels `image::imageops::resize` computes with the triangle filter
/// when scaling an RGBA8 picture to a new size.
pub uninterp spec fn spec_resize_rgba8(
    rgba: Seq<u8>,
    width: nat,
    height: nat,
    new_width: nat,
    new_height: nat,
) -> Seq<u8>;

/// Calls `image::imageops::resize` with `FilterType::Triangle` on the RGBA8
/// picture held in `rgba` (wrapped by `ImageBuffer::from_raw`, unwrapped by
/// `into_raw`).
///
/// Trusted: the pixels are the named outcome and there are four bytes per
/// pixel of the new size. `from_raw` accepts the buffer, as it holds exactly
/// four bytes per pixel. The resize allocates an intermediate image of
/// `width` x `new_height` pixels with four `f32` channels and the output of
/// `new_width` x `new_height` pixels with four `u8` channels; with the new
/// size no larger than the old, the channel count of each is at most the
/// input's length, so the element-count computation in `ImageBuffer::new`
/// does not overflow (the intermediate takes four times as many bytes as
/// channels, which only the allocator limits).
#[verifier::external_body]
fn resize_rgba8(rgba: Vec<u8>, width: u32, height: u32, new_width: u32, new_height: u32) -> (res:
    Vec<u8>)
    requires
        rgba@.len() == width * height * 4,
        new_width <= width,
        new_height <= height,
    ensures
        res@ == spec_resize_rgba8(
            rgba@,
            width as nat,
            height as nat,
            new_width as nat,
            new_height as nat,
        ),
        res@.len() == new_width * new_height * 4,
{
    match image::RgbaImage::from_raw(width, height, rgba) {
        Some(img) => image::imageops::resize(
            &img,
            new_width,
            new_height,
            image::imageops::FilterType::Triangle,
        ).into_raw(),
        None => Vec::new(),
    }
}

/// The pixels that are encoded: scaled down when the picture is wider than
/// [`MAX_WIDTH`].
pub open spec fn prepared_pixels(rgba: Seq<u8>, width: nat, height: nat) -> Seq<u8> {
    if width > 1600 {
        spec_resize_rgba8(rgba, width, height, 1600, height * 1600 / width)
    } else {
        rgba
    }
}

/// The PNG of a captured picture, if the encoder produces one.
pub open spec fn screenshot_png(rgba: Seq<u8>, width: nat, height: nat) -> Option<Seq<u8>> {
    spec_png_rgba8(
        prepared_pixels(rgba, width, height),
        scaled_size(width, height).0,
        scaled_size(width, height).1,
    )
}

/// Whether Base64 text for `len` bytes has a length that fits in memory.
pub open spec fn base64_fits(len: nat) -> bool {
    (len + 2) / 3 * 4 <= usize::MAX
}

/// The message when the PNG is too large to encode as text.
pub open spec fn too_large_message() -> Seq<char> {
    "Screenshot zu gross"@
}

/// Packs a captured RGBA8 picture for the assistant: scaled down to at most
/// [`MAX_WIDTH`] pixels wide, encoded as PNG, then as Base64. An encoder
/// error gives its message.
pub fn capture_primary(width: u32, height: u32, rgba: Vec<u8>) -> (res: Result<String, String>)
    requires
        rgba@.len() == width * height * 4,
    ensures
        screenshot_png(rgba@, width as nat, height as nat) is None ==> res is Err,
        screenshot_png(rgba@, width as nat, height as nat) matches Some(png) ==> match res {
            Ok(t) => base64_fits(png.len()) && t@ == base64_standard(png),
            Err(e) => !base64_fits(png.len()) && e@ == too_large_message(),
        },
{
    let ghost original = rgba@;
    let mut pixels = rgba;
    let mut w: u32 = width;
    let mut h: u32 = height;
    if width > MAX_WIDTH {
        let nh: u32 = scaled_height(width, height);
        pixels = resize_rgba8(pixels, width, height, MAX_WIDTH, nh);
        w = MAX_WIDTH;
        h = nh;
    }
    assert(pixels@ == prepared_pixels(original, width as nat, height as nat));
    match encode_png(pixels.as_slice(), w, h) {
        Err(e) => Err(e.to_string()),
        Ok(png) => screenshot_text(&png),
    }
}

/// The Base64 text of an encoded screenshot, or the too-large message when
/// the text would not fit in memory.
pub fn screenshot_text(png: &Vec<u8>) -> (res: Result<String, String>)
    ensures
        match res {
            Ok(t) => base64_fits(png@.len()) && t@ == base64_standard(png@),
            Err(e) => !base64_fits(png@.len()) && e@ == too_large_message(),
        },
{
    let n: usize = png.len();
    let groups: usize = n / 3 + if n % 3 > 0 {
        1
    } else {
        0
    };
    assert(groups == (n + 2) / 3);
    if groups <= usize::MAX / 4 {
        assert(groups * 4 <= usize::MAX);
        Ok(base64_encode(png.as_slice()))
    } else {
        assert(groups * 4 > usize::MAX);
        Err(String::from_str("Screenshot zu gross"))
    }
}

} // verus!
