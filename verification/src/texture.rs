//! Texture preparation: the fallback color, pixel-format expansion to RGBA8,
//! mip-chain sizes, and image decoding and thumbnail scaling (through the
//! `image` crate).
use vstd::prelude::*;
use vstd::arithmetic::power2::{pow2, lemma_pow2_unfold};

use crate::text::{chars_eq, chars_of};

verus! {

/// The fallback texel: white when `white` is set, otherwise magenta
/// (which makes a missing texture stand out).
pub open spec fn fallback_texel(white: bool) -> Seq<u8> {
    if white {
        seq![255u8, 255u8, 255u8, 255u8]
    } else {
        seq![255u8, 0u8, 255u8, 255u8]
    }
}

/// The 1x1 RGBA color used when a texture is missing or cannot be decoded.
pub fn fallback_rgba(white: bool) -> (r: [u8; 4])
    ensures
        r@ == fallback_texel(white),
{
    if white {
        let r = [255u8, 255, 255, 255];
        assert(r@ =~= fallback_texel(white));
        r
    } else {
        let r = [255u8, 0, 255, 255];
        assert(r@ =~= fallback_texel(white));
        r
    }
}

/// Number of bits needed to write `n`.
pub open spec fn bit_length(n: nat) -> nat
    decreases n,
{
    if n == 0 {
        0
    } else {
        1 + bit_length(n / 2)
    }
}

/// Mip levels of a texture whose larger side is `max_side`: floor(log2(max_side)) + 1,
/// and 1 for a side of at most 1.
pub open spec fn mip_levels(max_side: nat) -> nat {
    if max_side <= 1 {
        1
    } else {
        bit_length(max_side)
    }
}

/// Number of mip levels for a `width` x `height` texture.
pub fn mip_level_count(width: u32, height: u32) -> (r: u32)
    ensures
        r == mip_levels(if width >= height { width as nat } else { height as nat }),
{
    let max_side = if width >= height {
        width
    } else {
        height
    };
    if max_side <= 1 {
        return 1;
    }
    let mut n = max_side;
    let mut k: u32 = 0;
    while n > 0
        invariant
            bit_length(max_side as nat) == k + bit_length(n as nat),
            k + n <= max_side,
        decreases n,
    {
        n = n / 2;
        k = k + 1;
    }
    k
}

/// The side of mip level `level` for a base side `size`: halved per level, at least 1.
pub open spec fn mip_side(size: u32, level: u32) -> u32 {
    if size >> level == 0 {
        1
    } else {
        size >> level
    }
}

/// Sizes of mip levels 1.. of a `width` x `height` texture (level 0 is the texture).
pub fn mip_chain_sizes(width: u32, height: u32) -> (r: Vec<(u32, u32)>)
    ensures
        r@.len() + 1 == mip_levels(if width >= height { width as nat } else { height as nat }),
        forall|i: int|
            0 <= i < r@.len() ==> #[trigger] r@[i] == (mip_side(width, (i + 1) as u32), mip_side(height, (i + 1) as u32)),
{
    let count = mip_level_count(width, height);
    proof {
        lemma_bit_length_bound(if width >= height { width as nat } else { height as nat });
    }
    let mut r: Vec<(u32, u32)> = Vec::new();
    let mut level: u32 = 1;
    while level < count
        invariant
            1 <= level <= count || count == 0,
            count <= 32,
            count == mip_levels(if width >= height { width as nat } else { height as nat }),
            r@.len() + 1 == level,
            forall|i: int|
                0 <= i < r@.len() ==> #[trigger] r@[i] == (mip_side(width, (i + 1) as u32), mip_side(height, (i + 1) as u32)),
        decreases count - level,
    {
        let w = width >> level;
        let h = height >> level;
        let mw = if w == 0 {
            1
        } else {
            w
        };
        let mh = if h == 0 {
            1
        } else {
            h
        };
        r.push((mw, mh));
        level = level + 1;
    }
    r
}

/// A 32-bit value needs at most 32 bits, and at least one level.
proof fn lemma_bit_length_bound(n: nat)
    requires
        n <= u32::MAX,
    ensures
        mip_levels(n) <= 32,
        mip_levels(n) >= 1,
{
    lemma_bit_length_pow2(n);
    if n > 1 {
        if bit_length(n) > 33 {
            vstd::arithmetic::power2::lemma_pow2_strictly_increases(32, (bit_length(n) - 1) as nat);
            vstd::arithmetic::power2::lemma2_to64();
        } else if bit_length(n) == 33 {
            vstd::arithmetic::power2::lemma2_to64();
        }
    }
}

/// `bit_length(n)` is floor(log2(n)) + 1: `2^(bit_length(n) - 1) <= n < 2^bit_length(n)`.
pub proof fn lemma_bit_length_pow2(n: nat)
    ensures
        n < pow2(bit_length(n)),
        n >= 1 ==> pow2((bit_length(n) - 1) as nat) <= n,
    decreases n,
{
    if n == 0 {
        vstd::arithmetic::power2::lemma2_to64();
    } else {
        lemma_bit_length_pow2(n / 2);
        lemma_pow2_unfold(bit_length(n));
        if n / 2 >= 1 {
            lemma_pow2_unfold((bit_length(n) - 1) as nat);
        } else {
            vstd::arithmetic::power2::lemma2_to64();
        }
    }
}

/// A mip chain has floor(log2(max side)) + 1 levels: the larger side lies in
/// `[2^(levels-1), 2^levels)` whenever it exceeds 1.
pub proof fn mip_levels_are_log2_plus_one(max_side: nat)
    requires
        max_side > 1,
    ensures
        pow2((mip_levels(max_side) - 1) as nat) <= max_side < pow2(mip_levels(max_side)),
{
    lemma_bit_length_pow2(max_side);
}

/// Pixel layouts of decoded glTF images.
#[derive(Debug, Clone, Copy, PartialEq, Eq, Structural)]
pub enum PixelFormat {
    R8,
    R8G8,
    R8G8B8,
    R8G8B8A8,
    R16,
    R16G16,
    R16G16B16,
    R16G16B16A16,
    R32G32B32Float,
    R32G32B32A32Float,
}

/// What to upload for an image.
pub enum UploadPixels {
    /// The pixels are RGBA8 already.
    AsIs,
    /// The pixels converted to RGBA8.
    Converted(Vec<u8>),
    /// Unsupported layout: the shared fallback texture is used.
    Fallback,
}

/// RGB8 pixels with an opaque alpha appended to each.
pub open spec fn rgb_to_rgba(p: Seq<u8>) -> Seq<u8> {
    Seq::new(p.len() / 3 * 4, |i: int| if i % 4 == 3 { 255u8 } else { p[(i / 4) * 3 + i % 4] })
}

/// Gray pixels spread to RGB with an opaque alpha.
pub open spec fn gray_to_rgba(p: Seq<u8>) -> Seq<u8> {
    Seq::new(p.len() * 4, |i: int| if i % 4 == 3 { 255u8 } else { p[i / 4] })
}

/// Red-green pixels with a zero blue and an opaque alpha.
pub open spec fn rg_to_rgba(p: Seq<u8>) -> Seq<u8> {
    Seq::new(
        p.len() / 2 * 4,
        |i: int|
            if i % 4 == 3 {
                255u8
            } else if i % 4 == 2 {
                0u8
            } else {
                p[(i / 4) * 2 + i % 4]
            },
    )
}

/// The RGBA8 pixels to upload for an image of the given layout: RGBA8 is used as
/// is, 8-bit gray / red-green / RGB are expanded, other layouts fall back.
pub fn rgba_for_upload(format: PixelFormat, pixels: &[u8]) -> (r: UploadPixels)
    requires
        format == PixelFormat::R8G8B8 ==> pixels@.len() % 3 == 0,
        format == PixelFormat::R8G8 ==> pixels@.len() % 2 == 0,
        format == PixelFormat::R8 ==> pixels@.len() * 4 <= usize::MAX,
    ensures
        match format {
            PixelFormat::R8G8B8A8 => r is AsIs,
            PixelFormat::R8G8B8 => r matches UploadPixels::Converted(v) && v@ == rgb_to_rgba(pixels@),
            PixelFormat::R8 => r matches UploadPixels::Converted(v) && v@ == gray_to_rgba(pixels@),
            PixelFormat::R8G8 => r matches UploadPixels::Converted(v) && v@ == rg_to_rgba(pixels@),
            _ => r is Fallback,
        },
{
    match format {
        PixelFormat::R8G8B8A8 => UploadPixels::AsIs,
        PixelFormat::R8G8B8 => UploadPixels::Converted(expand_rgb(pixels)),
        PixelFormat::R8 => UploadPixels::Converted(expand_gray(pixels)),
        PixelFormat::R8G8 => UploadPixels::Converted(expand_rg(pixels)),
        _ => UploadPixels::Fallback,
    }
}

fn expand_rgb(p: &[u8]) -> (v: Vec<u8>)
    requires
        p@.len() % 3 == 0,
    ensures
        v@ == rgb_to_rgba(p@),
{
    let n = p.len() / 3;
    let mut v: Vec<u8> = Vec::new();
    let mut k: usize = 0;
    while k < n
        invariant
            n == p@.len() / 3,
            3 * n <= p@.len(),
            p@.len() == p.len(),
            k <= n,
            v@.len() == 4 * k,
            forall|i: int| 0 <= i < 4 * k ==> #[trigger] v@[i] == rgb_to_rgba(p@)[i],
        decreases n - k,
    {
        v.push(p[3 * k]);
        v.push(p[3 * k + 1]);
        v.push(p[3 * k + 2]);
        v.push(255);
        k = k + 1;
    }
    assert(v@ =~= rgb_to_rgba(p@));
    v
}

fn expand_gray(p: &[u8]) -> (v: Vec<u8>)
    requires
        p@.len() * 4 <= usize::MAX,
    ensures
        v@ == gray_to_rgba(p@),
{
    let n = p.len();
    let mut v: Vec<u8> = Vec::new();
    let mut k: usize = 0;
    while k < n
        invariant
            n == p@.len(),
            k <= n,
            v@.len() == 4 * k,
            forall|i: int| 0 <= i < 4 * k ==> #[trigger] v@[i] == gray_to_rgba(p@)[i],
        decreases n - k,
    {
        let g = p[k];
        v.push(g);
        v.push(g);
        v.push(g);
        v.push(255);
        k = k + 1;
    }
    assert(v@ =~= gray_to_rgba(p@));
    v
}

fn expand_rg(p: &[u8]) -> (v: Vec<u8>)
    requires
        p@.len() % 2 == 0,
    ensures
        v@ == rg_to_rgba(p@),
{
    let n = p.len() / 2;
    let mut v: Vec<u8> = Vec::new();
    let mut k: usize = 0;
    while k < n
        invariant
            n == p@.len() / 2,
            2 * n <= p@.len(),
            p@.len() == p.len(),
            k <= n,
            v@.len() == 4 * k,
            forall|i: int| 0 <= i < 4 * k ==> #[trigger] v@[i] == rg_to_rgba(p@)[i],
        decreases n - k,
    {
        v.push(p[2 * k]);
        v.push(p[2 * k + 1]);
        v.push(0);
        v.push(255);
        k = k + 1;
    }
    assert(v@ =~= rg_to_rgba(p@));
    v
}

/// The image container formats this library decodes.
#[derive(Debug, Clone, Copy, PartialEq, Eq, Structural)]
pub enum ImageFormatHint {
    Tga,
    Bmp,
    Png,
    Jpeg,
    Dds,
}

/// The format a MIME type names (TGA has no magic number, so naming it matters).
pub open spec fn mime_format(mime: Seq<char>) -> Option<ImageFormatHint> {
    if mime == "image/tga"@ || mime == "image/x-tga"@ {
        Some(ImageFormatHint::Tga)
    } else if mime == "image/bmp"@ {
        Some(ImageFormatHint::Bmp)
    } else if mime == "image/png"@ {
        Some(ImageFormatHint::Png)
    } else if mime == "image/jpeg"@ {
        Some(ImageFormatHint::Jpeg)
    } else if mime == "image/vnd.ms-dds"@ || mime == "image/x-dds"@ || mime == "image/dds"@ {
        Some(ImageFormatHint::Dds)
    } else {
        None
    }
}

/// Whether the characters `cs` spell the literal `lit`.
fn is_literal(cs: &Vec<char>, lit: &str) -> (r: bool)
    ensures
        r == (cs@ == lit@),
{
    let l = chars_of(lit);
    chars_eq(cs, l.as_slice())
}

/// The image format named by an optional MIME hint.
pub fn format_from_mime(mime_hint: Option<&str>) -> (r: Option<ImageFormatHint>)
    ensures
        r == match mime_hint {
            Some(m) => mime_format(m@),
            None => None,
        },
{
    let m = match mime_hint {
        Some(m) => chars_of(m),
        None => {
            return None;
        },
    };
    if is_literal(&m, "image/tga") || is_literal(&m, "image/x-tga") {
        Some(ImageFormatHint::Tga)
    } else if is_literal(&m, "image/bmp") {
        Some(ImageFormatHint::Bmp)
    } else if is_literal(&m, "image/png") {
        Some(ImageFormatHint::Png)
    } else if is_literal(&m, "image/jpeg") {
        Some(ImageFormatHint::Jpeg)
    } else if is_literal(&m, "image/vnd.ms-dds") || is_literal(&m, "image/x-dds") || is_literal(
        &m,
        "image/dds",
    ) {
        Some(ImageFormatHint::Dds)
    } else {
        None
    }
}

/// Decoded RGBA8 pixels with their width and height.
pub struct RgbaImageData {
    pub pixels: Vec<u8>,
    pub width: u32,
    pub height: u32,
}

/// A failed decode, with the decoder's message.
#[derive(Debug, Clone, PartialEq, Eq)]
pub struct DecodeError {
    pub detail: String,
}

/// What a decode gives: pixels, width and height, or an error message.
pub type DecodeView = Result<(Seq<u8>, u32, u32), Seq<char>>;

/// The name (as `Debug` writes it) of the format `image::guess_format` recognises
/// from the leading bytes of `data` (its built-in signature table), or its error
/// message.
pub uninterp spec fn guessed_format(data: Seq<u8>) -> Result<Seq<char>, Seq<char>>;

/// What `image::load_from_memory_with_format` decodes `data` to as `format`,
/// converted to RGBA8.
pub uninterp spec fn decoded_as(data: Seq<u8>, format: ImageFormatHint) -> DecodeView;

/// The view of a decode result.
pub open spec fn decode_view(r: Result<RgbaImageData, DecodeError>) -> DecodeView {
    match r {
        Ok(img) => Ok((img.pixels@, img.width, img.height)),
        Err(e) => Err(e.detail@),
    }
}

/// The decoded format a format name (as the decoder's `Debug` writes it) names.
pub open spec fn format_named(name: Seq<char>) -> Option<ImageFormatHint> {
    if name == "Tga"@ {
        Some(ImageFormatHint::Tga)
    } else if name == "Bmp"@ {
        Some(ImageFormatHint::Bmp)
    } else if name == "Png"@ {
        Some(ImageFormatHint::Png)
    } else if name == "Jpeg"@ {
        Some(ImageFormatHint::Jpeg)
    } else if name == "Dds"@ {
        Some(ImageFormatHint::Dds)
    } else {
        None
    }
}

/// The format named by `name`.
fn format_of_name(name: &String) -> (r: Option<ImageFormatHint>)
    ensures
        r == format_named(name@),
{
    let cs = chars_of(name.as_str());
    if is_literal(&cs, "Tga") {
        Some(ImageFormatHint::Tga)
    } else if is_literal(&cs, "Bmp") {
        Some(ImageFormatHint::Bmp)
    } else if is_literal(&cs, "Png") {
        Some(ImageFormatHint::Png)
    } else if is_literal(&cs, "Jpeg") {
        Some(ImageFormatHint::Jpeg)
    } else if is_literal(&cs, "Dds") {
        Some(ImageFormatHint::Dds)
    } else {
        None
    }
}

/// What decoding `data` as the format guessed from its leading bytes gives; a
/// recognised format that this library does not decode is refused with its name.
pub open spec fn decoded_guessed(data: Seq<u8>) -> DecodeView {
    match guessed_format(data) {
        Ok(name) => match format_named(name) {
            Some(f) => decoded_as(data, f),
            None => Err(name),
        },
        Err(msg) => Err(msg),
    }
}

/// Guesses the format of `data` from its leading bytes (`image::guess_format`,
/// which reads only its built-in signature table), giving the format's name. The
/// result is named by `guessed_format`; nothing more is claimed.
#[verifier::external_body]
fn guess_format(data: &[u8]) -> (r: Result<String, DecodeError>)
    ensures
        match r {
            Ok(n) => guessed_format(data@) == Ok::<Seq<char>, Seq<char>>(n@),
            Err(e) => guessed_format(data@) == Err::<Seq<char>, Seq<char>>(e.detail@),
        },
{
    match image::guess_format(data) {
        Ok(f) => Ok(format!("{f:?}")),
        Err(e) => Err(DecodeError { detail: format!("{e}") }),
    }
}

/// Decodes `data` as the format guessed from its leading bytes.
pub(crate) fn load_guessed(data: &[u8]) -> (r: Result<RgbaImageData, DecodeError>)
    ensures
        decode_view(r) == decoded_guessed(data@),
        r matches Ok(img) ==> img.pixels@.len() == 4 * img.width * img.height,
{
    match guess_format(data) {
        Ok(name) => match format_of_name(&name) {
            Some(f) => load_as(data, f),
            None => Err(DecodeError { detail: name }),
        },
        Err(e) => Err(e),
    }
}

/// Decodes `data` as the given format
/// (`image::load_from_memory_with_format`, then `to_rgba8`).
/// The result is named by `decoded_as`; of it the contract claims only that the
/// RGBA8 conversion gives 4 bytes per pixel.
#[verifier::external_body]
fn load_as(data: &[u8], format: ImageFormatHint) -> (r: Result<RgbaImageData, DecodeError>)
    ensures
        decode_view(r) == decoded_as(data@, format),
        r matches Ok(img) ==> img.pixels@.len() == 4 * img.width * img.height,
{
    let fmt = match format {
        ImageFormatHint::Tga => image::ImageFormat::Tga,
        ImageFormatHint::Bmp => image::ImageFormat::Bmp,
        ImageFormatHint::Png => image::ImageFormat::Png,
        ImageFormatHint::Jpeg => image::ImageFormat::Jpeg,
        ImageFormatHint::Dds => image::ImageFormat::Dds,
    };
    match image::load_from_memory_with_format(data, fmt) {
        Ok(img) => {
            let img = img.to_rgba8();
            let (width, height) = (img.width(), img.height());
            Ok(RgbaImageData { pixels: img.into_raw(), width, height })
        },
        Err(e) => Err(DecodeError { detail: format!("{e}") }),
    }
}

/// Decoding of a non-PSD image: with a named format, decode as that format and fall
/// back to guessing on failure; without one, guess from the bytes.
pub open spec fn decode_spec(data: Seq<u8>, format: Option<ImageFormatHint>) -> DecodeView {
    match format {
        Some(f) => match decoded_as(data, f) {
            Ok(v) => Ok(v),
            Err(_) => decoded_guessed(data),
        },
        None => decoded_guessed(data),
    }
}

/// Decode image bytes to RGBA8. PSD data goes to `decode_psd`; otherwise the MIME
/// hint, when it names a format, is tried first and guessing from the bytes is the
/// fallback.
pub fn decode_image_to_rgba_with_hint<F: Fn(&[u8]) -> Result<RgbaImageData, DecodeError>>(
    data: &[u8],
    is_psd: bool,
    mime_hint: Option<&str>,
    decode_psd: F,
) -> (r: Result<RgbaImageData, DecodeError>)
    requires
        is_psd ==> decode_psd.requires((data,)),
    ensures
        is_psd ==> decode_psd.ensures((data,), r),
        !is_psd ==> decode_view(r) == decode_spec(
            data@,
            match mime_hint {
                Some(m) => mime_format(m@),
                None => None,
            },
        ),
        !is_psd && r is Ok ==> r->Ok_0.pixels@.len() == 4 * r->Ok_0.width * r->Ok_0.height,
{
    if is_psd {
        return decode_psd(data);
    }
    match format_from_mime(mime_hint) {
        Some(fmt) => match load_as(data, fmt) {
            Ok(img) => Ok(img),
            Err(_) => load_guessed(data),
        },
        None => load_guessed(data),
    }
}

/// Decode image bytes to RGBA8 (format guessed from the bytes; PSD data goes to `decode_psd`).
pub fn decode_image_to_rgba<F: Fn(&[u8]) -> Result<RgbaImageData, DecodeError>>(
    data: &[u8],
    is_psd: bool,
    decode_psd: F,
) -> (r: Result<RgbaImageData, DecodeError>)
    requires
        is_psd ==> decode_psd.requires((data,)),
    ensures
        is_psd ==> decode_psd.ensures((data,), r),
        !is_psd ==> decode_view(r) == decoded_guessed(data@),
        !is_psd && r is Ok ==> r->Ok_0.pixels@.len() == 4 * r->Ok_0.width * r->Ok_0.height,
{
    decode_image_to_rgba_with_hint(data, is_psd, None, decode_psd)
}

/// Why a thumbnail could not be made.
#[derive(Debug, Clone, PartialEq, Eq)]
pub enum ThumbnailError {
    /// The bytes did not decode.
    Decode(DecodeError),
    /// The decoded pixel buffer is shorter than `width * height * 4` bytes.
    PixelBufferTooShort,
    /// A scaled buffer (`4 * width * size` or `4 * size * size` bytes) would not fit in
    /// the address space.
    TooLarge,
}

/// What `image::imageops::resize` with `FilterType::Triangle` gives for the RGBA8
/// image of `width` x `height` held in `pixels`, scaled to `size` x `size`, as raw bytes.
pub uninterp spec fn triangle_resized(pixels: Seq<u8>, width: u32, height: u32, size: u32) -> Seq<u8>;

/// Whether `pixels` holds a whole `width` x `height` RGBA8 image.
pub open spec fn holds_rgba(pixels: Seq<u8>, width: u32, height: u32) -> bool {
    4 * width * height <= pixels.len()
}

/// Whether the buffers that scaling a `width`-wide image to `size` x `size` allocates fit
/// in the address space.
pub open spec fn scaling_fits(width: u32, size: u32) -> bool {
    4 * width * size <= usize::MAX && 4 * size * size <= usize::MAX
}

/// Scales an RGBA8 image to `size` x `size` with a triangle filter
/// (`image::RgbaImage::from_raw`, `image::imageops::resize` with `FilterType::Triangle`,
/// `into_raw`). The result is named by `triangle_resized`; of it the contract claims only
/// what `resize` plainly does: the output holds `size * size` pixels, an empty source gives
/// a zeroed buffer, and a source already of the wanted size is copied.
#[verifier::external_body]
fn resize_triangle(pixels: Vec<u8>, width: u32, height: u32, size: u32) -> (r: Vec<u8>)
    requires
        holds_rgba(pixels@, width, height),
        scaling_fits(width, size),
    ensures
        r@ == triangle_resized(pixels@, width, height, size),
        r@.len() == 4 * size * size,
        (width == 0 || height == 0) ==> r@ == Seq::new((4 * size * size) as nat, |i: int| 0u8),
        (0 < width && 0 < height && width == size && height == size) ==> r@ == pixels@.take(
            4 * size * size,
        ),
{
    match image::RgbaImage::from_raw(width, height, pixels) {
        Some(img) => image::imageops::resize(&img, size, size, image::imageops::FilterType::Triangle).into_raw(),
        None => Vec::new(),
    }
}

/// The thumbnail of a decoded image: `size` x `size` RGBA8 scaled with a triangle filter,
/// or `PixelBufferTooShort` when the pixels do not hold a whole `width` x `height` image.
pub fn thumbnail_from_rgba(img: RgbaImageData, thumb_size: u32) -> (r: Result<Vec<u8>, ThumbnailError>)
    requires
        scaling_fits(img.width, thumb_size),
    ensures
        holds_rgba(img.pixels@, img.width, img.height) ==> (r matches Ok(t) && t@ == triangle_resized(
            img.pixels@,
            img.width,
            img.height,
            thumb_size,
        )),
        !holds_rgba(img.pixels@, img.width, img.height) ==> r == Err::<Vec<u8>, ThumbnailError>(
            ThumbnailError::PixelBufferTooShort,
        ),
        r matches Ok(t) ==> t@.len() == 4 * thumb_size * thumb_size,
{
    let w = img.width as u64;
    let h = img.height as u64;
    assert(w * h <= u32::MAX * u32::MAX) by (nonlinear_arith)
        requires
            w <= u32::MAX,
            h <= u32::MAX,
    ;
    let area = w * h;
    assert(area * 4 == 4 * img.width * img.height) by (nonlinear_arith)
        requires
            area == w * h,
            w == img.width,
            h == img.height,
    ;
    let len = img.pixels.len();
    let fits = match area.checked_mul(4) {
        Some(n) => n <= len as u64,
        None => false,
    };
    if !fits {
        return Err(ThumbnailError::PixelBufferTooShort);
    }
    Ok(resize_triangle(img.pixels, img.width, img.height, thumb_size))
}

/// What making a `thumb_size` thumbnail of the decode result `decoded` gives: the decode
/// error, `TooLarge` when the scaled buffers would not fit in the address space,
/// `PixelBufferTooShort` when the pixels do not hold the whole image, or the scaled pixels.
pub open spec fn thumbnail_outcome(
    decoded: DecodeView,
    thumb_size: u32,
    r: Result<Vec<u8>, ThumbnailError>,
) -> bool {
    match decoded {
        Err(msg) => r matches Err(ThumbnailError::Decode(e)) && e.detail@ == msg,
        Ok((pixels, w, h)) => if !scaling_fits(w, thumb_size) {
            r == Err::<Vec<u8>, ThumbnailError>(ThumbnailError::TooLarge)
        } else if !holds_rgba(pixels, w, h) {
            r == Err::<Vec<u8>, ThumbnailError>(ThumbnailError::PixelBufferTooShort)
        } else {
            r matches Ok(t) && t@ == triangle_resized(pixels, w, h, thumb_size)
        },
    }
}

/// Decode image bytes (PSD data goes to `decode_psd`) and scale them to a
/// `thumb_size` x `thumb_size` RGBA8 thumbnail.
pub fn create_thumbnail_rgba<F: Fn(&[u8]) -> Result<RgbaImageData, DecodeError>>(
    data: &[u8],
    is_psd: bool,
    thumb_size: u32,
    decode_psd: F,
) -> (r: Result<Vec<u8>, ThumbnailError>)
    requires
        is_psd ==> decode_psd.requires((data,)),
    ensures
        !is_psd ==> thumbnail_outcome(decoded_guessed(data@), thumb_size, r),
        is_psd ==> exists|d: Result<RgbaImageData, DecodeError>|
            decode_psd.ensures((data,), d) && #[trigger] thumbnail_outcome(decode_view(d), thumb_size, r),
        r matches Ok(t) ==> t@.len() == 4 * thumb_size * thumb_size,
{
    let decoded = decode_image_to_rgba(data, is_psd, decode_psd);
    let ghost dv = decode_view(decoded);
    match decoded {
        Err(e) => {
            let r = Err(ThumbnailError::Decode(e));
            assert(thumbnail_outcome(dv, thumb_size, r));
            r
        },
        Ok(img) => {
            let w = img.width as u64;
            let ts = thumb_size as u64;
            assert(w * ts <= u32::MAX * u32::MAX && ts * ts <= u32::MAX * u32::MAX) by (nonlinear_arith)
                requires
                    w <= u32::MAX,
                    ts <= u32::MAX,
            ;
            assert((w * ts) * 4 == 4 * img.width * thumb_size && (ts * ts) * 4 == 4 * thumb_size
                * thumb_size) by (nonlinear_arith)
                requires
                    w == img.width,
                    ts == thumb_size,
            ;
            let fits = match (w * ts).checked_mul(4) {
                Some(a) => match (ts * ts).checked_mul(4) {
                    Some(b) => a <= usize::MAX as u64 && b <= usize::MAX as u64,
                    None => false,
                },
                None => false,
            };
            if !fits {
                let r = Err(ThumbnailError::TooLarge);
                assert(thumbnail_outcome(dv, thumb_size, r));
                return r;
            }
            let r = thumbnail_from_rgba(img, thumb_size);
            assert(thumbnail_outcome(dv, thumb_size, r));
            r
        },
    }
}

} // verus!
