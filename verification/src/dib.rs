//! Device-independent bitmaps, the picture format of the RDP clipboard.
//!
//! A picture leaves the Mac as PNG or TIFF and travels as a `CF_DIB` payload;
//! a `CF_DIB` or `CF_DIBV5` payload that arrives becomes a PNG. The image codecs
//! are those of the `image` crate; the layout of the bitmap is decided here.

use crate::wire;
use image::ImageEncoder;
use vstd::prelude::*;

verus! {

/// Why a bitmap payload, or a picture, was turned down.
#[derive(Debug, Clone, Copy, PartialEq, Eq)]
pub enum DibError {
    /// The payload ends before a `BITMAPINFOHEADER` does.
    ShortHeader,
    /// The header claims a size below its minimum or beyond the payload.
    BogusHeaderSize(u32),
    /// The width is zero or negative.
    InvalidWidth(i32),
    /// The height is zero.
    InvalidHeight,
    /// Neither uncompressed nor one of the two bit-field layouts.
    UnsupportedCompression(u32),
    /// Neither 24 nor 32 bits per pixel.
    UnsupportedBitCount(u16),
    /// Bit fields with a depth other than 32.
    BitfieldsDepth(u16),
    /// The pixels would not fit in an address space.
    Overflow,
    /// The payload ends before the pixels do.
    Truncated(usize, usize),
    /// The decoded picture would not fit in an address space.
    RgbaOverflow,
    /// The image codec turned the picture down.
    Codec,
}

/// A picture as a value: its size, and four bytes for each pixel (red, green,
/// blue, alpha), row by row from the top.
pub struct Picture {
    pub width: u32,
    pub height: u32,
    pub rgba: Seq<u8>,
}

/// What the `image` crate makes of an encoded picture, as RGBA; `None` where it
/// cannot decode it.
pub uninterp spec fn decoded_image(bytes: Seq<u8>) -> Option<(u32, u32, Seq<u8>)>;

/// The PNG file that the `image` crate writes for RGBA pixels; `None` where it
/// reports an error.
pub uninterp spec fn png_encoding(rgba: Seq<u8>, width: u32, height: u32) -> Option<Seq<u8>>;

/// The largest picture, in RGBA bytes, that is sure to pass the decoder's
/// allocation limit.
pub const READ_BACK_LIMIT: usize = 0x800_0000;

/// An error of the `image` crate.
#[verifier::external_type_specification]
#[verifier::external_body]
pub struct ExImageError(image::ImageError);

/// Decodes a picture with `image::ImageReader` (format guessed from the first
/// bytes, default limits) and converts it with `DynamicImage::to_rgba8`.
///
/// Claimed: the outcome depends on the bytes alone, and a decoded picture has
/// exactly four bytes for each of its `width * height` pixels.
#[verifier::external_body]
fn decode_rgba(bytes: &[u8]) -> (r: Result<(u32, u32, Vec<u8>), image::ImageError>)
    ensures
        match r {
            Ok((w, h, px)) => decoded_image(bytes@) == Some((w, h, px@)) && px@.len() == 4 * w * h,
            Err(_) => decoded_image(bytes@) is None,
        },
{
    let reader = image::ImageReader::new(std::io::Cursor::new(bytes)).with_guessed_format()?;
    let img = reader.decode()?.to_rgba8();
    let (w, h) = img.dimensions();
    Ok((w, h, img.into_raw()))
}

/// Writes RGBA pixels with `image::codecs::png::PngEncoder::write_image`, which
/// panics unless there are four bytes for each pixel.
///
/// Claimed: the outcome depends on the arguments alone; writing to memory fails
/// exactly for a picture without pixels; and, PNG being lossless, the same crate
/// reads the same picture back, as long as the picture stays below the decoder's
/// allocation limit.
#[verifier::external_body]
fn encode_png(rgba: &[u8], width: u32, height: u32) -> (r: Result<Vec<u8>, image::ImageError>)
    requires
        rgba@.len() == 4 * width * height,
    ensures
        match r {
            Ok(png) => png_encoding(rgba@, width, height) == Some(png@),
            Err(_) => png_encoding(rgba@, width, height) is None,
        },
        r.is_ok() == (width > 0 && height > 0),
        r matches Ok(png) ==> rgba@.len() <= READ_BACK_LIMIT ==> decoded_image(png@) == Some(
            (width, height, rgba@),
        ),
{
    let mut png = Vec::new();
    let encoder = image::codecs::png::PngEncoder::new(&mut png);
    encoder.write_image(rgba, width, height, image::ExtendedColorType::Rgba8)?;
    Ok(png)
}

/// The 32-bit pattern of `-height`, which marks a bitmap as stored top row first.
pub open spec fn negated_bits(height: u32) -> u32 {
    if height == 0 {
        0
    } else {
        (0x1_0000_0000 - height) as u32
    }
}

/// Pixels with their red and blue bytes exchanged.
pub open spec fn swap_red_blue(px: Seq<u8>) -> Seq<u8> {
    Seq::new(
        px.len(),
        |i: int| if i % 4 == 3 { px[i] } else { px[i - i % 4 + (2 - i % 4)] },
    )
}

/// The 40-byte `BITMAPINFOHEADER` of an uncompressed 32-bit bitmap stored top
/// row first.
pub open spec fn dib_header(width: u32, height: u32, pixel_bytes: int) -> Seq<u8> {
    wire::le32(40) + wire::le32(width) + wire::le32(negated_bits(height)) + wire::le16(1) + wire::le16(32) + wire::le32(0) + wire::le32(
        (pixel_bytes % 0x1_0000_0000) as u32,
    ) + wire::le32(0) + wire::le32(0) + wire::le32(0) + wire::le32(0)
}

/// The `CF_DIB` payload of a picture.
pub open spec fn dib_bytes(width: u32, height: u32, rgba: Seq<u8>) -> Seq<u8> {
    dib_header(width, height, rgba.len() as int) + swap_red_blue(rgba)
}

/// Bytes from one row of a bitmap to the next: rows are padded to four bytes.
pub open spec fn dib_stride(width: int, bytes_per_pixel: int) -> int {
    (width * bytes_per_pixel + 3) / 4 * 4
}

/// One row of a bitmap as RGBA, read at offset `at`. A bitmap of three bytes per
/// pixel has no alpha: its pixels are opaque.
pub open spec fn rgba_row(dib: Seq<u8>, at: int, width: int, bytes_per_pixel: int) -> Seq<u8> {
    Seq::new(
        (4 * width) as nat,
        |i: int|
            if bytes_per_pixel == 4 {
                if i % 4 == 3 {
                    dib[at + i]
                } else {
                    dib[at + i - i % 4 + (2 - i % 4)]
                }
            } else {
                if i % 4 == 3 {
                    0xff
                } else {
                    dib[at + i / 4 * 3 + (2 - i % 4)]
                }
            },
    )
}

/// Where the pixels of a bitmap stand in its payload.
pub struct DibLayout {
    pub width: int,
    pub height: int,
    pub top_down: bool,
    pub bytes_per_pixel: int,
    pub start: int,
}

impl DibLayout {
    /// Bytes from one row to the next.
    pub open spec fn stride(self) -> int {
        dib_stride(self.width, self.bytes_per_pixel)
    }

    /// Where row `row`, counted from the top of the picture, is stored.
    pub open spec fn row_at(self, row: int) -> int {
        self.start + (if self.top_down { row } else { self.height - 1 - row }) * self.stride()
    }

    /// How long a payload has to be.
    pub open spec fn need(self) -> int {
        self.start + self.stride() * self.height
    }

    /// The first `n` rows of the picture, from the top.
    pub open spec fn rows(self, dib: Seq<u8>, n: int) -> Seq<u8>
        decreases n,
    {
        if n <= 0 {
            Seq::empty()
        } else {
            self.rows(dib, n - 1) + rgba_row(
                dib,
                self.row_at(n - 1),
                self.width,
                self.bytes_per_pixel,
            )
        }
    }
}

/// What the header of a bitmap says of its pixels, or why the header is turned
/// down. The tests come in this order, so the first that fails names the error.
pub open spec fn dib_layout(dib: Seq<u8>) -> Result<DibLayout, DibError> {
    let size = wire::le32_at(dib, 0);
    let width = wire::i32_of_bits(wire::le32_at(dib, 4));
    let height = wire::i32_of_bits(wire::le32_at(dib, 8));
    let bit_count = wire::le16_at(dib, 14);
    let compression = wire::le32_at(dib, 16);
    let bitfields = compression == 3 || compression == 6;
    if dib.len() < 40 {
        Err(DibError::ShortHeader)
    } else if size < 40 || size > dib.len() {
        Err(DibError::BogusHeaderSize(size))
    } else if width <= 0 {
        Err(DibError::InvalidWidth(width))
    } else if height == 0 {
        Err(DibError::InvalidHeight)
    } else if compression != 0 && !bitfields {
        Err(DibError::UnsupportedCompression(compression))
    } else if bit_count != 24 && bit_count != 32 {
        Err(DibError::UnsupportedBitCount(bit_count))
    } else if bitfields && bit_count != 32 {
        Err(DibError::BitfieldsDepth(bit_count))
    } else {
        Ok(
            (DibLayout {
                width: width as int,
                height: if height < 0 {
                    -height
                } else {
                    height as int
                },
                top_down: height < 0,
                bytes_per_pixel: if bit_count == 32 {
                    4
                } else {
                    3
                },
                // Colour masks stand between a bare header and the pixels;
                // longer headers hold them inside.
                start: size + (if !bitfields || size != 40 {
                    0int
                } else if compression == 6 {
                    16int
                } else {
                    12int
                }),
            }),
        )
    }
}

/// The picture that a bitmap payload holds, or why it is turned down.
pub open spec fn dib_picture(dib: Seq<u8>) -> Result<Picture, DibError> {
    match dib_layout(dib) {
        Err(e) => Err(e),
        Ok(l) => if l.need() > usize::MAX {
            Err(DibError::Overflow)
        } else if dib.len() < l.need() {
            Err(DibError::Truncated(dib.len() as usize, l.need() as usize))
        } else if l.width * l.height * 4 > usize::MAX {
            Err(DibError::RgbaOverflow)
        } else {
            Ok(
                (Picture {
                    width: l.width as u32,
                    height: l.height as u32,
                    rgba: l.rows(dib, l.height),
                }),
            )
        },
    }
}

/// A decoded picture: its size and its RGBA pixels.
pub struct Pixels {
    pub width: u32,
    pub height: u32,
    pub rgba: Vec<u8>,
}

impl Pixels {
    /// There are four bytes for each pixel.
    pub open spec fn wf(self) -> bool {
        self.rgba@.len() == 4 * self.width * self.height
    }

    /// The picture as a value.
    pub open spec fn picture(self) -> Picture {
        Picture { width: self.width, height: self.height, rgba: self.rgba@ }
    }
}

/// Lays RGBA pixels out as a `CF_DIB` payload: a `BITMAPINFOHEADER` and 32-bit
/// BGRA pixels, top row first.
pub fn rgba_to_dib(width: u32, height: u32, rgba: &[u8]) -> (out: Vec<u8>)
    requires
        rgba@.len() == 4 * width * height,
    ensures
        out@ == dib_bytes(width, height, rgba@),
{
    let mut out: Vec<u8> = Vec::new();
    let negated: u32 = if height == 0 {
        0
    } else {
        (0x1_0000_0000u64 - height as u64) as u32
    };
    wire::push_le32(&mut out, 40);
    wire::push_le32(&mut out, width);
    wire::push_le32(&mut out, negated);
    wire::push_le16(&mut out, 1);
    wire::push_le16(&mut out, 32);
    wire::push_le32(&mut out, 0);
    wire::push_le32(&mut out, (rgba.len() as u64 % 0x1_0000_0000) as u32);
    wire::push_le32(&mut out, 0);
    wire::push_le32(&mut out, 0);
    wire::push_le32(&mut out, 0);
    wire::push_le32(&mut out, 0);
    let ghost header = dib_header(width, height, rgba@.len() as int);
    assert(out@ =~= header);
    let n: usize = rgba.len();
    let mut i: usize = 0;
    assert(n == 4 * (width * height)) by (nonlinear_arith)
        requires
            n == 4 * width * height,
    ;
    while i < n
        invariant
            n == rgba@.len(),
            n % 4 == 0,
            i % 4 == 0,
            i <= n,
            out@ == header + swap_red_blue(rgba@).subrange(0, i as int),
        decreases n - i,
    {
        out.push(rgba[i + 2]);
        out.push(rgba[i + 1]);
        out.push(rgba[i]);
        out.push(rgba[i + 3]);
        i = i + 4;
        assert(out@ =~= header + swap_red_blue(rgba@).subrange(0, i as int));
    }
    assert(swap_red_blue(rgba@).subrange(0, i as int) =~= swap_red_blue(rgba@));
    out
}

/// What an encoded picture becomes as a bitmap, given what the decoder made of
/// it.
pub open spec fn dib_of_decoded(decoded: Option<(u32, u32, Seq<u8>)>) -> Result<Seq<u8>, DibError> {
    match decoded {
        Some((w, h, rgba)) => Ok(dib_bytes(w, h, rgba)),
        None => Err(DibError::Codec),
    }
}

/// Converts PNG or TIFF bytes into a `CF_DIB` payload. It fails exactly when the
/// decoder does.
pub fn png_or_tiff_to_dib(bytes: &[u8]) -> (r: Result<Vec<u8>, DibError>)
    ensures
        match r {
            Ok(dib) => dib_of_decoded(decoded_image(bytes@)) == Ok::<Seq<u8>, DibError>(dib@),
            Err(e) => dib_of_decoded(decoded_image(bytes@)) == Err::<Seq<u8>, DibError>(e),
        },
        r is Ok ==> sized(decoded_image(bytes@)),
{
    match decode_rgba(bytes) {
        Ok((w, h, rgba)) => Ok(rgba_to_dib(w, h, rgba.as_slice())),
        Err(_) => Err(DibError::Codec),
    }
}

/// Whether there is a decoded picture, with four bytes for each pixel.
pub open spec fn sized(decoded: Option<(u32, u32, Seq<u8>)>) -> bool {
    decoded matches Some((w, h, rgba)) && rgba.len() == 4 * w * h
}

/// Whether there is a decoded picture with pixels.
pub open spec fn has_pixels(decoded: Option<(u32, u32, Seq<u8>)>) -> bool {
    decoded matches Some((w, h, _)) && w > 0 && h > 0
}

/// Whether a decoded picture is sure to pass the decoder's allocation limit once it
/// is a PNG.
pub open spec fn within_limit(decoded: Option<(u32, u32, Seq<u8>)>) -> bool {
    decoded matches Some((_, _, rgba)) && rgba.len() <= READ_BACK_LIMIT
}

/// What an encoded picture becomes as a PNG, given what the decoder made of it.
pub open spec fn png_of_decoded(decoded: Option<(u32, u32, Seq<u8>)>) -> Option<Seq<u8>> {
    match decoded {
        Some((w, h, rgba)) => png_encoding(rgba, w, h),
        None => None,
    }
}

/// Encodes a picture again, as PNG. There is none exactly where the picture cannot
/// be decoded or has no pixels; otherwise the PNG shows the same picture, up to the
/// decoder's allocation limit.
pub fn normalize_to_png(bytes: &[u8]) -> (r: Option<Vec<u8>>)
    ensures
        match r {
            Some(png) => png_of_decoded(decoded_image(bytes@)) == Some(png@),
            None => png_of_decoded(decoded_image(bytes@)) is None,
        },
        r is Some <==> has_pixels(decoded_image(bytes@)),
        r matches Some(png) ==> within_limit(decoded_image(bytes@)) ==> decoded_image(png@)
            == decoded_image(bytes@),
{
    match decode_rgba(bytes) {
        Ok((w, h, rgba)) => match encode_png(rgba.as_slice(), w, h) {
            Ok(png) => Some(png),
            Err(_) => None,
        },
        Err(_) => None,
    }
}

/// Appends one row of a bitmap, as RGBA.
fn push_row(out: &mut Vec<u8>, dib: &[u8], at: usize, width: u32, bytes_per_pixel: usize)
    requires
        bytes_per_pixel == 3 || bytes_per_pixel == 4,
        at + width * bytes_per_pixel <= dib@.len(),
    ensures
        final(out)@ == old(out)@ + rgba_row(dib@, at as int, width as int, bytes_per_pixel as int),
{
    let ghost row = rgba_row(dib@, at as int, width as int, bytes_per_pixel as int);
    let ghost start = out@;
    let len: usize = dib.len();
    let mut x: u32 = 0;
    let mut p: usize = at;
    while x < width
        invariant
            x <= width,
            bytes_per_pixel == 3 || bytes_per_pixel == 4,
            len == dib@.len(),
            at + width * bytes_per_pixel <= len,
            p == at + x * bytes_per_pixel,
            row == rgba_row(dib@, at as int, width as int, bytes_per_pixel as int),
            out@ == start + row.subrange(0, 4 * x),
        decreases width - x,
    {
        assert(x * bytes_per_pixel + bytes_per_pixel == (x + 1) * bytes_per_pixel)
            by (nonlinear_arith);
        assert((x + 1) * bytes_per_pixel <= width * bytes_per_pixel) by (nonlinear_arith)
            requires
                x < width,
        ;
        out.push(dib[p + 2]);
        out.push(dib[p + 1]);
        out.push(dib[p]);
        if bytes_per_pixel == 4 {
            out.push(dib[p + 3]);
        } else {
            out.push(0xff);
        }
        p = p + bytes_per_pixel;
        x = x + 1;
        assert(out@ =~= start + row.subrange(0, 4 * x));
    }
    assert(row.subrange(0, 4 * x) =~= row);
}

/// Reads the pixels out of a `CF_DIB` or `CF_DIBV5` payload: a header of at least
/// 40 bytes, 24 or 32 bits per pixel, stored from either end.
pub fn dib_to_rgba(dib: &[u8]) -> (r: Result<Pixels, DibError>)
    ensures
        match r {
            Ok(px) => px.wf() && px.width > 0 && px.height > 0 && dib_picture(dib@) == Ok::<
                Picture,
                DibError,
            >(px.picture()),
            Err(e) => dib_picture(dib@) == Err::<Picture, DibError>(e),
        },
{
    if dib.len() < 40 {
        return Err(DibError::ShortHeader);
    }
    let size: u32 = wire::read_le32(dib, 0);
    if size < 40 || size as u64 > dib.len() as u64 {
        return Err(DibError::BogusHeaderSize(size));
    }
    let width: i32 = wire::i32_from_bits(wire::read_le32(dib, 4));
    let height: i32 = wire::i32_from_bits(wire::read_le32(dib, 8));
    let bit_count: u16 = wire::read_le16(dib, 14);
    let compression: u32 = wire::read_le32(dib, 16);
    if width <= 0 {
        return Err(DibError::InvalidWidth(width));
    }
    if height == 0 {
        return Err(DibError::InvalidHeight);
    }
    let bitfields = compression == 3 || compression == 6;
    if compression != 0 && !bitfields {
        return Err(DibError::UnsupportedCompression(compression));
    }
    if bit_count != 24 && bit_count != 32 {
        return Err(DibError::UnsupportedBitCount(bit_count));
    }
    if bitfields && bit_count != 32 {
        return Err(DibError::BitfieldsDepth(bit_count));
    }
    let w: u32 = width as u32;
    let top_down = height < 0;
    let h: u32 = if top_down {
        (-(height as i64)) as u32
    } else {
        height as u32
    };
    let bpp: usize = if bit_count == 32 {
        4
    } else {
        3
    };
    let masks: u32 = if !bitfields || size != 40 {
        0
    } else if compression == 6 {
        16
    } else {
        12
    };
    let ghost l = dib_layout(dib@)->Ok_0;
    assert(dib_layout(dib@) is Ok);
    let start: u64 = size as u64 + masks as u64;
    let stride: u64 = (w as u64 * bpp as u64 + 3) / 4 * 4;
    assert(stride == l.stride());
    assert(stride <= 0x2_0000_0000);
    assert(stride * h <= 0x2_0000_0000 * 0x1_0000_0000) by (nonlinear_arith)
        requires
            stride <= 0x2_0000_0000,
            h <= 0x1_0000_0000,
    ;
    assert(stride * h == l.stride() * l.height);
    let need: u128 = start as u128 + stride as u128 * h as u128;
    if need > usize::MAX as u128 {
        return Err(DibError::Overflow);
    }
    let need: usize = need as usize;
    if dib.len() < need {
        return Err(DibError::Truncated(dib.len(), need));
    }
    assert(w * h <= 0x1_0000_0000 * 0x1_0000_0000) by (nonlinear_arith);
    let total: u128 = w as u128 * h as u128 * 4;
    if total > usize::MAX as u128 {
        return Err(DibError::RgbaOverflow);
    }
    assert(w * bpp <= stride);
    let mut rgba: Vec<u8> = Vec::new();
    let mut row: u32 = 0;
    assert(l.rows(dib@, 0) =~= Seq::<u8>::empty());
    while row < h
        invariant
            row <= h,
            l.width == w,
            l.height == h,
            l.top_down == top_down,
            l.bytes_per_pixel == bpp,
            l.start == start,
            bpp == 3 || bpp == 4,
            stride == l.stride(),
            w * bpp <= stride,
            need == l.need(),
            need <= dib@.len(),
            rgba@ == l.rows(dib@, row as int),
            rgba@.len() == 4 * (w * row),
        decreases h - row,
    {
        let src: u32 = if top_down {
            row
        } else {
            h - 1 - row
        };
        assert(src * stride + stride <= stride * h) by (nonlinear_arith)
            requires
                src < h,
        ;
        assert(0 <= src * stride) by (nonlinear_arith);
        let at: usize = (start + src as u64 * stride) as usize;
        assert(at == l.row_at(row as int));
        push_row(&mut rgba, dib, at, w, bpp);
        assert(w * row + w == w * (row + 1)) by (nonlinear_arith);
        row = row + 1;
    }
    assert(4 * (w * h) == 4 * w * h) by (nonlinear_arith);
    Ok(Pixels { width: w, height: h, rgba })
}

/// What a bitmap payload becomes as a PNG, given what the encoder makes of
/// pixels.
pub open spec fn png_of_dib(dib: Seq<u8>) -> Result<Seq<u8>, DibError> {
    match dib_picture(dib) {
        Err(e) => Err(e),
        Ok(p) => match png_encoding(p.rgba, p.width, p.height) {
            Some(png) => Ok(png),
            None => Err(DibError::Codec),
        },
    }
}

/// Whether a PNG shows the picture that a bitmap payload holds: decoding it gives
/// that picture, up to the decoder's allocation limit.
pub open spec fn shows(png: Seq<u8>, dib: Seq<u8>) -> bool {
    dib_picture(dib) matches Ok(p) && (p.rgba.len() <= READ_BACK_LIMIT ==> decoded_image(png)
        == Some((p.width, p.height, p.rgba)))
}

/// Converts a `CF_DIB` or `CF_DIBV5` payload into PNG bytes, which show the picture
/// that the bitmap holds. It succeeds exactly where the payload holds one.
///
/// Pixels are uncompressed, 24 or 32 bits each. At 32 bits the two bit-field
/// layouts are accepted too, because Windows sends them; their masks are taken to be
/// the usual ones, blue in the lowest byte and alpha in the highest.
pub fn dib_to_png(dib: &[u8]) -> (r: Result<Vec<u8>, DibError>)
    ensures
        match r {
            Ok(png) => png_of_dib(dib@) == Ok::<Seq<u8>, DibError>(png@),
            Err(e) => png_of_dib(dib@) == Err::<Seq<u8>, DibError>(e),
        },
        r is Ok <==> dib_picture(dib@) is Ok,
        r matches Ok(png) ==> shows(png@, dib@),
{
    match dib_to_rgba(dib) {
        Err(e) => Err(e),
        Ok(px) => match encode_png(px.rgba.as_slice(), px.width, px.height) {
            Ok(png) => Ok(png),
            Err(_) => Err(DibError::Codec),
        },
    }
}

/// Where byte `j` of some pixels goes when red and blue are exchanged.
pub open spec fn exchanged(j: int) -> int {
    if j % 4 == 3 {
        j
    } else {
        j - j % 4 + (2 - j % 4)
    }
}

/// Exchanging red and blue puts each byte where it belongs.
proof fn lemma_exchanged(rgba: Seq<u8>, j: int)
    requires
        rgba.len() % 4 == 0,
        0 <= j < rgba.len(),
    ensures
        0 <= exchanged(j) < rgba.len(),
        swap_red_blue(rgba)[exchanged(j)] == rgba[j],
{
    let k = exchanged(j);
    assert(k - k % 4 == j - j % 4);
    assert(exchanged(k) == j);
}

/// The first rows of a bitmap made from a picture are the first rows of the
/// picture.
#[verifier::spinoff_prover]
#[verifier::rlimit(30)]
proof fn lemma_rows_of_dib_bytes(width: u32, height: u32, rgba: Seq<u8>, l: DibLayout, n: int)
    requires
        rgba.len() == 4 * width * height,
        l == (DibLayout {
            width: width as int,
            height: height as int,
            top_down: true,
            bytes_per_pixel: 4,
            start: 40,
        }),
        0 <= n <= height,
    ensures
        0 <= 4 * width * n <= rgba.len(),
        l.rows(dib_bytes(width, height, rgba), n) == rgba.subrange(0, 4 * width * n),
    decreases n,
{
    let dib = dib_bytes(width, height, rgba);
    let s = 4 * width;
    assert(0 <= s * n <= s * height) by (nonlinear_arith)
        requires
            0 <= s,
            0 <= n <= height,
    ;
    if n == 0 {
        assert(s * n == 0) by (nonlinear_arith)
            requires
                n == 0,
        ;
        assert(l.rows(dib, n) =~= rgba.subrange(0, s * n));
    } else {
        lemma_rows_of_dib_bytes(width, height, rgba, l, n - 1);
        assert(s * (n - 1) + s == s * n) by (nonlinear_arith);
        assert((n - 1) * s == s * (n - 1)) by (nonlinear_arith);
        assert(s * (n - 1) == 4 * (width * (n - 1))) by (nonlinear_arith)
            requires
                s == 4 * width,
        ;
        assert(l.stride() == s);
        let at = l.row_at(n - 1);
        assert(at == 40 + s * (n - 1));
        let row = rgba_row(dib, at, width as int, 4);
        assert(dib_header(width, height, rgba.len() as int).len() == 40);
        assert(rgba.len() % 4 == 0) by {
            assert(rgba.len() == 4 * (width * height)) by (nonlinear_arith)
                requires
                    rgba.len() == 4 * width * height,
            ;
        }
        assert forall|i: int| 0 <= i < s implies #[trigger] row[i] == rgba[s * (n - 1) + i] by {
            let j = s * (n - 1) + i;
            assert(j % 4 == i % 4);
            lemma_exchanged(rgba, j);
            assert(row[i] == dib[40 + exchanged(j)]);
            assert(dib[40 + exchanged(j)] == swap_red_blue(rgba)[exchanged(j)]);
        }
        assert(l.rows(dib, n) =~= rgba.subrange(0, s * n));
    }
}

/// What the header of a bitmap made from a picture says.
#[verifier::spinoff_prover]
proof fn lemma_header_of_dib_bytes(width: u32, height: u32, rgba: Seq<u8>)
    ensures
        ({
            let dib = dib_bytes(width, height, rgba);
            &&& dib.len() == 40 + rgba.len()
            &&& wire::le32_at(dib, 0) == 40
            &&& wire::le32_at(dib, 4) == width
            &&& wire::le32_at(dib, 8) == negated_bits(height)
            &&& wire::le16_at(dib, 14) == 32
            &&& wire::le32_at(dib, 16) == 0
        }),
{
    let dib = dib_bytes(width, height, rgba);
    assert(dib_header(width, height, rgba.len() as int).len() == 40);
    assert(dib.subrange(0, 4) =~= wire::le32(40));
    assert(dib.subrange(4, 8) =~= wire::le32(width));
    assert(dib.subrange(8, 12) =~= wire::le32(negated_bits(height)));
    assert(dib.subrange(14, 16) =~= wire::le16(32));
    assert(dib.subrange(16, 20) =~= wire::le32(0));
    wire::law_read_undoes_write(dib, 0, 0, 40);
    wire::law_read_undoes_write(dib, 4, 0, width);
    wire::law_read_undoes_write(dib, 8, 0, negated_bits(height));
    wire::law_read_undoes_write(dib, 14, 32, 0);
    wire::law_read_undoes_write(dib, 16, 0, 0);
}

/// The layout of a bitmap made from a picture: 32 bits for each pixel, top row
/// first, right behind the header.
#[verifier::spinoff_prover]
proof fn lemma_layout_of_dib_bytes(width: u32, height: u32, rgba: Seq<u8>)
    requires
        0 < width <= i32::MAX,
        0 < height <= 0x8000_0000,
    ensures
        dib_layout(dib_bytes(width, height, rgba)) == Ok::<DibLayout, DibError>(
            (DibLayout {
                width: width as int,
                height: height as int,
                top_down: true,
                bytes_per_pixel: 4,
                start: 40,
            }),
        ),
{
    lemma_header_of_dib_bytes(width, height, rgba);
}

/// A picture that is laid out as a bitmap is read back unchanged: same size, same
/// pixels, alpha included. The size has to fit the header's signed fields, and
/// the payload an address space.
#[verifier::spinoff_prover]
pub proof fn law_dib_round_trip(width: u32, height: u32, rgba: Seq<u8>)
    requires
        rgba.len() == 4 * width * height,
        0 < width <= i32::MAX,
        0 < height <= 0x8000_0000,
        40 + rgba.len() <= usize::MAX,
    ensures
        dib_picture(dib_bytes(width, height, rgba)) == Ok::<Picture, DibError>(
            (Picture { width, height, rgba }),
        ),
{
    let dib = dib_bytes(width, height, rgba);
    lemma_header_of_dib_bytes(width, height, rgba);
    lemma_layout_of_dib_bytes(width, height, rgba);
    let l = dib_layout(dib)->Ok_0;
    assert(l.stride() == 4 * width);
    assert(l.stride() * l.height == rgba.len());
    assert(l.width * l.height * 4 == rgba.len()) by (nonlinear_arith)
        requires
            l.width == width,
            l.height == height,
            rgba.len() == 4 * width * height,
    ;
    lemma_rows_of_dib_bytes(width, height, rgba, l, height as int);
    assert(rgba.subrange(0, 4 * width * height) =~= rgba);
}

/// A picture survives the way through a bitmap into a PNG: the bitmap that is made
/// of an encoded picture is one that becomes a PNG, and every PNG that shows the
/// bitmap decodes to the same size and the same pixels as the first picture, alpha
/// included.
pub proof fn law_picture_survives_as_png(
    img: Seq<u8>,
    width: u32,
    height: u32,
    rgba: Seq<u8>,
    dib: Seq<u8>,
    png: Seq<u8>,
)
    requires
        decoded_image(img) == Some((width, height, rgba)),
        sized(decoded_image(img)),
        0 < width <= i32::MAX,
        0 < height <= 0x8000_0000,
        dib_of_decoded(decoded_image(img)) == Ok::<Seq<u8>, DibError>(dib),
        dib.len() <= usize::MAX,
    ensures
        dib_picture(dib) is Ok,
        shows(png, dib) && within_limit(decoded_image(img)) ==> decoded_image(png)
            == decoded_image(img),
{
    assert(dib_header(width, height, rgba.len() as int).len() == 40);
    law_dib_round_trip(width, height, rgba);
}

/// The bytes of the first rows of a picture, row by row.
proof fn lemma_rows_bytes(l: DibLayout, dib: Seq<u8>, n: int, y: int, i: int)
    requires
        0 <= l.width,
        0 <= y < n,
        0 <= i < 4 * l.width,
    ensures
        l.rows(dib, n).len() == 4 * l.width * n,
        0 <= 4 * l.width * y + i < 4 * l.width * n,
        l.rows(dib, n)[4 * l.width * y + i] == rgba_row(
            dib,
            l.row_at(y),
            l.width,
            l.bytes_per_pixel,
        )[i],
    decreases n,
{
    let s = 4 * l.width;
    lemma_rows_len(l, dib, n);
    lemma_rows_len(l, dib, n - 1);
    assert(s * (n - 1) + s == s * n) by (nonlinear_arith);
    assert(0 <= s * y) by (nonlinear_arith)
        requires
            0 <= s,
            0 <= y,
    ;
    if y < n - 1 {
        assert(s * y + s <= s * (n - 1)) by (nonlinear_arith)
            requires
                0 <= s,
                y < n - 1,
        ;
        lemma_rows_bytes(l, dib, n - 1, y, i);
    }
}

proof fn lemma_rows_len(l: DibLayout, dib: Seq<u8>, n: int)
    requires
        0 <= l.width,
        0 <= n,
    ensures
        l.rows(dib, n).len() == 4 * l.width * n,
    decreases n,
{
    let s = 4 * l.width;
    if n > 0 {
        lemma_rows_len(l, dib, n - 1);
        assert(s * (n - 1) + s == s * n) by (nonlinear_arith);
    } else {
        assert(s * n == 0) by (nonlinear_arith)
            requires
                n == 0,
        ;
    }
}

/// Rows are padded to the next multiple of four bytes.
proof fn lemma_stride(width: int, bytes_per_pixel: int, stride: int)
    requires
        stride % 4 == 0,
        width * bytes_per_pixel <= stride < width * bytes_per_pixel + 4,
    ensures
        dib_stride(width, bytes_per_pixel) == stride,
{
}

/// Bytes of colour masks between a bitmap's header and its pixels: three of four bytes,
/// or four, and only where the header is too short to hold them.
pub open spec fn mask_bytes(size: u32, compression: u32) -> int {
    if size == 40 && compression == 3 {
        12
    } else if size == 40 && compression == 6 {
        16
    } else {
        0
    }
}

/// Every pixel of a bitmap shows the bytes that stand for it in the payload: blue,
/// green and red in this order, then alpha at 32 bits, and opaque at 24. A negative
/// height means that the top row is stored first, and a positive one that it is stored
/// last, at either depth.
#[verifier::spinoff_prover]
#[verifier::rlimit(40)]
pub proof fn law_pixels_of_a_bitmap(dib: Seq<u8>, stride: int, x: int, y: int)
    requires
        dib_picture(dib) is Ok,
        0 <= x < dib_picture(dib)->Ok_0.width,
        0 <= y < dib_picture(dib)->Ok_0.height,
        stride % 4 == 0,
        ({
            let row = wire::i32_of_bits(wire::le32_at(dib, 4)) * (wire::le16_at(dib, 14) / 8);
            row <= stride < row + 4
        }),
    ensures
        ({
            let p = dib_picture(dib)->Ok_0;
            let height = wire::i32_of_bits(wire::le32_at(dib, 8)) as int;
            let bytes = (wire::le16_at(dib, 14) / 8) as int;
            let stored = if height < 0 {
                y
            } else {
                height - 1 - y
            };
            let at = wire::le32_at(dib, 0) + mask_bytes(
                wire::le32_at(dib, 0),
                wire::le32_at(dib, 16),
            ) + stored * stride + bytes * x;
            let to = 4 * (y * p.width + x);
            &&& p.width == wire::i32_of_bits(wire::le32_at(dib, 4))
            &&& p.height == height || p.height == -height
            &&& p.rgba.len() == 4 * p.width * p.height
            &&& 0 <= to && to + 4 <= p.rgba.len()
            &&& p.rgba[to] == dib[at + 2]
            &&& p.rgba[to + 1] == dib[at + 1]
            &&& p.rgba[to + 2] == dib[at]
            &&& wire::le16_at(dib, 14) == 32 ==> p.rgba[to + 3] == dib[at + 3]
            &&& wire::le16_at(dib, 14) == 24 ==> p.rgba[to + 3] == 255
        }),
{
    let l = dib_layout(dib)->Ok_0;
    let p = dib_picture(dib)->Ok_0;
    let w = l.width;
    assert(l.bytes_per_pixel == wire::le16_at(dib, 14) / 8);
    lemma_stride(w, l.bytes_per_pixel, stride);
    lemma_rows_len(l, dib, l.height);
    assert(4 * w * y + 4 * x == 4 * (y * w + x)) by (nonlinear_arith);
    lemma_rows_bytes(l, dib, l.height, y, 4 * x);
    lemma_rows_bytes(l, dib, l.height, y, 4 * x + 1);
    lemma_rows_bytes(l, dib, l.height, y, 4 * x + 2);
    lemma_rows_bytes(l, dib, l.height, y, 4 * x + 3);
    let row = rgba_row(dib, l.row_at(y), w, l.bytes_per_pixel);
    let at = l.row_at(y) + l.bytes_per_pixel * x;
    assert((4 * x) % 4 == 0 && (4 * x + 1) % 4 == 1 && (4 * x + 2) % 4 == 2 && (4 * x + 3) % 4
        == 3);
    assert((4 * x) / 4 == x && (4 * x + 1) / 4 == x && (4 * x + 2) / 4 == x);
    assert(row[4 * x] == dib[at + 2]);
    assert(row[4 * x + 1] == dib[at + 1]);
    assert(row[4 * x + 2] == dib[at]);
}

/// A payload is understood exactly when its header is whole, its size is positive, its
/// pixels are uncompressed with 24 or 32 bits or bit fields with 32, and the pixels are
/// all there.
#[verifier::spinoff_prover]
pub proof fn law_which_bitmaps_are_understood(dib: Seq<u8>, stride: int)
    requires
        dib.len() <= usize::MAX,
        stride % 4 == 0,
        ({
            let row = wire::i32_of_bits(wire::le32_at(dib, 4)) * (wire::le16_at(dib, 14) / 8);
            row <= stride < row + 4
        }),
    ensures
        dib_picture(dib) is Ok <==> ({
            let size = wire::le32_at(dib, 0);
            let width = wire::i32_of_bits(wire::le32_at(dib, 4)) as int;
            let height = wire::i32_of_bits(wire::le32_at(dib, 8)) as int;
            let rows = if height < 0 {
                -height
            } else {
                height
            };
            let bits = wire::le16_at(dib, 14);
            let compression = wire::le32_at(dib, 16);
            &&& dib.len() >= 40
            &&& 40 <= size <= dib.len()
            &&& width > 0
            &&& rows > 0
            &&& (compression == 0 && (bits == 24 || bits == 32)) || ((compression == 3
                || compression == 6) && bits == 32)
            &&& size + mask_bytes(size, compression) + stride * rows <= dib.len()
            &&& width * rows * 4 <= usize::MAX
        }),
{
    if dib_layout(dib) is Ok {
        let l = dib_layout(dib)->Ok_0;
        assert(l.bytes_per_pixel == wire::le16_at(dib, 14) / 8);
        lemma_stride(l.width, l.bytes_per_pixel, stride);
    }
}

/// Turning the sign of a bitmap's height over turns the picture upside down, and
/// changes nothing else.
#[verifier::spinoff_prover]
#[verifier::rlimit(40)]
pub proof fn law_height_sign_mirrors_the_picture(up: Seq<u8>, down: Seq<u8>, x: int, y: int, c: int)
    requires
        up.len() == down.len(),
        forall|i: int| 0 <= i < up.len() && !(8 <= i < 12) ==> up[i] == #[trigger] down[i],
        wire::i32_of_bits(wire::le32_at(up, 8)) == -wire::i32_of_bits(wire::le32_at(down, 8)),
        dib_picture(up) is Ok,
        0 <= x < dib_picture(up)->Ok_0.width,
        0 <= y < dib_picture(up)->Ok_0.height,
        0 <= c < 4,
    ensures
        dib_picture(down) is Ok,
        dib_picture(down)->Ok_0.width == dib_picture(up)->Ok_0.width,
        dib_picture(down)->Ok_0.height == dib_picture(up)->Ok_0.height,
        ({
            let (p, q) = (dib_picture(up)->Ok_0, dib_picture(down)->Ok_0);
            p.rgba[4 * (y * p.width + x) + c] == q.rgba[4 * ((p.height - 1 - y) * p.width + x) + c]
        }),
{
    assert(wire::le32_at(up, 0) == wire::le32_at(down, 0));
    assert(wire::le32_at(up, 4) == wire::le32_at(down, 4));
    assert(wire::le16_at(up, 14) == wire::le16_at(down, 14));
    assert(wire::le32_at(up, 16) == wire::le32_at(down, 16));
    let (a, b) = (dib_layout(up)->Ok_0, dib_layout(down)->Ok_0);
    assert(b == DibLayout { top_down: !a.top_down, ..a });
    let flipped = a.height - 1 - y;
    assert(b.row_at(flipped) == a.row_at(y));
    let (r, s) = (
        rgba_row(up, a.row_at(y), a.width, a.bytes_per_pixel),
        rgba_row(down, a.row_at(y), a.width, a.bytes_per_pixel),
    );
    lemma_rows_bytes(a, up, a.height, y, 4 * x + c);
    lemma_rows_bytes(b, down, b.height, flipped, 4 * x + c);
    assert(4 * a.width * y + 4 * x == 4 * (y * a.width + x)) by (nonlinear_arith);
    assert(4 * a.width * flipped + 4 * x == 4 * (flipped * a.width + x)) by (nonlinear_arith);
    lemma_row_in_payload(a, up, y);
    let i = 4 * x + c;
    assert(i % 4 == c && i / 4 == x);
    assert(r[i] == s[i]);
}

/// A row of a picture is read out of the payload, behind the header.
proof fn lemma_row_in_payload(l: DibLayout, dib: Seq<u8>, y: int)
    requires
        dib_layout(dib) == Ok::<DibLayout, DibError>(l),
        l.need() <= dib.len(),
        0 <= y < l.height,
    ensures
        40 <= l.row_at(y),
        l.row_at(y) + l.width * l.bytes_per_pixel <= dib.len(),
{
    let stored = if l.top_down {
        y
    } else {
        l.height - 1 - y
    };
    let s = l.stride();
    assert(l.width * l.bytes_per_pixel <= s);
    assert(0 <= stored * s && stored * s + s <= s * l.height) by (nonlinear_arith)
        requires
            0 <= stored < l.height,
            0 <= s,
    ;
}

/// What the header of a bitmap that is made says: 40 bytes, the width, the height below
/// zero for the top row first, one plane, 32 bits, no compression, the size of the
/// pixels, and zero in every other field.
#[verifier::spinoff_prover]
#[verifier::rlimit(40)]
pub proof fn law_header_that_is_made(width: u32, height: u32, rgba: Seq<u8>)
    ensures
        ({
            let dib = dib_bytes(width, height, rgba);
            &&& dib.len() == 40 + rgba.len()
            &&& wire::le32_at(dib, 0) == 40
            &&& wire::le32_at(dib, 4) == width
            &&& wire::le32_at(dib, 8) == (0x1_0000_0000 - height) % 0x1_0000_0000
            &&& wire::le16_at(dib, 12) == 1
            &&& wire::le16_at(dib, 14) == 32
            &&& wire::le32_at(dib, 16) == 0
            &&& wire::le32_at(dib, 20) == rgba.len() % 0x1_0000_0000
            &&& wire::le32_at(dib, 24) == 0
            &&& wire::le32_at(dib, 28) == 0
            &&& wire::le32_at(dib, 32) == 0
            &&& wire::le32_at(dib, 36) == 0
        }),
{
    lemma_header_of_dib_bytes(width, height, rgba);
    let dib = dib_bytes(width, height, rgba);
    let n = (rgba.len() % 0x1_0000_0000) as u32;
    assert(dib_header(width, height, rgba.len() as int).len() == 40);
    assert(dib.subrange(12, 14) =~= wire::le16(1));
    assert(dib.subrange(20, 24) =~= wire::le32(n));
    assert(dib.subrange(24, 28) =~= wire::le32(0));
    assert(dib.subrange(28, 32) =~= wire::le32(0));
    assert(dib.subrange(32, 36) =~= wire::le32(0));
    assert(dib.subrange(36, 40) =~= wire::le32(0));
    wire::law_read_undoes_write(dib, 12, 1, 0);
    wire::law_read_undoes_write(dib, 20, 0, n);
    wire::law_read_undoes_write(dib, 24, 0, 0);
    wire::law_read_undoes_write(dib, 28, 0, 0);
    wire::law_read_undoes_write(dib, 32, 0, 0);
    wire::law_read_undoes_write(dib, 36, 0, 0);
}

/// Behind the header of a bitmap that is made stand the picture's pixels in order, red
/// and blue in exchanged places.
#[verifier::spinoff_prover]
pub proof fn law_pixels_that_are_made(width: u32, height: u32, rgba: Seq<u8>, i: int)
    requires
        rgba.len() % 4 == 0,
        0 <= i < rgba.len() / 4,
    ensures
        ({
            let dib = dib_bytes(width, height, rgba);
            &&& dib.len() == 40 + rgba.len()
            &&& dib[40 + 4 * i] == rgba[4 * i + 2]
            &&& dib[41 + 4 * i] == rgba[4 * i + 1]
            &&& dib[42 + 4 * i] == rgba[4 * i]
            &&& dib[43 + 4 * i] == rgba[4 * i + 3]
        }),
{
    lemma_header_of_dib_bytes(width, height, rgba);
    lemma_exchanged(rgba, 4 * i);
    lemma_exchanged(rgba, 4 * i + 1);
    lemma_exchanged(rgba, 4 * i + 2);
    lemma_exchanged(rgba, 4 * i + 3);
    assert(exchanged(4 * i) == 4 * i + 2);
    assert(exchanged(4 * i + 1) == 4 * i + 1);
    assert(exchanged(4 * i + 2) == 4 * i);
    assert(exchanged(4 * i + 3) == 4 * i + 3);
}

/// A payload that is turned down is told by the first thing that is wrong with it, and
/// by what was found there.
pub proof fn law_why_bitmaps_are_turned_down(dib: Seq<u8>)
    requires
        dib.len() <= usize::MAX,
    ensures
        dib_picture(dib) matches Err(e) ==> match e {
            DibError::ShortHeader => dib.len() < 40,
            DibError::BogusHeaderSize(n) => dib.len() >= 40 && n == wire::le32_at(dib, 0) && (n < 40
                || n > dib.len()),
            DibError::InvalidWidth(w) => w == wire::i32_of_bits(wire::le32_at(dib, 4)) && w <= 0,
            DibError::InvalidHeight => wire::le32_at(dib, 8) == 0,
            DibError::UnsupportedCompression(c) => c == wire::le32_at(dib, 16) && c != 0 && c != 3
                && c != 6,
            DibError::UnsupportedBitCount(b) => b == wire::le16_at(dib, 14) && b != 24 && b != 32,
            DibError::BitfieldsDepth(b) => b == wire::le16_at(dib, 14) && b == 24 && wire::le32_at(
                dib,
                16,
            ) != 0,
            DibError::Truncated(have, need) => have == dib.len() && have < need,
            DibError::Overflow => true,
            DibError::RgbaOverflow => true,
            _ => false,
        },
        dib.len() < 40 ==> dib_picture(dib) == Err::<Picture, DibError>(DibError::ShortHeader),
{
}

} // verus!
