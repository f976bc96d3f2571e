//! From the pixels of an X11 image to a PNG file.

use vstd::arithmetic::div_mod::lemma_fundamental_div_mod_converse;
use vstd::prelude::*;
use vstd::std_specs::bits::u32_trailing_zeros;

use crate::error;
use crate::error::{error2, error3, ControllerError, ErrorCode};
use crate::text;
use crate::text::format_decimal;
use crate::types::Geometry;

verus! {

/// In which order an image holds the bytes of a pixel.
#[derive(Debug, Clone, Copy, PartialEq, Eq, Structural)]
pub enum ImageOrder {
    LsbFirst,
    MsbFirst,
    Unknown,
}

/// How an image holds its pixels.
#[derive(Debug, Clone, Copy, PartialEq, Eq, Structural)]
pub struct PixelFormat {
    pub bits_per_pixel: u8,
    pub scanline_pad: u8,
    pub byte_order: ImageOrder,
    pub red_mask: u32,
    pub green_mask: u32,
    pub blue_mask: u32,
}

/// The number that bytes spell, most significant byte first.
pub open spec fn number(bytes: Seq<u8>) -> nat
    decreases bytes.len(),
{
    if bytes.len() == 0 {
        0
    } else {
        number(bytes.drop_last()) * 256 + bytes.last() as nat
    }
}

/// The value of a pixel that is held in these bytes.
pub open spec fn pixel_value(bytes: Seq<u8>, order: ImageOrder) -> nat {
    match order {
        ImageOrder::LsbFirst => number(bytes.reverse()),
        _ => number(bytes),
    }
}

/// One colour of a pixel, scaled from the width of its mask to eight bits and
/// rounded to the nearest value.
pub open spec fn scaled(pixel: u32, mask: u32) -> int {
    if mask == 0 {
        0
    } else {
        let low = u32_trailing_zeros(mask);
        let value = (pixel & mask) >> low;
        let max = mask >> low;
        (value * 255 + max as int / 2) / max as int
    }
}

/// A colour scaled to eight bits fits in a byte.
proof fn lemma_scaled(pixel: u32, mask: u32)
    requires
        mask != 0,
    ensures
        u32_trailing_zeros(mask) < 32,
        (mask >> u32_trailing_zeros(mask)) > 0,
        (pixel & mask) >> u32_trailing_zeros(mask) <= mask >> u32_trailing_zeros(mask),
        0 <= scaled(pixel, mask) <= 255,
{
    vstd::std_specs::bits::axiom_u32_trailing_zeros(mask);
    let low: u32 = u32_trailing_zeros(mask);
    assert((mask >> low) & 1u32 == 1u32 ==> (mask >> low) > 0) by (bit_vector);
    assert((pixel & mask) >> low <= mask >> low) by (bit_vector);
    let value = ((pixel & mask) >> low) as int;
    let max = (mask >> low) as int;
    assert(0 <= (value * 255 + max / 2) / max <= 255) by (nonlinear_arith)
        requires
            0 <= value <= max,
            0 < max,
    ;
}

/// One colour of a pixel, scaled to eight bits.
pub fn scale_mask(pixel: u32, mask: u32) -> (level: u8)
    ensures
        level == scaled(pixel, mask),
{
    if mask == 0 {
        return 0;
    }
    proof {
        lemma_scaled(pixel, mask);
    }
    let low: u32 = mask.trailing_zeros();
    let value: u32 = (pixel & mask) >> low;
    let max: u32 = mask >> low;
    let level: u64 = (value as u64 * 255 + (max / 2) as u64) / max as u64;
    level as u8
}

/// A colour that fills its mask is scaled to the full level, and one that has
/// no bit of its mask to none.
pub proof fn scaling_keeps_extremes(pixel: u32, mask: u32)
    requires
        mask != 0,
    ensures
        pixel & mask == mask ==> scaled(pixel, mask) == 255,
        pixel & mask == 0 ==> scaled(pixel, mask) == 0,
{
    lemma_scaled(pixel, mask);
    let low: u32 = u32_trailing_zeros(mask);
    let max = (mask >> low) as int;
    if pixel & mask == mask {
        assert((max * 255 + max / 2) / max == 255) by (nonlinear_arith)
            requires
                max > 0,
        ;
    }
    if pixel & mask == 0 {
        assert(0u32 >> low == 0) by (bit_vector);
        assert((max / 2) / max == 0) by (nonlinear_arith)
            requires
                max > 0,
        ;
    }
}

/// How many bytes hold a pixel.
pub open spec fn pixel_bytes(format: PixelFormat) -> int {
    (format.bits_per_pixel + 7) / 8
}

/// How many bits a row of pixels is padded to a multiple of.
pub open spec fn row_pad(format: PixelFormat) -> int {
    if format.scanline_pad > 8 {
        format.scanline_pad as int
    } else {
        8
    }
}

/// How many bytes a row of pixels takes.
pub open spec fn stride(width: u32, format: PixelFormat) -> int {
    ((width * format.bits_per_pixel + row_pad(format) - 1) / row_pad(format)) * (row_pad(format)
        / 8)
}

/// Why an image cannot be converted, if so.
pub open spec fn conversion_error(
    received: nat,
    width: u32,
    height: u32,
    format: PixelFormat,
) -> Option<(ErrorCode, Seq<char>)> {
    if width == 0 || height == 0 {
        Some((ErrorCode::InvalidInput, "capture dimensions must be non-zero"@))
    } else if !(1 <= pixel_bytes(format) <= 4) {
        Some(
            (
                ErrorCode::UnsupportedCapability,
                "unsupported X11 pixel width: "@ + text::decimal(format.bits_per_pixel as nat)
                    + " bits"@,
            ),
        )
    } else if width * format.bits_per_pixel > usize::MAX || stride(width, format) > usize::MAX
        || stride(width, format) * height > usize::MAX {
        Some((ErrorCode::InvalidInput, "capture is too large"@))
    } else if received < stride(width, format) * height {
        Some(
            (
                ErrorCode::X11,
                "short GetImage reply: expected at least "@ + text::decimal(
                    (stride(width, format) * height) as nat,
                ) + " bytes, received "@ + text::decimal(received),
            ),
        )
    } else if width * height > usize::MAX {
        Some((ErrorCode::InvalidInput, "capture is too large"@))
    } else if format.byte_order is Unknown {
        Some((ErrorCode::UnsupportedCapability, "unknown X11 image byte order"@))
    } else {
        None
    }
}

/// The pixel at a place of an image.
pub open spec fn pixel_at(
    data: Seq<u8>,
    width: u32,
    format: PixelFormat,
    x: int,
    y: int,
) -> u32 {
    let start = y * stride(width, format) + x * pixel_bytes(format);
    pixel_value(data.subrange(start, start + pixel_bytes(format)), format.byte_order) as u32
}

/// One byte of a converted image: red, green and blue of each pixel in turn,
/// pixels from left to right, rows from top to bottom.
pub open spec fn rgb_byte(data: Seq<u8>, width: u32, format: PixelFormat, index: int) -> u8 {
    let place = index / 3;
    let pixel = pixel_at(data, width, format, place % width as int, place / width as int);
    let mask = if index % 3 == 0 {
        format.red_mask
    } else if index % 3 == 1 {
        format.green_mask
    } else {
        format.blue_mask
    };
    scaled(pixel, mask) as u8
}

/// A converted image.
pub open spec fn rgb_image(
    data: Seq<u8>,
    width: u32,
    height: u32,
    format: PixelFormat,
) -> Seq<u8> {
    Seq::new((3 * (width * height)) as nat, |index: int| rgb_byte(data, width, format, index))
}

/// Whether each row of an image holds whole bytes for each of its pixels.
pub open spec fn rows_fit(width: u32, format: PixelFormat) -> bool {
    width * pixel_bytes(format) <= stride(width, format)
}

/// Rows hold whole bytes wherever pixels and padding are of whole bytes.
pub proof fn whole_bytes_fit(width: u32, format: PixelFormat)
    requires
        format.bits_per_pixel % 8 == 0,
        format.scanline_pad % 8 == 0,
    ensures
        rows_fit(width, format),
{
    let bits = width * format.bits_per_pixel;
    let pad = row_pad(format);
    let rows = (bits + pad - 1) / pad;
    let size = format.bits_per_pixel as int / 8;
    assert(bits == 8 * (width * size)) by (nonlinear_arith)
        requires
            bits == width * format.bits_per_pixel,
            format.bits_per_pixel == 8 * size,
    ;
    assert(rows * pad >= bits) by (nonlinear_arith)
        requires
            pad > 0,
            rows == (bits + pad - 1) / pad,
    ;
    assert(rows * pad == 8 * (rows * (pad / 8))) by (nonlinear_arith)
        requires
            pad % 8 == 0,
    ;
}

/// Reads the pixel that starts at a byte.
fn read_pixel(data: &Vec<u8>, start: usize, size: usize, order: ImageOrder) -> (pixel: u32)
    requires
        1 <= size <= 4,
        start + size <= data.len(),
        !(order is Unknown),
    ensures
        pixel == pixel_value(data@.subrange(start as int, start + size), order),
{
    let ghost bytes = data@.subrange(start as int, start + size);
    let ghost ordered = if order is LsbFirst {
        bytes.reverse()
    } else {
        bytes
    };
    let mut pixel: u32 = 0;
    let mut at: usize = 0;
    while at < size
        invariant
            1 <= size <= 4,
            at <= size,
            start + size <= data.len(),
            !(order is Unknown),
            bytes == data@.subrange(start as int, start + size),
            ordered == (if order is LsbFirst {
                bytes.reverse()
            } else {
                bytes
            }),
            pixel == number(ordered.take(at as int)),
            at == 0 ==> pixel == 0,
            at == 1 ==> pixel <= 0xff,
            at == 2 ==> pixel <= 0xffff,
            at == 3 ==> pixel <= 0xff_ffff,
        decreases size - at,
    {
        let byte: u8 = match order {
            ImageOrder::LsbFirst => data[start + (size - 1 - at)],
            _ => data[start + at],
        };
        assert(byte == ordered[at as int]);
        assert(ordered.take(at + 1).drop_last() =~= ordered.take(at as int));
        pixel = pixel * 256 + byte as u32;
        at += 1;
    }
    assert(ordered.take(size as int) =~= ordered);
    pixel
}

/// Divides, rounding up.
fn div_up(n: usize, d: usize) -> (quotient: usize)
    requires
        d > 0,
    ensures
        quotient == (n + d - 1) / d as int,
{
    let whole: usize = n / d;
    let rest: usize = n % d;
    proof {
        assert(n == whole * d + rest) by {
            vstd::arithmetic::div_mod::lemma_fundamental_div_mod(n as int, d as int);
            vstd::arithmetic::mul::lemma_mul_is_commutative(whole as int, d as int);
        }
        if rest == 0 {
            lemma_fundamental_div_mod_converse(n + d - 1, d as int, whole as int, d - 1);
        } else {
            assert((whole + 1) * d == whole * d + d) by (nonlinear_arith);
            lemma_fundamental_div_mod_converse(n + d - 1, d as int, whole + 1, rest - 1);
            assert(whole < usize::MAX) by (nonlinear_arith)
                requires
                    n == whole * d + rest,
                    rest > 0,
                    d > 0,
                    n <= usize::MAX,
            ;
        }
    }
    if rest == 0 {
        whole
    } else {
        whole + 1
    }
}

/// How many bytes a row of an image takes, or why the image cannot be
/// converted.
fn check_conversion(received: usize, width: u32, height: u32, format: PixelFormat) -> (result:
    Result<usize, ControllerError>)
    ensures
        match (result, conversion_error(received as nat, width, height, format)) {
            (Ok(row), None) => row == stride(width, format),
            (Err(e), Some((code, message))) => error::final_error(e, code, message),
            _ => false,
        },
{
    if width == 0 || height == 0 {
        return Err(
            ControllerError::new(ErrorCode::InvalidInput, "capture dimensions must be non-zero"),
        );
    }
    let size: usize = (format.bits_per_pixel as usize + 7) / 8;
    if size < 1 || size > 4 {
        let bits = format_decimal(format.bits_per_pixel as u64);
        return Err(
            error3(
                ErrorCode::UnsupportedCapability,
                "unsupported X11 pixel width: ",
                bits.as_str(),
                " bits",
            ),
        );
    }
    let row_bits = match (width as usize).checked_mul(format.bits_per_pixel as usize) {
        Some(bits) => bits,
        None => {
            return Err(ControllerError::new(ErrorCode::InvalidInput, "capture is too large"));
        },
    };
    let pad: usize = if format.scanline_pad > 8 {
        format.scanline_pad as usize
    } else {
        8
    };
    let row: usize = match div_up(row_bits, pad).checked_mul(pad / 8) {
        Some(row) => row,
        None => {
            return Err(ControllerError::new(ErrorCode::InvalidInput, "capture is too large"));
        },
    };
    let expected: usize = match row.checked_mul(height as usize) {
        Some(expected) => expected,
        None => {
            return Err(ControllerError::new(ErrorCode::InvalidInput, "capture is too large"));
        },
    };
    if received < expected {
        let wanted = format_decimal(expected as u64);
        let count = format_decimal(received as u64);
        let message = "short GetImage reply: expected at least ".to_owned().concat(
            wanted.as_str(),
        ).concat(" bytes, received ");
        return Err(error2(ErrorCode::X11, message.as_str(), count.as_str()));
    }
    if (width as usize).checked_mul(height as usize).is_none() {
        return Err(ControllerError::new(ErrorCode::InvalidInput, "capture is too large"));
    }
    if let ImageOrder::Unknown = format.byte_order {
        return Err(
            ControllerError::new(ErrorCode::UnsupportedCapability, "unknown X11 image byte order"),
        );
    }
    Ok(row)
}

/// Converts an image to rows of red, green and blue bytes.
pub fn convert_to_rgb(data: &Vec<u8>, width: u32, height: u32, format: PixelFormat) -> (result:
    Result<Vec<u8>, ControllerError>)
    requires
        conversion_error(data@.len(), width, height, format) is None ==> rows_fit(width, format),
    ensures
        match (result, conversion_error(data@.len(), width, height, format)) {
            (Ok(rgb), None) => rgb@ == rgb_image(data@, width, height, format),
            (Err(e), Some((code, message))) => error::final_error(e, code, message),
            _ => false,
        },
{
    let row: usize = match check_conversion(data.len(), width, height, format) {
        Ok(row) => row,
        Err(e) => {
            return Err(e);
        },
    };
    let size: usize = (format.bits_per_pixel as usize + 7) / 8;
    let ghost image = rgb_image(data@, width, height, format);
    assert(0 <= width * height) by (nonlinear_arith);
    let mut rgb: Vec<u8> = Vec::new();
    let mut y: u32 = 0;
    while y < height
        invariant
            y <= height,
            0 < width,
            size == pixel_bytes(format),
            1 <= size <= 4,
            row == stride(width, format),
            width * size <= row,
            row * height <= data.len(),
            !(format.byte_order is Unknown),
            image == rgb_image(data@, width, height, format),
            rgb@.len() == 3 * (y * width),
            rgb@ == image.take(rgb@.len() as int),
            rgb@.len() <= image.len(),
            image.len() == 3 * (width * height),
        decreases height - y,
    {
        let mut x: u32 = 0;
        assert(y * row + row <= row * height) by (nonlinear_arith)
            requires
                y < height,
                0 <= row,
        ;
        while x < width
            invariant
                y < height,
                x <= width,
                0 < width,
                size == pixel_bytes(format),
                1 <= size <= 4,
                row == stride(width, format),
                width * size <= row,
                y * row + row <= row * height,
                row * height <= data.len(),
                !(format.byte_order is Unknown),
                image == rgb_image(data@, width, height, format),
                rgb@.len() == 3 * (y * width + x),
                rgb@ == image.take(rgb@.len() as int),
                rgb@.len() <= image.len(),
                image.len() == 3 * (width * height),
            decreases width - x,
        {
            proof {
                assert(x * size + size <= width * size) by (nonlinear_arith)
                    requires
                        x < width,
                        0 <= size,
                ;
                assert(y * width + x + 1 <= width * height) by (nonlinear_arith)
                    requires
                        x < width,
                        y < height,
                ;
                assert(0 <= x * size) by (nonlinear_arith);
                assert(0 <= y * row) by (nonlinear_arith)
                    requires
                        0 <= row,
                ;
                assert(0 <= y * width) by (nonlinear_arith);
            }
            let start: usize = y as usize * row + x as usize * size;
            let pixel = read_pixel(data, start, size, format.byte_order);
            proof {
                let place = y * width + x;
                lemma_fundamental_div_mod_converse(place, width as int, y as int, x as int);
                assert(pixel == pixel_at(data@, width, format, x as int, y as int));
                assert(image[3 * place] == rgb_byte(data@, width, format, 3 * place));
                assert(image[3 * place + 1] == rgb_byte(data@, width, format, 3 * place + 1));
                assert(image[3 * place + 2] == rgb_byte(data@, width, format, 3 * place + 2));
            }
            rgb.push(scale_mask(pixel, format.red_mask));
            rgb.push(scale_mask(pixel, format.green_mask));
            rgb.push(scale_mask(pixel, format.blue_mask));
            assert(rgb@ =~= image.take(rgb@.len() as int));
            x += 1;
        }
        assert(y * width + width == (y + 1) * width) by (nonlinear_arith);
        y += 1;
    }
    assert(height * width == width * height) by (nonlinear_arith);
    assert(image.take(image.len() as int) =~= image);
    Ok(rgb)
}

/// What the PNG encoder makes of an image of eight-bit red, green and blue.
pub uninterp spec fn png_file(rgb: Seq<u8>, width: u32, height: u32) -> Result<
    Seq<u8>,
    Seq<char>,
>;

/// The bytes or the message of an encoding.
pub open spec fn encoding(result: Result<Vec<u8>, String>) -> Result<Seq<u8>, Seq<char>> {
    match result {
        Ok(bytes) => Ok(bytes@),
        Err(message) => Err(message@),
    }
}

/// Why the PNG encoder refuses an image of some size, if so: it has no pixels,
/// or there are too few or too many bytes for them.
pub open spec fn png_refusal(received: nat, width: u32, height: u32) -> Option<Seq<char>> {
    if width == 0 {
        Some("Zero width not allowed"@)
    } else if height == 0 {
        Some("Zero height not allowed"@)
    } else if received != 3 * (width * height) {
        Some(
            "wrong data size, expected "@ + text::decimal((3 * (width * height)) as nat)
                + " got "@ + text::decimal(received),
        )
    } else {
        None
    }
}

/// Whether the size of an image can be counted in bytes: it is that of its
/// data, or the numbers of bytes in a row and in all rows do not overflow.
pub open spec fn countable(received: nat, width: u32, height: u32) -> bool {
    ||| received == 3 * (width * height)
    ||| width == 0
    ||| height == 0
    ||| 3 * width < usize::MAX && 3 * (width * height) <= usize::MAX
}

/// `png::Encoder::write_header` and `png::Writer::write_image_data` on an
/// image of colour type `Rgb` and depth `Eight`. What they write depends on
/// the image alone; a failure is handed on as its message. An image without
/// pixels, or with the wrong number of bytes for them, is refused. The encoder
/// counts the bytes of a row and of all rows without a check.
#[verifier::external_body]
pub(crate) fn write_png(rgb: &Vec<u8>, width: u32, height: u32) -> (result: Result<
    Vec<u8>,
    String,
>)
    requires
        countable(rgb@.len(), width, height),
    ensures
        encoding(result) == png_file(rgb@, width, height),
        png_refusal(rgb@.len(), width, height) matches Some(message) ==> result is Err
            && result->Err_0@ == message,
{
    let mut output = Vec::new();
    let mut encoder = png::Encoder::new(&mut output, width, height);
    encoder.set_color(png::ColorType::Rgb);
    encoder.set_depth(png::BitDepth::Eight);
    let mut writer = encoder.write_header().map_err(|error| error.to_string())?;
    writer.write_image_data(rgb).map_err(|error| error.to_string())?;
    drop(writer);
    Ok(output)
}

/// The file that an encoder wrote, or its failure as an internal error.
pub fn encoded(result: Result<Vec<u8>, String>) -> (png: Result<Vec<u8>, ControllerError>)
    ensures
        match (png, encoding(result)) {
            (Ok(file), Ok(bytes)) => file@ == bytes,
            (Err(e), Err(message)) => error::final_error(e, ErrorCode::Internal, message),
            _ => false,
        },
{
    match result {
        Ok(bytes) => Ok(bytes),
        Err(message) => Err(ControllerError::new(ErrorCode::Internal, message.as_str())),
    }
}

/// Encodes an image of eight-bit red, green and blue as a PNG file. An image
/// without pixels, or with the wrong number of bytes, is an internal error.
pub fn encode_png(rgb: &Vec<u8>, width: u32, height: u32) -> (png: Result<
    Vec<u8>,
    ControllerError,
>)
    requires
        countable(rgb@.len(), width, height),
    ensures
        match (png, png_file(rgb@, width, height)) {
            (Ok(file), Ok(bytes)) => file@ == bytes,
            (Err(e), Err(message)) => error::final_error(e, ErrorCode::Internal, message),
            _ => false,
        },
        png_refusal(rgb@.len(), width, height) matches Some(message) ==> png is Err
            && error::final_error(png->Err_0, ErrorCode::Internal, message),
{
    encoded(write_png(rgb, width, height))
}

/// The rectangle of a capture in the number widths of the X11 protocol.
#[derive(Debug, Clone, Copy, PartialEq, Eq, Structural)]
pub struct CaptureArea {
    pub x: i16,
    pub y: i16,
    pub width: u16,
    pub height: u16,
}

/// Why some bounds cannot be captured, if so.
pub open spec fn area_error(bounds: Geometry) -> Option<Seq<char>> {
    if !(-32768 <= bounds.x <= 32767) {
        Some("capture x coordinate is out of range"@)
    } else if !(-32768 <= bounds.y <= 32767) {
        Some("capture y coordinate is out of range"@)
    } else if bounds.width > 65535 {
        Some("capture width is out of range"@)
    } else if bounds.height > 65535 {
        Some("capture height is out of range"@)
    } else {
        None
    }
}

/// The rectangle to ask the display for.
pub fn capture_area(bounds: Geometry) -> (result: Result<CaptureArea, ControllerError>)
    ensures
        match (result, area_error(bounds)) {
            (Ok(area), None) => area.x == bounds.x && area.y == bounds.y && area.width
                == bounds.width && area.height == bounds.height,
            (Err(e), Some(message)) => error::final_error(e, ErrorCode::InvalidInput, message),
            _ => false,
        },
{
    if bounds.x < -32768 || bounds.x > 32767 {
        return Err(
            ControllerError::new(ErrorCode::InvalidInput, "capture x coordinate is out of range"),
        );
    }
    if bounds.y < -32768 || bounds.y > 32767 {
        return Err(
            ControllerError::new(ErrorCode::InvalidInput, "capture y coordinate is out of range"),
        );
    }
    if bounds.width > 65535 {
        return Err(ControllerError::new(ErrorCode::InvalidInput, "capture width is out of range"));
    }
    if bounds.height > 65535 {
        return Err(
            ControllerError::new(ErrorCode::InvalidInput, "capture height is out of range"),
        );
    }
    Ok(
        CaptureArea {
            x: bounds.x as i16,
            y: bounds.y as i16,
            width: bounds.width as u16,
            height: bounds.height as u16,
        },
    )
}

/// How the display lays out images of a depth.
#[derive(Debug, Clone, Copy, PartialEq, Eq, Structural)]
pub struct PixmapFormat {
    pub depth: u8,
    pub bits_per_pixel: u8,
    pub scanline_pad: u8,
}

/// The colour masks of a visual.
#[derive(Debug, Clone, Copy, PartialEq, Eq, Structural)]
pub struct Visual {
    pub visual_id: u32,
    pub red_mask: u32,
    pub green_mask: u32,
    pub blue_mask: u32,
}

/// The visuals of a depth.
#[derive(Debug)]
pub struct DepthVisuals {
    pub depth: u8,
    pub visuals: Vec<Visual>,
}

/// What the display says of its images.
#[derive(Debug)]
pub struct ImageSetup {
    pub byte_order: ImageOrder,
    pub pixmap_formats: Vec<PixmapFormat>,
    pub allowed_depths: Vec<DepthVisuals>,
    pub root_visual: u32,
}

/// The first layout for a depth, from a place on.
pub open spec fn layout_for(formats: Seq<PixmapFormat>, depth: u8, from: int) -> Option<
    PixmapFormat,
>
    decreases formats.len() - from,
{
    if from >= formats.len() {
        None
    } else if formats[from].depth == depth {
        Some(formats[from])
    } else {
        layout_for(formats, depth, from + 1)
    }
}

/// The first visual with an identifier, from a place on.
pub open spec fn visual_by_id(visuals: Seq<Visual>, id: u32, from: int) -> Option<Visual>
    decreases visuals.len() - from,
{
    if from >= visuals.len() {
        None
    } else if visuals[from].visual_id == id {
        Some(visuals[from])
    } else {
        visual_by_id(visuals, id, from + 1)
    }
}

/// The visual for a depth: of the first entry for the depth, the root visual
/// where it is listed, else the first.
pub open spec fn visual_for(
    depths: Seq<DepthVisuals>,
    depth: u8,
    root_visual: u32,
    from: int,
) -> Option<Visual>
    decreases depths.len() - from,
{
    if from >= depths.len() {
        None
    } else if depths[from].depth == depth {
        let visuals = depths[from].visuals@;
        match visual_by_id(visuals, root_visual, 0) {
            Some(visual) => Some(visual),
            None => if visuals.len() > 0 {
                Some(visuals[0])
            } else {
                None
            },
        }
    } else {
        visual_for(depths, depth, root_visual, from + 1)
    }
}

/// The pixel format of an image of a depth, or why there is none.
pub open spec fn format_of(setup: ImageSetup, depth: u8) -> Result<PixelFormat, Seq<char>> {
    match layout_for(setup.pixmap_formats@, depth, 0) {
        None => Err("no pixel format for depth "@ + text::decimal(depth as nat)),
        Some(layout) => match visual_for(setup.allowed_depths@, depth, setup.root_visual, 0) {
            None => Err("no visual for depth "@ + text::decimal(depth as nat)),
            Some(visual) => Ok(
                PixelFormat {
                    bits_per_pixel: layout.bits_per_pixel,
                    scanline_pad: layout.scanline_pad,
                    byte_order: setup.byte_order,
                    red_mask: visual.red_mask,
                    green_mask: visual.green_mask,
                    blue_mask: visual.blue_mask,
                },
            ),
        },
    }
}

/// The first layout for a depth.
fn find_layout(formats: &Vec<PixmapFormat>, depth: u8) -> (layout: Option<PixmapFormat>)
    ensures
        layout == layout_for(formats@, depth, 0),
{
    let mut at: usize = 0;
    while at < formats.len()
        invariant
            at <= formats.len(),
            layout_for(formats@, depth, 0) == layout_for(formats@, depth, at as int),
        decreases formats.len() - at,
    {
        if formats[at].depth == depth {
            return Some(formats[at]);
        }
        at += 1;
    }
    None
}

/// The first visual with an identifier.
fn find_visual_by_id(visuals: &Vec<Visual>, id: u32) -> (visual: Option<Visual>)
    ensures
        visual == visual_by_id(visuals@, id, 0),
{
    let mut at: usize = 0;
    while at < visuals.len()
        invariant
            at <= visuals.len(),
            visual_by_id(visuals@, id, 0) == visual_by_id(visuals@, id, at as int),
        decreases visuals.len() - at,
    {
        if visuals[at].visual_id == id {
            return Some(visuals[at]);
        }
        at += 1;
    }
    None
}

/// The visual for a depth.
fn find_visual(depths: &Vec<DepthVisuals>, depth: u8, root_visual: u32) -> (visual: Option<Visual>)
    ensures
        visual == visual_for(depths@, depth, root_visual, 0),
{
    let mut at: usize = 0;
    while at < depths.len()
        invariant
            at <= depths.len(),
            visual_for(depths@, depth, root_visual, 0) == visual_for(
                depths@,
                depth,
                root_visual,
                at as int,
            ),
        decreases depths.len() - at,
    {
        if depths[at].depth == depth {
            let visuals = &depths[at].visuals;
            return match find_visual_by_id(visuals, root_visual) {
                Some(visual) => Some(visual),
                None => {
                    if visuals.len() > 0 {
                        Some(visuals[0])
                    } else {
                        None
                    }
                },
            };
        }
        at += 1;
    }
    None
}

/// The pixel format of an image of a depth.
pub fn pixel_format(setup: &ImageSetup, depth: u8) -> (result: Result<PixelFormat, ControllerError>)
    ensures
        match (result, format_of(*setup, depth)) {
            (Ok(format), Ok(expected)) => format == expected,
            (Err(e), Err(message)) => error::final_error(
                e,
                ErrorCode::UnsupportedCapability,
                message,
            ),
            _ => false,
        },
{
    let layout = match find_layout(&setup.pixmap_formats, depth) {
        Some(layout) => layout,
        None => {
            let number = format_decimal(depth as u64);
            return Err(
                error2(
                    ErrorCode::UnsupportedCapability,
                    "no pixel format for depth ",
                    number.as_str(),
                ),
            );
        },
    };
    let visual = match find_visual(&setup.allowed_depths, depth, setup.root_visual) {
        Some(visual) => visual,
        None => {
            let number = format_decimal(depth as u64);
            return Err(
                error2(ErrorCode::UnsupportedCapability, "no visual for depth ", number.as_str()),
            );
        },
    };
    Ok(
        PixelFormat {
            bits_per_pixel: layout.bits_per_pixel,
            scanline_pad: layout.scanline_pad,
            byte_order: setup.byte_order,
            red_mask: visual.red_mask,
            green_mask: visual.green_mask,
            blue_mask: visual.blue_mask,
        },
    )
}

/// A captured image: its pixels, and the PNG file of them.
#[derive(Debug)]
pub struct CapturedImage {
    pub rgb: Vec<u8>,
    pub png: Vec<u8>,
}

/// Whether the image data of a reply can be read pixel by pixel.
pub open spec fn readable(setup: ImageSetup, depth: u8, received: nat, bounds: Geometry) -> bool {
    match format_of(setup, depth) {
        Ok(format) => conversion_error(received, bounds.width, bounds.height, format) is None
            ==> rows_fit(bounds.width, format),
        Err(_) => true,
    }
}

/// Whether the image data of a reply can be read pixel by pixel.
pub fn is_readable(received: usize, depth: u8, bounds: Geometry, setup: &ImageSetup) -> (fits: bool)
    ensures
        fits == readable(*setup, depth, received as nat, bounds),
{
    let format = match pixel_format(setup, depth) {
        Ok(format) => format,
        Err(_) => {
            return true;
        },
    };
    match check_conversion(received, bounds.width, bounds.height, format) {
        Ok(row) => {
            let size: u64 = (format.bits_per_pixel as u64 + 7) / 8;
            assert(bounds.width * size <= 0xffff_ffff * 4) by (nonlinear_arith)
                requires
                    bounds.width <= 0xffff_ffff,
                    size <= 4,
            ;
            bounds.width as u64 * size <= row as u64
        },
        Err(_) => true,
    }
}

/// Turns the image data that the display returned for some bounds into an image.
pub fn convert_capture(data: &Vec<u8>, depth: u8, bounds: Geometry, setup: &ImageSetup) -> (result:
    Result<CapturedImage, ControllerError>)
    requires
        readable(*setup, depth, data@.len(), bounds),
    ensures
        match format_of(*setup, depth) {
            Err(message) => result is Err && error::final_error(
                result->Err_0,
                ErrorCode::UnsupportedCapability,
                message,
            ),
            Ok(format) => match conversion_error(data@.len(), bounds.width, bounds.height, format) {
                Some((code, message)) => result is Err && error::final_error(
                    result->Err_0,
                    code,
                    message,
                ),
                None => {
                    let rgb = rgb_image(data@, bounds.width, bounds.height, format);
                    match (result, png_file(rgb, bounds.width, bounds.height)) {
                        (Ok(image), Ok(bytes)) => image.rgb@ == rgb && image.png@ == bytes,
                        (Err(e), Err(message)) => error::final_error(
                            e,
                            ErrorCode::Internal,
                            message,
                        ),
                        _ => false,
                    }
                },
            },
        },
{
    let format = match pixel_format(setup, depth) {
        Ok(format) => format,
        Err(e) => {
            return Err(e);
        },
    };
    let rgb = match convert_to_rgb(data, bounds.width, bounds.height, format) {
        Ok(rgb) => rgb,
        Err(e) => {
            return Err(e);
        },
    };
    assert(0 <= bounds.width * bounds.height) by (nonlinear_arith);
    match encode_png(&rgb, bounds.width, bounds.height) {
        Ok(png) => Ok(CapturedImage { rgb, png }),
        Err(e) => Err(e),
    }
}

/// A colour is scaled to the nearest of 256 levels: no other level is nearer
/// to its share of the greatest value of its mask.
pub proof fn scaling_rounds_to_the_nearest_level(pixel: u32, mask: u32, level: u8)
    requires
        call_ensures(scale_mask, (pixel, mask), level),
    ensures
        mask == 0 ==> level == 0,
        mask != 0 ==> {
            let low = u32_trailing_zeros(mask);
            let value = ((pixel & mask) >> low) as int;
            let max = (mask >> low) as int;
            &&& 0 <= value <= max
            &&& 2 * (value * 255 - level * max) <= max
            &&& 2 * (level * max - value * 255) <= max
        },
{
    if mask != 0 {
        lemma_scaled(pixel, mask);
        let low: u32 = u32_trailing_zeros(mask);
        let value = ((pixel & mask) >> low) as int;
        let max = (mask >> low) as int;
        let sum = value * 255 + max / 2;
        vstd::arithmetic::div_mod::lemma_fundamental_div_mod(sum, max);
        assert(level * max == max * (sum / max)) by (nonlinear_arith)
            requires
                level == sum / max,
        ;
        assert(0 <= sum % max < max) by (nonlinear_arith)
            requires
                max > 0,
        ;
    }
}

/// A pixel is read from its bytes in the order of the image: least significant
/// first, or most significant first.
pub proof fn pixels_are_read_in_byte_order(bytes: Seq<u8>, byte: u8)
    ensures
        pixel_value(bytes + seq![byte], ImageOrder::MsbFirst) == pixel_value(
            bytes,
            ImageOrder::MsbFirst,
        ) * 256 + byte,
        pixel_value(seq![byte] + bytes, ImageOrder::LsbFirst) == pixel_value(
            bytes,
            ImageOrder::LsbFirst,
        ) * 256 + byte,
        pixel_value(Seq::<u8>::empty(), ImageOrder::MsbFirst) == 0,
        pixel_value(Seq::<u8>::empty(), ImageOrder::LsbFirst) == 0,
{
    assert((bytes + seq![byte]).drop_last() =~= bytes);
    let turned = (seq![byte] + bytes).reverse();
    assert(turned.drop_last() =~= bytes.reverse());
    assert(turned.last() == byte);
    assert(Seq::<u8>::empty().reverse() =~= Seq::<u8>::empty());
}

/// A row of an image takes the fewest bytes that hold its pixels and are a
/// multiple of its padding.
pub proof fn rows_are_padded_no_more_than_needed(width: u32, format: PixelFormat)
    requires
        format.scanline_pad % 8 == 0,
    ensures
        ({
            let bits = width * format.bits_per_pixel;
            let pad = if format.scanline_pad > 8 {
                format.scanline_pad as int
            } else {
                8
            };
            &&& 8 * stride(width, format) >= bits
            &&& 8 * stride(width, format) < bits + pad
            &&& (8 * stride(width, format)) % pad == 0
        }),
{
    let bits = width * format.bits_per_pixel;
    let pad = row_pad(format);
    let rows = (bits + pad - 1) / pad;
    assert(rows * pad == 8 * (rows * (pad / 8))) by (nonlinear_arith)
        requires
            pad % 8 == 0,
    ;
    vstd::arithmetic::div_mod::lemma_fundamental_div_mod(bits + pad - 1, pad);
    assert(rows * pad == pad * rows) by (nonlinear_arith);
    vstd::arithmetic::div_mod::lemma_mod_multiples_basic(rows, pad);
}

/// A converted image holds the red, the green and the blue of each pixel in
/// turn, rows from the top and pixels from the left, each scaled from the pixel
/// that stands there in the data.
pub proof fn converted_images_hold_every_pixel(
    data: Vec<u8>,
    width: u32,
    height: u32,
    format: PixelFormat,
    rgb: Vec<u8>,
    x: int,
    y: int,
)
    requires
        call_ensures(
            convert_to_rgb,
            (&data, width, height, format),
            Ok::<Vec<u8>, ControllerError>(rgb),
        ),
        0 <= x < width,
        0 <= y < height,
    ensures
        rgb@.len() == 3 * (width * height),
        ({
            let size = (format.bits_per_pixel + 7) / 8;
            let start = y * stride(width, format) + x * size;
            let pixel = pixel_value(
                data@.subrange(start, start + size),
                format.byte_order,
            ) as u32;
            let at = 3 * (y * width + x);
            &&& 0 <= at && at + 2 < rgb@.len()
            &&& rgb@[at] == scaled(pixel, format.red_mask) as u8
            &&& rgb@[at + 1] == scaled(pixel, format.green_mask) as u8
            &&& rgb@[at + 2] == scaled(pixel, format.blue_mask) as u8
        }),
{
    let place = y * width + x;
    assert(0 <= width * height) by (nonlinear_arith);
    assert(0 <= place && place + 1 <= width * height) by (nonlinear_arith)
        requires
            place == y * width + x,
            0 <= x < width,
            0 <= y < height,
    ;
    lemma_fundamental_div_mod_converse(place, width as int, y, x);
    let image = rgb_image(data@, width, height, format);
    assert(image[3 * place] == rgb_byte(data@, width, format, 3 * place));
    assert(image[3 * place + 1] == rgb_byte(data@, width, format, 3 * place + 1));
    assert(image[3 * place + 2] == rgb_byte(data@, width, format, 3 * place + 2));
}

/// An image is converted exactly where it has pixels of one to four bytes in a
/// known order, its size can be counted, and its data is all there.
pub proof fn whole_images_are_converted(
    data: Vec<u8>,
    width: u32,
    height: u32,
    format: PixelFormat,
    result: Result<Vec<u8>, ControllerError>,
)
    requires
        call_ensures(convert_to_rgb, (&data, width, height, format), result),
    ensures
        ({
            let row = stride(width, format);
            let counted = width * format.bits_per_pixel <= usize::MAX && row <= usize::MAX && row
                * height <= usize::MAX && width * height <= usize::MAX;
            &&& result is Ok <==> width > 0 && height > 0 && 1 <= format.bits_per_pixel <= 32
                && counted && data@.len() >= row * height && !(format.byte_order is Unknown)
            &&& result is Err && width > 0 && height > 0 && 1 <= format.bits_per_pixel <= 32
                && counted && data@.len() < row * height ==> result->Err_0.code == ErrorCode::X11
        }),
{
}

/// The format of an image is the layout of its depth and the masks of the
/// visual for it: the root visual where the depth has it, and else its first.
pub proof fn formats_come_from_the_depth(
    setup: ImageSetup,
    depth: u8,
    format: PixelFormat,
)
    requires
        call_ensures(
            pixel_format,
            (&setup, depth),
            Ok::<PixelFormat, ControllerError>(format),
        ),
    ensures
        format.byte_order == setup.byte_order,
        exists|i: int|
            0 <= i < setup.pixmap_formats@.len() && (#[trigger] setup.pixmap_formats@[i]).depth
                == depth && format.bits_per_pixel == setup.pixmap_formats@[i].bits_per_pixel
                && format.scanline_pad == setup.pixmap_formats@[i].scanline_pad,
        exists|i: int, j: int|
            0 <= i < setup.allowed_depths@.len() && setup.allowed_depths@[i].depth == depth && 0
                <= j < setup.allowed_depths@[i].visuals@.len() && {
                let visuals = setup.allowed_depths@[i].visuals@;
                let visual = #[trigger] setup.allowed_depths@[i].visuals@[j];
                &&& format.red_mask == visual.red_mask
                &&& format.green_mask == visual.green_mask
                &&& format.blue_mask == visual.blue_mask
                &&& visual.visual_id == setup.root_visual || (j == 0 && forall|k: int|
                    0 <= k < visuals.len() ==> (#[trigger] visuals[k]).visual_id
                        != setup.root_visual)
            },
{
    lemma_layout(setup.pixmap_formats@, depth, 0);
    lemma_visual(setup.allowed_depths@, depth, setup.root_visual, 0);
}

/// Where a search for a layout ends.
proof fn lemma_layout(formats: Seq<PixmapFormat>, depth: u8, from: int)
    requires
        0 <= from,
    ensures
        layout_for(formats, depth, from) matches Some(layout) ==> exists|i: int|
            from <= i < formats.len() && layout == #[trigger] formats[i] && formats[i].depth
                == depth,
    decreases formats.len() - from,
{
    if from < formats.len() && formats[from].depth != depth {
        lemma_layout(formats, depth, from + 1);
    }
}

/// Where a search for a visual by its identifier ends.
proof fn lemma_visual_by_id(visuals: Seq<Visual>, id: u32, from: int)
    requires
        0 <= from,
    ensures
        match visual_by_id(visuals, id, from) {
            Some(visual) => exists|j: int|
                from <= j < visuals.len() && visual == #[trigger] visuals[j]
                    && visuals[j].visual_id == id,
            None => forall|j: int|
                from <= j < visuals.len() ==> (#[trigger] visuals[j]).visual_id != id,
        },
    decreases visuals.len() - from,
{
    if from < visuals.len() && visuals[from].visual_id != id {
        lemma_visual_by_id(visuals, id, from + 1);
    }
}

/// Where a search for a visual ends.
proof fn lemma_visual(depths: Seq<DepthVisuals>, depth: u8, root_visual: u32, from: int)
    requires
        0 <= from,
    ensures
        visual_for(depths, depth, root_visual, from) matches Some(visual) ==> exists|i: int, j: int|
            from <= i < depths.len() && depths[i].depth == depth && 0 <= j
                < depths[i].visuals@.len() && visual == #[trigger] depths[i].visuals@[j] && (
            visual.visual_id == root_visual || (j == 0 && forall|k: int|
                0 <= k < depths[i].visuals@.len() ==> (#[trigger] depths[i].visuals@[k]).visual_id
                    != root_visual)),
    decreases depths.len() - from,
{
    if from < depths.len() {
        if depths[from].depth == depth {
            let visuals = depths[from].visuals@;
            lemma_visual_by_id(visuals, root_visual, 0);
            if let Some(visual) = visual_for(depths, depth, root_visual, from) {
                match visual_by_id(visuals, root_visual, 0) {
                    Some(found) => {
                        let j = choose|j: int|
                            0 <= j < visuals.len() && found == #[trigger] visuals[j]
                                && visuals[j].visual_id == root_visual;
                        assert(visual == depths[from].visuals@[j]);
                    },
                    None => {
                        assert(visual == depths[from].visuals@[0]);
                    },
                }
            }
        } else {
            lemma_visual(depths, depth, root_visual, from + 1);
        }
    }
}

/// The display is asked for exactly the bounds of a capture, where the protocol
/// can hold them.
pub proof fn captures_ask_for_their_bounds(
    bounds: Geometry,
    result: Result<CaptureArea, ControllerError>,
)
    requires
        call_ensures(capture_area, (bounds,), result),
    ensures
        result is Ok <==> -32768 <= bounds.x <= 32767 && -32768 <= bounds.y <= 32767
            && bounds.width <= 65535 && bounds.height <= 65535,
        result matches Ok(area) ==> area.x == bounds.x && area.y == bounds.y && area.width
            == bounds.width && area.height == bounds.height,
        result is Err ==> result->Err_0.code == ErrorCode::InvalidInput,
{
}

/// A captured image is the converted data, and its file is the encoding of
/// exactly those pixels at the size of the bounds.
pub proof fn captured_files_show_the_captured_pixels(
    data: Vec<u8>,
    depth: u8,
    bounds: Geometry,
    setup: ImageSetup,
    image: CapturedImage,
)
    requires
        call_ensures(
            convert_capture,
            (&data, depth, bounds, &setup),
            Ok::<CapturedImage, ControllerError>(image),
        ),
    ensures
        format_of(setup, depth) is Ok,
        image.rgb@ == rgb_image(
            data@,
            bounds.width,
            bounds.height,
            format_of(setup, depth)->Ok_0,
        ),
        png_file(image.rgb@, bounds.width, bounds.height) == Ok::<Seq<u8>, Seq<char>>(image.png@),
{
}

} // verus!
