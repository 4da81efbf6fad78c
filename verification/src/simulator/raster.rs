//! Minimal PWG-Raster decoder, just enough to turn what inkdrop sends back
//! into viewable pictures. It reads the header layout that inkdrop's own
//! encoder writes, with lines compressed as that encoder compresses them or
//! not compressed at all; it is not a general-purpose raster reader.

use vstd::prelude::*;

use crate::compression::{
    compressed_page, law_page_round_trip, lemma_unpacked_lines_extends, lemma_unpacked_lines_rest,
    put_repeated, repeated, unpack_lines, unpacked_line, unpacked_lines,
};
use crate::pdf::RenderedPage;
use crate::raster::{
    be_bytes, encoded, grayscale, header_bytes, header_word, is_encodable,
    law_gray_is_the_brightness_in_place, law_header_layout, number_in, page_bytes, page_count,
    page_pixels, pages_bytes, sync_word, ColorMode, CUPS_CSPACE_SRGB, CUPS_CSPACE_SW, HEADER_LEN,
};
use crate::text::{decimal, push_decimal};

verus! {

/// One decoded page.
pub struct Page {
    /// Width in pixels.
    pub width: u32,
    /// Height in pixels.
    pub height: u32,
    /// Packed RGB8, row-major, 3 bytes per pixel.
    pub rgb: Vec<u8>,
}

/// What a [`Page`] holds.
#[verifier::ext_equal]
pub struct PageView {
    pub width: u32,
    pub height: u32,
    pub rgb: Seq<u8>,
}

impl View for Page {
    type V = PageView;

    open spec fn view(&self) -> PageView {
        PageView { width: self.width, height: self.height, rgb: self.rgb@ }
    }
}

/// Why a raster document couldn't be decoded.
#[derive(Clone, Copy, Debug, PartialEq, Eq, Structural)]
pub enum DecodeError {
    /// The document doesn't start with the sync word.
    BadSync,
    /// There is no complete page header.
    TruncatedHeader,
    /// A page has fewer bytes than its header says, or a line of it fewer
    /// than its pixels take.
    TruncatedData { expected: u64, got: u64 },
    /// The page isn't 8-bit sRGB or 8-bit greyscale.
    UnsupportedColorspace(u32),
}

impl DecodeError {
    /// The error as text.
    pub open spec fn message(self) -> Seq<char> {
        match self {
            DecodeError::BadSync => "not a PWG-Raster file (missing 'RaS2' sync word)"@,
            DecodeError::TruncatedHeader => "truncated page header"@,
            DecodeError::TruncatedData { expected, got } => "truncated page data: expected "@
                + decimal(expected as nat) + " bytes, got "@ + decimal(got as nat),
            DecodeError::UnsupportedColorspace(code) => "unsupported colorspace code "@ + decimal(
                code as nat,
            ),
        }
    }

    /// The error as text.
    pub fn to_string(&self) -> (text: String)
        ensures
            text@ == self.message(),
    {
        match self {
            DecodeError::BadSync => "not a PWG-Raster file (missing 'RaS2' sync word)".to_owned(),
            DecodeError::TruncatedHeader => "truncated page header".to_owned(),
            DecodeError::TruncatedData { expected, got } => {
                let mut text = "truncated page data: expected ".to_owned();
                push_decimal(&mut text, *expected);
                text.append(" bytes, got ");
                push_decimal(&mut text, *got);
                text
            },
            DecodeError::UnsupportedColorspace(code) => {
                let mut text = "unsupported colorspace code ".to_owned();
                push_decimal(&mut text, *code as u64);
                text
            },
        }
    }
}

/// What a page header says of the page's data.
#[derive(Clone, Copy, PartialEq, Eq, Structural)]
pub struct Header {
    pub width: u32,
    pub height: u32,
    pub bits_per_color: u32,
    pub bytes_per_line: u32,
    pub colorspace: u32,
}

/// The big-endian word at `offset`.
pub open spec fn word_at(bytes: Seq<u8>, offset: int) -> u32 {
    (bytes[offset] * 0x100_0000 + bytes[offset + 1] * 0x1_0000 + bytes[offset + 2] * 0x100
        + bytes[offset + 3]) as u32
}

/// The header that `data` starts with.
pub open spec fn header_of(data: Seq<u8>) -> Header {
    Header {
        width: word_at(data, 372),
        height: word_at(data, 376),
        bits_per_color: word_at(data, 384),
        bytes_per_line: word_at(data, 392),
        colorspace: word_at(data, 400),
    }
}

impl Header {
    /// How many bytes a pixel has: none in a colorspace that isn't supported.
    pub open spec fn bytes_per_pixel(self) -> int {
        if self.bits_per_color != 8 {
            0
        } else if self.colorspace == CUPS_CSPACE_SRGB {
            3
        } else if self.colorspace == CUPS_CSPACE_SW {
            1
        } else {
            0
        }
    }

    /// How many bytes of a line hold pixels.
    pub open spec fn row_len(self) -> int {
        self.width * self.bytes_per_pixel()
    }
}

/// Greyscale pixels as RGB.
pub open spec fn gray_to_rgb(gray: Seq<u8>) -> Seq<u8> {
    Seq::new(3 * gray.len(), |i: int| gray[i / 3])
}

/// Pixels of the header's colorspace as RGB.
pub open spec fn as_rgb(header: Header, pixels: Seq<u8>) -> Seq<u8> {
    if header.colorspace == CUPS_CSPACE_SRGB {
        pixels
    } else {
        gray_to_rgb(pixels)
    }
}

/// The pages of a document whose lines are compressed: none if `data` is
/// anything but such pages, one behind the other.
pub open spec fn packed_pages(data: Seq<u8>) -> Option<Seq<PageView>>
    decreases data.len(),
{
    if data.len() == 0 {
        Some(Seq::empty())
    } else if data.len() < HEADER_LEN {
        None
    } else {
        let header = header_of(data);
        if header.row_len() == 0 || header.bytes_per_line != header.row_len() {
            None
        } else {
            match unpacked_lines(
                data.skip(HEADER_LEN as int),
                header.height as nat,
                header.width as nat,
                header.bytes_per_pixel() as nat,
            ) {
                Some((pixels, rest)) => {
                    proof {
                        lemma_unpacked_lines_rest(
                            data.skip(HEADER_LEN as int),
                            header.height as nat,
                            header.width as nat,
                            header.bytes_per_pixel() as nat,
                        );
                    }
                    match packed_pages(rest) {
                        Some(pages) => Some(
                            seq![
                                PageView {
                                    width: header.width,
                                    height: header.height,
                                    rgb: as_rgb(header, pixels),
                                },
                            ] + pages,
                        ),
                        None => None,
                    }
                },
                None => None,
            }
        }
    }
}

/// The bytes of each line that hold pixels.
pub open spec fn row_pixels(pixels: Seq<u8>, lines: nat, bytes_per_line: int, row_len: int) -> Seq<
    u8,
>
    decreases lines,
{
    if lines == 0 {
        Seq::empty()
    } else {
        row_pixels(pixels, (lines - 1) as nat, bytes_per_line, row_len) + pixels.subrange(
            (lines - 1) * bytes_per_line,
            (lines - 1) * bytes_per_line + row_len,
        )
    }
}

/// The picture of a page whose lines are not compressed.
pub open spec fn plain_rgb(header: Header, pixels: Seq<u8>) -> Result<Seq<u8>, DecodeError> {
    if header.bytes_per_pixel() == 0 {
        Err(DecodeError::UnsupportedColorspace(header.colorspace))
    } else if header.bytes_per_line == 0 {
        Err(
            DecodeError::TruncatedData {
                expected: if header.row_len() == 0 {
                    1
                } else {
                    header.row_len() as u64
                },
                got: 0,
            },
        )
    } else if header.height > 0 && header.bytes_per_line < header.row_len() {
        Err(
            DecodeError::TruncatedData {
                expected: header.row_len() as u64,
                got: header.bytes_per_line as u64,
            },
        )
    } else {
        Ok(
            as_rgb(
                header,
                row_pixels(
                    pixels,
                    header.height as nat,
                    header.bytes_per_line as int,
                    header.row_len(),
                ),
            ),
        )
    }
}

/// The pages of a document whose lines are not compressed. Bytes behind the
/// last page that are too few for a header are not looked at.
pub open spec fn plain_pages(data: Seq<u8>) -> Result<Seq<PageView>, DecodeError>
    decreases data.len(),
{
    if data.len() < HEADER_LEN {
        Ok(Seq::empty())
    } else {
        let header = header_of(data);
        let body = data.skip(HEADER_LEN as int);
        let data_len = header.bytes_per_line as nat * header.height as nat;
        if data_len > body.len() {
            Err(
                DecodeError::TruncatedData { expected: data_len as u64, got: body.len() as u64 },
            )
        } else {
            match plain_rgb(header, body.take(data_len as int)) {
                Err(error) => Err(error),
                Ok(rgb) => match plain_pages(body.skip(data_len as int)) {
                    Err(error) => Err(error),
                    Ok(pages) => Ok(
                        seq![PageView { width: header.width, height: header.height, rgb }] + pages,
                    ),
                },
            }
        }
    }
}

/// What a document decodes to: the pages behind its sync word, compressed if
/// they are such pages as the encoder writes, else not; but no document is
/// without a page.
pub open spec fn decoded(data: Seq<u8>) -> Result<Seq<PageView>, DecodeError> {
    if data.len() < 4 || data.take(4) != sync_word() {
        Err(DecodeError::BadSync)
    } else {
        match packed_pages(data.skip(4)) {
            Some(pages) if pages.len() > 0 => Ok(pages),
            _ => match plain_pages(data.skip(4)) {
                Ok(pages) if pages.len() == 0 => Err(DecodeError::TruncatedHeader),
                result => result,
            },
        }
    }
}

/// The big-endian word at `offset`.
fn read_u32(buf: &[u8], offset: usize) -> (word: u32)
    requires
        offset + 4 <= buf.len(),
    ensures
        word == word_at(buf@, offset as int),
{
    let (a, b, c, d) = (buf[offset], buf[offset + 1], buf[offset + 2], buf[offset + 3]);
    a as u32 * 0x100_0000 + b as u32 * 0x1_0000 + c as u32 * 0x100 + d as u32
}

/// The header at `at`.
fn read_header(data: &[u8], at: usize) -> (header: Header)
    requires
        at + HEADER_LEN <= data.len(),
    ensures
        header == header_of(data@.skip(at as int)),
{
    let header = &data[at..at + HEADER_LEN];
    Header {
        width: read_u32(header, 372),
        height: read_u32(header, 376),
        bits_per_color: read_u32(header, 384),
        bytes_per_line: read_u32(header, 392),
        colorspace: read_u32(header, 400),
    }
}

impl Header {
    /// How many bytes a pixel has (see [`Header::bytes_per_pixel`]).
    fn pixel_len(self) -> (count: usize)
        ensures
            count == self.bytes_per_pixel(),
            count <= 3,
    {
        if self.bits_per_color != 8 {
            0
        } else if self.colorspace == CUPS_CSPACE_SRGB {
            3
        } else if self.colorspace == CUPS_CSPACE_SW {
            1
        } else {
            0
        }
    }
}

/// What each page holds.
pub open spec fn page_views(pages: Seq<Page>) -> Seq<PageView> {
    pages.map_values(|page: Page| page@)
}

/// Pixels of the header's colorspace as RGB (see [`as_rgb`]).
fn picture(header: Header, pixels: Vec<u8>) -> (rgb: Vec<u8>)
    ensures
        rgb@ == as_rgb(header, pixels@),
{
    if header.colorspace == CUPS_CSPACE_SRGB {
        return pixels;
    }
    let mut rgb: Vec<u8> = Vec::new();
    let mut i: usize = 0;
    while i < pixels.len()
        invariant
            i <= pixels.len(),
            rgb@ =~= gray_to_rgb(pixels@.subrange(0, i as int)),
        decreases pixels.len() - i,
    {
        let gray: u8 = pixels[i];
        rgb.push(gray);
        rgb.push(gray);
        rgb.push(gray);
        i = i + 1;
    }
    assert(pixels@.subrange(0, i as int) =~= pixels@);
    rgb
}

/// The pages of a document whose lines are compressed (see [`packed_pages`]).
fn unpack_pages(data: &[u8], from: usize) -> (read: Option<Vec<Page>>)
    requires
        from <= data.len(),
    ensures
        match read {
            Some(pages) => packed_pages(data@.skip(from as int)) == Some(page_views(pages@)),
            None => packed_pages(data@.skip(from as int)) is None,
        },
{
    let ghost whole = packed_pages(data@.skip(from as int));
    let mut pages: Vec<Page> = Vec::new();
    let mut at: usize = from;
    assert(after_pages(page_views(pages@), whole) == whole) by {
        if let Some(rest) = whole {
            assert(page_views(pages@) + rest =~= rest);
        }
    }
    while at < data.len()
        invariant
            from <= at <= data.len(),
            whole == packed_pages(data@.skip(from as int)),
            after_pages(page_views(pages@), packed_pages(data@.skip(at as int))) == whole,
        decreases data.len() - at,
    {
        if data.len() - at < HEADER_LEN {
            return None;
        }
        let header = read_header(data, at);
        let bytes_per_pixel: usize = header.pixel_len();
        assert(header.width * bytes_per_pixel <= 3 * u32::MAX) by (nonlinear_arith)
            requires
                header.width <= u32::MAX,
                bytes_per_pixel <= 3,
        ;
        let row_len: u64 = header.width as u64 * bytes_per_pixel as u64;
        if row_len == 0 || header.bytes_per_line as u64 != row_len {
            return None;
        }
        assert(bytes_per_pixel != 0) by (nonlinear_arith)
            requires
                header.width as u64 * bytes_per_pixel as u64 != 0,
        ;
        assert(data@.skip(at as int).skip(HEADER_LEN as int) =~= data@.skip(at + HEADER_LEN));
        match unpack_lines(
            data,
            at + HEADER_LEN,
            header.height as usize,
            header.width as usize,
            bytes_per_pixel,
        ) {
            Some((pixels, end)) => {
                let ghost before = page_views(pages@);
                let page = Page {
                    width: header.width,
                    height: header.height,
                    rgb: picture(header, pixels),
                };
                pages.push(page);
                proof {
                    assert(page_views(pages@) =~= before + seq![page@]);
                    if let Some(rest) = packed_pages(data@.skip(end as int)) {
                        assert(before + (seq![page@] + rest) =~= before + seq![page@] + rest);
                    }
                }
                at = end;
            },
            None => {
                return None;
            },
        }
    }
    assert(page_views(pages@) + Seq::<PageView>::empty() =~= page_views(pages@));
    Some(pages)
}

/// `pages` before those that were read, where some were read.
spec fn after_pages(pages: Seq<PageView>, read: Option<Seq<PageView>>) -> Option<Seq<PageView>> {
    match read {
        Some(rest) => Some(pages + rest),
        None => None,
    }
}

/// The picture of a page whose lines are not compressed (see [`plain_rgb`]).
fn to_rgb8(pixels: &[u8], header: Header) -> (rgb: Result<Vec<u8>, DecodeError>)
    requires
        pixels@.len() == header.bytes_per_line * header.height,
    ensures
        match rgb {
            Ok(rgb) => plain_rgb(header, pixels@) == Ok::<Seq<u8>, DecodeError>(rgb@),
            Err(error) => plain_rgb(header, pixels@) == Err::<Seq<u8>, DecodeError>(error),
        },
{
    let bytes_per_pixel: usize = header.pixel_len();
    if bytes_per_pixel == 0 {
        return Err(DecodeError::UnsupportedColorspace(header.colorspace));
    }
    assert(header.width * bytes_per_pixel <= 3 * u32::MAX) by (nonlinear_arith)
        requires
            header.width <= u32::MAX,
            bytes_per_pixel <= 3,
    ;
    let row_len: u64 = header.width as u64 * bytes_per_pixel as u64;
    if header.bytes_per_line == 0 {
        let expected: u64 = if row_len == 0 { 1 } else { row_len };
        return Err(DecodeError::TruncatedData { expected, got: 0 });
    }
    if header.height > 0 && (header.bytes_per_line as u64) < row_len {
        return Err(
            DecodeError::TruncatedData { expected: row_len, got: header.bytes_per_line as u64 },
        );
    }
    let mut rows: Vec<u8> = Vec::new();
    let mut line: u32 = 0;
    while line < header.height
        invariant
            line <= header.height,
            pixels@.len() == header.bytes_per_line * header.height,
            row_len == header.row_len(),
            header.height > 0 ==> row_len <= header.bytes_per_line,
            rows@ == row_pixels(
                pixels@,
                line as nat,
                header.bytes_per_line as int,
                header.row_len(),
            ),
        decreases header.height - line,
    {
        let ghost len = pixels.len();
        assert(line * header.bytes_per_line + header.bytes_per_line <= len) by (nonlinear_arith)
            requires
                line < header.height,
                len == header.bytes_per_line * header.height,
        ;
        let at: usize = line as usize * header.bytes_per_line as usize;
        let ghost before = rows@;
        put_repeated(&mut rows, pixels, at, at + row_len as usize, 1);
        proof {
            let row = pixels@.subrange(at as int, at + row_len);
            assert(repeated(row, 1) =~= row) by {
                reveal_with_fuel(repeated, 2);
            }
        }
        line = line + 1;
    }
    Ok(picture(header, rows))
}

/// `pages` before those that were read, unless reading failed.
spec fn after_plain(pages: Seq<PageView>, read: Result<Seq<PageView>, DecodeError>) -> Result<
    Seq<PageView>,
    DecodeError,
> {
    match read {
        Ok(rest) => Ok(pages + rest),
        Err(error) => Err(error),
    }
}

/// The pages of a document whose lines are not compressed (see
/// [`plain_pages`]).
fn read_plain_pages(data: &[u8], from: usize) -> (read: Result<Vec<Page>, DecodeError>)
    requires
        from <= data.len(),
    ensures
        match read {
            Ok(pages) => plain_pages(data@.skip(from as int)) == Ok::<Seq<PageView>, DecodeError>(
                page_views(pages@),
            ),
            Err(error) => plain_pages(data@.skip(from as int)) == Err::<
                Seq<PageView>,
                DecodeError,
            >(error),
        },
{
    let ghost whole = plain_pages(data@.skip(from as int));
    let mut pages: Vec<Page> = Vec::new();
    let mut at: usize = from;
    assert(after_plain(page_views(pages@), whole) == whole) by {
        if let Ok(rest) = whole {
            assert(page_views(pages@) + rest =~= rest);
        }
    }
    while data.len() - at >= HEADER_LEN
        invariant
            from <= at <= data.len(),
            whole == plain_pages(data@.skip(from as int)),
            after_plain(page_views(pages@), plain_pages(data@.skip(at as int))) == whole,
        decreases data.len() - at,
    {
        let header = read_header(data, at);
        let start: usize = at + HEADER_LEN;
        assert(data@.skip(at as int).skip(HEADER_LEN as int) =~= data@.skip(start as int));
        assert(0 <= header.bytes_per_line * header.height <= u64::MAX) by (nonlinear_arith)
            requires
                header.bytes_per_line <= u32::MAX,
                header.height <= u32::MAX,
        ;
        let data_len: u64 = header.bytes_per_line as u64 * header.height as u64;
        if data_len > (data.len() - start) as u64 {
            return Err(
                DecodeError::TruncatedData {
                    expected: data_len,
                    got: (data.len() - start) as u64,
                },
            );
        }
        let end: usize = start + data_len as usize;
        assert(data@.skip(start as int).take(data_len as int) =~= data@.subrange(
            start as int,
            end as int,
        ));
        assert(data@.skip(start as int).skip(data_len as int) =~= data@.skip(end as int));
        match to_rgb8(&data[start..end], header) {
            Ok(rgb) => {
                let ghost before = page_views(pages@);
                let page = Page { width: header.width, height: header.height, rgb };
                pages.push(page);
                proof {
                    assert(page_views(pages@) =~= before + seq![page@]);
                    if let Ok(rest) = plain_pages(data@.skip(end as int)) {
                        assert(before + (seq![page@] + rest) =~= before + seq![page@] + rest);
                    }
                }
                at = end;
            },
            Err(error) => {
                return Err(error);
            },
        }
    }
    assert(page_views(pages@) + Seq::<PageView>::empty() =~= page_views(pages@));
    Ok(pages)
}

/// Decode a PWG-Raster document (see [`decoded`]).
pub fn decode(data: &[u8]) -> (result: Result<Vec<Page>, DecodeError>)
    ensures
        match result {
            Ok(pages) => decoded(data@) == Ok::<Seq<PageView>, DecodeError>(page_views(pages@)),
            Err(error) => decoded(data@) == Err::<Seq<PageView>, DecodeError>(error),
        },
{
    if data.len() < 4 {
        return Err(DecodeError::BadSync);
    }
    if data[0] != 0x52 || data[1] != 0x61 || data[2] != 0x53 || data[3] != 0x32 {
        proof {
            let word = data@.take(4);
            assert(word[0] != 0x52 || word[1] != 0x61 || word[2] != 0x53 || word[3] != 0x32);
        }
        return Err(DecodeError::BadSync);
    }
    assert(data@.take(4) =~= sync_word());
    if let Some(pages) = unpack_pages(data, 4) {
        if pages.len() > 0 {
            return Ok(pages);
        }
    }
    let pages = match read_plain_pages(data, 4) {
        Ok(pages) => pages,
        Err(error) => {
            return Err(error);
        },
    };
    if pages.len() == 0 {
        return Err(DecodeError::TruncatedHeader);
    }
    Ok(pages)
}

/// A rendered page that fills its bitmap: as many bytes of RGB as its width
/// and height call for.
pub open spec fn is_full(page: RenderedPage) -> bool {
    page.rgb@.len() == page.height_px * (page.width_px * 3)
}

/// What is left of a rendered page that was sent in a colour mode: the picture
/// itself in colour, its brightness in greyscale.
pub open spec fn restored(page: RenderedPage, color: ColorMode) -> PageView {
    PageView {
        width: page.width_px,
        height: page.height_px,
        rgb: match color {
            ColorMode::Srgb8 => page.rgb@,
            ColorMode::Sgray8 => gray_to_rgb(grayscale(page.rgb@)),
        },
    }
}

/// A word is what its big-endian bytes are read as.
pub proof fn lemma_word(bytes: Seq<u8>, offset: int, word: u32)
    requires
        0 <= offset,
        offset + 4 <= bytes.len(),
        bytes.subrange(offset, offset + 4) == be_bytes(word),
    ensures
        word_at(bytes, offset) == word,
{
    let found = bytes.subrange(offset, offset + 4);
    assert(found[0] == bytes[offset]);
    assert(found[1] == bytes[offset + 1]);
    assert(found[2] == bytes[offset + 2]);
    assert(found[3] == bytes[offset + 3]);
}

/// A page header reads as the page it was written for.
proof fn lemma_header_reads_back(
    page: RenderedPage,
    dpi: u32,
    color: ColorMode,
    total_pages: u32,
    rest: Seq<u8>,
)
    requires
        is_encodable(page, color),
    ensures
        header_of(header_bytes(page, dpi, color, total_pages) + rest) == (Header {
            width: page.width_px,
            height: page.height_px,
            bits_per_color: 8,
            bytes_per_line: (page.width_px * color.bytes_per_pixel()) as u32,
            colorspace: color.colorspace(),
        }),
{
    let header = header_bytes(page, dpi, color, total_pages);
    let data = header + rest;
    law_header_layout(page, dpi, color, total_pages);
    assert forall|offset: int|
        64 <= offset < 1732 && offset % 4 == 0 implies #[trigger] word_at(data, offset)
        == header_word(page, dpi, color, total_pages, offset) by {
        assert(data.subrange(offset, offset + 4) =~= header.subrange(offset, offset + 4));
        lemma_word(data, offset, header_word(page, dpi, color, total_pages, offset));
    }
}

/// An encoded page reads back, before whatever stands behind it.
proof fn lemma_page_reads_back(
    page: RenderedPage,
    dpi: u32,
    color: ColorMode,
    total_pages: u32,
    rest: Seq<u8>,
    pages: Seq<PageView>,
)
    requires
        is_encodable(page, color),
        is_full(page),
        packed_pages(rest) == Some(pages),
    ensures
        packed_pages(page_bytes(page, dpi, color, total_pages) + rest) == Some(
            seq![restored(page, color)] + pages,
        ),
{
    let bpp = color.bytes_per_pixel() as nat;
    let pixels = page_pixels(page, color);
    let packed = compressed_page(pixels, page.width_px as nat, bpp);
    let header = header_bytes(page, dpi, color, total_pages);
    let data = page_bytes(page, dpi, color, total_pages) + rest;
    assert(header.len() == HEADER_LEN) by {
        law_header_layout(page, dpi, color, total_pages);
    }
    assert(data =~= header + (packed + rest));
    lemma_header_reads_back(page, dpi, color, total_pages, packed + rest);
    assert(data.skip(HEADER_LEN as int) =~= packed + rest);
    let (width, height) = (page.width_px as int, page.height_px as int);
    assert(pixels.len() == height * (width * bpp)) by {
        assert((height * (width * 3)) / 3 == height * width) by (nonlinear_arith);
        assert(height * (width * 1) == height * width) by (nonlinear_arith);
    }
    law_page_round_trip(pixels, page.width_px as nat, page.height_px as nat, bpp, rest);
    assert(width * bpp > 0) by (nonlinear_arith)
        requires
            width > 0,
            bpp > 0,
    ;
}

/// The pages of an encoded document from `start` on read back.
#[verifier::spinoff_prover]
proof fn lemma_pages_read_back(
    pages: Seq<RenderedPage>,
    start: int,
    dpi: u32,
    color: ColorMode,
    total_pages: u32,
)
    requires
        0 <= start <= pages.len(),
        forall|i: int|
            0 <= i < pages.len() ==> #[trigger] is_encodable(pages[i], color) && is_full(pages[i]),
    ensures
        packed_pages(pages_bytes(pages, start, dpi, color, total_pages)) == Some(
            Seq::new(
                (pages.len() - start) as nat,
                |i: int| restored(pages[start + i], color),
            ),
        ),
    decreases pages.len() - start,
{
    let views = Seq::new(
        (pages.len() - start) as nat,
        |i: int| restored(pages[start + i], color),
    );
    if start == pages.len() {
        assert(views =~= Seq::empty());
    } else {
        let behind_it = Seq::new(
            (pages.len() - start - 1) as nat,
            |i: int| restored(pages[start + 1 + i], color),
        );
        let rest = pages_bytes(pages, start + 1, dpi, color, total_pages);
        let page = pages[start];
        assert(seq![restored(page, color)] + behind_it =~= views);
        assert(packed_pages(page_bytes(page, dpi, color, total_pages) + rest) == Some(views)) by {
            lemma_pages_read_back(pages, start + 1, dpi, color, total_pages);
            assert(is_encodable(pages[start], color));
            lemma_page_reads_back(page, dpi, color, total_pages, rest, behind_it);
        }
    }
}

/// Decoding an encoded document gives its pages back, in order: in colour as
/// they were, in greyscale their brightness.
pub proof fn law_document_round_trip(pages: Seq<RenderedPage>, dpi: u32, color: ColorMode)
    requires
        pages.len() > 0,
        forall|i: int|
            0 <= i < pages.len() ==> #[trigger] is_encodable(pages[i], color) && is_full(pages[i]),
    ensures
        decoded(encoded(pages, dpi, color)) == Ok::<Seq<PageView>, DecodeError>(
            pages.map_values(|page: RenderedPage| restored(page, color)),
        ),
{
    let data = encoded(pages, dpi, color);
    let body = pages_bytes(pages, 0, dpi, color, page_count(pages));
    lemma_pages_read_back(pages, 0, dpi, color, page_count(pages));
    assert(data.take(4) =~= sync_word());
    assert(data.skip(4) =~= body);
    assert(Seq::new(pages.len(), |i: int| restored(pages[0 + i], color)) =~= pages.map_values(
        |page: RenderedPage| restored(page, color),
    ));
}

/// An unpacked line has as many pixels as were asked for.
proof fn lemma_unpacked_line_len(data: Seq<u8>, count: nat, bytes_per_pixel: nat)
    ensures
        unpacked_line(data, count, bytes_per_pixel) matches Some((line, rest)) ==> line.len()
            == count * bytes_per_pixel,
    decreases count,
{
    if count == 0 {
        assert(0 * bytes_per_pixel == 0) by (nonlinear_arith);
    } else if data.len() > 0 && data[0] != 128 {
        if data[0] < 128 {
            let run = (data[0] + 1) as nat;
            if run <= count && 1 + bytes_per_pixel <= data.len() {
                lemma_unpacked_line_len(
                    data.skip(1 + bytes_per_pixel as int),
                    (count - run) as nat,
                    bytes_per_pixel,
                );
                lemma_repeated_len(data.subrange(1, 1 + bytes_per_pixel as int), run);
                assert(run * bytes_per_pixel + (count - run) * bytes_per_pixel == count
                    * bytes_per_pixel) by (nonlinear_arith);
            }
        } else {
            let literal = (257 - data[0]) as nat;
            let len = literal * bytes_per_pixel;
            if literal <= count && 1 + len <= data.len() {
                lemma_unpacked_line_len(
                    data.skip(1 + len as int),
                    (count - literal) as nat,
                    bytes_per_pixel,
                );
                assert(literal * bytes_per_pixel + (count - literal) * bytes_per_pixel == count
                    * bytes_per_pixel) by (nonlinear_arith);
            }
        }
    }
}

proof fn lemma_repeated_len(unit: Seq<u8>, count: nat)
    ensures
        repeated(unit, count).len() == count * unit.len(),
    decreases count,
{
    if count > 0 {
        lemma_repeated_len(unit, (count - 1) as nat);
        assert((count - 1) * unit.len() + unit.len() == count * unit.len()) by (nonlinear_arith);
    } else {
        assert(0 * unit.len() == 0) by (nonlinear_arith);
    }
}

/// Unpacked lines have as many pixels as were asked for.
proof fn lemma_unpacked_lines_len(data: Seq<u8>, lines: nat, width: nat, bytes_per_pixel: nat)
    ensures
        unpacked_lines(data, lines, width, bytes_per_pixel) matches Some((pixels, rest))
            ==> pixels.len() == lines * (width * bytes_per_pixel),
    decreases lines,
{
    let row = width * bytes_per_pixel;
    if lines == 0 {
        assert(0 * row == 0) by (nonlinear_arith);
    } else if data.len() > 0 && data[0] + 1 <= lines {
        let repeat = (data[0] + 1) as nat;
        if let Some((line, rest)) = unpacked_line(data.skip(1), width, bytes_per_pixel) {
            lemma_unpacked_line_len(data.skip(1), width, bytes_per_pixel);
            lemma_unpacked_lines_len(rest, (lines - repeat) as nat, width, bytes_per_pixel);
            lemma_repeated_len(line, repeat);
            assert(repeat * row + (lines - repeat) * row == lines * row) by (nonlinear_arith);
        }
    }
}

proof fn lemma_row_pixels_len(pixels: Seq<u8>, lines: nat, bytes_per_line: int, row_len: int)
    requires
        0 <= row_len <= bytes_per_line,
        lines * bytes_per_line <= pixels.len(),
    ensures
        row_pixels(pixels, lines, bytes_per_line, row_len).len() == lines * row_len,
    decreases lines,
{
    if lines > 0 {
        assert((lines - 1) * bytes_per_line + bytes_per_line == lines * bytes_per_line)
            by (nonlinear_arith);
        assert((lines - 1) * row_len + row_len == lines * row_len) by (nonlinear_arith);
        assert(0 <= (lines - 1) * bytes_per_line) by (nonlinear_arith)
            requires
                lines > 0,
                bytes_per_line >= 0,
        ;
        lemma_row_pixels_len(pixels, (lines - 1) as nat, bytes_per_line, row_len);
    } else {
        assert(0 * row_len == 0) by (nonlinear_arith);
    }
}

/// A page whose picture has three bytes for every pixel.
pub open spec fn is_complete(page: PageView) -> bool {
    page.rgb.len() == 3 * (page.height * page.width)
}

/// Pixels that fill a page make a picture that fills it.
proof fn lemma_picture_is_complete(header: Header, pixels: Seq<u8>)
    requires
        header.bytes_per_pixel() != 0,
        pixels.len() == header.height * (header.width * header.bytes_per_pixel()),
    ensures
        as_rgb(header, pixels).len() == 3 * (header.height * header.width),
{
    let (height, width) = (header.height as int, header.width as int);
    assert(height * (width * 3) == 3 * (height * width)) by (nonlinear_arith);
    assert(height * (width * 1) == height * width) by (nonlinear_arith);
}

proof fn lemma_packed_pages_are_complete(data: Seq<u8>)
    ensures
        packed_pages(data) matches Some(pages) ==> forall|i: int|
            0 <= i < pages.len() ==> is_complete(#[trigger] pages[i]),
    decreases data.len(),
{
    if HEADER_LEN <= data.len() {
        let header = header_of(data);
        let body = data.skip(HEADER_LEN as int);
        let bpp = header.bytes_per_pixel() as nat;
        if header.row_len() != 0 && header.bytes_per_line == header.row_len() {
            if header.bytes_per_pixel() == 0 {
                assert(header.width * 0 == 0) by (nonlinear_arith);
            }
            lemma_unpacked_lines_rest(body, header.height as nat, header.width as nat, bpp);
            lemma_unpacked_lines_len(body, header.height as nat, header.width as nat, bpp);
            if let Some((pixels, rest)) = unpacked_lines(
                body,
                header.height as nat,
                header.width as nat,
                bpp,
            ) {
                lemma_picture_is_complete(header, pixels);
                lemma_packed_pages_are_complete(rest);
            }
        }
    }
}

proof fn lemma_plain_pages_are_complete(data: Seq<u8>)
    ensures
        plain_pages(data) matches Ok(pages) ==> forall|i: int|
            0 <= i < pages.len() ==> is_complete(#[trigger] pages[i]),
    decreases data.len(),
{
    if HEADER_LEN <= data.len() {
        let header = header_of(data);
        let body = data.skip(HEADER_LEN as int);
        let data_len = header.bytes_per_line as nat * header.height as nat;
        if data_len <= body.len() {
            let pixels = body.take(data_len as int);
            lemma_plain_pages_are_complete(body.skip(data_len as int));
            if plain_rgb(header, pixels) is Ok {
                let (height, row) = (header.height as nat, header.row_len());
                assert(row >= 0) by (nonlinear_arith)
                    requires
                        row == header.width * header.bytes_per_pixel(),
                        header.bytes_per_pixel() >= 0,
                ;
                assert(height * header.bytes_per_line == data_len) by (nonlinear_arith)
                    requires
                        data_len == header.bytes_per_line as nat * height,
                ;
                if height > 0 {
                    lemma_row_pixels_len(pixels, height, header.bytes_per_line as int, row);
                } else {
                    assert(0 * row == 0) by (nonlinear_arith);
                }
                lemma_picture_is_complete(
                    header,
                    row_pixels(pixels, height, header.bytes_per_line as int, row),
                );
            }
        }
    }
}

/// Every page that is decoded has three bytes for each of its pixels, as
/// writing its picture takes.
pub proof fn law_decoded_pages_are_complete(data: Seq<u8>)
    ensures
        decoded(data) matches Ok(pages) ==> pages.len() > 0 && forall|i: int|
            0 <= i < pages.len() ==> is_complete(#[trigger] pages[i]),
{
    lemma_packed_pages_are_complete(data.skip(4));
    lemma_plain_pages_are_complete(data.skip(4));
}

/// Whether a document is read as one whose lines are compressed.
pub open spec fn is_compressed(data: Seq<u8>) -> bool {
    &&& data.len() >= 4
    &&& data.take(4) == sync_word()
    &&& packed_pages(data.skip(4)) matches Some(pages)
    &&& pages.len() > 0
}

/// Whether pages whose lines are not compressed end where `data` ends.
pub open spec fn plain_pages_fill(data: Seq<u8>) -> bool
    decreases data.len(),
{
    if data.len() < HEADER_LEN {
        data.len() == 0
    } else {
        let header = header_of(data);
        let body = data.skip(HEADER_LEN as int);
        let data_len = header.bytes_per_line as nat * header.height as nat;
        data_len <= body.len() && plain_pages_fill(body.skip(data_len as int))
    }
}

/// A header is read from the bytes that `data` starts with, whatever stands
/// behind them.
proof fn lemma_header_extends(data: Seq<u8>, more: Seq<u8>)
    requires
        data.len() >= HEADER_LEN,
    ensures
        header_of(data + more) == header_of(data),
        (data + more).skip(HEADER_LEN as int) == data.skip(HEADER_LEN as int) + more,
{
    assert((data + more).skip(HEADER_LEN as int) =~= data.skip(HEADER_LEN as int) + more);
    assert forall|i: int| 0 <= i < HEADER_LEN implies (data + more)[i] == data[i] by {}
}

/// Compressed pages behind compressed pages are read after them.
proof fn lemma_packed_pages_join(data: Seq<u8>, more: Seq<u8>)
    requires
        packed_pages(data) is Some,
        packed_pages(more) is Some,
    ensures
        packed_pages(data + more) == Some(packed_pages(data)->0 + packed_pages(more)->0),
    decreases data.len(),
{
    if data.len() == 0 {
        assert(data + more =~= more);
        assert(packed_pages(data)->0 + packed_pages(more)->0 =~= packed_pages(more)->0);
    } else {
        let header = header_of(data);
        let body = data.skip(HEADER_LEN as int);
        let (height, width) = (header.height as nat, header.width as nat);
        let bpp = header.bytes_per_pixel() as nat;
        lemma_header_extends(data, more);
        lemma_unpacked_lines_extends(body, height, width, bpp, more);
        lemma_unpacked_lines_rest(body, height, width, bpp);
        let (pixels, rest) = unpacked_lines(body, height, width, bpp)->0;
        lemma_packed_pages_join(rest, more);
        let page = PageView {
            width: header.width,
            height: header.height,
            rgb: as_rgb(header, pixels),
        };
        assert(packed_pages(data)->0 == seq![page] + packed_pages(rest)->0);
        assert(seq![page] + (packed_pages(rest)->0 + packed_pages(more)->0) =~= seq![page]
            + packed_pages(rest)->0 + packed_pages(more)->0);
    }
}

/// What stands behind plain pages is read after them.
proof fn lemma_plain_pages_join(data: Seq<u8>, more: Seq<u8>)
    requires
        plain_pages(data) is Ok,
        plain_pages_fill(data),
    ensures
        plain_pages(data + more) == after_plain(plain_pages(data)->Ok_0, plain_pages(more)),
    decreases data.len(),
{
    if data.len() == 0 {
        assert(data + more =~= more);
        if let Ok(pages) = plain_pages(more) {
            assert(plain_pages(data)->Ok_0 + pages =~= pages);
        }
    } else {
        let header = header_of(data);
        let body = data.skip(HEADER_LEN as int);
        let data_len = (header.bytes_per_line as nat * header.height as nat) as int;
        let rest = body.skip(data_len);
        lemma_header_extends(data, more);
        assert((body + more).take(data_len) =~= body.take(data_len));
        assert((body + more).skip(data_len) =~= rest + more);
        lemma_plain_pages_join(rest, more);
        let page = PageView {
            width: header.width,
            height: header.height,
            rgb: plain_rgb(header, body.take(data_len))->Ok_0,
        };
        assert(plain_pages(data)->Ok_0 == seq![page] + plain_pages(rest)->Ok_0);
        if let Ok(pages) = plain_pages(more) {
            assert(seq![page] + (plain_pages(rest)->Ok_0 + pages) =~= seq![page]
                + plain_pages(rest)->Ok_0 + pages);
        }
    }
}

/// Two compressed documents, joined behind one sync word, decode to the pages
/// of both in order.
pub proof fn law_compressed_documents_join(a: Seq<u8>, b: Seq<u8>)
    requires
        is_compressed(a),
        is_compressed(b),
    ensures
        decoded(a) is Ok,
        decoded(b) is Ok,
        decoded(a + b.skip(4)) == Ok::<Seq<PageView>, DecodeError>(
            decoded(a)->Ok_0 + decoded(b)->Ok_0,
        ),
{
    lemma_packed_pages_join(a.skip(4), b.skip(4));
    assert((a + b.skip(4)).take(4) =~= a.take(4));
    assert((a + b.skip(4)).skip(4) =~= a.skip(4) + b.skip(4));
}

/// Two documents that are not compressed, joined behind one sync word where
/// the first one's last page ends, decode to the pages of both in order; if the
/// second can't be decoded, to that error, and to none of the first one's
/// pages. The joined document must not read as a compressed one.
pub proof fn law_plain_documents_join(a: Seq<u8>, b: Seq<u8>)
    requires
        decoded(a) is Ok,
        !is_compressed(a),
        plain_pages_fill(a.skip(4)),
        b.len() >= 4 + HEADER_LEN,
        b.take(4) == sync_word(),
        !is_compressed(b),
        !is_compressed(a + b.skip(4)),
    ensures
        decoded(a + b.skip(4)) == match decoded(b) {
            Ok(pages) => Ok::<Seq<PageView>, DecodeError>(decoded(a)->Ok_0 + pages),
            Err(error) => Err(error),
        },
{
    lemma_plain_pages_join(a.skip(4), b.skip(4));
    assert((a + b.skip(4)).take(4) =~= a.take(4));
    assert((a + b.skip(4)).skip(4) =~= a.skip(4) + b.skip(4));
}

/// A rest that is too short for a header, behind the last page of a document
/// that is not compressed, changes nothing. The document with the rest must not
/// read as a compressed one.
pub proof fn law_short_rests_change_nothing(document: Seq<u8>, rest: Seq<u8>)
    requires
        decoded(document) is Ok,
        !is_compressed(document),
        plain_pages_fill(document.skip(4)),
        rest.len() < HEADER_LEN,
        !is_compressed(document + rest),
    ensures
        decoded(document + rest) == decoded(document),
{
    lemma_plain_pages_join(document.skip(4), rest);
    assert((document + rest).take(4) =~= document.take(4));
    assert((document + rest).skip(4) =~= document.skip(4) + rest);
    assert(decoded(document)->Ok_0 + Seq::<PageView>::empty() =~= decoded(document)->Ok_0);
}

/// What the encoder makes of full pages reads as compressed, so encoded
/// documents can be joined.
pub proof fn law_encoded_documents_are_compressed(
    pages: Seq<RenderedPage>,
    dpi: u32,
    color: ColorMode,
)
    requires
        pages.len() > 0,
        forall|i: int|
            0 <= i < pages.len() ==> #[trigger] is_encodable(pages[i], color) && is_full(pages[i]),
    ensures
        is_compressed(encoded(pages, dpi, color)),
{
    let data = encoded(pages, dpi, color);
    lemma_pages_read_back(pages, 0, dpi, color, page_count(pages));
    assert(data.take(4) =~= sync_word());
    assert(data.skip(4) =~= pages_bytes(pages, 0, dpi, color, page_count(pages)));
}

/// Whether a decoded page is the picture of a rendered one: of its size, and at
/// every place its own byte in colour, its own pixel's brightness in greyscale.
pub open spec fn is_picture_of(found: PageView, page: RenderedPage, color: ColorMode) -> bool {
    &&& found.width == page.width_px
    &&& found.height == page.height_px
    &&& found.rgb.len() == page.rgb@.len()
    &&& forall|k: int|
        #![trigger found.rgb[k]]
        0 <= k < found.rgb.len() ==> match color {
            ColorMode::Srgb8 => found.rgb[k] == page.rgb@[k],
            ColorMode::Sgray8 => found.rgb[k] as int == (299 * page.rgb@[k / 3 * 3] as int + 587
                * page.rgb@[k / 3 * 3 + 1] as int + 114 * page.rgb@[k / 3 * 3 + 2] as int) / 1000,
        }
}

/// Whether a document decodes to the pictures of these pages, one for each, in
/// order.
pub open spec fn shows(document: Seq<u8>, pages: Seq<RenderedPage>, color: ColorMode) -> bool {
    &&& decoded(document) is Ok
    &&& decoded(document)->Ok_0.len() == pages.len()
    &&& forall|i: int|
        0 <= i < pages.len() ==> #[trigger] is_picture_of(
            decoded(document)->Ok_0[i],
            pages[i],
            color,
        )
}

/// Whether every page has a width, and three bytes for every pixel.
pub open spec fn are_filled(pages: Seq<RenderedPage>) -> bool {
    forall|i: int|
        #![trigger pages[i]]
        0 <= i < pages.len() ==> pages[i].width_px > 0 && pages[i].rgb@.len() == pages[i].height_px
            * (pages[i].width_px * 3)
}

/// A document of filled pages decodes to exactly those pages: as many, in
/// order, each of its size and with its own pixels.
pub proof fn law_documents_show_their_pages(
    pages: Seq<RenderedPage>,
    dpi: u32,
    color: ColorMode,
)
    requires
        pages.len() > 0,
        are_filled(pages),
        forall|i: int|
            #![trigger pages[i]]
            0 <= i < pages.len() ==> pages[i].width_px * 3 <= u32::MAX || color
                == ColorMode::Sgray8,
    ensures
        shows(encoded(pages, dpi, color), pages, color),
{
    assert forall|i: int| 0 <= i < pages.len() implies #[trigger] is_encodable(pages[i], color)
        && is_full(pages[i]) by {}
    law_document_round_trip(pages, dpi, color);
    let found = decoded(encoded(pages, dpi, color))->Ok_0;
    assert forall|i: int| 0 <= i < pages.len() implies #[trigger] is_picture_of(
        found[i],
        pages[i],
        color,
    ) by {
        let page = pages[i];
        assert(found[i] == restored(page, color));
        let rgb = page.rgb@;
        let (height, width) = (page.height_px as int, page.width_px as int);
        assert(height * (width * 3) == 3 * (height * width)) by (nonlinear_arith);
        if color == ColorMode::Sgray8 {
            assert forall|k: int| 0 <= k < found[i].rgb.len() implies (#[trigger] found[i].rgb[k])
                as int == (299 * rgb[k / 3 * 3] as int + 587 * rgb[k / 3 * 3 + 1] as int + 114
                * rgb[k / 3 * 3 + 2] as int) / 1000 by {
                law_gray_is_the_brightness_in_place(rgb, k / 3);
            }
        }
    }
}

/// Every line of a plain page starts at a multiple of the line's length, and
/// gives the bytes that hold its pixels.
proof fn lemma_row_pixels(pixels: Seq<u8>, lines: nat, bytes_per_line: int, row_len: int, y: int)
    requires
        0 <= row_len <= bytes_per_line,
        lines * bytes_per_line <= pixels.len(),
        0 <= y < lines,
    ensures
        0 <= y * row_len,
        y * row_len + row_len <= lines * row_len,
        0 <= y * bytes_per_line,
        y * bytes_per_line + bytes_per_line <= lines * bytes_per_line,
        row_pixels(pixels, lines, bytes_per_line, row_len).len() == lines * row_len,
        row_pixels(pixels, lines, bytes_per_line, row_len).subrange(
            y * row_len,
            y * row_len + row_len,
        ) == pixels.subrange(y * bytes_per_line, y * bytes_per_line + row_len),
    decreases lines,
{
    lemma_row_pixels_len(pixels, lines, bytes_per_line, row_len);
    assert(0 <= y * row_len && y * row_len + row_len <= lines * row_len && 0 <= y * bytes_per_line
        && y * bytes_per_line + bytes_per_line <= lines * bytes_per_line) by (nonlinear_arith)
        requires
            0 <= y < lines,
            0 <= row_len,
            0 <= bytes_per_line,
    ;
    let before = (lines - 1) as nat;
    assert(before * bytes_per_line <= lines * bytes_per_line) by (nonlinear_arith)
        requires
            before <= lines,
            bytes_per_line >= 0,
    ;
    lemma_row_pixels_len(pixels, before, bytes_per_line, row_len);
    let whole = row_pixels(pixels, lines, bytes_per_line, row_len);
    if y < before {
        lemma_row_pixels(pixels, before, bytes_per_line, row_len, y);
        assert(whole.subrange(y * row_len, y * row_len + row_len) =~= row_pixels(
            pixels,
            before,
            bytes_per_line,
            row_len,
        ).subrange(y * row_len, y * row_len + row_len));
    } else {
        assert(whole.subrange(y * row_len, y * row_len + row_len) =~= pixels.subrange(
            y * bytes_per_line,
            y * bytes_per_line + row_len,
        ));
    }
}

/// The pixel in column `x` of line `y` of a plain page is read from its own
/// place: in colour the three bytes there, in greyscale the one byte there for
/// all three.
pub proof fn law_plain_pixels_are_read_in_place(header: Header, pixels: Seq<u8>, x: int, y: int)
    requires
        header.bits_per_color == 8,
        header.colorspace == 18 || header.colorspace == 19,
        0 <= x < header.width,
        0 <= y < header.height,
        header.width * (if header.colorspace == 19 {
            3int
        } else {
            1int
        }) <= header.bytes_per_line,
        pixels.len() == header.height * header.bytes_per_line,
    ensures
        ({
            let rgb = plain_rgb(header, pixels)->Ok_0;
            let line = y * header.bytes_per_line;
            let at = 3 * (y * header.width + x);
            &&& plain_rgb(header, pixels) is Ok
            &&& rgb.len() == 3 * (header.height * header.width)
            &&& 0 <= at
            &&& at + 3 <= rgb.len()
            &&& header.colorspace == 19 ==> rgb[at] == pixels[line + 3 * x] && rgb[at + 1]
                == pixels[line + 3 * x + 1] && rgb[at + 2] == pixels[line + 3 * x + 2]
            &&& header.colorspace == 18 ==> rgb[at] == pixels[line + x] && rgb[at + 1]
                == pixels[line + x] && rgb[at + 2] == pixels[line + x]
        }),
{
    let (height, width) = (header.height as int, header.width as int);
    let bpl = header.bytes_per_line as int;
    let row_len = header.row_len();
    let rows = row_pixels(pixels, header.height as nat, bpl, row_len);
    lemma_row_pixels(pixels, header.height as nat, bpl, row_len, y);
    let row = rows.subrange(y * row_len, y * row_len + row_len);
    let line = pixels.subrange(y * bpl, y * bpl + row_len);
    assert(0 <= y * width + x && y * width + x + 1 <= height * width) by (nonlinear_arith)
        requires
            0 <= x < width,
            0 <= y < height,
    ;
    assert(height * (width * 3) == 3 * (height * width)) by (nonlinear_arith);
    assert(height * (width * 1) == height * width) by (nonlinear_arith);
    assert(y * (width * 3) == 3 * (y * width)) by (nonlinear_arith);
    assert(y * (width * 1) == y * width) by (nonlinear_arith);
    if header.colorspace == 19 {
        assert(row[3 * x] == line[3 * x] && row[3 * x + 1] == line[3 * x + 1] && row[3 * x + 2]
            == line[3 * x + 2]);
    } else {
        assert(row[x] == line[x]);
        let at = 3 * (y * width + x);
        assert(at / 3 == y * width + x && (at + 1) / 3 == y * width + x && (at + 2) / 3 == y * width
            + x);
    }
}

/// A document that isn't compressed, of a sync word, one header and the bytes
/// of its lines, decodes to one page of the header's size with those lines.
pub proof fn law_plain_documents_are_read(document: Seq<u8>)
    requires
        document.len() >= 1800,
        document.take(4) == seq![82u8, 97, 83, 50],
        !is_compressed(document),
        number_in(document, 388) == 8,
        number_in(document, 404) == 18 || number_in(document, 404) == 19,
        number_in(document, 396) > 0,
        number_in(document, 376) * (if number_in(document, 404) == 19 {
            3int
        } else {
            1int
        }) <= number_in(document, 396),
        document.len() == 1800 + number_in(document, 396) * number_in(document, 380),
    ensures
        ({
            let header = header_of(document.skip(4));
            let pages = decoded(document)->Ok_0;
            &&& decoded(document) is Ok
            &&& pages.len() == 1
            &&& pages[0].width == number_in(document, 376)
            &&& pages[0].height == number_in(document, 380)
            &&& header == (Header {
                width: number_in(document, 376) as u32,
                height: number_in(document, 380) as u32,
                bits_per_color: 8,
                bytes_per_line: number_in(document, 396) as u32,
                colorspace: number_in(document, 404) as u32,
            })
            &&& plain_rgb(header, document.skip(1800)) == Ok::<Seq<u8>, DecodeError>(pages[0].rgb)
        }),
{
    let data = document.skip(4);
    let header = header_of(data);
    let body = data.skip(HEADER_LEN as int);
    let data_len = header.bytes_per_line as nat * header.height as nat;
    assert(document.take(4) == sync_word());
    assert(body =~= document.skip(1800));
    assert(number_in(document, 396) * number_in(document, 380) == data_len);
    assert(body.take(data_len as int) =~= body);
    assert(body.skip(data_len as int).len() == 0);
    assert(plain_pages(body.skip(data_len as int)) == Ok::<Seq<PageView>, DecodeError>(
        Seq::empty(),
    ));
    assert(plain_pages(data) is Ok);
    let page = PageView {
        width: header.width,
        height: header.height,
        rgb: plain_rgb(header, body)->Ok_0,
    };
    assert(plain_pages(data)->Ok_0 =~= seq![page]);
}

/// What is no raster is refused for the first thing that is wrong with it: a
/// document that doesn't start with `RaS2`, one that is too short for a header,
/// a first page that is cut short, one that isn't 8-bit sRGB or greyscale.
pub proof fn law_what_is_no_raster_is_refused(document: Seq<u8>)
    ensures
        decoded(document) == Err::<Seq<PageView>, DecodeError>(DecodeError::BadSync) <==> !(
        document.len() >= 4 && document[0] == 82 && document[1] == 97 && document[2] == 83
            && document[3] == 50),
        document.len() >= 4 && document.take(4) == seq![82u8, 97, 83, 50] && document.len() < 1800
            ==> decoded(document) == Err::<Seq<PageView>, DecodeError>(
            DecodeError::TruncatedHeader,
        ),
        document.len() >= 1800 && document.take(4) == seq![82u8, 97, 83, 50] && !is_compressed(
            document,
        ) && document.len() - 1800 < number_in(document, 396) * number_in(document, 380) ==> (
        decoded(document) matches Err(DecodeError::TruncatedData { expected, got }) && got
            == (document.len() - 1800) as u64 && expected == (number_in(document, 396) * number_in(
            document,
            380,
        )) as u64),
        document.len() >= 1800 && document.take(4) == seq![82u8, 97, 83, 50] && !is_compressed(
            document,
        ) && document.len() - 1800 >= number_in(document, 396) * number_in(document, 380) && (
        number_in(document, 388) != 8 || (number_in(document, 404) != 18 && number_in(
            document,
            404,
        ) != 19)) ==> decoded(document) == Err::<Seq<PageView>, DecodeError>(
            DecodeError::UnsupportedColorspace(number_in(document, 404) as u32),
        ),
{
    let data = document.skip(4);
    if document.len() >= 4 {
        let four = document.take(4);
        assert(four[0] == document[0] && four[1] == document[1] && four[2] == document[2]
            && four[3] == document[3]);
        if document[0] == 82 && document[1] == 97 && document[2] == 83 && document[3] == 50 {
            assert(four =~= sync_word());
            lemma_no_bad_sync(data);
        }
    }
    if document.len() >= 1800 {
        let header = header_of(data);
        let body = data.skip(HEADER_LEN as int);
        assert(header.width == number_in(document, 376));
        assert(header.bytes_per_line * header.height == number_in(document, 396) * number_in(
            document,
            380,
        ));
    }
}

/// Pages behind a sync word are never refused for a missing one.
proof fn lemma_no_bad_sync(data: Seq<u8>)
    ensures
        plain_pages(data) matches Err(error) ==> error != DecodeError::BadSync,
    decreases data.len(),
{
    if data.len() >= HEADER_LEN {
        let header = header_of(data);
        let body = data.skip(HEADER_LEN as int);
        let data_len = header.bytes_per_line as nat * header.height as nat;
        if data_len <= body.len() {
            lemma_no_bad_sync(body.skip(data_len as int));
        }
    }
}

/// An error's text says what is wrong, with its numbers.
pub proof fn law_decode_errors_say_why(error: DecodeError)
    ensures
        match error {
            DecodeError::BadSync => error.message()
                == "not a PWG-Raster file (missing 'RaS2' sync word)"@,
            DecodeError::TruncatedHeader => error.message() == "truncated page header"@,
            DecodeError::TruncatedData { expected, got } => error.message()
                == "truncated page data: expected "@ + decimal(expected as nat) + " bytes, got "@
                + decimal(got as nat),
            DecodeError::UnsupportedColorspace(code) => error.message()
                == "unsupported colorspace code "@ + decimal(code as nat),
        },
{
}

/// A plain page whose lines are too short for its pixels is refused with how
/// many bytes they take and how many they have.
pub proof fn law_short_lines_are_refused(header: Header, pixels: Seq<u8>)
    requires
        header.bits_per_color == 8,
        header.colorspace == 18 || header.colorspace == 19,
        header.height > 0,
    ensures
        ({
            let row = header.width * (if header.colorspace == 19 {
                3int
            } else {
                1int
            });
            &&& 0 < header.bytes_per_line < row ==> plain_rgb(header, pixels) == Err::<
                Seq<u8>,
                DecodeError,
            >(
                DecodeError::TruncatedData {
                    expected: row as u64,
                    got: header.bytes_per_line as u64,
                },
            )
            &&& header.bytes_per_line == 0 && row > 0 ==> plain_rgb(header, pixels) == Err::<
                Seq<u8>,
                DecodeError,
            >(DecodeError::TruncatedData { expected: row as u64, got: 0 })
            &&& plain_rgb(header, pixels) is Ok <==> header.bytes_per_line > 0
                && header.bytes_per_line >= row
        }),
{
}

/// A decoded page is seen with all that it holds.
pub proof fn law_pages_are_seen_whole(pages: Seq<Page>, i: int)
    ensures
        page_views(pages).len() == pages.len(),
        0 <= i < pages.len() ==> page_views(pages)[i].width == pages[i].width && page_views(
            pages,
        )[i].height == pages[i].height && page_views(pages)[i].rgb == pages[i].rgb@,
{
}

/// Nothing is read as compressed but compressed pages, one right behind the
/// other up to the last byte: each with a header for 8-bit sRGB or greyscale
/// whose lines are as long as their pixels, and with all of its lines.
pub proof fn law_compressed_pages_fill_the_document(data: Seq<u8>)
    ensures
        packed_pages(data) matches Some(pages) ==> {
            &&& pages.len() == 0 <==> data.len() == 0
            &&& data.len() > 0 ==> {
                let components: int = if number_in(data, 400) == 19 {
                    3
                } else {
                    1
                };
                let read = unpacked_lines(
                    data.skip(1796),
                    number_in(data, 376) as nat,
                    number_in(data, 372) as nat,
                    components as nat,
                );
                &&& data.len() >= 1796
                &&& number_in(data, 384) == 8
                &&& number_in(data, 400) == 18 || number_in(data, 400) == 19
                &&& number_in(data, 372) > 0
                &&& number_in(data, 392) == number_in(data, 372) * components
                &&& read is Some
                &&& packed_pages((read->0).1) == Some(pages.drop_first())
                &&& pages[0].width == number_in(data, 372)
                &&& pages[0].height == number_in(data, 376)
                &&& components == 3 ==> pages[0].rgb == (read->0).0
                &&& components == 1 ==> pages[0].rgb.len() == 3 * (read->0).0.len() && forall|k: int|
                    0 <= k < pages[0].rgb.len() ==> #[trigger] pages[0].rgb[k] == (read->0).0[k / 3]
            }
        },
{
    if data.len() > 0 && packed_pages(data) is Some {
        let pages = packed_pages(data)->0;
        let header = header_of(data);
        let (pixels, rest) = unpacked_lines(
            data.skip(HEADER_LEN as int),
            header.height as nat,
            header.width as nat,
            header.bytes_per_pixel() as nat,
        )->0;
        lemma_unpacked_lines_rest(
            data.skip(HEADER_LEN as int),
            header.height as nat,
            header.width as nat,
            header.bytes_per_pixel() as nat,
        );
        let page = PageView {
            width: header.width,
            height: header.height,
            rgb: as_rgb(header, pixels),
        };
        assert(pages == seq![page] + packed_pages(rest)->0);
        assert(pages.drop_first() =~= packed_pages(rest)->0);
    }
}

} // verus!
