//! The document formats inkdrop supports, and a PWG Raster encoder for
//! rendered pages.

use bytes::{Bytes, BytesMut};
use vstd::prelude::*;
use vstd::std_specs::iter::IteratorSpec;
use vstd::string::StringSliceAdditionalSpecFns;
use vstd::utf8::{encode_utf8, is_ascii_chars_encode_utf8};

use crate::buffer::{buffer_bytes, frozen_bytes};
use crate::compression::{compress_page, compressed_page};
use crate::pdf::RenderedPage;
use crate::points::Points;
use crate::text::{eq_ignore_ascii_case, equal_ignoring_case, str_texts};

verus! {

/// The formats inkdrop knows how to target, PDF sent as-is or a raster format:
/// (IPP document-format MIME type, short display label).
pub open spec fn supported_formats() -> Seq<(Seq<char>, Seq<char>)> {
    seq![
        ("application/pdf"@, "PDF"@),
        ("image/urf"@, "URF"@),
        ("image/pwg-raster"@, "PWG-Raster"@),
    ]
}

/// Whether `formats` lists `mime`, ignoring case.
pub open spec fn lists(formats: Seq<Seq<char>>, mime: Seq<char>) -> bool {
    exists|i: int| 0 <= i < formats.len() && #[trigger] equal_ignoring_case(formats[i], mime)
}

/// The display labels of the [`supported_formats`] that `formats` lists, in
/// the order of [`supported_formats`].
pub open spec fn labels(formats: Seq<Seq<char>>) -> Seq<Seq<char>> {
    let listed = |format: (Seq<char>, Seq<char>)| lists(formats, format.0);
    supported_formats().filter(listed).map_values(|format: (Seq<char>, Seq<char>)| format.1)
}

/// The labels, format by format.
proof fn lemma_labels(formats: Seq<Seq<char>>)
    ensures
        labels(formats) == (if lists(formats, "application/pdf"@) {
            seq!["PDF"@]
        } else {
            seq![]
        }) + (if lists(formats, "image/urf"@) {
            seq!["URF"@]
        } else {
            seq![]
        }) + (if lists(formats, "image/pwg-raster"@) {
            seq!["PWG-Raster"@]
        } else {
            seq![]
        }),
{
    let listed = |format: (Seq<char>, Seq<char>)| lists(formats, format.0);
    let three = supported_formats();
    let two = three.drop_last();
    let one = two.drop_last();
    reveal_with_fuel(Seq::filter, 4);
    assert(one.drop_last() =~= Seq::empty());
    assert(three.filter(listed) =~= if listed(three[2]) {
        two.filter(listed).push(three[2])
    } else {
        two.filter(listed)
    });
    assert(two.filter(listed) =~= if listed(three[1]) {
        one.filter(listed).push(three[1])
    } else {
        one.filter(listed)
    });
    assert(one.filter(listed) =~= if listed(three[0]) {
        seq![three[0]]
    } else {
        seq![]
    });
}

/// What `a` lists, a list of all that stands in `a` lists as well.
proof fn lemma_listed_as_well(a: Seq<Seq<char>>, b: Seq<Seq<char>>, mime: Seq<char>)
    requires
        forall|i: int| 0 <= i < a.len() ==> lists(b, #[trigger] a[i]),
    ensures
        lists(a, mime) ==> lists(b, mime),
{
    if lists(a, mime) {
        let i = choose|i: int| 0 <= i < a.len() && #[trigger] equal_ignoring_case(a[i], mime);
        let k = choose|k: int| 0 <= k < b.len() && #[trigger] equal_ignoring_case(b[k], a[i]);
        assert(lists(b, a[i]));
        assert(equal_ignoring_case(b[k], mime));
    }
}

/// Which labels match is decided by which formats are listed, whatever their
/// case and in whatever order.
pub proof fn law_labels_ignore_case_and_order(a: Seq<Seq<char>>, b: Seq<Seq<char>>)
    requires
        forall|i: int| 0 <= i < a.len() ==> lists(b, #[trigger] a[i]),
        forall|i: int| 0 <= i < b.len() ==> lists(a, #[trigger] b[i]),
    ensures
        labels(a) == labels(b),
{
    let pdf = "application/pdf"@;
    let urf = "image/urf"@;
    let pwg = "image/pwg-raster"@;
    assert(lists(a, pdf) == lists(b, pdf) && lists(a, urf) == lists(b, urf) && lists(a, pwg)
        == lists(b, pwg)) by {
        lemma_listed_as_well(a, b, pdf);
        lemma_listed_as_well(b, a, pdf);
        lemma_listed_as_well(a, b, urf);
        lemma_listed_as_well(b, a, urf);
        lemma_listed_as_well(a, b, pwg);
        lemma_listed_as_well(b, a, pwg);
    }
    lemma_labels(a);
    lemma_labels(b);
}

/// Whether `formats` lists `mime`, ignoring case.
fn is_listed(formats: &Vec<&str>, mime: &str) -> (listed: bool)
    ensures
        listed == lists(str_texts(formats@), mime@),
{
    let mut i: usize = 0;
    while i < formats.len()
        invariant
            i <= formats.len(),
            forall|k: int|
                0 <= k < i ==> !#[trigger] equal_ignoring_case(str_texts(formats@)[k], mime@),
        decreases formats.len() - i,
    {
        if eq_ignore_ascii_case(formats[i], mime) {
            assert(equal_ignoring_case(str_texts(formats@)[i as int], mime@));
            return true;
        }
        i = i + 1;
    }
    false
}

/// Match `formats` (document-format strings, from either an mDNS "pdl" TXT
/// value or a live `document-format-supported` response) against the
/// [`supported_formats`], ignoring case, returning the display labels of
/// whichever match, in the order of the [`supported_formats`].
pub fn matching_labels<'a>(formats: impl Iterator<Item = &'a str>) -> (found: Vec<&'static str>)
    requires
        formats.obeys_prophetic_iter_laws(),
        formats.decrease() is Some,
    ensures
        str_texts(found@) == labels(str_texts(formats.remaining())),
{
    let mut rest = formats;
    let mut listed: Vec<&str> = Vec::new();
    loop
        invariant
            rest.obeys_prophetic_iter_laws(),
            rest.decrease() is Some,
            listed@ + rest.remaining() == formats.remaining(),
        ensures
            listed@ == formats.remaining(),
        decreases rest.decrease()->0,
    {
        match rest.next() {
            Some(format) => listed.push(format),
            None => break,
        }
    }
    let mut found: Vec<&'static str> = Vec::new();
    if is_listed(&listed, "application/pdf") {
        found.push("PDF");
    }
    if is_listed(&listed, "image/urf") {
        found.push("URF");
    }
    if is_listed(&listed, "image/pwg-raster") {
        found.push("PWG-Raster");
    }
    proof {
        lemma_labels(str_texts(listed@));
    }
    found
}

/// A PWG Raster colour mode, as named in `pwg-raster-document-type-supported`.
#[derive(Clone, Copy, Debug, PartialEq, Eq, Structural)]
pub enum ColorMode {
    /// `srgb_8`: 8-bit sRGB.
    Srgb8,
    /// `sgray_8`: 8-bit greyscale.
    Sgray8,
}

/// The `cups_cspace_t` value of greyscale on the wire.
pub const CUPS_CSPACE_SW: u32 = 18;

/// The `cups_cspace_t` value of sRGB on the wire.
pub const CUPS_CSPACE_SRGB: u32 = 19;

impl ColorMode {
    /// The `cups_cspace_t` value of this mode.
    pub open spec fn colorspace(self) -> u32 {
        match self {
            ColorMode::Srgb8 => CUPS_CSPACE_SRGB,
            ColorMode::Sgray8 => CUPS_CSPACE_SW,
        }
    }

    /// How many bytes a pixel has.
    pub open spec fn bytes_per_pixel(self) -> u32 {
        match self {
            ColorMode::Srgb8 => 3,
            ColorMode::Sgray8 => 1,
        }
    }

    /// The `cups_cspace_t` value of this mode.
    pub fn cups_colorspace(self) -> (value: u32)
        ensures
            value == self.colorspace(),
    {
        match self {
            ColorMode::Srgb8 => CUPS_CSPACE_SRGB,
            ColorMode::Sgray8 => CUPS_CSPACE_SW,
        }
    }

    /// How many 8-bit components a pixel has.
    pub fn components(self) -> (count: u32)
        ensures
            count == self.bytes_per_pixel(),
    {
        match self {
            ColorMode::Srgb8 => 3,
            ColorMode::Sgray8 => 1,
        }
    }
}

/// The size of a PWG Raster page header, which is big-endian throughout.
pub const HEADER_LEN: usize = 1796;

/// Where the page size's name stands in the header.
pub const PAGE_SIZE_NAME_AT: usize = 1732;

/// A `u32`, most significant byte first.
pub open spec fn be_bytes(value: u32) -> Seq<u8> {
    seq![
        (value / 0x100_0000) as u8,
        (value / 0x1_0000 % 256) as u8,
        (value / 0x100 % 256) as u8,
        (value % 256) as u8,
    ]
}

/// The words one behind the other, each most significant byte first.
pub open spec fn big_endian(words: Seq<u32>) -> Seq<u8>
    decreases words.len(),
{
    if words.len() == 0 {
        Seq::empty()
    } else {
        big_endian(words.drop_last()) + be_bytes(words.last())
    }
}

/// `count` bytes of zero.
pub open spec fn zeros(count: nat) -> Seq<u8> {
    Seq::new(count, |i: int| 0u8)
}

/// A NUL-terminated string in a 64-byte field.
pub open spec fn text_field(text: Seq<u8>) -> Seq<u8> {
    text + zeros((64 - text.len()) as nat)
}

/// The PWG self-describing media name of a page's size: that of the first
/// common paper size within two points of the page both ways, else empty.
pub open spec fn size_name(page: RenderedPage) -> Seq<char> {
    let is = |width: int, height: int|
        page.width_pts.is_near(width) && page.height_pts.is_near(height);
    if is(595, 842) {
        "iso_a4_210x297mm"@
    } else if is(420, 595) {
        "iso_a5_148x210mm"@
    } else if is(842, 1191) {
        "iso_a3_297x420mm"@
    } else if is(612, 792) {
        "na_letter_8.5x11in"@
    } else if is(612, 1008) {
        "na_legal_8.5x14in"@
    } else {
        ""@
    }
}

/// The header's word at `offset`. Fields that are not set here are reserved,
/// or mean "default" or "unspecified", and are zero.
pub open spec fn header_word(
    page: RenderedPage,
    dpi: u32,
    color: ColorMode,
    total_pages: u32,
    offset: int,
) -> u32 {
    if offset == 276 || offset == 280 {
        dpi  // HWResolution

    } else if offset == 340 {
        1  // NumCopies

    } else if offset == 352 {
        page.width_pts.rounded() as u32  // PageSize[0]

    } else if offset == 356 {
        page.height_pts.rounded() as u32  // PageSize[1]

    } else if offset == 372 || offset == 472 {
        page.width_px  // Width, ImageBoxRight

    } else if offset == 376 || offset == 476 {
        page.height_px  // Height, ImageBoxBottom

    } else if offset == 384 {
        8  // BitsPerColor

    } else if offset == 388 {
        (8 * color.bytes_per_pixel()) as u32  // BitsPerPixel

    } else if offset == 392 {
        (page.width_px * color.bytes_per_pixel()) as u32  // BytesPerLine

    } else if offset == 400 {
        color.colorspace()  // ColorSpace

    } else if offset == 420 {
        color.bytes_per_pixel()  // NumColors

    } else if offset == 452 {
        total_pages  // TotalPageCount

    } else if offset == 456 || offset == 460 {
        1  // CrossFeedTransform, FeedTransform

    } else {
        0
    }
}

/// The header's `count` words from `offset` on.
pub open spec fn header_words(
    page: RenderedPage,
    dpi: u32,
    color: ColorMode,
    total_pages: u32,
    offset: int,
    count: nat,
) -> Seq<u32> {
    Seq::new(count, |k: int| header_word(page, dpi, color, total_pages, offset + 4 * k))
}

/// The page header: the media class, the words, and the page size's name.
pub open spec fn header_bytes(
    page: RenderedPage,
    dpi: u32,
    color: ColorMode,
    total_pages: u32,
) -> Seq<u8> {
    text_field(encode_utf8("PwgRaster"@)) + big_endian(
        header_words(page, dpi, color, total_pages, 64, 417),
    ) + text_field(encode_utf8(size_name(page)))
}

/// The PWG self-describing media name for common paper sizes (see
/// [`size_name`]), which some printers use to select a tray; empty
/// (unspecified) for anything else.
pub fn page_size_name(page: &RenderedPage) -> (name: &'static str)
    ensures
        name@ == size_name(*page),
        encode_utf8(name@).len() < 64,
{
    let name = if is_sized(page, 595, 842) {
        "iso_a4_210x297mm"
    } else if is_sized(page, 420, 595) {
        "iso_a5_148x210mm"
    } else if is_sized(page, 842, 1191) {
        "iso_a3_297x420mm"
    } else if is_sized(page, 612, 792) {
        "na_letter_8.5x11in"
    } else if is_sized(page, 612, 1008) {
        "na_legal_8.5x14in"
    } else {
        ""
    };
    proof {
        reveal_strlit("iso_a4_210x297mm");
        reveal_strlit("iso_a5_148x210mm");
        reveal_strlit("iso_a3_297x420mm");
        reveal_strlit("na_letter_8.5x11in");
        reveal_strlit("na_legal_8.5x14in");
        reveal_strlit("");
        assert(name.is_ascii());
        assert(name.spec_bytes().len() < 64);
    }
    name
}

/// Whether the page is within two points of the given size, both ways.
fn is_sized(page: &RenderedPage, width: u32, height: u32) -> (sized: bool)
    requires
        3 <= width <= 0xffff,
        3 <= height <= 0xffff,
    ensures
        sized == (page.width_pts.is_near(width as int) && page.height_pts.is_near(height as int)),
{
    page.width_pts.near(width) && page.height_pts.near(height)
}

/// A header being written, first byte to last.
struct Writer {
    buf: Vec<u8>,
    /// What stands before the words.
    before: Ghost<Seq<u8>>,
    /// The words written so far.
    words: Ghost<Seq<u32>>,
}

impl Writer {
    spec fn valid(self) -> bool {
        self.buf@ == self.before@ + big_endian(self.words@)
    }

    /// A word, most significant byte first.
    fn u32(&mut self, v: u32)
        requires
            old(self).valid(),
        ensures
            final(self).valid(),
            final(self).before == old(self).before,
            final(self).words@ == old(self).words@.push(v),
    {
        let ghost start = self.buf@;
        self.buf.push((v / 0x100_0000) as u8);
        self.buf.push((v / 0x1_0000 % 256) as u8);
        self.buf.push((v / 0x100 % 256) as u8);
        self.buf.push((v % 256) as u8);
        assert(self.buf@ =~= start + be_bytes(v));
        proof {
            assert(self.words@.push(v).drop_last() =~= self.words@);
            assert(self.before@ + big_endian(self.words@) + be_bytes(v) =~= self.before@ + (
            big_endian(self.words@) + be_bytes(v)));
            self.words@ = self.words@.push(v);
        }
    }

    /// Words of zero.
    fn skip(&mut self, count: usize)
        requires
            old(self).valid(),
        ensures
            final(self).valid(),
            final(self).before == old(self).before,
            final(self).words@ == old(self).words@ + Seq::new(count as nat, |i: int| 0u32),
    {
        let mut i: usize = 0;
        let ghost start = self.words@;
        let ghost before = self.before@;
        while i < count
            invariant
                i <= count,
                self.valid(),
                self.before@ == before,
                self.words@ =~= start + Seq::new(i as nat, |k: int| 0u32),
            decreases count - i,
        {
            self.u32(0);
            i = i + 1;
        }
    }
}

/// `text` in a field of 64 bytes, to the end of `buf`.
fn put_text(buf: &mut Vec<u8>, text: &[u8])
    requires
        text@.len() < 64,
    ensures
        final(buf)@ == old(buf)@ + text_field(text@),
{
    let ghost start = buf@;
    let mut i: usize = 0;
    while i < 64
        invariant
            i <= 64,
            text@.len() < 64,
            buf@ =~= start + text_field(text@).subrange(0, i as int),
        decreases 64 - i,
    {
        let byte: u8 = if i < text.len() { text[i] } else { 0 };
        buf.push(byte);
        assert(byte == text_field(text@)[i as int]);
        i = i + 1;
    }
    assert(text_field(text@).subrange(0, 64) =~= text_field(text@));
}

/// The header's words up to and with the size of the sheet.
#[verifier::spinoff_prover]
#[verifier::rlimit(40)]
fn write_sheet(w: &mut Writer, page: &RenderedPage, dpi: u32)
    requires
        old(w).valid(),
    ensures
        final(w).valid(),
        final(w).before == old(w).before,
        forall|color: ColorMode, total_pages: u32|
            final(w).words@ == old(w).words@ + #[trigger] header_words(
                *page,
                dpi,
                color,
                total_pages,
                64,
                77,
            ),
{
    let ghost start = w.words@;
    w.skip(16);  // MediaColor
    w.skip(16);  // MediaType
    w.skip(16);  // PrintContentOptimize
    w.skip(4);  // Reserved (AdvanceDistance, AdvanceMedia, Collate), CutMedia
    w.u32(0);  // Duplex (false: one-sided)
    w.u32(dpi);  // HWResolution[0] (cross-feed / horizontal)
    w.u32(dpi);  // HWResolution[1] (feed / vertical)
    w.skip(4);  // Reserved (ImagingBoundingBox)
    w.skip(4);  // InsertSheet, Jog, LeadingEdge, Reserved (Margins[0])
    w.skip(2);  // Reserved (Margins[1], ManualFeed)
    w.u32(0);  // MediaPosition: auto
    w.u32(0);  // MediaWeight: unspecified
    w.skip(2);  // Reserved (MirrorPrint, NegativePrint)
    w.u32(1);  // NumCopies
    w.u32(0);  // Orientation: portrait
    w.skip(1);  // Reserved (OutputFaceUp)
    w.u32(page.width_pts.round());  // PageSize[0], points
    w.u32(page.height_pts.round());  // PageSize[1], points
    w.skip(2);  // Reserved (Separations, TraySwitch)
    w.u32(0);  // Tumble
    assert forall|color: ColorMode, total_pages: u32|
        w.words@ == start + #[trigger] header_words(
            *page,
            dpi,
            color,
            total_pages,
            64,
            77,
        ) by {
        assert(w.words@ =~= start + header_words(*page, dpi, color, total_pages, 64, 77));
    }
}

/// The header's words that describe the bitmap.
#[verifier::spinoff_prover]
#[verifier::rlimit(40)]
fn write_bitmap(w: &mut Writer, page: &RenderedPage, color: ColorMode)
    requires
        old(w).valid(),
        page.width_px * color.bytes_per_pixel() <= u32::MAX,
    ensures
        final(w).valid(),
        final(w).before == old(w).before,
        forall|dpi: u32, total_pages: u32|
            final(w).words@ == old(w).words@ + #[trigger] header_words(
                *page,
                dpi,
                color,
                total_pages,
                372,
                20,
            ),
{
    let ghost start = w.words@;
    w.u32(page.width_px);  // Width
    w.u32(page.height_px);  // Height
    w.skip(1);  // Reserved (cupsMediaType)
    w.u32(8);  // BitsPerColor
    w.u32(8 * color.components());  // BitsPerPixel
    w.u32(page.width_px * color.components());  // BytesPerLine (uncompressed)
    w.u32(0);  // ColorOrder: chunky
    w.u32(color.cups_colorspace());  // ColorSpace
    w.skip(4);  // Reserved (cupsCompression, cupsRowCount, cupsRowFeed, cupsRowStep)
    w.u32(color.components());  // NumColors
    w.skip(7);  // Reserved (cupsBorderlessScalingFactor, cupsPageSize, cupsImagingBBox)
    assert forall|dpi: u32, total_pages: u32|
        w.words@ == start + #[trigger] header_words(
            *page,
            dpi,
            color,
            total_pages,
            372,
            20,
        ) by {
        assert(w.words@ =~= start + header_words(*page, dpi, color, total_pages, 372, 20));
    }
}

/// The header's words behind those that describe the bitmap.
#[verifier::spinoff_prover]
#[verifier::rlimit(40)]
fn write_document(w: &mut Writer, page: &RenderedPage, total_pages: u32)
    requires
        old(w).valid(),
    ensures
        final(w).valid(),
        final(w).before == old(w).before,
        forall|dpi: u32, color: ColorMode|
            final(w).words@ == old(w).words@ + #[trigger] header_words(
                *page,
                dpi,
                color,
                total_pages,
                452,
                320,
            ),
{
    let ghost start = w.words@;
    w.u32(total_pages);  // TotalPageCount
    w.u32(1);  // CrossFeedTransform
    w.u32(1);  // FeedTransform
    w.u32(0);  // ImageBoxLeft
    w.u32(0);  // ImageBoxTop
    w.u32(page.width_px);  // ImageBoxRight
    w.u32(page.height_px);  // ImageBoxBottom
    w.u32(0);  // AlternatePrimary
    w.u32(0);  // PrintQuality: default
    w.skip(5);  // Reserved
    w.u32(0);  // VendorIdentifier
    w.u32(0);  // VendorLength
    w.skip(272);  // VendorData
    w.skip(16);  // Reserved (cupsMarkerType)
    w.skip(16);  // RenderingIntent
    assert forall|dpi: u32, color: ColorMode|
        w.words@ == start + #[trigger] header_words(
            *page,
            dpi,
            color,
            total_pages,
            452,
            320,
        ) by {
        assert(w.words@ =~= start + header_words(*page, dpi, color, total_pages, 452, 320));
    }
}

/// The page header (see [`header_bytes`]).
pub fn page_header(
    page: &RenderedPage,
    dpi: u32,
    color: ColorMode,
    total_pages: u32,
) -> (header: Vec<u8>)
    requires
        page.width_px * color.bytes_per_pixel() <= u32::MAX,
    ensures
        header@ == header_bytes(*page, dpi, color, total_pages),
{
    let media_class = "PwgRaster";
    proof {
        reveal_strlit("PwgRaster");
        assert(media_class.is_ascii());
    }
    let mut buf: Vec<u8> = Vec::new();
    put_text(&mut buf, media_class.as_bytes());
    let mut w = Writer { buf, before: Ghost(buf@), words: Ghost(Seq::empty()) };
    assert(w.buf@ =~= w.before@ + big_endian(w.words@));
    write_sheet(&mut w, page, dpi);
    write_bitmap(&mut w, page, color);
    write_document(&mut w, page, total_pages);
    proof {
        let all = |offset: int, count: nat|
            header_words(*page, dpi, color, total_pages, offset, count);
        assert(all(64, 77) + all(372, 20) + all(452, 320) =~= all(64, 417));
        assert(w.words@ =~= all(64, 417));
    }
    let mut header = w.buf;
    put_text(&mut header, page_size_name(page).as_bytes());
    header
}

/// The word that every PWG Raster document starts with.
pub open spec fn sync_word() -> Seq<u8> {
    seq![0x52u8, 0x61, 0x53, 0x32]
}

/// The brightness of pixel `i` of packed RGB8.
pub open spec fn luma(rgb: Seq<u8>, i: int) -> u8 {
    ((rgb[3 * i] * 299 + rgb[3 * i + 1] * 587 + rgb[3 * i + 2] * 114) / 1000) as u8
}

/// Packed RGB8 as greyscale; bytes that fill no pixel are dropped.
pub open spec fn grayscale(rgb: Seq<u8>) -> Seq<u8> {
    Seq::new(rgb.len() / 3, |i: int| luma(rgb, i))
}

/// A page's pixels in a colour mode.
pub open spec fn page_pixels(page: RenderedPage, color: ColorMode) -> Seq<u8> {
    match color {
        ColorMode::Srgb8 => page.rgb@,
        ColorMode::Sgray8 => grayscale(page.rgb@),
    }
}

/// A page of a document: its header and its compressed pixels.
pub open spec fn page_bytes(
    page: RenderedPage,
    dpi: u32,
    color: ColorMode,
    total_pages: u32,
) -> Seq<u8> {
    header_bytes(page, dpi, color, total_pages) + compressed_page(
        page_pixels(page, color),
        page.width_px as nat,
        color.bytes_per_pixel() as nat,
    )
}

/// The pages from `start` on, one behind the other.
pub open spec fn pages_bytes(
    pages: Seq<RenderedPage>,
    start: int,
    dpi: u32,
    color: ColorMode,
    total_pages: u32,
) -> Seq<u8>
    decreases pages.len() - start,
{
    if start >= pages.len() {
        Seq::empty()
    } else {
        page_bytes(pages[start], dpi, color, total_pages) + pages_bytes(
            pages,
            start + 1,
            dpi,
            color,
            total_pages,
        )
    }
}

/// The count of pages that every page header gives, modulo what a word holds.
pub open spec fn page_count(pages: Seq<RenderedPage>) -> u32 {
    (pages.len() % 0x1_0000_0000) as u32
}

/// `pages` as a PWG Raster document.
pub open spec fn encoded(pages: Seq<RenderedPage>, dpi: u32, color: ColorMode) -> Seq<u8> {
    sync_word() + pages_bytes(pages, 0, dpi, color, page_count(pages))
}

/// A page that can be encoded: it has a width, and a line of it a length that
/// its header can hold.
pub open spec fn is_encodable(page: RenderedPage, color: ColorMode) -> bool {
    &&& page.width_px > 0
    &&& page.width_px * color.bytes_per_pixel() <= u32::MAX
}

/// Packed RGB8 as greyscale (see [`grayscale`]).
fn to_grayscale(rgb: &Vec<u8>) -> (gray: Vec<u8>)
    ensures
        gray@ == grayscale(rgb@),
{
    let count: usize = rgb.len() / 3;
    let mut gray: Vec<u8> = Vec::new();
    let mut i: usize = 0;
    while i < count
        invariant
            count == rgb.len() / 3,
            i <= count,
            gray@.len() == i,
            forall|k: int| 0 <= k < i ==> gray@[k] == luma(rgb@, k),
        decreases count - i,
    {
        let (r, g, b) = (rgb[3 * i] as u32, rgb[3 * i + 1] as u32, rgb[3 * i + 2] as u32);
        gray.push(((r * 299 + g * 587 + b * 114) / 1000) as u8);
        i = i + 1;
    }
    assert(gray@ =~= grayscale(rgb@));
    gray
}

/// Encode `pages` as a PWG Raster (`image/pwg-raster`) document at `dpi` dots
/// per inch in colour mode `color`, returning its bytes (see [`encoded`]).
/// Pages must have been rendered at `dpi`.
pub fn encode(pages: &[RenderedPage], dpi: u32, color: ColorMode) -> (document: Bytes)
    requires
        forall|i: int| 0 <= i < pages@.len() ==> #[trigger] is_encodable(pages@[i], color),
    ensures
        frozen_bytes(document) == encoded(pages@, dpi, color),
{
    let mut out = BytesMut::new();
    let sync: [u8; 4] = [0x52, 0x61, 0x53, 0x32];
    out.extend_from_slice(&sync);
    assert(buffer_bytes(out) =~= sync_word());
    let total_pages: u32 = (pages.len() as u64 % 0x1_0000_0000) as u32;
    let bytes_per_pixel: usize = color.components() as usize;
    let mut index: usize = 0;
    while index < pages.len()
        invariant
            index <= pages.len(),
            total_pages == page_count(pages@),
            bytes_per_pixel == color.bytes_per_pixel(),
            forall|i: int| 0 <= i < pages@.len() ==> #[trigger] is_encodable(pages@[i], color),
            buffer_bytes(out) + pages_bytes(pages@, index as int, dpi, color, total_pages)
                == encoded(pages@, dpi, color),
        decreases pages.len() - index,
    {
        let page = &pages[index];
        assert(is_encodable(pages@[index as int], color));
        let ghost before = buffer_bytes(out);
        let header = page_header(page, dpi, color, total_pages);
        out.extend_from_slice(header.as_slice());
        match color {
            ColorMode::Srgb8 => compress_page(
                &mut out,
                page.rgb.as_slice(),
                page.width_px as usize,
                bytes_per_pixel,
            ),
            ColorMode::Sgray8 => {
                let gray = to_grayscale(&page.rgb);
                compress_page(&mut out, gray.as_slice(), page.width_px as usize, bytes_per_pixel)
            },
        }
        assert(buffer_bytes(out) =~= before + page_bytes(*page, dpi, color, total_pages));
        assert(buffer_bytes(out) + pages_bytes(pages@, index + 1, dpi, color, total_pages)
            =~= before + pages_bytes(pages@, index as int, dpi, color, total_pages));
        index = index + 1;
    }
    assert(buffer_bytes(out) + Seq::<u8>::empty() =~= buffer_bytes(out));
    out.freeze()
}

proof fn lemma_big_endian(words: Seq<u32>)
    ensures
        big_endian(words).len() == 4 * words.len(),
        forall|k: int|
            0 <= k < words.len() ==> #[trigger] big_endian(words).subrange(4 * k, 4 * k + 4)
                == be_bytes(words[k]),
    decreases words.len(),
{
    if words.len() > 0 {
        let before = words.drop_last();
        lemma_big_endian(before);
        assert forall|k: int| 0 <= k < words.len() implies #[trigger] big_endian(words).subrange(
            4 * k,
            4 * k + 4,
        ) == be_bytes(words[k]) by {
            if k < before.len() {
                assert(big_endian(words).subrange(4 * k, 4 * k + 4) =~= big_endian(
                    before,
                ).subrange(4 * k, 4 * k + 4));
            } else {
                assert(big_endian(words).subrange(4 * k, 4 * k + 4) =~= be_bytes(words[k]));
            }
        }
    }
}

/// The header's texts are shorter than the fields they stand in.
proof fn lemma_text_lengths(page: RenderedPage)
    ensures
        encode_utf8("PwgRaster"@).len() < 64,
        encode_utf8(size_name(page)).len() < 64,
{
    reveal_strlit("PwgRaster");
    reveal_strlit("iso_a4_210x297mm");
    reveal_strlit("iso_a5_148x210mm");
    reveal_strlit("iso_a3_297x420mm");
    reveal_strlit("na_letter_8.5x11in");
    reveal_strlit("na_legal_8.5x14in");
    reveal_strlit("");
    is_ascii_chars_encode_utf8("PwgRaster"@);
    is_ascii_chars_encode_utf8(size_name(page));
}

/// A page header is [`HEADER_LEN`] bytes long: the media class, then at every
/// word's offset that word, and at [`PAGE_SIZE_NAME_AT`] the page size's name.
pub proof fn law_header_layout(page: RenderedPage, dpi: u32, color: ColorMode, total_pages: u32)
    ensures
        header_bytes(page, dpi, color, total_pages).len() == HEADER_LEN,
        header_bytes(page, dpi, color, total_pages).take(64) == text_field(
            encode_utf8("PwgRaster"@),
        ),
        forall|offset: int|
            64 <= offset < PAGE_SIZE_NAME_AT && offset % 4 == 0 ==> #[trigger] header_bytes(
                page,
                dpi,
                color,
                total_pages,
            ).subrange(offset, offset + 4) == be_bytes(
                header_word(page, dpi, color, total_pages, offset),
            ),
        header_bytes(page, dpi, color, total_pages).skip(PAGE_SIZE_NAME_AT as int) == text_field(
            encode_utf8(size_name(page)),
        ),
{
    let words = header_words(page, dpi, color, total_pages, 64, 417);
    lemma_text_lengths(page);
    lemma_words_between(
        text_field(encode_utf8("PwgRaster"@)),
        words,
        text_field(encode_utf8(size_name(page))),
    );
    let header = header_bytes(page, dpi, color, total_pages);
    assert forall|offset: int|
        64 <= offset < PAGE_SIZE_NAME_AT && offset % 4 == 0 implies #[trigger] header.subrange(
        offset,
        offset + 4,
    ) == be_bytes(header_word(page, dpi, color, total_pages, offset)) by {
        let k = (offset - 64) / 4;
        assert(offset == 64 + 4 * k);
        assert(words[k] == header_word(page, dpi, color, total_pages, 64 + 4 * k));
    }
}

/// Words between two fields of 64 bytes.
proof fn lemma_words_between(first: Seq<u8>, words: Seq<u32>, last: Seq<u8>)
    requires
        first.len() == 64,
        words.len() == 417,
        last.len() == 64,
    ensures
        (first + big_endian(words) + last).len() == HEADER_LEN,
        (first + big_endian(words) + last).take(64) == first,
        forall|offset: int|
            64 <= offset < PAGE_SIZE_NAME_AT && offset % 4 == 0 ==> #[trigger] (first + big_endian(
                words,
            ) + last).subrange(offset, offset + 4) == be_bytes(words[(offset - 64) / 4]),
        (first + big_endian(words) + last).skip(PAGE_SIZE_NAME_AT as int) == last,
{
    let header = first + big_endian(words) + last;
    lemma_big_endian(words);
    assert(header.take(64) =~= first);
    assert(header.skip(PAGE_SIZE_NAME_AT as int) =~= last);
    assert forall|offset: int|
        64 <= offset < PAGE_SIZE_NAME_AT && offset % 4 == 0 implies #[trigger] header.subrange(
        offset,
        offset + 4,
    ) == be_bytes(words[(offset - 64) / 4]) by {
        let k = (offset - 64) / 4;
        assert(header.subrange(offset, offset + 4) =~= big_endian(words).subrange(
            4 * k,
            4 * k + 4,
        ));
    }
}

/// A document without pages is the sync word alone.
pub proof fn law_no_pages(dpi: u32, color: ColorMode)
    ensures
        encoded(Seq::empty(), dpi, color) == sync_word(),
{
    assert(encoded(Seq::empty(), dpi, color) =~= sync_word());
}

/// Every grey byte is the brightness of the pixel at its own place: of its red,
/// green and blue 299, 587 and 114 thousandths, rounded down.
pub proof fn law_gray_is_the_brightness_in_place(rgb: Seq<u8>, i: int)
    requires
        0 <= i,
        3 * i + 3 <= rgb.len(),
    ensures
        i < grayscale(rgb).len() == rgb.len() / 3,
        grayscale(rgb)[i] as int == (299 * rgb[3 * i] as int + 587 * rgb[3 * i + 1] as int + 114
            * rgb[3 * i + 2] as int) / 1000,
{
}

/// Grey pixels stay as they are, white and black among them, and a pixel that
/// is nowhere brighter than another doesn't come out brighter.
pub proof fn law_gray_keeps_order(rgb: Seq<u8>, i: int, k: int)
    requires
        0 <= i,
        3 * i + 3 <= rgb.len(),
        0 <= k,
        3 * k + 3 <= rgb.len(),
    ensures
        rgb[3 * i] == rgb[3 * i + 1] == rgb[3 * i + 2] ==> grayscale(rgb)[i] == rgb[3 * i],
        rgb[3 * i] <= rgb[3 * k] && rgb[3 * i + 1] <= rgb[3 * k + 1] && rgb[3 * i + 2] <= rgb[3 * k
            + 2] ==> grayscale(rgb)[i] <= grayscale(rgb)[k],
{
    law_gray_is_the_brightness_in_place(rgb, i);
    law_gray_is_the_brightness_in_place(rgb, k);
}

/// A page's pixels are those of the page in colour; in greyscale there is one
/// byte for every three, and all of them depend on nothing but those.
pub proof fn law_pixels_are_the_pages_own(page: RenderedPage, color: ColorMode)
    ensures
        color == ColorMode::Srgb8 ==> page_pixels(page, color) == page.rgb@,
        color == ColorMode::Sgray8 ==> page_pixels(page, color).len() == page.rgb@.len() / 3 && (
        forall|i: int|
            0 <= i < page.rgb@.len() / 3 ==> #[trigger] page_pixels(page, color)[i] as int == (299
                * page.rgb@[3 * i] as int + 587 * page.rgb@[3 * i + 1] as int + 114
                * page.rgb@[3 * i + 2] as int) / 1000),
{
    if color == ColorMode::Sgray8 {
        assert forall|i: int| 0 <= i < page.rgb@.len() / 3 implies #[trigger] page_pixels(
            page,
            color,
        )[i] as int == (299 * page.rgb@[3 * i] as int + 587 * page.rgb@[3 * i + 1] as int + 114
            * page.rgb@[3 * i + 2] as int) / 1000 by {
            law_gray_is_the_brightness_in_place(page.rgb@, i);
        }
    }
}

/// A supported format's label is given if and only if one of the formats names
/// it, in whatever case: PDF first, URF behind it, PWG-Raster last, and none
/// of them twice.
pub proof fn law_labels_are_of_what_is_listed(formats: Seq<Seq<char>>)
    ensures
        labels(formats).contains("PDF"@) <==> exists|i: int|
            0 <= i < formats.len() && #[trigger] equal_ignoring_case(
                formats[i],
                "application/pdf"@,
            ),
        labels(formats).contains("URF"@) <==> exists|i: int|
            0 <= i < formats.len() && #[trigger] equal_ignoring_case(formats[i], "image/urf"@),
        labels(formats).contains("PWG-Raster"@) <==> exists|i: int|
            0 <= i < formats.len() && #[trigger] equal_ignoring_case(
                formats[i],
                "image/pwg-raster"@,
            ),
        labels(formats).no_duplicates(),
        labels(formats).len() <= 3,
        forall|i: int|
            0 <= i < labels(formats).len() ==> #[trigger] labels(formats)[i] == "PDF"@ || labels(
                formats,
            )[i] == "URF"@ || labels(formats)[i] == "PWG-Raster"@,
        labels(formats).len() > 0 && labels(formats).contains("PDF"@) ==> labels(formats)[0]
            == "PDF"@,
        labels(formats).len() > 0 && labels(formats).contains("PWG-Raster"@) ==> labels(
            formats,
        ).last() == "PWG-Raster"@,
{
    reveal_strlit("PDF");
    reveal_strlit("URF");
    reveal_strlit("PWG-Raster");
    assert("PDF"@[0] == 'P' && "URF"@[0] == 'U' && "PDF"@.len() == 3 && "URF"@.len() == 3
        && "PWG-Raster"@.len() == 10);
    lemma_labels(formats);
    let found = labels(formats);
    let (pdf, urf, pwg) = (
        lists(formats, "application/pdf"@),
        lists(formats, "image/urf"@),
        lists(formats, "image/pwg-raster"@),
    );
    if pdf {
        assert(found[0] == "PDF"@);
    }
    if urf {
        assert(found[if pdf { 1 } else { 0 }] == "URF"@);
    }
    if pwg {
        assert(found.last() == "PWG-Raster"@);
        assert(found[found.len() - 1] == "PWG-Raster"@);
    }
}

/// The number in the four bytes at `at`, most significant first.
pub open spec fn number_in(bytes: Seq<u8>, at: int) -> int {
    bytes[at] * 16777216 + bytes[at + 1] * 65536 + bytes[at + 2] * 256 + bytes[at + 3]
}

/// A word is read back from its four bytes.
proof fn lemma_number_in(bytes: Seq<u8>, at: int, word: u32)
    requires
        0 <= at,
        at + 4 <= bytes.len(),
        bytes.subrange(at, at + 4) == be_bytes(word),
    ensures
        number_in(bytes, at) == word,
{
    let four = bytes.subrange(at, at + 4);
    assert(four[0] == bytes[at] && four[1] == bytes[at + 1] && four[2] == bytes[at + 2] && four[3]
        == bytes[at + 3]);
}

/// Where a page header holds a word that isn't zero.
pub open spec fn is_field(offset: int) -> bool {
    offset == 276 || offset == 280 || offset == 340 || offset == 352 || offset == 356 || offset
        == 372 || offset == 376 || offset == 384 || offset == 388 || offset == 392 || offset == 400
        || offset == 420 || offset == 452 || offset == 456 || offset == 460 || offset == 472
        || offset == 476
}

/// A page header gives the resolution both ways, one copy, the sheet's size in
/// points, the bitmap's size in pixels twice, eight bits a component, the bits
/// of a pixel, the bytes of a line, the colour space and its components, the
/// count of pages and that the page is not turned; every other word is zero.
pub proof fn law_header_fields(page: RenderedPage, dpi: u32, color: ColorMode, total_pages: u32)
    requires
        page.width_px * color.bytes_per_pixel() <= u32::MAX,
    ensures
        ({
            let header = header_bytes(page, dpi, color, total_pages);
            let components: int = if color == ColorMode::Srgb8 {
                3
            } else {
                1
            };
            &&& header.len() == 1796
            &&& number_in(header, 276) == dpi
            &&& number_in(header, 280) == dpi
            &&& number_in(header, 340) == 1
            &&& number_in(header, 352) == page.width_pts.rounded()
            &&& number_in(header, 356) == page.height_pts.rounded()
            &&& number_in(header, 372) == page.width_px
            &&& number_in(header, 376) == page.height_px
            &&& number_in(header, 384) == 8
            &&& number_in(header, 388) == 8 * components
            &&& number_in(header, 392) == page.width_px * components
            &&& number_in(header, 400) == (if color == ColorMode::Srgb8 {
                19int
            } else {
                18int
            })
            &&& number_in(header, 420) == components
            &&& number_in(header, 452) == total_pages
            &&& number_in(header, 456) == 1
            &&& number_in(header, 460) == 1
            &&& number_in(header, 472) == page.width_px
            &&& number_in(header, 476) == page.height_px
            &&& forall|offset: int|
                64 <= offset < 1732 && offset % 4 == 0 && !is_field(offset) ==> #[trigger]
                    number_in(header, offset) == 0
        }),
{
    let header = header_bytes(page, dpi, color, total_pages);
    law_header_layout(page, dpi, color, total_pages);
    assert forall|offset: int| 64 <= offset < 1732 && offset % 4 == 0 implies #[trigger] number_in(
        header,
        offset,
    ) == header_word(page, dpi, color, total_pages, offset) by {
        lemma_number_in(header, offset, header_word(page, dpi, color, total_pages, offset));
    }
    lemma_rounded_fits(page.width_pts);
    lemma_rounded_fits(page.height_pts);
    assert(number_in(header, 276) == header_word(page, dpi, color, total_pages, 276));
    assert(number_in(header, 352) == header_word(page, dpi, color, total_pages, 352));
    assert(number_in(header, 356) == header_word(page, dpi, color, total_pages, 356));
}

/// A rounded length fits in a word.
proof fn lemma_rounded_fits(length: Points)
    ensures
        0 <= length.rounded() <= u32::MAX,
{
    length.lemma_rounded();
}

/// A page header starts with the media class `PwgRaster` and ends with the
/// page size's name, each with nothing but zeros behind it up to 64 bytes.
pub proof fn law_header_texts(page: RenderedPage, dpi: u32, color: ColorMode, total_pages: u32)
    ensures
        ({
            let header = header_bytes(page, dpi, color, total_pages);
            let name = size_name(page);
            &&& header.len() == 1796
            &&& header.take(9) == seq![80u8, 119, 103, 82, 97, 115, 116, 101, 114]
            &&& forall|i: int| 9 <= i < 64 ==> #[trigger] header[i] == 0
            &&& name.len() < 64
            &&& forall|i: int|
                0 <= i < name.len() ==> (#[trigger] header[1732 + i]) as int == name[i] as int
            &&& forall|i: int| 1732 + name.len() <= i < 1796 ==> #[trigger] header[i] == 0
        }),
{
    let header = header_bytes(page, dpi, color, total_pages);
    let name = size_name(page);
    law_header_layout(page, dpi, color, total_pages);
    lemma_text_lengths(page);
    reveal_strlit("PwgRaster");
    reveal_strlit("iso_a4_210x297mm");
    reveal_strlit("iso_a5_148x210mm");
    reveal_strlit("iso_a3_297x420mm");
    reveal_strlit("na_letter_8.5x11in");
    reveal_strlit("na_legal_8.5x14in");
    reveal_strlit("");
    is_ascii_chars_encode_utf8("PwgRaster"@);
    is_ascii_chars_encode_utf8(name);
    let class = encode_utf8("PwgRaster"@);
    let field = encode_utf8(name);
    assert forall|i: int| 0 <= i < 64 implies #[trigger] header[i] == text_field(class)[i] by {
        assert(header.take(64)[i] == header[i]);
    }
    assert forall|i: int| 1732 <= i < 1796 implies #[trigger] header[i] == text_field(field)[i
        - 1732] by {
        assert(header.skip(1732)[i - 1732] == header[i]);
    }
    assert(class.len() == 9);
    assert(header.take(9) =~= seq![80u8, 119, 103, 82, 97, 115, 116, 101, 114]);
}

/// A page is named by the first of A4, A5, A3, Letter and Legal that it is
/// within two points of both ways, upright, and by nothing else.
pub proof fn law_page_sizes(page: RenderedPage)
    ensures
        ({
            let (w, h) = (page.width_pts, page.height_pts);
            let a4 = w.is_near(595) && h.is_near(842);
            let a5 = w.is_near(420) && h.is_near(595);
            let a3 = w.is_near(842) && h.is_near(1191);
            let letter = w.is_near(612) && h.is_near(792);
            let legal = w.is_near(612) && h.is_near(1008);
            &&& a4 ==> size_name(page) == "iso_a4_210x297mm"@
            &&& a5 && !a4 ==> size_name(page) == "iso_a5_148x210mm"@
            &&& a3 && !a4 && !a5 ==> size_name(page) == "iso_a3_297x420mm"@
            &&& letter && !a4 && !a5 && !a3 ==> size_name(page) == "na_letter_8.5x11in"@
            &&& legal && !a4 && !a5 && !a3 && !letter ==> size_name(page) == "na_legal_8.5x14in"@
            &&& !a4 && !a5 && !a3 && !letter && !legal <==> size_name(page).len() == 0
        }),
{
    reveal_strlit("");
    reveal_strlit("iso_a4_210x297mm");
    reveal_strlit("iso_a5_148x210mm");
    reveal_strlit("iso_a3_297x420mm");
    reveal_strlit("na_letter_8.5x11in");
    reveal_strlit("na_legal_8.5x14in");
}

/// Where page `i` of a document starts.
pub open spec fn page_start(
    pages: Seq<RenderedPage>,
    dpi: u32,
    color: ColorMode,
    i: int,
) -> int {
    encoded(pages, dpi, color).len() - pages_bytes(pages, i, dpi, color, page_count(pages)).len()
}

/// A document starts with the bytes `RaS2`, and each of its pages with its own
/// header, which gives the count of all of them; the first stands right behind
/// the sync word, each other behind the one before it.
pub proof fn law_every_page_has_its_header(
    pages: Seq<RenderedPage>,
    dpi: u32,
    color: ColorMode,
    i: int,
)
    requires
        0 <= i < pages.len() <= u32::MAX,
    ensures
        ({
            let document = encoded(pages, dpi, color);
            let at = page_start(pages, dpi, color, i);
            &&& document.take(4) == seq![82u8, 97, 83, 50]
            &&& i == 0 ==> at == 4
            &&& 4 <= at
            &&& at + 1796 <= document.len()
            &&& document.subrange(at, at + 1796) == header_bytes(
                pages[i],
                dpi,
                color,
                pages.len() as u32,
            )
            &&& i > 0 ==> page_start(pages, dpi, color, i - 1) + 1796 <= at
        }),
    decreases i,
{
    let count = page_count(pages);
    let document = encoded(pages, dpi, color);
    let at = page_start(pages, dpi, color, i);
    law_header_layout(pages[i], dpi, color, count);
    lemma_pages_at(pages, dpi, color, i);
    let rest = pages_bytes(pages, i, dpi, color, count);
    let header = header_bytes(pages[i], dpi, color, count);
    assert(rest.take(1796) =~= header);
    assert(document.subrange(at, at + 1796) =~= document.skip(at).take(1796));
    assert(document.take(4) =~= seq![82u8, 97, 83, 50]);
    if i > 0 {
        law_header_layout(pages[i - 1], dpi, color, count);
    }
}

/// Between a page's header and where the next page starts, or the document
/// ends, stand that page's own pixels, compressed in lines of its width, and
/// nothing else.
pub proof fn law_every_page_has_its_pixels(
    pages: Seq<RenderedPage>,
    dpi: u32,
    color: ColorMode,
    i: int,
)
    requires
        0 <= i < pages.len(),
    ensures
        ({
            let document = encoded(pages, dpi, color);
            let at = page_start(pages, dpi, color, i) + 1796;
            let end = page_start(pages, dpi, color, i + 1);
            &&& 0 <= at <= end <= document.len()
            &&& i + 1 == pages.len() ==> end == document.len()
            &&& color == ColorMode::Srgb8 ==> document.subrange(at, end) == compressed_page(
                pages[i].rgb@,
                pages[i].width_px as nat,
                3,
            )
            &&& color == ColorMode::Sgray8 ==> document.subrange(at, end) == compressed_page(
                grayscale(pages[i].rgb@),
                pages[i].width_px as nat,
                1,
            )
        }),
{
    let count = page_count(pages);
    let document = encoded(pages, dpi, color);
    let start = page_start(pages, dpi, color, i);
    let end = page_start(pages, dpi, color, i + 1);
    law_header_layout(pages[i], dpi, color, count);
    lemma_pages_at(pages, dpi, color, i);
    lemma_pages_at(pages, dpi, color, i + 1);
    let header = header_bytes(pages[i], dpi, color, count);
    let page = page_bytes(pages[i], dpi, color, count);
    let rest = pages_bytes(pages, i + 1, dpi, color, count);
    assert(document.skip(start) == page + rest);
    assert(end == start + page.len());
    assert(document.subrange(start + 1796, end) =~= document.skip(start).subrange(
        1796,
        page.len() as int,
    ));
    assert((page + rest).subrange(1796, page.len() as int) =~= page.skip(1796));
    assert(page.skip(1796) =~= compressed_page(
        page_pixels(pages[i], color),
        pages[i].width_px as nat,
        color.bytes_per_pixel() as nat,
    ));
}

/// A document ends with its pages from any of them on.
proof fn lemma_pages_at(pages: Seq<RenderedPage>, dpi: u32, color: ColorMode, i: int)
    requires
        0 <= i <= pages.len(),
    ensures
        4 <= page_start(pages, dpi, color, i) <= encoded(pages, dpi, color).len(),
        encoded(pages, dpi, color).skip(page_start(pages, dpi, color, i)) == pages_bytes(
            pages,
            i,
            dpi,
            color,
            page_count(pages),
        ),
    decreases i,
{
    let count = page_count(pages);
    let document = encoded(pages, dpi, color);
    if i == 0 {
        assert(document.skip(4) =~= pages_bytes(pages, 0, dpi, color, count));
    } else {
        lemma_pages_at(pages, dpi, color, i - 1);
        let before = page_start(pages, dpi, color, i - 1);
        let page = page_bytes(pages[i - 1], dpi, color, count);
        let rest = pages_bytes(pages, i, dpi, color, count);
        assert(document.skip(before) == page + rest);
        assert(document.skip(before + page.len()) =~= document.skip(before).skip(
            page.len() as int,
        ));
        assert((page + rest).skip(page.len() as int) =~= rest);
    }
}

} // verus!
