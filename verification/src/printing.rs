//! Sends a PDF to an IPP printer: asks what it accepts, converts the PDF to
//! PWG-Raster if need be, and submits a Print-Job.

use bytes::Bytes;
use ipp::model::IppVersion;
use ipp::IppHeader;
use vstd::prelude::*;
use vstd::utf8::{is_ascii_chars, is_ascii_chars_encode_utf8};

use crate::buffer::{as_slice, frozen_bytes};
use crate::message::{
    item_views, lookup, message_of, parsed, Item, ItemView, Kind, Message, MessageView, Value,
    ValueView, JOB_ATTRIBUTES, OPERATION_ATTRIBUTES, PRINTER_ATTRIBUTES,
};
use crate::pdf::{RenderError, RenderedPage};
use crate::raster::{
    encode, encoded, is_encodable, labels, law_every_page_has_its_header, law_header_fields,
    law_labels_are_of_what_is_listed, matching_labels, number_in, ColorMode,
};
use crate::request::{
    fits, get_attributes, get_attributes_bytes, is_addressable, print_job, print_job_bytes,
    write_get_attributes, write_print_job,
};
use crate::simulator::raster::{are_filled, law_documents_show_their_pages, shows};
use crate::text::{
    eq_ignore_ascii_case, equal_ignoring_case, integer, signed_decimal, str_texts, texts,
};
use crate::uri::{parse_uri, parsed_uri, text_of, ParsedUri};

verus! {

/// The name of an IPP status, as the `ipp` crate's `Debug` writes it.
pub uninterp spec fn status_name(code: i16) -> Seq<char>;

/// [`IppHeader::status_code`] and the status's `Debug`: the name of the status
/// that a response's code stands for.
#[verifier::external_body]
fn name_status(code: i16) -> (name: String)
    ensures
        name@ == status_name(code),
{
    format!("{:?}", IppHeader::new(IppVersion::v1_1(), code, 0).status_code())
}

/// The status of an IPP response.
#[derive(Clone, Copy, Debug, PartialEq, Eq, Structural)]
pub struct StatusCode {
    /// Its number; -1 stands for any that IPP doesn't define.
    pub code: i16,
}

impl StatusCode {
    /// The status that a response's code stands for: itself where it is one of
    /// the successes, client errors and server errors that IPP defines.
    pub open spec fn of(code: i16) -> StatusCode {
        if 0 <= code <= 2 || 0x400 <= code <= 0x412 || 0x500 <= code <= 0x509 {
            StatusCode { code }
        } else {
            StatusCode { code: (-1) as i16 }
        }
    }

    /// The status that a response's code stands for (see [`StatusCode::of`]).
    pub fn new(code: i16) -> (status: StatusCode)
        ensures
            status == StatusCode::of(code),
    {
        if (0 <= code && code <= 2) || (0x400 <= code && code <= 0x412) || (0x500 <= code && code
            <= 0x509) {
            StatusCode { code }
        } else {
            StatusCode { code: -1 }
        }
    }

    /// One of the successes.
    pub open spec fn successful(self) -> bool {
        0 <= self.code <= 2
    }

    /// Whether this is one of the successes.
    pub fn is_success(self) -> (success: bool)
        ensures
            success == self.successful(),
    {
        0 <= self.code && self.code <= 2
    }
}

/// Why a document couldn't be printed.
#[derive(Debug)]
pub enum PrintError {
    /// The printer accepts neither PDF nor PWG-Raster.
    UnsupportedFormat,
    /// The printer URI couldn't be parsed, and why.
    InvalidUri(String),
    /// The printer couldn't be reached, or its response couldn't be read, and
    /// why.
    Ipp(String),
    /// The IPP request couldn't be built, and why.
    IppBuild(String),
    /// The PDF couldn't be rendered for raster conversion.
    Render(RenderError),
    /// The printer answered with an unsuccessful IPP status, and its
    /// `status-message` if it gave one.
    Rejected { status: StatusCode, message: Option<String> },
}

/// What a [`PrintError`] holds.
#[verifier::ext_equal]
pub enum PrintErrorView {
    UnsupportedFormat,
    InvalidUri(Seq<char>),
    Ipp(Seq<char>),
    IppBuild(Seq<char>),
    Render(Seq<char>),
    Rejected { status: StatusCode, message: Option<Seq<char>> },
}

impl View for PrintError {
    type V = PrintErrorView;

    open spec fn view(&self) -> PrintErrorView {
        match *self {
            PrintError::UnsupportedFormat => PrintErrorView::UnsupportedFormat,
            PrintError::InvalidUri(error) => PrintErrorView::InvalidUri(error@),
            PrintError::Ipp(error) => PrintErrorView::Ipp(error@),
            PrintError::IppBuild(error) => PrintErrorView::IppBuild(error@),
            PrintError::Render(error) => PrintErrorView::Render(error.message()),
            PrintError::Rejected { status, message } => PrintErrorView::Rejected {
                status,
                message: text_of(message),
            },
        }
    }
}

/// A printer's `status-message` as it follows the status.
pub open spec fn detail(message: Option<Seq<char>>) -> Seq<char> {
    match message {
        Some(message) => " ("@ + message + ")"@,
        None => ""@,
    }
}

impl PrintErrorView {
    /// The error as text.
    pub open spec fn text(self) -> Seq<char> {
        match self {
            PrintErrorView::UnsupportedFormat =>
                "printer does not support PDF, directly or via raster conversion"@,
            PrintErrorView::InvalidUri(error) => "invalid printer URI: "@ + error,
            PrintErrorView::Ipp(error) => "IPP request failed: "@ + error,
            PrintErrorView::IppBuild(error) => "IPP build error: "@ + error,
            PrintErrorView::Render(error) => "PDF rendering failed: "@ + error,
            PrintErrorView::Rejected { status, message } => "printer rejected the request: "@
                + status_name(status.code) + detail(message),
        }
    }
}

impl PrintError {
    /// The error as text (see [`PrintErrorView::text`]).
    pub fn to_string(&self) -> (text: String)
        ensures
            text@ == self@.text(),
    {
        match self {
            PrintError::UnsupportedFormat =>
                "printer does not support PDF, directly or via raster conversion".to_owned(),
            PrintError::InvalidUri(error) => "invalid printer URI: ".to_owned().concat(
                error.as_str(),
            ),
            PrintError::Ipp(error) => "IPP request failed: ".to_owned().concat(error.as_str()),
            PrintError::IppBuild(error) => "IPP build error: ".to_owned().concat(error.as_str()),
            PrintError::Render(error) => "PDF rendering failed: ".to_owned().concat(
                error.to_string().as_str(),
            ),
            PrintError::Rejected { status, message } => rejection_text(
                name_status(status.code).as_str(),
                message,
            ),
        }
    }
}

/// The text of a rejection with the status of the given name.
pub fn rejection_text(status_name: &str, message: &Option<String>) -> (text: String)
    ensures
        text@ == "printer rejected the request: "@ + status_name@ + detail(text_of(*message)),
{
    let text = "printer rejected the request: ".to_owned().concat(status_name);
    text.concat(status_detail(message).as_str())
}

/// A printer's `status-message` as it follows the status (see [`detail`]).
fn status_detail(message: &Option<String>) -> (text: String)
    ensures
        text@ == detail(text_of(*message)),
{
    match message {
        Some(message) => " (".to_owned().concat(message.as_str()).concat(")"),
        None => "".to_owned(),
    }
}

/// A document format inkdrop can send to a printer.
#[derive(Clone, Copy, Debug, PartialEq, Eq, Structural)]
pub enum DocumentFormat {
    Pdf,
    PwgRaster,
}

impl DocumentFormat {
    /// The IPP `document-format` value for this format.
    pub open spec fn mime(self) -> Seq<char> {
        match self {
            DocumentFormat::Pdf => "application/pdf"@,
            DocumentFormat::PwgRaster => "image/pwg-raster"@,
        }
    }

    /// The IPP `document-format` value for this format.
    pub fn mime_type(self) -> (mime: &'static str)
        ensures
            mime@ == self.mime(),
    {
        match self {
            DocumentFormat::Pdf => "application/pdf",
            DocumentFormat::PwgRaster => "image/pwg-raster",
        }
    }
}

/// How a PDF will actually reach the printer.
#[derive(Clone, Copy, Debug, PartialEq, Eq, Structural)]
pub enum PrintPlan {
    /// The printer accepts `application/pdf` directly; send the bytes as-is.
    DirectPdf,
    /// The printer doesn't take PDF, but does take `image/pwg-raster`; the
    /// PDF is rasterized locally first.
    PwgRaster {
        /// Resolution to render at, in dots per inch.
        dpi: u32,
        /// Colour mode to encode in.
        color: ColorMode,
    },
}

/// A value's text: that of a single value, or of a whole list.
pub open spec fn value_text(value: ValueView) -> Seq<char> {
    match value {
        ValueView::Single(item) => item.text,
        ValueView::Array { text, items } => text,
    }
}

/// A value's text, if there is a value.
pub open spec fn optional_text(value: Option<ValueView>) -> Option<Seq<char>> {
    match value {
        Some(value) => Some(value_text(value)),
        None => None,
    }
}

/// The single values of a value.
pub open spec fn flattened(value: ValueView) -> Seq<ItemView> {
    match value {
        ValueView::Single(item) => seq![item],
        ValueView::Array { text, items } => items,
    }
}

/// The single values of a value, if there is one.
pub open spec fn listed_values(value: Option<ValueView>) -> Seq<ItemView> {
    match value {
        Some(value) => flattened(value),
        None => Seq::empty(),
    }
}

/// The text of a value (see [`value_text`]).
fn display(value: &Value) -> (text: String)
    ensures
        text@ == value_text(value@),
{
    match value {
        Value::Single(item) => item.text.clone(),
        Value::Array { text, items } => text.clone(),
    }
}

/// What each item holds.
pub open spec fn ref_views(items: Seq<&Item>) -> Seq<ItemView> {
    items.map_values(|item: &Item| item@)
}

/// Attribute values are either a single value or an array of them; present
/// both uniformly as a list.
pub fn flatten(value: &Value) -> (found: Vec<&Item>)
    ensures
        ref_views(found@) == flattened(value@),
{
    let mut found: Vec<&Item> = Vec::new();
    match value {
        Value::Single(item) => {
            found.push(item);
            assert(ref_views(found@) =~= flattened(value@));
        },
        Value::Array { text, items } => {
            let mut i: usize = 0;
            while i < items.len()
                invariant
                    i <= items@.len(),
                    ref_views(found@) =~= item_views(items@).take(i as int),
                decreases items.len() - i,
            {
                let ghost before = ref_views(found@);
                found.push(&items[i]);
                assert(ref_views(found@) =~= before.push(item_views(items@)[i as int]));
                i = i + 1;
            }
            assert(item_views(items@).take(i as int) =~= item_views(items@));
        },
    }
    found
}

/// Whether a value's text is `expected`, ignoring case.
pub fn value_is(value: &Item, expected: &str) -> (is: bool)
    ensures
        is == equal_ignoring_case(value@.text, expected@),
{
    eq_ignore_ascii_case(value.text.as_str(), expected)
}

/// The dots per inch of a resolution: its cross-feed dots, but at least one.
pub open spec fn resolution(item: ItemView) -> Option<u32> {
    match item.kind {
        Kind::Resolution(cross_feed) => Some(
            if cross_feed < 1 {
                1
            } else {
                cross_feed as u32
            },
        ),
        _ => None,
    }
}

/// The dots per inch of a resolution (see [`resolution`]).
pub fn as_resolution(value: &Item) -> (dpi: Option<u32>)
    ensures
        dpi == resolution(value@),
{
    match value.kind {
        Kind::Resolution(cross_feed) => Some(if cross_feed < 1 { 1 } else { cross_feed as u32 }),
        _ => None,
    }
}

/// Whether one of the values has the given text, ignoring case.
pub open spec fn has(values: Seq<ItemView>, text: Seq<char>) -> bool {
    exists|i: int| 0 <= i < values.len() && #[trigger] equal_ignoring_case(values[i].text, text)
}

/// Whether one of the values has the given text, ignoring case.
fn any_is(values: &Vec<&Item>, expected: &str) -> (found: bool)
    ensures
        found == has(ref_views(values@), expected@),
{
    let ghost views = ref_views(values@);
    let mut i: usize = 0;
    while i < values.len()
        invariant
            i <= values@.len(),
            views == ref_views(values@),
            forall|k: int| 0 <= k < i ==> !#[trigger] equal_ignoring_case(views[k].text, expected@),
        decreases values.len() - i,
    {
        if value_is(values[i], expected) {
            assert(equal_ignoring_case(views[i as int].text, expected@));
            return true;
        }
        assert(!equal_ignoring_case(views[i as int].text, expected@));
        i = i + 1;
    }
    false
}

/// The colour mode to encode in: colour where it is offered, else greyscale
/// where that is.
pub open spec fn preferred_color(values: Seq<ItemView>) -> Option<ColorMode> {
    if has(values, "srgb_8"@) {
        Some(ColorMode::Srgb8)
    } else if has(values, "sgray_8"@) {
        Some(ColorMode::Sgray8)
    } else {
        None
    }
}

/// Prefer color (srgb_8) over grayscale (sgray_8) when both are offered,
/// regardless of which order the printer listed them in.
pub fn pick_color_mode(values: &Vec<&Item>) -> (color: Option<ColorMode>)
    ensures
        color == preferred_color(ref_views(values@)),
{
    if any_is(values, "srgb_8") {
        Some(ColorMode::Srgb8)
    } else if any_is(values, "sgray_8") {
        Some(ColorMode::Sgray8)
    } else {
        None
    }
}

/// The first resolution among the values.
pub open spec fn first_resolution(values: Seq<ItemView>) -> Option<u32>
    decreases values.len(),
{
    if values.len() == 0 {
        None
    } else if resolution(values.first()) is Some {
        resolution(values.first())
    } else {
        first_resolution(values.drop_first())
    }
}

/// The first resolution among the values.
fn find_resolution(values: &Vec<&Item>) -> (dpi: Option<u32>)
    ensures
        dpi == first_resolution(ref_views(values@)),
{
    let ghost views = ref_views(values@);
    let mut i: usize = 0;
    assert(views.skip(0) =~= views);
    while i < values.len()
        invariant
            i <= values@.len(),
            views == ref_views(values@),
            first_resolution(views.skip(i as int)) == first_resolution(views),
        decreases values.len() - i,
    {
        let dpi = as_resolution(values[i]);
        assert(views.skip(i as int).first() == values@[i as int]@);
        if dpi.is_some() {
            return dpi;
        }
        assert(views.skip(i as int).drop_first() =~= views.skip(i + 1));
        i = i + 1;
    }
    None
}

/// The `status-message` of a response, if it has one.
pub open spec fn message_text(response: MessageView) -> Option<Seq<char>> {
    optional_text(lookup(response.groups, OPERATION_ATTRIBUTES, "status-message"@))
}

/// The `status-message` of a response, if it has one.
pub fn status_message(response: &Message) -> (message: Option<String>)
    ensures
        text_of(message) == message_text(response@),
{
    text(response, OPERATION_ATTRIBUTES, "status-message")
}

/// The text of an attribute, if the message has it.
pub fn text(message: &Message, tag: u8, name: &str) -> (text: Option<String>)
    ensures
        text_of(text) == optional_text(lookup(message@.groups, tag, name@)),
{
    match message.attribute(tag, name) {
        Some(value) => Some(display(value)),
        None => None,
    }
}

/// The single values of an attribute; none if the message doesn't have it.
fn values<'a>(message: &'a Message, tag: u8, name: &str) -> (found: Vec<&'a Item>)
    ensures
        ref_views(found@) == listed_values(lookup(message@.groups, tag, name@)),
{
    match message.attribute(tag, name) {
        Some(value) => flatten(value),
        None => {
            let found: Vec<&Item> = Vec::new();
            assert(ref_views(found@) =~= Seq::empty());
            found
        },
    }
}

/// Whether a response is a rejection, and which.
pub open spec fn rejection(response: MessageView) -> Option<PrintErrorView> {
    let status = StatusCode::of(response.code);
    if status.successful() {
        None
    } else {
        Some(PrintErrorView::Rejected { status, message: message_text(response) })
    }
}

/// The error for a response with an unsuccessful status.
fn check_status(response: &Message) -> (status: Result<StatusCode, PrintError>)
    ensures
        match status {
            Ok(status) => rejection(response@) is None && status == StatusCode::of(
                response@.code,
            ),
            Err(error) => rejection(response@) == Some(error@),
        },
{
    let status = StatusCode::new(response.code);
    if !status.is_success() {
        return Err(PrintError::Rejected { status, message: status_message(response) });
    }
    Ok(status)
}

/// Whether a printer's response lists a document format, ignoring case.
pub open spec fn accepts(response: MessageView, format: DocumentFormat) -> bool {
    has(
        listed_values(
            lookup(response.groups, PRINTER_ATTRIBUTES, "document-format-supported"@),
        ),
        format.mime(),
    )
}

/// The format to send: the forced one, else PDF where the printer takes it,
/// else PWG-Raster where it takes that.
pub open spec fn chosen_format(response: MessageView, forced: Option<DocumentFormat>) -> Option<
    DocumentFormat,
> {
    if forced is Some {
        forced
    } else if accepts(response, DocumentFormat::Pdf) {
        Some(DocumentFormat::Pdf)
    } else if accepts(response, DocumentFormat::PwgRaster) {
        Some(DocumentFormat::PwgRaster)
    } else {
        None
    }
}

/// The resolution to render at: the first that the printer lists, else 300.
pub open spec fn chosen_dpi(response: MessageView) -> u32 {
    match first_resolution(
        listed_values(
            lookup(
                response.groups,
                PRINTER_ATTRIBUTES,
                "pwg-raster-document-resolution-supported"@,
            ),
        ),
    ) {
        Some(dpi) => dpi,
        None => 300,
    }
}

/// The colour mode to encode in: the preferred one of those that the printer
/// lists, else greyscale.
pub open spec fn chosen_color(response: MessageView) -> ColorMode {
    match preferred_color(
        listed_values(
            lookup(response.groups, PRINTER_ATTRIBUTES, "pwg-raster-document-type-supported"@),
        ),
    ) {
        Some(color) => color,
        None => ColorMode::Sgray8,
    }
}

/// How to send a PDF to a printer that gave this response.
pub open spec fn plan(response: MessageView, forced: Option<DocumentFormat>) -> Result<
    PrintPlan,
    PrintErrorView,
> {
    match rejection(response) {
        Some(error) => Err(error),
        None => match chosen_format(response, forced) {
            None => Err(PrintErrorView::UnsupportedFormat),
            Some(DocumentFormat::Pdf) => Ok(PrintPlan::DirectPdf),
            Some(DocumentFormat::PwgRaster) => Ok(
                PrintPlan::PwgRaster { dpi: chosen_dpi(response), color: chosen_color(response) },
            ),
        },
    }
}

/// Decide from what a printer said it accepts how to send it a PDF, preferring
/// PDF to PWG-Raster (see [`plan`]). With `forced`, that format is used even
/// if the printer doesn't advertise it, though raster resolution and color
/// mode still come from the printer.
///
/// # Errors
///
/// [`PrintError::UnsupportedFormat`] if nothing is forced and the printer
/// takes neither format, and [`PrintError::Rejected`] if it answered with an
/// unsuccessful status.
pub fn plan_print(response: &Message, forced: Option<DocumentFormat>) -> (result: Result<
    PrintPlan,
    PrintError,
>)
    ensures
        match result {
            Ok(found) => plan(response@, forced) == Ok::<PrintPlan, PrintErrorView>(found),
            Err(error) => plan(response@, forced) == Err::<PrintPlan, PrintErrorView>(error@),
        },
{
    if let Err(error) = check_status(response) {
        return Err(error);
    }
    let supported = values(response, PRINTER_ATTRIBUTES, "document-format-supported");
    let format = match forced {
        Some(format) => format,
        None => {
            if any_is(&supported, DocumentFormat::Pdf.mime_type()) {
                DocumentFormat::Pdf
            } else if any_is(&supported, DocumentFormat::PwgRaster.mime_type()) {
                DocumentFormat::PwgRaster
            } else {
                return Err(PrintError::UnsupportedFormat);
            }
        },
    };
    if format == DocumentFormat::Pdf {
        return Ok(PrintPlan::DirectPdf);
    }
    let resolutions = values(
        response,
        PRINTER_ATTRIBUTES,
        "pwg-raster-document-resolution-supported",
    );
    let dpi: u32 = match find_resolution(&resolutions) {
        Some(dpi) => dpi,
        None => 300,
    };
    let types = values(response, PRINTER_ATTRIBUTES, "pwg-raster-document-type-supported");
    let color = match pick_color_mode(&types) {
        Some(color) => color,
        None => ColorMode::Sgray8,
    };
    Ok(PrintPlan::PwgRaster { dpi, color })
}

/// What a printer says about itself when asked directly over IPP.
#[derive(Debug)]
pub struct PrinterInfo {
    /// `printer-info`, falling back to `printer-name`.
    pub name: Option<String>,
    /// `printer-make-and-model`.
    pub model: Option<String>,
    /// Display labels of the formats it accepts (see
    /// [`crate::raster::matching_labels`]).
    pub formats: Vec<&'static str>,
}

/// What a [`PrinterInfo`] holds.
#[verifier::ext_equal]
pub struct PrinterInfoView {
    pub name: Option<Seq<char>>,
    pub model: Option<Seq<char>>,
    pub formats: Seq<Seq<char>>,
}

impl View for PrinterInfo {
    type V = PrinterInfoView;

    open spec fn view(&self) -> PrinterInfoView {
        PrinterInfoView {
            name: text_of(self.name),
            model: text_of(self.model),
            formats: str_texts(self.formats@),
        }
    }
}

/// The text of a printer attribute, unless it is empty or not there.
pub open spec fn printer_text(response: MessageView, name: Seq<char>) -> Option<Seq<char>> {
    match optional_text(lookup(response.groups, PRINTER_ATTRIBUTES, name)) {
        Some(text) if text.len() > 0 => Some(text),
        _ => None,
    }
}

/// The texts of single values.
pub open spec fn item_texts(items: Seq<ItemView>) -> Seq<Seq<char>> {
    items.map_values(|item: ItemView| item.text)
}

/// What a printer's response says about it.
pub open spec fn info(response: MessageView) -> Result<PrinterInfoView, PrintErrorView> {
    match rejection(response) {
        Some(error) => Err(error),
        None => Ok(
            PrinterInfoView {
                name: if printer_text(response, "printer-info"@) is Some {
                    printer_text(response, "printer-info"@)
                } else {
                    printer_text(response, "printer-name"@)
                },
                model: printer_text(response, "printer-make-and-model"@),
                formats: labels(
                    item_texts(
                        listed_values(
                            lookup(
                                response.groups,
                                PRINTER_ATTRIBUTES,
                                "document-format-supported"@,
                            ),
                        ),
                    ),
                ),
            },
        ),
    }
}

/// The text of a printer attribute, unless it is empty or not there.
fn nonempty_text(response: &Message, name: &str) -> (text: Option<String>)
    ensures
        text_of(text) == printer_text(response@, name@),
{
    match text(response, PRINTER_ATTRIBUTES, name) {
        Some(text) => if text.as_str().is_empty() {
            None
        } else {
            Some(text)
        },
        None => None,
    }
}

/// The texts of single values.
fn borrow_texts<'a>(items: &Vec<&'a Item>) -> (found: Vec<&'a str>)
    ensures
        str_texts(found@) == item_texts(ref_views(items@)),
{
    let mut found: Vec<&'a str> = Vec::new();
    let ghost all = item_texts(ref_views(items@));
    let mut i: usize = 0;
    while i < items.len()
        invariant
            i <= items@.len(),
            all == item_texts(ref_views(items@)),
            str_texts(found@) =~= all.take(i as int),
        decreases items.len() - i,
    {
        let ghost before = str_texts(found@);
        let item: &'a Item = items[i];
        found.push(item.text.as_str());
        assert(str_texts(found@) =~= before.push(all[i as int]));
        i = i + 1;
    }
    assert(all.take(i as int) =~= all);
    found
}

/// The name, model and supported document formats in a printer's response
/// (see [`info`]).
///
/// # Errors
///
/// [`PrintError::Rejected`] if the printer answered with an unsuccessful
/// status.
pub fn probe_printer(response: &Message) -> (result: Result<PrinterInfo, PrintError>)
    ensures
        match result {
            Ok(found) => info(response@) == Ok::<PrinterInfoView, PrintErrorView>(found@),
            Err(error) => info(response@) == Err::<PrinterInfoView, PrintErrorView>(error@),
        },
{
    if let Err(error) = check_status(response) {
        return Err(error);
    }
    let items = values(response, PRINTER_ATTRIBUTES, "document-format-supported");
    let listed = borrow_texts(&items);
    let formats = matching_labels(listed.into_iter());
    let name = match nonempty_text(response, "printer-info") {
        Some(name) => Some(name),
        None => nonempty_text(response, "printer-name"),
    };
    let model = nonempty_text(response, "printer-make-and-model");
    Ok(PrinterInfo { name, model, formats })
}

/// The supported formats that a probe found: any failure (unreachable,
/// malformed response, etc.) is treated as "none" rather than propagated,
/// since this is a best-effort discovery-time probe.
pub fn probe_formats(probe: Result<PrinterInfo, PrintError>) -> (formats: Vec<&'static str>)
    ensures
        str_texts(formats@) == match probe {
            Ok(found) => found@.formats,
            Err(error) => Seq::empty(),
        },
{
    match probe {
        Ok(found) => found.formats,
        Err(error) => {
            let none: Vec<&'static str> = Vec::new();
            assert(str_texts(none@) =~= Seq::empty());
            none
        },
    }
}

/// What the printer said in response to a successful Print-Job.
#[derive(Debug)]
pub struct Submitted {
    /// The IPP status of the response.
    pub status: StatusCode,
    /// `job-id`, if the printer gave one.
    pub job_id: Option<i32>,
    /// `job-state`, e.g. "Pending", if the printer gave one.
    pub job_state: Option<String>,
    /// `job-state-reasons`, e.g. "none"; empty if the printer gave none.
    pub job_state_reasons: Vec<String>,
}

/// What a [`Submitted`] holds.
#[verifier::ext_equal]
pub struct SubmittedView {
    pub status: StatusCode,
    pub job_id: Option<i32>,
    pub job_state: Option<Seq<char>>,
    pub job_state_reasons: Seq<Seq<char>>,
}

impl View for Submitted {
    type V = SubmittedView;

    open spec fn view(&self) -> SubmittedView {
        SubmittedView {
            status: self.status,
            job_id: self.job_id,
            job_state: text_of(self.job_state),
            job_state_reasons: texts(self.job_state_reasons@),
        }
    }
}

/// The number of a single integer.
pub open spec fn integer_of(value: Option<ValueView>) -> Option<i32> {
    match value {
        Some(ValueView::Single(item)) => match item.kind {
            Kind::Integer(number) => Some(number),
            _ => None,
        },
        _ => None,
    }
}

/// The name of a job state, if IPP defines it.
pub open spec fn job_state_name(state: i32) -> Option<Seq<char>> {
    if state == 3 {
        Some("Pending"@)
    } else if state == 4 {
        Some("PendingHeld"@)
    } else if state == 5 {
        Some("Processing"@)
    } else if state == 6 {
        Some("ProcessingStopped"@)
    } else if state == 7 {
        Some("Canceled"@)
    } else if state == 8 {
        Some("Aborted"@)
    } else if state == 9 {
        Some("Completed"@)
    } else {
        None
    }
}

/// A job state as text: its name, its number where it has none, and anything
/// but an enumeration's number as it is.
pub open spec fn state_text(value: ValueView) -> Seq<char> {
    match value {
        ValueView::Single(item) => match item.kind {
            Kind::Enum(state) => match job_state_name(state) {
                Some(name) => name,
                None => signed_decimal(state as int),
            },
            _ => item.text,
        },
        ValueView::Array { text, items } => text,
    }
}

/// What a printer's response to a Print-Job says about the new job.
pub open spec fn submission(response: MessageView) -> Result<SubmittedView, PrintErrorView> {
    match rejection(response) {
        Some(error) => Err(error),
        None => Ok(
            SubmittedView {
                status: StatusCode::of(response.code),
                job_id: integer_of(lookup(response.groups, JOB_ATTRIBUTES, "job-id"@)),
                job_state: match lookup(response.groups, JOB_ATTRIBUTES, "job-state"@) {
                    Some(value) => Some(state_text(value)),
                    None => None,
                },
                job_state_reasons: item_texts(
                    listed_values(
                        lookup(response.groups, JOB_ATTRIBUTES, "job-state-reasons"@),
                    ),
                ),
            },
        ),
    }
}

/// The name of a job state, if IPP defines it.
fn name_job_state(state: i32) -> (name: Option<&'static str>)
    ensures
        match name {
            Some(name) => job_state_name(state) == Some(name@),
            None => job_state_name(state) is None,
        },
{
    if state == 3 {
        Some("Pending")
    } else if state == 4 {
        Some("PendingHeld")
    } else if state == 5 {
        Some("Processing")
    } else if state == 6 {
        Some("ProcessingStopped")
    } else if state == 7 {
        Some("Canceled")
    } else if state == 8 {
        Some("Aborted")
    } else if state == 9 {
        Some("Completed")
    } else {
        None
    }
}

/// A job state as text (see [`state_text`]).
fn display_state(value: &Value) -> (text: String)
    ensures
        text@ == state_text(value@),
{
    match value {
        Value::Single(item) => match item.kind {
            Kind::Enum(state) => match name_job_state(state) {
                Some(name) => name.to_owned(),
                None => integer(state),
            },
            _ => item.text.clone(),
        },
        Value::Array { text, items } => text.clone(),
    }
}

/// The texts of single values.
fn own_texts(items: &Vec<&Item>) -> (found: Vec<String>)
    ensures
        texts(found@) == item_texts(ref_views(items@)),
{
    let mut found: Vec<String> = Vec::new();
    let ghost all = item_texts(ref_views(items@));
    let mut i: usize = 0;
    while i < items.len()
        invariant
            i <= items@.len(),
            all == item_texts(ref_views(items@)),
            texts(found@) =~= all.take(i as int),
        decreases items.len() - i,
    {
        let ghost before = texts(found@);
        found.push(items[i].text.clone());
        assert(texts(found@) =~= before.push(all[i as int]));
        i = i + 1;
    }
    assert(all.take(i as int) =~= all);
    found
}

/// What a printer's response to a Print-Job says about the new job (see
/// [`submission`]).
///
/// # Errors
///
/// [`PrintError::Rejected`] if the printer refused the job.
pub fn submit(response: &Message) -> (result: Result<Submitted, PrintError>)
    ensures
        match result {
            Ok(job) => submission(response@) == Ok::<SubmittedView, PrintErrorView>(job@),
            Err(error) => submission(response@) == Err::<SubmittedView, PrintErrorView>(error@),
        },
{
    let status = match check_status(response) {
        Ok(status) => status,
        Err(error) => {
            return Err(error);
        },
    };
    let job_id: Option<i32> = match response.attribute(JOB_ATTRIBUTES, "job-id") {
        Some(Value::Single(item)) => match item.kind {
            Kind::Integer(number) => Some(number),
            _ => None,
        },
        _ => None,
    };
    let job_state = match response.attribute(JOB_ATTRIBUTES, "job-state") {
        Some(value) => Some(display_state(value)),
        None => None,
    };
    let reasons = values(response, JOB_ATTRIBUTES, "job-state-reasons");
    Ok(Submitted { status, job_id, job_state, job_state_reasons: own_texts(&reasons) })
}

/// The attributes that decide how a printer is sent a PDF.
pub open spec fn plan_attributes() -> Seq<Seq<char>> {
    seq![
        "document-format-supported"@,
        "pwg-raster-document-resolution-supported"@,
        "pwg-raster-document-type-supported"@,
    ]
}

/// The attributes that say what a printer is.
pub open spec fn probe_attributes() -> Seq<Seq<char>> {
    seq![
        "document-format-supported"@,
        "printer-name"@,
        "printer-info"@,
        "printer-make-and-model"@,
    ]
}

/// The request that was built, or the error that it couldn't be.
pub open spec fn built(request: Result<Seq<u8>, Seq<char>>) -> Result<Seq<u8>, PrintErrorView> {
    match request {
        Ok(bytes) => Ok(bytes),
        Err(error) => Err(PrintErrorView::IppBuild(error)),
    }
}

/// The request that was written, or the error that it couldn't be.
///
/// # Errors
///
/// [`PrintError::IppBuild`] if there is none.
pub fn built_request(written: Result<Vec<u8>, String>) -> (request: Result<Vec<u8>, PrintError>)
    ensures
        request_view(request) == built(
            match written {
                Ok(bytes) => Ok(bytes@),
                Err(error) => Err(error@),
            },
        ),
{
    match written {
        Ok(bytes) => Ok(bytes),
        Err(error) => Err(PrintError::IppBuild(error)),
    }
}

/// A request as plain bytes.
pub open spec fn request_view(request: Result<Vec<u8>, PrintError>) -> Result<
    Seq<u8>,
    PrintErrorView,
> {
    match request {
        Ok(bytes) => Ok(bytes@),
        Err(error) => Err(error@),
    }
}

/// The request that asks the printer at `uri` what decides how it is sent a
/// PDF; [`plan_print`] takes the response. There is one unless the URI can't
/// stand in a request, and it reads as such a request.
///
/// # Errors
///
/// [`PrintError::IppBuild`] if the request can't be built.
pub fn plan_request(uri: &str) -> (request: Result<Vec<u8>, PrintError>)
    ensures
        request_view(request) == built(get_attributes_bytes(uri@, plan_attributes())),
        request is Ok <==> is_addressable(uri@),
        request matches Ok(bytes) ==> message_of(bytes@) == Ok::<MessageView, Seq<char>>(
            get_attributes(parsed_uri(uri@)->Ok_0.text, plan_attributes()),
        ),
{
    let names: Vec<&str> = vec![
        "document-format-supported",
        "pwg-raster-document-resolution-supported",
        "pwg-raster-document-type-supported",
    ];
    proof {
        assert(str_texts(names@) =~= plan_attributes());
        reveal_strlit("document-format-supported");
        reveal_strlit("pwg-raster-document-resolution-supported");
        reveal_strlit("pwg-raster-document-type-supported");
        lemma_ascii_fits(names@[0]@);
        lemma_ascii_fits(names@[1]@);
        lemma_ascii_fits(names@[2]@);
    }
    built_request(write_get_attributes(uri, &names))
}

/// The request that asks the printer at `uri` for its name, model and
/// supported document formats; [`probe_printer`] takes the response. There is
/// one unless the URI can't stand in a request, and it reads as such a
/// request.
///
/// # Errors
///
/// [`PrintError::IppBuild`] if the request can't be built.
pub fn probe_request(uri: &str) -> (request: Result<Vec<u8>, PrintError>)
    ensures
        request_view(request) == built(get_attributes_bytes(uri@, probe_attributes())),
        request is Ok <==> is_addressable(uri@),
        request matches Ok(bytes) ==> message_of(bytes@) == Ok::<MessageView, Seq<char>>(
            get_attributes(parsed_uri(uri@)->Ok_0.text, probe_attributes()),
        ),
{
    let names: Vec<&str> = vec![
        "document-format-supported",
        "printer-name",
        "printer-info",
        "printer-make-and-model",
    ];
    proof {
        assert(str_texts(names@) =~= probe_attributes());
        reveal_strlit("document-format-supported");
        reveal_strlit("printer-name");
        reveal_strlit("printer-info");
        reveal_strlit("printer-make-and-model");
        lemma_ascii_fits(names@[0]@);
        lemma_ascii_fits(names@[1]@);
        lemma_ascii_fits(names@[2]@);
        lemma_ascii_fits(names@[3]@);
    }
    built_request(write_get_attributes(uri, &names))
}

/// Short ASCII texts fit in any attribute.
pub proof fn lemma_ascii_fits(text: Seq<char>)
    requires
        is_ascii_chars(text),
        text.len() <= 255,
    ensures
        fits(text, 255),
{
    is_ascii_chars_encode_utf8(text);
}

/// The Print-Job request that sends `payload`, a document in `format`, to the
/// printer at `uri` as a job titled `title`.
pub open spec fn submit_bytes(
    uri: Seq<char>,
    payload: Seq<u8>,
    format: DocumentFormat,
    title: Seq<char>,
) -> Result<Seq<u8>, PrintErrorView> {
    with_document(built(print_job_bytes(uri, "inkdrop"@, title, format.mime())), payload)
}

/// A request with a document behind it, if there is a request.
pub open spec fn with_document(
    request: Result<Seq<u8>, PrintErrorView>,
    document: Seq<u8>,
) -> Result<Seq<u8>, PrintErrorView> {
    match request {
        Ok(bytes) => Ok(bytes + document),
        Err(error) => Err(error),
    }
}

/// A request with a document behind it, if there is a request (see
/// [`with_document`]).
///
/// # Errors
///
/// That there is none.
pub fn append_document(request: Result<Vec<u8>, PrintError>, document: &[u8]) -> (whole: Result<
    Vec<u8>,
    PrintError,
>)
    ensures
        request_view(whole) == with_document(request_view(request), document@),
{
    let mut bytes = match request {
        Ok(bytes) => bytes,
        Err(error) => {
            return Err(error);
        },
    };
    let ghost head = bytes@;
    let mut i: usize = 0;
    while i < document.len()
        invariant
            i <= document@.len(),
            bytes@ =~= head + document@.take(i as int),
        decreases document.len() - i,
    {
        bytes.push(document[i]);
        i = i + 1;
    }
    assert(document@.take(i as int) =~= document@);
    Ok(bytes)
}

/// The request that sends `payload`, a document in `format`, to the printer at
/// `uri` as a single Print-Job titled `job_title`; [`submit`] takes the
/// response. There is one unless the URI or the title can't stand in a
/// request, and whoever reads it finds that title, that format and that
/// document.
///
/// # Errors
///
/// [`PrintError::IppBuild`] if the request can't be built.
pub fn submit_request(uri: &str, payload: &[u8], format: DocumentFormat, job_title: &str)
    -> (request: Result<Vec<u8>, PrintError>)
    ensures
        request_view(request) == submit_bytes(uri@, payload@, format, job_title@),
        request is Ok <==> is_addressable(uri@) && fits(job_title@, 255),
        request matches Ok(bytes) ==> message_of(bytes@) == Ok::<MessageView, Seq<char>>(
            print_job(
                parsed_uri(uri@)->Ok_0.text,
                "inkdrop"@,
                job_title@,
                format.mime(),
                payload@,
            ),
        ),
{
    let mime = format.mime_type();
    proof {
        reveal_strlit("inkdrop");
        reveal_strlit("application/pdf");
        reveal_strlit("image/pwg-raster");
        lemma_ascii_fits("inkdrop"@);
        lemma_ascii_fits(mime@);
    }
    let written = write_print_job(uri, "inkdrop", job_title, mime);
    proof {
        if written is Ok {
            assert(parsed(written->Ok_0@ + payload@) is Ok);
        }
    }
    append_document(built_request(written), payload)
}

/// The URI of a printer, as it stands in requests.
///
/// # Errors
///
/// [`PrintError::InvalidUri`] if `text` is no URI.
pub fn printer_uri(text: &str) -> (uri: Result<String, PrintError>)
    ensures
        match uri {
            Ok(uri) => parsed_uri(text@) is Ok && uri@ == parsed_uri(text@)->Ok_0.text,
            Err(error) => parsed_uri(text@) is Err && error@ == PrintErrorView::InvalidUri(
                parsed_uri(text@)->Err_0,
            ),
        },
{
    checked_uri(parse_uri(text))
}

/// The text of a URI that was read.
///
/// # Errors
///
/// [`PrintError::InvalidUri`] if it couldn't be.
pub fn checked_uri(parsed: Result<ParsedUri, String>) -> (uri: Result<String, PrintError>)
    ensures
        match uri {
            Ok(uri) => parsed is Ok && uri@ == parsed->Ok_0@.text,
            Err(error) => parsed is Err && error@ == PrintErrorView::InvalidUri(parsed->Err_0@),
        },
{
    match parsed {
        Ok(uri) => Ok(uri.text),
        Err(error) => Err(PrintError::InvalidUri(error)),
    }
}

/// Whether every page can be encoded.
pub open spec fn all_encodable(pages: Seq<RenderedPage>, color: ColorMode) -> bool {
    forall|i: int| 0 <= i < pages.len() ==> #[trigger] is_encodable(pages[i], color)
}

/// A document that is ready to be sent: its bytes and their format.
pub open spec fn payload_view(payload: Result<(Bytes, DocumentFormat), PrintError>) -> Result<
    (Seq<u8>, DocumentFormat),
    PrintErrorView,
> {
    match payload {
        Ok((bytes, format)) => Ok((frozen_bytes(bytes), format)),
        Err(error) => Err(error@),
    }
}

/// What becomes of a PDF that was rasterised.
pub open spec fn raster_payload(
    rendered: Result<Vec<RenderedPage>, RenderError>,
    dpi: u32,
    color: ColorMode,
) -> Result<(Seq<u8>, DocumentFormat), PrintErrorView> {
    match rendered {
        Ok(pages) => Ok((encoded(pages@, dpi, color), DocumentFormat::PwgRaster)),
        Err(error) => Err(PrintErrorView::Render(error.message())),
    }
}

/// Encode the pages of a PDF that was rasterised at `dpi`.
///
/// # Errors
///
/// [`PrintError::Render`] if the PDF couldn't be rasterised.
pub fn encode_rendered(
    rendered: Result<Vec<RenderedPage>, RenderError>,
    dpi: u32,
    color: ColorMode,
) -> (payload: Result<(Bytes, DocumentFormat), PrintError>)
    requires
        rendered matches Ok(pages) ==> all_encodable(pages@, color),
    ensures
        payload_view(payload) == raster_payload(rendered, dpi, color),
        payload is Ok <==> rendered is Ok,
        rendered is Ok ==> frozen_bytes(payload->Ok_0.0) == encoded(rendered->Ok_0@, dpi, color),
        rendered is Ok && rendered->Ok_0@.len() > 0 && are_filled(rendered->Ok_0@) ==> shows(
            frozen_bytes(payload->Ok_0.0),
            rendered->Ok_0@,
            color,
        ),
{
    proof {
        law_rasters_show_every_page(rendered, dpi, color);
    }
    match rendered {
        Ok(pages) => Ok((encode(pages.as_slice(), dpi, color), DocumentFormat::PwgRaster)),
        Err(error) => Err(PrintError::Render(error)),
    }
}

/// Convert the PDF `document` into the form `plan` calls for, returning the
/// bytes to send and their format. Where that is a raster, `rasterise` renders
/// the document's pages at the resolution it is handed.
///
/// # Errors
///
/// [`PrintError::Render`] if the PDF can't be rasterised.
pub fn render<F: FnOnce(&[u8], u32) -> Result<Vec<RenderedPage>, RenderError>>(
    plan: &PrintPlan,
    document: Bytes,
    rasterise: F,
) -> (payload: Result<(Bytes, DocumentFormat), PrintError>)
    requires
        *plan matches PrintPlan::PwgRaster { dpi, color } ==> forall|bytes: &[u8]|
            bytes@ == frozen_bytes(document) ==> #[trigger] rasterise.requires((bytes, dpi)) && (
            forall|rendered: Result<Vec<RenderedPage>, RenderError>|
                #![trigger rasterise.ensures((bytes, dpi), rendered)]
                rasterise.ensures((bytes, dpi), rendered) && rendered is Ok ==> all_encodable(
                    rendered->Ok_0@,
                    color,
                )),
    ensures
        match *plan {
            PrintPlan::DirectPdf => payload_view(payload) == Ok::<
                (Seq<u8>, DocumentFormat),
                PrintErrorView,
            >((frozen_bytes(document), DocumentFormat::Pdf)),
            PrintPlan::PwgRaster { dpi, color } => exists|
                bytes: &[u8],
                rendered: Result<Vec<RenderedPage>, RenderError>,
            |
                #![trigger rasterise.ensures((bytes, dpi), rendered)]
                bytes@ == frozen_bytes(document) && rasterise.ensures((bytes, dpi), rendered)
                    && payload_view(payload) == raster_payload(rendered, dpi, color) && (payload
                    is Ok <==> rendered is Ok) && (rendered is Ok ==> frozen_bytes(
                    payload->Ok_0.0,
                ) == encoded(rendered->Ok_0@, dpi, color)) && (rendered is Ok
                    && rendered->Ok_0@.len() > 0
                    && are_filled(rendered->Ok_0@) ==> payload->Ok_0.1 == DocumentFormat::PwgRaster
                    && shows(frozen_bytes(payload->Ok_0.0), rendered->Ok_0@, color)),
        },
{
    match *plan {
        PrintPlan::DirectPdf => Ok((document, DocumentFormat::Pdf)),
        PrintPlan::PwgRaster { dpi, color } => {
            let bytes = as_slice(&document);
            assert(rasterise.requires((bytes, dpi)));
            let rendered = rasterise(bytes, dpi);
            assert(rasterise.ensures((bytes, dpi), rendered));
            encode_rendered(rendered, dpi, color)
        },
    }
}

/// Colour is preferred to greyscale in whatever order a printer lists them:
/// lists of the same values lead to the same colour mode, and one that offers
/// colour leads to colour.
pub proof fn law_color_is_preferred_in_any_order(a: Seq<ItemView>, b: Seq<ItemView>)
    requires
        a.to_set() == b.to_set(),
    ensures
        preferred_color(a) == preferred_color(b),
        has(a, "srgb_8"@) ==> preferred_color(a) == Some(ColorMode::Srgb8),
{
    assert forall|text: Seq<char>| has(a, text) == has(b, text) by {
        if has(a, text) {
            let i = choose|i: int| 0 <= i < a.len() && #[trigger] equal_ignoring_case(
                a[i].text,
                text,
            );
            assert(a.to_set().contains(a[i]));
            let k = choose|k: int| 0 <= k < b.len() && b[k] == a[i];
            assert(equal_ignoring_case(b[k].text, text));
        }
        if has(b, text) {
            let i = choose|i: int| 0 <= i < b.len() && #[trigger] equal_ignoring_case(
                b[i].text,
                text,
            );
            assert(b.to_set().contains(b[i]));
            let k = choose|k: int| 0 <= k < a.len() && a[k] == b[i];
            assert(equal_ignoring_case(a[k].text, text));
        }
    }
}

/// A forced format is used whether or not the printer advertises it, and a
/// rejection is reported whatever is forced.
pub proof fn law_forced_formats_are_used(response: MessageView, forced: DocumentFormat)
    ensures
        rejection(response) is None && forced == DocumentFormat::Pdf ==> plan(
            response,
            Some(forced),
        ) == Ok::<PrintPlan, PrintErrorView>(PrintPlan::DirectPdf),
        rejection(response) is None && forced == DocumentFormat::PwgRaster ==> plan(
            response,
            Some(forced),
        ) == Ok::<PrintPlan, PrintErrorView>(
            PrintPlan::PwgRaster { dpi: chosen_dpi(response), color: chosen_color(response) },
        ),
        rejection(response) matches Some(error) ==> plan(response, Some(forced)) == Err::<
            PrintPlan,
            PrintErrorView,
        >(error),
{
}

/// A plan to rasterise never asks for less than one dot per inch.
pub proof fn law_resolutions_are_positive(response: MessageView)
    ensures
        chosen_dpi(response) >= 1,
{
    lemma_first_resolution_is_positive(
        listed_values(
            lookup(
                response.groups,
                PRINTER_ATTRIBUTES,
                "pwg-raster-document-resolution-supported"@,
            ),
        ),
    );
}

proof fn lemma_first_resolution_is_positive(values: Seq<ItemView>)
    ensures
        first_resolution(values) matches Some(dpi) ==> dpi >= 1,
    decreases values.len(),
{
    if values.len() > 0 {
        lemma_first_resolution_is_positive(values.drop_first());
    }
}

/// A PDF that was rasterised is sent as PWG-Raster: as what those pages are
/// encoded to, at the resolution and in the colour mode that were asked for. The
/// first header gives that resolution both ways, the colour space, and how many
/// pages there are; and whoever decodes what is sent finds every page that was
/// rasterised, in order and with its own pixels, and no other.
pub proof fn law_rasters_show_every_page(
    rendered: Result<Vec<RenderedPage>, RenderError>,
    dpi: u32,
    color: ColorMode,
)
    requires
        rendered matches Ok(pages) ==> all_encodable(pages@, color),
    ensures
        raster_payload(rendered, dpi, color) is Ok <==> rendered is Ok,
        rendered is Ok ==> raster_payload(rendered, dpi, color)->Ok_0.1
            == DocumentFormat::PwgRaster,
        rendered is Ok ==> raster_payload(rendered, dpi, color)->Ok_0.0 == encoded(
            rendered->Ok_0@,
            dpi,
            color,
        ),
        rendered is Ok && 0 < rendered->Ok_0@.len() <= u32::MAX ==> {
            let payload = raster_payload(rendered, dpi, color)->Ok_0.0;
            &&& payload.len() >= 1800
            &&& number_in(payload, 280) == dpi
            &&& number_in(payload, 284) == dpi
            &&& number_in(payload, 404) == (if color == ColorMode::Srgb8 {
                19int
            } else {
                18int
            })
            &&& number_in(payload, 456) == rendered->Ok_0@.len()
        },
        rendered is Ok && rendered->Ok_0@.len() > 0 && are_filled(rendered->Ok_0@) ==> shows(
            raster_payload(rendered, dpi, color)->Ok_0.0,
            rendered->Ok_0@,
            color,
        ),
{
    if let Ok(pages) = rendered {
        if 0 < pages@.len() <= u32::MAX {
            lemma_first_header(pages@, dpi, color);
        }
    }
    if let Ok(pages) = rendered {
        if pages@.len() > 0 && are_filled(pages@) {
            assert forall|i: int|
                #![trigger pages@[i]]
                0 <= i < pages@.len() implies pages@[i].width_px * 3 <= u32::MAX || color
                == ColorMode::Sgray8 by {
                assert(is_encodable(pages@[i], color));
            }
            law_documents_show_their_pages(pages@, dpi, color);
        }
    }
}

/// What the first header of a document says of it.
proof fn lemma_first_header(pages: Seq<RenderedPage>, dpi: u32, color: ColorMode)
    requires
        0 < pages.len() <= u32::MAX,
        all_encodable(pages, color),
    ensures
        encoded(pages, dpi, color).len() >= 1800,
        number_in(encoded(pages, dpi, color), 280) == dpi,
        number_in(encoded(pages, dpi, color), 284) == dpi,
        number_in(encoded(pages, dpi, color), 404) == (if color == ColorMode::Srgb8 {
            19int
        } else {
            18int
        }),
        number_in(encoded(pages, dpi, color), 456) == pages.len(),
{
    let payload = encoded(pages, dpi, color);
    let header = payload.subrange(4, 1800);
    assert(is_encodable(pages[0], color));
    law_every_page_has_its_header(pages, dpi, color, 0);
    law_header_fields(pages[0], dpi, color, pages.len() as u32);
    assert forall|k: int| 0 <= k < 1796 implies #[trigger] header[k] == payload[k + 4] by {}
    assert(number_in(header, 276) == number_in(payload, 280));
    assert(number_in(header, 280) == number_in(payload, 284));
    assert(number_in(header, 400) == number_in(payload, 404));
    assert(number_in(header, 452) == number_in(payload, 456));
}

/// A value's single values are itself, or the items of the list that it is; of
/// what isn't there, there are none.
pub proof fn law_values_are_listed(value: Option<ValueView>)
    ensures
        value is None ==> listed_values(value).len() == 0,
        value matches Some(ValueView::Single(item)) ==> listed_values(value) == seq![item],
        value matches Some(ValueView::Array { text, items }) ==> listed_values(value) == items,
{
}

/// The single values of a printer attribute in a response.
pub open spec fn printer_values(response: MessageView, name: Seq<char>) -> Seq<ItemView> {
    listed_values(lookup(response.groups, 4, name))
}

/// A response is a rejection if and only if its code is none of the three
/// successes; then it is reported with that code, if IPP defines it, and the
/// printer's own message.
pub proof fn law_rejections(response: MessageView, forced: Option<DocumentFormat>)
    ensures
        rejection(response) is None <==> 0 <= response.code <= 2,
        rejection(response) matches Some(error) ==> {
            &&& error is Rejected
            &&& plan(response, forced) == Err::<PrintPlan, PrintErrorView>(error)
            &&& info(response) == Err::<PrinterInfoView, PrintErrorView>(error)
            &&& submission(response) == Err::<SubmittedView, PrintErrorView>(error)
            &&& error->status.code == (if 0x400 <= response.code <= 0x412 || 0x500 <= response.code
                <= 0x509 {
                response.code as int
            } else {
                -1
            })
            &&& error->message == match lookup(response.groups, 1, "status-message"@) {
                None => None::<Seq<char>>,
                Some(ValueView::Single(item)) => Some(item.text),
                Some(ValueView::Array { text, items }) => Some(text),
            }
        },
{
}

/// Where nothing is forced, a printer that lists PDF is sent the PDF, one that
/// lists PWG-Raster and not PDF a raster, and any other nothing; a format that
/// is forced is sent whatever it lists.
pub proof fn law_formats_are_those_listed(response: MessageView, forced: Option<DocumentFormat>)
    requires
        0 <= response.code <= 2,
    ensures
        ({
            let formats = printer_values(response, "document-format-supported"@);
            let pdf = exists|i: int|
                0 <= i < formats.len() && #[trigger] equal_ignoring_case(
                    formats[i].text,
                    "application/pdf"@,
                );
            let raster = exists|i: int|
                0 <= i < formats.len() && #[trigger] equal_ignoring_case(
                    formats[i].text,
                    "image/pwg-raster"@,
                );
            &&& plan(response, forced) == Ok::<PrintPlan, PrintErrorView>(PrintPlan::DirectPdf)
                <==> forced == Some(DocumentFormat::Pdf) || (forced is None && pdf)
            &&& plan(response, forced) is Ok && plan(response, forced)->Ok_0 is PwgRaster
                <==> forced == Some(DocumentFormat::PwgRaster) || (forced is None && !pdf && raster)
            &&& plan(response, forced) == Err::<PrintPlan, PrintErrorView>(
                PrintErrorView::UnsupportedFormat,
            ) <==> forced is None && !pdf && !raster
        }),
{
}

/// A raster is in colour if and only if the printer lists `srgb_8` among the
/// raster types it takes, in whatever case; else it is greyscale. So a printer
/// is never sent colour that it doesn't list.
pub proof fn law_color_is_sent_where_it_is_listed(
    response: MessageView,
    forced: Option<DocumentFormat>,
)
    requires
        plan(response, forced) is Ok,
        plan(response, forced)->Ok_0 is PwgRaster,
    ensures
        ({
            let types = printer_values(response, "pwg-raster-document-type-supported"@);
            let color = exists|i: int|
                0 <= i < types.len() && #[trigger] equal_ignoring_case(types[i].text, "srgb_8"@);
            plan(response, forced)->Ok_0->color == if color {
                ColorMode::Srgb8
            } else {
                ColorMode::Sgray8
            }
        }),
{
}

/// The colour mode that is picked is one that is listed: colour if and only if
/// `srgb_8` is, greyscale if and only if `sgray_8` is and that isn't, and none
/// where neither is.
pub proof fn law_picked_colors_are_listed(values: Seq<ItemView>)
    ensures
        preferred_color(values) == Some(ColorMode::Srgb8) <==> exists|i: int|
            0 <= i < values.len() && #[trigger] equal_ignoring_case(values[i].text, "srgb_8"@),
        preferred_color(values) == Some(ColorMode::Sgray8) <==> (forall|i: int|
            0 <= i < values.len() ==> !#[trigger] equal_ignoring_case(values[i].text, "srgb_8"@))
            && exists|i: int|
            0 <= i < values.len() && #[trigger] equal_ignoring_case(values[i].text, "sgray_8"@),
{
}

/// A raster is rendered at the first resolution that the printer lists, at one
/// dot per inch where that is less, and at 300 where it lists none.
pub proof fn law_first_listed_resolution_is_used(
    response: MessageView,
    forced: Option<DocumentFormat>,
    i: int,
)
    requires
        plan(response, forced) is Ok,
        plan(response, forced)->Ok_0 is PwgRaster,
    ensures
        ({
            let listed = printer_values(response, "pwg-raster-document-resolution-supported"@);
            let dpi = plan(response, forced)->Ok_0->dpi;
            &&& (forall|k: int| 0 <= k < listed.len() ==> (#[trigger] listed[k]).kind !is Resolution)
                ==> dpi == 300
            &&& 0 <= i < listed.len() && (listed[i].kind is Resolution) && (forall|k: int|
                0 <= k < i ==> (#[trigger] listed[k]).kind !is Resolution) ==> dpi == (
            if listed[i].kind->Resolution_0 < 1 {
                1int
            } else {
                listed[i].kind->Resolution_0 as int
            })
        }),
{
    let listed = printer_values(response, "pwg-raster-document-resolution-supported"@);
    lemma_first_resolution(listed, i);
}

proof fn lemma_first_resolution(values: Seq<ItemView>, i: int)
    ensures
        (forall|k: int| 0 <= k < values.len() ==> (#[trigger] values[k]).kind !is Resolution)
            ==> first_resolution(values) is None,
        0 <= i < values.len() && (values[i].kind is Resolution) && (forall|k: int|
            0 <= k < i ==> (#[trigger] values[k]).kind !is Resolution) ==> first_resolution(values)
            == resolution(values[i]),
    decreases values.len(),
{
    if values.len() > 0 {
        let rest = values.drop_first();
        lemma_first_resolution(rest, i - 1);
        assert forall|k: int| 0 <= k < rest.len() implies #[trigger] rest[k] == values[k + 1] by {}
        if i == 0 {
            assert(values.first() == values[0]);
        } else if 0 < i < values.len() && (values[i].kind is Resolution) && (forall|k: int|
            0 <= k < i ==> (#[trigger] values[k]).kind !is Resolution) {
            assert(values[0].kind !is Resolution);
            assert(rest[i - 1] == values[i]);
            assert forall|k: int| 0 <= k < i - 1 implies (#[trigger] rest[k]).kind !is Resolution by {
                assert(values[k + 1].kind !is Resolution);
            }
        }
        if forall|k: int| 0 <= k < values.len() ==> (#[trigger] values[k]).kind !is Resolution {
            assert(values[0].kind !is Resolution);
            assert forall|k: int| 0 <= k < rest.len() implies (#[trigger] rest[k]).kind
                !is Resolution by {
                assert(values[k + 1].kind !is Resolution);
            }
        }
    }
}

/// What a printer is asked about covers what its answer is read for: the
/// formats, and for a plan the raster's resolutions and types, for a probe its
/// names and model.
pub proof fn law_printers_are_asked_for_what_is_read()
    ensures
        plan_attributes().to_set() == set![
            "document-format-supported"@,
            "pwg-raster-document-resolution-supported"@,
            "pwg-raster-document-type-supported"@,
        ],
        probe_attributes().to_set() == set![
            "document-format-supported"@,
            "printer-name"@,
            "printer-info"@,
            "printer-make-and-model"@,
        ],
{
    let plan = plan_attributes();
    assert(plan[0] == "document-format-supported"@ && plan[1]
        == "pwg-raster-document-resolution-supported"@ && plan[2]
        == "pwg-raster-document-type-supported"@);
    assert(plan.to_set() =~= set![
        "document-format-supported"@,
        "pwg-raster-document-resolution-supported"@,
        "pwg-raster-document-type-supported"@,
    ]);
    let probe = probe_attributes();
    assert(probe[0] == "document-format-supported"@ && probe[1] == "printer-name"@ && probe[2]
        == "printer-info"@ && probe[3] == "printer-make-and-model"@);
    assert(probe.to_set() =~= set![
        "document-format-supported"@,
        "printer-name"@,
        "printer-info"@,
        "printer-make-and-model"@,
    ]);
}

/// The text of a printer attribute in a response.
pub open spec fn stated(response: MessageView, name: Seq<char>) -> Seq<char> {
    match lookup(response.groups, 4, name) {
        None => Seq::empty(),
        Some(ValueView::Single(item)) => item.text,
        Some(ValueView::Array { text, items }) => text,
    }
}

/// A printer goes by its `printer-info` unless that is empty, then by its
/// `printer-name` unless that is, too; its model is its
/// `printer-make-and-model`; and it handles a supported format if and only if
/// it lists it.
pub proof fn law_probes_say_what_printers_state(response: MessageView, listed: Seq<Seq<char>>)
    requires
        0 <= response.code <= 2,
    ensures
        ({
            let found = info(response)->Ok_0;
            let formats = printer_values(response, "document-format-supported"@);
            &&& info(response) is Ok
            &&& found.name == if stated(response, "printer-info"@).len() > 0 {
                Some(stated(response, "printer-info"@))
            } else if stated(response, "printer-name"@).len() > 0 {
                Some(stated(response, "printer-name"@))
            } else {
                None
            }
            &&& found.model == if stated(response, "printer-make-and-model"@).len() > 0 {
                Some(stated(response, "printer-make-and-model"@))
            } else {
                None
            }
            &&& found.formats.contains("PDF"@) <==> exists|i: int|
                0 <= i < formats.len() && #[trigger] equal_ignoring_case(
                    formats[i].text,
                    "application/pdf"@,
                )
            &&& found.formats.contains("URF"@) <==> exists|i: int|
                0 <= i < formats.len() && #[trigger] equal_ignoring_case(
                    formats[i].text,
                    "image/urf"@,
                )
            &&& found.formats.contains("PWG-Raster"@) <==> exists|i: int|
                0 <= i < formats.len() && #[trigger] equal_ignoring_case(
                    formats[i].text,
                    "image/pwg-raster"@,
                )
            &&& listed.len() == formats.len() && (forall|i: int|
                0 <= i < formats.len() ==> #[trigger] listed[i] == formats[i].text)
                ==> found.formats == labels(listed)
        }),
{
    let formats = printer_values(response, "document-format-supported"@);
    let named = item_texts(formats);
    law_labels_are_of_what_is_listed(named);
    if listed.len() == formats.len() && (forall|i: int|
        0 <= i < formats.len() ==> #[trigger] listed[i] == formats[i].text) {
        assert(listed =~= named);
    }
    lemma_texts_are_listed(formats, "application/pdf"@);
    lemma_texts_are_listed(formats, "image/urf"@);
    lemma_texts_are_listed(formats, "image/pwg-raster"@);
    assert(info(response)->Ok_0.formats == labels(named));
}

/// What values list is what their texts list.
proof fn lemma_texts_are_listed(values: Seq<ItemView>, mime: Seq<char>)
    ensures
        (exists|i: int|
            0 <= i < item_texts(values).len() && #[trigger] equal_ignoring_case(
                item_texts(values)[i],
                mime,
            )) <==> (exists|i: int|
            0 <= i < values.len() && #[trigger] equal_ignoring_case(values[i].text, mime)),
{
    let named = item_texts(values);
    if exists|i: int| 0 <= i < values.len() && #[trigger] equal_ignoring_case(values[i].text, mime) {
        let i = choose|i: int| 0 <= i < values.len() && #[trigger] equal_ignoring_case(
            values[i].text,
            mime,
        );
        assert(equal_ignoring_case(named[i], mime));
    }
    if exists|i: int| 0 <= i < named.len() && #[trigger] equal_ignoring_case(named[i], mime) {
        let i = choose|i: int| 0 <= i < named.len() && #[trigger] equal_ignoring_case(
            named[i],
            mime,
        );
        assert(equal_ignoring_case(values[i].text, mime));
    }
}

/// Of an accepted job are said the response's own code, the number in `job-id`
/// if that is a single integer, the state by its name or as it was given, and
/// every reason in order.
pub proof fn law_accepted_jobs_are_reported(response: MessageView)
    requires
        0 <= response.code <= 2,
    ensures
        ({
            let found = submission(response)->Ok_0;
            let id = lookup(response.groups, 2, "job-id"@);
            let state = lookup(response.groups, 2, "job-state"@);
            let reasons = listed_values(lookup(response.groups, 2, "job-state-reasons"@));
            let names = seq![
                "Pending"@,
                "PendingHeld"@,
                "Processing"@,
                "ProcessingStopped"@,
                "Canceled"@,
                "Aborted"@,
                "Completed"@,
            ];
            &&& submission(response) is Ok
            &&& found.status.code == response.code
            &&& id matches Some(ValueView::Single(item)) ==> (item.kind matches Kind::Integer(number)
                ==> found.job_id == Some(number))
            &&& found.job_id is Some ==> id is Some && (id->0 is Single) && id->0->Single_0.kind
                == Kind::Integer(found.job_id->0)
            &&& found.job_state is None <==> state is None
            &&& state matches Some(ValueView::Array { text, items }) ==> found.job_state == Some(
                text,
            )
            &&& state matches Some(ValueView::Single(item)) ==> match item.kind {
                Kind::Enum(number) => found.job_state == Some(
                    if 3 <= number <= 9 {
                        names[number - 3]
                    } else {
                        signed_decimal(number as int)
                    },
                ),
                _ => found.job_state == Some(item.text),
            }
            &&& found.job_state_reasons.len() == reasons.len()
            &&& forall|i: int|
                0 <= i < reasons.len() ==> #[trigger] found.job_state_reasons[i] == reasons[i].text
        }),
{
    let names = seq![
        "Pending"@,
        "PendingHeld"@,
        "Processing"@,
        "ProcessingStopped"@,
        "Canceled"@,
        "Aborted"@,
        "Completed"@,
    ];
    assert(names[0] == "Pending"@ && names[1] == "PendingHeld"@ && names[2] == "Processing"@
        && names[3] == "ProcessingStopped"@ && names[4] == "Canceled"@ && names[5] == "Aborted"@
        && names[6] == "Completed"@);
}

/// An error's text says what failed and ends with why; a rejection names the
/// status, and gives the printer's message in brackets if there is one.
pub proof fn law_errors_say_why(error: PrintErrorView)
    ensures
        match error {
            PrintErrorView::UnsupportedFormat => error.text()
                == "printer does not support PDF, directly or via raster conversion"@,
            PrintErrorView::InvalidUri(why) => error.text() == "invalid printer URI: "@ + why,
            PrintErrorView::Ipp(why) => error.text() == "IPP request failed: "@ + why,
            PrintErrorView::IppBuild(why) => error.text() == "IPP build error: "@ + why,
            PrintErrorView::Render(why) => error.text() == "PDF rendering failed: "@ + why,
            PrintErrorView::Rejected { status, message: None } => error.text()
                == "printer rejected the request: "@ + status_name(status.code),
            PrintErrorView::Rejected { status, message: Some(message) } => error.text()
                == "printer rejected the request: "@ + status_name(status.code) + " ("@ + message
                + ")"@,
        },
{
    reveal_strlit("");
    if let PrintErrorView::Rejected { status, message } = error {
        let start = "printer rejected the request: "@ + status_name(status.code);
        if let Some(message) = message {
            assert(start + (" ("@ + message + ")"@) =~= start + " ("@ + message + ")"@);
        } else {
            assert(start + ""@ =~= start);
        }
    }
}

/// What a printer said is seen with all that it holds.
pub proof fn law_answers_are_seen_whole(info: PrinterInfo, job: Submitted, i: int)
    ensures
        info.name is Some ==> info@.name == Some(info.name->0@),
        info.name is None ==> info@.name is None,
        info.model is Some ==> info@.model == Some(info.model->0@),
        info.model is None ==> info@.model is None,
        info@.formats.len() == info.formats@.len(),
        0 <= i < info.formats@.len() ==> info@.formats[i] == info.formats@[i]@,
        job@.status == job.status,
        job@.job_id == job.job_id,
        job.job_state is Some ==> job@.job_state == Some(job.job_state->0@),
        job.job_state is None ==> job@.job_state is None,
        job@.job_state_reasons.len() == job.job_state_reasons@.len(),
        0 <= i < job.job_state_reasons@.len() ==> job@.job_state_reasons[i]
            == job.job_state_reasons@[i]@,
{
}

/// An error is seen as what it is, with why.
pub proof fn law_errors_are_seen_whole(error: PrintError)
    ensures
        match error {
            PrintError::UnsupportedFormat => error@ is UnsupportedFormat,
            PrintError::InvalidUri(why) => error@ == PrintErrorView::InvalidUri(why@),
            PrintError::Ipp(why) => error@ == PrintErrorView::Ipp(why@),
            PrintError::IppBuild(why) => error@ == PrintErrorView::IppBuild(why@),
            PrintError::Render(why) => error@ == PrintErrorView::Render(why.message()),
            PrintError::Rejected { status, message } => {
                &&& error@ is Rejected
                &&& error@->status == status
                &&& message is Some ==> error@->message == Some(message->0@)
                &&& message is None ==> error@->message is None
            },
        },
{
}

/// A format is named by its MIME type.
pub proof fn law_formats_are_named(format: DocumentFormat)
    ensures
        format == DocumentFormat::Pdf ==> format.mime() == "application/pdf"@,
        format == DocumentFormat::PwgRaster ==> format.mime() == "image/pwg-raster"@,
{
}

/// A PDF that couldn't be rasterised is reported with why.
pub proof fn law_failed_renderings_are_reported(
    rendered: Result<Vec<RenderedPage>, RenderError>,
    dpi: u32,
    color: ColorMode,
)
    ensures
        rendered matches Err(error) ==> raster_payload(rendered, dpi, color) == Err::<
            (Seq<u8>, DocumentFormat),
            PrintErrorView,
        >(PrintErrorView::Render(error.message())),
{
}

} // verus!
