//! What the simulated printer answers to IPP requests.

use ipp::attribute::IppAttribute;
use ipp::model::{DelimiterTag, IppVersion, StatusCode as IppStatus};
use ipp::request::IppRequestResponse;
use ipp::value::IppValue;
use num_traits::FromPrimitive;
use vstd::prelude::*;
use vstd::utf8::{
    decode_utf8, encode_utf8, encode_utf8_decode_utf8, encode_utf8_valid_utf8, valid_utf8,
};

use crate::discovery::copy_text;
use crate::message::{
    first_of, is_readable, law_lookups_find_the_first, lookup, message_of, named, parsed,
    AttributeView, GroupView, ItemView, Kind, Message, MessageView, ValueView, JOB_ATTRIBUTES,
    OPERATION_ATTRIBUTES, PRINTER_ATTRIBUTES,
};
use crate::pdf::RenderedPage;
use crate::pipeline::reply_view;
use crate::printing::{
    first_resolution, has, item_texts, lemma_ascii_fits, listed_values, optional_text, plan,
    submission, text, DocumentFormat, PrintErrorView, PrintPlan, StatusCode, SubmittedView,
};
use crate::raster::{be_bytes, encoded, is_encodable, ColorMode};
use crate::request::{fits, text_attribute, text_item, GET_PRINTER_ATTRIBUTES, PRINT_JOB};
use crate::simulator::jobs::{is_plan, preview_view, previewed, JobStore, Plan, SavedJob};
use crate::simulator::raster::{
    decoded, is_full, law_document_round_trip, lemma_word, page_views, restored, word_at,
    DecodeError, PageView,
};
use crate::text::{ascii_lower, equal_ignoring_case, separated, signed_decimal, texts};
use crate::uri::text_of;

verus! {

/// The status of a request that was served.
pub const SUCCESSFUL_OK: i16 = 0;

/// The status of a request that couldn't be read.
pub const CLIENT_ERROR_BAD_REQUEST: i16 = 0x400;

/// The status of a job whose document couldn't be decoded.
pub const CLIENT_ERROR_DOCUMENT_FORMAT_ERROR: i16 = 0x411;

/// The state of a printer that has nothing to do.
pub const PRINTER_IDLE: i32 = 3;

/// The state of a job that was printed.
pub const JOB_COMPLETED: i32 = 9;

/// The value tag of an integer.
pub const INTEGER: u8 = 0x21;

/// The value tag of a truth value.
pub const BOOLEAN: u8 = 0x22;

/// The value tag of an enumeration's number.
pub const ENUM: u8 = 0x23;

/// The value tag of a resolution.
pub const RESOLUTION: u8 = 0x32;

/// The value tag of a text without a language.
pub const TEXT: u8 = 0x41;

/// The value tag of a keyword.
pub const KEYWORD: u8 = 0x44;

/// The value tag of a MIME type.
pub const MIME: u8 = 0x49;

/// A value that the printer answers with; keywords and MIME types come in
/// lists of one or more.
pub enum Content {
    Text(String),
    Keywords(Vec<String>),
    Mimes(Vec<String>),
    Enum(i32),
    Integer(i32),
    Boolean(bool),
    Resolution { cross_feed: i32, feed: i32, units: i8 },
}

/// What a [`Content`] holds.
#[verifier::ext_equal]
pub enum ContentData {
    Text(Seq<char>),
    Keywords(Seq<Seq<char>>),
    Mimes(Seq<Seq<char>>),
    Enum(i32),
    Integer(i32),
    Boolean(bool),
    Resolution { cross_feed: i32, feed: i32, units: i8 },
}

impl View for Content {
    type V = ContentData;

    open spec fn view(&self) -> ContentData {
        match *self {
            Content::Text(text) => ContentData::Text(text@),
            Content::Keywords(list) => ContentData::Keywords(texts(list@)),
            Content::Mimes(list) => ContentData::Mimes(texts(list@)),
            Content::Enum(number) => ContentData::Enum(number),
            Content::Integer(number) => ContentData::Integer(number),
            Content::Boolean(value) => ContentData::Boolean(value),
            Content::Resolution { cross_feed, feed, units } => ContentData::Resolution {
                cross_feed,
                feed,
                units,
            },
        }
    }
}

/// One item is a single value, more of them a list.
pub open spec fn listed(items: Seq<ItemView>) -> ValueView {
    if items.len() == 1 {
        ValueView::Single(items[0])
    } else {
        ValueView::Array {
            text: seq!['['] + separated(
                items.map_values(|item: ItemView| item.text),
                ", "@,
            ) + seq![']'],
            items,
        }
    }
}

/// A list that can be written: it isn't empty, and nothing in it is too long.
pub open spec fn list_fits(list: Seq<Seq<char>>) -> bool {
    list.len() > 0 && forall|i: int| 0 <= i < list.len() ==> fits(#[trigger] list[i], 255)
}

impl ContentData {
    /// What the value is read as.
    pub open spec fn reads_as(self) -> ValueView {
        match self {
            ContentData::Text(text) => ValueView::Single(text_item(text)),
            ContentData::Keywords(list) => listed(
                list.map_values(|text: Seq<char>| text_item(text)),
            ),
            ContentData::Mimes(list) => listed(list.map_values(|text: Seq<char>| text_item(text))),
            ContentData::Enum(number) => ValueView::Single(
                ItemView { text: signed_decimal(number as int), kind: Kind::Enum(number) },
            ),
            ContentData::Integer(number) => ValueView::Single(
                ItemView { text: signed_decimal(number as int), kind: Kind::Integer(number) },
            ),
            ContentData::Boolean(value) => ValueView::Single(
                text_item(
                    if value {
                        "true"@
                    } else {
                        "false"@
                    },
                ),
            ),
            ContentData::Resolution { cross_feed, feed, units } => ValueView::Single(
                ItemView {
                    text: signed_decimal(cross_feed as int) + "x"@ + signed_decimal(feed as int) + (
                    if units == 3 {
                        "in"@
                    } else {
                        "cm"@
                    }),
                    kind: Kind::Resolution(cross_feed),
                },
            ),
        }
    }

    /// A value that isn't too long to be written.
    pub open spec fn is_writable(self) -> bool {
        match self {
            ContentData::Text(text) => fits(text, 1023),
            ContentData::Keywords(list) => list_fits(list),
            ContentData::Mimes(list) => list_fits(list),
            _ => true,
        }
    }
}

/// A named value that the printer answers with.
pub struct Entry {
    pub name: String,
    pub content: Content,
}

/// What an [`Entry`] holds.
#[verifier::ext_equal]
pub struct EntryData {
    pub name: Seq<char>,
    pub content: ContentData,
}

impl View for Entry {
    type V = EntryData;

    open spec fn view(&self) -> EntryData {
        EntryData { name: self.name@, content: self.content@ }
    }
}

impl EntryData {
    /// An entry that can be written: it has a name, and nothing in it is too
    /// long.
    pub open spec fn is_writable(self) -> bool {
        self.name.len() > 0 && fits(self.name, 255) && self.content.is_writable()
    }
}

/// What each entry holds.
pub open spec fn entries_of(entries: Seq<Entry>) -> Seq<EntryData> {
    entries.map_values(|entry: Entry| entry@)
}

/// A response: its status, the number of the request that it answers, and
/// entries under one delimiter tag.
pub struct Response {
    pub status: i16,
    pub request_id: i32,
    pub tag: u8,
    pub entries: Vec<Entry>,
}

/// What a [`Response`] holds.
#[verifier::ext_equal]
pub struct ResponseData {
    pub status: i16,
    pub request_id: i32,
    pub tag: u8,
    pub entries: Seq<EntryData>,
}

impl View for Response {
    type V = ResponseData;

    open spec fn view(&self) -> ResponseData {
        ResponseData {
            status: self.status,
            request_id: self.request_id,
            tag: self.tag,
            entries: entries_of(self.entries@),
        }
    }
}

/// The message of a response: behind the operation attributes that every
/// response has, its own attributes if there are any.
pub open spec fn response_message(
    status: i16,
    request_id: i32,
    tag: u8,
    attributes: Seq<AttributeView>,
) -> MessageView {
    let operation = GroupView {
        tag: OPERATION_ATTRIBUTES,
        attributes: seq![
            text_attribute("attributes-charset"@, "utf-8"@),
            text_attribute("attributes-natural-language"@, "en"@),
        ],
    };
    MessageView {
        code: status,
        request_id,
        groups: if attributes.len() == 0 {
            seq![operation]
        } else {
            seq![operation, GroupView { tag, attributes }]
        },
        document: Seq::empty(),
    }
}

/// A status and a delimiter tag that a response can have.
pub open spec fn is_answerable(status: i16, tag: u8) -> bool {
    &&& StatusCode::of(status).code == status >= 0
    &&& tag == JOB_ATTRIBUTES || tag == PRINTER_ATTRIBUTES
}

impl ResponseData {
    /// The message that the response is read as.
    pub open spec fn reads_as(self) -> MessageView {
        response_message(
            self.status,
            self.request_id,
            self.tag,
            self.entries.map_values(
                |entry: EntryData|
                    AttributeView { name: entry.name, value: entry.content.reads_as() },
            ),
        )
    }

    /// A response that can be written.
    pub open spec fn is_writable(self) -> bool {
        &&& is_answerable(self.status, self.tag)
        &&& forall|i: int|
            0 <= i < self.entries.len() ==> (#[trigger] self.entries[i]).is_writable()
    }
}

/// A named value as IPP writes it: a tag, and the bytes of each item.
pub struct RawEntry {
    pub name: String,
    pub tag: u8,
    pub values: Vec<Vec<u8>>,
}

/// What a [`RawEntry`] holds.
#[verifier::ext_equal]
pub struct RawData {
    pub name: Seq<char>,
    pub tag: u8,
    pub values: Seq<Seq<u8>>,
}

impl View for RawEntry {
    type V = RawData;

    open spec fn view(&self) -> RawData {
        RawData {
            name: self.name@,
            tag: self.tag,
            values: self.values@.map_values(|value: Vec<u8>| value@),
        }
    }
}

/// What each raw entry holds.
pub open spec fn raw_entries(entries: Seq<RawEntry>) -> Seq<RawData> {
    entries.map_values(|entry: RawEntry| entry@)
}

/// The big-endian signed number at `offset`.
pub open spec fn number_at(bytes: Seq<u8>, offset: int) -> i32 {
    if word_at(bytes, offset) >= 0x8000_0000 {
        (word_at(bytes, offset) - 0x1_0000_0000) as i32
    } else {
        word_at(bytes, offset) as i32
    }
}

/// The item that bytes under a value tag stand for.
pub open spec fn raw_item(tag: u8, bytes: Seq<u8>) -> ItemView {
    if tag == INTEGER {
        let number = number_at(bytes, 0);
        ItemView { text: signed_decimal(number as int), kind: Kind::Integer(number) }
    } else if tag == ENUM {
        let number = number_at(bytes, 0);
        ItemView { text: signed_decimal(number as int), kind: Kind::Enum(number) }
    } else if tag == BOOLEAN {
        text_item(
            if bytes[0] != 0 {
                "true"@
            } else {
                "false"@
            },
        )
    } else if tag == RESOLUTION {
        let (cross_feed, feed) = (number_at(bytes, 0), number_at(bytes, 4));
        ItemView {
            text: signed_decimal(cross_feed as int) + "x"@ + signed_decimal(feed as int) + (
            if bytes[8] == 3 {
                "in"@
            } else {
                "cm"@
            }),
            kind: Kind::Resolution(cross_feed),
        }
    } else {
        text_item(decode_utf8(bytes))
    }
}

/// Bytes that stand for an item under a value tag.
pub open spec fn raw_fits(tag: u8, bytes: Seq<u8>) -> bool {
    if tag == INTEGER || tag == ENUM {
        bytes.len() == 4
    } else if tag == BOOLEAN {
        bytes.len() == 1
    } else if tag == RESOLUTION {
        bytes.len() == 9
    } else if tag == TEXT {
        valid_utf8(bytes) && bytes.len() <= 1023
    } else {
        (tag == KEYWORD || tag == MIME) && valid_utf8(bytes) && bytes.len() <= 255
    }
}

impl RawData {
    /// The attribute that the entry is read as.
    pub open spec fn reads_as(self) -> AttributeView {
        AttributeView {
            name: self.name,
            value: listed(self.values.map_values(|value: Seq<u8>| raw_item(self.tag, value))),
        }
    }

    /// An entry that can be written.
    pub open spec fn is_writable(self) -> bool {
        &&& self.name.len() > 0
        &&& fits(self.name, 255)
        &&& self.values.len() > 0
        &&& forall|i: int|
            0 <= i < self.values.len() ==> raw_fits(self.tag, #[trigger] self.values[i])
    }
}

/// The bytes of a response.
pub uninterp spec fn response_bytes(
    status: i16,
    request_id: i32,
    tag: u8,
    entries: Seq<RawData>,
) -> Seq<u8>;

/// [`IppRequestResponse::new_response`], [`IppValue::parse`] on each item, the
/// attributes' `add` and the response's `to_bytes`: the bytes of a response.
/// They are read back as the response they were written for, each item as the
/// bytes under its tag say.
#[verifier::external_body]
fn write_response(status: i16, request_id: i32, tag: u8, entries: &Vec<RawEntry>) -> (bytes: Vec<
    u8,
>)
    requires
        is_answerable(status, tag),
        forall|i: int| 0 <= i < entries@.len() ==> (#[trigger] entries@[i])@.is_writable(),
    ensures
        bytes@ == response_bytes(status, request_id, tag, raw_entries(entries@)),
        is_readable(bytes@),
        parsed(bytes@) == (Ok::<MessageView, Seq<char>>(
            response_message(
                status,
                request_id,
                tag,
                raw_entries(entries@).map_values(|entry: RawData| entry.reads_as()),
            ),
        )),
{
    let (status, group) = (IppStatus::from_i16(status).unwrap(), DelimiterTag::from_u8(tag));
    let version = IppVersion::v1_1();
    let mut message = IppRequestResponse::new_response(version, status, request_id).unwrap();
    for entry in entries {
        let parse = |v: &Vec<u8>| IppValue::parse(entry.tag, v.clone().into()).unwrap();
        let values = entry.values.iter().map(parse);
        let attribute = IppAttribute::with_name(&entry.name, IppValue::Array(values.collect()));
        message.attributes_mut().add(group.unwrap(), attribute.unwrap());
    }
    message.to_bytes().to_vec()
}

/// The bytes of a signed number, most significant first.
pub open spec fn number_bytes(number: i32) -> Seq<u8> {
    be_bytes(
        if number < 0 {
            (number + 0x1_0000_0000) as u32
        } else {
            number as u32
        },
    )
}

impl ContentData {
    /// The value as IPP writes it: its tag, and the bytes of each item.
    pub open spec fn raw(self) -> (u8, Seq<Seq<u8>>) {
        match self {
            ContentData::Text(text) => (TEXT, seq![encode_utf8(text)]),
            ContentData::Keywords(list) => (
                KEYWORD,
                list.map_values(|text: Seq<char>| encode_utf8(text)),
            ),
            ContentData::Mimes(list) => (
                MIME,
                list.map_values(|text: Seq<char>| encode_utf8(text)),
            ),
            ContentData::Enum(number) => (ENUM, seq![number_bytes(number)]),
            ContentData::Integer(number) => (INTEGER, seq![number_bytes(number)]),
            ContentData::Boolean(value) => (
                BOOLEAN,
                seq![
                    seq![
                        if value {
                            1u8
                        } else {
                            0u8
                        },
                    ],
                ],
            ),
            ContentData::Resolution { cross_feed, feed, units } => (
                RESOLUTION,
                seq![
                    number_bytes(cross_feed) + number_bytes(feed) + seq![
                        if units < 0 {
                            (units + 256) as u8
                        } else {
                            units as u8
                        },
                    ],
                ],
            ),
        }
    }
}

impl EntryData {
    /// The entry as IPP writes it.
    pub open spec fn raw(self) -> RawData {
        RawData { name: self.name, tag: self.content.raw().0, values: self.content.raw().1 }
    }
}

/// A number's bytes, wherever they stand, are read as the number.
proof fn lemma_number(bytes: Seq<u8>, offset: int, number: i32)
    requires
        0 <= offset,
        offset + 4 <= bytes.len(),
        bytes.subrange(offset, offset + 4) == number_bytes(number),
    ensures
        number_at(bytes, offset) == number,
{
    lemma_word(
        bytes,
        offset,
        if number < 0 {
            (number + 0x1_0000_0000) as u32
        } else {
            number as u32
        },
    );
}

/// What IPP writes for a value is read as the value.
proof fn lemma_raw_reads_back(content: ContentData)
    requires
        content.is_writable(),
    ensures
        ({
            let (tag, values) = content.raw();
            &&& values.len() > 0
            &&& forall|i: int| 0 <= i < values.len() ==> raw_fits(tag, #[trigger] values[i])
            &&& listed(values.map_values(|value: Seq<u8>| raw_item(tag, value)))
                == content.reads_as()
        }),
{
    let (tag, values) = content.raw();
    let items = values.map_values(|value: Seq<u8>| raw_item(tag, value));
    match content {
        ContentData::Text(text) => {
            encode_utf8_valid_utf8(text);
            encode_utf8_decode_utf8(text);
        },
        ContentData::Keywords(list) => {
            lemma_texts_read_back(list, tag);
            assert(items =~= list.map_values(|text: Seq<char>| text_item(text)));
        },
        ContentData::Mimes(list) => {
            lemma_texts_read_back(list, tag);
            assert(items =~= list.map_values(|text: Seq<char>| text_item(text)));
        },
        ContentData::Enum(number) => {
            assert(values[0].subrange(0, 4) =~= number_bytes(number));
            lemma_number(values[0], 0, number);
        },
        ContentData::Integer(number) => {
            assert(values[0].subrange(0, 4) =~= number_bytes(number));
            lemma_number(values[0], 0, number);
        },
        ContentData::Boolean(value) => {},
        ContentData::Resolution { cross_feed, feed, units } => {
            assert(values[0].subrange(0, 4) =~= number_bytes(cross_feed));
            lemma_number(values[0], 0, cross_feed);
            assert(values[0].subrange(4, 8) =~= number_bytes(feed));
            lemma_number(values[0], 4, feed);
        },
    }
}

/// Texts in UTF-8 are read as the texts.
proof fn lemma_texts_read_back(list: Seq<Seq<char>>, tag: u8)
    requires
        list_fits(list),
        tag == KEYWORD || tag == MIME,
    ensures
        forall|i: int|
            0 <= i < list.len() ==> {
                let bytes = encode_utf8(#[trigger] list[i]);
                raw_fits(tag, bytes) && raw_item(tag, bytes) == text_item(list[i])
            },
{
    assert forall|i: int| 0 <= i < list.len() implies {
        let bytes = encode_utf8(#[trigger] list[i]);
        raw_fits(tag, bytes) && raw_item(tag, bytes) == text_item(list[i])
    } by {
        encode_utf8_valid_utf8(list[i]);
        encode_utf8_decode_utf8(list[i]);
    }
}

/// Write a number's bytes, most significant first, to the end of `out`.
fn push_number(out: &mut Vec<u8>, number: i32)
    ensures
        final(out)@ == old(out)@ + number_bytes(number),
{
    let ghost start = out@;
    let wide: i64 = number as i64;
    let v: u32 = if wide < 0 { (wide + 0x1_0000_0000) as u32 } else { wide as u32 };
    out.push((v / 0x100_0000) as u8);
    out.push((v / 0x1_0000 % 256) as u8);
    out.push((v / 0x100 % 256) as u8);
    out.push((v % 256) as u8);
    assert(out@ =~= start + number_bytes(number));
}

/// The bytes of texts.
fn text_values(list: &Vec<String>) -> (values: Vec<Vec<u8>>)
    ensures
        values@.map_values(|value: Vec<u8>| value@) == texts(list@).map_values(
            |text: Seq<char>| encode_utf8(text),
        ),
{
    let mut values: Vec<Vec<u8>> = Vec::new();
    let mut i: usize = 0;
    while i < list.len()
        invariant
            i <= list@.len(),
            values@.len() == i,
            forall|k: int| 0 <= k < i ==> (#[trigger] values@[k])@ == encode_utf8(list@[k]@),
        decreases list.len() - i,
    {
        values.push(list[i].as_str().as_bytes_vec());
        i = i + 1;
    }
    assert(values@.map_values(|value: Vec<u8>| value@) =~= texts(list@).map_values(
        |text: Seq<char>| encode_utf8(text),
    ));
    values
}

/// The value as IPP writes it (see [`ContentData::raw`]).
fn to_raw(content: &Content) -> (raw: (u8, Vec<Vec<u8>>))
    ensures
        raw.0 == content@.raw().0,
        raw.1@.map_values(|value: Vec<u8>| value@) == content@.raw().1,
{
    let mut bytes: Vec<u8> = Vec::new();
    let tag: u8 = match content {
        Content::Keywords(list) => {
            return (KEYWORD, text_values(list));
        },
        Content::Mimes(list) => {
            return (MIME, text_values(list));
        },
        Content::Text(text) => {
            bytes = text.as_str().as_bytes_vec();
            TEXT
        },
        Content::Enum(number) => {
            push_number(&mut bytes, *number);
            assert(bytes@ =~= number_bytes(*number));
            ENUM
        },
        Content::Integer(number) => {
            push_number(&mut bytes, *number);
            assert(bytes@ =~= number_bytes(*number));
            INTEGER
        },
        Content::Boolean(value) => {
            bytes.push(if *value { 1 } else { 0 });
            BOOLEAN
        },
        Content::Resolution { cross_feed, feed, units } => {
            push_number(&mut bytes, *cross_feed);
            push_number(&mut bytes, *feed);
            let wide: i16 = *units as i16;
            bytes.push(if wide < 0 { (wide + 256) as u8 } else { wide as u8 });
            RESOLUTION
        },
    };
    let ghost value = bytes@;
    let mut values: Vec<Vec<u8>> = Vec::new();
    values.push(bytes);
    proof {
        assert(value =~= content@.raw().1[0]);
        assert(values@.map_values(|value: Vec<u8>| value@) =~= content@.raw().1);
    }
    (tag, values)
}

impl Response {
    /// The response's bytes, which are read as the response (see
    /// [`ResponseData::reads_as`]).
    pub fn to_bytes(&self) -> (bytes: Vec<u8>)
        requires
            self@.is_writable(),
        ensures
            bytes@ == response_bytes(
                self.status,
                self.request_id,
                self.tag,
                self@.entries.map_values(|entry: EntryData| entry.raw()),
            ),
            message_of(bytes@) == Ok::<MessageView, Seq<char>>(self@.reads_as()),
    {
        let ghost entries = self@.entries;
        let mut raw: Vec<RawEntry> = Vec::new();
        let mut i: usize = 0;
        while i < self.entries.len()
            invariant
                i <= self.entries@.len(),
                entries == self@.entries,
                self@.is_writable(),
                raw@.len() == i,
                forall|k: int|
                    0 <= k < i ==> {
                        &&& (#[trigger] raw@[k])@.is_writable()
                        &&& raw@[k]@ == entries[k].raw()
                        &&& raw@[k]@.reads_as() == (AttributeView {
                            name: entries[k].name,
                            value: entries[k].content.reads_as(),
                        })
                    },
            decreases self.entries.len() - i,
        {
            let entry = &self.entries[i];
            let (tag, values) = to_raw(&entry.content);
            proof {
                assert(entries[i as int] == entry@);
                assert(entries[i as int].is_writable());
                lemma_raw_reads_back(entry@.content);
            }
            raw.push(RawEntry { name: entry.name.clone(), tag, values });
            i = i + 1;
        }
        let bytes = write_response(self.status, self.request_id, self.tag, &raw);
        assert(raw_entries(raw@) =~= self@.entries.map_values(|entry: EntryData| entry.raw()));
        assert(raw_entries(raw@).map_values(|entry: RawData| entry.reads_as())
            =~= self@.entries.map_values(
            |entry: EntryData|
                AttributeView { name: entry.name, value: entry.content.reads_as() },
        ));
        bytes
    }
}

/// A response without entries.
pub open spec fn bare(status: i16, request_id: i32) -> ResponseData {
    ResponseData { status, request_id, tag: JOB_ATTRIBUTES, entries: Seq::empty() }
}

/// The response to a request that was served.
fn success_response(request_id: i32) -> (response: Response)
    ensures
        response@ == bare(SUCCESSFUL_OK, request_id),
        response@.is_writable(),
{
    error_response(SUCCESSFUL_OK, request_id)
}

/// A response with a status and nothing else.
fn error_response(status: i16, request_id: i32) -> (response: Response)
    requires
        StatusCode::of(status).code == status >= 0,
    ensures
        response@ == bare(status, request_id),
        response@.is_writable(),
{
    let response = Response { status, request_id, tag: JOB_ATTRIBUTES, entries: Vec::new() };
    assert(response@.entries =~= Seq::empty());
    response
}

/// A named value.
fn attr(name: &str, content: Content) -> (entry: Entry)
    ensures
        entry@ == (EntryData { name: name@, content: content@ }),
{
    Entry { name: name.to_owned(), content }
}

/// A list of one text.
fn one(text: &str) -> (list: Vec<String>)
    ensures
        texts(list@) == seq![text@],
{
    let list = vec![text.to_owned()];
    assert(texts(list@) =~= seq![text@]);
    list
}

/// A list of two texts.
fn two(first: &str, second: &str) -> (list: Vec<String>)
    ensures
        texts(list@) == seq![first@, second@],
{
    let list = vec![first.to_owned(), second.to_owned()];
    assert(texts(list@) =~= seq![first@, second@]);
    list
}

/// An entry.
pub open spec fn entry(name: Seq<char>, content: ContentData) -> EntryData {
    EntryData { name, content }
}

/// What the printer says about itself.
pub open spec fn printer_entries() -> Seq<EntryData> {
    seq![
        entry("printer-name"@, ContentData::Text("Inkdrop Simulated Printer"@)),
        entry("printer-state"@, ContentData::Enum(PRINTER_IDLE)),
        entry("printer-state-reasons"@, ContentData::Keywords(seq!["none"@])),
        entry("printer-is-accepting-jobs"@, ContentData::Boolean(true)),
        entry(
            "document-format-supported"@,
            ContentData::Mimes(seq!["image/pwg-raster"@, "image/urf"@]),
        ),
        entry("document-format-default"@, ContentData::Mimes(seq!["image/pwg-raster"@])),
        entry(
            "pwg-raster-document-resolution-supported"@,
            ContentData::Resolution { cross_feed: 300, feed: 300, units: 3 },
        ),
        entry(
            "pwg-raster-document-type-supported"@,
            ContentData::Keywords(seq!["srgb_8"@, "sgray_8"@]),
        ),
    ]
}

/// The response to Get-Printer-Attributes.
pub open spec fn printer_response(request_id: i32) -> ResponseData {
    ResponseData {
        status: SUCCESSFUL_OK,
        request_id,
        tag: PRINTER_ATTRIBUTES,
        entries: printer_entries(),
    }
}

/// Nothing that the printer says about itself is too long.
proof fn lemma_printer_entries_fit()
    ensures
        forall|i: int|
            0 <= i < printer_entries().len() ==> (#[trigger] printer_entries()[i]).is_writable(),
{
    reveal_strlit("printer-name");
    reveal_strlit("Inkdrop Simulated Printer");
    reveal_strlit("printer-state");
    reveal_strlit("printer-state-reasons");
    reveal_strlit("none");
    reveal_strlit("printer-is-accepting-jobs");
    reveal_strlit("document-format-supported");
    reveal_strlit("image/pwg-raster");
    reveal_strlit("image/urf");
    reveal_strlit("document-format-default");
    reveal_strlit("pwg-raster-document-resolution-supported");
    reveal_strlit("pwg-raster-document-type-supported");
    reveal_strlit("srgb_8");
    reveal_strlit("sgray_8");
    lemma_ascii_fits("printer-name"@);
    lemma_ascii_fits("Inkdrop Simulated Printer"@);
    lemma_ascii_fits("printer-state"@);
    lemma_ascii_fits("printer-state-reasons"@);
    lemma_ascii_fits("none"@);
    lemma_ascii_fits("printer-is-accepting-jobs"@);
    lemma_ascii_fits("document-format-supported"@);
    lemma_ascii_fits("image/pwg-raster"@);
    lemma_ascii_fits("image/urf"@);
    lemma_ascii_fits("document-format-default"@);
    lemma_ascii_fits("pwg-raster-document-resolution-supported"@);
    lemma_ascii_fits("pwg-raster-document-type-supported"@);
    lemma_ascii_fits("srgb_8"@);
    lemma_ascii_fits("sgray_8"@);
}

/// The response to Get-Printer-Attributes (see [`printer_response`]).
pub fn get_printer_attributes(request_id: i32) -> (response: Response)
    ensures
        response@ == printer_response(request_id),
        response@.is_writable(),
{
    let entries: Vec<Entry> = vec![
        attr("printer-name", Content::Text("Inkdrop Simulated Printer".to_owned())),
        attr("printer-state", Content::Enum(PRINTER_IDLE)),
        attr("printer-state-reasons", Content::Keywords(one("none"))),
        attr("printer-is-accepting-jobs", Content::Boolean(true)),
        attr("document-format-supported", Content::Mimes(two("image/pwg-raster", "image/urf"))),
        attr("document-format-default", Content::Mimes(one("image/pwg-raster"))),
        attr(
            "pwg-raster-document-resolution-supported",
            Content::Resolution { cross_feed: 300, feed: 300, units: 3 },
        ),
        attr("pwg-raster-document-type-supported", Content::Keywords(two("srgb_8", "sgray_8"))),
    ];
    let response = Response {
        status: SUCCESSFUL_OK,
        request_id,
        tag: PRINTER_ATTRIBUTES,
        entries,
    };
    proof {
        assert(response@.entries =~= printer_entries());
        lemma_printer_entries_fit();
    }
    response
}

/// A job that was received.
pub struct ReceivedJob {
    /// The number of the request that it came by.
    pub request_id: i32,
    /// The format that its document is said to be in.
    pub document_format: String,
    /// Its name, if it has one.
    pub job_name: Option<String>,
    /// Its document.
    pub document: Vec<u8>,
}

/// What a [`ReceivedJob`] holds.
#[verifier::ext_equal]
pub struct JobData {
    pub request_id: i32,
    pub document_format: Seq<char>,
    pub job_name: Option<Seq<char>>,
    pub document: Seq<u8>,
}

impl View for ReceivedJob {
    type V = JobData;

    open spec fn view(&self) -> JobData {
        JobData {
            request_id: self.request_id,
            document_format: self.document_format@,
            job_name: text_of(self.job_name),
            document: self.document@,
        }
    }
}

/// What a request comes to.
pub enum Received {
    /// The answer to it.
    Answer(Response),
    /// A job: keep it, and answer with [`print_job`].
    Job(ReceivedJob),
}

/// What a [`Received`] holds.
#[verifier::ext_equal]
pub enum ReceivedData {
    Answer(ResponseData),
    Job(JobData),
}

impl View for Received {
    type V = ReceivedData;

    open spec fn view(&self) -> ReceivedData {
        match *self {
            Received::Answer(response) => ReceivedData::Answer(response@),
            Received::Job(job) => ReceivedData::Job(job@),
        }
    }
}

/// What a message comes to: Get-Printer-Attributes is answered with what the
/// printer says about itself, Print-Job brings a job, and anything else gets a
/// generic success.
pub open spec fn handled(message: MessageView) -> ReceivedData {
    let operation = |name: Seq<char>|
        optional_text(lookup(message.groups, OPERATION_ATTRIBUTES, name));
    if message.code == GET_PRINTER_ATTRIBUTES {
        ReceivedData::Answer(printer_response(message.request_id))
    } else if message.code == PRINT_JOB {
        ReceivedData::Job(
            JobData {
                request_id: message.request_id,
                document_format: match operation("document-format"@) {
                    Some(format) => format,
                    None => "application/octet-stream"@,
                },
                job_name: operation("job-name"@),
                document: message.document,
            },
        )
    } else {
        ReceivedData::Answer(bare(SUCCESSFUL_OK, message.request_id))
    }
}

/// What a request comes to: a bad request if it can't be read.
pub open spec fn received(body: Seq<u8>) -> ReceivedData {
    received_as(message_of(body))
}

/// What a request comes to, given what it was read as.
pub open spec fn received_as(read: Result<MessageView, Seq<char>>) -> ReceivedData {
    match read {
        Ok(message) => handled(message),
        Err(error) => ReceivedData::Answer(bare(CLIENT_ERROR_BAD_REQUEST, 0)),
    }
}

/// What a message comes to (see [`handled`]).
pub fn process(message: Message) -> (received: Received)
    ensures
        received@ == handled(message@),
        received matches Received::Answer(response) ==> response@.is_writable(),
{
    if message.code == GET_PRINTER_ATTRIBUTES {
        Received::Answer(get_printer_attributes(message.request_id))
    } else if message.code == PRINT_JOB {
        let document_format = match text(&message, OPERATION_ATTRIBUTES, "document-format") {
            Some(format) => format,
            None => "application/octet-stream".to_owned(),
        };
        let job_name = text(&message, OPERATION_ATTRIBUTES, "job-name");
        Received::Job(
            ReceivedJob {
                request_id: message.request_id,
                document_format,
                job_name,
                document: message.document,
            },
        )
    } else {
        Received::Answer(success_response(message.request_id))
    }
}

/// Handles a raw `application/ipp` POST body (see [`received`]).
pub fn handle(body: Vec<u8>) -> (result: Received)
    ensures
        result@ == received(body@),
        result matches Received::Answer(response) ==> response@.is_writable(),
{
    process_read(Message::read(body))
}

/// What a request comes to, given what it was read as (see
/// [`received_as`]).
pub fn process_read(read: Result<Message, String>) -> (result: Received)
    ensures
        result@ == received_as(reply_view(read)),
        result matches Received::Answer(response) ==> response@.is_writable(),
{
    match read {
        Ok(message) => process(message),
        Err(_) => Received::Answer(error_response(CLIENT_ERROR_BAD_REQUEST, 0)),
    }
}

/// The response to a job that was kept, or wasn't: a document that claims to
/// be PWG-Raster but can't be decoded is rejected as a real printer would
/// reject it; any other job is completed at once.
pub open spec fn job_response(
    job_id: i32,
    request_id: i32,
    saved: Result<SavedJob, String>,
) -> ResponseData {
    job_answer(job_id, request_id, saved is Ok && saved->Ok_0.preview_error is Some)
}

/// The response to a job that is rejected or completed. Either way it carries
/// the job's number.
pub open spec fn job_answer(job_id: i32, request_id: i32, rejected: bool) -> ResponseData {
    let number = entry("job-id"@, ContentData::Integer(job_id));
    if rejected {
        ResponseData {
            status: CLIENT_ERROR_DOCUMENT_FORMAT_ERROR,
            entries: seq![number],
            ..bare(SUCCESSFUL_OK, request_id)
        }
    } else {
        ResponseData {
            entries: seq![
                number,
                entry("job-state"@, ContentData::Enum(JOB_COMPLETED)),
                entry(
                    "job-state-reasons"@,
                    ContentData::Keywords(seq!["job-completed-successfully"@]),
                ),
            ],
            ..bare(SUCCESSFUL_OK, request_id)
        }
    }
}

/// The response to a job that was kept, or wasn't (see [`job_response`]).
pub fn print_job(job_id: i32, request_id: i32, saved: Result<SavedJob, String>) -> (response:
    Response)
    ensures
        response@ == job_response(job_id, request_id, saved),
        response@.is_writable(),
{
    proof {
        reveal_strlit("job-id");
        reveal_strlit("job-state");
        reveal_strlit("job-state-reasons");
        reveal_strlit("job-completed-successfully");
        lemma_ascii_fits("job-id"@);
        lemma_ascii_fits("job-state"@);
        lemma_ascii_fits("job-state-reasons"@);
        lemma_ascii_fits("job-completed-successfully"@);
    }
    let rejected = match &saved {
        Ok(saved) => saved.preview_error.is_some(),
        Err(_) => false,
    };
    let mut entries: Vec<Entry> = vec![attr("job-id", Content::Integer(job_id))];
    let status: i16 = if rejected {
        CLIENT_ERROR_DOCUMENT_FORMAT_ERROR
    } else {
        entries.push(attr("job-state", Content::Enum(JOB_COMPLETED)));
        entries.push(
            attr("job-state-reasons", Content::Keywords(one("job-completed-successfully"))),
        );
        SUCCESSFUL_OK
    };
    let response = Response { status, request_id, tag: JOB_ATTRIBUTES, entries };
    assert(response@.entries =~= job_response(job_id, request_id, saved).entries);
    response
}

/// The number that the next job gets.
pub open spec fn following(number: i32) -> i32 {
    if number == i32::MAX {
        i32::MIN
    } else {
        (number + 1) as i32
    }
}

/// The simulated printer: where its jobs are kept, and the number that the
/// next one gets.
pub struct SimulatedPrinter {
    pub jobs: JobStore,
    pub next_job_id: i32,
}

/// A job that is to be kept.
pub struct PendingJob {
    /// The job's number.
    pub job_id: i32,
    /// What was received.
    pub job: ReceivedJob,
    /// What keeping it takes.
    pub plan: Plan,
}

/// What the printer asks for on a request.
pub enum Work {
    /// Answer with this.
    Answer(Response),
    /// Keep this job, and answer with [`PendingJob::kept`].
    Keep(PendingJob),
}

impl SimulatedPrinter {
    /// A printer that keeps its jobs in a directory, and has had none yet.
    pub fn new(dir: String) -> (printer: SimulatedPrinter)
        ensures
            printer.jobs.dir@ == dir@,
            printer.next_job_id == 1,
    {
        SimulatedPrinter { jobs: JobStore::new(dir), next_job_id: 1 }
    }

    /// Take a request, given what it was read as (see [`received_as`]). A job
    /// gets the next number, whatever becomes of it; nothing else gets one.
    pub fn receive(&mut self, read: Result<Message, String>) -> (work: Work)
        ensures
            final(self).jobs.dir@ == old(self).jobs.dir@,
            final(self).next_job_id == next_number(
                old(self).next_job_id,
                received_as(reply_view(read)),
            ),
            match work {
                Work::Answer(response) => {
                    &&& received_as(reply_view(read)) == ReceivedData::Answer(response@)
                    &&& response@.is_writable()
                },
                Work::Keep(pending) => {
                    &&& received_as(reply_view(read)) == ReceivedData::Job(pending.job@)
                    &&& pending.job_id == old(self).next_job_id
                    &&& is_plan(
                        pending.plan,
                        old(self).jobs.dir@,
                        pending.job_id,
                        pending.job@.document_format,
                        pending.job@.job_name,
                        pending.job@.document,
                    )
                },
            },
    {
        match process_read(read) {
            Received::Answer(response) => Work::Answer(response),
            Received::Job(job) => {
                let job_id: i32 = self.next_job_id;
                self.next_job_id = if job_id == i32::MAX { i32::MIN } else { job_id + 1 };
                let job_name = match &job.job_name {
                    Some(name) => Some(name.as_str()),
                    None => None,
                };
                let plan = self.jobs.save(
                    job_id,
                    job.document_format.as_str(),
                    job_name,
                    job.document.as_slice(),
                );
                Work::Keep(PendingJob { job_id, job, plan })
            },
        }
    }
}

impl PendingJob {
    /// Whether the job is rejected, given what came of keeping it.
    pub open spec fn is_rejected(self, kept: Result<Option<String>, String>) -> bool {
        match kept {
            Ok(picture_error) => self.plan.saved(text_of(picture_error)).preview_error is Some,
            Err(error) => false,
        }
    }

    /// What is said of the job, and the response to it, given why a picture of
    /// it couldn't be written if one couldn't, or why its document couldn't be.
    pub fn kept(self, kept: Result<Option<String>, String>) -> (result: (
        Result<SavedJob, String>,
        Response,
    ))
        ensures
            match result.0 {
                Ok(saved) => kept is Ok && saved@ == self.plan.saved(text_of(kept->Ok_0)),
                Err(error) => kept is Err && error@ == kept->Err_0@,
            },
            result.1@ == job_answer(self.job_id, self.job.request_id, self.is_rejected(kept)),
            result.1@.is_writable(),
    {
        let (job_id, request_id) = (self.job_id, self.job.request_id);
        match kept {
            Ok(picture_error) => {
                let saved = self.plan.finish(picture_error);
                let copy = SavedJob {
                    path: saved.path.clone(),
                    preview_pages: saved.preview_pages,
                    preview_error: copy_text(&saved.preview_error),
                };
                let response = print_job(job_id, request_id, Ok(copy));
                (Ok(saved), response)
            },
            Err(error) => {
                let response = print_job(job_id, request_id, Err(error.clone()));
                (Err(error), response)
            },
        }
    }
}

/// The number that the next job gets, once a request was received.
pub open spec fn next_number(next: i32, request: ReceivedData) -> i32 {
    if request is Job {
        following(next)
    } else {
        next
    }
}

/// The number that the next job gets, once requests were received one after
/// the other.
pub open spec fn number_after(next: i32, requests: Seq<ReceivedData>) -> i32
    decreases requests.len(),
{
    if requests.len() == 0 {
        next
    } else {
        next_number(number_after(next, requests.drop_last()), requests.last())
    }
}

/// How many of the requests bring a job.
pub open spec fn jobs_among(requests: Seq<ReceivedData>) -> int
    decreases requests.len(),
{
    if requests.len() == 0 {
        0
    } else if requests.last() is Job {
        jobs_among(requests.drop_last()) + 1
    } else {
        jobs_among(requests.drop_last())
    }
}

/// The number of jobs never goes down.
proof fn lemma_jobs_among(requests: Seq<ReceivedData>, i: int)
    requires
        0 <= i <= requests.len(),
    ensures
        0 <= jobs_among(requests.take(i)) <= jobs_among(requests),
        i < requests.len() && requests[i] is Job ==> jobs_among(requests.take(i)) < jobs_among(
            requests,
        ),
    decreases requests.len(),
{
    if i == requests.len() {
        assert(requests.take(i) =~= requests);
        if requests.len() > 0 {
            lemma_jobs_among(requests.drop_last(), i - 1);
            assert(requests.drop_last().take(i - 1) =~= requests.drop_last());
        }
    } else {
        lemma_jobs_among(requests.drop_last(), i);
        assert(requests.drop_last().take(i) =~= requests.take(i));
    }
}

/// Numbers count up by one a job, and from the greatest go on with the least.
proof fn lemma_number_after(next: i32, requests: Seq<ReceivedData>)
    ensures
        0 <= jobs_among(requests),
        number_after(next, requests) == (next + 0x8000_0000 + jobs_among(requests)) % 0x1_0000_0000
            - 0x8000_0000,
    decreases requests.len(),
{
    if requests.len() > 0 {
        lemma_number_after(next, requests.drop_last());
    }
}

/// Jobs number upward from the counter, accepted or not: the job that comes by
/// a request gets the number that the counter started with and one more for
/// every job before it, its response carries that number whether or not it is
/// rejected, and the counter ends behind the last of them.
pub proof fn law_jobs_number_upward(
    next: i32,
    requests: Seq<ReceivedData>,
    i: int,
    request_id: i32,
    rejected: bool,
)
    requires
        0 <= i < requests.len(),
        requests[i] is Job,
        next + jobs_among(requests) <= i32::MAX,
    ensures
        number_after(next, requests.take(i)) == next + jobs_among(requests.take(i)),
        number_after(next, requests) == next + jobs_among(requests),
        job_answer(number_after(next, requests.take(i)), request_id, rejected).entries[0] == entry(
            "job-id"@,
            ContentData::Integer((next + jobs_among(requests.take(i))) as i32),
        ),
{
    lemma_jobs_among(requests, i);
    lemma_number_after(next, requests.take(i));
    lemma_number_after(next, requests);
}

/// No number is given twice before every number was given once.
pub proof fn law_job_numbers_are_not_reused(
    next: i32,
    requests: Seq<ReceivedData>,
    i: int,
    j: int,
)
    requires
        0 <= i < j < requests.len(),
        requests[i] is Job,
        requests[j] is Job,
        jobs_among(requests) <= 0x1_0000_0000,
    ensures
        number_after(next, requests.take(i)) != number_after(next, requests.take(j)),
{
    lemma_jobs_among(requests, j);
    lemma_jobs_among(requests.take(j), i);
    assert(requests.take(j).take(i) =~= requests.take(i));
    lemma_number_after(next, requests.take(i));
    lemma_number_after(next, requests.take(j));
}

/// The job that a submitted document arrives as is the one that was sent: the
/// printer finds its title, its format and its document in the request that
/// [`submit_request`](crate::printing::submit_request) builds.
pub proof fn law_submitted_jobs_arrive(
    body: Seq<u8>,
    uri: Seq<char>,
    user: Seq<char>,
    title: Seq<char>,
    format: Seq<char>,
    document: Seq<u8>,
)
    requires
        message_of(body) == Ok::<MessageView, Seq<char>>(
            crate::request::print_job(uri, user, title, format, document),
        ),
    ensures
        received(body) == ReceivedData::Job(
            JobData {
                request_id: 1,
                document_format: format,
                job_name: Some(title),
                document,
            },
        ),
{
    let request = crate::request::print_job(uri, user, title, format, document);
    reveal_strlit("attributes-charset");
    reveal_strlit("attributes-natural-language");
    reveal_strlit("printer-uri");
    reveal_strlit("requesting-user-name");
    reveal_strlit("document-format");
    reveal_strlit("job-name");
    let all = request.groups[0].attributes;
    assert(all[0].name.len() == 18);
    assert(all[1].name.len() == 27);
    assert(all[2].name.len() == 11);
    assert(all[3].name.len() == 20);
    assert(all[4].name.len() == 15);
    lemma_named_at(all, "document-format"@, 4);
    lemma_named_at(all, "job-name"@, 5);
}

/// An attribute is found by its name where no other before it has that name.
proof fn lemma_named_at(attributes: Seq<AttributeView>, name: Seq<char>, at: int)
    requires
        0 <= at < attributes.len(),
        attributes[at].name == name,
        forall|i: int| 0 <= i < at ==> (#[trigger] attributes[i]).name != name,
    ensures
        named(attributes, name) == Some(attributes[at].value),
    decreases at,
{
    if at > 0 {
        let rest = attributes.drop_first();
        assert forall|i: int| 0 <= i < at - 1 implies (#[trigger] rest[i]).name != name by {
            assert(rest[i] == attributes[i + 1]);
        }
        lemma_named_at(rest, name, at - 1);
    }
}

/// A document that claims to be PWG-Raster but can't be decoded is rejected
/// with `client-error-document-format-error`.
pub proof fn law_malformed_rasters_are_rejected(
    plan: Plan,
    document_format: Seq<char>,
    data: Seq<u8>,
    picture_error: Option<Seq<char>>,
    saved: SavedJob,
    job_id: i32,
    request_id: i32,
)
    requires
        equal_ignoring_case(document_format, "image/pwg-raster"@),
        decoded(data) is Err,
        preview_view(plan.preview) == previewed(document_format, data),
        saved@ == plan.saved(picture_error),
    ensures
        job_response(job_id, request_id, Ok(saved)).status == CLIENT_ERROR_DOCUMENT_FORMAT_ERROR,
{
}

/// A document in any other format is not looked at, and accepted.
pub proof fn law_other_formats_are_accepted(
    plan: Plan,
    document_format: Seq<char>,
    data: Seq<u8>,
    picture_error: Option<Seq<char>>,
    saved: SavedJob,
    job_id: i32,
    request_id: i32,
)
    requires
        !equal_ignoring_case(document_format, "image/pwg-raster"@),
        preview_view(plan.preview) == previewed(document_format, data),
        saved@ == plan.saved(picture_error),
    ensures
        job_response(job_id, request_id, Ok(saved)).status == SUCCESSFUL_OK,
{
}

/// What the encoder makes of full pages is accepted, and previewed as the
/// pages that were encoded.
pub proof fn law_encoded_pages_are_accepted(
    pages: Seq<RenderedPage>,
    dpi: u32,
    color: ColorMode,
    plan: Plan,
    saved: SavedJob,
    job_id: i32,
    request_id: i32,
)
    requires
        pages.len() > 0,
        forall|i: int|
            0 <= i < pages.len() ==> #[trigger] is_encodable(pages[i], color) && is_full(pages[i]),
        preview_view(plan.preview) == previewed(
            DocumentFormat::PwgRaster.mime(),
            encoded(pages, dpi, color),
        ),
        saved@ == plan.saved(None),
    ensures
        preview_view(plan.preview) == Some(
            Ok::<Seq<PageView>, DecodeError>(
                pages.map_values(|page: RenderedPage| restored(page, color)),
            ),
        ),
        saved.preview_pages == pages.len(),
        job_response(job_id, request_id, Ok(saved)).status == SUCCESSFUL_OK,
{
    law_document_round_trip(pages, dpi, color);
    let views = pages.map_values(|page: RenderedPage| restored(page, color));
    assert(preview_view(plan.preview) == Some(Ok::<Seq<PageView>, DecodeError>(views)));
    if let Some(Ok(found)) = plan.preview {
        assert(page_views(found@).len() == views.len());
    }
}

/// The attributes that a response is read as.
proof fn lemma_entry_reads_as(response: ResponseData, at: int)
    requires
        0 <= at < response.entries.len(),
        forall|i: int|
            0 <= i < at ==> (#[trigger] response.entries[i]).name != response.entries[at].name,
        response.tag != OPERATION_ATTRIBUTES,
    ensures
        lookup(response.reads_as().groups, response.tag, response.entries[at].name) == Some(
            response.entries[at].content.reads_as(),
        ),
{
    let message = response.reads_as();
    let attributes = response.entries.map_values(
        |entry: EntryData| AttributeView { name: entry.name, value: entry.content.reads_as() },
    );
    let operation = message.groups[0];
    let group = GroupView { tag: response.tag, attributes };
    assert(message.groups =~= seq![operation, group]);
    reveal_with_fuel(first_of, 2);
    assert(message.groups.drop_first() =~= seq![group]);
    assert forall|i: int| 0 <= i < at implies (#[trigger] attributes[i]).name
        != response.entries[at].name by {
        assert(response.entries[i].name != response.entries[at].name);
    }
    lemma_named_at(attributes, response.entries[at].name, at);
}

/// A PDF is sent to the simulated printer as PWG-Raster, in colour at 300 dots
/// per inch.
pub proof fn law_simulated_printer_is_sent_rasters(request_id: i32)
    ensures
        plan(printer_response(request_id).reads_as(), None) == Ok::<PrintPlan, PrintErrorView>(
            PrintPlan::PwgRaster { dpi: 300, color: ColorMode::Srgb8 },
        ),
{
    let response = printer_response(request_id);
    let message = response.reads_as();
    reveal_strlit("printer-name");
    reveal_strlit("printer-state");
    reveal_strlit("printer-state-reasons");
    reveal_strlit("printer-is-accepting-jobs");
    reveal_strlit("document-format-supported");
    reveal_strlit("document-format-default");
    reveal_strlit("pwg-raster-document-resolution-supported");
    reveal_strlit("pwg-raster-document-type-supported");
    assert(response.entries[0].name.len() == 12);
    assert(response.entries[1].name.len() == 13);
    assert(response.entries[2].name.len() == 21);
    assert(response.entries[3].name[0] == 'p');
    assert(response.entries[4].name[0] == 'd');
    assert(response.entries[4].name.len() == response.entries[3].name.len() == 25);
    assert(response.entries[5].name.len() == 23);
    assert(response.entries[6].name.len() == 40);
    assert(response.entries[7].name.len() == 34);
    lemma_entry_reads_as(response, 4);
    lemma_entry_reads_as(response, 6);
    lemma_entry_reads_as(response, 7);
    let formats = listed_values(
        lookup(message.groups, PRINTER_ATTRIBUTES, "document-format-supported"@),
    );
    assert(formats =~= seq![text_item("image/pwg-raster"@), text_item("image/urf"@)]);
    assert(has(formats, "application/pdf"@) == false) by {
        reveal_strlit("image/pwg-raster");
        reveal_strlit("image/urf");
        reveal_strlit("application/pdf");
        assert forall|i: int| 0 <= i < formats.len() implies !#[trigger] equal_ignoring_case(
            formats[i].text,
            "application/pdf"@,
        ) by {
            let lower = |c: char| ascii_lower(c);
            let found = formats[i].text.map_values(lower);
            assert(found[0] == 'i');
            assert("application/pdf"@.map_values(lower)[0] == 'a');
        }
    }
    assert(has(formats, "image/pwg-raster"@)) by {
        assert(equal_ignoring_case(formats[0].text, "image/pwg-raster"@));
    }
    let resolutions = listed_values(
        lookup(
            message.groups,
            PRINTER_ATTRIBUTES,
            "pwg-raster-document-resolution-supported"@,
        ),
    );
    assert(resolutions.len() == 1 && resolutions[0].kind == Kind::Resolution(300));
    assert(first_resolution(resolutions) == Some(300u32));
    let types = listed_values(
        lookup(message.groups, PRINTER_ATTRIBUTES, "pwg-raster-document-type-supported"@),
    );
    assert(types =~= seq![text_item("srgb_8"@), text_item("sgray_8"@)]);
    assert(has(types, "srgb_8"@)) by {
        assert(equal_ignoring_case(types[0].text, "srgb_8"@));
    }
}

/// A job that the simulated printer accepted is reported as completed, under
/// its number; one that it rejected as a rejection.
pub proof fn law_simulated_jobs_are_reported(
    job_id: i32,
    request_id: i32,
    saved: Result<SavedJob, String>,
)
    ensures
        ({
            let response = job_response(job_id, request_id, saved);
            submission(response.reads_as()) == if response.status == SUCCESSFUL_OK {
                Ok::<SubmittedView, PrintErrorView>(
                    SubmittedView {
                        status: StatusCode { code: SUCCESSFUL_OK },
                        job_id: Some(job_id),
                        job_state: Some("Completed"@),
                        job_state_reasons: seq!["job-completed-successfully"@],
                    },
                )
            } else {
                Err(
                    PrintErrorView::Rejected {
                        status: StatusCode { code: CLIENT_ERROR_DOCUMENT_FORMAT_ERROR },
                        message: None,
                    },
                )
            }
        }),
{
    let response = job_response(job_id, request_id, saved);
    let message = response.reads_as();
    reveal_strlit("job-id");
    reveal_strlit("job-state");
    reveal_strlit("job-state-reasons");
    reveal_strlit("attributes-charset");
    reveal_strlit("attributes-natural-language");
    reveal_strlit("status-message");
    if response.status == SUCCESSFUL_OK {
        assert(response.entries[0].name.len() == 6);
        assert(response.entries[1].name.len() == 9);
        assert(response.entries[2].name.len() == 17);
        lemma_entry_reads_as(response, 0);
        lemma_entry_reads_as(response, 1);
        lemma_entry_reads_as(response, 2);
        let reasons = listed_values(
            lookup(message.groups, JOB_ATTRIBUTES, "job-state-reasons"@),
        );
        assert(reasons =~= seq![text_item("job-completed-successfully"@)]);
        assert(item_texts(reasons) =~= seq!["job-completed-successfully"@]);
    } else {
        let attributes = message.groups[0].attributes;
        reveal_with_fuel(named, 3);
        assert(attributes[0].name.len() == 18);
        assert(attributes[1].name.len() == 27);
        assert(named(attributes, "status-message"@) is None);
    }
}

/// Every response carries the number of the request that it answers.
pub proof fn law_responses_carry_the_request_number(
    message: MessageView,
    job_id: i32,
    saved: Result<SavedJob, String>,
)
    ensures
        match handled(message) {
            ReceivedData::Answer(response) => response.request_id == message.request_id,
            ReceivedData::Job(job) => job_response(job_id, job.request_id, saved).request_id
                == message.request_id,
        },
{
}

/// The text of an operation attribute in a message, if it has it.
pub open spec fn operation_text(message: MessageView, name: Seq<char>) -> Option<Seq<char>> {
    match lookup(message.groups, 1, name) {
        None => None,
        Some(ValueView::Single(item)) => Some(item.text),
        Some(ValueView::Array { text, items }) => Some(text),
    }
}

/// A Print-Job, and nothing else, brings a job: with the document as it came,
/// under the name and in the format that the request gives, or without a name
/// and as `application/octet-stream`. Any other request is answered with success
/// and its own number, a Get-Printer-Attributes with what the printer says of
/// itself, the others with nothing more; what can't be read is a bad request.
pub proof fn law_requests_are_answered(read: Result<MessageView, Seq<char>>)
    ensures
        read is Err ==> received_as(read) is Answer && received_as(read)->Answer_0.status == 0x400
            && received_as(read)->Answer_0.request_id == 0 && received_as(
            read,
        )->Answer_0.entries.len() == 0,
        read matches Ok(message) ==> {
            &&& received_as(read) is Job <==> message.code == 2
            &&& received_as(read) matches ReceivedData::Job(job) ==> {
                &&& job.request_id == message.request_id
                &&& job.document == message.document
                &&& job.job_name == operation_text(message, "job-name"@)
                &&& job.document_format == if operation_text(message, "document-format"@) is Some {
                    operation_text(message, "document-format"@)->0
                } else {
                    "application/octet-stream"@
                }
            }
            &&& received_as(read) matches ReceivedData::Answer(response) ==> {
                &&& response.status == 0
                &&& response.request_id == message.request_id
                &&& response.entries.len() == if message.code == 11 {
                    8int
                } else {
                    0
                }
                &&& message.code == 11 ==> response == printer_response(message.request_id)
            }
        },
{
}

/// Whether a message's first printer attribute with a name is this value.
pub open spec fn describes(message: MessageView, name: Seq<char>, value: ValueView) -> bool {
    lookup(message.groups, 4, name) == Some(value)
}

/// What the simulated printer says of itself: its name, that it is idle and
/// takes jobs, and that it takes PWG-Raster, which it prefers, and URF, as
/// rasters of 300 dots per inch in colour or greyscale.
pub proof fn law_the_printer_describes_itself(request_id: i32)
    ensures
        ({
            let message = printer_response(request_id).reads_as();
            let formats = listed_values(
                lookup(message.groups, 4, "document-format-supported"@),
            );
            let types = listed_values(
                lookup(message.groups, 4, "pwg-raster-document-type-supported"@),
            );
            let dpi = lookup(message.groups, 4, "pwg-raster-document-resolution-supported"@);
            &&& message.code == 0
            &&& message.request_id == request_id
            &&& describes(
                message,
                "printer-name"@,
                ValueView::Single(text_item("Inkdrop Simulated Printer"@)),
            )
            &&& lookup(message.groups, 4, "printer-state"@) is Some
            &&& lookup(message.groups, 4, "printer-state"@)->0->Single_0.kind == Kind::Enum(3)
            &&& describes(
                message,
                "printer-state-reasons"@,
                ValueView::Single(text_item("none"@)),
            )
            &&& describes(
                message,
                "printer-is-accepting-jobs"@,
                ValueView::Single(text_item("true"@)),
            )
            &&& describes(
                message,
                "document-format-default"@,
                ValueView::Single(text_item("image/pwg-raster"@)),
            )
            &&& formats.len() == 2
            &&& formats[0].text == "image/pwg-raster"@
            &&& formats[1].text == "image/urf"@
            &&& types.len() == 2
            &&& types[0].text == "srgb_8"@
            &&& types[1].text == "sgray_8"@
            &&& dpi is Some
            &&& dpi->0 is Single
            &&& dpi->0->Single_0.kind == Kind::Resolution(300)
        }),
{
    let response = printer_response(request_id);
    let message = response.reads_as();
    reveal_strlit("printer-name");
    reveal_strlit("printer-state");
    reveal_strlit("printer-state-reasons");
    reveal_strlit("printer-is-accepting-jobs");
    reveal_strlit("document-format-supported");
    reveal_strlit("document-format-default");
    reveal_strlit("pwg-raster-document-resolution-supported");
    reveal_strlit("pwg-raster-document-type-supported");
    assert(response.entries[0].name.len() == 12);
    assert(response.entries[1].name.len() == 13);
    assert(response.entries[2].name.len() == 21);
    assert(response.entries[3].name[0] == 'p');
    assert(response.entries[4].name[0] == 'd');
    assert(response.entries[4].name.len() == response.entries[3].name.len() == 25);
    assert(response.entries[5].name.len() == 23);
    assert(response.entries[6].name.len() == 40);
    assert(response.entries[7].name.len() == 34);
    lemma_entry_reads_as(response, 0);
    lemma_entry_reads_as(response, 1);
    lemma_entry_reads_as(response, 2);
    lemma_entry_reads_as(response, 3);
    lemma_entry_reads_as(response, 4);
    lemma_entry_reads_as(response, 5);
    lemma_entry_reads_as(response, 6);
    lemma_entry_reads_as(response, 7);
}

/// The response to a job carries the number of the request and that of the job,
/// whether the job is rejected, as a document that can't be read, or completed.
pub proof fn law_jobs_are_answered(job_id: i32, request_id: i32, rejected: bool)
    ensures
        ({
            let message = job_answer(job_id, request_id, rejected).reads_as();
            let id = lookup(message.groups, 2, "job-id"@);
            let state = lookup(message.groups, 2, "job-state"@);
            &&& message.code == if rejected {
                0x411int
            } else {
                0
            }
            &&& message.request_id == request_id
            &&& message.document.len() == 0
            &&& id is Some
            &&& id->0 is Single
            &&& id->0->Single_0.kind == Kind::Integer(job_id)
            &&& rejected <==> state is None
            &&& !rejected ==> state->0 is Single && state->0->Single_0.kind == Kind::Enum(9)
        }),
{
    let response = job_answer(job_id, request_id, rejected);
    let message = response.reads_as();
    reveal_strlit("job-id");
    reveal_strlit("job-state");
    reveal_strlit("job-state-reasons");
    assert(response.entries[0].name.len() == 6);
    lemma_entry_reads_as(response, 0);
    if rejected {
        assert(message.groups[0].tag == 1 && message.groups[1].tag == 2);
        law_lookups_find_the_first(message.groups, 2, "job-state"@, 1, 1);
    } else {
        assert(response.entries[1].name.len() == 9);
        assert(response.entries[2].name.len() == 17);
        lemma_entry_reads_as(response, 1);
    }
}

/// A job is rejected if and only if it was kept and something was wrong with
/// its preview.
pub proof fn law_jobs_are_rejected_for_their_preview(
    job_id: i32,
    request_id: i32,
    saved: Result<SavedJob, String>,
)
    ensures
        job_response(job_id, request_id, saved).status == 0x411 <==> saved is Ok
            && saved->Ok_0.preview_error is Some,
        job_response(job_id, request_id, saved).status == 0 <==> saved is Err
            || saved->Ok_0.preview_error is None,
{
}

/// One number follows another by one, and the least follows the greatest; what
/// is no job takes none.
pub proof fn law_numbers_follow(next: i32, request: ReceivedData)
    ensures
        request is Job && next < i32::MAX ==> next_number(next, request) == next + 1,
        request is Job && next == i32::MAX ==> next_number(next, request) == i32::MIN,
        request is Answer ==> next_number(next, request) == next,
{
}

/// A job that is to be kept is rejected if and only if its document could be
/// written, and it claims to be PWG-Raster and can't be decoded, or a picture of
/// it couldn't be written.
pub proof fn law_pending_jobs_are_rejected(
    pending: PendingJob,
    kept: Result<Option<String>, String>,
)
    ensures
        pending.is_rejected(kept) <==> kept is Ok && pending.plan.preview is Some && (
        pending.plan.preview->0 is Err || kept->Ok_0 is Some),
{
}

/// A value reads as its own text and number: a list of one as that one, any
/// other list as all that is in it, in order.
pub proof fn law_contents_read_as_they_are(content: ContentData, i: int)
    ensures
        match content {
            ContentData::Text(text) => content.reads_as() is Single
                && content.reads_as()->Single_0.text == text,
            ContentData::Keywords(list) => list.len() > 0 ==> listed_values(
                Some(content.reads_as()),
            ).len() == list.len() && (0 <= i < list.len() ==> listed_values(
                Some(content.reads_as()),
            )[i].text == list[i]),
            ContentData::Mimes(list) => list.len() > 0 ==> listed_values(
                Some(content.reads_as()),
            ).len() == list.len() && (0 <= i < list.len() ==> listed_values(
                Some(content.reads_as()),
            )[i].text == list[i]),
            ContentData::Enum(number) => content.reads_as() is Single
                && content.reads_as()->Single_0.kind == Kind::Enum(number)
                && content.reads_as()->Single_0.text == signed_decimal(number as int),
            ContentData::Integer(number) => content.reads_as() is Single
                && content.reads_as()->Single_0.kind == Kind::Integer(number)
                && content.reads_as()->Single_0.text == signed_decimal(number as int),
            ContentData::Boolean(value) => content.reads_as() is Single
                && content.reads_as()->Single_0.text == (if value {
                "true"@
            } else {
                "false"@
            }),
            ContentData::Resolution { cross_feed, feed, units } => content.reads_as() is Single
                && content.reads_as()->Single_0.kind == Kind::Resolution(cross_feed)
                && content.reads_as()->Single_0.text == signed_decimal(cross_feed as int) + "x"@
                + signed_decimal(feed as int) + (if units == 3 {
                "in"@
            } else {
                "cm"@
            }),
        },
{
}

/// A response and a received job are seen with all that they hold.
pub proof fn law_responses_are_seen_whole(response: Response, job: ReceivedJob, i: int)
    ensures
        response@.status == response.status,
        response@.request_id == response.request_id,
        response@.tag == response.tag,
        response@.entries.len() == response.entries@.len(),
        0 <= i < response.entries@.len() ==> response@.entries[i].name
            == response.entries@[i].name@ && response@.entries[i].content
            == response.entries@[i].content@,
        job@.request_id == job.request_id,
        job@.document_format == job.document_format@,
        job@.job_name == text_of(job.job_name),
        job@.document == job.document@,
{
}

/// A response reads as a message with its own code, number and attributes.
pub proof fn law_responses_read_as_they_are(response: ResponseData, i: int)
    ensures
        response.reads_as().code == response.status,
        response.reads_as().request_id == response.request_id,
        response.reads_as().document.len() == 0,
        response.entries.len() > 0 ==> response.reads_as().groups.len() == 2
            && response.reads_as().groups[1].tag == response.tag
            && response.reads_as().groups[1].attributes.len() == response.entries.len(),
        response.entries.len() == 0 ==> response.reads_as().groups.len() == 1,
        response.reads_as().groups[0].tag == 1,
        0 <= i < response.entries.len() ==> response.reads_as().groups[1].attributes[i].name
            == response.entries[i].name && response.reads_as().groups[1].attributes[i].value
            == response.entries[i].content.reads_as(),
{
}

/// A request comes to what the message in it comes to, however long it is.
pub proof fn law_requests_are_read(body: Seq<u8>)
    ensures
        message_of(body) matches Ok(message) ==> received(body) == handled(message),
        message_of(body) is Err ==> received(body) is Answer && received(body)->Answer_0.status
            == 0x400 && received(body)->Answer_0.request_id == 0,
{
}

} // verus!
