//! IPP messages as plain values, and how the `ipp` crate reads and writes
//! them.

use std::io::{Cursor, Read};

use ipp::attribute::IppAttributes;
use ipp::parser::IppParser;
use ipp::value::IppValue::{self, Array, Enum, Integer, Resolution};
use vstd::prelude::*;

use crate::text::same;

verus! {

/// The tag of a message's operation attributes.
pub const OPERATION_ATTRIBUTES: u8 = 1;

/// The tag of a message's job attributes.
pub const JOB_ATTRIBUTES: u8 = 2;

/// The tag that ends a message's attributes.
pub const END_OF_ATTRIBUTES: u8 = 3;

/// The tag of a message's printer attributes.
pub const PRINTER_ATTRIBUTES: u8 = 4;

/// What a single value is, as far as anything here depends on it.
#[derive(Clone, Copy, Debug, PartialEq, Eq, Structural)]
pub enum Kind {
    /// An integer.
    Integer(i32),
    /// An enumeration's number.
    Enum(i32),
    /// A resolution, by its cross-feed dots.
    Resolution(i32),
    /// Anything else, told by its text alone.
    Other,
}

/// A single value.
pub struct Item {
    /// The value as text.
    pub text: String,
    /// What it is.
    pub kind: Kind,
}

/// What an [`Item`] holds.
#[verifier::ext_equal]
pub struct ItemView {
    pub text: Seq<char>,
    pub kind: Kind,
}

impl View for Item {
    type V = ItemView;

    open spec fn view(&self) -> ItemView {
        ItemView { text: self.text@, kind: self.kind }
    }
}

/// What each item holds.
pub open spec fn item_views(items: Seq<Item>) -> Seq<ItemView> {
    items.map_values(|item: Item| item@)
}

/// An attribute's value.
pub enum Value {
    /// One value.
    Single(Item),
    /// A list of values; its text is that of the whole list.
    Array { text: String, items: Vec<Item> },
}

/// What a [`Value`] holds.
#[verifier::ext_equal]
pub enum ValueView {
    Single(ItemView),
    Array { text: Seq<char>, items: Seq<ItemView> },
}

impl View for Value {
    type V = ValueView;

    open spec fn view(&self) -> ValueView {
        match *self {
            Value::Single(item) => ValueView::Single(item@),
            Value::Array { text, items } => ValueView::Array {
                text: text@,
                items: item_views(items@),
            },
        }
    }
}

/// A named value.
pub struct Attribute {
    pub name: String,
    pub value: Value,
}

/// What an [`Attribute`] holds.
#[verifier::ext_equal]
pub struct AttributeView {
    pub name: Seq<char>,
    pub value: ValueView,
}

impl View for Attribute {
    type V = AttributeView;

    open spec fn view(&self) -> AttributeView {
        AttributeView { name: self.name@, value: self.value@ }
    }
}

/// What each attribute holds.
pub open spec fn attribute_views(attributes: Seq<Attribute>) -> Seq<AttributeView> {
    attributes.map_values(|attribute: Attribute| attribute@)
}

/// Attributes under one delimiter tag.
pub struct Group {
    pub tag: u8,
    pub attributes: Vec<Attribute>,
}

/// What a [`Group`] holds.
#[verifier::ext_equal]
pub struct GroupView {
    pub tag: u8,
    pub attributes: Seq<AttributeView>,
}

impl View for Group {
    type V = GroupView;

    open spec fn view(&self) -> GroupView {
        GroupView { tag: self.tag, attributes: attribute_views(self.attributes@) }
    }
}

/// What each group holds.
pub open spec fn group_views(groups: Seq<Group>) -> Seq<GroupView> {
    groups.map_values(|group: Group| group@)
}

/// A message: a request's operation or a response's status, the request's
/// number, attributes and the document that follows them.
pub struct Message {
    pub code: i16,
    pub request_id: i32,
    pub groups: Vec<Group>,
    pub document: Vec<u8>,
}

/// What a [`Message`] holds.
#[verifier::ext_equal]
pub struct MessageView {
    pub code: i16,
    pub request_id: i32,
    pub groups: Seq<GroupView>,
    pub document: Seq<u8>,
}

impl View for Message {
    type V = MessageView;

    open spec fn view(&self) -> MessageView {
        MessageView {
            code: self.code,
            request_id: self.request_id,
            groups: group_views(self.groups@),
            document: self.document@,
        }
    }
}

/// Declares [`ipp::attribute::IppAttributes`], a message's attribute groups.
#[verifier::external_type_specification]
#[verifier::external_body]
pub struct ExIppAttributes(IppAttributes);

/// The groups that an attribute list holds, in order.
pub uninterp spec fn attribute_groups(attributes: IppAttributes) -> Seq<GroupView>;

/// [`IppAttributes::groups`] and the accessors of what it gives: the groups in
/// order with their tags, their attributes in order with their names, and
/// each value with its text as [`IppValue`]'s `Display` writes it.
#[verifier::external_body]
fn read_groups(attributes: &IppAttributes) -> (groups: Vec<Group>)
    ensures
        group_views(groups@) == attribute_groups(*attributes),
{
    let item = |value: &IppValue| Item { text: value.to_string(), kind: match value {
        Integer(n) => Kind::Integer(*n),
        Enum(n) => Kind::Enum(*n),
        Resolution { cross_feed, .. } => Kind::Resolution(*cross_feed),
        _ => Kind::Other
    } };
    attributes.groups().iter().map(|group| Group { tag: group.tag() as u8, attributes: group.into_iter().map(|a|
        Attribute { name: a.name().to_string(), value: match a.value() {
            Array(items) => Value::Array { text: a.value().to_string(), items: items.iter().map(item).collect() },
            single => Value::Single(item(single))
        } }
    ).collect() }).collect()
}

/// The big-endian number of two bytes at `at`.
pub open spec fn length_at(data: Seq<u8>, at: int) -> int {
    data[at] * 256 + data[at + 1]
}

/// Whether a length and as many bytes as it says stand at the start of `data`;
/// or not even a length.
pub open spec fn text_fits(data: Seq<u8>) -> bool {
    data.len() < 2 || 2 + length_at(data, 0) <= data.len()
}

/// Whether a value made of a language and a text, each behind its length, is
/// long enough for both; or too short for a length.
pub open spec fn language_fits(value: Seq<u8>) -> bool {
    &&& text_fits(value)
    &&& value.len() >= 2 ==> text_fits(value.skip(2 + length_at(value, 0)))
}

/// An offset in what stands `by` bytes further on, if there is one.
pub open spec fn shifted(found: Option<int>, by: int) -> Option<int> {
    match found {
        Some(at) => Some(at + by),
        None => None,
    }
}

/// Where the first value with a language that is too short for what it says
/// starts, among a message's attributes, which `data` starts with. Nothing is
/// asked of what stands behind an end of the attributes, a tag that is neither
/// a delimiter's nor a value's, or a value that is cut short.
pub open spec fn unfit_at(data: Seq<u8>) -> Option<int>
    decreases data.len(),
{
    if data.len() == 0 {
        None
    } else if data[0] == END_OF_ATTRIBUTES || data[0] == 0 || 0x0a < data[0] < 0x10 || data[0]
        > 0x4a {
        None
    } else if data[0] <= 0x0a {
        shifted(unfit_at(data.skip(1)), 1)
    } else if data.len() < 3 || data.len() < 5 + length_at(data, 1) {
        None
    } else {
        let start = 5 + length_at(data, 1);
        let end = start + length_at(data, start - 2);
        if data.len() < end {
            None
        } else if (data[0] == 0x35 || data[0] == 0x36) && !language_fits(
            data.subrange(start, end),
        ) {
            Some(start)
        } else {
            shifted(unfit_at(data.skip(end)), end)
        }
    }
}

/// Where the first value with a language that is too short for what it says
/// starts in a message, behind its header of eight bytes (see [`unfit_at`]).
pub open spec fn unreadable_at(message: Seq<u8>) -> Option<int> {
    if message.len() < 8 {
        None
    } else {
        shifted(unfit_at(message.skip(8)), 8)
    }
}

/// Whether a message's values with a language are long enough for what they
/// say.
pub open spec fn is_readable(message: Seq<u8>) -> bool {
    unreadable_at(message) is None
}

/// How much a value with a language starts with that is long enough for what
/// it says: its language, if that is all there.
pub open spec fn language_len(value: Seq<u8>) -> int {
    if value.len() >= 2 && text_fits(value) {
        2 + length_at(value, 0)
    } else {
        0
    }
}

/// What stands up to the value that starts at `at`, behind its length, and of
/// that value no more than its language, if that is all there.
pub open spec fn cut_short(data: Seq<u8>, at: int) -> Seq<u8> {
    let value = data.subrange(at, at + length_at(data, at - 2));
    let len = language_len(value);
    data.take(at - 2) + seq![(len / 256) as u8, (len % 256) as u8] + value.take(len)
}

/// What stands before is no part of how the rest is cut short.
proof fn lemma_cut_short_behind(data: Seq<u8>, at: int, by: int)
    requires
        0 <= by <= at - 2,
        at + length_at(data, at - 2) <= data.len(),
    ensures
        cut_short(data, at).skip(by) == cut_short(data.skip(by), at - by),
        cut_short(data, at).take(by) == data.take(by),
        cut_short(data, at).len() >= by,
{
    let rest = data.skip(by);
    let len = length_at(data, at - 2);
    assert(length_at(rest, at - by - 2) == len);
    assert(rest.subrange(at - by, at - by + len) =~= data.subrange(at, at + len));
    assert(cut_short(data, at).skip(by) =~= cut_short(rest, at - by));
    assert(cut_short(data, at).take(by) =~= data.take(by));
}

/// A value that is cut short to its language is long enough for what it says.
proof fn lemma_cut_value(data: Seq<u8>)
    requires
        0x10 <= data[0] <= 0x4a,
        data.len() >= 5 + length_at(data, 1),
        data.len() >= 5 + length_at(data, 1) + length_at(data, 3 + length_at(data, 1)),
    ensures
        unfit_at(cut_short(data, 5 + length_at(data, 1))) is None,
{
    let start = 5 + length_at(data, 1);
    let value = data.subrange(start, start + length_at(data, start - 2));
    let len = language_len(value);
    let head = cut_short(data, start);
    let kept = value.take(len);
    assert(head[0] == data[0] && head[1] == data[1] && head[2] == data[2]);
    assert(head[start - 2] == (len / 256) as u8 && head[start - 1] == (len % 256) as u8);
    assert(length_at(head, start - 2) == len);
    assert(head.len() == start + len);
    assert(head.subrange(start, start + len) =~= kept);
    if len > 0 {
        assert(length_at(kept, 0) == length_at(value, 0));
        assert(kept.skip(len).len() == 0);
    }
    assert(language_fits(kept));
    assert(head.skip(start + len).len() == 0);
    assert(unfit_at(head.skip(start + len)) is None);
}

/// Cut short at the first value that is too short, no value is.
proof fn lemma_cut_short(data: Seq<u8>)
    ensures
        unfit_at(data) matches Some(at) ==> {
            &&& 5 <= at
            &&& at + length_at(data, at - 2) <= data.len()
            &&& unfit_at(cut_short(data, at)) is None
        },
    decreases data.len(),
{
    if let Some(at) = unfit_at(data) {
        if data[0] <= 0x0a {
            let rest = data.skip(1);
            lemma_cut_short(rest);
            assert(length_at(rest, at - 3) == length_at(data, at - 2));
            lemma_cut_short_behind(data, at, 1);
            let head = cut_short(data, at);
            assert(head[0] == head.take(1)[0] == data.take(1)[0]);
        } else {
            let start = 5 + length_at(data, 1);
            let end = start + length_at(data, start - 2);
            if (data[0] == 0x35 || data[0] == 0x36) && !language_fits(data.subrange(start, end)) {
                lemma_cut_value(data);
            } else {
                let rest = data.skip(end);
                lemma_cut_short(rest);
                assert(length_at(rest, at - end - 2) == length_at(data, at - 2));
                lemma_cut_short_behind(data, at, end);
                lemma_same_start(data, cut_short(data, at));
            }
        }
    }
}

/// Messages that start with the same value are read on behind it.
proof fn lemma_same_start(data: Seq<u8>, head: Seq<u8>)
    requires
        0x10 <= data[0] <= 0x4a,
        ({
            let start = 5 + length_at(data, 1);
            let end = start + length_at(data, start - 2);
            &&& start <= data.len()
            &&& end <= data.len()
            &&& end <= head.len()
            &&& head.take(end) == data.take(end)
            &&& unfit_at(head.skip(end)) is None
            &&& (data[0] == 0x35 || data[0] == 0x36) ==> language_fits(data.subrange(start, end))
        }),
    ensures
        unfit_at(head) is None,
{
    let start = 5 + length_at(data, 1);
    let end = start + length_at(data, start - 2);
    assert forall|i: int| 0 <= i < end implies #[trigger] head[i] == data[i] by {
        assert(head.take(end)[i] == data.take(end)[i]);
    }
    assert(head.subrange(start, end) =~= data.subrange(start, end));
}

/// Cut short at the first value that is too short, a message can be read.
proof fn lemma_cut_short_is_readable(message: Seq<u8>)
    ensures
        unreadable_at(message) matches Some(at) ==> {
            &&& 13 <= at
            &&& at + length_at(message, at - 2) <= message.len()
            &&& is_readable(cut_short(message, at))
        },
{
    if let Some(at) = unreadable_at(message) {
        let rest = message.skip(8);
        lemma_cut_short(rest);
        assert(length_at(rest, at - 10) == length_at(message, at - 2));
        lemma_cut_short_behind(message, at, 8);
    }
}

/// What the `ipp` crate reads a message as, or why it can't.
pub uninterp spec fn parsed(message: Seq<u8>) -> Result<MessageView, Seq<char>>;

/// [`IppParser::parse_parts`] on the message's bytes: its header, attributes
/// and document, or the error's text. The parser panics on a value with a
/// language that is shorter than its own lengths say; such messages are left
/// out.
#[verifier::external_body]
fn parse(message: Vec<u8>) -> (read: Result<(i16, i32, IppAttributes, Vec<u8>), String>)
    requires
        is_readable(message@),
    ensures
        match read {
            Ok((code, request_id, attributes, document)) => parsed(message@) == Ok::<
                MessageView,
                Seq<char>,
            >(
                (MessageView {
                    code,
                    request_id,
                    groups: attribute_groups(attributes),
                    document: document@,
                }),
            ),
            Err(error) => parsed(message@) == Err::<MessageView, Seq<char>>(error@),
        },
{
    let parts = IppParser::new(Cursor::new(message)).parse_parts();
    let (header, attributes, reader) = parts.map_err(|error| error.to_string())?;
    let mut document = Vec::new();
    reader.into_inner().read_to_end(&mut document).map_err(|error| error.to_string())?;
    Ok((header.operation_or_status, header.request_id, attributes, document))
}

/// The big-endian number of two bytes at `at`.
fn read_length(data: &[u8], at: usize) -> (length: usize)
    requires
        at + 2 <= data.len(),
    ensures
        length == length_at(data@, at as int),
{
    data[at] as usize * 256 + data[at + 1] as usize
}

/// Whether a value made of a language and a text is long enough for both (see
/// [`language_fits`]).
fn check_language(value: &[u8]) -> (fits: bool)
    ensures
        fits == language_fits(value@),
{
    if value.len() < 2 {
        return true;
    }
    let start: usize = 2 + read_length(value, 0);
    if start > value.len() {
        return false;
    }
    let ghost rest = value@.skip(start as int);
    if value.len() - start < 2 {
        return true;
    }
    let len: usize = read_length(value, start);
    assert(length_at(rest, 0) == len);
    len <= value.len() - start - 2
}

/// How much of a value with a language to keep (see [`language_len`]).
fn find_language(value: &[u8]) -> (len: usize)
    ensures
        len == language_len(value@),
        len <= value@.len(),
{
    if value.len() < 2 {
        return 0;
    }
    let len: usize = 2 + read_length(value, 0);
    if len <= value.len() {
        len
    } else {
        0
    }
}

/// Where the first value that is too short for what it says starts (see
/// [`unreadable_at`]).
fn find_unreadable(message: &[u8]) -> (found: Option<usize>)
    ensures
        match found {
            Some(at) => unreadable_at(message@) == Some(at as int),
            None => is_readable(message@),
        },
{
    if message.len() < 8 {
        return None;
    }
    let mut at: usize = 8;
    while at < message.len()
        invariant
            8 <= at <= message.len(),
            shifted(unfit_at(message@.skip(at as int)), at as int) == unreadable_at(message@),
        decreases message.len() - at,
    {
        let ghost data = message@.skip(at as int);
        let left: usize = message.len() - at;
        let tag: u8 = message[at];
        assert(data[0] == tag);
        if tag == END_OF_ATTRIBUTES || tag == 0 || (0x0a < tag && tag < 0x10) || tag > 0x4a {
            return None;
        }
        if tag <= 0x0a {
            assert(data.skip(1) =~= message@.skip(at + 1));
            at = at + 1;
        } else {
            if left < 3 {
                return None;
            }
            let name_len: usize = read_length(message, at + 1);
            assert(length_at(data, 1) == name_len);
            if left < 5 + name_len {
                return None;
            }
            let start: usize = 5 + name_len;
            let end: usize = start + read_length(message, at + start - 2);
            assert(end == start + length_at(data, start - 2));
            if left < end {
                return None;
            }
            assert(data.subrange(start as int, end as int) =~= message@.subrange(
                at + start,
                at + end,
            ));
            assert(data.skip(end as int) =~= message@.skip(at + end));
            if (tag == 0x35 || tag == 0x36) && !check_language(&message[at + start..at + end]) {
                return Some(at + start);
            }
            at = at + end;
        }
    }
    assert(message@.skip(at as int).len() == 0);
    None
}

/// What a message is read as: what the `ipp` crate makes of it. Where a value
/// with a language is shorter than it says, the message can't be read: it is
/// what the crate says of all that stands before that value, and of the value's
/// language if that is all there (see [`cut_short`]).
pub open spec fn message_of(message: Seq<u8>) -> Result<MessageView, Seq<char>> {
    match unreadable_at(message) {
        None => parsed(message),
        Some(at) => match parsed(cut_short(message, at)) {
            Err(error) => Err(error),
            Ok(read) => Err("Invalid value length"@),
        },
    }
}

/// The first group with a tag.
pub open spec fn first_of(groups: Seq<GroupView>, tag: u8) -> Option<GroupView>
    decreases groups.len(),
{
    if groups.len() == 0 {
        None
    } else if groups.first().tag == tag {
        Some(groups.first())
    } else {
        first_of(groups.drop_first(), tag)
    }
}

/// The value of the first attribute with a name.
pub open spec fn named(attributes: Seq<AttributeView>, name: Seq<char>) -> Option<ValueView>
    decreases attributes.len(),
{
    if attributes.len() == 0 {
        None
    } else if attributes.first().name == name {
        Some(attributes.first().value)
    } else {
        named(attributes.drop_first(), name)
    }
}

/// The value of the first attribute with a name in the first group with a tag.
pub open spec fn lookup(groups: Seq<GroupView>, tag: u8, name: Seq<char>) -> Option<ValueView> {
    match first_of(groups, tag) {
        Some(group) => named(group.attributes, name),
        None => None,
    }
}

impl Group {
    /// The value of the first attribute with a name.
    pub fn get(&self, name: &str) -> (value: Option<&Value>)
        ensures
            match value {
                Some(value) => named(self@.attributes, name@) == Some(value@),
                None => named(self@.attributes, name@) is None,
            },
    {
        let ghost all = self@.attributes;
        let mut i: usize = 0;
        assert(all.skip(0) =~= all);
        while i < self.attributes.len()
            invariant
                i <= self.attributes@.len(),
                all == self@.attributes,
                named(all.skip(i as int), name@) == named(all, name@),
            decreases self.attributes.len() - i,
        {
            let attribute = &self.attributes[i];
            assert(all.skip(i as int).first() == attribute@);
            if same(attribute.name.as_str(), name) {
                return Some(&attribute.value);
            }
            assert(all.skip(i as int).drop_first() =~= all.skip(i + 1));
            i = i + 1;
        }
        None
    }
}

impl Message {
    /// The message whose attributes are held by the `ipp` crate's own list.
    pub fn new(code: i16, request_id: i32, attributes: &IppAttributes, document: Vec<u8>)
        -> (message: Message)
        ensures
            message@ == (MessageView {
                code,
                request_id,
                groups: attribute_groups(*attributes),
                document: document@,
            }),
    {
        Message { code, request_id, groups: read_groups(attributes), document }
    }

    /// The message in `bytes` (see [`message_of`]), or why it can't be read.
    pub fn read(bytes: Vec<u8>) -> (message: Result<Message, String>)
        ensures
            match message {
                Ok(message) => message_of(bytes@) == Ok::<MessageView, Seq<char>>(message@),
                Err(error) => message_of(bytes@) == Err::<MessageView, Seq<char>>(error@),
            },
    {
        if let Some(at) = find_unreadable(bytes.as_slice()) {
            let ghost whole = bytes@;
            proof {
                lemma_cut_short_is_readable(whole);
            }
            let value_len: usize = read_length(bytes.as_slice(), at - 2);
            assert(at + value_len <= whole.len() == bytes.len());
            let end: usize = at + value_len;
            let len: usize = find_language(&bytes[at..end]);
            assert(len <= length_at(whole, at - 2) <= 0xffff);
            let mut head = bytes;
            head.truncate(at + len);
            head.set(at - 2, (len / 256) as u8);
            head.set(at - 1, (len % 256) as u8);
            assert(head@ =~= cut_short(whole, at as int));
            return match parse(head) {
                Ok(_) => Err("Invalid value length".to_owned()),
                Err(error) => Err(error),
            };
        }
        match parse(bytes) {
            Ok((code, request_id, attributes, document)) => Ok(
                Message::new(code, request_id, &attributes, document),
            ),
            Err(error) => Err(error),
        }
    }

    /// The first group with a tag.
    pub fn first_of(&self, tag: u8) -> (group: Option<&Group>)
        ensures
            match group {
                Some(group) => first_of(self@.groups, tag) == Some(group@),
                None => first_of(self@.groups, tag) is None,
            },
    {
        let ghost all = self@.groups;
        let mut i: usize = 0;
        assert(all.skip(0) =~= all);
        while i < self.groups.len()
            invariant
                i <= self.groups@.len(),
                all == self@.groups,
                first_of(all.skip(i as int), tag) == first_of(all, tag),
            decreases self.groups.len() - i,
        {
            let group = &self.groups[i];
            assert(all.skip(i as int).first() == group@);
            if group.tag == tag {
                return Some(group);
            }
            assert(all.skip(i as int).drop_first() =~= all.skip(i + 1));
            i = i + 1;
        }
        None
    }

    /// The value of the first attribute with a name in the first group with a
    /// tag.
    pub fn attribute(&self, tag: u8, name: &str) -> (value: Option<&Value>)
        ensures
            match value {
                Some(value) => lookup(self@.groups, tag, name@) == Some(value@),
                None => lookup(self@.groups, tag, name@) is None,
            },
    {
        match self.first_of(tag) {
            Some(group) => group.get(name),
            None => None,
        }
    }
}

/// A value is looked up in the first group with the tag, under the first
/// attribute there with the name; where there is no such group, or no such
/// attribute in that group, there is none.
pub proof fn law_lookups_find_the_first(
    groups: Seq<GroupView>,
    tag: u8,
    name: Seq<char>,
    g: int,
    a: int,
)
    requires
        0 <= g <= groups.len(),
        forall|k: int| 0 <= k < g ==> (#[trigger] groups[k]).tag != tag,
        g < groups.len() ==> groups[g].tag == tag && 0 <= a <= groups[g].attributes.len() && (
        forall|k: int| 0 <= k < a ==> (#[trigger] groups[g].attributes[k]).name != name) && (a
            < groups[g].attributes.len() ==> groups[g].attributes[a].name == name),
    ensures
        g == groups.len() ==> lookup(groups, tag, name) is None,
        g < groups.len() && a == groups[g].attributes.len() ==> lookup(groups, tag, name) is None,
        g < groups.len() && a < groups[g].attributes.len() ==> lookup(groups, tag, name) == Some(
            groups[g].attributes[a].value,
        ),
{
    lemma_first_of(groups, tag, g);
    if g < groups.len() {
        lemma_named(groups[g].attributes, name, a);
    }
}

proof fn lemma_first_of(groups: Seq<GroupView>, tag: u8, g: int)
    requires
        0 <= g <= groups.len(),
        forall|k: int| 0 <= k < g ==> (#[trigger] groups[k]).tag != tag,
        g < groups.len() ==> groups[g].tag == tag,
    ensures
        g == groups.len() ==> first_of(groups, tag) is None,
        g < groups.len() ==> first_of(groups, tag) == Some(groups[g]),
    decreases groups.len(),
{
    if g > 0 {
        let rest = groups.drop_first();
        assert(groups[0].tag != tag);
        assert forall|k: int| 0 <= k < g - 1 implies (#[trigger] rest[k]).tag != tag by {
            assert(groups[k + 1].tag != tag);
        }
        lemma_first_of(rest, tag, g - 1);
    }
}

proof fn lemma_named(attributes: Seq<AttributeView>, name: Seq<char>, a: int)
    requires
        0 <= a <= attributes.len(),
        forall|k: int| 0 <= k < a ==> (#[trigger] attributes[k]).name != name,
        a < attributes.len() ==> attributes[a].name == name,
    ensures
        a == attributes.len() ==> named(attributes, name) is None,
        a < attributes.len() ==> named(attributes, name) == Some(attributes[a].value),
    decreases attributes.len(),
{
    if a > 0 {
        let rest = attributes.drop_first();
        assert(attributes[0].name != name);
        assert forall|k: int| 0 <= k < a - 1 implies (#[trigger] rest[k]).name != name by {
            assert(attributes[k + 1].name != name);
        }
        lemma_named(rest, name, a - 1);
    }
}

/// A message is seen with all that it holds: every group with every attribute,
/// in order.
pub proof fn law_messages_are_seen_whole(message: Message, g: int, a: int)
    ensures
        message@.code == message.code,
        message@.request_id == message.request_id,
        message@.document == message.document@,
        message@.groups.len() == message.groups@.len(),
        0 <= g < message.groups@.len() ==> {
            let (seen, group) = (message@.groups[g], message.groups@[g]);
            &&& seen.tag == group.tag
            &&& seen.attributes.len() == group.attributes@.len()
            &&& 0 <= a < group.attributes@.len() ==> {
                &&& seen.attributes[a].name == group.attributes@[a].name@
                &&& seen.attributes[a].value == group.attributes@[a].value@
            }
        },
{
}

/// A value is seen as the single value or the list that it is, with all of it.
pub proof fn law_values_are_seen_whole(value: Value, i: int)
    ensures
        match value {
            Value::Single(item) => {
                &&& value@ is Single
                &&& value@->Single_0.text == item.text@
                &&& value@->Single_0.kind == item.kind
            },
            Value::Array { text, items } => {
                &&& value@ is Array
                &&& value@->text == text@
                &&& value@->items.len() == items@.len()
                &&& 0 <= i < items@.len() ==> value@->items[i].text == items@[i].text@
                    && value@->items[i].kind == items@[i].kind
            },
        },
{
}

/// A message without values that have a language is what the `ipp` crate reads
/// it as.
pub proof fn law_messages_without_languages_are_readable(message: Seq<u8>)
    requires
        forall|i: int|
            0 <= i < message.len() ==> #[trigger] message[i] != 0x35 && message[i] != 0x36,
    ensures
        is_readable(message),
        message_of(message) == parsed(message),
{
    if message.len() >= 8 {
        let data = message.skip(8);
        assert forall|i: int| 0 <= i < data.len() implies #[trigger] data[i] != 0x35 && data[i]
            != 0x36 by {
            assert(message[i + 8] != 0x35);
        }
        lemma_no_languages(data);
    }
}

proof fn lemma_no_languages(data: Seq<u8>)
    requires
        forall|i: int| 0 <= i < data.len() ==> #[trigger] data[i] != 0x35 && data[i] != 0x36,
    ensures
        unfit_at(data) is None,
    decreases data.len(),
{
    if data.len() > 0 {
        assert(data[0] != 0x35 && data[0] != 0x36);
        if 1 <= data[0] <= 0x0a {
            lemma_no_languages(data.skip(1));
        } else if data.len() >= 3 && data.len() >= 5 + length_at(data, 1) {
            let end = 5 + length_at(data, 1) + length_at(data, 3 + length_at(data, 1));
            if end <= data.len() {
                lemma_no_languages(data.skip(end));
            }
        }
    }
}

/// A message that can be read is what the `ipp` crate reads it as; one that
/// can't is an error, never a message.
pub proof fn law_unreadable_messages_are_errors(message: Seq<u8>)
    ensures
        is_readable(message) ==> message_of(message) == parsed(message),
        !is_readable(message) ==> message_of(message) is Err,
{
}

/// A value with a language that is too short for its language, or for the text
/// behind it, is found where it starts; any other is passed by, whatever tag it
/// has, to what stands behind it.
pub proof fn law_short_values_are_found(tag: u8, name: Seq<u8>, value: Seq<u8>, more: Seq<u8>)
    requires
        0x10 <= tag <= 0x4a,
        name.len() <= 0xffff,
        value.len() <= 0xffff,
    ensures
        ({
            let size = |bytes: Seq<u8>|
                seq![(bytes.len() / 256) as u8, (bytes.len() % 256) as u8];
            let data = seq![tag] + size(name) + name + size(value) + value + more;
            let language = value[0] * 256 + value[1];
            let text = value[2 + language] * 256 + value[3 + language];
            let short = value.len() >= 2 && (value.len() < 2 + language || (value.len() >= 4
                + language && value.len() < 4 + language + text));
            let start = 5 + name.len();
            unfit_at(data) == if (tag == 0x35 || tag == 0x36) && short {
                Some(start as int)
            } else {
                match unfit_at(more) {
                    Some(at) => Some(start + value.len() + at),
                    None => None,
                }
            }
        }),
{
    let size = |bytes: Seq<u8>| seq![(bytes.len() / 256) as u8, (bytes.len() % 256) as u8];
    let data = seq![tag] + size(name) + name + size(value) + value + more;
    let start = 5 + name.len() as int;
    let end = start + value.len();
    assert(data[0] == tag);
    assert(data[1] == name.len() / 256 && data[2] == name.len() % 256);
    assert(length_at(data, 1) == name.len());
    assert(data[start - 2] == value.len() / 256 && data[start - 1] == value.len() % 256);
    assert(length_at(data, start - 2) == value.len());
    assert(data.subrange(start, end) =~= value);
    assert(data.skip(end) =~= more);
    if value.len() >= 2 && text_fits(value) {
        let rest = value.skip(2 + length_at(value, 0));
        if rest.len() >= 2 {
            assert(rest[0] == value[2 + length_at(value, 0)] && rest[1] == value[3 + length_at(
                value,
                0,
            )]);
        }
    }
}

} // verus!
