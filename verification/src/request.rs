//! The requests that printers are sent, written by the `ipp` crate.

use http::uri::InvalidUri;
use http::Uri;
use ipp::operation::builder::IppOperationBuilder;
use ipp::operation::IppOperation;
use ipp::payload::IppPayload;
use vstd::prelude::*;
use vstd::utf8::encode_utf8;

use crate::message::{
    is_readable, law_lookups_find_the_first, lookup, parsed, AttributeView, GroupView, ItemView,
    Kind, MessageView, ValueView, OPERATION_ATTRIBUTES,
};
use crate::text::{separated, str_texts};
use crate::uri::parsed_uri;

verus! {

/// The operation number of Print-Job.
pub const PRINT_JOB: i16 = 2;

/// The operation number of Get-Printer-Attributes.
pub const GET_PRINTER_ATTRIBUTES: i16 = 11;

/// An item told by its text alone.
pub open spec fn text_item(text: Seq<char>) -> ItemView {
    ItemView { text, kind: Kind::Other }
}

/// An attribute with a single value, told by its text alone.
pub open spec fn text_attribute(name: Seq<char>, text: Seq<char>) -> AttributeView {
    AttributeView { name, value: ValueView::Single(text_item(text)) }
}

/// What every request to a printer starts with.
pub open spec fn common_attributes(uri: Seq<char>) -> Seq<AttributeView> {
    seq![
        text_attribute("attributes-charset"@, "utf-8"@),
        text_attribute("attributes-natural-language"@, "en"@),
        text_attribute("printer-uri"@, uri),
    ]
}

/// A Print-Job request.
pub open spec fn print_job(
    uri: Seq<char>,
    user: Seq<char>,
    title: Seq<char>,
    format: Seq<char>,
    document: Seq<u8>,
) -> MessageView {
    MessageView {
        code: PRINT_JOB,
        request_id: 1,
        groups: seq![
            GroupView {
                tag: OPERATION_ATTRIBUTES,
                attributes: common_attributes(uri) + seq![
                    text_attribute("requesting-user-name"@, user),
                    text_attribute("document-format"@, format),
                    text_attribute("job-name"@, title),
                ],
            },
        ],
        document,
    }
}

/// A Get-Printer-Attributes request for the attributes with the given names,
/// of which there is more than one.
pub open spec fn get_attributes(uri: Seq<char>, names: Seq<Seq<char>>) -> MessageView {
    MessageView {
        code: GET_PRINTER_ATTRIBUTES,
        request_id: 1,
        groups: seq![
            GroupView {
                tag: OPERATION_ATTRIBUTES,
                attributes: common_attributes(uri).push(
                    AttributeView {
                        name: "requested-attributes"@,
                        value: ValueView::Array {
                            text: seq!['['] + separated(names, ", "@) + seq![']'],
                            items: names.map_values(|name: Seq<char>| text_item(name)),
                        },
                    },
                ),
            },
        ],
        document: Seq::empty(),
    }
}

/// Whether a text's bytes are no more than `limit`.
pub open spec fn fits(text: Seq<char>, limit: int) -> bool {
    encode_utf8(text).len() <= limit
}

/// Whether `uri` is a URI short enough to stand in a request.
pub open spec fn is_addressable(uri: Seq<char>) -> bool {
    parsed_uri(uri) matches Ok(uri) && fits(uri.text, 1023)
}

/// The bytes before the document of a Print-Job request, or why there are
/// none.
pub uninterp spec fn print_job_bytes(
    uri: Seq<char>,
    user: Seq<char>,
    title: Seq<char>,
    format: Seq<char>,
) -> Result<Seq<u8>, Seq<char>>;

/// The bytes of a Get-Printer-Attributes request, or why there are none.
pub uninterp spec fn get_attributes_bytes(
    uri: Seq<char>,
    names: Seq<Seq<char>>,
) -> Result<Seq<u8>, Seq<char>>;

/// Whether `bytes` with any document behind them are read as a Print-Job
/// request.
pub open spec fn reads_as_print_job(
    bytes: Seq<u8>,
    uri: Seq<char>,
    user: Seq<char>,
    title: Seq<char>,
    format: Seq<char>,
) -> bool {
    forall|document: Seq<u8>|
        is_readable(bytes + document) && #[trigger] parsed(bytes + document) == Ok::<
            MessageView,
            Seq<char>,
        >(print_job(parsed_uri(uri)->Ok_0.text, user, title, format, document))
}

/// `Uri`'s `FromStr` and [`IppOperationBuilder::print_job`]: the bytes of a
/// Print-Job request up to the document, or the error's text. There are bytes
/// unless the URI can't be read or a text is too long for its attribute; with
/// any document behind them, they are read back as the request they were
/// built for.
#[verifier::external_body]
pub(crate) fn write_print_job(uri: &str, user: &str, title: &str, format: &str)
    -> (request: Result<Vec<u8>, String>)
    ensures
        match request {
            Ok(bytes) => print_job_bytes(uri@, user@, title@, format@) == Ok::<
                Seq<u8>,
                Seq<char>,
            >(bytes@),
            Err(error) => print_job_bytes(uri@, user@, title@, format@) == Err::<
                Seq<u8>,
                Seq<char>,
            >(error@),
        },
        request is Ok <==> (is_addressable(uri@) && fits(user@, 255) && fits(title@, 255) && fits(
            format@,
            255,
        )),
        request matches Ok(bytes) ==> reads_as_print_job(bytes@, uri@, user@, title@, format@),
{
    let uri: Uri = uri.parse().map_err(|error: InvalidUri| error.to_string())?;
    let builder = IppOperationBuilder::print_job(uri, IppPayload::empty());
    let operation = builder.user_name(user).job_title(title).document_format(format).build();
    let request = operation.map_err(|error| error.to_string())?.into_ipp_request();
    Ok(request.to_bytes().to_vec())
}

/// `Uri`'s `FromStr` and [`IppOperationBuilder::get_printer_attributes`]: the
/// bytes of a Get-Printer-Attributes request, or the error's text. There are
/// bytes unless the URI can't be read or a text is too long for its attribute;
/// they are read back as the request they were built for.
#[verifier::external_body]
pub(crate) fn write_get_attributes(uri: &str, names: &Vec<&str>)
    -> (request: Result<Vec<u8>, String>)
    requires
        names@.len() >= 2,
    ensures
        match request {
            Ok(bytes) => get_attributes_bytes(uri@, str_texts(names@)) == Ok::<
                Seq<u8>,
                Seq<char>,
            >(bytes@),
            Err(error) => get_attributes_bytes(uri@, str_texts(names@)) == Err::<
                Seq<u8>,
                Seq<char>,
            >(error@),
        },
        request is Ok <==> (is_addressable(uri@) && forall|i: int|
            0 <= i < names@.len() ==> fits(#[trigger] names@[i]@, 255)),
        request matches Ok(bytes) ==> (is_readable(bytes@) && parsed(bytes@) == Ok::<
            MessageView,
            Seq<char>,
        >(get_attributes(parsed_uri(uri@)->Ok_0.text, str_texts(names@)))),
{
    let uri: Uri = uri.parse().map_err(|error: InvalidUri| error.to_string())?;
    let builder = IppOperationBuilder::get_printer_attributes(uri).attributes(names);
    let request = builder.build().map_err(|error| error.to_string())?.into_ipp_request();
    Ok(request.to_bytes().to_vec())
}

/// Whether a message's first operation attribute with a name is a single value
/// with a text.
pub open spec fn says(message: MessageView, name: Seq<char>, text: Seq<char>) -> bool {
    lookup(message.groups, 1, name) == Some(
        ValueView::Single(ItemView { text, kind: Kind::Other }),
    )
}

/// A Print-Job request has the operation number 2, holds the document, and says
/// which printer it is for, who sends it, the document's format and the title.
pub proof fn law_print_jobs_say_what_they_send(
    uri: Seq<char>,
    user: Seq<char>,
    title: Seq<char>,
    format: Seq<char>,
    document: Seq<u8>,
)
    ensures
        ({
            let message = print_job(uri, user, title, format, document);
            &&& message.code == 2
            &&& message.document == document
            &&& says(message, "printer-uri"@, uri)
            &&& says(message, "requesting-user-name"@, user)
            &&& says(message, "document-format"@, format)
            &&& says(message, "job-name"@, title)
            &&& says(message, "attributes-charset"@, "utf-8"@)
        }),
{
    let message = print_job(uri, user, title, format, document);
    reveal_strlit("attributes-charset");
    reveal_strlit("attributes-natural-language");
    reveal_strlit("printer-uri");
    reveal_strlit("requesting-user-name");
    reveal_strlit("document-format");
    reveal_strlit("job-name");
    let all = message.groups[0].attributes;
    assert(all[0].name.len() == 18 && all[1].name.len() == 27 && all[2].name.len() == 11
        && all[3].name.len() == 20 && all[4].name.len() == 15 && all[5].name.len() == 8);
    law_lookups_find_the_first(message.groups, 1, "attributes-charset"@, 0, 0);
    law_lookups_find_the_first(message.groups, 1, "printer-uri"@, 0, 2);
    law_lookups_find_the_first(message.groups, 1, "requesting-user-name"@, 0, 3);
    law_lookups_find_the_first(message.groups, 1, "document-format"@, 0, 4);
    law_lookups_find_the_first(message.groups, 1, "job-name"@, 0, 5);
}

/// A Get-Printer-Attributes request has the operation number 11, holds no
/// document, and says which printer it is for and which attributes it asks for.
pub proof fn law_queries_say_what_they_ask_for(uri: Seq<char>, names: Seq<Seq<char>>)
    ensures
        ({
            let message = get_attributes(uri, names);
            let asked = lookup(message.groups, 1, "requested-attributes"@);
            &&& message.code == 11
            &&& message.document.len() == 0
            &&& says(message, "printer-uri"@, uri)
            &&& asked is Some
            &&& asked->0 is Array
            &&& asked->0->items.len() == names.len()
            &&& forall|i: int|
                0 <= i < names.len() ==> (#[trigger] asked->0->items[i]).text == names[i]
        }),
{
    let message = get_attributes(uri, names);
    reveal_strlit("attributes-charset");
    reveal_strlit("attributes-natural-language");
    reveal_strlit("printer-uri");
    reveal_strlit("requested-attributes");
    let all = message.groups[0].attributes;
    assert(all[0].name.len() == 18 && all[1].name.len() == 27 && all[2].name.len() == 11
        && all[3].name.len() == 20);
    law_lookups_find_the_first(message.groups, 1, "printer-uri"@, 0, 2);
    law_lookups_find_the_first(message.groups, 1, "requested-attributes"@, 0, 3);
}

} // verus!
