//! The rules of the web server: which printers it is told about, how it lists
//! them, and what it answers to an upload.

use bytes::Bytes;
use vstd::prelude::*;

use crate::buffer::frozen_bytes;
use crate::discovery::{copy_labels, copy_text, Printer, PrinterData, Registry};
use crate::pipeline::{JobView, PrintJob, Stage, Step, StepView};
use crate::printing::{PrintError, PrintErrorView};
use crate::text::{
    at_most, is_at_most, is_white_space, law_parts, lemma_at_most_total, lemma_at_most_transitive,
    lemma_parts_have_no_separator, lemma_trimmed, parts, same, split, str_texts, texts, trim,
    trimmed,
};
use crate::uri::text_of;

verus! {

/// The printer URIs in a comma-separated list: the parts between the commas
/// without white space around them, but for the empty ones.
pub open spec fn listed_uris(list: Seq<char>) -> Seq<Seq<char>> {
    parts(list, ',').map_values(|part: Seq<char>| trimmed(part)).filter(
        |uri: Seq<char>| uri.len() > 0,
    )
}

/// Printer URIs from a comma-separated list such as `INKDROP_PRINTERS` (see
/// [`listed_uris`]).
pub fn configured_printers(list: &str) -> (uris: Vec<String>)
    ensures
        texts(uris@) == listed_uris(list@),
{
    let found = split(list, ',');
    let ghost all = parts(list@, ',').map_values(|part: Seq<char>| trimmed(part));
    let ghost kept = |uri: Seq<char>| uri.len() > 0;
    let mut uris: Vec<String> = Vec::new();
    let mut i: usize = 0;
    reveal(Seq::filter);
    assert(all.subrange(0, 0) =~= Seq::empty());
    while i < found.len()
        invariant
            i <= found.len(),
            texts(found@) == parts(list@, ','),
            all == parts(list@, ',').map_values(|part: Seq<char>| trimmed(part)),
            kept == (|uri: Seq<char>| uri.len() > 0),
            texts(uris@) == all.subrange(0, i as int).filter(kept),
        decreases found.len() - i,
    {
        let uri = trim(found[i].as_str());
        let ghost before = texts(uris@);
        proof {
            reveal(Seq::filter);
            assert(all.subrange(0, i + 1).drop_last() =~= all.subrange(0, i as int));
            assert(texts(found@)[i as int] == found@[i as int]@);
        }
        if !uri.as_str().is_empty() {
            uris.push(uri);
            assert(texts(uris@) =~= before.push(uri@));
        }
        i = i + 1;
    }
    assert(all.subrange(0, i as int) =~= all);
    uris
}

/// What filtering keeps comes from what was filtered.
proof fn lemma_filter_keeps(texts: Seq<Seq<char>>, kept: spec_fn(Seq<char>) -> bool, i: int)
    requires
        0 <= i < texts.filter(kept).len(),
    ensures
        kept(texts.filter(kept)[i]),
        texts.contains(texts.filter(kept)[i]),
    decreases texts.len(),
{
    reveal(Seq::filter);
    let found = texts.filter(kept);
    let before = texts.drop_last();
    if i < before.filter(kept).len() {
        lemma_filter_keeps(before, kept, i);
        assert(found[i] == before.filter(kept)[i]);
        let k = choose|k: int| 0 <= k < before.len() && before[k] == found[i];
        assert(texts[k] == found[i]);
    } else {
        assert(texts[texts.len() - 1] == found[i]);
    }
}

/// The URIs in a list are not empty, hold no comma, and neither start nor end
/// with white space.
pub proof fn law_listed_uris_are_bare(list: Seq<char>, i: int)
    requires
        0 <= i < listed_uris(list).len(),
    ensures
        listed_uris(list)[i].len() > 0,
        !listed_uris(list)[i].contains(','),
        !is_white_space(listed_uris(list)[i].first()),
        !is_white_space(listed_uris(list)[i].last()),
{
    let all = parts(list, ',').map_values(|part: Seq<char>| trimmed(part));
    let kept = |uri: Seq<char>| uri.len() > 0;
    let uri = listed_uris(list)[i];
    lemma_filter_keeps(all, kept, i);
    let k = choose|k: int| 0 <= k < all.len() && all[k] == uri;
    lemma_parts_have_no_separator(list, ',');
    assert(!parts(list, ',')[k].contains(','));
    lemma_trimmed(parts(list, ',')[k]);
}

/// A printer as the frontend is told of it.
#[derive(Debug)]
pub struct PrinterView {
    pub id: String,
    pub name: String,
    pub uri: String,
    pub model: Option<String>,
    pub formats: Vec<&'static str>,
}

impl View for PrinterView {
    type V = PrinterData;

    open spec fn view(&self) -> PrinterData {
        PrinterData {
            id: self.id@,
            name: self.name@,
            uri: self.uri@,
            model: text_of(self.model),
            formats: str_texts(self.formats@),
        }
    }
}

/// A listing of printers: each of them once, as `order` names them, and none
/// before one whose name comes first.
pub open spec fn is_listing(
    views: Seq<PrinterView>,
    printers: Map<Seq<char>, PrinterData>,
    order: Seq<Seq<char>>,
) -> bool {
    &&& order.no_duplicates()
    &&& order.to_set() == printers.dom()
    &&& views.len() == order.len()
    &&& forall|i: int| 0 <= i < views.len() ==> (#[trigger] views[i])@ == printers[order[i]]
    &&& forall|i: int, j: int|
        0 <= i < j < views.len() ==> at_most(#[trigger] views[i]@.name, #[trigger] views[j]@.name)
}

/// A printer as the frontend is told of it.
fn to_view(printer: &Printer) -> (view: PrinterView)
    ensures
        view@ == printer@,
{
    PrinterView {
        id: printer.id.clone(),
        name: printer.name.clone(),
        uri: printer.uri.clone(),
        model: copy_text(&printer.model),
        formats: copy_labels(&printer.formats),
    }
}

/// The printers, sorted by name.
pub fn to_views(printers: &Registry) -> (views: Vec<PrinterView>)
    requires
        printers.valid(),
    ensures
        exists|order: Seq<Seq<char>>| #[trigger] is_listing(views@, printers@, order),
{
    let mut views: Vec<PrinterView> = Vec::new();
    let ghost mut order: Seq<Seq<char>> = Seq::empty();
    let ghost names = printers.names();
    proof {
        printers.lemma_names();
    }
    let mut i: usize = 0;
    while i < printers.len()
        invariant
            printers.valid(),
            names == printers.names(),
            names.no_duplicates(),
            i <= names.len(),
            order.no_duplicates(),
            order.len() == i,
            views@.len() == i,
            forall|k: int| 0 <= k < i ==> order.contains(#[trigger] names[k]),
            forall|k: int| 0 <= k < i ==> names.take(i as int).contains(#[trigger] order[k]),
            forall|k: int| 0 <= k < i ==> (#[trigger] views@[k])@ == printers@[order[k]],
            forall|a: int, b: int|
                0 <= a < b < i ==> at_most(
                    #[trigger] views@[a]@.name,
                    #[trigger] views@[b]@.name,
                ),
        decreases names.len() - i,
    {
        let view = to_view(printers.at(i));
        let mut at: usize = i;
        while at > 0 && !is_at_most(views[at - 1].name.as_str(), view.name.as_str())
            invariant
                at <= i == views@.len(),
                forall|k: int|
                    at <= k < i ==> !at_most(#[trigger] views@[k]@.name, view@.name),
            decreases at,
        {
            at = at - 1;
        }
        let ghost before = views@;
        let ghost order_before = order;
        views.insert(at, view);
        proof {
            let name = names[i as int];
            order = order.insert(at as int, name);
            lemma_inserted(before, order_before, view, at as int, names, i as int);
            assert forall|k: int| 0 <= k < i + 1 implies (#[trigger] views@[k])@ == printers@[
                order[k]
            ] by {
                if k < at {
                    assert(views@[k] == before[k]);
                } else if k > at {
                    assert(views@[k] == before[k - 1]);
                }
            }
        }
        i = i + 1;
    }
    proof {
        assert(names.take(i as int) =~= names);
        assert(order.to_set() =~= names.to_set()) by {
            assert forall|name: Seq<char>| order.contains(name) implies names.contains(name) by {
                let k = choose|k: int| 0 <= k < order.len() && order[k] == name;
                assert(names.contains(order[k]));
            }
            assert forall|name: Seq<char>| names.contains(name) implies order.contains(name) by {
                let k = choose|k: int| 0 <= k < names.len() && names[k] == name;
                assert(order.contains(names[k]));
            }
        }
        assert(is_listing(views@, printers@, order));
    }
    views
}

/// Inserting behind all that don't come behind keeps a listing sorted, and the
/// names in it each once.
proof fn lemma_inserted(
    views: Seq<PrinterView>,
    order: Seq<Seq<char>>,
    view: PrinterView,
    at: int,
    names: Seq<Seq<char>>,
    i: int,
)
    requires
        0 <= at <= views.len() == order.len() == i < names.len(),
        names.no_duplicates(),
        order.no_duplicates(),
        forall|k: int| 0 <= k < i ==> order.contains(#[trigger] names[k]),
        forall|k: int| 0 <= k < i ==> names.take(i).contains(#[trigger] order[k]),
        forall|a: int, b: int|
            0 <= a < b < i ==> at_most(#[trigger] views[a]@.name, #[trigger] views[b]@.name),
        forall|k: int| at <= k < i ==> !at_most(#[trigger] views[k]@.name, view@.name),
        at > 0 ==> at_most(views[at - 1]@.name, view@.name),
    ensures
        order.insert(at, names[i]).no_duplicates(),
        forall|k: int|
            0 <= k < i + 1 ==> order.insert(at, names[i]).contains(#[trigger] names[k]),
        forall|k: int|
            0 <= k < i + 1 ==> names.take(i + 1).contains(
                #[trigger] order.insert(at, names[i])[k],
            ),
        forall|a: int, b: int|
            0 <= a < b < i + 1 ==> at_most(
                #[trigger] views.insert(at, view)[a]@.name,
                #[trigger] views.insert(at, view)[b]@.name,
            ),
{
    let name = names[i];
    let next = order.insert(at, name);
    let sorted = views.insert(at, view);
    assert(!order.contains(name)) by {
        if order.contains(name) {
            let k = choose|k: int| 0 <= k < order.len() && order[k] == name;
            assert(names.take(i).contains(order[k]));
            let m = choose|m: int| 0 <= m < i && names.take(i)[m] == name;
            assert(names[m] == names[i]);
        }
    }
    assert forall|k: int| 0 <= k < i + 1 implies next.contains(#[trigger] names[k]) by {
        if k < i {
            assert(order.contains(names[k]));
            let m = choose|m: int| 0 <= m < order.len() && order[m] == names[k];
            assert(next[if m < at { m } else { m + 1 }] == names[k]);
        } else {
            assert(next[at] == name);
        }
    }
    assert forall|k: int| 0 <= k < i + 1 implies names.take(i + 1).contains(
        #[trigger] next[k],
    ) by {
        if k == at {
            assert(names.take(i + 1)[i] == next[k]);
        } else {
            let m = if k < at { k } else { k - 1 };
            assert(next[k] == order[m]);
            assert(names.take(i).contains(order[m]));
            let n = choose|n: int| 0 <= n < i && names.take(i)[n] == order[m];
            assert(names.take(i + 1)[n] == next[k]);
        }
    }
    assert forall|a: int, b: int| 0 <= a < b < i + 1 implies at_most(
        #[trigger] sorted[a]@.name,
        #[trigger] sorted[b]@.name,
    ) by {
        let pa = if a < at { a } else { a - 1 };
        let pb = if b < at { b } else { b - 1 };
        if a != at {
            assert(sorted[a] == views[pa]);
        }
        if b != at {
            assert(sorted[b] == views[pb]);
        }
        if b == at {
            assert(sorted[b] == view);
            if a < at - 1 {
                assert(at_most(views[a]@.name, views[at - 1]@.name));
                lemma_at_most_transitive(views[a]@.name, views[at - 1]@.name, view@.name);
            }
        } else if a == at {
            assert(sorted[a] == view);
            lemma_at_most_total(views[pb]@.name, view@.name);
        }
    }
}

/// What an upload is answered with: an HTTP status and a text.
#[derive(Debug)]
pub struct Reply {
    pub status: u16,
    pub text: String,
}

/// What a [`Reply`] holds.
#[verifier::ext_equal]
pub struct ReplyData {
    pub status: u16,
    pub text: Seq<char>,
}

impl View for Reply {
    type V = ReplyData;

    open spec fn view(&self) -> ReplyData {
        ReplyData { status: self.status, text: self.text@ }
    }
}

/// The printer that an upload names.
///
/// # Errors
///
/// 404 if no such printer is listed.
pub fn find_printer(printers: &Registry, id: &str) -> (printer: Result<Printer, Reply>)
    requires
        printers.valid(),
    ensures
        match printer {
            Ok(printer) => printers@.contains_key(id@) && printer@ == printers@[id@],
            Err(reply) => !printers@.contains_key(id@) && reply@ == (ReplyData {
                status: 404,
                text: "printer not found"@,
            }),
        },
{
    match printers.get(id) {
        Some(printer) => Ok(printer.clone()),
        None => Err(Reply { status: 404, text: "printer not found".to_owned() }),
    }
}

/// What an uploaded file is said to be.
pub struct Field {
    /// Its content type, if it has one.
    pub content_type: Option<String>,
    /// Its name, if it has one.
    pub file_name: Option<String>,
}

/// What a file that was found in an upload comes to: a job title, or a
/// refusal.
pub open spec fn accepted(field: Result<Option<Field>, String>) -> Result<Seq<char>, ReplyData> {
    match field {
        Err(error) => Err(ReplyData { status: 400, text: error@ }),
        Ok(None) => Err(ReplyData { status: 400, text: "no file provided"@ }),
        Ok(Some(field)) => if text_of(field.content_type) == Some("application/pdf"@) {
            Ok(
                match field.file_name {
                    Some(name) => name@,
                    None => "document.pdf"@,
                },
            )
        } else {
            Err(ReplyData { status: 415, text: "only application/pdf is supported"@ })
        },
    }
}

/// The title to print an uploaded file under (see [`accepted`]).
///
/// # Errors
///
/// 400 if the upload can't be read or holds no file, 415 if the file isn't a
/// PDF.
pub fn accept_upload(field: Result<Option<Field>, String>) -> (title: Result<String, Reply>)
    ensures
        match title {
            Ok(title) => accepted(field) == Ok::<Seq<char>, ReplyData>(title@),
            Err(reply) => accepted(field) == Err::<Seq<char>, ReplyData>(reply@),
        },
{
    let field = match field {
        Ok(Some(field)) => field,
        Ok(None) => {
            return Err(Reply { status: 400, text: "no file provided".to_owned() });
        },
        Err(error) => {
            return Err(Reply { status: 400, text: error });
        },
    };
    let is_pdf = match &field.content_type {
        Some(content_type) => same(content_type.as_str(), "application/pdf"),
        None => false,
    };
    if !is_pdf {
        return Err(Reply { status: 415, text: "only application/pdf is supported".to_owned() });
    }
    match field.file_name {
        Some(name) => Ok(name),
        None => Ok("document.pdf".to_owned()),
    }
}

/// Start printing an uploaded PDF, once it was read to its end: on the printer
/// at its URI, under the given title, with no format forced.
///
/// # Errors
///
/// 400 if the upload couldn't be read.
pub fn start_print(printer: &Printer, title: String, document: Result<Bytes, String>)
    -> (started: Result<(PrintJob, Step), Reply>)
    ensures
        match started {
            Ok((job, step)) => {
                &&& document is Ok
                &&& job@ == (JobView {
                    uri: printer@.uri,
                    title: title@,
                    forced: None,
                    document: frozen_bytes(document->Ok_0),
                    stage: job.stage,
                })
                &&& step@ == job@.first_step()
                &&& job.stage == if step@ is Send {
                    Stage::Planning
                } else {
                    Stage::Over
                }
            },
            Err(reply) => document is Err && reply@ == (ReplyData {
                status: 400,
                text: document->Err_0@,
            }),
        },
{
    match document {
        Ok(document) => Ok(PrintJob::start(printer.uri.clone(), title, None, document)),
        Err(error) => Err(Reply { status: 400, text: error }),
    }
}

/// The answer to an upload that couldn't be printed.
pub open spec fn refusal(error: PrintErrorView) -> ReplyData {
    match error {
        PrintErrorView::UnsupportedFormat => ReplyData {
            status: 422,
            text: "printer no longer supports PDF"@,
        },
        _ => ReplyData { status: 502, text: "printer rejected the job"@ },
    }
}

/// The answer to an upload that was handed to the printer: 204 if it was
/// printed.
///
/// # Errors
///
/// 422 if the printer takes neither PDF nor PWG-Raster, 502 if printing failed
/// in any other way.
pub fn answer(printed: Result<(), PrintError>) -> (reply: Result<u16, Reply>)
    ensures
        match reply {
            Ok(status) => printed is Ok && status == 204,
            Err(reply) => printed is Err && reply@ == refusal(printed->Err_0@),
        },
{
    match printed {
        Ok(_) => Ok(204),
        Err(PrintError::UnsupportedFormat) => Err(
            Reply { status: 422, text: "printer no longer supports PDF".to_owned() },
        ),
        Err(_) => Err(Reply { status: 502, text: "printer rejected the job".to_owned() }),
    }
}

/// How far an upload has come.
#[derive(Debug)]
pub enum Upload {
    /// It is for this printer, and its first field is read.
    Opening { printer: Printer },
    /// It holds a PDF with this title, which is read to its end.
    Reading { printer: Printer, title: String },
    /// Its PDF is printed.
    Printing,
    /// There is nothing left to do.
    Over,
}

/// What an [`Upload`] holds.
#[verifier::ext_equal]
pub enum UploadView {
    Opening { printer: PrinterData },
    Reading { printer: PrinterData, title: Seq<char> },
    Printing,
    Over,
}

impl View for Upload {
    type V = UploadView;

    open spec fn view(&self) -> UploadView {
        match *self {
            Upload::Opening { printer } => UploadView::Opening { printer: printer@ },
            Upload::Reading { printer, title } => UploadView::Reading {
                printer: printer@,
                title: title@,
            },
            Upload::Printing => UploadView::Printing,
            Upload::Over => UploadView::Over,
        }
    }
}

/// What an [`Upload`] asks for next.
pub enum UploadStep {
    /// Read the upload up to the content of its first field, and hand in what
    /// the field is said to be.
    ReadField,
    /// Read that field to its end, and hand in its content.
    ReadDocument,
    /// Run this job from its first step, and hand in how it ended.
    Print { job: PrintJob, step: Step },
    /// Answer with this; the upload is over.
    Answer(Reply),
}

/// What an [`UploadStep`] holds.
#[verifier::ext_equal]
pub enum UploadStepView {
    ReadField,
    ReadDocument,
    Print { job: JobView, step: StepView },
    Answer(ReplyData),
}

impl View for UploadStep {
    type V = UploadStepView;

    open spec fn view(&self) -> UploadStepView {
        match *self {
            UploadStep::ReadField => UploadStepView::ReadField,
            UploadStep::ReadDocument => UploadStepView::ReadDocument,
            UploadStep::Print { job, step } => UploadStepView::Print { job: job@, step: step@ },
            UploadStep::Answer(reply) => UploadStepView::Answer(reply@),
        }
    }
}

/// A document as plain values.
pub open spec fn document_view(document: Result<Bytes, String>) -> Result<Seq<u8>, Seq<char>> {
    match document {
        Ok(document) => Ok(frozen_bytes(document)),
        Err(error) => Err(error@),
    }
}

/// How printing ended, as plain values.
pub open spec fn printed_view(printed: Result<(), PrintError>) -> Result<(), PrintErrorView> {
    match printed {
        Ok(_) => Ok(()),
        Err(error) => Err(error@),
    }
}

/// The job that prints an uploaded document: on the printer at its URI, with no
/// format forced, at the stage that its first step leads to.
pub open spec fn upload_job(
    printer: PrinterData,
    title: Seq<char>,
    document: Seq<u8>,
) -> JobView {
    let job = JobView { uri: printer.uri, title, forced: None, document, stage: Stage::Over };
    if job.first_step() is Send {
        JobView { stage: Stage::Planning, ..job }
    } else {
        job
    }
}

/// The first step of an upload for the printer named `id`: read its first
/// field if there is such a printer, and refuse it if there isn't.
pub open spec fn opened(printers: Map<Seq<char>, PrinterData>, id: Seq<char>) -> (
    UploadView,
    UploadStepView,
) {
    if printers.contains_key(id) {
        (UploadView::Opening { printer: printers[id] }, UploadStepView::ReadField)
    } else {
        (
            UploadView::Over,
            UploadStepView::Answer(ReplyData { status: 404, text: "printer not found"@ }),
        )
    }
}

impl UploadView {
    /// The printer that an upload is for, until its PDF is handed over.
    pub open spec fn printer(self) -> PrinterData {
        match self {
            UploadView::Opening { printer } => printer,
            UploadView::Reading { printer, title } => printer,
            _ => arbitrary(),
        }
    }

    /// The step after the first field was found, or not: read its content if
    /// it is a PDF.
    pub open spec fn after_field(self, field: Result<Option<Field>, String>) -> (
        UploadView,
        UploadStepView,
    ) {
        match accepted(field) {
            Ok(title) => (
                UploadView::Reading { printer: self.printer(), title },
                UploadStepView::ReadDocument,
            ),
            Err(reply) => (UploadView::Over, UploadStepView::Answer(reply)),
        }
    }

    /// The step after the PDF was read, or not: print it.
    pub open spec fn after_document(self, document: Result<Seq<u8>, Seq<char>>) -> (
        UploadView,
        UploadStepView,
    ) {
        match document {
            Ok(document) => {
                let job = upload_job(self.printer(), self->title, document);
                (UploadView::Printing, UploadStepView::Print { job, step: job.first_step() })
            },
            Err(error) => (
                UploadView::Over,
                UploadStepView::Answer(ReplyData { status: 400, text: error }),
            ),
        }
    }

    /// The step after the PDF was printed, or not: say so.
    pub open spec fn after_printing(self, printed: Result<(), PrintErrorView>) -> (
        UploadView,
        UploadStepView,
    ) {
        (
            UploadView::Over,
            UploadStepView::Answer(
                match printed {
                    Ok(_) => ReplyData { status: 204, text: ""@ },
                    Err(error) => refusal(error),
                },
            ),
        )
    }

    /// How many more steps there can be.
    pub open spec fn steps_left(self) -> nat {
        match self {
            UploadView::Opening { printer } => 3,
            UploadView::Reading { printer, title } => 2,
            UploadView::Printing => 1,
            UploadView::Over => 0,
        }
    }

    /// Whether a step is what an upload that has come this far waits for.
    pub open spec fn is_due(self, step: UploadStepView) -> bool {
        match step {
            UploadStepView::ReadField => self is Opening,
            UploadStepView::ReadDocument => self is Reading,
            UploadStepView::Print { job, step } => self is Printing,
            UploadStepView::Answer(reply) => self is Over,
        }
    }
}

impl Upload {
    /// An upload for the printer named `id` (see [`opened`]).
    pub fn open(printers: &Registry, id: &str) -> (next: (Upload, UploadStep))
        requires
            printers.valid(),
        ensures
            (next.0@, next.1@) == opened(printers@, id@),
    {
        match find_printer(printers, id) {
            Ok(printer) => (Upload::Opening { printer }, UploadStep::ReadField),
            Err(reply) => (Upload::Over, UploadStep::Answer(reply)),
        }
    }

    /// Take what the first field is said to be, if there is one, or why the
    /// upload couldn't be read (see [`UploadView::after_field`]).
    pub fn field_read(self, field: Result<Option<Field>, String>) -> (next: (Upload, UploadStep))
        requires
            self is Opening,
        ensures
            (next.0@, next.1@) == self@.after_field(field),
    {
        match self {
            Upload::Opening { printer } => match accept_upload(field) {
                Ok(title) => (Upload::Reading { printer, title }, UploadStep::ReadDocument),
                Err(reply) => (Upload::Over, UploadStep::Answer(reply)),
            },
            other => (other, UploadStep::ReadField),
        }
    }

    /// Take the PDF, or why it couldn't be read (see
    /// [`UploadView::after_document`]).
    pub fn document_read(self, document: Result<Bytes, String>) -> (next: (Upload, UploadStep))
        requires
            self is Reading,
        ensures
            (next.0@, next.1@) == self@.after_document(document_view(document)),
    {
        match self {
            Upload::Reading { printer, title } => match start_print(&printer, title, document) {
                Ok((job, step)) => (Upload::Printing, UploadStep::Print { job, step }),
                Err(reply) => (Upload::Over, UploadStep::Answer(reply)),
            },
            other => (other, UploadStep::ReadDocument),
        }
    }

    /// Take how printing ended (see [`UploadView::after_printing`]).
    pub fn printed(self, printed: Result<(), PrintError>) -> (next: (Upload, UploadStep))
        requires
            self is Printing,
        ensures
            (next.0@, next.1@) == self@.after_printing(printed_view(printed)),
    {
        let reply = match answer(printed) {
            Ok(status) => Reply { status, text: "".to_owned() },
            Err(reply) => reply,
        };
        (Upload::Over, UploadStep::Answer(reply))
    }
}

/// An upload for a printer that isn't listed is refused before anything of it
/// is read; any other is read.
pub proof fn law_unknown_printers_are_refused_first(
    printers: Map<Seq<char>, PrinterData>,
    id: Seq<char>,
)
    ensures
        opened(printers, id).1 is ReadField <==> printers.contains_key(id),
        !printers.contains_key(id) ==> opened(printers, id) == (
            UploadView::Over,
            UploadStepView::Answer(ReplyData { status: 404, text: "printer not found"@ }),
        ),
{
}

/// A file is read only if it is said to be a PDF; any other is refused before
/// its content is read, and so is an upload that holds none.
pub proof fn law_only_pdfs_are_read(upload: UploadView, field: Result<Option<Field>, String>)
    ensures
        upload.after_field(field).1 is ReadDocument <==> {
            &&& field is Ok
            &&& field->Ok_0 is Some
            &&& text_of(field->Ok_0->0.content_type) == Some("application/pdf"@)
        },
        upload.after_field(field).1 !is ReadDocument ==> {
            &&& upload.after_field(field).0 is Over
            &&& upload.after_field(field).1 is Answer
            &&& upload.after_field(field).1->Answer_0.status == if field matches Ok(Some(_)) {
                415u16
            } else {
                400u16
            }
        },
{
}

/// A PDF that is uploaded for a listed printer is printed as it was read: at
/// that printer's URI, under the file's own name.
pub proof fn law_uploaded_pdfs_are_printed(
    printers: Map<Seq<char>, PrinterData>,
    id: Seq<char>,
    field: Field,
    document: Seq<u8>,
)
    requires
        printers.contains_key(id),
        text_of(field.content_type) == Some("application/pdf"@),
    ensures
        ({
            let reading = opened(printers, id).0.after_field(Ok(Some(field))).0;
            let (upload, step) = reading.after_document(Ok(document));
            &&& upload is Printing
            &&& step is Print
            &&& step->job.uri == printers[id].uri
            &&& step->job.title == match field.file_name {
                Some(name) => name@,
                None => "document.pdf"@,
            }
            &&& step->job.forced is None
            &&& step->job.document == document
            &&& step->step == step->job.first_step()
        }),
{
}

/// An upload comes to an end: whatever is handed in takes it on to where fewer
/// steps are left.
pub proof fn law_uploads_come_to_an_end(
    upload: UploadView,
    field: Result<Option<Field>, String>,
    document: Result<Seq<u8>, Seq<char>>,
    printed: Result<(), PrintErrorView>,
)
    ensures
        upload is Opening ==> upload.after_field(field).0.steps_left() < upload.steps_left(),
        upload is Reading ==> upload.after_document(document).0.steps_left() < upload.steps_left(),
        upload is Printing ==> upload.after_printing(printed).0.steps_left() < upload.steps_left(),
{
}

/// What an upload asks for is what it waits for, so that it is read, printed
/// and answered in this order, each at most once.
pub proof fn law_upload_steps_are_due(
    printers: Map<Seq<char>, PrinterData>,
    id: Seq<char>,
    upload: UploadView,
    field: Result<Option<Field>, String>,
    document: Result<Seq<u8>, Seq<char>>,
    printed: Result<(), PrintErrorView>,
)
    ensures
        opened(printers, id).0.is_due(opened(printers, id).1),
        upload.after_field(field).0.is_due(upload.after_field(field).1),
        upload.after_document(document).0.is_due(upload.after_document(document).1),
        upload.after_printing(printed).0.is_due(upload.after_printing(printed).1),
{
}

/// A list without commas names the URI that it is but for white space around
/// it, if anything is left; any other what the list before a comma names, and
/// then what the one behind it does.
pub proof fn law_lists_are_read_in_order(a: Seq<char>, b: Seq<char>)
    ensures
        !a.contains(',') && trimmed(a).len() > 0 ==> listed_uris(a) == seq![trimmed(a)],
        !a.contains(',') && trimmed(a).len() == 0 ==> listed_uris(a).len() == 0,
        listed_uris(a + seq![','] + b) == listed_uris(a) + listed_uris(b),
{
    law_parts(a, b, ',');
    let trim = |part: Seq<char>| trimmed(part);
    let kept = |uri: Seq<char>| uri.len() > 0;
    let (x, y) = (parts(a, ',').map_values(trim), parts(b, ',').map_values(trim));
    assert(parts(a + seq![','] + b, ',').map_values(trim) =~= x + y);
    lemma_filter_joins(x, y, kept);
    if !a.contains(',') {
        assert(x =~= seq![trimmed(a)]);
        reveal_with_fuel(Seq::filter, 2);
        assert(x.drop_last() =~= Seq::empty());
        if kept(x[0]) {
            assert(x.filter(kept) =~= seq![trimmed(a)]);
        } else {
            assert(x.filter(kept) =~= Seq::empty());
        }
    }
}

/// What two lists keep, they keep behind one another.
proof fn lemma_filter_joins(x: Seq<Seq<char>>, y: Seq<Seq<char>>, kept: spec_fn(Seq<char>) -> bool)
    ensures
        (x + y).filter(kept) == x.filter(kept) + y.filter(kept),
    decreases y.len(),
{
    reveal(Seq::filter);
    if y.len() == 0 {
        assert(x + y =~= x);
        assert(x.filter(kept) + y.filter(kept) =~= x.filter(kept));
    } else {
        lemma_filter_joins(x, y.drop_last(), kept);
        assert((x + y).drop_last() =~= x + y.drop_last());
        assert((x + y).last() == y.last());
        assert((x + y).filter(kept) =~= x.filter(kept) + y.filter(kept));
    }
}

/// A listing holds every printer once and nothing else, as each was told of,
/// and of any two the one that is listed first doesn't come behind the other by
/// name.
pub proof fn law_listings_hold_each_printer_once(
    views: Seq<PrinterView>,
    printers: Map<Seq<char>, PrinterData>,
    order: Seq<Seq<char>>,
)
    requires
        is_listing(views, printers, order),
    ensures
        forall|id: Seq<char>| #[trigger]
            printers.contains_key(id) ==> exists|i: int|
                0 <= i < views.len() && order[i] == id && (#[trigger] views[i])@ == printers[id],
        forall|i: int|
            0 <= i < views.len() ==> printers.contains_key(#[trigger] order[i]) && views[i]@
                == printers[order[i]],
        printers.dom().finite() && views.len() == printers.dom().len(),
        forall|i: int, j: int|
            0 <= i < j < views.len() ==> #[trigger] order[i] != #[trigger] order[j] && at_most(
                views[i].name@,
                views[j].name@,
            ),
{
    assert forall|id: Seq<char>| #[trigger] printers.contains_key(id) implies exists|i: int|
        0 <= i < views.len() && order[i] == id && (#[trigger] views[i])@ == printers[id] by {
        assert(order.to_set().contains(id));
        let i = choose|i: int| 0 <= i < order.len() && order[i] == id;
        assert(views[i]@ == printers[order[i]]);
    }
    assert forall|i: int| 0 <= i < views.len() implies printers.contains_key(#[trigger] order[i])
        && views[i]@ == printers[order[i]] by {
        assert(order.to_set().contains(order[i]));
        assert(views[i]@ == printers[order[i]]);
    }
    assert forall|i: int, j: int| 0 <= i < j < views.len() implies #[trigger] order[i]
        != #[trigger] order[j] && at_most(views[i].name@, views[j].name@) by {
        assert(at_most(views[i]@.name, views[j]@.name));
    }
    order.unique_seq_to_set();
}

/// An upload is answered 204 if and only if it was printed, 422 if the printer
/// takes no format that it could be sent in, and 502 if anything else failed;
/// where its PDF can't be read, 400 and why.
pub proof fn law_uploads_are_answered(
    upload: UploadView,
    document: Result<Seq<u8>, Seq<char>>,
    printed: Result<(), PrintErrorView>,
)
    ensures
        ({
            let reply = upload.after_printing(printed).1->Answer_0;
            &&& upload.after_printing(printed).1 is Answer
            &&& reply.status == 204 <==> printed is Ok
            &&& reply.status == 422 <==> printed is Err && printed->Err_0 is UnsupportedFormat
            &&& reply.status == 502 <==> printed is Err && printed->Err_0 !is UnsupportedFormat
            &&& reply.text == if printed is Ok {
                ""@
            } else if printed->Err_0 is UnsupportedFormat {
                "printer no longer supports PDF"@
            } else {
                "printer rejected the job"@
            }
        }),
        document matches Err(why) ==> upload.after_document(document) == (
            UploadView::Over,
            UploadStepView::Answer(ReplyData { status: 400, text: why }),
        ),
        document is Ok <==> upload.after_document(document).1 is Print,
{
}

/// A refused file is answered with what is wrong: why the upload couldn't be
/// read, that it holds no file, or that only PDFs are taken.
pub proof fn law_refused_files_are_answered(
    upload: UploadView,
    field: Result<Option<Field>, String>,
)
    requires
        upload.after_field(field).1 is Answer,
    ensures
        upload.after_field(field).1->Answer_0.text == match field {
            Err(why) => why@,
            Ok(None) => "no file provided"@,
            Ok(Some(_)) => "only application/pdf is supported"@,
        },
{
}

/// A listed printer, a reply, an upload and its steps are seen with all that
/// they hold.
pub proof fn law_replies_are_seen_whole(
    view: PrinterView,
    reply: Reply,
    upload: Upload,
    step: UploadStep,
    i: int,
)
    ensures
        view@.id == view.id@,
        view@.name == view.name@,
        view@.uri == view.uri@,
        view@.model == text_of(view.model),
        view@.formats.len() == view.formats@.len(),
        0 <= i < view.formats@.len() ==> view@.formats[i] == view.formats@[i]@,
        reply@.status == reply.status,
        reply@.text == reply.text@,
        match upload {
            Upload::Opening { printer } => upload@ == (UploadView::Opening { printer: printer@ }),
            Upload::Reading { printer, title } => upload@ == (UploadView::Reading {
                printer: printer@,
                title: title@,
            }),
            Upload::Printing => upload@ is Printing,
            Upload::Over => upload@ is Over,
        },
        match step {
            UploadStep::ReadField => step@ is ReadField,
            UploadStep::ReadDocument => step@ is ReadDocument,
            UploadStep::Print { job, step: first } => step@ == (UploadStepView::Print {
                job: job@,
                step: first@,
            }),
            UploadStep::Answer(reply) => step@ == UploadStepView::Answer(reply@),
        },
{
}

/// An uploaded document is seen as its bytes, or as why it couldn't be read; and
/// how printing ended as why it failed, if it did.
pub proof fn law_outcomes_are_seen_whole(
    document: Result<Bytes, String>,
    printed: Result<(), PrintError>,
)
    ensures
        document is Ok ==> document_view(document) == Ok::<Seq<u8>, Seq<char>>(
            frozen_bytes(document->Ok_0),
        ),
        document is Err ==> document_view(document) == Err::<Seq<u8>, Seq<char>>(
            document->Err_0@,
        ),
        printed is Ok <==> printed_view(printed) is Ok,
        printed is Err ==> printed_view(printed)->Err_0 == printed->Err_0@,
{
}

} // verus!
