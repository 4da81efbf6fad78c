//! Printing one PDF, step by step: what to do next, given what came of the
//! step before. Whoever runs the steps sends requests and rasterises pages.

use bytes::Bytes;
use vstd::prelude::*;

use crate::buffer::{as_slice, frozen_bytes};
use crate::message::{lookup, message_of, Message, MessageView};
use crate::pdf::{RenderError, RenderedPage};
use crate::printing::{
    all_encodable, built, encode_rendered, law_rejections, plan, plan_attributes, plan_print,
    plan_request, raster_payload, rejection, request_view, submission, submit, submit_bytes,
    submit_request, DocumentFormat, PrintError, PrintErrorView, PrintPlan, Submitted, SubmittedView,
};
use crate::raster::{encoded, ColorMode};
use crate::request::{
    fits, get_attributes_bytes, is_addressable, law_print_jobs_say_what_they_send,
    law_queries_say_what_they_ask_for, says,
};
use crate::simulator::raster::{are_filled, shows};
use crate::uri::parsed_uri;

verus! {

/// How far a [`PrintJob`] has come.
#[derive(Clone, Copy, Debug, PartialEq, Eq, Structural)]
pub enum Stage {
    /// The printer is asked what it accepts.
    Planning,
    /// The PDF is rasterised.
    Rendering { dpi: u32, color: ColorMode },
    /// The document is sent, in this format.
    Submitting { format: DocumentFormat },
    /// There is nothing left to do.
    Over,
}

/// What a [`PrintJob`] asks for next.
#[derive(Debug)]
pub enum Step {
    /// Send this request, and hand in the reply.
    Send(Vec<u8>),
    /// Rasterise the document at `dpi` dots per inch, and hand in the pages.
    Rasterise { dpi: u32 },
    /// The printer accepted the document, in this format.
    Finished { submitted: Submitted, format: DocumentFormat },
    /// The document couldn't be printed.
    Failed(PrintError),
}

/// What a [`Step`] holds.
#[verifier::ext_equal]
pub enum StepView {
    Send(Seq<u8>),
    Rasterise { dpi: u32 },
    Finished { submitted: SubmittedView, format: DocumentFormat },
    Failed(PrintErrorView),
}

impl View for Step {
    type V = StepView;

    open spec fn view(&self) -> StepView {
        match *self {
            Step::Send(request) => StepView::Send(request@),
            Step::Rasterise { dpi } => StepView::Rasterise { dpi },
            Step::Finished { submitted, format } => StepView::Finished {
                submitted: submitted@,
                format,
            },
            Step::Failed(error) => StepView::Failed(error@),
        }
    }
}

/// A PDF on its way to a printer.
pub struct PrintJob {
    /// The printer's URI.
    pub uri: String,
    /// The job's title.
    pub title: String,
    /// The format to send whatever the printer accepts, if any.
    pub forced: Option<DocumentFormat>,
    /// The PDF.
    pub document: Bytes,
    /// How far it has come.
    pub stage: Stage,
}

/// What a [`PrintJob`] holds.
#[verifier::ext_equal]
pub struct JobView {
    pub uri: Seq<char>,
    pub title: Seq<char>,
    pub forced: Option<DocumentFormat>,
    pub document: Seq<u8>,
    pub stage: Stage,
}

impl View for PrintJob {
    type V = JobView;

    open spec fn view(&self) -> JobView {
        JobView {
            uri: self.uri@,
            title: self.title@,
            forced: self.forced,
            document: frozen_bytes(self.document),
            stage: self.stage,
        }
    }
}

/// The step that sends a request, if there is one.
pub open spec fn sending(request: Result<Seq<u8>, PrintErrorView>) -> StepView {
    match request {
        Ok(bytes) => StepView::Send(bytes),
        Err(error) => StepView::Failed(error),
    }
}

/// The stage behind a step that sends a request, if there is one.
pub open spec fn sent(stage: Stage, request: Result<Seq<u8>, PrintErrorView>) -> Stage {
    match request {
        Ok(bytes) => stage,
        Err(error) => Stage::Over,
    }
}

impl JobView {
    /// The first step: ask the printer what it accepts.
    pub open spec fn first_step(self) -> StepView {
        sending(built(get_attributes_bytes(self.uri, plan_attributes())))
    }

    /// Submit a document, with the stage that this leads to.
    pub open spec fn submitting(self, payload: Seq<u8>, format: DocumentFormat) -> (
        Stage,
        StepView,
    ) {
        let request = submit_bytes(self.uri, payload, format, self.title);
        (sent(Stage::Submitting { format }, request), sending(request))
    }

    /// The step after a reply, with the stage that it leads to.
    pub open spec fn after_reply(self, reply: Result<MessageView, Seq<char>>) -> (
        Stage,
        StepView,
    ) {
        match reply {
            Err(error) => (Stage::Over, StepView::Failed(PrintErrorView::Ipp(error))),
            Ok(response) => match self.stage {
                Stage::Submitting { format } => match submission(response) {
                    Ok(submitted) => (Stage::Over, StepView::Finished { submitted, format }),
                    Err(error) => (Stage::Over, StepView::Failed(error)),
                },
                _ => match plan(response, self.forced) {
                    Err(error) => (Stage::Over, StepView::Failed(error)),
                    Ok(PrintPlan::DirectPdf) => self.submitting(
                        self.document,
                        DocumentFormat::Pdf,
                    ),
                    Ok(PrintPlan::PwgRaster { dpi, color }) => (
                        Stage::Rendering { dpi, color },
                        StepView::Rasterise { dpi },
                    ),
                },
            },
        }
    }

    /// The step after rasterising, with the stage that it leads to.
    pub open spec fn after_rendering(
        self,
        rendered: Result<Vec<RenderedPage>, RenderError>,
        dpi: u32,
        color: ColorMode,
    ) -> (Stage, StepView) {
        match raster_payload(rendered, dpi, color) {
            Ok((payload, format)) => self.submitting(payload, format),
            Err(error) => (Stage::Over, StepView::Failed(error)),
        }
    }
}

/// A reply as plain values.
pub open spec fn reply_view(reply: Result<Message, String>) -> Result<MessageView, Seq<char>> {
    match reply {
        Ok(response) => Ok(response@),
        Err(error) => Err(error@),
    }
}

impl PrintJob {
    /// Print the PDF `document` on the printer at `uri` as a job titled
    /// `title`: the first step is to ask the printer how it wants the document
    /// (see [`JobView::first_step`]).
    pub fn start(
        uri: String,
        title: String,
        forced: Option<DocumentFormat>,
        document: Bytes,
    ) -> (started: (PrintJob, Step))
        ensures
            started.0@.uri == uri@,
            started.0@.title == title@,
            started.0@.forced == forced,
            started.0@.document == frozen_bytes(document),
            started.1@ == started.0@.first_step(),
            started.0.stage == if started.1@ is Send {
                Stage::Planning
            } else {
                Stage::Over
            },
            started.1 matches Step::Send(request) ==> queries(
                request@,
                uri@,
                seq![
                    "document-format-supported"@,
                    "pwg-raster-document-resolution-supported"@,
                    "pwg-raster-document-type-supported"@,
                ],
            ),
            started.1 is Send <==> is_addressable(uri@),
            started.1 is Send || started.1 is Failed,
    {
        let request = plan_request(uri.as_str());
        proof {
            if parsed_uri(uri@) is Ok {
                law_queries_say_what_they_ask_for(
                    parsed_uri(uri@)->Ok_0.text,
                    plan_attributes(),
                );
            }
        }
        let mut job = PrintJob { uri, title, forced, document, stage: Stage::Over };
        let step = job.send(request, Stage::Planning);
        (job, step)
    }

    /// Take the reply to the request that was sent, or why there is none (see
    /// [`JobView::after_reply`]).
    pub fn replied(&mut self, reply: Result<Message, String>) -> (step: Step)
        requires
            old(self).stage is Planning || old(self).stage is Submitting,
        ensures
            (final(self).stage, step@) == old(self)@.after_reply(reply_view(reply)),
            final(self)@ == (JobView { stage: final(self).stage, ..old(self)@ }),
            step matches Step::Send(request) ==> submits(
                request@,
                old(self)@.uri,
                old(self)@.title,
                "application/pdf"@,
                old(self)@.document,
            ),
            old(self).stage is Planning && reply is Ok && plan(reply->Ok_0@, old(self)@.forced)
                == Ok::<PrintPlan, PrintErrorView>(PrintPlan::DirectPdf) ==> (step is Send
                <==> is_addressable(old(self)@.uri) && fits(old(self)@.title, 255)),
    {
        proof {
            if parsed_uri(self@.uri) is Ok {
                law_print_jobs_say_what_they_send(
                    parsed_uri(self@.uri)->Ok_0.text,
                    "inkdrop"@,
                    self@.title,
                    "application/pdf"@,
                    self@.document,
                );
            }
        }
        let response = match reply {
            Ok(response) => response,
            Err(error) => {
                self.stage = Stage::Over;
                return Step::Failed(PrintError::Ipp(error));
            },
        };
        if let Stage::Submitting { format } = self.stage {
            self.stage = Stage::Over;
            return match submit(&response) {
                Ok(submitted) => Step::Finished { submitted, format },
                Err(error) => Step::Failed(error),
            };
        }
        match plan_print(&response, self.forced) {
            Err(error) => {
                self.stage = Stage::Over;
                Step::Failed(error)
            },
            Ok(PrintPlan::DirectPdf) => {
                let request = submit_request(
                    self.uri.as_str(),
                    as_slice(&self.document),
                    DocumentFormat::Pdf,
                    self.title.as_str(),
                );
                self.send(request, Stage::Submitting { format: DocumentFormat::Pdf })
            },
            Ok(PrintPlan::PwgRaster { dpi, color }) => {
                self.stage = Stage::Rendering { dpi, color };
                Step::Rasterise { dpi }
            },
        }
    }

    /// Take the document's pages, or why it couldn't be rasterised (see
    /// [`JobView::after_rendering`]).
    pub fn rendered(&mut self, pages: Result<Vec<RenderedPage>, RenderError>) -> (step: Step)
        requires
            old(self).stage is Rendering,
            pages matches Ok(pages) ==> all_encodable(pages@, old(self).stage->color),
        ensures
            (final(self).stage, step@) == old(self)@.after_rendering(
                pages,
                old(self).stage->dpi,
                old(self).stage->color,
            ),
            final(self)@ == (JobView { stage: final(self).stage, ..old(self)@ }),
            step matches Step::Send(request) ==> {
                &&& pages is Ok
                &&& submits(
                    request@,
                    old(self)@.uri,
                    old(self)@.title,
                    "image/pwg-raster"@,
                    encoded(pages->Ok_0@, old(self).stage->dpi, old(self).stage->color),
                )
                &&& pages->Ok_0@.len() > 0 && are_filled(pages->Ok_0@) ==> shows(
                    message_of(request@)->Ok_0.document,
                    pages->Ok_0@,
                    old(self).stage->color,
                )
            },
            pages is Ok ==> (step is Send <==> is_addressable(old(self)@.uri) && fits(
                old(self)@.title,
                255,
            )),
    {
        let (dpi, color) = match self.stage {
            Stage::Rendering { dpi, color } => (dpi, color),
            _ => (0, ColorMode::Sgray8),
        };
        match encode_rendered(pages, dpi, color) {
            Ok((payload, format)) => {
                proof {
                    if parsed_uri(self@.uri) is Ok {
                        law_print_jobs_say_what_they_send(
                            parsed_uri(self@.uri)->Ok_0.text,
                            "inkdrop"@,
                            self@.title,
                            format.mime(),
                            frozen_bytes(payload),
                        );
                    }
                }
                let request = submit_request(
                    self.uri.as_str(),
                    as_slice(&payload),
                    format,
                    self.title.as_str(),
                );
                self.send(request, Stage::Submitting { format })
            },
            Err(error) => {
                self.stage = Stage::Over;
                Step::Failed(error)
            },
        }
    }

    /// Send this request, if there is one, and go on to `stage`.
    pub fn send(&mut self, request: Result<Vec<u8>, PrintError>, stage: Stage) -> (step: Step)
        ensures
            step@ == sending(request_view(request)),
            final(self).stage == sent(stage, request_view(request)),
            final(self)@ == (JobView { stage: final(self).stage, ..old(self)@ }),
    {
        match request {
            Ok(request) => {
                self.stage = stage;
                Step::Send(request)
            },
            Err(error) => {
                self.stage = Stage::Over;
                Step::Failed(error)
            },
        }
    }
}

/// A job is finished only by a printer's successful response to the document
/// that was sent; nothing else is taken for its acceptance.
pub proof fn law_finished_means_accepted(job: JobView, reply: Result<MessageView, Seq<char>>)
    ensures
        job.after_reply(reply).1 is Finished ==> {
            &&& job.stage is Submitting
            &&& reply is Ok
            &&& rejection(reply->Ok_0) is None
        },
{
}

/// A printer that takes neither PDF nor PWG-Raster is sent nothing, unless a
/// format is forced: the job fails with
/// [`PrintError::UnsupportedFormat`](crate::printing::PrintError).
pub proof fn law_unsupported_printers_are_sent_nothing(job: JobView, response: MessageView)
    requires
        job.stage is Planning,
        job.forced is None,
        rejection(response) is None,
        !crate::printing::accepts(response, DocumentFormat::Pdf),
        !crate::printing::accepts(response, DocumentFormat::PwgRaster),
    ensures
        job.after_reply(Ok(response)) == (
            Stage::Over,
            StepView::Failed(PrintErrorView::UnsupportedFormat),
        ),
{
}

/// A printer that takes PDF is sent the document as it is, whatever else it
/// takes.
pub proof fn law_pdf_is_sent_untouched(job: JobView, response: MessageView)
    requires
        job.stage is Planning,
        job.forced is None,
        rejection(response) is None,
        crate::printing::accepts(response, DocumentFormat::Pdf),
    ensures
        job.after_reply(Ok(response)).1 == sending(
            submit_bytes(job.uri, job.document, DocumentFormat::Pdf, job.title),
        ),
{
}

impl Stage {
    /// How many more steps there can be.
    pub open spec fn steps_left(self) -> nat {
        match self {
            Stage::Planning => 3,
            Stage::Rendering { dpi, color } => 2,
            Stage::Submitting { format } => 1,
            Stage::Over => 0,
        }
    }
}

/// A job comes to an end: every reply and every rendering takes it on to a
/// stage that fewer steps are left from.
pub proof fn law_jobs_come_to_an_end(
    job: JobView,
    reply: Result<MessageView, Seq<char>>,
    rendered: Result<Vec<RenderedPage>, RenderError>,
)
    ensures
        job.stage is Planning || job.stage is Submitting ==> job.after_reply(reply).0.steps_left()
            < job.stage.steps_left(),
        job.stage matches Stage::Rendering { dpi, color } ==> job.after_rendering(
            rendered,
            dpi,
            color,
        ).0.steps_left() < job.stage.steps_left(),
{
}

/// Whether a step is what a job at a stage waits for.
pub open spec fn is_due(stage: Stage, step: StepView) -> bool {
    match step {
        StepView::Send(request) => stage is Planning || stage is Submitting,
        StepView::Rasterise { dpi } => stage is Rendering && stage->dpi == dpi,
        StepView::Finished { submitted, format } => stage is Over,
        StepView::Failed(error) => stage is Over,
    }
}

/// What a job asks for is what its stage waits for: after a request that it
/// sends it takes a reply, after pages that it asks for it takes pages, and
/// once it is over nothing.
pub proof fn law_steps_fit_their_stage(
    job: JobView,
    reply: Result<MessageView, Seq<char>>,
    rendered: Result<Vec<RenderedPage>, RenderError>,
    dpi: u32,
    color: ColorMode,
)
    ensures
        is_due(job.after_reply(reply).0, job.after_reply(reply).1),
        is_due(
            job.after_rendering(rendered, dpi, color).0,
            job.after_rendering(rendered, dpi, color).1,
        ),
        is_due(
            if job.first_step() is Send {
                Stage::Planning
            } else {
                Stage::Over
            },
            job.first_step(),
        ),
{
}

/// Whether a request's bytes read as a Print-Job for the printer at `uri`, with
/// this title, format and document.
pub open spec fn submits(
    request: Seq<u8>,
    uri: Seq<char>,
    title: Seq<char>,
    mime: Seq<char>,
    document: Seq<u8>,
) -> bool {
    let message = message_of(request)->Ok_0;
    &&& message_of(request) is Ok
    &&& message.code == 2
    &&& message.document == document
    &&& parsed_uri(uri) is Ok
    &&& says(message, "printer-uri"@, parsed_uri(uri)->Ok_0.text)
    &&& says(message, "document-format"@, mime)
    &&& says(message, "job-name"@, title)
    &&& says(message, "requesting-user-name"@, "inkdrop"@)
}

/// Whether a request's bytes read as a query that asks the printer at `uri` for
/// the attributes with these names.
pub open spec fn queries(request: Seq<u8>, uri: Seq<char>, names: Seq<Seq<char>>) -> bool {
    let message = message_of(request)->Ok_0;
    let asked = lookup(message.groups, 1, "requested-attributes"@);
    &&& message_of(request) is Ok
    &&& message.code == 11
    &&& parsed_uri(uri) is Ok
    &&& says(message, "printer-uri"@, parsed_uri(uri)->Ok_0.text)
    &&& asked is Some
    &&& asked->0 is Array
    &&& asked->0->items.len() == names.len()
    &&& forall|i: int| 0 <= i < names.len() ==> (#[trigger] asked->0->items[i]).text == names[i]
}

/// Where a job goes after a reply, by its stage: a plan for the PDF itself sends
/// that, one for a raster asks for pages at its resolution, a success ends the
/// job as finished in the format that was sent, and whatever fails ends it.
pub proof fn law_replies_lead_on(job: JobView, reply: Result<MessageView, Seq<char>>)
    ensures
        ({
            let (stage, step) = job.after_reply(reply);
            &&& reply is Err ==> stage == Stage::Over && step == StepView::Failed(
                PrintErrorView::Ipp(reply->Err_0),
            )
            &&& reply is Ok && !(0 <= reply->Ok_0.code <= 2) ==> stage == Stage::Over && step
                is Failed && step->Failed_0 is Rejected
            &&& job.stage matches Stage::Submitting { format } ==> stage == Stage::Over && (step
                is Finished || step is Failed) && (step is Finished <==> reply is Ok && 0
                <= reply->Ok_0.code <= 2) && (step is Finished ==> step->Finished_format == format)
            &&& job.stage is Planning && reply is Ok ==> match plan(reply->Ok_0, job.forced) {
                Err(error) => stage == Stage::Over && step == StepView::Failed(error),
                Ok(PrintPlan::PwgRaster { dpi, color }) => stage == (Stage::Rendering {
                    dpi,
                    color,
                }) && step == (StepView::Rasterise { dpi }),
                Ok(PrintPlan::DirectPdf) => step is Send ==> stage == (Stage::Submitting {
                    format: DocumentFormat::Pdf,
                }),
            }
        }),
{
    if job.stage is Planning && reply is Ok {
        law_rejections(reply->Ok_0, job.forced);
    }
    if reply is Ok {
        law_rejections(reply->Ok_0, None);
    }
}

/// Where a job goes after rasterising: if that failed, it is over, with why;
/// else the raster is sent.
pub proof fn law_renderings_lead_on(
    job: JobView,
    rendered: Result<Vec<RenderedPage>, RenderError>,
    dpi: u32,
    color: ColorMode,
)
    ensures
        rendered matches Err(error) ==> job.after_rendering(rendered, dpi, color) == (
            Stage::Over,
            StepView::Failed(PrintErrorView::Render(error.message())),
        ),
        rendered is Ok ==> {
            let (stage, step) = job.after_rendering(rendered, dpi, color);
            &&& step is Send || step is Failed
            &&& step is Send ==> stage == (Stage::Submitting { format: DocumentFormat::PwgRaster })
            &&& step is Failed ==> stage == Stage::Over && step->Failed_0 is IppBuild
        },
{
}

/// A job is seen with all that it holds, and a step as what it asks for.
pub proof fn law_jobs_are_seen_whole(job: PrintJob, step: Step)
    ensures
        job@.uri == job.uri@,
        job@.title == job.title@,
        job@.forced == job.forced,
        job@.document == frozen_bytes(job.document),
        job@.stage == job.stage,
        match step {
            Step::Send(request) => step@ == StepView::Send(request@),
            Step::Rasterise { dpi } => step@ == (StepView::Rasterise { dpi }),
            Step::Finished { submitted, format } => step@ == (StepView::Finished {
                submitted: submitted@,
                format,
            }),
            Step::Failed(error) => step@ == StepView::Failed(error@),
        },
{
}

/// A reply is seen as the message that it is, or as why there is none.
pub proof fn law_replies_are_seen_whole(reply: Result<Message, String>)
    ensures
        reply is Ok ==> reply_view(reply) == Ok::<MessageView, Seq<char>>(reply->Ok_0@),
        reply is Err ==> reply_view(reply) == Err::<MessageView, Seq<char>>(reply->Err_0@),
{
}

} // verus!
