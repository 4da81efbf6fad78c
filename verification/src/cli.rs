//! The rules of the `inkdrop-print` command.

use vstd::prelude::*;

use crate::printing::{DocumentFormat, Submitted, SubmittedView};
use crate::text::{integer, push_separated, separated, signed_decimal};
use crate::uri::text_of;

verus! {

/// The document format that the command is told to send.
#[derive(Clone, Copy, Debug, PartialEq, Eq, Structural)]
pub enum Format {
    /// What the printer advertises, preferring PDF.
    Auto,
    /// PDF, even if the printer doesn't advertise it.
    Pdf,
    /// PWG-Raster, even if the printer doesn't advertise it.
    PwgRaster,
}

impl Format {
    /// The format that is forced, if any.
    pub open spec fn forced_format(self) -> Option<DocumentFormat> {
        match self {
            Format::Auto => None,
            Format::Pdf => Some(DocumentFormat::Pdf),
            Format::PwgRaster => Some(DocumentFormat::PwgRaster),
        }
    }

    /// The format that is forced, if any.
    pub fn forced(self) -> (format: Option<DocumentFormat>)
        ensures
            format == self.forced_format(),
    {
        match self {
            Format::Auto => None,
            Format::Pdf => Some(DocumentFormat::Pdf),
            Format::PwgRaster => Some(DocumentFormat::PwgRaster),
        }
    }
}

/// The job's title: the one that was given, else the file's name.
pub open spec fn title(given: Option<Seq<char>>, file_name: Option<Seq<char>>) -> Seq<char> {
    match given {
        Some(title) => title,
        None => match file_name {
            Some(name) => name,
            None => "document.pdf"@,
        },
    }
}

/// The job's title (see [`title`]).
pub fn job_title(given: Option<String>, file_name: Option<String>) -> (job_title: String)
    ensures
        job_title@ == title(text_of(given), text_of(file_name)),
{
    match given {
        Some(title) => title,
        None => match file_name {
            Some(name) => name,
            None => "document.pdf".to_owned(),
        },
    }
}

/// The least severe level that is logged.
pub open spec fn level(verbose: u8) -> Seq<char> {
    if verbose == 0 {
        "info"@
    } else if verbose == 1 {
        "debug"@
    } else {
        "trace"@
    }
}

/// What is logged, by how often `-v` was given.
pub fn log_filter(verbose: u8) -> (filter: String)
    ensures
        filter@ == "inkdrop="@ + level(verbose) + ",inkdrop_print="@ + level(verbose),
{
    let level = if verbose == 0 {
        "info"
    } else if verbose == 1 {
        "debug"
    } else {
        "trace"
    };
    "inkdrop=".to_owned().concat(level).concat(",inkdrop_print=").concat(level)
}

/// The line that reports an accepted job.
pub open spec fn report(
    printer: Seq<char>,
    submitted: SubmittedView,
    format: DocumentFormat,
) -> Seq<char> {
    printer + ": job "@ + match submitted.job_id {
        Some(id) => signed_decimal(id as int),
        None => "?"@,
    } + " accepted ("@ + format.mime() + "), state "@ + match submitted.job_state {
        Some(state) => state,
        None => "unknown"@,
    } + if submitted.job_state_reasons.len() == 0 {
        ""@
    } else {
        " ["@ + separated(submitted.job_state_reasons, ", "@) + "]"@
    }
}

/// The line that reports an accepted job (see [`report`]).
pub fn summary(printer: &str, submitted: &Submitted, format: DocumentFormat) -> (line: String)
    ensures
        line@ == report(printer@, submitted@, format),
{
    let id = match submitted.job_id {
        Some(id) => integer(id),
        None => "?".to_owned(),
    };
    let state = match &submitted.job_state {
        Some(state) => state.as_str(),
        None => "unknown",
    };
    let mut reasons = String::new();
    if submitted.job_state_reasons.len() > 0 {
        reasons.append(" [");
        push_separated(&mut reasons, &submitted.job_state_reasons, ", ");
        reasons.append("]");
    }
    proof {
        reveal_strlit("");
        assert(reasons@ =~= if submitted@.job_state_reasons.len() == 0 {
            ""@
        } else {
            " ["@ + separated(submitted@.job_state_reasons, ", "@) + "]"@
        });
    }
    printer.to_owned().concat(": job ").concat(id.as_str()).concat(" accepted (").concat(
        format.mime_type(),
    ).concat("), state ").concat(state).concat(reasons.as_str())
}

/// A job is titled as it is told to be, else by its file's name, else
/// `document.pdf`; and the format is forced that is asked for.
pub proof fn law_titles_and_formats(
    given: Option<Seq<char>>,
    file_name: Option<Seq<char>>,
    format: Format,
)
    ensures
        given is Some ==> title(given, file_name) == given->0,
        given is None && file_name is Some ==> title(given, file_name) == file_name->0,
        given is None && file_name is None ==> title(given, file_name) == "document.pdf"@,
        format.forced_format() is None <==> format == Format::Auto,
        format.forced_format() == Some(DocumentFormat::Pdf) <==> format == Format::Pdf,
        format.forced_format() == Some(DocumentFormat::PwgRaster) <==> format == Format::PwgRaster,
{
}

/// Once verbose is debug, more is trace, and not at all is info.
pub proof fn law_levels(verbose: u8)
    ensures
        level(verbose) == "info"@ <==> verbose == 0,
        level(verbose) == "debug"@ <==> verbose == 1,
        level(verbose) == "trace"@ <==> verbose >= 2,
{
    reveal_strlit("info");
    reveal_strlit("debug");
    reveal_strlit("trace");
    assert("info"@.len() == 4 && "debug"@[0] == 'd' && "trace"@[0] == 't' && "debug"@.len() == 5
        && "trace"@.len() == 5);
}

/// The report of an accepted job names the printer, the job's number or a
/// question mark, the format that was sent, and the state or that it isn't
/// known, in this order; then in brackets the reasons, if there are any, with
/// commas between them.
pub proof fn law_reports_say_what_was_accepted(
    printer: Seq<char>,
    submitted: SubmittedView,
    format: DocumentFormat,
)
    ensures
        ({
            let number = if submitted.job_id is Some {
                signed_decimal(submitted.job_id->0 as int)
            } else {
                seq!['?']
            };
            let mime = if format == DocumentFormat::Pdf {
                "application/pdf"@
            } else {
                "image/pwg-raster"@
            };
            let state = if submitted.job_state is Some {
                submitted.job_state->0
            } else {
                "unknown"@
            };
            let line = printer + ": job "@ + number + " accepted ("@ + mime + "), state "@ + state;
            let reasons = submitted.job_state_reasons;
            &&& reasons.len() == 0 ==> report(printer, submitted, format) == line
            &&& reasons.len() == 1 ==> report(printer, submitted, format) == line + seq![' ', '[']
                + reasons[0] + seq![']']
            &&& reasons.len() > 1 ==> report(printer, submitted, format) == line + seq![' ', '[']
                + separated(reasons.drop_last(), ", "@) + seq![',', ' '] + reasons.last() + seq![
                ']',
            ]
        }),
{
    reveal_strlit("");
    reveal_strlit("?");
    reveal_strlit(" [");
    reveal_strlit("]");
    reveal_strlit(", ");
    let number = if submitted.job_id is Some {
        signed_decimal(submitted.job_id->0 as int)
    } else {
        seq!['?']
    };
    let state = if submitted.job_state is Some {
        submitted.job_state->0
    } else {
        "unknown"@
    };
    assert("?"@ =~= seq!['?']);
    assert(" ["@ =~= seq![' ', '[']);
    assert("]"@ =~= seq![']']);
    assert(", "@ =~= seq![',', ' ']);
    let line = printer + ": job "@ + number + " accepted ("@ + format.mime() + "), state "@ + state;
    let reasons = submitted.job_state_reasons;
    if reasons.len() == 0 {
        assert(line + ""@ =~= line);
    } else if reasons.len() == 1 {
        assert(line + (" ["@ + reasons[0] + "]"@) =~= line + " ["@ + reasons[0] + "]"@);
    } else {
        let before = separated(reasons.drop_last(), ", "@);
        assert(line + (" ["@ + (before + ", "@ + reasons.last()) + "]"@) =~= line + " ["@ + before
            + ", "@ + reasons.last() + "]"@);
    }
}

} // verus!
