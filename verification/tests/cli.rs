//! The `inkdrop-print` command's rules.

use inkdrop::cli::{job_title, log_filter, summary, Format};
use inkdrop::printing::{DocumentFormat, StatusCode, Submitted};

const URI: &str = "ipp://127.0.0.1:631/ipp/print";

fn submitted(job_id: Option<i32>, job_state: Option<&str>, reasons: &[&str]) -> Submitted {
    Submitted {
        status: StatusCode::new(0),
        job_id,
        job_state: job_state.map(str::to_owned),
        job_state_reasons: reasons.iter().map(|reason| (*reason).to_owned()).collect(),
    }
}

#[test]
fn accepted_jobs_are_summed_up() {
    let job = submitted(Some(42), Some("Pending"), &["none"]);
    let line = summary(URI, &job, DocumentFormat::Pdf);
    assert_eq!(line, format!("{URI}: job 42 accepted (application/pdf), state Pending [none]"));

    let sparse = submitted(None, None, &[]);
    let line = summary(URI, &sparse, DocumentFormat::Pdf);
    assert_eq!(line, format!("{URI}: job ? accepted (application/pdf), state unknown"));

    let several = submitted(Some(-7), Some("99"), &["job-incoming", "job-queued"]);
    let line = summary("p", &several, DocumentFormat::PwgRaster);
    let expected = "p: job -7 accepted (image/pwg-raster), state 99 [job-incoming, job-queued]";
    assert_eq!(line, expected);
}

#[test]
fn formats_other_than_auto_are_forced() {
    assert_eq!(Format::Auto.forced(), None);
    assert_eq!(Format::Pdf.forced(), Some(DocumentFormat::Pdf));
    assert_eq!(Format::PwgRaster.forced(), Some(DocumentFormat::PwgRaster));
}

#[test]
fn titles_default_to_the_file_name() {
    let name = || Some("letter.pdf".to_owned());
    assert_eq!(job_title(Some("Quarterly".to_owned()), name()), "Quarterly");
    assert_eq!(job_title(None, name()), "letter.pdf");
    assert_eq!(job_title(None, None), "document.pdf");
}

#[test]
fn verbosity_sets_the_log_level() {
    assert_eq!(log_filter(0), "inkdrop=info,inkdrop_print=info");
    assert_eq!(log_filter(1), "inkdrop=debug,inkdrop_print=debug");
    assert_eq!(log_filter(2), "inkdrop=trace,inkdrop_print=trace");
    assert_eq!(log_filter(255), "inkdrop=trace,inkdrop_print=trace");
}
