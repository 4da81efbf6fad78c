//! The web server's rules.

use bytes::Bytes;
use inkdrop::discovery::{Printer, Registry};
use inkdrop::message::Message;
use inkdrop::pipeline::{Stage, Step};
use inkdrop::printing::{PrintError, StatusCode};
use inkdrop::server::{
    accept_upload, answer, configured_printers, find_printer, start_print, to_views, Field, Upload,
    UploadStep,
};
use inkdrop::simulator::ipp_server::{handle, Received};
use ipp::attribute::IppAttribute;
use ipp::model::{DelimiterTag, IppVersion, StatusCode as IppStatus};
use ipp::request::IppRequestResponse;
use ipp::value::{BoundedString, IppValue};

fn printer(id: &str, name: &str, uri: &str, formats: Vec<&'static str>) -> Printer {
    Printer {
        id: id.to_owned(),
        name: name.to_owned(),
        uri: uri.to_owned(),
        model: Some("Model".to_owned()),
        formats,
    }
}

fn registry(printers: Vec<Printer>) -> Registry {
    let mut registry = Registry::new();
    for printer in printers {
        registry.insert(printer.id.clone(), printer);
    }
    registry
}

fn field(content_type: Option<&str>, file_name: Option<&str>) -> Result<Option<Field>, String> {
    Ok(Some(Field {
        content_type: content_type.map(str::to_owned),
        file_name: file_name.map(str::to_owned),
    }))
}

/// What a printer that lists `format` says about itself, or a bare status.
fn response(status: IppStatus, format: Option<&str>) -> Result<Message, String> {
    let mut response = IppRequestResponse::new_response(IppVersion::v1_1(), status, 1).unwrap();
    if let Some(format) = format {
        let value = IppValue::MimeMediaType(BoundedString::new(format).unwrap());
        let attribute = IppAttribute::with_name("document-format-supported", value).unwrap();
        response.attributes_mut().add(DelimiterTag::PrinterAttributes, attribute);
    }
    Message::read(response.to_bytes().to_vec())
}

#[test]
fn configured_printers_are_comma_separated() {
    let found = configured_printers(" ipp://a/ipp/print, ,ipp://b:1631/x,");
    assert_eq!(found, ["ipp://a/ipp/print", "ipp://b:1631/x"]);
    assert!(configured_printers("").is_empty());
}

#[test]
fn configured_printers_are_trimmed_of_all_white_space() {
    assert_eq!(configured_printers("\t\u{a0}a b\u{2003},\n,c\u{3000}"), ["a b", "c"]);
    assert!(configured_printers(",,,").is_empty());
    assert_eq!(configured_printers("\u{200b}"), ["\u{200b}"], "no white space");
}

#[test]
fn views_are_sorted_by_name() {
    let printers = registry(vec![
        printer("2", "Zebra", "ipp://z/ipp/print", vec!["PDF"]),
        printer("1", "Alpha", "ipp://a/ipp/print", vec!["URF", "PWG-Raster"]),
    ]);
    let views = to_views(&printers);
    assert_eq!(views.len(), 2);
    assert_eq!((views[0].id.as_str(), views[0].name.as_str()), ("1", "Alpha"));
    assert_eq!(views[0].uri, "ipp://a/ipp/print");
    assert_eq!(views[0].model.as_deref(), Some("Model"));
    assert_eq!(views[0].formats, ["URF", "PWG-Raster"]);
    assert_eq!((views[1].id.as_str(), views[1].name.as_str()), ("2", "Zebra"));
    assert_eq!(views[1].uri, "ipp://z/ipp/print");
    assert_eq!(views[1].model.as_deref(), Some("Model"));
    assert_eq!(views[1].formats, ["PDF"]);
}

#[test]
fn views_are_sorted_as_strings_are() {
    let names = ["b", "", "Ab", "é", "a", "B", "ab", "🖨", "a"];
    let printers = names.iter().enumerate();
    let printers = printers.map(|(i, name)| printer(&i.to_string(), name, "ipp://a/", vec!["PDF"]));
    let views = to_views(&registry(printers.collect()));
    let found: Vec<&str> = views.iter().map(|view| view.name.as_str()).collect();
    let mut sorted = names.to_vec();
    sorted.sort();
    assert_eq!(found, sorted);
    assert!(to_views(&Registry::new()).is_empty());
}

#[test]
fn unknown_printers_are_not_found() {
    let printers = registry(vec![printer("p", "Fake", "ipp://127.0.0.1:1/ipp/print", vec!["PDF"])]);
    let reply = find_printer(&printers, "nope").unwrap_err();
    assert_eq!((reply.status, reply.text.as_str()), (404, "printer not found"));
    assert_eq!(find_printer(&printers, "p").unwrap().name, "Fake");
}

#[test]
fn uploads_must_be_a_pdf() {
    let reply = accept_upload(field(Some("text/plain"), Some("a.txt"))).unwrap_err();
    assert_eq!((reply.status, reply.text.as_str()), (415, "only application/pdf is supported"));
    assert_eq!(accept_upload(field(None, None)).unwrap_err().status, 415);
    let parameter = field(Some("application/pdf; x=y"), None);
    assert_eq!(accept_upload(parameter).unwrap_err().status, 415);
}

#[test]
fn malformed_uploads_are_bad_requests() {
    let reply = accept_upload(Ok(None)).unwrap_err();
    assert_eq!((reply.status, reply.text.as_str()), (400, "no file provided"));
    let reply = accept_upload(Err("no boundary at all".to_owned())).unwrap_err();
    assert_eq!((reply.status, reply.text.as_str()), (400, "no boundary at all"));

    let printer = printer("p", "Fake", "ipp://127.0.0.1:1/ipp/print", vec!["PDF"]);
    let reply = start_print(&printer, "t".to_owned(), Err("file cut short".to_owned())).err().unwrap();
    assert_eq!((reply.status, reply.text.as_str()), (400, "file cut short"));
}

#[test]
fn printing_a_pdf_sends_it_to_the_printer() {
    let printer = printer("p", "Fake", "ipp://127.0.0.1:631/ipp/print", vec!["PDF"]);
    for (name, expected) in [(Some("report.pdf"), "report.pdf"), (None, "document.pdf")] {
        let title = accept_upload(field(Some("application/pdf"), name)).unwrap();
        let (mut job, step) = start_print(&printer, title, Ok(Bytes::from_static(b"%PDF"))).unwrap();
        assert!(matches!(step, Step::Send(_)));
        assert_eq!(job.stage, Stage::Planning);

        let step = job.replied(response(IppStatus::SuccessfulOk, Some("application/pdf")));
        let Step::Send(request) = step else { panic!("expected a request, got {step:?}") };
        let Received::Job(received) = handle(request) else { panic!("expected a job") };
        assert_eq!(received.job_name.as_deref(), Some(expected));
        assert_eq!(received.document_format, "application/pdf");
        assert_eq!(received.document, b"%PDF");

        let step = job.replied(response(IppStatus::SuccessfulOk, None));
        assert!(matches!(step, Step::Finished { .. }), "{step:?}");
    }
    assert_eq!(answer(Ok(())).unwrap(), 204);
}

#[test]
fn printer_failures_map_to_http_errors() {
    let printer = printer("p", "Fake", "ipp://127.0.0.1:631/ipp/print", vec!["URF"]);
    let start = || start_print(&printer, "a.pdf".to_owned(), Ok(Bytes::from_static(b"%PDF"))).unwrap();

    let (mut job, _) = start();
    let step = job.replied(response(IppStatus::SuccessfulOk, Some("image/urf")));
    let Step::Failed(error) = step else { panic!("expected a failure, got {step:?}") };
    let reply = answer(Err(error)).unwrap_err();
    assert_eq!((reply.status, reply.text.as_str()), (422, "printer no longer supports PDF"));

    let (mut job, _) = start();
    let step = job.replied(response(IppStatus::SuccessfulOk, Some("application/pdf")));
    assert!(matches!(step, Step::Send(_)));
    let step = job.replied(response(IppStatus::ServerErrorBusy, None));
    let Step::Failed(error) = step else { panic!("expected a failure, got {step:?}") };
    let reply = answer(Err(error)).unwrap_err();
    assert_eq!((reply.status, reply.text.as_str()), (502, "printer rejected the job"));
}

#[test]
fn every_other_failure_is_a_bad_gateway() {
    let failures = [
        PrintError::InvalidUri("x".to_owned()),
        PrintError::Ipp("x".to_owned()),
        PrintError::IppBuild("x".to_owned()),
        PrintError::Render(inkdrop::pdf::RenderError::Pdfium("x".to_owned())),
        PrintError::Rejected { status: StatusCode::new(0x507), message: None },
    ];
    for failure in failures {
        assert_eq!(answer(Err(failure)).unwrap_err().status, 502);
    }
}

fn upload_for(id: &str) -> (Upload, UploadStep) {
    let uri = "ipp://127.0.0.1:631/ipp/print";
    Upload::open(&registry(vec![printer("p", "Fake", uri, vec!["PDF"])]), id)
}

/// The answer that an upload ends with.
fn answered(next: (Upload, UploadStep)) -> (u16, String) {
    match next {
        (Upload::Over, UploadStep::Answer(reply)) => (reply.status, reply.text),
        (upload, _) => panic!("expected an answer, got as far as {upload:?}"),
    }
}

#[test]
fn uploads_for_unknown_printers_are_not_read() {
    assert_eq!(answered(upload_for("nope")), (404, "printer not found".to_owned()));
    let (upload, step) = upload_for("p");
    assert!(matches!(upload, Upload::Opening { .. }));
    assert!(matches!(step, UploadStep::ReadField));
}

#[test]
fn only_pdfs_are_read_to_their_end() {
    let read = |found| upload_for("p").0.field_read(found);
    let refused = (415, "only application/pdf is supported".to_owned());
    assert_eq!(answered(read(field(Some("text/plain"), Some("a.txt")))), refused);
    assert_eq!(answered(read(field(None, Some("a.pdf")))), refused);
    assert_eq!(answered(read(Ok(None))), (400, "no file provided".to_owned()));
    assert_eq!(answered(read(Err("cut short".to_owned()))), (400, "cut short".to_owned()));

    let (upload, step) = read(field(Some("application/pdf"), Some("a.pdf")));
    assert!(matches!(upload, Upload::Reading { .. }));
    assert!(matches!(step, UploadStep::ReadDocument));
    let next = upload.document_read(Err("cut shorter".to_owned()));
    assert_eq!(answered(next), (400, "cut shorter".to_owned()));
}

#[test]
fn uploaded_pdfs_are_printed_and_answered() {
    let print = || {
        let (upload, _) = upload_for("p").0.field_read(field(Some("application/pdf"), Some("a.pdf")));
        upload.document_read(Ok(Bytes::from_static(b"%PDF")))
    };
    let (upload, step) = print();
    let UploadStep::Print { job, step } = step else { panic!("expected a job, got {upload:?}") };
    assert_eq!((job.uri.as_str(), job.title.as_str()), ("ipp://127.0.0.1:631/ipp/print", "a.pdf"));
    assert_eq!((&job.document[..], job.forced, job.stage), (&b"%PDF"[..], None, Stage::Planning));
    assert!(matches!(step, Step::Send(_)));
    assert_eq!(answered(upload.printed(Ok(()))), (204, String::new()));

    let next = print().0.printed(Err(PrintError::UnsupportedFormat));
    assert_eq!(answered(next), (422, "printer no longer supports PDF".to_owned()));
    let next = print().0.printed(Err(PrintError::Ipp("x".to_owned())));
    assert_eq!(answered(next), (502, "printer rejected the job".to_owned()));
}
