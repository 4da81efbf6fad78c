//! The simulated printer: what it answers, keeps and decodes.

use std::path::Path;

use inkdrop::message::{Message, JOB_ATTRIBUTES, OPERATION_ATTRIBUTES, PRINTER_ATTRIBUTES};
use inkdrop::pdf::RenderedPage;
use inkdrop::points::Points;
use inkdrop::printing::{
    plan_print, plan_request, probe_printer, submit, submit_request, text, DocumentFormat, PrintError,
    PrintPlan, StatusCode,
};
use inkdrop::raster::{encode, page_header, ColorMode, HEADER_LEN};
use inkdrop::simulator::ipp_server::{
    get_printer_attributes, handle, print_job, process_read, Content, Entry, PendingJob, Received,
    Response, SimulatedPrinter, Work,
};
use inkdrop::simulator::jobs::{extension_for, slug, JobStore, SavedJob};
use inkdrop::simulator::raster::{decode, DecodeError, Page};
use ipp::model::{IppVersion, Operation};
use ipp::request::IppRequestResponse;

const URI: &str = "ipp://localhost:9631/ipp/print";

fn page(width_px: u32, height_px: u32, rgb: Vec<u8>) -> RenderedPage {
    let points = |value: f32| Points { bits: value.to_bits() };
    RenderedPage { width_px, height_px, width_pts: points(612.0), height_pts: points(792.0), rgb }
}

fn answered(received: Received) -> Message {
    match received {
        Received::Answer(response) => Message::read(response.to_bytes()).unwrap(),
        Received::Job(_) => panic!("expected an answer"),
    }
}

fn saved(preview_error: Option<&str>) -> SavedJob {
    SavedJob {
        path: "jobs/0001-job.pwg".to_owned(),
        preview_pages: 1,
        preview_error: preview_error.map(str::to_owned),
    }
}

/// A page as it stands in a document that isn't compressed.
fn plain(width: u32, height: u32, bits: u32, bytes_per_line: u32, colorspace: u32, data: &[u8]) -> Vec<u8> {
    let mut bytes = vec![0; HEADER_LEN];
    let words = [(372, width), (376, height), (384, bits), (392, bytes_per_line), (400, colorspace)];
    for (offset, word) in words {
        bytes[offset..offset + 4].copy_from_slice(&word.to_be_bytes());
    }
    bytes.extend_from_slice(data);
    bytes
}

fn document(pages: &[Vec<u8>]) -> Vec<u8> {
    let mut bytes = b"RaS2".to_vec();
    for page in pages {
        bytes.extend_from_slice(page);
    }
    bytes
}

/// A file's path in a directory, as the platform writes it.
fn in_dir(dir: &str, file: &str) -> String {
    Path::new(dir).join(file).to_str().unwrap().to_owned()
}

fn failure(result: Result<Vec<Page>, DecodeError>) -> DecodeError {
    result.err().expect("should fail")
}

#[test]
fn the_printer_describes_itself() {
    let message = answered(handle(plan_request(URI).unwrap()));
    assert_eq!((message.code, message.request_id), (0, 1));
    let printer = |name: &str| text(&message, PRINTER_ATTRIBUTES, name).unwrap();
    assert_eq!(printer("printer-name"), "Inkdrop Simulated Printer");
    assert_eq!(printer("printer-state"), "3");
    assert_eq!(printer("printer-state-reasons"), "none");
    assert_eq!(printer("printer-is-accepting-jobs"), "true");
    assert_eq!(printer("document-format-supported"), "[image/pwg-raster, image/urf]");
    assert_eq!(printer("document-format-default"), "image/pwg-raster");
    assert_eq!(printer("pwg-raster-document-resolution-supported"), "300x300in");
    assert_eq!(printer("pwg-raster-document-type-supported"), "[srgb_8, sgray_8]");
    let charset = text(&message, OPERATION_ATTRIBUTES, "attributes-charset");
    assert_eq!(charset.as_deref(), Some("utf-8"));
}

#[test]
fn the_printer_is_sent_color_rasters() {
    let message = answered(handle(plan_request(URI).unwrap()));
    let plan = plan_print(&message, None).unwrap();
    assert_eq!(plan, PrintPlan::PwgRaster { dpi: 300, color: ColorMode::Srgb8 });
    let info = probe_printer(&message).unwrap();
    assert_eq!(info.name.as_deref(), Some("Inkdrop Simulated Printer"));
    assert_eq!(info.formats, ["URF", "PWG-Raster"]);
}

#[test]
fn responses_carry_the_number_of_their_request() {
    for number in [0, 1, -1, i32::MAX, i32::MIN] {
        let message = Message::read(get_printer_attributes(number).to_bytes()).unwrap();
        assert_eq!(message.request_id, number);
    }
}

#[test]
fn other_operations_get_a_generic_success() {
    for operation in [Operation::ValidateJob, Operation::GetJobs, Operation::CancelJob] {
        let request =
            IppRequestResponse::new(IppVersion::v1_1(), operation, URI.parse().ok()).unwrap();
        let message = answered(handle(request.to_bytes().to_vec()));
        assert_eq!(message.code, 0);
        assert_eq!(message.groups.len(), 1);
    }
}

#[test]
fn unreadable_requests_are_bad_requests() {
    for body in [Vec::new(), b"garbage".to_vec(), vec![1, 1, 0, 2, 0, 0, 0, 1, 1, 0x44, 0]] {
        let message = answered(handle(body));
        assert_eq!((message.code, message.request_id), (0x400, 0));
    }
}

#[test]
fn jobs_arrive_as_they_were_sent() {
    let request = submit_request(URI, b"RaS2", DocumentFormat::PwgRaster, "Quarterly").unwrap();
    let Received::Job(job) = handle(request) else { panic!("expected a job") };
    assert_eq!(job.request_id, 1);
    assert_eq!(job.document_format, "image/pwg-raster");
    assert_eq!(job.job_name.as_deref(), Some("Quarterly"));
    assert_eq!(job.document, b"RaS2");
}

#[test]
fn jobs_need_neither_format_nor_name() {
    let request = IppRequestResponse::new(IppVersion::v1_1(), Operation::PrintJob, None).unwrap();
    let Received::Job(job) = handle(request.to_bytes().to_vec()) else { panic!("expected a job") };
    assert_eq!(job.document_format, "application/octet-stream");
    assert_eq!(job.job_name, None);
    assert!(job.document.is_empty());
}

#[test]
fn kept_jobs_are_completed() {
    for kept in [Ok(saved(None)), Err("disk full".to_owned())] {
        let message = Message::read(print_job(42, 7, kept).to_bytes()).unwrap();
        assert_eq!((message.code, message.request_id), (0, 7));
        let submitted = submit(&message).unwrap();
        assert_eq!(submitted.job_id, Some(42));
        assert_eq!(submitted.job_state.as_deref(), Some("Completed"));
        assert_eq!(submitted.job_state_reasons, ["job-completed-successfully"]);
    }
}

#[test]
fn malformed_rasters_are_rejected() {
    let message = Message::read(print_job(42, 7, Ok(saved(Some("truncated")))).to_bytes()).unwrap();
    assert_eq!(message.code, 0x411);
    assert_eq!(text(&message, JOB_ATTRIBUTES, "job-id").as_deref(), Some("42"));
    assert!(text(&message, JOB_ATTRIBUTES, "job-state").is_none());
    match submit(&message) {
        Err(PrintError::Rejected { status, message: None }) => {
            assert_eq!(status, StatusCode::new(0x411));
        }
        other => panic!("expected a rejection, got {other:?}"),
    }
}

#[test]
fn responses_hold_every_kind_of_value() {
    let entry = |name: &str, content: Content| Entry { name: name.to_owned(), content };
    let words = |list: &[&str]| list.iter().map(|word| (*word).to_owned()).collect();
    let response = Response {
        status: 0x509,
        request_id: -3,
        tag: JOB_ATTRIBUTES,
        entries: vec![
            entry("a", Content::Text("späße".to_owned())),
            entry("b", Content::Keywords(words(&["x", "y", "z"]))),
            entry("c", Content::Mimes(words(&["text/plain"]))),
            entry("d", Content::Enum(-2)),
            entry("e", Content::Integer(i32::MIN)),
            entry("f", Content::Boolean(false)),
            entry("g", Content::Resolution { cross_feed: -1, feed: 7, units: -4 }),
        ],
    };
    let message = Message::read(response.to_bytes()).unwrap();
    assert_eq!((message.code, message.request_id), (0x509, -3));
    let found: Vec<String> = ["a", "b", "c", "d", "e", "f", "g"]
        .iter()
        .map(|name| text(&message, JOB_ATTRIBUTES, name).unwrap())
        .collect();
    let expected = ["späße", "[x, y, z]", "text/plain", "-2", "-2147483648", "false", "-1x7cm"];
    assert_eq!(found, expected);
}

#[test]
fn extensions_follow_the_document_format() {
    assert_eq!(extension_for("image/pwg-raster"), "pwg");
    assert_eq!(extension_for("Image/URF"), "urf");
    assert_eq!(extension_for("APPLICATION/PDF"), "pdf");
    assert_eq!(extension_for("application/octet-stream"), "bin");
    assert_eq!(extension_for(""), "bin");
}

#[test]
fn stems_are_safe_file_names() {
    assert_eq!(slug("Quarterly Report.pdf"), "Quarterly-Report-pdf");
    assert_eq!(slug("../../etc/passwd"), "etc-passwd");
    assert_eq!(slug("--a--"), "a");
    assert_eq!(slug("späße"), "sp--e");
    assert_eq!(slug(""), "job");
    assert_eq!(slug("🖨🖨"), "job");
    assert_eq!(slug(&"x".repeat(50)), "x".repeat(40));
    assert_eq!(slug(&format!("{} y", "x".repeat(39))), format!("{}-", "x".repeat(39)));
}

#[test]
fn jobs_are_kept_by_number_and_name() {
    let store = JobStore::new("jobs".to_owned());
    let plan = store.save(7, "application/pdf", Some("My Letter"), b"%PDF");
    assert_eq!(plan.path, in_dir("jobs", "0007-My-Letter.pdf"));
    assert!(plan.preview.is_none());
    let kept = plan.finish(None);
    assert_eq!(kept.path, in_dir("jobs", "0007-My-Letter.pdf"));
    assert_eq!((kept.preview_pages, kept.preview_error), (0, None));

    assert_eq!(store.save(12345, "x", None, b"").path, in_dir("jobs", "12345-job.bin"));
    assert_eq!(store.save(-3, "image/urf", None, b"").path, in_dir("jobs", "-003-job.urf"));
    assert_eq!(JobStore::new("/".to_owned()).save(1, "x", None, b"").path, in_dir("/", "0001-job.bin"));
    assert_eq!(JobStore::new(String::new()).save(1, "x", None, b"").path, in_dir("", "0001-job.bin"));
}

#[test]
fn job_files_lie_right_in_their_directory() {
    for dir in ["jobs", "/var/jobs/", "C:", "..", "späße", r"\\?\C:\a\..\b"] {
        let store = JobStore::new(dir.to_owned());
        let plan = store.save(1, "image/urf", Some("../../etc/passwd"), b"");
        assert_eq!(plan.path, in_dir(dir, "0001-etc-passwd.urf"));
        assert_eq!(plan.picture_path(3), in_dir(dir, "0001-etc-passwd-page3.png"));
        assert_eq!(Path::new(&plan.path).file_name().unwrap(), "0001-etc-passwd.urf");
    }
}

#[test]
fn raster_jobs_are_previewed() {
    let store = JobStore::new("jobs".to_owned());
    let pages = [page(1, 1, vec![1, 2, 3]), page(2, 1, vec![4, 5, 6, 7, 8, 9])];
    let data = encode(&pages, 300, ColorMode::Srgb8);

    let plan = store.save(3, "Image/PWG-Raster", Some("r"), &data);

    assert_eq!(plan.path, in_dir("jobs", "0003-r.pwg"));
    assert_eq!(plan.picture_path(0), in_dir("jobs", "0003-r-page0.png"));
    assert_eq!(plan.picture_path(12), in_dir("jobs", "0003-r-page12.png"));
    let Some(Ok(previews)) = &plan.preview else { panic!("expected pages") };
    assert_eq!(previews[1].rgb, [4, 5, 6, 7, 8, 9]);
    let kept = plan.finish(None);
    assert_eq!((kept.preview_pages, kept.preview_error), (2, None));

    let kept = store.save(3, "image/pwg-raster", Some("r"), &data).finish(Some("disk full".to_owned()));
    assert_eq!(kept.preview_pages, 2);
    assert_eq!(kept.preview_error.as_deref(), Some("failed to write preview PNG: disk full"));
}

#[test]
fn raster_jobs_that_cannot_be_decoded_say_why() {
    let store = JobStore::new("jobs".to_owned());
    let kept = store.save(1, "image/pwg-raster", None, b"not a raster").finish(None);
    assert_eq!(kept.preview_pages, 0);
    let expected = "not a PWG-Raster file (missing 'RaS2' sync word)";
    assert_eq!(kept.preview_error.as_deref(), Some(expected));
    let message = Message::read(print_job(1, 1, Ok(kept)).to_bytes()).unwrap();
    assert_eq!(message.code, 0x411);
}

#[test]
fn encoded_documents_decode_to_their_pages() {
    let mut rgb = Vec::new();
    for i in 0..300u32 * 7 {
        let value = if i % 90 < 40 { 255 } else { (i * 13 % 251) as u8 };
        rgb.extend_from_slice(&[value, value / 2, 255 - value]);
    }
    let pages = [page(300, 7, rgb.clone()), page(1, 1, vec![0, 0, 0])];
    let decoded = decode(&encode(&pages, 300, ColorMode::Srgb8)).unwrap();
    assert_eq!(decoded.len(), 2);
    assert_eq!((decoded[0].width, decoded[0].height), (300, 7));
    assert_eq!(decoded[0].rgb, rgb);
    assert_eq!(decoded[1].rgb, [0, 0, 0]);

    let gray = decode(&encode(&pages, 300, ColorMode::Sgray8)).unwrap();
    assert_eq!(gray[0].rgb.len(), rgb.len());
    let luma = |rgb: &[u8]| (rgb[0] as u32 * 299 + rgb[1] as u32 * 587 + rgb[2] as u32 * 114) / 1000;
    for (decoded, pixel) in gray[0].rgb.chunks(3).zip(rgb.chunks(3)) {
        assert_eq!(decoded, [luma(pixel) as u8; 3]);
    }
}

#[test]
fn plain_documents_are_decoded_too() {
    // Lines of four bytes, of which the pixel takes three.
    let color = plain(1, 2, 8, 4, 19, &[1, 2, 3, 0, 4, 5, 6, 0]);
    let gray = plain(2, 1, 8, 2, 18, &[7, 8]);
    let mut data = document(&[color, gray]);
    data.extend_from_slice(b"too short for a header");
    let pages = decode(&data).unwrap();
    assert_eq!(pages.len(), 2);
    assert_eq!((pages[0].width, pages[0].height), (1, 2));
    assert_eq!(pages[0].rgb, [1, 2, 3, 4, 5, 6]);
    assert_eq!(pages[1].rgb, [7, 7, 7, 8, 8, 8]);
}

#[test]
fn documents_that_are_no_rasters_are_errors() {
    let error = failure(decode(b"RaS"));
    assert_eq!(error, DecodeError::BadSync);
    assert_eq!(failure(decode(b"RaS3....")), DecodeError::BadSync);
    assert_eq!(error.to_string(), "not a PWG-Raster file (missing 'RaS2' sync word)");

    let error = failure(decode(b"RaS2"));
    assert_eq!(error, DecodeError::TruncatedHeader);
    assert_eq!(error.to_string(), "truncated page header");
    assert_eq!(failure(decode(&document(&[vec![0; 1795]]))), DecodeError::TruncatedHeader);

    let error = failure(decode(&document(&[plain(2, 2, 8, 6, 19, &[9; 11])])));
    assert_eq!(error, DecodeError::TruncatedData { expected: 12, got: 11 });
    assert_eq!(error.to_string(), "truncated page data: expected 12 bytes, got 11");

    let error = failure(decode(&document(&[plain(1, 1, 8, 3, 20, &[1, 2, 3])])));
    assert_eq!(error, DecodeError::UnsupportedColorspace(20));
    assert_eq!(error.to_string(), "unsupported colorspace code 20");
    let deep = failure(decode(&document(&[plain(1, 1, 16, 6, 19, &[0; 6])])));
    assert_eq!(deep, DecodeError::UnsupportedColorspace(19));
}

#[test]
fn lines_too_short_for_their_pixels_are_errors() {
    let short = failure(decode(&document(&[plain(2, 1, 8, 5, 19, &[0; 5])])));
    assert_eq!(short, DecodeError::TruncatedData { expected: 6, got: 5 });
    let empty = failure(decode(&document(&[plain(2, 1, 8, 0, 19, &[])])));
    assert_eq!(empty, DecodeError::TruncatedData { expected: 6, got: 0 });
    let huge = failure(decode(&document(&[plain(1, u32::MAX, 8, u32::MAX, 18, &[])])));
    let expected = u32::MAX as u64 * u32::MAX as u64;
    assert_eq!(huge, DecodeError::TruncatedData { expected, got: 0 });
}

#[test]
fn compressed_pages_cut_short_are_errors() {
    let pages = [page(4, 1, vec![1, 2, 3, 4, 5, 6, 7, 8, 9, 10, 11, 12])];
    let data = encode(&pages, 300, ColorMode::Srgb8);
    assert!(decode(&data).is_ok());
    let error = failure(decode(&data[..data.len() - 3]));
    assert_eq!(error, DecodeError::TruncatedData { expected: 12, got: 11 });
    let header = page_header(&pages[0], 300, ColorMode::Srgb8, 1);
    let error = failure(decode(&document(&[header])));
    assert_eq!(error, DecodeError::TruncatedData { expected: 12, got: 0 });
}

#[test]
fn what_was_read_is_handled_as_it_arrived() {
    let body = submit_request(URI, b"%PDF", DocumentFormat::Pdf, "Letter").unwrap();
    let Received::Job(job) = process_read(Message::read(body)) else { panic!("expected a job") };
    assert_eq!((job.job_name.as_deref(), &job.document[..]), (Some("Letter"), &b"%PDF"[..]));
    let message = answered(process_read(Err("cut short".to_owned())));
    assert_eq!((message.code, message.request_id), (0x400, 0));
}

/// Hand a document to the printer.
fn submitted(printer: &mut SimulatedPrinter, data: &[u8]) -> PendingJob {
    let body = submit_request(URI, data, DocumentFormat::PwgRaster, "a b").unwrap();
    match printer.receive(Message::read(body)) {
        Work::Keep(pending) => pending,
        Work::Answer(_) => panic!("expected a job"),
    }
}

#[test]
fn jobs_number_upward_accepted_or_not() {
    let mut printer = SimulatedPrinter::new("jobs".to_owned());
    let good = encode(&[page(1, 1, vec![1, 2, 3])], 300, ColorMode::Srgb8);

    let first = submitted(&mut printer, &good);
    assert_eq!((first.job_id, first.plan.path.as_str()), (1, &in_dir("jobs", "0001-a-b.pwg")[..]));
    let (kept, response) = first.kept(Ok(None));
    assert_eq!(kept.unwrap().preview_pages, 1);
    let message = Message::read(response.to_bytes()).unwrap();
    assert_eq!(submit(&message).unwrap().job_id, Some(1));

    let second = submitted(&mut printer, b"not a raster");
    assert_eq!((second.job_id, second.plan.path.as_str()), (2, &in_dir("jobs", "0002-a-b.pwg")[..]));
    let (kept, response) = second.kept(Ok(None));
    assert!(kept.unwrap().preview_error.is_some());
    let message = Message::read(response.to_bytes()).unwrap();
    assert_eq!(message.code, 0x411);
    assert_eq!(text(&message, JOB_ATTRIBUTES, "job-id").as_deref(), Some("2"));

    // What is no job gets no number.
    assert!(matches!(printer.receive(Err("cut short".to_owned())), Work::Answer(_)));
    let query = Message::read(plan_request(URI).unwrap());
    assert!(matches!(printer.receive(query), Work::Answer(_)));

    let third = submitted(&mut printer, &good);
    assert_eq!(third.job_id, 3);
    let (kept, response) = third.kept(Err("disk full".to_owned()));
    assert_eq!(kept.err().as_deref(), Some("disk full"));
    let message = Message::read(response.to_bytes()).unwrap();
    assert_eq!(submit(&message).unwrap().job_id, Some(3));
    assert_eq!(printer.next_job_id, 4);
}

#[test]
fn jobs_number_around() {
    let mut printer = SimulatedPrinter::new("jobs".to_owned());
    printer.next_job_id = i32::MAX;
    assert_eq!(submitted(&mut printer, b"").job_id, i32::MAX);
    assert_eq!(submitted(&mut printer, b"").job_id, i32::MIN);
}

#[test]
fn pictures_that_cannot_be_written_reject_their_job() {
    let mut printer = SimulatedPrinter::new("jobs".to_owned());
    let good = encode(&[page(1, 1, vec![1, 2, 3])], 300, ColorMode::Srgb8);
    let (kept, response) = submitted(&mut printer, &good).kept(Ok(Some("disk full".to_owned())));
    let expected = "failed to write preview PNG: disk full";
    assert_eq!(kept.unwrap().preview_error.as_deref(), Some(expected));
    assert_eq!(Message::read(response.to_bytes()).unwrap().code, 0x411);
}

#[test]
fn joined_compressed_documents_decode_to_the_pages_of_both() {
    let a = encode(&[page(1, 1, vec![1, 2, 3]), page(1, 1, vec![4, 5, 6])], 300, ColorMode::Srgb8);
    let b = encode(&[page(2, 1, vec![7, 7, 7, 9, 9, 9])], 300, ColorMode::Sgray8);
    let pages = decode(&[&a[..], &b[4..]].concat()).unwrap();
    let found: Vec<&[u8]> = pages.iter().map(|page| &page.rgb[..]).collect();
    assert_eq!(found, [&[1, 2, 3][..], &[4, 5, 6], &[7, 7, 7, 9, 9, 9]]);
}

#[test]
fn joined_plain_documents_decode_to_the_pages_of_both() {
    let a = document(&[plain(1, 1, 8, 3, 19, &[1, 2, 3])]);
    let b = document(&[plain(2, 1, 8, 2, 18, &[4, 5]), plain(1, 1, 8, 1, 18, &[6])]);
    let joined = [&a[..], &b[4..]].concat();
    let pages = decode(&joined).unwrap();
    let found: Vec<&[u8]> = pages.iter().map(|page| &page.rgb[..]).collect();
    assert_eq!(found, [&[1, 2, 3][..], &[4, 4, 4, 5, 5, 5], &[6, 6, 6]]);

    let broken = document(&[plain(1, 1, 8, 3, 20, &[1, 2, 3])]);
    let error = failure(decode(&[&joined[..], &broken[4..]].concat()));
    assert_eq!(error, DecodeError::UnsupportedColorspace(20));
}

#[test]
fn rests_too_short_for_a_header_change_nothing() {
    let data = document(&[plain(1, 1, 8, 3, 19, &[1, 2, 3])]);
    for rest in [&[][..], &[9], &[0; 1795]] {
        let pages = decode(&[&data[..], rest].concat()).unwrap();
        assert_eq!(pages.len(), 1);
        assert_eq!(pages[0].rgb, [1, 2, 3]);
    }
}
