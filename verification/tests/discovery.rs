//! Printers found by mDNS and printers configured by URI.

use std::collections::hash_map::DefaultHasher;
use std::hash::{Hash, Hasher};

use inkdrop::discovery::{
    build_printer, configured_printer, display_name, finish_probe, handle_event, handle_resolved,
    merged_id, place_printer, remove_transport, upsert_transport, watch_configured, watch_parsed,
    write_authority, write_path, Address, MergeState, Notice, Outcome, Printer, Registry, Service,
    ServiceEvent, TransportSlots, Watch,
};
use inkdrop::printing::{PrintError, PrinterInfo};
use inkdrop::table::Table;
use inkdrop::uri::ParsedUri;

const IPP_SERVICE: &str = "_ipp._tcp.local.";
const IPPS_SERVICE: &str = "_ipps._tcp.local.";

fn addresses(ips: &str) -> Vec<Address> {
    ips.split(',')
        .filter(|ip| !ip.is_empty())
        .map(|ip| Address { text: ip.to_owned(), is_ipv4: !ip.contains(':') })
        .collect()
}

fn resolved(ty: &str, name: &str, host: &str, ips: &str, port: u16, txt: &[(&str, &str)]) -> Service {
    let get = |key: &str| txt.iter().find(|(k, _)| *k == key).map(|(_, v)| (*v).to_owned());
    Service {
        fullname: format!("{name}.{ty}"),
        host: host.to_owned(),
        port,
        addresses: addresses(ips),
        pdl: get("pdl"),
        rp: get("rp"),
        ty: get("ty"),
    }
}

fn office(ty: &str, port: u16, txt: &[(&str, &str)]) -> Service {
    resolved(ty, "Office Printer", "office.local.", "192.168.1.20", port, txt)
}

/// Process `events` as one browse task would, returning its fullname map and
/// what the events led to.
fn feed(
    events: Vec<ServiceEvent>,
    secure: bool,
    registry: &mut Registry,
    merge: &mut MergeState,
) -> (Table<String>, Vec<Outcome>) {
    let mut fullname_to_id = Table::new();
    let outcomes = events
        .into_iter()
        .map(|event| handle_event(event, secure, &mut fullname_to_id, registry, merge))
        .collect();
    (fullname_to_id, outcomes)
}

fn only_printer(registry: &Registry) -> &Printer {
    assert_eq!(registry.len(), 1);
    registry.at(0)
}

fn named(id: &str, uri: &str) -> Printer {
    Printer {
        id: id.to_owned(),
        name: "P".to_owned(),
        uri: uri.to_owned(),
        model: None,
        formats: vec!["PDF"],
    }
}

#[test]
fn display_name_is_the_instance_name() {
    assert_eq!(display_name("Cheap HP Printer._ipp._tcp.local."), "Cheap HP Printer");
    assert_eq!(display_name("bare"), "bare");
}

#[test]
fn display_names_may_be_empty() {
    assert_eq!(display_name(""), "");
    assert_eq!(display_name("._ipp._tcp.local."), "");
    assert_eq!(display_name("Büro.x"), "Büro");
}

#[test]
fn merged_ids_match_across_transports_but_not_hosts() {
    let ipp = office(IPP_SERVICE, 631, &[]);
    let ipps = office(IPPS_SERVICE, 443, &[]);
    let elsewhere = resolved(IPP_SERVICE, "Office Printer", "attic.local.", "192.168.1.21", 631, &[]);
    assert_eq!(merged_id(&ipp), merged_id(&ipps));
    assert_ne!(merged_id(&ipp), merged_id(&elsewhere));
}

#[test]
fn merged_ids_are_hashes_of_the_name_and_the_host() {
    for name in ["Office Printer", "", "Büro 🖨"] {
        let service = resolved(IPP_SERVICE, name, "office.local.", "", 631, &[]);
        let mut hasher = DefaultHasher::new();
        name.to_owned().hash(&mut hasher);
        "office.local.".to_owned().hash(&mut hasher);
        assert_eq!(merged_id(&service), format!("{:016x}", hasher.finish()));
    }
}

#[test]
fn builds_printers_from_resolved_services() {
    let info = resolved(
        IPP_SERVICE,
        "Office Printer",
        "office.local.",
        "fe80::1,192.168.1.20",
        631,
        &[("rp", "ipp/print"), ("ty", "LaserJet 9000")],
    );
    let printer = build_printer(&info, "id".to_owned(), vec!["PDF"]).unwrap();
    assert_eq!(printer.uri, "ipp://192.168.1.20:631/ipp/print", "IPv4 preferred");
    assert_eq!(printer.name, "Office Printer");
    assert_eq!(printer.model.as_deref(), Some("LaserJet 9000"));
    assert_eq!(printer.formats, ["PDF"]);

    let ipv6 = resolved(IPP_SERVICE, "P", "p.local.", "fe80::1", 8631, &[("rp", "/printers/q")]);
    let printer = build_printer(&ipv6, "id".to_owned(), Vec::new()).unwrap();
    assert_eq!(printer.uri, "ipp://[fe80::1]:8631/printers/q");
    assert_eq!(printer.model, None);

    let default_path = build_printer(&office(IPP_SERVICE, 631, &[]), "id".to_owned(), Vec::new()).unwrap();
    assert_eq!(default_path.uri, "ipp://192.168.1.20:631/ipp/print");

    let no_address = resolved(IPP_SERVICE, "P", "p.local.", "", 631, &[]);
    assert!(build_printer(&no_address, "id".to_owned(), Vec::new()).is_none());
}

#[test]
fn printers_need_a_uri() {
    let odd = office(IPP_SERVICE, 631, &[("rp", "not a path")]);
    assert!(build_printer(&odd, "id".to_owned(), Vec::new()).is_none());
    let fragment = office(IPP_SERVICE, 631, &[("rp", "ipp/print#top")]);
    let printer = build_printer(&fragment, "id".to_owned(), Vec::new()).unwrap();
    assert_eq!(printer.uri, "ipp://192.168.1.20:631/ipp/print");
    let slashes = office(IPP_SERVICE, 631, &[("rp", "///a//b")]);
    let printer = build_printer(&slashes, "id".to_owned(), Vec::new()).unwrap();
    assert_eq!(printer.uri, "ipp://192.168.1.20:631/a//b");
    let empty = office(IPP_SERVICE, 0, &[("rp", "")]);
    let printer = build_printer(&empty, "id".to_owned(), Vec::new()).unwrap();
    assert_eq!(printer.uri, "ipp://192.168.1.20:0/");

    let placed = place_printer(&empty, "id".to_owned(), vec!["URF"], "anywhere".to_owned());
    assert_eq!((placed.uri.as_str(), placed.name.as_str()), ("anywhere", "Office Printer"));
    assert_eq!(placed.formats, ["URF"]);
}

#[test]
fn authorities_and_paths_are_written_as_uris_require() {
    let found = addresses("10.0.0.1,::1");
    assert_eq!(write_authority(&found[0], 65535), "10.0.0.1:65535");
    assert_eq!(write_authority(&found[1], 80), "[::1]:80");
    assert_eq!(write_path(&None), "/ipp/print");
    assert_eq!(write_path(&Some("/".to_owned())), "/");
}

#[test]
fn pdl_listing_a_supported_format_adds_the_printer() {
    let (mut registry, mut merge) = (Registry::new(), MergeState::new());
    let info = office(IPP_SERVICE, 631, &[("pdl", "application/octet-stream, image/urf,application/pdf")]);

    let (remembered, outcomes) = feed(vec![ServiceEvent::Resolved(info)], false, &mut registry, &mut merge);

    let printer = only_printer(&registry);
    assert_eq!(printer.formats, ["PDF", "URF"]);
    assert_eq!(printer.uri, "ipp://192.168.1.20:631/ipp/print");
    assert_eq!(remembered.get("Office Printer._ipp._tcp.local."), Some(&printer.id));
    assert!(outcomes[0].published && outcomes[0].probe.is_none());
}

#[test]
fn pdl_without_a_supported_format_removes_the_printer() {
    let (mut registry, mut merge) = (Registry::new(), MergeState::new());
    let supported = office(IPP_SERVICE, 631, &[("pdl", "application/pdf")]);
    let unsupported = office(IPP_SERVICE, 631, &[("pdl", "application/postscript")]);

    let (remembered, _) = feed(
        vec![ServiceEvent::Resolved(supported), ServiceEvent::Resolved(unsupported)],
        false,
        &mut registry,
        &mut merge,
    );

    assert_eq!(registry.len(), 0);
    assert_eq!(merge.len(), 0);
    assert_eq!(remembered.len(), 1, "still remembered, for a later removal event");
}

#[test]
fn services_without_an_address_are_ignored() {
    let (mut registry, mut merge) = (Registry::new(), MergeState::new());
    let info = resolved(IPP_SERVICE, "P", "p.local.", "", 631, &[("pdl", "application/pdf")]);
    let (remembered, outcomes) = feed(vec![ServiceEvent::Resolved(info)], false, &mut registry, &mut merge);
    assert_eq!(registry.len(), 0);
    assert_eq!(remembered.len(), 0);
    assert!(!outcomes[0].published);
}

#[test]
fn printers_without_pdl_are_probed_over_ipp() {
    let (mut registry, mut merge) = (Registry::new(), MergeState::new());
    let info = resolved(IPP_SERVICE, "Quiet", "quiet.local.", "127.0.0.1", 8631, &[("rp", "ipp/print")]);

    let (remembered, outcomes) = feed(vec![ServiceEvent::Resolved(info)], false, &mut registry, &mut merge);

    assert_eq!(registry.len(), 0, "not listed before it answered");
    assert_eq!(remembered.len(), 1);
    let asked = outcomes.into_iter().next().unwrap().probe.unwrap();
    assert_eq!(asked.uri, "ipp://127.0.0.1:8631/ipp/print");
    assert!(asked.formats.is_empty());
    assert!(finish_probe(asked, vec!["PWG-Raster"], false, &mut registry, &mut merge));
    assert_eq!(only_printer(&registry).formats, ["PWG-Raster"]);
}

#[test]
fn probed_printers_without_a_supported_format_are_left_out() {
    let (mut registry, mut merge) = (Registry::new(), MergeState::new());
    let info = resolved(IPP_SERVICE, "PS", "ps.local.", "127.0.0.1", 8631, &[("pdl", "")]);

    let found = handle_resolved(&info, false, &mut registry, &mut merge);

    assert!(!found.published);
    let asked = found.probe.unwrap();
    assert!(!finish_probe(asked, Vec::new(), false, &mut registry, &mut merge));
    assert_eq!(registry.len(), 0);
    assert_eq!(merge.len(), 0);
}

#[test]
fn secure_transport_is_preferred_and_removals_fall_back() {
    let (mut registry, mut merge) = (Registry::new(), MergeState::new());
    let pdl = [("pdl", "application/pdf")];

    let (mut insecure, _) = feed(
        vec![ServiceEvent::Resolved(office(IPP_SERVICE, 631, &pdl))],
        false,
        &mut registry,
        &mut merge,
    );
    let (mut secure, _) = feed(
        vec![ServiceEvent::Resolved(office(IPPS_SERVICE, 443, &pdl))],
        true,
        &mut registry,
        &mut merge,
    );
    assert_eq!(only_printer(&registry).uri, "ipp://192.168.1.20:443/ipp/print");

    let removed = ServiceEvent::Removed("Office Printer._ipps._tcp.local.".to_owned());
    handle_event(removed, true, &mut secure, &mut registry, &mut merge);
    assert_eq!(only_printer(&registry).uri, "ipp://192.168.1.20:631/ipp/print");

    let unknown = ServiceEvent::Removed("Other._ipp._tcp.local.".to_owned());
    handle_event(unknown, false, &mut insecure, &mut registry, &mut merge);
    handle_event(ServiceEvent::Other, false, &mut insecure, &mut registry, &mut merge);
    assert_eq!(registry.len(), 1);

    let removed = ServiceEvent::Removed("Office Printer._ipp._tcp.local.".to_owned());
    handle_event(removed, false, &mut insecure, &mut registry, &mut merge);
    assert_eq!(registry.len(), 0);
    assert_eq!(merge.len(), 0);
}

#[test]
fn removing_an_untracked_printer_does_nothing() {
    let mut registry = Registry::new();
    let known = remove_transport("missing", true, &mut registry, &mut MergeState::new());
    assert!(!known);
    assert_eq!(registry.len(), 0);
}

#[test]
fn the_secure_transport_is_kept_whichever_comes_last() {
    let (mut registry, mut merge) = (Registry::new(), MergeState::new());
    upsert_transport("a".to_owned(), true, named("a", "ipp://s/"), &mut registry, &mut merge);
    upsert_transport("a".to_owned(), false, named("a", "ipp://i/"), &mut registry, &mut merge);
    upsert_transport("b".to_owned(), false, named("b", "ipp://b/"), &mut registry, &mut merge);
    assert_eq!(registry.get("a").unwrap().uri, "ipp://s/");
    assert!(remove_transport("a", false, &mut registry, &mut merge));
    assert_eq!(registry.get("a").unwrap().uri, "ipp://s/");
    assert!(remove_transport("a", true, &mut registry, &mut merge));
    assert!(registry.get("a").is_none());
    assert_eq!(only_printer(&registry).uri, "ipp://b/", "other printers stay");

    let none = TransportSlots { secure: None, insecure: None };
    assert!(none.best().is_none());
}

fn answering(name: Option<&str>, formats: Vec<&'static str>) -> Result<PrinterInfo, PrintError> {
    Ok(PrinterInfo {
        name: name.map(str::to_owned),
        model: Some("Fake Model 1".to_owned()),
        formats,
    })
}

#[test]
fn configured_uris_must_be_ipp_with_a_host() {
    for uri in ["http://printer/ipp/print", "ipp:/ipp/print", "not a uri"] {
        assert!(watch_configured(uri).is_none(), "{uri} should be rejected immediately");
    }
}

#[test]
fn configured_uris_are_kept_as_they_are_read() {
    let uri = "ipp://localhost:1631/ipp/print";
    let watch = watch_configured(uri).unwrap();
    assert_eq!((watch.uri.as_str(), watch.host.as_str()), (uri, "localhost"));
    let mut hasher = DefaultHasher::new();
    uri.to_owned().hash(&mut hasher);
    assert_eq!(watch.id, format!("configured-{:016x}", hasher.finish()));
    assert_eq!(watch.last_problem, None);

    let parsed = |scheme: Option<&str>, host: Option<&str>| {
        Ok(ParsedUri {
            text: "text".to_owned(),
            scheme: scheme.map(str::to_owned),
            host: host.map(str::to_owned),
        })
    };
    assert!(watch_parsed(uri, parsed(Some("ipps"), Some("h"))).is_none());
    assert!(watch_parsed(uri, parsed(None, Some("h"))).is_none());
    assert!(watch_parsed(uri, parsed(Some("ipp"), None)).is_none());
    assert!(watch_parsed(uri, Err("no".to_owned())).is_none());
    let watch = watch_parsed(uri, parsed(Some("ipp"), Some("h"))).unwrap();
    assert_eq!((watch.uri.as_str(), watch.host.as_str()), ("text", "h"));
}

#[test]
fn configured_printers_come_and_go_with_the_printer() {
    let uri = "ipp://127.0.0.1:8631/ipp/print";
    let mut registry = Registry::new();
    let mut watch = watch_configured(uri).unwrap();

    let notice = watch.probed(answering(Some("Fake Printer"), vec!["PDF"]), &mut registry);
    assert!(matches!(notice, Notice::Added));
    let printer = only_printer(&registry);
    assert!(printer.id.starts_with("configured-"), "{}", printer.id);
    assert_eq!(printer.name, "Fake Printer");
    assert_eq!(printer.model.as_deref(), Some("Fake Model 1"));
    assert_eq!(printer.formats, ["PDF"]);
    assert_eq!(printer.uri, uri);
    let notice = watch.probed(answering(Some("Fake Printer"), vec!["PDF"]), &mut registry);
    assert!(matches!(notice, Notice::Unchanged));

    let notice = watch.probed(Err(PrintError::Ipp("offline".to_owned())), &mut registry);
    assert!(matches!(notice, Notice::Unavailable(problem) if problem == "IPP request failed: offline"));
    assert_eq!(registry.len(), 0);
    let notice = watch.probed(Err(PrintError::Ipp("offline".to_owned())), &mut registry);
    assert!(matches!(notice, Notice::Unchanged), "noted once");

    let notice = watch.probed(answering(Some("Fake Printer"), Vec::new()), &mut registry);
    let expected = "printer does not handle a supported format";
    assert!(matches!(notice, Notice::Unavailable(problem) if problem == expected));
    assert_eq!(registry.len(), 0, "no supported format");

    let notice = watch.probed(answering(None, vec!["PWG-Raster"]), &mut registry);
    assert!(matches!(notice, Notice::Added));
    assert_eq!(only_printer(&registry).name, "127.0.0.1", "falls back to the host");
    assert_eq!(watch.last_problem, None);
}

#[test]
fn configured_printers_leave_others_alone() {
    let (mut registry, mut merge) = (Registry::new(), MergeState::new());
    let info = office(IPP_SERVICE, 631, &[("pdl", "application/pdf")]);
    feed(vec![ServiceEvent::Resolved(info)], false, &mut registry, &mut merge);
    let mut watch = watch_configured("ipp://a/").unwrap();
    watch.probed(answering(Some("A"), vec!["URF"]), &mut registry);
    assert_eq!(registry.len(), 2);
    watch.probed(Err(PrintError::UnsupportedFormat), &mut registry);
    assert_eq!(only_printer(&registry).name, "Office Printer");
}

#[test]
fn configured_printers_are_named_by_what_they_answer() {
    let watch = Watch {
        uri: "ipp://h/".to_owned(),
        host: "h".to_owned(),
        id: "i".to_owned(),
        last_problem: None,
    };
    let printer = configured_printer(&watch, answering(Some("N"), vec!["PDF"])).unwrap();
    assert_eq!((printer.id.as_str(), printer.name.as_str()), ("i", "N"));
    let problem = configured_printer(&watch, Err(PrintError::UnsupportedFormat)).unwrap_err();
    assert_eq!(problem, "printer does not support PDF, directly or via raster conversion");
}
