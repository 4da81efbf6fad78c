//! Which printers are listed: those found by browsing mDNS and those that are
//! configured by URI, as long as they handle a supported format.

use std::collections::hash_map::DefaultHasher;
use std::hash::Hasher;

use vstd::arithmetic::power::{lemma_pow1, lemma_pow_adds, pow};
use vstd::prelude::*;
use vstd::std_specs::hash::DefaultHasherAdditionalSpecFns;
use vstd::string::StringSliceAdditionalSpecFns;
use vstd::utf8::encode_utf8;

use crate::printing::{PrintError, PrintErrorView, PrinterInfo, PrinterInfoView};
use crate::raster::{labels, law_labels_are_of_what_is_listed, matching_labels};
use crate::table::Table;
use crate::text::{
    chars, decimal, equal_ignoring_case, hexadecimal, is_trim_start, law_decimals_read_back,
    law_hexadecimals_read_back, law_parts, law_trimmed_start, lemma_hexadecimal_len, number_of,
    parts, push_decimal, push_hexadecimal, same, split, str_texts, string, texts, trim, trimmed,
    trimmed_start,
};
use crate::uri::{build_uri, built_uri, parse_uri, parsed_uri, text_of, ParsedUri, UriView};

verus! {

/// A printer, discovered via mDNS or configured by URI, that handles at least
/// one of the supported formats.
#[derive(Debug)]
pub struct Printer {
    /// Stable key for this printer in the [`Registry`], shared by its `_ipp`
    /// and `_ipps` advertisements.
    pub id: String,
    /// Display name: the mDNS instance name, or for a configured printer its
    /// `printer-info` or `printer-name`.
    pub name: String,
    /// Where to send IPP requests, e.g. `ipp://192.168.1.20:631/ipp/print`.
    pub uri: String,
    /// Model, from the TXT "ty" key or `printer-make-and-model`, e.g.
    /// "DeskJet 3630 series".
    pub model: Option<String>,
    /// Display labels of the formats this printer accepts, e.g.
    /// `["PDF", "URF", "PWG-Raster"]`. Always non-empty for a printer in the
    /// registry.
    pub formats: Vec<&'static str>,
}

/// What a [`Printer`] holds.
#[verifier::ext_equal]
pub struct PrinterData {
    pub id: Seq<char>,
    pub name: Seq<char>,
    pub uri: Seq<char>,
    pub model: Option<Seq<char>>,
    pub formats: Seq<Seq<char>>,
}

impl View for Printer {
    type V = PrinterData;

    open spec fn view(&self) -> PrinterData {
        PrinterData {
            id: self.id@,
            name: self.name@,
            uri: self.uri@,
            model: text_of(self.model),
            formats: str_texts(self.formats@),
        }
    }
}

/// The same labels once more.
pub fn copy_labels(labels: &Vec<&'static str>) -> (copy: Vec<&'static str>)
    ensures
        copy@ == labels@,
{
    let mut copy: Vec<&'static str> = Vec::new();
    let mut i: usize = 0;
    while i < labels.len()
        invariant
            i <= labels@.len(),
            copy@ =~= labels@.take(i as int),
        decreases labels.len() - i,
    {
        copy.push(labels[i]);
        i = i + 1;
    }
    assert(labels@.take(i as int) =~= labels@);
    copy
}

/// The same text once more.
pub fn copy_text(text: &Option<String>) -> (copy: Option<String>)
    ensures
        text_of(copy) == text_of(*text),
{
    match text {
        Some(text) => Some(text.clone()),
        None => None,
    }
}

impl Clone for Printer {
    fn clone(&self) -> (copy: Self)
        ensures
            copy@ == self@,
    {
        Printer {
            id: self.id.clone(),
            name: self.name.clone(),
            uri: self.uri.clone(),
            model: copy_text(&self.model),
            formats: copy_labels(&self.formats),
        }
    }
}

/// The printers currently available, keyed by [`Printer::id`].
pub type Registry = Table<Printer>;

/// A printer can be advertised under both `_ipp._tcp` (plain) and
/// `_ipps._tcp` (TLS) as two separate mDNS service instances. These slots
/// track both for one physical printer so it shows up once, preferring the
/// encrypted transport when both are present.
pub struct TransportSlots {
    pub secure: Option<Printer>,
    pub insecure: Option<Printer>,
}

/// What a [`TransportSlots`] holds.
#[verifier::ext_equal]
pub struct SlotsData {
    pub secure: Option<PrinterData>,
    pub insecure: Option<PrinterData>,
}

/// What an optional printer holds.
pub open spec fn data_of(printer: Option<Printer>) -> Option<PrinterData> {
    match printer {
        Some(printer) => Some(printer@),
        None => None,
    }
}

impl View for TransportSlots {
    type V = SlotsData;

    open spec fn view(&self) -> SlotsData {
        SlotsData { secure: data_of(self.secure), insecure: data_of(self.insecure) }
    }
}

impl SlotsData {
    /// No transport.
    pub open spec fn none() -> SlotsData {
        SlotsData { secure: None, insecure: None }
    }

    /// The encrypted transport where there is one, else the plain one.
    pub open spec fn best(self) -> Option<PrinterData> {
        if self.secure is Some {
            self.secure
        } else {
            self.insecure
        }
    }

    /// With one of the transports replaced.
    pub open spec fn with(self, secure: bool, printer: Option<PrinterData>) -> SlotsData {
        if secure {
            SlotsData { secure: printer, ..self }
        } else {
            SlotsData { insecure: printer, ..self }
        }
    }
}

impl TransportSlots {
    /// The printer to list (see [`SlotsData::best`]).
    pub fn best(&self) -> (best: Option<&Printer>)
        ensures
            match best {
                Some(printer) => self@.best() == Some(printer@),
                None => self@.best() is None,
            },
    {
        match &self.secure {
            Some(printer) => Some(printer),
            None => match &self.insecure {
                Some(printer) => Some(printer),
                None => None,
            },
        }
    }
}

/// The transports of each printer found by mDNS, keyed by [`Printer::id`].
pub type MergeState = Table<TransportSlots>;

/// What is known of printers: those that are listed, and the transports of
/// those found by mDNS.
#[verifier::ext_equal]
pub struct Known {
    pub registry: Map<Seq<char>, PrinterData>,
    pub merge: Map<Seq<char>, SlotsData>,
}

/// The registry with `best` as the printer under `id`, or without one there.
pub open spec fn applied(
    registry: Map<Seq<char>, PrinterData>,
    id: Seq<char>,
    best: Option<PrinterData>,
) -> Map<Seq<char>, PrinterData> {
    match best {
        Some(printer) => registry.insert(id, printer),
        None => registry.remove(id),
    }
}

impl Known {
    /// The transports of the printer with an id.
    pub open spec fn slots(self, id: Seq<char>) -> SlotsData {
        if self.merge.contains_key(id) {
            self.merge[id]
        } else {
            SlotsData::none()
        }
    }

    /// With a printer found on one transport.
    pub open spec fn upserted(self, id: Seq<char>, secure: bool, printer: PrinterData) -> Known {
        let slots = self.slots(id).with(secure, Some(printer));
        Known {
            registry: applied(self.registry, id, slots.best()),
            merge: self.merge.insert(id, slots),
        }
    }

    /// Without a printer on one transport.
    pub open spec fn removed(self, id: Seq<char>, secure: bool) -> Known {
        let slots = self.slots(id).with(secure, None);
        if !self.merge.contains_key(id) {
            self
        } else {
            Known {
                registry: applied(self.registry, id, slots.best()),
                merge: if slots.best() is None {
                    self.merge.remove(id)
                } else {
                    self.merge.insert(id, slots)
                },
            }
        }
    }
}

/// List `best` as the printer under `id`, or list none there.
pub fn apply_best(id: String, best: Option<Printer>, registry: &mut Registry)
    requires
        old(registry).valid(),
    ensures
        final(registry).valid(),
        final(registry)@ == applied(old(registry)@, id@, data_of(best)),
{
    match best {
        Some(printer) => registry.insert(id, printer),
        None => {
            registry.remove(id.as_str());
        },
    }
}

/// Take in a printer found on one transport (see [`Known::upserted`]).
pub fn upsert_transport(
    id: String,
    secure: bool,
    printer: Printer,
    registry: &mut Registry,
    merge_state: &mut MergeState,
)
    requires
        old(registry).valid(),
        old(merge_state).valid(),
    ensures
        final(registry).valid(),
        final(merge_state).valid(),
        (Known { registry: final(registry)@, merge: final(merge_state)@ }) == (Known {
            registry: old(registry)@,
            merge: old(merge_state)@,
        }).upserted(id@, secure, printer@),
{
    let mut slots = match merge_state.remove(id.as_str()) {
        Some(slots) => slots,
        None => TransportSlots { secure: None, insecure: None },
    };
    if secure {
        slots.secure = Some(printer);
    } else {
        slots.insecure = Some(printer);
    }
    let best = match slots.best() {
        Some(printer) => Some(printer.clone()),
        None => None,
    };
    merge_state.insert(id.clone(), slots);
    assert(merge_state@ =~= old(merge_state)@.insert(id@, slots@));
    apply_best(id, best, registry);
}

/// Drop a printer from one transport (see [`Known::removed`]). Returns whether
/// it was known.
pub fn remove_transport(
    id: &str,
    secure: bool,
    registry: &mut Registry,
    merge_state: &mut MergeState,
) -> (known: bool)
    requires
        old(registry).valid(),
        old(merge_state).valid(),
    ensures
        final(registry).valid(),
        final(merge_state).valid(),
        (Known { registry: final(registry)@, merge: final(merge_state)@ }) == (Known {
            registry: old(registry)@,
            merge: old(merge_state)@,
        }).removed(id@, secure),
        known == old(merge_state)@.contains_key(id@),
{
    let mut slots = match merge_state.remove(id) {
        Some(slots) => slots,
        None => {
            assert(merge_state@ =~= old(merge_state)@);
            return false;
        },
    };
    if secure {
        slots.secure = None;
    } else {
        slots.insecure = None;
    }
    let best = match slots.best() {
        Some(printer) => Some(printer.clone()),
        None => None,
    };
    if best.is_some() {
        merge_state.insert(id.to_owned(), slots);
        assert(merge_state@ =~= old(merge_state)@.insert(id@, slots@));
    }
    apply_best(id.to_owned(), best, registry);
    true
}

/// One of a service's addresses.
pub struct Address {
    /// The address as text, without a port.
    pub text: String,
    /// Whether it is an IPv4 address.
    pub is_ipv4: bool,
}

/// What an [`Address`] holds.
#[verifier::ext_equal]
pub struct AddressData {
    pub text: Seq<char>,
    pub is_ipv4: bool,
}

impl View for Address {
    type V = AddressData;

    open spec fn view(&self) -> AddressData {
        AddressData { text: self.text@, is_ipv4: self.is_ipv4 }
    }
}

/// What each address holds.
pub open spec fn addresses_of(addresses: Seq<Address>) -> Seq<AddressData> {
    addresses.map_values(|address: Address| address@)
}

/// A resolved mDNS service.
pub struct Service {
    /// E.g. "Cheap HP Printer._ipp._tcp.local.".
    pub fullname: String,
    /// The host that offers it, e.g. "hp.local.".
    pub host: String,
    /// The port it listens on.
    pub port: u16,
    /// Where it can be reached.
    pub addresses: Vec<Address>,
    /// The TXT "pdl" key: the document formats it takes.
    pub pdl: Option<String>,
    /// The TXT "rp" key: its resource path.
    pub rp: Option<String>,
    /// The TXT "ty" key: its model.
    pub ty: Option<String>,
}

/// What a [`Service`] holds.
#[verifier::ext_equal]
pub struct ServiceData {
    pub fullname: Seq<char>,
    pub host: Seq<char>,
    pub port: u16,
    pub addresses: Seq<AddressData>,
    pub pdl: Option<Seq<char>>,
    pub rp: Option<Seq<char>>,
    pub ty: Option<Seq<char>>,
}

impl View for Service {
    type V = ServiceData;

    open spec fn view(&self) -> ServiceData {
        ServiceData {
            fullname: self.fullname@,
            host: self.host@,
            port: self.port,
            addresses: addresses_of(self.addresses@),
            pdl: text_of(self.pdl),
            rp: text_of(self.rp),
            ty: text_of(self.ty),
        }
    }
}

/// The instance name portion of a fullname: what stands before the first dot.
pub open spec fn instance_name(fullname: Seq<char>) -> Seq<char> {
    parts(fullname, '.').first()
}

/// What hashing texts writes to a hasher: each text's bytes, and a byte that
/// no text has.
pub open spec fn hashed(texts: Seq<Seq<char>>) -> Seq<Seq<u8>>
    decreases texts.len(),
{
    if texts.len() == 0 {
        Seq::empty()
    } else {
        hashed(texts.drop_last()).push(encode_utf8(texts.last())).push(seq![0xffu8])
    }
}

/// The hash of texts, in 16 hexadecimal digits.
pub open spec fn hash_of(texts: Seq<Seq<char>>) -> Seq<char> {
    hexadecimal(DefaultHasher::spec_finish(hashed(texts)) as nat, 16)
}

/// A stable id for the physical printer behind a service, independent of which
/// transport (`_ipp._tcp` vs `_ipps._tcp`) it was seen on: derived from its
/// instance name plus host.
pub open spec fn merged(service: ServiceData) -> Seq<char> {
    hash_of(seq![instance_name(service.fullname), service.host])
}

/// Splitting gives at least one part.
proof fn lemma_parts_nonempty(s: Seq<char>, separator: char)
    ensures
        parts(s, separator).len() > 0,
    decreases s.len(),
{
    if s.len() > 0 {
        lemma_parts_nonempty(s.drop_last(), separator);
    }
}

/// The instance name portion of the fullname (before the first dot), e.g.
/// "Cheap HP Printer" from "Cheap HP Printer._ipp._tcp.local.".
pub fn display_name(fullname: &str) -> (name: String)
    ensures
        name@ == instance_name(fullname@),
{
    let found = split(fullname, '.');
    proof {
        lemma_parts_nonempty(fullname@, '.');
        assert(texts(found@)[0] == found@[0]@);
    }
    found[0].clone()
}

/// Hash a text (see [`hashed`]).
fn write_text(hasher: &mut DefaultHasher, text: &str)
    ensures
        final(hasher)@ == old(hasher)@.push(encode_utf8(text@)).push(seq![0xffu8]),
{
    hasher.write(text.as_bytes());
    let end: [u8; 1] = [0xff];
    hasher.write(&end);
    assert(end@ =~= seq![0xffu8]);
}

/// A stable id for the physical printer behind `service` (see [`merged`]), so
/// the two transports of one printer merge, but two different printers that
/// happen to share a friendly name (on different hosts) don't.
pub fn merged_id(service: &Service) -> (id: String)
    ensures
        id@ == merged(service@),
{
    let name = display_name(service.fullname.as_str());
    let mut hasher = DefaultHasher::new();
    write_text(&mut hasher, name.as_str());
    write_text(&mut hasher, service.host.as_str());
    proof {
        reveal_with_fuel(hashed, 3);
        let all = seq![name@, service.host@];
        assert(all.drop_last() =~= seq![name@]);
        assert(seq![name@].drop_last() =~= Seq::empty());
        assert(hasher@ =~= hashed(all));
    }
    let mut id = String::new();
    push_hexadecimal(&mut id, hasher.finish(), 16);
    assert(id@ =~= merged(service@));
    id
}

/// The address to use: the first IPv4 one, else the first.
pub open spec fn chosen_address(addresses: Seq<AddressData>) -> Option<AddressData> {
    if first_ipv4(addresses) is Some {
        first_ipv4(addresses)
    } else if addresses.len() > 0 {
        Some(addresses.first())
    } else {
        None
    }
}

/// The first IPv4 address.
pub open spec fn first_ipv4(addresses: Seq<AddressData>) -> Option<AddressData>
    decreases addresses.len(),
{
    if addresses.len() == 0 {
        None
    } else if addresses.first().is_ipv4 {
        Some(addresses.first())
    } else {
        first_ipv4(addresses.drop_first())
    }
}

/// An address with a port, IPv6 addresses in brackets as a URI requires.
pub open spec fn authority(address: AddressData, port: u16) -> Seq<char> {
    if address.is_ipv4 {
        address.text + ":"@ + decimal(port as nat)
    } else {
        "["@ + address.text + "]:"@ + decimal(port as nat)
    }
}

/// The path of a printer's URI. The TXT "rp" key is the resource path without
/// its leading slash.
pub open spec fn resource_path(rp: Option<Seq<char>>) -> Seq<char> {
    "/"@ + trimmed_start(
        match rp {
            Some(path) => path,
            None => "ipp/print"@,
        },
        |c: char| c == '/',
    )
}

/// The printer behind a service, unless it has no address or no URI.
pub open spec fn service_printer(
    service: ServiceData,
    id: Seq<char>,
    formats: Seq<Seq<char>>,
) -> Option<PrinterData> {
    match chosen_address(service.addresses) {
        Some(address) => match built_uri(
            "ipp"@,
            authority(address, service.port),
            resource_path(service.rp),
        ) {
            Some(uri) => Some(printer_at(service, id, formats, uri)),
            None => None,
        },
        None => None,
    }
}

/// The printer behind a service, at a URI.
pub open spec fn printer_at(
    service: ServiceData,
    id: Seq<char>,
    formats: Seq<Seq<char>>,
    uri: Seq<char>,
) -> PrinterData {
    PrinterData {
        id,
        name: instance_name(service.fullname),
        uri,
        model: service.ty,
        formats,
    }
}

/// The address to use (see [`chosen_address`]).
pub fn choose_address(addresses: &Vec<Address>) -> (chosen: Option<&Address>)
    ensures
        match chosen {
            Some(address) => chosen_address(addresses_of(addresses@)) == Some(address@),
            None => chosen_address(addresses_of(addresses@)) is None,
        },
{
    let ghost all = addresses_of(addresses@);
    let mut i: usize = 0;
    assert(all.skip(0) =~= all);
    while i < addresses.len()
        invariant
            i <= addresses@.len(),
            all == addresses_of(addresses@),
            first_ipv4(all.skip(i as int)) == first_ipv4(all),
        decreases addresses.len() - i,
    {
        assert(all.skip(i as int).first() == addresses@[i as int]@);
        if addresses[i].is_ipv4 {
            return Some(&addresses[i]);
        }
        assert(all.skip(i as int).drop_first() =~= all.skip(i + 1));
        i = i + 1;
    }
    if addresses.len() > 0 {
        Some(&addresses[0])
    } else {
        None
    }
}

/// An address with a port (see [`authority`]).
pub fn write_authority(address: &Address, port: u16) -> (text: String)
    ensures
        text@ == authority(address@, port),
{
    let mut text = if address.is_ipv4 {
        address.text.clone().concat(":")
    } else {
        "[".to_owned().concat(address.text.as_str()).concat("]:")
    };
    push_decimal(&mut text, port as u64);
    text
}

/// The path of a printer's URI (see [`resource_path`]).
pub fn write_path(rp: &Option<String>) -> (path: String)
    ensures
        path@ == resource_path(text_of(*rp)),
{
    let given = match rp {
        Some(path) => path.as_str(),
        None => "ipp/print",
    };
    let cs = chars(given);
    let ghost drop = |c: char| c == '/';
    let mut from: usize = 0;
    assert(cs@.subrange(0, cs@.len() as int) =~= given@);
    while from < cs.len() && cs[from] == '/'
        invariant
            from <= cs@.len(),
            drop == (|c: char| c == '/'),
            trimmed_start(cs@.subrange(from as int, cs@.len() as int), drop) == trimmed_start(
                given@,
                drop,
            ),
        decreases cs.len() - from,
    {
        assert(cs@.subrange(from as int, cs@.len() as int).drop_first() =~= cs@.subrange(
            from + 1,
            cs@.len() as int,
        ));
        from = from + 1;
    }
    "/".to_owned().concat(string(cs.as_slice(), from, cs.len()).as_str())
}

/// The printer behind a service, at a URI (see [`printer_at`]).
pub fn place_printer(service: &Service, id: String, formats: Vec<&'static str>, uri: String)
    -> (printer: Printer)
    ensures
        printer@ == printer_at(service@, id@, str_texts(formats@), uri@),
{
    let name = display_name(service.fullname.as_str());
    let model = copy_text(&service.ty);
    Printer { id, name, uri, model, formats }
}

/// The printer behind a service (see [`service_printer`]). Where there is one
/// and its resource path has no `#`, its URI is `ipp://`, the address with the
/// port, and the path.
pub fn build_printer(service: &Service, id: String, formats: Vec<&'static str>) -> (printer: Option<
    Printer,
>)
    ensures
        data_of(printer) == service_printer(service@, id@, str_texts(formats@)),
        chosen_address(service@.addresses) is None ==> printer is None,
        printer is Some && !resource_path(service@.rp).contains('#') ==> printer->0@.uri == "ipp"@
            + "://"@ + authority(chosen_address(service@.addresses)->0, service@.port)
            + resource_path(service@.rp),
{
    proof {
        reveal_strlit("/");
    }
    let address = match choose_address(&service.addresses) {
        Some(address) => address,
        None => {
            return None;
        },
    };
    let authority = write_authority(address, service.port);
    let path = write_path(&service.rp);
    let uri = match build_uri("ipp", authority.as_str(), path.as_str()) {
        Some(uri) => uri,
        None => {
            return None;
        },
    };
    Some(place_printer(service, id, formats, uri))
}

/// The supported formats that a TXT "pdl" value lists.
pub open spec fn pdl_labels(pdl: Seq<char>) -> Seq<Seq<char>> {
    labels(parts(pdl, ',').map_values(|part: Seq<char>| trimmed(part)))
}

/// The supported formats that a TXT "pdl" value lists.
fn match_pdl(pdl: &str) -> (formats: Vec<&'static str>)
    ensures
        str_texts(formats@) == pdl_labels(pdl@),
{
    let found = split(pdl, ',');
    let ghost all = parts(pdl@, ',').map_values(|part: Seq<char>| trimmed(part));
    let mut listed: Vec<String> = Vec::new();
    let mut i: usize = 0;
    while i < found.len()
        invariant
            i <= found@.len(),
            texts(found@) == parts(pdl@, ','),
            all == parts(pdl@, ',').map_values(|part: Seq<char>| trimmed(part)),
            texts(listed@) =~= all.take(i as int),
        decreases found.len() - i,
    {
        let ghost before = texts(listed@);
        assert(texts(found@)[i as int] == found@[i as int]@);
        listed.push(trim(found[i].as_str()));
        assert(texts(listed@) =~= before.push(all[i as int]));
        i = i + 1;
    }
    assert(all.take(i as int) =~= all);
    let mut borrowed: Vec<&str> = Vec::new();
    let mut k: usize = 0;
    while k < listed.len()
        invariant
            k <= listed@.len(),
            texts(listed@) == all,
            str_texts(borrowed@) =~= all.take(k as int),
        decreases listed.len() - k,
    {
        let ghost before = str_texts(borrowed@);
        assert(texts(listed@)[k as int] == listed@[k as int]@);
        borrowed.push(listed[k].as_str());
        assert(str_texts(borrowed@) =~= before.push(all[k as int]));
        k = k + 1;
    }
    assert(all.take(k as int) =~= all);
    matching_labels(borrowed.into_iter())
}

/// What a resolved service leads to: whether it is remembered for a later
/// removal, the printer to ask over IPP if any, and whether the listed
/// printers were published anew.
pub struct Resolved {
    /// The service's fullname and the id of the printer behind it.
    pub remembered: Option<(String, String)>,
    /// A printer whose formats are not known yet: ask it, and hand the answer
    /// to [`finish_probe`].
    pub probe: Option<Printer>,
    /// Whether the printer's entry in the registry was set or removed.
    pub published: bool,
}

/// What a [`Resolved`] holds, and what is known after it.
#[verifier::ext_equal]
pub struct ResolvedData {
    pub known: Known,
    pub remembered: Option<(Seq<char>, Seq<char>)>,
    pub probe: Option<PrinterData>,
    pub published: bool,
}

/// What an optional pair of strings holds.
pub open spec fn pair_of(pair: Option<(String, String)>) -> Option<(Seq<char>, Seq<char>)> {
    match pair {
        Some((a, b)) => Some((a@, b@)),
        None => None,
    }
}

impl Known {
    /// After a service was resolved: a printer whose "pdl" lists a supported
    /// format is taken in, one whose "pdl" lists none is dropped, and one
    /// without a "pdl" is to be asked. A service that no URI can be built for
    /// changes nothing.
    pub open spec fn resolved(self, service: ServiceData, secure: bool) -> ResolvedData {
        let id = merged(service);
        let ignored = ResolvedData { known: self, remembered: None, probe: None, published: false };
        let remembered = ResolvedData { remembered: Some((service.fullname, id)), ..ignored };
        match service.pdl {
            Some(pdl) if pdl.len() > 0 => {
                let formats = pdl_labels(pdl);
                if formats.len() == 0 {
                    ResolvedData {
                        known: self.removed(id, secure),
                        published: self.merge.contains_key(id),
                        ..remembered
                    }
                } else {
                    match service_printer(service, id, formats) {
                        Some(printer) => ResolvedData {
                            known: self.upserted(id, secure, printer),
                            published: true,
                            ..remembered
                        },
                        None => ignored,
                    }
                }
            },
            _ => match service_printer(service, id, Seq::empty()) {
                Some(printer) => ResolvedData { probe: Some(printer), ..remembered },
                None => ignored,
            },
        }
    }
}

/// Handles one resolved mDNS service, updating the registry as needed (see
/// [`Known::resolved`]).
pub fn handle_resolved(
    service: &Service,
    secure: bool,
    registry: &mut Registry,
    merge_state: &mut MergeState,
) -> (resolved: Resolved)
    requires
        old(registry).valid(),
        old(merge_state).valid(),
    ensures
        final(registry).valid(),
        final(merge_state).valid(),
        (ResolvedData {
            known: Known { registry: final(registry)@, merge: final(merge_state)@ },
            remembered: pair_of(resolved.remembered),
            probe: data_of(resolved.probe),
            published: resolved.published,
        }) == (Known { registry: old(registry)@, merge: old(merge_state)@ }).resolved(
            service@,
            secure,
        ),
{
    let id = merged_id(service);
    let listed = match &service.pdl {
        Some(pdl) => !pdl.as_str().is_empty(),
        None => false,
    };
    if listed {
        let formats = match &service.pdl {
            Some(pdl) => match_pdl(pdl.as_str()),
            None => Vec::new(),
        };
        if formats.len() == 0 {
            let published = remove_transport(id.as_str(), secure, registry, merge_state);
            return Resolved {
                remembered: Some((service.fullname.clone(), id)),
                probe: None,
                published,
            };
        }
        match build_printer(service, id.clone(), formats) {
            Some(printer) => {
                upsert_transport(id.clone(), secure, printer, registry, merge_state);
                Resolved {
                    remembered: Some((service.fullname.clone(), id)),
                    probe: None,
                    published: true,
                }
            },
            None => Resolved { remembered: None, probe: None, published: false },
        }
    } else {
        // Some printers omit "pdl" even though they support one of our formats.
        let none: Vec<&'static str> = Vec::new();
        assert(str_texts(none@) =~= Seq::empty());
        match build_printer(service, id.clone(), none) {
            Some(printer) => Resolved {
                remembered: Some((service.fullname.clone(), id)),
                probe: Some(printer),
                published: false,
            },
            None => Resolved { remembered: None, probe: None, published: false },
        }
    }
}

impl Known {
    /// After a printer without a "pdl" was asked for its formats: it is taken
    /// in if it handles a supported one.
    pub open spec fn probed(
        self,
        printer: PrinterData,
        formats: Seq<Seq<char>>,
        secure: bool,
    ) -> Known {
        if formats.len() == 0 {
            self
        } else {
            self.upserted(printer.id, secure, PrinterData { formats, ..printer })
        }
    }
}

/// Take in a printer without a "pdl", now that its formats are known (see
/// [`Known::probed`]). Returns whether it was.
pub fn finish_probe(
    printer: Printer,
    formats: Vec<&'static str>,
    secure: bool,
    registry: &mut Registry,
    merge_state: &mut MergeState,
) -> (published: bool)
    requires
        old(registry).valid(),
        old(merge_state).valid(),
    ensures
        final(registry).valid(),
        final(merge_state).valid(),
        (Known { registry: final(registry)@, merge: final(merge_state)@ }) == (Known {
            registry: old(registry)@,
            merge: old(merge_state)@,
        }).probed(printer@, str_texts(formats@), secure),
        published == (formats@.len() > 0),
{
    if formats.len() == 0 {
        return false;
    }
    let id = printer.id.clone();
    let found = Printer {
        id: printer.id,
        name: printer.name,
        uri: printer.uri,
        model: printer.model,
        formats,
    };
    upsert_transport(id, secure, found, registry, merge_state);
    true
}

/// What mDNS browsing reports.
pub enum ServiceEvent {
    /// A service was resolved.
    Resolved(Service),
    /// The service with this fullname is gone.
    Removed(String),
    /// Anything else.
    Other,
}

/// What an event leads to: the printer to ask over IPP if any, and whether the
/// listed printers were published anew.
pub struct Outcome {
    /// A printer whose formats are not known yet: ask it, and hand the answer
    /// to [`finish_probe`].
    pub probe: Option<Printer>,
    /// Whether a printer's entry in the registry was set or removed.
    pub published: bool,
}

/// What is known and remembered, and what is asked for, after an event.
#[verifier::ext_equal]
pub struct OutcomeData {
    pub known: Known,
    pub remembered: Map<Seq<char>, Seq<char>>,
    pub probe: Option<PrinterData>,
    pub published: bool,
}

impl Known {
    /// After an event, where `remembered` holds the printer's id by the fullname
    /// of each service that is remembered. Only a service that is remembered
    /// can be removed: a removal gives only the fullname, not the id.
    pub open spec fn after(
        self,
        event: ServiceEvent,
        secure: bool,
        remembered: Map<Seq<char>, Seq<char>>,
    ) -> OutcomeData {
        let unchanged = OutcomeData { known: self, remembered, probe: None, published: false };
        match event {
            ServiceEvent::Resolved(service) => {
                let resolved = self.resolved(service@, secure);
                OutcomeData {
                    known: resolved.known,
                    remembered: match resolved.remembered {
                        Some((fullname, id)) => remembered.insert(fullname, id),
                        None => remembered,
                    },
                    probe: resolved.probe,
                    published: resolved.published,
                }
            },
            ServiceEvent::Removed(fullname) => if remembered.contains_key(fullname@) {
                OutcomeData {
                    known: self.removed(remembered[fullname@], secure),
                    remembered: remembered.remove(fullname@),
                    published: self.merge.contains_key(remembered[fullname@]),
                    ..unchanged
                }
            } else {
                unchanged
            },
            ServiceEvent::Other => unchanged,
        }
    }
}

/// Handles one mDNS event of one transport, updating the registry as needed
/// (see [`Known::after`]).
pub fn handle_event(
    event: ServiceEvent,
    secure: bool,
    fullname_to_id: &mut Table<String>,
    registry: &mut Registry,
    merge_state: &mut MergeState,
) -> (outcome: Outcome)
    requires
        old(fullname_to_id).valid(),
        old(registry).valid(),
        old(merge_state).valid(),
    ensures
        final(fullname_to_id).valid(),
        final(registry).valid(),
        final(merge_state).valid(),
        (OutcomeData {
            known: Known { registry: final(registry)@, merge: final(merge_state)@ },
            remembered: final(fullname_to_id)@,
            probe: data_of(outcome.probe),
            published: outcome.published,
        }) == (Known { registry: old(registry)@, merge: old(merge_state)@ }).after(
            event,
            secure,
            old(fullname_to_id)@,
        ),
{
    match event {
        ServiceEvent::Resolved(service) => {
            let resolved = handle_resolved(&service, secure, registry, merge_state);
            if let Some((fullname, id)) = resolved.remembered {
                fullname_to_id.insert(fullname, id);
            }
            Outcome { probe: resolved.probe, published: resolved.published }
        },
        ServiceEvent::Removed(fullname) => {
            let published = match fullname_to_id.remove(fullname.as_str()) {
                Some(id) => remove_transport(id.as_str(), secure, registry, merge_state),
                None => {
                    assert(fullname_to_id@ =~= old(fullname_to_id)@);
                    false
                },
            };
            Outcome { probe: None, published }
        },
        ServiceEvent::Other => Outcome { probe: None, published: false },
    }
}

/// A printer that is configured by its URI, and what came of asking it last.
pub struct Watch {
    /// Where to send IPP requests.
    pub uri: String,
    /// The URI's host.
    pub host: String,
    /// The printer's key in the [`Registry`].
    pub id: String,
    /// Why it wasn't available when it was last asked.
    pub last_problem: Option<String>,
}

/// What a [`Watch`] holds.
#[verifier::ext_equal]
pub struct WatchData {
    pub uri: Seq<char>,
    pub host: Seq<char>,
    pub id: Seq<char>,
    pub last_problem: Option<Seq<char>>,
}

impl View for Watch {
    type V = WatchData;

    open spec fn view(&self) -> WatchData {
        WatchData {
            uri: self.uri@,
            host: self.host@,
            id: self.id@,
            last_problem: text_of(self.last_problem),
        }
    }
}

/// The id of a printer that is configured by its URI.
pub open spec fn configured_id(uri: Seq<char>) -> Seq<char> {
    "configured-"@ + hash_of(seq![uri])
}

/// A printer to watch, if `uri` is one like `ipp://host:631/ipp/print`.
pub open spec fn watched(uri: Seq<char>) -> Option<WatchData> {
    watched_as(uri, parsed_uri(uri))
}

/// A printer to watch, given what `uri` was read as.
pub open spec fn watched_as(uri: Seq<char>, parsed: Result<UriView, Seq<char>>) -> Option<
    WatchData,
> {
    match parsed {
        Ok(parsed) if parsed.scheme == Some("ipp"@) && parsed.host is Some => Some(
            WatchData {
                uri: parsed.text,
                host: parsed.host->0,
                id: configured_id(uri),
                last_problem: None,
            },
        ),
        _ => None,
    }
}

/// What is noted of a configured printer that was asked.
#[derive(Debug)]
pub enum Notice {
    /// It is available, which it wasn't before.
    Added,
    /// It isn't available, for another reason than before.
    Unavailable(String),
    /// Nothing changed.
    Unchanged,
}

/// What a [`Notice`] holds.
#[verifier::ext_equal]
pub enum NoticeData {
    Added,
    Unavailable(Seq<char>),
    Unchanged,
}

impl View for Notice {
    type V = NoticeData;

    open spec fn view(&self) -> NoticeData {
        match *self {
            Notice::Added => NoticeData::Added,
            Notice::Unavailable(problem) => NoticeData::Unavailable(problem@),
            Notice::Unchanged => NoticeData::Unchanged,
        }
    }
}

/// What asking a printer came to, as plain values.
pub open spec fn probe_view(probe: Result<PrinterInfo, PrintError>) -> Result<
    PrinterInfoView,
    PrintErrorView,
> {
    match probe {
        Ok(info) => Ok(info@),
        Err(error) => Err(error@),
    }
}

impl WatchData {
    /// The printer that was asked, or why it can't be listed.
    pub open spec fn printer(self, probe: Result<PrinterInfoView, PrintErrorView>) -> Result<
        PrinterData,
        Seq<char>,
    > {
        match probe {
            Err(error) => Err(error.text()),
            Ok(info) => if info.formats.len() == 0 {
                Err("printer does not handle a supported format"@)
            } else {
                Ok(
                    PrinterData {
                        id: self.id,
                        name: match info.name {
                            Some(name) => name,
                            None => self.host,
                        },
                        uri: self.uri,
                        model: info.model,
                        formats: info.formats,
                    },
                )
            },
        }
    }

    /// The registry after the printer was asked: it is listed only while it
    /// answers and handles a supported format.
    pub open spec fn registry(
        self,
        probe: Result<PrinterInfoView, PrintErrorView>,
        registry: Map<Seq<char>, PrinterData>,
    ) -> Map<Seq<char>, PrinterData> {
        match self.printer(probe) {
            Ok(printer) => applied(registry, self.id, Some(printer)),
            Err(problem) => applied(registry, self.id, None),
        }
    }

    /// What is noted after the printer was asked.
    pub open spec fn notice(
        self,
        probe: Result<PrinterInfoView, PrintErrorView>,
        registry: Map<Seq<char>, PrinterData>,
    ) -> NoticeData {
        match self.printer(probe) {
            Ok(printer) => if self.last_problem is Some || !registry.contains_key(self.id) {
                NoticeData::Added
            } else {
                NoticeData::Unchanged
            },
            Err(problem) => if self.last_problem == Some(problem) {
                NoticeData::Unchanged
            } else {
                NoticeData::Unavailable(problem)
            },
        }
    }

    /// What is remembered after the printer was asked.
    pub open spec fn next(self, probe: Result<PrinterInfoView, PrintErrorView>) -> WatchData {
        WatchData {
            last_problem: match self.printer(probe) {
                Ok(printer) => None,
                Err(problem) => Some(problem),
            },
            ..self
        }
    }
}

/// Watch the printer at a configured URI (see [`watched`]); none if it isn't
/// one like `ipp://host:631/ipp/print`.
pub fn watch_configured(uri: &str) -> (watch: Option<Watch>)
    ensures
        match watch {
            Some(watch) => watched(uri@) == Some(watch@),
            None => watched(uri@) is None,
        },
{
    watch_parsed(uri, parse_uri(uri))
}

/// Watch the printer at a configured URI, given what it was read as (see
/// [`watched_as`]).
pub fn watch_parsed(uri: &str, parsed: Result<ParsedUri, String>) -> (watch: Option<Watch>)
    ensures
        ({
            let read = match parsed {
                Ok(parsed) => Ok(parsed@),
                Err(error) => Err(error@),
            };
            match watch {
                Some(watch) => watched_as(uri@, read) == Some(watch@),
                None => watched_as(uri@, read) is None,
            }
        }),
{
    let parsed = match parsed {
        Ok(parsed) => parsed,
        Err(_) => {
            return None;
        },
    };
    let is_ipp = match &parsed.scheme {
        Some(scheme) => same(scheme.as_str(), "ipp"),
        None => false,
    };
    if !is_ipp {
        return None;
    }
    let host = match parsed.host {
        Some(host) => host,
        None => {
            return None;
        },
    };
    let mut hasher = DefaultHasher::new();
    write_text(&mut hasher, uri);
    proof {
        reveal_with_fuel(hashed, 2);
        assert(seq![uri@].drop_last() =~= Seq::empty());
        assert(hasher@ =~= hashed(seq![uri@]));
    }
    let mut id = "configured-".to_owned();
    push_hexadecimal(&mut id, hasher.finish(), 16);
    Some(Watch { uri: parsed.text, host, id, last_problem: None })
}

/// The printer that was asked, or why it can't be listed (see
/// [`WatchData::printer`]).
pub fn configured_printer(watch: &Watch, probe: Result<PrinterInfo, PrintError>)
    -> (printer: Result<Printer, String>)
    ensures
        match printer {
            Ok(printer) => watch@.printer(probe_view(probe)) == Ok::<PrinterData, Seq<char>>(
                printer@,
            ),
            Err(problem) => watch@.printer(probe_view(probe)) == Err::<PrinterData, Seq<char>>(
                problem@,
            ),
        },
{
    let info = match probe {
        Ok(info) => info,
        Err(error) => {
            return Err(error.to_string());
        },
    };
    if info.formats.len() == 0 {
        return Err("printer does not handle a supported format".to_owned());
    }
    let name = match info.name {
        Some(name) => name,
        None => watch.host.clone(),
    };
    Ok(
        Printer {
            id: watch.id.clone(),
            name,
            uri: watch.uri.clone(),
            model: info.model,
            formats: info.formats,
        },
    )
}

impl Watch {
    /// Take in what asking the printer came to: list it or not, and note what
    /// changed (see [`WatchData`]).
    pub fn probed(&mut self, probe: Result<PrinterInfo, PrintError>, registry: &mut Registry)
        -> (notice: Notice)
        requires
            old(registry).valid(),
        ensures
            final(registry).valid(),
            final(registry)@ == old(self)@.registry(probe_view(probe), old(registry)@),
            final(self)@ == old(self)@.next(probe_view(probe)),
            notice@ == old(self)@.notice(probe_view(probe), old(registry)@),
    {
        match configured_printer(self, probe) {
            Ok(printer) => {
                let added = self.last_problem.is_some() || registry.get(self.id.as_str()).is_none();
                self.last_problem = None;
                apply_best(self.id.clone(), Some(printer), registry);
                if added {
                    Notice::Added
                } else {
                    Notice::Unchanged
                }
            },
            Err(problem) => {
                let known = match &self.last_problem {
                    Some(last) => same(last.as_str(), problem.as_str()),
                    None => false,
                };
                self.last_problem = Some(problem.clone());
                apply_best(self.id.clone(), None, registry);
                if known {
                    Notice::Unchanged
                } else {
                    Notice::Unavailable(problem)
                }
            },
        }
    }
}

/// The ids that are given to printers found by mDNS.
pub open spec fn is_merged_id(id: Seq<char>) -> bool {
    id.len() == 16
}

/// A printer that can be listed under an id.
pub open spec fn is_listable(printer: PrinterData, id: Seq<char>) -> bool {
    printer.id == id && printer.formats.len() > 0
}

impl Known {
    /// Every listed printer stands under its own id and handles a supported
    /// format. Of the printers found by mDNS the listed ones are those that
    /// have a transport, each by its best one.
    pub open spec fn is_consistent(self) -> bool {
        &&& forall|id: Seq<char>| #[trigger]
            self.registry.contains_key(id) ==> is_listable(self.registry[id], id)
        &&& forall|id: Seq<char>| #[trigger]
            self.merge.contains_key(id) ==> {
                &&& is_merged_id(id)
                &&& self.merge[id].best() is Some
                &&& self.merge[id].secure matches Some(printer) ==> is_listable(printer, id)
                &&& self.merge[id].insecure matches Some(printer) ==> is_listable(printer, id)
            }
        &&& forall|id: Seq<char>|
            is_merged_id(id) ==> (#[trigger] self.registry.contains_key(id)
                <==> self.merge.contains_key(id))
        &&& forall|id: Seq<char>| #[trigger]
            self.merge.contains_key(id) ==> self.merge[id].best() == Some(self.registry[id])
    }
}

/// Nothing known is consistent.
pub proof fn law_starts_consistent()
    ensures
        (Known { registry: Map::empty(), merge: Map::empty() }).is_consistent(),
{
}

proof fn lemma_upserting_keeps(known: Known, id: Seq<char>, secure: bool, printer: PrinterData)
    requires
        known.is_consistent(),
        is_merged_id(id),
        is_listable(printer, id),
    ensures
        known.upserted(id, secure, printer).is_consistent(),
{
    let next = known.upserted(id, secure, printer);
    let slots = known.slots(id).with(secure, Some(printer));
    assert(slots.best() is Some);
    assert forall|other: Seq<char>| #[trigger]
        next.registry.contains_key(other) implies is_listable(next.registry[other], other) by {
        if other != id {
            assert(known.registry.contains_key(other));
        }
    }
}

proof fn lemma_removing_keeps(known: Known, id: Seq<char>, secure: bool)
    requires
        known.is_consistent(),
    ensures
        known.removed(id, secure).is_consistent(),
{
    let next = known.removed(id, secure);
    if known.merge.contains_key(id) {
        assert forall|other: Seq<char>| #[trigger]
            next.registry.contains_key(other) implies is_listable(
            next.registry[other],
            other,
        ) by {
            if other != id {
                assert(known.registry.contains_key(other));
            }
        }
        assert forall|other: Seq<char>| is_merged_id(other) implies (
        #[trigger] next.registry.contains_key(other) <==> next.merge.contains_key(other)) by {
            if other != id {
                assert(known.registry.contains_key(other) <==> known.merge.contains_key(other));
            }
        }
    }
}

/// Whatever mDNS reports, what is known stays consistent.
pub proof fn law_events_keep_consistency(
    known: Known,
    event: ServiceEvent,
    secure: bool,
    remembered: Map<Seq<char>, Seq<char>>,
)
    requires
        known.is_consistent(),
    ensures
        known.after(event, secure, remembered).known.is_consistent(),
{
    match event {
        ServiceEvent::Resolved(service) => {
            let id = merged(service@);
            lemma_hexadecimal_len(
                DefaultHasher::spec_finish(
                    hashed(seq![instance_name(service@.fullname), service@.host]),
                ) as nat,
                16,
            );
            if let Some(pdl) = service@.pdl {
                if pdl.len() > 0 {
                    let formats = pdl_labels(pdl);
                    if formats.len() == 0 {
                        lemma_removing_keeps(known, id, secure);
                    } else if let Some(printer) = service_printer(service@, id, formats) {
                        lemma_upserting_keeps(known, id, secure, printer);
                    }
                }
            }
        },
        ServiceEvent::Removed(fullname) => {
            if remembered.contains_key(fullname@) {
                lemma_removing_keeps(known, remembered[fullname@], secure);
            }
        },
        ServiceEvent::Other => {},
    }
}

/// A printer that an event asks to probe keeps what is known consistent,
/// whatever formats it turns out to handle and whatever happened meanwhile.
pub proof fn law_probes_keep_consistency(
    asked: Known,
    event: ServiceEvent,
    remembered: Map<Seq<char>, Seq<char>>,
    known: Known,
    formats: Seq<Seq<char>>,
    secure: bool,
)
    requires
        known.is_consistent(),
        asked.after(event, secure, remembered).probe is Some,
    ensures
        known.probed(
            asked.after(event, secure, remembered).probe->0,
            formats,
            secure,
        ).is_consistent(),
{
    if let ServiceEvent::Resolved(service) = event {
        lemma_hexadecimal_len(
            DefaultHasher::spec_finish(
                hashed(seq![instance_name(service@.fullname), service@.host]),
            ) as nat,
            16,
        );
        let printer = asked.after(event, secure, remembered).probe->0;
        if formats.len() > 0 {
            lemma_upserting_keeps(
                known,
                printer.id,
                secure,
                PrinterData { formats, ..printer },
            );
        }
    }
}

/// Asking a configured printer keeps what is known consistent.
pub proof fn law_configured_printers_keep_consistency(
    known: Known,
    watch: WatchData,
    uri: Seq<char>,
    probe: Result<PrinterInfoView, PrintErrorView>,
)
    requires
        known.is_consistent(),
        watch.id == configured_id(uri),
    ensures
        (Known { registry: watch.registry(probe, known.registry), ..known }).is_consistent(),
{
    let next = Known { registry: watch.registry(probe, known.registry), ..known };
    reveal_strlit("configured-");
    lemma_hexadecimal_len(DefaultHasher::spec_finish(hashed(seq![uri])) as nat, 16);
    assert(!is_merged_id(watch.id));
    assert forall|other: Seq<char>| #[trigger]
        next.registry.contains_key(other) implies is_listable(next.registry[other], other) by {
        if other != watch.id {
            assert(known.registry.contains_key(other));
        }
    }
    assert forall|other: Seq<char>| is_merged_id(other) implies (
    #[trigger] next.registry.contains_key(other) <==> next.merge.contains_key(other)) by {
        assert(known.registry.contains_key(other) <==> known.merge.contains_key(other));
    }
    assert forall|other: Seq<char>| #[trigger] next.merge.contains_key(other) implies next.merge[
        other
    ].best() == Some(next.registry[other]) by {
        assert(known.merge.contains_key(other));
    }
}

/// A configured printer is listed only while it answers and handles a
/// supported format.
pub proof fn law_configured_printers_come_and_go(
    watch: WatchData,
    probe: Result<PrinterInfoView, PrintErrorView>,
    registry: Map<Seq<char>, PrinterData>,
)
    ensures
        watch.registry(probe, registry).contains_key(watch.id) <==> probe is Ok
            && probe->Ok_0.formats.len() > 0,
        forall|other: Seq<char>|
            other != watch.id ==> #[trigger] watch.registry(probe, registry).contains_key(other)
                == registry.contains_key(other),
{
}

/// Of a configured printer that stays unavailable for one reason, that is
/// noted once.
pub proof fn law_problems_are_noted_once(
    watch: WatchData,
    probe: Result<PrinterInfoView, PrintErrorView>,
    registry: Map<Seq<char>, PrinterData>,
    later: Map<Seq<char>, PrinterData>,
)
    requires
        watch.printer(probe) is Err,
    ensures
        watch.next(probe).notice(probe, later) == NoticeData::Unchanged,
        watch.last_problem is None ==> watch.notice(probe, registry) is Unavailable,
{
}

/// A printer that is on both transports is listed by the encrypted one,
/// whichever was found last.
pub proof fn law_secure_transport_is_preferred(
    known: Known,
    id: Seq<char>,
    secure: PrinterData,
    insecure: PrinterData,
)
    ensures
        known.upserted(id, false, insecure).upserted(id, true, secure).registry[id] == secure,
        known.upserted(id, true, secure).upserted(id, false, insecure).registry[id] == secure,
{
}

/// A printer whose encrypted transport goes away is listed by the plain one;
/// one whose last transport goes away is not listed any more, and nothing is
/// kept of it.
pub proof fn law_removals_fall_back(
    known: Known,
    id: Seq<char>,
    secure: PrinterData,
    insecure: PrinterData,
)
    ensures
        ({
            let both = known.upserted(id, false, insecure).upserted(id, true, secure);
            let plain = both.removed(id, true);
            let gone = plain.removed(id, false);
            &&& plain.registry.contains_key(id)
            &&& plain.registry[id] == insecure
            &&& !gone.registry.contains_key(id)
            &&& !gone.merge.contains_key(id)
        }),
{
}

/// Removing a printer that isn't known, or a service that isn't remembered,
/// changes nothing.
pub proof fn law_unknown_removals_change_nothing(
    known: Known,
    id: Seq<char>,
    fullname: String,
    secure: bool,
    remembered: Map<Seq<char>, Seq<char>>,
)
    ensures
        !known.merge.contains_key(id) ==> known.removed(id, secure) == known,
        !remembered.contains_key(fullname@) ==> {
            let after = known.after(ServiceEvent::Removed(fullname), secure, remembered);
            after.known == known && after.remembered == remembered && !after.published
        },
{
}

/// Events about one printer leave every other printer as it is.
pub proof fn law_other_printers_are_untouched(
    known: Known,
    id: Seq<char>,
    other: Seq<char>,
    secure: bool,
    printer: PrinterData,
)
    requires
        other != id,
    ensures
        known.upserted(id, secure, printer).registry.contains_key(other)
            == known.registry.contains_key(other),
        known.upserted(id, secure, printer).registry[other] == known.registry[other],
        known.removed(id, secure).registry.contains_key(other) == known.registry.contains_key(
            other,
        ),
        known.removed(id, secure).registry[other] == known.registry[other],
{
}

/// The two transports of one printer, which share its instance name and its
/// host, have one id.
pub proof fn law_transports_share_an_id(a: ServiceData, b: ServiceData)
    requires
        instance_name(a.fullname) == instance_name(b.fullname),
        a.host == b.host,
    ensures
        merged(a) == merged(b),
{
}

/// What is held on a printer's encrypted transport.
pub open spec fn secure_of(known: Known, id: Seq<char>) -> Option<PrinterData> {
    if known.merge.contains_key(id) {
        known.merge[id].secure
    } else {
        None
    }
}

/// What is held on a printer's plain transport.
pub open spec fn insecure_of(known: Known, id: Seq<char>) -> Option<PrinterData> {
    if known.merge.contains_key(id) {
        known.merge[id].insecure
    } else {
        None
    }
}

/// Whether the printer listed under an id is what is held on its encrypted
/// transport, else what is held on its plain one, and none is listed and
/// nothing kept where neither holds one.
pub open spec fn is_listed_by_best(known: Known, id: Seq<char>) -> bool {
    match secure_of(known, id) {
        Some(printer) => known.registry.contains_key(id) && known.registry[id] == printer,
        None => match insecure_of(known, id) {
            Some(printer) => known.registry.contains_key(id) && known.registry[id] == printer,
            None => !known.registry.contains_key(id) && !known.merge.contains_key(id),
        },
    }
}

/// Whether nothing is different about any printer but the one with an id.
pub open spec fn differ_only_at(a: Known, b: Known, id: Seq<char>) -> bool {
    forall|other: Seq<char>|
        other != id ==> {
            &&& #[trigger] a.registry.contains_key(other) == b.registry.contains_key(other)
            &&& a.registry.contains_key(other) ==> a.registry[other] == b.registry[other]
            &&& a.merge.contains_key(other) == b.merge.contains_key(other)
            &&& a.merge.contains_key(other) ==> a.merge[other] == b.merge[other]
        }
}

/// A printer that is found on a transport is held on that transport, what is
/// held on the other stays, and the printer is listed by the better of the two.
pub proof fn law_found_printers_are_held_on_their_transport(
    known: Known,
    id: Seq<char>,
    secure: bool,
    printer: PrinterData,
)
    ensures
        ({
            let next = known.upserted(id, secure, printer);
            &&& secure_of(next, id) == if secure {
                Some(printer)
            } else {
                secure_of(known, id)
            }
            &&& insecure_of(next, id) == if secure {
                insecure_of(known, id)
            } else {
                Some(printer)
            }
            &&& is_listed_by_best(next, id)
            &&& differ_only_at(known, next, id)
        }),
{
}

/// A known printer that is gone from a transport isn't held on that transport
/// any more, what is held on the other stays, and it is listed by what is left.
pub proof fn law_gone_printers_are_dropped_from_their_transport(
    known: Known,
    id: Seq<char>,
    secure: bool,
)
    ensures
        ({
            let next = known.removed(id, secure);
            &&& secure_of(next, id) == if secure {
                None
            } else {
                secure_of(known, id)
            }
            &&& insecure_of(next, id) == if secure {
                insecure_of(known, id)
            } else {
                None
            }
            &&& known.merge.contains_key(id) ==> is_listed_by_best(next, id)
            &&& !known.merge.contains_key(id) ==> next == known
            &&& differ_only_at(known, next, id)
        }),
{
}

/// After a probe that found a supported format, the transport that was probed
/// holds the printer with those formats, the other holds what it held, and the
/// printer is listed by the better of the two. A probe that found none changes
/// nothing.
pub proof fn law_probed_printers_are_held_on_their_transport(
    known: Known,
    printer: PrinterData,
    formats: Seq<Seq<char>>,
    secure: bool,
)
    ensures
        ({
            let next = known.probed(printer, formats, secure);
            let found = PrinterData {
                id: printer.id,
                name: printer.name,
                uri: printer.uri,
                model: printer.model,
                formats,
            };
            &&& formats.len() == 0 ==> next == known
            &&& formats.len() > 0 ==> {
                &&& secure_of(next, printer.id) == if secure {
                    Some(found)
                } else {
                    secure_of(known, printer.id)
                }
                &&& insecure_of(next, printer.id) == if secure {
                    insecure_of(known, printer.id)
                } else {
                    Some(found)
                }
                &&& is_listed_by_best(next, printer.id)
                &&& differ_only_at(known, next, printer.id)
            }
        }),
{
    if formats.len() > 0 {
        law_found_printers_are_held_on_their_transport(
            known,
            printer.id,
            secure,
            PrinterData { formats, ..printer },
        );
    }
}

/// A printer that wasn't known, was probed on a transport and is gone from that
/// transport again, isn't listed, and nothing is kept of it.
pub proof fn law_probed_printers_go_away(
    known: Known,
    printer: PrinterData,
    formats: Seq<Seq<char>>,
    secure: bool,
)
    requires
        !known.merge.contains_key(printer.id),
        !known.registry.contains_key(printer.id),
    ensures
        known.probed(printer, formats, secure).removed(printer.id, secure) == known,
{
    let next = known.probed(printer, formats, secure);
    if formats.len() > 0 {
        let gone = next.removed(printer.id, secure);
        assert(gone.registry =~= known.registry);
        assert(gone.merge =~= known.merge);
    }
}

/// Of two probes of one printer, one on the encrypted and one on the plain
/// transport, in either order, the one on the encrypted is listed.
pub proof fn law_probes_prefer_the_secure_transport(
    known: Known,
    secure: PrinterData,
    secure_formats: Seq<Seq<char>>,
    insecure: PrinterData,
    insecure_formats: Seq<Seq<char>>,
)
    requires
        secure.id == insecure.id,
        secure_formats.len() > 0,
        insecure_formats.len() > 0,
    ensures
        ({
            let found = PrinterData {
                id: secure.id,
                name: secure.name,
                uri: secure.uri,
                model: secure.model,
                formats: secure_formats,
            };
            let a = known.probed(secure, secure_formats, true).probed(
                insecure,
                insecure_formats,
                false,
            );
            let b = known.probed(insecure, insecure_formats, false).probed(
                secure,
                secure_formats,
                true,
            );
            &&& a.registry.contains_key(secure.id)
            &&& a.registry[secure.id] == found
            &&& b.registry.contains_key(secure.id)
            &&& b.registry[secure.id] == found
        }),
{
}

/// A service with a "pdl" that lists a supported format puts its printer on the
/// transport it was found on, and is remembered; one whose "pdl" lists none
/// takes it from that transport. Without a "pdl" the printer is to be asked,
/// with no format yet, and nothing changes. Where there is no printer to be
/// reached, nothing happens at all.
pub proof fn law_services_are_taken_in(known: Known, service: ServiceData, secure: bool)
    ensures
        ({
            let id = merged(service);
            let after = known.resolved(service, secure);
            let told = service.pdl is Some && service.pdl->0.len() > 0;
            let formats = if told {
                pdl_labels(service.pdl->0)
            } else {
                Seq::empty()
            };
            let printer = service_printer(service, id, formats);
            &&& after.probe is Some <==> !told && printer is Some
            &&& after.probe is Some ==> after.probe == printer
            &&& !told ==> after.known == known && !after.published
            &&& after.remembered is Some <==> printer is Some || (told && formats.len() == 0)
            &&& after.remembered is Some ==> after.remembered->0 == (service.fullname, id)
            &&& told && formats.len() > 0 && printer is None ==> after.known == known
                && !after.published
            &&& told && formats.len() > 0 && printer is Some ==> {
                &&& after.published
                &&& secure_of(after.known, id) == if secure {
                    printer
                } else {
                    secure_of(known, id)
                }
                &&& insecure_of(after.known, id) == if secure {
                    insecure_of(known, id)
                } else {
                    printer
                }
                &&& is_listed_by_best(after.known, id)
            }
            &&& told && formats.len() == 0 ==> {
                &&& after.published == known.merge.contains_key(id)
                &&& secure_of(after.known, id) == if secure {
                    None
                } else {
                    secure_of(known, id)
                }
                &&& insecure_of(after.known, id) == if secure {
                    insecure_of(known, id)
                } else {
                    None
                }
                &&& known.merge.contains_key(id) ==> is_listed_by_best(after.known, id)
            }
            &&& differ_only_at(known, after.known, id)
        }),
{
    let id = merged(service);
    if let Some(pdl) = service.pdl {
        if pdl.len() > 0 {
            let formats = pdl_labels(pdl);
            if formats.len() == 0 {
                law_gone_printers_are_dropped_from_their_transport(known, id, secure);
            } else if let Some(printer) = service_printer(service, id, formats) {
                law_found_printers_are_held_on_their_transport(known, id, secure, printer);
            }
        }
    }
}

/// The printer behind a service has the service's instance name, its "ty" as
/// model, the formats and the id that it was given, and a URI at the chosen
/// address with the service's port, under its resource path.
pub proof fn law_services_become_printers(
    service: ServiceData,
    id: Seq<char>,
    formats: Seq<Seq<char>>,
)
    ensures
        service.addresses.len() == 0 ==> service_printer(service, id, formats) is None,
        service_printer(service, id, formats) matches Some(printer) ==> {
            &&& printer.id == id
            &&& printer.name == instance_name(service.fullname)
            &&& printer.model == service.ty
            &&& printer.formats == formats
            &&& chosen_address(service.addresses) is Some
            &&& built_uri(
                "ipp"@,
                authority(chosen_address(service.addresses)->0, service.port),
                resource_path(service.rp),
            ) == Some(printer.uri)
        },
{
}

/// The address that is chosen is the first IPv4 one; where there is none, the
/// first of all; where there is no address at all, none.
pub proof fn law_first_ipv4_address_is_chosen(addresses: Seq<AddressData>, i: int)
    requires
        0 <= i < addresses.len(),
    ensures
        addresses[i].is_ipv4 && (forall|k: int| 0 <= k < i ==> !(#[trigger] addresses[k]).is_ipv4)
            ==> chosen_address(addresses) == Some(addresses[i]),
        (forall|k: int| 0 <= k < addresses.len() ==> !(#[trigger] addresses[k]).is_ipv4)
            ==> chosen_address(addresses) == Some(addresses[0]),
        chosen_address(Seq::<AddressData>::empty()) is None,
{
    lemma_first_ipv4(addresses, i);
}

proof fn lemma_first_ipv4(addresses: Seq<AddressData>, i: int)
    ensures
        0 <= i < addresses.len() && addresses[i].is_ipv4 && (forall|k: int|
            0 <= k < i ==> !(#[trigger] addresses[k]).is_ipv4) ==> first_ipv4(addresses) == Some(
            addresses[i],
        ),
        (forall|k: int| 0 <= k < addresses.len() ==> !(#[trigger] addresses[k]).is_ipv4)
            ==> first_ipv4(addresses) is None,
    decreases addresses.len(),
{
    if addresses.len() > 0 {
        let rest = addresses.drop_first();
        lemma_first_ipv4(rest, i - 1);
        assert forall|k: int| 0 <= k < rest.len() implies #[trigger] rest[k] == addresses[k + 1] by {
        }
        if 0 < i < addresses.len() && addresses[i].is_ipv4 && (forall|k: int|
            0 <= k < i ==> !(#[trigger] addresses[k]).is_ipv4) {
            assert(!addresses[0].is_ipv4);
            assert(rest[i - 1] == addresses[i]);
            assert forall|k: int| 0 <= k < i - 1 implies !(#[trigger] rest[k]).is_ipv4 by {
                assert(!addresses[k + 1].is_ipv4);
            }
        }
        if forall|k: int| 0 <= k < addresses.len() ==> !(#[trigger] addresses[k]).is_ipv4 {
            assert(!addresses[0].is_ipv4);
            assert forall|k: int| 0 <= k < rest.len() implies !(#[trigger] rest[k]).is_ipv4 by {
                assert(!addresses[k + 1].is_ipv4);
            }
        }
    }
}

/// An address stands before a colon and the port, which reads back as that
/// port; any but an IPv4 address stands in brackets.
pub proof fn law_authorities_name_address_and_port(address: AddressData, port: u16)
    ensures
        ({
            let text = authority(address, port);
            let start = if address.is_ipv4 {
                address.text + seq![':']
            } else {
                seq!['['] + address.text + seq![']', ':']
            };
            &&& start.is_prefix_of(text)
            &&& number_of(text.skip(start.len() as int), 10) == port
            &&& forall|i: int|
                start.len() <= i < text.len() ==> 48 <= #[trigger] text[i] as int <= 57
        }),
{
    reveal_strlit(":");
    reveal_strlit("[");
    reveal_strlit("]:");
    law_decimals_read_back(port as nat);
    let text = authority(address, port);
    let digits = decimal(port as nat);
    let start = if address.is_ipv4 {
        address.text + seq![':']
    } else {
        seq!['['] + address.text + seq![']', ':']
    };
    assert(text =~= start + digits);
    assert(text.skip(start.len() as int) =~= digits);
    assert forall|i: int| start.len() <= i < text.len() implies 48 <= #[trigger] text[i] as int
        <= 57 by {
        assert(text[i] == digits[i - start.len()]);
    }
}

/// A resource path starts with one slash, whatever slashes it was given with,
/// and goes on as it was given; without one it is `/ipp/print`.
pub proof fn law_resource_paths_start_with_one_slash(path: Seq<char>)
    ensures
        exists|i: int|
            0 <= i <= path.len() && (forall|k: int| 0 <= k < i ==> #[trigger] path[k] == '/') && (i
                < path.len() ==> path[i] != '/') && resource_path(Some(path)) == seq!['/']
                + #[trigger] path.skip(i),
        resource_path(None) == "/ipp/print"@,
{
    reveal_strlit("/");
    reveal_strlit("ipp/print");
    reveal_strlit("/ipp/print");
    let drop = |c: char| c == '/';
    law_trimmed_start(path, drop);
    let i = choose|i: int| #[trigger]
        is_trim_start(path, drop, i) && trimmed_start(path, drop) == path.skip(i);
    assert forall|k: int| 0 <= k < i implies #[trigger] path[k] == '/' by {
        assert(drop(path[k]));
    }
    if i < path.len() {
        assert(!drop(path[i]));
    }
    assert(resource_path(Some(path)) =~= seq!['/'] + path.skip(i));
    let given = "ipp/print"@;
    assert(trimmed_start(given, drop) == given);
    assert(resource_path(None) =~= "/ipp/print"@);
}

/// A service's instance name is what its fullname starts with, up to the first
/// dot, or all of it where there is none.
pub proof fn law_instance_names_end_at_the_first_dot(fullname: Seq<char>)
    ensures
        instance_name(fullname).len() <= fullname.len(),
        fullname.take(instance_name(fullname).len() as int) == instance_name(fullname),
        !instance_name(fullname).contains('.'),
        instance_name(fullname).len() < fullname.len() ==> fullname[instance_name(
            fullname,
        ).len() as int] == '.',
    decreases fullname.len(),
{
    let name = instance_name(fullname);
    if fullname.contains('.') {
        let at = fullname.index_of_first('.')->0;
        fullname.index_of_first_ensures('.');
        let (a, b) = (fullname.take(at), fullname.skip(at + 1));
        assert(fullname =~= a + seq!['.'] + b);
        assert(!a.contains('.'));
        law_parts(a, b, '.');
        assert(parts(fullname, '.').first() == parts(a, '.')[0]);
        assert(name == a);
    } else {
        law_parts(fullname, Seq::empty(), '.');
        assert(fullname.take(fullname.len() as int) =~= fullname);
    }
}

/// The id of a printer found by mDNS is, in 16 hexadecimal digits, the hash of
/// its instance name and its host, both and nothing else.
pub proof fn law_ids_are_hashes_of_name_and_host(service: ServiceData)
    ensures
        merged(service).len() == 16,
        number_of(merged(service), 16) == DefaultHasher::spec_finish(
            seq![
                encode_utf8(instance_name(service.fullname)),
                seq![255u8],
                encode_utf8(service.host),
                seq![255u8],
            ],
        ),
{
    let all = seq![instance_name(service.fullname), service.host];
    reveal_with_fuel(hashed, 3);
    assert(all.drop_last() =~= seq![all[0]]);
    assert(seq![all[0]].drop_last() =~= Seq::empty());
    assert(hashed(all) =~= seq![
        encode_utf8(instance_name(service.fullname)),
        seq![255u8],
        encode_utf8(service.host),
        seq![255u8],
    ]);
    lemma_hash_digits(hashed(all));
}

/// A hash reads back from its digits.
proof fn lemma_hash_digits(written: Seq<Seq<u8>>)
    ensures
        hexadecimal(DefaultHasher::spec_finish(written) as nat, 16).len() == 16,
        number_of(hexadecimal(DefaultHasher::spec_finish(written) as nat, 16), 16)
            == DefaultHasher::spec_finish(written),
{
    let hash = DefaultHasher::spec_finish(written);
    law_hexadecimals_read_back(hash as nat, 16);
    lemma_pow_of_sixteen();
    assert(hash as nat % 0x1_0000_0000_0000_0000 == hash);
}

proof fn lemma_pow_of_sixteen()
    ensures
        pow(16, 16) == 0x1_0000_0000_0000_0000,
{
    lemma_pow1(16);
    lemma_pow_adds(16, 1, 1);
    assert(pow(16, 2) == 16int * 16);
    lemma_pow_adds(16, 2, 2);
    assert(pow(16, 4) == 0x100int * 0x100);
    lemma_pow_adds(16, 4, 4);
    assert(pow(16, 8) == 0x1_0000int * 0x1_0000);
    lemma_pow_adds(16, 8, 8);
    assert(pow(16, 16) == 0x1_0000_0000int * 0x1_0000_0000);
}

/// A configured printer is watched if and only if its URI can be read, is of
/// the scheme `ipp` and names a host; its id is `configured-` and the hash of
/// the URI as it was configured.
pub proof fn law_configured_printers_are_watched(uri: Seq<char>)
    ensures
        watched(uri) is Some <==> parsed_uri(uri) is Ok && parsed_uri(uri)->Ok_0.scheme == Some(
            "ipp"@,
        ) && parsed_uri(uri)->Ok_0.host is Some,
        watched(uri) matches Some(watch) ==> {
            &&& watch.uri == parsed_uri(uri)->Ok_0.text
            &&& Some(watch.host) == parsed_uri(uri)->Ok_0.host
            &&& watch.last_problem is None
            &&& watch.id.len() == 27
            &&& watch.id.take(11) == "configured-"@
            &&& number_of(watch.id.skip(11), 16) == DefaultHasher::spec_finish(
                seq![encode_utf8(uri), seq![255u8]],
            )
        },
{
    let all = seq![uri];
    reveal_strlit("configured-");
    reveal_with_fuel(hashed, 2);
    assert(all.drop_last() =~= Seq::empty());
    assert(hashed(all) =~= seq![encode_utf8(uri), seq![255u8]]);
    lemma_hash_digits(hashed(all));
    let id = configured_id(uri);
    assert(id.take(11) =~= "configured-"@);
    assert(id.skip(11) =~= hash_of(all));
}

/// A configured printer that answers and handles a supported format is listed
/// under its id and its URI with what it said of itself, by its host where it
/// gave no name; one that doesn't is not listed.
pub proof fn law_configured_printers_are_listed_as_they_answer(
    watch: WatchData,
    probe: Result<PrinterInfoView, PrintErrorView>,
    registry: Map<Seq<char>, PrinterData>,
)
    ensures
        ({
            let next = watch.registry(probe, registry);
            let listed = probe is Ok && probe->Ok_0.formats.len() > 0;
            &&& next.contains_key(watch.id) <==> listed
            &&& listed ==> next[watch.id] == (PrinterData {
                id: watch.id,
                name: if probe->Ok_0.name is Some {
                    probe->Ok_0.name->0
                } else {
                    watch.host
                },
                uri: watch.uri,
                model: probe->Ok_0.model,
                formats: probe->Ok_0.formats,
            })
            &&& forall|other: Seq<char>|
                other != watch.id ==> {
                    &&& #[trigger] next.contains_key(other) == registry.contains_key(other)
                    &&& registry.contains_key(other) ==> next[other] == registry[other]
                }
        }),
{
}

/// It is noted that a configured printer came when it is listed and wasn't
/// before, or had a problem; that it is unavailable, and why, when its problem
/// isn't the one it had before; and nothing else. Its last problem is always
/// that of the last answer.
pub proof fn law_changes_are_noted(
    watch: WatchData,
    probe: Result<PrinterInfoView, PrintErrorView>,
    registry: Map<Seq<char>, PrinterData>,
)
    ensures
        ({
            let listed = probe is Ok && probe->Ok_0.formats.len() > 0;
            let problem = match probe {
                Err(error) => error.text(),
                Ok(info) => "printer does not handle a supported format"@,
            };
            let notice = watch.notice(probe, registry);
            let next = watch.next(probe);
            &&& notice is Added <==> listed && (watch.last_problem is Some
                || !registry.contains_key(watch.id))
            &&& notice is Unavailable <==> !listed && watch.last_problem != Some(problem)
            &&& notice matches NoticeData::Unavailable(why) ==> why == problem
            &&& next.last_problem == if listed {
                None
            } else {
                Some(problem)
            }
            &&& next.id == watch.id && next.uri == watch.uri && next.host == watch.host
        }),
{
}

/// A "pdl" value lists what its comma-separated parts list: one without a comma
/// the format that it is but for white space around it, in whatever case; any
/// other all that the text before a comma and the text behind it list.
pub proof fn law_pdl_parts_are_listed(a: Seq<char>, b: Seq<char>)
    ensures
        !a.contains(',') ==> {
            &&& pdl_labels(a).contains("PDF"@) <==> equal_ignoring_case(
                trimmed(a),
                "application/pdf"@,
            )
            &&& pdl_labels(a).contains("URF"@) <==> equal_ignoring_case(trimmed(a), "image/urf"@)
            &&& pdl_labels(a).contains("PWG-Raster"@) <==> equal_ignoring_case(
                trimmed(a),
                "image/pwg-raster"@,
            )
        },
        ({
            let both = pdl_labels(a + seq![','] + b);
            &&& both.contains("PDF"@) <==> pdl_labels(a).contains("PDF"@) || pdl_labels(
                b,
            ).contains("PDF"@)
            &&& both.contains("URF"@) <==> pdl_labels(a).contains("URF"@) || pdl_labels(
                b,
            ).contains("URF"@)
            &&& both.contains("PWG-Raster"@) <==> pdl_labels(a).contains("PWG-Raster"@)
                || pdl_labels(b).contains("PWG-Raster"@)
        }),
{
    law_parts(a, b, ',');
    let trim = |part: Seq<char>| trimmed(part);
    let (x, y) = (parts(a, ',').map_values(trim), parts(b, ',').map_values(trim));
    let both = parts(a + seq![','] + b, ',').map_values(trim);
    assert(both =~= x + y);
    law_labels_are_of_what_is_listed(x);
    law_labels_are_of_what_is_listed(y);
    law_labels_are_of_what_is_listed(both);
    lemma_both_list(x, y, "application/pdf"@);
    lemma_both_list(x, y, "image/urf"@);
    lemma_both_list(x, y, "image/pwg-raster"@);
    if !a.contains(',') {
        assert(x =~= seq![trimmed(a)]);
        lemma_one_lists(x, "application/pdf"@);
        lemma_one_lists(x, "image/urf"@);
        lemma_one_lists(x, "image/pwg-raster"@);
    }
}

proof fn lemma_one_lists(x: Seq<Seq<char>>, mime: Seq<char>)
    requires
        x.len() == 1,
    ensures
        (exists|i: int| 0 <= i < x.len() && #[trigger] equal_ignoring_case(x[i], mime))
            <==> equal_ignoring_case(x[0], mime),
{
}

proof fn lemma_both_list(x: Seq<Seq<char>>, y: Seq<Seq<char>>, mime: Seq<char>)
    ensures
        (exists|i: int| 0 <= i < (x + y).len() && #[trigger] equal_ignoring_case((x + y)[i], mime))
            <==> (exists|i: int| 0 <= i < x.len() && #[trigger] equal_ignoring_case(x[i], mime)) || (
        exists|i: int| 0 <= i < y.len() && #[trigger] equal_ignoring_case(y[i], mime)),
{
    let both = x + y;
    if exists|i: int| 0 <= i < both.len() && #[trigger] equal_ignoring_case(both[i], mime) {
        let i = choose|i: int| 0 <= i < both.len() && #[trigger] equal_ignoring_case(both[i], mime);
        if i < x.len() {
            assert(equal_ignoring_case(x[i], mime));
        } else {
            assert(equal_ignoring_case(y[i - x.len()], mime));
        }
    }
    if exists|i: int| 0 <= i < x.len() && #[trigger] equal_ignoring_case(x[i], mime) {
        let i = choose|i: int| 0 <= i < x.len() && #[trigger] equal_ignoring_case(x[i], mime);
        assert(equal_ignoring_case(both[i], mime));
    }
    if exists|i: int| 0 <= i < y.len() && #[trigger] equal_ignoring_case(y[i], mime) {
        let i = choose|i: int| 0 <= i < y.len() && #[trigger] equal_ignoring_case(y[i], mime);
        assert(equal_ignoring_case(both[x.len() + i], mime));
    }
}

/// A service that is gone takes its printer from the transport that it is gone
/// from, by the id that it was remembered with, and isn't remembered any more;
/// one that is resolved is remembered, and every other stays as it was.
pub proof fn law_removals_go_by_the_fullname(
    known: Known,
    fullname: String,
    secure: bool,
    remembered: Map<Seq<char>, Seq<char>>,
)
    requires
        remembered.contains_key(fullname@),
    ensures
        ({
            let id = remembered[fullname@];
            let after = known.after(ServiceEvent::Removed(fullname), secure, remembered);
            &&& after.known == known.removed(id, secure)
            &&& after.remembered == remembered.remove(fullname@)
            &&& after.probe is None
            &&& after.published == known.merge.contains_key(id)
            &&& secure ==> secure_of(after.known, id) is None && insecure_of(after.known, id)
                == insecure_of(known, id)
            &&& !secure ==> insecure_of(after.known, id) is None && secure_of(after.known, id)
                == secure_of(known, id)
            &&& known.merge.contains_key(id) ==> is_listed_by_best(after.known, id)
        }),
{
    law_gone_printers_are_dropped_from_their_transport(known, remembered[fullname@], secure);
}

/// A printer that wasn't known, was found by a service with a "pdl" on a
/// transport, and whose service is gone from that transport again, leaves what
/// is known as it was.
pub proof fn law_printers_leave_as_they_came(
    known: Known,
    service: Service,
    fullname: String,
    secure: bool,
    remembered: Map<Seq<char>, Seq<char>>,
)
    requires
        fullname@ == service@.fullname,
        !known.merge.contains_key(merged(service@)),
        !known.registry.contains_key(merged(service@)),
        known.after(ServiceEvent::Resolved(service), secure, remembered).published,
    ensures
        ({
            let found = known.after(ServiceEvent::Resolved(service), secure, remembered);
            let gone = found.known.after(
                ServiceEvent::Removed(fullname),
                secure,
                found.remembered,
            );
            &&& found.known.registry.contains_key(merged(service@))
            &&& gone.known == known
            &&& !gone.remembered.contains_key(fullname@)
            &&& gone.published
        }),
{
    let found = known.after(ServiceEvent::Resolved(service), secure, remembered);
    let gone = found.known.after(ServiceEvent::Removed(fullname), secure, found.remembered);
    assert(gone.known.registry =~= known.registry);
    assert(gone.known.merge =~= known.merge);
}

/// A printer and what a service says of it are seen with all that they hold.
pub proof fn law_printers_are_seen_whole(printer: Printer, service: Service, i: int)
    ensures
        printer@.id == printer.id@,
        printer@.name == printer.name@,
        printer@.uri == printer.uri@,
        printer.model is Some ==> printer@.model == Some(printer.model->0@),
        printer.model is None ==> printer@.model is None,
        printer@.formats.len() == printer.formats@.len(),
        0 <= i < printer.formats@.len() ==> printer@.formats[i] == printer.formats@[i]@,
        service@.fullname == service.fullname@,
        service@.host == service.host@,
        service@.port == service.port,
        service@.pdl == text_of(service.pdl),
        service@.rp == text_of(service.rp),
        service@.ty == text_of(service.ty),
        service@.addresses.len() == service.addresses@.len(),
        0 <= i < service.addresses@.len() ==> service@.addresses[i].text
            == service.addresses@[i].text@ && service@.addresses[i].is_ipv4
            == service.addresses@[i].is_ipv4,
{
}

/// Slots are seen with what each of them holds, and a watch and a notice with
/// all that they hold.
pub proof fn law_slots_are_seen_whole(slots: TransportSlots, watch: Watch, notice: Notice)
    ensures
        slots.secure is Some ==> slots@.secure == Some(slots.secure->0@),
        slots.secure is None ==> slots@.secure is None,
        slots.insecure is Some ==> slots@.insecure == Some(slots.insecure->0@),
        slots.insecure is None ==> slots@.insecure is None,
        watch@.uri == watch.uri@,
        watch@.host == watch.host@,
        watch@.id == watch.id@,
        watch@.last_problem == text_of(watch.last_problem),
        match notice {
            Notice::Added => notice@ is Added,
            Notice::Unavailable(why) => notice@ == NoticeData::Unavailable(why@),
            Notice::Unchanged => notice@ is Unchanged,
        },
{
}

/// A service that is resolved leads to what it leads to, and is remembered by
/// its fullname, with every other one, if it is to be; anything but a service
/// that came or went changes nothing.
pub proof fn law_resolved_services_are_remembered(
    known: Known,
    service: Service,
    secure: bool,
    remembered: Map<Seq<char>, Seq<char>>,
)
    ensures
        ({
            let after = known.after(ServiceEvent::Resolved(service), secure, remembered);
            let resolved = known.resolved(service@, secure);
            &&& after.known == resolved.known
            &&& after.probe == resolved.probe
            &&& after.published == resolved.published
            &&& resolved.remembered is None ==> after.remembered == remembered
            &&& resolved.remembered is Some ==> after.remembered == remembered.insert(
                service@.fullname,
                merged(service@),
            )
        }),
        ({
            let other = known.after(ServiceEvent::Other, secure, remembered);
            other.known == known && other.remembered == remembered && other.probe is None
                && !other.published
        }),
{
}

/// What asking a printer came to is seen as what it said, or as why it didn't;
/// and a printer that may be there as what it is.
pub proof fn law_probes_are_seen_whole(
    probe: Result<PrinterInfo, PrintError>,
    printer: Option<Printer>,
)
    ensures
        probe is Ok ==> probe_view(probe) == Ok::<PrinterInfoView, PrintErrorView>(
            probe->Ok_0@,
        ),
        probe is Err ==> probe_view(probe) == Err::<PrinterInfoView, PrintErrorView>(
            probe->Err_0@,
        ),
        printer is Some ==> data_of(printer) == Some(printer->0@),
        printer is None ==> data_of(printer) is None,
{
}

} // verus!
