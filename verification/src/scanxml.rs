//! The probe-output parsers: nmap-style XML, consumed as a stream of
//! markup events.  The tokenizer is the `xml` crate behind a trusted
//! wrapper; everything the scanner reads out of the events — discovered
//! addresses, services, vulnerability tables, the OS match — is parsed
//! here, verified against event-stream specifications.

use vstd::prelude::*;
use crate::probe::{Protocol, State, Service, Vulnerability};
use crate::probe;
use crate::textutil::{str_eq, parse_u64_chars, parse_cvss_tenths, spec_cvss_tenths, all_digit_chars,
    char_dec_value};

verus! {

/// One markup event of a probe's XML output.
pub enum XmlEv {
    /// An opening element: its local name and its attributes, each a
    /// name/value pair in document order.
    Start(String, Vec<(String, String)>),
    /// Character data.
    Text(String),
    /// A closing element: its local name.
    End(String),
    /// Any other event of the stream.
    Other,
}

/// The mathematical shape of a markup event.
pub enum XmlEvV {
    Start(Seq<char>, Seq<(Seq<char>, Seq<char>)>),
    Text(Seq<char>),
    End(Seq<char>),
    Other,
}

/// The shapes of an attribute listing, in order.
pub open spec fn attrs_view(s: Seq<(String, String)>) -> Seq<(Seq<char>, Seq<char>)> {
    s.map_values(|a: (String, String)| (a.0@, a.1@))
}

impl View for XmlEv {
    type V = XmlEvV;

    open spec fn view(&self) -> XmlEvV {
        match self {
            XmlEv::Start(name, attrs) => XmlEvV::Start(name@, attrs_view(attrs@)),
            XmlEv::Text(t) => XmlEvV::Text(t@),
            XmlEv::End(name) => XmlEvV::End(name@),
            XmlEv::Other => XmlEvV::Other,
        }
    }
}

/// The shapes of an event listing, in order.
pub open spec fn events_view(s: Seq<XmlEv>) -> Seq<XmlEvV> {
    s.map_values(|e: XmlEv| e@)
}

/// The markup events a text tokenizes to; named here, computed by the
/// tokenizer.
pub uninterp spec fn xml_events_of(s: Seq<char>) -> Seq<XmlEvV>;

/// Relies on `xml::reader::EventReader`: tokenizing a text yields a
/// deterministic event stream, a function of the text alone (the reader's
/// iterator ends after the document end or the first error).
#[verifier::external_body]
pub fn xml_events(s: &str) -> (r: Vec<XmlEv>)
    ensures
        events_view(r@) == xml_events_of(s@),
{
    xml::reader::EventReader::from_str(s).into_iter().map(|ev| match ev {
        Ok(xml::reader::XmlEvent::StartElement { name, attributes, .. }) => XmlEv::Start(
            name.local_name,
            attributes.into_iter().map(|a| (a.name.local_name, a.value)).collect(),
        ),
        Ok(xml::reader::XmlEvent::Characters(t)) => XmlEv::Text(t),
        Ok(xml::reader::XmlEvent::EndElement { name }) => XmlEv::End(name.local_name),
        _ => XmlEv::Other,
    }).collect()
}

/// The value of the first attribute carrying this name, if any.
pub open spec fn first_attr(attrs: Seq<(Seq<char>, Seq<char>)>, name: Seq<char>) -> Option<Seq<char>>
    decreases attrs.len(),
{
    if attrs.len() == 0 {
        None
    } else if attrs[0].0 == name {
        Some(attrs[0].1)
    } else {
        first_attr(attrs.drop_first(), name)
    }
}

/// The value of the first attribute carrying this name, if any.
pub fn attr_value(attrs: &Vec<(String, String)>, name: &str) -> (r: Option<String>)
    ensures
        ({
            let s = first_attr(attrs_view(attrs@), name@);
            ((r is Some) == (s is Some)) && (r matches Some(v) ==> v@ == s->0)
        }),
{
    proof {
        assert(attrs_view(attrs@).skip(0) =~= attrs_view(attrs@));
    }
    let mut k: usize = 0;
    while k < attrs.len()
        invariant
            0 <= k <= attrs@.len(),
            first_attr(attrs_view(attrs@), name@) == first_attr(attrs_view(attrs@).skip(k as int), name@),
        decreases attrs@.len() - k,
    {
        proof {
            assert(attrs_view(attrs@).skip(k as int)[0] == (attrs@[k as int].0@, attrs@[k as int].1@));
            assert(attrs_view(attrs@).skip(k as int).drop_first() =~= attrs_view(attrs@).skip(k as int + 1));
        }
        if str_eq(attrs[k].0.as_str(), name) {
            return Some(attrs[k].1.clone());
        }
        k += 1;
    }
    proof {
        assert(attrs_view(attrs@).skip(attrs@.len() as int) =~= Seq::<(Seq<char>, Seq<char>)>::empty());
    }
    None
}

/// Some attribute marks this element as an address of a host: an
/// `addrtype` of `ipv4` or `ipv6`.
pub open spec fn has_ip_addrtype(attrs: Seq<(Seq<char>, Seq<char>)>) -> bool {
    exists|i: int|
        0 <= i < attrs.len() && (#[trigger] attrs[i]).0 == "addrtype"@ && (attrs[i].1 == "ipv4"@
            || attrs[i].1 == "ipv6"@)
}

/// The address an address element names: its `addr` attribute, or the
/// loopback address when it carries none.
pub open spec fn addr_of(attrs: Seq<(Seq<char>, Seq<char>)>) -> Seq<char> {
    match first_attr(attrs, "addr"@) {
        Some(v) => v,
        None => "127.0.0.1"@,
    }
}

/// The addresses a host-discovery event contributes: one for each opening
/// `address` element typed as an IP address.
pub open spec fn discovery_step(ev: XmlEvV) -> Seq<Seq<char>> {
    match ev {
        XmlEvV::Start(name, attrs) => {
            if name == "address"@ && has_ip_addrtype(attrs) {
                seq![addr_of(attrs)]
            } else {
                Seq::empty()
            }
        },
        _ => Seq::empty(),
    }
}

/// The addresses a host-discovery document lists, in document order.
pub open spec fn spec_discovery(evs: Seq<XmlEvV>) -> Seq<Seq<char>>
    decreases evs.len(),
{
    if evs.len() == 0 {
        Seq::empty()
    } else {
        discovery_step(evs[0]) + spec_discovery(evs.drop_first())
    }
}

/// The text views of a string listing, in order.
pub open spec fn strings_view(s: Seq<String>) -> Seq<Seq<char>> {
    s.map_values(|x: String| x@)
}

/// Parses the responsive addresses out of a host-discovery document's
/// events: one address per IP-typed `address` element, in order.
pub fn parse_discovery(events: &Vec<XmlEv>) -> (r: Vec<String>)
    ensures
        strings_view(r@) == spec_discovery(events_view(events@)),
{
    let ghost evs = events_view(events@);
    proof {
        assert(evs.skip(0) =~= evs);
    }
    let mut out: Vec<String> = Vec::new();
    let mut k: usize = 0;
    while k < events.len()
        invariant
            0 <= k <= events@.len(),
            evs == events_view(events@),
            evs.len() == events@.len(),
            spec_discovery(evs) == strings_view(out@) + spec_discovery(evs.skip(k as int)),
        decreases events@.len() - k,
    {
        proof {
            assert(evs.skip(k as int)[0] == events@[k as int]@);
            assert(evs.skip(k as int).drop_first() =~= evs.skip(k as int + 1));
        }
        let ghost pre = out@;
        match &events[k] {
            XmlEv::Start(name, attrs) => {
                if str_eq(name.as_str(), "address") {
                    let mut is_ip = false;
                    let mut j: usize = 0;
                    while j < attrs.len()
                        invariant
                            0 <= j <= attrs@.len(),
                            is_ip ==> has_ip_addrtype(attrs_view(attrs@)),
                            !is_ip ==> forall|i: int|
                                0 <= i < j ==> !((#[trigger] attrs_view(attrs@)[i]).0 == "addrtype"@
                                    && (attrs_view(attrs@)[i].1 == "ipv4"@ || attrs_view(attrs@)[i].1
                                    == "ipv6"@)),
                        decreases attrs@.len() - j,
                    {
                        proof {
                            assert(attrs_view(attrs@)[j as int] == (attrs@[j as int].0@, attrs@[j as int].1@));
                        }
                        if str_eq(attrs[j].0.as_str(), "addrtype") && (str_eq(attrs[j].1.as_str(), "ipv4")
                            || str_eq(attrs[j].1.as_str(), "ipv6")) {
                            is_ip = true;
                        }
                        j += 1;
                    }
                    if is_ip {
                        let addr = match attr_value(attrs, "addr") {
                            Some(v) => v,
                            None => String::from_str("127.0.0.1"),
                        };
                        out.push(addr);
                        proof {
                            assert(strings_view(out@) =~= pre.map_values(|x: String| x@) + seq![
                                addr_of(attrs_view(attrs@)),
                            ]);
                        }
                    }
                }
            },
            _ => {},
        }
        proof {
            if strings_view(out@) != strings_view(pre) {
            } else {
                assert(strings_view(out@) =~= strings_view(pre));
            }
            assert(spec_discovery(evs) == strings_view(out@) + spec_discovery(evs.skip(k as int + 1))) by {
                assert(spec_discovery(evs.skip(k as int)) == discovery_step(evs.skip(k as int)[0])
                    + spec_discovery(evs.skip(k as int + 1)));
                assert(strings_view(out@) =~= strings_view(pre) + discovery_step(events@[k as int]@));
                assert(strings_view(pre) + discovery_step(events@[k as int]@) + spec_discovery(
                    evs.skip(k as int + 1),
                ) =~= strings_view(pre) + (discovery_step(events@[k as int]@) + spec_discovery(
                    evs.skip(k as int + 1),
                )));
            }
        }
        k += 1;
    }
    proof {
        assert(evs.skip(evs.len() as int) =~= Seq::<XmlEvV>::empty());
        assert(strings_view(out@) + Seq::<Seq<char>>::empty() =~= strings_view(out@));
    }
    out
}


/// The shape of one vulnerability row under construction.
pub struct VulnV {
    pub database: Seq<char>,
    pub id: Seq<char>,
    pub cvss: u32,
    pub exploit: bool,
}

/// The shape of one service row under construction.
pub struct SvcV {
    pub port: u16,
    pub protocol: Protocol,
    pub state: State,
    pub name: Seq<char>,
    pub product: Seq<char>,
    pub version: Seq<char>,
    pub vulns: Seq<VulnV>,
}

/// The parser state of a service-scan document walk.
pub struct PsV {
    pub services: Seq<SvcV>,
    pub os: Option<Seq<char>>,
    pub service: SvcV,
    pub vuln: VulnV,
    pub in_vulners: bool,
    pub key: Seq<char>,
}

/// An empty vulnerability under construction.
pub open spec fn empty_vuln() -> VulnV {
    VulnV { database: Seq::empty(), id: Seq::empty(), cvss: 0, exploit: false }
}

/// An empty service under construction.
pub open spec fn empty_svc() -> SvcV {
    SvcV {
        port: 0,
        protocol: Protocol::UNKNOWN,
        state: State::UNKNOWN,
        name: Seq::empty(),
        product: Seq::empty(),
        version: Seq::empty(),
        vulns: Seq::empty(),
    }
}

/// The initial parser state.
pub open spec fn ps_init() -> PsV {
    PsV {
        services: Seq::empty(),
        os: None,
        service: empty_svc(),
        vuln: empty_vuln(),
        in_vulners: false,
        key: Seq::empty(),
    }
}

/// The port number an opening `port` element declares: its `portid`
/// attribute as a 16-bit number, zero when absent or unparsable.
pub open spec fn port_attr(attrs: Seq<(Seq<char>, Seq<char>)>) -> u16 {
    match first_attr(attrs, "portid"@) {
        Some(v) => {
            if v.len() > 0 && all_digit_chars(v) && char_dec_value(v) <= 65535 {
                char_dec_value(v) as u16
            } else {
                0
            }
        },
        None => 0,
    }
}

/// The protocol an opening `port` element declares: `tcp` or `udp`, else
/// unknown.
pub open spec fn proto_attr(attrs: Seq<(Seq<char>, Seq<char>)>) -> Protocol {
    match first_attr(attrs, "protocol"@) {
        Some(v) => {
            if v == "tcp"@ {
                Protocol::TCP
            } else if v == "udp"@ {
                Protocol::UDP
            } else {
                Protocol::UNKNOWN
            }
        },
        None => Protocol::UNKNOWN,
    }
}

/// The port state a `state` element declares: `open`, `filter` or `close`,
/// else unknown.
pub open spec fn state_attr(attrs: Seq<(Seq<char>, Seq<char>)>) -> State {
    match first_attr(attrs, "state"@) {
        Some(v) => {
            if v == "open"@ {
                State::OPEN
            } else if v == "filter"@ {
                State::FILTER
            } else if v == "close"@ {
                State::CLOSE
            } else {
                State::UNKNOWN
            }
        },
        None => State::UNKNOWN,
    }
}

/// A named attribute's value, or empty text when absent.
pub open spec fn attr_or_empty(attrs: Seq<(Seq<char>, Seq<char>)>, name: Seq<char>) -> Seq<char> {
    match first_attr(attrs, name) {
        Some(v) => v,
        None => Seq::empty(),
    }
}

/// The value of an element's first attribute, whatever its name; empty when
/// the element carries none.
pub open spec fn first_attr_value(attrs: Seq<(Seq<char>, Seq<char>)>) -> Seq<char> {
    if attrs.len() > 0 {
        attrs[0].1
    } else {
        Seq::empty()
    }
}

/// One step of the service-scan walk.  An opening `port` fixes the number
/// and protocol of the service under construction; `state` and `service`
/// elements fill its state and naming; the first `osmatch` fixes the host
/// OS; a `script` element named `vulners` opens the vulnerability table,
/// whose `elem` texts fill the candidate keyed by the element's first
/// attribute.  A closing `port` commits the service; a closing `table`
/// commits a named candidate; a closing `script` leaves the table.
pub open spec fn ps_step(st: PsV, ev: XmlEvV) -> PsV {
    match ev {
        XmlEvV::Start(name, attrs) => {
            if name == "port"@ {
                PsV {
                    service: SvcV { port: port_attr(attrs), protocol: proto_attr(attrs), ..st.service },
                    ..st
                }
            } else if name == "state"@ {
                PsV { service: SvcV { state: state_attr(attrs), ..st.service }, ..st }
            } else if name == "service"@ {
                PsV {
                    service: SvcV {
                        name: attr_or_empty(attrs, "name"@),
                        product: attr_or_empty(attrs, "product"@),
                        version: attr_or_empty(attrs, "version"@),
                        ..st.service
                    },
                    ..st
                }
            } else if name == "osmatch"@ {
                if st.os is None {
                    PsV { os: first_attr(attrs, "name"@), ..st }
                } else {
                    st
                }
            } else if name == "script"@ && first_attr(attrs, "id"@) == Some("vulners"@) {
                PsV { in_vulners: true, ..st }
            } else if st.in_vulners && name == "elem"@ {
                PsV { key: first_attr_value(attrs), ..st }
            } else {
                st
            }
        },
        XmlEvV::Text(t) => {
            if st.in_vulners && st.key.len() > 0 {
                if st.key == "id"@ {
                    PsV { vuln: VulnV { id: t, ..st.vuln }, ..st }
                } else if st.key == "type"@ {
                    PsV { vuln: VulnV { database: t, ..st.vuln }, ..st }
                } else if st.key == "is_exploit"@ {
                    PsV { vuln: VulnV { exploit: t == "true"@, ..st.vuln }, ..st }
                } else if st.key == "cvss"@ {
                    PsV { vuln: VulnV { cvss: spec_cvss_tenths(t), ..st.vuln }, ..st }
                } else {
                    st
                }
            } else {
                st
            }
        },
        XmlEvV::End(name) => {
            if name == "port"@ {
                PsV { services: st.services.push(st.service), service: empty_svc(), ..st }
            } else if st.in_vulners && name == "table"@ && st.vuln.id.len() > 0 {
                PsV {
                    service: SvcV { vulns: st.service.vulns.push(st.vuln), ..st.service },
                    vuln: empty_vuln(),
                    ..st
                }
            } else if st.in_vulners && name == "script"@ {
                PsV { in_vulners: false, ..st }
            } else {
                st
            }
        },
        XmlEvV::Other => st,
    }
}

/// The service-scan walk over a whole event stream.
pub open spec fn ps_run(st: PsV, evs: Seq<XmlEvV>) -> PsV
    decreases evs.len(),
{
    if evs.len() == 0 {
        st
    } else {
        ps_run(ps_step(st, evs[0]), evs.drop_first())
    }
}

/// Walking one more event steps the walk once at the end.
pub proof fn lemma_ps_run_snoc(st: PsV, evs: Seq<XmlEvV>, ev: XmlEvV)
    ensures
        ps_run(st, evs.push(ev)) == ps_step(ps_run(st, evs), ev),
    decreases evs.len(),
{
    if evs.len() == 0 {
        assert(evs.push(ev)[0] == ev);
        assert(evs.push(ev).drop_first() =~= Seq::<XmlEvV>::empty());
        assert(ps_run(ps_step(st, ev), Seq::<XmlEvV>::empty()) == ps_step(st, ev));
    } else {
        assert(evs.push(ev)[0] == evs[0]);
        assert(evs.push(ev).drop_first() =~= evs.drop_first().push(ev));
        lemma_ps_run_snoc(ps_step(st, evs[0]), evs.drop_first(), ev);
        assert(ps_run(st, evs.push(ev)) == ps_run(ps_step(st, evs[0]), evs.drop_first().push(ev)));
        assert(ps_run(st, evs) == ps_run(ps_step(st, evs[0]), evs.drop_first()));
    }
}

/// A text event changes only the vulnerability under construction.
proof fn lemma_ps_step_text(st: PsV, ev: XmlEvV)
    requires
        ev is Text,
    ensures
        ps_step(st, ev).services == st.services,
        ps_step(st, ev).os == st.os,
        ps_step(st, ev).service == st.service,
        ps_step(st, ev).in_vulners == st.in_vulners,
        ps_step(st, ev).key == st.key,
{
}

/// A closing element never changes the OS match or the table key.
proof fn lemma_ps_step_end(st: PsV, ev: XmlEvV)
    requires
        ev is End,
    ensures
        ps_step(st, ev).os == st.os,
        ps_step(st, ev).key == st.key,
{
}

/// The shape of one parsed vulnerability.
pub open spec fn vuln_view(v: Vulnerability) -> VulnV {
    VulnV { database: v.database@, id: v.id@, cvss: v.cvss, exploit: v.exploit }
}

/// The shapes of a vulnerability listing, in order.
pub open spec fn vulns_view(s: Seq<Vulnerability>) -> Seq<VulnV> {
    s.map_values(|v: Vulnerability| vuln_view(v))
}

/// The shape of one parsed service.
pub open spec fn svc_view(s: Service) -> SvcV {
    SvcV {
        port: s.port,
        protocol: s.protocol,
        state: s.state,
        name: s.name@,
        product: s.product@,
        version: s.version@,
        vulns: vulns_view(s.vulns@),
    }
}

/// The shapes of a service listing, in order.
pub open spec fn services_view(s: Seq<Service>) -> Seq<SvcV> {
    s.map_values(|x: Service| svc_view(x))
}

/// The shape of an optional OS observation.
pub open spec fn os_view(o: Option<String>) -> Option<Seq<char>> {
    match o {
        Some(s) => Some(s@),
        None => None,
    }
}

/// Parses a service-scan document's events into the observed services and
/// the OS match, exactly as the event walk specifies.
#[verifier::rlimit(60)]
pub fn parse_portscan(events: &Vec<XmlEv>) -> (r: (Vec<Service>, Option<String>))
    ensures
        ({
            let st = ps_run(ps_init(), events_view(events@));
            services_view(r.0@) == st.services && os_view(r.1) == st.os
        }),
{
    let ghost evs = events_view(events@);
    let mut services: Vec<Service> = Vec::new();
    let mut os: Option<String> = None;
    let mut service = Service {
        port: 0,
        protocol: Protocol::UNKNOWN,
        state: State::UNKNOWN,
        name: String::new(),
        product: String::new(),
        version: String::new(),
        vulns: Vec::new(),
    };
    let mut vuln = Vulnerability { database: String::new(), id: String::new(), cvss: 0, exploit: false };
    let mut in_vulners = false;
    let mut key = String::new();
    proof {
        assert(evs.take(0) =~= Seq::<XmlEvV>::empty());
        assert(services_view(services@) =~= ps_init().services);
        assert(vulns_view(service.vulns@) =~= empty_svc().vulns);
    }
    let mut k: usize = 0;
    while k < events.len()
        invariant
            0 <= k <= events@.len(),
            evs == events_view(events@),
            evs.len() == events@.len(),
            ({
                let st = ps_run(ps_init(), evs.take(k as int));
                &&& services_view(services@) == st.services
                &&& os_view(os) == st.os
                &&& svc_view(service) == st.service
                &&& vuln_view(vuln) == st.vuln
                &&& in_vulners == st.in_vulners
                &&& key@ == st.key
            }),
        decreases events@.len() - k,
    {
        let ghost st_pre = ps_run(ps_init(), evs.take(k as int));
        let ghost st_post = ps_step(st_pre, evs[k as int]);
        proof {
            reveal_strlit("port");
            reveal_strlit("state");
            reveal_strlit("service");
            reveal_strlit("osmatch");
            reveal_strlit("script");
            reveal_strlit("elem");
            reveal_strlit("table");
            reveal_strlit("id");
            reveal_strlit("type");
            reveal_strlit("is_exploit");
            reveal_strlit("cvss");
            assert(("port")@.len() == 4 && ("port")@[0] == 'p');
            assert(("state")@.len() == 5 && ("state")@[0] == 's');
            assert(("service")@.len() == 7 && ("service")@[0] == 's');
            assert(("osmatch")@.len() == 7 && ("osmatch")@[0] == 'o');
            assert(("script")@.len() == 6 && ("script")@[0] == 's');
            assert(("elem")@.len() == 4 && ("elem")@[0] == 'e');
            assert(("table")@.len() == 5 && ("table")@[0] == 't');
            assert(("id")@.len() == 2 && ("id")@[0] == 'i');
            assert(("type")@.len() == 4 && ("type")@[0] == 't');
            assert(("is_exploit")@.len() == 10 && ("is_exploit")@[0] == 'i');
            assert(("cvss")@.len() == 4 && ("cvss")@[0] == 'c');
            assert(evs.take(k as int + 1) =~= evs.take(k as int).push(evs[k as int]));
            lemma_ps_run_snoc(ps_init(), evs.take(k as int), evs[k as int]);
            assert(evs[k as int] == events@[k as int]@);
        }
        match &events[k] {
            XmlEv::Start(name, attrs) => {
                if str_eq(name.as_str(), "port") {
                    let pv = match attr_value(attrs, "portid") {
                        Some(v) => {
                            match parse_u64_chars(v.as_str(), 65535) {
                                Some(n) => n as u16,
                                None => 0,
                            }
                        },
                        None => 0,
                    };
                    service.port = pv;
                    let proto = match attr_value(attrs, "protocol") {
                        Some(v) => {
                            if str_eq(v.as_str(), "tcp") {
                                Protocol::TCP
                            } else if str_eq(v.as_str(), "udp") {
                                Protocol::UDP
                            } else {
                                Protocol::UNKNOWN
                            }
                        },
                        None => Protocol::UNKNOWN,
                    };
                    service.protocol = proto;
                } else if str_eq(name.as_str(), "state") {
                    let stv = match attr_value(attrs, "state") {
                        Some(v) => {
                            if str_eq(v.as_str(), "open") {
                                State::OPEN
                            } else if str_eq(v.as_str(), "filter") {
                                State::FILTER
                            } else if str_eq(v.as_str(), "close") {
                                State::CLOSE
                            } else {
                                State::UNKNOWN
                            }
                        },
                        None => State::UNKNOWN,
                    };
                    service.state = stv;
                } else if str_eq(name.as_str(), "service") {
                    service.name = match attr_value(attrs, "name") {
                        Some(v) => v,
                        None => String::new(),
                    };
                    service.product = match attr_value(attrs, "product") {
                        Some(v) => v,
                        None => String::new(),
                    };
                    service.version = match attr_value(attrs, "version") {
                        Some(v) => v,
                        None => String::new(),
                    };
                } else if str_eq(name.as_str(), "osmatch") {
                    if os.is_none() {
                        os = attr_value(attrs, "name");
                    }
                } else if str_eq(name.as_str(), "script") {
                    let id_is_vulners = match attr_value(attrs, "id") {
                        Some(v) => str_eq(v.as_str(), "vulners"),
                        None => false,
                    };
                    proof {
                        assert(id_is_vulners == (first_attr(attrs_view(attrs@), "id"@) == Some("vulners"@)));
                    }
                    if id_is_vulners {
                        in_vulners = true;
                    }
                } else if in_vulners && str_eq(name.as_str(), "elem") {
                    key = if attrs.len() > 0 {
                        attrs[0].1.clone()
                    } else {
                        String::new()
                    };
                    proof {
                        if attrs@.len() > 0 {
                            assert(attrs_view(attrs@)[0] == (attrs@[0].0@, attrs@[0].1@));
                        }
                        assert(st_post.key == first_attr_value(attrs_view(attrs@)));
                    }
                } else {
                    proof {
                        if evs[k as int] is Start {
                            assert(st_post.key == st_pre.key);
                        }
                    }
                }
            },
            XmlEv::Text(t) => {
                if in_vulners && !key.as_str().is_empty() {
                    if str_eq(key.as_str(), "id") {
                        vuln.id = t.clone();
                    } else if str_eq(key.as_str(), "type") {
                        vuln.database = t.clone();
                    } else if str_eq(key.as_str(), "is_exploit") {
                        vuln.exploit = str_eq(t.as_str(), "true");
                    } else if str_eq(key.as_str(), "cvss") {
                        vuln.cvss = parse_cvss_tenths(t.as_str());
                    }
                }
            },
            XmlEv::End(name) => {
                if str_eq(name.as_str(), "port") {
                    proof {
                        assert(st_post.in_vulners == st_pre.in_vulners);
                        assert(st_post.key == st_pre.key);
                    }
                    let done = Service {
                        port: service.port,
                        protocol: service.protocol,
                        state: service.state,
                        name: service.name,
                        product: service.product,
                        version: service.version,
                        vulns: service.vulns,
                    };
                    services.push(done);
                    service = Service {
                        port: 0,
                        protocol: Protocol::UNKNOWN,
                        state: State::UNKNOWN,
                        name: String::new(),
                        product: String::new(),
                        version: String::new(),
                        vulns: Vec::new(),
                    };
                    proof {
                        assert(services_view(services@) =~= st_pre.services.push(st_pre.service));
                        assert(vulns_view(service.vulns@) =~= empty_svc().vulns);
                    }
                } else if in_vulners && str_eq(name.as_str(), "table") {
                    proof {
                        assert(st_post.in_vulners == st_pre.in_vulners);
                    }
                    if !vuln.id.as_str().is_empty() {
                        let done = Vulnerability {
                            database: vuln.database,
                            id: vuln.id,
                            cvss: vuln.cvss,
                            exploit: vuln.exploit,
                        };
                        service.vulns.push(done);
                        vuln = Vulnerability {
                            database: String::new(),
                            id: String::new(),
                            cvss: 0,
                            exploit: false,
                        };
                        proof {
                            assert(vulns_view(service.vulns@) =~= st_pre.service.vulns.push(st_pre.vuln));
                        }
                    }
                } else if in_vulners && str_eq(name.as_str(), "script") {
                    in_vulners = false;
                    proof {
                        assert(!st_post.in_vulners);
                    }
                } else {
                    proof {
                        if evs[k as int] is End {
                            assert(st_post.in_vulners == st_pre.in_vulners);
                        }
                    }
                }
            },
            XmlEv::Other => {},
        }
        proof {
            if evs[k as int] is Text {
                lemma_ps_step_text(st_pre, evs[k as int]);
            }
            if evs[k as int] is End {
                lemma_ps_step_end(st_pre, evs[k as int]);
            }
            assert(ps_run(ps_init(), evs.take(k as int + 1)) == st_post);
            assert(services_view(services@) == st_post.services);
            assert(os_view(os) == st_post.os);
            assert(svc_view(service) == st_post.service);
            assert(vuln_view(vuln) == st_post.vuln);
            assert(in_vulners == st_post.in_vulners);
            assert(key@ == st_post.key);
        }
        k += 1;
    }
    proof {
        assert(evs.take(evs.len() as int) =~= evs);
    }
    (services, os)
}

} // verus!
