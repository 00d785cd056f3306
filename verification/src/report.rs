//! Report row building: the CSV export the renderer consumes, and the row
//! sets behind the PDF report.

use vstd::prelude::*;
use crate::store::{Store, StoreV, Host, HostHistory, Port, Cve};
use crate::entities::{ports_of_hist, routing_from_host, cves_of_hist, cve_le, shares_of_windows,
    printers_of_windows};
use crate::temporal::{present_rows, host_le, joined_row};
use crate::textutil::{spec_idec, i64_to_string};

verus! {

/// The comma-joined `PROTO/PORT` tokens of a port listing.
pub open spec fn ports_text(ports: Seq<Port>) -> Seq<char>
    decreases ports.len(),
{
    if ports.len() == 0 {
        Seq::empty()
    } else if ports.len() == 1 {
        port_token(ports[0])
    } else {
        ports_text(ports.drop_last()) + ","@ + port_token(ports.last())
    }
}

/// One `proto/port` token: the stored protocol text lowered, a slash, the
/// port number.
pub open spec fn port_token(p: Port) -> Seq<char> {
    crate::textutil::lower_ascii(p.protocol@) + "/"@ + spec_idec(p.port as int)
}

/// The address of the gateway behind this observation in this scan, or
/// `0.0.0.0` when the routing snapshot names none.
pub open spec fn gateway_ip(v: StoreV, hist_id: i64, scan: i64) -> Seq<char> {
    let edges = routing_from_host(v.routing, hist_id, scan);
    if edges.len() == 0 {
        "0.0.0.0"@
    } else {
        let e = edges.last();
        let hist = choose|h: HostHistory| v.history.contains(h) && h.id == e.right;
        let hostrow = choose|h: Host| v.hosts.contains(h) && h.id == hist.host_id;
        hostrow.ip@
    }
}

/// One CSV body line: id, address, network, gateway, OS and ports, joined
/// by semicolons.
pub open spec fn csv_line(v: StoreV, scan: i64, row: Host) -> Seq<char> {
    spec_idec(row.id as int) + ";"@ + row.ip@ + ";"@ + row.network@ + ";"@ + gateway_ip(v, row.hist_id, scan)
        + ";"@ + row.os@ + ";"@ + ports_text(ports_of_hist(v.ports, row.hist_id))
}

/// The whole CSV text of an ordered host listing: the header, then one
/// line per host, each introduced by a line feed.
pub open spec fn csv_text(v: StoreV, scan: i64, rows: Seq<Host>) -> Seq<char>
    decreases rows.len(),
{
    if rows.len() == 0 {
        "ID;IP;Network;Parent;OS;Ports"@
    } else {
        csv_text(v, scan, rows.drop_last()) + "\n"@ + csv_line(v, scan, rows.last())
    }
}

/// The CSV renderer's input.
pub struct Csv {}

impl Csv {
    /// Exports one scan of one network as CSV: the fixed header, then one
    /// semicolon-separated line per host of the scan, ordered as the host
    /// listing orders them (worst CVSS first, then address), fields id,
    /// address, network, gateway (`0.0.0.0` when none), OS and the
    /// comma-joined `PROTO/PORT` tokens.  Lines are joined by line feeds.
    pub fn export(db: &mut Store, network: String, scan: i64) -> (r: String)
        requires
            old(db).wf(),
        ensures
            final(db)@ == old(db)@,
            exists|rows: Seq<Host>|
                {
                    &&& (#[trigger] rows.to_multiset()) == present_rows(old(db)@, network@, scan)
                        .to_multiset()
                    &&& (forall|i: int, j: int|
                        0 <= i < j < rows.len() ==> host_le(old(db)@.cves, #[trigger] rows[i], #[trigger] rows[j]))
                    &&& r@ == csv_text(old(db)@, scan, rows)
                },
    {
        let hosts = Host::list_from_network(db, network.as_str(), scan);
        let mut out = String::from_str("ID;IP;Network;Parent;OS;Ports");
        proof {
            assert(hosts@.subrange(0, 0) =~= Seq::<Host>::empty());
            assert(out@ == csv_text(db@, scan, hosts@.subrange(0, 0)));
        }
        let mut k: usize = 0;
        while k < hosts.len()
            invariant
                db.wf(),
                db@ == old(db)@,
                0 <= k <= hosts@.len(),
                out@ == csv_text(db@, scan, hosts@.subrange(0, k as int)),
            decreases hosts@.len() - k,
        {
            proof {
                assert(hosts@.subrange(0, k as int + 1).drop_last() =~= hosts@.subrange(0, k as int));
                assert(hosts@.subrange(0, k as int + 1).last() == hosts@[k as int]);
            }
            let row = &hosts[k];
            let gw = match Host::get_gateway(db, row.hist_id, scan) {
                Some(g) => g.ip,
                None => String::from_str("0.0.0.0"),
            };
            proof {
                lemma_gateway_ip(db@, row.hist_id, scan, gw@);
            }
            let ports = Port::load(db, row.hist_id);
            let mut ports_str = String::new();
            let mut t: usize = 0;
            proof {
                assert(ports@.subrange(0, 0) =~= Seq::<Port>::empty());
            }
            while t < ports.len()
                invariant
                    0 <= t <= ports@.len(),
                    ports_str@ == ports_text(ports@.subrange(0, t as int)),
                decreases ports@.len() - t,
            {
                proof {
                    assert(ports@.subrange(0, t as int + 1).drop_last() =~= ports@.subrange(0, t as int));
                    assert(ports@.subrange(0, t as int + 1).last() == ports@[t as int]);
                }
                if t > 0 {
                    ports_str.append(",");
                }
                let proto = crate::textutil::to_ascii_lower(ports[t].protocol.as_str());
                ports_str.append(proto.as_str());
                ports_str.append("/");
                let pnum = i64_to_string(ports[t].port as i64);
                ports_str.append(pnum.as_str());
                proof {
                    reveal_strlit(",");
                    reveal_strlit("/");
                    assert(ports_str@ =~= ports_text(ports@.subrange(0, t as int + 1)));
                }
                t += 1;
            }
            proof {
                assert(ports@.subrange(0, ports@.len() as int) =~= ports@);
            }
            out.append("\n");
            let idtext = i64_to_string(row.id);
            out.append(idtext.as_str());
            out.append(";");
            out.append(row.ip.as_str());
            out.append(";");
            out.append(row.network.as_str());
            out.append(";");
            out.append(gw.as_str());
            out.append(";");
            out.append(row.os.as_str());
            out.append(";");
            out.append(ports_str.as_str());
            proof {
                reveal_strlit("\n");
                reveal_strlit(";");
                assert(out@ =~= csv_text(db@, scan, hosts@.subrange(0, k as int + 1)));
            }
            k += 1;
        }
        proof {
            assert(hosts@.subrange(0, hosts@.len() as int) =~= hosts@);
            assert(hosts@.to_multiset() == present_rows(old(db)@, network@, scan).to_multiset());
        }
        out
    }
}

/// The gateway address behind this observation matches the gateway query:
/// no routing edge leaves the fallback address, and the joined host row the
/// query returns carries exactly the chosen row's address.
proof fn lemma_gateway_ip(v: StoreV, hist_id: i64, scan: i64, got: Seq<char>)
    requires
        v.wf(),
        routing_from_host(v.routing, hist_id, scan).len() == 0 ==> got == "0.0.0.0"@,
        routing_from_host(v.routing, hist_id, scan).len() > 0 ==> exists|i: int, j: int|
            {
                &&& 0 <= i < v.history.len()
                &&& (#[trigger] v.history[i]).id == routing_from_host(v.routing, hist_id, scan).last().right
                &&& 0 <= j < v.hosts.len()
                &&& (#[trigger] v.hosts[j]).id == v.history[i].host_id
                &&& got == joined_row(v.hosts[j], v.history[i]).ip@
            },
    ensures
        got == gateway_ip(v, hist_id, scan),
{
    let edges = routing_from_host(v.routing, hist_id, scan);
    if edges.len() > 0 {
        let e = edges.last();
        let i = choose|i: int, j: int|
            {
                &&& 0 <= i < v.history.len()
                &&& (#[trigger] v.history[i]).id == e.right
                &&& 0 <= j < v.hosts.len()
                &&& (#[trigger] v.hosts[j]).id == v.history[i].host_id
                &&& got == joined_row(v.hosts[j], v.history[i]).ip@
            };
        let hist = choose|h: HostHistory| v.history.contains(h) && h.id == e.right;
        let hostrow = choose|h: Host| v.hosts.contains(h) && h.id == hist.host_id;
        assert(v.history.contains(v.history[i.0]));
        let hi = choose|x: int| 0 <= x < v.history.len() && v.history[x] == hist;
        assert(v.hosts.contains(v.hosts[i.1]));
        let hj = choose|x: int| 0 <= x < v.hosts.len() && v.hosts[x] == hostrow;
        assert(hi == i.0 || v.history[hi].id == v.history[i.0].id);
        assert(hist == v.history[i.0]) by {
            if hi != i.0 {
                assert(v.history[hi].id != v.history[i.0].id);
            }
        }
        assert(hostrow == v.hosts[i.1]) by {
            if hj != i.1 {
                assert(v.hosts[hj].id != v.hosts[i.1].id);
            }
        }
    }
}


/// This scan is the earliest in which the address was observed.
pub open spec fn is_first_scan(v: StoreV, ip: Seq<char>, scan: i64) -> bool {
    &&& crate::store::host_ip_exists(v.hosts, ip)
    &&& exists|i: int|
        0 <= i < v.history.len() && (#[trigger] v.history[i]).host_id == crate::entities::ip_host_id(
            v.hosts,
            ip,
        ) && v.history[i].scan == scan
    &&& forall|j: int|
        0 <= j < v.history.len() && (#[trigger] v.history[j]).host_id == crate::entities::ip_host_id(
            v.hosts,
            ip,
        ) ==> scan <= v.history[j].scan
}

/// This scan is the latest in which the address was observed.
pub open spec fn is_last_scan(v: StoreV, ip: Seq<char>, scan: i64) -> bool {
    &&& crate::store::host_ip_exists(v.hosts, ip)
    &&& exists|i: int|
        0 <= i < v.history.len() && (#[trigger] v.history[i]).host_id == crate::entities::ip_host_id(
            v.hosts,
            ip,
        ) && v.history[i].scan == scan
    &&& forall|j: int|
        0 <= j < v.history.len() && (#[trigger] v.history[j]).host_id == crate::entities::ip_host_id(
            v.hosts,
            ip,
        ) ==> v.history[j].scan <= scan
}

/// The header block of one host's page in the PDF report.
pub struct PdfHostBlock {
    pub ip: String,
    pub os: String,
    pub gateway: String,
    pub network: String,
    pub first_seen: bool,
    pub last_seen: bool,
}

impl Store {
    /// The header block the PDF renderer draws for one joined host row:
    /// its address, OS snapshot, gateway (`0.0.0.0` when the routing
    /// snapshot names none), network label, and whether this scan is the
    /// host's first and latest appearance.
    pub fn pdf_host_block(&self, row: &Host, scan: i64) -> (r: PdfHostBlock)
        requires
            self.wf(),
        ensures
            r.ip == row.ip,
            r.os == row.os,
            r.network == row.network,
            r.gateway@ == gateway_ip(self@, row.hist_id, scan),
            r.first_seen == is_first_scan(self@, row.ip@, scan),
            r.last_seen == is_last_scan(self@, row.ip@, scan),
    {
        let gateway = match Host::get_gateway(self, row.hist_id, scan) {
            Some(g) => g.ip,
            None => String::from_str("0.0.0.0"),
        };
        proof {
            lemma_gateway_ip(self@, row.hist_id, scan, gateway@);
        }
        let first = match Host::find_first_emerge(self, row.ip.as_str()) {
            Some(h) => {
                proof {
                    assert(exists|i: int| 0 <= i < self@.history.len() && self@.history[i] == h);
                    let hi = choose|i: int| 0 <= i < self@.history.len() && self@.history[i] == h;
                    if h.scan == scan {
                        assert(is_first_scan(self@, row.ip@, scan)) by {
                            assert(self@.history[hi].host_id == crate::entities::ip_host_id(
                                self@.hosts,
                                row.ip@,
                            ) && self@.history[hi].scan == scan);
                        }
                    } else {
                        assert(!is_first_scan(self@, row.ip@, scan)) by {
                            if is_first_scan(self@, row.ip@, scan) {
                                let w = choose|i: int|
                                    0 <= i < self@.history.len() && (#[trigger] self@.history[i]).host_id
                                        == crate::entities::ip_host_id(self@.hosts, row.ip@)
                                        && self@.history[i].scan == scan;
                                assert(h.scan <= self@.history[w].scan);
                                assert(scan <= self@.history[hi].scan);
                            }
                        }
                    }
                }
                h.scan == scan
            },
            None => {
                proof {
                    assert(!is_first_scan(self@, row.ip@, scan));
                }
                false
            },
        };
        let last = match Host::find_last_emerge(self, row.ip.as_str()) {
            Some(h) => {
                proof {
                    assert(exists|i: int| 0 <= i < self@.history.len() && self@.history[i] == h);
                    let hi = choose|i: int| 0 <= i < self@.history.len() && self@.history[i] == h;
                    if h.scan == scan {
                        assert(is_last_scan(self@, row.ip@, scan)) by {
                            assert(self@.history[hi].host_id == crate::entities::ip_host_id(
                                self@.hosts,
                                row.ip@,
                            ) && self@.history[hi].scan == scan);
                        }
                    } else {
                        assert(!is_last_scan(self@, row.ip@, scan)) by {
                            if is_last_scan(self@, row.ip@, scan) {
                                let w = choose|i: int|
                                    0 <= i < self@.history.len() && (#[trigger] self@.history[i]).host_id
                                        == crate::entities::ip_host_id(self@.hosts, row.ip@)
                                        && self@.history[i].scan == scan;
                                assert(self@.history[w].scan <= h.scan);
                                assert(self@.history[hi].scan <= scan);
                            }
                        }
                    }
                }
                h.scan == scan
            },
            None => {
                proof {
                    assert(!is_last_scan(self@, row.ip@, scan));
                }
                false
            },
        };
        PdfHostBlock {
            ip: row.ip.clone(),
            os: row.os.clone(),
            gateway,
            network: row.network.clone(),
            first_seen: first,
            last_seen: last,
        }
    }

    /// The label/value rows of one host's SMB section in the PDF report:
    /// the information and domain fields that carry text, then one row per
    /// share and per printer, exactly as stored on the observation's first
    /// windows row.
    #[verifier::rlimit(100)]
    pub fn pdf_windows_rows(&self, hist_id: i64) -> (r: Vec<(String, String)>)
        ensures
            pairs_view(r@) == windows_pairs(self@, hist_id),
    {
        let mut out: Vec<(String, String)> = Vec::new();
        let win = match first_windows_row(self, hist_id) {
            Some(w) => w,
            None => {
                proof {
                    assert(pairs_view(out@) =~~= windows_pairs(self@, hist_id));
                }
                return out;
            },
        };
        if let Some(info) = first_info_row(self, win.id) {
            push_info_pairs(&mut out, info);
        }
        proof {
            assert(pairs_view(out@) =~~= info_part(self@, first_windows(self@.windows, hist_id)->0));
        }
        let ghost head = pairs_view(out@);
        if let Some(domain) = first_domain_row(self, win.id) {
            push_domain_pairs(&mut out, domain);
        }
        proof {
            assert(pairs_view(out@) =~~= head + domain_part(self@, first_windows(self@.windows, hist_id)->0));
        }
        let ghost head2 = pairs_view(out@);
        let shares = crate::store::WindowsShare::load(self, win.id);
        proof {
            reveal_strlit("Share");
            reveal_strlit("Printer");
            assert(shares@.subrange(0, 0) =~= Seq::<crate::store::WindowsShare>::empty());
            assert(pairs_view(out@) =~~= head2 + share_pairs(shares@.subrange(0, 0)));
        }
        let mut k: usize = 0;
        while k < shares.len()
            invariant
                0 <= k <= shares@.len(),
                shares@ == shares_of_windows(self@.windows_share, win.id),
                ("Share")@.len() > 0,
                pairs_view(out@) == head2 + share_pairs(shares@.subrange(0, k as int)),
            decreases shares@.len() - k,
        {
            proof {
                assert(shares@.subrange(0, k as int + 1).drop_last() =~= shares@.subrange(0, k as int));
                assert(shares@.subrange(0, k as int + 1).last() == shares@[k as int]);
            }
            push_labelled(&mut out, "Share", shares[k].name.clone());
            proof {
                assert(pairs_view(out@) =~~= head2 + share_pairs(shares@.subrange(0, k as int + 1)));
            }
            k += 1;
        }
        proof {
            assert(shares@.subrange(0, shares@.len() as int) =~= shares@);
        }
        let ghost head3 = pairs_view(out@);
        let printers = crate::store::WindowsPrinter::load(self, win.id);
        proof {
            reveal_strlit("Printer");
            assert(printers@.subrange(0, 0) =~= Seq::<crate::store::WindowsPrinter>::empty());
            assert(pairs_view(out@) =~~= head3 + printer_pairs(printers@.subrange(0, 0)));
        }
        let mut t: usize = 0;
        while t < printers.len()
            invariant
                0 <= t <= printers@.len(),
                printers@ == printers_of_windows(self@.windows_printer, win.id),
                ("Printer")@.len() > 0,
                pairs_view(out@) == head3 + printer_pairs(printers@.subrange(0, t as int)),
            decreases printers@.len() - t,
        {
            proof {
                assert(printers@.subrange(0, t as int + 1).drop_last() =~= printers@.subrange(0, t as int));
                assert(printers@.subrange(0, t as int + 1).last() == printers@[t as int]);
            }
            push_labelled(&mut out, "Printer", printers[t].uri.clone());
            proof {
                assert(pairs_view(out@) =~~= head3 + printer_pairs(printers@.subrange(0, t as int + 1)));
            }
            t += 1;
        }
        proof {
            assert(printers@.subrange(0, printers@.len() as int) =~= printers@);
            assert(pairs_view(out@) =~~= windows_pairs(self@, hist_id));
        }
        out
    }

    /// The vulnerability rows of one host's PDF section: every CVE of the
    /// observation, worst score first and lowest port first among equal
    /// scores, ready for the renderer to group by database.
    pub fn pdf_vulnerability_rows(&self, hist_id: i64) -> (r: Vec<Cve>)
        ensures
            r@.to_multiset() == cves_of_hist(self@.cves, hist_id).to_multiset(),
            forall|i: int, j: int| 0 <= i < j < r@.len() ==> cve_le(#[trigger] r@[i], #[trigger] r@[j]),
    {
        Cve::from_host_hist(self, hist_id)
    }
}

/// The texts of a label/value listing, in order.
pub open spec fn pairs_view(s: Seq<(String, String)>) -> Seq<(Seq<char>, Seq<char>)> {
    s.map_values(|p: (String, String)| (p.0@, p.1@))
}

/// The row a labelled value contributes: one pair when the value carries
/// text, none when it is empty.
pub open spec fn opt_pair(label: Seq<char>, value: Seq<char>) -> Seq<(Seq<char>, Seq<char>)> {
    if value.len() > 0 {
        seq![(label, value)]
    } else {
        Seq::empty()
    }
}

/// The label/value rows of a stored SMB information row.
pub open spec fn info_pairs(i: crate::store::WindowsInfo) -> Seq<(Seq<char>, Seq<char>)> {
    opt_pair(("Native LAN manager")@, i.native_lan_manager@) + opt_pair(("Native OS")@, i.native_os@)
        + opt_pair(("OS")@, i.os_name@) + opt_pair(("OS build")@, i.os_build@) + opt_pair(
        ("OS release")@,
        i.os_release@,
    ) + opt_pair(("OS version")@, i.os_version@) + opt_pair(("Platform")@, i.platform@) + opt_pair(
        ("Server type")@,
        i.server_type@,
    ) + opt_pair(("Server string")@, i.server_string@)
}

/// The label/value rows of a stored SMB domain row.
pub open spec fn domain_pairs(d: crate::store::WindowsDomain) -> Seq<(Seq<char>, Seq<char>)> {
    opt_pair(("Domain")@, d.domain@) + opt_pair(("DNS domain")@, d.dns_domain@) + opt_pair(
        ("Derived domain")@,
        d.derived_domain@,
    ) + opt_pair(("Derived membership")@, d.derived_membership@) + opt_pair(("FQDN")@, d.fqdn@)
        + opt_pair(("NetBIOS name")@, d.netbios_name@) + opt_pair(("NetBIOS domain")@, d.netbios_domain@)
}

/// One row per named share.
pub open spec fn share_pairs(shares: Seq<crate::store::WindowsShare>) -> Seq<(Seq<char>, Seq<char>)>
    decreases shares.len(),
{
    if shares.len() == 0 {
        Seq::empty()
    } else {
        share_pairs(shares.drop_last()) + opt_pair(("Share")@, shares.last().name@)
    }
}

/// One row per named printer.
pub open spec fn printer_pairs(printers: Seq<crate::store::WindowsPrinter>) -> Seq<(Seq<char>, Seq<char>)>
    decreases printers.len(),
{
    if printers.len() == 0 {
        Seq::empty()
    } else {
        printer_pairs(printers.drop_last()) + opt_pair(("Printer")@, printers.last().uri@)
    }
}

/// The first windows row recorded on this observation, if any.
pub open spec fn first_windows(ws: Seq<crate::store::Windows>, hist_id: i64) -> Option<
    crate::store::Windows,
>
    decreases ws.len(),
{
    if ws.len() == 0 {
        None
    } else if ws[0].hist_id == hist_id {
        Some(ws[0])
    } else {
        first_windows(ws.drop_first(), hist_id)
    }
}

/// The first information row of this windows row, if any.
pub open spec fn first_info(infos: Seq<crate::store::WindowsInfo>, win_id: i64) -> Option<
    crate::store::WindowsInfo,
>
    decreases infos.len(),
{
    if infos.len() == 0 {
        None
    } else if infos[0].windows_id == win_id {
        Some(infos[0])
    } else {
        first_info(infos.drop_first(), win_id)
    }
}

/// The first domain row of this windows row, if any.
pub open spec fn first_domain(ds: Seq<crate::store::WindowsDomain>, win_id: i64) -> Option<
    crate::store::WindowsDomain,
>
    decreases ds.len(),
{
    if ds.len() == 0 {
        None
    } else if ds[0].windows_id == win_id {
        Some(ds[0])
    } else {
        first_domain(ds.drop_first(), win_id)
    }
}

/// The information rows this windows row contributes.
pub open spec fn info_part(v: StoreV, w: crate::store::Windows) -> Seq<(Seq<char>, Seq<char>)> {
    match first_info(v.windows_info, w.id) {
        Some(i) => info_pairs(i),
        None => Seq::empty(),
    }
}

/// The domain rows this windows row contributes.
pub open spec fn domain_part(v: StoreV, w: crate::store::Windows) -> Seq<(Seq<char>, Seq<char>)> {
    match first_domain(v.windows_domain, w.id) {
        Some(d) => domain_pairs(d),
        None => Seq::empty(),
    }
}

/// Every label/value row of one observation's SMB section.
pub open spec fn windows_pairs(v: StoreV, hist_id: i64) -> Seq<(Seq<char>, Seq<char>)> {
    match first_windows(v.windows, hist_id) {
        Some(w) => info_part(v, w) + domain_part(v, w) + share_pairs(
            shares_of_windows(v.windows_share, w.id),
        ) + printer_pairs(printers_of_windows(v.windows_printer, w.id)),
        None => Seq::empty(),
    }
}

/// The first windows row recorded on this observation, if any.
fn first_windows_row(db: &Store, hist_id: i64) -> (r: Option<crate::store::Windows>)
    ensures
        r == first_windows(db@.windows, hist_id),
{
    proof {
        assert(db@.windows.skip(0) =~= db@.windows);
    }
    let mut k: usize = 0;
    while k < db.windows.len()
        invariant
            0 <= k <= db@.windows.len(),
            first_windows(db@.windows, hist_id) == first_windows(db@.windows.skip(k as int), hist_id),
        decreases db@.windows.len() - k,
    {
        proof {
            assert(db@.windows.skip(k as int)[0] == db@.windows[k as int]);
            assert(db@.windows.skip(k as int).drop_first() =~= db@.windows.skip(k as int + 1));
        }
        if db.windows[k].hist_id == hist_id {
            return Some(db.windows[k].clone());
        }
        k += 1;
    }
    proof {
        assert(db@.windows.skip(db@.windows.len() as int) =~= Seq::<crate::store::Windows>::empty());
    }
    None
}

/// The first information row of this windows row, if any.
fn first_info_row(db: &Store, win_id: i64) -> (r: Option<crate::store::WindowsInfo>)
    ensures
        r == first_info(db@.windows_info, win_id),
{
    proof {
        assert(db@.windows_info.skip(0) =~= db@.windows_info);
    }
    let mut k: usize = 0;
    while k < db.windows_info.len()
        invariant
            0 <= k <= db@.windows_info.len(),
            first_info(db@.windows_info, win_id) == first_info(db@.windows_info.skip(k as int), win_id),
        decreases db@.windows_info.len() - k,
    {
        proof {
            assert(db@.windows_info.skip(k as int)[0] == db@.windows_info[k as int]);
            assert(db@.windows_info.skip(k as int).drop_first() =~= db@.windows_info.skip(k as int + 1));
        }
        if db.windows_info[k].windows_id == win_id {
            return Some(db.windows_info[k].clone());
        }
        k += 1;
    }
    proof {
        assert(db@.windows_info.skip(db@.windows_info.len() as int) =~= Seq::<
            crate::store::WindowsInfo,
        >::empty());
    }
    None
}

/// The first domain row of this windows row, if any.
fn first_domain_row(db: &Store, win_id: i64) -> (r: Option<crate::store::WindowsDomain>)
    ensures
        r == first_domain(db@.windows_domain, win_id),
{
    proof {
        assert(db@.windows_domain.skip(0) =~= db@.windows_domain);
    }
    let mut k: usize = 0;
    while k < db.windows_domain.len()
        invariant
            0 <= k <= db@.windows_domain.len(),
            first_domain(db@.windows_domain, win_id) == first_domain(
                db@.windows_domain.skip(k as int),
                win_id,
            ),
        decreases db@.windows_domain.len() - k,
    {
        proof {
            assert(db@.windows_domain.skip(k as int)[0] == db@.windows_domain[k as int]);
            assert(db@.windows_domain.skip(k as int).drop_first() =~= db@.windows_domain.skip(
                k as int + 1,
            ));
        }
        if db.windows_domain[k].windows_id == win_id {
            return Some(db.windows_domain[k].clone());
        }
        k += 1;
    }
    proof {
        assert(db@.windows_domain.skip(db@.windows_domain.len() as int) =~= Seq::<
            crate::store::WindowsDomain,
        >::empty());
    }
    None
}

/// Pushes the labelled rows of one information row.
#[verifier::rlimit(100)]
fn push_info_pairs(out: &mut Vec<(String, String)>, info: crate::store::WindowsInfo)
    ensures
        pairs_view(final(out)@) == pairs_view(old(out)@) + info_pairs(info),
{
    let ghost head = pairs_view(out@);
    push_labelled(out, "Native LAN manager", info.native_lan_manager);
    push_labelled(out, "Native OS", info.native_os);
    push_labelled(out, "OS", info.os_name);
    push_labelled(out, "OS build", info.os_build);
    proof {
        assert(pairs_view(out@) =~~= head + (opt_pair(("Native LAN manager")@, info.native_lan_manager@)
            + opt_pair(("Native OS")@, info.native_os@) + opt_pair(("OS")@, info.os_name@) + opt_pair(
            ("OS build")@,
            info.os_build@,
        )));
    }
    let ghost mid = pairs_view(out@);
    push_labelled(out, "OS release", info.os_release);
    push_labelled(out, "OS version", info.os_version);
    push_labelled(out, "Platform", info.platform);
    push_labelled(out, "Server type", info.server_type);
    push_labelled(out, "Server string", info.server_string);
    proof {
        assert(pairs_view(out@) =~~= mid + (opt_pair(("OS release")@, info.os_release@) + opt_pair(
            ("OS version")@,
            info.os_version@,
        ) + opt_pair(("Platform")@, info.platform@) + opt_pair(("Server type")@, info.server_type@)
            + opt_pair(("Server string")@, info.server_string@)));
        assert(pairs_view(out@) =~~= head + info_pairs(info));
    }
}

/// Pushes the labelled rows of one domain row.
#[verifier::rlimit(100)]
fn push_domain_pairs(out: &mut Vec<(String, String)>, domain: crate::store::WindowsDomain)
    ensures
        pairs_view(final(out)@) == pairs_view(old(out)@) + domain_pairs(domain),
{
    let ghost head = pairs_view(out@);
    push_labelled(out, "Domain", domain.domain);
    push_labelled(out, "DNS domain", domain.dns_domain);
    push_labelled(out, "Derived domain", domain.derived_domain);
    proof {
        assert(pairs_view(out@) =~~= head + (opt_pair(("Domain")@, domain.domain@) + opt_pair(
            ("DNS domain")@,
            domain.dns_domain@,
        ) + opt_pair(("Derived domain")@, domain.derived_domain@)));
    }
    let ghost mid = pairs_view(out@);
    push_labelled(out, "Derived membership", domain.derived_membership);
    push_labelled(out, "FQDN", domain.fqdn);
    push_labelled(out, "NetBIOS name", domain.netbios_name);
    push_labelled(out, "NetBIOS domain", domain.netbios_domain);
    proof {
        assert(pairs_view(out@) =~~= mid + (opt_pair(("Derived membership")@, domain.derived_membership@)
            + opt_pair(("FQDN")@, domain.fqdn@) + opt_pair(("NetBIOS name")@, domain.netbios_name@)
            + opt_pair(("NetBIOS domain")@, domain.netbios_domain@)));
        assert(pairs_view(out@) =~~= head + domain_pairs(domain));
    }
}

/// Pushes a labelled value when it carries text.
fn push_labelled(out: &mut Vec<(String, String)>, label: &str, value: String)
    ensures
        pairs_view(final(out)@) == pairs_view(old(out)@) + opt_pair(label@, value@),
{
    if !value.as_str().is_empty() {
        out.push((label.to_owned(), value));
        proof {
            assert(pairs_view(out@) =~~= pairs_view(old(out)@) + opt_pair(label@, value@));
        }
    } else {
        proof {
            assert(pairs_view(out@) =~~= pairs_view(old(out)@) + opt_pair(label@, value@));
        }
    }
}

} // verus!
