//! The read API's response shapes and the queries that fill them.  The
//! HTTP layer outside the library serialises these; everything they say
//! about a network comes from the store queries, computed here.

use vstd::prelude::*;
use crate::store::{Store, Host, HostHistory, hist_exists, host_ip_exists};
use crate::entities::{routing_from_host, cves_of_hist, ports_of_hist, cves_of_hist_port, scripts_of_hist,
    shares_of_windows, printers_of_windows, ip_host_id};
use crate::store;
use crate::textutil::{i64_to_string, spec_idec, str_eq, spec_udec, u64_to_string};
use crate::config::AppConfig;
use crate::probe;

verus! {

/// A network a scan can be asked about: its label and display name.
pub struct SimpleNetwork {
    pub network: String,
    pub name: String,
}

/// One scan of a network, as listed by the API.  Times are seconds.
pub struct ScanResponse {
    pub network: String,
    pub scan: i64,
    pub changed: bool,
    pub start: i64,
    pub end: i64,
}

/// One host of a network in one scan, as listed by the API.
pub struct NetworkResponse {
    pub id: i64,
    pub network: String,
    pub ip: String,
    pub os: String,
    pub nodes: Vec<String>,
    pub first_scan: i64,
    pub changed_scan: i64,
    pub last_scan: i64,
    pub is_removed: bool,
    pub extended: bool,
    pub has_cve: bool,
}

/// One vulnerability of a service, as reported by the API.
/// `cvss` holds tenths of a CVSS point.
pub struct CveInfoResponse {
    pub id: String,
    pub database: String,
    pub cvss: u32,
    pub exploit: bool,
}

/// One service of a host, with its vulnerabilities.
pub struct PortInfoResponse {
    pub port: i32,
    pub protocol: String,
    pub service: String,
    pub product: String,
    pub cves: Vec<CveInfoResponse>,
}

/// One key/value pair a probe script reported.
pub struct ScriptDataResponse {
    pub key: String,
    pub value: String,
}

/// One probe script's results on a host.
pub struct ScriptsResponse {
    pub name: Option<String>,
    pub data: Vec<ScriptDataResponse>,
}

/// The SMB information blocks of a host, with empty fields dropped.
pub struct WindowsResponse {
    pub info: Option<probe::WindowsInfo>,
    pub domain: Option<probe::WindowsDomain>,
    pub shares: Vec<probe::WindowsShare>,
    pub printers: Vec<probe::WindowsPrinter>,
}

/// Everything the API reports about one observed host.
pub struct HostInfoResponse {
    pub id: i64,
    pub ip: String,
    pub os: String,
    pub scan_timestamp: i64,
    pub scan_history: Vec<ScanResponse>,
    pub ports: Vec<PortInfoResponse>,
    pub windows: Option<WindowsResponse>,
    pub scripts: Vec<ScriptsResponse>,
}

/// The networks the configured targets expose: one entry per target with a
/// nonempty address and a nonzero mask, labelled `ip/mask`.
pub open spec fn simple_networks_spec(targets: Seq<crate::config::DiscoverStruct>) -> Seq<(Seq<char>, Seq<
    char,
>)>
    decreases targets.len(),
{
    if targets.len() == 0 {
        Seq::empty()
    } else {
        simple_networks_spec(targets.drop_last()) + (match targets.last().target {
            Some(con) => {
                if (con.ip matches Some(ip) && ip@.len() > 0) && (con.mask matches Some(m) && m != 0) {
                    seq![
                        (
                            (con.ip->0)@ + "/"@ + spec_udec((con.mask->0) as nat),
                            match con.name {
                                Some(n) => n@,
                                None => Seq::<char>::empty(),
                            },
                        ),
                    ]
                } else {
                    Seq::empty()
                }
            },
            None => Seq::empty(),
        })
    }
}

/// The networks the configured targets expose.
pub fn get_networks(conf: &AppConfig) -> (r: Vec<SimpleNetwork>)
    ensures
        ({
            let m = simple_networks_spec(conf.targets@);
            r@.len() == m.len() && forall|i: int|
                0 <= i < m.len() ==> (#[trigger] r@[i]).network@ == m[i].0 && r@[i].name@ == m[i].1
        }),
{
    let mut out: Vec<SimpleNetwork> = Vec::new();
    let mut k: usize = 0;
    while k < conf.targets.len()
        invariant
            0 <= k <= conf.targets@.len(),
            ({
                let m = simple_networks_spec(conf.targets@.subrange(0, k as int));
                out@.len() == m.len() && forall|i: int|
                    0 <= i < m.len() ==> (#[trigger] out@[i]).network@ == m[i].0 && out@[i].name@ == m[i].1
            }),
        decreases conf.targets@.len() - k,
    {
        proof {
            assert(conf.targets@.subrange(0, k as int + 1).drop_last() =~= conf.targets@.subrange(
                0,
                k as int,
            ));
            assert(conf.targets@.subrange(0, k as int + 1).last() == conf.targets@[k as int]);
        }
        match &conf.targets[k].target {
            Some(con) => {
                let ip_ok = match &con.ip {
                    Some(ip) => !ip.as_str().is_empty(),
                    None => false,
                };
                let mask_ok = match con.mask {
                    Some(m) => m != 0,
                    None => false,
                };
                if ip_ok && mask_ok {
                    let mut network = match &con.ip {
                        Some(ip) => ip.clone(),
                        None => String::new(),
                    };
                    network.append("/");
                    let m = match con.mask {
                        Some(m) => m,
                        None => 0,
                    };
                    let mtext = u64_to_string(m as u64);
                    network.append(mtext.as_str());
                    let name = match &con.name {
                        Some(n) => n.clone(),
                        None => String::new(),
                    };
                    out.push(SimpleNetwork { network, name });
                    proof {
                        reveal_strlit("/");
                    }
                }
            },
            None => {},
        }
        k += 1;
    }
    proof {
        assert(conf.targets@.subrange(0, conf.targets@.len() as int) =~= conf.targets@);
    }
    out
}

/// Clears white-label fields a save must not keep: a logo that is not an
/// inline image (its text does not start `data:image/`) and the colour
/// picker's black default.
pub fn sanitize_config(conf: &mut AppConfig)
    ensures
        *final(conf) == (AppConfig { whitelabel: final(conf).whitelabel, ..*old(conf) }),
        old(conf).whitelabel is None ==> final(conf).whitelabel == old(conf).whitelabel,
        old(conf).whitelabel matches Some(wl) ==> final(conf).whitelabel matches Some(nwl) && (nwl
            == (crate::config::WhiteLabel {
            logo_data: nwl.logo_data,
            color: nwl.color,
            ..wl
        })) && (nwl.logo_data == (match wl.logo_data {
            Some(logo) => {
                if logo@.len() > 11 && logo@.subrange(0, 11) != ("data:image/")@ {
                    None
                } else {
                    Some(logo)
                }
            },
            None => None,
        })) && (nwl.color == (match wl.color {
            Some(c) => {
                if c@ == ("#000000")@ {
                    None
                } else {
                    Some(c)
                }
            },
            None => None,
        })),
{
    let wl = match &mut conf.whitelabel {
        Some(wl) => wl,
        None => {
            return;
        },
    };
    let drop_logo = match &wl.logo_data {
        Some(logo) => {
            if logo.unicode_len() > 11 {
                let prefix = logo.as_str().substring_char(0, 11);
                !str_eq(prefix, "data:image/")
            } else {
                false
            }
        },
        None => false,
    };
    if drop_logo {
        wl.logo_data = None;
    }
    let drop_color = match &wl.color {
        Some(c) => str_eq(c.as_str(), "#000000"),
        None => false,
    };
    if drop_color {
        wl.color = None;
    }
}

/// One host row of the network view: the observation's id and snapshot,
/// the next hops its routing edges name, the scans it first and last
/// appeared in, the scan of its last OS change, and whether SMB data and
/// vulnerabilities were recorded.
pub fn map_network_db_results(db: &Store, host: &store::Host, scan: i64, removed: bool) -> (r:
    NetworkResponse)
    requires
        db.wf(),
        scan < 0x7fff_ffff_ffff_ffff,
    ensures
        r.id == host.hist_id,
        r.network == host.network,
        r.ip == host.ip,
        r.os == host.os,
        r.is_removed == removed,
        ({
            let edges = routing_from_host(db@.routing, host.hist_id, scan);
            r.nodes@.len() == edges.len() && forall|i: int|
                0 <= i < edges.len() ==> (#[trigger] r.nodes@[i])@ == spec_idec((edges[i]).right as int)
        }),
        r.extended == exists|i: int|
            0 <= i < db@.windows.len() && (#[trigger] db@.windows[i]).hist_id == host.hist_id,
        r.has_cve == (cves_of_hist(db@.cves, host.hist_id).len() > 0),
        ({
            let seen = host_ip_exists(db@.hosts, host.ip@) && exists|i: int|
                0 <= i < db@.history.len() && (#[trigger] db@.history[i]).host_id == ip_host_id(
                    db@.hosts,
                    host.ip@,
                );
            &&& (seen ==> crate::report::is_first_scan(db@, host.ip@, r.first_scan)
                && crate::report::is_last_scan(db@, host.ip@, r.last_scan))
            &&& (!seen ==> r.first_scan == 0 && r.last_scan == 0)
        }),
        !host_ip_exists(db@.hosts, host.ip@) ==> r.changed_scan == 0,
        host_ip_exists(db@.hosts, host.ip@) ==> r.changed_scan == (match crate::temporal::last_change_spec(
            db@.history,
            ip_host_id(db@.hosts, host.ip@),
            None,
            scan + 1,
            db@.history.len() as nat,
        ) {
            Some(h) => h.scan as int,
            None => 0int,
        }),
    {
        let last = Host::find_last_emerge(db, host.ip.as_str());
        let first = Host::find_first_emerge(db, host.ip.as_str());
        let change = Host::find_last_change(db, host.ip.as_str(), scan);
        proof {
            if first is Some {
                let h = first->0;
                assert(exists|i: int| 0 <= i < db@.history.len() && db@.history[i] == h);
                let hi = choose|i: int| 0 <= i < db@.history.len() && db@.history[i] == h;
                assert(crate::report::is_first_scan(db@, host.ip@, h.scan)) by {
                    assert(db@.history[hi].host_id == ip_host_id(db@.hosts, host.ip@)
                        && db@.history[hi].scan == h.scan);
                }
            }
            if last is Some {
                let h = last->0;
                assert(exists|i: int| 0 <= i < db@.history.len() && db@.history[i] == h);
                let hi = choose|i: int| 0 <= i < db@.history.len() && db@.history[i] == h;
                assert(crate::report::is_last_scan(db@, host.ip@, h.scan)) by {
                    assert(db@.history[hi].host_id == ip_host_id(db@.hosts, host.ip@)
                        && db@.history[hi].scan == h.scan);
                }
            }
        }
        let route = store::Routing::from_host(db, host.hist_id, scan);
        let extended = store::Windows::load(db, host.hist_id);
        let cve = store::Cve::from_host_hist(db, host.hist_id);
        let mut nodes: Vec<String> = Vec::new();
        let mut k: usize = 0;
        while k < route.len()
            invariant
                0 <= k <= route@.len(),
                route@ == routing_from_host(db@.routing, host.hist_id, scan),
                nodes@.len() == k,
                forall|i: int|
                    0 <= i < k ==> (#[trigger] nodes@[i])@ == spec_idec((route@[i]).right as int),
            decreases route@.len() - k,
        {
            nodes.push(i64_to_string(route[k].right));
            k += 1;
        }
        proof {
            cves_of_hist(db@.cves, host.hist_id).to_multiset_ensures();
            cve@.to_multiset_ensures();
        }
        NetworkResponse {
            id: host.hist_id,
            network: host.network.clone(),
            ip: host.ip.clone(),
            os: host.os.clone(),
            nodes,
            first_scan: match first {
                Some(h) => h.scan,
                None => 0,
            },
            changed_scan: match change {
                Some(h) => h.scan,
                None => 0,
            },
            last_scan: match last {
                Some(h) => h.scan,
                None => 0,
            },
            is_removed: removed,
            extended: extended.is_some(),
            has_cve: cve.len() > 0,
        }
    }

/// Everything the API reports about one observed host: the host row joined
/// with the observation's OS snapshot, the scans the host appears in, the
/// services with their vulnerabilities, the SMB blocks with empty fields
/// dropped, and the script results.  An unknown observation id reports
/// nothing.
pub fn get_info(db: &Store, network: &str, scan: i64, hist_id: i64) -> (r: Option<HostInfoResponse>)
    requires
        db.wf(),
    ensures
        (r is Some) == hist_exists(db@.history, hist_id),
        r matches Some(info) ==> {
            &&& ({
                let ports = ports_of_hist(db@.ports, hist_id);
                info.ports@.len() == ports.len() && forall|i: int|
                    0 <= i < ports.len() ==> {
                        &&& (#[trigger] info.ports@[i]).port == ports[i].port
                        &&& info.ports@[i].protocol == ports[i].protocol
                        &&& info.ports@[i].service == ports[i].service
                        &&& info.ports@[i].product == ports[i].product
                        &&& info.ports@[i].cves@.len() == cves_of_hist_port(
                            db@.cves,
                            hist_id,
                            ports[i].port,
                        ).len()
                    }
            })
            &&& info.scripts@.len() == scripts_of_hist(db@.script_scans, hist_id).len()
        },
{
    let scan_row = scan_load_or_default(db, scan);
    let scan_hist = HostHistory::scan_history(db, hist_id);
    let hist = match HostHistory::load(db, hist_id) {
        Some(h) => h,
        None => {
            return None;
        },
    };
    let hostrow = match Host::load(db, hist.host_id) {
        Some(h) => h,
        None => store::Host {
            id: 0,
            hist_id: 0,
            network: String::new(),
            ipnet: String::new(),
            hostname: String::new(),
            ip: String::new(),
            ignore: false,
            os: String::new(),
            comment: String::new(),
        },
    };
    let ports = store::Port::load(db, hist_id);
    let mut port_infos: Vec<PortInfoResponse> = Vec::new();
    let mut k: usize = 0;
    while k < ports.len()
        invariant
            db.wf(),
            0 <= k <= ports@.len(),
            ports@ == ports_of_hist(db@.ports, hist_id),
            port_infos@.len() == k,
            forall|i: int|
                0 <= i < k ==> {
                    &&& (#[trigger] port_infos@[i]).port == ports@[i].port
                    &&& port_infos@[i].protocol == ports@[i].protocol
                    &&& port_infos@[i].service == ports@[i].service
                    &&& port_infos@[i].product == ports@[i].product
                    &&& port_infos@[i].cves@.len() == cves_of_hist_port(
                        db@.cves,
                        hist_id,
                        ports@[i].port,
                    ).len()
                },
        decreases ports@.len() - k,
    {
        let port = &ports[k];
        let cves = store::Cve::load(db, hist_id, port.port);
        let mut cve_infos: Vec<CveInfoResponse> = Vec::new();
        let mut t: usize = 0;
        while t < cves.len()
            invariant
                0 <= t <= cves@.len(),
                cve_infos@.len() == t,
            decreases cves@.len() - t,
        {
            let c = &cves[t];
            cve_infos.push(
                CveInfoResponse {
                    id: c.type_id.clone(),
                    database: c.database.clone(),
                    cvss: c.cvss,
                    exploit: str_eq(c.is_exploit.as_str(), "true") || str_eq(c.is_exploit.as_str(), "TRUE"),
                },
            );
            t += 1;
        }
        port_infos.push(
            PortInfoResponse {
                port: port.port,
                protocol: port.protocol.clone(),
                service: port.service.clone(),
                product: port.product.clone(),
                cves: cve_infos,
            },
        );
        k += 1;
    }
    let windows = match store::Windows::load(db, hist_id) {
        Some(win) => Some(
            WindowsResponse {
                info: match store::WindowsInfo::load(db, win.id) {
                    Some(i) => Some(
                        probe::WindowsInfo {
                            native_lan_manager: crate::smb::nonempty_opt(Some(i.native_lan_manager)),
                            native_os: crate::smb::nonempty_opt(Some(i.native_os)),
                            os_name: crate::smb::nonempty_opt(Some(i.os_name)),
                            os_build: crate::smb::nonempty_opt(Some(i.os_build)),
                            os_release: crate::smb::nonempty_opt(Some(i.os_release)),
                            os_version: crate::smb::nonempty_opt(Some(i.os_version)),
                            platform: crate::smb::nonempty_opt(Some(i.platform)),
                            server_type: crate::smb::nonempty_opt(Some(i.server_type)),
                            server_string: crate::smb::nonempty_opt(Some(i.server_string)),
                        },
                    ),
                    None => None,
                },
                domain: match store::WindowsDomain::load(db, win.id) {
                    Some(d) => Some(
                        probe::WindowsDomain {
                            domain: crate::smb::nonempty_opt(Some(d.domain)),
                            dns_domain: crate::smb::nonempty_opt(Some(d.dns_domain)),
                            derived_domain: crate::smb::nonempty_opt(Some(d.derived_domain)),
                            derived_membership: crate::smb::nonempty_opt(Some(d.derived_membership)),
                            fqdn: crate::smb::nonempty_opt(Some(d.fqdn)),
                            netbios_name: crate::smb::nonempty_opt(Some(d.netbios_name)),
                            netbios_domain: crate::smb::nonempty_opt(Some(d.netbios_domain)),
                        },
                    ),
                    None => None,
                },
                shares: windows_shares_of(db, win.id),
                printers: windows_printers_of(db, win.id),
            },
        ),
        None => None,
    };
    let scripts_rows = store::ScriptScan::load(db, hist_id);
    let mut scripts: Vec<ScriptsResponse> = Vec::new();
    let mut k2: usize = 0;
    while k2 < scripts_rows.len()
        invariant
            0 <= k2 <= scripts_rows@.len(),
            scripts@.len() == k2,
        decreases scripts_rows@.len() - k2,
    {
        let row = &scripts_rows[k2];
        let results = store::ScriptResult::load(db, row.id);
        let mut data: Vec<ScriptDataResponse> = Vec::new();
        let mut t: usize = 0;
        while t < results.len()
            invariant
                0 <= t <= results@.len(),
            decreases results@.len() - t,
        {
            data.push(
                ScriptDataResponse { key: results[t].key.clone(), value: results[t].value.clone() },
            );
            t += 1;
        }
        scripts.push(
            ScriptsResponse {
                name: if row.script_id.as_str().is_empty() {
                    None
                } else {
                    Some(row.script_id.clone())
                },
                data,
            },
        );
        k2 += 1;
    }
    let mut history: Vec<ScanResponse> = Vec::new();
    let mut k3: usize = 0;
    while k3 < scan_hist.len()
        invariant
            0 <= k3 <= scan_hist@.len(),
        decreases scan_hist@.len() - k3,
    {
        let s = &scan_hist[k3];
        history.push(
            ScanResponse {
                network: network.to_owned(),
                scan: s.scan,
                changed: s.changed,
                start: s.start_time,
                end: s.end_time,
            },
        );
        k3 += 1;
    }
    Some(
        HostInfoResponse {
            id: hostrow.id,
            ip: hostrow.ip,
            os: hist.os,
            scan_timestamp: scan_row.start_time,
            scan_history: history,
            ports: port_infos,
            windows,
            scripts,
        },
    )
}

/// The probe-side shares stored on one windows row.
fn windows_shares_of(db: &Store, win_id: i64) -> (r: Vec<probe::WindowsShare>)
    ensures
        r@.len() == shares_of_windows(db@.windows_share, win_id).len(),
{
    let rows = store::WindowsShare::load(db, win_id);
    let mut out: Vec<probe::WindowsShare> = Vec::new();
    let mut k: usize = 0;
    while k < rows.len()
        invariant
            0 <= k <= rows@.len(),
            out@.len() == k,
        decreases rows@.len() - k,
    {
        out.push(
            probe::WindowsShare {
                name: crate::smb::nonempty_opt(Some(rows[k].name.clone())),
                comment: crate::smb::nonempty_opt(Some(rows[k].comment.clone())),
                share_type: crate::smb::nonempty_opt(Some(rows[k].share_type.clone())),
                access: Vec::new(),
            },
        );
        k += 1;
    }
    out
}

/// The probe-side printers stored on one windows row.
fn windows_printers_of(db: &Store, win_id: i64) -> (r: Vec<probe::WindowsPrinter>)
    ensures
        r@.len() == printers_of_windows(db@.windows_printer, win_id).len(),
{
    let rows = store::WindowsPrinter::load(db, win_id);
    let mut out: Vec<probe::WindowsPrinter> = Vec::new();
    let mut k: usize = 0;
    while k < rows.len()
        invariant
            0 <= k <= rows@.len(),
            out@.len() == k,
        decreases rows@.len() - k,
    {
        out.push(
            probe::WindowsPrinter {
                uri: crate::smb::nonempty_opt(Some(rows[k].uri.clone())),
                comment: crate::smb::nonempty_opt(Some(rows[k].comment.clone())),
                description: crate::smb::nonempty_opt(Some(rows[k].description.clone())),
                flags: crate::smb::nonempty_opt(Some(rows[k].flags.clone())),
            },
        );
        k += 1;
    }
    out
}

/// The scan row under this id, or a blank one.
fn scan_load_or_default(db: &Store, scan: i64) -> (r: store::Scan) {
    match store::Scan::load(db, scan) {
        Some(s) => s,
        None => store::Scan { scan: 0, start_time: 0, end_time: 0, changed: true },
    }
}

/// The full network view: the hosts observed in the scan, then the hosts
/// that left since the scan before it, marked removed.
pub fn network_view(db: &Store, network: &str, scan: i64) -> (r: Vec<NetworkResponse>)
    requires
        db.wf(),
        scan < 0x7fff_ffff_ffff_ffff,
    ensures
        r@.len() == crate::temporal::present_rows(db@, network@, scan).len()
            + crate::temporal::removed_rows(db@, network@, scan).len(),
{
    broadcast use vstd::seq_lib::group_to_multiset_ensures;

    let hosts = Host::list_from_network(db, network, scan);
    let removed = Host::list_removed_from_network(db, network, scan);
    proof {
        hosts@.to_multiset_ensures();
        crate::temporal::present_rows(db@, network@, scan).to_multiset_ensures();
    }
    let mut out: Vec<NetworkResponse> = Vec::new();
    let mut k: usize = 0;
    while k < hosts.len()
        invariant
            db.wf(),
            scan < 0x7fff_ffff_ffff_ffff,
            0 <= k <= hosts@.len(),
            out@.len() == k,
        decreases hosts@.len() - k,
    {
        out.push(map_network_db_results(db, &hosts[k], scan, false));
        k += 1;
    }
    let mut t: usize = 0;
    while t < removed.len()
        invariant
            db.wf(),
            scan < 0x7fff_ffff_ffff_ffff,
            0 <= t <= removed@.len(),
            out@.len() == hosts@.len() + t,
        decreases removed@.len() - t,
    {
        let prev_scan = if scan > -0x7fff_ffff_ffff_ffff {
            scan - 1
        } else {
            scan
        };
        out.push(map_network_db_results(db, &removed[t], prev_scan, true));
        t += 1;
    }
    out
}

} // verus!
