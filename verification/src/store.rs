//! The scan-result data model: an in-memory relational store.
//!
//! One `Store` value holds the row sets of every table.  Surrogate ids are
//! positive and unique per table; id 0 denotes an unsaved row.  The
//! well-formedness predicate [`Store::wf`] carries the referential
//! invariants of the data model: every `HostHistory` references an existing
//! `Host` and `Scan`, every child row references an existing `HostHistory`,
//! routing edges never form self-loops, at most one `HostHistory` exists per
//! `(scan, host)` pair, and a scan's `start_time` never exceeds its
//! `end_time`.

use vstd::prelude::*;

verus! {

/// End-of-scan sentinel: the far-future timestamp (9999-12-31 23:59:59 UTC,
/// as seconds) a scan carries until it completes.
pub const SCAN_END_SENTINEL: i64 = 253402300799;

/// Default lower bound of a time window (1900-01-01 00:00:00 UTC, as seconds).
pub const WINDOW_START_DEFAULT: i64 = -2208988800;

/// One complete pass of the pipeline; the temporal anchor of all snapshots.
pub struct Scan {
    pub scan: i64,
    pub start_time: i64,
    pub end_time: i64,
    pub changed: bool,
}

/// Append-only operational audit record.
pub struct Log {
    pub log_time: i64,
    pub scan: i64,
    pub severity: String,
    pub origin: String,
    pub log: String,
}

/// Persistent identity of an address; survives across scans.
pub struct Host {
    pub id: i64,
    pub hist_id: i64,
    pub network: String,
    pub ipnet: String,
    pub hostname: String,
    pub ip: String,
    pub ignore: bool,
    pub os: String,
    pub comment: String,
}

/// The per-scan observation of a host; anchor of all scan-time child rows.
pub struct HostHistory {
    pub id: i64,
    pub host_id: i64,
    pub os: String,
    pub scan: i64,
}

/// A directed edge of the per-scan traceroute graph.
pub struct Routing {
    pub scan: i64,
    pub left: i64,
    pub right: i64,
    pub comment: String,
}

/// A service observed on a host in one scan.
pub struct Port {
    pub host_history_id: i64,
    pub port: i32,
    pub protocol: String,
    pub state: String,
    pub service: String,
    pub product: String,
    pub comment: String,
}

/// One vulnerability candidate on a `(HostHistory, port)` pair.
/// `cvss` holds tenths of a CVSS point (75 stands for a score of 7.5).
pub struct Cve {
    pub host_history_id: i64,
    pub port: i32,
    pub database: String,
    pub type_id: String,
    pub cvss: u32,
    pub is_exploit: String,
    pub scan: i64,
    pub comment: String,
}

/// Umbrella row of the SMB data collected on one host in one scan.
pub struct Windows {
    pub id: i64,
    pub scan: i64,
    pub hist_id: i64,
}

/// General SMB information; zero or one row per `Windows` row.
pub struct WindowsInfo {
    pub windows_id: i64,
    pub native_lan_manager: String,
    pub native_os: String,
    pub os_name: String,
    pub os_build: String,
    pub os_release: String,
    pub os_version: String,
    pub platform: String,
    pub server_type: String,
    pub server_string: String,
}

/// SMB domain information; zero or one row per `Windows` row.
pub struct WindowsDomain {
    pub windows_id: i64,
    pub domain: String,
    pub dns_domain: String,
    pub derived_domain: String,
    pub derived_membership: String,
    pub fqdn: String,
    pub netbios_name: String,
    pub netbios_domain: String,
}

/// One SMB share; zero or more rows per `Windows` row.
pub struct WindowsShare {
    pub windows_id: i64,
    pub name: String,
    pub comment: String,
    pub share_type: String,
}

/// One SMB printer; zero or more rows per `Windows` row.
pub struct WindowsPrinter {
    pub windows_id: i64,
    pub uri: String,
    pub comment: String,
    pub description: String,
    pub flags: String,
}

/// One probe-script run on a host in one scan.
pub struct ScriptScan {
    pub id: i64,
    pub scan: i64,
    pub hist_id: i64,
    pub script_id: String,
}

/// One key/value pair a probe script produced.
pub struct ScriptResult {
    pub script_id: i64,
    pub key: String,
    pub value: String,
}

impl Clone for Scan {
    fn clone(&self) -> (r: Self)
        ensures
            r == *self,
    {
        Scan { scan: self.scan, start_time: self.start_time, end_time: self.end_time, changed: self.changed }
    }
}

impl Clone for Log {
    fn clone(&self) -> (r: Self)
        ensures
            r == *self,
    {
        Log {
            log_time: self.log_time,
            scan: self.scan,
            severity: self.severity.clone(),
            origin: self.origin.clone(),
            log: self.log.clone(),
        }
    }
}

impl Clone for Host {
    fn clone(&self) -> (r: Self)
        ensures
            r == *self,
    {
        Host {
            id: self.id,
            hist_id: self.hist_id,
            network: self.network.clone(),
            ipnet: self.ipnet.clone(),
            hostname: self.hostname.clone(),
            ip: self.ip.clone(),
            ignore: self.ignore,
            os: self.os.clone(),
            comment: self.comment.clone(),
        }
    }
}

impl Clone for HostHistory {
    fn clone(&self) -> (r: Self)
        ensures
            r == *self,
    {
        HostHistory { id: self.id, host_id: self.host_id, os: self.os.clone(), scan: self.scan }
    }
}

impl Clone for Routing {
    fn clone(&self) -> (r: Self)
        ensures
            r == *self,
    {
        Routing { scan: self.scan, left: self.left, right: self.right, comment: self.comment.clone() }
    }
}

impl Clone for Port {
    fn clone(&self) -> (r: Self)
        ensures
            r == *self,
    {
        Port {
            host_history_id: self.host_history_id,
            port: self.port,
            protocol: self.protocol.clone(),
            state: self.state.clone(),
            service: self.service.clone(),
            product: self.product.clone(),
            comment: self.comment.clone(),
        }
    }
}

impl Clone for Cve {
    fn clone(&self) -> (r: Self)
        ensures
            r == *self,
    {
        Cve {
            host_history_id: self.host_history_id,
            port: self.port,
            database: self.database.clone(),
            type_id: self.type_id.clone(),
            cvss: self.cvss,
            is_exploit: self.is_exploit.clone(),
            scan: self.scan,
            comment: self.comment.clone(),
        }
    }
}

impl Clone for Windows {
    fn clone(&self) -> (r: Self)
        ensures
            r == *self,
    {
        Windows { id: self.id, scan: self.scan, hist_id: self.hist_id }
    }
}

impl Clone for WindowsInfo {
    fn clone(&self) -> (r: Self)
        ensures
            r == *self,
    {
        WindowsInfo {
            windows_id: self.windows_id,
            native_lan_manager: self.native_lan_manager.clone(),
            native_os: self.native_os.clone(),
            os_name: self.os_name.clone(),
            os_build: self.os_build.clone(),
            os_release: self.os_release.clone(),
            os_version: self.os_version.clone(),
            platform: self.platform.clone(),
            server_type: self.server_type.clone(),
            server_string: self.server_string.clone(),
        }
    }
}

impl Clone for WindowsDomain {
    fn clone(&self) -> (r: Self)
        ensures
            r == *self,
    {
        WindowsDomain {
            windows_id: self.windows_id,
            domain: self.domain.clone(),
            dns_domain: self.dns_domain.clone(),
            derived_domain: self.derived_domain.clone(),
            derived_membership: self.derived_membership.clone(),
            fqdn: self.fqdn.clone(),
            netbios_name: self.netbios_name.clone(),
            netbios_domain: self.netbios_domain.clone(),
        }
    }
}

impl Clone for WindowsShare {
    fn clone(&self) -> (r: Self)
        ensures
            r == *self,
    {
        WindowsShare {
            windows_id: self.windows_id,
            name: self.name.clone(),
            comment: self.comment.clone(),
            share_type: self.share_type.clone(),
        }
    }
}

impl Clone for WindowsPrinter {
    fn clone(&self) -> (r: Self)
        ensures
            r == *self,
    {
        WindowsPrinter {
            windows_id: self.windows_id,
            uri: self.uri.clone(),
            comment: self.comment.clone(),
            description: self.description.clone(),
            flags: self.flags.clone(),
        }
    }
}

impl Clone for ScriptScan {
    fn clone(&self) -> (r: Self)
        ensures
            r == *self,
    {
        ScriptScan { id: self.id, scan: self.scan, hist_id: self.hist_id, script_id: self.script_id.clone() }
    }
}

impl Clone for ScriptResult {
    fn clone(&self) -> (r: Self)
        ensures
            r == *self,
    {
        ScriptResult { script_id: self.script_id, key: self.key.clone(), value: self.value.clone() }
    }
}

/// The relational store: one value holds every table of the data model.
pub struct Store {
    pub scans: Vec<Scan>,
    pub logs: Vec<Log>,
    pub hosts: Vec<Host>,
    pub history: Vec<HostHistory>,
    pub routing: Vec<Routing>,
    pub ports: Vec<Port>,
    pub cves: Vec<Cve>,
    pub windows: Vec<Windows>,
    pub windows_info: Vec<WindowsInfo>,
    pub windows_domain: Vec<WindowsDomain>,
    pub windows_share: Vec<WindowsShare>,
    pub windows_printer: Vec<WindowsPrinter>,
    pub script_scans: Vec<ScriptScan>,
    pub script_results: Vec<ScriptResult>,
    /// The scan the pipeline currently persists under (a context value).
    pub current_scan_id: i64,
}

/// Some scan row carries this id.
pub open spec fn scan_exists(scans: Seq<Scan>, id: i64) -> bool {
    exists|i: int| 0 <= i < scans.len() && scans[i].scan == id
}

/// Some host row carries this id.
pub open spec fn host_exists(hosts: Seq<Host>, id: i64) -> bool {
    exists|i: int| 0 <= i < hosts.len() && hosts[i].id == id
}

/// Some host row carries this ip.
pub open spec fn host_ip_exists(hosts: Seq<Host>, ip: Seq<char>) -> bool {
    exists|i: int| 0 <= i < hosts.len() && hosts[i].ip@ == ip
}

/// Some history row carries this id.
pub open spec fn hist_exists(history: Seq<HostHistory>, id: i64) -> bool {
    exists|i: int| 0 <= i < history.len() && history[i].id == id
}

/// Some history row observes this host in this scan.
pub open spec fn hist_pair_exists(history: Seq<HostHistory>, scan: i64, host_id: i64) -> bool {
    exists|i: int| 0 <= i < history.len() && history[i].scan == scan && history[i].host_id == host_id
}

/// Some windows row carries this id.
pub open spec fn windows_exists(windows: Seq<Windows>, id: i64) -> bool {
    exists|i: int| 0 <= i < windows.len() && windows[i].id == id
}

/// Some script-scan row carries this id.
pub open spec fn script_scan_exists(scans: Seq<ScriptScan>, id: i64) -> bool {
    exists|i: int| 0 <= i < scans.len() && scans[i].id == id
}

/// Ghost view of a [`Store`]: the row sequence of every table.
pub struct StoreV {
    pub scans: Seq<Scan>,
    pub logs: Seq<Log>,
    pub hosts: Seq<Host>,
    pub history: Seq<HostHistory>,
    pub routing: Seq<Routing>,
    pub ports: Seq<Port>,
    pub cves: Seq<Cve>,
    pub windows: Seq<Windows>,
    pub windows_info: Seq<WindowsInfo>,
    pub windows_domain: Seq<WindowsDomain>,
    pub windows_share: Seq<WindowsShare>,
    pub windows_printer: Seq<WindowsPrinter>,
    pub script_scans: Seq<ScriptScan>,
    pub script_results: Seq<ScriptResult>,
    pub current_scan_id: i64,
}

impl View for Store {
    type V = StoreV;

    open spec fn view(&self) -> StoreV {
        StoreV {
            scans: self.scans@,
            logs: self.logs@,
            hosts: self.hosts@,
            history: self.history@,
            routing: self.routing@,
            ports: self.ports@,
            cves: self.cves@,
            windows: self.windows@,
            windows_info: self.windows_info@,
            windows_domain: self.windows_domain@,
            windows_share: self.windows_share@,
            windows_printer: self.windows_printer@,
            script_scans: self.script_scans@,
            script_results: self.script_results@,
            current_scan_id: self.current_scan_id,
        }
    }
}

impl StoreV {
    /// Scan rows: ids positive, bounded by the row count, unique;
    /// `start_time` never exceeds `end_time` (on a completed scan
    /// `end_time` has moved off the sentinel and the bound still holds).
    pub open spec fn scans_wf(self) -> bool {
        &&& forall|i: int|
            0 <= i < self.scans.len() ==> 1 <= (#[trigger] self.scans[i]).scan <= self.scans.len()
        &&& forall|i: int, j: int|
            0 <= i < j < self.scans.len() ==> (#[trigger] self.scans[i]).scan != (#[trigger] self.scans[j]).scan
        &&& forall|i: int|
            0 <= i < self.scans.len() ==> (#[trigger] self.scans[i]).start_time <= self.scans[i].end_time
    }

    /// Host rows: ids positive, bounded, unique; `ip` is a natural key.
    pub open spec fn hosts_wf(self) -> bool {
        &&& forall|i: int|
            0 <= i < self.hosts.len() ==> 1 <= (#[trigger] self.hosts[i]).id <= self.hosts.len()
        &&& forall|i: int, j: int|
            0 <= i < j < self.hosts.len() ==> (#[trigger] self.hosts[i]).id != (#[trigger] self.hosts[j]).id
        &&& forall|i: int, j: int|
            0 <= i < j < self.hosts.len() ==> (#[trigger] self.hosts[i]).ip@ != (#[trigger] self.hosts[j]).ip@
    }

    /// History rows: ids positive, bounded, unique; each row references an
    /// existing host and an existing scan; at most one row per `(scan, host)`.
    pub open spec fn history_wf(self) -> bool {
        &&& forall|i: int|
            0 <= i < self.history.len() ==> 1 <= (#[trigger] self.history[i]).id <= self.history.len()
        &&& forall|i: int, j: int|
            0 <= i < j < self.history.len() ==> (#[trigger] self.history[i]).id != (#[trigger] self.history[j]).id
        &&& forall|i: int|
            0 <= i < self.history.len() ==> host_exists(self.hosts, (#[trigger] self.history[i]).host_id)
        &&& forall|i: int|
            0 <= i < self.history.len() ==> scan_exists(self.scans, (#[trigger] self.history[i]).scan)
        &&& forall|i: int, j: int|
            0 <= i < j < self.history.len() ==> !((#[trigger] self.history[i]).scan == (#[trigger] self.history[j]).scan
                && self.history[i].host_id == self.history[j].host_id)
    }

    /// Routing edges: no self-loops; both ends reference existing history rows.
    pub open spec fn routing_wf(self) -> bool {
        &&& forall|i: int|
            0 <= i < self.routing.len() ==> (#[trigger] self.routing[i]).left != self.routing[i].right
        &&& forall|i: int|
            0 <= i < self.routing.len() ==> hist_exists(self.history, (#[trigger] self.routing[i]).left)
        &&& forall|i: int|
            0 <= i < self.routing.len() ==> hist_exists(self.history, (#[trigger] self.routing[i]).right)
    }

    /// Port and CVE rows reference existing history rows.
    pub open spec fn children_wf(self) -> bool {
        &&& forall|i: int|
            0 <= i < self.ports.len() ==> hist_exists(self.history, (#[trigger] self.ports[i]).host_history_id)
        &&& forall|i: int|
            0 <= i < self.cves.len() ==> hist_exists(self.history, (#[trigger] self.cves[i]).host_history_id)
    }

    /// Windows rows: ids positive, bounded, unique; reference existing
    /// history rows; the satellite rows reference existing windows rows.
    pub open spec fn windows_wf(self) -> bool {
        &&& forall|i: int|
            0 <= i < self.windows.len() ==> 1 <= (#[trigger] self.windows[i]).id <= self.windows.len()
        &&& forall|i: int, j: int|
            0 <= i < j < self.windows.len() ==> (#[trigger] self.windows[i]).id != (#[trigger] self.windows[j]).id
        &&& forall|i: int|
            0 <= i < self.windows.len() ==> hist_exists(self.history, (#[trigger] self.windows[i]).hist_id)
        &&& forall|i: int|
            0 <= i < self.windows_info.len() ==> windows_exists(self.windows, (#[trigger] self.windows_info[i]).windows_id)
        &&& forall|i: int|
            0 <= i < self.windows_domain.len() ==> windows_exists(self.windows, (#[trigger] self.windows_domain[i]).windows_id)
        &&& forall|i: int|
            0 <= i < self.windows_share.len() ==> windows_exists(self.windows, (#[trigger] self.windows_share[i]).windows_id)
        &&& forall|i: int|
            0 <= i < self.windows_printer.len() ==> windows_exists(self.windows, (#[trigger] self.windows_printer[i]).windows_id)
    }

    /// Script rows: ids positive, bounded, unique; scans reference existing
    /// history rows; results reference existing script scans.
    pub open spec fn scripts_wf(self) -> bool {
        &&& forall|i: int|
            0 <= i < self.script_scans.len() ==> 1 <= (#[trigger] self.script_scans[i]).id <= self.script_scans.len()
        &&& forall|i: int, j: int|
            0 <= i < j < self.script_scans.len() ==> (#[trigger] self.script_scans[i]).id != (#[trigger] self.script_scans[j]).id
        &&& forall|i: int|
            0 <= i < self.script_scans.len() ==> hist_exists(self.history, (#[trigger] self.script_scans[i]).hist_id)
        &&& forall|i: int|
            0 <= i < self.script_results.len() ==> script_scan_exists(self.script_scans, (#[trigger] self.script_results[i]).script_id)
    }

    /// Well-formedness of the whole store: the data-model invariants.
    pub open spec fn wf(self) -> bool {
        &&& self.scans_wf()
        &&& self.hosts_wf()
        &&& self.history_wf()
        &&& self.routing_wf()
        &&& self.children_wf()
        &&& self.windows_wf()
        &&& self.scripts_wf()
    }
}

impl Store {
    /// Well-formedness of the whole store: the data-model invariants.
    pub open spec fn wf(self) -> bool {
        self@.wf()
    }

    /// An empty store, well-formed by construction.
    pub fn new() -> (r: Store)
        ensures
            r.wf(),
            r@.scans.len() == 0,
            r@.logs.len() == 0,
            r@.hosts.len() == 0,
            r@.history.len() == 0,
            r@.routing.len() == 0,
            r@.ports.len() == 0,
            r@.cves.len() == 0,
            r@.windows.len() == 0,
            r@.windows_info.len() == 0,
            r@.windows_domain.len() == 0,
            r@.windows_share.len() == 0,
            r@.windows_printer.len() == 0,
            r@.script_scans.len() == 0,
            r@.script_results.len() == 0,
            r@.current_scan_id == 0,
    {
        Store {
            scans: Vec::new(),
            logs: Vec::new(),
            hosts: Vec::new(),
            history: Vec::new(),
            routing: Vec::new(),
            ports: Vec::new(),
            cves: Vec::new(),
            windows: Vec::new(),
            windows_info: Vec::new(),
            windows_domain: Vec::new(),
            windows_share: Vec::new(),
            windows_printer: Vec::new(),
            script_scans: Vec::new(),
            script_results: Vec::new(),
            current_scan_id: 0,
        }
    }
}

} // verus!
