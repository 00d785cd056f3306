//! Probe results and the persist sub-protocol: the in-memory host draft a
//! scan works on, and how one draft's observations become store rows.

use vstd::prelude::*;
use crate::store::{Store, StoreV, scan_exists, host_exists, host_ip_exists, hist_exists, hist_pair_exists, windows_exists};
use crate::store;
use crate::entities::ip_host_id;
use crate::textutil::str_eq;

verus! {

/// Transport protocol of an observed service.
#[derive(Clone, Copy, PartialEq, Eq, Structural)]
pub enum Protocol {
    UNKNOWN,
    TCP,
    UDP,
}

/// State of an observed port.
#[derive(Clone, Copy, PartialEq, Eq, Structural)]
pub enum State {
    UNKNOWN,
    OPEN,
    FILTER,
    CLOSE,
}

/// The textual form of a protocol, as stored and exported.
pub open spec fn protocol_text(p: Protocol) -> Seq<char> {
    match p {
        Protocol::UNKNOWN => "UNKNOWN"@,
        Protocol::TCP => "TCP"@,
        Protocol::UDP => "UDP"@,
    }
}

/// The textual form of a port state, as stored and exported.
pub open spec fn state_text(s: State) -> Seq<char> {
    match s {
        State::UNKNOWN => "UNKNOWN"@,
        State::OPEN => "OPEN"@,
        State::FILTER => "FILTER"@,
        State::CLOSE => "CLOSE"@,
    }
}

impl Protocol {
    /// The textual form of the protocol.
    pub fn to_text(&self) -> (r: String)
        ensures
            r@ == protocol_text(*self),
    {
        match self {
            Protocol::UNKNOWN => String::from_str("UNKNOWN"),
            Protocol::TCP => String::from_str("TCP"),
            Protocol::UDP => String::from_str("UDP"),
        }
    }

    /// Parses the textual form back; unknown spellings are rejected.
    pub fn from_text(s: &str) -> (r: Result<Protocol, String>)
        ensures
            (r is Ok) == (s@ == "UNKNOWN"@ || s@ == "TCP"@ || s@ == "UDP"@),
            r matches Ok(p) ==> protocol_text(p) == s@,
    {
        if str_eq(s, "UNKNOWN") {
            Ok(Protocol::UNKNOWN)
        } else if str_eq(s, "TCP") {
            Ok(Protocol::TCP)
        } else if str_eq(s, "UDP") {
            Ok(Protocol::UDP)
        } else {
            Err(String::from_str("unknown protocol"))
        }
    }
}

impl State {
    /// The textual form of the state.
    pub fn to_text(&self) -> (r: String)
        ensures
            r@ == state_text(*self),
    {
        match self {
            State::UNKNOWN => String::from_str("UNKNOWN"),
            State::OPEN => String::from_str("OPEN"),
            State::FILTER => String::from_str("FILTER"),
            State::CLOSE => String::from_str("CLOSE"),
        }
    }

    /// Parses the textual form back; unknown spellings are rejected.
    pub fn from_text(s: &str) -> (r: Result<State, String>)
        ensures
            (r is Ok) == (s@ == "UNKNOWN"@ || s@ == "OPEN"@ || s@ == "FILTER"@ || s@ == "CLOSE"@),
            r matches Ok(p) ==> state_text(p) == s@,
    {
        if str_eq(s, "UNKNOWN") {
            Ok(State::UNKNOWN)
        } else if str_eq(s, "OPEN") {
            Ok(State::OPEN)
        } else if str_eq(s, "FILTER") {
            Ok(State::FILTER)
        } else if str_eq(s, "CLOSE") {
            Ok(State::CLOSE)
        } else {
            Err(String::from_str("unknown state"))
        }
    }
}

/// One vulnerability candidate a probe reported on a service.
/// `cvss` holds tenths of a CVSS point (75 stands for a score of 7.5).
pub struct Vulnerability {
    pub database: String,
    pub id: String,
    pub cvss: u32,
    pub exploit: bool,
}

/// One service a probe observed on a host.
pub struct Service {
    pub port: u16,
    pub protocol: Protocol,
    pub state: State,
    pub name: String,
    pub product: String,
    pub version: String,
    pub vulns: Vec<Vulnerability>,
}

/// General SMB information a probe collected.
pub struct WindowsInfo {
    pub native_lan_manager: Option<String>,
    pub native_os: Option<String>,
    pub os_name: Option<String>,
    pub os_build: Option<String>,
    pub os_release: Option<String>,
    pub os_version: Option<String>,
    pub platform: Option<String>,
    pub server_type: Option<String>,
    pub server_string: Option<String>,
}

/// SMB domain information a probe collected.
pub struct WindowsDomain {
    pub domain: Option<String>,
    pub dns_domain: Option<String>,
    pub derived_domain: Option<String>,
    pub derived_membership: Option<String>,
    pub fqdn: Option<String>,
    pub netbios_name: Option<String>,
    pub netbios_domain: Option<String>,
}

/// One SMB share a probe found.
pub struct WindowsShare {
    pub name: Option<String>,
    pub comment: Option<String>,
    pub share_type: Option<String>,
    pub access: Vec<(String, String)>,
}

/// One SMB printer a probe found.
pub struct WindowsPrinter {
    pub uri: Option<String>,
    pub comment: Option<String>,
    pub description: Option<String>,
    pub flags: Option<String>,
}

/// Everything the SMB enumeration produced for one host.
pub struct Windows {
    pub info: Option<WindowsInfo>,
    pub domain: Option<WindowsDomain>,
    pub shares: Vec<WindowsShare>,
    pub printers: Vec<WindowsPrinter>,
}

/// The in-memory draft of one host a scan works on.
pub struct Host {
    pub network: String,
    pub ip: String,
    pub hops: Vec<String>,
    pub services: Vec<Service>,
    pub os: Option<String>,
    pub windows: Option<Windows>,
    pub extended_scan: bool,
    pub db_id: i64,
    pub db_hist_id: i64,
}

impl Host {
    /// A fresh draft for one address: no observations yet, nothing saved.
    pub fn draft(network: String, ip: String, extended_scan: bool) -> (r: Host)
        ensures
            r.network == network,
            r.ip == ip,
            r.hops@.len() == 0,
            r.services@.len() == 0,
            r.os is None,
            r.windows is None,
            r.extended_scan == extended_scan,
            r.db_id == 0,
            r.db_hist_id == 0,
    {
        Host {
            network,
            ip,
            hops: Vec::new(),
            services: Vec::new(),
            os: None,
            windows: None,
            extended_scan,
            db_id: 0,
            db_hist_id: 0,
        }
    }
}

/// The `os` snapshot a draft yields: the observation, or "Unknown" when the
/// probe saw none.
pub open spec fn draft_os(os: Option<String>) -> Seq<char> {
    match os {
        Some(s) => s@,
        None => "Unknown"@,
    }
}


/// A sequence stays a prefix when the extension grows by one element.
pub proof fn lemma_prefix_push<A>(a: Seq<A>, b: Seq<A>, x: A)
    requires
        a.is_prefix_of(b),
    ensures
        a.is_prefix_of(b.push(x)),
{
    assert(b.push(x).subrange(0, a.len() as int) =~= b.subrange(0, a.len() as int));
}

/// Every sequence is a prefix of itself.
pub proof fn lemma_prefix_refl<A>(a: Seq<A>)
    ensures
        a.is_prefix_of(a),
{
    assert(a.subrange(0, a.len() as int) =~= a);
}

/// A hop of a draft is fully recorded on a store: the hop's host row
/// exists, it was observed in the scan, and — unless the hop's observation
/// is the draft's own — a routing edge runs from the draft's observation to
/// the hop's.
pub open spec fn hop_recorded(v: StoreV, scan: i64, left: i64, hop: Seq<char>) -> bool {
    &&& host_ip_exists(v.hosts, hop)
    &&& hist_pair_exists(v.history, scan, ip_host_id(v.hosts, hop))
    &&& ({
        let hid = crate::temporal::hist_pair_of(v.history, scan, ip_host_id(v.hosts, hop)).id;
        hid != left ==> exists|i: int|
            0 <= i < v.routing.len() && (#[trigger] v.routing[i]).scan == scan && v.routing[i].left == left
                && v.routing[i].right == hid
    })
}

/// A recorded hop stays recorded when the store's tables only grow.
proof fn lemma_hop_recorded_stable(pre: StoreV, post: StoreV, scan: i64, left: i64, hop: Seq<char>)
    requires
        post.wf(),
        hop_recorded(pre, scan, left, hop),
        pre.hosts.is_prefix_of(post.hosts),
        pre.history.is_prefix_of(post.history),
        pre.routing.is_prefix_of(post.routing),
    ensures
        hop_recorded(post, scan, left, hop),
{
    let w = choose|i: int| 0 <= i < pre.hosts.len() && pre.hosts[i].ip@ == hop;
    assert(post.hosts.subrange(0, pre.hosts.len() as int)[w] == pre.hosts[w]);
    assert(post.hosts[w] == pre.hosts[w]);
    assert(host_ip_exists(post.hosts, hop));
    let w2 = choose|i: int| 0 <= i < post.hosts.len() && post.hosts[i].ip@ == hop;
    assert(ip_host_id(post.hosts, hop) == ip_host_id(pre.hosts, hop)) by {
        if w2 != w {
            assert(post.hosts[w2].ip@ != post.hosts[w].ip@);
        }
    }
    let host_id = ip_host_id(pre.hosts, hop);
    let p = choose|i: int|
        0 <= i < pre.history.len() && (#[trigger] pre.history[i]).scan == scan && pre.history[i].host_id
            == host_id;
    assert(post.history.subrange(0, pre.history.len() as int)[p] == pre.history[p]);
    assert(post.history[p] == pre.history[p]);
    assert(hist_pair_exists(post.history, scan, host_id));
    crate::temporal::lemma_hist_pair_of(pre.history, scan, host_id);
    crate::temporal::lemma_hist_pair_of(post.history, scan, host_id);
    let h0 = crate::temporal::hist_pair_of(pre.history, scan, host_id);
    let i0 = choose|i: int| 0 <= i < pre.history.len() && pre.history[i] == h0;
    assert(post.history.subrange(0, pre.history.len() as int)[i0] == pre.history[i0]);
    assert(post.history[i0] == h0);
    assert(post.history.contains(post.history[i0]));
    crate::temporal::lemma_hist_pair_unique(
        post.history,
        scan,
        host_id,
        crate::temporal::hist_pair_of(post.history, scan, host_id),
        h0,
    );
    let hid = h0.id;
    if hid != left {
        let e = choose|i: int|
            0 <= i < pre.routing.len() && (#[trigger] pre.routing[i]).scan == scan && pre.routing[i].left
                == left && pre.routing[i].right == hid;
        assert(post.routing.subrange(0, pre.routing.len() as int)[e] == pre.routing[e]);
        assert(post.routing[e] == pre.routing[e]);
    }
}

impl Host {
    /// Inserts a new host row for this address, commented with when it was
    /// first seen, and returns its fresh id.
    fn create_host(&self, db: &mut Store, ip: &str, now_text: &str) -> (r: i64)
        requires
            old(db).wf(),
            !host_ip_exists(old(db)@.hosts, ip@),
            old(db)@.hosts.len() < 0x7fff_ffff_ffff_ffff,
        ensures
            final(db).wf(),
            r >= 1,
            !host_exists(old(db)@.hosts, r),
            final(db)@ == (StoreV { hosts: final(db)@.hosts, ..old(db)@ }),
            final(db)@.hosts == old(db)@.hosts.push(final(db)@.hosts.last()),
            ({
                let row = final(db)@.hosts.last();
                &&& row.id == r
                &&& row.ip@ == ip@
                &&& row.network@ == self.network@
                &&& row.comment@ == "First seen on "@ + now_text@
            }),
    {
        let mut host = store::Host {
            id: 0,
            hist_id: 0,
            network: self.network.clone(),
            ipnet: String::new(),
            hostname: String::new(),
            ip: ip.to_owned(),
            ignore: false,
            os: String::new(),
            comment: String::from_str("First seen on ").concat(now_text),
        };
        let _res = host.save(db);
        host.id
    }

    /// Inserts a new observation of this host in the current scan, frozen
    /// with the draft's os snapshot, and returns its fresh id.
    fn create_host_hist(&self, db: &mut Store, host_id: i64) -> (r: i64)
        requires
            old(db).wf(),
            scan_exists(old(db)@.scans, old(db)@.current_scan_id),
            host_exists(old(db)@.hosts, host_id),
            !hist_pair_exists(old(db)@.history, old(db)@.current_scan_id, host_id),
            old(db)@.history.len() < 0x7fff_ffff_ffff_ffff,
        ensures
            final(db).wf(),
            r >= 1,
            !hist_exists(old(db)@.history, r),
            final(db)@ == (StoreV { history: final(db)@.history, ..old(db)@ }),
            final(db)@.history == old(db)@.history.push(final(db)@.history.last()),
            ({
                let row = final(db)@.history.last();
                &&& row.id == r
                &&& row.host_id == host_id
                &&& row.scan == old(db)@.current_scan_id
                &&& row.os@ == draft_os(self.os)
            }),
    {
        let os = match &self.os {
            Some(s) => s.clone(),
            None => String::from_str("Unknown"),
        };
        let mut hist = store::HostHistory { id: 0, host_id, os, scan: db.current_scan_id };
        let _res = hist.save(db);
        hist.id
    }

    /// The persist sub-protocol for one draft, run under the store's current
    /// scan id: resolves or creates the host row by address, resolves or
    /// creates exactly one observation for `(scan, host)`, and snapshots one
    /// routing edge from that observation to every hop except the target
    /// itself, never recording a self-loop.  Hops get their own host and
    /// observation rows when missing.  Host, history and routing rows only
    /// grow; nothing else changes.
    #[verifier::rlimit(100)]
    pub fn save_to_db(&mut self, db: &mut Store, now_text: &str)
        requires
            old(db).wf(),
            scan_exists(old(db)@.scans, old(db)@.current_scan_id),
            old(db)@.hosts.len() + old(self).hops@.len() < 0x7fff_ffff_ffff_fffe,
            old(db)@.history.len() + old(self).hops@.len() < 0x7fff_ffff_ffff_fffe,
        ensures
            final(db).wf(),
            final(db)@ == (StoreV {
                hosts: final(db)@.hosts,
                history: final(db)@.history,
                routing: final(db)@.routing,
                ..old(db)@
            }),
            old(db)@.hosts.is_prefix_of(final(db)@.hosts),
            old(db)@.history.is_prefix_of(final(db)@.history),
            old(db)@.routing.is_prefix_of(final(db)@.routing),
            final(db)@.hosts.len() <= old(db)@.hosts.len() + old(self).hops@.len() + 1,
            final(db)@.history.len() <= old(db)@.history.len() + old(self).hops@.len() + 1,
            *final(self) == (Host {
                db_id: final(self).db_id,
                db_hist_id: final(self).db_hist_id,
                ..*old(self)
            }),
            host_ip_exists(final(db)@.hosts, old(self).ip@),
            final(self).db_id == ip_host_id(final(db)@.hosts, old(self).ip@),
            final(self).db_id >= 1,
            hist_pair_exists(final(db)@.history, old(db)@.current_scan_id, final(self).db_id),
            final(self).db_hist_id >= 1,
            hist_exists(final(db)@.history, final(self).db_hist_id),
            ({
                let h = crate::temporal::hist_pair_of(
                    final(db)@.history,
                    old(db)@.current_scan_id,
                    final(self).db_id,
                );
                final(self).db_hist_id == h.id
            }),
            host_ip_exists(old(db)@.hosts, old(self).ip@) && hist_pair_exists(
                old(db)@.history,
                old(db)@.current_scan_id,
                ip_host_id(old(db)@.hosts, old(self).ip@),
            ) ==> final(self).db_hist_id == crate::temporal::hist_pair_of(
                old(db)@.history,
                old(db)@.current_scan_id,
                ip_host_id(old(db)@.hosts, old(self).ip@),
            ).id,
            forall|i: int|
                old(db)@.routing.len() <= i < final(db)@.routing.len() ==> {
                    &&& (#[trigger] final(db)@.routing[i]).scan == old(db)@.current_scan_id
                    &&& final(db)@.routing[i].left == final(self).db_hist_id
                    &&& final(db)@.routing[i].right != final(self).db_hist_id
                },
            forall|j: int|
                0 <= j < old(self).hops@.len() && (#[trigger] old(self).hops@[j])@ != old(self).ip@
                    ==> hop_recorded(
                    final(db)@,
                    old(db)@.current_scan_id,
                    final(self).db_hist_id,
                    old(self).hops@[j]@,
                ),
            !host_ip_exists(old(db)@.hosts, old(self).ip@) ==> ({
                let row = final(db)@.hosts[old(db)@.hosts.len() as int];
                &&& row.ip@ == old(self).ip@
                &&& row.network@ == old(self).network@
                &&& row.comment@ == "First seen on "@ + now_text@
                &&& row.id == final(self).db_id
            }),
    {
        let ghost pre = db@;
        let scan_id = db.current_scan_id;
        // resolve the host identity by address
        let host_id = match store::Host::load_by_ip(db, self.ip.as_str()) {
            Some(h) => h.id,
            None => self.create_host(db, self.ip.as_str(), now_text),
        };
        self.db_id = host_id;
        proof {
            if host_ip_exists(pre.hosts, self.ip@) {
                let i = choose|i: int| 0 <= i < pre.hosts.len() && pre.hosts[i].ip@ == self.ip@;
                assert(pre.hosts[i].id == host_id);
                assert(host_id == ip_host_id(db@.hosts, self.ip@));
                lemma_prefix_refl(pre.hosts);
            } else {
                let i = choose|i: int| 0 <= i < db@.hosts.len() && db@.hosts[i].ip@ == self.ip@;
                assert(db@.hosts.last().ip@ == self.ip@);
                assert(i == db@.hosts.len() - 1);
                assert(host_id == ip_host_id(db@.hosts, self.ip@));
                lemma_prefix_refl(pre.hosts);
                lemma_prefix_push(pre.hosts, pre.hosts, db@.hosts.last());
            }
            assert(host_exists(db@.hosts, host_id));
            assert(host_id >= 1);
        }
        // resolve the observation for (scan, host)
        let ghost mid = db@;
        let hist_id: i64;
        match store::HostHistory::load_from_scan_and_host(db, scan_id, self.ip.as_str()) {
            Some(h) => {
                hist_id = h.id;
                proof {
                    lemma_prefix_refl(mid.history);
                    crate::temporal::lemma_hist_pair_of(db@.history, scan_id, host_id);
                    crate::temporal::lemma_hist_pair_unique(
                        db@.history,
                        scan_id,
                        host_id,
                        crate::temporal::hist_pair_of(db@.history, scan_id, host_id),
                        h,
                    );
                    assert(exists|i: int| 0 <= i < db@.history.len() && db@.history[i] == h);
                    assert(hist_exists(db@.history, hist_id));
                }
            },
            None => {
                proof {
                    assert(!hist_pair_exists(db@.history, scan_id, host_id));
                }
                hist_id = self.create_host_hist(db, host_id);
                proof {
                    lemma_prefix_refl(mid.history);
                    lemma_prefix_push(mid.history, mid.history, db@.history.last());
                    assert(hist_pair_exists(db@.history, scan_id, host_id)) by {
                        assert(db@.history[db@.history.len() - 1] == db@.history.last());
                    }
                    crate::temporal::lemma_hist_pair_of(db@.history, scan_id, host_id);
                    assert(db@.history.contains(db@.history.last()));
                    crate::temporal::lemma_hist_pair_unique(
                        db@.history,
                        scan_id,
                        host_id,
                        crate::temporal::hist_pair_of(db@.history, scan_id, host_id),
                        db@.history.last(),
                    );
                    assert(hist_exists(db@.history, hist_id)) by {
                        assert(db@.history[db@.history.len() - 1].id == hist_id);
                    }
                }
            },
        };
        self.db_hist_id = hist_id;
        proof {
            assert(hist_id >= 1);
        }
        // snapshot one routing edge per hop, skipping the target itself
        let ghost base = db@;
        let mut k: usize = 0;
        while k < self.hops.len()
            invariant
                db.wf(),
                0 <= k <= self.hops@.len(),
                db@.current_scan_id == scan_id,
                scan_exists(db@.scans, scan_id),
                db@ == (StoreV { hosts: db@.hosts, history: db@.history, routing: db@.routing, ..base }),
                base.hosts.is_prefix_of(db@.hosts),
                base.history.is_prefix_of(db@.history),
                base.routing == db@.routing || base.routing.is_prefix_of(db@.routing),
                db@.hosts.len() <= base.hosts.len() + k,
                db@.history.len() <= base.history.len() + k,
                base.hosts.len() <= old(db)@.hosts.len() + 1,
                base.history.len() <= old(db)@.history.len() + 1,
                old(db)@.hosts.len() + old(self).hops@.len() < 0x7fff_ffff_ffff_fffe,
                old(db)@.history.len() + old(self).hops@.len() < 0x7fff_ffff_ffff_fffe,
                self.hops@.len() == old(self).hops@.len(),
                self.db_hist_id == hist_id,
                self.db_id == host_id,
                *self == (Host { db_id: host_id, db_hist_id: hist_id, ..*old(self) }),
                hist_exists(db@.history, hist_id),
                host_ip_exists(db@.hosts, old(self).ip@),
                host_id == ip_host_id(db@.hosts, old(self).ip@),
                hist_pair_exists(db@.history, scan_id, host_id),
                crate::temporal::hist_pair_of(db@.history, scan_id, host_id).id == hist_id,
                forall|i: int|
                    base.routing.len() <= i < db@.routing.len() ==> {
                        &&& (#[trigger] db@.routing[i]).scan == scan_id
                        &&& db@.routing[i].left == hist_id
                        &&& db@.routing[i].right != hist_id
                    },
                forall|j: int|
                    0 <= j < k && (#[trigger] old(self).hops@[j])@ != old(self).ip@ ==> hop_recorded(
                        db@,
                        scan_id,
                        hist_id,
                        old(self).hops@[j]@,
                    ),
            decreases self.hops@.len() - k,
        {
            let ghost step_pre = db@;
            let hop = self.hops[k].clone();
            if !str_eq(hop.as_str(), self.ip.as_str()) {
                let hop_hist = match store::HostHistory::load_from_scan_and_host(db, scan_id, hop.as_str()) {
                    Some(h) => {
                        proof {
                            let hop_owner = ip_host_id(db@.hosts, hop@);
                            crate::temporal::lemma_hist_pair_of(db@.history, scan_id, hop_owner);
                            assert(exists|i: int| 0 <= i < db@.history.len() && db@.history[i] == h);
                            crate::temporal::lemma_hist_pair_unique(
                                db@.history,
                                scan_id,
                                hop_owner,
                                crate::temporal::hist_pair_of(db@.history, scan_id, hop_owner),
                                h,
                            );
                            lemma_prefix_refl(step_pre.hosts);
                            lemma_prefix_refl(step_pre.history);
                        }
                        h.id
                    },
                    None => {
                        let hop_host = match store::Host::load_by_ip(db, hop.as_str()) {
                            Some(h) => {
                                proof {
                                    let i = choose|i: int|
                                        0 <= i < db@.hosts.len() && h == (store::Host {
                                            hist_id: 0,
                                            os: h.os,
                                            ..#[trigger] db@.hosts[i]
                                        }) && h.os@ == Seq::<char>::empty();
                                    let w = choose|i: int|
                                        0 <= i < db@.hosts.len() && db@.hosts[i].ip@ == hop@;
                                    assert(db@.hosts[i].ip@ == hop@);
                                    assert(i == w);
                                    assert(h.id == ip_host_id(db@.hosts, hop@));
                                    lemma_prefix_refl(step_pre.hosts);
                                }
                                h.id
                            },
                            None => {
                                let fresh = self.create_host(db, hop.as_str(), now_text);
                                proof {
                                    assert forall|i: int|
                                        0 <= i < db@.history.len() implies (#[trigger] db@.history[i]).host_id
                                        != fresh by {
                                        assert(host_exists(step_pre.hosts, db@.history[i].host_id));
                                    }
                                    lemma_prefix_push(base.hosts, step_pre.hosts, db@.hosts.last());
                                    lemma_prefix_refl(step_pre.hosts);
                                    lemma_prefix_push(step_pre.hosts, step_pre.hosts, db@.hosts.last());
                                    let w = choose|i: int|
                                        0 <= i < db@.hosts.len() && db@.hosts[i].ip@ == hop@;
                                    assert(db@.hosts.last().ip@ == hop@);
                                    assert(w == db@.hosts.len() - 1);
                                    assert(fresh == ip_host_id(db@.hosts, hop@));
                                }
                                fresh
                            },
                        };
                        proof {
                            assert(!hist_pair_exists(db@.history, scan_id, hop_host));
                            assert(host_exists(db@.hosts, hop_host));
                            assert(host_ip_exists(db@.hosts, hop@));
                            assert(hop_host == ip_host_id(db@.hosts, hop@));
                        }
                        let created = self.create_host_hist(db, hop_host);
                        proof {
                            lemma_prefix_push(base.history, step_pre.history, db@.history.last());
                            lemma_prefix_refl(step_pre.history);
                            lemma_prefix_push(step_pre.history, step_pre.history, db@.history.last());
                            assert(hist_pair_exists(db@.history, scan_id, hop_host)) by {
                                assert(db@.history[db@.history.len() - 1] == db@.history.last());
                            }
                            crate::temporal::lemma_hist_pair_of(db@.history, scan_id, hop_host);
                            assert(db@.history.contains(db@.history.last()));
                            crate::temporal::lemma_hist_pair_unique(
                                db@.history,
                                scan_id,
                                hop_host,
                                crate::temporal::hist_pair_of(db@.history, scan_id, hop_host),
                                db@.history.last(),
                            );
                            assert(crate::temporal::hist_pair_of(db@.history, scan_id, hop_host).id
                                == created);
                            assert(hist_pair_exists(db@.history, scan_id, host_id)) by {
                                let w = choose|i: int|
                                    0 <= i < step_pre.history.len() && (#[trigger] step_pre.history[i]).scan
                                        == scan_id && step_pre.history[i].host_id == host_id;
                                assert(db@.history[w] == step_pre.history[w]);
                            }
                            crate::temporal::lemma_hist_pair_of(step_pre.history, scan_id, host_id);
                            crate::temporal::lemma_hist_pair_of(db@.history, scan_id, host_id);
                            let h0 = crate::temporal::hist_pair_of(step_pre.history, scan_id, host_id);
                            let h1 = crate::temporal::hist_pair_of(db@.history, scan_id, host_id);
                            let i0 = choose|i: int| 0 <= i < step_pre.history.len() && step_pre.history[i] == h0;
                            assert(db@.history[i0] == step_pre.history[i0]);
                            assert(db@.history.contains(db@.history[i0]));
                            crate::temporal::lemma_hist_pair_unique(db@.history, scan_id, host_id, h1, h0);
                            assert(h1.id == hist_id);
                        }
                        created
                    },
                };
                if hop_hist != self.db_hist_id {
                    let mut edge = store::Routing {
                        scan: scan_id,
                        left: self.db_hist_id,
                        right: hop_hist,
                        comment: String::new(),
                    };
                    let _res = edge.save(db);
                    proof {
                        if base.routing == step_pre.routing {
                            lemma_prefix_refl(base.routing);
                        }
                        lemma_prefix_push(base.routing, step_pre.routing, db@.routing.last());
                        lemma_prefix_refl(step_pre.routing);
                        lemma_prefix_push(step_pre.routing, step_pre.routing, db@.routing.last());
                    }
                }
            }
            proof {
                if base.hosts == db@.hosts {
                    lemma_prefix_refl(base.hosts);
                }
                if base.history == db@.history {
                    lemma_prefix_refl(base.history);
                }
                if step_pre.hosts == db@.hosts {
                    lemma_prefix_refl(step_pre.hosts);
                }
                if step_pre.history == db@.history {
                    lemma_prefix_refl(step_pre.history);
                }
                if step_pre.routing == db@.routing {
                    lemma_prefix_refl(step_pre.routing);
                }
                assert(hop@ == old(self).hops@[k as int]@);
                assert forall|j: int|
                    0 <= j < k + 1 && (#[trigger] old(self).hops@[j])@ != old(self).ip@ implies hop_recorded(
                    db@,
                    scan_id,
                    hist_id,
                    old(self).hops@[j]@,
                ) by {
                    if j < k {
                        lemma_hop_recorded_stable(step_pre, db@, scan_id, hist_id, old(self).hops@[j]@);
                    }
                }
            }
            k += 1;
        }
        proof {
            assert(pre.hosts.is_prefix_of(db@.hosts)) by {
                assert(db@.hosts.subrange(0, pre.hosts.len() as int) =~= base.hosts.subrange(
                    0,
                    pre.hosts.len() as int,
                ));
            }
            assert(pre.history.is_prefix_of(db@.history)) by {
                assert(db@.history.subrange(0, pre.history.len() as int) =~= base.history.subrange(
                    0,
                    pre.history.len() as int,
                ));
            }
            if base.routing == db@.routing {
                lemma_prefix_refl(base.routing);
            }
            if host_ip_exists(pre.hosts, old(self).ip@) && hist_pair_exists(
                pre.history,
                scan_id,
                ip_host_id(pre.hosts, old(self).ip@),
            ) {
                assert(ip_host_id(pre.hosts, old(self).ip@) == host_id);
                crate::temporal::lemma_hist_pair_of(pre.history, scan_id, host_id);
                let h0 = crate::temporal::hist_pair_of(pre.history, scan_id, host_id);
                let i0 = choose|i: int| 0 <= i < pre.history.len() && pre.history[i] == h0;
                assert(db@.history.subrange(0, pre.history.len() as int)[i0] == pre.history[i0]);
                assert(db@.history[i0] == h0);
                assert(db@.history.contains(db@.history[i0]));
                crate::temporal::lemma_hist_pair_of(db@.history, scan_id, host_id);
                crate::temporal::lemma_hist_pair_unique(
                    db@.history,
                    scan_id,
                    host_id,
                    crate::temporal::hist_pair_of(db@.history, scan_id, host_id),
                    h0,
                );
            }
        }
    }
}


/// The stored text of an optional probe string: the value, or empty.
pub open spec fn opt_str(o: Option<String>) -> Seq<char> {
    match o {
        Some(s) => s@,
        None => Seq::<char>::empty(),
    }
}

/// The port row one observed service yields on one observation.
pub open spec fn is_port_row(p: store::Port, hist_id: i64, s: Service) -> bool {
    &&& p.host_history_id == hist_id
    &&& p.port == s.port as i32
    &&& p.protocol@ == protocol_text(s.protocol)
    &&& p.state@ == state_text(s.state)
    &&& p.service@ == s.name@ + " "@ + s.version@
    &&& p.product@ == s.product@
    &&& p.comment@ == Seq::<char>::empty()
}

/// The CVE row one vulnerability candidate yields on one observed service.
pub open spec fn is_cve_row(c: store::Cve, hist_id: i64, scan: i64, port: u16, v: Vulnerability) -> bool {
    &&& c.host_history_id == hist_id
    &&& c.scan == scan
    &&& c.port == port as i32
    &&& c.database@ == v.database@
    &&& c.type_id@ == v.id@
    &&& c.cvss == v.cvss
    &&& c.is_exploit@ == (if v.exploit {
        "true"@
    } else {
        "false"@
    })
    &&& c.comment@ == Seq::<char>::empty()
}

/// How many vulnerability candidates a service listing carries in all.
pub open spec fn total_vulns(services: Seq<Service>) -> nat
    decreases services.len(),
{
    if services.len() == 0 {
        0
    } else {
        total_vulns(services.drop_last()) + services.last().vulns@.len()
    }
}

proof fn lemma_total_vulns_step(services: Seq<Service>, i: int)
    requires
        0 <= i < services.len(),
    ensures
        total_vulns(services.subrange(0, i + 1)) == total_vulns(services.subrange(0, i))
            + services[i].vulns@.len(),
{
    assert(services.subrange(0, i + 1).drop_last() =~= services.subrange(0, i));
    assert(services.subrange(0, i + 1).last() == services[i]);
}

impl Host {
    /// Overwrites the stored `os` snapshot of this draft's observation with
    /// the draft's current observation (a draft without a saved observation
    /// changes nothing).
    pub fn update_host_information(&self, db: &mut Store)
        requires
            old(db).wf(),
            old(db)@.history.len() < 0x7fff_ffff_ffff_ffff,
        ensures
            final(db).wf(),
            final(db)@ == (StoreV { history: final(db)@.history, ..old(db)@ }),
            self.db_hist_id <= 0 ==> final(db)@ == old(db)@,
            self.db_hist_id > 0 && hist_exists(old(db)@.history, self.db_hist_id) ==> exists|i: int|
                0 <= i < old(db)@.history.len() && (#[trigger] old(db)@.history[i]).id == self.db_hist_id
                    && final(db)@.history == old(db)@.history.update(
                    i,
                    (store::HostHistory { os: final(db)@.history[i].os, ..old(db)@.history[i] }),
                ) && final(db)@.history[i].os@ == draft_os(self.os),
            self.db_hist_id > 0 && !hist_exists(old(db)@.history, self.db_hist_id) ==> final(db)@ == old(db)@,
    {
        if self.db_hist_id > 0 {
            match store::HostHistory::load(db, self.db_hist_id) {
                Some(hist) => {
                    let os = match &self.os {
                        Some(s) => s.clone(),
                        None => String::from_str("Unknown"),
                    };
                    let mut row = store::HostHistory { id: hist.id, host_id: hist.host_id, os, scan: hist.scan };
                    let _res = row.save(db);
                    proof {
                        let i = choose|i: int|
                            0 <= i < old(db)@.history.len() && (#[trigger] old(db)@.history[i]).id
                                == self.db_hist_id && db@.history == old(db)@.history.update(
                                i,
                                (store::HostHistory { os: row.os, ..old(db)@.history[i] }),
                            );
                        assert(db@.history[i].os@ == draft_os(self.os));
                        assert(db@.history =~= old(db)@.history.update(
                            i,
                            (store::HostHistory { os: db@.history[i].os, ..old(db)@.history[i] }),
                        ));
                    }
                },
                None => {
                    proof {
                        assert(db@ =~= old(db)@);
                    }
                },
            }
        } else {
            proof {
                assert(db@ =~= old(db)@);
            }
        }
    }

    /// Persists the observed services and their vulnerability candidates on
    /// this draft's observation: one port row per service, one CVE row per
    /// candidate, grouped by service in order, all under the store's current
    /// scan id (a draft without a saved observation changes nothing).
    pub fn save_services_to_db(&self, db: &mut Store)
        requires
            old(db).wf(),
            self.db_hist_id > 0 ==> hist_exists(old(db)@.history, self.db_hist_id),
        ensures
            final(db).wf(),
            final(db)@ == (StoreV { ports: final(db)@.ports, cves: final(db)@.cves, ..old(db)@ }),
            old(db)@.ports.is_prefix_of(final(db)@.ports),
            old(db)@.cves.is_prefix_of(final(db)@.cves),
            self.db_hist_id <= 0 ==> final(db)@ == old(db)@,
            self.db_hist_id > 0 ==> {
                &&& final(db)@.ports.len() == old(db)@.ports.len() + self.services@.len()
                &&& forall|i: int|
                    0 <= i < self.services@.len() ==> is_port_row(
                        #[trigger] final(db)@.ports[old(db)@.ports.len() + i],
                        self.db_hist_id,
                        self.services@[i],
                    )
                &&& final(db)@.cves.len() == old(db)@.cves.len() + total_vulns(self.services@)
                &&& forall|si: int, vj: int|
                    #![trigger self.services@[si].vulns@[vj]]
                    0 <= si < self.services@.len() && 0 <= vj < self.services@[si].vulns@.len()
                        ==> is_cve_row(
                        final(db)@.cves[old(db)@.cves.len() + total_vulns(self.services@.subrange(0, si))
                            + vj],
                        self.db_hist_id,
                        old(db)@.current_scan_id,
                        self.services@[si].port,
                        self.services@[si].vulns@[vj],
                    )
            },
    {
        if self.db_hist_id <= 0 {
            proof {
                assert(db@ =~= old(db)@);
            }
            return;
        }
        let scan_id = db.current_scan_id;
        let hist_id = self.db_hist_id;
        let mut k: usize = 0;
        while k < self.services.len()
            invariant
                db.wf(),
                0 <= k <= self.services@.len(),
                hist_id == self.db_hist_id,
                hist_id > 0,
                hist_exists(db@.history, hist_id),
                scan_id == db@.current_scan_id,
                db@ == (StoreV { ports: db@.ports, cves: db@.cves, ..old(db)@ }),
                old(db)@.ports.is_prefix_of(db@.ports),
                old(db)@.cves.is_prefix_of(db@.cves),
                db@.ports.len() == old(db)@.ports.len() + k,
                forall|i: int|
                    0 <= i < k ==> is_port_row(
                        #[trigger] db@.ports[old(db)@.ports.len() + i],
                        hist_id,
                        self.services@[i],
                    ),
                db@.cves.len() == old(db)@.cves.len() + total_vulns(self.services@.subrange(0, k as int)),
                forall|si: int, vj: int|
                    #![trigger self.services@[si].vulns@[vj]]
                    0 <= si < k && 0 <= vj < self.services@[si].vulns@.len() ==> is_cve_row(
                        db@.cves[old(db)@.cves.len() + total_vulns(self.services@.subrange(0, si)) + vj],
                        hist_id,
                        scan_id,
                        self.services@[si].port,
                        self.services@[si].vulns@[vj],
                    ),
            decreases self.services@.len() - k,
        {
            let ghost step_pre = db@;
            let service = &self.services[k];
            let mut port = store::Port {
                host_history_id: hist_id,
                port: service.port as i32,
                protocol: service.protocol.to_text(),
                state: service.state.to_text(),
                service: service.name.clone().concat(" ").concat(service.version.as_str()),
                product: service.product.clone(),
                comment: String::new(),
            };
            let _res = port.save(db);
            proof {
                lemma_prefix_push(old(db)@.ports, step_pre.ports, db@.ports.last());
                assert(is_port_row(db@.ports[old(db)@.ports.len() + k], hist_id, self.services@[k as int]));
            }
            let ghost cve_base = db@.cves;
            let mut t: usize = 0;
            while t < service.vulns.len()
                invariant
                    db.wf(),
                    0 <= k < self.services@.len(),
                    0 <= t <= service.vulns@.len(),
                    service == &self.services[k as int],
                    hist_id == self.db_hist_id,
                    hist_id > 0,
                    hist_exists(db@.history, hist_id),
                    scan_id == db@.current_scan_id,
                    db@ == (StoreV { cves: db@.cves, ..(StoreV { ports: db@.ports, ..step_pre }) }),
                    db@.ports == step_pre.ports.push(db@.ports.last()),
                    is_port_row(db@.ports[db@.ports.len() - 1], hist_id, self.services@[k as int]),
                    cve_base == step_pre.cves,
                    cve_base.is_prefix_of(db@.cves),
                    db@.cves.len() == cve_base.len() + t,
                    forall|vj: int|
                        0 <= vj < t ==> is_cve_row(
                            #[trigger] db@.cves[cve_base.len() + vj],
                            hist_id,
                            scan_id,
                            self.services@[k as int].port,
                            self.services@[k as int].vulns@[vj],
                        ),
                decreases service.vulns@.len() - t,
            {
                let ghost cve_pre = db@.cves;
                let vuln = &service.vulns[t];
                let mut cve = store::Cve {
                    host_history_id: hist_id,
                    port: service.port as i32,
                    database: vuln.database.clone(),
                    type_id: vuln.id.clone(),
                    cvss: vuln.cvss,
                    is_exploit: if vuln.exploit {
                        String::from_str("true")
                    } else {
                        String::from_str("false")
                    },
                    scan: scan_id,
                    comment: String::new(),
                };
                let _res = cve.save(db);
                proof {
                    lemma_prefix_push(cve_base, cve_pre, db@.cves.last());
                    assert(is_cve_row(
                        db@.cves[cve_base.len() + t],
                        hist_id,
                        scan_id,
                        self.services@[k as int].port,
                        self.services@[k as int].vulns@[t as int],
                    ));
                }
                t += 1;
            }
            proof {
                lemma_total_vulns_step(self.services@, k as int);
                assert(old(db)@.cves.is_prefix_of(db@.cves)) by {
                    assert(db@.cves.subrange(0, old(db)@.cves.len() as int) =~= cve_base.subrange(
                        0,
                        old(db)@.cves.len() as int,
                    ));
                }
                assert forall|si: int, vj: int|
                    #![trigger self.services@[si].vulns@[vj]]
                    0 <= si < k + 1 && 0 <= vj < self.services@[si].vulns@.len() implies is_cve_row(
                    db@.cves[old(db)@.cves.len() + total_vulns(self.services@.subrange(0, si)) + vj],
                    hist_id,
                    scan_id,
                    self.services@[si].port,
                    self.services@[si].vulns@[vj],
                ) by {
                    lemma_total_vulns_mono(self.services@, si, k as int);
                    if si < k {
                        let idx = old(db)@.cves.len() + total_vulns(self.services@.subrange(0, si)) + vj;
                        lemma_total_vulns_step(self.services@, si);
                        lemma_total_vulns_mono(self.services@, si + 1, k as int);
                        assert(idx < cve_base.len());
                        assert(db@.cves.subrange(0, cve_base.len() as int)[idx] == cve_base[idx]);
                        assert(db@.cves[idx] == step_pre.cves[idx]);
                    } else {
                        assert(total_vulns(self.services@.subrange(0, si)) == cve_base.len()
                            - old(db)@.cves.len());
                    }
                }
                assert forall|i: int| 0 <= i < k + 1 implies is_port_row(
                    #[trigger] db@.ports[old(db)@.ports.len() + i],
                    hist_id,
                    self.services@[i],
                ) by {
                    if i < k {
                        assert(db@.ports[old(db)@.ports.len() + i] == step_pre.ports[old(db)@.ports.len()
                            + i]);
                    }
                }
            }
            k += 1;
        }
        proof {
            assert(self.services@.subrange(0, self.services@.len() as int) =~= self.services@);
        }
    }
}

/// A longer prefix of a service listing carries at least as many
/// vulnerability candidates.
proof fn lemma_total_vulns_mono(services: Seq<Service>, i: int, j: int)
    requires
        0 <= i <= j <= services.len(),
    ensures
        total_vulns(services.subrange(0, i)) <= total_vulns(services.subrange(0, j)),
    decreases j - i,
{
    if i < j {
        lemma_total_vulns_step(services, j - 1);
        lemma_total_vulns_mono(services, i, j - 1);
    }
}


/// The stored share row one probed share yields on one windows row.
pub open spec fn is_share_row(r: store::WindowsShare, win_id: i64, s: WindowsShare) -> bool {
    &&& r.windows_id == win_id
    &&& r.name@ == opt_str(s.name)
    &&& r.comment@ == opt_str(s.comment)
    &&& r.share_type@ == opt_str(s.share_type)
}

/// The stored printer row one probed printer yields on one windows row.
pub open spec fn is_printer_row(r: store::WindowsPrinter, win_id: i64, p: WindowsPrinter) -> bool {
    &&& r.windows_id == win_id
    &&& r.uri@ == opt_str(p.uri)
    &&& r.comment@ == opt_str(p.comment)
    &&& r.description@ == opt_str(p.description)
    &&& r.flags@ == opt_str(p.flags)
}

/// An optional probe string made storable: the value or the empty string.
fn opt_text(o: &Option<String>) -> (r: String)
    ensures
        r@ == opt_str(*o),
{
    match o {
        Some(s) => s.clone(),
        None => String::new(),
    }
}

impl Host {
    /// Persists the SMB enumeration of this draft, when there is one: the
    /// umbrella row under the current scan, at most one information and one
    /// domain row, and one row per share and printer (a draft without SMB
    /// data or without a saved observation changes nothing).
    pub fn save_windows_information(&self, db: &mut Store)
        requires
            old(db).wf(),
            old(db)@.windows.len() < 0x7fff_ffff_ffff_ffff,
            self.db_hist_id > 0 ==> hist_exists(old(db)@.history, self.db_hist_id),
        ensures
            final(db).wf(),
            final(db)@ == (StoreV {
                windows: final(db)@.windows,
                windows_info: final(db)@.windows_info,
                windows_domain: final(db)@.windows_domain,
                windows_share: final(db)@.windows_share,
                windows_printer: final(db)@.windows_printer,
                ..old(db)@
            }),
            self.db_hist_id <= 0 || (self.windows is None) ==> final(db)@ == old(db)@,
            self.db_hist_id > 0 && (self.windows is Some) ==> ({
                let w = self.windows->0;
                &&& final(db)@.windows == old(db)@.windows.push(final(db)@.windows.last())
                &&& final(db)@.windows.last().scan == old(db)@.current_scan_id
                &&& final(db)@.windows.last().hist_id == self.db_hist_id
                &&& final(db)@.windows.last().id >= 1
                &&& (w.info is Some ==> final(db)@.windows_info == old(db)@.windows_info.push(
                    final(db)@.windows_info.last(),
                ) && ({
                    let info = w.info->0;
                    let r = final(db)@.windows_info.last();
                    &&& r.windows_id == final(db)@.windows.last().id
                    &&& r.native_lan_manager@ == opt_str(info.native_lan_manager)
                    &&& r.native_os@ == opt_str(info.native_os)
                    &&& r.os_name@ == opt_str(info.os_name)
                    &&& r.os_build@ == opt_str(info.os_build)
                    &&& r.os_release@ == opt_str(info.os_release)
                    &&& r.os_version@ == opt_str(info.os_version)
                    &&& r.platform@ == opt_str(info.platform)
                    &&& r.server_type@ == opt_str(info.server_type)
                    &&& r.server_string@ == opt_str(info.server_string)
                }))
                &&& (w.info is None ==> final(db)@.windows_info == old(db)@.windows_info)
                &&& (w.domain is Some ==> final(db)@.windows_domain == old(db)@.windows_domain.push(
                    final(db)@.windows_domain.last(),
                ) && ({
                    let d = w.domain->0;
                    let r = final(db)@.windows_domain.last();
                    &&& r.windows_id == final(db)@.windows.last().id
                    &&& r.domain@ == opt_str(d.domain)
                    &&& r.dns_domain@ == opt_str(d.dns_domain)
                    &&& r.derived_domain@ == opt_str(d.derived_domain)
                    &&& r.derived_membership@ == opt_str(d.derived_membership)
                    &&& r.fqdn@ == opt_str(d.fqdn)
                    &&& r.netbios_name@ == opt_str(d.netbios_name)
                    &&& r.netbios_domain@ == opt_str(d.netbios_domain)
                }))
                &&& (w.domain is None ==> final(db)@.windows_domain == old(db)@.windows_domain)
                &&& final(db)@.windows_share.len() == old(db)@.windows_share.len() + w.shares@.len()
                &&& forall|i: int|
                    0 <= i < w.shares@.len() ==> is_share_row(
                        #[trigger] final(db)@.windows_share[old(db)@.windows_share.len() + i],
                        final(db)@.windows.last().id,
                        w.shares@[i],
                    )
                &&& final(db)@.windows_printer.len() == old(db)@.windows_printer.len() + w.printers@.len()
                &&& forall|i: int|
                    0 <= i < w.printers@.len() ==> is_printer_row(
                        #[trigger] final(db)@.windows_printer[old(db)@.windows_printer.len() + i],
                        final(db)@.windows.last().id,
                        w.printers@[i],
                    )
            }),
    {
        if self.db_hist_id <= 0 {
            proof {
                assert(db@ =~= old(db)@);
            }
            return;
        }
        let windows = match &self.windows {
            Some(w) => w,
            None => {
                proof {
                    assert(db@ =~= old(db)@);
                }
                return;
            },
        };
        let mut win = store::Windows { id: 0, scan: db.current_scan_id, hist_id: self.db_hist_id };
        let _res = win.save(db);
        let win_id = win.id;
        let ghost after_win = db@;
        proof {
            assert(windows_exists(db@.windows, win_id)) by {
                assert(db@.windows[db@.windows.len() - 1].id == win_id);
            }
        }
        if let Some(info) = &windows.info {
            let row = store::WindowsInfo {
                windows_id: win_id,
                native_lan_manager: opt_text(&info.native_lan_manager),
                native_os: opt_text(&info.native_os),
                os_name: opt_text(&info.os_name),
                os_build: opt_text(&info.os_build),
                os_release: opt_text(&info.os_release),
                os_version: opt_text(&info.os_version),
                platform: opt_text(&info.platform),
                server_type: opt_text(&info.server_type),
                server_string: opt_text(&info.server_string),
            };
            let _res = row.save(db);
        }
        let ghost after_info = db@;
        if let Some(domain) = &windows.domain {
            let row = store::WindowsDomain {
                windows_id: win_id,
                domain: opt_text(&domain.domain),
                dns_domain: opt_text(&domain.dns_domain),
                derived_domain: opt_text(&domain.derived_domain),
                derived_membership: opt_text(&domain.derived_membership),
                fqdn: opt_text(&domain.fqdn),
                netbios_name: opt_text(&domain.netbios_name),
                netbios_domain: opt_text(&domain.netbios_domain),
            };
            let _res = row.save(db);
        }
        let ghost after_domain = db@;
        let mut k: usize = 0;
        while k < windows.shares.len()
            invariant
                db.wf(),
                0 <= k <= windows.shares@.len(),
                windows_exists(db@.windows, win_id),
                db@ == (StoreV { windows_share: db@.windows_share, ..after_domain }),
                db@.windows_share.len() == after_domain.windows_share.len() + k,
                after_domain.windows_share.is_prefix_of(db@.windows_share),
                forall|i: int|
                    0 <= i < k ==> is_share_row(
                        #[trigger] db@.windows_share[after_domain.windows_share.len() + i],
                        win_id,
                        windows.shares@[i],
                    ),
            decreases windows.shares@.len() - k,
        {
            let ghost pre = db@.windows_share;
            let share = &windows.shares[k];
            let row = store::WindowsShare {
                windows_id: win_id,
                name: opt_text(&share.name),
                comment: opt_text(&share.comment),
                share_type: opt_text(&share.share_type),
            };
            let _res = row.save(db);
            proof {
                lemma_prefix_push(after_domain.windows_share, pre, db@.windows_share.last());
                assert(is_share_row(
                    db@.windows_share[after_domain.windows_share.len() + k],
                    win_id,
                    windows.shares@[k as int],
                ));
                assert forall|i: int| 0 <= i < k + 1 implies is_share_row(
                    #[trigger] db@.windows_share[after_domain.windows_share.len() + i],
                    win_id,
                    windows.shares@[i],
                ) by {
                    if i < k {
                        assert(db@.windows_share[after_domain.windows_share.len() + i]
                            == pre[after_domain.windows_share.len() + i]);
                    }
                }
            }
            k += 1;
        }
        let ghost after_share = db@;
        let mut k2: usize = 0;
        while k2 < windows.printers.len()
            invariant
                db.wf(),
                0 <= k2 <= windows.printers@.len(),
                windows_exists(db@.windows, win_id),
                db@ == (StoreV { windows_printer: db@.windows_printer, ..after_share }),
                db@.windows_printer.len() == after_share.windows_printer.len() + k2,
                after_share.windows_printer.is_prefix_of(db@.windows_printer),
                forall|i: int|
                    0 <= i < k2 ==> is_printer_row(
                        #[trigger] db@.windows_printer[after_share.windows_printer.len() + i],
                        win_id,
                        windows.printers@[i],
                    ),
            decreases windows.printers@.len() - k2,
        {
            let ghost pre = db@.windows_printer;
            let printer = &windows.printers[k2];
            let row = store::WindowsPrinter {
                windows_id: win_id,
                uri: opt_text(&printer.uri),
                comment: opt_text(&printer.comment),
                description: opt_text(&printer.description),
                flags: opt_text(&printer.flags),
            };
            let _res = row.save(db);
            proof {
                lemma_prefix_push(after_share.windows_printer, pre, db@.windows_printer.last());
                assert(is_printer_row(
                    db@.windows_printer[after_share.windows_printer.len() + k2],
                    win_id,
                    windows.printers@[k2 as int],
                ));
                assert forall|i: int| 0 <= i < k2 + 1 implies is_printer_row(
                    #[trigger] db@.windows_printer[after_share.windows_printer.len() + i],
                    win_id,
                    windows.printers@[i],
                ) by {
                    if i < k2 {
                        assert(db@.windows_printer[after_share.windows_printer.len() + i]
                            == pre[after_share.windows_printer.len() + i]);
                    }
                }
            }
            k2 += 1;
        }
        proof {
            lemma_prefix_refl(after_domain.windows_share);
            lemma_prefix_refl(after_share.windows_printer);
        }
    }
}


/// Two services carry the same observation (their vulnerability listings
/// compared by value).
pub open spec fn service_eqv(a: Service, b: Service) -> bool {
    &&& a.port == b.port
    &&& a.protocol == b.protocol
    &&& a.state == b.state
    &&& a.name == b.name
    &&& a.product == b.product
    &&& a.version == b.version
    &&& a.vulns@ == b.vulns@
}

/// Two shares carry the same data (their access listings compared by
/// value).
pub open spec fn share_eqv(a: WindowsShare, b: WindowsShare) -> bool {
    &&& a.name == b.name
    &&& a.comment == b.comment
    &&& a.share_type == b.share_type
    &&& a.access@ == b.access@
}

/// Two SMB data sets carry the same observations.
pub open spec fn windows_eqv(a: Windows, b: Windows) -> bool {
    &&& a.info == b.info
    &&& a.domain == b.domain
    &&& a.shares@.len() == b.shares@.len()
    &&& (forall|i: int| 0 <= i < a.shares@.len() ==> share_eqv(#[trigger] a.shares@[i], b.shares@[i]))
    &&& a.printers@ == b.printers@
}

/// Two drafts carry the same host (their listings compared by value).
pub open spec fn host_eqv(a: Host, b: Host) -> bool {
    &&& a.network == b.network
    &&& a.ip == b.ip
    &&& a.hops@ == b.hops@
    &&& a.services@.len() == b.services@.len()
    &&& (forall|i: int| 0 <= i < a.services@.len() ==> service_eqv(#[trigger] a.services@[i], b.services@[i]))
    &&& a.os == b.os
    &&& ((a.windows is Some) == (b.windows is Some))
    &&& (a.windows matches Some(w) ==> windows_eqv(w, b.windows->0))
    &&& a.extended_scan == b.extended_scan
    &&& a.db_id == b.db_id
    &&& a.db_hist_id == b.db_hist_id
}

impl Clone for Vulnerability {
    fn clone(&self) -> (r: Self)
        ensures
            r == *self,
    {
        Vulnerability { database: self.database.clone(), id: self.id.clone(), cvss: self.cvss, exploit: self.exploit }
    }
}

impl Clone for Service {
    fn clone(&self) -> (r: Self)
        ensures
            service_eqv(r, *self),
    {
        let mut vulns: Vec<Vulnerability> = Vec::new();
        let mut k: usize = 0;
        while k < self.vulns.len()
            invariant
                0 <= k <= self.vulns@.len(),
                vulns@.len() == k,
                forall|i: int| 0 <= i < k ==> vulns@[i] == self.vulns@[i],
            decreases self.vulns@.len() - k,
        {
            vulns.push(self.vulns[k].clone());
            k += 1;
        }
        proof {
            assert(vulns@ =~= self.vulns@);
        }
        Service {
            port: self.port,
            protocol: self.protocol,
            state: self.state,
            name: self.name.clone(),
            product: self.product.clone(),
            version: self.version.clone(),
            vulns,
        }
    }
}

impl Clone for WindowsInfo {
    fn clone(&self) -> (r: Self)
        ensures
            r == *self,
    {
        WindowsInfo {
            native_lan_manager: self.native_lan_manager.clone(),
            native_os: self.native_os.clone(),
            os_name: self.os_name.clone(),
            os_build: self.os_build.clone(),
            os_release: self.os_release.clone(),
            os_version: self.os_version.clone(),
            platform: self.platform.clone(),
            server_type: self.server_type.clone(),
            server_string: self.server_string.clone(),
        }
    }
}

impl Clone for WindowsDomain {
    fn clone(&self) -> (r: Self)
        ensures
            r == *self,
    {
        WindowsDomain {
            domain: self.domain.clone(),
            dns_domain: self.dns_domain.clone(),
            derived_domain: self.derived_domain.clone(),
            derived_membership: self.derived_membership.clone(),
            fqdn: self.fqdn.clone(),
            netbios_name: self.netbios_name.clone(),
            netbios_domain: self.netbios_domain.clone(),
        }
    }
}

impl Clone for WindowsShare {
    fn clone(&self) -> (r: Self)
        ensures
            share_eqv(r, *self),
    {
        let mut access: Vec<(String, String)> = Vec::new();
        let mut k: usize = 0;
        while k < self.access.len()
            invariant
                0 <= k <= self.access@.len(),
                access@.len() == k,
                forall|i: int| 0 <= i < k ==> access@[i] == self.access@[i],
            decreases self.access@.len() - k,
        {
            access.push((self.access[k].0.clone(), self.access[k].1.clone()));
            k += 1;
        }
        proof {
            assert(access@ =~= self.access@);
        }
        WindowsShare {
            name: self.name.clone(),
            comment: self.comment.clone(),
            share_type: self.share_type.clone(),
            access,
        }
    }
}

impl Clone for WindowsPrinter {
    fn clone(&self) -> (r: Self)
        ensures
            r == *self,
    {
        WindowsPrinter {
            uri: self.uri.clone(),
            comment: self.comment.clone(),
            description: self.description.clone(),
            flags: self.flags.clone(),
        }
    }
}

impl Clone for Windows {
    fn clone(&self) -> (r: Self)
        ensures
            windows_eqv(r, *self),
    {
        let info = match &self.info {
            Some(i) => Some(i.clone()),
            None => None,
        };
        let domain = match &self.domain {
            Some(d) => Some(d.clone()),
            None => None,
        };
        let mut shares: Vec<WindowsShare> = Vec::new();
        let mut k: usize = 0;
        while k < self.shares.len()
            invariant
                0 <= k <= self.shares@.len(),
                shares@.len() == k,
                forall|i: int| 0 <= i < k ==> share_eqv(#[trigger] shares@[i], self.shares@[i]),
            decreases self.shares@.len() - k,
        {
            shares.push(self.shares[k].clone());
            k += 1;
        }
        let mut printers: Vec<WindowsPrinter> = Vec::new();
        let mut t: usize = 0;
        while t < self.printers.len()
            invariant
                0 <= t <= self.printers@.len(),
                printers@.len() == t,
                forall|i: int| 0 <= i < t ==> printers@[i] == self.printers@[i],
            decreases self.printers@.len() - t,
        {
            printers.push(self.printers[t].clone());
            t += 1;
        }
        proof {
            assert(printers@ =~= self.printers@);
        }
        Windows { info, domain, shares, printers }
    }
}

impl Clone for Host {
    fn clone(&self) -> (r: Self)
        ensures
            host_eqv(r, *self),
    {
        let mut hops: Vec<String> = Vec::new();
        let mut k: usize = 0;
        while k < self.hops.len()
            invariant
                0 <= k <= self.hops@.len(),
                hops@.len() == k,
                forall|i: int| 0 <= i < k ==> hops@[i] == self.hops@[i],
            decreases self.hops@.len() - k,
        {
            hops.push(self.hops[k].clone());
            k += 1;
        }
        let mut services: Vec<Service> = Vec::new();
        let mut t: usize = 0;
        while t < self.services.len()
            invariant
                0 <= t <= self.services@.len(),
                services@.len() == t,
                forall|i: int| 0 <= i < t ==> service_eqv(#[trigger] services@[i], self.services@[i]),
            decreases self.services@.len() - t,
        {
            services.push(self.services[t].clone());
            t += 1;
        }
        let windows = match &self.windows {
            Some(w) => Some(w.clone()),
            None => None,
        };
        proof {
            assert(hops@ =~= self.hops@);
        }
        Host {
            network: self.network.clone(),
            ip: self.ip.clone(),
            hops,
            services,
            os: match &self.os {
                Some(s) => Some(s.clone()),
                None => None,
            },
            windows,
            extended_scan: self.extended_scan,
            db_id: self.db_id,
            db_hist_id: self.db_hist_id,
        }
    }
}

/// Distributes drafts round-robin across the worker slots, in draft order:
/// the i-th draft lands in slot `i mod W` — two identical draft lists
/// always partition identically.
pub fn chunk_hosts(hosts: &Vec<Host>, num_chunks: u32) -> (r: Vec<Vec<Host>>)
    requires
        num_chunks >= 1,
        hosts@.len() + num_chunks <= usize::MAX,
    ensures
        r@.len() == num_chunks,
        forall|c: int|
            0 <= c < num_chunks ==> (#[trigger] r@[c])@.len() == (if hosts@.len() > c {
                (hosts@.len() - c - 1) / (num_chunks as int) + 1
            } else {
                0int
            }),
        forall|c: int, i: int|
            #![trigger r@[c]@[i]]
            0 <= c < num_chunks && 0 <= i < r@[c]@.len() ==> host_eqv(
                r@[c]@[i],
                hosts@[i * (num_chunks as int) + c],
            ),
{
    let mut out: Vec<Vec<Host>> = Vec::new();
    let mut c: usize = 0;
    let n = num_chunks as usize;
    while c < n
        invariant
            n == num_chunks,
            num_chunks >= 1,
            hosts@.len() + num_chunks <= usize::MAX,
            0 <= c <= n,
            out@.len() == c,
            forall|x: int|
                0 <= x < c ==> (#[trigger] out@[x])@.len() == (if hosts@.len() > x {
                    (hosts@.len() - x - 1) / (num_chunks as int) + 1
                } else {
                    0int
                }),
            forall|x: int, i: int|
                #![trigger out@[x]@[i]]
                0 <= x < c && 0 <= i < out@[x]@.len() ==> host_eqv(
                    out@[x]@[i],
                    hosts@[i * (num_chunks as int) + x],
                ),
        decreases n - c,
    {
        let mut chunk: Vec<Host> = Vec::new();
        let mut idx: usize = c;
        while idx < hosts.len()
            invariant
                n == num_chunks,
                num_chunks >= 1,
                0 <= c < n,
                c <= idx,
                hosts@.len() + n <= usize::MAX,
                idx < hosts@.len() + n,
                idx % n == c % n,
                chunk@.len() == (idx - c) / (num_chunks as int),
                (idx - c) % (num_chunks as int) == 0,
                forall|i: int|
                    #![trigger chunk@[i]]
                    0 <= i < chunk@.len() ==> host_eqv(
                        chunk@[i],
                        hosts@[i * (num_chunks as int) + c],
                    ),
            decreases hosts@.len() + n - idx,
        {
            let ghost chunk_pre = chunk@;
            chunk.push(hosts[idx].clone());
            proof {
                assert(chunk@.len() - 1 == (idx - c) / (num_chunks as int));
                assert((chunk@.len() - 1) * (num_chunks as int) + c == idx) by (nonlinear_arith)
                    requires
                        chunk@.len() - 1 == (idx - c) / (num_chunks as int),
                        (idx - c) % (num_chunks as int) == 0,
                        num_chunks >= 1,
                        c <= idx,
                {
                }
                assert((idx + num_chunks - c) / (num_chunks as int) == (idx - c) / (num_chunks as int) + 1)
                    by (nonlinear_arith)
                    requires
                        num_chunks >= 1,
                        c <= idx,
                        (idx - c) % (num_chunks as int) == 0,
                {
                }
                assert((idx + num_chunks - c) % (num_chunks as int) == 0) by (nonlinear_arith)
                    requires
                        num_chunks >= 1,
                        c <= idx,
                        (idx - c) % (num_chunks as int) == 0,
                {
                }
                assert(host_eqv(
                    chunk@[chunk@.len() - 1],
                    hosts@[(chunk@.len() - 1) * (num_chunks as int) + c],
                ));
                assert((idx as int + num_chunks as int) % (num_chunks as int) == (idx as int) % (num_chunks as int))
                    by (nonlinear_arith)
                    requires
                        num_chunks >= 1,
                        idx >= 0,
                {
                }
                assert forall|i: int| #![trigger chunk@[i]] 0 <= i < chunk@.len() implies host_eqv(
                    chunk@[i],
                    hosts@[i * (num_chunks as int) + c],
                ) by {
                    if i < chunk@.len() - 1 {
                        assert(chunk@[i] == chunk_pre[i]);
                        assert(host_eqv(chunk_pre[i], hosts@[i * (num_chunks as int) + c]));
                    } else {
                        assert(i * (num_chunks as int) + c == (chunk@.len() - 1) * (num_chunks as int)
                            + c);
                    }
                }
            }
            idx = idx + n;
        }
        proof {
            assert(chunk@.len() == (if hosts@.len() > c as int {
                (hosts@.len() - c - 1) / (num_chunks as int) + 1
            } else {
                0int
            })) by (nonlinear_arith)
                requires
                    chunk@.len() == (idx - c) / (num_chunks as int),
                    (idx - c) % (num_chunks as int) == 0,
                    num_chunks >= 1,
                    0 <= c < num_chunks,
                    idx >= hosts@.len(),
                    idx < hosts@.len() + num_chunks,
                    c <= idx,
            {
            }
        }
        out.push(chunk);
        c += 1;
    }
    out
}

} // verus!
