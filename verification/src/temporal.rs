//! The temporal query layer: first-seen, last-seen, last-change,
//! removed-between-scans and gateway queries over the history.

use vstd::prelude::*;
use crate::store::{Scan, Host, HostHistory, Routing, Cve, Store, StoreV, host_exists, host_ip_exists, hist_exists,
    hist_pair_exists};
use crate::entities::{ip_host_id, routing_from_host};
use crate::textutil::str_eq;
use crate::store::{SCAN_END_SENTINEL, WINDOW_START_DEFAULT};
use vstd::multiset::Multiset;

verus! {

/// Some history row observes this host strictly before this scan bound.
pub open spec fn row_below_exists(history: Seq<HostHistory>, host_id: i64, bound: int) -> bool {
    exists|i: int|
        0 <= i < history.len() && (#[trigger] history[i]).host_id == host_id && history[i].scan < bound
}

/// The history row of this host with the greatest scan strictly below the
/// bound (meaningful when one exists; unique because a host is observed at
/// most once per scan).
pub open spec fn max_row_below(history: Seq<HostHistory>, host_id: i64, bound: int) -> HostHistory {
    choose|h: HostHistory|
        history.contains(h) && h.host_id == host_id && h.scan < bound && (forall|i: int|
            0 <= i < history.len() && (#[trigger] history[i]).host_id == host_id && history[i].scan < bound
                ==> history[i].scan <= h.scan)
}

/// The walk behind the last-change query: following observations of one
/// host downward from the bound, the most recent row whose `os` differs
/// from its predecessor's (the next observation below it).  `prev` is the
/// row above the window; when the row below it carries another os, `prev`
/// itself — the newer row of the differing pair — is the answer.
pub open spec fn last_change_spec(
    history: Seq<HostHistory>,
    host_id: i64,
    prev: Option<HostHistory>,
    bound: int,
    fuel: nat,
) -> Option<HostHistory>
    decreases fuel,
{
    if !row_below_exists(history, host_id, bound) {
        None
    } else {
        let h = max_row_below(history, host_id, bound);
        if prev is Some && (prev->0).os@ != h.os@ {
            Some(prev->0)
        } else if fuel == 0 {
            None
        } else {
            last_change_spec(history, host_id, Some(h), h.scan as int, (fuel - 1) as nat)
        }
    }
}

/// The history row observing this host in the scan right before this one
/// (meaningful when one exists).
pub open spec fn hist_prev_of(history: Seq<HostHistory>, scan: i64, host_id: i64) -> HostHistory {
    choose|h: HostHistory| history.contains(h) && h.host_id == host_id && h.scan + 1 == scan
}

/// Some history row observes this host in the scan right before this one.
pub open spec fn pair_prev_exists(history: Seq<HostHistory>, scan: i64, host_id: i64) -> bool {
    exists|i: int|
        0 <= i < history.len() && (#[trigger] history[i]).host_id == host_id && history[i].scan + 1 == scan
}

/// A host of this network that was observed in the scan right before this
/// one but not in this one.
pub open spec fn removed_pred(v: StoreV, network: Seq<char>, scan: i64, h: Host) -> bool {
    h.network@ == network && pair_prev_exists(v.history, scan, h.id) && !hist_pair_exists(v.history, scan, h.id)
}

/// A stored host row joined with one of its history rows: the id, network
/// and address of the host carrying the observation's `os` and `hist_id`.
pub open spec fn joined_row(h: Host, hist: HostHistory) -> Host {
    Host { hist_id: hist.id, os: hist.os, ..h }
}

/// The rows the removed-between query returns: the hosts of the network
/// present in the previous scan and absent in this one, in stored order,
/// joined with their previous-scan observation.
pub open spec fn removed_rows(v: StoreV, network: Seq<char>, scan: i64) -> Seq<Host> {
    v.hosts.filter(|h: Host| removed_pred(v, network, scan, h)).map_values(
        |h: Host| joined_row(h, hist_prev_of(v.history, scan, h.id)),
    )
}

pub proof fn lemma_removed_rows_step(v: StoreV, network: Seq<char>, scan: i64, i: int)
    requires
        0 <= i < v.hosts.len(),
    ensures
        v.hosts.subrange(0, i + 1).filter(|h: Host| removed_pred(v, network, scan, h))
            == if removed_pred(v, network, scan, v.hosts[i]) {
            v.hosts.subrange(0, i).filter(|h: Host| removed_pred(v, network, scan, h)).push(v.hosts[i])
        } else {
            v.hosts.subrange(0, i).filter(|h: Host| removed_pred(v, network, scan, h))
        },
{
    reveal(Seq::filter);
    assert(v.hosts.subrange(0, i + 1).drop_last() =~= v.hosts.subrange(0, i));
    assert(v.hosts.subrange(0, i + 1).last() == v.hosts[i]);
}

impl Store {
    /// Whether some history row observes this host in the scan right before
    /// the given one.
    pub fn has_pair_prev(&self, scan: i64, host_id: i64) -> (r: bool)
        ensures
            r == pair_prev_exists(self@.history, scan, host_id),
    {
        let mut k: usize = 0;
        while k < self.history.len()
            invariant
                0 <= k <= self@.history.len(),
                forall|i: int|
                    0 <= i < k ==> !((#[trigger] self@.history[i]).host_id == host_id
                        && self@.history[i].scan + 1 == scan),
            decreases self@.history.len() - k,
        {
            let row = &self.history[k];
            if row.host_id == host_id && row.scan < 0x7fff_ffff_ffff_ffff && row.scan + 1 == scan {
                return true;
            }
            k += 1;
        }
        false
    }

    /// The history row of this host with the greatest scan strictly below
    /// the bound, if the host was seen below it at all.
    fn find_max_row_below(&self, host_id: i64, bound: i64) -> (r: Option<HostHistory>)
        requires
            self.wf(),
        ensures
            (r is Some) == row_below_exists(self@.history, host_id, bound as int),
            r matches Some(h) ==> h == max_row_below(self@.history, host_id, bound as int),
    {
        let mut best: Option<usize> = None;
        let mut k: usize = 0;
        while k < self.history.len()
            invariant
                self.wf(),
                0 <= k <= self@.history.len(),
                best matches Some(b) ==> 0 <= b < k && self@.history[b as int].host_id == host_id
                    && self@.history[b as int].scan < bound && (forall|i: int|
                    0 <= i < k && (#[trigger] self@.history[i]).host_id == host_id && self@.history[i].scan
                        < bound ==> self@.history[i].scan <= self@.history[b as int].scan),
                best is None ==> forall|i: int|
                    0 <= i < k ==> !((#[trigger] self@.history[i]).host_id == host_id && self@.history[i].scan
                        < bound),
            decreases self@.history.len() - k,
        {
            let row = &self.history[k];
            if row.host_id == host_id && row.scan < bound {
                best = match best {
                    Some(b) => {
                        if self.history[b].scan < row.scan {
                            Some(k)
                        } else {
                            Some(b)
                        }
                    },
                    None => Some(k),
                };
            }
            k += 1;
        }
        match best {
            Some(b) => {
                let h = self.history[b].clone();
                proof {
                    assert(self@.history.contains(self@.history[b as int]));
                    let c = max_row_below(self@.history, host_id, bound as int);
                    assert(self@.history.contains(c) && c.host_id == host_id && c.scan < bound && (forall|i: int|
                        0 <= i < self@.history.len() && (#[trigger] self@.history[i]).host_id == host_id
                            && self@.history[i].scan < bound ==> self@.history[i].scan <= c.scan));
                    let ci = choose|i: int| 0 <= i < self@.history.len() && self@.history[i] == c;
                    assert(c.scan <= self@.history[b as int].scan);
                    assert(self@.history[ci].scan <= c.scan);
                    assert(c.scan == self@.history[b as int].scan);
                    assert(h == c);
                }
                Some(h)
            },
            None => None,
        }
    }

    /// Whether at least one host of the network was observed in the scan
    /// right before this one but not in this one ("the scan saw a change").
    pub fn scan_changed(&self, network: &str, scan: i64) -> (r: bool)
        ensures
            r == exists|i: int|
                0 <= i < self@.hosts.len() && removed_pred(self@, network@, scan, #[trigger] self@.hosts[i]),
    {
        let mut k: usize = 0;
        while k < self.hosts.len()
            invariant
                0 <= k <= self@.hosts.len(),
                forall|i: int| 0 <= i < k ==> !removed_pred(self@, network@, scan, #[trigger] self@.hosts[i]),
            decreases self@.hosts.len() - k,
        {
            let row = &self.hosts[k];
            if str_eq(row.network.as_str(), network) && self.has_pair_prev(scan, row.id)
                && !self.has_hist_pair(scan, row.id) {
                return true;
            }
            k += 1;
        }
        false
    }
}

impl Host {
    /// The earliest observation of this ip: the history row with the least
    /// scan id among the host's rows.
    pub fn find_first_emerge(db: &Store, ip: &str) -> (r: Option<HostHistory>)
        requires
            db.wf(),
        ensures
            (r is Some) == (host_ip_exists(db@.hosts, ip@) && exists|i: int|
                0 <= i < db@.history.len() && (#[trigger] db@.history[i]).host_id == ip_host_id(
                    db@.hosts,
                    ip@,
                )),
            r matches Some(h) ==> {
                &&& db@.history.contains(h)
                &&& h.host_id == ip_host_id(db@.hosts, ip@)
                &&& forall|i: int|
                    0 <= i < db@.history.len() && (#[trigger] db@.history[i]).host_id == h.host_id
                        ==> h.scan <= db@.history[i].scan
            },
    {
        let host = match Host::load_by_ip(db, ip) {
            Some(h) => h,
            None => {
                return None;
            },
        };
        proof {
            let i = choose|i: int|
                0 <= i < db@.hosts.len() && host == (Host {
                    hist_id: 0,
                    os: host.os,
                    ..#[trigger] db@.hosts[i]
                }) && host.os@ == Seq::<char>::empty();
            let w = choose|i: int| 0 <= i < db@.hosts.len() && db@.hosts[i].ip@ == ip@;
            assert(db@.hosts[i].ip@ == ip@);
            assert(i == w);
            assert(host.id == ip_host_id(db@.hosts, ip@));
        }
        let mut best: Option<usize> = None;
        let mut k: usize = 0;
        while k < db.history.len()
            invariant
                0 <= k <= db@.history.len(),
                host_ip_exists(db@.hosts, ip@),
                host.id == ip_host_id(db@.hosts, ip@),
                best matches Some(b) ==> 0 <= b < k && db@.history[b as int].host_id == host.id
                    && (forall|i: int|
                    0 <= i < k && (#[trigger] db@.history[i]).host_id == host.id
                        ==> db@.history[b as int].scan <= db@.history[i].scan),
                best is None ==> forall|i: int|
                    0 <= i < k ==> (#[trigger] db@.history[i]).host_id != host.id,
            decreases db@.history.len() - k,
        {
            let row = &db.history[k];
            if row.host_id == host.id {
                best = match best {
                    Some(b) => {
                        if row.scan < db.history[b].scan {
                            Some(k)
                        } else {
                            Some(b)
                        }
                    },
                    None => Some(k),
                };
            }
            k += 1;
        }
        match best {
            Some(b) => {
                proof {
                    assert(db@.history.contains(db@.history[b as int]));
                }
                Some(db.history[b].clone())
            },
            None => None,
        }
    }

    /// The latest observation of this ip: the history row with the greatest
    /// scan id among the host's rows.
    pub fn find_last_emerge(db: &Store, ip: &str) -> (r: Option<HostHistory>)
        requires
            db.wf(),
        ensures
            (r is Some) == (host_ip_exists(db@.hosts, ip@) && exists|i: int|
                0 <= i < db@.history.len() && (#[trigger] db@.history[i]).host_id == ip_host_id(
                    db@.hosts,
                    ip@,
                )),
            r matches Some(h) ==> {
                &&& db@.history.contains(h)
                &&& h.host_id == ip_host_id(db@.hosts, ip@)
                &&& forall|i: int|
                    0 <= i < db@.history.len() && (#[trigger] db@.history[i]).host_id == h.host_id
                        ==> db@.history[i].scan <= h.scan
            },
    {
        let host = match Host::load_by_ip(db, ip) {
            Some(h) => h,
            None => {
                return None;
            },
        };
        proof {
            let i = choose|i: int|
                0 <= i < db@.hosts.len() && host == (Host {
                    hist_id: 0,
                    os: host.os,
                    ..#[trigger] db@.hosts[i]
                }) && host.os@ == Seq::<char>::empty();
            let w = choose|i: int| 0 <= i < db@.hosts.len() && db@.hosts[i].ip@ == ip@;
            assert(db@.hosts[i].ip@ == ip@);
            assert(i == w);
            assert(host.id == ip_host_id(db@.hosts, ip@));
        }
        let mut best: Option<usize> = None;
        let mut k: usize = 0;
        while k < db.history.len()
            invariant
                0 <= k <= db@.history.len(),
                host_ip_exists(db@.hosts, ip@),
                host.id == ip_host_id(db@.hosts, ip@),
                best matches Some(b) ==> 0 <= b < k && db@.history[b as int].host_id == host.id
                    && (forall|i: int|
                    0 <= i < k && (#[trigger] db@.history[i]).host_id == host.id
                        ==> db@.history[i].scan <= db@.history[b as int].scan),
                best is None ==> forall|i: int|
                    0 <= i < k ==> (#[trigger] db@.history[i]).host_id != host.id,
            decreases db@.history.len() - k,
        {
            let row = &db.history[k];
            if row.host_id == host.id {
                best = match best {
                    Some(b) => {
                        if row.scan > db.history[b].scan {
                            Some(k)
                        } else {
                            Some(b)
                        }
                    },
                    None => Some(k),
                };
            }
            k += 1;
        }
        match best {
            Some(b) => {
                proof {
                    assert(db@.history.contains(db@.history[b as int]));
                }
                Some(db.history[b].clone())
            },
            None => None,
        }
    }

    /// Walks this ip's observations backwards from the given scan and
    /// returns the most recent one whose `os` differs from its
    /// predecessor's: the newer row of the latest differing pair.
    pub fn find_last_change(db: &Store, ip: &str, scan: i64) -> (r: Option<HostHistory>)
        requires
            db.wf(),
            scan < 0x7fff_ffff_ffff_ffff,
        ensures
            !host_ip_exists(db@.hosts, ip@) ==> r is None,
            host_ip_exists(db@.hosts, ip@) ==> r == last_change_spec(
                db@.history,
                ip_host_id(db@.hosts, ip@),
                None,
                scan + 1,
                db@.history.len() as nat,
            ),
    {
        let host = match Host::load_by_ip(db, ip) {
            Some(h) => h,
            None => {
                return None;
            },
        };
        proof {
            let i = choose|i: int|
                0 <= i < db@.hosts.len() && host == (Host {
                    hist_id: 0,
                    os: host.os,
                    ..#[trigger] db@.hosts[i]
                }) && host.os@ == Seq::<char>::empty();
            let w = choose|i: int| 0 <= i < db@.hosts.len() && db@.hosts[i].ip@ == ip@;
            assert(db@.hosts[i].ip@ == ip@);
            assert(i == w);
            assert(host.id == ip_host_id(db@.hosts, ip@));
        }
        let ghost target = last_change_spec(
            db@.history,
            host.id,
            None,
            scan + 1,
            db@.history.len() as nat,
        );
        let mut prev: Option<HostHistory> = None;
        let mut bound: i64 = scan + 1;
        let mut fuel: usize = db.history.len();
        loop
            invariant
                db.wf(),
                host.id == ip_host_id(db@.hosts, ip@),
                host_ip_exists(db@.hosts, ip@),
                fuel <= db@.history.len(),
                target == last_change_spec(
                    db@.history,
                    host.id,
                    None,
                    scan + 1,
                    db@.history.len() as nat,
                ),
                target == last_change_spec(db@.history, host.id, prev, bound as int, fuel as nat),
            decreases fuel,
        {
            let h = match db.find_max_row_below(host.id, bound) {
                Some(h) => h,
                None => {
                    return None;
                },
            };
            match &prev {
                Some(p) => {
                    if !str_eq(p.os.as_str(), h.os.as_str()) {
                        return Some(p.clone());
                    }
                },
                None => {},
            }
            if fuel == 0 {
                return None;
            }
            bound = h.scan;
            prev = Some(h);
            fuel = fuel - 1;
        }
    }

    /// The hosts of this network present in the scan right before the given
    /// one and absent in it, joined with their previous-scan observation,
    /// in stored order.
    pub fn list_removed_from_network(db: &Store, network: &str, scan: i64) -> (r: Vec<Host>)
        requires
            db.wf(),
        ensures
            r@ == removed_rows(db@, network@, scan),
    {
        let mut out: Vec<Host> = Vec::new();
        let mut k: usize = 0;
        while k < db.hosts.len()
            invariant
                db.wf(),
                0 <= k <= db@.hosts.len(),
                out@ == db@.hosts.subrange(0, k as int).filter(
                    |h: Host| removed_pred(db@, network@, scan, h),
                ).map_values(|h: Host| joined_row(h, hist_prev_of(db@.history, scan, h.id))),
            decreases db@.hosts.len() - k,
        {
            proof {
                lemma_removed_rows_step(db@, network@, scan, k as int);
            }
            let row = &db.hosts[k];
            if str_eq(row.network.as_str(), network) && db.has_pair_prev(scan, row.id)
                && !db.has_hist_pair(scan, row.id) {
                let hist = Host::prev_hist_of(db, scan, row.id);
                out.push(Host { hist_id: hist.id, os: hist.os.clone(), ..row.clone() });
                proof {
                    let pre = db@.hosts.subrange(0, k as int).filter(
                        |h: Host| removed_pred(db@, network@, scan, h),
                    );
                    let post = db@.hosts.subrange(0, k as int + 1).filter(
                        |h: Host| removed_pred(db@, network@, scan, h),
                    );
                    assert(post == pre.push(db@.hosts[k as int]));
                    assert(post.map_values(|h: Host| joined_row(h, hist_prev_of(db@.history, scan, h.id)))
                        =~= pre.map_values(|h: Host| joined_row(h, hist_prev_of(db@.history, scan, h.id))).push(
                        joined_row(db@.hosts[k as int], hist_prev_of(db@.history, scan, db@.hosts[k as int].id)),
                    ));
                }
            }
            k += 1;
        }
        proof {
            assert(db@.hosts.subrange(0, db@.hosts.len() as int) =~= db@.hosts);
        }
        out
    }

    /// The history row observing this host in the scan right before the
    /// given one; callable when one exists.
    fn prev_hist_of(db: &Store, scan: i64, host_id: i64) -> (r: HostHistory)
        requires
            db.wf(),
            pair_prev_exists(db@.history, scan, host_id),
        ensures
            r == hist_prev_of(db@.history, scan, host_id),
    {
        let mut k: usize = 0;
        loop
            invariant
                db.wf(),
                pair_prev_exists(db@.history, scan, host_id),
                0 <= k <= db@.history.len(),
                forall|i: int|
                    0 <= i < k ==> !((#[trigger] db@.history[i]).host_id == host_id && db@.history[i].scan + 1
                        == scan),
            decreases db@.history.len() - k,
        {
            if k >= db.history.len() {
                proof {
                    assert(false);
                }
                // unreachable: the requires guarantees a row exists
                return HostHistory { id: 0, host_id: 0, os: String::new(), scan: 0 };
            }
            let row = &db.history[k];
            if row.host_id == host_id && row.scan < 0x7fff_ffff_ffff_ffff && row.scan + 1 == scan {
                let out = row.clone();
                proof {
                    let c = hist_prev_of(db@.history, scan, host_id);
                    assert(db@.history.contains(db@.history[k as int]));
                    assert(db@.history.contains(c) && c.host_id == host_id && c.scan + 1 == scan);
                    let ci = choose|i: int| 0 <= i < db@.history.len() && db@.history[i] == c;
                    assert(c.scan == out.scan && c.host_id == out.host_id);
                    assert(ci == k as int);
                    assert(out == c);
                }
                return out;
            }
            k += 1;
        }
    }

    /// The next hop of this history row in this scan: the joined host row
    /// behind the right side of the last routing edge whose left side is the
    /// given history row.
    pub fn get_gateway(db: &Store, host: i64, scan: i64) -> (r: Option<Host>)
        requires
            db.wf(),
        ensures
            (r is Some) == (routing_from_host(db@.routing, host, scan).len() > 0),
            r matches Some(g) ==> ({
                let e = routing_from_host(db@.routing, host, scan).last();
                exists|i: int, j: int|
                    {
                        &&& 0 <= i < db@.history.len()
                        &&& (#[trigger] db@.history[i]).id == e.right
                        &&& 0 <= j < db@.hosts.len()
                        &&& (#[trigger] db@.hosts[j]).id == db@.history[i].host_id
                        &&& g == joined_row(db@.hosts[j], db@.history[i])
                    }
            }),
    {
        let edges = Routing::from_host(db, host, scan);
        if edges.len() == 0 {
            return None;
        }
        let e = edges[edges.len() - 1].clone();
        proof {
            lemma_routing_from_subset(db@.routing, host, scan, edges@.len() - 1);
            assert(db@.routing.contains(e));
            let ei = choose|i: int| 0 <= i < db@.routing.len() && db@.routing[i] == e;
            assert(hist_exists(db@.history, e.right));
        }
        let hist = match HostHistory::load(db, e.right) {
            Some(h) => h,
            None => {
                proof {
                    assert(false);
                }
                return None;
            },
        };
        proof {
            assert(exists|i: int| 0 <= i < db@.history.len() && db@.history[i] == hist);
            let hi = choose|i: int| 0 <= i < db@.history.len() && db@.history[i] == hist;
            assert(host_exists(db@.hosts, hist.host_id));
        }
        let hostrow = match Host::load(db, hist.host_id) {
            Some(h) => h,
            None => {
                proof {
                    assert(false);
                }
                return None;
            },
        };
        let g = Host { hist_id: hist.id, os: hist.os.clone(), ..hostrow };
        proof {
            let hi = choose|i: int| 0 <= i < db@.history.len() && db@.history[i] == hist;
            let hj = choose|j: int|
                0 <= j < db@.hosts.len() && hostrow == (Host {
                    hist_id: 0,
                    os: hostrow.os,
                    ..#[trigger] db@.hosts[j]
                }) && hostrow.os@ == Seq::<char>::empty();
            assert(db@.history[hi].id == e.right);
            assert(db@.hosts[hj].id == db@.history[hi].host_id);
            assert(g == joined_row(db@.hosts[hj], db@.history[hi]));
        }
        Some(g)
    }
}

/// Each element of the from-host edge listing is a stored routing edge and
/// matches the listing's key.
proof fn lemma_routing_from_subset(routing: Seq<Routing>, host: i64, scan: i64, i: int)
    requires
        0 <= i < routing_from_host(routing, host, scan).len(),
    ensures
        routing.contains(routing_from_host(routing, host, scan)[i]),
        routing_from_host(routing, host, scan)[i].left == host,
        routing_from_host(routing, host, scan)[i].scan == scan,
    decreases routing.len(),
{
    reveal(Seq::filter);
    let f = routing_from_host(routing, host, scan);
    if routing.len() > 0 {
        let fp = routing_from_host(routing.drop_last(), host, scan);
        assert(routing.drop_last().filter(|e: Routing| e.left == host && e.scan == scan) == fp);
        if i < fp.len() {
            lemma_routing_from_subset(routing.drop_last(), host, scan, i);
            let w = choose|w: int| 0 <= w < routing.drop_last().len() && routing.drop_last()[w] == fp[i];
            assert(routing[w] == fp[i]);
            assert(routing.contains(f[i]));
        } else {
            assert(f[i] == routing.last());
            assert(routing.contains(routing.last()));
        }
    }
}


/// The greatest CVSS score among the CVE rows of this history row, in
/// tenths of a point; -1 when the row has no CVE at all.
pub open spec fn max_cvss(cves: Seq<Cve>, hist_id: i64) -> int
    decreases cves.len(),
{
    if cves.len() == 0 {
        -1
    } else {
        let rest = max_cvss(cves.drop_last(), hist_id);
        if cves.last().host_history_id == hist_id && cves.last().cvss > rest {
            cves.last().cvss as int
        } else {
            rest
        }
    }
}

/// Strict lexicographic order on character sequences, by code point.
pub open spec fn lex_lt(a: Seq<char>, b: Seq<char>) -> bool
    decreases a.len(),
{
    if b.len() == 0 {
        false
    } else if a.len() == 0 {
        true
    } else if a[0] != b[0] {
        (a[0] as u32) < (b[0] as u32)
    } else {
        lex_lt(a.drop_first(), b.drop_first())
    }
}

/// Characters with equal code points are equal.
proof fn char_inj(c1: char, c2: char)
    requires
        c1 as u32 == c2 as u32,
    ensures
        c1 == c2,
{
}

/// Sequences that precede each other in neither direction are equal.
pub proof fn lemma_lex_lt_connex(a: Seq<char>, b: Seq<char>)
    requires
        !lex_lt(a, b),
        !lex_lt(b, a),
    ensures
        a == b,
    decreases a.len(),
{
    if a.len() > 0 && b.len() > 0 {
        if a[0] != b[0] {
            assert(lex_lt(a, b) == ((a[0] as u32) < (b[0] as u32)));
            assert(lex_lt(b, a) == ((b[0] as u32) < (a[0] as u32)));
            assert((a[0] as u32) == (b[0] as u32));
            char_inj(a[0], b[0]);
        }
        assert(a[0] == b[0]);
        lemma_lex_lt_connex(a.drop_first(), b.drop_first());
        assert forall|i: int| 0 <= i < a.len() implies a[i] == b[i] by {
            if i > 0 {
                assert(a.drop_first()[i - 1] == a[i]);
                assert(b.drop_first()[i - 1] == b[i]);
            }
        }
        assert(a =~= b);
    } else {
        assert(a.len() == 0 && b.len() == 0);
        assert(a =~= b);
    }
}

/// Lexicographic order is transitive.
pub proof fn lemma_lex_lt_trans(a: Seq<char>, b: Seq<char>, c: Seq<char>)
    requires
        lex_lt(a, b),
        lex_lt(b, c),
    ensures
        lex_lt(a, c),
    decreases a.len(),
{
    if a.len() > 0 && b.len() > 0 && a[0] == b[0] && b[0] == c[0] {
        lemma_lex_lt_trans(a.drop_first(), b.drop_first(), c.drop_first());
    }
}

/// `a` comes no later than `b` in a host listing of one scan: worse (higher)
/// maximal CVSS first, then address in lexicographic order.
pub open spec fn host_le(cves: Seq<Cve>, a: Host, b: Host) -> bool {
    ||| max_cvss(cves, a.hist_id) > max_cvss(cves, b.hist_id)
    ||| (max_cvss(cves, a.hist_id) == max_cvss(cves, b.hist_id) && (a.ip@ == b.ip@ || lex_lt(a.ip@, b.ip@)))
}

/// The host ordering is total.
pub proof fn lemma_host_le_total(cves: Seq<Cve>, a: Host, b: Host)
    requires
        !host_le(cves, a, b),
    ensures
        host_le(cves, b, a),
{
    if max_cvss(cves, a.hist_id) == max_cvss(cves, b.hist_id) {
        if a.ip@ != b.ip@ && !lex_lt(b.ip@, a.ip@) {
            lemma_lex_lt_connex(a.ip@, b.ip@);
        }
    }
}

/// The host ordering is transitive.
pub proof fn lemma_host_le_trans(cves: Seq<Cve>, a: Host, b: Host, c: Host)
    requires
        host_le(cves, a, b),
        host_le(cves, b, c),
    ensures
        host_le(cves, a, c),
{
    if max_cvss(cves, a.hist_id) == max_cvss(cves, b.hist_id) && max_cvss(cves, b.hist_id) == max_cvss(
        cves,
        c.hist_id,
    ) {
        if a.ip@ != b.ip@ && b.ip@ != c.ip@ && a.ip@ != c.ip@ {
            lemma_lex_lt_trans(a.ip@, b.ip@, c.ip@);
        }
    }
}

/// A host of this network observed in this scan.
pub open spec fn present_pred(v: StoreV, network: Seq<char>, scan: i64, h: Host) -> bool {
    h.network@ == network && hist_pair_exists(v.history, scan, h.id)
}

/// The history row observing this host in this scan (meaningful when one
/// exists; unique by the data-model invariants).
pub open spec fn hist_pair_of(history: Seq<HostHistory>, scan: i64, host_id: i64) -> HostHistory {
    choose|h: HostHistory| history.contains(h) && h.host_id == host_id && h.scan == scan
}

/// The chosen observation of `(scan, host)` is a stored row with that key,
/// when one exists.
pub proof fn lemma_hist_pair_of(history: Seq<HostHistory>, scan: i64, host_id: i64)
    requires
        hist_pair_exists(history, scan, host_id),
    ensures
        ({
            let h = hist_pair_of(history, scan, host_id);
            history.contains(h) && h.scan == scan && h.host_id == host_id
        }),
{
    let i = choose|i: int|
        0 <= i < history.len() && (#[trigger] history[i]).scan == scan && history[i].host_id == host_id;
    assert(history.contains(history[i]));
}

/// At most one row observes a `(scan, host)` pair: two stored rows with the
/// same key are the same row.
pub proof fn lemma_hist_pair_unique(
    history: Seq<HostHistory>,
    scan: i64,
    host_id: i64,
    a: HostHistory,
    b: HostHistory,
)
    requires
        forall|i: int, j: int|
            0 <= i < j < history.len() ==> !((#[trigger] history[i]).scan == (#[trigger] history[j]).scan
                && history[i].host_id == history[j].host_id),
        history.contains(a),
        a.scan == scan,
        a.host_id == host_id,
        history.contains(b),
        b.scan == scan,
        b.host_id == host_id,
    ensures
        a == b,
{
    let ia = choose|i: int| 0 <= i < history.len() && history[i] == a;
    let ib = choose|i: int| 0 <= i < history.len() && history[i] == b;
    if ia < ib {
        assert(history[ia].scan == history[ib].scan && history[ia].host_id == history[ib].host_id);
    } else if ib < ia {
        assert(history[ia].scan == history[ib].scan && history[ia].host_id == history[ib].host_id);
    }
}

/// The rows the hosts-in-scan query returns before ordering: the hosts of
/// the network observed in the scan, in stored order, joined with their
/// observation.
pub open spec fn present_rows(v: StoreV, network: Seq<char>, scan: i64) -> Seq<Host> {
    v.hosts.filter(|h: Host| present_pred(v, network, scan, h)).map_values(
        |h: Host| joined_row(h, hist_pair_of(v.history, scan, h.id)),
    )
}

proof fn lemma_present_rows_step(v: StoreV, network: Seq<char>, scan: i64, i: int)
    requires
        0 <= i < v.hosts.len(),
    ensures
        v.hosts.subrange(0, i + 1).filter(|h: Host| present_pred(v, network, scan, h))
            == if present_pred(v, network, scan, v.hosts[i]) {
            v.hosts.subrange(0, i).filter(|h: Host| present_pred(v, network, scan, h)).push(v.hosts[i])
        } else {
            v.hosts.subrange(0, i).filter(|h: Host| present_pred(v, network, scan, h))
        },
{
    reveal(Seq::filter);
    assert(v.hosts.subrange(0, i + 1).drop_last() =~= v.hosts.subrange(0, i));
    assert(v.hosts.subrange(0, i + 1).last() == v.hosts[i]);
}

impl Store {
    /// The greatest CVSS score among the CVE rows of this history row, in
    /// tenths of a point; -1 when the row has none.
    pub fn max_cvss_of(&self, hist_id: i64) -> (r: i64)
        ensures
            r == max_cvss(self@.cves, hist_id),
    {
        let mut best: i64 = -1;
        let mut k: usize = 0;
        while k < self.cves.len()
            invariant
                0 <= k <= self@.cves.len(),
                best == max_cvss(self@.cves.subrange(0, k as int), hist_id),
            decreases self@.cves.len() - k,
        {
            proof {
                assert(self@.cves.subrange(0, k as int + 1).drop_last() =~= self@.cves.subrange(0, k as int));
                assert(self@.cves.subrange(0, k as int + 1).last() == self@.cves[k as int]);
            }
            let row = &self.cves[k];
            if row.host_history_id == hist_id && (best < 0 || row.cvss as i64 > best) {
                best = row.cvss as i64;
            }
            k += 1;
        }
        proof {
            assert(self@.cves.subrange(0, self@.cves.len() as int) =~= self@.cves);
        }
        best
    }
}

/// Whether `a@` lexicographically precedes `b@`, comparing from character
/// position `i` on (the prefixes below `i` are assumed equal).
fn lex_lt_from(a: &str, b: &str, i: usize) -> (r: bool)
    requires
        i <= a@.len(),
        i <= b@.len(),
    ensures
        r == lex_lt(a@.skip(i as int), b@.skip(i as int)),
    decreases a@.len() - i,
{
    if i == b.unicode_len() {
        false
    } else if i == a.unicode_len() {
        true
    } else {
        let ca = a.get_char(i);
        let cb = b.get_char(i);
        proof {
            assert(a@.skip(i as int)[0] == a@[i as int]);
            assert(b@.skip(i as int)[0] == b@[i as int]);
            assert(a@.skip(i as int).drop_first() =~= a@.skip(i as int + 1));
            assert(b@.skip(i as int).drop_first() =~= b@.skip(i as int + 1));
        }
        if ca != cb {
            (ca as u32) < (cb as u32)
        } else {
            lex_lt_from(a, b, i + 1)
        }
    }
}

/// Whether `a` lexicographically precedes `b`, by code point.
pub fn str_lex_lt(a: &str, b: &str) -> (r: bool)
    ensures
        r == lex_lt(a@, b@),
{
    proof {
        assert(a@.skip(0) =~= a@);
        assert(b@.skip(0) =~= b@);
    }
    lex_lt_from(a, b, 0)
}

impl Host {
    /// Whether this row sorts no later than the other in the host listing.
    fn comes_before(&self, db: &Store, other: &Host) -> (r: bool)
        ensures
            r == host_le(db@.cves, *self, *other),
    {
        let mine = db.max_cvss_of(self.hist_id);
        let theirs = db.max_cvss_of(other.hist_id);
        mine > theirs || (mine == theirs && (str_eq(self.ip.as_str(), other.ip.as_str()) || str_lex_lt(
            self.ip.as_str(),
            other.ip.as_str(),
        )))
    }

    /// The hosts of this network observed in this scan, each joined with its
    /// observation, ordered by worst CVSS descending, then address ascending.
    pub fn list_from_network(db: &Store, network: &str, scan: i64) -> (r: Vec<Host>)
        requires
            db.wf(),
        ensures
            r@.to_multiset() == present_rows(db@, network@, scan).to_multiset(),
            forall|i: int, j: int| 0 <= i < j < r@.len() ==> host_le(db@.cves, #[trigger] r@[i], #[trigger] r@[j]),
    {
        broadcast use vstd::seq_lib::group_to_multiset_ensures, vstd::multiset::group_multiset_axioms;

        let mut work: Vec<Host> = Vec::new();
        let mut k: usize = 0;
        while k < db.hosts.len()
            invariant
                db.wf(),
                0 <= k <= db@.hosts.len(),
                work@ == db@.hosts.subrange(0, k as int).filter(
                    |h: Host| present_pred(db@, network@, scan, h),
                ).map_values(|h: Host| joined_row(h, hist_pair_of(db@.history, scan, h.id))),
            decreases db@.hosts.len() - k,
        {
            proof {
                lemma_present_rows_step(db@, network@, scan, k as int);
            }
            let row = &db.hosts[k];
            if str_eq(row.network.as_str(), network) && db.has_hist_pair(scan, row.id) {
                let hist = Host::pair_hist_of(db, scan, row.id);
                work.push(Host { hist_id: hist.id, os: hist.os.clone(), ..row.clone() });
                proof {
                    let pre = db@.hosts.subrange(0, k as int).filter(
                        |h: Host| present_pred(db@, network@, scan, h),
                    );
                    let post = db@.hosts.subrange(0, k as int + 1).filter(
                        |h: Host| present_pred(db@, network@, scan, h),
                    );
                    assert(post == pre.push(db@.hosts[k as int]));
                    assert(post.map_values(|h: Host| joined_row(h, hist_pair_of(db@.history, scan, h.id)))
                        =~= pre.map_values(|h: Host| joined_row(h, hist_pair_of(db@.history, scan, h.id))).push(
                        joined_row(db@.hosts[k as int], hist_pair_of(db@.history, scan, db@.hosts[k as int].id)),
                    ));
                }
            }
            k += 1;
        }
        proof {
            assert(db@.hosts.subrange(0, db@.hosts.len() as int) =~= db@.hosts);
        }
        let ghost all = present_rows(db@, network@, scan);
        let mut out: Vec<Host> = Vec::new();
        while work.len() > 0
            invariant
                db.wf(),
                out@.to_multiset().add(work@.to_multiset()) == all.to_multiset(),
                forall|i: int, j: int|
                    0 <= i < j < out@.len() ==> host_le(db@.cves, #[trigger] out@[i], #[trigger] out@[j]),
                forall|i: int, j: int|
                    0 <= i < out@.len() && 0 <= j < work@.len() ==> host_le(
                        db@.cves,
                        #[trigger] out@[i],
                        #[trigger] work@[j],
                    ),
            decreases work@.len(),
        {
            let mut m: usize = 0;
            let mut t: usize = 1;
            while t < work.len()
                invariant
                    db.wf(),
                    0 <= m < t <= work@.len(),
                    forall|i: int| 0 <= i < t ==> host_le(db@.cves, work@[m as int], #[trigger] work@[i]),
                decreases work@.len() - t,
            {
                let ghost prev_m = m as int;
                if !work[m].comes_before(db, &work[t]) {
                    m = t;
                    proof {
                        lemma_host_le_total(db@.cves, work@[prev_m], work@[t as int]);
                        assert forall|i: int| 0 <= i < t + 1 implies host_le(
                            db@.cves,
                            work@[m as int],
                            #[trigger] work@[i],
                        ) by {
                            if i < t {
                                lemma_host_le_trans(db@.cves, work@[m as int], work@[prev_m], work@[i]);
                            }
                        }
                    }
                }
                t += 1;
            }
            let ghost work_pre = work@;
            let ghost out_pre = out@;
            let x = work.remove(m);
            out.push(x);
            proof {
                work_pre.to_multiset_ensures();
                out_pre.to_multiset_ensures();
                assert(work_pre[m as int] == x);
                assert(work@ =~= work_pre.remove(m as int));
                assert(work@.to_multiset() =~= work_pre.to_multiset().remove(x));
                assert(out@.to_multiset() =~= out_pre.to_multiset().insert(x));
                assert(work_pre.contains(x));
                assert(work_pre.to_multiset().count(x) > 0);
                assert(out@.to_multiset().add(work@.to_multiset()) =~= all.to_multiset());
                assert forall|i: int, j: int|
                    0 <= i < out@.len() && 0 <= j < work@.len() implies host_le(
                    db@.cves,
                    #[trigger] out@[i],
                    #[trigger] work@[j],
                ) by {
                    if j < m as int {
                        assert(work@[j] == work_pre[j]);
                    } else {
                        assert(work@[j] == work_pre[j + 1]);
                    }
                    if i < out@.len() - 1 {
                        assert(host_le(db@.cves, out_pre[i], work@[j]));
                    } else {
                        assert(host_le(db@.cves, x, work@[j]));
                    }
                }
            }
        }
        out
    }

    /// The history row observing this host in this scan; callable when one
    /// exists.
    fn pair_hist_of(db: &Store, scan: i64, host_id: i64) -> (r: HostHistory)
        requires
            db.wf(),
            hist_pair_exists(db@.history, scan, host_id),
        ensures
            r == hist_pair_of(db@.history, scan, host_id),
    {
        let mut k: usize = 0;
        loop
            invariant
                db.wf(),
                hist_pair_exists(db@.history, scan, host_id),
                0 <= k <= db@.history.len(),
                forall|i: int|
                    0 <= i < k ==> !((#[trigger] db@.history[i]).host_id == host_id && db@.history[i].scan
                        == scan),
            decreases db@.history.len() - k,
        {
            if k >= db.history.len() {
                proof {
                    assert(false);
                }
                // unreachable: the requires guarantees a row exists
                return HostHistory { id: 0, host_id: 0, os: String::new(), scan: 0 };
            }
            let row = &db.history[k];
            if row.host_id == host_id && row.scan == scan {
                let out = row.clone();
                proof {
                    let c = hist_pair_of(db@.history, scan, host_id);
                    assert(db@.history.contains(db@.history[k as int]));
                    assert(db@.history.contains(c) && c.host_id == host_id && c.scan == scan);
                    let ci = choose|i: int| 0 <= i < db@.history.len() && db@.history[i] == c;
                    assert(ci == k as int);
                    assert(out == c);
                }
                return out;
            }
            k += 1;
        }
    }
}


/// `a` comes no later than `b` in the scan listing: later start first, then
/// greater scan id first.
pub open spec fn scan_key_le(a: Scan, b: Scan) -> bool {
    a.start_time > b.start_time || (a.start_time == b.start_time && a.scan >= b.scan)
}

/// A scan inside the window in which some host of the network was observed.
pub open spec fn network_scan_pred(v: StoreV, network: Seq<char>, wstart: i64, wend: i64, s: Scan) -> bool {
    s.start_time >= wstart && s.end_time <= wend && exists|i: int|
        0 <= i < v.hosts.len() && (#[trigger] v.hosts[i]).network@ == network && hist_pair_exists(
            v.history,
            s.scan,
            v.hosts[i].id,
        )
}

/// The row `s` originates from the listing `m`: some row of `m` carries the
/// same scan id and times.
pub open spec fn sourced_scan(m: Seq<Scan>, s: Scan) -> bool {
    exists|j: int|
        0 <= j < m.len() && (#[trigger] m[j]).scan == s.scan && m[j].start_time == s.start_time
            && m[j].end_time == s.end_time
}

/// The scans of the network inside the window, in stored order.
pub open spec fn network_scans(v: StoreV, network: Seq<char>, wstart: i64, wend: i64) -> Seq<Scan> {
    v.scans.filter(|s: Scan| network_scan_pred(v, network, wstart, wend, s))
}

proof fn lemma_network_scans_step(v: StoreV, network: Seq<char>, wstart: i64, wend: i64, i: int)
    requires
        0 <= i < v.scans.len(),
    ensures
        v.scans.subrange(0, i + 1).filter(|s: Scan| network_scan_pred(v, network, wstart, wend, s))
            == if network_scan_pred(v, network, wstart, wend, v.scans[i]) {
            v.scans.subrange(0, i).filter(|s: Scan| network_scan_pred(v, network, wstart, wend, s)).push(
                v.scans[i],
            )
        } else {
            v.scans.subrange(0, i).filter(|s: Scan| network_scan_pred(v, network, wstart, wend, s))
        },
{
    reveal(Seq::filter);
    assert(v.scans.subrange(0, i + 1).drop_last() =~= v.scans.subrange(0, i));
    assert(v.scans.subrange(0, i + 1).last() == v.scans[i]);
}

impl Store {
    /// Whether some host of this network was observed in this scan.
    pub fn has_network_host(&self, network: &str, scan: i64) -> (r: bool)
        ensures
            r == exists|i: int|
                0 <= i < self@.hosts.len() && (#[trigger] self@.hosts[i]).network@ == network@
                    && hist_pair_exists(self@.history, scan, self@.hosts[i].id),
    {
        let mut k: usize = 0;
        while k < self.hosts.len()
            invariant
                0 <= k <= self@.hosts.len(),
                forall|i: int|
                    0 <= i < k ==> !((#[trigger] self@.hosts[i]).network@ == network@ && hist_pair_exists(
                        self@.history,
                        scan,
                        self@.hosts[i].id,
                    )),
            decreases self@.hosts.len() - k,
        {
            let row = &self.hosts[k];
            if str_eq(row.network.as_str(), network) && self.has_hist_pair(scan, row.id) {
                return true;
            }
            k += 1;
        }
        false
    }
}

impl Scan {
    /// The scans of this network inside the window, newest first (start time
    /// descending, scan id descending among equal starts), at most 21 rows.
    /// The first row's `changed` flag is set; every other row's flag says
    /// whether some host of the network left between the previous scan and
    /// it.  Scans of the network left out by the row cap all order after
    /// every returned row.
    pub fn list_from_network(db: &Store, network: &str, start: Option<i64>, end: Option<i64>) -> (r: Vec<
        Scan,
    >)
        requires
            db.wf(),
        ensures
            ({
                let wstart = if start is Some { start->0 } else { WINDOW_START_DEFAULT };
                let wend = if end is Some { end->0 } else { SCAN_END_SENTINEL };
                let m = network_scans(db@, network@, wstart, wend);
                &&& r@.len() as int == if m.len() <= 21 { m.len() as int } else { 21int }
                &&& forall|i: int, j: int| 0 <= i < j < r@.len() ==> scan_key_le(#[trigger] r@[i], #[trigger] r@[j])
                &&& forall|i: int, j: int| 0 <= i < j < r@.len() ==> (#[trigger] r@[i]).scan != (#[trigger] r@[j]).scan
                &&& forall|i: int| 0 <= i < r@.len() ==> sourced_scan(m, #[trigger] r@[i])
                &&& forall|j: int|
                    0 <= j < m.len() && (forall|i: int| 0 <= i < r@.len() ==> (#[trigger] r@[i]).scan
                        != (#[trigger] m[j]).scan) ==> forall|i: int|
                        0 <= i < r@.len() ==> scan_key_le(#[trigger] r@[i], m[j])
                &&& forall|i: int|
                    0 <= i < r@.len() ==> (#[trigger] r@[i]).changed == (i == 0 || exists|x: int|
                        0 <= x < db@.hosts.len() && removed_pred(db@, network@, r@[i].scan, #[trigger] db@.hosts[x]))
            }),
    {
        broadcast use vstd::seq_lib::group_to_multiset_ensures, vstd::multiset::group_multiset_axioms;

        let wstart: i64 = match start {
            Some(t) => t,
            None => WINDOW_START_DEFAULT,
        };
        let wend: i64 = match end {
            Some(t) => t,
            None => SCAN_END_SENTINEL,
        };
        let ghost m = network_scans(db@, network@, wstart, wend);
        let mut work: Vec<Scan> = Vec::new();
        let mut k: usize = 0;
        while k < db.scans.len()
            invariant
                db.wf(),
                0 <= k <= db@.scans.len(),
                work@ == db@.scans.subrange(0, k as int).filter(
                    |s: Scan| network_scan_pred(db@, network@, wstart, wend, s),
                ),
                forall|i: int, j: int|
                    0 <= i < j < work@.len() ==> (#[trigger] work@[i]).scan != (#[trigger] work@[j]).scan,
                forall|i: int|
                    0 <= i < work@.len() ==> exists|x: int|
                        0 <= x < k && (#[trigger] db@.scans[x]).scan == (#[trigger] work@[i]).scan,
            decreases db@.scans.len() - k,
        {
            proof {
                lemma_network_scans_step(db@, network@, wstart, wend, k as int);
            }
            let row = &db.scans[k];
            if row.start_time >= wstart && row.end_time <= wend && db.has_network_host(network, row.scan) {
                work.push(row.clone());
            }
            k += 1;
        }
        proof {
            assert(db@.scans.subrange(0, db@.scans.len() as int) =~= db@.scans);
            assert(work@ == m);
        }
        let ghost work0 = work@;
        let mut out: Vec<Scan> = Vec::new();
        while work.len() > 0
            invariant
                out@.to_multiset().add(work@.to_multiset()) == work0.to_multiset(),
                forall|i: int, j: int|
                    0 <= i < j < out@.len() ==> scan_key_le(#[trigger] out@[i], #[trigger] out@[j]),
                forall|i: int, j: int|
                    0 <= i < out@.len() && 0 <= j < work@.len() ==> scan_key_le(
                        #[trigger] out@[i],
                        #[trigger] work@[j],
                    ),
            decreases work@.len(),
        {
            let mut mi: usize = 0;
            let mut t: usize = 1;
            while t < work.len()
                invariant
                    0 <= mi < t <= work@.len(),
                    forall|i: int| 0 <= i < t ==> scan_key_le(work@[mi as int], #[trigger] work@[i]),
                decreases work@.len() - t,
            {
                let a = &work[mi];
                let b = &work[t];
                if !(a.start_time > b.start_time || (a.start_time == b.start_time && a.scan >= b.scan)) {
                    mi = t;
                }
                t += 1;
            }
            let ghost work_pre = work@;
            let ghost out_pre = out@;
            let x = work.remove(mi);
            out.push(x);
            proof {
                work_pre.to_multiset_ensures();
                out_pre.to_multiset_ensures();
                assert(work_pre[mi as int] == x);
                assert(work@ =~= work_pre.remove(mi as int));
                assert(work@.to_multiset() =~= work_pre.to_multiset().remove(x));
                assert(out@.to_multiset() =~= out_pre.to_multiset().insert(x));
                assert(work_pre.contains(x));
                assert(work_pre.to_multiset().count(x) > 0);
                assert(out@.to_multiset().add(work@.to_multiset()) =~= work0.to_multiset());
                assert forall|i: int, j: int|
                    0 <= i < out@.len() && 0 <= j < work@.len() implies scan_key_le(
                    #[trigger] out@[i],
                    #[trigger] work@[j],
                ) by {
                    if j < mi as int {
                        assert(work@[j] == work_pre[j]);
                    } else {
                        assert(work@[j] == work_pre[j + 1]);
                    }
                    if i < out@.len() - 1 {
                        assert(scan_key_le(out_pre[i], work@[j]));
                    } else {
                        assert(scan_key_le(x, work@[j]));
                    }
                }
            }
        }
        // the sorted listing, distinct scan by scan
        proof {
            assert(work0.no_duplicates()) by {
                assert forall|i: int, j: int| 0 <= i < j < work0.len() implies work0[i] != work0[j] by {
                    assert(work0[i].scan != work0[j].scan);
                }
            }
            work0.lemma_multiset_has_no_duplicates();
            assert(out@.to_multiset() =~= work0.to_multiset()) by {
                assert(out@.to_multiset().add(Multiset::<Scan>::empty()) =~= work0.to_multiset());
            }
            out@.lemma_multiset_has_no_duplicates_conv();
            assert forall|i: int, j: int| 0 <= i < j < out@.len() implies (#[trigger] out@[i]).scan
                != (#[trigger] out@[j]).scan by {
                if out@[i].scan == out@[j].scan {
                    assert(out@.to_multiset().count(out@[i]) > 0);
                    assert(work0.contains(out@[i]));
                    assert(out@.to_multiset().count(out@[j]) > 0);
                    assert(work0.contains(out@[j]));
                    let wi = choose|w: int| 0 <= w < work0.len() && work0[w] == out@[i];
                    let wj = choose|w: int| 0 <= w < work0.len() && work0[w] == out@[j];
                    assert(wi == wj);
                    assert(out@[i] == out@[j]);
                }
            }
        }
        let ghost full = out@;
        if out.len() > 21 {
            out.truncate(21);
        }
        proof {
            if full.len() > 21 {
                assert(out@ == full.subrange(0, 21));
            } else {
                assert(out@ =~= full.subrange(0, full.len() as int));
            }
            assert forall|i: int| 0 <= i < out@.len() implies work0.contains(#[trigger] out@[i]) by {
                assert(out@[i] == full[i]);
                assert(full.to_multiset().count(full[i]) > 0);
            }
        }
        // compute the changed flags on the capped listing
        let ghost capped = out@;
        let n = out.len();
        let mut i: usize = 0;
        while i < n
            invariant
                db.wf(),
                n == out@.len(),
                n == capped.len(),
                forall|j: int|
                    0 <= j < n ==> (#[trigger] out@[j]).scan == capped[j].scan && out@[j].start_time
                        == capped[j].start_time && out@[j].end_time == capped[j].end_time,
                forall|j: int|
                    0 <= j < i ==> (#[trigger] out@[j]).changed == (j == 0 || exists|x: int|
                        0 <= x < db@.hosts.len() && removed_pred(db@, network@, out@[j].scan, #[trigger] db@.hosts[x])),
            decreases n - i,
        {
            let scan_id = out[i].scan;
            let flag = if i == 0 {
                true
            } else {
                db.scan_changed(network, scan_id)
            };
            let row = &mut out[i];
            row.changed = flag;
            i += 1;
        }
        proof {
            assert(m == work0);
            assert(m == network_scans(
                db@,
                network@,
                if start is Some { start->0 } else { WINDOW_START_DEFAULT },
                if end is Some { end->0 } else { SCAN_END_SENTINEL },
            ));
            assert(full.to_multiset() =~= work0.to_multiset());
            full.to_multiset_ensures();
            work0.to_multiset_ensures();
            assert(full.len() == work0.len());
            if full.len() > 21 {
                assert(capped =~= full.subrange(0, 21));
            } else {
                assert(capped =~= full);
            }
            assert(out@.len() == capped.len());
            assert forall|i2: int| 0 <= i2 < out@.len() implies work0.contains(#[trigger] capped[i2]) by {
                assert(capped[i2] == full[i2]);
                assert(full.to_multiset().count(full[i2]) > 0);
            }
            // each kept row keeps the fields of the sorted listing
            assert forall|i2: int| 0 <= i2 < out@.len() implies sourced_scan(m, #[trigger] out@[i2]) by {
                assert(work0.contains(capped[i2]));
                let w = choose|w: int| 0 <= w < work0.len() && work0[w] == capped[i2];
                assert(m[w].scan == out@[i2].scan && m[w].start_time == out@[i2].start_time && m[w].end_time
                    == out@[i2].end_time);
            }
            // scans left out by the cap order after every kept row
            assert forall|j: int|
                0 <= j < m.len() && (forall|i2: int| 0 <= i2 < out@.len() ==> (#[trigger] out@[i2]).scan
                    != (#[trigger] m[j]).scan) implies forall|i2: int|
                    0 <= i2 < out@.len() ==> scan_key_le(#[trigger] out@[i2], m[j]) by {
                assert(work0.to_multiset().count(m[j]) > 0) by {
                    work0.to_multiset_ensures();
                    assert(work0.contains(m[j]));
                }
                assert(full.to_multiset().count(m[j]) > 0);
                assert(full.contains(m[j]));
                let fj = choose|w: int| 0 <= w < full.len() && full[w] == m[j];
                assert forall|i2: int| 0 <= i2 < out@.len() implies scan_key_le(#[trigger] out@[i2], m[j]) by {
                    assert(capped[i2] == full[i2]);
                    if fj < out@.len() {
                        assert(out@[fj].scan == m[j].scan);
                        assert(false);
                    }
                    assert(scan_key_le(full[i2], full[fj]));
                }
            }
        }
        out
    }
}

} // verus!
