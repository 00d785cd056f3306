//! Entity operations on the store: per-table save and load, mirroring the
//! storage layer's CRUD surface.  `save` inserts when the surrogate id is
//! not positive and updates otherwise; composite-keyed rows are insert-only.

use vstd::prelude::*;
use crate::store::{Scan, Log, Host, HostHistory, Routing, Port, Cve, Windows, WindowsInfo, WindowsDomain, WindowsShare, WindowsPrinter, ScriptScan, ScriptResult, Store, StoreV, SCAN_END_SENTINEL, WINDOW_START_DEFAULT, scan_exists, host_exists, host_ip_exists, hist_exists, hist_pair_exists, windows_exists, script_scan_exists};

verus! {

/// Filtering a sequence extended by one element keeps the filtered prefix and
/// appends the element exactly when it satisfies the predicate.
pub proof fn lemma_subrange_filter_step<A>(s: Seq<A>, pred: spec_fn(A) -> bool, i: int)
    requires
        0 <= i < s.len(),
    ensures
        s.subrange(0, i + 1).filter(pred) == if pred(s[i]) {
            s.subrange(0, i).filter(pred).push(s[i])
        } else {
            s.subrange(0, i).filter(pred)
        },
{
    reveal(Seq::filter);
    assert(s.subrange(0, i + 1).drop_last() =~= s.subrange(0, i));
    assert(s.subrange(0, i + 1).last() == s[i]);
}

/// The scan lies inside the closed time window.
pub open spec fn scan_in_window(s: Scan, wstart: i64, wend: i64) -> bool {
    s.start_time >= wstart && s.end_time <= wend
}

/// The scans of the sequence that lie inside the window, in stored order.
pub open spec fn scans_in_window(scans: Seq<Scan>, wstart: i64, wend: i64) -> Seq<Scan> {
    scans.filter(|s: Scan| scan_in_window(s, wstart, wend))
}

pub proof fn lemma_scans_in_window_step(s: Seq<Scan>, wstart: i64, wend: i64, i: int)
    requires
        0 <= i < s.len(),
    ensures
        scans_in_window(s.subrange(0, i + 1), wstart, wend) == if scan_in_window(s[i], wstart, wend) {
            scans_in_window(s.subrange(0, i), wstart, wend).push(s[i])
        } else {
            scans_in_window(s.subrange(0, i), wstart, wend)
        },
{
    reveal(Seq::filter);
    assert(s.subrange(0, i + 1).drop_last() =~= s.subrange(0, i));
    assert(s.subrange(0, i + 1).last() == s[i]);
}

impl Store {
    /// The id-allocator over the scan table: one more than the largest id.
    pub(crate) fn next_scan_id(&self) -> (r: i64)
        requires
            self@.scans_wf(),
            self@.scans.len() < 0x7fff_ffff_ffff_ffff,
        ensures
            1 <= r <= self@.scans.len() + 1,
            forall|i: int| 0 <= i < self@.scans.len() ==> (#[trigger] self@.scans[i]).scan < r,
            r == 1 || exists|i: int| 0 <= i < self@.scans.len() && (#[trigger] self@.scans[i]).scan == r - 1,
    {
        let mut max: i64 = 0;
        let mut k: usize = 0;
        while k < self.scans.len()
            invariant
                self@.scans_wf(),
                self@.scans.len() < 0x7fff_ffff_ffff_ffff,
                0 <= k <= self@.scans.len(),
                0 <= max <= self@.scans.len(),
                forall|i: int| 0 <= i < k ==> (#[trigger] self@.scans[i]).scan <= max,
                max == 0 || exists|i: int| 0 <= i < k && (#[trigger] self@.scans[i]).scan == max,
            decreases self@.scans.len() - k,
        {
            if self.scans[k].scan > max {
                max = self.scans[k].scan;
            }
            k += 1;
        }
        max + 1
    }
}

impl Scan {
    /// A fresh, unsaved scan: it starts now and carries the far-future
    /// sentinel as its end until it completes.
    pub fn begin(now: i64) -> (r: Scan)
        ensures
            r.scan == 0,
            r.start_time == if now < SCAN_END_SENTINEL { now as int } else { SCAN_END_SENTINEL - 1 },
            r.start_time < SCAN_END_SENTINEL,
            r.end_time == SCAN_END_SENTINEL,
            r.changed,
    {
        let start = if now < SCAN_END_SENTINEL { now } else { SCAN_END_SENTINEL - 1 };
        Scan { scan: 0, start_time: start, end_time: SCAN_END_SENTINEL, changed: true }
    }

    /// Saves the scan: inserts a row under a fresh positive id when the id is
    /// not positive, updates the stored times otherwise (an update of an
    /// absent id leaves the store unchanged).
    pub fn save(&mut self, db: &mut Store) -> (r: Result<(), String>)
        requires
            old(db).wf(),
            old(db)@.scans.len() < 0x7fff_ffff_ffff_ffff,
            old(self).start_time <= old(self).end_time,
        ensures
            final(db).wf(),
            r is Ok,
            final(db)@ == (StoreV { scans: final(db)@.scans, ..old(db)@ }),
            old(self).scan <= 0 ==> {
                &&& *final(self) == (Scan { scan: final(self).scan, ..*old(self) })
                &&& final(self).scan >= 1
                &&& !scan_exists(old(db)@.scans, final(self).scan)
                &&& (forall|i: int|
                    0 <= i < old(db)@.scans.len() ==> (#[trigger] old(db)@.scans[i]).scan < final(self).scan)
                &&& final(db)@.scans == old(db)@.scans.push(*final(self))
            },
            old(self).scan > 0 ==> {
                &&& *final(self) == *old(self)
                &&& scan_exists(old(db)@.scans, old(self).scan) ==> exists|i: int|
                    0 <= i < old(db)@.scans.len() && (#[trigger] old(db)@.scans[i]).scan == old(self).scan
                        && final(db)@.scans == old(db)@.scans.update(
                        i,
                        (Scan {
                            start_time: old(self).start_time,
                            end_time: old(self).end_time,
                            ..old(db)@.scans[i]
                        }),
                    )
                &&& !scan_exists(old(db)@.scans, old(self).scan) ==> final(db)@.scans == old(db)@.scans
            },
    {
        if self.scan <= 0 {
            self.scan = db.next_scan_id();
            db.scans.push(self.clone());
            proof {
                let pre = old(db)@.scans;
                let post = db@.scans;
                assert forall|id: i64| scan_exists(pre, id) implies scan_exists(post, id) by {
                    let w = choose|i: int| 0 <= i < pre.len() && pre[i].scan == id;
                    assert(post[w] == pre[w]);
                }
                assert(db@.logs =~= old(db)@.logs);
                assert(db@.hosts =~= old(db)@.hosts);
                assert(db@.history =~= old(db)@.history);
                assert(db@.routing =~= old(db)@.routing);
                assert(db@.ports =~= old(db)@.ports);
                assert(db@.cves =~= old(db)@.cves);
                assert(db@.windows =~= old(db)@.windows);
                assert(db@.windows_info =~= old(db)@.windows_info);
                assert(db@.windows_domain =~= old(db)@.windows_domain);
                assert(db@.windows_share =~= old(db)@.windows_share);
                assert(db@.windows_printer =~= old(db)@.windows_printer);
                assert(db@.script_scans =~= old(db)@.script_scans);
                assert(db@.script_results =~= old(db)@.script_results);
                assert(db@.wf());
            }
            Ok(())
        } else {
            let mut k: usize = 0;
            while k < db.scans.len()
                invariant
                    old(db).wf(),
                    old(db)@.scans.len() < 0x7fff_ffff_ffff_ffff,
                    old(self).start_time <= old(self).end_time,
                    0 <= k <= db@.scans.len(),
                    db@ == old(db)@,
                    *self == *old(self),
                    self.scan > 0,
                    forall|i: int| 0 <= i < k ==> (#[trigger] db@.scans[i]).scan != self.scan,
                decreases db@.scans.len() - k,
            {
                if db.scans[k].scan == self.scan {
                    let ghost pre = db@.scans;
                    let row = &mut db.scans[k];
                    row.start_time = self.start_time;
                    row.end_time = self.end_time;
                    proof {
                        assert(pre[k as int].scan == self.scan);
                        assert(db@.scans =~= pre.update(
                            k as int,
                            (Scan { start_time: self.start_time, end_time: self.end_time, ..pre[k as int] }),
                        ));
                        let post = db@.scans;
                        assert forall|i: int| 0 <= i < post.len() implies (#[trigger] post[i]).scan == pre[i].scan by {
                        }
                        assert forall|i: int| 0 <= i < post.len() implies (#[trigger] post[i]).start_time
                            <= post[i].end_time by {
                            if i != k as int {
                                assert(post[i] == pre[i]);
                            }
                        }
                        assert forall|id: i64| scan_exists(pre, id) implies scan_exists(post, id) by {
                            let w = choose|i: int| 0 <= i < pre.len() && pre[i].scan == id;
                            assert(post[w].scan == pre[w].scan);
                        }
                        assert(db@.logs =~= old(db)@.logs);
                        assert(db@.hosts =~= old(db)@.hosts);
                        assert(db@.history =~= old(db)@.history);
                        assert(db@.routing =~= old(db)@.routing);
                        assert(db@.ports =~= old(db)@.ports);
                        assert(db@.cves =~= old(db)@.cves);
                        assert(db@.windows =~= old(db)@.windows);
                        assert(db@.windows_info =~= old(db)@.windows_info);
                        assert(db@.windows_domain =~= old(db)@.windows_domain);
                        assert(db@.windows_share =~= old(db)@.windows_share);
                        assert(db@.windows_printer =~= old(db)@.windows_printer);
                        assert(db@.script_scans =~= old(db)@.script_scans);
                        assert(db@.script_results =~= old(db)@.script_results);
                        assert(db@.wf());
                    }
                    return Ok(());
                }
                k += 1;
            }
            Ok(())
        }
    }

    /// Completes the scan: stamps an end time no earlier than the start and
    /// strictly before the sentinel, then saves.
    pub fn end_scan(&mut self, db: &mut Store, now: i64) -> (r: Result<(), String>)
        requires
            old(db).wf(),
            old(db)@.scans.len() < 0x7fff_ffff_ffff_ffff,
            old(self).start_time < SCAN_END_SENTINEL,
        ensures
            final(db).wf(),
            r is Ok,
            final(db)@ == (StoreV { scans: final(db)@.scans, ..old(db)@ }),
            final(self).start_time == old(self).start_time,
            final(self).start_time <= final(self).end_time < SCAN_END_SENTINEL,
            final(self).end_time == if now < old(self).start_time {
                old(self).start_time as int
            } else if now >= SCAN_END_SENTINEL {
                SCAN_END_SENTINEL - 1
            } else {
                now as int
            },
            old(self).scan > 0 && scan_exists(old(db)@.scans, old(self).scan) ==> exists|i: int|
                0 <= i < old(db)@.scans.len() && (#[trigger] old(db)@.scans[i]).scan == old(self).scan
                    && final(db)@.scans == old(db)@.scans.update(
                    i,
                    (Scan {
                        start_time: final(self).start_time,
                        end_time: final(self).end_time,
                        ..old(db)@.scans[i]
                    }),
                ),
    {
        self.end_time = if now < self.start_time {
            self.start_time
        } else if now >= SCAN_END_SENTINEL {
            SCAN_END_SENTINEL - 1
        } else {
            now
        };
        self.save(db)
    }

    /// Loads the scan with this id; the `changed` flag of a loaded row is
    /// unset (it is computed by the scan-list query, not stored).
    pub fn load(db: &Store, id: i64) -> (r: Option<Scan>)
        ensures
            (r is Some) == scan_exists(db@.scans, id),
            r matches Some(s) ==> s.scan == id && exists|i: int|
                0 <= i < db@.scans.len() && s == (Scan { changed: false, ..#[trigger] db@.scans[i] }),
    {
        let mut k: usize = 0;
        while k < db.scans.len()
            invariant
                0 <= k <= db@.scans.len(),
                forall|i: int| 0 <= i < k ==> (#[trigger] db@.scans[i]).scan != id,
            decreases db@.scans.len() - k,
        {
            if db.scans[k].scan == id {
                let row = &db.scans[k];
                return Some(Scan { scan: row.scan, start_time: row.start_time, end_time: row.end_time, changed: false });
            }
            k += 1;
        }
        None
    }

    /// Loads the most recent scan: the row with the largest id.
    pub fn last(db: &Store) -> (r: Option<Scan>)
        ensures
            (r is Some) == (db@.scans.len() > 0),
            r matches Some(s) ==> {
                &&& exists|i: int|
                    0 <= i < db@.scans.len() && s == (Scan { changed: false, ..#[trigger] db@.scans[i] })
                &&& forall|i: int| 0 <= i < db@.scans.len() ==> (#[trigger] db@.scans[i]).scan <= s.scan
            },
    {
        if db.scans.len() == 0 {
            return None;
        }
        let mut best: usize = 0;
        let mut k: usize = 1;
        while k < db.scans.len()
            invariant
                0 <= best < k <= db@.scans.len(),
                forall|i: int| 0 <= i < k ==> (#[trigger] db@.scans[i]).scan <= db@.scans[best as int].scan,
            decreases db@.scans.len() - k,
        {
            if db.scans[k].scan > db.scans[best].scan {
                best = k;
            }
            k += 1;
        }
        let row = &db.scans[best];
        Some(Scan { scan: row.scan, start_time: row.start_time, end_time: row.end_time, changed: false })
    }

    /// All scans whose lifetime lies inside the window; the window defaults
    /// to every representable time.  Loaded rows carry `changed == false`.
    pub fn list(db: &Store, start: Option<i64>, end: Option<i64>) -> (r: Vec<Scan>)
        ensures
            ({
                let wstart = if start is Some { start->0 } else { WINDOW_START_DEFAULT };
                let wend = if end is Some { end->0 } else { SCAN_END_SENTINEL };
                let m = scans_in_window(db@.scans, wstart, wend);
                r@.len() == m.len() && forall|i: int|
                    0 <= i < m.len() ==> r@[i] == (Scan { changed: false, ..#[trigger] m[i] })
            }),
    {
        let wstart: i64 = match start {
            Some(t) => t,
            None => WINDOW_START_DEFAULT,
        };
        let wend: i64 = match end {
            Some(t) => t,
            None => SCAN_END_SENTINEL,
        };
        let mut out: Vec<Scan> = Vec::new();
        let mut k: usize = 0;
        while k < db.scans.len()
            invariant
                0 <= k <= db@.scans.len(),
                ({
                    let m = scans_in_window(db@.scans.subrange(0, k as int), wstart, wend);
                    out@.len() == m.len() && forall|i: int|
                        0 <= i < m.len() ==> out@[i] == (Scan { changed: false, ..#[trigger] m[i] })
                }),
            decreases db@.scans.len() - k,
        {
            proof {
                lemma_scans_in_window_step(db@.scans, wstart, wend, k as int);
            }
            let row = &db.scans[k];
            if row.start_time >= wstart && row.end_time <= wend {
                out.push(Scan { scan: row.scan, start_time: row.start_time, end_time: row.end_time, changed: false });
                proof {
                    let m_old = scans_in_window(db@.scans.subrange(0, k as int), wstart, wend);
                    let m_new = scans_in_window(db@.scans.subrange(0, k as int + 1), wstart, wend);
                    assert forall|i: int| 0 <= i < m_new.len() implies out@[i] == (Scan {
                        changed: false,
                        ..#[trigger] m_new[i]
                    }) by {
                        if i < m_new.len() - 1 {
                            assert(m_new[i] == m_old[i]);
                        }
                    }
                }
            }
            k += 1;
        }
        proof {
            assert(db@.scans.subrange(0, db@.scans.len() as int) =~= db@.scans);
        }
        out
    }
}

impl Log {
    /// Appends the record to the audit log.
    pub fn save(&mut self, db: &mut Store) -> (r: Result<(), String>)
        requires
            old(db).wf(),
        ensures
            final(db).wf(),
            r is Ok,
            *final(self) == *old(self),
            final(db)@ == (StoreV { logs: old(db)@.logs.push(*old(self)), ..old(db)@ }),
    {
        db.logs.push(self.clone());
        proof {
            assert(db@.scans =~= old(db)@.scans);
            assert(db@.hosts =~= old(db)@.hosts);
            assert(db@.history =~= old(db)@.history);
            assert(db@.routing =~= old(db)@.routing);
            assert(db@.ports =~= old(db)@.ports);
            assert(db@.cves =~= old(db)@.cves);
            assert(db@.windows =~= old(db)@.windows);
            assert(db@.windows_info =~= old(db)@.windows_info);
            assert(db@.windows_domain =~= old(db)@.windows_domain);
            assert(db@.windows_share =~= old(db)@.windows_share);
            assert(db@.windows_printer =~= old(db)@.windows_printer);
            assert(db@.script_scans =~= old(db)@.script_scans);
            assert(db@.script_results =~= old(db)@.script_results);
            assert(db@.wf());
        }
        Ok(())
    }
}


/// Appending a row keeps every existing host id and ip present.
pub proof fn lemma_host_push(hosts: Seq<Host>, h: Host)
    ensures
        forall|id: i64| host_exists(hosts, id) ==> #[trigger] host_exists(hosts.push(h), id),
        forall|ip: Seq<char>| host_ip_exists(hosts, ip) ==> #[trigger] host_ip_exists(hosts.push(h), ip),
{
    assert forall|id: i64| host_exists(hosts, id) implies #[trigger] host_exists(hosts.push(h), id) by {
        let w = choose|i: int| 0 <= i < hosts.len() && hosts[i].id == id;
        assert(hosts.push(h)[w] == hosts[w]);
    }
    assert forall|ip: Seq<char>| host_ip_exists(hosts, ip) implies #[trigger] host_ip_exists(hosts.push(h), ip) by {
        let w = choose|i: int| 0 <= i < hosts.len() && hosts[i].ip@ == ip;
        assert(hosts.push(h)[w] == hosts[w]);
    }
}

/// Appending a row keeps every existing history id and `(scan, host)` pair present.
pub proof fn lemma_hist_push(history: Seq<HostHistory>, h: HostHistory)
    ensures
        forall|id: i64| hist_exists(history, id) ==> #[trigger] hist_exists(history.push(h), id),
        forall|s: i64, ho: i64| hist_pair_exists(history, s, ho) ==> #[trigger] hist_pair_exists(history.push(h), s, ho),
{
    assert forall|id: i64| hist_exists(history, id) implies #[trigger] hist_exists(history.push(h), id) by {
        let w = choose|i: int| 0 <= i < history.len() && history[i].id == id;
        assert(history.push(h)[w] == history[w]);
    }
    assert forall|s: i64, ho: i64| hist_pair_exists(history, s, ho) implies #[trigger] hist_pair_exists(
        history.push(h),
        s,
        ho,
    ) by {
        let w = choose|i: int| 0 <= i < history.len() && history[i].scan == s && history[i].host_id == ho;
        assert(history.push(h)[w] == history[w]);
    }
}

/// Appending a row keeps every existing windows id present.
pub proof fn lemma_windows_push(windows: Seq<Windows>, w0: Windows)
    ensures
        forall|id: i64| windows_exists(windows, id) ==> #[trigger] windows_exists(windows.push(w0), id),
{
    assert forall|id: i64| windows_exists(windows, id) implies #[trigger] windows_exists(windows.push(w0), id) by {
        let w = choose|i: int| 0 <= i < windows.len() && windows[i].id == id;
        assert(windows.push(w0)[w] == windows[w]);
    }
}

/// Appending a row keeps every existing script-scan id present.
pub proof fn lemma_script_scan_push(s: Seq<ScriptScan>, x: ScriptScan)
    ensures
        forall|id: i64| script_scan_exists(s, id) ==> #[trigger] script_scan_exists(s.push(x), id),
{
    assert forall|id: i64| script_scan_exists(s, id) implies #[trigger] script_scan_exists(s.push(x), id) by {
        let w = choose|i: int| 0 <= i < s.len() && s[i].id == id;
        assert(s.push(x)[w] == s[w]);
    }
}

impl Store {
    /// The id-allocator over the host table: one more than the largest id.
    pub(crate) fn next_host_id(&self) -> (r: i64)
        requires
            self@.hosts_wf(),
            self@.hosts.len() < 0x7fff_ffff_ffff_ffff,
        ensures
            1 <= r <= self@.hosts.len() + 1,
            forall|i: int| 0 <= i < self@.hosts.len() ==> (#[trigger] self@.hosts[i]).id < r,
            r == 1 || exists|i: int| 0 <= i < self@.hosts.len() && (#[trigger] self@.hosts[i]).id == r - 1,
    {
        let mut max: i64 = 0;
        let mut k: usize = 0;
        while k < self.hosts.len()
            invariant
                self@.hosts_wf(),
                self@.hosts.len() < 0x7fff_ffff_ffff_ffff,
                0 <= k <= self@.hosts.len(),
                0 <= max <= self@.hosts.len(),
                forall|i: int| 0 <= i < k ==> (#[trigger] self@.hosts[i]).id <= max,
                max == 0 || exists|i: int| 0 <= i < k && (#[trigger] self@.hosts[i]).id == max,
            decreases self@.hosts.len() - k,
        {
            if self.hosts[k].id > max {
                max = self.hosts[k].id;
            }
            k += 1;
        }
        max + 1
    }

    /// The id-allocator over the history table: one more than the largest id.
    pub(crate) fn next_hist_id(&self) -> (r: i64)
        requires
            self@.history_wf(),
            self@.history.len() < 0x7fff_ffff_ffff_ffff,
        ensures
            1 <= r <= self@.history.len() + 1,
            forall|i: int| 0 <= i < self@.history.len() ==> (#[trigger] self@.history[i]).id < r,
            r == 1 || exists|i: int| 0 <= i < self@.history.len() && (#[trigger] self@.history[i]).id == r - 1,
    {
        let mut max: i64 = 0;
        let mut k: usize = 0;
        while k < self.history.len()
            invariant
                self@.history_wf(),
                self@.history.len() < 0x7fff_ffff_ffff_ffff,
                0 <= k <= self@.history.len(),
                0 <= max <= self@.history.len(),
                forall|i: int| 0 <= i < k ==> (#[trigger] self@.history[i]).id <= max,
                max == 0 || exists|i: int| 0 <= i < k && (#[trigger] self@.history[i]).id == max,
            decreases self@.history.len() - k,
        {
            if self.history[k].id > max {
                max = self.history[k].id;
            }
            k += 1;
        }
        max + 1
    }

    /// The id-allocator over the windows table: one more than the largest id.
    pub(crate) fn next_windows_id(&self) -> (r: i64)
        requires
            self@.windows_wf(),
            self@.windows.len() < 0x7fff_ffff_ffff_ffff,
        ensures
            1 <= r <= self@.windows.len() + 1,
            forall|i: int| 0 <= i < self@.windows.len() ==> (#[trigger] self@.windows[i]).id < r,
            r == 1 || exists|i: int| 0 <= i < self@.windows.len() && (#[trigger] self@.windows[i]).id == r - 1,
    {
        let mut max: i64 = 0;
        let mut k: usize = 0;
        while k < self.windows.len()
            invariant
                self@.windows_wf(),
                self@.windows.len() < 0x7fff_ffff_ffff_ffff,
                0 <= k <= self@.windows.len(),
                0 <= max <= self@.windows.len(),
                forall|i: int| 0 <= i < k ==> (#[trigger] self@.windows[i]).id <= max,
                max == 0 || exists|i: int| 0 <= i < k && (#[trigger] self@.windows[i]).id == max,
            decreases self@.windows.len() - k,
        {
            if self.windows[k].id > max {
                max = self.windows[k].id;
            }
            k += 1;
        }
        max + 1
    }

    /// The id-allocator over the script-scan table: one more than the largest id.
    pub(crate) fn next_script_scan_id(&self) -> (r: i64)
        requires
            self@.scripts_wf(),
            self@.script_scans.len() < 0x7fff_ffff_ffff_ffff,
        ensures
            1 <= r <= self@.script_scans.len() + 1,
            forall|i: int| 0 <= i < self@.script_scans.len() ==> (#[trigger] self@.script_scans[i]).id < r,
            r == 1 || exists|i: int| 0 <= i < self@.script_scans.len() && (#[trigger] self@.script_scans[i]).id == r - 1,
    {
        let mut max: i64 = 0;
        let mut k: usize = 0;
        while k < self.script_scans.len()
            invariant
                self@.scripts_wf(),
                self@.script_scans.len() < 0x7fff_ffff_ffff_ffff,
                0 <= k <= self@.script_scans.len(),
                0 <= max <= self@.script_scans.len(),
                forall|i: int| 0 <= i < k ==> (#[trigger] self@.script_scans[i]).id <= max,
                max == 0 || exists|i: int| 0 <= i < k && (#[trigger] self@.script_scans[i]).id == max,
            decreases self@.script_scans.len() - k,
        {
            if self.script_scans[k].id > max {
                max = self.script_scans[k].id;
            }
            k += 1;
        }
        max + 1
    }
}

impl Host {
    /// Saves the host: inserts a row under a fresh id when the id is not
    /// positive, updates the stored row otherwise.  A stored host's `ip`
    /// never changes: the update writes every other column.  The transient
    /// `os` and `hist_id` of this entity are not columns; queries recompute
    /// them from the history table.
    pub fn save(&mut self, db: &mut Store) -> (r: Result<(), String>)
        requires
            old(db).wf(),
            old(db)@.hosts.len() < 0x7fff_ffff_ffff_ffff,
            old(self).id <= 0 ==> !host_ip_exists(old(db)@.hosts, old(self).ip@),
        ensures
            final(db).wf(),
            r is Ok,
            final(db)@ == (StoreV { hosts: final(db)@.hosts, ..old(db)@ }),
            old(self).id <= 0 ==> {
                &&& *final(self) == (Host { id: final(self).id, ..*old(self) })
                &&& final(self).id >= 1
                &&& !host_exists(old(db)@.hosts, final(self).id)
                &&& (forall|i: int|
                    0 <= i < old(db)@.hosts.len() ==> (#[trigger] old(db)@.hosts[i]).id < final(self).id)
                &&& final(db)@.hosts == old(db)@.hosts.push(*final(self))
            },
            old(self).id > 0 ==> {
                &&& *final(self) == *old(self)
                &&& host_exists(old(db)@.hosts, old(self).id) ==> exists|i: int|
                    0 <= i < old(db)@.hosts.len() && (#[trigger] old(db)@.hosts[i]).id == old(self).id
                        && final(db)@.hosts == old(db)@.hosts.update(
                        i,
                        (Host {
                            network: old(self).network,
                            ipnet: old(self).ipnet,
                            hostname: old(self).hostname,
                            ignore: old(self).ignore,
                            comment: old(self).comment,
                            ..old(db)@.hosts[i]
                        }),
                    )
                &&& !host_exists(old(db)@.hosts, old(self).id) ==> final(db)@.hosts == old(db)@.hosts
            },
    {
        if self.id <= 0 {
            self.id = db.next_host_id();
            db.hosts.push(self.clone());
            proof {
                lemma_host_push(old(db)@.hosts, *self);
                assert(db@.scans =~= old(db)@.scans);
                assert(db@.logs =~= old(db)@.logs);
                assert(db@.history =~= old(db)@.history);
                assert(db@.routing =~= old(db)@.routing);
                assert(db@.ports =~= old(db)@.ports);
                assert(db@.cves =~= old(db)@.cves);
                assert(db@.windows =~= old(db)@.windows);
                assert(db@.windows_info =~= old(db)@.windows_info);
                assert(db@.windows_domain =~= old(db)@.windows_domain);
                assert(db@.windows_share =~= old(db)@.windows_share);
                assert(db@.windows_printer =~= old(db)@.windows_printer);
                assert(db@.script_scans =~= old(db)@.script_scans);
                assert(db@.script_results =~= old(db)@.script_results);
                assert(db@.wf());
            }
            Ok(())
        } else {
            let mut k: usize = 0;
            while k < db.hosts.len()
                invariant
                    old(db).wf(),
                    old(db)@.hosts.len() < 0x7fff_ffff_ffff_ffff,
                    0 <= k <= db@.hosts.len(),
                    db@ == old(db)@,
                    *self == *old(self),
                    self.id > 0,
                    forall|i: int| 0 <= i < k ==> (#[trigger] db@.hosts[i]).id != self.id,
                decreases db@.hosts.len() - k,
            {
                if db.hosts[k].id == self.id {
                    let ghost pre = db@.hosts;
                    let row = &mut db.hosts[k];
                    row.network = self.network.clone();
                    row.ipnet = self.ipnet.clone();
                    row.hostname = self.hostname.clone();
                    row.ignore = self.ignore;
                    row.comment = self.comment.clone();
                    proof {
                        assert(pre[k as int].id == self.id);
                        assert(db@.hosts =~= pre.update(
                            k as int,
                            (Host {
                                network: self.network,
                                ipnet: self.ipnet,
                                hostname: self.hostname,
                                ignore: self.ignore,
                                comment: self.comment,
                                ..pre[k as int]
                            }),
                        ));
                        let post = db@.hosts;
                        assert forall|i: int| 0 <= i < post.len() implies (#[trigger] post[i]).id == pre[i].id
                            && post[i].ip@ == pre[i].ip@ by {
                            if i != k as int {
                                assert(post[i] == pre[i]);
                            }
                        }
                        assert forall|id: i64| host_exists(pre, id) implies host_exists(post, id) by {
                            let w = choose|i: int| 0 <= i < pre.len() && pre[i].id == id;
                            assert(post[w].id == pre[w].id);
                        }
                        assert(db@.scans =~= old(db)@.scans);
                        assert(db@.logs =~= old(db)@.logs);
                        assert(db@.history =~= old(db)@.history);
                        assert(db@.routing =~= old(db)@.routing);
                        assert(db@.ports =~= old(db)@.ports);
                        assert(db@.cves =~= old(db)@.cves);
                        assert(db@.windows =~= old(db)@.windows);
                        assert(db@.windows_info =~= old(db)@.windows_info);
                        assert(db@.windows_domain =~= old(db)@.windows_domain);
                        assert(db@.windows_share =~= old(db)@.windows_share);
                        assert(db@.windows_printer =~= old(db)@.windows_printer);
                        assert(db@.script_scans =~= old(db)@.script_scans);
                        assert(db@.script_results =~= old(db)@.script_results);
                        assert(db@.wf());
                    }
                    return Ok(());
                }
                k += 1;
            }
            Ok(())
        }
    }

    /// Loads the host with this id.  The transient `os` and `hist_id` of a
    /// loaded row are empty; the per-scan queries fill them from the history.
    pub fn load(db: &Store, id: i64) -> (r: Option<Host>)
        ensures
            (r is Some) == host_exists(db@.hosts, id),
            r matches Some(h) ==> h.id == id && exists|i: int|
                0 <= i < db@.hosts.len() && h == (Host {
                    hist_id: 0,
                    os: h.os,
                    ..#[trigger] db@.hosts[i]
                }) && h.os@ == Seq::<char>::empty(),
    {
        let mut k: usize = 0;
        while k < db.hosts.len()
            invariant
                0 <= k <= db@.hosts.len(),
                forall|i: int| 0 <= i < k ==> (#[trigger] db@.hosts[i]).id != id,
            decreases db@.hosts.len() - k,
        {
            if db.hosts[k].id == id {
                let row = db.hosts[k].clone();
                return Some(Host { hist_id: 0, os: String::new(), ..row });
            }
            k += 1;
        }
        None
    }

    /// Loads the host carrying this ip, the natural key.
    pub fn load_by_ip(db: &Store, ip: &str) -> (r: Option<Host>)
        ensures
            (r is Some) == host_ip_exists(db@.hosts, ip@),
            r matches Some(h) ==> h.ip@ == ip@ && exists|i: int|
                0 <= i < db@.hosts.len() && h == (Host {
                    hist_id: 0,
                    os: h.os,
                    ..#[trigger] db@.hosts[i]
                }) && h.os@ == Seq::<char>::empty(),
    {
        let mut k: usize = 0;
        while k < db.hosts.len()
            invariant
                0 <= k <= db@.hosts.len(),
                forall|i: int| 0 <= i < k ==> (#[trigger] db@.hosts[i]).ip@ != ip@,
            decreases db@.hosts.len() - k,
        {
            if crate::textutil::str_eq(db.hosts[k].ip.as_str(), ip) {
                let row = db.hosts[k].clone();
                return Some(Host { hist_id: 0, os: String::new(), ..row });
            }
            k += 1;
        }
        None
    }
}


/// The history rows of one scan, in stored order.
pub open spec fn hist_of_scan(history: Seq<HostHistory>, scan: i64) -> Seq<HostHistory> {
    history.filter(|h: HostHistory| h.scan == scan)
}

/// The history rows of one host, in stored order.
pub open spec fn hist_of_host(history: Seq<HostHistory>, host_id: i64) -> Seq<HostHistory> {
    history.filter(|h: HostHistory| h.host_id == host_id)
}

/// The routing edges leaving this history row in this scan, in stored order.
pub open spec fn routing_from_host(routing: Seq<Routing>, host: i64, scan: i64) -> Seq<Routing> {
    routing.filter(|e: Routing| e.left == host && e.scan == scan)
}

/// The routing edges entering this history row in this scan, in stored order.
pub open spec fn routing_to_host(routing: Seq<Routing>, host: i64, scan: i64) -> Seq<Routing> {
    routing.filter(|e: Routing| e.right == host && e.scan == scan)
}

/// The port rows of one history row, in stored order.
pub open spec fn ports_of_hist(ports: Seq<Port>, hist_id: i64) -> Seq<Port> {
    ports.filter(|p: Port| p.host_history_id == hist_id)
}

/// The CVE rows of one `(history, port)` pair, in stored order.
pub open spec fn cves_of_hist_port(cves: Seq<Cve>, hist_id: i64, port: i32) -> Seq<Cve> {
    cves.filter(|c: Cve| c.host_history_id == hist_id && c.port == port)
}

/// The CVE rows of one history row, in stored order.
pub open spec fn cves_of_hist(cves: Seq<Cve>, hist_id: i64) -> Seq<Cve> {
    cves.filter(|c: Cve| c.host_history_id == hist_id)
}

/// The CVE rows of one scan, in stored order.
pub open spec fn cves_of_scan(cves: Seq<Cve>, scan: i64) -> Seq<Cve> {
    cves.filter(|c: Cve| c.scan == scan)
}

/// The scans in which this host was observed, in stored order.
pub open spec fn scans_of_host(scans: Seq<Scan>, history: Seq<HostHistory>, host_id: i64) -> Seq<Scan> {
    scans.filter(|s: Scan| hist_pair_exists(history, s.scan, host_id))
}

/// The id of the host row carrying this ip (meaningful when one exists).
pub open spec fn ip_host_id(hosts: Seq<Host>, ip: Seq<char>) -> i64 {
    hosts[choose|i: int| 0 <= i < hosts.len() && hosts[i].ip@ == ip].id
}

/// The host id of the history row carrying this id (meaningful when one exists).
pub open spec fn hist_host_id(history: Seq<HostHistory>, id: i64) -> i64 {
    history[choose|i: int| 0 <= i < history.len() && history[i].id == id].host_id
}

pub proof fn lemma_hist_of_scan_step(history: Seq<HostHistory>, scan: i64, i: int)
    requires
        0 <= i < history.len(),
    ensures
        hist_of_scan(history.subrange(0, i + 1), scan) == if history[i].scan == scan {
            hist_of_scan(history.subrange(0, i), scan).push(history[i])
        } else {
            hist_of_scan(history.subrange(0, i), scan)
        },
{
    reveal(Seq::filter);
    assert(history.subrange(0, i + 1).drop_last() =~= history.subrange(0, i));
    assert(history.subrange(0, i + 1).last() == history[i]);
}

pub proof fn lemma_hist_of_host_step(history: Seq<HostHistory>, host_id: i64, i: int)
    requires
        0 <= i < history.len(),
    ensures
        hist_of_host(history.subrange(0, i + 1), host_id) == if history[i].host_id == host_id {
            hist_of_host(history.subrange(0, i), host_id).push(history[i])
        } else {
            hist_of_host(history.subrange(0, i), host_id)
        },
{
    reveal(Seq::filter);
    assert(history.subrange(0, i + 1).drop_last() =~= history.subrange(0, i));
    assert(history.subrange(0, i + 1).last() == history[i]);
}

pub proof fn lemma_routing_from_host_step(routing: Seq<Routing>, host: i64, scan: i64, i: int)
    requires
        0 <= i < routing.len(),
    ensures
        routing_from_host(routing.subrange(0, i + 1), host, scan) == if routing[i].left == host && routing[i].scan == scan {
            routing_from_host(routing.subrange(0, i), host, scan).push(routing[i])
        } else {
            routing_from_host(routing.subrange(0, i), host, scan)
        },
{
    reveal(Seq::filter);
    assert(routing.subrange(0, i + 1).drop_last() =~= routing.subrange(0, i));
    assert(routing.subrange(0, i + 1).last() == routing[i]);
}

pub proof fn lemma_routing_to_host_step(routing: Seq<Routing>, host: i64, scan: i64, i: int)
    requires
        0 <= i < routing.len(),
    ensures
        routing_to_host(routing.subrange(0, i + 1), host, scan) == if routing[i].right == host && routing[i].scan == scan {
            routing_to_host(routing.subrange(0, i), host, scan).push(routing[i])
        } else {
            routing_to_host(routing.subrange(0, i), host, scan)
        },
{
    reveal(Seq::filter);
    assert(routing.subrange(0, i + 1).drop_last() =~= routing.subrange(0, i));
    assert(routing.subrange(0, i + 1).last() == routing[i]);
}

pub proof fn lemma_ports_of_hist_step(ports: Seq<Port>, hist_id: i64, i: int)
    requires
        0 <= i < ports.len(),
    ensures
        ports_of_hist(ports.subrange(0, i + 1), hist_id) == if ports[i].host_history_id == hist_id {
            ports_of_hist(ports.subrange(0, i), hist_id).push(ports[i])
        } else {
            ports_of_hist(ports.subrange(0, i), hist_id)
        },
{
    reveal(Seq::filter);
    assert(ports.subrange(0, i + 1).drop_last() =~= ports.subrange(0, i));
    assert(ports.subrange(0, i + 1).last() == ports[i]);
}

pub proof fn lemma_cves_of_hist_port_step(cves: Seq<Cve>, hist_id: i64, port: i32, i: int)
    requires
        0 <= i < cves.len(),
    ensures
        cves_of_hist_port(cves.subrange(0, i + 1), hist_id, port) == if cves[i].host_history_id == hist_id && cves[i].port == port {
            cves_of_hist_port(cves.subrange(0, i), hist_id, port).push(cves[i])
        } else {
            cves_of_hist_port(cves.subrange(0, i), hist_id, port)
        },
{
    reveal(Seq::filter);
    assert(cves.subrange(0, i + 1).drop_last() =~= cves.subrange(0, i));
    assert(cves.subrange(0, i + 1).last() == cves[i]);
}

pub proof fn lemma_cves_of_hist_step(cves: Seq<Cve>, hist_id: i64, i: int)
    requires
        0 <= i < cves.len(),
    ensures
        cves_of_hist(cves.subrange(0, i + 1), hist_id) == if cves[i].host_history_id == hist_id {
            cves_of_hist(cves.subrange(0, i), hist_id).push(cves[i])
        } else {
            cves_of_hist(cves.subrange(0, i), hist_id)
        },
{
    reveal(Seq::filter);
    assert(cves.subrange(0, i + 1).drop_last() =~= cves.subrange(0, i));
    assert(cves.subrange(0, i + 1).last() == cves[i]);
}

pub proof fn lemma_cves_of_scan_step(cves: Seq<Cve>, scan: i64, i: int)
    requires
        0 <= i < cves.len(),
    ensures
        cves_of_scan(cves.subrange(0, i + 1), scan) == if cves[i].scan == scan {
            cves_of_scan(cves.subrange(0, i), scan).push(cves[i])
        } else {
            cves_of_scan(cves.subrange(0, i), scan)
        },
{
    reveal(Seq::filter);
    assert(cves.subrange(0, i + 1).drop_last() =~= cves.subrange(0, i));
    assert(cves.subrange(0, i + 1).last() == cves[i]);
}

pub proof fn lemma_scans_of_host_step(scans: Seq<Scan>, history: Seq<HostHistory>, host_id: i64, i: int)
    requires
        0 <= i < scans.len(),
    ensures
        scans_of_host(scans.subrange(0, i + 1), history, host_id) == if hist_pair_exists(history, scans[i].scan, host_id) {
            scans_of_host(scans.subrange(0, i), history, host_id).push(scans[i])
        } else {
            scans_of_host(scans.subrange(0, i), history, host_id)
        },
{
    reveal(Seq::filter);
    assert(scans.subrange(0, i + 1).drop_last() =~= scans.subrange(0, i));
    assert(scans.subrange(0, i + 1).last() == scans[i]);
}


impl HostHistory {
    /// Saves the observation: inserts a row under a fresh id when the id is
    /// not positive (the scan and host must exist and not be paired yet),
    /// otherwise overwrites the stored `os` snapshot.
    pub fn save(&mut self, db: &mut Store) -> (r: Result<(), String>)
        requires
            old(db).wf(),
            old(db)@.history.len() < 0x7fff_ffff_ffff_ffff,
            old(self).id <= 0 ==> {
                &&& scan_exists(old(db)@.scans, old(self).scan)
                &&& host_exists(old(db)@.hosts, old(self).host_id)
                &&& !hist_pair_exists(old(db)@.history, old(self).scan, old(self).host_id)
            },
        ensures
            final(db).wf(),
            r is Ok,
            final(db)@ == (StoreV { history: final(db)@.history, ..old(db)@ }),
            old(self).id <= 0 ==> {
                &&& *final(self) == (HostHistory { id: final(self).id, ..*old(self) })
                &&& final(self).id >= 1
                &&& !hist_exists(old(db)@.history, final(self).id)
                &&& (forall|i: int|
                    0 <= i < old(db)@.history.len() ==> (#[trigger] old(db)@.history[i]).id < final(self).id)
                &&& final(db)@.history == old(db)@.history.push(*final(self))
            },
            old(self).id > 0 ==> {
                &&& *final(self) == *old(self)
                &&& hist_exists(old(db)@.history, old(self).id) ==> exists|i: int|
                    0 <= i < old(db)@.history.len() && (#[trigger] old(db)@.history[i]).id == old(self).id
                        && final(db)@.history == old(db)@.history.update(
                        i,
                        (HostHistory { os: old(self).os, ..old(db)@.history[i] }),
                    )
                &&& !hist_exists(old(db)@.history, old(self).id) ==> final(db)@.history == old(db)@.history
            },
    {
        if self.id <= 0 {
            self.id = db.next_hist_id();
            db.history.push(self.clone());
            proof {
                lemma_hist_push(old(db)@.history, *self);
                assert(db@.scans =~= old(db)@.scans);
                assert(db@.logs =~= old(db)@.logs);
                assert(db@.hosts =~= old(db)@.hosts);
                assert(db@.routing =~= old(db)@.routing);
                assert(db@.ports =~= old(db)@.ports);
                assert(db@.cves =~= old(db)@.cves);
                assert(db@.windows =~= old(db)@.windows);
                assert(db@.windows_info =~= old(db)@.windows_info);
                assert(db@.windows_domain =~= old(db)@.windows_domain);
                assert(db@.windows_share =~= old(db)@.windows_share);
                assert(db@.windows_printer =~= old(db)@.windows_printer);
                assert(db@.script_scans =~= old(db)@.script_scans);
                assert(db@.script_results =~= old(db)@.script_results);
                assert(db@.wf());
            }
            Ok(())
        } else {
            let mut k: usize = 0;
            while k < db.history.len()
                invariant
                    old(db).wf(),
                    old(db)@.history.len() < 0x7fff_ffff_ffff_ffff,
                    0 <= k <= db@.history.len(),
                    db@ == old(db)@,
                    *self == *old(self),
                    self.id > 0,
                    forall|i: int| 0 <= i < k ==> (#[trigger] db@.history[i]).id != self.id,
                decreases db@.history.len() - k,
            {
                if db.history[k].id == self.id {
                    let ghost pre = db@.history;
                    let row = &mut db.history[k];
                    row.os = self.os.clone();
                    proof {
                        assert(pre[k as int].id == self.id);
                        assert(db@.history =~= pre.update(
                            k as int,
                            (HostHistory { os: self.os, ..pre[k as int] }),
                        ));
                        let post = db@.history;
                        assert forall|i: int| 0 <= i < post.len() implies (#[trigger] post[i]).id == pre[i].id
                            && post[i].scan == pre[i].scan && post[i].host_id == pre[i].host_id by {
                            if i != k as int {
                                assert(post[i] == pre[i]);
                            }
                        }
                        assert forall|id: i64| hist_exists(pre, id) implies hist_exists(post, id) by {
                            let w = choose|i: int| 0 <= i < pre.len() && pre[i].id == id;
                            assert(post[w].id == pre[w].id);
                        }
                        assert(db@.scans =~= old(db)@.scans);
                        assert(db@.logs =~= old(db)@.logs);
                        assert(db@.hosts =~= old(db)@.hosts);
                        assert(db@.routing =~= old(db)@.routing);
                        assert(db@.ports =~= old(db)@.ports);
                        assert(db@.cves =~= old(db)@.cves);
                        assert(db@.windows =~= old(db)@.windows);
                        assert(db@.windows_info =~= old(db)@.windows_info);
                        assert(db@.windows_domain =~= old(db)@.windows_domain);
                        assert(db@.windows_share =~= old(db)@.windows_share);
                        assert(db@.windows_printer =~= old(db)@.windows_printer);
                        assert(db@.script_scans =~= old(db)@.script_scans);
                        assert(db@.script_results =~= old(db)@.script_results);
                        assert(db@.wf());
                    }
                    return Ok(());
                }
                k += 1;
            }
            Ok(())
        }
    }

    /// Loads the history row with this id.
    pub fn load(db: &Store, id: i64) -> (r: Option<HostHistory>)
        ensures
            (r is Some) == hist_exists(db@.history, id),
            r matches Some(h) ==> h.id == id && db@.history.contains(h),
    {
        let mut k: usize = 0;
        while k < db.history.len()
            invariant
                0 <= k <= db@.history.len(),
                forall|i: int| 0 <= i < k ==> (#[trigger] db@.history[i]).id != id,
            decreases db@.history.len() - k,
        {
            if db.history[k].id == id {
                let row = db.history[k].clone();
                proof {
                    assert(db@.history.contains(db@.history[k as int]));
                }
                return Some(row);
            }
            k += 1;
        }
        None
    }

    /// Loads the observation of the host with this ip in this scan, if any.
    pub fn load_from_scan_and_host(db: &Store, scan: i64, ip: &str) -> (r: Option<HostHistory>)
        requires
            db.wf(),
        ensures
            (r is Some) == (host_ip_exists(db@.hosts, ip@) && hist_pair_exists(
                db@.history,
                scan,
                ip_host_id(db@.hosts, ip@),
            )),
            r matches Some(h) ==> {
                &&& db@.history.contains(h)
                &&& h.scan == scan
                &&& h.host_id == ip_host_id(db@.hosts, ip@)
            },
    {
        let host = match Host::load_by_ip(db, ip) {
            Some(h) => h,
            None => {
                return None;
            },
        };
        proof {
            let i = choose|i: int|
                0 <= i < db@.hosts.len() && host == (Host {
                    hist_id: 0,
                    os: host.os,
                    ..#[trigger] db@.hosts[i]
                }) && host.os@ == Seq::<char>::empty();
            let w = choose|i: int| 0 <= i < db@.hosts.len() && db@.hosts[i].ip@ == ip@;
            assert(db@.hosts[i].ip@ == ip@);
            assert(i == w);
            assert(host.id == ip_host_id(db@.hosts, ip@));
        }
        let mut k: usize = 0;
        while k < db.history.len()
            invariant
                0 <= k <= db@.history.len(),
                host_ip_exists(db@.hosts, ip@),
                host.id == ip_host_id(db@.hosts, ip@),
                forall|i: int|
                    0 <= i < k ==> !((#[trigger] db@.history[i]).scan == scan && db@.history[i].host_id == host.id),
            decreases db@.history.len() - k,
        {
            if db.history[k].scan == scan && db.history[k].host_id == host.id {
                let row = db.history[k].clone();
                proof {
                    assert(db@.history.contains(db@.history[k as int]));
                    assert(hist_pair_exists(db@.history, scan, host.id)) by {
                        assert(db@.history[k as int].scan == scan && db@.history[k as int].host_id == host.id);
                    }
                }
                return Some(row);
            }
            k += 1;
        }
        None
    }

    /// Lists observations: by host when a host id is given, else by scan
    /// (an absent scan defaults to 0, which no row carries).
    pub fn list(db: &Store, scan: Option<i64>, host: Option<i64>) -> (r: Vec<HostHistory>)
        ensures
            host matches Some(h) ==> r@ == hist_of_host(db@.history, h),
            host is None ==> r@ == hist_of_scan(db@.history, if scan is Some { scan->0 } else { 0 }),
    {
        let by_host = host.is_some();
        let key: i64 = match host {
            Some(h) => h,
            None => match scan {
                Some(s) => s,
                None => 0,
            },
        };
        let mut out: Vec<HostHistory> = Vec::new();
        let mut k: usize = 0;
        while k < db.history.len()
            invariant
                0 <= k <= db@.history.len(),
                by_host ==> out@ == hist_of_host(db@.history.subrange(0, k as int), key),
                !by_host ==> out@ == hist_of_scan(db@.history.subrange(0, k as int), key),
            decreases db@.history.len() - k,
        {
            proof {
                lemma_hist_of_host_step(db@.history, key, k as int);
                lemma_hist_of_scan_step(db@.history, key, k as int);
            }
            let row = &db.history[k];
            if (by_host && row.host_id == key) || (!by_host && row.scan == key) {
                out.push(row.clone());
            }
            k += 1;
        }
        proof {
            assert(db@.history.subrange(0, db@.history.len() as int) =~= db@.history);
        }
        out
    }

    /// All scans in which the host observed by this history row appears.
    /// Loaded rows carry `changed == false`.
    pub fn scan_history(db: &Store, id: i64) -> (r: Vec<Scan>)
        requires
            db.wf(),
        ensures
            !hist_exists(db@.history, id) ==> r@.len() == 0,
            hist_exists(db@.history, id) ==> ({
                let m = scans_of_host(db@.scans, db@.history, hist_host_id(db@.history, id));
                r@.len() == m.len() && forall|i: int|
                    0 <= i < m.len() ==> r@[i] == (Scan { changed: false, ..#[trigger] m[i] })
            }),
    {
        let hist = match HostHistory::load(db, id) {
            Some(h) => h,
            None => {
                return Vec::new();
            },
        };
        proof {
            assert(exists|i: int| 0 <= i < db@.history.len() && db@.history[i] == hist);
            let i = choose|i: int| 0 <= i < db@.history.len() && db@.history[i] == hist;
            let w = choose|i: int| 0 <= i < db@.history.len() && db@.history[i].id == id;
            assert(db@.history[i].id == id);
            assert(db@.history[w].id == id);
            assert(i == w);
            assert(hist.host_id == hist_host_id(db@.history, id));
        }
        let host_id = hist.host_id;
        let mut out: Vec<Scan> = Vec::new();
        let mut k: usize = 0;
        while k < db.scans.len()
            invariant
                0 <= k <= db@.scans.len(),
                host_id == hist_host_id(db@.history, id),
                ({
                    let m = scans_of_host(db@.scans.subrange(0, k as int), db@.history, host_id);
                    out@.len() == m.len() && forall|i: int|
                        0 <= i < m.len() ==> out@[i] == (Scan { changed: false, ..#[trigger] m[i] })
                }),
            decreases db@.scans.len() - k,
        {
            proof {
                lemma_scans_of_host_step(db@.scans, db@.history, host_id, k as int);
            }
            let row = &db.scans[k];
            if db.has_hist_pair(row.scan, host_id) {
                out.push(Scan { scan: row.scan, start_time: row.start_time, end_time: row.end_time, changed: false });
                proof {
                    let m_old = scans_of_host(db@.scans.subrange(0, k as int), db@.history, host_id);
                    let m_new = scans_of_host(db@.scans.subrange(0, k as int + 1), db@.history, host_id);
                    assert forall|i: int| 0 <= i < m_new.len() implies out@[i] == (Scan {
                        changed: false,
                        ..#[trigger] m_new[i]
                    }) by {
                        if i < m_new.len() - 1 {
                            assert(m_new[i] == m_old[i]);
                        }
                    }
                }
            }
            k += 1;
        }
        proof {
            assert(db@.scans.subrange(0, db@.scans.len() as int) =~= db@.scans);
        }
        out
    }
}

impl Store {
    /// Whether some history row observes this host in this scan.
    pub fn has_hist_pair(&self, scan: i64, host_id: i64) -> (r: bool)
        ensures
            r == hist_pair_exists(self@.history, scan, host_id),
    {
        let mut k: usize = 0;
        while k < self.history.len()
            invariant
                0 <= k <= self@.history.len(),
                forall|i: int|
                    0 <= i < k ==> !((#[trigger] self@.history[i]).scan == scan
                        && self@.history[i].host_id == host_id),
            decreases self@.history.len() - k,
        {
            if self.history[k].scan == scan && self.history[k].host_id == host_id {
                return true;
            }
            k += 1;
        }
        false
    }
}

impl Routing {
    /// Records the edge; routing rows are insert-only and never form
    /// self-loops, and both ends must reference stored history rows.
    pub fn save(&mut self, db: &mut Store) -> (r: Result<(), String>)
        requires
            old(db).wf(),
            old(self).left != old(self).right,
            hist_exists(old(db)@.history, old(self).left),
            hist_exists(old(db)@.history, old(self).right),
        ensures
            final(db).wf(),
            r is Ok,
            *final(self) == *old(self),
            final(db)@ == (StoreV { routing: old(db)@.routing.push(*old(self)), ..old(db)@ }),
    {
        db.routing.push(self.clone());
        proof {
            assert(db@.scans =~= old(db)@.scans);
            assert(db@.logs =~= old(db)@.logs);
            assert(db@.hosts =~= old(db)@.hosts);
            assert(db@.history =~= old(db)@.history);
            assert(db@.ports =~= old(db)@.ports);
            assert(db@.cves =~= old(db)@.cves);
            assert(db@.windows =~= old(db)@.windows);
            assert(db@.windows_info =~= old(db)@.windows_info);
            assert(db@.windows_domain =~= old(db)@.windows_domain);
            assert(db@.windows_share =~= old(db)@.windows_share);
            assert(db@.windows_printer =~= old(db)@.windows_printer);
            assert(db@.script_scans =~= old(db)@.script_scans);
            assert(db@.script_results =~= old(db)@.script_results);
            assert(db@.wf());
        }
        Ok(())
    }

    /// The edges leaving this history row in this scan.
    pub fn from_host(db: &Store, host: i64, scan: i64) -> (r: Vec<Routing>)
        ensures
            r@ == routing_from_host(db@.routing, host, scan),
    {
        Routing::load(db, host, scan, true)
    }

    /// The edges entering this history row in this scan.
    pub fn to_host(db: &Store, host: i64, scan: i64) -> (r: Vec<Routing>)
        ensures
            r@ == routing_to_host(db@.routing, host, scan),
    {
        Routing::load(db, host, scan, false)
    }

    fn load(db: &Store, host: i64, scan: i64, left: bool) -> (r: Vec<Routing>)
        ensures
            left ==> r@ == routing_from_host(db@.routing, host, scan),
            !left ==> r@ == routing_to_host(db@.routing, host, scan),
    {
        let mut out: Vec<Routing> = Vec::new();
        let mut k: usize = 0;
        while k < db.routing.len()
            invariant
                0 <= k <= db@.routing.len(),
                left ==> out@ == routing_from_host(db@.routing.subrange(0, k as int), host, scan),
                !left ==> out@ == routing_to_host(db@.routing.subrange(0, k as int), host, scan),
            decreases db@.routing.len() - k,
        {
            proof {
                lemma_routing_from_host_step(db@.routing, host, scan, k as int);
                lemma_routing_to_host_step(db@.routing, host, scan, k as int);
            }
            let row = &db.routing[k];
            if ((left && row.left == host) || (!left && row.right == host)) && row.scan == scan {
                out.push(row.clone());
            }
            k += 1;
        }
        proof {
            assert(db@.routing.subrange(0, db@.routing.len() as int) =~= db@.routing);
        }
        out
    }
}

impl Port {
    /// Records the service observation; port rows are insert-only.
    pub fn save(&mut self, db: &mut Store) -> (r: Result<(), String>)
        requires
            old(db).wf(),
            hist_exists(old(db)@.history, old(self).host_history_id),
        ensures
            final(db).wf(),
            r is Ok,
            *final(self) == *old(self),
            final(db)@ == (StoreV { ports: old(db)@.ports.push(*old(self)), ..old(db)@ }),
    {
        db.ports.push(self.clone());
        proof {
            assert(db@.scans =~= old(db)@.scans);
            assert(db@.logs =~= old(db)@.logs);
            assert(db@.hosts =~= old(db)@.hosts);
            assert(db@.history =~= old(db)@.history);
            assert(db@.routing =~= old(db)@.routing);
            assert(db@.cves =~= old(db)@.cves);
            assert(db@.windows =~= old(db)@.windows);
            assert(db@.windows_info =~= old(db)@.windows_info);
            assert(db@.windows_domain =~= old(db)@.windows_domain);
            assert(db@.windows_share =~= old(db)@.windows_share);
            assert(db@.windows_printer =~= old(db)@.windows_printer);
            assert(db@.script_scans =~= old(db)@.script_scans);
            assert(db@.script_results =~= old(db)@.script_results);
            assert(db@.wf());
        }
        Ok(())
    }

    /// The services observed by one history row.
    pub fn load(db: &Store, hist_id: i64) -> (r: Vec<Port>)
        ensures
            r@ == ports_of_hist(db@.ports, hist_id),
    {
        let mut out: Vec<Port> = Vec::new();
        let mut k: usize = 0;
        while k < db.ports.len()
            invariant
                0 <= k <= db@.ports.len(),
                out@ == ports_of_hist(db@.ports.subrange(0, k as int), hist_id),
            decreases db@.ports.len() - k,
        {
            proof {
                lemma_ports_of_hist_step(db@.ports, hist_id, k as int);
            }
            let row = &db.ports[k];
            if row.host_history_id == hist_id {
                out.push(row.clone());
            }
            k += 1;
        }
        proof {
            assert(db@.ports.subrange(0, db@.ports.len() as int) =~= db@.ports);
        }
        out
    }
}

/// `a` comes no later than `b` in a vulnerability listing: higher score
/// first, lower port number first among equal scores.
pub open spec fn cve_le(a: Cve, b: Cve) -> bool {
    a.cvss > b.cvss || (a.cvss == b.cvss && a.port <= b.port)
}

impl Cve {
    /// Records the vulnerability candidate; CVE rows are insert-only.
    pub fn save(&mut self, db: &mut Store) -> (r: Result<(), String>)
        requires
            old(db).wf(),
            hist_exists(old(db)@.history, old(self).host_history_id),
        ensures
            final(db).wf(),
            r is Ok,
            *final(self) == *old(self),
            final(db)@ == (StoreV { cves: old(db)@.cves.push(*old(self)), ..old(db)@ }),
    {
        db.cves.push(self.clone());
        proof {
            assert(db@.scans =~= old(db)@.scans);
            assert(db@.logs =~= old(db)@.logs);
            assert(db@.hosts =~= old(db)@.hosts);
            assert(db@.history =~= old(db)@.history);
            assert(db@.routing =~= old(db)@.routing);
            assert(db@.ports =~= old(db)@.ports);
            assert(db@.windows =~= old(db)@.windows);
            assert(db@.windows_info =~= old(db)@.windows_info);
            assert(db@.windows_domain =~= old(db)@.windows_domain);
            assert(db@.windows_share =~= old(db)@.windows_share);
            assert(db@.windows_printer =~= old(db)@.windows_printer);
            assert(db@.script_scans =~= old(db)@.script_scans);
            assert(db@.script_results =~= old(db)@.script_results);
            assert(db@.wf());
        }
        Ok(())
    }

    /// The vulnerabilities of one `(history, port)` pair.
    pub fn load(db: &Store, hist_id: i64, port: i32) -> (r: Vec<Cve>)
        ensures
            r@ == cves_of_hist_port(db@.cves, hist_id, port),
    {
        let mut out: Vec<Cve> = Vec::new();
        let mut k: usize = 0;
        while k < db.cves.len()
            invariant
                0 <= k <= db@.cves.len(),
                out@ == cves_of_hist_port(db@.cves.subrange(0, k as int), hist_id, port),
            decreases db@.cves.len() - k,
        {
            proof {
                lemma_cves_of_hist_port_step(db@.cves, hist_id, port, k as int);
            }
            let row = &db.cves[k];
            if row.host_history_id == hist_id && row.port == port {
                out.push(row.clone());
            }
            k += 1;
        }
        proof {
            assert(db@.cves.subrange(0, db@.cves.len() as int) =~= db@.cves);
        }
        out
    }

    /// The vulnerabilities of one scan, in stored order.
    pub fn from_scan(db: &Store, scan: i64) -> (r: Vec<Cve>)
        ensures
            r@ == cves_of_scan(db@.cves, scan),
    {
        let mut out: Vec<Cve> = Vec::new();
        let mut k: usize = 0;
        while k < db.cves.len()
            invariant
                0 <= k <= db@.cves.len(),
                out@ == cves_of_scan(db@.cves.subrange(0, k as int), scan),
            decreases db@.cves.len() - k,
        {
            proof {
                lemma_cves_of_scan_step(db@.cves, scan, k as int);
            }
            let row = &db.cves[k];
            if row.scan == scan {
                out.push(row.clone());
            }
            k += 1;
        }
        proof {
            assert(db@.cves.subrange(0, db@.cves.len() as int) =~= db@.cves);
        }
        out
    }

    /// Whether this row sorts no later than the other in a listing.
    fn comes_before(&self, other: &Cve) -> (r: bool)
        ensures
            r == cve_le(*self, *other),
    {
        self.cvss > other.cvss || (self.cvss == other.cvss && self.port <= other.port)
    }

    /// The vulnerabilities of one history row, ordered by score descending
    /// and port ascending.
    pub fn from_host_hist(db: &Store, hist_id: i64) -> (r: Vec<Cve>)
        ensures
            r@.to_multiset() == cves_of_hist(db@.cves, hist_id).to_multiset(),
            forall|i: int, j: int| 0 <= i < j < r@.len() ==> cve_le(#[trigger] r@[i], #[trigger] r@[j]),
    {
        broadcast use vstd::seq_lib::group_to_multiset_ensures, vstd::multiset::group_multiset_axioms;

        let mut work: Vec<Cve> = Vec::new();
        let mut k: usize = 0;
        while k < db.cves.len()
            invariant
                0 <= k <= db@.cves.len(),
                work@ == cves_of_hist(db@.cves.subrange(0, k as int), hist_id),
            decreases db@.cves.len() - k,
        {
            proof {
                lemma_cves_of_hist_step(db@.cves, hist_id, k as int);
            }
            let row = &db.cves[k];
            if row.host_history_id == hist_id {
                work.push(row.clone());
            }
            k += 1;
        }
        proof {
            assert(db@.cves.subrange(0, db@.cves.len() as int) =~= db@.cves);
        }
        let ghost all = cves_of_hist(db@.cves, hist_id);
        let mut out: Vec<Cve> = Vec::new();
        while work.len() > 0
            invariant
                out@.to_multiset().add(work@.to_multiset()) == all.to_multiset(),
                forall|i: int, j: int| 0 <= i < j < out@.len() ==> cve_le(#[trigger] out@[i], #[trigger] out@[j]),
                forall|i: int, j: int|
                    0 <= i < out@.len() && 0 <= j < work@.len() ==> cve_le(#[trigger] out@[i], #[trigger] work@[j]),
            decreases work@.len(),
        {
            let mut m: usize = 0;
            let mut t: usize = 1;
            while t < work.len()
                invariant
                    0 <= m < t <= work@.len(),
                    forall|i: int| 0 <= i < t ==> cve_le(work@[m as int], #[trigger] work@[i]),
                decreases work@.len() - t,
            {
                if !work[m].comes_before(&work[t]) {
                    m = t;
                    proof {
                        assert forall|i: int| 0 <= i < t + 1 implies cve_le(work@[m as int], #[trigger] work@[i]) by {}
                    }
                }
                t += 1;
            }
            let ghost work_pre = work@;
            let ghost out_pre = out@;
            let x = work.remove(m);
            out.push(x);
            proof {
                work_pre.to_multiset_ensures();
                out_pre.to_multiset_ensures();
                assert(work_pre[m as int] == x);
                assert(work@ =~= work_pre.remove(m as int));
                assert(work@.to_multiset() =~= work_pre.to_multiset().remove(x));
                assert(out@.to_multiset() =~= out_pre.to_multiset().insert(x));
                assert(work_pre.contains(x));
                assert(work_pre.to_multiset().count(x) > 0);
                assert(out@.to_multiset().add(work@.to_multiset()) =~= all.to_multiset());
                assert forall|i: int, j: int|
                    0 <= i < out@.len() && 0 <= j < work@.len() implies cve_le(
                    #[trigger] out@[i],
                    #[trigger] work@[j],
                ) by {
                    if j < m as int {
                        assert(work@[j] == work_pre[j]);
                    } else {
                        assert(work@[j] == work_pre[j + 1]);
                    }
                    if i < out@.len() - 1 {
                        assert(cve_le(out_pre[i], work@[j]));
                    } else {
                        assert(cve_le(x, work@[j]));
                    }
                }
            }
        }
        out
    }
}


/// The share rows of one windows row, in stored order.
pub open spec fn shares_of_windows(shares: Seq<WindowsShare>, win_id: i64) -> Seq<WindowsShare> {
    shares.filter(|s: WindowsShare| s.windows_id == win_id)
}

/// The printer rows of one windows row, in stored order.
pub open spec fn printers_of_windows(printers: Seq<WindowsPrinter>, win_id: i64) -> Seq<WindowsPrinter> {
    printers.filter(|p: WindowsPrinter| p.windows_id == win_id)
}

/// The script runs recorded on one history row, in stored order.
pub open spec fn scripts_of_hist(scans: Seq<ScriptScan>, hist_id: i64) -> Seq<ScriptScan> {
    scans.filter(|s: ScriptScan| s.hist_id == hist_id)
}

/// The result rows of one script run, in stored order.
pub open spec fn results_of_script(results: Seq<ScriptResult>, script_id: i64) -> Seq<ScriptResult> {
    results.filter(|x: ScriptResult| x.script_id == script_id)
}

pub proof fn lemma_shares_of_windows_step(shares: Seq<WindowsShare>, win_id: i64, i: int)
    requires
        0 <= i < shares.len(),
    ensures
        shares_of_windows(shares.subrange(0, i + 1), win_id) == if shares[i].windows_id == win_id {
            shares_of_windows(shares.subrange(0, i), win_id).push(shares[i])
        } else {
            shares_of_windows(shares.subrange(0, i), win_id)
        },
{
    reveal(Seq::filter);
    assert(shares.subrange(0, i + 1).drop_last() =~= shares.subrange(0, i));
    assert(shares.subrange(0, i + 1).last() == shares[i]);
}

pub proof fn lemma_printers_of_windows_step(printers: Seq<WindowsPrinter>, win_id: i64, i: int)
    requires
        0 <= i < printers.len(),
    ensures
        printers_of_windows(printers.subrange(0, i + 1), win_id) == if printers[i].windows_id == win_id {
            printers_of_windows(printers.subrange(0, i), win_id).push(printers[i])
        } else {
            printers_of_windows(printers.subrange(0, i), win_id)
        },
{
    reveal(Seq::filter);
    assert(printers.subrange(0, i + 1).drop_last() =~= printers.subrange(0, i));
    assert(printers.subrange(0, i + 1).last() == printers[i]);
}

pub proof fn lemma_scripts_of_hist_step(scans: Seq<ScriptScan>, hist_id: i64, i: int)
    requires
        0 <= i < scans.len(),
    ensures
        scripts_of_hist(scans.subrange(0, i + 1), hist_id) == if scans[i].hist_id == hist_id {
            scripts_of_hist(scans.subrange(0, i), hist_id).push(scans[i])
        } else {
            scripts_of_hist(scans.subrange(0, i), hist_id)
        },
{
    reveal(Seq::filter);
    assert(scans.subrange(0, i + 1).drop_last() =~= scans.subrange(0, i));
    assert(scans.subrange(0, i + 1).last() == scans[i]);
}

pub proof fn lemma_results_of_script_step(results: Seq<ScriptResult>, script_id: i64, i: int)
    requires
        0 <= i < results.len(),
    ensures
        results_of_script(results.subrange(0, i + 1), script_id) == if results[i].script_id == script_id {
            results_of_script(results.subrange(0, i), script_id).push(results[i])
        } else {
            results_of_script(results.subrange(0, i), script_id)
        },
{
    reveal(Seq::filter);
    assert(results.subrange(0, i + 1).drop_last() =~= results.subrange(0, i));
    assert(results.subrange(0, i + 1).last() == results[i]);
}


impl Windows {
    /// Records the SMB umbrella row under a fresh id; an already-saved row
    /// cannot be changed.
    pub fn save(&mut self, db: &mut Store) -> (r: Result<(), String>)
        requires
            old(db).wf(),
            old(db)@.windows.len() < 0x7fff_ffff_ffff_ffff,
            old(self).id <= 0 ==> hist_exists(old(db)@.history, old(self).hist_id),
        ensures
            final(db).wf(),
            (r is Ok) == (old(self).id <= 0),
            old(self).id <= 0 ==> {
                &&& *final(self) == (Windows { id: final(self).id, ..*old(self) })
                &&& final(self).id >= 1
                &&& !windows_exists(old(db)@.windows, final(self).id)
                &&& (forall|i: int|
                    0 <= i < old(db)@.windows.len() ==> (#[trigger] old(db)@.windows[i]).id < final(self).id)
                &&& final(db)@ == (StoreV { windows: old(db)@.windows.push(*final(self)), ..old(db)@ })
            },
            old(self).id > 0 ==> *final(self) == *old(self) && final(db)@ == old(db)@,
    {
        if self.id <= 0 {
            self.id = db.next_windows_id();
            db.windows.push(self.clone());
            proof {
                lemma_windows_push(old(db)@.windows, *self);
                assert(db@.scans =~= old(db)@.scans);
                assert(db@.logs =~= old(db)@.logs);
                assert(db@.hosts =~= old(db)@.hosts);
                assert(db@.history =~= old(db)@.history);
                assert(db@.routing =~= old(db)@.routing);
                assert(db@.ports =~= old(db)@.ports);
                assert(db@.cves =~= old(db)@.cves);
                assert(db@.windows_info =~= old(db)@.windows_info);
                assert(db@.windows_domain =~= old(db)@.windows_domain);
                assert(db@.windows_share =~= old(db)@.windows_share);
                assert(db@.windows_printer =~= old(db)@.windows_printer);
                assert(db@.script_scans =~= old(db)@.script_scans);
                assert(db@.script_results =~= old(db)@.script_results);
                assert(db@.wf());
            }
            Ok(())
        } else {
            proof {
                assert(db@ =~= old(db)@);
            }
            Err(String::from_str("a saved windows row can not be changed"))
        }
    }

    /// Loads the first SMB umbrella row recorded on this history row.
    pub fn load(db: &Store, hist_id: i64) -> (r: Option<Windows>)
        ensures
            (r is Some) == exists|i: int|
                0 <= i < db@.windows.len() && (#[trigger] db@.windows[i]).hist_id == hist_id,
            r matches Some(w) ==> exists|i: int|
                0 <= i < db@.windows.len() && w == #[trigger] db@.windows[i] && w.hist_id == hist_id
                    && forall|j: int| 0 <= j < i ==> db@.windows[j].hist_id != hist_id,
    {
        let mut k: usize = 0;
        while k < db.windows.len()
            invariant
                0 <= k <= db@.windows.len(),
                forall|i: int| 0 <= i < k ==> (#[trigger] db@.windows[i]).hist_id != hist_id,
            decreases db@.windows.len() - k,
        {
            if db.windows[k].hist_id == hist_id {
                return Some(db.windows[k].clone());
            }
            k += 1;
        }
        None
    }
}

impl WindowsInfo {
    /// Records the general SMB information; insert-only.
    pub fn save(&self, db: &mut Store) -> (r: Result<(), String>)
        requires
            old(db).wf(),
            windows_exists(old(db)@.windows, self.windows_id),
        ensures
            final(db).wf(),
            r is Ok,
            final(db)@ == (StoreV { windows_info: old(db)@.windows_info.push(*self), ..old(db)@ }),
    {
        db.windows_info.push(self.clone());
        proof {
            assert(db@.scans =~= old(db)@.scans);
            assert(db@.logs =~= old(db)@.logs);
            assert(db@.hosts =~= old(db)@.hosts);
            assert(db@.history =~= old(db)@.history);
            assert(db@.routing =~= old(db)@.routing);
            assert(db@.ports =~= old(db)@.ports);
            assert(db@.cves =~= old(db)@.cves);
            assert(db@.windows =~= old(db)@.windows);
            assert(db@.windows_domain =~= old(db)@.windows_domain);
            assert(db@.windows_share =~= old(db)@.windows_share);
            assert(db@.windows_printer =~= old(db)@.windows_printer);
            assert(db@.script_scans =~= old(db)@.script_scans);
            assert(db@.script_results =~= old(db)@.script_results);
            assert(db@.wf());
        }
        Ok(())
    }

    /// Loads the first information row of this windows row.
    pub fn load(db: &Store, win_id: i64) -> (r: Option<WindowsInfo>)
        ensures
            (r is Some) == exists|i: int|
                0 <= i < db@.windows_info.len() && (#[trigger] db@.windows_info[i]).windows_id == win_id,
            r matches Some(w) ==> exists|i: int|
                0 <= i < db@.windows_info.len() && w == #[trigger] db@.windows_info[i] && w.windows_id == win_id
                    && forall|j: int| 0 <= j < i ==> db@.windows_info[j].windows_id != win_id,
    {
        let mut k: usize = 0;
        while k < db.windows_info.len()
            invariant
                0 <= k <= db@.windows_info.len(),
                forall|i: int| 0 <= i < k ==> (#[trigger] db@.windows_info[i]).windows_id != win_id,
            decreases db@.windows_info.len() - k,
        {
            if db.windows_info[k].windows_id == win_id {
                return Some(db.windows_info[k].clone());
            }
            k += 1;
        }
        None
    }
}

impl WindowsDomain {
    /// Records the SMB domain information; insert-only.
    pub fn save(&self, db: &mut Store) -> (r: Result<(), String>)
        requires
            old(db).wf(),
            windows_exists(old(db)@.windows, self.windows_id),
        ensures
            final(db).wf(),
            r is Ok,
            final(db)@ == (StoreV { windows_domain: old(db)@.windows_domain.push(*self), ..old(db)@ }),
    {
        db.windows_domain.push(self.clone());
        proof {
            assert(db@.scans =~= old(db)@.scans);
            assert(db@.logs =~= old(db)@.logs);
            assert(db@.hosts =~= old(db)@.hosts);
            assert(db@.history =~= old(db)@.history);
            assert(db@.routing =~= old(db)@.routing);
            assert(db@.ports =~= old(db)@.ports);
            assert(db@.cves =~= old(db)@.cves);
            assert(db@.windows =~= old(db)@.windows);
            assert(db@.windows_info =~= old(db)@.windows_info);
            assert(db@.windows_share =~= old(db)@.windows_share);
            assert(db@.windows_printer =~= old(db)@.windows_printer);
            assert(db@.script_scans =~= old(db)@.script_scans);
            assert(db@.script_results =~= old(db)@.script_results);
            assert(db@.wf());
        }
        Ok(())
    }

    /// Loads the first domain row of this windows row.
    pub fn load(db: &Store, win_id: i64) -> (r: Option<WindowsDomain>)
        ensures
            (r is Some) == exists|i: int|
                0 <= i < db@.windows_domain.len() && (#[trigger] db@.windows_domain[i]).windows_id == win_id,
            r matches Some(w) ==> exists|i: int|
                0 <= i < db@.windows_domain.len() && w == #[trigger] db@.windows_domain[i] && w.windows_id == win_id
                    && forall|j: int| 0 <= j < i ==> db@.windows_domain[j].windows_id != win_id,
    {
        let mut k: usize = 0;
        while k < db.windows_domain.len()
            invariant
                0 <= k <= db@.windows_domain.len(),
                forall|i: int| 0 <= i < k ==> (#[trigger] db@.windows_domain[i]).windows_id != win_id,
            decreases db@.windows_domain.len() - k,
        {
            if db.windows_domain[k].windows_id == win_id {
                return Some(db.windows_domain[k].clone());
            }
            k += 1;
        }
        None
    }
}

impl WindowsShare {
    /// Records one SMB share; insert-only.
    pub fn save(&self, db: &mut Store) -> (r: Result<(), String>)
        requires
            old(db).wf(),
            windows_exists(old(db)@.windows, self.windows_id),
        ensures
            final(db).wf(),
            r is Ok,
            final(db)@ == (StoreV { windows_share: old(db)@.windows_share.push(*self), ..old(db)@ }),
    {
        db.windows_share.push(self.clone());
        proof {
            assert(db@.scans =~= old(db)@.scans);
            assert(db@.logs =~= old(db)@.logs);
            assert(db@.hosts =~= old(db)@.hosts);
            assert(db@.history =~= old(db)@.history);
            assert(db@.routing =~= old(db)@.routing);
            assert(db@.ports =~= old(db)@.ports);
            assert(db@.cves =~= old(db)@.cves);
            assert(db@.windows =~= old(db)@.windows);
            assert(db@.windows_info =~= old(db)@.windows_info);
            assert(db@.windows_domain =~= old(db)@.windows_domain);
            assert(db@.windows_printer =~= old(db)@.windows_printer);
            assert(db@.script_scans =~= old(db)@.script_scans);
            assert(db@.script_results =~= old(db)@.script_results);
            assert(db@.wf());
        }
        Ok(())
    }

    /// The shares of one windows row.
    pub fn load(db: &Store, win_id: i64) -> (r: Vec<WindowsShare>)
        ensures
            r@ == shares_of_windows(db@.windows_share, win_id),
    {
        let mut out: Vec<WindowsShare> = Vec::new();
        let mut k: usize = 0;
        while k < db.windows_share.len()
            invariant
                0 <= k <= db@.windows_share.len(),
                out@ == shares_of_windows(db@.windows_share.subrange(0, k as int), win_id),
            decreases db@.windows_share.len() - k,
        {
            proof {
                lemma_shares_of_windows_step(db@.windows_share, win_id, k as int);
            }
            if db.windows_share[k].windows_id == win_id {
                out.push(db.windows_share[k].clone());
            }
            k += 1;
        }
        proof {
            assert(db@.windows_share.subrange(0, db@.windows_share.len() as int) =~= db@.windows_share);
        }
        out
    }
}

impl WindowsPrinter {
    /// Records one SMB printer; insert-only.
    pub fn save(&self, db: &mut Store) -> (r: Result<(), String>)
        requires
            old(db).wf(),
            windows_exists(old(db)@.windows, self.windows_id),
        ensures
            final(db).wf(),
            r is Ok,
            final(db)@ == (StoreV { windows_printer: old(db)@.windows_printer.push(*self), ..old(db)@ }),
    {
        db.windows_printer.push(self.clone());
        proof {
            assert(db@.scans =~= old(db)@.scans);
            assert(db@.logs =~= old(db)@.logs);
            assert(db@.hosts =~= old(db)@.hosts);
            assert(db@.history =~= old(db)@.history);
            assert(db@.routing =~= old(db)@.routing);
            assert(db@.ports =~= old(db)@.ports);
            assert(db@.cves =~= old(db)@.cves);
            assert(db@.windows =~= old(db)@.windows);
            assert(db@.windows_info =~= old(db)@.windows_info);
            assert(db@.windows_domain =~= old(db)@.windows_domain);
            assert(db@.windows_share =~= old(db)@.windows_share);
            assert(db@.script_scans =~= old(db)@.script_scans);
            assert(db@.script_results =~= old(db)@.script_results);
            assert(db@.wf());
        }
        Ok(())
    }

    /// The printers of one windows row.
    pub fn load(db: &Store, win_id: i64) -> (r: Vec<WindowsPrinter>)
        ensures
            r@ == printers_of_windows(db@.windows_printer, win_id),
    {
        let mut out: Vec<WindowsPrinter> = Vec::new();
        let mut k: usize = 0;
        while k < db.windows_printer.len()
            invariant
                0 <= k <= db@.windows_printer.len(),
                out@ == printers_of_windows(db@.windows_printer.subrange(0, k as int), win_id),
            decreases db@.windows_printer.len() - k,
        {
            proof {
                lemma_printers_of_windows_step(db@.windows_printer, win_id, k as int);
            }
            if db.windows_printer[k].windows_id == win_id {
                out.push(db.windows_printer[k].clone());
            }
            k += 1;
        }
        proof {
            assert(db@.windows_printer.subrange(0, db@.windows_printer.len() as int) =~= db@.windows_printer);
        }
        out
    }
}

impl ScriptScan {
    /// Records one script run under a fresh id; an already-saved row cannot
    /// be changed.
    pub fn save(&mut self, db: &mut Store) -> (r: Result<(), String>)
        requires
            old(db).wf(),
            old(db)@.script_scans.len() < 0x7fff_ffff_ffff_ffff,
            old(self).id <= 0 ==> hist_exists(old(db)@.history, old(self).hist_id),
        ensures
            final(db).wf(),
            (r is Ok) == (old(self).id <= 0),
            old(self).id <= 0 ==> {
                &&& *final(self) == (ScriptScan { id: final(self).id, ..*old(self) })
                &&& final(self).id >= 1
                &&& !script_scan_exists(old(db)@.script_scans, final(self).id)
                &&& (forall|i: int|
                    0 <= i < old(db)@.script_scans.len() ==> (#[trigger] old(db)@.script_scans[i]).id
                        < final(self).id)
                &&& final(db)@ == (StoreV { script_scans: old(db)@.script_scans.push(*final(self)), ..old(db)@ })
            },
            old(self).id > 0 ==> *final(self) == *old(self) && final(db)@ == old(db)@,
    {
        if self.id <= 0 {
            self.id = db.next_script_scan_id();
            db.script_scans.push(self.clone());
            proof {
                lemma_script_scan_push(old(db)@.script_scans, *self);
                assert(db@.scans =~= old(db)@.scans);
                assert(db@.logs =~= old(db)@.logs);
                assert(db@.hosts =~= old(db)@.hosts);
                assert(db@.history =~= old(db)@.history);
                assert(db@.routing =~= old(db)@.routing);
                assert(db@.ports =~= old(db)@.ports);
                assert(db@.cves =~= old(db)@.cves);
                assert(db@.windows =~= old(db)@.windows);
                assert(db@.windows_info =~= old(db)@.windows_info);
                assert(db@.windows_domain =~= old(db)@.windows_domain);
                assert(db@.windows_share =~= old(db)@.windows_share);
                assert(db@.windows_printer =~= old(db)@.windows_printer);
                assert(db@.script_results =~= old(db)@.script_results);
                assert(db@.wf());
            }
            Ok(())
        } else {
            proof {
                assert(db@ =~= old(db)@);
            }
            Err(String::from_str("a saved script scan can not be changed"))
        }
    }

    /// The script runs recorded on one history row.
    pub fn load(db: &Store, hist_id: i64) -> (r: Vec<ScriptScan>)
        ensures
            r@ == scripts_of_hist(db@.script_scans, hist_id),
    {
        let mut out: Vec<ScriptScan> = Vec::new();
        let mut k: usize = 0;
        while k < db.script_scans.len()
            invariant
                0 <= k <= db@.script_scans.len(),
                out@ == scripts_of_hist(db@.script_scans.subrange(0, k as int), hist_id),
            decreases db@.script_scans.len() - k,
        {
            proof {
                lemma_scripts_of_hist_step(db@.script_scans, hist_id, k as int);
            }
            if db.script_scans[k].hist_id == hist_id {
                out.push(db.script_scans[k].clone());
            }
            k += 1;
        }
        proof {
            assert(db@.script_scans.subrange(0, db@.script_scans.len() as int) =~= db@.script_scans);
        }
        out
    }
}

impl ScriptResult {
    /// Records one script result pair; insert-only.
    pub fn save(&self, db: &mut Store) -> (r: Result<(), String>)
        requires
            old(db).wf(),
            script_scan_exists(old(db)@.script_scans, self.script_id),
        ensures
            final(db).wf(),
            r is Ok,
            final(db)@ == (StoreV { script_results: old(db)@.script_results.push(*self), ..old(db)@ }),
    {
        db.script_results.push(self.clone());
        proof {
            assert(db@.scans =~= old(db)@.scans);
            assert(db@.logs =~= old(db)@.logs);
            assert(db@.hosts =~= old(db)@.hosts);
            assert(db@.history =~= old(db)@.history);
            assert(db@.routing =~= old(db)@.routing);
            assert(db@.ports =~= old(db)@.ports);
            assert(db@.cves =~= old(db)@.cves);
            assert(db@.windows =~= old(db)@.windows);
            assert(db@.windows_info =~= old(db)@.windows_info);
            assert(db@.windows_domain =~= old(db)@.windows_domain);
            assert(db@.windows_share =~= old(db)@.windows_share);
            assert(db@.windows_printer =~= old(db)@.windows_printer);
            assert(db@.script_scans =~= old(db)@.script_scans);
            assert(db@.wf());
        }
        Ok(())
    }

    /// The result pairs of one script run.
    pub fn load(db: &Store, script_scan_id: i64) -> (r: Vec<ScriptResult>)
        ensures
            r@ == results_of_script(db@.script_results, script_scan_id),
    {
        let mut out: Vec<ScriptResult> = Vec::new();
        let mut k: usize = 0;
        while k < db.script_results.len()
            invariant
                0 <= k <= db@.script_results.len(),
                out@ == results_of_script(db@.script_results.subrange(0, k as int), script_scan_id),
            decreases db@.script_results.len() - k,
        {
            proof {
                lemma_results_of_script_step(db@.script_results, script_scan_id, k as int);
            }
            if db.script_results[k].script_id == script_scan_id {
                out.push(db.script_results[k].clone());
            }
            k += 1;
        }
        proof {
            assert(db@.script_results.subrange(0, db@.script_results.len() as int) =~= db@.script_results);
        }
        out
    }
}

} // verus!
