//! The scan pipeline's storage steps: opening and closing the scan row
//! that anchors a pass, and the per-host persist sequence a worker runs
//! after its probes.

use vstd::prelude::*;
use crate::store::{Store, StoreV, Scan, scan_exists, hist_exists};
use crate::probe::Host;

verus! {

/// Relies on `chrono::Utc::now` and `timestamp`: the current time as
/// seconds; depends on the clock, so nothing holds of the value.  The
/// clock crate refuses a system time before the epoch, as the probe tools
/// it schedules would.
#[verifier::external_body]
fn now_seconds() -> (r: i64)
{
    chrono::Utc::now().timestamp()
}

/// Relies on `chrono::Utc::now` and its display form: the current time as
/// text; depends on the clock, so nothing holds of the text.
#[verifier::external_body]
fn now_text() -> (r: String)
{
    format!("{}", chrono::Utc::now())
}

/// Opens a pass: allocates the scan row that anchors it, stamped with the
/// clock, and points the store's current scan id at it.  The new scan is
/// in flight: its end holds the far-future sentinel.
pub fn open_scan(db: &mut Store) -> (r: i64)
    requires
        old(db).wf(),
        old(db)@.scans.len() < 0x7fff_ffff_ffff_ffff,
    ensures
        final(db).wf(),
        r >= 1,
        final(db)@.current_scan_id == r,
        scan_exists(final(db)@.scans, r),
        !scan_exists(old(db)@.scans, r),
        final(db)@.scans == old(db)@.scans.push(final(db)@.scans.last()),
        final(db)@.scans.last().scan == r,
        final(db)@.scans.last().end_time == crate::store::SCAN_END_SENTINEL,
        final(db)@.scans.last().start_time < crate::store::SCAN_END_SENTINEL,
        final(db)@ == (StoreV {
            scans: final(db)@.scans,
            current_scan_id: r,
            ..old(db)@
        }),
{
    let now = now_seconds();
    let mut scan = Scan::begin(now);
    let _res = scan.save(db);
    let ghost mid = db@;
    db.current_scan_id = scan.scan;
    proof {
        assert(db@.scans =~= mid.scans);
        assert(db@.logs =~= mid.logs);
        assert(db@.hosts =~= mid.hosts);
        assert(db@.history =~= mid.history);
        assert(db@.routing =~= mid.routing);
        assert(db@.ports =~= mid.ports);
        assert(db@.cves =~= mid.cves);
        assert(db@.windows =~= mid.windows);
        assert(db@.windows_info =~= mid.windows_info);
        assert(db@.windows_domain =~= mid.windows_domain);
        assert(db@.windows_share =~= mid.windows_share);
        assert(db@.windows_printer =~= mid.windows_printer);
        assert(db@.script_scans =~= mid.script_scans);
        assert(db@.script_results =~= mid.script_results);
        assert(db@.wf());
        assert(scan_exists(db@.scans, scan.scan)) by {
            assert(db@.scans[db@.scans.len() - 1].scan == scan.scan);
        }
    }
    scan.scan
}

/// Closes a pass: stamps the scan row's end with the clock, never earlier
/// than its start and never the sentinel.  Closing an id that was never
/// opened changes nothing.
pub fn close_scan(db: &mut Store, scan_id: i64)
    requires
        old(db).wf(),
        old(db)@.scans.len() < 0x7fff_ffff_ffff_ffff,
    ensures
        final(db).wf(),
        final(db)@ == (StoreV { scans: final(db)@.scans, ..old(db)@ }),
        scan_id > 0 && scan_exists(old(db)@.scans, scan_id) ==> exists|i: int|
            0 <= i < old(db)@.scans.len() && (#[trigger] old(db)@.scans[i]).scan == scan_id && (if old(
                db,
            )@.scans[i].start_time < crate::store::SCAN_END_SENTINEL {
                final(db)@.scans == old(db)@.scans.update(
                    i,
                    (Scan {
                        start_time: final(db)@.scans[i].start_time,
                        end_time: final(db)@.scans[i].end_time,
                        ..old(db)@.scans[i]
                    }),
                ) && final(db)@.scans[i].start_time <= final(db)@.scans[i].end_time
                    < crate::store::SCAN_END_SENTINEL
            } else {
                final(db)@.scans == old(db)@.scans
            }),
        !scan_exists(old(db)@.scans, scan_id) ==> final(db)@.scans == old(db)@.scans,
{
    let row = match Scan::load(db, scan_id) {
        Some(s) => s,
        None => {
            proof {
                assert(db@ =~= old(db)@);
            }
            return;
        },
    };
    let mut scan = Scan { scan: row.scan, start_time: row.start_time, end_time: row.end_time, changed: row.changed };
    proof {
        let i = choose|i: int|
            0 <= i < db@.scans.len() && row == (Scan { changed: false, ..#[trigger] db@.scans[i] });
        assert(db@.scans[i].start_time <= db@.scans[i].end_time);
        assert(scan.start_time < crate::store::SCAN_END_SENTINEL || scan.start_time
            >= crate::store::SCAN_END_SENTINEL);
    }
    if scan.start_time >= crate::store::SCAN_END_SENTINEL {
        // a start at or past the sentinel cannot close below it; leave it
        proof {
            assert(db@ =~= old(db)@);
        }
        return;
    }
    let now = now_seconds();
    let _res = scan.end_scan(db, now);
}

/// The per-host persist sequence a worker runs once its probes are done:
/// the persist sub-protocol for the host and its hops, the OS snapshot
/// refresh, and the service and vulnerability rows, all under the store's
/// current scan id.
pub fn persist_draft(host: &mut Host, db: &mut Store)
    requires
        old(db).wf(),
        scan_exists(old(db)@.scans, old(db)@.current_scan_id),
        old(db)@.hosts.len() + old(host).hops@.len() < 0x7fff_ffff_ffff_fffe,
        old(db)@.history.len() + old(host).hops@.len() < 0x7fff_ffff_ffff_fffe,
    ensures
        final(db).wf(),
        final(db)@ == (StoreV {
            hosts: final(db)@.hosts,
            history: final(db)@.history,
            routing: final(db)@.routing,
            ports: final(db)@.ports,
            cves: final(db)@.cves,
            ..old(db)@
        }),
        old(db)@.hosts.is_prefix_of(final(db)@.hosts),
        old(db)@.routing.is_prefix_of(final(db)@.routing),
        old(db)@.ports.is_prefix_of(final(db)@.ports),
        old(db)@.cves.is_prefix_of(final(db)@.cves),
        final(host).db_id >= 1,
        final(host).db_hist_id >= 1,
        crate::store::host_ip_exists(final(db)@.hosts, old(host).ip@),
        crate::store::hist_pair_exists(
            final(db)@.history,
            old(db)@.current_scan_id,
            final(host).db_id,
        ),
        final(db)@.ports.len() == old(db)@.ports.len() + old(host).services@.len(),
{
    let stamp = now_text();
    let ghost scan_id = db@.current_scan_id;
    host.save_to_db(db, stamp.as_str());
    let ghost h_pre = db@.history;
    proof {
        assert(crate::store::hist_pair_exists(h_pre, scan_id, host.db_id));
    }
    host.update_host_information(db);
    proof {
        assert(crate::store::hist_pair_exists(db@.history, scan_id, host.db_id)) by {
            let w = choose|i: int|
                0 <= i < h_pre.len() && (#[trigger] h_pre[i]).scan == scan_id && h_pre[i].host_id
                    == host.db_id;
            assert(db@.history[w].scan == h_pre[w].scan && db@.history[w].host_id == h_pre[w].host_id);
        }
    }
    host.save_services_to_db(db);
    proof {
        assert(old(db)@.ports.is_prefix_of(db@.ports)) by {
            assert(db@.ports.subrange(0, old(db)@.ports.len() as int) =~= old(db)@.ports);
        }
        assert(old(db)@.cves.is_prefix_of(db@.cves));
    }
}

} // verus!
