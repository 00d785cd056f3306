//! The data-model guarantees, stated on their own: what holds of every
//! well-formed store, spelled out over the row sequences.  Every store the
//! library's operations produce is well-formed, so these hold of each.

use vstd::prelude::*;
use crate::store::{StoreV, Host, scan_exists, host_exists, hist_exists, hist_pair_exists};
use crate::temporal::{removed_rows, removed_pred, hist_prev_of, joined_row};
use crate::entities::ip_host_id;

verus! {

/// Every observation references exactly one scan and exactly one host: a
/// referenced scan row exists, a referenced host row exists, and two rows
/// never share an id.
pub proof fn lemma_history_references(v: StoreV)
    requires
        v.wf(),
    ensures
        forall|i: int|
            0 <= i < v.history.len() ==> scan_exists(v.scans, (#[trigger] v.history[i]).scan)
                && host_exists(v.hosts, v.history[i].host_id),
        forall|i: int, j: int|
            0 <= i < j < v.scans.len() ==> (#[trigger] v.scans[i]).scan != (#[trigger] v.scans[j]).scan,
        forall|i: int, j: int|
            0 <= i < j < v.hosts.len() ==> (#[trigger] v.hosts[i]).id != (#[trigger] v.hosts[j]).id,
{
}

/// A completed scan closes no earlier than it started: every stored scan
/// row keeps its start at or before its end (a scan still in flight holds
/// the far-future sentinel as its end).
pub proof fn lemma_scan_times(v: StoreV)
    requires
        v.wf(),
    ensures
        forall|i: int|
            0 <= i < v.scans.len() ==> (#[trigger] v.scans[i]).start_time <= v.scans[i].end_time,
{
}

/// Every per-scan child row hangs off an existing observation: port, CVE,
/// SMB and routing rows all reference history rows that exist.
pub proof fn lemma_child_references(v: StoreV)
    requires
        v.wf(),
    ensures
        forall|i: int|
            0 <= i < v.ports.len() ==> hist_exists(v.history, (#[trigger] v.ports[i]).host_history_id),
        forall|i: int|
            0 <= i < v.cves.len() ==> hist_exists(v.history, (#[trigger] v.cves[i]).host_history_id),
        forall|i: int|
            0 <= i < v.windows.len() ==> hist_exists(v.history, (#[trigger] v.windows[i]).hist_id),
        forall|i: int|
            0 <= i < v.routing.len() ==> hist_exists(v.history, (#[trigger] v.routing[i]).left)
                && hist_exists(v.history, v.routing[i].right),
{
}

/// The routing snapshot never records a self-loop: the two ends of every
/// edge differ.
pub proof fn lemma_no_self_loops(v: StoreV)
    requires
        v.wf(),
    ensures
        forall|i: int|
            0 <= i < v.routing.len() ==> (#[trigger] v.routing[i]).left != v.routing[i].right,
{
}

/// For one address and one scan there is at most one observation: two
/// history rows observing the same host in the same scan are the same row,
/// and two host rows carrying the same address are the same row.  With the
/// persist step's guarantee that an observation exists afterwards, each
/// address present in a scan has exactly one observation there.
pub proof fn lemma_one_observation_per_scan(v: StoreV, scan: i64, ip: Seq<char>, i: int, j: int)
    requires
        v.wf(),
        0 <= i < v.history.len(),
        0 <= j < v.history.len(),
        v.history[i].scan == scan,
        v.history[j].scan == scan,
        v.history[i].host_id == ip_host_id(v.hosts, ip),
        v.history[j].host_id == ip_host_id(v.hosts, ip),
    ensures
        i == j,
{
    if i < j {
        assert(!(v.history[i].scan == v.history[j].scan && v.history[i].host_id == v.history[j].host_id));
    } else if j < i {
        assert(!(v.history[j].scan == v.history[i].scan && v.history[j].host_id == v.history[i].host_id));
    }
}

/// When exactly one host of the network left between the previous scan and
/// this one, the removed-between listing is exactly that host's joined row.
pub proof fn lemma_removed_between_single(v: StoreV, network: Seq<char>, scan: i64, i: int)
    requires
        v.wf(),
        0 <= i < v.hosts.len(),
        removed_pred(v, network, scan, v.hosts[i]),
        forall|j: int|
            0 <= j < v.hosts.len() && j != i ==> !removed_pred(v, network, scan, #[trigger] v.hosts[j]),
    ensures
        removed_rows(v, network, scan).len() == 1,
        removed_rows(v, network, scan)[0] == joined_row(
            v.hosts[i],
            hist_prev_of(v.history, scan, v.hosts[i].id),
        ),
{
    lemma_removed_single_prefix(v, network, scan, i, v.hosts.len() as int);
    assert(v.hosts.subrange(0, v.hosts.len() as int) =~= v.hosts);
}

/// The removed-host filter of a prefix holds nothing before the single
/// qualifying host and exactly that host afterwards.
proof fn lemma_removed_single_prefix(v: StoreV, network: Seq<char>, scan: i64, i: int, k: int)
    requires
        v.wf(),
        0 <= i < v.hosts.len(),
        removed_pred(v, network, scan, v.hosts[i]),
        forall|j: int|
            0 <= j < v.hosts.len() && j != i ==> !removed_pred(v, network, scan, #[trigger] v.hosts[j]),
        0 <= k <= v.hosts.len(),
    ensures
        v.hosts.subrange(0, k).filter(|h: Host| removed_pred(v, network, scan, h)) == if k <= i {
            Seq::<Host>::empty()
        } else {
            seq![v.hosts[i]]
        },
    decreases k,
{
    if k == 0 {
        reveal(Seq::filter);
        assert(v.hosts.subrange(0, 0) =~= Seq::<Host>::empty());
    } else {
        lemma_removed_single_prefix(v, network, scan, i, k - 1);
        crate::temporal::lemma_removed_rows_step(v, network, scan, k - 1);
        if k - 1 == i {
            assert(v.hosts.subrange(0, k).filter(|h: Host| removed_pred(v, network, scan, h)) =~= seq![
                v.hosts[i],
            ]);
        }
    }
}

/// A host of the network present in the scan before this one and absent in
/// it appears in the removed-between listing, joined with its previous
/// observation.
pub proof fn lemma_removed_between(v: StoreV, network: Seq<char>, scan: i64, i: int)
    requires
        v.wf(),
        0 <= i < v.hosts.len(),
        removed_pred(v, network, scan, v.hosts[i]),
    ensures
        removed_rows(v, network, scan).contains(
            joined_row(v.hosts[i], hist_prev_of(v.history, scan, v.hosts[i].id)),
        ),
{
    broadcast use vstd::seq_lib::group_filter_ensures;

    let filtered = v.hosts.filter(|h: Host| removed_pred(v, network, scan, h));
    assert(filtered.contains(v.hosts[i]));
    let w = choose|w: int| 0 <= w < filtered.len() && filtered[w] == v.hosts[i];
    assert(removed_rows(v, network, scan)[w] == joined_row(
        v.hosts[i],
        hist_prev_of(v.history, scan, v.hosts[i].id),
    ));
}

} // verus!
