use network_discover::store::{Store, Scan, Host, HostHistory, Cve, SCAN_END_SENTINEL};
use network_discover::probe;
use network_discover::report::Csv;
use network_discover::supervisor::{ScanStatus, StartDecision, timer_enabled, timer_tick};

fn draft(network: &str, ip: &str) -> probe::Host {
    probe::Host::draft(String::from(network), String::from(ip), true)
}

fn open_scan_at(db: &mut Store, start: i64) -> i64 {
    let mut scan = Scan::begin(start);
    scan.save(db).unwrap();
    db.current_scan_id = scan.scan;
    scan.scan
}

fn ssh_service() -> probe::Service {
    probe::Service {
        port: 22,
        protocol: probe::Protocol::TCP,
        state: probe::State::OPEN,
        name: String::from("ssh"),
        product: String::from("OpenSSH"),
        version: String::from("8.9"),
        vulns: Vec::new(),
    }
}

#[test]
fn scan_lifecycle_times() {
    let mut db = Store::new();
    let mut scan = Scan::begin(1000);
    assert_eq!(scan.end_time, SCAN_END_SENTINEL);
    scan.save(&mut db).unwrap();
    assert_eq!(scan.scan, 1);
    scan.end_scan(&mut db, 1500).unwrap();
    assert!(scan.end_time >= scan.start_time);
    assert!(scan.end_time != SCAN_END_SENTINEL);
    let loaded = Scan::load(&db, 1).unwrap();
    assert_eq!(loaded.start_time, 1000);
    assert_eq!(loaded.end_time, 1500);
}

#[test]
fn scan_end_clamps_backward_clock() {
    let mut db = Store::new();
    let mut scan = Scan::begin(2000);
    scan.save(&mut db).unwrap();
    scan.end_scan(&mut db, 100).unwrap();
    assert_eq!(scan.end_time, 2000);
}

#[test]
fn persist_scenario_counts() {
    // one scan over 192.0.2.0/24: .1 responds bare, .10 runs ssh and routes
    // through .1
    let mut db = Store::new();
    open_scan_at(&mut db, 1000);

    let mut one = draft("192.0.2.0/24", "192.0.2.1");
    one.hops.push(String::from("192.0.2.1"));
    one.save_to_db(&mut db, "t0");
    one.update_host_information(&mut db);
    one.save_services_to_db(&mut db);

    let mut ten = draft("192.0.2.0/24", "192.0.2.10");
    ten.hops.push(String::from("192.0.2.1"));
    ten.hops.push(String::from("192.0.2.10"));
    ten.services.push(ssh_service());
    ten.os = Some(String::from("Linux"));
    ten.save_to_db(&mut db, "t0");
    ten.update_host_information(&mut db);
    ten.save_services_to_db(&mut db);

    assert_eq!(db.hosts.len(), 2);
    assert_eq!(db.history.len(), 2);
    assert_eq!(db.routing.len(), 1);
    assert_eq!(db.ports.len(), 1);
    assert_eq!(db.cves.len(), 0);
    assert_eq!(db.routing[0].left, ten.db_hist_id);
    let one_hist = HostHistory::load_from_scan_and_host(&db, 1, "192.0.2.1").unwrap();
    assert_eq!(db.routing[0].right, one_hist.id);
    assert_eq!(db.ports[0].protocol, "TCP");
    assert_eq!(db.ports[0].port, 22);
    assert_eq!(db.ports[0].service, "ssh 8.9");
}

#[test]
fn persist_reload_equivalent_host() {
    // a persisted draft comes back out of the hosts-in-scan query
    let mut db = Store::new();
    open_scan_at(&mut db, 1000);
    let mut ten = draft("192.0.2.0/24", "192.0.2.10");
    ten.os = Some(String::from("Linux"));
    ten.save_to_db(&mut db, "t0");
    ten.update_host_information(&mut db);
    let rows = Host::list_from_network(&db, "192.0.2.0/24", 1);
    assert_eq!(rows.len(), 1);
    assert_eq!(rows[0].ip, "192.0.2.10");
    assert_eq!(rows[0].network, "192.0.2.0/24");
    assert_eq!(rows[0].os, "Linux");
    assert_eq!(rows[0].hist_id, ten.db_hist_id);
}

#[test]
fn persist_is_idempotent_per_scan() {
    // a second persist of the same draft in the same scan creates no second
    // observation
    let mut db = Store::new();
    open_scan_at(&mut db, 1000);
    let mut a = draft("192.0.2.0/24", "192.0.2.10");
    a.save_to_db(&mut db, "t0");
    let before = db.history.len();
    let first_hist = a.db_hist_id;
    let mut again = draft("192.0.2.0/24", "192.0.2.10");
    again.save_to_db(&mut db, "t1");
    assert_eq!(db.history.len(), before);
    assert_eq!(again.db_hist_id, first_hist);
}

#[test]
fn routing_chain_gateway() {
    // chain a -> b -> c -> target: the target's gateway is c
    let mut db = Store::new();
    open_scan_at(&mut db, 1000);
    let mut target = draft("10.0.0.0/24", "10.0.0.99");
    target.hops.push(String::from("10.0.0.1"));
    target.hops.push(String::from("10.0.0.2"));
    target.hops.push(String::from("10.0.0.3"));
    target.hops.push(String::from("10.0.0.99"));
    target.save_to_db(&mut db, "t0");
    let gw = Host::get_gateway(&db, target.db_hist_id, 1).unwrap();
    assert_eq!(gw.ip, "10.0.0.3");
}

#[test]
fn removed_between_scans() {
    // .1 and .10 in the first scan, only .10 in the second: .1 was removed
    let mut db = Store::new();
    open_scan_at(&mut db, 1000);
    let mut one = draft("192.0.2.0/24", "192.0.2.1");
    one.save_to_db(&mut db, "t0");
    let mut ten = draft("192.0.2.0/24", "192.0.2.10");
    ten.save_to_db(&mut db, "t0");
    open_scan_at(&mut db, 2000);
    let mut ten2 = draft("192.0.2.0/24", "192.0.2.10");
    ten2.save_to_db(&mut db, "t1");
    let removed = Host::list_removed_from_network(&db, "192.0.2.0/24", 2);
    assert_eq!(removed.len(), 1);
    assert_eq!(removed[0].ip, "192.0.2.1");
}

#[test]
fn emerge_and_last_change() {
    let mut db = Store::new();
    open_scan_at(&mut db, 1000);
    let mut a1 = draft("n", "10.0.0.5");
    a1.os = Some(String::from("Linux 5"));
    a1.save_to_db(&mut db, "t0");
    open_scan_at(&mut db, 2000);
    let mut a2 = draft("n", "10.0.0.5");
    a2.os = Some(String::from("Linux 6"));
    a2.save_to_db(&mut db, "t1");
    let first = Host::find_first_emerge(&db, "10.0.0.5").unwrap();
    let last = Host::find_last_emerge(&db, "10.0.0.5").unwrap();
    assert_eq!(first.scan, 1);
    assert_eq!(last.scan, 2);
    // the newest observation whose os differs from its predecessor's
    let change = Host::find_last_change(&db, "10.0.0.5", 2).unwrap();
    assert_eq!(change.scan, 2);
}

#[test]
fn scan_listing_orders_and_flags() {
    let mut db = Store::new();
    open_scan_at(&mut db, 1000);
    let mut a = draft("n", "10.0.0.5");
    a.save_to_db(&mut db, "t0");
    open_scan_at(&mut db, 2000);
    let mut b = draft("n", "10.0.0.6");
    b.save_to_db(&mut db, "t1");
    let scans = Scan::list_from_network(&db, "n", None, None);
    assert_eq!(scans.len(), 2);
    assert_eq!(scans[0].scan, 2);
    assert_eq!(scans[1].scan, 1);
    // the newest row is always flagged; scan 2 also lost 10.0.0.5
    assert!(scans[0].changed);
}

#[test]
fn csv_export_line() {
    let mut db = Store::new();
    open_scan_at(&mut db, 1000);
    let mut one = draft("192.0.2.0/24", "192.0.2.1");
    one.save_to_db(&mut db, "t0");
    let mut ten = draft("192.0.2.0/24", "192.0.2.10");
    ten.hops.push(String::from("192.0.2.1"));
    ten.hops.push(String::from("192.0.2.10"));
    ten.services.push(ssh_service());
    ten.os = Some(String::from("Linux"));
    ten.save_to_db(&mut db, "t0");
    ten.update_host_information(&mut db);
    ten.save_services_to_db(&mut db);
    let csv = Csv::export(&mut db, String::from("192.0.2.0/24"), 1);
    let lines: Vec<&str> = csv.split('\n').collect();
    assert_eq!(lines[0], "ID;IP;Network;Parent;OS;Ports");
    assert_eq!(lines.len(), 3);
    // neither host carries a vulnerability, so the listing orders by address
    assert_eq!(lines[1], "1;192.0.2.1;192.0.2.0/24;0.0.0.0;Unknown;");
    assert_eq!(lines[2], "2;192.0.2.10;192.0.2.0/24;192.0.2.1;Linux;tcp/22");
}

#[test]
fn cve_listing_sorted() {
    let mut db = Store::new();
    open_scan_at(&mut db, 1000);
    let mut a = draft("n", "10.0.0.5");
    a.save_to_db(&mut db, "t0");
    let hist = a.db_hist_id;
    for (port, cvss) in [(80, 50u32), (22, 98u32), (443, 98u32)] {
        let mut cve = Cve {
            host_history_id: hist,
            port,
            database: String::from("cve"),
            type_id: format!("CVE-{}", port),
            cvss,
            is_exploit: String::from("false"),
            scan: 1,
            comment: String::new(),
        };
        cve.save(&mut db).unwrap();
    }
    let listed = Cve::from_host_hist(&db, hist);
    assert_eq!(listed.len(), 3);
    assert_eq!(listed[0].port, 22);
    assert_eq!(listed[1].port, 443);
    assert_eq!(listed[2].port, 80);
}

#[test]
fn id_allocation_is_distinct() {
    // two inserts into the same table get distinct, increasing ids
    let mut db = Store::new();
    let mut s1 = Scan::begin(10);
    s1.save(&mut db).unwrap();
    let mut s2 = Scan::begin(20);
    s2.save(&mut db).unwrap();
    assert_eq!(s1.scan, 1);
    assert_eq!(s2.scan, 2);
    assert!(s1.scan != s2.scan);
}

#[test]
fn single_flight_guard() {
    // the second start while one runs reports Running and changes nothing
    let mut status = ScanStatus::idle();
    let first = status.try_start();
    assert!(matches!(first, StartDecision::Started));
    let second = status.try_start();
    assert!(matches!(second, StartDecision::Running));
    // only the Started decision opens a scan, so exactly one row appears
    let mut db = Store::new();
    let mut opened = 0;
    for d in [first, second] {
        if matches!(d, StartDecision::Started) {
            let mut scan = Scan::begin(1000);
            scan.save(&mut db).unwrap();
            opened += 1;
        }
    }
    assert_eq!(opened, 1);
    assert_eq!(db.scans.len(), 1);
    status.finish();
    assert!(!status.running);
    assert!(status.paused);
}

#[test]
fn timer_disabled_at_zero() {
    assert!(!timer_enabled(0));
    assert!(timer_enabled(1));
    let (c1, fired1) = timer_tick(0, 3600);
    assert!(!fired1);
    assert_eq!(c1, 1);
    let (c2, fired2) = timer_tick(3600, 3600);
    assert!(fired2);
    assert_eq!(c2, 0);
}

#[test]
fn windows_rows_persisted() {
    let mut db = Store::new();
    open_scan_at(&mut db, 1000);
    let mut a = draft("n", "10.0.0.5");
    a.save_to_db(&mut db, "t0");
    a.windows = Some(probe::Windows {
        info: Some(probe::WindowsInfo {
            native_lan_manager: Some(String::from("Samba")),
            native_os: None,
            os_name: None,
            os_build: None,
            os_release: None,
            os_version: None,
            platform: None,
            server_type: None,
            server_string: None,
        }),
        domain: None,
        shares: vec![probe::WindowsShare {
            name: Some(String::from("public")),
            comment: None,
            share_type: Some(String::from("Disk")),
            access: Vec::new(),
        }],
        printers: Vec::new(),
    });
    a.save_windows_information(&mut db);
    assert_eq!(db.windows.len(), 1);
    assert_eq!(db.windows_info.len(), 1);
    assert_eq!(db.windows_domain.len(), 0);
    assert_eq!(db.windows_share.len(), 1);
    assert_eq!(db.windows_info[0].native_lan_manager, "Samba");
    assert_eq!(db.windows_info[0].native_os, "");
    assert_eq!(db.windows_share[0].name, "public");
}

#[test]
fn probe_failure_leaves_host_bare() {
    // a failing probe hands back a draft with no services and no os: the
    // observation exists with no ports and the Unknown snapshot
    let mut db = Store::new();
    open_scan_at(&mut db, 1000);
    let mut a = draft("192.0.2.0/24", "192.0.2.10");
    a.save_to_db(&mut db, "t0");
    a.update_host_information(&mut db);
    a.save_services_to_db(&mut db);
    assert_eq!(db.history.len(), 1);
    assert_eq!(db.ports.len(), 0);
    assert_eq!(db.history[0].os, "Unknown");
}
