use network_discover::local_net::{parse_routes, parse_local_addresses, parse_interfaces, LocalNet, Route};
use network_discover::scan::{open_scan, close_scan, persist_draft};
use network_discover::store::{Store, SCAN_END_SENTINEL};
use network_discover::probe;
use network_discover::webview::{get_info, network_view, map_network_db_results};

#[test]
fn kernel_routes_parse() {
    let text = b"default via 10.0.0.1 dev eth0 proto dhcp src 10.0.0.5 metric 100\n\
10.0.0.0/24 dev eth0 proto kernel scope link src 10.0.0.5 metric 100\n\
172.16.0.0/16 via 10.0.0.254 dev eth1\n";
    let routes = parse_routes(text);
    assert_eq!(routes.len(), 2);
    assert_eq!(routes[0].network.as_deref(), Some("10.0.0.0"));
    assert_eq!(routes[0].netmask, 24);
    assert_eq!(routes[0].device, "eth0");
    assert_eq!(routes[0].metric, 100);
    // its source also carries the default route: it is the default path
    assert!(routes[0].is_default);
    assert_eq!(routes[0].router.as_deref(), Some("10.0.0.1"));
    assert_eq!(routes[0].link.as_deref(), Some("10.0.0.5"));
    assert!(!routes[1].is_default);
    assert_eq!(routes[1].router.as_deref(), Some("10.0.0.254"));
    assert!(routes[1].link.is_none());
}

#[test]
fn local_addresses_attach_routes() {
    let route_text = b"default via 10.0.0.1 dev eth0 src 10.0.0.5\n\
10.0.0.0/24 dev eth0 proto kernel scope link src 10.0.0.5\n";
    let routes = parse_routes(route_text);
    let addr_text = b"    inet 10.0.0.5/24 brd 10.0.0.255 scope global eth0\n\
    inet6 fe80::1/64 scope link\n";
    let nets = parse_local_addresses(addr_text, &routes);
    assert_eq!(nets.len(), 2);
    assert_eq!(nets[0].ipaddr.as_deref(), Some("10.0.0.5"));
    assert_eq!(nets[0].network, 24);
    assert_eq!(nets[0].routes.len(), 1);
    let local = LocalNet { networks: nets };
    let default = local.default_network().unwrap();
    assert_eq!(default.ipaddr.as_deref(), Some("10.0.0.5"));
    assert_eq!(default.default_route().unwrap().router.as_deref(), Some("10.0.0.1"));
    assert_eq!(local.get_ip_for_network("10.0.0.0/24").unwrap(), "10.0.0.5");
    assert!(local.get_ip_for_network("172.16.0.0/16").is_err());
}

#[test]
fn interfaces_parse() {
    let text = b"1: lo: <LOOPBACK,UP> mtu 65536\n    link/loopback 00:00\n2: eth0: <BROADCAST> mtu 1500\n";
    let names = parse_interfaces(text);
    assert_eq!(names, vec![String::from("lo"), String::from("eth0")]);
}

#[test]
fn route_render() {
    let r = Route {
        network: Some(String::from("10.0.0.0")),
        netmask: 24,
        metric: 0,
        device: String::from("eth0"),
        is_default: false,
        router: None,
        link: None,
    };
    assert_eq!(r.to_string(), "10.0.0.0/24");
}

#[test]
fn scan_open_close_persist() {
    let mut db = Store::new();
    let scan_id = open_scan(&mut db);
    assert_eq!(scan_id, 1);
    assert_eq!(db.current_scan_id, 1);
    assert_eq!(db.scans[0].end_time, SCAN_END_SENTINEL);
    let mut draft = probe::Host::draft(String::from("n"), String::from("10.0.0.7"), true);
    persist_draft(&mut draft, &mut db);
    assert!(draft.db_id >= 1);
    assert!(draft.db_hist_id >= 1);
    assert_eq!(db.hosts.len(), 1);
    close_scan(&mut db, scan_id);
    assert!(db.scans[0].end_time != SCAN_END_SENTINEL);
    assert!(db.scans[0].end_time >= db.scans[0].start_time);
}

#[test]
fn workers_keep_routing_apart() {
    // two drafts of the same scan: each one's routing edges leave its own
    // observation only
    let mut db = Store::new();
    let mut scan = network_discover::store::Scan::begin(100);
    scan.save(&mut db).unwrap();
    db.current_scan_id = scan.scan;
    let mut a = probe::Host::draft(String::from("n"), String::from("10.0.0.7"), true);
    a.hops.push(String::from("10.0.0.1"));
    a.hops.push(String::from("10.0.0.7"));
    let mut b = probe::Host::draft(String::from("n"), String::from("10.0.0.8"), true);
    b.hops.push(String::from("10.0.0.2"));
    b.hops.push(String::from("10.0.0.8"));
    a.save_to_db(&mut db, "t0");
    b.save_to_db(&mut db, "t0");
    assert!(a.db_hist_id != b.db_hist_id);
    for edge in &db.routing {
        assert!(edge.left == a.db_hist_id || edge.left == b.db_hist_id);
        assert!(edge.left != edge.right);
    }
    let a_edges = network_discover::store::Routing::from_host(&db, a.db_hist_id, 1);
    let b_edges = network_discover::store::Routing::from_host(&db, b.db_hist_id, 1);
    assert_eq!(a_edges.len(), 1);
    assert_eq!(b_edges.len(), 1);
    assert!(a_edges[0].right != b_edges[0].right);
}

#[test]
fn host_info_view() {
    let mut db = Store::new();
    let mut scan = network_discover::store::Scan::begin(100);
    scan.save(&mut db).unwrap();
    db.current_scan_id = scan.scan;
    let mut a = probe::Host::draft(String::from("n"), String::from("10.0.0.7"), true);
    a.os = Some(String::from("Linux"));
    a.services.push(probe::Service {
        port: 80,
        protocol: probe::Protocol::TCP,
        state: probe::State::OPEN,
        name: String::from("http"),
        product: String::new(),
        version: String::new(),
        vulns: Vec::new(),
    });
    a.save_to_db(&mut db, "t0");
    a.update_host_information(&mut db);
    a.save_services_to_db(&mut db);

    let info = get_info(&db, "n", 1, a.db_hist_id).unwrap();
    assert_eq!(info.ip, "10.0.0.7");
    assert_eq!(info.os, "Linux");
    assert_eq!(info.ports.len(), 1);
    assert_eq!(info.ports[0].port, 80);
    assert!(info.windows.is_none());
    assert!(get_info(&db, "n", 1, 999).is_none());

    let view = network_view(&db, "n", 1);
    assert_eq!(view.len(), 1);
    assert_eq!(view[0].ip, "10.0.0.7");
    assert!(!view[0].is_removed);
    assert_eq!(view[0].first_scan, 1);
    assert_eq!(view[0].last_scan, 1);

    let row = &network_discover::store::Host::list_from_network(&db, "n", 1)[0];
    let mapped = map_network_db_results(&db, row, 1, false);
    assert_eq!(mapped.id, a.db_hist_id);
    assert!(!mapped.has_cve);
    assert!(!mapped.extended);
}
