use network_discover::dhcp::{self, DhcpMessageType, DhcpOption};
use network_discover::scanxml::{xml_events, parse_portscan, parse_discovery};
use network_discover::route::{parse_trace_hops, parse_route_choice, apply_route_output};
use network_discover::textutil::{u64_to_string, i64_to_string, parse_u64, parse_ipv4, ipv4_to_string,
    parse_cvss_tenths, split_ws_tokens};
use network_discover::probe;
use network_discover::store::Store;

/// An Ethernet/IPv4/UDP frame around the given DHCP payload.
fn udp_frame(payload: &[u8]) -> Vec<u8> {
    let mut f = vec![0u8; 14];
    f[12] = 0x08;
    f[13] = 0x00;
    let mut ip = vec![0u8; 20];
    ip[0] = 0x45; // version 4, header length 5 words
    ip[9] = 17; // UDP
    ip[12..16].copy_from_slice(&[10, 0, 0, 9]);
    ip[16..20].copy_from_slice(&[255, 255, 255, 255]);
    f.extend_from_slice(&ip);
    let udp_len = (payload.len() + 8) as u16;
    f.extend_from_slice(&[0, 68, 0, 67]);
    f.extend_from_slice(&udp_len.to_be_bytes());
    f.extend_from_slice(&[0, 0]);
    f.extend_from_slice(payload);
    f
}

/// A 240-byte DHCP header with the given op byte and yiaddr.
fn dhcp_payload(op: u8, yiaddr: [u8; 4], options: &[u8]) -> Vec<u8> {
    let mut p = vec![0u8; 240];
    p[0] = op;
    p[16..20].copy_from_slice(&yiaddr);
    p[236..240].copy_from_slice(&[0x63, 0x82, 0x53, 0x63]);
    p.extend_from_slice(options);
    p
}

#[test]
fn dhcp_offer_names_yiaddr() {
    let payload = dhcp_payload(2, [10, 0, 0, 5], &[255]);
    let frame = udp_frame(&payload);
    let target = dhcp::dhcp_scan_target(&frame);
    assert_eq!(target, Some(0x0a000005));
}

#[test]
fn dhcp_discover_names_option_50() {
    let options = [50u8, 4, 192, 168, 1, 7, 255];
    let payload = dhcp_payload(1, [0, 0, 0, 0], &options);
    let frame = udp_frame(&payload);
    let target = dhcp::dhcp_scan_target(&frame);
    assert_eq!(target, Some(0xc0a80107));
}

#[test]
fn dhcp_discover_without_option_50_names_nothing() {
    let options = [12u8, 2, b'p', b'c', 255];
    let payload = dhcp_payload(1, [0, 0, 0, 0], &options);
    let frame = udp_frame(&payload);
    assert_eq!(dhcp::dhcp_scan_target(&frame), None);
}

#[test]
fn dhcp_short_payload_does_not_parse() {
    let payload = vec![2u8; 120];
    let frame = udp_frame(&payload);
    let packet = dhcp::parse_udp_frame(&frame).unwrap();
    assert!(packet.data.is_none());
    assert_eq!(dhcp::dhcp_scan_target(&frame), None);
}

#[test]
fn dhcp_other_message_types_ignored() {
    let payload = dhcp_payload(3, [10, 0, 0, 5], &[255]);
    let frame = udp_frame(&payload);
    assert_eq!(dhcp::dhcp_scan_target(&frame), None);
}

#[test]
fn dhcp_option_parsing() {
    let data = [53u8, 1, 2, 51, 4, 0x40, 0, 0, 0, 255];
    let options = dhcp::parse_options(&data);
    assert_eq!(options.len(), 2);
    assert!(matches!(options[0], DhcpOption::MessageType(DhcpMessageType::Offer)));
    assert!(matches!(options[1], DhcpOption::LeaseTime(0x40)));
}

#[test]
fn capture_trigger_builds_draft() {
    let payload = dhcp_payload(2, [10, 0, 0, 5], &[255]);
    let frame = udp_frame(&payload);
    let mut db = Store::new();
    let draft = dhcp::process_captured_frame(&mut db, &frame).unwrap();
    assert_eq!(draft.ip, "10.0.0.5");
    assert_eq!(draft.network, "");
    // no scan was ever recorded: the rescan attributes to scan 1
    assert_eq!(db.current_scan_id, 1);
}

#[test]
fn frame_rejections() {
    assert!(matches!(dhcp::parse_udp_frame(&[0u8; 4]), Err(dhcp::FrameError::TooShort)));
    let mut arp = vec![0u8; 40];
    arp[12] = 0x08;
    arp[13] = 0x06;
    assert!(matches!(dhcp::parse_udp_frame(&arp), Err(dhcp::FrameError::Arp)));
    let mut tcp = udp_frame(&[0u8; 8]);
    tcp[23] = 6;
    assert!(matches!(dhcp::parse_udp_frame(&tcp), Err(dhcp::FrameError::NotUdp(6))));
}

const SCAN_XML: &str = "<nmaprun><host><ports><port protocol=\"tcp\" portid=\"22\">\
<state state=\"open\"/><service name=\"ssh\" product=\"OpenSSH\" version=\"8.9\"/>\
<script id=\"vulners\"><table><elem key=\"id\">CVE-0001</elem><elem key=\"type\">cve</elem>\
<elem key=\"is_exploit\">true</elem><elem key=\"cvss\">7.5</elem></table></script>\
</port></ports><os><osmatch name=\"Linux 5.15\"/></os></host></nmaprun>";

#[test]
fn portscan_round_trip() {
    // parse the fixture, persist it, and check the same port set comes out
    let events = xml_events(SCAN_XML);
    let (services, os) = parse_portscan(&events);
    assert_eq!(os.as_deref(), Some("Linux 5.15"));
    assert_eq!(services.len(), 1);
    assert_eq!(services[0].port, 22);
    assert!(matches!(services[0].protocol, probe::Protocol::TCP));
    assert!(matches!(services[0].state, probe::State::OPEN));
    assert_eq!(services[0].name, "ssh");
    assert_eq!(services[0].product, "OpenSSH");
    assert_eq!(services[0].version, "8.9");
    assert_eq!(services[0].vulns.len(), 1);
    assert_eq!(services[0].vulns[0].id, "CVE-0001");
    assert_eq!(services[0].vulns[0].database, "cve");
    assert!(services[0].vulns[0].exploit);
    assert_eq!(services[0].vulns[0].cvss, 75);

    let mut db = Store::new();
    let mut scan = network_discover::store::Scan::begin(1000);
    scan.save(&mut db).unwrap();
    db.current_scan_id = scan.scan;
    let mut host = probe::Host::draft(String::from("n"), String::from("10.0.0.5"), true);
    host.services = services;
    host.os = os;
    host.save_to_db(&mut db, "t0");
    host.save_services_to_db(&mut db);
    let ports = network_discover::store::Port::load(&db, host.db_hist_id);
    assert_eq!(ports.len(), 1);
    assert_eq!(ports[0].port, 22);
    assert_eq!(ports[0].protocol, "TCP");
    assert_eq!(db.cves.len(), 1);
    assert_eq!(db.cves[0].cvss, 75);
}

#[test]
fn empty_xml_yields_nothing() {
    let events = xml_events("");
    let (services, os) = parse_portscan(&events);
    assert!(services.is_empty());
    assert!(os.is_none());
}

#[test]
fn discovery_lists_addresses() {
    let xml = "<nmaprun><host><address addr=\"192.0.2.1\" addrtype=\"ipv4\"/></host>\
<host><address addr=\"aa:bb\" addrtype=\"mac\"/></host>\
<host><address addr=\"192.0.2.10\" addrtype=\"ipv4\"/></host></nmaprun>";
    let ips = parse_discovery(&xml_events(xml));
    assert_eq!(ips, vec![String::from("192.0.2.1"), String::from("192.0.2.10")]);
}

#[test]
fn traceroute_hops() {
    let text = b"traceroute to 10.0.0.9\n 1  192.0.2.1  0.3ms\n 2  * * *\n 3  10.0.0.9  1.2ms\n";
    let hops = parse_trace_hops(text);
    let hops: Vec<String> = hops.iter().map(|h| String::from_utf8(h.clone()).unwrap()).collect();
    assert_eq!(hops, vec![String::from("192.0.2.1"), String::from("10.0.0.9")]);
}

#[test]
fn traceroute_all_timeouts_appends_target() {
    let mut host = probe::Host::draft(String::from("n"), String::from("10.0.0.9"), true);
    apply_route_output(&mut host, b"", b" 1  * * *\n 2  * * *\n");
    assert_eq!(host.hops, vec![String::from("10.0.0.9")]);
}

#[test]
fn unreachable_codes_skipped() {
    let text = b" 1  192.0.2.1  0.3ms\n 2  192.0.2.7  !H\n";
    let hops = parse_trace_hops(text);
    assert_eq!(hops.len(), 1);
}

#[test]
fn route_table_choice() {
    let text = b"default via 10.0.0.1 dev eth0 proto dhcp\n10.0.0.0/24 dev eth0 proto kernel scope link src 10.0.0.5\n";
    let (gw, net) = parse_route_choice(text);
    assert_eq!(gw.unwrap(), b"10.0.0.1".to_vec());
    assert_eq!(net.unwrap(), b"10.0.0.0/24".to_vec());
    // without a direct route the first default gateway wins, with no label
    let (gw2, net2) = parse_route_choice(b"default via 10.0.0.1 dev eth0\n");
    assert_eq!(gw2.unwrap(), b"10.0.0.1".to_vec());
    assert!(net2.is_none());
}

#[test]
fn route_applies_network_and_gateway() {
    let mut host = probe::Host::draft(String::from(""), String::from("10.0.0.9"), true);
    let route = b"default via 10.0.0.1 dev eth0\n10.0.0.0/24 dev eth0 src 10.0.0.5\n";
    let trace = b" 1  10.0.0.9  0.9ms\n";
    apply_route_output(&mut host, route, trace);
    assert_eq!(host.network, "10.0.0.0/24");
    assert_eq!(host.hops, vec![String::from("10.0.0.1"), String::from("10.0.0.9")]);
}

#[test]
fn numbers_render_and_parse() {
    assert_eq!(u64_to_string(0), "0");
    assert_eq!(u64_to_string(65535), "65535");
    assert_eq!(i64_to_string(-42), "-42");
    assert_eq!(parse_u64(b"123"), Some(123));
    assert_eq!(parse_u64(b""), None);
    assert_eq!(parse_u64(b"12a"), None);
    assert_eq!(parse_u64(b"99999999999999999999"), None);
}

#[test]
fn ipv4_text_round_trip() {
    assert_eq!(parse_ipv4(b"192.0.2.10"), Some(0xc000020a));
    assert_eq!(parse_ipv4(b"300.0.0.1"), None);
    assert_eq!(parse_ipv4(b"1.2.3"), None);
    assert_eq!(parse_ipv4(b"a.b.c.d"), None);
    assert_eq!(ipv4_to_string(0xc000020a), "192.0.2.10");
    let text = ipv4_to_string(parse_ipv4(b"10.20.30.40").unwrap());
    assert_eq!(text, "10.20.30.40");
}

#[test]
fn cvss_parses_to_tenths() {
    assert_eq!(parse_cvss_tenths("7.5"), 75);
    assert_eq!(parse_cvss_tenths("10.0"), 100);
    assert_eq!(parse_cvss_tenths("9"), 90);
    assert_eq!(parse_cvss_tenths("bogus"), 0);
    assert_eq!(parse_cvss_tenths(""), 0);
}

#[test]
fn whitespace_tokens() {
    let toks = split_ws_tokens(b"  a  bb\t c\n");
    let toks: Vec<Vec<u8>> = toks;
    assert_eq!(toks, vec![b"a".to_vec(), b"bb".to_vec(), b"c".to_vec()]);
}

#[test]
fn smb_report_parses() {
    let json = "{\"os_info\":{\"OS\":\"Windows 10\",\"Native OS\":\"\"},\
\"shares\":{\"public\":{\"comment\":\"docs\",\"type\":\"Disk\"}},\
\"printers\":{\"ipp://p1\":{\"comment\":\"\",\"description\":\"laser\",\"flags\":\"0\"}}}";
    let win = network_discover::smb::parse_windows_report(json).unwrap();
    let info = win.info.unwrap();
    assert_eq!(info.os_name.as_deref(), Some("Windows 10"));
    assert!(info.native_os.is_none());
    assert!(win.domain.is_none());
    assert_eq!(win.shares.len(), 1);
    assert_eq!(win.shares[0].name.as_deref(), Some("public"));
    assert_eq!(win.shares[0].share_type.as_deref(), Some("Disk"));
    assert_eq!(win.printers.len(), 1);
    assert_eq!(win.printers[0].uri.as_deref(), Some("ipp://p1"));
    assert!(network_discover::smb::parse_windows_report("not json").is_none());
}
