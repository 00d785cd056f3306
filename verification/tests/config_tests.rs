use network_discover::config::{AppConfig, SaveConfig, ConnectionStruct, DiscoverStruct, WhiteLabel};
use network_discover::system::{SystemNetwork, SystemWireless, SystemSettings};
use network_discover::webview::{get_networks, sanitize_config};
use network_discover::probe::{self, chunk_hosts};

fn target(ip: &str, mask: u8) -> DiscoverStruct {
    DiscoverStruct {
        extended: Some(true),
        version_check: Some(true),
        target: Some(ConnectionStruct {
            name: Some(String::from("lan")),
            ip: Some(String::from(ip)),
            mask: Some(mask),
            port: None,
            protocol: None,
        }),
        windows: None,
    }
}

#[test]
fn defaults_resolve() {
    let conf = AppConfig::from_save(SaveConfig {
        repeat: None,
        num_threads: None,
        device: None,
        script_args: None,
        listen: None,
        sqlite: None,
        targets: None,
        whitelabel: None,
    });
    assert_eq!(conf.repeat, 0);
    assert_eq!(conf.num_threads, 10);
    assert!(conf.targets.is_empty());
    let d = AppConfig::default();
    assert_eq!(d.num_threads, 10);
}

#[test]
fn network_string_defaults_mask() {
    let mut con = ConnectionStruct::default();
    assert!(con.get_network_string().is_none());
    con.ip = Some(String::from("192.0.2.0"));
    assert_eq!(con.get_network_string().unwrap(), "192.0.2.0/32");
    con.mask = Some(24);
    assert_eq!(con.get_network_string().unwrap(), "192.0.2.0/24");
    let six = ConnectionStruct { ip: Some(String::from("fe80::1")), ..ConnectionStruct::default() };
    assert_eq!(six.get_network_string().unwrap(), "fe80::1/127");
}

#[test]
fn responsibility_by_mask() {
    let t = target("192.0.2.0", 24);
    assert!(t.is_responsible_for(0xc0000201)); // 192.0.2.1
    assert!(!t.is_responsible_for(0xc0000301)); // 192.0.3.1
    let all = DiscoverStruct { target: None, ..DiscoverStruct::default() };
    assert!(all.is_responsible_for(0x01020304));
}

#[test]
fn networks_listing() {
    let conf = AppConfig {
        targets: vec![
            target("192.0.2.0", 24),
            DiscoverStruct::default(), // no connection: skipped
            target("10.0.0.0", 0),     // zero mask: skipped
        ],
        ..AppConfig::default()
    };
    let nets = get_networks(&conf);
    assert_eq!(nets.len(), 1);
    assert_eq!(nets[0].network, "192.0.2.0/24");
    assert_eq!(nets[0].name, "lan");
}

#[test]
fn sanitize_drops_bad_logo_and_black() {
    let mut conf = AppConfig {
        whitelabel: Some(WhiteLabel {
            logo: None,
            logo_data: Some(String::from("javascript:alert(1)")),
            color: Some(String::from("#000000")),
            tagline: None,
            update_check: None,
        }),
        ..AppConfig::default()
    };
    sanitize_config(&mut conf);
    let wl = conf.whitelabel.unwrap();
    assert!(wl.logo_data.is_none());
    assert!(wl.color.is_none());

    let mut keep = AppConfig {
        whitelabel: Some(WhiteLabel {
            logo: None,
            logo_data: Some(String::from("data:image/png;base64,AAAA")),
            color: Some(String::from("#3e8ed0")),
            tagline: None,
            update_check: None,
        }),
        ..AppConfig::default()
    };
    sanitize_config(&mut keep);
    let wl = keep.whitelabel.unwrap();
    assert!(wl.logo_data.is_some());
    assert_eq!(wl.color.as_deref(), Some("#3e8ed0"));
}

#[test]
fn round_robin_partitioning() {
    let mut hosts = Vec::new();
    for i in 0..7 {
        hosts.push(probe::Host::draft(String::from("n"), format!("10.0.0.{}", i), true));
    }
    let chunks = chunk_hosts(&hosts, 3);
    assert_eq!(chunks.len(), 3);
    assert_eq!(chunks[0].len(), 3);
    assert_eq!(chunks[1].len(), 2);
    assert_eq!(chunks[2].len(), 2);
    assert_eq!(chunks[0][1].ip, "10.0.0.3");
    assert_eq!(chunks[2][1].ip, "10.0.0.5");
    // identical draft lists partition identically
    let again = chunk_hosts(&hosts, 3);
    for c in 0..3 {
        for i in 0..chunks[c].len() {
            assert_eq!(chunks[c][i].ip, again[c][i].ip);
        }
    }
}

#[test]
fn network_manager_render() {
    let net = SystemNetwork {
        interface: Some(String::from("eth0")),
        ip: Some(String::from("10.0.0.5")),
        router: Some(String::from("10.0.0.1")),
        dns: Some(String::from("10.0.0.1, 10.0.0.2")),
    };
    let files = net.apply(false, "end0");
    assert_eq!(files.len(), 1);
    let text = &files[0];
    assert!(text.contains("interface-name=eth0"));
    assert!(text.contains("address1=10.0.0.5/24,10.0.0.1\n"));
    assert!(text.contains("dns=10.0.0.1;;10.0.0.2\n"));
}

#[test]
fn dhcpcd_render() {
    let net = SystemNetwork {
        interface: None,
        ip: Some(String::from("10.0.0.5")),
        router: Some(String::from("10.0.0.1")),
        dns: Some(String::from("10.0.0.1,10.0.0.2")),
    };
    let files = net.apply(true, "end0");
    assert_eq!(files.len(), 2);
    assert!(files[0].contains("auto end0.0\niface end0.0 inet dhcp"));
    assert!(files[1].contains("static ip_address=10.0.0.5/24"));
    assert!(files[1].contains("static routers=10.0.0.1"));
    assert!(files[1].contains("static domain_name_servers=10.0.0.1 10.0.0.2"));
}

#[test]
fn wireless_renders() {
    let w = SystemWireless {
        interface: Some(String::from("wlan0")),
        ssid: Some(String::from("lab")),
        psk: Some(String::from("opensesame")),
        country: Some(String::from("CH")),
    };
    let nm = w.apply(false);
    assert!(nm.contains("interface-name=wlan0"));
    assert!(nm.contains("ssid=lab"));
    let wpa = w.apply(true);
    assert!(wpa.contains("country=CH"));
    assert!(wpa.contains("ssid = \"lab\""));
    let settings = SystemSettings::load(vec![String::from("eth0")],
        SystemNetwork { interface: None, ip: None, router: None, dns: None }, w);
    assert!(settings.system.is_none());
    assert_eq!(settings.interfaces.unwrap().len(), 1);
}

#[test]
fn network_manager_read_back() {
    let text = b"[connection]\nid=NWD-LAN\ntype=ethernet\ninterface-name=eth0\n\
[ipv4]\nmethod=auto\naddress1=10.0.0.5/24,10.0.0.1\ndns=10.0.0.1;10.0.0.2;\n";
    let net = SystemNetwork::load(false, text);
    assert_eq!(net.interface.as_deref(), Some("eth0"));
    assert_eq!(net.ip.as_deref(), Some("10.0.0.5"));
    assert_eq!(net.router.as_deref(), Some("10.0.0.1"));
    assert_eq!(net.dns.as_deref(), Some("10.0.0.1 10.0.0.2 "));
}

#[test]
fn dhcpcd_read_back() {
    let text = b"hostname\nstatic ip_address=10.0.0.5/24\nstatic routers=10.0.0.1\n\
static domain_name_servers=10.0.0.1 10.0.0.2\n";
    let net = SystemNetwork::load(true, text);
    assert!(net.interface.is_none());
    assert_eq!(net.ip.as_deref(), Some("10.0.0.5/24"));
    assert_eq!(net.router.as_deref(), Some("10.0.0.1"));
    assert_eq!(net.dns.as_deref(), Some("10.0.0.1 10.0.0.2"));
}

#[test]
fn wireless_read_back() {
    let nm = b"[connection]\nid=NWD-WiFi\ninterface-name=wlan0\n[wifi]\nssid=lab\n\
[wifi-security]\npsk=opensesame\n";
    let w = SystemWireless::load(false, nm);
    assert_eq!(w.interface.as_deref(), Some("wlan0"));
    assert_eq!(w.ssid.as_deref(), Some("lab"));
    assert_eq!(w.psk.as_deref(), Some("opensesame"));
    assert!(w.country.is_none());

    // the daemon file writes ` = `, and the text after the last equals sign
    // keeps its leading blank
    let wpa = b"country=CH\nnetwork = {\n\tssid = \"lab\"\n\tpsk = \"opensesame\"\n}\n";
    let w2 = SystemWireless::load(true, wpa);
    assert_eq!(w2.country.as_deref(), Some("CH"));
    assert_eq!(w2.ssid.as_deref(), Some(" lab"));
    assert_eq!(w2.psk.as_deref(), Some(" opensesame"));
}
