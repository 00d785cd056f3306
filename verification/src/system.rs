//! Operating-system network settings: the shapes the settings API speaks,
//! and the rendering of the network configuration files the appliance
//! manages.  Reading and writing the files, and restarting services,
//! happens outside the library.

use vstd::prelude::*;
use vstd::string::StringSliceAdditionalSpecFns;

verus! {

/// The system settings the API exposes.
pub struct SystemSettings {
    pub interfaces: Option<Vec<String>>,
    pub network: Option<SystemNetwork>,
    pub wireless: Option<SystemWireless>,
    pub system: Option<SystemConfig>,
}

/// The wired network configuration.
pub struct SystemNetwork {
    pub interface: Option<String>,
    pub ip: Option<String>,
    pub router: Option<String>,
    pub dns: Option<String>,
}

/// The wireless network configuration.
pub struct SystemWireless {
    pub interface: Option<String>,
    pub ssid: Option<String>,
    pub psk: Option<String>,
    pub country: Option<String>,
}

/// One-shot system actions a settings save may request.
#[derive(Clone, Copy, PartialEq, Eq, Structural)]
pub struct SystemConfig {
    pub reload_network: bool,
    pub restart: bool,
    pub reboot: bool,
    pub shutdown: bool,
}

impl SystemSettings {
    /// Assembles the settings the API reports: the interface listing and
    /// the two network configurations, with no action requested.
    pub fn load(interfaces: Vec<String>, network: SystemNetwork, wireless: SystemWireless) -> (r:
        SystemSettings)
        ensures
            r.interfaces == Some(interfaces),
            r.network == Some(network),
            r.wireless == Some(wireless),
            r.system is None,
    {
        SystemSettings { interfaces: Some(interfaces), network: Some(network), wireless: Some(wireless), system: None }
    }
}

/// The text of an optional field, or empty.
pub open spec fn field_or_empty(o: Option<String>) -> Seq<char> {
    match o {
        Some(s) => s@,
        None => Seq::empty(),
    }
}

/// The NetworkManager LAN profile a wired configuration renders to.
pub open spec fn nm_lan_text(c: SystemNetwork, iface: Seq<char>) -> Seq<char> {
    let head = ("# Configuration created/managed by NetworkDiscover")@
        + ("\n[connection]\nid=NWD-LAN")@ + ("\nuuid=a414d407-9193-4ee8-8196-ab6bca788f03")@
        + ("\ntype=ethernet\ninterface-name=")@ + iface
        + ("\n\n[ethernet]\n\n[ipv6]\naddr-gen-mode=default\nmethod=auto\n\n[proxy]\n\n[ipv4]\nmethod=auto\n")@;
    let with_ip = match c.ip {
        Some(ip) => head + ("address1=")@ + ip@ + ("/24")@ + (match c.router {
            Some(r) => (",")@ + r@,
            None => Seq::<char>::empty(),
        }) + ("\n")@,
        None => head,
    };
    match c.dns {
        Some(d) => with_ip + ("dns=")@ + semicolon_separated(d@) + ("\n")@,
        None => with_ip,
    }
}

/// DNS server text normalised for NetworkManager: commas and blanks become
/// semicolons.
pub open spec fn semicolon_separated(s: Seq<char>) -> Seq<char> {
    s.map_values(|c: char| if c == ',' || c == ' ' { ';' } else { c })
}

impl SystemNetwork {
    /// The interface the configuration applies to, or the fallback.
    fn iface_or(&self, fallback: &str) -> (r: String)
        ensures
            r@ == (match self.interface {
                Some(i) => i@,
                None => fallback@,
            }),
    {
        match &self.interface {
            Some(i) => i.clone(),
            None => fallback.to_owned(),
        }
    }

    /// Renders the NetworkManager LAN profile this configuration stands
    /// for: the managed header, the fixed connection block naming the
    /// interface, and, when an address is set, a static `address1` line
    /// (always /24, with the router appended when set) and a `dns` line
    /// with the servers separated by semicolons.
    pub fn render_network_manager(&self, fallback_iface: &str) -> (r: String)
        ensures
            r@ == nm_lan_text(*self, (match self.interface {
                Some(i) => i@,
                None => fallback_iface@,
            })),
    {
        let iface = self.iface_or(fallback_iface);
        let mut out = String::from_str("# Configuration created/managed by NetworkDiscover");
        out.append("\n[connection]\nid=NWD-LAN");
        out.append("\nuuid=a414d407-9193-4ee8-8196-ab6bca788f03");
        out.append("\ntype=ethernet\ninterface-name=");
        out.append(iface.as_str());
        out.append("\n\n[ethernet]\n\n[ipv6]\naddr-gen-mode=default\nmethod=auto\n\n[proxy]\n\n[ipv4]\nmethod=auto\n");
        if let Some(ip) = &self.ip {
            out.append("address1=");
            out.append(ip.as_str());
            out.append("/24");
            if let Some(router) = &self.router {
                out.append(",");
                out.append(router.as_str());
            }
            out.append("\n");
        }
        if let Some(dns) = &self.dns {
            out.append("dns=");
            let servers = to_semicolons(dns.as_str());
            out.append(servers.as_str());
            out.append("\n");
        }
        proof {
            assert(out@ =~= nm_lan_text(*self, (match self.interface {
                Some(i) => i@,
                None => fallback_iface@,
            })));
        }
        out
    }

    /// The configuration files an apply writes under the chosen backend:
    /// for NetworkManager one profile, for the dhcp client daemon the
    /// interfaces file and the daemon configuration.
    pub fn apply(&self, use_dhcpcd: bool, fallback_iface: &str) -> (r: Vec<String>)
        ensures
            !use_dhcpcd ==> r@.len() == 1 && r@[0]@ == nm_lan_text(*self, (match self.interface {
                Some(i) => i@,
                None => fallback_iface@,
            })),
            use_dhcpcd ==> r@.len() == 2 && r@[0]@ == ifaces_text((match self.interface {
                Some(i) => i@,
                None => fallback_iface@,
            })) && r@[1]@ == dhcpcd_text(*self, (match self.interface {
                Some(i) => i@,
                None => fallback_iface@,
            })),
    {
        let mut out: Vec<String> = Vec::new();
        if use_dhcpcd {
            out.push(self.render_interfaces(fallback_iface));
            out.push(self.render_dhcpcd(fallback_iface));
        } else {
            out.push(self.render_network_manager(fallback_iface));
        }
        out
    }

    /// Renders the interfaces file the dhcp-client backend writes: a
    /// dhcp-managed VLAN 0 and a manual VLAN 1 on the interface.
    pub fn render_interfaces(&self, fallback_iface: &str) -> (r: String)
        ensures
            r@ == ifaces_text((match self.interface {
                Some(i) => i@,
                None => fallback_iface@,
            })),
    {
        let iface = self.iface_or(fallback_iface);
        let mut out = String::from_str("# Configuration created/managed by NetworkDiscover\n");
        out.append("auto ");
        out.append(iface.as_str());
        out.append(".0\niface ");
        out.append(iface.as_str());
        out.append(".0 inet dhcp\nvlan-raw-device ");
        out.append(iface.as_str());
        out.append("\n\n");
        out.append("auto ");
        out.append(iface.as_str());
        out.append(".1\niface ");
        out.append(iface.as_str());
        out.append(".1 inet manual\nvlan-raw-device ");
        out.append(iface.as_str());
        out.append("\n\n");
        proof {
            assert(out@ =~= ifaces_text((match self.interface {
                Some(i) => i@,
                None => fallback_iface@,
            })));
        }
        out
    }

    /// Renders the dhcp client daemon's configuration: the managed header
    /// and defaults and, when an address is set, a static block for VLAN 1
    /// with the address (always /24), the router and the DNS servers.
    pub fn render_dhcpcd(&self, fallback_iface: &str) -> (r: String)
        ensures
            r@ == dhcpcd_text(*self, (match self.interface {
                Some(i) => i@,
                None => fallback_iface@,
            })),
    {
        let iface = self.iface_or(fallback_iface);
        let mut out = String::from_str("# See dhcpcd.conf(5) for details.\n# Configuration created/managed by NetworkDiscover\n");
        out.append("hostname\nclientid\npersistent\nslaac private\n");
        out.append("option rapid_commit\noption ntp_servers\n");
        out.append("option domain_name_servers, domain_name, domain_search, host_name\n");
        out.append("option classless_static_routes\noption interface_mtu\nrequire dhcp_server_identifier\n");
        if let Some(ip) = &self.ip {
            out.append("\ninterface ");
            out.append(iface.as_str());
            out.append(".1\nstatic ip_address=");
            out.append(ip.as_str());
            out.append("/24");
            if let Some(router) = &self.router {
                out.append("\nstatic routers=");
                out.append(router.as_str());
            }
            if let Some(dns) = &self.dns {
                out.append("\nstatic domain_name_servers=");
                let servers = commas_to_blanks(dns.as_str());
                out.append(servers.as_str());
            }
            out.append("\n");
        }
        proof {
            assert(out@ =~= dhcpcd_text(*self, (match self.interface {
                Some(i) => i@,
                None => fallback_iface@,
            })));
        }
        out
    }
}

/// The interfaces file a wired apply writes under the dhcp-client backend.
pub open spec fn ifaces_text(iface: Seq<char>) -> Seq<char> {
    ("# Configuration created/managed by NetworkDiscover\n")@ + ("auto ")@ + iface + (".0\niface ")@
        + iface + (".0 inet dhcp\nvlan-raw-device ")@ + iface + ("\n\n")@ + ("auto ")@ + iface
        + (".1\niface ")@ + iface + (".1 inet manual\nvlan-raw-device ")@ + iface + ("\n\n")@
}

/// The dhcp client daemon configuration a wired apply writes.
pub open spec fn dhcpcd_text(c: SystemNetwork, iface: Seq<char>) -> Seq<char> {
    let head = ("# See dhcpcd.conf(5) for details.\n# Configuration created/managed by NetworkDiscover\n")@
        + ("hostname\nclientid\npersistent\nslaac private\n")@
        + ("option rapid_commit\noption ntp_servers\n")@
        + ("option domain_name_servers, domain_name, domain_search, host_name\n")@
        + ("option classless_static_routes\noption interface_mtu\nrequire dhcp_server_identifier\n")@;
    match c.ip {
        Some(ip) => head + ("\ninterface ")@ + iface + (".1\nstatic ip_address=")@ + ip@ + ("/24")@ + (
        match c.router {
            Some(r) => ("\nstatic routers=")@ + r@,
            None => Seq::<char>::empty(),
        }) + (match c.dns {
            Some(d) => ("\nstatic domain_name_servers=")@ + blank_separated(d@),
            None => Seq::<char>::empty(),
        }) + ("\n")@,
        None => head,
    }
}

/// DNS server text normalised for the dhcp client daemon: commas become
/// blanks.
pub open spec fn blank_separated(s: Seq<char>) -> Seq<char> {
    s.map_values(|c: char| if c == ',' { ' ' } else { c })
}

/// Rewrites commas and blanks to semicolons.
fn to_semicolons(s: &str) -> (r: String)
    ensures
        r@ == semicolon_separated(s@),
{
    let n = s.unicode_len();
    let mut out: Vec<char> = Vec::new();
    let mut k: usize = 0;
    while k < n
        invariant
            n == s@.len(),
            0 <= k <= n,
            out@ == semicolon_separated(s@.subrange(0, k as int)),
        decreases n - k,
    {
        let c = s.get_char(k);
        out.push(if c == ',' || c == ' ' { ';' } else { c });
        proof {
            assert(out@ =~= semicolon_separated(s@.subrange(0, k as int + 1)));
        }
        k += 1;
    }
    proof {
        assert(s@.subrange(0, s@.len() as int) =~= s@);
    }
    crate::textutil::string_from_chars(out)
}

/// Rewrites commas to blanks.
fn commas_to_blanks(s: &str) -> (r: String)
    ensures
        r@ == blank_separated(s@),
{
    let n = s.unicode_len();
    let mut out: Vec<char> = Vec::new();
    let mut k: usize = 0;
    while k < n
        invariant
            n == s@.len(),
            0 <= k <= n,
            out@ == blank_separated(s@.subrange(0, k as int)),
        decreases n - k,
    {
        let c = s.get_char(k);
        out.push(if c == ',' { ' ' } else { c });
        proof {
            assert(out@ =~= blank_separated(s@.subrange(0, k as int + 1)));
        }
        k += 1;
    }
    proof {
        assert(s@.subrange(0, s@.len() as int) =~= s@);
    }
    crate::textutil::string_from_chars(out)
}

/// The NetworkManager wireless profile a configuration renders to.
pub open spec fn nm_wifi_text(c: SystemWireless) -> Seq<char> {
    ("# Configuration created/managed by NetworkDiscover")@ + ("\n[connection]\nid=NWD-WiFi")@
        + ("\nuuid=73f99d6a-a155-400c-a8d8-c484989526ce")@ + ("\ntype=wifi\ninterface-name=")@ + (
    match c.interface {
        Some(i) => i@,
        None => Seq::<char>::empty(),
    }) + ("\n\n[wifi]\nmode=infrastructure")@ + (match c.ssid {
        Some(s) => ("\nssid=")@ + s@ + ("\n")@,
        None => Seq::<char>::empty(),
    }) + ("\n[wifi-security]\nauth-alg=open\nkey-mgmt=wpa-psk")@ + (match c.psk {
        Some(p) => ("\npsk=")@ + p@ + ("\n")@,
        None => Seq::<char>::empty(),
    }) + ("\n[ipv4]\nmethod=auto\n\n[ipv6]\naddr-gen-mode=default\nmethod=auto\n\n[proxy]\n")@
}

/// The wpa-supplicant configuration a wireless apply writes under the
/// dhcp-client backend.
pub open spec fn wpa_text(c: SystemWireless) -> Seq<char> {
    let head = ("# Configuration created/managed by NetworkDiscover")@
        + ("\nctrl_interface=DIR=/var/run/wpa_supplicant GROUP=netdev")@ + ("\nupdate_config=1")@ + (
    match c.country {
        Some(v) => ("\ncountry=")@ + v@,
        None => Seq::<char>::empty(),
    });
    match c.ssid {
        Some(s) => head + ("\nnetwork = {")@ + ("\n\tssid = \"")@ + s@ + ("\"")@ + ("\n\tpsk = \"")@ + (
        match c.psk {
            Some(p) => p@,
            None => ("Unknown")@,
        }) + ("\"")@ + ("\n\tkey_mgmt = WPA-PSK")@ + ("\n}\n")@,
        None => head,
    }
}

impl SystemWireless {
    /// Renders the NetworkManager wireless profile this configuration
    /// stands for.
    pub fn render_network_manager(&self) -> (r: String)
        ensures
            r@ == nm_wifi_text(*self),
    {
        let mut out = String::from_str("# Configuration created/managed by NetworkDiscover");
        out.append("\n[connection]\nid=NWD-WiFi");
        out.append("\nuuid=73f99d6a-a155-400c-a8d8-c484989526ce");
        out.append("\ntype=wifi\ninterface-name=");
        if let Some(interface) = &self.interface {
            out.append(interface.as_str());
        }
        out.append("\n\n[wifi]\nmode=infrastructure");
        if let Some(ssid) = &self.ssid {
            out.append("\nssid=");
            out.append(ssid.as_str());
            out.append("\n");
        }
        out.append("\n[wifi-security]\nauth-alg=open\nkey-mgmt=wpa-psk");
        if let Some(psk) = &self.psk {
            out.append("\npsk=");
            out.append(psk.as_str());
            out.append("\n");
        }
        out.append("\n[ipv4]\nmethod=auto\n\n[ipv6]\naddr-gen-mode=default\nmethod=auto\n\n[proxy]\n");
        proof {
            assert(out@ =~= nm_wifi_text(*self));
        }
        out
    }

    /// Renders the wpa-supplicant configuration this configuration stands
    /// for: country when set, and a network block quoting the SSID and the
    /// key (an unset key renders as `Unknown`).
    pub fn render_wpa(&self) -> (r: String)
        ensures
            r@ == wpa_text(*self),
    {
        let mut out = String::from_str("# Configuration created/managed by NetworkDiscover");
        out.append("\nctrl_interface=DIR=/var/run/wpa_supplicant GROUP=netdev");
        out.append("\nupdate_config=1");
        if let Some(country) = &self.country {
            out.append("\ncountry=");
            out.append(country.as_str());
        }
        if let Some(ssid) = &self.ssid {
            out.append("\nnetwork = {");
            out.append("\n\tssid = \"");
            out.append(ssid.as_str());
            out.append("\"");
            out.append("\n\tpsk = \"");
            match &self.psk {
                Some(p) => out.append(p.as_str()),
                None => out.append("Unknown"),
            }
            out.append("\"");
            out.append("\n\tkey_mgmt = WPA-PSK");
            out.append("\n}\n");
        }
        proof {
            assert(out@ =~= wpa_text(*self));
        }
        out
    }

    /// The configuration file a wireless apply writes under the chosen
    /// backend.
    pub fn apply(&self, use_dhcpcd: bool) -> (r: String)
        ensures
            use_dhcpcd ==> r@ == wpa_text(*self),
            !use_dhcpcd ==> r@ == nm_wifi_text(*self),
    {
        if use_dhcpcd {
            self.render_wpa()
        } else {
            self.render_network_manager()
        }
    }
}


/// The text after the first equals sign of a line; empty when the line
/// carries none.
pub open spec fn after_eq(line: Seq<u8>) -> Seq<u8> {
    let i = crate::textutil::find_byte(line, 61);
    if i < 0 {
        Seq::empty()
    } else {
        line.skip(i + 1)
    }
}

/// The text after the last equals sign of a line; the whole line when it
/// carries none.
pub open spec fn after_last_eq(line: Seq<u8>) -> Seq<u8> {
    let i = crate::textutil::find_last_byte(line, 61);
    if i < 0 {
        line
    } else {
        line.skip(i + 1)
    }
}

/// DNS text normalised on read: equals signs and semicolons become blanks.
pub open spec fn dns_blanks(s: Seq<u8>) -> Seq<u8> {
    s.map_values(|b: u8| if b == 61 || b == 59 { 32 } else { b })
}

/// Text with its double quotes dropped.
pub open spec fn strip_quotes(s: Seq<u8>) -> Seq<u8> {
    s.filter(|b: u8| b != 34)
}

/// The wired configuration one NetworkManager profile line contributes: an
/// `interface-name` line names the interface, an `address1` line carries
/// `ip/24,router`, a `dns` line the servers.
pub open spec fn nm_net_line(st: NmNetV, line: Seq<u8>) -> NmNetV {
    let st1 = if crate::textutil::contains_seq(line, crate::textutil::ascii_of(("interface-name")@)) {
        NmNetV { iface: Some(after_eq(line)), ..st }
    } else {
        st
    };
    let st2 = if crate::textutil::contains_seq(line, crate::textutil::ascii_of(("address1")@)) {
        let val = after_eq(line);
        let comma = crate::textutil::find_byte(val, 44);
        let part0 = if comma < 0 {
            val
        } else {
            val.take(comma)
        };
        let slash = crate::textutil::find_byte(part0, 47);
        NmNetV {
            ip: Some(part0.take(if slash < 0 { 0 } else { slash })),
            router: if comma < 0 {
                st1.router
            } else {
                Some(val.skip(comma + 1))
            },
            ..st1
        }
    } else {
        st1
    };
    if crate::textutil::contains_seq(line, crate::textutil::ascii_of(("dns")@)) {
        NmNetV { dns: Some(dns_blanks(after_eq(line))), ..st2 }
    } else {
        st2
    }
}

/// The shape of a wired configuration under construction.
pub struct NmNetV {
    pub iface: Option<Seq<u8>>,
    pub ip: Option<Seq<u8>>,
    pub router: Option<Seq<u8>>,
    pub dns: Option<Seq<u8>>,
}

/// The wired configuration a NetworkManager profile reads to.
pub open spec fn nm_net_fold(lines: Seq<Seq<u8>>) -> NmNetV
    decreases lines.len(),
{
    if lines.len() == 0 {
        NmNetV { iface: None, ip: None, router: None, dns: None }
    } else {
        nm_net_line(nm_net_fold(lines.drop_last()), lines.last())
    }
}

/// The wired configuration one dhcp-client daemon line contributes: the
/// text after the last equals sign of the `static` settings.
pub open spec fn dhcpcd_net_line(st: NmNetV, line: Seq<u8>) -> NmNetV {
    let st1 = if crate::textutil::contains_seq(line, crate::textutil::ascii_of(("static ip_address")@)) {
        NmNetV { ip: Some(after_last_eq(line)), ..st }
    } else {
        st
    };
    let st2 = if crate::textutil::contains_seq(line, crate::textutil::ascii_of(("static routers")@)) {
        NmNetV { router: Some(after_last_eq(line)), ..st1 }
    } else {
        st1
    };
    if crate::textutil::contains_seq(
        line,
        crate::textutil::ascii_of(("static domain_name_servers")@),
    ) {
        NmNetV { dns: Some(after_last_eq(line)), ..st2 }
    } else {
        st2
    }
}

/// The wired configuration a dhcp-client daemon file reads to.
pub open spec fn dhcpcd_net_fold(lines: Seq<Seq<u8>>) -> NmNetV
    decreases lines.len(),
{
    if lines.len() == 0 {
        NmNetV { iface: None, ip: None, router: None, dns: None }
    } else {
        dhcpcd_net_line(dhcpcd_net_fold(lines.drop_last()), lines.last())
    }
}

/// A field matches its parsed shape.
pub open spec fn field_matches(f: Option<String>, v: Option<Seq<u8>>) -> bool {
    ((f is Some) == (v is Some)) && (v matches Some(b) ==> (f->0)@ == crate::textutil::utf8_text_of(b))
}

fn ascii_key(s: &str) -> (r: &[u8])
    requires
        s.is_ascii(),
    ensures
        r@ == crate::textutil::ascii_of(s@),
{
    proof {
        broadcast use vstd::string::is_ascii_spec_bytes;

        assert(s.spec_bytes() =~= crate::textutil::ascii_of(s@));
    }
    s.as_bytes()
}

fn text_opt(v: &Option<Vec<u8>>) -> (r: Option<String>)
    ensures
        ((r is Some) == (v is Some)),
        v matches Some(b) ==> (r->0)@ == crate::textutil::utf8_text_of(b@),
{
    match v {
        Some(b) => Some(crate::textutil::bytes_text(b.as_slice())),
        None => None,
    }
}

impl SystemNetwork {
    /// Reads the wired configuration back out of the backend's file: the
    /// dhcp-client daemon's static settings, or the NetworkManager
    /// profile's interface, address and servers.
    pub fn load(use_dhcpcd: bool, text: &[u8]) -> (r: SystemNetwork)
        ensures
            ({
                let v = if use_dhcpcd {
                    dhcpcd_net_fold(crate::route::spec_lines(text@))
                } else {
                    nm_net_fold(crate::route::spec_lines(text@))
                };
                &&& field_matches(r.interface, v.iface)
                &&& field_matches(r.ip, v.ip)
                &&& field_matches(r.router, v.router)
                &&& field_matches(r.dns, v.dns)
            }),
    {
        if use_dhcpcd {
            SystemNetwork::load_dhcpcd(text)
        } else {
            SystemNetwork::load_network_manager(text)
        }
    }

    /// Reads the wired configuration out of the NetworkManager profile.
    pub fn load_network_manager(text: &[u8]) -> (r: SystemNetwork)
        ensures
            ({
                let v = nm_net_fold(crate::route::spec_lines(text@));
                &&& field_matches(r.interface, v.iface)
                &&& field_matches(r.ip, v.ip)
                &&& field_matches(r.router, v.router)
                &&& field_matches(r.dns, v.dns)
            }),
    {
        proof {
            reveal_strlit("interface-name");
            reveal_strlit("address1");
            reveal_strlit("dns");
        }
        let lines = crate::route::lines_of(text);
        let ghost slines = crate::route::spec_lines(text@);
        let mut iface: Option<Vec<u8>> = None;
        let mut ip: Option<Vec<u8>> = None;
        let mut router: Option<Vec<u8>> = None;
        let mut dns: Option<Vec<u8>> = None;
        let mut k: usize = 0;
        while k < lines.len()
            invariant
                slines == crate::route::spec_lines(text@),
                crate::textutil::views_of(lines@) == slines,
                lines@.len() == slines.len(),
                0 <= k <= lines@.len(),
                ("interface-name").is_ascii(),
                ("address1").is_ascii(),
                ("dns").is_ascii(),
                ({
                    let v = nm_net_fold(slines.subrange(0, k as int));
                    &&& opt_bytes_matches(iface, v.iface)
                    &&& opt_bytes_matches(ip, v.ip)
                    &&& opt_bytes_matches(router, v.router)
                    &&& opt_bytes_matches(dns, v.dns)
                }),
            decreases lines@.len() - k,
        {
            proof {
                assert(slines.subrange(0, k as int + 1).drop_last() =~= slines.subrange(0, k as int));
                assert(slines.subrange(0, k as int + 1).last() == slines[k as int]);
                assert(lines@[k as int]@ == slines[k as int]);
            }
            let line = &lines[k];
            if crate::textutil::contains_bytes(line.as_slice(), ascii_key("interface-name")) {
                iface = Some(bytes_after_eq(line.as_slice()));
            }
            if crate::textutil::contains_bytes(line.as_slice(), ascii_key("address1")) {
                let val = bytes_after_eq(line.as_slice());
                let (part0, rest) = match crate::textutil::find_byte_at(val.as_slice(), 44) {
                    Some(comma) => {
                        let vn = val.len();
                        proof {
                            assert(comma < vn);
                            assert(val@.subrange(0, comma as int) =~= val@.take(comma as int));
                            assert(val@.subrange(comma as int + 1, val@.len() as int) =~= val@.skip(
                                comma as int + 1,
                            ));
                        }
                        (
                            vstd::slice::slice_to_vec(
                                vstd::slice::slice_subrange(val.as_slice(), 0, comma),
                            ),
                            Some(
                                vstd::slice::slice_to_vec(
                                    vstd::slice::slice_subrange(val.as_slice(), comma + 1, vn),
                                ),
                            ),
                        )
                    },
                    None => (val, None),
                };
                let slash_pos = match crate::textutil::find_byte_at(part0.as_slice(), 47) {
                    Some(p) => p,
                    None => 0,
                };
                proof {
                    assert(part0@.subrange(0, slash_pos as int) =~= part0@.take(slash_pos as int));
                }
                ip = Some(
                    vstd::slice::slice_to_vec(
                        vstd::slice::slice_subrange(part0.as_slice(), 0, slash_pos),
                    ),
                );
                if rest.is_some() {
                    router = rest;
                }
            }
            if crate::textutil::contains_bytes(line.as_slice(), ascii_key("dns")) {
                let val = bytes_after_eq(line.as_slice());
                let mut norm: Vec<u8> = Vec::new();
                let mut t: usize = 0;
                while t < val.len()
                    invariant
                        0 <= t <= val@.len(),
                        norm@ == dns_blanks(val@.subrange(0, t as int)),
                    decreases val@.len() - t,
                {
                    let b = val[t];
                    norm.push(if b == 61 || b == 59 { 32 } else { b });
                    proof {
                        assert(norm@ =~= dns_blanks(val@.subrange(0, t as int + 1)));
                    }
                    t += 1;
                }
                proof {
                    assert(val@.subrange(0, val@.len() as int) =~= val@);
                }
                dns = Some(norm);
            }
            k += 1;
        }
        proof {
            assert(slines.subrange(0, slines.len() as int) =~= slines);
        }
        SystemNetwork {
            interface: text_opt(&iface),
            ip: text_opt(&ip),
            router: text_opt(&router),
            dns: text_opt(&dns),
        }
    }

    /// Reads the wired configuration out of the dhcp-client daemon's file.
    pub fn load_dhcpcd(text: &[u8]) -> (r: SystemNetwork)
        ensures
            ({
                let v = dhcpcd_net_fold(crate::route::spec_lines(text@));
                &&& field_matches(r.interface, v.iface)
                &&& field_matches(r.ip, v.ip)
                &&& field_matches(r.router, v.router)
                &&& field_matches(r.dns, v.dns)
            }),
    {
        proof {
            reveal_strlit("static ip_address");
            reveal_strlit("static routers");
            reveal_strlit("static domain_name_servers");
        }
        let lines = crate::route::lines_of(text);
        let ghost slines = crate::route::spec_lines(text@);
        let mut ip: Option<Vec<u8>> = None;
        let mut router: Option<Vec<u8>> = None;
        let mut dns: Option<Vec<u8>> = None;
        let mut k: usize = 0;
        while k < lines.len()
            invariant
                slines == crate::route::spec_lines(text@),
                crate::textutil::views_of(lines@) == slines,
                lines@.len() == slines.len(),
                0 <= k <= lines@.len(),
                ("static ip_address").is_ascii(),
                ("static routers").is_ascii(),
                ("static domain_name_servers").is_ascii(),
                ({
                    let v = dhcpcd_net_fold(slines.subrange(0, k as int));
                    &&& v.iface is None
                    &&& opt_bytes_matches(ip, v.ip)
                    &&& opt_bytes_matches(router, v.router)
                    &&& opt_bytes_matches(dns, v.dns)
                }),
            decreases lines@.len() - k,
        {
            proof {
                assert(slines.subrange(0, k as int + 1).drop_last() =~= slines.subrange(0, k as int));
                assert(slines.subrange(0, k as int + 1).last() == slines[k as int]);
                assert(lines@[k as int]@ == slines[k as int]);
            }
            let line = &lines[k];
            if crate::textutil::contains_bytes(line.as_slice(), ascii_key("static ip_address")) {
                ip = Some(bytes_after_last_eq(line.as_slice()));
            }
            if crate::textutil::contains_bytes(line.as_slice(), ascii_key("static routers")) {
                router = Some(bytes_after_last_eq(line.as_slice()));
            }
            if crate::textutil::contains_bytes(
                line.as_slice(),
                ascii_key("static domain_name_servers"),
            ) {
                dns = Some(bytes_after_last_eq(line.as_slice()));
            }
            k += 1;
        }
        proof {
            assert(slines.subrange(0, slines.len() as int) =~= slines);
        }
        SystemNetwork { interface: None, ip: text_opt(&ip), router: text_opt(&router), dns: text_opt(&dns) }
    }
}

/// An optional byte field matches its parsed shape by value.
pub open spec fn opt_bytes_matches(f: Option<Vec<u8>>, v: Option<Seq<u8>>) -> bool {
    ((f is Some) == (v is Some)) && (v matches Some(b) ==> (f->0)@ == b)
}

fn bytes_after_eq(line: &[u8]) -> (r: Vec<u8>)
    ensures
        r@ == after_eq(line@),
{
    match crate::textutil::find_byte_at(line, 61) {
        Some(i) => {
            let n = line.len();
            proof {
                assert(i < n);
                assert(line@.subrange(i as int + 1, line@.len() as int) =~= line@.skip(i as int + 1));
            }
            vstd::slice::slice_to_vec(vstd::slice::slice_subrange(line, i + 1, n))
        },
        None => Vec::new(),
    }
}

fn bytes_after_last_eq(line: &[u8]) -> (r: Vec<u8>)
    ensures
        r@ == after_last_eq(line@),
{
    match crate::textutil::find_last_byte_at(line, 61) {
        Some(i) => {
            let n = line.len();
            proof {
                assert(i < n);
                assert(line@.subrange(i as int + 1, line@.len() as int) =~= line@.skip(i as int + 1));
            }
            vstd::slice::slice_to_vec(vstd::slice::slice_subrange(line, i + 1, n))
        },
        None => vstd::slice::slice_to_vec(line),
    }
}


/// The shape of a wireless configuration under construction.
pub struct NmWifiV {
    pub iface: Option<Seq<u8>>,
    pub ssid: Option<Seq<u8>>,
    pub psk: Option<Seq<u8>>,
    pub country: Option<Seq<u8>>,
}

/// The wireless configuration one NetworkManager profile line contributes.
pub open spec fn nm_wifi_line(st: NmWifiV, line: Seq<u8>) -> NmWifiV {
    let st1 = if crate::textutil::contains_seq(line, crate::textutil::ascii_of(("interface-name")@)) {
        NmWifiV { iface: Some(after_eq(line)), ..st }
    } else {
        st
    };
    let st2 = if crate::textutil::contains_seq(line, crate::textutil::ascii_of(("ssid")@)) {
        NmWifiV { ssid: Some(after_eq(line)), ..st1 }
    } else {
        st1
    };
    if crate::textutil::contains_seq(line, crate::textutil::ascii_of(("psk")@)) {
        NmWifiV { psk: Some(after_eq(line)), ..st2 }
    } else {
        st2
    }
}

/// The wireless configuration a NetworkManager profile reads to.
pub open spec fn nm_wifi_fold(lines: Seq<Seq<u8>>) -> NmWifiV
    decreases lines.len(),
{
    if lines.len() == 0 {
        NmWifiV { iface: None, ssid: None, psk: None, country: None }
    } else {
        nm_wifi_line(nm_wifi_fold(lines.drop_last()), lines.last())
    }
}

/// The wireless configuration one wpa-supplicant line contributes: the
/// text after the last equals sign, with quotes dropped off SSID and key.
pub open spec fn wpa_line(st: NmWifiV, line: Seq<u8>) -> NmWifiV {
    let st1 = if crate::textutil::contains_seq(line, crate::textutil::ascii_of(("country")@)) {
        NmWifiV { country: Some(after_last_eq(line)), ..st }
    } else {
        st
    };
    let st2 = if crate::textutil::contains_seq(line, crate::textutil::ascii_of(("ssid")@)) {
        NmWifiV { ssid: Some(strip_quotes(after_last_eq(line))), ..st1 }
    } else {
        st1
    };
    if crate::textutil::contains_seq(line, crate::textutil::ascii_of(("psk")@)) {
        NmWifiV { psk: Some(strip_quotes(after_last_eq(line))), ..st2 }
    } else {
        st2
    }
}

/// The wireless configuration a wpa-supplicant file reads to.
pub open spec fn wpa_fold(lines: Seq<Seq<u8>>) -> NmWifiV
    decreases lines.len(),
{
    if lines.len() == 0 {
        NmWifiV { iface: None, ssid: None, psk: None, country: None }
    } else {
        wpa_line(wpa_fold(lines.drop_last()), lines.last())
    }
}

fn exec_strip_quotes(v: &[u8]) -> (r: Vec<u8>)
    ensures
        r@ == strip_quotes(v@),
{
    let mut out: Vec<u8> = Vec::new();
    let mut k: usize = 0;
    while k < v.len()
        invariant
            0 <= k <= v@.len(),
            out@ == strip_quotes(v@.subrange(0, k as int)),
        decreases v@.len() - k,
    {
        proof {
            reveal(Seq::filter);
            assert(v@.subrange(0, k as int + 1).drop_last() =~= v@.subrange(0, k as int));
            assert(v@.subrange(0, k as int + 1).last() == v@[k as int]);
        }
        if v[k] != 34 {
            out.push(v[k]);
        }
        k += 1;
    }
    proof {
        assert(v@.subrange(0, v@.len() as int) =~= v@);
    }
    out
}

impl SystemWireless {
    /// Reads the wireless configuration back out of the backend's file:
    /// the wpa-supplicant settings (quotes dropped), or the NetworkManager
    /// profile's fields.
    pub fn load(use_dhcpcd: bool, text: &[u8]) -> (r: SystemWireless)
        ensures
            ({
                let v = if use_dhcpcd {
                    wpa_fold(crate::route::spec_lines(text@))
                } else {
                    nm_wifi_fold(crate::route::spec_lines(text@))
                };
                &&& field_matches(r.interface, v.iface)
                &&& field_matches(r.ssid, v.ssid)
                &&& field_matches(r.psk, v.psk)
                &&& field_matches(r.country, v.country)
            }),
    {
        if use_dhcpcd {
            SystemWireless::load_wpa(text)
        } else {
            SystemWireless::load_network_manager(text)
        }
    }

    /// Reads the wireless configuration out of the NetworkManager profile.
    pub fn load_network_manager(text: &[u8]) -> (r: SystemWireless)
        ensures
            ({
                let v = nm_wifi_fold(crate::route::spec_lines(text@));
                &&& field_matches(r.interface, v.iface)
                &&& field_matches(r.ssid, v.ssid)
                &&& field_matches(r.psk, v.psk)
                &&& r.country is None
                &&& v.country is None
            }),
    {
        proof {
            reveal_strlit("interface-name");
            reveal_strlit("ssid");
            reveal_strlit("psk");
        }
        let lines = crate::route::lines_of(text);
        let ghost slines = crate::route::spec_lines(text@);
        let mut iface: Option<Vec<u8>> = None;
        let mut ssid: Option<Vec<u8>> = None;
        let mut psk: Option<Vec<u8>> = None;
        let mut k: usize = 0;
        while k < lines.len()
            invariant
                slines == crate::route::spec_lines(text@),
                crate::textutil::views_of(lines@) == slines,
                lines@.len() == slines.len(),
                0 <= k <= lines@.len(),
                ("interface-name").is_ascii(),
                ("ssid").is_ascii(),
                ("psk").is_ascii(),
                ({
                    let v = nm_wifi_fold(slines.subrange(0, k as int));
                    &&& opt_bytes_matches(iface, v.iface)
                    &&& opt_bytes_matches(ssid, v.ssid)
                    &&& opt_bytes_matches(psk, v.psk)
                    &&& v.country is None
                }),
            decreases lines@.len() - k,
        {
            proof {
                assert(slines.subrange(0, k as int + 1).drop_last() =~= slines.subrange(0, k as int));
                assert(slines.subrange(0, k as int + 1).last() == slines[k as int]);
                assert(lines@[k as int]@ == slines[k as int]);
            }
            let line = &lines[k];
            if crate::textutil::contains_bytes(line.as_slice(), ascii_key("interface-name")) {
                iface = Some(bytes_after_eq(line.as_slice()));
            }
            if crate::textutil::contains_bytes(line.as_slice(), ascii_key("ssid")) {
                ssid = Some(bytes_after_eq(line.as_slice()));
            }
            if crate::textutil::contains_bytes(line.as_slice(), ascii_key("psk")) {
                psk = Some(bytes_after_eq(line.as_slice()));
            }
            k += 1;
        }
        proof {
            assert(slines.subrange(0, slines.len() as int) =~= slines);
        }
        SystemWireless {
            interface: text_opt(&iface),
            ssid: text_opt(&ssid),
            psk: text_opt(&psk),
            country: None,
        }
    }

    /// Reads the wireless configuration out of the wpa-supplicant file.
    pub fn load_wpa(text: &[u8]) -> (r: SystemWireless)
        ensures
            ({
                let v = wpa_fold(crate::route::spec_lines(text@));
                &&& field_matches(r.ssid, v.ssid)
                &&& field_matches(r.psk, v.psk)
                &&& field_matches(r.country, v.country)
                &&& r.interface is None
                &&& v.iface is None
            }),
    {
        proof {
            reveal_strlit("country");
            reveal_strlit("ssid");
            reveal_strlit("psk");
        }
        let lines = crate::route::lines_of(text);
        let ghost slines = crate::route::spec_lines(text@);
        let mut ssid: Option<Vec<u8>> = None;
        let mut psk: Option<Vec<u8>> = None;
        let mut country: Option<Vec<u8>> = None;
        let mut k: usize = 0;
        while k < lines.len()
            invariant
                slines == crate::route::spec_lines(text@),
                crate::textutil::views_of(lines@) == slines,
                lines@.len() == slines.len(),
                0 <= k <= lines@.len(),
                ("country").is_ascii(),
                ("ssid").is_ascii(),
                ("psk").is_ascii(),
                ({
                    let v = wpa_fold(slines.subrange(0, k as int));
                    &&& opt_bytes_matches(ssid, v.ssid)
                    &&& opt_bytes_matches(psk, v.psk)
                    &&& opt_bytes_matches(country, v.country)
                    &&& v.iface is None
                }),
            decreases lines@.len() - k,
        {
            proof {
                assert(slines.subrange(0, k as int + 1).drop_last() =~= slines.subrange(0, k as int));
                assert(slines.subrange(0, k as int + 1).last() == slines[k as int]);
                assert(lines@[k as int]@ == slines[k as int]);
            }
            let line = &lines[k];
            if crate::textutil::contains_bytes(line.as_slice(), ascii_key("country")) {
                country = Some(bytes_after_last_eq(line.as_slice()));
            }
            if crate::textutil::contains_bytes(line.as_slice(), ascii_key("ssid")) {
                let raw = bytes_after_last_eq(line.as_slice());
                ssid = Some(exec_strip_quotes(raw.as_slice()));
            }
            if crate::textutil::contains_bytes(line.as_slice(), ascii_key("psk")) {
                let raw = bytes_after_last_eq(line.as_slice());
                psk = Some(exec_strip_quotes(raw.as_slice()));
            }
            k += 1;
        }
        proof {
            assert(slines.subrange(0, slines.len() as int) =~= slines);
        }
        SystemWireless { interface: None, ssid: text_opt(&ssid), psk: text_opt(&psk), country: text_opt(&country) }
    }
}

} // verus!
