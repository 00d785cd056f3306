//! The application configuration: the persisted shape, the resolved
//! runtime shape, and the target bookkeeping the scanner plans from.
//! Reading and writing the configuration file happens outside the library.

use vstd::prelude::*;
use crate::textutil::{spec_udec, u64_to_string, find_char, find_char_at, spec_parse_ipv4, parse_ipv4};

verus! {

/// The configuration as persisted: every field optional.
pub struct SaveConfig {
    pub repeat: Option<u32>,
    pub num_threads: Option<u32>,
    pub device: Option<String>,
    pub script_args: Option<String>,
    pub listen: Option<ConnectionStruct>,
    pub sqlite: Option<DbStruct>,
    pub targets: Option<Vec<DiscoverStruct>>,
    pub whitelabel: Option<WhiteLabel>,
}

/// The configuration as resolved for a run.
pub struct AppConfig {
    pub repeat: u32,
    pub num_threads: u32,
    pub device: Option<String>,
    pub script_args: Option<String>,
    pub listen: Option<ConnectionStruct>,
    pub sqlite: Option<DbStruct>,
    pub targets: Vec<DiscoverStruct>,
    pub whitelabel: Option<WhiteLabel>,
}

/// White-label presentation options.
pub struct WhiteLabel {
    pub logo: Option<String>,
    pub logo_data: Option<String>,
    pub color: Option<String>,
    pub tagline: Option<String>,
    pub update_check: Option<String>,
}

/// Where the relational store lives: a file path or a full URL.
pub struct DbStruct {
    pub file: Option<String>,
    pub url: Option<String>,
}

/// One configured scan target.
pub struct DiscoverStruct {
    pub extended: Option<bool>,
    pub version_check: Option<bool>,
    pub target: Option<ConnectionStruct>,
    pub windows: Option<WindowsStruct>,
}

/// A transport protocol a connection may name.
#[derive(Clone, Copy, PartialEq, Eq, Structural)]
pub enum NetworkProtocol {
    TCP,
    UDP,
    ICMP,
}

/// A named network endpoint: address, mask, port and protocol, all
/// optional.
pub struct ConnectionStruct {
    pub name: Option<String>,
    pub ip: Option<String>,
    pub mask: Option<u8>,
    pub port: Option<u16>,
    pub protocol: Option<NetworkProtocol>,
}

/// SMB credentials for the enumeration phase.
pub struct WindowsStruct {
    pub domain: Option<String>,
    pub domain_user: Option<String>,
    pub password: Option<String>,
}

impl Default for AppConfig {
    /// The defaults a missing configuration resolves to: no recurring scan,
    /// ten workers, no targets.
    fn default() -> (r: AppConfig)
        ensures
            r.repeat == 0,
            r.num_threads == 10,
            r.device is None,
            r.script_args is None,
            r.listen is None,
            r.sqlite is None,
            r.targets@.len() == 0,
            r.whitelabel is None,
    {
        AppConfig {
            repeat: 0,
            num_threads: 10,
            device: None,
            script_args: None,
            listen: None,
            sqlite: None,
            targets: Vec::new(),
            whitelabel: None,
        }
    }
}

impl Default for WhiteLabel {
    fn default() -> (r: WhiteLabel)
        ensures
            r.logo is None,
            r.logo_data is None,
            r.color is None,
            r.tagline is None,
            r.update_check is None,
    {
        WhiteLabel { logo: None, logo_data: None, color: None, tagline: None, update_check: None }
    }
}

impl Default for DbStruct {
    /// A bare store location; the path a data directory implies is
    /// resolved outside the library.
    fn default() -> (r: DbStruct)
        ensures
            r.file is None,
            r.url is None,
    {
        DbStruct { file: None, url: None }
    }
}

impl Default for DiscoverStruct {
    fn default() -> (r: DiscoverStruct)
        ensures
            r.extended == Some(true),
            r.version_check == Some(true),
            r.target is None,
            r.windows is None,
    {
        DiscoverStruct { extended: Some(true), version_check: Some(true), target: None, windows: None }
    }
}

impl Default for ConnectionStruct {
    fn default() -> (r: ConnectionStruct)
        ensures
            r.name is None,
            r.ip is None,
            r.mask is None,
            r.port is None,
            r.protocol is None,
    {
        ConnectionStruct { name: None, ip: None, mask: None, port: None, protocol: None }
    }
}

impl Default for WindowsStruct {
    fn default() -> (r: WindowsStruct)
        ensures
            r.domain is None,
            r.domain_user is None,
            r.password is None,
    {
        WindowsStruct { domain: None, domain_user: None, password: None }
    }
}

impl AppConfig {
    /// Resolves a persisted configuration: a missing repeat disables the
    /// timer, a missing worker count means ten, missing targets mean none.
    pub fn from_save(item: SaveConfig) -> (r: AppConfig)
        ensures
            r.repeat == (match item.repeat {
                Some(v) => v,
                None => 0u32,
            }),
            r.num_threads == (match item.num_threads {
                Some(v) => v,
                None => 10u32,
            }),
            r.device == item.device,
            r.script_args == item.script_args,
            r.listen == item.listen,
            r.sqlite == item.sqlite,
            (item.targets matches Some(t) ==> r.targets == t),
            (item.targets is None ==> r.targets@.len() == 0),
            r.whitelabel == item.whitelabel,
    {
        AppConfig {
            repeat: match item.repeat {
                Some(v) => v,
                None => 0,
            },
            num_threads: match item.num_threads {
                Some(v) => v,
                None => 10,
            },
            device: item.device,
            script_args: item.script_args,
            listen: item.listen,
            sqlite: item.sqlite,
            targets: match item.targets {
                Some(v) => v,
                None => Vec::new(),
            },
            whitelabel: item.whitelabel,
        }
    }
}

/// The network text a connection renders to: `ip/mask`, the mask defaulting
/// to 127 when the address looks like IPv6 (holds a colon) and 32
/// otherwise.
pub open spec fn network_string_spec(c: ConnectionStruct) -> Option<Seq<char>> {
    match c.ip {
        Some(ip) => Some(
            ip@ + "/"@ + spec_udec(
                match c.mask {
                    Some(m) => m as nat,
                    None => if find_char(ip@, ':') >= 0 {
                        127nat
                    } else {
                        32nat
                    },
                },
            ),
        ),
        None => None,
    }
}

impl ConnectionStruct {
    /// Renders the connection's network as `ip/mask` text, defaulting the
    /// mask by address family; a connection without an address renders to
    /// nothing.
    pub fn get_network_string(&self) -> (r: Option<String>)
        ensures
            ({
                let s = network_string_spec(*self);
                ((r is Some) == (s is Some)) && (r matches Some(v) ==> v@ == s->0)
            }),
    {
        match &self.ip {
            Some(ip) => {
                let mut out = ip.clone();
                out.append("/");
                let m: u8 = match self.mask {
                    Some(m) => m,
                    None => {
                        if find_char_at(ip.as_str(), ':').is_some() {
                            127
                        } else {
                            32
                        }
                    },
                };
                let mtext = u64_to_string(m as u64);
                out.append(mtext.as_str());
                proof {
                    reveal_strlit("/");
                    assert(out@ =~= network_string_spec(*self)->0);
                }
                Some(out)
            },
            None => None,
        }
    }
}

/// Whether this target's network contains the address: the configured
/// address and the probed one agree on the mask's leading bits.  A target
/// without a network, and a mask of zero (or over 32), accepts every
/// address; an unparsable configured address stands for the loopback
/// address.
pub open spec fn responsible_spec(d: DiscoverStruct, ip: u32) -> bool {
    match d.target {
        Some(t) => {
            let net: u32 = match t.ip {
                Some(s) => match spec_parse_ipv4(vstd::utf8::encode_utf8(s@)) {
                    Some(v) => v,
                    None => 0x7f000001u32,
                },
                None => 0x7f000001u32,
            };
            let m: u8 = match t.mask {
                Some(m) => m,
                None => 0,
            };
            if m == 0 || m > 32 {
                true
            } else {
                (net >> (32 - m) as u32) == (ip >> (32 - m) as u32)
            }
        },
        None => true,
    }
}

impl DiscoverStruct {
    /// Whether this target's network contains the address.
    pub fn is_responsible_for(&self, ip: u32) -> (r: bool)
        ensures
            r == responsible_spec(*self, ip),
    {
        match &self.target {
            Some(t) => {
                let net: u32 = match &t.ip {
                    Some(s) => {
                        match parse_ipv4(s.as_str().as_bytes()) {
                            Some(v) => v,
                            None => 0x7f000001,
                        }
                    },
                    None => 0x7f000001,
                };
                let m: u8 = match t.mask {
                    Some(m) => m,
                    None => 0,
                };
                if m == 0 || m > 32 {
                    true
                } else {
                    let shift: u32 = (32 - m) as u32;
                    (net >> shift) == (ip >> shift)
                }
            },
            None => true,
        }
    }
}

} // verus!
