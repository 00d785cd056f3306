//! The opportunistic capture trigger's wire formats: Ethernet, IPv4, UDP
//! and DHCP parsing from raw frame bytes, and the message-type dispatch
//! that turns a captured lease into a single-host rescan task.

use vstd::prelude::*;
use crate::store::{Store, StoreV, Scan};
use crate::probe;
use crate::textutil::{utf8_text_of, spec_udec, ipv4_to_string, bytes_text};

verus! {

/// The services the capture worker can listen for.
#[derive(Clone, Copy, PartialEq, Eq, Structural)]
pub enum Services {
    DHCP,
}

/// A transport endpoint a capture filter is built from.
#[derive(Clone, Copy, PartialEq, Eq, Structural)]
pub enum Protocol {
    UNKNOWN,
    TCP(u16),
    UDP(u16),
}

impl Services {
    /// The endpoint the service listens on: DHCP speaks UDP on port 68.
    pub fn value(&self) -> (r: Protocol)
        ensures
            r == Protocol::UDP(68u16),
    {
        match *self {
            Services::DHCP => Protocol::UDP(68),
        }
    }
}

/// A DHCP message type, as carried in the header's first byte and in
/// option 53.
#[derive(Clone, Copy, PartialEq, Eq, Structural)]
pub enum DhcpMessageType {
    Unknown,
    Discover,
    Offer,
    Request,
    Decline,
    Pack,
    Nak,
    Release,
    Inform,
    ForceRenew,
    LeaseQuery,
    LeaseUnassigned,
    LeaseUnknown,
    LeaseActive,
    BulkLeaseQuery,
    LeaseQueryDone,
    ActiveLeaseQuery,
    LeaseQueryStatus,
    TLS,
}

/// The message type a code byte stands for; unassigned codes are unknown.
pub open spec fn msg_type_of(b: u8) -> DhcpMessageType {
    if b == 1 {
        DhcpMessageType::Discover
    } else if b == 2 {
        DhcpMessageType::Offer
    } else if b == 3 {
        DhcpMessageType::Request
    } else if b == 4 {
        DhcpMessageType::Decline
    } else if b == 5 {
        DhcpMessageType::Pack
    } else if b == 6 {
        DhcpMessageType::Nak
    } else if b == 7 {
        DhcpMessageType::Release
    } else if b == 8 {
        DhcpMessageType::Inform
    } else if b == 9 {
        DhcpMessageType::ForceRenew
    } else if b == 10 {
        DhcpMessageType::LeaseQuery
    } else if b == 11 {
        DhcpMessageType::LeaseUnassigned
    } else if b == 12 {
        DhcpMessageType::LeaseUnknown
    } else if b == 13 {
        DhcpMessageType::LeaseActive
    } else if b == 14 {
        DhcpMessageType::BulkLeaseQuery
    } else if b == 15 {
        DhcpMessageType::LeaseQueryDone
    } else if b == 16 {
        DhcpMessageType::ActiveLeaseQuery
    } else if b == 17 {
        DhcpMessageType::LeaseQueryStatus
    } else if b == 18 {
        DhcpMessageType::TLS
    } else {
        DhcpMessageType::Unknown
    }
}

impl DhcpMessageType {
    /// The message type this code byte stands for.
    pub fn from_code(b: u8) -> (r: DhcpMessageType)
        ensures
            r == msg_type_of(b),
    {
        match b {
            1 => DhcpMessageType::Discover,
            2 => DhcpMessageType::Offer,
            3 => DhcpMessageType::Request,
            4 => DhcpMessageType::Decline,
            5 => DhcpMessageType::Pack,
            6 => DhcpMessageType::Nak,
            7 => DhcpMessageType::Release,
            8 => DhcpMessageType::Inform,
            9 => DhcpMessageType::ForceRenew,
            10 => DhcpMessageType::LeaseQuery,
            11 => DhcpMessageType::LeaseUnassigned,
            12 => DhcpMessageType::LeaseUnknown,
            13 => DhcpMessageType::LeaseActive,
            14 => DhcpMessageType::BulkLeaseQuery,
            15 => DhcpMessageType::LeaseQueryDone,
            16 => DhcpMessageType::ActiveLeaseQuery,
            17 => DhcpMessageType::LeaseQueryStatus,
            18 => DhcpMessageType::TLS,
            _ => DhcpMessageType::Unknown,
        }
    }
}

/// One DHCP option, parsed from the TLV stream.  IPv4 addresses are held
/// as big-endian 32-bit values.
pub enum DhcpOption {
    Invalid(u8),
    Unknown(u8, Vec<u8>),
    Netmask(u32),
    Router(Vec<u32>),
    DnsServer(Vec<u32>),
    HostName(String),
    DomainName(String),
    RequestedIpAddress(u32),
    LeaseTime(u32),
    MessageType(DhcpMessageType),
    DhcpServer(u32),
    VendorIdentifier(String),
    End,
}

/// The mathematical shape of a DHCP option.
pub enum DhcpOptionV {
    Invalid(u8),
    Unknown(u8, Seq<u8>),
    Netmask(u32),
    Router(Seq<u32>),
    DnsServer(Seq<u32>),
    HostName(Seq<char>),
    DomainName(Seq<char>),
    RequestedIpAddress(u32),
    LeaseTime(u32),
    MessageType(DhcpMessageType),
    DhcpServer(u32),
    VendorIdentifier(Seq<char>),
    End,
}

impl View for DhcpOption {
    type V = DhcpOptionV;

    open spec fn view(&self) -> DhcpOptionV {
        match self {
            DhcpOption::Invalid(b) => DhcpOptionV::Invalid(*b),
            DhcpOption::Unknown(b, v) => DhcpOptionV::Unknown(*b, v@),
            DhcpOption::Netmask(ip) => DhcpOptionV::Netmask(*ip),
            DhcpOption::Router(l) => DhcpOptionV::Router(l@),
            DhcpOption::DnsServer(l) => DhcpOptionV::DnsServer(l@),
            DhcpOption::HostName(s) => DhcpOptionV::HostName(s@),
            DhcpOption::DomainName(s) => DhcpOptionV::DomainName(s@),
            DhcpOption::RequestedIpAddress(ip) => DhcpOptionV::RequestedIpAddress(*ip),
            DhcpOption::LeaseTime(t) => DhcpOptionV::LeaseTime(*t),
            DhcpOption::MessageType(m) => DhcpOptionV::MessageType(*m),
            DhcpOption::DhcpServer(ip) => DhcpOptionV::DhcpServer(*ip),
            DhcpOption::VendorIdentifier(s) => DhcpOptionV::VendorIdentifier(s@),
            DhcpOption::End => DhcpOptionV::End,
        }
    }
}

/// The shapes of a parsed option listing, in order.
pub open spec fn options_view(s: Seq<DhcpOption>) -> Seq<DhcpOptionV> {
    s.map_values(|o: DhcpOption| o@)
}

/// A big-endian 16-bit value at this offset.
pub open spec fn be16(s: Seq<u8>, i: int) -> u16 {
    (s[i] * 256 + s[i + 1]) as u16
}

/// A big-endian 32-bit value at this offset.
pub open spec fn be32(s: Seq<u8>, i: int) -> u32 {
    (s[i] * 0x1000000 + s[i + 1] * 0x10000 + s[i + 2] * 0x100 + s[i + 3]) as u32
}

/// A little-endian 32-bit value at this offset.
pub open spec fn le32(s: Seq<u8>, i: int) -> u32 {
    (s[i + 3] * 0x1000000 + s[i + 2] * 0x10000 + s[i + 1] * 0x100 + s[i]) as u32
}

/// The IPv4 addresses packed four bytes at a time into an option payload.
pub open spec fn spec_quads(s: Seq<u8>) -> Seq<u32>
    decreases s.len(),
{
    if s.len() < 4 {
        Seq::empty()
    } else {
        seq![be32(s, 0)] + spec_quads(s.skip(4))
    }
}

/// The first four payload bytes as an address, or 0 when fewer remain.
pub open spec fn quad_or_zero(s: Seq<u8>) -> u32 {
    if s.len() >= 4 {
        be32(s, 0)
    } else {
        0
    }
}

/// One option parsed from the head of the remaining TLV stream: too-short
/// input is invalid, an option whose declared length overruns the stream is
/// invalid, and unrecognised codes keep their raw payload.
pub open spec fn spec_parse_option(rest: Seq<u8>) -> DhcpOptionV {
    if rest.len() < 1 {
        DhcpOptionV::Invalid(0)
    } else if rest.len() < 2 {
        DhcpOptionV::Invalid(rest[0])
    } else {
        let code = rest[0];
        let len = rest[1] as int;
        if rest.len() < len + 2 {
            DhcpOptionV::Invalid(rest[0])
        } else {
            let payload = rest.subrange(2, len + 2);
            if code == 1 {
                DhcpOptionV::Netmask(quad_or_zero(payload))
            } else if code == 3 {
                DhcpOptionV::Router(spec_quads(payload))
            } else if code == 6 {
                DhcpOptionV::DnsServer(spec_quads(payload))
            } else if code == 12 {
                DhcpOptionV::HostName(utf8_text_of(payload))
            } else if code == 15 {
                DhcpOptionV::DomainName(utf8_text_of(payload))
            } else if code == 50 {
                DhcpOptionV::RequestedIpAddress(quad_or_zero(payload))
            } else if code == 51 {
                DhcpOptionV::LeaseTime(
                    if payload.len() >= 4 {
                        le32(payload, 0)
                    } else {
                        0
                    },
                )
            } else if code == 53 {
                DhcpOptionV::MessageType(
                    if payload.len() >= 1 {
                        msg_type_of(payload[0])
                    } else {
                        DhcpMessageType::Unknown
                    },
                )
            } else if code == 54 {
                DhcpOptionV::DhcpServer(quad_or_zero(payload))
            } else if code == 60 {
                DhcpOptionV::VendorIdentifier(utf8_text_of(payload))
            } else if code == 255 {
                DhcpOptionV::End
            } else {
                DhcpOptionV::Unknown(code, payload)
            }
        }
    }
}

/// The option stream parsed until its end: an End option or a stream too
/// short to carry another option stops the walk, and neither is kept.
pub open spec fn spec_parse_options(rest: Seq<u8>) -> Seq<DhcpOptionV>
    decreases rest.len(),
{
    if rest.len() == 0 {
        Seq::empty()
    } else {
        let opt = spec_parse_option(rest);
        if opt is End || rest.len() < 2 {
            Seq::empty()
        } else {
            let step = 2 + rest[1] as int;
            if step >= rest.len() {
                seq![opt]
            } else {
                seq![opt] + spec_parse_options(rest.skip(step))
            }
        }
    }
}

fn parse_quads(s: &[u8]) -> (r: Vec<u32>)
    ensures
        r@ == spec_quads(s@),
    decreases s@.len(),
{
    if s.len() < 4 {
        let out: Vec<u32> = Vec::new();
        proof {
            assert(out@ =~= spec_quads(s@));
        }
        out
    } else {
        let head: u32 = (s[0] as u32) * 0x1000000 + (s[1] as u32) * 0x10000 + (s[2] as u32) * 0x100 + (
        s[3] as u32);
        proof {
            assert(s@.subrange(4, s@.len() as int) =~= s@.skip(4));
        }
        let rest = parse_quads(vstd::slice::slice_subrange(s, 4, s.len()));
        let mut out: Vec<u32> = Vec::new();
        out.push(head);
        let mut k: usize = 0;
        while k < rest.len()
            invariant
                0 <= k <= rest@.len(),
                out@.len() == k + 1,
                out@[0] == be32(s@, 0),
                forall|i: int| 1 <= i < k + 1 ==> out@[i] == rest@[i - 1],
            decreases rest@.len() - k,
        {
            let v = rest[k];
            out.push(v);
            k += 1;
        }
        proof {
            assert(out@ =~= seq![be32(s@, 0)] + rest@);
        }
        out
    }
}

/// Parses the option at the head of the remaining TLV stream.
pub fn parse_option(rest: &[u8]) -> (r: DhcpOption)
    ensures
        r@ == spec_parse_option(rest@),
{
    if rest.len() < 1 {
        return DhcpOption::Invalid(0);
    }
    if rest.len() < 2 {
        return DhcpOption::Invalid(rest[0]);
    }
    let code = rest[0];
    let len = rest[1] as usize;
    if rest.len() < len + 2 {
        return DhcpOption::Invalid(rest[0]);
    }
    let payload = vstd::slice::slice_subrange(rest, 2, len + 2);
    let q: u32 = if payload.len() >= 4 {
        (payload[0] as u32) * 0x1000000 + (payload[1] as u32) * 0x10000 + (payload[2] as u32) * 0x100 + (
        payload[3] as u32)
    } else {
        0
    };
    proof {
        assert(q == quad_or_zero(rest@.subrange(2, len + 2)));
    }
    if code == 1 {
        DhcpOption::Netmask(q)
    } else if code == 3 {
        DhcpOption::Router(parse_quads(payload))
    } else if code == 6 {
        DhcpOption::DnsServer(parse_quads(payload))
    } else if code == 12 {
        DhcpOption::HostName(bytes_text(payload))
    } else if code == 15 {
        DhcpOption::DomainName(bytes_text(payload))
    } else if code == 50 {
        DhcpOption::RequestedIpAddress(q)
    } else if code == 51 {
        let t: u32 = if payload.len() >= 4 {
            (payload[3] as u32) * 0x1000000 + (payload[2] as u32) * 0x10000 + (payload[1] as u32) * 0x100
                + (payload[0] as u32)
        } else {
            0
        };
        DhcpOption::LeaseTime(t)
    } else if code == 53 {
        let m = if payload.len() >= 1 {
            DhcpMessageType::from_code(payload[0])
        } else {
            DhcpMessageType::Unknown
        };
        DhcpOption::MessageType(m)
    } else if code == 54 {
        DhcpOption::DhcpServer(q)
    } else if code == 60 {
        DhcpOption::VendorIdentifier(bytes_text(payload))
    } else if code == 255 {
        DhcpOption::End
    } else {
        DhcpOption::Unknown(code, vstd::slice::slice_to_vec(payload))
    }
}

/// Parses the whole option stream.
pub fn parse_options(rest: &[u8]) -> (r: Vec<DhcpOption>)
    ensures
        options_view(r@) == spec_parse_options(rest@),
    decreases rest@.len(),
{
    if rest.len() == 0 {
        let out: Vec<DhcpOption> = Vec::new();
        proof {
            assert(options_view(out@) =~= spec_parse_options(rest@));
        }
        return out;
    }
    let opt = parse_option(rest);
    let stop = match &opt {
        DhcpOption::End => true,
        _ => false,
    };
    if stop || rest.len() < 2 {
        let out: Vec<DhcpOption> = Vec::new();
        proof {
            assert(options_view(out@) =~= spec_parse_options(rest@));
        }
        return out;
    }
    let step = 2 + rest[1] as usize;
    if step >= rest.len() {
        let mut out: Vec<DhcpOption> = Vec::new();
        out.push(opt);
        proof {
            assert(options_view(out@) =~~= spec_parse_options(rest@));
        }
        return out;
    }
    proof {
        assert(rest@.subrange(step as int, rest@.len() as int) =~= rest@.skip(step as int));
    }
    let tail = parse_options(vstd::slice::slice_subrange(rest, step, rest.len()));
    let mut out: Vec<DhcpOption> = Vec::new();
    out.push(opt);
    let mut k: usize = 0;
    while k < tail.len()
        invariant
            0 <= k <= tail@.len(),
            out@.len() == k + 1,
            out@[0]@ == spec_parse_option(rest@),
            forall|i: int| 1 <= i < k + 1 ==> (#[trigger] out@[i])@ == tail@[i - 1]@,
        decreases tail@.len() - k,
    {
        let ghost pre = out@;
        let item = copy_option(&tail, k);
        out.push(item);
        k += 1;
    }
    proof {
        assert(options_view(out@) =~~= seq![spec_parse_option(rest@)] + options_view(tail@));
    }
    out
}

/// A copy of one parsed option out of a listing.
fn copy_option(v: &Vec<DhcpOption>, k: usize) -> (r: DhcpOption)
    requires
        k < v@.len(),
    ensures
        r@ == v@[k as int]@,
{
    match &v[k] {
        DhcpOption::Invalid(b) => DhcpOption::Invalid(*b),
        DhcpOption::Unknown(b, p) => DhcpOption::Unknown(*b, p.clone()),
        DhcpOption::Netmask(ip) => DhcpOption::Netmask(*ip),
        DhcpOption::Router(l) => DhcpOption::Router(l.clone()),
        DhcpOption::DnsServer(l) => DhcpOption::DnsServer(l.clone()),
        DhcpOption::HostName(s) => DhcpOption::HostName(s.clone()),
        DhcpOption::DomainName(s) => DhcpOption::DomainName(s.clone()),
        DhcpOption::RequestedIpAddress(ip) => DhcpOption::RequestedIpAddress(*ip),
        DhcpOption::LeaseTime(t) => DhcpOption::LeaseTime(*t),
        DhcpOption::MessageType(m) => DhcpOption::MessageType(*m),
        DhcpOption::DhcpServer(ip) => DhcpOption::DhcpServer(*ip),
        DhcpOption::VendorIdentifier(s) => DhcpOption::VendorIdentifier(s.clone()),
        DhcpOption::End => DhcpOption::End,
    }
}


/// One parsed DHCP message: the fixed 240-byte header and its options.
/// Multi-byte header fields are read in network byte order; addresses are
/// big-endian 32-bit values.
pub struct DhcpData {
    pub msg_type: DhcpMessageType,
    pub hw_type: u8,
    pub hw_addr_len: u8,
    pub hops: u8,
    pub transaction_id: u32,
    pub seconds: u16,
    pub flags: u16,
    pub client_addr: u32,
    pub your_addr: u32,
    pub server_addr: u32,
    pub relay_addr: u32,
    pub hw_addr: Vec<u8>,
    pub magic_cookie: u32,
    pub options: Vec<DhcpOption>,
}

/// The parsed message matches the payload bytes, field for field.
pub open spec fn is_dhcp_of(d: DhcpData, p: Seq<u8>) -> bool {
    &&& p.len() >= 240
    &&& d.msg_type == msg_type_of(p[0])
    &&& d.hw_type == p[1]
    &&& d.hw_addr_len == p[2]
    &&& d.hops == p[3]
    &&& d.transaction_id == be32(p, 4)
    &&& d.seconds == be16(p, 8)
    &&& d.flags == be16(p, 10)
    &&& d.client_addr == be32(p, 12)
    &&& d.your_addr == be32(p, 16)
    &&& d.server_addr == be32(p, 20)
    &&& d.relay_addr == be32(p, 24)
    &&& d.hw_addr@ == p.subrange(28, 44)
    &&& d.magic_cookie == be32(p, 236)
    &&& options_view(d.options@) == spec_parse_options(p.skip(240))
}

fn read_be16(s: &[u8], i: usize) -> (r: u16)
    requires
        i + 2 <= s@.len(),
    ensures
        r == be16(s@, i as int),
{
    (s[i] as u16) * 256 + (s[i + 1] as u16)
}

fn read_be32(s: &[u8], i: usize) -> (r: u32)
    requires
        i + 4 <= s@.len(),
    ensures
        r == be32(s@, i as int),
{
    (s[i] as u32) * 0x1000000 + (s[i + 1] as u32) * 0x10000 + (s[i + 2] as u32) * 0x100 + (s[i + 3] as u32)
}

/// Parses a DHCP message from a UDP payload; a payload shorter than the
/// fixed 240-byte header does not parse.
pub fn parse_dhcp(p: &[u8]) -> (r: Option<DhcpData>)
    ensures
        (r is Some) == (p@.len() >= 240),
        r matches Some(d) ==> is_dhcp_of(d, p@),
{
    if p.len() < 240 {
        return None;
    }
    proof {
        assert(p@.subrange(240, p@.len() as int) =~= p@.skip(240));
    }
    let options = parse_options(vstd::slice::slice_subrange(p, 240, p.len()));
    Some(
        DhcpData {
            msg_type: DhcpMessageType::from_code(p[0]),
            hw_type: p[1],
            hw_addr_len: p[2],
            hops: p[3],
            transaction_id: read_be32(p, 4),
            seconds: read_be16(p, 8),
            flags: read_be16(p, 10),
            client_addr: read_be32(p, 12),
            your_addr: read_be32(p, 16),
            server_addr: read_be32(p, 20),
            relay_addr: read_be32(p, 24),
            hw_addr: vstd::slice::slice_to_vec(vstd::slice::slice_subrange(p, 28, 44)),
            magic_cookie: read_be32(p, 236),
            options,
        },
    )
}

/// Why a captured frame did not parse as an IPv4 UDP packet.
#[derive(Clone, Copy, Debug, PartialEq, Eq, Structural)]
pub enum FrameError {
    TooShort,
    Ipv6,
    Arp,
    Lldp,
    UnknownLayer3(u16),
    NotUdp(u8),
}

/// One parsed UDP-over-IPv4-over-Ethernet frame; the payload is a DHCP
/// message when it holds a full header.
pub struct UdpPacket {
    pub src_mac: Vec<u8>,
    pub dst_mac: Vec<u8>,
    pub src_ip: u32,
    pub dst_ip: u32,
    pub src_port: u16,
    pub dst_port: u16,
    pub len: u16,
    pub data: Option<DhcpData>,
}

/// The IPv4 header length of a frame, in bytes from the frame start to the
/// UDP header.
pub open spec fn udp_offset(f: Seq<u8>) -> int {
    14 + (f[14] as int % 16) * 4
}

/// The frame carries an IPv4 UDP packet with a complete UDP header.
pub open spec fn frame_is_ipv4_udp(f: Seq<u8>) -> bool {
    &&& f.len() >= 34
    &&& be16(f, 12) == 0x0800
    &&& f[23] == 17
    &&& f.len() >= udp_offset(f) + 8
}

/// The UDP payload bytes of an IPv4 UDP frame.
pub open spec fn frame_payload(f: Seq<u8>) -> Seq<u8> {
    f.skip(udp_offset(f) + 8)
}

/// Parses an Ethernet frame into a UDP packet: only IPv4 is accepted, other
/// known layer-3 types are rejected by name, and only protocol 17 (UDP)
/// within IPv4.
pub fn parse_udp_frame(f: &[u8]) -> (r: Result<UdpPacket, FrameError>)
    ensures
        (r is Ok) == frame_is_ipv4_udp(f@),
        r matches Ok(p) ==> {
            &&& p.src_mac@ == f@.subrange(0, 6)
            &&& p.dst_mac@ == f@.subrange(6, 12)
            &&& p.src_ip == be32(f@, 26)
            &&& p.dst_ip == be32(f@, 30)
            &&& p.src_port == be16(f@, udp_offset(f@))
            &&& p.dst_port == be16(f@, udp_offset(f@) + 2)
            &&& p.len as int == if be16(f@, udp_offset(f@) + 4) >= 8 {
                be16(f@, udp_offset(f@) + 4) - 8
            } else {
                0
            }
            &&& (p.data is Some) == (frame_payload(f@).len() >= 240)
            &&& (p.data matches Some(d) ==> is_dhcp_of(d, frame_payload(f@)))
        },
        r matches Err(e) ==> {
            &&& (e == FrameError::TooShort) == (f@.len() < 14 || (be16(f@, 12) == 0x0800 && (f@.len() < 34
                || f@.len() < udp_offset(f@) + 8)))
            &&& f@.len() >= 14 && be16(f@, 12) == 0x86dd ==> e == FrameError::Ipv6
            &&& f@.len() >= 14 && be16(f@, 12) == 0x0806 ==> e == FrameError::Arp
            &&& f@.len() >= 14 && be16(f@, 12) == 0x88cc ==> e == FrameError::Lldp
            &&& f@.len() >= 34 && be16(f@, 12) == 0x0800 && f@.len() >= udp_offset(f@) + 8 && f@[23] != 17
                ==> e == FrameError::NotUdp(f@[23])
        },
{
    if f.len() < 14 {
        return Err(FrameError::TooShort);
    }
    let ether = read_be16(f, 12);
    if ether == 0x86dd {
        return Err(FrameError::Ipv6);
    }
    if ether == 0x0806 {
        return Err(FrameError::Arp);
    }
    if ether == 0x88cc {
        return Err(FrameError::Lldp);
    }
    if ether != 0x0800 {
        return Err(FrameError::UnknownLayer3(ether));
    }
    if f.len() < 34 {
        return Err(FrameError::TooShort);
    }
    let ihl = f[14] % 16;
    let offset = 14 + (ihl as usize) * 4;
    if f.len() < offset + 8 {
        return Err(FrameError::TooShort);
    }
    let proto = f[23];
    if proto != 17 {
        return Err(FrameError::NotUdp(proto));
    }
    let udp_len = read_be16(f, offset + 4);
    proof {
        assert(f@.subrange(offset as int + 8, f@.len() as int) =~= frame_payload(f@));
    }
    let payload = vstd::slice::slice_subrange(f, offset + 8, f.len());
    Ok(
        UdpPacket {
            src_mac: vstd::slice::slice_to_vec(vstd::slice::slice_subrange(f, 0, 6)),
            dst_mac: vstd::slice::slice_to_vec(vstd::slice::slice_subrange(f, 6, 12)),
            src_ip: read_be32(f, 26),
            dst_ip: read_be32(f, 30),
            src_port: read_be16(f, offset),
            dst_port: read_be16(f, offset + 2),
            len: if udp_len >= 8 {
                udp_len - 8
            } else {
                0
            },
            data: parse_dhcp(payload),
        },
    )
}

/// The first requested-address option of an option listing, if any.
pub open spec fn first_requested(options: Seq<DhcpOptionV>) -> Option<u32>
    decreases options.len(),
{
    if options.len() == 0 {
        None
    } else if options[0] is RequestedIpAddress {
        Some(options[0]->RequestedIpAddress_0)
    } else {
        first_requested(options.drop_first())
    }
}

/// The address a captured DHCP message names as its client: `yiaddr` on an
/// Offer, the requested address (option 50) on a Discover, nothing on any
/// other message.  A Discover without option 50 names no address.
pub open spec fn spec_client_ip(d: DhcpData) -> Option<u32> {
    if d.msg_type == DhcpMessageType::Offer {
        Some(d.your_addr)
    } else if d.msg_type == DhcpMessageType::Discover {
        first_requested(options_view(d.options@))
    } else {
        None
    }
}

/// The address a captured DHCP message names as its client.
pub fn client_ip_of(d: &DhcpData) -> (r: Option<u32>)
    ensures
        r == spec_client_ip(*d),
{
    match d.msg_type {
        DhcpMessageType::Offer => Some(d.your_addr),
        DhcpMessageType::Discover => {
            proof {
                assert(options_view(d.options@).skip(0) =~= options_view(d.options@));
            }
            let mut k: usize = 0;
            while k < d.options.len()
                invariant
                    d.msg_type == DhcpMessageType::Discover,
                    0 <= k <= d.options@.len(),
                    first_requested(options_view(d.options@)) == first_requested(
                        options_view(d.options@).skip(k as int),
                    ),
                decreases d.options@.len() - k,
            {
                proof {
                    assert(options_view(d.options@).skip(k as int)[0] == d.options@[k as int]@);
                    assert(options_view(d.options@).skip(k as int).drop_first() =~= options_view(
                        d.options@,
                    ).skip(k as int + 1));
                }
                match &d.options[k] {
                    DhcpOption::RequestedIpAddress(ip) => {
                        proof {
                            let tail = options_view(d.options@).skip(k as int);
                            assert(tail.len() > 0);
                            assert(tail[0] == DhcpOptionV::RequestedIpAddress(*ip));
                            assert(first_requested(tail) == Some(*ip));
                            assert(first_requested(options_view(d.options@)) == Some(*ip));
                            assert(d.msg_type == DhcpMessageType::Discover);
                            assert(spec_client_ip(*d) == Some(*ip));
                        }
                        return Some(*ip);
                    },
                    _ => {
                    },
                }
                k += 1;
            }
            proof {
                assert(options_view(d.options@).skip(d.options@.len() as int) =~= Seq::empty());
            }
            None
        },
        _ => None,
    }
}

/// The rescan target a captured frame names: the client address of a DHCP
/// Offer or Discover carried in an IPv4 UDP frame with a full DHCP header.
pub open spec fn spec_scan_target(f: Seq<u8>) -> Option<u32> {
    if frame_is_ipv4_udp(f) && frame_payload(f).len() >= 240 {
        let p = frame_payload(f);
        if msg_type_of(p[0]) == DhcpMessageType::Offer {
            Some(be32(p, 16))
        } else if msg_type_of(p[0]) == DhcpMessageType::Discover {
            first_requested(spec_parse_options(p.skip(240)))
        } else {
            None
        }
    } else {
        None
    }
}

/// The rescan target a captured frame names, if any.  A frame that does not
/// parse, a DHCP payload under 240 bytes, and a Discover without option 50
/// all name none.
pub fn dhcp_scan_target(f: &[u8]) -> (r: Option<u32>)
    ensures
        r == spec_scan_target(f@),
{
    let packet = match parse_udp_frame(f) {
        Ok(p) => p,
        Err(_) => {
            return None;
        },
    };
    match packet.data {
        Some(d) => client_ip_of(&d),
        None => None,
    }
}

/// Handles one captured frame: when it names a rescan target, the store's
/// current scan id is pointed at the most recent scan (or 1 when none was
/// ever recorded) and a fresh single-host draft for the named address is
/// returned for the probe phase.  The rows of the store never change here.
pub fn process_captured_frame(db: &mut Store, f: &[u8]) -> (r: Option<probe::Host>)
    ensures
        (r is Some) == (spec_scan_target(f@) is Some),
        final(db)@ == (StoreV { current_scan_id: final(db)@.current_scan_id, ..old(db)@ }),
        r is None ==> final(db)@ == old(db)@,
        r matches Some(h) ==> {
            &&& ({
                let ip = spec_scan_target(f@)->0;
                h.ip@ == spec_udec(((ip >> 24) & 0xff) as nat) + seq!['.'] + spec_udec(
                    ((ip >> 16) & 0xff) as nat,
                ) + seq!['.'] + spec_udec(((ip >> 8) & 0xff) as nat) + seq!['.'] + spec_udec(
                    (ip & 0xff) as nat,
                )
            })
            &&& h.network@ == Seq::<char>::empty()
            &&& h.hops@.len() == 0
            &&& h.services@.len() == 0
            &&& h.db_id == 0
            &&& h.db_hist_id == 0
            &&& !h.extended_scan
            &&& (old(db)@.scans.len() > 0 ==> exists|i: int|
                0 <= i < old(db)@.scans.len() && final(db)@.current_scan_id == (
                #[trigger] old(db)@.scans[i]).scan && (forall|j: int|
                    0 <= j < old(db)@.scans.len() ==> (#[trigger] old(db)@.scans[j]).scan
                        <= final(db)@.current_scan_id))
            &&& (old(db)@.scans.len() == 0 ==> final(db)@.current_scan_id == 1)
        },
{
    let ip = match dhcp_scan_target(f) {
        Some(ip) => ip,
        None => {
            proof {
                assert(db@ =~= old(db)@);
            }
            return None;
        },
    };
    let last = Scan::last(db);
    db.current_scan_id = match last {
        Some(s) => s.scan,
        None => 1,
    };
    let draft = probe::Host::draft(String::new(), ipv4_to_string(ip), false);
    Some(draft)
}

} // verus!
