//! The scanner's own network neighbourhood: the routes and addresses read
//! off the kernel, and the lookups the pipeline plans with.  The tool
//! invocations live outside the library; the parsing and the lookups live
//! here.

use vstd::prelude::*;
use crate::textutil::{split_ws, views_of, split_ws_tokens, find_byte, u64_to_string, spec_udec,
    parse_u64, str_eq, utf8_text_of};
use crate::textutil::bytes_text;
use crate::route::{spec_lines, lines_of, tok_or_empty};

verus! {

/// One kernel route: a network with its mask, the device it rides, and,
/// when the kernel names them, the router and the local address behind it.
pub struct Route {
    pub network: Option<String>,
    pub netmask: u16,
    pub metric: u16,
    pub device: String,
    pub is_default: bool,
    pub router: Option<String>,
    pub link: Option<String>,
}

impl Default for Route {
    fn default() -> (r: Route)
        ensures
            r.network is None,
            r.netmask == 0,
            r.metric == 0,
            r.device@ == Seq::<char>::empty(),
            !r.is_default,
            r.router is None,
            r.link is None,
    {
        Route {
            network: None,
            netmask: 0,
            metric: 0,
            device: String::new(),
            is_default: false,
            router: None,
            link: None,
        }
    }
}

impl Route {
    /// The route's network as `net/mask` text; callable once the network
    /// is known.
    pub fn to_string(&self) -> (r: String)
        requires
            self.network is Some,
        ensures
            r@ == (self.network->0)@ + "/"@ + spec_udec(self.netmask as nat),
    {
        let mut out = match &self.network {
            Some(n) => n.clone(),
            None => String::new(),
        };
        out.append("/");
        let m = u64_to_string(self.netmask as u64);
        out.append(m.as_str());
        proof {
            reveal_strlit("/");
        }
        out
    }
}

/// One local address with the routes that ride its interface.
pub struct LocalNetworkData {
    pub ipaddr: Option<String>,
    pub network: u16,
    pub routes: Vec<Route>,
}

impl Default for LocalNetworkData {
    fn default() -> (r: LocalNetworkData)
        ensures
            r.ipaddr is None,
            r.network == 0,
            r.routes@.len() == 0,
    {
        LocalNetworkData { ipaddr: None, network: 0, routes: Vec::new() }
    }
}

impl LocalNetworkData {
    /// The address as `ip/mask` text; callable once the address is known.
    pub fn to_string(&self) -> (r: String)
        requires
            self.ipaddr is Some,
        ensures
            r@ == (self.ipaddr->0)@ + "/"@ + spec_udec(self.network as nat),
    {
        let mut out = match &self.ipaddr {
            Some(n) => n.clone(),
            None => String::new(),
        };
        out.append("/");
        let m = u64_to_string(self.network as u64);
        out.append(m.as_str());
        proof {
            reveal_strlit("/");
        }
        out
    }

    /// The first default route riding this address's interface, if any.
    pub fn default_route(&self) -> (r: Result<&Route, &str>)
        ensures
            (r is Ok) == exists|i: int| 0 <= i < self.routes@.len() && (#[trigger] self.routes@[i]).is_default,
            r matches Ok(route) ==> exists|i: int|
                0 <= i < self.routes@.len() && route == &self.routes@[i] && (#[trigger] self.routes@[i]).is_default
                    && forall|j: int| 0 <= j < i ==> !self.routes@[j].is_default,
    {
        let mut k: usize = 0;
        while k < self.routes.len()
            invariant
                0 <= k <= self.routes@.len(),
                forall|j: int| 0 <= j < k ==> !(#[trigger] self.routes@[j]).is_default,
            decreases self.routes@.len() - k,
        {
            if self.routes[k].is_default {
                return Ok(&self.routes[k]);
            }
            k += 1;
        }
        Err("No default route")
    }
}

/// The local network layout the pipeline plans from.
pub struct LocalNet {
    pub networks: Vec<LocalNetworkData>,
}

/// Some known address entry renders one of its routes to this label.
pub open spec fn network_label_known(networks: Seq<LocalNetworkData>, label: Seq<char>) -> bool {
    exists|i: int, j: int|
        {
            &&& 0 <= i < networks.len()
            &&& 0 <= j < (#[trigger] networks[i]).routes@.len()
            &&& (#[trigger] networks[i].routes@[j]).network is Some
            &&& (networks[i].routes@[j].network->0)@ + "/"@ + spec_udec(networks[i].routes@[j].netmask as nat)
                == label
            &&& networks[i].ipaddr is Some
        }
}

/// The address entry carries a default route.
pub open spec fn has_default_route(n: LocalNetworkData) -> bool {
    exists|i: int| 0 <= i < n.routes@.len() && (#[trigger] n.routes@[i]).is_default
}

impl LocalNet {
    /// The first local address whose interface carries a default route.
    pub fn default_network(&self) -> (r: Result<&LocalNetworkData, &str>)
        ensures
            (r is Ok) == exists|i: int|
                0 <= i < self.networks@.len() && has_default_route(#[trigger] self.networks@[i]),
            r matches Ok(n) ==> exists|i: int|
                0 <= i < self.networks@.len() && n == &self.networks@[i] && has_default_route(
                    #[trigger] self.networks@[i],
                ) && forall|j: int| 0 <= j < i ==> !has_default_route(self.networks@[j]),
    {
        let mut k: usize = 0;
        while k < self.networks.len()
            invariant
                0 <= k <= self.networks@.len(),
                forall|j: int| 0 <= j < k ==> !has_default_route(#[trigger] self.networks@[j]),
            decreases self.networks@.len() - k,
        {
            let entry = &self.networks[k];
            let mut t: usize = 0;
            let mut found = false;
            while t < entry.routes.len()
                invariant
                    0 <= t <= entry.routes@.len(),
                    found ==> has_default_route(*entry),
                    !found ==> forall|j: int| 0 <= j < t ==> !(#[trigger] entry.routes@[j]).is_default,
                decreases entry.routes@.len() - t,
            {
                if entry.routes[t].is_default {
                    found = true;
                }
                t += 1;
            }
            if found {
                return Ok(&self.networks[k]);
            }
            k += 1;
        }
        Err("No default route found")
    }

    /// The local address behind a network label: the address whose routes
    /// include one rendering to that label.  The lookup fails exactly when
    /// no known address carries such a route.
    pub fn get_ip_for_network(&self, network: &str) -> (r: Result<String, ()>)
        ensures
            (r is Ok) == network_label_known(self.networks@, network@),
            r matches Ok(ip) ==> exists|i: int, j: int|
                {
                    &&& 0 <= i < self.networks@.len()
                    &&& 0 <= j < (#[trigger] self.networks@[i]).routes@.len()
                    &&& (#[trigger] self.networks@[i].routes@[j]).network is Some
                    &&& (self.networks@[i].routes@[j].network->0)@ + "/"@ + spec_udec(
                        self.networks@[i].routes@[j].netmask as nat,
                    ) == network@
                    &&& self.networks@[i].ipaddr is Some
                    &&& ip@ == (self.networks@[i].ipaddr->0)@
                },
    {
        let mut k: usize = 0;
        while k < self.networks.len()
            invariant
                0 <= k <= self.networks@.len(),
                forall|i: int, j: int|
                    #![trigger self.networks@[i].routes@[j]]
                    !{
                        &&& 0 <= i < k
                        &&& 0 <= j < self.networks@[i].routes@.len()
                        &&& (self.networks@[i].routes@[j].network is Some)
                        &&& (self.networks@[i].routes@[j].network->0)@ + "/"@ + spec_udec(
                            self.networks@[i].routes@[j].netmask as nat,
                        ) == network@
                        &&& self.networks@[i].ipaddr is Some
                    },
            decreases self.networks@.len() - k,
        {
            let entry = &self.networks[k];
            if entry.ipaddr.is_some() {
                let mut t: usize = 0;
                while t < entry.routes.len()
                    invariant
                        0 <= t <= entry.routes@.len(),
                        entry.ipaddr is Some,
                        entry == &self.networks@[k as int],
                        0 <= k < self.networks@.len(),
                        forall|j: int|
                            #![trigger entry.routes@[j]]
                            !{
                                &&& 0 <= j < t
                                &&& (entry.routes@[j].network is Some)
                                &&& (entry.routes@[j].network->0)@ + "/"@ + spec_udec(
                                    entry.routes@[j].netmask as nat,
                                ) == network@
                            },
                    decreases entry.routes@.len() - t,
                {
                    if entry.routes[t].network.is_some() {
                        let label = entry.routes[t].to_string();
                        if str_eq(label.as_str(), network) {
                            match &entry.ipaddr {
                                Some(ip) => {
                                    proof {
                                        assert(network_label_known(self.networks@, network@)) by {
                                            assert(0 <= k < self.networks@.len() && 0 <= t
                                                < self.networks@[k as int].routes@.len());
                                        }
                                    }
                                    return Ok(ip.clone());
                                },
                                None => {},
                            }
                        }
                    }
                    t += 1;
                }
            }
            k += 1;
        }
        Err(())
    }
}

/// The value token right after the first occurrence of a key token, if any.
pub open spec fn kv_after(toks: Seq<Seq<u8>>, key: Seq<u8>) -> Option<Seq<u8>>
    decreases toks.len(),
{
    if toks.len() == 0 {
        None
    } else if toks[0] == key {
        if toks.len() >= 2 {
            Some(toks[1])
        } else {
            None
        }
    } else {
        kv_after(toks.drop_first(), key)
    }
}

/// The value token right after the first occurrence of a key token, if any.
pub fn kv_after_at(toks: &Vec<Vec<u8>>, key: &[u8]) -> (r: Option<Vec<u8>>)
    ensures
        ({
            let s = kv_after(views_of(toks@), key@);
            ((r is Some) == (s is Some)) && (r matches Some(v) ==> v@ == s->0)
        }),
{
    proof {
        assert(views_of(toks@).skip(0) =~= views_of(toks@));
    }
    let mut k: usize = 0;
    while k < toks.len()
        invariant
            0 <= k <= toks@.len(),
            kv_after(views_of(toks@), key@) == kv_after(views_of(toks@).skip(k as int), key@),
        decreases toks@.len() - k,
    {
        proof {
            assert(views_of(toks@).skip(k as int)[0] == toks@[k as int]@);
            assert(views_of(toks@).skip(k as int).drop_first() =~= views_of(toks@).skip(k as int + 1));
            if k as int + 1 < toks@.len() {
                assert(views_of(toks@).skip(k as int)[1] == toks@[k as int + 1]@);
            }
        }
        if crate::textutil::bytes_eq(toks[k].as_slice(), key) {
            if k + 1 < toks.len() {
                return Some(toks[k + 1].clone());
            } else {
                return None;
            }
        }
        k += 1;
    }
    proof {
        assert(views_of(toks@).skip(toks@.len() as int) =~= Seq::<Seq<u8>>::empty());
    }
    None
}


/// The shape of one parsed kernel route, over raw token bytes.
pub struct RouteV {
    pub network: Option<Seq<u8>>,
    pub netmask: u16,
    pub metric: u16,
    pub device: Seq<u8>,
    pub is_default: bool,
    pub router: Option<Seq<u8>>,
    pub link: Seq<u8>,
    pub has_link: bool,
}

/// The line opens with the `default` keyword.
pub open spec fn is_default_line(line: Seq<u8>) -> bool {
    tok_or_empty(split_ws(line), 0) == crate::textutil::ascii_of(("default")@)
}

/// The router of the first default line whose source address matches, if
/// any: a direct route whose source also carries a default route is the
/// default path itself.
pub open spec fn default_router_for_src(defaults: Seq<Seq<u8>>, src: Seq<u8>) -> Option<Seq<u8>>
    decreases defaults.len(),
{
    if defaults.len() == 0 {
        None
    } else {
        let toks = split_ws(defaults[0]);
        if kv_after(toks, crate::textutil::ascii_of(("src")@)) == Some(src) && (kv_after(
            toks,
            crate::textutil::ascii_of(("via")@),
        ) is Some) {
            kv_after(toks, crate::textutil::ascii_of(("via")@))
        } else {
            default_router_for_src(defaults.drop_first(), src)
        }
    }
}

/// A 16-bit number out of a digit token, zero when absent or unparsable.
pub open spec fn u16_or_zero(t: Seq<u8>) -> u16 {
    if t.len() > 0 && crate::textutil::all_digits(t) && crate::textutil::spec_dec_value(t) <= 65535 {
        crate::textutil::spec_dec_value(t) as u16
    } else {
        0
    }
}

/// One direct route parsed from its line: the leading `net/mask` token and
/// the `dev`, `via`, `metric` and `src` values; a source address that some
/// default line also names marks the route default and adopts that line's
/// router.
pub open spec fn spec_direct_route(line: Seq<u8>, defaults: Seq<Seq<u8>>) -> RouteV {
    let toks = split_ws(line);
    let nw = tok_or_empty(toks, 0);
    let slash = crate::textutil::find_byte(nw, 47);
    let network = if slash >= 0 {
        nw.take(slash)
    } else {
        nw
    };
    let mask = if slash >= 0 {
        u16_or_zero(nw.skip(slash + 1))
    } else {
        0
    };
    let device = match kv_after(toks, crate::textutil::ascii_of(("dev")@)) {
        Some(d) => d,
        None => Seq::empty(),
    };
    let metric = match kv_after(toks, crate::textutil::ascii_of(("metric")@)) {
        Some(m) => u16_or_zero(m),
        None => 0,
    };
    let via = kv_after(toks, crate::textutil::ascii_of(("via")@));
    match kv_after(toks, crate::textutil::ascii_of(("src")@)) {
        Some(src) => {
            match default_router_for_src(defaults, src) {
                Some(router) => RouteV {
                    network: Some(network),
                    netmask: mask,
                    metric,
                    device,
                    is_default: true,
                    router: Some(router),
                    link: src,
                    has_link: true,
                },
                None => RouteV {
                    network: Some(network),
                    netmask: mask,
                    metric,
                    device,
                    is_default: false,
                    router: via,
                    link: src,
                    has_link: true,
                },
            }
        },
        None => RouteV {
            network: Some(network),
            netmask: mask,
            metric,
            device,
            is_default: false,
            router: via,
            link: Seq::empty(),
            has_link: false,
        },
    }
}

/// The direct routes of a routing-table listing, in order; default and
/// empty lines contribute none.
pub open spec fn spec_routes(lines: Seq<Seq<u8>>, defaults: Seq<Seq<u8>>) -> Seq<RouteV>
    decreases lines.len(),
{
    if lines.len() == 0 {
        Seq::empty()
    } else {
        let rest = spec_routes(lines.drop_last(), defaults);
        if lines.last().len() == 0 || is_default_line(lines.last()) {
            rest
        } else {
            rest.push(spec_direct_route(lines.last(), defaults))
        }
    }
}

/// The default lines of a routing-table listing, in order.
pub open spec fn spec_default_lines(lines: Seq<Seq<u8>>) -> Seq<Seq<u8>> {
    lines.filter(|l: Seq<u8>| is_default_line(l))
}

proof fn lemma_default_lines_step(lines: Seq<Seq<u8>>, i: int)
    requires
        0 <= i < lines.len(),
    ensures
        spec_default_lines(lines.subrange(0, i + 1)) == if is_default_line(lines[i]) {
            spec_default_lines(lines.subrange(0, i)).push(lines[i])
        } else {
            spec_default_lines(lines.subrange(0, i))
        },
{
    reveal(Seq::filter);
    assert(lines.subrange(0, i + 1).drop_last() =~= lines.subrange(0, i));
    assert(lines.subrange(0, i + 1).last() == lines[i]);
}

/// A parsed route matches its shape: texts decode the tokens, numbers and
/// flags agree.
pub open spec fn route_matches(r: Route, v: RouteV) -> bool {
    &&& ((r.network is Some) == (v.network is Some))
    &&& (v.network matches Some(n) ==> (r.network->0)@ == utf8_text_of(n))
    &&& r.netmask == v.netmask
    &&& r.metric == v.metric
    &&& r.device@ == utf8_text_of(v.device)
    &&& r.is_default == v.is_default
    &&& ((r.router is Some) == (v.router is Some))
    &&& (v.router matches Some(n) ==> (r.router->0)@ == utf8_text_of(n))
    &&& ((r.link is Some) == v.has_link)
    &&& (v.has_link ==> (r.link->0)@ == utf8_text_of(v.link))
}


fn dev_key() -> (r: Vec<u8>)
    ensures
        r@ == crate::textutil::ascii_of(("dev")@),
{
    let mut v: Vec<u8> = Vec::new();
    v.push(100);
    v.push(101);
    v.push(118);
    proof {
        reveal_strlit("dev");
        assert(("dev")@.len() == 3 && ("dev")@[0] == 'd' && ("dev")@[1] == 'e' && ("dev")@[2] == 'v');
        assert(v@ =~= crate::textutil::ascii_of(("dev")@));
    }
    v
}

fn via_key() -> (r: Vec<u8>)
    ensures
        r@ == crate::textutil::ascii_of(("via")@),
{
    let mut v: Vec<u8> = Vec::new();
    v.push(118);
    v.push(105);
    v.push(97);
    proof {
        reveal_strlit("via");
        assert(("via")@.len() == 3 && ("via")@[0] == 'v' && ("via")@[1] == 'i' && ("via")@[2] == 'a');
        assert(v@ =~= crate::textutil::ascii_of(("via")@));
    }
    v
}

fn metric_key() -> (r: Vec<u8>)
    ensures
        r@ == crate::textutil::ascii_of(("metric")@),
{
    let mut v: Vec<u8> = Vec::new();
    v.push(109);
    v.push(101);
    v.push(116);
    v.push(114);
    v.push(105);
    v.push(99);
    proof {
        reveal_strlit("metric");
        assert(("metric")@.len() == 6 && ("metric")@[0] == 'm' && ("metric")@[1] == 'e' && ("metric")@[2]
            == 't' && ("metric")@[3] == 'r' && ("metric")@[4] == 'i' && ("metric")@[5] == 'c');
        assert(v@ =~= crate::textutil::ascii_of(("metric")@));
    }
    v
}

fn src_key() -> (r: Vec<u8>)
    ensures
        r@ == crate::textutil::ascii_of(("src")@),
{
    let mut v: Vec<u8> = Vec::new();
    v.push(115);
    v.push(114);
    v.push(99);
    proof {
        reveal_strlit("src");
        assert(("src")@.len() == 3 && ("src")@[0] == 's' && ("src")@[1] == 'r' && ("src")@[2] == 'c');
        assert(v@ =~= crate::textutil::ascii_of(("src")@));
    }
    v
}

fn exec_is_default_line(line: &Vec<u8>) -> (r: bool)
    ensures
        r == is_default_line(line@),
{
    let toks = split_ws_tokens(line.as_slice());
    let t0 = crate::route::tok_at_pub(&toks, 0);
    crate::route::is_default_tok_pub(&t0)
}

fn exec_u16_or_zero(t: &[u8]) -> (r: u16)
    ensures
        r == u16_or_zero(t@),
{
    match parse_u64(t) {
        Some(v) if v <= 65535 => v as u16,
        _ => 0,
    }
}

/// Reads the direct routes out of the kernel's routing-table listing.
pub fn parse_routes(text: &[u8]) -> (r: Vec<Route>)
    ensures
        ({
            let lines = spec_lines(text@);
            let m = spec_routes(lines, spec_default_lines(lines));
            r@.len() == m.len() && forall|i: int| 0 <= i < m.len() ==> route_matches(#[trigger] r@[i], m[i])
        }),
{
    let lines = lines_of(text);
    let ghost slines = spec_lines(text@);
    // first pass: the default lines, for the source matching
    let mut defaults: Vec<Vec<u8>> = Vec::new();
    let mut k: usize = 0;
    while k < lines.len()
        invariant
            slines == spec_lines(text@),
            views_of(lines@) == slines,
            lines@.len() == slines.len(),
            0 <= k <= lines@.len(),
            views_of(defaults@) == spec_default_lines(slines.subrange(0, k as int)),
        decreases lines@.len() - k,
    {
        proof {
            lemma_default_lines_step(slines, k as int);
            assert(lines@[k as int]@ == slines[k as int]);
        }
        let ghost pre = defaults@;
        if exec_is_default_line(&lines[k]) {
            defaults.push(lines[k].clone());
            proof {
                assert(views_of(defaults@) =~~= views_of(pre).push(slines[k as int]));
            }
        }
        k += 1;
    }
    proof {
        assert(slines.subrange(0, slines.len() as int) =~= slines);
    }
    let ghost sdefaults = spec_default_lines(slines);
    // second pass: the direct routes
    let mut out: Vec<Route> = Vec::new();
    let mut k2: usize = 0;
    while k2 < lines.len()
        invariant
            slines == spec_lines(text@),
            views_of(lines@) == slines,
            lines@.len() == slines.len(),
            views_of(defaults@) == sdefaults,
            sdefaults == spec_default_lines(slines),
            0 <= k2 <= lines@.len(),
            ({
                let m = spec_routes(slines.subrange(0, k2 as int), sdefaults);
                out@.len() == m.len() && forall|i: int|
                    0 <= i < m.len() ==> route_matches(#[trigger] out@[i], m[i])
            }),
        decreases lines@.len() - k2,
    {
        proof {
            assert(slines.subrange(0, k2 as int + 1).drop_last() =~= slines.subrange(0, k2 as int));
            assert(slines.subrange(0, k2 as int + 1).last() == slines[k2 as int]);
            assert(lines@[k2 as int]@ == slines[k2 as int]);
        }
        let line = &lines[k2];
        if line.len() > 0 && !exec_is_default_line(line) {
            let toks = split_ws_tokens(line.as_slice());
            let nw = crate::route::tok_at_pub(&toks, 0);
            let slash = crate::textutil::find_byte_at(nw.as_slice(), 47);
            let (network, mask) = match slash {
                Some(pos) => {
                    let nlen = nw.len();
                    proof {
                        assert(pos < nlen);
                        assert(nw@.subrange(0, pos as int) =~= nw@.take(pos as int));
                        assert(nw@.subrange(pos as int + 1, nw@.len() as int) =~= nw@.skip(pos as int + 1));
                    }
                    (
                        bytes_text(vstd::slice::slice_subrange(nw.as_slice(), 0, pos)),
                        exec_u16_or_zero(vstd::slice::slice_subrange(nw.as_slice(), pos + 1, nlen)),
                    )
                },
                None => (bytes_text(nw.as_slice()), 0),
            };
            let no_dev: Vec<u8> = Vec::new();
            let device = match kv_after_at(&toks, dev_key().as_slice()) {
                Some(d) => bytes_text(d.as_slice()),
                None => bytes_text(no_dev.as_slice()),
            };
            let metric = match kv_after_at(&toks, metric_key().as_slice()) {
                Some(m) => exec_u16_or_zero(m.as_slice()),
                None => 0,
            };
            let via = kv_after_at(&toks, via_key().as_slice());
            let src = kv_after_at(&toks, src_key().as_slice());
            let route = match src {
                Some(src_tok) => {
                    let mut matched: Option<Vec<u8>> = None;
                    let ghost dv = views_of(defaults@);
                    proof {
                        assert(default_router_for_src(dv, src_tok@) == default_router_for_src(
                            dv.skip(0),
                            src_tok@,
                        )) by {
                            assert(dv.skip(0) =~= dv);
                        }
                    }
                    let mut d: usize = 0;
                    while d < defaults.len()
                        invariant
                            0 <= d <= defaults@.len(),
                            dv == views_of(defaults@),
                            matched is None ==> default_router_for_src(dv, src_tok@)
                                == default_router_for_src(dv.skip(d as int), src_tok@),
                            matched matches Some(m) ==> (default_router_for_src(dv, src_tok@) is Some)
                                && m@ == default_router_for_src(dv, src_tok@)->0,
                        decreases defaults@.len() - d,
                    {
                        if matched.is_none() {
                            proof {
                                assert(dv.skip(d as int)[0] == defaults@[d as int]@);
                                assert(dv.skip(d as int).drop_first() =~= dv.skip(d as int + 1));
                            }
                            let dtoks = split_ws_tokens(defaults[d].as_slice());
                            let dsrc = kv_after_at(&dtoks, src_key().as_slice());
                            let dvia = kv_after_at(&dtoks, via_key().as_slice());
                            let src_match = match &dsrc {
                                Some(v) => crate::textutil::bytes_eq(v.as_slice(), src_tok.as_slice()),
                                None => false,
                            };
                            if src_match && dvia.is_some() {
                                matched = dvia;
                            }
                        }
                        d += 1;
                    }
                    proof {
                        if matched is None {
                            assert(dv.skip(dv.len() as int) =~= Seq::<Seq<u8>>::empty());
                        }
                    }
                    match matched {
                        Some(router) => Route {
                            network: Some(network),
                            netmask: mask,
                            metric,
                            device,
                            is_default: true,
                            router: Some(bytes_text(router.as_slice())),
                            link: Some(bytes_text(src_tok.as_slice())),
                        },
                        None => Route {
                            network: Some(network),
                            netmask: mask,
                            metric,
                            device,
                            is_default: false,
                            router: match via {
                                Some(v) => Some(bytes_text(v.as_slice())),
                                None => None,
                            },
                            link: Some(bytes_text(src_tok.as_slice())),
                        },
                    }
                },
                None => Route {
                    network: Some(network),
                    netmask: mask,
                    metric,
                    device,
                    is_default: false,
                    router: match via {
                        Some(v) => Some(bytes_text(v.as_slice())),
                        None => None,
                    },
                    link: None,
                },
            };
            proof {
                let sv = spec_direct_route(slines[k2 as int], sdefaults);
                assert((route.network is Some) == (sv.network is Some));
                assert(sv.network matches Some(n) ==> (route.network->0)@ == utf8_text_of(n));
                assert(route.netmask == sv.netmask);
                assert(route.metric == sv.metric);
                assert(route.device@ == utf8_text_of(sv.device));
                assert(route.is_default == sv.is_default);
                assert((route.router is Some) == (sv.router is Some));
                assert(sv.router matches Some(n) ==> (route.router->0)@ == utf8_text_of(n));
                assert((route.link is Some) == sv.has_link);
                assert(sv.has_link ==> (route.link->0)@ == utf8_text_of(sv.link));
                assert(route_matches(route, sv));
            }
            out.push(route);
        }
        k2 += 1;
    }
    proof {
        assert(slines.subrange(0, slines.len() as int) =~= slines);
    }
    out
}


/// One local address parsed from an `inet`-opening line: the address text
/// before the slash and the mask behind it (32 when the slash is absent).
pub open spec fn spec_addr_entry(line: Seq<u8>) -> Option<(Seq<u8>, u16)> {
    let toks = split_ws(line);
    let t0 = tok_or_empty(toks, 0);
    if t0.len() >= 4 && t0.take(4) == crate::textutil::ascii_of(("inet")@) {
        let addr = tok_or_empty(toks, 1);
        let slash = crate::textutil::find_byte(addr, 47);
        if slash >= 0 {
            Some((addr.take(slash), u16_or_zero(addr.skip(slash + 1))))
        } else {
            Some((addr, 32))
        }
    } else {
        None
    }
}

/// The local addresses an address listing names, in order: one entry per
/// line opening with `inet` (IPv6 lines open with `inet6` and count too,
/// as in the kernel's own output).
pub open spec fn spec_addr_entries(lines: Seq<Seq<u8>>) -> Seq<(Seq<u8>, u16)>
    decreases lines.len(),
{
    if lines.len() == 0 {
        Seq::empty()
    } else {
        spec_addr_entries(lines.drop_last()) + (match spec_addr_entry(lines.last()) {
            Some(e) => seq![e],
            None => Seq::empty(),
        })
    }
}

fn inet_prefix() -> (r: Vec<u8>)
    ensures
        r@ == crate::textutil::ascii_of(("inet")@),
{
    let mut v: Vec<u8> = Vec::new();
    v.push(105);
    v.push(110);
    v.push(101);
    v.push(116);
    proof {
        reveal_strlit("inet");
        assert(("inet")@.len() == 4 && ("inet")@[0] == 'i' && ("inet")@[1] == 'n' && ("inet")@[2] == 'e'
            && ("inet")@[3] == 't');
        assert(v@ =~= crate::textutil::ascii_of(("inet")@));
    }
    v
}

/// The routes riding one local address: those whose source address text
/// and netmask match it, in parsed order.
pub open spec fn routes_on_address(routes: Seq<Route>, ip: Seq<char>, mask: u16) -> Seq<Route> {
    routes.filter(|r: Route| (r.link matches Some(l) && l@ == ip) && r.netmask == mask)
}

proof fn lemma_routes_on_address_step(routes: Seq<Route>, ip: Seq<char>, mask: u16, i: int)
    requires
        0 <= i < routes.len(),
    ensures
        routes_on_address(routes.subrange(0, i + 1), ip, mask) == if (routes[i].link matches Some(l)
            && l@ == ip) && routes[i].netmask == mask {
            routes_on_address(routes.subrange(0, i), ip, mask).push(routes[i])
        } else {
            routes_on_address(routes.subrange(0, i), ip, mask)
        },
{
    reveal(Seq::filter);
    assert(routes.subrange(0, i + 1).drop_last() =~= routes.subrange(0, i));
    assert(routes.subrange(0, i + 1).last() == routes[i]);
}

/// Reads the local addresses out of the kernel's address listing and
/// attaches to each the parsed routes whose source address and mask match
/// it, as the scanner's neighbourhood map.
pub fn parse_local_addresses(text: &[u8], routes: &Vec<Route>) -> (r: Vec<LocalNetworkData>)
    ensures
        ({
            let m = spec_addr_entries(spec_lines(text@));
            r@.len() == m.len() && forall|i: int|
                0 <= i < m.len() ==> ((#[trigger] r@[i]).ipaddr is Some) && (r@[i].ipaddr->0)@
                    == utf8_text_of(m[i].0) && r@[i].network == m[i].1 && r@[i].routes@
                    == routes_on_address(routes@, utf8_text_of(m[i].0), m[i].1)
        }),
{
    let lines = lines_of(text);
    let ghost slines = spec_lines(text@);
    let mut out: Vec<LocalNetworkData> = Vec::new();
    let mut k: usize = 0;
    while k < lines.len()
        invariant
            slines == spec_lines(text@),
            views_of(lines@) == slines,
            lines@.len() == slines.len(),
            0 <= k <= lines@.len(),
            ({
                let m = spec_addr_entries(slines.subrange(0, k as int));
                out@.len() == m.len() && forall|i: int|
                    0 <= i < m.len() ==> ((#[trigger] out@[i]).ipaddr is Some) && (out@[i].ipaddr->0)@
                        == utf8_text_of(m[i].0) && out@[i].network == m[i].1 && out@[i].routes@
                        == routes_on_address(routes@, utf8_text_of(m[i].0), m[i].1)
            }),
        decreases lines@.len() - k,
    {
        proof {
            assert(slines.subrange(0, k as int + 1).drop_last() =~= slines.subrange(0, k as int));
            assert(slines.subrange(0, k as int + 1).last() == slines[k as int]);
            assert(lines@[k as int]@ == slines[k as int]);
        }
        let toks = split_ws_tokens(lines[k].as_slice());
        let t0 = crate::route::tok_at_pub(&toks, 0);
        let prefix = inet_prefix();
        let is_inet = if t0.len() >= 4 {
            proof {
                assert(t0@.subrange(0, 4) =~= t0@.take(4));
            }
            crate::textutil::bytes_eq(vstd::slice::slice_subrange(t0.as_slice(), 0, 4), prefix.as_slice())
        } else {
            false
        };
        if is_inet {
            let addr = crate::route::tok_at_pub(&toks, 1);
            let (ip, mask) = match crate::textutil::find_byte_at(addr.as_slice(), 47) {
                Some(pos) => {
                    let alen = addr.len();
                    proof {
                        assert(pos < alen);
                        assert(addr@.subrange(0, pos as int) =~= addr@.take(pos as int));
                        assert(addr@.subrange(pos as int + 1, addr@.len() as int) =~= addr@.skip(
                            pos as int + 1,
                        ));
                    }
                    (
                        bytes_text(vstd::slice::slice_subrange(addr.as_slice(), 0, pos)),
                        exec_u16_or_zero(
                            vstd::slice::slice_subrange(addr.as_slice(), pos + 1, alen),
                        ),
                    )
                },
                None => (bytes_text(addr.as_slice()), 32),
            };
            let mut owned: Vec<Route> = Vec::new();
            let mut t: usize = 0;
            proof {
                assert(routes@.subrange(0, 0) =~= Seq::<Route>::empty());
            }
            while t < routes.len()
                invariant
                    0 <= t <= routes@.len(),
                    owned@ == routes_on_address(routes@.subrange(0, t as int), ip@, mask),
                decreases routes@.len() - t,
            {
                proof {
                    lemma_routes_on_address_step(routes@, ip@, mask, t as int);
                }
                let route = &routes[t];
                let link_match = match &route.link {
                    Some(l) => str_eq(l.as_str(), ip.as_str()),
                    None => false,
                };
                if link_match && route.netmask == mask {
                    owned.push(copy_route(route));
                }
                t += 1;
            }
            proof {
                assert(routes@.subrange(0, routes@.len() as int) =~= routes@);
            }
            out.push(LocalNetworkData { ipaddr: Some(ip), network: mask, routes: owned });
        }
        k += 1;
    }
    proof {
        assert(slines.subrange(0, slines.len() as int) =~= slines);
    }
    out
}

/// A copy of one parsed route.
fn copy_route(r: &Route) -> (out: Route)
    ensures
        out.network == r.network,
        out.netmask == r.netmask,
        out.metric == r.metric,
        out.device == r.device,
        out.is_default == r.is_default,
        out.router == r.router,
        out.link == r.link,
{
    Route {
        network: match &r.network {
            Some(n) => Some(n.clone()),
            None => None,
        },
        netmask: r.netmask,
        metric: r.metric,
        device: r.device.clone(),
        is_default: r.is_default,
        router: match &r.router {
            Some(n) => Some(n.clone()),
            None => None,
        },
        link: match &r.link {
            Some(n) => Some(n.clone()),
            None => None,
        },
    }
}

/// The interface names an `ip link` listing carries: the second field of
/// every numbered line, with its trailing colon dropped.
pub open spec fn spec_interfaces(lines: Seq<Seq<u8>>) -> Seq<Seq<u8>>
    decreases lines.len(),
{
    if lines.len() == 0 {
        Seq::empty()
    } else {
        spec_interfaces(lines.drop_last()) + ({
            let toks = split_ws(lines.last());
            let name = tok_or_empty(toks, 1);
            if toks.len() >= 2 && name.len() >= 1 && name.last() == 58 {
                seq![name.drop_last()]
            } else {
                Seq::empty()
            }
        })
    }
}

/// Reads the interface names out of the kernel's link listing.
pub fn parse_interfaces(text: &[u8]) -> (r: Vec<String>)
    ensures
        ({
            let m = spec_interfaces(spec_lines(text@));
            r@.len() == m.len() && forall|i: int|
                0 <= i < m.len() ==> (#[trigger] r@[i])@ == utf8_text_of(m[i])
        }),
{
    let lines = lines_of(text);
    let ghost slines = spec_lines(text@);
    let mut out: Vec<String> = Vec::new();
    let mut k: usize = 0;
    while k < lines.len()
        invariant
            slines == spec_lines(text@),
            views_of(lines@) == slines,
            lines@.len() == slines.len(),
            0 <= k <= lines@.len(),
            ({
                let m = spec_interfaces(slines.subrange(0, k as int));
                out@.len() == m.len() && forall|i: int|
                    0 <= i < m.len() ==> (#[trigger] out@[i])@ == utf8_text_of(m[i])
            }),
        decreases lines@.len() - k,
    {
        proof {
            assert(slines.subrange(0, k as int + 1).drop_last() =~= slines.subrange(0, k as int));
            assert(slines.subrange(0, k as int + 1).last() == slines[k as int]);
            assert(lines@[k as int]@ == slines[k as int]);
        }
        let toks = split_ws_tokens(lines[k].as_slice());
        if toks.len() >= 2 {
            let name = crate::route::tok_at_pub(&toks, 1);
            if name.len() >= 1 && name[name.len() - 1] == 58 {
                proof {
                    assert(name@.subrange(0, name@.len() - 1) =~= name@.drop_last());
                }
                out.push(
                    bytes_text(vstd::slice::slice_subrange(name.as_slice(), 0, name.len() - 1)),
                );
            }
        }
        k += 1;
    }
    proof {
        assert(slines.subrange(0, slines.len() as int) =~= slines);
    }
    out
}

} // verus!
