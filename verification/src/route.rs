//! The route resolver: parsing of the host routing table and of
//! single-probe traceroute output, and the hop-list assembly that
//! guarantees every target a terminal routing edge.

use vstd::prelude::*;
use crate::textutil::{split_on, split_ws, views_of, split_on_byte, split_ws_tokens, spec_parse_ipv4,
    parse_ipv4, utf8_text_of, str_eq, bytes_text};
use crate::probe;

verus! {

/// The default number of hops a traceroute probe may take.
pub const MAX_TRACEROUTE_HOPS: u16 = 15;

/// The lines of a tool's output: pieces split on line feeds, with a
/// trailing line feed closing the last line rather than opening an empty
/// one.
pub open spec fn spec_lines(s: Seq<u8>) -> Seq<Seq<u8>> {
    if s.len() > 0 && s.last() == 10 {
        split_on(s.drop_last(), 10)
    } else {
        split_on(s, 10)
    }
}

/// The lines of a tool's output.
pub fn lines_of(text: &[u8]) -> (r: Vec<Vec<u8>>)
    ensures
        views_of(r@) == spec_lines(text@),
{
    if text.len() > 0 && text[text.len() - 1] == 10 {
        proof {
            assert(text@.subrange(0, text@.len() - 1) =~= text@.drop_last());
        }
        split_on_byte(vstd::slice::slice_subrange(text, 0, text.len() - 1), 10)
    } else {
        split_on_byte(text, 10)
    }
}

/// The token at this position, or the empty sequence past the end.
pub open spec fn tok_or_empty(toks: Seq<Seq<u8>>, i: int) -> Seq<u8> {
    if 0 <= i < toks.len() {
        toks[i]
    } else {
        Seq::empty()
    }
}

/// One line's effect on the routing-table read: a line starting `default`
/// contributes a `(via, device)` gateway pair; any other line (the direct
/// routes) makes its `(device, network)` pair the current direct route.
pub open spec fn route_fold(lines: Seq<Seq<u8>>) -> (Seq<(Seq<u8>, Seq<u8>)>, Option<(Seq<u8>, Seq<u8>)>)
    decreases lines.len(),
{
    if lines.len() == 0 {
        (Seq::empty(), None)
    } else {
        let (gws, dev) = route_fold(lines.drop_last());
        let toks = split_ws(lines.last());
        if tok_or_empty(toks, 0) == crate::textutil::ascii_of(("default")@) {
            (gws.push((tok_or_empty(toks, 2), tok_or_empty(toks, 4))), dev)
        } else {
            (gws, Some((tok_or_empty(toks, 2), tok_or_empty(toks, 0))))
        }
    }
}

/// The first gateway pair registered on this device, if any.
pub open spec fn gateway_for_device(gws: Seq<(Seq<u8>, Seq<u8>)>, dev: Seq<u8>) -> Option<Seq<u8>>
    decreases gws.len(),
{
    if gws.len() == 0 {
        None
    } else if gws[0].1 == dev {
        Some(gws[0].0)
    } else {
        gateway_for_device(gws.drop_first(), dev)
    }
}

/// The gateway the routing table names for the probed address, and the
/// network label of the direct route it was reached through: with a direct
/// route, the first default gateway on the direct route's device (which
/// fixes the network label); otherwise the first default gateway, if any.
pub open spec fn spec_route_choice(text: Seq<u8>) -> (Option<Seq<u8>>, Option<Seq<u8>>) {
    let (gws, dev) = route_fold(spec_lines(text));
    match dev {
        Some((device, network)) => {
            match gateway_for_device(gws, device) {
                Some(gw) => (Some(gw), Some(network)),
                None => {
                    if gws.len() > 0 {
                        (Some(gws[0].0), None)
                    } else {
                        (None, None)
                    }
                },
            }
        },
        None => {
            if gws.len() > 0 {
                (Some(gws[0].0), None)
            } else {
                (None, None)
            }
        },
    }
}

pub fn tok_at_pub(toks: &Vec<Vec<u8>>, i: usize) -> (r: Vec<u8>)
    ensures
        r@ == tok_or_empty(views_of(toks@), i as int),
{
    if i < toks.len() {
        toks[i].clone()
    } else {
        proof {
            assert(views_of(toks@).len() == toks@.len());
        }
        Vec::new()
    }
}

pub fn is_default_tok_pub(t: &Vec<u8>) -> (r: bool)
    ensures
        r == (t@ == crate::textutil::ascii_of(("default")@)),
{
    proof {
        reveal_strlit("default");
        assert(("default")@.len() == 7);
        assert(("default")@[0] == 'd' && ("default")@[1] == 'e' && ("default")@[2] == 'f' && ("default")@[3]
            == 'a' && ("default")@[4] == 'u' && ("default")@[5] == 'l' && ("default")@[6] == 't');
    }
    let ghost target = crate::textutil::ascii_of(("default")@);
    proof {
        assert(target.len() == 7);
        assert(target[0] == 100 && target[1] == 101 && target[2] == 102 && target[3] == 97 && target[4]
            == 117 && target[5] == 108 && target[6] == 116);
    }
    if t.len() != 7 {
        return false;
    }
    let r = t[0] == 100 && t[1] == 101 && t[2] == 102 && t[3] == 97 && t[4] == 117 && t[5] == 108 && t[6]
        == 116;
    proof {
        if r {
            assert(t@ =~= target);
        }
    }
    r
}

/// Reads the routing table the kernel printed for one probed address and
/// picks the gateway and, when a direct route names one, the network label.
pub fn parse_route_choice(text: &[u8]) -> (r: (Option<Vec<u8>>, Option<Vec<u8>>))
    ensures
        ({
            let (gw, net) = spec_route_choice(text@);
            &&& ((r.0 is Some) == (gw is Some))
            &&& (r.0 matches Some(v) ==> v@ == gw->0)
            &&& ((r.1 is Some) == (net is Some))
            &&& (r.1 matches Some(v) ==> v@ == net->0)
        }),
{
    let lines = lines_of(text);
    let ghost slines = spec_lines(text@);
    let mut gws: Vec<(Vec<u8>, Vec<u8>)> = Vec::new();
    let mut dev: Option<(Vec<u8>, Vec<u8>)> = None;
    let ghost gws_spec = route_fold(slines).0;
    let ghost dev_spec = route_fold(slines).1;
    let mut k: usize = 0;
    while k < lines.len()
        invariant
            slines == spec_lines(text@),
            views_of(lines@) == slines,
            lines@.len() == slines.len(),
            0 <= k <= lines@.len(),
            ({
                let (g, d) = route_fold(slines.subrange(0, k as int));
                &&& gws@.len() == g.len()
                &&& (forall|i: int|
                    0 <= i < g.len() ==> (#[trigger] gws@[i]).0@ == g[i].0 && gws@[i].1@ == g[i].1)
                &&& ((dev is Some) == (d is Some))
                &&& (dev matches Some(p) ==> p.0@ == (d->0).0 && p.1@ == (d->0).1)
            }),
        decreases lines@.len() - k,
    {
        proof {
            assert(slines.subrange(0, k as int + 1).drop_last() =~= slines.subrange(0, k as int));
            assert(slines.subrange(0, k as int + 1).last() == slines[k as int]);
            assert(lines@[k as int]@ == slines[k as int]);
        }
        let toks = split_ws_tokens(lines[k].as_slice());
        let t0 = tok_at_pub(&toks, 0);
        if is_default_tok_pub(&t0) {
            gws.push((tok_at_pub(&toks, 2), tok_at_pub(&toks, 4)));
        } else {
            dev = Some((tok_at_pub(&toks, 2), tok_at_pub(&toks, 0)));
        }
        k += 1;
    }
    proof {
        assert(slines.subrange(0, slines.len() as int) =~= slines);
    }
    // pick the gateway: prefer the one on the direct route's device
    match dev {
        Some((device, network)) => {
            let mut j: usize = 0;
            proof {
                assert(gateway_for_device(gws_spec, device@) == gateway_for_device(
                    gws_spec.skip(0),
                    device@,
                )) by {
                    assert(gws_spec.skip(0) =~= gws_spec);
                }
            }
            while j < gws.len()
                invariant
                    slines == spec_lines(text@),
                    gws_spec == route_fold(slines).0,
                    dev_spec == route_fold(slines).1,
                    dev_spec is Some,
                    (dev_spec->0).0 == device@,
                    (dev_spec->0).1 == network@,
                    0 <= j <= gws@.len(),
                    gws@.len() == gws_spec.len(),
                    forall|i: int|
                        0 <= i < gws_spec.len() ==> (#[trigger] gws@[i]).0@ == gws_spec[i].0 && gws@[i].1@
                            == gws_spec[i].1,
                    gateway_for_device(gws_spec, device@) == gateway_for_device(
                        gws_spec.skip(j as int),
                        device@,
                    ),
                decreases gws@.len() - j,
            {
                proof {
                    assert(gws_spec.skip(j as int)[0] == gws_spec[j as int]);
                    assert(gws_spec.skip(j as int).drop_first() =~= gws_spec.skip(j as int + 1));
                }
                if crate::textutil::bytes_eq(gws[j].1.as_slice(), device.as_slice()) {
                    return (Some(gws[j].0.clone()), Some(network));
                }
                j += 1;
            }
            proof {
                assert(gws_spec.skip(gws_spec.len() as int) =~= Seq::<(Seq<u8>, Seq<u8>)>::empty());
            }
            if gws.len() > 0 {
                (Some(gws[0].0.clone()), None)
            } else {
                (None, None)
            }
        },
        None => {
            if gws.len() > 0 {
                (Some(gws[0].0.clone()), None)
            } else {
                (None, None)
            }
        },
    }
}

/// One traceroute line's accepted hop: the second token of a line whose
/// first token is a small number and whose last token does not start with
/// an exclamation mark (unreachable codes), when that second token is not
/// itself the popped last token and parses as an IPv4 address.
pub open spec fn trace_line_hop(line: Seq<u8>) -> Seq<Seq<u8>> {
    let toks = split_ws(line);
    if toks.len() >= 3 && tok_or_empty(toks, 0).len() > 0 && crate::textutil::all_digits(
        tok_or_empty(toks, 0),
    ) && crate::textutil::spec_dec_value(tok_or_empty(toks, 0)) <= 65535 && toks.last().len() > 0
        && toks.last()[0] != 33 && (spec_parse_ipv4(toks[1]) is Some) {
        seq![toks[1]]
    } else {
        Seq::empty()
    }
}

/// The hops a traceroute output lists, in order: timed-out probes (`*`)
/// and unreachable codes contribute none.
pub open spec fn spec_trace_hops(text: Seq<u8>) -> Seq<Seq<u8>> {
    spec_trace_hops_lines(spec_lines(text))
}

/// The hops of a traceroute output, line by line.
pub open spec fn spec_trace_hops_lines(lines: Seq<Seq<u8>>) -> Seq<Seq<u8>>
    decreases lines.len(),
{
    if lines.len() == 0 {
        Seq::empty()
    } else {
        spec_trace_hops_lines(lines.drop_last()) + trace_line_hop(lines.last())
    }
}

/// Parses the accepted hops out of a traceroute output.
pub fn parse_trace_hops(text: &[u8]) -> (r: Vec<Vec<u8>>)
    ensures
        views_of(r@) == spec_trace_hops(text@),
{
    let lines = lines_of(text);
    let ghost slines = spec_lines(text@);
    let mut out: Vec<Vec<u8>> = Vec::new();
    let mut k: usize = 0;
    while k < lines.len()
        invariant
            slines == spec_lines(text@),
            views_of(lines@) == slines,
            lines@.len() == slines.len(),
            0 <= k <= lines@.len(),
            views_of(out@) == spec_trace_hops_lines(slines.subrange(0, k as int)),
        decreases lines@.len() - k,
    {
        proof {
            assert(slines.subrange(0, k as int + 1).drop_last() =~= slines.subrange(0, k as int));
            assert(slines.subrange(0, k as int + 1).last() == slines[k as int]);
            assert(lines@[k as int]@ == slines[k as int]);
        }
        let ghost pre = out@;
        let toks = split_ws_tokens(lines[k].as_slice());
        if toks.len() >= 3 {
            let hopno_ok = match crate::textutil::parse_u64(toks[0].as_slice()) {
                Some(v) => v <= 65535,
                None => false,
            };
            let last = &toks[toks.len() - 1];
            proof {
                assert(views_of(toks@)[toks@.len() - 1] == toks@[toks@.len() - 1]@);
                assert(views_of(toks@)[0] == toks@[0]@);
                assert(views_of(toks@)[1] == toks@[1]@);
            }
            if hopno_ok && last.len() > 0 && last[0] != 33 {
                if parse_ipv4(toks[1].as_slice()).is_some() {
                    out.push(toks[1].clone());
                    proof {
                        assert(views_of(out@) =~~= pre.map_values(|x: Vec<u8>| x@) + trace_line_hop(
                            slines[k as int],
                        ));
                    }
                }
            }
        }
        proof {
            if views_of(out@) != views_of(pre) {
            } else {
                assert(views_of(out@) =~~= views_of(pre) + trace_line_hop(slines[k as int]));
            }
        }
        k += 1;
    }
    proof {
        assert(slines.subrange(0, slines.len() as int) =~= slines);
    }
    out
}


/// The texts a listing of byte sequences decodes to, in order.
pub open spec fn texts_of(s: Seq<Seq<u8>>) -> Seq<Seq<char>> {
    s.map_values(|x: Seq<u8>| utf8_text_of(x))
}

/// The gateway hop the routing table contributes: the chosen gateway when
/// it is a well-formed IPv4 address, else nothing.
pub open spec fn gateway_hop(route_text: Seq<u8>) -> Seq<Seq<char>> {
    match spec_route_choice(route_text).0 {
        Some(g) => {
            if spec_parse_ipv4(g) is Some {
                seq![utf8_text_of(g)]
            } else {
                Seq::empty()
            }
        },
        None => Seq::empty(),
    }
}

/// Whether a hop listing already names this address.
pub fn hops_contain(hops: &Vec<String>, s: &str) -> (r: bool)
    ensures
        r == crate::scanxml::strings_view(hops@).contains(s@),
{
    let mut k: usize = 0;
    while k < hops.len()
        invariant
            0 <= k <= hops@.len(),
            forall|i: int| 0 <= i < k ==> crate::scanxml::strings_view(hops@)[i] != s@,
        decreases hops@.len() - k,
    {
        proof {
            assert(crate::scanxml::strings_view(hops@)[k as int] == hops@[k as int]@);
        }
        if str_eq(hops[k].as_str(), s) {
            proof {
                assert(crate::scanxml::strings_view(hops@).contains(s@));
            }
            return true;
        }
        k += 1;
    }
    proof {
        if crate::scanxml::strings_view(hops@).contains(s@) {
            let w = choose|i: int|
                0 <= i < crate::scanxml::strings_view(hops@).len() && crate::scanxml::strings_view(
                    hops@,
                )[i] == s@;
        }
    }
    false
}

/// Resolves one draft's route: reads the routing table's gateway and
/// network label, walks the traceroute output, and appends the target
/// itself when the trace did not reach it — so the routing graph always
/// gets a terminal edge.  A draft whose hop list already names its own
/// address is left alone.
pub fn apply_route_output(host: &mut probe::Host, route_text: &[u8], trace_text: &[u8])
    ensures
        *final(host) == (probe::Host {
            network: final(host).network,
            hops: final(host).hops,
            ..*old(host)
        }),
        crate::scanxml::strings_view(old(host).hops@).contains(old(host).ip@) ==> *final(host) == *old(
            host,
        ),
        !crate::scanxml::strings_view(old(host).hops@).contains(old(host).ip@) ==> {
            &&& ({
                let net = spec_route_choice(route_text@).1;
                &&& (net is Some ==> final(host).network@ == utf8_text_of(net->0))
                &&& (net is None ==> final(host).network == old(host).network)
            })
            &&& ({
                let grown = crate::scanxml::strings_view(old(host).hops@) + gateway_hop(route_text@)
                    + texts_of(spec_trace_hops(trace_text@));
                crate::scanxml::strings_view(final(host).hops@) == grown + (if grown.contains(
                    old(host).ip@,
                ) {
                    Seq::<Seq<char>>::empty()
                } else {
                    seq![old(host).ip@]
                })
            })
        },
{
    if hops_contain(&host.hops, host.ip.as_str()) {
        return;
    }
    let (gw, net) = parse_route_choice(route_text);
    if let Some(n) = net {
        host.network = bytes_text(n.as_slice());
    }

    if let Some(g) = gw {
        if parse_ipv4(g.as_slice()).is_some() {
            host.hops.push(bytes_text(g.as_slice()));
        }
    }
    proof {
        assert(crate::scanxml::strings_view(host.hops@) =~~= crate::scanxml::strings_view(
            old(host).hops@,
        ) + gateway_hop(route_text@));
    }
    let ghost with_gw = crate::scanxml::strings_view(host.hops@);
    let trace = parse_trace_hops(trace_text);
    let ghost thops = spec_trace_hops(trace_text@);
    let mut k: usize = 0;
    while k < trace.len()
        invariant
            0 <= k <= trace@.len(),
            views_of(trace@) == thops,
            trace@.len() == thops.len(),
            crate::scanxml::strings_view(host.hops@) == with_gw + texts_of(thops.subrange(0, k as int)),
            *host == (probe::Host { network: host.network, hops: host.hops, ..*old(host) }),
            (spec_route_choice(route_text@).1 is Some) ==> host.network@ == utf8_text_of(
                spec_route_choice(route_text@).1->0,
            ),
            (spec_route_choice(route_text@).1 is None) ==> host.network == old(host).network,
        decreases trace@.len() - k,
    {
        proof {
            assert(trace@[k as int]@ == thops[k as int]);
        }
        let ghost pre_hops = host.hops@;
        let hop_text = bytes_text(trace[k].as_slice());
        proof {
            assert(hop_text@ == utf8_text_of(thops[k as int]));
        }
        host.hops.push(hop_text);
        proof {
            assert(thops.subrange(0, k as int + 1) =~= thops.subrange(0, k as int).push(thops[k as int]));
            assert(texts_of(thops.subrange(0, k as int + 1)) =~~= texts_of(
                thops.subrange(0, k as int),
            ).push(utf8_text_of(thops[k as int])));
            assert(crate::scanxml::strings_view(host.hops@) =~~= crate::scanxml::strings_view(
                pre_hops,
            ).push(utf8_text_of(thops[k as int])));
            assert(crate::scanxml::strings_view(host.hops@) =~~= with_gw + texts_of(
                thops.subrange(0, k as int + 1),
            ));
        }
        k += 1;
    }
    proof {
        assert(thops.subrange(0, thops.len() as int) =~= thops);
    }
    if !hops_contain(&host.hops, host.ip.as_str()) {
        let target = host.ip.clone();
        host.hops.push(target);
        proof {
            assert(crate::scanxml::strings_view(host.hops@) =~~= with_gw + texts_of(thops) + seq![
                old(host).ip@,
            ]);
        }
    } else {
        proof {
            assert(crate::scanxml::strings_view(host.hops@) =~~= with_gw + texts_of(thops)
                + Seq::<Seq<char>>::empty());
        }
    }
}

} // verus!
