//! The SMB enumeration reader: the probe tool reports JSON; the library
//! walks it through the JSON crate's opaque values and assembles the
//! probe-side SMB data, dropping empty strings where the report uses them
//! for absent fields.  The document's member texts are named below —
//! each a function of the document value alone — so the assembly's
//! contract pins every field.

use vstd::prelude::*;
use crate::probe::{Windows, WindowsInfo, WindowsDomain, WindowsShare, WindowsPrinter};
use crate::scanxml::strings_view;

verus! {

#[verifier::external_type_specification]
#[verifier::external_body]
pub struct ExValue(serde_json::Value);

/// The text is a well-formed JSON document; named here, decided by the
/// parser.
pub uninterp spec fn json_parses(s: Seq<char>) -> bool;

/// The document has an object member under this key.
pub uninterp spec fn json_has_member(v: serde_json::Value, key: Seq<char>) -> bool;

/// The text of the document's string member under this key, if the member
/// exists and is a string.
pub uninterp spec fn json_member_text(v: serde_json::Value, key: Seq<char>) -> Option<Seq<char>>;

/// The text of the string member `k2` of the object member `k1`.
pub uninterp spec fn json_member2_text(v: serde_json::Value, k1: Seq<char>, k2: Seq<char>) -> Option<Seq<
    char,
>>;

/// The text of the string member `k3` of the object member `k2` of the
/// object member `k1`.
pub uninterp spec fn json_member3_text(
    v: serde_json::Value,
    k1: Seq<char>,
    k2: Seq<char>,
    k3: Seq<char>,
) -> Option<Seq<char>>;

/// The keys of the object member under this key, in the object's order, if
/// that member is an object.
pub uninterp spec fn json_object_keys(v: serde_json::Value, key: Seq<char>) -> Option<Seq<Seq<char>>>;

/// Relies on `serde_json::from_str`: whether a text parses as JSON is a
/// function of the text alone (deep recursion returns an error, no panic).
#[verifier::external_body]
pub fn json_parse(s: &str) -> (r: Option<serde_json::Value>)
    ensures
        (r is Some) == json_parses(s@),
{
    serde_json::from_str(s).ok()
}

/// Relies on `serde_json::Value::get`: whether the document carries a
/// member under the key is a function of the value alone.
#[verifier::external_body]
pub fn json_has(v: &serde_json::Value, key: &str) -> (r: bool)
    ensures
        r == json_has_member(*v, key@),
{
    v.get(key).is_some()
}

/// Relies on `serde_json::Value::get` and `as_str`: the member's text is a
/// function of the value alone.
#[verifier::external_body]
pub fn json_member_str(v: &serde_json::Value, key: &str) -> (r: Option<String>)
    ensures
        ((r is Some) == (json_member_text(*v, key@) is Some)),
        r matches Some(s) ==> Some(s@) == json_member_text(*v, key@),
{
    v.get(key).and_then(|m| m.as_str()).map(|s| s.to_string())
}

/// Relies on `serde_json::Value::get` (twice) and `as_str`: the nested
/// member's text is a function of the value alone.
#[verifier::external_body]
pub fn json_member2_str(v: &serde_json::Value, k1: &str, k2: &str) -> (r: Option<String>)
    ensures
        ((r is Some) == (json_member2_text(*v, k1@, k2@) is Some)),
        r matches Some(s) ==> Some(s@) == json_member2_text(*v, k1@, k2@),
{
    v.get(k1).and_then(|m| m.get(k2)).and_then(|m| m.as_str()).map(|s| s.to_string())
}

/// Relies on `serde_json::Value::get` (three deep) and `as_str`: the nested
/// member's text is a function of the value alone.
#[verifier::external_body]
pub fn json_member3_str(v: &serde_json::Value, k1: &str, k2: &str, k3: &str) -> (r: Option<String>)
    ensures
        ((r is Some) == (json_member3_text(*v, k1@, k2@, k3@) is Some)),
        r matches Some(s) ==> Some(s@) == json_member3_text(*v, k1@, k2@, k3@),
{
    v.get(k1).and_then(|m| m.get(k2)).and_then(|m| m.get(k3)).and_then(|m| m.as_str()).map(
        |s| s.to_string(),
    )
}

/// Relies on `serde_json::Value::get`, `as_str` and the map's key iterator:
/// an object member's keys, in the object's own order, a function of the
/// value alone.
#[verifier::external_body]
pub fn json_keys(v: &serde_json::Value, key: &str) -> (r: Option<Vec<String>>)
    ensures
        ((r is Some) == (json_object_keys(*v, key@) is Some)),
        r matches Some(ks) ==> Some(strings_view(ks@)) == json_object_keys(*v, key@),
{
    v.get(key).and_then(|m| m.as_object()).map(|o| o.keys().cloned().collect())
}

/// Drops an empty text: the report writes empty strings for absent fields.
pub fn nonempty_opt(o: Option<String>) -> (r: Option<String>)
    ensures
        (r is Some) == (o matches Some(s) && s@.len() > 0),
        r matches Some(s) ==> o == Some(s) && s@.len() > 0,
{
    match o {
        Some(s) => {
            if s.as_str().is_empty() {
                None
            } else {
                Some(s)
            }
        },
        None => None,
    }
}

/// An optional text with empty text dropped.
pub open spec fn nonempty_text(o: Option<Seq<char>>) -> Option<Seq<char>> {
    match o {
        Some(s) => if s.len() > 0 {
            Some(s)
        } else {
            None
        },
        None => None,
    }
}

/// An optional field carries exactly this optional text.
pub open spec fn text_opt_is(f: Option<String>, v: Option<Seq<char>>) -> bool {
    ((f is Some) == (v is Some)) && (v matches Some(t) ==> (f->0)@ == t)
}

/// A member's text under this key, with empty text dropped.
fn info_field(v: &serde_json::Value, k1: &str, k2: &str) -> (r: Option<String>)
    ensures
        text_opt_is(r, nonempty_text(json_member2_text(*v, k1@, k2@))),
{
    nonempty_opt(json_member2_str(v, k1, k2))
}

/// The SMB information block the document's `os_info` member carries.
pub open spec fn info_of_doc(v: serde_json::Value, i: WindowsInfo) -> bool {
    &&& text_opt_is(i.native_lan_manager, nonempty_text(json_member2_text(v, "os_info"@, "Native LAN manager"@)))
    &&& text_opt_is(i.native_os, nonempty_text(json_member2_text(v, "os_info"@, "Native OS"@)))
    &&& text_opt_is(i.os_name, nonempty_text(json_member2_text(v, "os_info"@, "OS"@)))
    &&& text_opt_is(i.os_build, nonempty_text(json_member2_text(v, "os_info"@, "OS build"@)))
    &&& text_opt_is(i.os_release, nonempty_text(json_member2_text(v, "os_info"@, "OS release"@)))
    &&& text_opt_is(i.os_version, nonempty_text(json_member2_text(v, "os_info"@, "OS version"@)))
    &&& text_opt_is(i.platform, nonempty_text(json_member2_text(v, "os_info"@, "Platform id"@)))
    &&& text_opt_is(i.server_type, nonempty_text(json_member2_text(v, "os_info"@, "Server type"@)))
    &&& text_opt_is(i.server_string, nonempty_text(json_member2_text(v, "os_info"@, "Server type string"@)))
}

/// The SMB domain block the document's `smb_domain_info` member carries
/// (the `domain` text sits at the document's top level).
pub open spec fn domain_of_doc(v: serde_json::Value, d: WindowsDomain) -> bool {
    &&& text_opt_is(d.domain, nonempty_text(json_member_text(v, "domain"@)))
    &&& text_opt_is(d.dns_domain, nonempty_text(json_member2_text(v, "smb_domain_info"@, "DNS domain"@)))
    &&& text_opt_is(d.derived_domain, nonempty_text(json_member2_text(v, "smb_domain_info"@, "Derived domain"@)))
    &&& text_opt_is(
        d.derived_membership,
        nonempty_text(json_member2_text(v, "smb_domain_info"@, "Derived membership"@)),
    )
    &&& text_opt_is(d.fqdn, nonempty_text(json_member2_text(v, "smb_domain_info"@, "FQDN"@)))
    &&& text_opt_is(d.netbios_name, nonempty_text(json_member2_text(v, "smb_domain_info"@, "NetBIOS computer name"@)))
    &&& text_opt_is(d.netbios_domain, nonempty_text(json_member2_text(v, "smb_domain_info"@, "NetBIOS domain name"@)))
}

/// One share row per member of the document's `shares` object, named by its
/// key, with the member's `comment` and `type` texts and no access data.
pub open spec fn shares_of_doc(v: serde_json::Value, shares: Seq<WindowsShare>) -> bool {
    match json_object_keys(v, "shares"@) {
        Some(ks) => shares.len() == ks.len() && forall|i: int|
            0 <= i < ks.len() ==> {
                &&& text_opt_is((#[trigger] shares[i]).name, Some(ks[i]))
                &&& text_opt_is(shares[i].comment, json_member3_text(v, "shares"@, ks[i], "comment"@))
                &&& text_opt_is(shares[i].share_type, json_member3_text(v, "shares"@, ks[i], "type"@))
                &&& shares[i].access@.len() == 0
            },
        None => shares.len() == 0,
    }
}

/// One printer row per member of the document's `printers` object, named by
/// its key, with the member's `comment`, `description` and `flags` texts.
pub open spec fn printers_of_doc(v: serde_json::Value, printers: Seq<WindowsPrinter>) -> bool {
    match json_object_keys(v, "printers"@) {
        Some(ks) => printers.len() == ks.len() && forall|i: int|
            0 <= i < ks.len() ==> {
                &&& text_opt_is((#[trigger] printers[i]).uri, Some(ks[i]))
                &&& text_opt_is(printers[i].comment, json_member3_text(v, "printers"@, ks[i], "comment"@))
                &&& text_opt_is(
                    printers[i].description,
                    json_member3_text(v, "printers"@, ks[i], "description"@),
                )
                &&& text_opt_is(printers[i].flags, json_member3_text(v, "printers"@, ks[i], "flags"@))
            },
        None => printers.len() == 0,
    }
}

/// The whole SMB data a document carries.
pub open spec fn windows_of_doc(v: serde_json::Value, w: Windows) -> bool {
    &&& (w.info is Some) == json_has_member(v, "os_info"@)
    &&& (w.info matches Some(i) ==> info_of_doc(v, i))
    &&& (w.domain is Some) == json_has_member(v, "smb_domain_info"@)
    &&& (w.domain matches Some(d) ==> domain_of_doc(v, d))
    &&& shares_of_doc(v, w.shares@)
    &&& printers_of_doc(v, w.printers@)
}

/// Assembles the probe-side SMB data out of the tool's JSON report: the
/// general information from the `os_info` object and the domain data from
/// `smb_domain_info` (both with empty texts dropped, present exactly when
/// their object is), one share and one printer per member of `shares` and
/// `printers` (each named by its key), and no share access data.
pub fn parse_windows_json(doc: &serde_json::Value) -> (r: Windows)
    ensures
        windows_of_doc(*doc, r),
{
    let info = if json_has(doc, "os_info") {
        Some(
            WindowsInfo {
                native_lan_manager: info_field(doc, "os_info", "Native LAN manager"),
                native_os: info_field(doc, "os_info", "Native OS"),
                os_name: info_field(doc, "os_info", "OS"),
                os_build: info_field(doc, "os_info", "OS build"),
                os_release: info_field(doc, "os_info", "OS release"),
                os_version: info_field(doc, "os_info", "OS version"),
                platform: info_field(doc, "os_info", "Platform id"),
                server_type: info_field(doc, "os_info", "Server type"),
                server_string: info_field(doc, "os_info", "Server type string"),
            },
        )
    } else {
        None
    };
    let domain = if json_has(doc, "smb_domain_info") {
        Some(
            WindowsDomain {
                domain: nonempty_opt(json_member_str(doc, "domain")),
                dns_domain: info_field(doc, "smb_domain_info", "DNS domain"),
                derived_domain: info_field(doc, "smb_domain_info", "Derived domain"),
                derived_membership: info_field(doc, "smb_domain_info", "Derived membership"),
                fqdn: info_field(doc, "smb_domain_info", "FQDN"),
                netbios_name: info_field(doc, "smb_domain_info", "NetBIOS computer name"),
                netbios_domain: info_field(doc, "smb_domain_info", "NetBIOS domain name"),
            },
        )
    } else {
        None
    };
    let mut shares: Vec<WindowsShare> = Vec::new();
    match json_keys(doc, "shares") {
        Some(keys) => {
            let ghost ks = json_object_keys(*doc, "shares"@)->0;
            let mut k: usize = 0;
            while k < keys.len()
                invariant
                    Some(strings_view(keys@)) == json_object_keys(*doc, "shares"@),
                    ks == json_object_keys(*doc, "shares"@)->0,
                    keys@.len() == ks.len(),
                    0 <= k <= keys@.len(),
                    shares@.len() == k,
                    forall|i: int|
                        0 <= i < k ==> {
                            &&& text_opt_is((#[trigger] shares@[i]).name, Some(ks[i]))
                            &&& text_opt_is(
                                shares@[i].comment,
                                json_member3_text(*doc, "shares"@, ks[i], "comment"@),
                            )
                            &&& text_opt_is(
                                shares@[i].share_type,
                                json_member3_text(*doc, "shares"@, ks[i], "type"@),
                            )
                            &&& shares@[i].access@.len() == 0
                        },
                decreases keys@.len() - k,
            {
                proof {
                    assert(strings_view(keys@)[k as int] == keys@[k as int]@);
                }
                let comment = match json_member3_str(doc, "shares", keys[k].as_str(), "comment") {
                    Some(s) => Some(s),
                    None => None,
                };
                let share_type = match json_member3_str(doc, "shares", keys[k].as_str(), "type") {
                    Some(s) => Some(s),
                    None => None,
                };
                shares.push(
                    WindowsShare { name: Some(keys[k].clone()), comment, share_type, access: Vec::new() },
                );
                k += 1;
            }
        },
        None => {},
    }
    let mut printers: Vec<WindowsPrinter> = Vec::new();
    match json_keys(doc, "printers") {
        Some(keys) => {
            let ghost ks = json_object_keys(*doc, "printers"@)->0;
            let mut k: usize = 0;
            while k < keys.len()
                invariant
                    Some(strings_view(keys@)) == json_object_keys(*doc, "printers"@),
                    ks == json_object_keys(*doc, "printers"@)->0,
                    keys@.len() == ks.len(),
                    0 <= k <= keys@.len(),
                    printers@.len() == k,
                    forall|i: int|
                        0 <= i < k ==> {
                            &&& text_opt_is((#[trigger] printers@[i]).uri, Some(ks[i]))
                            &&& text_opt_is(
                                printers@[i].comment,
                                json_member3_text(*doc, "printers"@, ks[i], "comment"@),
                            )
                            &&& text_opt_is(
                                printers@[i].description,
                                json_member3_text(*doc, "printers"@, ks[i], "description"@),
                            )
                            &&& text_opt_is(
                                printers@[i].flags,
                                json_member3_text(*doc, "printers"@, ks[i], "flags"@),
                            )
                        },
                decreases keys@.len() - k,
            {
                proof {
                    assert(strings_view(keys@)[k as int] == keys@[k as int]@);
                }
                let comment = json_member3_str(doc, "printers", keys[k].as_str(), "comment");
                let description = json_member3_str(doc, "printers", keys[k].as_str(), "description");
                let flags = json_member3_str(doc, "printers", keys[k].as_str(), "flags");
                printers.push(WindowsPrinter { uri: Some(keys[k].clone()), comment, description, flags });
                k += 1;
            }
        },
        None => {},
    }
    Windows { info, domain, shares, printers }
}

/// Reads a whole SMB report text: the parse succeeds exactly when the text
/// is well-formed JSON, and the result then carries the document's SMB data.
pub fn parse_windows_report(text: &str) -> (r: Option<Windows>)
    ensures
        (r is Some) == json_parses(text@),
    {
    match json_parse(text) {
        Some(doc) => Some(parse_windows_json(&doc)),
        None => None,
    }
}

} // verus!
