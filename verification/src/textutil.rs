//! Small text helpers shared across the library.

use vstd::prelude::*;

verus! {

/// Relies on `str`'s `==` (its `PartialEq`): true exactly when the two
/// character sequences are equal.
#[verifier::external_body]
pub fn str_eq(a: &str, b: &str) -> (r: bool)
    ensures
        r == (a@ == b@),
{
    a == b
}


/// The text a byte sequence decodes to; named here, computed by the
/// decoder (invalid sequences decode to replacement characters).
pub uninterp spec fn utf8_text_of(bytes: Seq<u8>) -> Seq<char>;

/// Relies on `String::from_utf8_lossy`: the decoded text is a function of
/// the bytes alone, and ASCII bytes decode to themselves.
#[verifier::external_body]
pub fn bytes_text(v: &[u8]) -> (r: String)
    ensures
        r@ == utf8_text_of(v@),
        (forall|i: int| 0 <= i < v@.len() ==> #[trigger] v@[i] < 128) ==> r@.len() == v@.len()
            && (forall|i: int| 0 <= i < v@.len() ==> r@[i] == #[trigger] v@[i] as char),
{
    String::from_utf8_lossy(v).to_string()
}

/// Relies on `String::from_iter` over `char`: the collected string holds
/// exactly the characters of the vector, in order.
#[verifier::external_body]
pub fn string_from_chars(v: Vec<char>) -> (r: String)
    ensures
        r@ == v@,
{
    v.into_iter().collect()
}

/// The decimal digit character of a value below ten.
pub open spec fn dec_char(d: int) -> char {
    if d == 0 {
        '0'
    } else if d == 1 {
        '1'
    } else if d == 2 {
        '2'
    } else if d == 3 {
        '3'
    } else if d == 4 {
        '4'
    } else if d == 5 {
        '5'
    } else if d == 6 {
        '6'
    } else if d == 7 {
        '7'
    } else if d == 8 {
        '8'
    } else {
        '9'
    }
}

/// The decimal rendering of a natural number, most significant digit first.
pub open spec fn spec_udec(n: nat) -> Seq<char>
    decreases n,
{
    if n < 10 {
        seq![dec_char(n as int)]
    } else {
        spec_udec(n / 10).push(dec_char((n % 10) as int))
    }
}

/// The decimal rendering of an integer: a minus sign for negatives.
pub open spec fn spec_idec(n: int) -> Seq<char> {
    if n < 0 {
        seq!['-'] + spec_udec((-n) as nat)
    } else {
        spec_udec(n as nat)
    }
}

fn digit_char(d: u8) -> (r: char)
    requires
        d < 10,
    ensures
        r == dec_char(d as int),
{
    match d {
        0 => '0',
        1 => '1',
        2 => '2',
        3 => '3',
        4 => '4',
        5 => '5',
        6 => '6',
        7 => '7',
        8 => '8',
        _ => '9',
    }
}

fn push_udec(n: u64, out: &mut Vec<char>)
    ensures
        final(out)@ == old(out)@ + spec_udec(n as nat),
    decreases n,
{
    if n < 10 {
        out.push(digit_char(n as u8));
    } else {
        push_udec(n / 10, out);
        out.push(digit_char((n % 10) as u8));
    }
}

/// The decimal rendering of an unsigned value.
pub fn u64_to_string(n: u64) -> (r: String)
    ensures
        r@ == spec_udec(n as nat),
{
    let mut chars: Vec<char> = Vec::new();
    push_udec(n, &mut chars);
    proof {
        assert(Seq::<char>::empty() + spec_udec(n as nat) =~= spec_udec(n as nat));
    }
    string_from_chars(chars)
}

/// The decimal rendering of a signed value.
pub fn i64_to_string(n: i64) -> (r: String)
    ensures
        r@ == spec_idec(n as int),
{
    if n >= 0 {
        u64_to_string(n as u64)
    } else {
        let m: u64 = ((-(n + 1)) as u64) + 1;
        let mut chars: Vec<char> = Vec::new();
        chars.push('-');
        push_udec(m, &mut chars);
        proof {
            assert(seq!['-'] + spec_udec(m as nat) =~= spec_idec(n as int));
        }
        string_from_chars(chars)
    }
}

/// An ASCII decimal digit.
pub open spec fn is_digit(b: u8) -> bool {
    48 <= b <= 57
}

/// Every byte of the sequence is a decimal digit.
pub open spec fn all_digits(s: Seq<u8>) -> bool {
    forall|i: int| 0 <= i < s.len() ==> is_digit(#[trigger] s[i])
}

/// The value of a digit string, most significant digit first.
pub open spec fn spec_dec_value(s: Seq<u8>) -> int
    decreases s.len(),
{
    if s.len() == 0 {
        0
    } else {
        spec_dec_value(s.drop_last()) * 10 + (s.last() - 48)
    }
}

/// Parses an unsigned decimal number; rejects empty input, non-digits and
/// values over the `u64` range.
pub fn parse_u64(s: &[u8]) -> (r: Option<u64>)
    ensures
        (r is Some) == (s@.len() > 0 && all_digits(s@) && spec_dec_value(s@) <= u64::MAX),
        r matches Some(v) ==> v == spec_dec_value(s@),
{
    if s.len() == 0 {
        return None;
    }
    let mut acc: u64 = 0;
    let mut k: usize = 0;
    while k < s.len()
        invariant
            0 < s@.len(),
            0 <= k <= s@.len(),
            all_digits(s@.subrange(0, k as int)),
            acc == spec_dec_value(s@.subrange(0, k as int)),
        decreases s@.len() - k,
    {
        proof {
            assert(s@.subrange(0, k as int + 1).drop_last() =~= s@.subrange(0, k as int));
            assert(s@.subrange(0, k as int + 1).last() == s@[k as int]);
        }
        let b = s[k];
        if b < 48 || b > 57 {
            proof {
                assert(!all_digits(s@)) by {
                    assert(s@[k as int] == b);
                }
            }
            return None;
        }
        let step = match acc.checked_mul(10) {
            Some(x) => x.checked_add((b - 48) as u64),
            None => None,
        };
        acc = match step {
            Some(x) => x,
            None => {
                proof {
                    if all_digits(s@) {
                        assert(s@.subrange(0, s@.len() as int) =~= s@);
                        assert(spec_dec_value(s@.subrange(0, k as int + 1)) > u64::MAX);
                        lemma_dec_value_grows(s@, k as int + 1, s@.len() as int);
                        assert(spec_dec_value(s@) > u64::MAX);
                    }
                }
                return None;
            },
        };
        k += 1;
    }
    proof {
        assert(s@.subrange(0, s@.len() as int) =~= s@);
    }
    Some(acc)
}

/// The value of a digit string never shrinks as more digits follow.
proof fn lemma_dec_value_grows(s: Seq<u8>, i: int, j: int)
    requires
        0 <= i <= j <= s.len(),
        all_digits(s.subrange(0, j)),
        spec_dec_value(s.subrange(0, i)) >= 0,
    ensures
        spec_dec_value(s.subrange(0, j)) >= spec_dec_value(s.subrange(0, i)),
    decreases j - i,
{
    if i < j {
        assert(s.subrange(0, j).drop_last() =~= s.subrange(0, j - 1));
        assert(all_digits(s.subrange(0, j - 1))) by {
            assert forall|x: int| 0 <= x < j - 1 implies is_digit(#[trigger] s.subrange(0, j - 1)[x]) by {
                assert(s.subrange(0, j)[x] == s.subrange(0, j - 1)[x]);
            }
        }
        lemma_dec_value_grows(s, i, j - 1);
        assert(spec_dec_value(s.subrange(0, j - 1)) >= 0);
        assert(s.subrange(0, j).last() == s[j - 1]);
        assert(is_digit(s.subrange(0, j)[j - 1]));
    }
}

/// The bytes of a character sequence, character by character (meaningful
/// for ASCII text).
pub open spec fn ascii_of(s: Seq<char>) -> Seq<u8> {
    s.map_values(|c: char| c as u8)
}

/// Whether two byte sequences are equal.
pub fn bytes_eq(a: &[u8], b: &[u8]) -> (r: bool)
    ensures
        r == (a@ == b@),
{
    if a.len() != b.len() {
        return false;
    }
    let mut k: usize = 0;
    while k < a.len()
        invariant
            a@.len() == b@.len(),
            0 <= k <= a@.len(),
            forall|i: int| 0 <= i < k ==> a@[i] == b@[i],
        decreases a@.len() - k,
    {
        if a[k] != b[k] {
            return false;
        }
        k += 1;
    }
    proof {
        assert(a@ =~= b@);
    }
    true
}

/// The byte sequences a vector of byte vectors holds, in order.
pub open spec fn views_of(v: Seq<Vec<u8>>) -> Seq<Seq<u8>> {
    v.map_values(|x: Vec<u8>| x@)
}

/// Text with its ASCII capitals lowered; other characters stay.
pub open spec fn lower_ascii(s: Seq<char>) -> Seq<char> {
    s.map_values(
        |c: char|
            if 'A' <= c && c <= 'Z' {
                (((c as u8) + 32) as char)
            } else {
                c
            },
    )
}

/// Lowers the ASCII capitals of a text.
pub fn to_ascii_lower(s: &str) -> (r: String)
    ensures
        r@ == lower_ascii(s@),
{
    let n = s.unicode_len();
    let mut out: Vec<char> = Vec::new();
    let mut k: usize = 0;
    while k < n
        invariant
            n == s@.len(),
            0 <= k <= n,
            out@ == lower_ascii(s@.subrange(0, k as int)),
        decreases n - k,
    {
        let c = s.get_char(k);
        out.push(
            if 'A' <= c && c <= 'Z' {
                ((c as u8) + 32) as char
            } else {
                c
            },
        );
        proof {
            assert(out@ =~= lower_ascii(s@.subrange(0, k as int + 1)));
        }
        k += 1;
    }
    proof {
        assert(s@.subrange(0, s@.len() as int) =~= s@);
    }
    string_from_chars(out)
}

/// The first position of this byte, or -1 when it does not occur.
pub open spec fn find_byte(s: Seq<u8>, b: u8) -> int
    decreases s.len(),
{
    if s.len() == 0 {
        -1
    } else if s[0] == b {
        0
    } else {
        let r = find_byte(s.drop_first(), b);
        if r < 0 {
            -1
        } else {
            r + 1
        }
    }
}

/// The first position of this byte, if it occurs.
pub fn find_byte_at(s: &[u8], b: u8) -> (r: Option<usize>)
    ensures
        (r is Some) == (find_byte(s@, b) >= 0),
        r matches Some(i) ==> i == find_byte(s@, b) && i < s@.len() && s@[i as int] == b,
    decreases s@.len(),
{
    if s.len() == 0 {
        None
    } else if s[0] == b {
        Some(0)
    } else {
        proof {
            assert(s@.subrange(1, s@.len() as int) =~= s@.drop_first());
        }
        match find_byte_at(vstd::slice::slice_subrange(s, 1, s.len()), b) {
            Some(i) => Some(i + 1),
            None => None,
        }
    }
}

/// A found byte position lies inside the sequence.
pub proof fn lemma_find_byte_bound(s: Seq<u8>, b: u8)
    ensures
        find_byte(s, b) < s.len(),
    decreases s.len(),
{
    if s.len() > 0 && s[0] != b {
        lemma_find_byte_bound(s.drop_first(), b);
    }
}

/// A found whitespace position lies inside the sequence.
pub proof fn lemma_find_space_bound(s: Seq<u8>)
    ensures
        find_space(s) < s.len(),
    decreases s.len(),
{
    if s.len() > 0 && !is_space(s[0]) {
        lemma_find_space_bound(s.drop_first());
    }
}

/// The pieces of a sequence split on a separator byte; the separator is
/// dropped and empty pieces are kept.
pub open spec fn split_on(s: Seq<u8>, sep: u8) -> Seq<Seq<u8>>
    decreases s.len(),
    via split_on_decreases
{
    let i = find_byte(s, sep);
    if i < 0 {
        seq![s]
    } else {
        seq![s.take(i)] + split_on(s.skip(i + 1), sep)
    }
}

#[via_fn]
proof fn split_on_decreases(s: Seq<u8>, sep: u8) {
    lemma_find_byte_bound(s, sep);
}

/// Splits on a separator byte, dropping the separators and keeping empty
/// pieces.
pub fn split_on_byte(s: &[u8], sep: u8) -> (r: Vec<Vec<u8>>)
    ensures
        views_of(r@) == split_on(s@, sep),
    decreases s@.len(),
{
    match find_byte_at(s, sep) {
        None => {
            let mut out: Vec<Vec<u8>> = Vec::new();
            out.push(vstd::slice::slice_to_vec(s));
            proof {
                assert(views_of(out@) =~~= seq![s@]);
            }
            out
        },
        Some(i) => {
            proof {
                assert(i < s@.len());
                assert(s@.subrange(0, i as int) =~= s@.take(i as int));
                assert(s@.subrange(i as int + 1, s@.len() as int) =~= s@.skip(i as int + 1));
            }
            assert(i < s.len());
            let head = vstd::slice::slice_to_vec(vstd::slice::slice_subrange(s, 0, i));
            let rest = split_on_byte(vstd::slice::slice_subrange(s, i + 1, s.len()), sep);
            let mut out: Vec<Vec<u8>> = Vec::new();
            out.push(head);
            let mut k: usize = 0;
            while k < rest.len()
                invariant
                    0 <= k <= rest@.len(),
                    out@.len() == k + 1,
                    out@[0]@ == s@.take(find_byte(s@, sep)),
                    forall|j: int| 1 <= j < k + 1 ==> (#[trigger] out@[j])@ == rest@[j - 1]@,
                decreases rest@.len() - k,
            {
                let piece = rest[k].clone();
                proof {
                    assert(piece@ == rest@[k as int]@);
                }
                out.push(piece);
                k += 1;
            }
            proof {
                assert(views_of(out@) =~~= seq![s@.take(find_byte(s@, sep))] + views_of(rest@));
            }
            out
        },
    }
}

/// An ASCII whitespace byte: space, tab, carriage return or line feed.
pub open spec fn is_space(b: u8) -> bool {
    b == 32 || b == 9 || b == 13 || b == 10
}

/// The first position of a whitespace byte, or -1 when none occurs.
pub open spec fn find_space(s: Seq<u8>) -> int
    decreases s.len(),
{
    if s.len() == 0 {
        -1
    } else if is_space(s[0]) {
        0
    } else {
        let r = find_space(s.drop_first());
        if r < 0 {
            -1
        } else {
            r + 1
        }
    }
}

fn find_space_at(s: &[u8]) -> (r: Option<usize>)
    ensures
        (r is Some) == (find_space(s@) >= 0),
        r matches Some(i) ==> i == find_space(s@) && i < s@.len() && is_space(s@[i as int]),
    decreases s@.len(),
{
    if s.len() == 0 {
        None
    } else if s[0] == 32 || s[0] == 9 || s[0] == 13 || s[0] == 10 {
        Some(0)
    } else {
        proof {
            assert(s@.subrange(1, s@.len() as int) =~= s@.drop_first());
        }
        match find_space_at(vstd::slice::slice_subrange(s, 1, s.len())) {
            Some(i) => Some(i + 1),
            None => None,
        }
    }
}

/// The whitespace-separated tokens of a byte sequence, in order, each
/// nonempty and free of whitespace.
pub open spec fn split_ws(s: Seq<u8>) -> Seq<Seq<u8>>
    decreases s.len(),
    via split_ws_decreases
{
    if s.len() == 0 {
        Seq::empty()
    } else if is_space(s[0]) {
        split_ws(s.drop_first())
    } else {
        let j = find_space(s);
        if j < 0 {
            seq![s]
        } else {
            seq![s.take(j)] + split_ws(s.skip(j))
        }
    }
}

#[via_fn]
proof fn split_ws_decreases(s: Seq<u8>) {
    lemma_find_space_bound(s);
}

/// Splits a byte sequence into its whitespace-separated tokens.
pub fn split_ws_tokens(s: &[u8]) -> (r: Vec<Vec<u8>>)
    ensures
        views_of(r@) == split_ws(s@),
    decreases s@.len(),
{
    if s.len() == 0 {
        let out: Vec<Vec<u8>> = Vec::new();
        proof {
            assert(out@.map_values(|v: Vec<u8>| v@) =~= Seq::<Seq<u8>>::empty());
        }
        out
    } else if s[0] == 32 || s[0] == 9 || s[0] == 13 || s[0] == 10 {
        proof {
            assert(s@.subrange(1, s@.len() as int) =~= s@.drop_first());
        }
        split_ws_tokens(vstd::slice::slice_subrange(s, 1, s.len()))
    } else {
        match find_space_at(s) {
            None => {
                let mut out: Vec<Vec<u8>> = Vec::new();
                out.push(vstd::slice::slice_to_vec(s));
                proof {
                    assert(views_of(out@) =~~= seq![s@]);
                }
                out
            },
            Some(j) => {
                proof {
                    assert(s@.subrange(0, j as int) =~= s@.take(j as int));
                    assert(s@.subrange(j as int, s@.len() as int) =~= s@.skip(j as int));
                }
                let head = vstd::slice::slice_to_vec(vstd::slice::slice_subrange(s, 0, j));
                let rest = split_ws_tokens(vstd::slice::slice_subrange(s, j, s.len()));
                let mut out: Vec<Vec<u8>> = Vec::new();
                out.push(head);
                let mut k: usize = 0;
                while k < rest.len()
                    invariant
                        0 <= k <= rest@.len(),
                        out@.len() == k + 1,
                        out@[0]@ == s@.take(find_space(s@)),
                        forall|i: int| 1 <= i < k + 1 ==> (#[trigger] out@[i])@ == rest@[i - 1]@,
                    decreases rest@.len() - k,
                {
                    let piece = rest[k].clone();
                    proof {
                        assert(piece@ == rest@[k as int]@);
                    }
                    out.push(piece);
                    k += 1;
                }
                proof {
                    assert(views_of(out@) =~~= seq![s@.take(find_space(s@))] + views_of(rest@));
                }
                out
            },
        }
    }
}

/// An IPv4 address in dotted-quad text: four digit groups, each valuing at
/// most 255, joined by dots (leading zeros are tolerated).
pub open spec fn spec_parse_ipv4(s: Seq<u8>) -> Option<u32> {
    let parts = split_on(s, 46);
    if parts.len() == 4 && (forall|i: int|
        0 <= i < 4 ==> (#[trigger] parts[i]).len() > 0 && all_digits(parts[i]) && spec_dec_value(parts[i])
            <= 255) {
        Some(
            (spec_dec_value(parts[0]) * 0x1000000 + spec_dec_value(parts[1]) * 0x10000 + spec_dec_value(
                parts[2],
            ) * 0x100 + spec_dec_value(parts[3])) as u32,
        )
    } else {
        None
    }
}

/// Parses a dotted-quad IPv4 address from bytes.
pub fn parse_ipv4(s: &[u8]) -> (r: Option<u32>)
    ensures
        r == spec_parse_ipv4(s@),
{
    let parts = split_on_byte(s, 46);
    let ghost sparts = split_on(s@, 46);
    if parts.len() != 4 {
        return None;
    }
    let mut vals: Vec<u32> = Vec::new();
    let mut k: usize = 0;
    while k < 4
        invariant
            sparts == split_on(s@, 46),
            parts@.len() == 4,
            sparts.len() == 4,
            views_of(parts@) == sparts,
            0 <= k <= 4,
            vals@.len() == k,
            forall|i: int|
                0 <= i < k ==> (#[trigger] sparts[i]).len() > 0 && all_digits(sparts[i]) && spec_dec_value(
                    sparts[i],
                ) <= 255 && vals@[i] == spec_dec_value(sparts[i]),
        decreases 4 - k,
    {
        proof {
            assert(parts@[k as int]@ == sparts[k as int]);
        }
        match parse_u64(parts[k].as_slice()) {
            Some(v) if v <= 255 => {
                vals.push(v as u32);
            },
            _ => {
                proof {
                    assert(!(sparts[k as int].len() > 0 && all_digits(sparts[k as int]) && spec_dec_value(
                        sparts[k as int],
                    ) <= 255));
                }
                return None;
            },
        }
        k += 1;
    }
    Some(vals[0] * 0x1000000 + vals[1] * 0x10000 + vals[2] * 0x100 + vals[3])
}

/// Renders an IPv4 address as dotted-quad text.
pub fn ipv4_to_string(ip: u32) -> (r: String)
    ensures
        r@ == spec_udec(((ip >> 24) & 0xff) as nat) + seq!['.'] + spec_udec(((ip >> 16) & 0xff) as nat)
            + seq!['.'] + spec_udec(((ip >> 8) & 0xff) as nat) + seq!['.'] + spec_udec((ip & 0xff) as nat),
{
    let mut s = u64_to_string(((ip >> 24) & 0xff) as u64);
    s.append(".");
    let b = u64_to_string(((ip >> 16) & 0xff) as u64);
    s.append(b.as_str());
    s.append(".");
    let c = u64_to_string(((ip >> 8) & 0xff) as u64);
    s.append(c.as_str());
    s.append(".");
    let d = u64_to_string((ip & 0xff) as u64);
    s.append(d.as_str());
    proof {
        reveal_strlit(".");
        assert((".")@ =~= seq!['.']);
    }
    s
}


/// An ASCII decimal digit character.
pub open spec fn is_digit_char(c: char) -> bool {
    48 <= (c as u32) <= 57
}

/// Every character of the sequence is a decimal digit.
pub open spec fn all_digit_chars(s: Seq<char>) -> bool {
    forall|i: int| 0 <= i < s.len() ==> is_digit_char(#[trigger] s[i])
}

/// The value of a digit character sequence, most significant digit first.
pub open spec fn char_dec_value(s: Seq<char>) -> int
    decreases s.len(),
{
    if s.len() == 0 {
        0
    } else {
        char_dec_value(s.drop_last()) * 10 + (s.last() as u32 - 48)
    }
}

/// Parses an unsigned decimal number out of text; rejects empty input,
/// non-digits and values over the bound.
pub fn parse_u64_chars(s: &str, bound: u64) -> (r: Option<u64>)
    ensures
        (r is Some) == (s@.len() > 0 && all_digit_chars(s@) && char_dec_value(s@) <= bound),
        r matches Some(v) ==> v == char_dec_value(s@),
{
    let n = s.unicode_len();
    if n == 0 {
        return None;
    }
    let mut acc: u64 = 0;
    let mut k: usize = 0;
    while k < n
        invariant
            n == s@.len(),
            0 < s@.len(),
            0 <= k <= n,
            all_digit_chars(s@.subrange(0, k as int)),
            acc == char_dec_value(s@.subrange(0, k as int)),
            acc <= bound,
        decreases n - k,
    {
        proof {
            assert(s@.subrange(0, k as int + 1).drop_last() =~= s@.subrange(0, k as int));
            assert(s@.subrange(0, k as int + 1).last() == s@[k as int]);
        }
        let c = s.get_char(k);
        let cv = c as u32;
        if cv < 48 || cv > 57 {
            proof {
                assert(!all_digit_chars(s@)) by {
                    assert(s@[k as int] == c);
                }
            }
            return None;
        }
        let step = match acc.checked_mul(10) {
            Some(x) => x.checked_add((cv - 48) as u64),
            None => None,
        };
        let next = match step {
            Some(x) if x <= bound => x,
            _ => {
                proof {
                    if all_digit_chars(s@) {
                        assert(s@.subrange(0, s@.len() as int) =~= s@);
                        assert(char_dec_value(s@.subrange(0, k as int + 1)) > bound);
                        lemma_char_dec_value_grows(s@, k as int + 1, s@.len() as int);
                    }
                }
                return None;
            },
        };
        acc = next;
        k += 1;
    }
    proof {
        assert(s@.subrange(0, s@.len() as int) =~= s@);
    }
    Some(acc)
}

/// The value of a digit text never shrinks as more digits follow.
proof fn lemma_char_dec_value_grows(s: Seq<char>, i: int, j: int)
    requires
        0 <= i <= j <= s.len(),
        all_digit_chars(s.subrange(0, j)),
        char_dec_value(s.subrange(0, i)) >= 0,
    ensures
        char_dec_value(s.subrange(0, j)) >= char_dec_value(s.subrange(0, i)),
    decreases j - i,
{
    if i < j {
        assert(s.subrange(0, j).drop_last() =~= s.subrange(0, j - 1));
        assert(all_digit_chars(s.subrange(0, j - 1))) by {
            assert forall|x: int| 0 <= x < j - 1 implies is_digit_char(#[trigger] s.subrange(0, j - 1)[x]) by {
                assert(s.subrange(0, j)[x] == s.subrange(0, j - 1)[x]);
            }
        }
        lemma_char_dec_value_grows(s, i, j - 1);
        assert(char_dec_value(s.subrange(0, j - 1)) >= 0);
        assert(is_digit_char(s.subrange(0, j)[j - 1]));
    }
}

/// The first position of this character, or -1 when it does not occur.
pub open spec fn find_char(s: Seq<char>, c: char) -> int
    decreases s.len(),
{
    if s.len() == 0 {
        -1
    } else if s[0] == c {
        0
    } else {
        let r = find_char(s.drop_first(), c);
        if r < 0 {
            -1
        } else {
            r + 1
        }
    }
}

/// A found character position lies inside the sequence.
pub proof fn lemma_find_char_bound(s: Seq<char>, c: char)
    ensures
        find_char(s, c) < s.len(),
        find_char(s, c) >= 0 ==> s[find_char(s, c)] == c && (forall|i: int|
            0 <= i < find_char(s, c) ==> s[i] != c),
        find_char(s, c) < 0 ==> forall|i: int| 0 <= i < s.len() ==> s[i] != c,
    decreases s.len(),
{
    if s.len() > 0 && s[0] != c {
        lemma_find_char_bound(s.drop_first(), c);
        assert forall|i: int| 1 <= i < s.len() implies s.drop_first()[i - 1] == s[i] by {}
    }
}

/// The first position of this character, if it occurs.
pub fn find_char_at(s: &str, c: char) -> (r: Option<usize>)
    ensures
        (r is Some) == (find_char(s@, c) >= 0),
        r matches Some(i) ==> i == find_char(s@, c),
{
    let n = s.unicode_len();
    let mut k: usize = 0;
    proof {
        lemma_find_char_bound(s@, c);
    }
    while k < n
        invariant
            n == s@.len(),
            0 <= k <= n,
            find_char(s@, c) < s@.len(),
            find_char(s@, c) >= 0 ==> s@[find_char(s@, c)] == c && (forall|i: int|
                0 <= i < find_char(s@, c) ==> s@[i] != c),
            find_char(s@, c) < 0 ==> forall|i: int| 0 <= i < s@.len() ==> s@[i] != c,
            forall|i: int| 0 <= i < k ==> s@[i] != c,
        decreases n - k,
    {
        if s.get_char(k) == c {
            proof {
                assert(s@[k as int] == c);
                if find_char(s@, c) < k as int {
                }
                if find_char(s@, c) > k as int {
                }
            }
            return Some(k);
        }
        k += 1;
    }
    None
}

/// The CVSS score of a probe's text, in tenths of a point: the integer part
/// times ten plus the first fraction digit.  Text that does not look like a
/// decimal number scores zero, as probe parse failures fold to zero.
pub open spec fn spec_cvss_tenths(s: Seq<char>) -> u32 {
    let dot = find_char(s, '.');
    if dot < 0 {
        if s.len() > 0 && all_digit_chars(s) && char_dec_value(s) <= 42949672 {
            (char_dec_value(s) * 10) as u32
        } else {
            0
        }
    } else {
        let whole = s.take(dot);
        let frac = s.skip(dot + 1);
        if whole.len() > 0 && all_digit_chars(whole) && char_dec_value(whole) <= 42949672 && frac.len() > 0
            && is_digit_char(frac[0]) {
            (char_dec_value(whole) * 10 + (frac[0] as u32 - 48)) as u32
        } else {
            0
        }
    }
}

/// Parses a CVSS score into tenths of a point; anything unparsable is zero.
pub fn parse_cvss_tenths(s: &str) -> (r: u32)
    ensures
        r == spec_cvss_tenths(s@),
{
    proof {
        lemma_find_char_bound(s@, '.');
    }
    match find_char_at(s, '.') {
        None => {
            match parse_u64_chars(s, 42949672) {
                Some(v) => (v as u32) * 10,
                None => 0,
            }
        },
        Some(dot) => {
            let n = s.unicode_len();
            proof {
                assert(s@.subrange(0, dot as int) =~= s@.take(dot as int));
                assert(s@.subrange(dot as int + 1, s@.len() as int) =~= s@.skip(dot as int + 1));
            }
            let whole = s.substring_char(0, dot);
            let frac = s.substring_char(dot + 1, n);
            let w = match parse_u64_chars(whole, 42949672) {
                Some(v) => v,
                None => {
                    return 0;
                },
            };
            if frac.unicode_len() == 0 {
                return 0;
            }
            let f = frac.get_char(0);
            let fv = f as u32;
            if fv < 48 || fv > 57 {
                return 0;
            }
            (w as u32) * 10 + (fv - 48)
        },
    }
}


/// The needle occurs at this position of the haystack.
pub open spec fn contains_at(hay: Seq<u8>, needle: Seq<u8>, i: int) -> bool {
    0 <= i && i + needle.len() <= hay.len() && hay.subrange(i, i + needle.len()) == needle
}

/// The needle occurs somewhere in the haystack.
pub open spec fn contains_seq(hay: Seq<u8>, needle: Seq<u8>) -> bool {
    exists|i: int| contains_at(hay, needle, i)
}

/// Whether the needle occurs in the haystack.
pub fn contains_bytes(hay: &[u8], needle: &[u8]) -> (r: bool)
    ensures
        r == contains_seq(hay@, needle@),
{
    if needle.len() == 0 {
        proof {
            assert(hay@.subrange(0, 0) =~= needle@);
            assert(contains_at(hay@, needle@, 0));
        }
        return true;
    }
    if needle.len() > hay.len() {
        proof {
            if contains_seq(hay@, needle@) {
                let w = choose|i: int| contains_at(hay@, needle@, i);
            }
        }
        return false;
    }
    let mut k: usize = 0;
    while k <= hay.len() - needle.len()
        invariant
            needle@.len() <= hay@.len(),
            0 <= k <= hay@.len() - needle@.len() + 1,
            needle@.len() >= 1,
            forall|i: int| 0 <= i < k ==> !contains_at(hay@, needle@, i),
        decreases hay@.len() + 1 - k,
    {
        let piece = vstd::slice::slice_subrange(hay, k, k + needle.len());
        if bytes_eq(piece, needle) {
            proof {
                assert(contains_at(hay@, needle@, k as int));
            }
            return true;
        }
        k += 1;
    }
    proof {
        if contains_seq(hay@, needle@) {
            let w = choose|i: int| contains_at(hay@, needle@, i);
            assert(w < k);
        }
    }
    false
}

/// The last position of this byte, or -1 when it does not occur.
pub open spec fn find_last_byte(s: Seq<u8>, b: u8) -> int
    decreases s.len(),
{
    if s.len() == 0 {
        -1
    } else if s.last() == b {
        s.len() - 1
    } else {
        find_last_byte(s.drop_last(), b)
    }
}

/// The last position of this byte, if it occurs.
pub fn find_last_byte_at(s: &[u8], b: u8) -> (r: Option<usize>)
    ensures
        (r is Some) == (find_last_byte(s@, b) >= 0),
        r matches Some(i) ==> i == find_last_byte(s@, b) && i < s@.len(),
{
    let mut k: usize = s.len();
    proof {
        assert(s@.subrange(0, s@.len() as int) =~= s@);
    }
    while k > 0
        invariant
            0 <= k <= s@.len(),
            find_last_byte(s@, b) == find_last_byte(s@.subrange(0, k as int), b),
        decreases k,
    {
        proof {
            assert(s@.subrange(0, k as int).last() == s@[k as int - 1]);
            assert(s@.subrange(0, k as int).drop_last() =~= s@.subrange(0, k as int - 1));
        }
        if s[k - 1] == b {
            proof {
                lemma_find_last_byte_bound(s@, b);
            }
            return Some(k - 1);
        }
        k -= 1;
    }
    proof {
        assert(s@.subrange(0, 0) =~= Seq::<u8>::empty());
    }
    None
}

/// A found last position lies inside the sequence.
pub proof fn lemma_find_last_byte_bound(s: Seq<u8>, b: u8)
    ensures
        find_last_byte(s, b) < s.len(),
    decreases s.len(),
{
    if s.len() > 0 && s.last() != b {
        lemma_find_last_byte_bound(s.drop_last(), b);
    }
}

} // verus!
