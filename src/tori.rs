//! The tori.fi site adapter: query translation for its search pages.

use vstd::prelude::*;
use crate::error::Error;
use crate::models::DbVahti;
use crate::vahti::{matches_pattern, pattern_accepts, TORI_ID, TORI_PATTERN};
use crate::text::{chars_of, decimal, eq_str, parse_unsigned, push_chars, push_decimal, string_from_chars, unsigned_value};

verus! {

/// The start of every upstream search request of this site.
pub const TORI_API_BASE: &'static str = "https://api.tori.fi/api/v1.2/public/ads?";

pub type Param = (Seq<char>, Seq<char>);

pub open spec fn is_hex_digit(c: char) -> bool {
    ('0' <= c && c <= '9') || ('a' <= c && c <= 'f') || ('A' <= c && c <= 'F')
}

pub open spec fn hex_digit_value(c: char) -> int {
    if '0' <= c && c <= '9' {
        c as int - '0' as int
    } else if 'a' <= c && c <= 'f' {
        c as int - 'a' as int + 10
    } else {
        c as int - 'A' as int + 10
    }
}

/// The bytes that a string of hex digit pairs denotes, if it is one.
pub open spec fn hex_bytes(s: Seq<char>) -> Option<Seq<u8>> {
    if s.len() % 2 == 0 && forall|i: int| 0 <= i < s.len() ==> is_hex_digit(#[trigger] s[i]) {
        Some(
            Seq::new(
                (s.len() / 2) as nat,
                |i: int| (hex_digit_value(s[2 * i]) * 16 + hex_digit_value(s[2 * i + 1])) as u8,
            ),
        )
    } else {
        None
    }
}

/// What the ISO 8859-2 decoder of the `encoding` crate makes of `b`, unmappable bytes skipped.
pub uninterp spec fn latin2_text(b: Seq<u8>) -> Seq<char>;

/// The query's key-value pairs, percent- and plus-decoded, of the URL that
/// the `url` crate parses from `s`; `None` where it parses none.
pub uninterp spec fn url_query_pairs(s: Seq<char>) -> Option<Seq<Param>>;

/// Relies on `hex::decode`: an even number of hex digits, either case, read
/// pairwise as bytes; anything else is an error.
#[verifier::external_body]
fn hex_decode(s: &str) -> (r: Option<Vec<u8>>)
    ensures
        match r {
            Some(b) => hex_bytes(s@) == Some(b@),
            None => hex_bytes(s@) is None,
        },
{
    hex::decode(s).ok()
}

/// Relies on the `encoding` crate's `ISO_8859_2.decode` with `DecoderTrap::Ignore`.
#[verifier::external_body]
fn latin2_decode(b: &Vec<u8>) -> (r: String)
    ensures
        r@ == latin2_text(b@),
{
    encoding::Encoding::decode(encoding::all::ISO_8859_2, b, encoding::DecoderTrap::Ignore).unwrap_or_default()
}

pub open spec fn string_pair_views(v: Seq<(String, String)>) -> Seq<Param> {
    v.map_values(|p: (String, String)| (p.0@, p.1@))
}

pub open spec fn pair_views(v: Seq<(Vec<char>, Vec<char>)>) -> Seq<Param> {
    v.map_values(|p: (Vec<char>, Vec<char>)| (p.0@, p.1@))
}

/// Relies on `url::Url::parse` and `Url::query_pairs`: the decoded key-value
/// pairs of the parsed URL's query, in order.
#[verifier::external_body]
fn query_pairs(s: &str) -> (r: Option<Vec<(String, String)>>)
    ensures
        match r {
            Some(v) => url_query_pairs(s@) == Some(string_pair_views(v@)),
            None => url_query_pairs(s@) is None,
        },
{
    match url::Url::parse(s) {
        Ok(u) => Some(u.query_pairs().into_owned().collect()),
        Err(_) => None,
    }
}

pub open spec fn prepend(p: Seq<char>, o: Option<Seq<char>>) -> Option<Seq<char>> {
    match o {
        Some(r) => Some(p + r),
        None => None,
    }
}

/// How many characters after a `%` name an escaped byte: two, or what is left.
pub open spec fn escape_len(s: Seq<char>) -> int {
    if s.len() >= 3 { 2 } else { s.len() - 1 }
}

/// The search URL `s` with its escapes decoded: `%%` stands for `%`, and `%`
/// with two hex digits for a byte read as ISO 8859-2. `None` where an escape
/// is malformed.
pub open spec fn url_decoded(s: Seq<char>) -> Option<Seq<char>>
    decreases s.len(),
{
    if s.len() == 0 {
        Some(Seq::empty())
    } else if s[0] == '%' {
        if s.len() >= 2 && s[1] == '%' {
            prepend(seq!['%'], url_decoded(s.skip(2)))
        } else {
            let n = escape_len(s);
            match hex_bytes(s.subrange(1, 1 + n)) {
                Some(b) => prepend(latin2_text(b), url_decoded(s.skip(1 + n))),
                None => None,
            }
        }
    } else {
        prepend(seq![s[0]], url_decoded(s.skip(1)))
    }
}

/// Decodes the escapes of a search URL; `None` where an escape is malformed.
pub fn url_decode(s: &Vec<char>) -> (r: Option<Vec<char>>)
    ensures
        match r {
            Some(d) => url_decoded(s@) == Some(d@),
            None => url_decoded(s@) is None,
        },
{
    let mut out: Vec<char> = Vec::new();
    let mut i: usize = 0;
    let n = s.len();
    assert(s@.skip(0) =~= s@);
    while i < n
        invariant
            n == s@.len(),
            i <= n,
            prepend(out@, url_decoded(s@.skip(i as int))) == url_decoded(s@),
        decreases n - i,
    {
        let ghost rest = s@.skip(i as int);
        if s[i] == '%' {
            if i + 1 < n && s[i + 1] == '%' {
                out.push('%');
                assert(rest.skip(2) =~= s@.skip(i + 2));
                i += 2;
            } else {
                let k: usize = if n - i > 2 { 2 } else { n - i - 1 };
                let mut hex: Vec<char> = Vec::new();
                let mut j: usize = 0;
                while j < k
                    invariant
                        n == s@.len(),
                        i + 1 + k <= n,
                        j <= k,
                        hex@ == s@.subrange(i + 1, i + 1 + j),
                    decreases k - j,
                {
                    hex.push(s[i + 1 + j]);
                    j += 1;
                    assert(hex@ =~= s@.subrange(i + 1, i + 1 + j));
                }
                assert(rest.subrange(1, 1 + escape_len(rest)) =~= hex@);
                let hs = string_from_chars(&hex);
                match hex_decode(hs.as_str()) {
                    Some(bytes) => {
                        let text = latin2_decode(&bytes);
                        let tc = chars_of(text.as_str());
                        push_chars(&mut out, &tc);
                        assert(rest.skip(1 + k) =~= s@.skip(i + 1 + k));
                        i += 1 + k;
                    },
                    None => {
                        return None;
                    },
                }
            }
        } else {
            out.push(s[i]);
            assert(rest.skip(1) =~= s@.skip(i + 1));
            i += 1;
        }
    }
    assert(s@.skip(n as int) =~= Seq::<char>::empty());
    assert(out@ + Seq::<char>::empty() =~= out@);
    Some(out)
}

/// `v` with each space written as `+`.
pub open spec fn plus_for_space(v: Seq<char>) -> Seq<char> {
    v.map_values(|c: char| if c == ' ' { '+' } else { c })
}

fn spaces_to_plus(v: &Vec<char>) -> (r: Vec<char>)
    ensures
        r@ == plus_for_space(v@),
{
    let mut out: Vec<char> = Vec::new();
    let mut i: usize = 0;
    while i < v.len()
        invariant
            i <= v@.len(),
            out@ == plus_for_space(v@.subrange(0, i as int)),
        decreases v.len() - i,
    {
        let c = v[i];
        out.push(if c == ' ' { '+' } else { c });
        i += 1;
        assert(out@ =~= plus_for_space(v@.subrange(0, i as int)));
    }
    assert(v@.subrange(0, v@.len() as int) =~= v@);
    out
}

pub open spec fn has_key(pairs: Seq<Param>, key: Seq<char>) -> bool {
    exists|i: int| 0 <= i < pairs.len() && #[trigger] pairs[i].0 == key
}

/// The position of the first pair with key `key`.
pub open spec fn first_key_index(pairs: Seq<Param>, key: Seq<char>) -> Option<int> {
    if has_key(pairs, key) {
        Some(
            choose|i: int|
                0 <= i < pairs.len() && pairs[i].0 == key && forall|j: int| 0 <= j < i ==> #[trigger] pairs[j].0 != key,
        )
    } else {
        None
    }
}

/// A `w` value that names a region: a number above 100.
pub open spec fn w_region(v: Seq<char>) -> Option<nat> {
    match unsigned_value(v) {
        Some(n) => if n <= u64::MAX && n > 100 { Some(n) } else { None },
        None => None,
    }
}

/// Whether the first `w` of the query names a region, which then wins over `ca`.
pub open spec fn first_w_is_region(pairs: Seq<Param>) -> bool {
    match first_key_index(pairs, "w"@) {
        Some(i) => w_region(pairs[i].1) is Some,
        None => false,
    }
}

/// The upstream parameter, if any, for the query pair `(k, v)`.
pub open spec fn tori_param(pairs: Seq<Param>, k: Seq<char>, v: Seq<char>) -> Option<Param> {
    if k == "q"@ {
        Some(("q"@, plus_for_space(v)))
    } else if k == "cg"@ {
        if has_key(pairs, "c"@) || v == "0"@ { None } else { Some(("category"@, v)) }
    } else if k == "c"@ {
        Some(("category"@, v))
    } else if k == "ca"@ {
        if first_w_is_region(pairs) { None } else { Some(("region"@, v)) }
    } else if k == "w"@ {
        match w_region(v) {
            Some(n) => Some(("region"@, decimal((n - 100) as nat))),
            None => None,
        }
    } else if k == "m"@ {
        Some(("area"@, v))
    } else if k == "f"@ {
        if v == "p"@ {
            Some(("company_ad"@, "0"@))
        } else if v == "c"@ {
            Some(("company_ad"@, "1"@))
        } else {
            None
        }
    } else if k == "st"@ {
        Some(("ad_type"@, v))
    } else {
        None
    }
}

/// The upstream parameters for the first `n` query pairs, in order.
pub open spec fn params_upto(pairs: Seq<Param>, n: nat) -> Seq<Param>
    decreases n,
{
    if n == 0 || n > pairs.len() {
        Seq::empty()
    } else {
        let prev = params_upto(pairs, (n - 1) as nat);
        match tori_param(pairs, pairs[n - 1].0, pairs[n - 1].1) {
            Some(p) => prev.push(p),
            None => prev,
        }
    }
}

/// A price-range code: an index into the table of price bounds.
pub open spec fn price_code(v: Seq<char>) -> Option<nat> {
    match unsigned_value(v) {
        Some(n) => if n <= usize::MAX { Some(n) } else { None },
        None => None,
    }
}

/// The number of price bounds a price-range code may select from.
pub const TORI_PRICE_COUNT: u64 = 9;

/// The price bound that price-range code `n` stands for.
pub open spec fn price_label(n: nat) -> Seq<char> {
    if n == 0 {
        "0"@
    } else if n == 1 {
        "25"@
    } else if n == 2 {
        "50"@
    } else if n == 3 {
        "75"@
    } else if n == 4 {
        "100"@
    } else if n == 5 {
        "250"@
    } else if n == 6 {
        "500"@
    } else if n == 7 {
        "1000"@
    } else {
        "2000"@
    }
}

fn price_label_chars(n: u64) -> (r: Vec<char>)
    requires
        n < TORI_PRICE_COUNT,
    ensures
        r@ == price_label(n as nat),
{
    if n == 0 {
        chars_of("0")
    } else if n == 1 {
        chars_of("25")
    } else if n == 2 {
        chars_of("50")
    } else if n == 3 {
        chars_of("75")
    } else if n == 4 {
        chars_of("100")
    } else if n == 5 {
        chars_of("250")
    } else if n == 6 {
        chars_of("500")
    } else if n == 7 {
        chars_of("1000")
    } else {
        chars_of("2000")
    }
}

/// The last readable price-range code among the first `n` pairs with key `key`.
pub open spec fn last_price(pairs: Seq<Param>, key: Seq<char>, n: nat) -> Option<nat>
    decreases n,
{
    if n == 0 || n > pairs.len() {
        None
    } else if pairs[n - 1].0 == key && price_code(pairs[n - 1].1) is Some {
        price_code(pairs[n - 1].1)
    } else {
        last_price(pairs, key, (n - 1) as nat)
    }
}

/// Whether some `ps` or `pe` holds a price-range code beyond the table.
pub open spec fn price_out_of_range(pairs: Seq<Param>) -> bool {
    exists|i: int|
        0 <= i < pairs.len() && (pairs[i].0 == "ps"@ || pairs[i].0 == "pe"@) && match price_code(
            #[trigger] pairs[i].1,
        ) {
            Some(n) => n >= TORI_PRICE_COUNT,
            None => false,
        }
}

pub open spec fn label_or_empty(code: Option<nat>) -> Seq<char> {
    match code {
        Some(n) => price_label(n),
        None => Seq::empty(),
    }
}

/// The upstream `suborder` price range, where the query gives a bound.
pub open spec fn suborder(pairs: Seq<Param>) -> Option<Seq<char>> {
    let s = last_price(pairs, "ps"@, pairs.len());
    let e = last_price(pairs, "pe"@, pairs.len());
    if s is None && e is None {
        None
    } else {
        Some(label_or_empty(s) + seq!['-'] + label_or_empty(e))
    }
}

/// All upstream parameters for the query pairs: the translated pairs in
/// order, then the price range.
pub open spec fn tori_params(pairs: Seq<Param>) -> Seq<Param> {
    let base = params_upto(pairs, pairs.len());
    match suborder(pairs) {
        Some(so) => base.push(("suborder"@, so)),
        None => base,
    }
}

pub open spec fn key_value(p: Param) -> Seq<char> {
    p.0 + seq!['='] + p.1
}

/// The first `n` parameters as `k=v`, joined by `&`.
pub open spec fn joined(ps: Seq<Param>, n: nat) -> Seq<char>
    decreases n,
{
    if n == 0 || n > ps.len() {
        Seq::empty()
    } else if n == 1 {
        key_value(ps[0])
    } else {
        joined(ps, (n - 1) as nat) + seq!['&'] + key_value(ps[n - 1])
    }
}

/// The upstream search request for the search URL `u`; `None` where `u`
/// cannot be decoded or parsed, or names a price range beyond the table.
pub open spec fn tori_api_url(u: Seq<char>) -> Option<Seq<char>> {
    match url_decoded(u) {
        None => None,
        Some(d) => match url_query_pairs(d) {
            None => None,
            Some(pairs) => tori_request(pairs),
        },
    }
}

/// The upstream search request for the decoded query pairs of a search URL;
/// `None` where a price range lies beyond the table.
pub open spec fn tori_request(pairs: Seq<Param>) -> Option<Seq<char>> {
    if price_out_of_range(pairs) {
        None
    } else {
        let ps = tori_params(pairs);
        Some(TORI_API_BASE@ + joined(ps, ps.len()))
    }
}

fn char_pairs(v: &Vec<(String, String)>) -> (r: Vec<(Vec<char>, Vec<char>)>)
    ensures
        pair_views(r@) == string_pair_views(v@),
{
    let mut out: Vec<(Vec<char>, Vec<char>)> = Vec::new();
    let mut i: usize = 0;
    while i < v.len()
        invariant
            i <= v@.len(),
            pair_views(out@) == string_pair_views(v@.subrange(0, i as int)),
        decreases v.len() - i,
    {
        let ghost prev = out@;
        let k = chars_of(v[i].0.as_str());
        let w = chars_of(v[i].1.as_str());
        assert(k@ == v@[i as int].0@ && w@ == v@[i as int].1@);
        out.push((k, w));
        assert(pair_views(out@) =~= pair_views(prev).push((v@[i as int].0@, v@[i as int].1@)));
        assert(v@.subrange(0, i + 1 as int) =~= v@.subrange(0, i as int).push(v@[i as int]));
        i += 1;
        assert(pair_views(out@) =~= string_pair_views(v@.subrange(0, i as int)));
    }
    assert(v@.subrange(0, v@.len() as int) =~= v@);
    out
}

fn has_key_exec(pairs: &Vec<(Vec<char>, Vec<char>)>, key: &str) -> (r: bool)
    ensures
        r == has_key(pair_views(pairs@), key@),
{
    let ghost pv = pair_views(pairs@);
    let mut i: usize = 0;
    while i < pairs.len()
        invariant
            pv == pair_views(pairs@),
            i <= pairs@.len(),
            forall|j: int| 0 <= j < i ==> #[trigger] pv[j].0 != key@,
        decreases pairs.len() - i,
    {
        if eq_str(&pairs[i].0, key) {
            assert(pv[i as int].0 == key@);
            return true;
        }
        i += 1;
    }
    false
}

fn w_region_exec(v: &Vec<char>) -> (r: Option<u64>)
    ensures
        match r {
            Some(n) => w_region(v@) == Some(n as nat),
            None => w_region(v@) is None,
        },
{
    match parse_unsigned(v, u64::MAX) {
        Some(n) => if n > 100 { Some(n) } else { None },
        None => None,
    }
}

fn first_w_region(pairs: &Vec<(Vec<char>, Vec<char>)>) -> (r: bool)
    ensures
        r == first_w_is_region(pair_views(pairs@)),
{
    let ghost pv = pair_views(pairs@);
    let mut i: usize = 0;
    while i < pairs.len()
        invariant
            pv == pair_views(pairs@),
            i <= pairs@.len(),
            forall|j: int| 0 <= j < i ==> #[trigger] pv[j].0 != "w"@,
        decreases pairs.len() - i,
    {
        if eq_str(&pairs[i].0, "w") {
            assert(pv[i as int].0 == "w"@);
            let ghost c = choose|c: int|
                0 <= c < pv.len() && pv[c].0 == "w"@ && forall|j: int| 0 <= j < c ==> #[trigger] pv[j].0 != "w"@;
            proof {
                if c > i {
                    assert(pv[i as int].0 != "w"@);
                }
            }
            assert(first_key_index(pv, "w"@) == Some(i as int));
            return w_region_exec(&pairs[i].1).is_some();
        }
        i += 1;
    }
    false
}

fn literal_pair(k: &str, v: Vec<char>) -> (r: (Vec<char>, Vec<char>))
    ensures
        r.0@ == k@,
        r.1@ == v@,
{
    (chars_of(k), v)
}

/// The upstream parameter for one query pair, given what the whole query
/// says of `c` and `w`.
fn translate_param(
    pairs: &Vec<(Vec<char>, Vec<char>)>,
    has_c: bool,
    w_first: bool,
    k: &Vec<char>,
    v: &Vec<char>,
) -> (r: Option<(Vec<char>, Vec<char>)>)
    requires
        has_c == has_key(pair_views(pairs@), "c"@),
        w_first == first_w_is_region(pair_views(pairs@)),
    ensures
        match r {
            Some(p) => tori_param(pair_views(pairs@), k@, v@) == Some((p.0@, p.1@)),
            None => tori_param(pair_views(pairs@), k@, v@) is None,
        },
{
    if eq_str(k, "q") {
        Some(literal_pair("q", spaces_to_plus(v)))
    } else if eq_str(k, "cg") {
        if has_c || eq_str(v, "0") {
            None
        } else {
            Some(literal_pair("category", v.clone()))
        }
    } else if eq_str(k, "c") {
        Some(literal_pair("category", v.clone()))
    } else if eq_str(k, "ca") {
        if w_first {
            None
        } else {
            Some(literal_pair("region", v.clone()))
        }
    } else if eq_str(k, "w") {
        match w_region_exec(v) {
            Some(n) => {
                let mut d: Vec<char> = Vec::new();
                push_decimal(&mut d, n - 100);
                assert(d@ =~= decimal((n - 100) as nat));
                Some(literal_pair("region", d))
            },
            None => None,
        }
    } else if eq_str(k, "m") {
        Some(literal_pair("area", v.clone()))
    } else if eq_str(k, "f") {
        if eq_str(v, "p") {
            Some(literal_pair("company_ad", chars_of("0")))
        } else if eq_str(v, "c") {
            Some(literal_pair("company_ad", chars_of("1")))
        } else {
            None
        }
    } else if eq_str(k, "st") {
        Some(literal_pair("ad_type", v.clone()))
    } else {
        None
    }
}

fn price_code_exec(v: &Vec<char>) -> (r: Option<u64>)
    ensures
        match r {
            Some(n) => price_code(v@) == Some(n as nat),
            None => price_code(v@) is None,
        },
{
    parse_unsigned(v, usize::MAX as u64)
}

fn price_out_of_range_exec(pairs: &Vec<(Vec<char>, Vec<char>)>) -> (r: bool)
    ensures
        r == price_out_of_range(pair_views(pairs@)),
{
    let ghost pv = pair_views(pairs@);
    let mut i: usize = 0;
    while i < pairs.len()
        invariant
            pv == pair_views(pairs@),
            i <= pairs@.len(),
            forall|j: int|
                0 <= j < i ==> !((pv[j].0 == "ps"@ || pv[j].0 == "pe"@) && match price_code(
                    #[trigger] pv[j].1,
                ) {
                    Some(n) => n >= TORI_PRICE_COUNT,
                    None => false,
                }),
        decreases pairs.len() - i,
    {
        if eq_str(&pairs[i].0, "ps") || eq_str(&pairs[i].0, "pe") {
            match price_code_exec(&pairs[i].1) {
                Some(n) => {
                    if n >= TORI_PRICE_COUNT {
                        assert(pv[i as int].1 == pairs@[i as int].1@);
                        return true;
                    }
                },
                None => {},
            }
        }
        i += 1;
    }
    false
}

fn last_price_exec(pairs: &Vec<(Vec<char>, Vec<char>)>, key: &str) -> (r: Option<u64>)
    ensures
        match r {
            Some(n) => last_price(pair_views(pairs@), key@, pairs@.len()) == Some(n as nat),
            None => last_price(pair_views(pairs@), key@, pairs@.len()) is None,
        },
{
    let ghost pv = pair_views(pairs@);
    let mut cur: Option<u64> = None;
    let mut i: usize = 0;
    while i < pairs.len()
        invariant
            pv == pair_views(pairs@),
            i <= pairs@.len(),
            match cur {
                Some(n) => last_price(pv, key@, i as nat) == Some(n as nat),
                None => last_price(pv, key@, i as nat) is None,
            },
        decreases pairs.len() - i,
    {
        if eq_str(&pairs[i].0, key) {
            match price_code_exec(&pairs[i].1) {
                Some(n) => {
                    cur = Some(n);
                },
                None => {},
            }
        }
        i += 1;
    }
    cur
}

/// Translates a tori.fi search URL into the upstream search request. A URL
/// whose escapes are malformed, that does not parse, or that names a price
/// range beyond the table is refused.
pub fn vahti_to_api(vahti: &str) -> (r: Result<String, Error>)
    ensures
        match r {
            Ok(s) => tori_api_url(vahti@) == Some(s@),
            Err(e) => tori_api_url(vahti@) is None && (e matches Error::UnknownUrl(u) && u@ == vahti@),
        },
{
    let u = chars_of(vahti);
    let decoded = match url_decode(&u) {
        Some(d) => d,
        None => {
            return Err(Error::UnknownUrl(String::from_str(vahti)));
        },
    };
    let ds = string_from_chars(&decoded);
    let raw = match query_pairs(ds.as_str()) {
        Some(p) => p,
        None => {
            return Err(Error::UnknownUrl(String::from_str(vahti)));
        },
    };
    match translate_pairs(&raw) {
        Some(r) => Ok(r),
        None => Err(Error::UnknownUrl(String::from_str(vahti))),
    }
}

/// Translates the decoded query pairs of a tori.fi search URL into the
/// upstream search request; `None` where a price range lies beyond the table.
pub fn translate_pairs(raw: &Vec<(String, String)>) -> (r: Option<String>)
    ensures
        match r {
            Some(s) => tori_request(string_pair_views(raw@)) == Some(s@),
            None => tori_request(string_pair_views(raw@)) is None,
        },
{
    let pairs = char_pairs(raw);
    let ghost pv = pair_views(pairs@);
    if price_out_of_range_exec(&pairs) {
        return None;
    }
    let has_c = has_key_exec(&pairs, "c");
    let w_first = first_w_region(&pairs);
    let mut params: Vec<(Vec<char>, Vec<char>)> = Vec::new();
    let mut i: usize = 0;
    while i < pairs.len()
        invariant
            pv == pair_views(pairs@),
            has_c == has_key(pv, "c"@),
            w_first == first_w_is_region(pv),
            i <= pairs@.len(),
            pair_views(params@) == params_upto(pv, i as nat),
        decreases pairs.len() - i,
    {
        let ghost prev = params@;
        match translate_param(&pairs, has_c, w_first, &pairs[i].0, &pairs[i].1) {
            Some(p) => {
                params.push(p);
                assert(pair_views(params@) =~= pair_views(prev).push((p.0@, p.1@)));
            },
            None => {},
        }
        i += 1;
    }
    let start = last_price_exec(&pairs, "ps");
    let end = last_price_exec(&pairs, "pe");
    proof {
        assert forall|j: int| 0 <= j < pv.len() && (pv[j].0 == "ps"@ || pv[j].0 == "pe"@) implies match price_code(
            #[trigger] pv[j].1,
        ) {
            Some(n) => n < TORI_PRICE_COUNT,
            None => true,
        } by {}
        lemma_last_price_in_table(pv, "ps"@, pv.len());
        lemma_last_price_in_table(pv, "pe"@, pv.len());
    }
    if start.is_some() || end.is_some() {
        let mut so: Vec<char> = Vec::new();
        match start {
            Some(n) => {
                let l = price_label_chars(n);
                push_chars(&mut so, &l);
            },
            None => {},
        }
        so.push('-');
        match end {
            Some(n) => {
                let l = price_label_chars(n);
                push_chars(&mut so, &l);
            },
            None => {},
        }
        let ghost prev = params@;
        params.push(literal_pair("suborder", so));
        assert(so@ =~= suborder(pv)->0);
        assert(pair_views(params@) =~= pair_views(prev).push(("suborder"@, suborder(pv)->0)));
    }
    let ghost ps = tori_params(pv);
    assert(pair_views(params@) == ps);
    let mut out = chars_of(TORI_API_BASE);
    let mut j: usize = 0;
    while j < params.len()
        invariant
            ps == pair_views(params@),
            j <= params@.len(),
            out@ == TORI_API_BASE@ + joined(ps, j as nat),
        decreases params.len() - j,
    {
        let ghost before = out@;
        if j > 0 {
            out.push('&');
        }
        push_chars(&mut out, &params[j].0);
        out.push('=');
        push_chars(&mut out, &params[j].1);
        assert(ps[j as int] == (params@[j as int].0@, params@[j as int].1@));
        assert(out@ =~= TORI_API_BASE@ + joined(ps, (j + 1) as nat));
        j += 1;
    }
    Some(string_from_chars(&out))
}

proof fn lemma_last_price_in_table(pv: Seq<Param>, key: Seq<char>, n: nat)
    requires
        key == "ps"@ || key == "pe"@,
        n <= pv.len(),
        forall|j: int| 0 <= j < pv.len() && (pv[j].0 == "ps"@ || pv[j].0 == "pe"@) ==> match price_code(
            #[trigger] pv[j].1,
        ) {
            Some(c) => c < TORI_PRICE_COUNT,
            None => true,
        },
    ensures
        match last_price(pv, key, n) {
            Some(c) => c < TORI_PRICE_COUNT,
            None => true,
        },
    decreases n,
{
    if n > 0 {
        lemma_last_price_in_table(pv, key, (n - 1) as nat);
    }
}

/// A watch on a tori.fi search.
#[derive(Debug, Clone)]
pub struct ToriVahti {
    pub id: i32,
    pub delivery_method: i32,
    pub url: String,
    pub user_id: u64,
    pub last_updated: i64,
    pub site_id: i32,
}

impl ToriVahti {
    /// The watch of a persisted record; a record of another site is refused.
    pub fn from_db(v: DbVahti) -> (r: Result<ToriVahti, Error>)
        ensures
            match r {
                Ok(t) => v.site_id == TORI_ID && t.id == v.id && t.url == v.url && t.user_id
                    == #[verifier::truncate] (v.user_id as u64) && t.last_updated == v.last_updated && t.site_id == TORI_ID
                    && t.delivery_method == v.delivery_method,
                Err(e) => v.site_id != TORI_ID && e == Error::WrongSite,
            },
    {
        if v.site_id != TORI_ID {
            return Err(Error::WrongSite);
        }
        Ok(ToriVahti {
            id: v.id,
            url: v.url,
            user_id: v.user_id as u64,
            last_updated: v.last_updated,
            site_id: TORI_ID,
            delivery_method: v.delivery_method,
        })
    }

    /// The persisted record of this watch.
    pub fn to_db(&self) -> (r: DbVahti)
        ensures
            r == (DbVahti {
                id: self.id,
                url: self.url,
                user_id: #[verifier::truncate] (self.user_id as i64),
                last_updated: self.last_updated,
                site_id: self.site_id,
                delivery_method: self.delivery_method,
            }),
    {
        DbVahti {
            delivery_method: self.delivery_method,
            id: self.id,
            url: self.url.clone(),
            user_id: self.user_id as i64,
            last_updated: self.last_updated,
            site_id: self.site_id,
        }
    }

    /// Whether `url` is a tori.fi search URL.
    pub fn is_valid_url(&self, url: &str) -> (r: bool)
        ensures
            r == pattern_accepts(TORI_PATTERN@, url@),
    {
        matches_pattern(TORI_PATTERN, url)
    }

    /// The upstream search request of this watch.
    pub fn api_url(&self) -> (r: Result<String, Error>)
        ensures
            match r {
                Ok(s) => tori_api_url(self.url@) == Some(s@),
                Err(_) => tori_api_url(self.url@) is None,
            },
    {
        vahti_to_api(self.url.as_str())
    }
}

} // verus!
