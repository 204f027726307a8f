//! What the command front-ends decide: the seller links in listing messages
//! and reading them back, the values of selection menus, and paging.

use vstd::prelude::*;
use crate::text::{
    chars_between, chars_of, contains_chars, find_char, first_index_of, last_index_of, occurs_in,
    parse_i32, parse_unsigned, push_signed_decimal, push_str, rfind_char,
    signed_decimal, signed_value, split, split_on, string_from_chars, unsigned_value, views,
};
use crate::vahti::{HUUTONET_ID, TORI_ID};

verus! {

/// Where a tori.fi seller's page is, up to the seller id.
pub const TORI_SELLER_BASE: &'static str = "https://www.tori.fi/li?&aid=";

/// Where a huuto.net seller's page is, up to the seller id.
pub const HUUTONET_SELLER_BASE: &'static str = "https://www.huuto.net/kayttaja/";

/// How many options a selection menu shows at once.
pub const MENU_PAGE_SIZE: usize = 25;

/// The prefix of the ids of the buttons that turn the watch-removal menu's pages.
pub const MENU_PAGE_PREFIX: &'static str = "remove_vahti_menu_page_";

/// The start of the seller page URL of a site, for the sites that have one.
pub open spec fn seller_base(site_id: i32) -> Option<Seq<char>> {
    if site_id == TORI_ID {
        Some(TORI_SELLER_BASE@)
    } else if site_id == HUUTONET_ID {
        Some(HUUTONET_SELLER_BASE@)
    } else {
        None
    }
}

/// The page of seller `seller_id` on site `site_id`.
pub fn seller_url(site_id: i32, seller_id: i32) -> (r: Option<String>)
    ensures
        match seller_base(site_id) {
            Some(b) => r is Some && r->0@ == b + signed_decimal(seller_id as int),
            None => r is None,
        },
{
    let mut out = if site_id == TORI_ID {
        chars_of(TORI_SELLER_BASE)
    } else if site_id == HUUTONET_ID {
        chars_of(HUUTONET_SELLER_BASE)
    } else {
        return None;
    };
    push_signed_decimal(&mut out, seller_id as i64);
    Some(string_from_chars(&out))
}

/// The seller field of a listing message: the seller's name linking to the
/// seller's page, as `[name](url)`.
pub fn seller_field(site_id: i32, seller_name: &str, seller_id: i32) -> (r: Option<String>)
    ensures
        match seller_base(site_id) {
            Some(b) => r is Some && r->0@ == seq!['['] + seller_name@ + seq![']', '('] + b + signed_decimal(
                seller_id as int,
            ) + seq![')'],
            None => r is None,
        },
{
    match seller_url(site_id, seller_id) {
        Some(url) => {
            let mut out: Vec<char> = Vec::new();
            out.push('[');
            push_str(&mut out, seller_name);
            out.push(']');
            out.push('(');
            push_str(&mut out, url.as_str());
            out.push(')');
            Some(string_from_chars(&out))
        },
        None => None,
    }
}

/// The site whose seller page a seller field links to.
pub open spec fn field_site(s: Seq<char>) -> Option<i32> {
    if occurs_in(s, TORI_SELLER_BASE@) {
        Some(TORI_ID)
    } else if occurs_in(s, HUUTONET_SELLER_BASE@) {
        Some(HUUTONET_ID)
    } else {
        None
    }
}

/// The name and id text of a seller field of site `site`: the name between
/// the leading character and the first `]`, and the id between the last `=`
/// (tori.fi) or `/` (huuto.net) and the first `)`.
pub open spec fn field_parts(s: Seq<char>, site: i32) -> Option<(Seq<char>, Seq<char>)> {
    let sep = if site == TORI_ID { '=' } else { '/' };
    match (first_index_of(s, ']'), last_index_of(s, sep), first_index_of(s, ')')) {
        (Some(c), Some(e), Some(p)) => if 1 <= c && e + 1 <= p {
            Some((s.subrange(1, c), s.subrange(e + 1, p)))
        } else {
            None
        },
        _ => None,
    }
}

/// The seller named by a seller field: name, seller id and site.
pub open spec fn seller_of_field(s: Seq<char>) -> Option<(Seq<char>, i32, i32)> {
    match field_site(s) {
        None => None,
        Some(site) => match field_parts(s, site) {
            None => None,
            Some((name, id)) => match signed_value(id) {
                Some(v) => if i32::MIN <= v <= i32::MAX { Some((name, v as i32, site)) } else { None },
                None => None,
            },
        },
    }
}

fn field_site_of(s: &Vec<char>) -> (r: Option<i32>)
    ensures
        r == field_site(s@),
{
    if contains_chars(s, &chars_of(TORI_SELLER_BASE)) {
        Some(TORI_ID)
    } else if contains_chars(s, &chars_of(HUUTONET_SELLER_BASE)) {
        Some(HUUTONET_ID)
    } else {
        None
    }
}

fn field_parts_of(s: &Vec<char>, site: i32) -> (r: Option<(Vec<char>, Vec<char>)>)
    ensures
        match r {
            Some((name, id)) => field_parts(s@, site) == Some((name@, id@)),
            None => field_parts(s@, site) is None,
        },
{
    let sep = if site == TORI_ID { '=' } else { '/' };
    let c = match find_char(s, ']') {
        Some(c) => c,
        None => {
            return None;
        },
    };
    let e = match rfind_char(s, sep) {
        Some(e) => e,
        None => {
            return None;
        },
    };
    let p = match find_char(s, ')') {
        Some(p) => p,
        None => {
            return None;
        },
    };
    let ghost fc = first_index_of(s@, ']');
    let ghost le = last_index_of(s@, sep);
    let ghost fp = first_index_of(s@, ')');
    assert(fc == Some(c as int) && le == Some(e as int) && fp == Some(p as int));
    if c < 1 || e >= p {
        return None;
    }
    let name = chars_between(s, 1, c);
    let id = chars_between(s, e + 1, p);
    Some((name, id))
}

/// Reads the seller back from the seller field of a listing message.
pub fn read_seller_field(field: &str) -> (r: Option<(String, i32, i32)>)
    ensures
        match r {
            Some((name, id, site)) => seller_of_field(field@) == Some((name@, id, site)),
            None => seller_of_field(field@) is None,
        },
{
    let s = chars_of(field);
    let site = match field_site_of(&s) {
        Some(site) => site,
        None => {
            return None;
        },
    };
    let (name, id) = match field_parts_of(&s, site) {
        Some(parts) => parts,
        None => {
            return None;
        },
    };
    match parse_i32(&id) {
        Some(v) => Some((string_from_chars(&name), v, site)),
        None => None,
    }
}

/// The value of a seller's option in the blocking menu: `seller,site`.
pub fn seller_choice_value(seller_id: i32, site_id: i32) -> (r: String)
    ensures
        r@ == signed_decimal(seller_id as int) + seq![','] + signed_decimal(site_id as int),
{
    let mut out: Vec<char> = Vec::new();
    push_signed_decimal(&mut out, seller_id as i64);
    out.push(',');
    push_signed_decimal(&mut out, site_id as i64);
    string_from_chars(&out)
}

/// The seller and site that a blocking-menu value names: its first two
/// comma-separated parts, each an `i32`.
pub open spec fn seller_choice(v: Seq<char>) -> Option<(i32, i32)> {
    let parts = split_on(v, ',');
    if parts.len() >= 2 {
        match (signed_value(parts[0]), signed_value(parts[1])) {
            (Some(a), Some(b)) => if i32::MIN <= a <= i32::MAX && i32::MIN <= b <= i32::MAX {
                Some((a as i32, b as i32))
            } else {
                None
            },
            _ => None,
        }
    } else {
        None
    }
}

/// Reads the seller and site from a blocking-menu value.
pub fn parse_seller_choice(value: &str) -> (r: Option<(i32, i32)>)
    ensures
        r == seller_choice(value@),
{
    let v = chars_of(value);
    let parts = split(&v, ',');
    if parts.len() < 2 {
        return None;
    }
    assert(views(parts@)[0] == parts@[0]@ && views(parts@)[1] == parts@[1]@);
    match (parse_i32(&parts[0]), parse_i32(&parts[1])) {
        (Some(a), Some(b)) => Some((a, b)),
        _ => None,
    }
}

/// One page of a selection menu.
pub struct MenuPage {
    /// The options shown on this page.
    pub options: Vec<String>,
    /// The page the backward button turns to.
    pub previous: usize,
    /// The page the forward button turns to.
    pub next: usize,
    pub previous_disabled: bool,
    pub next_disabled: bool,
}

/// Where page `page` of a menu of `len` options starts and ends.
pub open spec fn page_bounds(len: nat, page: nat) -> (int, int) {
    let size = MENU_PAGE_SIZE as int;
    let start: int = if page * size <= len { page * size } else { len as int };
    let end: int = if start + size <= len { start + size } else { len as int };
    (start, end)
}

/// Page `page` of a menu of `options`: at most `MENU_PAGE_SIZE` of them,
/// with buttons to the neighbouring pages; backward is disabled on the
/// first page and forward from the page holding the last full page's end.
pub fn menu_page(options: &Vec<String>, page: usize) -> (r: MenuPage)
    ensures
        r.options@ == options@.subrange(page_bounds(options@.len(), page as nat).0, page_bounds(options@.len(), page as nat).1),
        r.previous == if page > 0 { page - 1 } else { 0 },
        r.next == if page < usize::MAX { page + 1 } else { page as int },
        r.previous_disabled == (page == 0),
        r.next_disabled == (page as int >= options@.len() as int / MENU_PAGE_SIZE as int),
{
    let len = options.len();
    proof {
        let (p, l) = (page as int, len as int);
        assert(p <= l / 25 <==> p * 25 <= l) by (nonlinear_arith)
            requires
                p >= 0,
                l >= 0,
        {}
    }
    let start: usize = if page <= len / MENU_PAGE_SIZE { page * MENU_PAGE_SIZE } else { len };
    let end: usize = if len - start >= MENU_PAGE_SIZE { start + MENU_PAGE_SIZE } else { len };
    let mut shown: Vec<String> = Vec::new();
    let mut i: usize = start;
    while i < end
        invariant
            start <= i <= end,
            end <= options@.len(),
            shown@ == options@.subrange(start as int, i as int),
        decreases end - i,
    {
        shown.push(options[i].clone());
        i += 1;
        assert(shown@ =~= options@.subrange(start as int, i as int));
    }
    MenuPage {
        options: shown,
        previous: if page > 0 { page - 1 } else { 0 },
        next: if page < usize::MAX { page + 1 } else { page },
        previous_disabled: page == 0,
        next_disabled: page >= len / MENU_PAGE_SIZE,
    }
}

/// The page that a page-turning button's id names.
pub open spec fn menu_page_of(id: Seq<char>) -> Option<usize> {
    let p = MENU_PAGE_PREFIX@;
    if id.len() >= p.len() && id.subrange(0, p.len() as int) == p {
        match unsigned_value(id.skip(p.len() as int)) {
            Some(n) => if n <= usize::MAX { Some(n as usize) } else { None },
            None => None,
        }
    } else {
        None
    }
}

/// Reads the page number from the id of a page-turning button.
pub fn menu_page_number(custom_id: &str) -> (r: Option<usize>)
    ensures
        r == menu_page_of(custom_id@),
{
    let id = chars_of(custom_id);
    let p = chars_of(MENU_PAGE_PREFIX);
    if id.len() < p.len() {
        return None;
    }
    let head = chars_between(&id, 0, p.len());
    if !crate::text::chars_eq(&head, &p) {
        return None;
    }
    let rest = chars_between(&id, p.len(), id.len());
    assert(rest@ =~= id@.skip(p@.len() as int));
    match parse_unsigned(&rest, usize::MAX as u64) {
        Some(n) => Some(n as usize),
        None => None,
    }
}

/// The strings of `v` without repeats, each where it first occurs.
pub open spec fn distinct_upto(v: Seq<Seq<char>>, n: nat) -> Seq<Seq<char>>
    decreases n,
{
    if n == 0 || n > v.len() {
        Seq::empty()
    } else {
        let prev = distinct_upto(v, (n - 1) as nat);
        if prev.contains(v[n - 1]) {
            prev
        } else {
            prev.push(v[n - 1])
        }
    }
}

pub open spec fn string_views(v: Seq<String>) -> Seq<Seq<char>> {
    v.map_values(|s: String| s@)
}

/// The strings of `v` without repeats, in the order they first occur.
pub fn unique_strings(v: &Vec<String>) -> (r: Vec<String>)
    ensures
        string_views(r@) == distinct_upto(string_views(v@), v@.len()),
{
    let ghost sv = string_views(v@);
    let mut out: Vec<String> = Vec::new();
    let mut i: usize = 0;
    while i < v.len()
        invariant
            sv == string_views(v@),
            i <= v@.len(),
            string_views(out@) == distinct_upto(sv, i as nat),
        decreases v.len() - i,
    {
        let mut seen = false;
        let mut j: usize = 0;
        while j < out.len()
            invariant
                j <= out@.len(),
                i < v@.len(),
                seen == exists|l: int| 0 <= l < j && #[trigger] out@[l]@ == v@[i as int]@,
            decreases out.len() - j,
        {
            if out[j] == v[i] {
                seen = true;
            }
            j += 1;
        }
        let ghost prev = out@;
        proof {
            let ov = string_views(out@);
            if seen {
                let l = choose|l: int| 0 <= l < j && #[trigger] out@[l]@ == v@[i as int]@;
                assert(ov[l] == sv[i as int]);
            } else {
                assert forall|l: int| 0 <= l < ov.len() implies ov[l] != sv[i as int] by {
                    assert(ov[l] == out@[l]@);
                }
            }
        }
        if !seen {
            out.push(v[i].clone());
            assert(string_views(out@) =~= string_views(prev).push(sv[i as int]));
        }
        i += 1;
    }
    out
}

/// Whether a validation probe's reported total shows that a search has results.
pub fn search_has_results(total: Option<i64>) -> (r: bool)
    ensures
        r == (total is Some && total->0 > 0),
{
    match total {
        Some(n) => n > 0,
        None => false,
    }
}

} // verus!
