//! Listings, the site registry that classifies search URLs, and the
//! decisions of the watch commands.

use vstd::prelude::*;
use crate::error::Error;

verus! {

/// The site id of tori.fi.
pub const TORI_ID: i32 = 1;

/// The site id of huuto.net.
pub const HUUTONET_ID: i32 = 2;

/// The search URLs of tori.fi: always with a query string.
pub const TORI_PATTERN: &'static str = "^https://(m\\.|www\\.)?tori\\.fi/.*\\?.*$";

/// The search URLs of huuto.net: under its search path.
pub const HUUTONET_PATTERN: &'static str = "^https://(www\\.)?huuto\\.net/haku?.*$";

/// Whether the `regex` crate compiles `pattern` and, if so, whether it
/// matches somewhere in `text`.
pub uninterp spec fn regex_match(pattern: Seq<char>, text: Seq<char>) -> Option<bool>;

/// Relies on `regex::Regex::new` and `Regex::is_match`: `None` where the
/// pattern does not compile, else whether it matches `text`.
#[verifier::external_body]
fn regex_is_match(pattern: &str, text: &str) -> (r: Option<bool>)
    ensures
        r == regex_match(pattern@, text@),
{
    match regex::Regex::new(pattern) {
        Ok(re) => Some(re.is_match(text)),
        Err(_) => None,
    }
}

/// Whether `pattern` compiles and matches `url`.
pub open spec fn pattern_accepts(pattern: Seq<char>, url: Seq<char>) -> bool {
    regex_match(pattern, url) == Some(true)
}

/// The site whose pattern accepts `url`, in registration order: tori.fi, then huuto.net.
pub open spec fn site_of(url: Seq<char>) -> Option<i32> {
    if pattern_accepts(TORI_PATTERN@, url) {
        Some(TORI_ID)
    } else if pattern_accepts(HUUTONET_PATTERN@, url) {
        Some(HUUTONET_ID)
    } else {
        None
    }
}

/// Whether the pattern of the site accepts `url`.
pub fn matches_pattern(pattern: &str, url: &str) -> (r: bool)
    ensures
        r == pattern_accepts(pattern@, url@),
{
    match regex_is_match(pattern, url) {
        Some(b) => b,
        None => false,
    }
}

/// Classifies a search URL: the first registered site whose pattern accepts it.
pub fn classify(url: &str) -> (r: Option<i32>)
    ensures
        r == site_of(url@),
{
    if matches_pattern(TORI_PATTERN, url) {
        Some(TORI_ID)
    } else if matches_pattern(HUUTONET_PATTERN, url) {
        Some(HUUTONET_ID)
    } else {
        None
    }
}

/// Decides a new watch on `url`: the site to create it for; an unknown URL
/// or a watch that exists already is refused.
pub fn new_vahti(url: &str, already_exists: bool) -> (r: Result<i32, Error>)
    ensures
        match r {
            Ok(site) => site_of(url@) == Some(site) && !already_exists,
            Err(Error::UnknownUrl(u)) => site_of(url@) is None && u@ == url@,
            Err(Error::VahtiExists) => site_of(url@) is Some && already_exists,
            Err(_) => false,
        },
{
    match classify(url) {
        None => Err(Error::UnknownUrl(String::from_str(url))),
        Some(site) => if already_exists {
            Err(Error::VahtiExists)
        } else {
            Ok(site)
        },
    }
}

/// A listing observed during a poll, with the routing fields that the
/// pipeline attaches.
#[derive(Clone, Debug, PartialEq)]
pub struct VahtiItem {
    pub deliver_to: Option<u64>,
    pub delivery_method: Option<i32>,
    pub site_id: i32,
    pub title: String,
    pub vahti_url: Option<String>,
    pub url: String,
    pub img_url: String,
    pub published: i64,
    pub price: i64,
    pub seller_name: String,
    pub seller_id: i32,
    pub location: String,
    pub ad_type: String,
    pub ad_id: i64,
}

/// `item` routed to `user` on `method`, found by the watch on `watch_url`.
pub open spec fn routed(item: VahtiItem, watch_url: String, user: u64, method: i32) -> VahtiItem {
    VahtiItem {
        deliver_to: Some(user),
        delivery_method: Some(method),
        vahti_url: Some(watch_url),
        ..item
    }
}

impl VahtiItem {
    /// This listing, routed to `user` on `method` for the watch on `watch_url`.
    pub fn routed_to(&self, watch_url: &String, user: u64, method: i32) -> (r: VahtiItem)
        ensures
            r == routed(*self, *watch_url, user, method),
    {
        VahtiItem {
            deliver_to: Some(user),
            delivery_method: Some(method),
            site_id: self.site_id,
            title: self.title.clone(),
            vahti_url: Some(watch_url.clone()),
            url: self.url.clone(),
            img_url: self.img_url.clone(),
            published: self.published,
            price: self.price,
            seller_name: self.seller_name.clone(),
            seller_id: self.seller_id,
            location: self.location.clone(),
            ad_type: self.ad_type.clone(),
            ad_id: self.ad_id,
        }
    }

    /// A copy of this listing.
    pub fn duplicate(&self) -> (r: VahtiItem)
        ensures
            r == *self,
    {
        VahtiItem {
            deliver_to: self.deliver_to,
            delivery_method: self.delivery_method,
            site_id: self.site_id,
            title: self.title.clone(),
            vahti_url: match &self.vahti_url {
                Some(u) => Some(u.clone()),
                None => None,
            },
            url: self.url.clone(),
            img_url: self.img_url.clone(),
            published: self.published,
            price: self.price,
            seller_name: self.seller_name.clone(),
            seller_id: self.seller_id,
            location: self.location.clone(),
            ad_type: self.ad_type.clone(),
            ad_id: self.ad_id,
        }
    }
}

/// The listings of `items` published after `after`, in page order.
pub open spec fn newer_than(items: Seq<VahtiItem>, after: i64) -> Seq<VahtiItem>
    decreases items.len(),
{
    if items.len() == 0 {
        Seq::empty()
    } else {
        let prev = newer_than(items.drop_last(), after);
        if items.last().published > after {
            prev.push(items.last())
        } else {
            prev
        }
    }
}

proof fn lemma_newer_than(items: Seq<VahtiItem>, after: i64)
    ensures
        forall|i: int| 0 <= i < newer_than(items, after).len() ==> (#[trigger] newer_than(items, after)[i]).published > after,
        forall|i: int| 0 <= i < items.len() && (#[trigger] items[i]).published > after ==> newer_than(items, after).contains(items[i]),
    decreases items.len(),
{
    if items.len() > 0 {
        let d = items.drop_last();
        lemma_newer_than(d, after);
        let p = newer_than(d, after);
        let r = newer_than(items, after);
        assert forall|i: int| 0 <= i < r.len() implies (#[trigger] r[i]).published > after by {
            if i < p.len() {
                assert(r[i] == p[i]);
            }
        }
        assert forall|i: int| 0 <= i < items.len() && (#[trigger] items[i]).published > after implies r.contains(items[i]) by {
            if i < items.len() - 1 {
                assert(d[i] == items[i]);
                let k = choose|k: int| 0 <= k < p.len() && p[k] == d[i];
                assert(r[k] == p[k]);
            } else {
                assert(r[r.len() - 1] == items[i]);
            }
        }
    }
}

/// `s` with `x` placed after every listing published no earlier than it.
pub open spec fn insert_newest_first(s: Seq<VahtiItem>, x: VahtiItem) -> Seq<VahtiItem>
    decreases s.len(),
{
    if s.len() == 0 {
        seq![x]
    } else if s.last().published >= x.published {
        s.push(x)
    } else {
        insert_newest_first(s.drop_last(), x).push(s.last())
    }
}

/// `s` ordered from newest to oldest; listings published at the same time
/// keep their order.
pub open spec fn newest_first(s: Seq<VahtiItem>) -> Seq<VahtiItem>
    decreases s.len(),
{
    if s.len() == 0 {
        s
    } else {
        insert_newest_first(newest_first(s.drop_last()), s.last())
    }
}

pub open spec fn is_newest_first(s: Seq<VahtiItem>) -> bool {
    forall|i: int, j: int| 0 <= i < j < s.len() ==> (#[trigger] s[i]).published >= (#[trigger] s[j]).published
}

/// The listings of a parsed page newer than `after`, newest first. The
/// whole page is scanned: a newer listing counts wherever it stands.
pub open spec fn select_after(items: Seq<VahtiItem>, after: i64) -> Seq<VahtiItem> {
    newest_first(newer_than(items, after))
}

proof fn lemma_insert_place(s: Seq<VahtiItem>, x: VahtiItem, j: int)
    requires
        0 <= j <= s.len(),
        forall|k: int| j <= k < s.len() ==> (#[trigger] s[k]).published < x.published,
        j == 0 || s[j - 1].published >= x.published,
    ensures
        insert_newest_first(s, x) == s.insert(j, x),
    decreases s.len(),
{
    if s.len() == 0 {
        assert(s.insert(j, x) =~= seq![x]);
    } else if s.last().published >= x.published {
        assert(j == s.len());
        assert(s.insert(j, x) =~= s.push(x));
    } else {
        let d = s.drop_last();
        lemma_insert_place(d, x, j);
        assert(s.insert(j, x) =~= d.insert(j, x).push(s.last()));
    }
}

proof fn lemma_insert_keeps_order(s: Seq<VahtiItem>, x: VahtiItem)
    requires
        is_newest_first(s),
    ensures
        is_newest_first(insert_newest_first(s, x)),
        insert_newest_first(s, x).len() == s.len() + 1,
        forall|i: int| 0 <= i < insert_newest_first(s, x).len() ==> (#[trigger] insert_newest_first(s, x)[i]).published >= x.published || s.contains(insert_newest_first(s, x)[i]) || insert_newest_first(s, x)[i] == x,
    decreases s.len(),
{
    if s.len() > 0 && s.last().published < x.published {
        let d = s.drop_last();
        lemma_insert_keeps_order(d, x);
        let r = insert_newest_first(s, x);
        let rd = insert_newest_first(d, x);
        assert forall|i: int| 0 <= i < rd.len() implies (#[trigger] rd[i]).published >= s.last().published by {
            if rd[i] != x {
                assert(rd[i].published >= x.published || d.contains(rd[i]));
                if d.contains(rd[i]) {
                    let k = choose|k: int| 0 <= k < d.len() && d[k] == rd[i];
                    assert(s[k] == d[k]);
                }
            }
        }
        assert forall|i: int, j: int| 0 <= i < j < r.len() implies (#[trigger] r[i]).published >= (#[trigger] r[j]).published by {
            if j == r.len() - 1 {
                assert(r[i] == rd[i]);
            } else {
                assert(r[i] == rd[i] && r[j] == rd[j]);
            }
        }
        assert forall|i: int| 0 <= i < r.len() implies (#[trigger] r[i]).published >= x.published || s.contains(r[i]) || r[i] == x by {
            if i == r.len() - 1 {
                assert(s[s.len() - 1] == r[i]);
            } else {
                assert(r[i] == rd[i]);
                if d.contains(rd[i]) {
                    let k = choose|k: int| 0 <= k < d.len() && d[k] == rd[i];
                    assert(s[k] == d[k]);
                }
            }
        }
    } else if s.len() > 0 {
        let r = insert_newest_first(s, x);
        assert forall|i: int| 0 <= i < r.len() implies (#[trigger] r[i]).published >= x.published || s.contains(r[i]) || r[i] == x by {
            if i < s.len() {
                assert(r[i] == s[i]);
            }
        }
    } else {
        assert(insert_newest_first(s, x) =~= seq![x]);
    }
}

proof fn lemma_newest_first_ordered(s: Seq<VahtiItem>)
    ensures
        is_newest_first(newest_first(s)),
        newest_first(s).len() == s.len(),
    decreases s.len(),
{
    if s.len() > 0 {
        lemma_newest_first_ordered(s.drop_last());
        lemma_insert_keeps_order(newest_first(s.drop_last()), s.last());
    }
}

proof fn lemma_insert_members(s: Seq<VahtiItem>, x: VahtiItem)
    ensures
        forall|i: int|
            0 <= i < insert_newest_first(s, x).len() ==> s.contains(#[trigger] insert_newest_first(s, x)[i])
                || insert_newest_first(s, x)[i] == x,
    decreases s.len(),
{
    let r = insert_newest_first(s, x);
    if s.len() == 0 {
    } else if s.last().published >= x.published {
        assert forall|i: int| 0 <= i < r.len() implies s.contains(#[trigger] r[i]) || r[i] == x by {
            if i < s.len() {
                assert(r[i] == s[i]);
            }
        }
    } else {
        let d = s.drop_last();
        lemma_insert_members(d, x);
        let rd = insert_newest_first(d, x);
        assert forall|i: int| 0 <= i < r.len() implies s.contains(#[trigger] r[i]) || r[i] == x by {
            if i == r.len() - 1 {
                assert(r[i] == s[s.len() - 1]);
            } else {
                assert(r[i] == rd[i]);
                if d.contains(rd[i]) {
                    let k = choose|k: int| 0 <= k < d.len() && d[k] == rd[i];
                    assert(s[k] == d[k]);
                }
            }
        }
    }
}

proof fn lemma_newest_first_members(s: Seq<VahtiItem>)
    ensures
        forall|i: int| 0 <= i < newest_first(s).len() ==> s.contains(#[trigger] newest_first(s)[i]),
    decreases s.len(),
{
    if s.len() > 0 {
        let d = s.drop_last();
        lemma_newest_first_members(d);
        lemma_insert_members(newest_first(d), s.last());
        let r = newest_first(s);
        assert forall|i: int| 0 <= i < r.len() implies s.contains(#[trigger] r[i]) by {
            if r[i] == s.last() {
                assert(s[s.len() - 1] == r[i]);
            } else {
                assert(newest_first(d).contains(r[i]));
                let k = choose|k: int| 0 <= k < newest_first(d).len() && newest_first(d)[k] == r[i];
                assert(d.contains(newest_first(d)[k]));
                let m = choose|m: int| 0 <= m < d.len() && d[m] == newest_first(d)[k];
                assert(s[m] == d[m]);
            }
        }
    }
}

/// Orders listings from newest to oldest, keeping the order of listings
/// published at the same time.
pub fn order_newest_first(items: Vec<VahtiItem>) -> (r: Vec<VahtiItem>)
    ensures
        r@ == newest_first(items@),
        is_newest_first(r@),
{
    let mut out: Vec<VahtiItem> = Vec::new();
    let mut i: usize = 0;
    assert(items@.subrange(0, 0) =~= Seq::<VahtiItem>::empty());
    while i < items.len()
        invariant
            i <= items@.len(),
            out@ == newest_first(items@.subrange(0, i as int)),
        decreases items.len() - i,
    {
        let x = items[i].duplicate();
        let mut j: usize = out.len();
        while j > 0 && out[j - 1].published < x.published
            invariant
                j <= out@.len(),
                forall|k: int| j <= k < out@.len() ==> (#[trigger] out@[k]).published < x.published,
            decreases j,
        {
            j -= 1;
        }
        proof {
            lemma_insert_place(out@, x, j as int);
            assert(items@.subrange(0, i + 1 as int).drop_last() =~= items@.subrange(0, i as int));
            assert(items@.subrange(0, i + 1 as int).last() == x);
        }
        out.insert(j, x);
        i += 1;
    }
    assert(items@.subrange(0, items@.len() as int) =~= items@);
    proof {
        lemma_newest_first_ordered(items@);
    }
    out
}

/// Selects the listings of a parsed page that are newer than `after`, newest first.
pub fn api_select_after(items: Vec<VahtiItem>, after: i64) -> (r: Vec<VahtiItem>)
    ensures
        r@ == select_after(items@, after),
        is_newest_first(r@),
        forall|i: int| 0 <= i < r@.len() ==> (#[trigger] r@[i]).published > after,
        r@.len() == newer_than(items@, after).len(),
{
    let kept = select_in_page_order(items, after);
    let ghost k = kept@;
    let r = order_newest_first(kept);
    proof {
        lemma_newer_than(items@, after);
        lemma_newest_first_ordered(k);
        lemma_newest_first_members(k);
        assert forall|i: int| 0 <= i < r@.len() implies (#[trigger] r@[i]).published > after by {
            assert(k.contains(r@[i]));
            let m = choose|m: int| 0 <= m < k.len() && k[m] == r@[i];
        }
    }
    r
}

fn select_in_page_order(items: Vec<VahtiItem>, after: i64) -> (r: Vec<VahtiItem>)
    ensures
        r@ == newer_than(items@, after),
{
    let mut out: Vec<VahtiItem> = Vec::new();
    let mut i: usize = 0;
    assert(items@.subrange(0, 0) =~= Seq::<VahtiItem>::empty());
    while i < items.len()
        invariant
            i <= items@.len(),
            out@ == newer_than(items@.subrange(0, i as int), after),
        decreases items.len() - i,
    {
        assert(items@.subrange(0, i + 1 as int).drop_last() =~= items@.subrange(0, i as int));
        if items[i].published > after {
            out.push(items[i].duplicate());
        }
        i += 1;
    }
    assert(items@.subrange(0, items@.len() as int) =~= items@);
    out
}

} // verus!
