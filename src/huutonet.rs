//! The huuto.net site adapter: query translation for its search pages.

use vstd::prelude::*;
use crate::error::Error;
use crate::models::DbVahti;
use crate::vahti::{api_select_after, matches_pattern, pattern_accepts, select_after, VahtiItem, HUUTONET_ID, HUUTONET_PATTERN};
use crate::text::{chars_of, find_char, first_index_of, push_chars, push_chars_from, push_str, split, split_on, string_from_chars, views};

verus! {

/// The start of every upstream search request of this site.
pub const HUUTONET_API_BASE: &'static str = "https://api.huuto.net/1.1/items?";

/// What every upstream search request of this site ends with.
pub const HUUTONET_SORT_NEWEST: &'static str = "&sort=newest";

/// `&k1=v1&k2=v2...` for the first `n` pairs of path segments in `args`.
pub open spec fn path_pairs(args: Seq<Seq<char>>, n: nat) -> Seq<char>
    decreases n,
{
    if n == 0 || args.len() < 2 * n {
        Seq::empty()
    } else {
        path_pairs(args, (n - 1) as nat) + seq!['&'] + args[2 * n - 2] + seq!['='] + args[2 * n - 1]
    }
}

/// The query that a search URL of this site carries: what follows the first
/// `?`, or else the path segments after the fourth slash read as
/// `/key/value` pairs (an odd last segment is dropped).
pub open spec fn huutonet_query(u: Seq<char>) -> Seq<char> {
    match first_index_of(u, '?') {
        Some(i) => u.skip(i + 1),
        None => {
            let parts = split_on(u, '/');
            let args = if parts.len() > 4 { parts.skip(4) } else { Seq::<Seq<char>>::empty() };
            let tail = path_pairs(args, args.len() / 2);
            if tail.len() > 0 { tail.skip(1) } else { tail }
        },
    }
}

/// The upstream search request for the search URL `u`.
pub open spec fn huutonet_api_url(u: Seq<char>) -> Seq<char> {
    HUUTONET_API_BASE@ + huutonet_query(u) + HUUTONET_SORT_NEWEST@
}

/// Translates a huuto.net search URL into the upstream search request,
/// newest items first.
pub fn vahti_to_api(vahti: &str) -> (r: String)
    ensures
        r@ == huutonet_api_url(vahti@),
{
    let u = chars_of(vahti);
    let mut out = chars_of(HUUTONET_API_BASE);
    match find_char(&u, '?') {
        Some(i) => {
            let n = u.len();
            assert(i < n);
            push_chars_from(&mut out, &u, i + 1);
        },
        None => {
            let parts = split(&u, '/');
            let ghost pv = views(parts@);
            let ghost args = if pv.len() > 4 { pv.skip(4) } else { Seq::<Seq<char>>::empty() };
            let mut tail: Vec<char> = Vec::new();
            let plen = parts.len();
            if plen > 4 {
                let npairs: usize = (plen - 4) / 2;
                let mut k: usize = 0;
                while k < npairs
                    invariant
                        parts@.len() > 4,
                        pv == views(parts@),
                        args == pv.skip(4),
                        npairs == args.len() / 2,
                        npairs as int == (plen - 4) / 2,
                        plen == parts@.len(),
                        k <= npairs,
                        tail@ == path_pairs(args, k as nat),
                    decreases npairs - k,
                {
                    tail.push('&');
                    push_chars(&mut tail, &parts[4 + 2 * k]);
                    tail.push('=');
                    push_chars(&mut tail, &parts[4 + 2 * k + 1]);
                    assert(args[2 * k as int] == parts@[4 + 2 * k as int]@);
                    assert(args[2 * k + 1 as int] == parts@[4 + 2 * k + 1 as int]@);
                    assert(tail@ =~= path_pairs(args, (k + 1) as nat));
                    k += 1;
                }
            }
            assert(tail@ == path_pairs(args, args.len() / 2));
            if tail.len() > 0 {
                push_chars_from(&mut out, &tail, 1);
            } else {
                assert(tail@.skip(0) =~= tail@);
            }
        },
    }
    push_str(&mut out, HUUTONET_SORT_NEWEST);
    string_from_chars(&out)
}

/// A watch on a huuto.net search.
#[derive(Debug, Clone)]
pub struct HuutonetVahti {
    pub id: i32,
    pub url: String,
    pub user_id: u64,
    pub last_updated: i64,
    pub site_id: i32,
    pub delivery_method: i32,
}

impl HuutonetVahti {
    /// The watch of a persisted record; a record of another site is refused.
    pub fn from_db(v: DbVahti) -> (r: Result<HuutonetVahti, Error>)
        ensures
            match r {
                Ok(t) => v.site_id == HUUTONET_ID && t.id == v.id && t.url == v.url && t.user_id
                    == #[verifier::truncate] (v.user_id as u64) && t.last_updated == v.last_updated && t.site_id
                    == HUUTONET_ID && t.delivery_method == v.delivery_method,
                Err(e) => v.site_id != HUUTONET_ID && e == Error::WrongSite,
            },
    {
        if v.site_id != HUUTONET_ID {
            return Err(Error::WrongSite);
        }
        Ok(HuutonetVahti {
            id: v.id,
            url: v.url,
            user_id: v.user_id as u64,
            last_updated: v.last_updated,
            site_id: HUUTONET_ID,
            delivery_method: v.delivery_method,
        })
    }

    /// The persisted record of this watch.
    pub fn to_db(&self) -> (r: DbVahti)
        ensures
            r == (DbVahti {
                id: self.id,
                url: self.url,
                user_id: #[verifier::truncate] (self.user_id as i64),
                last_updated: self.last_updated,
                site_id: self.site_id,
                delivery_method: self.delivery_method,
            }),
    {
        DbVahti {
            id: self.id,
            url: self.url.clone(),
            user_id: self.user_id as i64,
            last_updated: self.last_updated,
            site_id: self.site_id,
            delivery_method: self.delivery_method,
        }
    }

    /// Whether `url` is a huuto.net search URL.
    pub fn is_valid_url(&self, url: &str) -> (r: bool)
        ensures
            r == pattern_accepts(HUUTONET_PATTERN@, url@),
    {
        matches_pattern(HUUTONET_PATTERN, url)
    }

    /// The upstream search request of this watch.
    pub fn api_url(&self) -> (r: String)
        ensures
            r@ == huutonet_api_url(self.url@),
    {
        vahti_to_api(self.url.as_str())
    }
}

/// The format of the listing times in huuto.net responses.
pub const HUUTONET_TIME_FORMAT: &'static str = "%FT%T%:z";

/// The Unix time that chrono's `DateTime::parse_from_str` reads from `text`
/// in `format`; `None` where it reads none.
pub uninterp spec fn chrono_timestamp(text: Seq<char>, format: Seq<char>) -> Option<i64>;

/// Relies on chrono's `DateTime::parse_from_str` and `DateTime::timestamp`.
#[verifier::external_body]
fn parse_timestamp(text: &str, format: &str) -> (r: Option<i64>)
    ensures
        r == chrono_timestamp(text@, format@),
{
    match chrono::DateTime::parse_from_str(text, format) {
        Ok(d) => Some(d.timestamp()),
        Err(_) => None,
    }
}

/// What the pipeline reads of one listing record of a huuto.net search response.
pub struct FullHuutonetItem {
    pub id: i64,
    pub title: String,
    pub seller: String,
    pub seller_id: i32,
    /// The current price, rounded to whole euros.
    pub price: i64,
    pub sale_method: String,
    pub list_time: String,
    pub location: String,
    /// The link to the listing's page.
    pub link: String,
    /// The medium-size link of the listing's first image, if it has one.
    pub image: Option<String>,
}

/// `v` is the pipeline listing that the record `h` reads as, not yet routed.
pub open spec fn huutonet_listing(h: FullHuutonetItem, v: VahtiItem) -> bool {
    &&& chrono_timestamp(h.list_time@, HUUTONET_TIME_FORMAT@) == Some(v.published)
    &&& v.deliver_to is None
    &&& v.delivery_method is None
    &&& v.vahti_url is None
    &&& v.site_id == HUUTONET_ID
    &&& v.title == h.title
    &&& v.url == h.link
    &&& v.img_url@ == match h.image {
        Some(i) => i@,
        None => Seq::empty(),
    }
    &&& v.price == h.price
    &&& v.seller_name == h.seller
    &&& v.seller_id == h.seller_id
    &&& v.location == h.location
    &&& v.ad_type == h.sale_method
    &&& v.ad_id == h.id
}

impl FullHuutonetItem {
    /// Reads this record as a listing; one whose listing time does not parse
    /// is an invalid item.
    pub fn to_vahti_item(&self) -> (r: Result<VahtiItem, Error>)
        ensures
            match r {
                Ok(v) => huutonet_listing(*self, v),
                Err(e) => chrono_timestamp(self.list_time@, HUUTONET_TIME_FORMAT@) is None && e == Error::InvalidItem,
            },
    {
        let published = match parse_timestamp(self.list_time.as_str(), HUUTONET_TIME_FORMAT) {
            Some(t) => t,
            None => {
                return Err(Error::InvalidItem);
            },
        };
        let img_url = match &self.image {
            Some(i) => i.clone(),
            None => String::new(),
        };
        Ok(VahtiItem {
            delivery_method: None,
            vahti_url: None,
            deliver_to: None,
            site_id: HUUTONET_ID,
            title: self.title.clone(),
            url: self.link.clone(),
            img_url,
            published,
            price: self.price,
            seller_name: self.seller.clone(),
            seller_id: self.seller_id,
            location: self.location.clone(),
            ad_type: self.sale_method.clone(),
            ad_id: self.id,
        })
    }
}

/// Reads the listing records of a huuto.net search response and selects
/// those newer than `after` (see `select_after`). A record that cannot be
/// read fails the whole page.
pub fn api_parse_after(records: &Vec<FullHuutonetItem>, after: i64) -> (r: Result<Vec<VahtiItem>, Error>)
    ensures
        match r {
            Ok(v) => exists|items: Seq<VahtiItem>|
                items.len() == records@.len() && (forall|i: int|
                    0 <= i < records@.len() ==> huutonet_listing(#[trigger] records@[i], items[i])) && v@ == select_after(
                    items,
                    after,
                ),
            Err(e) => (exists|i: int|
                0 <= i < records@.len() && chrono_timestamp((#[trigger] records@[i]).list_time@, HUUTONET_TIME_FORMAT@) is None)
                && e == Error::InvalidItem,
        },
{
    let mut items: Vec<VahtiItem> = Vec::new();
    let mut i: usize = 0;
    while i < records.len()
        invariant
            i <= records@.len(),
            items@.len() == i,
            forall|j: int| 0 <= j < i ==> huutonet_listing(#[trigger] records@[j], items@[j]),
        decreases records.len() - i,
    {
        match records[i].to_vahti_item() {
            Ok(v) => {
                items.push(v);
            },
            Err(e) => {
                return Err(e);
            },
        }
        i += 1;
    }
    let ghost all = items@;
    let selected = api_select_after(items, after);
    assert(forall|j: int| 0 <= j < records@.len() ==> huutonet_listing(#[trigger] records@[j], all[j]));
    Ok(selected)
}

} // verus!
