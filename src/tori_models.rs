//! tori.fi listing records and their conversion into listings.

use vstd::prelude::*;
use crate::error::Error;
use crate::text::{chars_eq, chars_of, find_char, first_index_of, last_index_of, rfind_char, parse_i32, parse_i64, push_chars, push_chars_from, push_str, signed_value, string_from_chars};
use crate::vahti::{api_select_after, select_after, VahtiItem, TORI_ID};

verus! {

/// What the pipeline reads of one listing record of a tori.fi search response.
pub struct FullToriItem {
    /// The listing's id path, ending in its number after the last `/`.
    pub ad_id: String,
    /// The seller's account code, a number.
    pub account_code: String,
    pub subject: String,
    pub share_link: String,
    pub price: i64,
    /// The path of the thumbnail image, if the listing has one.
    pub thumbnail_path: Option<String>,
    /// The labels along the listing's first location and each first
    /// sub-location, outermost first.
    pub location_labels: Vec<String>,
    pub ad_type: String,
    pub seller_name: String,
    pub published: i64,
}

/// A tori.fi listing.
pub struct ToriItem {
    pub title: String,
    pub url: String,
    pub img_url: String,
    pub published: i64,
    pub price: i64,
    pub seller_name: String,
    pub seller_id: i32,
    pub location: String,
    pub ad_type: String,
    pub ad_id: i64,
}

pub const TORI_IMAGE_BASE: &'static str = "https://images.tori.fi/api/v1/imagestori/images";

pub const TORI_IMAGE_RULE: &'static str = "?rule=medium_660";

/// Where the image part of a thumbnail path starts: at its first `/`, or at its end.
pub open spec fn image_start(p: Seq<char>) -> int {
    match first_index_of(p, '/') {
        Some(i) => i,
        None => p.len() as int,
    }
}

/// The image URL of a listing with the given thumbnail path.
pub open spec fn thumbnail_url(path: Option<Seq<char>>) -> Seq<char> {
    match path {
        Some(p) => TORI_IMAGE_BASE@ + p.skip(image_start(p)) + TORI_IMAGE_RULE@,
        None => Seq::empty(),
    }
}

/// The location text after the first `n` labels, innermost first: the text
/// so far, the label before, and whether a repeated label ended it.
pub open spec fn location_upto(labels: Seq<Seq<char>>, n: nat) -> (Seq<char>, Seq<char>, bool)
    decreases n,
{
    if n == 0 || n > labels.len() {
        (Seq::empty(), Seq::empty(), false)
    } else {
        let prev = location_upto(labels, (n - 1) as nat);
        let label = labels[labels.len() - n];
        if prev.2 {
            prev
        } else if label == prev.1 {
            (prev.0, prev.1, true)
        } else if prev.0.len() == 0 {
            (label, label, false)
        } else {
            (prev.0 + ", "@ + label, label, false)
        }
    }
}

/// The location text of a listing: its labels innermost first, joined by
/// `, `, up to the first label that repeats the one before.
pub open spec fn location_text(labels: Seq<Seq<char>>) -> Seq<char> {
    location_upto(labels, labels.len()).0
}

/// The listing number at the end of an id path.
pub open spec fn ad_number(id: Seq<char>) -> Option<int> {
    match last_index_of(id, '/') {
        Some(i) => signed_value(id.skip(i + 1)),
        None => None,
    }
}

pub open spec fn labels_view(v: Seq<String>) -> Seq<Seq<char>> {
    v.map_values(|s: String| s@)
}

/// Whether a record can be read as a listing: a seller account code in the
/// range of `i32`, an id path ending in a number in the range of `i64`, and
/// a location.
pub open spec fn is_readable(t: FullToriItem) -> bool {
    &&& t.location_labels@.len() > 0
    &&& match signed_value(t.account_code@) {
        Some(v) => i32::MIN <= v <= i32::MAX,
        None => false,
    }
    &&& match ad_number(t.ad_id@) {
        Some(v) => i64::MIN <= v <= i64::MAX,
        None => false,
    }
}

fn image_url(path: &Option<String>) -> (r: String)
    ensures
        r@ == thumbnail_url(
            match path {
                Some(p) => Some(p@),
                None => None,
            },
        ),
{
    match path {
        Some(p) => {
            let pc = chars_of(p.as_str());
            let start: usize = match find_char(&pc, '/') {
                Some(i) => i,
                None => pc.len(),
            };
            let mut out = chars_of(TORI_IMAGE_BASE);
            push_chars_from(&mut out, &pc, start);
            push_str(&mut out, TORI_IMAGE_RULE);
            string_from_chars(&out)
        },
        None => String::new(),
    }
}

fn location_of(labels: &Vec<String>) -> (r: String)
    ensures
        r@ == location_text(labels_view(labels@)),
{
    let ghost lv = labels_view(labels@);
    let n = labels.len();
    let mut text: Vec<char> = Vec::new();
    let mut prev: Vec<char> = Vec::new();
    let mut k: usize = 0;
    while k < n
        invariant
            n == labels@.len(),
            lv == labels_view(labels@),
            k <= n,
            location_upto(lv, k as nat) == (text@, prev@, false),
        decreases n - k,
    {
        let label = chars_of(labels[n - 1 - k].as_str());
        assert(label@ == lv[lv.len() - (k + 1)]);
        if chars_eq(&label, &prev) {
            proof {
                lemma_location_stopped(lv, k as nat + 1, lv.len());
            }
            return string_from_chars(&text);
        }
        if text.len() == 0 {
            text = label.clone();
            assert(text@ == label@);
        } else {
            push_str(&mut text, ", ");
            push_chars(&mut text, &label);
        }
        prev = label;
        k += 1;
    }
    string_from_chars(&text)
}

proof fn lemma_location_stopped(labels: Seq<Seq<char>>, m: nat, n: nat)
    requires
        m <= n <= labels.len(),
        location_upto(labels, m).2,
    ensures
        location_upto(labels, n) == location_upto(labels, m),
    decreases n - m,
{
    if n > m {
        lemma_location_stopped(labels, m, (n - 1) as nat);
    }
}

fn ad_number_of(id: &String) -> (r: Option<i64>)
    ensures
        r == match ad_number(id@) {
            Some(v) => if i64::MIN <= v <= i64::MAX { Some(v as i64) } else { None },
            None => None,
        },
{
    let c = chars_of(id.as_str());
    match rfind_char(&c, '/') {
        Some(l) => {
            let n = c.len();
            assert(l < n);
            let mut tail: Vec<char> = Vec::new();
            push_chars_from(&mut tail, &c, l + 1);
            assert(tail@ =~= c@.skip(l + 1));
            parse_i64(&tail)
        },
        None => None,
    }
}

/// `it` is the listing that the record `t` reads as.
pub open spec fn reads_as(t: FullToriItem, it: ToriItem) -> bool {
    &&& it.title@ == t.subject@
    &&& it.url@ == t.share_link@
    &&& it.img_url@ == thumbnail_url(
        match t.thumbnail_path {
            Some(p) => Some(p@),
            None => None,
        },
    )
    &&& it.published == t.published
    &&& it.price == t.price
    &&& it.seller_name@ == t.seller_name@
    &&& it.seller_id as int == signed_value(t.account_code@)->0
    &&& it.location@ == location_text(labels_view(t.location_labels@))
    &&& it.ad_type@ == t.ad_type@
    &&& it.ad_id as int == ad_number(t.ad_id@)->0
}

/// `v` is the pipeline listing of the tori.fi listing `it`, not yet routed.
pub open spec fn listing_of(it: ToriItem, v: VahtiItem) -> bool {
    &&& v.deliver_to is None
    &&& v.delivery_method is None
    &&& v.vahti_url is None
    &&& v.site_id == TORI_ID
    &&& v.title == it.title
    &&& v.url == it.url
    &&& v.img_url == it.img_url
    &&& v.published == it.published
    &&& v.price == it.price
    &&& v.seller_name == it.seller_name
    &&& v.seller_id == it.seller_id
    &&& v.location == it.location
    &&& v.ad_type == it.ad_type
    &&& v.ad_id == it.ad_id
}

impl ToriItem {
    /// Reads a listing record; a record that is not readable is an invalid item.
    pub fn from_full(t: &FullToriItem) -> (r: Result<ToriItem, Error>)
        ensures
            match r {
                Ok(it) => is_readable(*t) && reads_as(*t, it),
                Err(e) => !is_readable(*t) && e == Error::InvalidItem,
            },
    {
        if t.location_labels.len() == 0 {
            return Err(Error::InvalidItem);
        }
        let code = chars_of(t.account_code.as_str());
        let seller_id = match parse_i32(&code) {
            Some(v) => v,
            None => {
                return Err(Error::InvalidItem);
            },
        };
        let ad_id = match ad_number_of(&t.ad_id) {
            Some(v) => v,
            None => {
                return Err(Error::InvalidItem);
            },
        };
        let img_url = image_url(&t.thumbnail_path);
        let location = location_of(&t.location_labels);
        Ok(ToriItem {
            title: t.subject.clone(),
            url: t.share_link.clone(),
            img_url,
            published: t.published,
            price: t.price,
            seller_name: t.seller_name.clone(),
            seller_id,
            location,
            ad_type: t.ad_type.clone(),
            ad_id,
        })
    }

    /// This listing as a tori.fi listing of the pipeline, not yet routed.
    pub fn into_vahti_item(self) -> (r: VahtiItem)
        ensures
            listing_of(self, r),
    {
        VahtiItem {
            deliver_to: None,
            delivery_method: None,
            site_id: TORI_ID,
            title: self.title,
            vahti_url: None,
            url: self.url,
            img_url: self.img_url,
            published: self.published,
            price: self.price,
            seller_name: self.seller_name,
            seller_id: self.seller_id,
            location: self.location,
            ad_type: self.ad_type,
            ad_id: self.ad_id,
        }
    }
}

/// `v` is the pipeline listing that the record `t` reads as.
pub open spec fn record_reads_as(t: FullToriItem, v: VahtiItem) -> bool {
    exists|it: ToriItem| reads_as(t, it) && listing_of(it, v)
}

/// The listings `items` are what the records `records` read as, one for one.
pub open spec fn page_reads_as(records: Seq<FullToriItem>, items: Seq<VahtiItem>) -> bool {
    &&& items.len() == records.len()
    &&& forall|i: int| 0 <= i < records.len() ==> record_reads_as(#[trigger] records[i], items[i])
}

/// Reads the listing records of a tori.fi search response and selects those
/// newer than `after` (see `select_after`). A record that cannot be read
/// fails the whole page.
pub fn api_parse_after(records: &Vec<FullToriItem>, after: i64) -> (r: Result<Vec<VahtiItem>, Error>)
    ensures
        match r {
            Ok(v) => (forall|i: int| 0 <= i < records@.len() ==> is_readable(#[trigger] records@[i])) && exists|
                items: Seq<VahtiItem>,
            | page_reads_as(records@, items) && v@ == select_after(items, after),
            Err(e) => (exists|i: int| 0 <= i < records@.len() && !is_readable(#[trigger] records@[i])) && e
                == Error::Tori,
        },
{
    let mut items: Vec<VahtiItem> = Vec::new();
    let mut i: usize = 0;
    while i < records.len()
        invariant
            i <= records@.len(),
            items@.len() == i,
            forall|j: int| 0 <= j < i ==> is_readable(#[trigger] records@[j]),
            forall|j: int| 0 <= j < i ==> record_reads_as(#[trigger] records@[j], items@[j]),
        decreases records.len() - i,
    {
        match ToriItem::from_full(&records[i]) {
            Ok(it) => {
                let ghost g = it;
                let ghost prev = items@;
                let v = it.into_vahti_item();
                items.push(v);
                assert forall|j: int| 0 <= j < i + 1 implies record_reads_as(#[trigger] records@[j], items@[j]) by {
                    if j < i {
                        assert(items@[j] == prev[j]);
                    } else {
                        assert(reads_as(records@[j], g) && listing_of(g, items@[j]));
                    }
                }
            },
            Err(_) => {
                return Err(Error::Tori);
            },
        }
        i += 1;
    }
    let ghost all = items@;
    let selected = api_select_after(items, after);
    assert(page_reads_as(records@, all));
    Ok(selected)
}

} // verus!
