//! The poll-group-deliver pipeline: watches grouped by search URL, the
//! per-watch filtering of a fetched page, and the batching of results by
//! recipient and channel.

use vstd::prelude::*;
use crate::itemhistory::{lemma_unseen_items, merged, retained, unseen_items, ItemHistory, ItemKey};
use crate::models::DbVahti;
use crate::text::{chars_of, decimal, push_decimal, push_str, string_from_chars};
use crate::vahti::{routed, VahtiItem, HUUTONET_ID};

verus! {

pub open spec fn item_key(it: VahtiItem) -> ItemKey {
    (it.ad_id, it.site_id)
}

/// Whether the blacklist holds the seller `seller` of site `site`.
pub open spec fn is_blocked(bl: Seq<(i32, i32)>, seller: i32, site: i32) -> bool {
    exists|i: int| 0 <= i < bl.len() && #[trigger] bl[i] == (seller, site)
}

/// Whether the blacklist `(seller_id, site_id)` pairs hold the given seller of the given site.
pub fn is_blacklisted(bl: &Vec<(i32, i32)>, seller_id: i32, site_id: i32) -> (r: bool)
    ensures
        r == is_blocked(bl@, seller_id, site_id),
{
    let mut i: usize = 0;
    while i < bl.len()
        invariant
            i <= bl@.len(),
            forall|j: int| 0 <= j < i ==> #[trigger] bl@[j] != (seller_id, site_id),
        decreases bl.len() - i,
    {
        if bl[i].0 == seller_id && bl[i].1 == site_id {
            assert(bl@[i as int] == (seller_id, site_id));
            return true;
        }
        i += 1;
    }
    false
}

/// The first `n` listings of a fetched page as one watch sees them: the
/// listings it delivers, in page order, and the history afterwards. A
/// listing newer than the watch's cursor and not yet in the history is
/// recorded as seen at `now`; it is delivered unless its seller is blacklisted.
pub open spec fn scan(
    page: Seq<VahtiItem>,
    w: DbVahti,
    bl: Seq<(i32, i32)>,
    h0: Map<ItemKey, i64>,
    now: i64,
    n: nat,
) -> (Seq<VahtiItem>, Map<ItemKey, i64>)
    decreases n,
{
    if n == 0 || n > page.len() {
        (Seq::empty(), h0)
    } else {
        let prev = scan(page, w, bl, h0, now, (n - 1) as nat);
        let it = page[n - 1];
        if it.published <= w.last_updated || prev.1.contains_key(item_key(it)) {
            prev
        } else if is_blocked(bl, it.seller_id, it.site_id) {
            (prev.0, prev.1.insert(item_key(it), now))
        } else {
            (
                prev.0.push(routed(it, w.url, #[verifier::truncate] (w.user_id as u64), w.delivery_method)),
                prev.1.insert(item_key(it), now),
            )
        }
    }
}

/// The watch's cursor after the first `n` listings of a page: the latest
/// publication time among them and the cursor before.
pub open spec fn cursor_after(page: Seq<VahtiItem>, last_updated: i64, n: nat) -> i64
    decreases n,
{
    if n == 0 || n > page.len() {
        last_updated
    } else {
        let c = cursor_after(page, last_updated, (n - 1) as nat);
        if page[n - 1].published > c {
            page[n - 1].published
        } else {
            c
        }
    }
}

/// What polling one watch yields: the listings to deliver and the watch's new cursor.
pub struct WatchUpdate {
    pub items: Vec<VahtiItem>,
    pub last_updated: i64,
}

proof fn lemma_scan(
    page: Seq<VahtiItem>,
    w: DbVahti,
    bl: Seq<(i32, i32)>,
    h0: Map<ItemKey, i64>,
    now: i64,
    n: nat,
)
    ensures
        h0.submap_of(scan(page, w, bl, h0, now, n).1),
        forall|i: int|
            0 <= i < scan(page, w, bl, h0, now, n).0.len() ==> {
                let it = #[trigger] scan(page, w, bl, h0, now, n).0[i];
                &&& !is_blocked(bl, it.seller_id, it.site_id)
                &&& it.published > w.last_updated
                &&& !h0.contains_key(item_key(it))
                &&& scan(page, w, bl, h0, now, n).1.contains_key(item_key(it))
                &&& scan(page, w, bl, h0, now, n).1[item_key(it)] == now
                &&& it.deliver_to == Some(#[verifier::truncate] (w.user_id as u64))
                &&& it.delivery_method == Some(w.delivery_method)
            },
    decreases n,
{
    if n > 0 && n <= page.len() {
        lemma_scan(page, w, bl, h0, now, (n - 1) as nat);
        let prev = scan(page, w, bl, h0, now, (n - 1) as nat);
        let it = page[n - 1];
        let cur = scan(page, w, bl, h0, now, n);
        if !(it.published <= w.last_updated || prev.1.contains_key(item_key(it))) {
            assert forall|k: ItemKey| #[trigger] h0.contains_key(k) implies cur.1.contains_key(k) && cur.1[k]
                == h0[k] by {
                assert(prev.1.contains_key(k));
            }
            assert forall|i: int| 0 <= i < prev.0.len() implies #[trigger] cur.1.contains_key(
                item_key(prev.0[i]),
            ) && cur.1[item_key(prev.0[i])] == now by {
                assert(prev.1.contains_key(item_key(prev.0[i])));
            }
            if !is_blocked(bl, it.seller_id, it.site_id) {
                assert forall|i: int| 0 <= i < cur.0.len() implies cur.0[i] == if i < prev.0.len() {
                    prev.0[i]
                } else {
                    routed(it, w.url, #[verifier::truncate] (w.user_id as u64), w.delivery_method)
                } by {}
            }
        }
    }
}

proof fn lemma_cursor_bounds(page: Seq<VahtiItem>, last_updated: i64, n: nat)
    requires
        n <= page.len(),
    ensures
        cursor_after(page, last_updated, n) >= last_updated,
        cursor_after(page, last_updated, n) > last_updated <==> exists|i: int|
            0 <= i < n && i < page.len() && #[trigger] page[i].published > last_updated,
    decreases n,
{
    if n > 0 {
        lemma_cursor_bounds(page, last_updated, (n - 1) as nat);
        if cursor_after(page, last_updated, (n - 1) as nat) > last_updated {
            let i = choose|i: int| 0 <= i < n - 1 && i < page.len() && #[trigger] page[i].published > last_updated;
            assert(0 <= i < n && i < page.len() && page[i].published > last_updated);
        }
    }
}

/// Filters a fetched page for one watch. Listings no newer than the watch's
/// cursor are dropped; of the rest, those already in the scope's history
/// are skipped and the others recorded in it as seen at `now`; of those,
/// listings of a blacklisted seller are dropped and the others routed to the
/// watch's user and channel. The cursor advances to the latest publication
/// time on the page, whether or not anything is delivered.
pub fn process_watch(
    watch: &DbVahti,
    page: &Vec<VahtiItem>,
    history: &mut ItemHistory,
    blacklist: &Vec<(i32, i32)>,
    now: i64,
) -> (r: WatchUpdate)
    requires
        old(history).wf(),
    ensures
        final(history).wf(),
        (r.items@, final(history)@) == scan(page@, *watch, blacklist@, old(history)@, now, page@.len()),
        r.last_updated == cursor_after(page@, watch.last_updated, page@.len()),
        r.last_updated >= watch.last_updated,
        r.last_updated > watch.last_updated <==> exists|i: int|
            0 <= i < page@.len() && #[trigger] page@[i].published > watch.last_updated,
        old(history)@.submap_of(final(history)@),
        forall|i: int|
            0 <= i < r.items@.len() ==> {
                let it = #[trigger] r.items@[i];
                &&& !is_blocked(blacklist@, it.seller_id, it.site_id)
                &&& it.published > watch.last_updated
                &&& !old(history)@.contains_key(item_key(it))
                &&& final(history)@.contains_key(item_key(it))
            },
{
    let ghost h0 = old(history)@;
    let user = #[verifier::truncate] (watch.user_id as u64);
    let mut items: Vec<VahtiItem> = Vec::new();
    let mut cursor = watch.last_updated;
    let mut i: usize = 0;
    while i < page.len()
        invariant
            history.wf(),
            i <= page@.len(),
            user == #[verifier::truncate] (watch.user_id as u64),
            (items@, history@) == scan(page@, *watch, blacklist@, h0, now, i as nat),
            cursor == cursor_after(page@, watch.last_updated, i as nat),
        decreases page.len() - i,
    {
        let it = &page[i];
        if it.published > cursor {
            cursor = it.published;
        }
        if it.published > watch.last_updated && !history.contains(it.ad_id, it.site_id) {
            history.add_item(it.ad_id, it.site_id, now);
            if !is_blacklisted(blacklist, it.seller_id, it.site_id) {
                let routed_item = it.routed_to(&watch.url, user, watch.delivery_method);
                items.push(routed_item);
            }
        }
        i += 1;
    }
    proof {
        lemma_scan(page@, *watch, blacklist@, h0, now, page@.len());
        lemma_cursor_bounds(page@, watch.last_updated, page@.len());
    }
    WatchUpdate { items, last_updated: cursor }
}

/// A blacklisted seller's listings are never delivered, whatever the
/// history holds, including when a listing is seen for the first time.
pub proof fn lemma_blacklist_precedence(
    page: Seq<VahtiItem>,
    w: DbVahti,
    bl: Seq<(i32, i32)>,
    h0: Map<ItemKey, i64>,
    now: i64,
)
    ensures
        forall|i: int|
            0 <= i < scan(page, w, bl, h0, now, page.len()).0.len() ==> !is_blocked(
                bl,
                (#[trigger] scan(page, w, bl, h0, now, page.len()).0[i]).seller_id,
                scan(page, w, bl, h0, now, page.len()).0[i].site_id,
            ),
{
    lemma_scan(page, w, bl, h0, now, page.len());
}

/// Two polls of one scope that both took their snapshot of the history
/// before either merged back deliver a listing at most once, when each
/// delivers only what its merge reports as new (`ItemHistory::merge_new`)
/// and merges at the time it recorded its sightings.
pub proof fn lemma_overlapping_polls_deliver_once(
    page1: Seq<VahtiItem>,
    page2: Seq<VahtiItem>,
    w1: DbVahti,
    w2: DbVahti,
    bl1: Seq<(i32, i32)>,
    bl2: Seq<(i32, i32)>,
    snap1: Map<ItemKey, i64>,
    snap2: Map<ItemKey, i64>,
    live0: Map<ItemKey, i64>,
    now1: i64,
    now2: i64,
)
    ensures
        ({
            let poll1 = scan(page1, w1, bl1, snap1, now1, page1.len());
            let poll2 = scan(page2, w2, bl2, snap2, now2, page2.len());
            let out1 = unseen_items(poll1.0, live0);
            let live1 = retained(merged(live0, poll1.1), now1);
            let out2 = unseen_items(poll2.0, live1);
            forall|i: int, j: int|
                0 <= i < out1.len() && 0 <= j < out2.len() ==> item_key(#[trigger] out1[i]) != item_key(
                    #[trigger] out2[j],
                )
        }),
{
    let poll1 = scan(page1, w1, bl1, snap1, now1, page1.len());
    let poll2 = scan(page2, w2, bl2, snap2, now2, page2.len());
    let out1 = unseen_items(poll1.0, live0);
    let live1 = retained(merged(live0, poll1.1), now1);
    let out2 = unseen_items(poll2.0, live1);
    lemma_scan(page1, w1, bl1, snap1, now1, page1.len());
    lemma_unseen_items(poll1.0, live0);
    lemma_unseen_items(poll2.0, live1);
    assert forall|i: int, j: int| 0 <= i < out1.len() && 0 <= j < out2.len() implies item_key(#[trigger] out1[i])
        != item_key(#[trigger] out2[j]) by {
        let x = out1[i];
        let k = choose|k: int| 0 <= k < poll1.0.len() && poll1.0[k] == x;
        assert(poll1.1.contains_key(item_key(poll1.0[k])));
        assert(live1.contains_key(item_key(x)));
    }
}

/// A listing delivered by one poll is not delivered again by a later poll in
/// the same scope that starts from a history holding what the first poll
/// recorded, whichever watches, pages and blacklists the two polls have.
pub proof fn lemma_no_duplicate_delivery(
    page1: Seq<VahtiItem>,
    page2: Seq<VahtiItem>,
    w1: DbVahti,
    w2: DbVahti,
    bl1: Seq<(i32, i32)>,
    bl2: Seq<(i32, i32)>,
    h0: Map<ItemKey, i64>,
    h1: Map<ItemKey, i64>,
    now1: i64,
    now2: i64,
)
    requires
        scan(page1, w1, bl1, h0, now1, page1.len()).1.submap_of(h1),
    ensures
        forall|i: int, j: int|
            0 <= i < scan(page1, w1, bl1, h0, now1, page1.len()).0.len() && 0 <= j < scan(
                page2,
                w2,
                bl2,
                h1,
                now2,
                page2.len(),
            ).0.len() ==> item_key(#[trigger] scan(page1, w1, bl1, h0, now1, page1.len()).0[i])
                != item_key(#[trigger] scan(page2, w2, bl2, h1, now2, page2.len()).0[j]),
{
    lemma_scan(page1, w1, bl1, h0, now1, page1.len());
    lemma_scan(page2, w2, bl2, h1, now2, page2.len());
    let out1 = scan(page1, w1, bl1, h0, now1, page1.len());
    let out2 = scan(page2, w2, bl2, h1, now2, page2.len());
    assert forall|i: int, j: int| 0 <= i < out1.0.len() && 0 <= j < out2.0.len() implies item_key(
        #[trigger] out1.0[i],
    ) != item_key(#[trigger] out2.0[j]) by {
        assert(out1.1.contains_key(item_key(out1.0[i])));
        assert(h1.contains_key(item_key(out1.0[i])));
    }
}

/// A watch's cursor never moves back, whatever page a poll brings; so it
/// never decreases over any sequence of polls.
pub proof fn lemma_cursor_monotone(page: Seq<VahtiItem>, last_updated: i64)
    ensures
        cursor_after(page, last_updated, page.len()) >= last_updated,
{
    lemma_cursor_bounds(page, last_updated, page.len());
}

/// The watches in `ws` on search URL `url`, in order.
pub open spec fn watches_on(ws: Seq<DbVahti>, url: Seq<char>) -> Seq<DbVahti>
    decreases ws.len(),
{
    if ws.len() == 0 {
        Seq::empty()
    } else {
        let prev = watches_on(ws.drop_last(), url);
        if ws.last().url@ == url {
            prev.push(ws.last())
        } else {
            prev
        }
    }
}

/// Whether some group of `gs` is for search URL `url`.
pub open spec fn has_group(gs: Seq<(String, Vec<DbVahti>)>, url: Seq<char>) -> bool {
    exists|g: int| 0 <= g < gs.len() && (#[trigger] gs[g]).0@ == url
}

/// `gs` groups `ws` by search URL: one group per distinct URL, each holding
/// exactly the watches on that URL, in order.
pub open spec fn is_url_grouping(ws: Seq<DbVahti>, gs: Seq<(String, Vec<DbVahti>)>) -> bool {
    &&& forall|a: int, b: int| 0 <= a < b < gs.len() ==> (#[trigger] gs[a]).0@ != (#[trigger] gs[b]).0@
    &&& forall|g: int| 0 <= g < gs.len() ==> (#[trigger] gs[g]).1@ == watches_on(ws, gs[g].0@)
    &&& forall|g: int| 0 <= g < gs.len() ==> (#[trigger] gs[g]).1@.len() > 0
    &&& forall|i: int| 0 <= i < ws.len() ==> has_group(gs, (#[trigger] ws[i]).url@)
}

proof fn lemma_watches_on_has(ws: Seq<DbVahti>, i: int)
    requires
        0 <= i < ws.len(),
    ensures
        watches_on(ws, ws[i].url@).len() > 0,
    decreases ws.len(),
{
    if i < ws.len() - 1 {
        lemma_watches_on_has(ws.drop_last(), i);
        assert(ws.drop_last()[i] == ws[i]);
    }
}

/// The watches of `ws` on `url`, in order.
fn collect_watches_on(ws: &Vec<DbVahti>, url: &String) -> (r: Vec<DbVahti>)
    ensures
        r@ == watches_on(ws@, url@),
{
    let mut out: Vec<DbVahti> = Vec::new();
    let mut i: usize = 0;
    assert(ws@.subrange(0, 0) =~= Seq::<DbVahti>::empty());
    while i < ws.len()
        invariant
            i <= ws@.len(),
            out@ == watches_on(ws@.subrange(0, i as int), url@),
        decreases ws.len() - i,
    {
        assert(ws@.subrange(0, i + 1 as int).drop_last() =~= ws@.subrange(0, i as int));
        if ws[i].url == *url {
            out.push(ws[i].duplicate());
        }
        i += 1;
    }
    assert(ws@.subrange(0, ws@.len() as int) =~= ws@);
    out
}

/// The earliest cursor among the first `n` watches.
pub open spec fn earliest_cursor_upto(ws: Seq<DbVahti>, n: nat) -> Option<i64>
    decreases n,
{
    if n == 0 || n > ws.len() {
        None
    } else {
        match earliest_cursor_upto(ws, (n - 1) as nat) {
            Some(c) => Some(if ws[n - 1].last_updated < c { ws[n - 1].last_updated } else { c }),
            None => Some(ws[n - 1].last_updated),
        }
    }
}

/// The earliest cursor among the watches of a group: the page fetched for
/// the group is parsed after it, so that no watch misses a listing newer
/// than its own cursor.
pub fn earliest_cursor(watches: &Vec<DbVahti>) -> (r: Option<i64>)
    ensures
        r == earliest_cursor_upto(watches@, watches@.len()),
        r is None <==> watches@.len() == 0,
{
    let mut cur: Option<i64> = None;
    let mut i: usize = 0;
    while i < watches.len()
        invariant
            i <= watches@.len(),
            cur == earliest_cursor_upto(watches@, i as nat),
            cur is None <==> i == 0,
        decreases watches.len() - i,
    {
        let lu = watches[i].last_updated;
        cur = match cur {
            Some(c) => Some(if lu < c { lu } else { c }),
            None => Some(lu),
        };
        i += 1;
    }
    cur
}

/// Groups watches by search URL, so that each distinct URL is fetched once
/// per tick however many users watch it.
pub fn group_by_url(watches: &Vec<DbVahti>) -> (r: Vec<(String, Vec<DbVahti>)>)
    ensures
        is_url_grouping(watches@, r@),
{
    let ghost ws = watches@;
    let mut urls: Vec<String> = Vec::new();
    let mut i: usize = 0;
    while i < watches.len()
        invariant
            ws == watches@,
            i <= ws.len(),
            forall|a: int, b: int| 0 <= a < b < urls@.len() ==> (#[trigger] urls@[a])@ != (#[trigger] urls@[b])@,
            forall|a: int| 0 <= a < urls@.len() ==> exists|k: int| 0 <= k < ws.len() && (#[trigger] ws[k]).url@ == (#[trigger] urls@[a])@,
            forall|k: int|
                #![trigger ws[k]]
                0 <= k < i ==> exists|a: int| #![trigger urls@[a]] 0 <= a < urls@.len() && urls@[a]@ == ws[k].url@,
        decreases ws.len() - i,
    {
        let mut found = false;
        let mut j: usize = 0;
        while j < urls.len()
            invariant
                j <= urls@.len(),
                found ==> exists|a: int| 0 <= a < urls@.len() && (#[trigger] urls@[a])@ == ws[i as int].url@,
                !found ==> forall|a: int| 0 <= a < j ==> (#[trigger] urls@[a])@ != ws[i as int].url@,
                i < ws.len(),
                ws == watches@,
            decreases urls.len() - j,
        {
            if urls[j] == watches[i].url {
                found = true;
            }
            j += 1;
        }
        if !found {
            let ghost before = urls@;
            urls.push(watches[i].url.clone());
            proof {
                assert forall|k: int| #![trigger ws[k]] 0 <= k < i + 1 implies exists|a: int| #![trigger urls@[a]] 0 <= a < urls@.len() && urls@[a]@ == ws[k].url@ by {
                    if k < i {
                        let a = choose|a: int| #![trigger before[a]] 0 <= a < before.len() && before[a]@ == ws[k].url@;
                        assert(urls@[a] == before[a]);
                    } else {
                        assert(urls@[before.len() as int]@ == ws[k].url@);
                    }
                }
                assert forall|a: int| 0 <= a < urls@.len() implies exists|k: int| 0 <= k < ws.len() && (#[trigger] ws[k]).url@ == (#[trigger] urls@[a])@ by {
                    if a < before.len() {
                        assert(urls@[a] == before[a]);
                    } else {
                        assert(ws[i as int].url@ == urls@[a]@);
                    }
                }
            }
        }
        i += 1;
    }
    let mut groups: Vec<(String, Vec<DbVahti>)> = Vec::new();
    let mut g: usize = 0;
    while g < urls.len()
        invariant
            ws == watches@,
            g <= urls@.len(),
            groups@.len() == g,
            forall|a: int| 0 <= a < g ==> (#[trigger] groups@[a]).0@ == urls@[a]@,
            forall|a: int| 0 <= a < g ==> (#[trigger] groups@[a]).1@ == watches_on(ws, urls@[a]@),
        decreases urls.len() - g,
    {
        let members = collect_watches_on(watches, &urls[g]);
        groups.push((urls[g].clone(), members));
        g += 1;
    }
    proof {
        assert forall|a: int| 0 <= a < groups@.len() implies (#[trigger] groups@[a]).1@ == watches_on(ws, groups@[a].0@) by {
            assert(groups@[a].0@ == urls@[a]@);
        }
        assert forall|a: int| 0 <= a < groups@.len() implies (#[trigger] groups@[a]).1@.len() > 0 by {
            let k = choose|k: int| 0 <= k < ws.len() && (#[trigger] ws[k]).url@ == urls@[a]@;
            lemma_watches_on_has(ws, k);
        }
        assert forall|x: int| 0 <= x < ws.len() implies has_group(groups@, (#[trigger] ws[x]).url@) by {
            let a = choose|a: int| #![trigger urls@[a]] 0 <= a < urls@.len() && urls@[a]@ == ws[x].url@;
            assert(0 <= a < groups@.len());
            assert(groups@[a].0@ == urls@[a]@);
            assert(groups@[a].0@ == ws[x].url@);
        }
        assert forall|a: int, b: int| 0 <= a < b < groups@.len() implies (#[trigger] groups@[a]).0@ != (#[trigger] groups@[b]).0@ by {
            assert(urls@[a]@ != urls@[b]@);
        }
        assert(forall|a: int, b: int| 0 <= a < b < groups@.len() ==> (#[trigger] groups@[a]).0@ != (#[trigger] groups@[b]).0@);
        assert(forall|g: int| 0 <= g < groups@.len() ==> (#[trigger] groups@[g]).1@ == watches_on(ws, groups@[g].0@));
        assert(forall|g: int| 0 <= g < groups@.len() ==> (#[trigger] groups@[g]).1@.len() > 0);
    }
    groups
}

/// Watches on one search URL share one group, whatever their users: the
/// URL is fetched once per tick, not once per watch.
pub proof fn lemma_same_url_one_fetch(ws: Seq<DbVahti>, gs: Seq<(String, Vec<DbVahti>)>, i: int, j: int)
    requires
        is_url_grouping(ws, gs),
        0 <= i < ws.len(),
        0 <= j < ws.len(),
        ws[i].url@ == ws[j].url@,
    ensures
        exists|g: int| #![trigger gs[g]] 0 <= g < gs.len() && gs[g].0@ == ws[i].url@ && gs[g].1@ == watches_on(ws, ws[j].url@),
        forall|a: int, b: int|
            0 <= a < gs.len() && 0 <= b < gs.len() && (#[trigger] gs[a]).0@ == ws[i].url@ && (#[trigger] gs[b]).0@ == ws[j].url@ ==> a == b,
{
    assert(ws[i] == ws[i]);
    let g = choose|g: int| #![trigger gs[g]] 0 <= g < gs.len() && gs[g].0@ == ws[i].url@;
    assert(gs[g].1@ == watches_on(ws, gs[g].0@));
}

/// Who a listing goes to: the user and the delivery channel.
pub open spec fn recipient_of(it: VahtiItem) -> (Option<u64>, Option<i32>) {
    (it.deliver_to, it.delivery_method)
}

/// Whether `b` holds a listing with key `k`.
pub open spec fn in_batch(b: Seq<VahtiItem>, k: ItemKey) -> bool {
    exists|j: int| 0 <= j < b.len() && item_key(#[trigger] b[j]) == k
}

/// The batch for recipient `key` from the first `n` listings: those routed
/// to it, in order, each listing once.
pub open spec fn batch_for(items: Seq<VahtiItem>, key: (Option<u64>, Option<i32>), n: nat) -> Seq<VahtiItem>
    decreases n,
{
    if n == 0 || n > items.len() {
        Seq::empty()
    } else {
        let prev = batch_for(items, key, (n - 1) as nat);
        let it = items[n - 1];
        if recipient_of(it) == key && !in_batch(prev, item_key(it)) {
            prev.push(it)
        } else {
            prev
        }
    }
}

/// Whether some batch of `bs` is for recipient `key`.
pub open spec fn has_batch(bs: Seq<Vec<VahtiItem>>, key: (Option<u64>, Option<i32>)) -> bool {
    exists|g: int| 0 <= g < bs.len() && recipient_of((#[trigger] bs[g])@[0]) == key
}

/// `bs` batches `items` by recipient: one non-empty batch per recipient,
/// each holding that recipient's listings once each, in order.
pub open spec fn is_recipient_batching(items: Seq<VahtiItem>, bs: Seq<Vec<VahtiItem>>) -> bool {
    &&& forall|g: int| 0 <= g < bs.len() ==> (#[trigger] bs[g])@.len() > 0
    &&& forall|g: int|
        0 <= g < bs.len() ==> (#[trigger] bs[g])@ == batch_for(items, recipient_of(bs[g]@[0]), items.len())
    &&& forall|a: int, b: int|
        0 <= a < b < bs.len() ==> recipient_of((#[trigger] bs[a])@[0]) != recipient_of((#[trigger] bs[b])@[0])
    &&& forall|i: int| 0 <= i < items.len() ==> has_batch(bs, recipient_of(#[trigger] items[i]))
}

proof fn lemma_batch_for(items: Seq<VahtiItem>, key: (Option<u64>, Option<i32>), n: nat)
    requires
        n <= items.len(),
    ensures
        forall|j: int| 0 <= j < batch_for(items, key, n).len() ==> recipient_of(#[trigger] batch_for(items, key, n)[j]) == key,
        forall|j: int, l: int|
            0 <= j < l < batch_for(items, key, n).len() ==> item_key(#[trigger] batch_for(items, key, n)[j]) != item_key(
                #[trigger] batch_for(items, key, n)[l],
            ),
        (exists|i: int| 0 <= i < n && i < items.len() && recipient_of(#[trigger] items[i]) == key) ==> batch_for(items, key, n).len() > 0,
    decreases n,
{
    if n > 0 {
        lemma_batch_for(items, key, (n - 1) as nat);
        let prev = batch_for(items, key, (n - 1) as nat);
        let cur = batch_for(items, key, n);
        if recipient_of(items[n - 1]) == key && !in_batch(prev, item_key(items[n - 1])) {
            assert forall|j: int| 0 <= j < cur.len() implies cur[j] == if j < prev.len() { prev[j] } else { items[n - 1] } by {}
            assert forall|j: int, l: int| 0 <= j < l < cur.len() implies item_key(#[trigger] cur[j]) != item_key(#[trigger] cur[l]) by {
                if l == prev.len() {
                    assert(item_key(prev[j]) != item_key(items[n - 1]));
                }
            }
        }
        if exists|i: int| 0 <= i < n && i < items.len() && recipient_of(#[trigger] items[i]) == key {
            if !(exists|i: int| 0 <= i < n - 1 && i < items.len() && recipient_of(#[trigger] items[i]) == key) {
                assert(recipient_of(items[n - 1]) == key);
            }
        }
    }
}

/// The batch for recipient `key`.
fn collect_batch(items: &Vec<VahtiItem>, key: (Option<u64>, Option<i32>)) -> (r: Vec<VahtiItem>)
    ensures
        r@ == batch_for(items@, key, items@.len()),
{
    let mut out: Vec<VahtiItem> = Vec::new();
    let mut i: usize = 0;
    while i < items.len()
        invariant
            i <= items@.len(),
            out@ == batch_for(items@, key, i as nat),
        decreases items.len() - i,
    {
        let it = &items[i];
        if it.deliver_to == key.0 && it.delivery_method == key.1 {
            let mut seen = false;
            let mut j: usize = 0;
            while j < out.len()
                invariant
                    j <= out@.len(),
                    seen == exists|l: int| 0 <= l < j && item_key(#[trigger] out@[l]) == item_key(*it),
                decreases out.len() - j,
            {
                if out[j].ad_id == it.ad_id && out[j].site_id == it.site_id {
                    seen = true;
                }
                j += 1;
            }
            if !seen {
                out.push(it.duplicate());
            }
        }
        i += 1;
    }
    out
}

/// Regroups the listings of a tick by recipient and channel, so that each
/// recipient gets one batch however many watches its listings came from.
pub fn group_by_recipient(items: &Vec<VahtiItem>) -> (r: Vec<Vec<VahtiItem>>)
    ensures
        is_recipient_batching(items@, r@),
        forall|g: int, j: int|
            0 <= g < r@.len() && 0 <= j < r@[g]@.len() ==> recipient_of(#[trigger] r@[g]@[j]) == recipient_of(r@[g]@[0]),
{
    let ghost its = items@;
    let mut keys: Vec<(Option<u64>, Option<i32>)> = Vec::new();
    let mut i: usize = 0;
    while i < items.len()
        invariant
            its == items@,
            i <= its.len(),
            forall|a: int, b: int| 0 <= a < b < keys@.len() ==> #[trigger] keys@[a] != #[trigger] keys@[b],
            forall|a: int| 0 <= a < keys@.len() ==> exists|k: int| 0 <= k < its.len() && recipient_of(#[trigger] its[k]) == #[trigger] keys@[a],
            forall|k: int| 0 <= k < i ==> keys@.contains(recipient_of(#[trigger] its[k])),
        decreases its.len() - i,
    {
        let key = (items[i].deliver_to, items[i].delivery_method);
        let mut found = false;
        let mut j: usize = 0;
        while j < keys.len()
            invariant
                j <= keys@.len(),
                found == exists|a: int| 0 <= a < j && #[trigger] keys@[a] == key,
            decreases keys.len() - j,
        {
            if keys[j].0 == key.0 && keys[j].1 == key.1 {
                found = true;
            }
            j += 1;
        }
        let ghost before = keys@;
        if !found {
            keys.push(key);
            proof {
                assert(keys@[before.len() as int] == key);
                assert forall|a: int| 0 <= a < keys@.len() implies exists|k: int| 0 <= k < its.len() && recipient_of(#[trigger] its[k]) == #[trigger] keys@[a] by {
                    if a < before.len() {
                        assert(keys@[a] == before[a]);
                    } else {
                        assert(recipient_of(its[i as int]) == keys@[a]);
                    }
                }
                assert forall|k: int| 0 <= k < i + 1 implies keys@.contains(recipient_of(#[trigger] its[k])) by {
                    if k < i {
                        let a = choose|a: int| 0 <= a < before.len() && before[a] == recipient_of(its[k]);
                        assert(keys@[a] == before[a]);
                    } else {
                        assert(keys@[before.len() as int] == recipient_of(its[k]));
                    }
                }
            }
        } else {
            proof {
                let a = choose|a: int| 0 <= a < j && #[trigger] keys@[a] == key;
                assert(keys@.contains(recipient_of(its[i as int])));
            }
        }
        i += 1;
    }
    let mut batches: Vec<Vec<VahtiItem>> = Vec::new();
    let mut g: usize = 0;
    while g < keys.len()
        invariant
            its == items@,
            g <= keys@.len(),
            batches@.len() == g,
            forall|a: int| 0 <= a < g ==> (#[trigger] batches@[a])@ == batch_for(its, keys@[a], its.len()),
        decreases keys.len() - g,
    {
        let b = collect_batch(items, keys[g]);
        batches.push(b);
        g += 1;
    }
    proof {
        assert forall|a: int| 0 <= a < batches@.len() implies (#[trigger] batches@[a])@.len() > 0 && recipient_of(
            batches@[a]@[0],
        ) == keys@[a] by {
            let k = choose|k: int| 0 <= k < its.len() && recipient_of(#[trigger] its[k]) == keys@[a];
            lemma_batch_for(its, keys@[a], its.len());
        }
        assert forall|a: int, j: int| 0 <= a < batches@.len() && 0 <= j < batches@[a]@.len() implies recipient_of(
            #[trigger] batches@[a]@[j],
        ) == recipient_of(batches@[a]@[0]) by {
            lemma_batch_for(its, keys@[a], its.len());
        }
        assert forall|x: int| 0 <= x < its.len() implies has_batch(batches@, recipient_of(#[trigger] its[x])) by {
            let a = choose|a: int| 0 <= a < keys@.len() && keys@[a] == recipient_of(its[x]);
            assert(recipient_of(batches@[a]@[0]) == keys@[a]);
        }
        assert forall|a: int, b: int| 0 <= a < b < batches@.len() implies recipient_of((#[trigger] batches@[a])@[0])
            != recipient_of((#[trigger] batches@[b])@[0]) by {
            assert(keys@[a] != keys@[b]);
        }
    }
    batches
}

/// How many listings a search request asks for by default.
pub const DEFAULT_PAGE_LIMIT: usize = 50;

/// How many listings a request asks for when a default page came back full.
pub const UNBOUNDED_PAGE_LIMIT: u64 = 1000;

/// Which request the poll of one URL group has made.
#[derive(Clone, Copy, Debug, PartialEq, Eq, Structural)]
pub enum FetchStage {
    /// The request with the site's default page size.
    Bounded,
    /// The request that asks for everything.
    Unbounded,
}

/// What to do with a page that has been fetched and parsed.
#[derive(Clone, Copy, Debug, PartialEq, Eq, Structural)]
pub enum PageAction {
    /// Fetch again with the unbounded request: the page may be truncated.
    Refetch,
    /// Filter the page for each watch of the group.
    Filter,
}

/// The next stage and action after a page of `records` listings, with
/// `page_limit` the most a bounded page holds.
pub open spec fn page_step(stage: FetchStage, records: nat, page_limit: nat) -> (FetchStage, PageAction) {
    if stage == FetchStage::Bounded && records == page_limit {
        (FetchStage::Unbounded, PageAction::Refetch)
    } else {
        (stage, PageAction::Filter)
    }
}

/// Decides what follows a fetched page: a bounded page that came back
/// exactly full cannot be trusted to hold every new listing, so it is
/// fetched again unbounded before any filtering.
pub fn after_page(stage: FetchStage, records: usize, page_limit: usize) -> (r: (FetchStage, PageAction))
    ensures
        r == page_step(stage, records as nat, page_limit as nat),
        stage == FetchStage::Bounded && records == page_limit ==> r.1 == PageAction::Refetch,
        stage == FetchStage::Unbounded ==> r.1 == PageAction::Filter,
{
    match stage {
        FetchStage::Bounded => if records == page_limit {
            (FetchStage::Unbounded, PageAction::Refetch)
        } else {
            (FetchStage::Bounded, PageAction::Filter)
        },
        FetchStage::Unbounded => (FetchStage::Unbounded, PageAction::Filter),
    }
}

/// The parameter that sets the page size of a site's search request.
pub open spec fn limit_param(site_id: i32) -> Seq<char> {
    if site_id == HUUTONET_ID {
        "&limit="@
    } else {
        "&lim="@
    }
}

/// The search request `query` with its page size set to `limit`.
pub fn with_page_limit(site_id: i32, query: &str, limit: u64) -> (r: String)
    ensures
        r@ == query@ + limit_param(site_id) + decimal(limit as nat),
{
    let mut out = chars_of(query);
    if site_id == HUUTONET_ID {
        push_str(&mut out, "&limit=");
    } else {
        push_str(&mut out, "&lim=");
    }
    push_decimal(&mut out, limit);
    string_from_chars(&out)
}

/// A poll whose first page comes back holding exactly the page limit goes on
/// to the unbounded request before filtering, and a poll never refetches
/// twice.
pub proof fn lemma_truncated_page_refetched(records: nat, page_limit: nat, second: nat)
    requires
        records == page_limit,
    ensures
        page_step(FetchStage::Bounded, records, page_limit) == (FetchStage::Unbounded, PageAction::Refetch),
        page_step(page_step(FetchStage::Bounded, records, page_limit).0, second, page_limit).1 == PageAction::Filter,
{
}

} // verus!
