use torimies::itemhistory::ItemHistory;
use torimies::models::DbVahti;
use torimies::pipeline::{
    after_page, earliest_cursor, group_by_recipient, group_by_url, is_blacklisted, process_watch, with_page_limit,
    FetchStage, PageAction,
};
use torimies::vahti::{api_select_after, VahtiItem, TORI_ID};

fn listing(ad_id: i64, published: i64, seller_id: i32) -> VahtiItem {
    VahtiItem {
        deliver_to: None,
        delivery_method: None,
        site_id: TORI_ID,
        title: format!("item {ad_id}"),
        vahti_url: None,
        url: format!("https://example/item/{ad_id}"),
        img_url: String::new(),
        published,
        price: 10,
        seller_name: "seller".to_string(),
        seller_id,
        location: "Helsinki".to_string(),
        ad_type: "Myydään".to_string(),
        ad_id,
    }
}

fn watch(id: i32, url: &str, user_id: i64, last_updated: i64) -> DbVahti {
    DbVahti {
        id,
        url: url.to_string(),
        user_id,
        last_updated,
        site_id: TORI_ID,
        delivery_method: 1,
    }
}

#[test]
fn scenario_only_newer_listing_is_candidate() {
    let w1 = watch(1, "https://example/search?q=lamp", 1, 100);
    let page = vec![listing(5, 150, 9), listing(6, 90, 9)];
    let mut h = ItemHistory::new();
    let r = process_watch(&w1, &page, &mut h, &vec![], 1000);
    assert_eq!(r.items.len(), 1);
    assert_eq!(r.items[0].ad_id, 5);
    assert_eq!(r.items[0].deliver_to, Some(1));
    assert_eq!(r.items[0].delivery_method, Some(1));
    assert_eq!(r.items[0].vahti_url.as_deref(), Some("https://example/search?q=lamp"));
    assert_eq!(r.last_updated, 150);
    assert!(h.contains(5, TORI_ID));
    assert!(!h.contains(6, TORI_ID));
}

#[test]
fn scenario_cursor_advances_when_everything_is_filtered() {
    let w1 = watch(1, "https://example/search?q=lamp", 1, 100);
    let page = vec![listing(5, 150, 9), listing(6, 90, 9)];
    let mut h = ItemHistory::new();
    h.add_item(5, TORI_ID, 900);
    let r = process_watch(&w1, &page, &mut h, &vec![], 1000);
    assert!(r.items.is_empty());
    assert_eq!(r.last_updated, 150);

    let mut fresh = ItemHistory::new();
    let r = process_watch(&w1, &page, &mut fresh, &vec![(9, TORI_ID)], 1000);
    assert!(r.items.is_empty());
    assert_eq!(r.last_updated, 150);
}

#[test]
fn scenario_rapid_repoll_delivers_once() {
    let w1 = watch(1, "https://example/search?q=lamp", 1, 100);
    let page = vec![listing(5, 150, 9), listing(6, 90, 9)];
    let mut live = ItemHistory::new();

    // Both polls take their snapshot before either merges back, and the
    // cursor write of the first has not reached the repository.
    let mut snap1 = live.snapshot();
    let mut snap2 = live.snapshot();
    let first = process_watch(&w1, &page, &mut snap1, &vec![], 1000);
    let second = process_watch(&w1, &page, &mut snap2, &vec![], 1001);
    let out1 = live.merge_new(&snap1, &first.items, 1000);
    let out2 = live.merge_new(&snap2, &second.items, 1001);

    let delivered: Vec<i64> = out1.iter().chain(out2.iter()).map(|i| i.ad_id).collect();
    assert_eq!(delivered, vec![5]);
    assert_eq!(live.first_seen(5, TORI_ID), Some(1000));
}

#[test]
fn overlapping_watches_of_one_scope_deliver_once() {
    let a = watch(1, "https://example/search?q=lamp", 1, 0);
    let b = watch(2, "https://example/search?q=lamp&cg=1", 1, 0);
    let page = vec![listing(5, 150, 9)];
    let mut h = ItemHistory::new();
    let ra = process_watch(&a, &page, &mut h, &vec![], 1000);
    let rb = process_watch(&b, &page, &mut h, &vec![], 1000);
    assert_eq!(ra.items.len(), 1);
    assert!(rb.items.is_empty());
}

#[test]
fn blacklisted_seller_never_delivered_on_first_sighting() {
    let w = watch(1, "https://example/search?q=lamp", 1, 0);
    let page = vec![listing(5, 150, 42), listing(7, 140, 43)];
    let mut h = ItemHistory::new();
    let bl = vec![(42, TORI_ID)];
    let r = process_watch(&w, &page, &mut h, &bl, 1000);
    assert_eq!(r.items.iter().map(|i| i.ad_id).collect::<Vec<_>>(), vec![7]);
    assert!(h.contains(5, TORI_ID));
}

#[test]
fn blacklist_matches_seller_and_site() {
    let bl = vec![(42, 1), (7, 2)];
    assert!(is_blacklisted(&bl, 42, 1));
    assert!(!is_blacklisted(&bl, 42, 2));
    assert!(!is_blacklisted(&vec![], 42, 1));
}

#[test]
fn cursor_never_decreases() {
    let w = watch(1, "u", 1, 500);
    let page = vec![listing(1, 100, 1), listing(2, 200, 1)];
    let mut h = ItemHistory::new();
    let r = process_watch(&w, &page, &mut h, &vec![], 1000);
    assert_eq!(r.last_updated, 500);
    assert!(r.items.is_empty());
    let r = process_watch(&w, &vec![], &mut h, &vec![], 1000);
    assert_eq!(r.last_updated, 500);
}

#[test]
fn same_url_different_users_share_one_group() {
    let ws = vec![
        watch(1, "https://example/search?q=lamp", 1, 0),
        watch(2, "https://example/search?q=desk", 1, 0),
        watch(3, "https://example/search?q=lamp", 2, 0),
    ];
    let groups = group_by_url(&ws);
    assert_eq!(groups.len(), 2);
    let lamp = groups.iter().find(|g| g.0 == "https://example/search?q=lamp").unwrap();
    assert_eq!(lamp.1.iter().map(|w| w.id).collect::<Vec<_>>(), vec![1, 3]);
    let desk = groups.iter().find(|g| g.0 == "https://example/search?q=desk").unwrap();
    assert_eq!(desk.1.len(), 1);
}

#[test]
fn empty_watch_list_has_no_groups() {
    assert!(group_by_url(&vec![]).is_empty());
}

#[test]
fn truncated_page_is_refetched_unbounded() {
    assert_eq!(
        after_page(FetchStage::Bounded, 50, 50),
        (FetchStage::Unbounded, PageAction::Refetch)
    );
    assert_eq!(
        after_page(FetchStage::Bounded, 49, 50),
        (FetchStage::Bounded, PageAction::Filter)
    );
    assert_eq!(
        after_page(FetchStage::Unbounded, 50, 50),
        (FetchStage::Unbounded, PageAction::Filter)
    );
}

#[test]
fn page_limit_parameter_per_site() {
    assert_eq!(with_page_limit(1, "https://api.tori.fi/api/v1.2/public/ads?q=a", 1000), "https://api.tori.fi/api/v1.2/public/ads?q=a&lim=1000");
    assert_eq!(with_page_limit(2, "https://api.huuto.net/1.1/items?words=a&sort=newest", 7), "https://api.huuto.net/1.1/items?words=a&sort=newest&limit=7");
}

#[test]
fn items_regrouped_by_recipient_and_channel() {
    let mut items = Vec::new();
    for (ad, user, method) in [(1, 10u64, 1), (2, 20, 1), (3, 10, 2), (4, 10, 1), (1, 10, 1)] {
        let mut it = listing(ad, 100, 1);
        it.deliver_to = Some(user);
        it.delivery_method = Some(method);
        items.push(it);
    }
    let batches = group_by_recipient(&items);
    assert_eq!(batches.len(), 3);
    let ids = |b: &Vec<VahtiItem>| b.iter().map(|i| i.ad_id).collect::<Vec<_>>();
    let b10 = batches.iter().find(|b| b[0].deliver_to == Some(10) && b[0].delivery_method == Some(1)).unwrap();
    assert_eq!(ids(b10), vec![1, 4]);
    let b20 = batches.iter().find(|b| b[0].deliver_to == Some(20)).unwrap();
    assert_eq!(ids(b20), vec![2]);
    for b in &batches {
        assert!(b.iter().all(|i| i.deliver_to == b[0].deliver_to && i.delivery_method == b[0].delivery_method));
    }
}

#[test]
fn selection_keeps_every_newer_listing() {
    let page = vec![
        listing(1, 50, 1),
        listing(2, 150, 1),
        listing(3, 140, 1),
        listing(4, 90, 1),
        listing(5, 160, 1),
    ];
    let kept: Vec<i64> = api_select_after(page, 100).iter().map(|i| i.ad_id).collect();
    assert_eq!(kept, vec![5, 2, 3]);
    assert!(api_select_after(vec![listing(1, 100, 1)], 100).is_empty());
}

#[test]
fn group_is_parsed_after_its_earliest_cursor() {
    let ws = vec![watch(1, "u", 1, 300), watch(2, "u", 2, 100), watch(3, "u", 3, 200)];
    assert_eq!(earliest_cursor(&ws), Some(100));
    assert_eq!(earliest_cursor(&vec![]), None);
}

#[test]
fn selection_orders_newest_first() {
    let page = vec![listing(1, 120, 1), listing(2, 150, 1), listing(3, 130, 1), listing(4, 130, 1)];
    let kept: Vec<i64> = api_select_after(page, 100).iter().map(|i| i.ad_id).collect();
    assert_eq!(kept, vec![2, 3, 4, 1]);
}

#[test]
fn newer_listing_after_a_stale_one_is_kept() {
    let page = vec![listing(1, 300, 1), listing(2, 50, 1), listing(3, 200, 1)];
    let kept: Vec<i64> = api_select_after(page, 100).iter().map(|i| i.ad_id).collect();
    assert_eq!(kept, vec![1, 3]);
}
