use torimies::error::Error;
use torimies::huutonet::{self, FullHuutonetItem, HuutonetVahti};
use torimies::models::DbVahti;
use torimies::tori::ToriVahti;
use torimies::tori_models::{self, FullToriItem, ToriItem};
use torimies::vahti::{classify, new_vahti, HUUTONET_ID, TORI_ID};

fn tori_record() -> FullToriItem {
    FullToriItem {
        ad_id: "/private/ads/79217488".to_string(),
        account_code: "188169".to_string(),
        subject: "Maalaisromanttinen peltipurkki ja eläimiä".to_string(),
        share_link: "https://www.tori.fi/vi/81076530.htm".to_string(),
        price: 7,
        thumbnail_path: Some("imagestori/9039260397.jpg".to_string()),
        location_labels: vec![
            "Uusimaa".to_string(),
            "Helsinki".to_string(),
            "Maunula-Suursuo".to_string(),
        ],
        ad_type: "Myydään".to_string(),
        seller_name: "H.S.M".to_string(),
        published: 1614890870,
    }
}

#[test]
fn tori_urls_classify_to_tori() {
    assert_eq!(classify("https://www.tori.fi/koko_suomi?q=thinkpad"), Some(TORI_ID));
    assert_eq!(classify("https://m.tori.fi/uusimaa?q=lamp"), Some(TORI_ID));
    assert_eq!(classify("https://www.tori.fi/koko_suomi"), None);
}

#[test]
fn huutonet_urls_classify_to_huutonet() {
    assert_eq!(classify("https://www.huuto.net/haku?words=thinkpad"), Some(HUUTONET_ID));
    assert_eq!(classify("https://huuto.net/haku/words/thinkpad"), Some(HUUTONET_ID));
    assert_eq!(classify("https://example.com/search?q=a"), None);
}

#[test]
fn new_vahti_decisions() {
    assert_eq!(new_vahti("https://www.tori.fi/li?q=a", false), Ok(TORI_ID));
    assert_eq!(new_vahti("https://www.tori.fi/li?q=a", true), Err(Error::VahtiExists));
    assert_eq!(
        new_vahti("https://example.com/", false),
        Err(Error::UnknownUrl("https://example.com/".to_string()))
    );
}

#[test]
fn tori_record_reads_as_listing() {
    let it = ToriItem::from_full(&tori_record()).ok().unwrap();
    assert_eq!(it.seller_id, 188169);
    assert_eq!(it.ad_id, 79217488);
    assert_eq!(it.location, "Maunula-Suursuo, Helsinki, Uusimaa");
    assert_eq!(
        it.img_url,
        "https://images.tori.fi/api/v1/imagestori/images/9039260397.jpg?rule=medium_660"
    );
    let v = it.into_vahti_item();
    assert_eq!(v.site_id, TORI_ID);
    assert_eq!(v.title, "Maalaisromanttinen peltipurkki ja eläimiä");
    assert_eq!(v.published, 1614890870);
}

#[test]
fn tori_location_stops_at_repeated_label() {
    let mut r = tori_record();
    r.location_labels = vec!["Uusimaa".to_string(), "Helsinki".to_string(), "Helsinki".to_string()];
    assert_eq!(ToriItem::from_full(&r).ok().unwrap().location, "Helsinki");
    r.thumbnail_path = None;
    assert_eq!(ToriItem::from_full(&r).ok().unwrap().img_url, "");
}

#[test]
fn unreadable_tori_record_is_invalid() {
    let mut r = tori_record();
    r.account_code = "abc".to_string();
    assert!(matches!(ToriItem::from_full(&r), Err(Error::InvalidItem)));
    let mut r = tori_record();
    r.location_labels = vec![];
    assert!(matches!(ToriItem::from_full(&r), Err(Error::InvalidItem)));
    assert_eq!(tori_models::api_parse_after(&vec![tori_record(), r], 0).err(), Some(Error::Tori));
}

#[test]
fn tori_parse_after_filters_by_time() {
    let mut a = tori_record();
    a.published = 1651416320;
    let mut b = tori_record();
    b.published = 1651416319;
    let recs = vec![a, b];
    assert_eq!(tori_models::api_parse_after(&recs, 1651416320).ok().unwrap().len(), 0);
    assert_eq!(tori_models::api_parse_after(&recs, 1651416319).ok().unwrap().len(), 1);
    assert_eq!(tori_models::api_parse_after(&recs, 0).ok().unwrap().len(), 2);
}

fn huutonet_record(list_time: &str) -> FullHuutonetItem {
    FullHuutonetItem {
        id: 123,
        title: "Thinkpad".to_string(),
        seller: "myyjä".to_string(),
        seller_id: 55,
        price: 120,
        sale_method: "auction".to_string(),
        list_time: list_time.to_string(),
        location: "Helsinki".to_string(),
        link: "https://www.huuto.net/kohteet/123".to_string(),
        image: None,
    }
}

#[test]
fn huutonet_record_reads_listing_time() {
    let v = huutonet_record("2023-01-02T03:04:05+02:00").to_vahti_item().ok().unwrap();
    assert_eq!(v.published, 1672621445);
    assert_eq!(v.site_id, HUUTONET_ID);
    assert_eq!(v.img_url, "");
    assert!(matches!(huutonet_record("yesterday").to_vahti_item(), Err(Error::InvalidItem)));
    let page = vec![huutonet_record("2023-01-02T03:04:05+02:00")];
    assert_eq!(huutonet::api_parse_after(&page, 1672621445).ok().unwrap().len(), 0);
    assert_eq!(huutonet::api_parse_after(&page, 0).ok().unwrap().len(), 1);
}

fn db(site_id: i32) -> DbVahti {
    DbVahti {
        id: 3,
        url: "https://www.tori.fi/li?q=a".to_string(),
        user_id: 77,
        last_updated: 10,
        site_id,
        delivery_method: 2,
    }
}

#[test]
fn watch_records_round_trip() {
    let t = ToriVahti::from_db(db(TORI_ID)).ok().unwrap();
    assert_eq!(t.user_id, 77);
    let back = t.to_db();
    assert_eq!((back.id, back.user_id, back.site_id, back.delivery_method), (3, 77, TORI_ID, 2));
    assert!(matches!(ToriVahti::from_db(db(HUUTONET_ID)), Err(Error::WrongSite)));
    assert!(t.is_valid_url("https://www.tori.fi/li?q=a"));
    assert_eq!(t.api_url().unwrap(), "https://api.tori.fi/api/v1.2/public/ads?q=a");
    let h = HuutonetVahti::from_db(db(HUUTONET_ID)).ok().unwrap();
    assert_eq!(h.to_db().site_id, HUUTONET_ID);
    assert!(matches!(HuutonetVahti::from_db(db(TORI_ID)), Err(Error::WrongSite)));
    assert!(!h.is_valid_url("https://www.tori.fi/li?q=a"));
}

#[test]
fn error_messages() {
    assert_eq!(Error::VahtiExists.message(), "The specified Vahti already exists");
    assert_eq!(Error::UnknownUrl("x".to_string()).message(), "Unknown url passed: x");
}

#[test]
fn huutonet_parse_keeps_scanning_past_stale_items() {
    let mut a = huutonet_record("2023-01-02T03:04:05+02:00");
    a.id = 1;
    let mut b = huutonet_record("2020-01-02T03:04:05+02:00");
    b.id = 2;
    let mut c = huutonet_record("2022-01-02T03:04:05+02:00");
    c.id = 3;
    let after = 1600000000;
    let ids: Vec<i64> = huutonet::api_parse_after(&vec![a, b, c], after)
        .ok()
        .unwrap()
        .iter()
        .map(|v| v.ad_id)
        .collect();
    assert_eq!(ids, vec![1, 3]);
}
