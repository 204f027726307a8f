use torimies::command::{
    menu_page, menu_page_number, parse_seller_choice, read_seller_field, search_has_results,
    seller_choice_value, seller_field, seller_url, unique_strings,
};

#[test]
fn seller_urls_per_site() {
    assert_eq!(seller_url(1, 188169).as_deref(), Some("https://www.tori.fi/li?&aid=188169"));
    assert_eq!(seller_url(2, 55).as_deref(), Some("https://www.huuto.net/kayttaja/55"));
    assert_eq!(seller_url(3, 55), None);
}

#[test]
fn seller_field_reads_back() {
    let f = seller_field(1, "H.S.M", 188169).unwrap();
    assert_eq!(f, "[H.S.M](https://www.tori.fi/li?&aid=188169)");
    assert_eq!(read_seller_field(&f), Some(("H.S.M".to_string(), 188169, 1)));
    let g = seller_field(2, "myyjä", -4).unwrap();
    assert_eq!(read_seller_field(&g), Some(("myyjä".to_string(), -4, 2)));
    assert_eq!(read_seller_field("[x](https://example.com/1)"), None);
    assert_eq!(read_seller_field("https://www.tori.fi/li?&aid=1"), None);
}

#[test]
fn seller_choice_round_trip() {
    let v = seller_choice_value(188169, 1);
    assert_eq!(v, "188169,1");
    assert_eq!(parse_seller_choice(&v), Some((188169, 1)));
    assert_eq!(parse_seller_choice("12"), None);
    assert_eq!(parse_seller_choice("a,1"), None);
}

#[test]
fn menu_pages_of_twenty_five() {
    let urls: Vec<String> = (0..30).map(|i| format!("u{i}")).collect();
    let first = menu_page(&urls, 0);
    assert_eq!(first.options.len(), 25);
    assert!(first.previous_disabled);
    assert!(!first.next_disabled);
    assert_eq!((first.previous, first.next), (0, 1));
    let second = menu_page(&urls, 1);
    assert_eq!(second.options, urls[25..].to_vec());
    assert!(second.next_disabled);
    assert_eq!(second.previous, 0);
    assert!(menu_page(&urls, 7).options.is_empty());
}

#[test]
fn page_number_from_button_id() {
    assert_eq!(menu_page_number("remove_vahti_menu_page_3"), Some(3));
    assert_eq!(menu_page_number("remove_vahti_menu_page_x"), None);
    assert_eq!(menu_page_number("block_seller"), None);
}

#[test]
fn unique_keeps_first_occurrences() {
    let v: Vec<String> = ["a", "b", "a", "c", "b"].iter().map(|s| s.to_string()).collect();
    assert_eq!(unique_strings(&v), vec!["a", "b", "c"]);
}

#[test]
fn probe_totals() {
    assert!(search_has_results(Some(3)));
    assert!(!search_has_results(Some(0)));
    assert!(!search_has_results(None));
}
