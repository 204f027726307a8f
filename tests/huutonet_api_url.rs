use torimies::huutonet::vahti_to_api;

const API_BASE: &str = "https://api.huuto.net/1.1/items?";

#[test]
fn no_keyword() {
    let url = "https://www.huuto.net/haku?words=&area=";
    let expected = API_BASE.to_owned() + "words=&area=&sort=newest";
    assert_eq!(vahti_to_api(url), expected);
}

#[test]
fn basic_query() {
    let url = "https://www.huuto.net/haku?words=thinkpad&area=";
    let expected = API_BASE.to_owned() + "words=thinkpad&area=&sort=newest";
    assert_eq!(vahti_to_api(url), expected);
}

#[test]
fn slash_query() {
    let url = "https://www.huuto.net/haku/words/thinkpad";
    let expected = API_BASE.to_owned() + "words=thinkpad&sort=newest";
    assert_eq!(vahti_to_api(url), expected);
}

#[test]
fn query_with_non_ascii() {
    let url = "https://www.huuto.net/haku?words=th%C3%B6nkp%C3%A4d";
    let slash_url = "https://www.huuto.net/haku/words/th%C3%B6nkp%C3%A4d";
    let expected = API_BASE.to_owned() + "words=th%C3%B6nkp%C3%A4d&sort=newest";

    assert_eq!(vahti_to_api(url), expected);
    assert_eq!(vahti_to_api(slash_url), expected);
}

#[test]
fn multiquery1() {
    let url = "https://www.huuto.net/haku?words=thinkpad&classification=new&area=uusimaa";
    let slash_url = "https://www.huuto.net/haku/words/thinkpad/classification/new/area/uusimaa";
    let expected =
        API_BASE.to_owned() + "words=thinkpad&classification=new&area=uusimaa&sort=newest";

    assert_eq!(vahti_to_api(url), expected);
    assert_eq!(vahti_to_api(slash_url), expected);
}

#[test]
fn multiquery2() {
    let url = "https://www.huuto.net/haku?sort=lowprice&category=502";
    let slash_url = "https://www.huuto.net/haku/sort/lowprice/category/502";
    let expected = API_BASE.to_owned() + "sort=lowprice&category=502&sort=newest";

    assert_eq!(vahti_to_api(url), expected);
    assert_eq!(vahti_to_api(slash_url), expected);
}

#[test]
fn slash_query_with_odd_segment_drops_it() {
    let url = "https://www.huuto.net/haku/words/thinkpad/area";
    assert_eq!(vahti_to_api(url), API_BASE.to_owned() + "words=thinkpad&sort=newest");
}

#[test]
fn bare_search_page_has_no_arguments() {
    assert_eq!(vahti_to_api("https://www.huuto.net/haku"), API_BASE.to_owned() + "&sort=newest");
}
