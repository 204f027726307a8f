use torimies::render::{card_color, format_telegram, CardColor};
use torimies::vahti::VahtiItem;

fn item(site_id: i32, ad_type: &str) -> VahtiItem {
    VahtiItem {
        deliver_to: Some(1),
        delivery_method: Some(2),
        site_id,
        title: "Lamppu".to_string(),
        vahti_url: Some("https://www.tori.fi/li?q=lamppu".to_string()),
        url: "https://www.tori.fi/vi/1.htm".to_string(),
        img_url: String::new(),
        published: 0,
        price: 15,
        seller_name: "Myyjä".to_string(),
        seller_id: 42,
        location: "Helsinki".to_string(),
        ad_type: ad_type.to_string(),
        ad_id: 1,
    }
}

#[test]
fn telegram_caption() {
    let text = format_telegram(&item(1, "Myydään"), "01/01/1970 02:00");
    assert_eq!(
        text,
        "<a href=\"https://www.tori.fi/vi/1.htm\">Lamppu</a>\n\
         <b>Hinta</b>: 15€\n\
         <b>Myyjä</b>: <a href=\"https://www.tori.fi/li?&aid=42\">Myyjä</a>\n\
         <b>Sijainti</b>: Helsinki\n\
         <b>Ilmoitus jätetty</b>: 01/01/1970 02:00\n\
         <b>Ilmoitustyyppi</b>: Myydään\n\
         <a href=\"https://www.tori.fi/li?q=lamppu\">Avaa Hakusivu</a>"
    );
}

#[test]
fn card_colors() {
    assert_eq!(card_color(&item(1, "Myydään")), CardColor::DarkGreen);
    assert_eq!(card_color(&item(1, "Annetaan")), CardColor::BlitzBlue);
    assert_eq!(card_color(&item(1, "Ostetaan")), CardColor::FadedPurple);
    assert_eq!(card_color(&item(2, "auction")), CardColor::Blue);
}
