//! The text of listing notifications.

use vstd::prelude::*;
use crate::command::seller_base;
use crate::text::{chars_of, push_signed_decimal, push_str, signed_decimal, string_from_chars};
use crate::vahti::{VahtiItem, HUUTONET_ID, TORI_ID};

verus! {

/// The accent colour of a listing's notification card.
#[derive(Clone, Copy, Debug, PartialEq, Eq, Structural)]
pub enum CardColor {
    DarkGreen,
    BlitzBlue,
    FadedPurple,
    Blue,
}

/// tori.fi listings are coloured by kind (for sale, given away, other);
/// huuto.net listings are blue.
pub open spec fn card_color_of(site_id: i32, ad_type: Seq<char>) -> CardColor {
    if site_id == TORI_ID {
        if ad_type == "Myydään"@ {
            CardColor::DarkGreen
        } else if ad_type == "Annetaan"@ {
            CardColor::BlitzBlue
        } else {
            CardColor::FadedPurple
        }
    } else if site_id == HUUTONET_ID {
        CardColor::Blue
    } else {
        CardColor::FadedPurple
    }
}

/// The accent colour of the notification card of `item`.
pub fn card_color(item: &VahtiItem) -> (r: CardColor)
    ensures
        r == card_color_of(item.site_id, item.ad_type@),
{
    let t = chars_of(item.ad_type.as_str());
    if item.site_id == TORI_ID {
        if crate::text::eq_str(&t, "Myydään") {
            CardColor::DarkGreen
        } else if crate::text::eq_str(&t, "Annetaan") {
            CardColor::BlitzBlue
        } else {
            CardColor::FadedPurple
        }
    } else if item.site_id == HUUTONET_ID {
        CardColor::Blue
    } else {
        CardColor::FadedPurple
    }
}

pub open spec fn seller_link_of(site_id: i32, seller_id: i32) -> Seq<char> {
    match seller_base(site_id) {
        Some(b) => b + signed_decimal(seller_id as int),
        None => Seq::empty(),
    }
}

pub open spec fn search_link_of(item: VahtiItem) -> Seq<char> {
    match item.vahti_url {
        Some(u) => u@,
        None => Seq::empty(),
    }
}

/// The HTML caption of a listing's Telegram notification, with
/// `published` the listing's publication time as it is to be shown.
pub open spec fn telegram_text(item: VahtiItem, published: Seq<char>) -> Seq<char> {
    "<a href=\""@ + item.url@ + "\">"@ + item.title@ + "</a>\n"@
    + "<b>Hinta</b>: "@ + signed_decimal(item.price as int) + "€\n"@
    + "<b>Myyjä</b>: <a href=\""@ + seller_link_of(item.site_id, item.seller_id) + "\">"@ + item.seller_name@ + "</a>\n"@
    + "<b>Sijainti</b>: "@ + item.location@ + "\n"@
    + "<b>Ilmoitus jätetty</b>: "@ + published + "\n"@
    + "<b>Ilmoitustyyppi</b>: "@ + item.ad_type@ + "\n"@
    + "<a href=\""@ + search_link_of(item) + "\">Avaa Hakusivu</a>"@
}

/// The HTML caption of a listing's Telegram notification.
pub fn format_telegram(item: &VahtiItem, published: &str) -> (r: String)
    ensures
        r@ == telegram_text(*item, published@),
{
    let mut m: Vec<char> = Vec::new();
    push_str(&mut m, "<a href=\"");
    push_str(&mut m, item.url.as_str());
    push_str(&mut m, "\">");
    push_str(&mut m, item.title.as_str());
    push_str(&mut m, "</a>\n");
    let ghost a = m@;
    push_str(&mut m, "<b>Hinta</b>: ");
    push_signed_decimal(&mut m, item.price);
    push_str(&mut m, "€\n");
    let ghost b = m@;
    push_str(&mut m, "<b>Myyjä</b>: <a href=\"");
    match crate::command::seller_url(item.site_id, item.seller_id) {
        Some(u) => push_str(&mut m, u.as_str()),
        None => {},
    }
    push_str(&mut m, "\">");
    push_str(&mut m, item.seller_name.as_str());
    push_str(&mut m, "</a>\n");
    let ghost c = m@;
    push_str(&mut m, "<b>Sijainti</b>: ");
    push_str(&mut m, item.location.as_str());
    push_str(&mut m, "\n");
    push_str(&mut m, "<b>Ilmoitus jätetty</b>: ");
    push_str(&mut m, published);
    push_str(&mut m, "\n");
    let ghost d = m@;
    push_str(&mut m, "<b>Ilmoitustyyppi</b>: ");
    push_str(&mut m, item.ad_type.as_str());
    push_str(&mut m, "\n");
    push_str(&mut m, "<a href=\"");
    match &item.vahti_url {
        Some(u) => push_str(&mut m, u.as_str()),
        None => {},
    }
    push_str(&mut m, "\">Avaa Hakusivu</a>");
    assert(a =~= "<a href=\""@ + item.url@ + "\">"@ + item.title@ + "</a>\n"@);
    assert(b =~= a + "<b>Hinta</b>: "@ + signed_decimal(item.price as int) + "€\n"@);
    assert(c =~= b + "<b>Myyjä</b>: <a href=\""@ + seller_link_of(item.site_id, item.seller_id) + "\">"@
        + item.seller_name@ + "</a>\n"@);
    assert(d =~= c + "<b>Sijainti</b>: "@ + item.location@ + "\n"@ + "<b>Ilmoitus jätetty</b>: "@ + published@
        + "\n"@);
    assert(m@ =~= d + "<b>Ilmoitustyyppi</b>: "@ + item.ad_type@ + "\n"@ + "<a href=\""@ + search_link_of(*item)
        + "\">Avaa Hakusivu</a>"@);
    assert(m@ =~= telegram_text(*item, published@));
    string_from_chars(&m)
}

} // verus!
