use wishlist_bot::extract::{
    is_series_analysis, parse_card_from_series_lookup, parse_series_card_from_analysis,
    parse_series_cards, parse_series_from_analysis, parse_series_from_embed_description,
    parse_series_from_give_command,
};

// analysis lines that name an item

#[test]
fn empty_string() {
    assert_eq!(parse_series_card_from_analysis(""), None);
}

#[test]
fn unrelated_string() {
    assert_eq!(parse_series_card_from_analysis("Nothing"), None);
}

#[test]
fn less_separators() {
    assert_eq!(parse_series_card_from_analysis("A • A • A •"), None);
}

#[test]
fn too_many_separators() {
    assert_eq!(parse_series_card_from_analysis("A • A • A • A • A • A"), None);
}

#[test]
fn no_card_name() {
    assert_eq!(parse_series_card_from_analysis("A • A • A •• A"), None);
}

#[test]
fn no_series_name() {
    assert_eq!(parse_series_card_from_analysis("A • A • A • A •"), None);
}

#[test]
fn too_many_separators_with_drop() {
    assert_eq!(parse_series_card_from_analysis("A • A • A • A • A • **card** • series"), None);
}

#[test]
fn simple_drop() {
    assert_eq!(
        parse_series_card_from_analysis("A • A • A • A • **card** • series"),
        Some(("series", "card"))
    );
}

#[test]
fn big_drop() {
    assert_eq!(
        parse_series_card_from_analysis("A • A • A • A • **a big card** • a large series"),
        Some(("a large series", "a big card"))
    );
}

#[test]
fn drop_with_padding() {
    assert_eq!(
        parse_series_card_from_analysis("A • A • A • A • **  spaced card  ** •   spaced series   "),
        Some(("spaced series", "spaced card"))
    );
}

// analysis lines that name a series only

#[test]
fn parse_util_empty_string() {
    assert_eq!(parse_series_from_analysis(""), None);
}

#[test]
fn parse_util_unrelated_string() {
    assert_eq!(parse_series_from_analysis("Nothing"), None);
}

#[test]
fn parse_util_less_separators() {
    assert_eq!(parse_series_from_analysis("A • A"), None);
}

#[test]
fn parse_util_too_many_separators() {
    assert_eq!(parse_series_from_analysis("A • A • A • A"), None);
}

#[test]
fn parse_util_no_series_name() {
    assert_eq!(parse_series_from_analysis("A • A •"), None);
}

#[test]
fn one_word_series() {
    assert_eq!(parse_series_from_analysis("A • A • series"), Some("series"));
}

#[test]
fn multiple_word_series() {
    assert_eq!(parse_series_from_analysis("A • A • a big series"), Some("a big series"));
}

#[test]
fn series_with_padding() {
    assert_eq!(parse_series_from_analysis("A • A •    spaced series   "), Some("spaced series"));
}

// recognising series-only analysis lines

#[test]
fn is_series_analysis_empty_string() {
    assert_eq!(is_series_analysis(""), false);
}

#[test]
fn is_series_analysis_unrelated_string() {
    assert_eq!(is_series_analysis("Nothing"), false);
}

#[test]
fn is_series_analysis_less_separators() {
    assert_eq!(is_series_analysis("A • A"), false);
}

#[test]
fn is_series_analysis_too_many_separators() {
    assert_eq!(is_series_analysis("A • A • A • A"), false);
}

#[test]
fn is_series_analysis_no_series_name() {
    assert_eq!(is_series_analysis("A • A •"), false);
}

#[test]
fn parse_util_one_word_series() {
    assert!(is_series_analysis("A • A • series"));
}

#[test]
fn parse_util_multiple_word_series() {
    assert!(is_series_analysis("A • A • a big series"));
}

#[test]
fn parse_util_series_with_padding() {
    assert!(is_series_analysis("A • A •    spaced series   "));
}

// series lookup lines

#[test]
fn series_lookup_empty_string() {
    assert_eq!(parse_card_from_series_lookup(""), None);
}

#[test]
fn series_lookup_unrelated_string() {
    assert_eq!(parse_card_from_series_lookup("Nothing"), None);
}

#[test]
fn too_few_separators() {
    assert_eq!(parse_card_from_series_lookup("A • A • ☑️ • A • **card**"), None);
}

#[test]
fn series_lookup_too_many_separators() {
    assert_eq!(parse_card_from_series_lookup("A • A • ☑️ • A • A • **card** • A"), None);
}

#[test]
fn lookup_has_card() {
    assert_eq!(parse_card_from_series_lookup("A • A • ☑️ • A • A • **card**"), Some((true, "card")));
}

#[test]
fn lookup_not_has_card() {
    assert_eq!(parse_card_from_series_lookup("A • A • ` ` • A • A • **card**"), Some((false, "card")));
}

#[test]
fn lookup_not_has_card_big() {
    assert_eq!(
        parse_card_from_series_lookup("A • A • ` ` • A • A • **a big card**"),
        Some((false, "a big card"))
    );
}

#[test]
fn lookup_not_has_card_spaced() {
    assert_eq!(
        parse_card_from_series_lookup("A • A • ` ` • A • A • **   a spaced card   **"),
        Some((false, "a spaced card"))
    );
}

// embed descriptions

#[test]
fn embed_description_empty_string() {
    assert_eq!(parse_series_from_embed_description(""), None);
}

#[test]
fn embed_description_unrelated_string() {
    assert_eq!(parse_series_from_embed_description("Nothing"), None);
}

#[test]
fn no_series() {
    assert_eq!(parse_series_from_embed_description("Name: ****"), None);
}

#[test]
fn simple_series() {
    assert_eq!(parse_series_from_embed_description("Name: **series**"), Some("series"));
}

#[test]
fn big_series() {
    assert_eq!(parse_series_from_embed_description("Name: **a big series**"), Some("a big series"));
}

#[test]
fn spaced_series() {
    assert_eq!(
        parse_series_from_embed_description("Name: **   spaced series   **"),
        Some("spaced series")
    );
}

// wishlist commands

#[test]
fn series_cards_empty_string() {
    assert_eq!(parse_series_cards(""), None);
}

#[test]
fn series_cards_unrelated_string() {
    assert_eq!(parse_series_cards("Nothing"), None);
}

#[test]
fn only_pipe() {
    assert_eq!(parse_series_cards("||"), None);
}

#[test]
fn only_series() {
    assert_eq!(parse_series_cards("series || "), None);
}

#[test]
fn one_card() {
    assert_eq!(parse_series_cards("series || card_1"), Some(("series", vec!["card_1"])));
}

#[test]
fn one_card_no_spaces() {
    assert_eq!(parse_series_cards("series||card_1"), Some(("series", vec!["card_1"])));
}

#[test]
fn one_big_card() {
    assert_eq!(parse_series_cards("series || a big card"), Some(("series", vec!["a big card"])));
}

#[test]
fn one_spaced_card() {
    assert_eq!(parse_series_cards("series ||    spaced card   "), Some(("series", vec!["spaced card"])));
}

#[test]
fn multiple_cards() {
    assert_eq!(
        parse_series_cards("series || card_1, card_2, card_3"),
        Some(("series", vec!["card_1", "card_2", "card_3"]))
    );
}

#[test]
fn multiple_cards_no_spaces() {
    assert_eq!(
        parse_series_cards("series||card_1,card_2,card_3"),
        Some(("series", vec!["card_1", "card_2", "card_3"]))
    );
}

// give descriptions

#[test]
fn give_command_empty_string() {
    assert_eq!(parse_series_from_give_command(""), None);
}

#[test]
fn give_command_unrelated_string() {
    assert_eq!(parse_series_from_give_command("Nothing"), None);
}

#[test]
fn simple_give_one_line() {
    assert_eq!(parse_series_from_give_command("Name: **card** Series: **series**"), None);
}

#[test]
fn simple_give() {
    assert_eq!(
        parse_series_from_give_command("Name: **card**\nSeries: **series**"),
        Some(("series", "card"))
    );
}
