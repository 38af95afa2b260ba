use wishlist_bot::extract::{
    parse_card_from_drop, parse_card_from_series_lookup, parse_series_card_from_analysis,
    parse_series_cards, parse_series_from_analysis, parse_series_from_embed_description,
    parse_series_from_give_command,
};

#[test]
fn drop_line_four_fields() {
    assert_eq!(parse_card_from_drop("A • A • **card** • series"), Some(("series", "card")));
}

#[test]
fn drop_line_extra_field_rejected() {
    assert_eq!(parse_card_from_drop("A • A • A • A • **card** • series"), None);
}

#[test]
fn drop_line_needs_bold_item() {
    assert_eq!(parse_card_from_drop("A • A • card • series"), None);
    assert_eq!(parse_card_from_drop("A • A • **** • series"), None);
}

#[test]
fn drop_line_empty_leading_field_rejected() {
    assert_eq!(parse_card_from_drop(" • A • **card** • series"), Some(("series", "card")));
    assert_eq!(parse_card_from_drop("• A • **card** • series"), None);
}

#[test]
fn analysis_series_three_fields_only() {
    assert_eq!(parse_series_from_analysis("A • A • series"), Some("series"));
    assert_eq!(parse_series_from_analysis("A • A • A • A"), None);
}

#[test]
fn analysis_series_rejects_bold_and_code() {
    assert_eq!(parse_series_from_analysis("A • A • **series**"), None);
    assert_eq!(parse_series_from_analysis("A • A • `series`"), None);
    assert_eq!(parse_series_from_analysis("A • A •series"), None);
}

#[test]
fn analysis_item_line_trims_both_fields() {
    assert_eq!(
        parse_series_card_from_analysis("x • y • z • w • **\tItem One ** • \t Series Two "),
        Some(("Series Two", "Item One"))
    );
}

#[test]
fn lookup_marker_is_trimmed_before_comparing() {
    assert_eq!(parse_card_from_series_lookup("A • A •  ☑️  • A • A • **card**"), Some((true, "card")));
    assert_eq!(parse_card_from_series_lookup("A • A • x • A • A • **card**"), Some((false, "card")));
}

#[test]
fn embed_description_needs_whole_line() {
    assert_eq!(parse_series_from_embed_description("Name: **series** more"), None);
    assert_eq!(parse_series_from_embed_description("Name:\t**series**"), Some("series"));
}

#[test]
fn give_description_two_lines() {
    assert_eq!(
        parse_series_from_give_command("Name: **card**\nSeries: **series**"),
        Some(("series", "card"))
    );
    assert_eq!(parse_series_from_give_command("Name: **card** Series: **series**"), None);
}

#[test]
fn give_description_later_lines_ignored() {
    assert_eq!(
        parse_series_from_give_command("Name: ** my card **\nSeries: **my series**\nPrint: 12"),
        Some(("my series", "my card"))
    );
}

#[test]
fn wishlist_command_items_in_order() {
    assert_eq!(parse_series_cards("series || a, b, c"), Some(("series", vec!["a", "b", "c"])));
    assert_eq!(parse_series_cards("series ||"), None);
}

#[test]
fn wishlist_command_keeps_duplicates() {
    assert_eq!(parse_series_cards("  S||a , a,A  "), Some(("S", vec!["a", "a", "A"])));
}

#[test]
fn wishlist_command_splits_at_last_separator() {
    assert_eq!(parse_series_cards("a || b || c"), Some(("a || b", vec!["c"])));
}

#[test]
fn wishlist_command_needs_a_series() {
    assert_eq!(parse_series_cards("|| card"), None);
}
