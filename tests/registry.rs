use wishlist_bot::normalize::{card_to_search_term, normalize, series_to_search_term, to_search_term};
use wishlist_bot::registry::WishlistDB;

#[test]
fn normalize_lowercases_and_truncates() {
    assert_eq!(normalize("HeLLo", 10), "hello");
    assert_eq!(normalize("ABCDEFGH", 3), "abc");
    assert_eq!(normalize("", 4), "");
}

#[test]
fn normalize_is_idempotent_on_examples() {
    for s in ["Some Long Series Name With Capitals", "ÉCOLE", "x", ""] {
        let once = normalize(s, 16);
        assert!(once.chars().count() <= 16);
        assert_eq!(normalize(&once, 16), once);
    }
}

#[test]
fn item_and_series_keys_differ_in_length() {
    let name = "ABCDEFGHIJKLMNOPQRSTUVWXYZ0123456789";
    assert_eq!(card_to_search_term(name), "abcdefghijklmnop");
    assert_eq!(to_search_term(name), "abcdefghijklmnop");
    assert_eq!(series_to_search_term(name), "abcdefghijklmnopqrstuvwxyz012345");
}

#[test]
fn truncation_collides_long_names() {
    let mut db = WishlistDB::new();
    assert_eq!(db.add_all_to_wishlist("u", "S", vec!["a very long card name one"]), 1);
    assert_eq!(db.add_all_to_wishlist("u", "S", vec!["A Very Long Card Name Two"]), 0);
    assert!(db.user_has_card("u", "s", "a very long card name three"));
}

#[test]
fn add_counts_net_new_items() {
    let mut db = WishlistDB::new();
    assert_eq!(db.add_all_to_wishlist("u", "S", vec!["a", "a", "A"]), 1);
    assert_eq!(db.add_all_to_wishlist("u", "S", vec!["a", "b"]), 1);
    assert_eq!(db.get_user_wishlisted_cards_count("u", "S"), 2);
    assert_eq!(db.get_user_wishlisted_cards("u", "s"), vec!["a".to_string(), "b".to_string()]);
}

#[test]
fn add_nothing_creates_no_series() {
    let mut db = WishlistDB::new();
    assert_eq!(db.add_all_to_wishlist("u", "S", vec![]), 0);
    assert!(db.get_user_wishlisted_series("u").is_empty());
}

#[test]
fn remove_last_item_drops_series() {
    let mut db = WishlistDB::new();
    db.add_all_to_wishlist("u", "S", vec!["a"]);
    assert_eq!(db.remove_all_from_wishlist("u", "S", vec!["a"]), (1, 0));
    assert!(!db.get_user_wishlisted_series("u").contains(&"S".to_string()));
}

#[test]
fn remove_counts_only_present_items() {
    let mut db = WishlistDB::new();
    db.add_all_to_wishlist("u", "S", vec!["a", "b", "c"]);
    assert_eq!(db.remove_all_from_wishlist("u", "s", vec!["A", "x"]), (1, 2));
    assert_eq!(db.remove_all_from_wishlist("v", "s", vec!["b"]), (0, 0));
    assert_eq!(db.get_user_wishlisted_series("u"), vec!["S".to_string()]);
}

#[test]
fn remove_series_returns_item_count() {
    let mut db = WishlistDB::new();
    db.add_all_to_wishlist("u", "S", vec!["a", "b"]);
    db.add_all_to_wishlist("u", "T", vec!["c"]);
    assert_eq!(db.remove_series_from_wishlist("u", "s"), 2);
    assert_eq!(db.remove_series_from_wishlist("u", "s"), 0);
    assert_eq!(db.get_user_wishlisted_series("u"), vec!["T".to_string()]);
    assert_eq!(db.get_user_wishlisted_cards_count("u", "S"), 0);
}

#[test]
fn users_are_kept_apart() {
    let mut db = WishlistDB::new();
    db.add_all_to_wishlist("u", "S", vec!["a"]);
    db.add_all_to_wishlist("v", "S", vec!["b"]);
    assert!(db.user_has_card("u", "S", "A"));
    assert!(!db.user_has_card("u", "S", "b"));
    assert!(db.user_has_card("v", "S", "b"));
}

#[test]
fn match_users_omits_unmatched_keys() {
    let mut db = WishlistDB::new();
    db.add_all_to_wishlist("u1", "Series", vec!["Card"]);
    db.add_all_to_wishlist("u2", "Series", vec!["card", "other"]);
    let r = db.get_users_with_series_card(vec![("series", "nobody"), ("SERIES", "CARD")]);
    assert_eq!(r.len(), 1);
    assert_eq!(r[0].0, ("SERIES", "CARD"));
    assert_eq!(r[0].1, vec!["u1".to_string(), "u2".to_string()]);
}

#[test]
fn match_users_by_series_with_counts() {
    let mut db = WishlistDB::new();
    db.add_all_to_wishlist("u1", "S", vec!["a", "b"]);
    db.add_all_to_wishlist("u2", "S", vec!["c"]);
    db.add_all_to_wishlist("u2", "T", vec!["d"]);
    let names = vec!["x", "s"];
    let r = db.get_users_with_series(&names);
    assert_eq!(r.len(), 1);
    assert_eq!(r[0].0, "s");
    assert_eq!(r[0].1, vec![("u1".to_string(), 2), ("u2".to_string(), 1)]);
}

#[test]
fn wishlisted_users_for_one_pair() {
    let mut db = WishlistDB::new();
    db.add_all_to_wishlist("u1", "S", vec!["a"]);
    db.add_all_to_wishlist("u2", "s", vec!["A", "b"]);
    db.add_all_to_wishlist("u3", "T", vec!["a"]);
    assert_eq!(db.get_wishlisted_users("S", "a"), vec!["u1".to_string(), "u2".to_string()]);
    assert!(db.get_wishlisted_users("S", "c").is_empty());
}
