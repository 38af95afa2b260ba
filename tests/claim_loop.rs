use wishlist_bot::claim::{marker, reaction_index, ClaimAction, ClaimSession};
use wishlist_bot::registry::WishlistDB;

fn session() -> ClaimSession {
    ClaimSession::new(vec![
        ("S".to_string(), "a".to_string(), vec!["u1".to_string()]),
        ("T".to_string(), "b".to_string(), vec!["u2".to_string()]),
    ])
}

#[test]
fn claim_ignores_non_candidates_and_repeats() {
    let mut db = WishlistDB::new();
    db.add_all_to_wishlist("u1", "S", vec!["a", "c"]);
    db.add_all_to_wishlist("u2", "T", vec!["b"]);
    let mut s = session();
    assert_eq!(s.marker_count(), 2);

    assert_eq!(s.claim(&mut db, 0, "u2"), None);
    assert_eq!(db.get_user_wishlisted_cards_count("u1", "S"), 2);
    assert_eq!(db.get_user_wishlisted_cards_count("u2", "T"), 1);

    assert_eq!(s.claim(&mut db, 0, "u1"), Some((0, 1)));
    assert_eq!(db.get_user_wishlisted_cards("u1", "S"), vec!["c".to_string()]);

    assert_eq!(s.claim(&mut db, 0, "u1"), None);
    assert_eq!(db.get_user_wishlisted_cards("u1", "S"), vec!["c".to_string()]);
}

#[test]
fn claim_marker_without_pair_is_ignored() {
    let mut db = WishlistDB::new();
    let mut s = session();
    assert_eq!(s.claim(&mut db, 2, "u1"), None);
    assert!(matches!(s.on_reaction(2, "u1"), ClaimAction::Ignore));
}

#[test]
fn claim_decision_names_the_removal() {
    let mut s = session();
    match s.on_reaction(1, "u2") {
        ClaimAction::Remove { target, user, series, item } => {
            assert_eq!((target, user.as_str(), series.as_str(), item.as_str()), (1, "u2", "T", "b"));
        }
        ClaimAction::Ignore => panic!("expected a removal"),
    }
    assert!(matches!(s.on_reaction(1, "u2"), ClaimAction::Ignore));
    assert_eq!(s.record_removal(1, 1), 1);
    assert_eq!(s.record_removal(1, 0), 1);
}

#[test]
fn claim_running_total_counts_each_user() {
    let mut db = WishlistDB::new();
    db.add_all_to_wishlist("u1", "S", vec!["a"]);
    db.add_all_to_wishlist("u3", "S", vec!["a"]);
    let mut s = ClaimSession::new(vec![(
        "S".to_string(),
        "a".to_string(),
        vec!["u1".to_string(), "u3".to_string()],
    )]);
    assert_eq!(s.claim(&mut db, 0, "u1"), Some((0, 1)));
    assert_eq!(s.claim(&mut db, 0, "u3"), Some((0, 2)));
    assert!(db.get_user_wishlisted_series("u1").is_empty());
}

#[test]
fn markers_at_most_three() {
    let pings = (0..5)
        .map(|i| (format!("S{i}"), "a".to_string(), vec!["u".to_string()]))
        .collect();
    let mut s = ClaimSession::new(pings);
    assert_eq!(s.marker_count(), 3);
    assert!(matches!(s.on_reaction(3, "u"), ClaimAction::Ignore));
}

#[test]
fn marker_round_trip() {
    for i in 0..3 {
        assert_eq!(reaction_index(marker(i)), Some(i));
    }
    assert_eq!(marker(0), "1️⃣");
    assert_eq!(reaction_index("👍"), None);
}
