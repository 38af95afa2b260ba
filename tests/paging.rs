use wishlist_bot::paging::{page_count, turn_page, PageTurn};

#[test]
fn next_wraps_to_first() {
    assert_eq!(turn_page(0, 3, PageTurn::Next), 1);
    assert_eq!(turn_page(2, 3, PageTurn::Next), 0);
    assert_eq!(turn_page(0, 1, PageTurn::Next), 0);
}

#[test]
fn previous_wraps_to_last() {
    assert_eq!(turn_page(2, 3, PageTurn::Previous), 1);
    assert_eq!(turn_page(0, 3, PageTurn::Previous), 2);
}

#[test]
fn pages_round_up() {
    assert_eq!(page_count(0, 10), 0);
    assert_eq!(page_count(10, 10), 1);
    assert_eq!(page_count(11, 10), 2);
    assert_eq!(page_count(usize::MAX, 10), usize::MAX / 10 + 1);
}
