use wishlist_bot::logger::{format_with_priority, Priority, StdoutLogger};
use wishlist_bot::text_util::{bold, colored, colored_background, colored_foreground, Color};

#[test]
fn color_codes() {
    assert_eq!(Color::Black.foreground_code(), 30);
    assert_eq!(Color::Black.background_code(), 40);
    assert_eq!(Color::BrightWhite.foreground_code(), 97);
    assert_eq!(Color::BrightWhite.background_code(), 107);
}

#[test]
fn bold_wraps_text() {
    assert_eq!(bold("x"), "\x1B[1mx\x1B[22m");
}

#[test]
fn colored_variants() {
    assert_eq!(colored("t", None, None), "t");
    assert_eq!(colored_background("t", Color::Red), "\x1B[41mt\x1B[0m");
    assert_eq!(colored_foreground("t", Color::BrightCyan), "\x1B[96mt\x1B[0m");
    assert_eq!(colored("t", Some(Color::Blue), Some(Color::Yellow)), "\x1B[33;44mt\x1B[0m");
}

#[test]
fn priority_formats() {
    assert_eq!(format_with_priority(Priority::Info, "m"), "\x1B[1mINFO:\x1B[22m m");
    assert_eq!(
        format_with_priority(Priority::Warning, "m"),
        "\x1B[1m\x1B[33mWARNING:\x1B[0m\x1B[22m \x1B[33mm\x1B[0m"
    );
    assert_eq!(
        format_with_priority(Priority::Error, "m"),
        "\x1B[1m\x1B[31mERROR:\x1B[0m\x1B[22m \x1B[31mm\x1B[0m"
    );
}

#[test]
fn stdout_line_has_date_first() {
    assert_eq!(StdoutLogger.line("01-01-2024 00:00:00", Priority::Info, "m"), "01-01-2024 00:00:00 \x1B[1mINFO:\x1B[22m m");
}
