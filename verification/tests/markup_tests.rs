use logust::color::{colorize_text, cyan_text, dim_text, Color, RESET};
use logust::markup::{apply_color_markup, tag_to_ansi};

#[test]
fn plain_text_stays_as_it_is() {
    assert_eq!(apply_color_markup("plain"), "plain");
    assert_eq!(apply_color_markup(""), "");
    assert_eq!(apply_color_markup("a > b"), "a > b");
    assert_eq!(apply_color_markup("caf\u{e9} \u{1f600}"), "caf\u{e9} \u{1f600}");
}

#[test]
fn nested_tags_reopen_what_stays_open() {
    assert_eq!(
        apply_color_markup("<bold><green>x</green></bold>"),
        "\x1b[1m\x1b[32mx\x1b[0m\x1b[1m\x1b[0m"
    );
    assert_eq!(
        apply_color_markup("<red><b><u>x</u>y</b>z</red>"),
        "\x1b[31m\x1b[1m\x1b[4mx\x1b[0m\x1b[31m\x1b[1my\x1b[0m\x1b[31mz\x1b[0m"
    );
}

#[test]
fn a_single_tag_is_closed_by_a_reset() {
    assert_eq!(apply_color_markup("<red>error</red>"), "\x1b[31merror\x1b[0m");
    assert_eq!(apply_color_markup("a<blue>b</blue>c"), "a\x1b[34mb\x1b[0mc");
}

#[test]
fn an_open_style_is_reset_at_the_end() {
    assert_eq!(apply_color_markup("<red>error"), "\x1b[31merror\x1b[0m");
    assert_eq!(apply_color_markup("<red><bold>x</bold>"), "\x1b[31m\x1b[1mx\x1b[0m\x1b[31m\x1b[0m");
}

#[test]
fn a_closing_tag_closes_the_innermost_style_whatever_its_name() {
    assert_eq!(apply_color_markup("<red>x</blue>"), "\x1b[31mx\x1b[0m");
    assert_eq!(apply_color_markup("<red><bold>x</red>y"), "\x1b[31m\x1b[1mx\x1b[0m\x1b[31my\x1b[0m");
}

#[test]
fn tags_that_are_none_stay_as_they_are() {
    assert_eq!(apply_color_markup("<invalid>text</invalid>"), "<invalid>text</invalid>");
    assert_eq!(apply_color_markup("</red>"), "</red>");
    assert_eq!(apply_color_markup("x</bold>y"), "x</bold>y");
    assert_eq!(apply_color_markup("<>"), "<>");
    assert_eq!(apply_color_markup("</>"), "</>");
    assert_eq!(apply_color_markup("<red>a</nothing>b"), "\x1b[31ma</nothing>b\x1b[0m");
    assert_eq!(apply_color_markup("1 < 2 > 0"), "1 < 2 > 0");
}

#[test]
fn a_tag_that_is_not_closed_stays_as_it_is() {
    assert_eq!(apply_color_markup("a <red"), "a <red");
    assert_eq!(apply_color_markup("a </red"), "a </red");
    assert_eq!(apply_color_markup("<"), "<");
    assert_eq!(apply_color_markup("</"), "</");
    assert_eq!(apply_color_markup("<red>x<"), "\x1b[31mx<\x1b[0m");
    assert_eq!(apply_color_markup("<red>x</re"), "\x1b[31mx</re\x1b[0m");
}

#[test]
fn tag_names_in_any_case() {
    assert_eq!(apply_color_markup("<RED>x</Red>"), "\x1b[31mx\x1b[0m");
    assert_eq!(tag_to_ansi("BOLD"), Some("\x1b[1m"));
    assert_eq!(tag_to_ansi("Light-Blue"), Some("\x1b[94m"));
}

#[test]
fn every_tag_has_its_code() {
    assert_eq!(tag_to_ansi("red"), Some("\x1b[31m"));
    assert_eq!(tag_to_ansi("green"), Some("\x1b[32m"));
    assert_eq!(tag_to_ansi("yellow"), Some("\x1b[33m"));
    assert_eq!(tag_to_ansi("blue"), Some("\x1b[34m"));
    assert_eq!(tag_to_ansi("magenta"), Some("\x1b[35m"));
    assert_eq!(tag_to_ansi("cyan"), Some("\x1b[36m"));
    assert_eq!(tag_to_ansi("white"), Some("\x1b[37m"));
    assert_eq!(tag_to_ansi("black"), Some("\x1b[30m"));
    assert_eq!(tag_to_ansi("bright_red"), Some("\x1b[91m"));
    assert_eq!(tag_to_ansi("light-red"), Some("\x1b[91m"));
    assert_eq!(tag_to_ansi("bright_green"), Some("\x1b[92m"));
    assert_eq!(tag_to_ansi("light-green"), Some("\x1b[92m"));
    assert_eq!(tag_to_ansi("bright_yellow"), Some("\x1b[93m"));
    assert_eq!(tag_to_ansi("light-yellow"), Some("\x1b[93m"));
    assert_eq!(tag_to_ansi("bright_blue"), Some("\x1b[94m"));
    assert_eq!(tag_to_ansi("light-blue"), Some("\x1b[94m"));
    assert_eq!(tag_to_ansi("bright_magenta"), Some("\x1b[95m"));
    assert_eq!(tag_to_ansi("light-magenta"), Some("\x1b[95m"));
    assert_eq!(tag_to_ansi("bright_cyan"), Some("\x1b[96m"));
    assert_eq!(tag_to_ansi("light-cyan"), Some("\x1b[96m"));
    assert_eq!(tag_to_ansi("bright_white"), Some("\x1b[97m"));
    assert_eq!(tag_to_ansi("light-white"), Some("\x1b[97m"));
    assert_eq!(tag_to_ansi("bold"), Some("\x1b[1m"));
    assert_eq!(tag_to_ansi("b"), Some("\x1b[1m"));
    assert_eq!(tag_to_ansi("dim"), Some("\x1b[2m"));
    assert_eq!(tag_to_ansi("italic"), Some("\x1b[3m"));
    assert_eq!(tag_to_ansi("i"), Some("\x1b[3m"));
    assert_eq!(tag_to_ansi("underline"), Some("\x1b[4m"));
    assert_eq!(tag_to_ansi("u"), Some("\x1b[4m"));
    assert_eq!(tag_to_ansi("strike"), Some("\x1b[9m"));
    assert_eq!(tag_to_ansi("s"), Some("\x1b[9m"));
    assert_eq!(tag_to_ansi("bright_black"), None);
    assert_eq!(tag_to_ansi("light_red"), None);
    assert_eq!(tag_to_ansi(""), None);
    assert_eq!(tag_to_ansi(" red"), None);
}

#[test]
fn texts_are_painted_with_escape_sequences() {
    assert_eq!(colorize_text("x", Color::Red, false), "\x1b[31mx\x1b[0m");
    assert_eq!(colorize_text("x", Color::Red, true), "\x1b[1;31mx\x1b[0m");
    assert_eq!(colorize_text("", Color::BrightWhite, true), "\x1b[1;97m\x1b[0m");
    assert_eq!(dim_text("x"), "\x1b[2mx\x1b[0m");
    assert_eq!(cyan_text("x"), "\x1b[36mx\x1b[0m");
    assert_eq!(RESET, "\x1b[0m");
}

#[test]
fn the_palette() {
    let codes = [
        (Color::Black, "30"),
        (Color::Red, "31"),
        (Color::Green, "32"),
        (Color::Yellow, "33"),
        (Color::Blue, "34"),
        (Color::Magenta, "35"),
        (Color::Cyan, "36"),
        (Color::White, "37"),
        (Color::BrightBlack, "90"),
        (Color::BrightRed, "91"),
        (Color::BrightGreen, "92"),
        (Color::BrightYellow, "93"),
        (Color::BrightBlue, "94"),
        (Color::BrightMagenta, "95"),
        (Color::BrightCyan, "96"),
        (Color::BrightWhite, "97"),
    ];
    for (color, code) in codes {
        assert_eq!(color.ansi_code(), code);
    }
}
