use treescan::paint::color_string;
use treescan::paint::highlight;
use treescan::paint::render_collision;
use treescan::paint::render_match;
use treescan::paint::render_move;
use treescan::paint::END;
use treescan::paint::GREEN;
use treescan::paint::PURPLE;
use treescan::paint::RED;
use treescan::paint::YELLOW;
use treescan::pattern::Pattern;

#[test]
fn color_string_wraps_message_in_color_and_reset() {
    assert_eq!(color_string(PURPLE, "dir/.venv"), "\u{001b}[95mdir/.venv\u{001b}[0m");
    assert_eq!(color_string(GREEN, ""), format!("{}{}", GREEN, END));
}

#[test]
fn color_constants_are_the_ansi_sequences() {
    assert_eq!(PURPLE, "\u{1b}[95m");
    assert_eq!(GREEN, "\u{1b}[92m");
    assert_eq!(RED, "\u{1b}[91m");
    assert_eq!(YELLOW, "\u{1b}[93m");
    assert_eq!(END, "\u{1b}[0m");
}

#[test]
fn highlight_paints_first_match_red() {
    let pattern = Pattern::compile("o+").unwrap();
    assert_eq!(highlight(&pattern, "foo boo"), format!("f{}oo{} boo", RED, END));
}

#[test]
fn highlight_trims_the_line() {
    let pattern = Pattern::compile("bar").unwrap();
    assert_eq!(highlight(&pattern, "   a bar b \t"), format!("a {}bar{} b", RED, END));
}

#[test]
fn highlight_without_match_only_trims() {
    let pattern = Pattern::compile("zzz").unwrap();
    assert_eq!(highlight(&pattern, "  plain  "), "plain");
}

#[test]
fn highlight_cuts_between_characters_of_several_bytes() {
    let pattern = Pattern::compile("β+").unwrap();
    assert_eq!(highlight(&pattern, "αββγ"), format!("α{}ββ{}γ", RED, END));
}

#[test]
fn render_match_gives_path_line_column_and_text() {
    let pattern = Pattern::compile("bar").unwrap();
    let shown = render_match(&pattern, "src/a.txt", 12, "foo bar").unwrap();
    let expected = format!(
        "{}src/a.txt{}:{}12{}:{}4{}\tfoo {}bar{}",
        PURPLE, END, YELLOW, END, GREEN, END, RED, END
    );
    assert_eq!(shown, expected);
}

#[test]
fn render_match_counts_the_column_in_bytes() {
    let pattern = Pattern::compile("x").unwrap();
    let shown = render_match(&pattern, "p", 0, "éx").unwrap();
    let expected =
        format!("{}p{}:{}0{}:{}2{}\té{}x{}", PURPLE, END, YELLOW, END, GREEN, END, RED, END);
    assert_eq!(shown, expected);
}

#[test]
fn render_match_is_none_without_match() {
    let pattern = Pattern::compile("bar").unwrap();
    assert_eq!(render_match(&pattern, "src/a.txt", 0, "foo"), None);
}

#[test]
fn render_move_gives_old_arrow_new() {
    assert_eq!(
        render_move("./a.txt", "./b.txt"),
        format!("{}./a.txt{} -> {}./b.txt{}", YELLOW, END, GREEN, END)
    );
}

#[test]
fn render_collision_names_the_destination() {
    assert_eq!(
        render_collision("./b.txt"),
        format!("{}Error: './b.txt' already exists!{}", RED, END)
    );
}
