use temuera_headless::terminal::{emuera_columns, Rgb, Terminal, TextStyle};

#[test]
fn emuera_width_matches_basic_ascii_and_cjk_expectations() {
    assert_eq!(emuera_columns("abc"), 3);
    assert_eq!(emuera_columns("紅魔館"), 6);
    assert_eq!(emuera_columns("■┃＜＞"), 8);
}

#[test]
fn half_width_katakana_and_latin1_count_one() {
    assert_eq!(emuera_columns("ｱｲ"), 2);
    assert_eq!(emuera_columns("é"), 1);
    assert_eq!(emuera_columns(""), 0);
    assert_eq!(emuera_columns("\u{ffe8}\u{ffef}"), 3);
}

#[test]
fn palette_clear_and_reset_codes() {
    let mut terminal = Terminal::new();
    terminal.apply_palette(Rgb::emuera_orange(), Rgb::black());
    terminal.clear();
    terminal.reset();
    assert_eq!(
        terminal.flush(),
        "\x1b[38;2;255;128;64m\x1b[48;2;0;0;0m\x1b[2J\x1b[H\x1b[0m"
    );
    assert_eq!(terminal.flush(), "");
}

#[test]
fn styled_line_codes() {
    let mut terminal = Terminal::new();
    let style = TextStyle {
        foreground: Some(Rgb::new(1, 2, 3)),
        background: None,
        bold: true,
        italic: false,
        underline: true,
        strikeout: true,
    };
    terminal.writeln_styled("hi", style);
    terminal.writeln_styled("plain", TextStyle::default());
    assert_eq!(
        terminal.flush(),
        "\x1b[38;2;1;2;3m\x1b[1m\x1b[4m\x1b[9mhi\x1b[0m\nplain\x1b[0m\n"
    );
}
