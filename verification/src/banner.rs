//! The banner printed when a game is opened.
use vstd::prelude::*;

use crate::config::ConfigEntry;
use crate::config::last_entry_before;
use crate::console::{game_title, title_of, yes_no};
use crate::csv::first_file_named;
use crate::game::{Game, ResourceSummary};
use crate::terminal::{columns, emuera_columns, style_code, Rgb, Terminal, TextStyle};
use crate::text::{decimal, push_str, usize_to_string};

verus! {

/// Orange on black.
pub open spec fn normal_style() -> TextStyle {
    TextStyle {
        foreground: Some(Rgb { red: 255, green: 128, blue: 64 }),
        background: Some(Rgb { red: 0, green: 0, blue: 0 }),
        bold: false,
        italic: false,
        underline: false,
        strikeout: false,
    }
}

/// The normal style, bold.
pub open spec fn heading_style() -> TextStyle {
    TextStyle { bold: true, ..normal_style() }
}

/// `n` dashes.
pub open spec fn dash_run(n: nat) -> Seq<char> {
    Seq::new(n, |i: int| '-')
}

pub open spec fn banner_title() -> Seq<char> {
    "tEmuera Rust headless"@
}

pub open spec fn yes_no_text(b: bool) -> Seq<char> {
    if b {
        "yes"@
    } else {
        "no"@
    }
}

/// The value of the last configuration entry named `key`, ignoring ASCII
/// case.
pub open spec fn config_value(entries: Seq<ConfigEntry>, key: Seq<char>) -> Option<Seq<char>> {
    match last_entry_before(entries, key, entries.len() as int) {
        Some(i) => Some(entries[i].value@),
        None => None,
    }
}

/// The colour the configuration gives the text: `文字色`, else `TextColor`.
pub open spec fn text_color(entries: Seq<ConfigEntry>) -> Option<Seq<char>> {
    match config_value(entries, "文字色"@) {
        Some(v) => Some(v),
        None => config_value(entries, "TextColor"@),
    }
}

/// A line that is there only when `o` holds a text.
pub open spec fn optional_line(prefix: Seq<char>, o: Option<Seq<char>>) -> Seq<(TextStyle, Seq<char>)> {
    match o {
        Some(t) => seq![(normal_style(), prefix + t)],
        None => seq![],
    }
}

/// `resources: N ERB, N CSV, N DAT, N SAV`.
pub open spec fn resources_text(r: ResourceSummary) -> Seq<char> {
    "resources: "@ + decimal(r.erb_files as nat) + " ERB, "@ + decimal(r.csv_files as nat)
        + " CSV, "@ + decimal(r.dat_files as nat) + " DAT, "@ + decimal(r.save_files as nat)
        + " SAV"@
}

/// `config: yes|no, sav dir: yes|no, warnings: visible|hidden`.
pub open spec fn config_text(r: ResourceSummary, show_warnings: bool) -> Seq<char> {
    "config: "@ + yes_no_text(r.has_config) + ", sav dir: "@ + yes_no_text(r.has_sav_dir)
        + ", warnings: "@ + (if show_warnings {
        "visible"@
    } else {
        "hidden"@
    })
}

/// `loaded: ...`: the numbers of configuration entries, CSV rows, script
/// files, functions and labels.
pub open spec fn loaded_text(game: Game) -> Seq<char> {
    "loaded: "@ + decimal(game.config.entries@.len()) + " config entries, "@ + decimal(
        game.csv.rows as nat,
    ) + " CSV rows, "@ + decimal(game.scripts.files@.len()) + " script files, "@ + decimal(
        game.scripts.index.functions@.len(),
    ) + " functions, "@ + decimal(game.scripts.index.labels@.dom().len()) + " labels"@
}

/// The rule under the title: as many dashes as the title is wide, at
/// least 40.
pub open spec fn rule_text() -> Seq<char> {
    let width = columns(banner_title());
    dash_run(if width > 40 { width } else { 40 })
}

/// The title the game gives in `GameBase.csv`.
pub open spec fn game_title_spec(game: Game) -> Option<Seq<char>> {
    match first_file_named(game.csv.files@, "GameBase.csv"@, 0) {
        None => None,
        Some(fi) => title_of(game.csv.files@[fi].rows@),
    }
}

/// The lines of the banner with their styles.
pub open spec fn banner_lines(game: Game, show_warnings: bool) -> Seq<(TextStyle, Seq<char>)> {
    seq![
        (heading_style(), banner_title()),
        (normal_style(), rule_text()),
        (normal_style(), "source : "@ + game.paths.source_dir@),
        (normal_style(), "runtime: "@ + game.paths.runtime_dir@),
        (normal_style(), resources_text(game.resources)),
        (normal_style(), config_text(game.resources, show_warnings)),
    ] + optional_line("config path: "@, game.config.path.deep_view()) + optional_line(
        "config text color: "@,
        text_color(game.config.entries@),
    ) + seq![(normal_style(), loaded_text(game))] + optional_line(
        "title: "@,
        game_title_spec(game),
    ) + seq![
        (normal_style(), Seq::<char>::empty()),
        (
            normal_style(),
            "Rust VM is not implemented yet. Type :help for available bootstrap commands."@,
        ),
    ]
}

/// The text of styled lines as the terminal writes them.
pub open spec fn styled_text(lines: Seq<(TextStyle, Seq<char>)>) -> Seq<char>
    decreases lines.len(),
{
    if lines.len() == 0 {
        seq![]
    } else {
        styled_text(lines.drop_last()) + style_code(lines.last().0) + lines.last().1 + "\x1b[0m\n"@
    }
}

pub open spec fn lines_view(v: Seq<(TextStyle, String)>) -> Seq<(TextStyle, Seq<char>)> {
    v.map_values(|l: (TextStyle, String)| (l.0, l.1@))
}

fn normal() -> (r: TextStyle)
    ensures
        r == normal_style(),
{
    TextStyle {
        foreground: Some(Rgb::emuera_orange()),
        background: Some(Rgb::black()),
        bold: false,
        italic: false,
        underline: false,
        strikeout: false,
    }
}

fn push_line(lines: &mut Vec<(TextStyle, String)>, style: TextStyle, text: String)
    ensures
        lines_view(final(lines)@) == lines_view(old(lines)@).push((style, text@)),
{
    let ghost t = text@;
    lines.push((style, text));
    assert(lines_view(lines@) =~= lines_view(old(lines)@).push((style, t)));
}

fn push_optional(lines: &mut Vec<(TextStyle, String)>, prefix: &str, o: Option<&str>)
    ensures
        lines_view(final(lines)@) == lines_view(old(lines)@) + optional_line(prefix@, o.deep_view()),
{
    match o {
        Some(t) => {
            let mut text = String::new();
            push_str(&mut text, prefix);
            push_str(&mut text, t);
            push_line(lines, normal(), text);
        },
        None => {
            assert(lines_view(lines@) =~= lines_view(old(lines)@) + optional_line(
                prefix@,
                o.deep_view(),
            ));
        },
    }
}

fn rule_string() -> (r: String)
    ensures
        r@ == rule_text(),
{
    let title = "tEmuera Rust headless";
    proof {
        reveal_strlit("tEmuera Rust headless");
        crate::laws::law_columns_bounds(title@);
    }
    let width = emuera_columns(title);
    let count = if width > 40 {
        width
    } else {
        40
    };
    let mut dashes = String::new();
    let mut i: usize = 0;
    while i < count
        invariant
            0 <= i <= count,
            dashes@ == dash_run(i as nat),
        decreases count - i,
    {
        dashes.push('-');
        assert(dashes@ =~= dash_run((i + 1) as nat));
        i += 1;
    }
    dashes
}

fn prefixed(prefix: &str, text: &str) -> (r: String)
    ensures
        r@ == prefix@ + text@,
{
    let mut out = String::new();
    push_str(&mut out, prefix);
    push_str(&mut out, text);
    out
}

fn resources_string(r: &ResourceSummary) -> (s: String)
    ensures
        s@ == resources_text(*r),
{
    let mut out = String::new();
    push_str(&mut out, "resources: ");
    push_str(&mut out, usize_to_string(r.erb_files).as_str());
    push_str(&mut out, " ERB, ");
    push_str(&mut out, usize_to_string(r.csv_files).as_str());
    push_str(&mut out, " CSV, ");
    push_str(&mut out, usize_to_string(r.dat_files).as_str());
    push_str(&mut out, " DAT, ");
    push_str(&mut out, usize_to_string(r.save_files).as_str());
    push_str(&mut out, " SAV");
    assert(out@ =~= resources_text(*r));
    out
}

fn config_string(r: &ResourceSummary, show_warnings: bool) -> (s: String)
    ensures
        s@ == config_text(*r, show_warnings),
{
    let mut out = String::new();
    push_str(&mut out, "config: ");
    push_str(&mut out, yes_no(r.has_config));
    push_str(&mut out, ", sav dir: ");
    push_str(&mut out, yes_no(r.has_sav_dir));
    push_str(&mut out, ", warnings: ");
    if show_warnings {
        push_str(&mut out, "visible");
    } else {
        push_str(&mut out, "hidden");
    }
    assert(out@ =~= config_text(*r, show_warnings));
    out
}

fn loaded_string(game: &Game) -> (s: String)
    ensures
        s@ == loaded_text(*game),
{
    let mut out = String::new();
    push_str(&mut out, "loaded: ");
    push_str(&mut out, usize_to_string(game.config.entries.len()).as_str());
    push_str(&mut out, " config entries, ");
    push_str(&mut out, usize_to_string(game.csv.rows).as_str());
    push_str(&mut out, " CSV rows, ");
    push_str(&mut out, usize_to_string(game.scripts.files.len()).as_str());
    push_str(&mut out, " script files, ");
    push_str(&mut out, usize_to_string(game.scripts.index.functions.len()).as_str());
    push_str(&mut out, " functions, ");
    push_str(&mut out, usize_to_string(game.scripts.index.labels.len()).as_str());
    push_str(&mut out, " labels");
    assert(out@ =~= loaded_text(*game));
    out
}

/// The lines of the banner (see `banner_lines`).
pub fn banner_lines_of(game: &Game, show_warnings: bool) -> (r: Vec<(TextStyle, String)>)
    ensures
        lines_view(r@) == banner_lines(*game, show_warnings),
{
    let normal = normal();
    let heading = TextStyle { bold: true, ..normal };
    let mut lines: Vec<(TextStyle, String)> = Vec::new();
    push_line(&mut lines, heading, "tEmuera Rust headless".to_owned());
    push_line(&mut lines, normal, rule_string());
    push_line(&mut lines, normal, prefixed("source : ", game.paths.source_dir.as_str()));
    push_line(&mut lines, normal, prefixed("runtime: ", game.paths.runtime_dir.as_str()));
    push_line(&mut lines, normal, resources_string(&game.resources));
    push_line(&mut lines, normal, config_string(&game.resources, show_warnings));
    let ghost first = lines_view(lines@);
    let path = match &game.config.path {
        Some(p) => Some(p.as_str()),
        None => None,
    };
    assert(path.deep_view() == game.config.path.deep_view());
    push_optional(&mut lines, "config path: ", path);
    let color = match game.config.get("文字色") {
        Some(v) => Some(v),
        None => game.config.get("TextColor"),
    };
    push_optional(&mut lines, "config text color: ", color);
    push_line(&mut lines, normal, loaded_string(game));
    let title_text = game_title(&game.csv);
    let title_ref = match &title_text {
        Some(t) => Some(t.as_str()),
        None => None,
    };
    assert(title_ref.deep_view() == title_text.deep_view());
    push_optional(&mut lines, "title: ", title_ref);
    push_line(&mut lines, normal, String::new());
    push_line(
        &mut lines,
        normal,
        "Rust VM is not implemented yet. Type :help for available bootstrap commands.".to_owned(),
    );
    assert(first =~= seq![
        (heading_style(), banner_title()),
        (normal_style(), rule_text()),
        (normal_style(), "source : "@ + game.paths.source_dir@),
        (normal_style(), "runtime: "@ + game.paths.runtime_dir@),
        (normal_style(), resources_text(game.resources)),
        (normal_style(), config_text(game.resources, show_warnings)),
    ]);
    assert(lines_view(lines@) =~= banner_lines(*game, show_warnings));
    lines
}

/// Writes the banner of an opened game.
pub fn print_banner(terminal: &mut Terminal, game: &Game, show_warnings: bool)
    ensures
        final(terminal).pending() == old(terminal).pending() + styled_text(
            banner_lines(*game, show_warnings),
        ),
{
    let lines = banner_lines_of(game, show_warnings);
    let ghost start = terminal.pending();
    let mut k: usize = 0;
    while k < lines.len()
        invariant
            0 <= k <= lines.len(),
            terminal.pending() == start + styled_text(lines_view(lines@).take(k as int)),
        decreases lines.len() - k,
    {
        let (style, text) = (lines[k].0, lines[k].1.as_str());
        terminal.writeln_styled(text, style);
        assert(lines_view(lines@).take(k + 1).drop_last() =~= lines_view(lines@).take(k as int));
        assert(start + styled_text(lines_view(lines@).take(k + 1)) =~= start + styled_text(
            lines_view(lines@).take(k as int),
        ) + style_code(style) + text@ + "\x1b[0m\n"@);
        k += 1;
    }
    assert(lines_view(lines@).take(lines.len() as int) =~= lines_view(lines@));
}

} // verus!
