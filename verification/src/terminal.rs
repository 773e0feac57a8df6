//! ANSI styling of terminal output and the Emuera width of text.
use vstd::prelude::*;

use crate::text::{chars_of, decimal, push_str, usize_to_string};

verus! {

#[derive(Debug, Clone, Copy, PartialEq, Eq, Structural)]
pub struct Rgb {
    pub red: u8,
    pub green: u8,
    pub blue: u8,
}

impl Rgb {
    pub fn new(red: u8, green: u8, blue: u8) -> (r: Self)
        ensures
            r == (Rgb { red, green, blue }),
    {
        Rgb { red, green, blue }
    }

    /// Black, the background of the screen.
    pub fn black() -> (r: Self)
        ensures
            r == (Rgb { red: 0, green: 0, blue: 0 }),
    {
        Rgb::new(0, 0, 0)
    }

    /// The orange of Emuera's default text.
    pub fn emuera_orange() -> (r: Self)
        ensures
            r == (Rgb { red: 255, green: 128, blue: 64 }),
    {
        Rgb::new(255, 128, 64)
    }
}

#[derive(Debug, Clone, Copy, PartialEq, Eq, Structural)]
pub struct TextStyle {
    pub foreground: Option<Rgb>,
    pub background: Option<Rgb>,
    pub bold: bool,
    pub italic: bool,
    pub underline: bool,
    pub strikeout: bool,
}

impl Default for TextStyle {
    fn default() -> (r: Self)
        ensures
            r == (TextStyle {
                foreground: None,
                background: None,
                bold: false,
                italic: false,
                underline: false,
                strikeout: false,
            }),
    {
        TextStyle {
            foreground: None,
            background: None,
            bold: false,
            italic: false,
            underline: false,
            strikeout: false,
        }
    }
}

/// `ESC [ <kind> ; 2 ; R ; G ; B m`: a true colour for the foreground
/// (`kind` 38) or the background (`kind` 48).
pub open spec fn color_code(kind: Seq<char>, c: Rgb) -> Seq<char> {
    "\x1b["@ + kind + ";2;"@ + decimal(c.red as nat) + ";"@ + decimal(c.green as nat) + ";"@
        + decimal(c.blue as nat) + "m"@
}

pub open spec fn optional_color(kind: Seq<char>, c: Option<Rgb>) -> Seq<char> {
    match c {
        Some(c) => color_code(kind, c),
        None => seq![],
    }
}

pub open spec fn flag_code(on: bool, code: Seq<char>) -> Seq<char> {
    if on {
        code
    } else {
        seq![]
    }
}

/// The codes that select a style: colours, then bold, italic, underline and
/// strikeout.
pub open spec fn style_code(s: TextStyle) -> Seq<char> {
    optional_color("38"@, s.foreground) + optional_color("48"@, s.background) + flag_code(
        s.bold,
        "\x1b[1m"@,
    ) + flag_code(s.italic, "\x1b[3m"@) + flag_code(s.underline, "\x1b[4m"@) + flag_code(
        s.strikeout,
        "\x1b[9m"@,
    )
}

/// Styled text on the terminal: the escape codes and text are collected
/// here and handed out by `flush`.
#[derive(Debug)]
pub struct Terminal {
    pending: String,
}

fn push_color(out: &mut String, kind: &str, c: Rgb)
    ensures
        final(out)@ == old(out)@ + color_code(kind@, c),
{
    push_str(out, "\x1b[");
    push_str(out, kind);
    push_str(out, ";2;");
    push_str(out, usize_to_string(c.red as usize).as_str());
    push_str(out, ";");
    push_str(out, usize_to_string(c.green as usize).as_str());
    push_str(out, ";");
    push_str(out, usize_to_string(c.blue as usize).as_str());
    push_str(out, "m");
    assert(final(out)@ =~= old(out)@ + color_code(kind@, c));
}

fn push_optional_color(out: &mut String, kind: &str, c: Option<Rgb>)
    ensures
        final(out)@ == old(out)@ + optional_color(kind@, c),
{
    match c {
        Some(color) => push_color(out, kind, color),
        None => {
            assert(out@ =~= old(out)@ + optional_color(kind@, c));
        },
    }
}

fn push_flag(out: &mut String, on: bool, code: &str)
    ensures
        final(out)@ == old(out)@ + flag_code(on, code@),
{
    if on {
        push_str(out, code);
    } else {
        assert(out@ =~= old(out)@ + flag_code(on, code@));
    }
}

impl Terminal {
    /// A terminal with nothing written.
    pub fn new() -> (r: Self)
        ensures
            r.pending() == Seq::<char>::empty(),
    {
        Terminal { pending: String::new() }
    }

    /// What was written and not yet flushed.
    pub closed spec fn pending(&self) -> Seq<char> {
        self.pending@
    }

    /// Sets the foreground and background colours.
    pub fn apply_palette(&mut self, foreground: Rgb, background: Rgb)
        ensures
            final(self).pending() == old(self).pending() + color_code("38"@, foreground)
                + color_code("48"@, background),
    {
        push_color(&mut self.pending, "38", foreground);
        push_color(&mut self.pending, "48", background);
        assert(self.pending() =~= old(self).pending() + color_code("38"@, foreground) + color_code(
            "48"@,
            background,
        ));
    }

    /// Clears the screen and moves the cursor home.
    pub fn clear(&mut self)
        ensures
            final(self).pending() == old(self).pending() + "\x1b[2J\x1b[H"@,
    {
        push_str(&mut self.pending, "\x1b[2J\x1b[H");
    }

    /// Resets all attributes.
    pub fn reset(&mut self)
        ensures
            final(self).pending() == old(self).pending() + "\x1b[0m"@,
    {
        push_str(&mut self.pending, "\x1b[0m");
    }

    /// Writes one line of text in a style, then resets the attributes.
    pub fn writeln_styled(&mut self, text: &str, style: TextStyle)
        ensures
            final(self).pending() == old(self).pending() + style_code(style) + text@ + "\x1b[0m\n"@,
    {
        self.write_style(style);
        push_str(&mut self.pending, text);
        push_str(&mut self.pending, "\x1b[0m\n");
        assert(self.pending() =~= old(self).pending() + style_code(style) + text@ + "\x1b[0m\n"@);
    }

    /// Hands out what was written, to be sent to the screen.
    pub fn flush(&mut self) -> (r: String)
        ensures
            r@ == old(self).pending(),
            final(self).pending() == Seq::<char>::empty(),
    {
        let mut out = String::new();
        std::mem::swap(&mut out, &mut self.pending);
        out
    }

    fn write_style(&mut self, style: TextStyle)
        ensures
            final(self).pending() == old(self).pending() + style_code(style),
    {
        let ghost start = self.pending@;
        push_optional_color(&mut self.pending, "38", style.foreground);
        push_optional_color(&mut self.pending, "48", style.background);
        push_flag(&mut self.pending, style.bold, "\x1b[1m");
        push_flag(&mut self.pending, style.italic, "\x1b[3m");
        push_flag(&mut self.pending, style.underline, "\x1b[4m");
        push_flag(&mut self.pending, style.strikeout, "\x1b[9m");
        assert(self.pending@ =~= start + style_code(style));
    }
}

// ---------------------------------------------------------------------------
// Width
// ---------------------------------------------------------------------------

/// Characters Emuera draws half wide: Latin-1, half-width katakana and the
/// half-width symbols `U+FFE8..=U+FFEE`.
pub open spec fn half_width(c: char) -> bool {
    let u = c as u32;
    ||| u <= 0xff
    ||| 0xff61 <= u <= 0xff9f
    ||| 0xffe8 <= u <= 0xffee
}

/// The Emuera width of a text: 1 per half-width character, 2 per other.
pub open spec fn columns(s: Seq<char>) -> nat
    decreases s.len(),
{
    if s.len() == 0 {
        0
    } else {
        columns(s.drop_last()) + if half_width(s.last()) {
            1nat
        } else {
            2nat
        }
    }
}

fn is_emuera_half_width(ch: char) -> (r: bool)
    ensures
        r == half_width(ch),
{
    let u = ch as u32;
    u <= 0xff || (0xff61 <= u && u <= 0xff9f) || (0xffe8 <= u && u <= 0xffee)
}

/// The width Emuera gives a text.
pub fn emuera_columns(text: &str) -> (r: usize)
    requires
        columns(text@) <= usize::MAX,
    ensures
        r == columns(text@),
{
    let v = chars_of(text);
    let mut total: usize = 0;
    let mut i: usize = 0;
    while i < v.len()
        invariant
            0 <= i <= v.len(),
            v@ == text@,
            columns(text@) <= usize::MAX,
            total == columns(v@.take(i as int)),
        decreases v.len() - i,
    {
        assert(v@.take(i + 1).drop_last() =~= v@.take(i as int));
        proof {
            lemma_columns_prefix(v@, i + 1);
        }
        if is_emuera_half_width(v[i]) {
            total = total + 1;
        } else {
            total = total + 2;
        }
        i += 1;
    }
    assert(v@.take(v.len() as int) =~= v@);
    total
}

pub proof fn lemma_columns_prefix(s: Seq<char>, k: int)
    requires
        0 <= k <= s.len(),
    ensures
        columns(s.take(k)) <= columns(s),
    decreases s.len(),
{
    if k < s.len() {
        assert(s.drop_last().take(k) =~= s.take(k));
        lemma_columns_prefix(s.drop_last(), k);
    } else {
        assert(s.take(k) =~= s);
    }
}

} // verus!
