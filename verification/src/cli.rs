//! Command-line arguments.
use vstd::prelude::*;

use crate::error::HeadlessError;
use crate::text::{chars_of, copy_string, push_str, str_eq};

verus! {

#[derive(Debug, Clone, PartialEq, Eq)]
pub enum Command {
    Help,
    Run(Options),
}

#[derive(Debug, Clone, PartialEq, Eq)]
pub struct Options {
    pub game_dir: String,
    pub show_warnings: bool,
    pub no_overlay: bool,
}

/// What the arguments ask for: help, a run with a game directory and two
/// flags, or a usage error with its message.
pub enum Parsed {
    Help,
    Run(Seq<char>, bool, bool),
    Usage(Seq<char>),
}

/// The meaning of arguments `k..`, given what the earlier ones set.
pub open spec fn parse_from(
    args: Seq<Seq<char>>,
    k: int,
    game_dir: Option<Seq<char>>,
    show_warnings: bool,
    no_overlay: bool,
) -> Parsed
    decreases args.len() - k,
{
    if k < 0 || k >= args.len() {
        match game_dir {
            None => Parsed::Usage("missing required game directory"@),
            Some(dir) => Parsed::Run(dir, show_warnings, no_overlay),
        }
    } else {
        let a = args[k];
        if a == "-h"@ || a == "--help"@ {
            Parsed::Help
        } else if a == "--show-warnings"@ {
            parse_from(args, k + 1, game_dir, true, no_overlay)
        } else if a == "--no-overlay"@ {
            parse_from(args, k + 1, game_dir, show_warnings, true)
        } else if a.len() > 0 && a[0] == '-' {
            Parsed::Usage("unknown option: "@ + a)
        } else if game_dir is Some {
            Parsed::Usage("only one game directory can be supplied"@)
        } else {
            parse_from(args, k + 1, Some(a), show_warnings, no_overlay)
        }
    }
}

pub open spec fn args_view(args: Seq<String>) -> Seq<Seq<char>> {
    args.map_values(|a: String| a@)
}

/// The result `r` of parsing is what `p` describes.
pub open spec fn parsed_as(r: Result<Command, HeadlessError>, p: Parsed) -> bool {
    match p {
        Parsed::Help => r matches Ok(Command::Help),
        Parsed::Run(dir, show, no_overlay) => r matches Ok(Command::Run(o)) && o.game_dir@ == dir
            && o.show_warnings == show && o.no_overlay == no_overlay,
        Parsed::Usage(m) => r matches Err(HeadlessError::Usage(x)) && x@ == m,
    }
}

fn usage_error(message: &str) -> (r: Result<Command, HeadlessError>)
    ensures
        r matches Err(HeadlessError::Usage(x)) && x@ == message@,
{
    Err(HeadlessError::Usage(message.to_owned()))
}

/// Reads the arguments (the program name left out): `-h`/`--help`,
/// `--show-warnings`, `--no-overlay`, and exactly one game directory.
pub fn parse(args: Vec<String>) -> (r: Result<Command, HeadlessError>)
    ensures
        parsed_as(r, parse_from(args_view(args@), 0, None, false, false)),
{
    let ghost all = args_view(args@);
    let mut game_dir: Option<String> = None;
    let mut show_warnings = false;
    let mut no_overlay = false;
    let mut k: usize = 0;
    while k < args.len()
        invariant
            0 <= k <= args.len(),
            all == args_view(args@),
            parse_from(all, k as int, game_dir.deep_view(), show_warnings, no_overlay) == parse_from(
                all,
                0,
                None,
                false,
                false,
            ),
        decreases args.len() - k,
    {
        let arg = &args[k];
        assert(all[k as int] == arg@);
        if str_eq(arg.as_str(), "-h") || str_eq(arg.as_str(), "--help") {
            return Ok(Command::Help);
        } else if str_eq(arg.as_str(), "--show-warnings") {
            show_warnings = true;
        } else if str_eq(arg.as_str(), "--no-overlay") {
            no_overlay = true;
        } else {
            let chars = chars_of(arg.as_str());
            if chars.len() > 0 && chars[0] == '-' {
                let mut message = String::new();
                push_str(&mut message, "unknown option: ");
                push_str(&mut message, arg.as_str());
                return Err(HeadlessError::Usage(message));
            }
            if game_dir.is_some() {
                return usage_error("only one game directory can be supplied");
            }
            game_dir = Some(copy_string(arg));
        }
        k += 1;
    }
    match game_dir {
        None => usage_error("missing required game directory"),
        Some(dir) => Ok(Command::Run(Options { game_dir: dir, show_warnings, no_overlay })),
    }
}

/// The help text.
pub fn usage() -> (r: &'static str)
    ensures
        r@ == "Usage: cargo run -p temuera-headless -- [--show-warnings] [--no-overlay] /path/to/era-game\n\nOptions:\n--show-warnings   keep loader/parser warnings visible\n--no-overlay      use the game directory directly instead of a case-insensitive temp overlay\n-h, --help        show this help"@,
{
    "Usage: cargo run -p temuera-headless -- [--show-warnings] [--no-overlay] /path/to/era-game\n\nOptions:\n--show-warnings   keep loader/parser warnings visible\n--no-overlay      use the game directory directly instead of a case-insensitive temp overlay\n-h, --help        show this help"
}

} // verus!
