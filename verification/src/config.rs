//! `emuera.config`: `KEY:VALUE` or `KEY=VALUE` lines, and the decoding of
//! the game's text files.
use vstd::prelude::*;

use crate::text::{
    bom, chars_of, eq_ignore_case, eq_ignore_case_str, find_char, find_in, lemma_find_char,
    line_ranges, lines, skip_char, string_of, trim, trim_bounds, trim_start_char,
};

verus! {

#[derive(Debug, Clone, PartialEq, Eq)]
pub struct ConfigEntry {
    pub line_no: usize,
    pub key: String,
    pub value: String,
}

impl View for ConfigEntry {
    type V = (usize, Seq<char>, Seq<char>);

    open spec fn view(&self) -> (usize, Seq<char>, Seq<char>) {
        (self.line_no, self.key@, self.value@)
    }
}

/// The configuration file of a game: where it was found, and its entries.
#[derive(Debug)]
pub struct ConfigFile {
    pub path: Option<String>,
    pub entries: Vec<ConfigEntry>,
}

pub open spec fn entries_view(v: Seq<ConfigEntry>) -> Seq<(usize, Seq<char>, Seq<char>)> {
    v.map_values(|e: ConfigEntry| e@)
}

/// The entry of one line: the line is trimmed and loses leading byte-order
/// marks; empty lines and `;` comments give none; the key is the trimmed
/// text before the first `:` (or, without one, the first `=`), the value the
/// trimmed rest; an empty key gives none.
pub open spec fn config_line(line_no: usize, line: Seq<char>) -> Option<(usize, Seq<char>, Seq<char>)> {
    let l = trim_start_char(trim(line), bom());
    if l.len() == 0 || l[0] == ';' {
        None
    } else {
        let sep = match find_char(l, ':') {
            Some(i) => Some(i),
            None => find_char(l, '='),
        };
        match sep {
            None => None,
            Some(i) => {
                let key = trim(l.take(i));
                if key.len() == 0 {
                    None
                } else {
                    Some((line_no, key, trim(l.skip(i + 1))))
                }
            },
        }
    }
}

/// The entries of lines `k..` of a text, lines numbered from 1.
pub open spec fn config_entries_from(ls: Seq<Seq<char>>, k: int) -> Seq<(usize, Seq<char>, Seq<char>)>
    decreases ls.len() - k,
{
    if k < 0 || k >= ls.len() {
        seq![]
    } else {
        match config_line((k + 1) as usize, ls[k]) {
            None => config_entries_from(ls, k + 1),
            Some(e) => seq![e] + config_entries_from(ls, k + 1),
        }
    }
}

/// The entries of a configuration text.
pub open spec fn config_entries(text: Seq<char>) -> Seq<(usize, Seq<char>, Seq<char>)> {
    config_entries_from(lines(text), 0)
}

/// The entry of one configuration line.
pub fn parse_config_line(line_no: usize, line: &str) -> (r: Option<ConfigEntry>)
    ensures
        r matches Some(e) ==> config_line(line_no, line@) == Some(e@),
        r is None ==> config_line(line_no, line@) is None,
{
    let v = chars_of(line);
    let n = v.len();
    assert(v@.subrange(0, n as int) =~= v@);
    let (a, b) = trim_bounds(&v, 0, n);
    let c = skip_char(&v, a, b, '\u{feff}');
    let ghost l = trim_start_char(trim(line@), bom());
    assert(v@.subrange(c as int, b as int) == l);
    if c == b || v[c] == ';' {
        return None;
    }
    let sep = match find_in(&v, c, b, ':') {
        Some(i) => i,
        None => match find_in(&v, c, b, '=') {
            Some(i) => i,
            None => return None,
        },
    };
    proof {
        lemma_find_char(l, ':');
        lemma_find_char(l, '=');
    }
    assert(l.take(sep as int) =~= v@.subrange(c as int, c + sep));
    assert(l.skip(sep + 1) =~= v@.subrange(c + sep + 1, b as int));
    let (ka, kb) = trim_bounds(&v, c, c + sep);
    if ka == kb {
        return None;
    }
    let (va, vb) = trim_bounds(&v, c + sep + 1, b);
    let key = string_of(&v, ka, kb);
    let value = string_of(&v, va, vb);
    Some(ConfigEntry { line_no, key, value })
}

/// The entries of a configuration text, in line order.
pub fn parse_config(text: &str) -> (r: Vec<ConfigEntry>)
    ensures
        entries_view(r@) == config_entries(text@),
{
    let v = chars_of(text);
    assert(v@.subrange(0, v.len() as int) =~= v@);
    let ranges = line_ranges(&v, 0, v.len());
    let ghost ls = lines(v@);
    let mut entries: Vec<ConfigEntry> = Vec::new();
    let mut k: usize = 0;
    assert(entries_view(entries@) =~= seq![]);
    while k < ranges.len()
        invariant
            0 <= k <= ranges.len(),
            ranges@.len() == ls.len(),
            ls == lines(text@),
            forall|j: int|
                0 <= j < ranges@.len() ==> {
                    &&& 0 <= (#[trigger] ranges@[j]).0 <= ranges@[j].1 <= v@.len()
                    &&& v@.subrange(ranges@[j].0 as int, ranges@[j].1 as int) == ls[j]
                },
            entries_view(entries@) + config_entries_from(ls, k as int) == config_entries(text@),
        decreases ranges.len() - k,
    {
        let (a, b) = ranges[k];
        let line = string_of(&v, a, b);
        let ghost before = entries_view(entries@);
        match parse_config_line(k + 1, line.as_str()) {
            Some(e) => {
                let ghost ev = e@;
                entries.push(e);
                assert(entries_view(entries@) =~= before.push(ev));
                assert(before.push(ev) + config_entries_from(ls, k + 1) =~= before + (seq![ev]
                    + config_entries_from(ls, k + 1)));
            },
            None => {},
        }
        k += 1;
    }
    assert(entries_view(entries@) + config_entries_from(ls, k as int) =~= entries_view(entries@));
    entries
}

/// Index of the last entry whose key equals `key` ignoring ASCII case,
/// among the first `n`.
pub open spec fn last_entry_before(entries: Seq<ConfigEntry>, key: Seq<char>, n: int) -> Option<int>
    decreases n,
{
    if n <= 0 || n > entries.len() {
        None
    } else if eq_ignore_case(entries[n - 1].key@, key) {
        Some(n - 1)
    } else {
        last_entry_before(entries, key, n - 1)
    }
}

impl ConfigFile {
    /// A configuration with no file and no entries.
    pub fn new() -> (r: Self)
        ensures
            r.path is None,
            r.entries@.len() == 0,
    {
        ConfigFile { path: None, entries: Vec::new() }
    }

    /// The configuration read from the text of the file at `path`.
    pub fn from_text(path: String, text: &str) -> (r: Self)
        ensures
            r.path == Some(path),
            entries_view(r.entries@) == config_entries(text@),
    {
        ConfigFile { path: Some(path), entries: parse_config(text) }
    }

    /// The value of the last entry with key `key`, ignoring ASCII case.
    pub fn get(&self, key: &str) -> (r: Option<&str>)
        ensures
            r matches Some(v) ==> last_entry_before(self.entries@, key@, self.entries@.len() as int)
                matches Some(i) && v@ == self.entries@[i].value@,
            r is None ==> last_entry_before(self.entries@, key@, self.entries@.len() as int) is None,
    {
        let mut n = self.entries.len();
        while n > 0
            invariant
                0 <= n <= self.entries.len(),
                last_entry_before(self.entries@, key@, n as int) == last_entry_before(
                    self.entries@,
                    key@,
                    self.entries@.len() as int,
                ),
            decreases n,
        {
            if eq_ignore_case_str(self.entries[n - 1].key.as_str(), key) {
                return Some(self.entries[n - 1].value.as_str());
            }
            n -= 1;
        }
        None
    }
}

/// The first directory entry named `emuera.config`, ignoring ASCII case.
pub open spec fn first_config_name(names: Seq<String>, i: int) -> Option<int>
    decreases names.len() - i,
{
    if i < 0 || i >= names.len() {
        None
    } else if eq_ignore_case(names[i]@, "emuera.config"@) {
        Some(i)
    } else {
        first_config_name(names, i + 1)
    }
}

/// Position, among the names of a directory's entries, of the game's
/// configuration file.
pub fn find_config(names: &Vec<String>) -> (r: Option<usize>)
    ensures
        r matches Some(i) ==> first_config_name(names@, 0) == Some(i as int),
        r is None ==> first_config_name(names@, 0) is None,
{
    let mut i: usize = 0;
    while i < names.len()
        invariant
            0 <= i <= names.len(),
            first_config_name(names@, i as int) == first_config_name(names@, 0),
        decreases names.len() - i,
    {
        if eq_ignore_case_str(names[i].as_str(), "emuera.config") {
            return Some(i);
        }
        i += 1;
    }
    None
}

// ---------------------------------------------------------------------------
// Text files
// ---------------------------------------------------------------------------

/// What `String::from_utf8_lossy` gives for some bytes.
pub uninterp spec fn utf8_lossy(bytes: Seq<u8>) -> Seq<char>;

/// `String::from_utf8_lossy`: the bytes decoded as UTF-8, each invalid
/// sequence replaced by U+FFFD.  The contract names the result and claims
/// that it depends on the bytes alone.
#[verifier::external_body]
fn decode_lossy(bytes: &[u8]) -> (r: String)
    ensures
        r@ == utf8_lossy(bytes@),
{
    String::from_utf8_lossy(bytes).into_owned()
}

/// `\r\n` and lone `\r` become `\n`.
pub open spec fn unify_newlines(s: Seq<char>) -> Seq<char>
    decreases s.len(),
{
    if s.len() == 0 {
        s
    } else if s[0] == '\r' && s.len() > 1 && s[1] == '\n' {
        seq!['\n'] + unify_newlines(s.skip(2))
    } else if s[0] == '\r' {
        seq!['\n'] + unify_newlines(s.skip(1))
    } else {
        seq![s[0]] + unify_newlines(s.skip(1))
    }
}

/// The text of a game file: decoded, without leading byte-order marks,
/// with unified line ends.
pub open spec fn file_text(bytes: Seq<u8>) -> Seq<char> {
    unify_newlines(trim_start_char(utf8_lossy(bytes), bom()))
}

/// Decodes the bytes of a game file (see `file_text`).
pub fn decode_text(bytes: &[u8]) -> (r: String)
    ensures
        r@ == file_text(bytes@),
{
    let decoded = decode_lossy(bytes);
    normalize_text(decoded.as_str())
}

/// Decoded text without leading byte-order marks and with unified line
/// ends.
pub fn normalize_text(decoded: &str) -> (r: String)
    ensures
        r@ == unify_newlines(trim_start_char(decoded@, bom())),
{
    let v = chars_of(decoded);
    let n = v.len();
    assert(v@.subrange(0, n as int) =~= v@);
    let start = skip_char(&v, 0, n, '\u{feff}');
    let ghost s = trim_start_char(decoded@, bom());
    assert(s =~= v@.subrange(start as int, n as int));
    let mut out = String::new();
    let mut i = start;
    while i < n
        invariant
            start <= i <= n,
            n == v@.len(),
            s == v@.subrange(start as int, n as int),
            out@ + unify_newlines(v@.subrange(i as int, n as int)) == unify_newlines(s),
        decreases n - i,
    {
        let ghost rest = v@.subrange(i as int, n as int);
        if v[i] == '\r' && i + 1 < n && v[i + 1] == '\n' {
            assert(rest.skip(2) =~= v@.subrange(i + 2, n as int));
            out.push('\n');
            i += 2;
        } else if v[i] == '\r' {
            assert(rest.skip(1) =~= v@.subrange(i + 1, n as int));
            out.push('\n');
            i += 1;
        } else {
            assert(rest.skip(1) =~= v@.subrange(i + 1, n as int));
            out.push(v[i]);
            i += 1;
        }
        assert(out@ + unify_newlines(v@.subrange(i as int, n as int)) =~= unify_newlines(s));
    }
    assert(unify_newlines(v@.subrange(n as int, n as int)) =~= Seq::<char>::empty());
    out
}

} // verus!
