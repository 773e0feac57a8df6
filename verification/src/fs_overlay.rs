//! The case-insensitive overlay of a game directory: which directories are
//! materialised, and where the overlay lives.
use vstd::prelude::*;

use crate::text::{eq_ignore_case, eq_ignore_case_str};

verus! {

/// The resource directories the overlay materialises, in order.
pub open spec fn special_dirs() -> Seq<Seq<char>> {
    seq!["CSV"@, "ERB"@, "DAT"@, "DEBUG"@, "RESOURCES"@, "resources"@]
}

/// The names of the resource directories, in order.
pub fn special_dir_names() -> (r: Vec<&'static str>)
    ensures
        r@.map_values(|s: &str| s@) == special_dirs(),
{
    let r = vec!["CSV", "ERB", "DAT", "DEBUG", "RESOURCES", "resources"];
    assert(r@.map_values(|s: &str| s@) =~= special_dirs());
    r
}

/// Whether `name` is one of the resource directories, ignoring ASCII case.
pub open spec fn special(name: Seq<char>) -> bool {
    exists|i: int| 0 <= i < special_dirs().len() && eq_ignore_case(name, #[trigger] special_dirs()[i])
}

pub fn is_special_dir(name: &str) -> (r: bool)
    ensures
        r == special(name@),
{
    let dirs = special_dir_names();
    let mut i: usize = 0;
    while i < dirs.len()
        invariant
            0 <= i <= dirs.len(),
            dirs@.map_values(|s: &str| s@) == special_dirs(),
            forall|j: int| 0 <= j < i ==> !eq_ignore_case(name@, #[trigger] special_dirs()[j]),
        decreases dirs.len() - i,
    {
        assert(special_dirs()[i as int] == dirs@[i as int]@);
        if eq_ignore_case_str(name, dirs[i]) {
            return true;
        }
        i += 1;
    }
    false
}

/// FNV-1a (64 bits) of some bytes.
pub open spec fn fnv1a(bytes: Seq<u8>) -> u64
    decreases bytes.len(),
{
    if bytes.len() == 0 {
        0xcbf2_9ce4_8422_2325u64
    } else {
        vstd::wrapping::u64_specs::wrapping_mul(
            fnv1a(bytes.drop_last()) ^ (bytes.last() as u64),
            0x0000_0100_0000_01b3u64,
        )
    }
}

/// A lower-case hexadecimal digit.
pub open spec fn hex_char(d: u64) -> char {
    if d < 10 {
        ((d + 48) as u8) as char
    } else {
        ((d + 87) as u8) as char
    }
}

/// Sixteen lower-case hexadecimal digits of `h`, most significant first.
pub open spec fn hex16(h: u64) -> Seq<char> {
    Seq::new(16, |i: int| hex_char((h >> (((15 - i) * 4) as u64)) & 15u64))
}

fn hex_digit(d: u64) -> (r: char)
    requires
        d < 16,
    ensures
        r == hex_char(d),
{
    if d < 10 {
        ((d as u8) + 48u8) as char
    } else {
        ((d as u8) + 87u8) as char
    }
}

/// The name of the overlay directory of a game: the FNV-1a hash of the
/// path's UTF-8 bytes as sixteen hexadecimal digits.
pub fn stable_path_hash(path: &str) -> (r: String)
    ensures
        r@ == hex16(fnv1a(vstd::utf8::encode_utf8(path@))),
{
    let bytes = path.as_bytes();
    let mut hash: u64 = 0xcbf2_9ce4_8422_2325u64;
    let mut i: usize = 0;
    while i < bytes.len()
        invariant
            0 <= i <= bytes@.len(),
            bytes@ == vstd::utf8::encode_utf8(path@),
            hash == fnv1a(bytes@.take(i as int)),
        decreases bytes.len() - i,
    {
        assert(bytes@.take(i + 1).drop_last() =~= bytes@.take(i as int));
        hash = (hash ^ (bytes[i] as u64)).wrapping_mul(0x0000_0100_0000_01b3u64);
        i += 1;
    }
    assert(bytes@.take(bytes@.len() as int) =~= bytes@);
    let mut out = String::new();
    let mut k: usize = 0;
    while k < 16
        invariant
            0 <= k <= 16,
            out@ == hex16(hash).take(k as int),
        decreases 16 - k,
    {
        let shift: u64 = ((15 - k) * 4) as u64;
        let d = (hash >> shift) & 15u64;
        assert(d < 16) by (bit_vector)
            requires
                d == (hash >> shift) & 15u64,
        ;
        out.push(hex_digit(d));
        assert(out@ =~= hex16(hash).take(k + 1));
        k += 1;
    }
    assert(hex16(hash).take(16) =~= hex16(hash));
    out
}

/// The overlay of a game directory.
#[derive(Debug)]
pub struct CaseOverlay {
    root: String,
}

impl CaseOverlay {
    /// The overlay rooted at `root`.
    pub fn new(root: String) -> (r: Self)
        ensures
            r.root_path() == root@,
    {
        CaseOverlay { root }
    }

    pub closed spec fn root_path(&self) -> Seq<char> {
        self.root@
    }

    /// The directory the game runs from.
    pub fn root(&self) -> (r: &str)
        ensures
            r@ == self.root_path(),
    {
        self.root.as_str()
    }
}

} // verus!
