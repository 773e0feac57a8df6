//! Runtime values, variable addresses, the variable store and the resolver
//! that turns address text into addresses.
use vstd::prelude::*;

use crate::assoc::{AssocMap, ViewKey};
use crate::csv::{lookup_id, CsvCatalog, NameTableView};
use crate::text::{
    chars_of, parse_i64, parse_i64_range, range_eq, split, split_ranges, string_of, trim,
    trim_bounds, upper, upper_vec,
};

verus! {

#[derive(Debug, Clone, PartialEq, Eq)]
pub enum Value {
    Int(i64),
    Str(String),
}

/// The model of a value.
pub enum Val {
    Int(i64),
    Str(Seq<char>),
}

impl View for Value {
    type V = Val;

    open spec fn view(&self) -> Val {
        match self {
            Value::Int(v) => Val::Int(*v),
            Value::Str(s) => Val::Str(s@),
        }
    }
}

impl Default for Value {
    fn default() -> (r: Self)
        ensures
            r == Value::Int(0),
    {
        Value::Int(0)
    }
}

impl Value {
    /// A copy of the value.
    pub fn duplicate(&self) -> (r: Value)
        ensures
            r@ == self@,
    {
        match self {
            Value::Int(v) => Value::Int(*v),
            Value::Str(s) => Value::Str(s.clone()),
        }
    }

    /// Whether two values are equal.
    pub fn same(&self, other: &Value) -> (r: bool)
        ensures
            r == (self@ == other@),
    {
        match (self, other) {
            (Value::Int(a), Value::Int(b)) => *a == *b,
            (Value::Str(a), Value::Str(b)) => *a == *b,
            _ => false,
        }
    }
}

#[derive(Debug, Clone, PartialEq, Eq, Hash)]
pub struct VarAddress {
    pub name: String,
    pub indexes: Vec<i64>,
}

impl View for VarAddress {
    type V = (Seq<char>, Seq<i64>);

    open spec fn view(&self) -> (Seq<char>, Seq<i64>) {
        (self.name@, self.indexes@)
    }
}

impl VarAddress {
    pub fn duplicate(&self) -> (r: VarAddress)
        ensures
            r@ == self@,
    {
        VarAddress { name: self.name.clone(), indexes: self.indexes.clone() }
    }
}

impl ViewKey for VarAddress {
    fn same_key(&self, other: &Self) -> (r: bool) {
        if self.name != other.name || self.indexes.len() != other.indexes.len() {
            return false;
        }
        let mut i: usize = 0;
        while i < self.indexes.len()
            invariant
                self.indexes.len() == other.indexes.len(),
                0 <= i <= self.indexes.len(),
                forall|j: int| 0 <= j < i ==> self.indexes@[j] == other.indexes@[j],
            decreases self.indexes.len() - i,
        {
            if self.indexes[i] != other.indexes[i] {
                return false;
            }
            i += 1;
        }
        assert(self.indexes@ =~= other.indexes@);
        true
    }
}

/// Names whose variables hold text: they read as empty text until set.
pub open spec fn is_text_variable(name: Seq<char>) -> bool {
    let u = upper(name);
    ||| u == "RESULTS"@
    ||| u == "NAME"@
    ||| u == "CALLNAME"@
    ||| u == "NICKNAME"@
    ||| u == "MASTERNAME"@
    ||| u == "CSTR"@
    ||| u == "STR"@
    ||| u == "TSTR"@
}

/// The value of a variable that was never set.
pub open spec fn default_value(name: Seq<char>) -> Val {
    if is_text_variable(name) {
        Val::Str(seq![])
    } else {
        Val::Int(0)
    }
}

fn default_value_for(name: &str) -> (r: Value)
    ensures
        r@ == default_value(name@),
{
    let v = chars_of(name);
    let u = upper_vec(&v);
    let n = u.len();
    assert(u@.subrange(0, n as int) =~= u@);
    if range_eq(&u, 0, n, "RESULTS") || range_eq(&u, 0, n, "NAME") || range_eq(
        &u,
        0,
        n,
        "CALLNAME",
    ) || range_eq(&u, 0, n, "NICKNAME") || range_eq(&u, 0, n, "MASTERNAME") || range_eq(
        &u,
        0,
        n,
        "CSTR",
    ) || range_eq(&u, 0, n, "STR") || range_eq(&u, 0, n, "TSTR") {
        let r = Value::Str(String::new());
        assert(r@ == Val::Str(seq![]));
        r
    } else {
        Value::Int(0)
    }
}

/// Variables set so far.
#[derive(Debug)]
pub struct VarStore {
    values: AssocMap<VarAddress, Value>,
}

impl View for VarStore {
    type V = Map<(Seq<char>, Seq<i64>), Val>;

    closed spec fn view(&self) -> Map<(Seq<char>, Seq<i64>), Val> {
        self.values@
    }
}

/// The value read at an address: the stored value, or the default for the
/// variable's name.
pub open spec fn store_get(store: Map<(Seq<char>, Seq<i64>), Val>, address: (Seq<char>, Seq<i64>)) -> Val {
    if store.contains_key(address) {
        store[address]
    } else {
        default_value(address.0)
    }
}

impl Default for VarStore {
    fn default() -> (r: Self)
        ensures
            r@ == Map::<(Seq<char>, Seq<i64>), Val>::empty(),
    {
        VarStore { values: AssocMap::new() }
    }
}

impl VarStore {
    pub fn new() -> (r: Self)
        ensures
            r@ == Map::<(Seq<char>, Seq<i64>), Val>::empty(),
    {
        VarStore { values: AssocMap::new() }
    }

    pub fn get(&self, address: &VarAddress) -> (r: Value)
        ensures
            r@ == store_get(self@, address@),
    {
        match self.values.get(address) {
            Some(v) => v.duplicate(),
            None => default_value_for(address.name.as_str()),
        }
    }

    pub fn set(&mut self, address: VarAddress, value: Value)
        ensures
            final(self)@ == old(self)@.insert(address@, value@),
    {
        self.values.insert(address, value);
    }

    /// Number of addresses that were set.
    pub fn len(&self) -> (r: usize)
        ensures
            r == self@.dom().len(),
            self@.dom().finite(),
    {
        self.values.len()
    }
}

// ---------------------------------------------------------------------------
// Address resolution
// ---------------------------------------------------------------------------

/// Symbolic indexes of character-scoped variables; they all stand for 0.
pub open spec fn is_character_alias(part: Seq<char>) -> bool {
    let u = upper(part);
    u == "MASTER"@ || u == "TARGET"@ || u == "ARG"@ || u == "ASSI"@
}

/// An index part of an address: a number, a name from the CSV name table of
/// the variable, or a character alias.
pub open spec fn index_value(
    tables: Map<Seq<char>, NameTableView>,
    name: Seq<char>,
    part: Seq<char>,
) -> Option<i64> {
    if part.len() == 0 {
        None
    } else {
        match parse_i64(part) {
            Some(v) => Some(v),
            None => match lookup_id(tables, name, part) {
                Some(v) => Some(v),
                None => if is_character_alias(part) {
                    Some(0)
                } else {
                    None
                },
            },
        }
    }
}

/// The indexes of the parts after the name, each trimmed.
pub open spec fn index_values(
    tables: Map<Seq<char>, NameTableView>,
    name: Seq<char>,
    parts: Seq<Seq<char>>,
) -> Option<Seq<i64>>
    decreases parts.len(),
{
    if parts.len() == 0 {
        Some(seq![])
    } else {
        match index_value(tables, name, trim(parts[0])) {
            None => None,
            Some(v) => match index_values(tables, name, parts.drop_first()) {
                None => None,
                Some(rest) => Some(seq![v] + rest),
            },
        }
    }
}

/// `NAME:INDEX:...`: the name is upper-cased and must not be empty.
pub open spec fn address_of(tables: Map<Seq<char>, NameTableView>, text: Seq<char>) -> Option<
    (Seq<char>, Seq<i64>),
> {
    let parts = split(text, ':');
    let name = trim(parts[0]);
    if name.len() == 0 {
        None
    } else {
        match index_values(tables, upper(name), parts.drop_first()) {
            None => None,
            Some(indexes) => Some((upper(name), indexes)),
        }
    }
}

#[derive(Debug, Clone)]
pub struct VarResolver<'a> {
    csv: &'a CsvCatalog,
}

impl<'a> VarResolver<'a> {
    pub fn new(csv: &'a CsvCatalog) -> (r: Self)
        ensures
            r.catalog() == csv,
    {
        VarResolver { csv }
    }

    pub closed spec fn catalog(&self) -> &'a CsvCatalog {
        self.csv
    }

    /// The name tables the resolver reads.
    pub open spec fn tables(&self) -> Map<Seq<char>, NameTableView> {
        self.catalog().name_tables@
    }

    pub fn csv(&self) -> (r: &'a CsvCatalog)
        ensures
            r == self.catalog(),
    {
        self.csv
    }

    fn parse_index(&self, name: &str, v: &Vec<char>, lo: usize, hi: usize) -> (r: Option<i64>)
        requires
            lo <= hi <= v.len(),
        ensures
            r == index_value(self.tables(), name@, v@.subrange(lo as int, hi as int)),
    {
        if lo == hi {
            return None;
        }
        if let Some(value) = parse_i64_range(v, lo, hi) {
            return Some(value);
        }
        let part = string_of(v, lo, hi);
        if let Some(value) = self.csv.resolve_name(name, part.as_str()) {
            return Some(value);
        }
        let p = sub_upper(v, lo, hi);
        let n = p.len();
        assert(p@.subrange(0, n as int) =~= p@);
        if range_eq(&p, 0, n, "MASTER") || range_eq(&p, 0, n, "TARGET") || range_eq(
            &p,
            0,
            n,
            "ARG",
        ) || range_eq(&p, 0, n, "ASSI") {
            Some(0)
        } else {
            None
        }
    }

    /// The address written as `NAME:INDEX:...`.
    pub fn parse_address(&self, text: &str) -> (r: Option<VarAddress>)
        ensures
            r matches Some(a) ==> address_of(self.tables(), text@) == Some(a@),
            r is None ==> address_of(self.tables(), text@) is None,
    {
        let v = chars_of(text);
        assert(v@.subrange(0, v.len() as int) =~= v@);
        let ranges = split_ranges(&v, 0, v.len(), ':');
        let ghost parts = split(v@, ':');
        let (a, b) = trim_bounds(&v, ranges[0].0, ranges[0].1);
        if a == b {
            return None;
        }
        let upper_name = sub_upper(&v, a, b);
        let name = string_of(&upper_name, 0, upper_name.len());
        assert(upper_name@.subrange(0, upper_name.len() as int) =~= upper_name@);
        let mut indexes: Vec<i64> = Vec::new();
        let mut k: usize = 1;
        let ghost goal = index_values(self.tables(), name@, parts.drop_first());
        assert(parts.drop_first().skip(0) =~= parts.drop_first());
        assert(name@ == upper(trim(parts[0])));
        assert(address_of(self.tables(), text@) == match goal {
            None => None::<(Seq<char>, Seq<i64>)>,
            Some(ix) => Some((name@, ix)),
        });
        while k < ranges.len()
            invariant
                1 <= k <= ranges.len(),
                ranges@.len() == parts.len(),
                parts == split(v@, ':'),
                forall|j: int|
                    0 <= j < ranges@.len() ==> {
                        &&& 0 <= (#[trigger] ranges@[j]).0 <= ranges@[j].1 <= v@.len()
                        &&& v@.subrange(ranges@[j].0 as int, ranges@[j].1 as int) == parts[j]
                    },
                goal == index_values(self.tables(), name@, parts.drop_first()),
                address_of(self.tables(), text@) == match goal {
                    None => None::<(Seq<char>, Seq<i64>)>,
                    Some(ix) => Some((name@, ix)),
                },
                goal == match index_values(self.tables(), name@, parts.drop_first().skip(k - 1)) {
                    None => None::<Seq<i64>>,
                    Some(rest) => Some(indexes@ + rest),
                },
            decreases ranges.len() - k,
        {
            let (lo, hi) = ranges[k];
            let (c, d) = trim_bounds(&v, lo, hi);
            let ghost rest = parts.drop_first().skip(k - 1);
            assert(rest[0] == parts[k as int]);
            assert(rest.drop_first() =~= parts.drop_first().skip(k as int));
            match self.parse_index(name.as_str(), &v, c, d) {
                None => {
                    return None;
                },
                Some(x) => {
                    let ghost before = indexes@;
                    indexes.push(x);
                    proof {
                        match index_values(self.tables(), name@, rest.drop_first()) {
                            None => {},
                            Some(tail) => {
                                assert(before + (seq![x] + tail) =~= indexes@ + tail);
                            },
                        }
                    }
                },
            }
            k += 1;
        }
        assert(parts.drop_first().skip(ranges.len() - 1) =~= Seq::<Seq<char>>::empty());
        assert(indexes@ + Seq::<i64>::empty() =~= indexes@);
        Some(VarAddress { name, indexes })
    }
}

/// The upper-cased copy of `v[lo..hi]`.
pub fn sub_upper(v: &Vec<char>, lo: usize, hi: usize) -> (r: Vec<char>)
    requires
        lo <= hi <= v.len(),
    ensures
        r@ == upper(v@.subrange(lo as int, hi as int)),
{
    let s = crate::text::sub_vec(v, lo, hi);
    upper_vec(&s)
}

} // verus!
