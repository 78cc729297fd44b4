//! JSON values, as FFmpeg's tools report them.
use crate::number::Real64;
use crate::text::same_text;
use vstd::prelude::*;

verus! {

/// A JSON value. A number is kept as the nearest double-precision one, and exactly where it is an integer
/// that is not negative.
#[derive(Debug)]
pub enum Json {
    Null,
    Bool(bool),
    Number { unsigned: Option<u64>, double: Real64 },
    Text(String),
    List(Vec<Json>),
    /// Each key with its value.
    Object(Vec<(String, Json)>),
}

/// What a JSON value holds.
pub enum Tree {
    Null,
    Bool(bool),
    Number { unsigned: Option<u64>, double: Real64 },
    Text(Seq<char>),
    List(Seq<Tree>),
    Object(Seq<(Seq<char>, Tree)>),
}

pub open spec fn tree(json: Json) -> Tree
    decreases json,
{
    match json {
        Json::Null => Tree::Null,
        Json::Bool(b) => Tree::Bool(b),
        Json::Number { unsigned, double } => Tree::Number { unsigned, double },
        Json::Text(text) => Tree::Text(text@),
        Json::List(list) => Tree::List(trees(list@)),
        Json::Object(entries) => Tree::Object(entry_trees(entries@)),
    }
}

pub open spec fn trees(list: Seq<Json>) -> Seq<Tree>
    decreases list,
{
    if list.len() == 0 {
        Seq::empty()
    } else {
        trees(list.drop_last()).push(tree(list.last()))
    }
}

pub open spec fn entry_trees(entries: Seq<(String, Json)>) -> Seq<(Seq<char>, Tree)>
    decreases entries,
{
    if entries.len() == 0 {
        Seq::empty()
    } else {
        entry_trees(entries.drop_last()).push((entries.last().0@, tree(entries.last().1)))
    }
}

pub proof fn lemma_trees(list: Seq<Json>)
    ensures
        trees(list).len() == list.len(),
        forall|i: int| 0 <= i < list.len() ==> #[trigger] trees(list)[i] == tree(list[i]),
    decreases list.len(),
{
    if list.len() > 0 {
        lemma_trees(list.drop_last());
    }
}

pub proof fn lemma_entry_trees(entries: Seq<(String, Json)>)
    ensures
        entry_trees(entries).len() == entries.len(),
        forall|i: int|
            0 <= i < entries.len() ==> #[trigger] entry_trees(entries)[i] == (
                entries[i].0@,
                tree(entries[i].1),
            ),
    decreases entries.len(),
{
    if entries.len() > 0 {
        lemma_entry_trees(entries.drop_last());
    }
}

/// The value under a key, the last of it.
pub open spec fn lookup(entries: Seq<(Seq<char>, Tree)>, key: Seq<char>) -> Option<Tree>
    decreases entries.len(),
{
    if entries.len() == 0 {
        None
    } else if entries.last().0 == key {
        Some(entries.last().1)
    } else {
        lookup(entries.drop_last(), key)
    }
}

impl Tree {
    /// The value under a key; null where there is none.
    pub open spec fn member(self, key: Seq<char>) -> Tree {
        match self {
            Tree::Object(entries) => match lookup(entries, key) {
                Some(value) => value,
                None => Tree::Null,
            },
            _ => Tree::Null,
        }
    }

    pub open spec fn text(self) -> Option<Seq<char>> {
        match self {
            Tree::Text(text) => Some(text),
            _ => None,
        }
    }

    pub open spec fn unsigned(self) -> Option<u64> {
        match self {
            Tree::Number { unsigned, .. } => unsigned,
            _ => None,
        }
    }

    /// A number, written as one or as text, if it is finite.
    pub open spec fn number(self) -> Option<Real64> {
        let found = match self {
            Tree::Number { double, .. } => Some(double),
            Tree::Text(text) => Real64::read(text),
            _ => None,
        };
        match found {
            Some(double) if double.finite() => Some(double),
            _ => None,
        }
    }

    /// A whole number over zero, written as one or as text.
    pub open spec fn positive(self) -> Option<u64> {
        let found: Option<u64> = match self {
            Tree::Number { unsigned, .. } => unsigned,
            Tree::Text(text) => match crate::text::unsigned(text, u64::MAX as nat) {
                Some(n) => Some(n as u64),
                None => None,
            },
            _ => None,
        };
        match found {
            Some(n) if n > 0 => Some(n),
            _ => None,
        }
    }
}

impl Json {
    /// The value under a key; null where there is none.
    pub fn get(&self, key: &str) -> (r: &Json)
        ensures
            tree(*r) == tree(*self).member(key@),
    {
        match self {
            Json::Object(entries) => {
                let mut i: usize = entries.len();
                proof {
                    lemma_entry_trees(entries@);
                    assert(entry_trees(entries@).take(i as int) == entry_trees(entries@));
                }
                while i > 0
                    invariant
                        *self == Json::Object(*entries),
                        i <= entries@.len(),
                        entry_trees(entries@).len() == entries@.len(),
                        forall|k: int|
                            0 <= k < entries@.len() ==> #[trigger] entry_trees(entries@)[k] == (
                                entries@[k].0@,
                                tree(entries@[k].1),
                            ),
                        lookup(entry_trees(entries@), key@) == lookup(
                            entry_trees(entries@).take(i as int),
                            key@,
                        ),
                    decreases i,
                {
                    proof {
                        let head = entry_trees(entries@).take(i as int);
                        assert(head.last() == entry_trees(entries@)[i - 1]);
                        assert(head.drop_last() == entry_trees(entries@).take(i - 1));
                    }
                    if same_text(entries[i - 1].0.as_str(), key) {
                        return &entries[i - 1].1;
                    }
                    i = i - 1;
                }
                &Json::Null
            },
            _ => &Json::Null,
        }
    }

    pub fn as_text(&self) -> (r: Option<&str>)
        ensures
            match r {
                Some(text) => tree(*self).text() == Some(text@),
                None => tree(*self).text() is None,
            },
    {
        match self {
            Json::Text(text) => Some(text.as_str()),
            _ => None,
        }
    }

    pub fn is_text(&self, text: &str) -> (r: bool)
        ensures
            r == (tree(*self) == Tree::Text(text@)),
    {
        match self.as_text() {
            Some(own) => same_text(own, text),
            None => false,
        }
    }

    pub fn as_unsigned(&self) -> (r: Option<u64>)
        ensures
            r == tree(*self).unsigned(),
    {
        match self {
            Json::Number { unsigned, .. } => *unsigned,
            _ => None,
        }
    }

    /// A number, written as one or as text, if it is finite.
    pub fn number(&self) -> (r: Option<Real64>)
        ensures
            r == tree(*self).number(),
    {
        let found: Option<Real64> = match self {
            Json::Number { double, .. } => Some(*double),
            Json::Text(text) => {
                let chars: Vec<char> = crate::text::chars_of(text.as_str());
                Real64::parse(chars.as_slice())
            },
            _ => None,
        };
        match found {
            Some(double) => if double.is_finite() {
                Some(double)
            } else {
                None
            },
            None => None,
        }
    }

    /// A whole number over zero, written as one or as text.
    pub fn positive_integer(&self) -> (r: Option<u64>)
        ensures
            r == tree(*self).positive(),
    {
        let found: Option<u64> = match self {
            Json::Number { unsigned, .. } => *unsigned,
            Json::Text(text) => {
                let chars: Vec<char> = crate::text::chars_of(text.as_str());
                crate::text::parse_unsigned(chars.as_slice(), u64::MAX)
            },
            _ => None,
        };
        match found {
            Some(n) => if n > 0 {
                Some(n)
            } else {
                None
            },
            None => None,
        }
    }
}

/// A value of `serde_json`.
#[verifier::external_type_specification]
#[verifier::external_body]
pub struct ExValue(serde_json::Value);

/// A `serde_json::Value` as a value of this module, variant for variant; of a number, what
/// `serde_json::Number`'s `as_u64` and `as_f64` give. Nothing is claimed of the result here:
/// `read_json`, which hands every value through this, names it.
#[verifier::external_body]
fn taken(value: serde_json::Value) -> (r: Json) {
    match value {
        serde_json::Value::Null => Json::Null,
        serde_json::Value::Bool(b) => Json::Bool(b),
        serde_json::Value::Number(n) => Json::Number {
            unsigned: n.as_u64(),
            double: Real64 { bits: n.as_f64().unwrap_or_default().to_bits() },
        },
        serde_json::Value::String(text) => Json::Text(text),
        serde_json::Value::Array(list) => Json::List(list.into_iter().map(taken).collect()),
        serde_json::Value::Object(entries) => Json::Object(
            entries.into_iter().map(|(key, value)| (key, taken(value))).collect(),
        ),
    }
}

/// What `serde_json::from_slice` reads from bytes; none where it fails.
pub uninterp spec fn parsed(bytes: Seq<u8>) -> Option<Tree>;

/// Reads JSON with `serde_json::from_slice`. The value it gives depends on the bytes alone, and
/// is named `parsed`.
#[verifier::external_body]
pub(crate) fn read_json(bytes: &[u8]) -> (r: Option<Json>)
    ensures
        match r {
            Some(json) => parsed(bytes@) == Some(tree(json)),
            None => parsed(bytes@) is None,
        },
{
    serde_json::from_slice(bytes).ok().map(taken)
}

} // verus!
