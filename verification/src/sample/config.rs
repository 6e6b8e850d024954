//! Configuration values and the configuration itself.

use vstd::prelude::*;
use crate::assoc::{
    assoc, lemma_assoc_absent, lemma_assoc_at, lemma_assoc_insert, lemma_assoc_len,
    lemma_assoc_update,
};
use crate::sample::parser::{parse, parsed, Fault, ParseError};
use crate::text::{chars_of, push_signed_decimal, same, signed_decimal};

verus! {

/// A configuration value, as contracts speak of it.
pub enum Datum {
    Text(Seq<char>),
    Number(int),
    Flag(bool),
}

/// A configuration value: a string, an integer, or a boolean.
#[derive(Clone, Debug, PartialEq, Eq)]
pub enum Value {
    Str(String),
    Int(i64),
    Bool(bool),
}

impl View for Value {
    type V = Datum;

    open spec fn view(&self) -> Datum {
        match self {
            Value::Str(s) => Datum::Text(s@),
            Value::Int(n) => Datum::Number(*n as int),
            Value::Bool(b) => Datum::Flag(*b),
        }
    }
}

impl DeepView for Value {
    type V = Datum;

    open spec fn deep_view(&self) -> Datum {
        self@
    }
}

impl Datum {
    /// The value as it is shown: a string as it is, an integer in decimal, a
    /// boolean as `true` or `false`.
    pub open spec fn shown(self) -> Seq<char> {
        match self {
            Datum::Text(s) => s,
            Datum::Number(n) => signed_decimal(n),
            Datum::Flag(b) => if b {
                "true"@
            } else {
                "false"@
            },
        }
    }
}

impl Value {
    /// The string, if the value is one.
    pub fn as_str(&self) -> (s: Option<&str>)
        ensures
            s.deep_view() == match self@ {
                Datum::Text(text) => Some(text),
                _ => None,
            },
    {
        match self {
            Value::Str(s) => Some(s.as_str()),
            _ => None,
        }
    }

    /// The integer, if the value is one.
    pub fn as_int(&self) -> (n: Option<i64>)
        ensures
            n == match self@ {
                Datum::Number(number) => Some(number as i64),
                _ => None,
            },
    {
        match self {
            Value::Int(n) => Some(*n),
            _ => None,
        }
    }

    /// The boolean, if the value is one.
    pub fn as_bool(&self) -> (b: Option<bool>)
        ensures
            b == match self@ {
                Datum::Flag(flag) => Some(flag),
                _ => None,
            },
    {
        match self {
            Value::Bool(b) => Some(*b),
            _ => None,
        }
    }

    /// A copy of the value.
    pub fn duplicate(&self) -> (copy: Value)
        ensures
            copy@ == self@,
    {
        match self {
            Value::Str(s) => Value::Str(s.clone()),
            Value::Int(n) => Value::Int(*n),
            Value::Bool(b) => Value::Bool(*b),
        }
    }

    /// The value as it is shown.
    pub fn render(&self) -> (out: String)
        ensures
            out@ == self@.shown(),
    {
        let mut out = String::new();
        match self {
            Value::Str(s) => {
                out.append(s.as_str());
                assert(out@ =~= s@);
            },
            Value::Int(n) => {
                push_signed_decimal(&mut out, *n);
                assert(out@ =~= signed_decimal(*n as int));
            },
            Value::Bool(b) => {
                if *b {
                    out.append("true");
                    assert(out@ =~= "true"@);
                } else {
                    out.append("false");
                    assert(out@ =~= "false"@);
                }
            },
        }
        out
    }
}

/// Why a configuration could not be loaded, as contracts speak of it.
pub enum LoadFault {
    Io(Seq<char>),
    Parse(Fault),
}

/// Why a configuration could not be loaded.
#[derive(Clone, Debug, PartialEq, Eq)]
pub enum ConfigError {
    /// The file could not be read; the text is the system's report.
    Io(String),
    /// The file's content is not a configuration.
    Parse(ParseError),
}

impl View for ConfigError {
    type V = LoadFault;

    open spec fn view(&self) -> LoadFault {
        match self {
            ConfigError::Io(report) => LoadFault::Io(report@),
            ConfigError::Parse(error) => LoadFault::Parse(error@),
        }
    }
}

impl LoadFault {
    /// The line shown to the user.
    pub open spec fn message(self) -> Seq<char> {
        match self {
            LoadFault::Io(report) => "io error: "@ + report,
            LoadFault::Parse(fault) => "parse error: "@ + fault.message(),
        }
    }
}

impl ConfigError {
    /// The line shown to the user.
    pub fn message(&self) -> (out: String)
        ensures
            out@ == self@.message(),
    {
        let mut out = String::new();
        match self {
            ConfigError::Io(report) => {
                out.append("io error: ");
                out.append(report.as_str());
            },
            ConfigError::Parse(error) => {
                out.append("parse error: ");
                let inner = error.message();
                out.append(inner.as_str());
            },
        }
        out
    }
}

/// What loading comes to: the entries that the file's content holds, or why
/// there are none. A file that could not be read fails with the system's
/// report; a file that was read fails with its first wrong line.
pub open spec fn loaded(content: Result<String, String>) -> Result<
    Map<Seq<char>, Datum>,
    LoadFault,
> {
    match content {
        Err(report) => Err(LoadFault::Io(report@)),
        Ok(text) => match parsed(text@) {
            Ok(entries) => Ok(entries),
            Err(fault) => Err(LoadFault::Parse(fault)),
        },
    }
}

/// A set of configuration entries, each a key with its value. A key has at
/// most one value.
#[derive(Clone, Debug, PartialEq, Eq)]
pub struct Config {
    entries: Vec<(String, Value)>,
}

impl View for Config {
    type V = Map<Seq<char>, Datum>;

    closed spec fn view(&self) -> Map<Seq<char>, Datum> {
        assoc(self.keys(), self.values())
    }
}

impl Config {
    /// The keys, in the order in which they were first set.
    pub closed spec fn keys(&self) -> Seq<Seq<char>> {
        Seq::new(self.entries@.len(), |i: int| self.entries@[i].0@)
    }

    /// The values, in the order of `keys`.
    pub closed spec fn values(&self) -> Seq<Datum> {
        Seq::new(self.entries@.len(), |i: int| self.entries@[i].1@)
    }

    /// The configuration is well formed: no key stands twice.
    pub closed spec fn wf(&self) -> bool {
        self.keys().no_duplicates()
    }

    /// A well-formed configuration has as many keys as values, its map
    /// holds exactly its keys, each with the value at the key's place, and the
    /// map has as many entries as there are keys.
    pub proof fn lemma_entries(&self)
        requires
            self.wf(),
        ensures
            self.keys().no_duplicates(),
            self.keys().len() == self.values().len(),
            self@.dom().finite(),
            self@.len() == self.keys().len(),
            forall|i: int|
                0 <= i < self.keys().len() ==> self@.contains_key(#[trigger] self.keys()[i])
                    && self@[self.keys()[i]] == self.values()[i],
            forall|key: Seq<char>| self@.contains_key(key) ==> self.keys().contains(key),
    {
        lemma_assoc_len(self.keys(), self.values());
        assert forall|i: int| 0 <= i < self.keys().len() implies self@.contains_key(
            #[trigger] self.keys()[i],
        ) && self@[self.keys()[i]] == self.values()[i] by {
            lemma_assoc_at(self.keys(), self.values(), i);
        }
    }

    /// Loads a configuration from the content of a file, or from the report
    /// of why the file could not be read.
    pub fn load(content: Result<String, String>) -> (result: Result<Config, ConfigError>)
        ensures
            match result {
                Ok(config) => config.wf() && loaded(content) == Ok::<
                    Map<Seq<char>, Datum>,
                    LoadFault,
                >(config@),
                Err(error) => loaded(content) == Err::<Map<Seq<char>, Datum>, LoadFault>(error@),
            },
    {
        match content {
            Err(report) => Err(ConfigError::Io(report)),
            Ok(text) => match parse(text.as_str()) {
                Ok(config) => Ok(config),
                Err(error) => Err(ConfigError::Parse(error)),
            },
        }
    }

    /// The configuration without entries.
    pub fn empty() -> (config: Config)
        ensures
            config.wf(),
            config@ == Map::<Seq<char>, Datum>::empty(),
    {
        let config = Config { entries: Vec::new() };
        assert(config@ =~= Map::<Seq<char>, Datum>::empty());
        config
    }

    /// The index of `key` among the entries.
    fn position(&self, key: &str) -> (found: Option<usize>)
        ensures
            match found {
                Some(i) => i < self.keys().len() && self.keys()[i as int] == key@,
                None => forall|i: int| 0 <= i < self.keys().len() ==> self.keys()[i] != key@,
            },
    {
        let wanted = chars_of(key);
        let mut i: usize = 0;
        while i < self.entries.len()
            invariant
                i <= self.entries.len(),
                wanted@ == key@,
                forall|j: int| 0 <= j < i ==> self.keys()[j] != key@,
            decreases self.entries.len() - i,
        {
            let name = chars_of(self.entries[i].0.as_str());
            if same(&name, &wanted) {
                assert(self.keys()[i as int] == key@);
                return Some(i);
            }
            i += 1;
        }
        None
    }

    /// The value of `key`, if it has one.
    pub fn get(&self, key: &str) -> (value: Option<&Value>)
        requires
            self.wf(),
        ensures
            value.deep_view() == if self@.contains_key(key@) {
                Some(self@[key@])
            } else {
                None
            },
    {
        match self.position(key) {
            Some(i) => {
                proof {
                    lemma_assoc_at(self.keys(), self.values(), i as int);
                }
                Some(&self.entries[i].1)
            },
            None => {
                proof {
                    lemma_assoc_absent(self.keys(), self.values(), key@);
                }
                None
            },
        }
    }

    /// The string that `key` holds.
    pub fn get_str(&self, key: &str) -> (s: &str)
        requires
            self.wf(),
            self@.contains_key(key@),
            self@[key@] is Text,
        ensures
            self@[key@] == Datum::Text(s@),
    {
        match self.get(key) {
            Some(Value::Str(s)) => s.as_str(),
            _ => {
                proof {
                    assert(false);
                }
                ""
            },
        }
    }

    /// The integer that `key` holds.
    pub fn get_int(&self, key: &str) -> (n: i64)
        requires
            self.wf(),
            self@.contains_key(key@),
            self@[key@] is Number,
        ensures
            self@[key@] == Datum::Number(n as int),
    {
        match self.get(key) {
            Some(Value::Int(n)) => *n,
            _ => {
                proof {
                    assert(false);
                }
                0
            },
        }
    }

    /// The boolean that `key` holds.
    pub fn get_bool(&self, key: &str) -> (b: bool)
        requires
            self.wf(),
            self@.contains_key(key@),
            self@[key@] is Flag,
        ensures
            self@[key@] == Datum::Flag(b),
    {
        match self.get(key) {
            Some(Value::Bool(b)) => *b,
            _ => {
                proof {
                    assert(false);
                }
                false
            },
        }
    }

    /// Sets `key` to `value`, in place of the value that it had.
    pub fn set(&mut self, key: &str, value: Value)
        requires
            old(self).wf(),
        ensures
            final(self).wf(),
            final(self)@ == old(self)@.insert(key@, value@),
    {
        let ghost keys = self.keys();
        let ghost values = self.values();
        match self.position(key) {
            Some(i) => {
                self.entries.set(i, (String::from_str(key), value));
                proof {
                    assert(self.keys() =~= keys);
                    assert(self.values() =~= values.update(i as int, value@));
                    lemma_assoc_update(keys, values, i as int, value@);
                }
            },
            None => {
                self.entries.push((String::from_str(key), value));
                proof {
                    let end = keys.len() as int;
                    assert(self.keys() =~= keys.insert(end, key@));
                    assert(self.values() =~= values.insert(end, value@));
                    assert(!keys.contains(key@)) by {
                        lemma_assoc_absent(keys, values, key@);
                    }
                    lemma_assoc_insert(keys, values, end, key@, value@);
                }
            },
        }
    }

    /// The number of entries.
    pub fn len(&self) -> (len: usize)
        requires
            self.wf(),
        ensures
            len == self@.len(),
    {
        proof {
            lemma_assoc_len(self.keys(), self.values());
        }
        self.entries.len()
    }

    /// Whether there is no entry.
    pub fn is_empty(&self) -> (empty: bool)
        requires
            self.wf(),
        ensures
            empty == (self@.len() == 0),
    {
        proof {
            lemma_assoc_len(self.keys(), self.values());
        }
        self.entries.len() == 0
    }

    /// All entries, each key with its value, in the order in which the keys
    /// were first set.
    pub fn iter(&self) -> (entries: Vec<(&str, &Value)>)
        requires
            self.wf(),
        ensures
            entries.len() == self.keys().len(),
            forall|i: int|
                0 <= i < entries.len() ==> (#[trigger] entries@[i]).0@ == self.keys()[i]
                    && entries@[i].1@ == self.values()[i],
    {
        let mut entries: Vec<(&str, &Value)> = Vec::new();
        let mut i: usize = 0;
        while i < self.entries.len()
            invariant
                i <= self.entries.len(),
                entries.len() == i,
                forall|j: int|
                    0 <= j < i ==> (#[trigger] entries@[j]).0@ == self.keys()[j] && entries@[j].1@
                        == self.values()[j],
            decreases self.entries.len() - i,
        {
            entries.push((self.entries[i].0.as_str(), &self.entries[i].1));
            i += 1;
        }
        entries
    }

    /// Merges `other` into this configuration: a key of `other` takes its
    /// value from there.
    pub fn merge(&mut self, other: Config)
        requires
            old(self).wf(),
            other.wf(),
        ensures
            final(self).wf(),
            final(self)@ == old(self)@.union_prefer_right(other@),
    {
        let ghost start = self@;
        let ghost keys = other.keys();
        let ghost values = other.values();
        let mut i: usize = 0;
        proof {
            assert(assoc(keys.take(0), values.take(0)) =~= Map::<Seq<char>, Datum>::empty());
            assert(start.union_prefer_right(Map::<Seq<char>, Datum>::empty()) =~= start);
        }
        while i < other.entries.len()
            invariant
                i <= other.entries.len(),
                self.wf(),
                other.wf(),
                keys == other.keys(),
                values == other.values(),
                self@ == start.union_prefer_right(
                    assoc(keys.take(i as int), values.take(i as int)),
                ),
            decreases other.entries.len() - i,
        {
            let key = other.entries[i].0.as_str();
            let value = other.entries[i].1.duplicate();
            proof {
                let seen_keys = keys.take(i as int);
                let seen_values = values.take(i as int);
                assert(keys[i as int] == key@);
                assert(values[i as int] == value@);
                assert(seen_keys.no_duplicates());
                assert(!seen_keys.contains(key@)) by {
                    if seen_keys.contains(key@) {
                        let j = seen_keys.index_of(key@);
                        assert(0 <= j < seen_keys.len() && seen_keys[j] == key@);
                        assert(keys[j] == keys[i as int]);
                    }
                }
                lemma_assoc_insert(seen_keys, seen_values, i as int, key@, value@);
                assert(keys.take(i + 1) =~= seen_keys.insert(i as int, key@));
                assert(values.take(i + 1) =~= seen_values.insert(i as int, value@));
                let seen = assoc(seen_keys, seen_values);
                assert(start.union_prefer_right(seen).insert(key@, value@)
                    =~= start.union_prefer_right(seen.insert(key@, value@)));
            }
            self.set(key, value);
            i += 1;
        }
        proof {
            assert(keys.take(i as int) =~= keys);
            assert(values.take(i as int) =~= values);
        }
    }
}

impl Default for Config {
    fn default() -> (config: Config)
        ensures
            config.wf(),
            config@ == Map::<Seq<char>, Datum>::empty(),
    {
        Config::empty()
    }
}

} // verus!
