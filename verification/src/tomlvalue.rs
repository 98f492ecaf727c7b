//! A project description after parsing: tables, lists and texts, and the
//! typed reads that report a missing or ill-typed field.

use vstd::prelude::*;
use crate::ClinkError;

verus! {

/// A value of a description.
#[derive(Debug, PartialEq, Eq)]
pub enum ConfigValue {
    Text(String),
    List(Vec<ConfigValue>),
    Table(ConfigTable),
    /// A number, a truth value or a date: nothing that a description of a
    /// project is read for.
    Other,
}

/// A key of a table with its value.
#[derive(Debug, PartialEq, Eq)]
pub struct ConfigEntry {
    pub key: String,
    pub value: ConfigValue,
}

/// A table: keys with their values, in the order in which they were
/// handed over. The first entry under a key is the one that is read.
#[derive(Debug, PartialEq, Eq)]
pub struct ConfigTable {
    pub entries: Vec<ConfigEntry>,
}

/// What a value says, apart from how it is held in memory.
pub enum Model {
    Text(Seq<char>),
    List(Seq<Model>),
    Table(Seq<(Seq<char>, Model)>),
    Other,
}

impl ConfigValue {
    /// What the value says.
    pub open spec fn model(self) -> Model
        decreases self,
    {
        match self {
            ConfigValue::Text(s) => Model::Text(s@),
            ConfigValue::List(items) => Model::List(
                Seq::new(
                    items@.len(),
                    |i: int|
                        if 0 <= i < items@.len() {
                            items@[i].model()
                        } else {
                            Model::Other
                        },
                ),
            ),
            ConfigValue::Table(t) => Model::Table(
                Seq::new(
                    t.entries@.len(),
                    |i: int|
                        if 0 <= i < t.entries@.len() {
                            (t.entries@[i].key@, t.entries@[i].value.model())
                        } else {
                            (Seq::empty(), Model::Other)
                        },
                ),
            ),
            ConfigValue::Other => Model::Other,
        }
    }
}

/// The place of the first entry under `key`, or -1.
pub open spec fn index_of_key(entries: Seq<ConfigEntry>, key: Seq<char>) -> int
    decreases entries.len(),
{
    if entries.len() == 0 {
        -1
    } else if index_of_key(entries.drop_last(), key) >= 0 {
        index_of_key(entries.drop_last(), key)
    } else if entries.last().key@ == key {
        entries.len() - 1
    } else {
        -1
    }
}

/// `index_of_key` finds the first entry under the key wherever there is one.
pub proof fn lemma_index_of_key(entries: Seq<ConfigEntry>, key: Seq<char>)
    ensures
        -1 <= index_of_key(entries, key) < entries.len(),
        index_of_key(entries, key) >= 0 ==> entries[index_of_key(entries, key)].key@ == key,
        forall|j: int|
            0 <= j < index_of_key(entries, key) ==> (#[trigger] entries[j]).key@ != key,
        index_of_key(entries, key) < 0 ==> forall|j: int|
            0 <= j < entries.len() ==> (#[trigger] entries[j]).key@ != key,
    decreases entries.len(),
{
    if entries.len() > 0 {
        lemma_index_of_key(entries.drop_last(), key);
        assert forall|j: int| 0 <= j < index_of_key(entries, key) implies (#[trigger] entries[j]).key@
            != key by {
            assert(entries.drop_last()[j] == entries[j]);
        }
        if index_of_key(entries, key) < 0 {
            assert forall|j: int| 0 <= j < entries.len() implies (#[trigger] entries[j]).key@
                != key by {
                if j < entries.len() - 1 {
                    assert(entries.drop_last()[j] == entries[j]);
                }
            }
        }
    }
}

/// What is reported of a key that a table lacks.
pub open spec fn missing_message(name: Seq<char>) -> Seq<char> {
    "Cannot find \""@ + name + "\" in toml"@
}

/// What is reported of a value that is not of the expected kind.
pub open spec fn kind_message(name: Seq<char>, expected: Seq<char>) -> Seq<char> {
    name + " is invalid type (expected "@ + expected + ")"@
}

impl ConfigTable {
    /// The value under `key`, if the table has one.
    pub open spec fn lookup(self, key: Seq<char>) -> Option<ConfigValue> {
        let i = index_of_key(self.entries@, key);
        if i < 0 {
            None
        } else {
            Some(self.entries@[i].value)
        }
    }

    /// The value under `key`, if the table has one.
    pub fn get(&self, key: &str) -> (r: Option<&ConfigValue>)
        ensures
            match r {
                Some(v) => self.lookup(key@) == Some(*v),
                None => self.lookup(key@).is_none(),
            },
    {
        let mut i: usize = 0;
        while i < self.entries.len()
            invariant
                i <= self.entries@.len(),
                forall|j: int| 0 <= j < i ==> (#[trigger] self.entries@[j]).key@ != key@,
            decreases self.entries@.len() - i,
        {
            if crate::text::same_text(self.entries[i].key.as_str(), key) {
                proof {
                    lemma_index_of_key(self.entries@, key@);
                }
                return Some(&self.entries[i].value);
            }
            i += 1;
        }
        proof {
            lemma_index_of_key(self.entries@, key@);
        }
        None
    }
}

/// An error that says that `name` is not of the expected kind.
pub(crate) fn wrong_kind(value_name: &str, expected: &str) -> (e: ClinkError)
    ensures
        e matches ClinkError::ConfigMalformed(text) && text@ == kind_message(
            value_name@,
            expected@,
        ),
{
    let mut text = value_name.to_owned();
    text.append(" is invalid type (expected ");
    text.append(expected);
    text.append(")");
    ClinkError::ConfigMalformed(text)
}

/// The value under `value_name`, which the table must have.
pub fn toml_value<'a>(table: &'a ConfigTable, value_name: &str) -> (r: Result<&'a ConfigValue, ClinkError>)
    ensures
        match table.lookup(value_name@) {
            Some(v) => r matches Ok(found) && *found == v,
            None => r matches Err(ClinkError::ConfigMalformed(text)) && text@ == missing_message(
                value_name@,
            ),
        },
{
    match table.get(value_name) {
        Some(v) => Ok(v),
        None => {
            let mut text = "Cannot find \"".to_owned();
            text.append(value_name);
            text.append("\" in toml");
            Err(ClinkError::ConfigMalformed(text))
        },
    }
}

/// The table that `value` must be.
pub fn toml_table<'a>(value: &'a ConfigValue, value_name: &str) -> (r: Result<&'a ConfigTable, ClinkError>)
    ensures
        match *value {
            ConfigValue::Table(t) => r matches Ok(found) && *found == t,
            _ => r matches Err(ClinkError::ConfigMalformed(text)) && text@ == kind_message(
                value_name@,
                "table"@,
            ),
        },
{
    match value {
        ConfigValue::Table(t) => Ok(t),
        _ => Err(wrong_kind(value_name, "table")),
    }
}

/// The text that `value` must be.
pub fn toml_str<'a>(value: &'a ConfigValue, value_name: &str) -> (r: Result<&'a str, ClinkError>)
    ensures
        match *value {
            ConfigValue::Text(s) => r matches Ok(found) && found@ == s@,
            _ => r matches Err(ClinkError::ConfigMalformed(text)) && text@ == kind_message(
                value_name@,
                "string"@,
            ),
        },
{
    match value {
        ConfigValue::Text(s) => Ok(s.as_str()),
        _ => Err(wrong_kind(value_name, "string")),
    }
}

/// The list that `value` must be.
pub fn toml_slice<'a>(value: &'a ConfigValue, value_name: &str) -> (r: Result<&'a Vec<ConfigValue>, ClinkError>)
    ensures
        match *value {
            ConfigValue::List(items) => r matches Ok(found) && *found == items,
            _ => r matches Err(ClinkError::ConfigMalformed(text)) && text@ == kind_message(
                value_name@,
                "array"@,
            ),
        },
{
    match value {
        ConfigValue::List(items) => Ok(items),
        _ => Err(wrong_kind(value_name, "array")),
    }
}

/// The table under `value_name`, or what is wrong with it.
pub open spec fn table_under(table: ConfigTable, name: Seq<char>) -> Result<ConfigTable, Seq<char>> {
    match table.lookup(name) {
        None => Err(missing_message(name)),
        Some(ConfigValue::Table(t)) => Ok(t),
        Some(_) => Err(kind_message(name, "table"@)),
    }
}

/// The text under `value_name`, or what is wrong with it.
pub open spec fn text_under(table: ConfigTable, name: Seq<char>) -> Result<Seq<char>, Seq<char>> {
    match table.lookup(name) {
        None => Err(missing_message(name)),
        Some(ConfigValue::Text(s)) => Ok(s@),
        Some(_) => Err(kind_message(name, "string"@)),
    }
}

/// The table under `value_name`, which the table must have.
pub fn toml_value_table<'a>(table: &'a ConfigTable, value_name: &str) -> (r: Result<
    &'a ConfigTable,
    ClinkError,
>)
    ensures
        match table_under(*table, value_name@) {
            Ok(t) => r matches Ok(found) && *found == t,
            Err(message) => r matches Err(ClinkError::ConfigMalformed(text)) && text@ == message,
        },
{
    match toml_value(table, value_name) {
        Ok(value) => toml_table(value, value_name),
        Err(e) => Err(e),
    }
}

/// The text under `value_name`, which the table must have.
pub fn toml_value_str<'a>(table: &'a ConfigTable, value_name: &str) -> (r: Result<&'a str, ClinkError>)
    ensures
        match text_under(*table, value_name@) {
            Ok(s) => r matches Ok(found) && found@ == s,
            Err(message) => r matches Err(ClinkError::ConfigMalformed(text)) && text@ == message,
        },
{
    match toml_value(table, value_name) {
        Ok(value) => toml_str(value, value_name),
        Err(e) => Err(e),
    }
}

/// The texts of a list of paths, or what is wrong with the first item
/// that is no text.
pub open spec fn path_items(items: Seq<ConfigValue>, name: Seq<char>) -> Result<
    Seq<Seq<char>>,
    Seq<char>,
>
    decreases items.len(),
{
    if items.len() == 0 {
        Ok(Seq::empty())
    } else {
        match path_items(items.drop_last(), name) {
            Err(message) => Err(message),
            Ok(paths) => match items.last() {
                ConfigValue::Text(s) => Ok(paths.push(s@)),
                _ => Err(kind_message(name + "_value"@, "string"@)),
            },
        }
    }
}

/// The paths under `value_name`: those of the list that stands there, the
/// default where the table has no such key.
pub open spec fn paths_under(table: ConfigTable, name: Seq<char>, default: Seq<Seq<char>>) -> Result<
    Seq<Seq<char>>,
    Seq<char>,
> {
    match table.lookup(name) {
        None => Ok(default),
        Some(ConfigValue::List(items)) => path_items(items@, name),
        Some(_) => Err(kind_message(name, "array"@)),
    }
}

/// The paths under `value_name`, or `default` where the table has no such
/// key.
pub fn toml_read_paths(table: &ConfigTable, value_name: &str, default: Vec<String>) -> (r: Result<
    Vec<String>,
    ClinkError,
>)
    ensures
        match paths_under(*table, value_name@, crate::text::texts(default@)) {
            Ok(paths) => r matches Ok(found) && crate::text::texts(found@) == paths,
            Err(message) => r matches Err(ClinkError::ConfigMalformed(text)) && text@ == message,
        },
{
    match table.get(value_name) {
        None => Ok(default),
        Some(value) => {
            let items = match toml_slice(value, value_name) {
                Ok(items) => items,
                Err(e) => {
                    return Err(e);
                },
            };
            let mut item_name = value_name.to_owned();
            item_name.append("_value");
            let mut paths: Vec<String> = Vec::new();
            let mut i: usize = 0;
            assert(items@.take(0) =~= Seq::empty());
            assert(crate::text::texts(paths@) =~= Seq::empty());
            while i < items.len()
                invariant
                    i <= items@.len(),
                    item_name@ == value_name@ + "_value"@,
                    table.lookup(value_name@) == Some(ConfigValue::List(*items)),
                    path_items(items@.take(i as int), value_name@) == Ok::<
                        Seq<Seq<char>>,
                        Seq<char>,
                    >(crate::text::texts(paths@)),
                decreases items@.len() - i,
            {
                proof {
                    assert(items@.take(i + 1).drop_last() =~= items@.take(i as int));
                }
                match toml_str(&items[i], item_name.as_str()) {
                    Ok(s) => {
                        let ghost before = paths@;
                        paths.push(s.to_owned());
                        assert(crate::text::texts(paths@) =~= crate::text::texts(before).push(s@));
                    },
                    Err(e) => {
                        proof {
                            lemma_path_items_fail_early(items@, i + 1, value_name@);
                        }
                        return Err(e);
                    },
                }
                i += 1;
            }
            assert(items@.take(i as int) =~= items@);
            Ok(paths)
        },
    }
}

/// What is wrong with the beginning of a list is wrong with the list.
pub proof fn lemma_path_items_fail_early(items: Seq<ConfigValue>, n: int, name: Seq<char>)
    requires
        0 <= n <= items.len(),
        path_items(items.take(n), name) is Err,
    ensures
        path_items(items, name) == path_items(items.take(n), name),
    decreases items.len(),
{
    if n < items.len() {
        assert(items.drop_last().take(n) =~= items.take(n));
        lemma_path_items_fail_early(items.drop_last(), n, name);
    } else {
        assert(items.take(n) =~= items);
    }
}

/// `toml::Value`, of which nothing is seen but what the functions below
/// say.
#[verifier::external_type_specification]
#[verifier::external_body]
pub struct ExTomlValue(toml::Value);

/// What a value of the parser says.
pub uninterp spec fn value_model(v: toml::Value) -> Model;

/// What the parser makes of a text: the table it reads, or nothing where
/// the text is no description.
pub uninterp spec fn parsed(text: Seq<char>) -> Option<Model>;

/// `str::parse` into a `toml::Table`, wrapped as a value: the table that
/// the text holds, or the parser's message.
#[verifier::external_body]
pub(crate) fn parse_document(text: &str) -> (r: Result<toml::Value, String>)
    ensures
        match r {
            Ok(v) => parsed(text@) == Some(value_model(v)) && value_model(v) is Table,
            Err(_) => parsed(text@).is_none(),
        },
{
    text.parse::<toml::Table>().map(toml::Value::Table).map_err(|e| e.to_string())
}

/// `toml::Value::as_str`: the text of a value that is a string, and
/// nothing for any other value.
#[verifier::external_body]
pub(crate) fn text_of(v: &toml::Value) -> (r: Option<String>)
    ensures
        match r {
            Some(s) => value_model(*v) == Model::Text(s@),
            None => !(value_model(*v) is Text),
        },
{
    v.as_str().map(String::from)
}

/// `toml::Value::as_array`: the items of a value that is an array, and
/// nothing for any other value.
#[verifier::external_body]
pub(crate) fn items_of(v: &toml::Value) -> (r: Option<&Vec<toml::Value>>)
    ensures
        match r {
            Some(items) => {
                &&& value_model(*v) matches Model::List(list)
                &&& list.len() == items@.len()
                &&& forall|i: int|
                    0 <= i < list.len() ==> list[i] == value_model(#[trigger] items@[i])
            },
            None => !(value_model(*v) is List),
        },
{
    v.as_array()
}

/// `toml::Value::as_table` and `toml::map::Map::iter`: the keys of a value
/// that is a table, each with its value, in the order in which the table
/// hands them out; nothing for any other value.
#[verifier::external_body]
pub(crate) fn entries_of(v: &toml::Value) -> (r: Option<Vec<(&String, &toml::Value)>>)
    ensures
        match r {
            Some(entries) => {
                &&& value_model(*v) matches Model::Table(table)
                &&& table.len() == entries@.len()
                &&& forall|i: int|
                    0 <= i < table.len() ==> table[i] == (
                        (*(#[trigger] entries@[i]).0)@,
                        value_model(*entries@[i].1),
                    )
            },
            None => !(value_model(*v) is Table),
        },
{
    v.as_table().map(|t| t.iter().collect())
}

/// A value of the parser as the library reads it.
pub fn from_toml(v: &toml::Value) -> (out: ConfigValue)
    ensures
        out.model() == value_model(*v),
    decreases value_model(*v),
{
    match text_of(v) {
        Some(s) => {
            return ConfigValue::Text(s);
        },
        None => {},
    }
    match items_of(v) {
        Some(items) => {
            let ghost list = value_model(*v)->List_0;
            let mut out: Vec<ConfigValue> = Vec::new();
            let mut i: usize = 0;
            while i < items.len()
                invariant
                    i <= items@.len(),
                    value_model(*v) == Model::List(list),
                    list.len() == items@.len(),
                    forall|k: int| 0 <= k < list.len() ==> list[k] == value_model(#[trigger] items@[k]),
                    out@.len() == i,
                    forall|k: int| 0 <= k < i ==> (#[trigger] out@[k]).model() == list[k],
                decreases items@.len() - i,
            {
                assert(list[i as int] == value_model(items@[i as int]));
                assert(decreases_to!(value_model(*v) => value_model(*v)->List_0));
                assert(decreases_to!(value_model(*v)->List_0 => value_model(*v)->List_0[i as int]));
                out.push(from_toml(&items[i]));
                i += 1;
            }
            let value = ConfigValue::List(out);
            assert(value.model()->List_0 =~= list);
            return value;
        },
        None => {},
    }
    match entries_of(v) {
        Some(entries) => {
            let ghost table = value_model(*v)->Table_0;
            let mut out: Vec<ConfigEntry> = Vec::new();
            let mut i: usize = 0;
            while i < entries.len()
                invariant
                    i <= entries@.len(),
                    value_model(*v) == Model::Table(table),
                    table.len() == entries@.len(),
                    forall|k: int|
                        0 <= k < table.len() ==> table[k] == (
                            (*(#[trigger] entries@[k]).0)@,
                            value_model(*entries@[k].1),
                        ),
                    out@.len() == i,
                    forall|k: int|
                        0 <= k < i ==> ((#[trigger] out@[k]).key@, out@[k].value.model())
                            == table[k],
                decreases entries@.len() - i,
            {
                assert(table[i as int] == ((*entries@[i as int].0)@, value_model(*entries@[i as int].1)));
                assert(decreases_to!(value_model(*v) => value_model(*v)->Table_0));
                assert(decreases_to!(value_model(*v)->Table_0 => value_model(*v)->Table_0[i as int]));
                assert(decreases_to!(value_model(*v)->Table_0[i as int] => value_model(
                    *v,
                )->Table_0[i as int].1));
                let key = entries[i].0.clone();
                let value = from_toml(entries[i].1);
                out.push(ConfigEntry { key, value });
                i += 1;
            }
            let value = ConfigValue::Table(ConfigTable { entries: out });
            assert(value.model()->Table_0 =~= table);
            value
        },
        None => ConfigValue::Other,
    }
}

/// Whether two tables say the same.
pub open spec fn same_table(a: ConfigTable, b: ConfigTable) -> bool {
    ConfigValue::Table(a).model() == ConfigValue::Table(b).model()
}

/// Tables that say the same have the same keys in the same places, with
/// values that say the same.
pub proof fn lemma_same_table(a: ConfigTable, b: ConfigTable)
    requires
        same_table(a, b),
    ensures
        a.entries@.len() == b.entries@.len(),
        forall|i: int|
            0 <= i < a.entries@.len() ==> (#[trigger] a.entries@[i]).key@ == b.entries@[i].key@
                && a.entries@[i].value.model() == b.entries@[i].value.model(),
{
    let x = ConfigValue::Table(a).model()->Table_0;
    let y = ConfigValue::Table(b).model()->Table_0;
    assert(x == y);
    assert(x.len() == a.entries@.len());
    assert(y.len() == b.entries@.len());
    assert forall|i: int| 0 <= i < a.entries@.len() implies (#[trigger] a.entries@[i]).key@
        == b.entries@[i].key@ && a.entries@[i].value.model() == b.entries@[i].value.model() by {
        assert(x[i] == (a.entries@[i].key@, a.entries@[i].value.model()));
        assert(y[i] == (b.entries@[i].key@, b.entries@[i].value.model()));
    }
}

/// Lists that say the same have as many items, and items that say the same.
pub proof fn lemma_same_list(a: Vec<ConfigValue>, b: Vec<ConfigValue>)
    requires
        ConfigValue::List(a).model() == ConfigValue::List(b).model(),
    ensures
        a@.len() == b@.len(),
        forall|i: int| 0 <= i < a@.len() ==> (#[trigger] a@[i]).model() == b@[i].model(),
{
    let x = ConfigValue::List(a).model()->List_0;
    let y = ConfigValue::List(b).model()->List_0;
    assert(x == y);
    assert(x.len() == a@.len());
    assert(y.len() == b@.len());
    assert forall|i: int| 0 <= i < a@.len() implies (#[trigger] a@[i]).model() == b@[i].model() by {
        assert(x[i] == a@[i].model());
        assert(y[i] == b@[i].model());
    }
}

/// The same keys in the same places are found at the same place.
pub proof fn lemma_same_index(a: Seq<ConfigEntry>, b: Seq<ConfigEntry>, key: Seq<char>)
    requires
        a.len() == b.len(),
        forall|i: int| 0 <= i < a.len() ==> (#[trigger] a[i]).key@ == b[i].key@,
    ensures
        index_of_key(a, key) == index_of_key(b, key),
    decreases a.len(),
{
    if a.len() > 0 {
        assert forall|i: int| 0 <= i < a.len() - 1 implies (#[trigger] a.drop_last()[i]).key@
            == b.drop_last()[i].key@ by {
            assert(a[i].key@ == b[i].key@);
        }
        lemma_same_index(a.drop_last(), b.drop_last(), key);
        assert(a[a.len() - 1].key@ == b[a.len() - 1].key@);
    }
}

/// Tables that say the same hold, under each key, values that say the same.
pub proof fn lemma_same_lookup(a: ConfigTable, b: ConfigTable, key: Seq<char>)
    requires
        same_table(a, b),
    ensures
        a.lookup(key).is_some() == b.lookup(key).is_some(),
        a.lookup(key).is_some() ==> a.lookup(key).unwrap().model() == b.lookup(
            key,
        ).unwrap().model(),
{
    lemma_same_table(a, b);
    lemma_same_index(a.entries@, b.entries@, key);
    lemma_index_of_key(a.entries@, key);
}

/// Lists whose items say the same hold the same paths.
pub proof fn lemma_same_path_items(a: Seq<ConfigValue>, b: Seq<ConfigValue>, name: Seq<char>)
    requires
        a.len() == b.len(),
        forall|i: int| 0 <= i < a.len() ==> (#[trigger] a[i]).model() == b[i].model(),
    ensures
        path_items(a, name) == path_items(b, name),
    decreases a.len(),
{
    if a.len() > 0 {
        assert forall|i: int| 0 <= i < a.len() - 1 implies (#[trigger] a.drop_last()[i]).model()
            == b.drop_last()[i].model() by {
            assert(a[i].model() == b[i].model());
        }
        lemma_same_path_items(a.drop_last(), b.drop_last(), name);
        assert(a[a.len() - 1].model() == b[a.len() - 1].model());
    }
}

/// Tables that say the same hold the same texts, tables that say the same,
/// and the same paths.
pub proof fn lemma_same_reads(
    a: ConfigTable,
    b: ConfigTable,
    name: Seq<char>,
    default: Seq<Seq<char>>,
)
    requires
        same_table(a, b),
    ensures
        text_under(a, name) == text_under(b, name),
        paths_under(a, name, default) == paths_under(b, name, default),
        match (table_under(a, name), table_under(b, name)) {
            (Ok(x), Ok(y)) => same_table(x, y),
            (Err(x), Err(y)) => x == y,
            _ => false,
        },
{
    lemma_same_lookup(a, b, name);
    if a.lookup(name).is_some() {
        let x = a.lookup(name).unwrap();
        let y = b.lookup(name).unwrap();
        assert(x.model() == y.model());
        match x {
            ConfigValue::List(items) => {
                assert(y is List);
                lemma_same_list(items, y->List_0);
                lemma_same_path_items(items@, y->List_0@, name);
            },
            ConfigValue::Text(s) => {
                assert(y is Text);
            },
            ConfigValue::Table(t) => {
                assert(y is Table);
            },
            ConfigValue::Other => {
                assert(y is Other);
            },
        }
    }
}

} // verus!
