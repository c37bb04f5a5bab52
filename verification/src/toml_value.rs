//! TOML documents as plain values.
use vstd::prelude::*;

use crate::entries::{
    distinct_keys, law_first_entry_with_the_key_gives_its_value, value_of,
};
use crate::text::same_text;

verus! {

/// A calendar date.
#[derive(Debug, Clone, Copy, PartialEq, Eq)]
pub struct TomlDate {
    pub year: u16,
    pub month: u8,
    pub day: u8,
}

/// A time of day.
#[derive(Debug, Clone, Copy, PartialEq, Eq)]
pub struct TomlTime {
    pub hour: u8,
    pub minute: u8,
    pub second: u8,
    pub nanosecond: u32,
}

/// An offset from UTC.
#[derive(Debug, Clone, Copy, PartialEq, Eq)]
pub enum TomlOffset {
    Z,
    Custom { minutes: i16 },
}

/// A date, a time or both, and an offset.
#[derive(Debug, Clone, Copy, PartialEq, Eq)]
pub struct TomlDatetime {
    pub date: Option<TomlDate>,
    pub time: Option<TomlTime>,
    pub offset: Option<TomlOffset>,
}

/// A TOML value.
///
/// Two values are `==` if they are written alike: floats by their text, so that a NaN is `==` to a
/// NaN of the same sign and `0.0` is not `==` to `-0.0`, and tables by their entries in the order
/// in which they stand.
#[derive(Debug, PartialEq)]
pub enum TomlValue {
    String(String),
    Integer(i64),
    /// A float, as TOML writes it.
    Float(String),
    Boolean(bool),
    Datetime(TomlDatetime),
    Array(Vec<TomlValue>),
    /// The keys of a table with their values, in the order of the table.
    Table(Vec<(String, TomlValue)>),
}

/// What a [`TomlValue`] stands for.
#[verifier::ext_equal]
pub enum TomlModel {
    String(Seq<char>),
    Integer(i64),
    Float(Seq<char>),
    Boolean(bool),
    Datetime(TomlDatetime),
    Array(Seq<TomlModel>),
    Table(Seq<(Seq<char>, TomlModel)>),
}

impl TomlValue {
    pub open spec fn view(&self) -> TomlModel
        decreases self,
    {
        match self {
            TomlValue::String(text) => TomlModel::String(text@),
            TomlValue::Integer(n) => TomlModel::Integer(*n),
            TomlValue::Float(text) => TomlModel::Float(text@),
            TomlValue::Boolean(b) => TomlModel::Boolean(*b),
            TomlValue::Datetime(moment) => TomlModel::Datetime(*moment),
            TomlValue::Array(items) => TomlModel::Array(
                Seq::new(
                    items@.len(),
                    |i: int|
                        if 0 <= i < items@.len() {
                            items@[i].view()
                        } else {
                            arbitrary()
                        },
                ),
            ),
            TomlValue::Table(entries) => TomlModel::Table(
                Seq::new(
                    entries@.len(),
                    |i: int|
                        if 0 <= i < entries@.len() {
                            (entries@[i].0@, entries@[i].1.view())
                        } else {
                            arbitrary()
                        },
                ),
            ),
        }
    }
}

/// The keys and values of a list of entries.
pub open spec fn entries_view(entries: Seq<(String, TomlValue)>) -> Seq<(Seq<char>, TomlModel)> {
    entries.map_values(|entry: (String, TomlValue)| (entry.0@, entry.1@))
}

impl TomlModel {
    /// Within no table does a key occur twice.
    pub open spec fn well_formed(self) -> bool
        decreases self,
    {
        match self {
            TomlModel::Array(items) => forall|i: int|
                0 <= i < items.len() ==> (#[trigger] items[i]).well_formed(),
            TomlModel::Table(entries) => {
                &&& distinct_keys(entries)
                &&& forall|i: int|
                    0 <= i < entries.len() ==> (#[trigger] entries[i]).1.well_formed()
            },
            _ => true,
        }
    }

    /// No key of a table holds a dot.
    pub open spec fn dotless_keys(self) -> bool
        decreases self,
    {
        match self {
            TomlModel::Table(entries) => forall|i: int|
                0 <= i < entries.len() ==> {
                    &&& !(#[trigger] entries[i]).0.contains('.')
                    &&& entries[i].1.dotless_keys()
                },
            _ => true,
        }
    }

    /// The value that is reached by following `path` through the tables below this one.
    pub open spec fn at_path(self, path: Seq<Seq<char>>) -> Option<TomlModel>
        decreases path.len(),
    {
        if path.len() == 0 {
            Some(self)
        } else {
            match self {
                TomlModel::Table(entries) => match value_of(entries, path[0]) {
                    Some(nested) => nested.at_path(path.drop_first()),
                    None => None,
                },
                _ => None,
            }
        }
    }
}

/// A table's model holds the keys and values of its entries.
pub proof fn lemma_table_view(entries: Vec<(String, TomlValue)>)
    ensures
        TomlValue::Table(entries)@ == TomlModel::Table(entries_view(entries@)),
{
    assert(TomlValue::Table(entries)@->Table_0 =~= entries_view(entries@));
}

impl Clone for TomlValue {
    fn clone(&self) -> (copy: Self)
        ensures
            copy@ == self@,
        decreases self,
    {
        match self {
            TomlValue::String(text) => TomlValue::String(text.clone()),
            TomlValue::Integer(n) => TomlValue::Integer(*n),
            TomlValue::Float(text) => TomlValue::Float(text.clone()),
            TomlValue::Boolean(b) => TomlValue::Boolean(*b),
            TomlValue::Datetime(moment) => TomlValue::Datetime(*moment),
            TomlValue::Array(items) => {
                let mut copies: Vec<TomlValue> = Vec::new();
                let mut at: usize = 0;
                while at < items.len()
                    invariant
                        *self == TomlValue::Array(*items),
                        at <= items.len(),
                        copies.len() == at,
                        forall|i: int| 0 <= i < at ==> (#[trigger] copies@[i])@ == items@[i]@,
                    decreases items.len() - at,
                {
                    proof {
                        assert(decreases_to!(*self => self->Array_0));
                        assert(decreases_to!(items@ => items@[at as int]));
                    }
                    copies.push(items[at].clone());
                    at = at + 1;
                }
                let copy = TomlValue::Array(copies);
                proof {
                    assert(copy@->Array_0 =~= self@->Array_0);
                }
                copy
            },
            TomlValue::Table(entries) => {
                let mut copies: Vec<(String, TomlValue)> = Vec::new();
                let mut at: usize = 0;
                while at < entries.len()
                    invariant
                        *self == TomlValue::Table(*entries),
                        at <= entries.len(),
                        copies.len() == at,
                        forall|i: int|
                            0 <= i < at ==> (#[trigger] copies@[i]).0@ == entries@[i].0@
                                && copies@[i].1@ == entries@[i].1@,
                    decreases entries.len() - at,
                {
                    proof {
                        assert(decreases_to!(*self => self->Table_0));
                        assert(decreases_to!(entries@ => entries@[at as int]));
                    }
                    copies.push((entries[at].0.clone(), entries[at].1.clone()));
                    at = at + 1;
                }
                let copy = TomlValue::Table(copies);
                proof {
                    assert(copy@->Table_0 =~= self@->Table_0);
                }
                copy
            },
        }
    }
}

/// The value type of the `toml` crate.
#[verifier::external_type_specification]
#[verifier::external_body]
pub struct ExTomlValue(toml::Value);

/// The parse error of the `toml` crate.
#[verifier::external_type_specification]
#[verifier::external_body]
pub struct ExTomlError(toml::de::Error);

/// The date-time type of the `toml` crate.
#[verifier::external_type_specification]
#[verifier::external_body]
pub struct ExTomlDatetime(toml::value::Datetime);

/// The fields of a date-time of the `toml` crate.
pub uninterp spec fn toml_moment(moment: toml::value::Datetime) -> TomlDatetime;

/// What a value of the `toml` crate holds.
pub uninterp spec fn toml_contents(value: toml::Value) -> TomlModel;

/// What `toml::from_str` makes of a text: the entries of the document's table, or the error.
pub uninterp spec fn toml_document(text: Seq<char>) -> Result<
    Seq<(Seq<char>, TomlModel)>,
    toml::de::Error,
>;

/// The message of a parse error of the `toml` crate.
pub uninterp spec fn toml_error_text(error: toml::de::Error) -> Seq<char>;

/// Calls `toml::from_str` for a `toml::Table`, and makes the table a value. The entries of the
/// table, or the error, depend on the text alone.
#[verifier::external_body]
fn read_document(text: &str) -> (document: Result<toml::Value, toml::de::Error>)
    ensures
        match document {
            Ok(value) => toml_document(text@) matches Ok(entries) && toml_contents(value)
                == TomlModel::Table(entries),
            Err(err) => toml_document(text@) matches Err(error) && err == error,
        },
{
    toml::from_str::<toml::Table>(text).map(toml::Value::Table)
}

/// Calls `to_string` of a parse error, which gives its message.
#[verifier::external_body]
fn error_text(err: &toml::de::Error) -> (text: String)
    ensures
        text@ == toml_error_text(*err),
{
    err.to_string()
}

/// A value of the `toml` crate, one level deep.
enum TomlNode<'a> {
    String(&'a String),
    Integer(i64),
    Float { negative: bool, text: String },
    Boolean(bool),
    Datetime(&'a toml::value::Datetime),
    Array(&'a Vec<toml::Value>),
    Table(Vec<(&'a String, &'a toml::Value)>),
}

/// A float as TOML writes it, given its sign and a text in which a NaN has none.
spec fn signed_float(negative: bool, text: Seq<char>) -> Seq<char> {
    if negative && text == "nan"@ {
        "-nan"@
    } else {
        text
    }
}

/// What the values of a list hold.
spec fn items_contents(items: Seq<toml::Value>) -> Seq<TomlModel> {
    items.map_values(|item: toml::Value| toml_contents(item))
}

/// The keys of a list of entries, and what their values hold.
spec fn entries_contents(entries: Seq<(&String, &toml::Value)>) -> Seq<(Seq<char>, TomlModel)> {
    entries.map_values(|entry: (&String, &toml::Value)| (entry.0@, toml_contents(*entry.1)))
}

/// What a node holds.
spec fn node_contents(node: TomlNode) -> TomlModel {
    match node {
        TomlNode::String(text) => TomlModel::String(text@),
        TomlNode::Integer(n) => TomlModel::Integer(n),
        TomlNode::Float { negative, text } => TomlModel::Float(signed_float(negative, text@)),
        TomlNode::Boolean(b) => TomlModel::Boolean(b),
        TomlNode::Datetime(moment) => TomlModel::Datetime(toml_moment(*moment)),
        TomlNode::Array(items) => TomlModel::Array(items_contents(items@)),
        TomlNode::Table(entries) => TomlModel::Table(entries_contents(entries@)),
    }
}

/// Tells the variants of a `toml::Value` apart. The node holds what the value holds: of a float its
/// sign, by `is_sign_negative`, and the text that `to_string` of the value writes, which is without
/// sign for a NaN; an array's items as they stand; and a table's entries as `toml::Table::iter`
/// hands them out. A `toml::Table` is a map, so that no key occurs twice among them.
#[verifier::external_body]
fn open_value<'a>(value: &'a toml::Value) -> (node: TomlNode<'a>)
    ensures
        node_contents(node) == toml_contents(*value),
        node matches TomlNode::Table(entries) ==> distinct_keys(entries_contents(entries@)),
{
    match value {
        toml::Value::String(text) => TomlNode::String(text),
        toml::Value::Integer(n) => TomlNode::Integer(*n),
        toml::Value::Float(float) => TomlNode::Float {
            negative: float.is_sign_negative(),
            text: value.to_string(),
        },
        toml::Value::Boolean(b) => TomlNode::Boolean(*b),
        toml::Value::Datetime(moment) => TomlNode::Datetime(moment),
        toml::Value::Array(items) => TomlNode::Array(items),
        toml::Value::Table(table) => TomlNode::Table(table.iter().collect()),
    }
}

/// Reads the public fields of a `toml::value::Datetime`, each as the integers that it is made of.
#[verifier::external_body]
fn open_datetime(moment: &toml::value::Datetime) -> (plain: TomlDatetime)
    ensures
        plain == toml_moment(*moment),
{
    TomlDatetime {
        date: moment.date.map(|d| TomlDate { year: d.year, month: d.month, day: d.day }),
        time: moment.time.map(|t| TomlTime {
            hour: t.hour,
            minute: t.minute,
            second: t.second,
            nanosecond: t.nanosecond,
        }),
        offset: moment.offset.map(|offset| match offset {
            toml::value::Offset::Z => TomlOffset::Z,
            toml::value::Offset::Custom { minutes } => TomlOffset::Custom { minutes },
        }),
    }
}

/// Takes a value of the `toml` crate apart, all the way down.
fn plain_value(value: &toml::Value) -> (plain: TomlValue)
    ensures
        plain@ == toml_contents(*value),
        plain@.well_formed(),
    decreases toml_contents(*value),
{
    let ghost contents = toml_contents(*value);
    match open_value(value) {
        TomlNode::String(text) => TomlValue::String(text.clone()),
        TomlNode::Integer(n) => TomlValue::Integer(n),
        TomlNode::Float { negative, text } => {
            if negative && same_text(text.as_str(), "nan") {
                TomlValue::Float("-nan".to_owned())
            } else {
                TomlValue::Float(text)
            }
        },
        TomlNode::Boolean(b) => TomlValue::Boolean(b),
        TomlNode::Datetime(moment) => TomlValue::Datetime(open_datetime(moment)),
        TomlNode::Array(items) => {
            let mut plain_items: Vec<TomlValue> = Vec::new();
            let mut at: usize = 0;
            while at < items.len()
                invariant
                    contents == toml_contents(*value),
                    contents == TomlModel::Array(items_contents(items@)),
                    at <= items.len(),
                    plain_items.len() == at,
                    forall|i: int|
                        0 <= i < at ==> (#[trigger] plain_items@[i])@ == toml_contents(items@[i])
                            && plain_items@[i]@.well_formed(),
                decreases items.len() - at,
            {
                proof {
                    assert(decreases_to!(contents => contents->Array_0));
                    assert(decreases_to!(contents->Array_0 => contents->Array_0[at as int]));
                }
                plain_items.push(plain_value(&items[at]));
                at = at + 1;
            }
            let plain = TomlValue::Array(plain_items);
            proof {
                assert(plain@->Array_0 =~= items_contents(items@));
            }
            plain
        },
        TomlNode::Table(entries) => {
            let mut plain_entries: Vec<(String, TomlValue)> = Vec::new();
            let mut at: usize = 0;
            while at < entries.len()
                invariant
                    contents == toml_contents(*value),
                    contents == TomlModel::Table(entries_contents(entries@)),
                    at <= entries.len(),
                    plain_entries.len() == at,
                    forall|i: int|
                        0 <= i < at ==> (#[trigger] plain_entries@[i]).0@ == entries@[i].0@
                            && plain_entries@[i].1@ == toml_contents(*entries@[i].1)
                            && plain_entries@[i].1@.well_formed(),
                decreases entries.len() - at,
            {
                proof {
                    let inner = contents->Table_0;
                    assert(decreases_to!(contents => contents->Table_0));
                    assert(decreases_to!(inner => inner[at as int]));
                    assert(decreases_to!(inner[at as int] => inner[at as int].1));
                }
                plain_entries.push((entries[at].0.clone(), plain_value(entries[at].1)));
                at = at + 1;
            }
            let plain = TomlValue::Table(plain_entries);
            proof {
                assert(plain@->Table_0 =~= entries_contents(entries@));
            }
            plain
        },
    }
}

/// Parses a TOML document into the entries of its table.
pub fn parse_toml(text: &str) -> (document: Result<Vec<(String, TomlValue)>, String>)
    ensures
        match document {
            Ok(entries) => toml_document(text@) matches Ok(model) && entries_view(entries@)
                == model && TomlModel::Table(model).well_formed(),
            Err(message) => toml_document(text@) matches Err(err) && message@ == toml_error_text(
                err,
            ),
        },
{
    match read_document(text) {
        Ok(value) => {
            match plain_value(&value) {
                TomlValue::Table(entries) => {
                    proof {
                        lemma_table_view(entries);
                    }
                    Ok(entries)
                },
                _ => vstd::pervasive::unreached(),
            }
        },
        Err(err) => Err(error_text(&err)),
    }
}

/// The model of a value is the same kind of value with the same contents.
pub proof fn law_model_holds_what_the_value_holds(value: TomlValue)
    ensures
        match value {
            TomlValue::String(text) => value@ == TomlModel::String(text@),
            TomlValue::Integer(n) => value@ == TomlModel::Integer(n),
            TomlValue::Float(text) => value@ == TomlModel::Float(text@),
            TomlValue::Boolean(b) => value@ == TomlModel::Boolean(b),
            TomlValue::Datetime(moment) => value@ == TomlModel::Datetime(moment),
            TomlValue::Array(items) => value@ matches TomlModel::Array(models) && models.len()
                == items@.len() && forall|i: int|
                0 <= i < items@.len() ==> #[trigger] models[i] == items@[i]@,
            TomlValue::Table(entries) => value@ matches TomlModel::Table(models) && models.len()
                == entries@.len() && forall|i: int|
                0 <= i < entries@.len() ==> #[trigger] models[i] == (
                    entries@[i].0@,
                    entries@[i].1@,
                ),
        },
{
}

/// The model of a list of entries has the key and the value of each entry, in the same order.
pub proof fn law_entries_are_modelled_one_by_one(entries: Seq<(String, TomlValue)>, i: int)
    requires
        0 <= i < entries.len(),
    ensures
        entries_view(entries).len() == entries.len(),
        entries_view(entries)[i] == (entries[i].0@, entries[i].1@),
{
}

/// A path is followed step by step: the empty path stays, and a longer one goes through the first
/// entry with its first key. It leads nowhere if no entry has that key, or if it starts at a value
/// that is no table.
pub proof fn law_paths_are_followed_step_by_step(
    value: TomlModel,
    key: Seq<char>,
    rest: Seq<Seq<char>>,
    at: int,
)
    ensures
        value.at_path(Seq::empty()) == Some(value),
        !(value is Table) ==> value.at_path(seq![key] + rest) is None,
        value matches TomlModel::Table(entries) ==> {
            &&& 0 <= at < entries.len() && entries[at].0 == key && (forall|j: int|
                0 <= j < at ==> (#[trigger] entries[j]).0 != key) ==> value.at_path(
                seq![key] + rest,
            ) == entries[at].1.at_path(rest)
            &&& (forall|j: int| 0 <= j < entries.len() ==> (#[trigger] entries[j]).0 != key)
                ==> value.at_path(seq![key] + rest) is None
        },
{
    let path = seq![key] + rest;
    assert(path.drop_first() =~= rest);
    if let TomlModel::Table(entries) = value {
        law_first_entry_with_the_key_gives_its_value(entries, key, at);
    }
}

/// A document is without dots in its keys just if every key of its table is without dots and every
/// value under them is such a document. What is no table is.
pub proof fn law_dotless_documents(value: TomlModel)
    ensures
        value matches TomlModel::Table(entries) ==> (value.dotless_keys() <==> forall|i: int|
            0 <= i < entries.len() ==> !(#[trigger] entries[i]).0.contains('.')
                && entries[i].1.dotless_keys()),
        !(value is Table) ==> value.dotless_keys(),
{
}

} // verus!
