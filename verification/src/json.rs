//! JSON values: building them, and reading those that come from outside as text.
use crate::text;
use vstd::prelude::*;

verus! {

/// The mathematical value of a JSON document.
pub ghost enum JsonModel {
    Null,
    Bool(bool),
    /// A natural number.
    UInt(nat),
    /// A binary64 floating-point number, given by its bits.
    Float(u64),
    /// A number as it was written.
    Literal(Seq<char>),
    Text(Seq<char>),
    Array(Seq<JsonModel>),
    Object(Seq<(Seq<char>, JsonModel)>),
}

/// A JSON value.
#[derive(Debug)]
pub enum Json {
    Null,
    Bool(bool),
    /// A natural number.
    UInt(u64),
    /// A binary64 floating-point number, given by its bits; it is sent as null unless it is
    /// finite.
    Float(u64),
    /// A number as it was written.
    Literal(String),
    Text(String),
    Array(Vec<Json>),
    Object(Vec<(String, Json)>),
}

/// The mathematical value of a JSON value.
pub open spec fn model(value: Json) -> JsonModel
    decreases value,
{
    match value {
        Json::Null => JsonModel::Null,
        Json::Bool(b) => JsonModel::Bool(b),
        Json::UInt(n) => JsonModel::UInt(n as nat),
        Json::Float(bits) => JsonModel::Float(bits),
        Json::Literal(t) => JsonModel::Literal(t@),
        Json::Text(t) => JsonModel::Text(t@),
        Json::Array(items) => JsonModel::Array(
            Seq::new(
                items@.len(),
                |i: int|
                    if 0 <= i < items@.len() {
                        model(items@[i])
                    } else {
                        JsonModel::Null
                    },
            ),
        ),
        Json::Object(fields) => JsonModel::Object(
            Seq::new(
                fields@.len(),
                |i: int|
                    if 0 <= i < fields@.len() {
                        (fields@[i].0@, model(fields@[i].1))
                    } else {
                        (Seq::empty(), JsonModel::Null)
                    },
            ),
        ),
    }
}

impl View for Json {
    type V = JsonModel;

    open spec fn view(&self) -> JsonModel {
        model(*self)
    }
}

/// The values of a list of items.
pub open spec fn items_model(items: Seq<Json>) -> Seq<JsonModel> {
    items.map_values(|item: Json| item@)
}

/// The names and values of a list of fields.
pub open spec fn fields_model(fields: Seq<(String, Json)>) -> Seq<(Seq<char>, JsonModel)> {
    fields.map_values(|field: (String, Json)| (field.0@, field.1@))
}

/// The value of an array is that of its items.
pub broadcast proof fn array_view(items: Vec<Json>)
    ensures
        #[trigger] Json::Array(items).view() == JsonModel::Array(items_model(items@)),
{
    assert(Json::Array(items)@->Array_0 =~= items_model(items@));
}

/// The value of an object is that of its fields.
pub broadcast proof fn object_view(fields: Vec<(String, Json)>)
    ensures
        #[trigger] Json::Object(fields).view() == JsonModel::Object(fields_model(fields@)),
{
    assert(Json::Object(fields)@->Object_0 =~= fields_model(fields@));
}

/// The beginning of a list of fields.
pub open spec fn no_fields() -> Seq<(Seq<char>, JsonModel)> {
    Seq::empty()
}

/// The array of some texts.
pub open spec fn texts_model(texts: Seq<Seq<char>>) -> JsonModel {
    JsonModel::Array(texts.map_values(|t: Seq<char>| JsonModel::Text(t)))
}

/// A number, or null.
pub open spec fn optional_size_model(n: Option<usize>) -> JsonModel {
    match n {
        Some(n) => JsonModel::UInt(n as nat),
        None => JsonModel::Null,
    }
}

/// A floating-point number, or null.
pub open spec fn optional_float_model(bits: Option<u64>) -> JsonModel {
    match bits {
        Some(bits) => JsonModel::Float(bits),
        None => JsonModel::Null,
    }
}

/// The value of the first field of that name.
pub open spec fn field_of(fields: Seq<(Seq<char>, JsonModel)>, name: Seq<char>) -> Option<JsonModel>
    decreases fields.len(),
{
    if fields.len() == 0 {
        None
    } else if fields[0].0 == name {
        Some(fields[0].1)
    } else {
        field_of(fields.drop_first(), name)
    }
}

impl JsonModel {
    /// The value of the field of an object; no other value has fields.
    pub open spec fn field(self, name: Seq<char>) -> Option<JsonModel> {
        match self {
            JsonModel::Object(fields) => field_of(fields, name),
            _ => None,
        }
    }

    /// The characters of a text value.
    pub open spec fn as_text(self) -> Option<Seq<char>> {
        match self {
            JsonModel::Text(t) => Some(t),
            _ => None,
        }
    }
}

/// The text value of the field of an object.
pub open spec fn text_field(value: JsonModel, name: Seq<char>) -> Option<Seq<char>> {
    match value.field(name) {
        Some(inner) => inner.as_text(),
        None => None,
    }
}

impl Json {
    /// A text value.
    pub fn text(t: &str) -> (r: Json)
        ensures
            r@ == JsonModel::Text(t@),
    {
        Json::Text(t.to_owned())
    }

    /// A number value.
    pub fn size(n: usize) -> (r: Json)
        ensures
            r@ == JsonModel::UInt(n as nat),
    {
        Json::UInt(n as u64)
    }

    /// A number, or null.
    pub fn optional_size(n: Option<usize>) -> (r: Json)
        ensures
            r@ == optional_size_model(n),
    {
        match n {
            Some(n) => Json::size(n),
            None => Json::Null,
        }
    }

    /// A floating-point number, or null.
    pub fn optional_float(bits: Option<u64>) -> (r: Json)
        ensures
            r@ == optional_float_model(bits),
    {
        match bits {
            Some(bits) => Json::Float(bits),
            None => Json::Null,
        }
    }

    /// The array of some texts.
    pub fn texts(texts: &[String]) -> (r: Json)
        ensures
            r@ == texts_model(text::views(texts@)),
    {
        broadcast use array_view;

        let mut items: Vec<Json> = Vec::new();
        let mut i: usize = 0;
        while i < texts.len()
            invariant
                i <= texts@.len(),
                items@.len() == i,
                forall|j: int|
                    0 <= j < i ==> (#[trigger] items@[j])@ == JsonModel::Text(texts@[j]@),
            decreases texts@.len() - i,
        {
            items.push(Json::text(texts[i].as_str()));
            i = i + 1;
        }
        assert(items_model(items@) =~= text::views(texts@).map_values(
            |t: Seq<char>| JsonModel::Text(t),
        ));
        Json::Array(items)
    }

    /// The field of an object; no other value has fields.
    pub fn get(&self, name: &str) -> (r: Option<&Json>)
        ensures
            match r {
                Some(value) => self@.field(name@) == Some(value@),
                None => self@.field(name@) is None,
            },
    {
        broadcast use object_view;

        match self {
            Json::Object(fields) => {
                let mut i: usize = 0;
                let ghost all = fields_model(fields@);
                assert(all.skip(0) =~= all);
                while i < fields.len()
                    invariant
                        i <= fields@.len(),
                        all == fields_model(fields@),
                        self@.field(name@) == field_of(all.skip(i as int), name@),
                    decreases fields@.len() - i,
                {
                    assert(all.skip(i as int)[0] == (fields@[i as int].0@, fields@[i as int].1@));
                    if text::same_text(fields[i].0.as_str(), name) {
                        return Some(&fields[i].1);
                    }
                    assert(all.skip(i as int).drop_first() =~= all.skip(i + 1));
                    i = i + 1;
                }
                None
            },
            _ => None,
        }
    }

    /// The characters of a text value.
    pub fn as_text(&self) -> (r: Option<&str>)
        ensures
            match r {
                Some(t) => self@.as_text() == Some(t@),
                None => self@.as_text() is None,
            },
    {
        match self {
            Json::Text(t) => Some(t.as_str()),
            _ => None,
        }
    }

    /// The text value of the field of an object.
    pub fn text_field(&self, name: &str) -> (r: Option<&str>)
        ensures
            match r {
                Some(t) => text_field(self@, name@) == Some(t@),
                None => text_field(self@, name@) is None,
            },
    {
        match self.get(name) {
            Some(inner) => inner.as_text(),
            None => None,
        }
    }
}

/// The fields of an object under construction.
pub struct Fields {
    items: Vec<(String, Json)>,
}

impl View for Fields {
    type V = Seq<(Seq<char>, JsonModel)>;

    closed spec fn view(&self) -> Seq<(Seq<char>, JsonModel)> {
        fields_model(self.items@)
    }
}

impl Fields {
    /// No fields.
    pub fn new() -> (r: Fields)
        ensures
            r@ == no_fields(),
    {
        let r = Fields { items: Vec::new() };
        assert(r@ =~= Seq::empty());
        r
    }

    /// The fields and one more.
    pub fn and(self, name: &str, value: Json) -> (r: Fields)
        ensures
            r@ == self@.push((name@, value@)),
    {
        let mut items = self.items;
        items.push((name.to_owned(), value));
        let r = Fields { items };
        assert(r@ =~= self@.push((name@, value@)));
        r
    }

    /// The object with these fields.
    pub fn object(self) -> (r: Json)
        ensures
            r@ == JsonModel::Object(self@),
    {
        broadcast use object_view;

        Json::Object(self.items)
    }
}

/// The array of some values.
pub fn array(items: Vec<Json>) -> (r: Json)
    ensures
        r@ == JsonModel::Array(items_model(items@)),
{
    broadcast use array_view;

    Json::Array(items)
}

/// A JSON value of the crate `serde_json`.
#[verifier::external_type_specification]
#[verifier::external_body]
pub struct ExSerdeValue(serde_json::Value);

/// The JSON value that a `serde_json::Value` holds.
pub uninterp spec fn held(value: serde_json::Value) -> JsonModel;

/// The JSON value that a text is read as, if it is well-formed JSON.
pub uninterp spec fn parsed(text: Seq<char>) -> Option<JsonModel>;

/// The text that a JSON value is written as.
pub uninterp spec fn written(value: JsonModel) -> Seq<char>;

/// `serde_json::from_str` into a `serde_json::Value` reads a text as one JSON value or fails.
/// Which of the two, and the value, are functions of the text alone.
#[verifier::external_body]
pub(crate) fn parse_value(text: &str) -> (r: Option<serde_json::Value>)
    ensures
        match r {
            Some(value) => parsed(text@) == Some(held(value)),
            None => parsed(text@) is None,
        },
{
    serde_json::from_str::<serde_json::Value>(text).ok()
}

/// `serde_json::Value::get` with a text returns the field of that name of an object, and nothing
/// where there is no such field or the value is no object.
#[verifier::external_body]
pub(crate) fn value_field<'a>(value: &'a serde_json::Value, name: &str) -> (r: Option<
    &'a serde_json::Value,
>)
    ensures
        match r {
            Some(inner) => held(*value).field(name@) == Some(held(*inner)),
            None => held(*value).field(name@) is None,
        },
{
    value.get(name)
}

/// `serde_json::Value::as_str` returns the characters of a text value, and nothing for any other
/// value.
#[verifier::external_body]
pub(crate) fn value_text(value: &serde_json::Value) -> (r: Option<String>)
    ensures
        match r {
            Some(t) => held(*value) == JsonModel::Text(t@),
            None => !(held(*value) is Text),
        },
{
    value.as_str().map(String::from)
}

/// The names and values of a list of fields of the crate `serde_json`.
pub open spec fn held_fields(fields: Seq<(String, serde_json::Value)>) -> Seq<
    (Seq<char>, JsonModel),
> {
    fields.map_values(|field: (String, serde_json::Value)| (field.0@, held(field.1)))
}

/// `serde_json::Value::as_object` returns the map of an object, whose fields are handed out in
/// the map's order, and nothing for any other value.
#[verifier::external_body]
pub(crate) fn value_fields(value: &serde_json::Value) -> (r: Option<Vec<(String, serde_json::Value)>>)
    ensures
        match r {
            Some(fields) => held(*value) == JsonModel::Object(held_fields(fields@)),
            None => !(held(*value) is Object),
        },
{
    value.as_object().map(|map| map.clone().into_iter().collect())
}

/// `serde_json::Value` is written as JSON text by its `Display`; the text is a function of the
/// value alone.
#[verifier::external_body]
pub(crate) fn value_written(value: &serde_json::Value) -> (r: String)
    ensures
        r@ == written(held(*value)),
{
    value.to_string()
}

/// Whether no two of some fields share a name.
pub open spec fn distinct_names(fields: Seq<(Seq<char>, JsonModel)>) -> bool {
    forall|i: int, j: int|
        0 <= i < j < fields.len() ==> (#[trigger] fields[i]).0 != (#[trigger] fields[j]).0
}

/// A field is read by its name: the first of that name counts, and a name that no field has gives
/// nothing.
pub proof fn first_field_is_read(fields: Seq<(Seq<char>, JsonModel)>, k: int, name: Seq<char>)
    requires
        0 <= k <= fields.len(),
        forall|i: int| 0 <= i < k ==> (#[trigger] fields[i]).0 != name,
        k < fields.len() ==> fields[k].0 == name,
    ensures
        JsonModel::Object(fields).field(name) == (if k < fields.len() {
            Some(fields[k].1)
        } else {
            None
        }),
    decreases k,
{
    if k > 0 {
        let rest = fields.drop_first();
        assert forall|i: int| 0 <= i < k - 1 implies (#[trigger] rest[i]).0 != name by {
            assert(rest[i] == fields[i + 1]);
        }
        assert(fields[0].0 != name);
        first_field_is_read(rest, k - 1, name);
    }
}

/// Where no two fields share a name, each is read by its own.
pub proof fn each_field_is_read(fields: Seq<(Seq<char>, JsonModel)>)
    requires
        distinct_names(fields),
    ensures
        forall|k: int|
            0 <= k < fields.len() ==> JsonModel::Object(fields).field(
                (#[trigger] fields[k]).0,
            ) == Some(fields[k].1),
{
    assert forall|k: int| 0 <= k < fields.len() implies JsonModel::Object(fields).field(
        (#[trigger] fields[k]).0,
    ) == Some(fields[k].1) by {
        first_field_is_read(fields, k, fields[k].0);
    }
}

/// The value of a JSON value is what it holds, at every depth.
pub proof fn values_are_kept(
    b: bool,
    n: u64,
    t: String,
    items: Vec<Json>,
    fields: Vec<(String, Json)>,
    i: int,
)
    ensures
        Json::Null@ == JsonModel::Null,
        Json::Bool(b)@ == JsonModel::Bool(b),
        Json::UInt(n)@ == JsonModel::UInt(n as nat),
        Json::Float(n)@ == JsonModel::Float(n),
        Json::Literal(t)@ == JsonModel::Literal(t@),
        Json::Text(t)@ == JsonModel::Text(t@),
        Json::Array(items)@->Array_0.len() == items@.len(),
        0 <= i < items@.len() ==> Json::Array(items)@->Array_0[i] == items@[i]@,
        Json::Object(fields)@->Object_0.len() == fields@.len(),
        0 <= i < fields@.len() ==> Json::Object(fields)@->Object_0[i] == (
            fields@[i].0@,
            fields@[i].1@,
        ),
        items_model(items@).len() == items@.len(),
        0 <= i < items@.len() ==> items_model(items@)[i] == items@[i]@,
{
}

/// Texts and numbers are written as themselves, and what is not there as null.
pub proof fn optional_values_are_kept(texts: Seq<Seq<char>>, n: usize, bits: u64, i: int)
    ensures
        texts_model(texts) is Array,
        texts_model(texts)->Array_0.len() == texts.len(),
        0 <= i < texts.len() ==> texts_model(texts)->Array_0[i] == JsonModel::Text(texts[i]),
        optional_size_model(Some(n)) == JsonModel::UInt(n as nat),
        optional_size_model(None) == JsonModel::Null,
        optional_float_model(Some(bits)) == JsonModel::Float(bits),
        optional_float_model(None) == JsonModel::Null,
        no_fields().len() == 0,
{
}

/// A text is read out of an object by the name of its field, and nothing but a text is.
pub proof fn text_is_read_by_name(fields: Seq<(Seq<char>, JsonModel)>, k: int)
    requires
        0 <= k < fields.len(),
        distinct_names(fields),
    ensures
        text_field(JsonModel::Object(fields), fields[k].0) == (match fields[k].1 {
            JsonModel::Text(t) => Some(t),
            _ => None,
        }),
        forall|name: Seq<char>, v: JsonModel|
            !(v is Object) ==> #[trigger] text_field(v, name) is None,
{
    each_field_is_read(fields);
}

} // verus!
