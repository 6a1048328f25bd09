//! JSON documents as trees of plain values.
//!
//! Reading a text as JSON, and printing a value as JSON text, is `serde_json`'s work.
//! What it reads is copied, node by node, into a [`Json`] tree, and the rest of the
//! library works on such trees, and on the texts that it printed, alone.
use crate::text::{join, joined, same_text, views};
use vstd::prelude::*;
use vstd::string::StringExecFns;

verus! {

/// One JSON value.
#[derive(Debug)]
pub enum Json {
    Null,
    Bool(bool),
    /// A number that is an integer of 64 bits.
    Int(i64),
    /// Any other number, in the notation `serde_json` prints it in.
    Decimal(String),
    String(String),
    Array(Vec<Json>),
    /// The members of an object, in the order in which they are held.
    Object(Vec<(String, Json)>),
}

/// The mathematical value of a [`Json`] tree.
pub enum JsonModel {
    Null,
    Bool(bool),
    Int(i64),
    Decimal(Seq<char>),
    String(Seq<char>),
    Array(Seq<JsonModel>),
    Object(Seq<(Seq<char>, JsonModel)>),
}

impl Json {
    /// The mathematical value of the tree.
    pub open spec fn model(self) -> JsonModel
        decreases self,
    {
        match self {
            Json::Null => JsonModel::Null,
            Json::Bool(b) => JsonModel::Bool(b),
            Json::Int(n) => JsonModel::Int(n),
            Json::Decimal(t) => JsonModel::Decimal(t@),
            Json::String(s) => JsonModel::String(s@),
            Json::Array(items) => JsonModel::Array(
                Seq::new(
                    items@.len(),
                    |i: int|
                        if 0 <= i < items@.len() {
                            items@[i].model()
                        } else {
                            JsonModel::Null
                        },
                ),
            ),
            Json::Object(members) => JsonModel::Object(
                Seq::new(
                    members@.len(),
                    |i: int|
                        if 0 <= i < members@.len() {
                            (members@[i].0@, members@[i].1.model())
                        } else {
                            (Seq::empty(), JsonModel::Null)
                        },
                ),
            ),
        }
    }
}

impl View for Json {
    type V = JsonModel;

    open spec fn view(&self) -> JsonModel {
        self.model()
    }
}

/// The values of a sequence of trees.
pub open spec fn models(items: Seq<Json>) -> Seq<JsonModel> {
    Seq::new(items.len(), |i: int| items[i]@)
}

/// The names and values of a sequence of members.
pub open spec fn member_models(members: Seq<(String, Json)>) -> Seq<(Seq<char>, JsonModel)> {
    Seq::new(members.len(), |i: int| (members[i].0@, members[i].1@))
}

/// The value of an array is the sequence of its items' values.
pub proof fn lemma_array_view(items: Vec<Json>)
    ensures
        Json::Array(items)@ == JsonModel::Array(models(items@)),
{
    let j = Json::Array(items);
    assert(j@ is Array);
    assert(j@->Array_0.len() == items@.len());
    assert(j@->Array_0 =~= models(items@));
}

/// The value of an object is the sequence of its members' names and values.
pub proof fn lemma_object_view(members: Vec<(String, Json)>)
    ensures
        Json::Object(members)@ == JsonModel::Object(member_models(members@)),
{
    let j = Json::Object(members);
    assert(j@ is Object);
    assert(j@->Object_0.len() == members@.len());
    assert(j@->Object_0 =~= member_models(members@));
}

/// Declares `serde_json::Value`. Nothing of what such a value holds is visible here; it
/// is handed from the function that makes it to the functions that open or print it.
#[verifier::external_type_specification]
#[verifier::external_body]
pub struct ExValue(serde_json::Value);

/// The JSON value that `serde_json` reads from the bytes of a text; `None` where they are
/// no JSON document.
pub uninterp spec fn json_document(bytes: Seq<u8>) -> Option<JsonModel>;

/// The JSON value that a `serde_json::Value` holds. The members of an object come in the
/// order in which `serde_json` walks them.
pub uninterp spec fn json_model(value: serde_json::Value) -> JsonModel;

/// The text that `serde_json` prints for a JSON value, without white space between its
/// parts.
pub uninterp spec fn json_text(value: JsonModel) -> Seq<char>;

/// Reads the bytes of a text as one JSON document.
///
/// Stands for `serde_json::from_slice` at the type `serde_json::Value`. The contract only
/// names what is read, as [`json_document`] of the bytes, and says that the call fails
/// exactly where that is `None`.
#[verifier::external_body]
fn value_from_slice(bytes: &[u8]) -> (r: Option<serde_json::Value>)
    ensures
        match r {
            Some(v) => json_document(bytes@) == Some(json_model(v)),
            None => json_document(bytes@) is None,
        },
{
    serde_json::from_slice::<serde_json::Value>(bytes).ok()
}

/// The top of a `serde_json::Value`: its kind, and what it holds at that level.
enum Shape<'a> {
    Null,
    Bool(bool),
    Number { text: String, whole: Option<i64> },
    String(String),
    Array(&'a Vec<serde_json::Value>),
    Object(Vec<(String, &'a serde_json::Value)>),
}

/// The value that a shape stands for.
spec fn shape_model(shape: Shape) -> JsonModel {
    match shape {
        Shape::Null => JsonModel::Null,
        Shape::Bool(b) => JsonModel::Bool(b),
        Shape::Number { text, whole } => match whole {
            Some(n) => JsonModel::Int(n),
            None => JsonModel::Decimal(text@),
        },
        Shape::String(s) => JsonModel::String(s@),
        Shape::Array(items) => JsonModel::Array(
            Seq::new(items@.len(), |i: int| json_model(items@[i])),
        ),
        Shape::Object(members) => JsonModel::Object(
            Seq::new(members@.len(), |i: int| (members@[i].0@, json_model(*members@[i].1))),
        ),
    }
}

/// Opens one level of a `serde_json::Value`.
///
/// Tells the six variants of `serde_json::Value` apart and hands out what each holds: a
/// number with the text of its `Display` and with its `as_i64`, the items of an array,
/// the members of an object in the order of `Map::iter`. The contract says that this is
/// what [`json_model`] of the value is made of.
#[verifier::external_body]
fn value_shape<'a>(v: &'a serde_json::Value) -> (shape: Shape<'a>)
    ensures
        json_model(*v) == shape_model(shape),
{
    match v {
        serde_json::Value::Null => Shape::Null,
        serde_json::Value::Bool(b) => Shape::Bool(*b),
        serde_json::Value::Number(n) => Shape::Number { text: n.to_string(), whole: n.as_i64() },
        serde_json::Value::String(s) => Shape::String(s.clone()),
        serde_json::Value::Array(items) => Shape::Array(items),
        serde_json::Value::Object(map) => Shape::Object(
            map.iter().map(|(k, x)| (k.clone(), x)).collect(),
        ),
    }
}

/// Prints a JSON value.
///
/// Stands for the `Display` of `serde_json::Value`, without the flag for the alternate
/// form. The contract only names the result, as [`json_text`] of what the value holds.
#[verifier::external_body]
fn value_text(v: &serde_json::Value) -> (out: String)
    ensures
        out@ == json_text(json_model(*v)),
{
    v.to_string()
}

/// Makes the JSON value that holds a string.
///
/// Stands for `From<&str>` of `serde_json::Value`, which makes a `Value::String` of a copy
/// of the string. The contract says that the value holds the string.
#[verifier::external_body]
fn value_of_str(s: &str) -> (v: serde_json::Value)
    ensures
        json_model(v) == JsonModel::String(s@),
{
    serde_json::Value::from(s)
}

/// Prints a string as a JSON string literal, with its quotes and escapes.
fn string_text(s: &str) -> (out: String)
    ensures
        out@ == json_text(JsonModel::String(s@)),
{
    let value = value_of_str(s);
    value_text(&value)
}

/// Copies a `serde_json::Value` into a tree of plain values.
fn json_of_value(v: &serde_json::Value) -> (j: Json)
    ensures
        j@ == json_model(*v),
    decreases json_model(*v),
{
    match value_shape(v) {
        Shape::Null => Json::Null,
        Shape::Bool(b) => Json::Bool(b),
        Shape::Number { text, whole } => match whole {
            Some(n) => Json::Int(n),
            None => Json::Decimal(text),
        },
        Shape::String(s) => Json::String(s),
        Shape::Array(items) => {
            let ghost kids = Seq::new(items@.len(), |i: int| json_model(items@[i]));
            let mut out: Vec<Json> = Vec::new();
            let mut i: usize = 0;
            while i < items.len()
                invariant
                    i <= items.len(),
                    out@.len() == i,
                    json_model(*v) == JsonModel::Array(kids),
                    kids == Seq::new(items@.len(), |i: int| json_model(items@[i])),
                    forall|k: int| 0 <= k < i ==> (#[trigger] out@[k])@ == json_model(items@[k]),
                decreases items.len() - i,
            {
                assert(kids[i as int] == json_model(items@[i as int]));
                assert(decreases_to!(json_model(*v) => json_model(*v)->Array_0[i as int]));
                out.push(json_of_value(&items[i]));
                i += 1;
            }
            proof {
                lemma_array_view(out);
                assert(models(out@) =~= kids);
            }
            Json::Array(out)
        },
        Shape::Object(members) => {
            let ghost kids = Seq::new(
                members@.len(),
                |i: int| (members@[i].0@, json_model(*members@[i].1)),
            );
            let mut out: Vec<(String, Json)> = Vec::new();
            let mut i: usize = 0;
            while i < members.len()
                invariant
                    i <= members.len(),
                    out@.len() == i,
                    json_model(*v) == JsonModel::Object(kids),
                    kids == Seq::new(
                        members@.len(),
                        |i: int| (members@[i].0@, json_model(*members@[i].1)),
                    ),
                    forall|k: int|
                        0 <= k < i ==> (#[trigger] out@[k]).0@ == members@[k].0@ && out@[k].1@
                            == json_model(*members@[k].1),
                decreases members.len() - i,
            {
                assert(kids[i as int] == (members@[i as int].0@, json_model(*members@[i as int].1)));
                assert(decreases_to!(json_model(*v) => json_model(*v)->Object_0[i as int].1));
                let value = json_of_value(members[i].1);
                out.push((members[i].0.clone(), value));
                i += 1;
            }
            proof {
                lemma_object_view(out);
                assert(member_models(out@) =~= kids);
            }
            Json::Object(out)
        },
    }
}

/// Reads the bytes of a text as one JSON document. Returns `None` exactly where they are
/// none.
pub fn parse_json(bytes: &[u8]) -> (r: Option<Json>)
    ensures
        match r {
            Some(j) => json_document(bytes@) == Some(j@),
            None => json_document(bytes@) is None,
        },
{
    match value_from_slice(bytes) {
        Some(v) => Some(json_of_value(&v)),
        None => None,
    }
}

/// The value of the first member with the given name.
pub open spec fn member(members: Seq<(Seq<char>, JsonModel)>, key: Seq<char>) -> Option<JsonModel>
    decreases members.len(),
{
    if members.len() == 0 {
        None
    } else if members[0].0 == key {
        Some(members[0].1)
    } else {
        member(members.drop_first(), key)
    }
}

/// The member of an object with the given name; `None` for a value that is no object, or
/// has no such member.
pub open spec fn field(m: JsonModel, key: Seq<char>) -> Option<JsonModel> {
    match m {
        JsonModel::Object(members) => member(members, key),
        _ => None,
    }
}

impl Json {
    /// A tree equal to this one.
    pub fn copy(&self) -> (j: Json)
        ensures
            j@ == self@,
        decreases self,
    {
        match self {
            Json::Null => Json::Null,
            Json::Bool(b) => Json::Bool(*b),
            Json::Int(n) => Json::Int(*n),
            Json::Decimal(t) => Json::Decimal(t.clone()),
            Json::String(s) => Json::String(s.clone()),
            Json::Array(items) => {
                let mut out: Vec<Json> = Vec::new();
                let mut i: usize = 0;
                while i < items.len()
                    invariant
                        i <= items.len(),
                        out@.len() == i,
                        decreases_to!(self => items),
                        forall|k: int| 0 <= k < i ==> (#[trigger] out@[k])@ == items@[k]@,
                    decreases items.len() - i,
                {
                    out.push(items[i].copy());
                    i += 1;
                }
                proof {
                    lemma_array_view(*items);
                    lemma_array_view(out);
                    assert(models(out@) =~= models(items@));
                }
                Json::Array(out)
            },
            Json::Object(members) => {
                let mut out: Vec<(String, Json)> = Vec::new();
                let mut i: usize = 0;
                while i < members.len()
                    invariant
                        i <= members.len(),
                        out@.len() == i,
                        decreases_to!(self => members),
                        forall|k: int|
                            0 <= k < i ==> (#[trigger] out@[k]).0@ == members@[k].0@ && out@[k].1@
                                == members@[k].1@,
                    decreases members.len() - i,
                {
                    let value = members[i].1.copy();
                    out.push((members[i].0.clone(), value));
                    i += 1;
                }
                proof {
                    lemma_object_view(*members);
                    lemma_object_view(out);
                    assert(member_models(out@) =~= member_models(members@));
                }
                Json::Object(out)
            },
        }
    }

    /// The member of an object with the given name.
    pub fn get<'a>(&'a self, key: &str) -> (r: Option<&'a Json>)
        ensures
            match r {
                Some(j) => field(self@, key@) == Some(j@),
                None => field(self@, key@) is None,
            },
    {
        match self {
            Json::Object(members) => {
                proof {
                    lemma_object_view(*members);
                }
                let ghost all = member_models(members@);
                let mut i: usize = 0;
                assert(all.skip(0) == all);
                while i < members.len()
                    invariant
                        i <= members.len(),
                        all == member_models(members@),
                        self@ == JsonModel::Object(all),
                        member(all, key@) == member(all.skip(i as int), key@),
                    decreases members.len() - i,
                {
                    proof {
                        assert(all.skip(i as int).drop_first() == all.skip(i + 1));
                        assert(all.skip(i as int)[0] == all[i as int]);
                    }
                    if same_text(members[i].0.as_str(), key) {
                        return Some(&members[i].1);
                    }
                    i += 1;
                }
                None
            },
            _ => None,
        }
    }
}

/// One member of a JSON object: its name, its value, and the text of its value.
#[derive(Debug)]
pub struct Field {
    pub name: String,
    pub value: Json,
    /// The value as JSON text.
    pub text: String,
}

/// The mathematical value of a [`Field`].
pub struct FieldView {
    pub name: Seq<char>,
    pub value: JsonModel,
    pub text: Seq<char>,
}

impl View for Field {
    type V = FieldView;

    open spec fn view(&self) -> FieldView {
        FieldView { name: self.name@, value: self.value@, text: self.text@ }
    }
}

/// The values of a sequence of fields.
pub open spec fn field_views(fields: Seq<Field>) -> Seq<FieldView> {
    Seq::new(fields.len(), |i: int| fields[i]@)
}

/// The fields of a JSON value: for an object, its members in their order, each with the
/// text that `serde_json` prints for its value.
pub open spec fn fields_of(m: JsonModel) -> Option<Seq<FieldView>> {
    match m {
        JsonModel::Object(members) => Some(
            Seq::new(
                members.len(),
                |i: int|
                    FieldView {
                        name: members[i].0,
                        value: members[i].1,
                        text: json_text(members[i].1),
                    },
            ),
        ),
        _ => None,
    }
}

/// The fields of the JSON document in the bytes of a text; `None` where they are no JSON
/// document, or the document is no object.
pub open spec fn json_fields(bytes: Seq<u8>) -> Option<Seq<FieldView>> {
    match json_document(bytes) {
        Some(m) => fields_of(m),
        None => None,
    }
}

/// Reads the bytes of a text as one JSON object, member by member.
pub fn parse_fields(bytes: &[u8]) -> (r: Option<Vec<Field>>)
    ensures
        match r {
            Some(fields) => json_fields(bytes@) == Some(field_views(fields@)),
            None => json_fields(bytes@) is None,
        },
{
    let document = match value_from_slice(bytes) {
        Some(document) => document,
        None => {
            return None;
        },
    };
    match value_shape(&document) {
        Shape::Object(members) => {
            let ghost all = json_model(document)->Object_0;
            let mut fields: Vec<Field> = Vec::new();
            let mut i: usize = 0;
            while i < members.len()
                invariant
                    i <= members.len(),
                    fields@.len() == i,
                    json_model(document) == JsonModel::Object(all),
                    all == Seq::new(
                        members@.len(),
                        |i: int| (members@[i].0@, json_model(*members@[i].1)),
                    ),
                    forall|k: int|
                        0 <= k < i ==> (#[trigger] fields@[k])@ == (FieldView {
                            name: all[k].0,
                            value: all[k].1,
                            text: json_text(all[k].1),
                        }),
                decreases members.len() - i,
            {
                assert(all[i as int] == (members@[i as int].0@, json_model(*members@[i as int].1)));
                let value = json_of_value(members[i].1);
                let text = value_text(members[i].1);
                fields.push(Field { name: members[i].0.clone(), value, text });
                i += 1;
            }
            proof {
                assert(field_views(fields@) =~= fields_of(json_model(document))->0);
            }
            Some(fields)
        },
        _ => None,
    }
}

/// The text of one member of an object: its name as a string literal, `:`, the text of
/// its value.
pub open spec fn member_text(name: Seq<char>, value: Seq<char>) -> Seq<char> {
    json_text(JsonModel::String(name)) + seq![':'] + value
}

/// The text of an object with the given members, in their order: each member is given
/// by its name and by the text of its value.
pub open spec fn object_text(members: Seq<(Seq<char>, Seq<char>)>) -> Seq<char> {
    seq!['{'] + joined(
        Seq::new(members.len(), |i: int| member_text(members[i].0, members[i].1)),
        seq![','],
    ) + seq!['}']
}

/// The names and texts of a sequence of members.
pub open spec fn text_pairs(members: Seq<(String, String)>) -> Seq<(Seq<char>, Seq<char>)> {
    Seq::new(members.len(), |i: int| (members[i].0@, members[i].1@))
}

/// Writes the members as the text of one JSON object. The names are written as
/// `serde_json` writes strings; the texts of the values are taken as they are.
pub fn write_object(members: &Vec<(String, String)>) -> (out: String)
    ensures
        out@ == object_text(text_pairs(members@)),
{
    let mut pieces: Vec<String> = Vec::new();
    let mut i: usize = 0;
    while i < members.len()
        invariant
            i <= members.len(),
            pieces@.len() == i,
            forall|k: int|
                0 <= k < i ==> (#[trigger] pieces@[k])@ == member_text(
                    members@[k].0@,
                    members@[k].1@,
                ),
        decreases members.len() - i,
    {
        let mut piece = string_text(members[i].0.as_str());
        piece.append(":");
        piece.append(members[i].1.as_str());
        proof {
            reveal_strlit(":");
            assert(piece@ =~= member_text(members@[i as int].0@, members@[i as int].1@));
        }
        pieces.push(piece);
        i += 1;
    }
    let mut out = String::from_str("{");
    let body = join(&pieces, ",");
    out.append(body.as_str());
    out.append("}");
    proof {
        reveal_strlit("{");
        reveal_strlit(",");
        reveal_strlit("}");
        let all = text_pairs(members@);
        let texts = Seq::new(all.len(), |i: int| member_text(all[i].0, all[i].1));
        assert(views(pieces@) =~= texts);
        assert(","@ =~= seq![',']);
        assert(out@ =~= seq!['{'] + joined(texts, seq![',']) + seq!['}']);
    }
    out
}

/// The text of a member that has to be a string.
pub open spec fn text_at(m: JsonModel, key: Seq<char>) -> Option<Seq<char>> {
    match field(m, key) {
        Some(JsonModel::String(s)) => Some(s),
        _ => None,
    }
}

/// The text of a member that may be left out or be `null`: `Some(None)` where it is, the
/// text where it is a string, and `None` where it is anything else.
pub open spec fn optional_text_at(m: JsonModel, key: Seq<char>) -> Option<Option<Seq<char>>> {
    match field(m, key) {
        None => Some(None),
        Some(JsonModel::Null) => Some(None),
        Some(JsonModel::String(s)) => Some(Some(s)),
        _ => None,
    }
}

/// The value of a member that has to be `true` or `false`.
pub open spec fn bool_at(m: JsonModel, key: Seq<char>) -> Option<bool> {
    match field(m, key) {
        Some(JsonModel::Bool(b)) => Some(b),
        _ => None,
    }
}

/// The value of a member that has to be an integer from `low` to `high`.
pub open spec fn int_at(m: JsonModel, key: Seq<char>, low: int, high: int) -> Option<int> {
    match field(m, key) {
        Some(JsonModel::Int(n)) => if low <= n <= high {
            Some(n as int)
        } else {
            None
        },
        _ => None,
    }
}

/// The texts of an array whose items all are strings; `None` for any other value.
pub open spec fn texts_of(m: JsonModel) -> Option<Seq<Seq<char>>> {
    match m {
        JsonModel::Array(items) => if forall|i: int|
            0 <= i < items.len() ==> #[trigger] items[i] is String {
            Some(Seq::new(items.len(), |i: int| items[i]->String_0))
        } else {
            None
        },
        _ => None,
    }
}

impl Json {
    /// Reads a member that has to be a string.
    pub fn text_field(&self, key: &str) -> (r: Option<String>)
        ensures
            r.deep_view() == text_at(self@, key@),
    {
        match self.get(key) {
            Some(Json::String(s)) => Some(s.clone()),
            _ => None,
        }
    }

    /// Reads a member that may be left out or be `null`, and is a string otherwise.
    pub fn optional_text_field(&self, key: &str) -> (r: Option<Option<String>>)
        ensures
            r.deep_view() == optional_text_at(self@, key@),
    {
        match self.get(key) {
            None => Some(None),
            Some(Json::Null) => Some(None),
            Some(Json::String(s)) => Some(Some(s.clone())),
            _ => None,
        }
    }

    /// Reads a member that has to be `true` or `false`.
    pub fn bool_field(&self, key: &str) -> (r: Option<bool>)
        ensures
            r == bool_at(self@, key@),
    {
        match self.get(key) {
            Some(Json::Bool(b)) => Some(*b),
            _ => None,
        }
    }

    /// Reads a member that has to be an integer from `low` to `high`.
    pub fn int_field(&self, key: &str, low: i64, high: i64) -> (r: Option<i64>)
        ensures
            match r {
                Some(n) => int_at(self@, key@, low as int, high as int) == Some(n as int),
                None => int_at(self@, key@, low as int, high as int) is None,
            },
    {
        match self.get(key) {
            Some(Json::Int(n)) => if low <= *n && *n <= high {
                Some(*n)
            } else {
                None
            },
            _ => None,
        }
    }

    /// Reads an array of strings.
    pub fn texts(&self) -> (r: Option<Vec<String>>)
        ensures
            r.deep_view() == texts_of(self@),
    {
        match self {
            Json::Array(items) => {
                proof {
                    lemma_array_view(*items);
                }
                let ghost all = models(items@);
                let mut out: Vec<String> = Vec::new();
                let mut i: usize = 0;
                while i < items.len()
                    invariant
                        i <= items.len(),
                        out@.len() == i,
                        all == models(items@),
                        self@ == JsonModel::Array(all),
                        forall|k: int| 0 <= k < i ==> all[k] == JsonModel::String((#[trigger] out@[k])@),
                    decreases items.len() - i,
                {
                    match &items[i] {
                        Json::String(s) => {
                            assert(all[i as int] == items@[i as int]@);
                            out.push(s.clone());
                        },
                        _ => {
                            assert(all[i as int] == items@[i as int]@);
                            assert(!(all[i as int] is String));
                            return None;
                        },
                    }
                    i += 1;
                }
                proof {
                    assert forall|k: int| 0 <= k < all.len() implies #[trigger] all[k] is String by {
                        assert(all[k] == JsonModel::String(out@[k]@));
                    }
                    assert(out.deep_view() =~= Seq::new(all.len(), |i: int| all[i]->String_0));
                }
                Some(out)
            },
            _ => None,
        }
    }
}

} // verus!
