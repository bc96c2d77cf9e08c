use vstd::prelude::*;
use crate::json::{
    json_parse, json_pretty, json_weight, json_wf, items_weight, fields_weight, parse_json_text,
    pretty_json_text, JsonNumber, JsonValue,
};
use crate::text::{decimal_text, int_text, lemma_decimal_text_nonempty, push_char, push_decimal};

verus! {

/// One node of the store tree built from a save's JSON: a field name with
/// either a payload (a value shown as text) or children (nested stores).
#[derive(Debug)]
pub struct JsonStore {
    pub field: String,
    pub payload: Option<JsonValue>,
    pub children: Option<Vec<JsonStore>>,
}

/// The mathematical view of a [`JsonStore`].
pub struct StoreView {
    pub field: Seq<char>,
    pub payload: Option<JsonValue>,
    pub children: Option<Seq<StoreView>>,
}

pub open spec fn store_view(s: JsonStore) -> StoreView
    decreases s,
{
    StoreView {
        field: s.field@,
        payload: s.payload,
        children: match s.children {
            Some(c) => Some(stores_view(c@)),
            None => None,
        },
    }
}

pub open spec fn stores_view(s: Seq<JsonStore>) -> Seq<StoreView>
    decreases s,
{
    if s.len() == 0 {
        seq![]
    } else {
        stores_view(s.drop_last()).push(store_view(s.last()))
    }
}

/// The stores built from a JSON value: one group per entry of an object,
/// in entry order; nothing for any other value.
pub open spec fn deserialization_spec(json: JsonValue) -> Seq<StoreView>
    decreases json_weight(json),
{
    match json {
        JsonValue::Object(fields) => fields_spec(fields@),
        _ => seq![],
    }
}

pub open spec fn fields_spec(fields: Seq<(String, JsonValue)>) -> Seq<StoreView>
    decreases fields_weight(fields) + 1,
{
    if fields.len() == 0 {
        seq![]
    } else {
        fields_spec(fields.drop_last()) + entry_spec(fields.last().0@, fields.last().1)
    }
}

/// The stores for one object entry `key: value`:
/// - a string: one store with children, those of [`string_entry_spec`];
/// - an array: for each item in order, the stores of an object item, or
///   one `array_entry` store with the item as payload;
/// - an object: one store with the object's stores as children;
/// - any other value: one store with the value as payload.
pub open spec fn entry_spec(key: Seq<char>, value: JsonValue) -> Seq<StoreView>
    decreases json_weight(value) + 1,
{
    match value {
        JsonValue::Str(s) => seq![
            StoreView { field: key, payload: None, children: Some(string_entry_spec(key, s)) },
        ],
        JsonValue::Array(items) => items_spec(items@),
        JsonValue::Object(_) => seq![
            StoreView { field: key, payload: None, children: Some(deserialization_spec(value)) },
        ],
        _ => seq![StoreView { field: key, payload: Some(value), children: None }],
    }
}

pub open spec fn items_spec(items: Seq<JsonValue>) -> Seq<StoreView>
    decreases items_weight(items) + 2,
{
    if items.len() == 0 {
        seq![]
    } else {
        proof {
            assert(json_weight(items.last()) >= 1);
        }
        items_spec(items.drop_last()) + item_spec(items.last())
    }
}

pub open spec fn item_spec(item: JsonValue) -> Seq<StoreView>
    decreases json_weight(item) + 1,
{
    match item {
        JsonValue::Object(_) => deserialization_spec(item),
        _ => seq![StoreView { field: "array_entry"@, payload: Some(item), children: None }],
    }
}

/// The children of a string entry `key: s`: where `s` parses as JSON, the
/// stores of the parsed value; otherwise one store `key` with the string
/// as payload.
pub open spec fn string_entry_spec(key: Seq<char>, s: String) -> Seq<StoreView>
    decreases s@.len() + 2,
{
    match json_parse(s@) {
        Some(parsed) => if json_weight(parsed) <= s@.len() {
            deserialization_spec(parsed)
        } else {
            seq![]
        },
        None => seq![StoreView { field: key, payload: Some(JsonValue::Str(s)), children: None }],
    }
}


pub proof fn lemma_stores_view_append(a: Seq<JsonStore>, b: Seq<JsonStore>)
    ensures
        stores_view(a + b) == stores_view(a) + stores_view(b),
    decreases b.len(),
{
    if b.len() == 0 {
        assert(a + b =~= a);
        assert(stores_view(a) + stores_view(b) =~= stores_view(a));
    } else {
        lemma_stores_view_append(a, b.drop_last());
        assert((a + b).drop_last() =~= a + b.drop_last());
        assert((a + b).last() == b.last());
        assert(stores_view(a + b) =~= stores_view(a) + stores_view(b));
    }
}

pub proof fn lemma_stores_view_single(x: JsonStore)
    ensures
        stores_view(seq![x]) == seq![store_view(x)],
{
    let e = seq![x].drop_last();
    assert(e =~= Seq::<JsonStore>::empty());
    assert(stores_view(e) == Seq::<StoreView>::empty());
    assert(stores_view(seq![x]) =~= seq![store_view(x)]);
}

proof fn lemma_field_weight(fields: Seq<(String, JsonValue)>, i: int)
    requires
        0 <= i < fields.len(),
    ensures
        fields[i].0@.len() + 3 + json_weight(fields[i].1) <= fields_weight(fields),
    decreases fields.len(),
{
    if i < fields.len() - 1 {
        lemma_field_weight(fields.drop_last(), i);
    }
}

proof fn lemma_item_weight(items: Seq<JsonValue>, i: int)
    requires
        0 <= i < items.len(),
    ensures
        json_weight(items[i]) <= items_weight(items),
    decreases items.len(),
{
    if i < items.len() - 1 {
        lemma_item_weight(items.drop_last(), i);
    }
}

/// Builds the store tree of a JSON value: for an object, the stores of each
/// entry in order (see [`entry_spec`]); for any other value, no stores.
pub fn recursive_deserialization(json: JsonValue) -> (r: Vec<JsonStore>)
    ensures
        stores_view(r@) == deserialization_spec(json),
    decreases json_weight(json),
{
    let mut store: Vec<JsonStore> = Vec::new();
    if let JsonValue::Object(fields) = json {
        let ghost fs = fields@;
        for entry in it: fields
            invariant
                it.seq() == fs,
                json_weight(json) == 2 + fields_weight(fs),
                stores_view(store@) == fields_spec(fs.take(it.index())),
        {
            let ghost i = it.index();
            proof {
                lemma_field_weight(fs, i);
            }
            assert(entry == fs[i]);
            let (key, value) = entry;
            let mut part = field_stores(key, value);
            let ghost before = store@;
            let ghost added = part@;
            store.append(&mut part);
            proof {
                lemma_stores_view_append(before, added);
                assert(fs.take(i + 1).drop_last() =~= fs.take(i));
                assert(fs.take(i + 1).last() == fs[i]);
            }
        }
        proof {
            assert(fs.take(fs.len() as int) =~= fs);
        }
    }
    store
}

/// The stores of one object entry `key: value` (see [`entry_spec`]).
fn field_stores(key: String, value: JsonValue) -> (r: Vec<JsonStore>)
    ensures
        stores_view(r@) == entry_spec(key@, value),
    decreases json_weight(value) + 1,
{
    match value {
        JsonValue::Str(s) => {
            let children = latter_recursion_helper(key.clone(), s);
            let r = vec![JsonStore { field: key, payload: None, children: Some(children) }];
            proof {
                lemma_stores_view_single(r@[0]);
                assert(r@ =~= seq![r@[0]]);
            }
            r
        },
        JsonValue::Array(items) => {
            let ghost xs = items@;
            let mut store: Vec<JsonStore> = Vec::new();
            for item in it: items
                invariant
                    it.seq() == xs,
                    json_weight(value) == 2 + items_weight(xs),
                    stores_view(store@) == items_spec(xs.take(it.index())),
            {
                let ghost i = it.index();
                proof {
                    lemma_item_weight(xs, i);
                }
                assert(item == xs[i]);
                let ghost before = store@;
                if let JsonValue::Object(_) = item {
                    let mut part = recursive_deserialization(item);
                    let ghost added = part@;
                    store.append(&mut part);
                    proof {
                        lemma_stores_view_append(before, added);
                        assert(stores_view(store@) == stores_view(before) + item_spec(xs[i]));
                    }
                } else {
                    let entry = JsonStore { field: "array_entry".to_owned(), payload: Some(item), children: None };
                    store.push(entry);
                    proof {
                        assert(store@ =~= before + seq![entry]);
                        lemma_stores_view_append(before, seq![entry]);
                        lemma_stores_view_single(entry);
                        assert(stores_view(store@) == stores_view(before) + item_spec(xs[i]));
                    }
                }
                proof {
                    assert(xs.take(i + 1).drop_last() =~= xs.take(i));
                    assert(xs.take(i + 1).last() == xs[i]);
                    assert(items_spec(xs.take(i + 1)) == items_spec(xs.take(i)) + item_spec(xs[i]));
                }
            }
            proof {
                assert(xs.take(xs.len() as int) =~= xs);
            }
            store
        },
        JsonValue::Object(_) => {
            let children = recursive_deserialization(value);
            let r = vec![JsonStore { field: key, payload: None, children: Some(children) }];
            proof {
                lemma_stores_view_single(r@[0]);
                assert(r@ =~= seq![r@[0]]);
            }
            r
        },
        _ => {
            let r = vec![JsonStore { field: key, payload: Some(value), children: None }];
            proof {
                lemma_stores_view_single(r@[0]);
                assert(r@ =~= seq![r@[0]]);
            }
            r
        },
    }
}

/// The children of a string entry `key: value`: where the string parses as
/// JSON, the stores of the parsed value; otherwise one store named `key`
/// with the string as payload (see [`string_entry_spec`]).
pub fn latter_recursion_helper(key: String, value: String) -> (r: Vec<JsonStore>)
    ensures
        stores_view(r@) == string_entry_spec(key@, value),
    decreases value@.len() + 2,
{
    match parse_json_text(value.as_str()) {
        Some(parsed) => recursive_deserialization(parsed),
        None => {
            let r = vec![JsonStore { field: key, payload: Some(JsonValue::Str(value)), children: None }];
            proof {
                lemma_stores_view_single(r@[0]);
                assert(r@ =~= seq![r@[0]]);
            }
            r
        },
    }
}


/// The text shown for a payload value: `true`/`false` for a boolean, the
/// decimal text of a number (its float text for a float), the string
/// itself, serde_json's pretty text for an object, and empty text for
/// `null` and arrays.
pub open spec fn payload_text(v: JsonValue) -> Seq<char> {
    match v {
        JsonValue::Bool(b) => if b {
            "true"@
        } else {
            "false"@
        },
        JsonValue::Number(JsonNumber::PosInt(u)) => decimal_text(u as nat),
        JsonValue::Number(JsonNumber::NegInt(i)) => int_text(i as int),
        JsonValue::Number(JsonNumber::Float(t)) => t@,
        JsonValue::Str(s) => s@,
        JsonValue::Object(_) => json_pretty(v),
        _ => Seq::empty(),
    }
}

/// `null`, an array, or the empty string.
pub open spec fn shows_empty(v: JsonValue) -> bool {
    match v {
        JsonValue::Null => true,
        JsonValue::Array(_) => true,
        JsonValue::Str(s) => s@.len() == 0,
        _ => false,
    }
}

/// Renders a payload value as text (see [`payload_text`]). For a value as
/// a parsed document holds it, the text is empty exactly for `null`, an
/// array and the empty string.
pub fn payload_to_string(value: &JsonValue) -> (r: String)
    ensures
        r@ == payload_text(*value),
        json_wf(*value) ==> (r@.len() == 0 <==> shows_empty(*value)),
        *value matches JsonValue::Number(JsonNumber::Float(t)) ==> r@ == t@,
        *value matches JsonValue::Str(t) ==> r@ == t@,
        *value matches JsonValue::Bool(b) ==> r@ == (if b {
            "true"@
        } else {
            "false"@
        }),
        *value matches JsonValue::Number(JsonNumber::PosInt(u)) ==> r@ == decimal_text(u as nat),
        *value matches JsonValue::Number(JsonNumber::NegInt(i)) ==> r@ == int_text(i as int),
        *value is Null || *value is Array ==> r@.len() == 0,
{
    match value {
        JsonValue::Bool(b) => {
            proof {
                reveal_strlit("true");
                reveal_strlit("false");
            }
            if *b {
                "true".to_owned()
            } else {
                "false".to_owned()
            }
        },
        JsonValue::Number(JsonNumber::PosInt(u)) => {
            let mut s = String::new();
            push_decimal(&mut s, *u);
            proof {
                lemma_decimal_text_nonempty(*u as nat);
            }
            s
        },
        JsonValue::Number(JsonNumber::NegInt(i)) => {
            let mut s = String::new();
            if *i < 0 {
                push_char(&mut s, '-');
                let magnitude: u64 = ((-(*i + 1)) as u64) + 1;
                push_decimal(&mut s, magnitude);
            } else {
                push_decimal(&mut s, *i as u64);
            }
            proof {
                assert(s@ =~= int_text(*i as int));
                if *i < 0 {
                    lemma_decimal_text_nonempty((-(*i as int)) as nat);
                } else {
                    lemma_decimal_text_nonempty(*i as nat);
                }
            }
            s
        },
        JsonValue::Number(JsonNumber::Float(t)) => t.clone(),
        JsonValue::Str(s) => s.clone(),
        JsonValue::Object(_) => pretty_json_text(value),
        _ => String::new(),
    }
}


/// Every store in the tree has either a payload or children, never both
/// and never neither, and no payload is an object.
pub open spec fn well_shaped(stores: Seq<StoreView>) -> bool
    decreases stores,
{
    if stores.len() == 0 {
        true
    } else {
        well_shaped(stores.drop_last()) && store_shaped(stores.last())
    }
}

pub open spec fn store_shaped(s: StoreView) -> bool
    decreases s,
{
    match s.children {
        Some(cs) => s.payload is None && well_shaped(cs),
        None => match s.payload {
            Some(p) => !(p is Object),
            None => false,
        },
    }
}

pub proof fn lemma_well_shaped_append(a: Seq<StoreView>, b: Seq<StoreView>)
    ensures
        well_shaped(a + b) == (well_shaped(a) && well_shaped(b)),
    decreases b.len(),
{
    if b.len() == 0 {
        assert(a + b =~= a);
    } else {
        lemma_well_shaped_append(a, b.drop_last());
        assert((a + b).drop_last() =~= a + b.drop_last());
        assert((a + b).last() == b.last());
    }
}

proof fn lemma_single_shaped(s: StoreView)
    ensures
        well_shaped(seq![s]) == store_shaped(s),
{
    let e = seq![s].drop_last();
    assert(e =~= Seq::<StoreView>::empty());
    assert(well_shaped(e));
    assert(seq![s].last() == s);
}

/// Law: the store tree built from any JSON value is well shaped: every
/// store has a payload or children but not both, and no payload is an
/// object (objects always become children).
pub proof fn lemma_deserialization_well_shaped(json: JsonValue)
    ensures
        well_shaped(deserialization_spec(json)),
    decreases json_weight(json),
{
    match json {
        JsonValue::Object(fields) => lemma_fields_shaped(fields@),
        _ => {},
    }
}

proof fn lemma_fields_shaped(fields: Seq<(String, JsonValue)>)
    ensures
        well_shaped(fields_spec(fields)),
    decreases fields_weight(fields) + 1,
{
    if fields.len() > 0 {
        lemma_fields_shaped(fields.drop_last());
        lemma_entry_shaped(fields.last().0@, fields.last().1);
        lemma_well_shaped_append(
            fields_spec(fields.drop_last()),
            entry_spec(fields.last().0@, fields.last().1),
        );
    }
}

proof fn lemma_entry_shaped(key: Seq<char>, value: JsonValue)
    ensures
        well_shaped(entry_spec(key, value)),
    decreases json_weight(value) + 1,
{
    match value {
        JsonValue::Str(s) => {
            lemma_string_entry_shaped(key, s);
            lemma_single_shaped(StoreView { field: key, payload: None, children: Some(string_entry_spec(key, s)) });
        },
        JsonValue::Array(items) => {
            lemma_items_shaped(items@);
        },
        JsonValue::Object(_) => {
            lemma_deserialization_well_shaped(value);
            lemma_single_shaped(StoreView { field: key, payload: None, children: Some(deserialization_spec(value)) });
        },
        _ => {
            lemma_single_shaped(StoreView { field: key, payload: Some(value), children: None });
        },
    }
}

proof fn lemma_items_shaped(items: Seq<JsonValue>)
    ensures
        well_shaped(items_spec(items)),
    decreases items_weight(items) + 2,
{
    if items.len() > 0 {
        assert(json_weight(items.last()) >= 1);
        lemma_items_shaped(items.drop_last());
        lemma_item_shaped(items.last());
        lemma_well_shaped_append(items_spec(items.drop_last()), item_spec(items.last()));
    }
}

proof fn lemma_item_shaped(item: JsonValue)
    ensures
        well_shaped(item_spec(item)),
    decreases json_weight(item) + 1,
{
    match item {
        JsonValue::Object(_) => lemma_deserialization_well_shaped(item),
        _ => lemma_single_shaped(StoreView { field: "array_entry"@, payload: Some(item), children: None }),
    }
}

proof fn lemma_string_entry_shaped(key: Seq<char>, s: String)
    ensures
        well_shaped(string_entry_spec(key, s)),
    decreases s@.len() + 2,
{
    match json_parse(s@) {
        Some(parsed) => if json_weight(parsed) <= s@.len() {
            lemma_deserialization_well_shaped(parsed);
        },
        None => lemma_single_shaped(StoreView { field: key, payload: Some(JsonValue::Str(s)), children: None }),
    }
}

/// The value of the first entry named `key` in `fields`, or `null` where
/// there is none.
pub open spec fn first_value(fields: Seq<(String, JsonValue)>, key: Seq<char>) -> JsonValue
    decreases fields.len(),
{
    if fields.len() == 0 {
        JsonValue::Null
    } else if fields[0].0@ == key {
        fields[0].1
    } else {
        first_value(fields.drop_first(), key)
    }
}

/// What `doc["Data"]` gives: the value of the `Data` entry of an object,
/// and `null` where `doc` is no object or has no such entry.
pub open spec fn data_field(doc: JsonValue) -> JsonValue {
    match doc {
        JsonValue::Object(fields) => first_value(fields@, "Data"@),
        _ => JsonValue::Null,
    }
}

/// Takes the `Data` entry out of a parsed save document (see
/// [`data_field`]).
pub fn take_data_field(doc: JsonValue) -> (r: JsonValue)
    ensures
        r == data_field(doc),
{
    match doc {
        JsonValue::Object(fields) => {
            let key = "Data".to_owned();
            let ghost fs = fields@;
            assert(fs.skip(0) =~= fs);
            for entry in it: fields
                invariant
                    it.seq() == fs,
                    key@ == "Data"@,
                    data_field(doc) == first_value(fs, "Data"@),
                    first_value(fs, "Data"@) == first_value(fs.skip(it.index()), "Data"@),
            {
                let ghost i = it.index();
                assert(0 <= i < fs.len());
                assert(entry == fs[i]);
                assert(fs.skip(i)[0] == fs[i]);
                assert(fs.skip(i).len() > 0);
                if entry.0 == key {
                    return entry.1;
                }
                assert(fs.skip(i).drop_first() =~= fs.skip(i + 1));
            }
            proof {
                assert(fs.skip(fs.len() as int) =~= Seq::<(String, JsonValue)>::empty());
            }
            JsonValue::Null
        },
        _ => JsonValue::Null,
    }
}

/// The path of the save's data file inside a save folder: the folder path
/// followed by `/SaveData.json`.
pub fn save_data_file_path(path: &str) -> (r: String)
    ensures
        r@ == path@ + "/SaveData.json"@,
{
    let mut save_data_path = path.to_owned();
    save_data_path.append("/SaveData.json");
    save_data_path
}

/// Builds the store tree of a save's JSON text: parses the text with
/// serde_json and deserializes its `Data` entry. `None` where the text is
/// not JSON.
pub fn deserialize_json(json_text: &str) -> (r: Option<Vec<JsonStore>>)
    ensures
        match json_parse(json_text@) {
            Some(doc) => r matches Some(stores) && stores_view(stores@) == deserialization_spec(
                data_field(doc),
            ),
            None => r is None,
        },
{
    match parse_json_text(json_text) {
        Some(json_object) => {
            let data_field = take_data_field(json_object);
            Some(recursive_deserialization(data_field))
        },
        None => None,
    }
}


/// Law: the stores of an object are those of its entries, in entry order:
/// splitting the entries anywhere splits the stores at the same place.
pub proof fn lemma_fields_spec_splice(xs: Seq<(String, JsonValue)>, ys: Seq<(String, JsonValue)>)
    ensures
        fields_spec(xs + ys) == fields_spec(xs) + fields_spec(ys),
    decreases ys.len(),
{
    if ys.len() == 0 {
        assert(xs + ys =~= xs);
        assert(fields_spec(ys) =~= Seq::<StoreView>::empty());
        assert(fields_spec(xs) + fields_spec(ys) =~= fields_spec(xs));
    } else {
        lemma_fields_spec_splice(xs, ys.drop_last());
        assert((xs + ys).drop_last() =~= xs + ys.drop_last());
        assert((xs + ys).last() == ys.last());
        assert(fields_spec(xs + ys) =~= fields_spec(xs) + fields_spec(ys));
    }
}

/// Law: an object entry `key: value` whose value is no array gives exactly
/// one store, named `key`: a string gives children (the stores of the
/// string's JSON, or the string itself as a payload under `key`), an object
/// gives its own stores as children, and any other value is the payload.
pub proof fn lemma_entry_stores(key: Seq<char>, value: JsonValue)
    ensures
        value matches JsonValue::Str(s) ==> entry_spec(key, value) == seq![
            StoreView { field: key, payload: None, children: Some(string_entry_spec(key, s)) },
        ],
        value is Object ==> entry_spec(key, value) == seq![
            StoreView { field: key, payload: None, children: Some(deserialization_spec(value)) },
        ],
        !(value is Str) && !(value is Object) && !(value is Array) ==> entry_spec(key, value)
            == seq![StoreView { field: key, payload: Some(value), children: None }],
{
}

/// Law: a string entry whose text is not JSON keeps the string as a payload
/// under the entry's key; one whose text is a JSON object gives that
/// object's stores; any other JSON text gives no stores.
pub proof fn lemma_string_entry_stores(key: Seq<char>, s: String)
    ensures
        json_parse(s@) is None ==> string_entry_spec(key, s) == seq![
            StoreView { field: key, payload: Some(JsonValue::Str(s)), children: None },
        ],
        json_parse(s@) matches Some(p) ==> json_weight(p) <= s@.len() ==> string_entry_spec(key, s)
            == deserialization_spec(p),
        json_parse(s@) matches Some(p) ==> !(p is Object) ==> string_entry_spec(key, s).len() == 0,
{
}

/// Law: a boolean payload reads `true` or `false`.
pub proof fn lemma_payload_text_of_bool(b: bool)
    ensures
        payload_text(JsonValue::Bool(b)) == (if b {
            "true"@
        } else {
            "false"@
        }),
        payload_text(JsonValue::Null).len() == 0,
{
}

/// Law: a float payload reads exactly as its decimal text, sign included,
/// and a string payload reads exactly as the string.
pub proof fn lemma_payload_text_keeps_text(t: String)
    ensures
        payload_text(JsonValue::Number(JsonNumber::Float(t))) == t@,
        payload_text(JsonValue::Str(t)) == t@,
{
}

/// Law: a payload's text is the decimal text of an integer, sign included:
/// a negative integer reads as `-` followed by the digits of its magnitude,
/// any other as its digits alone.
pub proof fn lemma_payload_text_of_integers(u: u64, i: i64)
    ensures
        payload_text(JsonValue::Number(JsonNumber::PosInt(u))) == decimal_text(u as nat),
        i < 0 ==> payload_text(JsonValue::Number(JsonNumber::NegInt(i))) == seq!['-']
            + decimal_text((-i) as nat),
        i >= 0 ==> payload_text(JsonValue::Number(JsonNumber::NegInt(i))) == decimal_text(
            i as nat,
        ),
{
}

/// Law: the stores of an array are those of its items, spliced in order:
/// splitting the items anywhere splits the stores at the same place.
pub proof fn lemma_items_spec_splice(xs: Seq<JsonValue>, ys: Seq<JsonValue>)
    ensures
        items_spec(xs + ys) == items_spec(xs) + items_spec(ys),
    decreases ys.len(),
{
    if ys.len() == 0 {
        assert(xs + ys =~= xs);
        assert(items_spec(ys) =~= Seq::<StoreView>::empty());
        assert(items_spec(xs) + items_spec(ys) =~= items_spec(xs));
    } else {
        lemma_items_spec_splice(xs, ys.drop_last());
        assert((xs + ys).drop_last() =~= xs + ys.drop_last());
        assert((xs + ys).last() == ys.last());
        assert(items_spec(xs + ys) =~= items_spec(xs) + items_spec(ys));
    }
}

/// Law: an array item that is not an object yields exactly one store, named
/// `array_entry`, with the item itself as payload; an object item yields
/// the stores of the object.
pub proof fn lemma_array_item_stores(x: JsonValue)
    ensures
        !(x is Object) ==> items_spec(seq![x]) == seq![
            StoreView { field: "array_entry"@, payload: Some(x), children: None },
        ],
        x is Object ==> items_spec(seq![x]) == deserialization_spec(x),
{
    let e = seq![x].drop_last();
    assert(e =~= Seq::<JsonValue>::empty());
    assert(items_spec(e) =~= Seq::<StoreView>::empty());
    assert(seq![x].last() == x);
    assert(items_spec(seq![x]) =~= item_spec(x));
}

/// Law: an object entry whose value is an array none of whose items is an
/// object gives one store per item, in order, each named `array_entry` with
/// that item as payload; the entry's key does not appear.
pub proof fn lemma_scalar_array_entry(key: Seq<char>, items: Vec<JsonValue>)
    requires
        forall|i: int| 0 <= i < items@.len() ==> !(#[trigger] items@[i] is Object),
    ensures
        entry_spec(key, JsonValue::Array(items)).len() == items@.len(),
        forall|i: int|
            0 <= i < items@.len() ==> #[trigger] entry_spec(key, JsonValue::Array(items))[i] == (
            StoreView { field: "array_entry"@, payload: Some(items@[i]), children: None }),
{
    lemma_scalar_items(items@);
}

proof fn lemma_scalar_items(items: Seq<JsonValue>)
    requires
        forall|i: int| 0 <= i < items.len() ==> !(#[trigger] items[i] is Object),
    ensures
        items_spec(items).len() == items.len(),
        forall|i: int|
            0 <= i < items.len() ==> #[trigger] items_spec(items)[i] == (StoreView {
                field: "array_entry"@,
                payload: Some(items[i]),
                children: None,
            }),
    decreases items.len(),
{
    if items.len() > 0 {
        let init = items.drop_last();
        lemma_scalar_items(init);
        lemma_items_spec_splice(init, seq![items.last()]);
        assert(init + seq![items.last()] =~= items);
        lemma_array_item_stores(items.last());
    }
}

} // verus!
