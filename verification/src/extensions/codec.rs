//! The JSON shape of configurations, records and documents.
//!
//! A struct is an object with one member for each field. A value of
//! `ConfigValueType` is an object with a single member, named after the
//! variant, that holds the variant's payload. A map from names is an object,
//! an absent optional value is `null`.

use crate::errors::{OmniverlayError, OmniverlayErrorView, OmniverlayResult};
use crate::extensions::config::{
    categories_view, lemma_list_view, lemma_match_structure_reflexive, structure_matches, texts,
    values_view, ConfigCategory, ConfigCategoryView, ConfigEnum, ConfigEnumView, ConfigValue,
    ConfigValueType, ConfigValueTypeView, ConfigValueView, ExtensionConfig, ExtensionConfigView,
};
use crate::utils::json::{
    array, as_array, as_object, as_string, find_member, is_last_member, items_view,
    lemma_array_view, lemma_last_member_exists, lemma_member_at, lemma_no_members,
    lemma_object_view, members_map, members_view, object, push_member, JsonNumber, JsonValue,
    JsonValueView,
};
use crate::extensions::{
    ExtensionInfo, ExtensionInfoView, ExtensionLayout, ExtensionState, ExtensionStateView,
};
use crate::utils::name_map::{lemma_contains, lemma_entry_at, NameMap};
use crate::utils::text::same_text;
use vstd::prelude::*;
use vstd::string::StringExecFns;

verus! {

/// The failure of a JSON value to have the expected shape.
pub open spec fn shape_error() -> OmniverlayErrorView {
    OmniverlayErrorView::SerdeJson("JSON value does not have the expected shape"@)
}

/// The failure of a JSON value to have the expected shape.
pub fn shape_failure() -> (e: OmniverlayError)
    ensures
        e@ == shape_error(),
{
    OmniverlayError::SerdeJson(String::from_str("JSON value does not have the expected shape"))
}

/// The object with the single member `name`.
pub open spec fn tagged(name: Seq<char>, body: JsonValueView) -> JsonValueView {
    JsonValueView::Object(Map::<Seq<char>, JsonValueView>::empty().insert(name, body))
}

/// The name of the single member of an object with exactly one member.
pub open spec fn tag_of(j: JsonValueView) -> Option<Seq<char>> {
    if j is Object && exists|k: Seq<char>| j->Object_0.dom() == set![k] {
        Some(choose|k: Seq<char>| j->Object_0.dom() == set![k])
    } else {
        None
    }
}

/// An object with the single member `name` has the tag `name`.
pub proof fn lemma_tag_of_tagged(name: Seq<char>, body: JsonValueView)
    ensures
        tag_of(tagged(name, body)) == Some(name),
        tagged(name, body)->Object_0[name] == body,
{
    let m = Map::<Seq<char>, JsonValueView>::empty().insert(name, body);
    assert(m.dom() =~= set![name]);
    let k = choose|k: Seq<char>| m.dom() == set![k];
    assert(set![k].contains(name));
}

/// The name and the value of the single member of an object with exactly
/// one name among its members.
pub fn single_member<'a>(j: &'a JsonValue) -> (r: Option<(&'a String, &'a JsonValue)>)
    ensures
        match r {
            Some((name, body)) => tag_of(j@) == Some(name@) && j@->Object_0[name@] == body@
                && decreases_to!(j => body),
            None => tag_of(j@) is None,
        },
{
    match j {
        JsonValue::Object(members) => {
            proof {
                lemma_object_view(*members);
            }
            let ghost mv = members_view(members@);
            let ghost m = members_map(mv);
            if members.len() == 0 {
                proof {
                    if exists|k: Seq<char>| m.dom() == set![k] {
                        let k = choose|k: Seq<char>| m.dom() == set![k];
                        assert(set![k].contains(k));
                        assert(m.dom().contains(k));
                    }
                }
                return None;
            }
            let last = members.len() - 1;
            let name = &members[last].0;
            let mut i: usize = 0;
            while i < last
                invariant
                    0 <= i <= last,
                    last == members.len() - 1,
                    mv == members_view(members@),
                    m == members_map(mv),
                    j@ == JsonValueView::Object(m),
                    name@ == mv[last as int].0,
                    forall|p: int| 0 <= p < i ==> (#[trigger] mv[p]).0 == name@,
                decreases last - i,
            {
                if !same_text(members[i].0.as_str(), name.as_str()) {
                    proof {
                        let other = mv[i as int].0;
                        assert(m.dom().contains(other));
                        assert(mv[last as int].0 == name@);
                        assert(m.dom().contains(name@));
                        if exists|k: Seq<char>| m.dom() == set![k] {
                            let k = choose|k: Seq<char>| m.dom() == set![k];
                            assert(set![k].contains(other));
                            assert(set![k].contains(name@));
                        }
                    }
                    return None;
                }
                i += 1;
            }
            proof {
                assert(mv[last as int].0 == name@);
                lemma_member_at(mv, last as int, name@);
                assert forall|k: Seq<char>| m.dom().contains(k) implies k == name@ by {
                    let p = choose|p: int| 0 <= p < mv.len() && (#[trigger] mv[p]).0 == k;
                    if p < last {
                        assert(mv[p].0 == name@);
                    }
                }
                assert(m.dom() =~= set![name@]);
                let k = choose|k: Seq<char>| m.dom() == set![k];
                assert(set![k].contains(name@));
            }
            assert(decreases_to!(j => members[last as int].1)) by {
                assert(j->Object_0 == *members);
                assert(decreases_to!(*members => members[last as int]));
            }
            Some((name, &members[last].1))
        },
        _ => None,
    }
}

/// The strings of a sequence, each as a JSON string.
pub open spec fn encode_texts(v: Seq<Seq<char>>) -> Seq<JsonValueView> {
    v.map_values(|s: Seq<char>| JsonValueView::String(s))
}

/// The texts of a sequence of JSON strings; nothing where an item is no string.
pub open spec fn decode_texts(items: Seq<JsonValueView>) -> Option<Seq<Seq<char>>> {
    if forall|i: int| 0 <= i < items.len() ==> (#[trigger] items[i]) is String {
        Some(items.map_values(|j: JsonValueView| j->String_0))
    } else {
        None
    }
}

/// A choice as JSON: an object with its name, its current value and its
/// allowed values.
pub open spec fn encode_enum(e: ConfigEnumView) -> JsonValueView {
    JsonValueView::Object(
        map![
            "name"@ => JsonValueView::String(e.name),
            "current"@ => JsonValueView::String(e.current),
            "values"@ => JsonValueView::Array(encode_texts(e.values)),
        ],
    )
}

/// The choice that a JSON value stands for, if it has the shape of one.
/// Members besides the three of a choice do not count.
pub open spec fn decode_enum(j: JsonValueView) -> Option<ConfigEnumView> {
    if j is Object && j->Object_0.contains_key("name"@) && j->Object_0["name"@] is String
        && j->Object_0.contains_key("current"@) && j->Object_0["current"@] is String
        && j->Object_0.contains_key("values"@) && j->Object_0["values"@] is Array && decode_texts(
        j->Object_0["values"@]->Array_0,
    ) is Some {
        Some(
            ConfigEnumView {
                name: j->Object_0["name"@]->String_0,
                current: j->Object_0["current"@]->String_0,
                values: decode_texts(j->Object_0["values"@]->Array_0)->Some_0,
            },
        )
    } else {
        None
    }
}

/// A configuration value as JSON: an object whose single member is named
/// after the variant and holds the payload.
pub open spec fn encode_type(t: ConfigValueTypeView) -> JsonValueView
    decreases t,
{
    match t {
        ConfigValueTypeView::String(s) => tagged("String"@, JsonValueView::String(s)),
        ConfigValueTypeView::Float(bits) => tagged(
            "Float"@,
            JsonValueView::Number(JsonNumber::of_float_bits(bits)),
        ),
        ConfigValueTypeView::Int(i) => tagged("Int"@, JsonValueView::Number(JsonNumber::of_signed(i))),
        ConfigValueTypeView::Bool(b) => tagged("Bool"@, JsonValueView::Bool(b)),
        ConfigValueTypeView::List(items) => tagged(
            "List"@,
            JsonValueView::Array(
                Seq::new(
                    items.len(),
                    |i: int|
                        if 0 <= i < items.len() {
                            encode_type(items[i])
                        } else {
                            JsonValueView::Null
                        },
                ),
            ),
        ),
        ConfigValueTypeView::Enum(e) => tagged("Enum"@, encode_enum(e)),
        ConfigValueTypeView::Path(p) => tagged("Path"@, JsonValueView::String(p)),
    }
}

/// The configuration value that a JSON value stands for, if it has the
/// shape of one: an object with a single member, named after a variant,
/// whose value fits the variant. An `Int` is a number that reads as a signed
/// integer, a `Float` one that reads as a float.
pub open spec fn decode_type(j: JsonValueView) -> Option<ConfigValueTypeView>
    decreases j,
{
    match tag_of(j) {
        None => None,
        Some(tag) => {
            let body = j->Object_0[tag];
            if tag == "String"@ {
                if body is String {
                    Some(ConfigValueTypeView::String(body->String_0))
                } else {
                    None
                }
            } else if tag == "Float"@ {
                if body is Number && body->Number_0.float_bits is Some {
                    Some(ConfigValueTypeView::Float(body->Number_0.float_bits->Some_0))
                } else {
                    None
                }
            } else if tag == "Int"@ {
                if body is Number && body->Number_0.signed is Some {
                    Some(ConfigValueTypeView::Int(body->Number_0.signed->Some_0))
                } else {
                    None
                }
            } else if tag == "Bool"@ {
                if body is Bool {
                    Some(ConfigValueTypeView::Bool(body->Bool_0))
                } else {
                    None
                }
            } else if tag == "List"@ {
                if body is Array && (forall|i: int|
                    0 <= i < body->Array_0.len() ==> decode_type(#[trigger] body->Array_0[i])
                        is Some) {
                    Some(
                        ConfigValueTypeView::List(
                            Seq::new(
                                body->Array_0.len(),
                                |i: int|
                                    if 0 <= i < body->Array_0.len() {
                                        decode_type(body->Array_0[i])->Some_0
                                    } else {
                                        ConfigValueTypeView::Bool(false)
                                    },
                            ),
                        ),
                    )
                } else {
                    None
                }
            } else if tag == "Enum"@ {
                match decode_enum(body) {
                    Some(e) => Some(ConfigValueTypeView::Enum(e)),
                    None => None,
                }
            } else if tag == "Path"@ {
                if body is String {
                    Some(ConfigValueTypeView::Path(body->String_0))
                } else {
                    None
                }
            } else {
                None
            }
        },
    }
}

/// The names of the variants differ from each other.
pub proof fn lemma_variant_names()
    ensures
        "String"@ != "Float"@,
        "String"@ != "Int"@,
        "String"@ != "Bool"@,
        "String"@ != "List"@,
        "String"@ != "Enum"@,
        "String"@ != "Path"@,
        "Float"@ != "Int"@,
        "Float"@ != "Bool"@,
        "Float"@ != "List"@,
        "Float"@ != "Enum"@,
        "Float"@ != "Path"@,
        "Int"@ != "Bool"@,
        "Int"@ != "List"@,
        "Int"@ != "Enum"@,
        "Int"@ != "Path"@,
        "Bool"@ != "List"@,
        "Bool"@ != "Enum"@,
        "Bool"@ != "Path"@,
        "List"@ != "Enum"@,
        "List"@ != "Path"@,
        "Enum"@ != "Path"@,
{
    reveal_strlit("String");
    reveal_strlit("Float");
    reveal_strlit("Int");
    reveal_strlit("Bool");
    reveal_strlit("List");
    reveal_strlit("Enum");
    reveal_strlit("Path");
    assert("String"@[0] == 'S');
    assert("Float"@[0] == 'F');
    assert("Int"@[0] == 'I');
    assert("Bool"@[0] == 'B');
    assert("List"@[0] == 'L');
    assert("Enum"@[0] == 'E');
    assert("Path"@[0] == 'P');
}

/// The names of the fields of a choice differ from each other.
pub proof fn lemma_enum_fields()
    ensures
        "name"@ != "current"@,
        "name"@ != "values"@,
        "current"@ != "values"@,
{
    reveal_strlit("name");
    reveal_strlit("current");
    reveal_strlit("values");
    assert("name"@[0] == 'n');
    assert("current"@[0] == 'c');
    assert("values"@[0] == 'v');
}

/// Reading back the JSON of a sequence of strings gives the strings.
pub proof fn lemma_texts_round_trip(v: Seq<Seq<char>>)
    ensures
        decode_texts(encode_texts(v)) == Some(v),
{
    assert(encode_texts(v).map_values(|j: JsonValueView| j->String_0) =~= v);
}

/// Reading back the JSON of a choice gives the choice.
pub proof fn lemma_enum_round_trip(e: ConfigEnumView)
    ensures
        decode_enum(encode_enum(e)) == Some(e),
{
    lemma_enum_fields();
    lemma_texts_round_trip(e.values);
}

/// Reading back the JSON of a configuration value gives the value.
pub proof fn lemma_type_round_trip(t: ConfigValueTypeView)
    ensures
        decode_type(encode_type(t)) == Some(t),
    decreases t,
{
    lemma_variant_names();
    match t {
        ConfigValueTypeView::String(s) => {
            lemma_tag_of_tagged("String"@, JsonValueView::String(s));
        },
        ConfigValueTypeView::Float(bits) => {
            lemma_tag_of_tagged("Float"@, JsonValueView::Number(JsonNumber::of_float_bits(bits)));
        },
        ConfigValueTypeView::Int(i) => {
            lemma_tag_of_tagged("Int"@, JsonValueView::Number(JsonNumber::of_signed(i)));
        },
        ConfigValueTypeView::Bool(b) => {
            lemma_tag_of_tagged("Bool"@, JsonValueView::Bool(b));
        },
        ConfigValueTypeView::List(items) => {
            let j = encode_type(t);
            let body = j->Object_0["List"@];
            lemma_tag_of_tagged("List"@, body);
            assert(j == tagged("List"@, body));
            assert(body is Array && body->Array_0.len() == items.len());
            assert forall|i: int| 0 <= i < body->Array_0.len() implies decode_type(
                #[trigger] body->Array_0[i],
            ) == Some(items[i]) by {
                assert(body->Array_0[i] == encode_type(items[i]));
                lemma_type_round_trip(items[i]);
            }
            let decoded = decode_type(j);
            assert(decoded is Some);
            assert(decoded->Some_0->List_0 =~= items);
        },
        ConfigValueTypeView::Enum(e) => {
            lemma_tag_of_tagged("Enum"@, encode_enum(e));
            lemma_enum_round_trip(e);
        },
        ConfigValueTypeView::Path(p) => {
            lemma_tag_of_tagged("Path"@, JsonValueView::String(p));
        },
    }
}

/// The object with the single member `name`.
pub fn tag(name: &str, body: JsonValue) -> (j: JsonValue)
    ensures
        j@ == tagged(name@, body@),
{
    let mut members: Vec<(String, JsonValue)> = Vec::new();
    proof {
        lemma_no_members::<JsonValueView>();
        assert(members_view(members@) =~= Seq::empty());
    }
    push_member(&mut members, String::from_str(name), body);
    object(members)
}

/// The JSON of a vector of strings.
pub fn encode_text_list(v: &Vec<String>) -> (j: JsonValue)
    ensures
        j@ == JsonValueView::Array(encode_texts(texts(v@))),
{
    let mut items: Vec<JsonValue> = Vec::new();
    let mut i: usize = 0;
    while i < v.len()
        invariant
            0 <= i <= v.len(),
            items.len() == i,
            forall|p: int| 0 <= p < i ==> (#[trigger] items@[p])@ == JsonValueView::String(v@[p]@),
        decreases v.len() - i,
    {
        items.push(JsonValue::String(v[i].clone()));
        i += 1;
    }
    assert(items_view(items@) =~= encode_texts(texts(v@)));
    array(items)
}

/// The strings of an array of JSON strings.
pub fn decode_text_list(items: &Vec<JsonValue>) -> (r: Option<Vec<String>>)
    ensures
        match decode_texts(items_view(items@)) {
            Some(v) => r matches Some(x) && texts(x@) == v,
            None => r is None,
        },
{
    let mut out: Vec<String> = Vec::new();
    let mut i: usize = 0;
    while i < items.len()
        invariant
            0 <= i <= items.len(),
            out.len() == i,
            forall|p: int| 0 <= p < i ==> (#[trigger] items_view(items@)[p]) is String,
            forall|p: int| 0 <= p < i ==> (#[trigger] out@[p])@ == items_view(items@)[p]->String_0,
        decreases items.len() - i,
    {
        match as_string(&items[i]) {
            Some(s) => {
                out.push(s.clone());
            },
            None => {
                assert(!(items_view(items@)[i as int] is String));
                return None;
            },
        }
        i += 1;
    }
    assert(texts(out@) =~= items_view(items@).map_values(|j: JsonValueView| j->String_0));
    Some(out)
}

/// The JSON of a choice.
pub fn encode_config_enum(e: &ConfigEnum) -> (j: JsonValue)
    ensures
        j@ == encode_enum(e@),
{
    let mut members: Vec<(String, JsonValue)> = Vec::new();
    proof {
        lemma_no_members::<JsonValueView>();
        assert(members_view(members@) =~= Seq::empty());
    }
    push_member(&mut members, String::from_str("name"), JsonValue::String(e.name.clone()));
    push_member(&mut members, String::from_str("current"), JsonValue::String(e.current.clone()));
    push_member(&mut members, String::from_str("values"), encode_text_list(&e.values));
    object(members)
}

/// The choice that a JSON value stands for.
pub fn decode_config_enum(j: &JsonValue) -> (r: OmniverlayResult<ConfigEnum>)
    ensures
        match decode_enum(j@) {
            Some(e) => r matches Ok(x) && x@ == e,
            None => r matches Err(e) && e@ == shape_error(),
        },
{
    let members = match as_object(j) {
        Some(members) => members,
        None => {
            return Err(shape_failure());
        },
    };
    let name = match find_member(members, "name") {
        Some(v) => match as_string(v) {
            Some(s) => s.clone(),
            None => {
                return Err(shape_failure());
            },
        },
        None => {
            return Err(shape_failure());
        },
    };
    let current = match find_member(members, "current") {
        Some(v) => match as_string(v) {
            Some(s) => s.clone(),
            None => {
                return Err(shape_failure());
            },
        },
        None => {
            return Err(shape_failure());
        },
    };
    let values = match find_member(members, "values") {
        Some(v) => match as_array(v) {
            Some(items) => match decode_text_list(items) {
                Some(values) => values,
                None => {
                    return Err(shape_failure());
                },
            },
            None => {
                return Err(shape_failure());
            },
        },
        None => {
            return Err(shape_failure());
        },
    };
    Ok(ConfigEnum { name, current, values })
}

/// The JSON of a configuration value.
pub fn encode_value_type(t: &ConfigValueType) -> (j: JsonValue)
    ensures
        j@ == encode_type(t@),
    decreases t,
{
    match t {
        ConfigValueType::String(s) => tag("String", JsonValue::String(s.clone())),
        ConfigValueType::Float(bits) => tag(
            "Float",
            JsonValue::Number(JsonNumber::from_float_bits(*bits)),
        ),
        ConfigValueType::Int(i) => tag("Int", JsonValue::Number(JsonNumber::from_signed(*i))),
        ConfigValueType::Bool(b) => tag("Bool", JsonValue::Bool(*b)),
        ConfigValueType::List(list) => {
            let mut items: Vec<JsonValue> = Vec::new();
            let mut i: usize = 0;
            while i < list.len()
                invariant
                    0 <= i <= list.len(),
                    *t is List,
                    t->List_0 == *list,
                    items.len() == i,
                    forall|p: int| 0 <= p < i ==> (#[trigger] items@[p])@ == encode_type(list@[p]@),
                decreases list.len() - i,
            {
                let item = encode_value_type(&list[i]);
                items.push(item);
                i += 1;
            }
            proof {
                lemma_list_view(*list);
                assert(items_view(items@) =~= encode_type(t@)->Object_0["List"@]->Array_0);
            }
            tag("List", array(items))
        },
        ConfigValueType::Enum(e) => tag("Enum", encode_config_enum(e)),
        ConfigValueType::Path(p) => tag("Path", JsonValue::String(p.clone())),
    }
}

/// The configuration value that a JSON value stands for.
pub fn decode_value_type(j: &JsonValue) -> (r: OmniverlayResult<ConfigValueType>)
    ensures
        match decode_type(j@) {
            Some(t) => r matches Ok(x) && x@ == t,
            None => r matches Err(e) && e@ == shape_error(),
        },
    decreases j,
{
    proof {
        lemma_variant_names();
    }
    let (name, body) = match single_member(j) {
        Some(member) => member,
        None => {
            return Err(shape_failure());
        },
    };
    if same_text(name.as_str(), "String") {
        match as_string(body) {
            Some(s) => Ok(ConfigValueType::String(s.clone())),
            None => Err(shape_failure()),
        }
    } else if same_text(name.as_str(), "Float") {
        match body {
            JsonValue::Number(n) => match n.float_bits {
                Some(bits) => Ok(ConfigValueType::Float(bits)),
                None => Err(shape_failure()),
            },
            _ => Err(shape_failure()),
        }
    } else if same_text(name.as_str(), "Int") {
        match body {
            JsonValue::Number(n) => match n.signed {
                Some(i) => Ok(ConfigValueType::Int(i)),
                None => Err(shape_failure()),
            },
            _ => Err(shape_failure()),
        }
    } else if same_text(name.as_str(), "Bool") {
        match body {
            JsonValue::Bool(b) => Ok(ConfigValueType::Bool(*b)),
            _ => Err(shape_failure()),
        }
    } else if same_text(name.as_str(), "List") {
        match body {
            JsonValue::Array(items) => {
                proof {
                    lemma_array_view(*items);
                }
                let mut list: Vec<ConfigValueType> = Vec::new();
                let mut i: usize = 0;
                while i < items.len()
                    invariant
                        0 <= i <= items.len(),
                        *body is Array,
                        body->Array_0 == *items,
                        decreases_to!(j => body),
                        body@ == JsonValueView::Array(items_view(items@)),
                        tag_of(j@) == Some(name@),
                        j@->Object_0[name@] == body@,
                        name@ == "List"@,
                        list.len() == i,
                        forall|p: int|
                            0 <= p < i ==> decode_type(#[trigger] items_view(items@)[p]) == Some(
                                list@[p]@,
                            ),
                    decreases items.len() - i,
                {
                    assert(decreases_to!(j => items[i as int]));
                    match decode_value_type(&items[i]) {
                        Ok(t) => {
                            list.push(t);
                        },
                        Err(e) => {
                            assert(decode_type(items_view(items@)[i as int]) is None);
                            return Err(e);
                        },
                    }
                    i += 1;
                }
                proof {
                    lemma_list_view(list);
                    assert(decode_type(j@) is Some);
                    assert(decode_type(j@)->Some_0->List_0 =~= ConfigValueType::List(list)@->List_0);
                }
                Ok(ConfigValueType::List(list))
            },
            _ => Err(shape_failure()),
        }
    } else if same_text(name.as_str(), "Enum") {
        match decode_config_enum(body) {
            Ok(e) => Ok(ConfigValueType::Enum(e)),
            Err(e) => Err(e),
        }
    } else if same_text(name.as_str(), "Path") {
        match as_string(body) {
            Some(s) => Ok(ConfigValueType::Path(s.clone())),
            None => Err(shape_failure()),
        }
    } else {
        Err(shape_failure())
    }
}

/// Whether a member after the one at `i` carries the same name.
pub fn shadowed(members: &Vec<(String, JsonValue)>, i: usize) -> (r: bool)
    requires
        i < members.len(),
    ensures
        r == !is_last_member(members_view(members@), i as int, members_view(members@)[i as int].0),
{
    let ghost mv = members_view(members@);
    let mut j: usize = i + 1;
    while j < members.len()
        invariant
            i < j <= members.len(),
            mv == members_view(members@),
            forall|p: int| i < p < j ==> (#[trigger] mv[p]).0 != mv[i as int].0,
        decreases members.len() - j,
    {
        if same_text(members[j].0.as_str(), members[i].0.as_str()) {
            assert(mv[j as int].0 == mv[i as int].0);
            return true;
        }
        j += 1;
    }
    false
}

/// The object whose members are the entries of `map`, each value encoded by `encode`.
pub fn encode_map<T, F: Fn(&T) -> JsonValue>(map: &NameMap<T>, encode: F) -> (j: JsonValue)
    requires
        forall|t: &T| #[trigger] encode.requires((t,)),
    ensures
        j@ is Object,
        j@->Object_0.dom() == map@.dom(),
        forall|k: Seq<char>| #[trigger]
            map@.contains_key(k) ==> exists|v: JsonValue|
                encode.ensures((&map@[k],), v) && v@ == j@->Object_0[k],
{
    let mut members: Vec<(String, JsonValue)> = Vec::new();
    proof {
        use_type_invariant(map);
        lemma_no_members::<JsonValueView>();
        assert(members_view(members@) =~= Seq::empty());
    }
    let mut i: usize = 0;
    while i < map.len()
        invariant
            0 <= i <= map.entries().len(),
            map.wf(),
            forall|t: &T| #[trigger] encode.requires((t,)),
            forall|k: Seq<char>| #[trigger]
                members_map(members_view(members@)).contains_key(k) <==> exists|p: int|
                    0 <= p < i && (#[trigger] map.entries()[p]).0 == k,
            forall|p: int|
                0 <= p < i ==> exists|v: JsonValue|
                    encode.ensures((&(#[trigger] map.entries()[p]).1,), v) && v@ == members_map(
                        members_view(members@),
                    )[map.entries()[p].0],
        decreases map.entries().len() - i,
    {
        let name = map.name_at(i).clone();
        let value = encode(map.value_at(i));
        let ghost before = members_map(members_view(members@));
        push_member(&mut members, name, value);
        proof {
            let after = members_map(members_view(members@));
            assert forall|k: Seq<char>| #[trigger] after.contains_key(k) <==> exists|p: int|
                0 <= p < i + 1 && (#[trigger] map.entries()[p]).0 == k by {
                if after.contains_key(k) {
                    if k == name@ {
                        assert(map.entries()[i as int].0 == k);
                    } else {
                        assert(before.contains_key(k));
                        let p = choose|p: int| 0 <= p < i && (#[trigger] map.entries()[p]).0 == k;
                        assert(0 <= p < i + 1 && map.entries()[p].0 == k);
                    }
                }
                if exists|p: int| 0 <= p < i + 1 && (#[trigger] map.entries()[p]).0 == k {
                    let p = choose|p: int| 0 <= p < i + 1 && (#[trigger] map.entries()[p]).0 == k;
                    if p < i {
                        assert(before.contains_key(k));
                    }
                }
            }
            assert forall|p: int| 0 <= p < i + 1 implies exists|v: JsonValue|
                encode.ensures((&(#[trigger] map.entries()[p]).1,), v) && v@
                    == after[map.entries()[p].0] by {
                if p < i {
                    assert(map.entries()[p].0 != map.entries()[i as int].0);
                    let v = choose|v: JsonValue|
                        encode.ensures((&map.entries()[p].1,), v) && v@ == before[map.entries()[p].0];
                    assert(encode.ensures((&map.entries()[p].1,), v) && v@
                        == after[map.entries()[p].0]);
                } else {
                    assert(encode.ensures((&map.entries()[p].1,), value) && value@
                        == after[map.entries()[p].0]);
                }
            }
        }
        i += 1;
    }
    let j = object(members);
    proof {
        let mm = members_map(members_view(members@));
        assert forall|k: Seq<char>| mm.dom().contains(k) <==> map@.dom().contains(k) by {
            lemma_contains(map.entries(), k);
            if mm.contains_key(k) {
                let p = choose|p: int| 0 <= p < i && (#[trigger] map.entries()[p]).0 == k;
                assert(map.entries()[p].0 == k);
            }
            if map@.contains_key(k) {
                let p = choose|p: int|
                    0 <= p < map.entries().len() && #[trigger] map.entries()[p].0 == k;
                assert(0 <= p < i && map.entries()[p].0 == k);
            }
        }
        assert(mm.dom() =~= map@.dom());
        assert forall|k: Seq<char>| #[trigger] map@.contains_key(k) implies exists|v: JsonValue|
            encode.ensures((&map@[k],), v) && v@ == j@->Object_0[k] by {
            lemma_contains(map.entries(), k);
            let p = choose|p: int| 0 <= p < map.entries().len() && #[trigger] map.entries()[p].0 == k;
            lemma_entry_at(map.entries(), p);
            let v = choose|v: JsonValue|
                encode.ensures((&map.entries()[p].1,), v) && v@ == mm[map.entries()[p].0];
            assert(encode.ensures((&map@[k],), v) && v@ == j@->Object_0[k]);
        }
    }
    j
}

/// The map whose entries are the members of an object that count, each
/// value decoded by `decode`. The first value that does not decode fails
/// the whole.
pub fn decode_map<T, F: Fn(&JsonValue) -> OmniverlayResult<T>>(
    members: &Vec<(String, JsonValue)>,
    decode: F,
) -> (r: OmniverlayResult<NameMap<T>>)
    requires
        forall|j: &JsonValue| #[trigger] decode.requires((j,)),
    ensures
        match r {
            Ok(map) => map@.dom() == members_map(members_view(members@)).dom() && forall|
                k: Seq<char>,
            | #[trigger]
                map@.contains_key(k) ==> exists|j: JsonValue|
                    j@ == members_map(members_view(members@))[k] && decode.ensures(
                        (&j,),
                        Ok::<T, OmniverlayError>(map@[k]),
                    ),
            Err(e) => exists|k: Seq<char>, j: JsonValue|
                #![trigger
                    members_map(members_view(members@))[k],
                    decode.ensures((&j,), Err::<T, OmniverlayError>(e)),
                ]
                members_map(members_view(members@)).contains_key(k) && j@ == members_map(
                    members_view(members@),
                )[k] && decode.ensures((&j,), Err::<T, OmniverlayError>(e)),
        },
{
    let ghost mv = members_view(members@);
    let ghost mm = members_map(mv);
    let mut map: NameMap<T> = NameMap::new();
    let mut i: usize = 0;
    while i < members.len()
        invariant
            0 <= i <= members.len(),
            mv == members_view(members@),
            mm == members_map(mv),
            forall|j: &JsonValue| #[trigger] decode.requires((j,)),
            forall|k: Seq<char>| #[trigger]
                map@.contains_key(k) <==> exists|p: int|
                    0 <= p < i && #[trigger] is_last_member(mv, p, k),
            forall|k: Seq<char>| #[trigger]
                map@.contains_key(k) ==> exists|j: JsonValue|
                    j@ == mm[k] && decode.ensures((&j,), Ok::<T, OmniverlayError>(map@[k])),
        decreases members.len() - i,
    {
        let ghost name = mv[i as int].0;
        if !shadowed(members, i) {
            proof {
                lemma_member_at(mv, i as int, name);
            }
            let ghost before = map@;
            match decode(&members[i].1) {
                Ok(value) => {
                    map.insert(members[i].0.clone(), value);
                    proof {
                        assert forall|k: Seq<char>| #[trigger] map@.contains_key(k) <==> exists|
                            p: int,
                        | 0 <= p < i + 1 && #[trigger] is_last_member(mv, p, k) by {
                            if map@.contains_key(k) {
                                if k == name {
                                    assert(is_last_member(mv, i as int, k));
                                } else {
                                    assert(before.contains_key(k));
                                    let p = choose|p: int|
                                        0 <= p < i && #[trigger] is_last_member(mv, p, k);
                                    assert(0 <= p < i + 1 && is_last_member(mv, p, k));
                                }
                            }
                            if exists|p: int| 0 <= p < i + 1 && #[trigger] is_last_member(mv, p, k) {
                                let p = choose|p: int|
                                    0 <= p < i + 1 && #[trigger] is_last_member(mv, p, k);
                                if p < i {
                                    assert(before.contains_key(k));
                                }
                            }
                        }
                        assert forall|k: Seq<char>| #[trigger]
                            map@.contains_key(k) implies exists|j: JsonValue|
                            j@ == mm[k] && decode.ensures(
                                (&j,),
                                Ok::<T, OmniverlayError>(map@[k]),
                            ) by {
                            if k == name {
                                assert(members[i as int].1@ == mm[k] && decode.ensures(
                                    (&members[i as int].1,),
                                    Ok::<T, OmniverlayError>(map@[k]),
                                ));
                            } else {
                                assert(before.contains_key(k));
                            }
                        }
                    }
                },
                Err(e) => {
                    proof {
                        assert(mm.contains_key(name) && members[i as int].1@ == mm[name]
                            && decode.ensures((&members[i as int].1,), Err::<T, OmniverlayError>(e)));
                    }
                    return Err(e);
                },
            }
        } else {
            proof {
                assert forall|k: Seq<char>| #[trigger] map@.contains_key(k) <==> exists|p: int|
                    0 <= p < i + 1 && #[trigger] is_last_member(mv, p, k) by {
                    if map@.contains_key(k) {
                        let p = choose|p: int| 0 <= p < i && #[trigger] is_last_member(mv, p, k);
                        assert(0 <= p < i + 1 && is_last_member(mv, p, k));
                    }
                    if exists|p: int| 0 <= p < i + 1 && #[trigger] is_last_member(mv, p, k) {
                        let p = choose|p: int| 0 <= p < i + 1 && #[trigger] is_last_member(mv, p, k);
                        assert(p < i);
                    }
                }
            }
        }
        i += 1;
    }
    proof {
        assert forall|k: Seq<char>| map@.dom().contains(k) <==> mm.dom().contains(k) by {
            if map@.contains_key(k) {
                let p = choose|p: int| 0 <= p < i && #[trigger] is_last_member(mv, p, k);
                assert(mv[p].0 == k);
            }
            if mm.contains_key(k) {
                lemma_last_member_exists(mv, k);
                let p = choose|p: int| is_last_member(mv, p, k);
                assert(0 <= p < i && is_last_member(mv, p, k));
            }
        }
        assert(map@.dom() =~= mm.dom());
    }
    Ok(map)
}

/// A described value as JSON.
pub open spec fn encode_value(v: ConfigValueView) -> JsonValueView {
    JsonValueView::Object(
        map![
            "description"@ => JsonValueView::String(v.description),
            "value"@ => encode_type(v.value),
        ],
    )
}

/// The described value that a JSON value stands for, if it has the shape of one.
pub open spec fn decode_value(j: JsonValueView) -> Option<ConfigValueView> {
    if j is Object && j->Object_0.contains_key("description"@) && j->Object_0["description"@]
        is String && j->Object_0.contains_key("value"@) && decode_type(j->Object_0["value"@])
        is Some {
        Some(
            ConfigValueView {
                description: j->Object_0["description"@]->String_0,
                value: decode_type(j->Object_0["value"@])->Some_0,
            },
        )
    } else {
        None
    }
}

/// The values of a category as JSON: an object with a member for each name.
pub open spec fn encode_values(m: Map<Seq<char>, ConfigValueView>) -> JsonValueView {
    JsonValueView::Object(m.map_values(|v: ConfigValueView| encode_value(v)))
}

/// The values that a JSON object stands for, if each member has the shape of one.
pub open spec fn decode_values(j: JsonValueView) -> Option<Map<Seq<char>, ConfigValueView>> {
    if j is Object && (forall|k: Seq<char>| #[trigger]
        j->Object_0.contains_key(k) ==> decode_value(j->Object_0[k]) is Some) {
        Some(j->Object_0.map_values(|x: JsonValueView| decode_value(x)->Some_0))
    } else {
        None
    }
}

/// A category as JSON.
pub open spec fn encode_category(c: ConfigCategoryView) -> JsonValueView {
    JsonValueView::Object(
        map![
            "name"@ => JsonValueView::String(c.name),
            "values"@ => encode_values(c.values),
        ],
    )
}

/// The category that a JSON value stands for, if it has the shape of one.
pub open spec fn decode_category(j: JsonValueView) -> Option<ConfigCategoryView> {
    if j is Object && j->Object_0.contains_key("name"@) && j->Object_0["name"@] is String
        && j->Object_0.contains_key("values"@) && decode_values(j->Object_0["values"@]) is Some {
        Some(
            ConfigCategoryView {
                name: j->Object_0["name"@]->String_0,
                values: decode_values(j->Object_0["values"@])->Some_0,
            },
        )
    } else {
        None
    }
}

/// A configuration as JSON: an object whose member `categories` is the
/// array of the categories.
pub open spec fn encode_config(c: ExtensionConfigView) -> JsonValueView {
    JsonValueView::Object(
        map![
            "categories"@ => JsonValueView::Array(
                c.categories.map_values(|x: ConfigCategoryView| encode_category(x)),
            ),
        ],
    )
}

/// The configuration that a JSON value stands for, if it has the shape of one.
pub open spec fn decode_config(j: JsonValueView) -> Option<ExtensionConfigView> {
    if j is Object && j->Object_0.contains_key("categories"@) && j->Object_0["categories"@]
        is Array && (forall|i: int|
        0 <= i < j->Object_0["categories"@]->Array_0.len() ==> decode_category(
            #[trigger] j->Object_0["categories"@]->Array_0[i],
        ) is Some) {
        Some(
            ExtensionConfigView {
                categories: j->Object_0["categories"@]->Array_0.map_values(
                    |x: JsonValueView| decode_category(x)->Some_0,
                ),
            },
        )
    } else {
        None
    }
}

/// The names of the fields of a described value differ.
pub proof fn lemma_value_fields()
    ensures
        "description"@ != "value"@,
{
    reveal_strlit("description");
    reveal_strlit("value");
    assert("description"@[0] == 'd');
    assert("value"@[0] == 'v');
}

/// Reading back the JSON of a described value gives the value.
pub proof fn lemma_value_round_trip(v: ConfigValueView)
    ensures
        decode_value(encode_value(v)) == Some(v),
{
    lemma_value_fields();
    lemma_type_round_trip(v.value);
}

/// Reading back the JSON of a category gives the category.
pub proof fn lemma_category_round_trip(c: ConfigCategoryView)
    ensures
        decode_category(encode_category(c)) == Some(c),
{
    lemma_enum_fields();
    let j = encode_values(c.values);
    assert forall|k: Seq<char>| #[trigger] j->Object_0.contains_key(k) implies decode_value(
        j->Object_0[k],
    ) == Some(c.values[k]) by {
        lemma_value_round_trip(c.values[k]);
    }
    assert(decode_values(j)->Some_0 =~= c.values);
}

/// Reading back the JSON of a configuration gives the configuration.
pub proof fn lemma_config_round_trip(c: ExtensionConfigView)
    ensures
        decode_config(encode_config(c)) == Some(c),
{
    let items = c.categories.map_values(|x: ConfigCategoryView| encode_category(x));
    assert forall|i: int| 0 <= i < items.len() implies decode_category(#[trigger] items[i]) == Some(
        c.categories[i],
    ) by {
        lemma_category_round_trip(c.categories[i]);
    }
    assert(decode_config(encode_config(c))->Some_0.categories =~= c.categories);
}

/// A configuration that is written as JSON and read back has the structure
/// it had: what is read back is the configuration itself.
pub proof fn lemma_json_round_trip_matches(c: ExtensionConfigView)
    ensures
        decode_config(encode_config(c)) == Some(c),
        structure_matches(decode_config(encode_config(c))->Some_0, c),
{
    lemma_config_round_trip(c);
    lemma_match_structure_reflexive(c);
}

/// The JSON of a described value.
pub fn encode_config_value(v: &ConfigValue) -> (j: JsonValue)
    ensures
        j@ == encode_value(v@),
{
    let mut members: Vec<(String, JsonValue)> = Vec::new();
    proof {
        lemma_no_members::<JsonValueView>();
        assert(members_view(members@) =~= Seq::empty());
    }
    push_member(
        &mut members,
        String::from_str("description"),
        JsonValue::String(v.description.clone()),
    );
    push_member(&mut members, String::from_str("value"), encode_value_type(&v.value));
    object(members)
}

/// The described value that a JSON value stands for.
pub fn decode_config_value(j: &JsonValue) -> (r: OmniverlayResult<ConfigValue>)
    ensures
        match decode_value(j@) {
            Some(v) => r matches Ok(x) && x@ == v,
            None => r matches Err(e) && e@ == shape_error(),
        },
{
    let members = match as_object(j) {
        Some(members) => members,
        None => {
            return Err(shape_failure());
        },
    };
    let description = match find_member(members, "description") {
        Some(v) => match as_string(v) {
            Some(s) => s.clone(),
            None => {
                return Err(shape_failure());
            },
        },
        None => {
            return Err(shape_failure());
        },
    };
    let value = match find_member(members, "value") {
        Some(v) => match decode_value_type(v) {
            Ok(value) => value,
            Err(e) => {
                return Err(e);
            },
        },
        None => {
            return Err(shape_failure());
        },
    };
    Ok(ConfigValue { description, value })
}

/// The JSON of the values of a category.
pub fn encode_config_values(values: &NameMap<ConfigValue>) -> (j: JsonValue)
    ensures
        j@ == encode_values(values_view(values@)),
{
    let encode = |v: &ConfigValue| -> (j: JsonValue)
        ensures
            j@ == encode_value(v@),
        {
            encode_config_value(v)
        };
    let j = encode_map(values, encode);
    assert(j@->Object_0 =~= values_view(values@).map_values(|v: ConfigValueView| encode_value(v)));
    j
}

/// The values that a JSON value stands for.
pub fn decode_config_values(j: &JsonValue) -> (r: OmniverlayResult<NameMap<ConfigValue>>)
    ensures
        match decode_values(j@) {
            Some(m) => r matches Ok(x) && values_view(x@) == m,
            None => r matches Err(e) && e@ == shape_error(),
        },
{
    let members = match as_object(j) {
        Some(members) => members,
        None => {
            return Err(shape_failure());
        },
    };
    let decode = |v: &JsonValue| -> (r: OmniverlayResult<ConfigValue>)
        ensures
            match decode_value(v@) {
                Some(d) => r matches Ok(x) && x@ == d,
                None => r matches Err(e) && e@ == shape_error(),
            },
        {
            decode_config_value(v)
        };
    let r = decode_map(members, decode);
    match r {
        Ok(map) => {
            assert(values_view(map@) =~= j@->Object_0.map_values(
                |x: JsonValueView| decode_value(x)->Some_0,
            ));
            Ok(map)
        },
        Err(e) => Err(e),
    }
}

/// The JSON of a category.
pub fn encode_config_category(c: &ConfigCategory) -> (j: JsonValue)
    ensures
        j@ == encode_category(c@),
{
    let mut members: Vec<(String, JsonValue)> = Vec::new();
    proof {
        lemma_no_members::<JsonValueView>();
        assert(members_view(members@) =~= Seq::empty());
    }
    push_member(&mut members, String::from_str("name"), JsonValue::String(c.name.clone()));
    push_member(&mut members, String::from_str("values"), encode_config_values(&c.values));
    object(members)
}

/// The category that a JSON value stands for.
pub fn decode_config_category(j: &JsonValue) -> (r: OmniverlayResult<ConfigCategory>)
    ensures
        match decode_category(j@) {
            Some(c) => r matches Ok(x) && x@ == c,
            None => r matches Err(e) && e@ == shape_error(),
        },
{
    let members = match as_object(j) {
        Some(members) => members,
        None => {
            return Err(shape_failure());
        },
    };
    let name = match find_member(members, "name") {
        Some(v) => match as_string(v) {
            Some(s) => s.clone(),
            None => {
                return Err(shape_failure());
            },
        },
        None => {
            return Err(shape_failure());
        },
    };
    let values = match find_member(members, "values") {
        Some(v) => match decode_config_values(v) {
            Ok(values) => values,
            Err(e) => {
                return Err(e);
            },
        },
        None => {
            return Err(shape_failure());
        },
    };
    Ok(ConfigCategory { name, values })
}

/// The JSON of a configuration.
pub fn encode_extension_config(c: &ExtensionConfig) -> (j: JsonValue)
    ensures
        j@ == encode_config(c@),
{
    let mut items: Vec<JsonValue> = Vec::new();
    let mut i: usize = 0;
    while i < c.categories.len()
        invariant
            0 <= i <= c.categories.len(),
            items.len() == i,
            forall|p: int|
                0 <= p < i ==> (#[trigger] items@[p])@ == encode_category(c.categories@[p]@),
        decreases c.categories.len() - i,
    {
        items.push(encode_config_category(&c.categories[i]));
        i += 1;
    }
    assert(items_view(items@) =~= c@.categories.map_values(
        |x: ConfigCategoryView| encode_category(x),
    ));
    let mut members: Vec<(String, JsonValue)> = Vec::new();
    proof {
        lemma_no_members::<JsonValueView>();
        assert(members_view(members@) =~= Seq::empty());
    }
    push_member(&mut members, String::from_str("categories"), array(items));
    object(members)
}

impl ExtensionConfig {
    /// The configuration as JSON.
    pub fn to_json(&self) -> (r: OmniverlayResult<JsonValue>)
        ensures
            r matches Ok(j) && j@ == encode_config(self@),
    {
        Ok(encode_extension_config(self))
    }

    /// The configuration that a JSON value stands for. A value that does
    /// not have the shape of a configuration is refused.
    pub fn from_json(json: &JsonValue) -> (r: OmniverlayResult<Self>)
        ensures
            match decode_config(json@) {
                Some(c) => r matches Ok(x) && x@ == c,
                None => r matches Err(e) && e@ == shape_error(),
            },
    {
        let members = match as_object(json) {
            Some(members) => members,
            None => {
                return Err(shape_failure());
            },
        };
        let items = match find_member(members, "categories") {
            Some(v) => match as_array(v) {
                Some(items) => items,
                None => {
                    return Err(shape_failure());
                },
            },
            None => {
                return Err(shape_failure());
            },
        };
        let mut categories: Vec<ConfigCategory> = Vec::new();
        let mut i: usize = 0;
        while i < items.len()
            invariant
                0 <= i <= items.len(),
                categories.len() == i,
                json@ is Object,
                json@->Object_0.contains_key("categories"@),
                json@->Object_0["categories"@] == JsonValueView::Array(items_view(items@)),
                forall|p: int|
                    0 <= p < i ==> decode_category(#[trigger] items_view(items@)[p]) == Some(
                        categories@[p]@,
                    ),
            decreases items.len() - i,
        {
            match decode_config_category(&items[i]) {
                Ok(c) => {
                    categories.push(c);
                },
                Err(e) => {
                    assert(decode_category(items_view(items@)[i as int]) is None);
                    return Err(e);
                },
            }
            i += 1;
        }
        assert(categories_view(categories@) =~= items_view(items@).map_values(
            |x: JsonValueView| decode_category(x)->Some_0,
        ));
        Ok(ExtensionConfig { categories })
    }
}

/// An optional configuration as JSON: `null` where there is none.
pub open spec fn encode_optional_config(c: Option<ExtensionConfigView>) -> JsonValueView {
    match c {
        Some(c) => encode_config(c),
        None => JsonValueView::Null,
    }
}

/// A state as JSON.
pub open spec fn encode_state(s: ExtensionStateView) -> JsonValueView {
    JsonValueView::Object(
        map![
            "is_enabled"@ => JsonValueView::Bool(s.is_enabled),
            "config"@ => encode_optional_config(s.config),
        ],
    )
}

/// The state that a JSON value stands for, if it has the shape of one. A
/// configuration that is missing or `null` is none.
pub open spec fn decode_state(j: JsonValueView) -> Option<ExtensionStateView> {
    if j is Object && j->Object_0.contains_key("is_enabled"@) && j->Object_0["is_enabled"@]
        is Bool {
        let is_enabled = j->Object_0["is_enabled"@]->Bool_0;
        if !j->Object_0.contains_key("config"@) || j->Object_0["config"@] is Null {
            Some(ExtensionStateView { is_enabled: is_enabled, config: None })
        } else {
            match decode_config(j->Object_0["config"@]) {
                Some(c) => Some(ExtensionStateView { is_enabled: is_enabled, config: Some(c) }),
                None => None,
            }
        }
    } else {
        None
    }
}

/// A length or a position as JSON.
pub open spec fn encode_u32(n: u32) -> JsonValueView {
    JsonValueView::Number(JsonNumber::of_unsigned(n as u64))
}

/// The length or position that a JSON value stands for: a number that
/// reads as an unsigned integer of at most 32 bits.
pub open spec fn decode_u32(j: JsonValueView) -> Option<u32> {
    if j is Number && j->Number_0.unsigned is Some && j->Number_0.unsigned->Some_0 <= u32::MAX {
        Some(j->Number_0.unsigned->Some_0 as u32)
    } else {
        None
    }
}

/// A layout as JSON.
pub open spec fn encode_layout(l: ExtensionLayout) -> JsonValueView {
    JsonValueView::Object(
        map![
            "width"@ => encode_u32(l.width),
            "height"@ => encode_u32(l.height),
            "x"@ => encode_u32(l.x),
            "y"@ => encode_u32(l.y),
        ],
    )
}

/// The layout that a JSON value stands for, if it has the shape of one.
pub open spec fn decode_layout(j: JsonValueView) -> Option<ExtensionLayout> {
    if j is Object && j->Object_0.contains_key("width"@) && decode_u32(j->Object_0["width"@])
        is Some && j->Object_0.contains_key("height"@) && decode_u32(j->Object_0["height"@])
        is Some && j->Object_0.contains_key("x"@) && decode_u32(j->Object_0["x"@]) is Some
        && j->Object_0.contains_key("y"@) && decode_u32(j->Object_0["y"@]) is Some {
        Some(
            ExtensionLayout {
                width: decode_u32(j->Object_0["width"@])->Some_0,
                height: decode_u32(j->Object_0["height"@])->Some_0,
                x: decode_u32(j->Object_0["x"@])->Some_0,
                y: decode_u32(j->Object_0["y"@])->Some_0,
            },
        )
    } else {
        None
    }
}

/// A record as JSON. A layout that is not there is `null`.
pub open spec fn encode_info(i: ExtensionInfoView) -> JsonValueView {
    JsonValueView::Object(
        map![
            "name"@ => JsonValueView::String(i.name),
            "state"@ => encode_state(i.state),
            "layout"@ => match i.layout {
                Some(l) => encode_layout(l),
                None => JsonValueView::Null,
            },
        ],
    )
}

/// The names of the fields of states, layouts and records differ.
pub proof fn lemma_record_fields()
    ensures
        "is_enabled"@ != "config"@,
        "width"@ != "height"@,
        "width"@ != "x"@,
        "width"@ != "y"@,
        "height"@ != "x"@,
        "height"@ != "y"@,
        "x"@ != "y"@,
        "name"@ != "state"@,
        "name"@ != "layout"@,
        "state"@ != "layout"@,
        "name"@ != "extensions"@,
{
    reveal_strlit("is_enabled");
    reveal_strlit("config");
    reveal_strlit("width");
    reveal_strlit("height");
    reveal_strlit("x");
    reveal_strlit("y");
    reveal_strlit("name");
    reveal_strlit("state");
    reveal_strlit("layout");
    reveal_strlit("extensions");
    assert("is_enabled"@[0] == 'i');
    assert("config"@[0] == 'c');
    assert("width"@[0] == 'w');
    assert("height"@[0] == 'h');
    assert("x"@[0] == 'x');
    assert("y"@[0] == 'y');
    assert("name"@[0] == 'n');
    assert("state"@[0] == 's');
    assert("layout"@[0] == 'l');
    assert("extensions"@[0] == 'e');
}

/// Reading back the JSON of a state gives the state.
pub proof fn lemma_state_round_trip(s: ExtensionStateView)
    ensures
        decode_state(encode_state(s)) == Some(s),
{
    lemma_record_fields();
    match s.config {
        Some(c) => {
            lemma_config_round_trip(c);
        },
        None => {},
    }
}

/// Reading back the JSON of a layout gives the layout.
pub proof fn lemma_layout_round_trip(l: ExtensionLayout)
    ensures
        decode_layout(encode_layout(l)) == Some(l),
{
    lemma_record_fields();
}

/// The JSON of a state.
pub fn encode_extension_state(s: &ExtensionState) -> (j: JsonValue)
    ensures
        j@ == encode_state(s@),
{
    let config = match &s.config {
        Some(c) => encode_extension_config(c),
        None => JsonValue::Null,
    };
    let mut members: Vec<(String, JsonValue)> = Vec::new();
    proof {
        lemma_no_members::<JsonValueView>();
        assert(members_view(members@) =~= Seq::empty());
    }
    push_member(&mut members, String::from_str("is_enabled"), JsonValue::Bool(s.is_enabled));
    push_member(&mut members, String::from_str("config"), config);
    object(members)
}

/// The state that a JSON value stands for.
pub fn decode_extension_state(j: &JsonValue) -> (r: OmniverlayResult<ExtensionState>)
    ensures
        match decode_state(j@) {
            Some(s) => r matches Ok(x) && x@ == s,
            None => r matches Err(e) && e@ == shape_error(),
        },
{
    let members = match as_object(j) {
        Some(members) => members,
        None => {
            return Err(shape_failure());
        },
    };
    let is_enabled = match find_member(members, "is_enabled") {
        Some(JsonValue::Bool(b)) => *b,
        _ => {
            return Err(shape_failure());
        },
    };
    let config = match find_member(members, "config") {
        None => None,
        Some(JsonValue::Null) => None,
        Some(v) => match ExtensionConfig::from_json(v) {
            Ok(c) => Some(c),
            Err(e) => {
                return Err(e);
            },
        },
    };
    Ok(ExtensionState { is_enabled, config })
}

/// The JSON of a length or a position.
pub fn encode_number(n: u32) -> (j: JsonValue)
    ensures
        j@ == encode_u32(n),
{
    JsonValue::Number(JsonNumber::from_unsigned(n as u64))
}

/// The length or position that a JSON value stands for.
pub fn decode_number(j: &JsonValue) -> (r: Option<u32>)
    ensures
        r == decode_u32(j@),
{
    match j {
        JsonValue::Number(n) => match n.unsigned {
            Some(u) => if u <= u32::MAX as u64 {
                Some(u as u32)
            } else {
                None
            },
            None => None,
        },
        _ => None,
    }
}

/// The number under `name` among `members`, read as a length or a position.
fn member_number(members: &Vec<(String, JsonValue)>, name: &str) -> (r: Option<u32>)
    ensures
        r == if members_map(members_view(members@)).contains_key(name@) {
            decode_u32(members_map(members_view(members@))[name@])
        } else {
            None
        },
{
    match find_member(members, name) {
        Some(v) => decode_number(v),
        None => None,
    }
}

/// The JSON of a layout.
pub fn encode_extension_layout(l: &ExtensionLayout) -> (j: JsonValue)
    ensures
        j@ == encode_layout(*l),
{
    let mut members: Vec<(String, JsonValue)> = Vec::new();
    proof {
        lemma_no_members::<JsonValueView>();
        assert(members_view(members@) =~= Seq::empty());
    }
    push_member(&mut members, String::from_str("width"), encode_number(l.width));
    push_member(&mut members, String::from_str("height"), encode_number(l.height));
    push_member(&mut members, String::from_str("x"), encode_number(l.x));
    push_member(&mut members, String::from_str("y"), encode_number(l.y));
    object(members)
}

/// The layout that a JSON value stands for.
pub fn decode_extension_layout(j: &JsonValue) -> (r: OmniverlayResult<ExtensionLayout>)
    ensures
        match decode_layout(j@) {
            Some(l) => r == Ok::<ExtensionLayout, OmniverlayError>(l),
            None => r matches Err(e) && e@ == shape_error(),
        },
{
    let members = match as_object(j) {
        Some(members) => members,
        None => {
            return Err(shape_failure());
        },
    };
    let width = member_number(members, "width");
    let height = member_number(members, "height");
    let x = member_number(members, "x");
    let y = member_number(members, "y");
    match (width, height, x, y) {
        (Some(width), Some(height), Some(x), Some(y)) => Ok(
            ExtensionLayout { width, height, x, y },
        ),
        _ => Err(shape_failure()),
    }
}

/// The JSON of a record.
pub fn encode_extension_info(i: &ExtensionInfo) -> (j: JsonValue)
    ensures
        j@ == encode_info(i@),
{
    let layout = match &i.layout {
        Some(l) => encode_extension_layout(l),
        None => JsonValue::Null,
    };
    let mut members: Vec<(String, JsonValue)> = Vec::new();
    proof {
        lemma_no_members::<JsonValueView>();
        assert(members_view(members@) =~= Seq::empty());
    }
    push_member(&mut members, String::from_str("name"), JsonValue::String(i.name.clone()));
    push_member(&mut members, String::from_str("state"), encode_extension_state(&i.state));
    push_member(&mut members, String::from_str("layout"), layout);
    object(members)
}

/// The views of the states of a map.
pub open spec fn states_view(m: Map<Seq<char>, ExtensionState>) -> Map<Seq<char>, ExtensionStateView> {
    m.map_values(|s: ExtensionState| s@)
}

/// A profile as JSON: its name, and an object with the state of each
/// extension it names.
pub open spec fn encode_profile(
    name: Seq<char>,
    states: Map<Seq<char>, ExtensionStateView>,
) -> JsonValueView {
    JsonValueView::Object(
        map![
            "name"@ => JsonValueView::String(name),
            "extensions"@ => JsonValueView::Object(
                states.map_values(|s: ExtensionStateView| encode_state(s)),
            ),
        ],
    )
}

/// The name and the states of the profile that a JSON value stands for, if
/// it has the shape of one.
pub open spec fn decode_profile(j: JsonValueView) -> Option<
    (Seq<char>, Map<Seq<char>, ExtensionStateView>),
> {
    if j is Object && j->Object_0.contains_key("name"@) && j->Object_0["name"@] is String
        && j->Object_0.contains_key("extensions"@) && j->Object_0["extensions"@] is Object && (
    forall|k: Seq<char>| #[trigger]
        j->Object_0["extensions"@]->Object_0.contains_key(k) ==> decode_state(
            j->Object_0["extensions"@]->Object_0[k],
        ) is Some) {
        Some(
            (
                j->Object_0["name"@]->String_0,
                j->Object_0["extensions"@]->Object_0.map_values(
                    |x: JsonValueView| decode_state(x)->Some_0,
                ),
            ),
        )
    } else {
        None
    }
}

/// A layout document as JSON: its name, and an object with the layout of
/// each extension it names.
pub open spec fn encode_layouts(
    name: Seq<char>,
    layouts: Map<Seq<char>, ExtensionLayout>,
) -> JsonValueView {
    JsonValueView::Object(
        map![
            "name"@ => JsonValueView::String(name),
            "extensions"@ => JsonValueView::Object(
                layouts.map_values(|l: ExtensionLayout| encode_layout(l)),
            ),
        ],
    )
}

/// The name and the layouts of the layout document that a JSON value
/// stands for, if it has the shape of one.
pub open spec fn decode_layouts(j: JsonValueView) -> Option<
    (Seq<char>, Map<Seq<char>, ExtensionLayout>),
> {
    if j is Object && j->Object_0.contains_key("name"@) && j->Object_0["name"@] is String
        && j->Object_0.contains_key("extensions"@) && j->Object_0["extensions"@] is Object && (
    forall|k: Seq<char>| #[trigger]
        j->Object_0["extensions"@]->Object_0.contains_key(k) ==> decode_layout(
            j->Object_0["extensions"@]->Object_0[k],
        ) is Some) {
        Some(
            (
                j->Object_0["name"@]->String_0,
                j->Object_0["extensions"@]->Object_0.map_values(
                    |x: JsonValueView| decode_layout(x)->Some_0,
                ),
            ),
        )
    } else {
        None
    }
}

/// Reading back the JSON of a profile gives its name and its states.
pub proof fn lemma_profile_round_trip(name: Seq<char>, states: Map<Seq<char>, ExtensionStateView>)
    ensures
        decode_profile(encode_profile(name, states)) == Some((name, states)),
{
    lemma_record_fields();
    let j = encode_profile(name, states);
    let inner = j->Object_0["extensions"@]->Object_0;
    assert forall|k: Seq<char>| #[trigger] inner.contains_key(k) implies decode_state(inner[k])
        == Some(states[k]) by {
        lemma_state_round_trip(states[k]);
    }
    assert(decode_profile(j)->Some_0.1 =~= states);
}

/// Reading back the JSON of a layout document gives its name and its layouts.
pub proof fn lemma_layouts_round_trip(name: Seq<char>, layouts: Map<Seq<char>, ExtensionLayout>)
    ensures
        decode_layouts(encode_layouts(name, layouts)) == Some((name, layouts)),
{
    lemma_record_fields();
    let j = encode_layouts(name, layouts);
    let inner = j->Object_0["extensions"@]->Object_0;
    assert forall|k: Seq<char>| #[trigger] inner.contains_key(k) implies decode_layout(inner[k])
        == Some(layouts[k]) by {
        lemma_layout_round_trip(layouts[k]);
    }
    assert(decode_layouts(j)->Some_0.1 =~= layouts);
}

/// The JSON of a profile with the given name and states.
pub fn encode_profile_document(name: &String, states: &NameMap<ExtensionState>) -> (j: JsonValue)
    ensures
        j@ == encode_profile(name@, states_view(states@)),
{
    let encode = |s: &ExtensionState| -> (j: JsonValue)
        ensures
            j@ == encode_state(s@),
        {
            encode_extension_state(s)
        };
    let inner = encode_map(states, encode);
    assert(inner@->Object_0 =~= states_view(states@).map_values(
        |s: ExtensionStateView| encode_state(s),
    ));
    let mut members: Vec<(String, JsonValue)> = Vec::new();
    proof {
        lemma_no_members::<JsonValueView>();
        assert(members_view(members@) =~= Seq::empty());
    }
    push_member(&mut members, String::from_str("name"), JsonValue::String(name.clone()));
    push_member(&mut members, String::from_str("extensions"), inner);
    object(members)
}

/// The name and the states of the profile that a JSON value stands for.
pub fn decode_profile_document(j: &JsonValue) -> (r: OmniverlayResult<
    (String, NameMap<ExtensionState>),
>)
    ensures
        match decode_profile(j@) {
            Some(p) => r matches Ok(x) && x.0@ == p.0 && states_view(x.1@) == p.1,
            None => r matches Err(e) && e@ == shape_error(),
        },
{
    let members = match as_object(j) {
        Some(members) => members,
        None => {
            return Err(shape_failure());
        },
    };
    let name = match find_member(members, "name") {
        Some(v) => match as_string(v) {
            Some(s) => s.clone(),
            None => {
                return Err(shape_failure());
            },
        },
        None => {
            return Err(shape_failure());
        },
    };
    let inner = match find_member(members, "extensions") {
        Some(v) => match as_object(v) {
            Some(inner) => inner,
            None => {
                return Err(shape_failure());
            },
        },
        None => {
            return Err(shape_failure());
        },
    };
    let decode = |v: &JsonValue| -> (r: OmniverlayResult<ExtensionState>)
        ensures
            match decode_state(v@) {
                Some(d) => r matches Ok(x) && x@ == d,
                None => r matches Err(e) && e@ == shape_error(),
            },
        {
            decode_extension_state(v)
        };
    match decode_map(inner, decode) {
        Ok(states) => {
            assert(states_view(states@) =~= j@->Object_0["extensions"@]->Object_0.map_values(
                |x: JsonValueView| decode_state(x)->Some_0,
            ));
            Ok((name, states))
        },
        Err(e) => Err(e),
    }
}

/// The JSON of a layout document with the given name and layouts.
pub fn encode_layout_document(name: &String, layouts: &NameMap<ExtensionLayout>) -> (j: JsonValue)
    ensures
        j@ == encode_layouts(name@, layouts@),
{
    let encode = |l: &ExtensionLayout| -> (j: JsonValue)
        ensures
            j@ == encode_layout(*l),
        {
            encode_extension_layout(l)
        };
    let inner = encode_map(layouts, encode);
    assert(inner@->Object_0 =~= layouts@.map_values(|l: ExtensionLayout| encode_layout(l)));
    let mut members: Vec<(String, JsonValue)> = Vec::new();
    proof {
        lemma_no_members::<JsonValueView>();
        assert(members_view(members@) =~= Seq::empty());
    }
    push_member(&mut members, String::from_str("name"), JsonValue::String(name.clone()));
    push_member(&mut members, String::from_str("extensions"), inner);
    object(members)
}

/// The name and the layouts of the layout document that a JSON value stands for.
pub fn decode_layout_document(j: &JsonValue) -> (r: OmniverlayResult<
    (String, NameMap<ExtensionLayout>),
>)
    ensures
        match decode_layouts(j@) {
            Some(p) => r matches Ok(x) && x.0@ == p.0 && x.1@ == p.1,
            None => r matches Err(e) && e@ == shape_error(),
        },
{
    let members = match as_object(j) {
        Some(members) => members,
        None => {
            return Err(shape_failure());
        },
    };
    let name = match find_member(members, "name") {
        Some(v) => match as_string(v) {
            Some(s) => s.clone(),
            None => {
                return Err(shape_failure());
            },
        },
        None => {
            return Err(shape_failure());
        },
    };
    let inner = match find_member(members, "extensions") {
        Some(v) => match as_object(v) {
            Some(inner) => inner,
            None => {
                return Err(shape_failure());
            },
        },
        None => {
            return Err(shape_failure());
        },
    };
    let decode = |v: &JsonValue| -> (r: OmniverlayResult<ExtensionLayout>)
        ensures
            match decode_layout(v@) {
                Some(d) => r == Ok::<ExtensionLayout, OmniverlayError>(d),
                None => r matches Err(e) && e@ == shape_error(),
            },
        {
            decode_extension_layout(v)
        };
    match decode_map(inner, decode) {
        Ok(layouts) => {
            assert(layouts@ =~= j@->Object_0["extensions"@]->Object_0.map_values(
                |x: JsonValueView| decode_layout(x)->Some_0,
            ));
            Ok((name, layouts))
        },
        Err(e) => Err(e),
    }
}

} // verus!
