//! JSON values as trees.

use crate::utils::text::same_text;
use vstd::prelude::*;

verus! {

/// A JSON number by the three ways to read it: as an unsigned integer, as a
/// signed integer, and as a float, held as the bit pattern of its IEEE 754
/// double. A way that does not apply to the number is `None`.
#[derive(Clone, Copy, Debug, PartialEq, Eq, Structural)]
pub struct JsonNumber {
    pub unsigned: Option<u64>,
    pub signed: Option<i64>,
    pub float_bits: Option<u64>,
}

impl JsonNumber {
    /// The number `i`, read as an integer.
    pub open spec fn of_signed(i: i64) -> JsonNumber {
        JsonNumber {
            unsigned: if i >= 0 {
                Some(i as u64)
            } else {
                None
            },
            signed: Some(i),
            float_bits: None,
        }
    }

    /// The number `u`, read as an integer.
    pub open spec fn of_unsigned(u: u64) -> JsonNumber {
        JsonNumber {
            unsigned: Some(u),
            signed: if u <= i64::MAX {
                Some(u as i64)
            } else {
                None
            },
            float_bits: None,
        }
    }

    /// The float with the bit pattern `bits`.
    pub open spec fn of_float_bits(bits: u64) -> JsonNumber {
        JsonNumber { unsigned: None, signed: None, float_bits: Some(bits) }
    }

    pub fn from_signed(i: i64) -> (n: JsonNumber)
        ensures
            n == Self::of_signed(i),
    {
        JsonNumber {
            unsigned: if i >= 0 {
                Some(i as u64)
            } else {
                None
            },
            signed: Some(i),
            float_bits: None,
        }
    }

    pub fn from_unsigned(u: u64) -> (n: JsonNumber)
        ensures
            n == Self::of_unsigned(u),
    {
        JsonNumber {
            unsigned: Some(u),
            signed: if u <= i64::MAX as u64 {
                Some(u as i64)
            } else {
                None
            },
            float_bits: None,
        }
    }

    pub fn from_float_bits(bits: u64) -> (n: JsonNumber)
        ensures
            n == Self::of_float_bits(bits),
    {
        JsonNumber { unsigned: None, signed: None, float_bits: Some(bits) }
    }
}

/// A JSON value. The members of an object are held in order; of two members
/// with one name the later one counts.
#[derive(Debug)]
pub enum JsonValue {
    Null,
    Bool(bool),
    Number(JsonNumber),
    String(String),
    Array(Vec<JsonValue>),
    Object(Vec<(String, JsonValue)>),
}

pub enum JsonValueView {
    Null,
    Bool(bool),
    Number(JsonNumber),
    String(Seq<char>),
    Array(Seq<JsonValueView>),
    Object(Map<Seq<char>, JsonValueView>),
}

/// `i` is the place of the last member of `members` called `name`.
pub open spec fn is_last_member<V>(members: Seq<(Seq<char>, V)>, i: int, name: Seq<char>) -> bool {
    &&& 0 <= i < members.len()
    &&& members[i].0 == name
    &&& forall|j: int| i < j < members.len() ==> (#[trigger] members[j]).0 != name
}

/// The members of an object by name. Of several members with one name the
/// last counts.
pub open spec fn members_map<V>(members: Seq<(Seq<char>, V)>) -> Map<Seq<char>, V> {
    Map::new(
        |k: Seq<char>| exists|i: int| 0 <= i < members.len() && (#[trigger] members[i]).0 == k,
        |k: Seq<char>| members[choose|i: int| is_last_member(members, i, k)].1,
    )
}

/// The last member of a given name is the one that the name maps to.
pub proof fn lemma_member_at<V>(members: Seq<(Seq<char>, V)>, i: int, name: Seq<char>)
    requires
        is_last_member(members, i, name),
    ensures
        members_map(members).contains_key(name),
        members_map(members)[name] == members[i].1,
{
    let c = choose|c: int| is_last_member(members, c, name);
    if c < i {
        assert(members[i].0 != name);
    } else if i < c {
        assert(members[c].0 != name);
    }
}

/// The tree that a JSON value stands for.
pub open spec fn json_view(v: JsonValue) -> JsonValueView
    decreases v,
{
    match v {
        JsonValue::Null => JsonValueView::Null,
        JsonValue::Bool(b) => JsonValueView::Bool(b),
        JsonValue::Number(n) => JsonValueView::Number(n),
        JsonValue::String(s) => JsonValueView::String(s@),
        JsonValue::Array(items) => JsonValueView::Array(
            Seq::new(
                items.len() as nat,
                |i: int|
                    if 0 <= i < items.len() {
                        json_view(items[i])
                    } else {
                        JsonValueView::Null
                    },
            ),
        ),
        JsonValue::Object(members) => JsonValueView::Object(members_map(json_members(members))),
    }
}

/// The members of an object, each value as the tree it stands for.
pub open spec fn json_members(members: Vec<(String, JsonValue)>) -> Seq<(Seq<char>, JsonValueView)>
    decreases members,
{
    Seq::new(
        members.len() as nat,
        |i: int|
            if 0 <= i < members.len() {
                (members[i].0@, json_view(members[i].1))
            } else {
                (Seq::empty(), JsonValueView::Null)
            },
    )
}

impl View for JsonValue {
    type V = JsonValueView;

    open spec fn view(&self) -> JsonValueView {
        json_view(*self)
    }
}

/// The members of an object, each value by its view.
pub open spec fn members_view(members: Seq<(String, JsonValue)>) -> Seq<(Seq<char>, JsonValueView)> {
    members.map_values(|m: (String, JsonValue)| (m.0@, m.1@))
}

/// The views of the items of an array.
pub open spec fn items_view(items: Seq<JsonValue>) -> Seq<JsonValueView> {
    items.map_values(|v: JsonValue| v@)
}

/// The view of an array is the sequence of its items' views.
pub proof fn lemma_array_view(items: Vec<JsonValue>)
    ensures
        JsonValue::Array(items)@ == JsonValueView::Array(items_view(items@)),
{
    assert(JsonValue::Array(items)@->Array_0 =~= items_view(items@));
}

/// The view of an object is the map of its members' views.
pub proof fn lemma_object_view(members: Vec<(String, JsonValue)>)
    ensures
        JsonValue::Object(members)@ == JsonValueView::Object(members_map(members_view(members@))),
{
    assert(json_members(members) =~= members_view(members@));
}

/// The value of the last member called `name`, if the object has one.
pub fn find_member<'a>(members: &'a Vec<(String, JsonValue)>, name: &str) -> (r: Option<&'a JsonValue>)
    ensures
        match r {
            Some(v) => members_map(members_view(members@)).contains_key(name@) && v@ == members_map(
                members_view(members@),
            )[name@],
            None => !members_map(members_view(members@)).contains_key(name@),
        },
{
    let mut i: usize = members.len();
    while i > 0
        invariant
            0 <= i <= members.len(),
            forall|j: int| i <= j < members.len() ==> (#[trigger] members_view(members@)[j]).0 != name@,
        decreases i,
    {
        i -= 1;
        if same_text(members[i].0.as_str(), name) {
            proof {
                assert(members_view(members@)[i as int].0 == name@);
                lemma_member_at(members_view(members@), i as int, name@);
            }
            return Some(&members[i].1);
        }
    }
    None
}

/// A member added at the end counts for its name.
pub proof fn lemma_members_push<V>(members: Seq<(Seq<char>, V)>, name: Seq<char>, value: V)
    ensures
        members_map(members.push((name, value))) == members_map(members).insert(name, value),
{
    let longer = members.push((name, value));
    let last = members.len() as int;
    assert(longer[last].0 == name);
    lemma_member_at(longer, last, name);
    assert forall|k: Seq<char>| #[trigger]
        members_map(longer).contains_key(k) <==> members_map(members).insert(
            name,
            value,
        ).contains_key(k) by {
        if members_map(longer).contains_key(k) {
            let i = choose|i: int| 0 <= i < longer.len() && (#[trigger] longer[i]).0 == k;
            if i < last {
                assert(members[i].0 == k);
            }
        }
        if members_map(members).contains_key(k) {
            let i = choose|i: int| 0 <= i < members.len() && (#[trigger] members[i]).0 == k;
            assert(longer[i].0 == k);
        }
    }
    assert forall|k: Seq<char>| members_map(longer).contains_key(k) implies #[trigger] members_map(
        longer,
    )[k] == members_map(members).insert(name, value)[k] by {
        if k != name {
            let i = choose|i: int| 0 <= i < longer.len() && (#[trigger] longer[i]).0 == k;
            assert(i < last);
            assert(members[i].0 == k);
            let c = choose|c: int| is_last_member(members, c, k);
            lemma_last_member_exists(members, k);
            assert(is_last_member(members, c, k));
            assert(is_last_member(longer, c, k)) by {
                assert forall|j: int| c < j < longer.len() implies (#[trigger] longer[j]).0 != k by {
                    if j < last {
                        assert(members[j].0 != k);
                    }
                }
            }
            lemma_member_at(longer, c, k);
            lemma_member_at(members, c, k);
        }
    }
    assert(members_map(longer) =~= members_map(members).insert(name, value));
}

/// A name that some member carries has a last member that carries it.
pub proof fn lemma_last_member_exists<V>(members: Seq<(Seq<char>, V)>, name: Seq<char>)
    requires
        exists|i: int| 0 <= i < members.len() && (#[trigger] members[i]).0 == name,
    ensures
        exists|i: int| is_last_member(members, i, name),
    decreases members.len(),
{
    let last = members.len() - 1;
    if members[last].0 == name {
        assert(is_last_member(members, last, name));
    } else {
        let shorter = members.drop_last();
        let i = choose|i: int| 0 <= i < members.len() && (#[trigger] members[i]).0 == name;
        assert(shorter[i].0 == name);
        lemma_last_member_exists(shorter, name);
        let c = choose|c: int| is_last_member(shorter, c, name);
        assert(is_last_member(members, c, name)) by {
            assert forall|j: int| c < j < members.len() implies (#[trigger] members[j]).0 != name by {
                if j < last {
                    assert(shorter[j].0 != name);
                }
            }
        }
    }
}

/// Adds the member `name` at the end of the members of an object.
pub fn push_member(members: &mut Vec<(String, JsonValue)>, name: String, value: JsonValue)
    ensures
        members_view(final(members)@) == members_view(old(members)@).push((name@, value@)),
        members_map(members_view(final(members)@)) == members_map(members_view(old(members)@)).insert(
            name@,
            value@,
        ),
{
    proof {
        lemma_members_push(members_view(members@), name@, value@);
    }
    members.push((name, value));
    assert(members_view(members@) =~= members_view(old(members)@).push((name@, value@)));
}

/// The object with the given members.
pub fn object(members: Vec<(String, JsonValue)>) -> (j: JsonValue)
    ensures
        j@ == JsonValueView::Object(members_map(members_view(members@))),
{
    proof {
        lemma_object_view(members);
    }
    JsonValue::Object(members)
}

/// The array with the given items.
pub fn array(items: Vec<JsonValue>) -> (j: JsonValue)
    ensures
        j@ == JsonValueView::Array(items_view(items@)),
{
    proof {
        lemma_array_view(items);
    }
    JsonValue::Array(items)
}

/// The members of an object, if the value is one.
pub fn as_object(j: &JsonValue) -> (r: Option<&Vec<(String, JsonValue)>>)
    ensures
        match r {
            Some(members) => j@ == JsonValueView::Object(members_map(members_view(members@))),
            None => !(j@ is Object),
        },
{
    match j {
        JsonValue::Object(members) => {
            proof {
                lemma_object_view(*members);
            }
            Some(members)
        },
        _ => None,
    }
}

/// The items of an array, if the value is one.
pub fn as_array(j: &JsonValue) -> (r: Option<&Vec<JsonValue>>)
    ensures
        match r {
            Some(items) => j@ == JsonValueView::Array(items_view(items@)),
            None => !(j@ is Array),
        },
{
    match j {
        JsonValue::Array(items) => {
            proof {
                lemma_array_view(*items);
            }
            Some(items)
        },
        _ => None,
    }
}

/// The text of a string, if the value is one.
pub fn as_string(j: &JsonValue) -> (r: Option<&String>)
    ensures
        match r {
            Some(s) => j@ == JsonValueView::String(s@),
            None => !(j@ is String),
        },
{
    match j {
        JsonValue::String(s) => Some(s),
        _ => None,
    }
}

/// The empty map of members.
pub proof fn lemma_no_members<V>()
    ensures
        members_map(Seq::<(Seq<char>, V)>::empty()) == Map::<Seq<char>, V>::empty(),
{
    assert(members_map(Seq::<(Seq<char>, V)>::empty()) =~= Map::<Seq<char>, V>::empty());
}

/// Copies a JSON value, arrays item by item and objects member by member.
pub fn clone_json(v: &JsonValue) -> (r: JsonValue)
    ensures
        r@ == v@,
    decreases v,
{
    match v {
        JsonValue::Null => JsonValue::Null,
        JsonValue::Bool(b) => JsonValue::Bool(*b),
        JsonValue::Number(n) => JsonValue::Number(*n),
        JsonValue::String(s) => JsonValue::String(s.clone()),
        JsonValue::Array(items) => {
            let mut out: Vec<JsonValue> = Vec::new();
            let mut i: usize = 0;
            while i < items.len()
                invariant
                    0 <= i <= items.len(),
                    *v is Array,
                    v->Array_0 == *items,
                    out.len() == i,
                    forall|p: int| 0 <= p < i ==> (#[trigger] out@[p])@ == items@[p]@,
                decreases items.len() - i,
            {
                let item = clone_json(&items[i]);
                out.push(item);
                i += 1;
            }
            proof {
                lemma_array_view(*items);
                assert(items_view(out@) =~= items_view(items@));
            }
            array(out)
        },
        JsonValue::Object(members) => {
            let mut out: Vec<(String, JsonValue)> = Vec::new();
            let mut i: usize = 0;
            while i < members.len()
                invariant
                    0 <= i <= members.len(),
                    *v is Object,
                    v->Object_0 == *members,
                    out.len() == i,
                    forall|p: int|
                        0 <= p < i ==> (#[trigger] out@[p]).0@ == members@[p].0@ && out@[p].1@
                            == members@[p].1@,
                decreases members.len() - i,
            {
                let value = clone_json(&members[i].1);
                out.push((members[i].0.clone(), value));
                i += 1;
            }
            proof {
                lemma_object_view(*members);
                assert(members_view(out@) =~= members_view(members@));
            }
            object(out)
        },
    }
}

impl Clone for JsonValue {
    fn clone(&self) -> (r: Self)
        ensures
            r@ == self@,
    {
        clone_json(self)
    }
}

} // verus!
