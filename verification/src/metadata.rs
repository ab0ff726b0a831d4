use vstd::prelude::*;

verus! {

/// A Typst value as far as metadata extraction reads it.
#[derive(Debug, PartialEq)]
pub enum MetaValue {
    /// Typst's `none`.
    Absent,
    Bool(bool),
    Int(i64),
    /// A float, by the bits of its IEEE 754 double-precision encoding.
    Float(u64),
    Str(String),
    /// A dictionary, its entries in order.
    Dict(Vec<(String, MetaValue)>),
    Array(Vec<MetaValue>),
    /// Any other value, by its Typst representation.
    Other(String),
}

/// A JSON value built from metadata.
#[derive(Debug, PartialEq)]
pub enum JsonValue {
    Bool(bool),
    Int(i64),
    /// A float, by the bits of its IEEE 754 double-precision encoding.
    Float(u64),
    Str(String),
    /// An object, its members in the order they were inserted.
    Object(Vec<(String, JsonValue)>),
    Array(Vec<JsonValue>),
}

/// `json` is the JSON form of the (present) value `value`: scalars map to
/// themselves, any other value to the string of its representation, and
/// dictionaries and arrays to objects and arrays without their absent
/// (`none`) members.
pub open spec fn json_of(value: MetaValue, json: JsonValue) -> bool
    decreases value,
{
    match value {
        MetaValue::Absent => false,
        MetaValue::Bool(b) => json == JsonValue::Bool(b),
        MetaValue::Int(i) => json == JsonValue::Int(i),
        MetaValue::Float(f) => json == JsonValue::Float(f),
        MetaValue::Str(s) => json matches JsonValue::Str(t) && t@ == s@,
        MetaValue::Other(r) => json matches JsonValue::Str(t) && t@ == r@,
        MetaValue::Dict(entries) => json matches JsonValue::Object(members) && members_of(
            entries@,
            members@,
        ),
        MetaValue::Array(items) => json matches JsonValue::Array(elems) && elems_of(
            items@,
            elems@,
        ),
    }
}

/// `members` are the JSON forms of the present entries of `entries`, in order,
/// each under its entry's key.
pub open spec fn members_of(entries: Seq<(String, MetaValue)>, members: Seq<(String, JsonValue)>) -> bool
    decreases entries,
{
    if entries.len() == 0 {
        members.len() == 0
    } else if entries.last().1 is Absent {
        members_of(entries.drop_last(), members)
    } else {
        &&& members.len() > 0
        &&& members.last().0@ == entries.last().0@
        &&& json_of(entries.last().1, members.last().1)
        &&& members_of(entries.drop_last(), members.drop_last())
    }
}

/// `elems` are the JSON forms of the present items of `items`, in order.
pub open spec fn elems_of(items: Seq<MetaValue>, elems: Seq<JsonValue>) -> bool
    decreases items,
{
    if items.len() == 0 {
        elems.len() == 0
    } else if items.last() is Absent {
        elems_of(items.drop_last(), elems)
    } else {
        &&& elems.len() > 0
        &&& json_of(items.last(), elems.last())
        &&& elems_of(items.drop_last(), elems.drop_last())
    }
}

/// Two JSON values have the same content: equal scalars, strings with the
/// same characters, and objects and arrays whose members have the same keys
/// and contents, in the same order.
pub open spec fn json_same(a: JsonValue, b: JsonValue) -> bool
    decreases a,
{
    match a {
        JsonValue::Bool(x) => b == JsonValue::Bool(x),
        JsonValue::Int(x) => b == JsonValue::Int(x),
        JsonValue::Float(x) => b == JsonValue::Float(x),
        JsonValue::Str(s) => b matches JsonValue::Str(t) && s@ == t@,
        JsonValue::Object(ma) => b matches JsonValue::Object(mb) && members_same(ma@, mb@),
        JsonValue::Array(xa) => b matches JsonValue::Array(xb) && elems_same(xa@, xb@),
    }
}

/// Two member lists have the same keys and contents, in the same order.
pub open spec fn members_same(ma: Seq<(String, JsonValue)>, mb: Seq<(String, JsonValue)>) -> bool
    decreases ma,
{
    if ma.len() == 0 {
        mb.len() == 0
    } else {
        &&& mb.len() > 0
        &&& ma.last().0@ == mb.last().0@
        &&& json_same(ma.last().1, mb.last().1)
        &&& members_same(ma.drop_last(), mb.drop_last())
    }
}

/// Two element lists have the same contents, in the same order.
pub open spec fn elems_same(xa: Seq<JsonValue>, xb: Seq<JsonValue>) -> bool
    decreases xa,
{
    if xa.len() == 0 {
        xb.len() == 0
    } else {
        &&& xb.len() > 0
        &&& json_same(xa.last(), xb.last())
        &&& elems_same(xa.drop_last(), xb.drop_last())
    }
}

/// A value has one JSON form: any two JSON forms of it have the same
/// content.
pub proof fn lemma_json_of_deterministic(value: MetaValue, a: JsonValue, b: JsonValue)
    requires
        json_of(value, a),
        json_of(value, b),
    ensures
        json_same(a, b),
    decreases value,
{
    match value {
        MetaValue::Dict(entries) => {
            let ma = a->Object_0;
            let mb = b->Object_0;
            assert(decreases_to!(value => value->Dict_0));
            assert(decreases_to!(entries => entries@));
            lemma_members_of_deterministic(entries@, ma@, mb@);
        },
        MetaValue::Array(items) => {
            let xa = a->Array_0;
            let xb = b->Array_0;
            assert(decreases_to!(value => value->Array_0));
            assert(decreases_to!(items => items@));
            lemma_elems_of_deterministic(items@, xa@, xb@);
        },
        _ => {},
    }
}

/// The member list of a dictionary's JSON form is determined up to content.
pub proof fn lemma_members_of_deterministic(
    entries: Seq<(String, MetaValue)>,
    ma: Seq<(String, JsonValue)>,
    mb: Seq<(String, JsonValue)>,
)
    requires
        members_of(entries, ma),
        members_of(entries, mb),
    ensures
        members_same(ma, mb),
    decreases entries,
{
    if entries.len() > 0 {
        if entries.last().1 is Absent {
            lemma_members_of_deterministic(entries.drop_last(), ma, mb);
        } else {
            assert(decreases_to!(entries => entries[entries.len() - 1]));
            assert(decreases_to!(entries[entries.len() - 1] => entries[entries.len() - 1].1));
            lemma_json_of_deterministic(entries.last().1, ma.last().1, mb.last().1);
            lemma_members_of_deterministic(entries.drop_last(), ma.drop_last(), mb.drop_last());
        }
    }
}

/// The element list of an array's JSON form is determined up to content.
pub proof fn lemma_elems_of_deterministic(items: Seq<MetaValue>, xa: Seq<JsonValue>, xb: Seq<JsonValue>)
    requires
        elems_of(items, xa),
        elems_of(items, xb),
    ensures
        elems_same(xa, xb),
    decreases items,
{
    if items.len() > 0 {
        if items.last() is Absent {
            lemma_elems_of_deterministic(items.drop_last(), xa, xb);
        } else {
            assert(decreases_to!(items => items[items.len() - 1]));
            lemma_json_of_deterministic(items.last(), xa.last(), xb.last());
            lemma_elems_of_deterministic(items.drop_last(), xa.drop_last(), xb.drop_last());
        }
    }
}

/// The number of entries of a dictionary that are present (not `none`).
pub open spec fn present_entries(entries: Seq<(String, MetaValue)>) -> nat
    decreases entries.len(),
{
    if entries.len() == 0 {
        0
    } else if entries.last().1 is Absent {
        present_entries(entries.drop_last())
    } else {
        present_entries(entries.drop_last()) + 1
    }
}

/// The number of items of an array that are present (not `none`).
pub open spec fn present_items(items: Seq<MetaValue>) -> nat
    decreases items.len(),
{
    if items.len() == 0 {
        0
    } else if items.last() is Absent {
        present_items(items.drop_last())
    } else {
        present_items(items.drop_last()) + 1
    }
}

/// The JSON object of a dictionary has one member for each present entry.
pub proof fn lemma_members_count(entries: Seq<(String, MetaValue)>, members: Seq<(String, JsonValue)>)
    requires
        members_of(entries, members),
    ensures
        members.len() == present_entries(entries),
    decreases entries.len(),
{
    if entries.len() > 0 {
        if entries.last().1 is Absent {
            lemma_members_count(entries.drop_last(), members);
        } else {
            lemma_members_count(entries.drop_last(), members.drop_last());
        }
    }
}

/// The JSON array of an array has one element for each present item.
pub proof fn lemma_elems_count(items: Seq<MetaValue>, elems: Seq<JsonValue>)
    requires
        elems_of(items, elems),
    ensures
        elems.len() == present_items(items),
    decreases items.len(),
{
    if items.len() > 0 {
        if items.last() is Absent {
            lemma_elems_count(items.drop_last(), elems);
        } else {
            lemma_elems_count(items.drop_last(), elems.drop_last());
        }
    }
}

/// The present (not `none`) entries of a dictionary, in order.
pub open spec fn present_entries_of(entries: Seq<(String, MetaValue)>) -> Seq<(String, MetaValue)> {
    entries.filter(|e: (String, MetaValue)| !(e.1 is Absent))
}

/// The present (not `none`) items of an array, in order.
pub open spec fn present_items_of(items: Seq<MetaValue>) -> Seq<MetaValue> {
    items.filter(|v: MetaValue| !(v is Absent))
}

/// The JSON form of a value: a boolean, integer or float stays the same
/// value, a string keeps its characters, any other scalar becomes the
/// string of its representation, a dictionary becomes an object and an
/// array an array; `none` has no JSON form.
pub proof fn lemma_json_of_scalars(value: MetaValue, json: JsonValue)
    requires
        json_of(value, json),
    ensures
        !(value is Absent),
        value matches MetaValue::Bool(b) ==> json == JsonValue::Bool(b),
        value matches MetaValue::Int(i) ==> json == JsonValue::Int(i),
        value matches MetaValue::Float(f) ==> json == JsonValue::Float(f),
        value matches MetaValue::Str(s) ==> (json matches JsonValue::Str(t) && t@ == s@),
        value matches MetaValue::Other(r) ==> (json matches JsonValue::Str(t) && t@ == r@),
        value is Dict ==> json is Object,
        value is Array ==> json is Array,
{
}

/// The members of a dictionary's JSON form are its present entries, in
/// order: the i-th member has the key of the i-th present entry and the
/// JSON form of its value.
pub proof fn lemma_members_are_present_entries(
    entries: Seq<(String, MetaValue)>,
    members: Seq<(String, JsonValue)>,
)
    requires
        members_of(entries, members),
    ensures
        members.len() == present_entries_of(entries).len(),
        forall|i: int|
            0 <= i < members.len() ==> {
                &&& (#[trigger] members[i]).0@ == present_entries_of(entries)[i].0@
                &&& json_of(present_entries_of(entries)[i].1, members[i].1)
            },
    decreases entries.len(),
{
    reveal(Seq::filter);
    if entries.len() > 0 {
        let rest = entries.drop_last();
        let p = present_entries_of(entries);
        let q = present_entries_of(rest);
        assert(entries.filter(|e: (String, MetaValue)| !(e.1 is Absent)) == (if !(entries.last().1 is Absent) {
            rest.filter(|e: (String, MetaValue)| !(e.1 is Absent)).push(entries.last())
        } else {
            rest.filter(|e: (String, MetaValue)| !(e.1 is Absent))
        }));
        if entries.last().1 is Absent {
            lemma_members_are_present_entries(rest, members);
        } else {
            lemma_members_are_present_entries(rest, members.drop_last());
            assert(p == q.push(entries.last()));
            assert forall|i: int| 0 <= i < members.len() implies {
                &&& (#[trigger] members[i]).0@ == p[i].0@
                &&& json_of(p[i].1, members[i].1)
            } by {
                if i < members.len() - 1 {
                    assert(members[i] == members.drop_last()[i]);
                    assert(p[i] == q[i]);
                }
            }
        }
    }
}

/// The elements of an array's JSON form are the JSON forms of its present
/// items, in order.
pub proof fn lemma_elems_are_present_items(items: Seq<MetaValue>, elems: Seq<JsonValue>)
    requires
        elems_of(items, elems),
    ensures
        elems.len() == present_items_of(items).len(),
        forall|i: int| 0 <= i < elems.len() ==> json_of(present_items_of(items)[i], #[trigger] elems[i]),
    decreases items.len(),
{
    reveal(Seq::filter);
    if items.len() > 0 {
        let rest = items.drop_last();
        let p = present_items_of(items);
        let q = present_items_of(rest);
        assert(items.filter(|v: MetaValue| !(v is Absent)) == (if !(items.last() is Absent) {
            rest.filter(|v: MetaValue| !(v is Absent)).push(items.last())
        } else {
            rest.filter(|v: MetaValue| !(v is Absent))
        }));
        if items.last() is Absent {
            lemma_elems_are_present_items(rest, elems);
        } else {
            lemma_elems_are_present_items(rest, elems.drop_last());
            assert(p == q.push(items.last()));
            assert forall|i: int| 0 <= i < elems.len() implies json_of(p[i], #[trigger] elems[i]) by {
                if i < elems.len() - 1 {
                    assert(elems[i] == elems.drop_last()[i]);
                    assert(p[i] == q[i]);
                }
            }
        }
    }
}

/// Converts a Typst value into its JSON form; `none` has none.
pub fn value_to_json(value: &MetaValue) -> (json: Option<JsonValue>)
    ensures
        match json {
            Some(j) => json_of(*value, j),
            None => *value is Absent,
        },
        *value matches MetaValue::Bool(b) ==> json == Some(JsonValue::Bool(b)),
        *value matches MetaValue::Int(i) ==> json == Some(JsonValue::Int(i)),
        *value matches MetaValue::Float(f) ==> json == Some(JsonValue::Float(f)),
        *value matches MetaValue::Str(s) ==> (json matches Some(JsonValue::Str(t)) && t@ == s@),
        *value matches MetaValue::Other(r) ==> (json matches Some(JsonValue::Str(t)) && t@ == r@),
        match *value {
            MetaValue::Dict(entries) => match json {
                Some(JsonValue::Object(members)) => {
                    &&& members@.len() == present_entries_of(entries@).len()
                    &&& forall|i: int|
                        0 <= i < members@.len() ==> {
                            &&& (#[trigger] members@[i]).0@ == present_entries_of(entries@)[i].0@
                            &&& json_of(present_entries_of(entries@)[i].1, members@[i].1)
                        }
                },
                _ => false,
            },
            MetaValue::Array(items) => match json {
                Some(JsonValue::Array(elems)) => {
                    &&& elems@.len() == present_items_of(items@).len()
                    &&& forall|i: int|
                        0 <= i < elems@.len() ==> json_of(
                            present_items_of(items@)[i],
                            #[trigger] elems@[i],
                        )
                },
                _ => false,
            },
            _ => true,
        },
{
    let json = value_to_json_form(value);
    proof {
        let v = *value;
        if json is Some {
            let j = json->Some_0;
            lemma_json_of_scalars(v, j);
            if v is Dict {
                lemma_members_are_present_entries(v->Dict_0@, j->Object_0@);
            }
            if v is Array {
                lemma_elems_are_present_items(v->Array_0@, j->Array_0@);
            }
        }
    }
    json
}

/// Builds the JSON form of a value, member by member.
fn value_to_json_form(value: &MetaValue) -> (json: Option<JsonValue>)
    ensures
        match json {
            Some(j) => json_of(*value, j),
            None => *value is Absent,
        },
    decreases value,
{
    match value {
        MetaValue::Absent => None,
        MetaValue::Bool(b) => Some(JsonValue::Bool(*b)),
        MetaValue::Int(i) => Some(JsonValue::Int(*i)),
        MetaValue::Float(f) => Some(JsonValue::Float(*f)),
        MetaValue::Str(s) => Some(JsonValue::Str(s.clone())),
        MetaValue::Other(r) => Some(JsonValue::Str(r.clone())),
        MetaValue::Dict(entries) => {
            let mut members: Vec<(String, JsonValue)> = Vec::new();
            let mut i: usize = 0;
            assert(entries@.take(0) =~= Seq::<(String, MetaValue)>::empty());
            while i < entries.len()
                invariant
                    i <= entries@.len(),
                    *value == MetaValue::Dict(*entries),
                    members_of(entries@.take(i as int), members@),
                decreases entries@.len() - i,
            {
                let entry = &entries[i];
                proof {
                    assert(decreases_to!(*value => (*value)->Dict_0));
                    assert(decreases_to!(*entries => entries@));
                    assert(decreases_to!(entries@ => entries@[i as int]));
                    assert(decreases_to!(entries@[i as int] => entries@[i as int].1));
                    assert(decreases_to!(*value => entries@[i as int].1));
                }
                let converted = value_to_json_form(&entry.1);
                let ghost before = members@;
                match converted {
                    Some(j) => {
                        members.push((entry.0.clone(), j));
                        assert(members@.drop_last() =~= before);
                    },
                    None => {},
                }
                proof {
                    let t = entries@.take(i + 1);
                    assert(t.drop_last() =~= entries@.take(i as int));
                    assert(t.last() == entries@[i as int]);
                }
                i = i + 1;
            }
            assert(entries@.take(entries@.len() as int) =~= entries@);
            Some(JsonValue::Object(members))
        },
        MetaValue::Array(items) => {
            let mut elems: Vec<JsonValue> = Vec::new();
            let mut i: usize = 0;
            assert(items@.take(0) =~= Seq::<MetaValue>::empty());
            while i < items.len()
                invariant
                    i <= items@.len(),
                    *value == MetaValue::Array(*items),
                    elems_of(items@.take(i as int), elems@),
                decreases items@.len() - i,
            {
                proof {
                    assert(decreases_to!(*value => (*value)->Array_0));
                    assert(decreases_to!(*items => items@));
                    assert(decreases_to!(items@ => items@[i as int]));
                    assert(decreases_to!(*value => items@[i as int]));
                }
                let converted = value_to_json_form(&items[i]);
                let ghost before = elems@;
                match converted {
                    Some(j) => {
                        elems.push(j);
                        assert(elems@.drop_last() =~= before);
                    },
                    None => {},
                }
                proof {
                    let t = items@.take(i + 1);
                    assert(t.drop_last() =~= items@.take(i as int));
                    assert(t.last() == items@[i as int]);
                }
                i = i + 1;
            }
            assert(items@.take(items@.len() as int) =~= items@);
            Some(JsonValue::Array(elems))
        },
    }
}

} // verus!
