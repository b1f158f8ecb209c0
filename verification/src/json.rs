//! JSON values as the decoders read them.

use vstd::prelude::*;

use crate::text::same_text;

verus! {

/// A JSON number by what it answers: as a signed integer, as an unsigned
/// integer, and as the bit pattern of the single-precision number next to it.
#[derive(Debug, Clone, Copy, PartialEq, Eq, Structural)]
pub struct JsonNumber {
    pub int: Option<i64>,
    pub uint: Option<u64>,
    pub single: u32,
}

/// A JSON value. An object lists its members in order.
#[derive(Debug)]
pub enum Json {
    Null,
    Bool(bool),
    Number(JsonNumber),
    Text(String),
    Array(Vec<Json>),
    Object(Vec<(String, Json)>),
}

/// Position of the first member with a name, from `i` on.
pub open spec fn member_from(o: Seq<(String, Json)>, name: Seq<char>, i: int) -> Option<int>
    decreases o.len() - i,
{
    if i < 0 || i >= o.len() {
        None
    } else if o[i].0@ == name {
        Some(i)
    } else {
        member_from(o, name, i + 1)
    }
}

/// The first member of an object with a name.
pub open spec fn member(o: Seq<(String, Json)>, name: Seq<char>) -> Option<Json> {
    match member_from(o, name, 0) {
        Some(i) => Some(o[i].1),
        None => None,
    }
}

/// Whether a value is an object with one member of a name, which has a value.
pub open spec fn has_member(v: Json, name: Seq<char>, value: Json) -> bool {
    v matches Json::Object(o) && exists|i: int|
        0 <= i < o@.len() && (#[trigger] o@[i]).0@ == name && o@[i].1 == value && forall|j: int|
            0 <= j < o@.len() && j != i ==> (#[trigger] o@[j]).0@ != name
}

/// Whether a value has no member of a name.
pub open spec fn lacks_member(v: Json, name: Seq<char>) -> bool {
    v matches Json::Object(o) ==> forall|j: int| 0 <= j < o@.len() ==> (#[trigger] o@[j]).0@ != name
}

/// The member of a name is the one that has it.
pub proof fn law_members_are_found_by_name(v: Json, name: Seq<char>, value: Json)
    ensures
        has_member(v, name, value) ==> (v matches Json::Object(o) && member(o@, name) == Some(value)),
        lacks_member(v, name) ==> (v matches Json::Object(o) ==> member(o@, name) is None),
{
    if let Json::Object(o) = v {
        if has_member(v, name, value) {
            let i = choose|i: int|
                0 <= i < o@.len() && (#[trigger] o@[i]).0@ == name && o@[i].1 == value && forall|j: int|
                    0 <= j < o@.len() && j != i ==> (#[trigger] o@[j]).0@ != name;
            lemma_member_from(o@, name, 0, i);
        }
        if lacks_member(v, name) {
            lemma_no_member_from(o@, name, 0);
        }
    }
}

/// The first member with a name.
proof fn lemma_member_from(o: Seq<(String, Json)>, name: Seq<char>, from: int, i: int)
    requires
        0 <= from <= i < o.len(),
        o[i].0@ == name,
        forall|j: int| from <= j < i ==> (#[trigger] o[j]).0@ != name,
    ensures
        member_from(o, name, from) == Some(i),
    decreases i - from,
{
    if from < i {
        lemma_member_from(o, name, from + 1, i);
    }
}

/// No member has a name.
proof fn lemma_no_member_from(o: Seq<(String, Json)>, name: Seq<char>, from: int)
    requires
        0 <= from <= o.len(),
        forall|j: int| from <= j < o.len() ==> (#[trigger] o[j]).0@ != name,
    ensures
        member_from(o, name, from) is None,
    decreases o.len() - from,
{
    if from < o.len() {
        lemma_no_member_from(o, name, from + 1);
    }
}

/// A value as a signed integer.
pub open spec fn as_int(v: Option<Json>) -> Option<i64> {
    match v {
        Some(Json::Number(n)) => n.int,
        _ => None,
    }
}

/// A value as a signed 32-bit integer.
pub open spec fn as_i32(v: Option<Json>) -> Option<i32> {
    match as_int(v) {
        Some(n) if i32::MIN <= n <= i32::MAX => Some(n as i32),
        _ => None,
    }
}

/// The first member of an object with a name.
pub fn get<'a>(o: &'a [(String, Json)], name: &str) -> (r: Option<&'a Json>)
    ensures
        match r {
            Some(v) => member(o@, name@) == Some(*v),
            None => member(o@, name@) is None,
        },
{
    let mut i: usize = 0;
    while i < o.len()
        invariant
            i <= o@.len(),
            member_from(o@, name@, 0) == member_from(o@, name@, i as int),
        decreases o.len() - i,
    {
        if same_text(o[i].0.as_str(), name) {
            return Some(&o[i].1);
        }
        i += 1;
    }
    None
}

/// A value as a signed integer.
pub fn int_of(v: Option<&Json>) -> (r: Option<i64>)
    ensures
        r == as_int(match v {
            Some(j) => Some(*j),
            None => None,
        }),
{
    match v {
        Some(Json::Number(n)) => n.int,
        _ => None,
    }
}

/// A value as a signed 32-bit integer.
pub fn i32_of(v: Option<&Json>) -> (r: Option<i32>)
    ensures
        r == as_i32(match v {
            Some(j) => Some(*j),
            None => None,
        }),
{
    match int_of(v) {
        Some(n) => if i32::MIN as i64 <= n && n <= i32::MAX as i64 {
            Some(n as i32)
        } else {
            None
        },
        None => None,
    }
}

} // verus!
