//! The part of a decoded save tree that the editing logic reads.
//!
//! Each kind of node that the logic inspects has a variant of its own with
//! plain values; everything else is carried through untouched as the codec's
//! own value.
use vstd::prelude::*;

verus! {

/// One named property; a list of them is an ordered field map.
pub struct Field {
    pub name: String,
    pub node: Node,
}

/// A property value.
pub enum Node {
    /// A 32-bit integer property.
    Int { id: Option<u128>, value: i32 },
    /// A struct property of struct type `Guid` holding a 128-bit identifier.
    Guid { id: Option<u128>, struct_id: u128, guid: u128 },
    /// An array property.
    Array { id: Option<u128>, array_type: ArrayType, body: ArrayBody },
    /// Any other property, passed through unchanged.
    Other(uesave::Property),
}

/// The element property type that an array declares.
pub enum ArrayType {
    StructProperty,
    Other(uesave::PropertyType),
}

/// The contents of an array property.
pub enum ArrayBody {
    /// An array of structs, with its wrapper's type name, property name and
    /// element struct type.
    Structs {
        wrapper_type: String,
        name: String,
        struct_type: StructTag,
        id: u128,
        elements: Vec<Element>,
    },
    /// Any other array, passed through unchanged.
    Other(uesave::ValueArray),
}

/// A struct type tag.
pub enum StructTag {
    /// A user-defined struct, with its type name when the save records one.
    Named(Option<String>),
    Other(uesave::StructType),
}

/// One element of a struct array.
pub enum Element {
    /// A struct that is a list of properties.
    Record(Vec<Field>),
    /// Any other struct value, passed through unchanged.
    Other(uesave::StructValue),
}

/// Index of the first field at or after `i` named `name`, or -1.
pub open spec fn position_from(fields: Seq<Field>, name: Seq<char>, i: int) -> int
    decreases fields.len() - i,
{
    if i < 0 || i >= fields.len() {
        -1
    } else if fields[i].name@ == name {
        i
    } else {
        position_from(fields, name, i + 1)
    }
}

/// Index of the first field named `name`, or -1 where there is none.
pub open spec fn position(fields: Seq<Field>, name: Seq<char>) -> int {
    position_from(fields, name, 0)
}

/// The value of the field named `name`, where it is an integer.
pub open spec fn int_of(fields: Seq<Field>, name: Seq<char>) -> Option<i32> {
    let p = position(fields, name);
    if p >= 0 {
        match fields[p].node {
            Node::Int { value, .. } => Some(value),
            _ => None,
        }
    } else {
        None
    }
}

/// The identifier held by the field named `name`, where it is a `Guid`.
pub open spec fn guid_of(fields: Seq<Field>, name: Seq<char>) -> Option<u128> {
    let p = position(fields, name);
    if p >= 0 {
        match fields[p].node {
            Node::Guid { guid, .. } => Some(guid),
            _ => None,
        }
    } else {
        None
    }
}

/// `node` with its integer payload replaced by `v`; other nodes unchanged.
pub open spec fn with_int(node: Node, v: i32) -> Node {
    match node {
        Node::Int { id, .. } => Node::Int { id, value: v },
        other => other,
    }
}

/// `fields` with the integer field named `name` set to `v`.
pub open spec fn set_int_spec(fields: Seq<Field>, name: Seq<char>, v: i32) -> Seq<Field> {
    let p = position(fields, name);
    fields.update(p, Field { name: fields[p].name, node: with_int(fields[p].node, v) })
}

pub proof fn lemma_position_from_bounds(fields: Seq<Field>, name: Seq<char>, i: int)
    ensures
        position_from(fields, name, i) == -1 || (i <= position_from(fields, name, i) < fields.len()
            && fields[position_from(fields, name, i)].name@ == name),
    decreases fields.len() - i,
{
    if 0 <= i < fields.len() && fields[i].name@ != name {
        lemma_position_from_bounds(fields, name, i + 1);
    }
}

/// Two field lists with the same names in the same order find every name at
/// the same index.
pub proof fn lemma_position_same_names(a: Seq<Field>, b: Seq<Field>, name: Seq<char>)
    requires
        a.len() == b.len(),
        forall|k: int| 0 <= k < a.len() ==> (#[trigger] a[k]).name@ == b[k].name@,
    ensures
        position(a, name) == position(b, name),
{
    lemma_position_from_same_names(a, b, name, 0);
}

proof fn lemma_position_from_same_names(a: Seq<Field>, b: Seq<Field>, name: Seq<char>, i: int)
    requires
        a.len() == b.len(),
        forall|k: int| 0 <= k < a.len() ==> (#[trigger] a[k]).name@ == b[k].name@,
        0 <= i,
    ensures
        position_from(a, name, i) == position_from(b, name, i),
    decreases a.len() - i,
{
    if i < a.len() {
        lemma_position_from_same_names(a, b, name, i + 1);
    }
}

/// Setting an integer field finds it where it was, with its new value, and
/// leaves every field of another name where and as it was.
pub proof fn lemma_set_int(fields: Seq<Field>, name: Seq<char>, v: i32, other: Seq<char>)
    requires
        int_of(fields, name) is Some,
        other != name,
    ensures
        set_int_spec(fields, name, v).len() == fields.len(),
        forall|k: int| 0 <= k < fields.len() ==> (#[trigger] set_int_spec(fields, name, v)[k]).name == fields[k].name,
        position(set_int_spec(fields, name, v), name) == position(fields, name),
        position(set_int_spec(fields, name, v), other) == position(fields, other),
        int_of(set_int_spec(fields, name, v), name) == Some(v),
        int_of(set_int_spec(fields, name, v), other) == int_of(fields, other),
        guid_of(set_int_spec(fields, name, v), other) == guid_of(fields, other),
{
    let s = set_int_spec(fields, name, v);
    let p = position(fields, name);
    lemma_position_from_bounds(fields, name, 0);
    lemma_position_from_bounds(fields, other, 0);
    lemma_position_same_names(s, fields, name);
    lemma_position_same_names(s, fields, other);
}

/// Finds the first field named `name`.
pub fn find_field(fields: &Vec<Field>, name: &str) -> (r: Option<usize>)
    ensures
        match r {
            Some(i) => i as int == position(fields@, name@) && i < fields@.len(),
            None => position(fields@, name@) == -1,
        },
{
    let key = name.to_owned();
    let mut i: usize = 0;
    while i < fields.len()
        invariant
            i <= fields@.len(),
            key@ == name@,
            position(fields@, name@) == position_from(fields@, name@, i as int),
        decreases fields@.len() - i,
    {
        if fields[i].name == key {
            return Some(i);
        }
        i = i + 1;
    }
    None
}

/// Reads the integer field named `name`.
pub fn get_int(fields: &Vec<Field>, name: &str) -> (r: Option<i32>)
    ensures
        r == int_of(fields@, name@),
{
    proof {
        lemma_position_from_bounds(fields@, name@, 0);
    }
    match find_field(fields, name) {
        Some(i) => match &fields[i].node {
            Node::Int { value, .. } => Some(*value),
            _ => None,
        },
        None => None,
    }
}

/// Reads the identifier field named `name`.
pub fn get_guid(fields: &Vec<Field>, name: &str) -> (r: Option<u128>)
    ensures
        r == guid_of(fields@, name@),
{
    proof {
        lemma_position_from_bounds(fields@, name@, 0);
    }
    match find_field(fields, name) {
        Some(i) => match &fields[i].node {
            Node::Guid { guid, .. } => Some(*guid),
            _ => None,
        },
        None => None,
    }
}

/// Overwrites the payload of the integer field named `name`; no other field
/// and no other part of that field changes.
pub fn set_int(fields: &mut Vec<Field>, name: &str, v: i32)
    requires
        int_of(old(fields)@, name@) is Some,
    ensures
        final(fields)@ == set_int_spec(old(fields)@, name@, v),
{
    proof {
        lemma_position_from_bounds(old(fields)@, name@, 0);
    }
    let i = find_field(fields, name).unwrap();
    let key = fields[i].name.clone();
    let id = match &fields[i].node {
        Node::Int { id, .. } => *id,
        _ => None,
    };
    fields.set(i, Field { name: key, node: Node::Int { id, value: v } });
}

} // verus!
