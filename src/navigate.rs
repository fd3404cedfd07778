//! Finding the class slot array in a save tree and checking its shape.
use vstd::prelude::*;
use crate::error::{EditError, PathStep};
use crate::tree::{position, ArrayBody, ArrayType, Element, Field, Node, StructTag, find_field};

verus! {

/// Name of the root field that holds the class slots.
pub open spec fn slots_field_name() -> Seq<char> {
    "CharacterSaves"@
}

/// The first wrong step below a `CharacterSaves` node, if any.
pub open spec fn node_shape(node: Node) -> Option<PathStep> {
    match node {
        Node::Array { array_type, body, .. } => match array_type {
            ArrayType::StructProperty => match body {
                ArrayBody::Structs { wrapper_type, name, struct_type, .. } => {
                    if wrapper_type@ != "CharacterSaves"@ {
                        Some(PathStep::WrapperType)
                    } else if name@ != "StructProperty"@ {
                        Some(PathStep::WrapperName)
                    } else {
                        match struct_type {
                            StructTag::Named(Some(s)) => if s@ == "CharacterSave"@ {
                                None
                            } else {
                                Some(PathStep::ElementType)
                            },
                            _ => Some(PathStep::ElementType),
                        }
                    }
                },
                ArrayBody::Other(_) => Some(PathStep::StructBody),
            },
            ArrayType::Other(_) => Some(PathStep::ArrayType),
        },
        _ => Some(PathStep::CharacterSavesArray),
    }
}

/// The first wrong step on the path from the root to the class slots, if any.
pub open spec fn shape_error(root: Seq<Field>) -> Option<PathStep> {
    let p = position(root, slots_field_name());
    if p < 0 {
        Some(PathStep::CharacterSaves)
    } else {
        node_shape(root[p].node)
    }
}

/// The elements of a struct array node; empty for any other node.
pub open spec fn elements_of(node: Node) -> Seq<Element> {
    match node {
        Node::Array { body: ArrayBody::Structs { elements, .. }, .. } => elements@,
        _ => Seq::empty(),
    }
}

/// The class slots of a tree whose path to them has the expected shape.
pub open spec fn slots_of(root: Seq<Field>) -> Seq<Element> {
    elements_of(root[position(root, slots_field_name())].node)
}

/// Checks the shape of a `CharacterSaves` node.
fn check_node(node: &Node) -> (r: Option<PathStep>)
    ensures
        r == node_shape(*node),
{
    match node {
        Node::Array { array_type, body, .. } => match array_type {
            ArrayType::StructProperty => match body {
                ArrayBody::Structs { wrapper_type, name, struct_type, .. } => {
                    if *wrapper_type != "CharacterSaves".to_owned() {
                        Some(PathStep::WrapperType)
                    } else if *name != "StructProperty".to_owned() {
                        Some(PathStep::WrapperName)
                    } else {
                        match struct_type {
                            StructTag::Named(Some(s)) => if *s == "CharacterSave".to_owned() {
                                None
                            } else {
                                Some(PathStep::ElementType)
                            },
                            _ => Some(PathStep::ElementType),
                        }
                    }
                },
                ArrayBody::Other(_) => Some(PathStep::StructBody),
            },
            ArrayType::Other(_) => Some(PathStep::ArrayType),
        },
        _ => Some(PathStep::CharacterSavesArray),
    }
}

/// Locates the class slot array: the index of the root's `CharacterSaves`
/// field, or the first step of the path whose shape is wrong.
pub fn locate_slots(root: &Vec<Field>) -> (r: Result<usize, EditError>)
    ensures
        match shape_error(root@) {
            None => r matches Ok(p) && p == position(root@, slots_field_name()) && p < root@.len(),
            Some(step) => r == Err::<usize, EditError>(EditError::ShapeMismatch(step)),
        },
{
    match find_field(root, "CharacterSaves") {
        None => Err(EditError::ShapeMismatch(PathStep::CharacterSaves)),
        Some(p) => match check_node(&root[p].node) {
            None => Ok(p),
            Some(step) => Err(EditError::ShapeMismatch(step)),
        },
    }
}

} // verus!
