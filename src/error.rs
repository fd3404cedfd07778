//! What can go wrong while editing a save tree.
use vstd::prelude::*;

verus! {

/// The step of the path to the class slots at which the tree's shape is wrong.
#[derive(PartialEq, Eq, Structural, Debug, Clone, Copy)]
pub enum PathStep {
    /// The root has no `CharacterSaves` field.
    CharacterSaves,
    /// `CharacterSaves` is not an array.
    CharacterSavesArray,
    /// The array does not declare `StructProperty` elements.
    ArrayType,
    /// The array's body is not a struct array.
    StructBody,
    /// The struct array's wrapper type is not `CharacterSaves`.
    WrapperType,
    /// The struct array's wrapper name is not `StructProperty`.
    WrapperName,
    /// The struct array's element type is not `CharacterSave`.
    ElementType,
    /// The slot at this index is not a list of properties.
    Slot(usize),
}

/// What a count mismatch counted.
#[derive(PartialEq, Eq, Structural, Debug, Clone, Copy)]
pub enum Counted {
    /// Class slots in the slot array.
    Slots,
    /// Slots that carry the hidden slot's identifier.
    HiddenSlots,
}

/// A field that a class slot must hold as an integer.
#[derive(PartialEq, Eq, Structural, Debug, Clone, Copy)]
pub enum SlotField {
    TimesRetired,
    RetiredCharacterLevels,
}

/// Why an edit was refused. No edit changes the tree when it fails.
#[derive(PartialEq, Eq, Structural, Debug, Clone, Copy)]
pub enum EditError {
    /// The path to the class slots does not have the expected shape.
    ShapeMismatch(PathStep),
    /// The number of slots, or of hidden slots, is not the expected one.
    CountMismatch { counted: Counted, expected: usize, found: usize },
    /// A slot lacks an integer field that the edit writes.
    FieldMissing { slot: usize, field: SlotField },
    /// The hidden slot's solved value does not fit its 32-bit field.
    OutOfRange,
}

} // verus!
