use blue_number_resetter::classify::{classify, HIDDEN_SLOT_ID, SLOT_COUNT};
use blue_number_resetter::edit::{apply_slot, reset_blue_level};
use blue_number_resetter::error::{Counted, EditError, PathStep, SlotField};
use blue_number_resetter::level::blue_level;
use blue_number_resetter::navigate::locate_slots;
use blue_number_resetter::solver::{solve, TARGET_BLUE_LEVEL, VISIBLE_PROMOTIONS, VISIBLE_RED_LEVELS};
use blue_number_resetter::tree::{get_guid, get_int, set_int, ArrayBody, ArrayType, Element, Field, Node, StructTag};

fn int_field(name: &str, value: i32) -> Field {
    Field { name: name.to_string(), node: Node::Int { id: None, value } }
}

fn guid_field(name: &str, guid: u128) -> Field {
    Field { name: name.to_string(), node: Node::Guid { id: None, struct_id: 0, guid } }
}

fn slot(guid: u128, times_retired: i32, red_levels: i32) -> Element {
    Element::Record(vec![
        guid_field("SavegameID", guid),
        int_field("TimesRetired", times_retired),
        int_field("RetiredCharacterLevels", red_levels),
        int_field("XP", 1234),
    ])
}

fn slots_node(elements: Vec<Element>) -> Node {
    Node::Array {
        id: None,
        array_type: ArrayType::StructProperty,
        body: ArrayBody::Structs {
            wrapper_type: "CharacterSaves".to_string(),
            name: "StructProperty".to_string(),
            struct_type: StructTag::Named(Some("CharacterSave".to_string())),
            id: 7,
            elements,
        },
    }
}

fn five_slots() -> Vec<Element> {
    vec![
        slot(1, 3, 10),
        slot(2, 0, 4),
        slot(HIDDEN_SLOT_ID, 2, 7),
        slot(3, 5, 0),
        slot(4, 1, 24),
    ]
}

fn tree(elements: Vec<Element>) -> Vec<Field> {
    vec![
        int_field("NumberOfGamesPlayed", 2173),
        Field { name: "CharacterSaves".to_string(), node: slots_node(elements) },
        int_field("Credits", 99),
    ]
}

fn slot_values(root: &Vec<Field>) -> Vec<(i32, i32, i32)> {
    let p = locate_slots(root).unwrap();
    let Node::Array { body: ArrayBody::Structs { elements, .. }, .. } = &root[p].node else {
        panic!("slots expected");
    };
    elements
        .iter()
        .map(|e| {
            let Element::Record(fields) = e else { panic!("record expected") };
            (
                get_int(fields, "TimesRetired").unwrap(),
                get_int(fields, "RetiredCharacterLevels").unwrap(),
                get_int(fields, "XP").unwrap(),
            )
        })
        .collect()
}

#[test]
fn reset_scenario_four_visible_one_hidden() {
    let mut root = tree(five_slots());
    assert_eq!(reset_blue_level(&mut root, -69), Ok(()));
    assert_eq!(
        slot_values(&root),
        vec![(1, 25, 1234), (1, 25, 1234), (0, -407, 1234), (1, 25, 1234), (1, 25, 1234)]
    );
    assert_eq!(blue_level(&root), Some(-69));
    assert_eq!((4 * 50 + -407i32).div_euclid(3), -69);
}

#[test]
fn reset_leaves_other_fields() {
    let mut root = tree(five_slots());
    reset_blue_level(&mut root, TARGET_BLUE_LEVEL).unwrap();
    assert_eq!(get_int(&root, "NumberOfGamesPlayed"), Some(2173));
    assert_eq!(get_int(&root, "Credits"), Some(99));
    assert_eq!(root[1].name, "CharacterSaves");
}

#[test]
fn reset_reaches_any_target() {
    for target in [-69, 0, 1, 2, 67, 1000, -1000, -1] {
        let mut root = tree(five_slots());
        reset_blue_level(&mut root, target).unwrap();
        assert_eq!(blue_level(&root), Some(target as i128));
    }
}

#[test]
fn reset_twice_changes_nothing() {
    let mut root = tree(five_slots());
    reset_blue_level(&mut root, -69).unwrap();
    let first = slot_values(&root);
    reset_blue_level(&mut root, -69).unwrap();
    assert_eq!(slot_values(&root), first);
    assert_eq!(blue_level(&root), Some(-69));
}

#[test]
fn no_hidden_slot_is_count_mismatch() {
    let mut elements = five_slots();
    elements[2] = slot(9, 2, 7);
    let mut root = tree(elements);
    let before = slot_values(&root);
    assert_eq!(
        reset_blue_level(&mut root, -69),
        Err(EditError::CountMismatch { counted: Counted::HiddenSlots, expected: 1, found: 0 })
    );
    assert_eq!(slot_values(&root), before);
}

#[test]
fn two_hidden_slots_is_count_mismatch() {
    let mut elements = five_slots();
    elements[0] = slot(HIDDEN_SLOT_ID, 3, 10);
    let mut root = tree(elements);
    let before = slot_values(&root);
    assert_eq!(
        reset_blue_level(&mut root, -69),
        Err(EditError::CountMismatch { counted: Counted::HiddenSlots, expected: 1, found: 2 })
    );
    assert_eq!(slot_values(&root), before);
}

#[test]
fn wrong_slot_count_is_count_mismatch() {
    let mut elements = five_slots();
    elements.pop();
    let mut root = tree(elements);
    assert_eq!(
        reset_blue_level(&mut root, -69),
        Err(EditError::CountMismatch { counted: Counted::Slots, expected: SLOT_COUNT, found: 4 })
    );
}

#[test]
fn missing_character_saves_is_shape_mismatch() {
    let mut root = vec![int_field("NumberOfGamesPlayed", 3)];
    assert_eq!(reset_blue_level(&mut root, -69), Err(EditError::ShapeMismatch(PathStep::CharacterSaves)));
    assert_eq!(get_int(&root, "NumberOfGamesPlayed"), Some(3));
}

#[test]
fn character_saves_not_array_is_shape_mismatch() {
    let mut root = vec![int_field("CharacterSaves", 3)];
    assert_eq!(reset_blue_level(&mut root, -69), Err(EditError::ShapeMismatch(PathStep::CharacterSavesArray)));
}

#[test]
fn wrong_array_type_is_shape_mismatch() {
    let node = Node::Array {
        id: None,
        array_type: ArrayType::Other(uesave::PropertyType::IntProperty),
        body: ArrayBody::Other(uesave::ValueArray::Base(uesave::ValueVec::Int(vec![1, 2]))),
    };
    let mut root = vec![Field { name: "CharacterSaves".to_string(), node }];
    assert_eq!(reset_blue_level(&mut root, -69), Err(EditError::ShapeMismatch(PathStep::ArrayType)));
}

#[test]
fn wrong_element_type_is_shape_mismatch() {
    let mut root = tree(five_slots());
    if let Node::Array { body: ArrayBody::Structs { struct_type, .. }, .. } = &mut root[1].node {
        *struct_type = StructTag::Named(Some("OtherSave".to_string()));
    }
    assert_eq!(reset_blue_level(&mut root, -69), Err(EditError::ShapeMismatch(PathStep::ElementType)));
    let mut root = tree(five_slots());
    if let Node::Array { body: ArrayBody::Structs { struct_type, .. }, .. } = &mut root[1].node {
        *struct_type = StructTag::Other(uesave::StructType::Guid);
    }
    assert_eq!(reset_blue_level(&mut root, -69), Err(EditError::ShapeMismatch(PathStep::ElementType)));
}

#[test]
fn wrong_wrapper_is_shape_mismatch() {
    let mut root = tree(five_slots());
    if let Node::Array { body: ArrayBody::Structs { wrapper_type, .. }, .. } = &mut root[1].node {
        *wrapper_type = "Other".to_string();
    }
    assert_eq!(reset_blue_level(&mut root, -69), Err(EditError::ShapeMismatch(PathStep::WrapperType)));
    let mut root = tree(five_slots());
    if let Node::Array { body: ArrayBody::Structs { name, .. }, .. } = &mut root[1].node {
        *name = "IntProperty".to_string();
    }
    assert_eq!(reset_blue_level(&mut root, -69), Err(EditError::ShapeMismatch(PathStep::WrapperName)));
}

#[test]
fn non_struct_body_is_shape_mismatch() {
    let node = Node::Array {
        id: None,
        array_type: ArrayType::StructProperty,
        body: ArrayBody::Other(uesave::ValueArray::Base(uesave::ValueVec::Int(vec![]))),
    };
    let mut root = vec![Field { name: "CharacterSaves".to_string(), node }];
    assert_eq!(reset_blue_level(&mut root, -69), Err(EditError::ShapeMismatch(PathStep::StructBody)));
}

#[test]
fn non_record_slot_is_shape_mismatch() {
    let mut elements = five_slots();
    elements[3] = Element::Other(uesave::StructValue::Guid(uuid::Uuid::nil()));
    let mut root = tree(elements);
    assert_eq!(reset_blue_level(&mut root, -69), Err(EditError::ShapeMismatch(PathStep::Slot(3))));
}

#[test]
fn missing_field_is_reported_with_slot() {
    let mut elements = five_slots();
    elements[1] = Element::Record(vec![guid_field("SavegameID", 2), int_field("TimesRetired", 1)]);
    let mut root = tree(elements);
    let before = slot_values_partial(&root);
    assert_eq!(
        reset_blue_level(&mut root, -69),
        Err(EditError::FieldMissing { slot: 1, field: SlotField::RetiredCharacterLevels })
    );
    assert_eq!(slot_values_partial(&root), before);
}

fn slot_values_partial(root: &Vec<Field>) -> Vec<Option<i32>> {
    let Node::Array { body: ArrayBody::Structs { elements, .. }, .. } = &root[1].node else {
        panic!("slots expected");
    };
    elements
        .iter()
        .map(|e| match e {
            Element::Record(fields) => get_int(fields, "TimesRetired"),
            Element::Other(_) => None,
        })
        .collect()
}

#[test]
fn non_int_field_counts_as_missing() {
    let mut elements = five_slots();
    elements[4] = Element::Record(vec![guid_field("SavegameID", 4), guid_field("TimesRetired", 1)]);
    let mut root = tree(elements);
    assert_eq!(
        reset_blue_level(&mut root, -69),
        Err(EditError::FieldMissing { slot: 4, field: SlotField::TimesRetired })
    );
}

#[test]
fn out_of_range_target_is_refused() {
    let mut root = tree(five_slots());
    assert_eq!(reset_blue_level(&mut root, i32::MAX), Err(EditError::OutOfRange));
    assert_eq!(blue_level(&root), Some((85 + 4 + 57 + 125 + 49) / 3));
}

#[test]
fn solve_values() {
    assert_eq!(solve(4, -69, VISIBLE_PROMOTIONS, VISIBLE_RED_LEVELS), Some((0, -407)));
    assert_eq!(solve(4, 0, 1, 25), Some((0, -200)));
    assert_eq!(solve(0, 5, 1, 25), Some((0, 15)));
    assert_eq!(solve(3, 10, 2, 0), Some((0, -120)));
    assert_eq!(solve(4, i32::MAX, 1, 25), None);
    assert_eq!(solve(4, i32::MIN / 3, 1, 25), None);
}

#[test]
fn blue_level_rounds_down() {
    let mut elements = five_slots();
    elements[0] = slot(1, 0, -1);
    elements[1] = slot(2, 0, 0);
    elements[2] = slot(HIDDEN_SLOT_ID, 0, 0);
    elements[3] = slot(3, 0, 0);
    elements[4] = slot(4, 0, 0);
    assert_eq!(blue_level(&tree(elements)), Some(-1));
    let mut elements = five_slots();
    elements[0] = slot(1, 0, 5);
    elements[1] = slot(2, 0, 0);
    elements[2] = slot(HIDDEN_SLOT_ID, 0, 0);
    elements[3] = slot(3, 0, 0);
    elements[4] = slot(4, 0, 0);
    assert_eq!(blue_level(&tree(elements)), Some(1));
    assert_eq!(blue_level(&vec![int_field("Other", 1)]), None);
}

#[test]
fn classify_finds_hidden_slot() {
    assert_eq!(classify(&five_slots()), Ok(2));
    assert_eq!(
        classify(&vec![slot(1, 0, 0)]),
        Err(EditError::CountMismatch { counted: Counted::HiddenSlots, expected: 1, found: 0 })
    );
}

#[test]
fn hidden_slot_id_matches_uuid() {
    let id = uuid::Uuid::parse_str("d6d5686e-4547-e66f-46c5-ce8e28b16827").unwrap();
    assert_eq!(id.as_u128(), HIDDEN_SLOT_ID);
}

#[test]
fn apply_slot_writes_only_its_fields() {
    let Element::Record(mut fields) = slot(1, 3, 10) else { unreachable!() };
    assert_eq!(apply_slot(&mut fields, 0, 1, 25, None), Ok(()));
    assert_eq!(get_int(&fields, "TimesRetired"), Some(1));
    assert_eq!(get_int(&fields, "RetiredCharacterLevels"), Some(25));
    assert_eq!(get_int(&fields, "XP"), Some(1234));
    assert_eq!(get_guid(&fields, "SavegameID"), Some(1));
    let mut fields = vec![int_field("RetiredCharacterLevels", 3)];
    assert_eq!(
        apply_slot(&mut fields, 6, 1, 25, Some(5)),
        Err(EditError::FieldMissing { slot: 6, field: SlotField::TimesRetired })
    );
    assert_eq!(get_int(&fields, "RetiredCharacterLevels"), Some(3));
}

#[test]
fn set_int_keeps_first_match_only() {
    let mut fields = vec![int_field("A", 1), int_field("B", 2), int_field("A", 3)];
    set_int(&mut fields, "A", 9);
    assert_eq!(get_int(&fields, "A"), Some(9));
    let Node::Int { value, .. } = fields[2].node else { panic!() };
    assert_eq!(value, 3);
}

#[test]
fn apply_slot_writes_xp_when_present() {
    let Element::Record(mut fields) = slot(1, 3, 10) else { unreachable!() };
    assert_eq!(apply_slot(&mut fields, 0, 0, -407, Some(4321)), Ok(()));
    assert_eq!(get_int(&fields, "TimesRetired"), Some(0));
    assert_eq!(get_int(&fields, "RetiredCharacterLevels"), Some(-407));
    assert_eq!(get_int(&fields, "XP"), Some(4321));
    let mut fields = vec![int_field("TimesRetired", 2), int_field("RetiredCharacterLevels", 3)];
    assert_eq!(apply_slot(&mut fields, 0, 1, 25, Some(4321)), Ok(()));
    assert_eq!(get_int(&fields, "XP"), None);
    assert_eq!(get_int(&fields, "RetiredCharacterLevels"), Some(25));
}
