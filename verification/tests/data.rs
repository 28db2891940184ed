use pumpkin::data::block::{
    const_block_name_from_block_name, property_group_name_from_derived_name, GeneratedProperty,
    GeneratedPropertyType, PropertyCollectionData, PropertyVariantMapping,
};
use pumpkin::data::property_groups::group_property_collections;
use pumpkin::data::block_state::{BlockState, BURNABLE, IS_AIR, IS_SOLID};
use pumpkin::data::fluid;
use pumpkin::data::registry::parse_packets;
use pumpkin::data::tag::{
    get_tag_values, RegistryEntryList, RegistryKey, TagRegistry, TagType, TagVisitor,
};

#[test]
fn block_constant_names_are_shouty_snake_case() {
    assert_eq!(const_block_name_from_block_name("oak_log"), "OAK_LOG");
    assert_eq!(fluid::const_fluid_name_from_fluid_name("flowing_water"), "FLOWING_WATER");
}

#[test]
fn property_group_names_are_upper_camel_case() {
    assert_eq!(property_group_name_from_derived_name("oak_log_like"), "OakLogLikeProperties");
    assert_eq!(fluid::property_group_name_from_derived_name("water_like"), "WaterLikeFluidProperties");
}

#[test]
fn collections_derive_their_name_from_the_first_block() {
    let mut data = PropertyCollectionData::from_mappings(vec![PropertyVariantMapping {
        original_name: "axis".to_string(),
        property_enum: "Axis".to_string(),
    }]);
    assert!(data.block_names.is_empty());
    data.add_block_name("oak_log".to_string());
    data.add_block_name("birch_log".to_string());
    assert_eq!(data.derive_name(), "oak_log_like");
    assert_eq!(data.variant_mappings.len(), 1);

    let mut f = fluid::PropertyCollectionData::from_mappings(vec![]);
    f.add_fluid_name("water".to_string());
    assert_eq!(f.derive_name(), "water_like");
}

#[test]
fn fluid_flow_defaults() {
    assert_eq!(fluid::default_flow_speed(), 5);
    assert_eq!(fluid::default_flow_distance(), 4);
}

#[test]
fn generated_properties() {
    let b = GeneratedProperty {
        hash_key: 1,
        enum_name: "ignored".to_string(),
        serialized_name: "lit".to_string(),
        property_type: GeneratedPropertyType::Boolean,
    }
    .to_property();
    assert_eq!(b.enum_name, "boolean");
    assert_eq!(b.serialized_name, "lit");
    assert_eq!(b.values, vec!["true", "false"]);

    let i = GeneratedProperty {
        hash_key: 2,
        enum_name: "ignored".to_string(),
        serialized_name: "age".to_string(),
        property_type: GeneratedPropertyType::Int { min: 0, max: 12 },
    }
    .to_property();
    assert_eq!(i.enum_name, "integer_0_to_12");
    assert_eq!(i.values.len(), 13);
    assert_eq!(i.values[0], "L0");
    assert_eq!(i.values[12], "L12");

    let full = GeneratedProperty {
        hash_key: 4,
        enum_name: "x".to_string(),
        serialized_name: "n".to_string(),
        property_type: GeneratedPropertyType::Int { min: 250, max: 255 },
    }
    .to_property();
    assert_eq!(full.values, vec!["L250", "L251", "L252", "L253", "L254", "L255"]);

    let e = GeneratedProperty {
        hash_key: 3,
        enum_name: "Axis".to_string(),
        serialized_name: "axis".to_string(),
        property_type: GeneratedPropertyType::Enum { values: vec!["x".to_string(), "y".to_string()] },
    }
    .to_property();
    assert_eq!(e.enum_name, "Axis");
    assert_eq!(e.values, vec!["x", "y"]);
}

#[test]
fn tag_entries_serialize_and_parse() {
    assert_eq!(TagType::Item("minecraft:stone".to_string()).serialize(), "minecraft:stone");
    assert_eq!(TagType::Tag("minecraft:logs".to_string()).serialize(), "#minecraft:logs");
    assert_eq!(TagVisitor.visit_str("#minecraft:logs"), TagType::Tag("minecraft:logs".to_string()));
    assert_eq!(TagVisitor.visit_str("minecraft:stone"), TagType::Item("minecraft:stone".to_string()));
    for text in ["#a", "b", "", "#", "##x"] {
        assert_eq!(TagVisitor.visit_str(text).serialize(), text);
    }
}

#[test]
fn entry_lists() {
    let single = RegistryEntryList::from_entries(vec![TagType::Item("a".to_string())]);
    assert!(matches!(single, RegistryEntryList::Single(_)));
    assert_eq!(single.get_values(), vec![TagType::Item("a".to_string())]);
    assert!(single.eq(&TagType::Item("a".to_string())));
    assert!(!single.eq(&TagType::Tag("a".to_string())));

    let many = RegistryEntryList::from_entries(vec![
        TagType::Item("a".to_string()),
        TagType::Tag("b".to_string()),
    ]);
    assert_eq!(many.get_values().len(), 2);
    assert!(many.eq(&TagType::Tag("b".to_string())));
    assert!(!many.eq(&TagType::Item("b".to_string())));
    let none = RegistryEntryList::from_entries(vec![]);
    assert!(matches!(none, RegistryEntryList::Many(ref v) if v.is_empty()));
}

#[test]
fn registry_identifiers() {
    assert_eq!(RegistryKey::Block.identifier_string(), "block");
    assert_eq!(RegistryKey::Item.identifier_string(), "item");
    assert_eq!(RegistryKey::Fluid.identifier_string(), "fluid");
    assert_eq!(RegistryKey::EntityType.identifier_string(), "entity_type");
    assert_eq!(RegistryKey::GameEvent.identifier_string(), "game_event");
}

#[test]
fn tag_lookup() {
    let registry = TagRegistry {
        categories: vec![
            (RegistryKey::Item, vec![("minecraft:logs".to_string(), vec![Some("minecraft:oak_log".to_string())])]),
            (RegistryKey::Block, vec![("minecraft:logs".to_string(), vec![None])]),
        ],
    };
    assert_eq!(
        get_tag_values(&registry, RegistryKey::Item, "minecraft:logs"),
        Some(&vec![Some("minecraft:oak_log".to_string())])
    );
    assert_eq!(get_tag_values(&registry, RegistryKey::Block, "minecraft:logs"), Some(&vec![None]));
    assert_eq!(get_tag_values(&registry, RegistryKey::Item, "minecraft:planks"), None);
}

#[test]
fn packet_constants() {
    let packets = vec![
        ("play".to_string(), vec!["bundle_delimiter".to_string(), "add_entity".to_string()]),
        ("login".to_string(), vec!["hello".to_string()]),
    ];
    let consts = parse_packets(&packets);
    assert_eq!(
        consts,
        vec![
            ("PLAY_BUNDLE_DELIMITER".to_string(), 0),
            ("PLAY_ADD_ENTITY".to_string(), 1),
            ("LOGIN_HELLO".to_string(), 0),
        ]
    );
}

#[test]
fn block_state_flags() {
    let state = BlockState {
        id: 1,
        state_flags: IS_AIR | IS_SOLID,
        luminance: 0,
        hardness_bits: 1.5f32.to_bits(),
        collision_shapes: vec![],
        opacity: u8::MAX,
        block_entity_type: u16::MAX,
    };
    assert!(state.is_air());
    assert!(state.is_solid());
    assert!(!state.burnable());
    assert!(!state.is_liquid());
    assert_eq!(BURNABLE, 2);
}

fn prop(hash_key: i32, enum_name: &str, serialized_name: &str, values: &[&str]) -> GeneratedProperty {
    GeneratedProperty {
        hash_key,
        enum_name: enum_name.to_string(),
        serialized_name: serialized_name.to_string(),
        property_type: GeneratedPropertyType::Enum { values: values.iter().map(|v| v.to_string()).collect() },
    }
}

#[test]
fn blocks_group_by_their_property_sets() {
    let props = vec![
        prop(10, "facing", "facing", &["north", "south"]),
        prop(20, "half", "half", &["top", "bottom"]),
        GeneratedProperty {
            hash_key: 30,
            enum_name: String::new(),
            serialized_name: "lit".to_string(),
            property_type: GeneratedPropertyType::Boolean,
        },
    ];
    let blocks = vec![
        ("stairs".to_string(), vec![20, 10]),
        ("air".to_string(), vec![]),
        ("slab_like".to_string(), vec![10, 20, 10]),
        ("lamp".to_string(), vec![30]),
    ];
    let groups = group_property_collections(&blocks, &props).expect("no overlap");
    assert_eq!(groups.len(), 2);
    assert_eq!(groups[0].0, vec![10, 20]);
    assert_eq!(groups[0].1.block_names, vec!["stairs", "slab_like"]);
    assert_eq!(groups[0].1.variant_mappings.len(), 2);
    assert_eq!(groups[0].1.variant_mappings[0].original_name, "half");
    assert_eq!(groups[0].1.variant_mappings[0].property_enum, "Half");
    assert_eq!(groups[1].0, vec![30]);
    assert_eq!(groups[1].1.block_names, vec!["lamp"]);
    assert_eq!(groups[1].1.variant_mappings[0].property_enum, "Boolean");
}

#[test]
fn enum_overlap_is_refused() {
    let props = vec![
        prop(1, "axis", "axis", &["x", "y", "z"]),
        prop(2, "axis", "horizontal_axis", &["x", "z"]),
    ];
    let blocks = vec![("log".to_string(), vec![1]), ("portal".to_string(), vec![2])];
    match group_property_collections(&blocks, &props) {
        Err(name) => assert_eq!(name, "horizontal_axis"),
        Ok(_) => panic!("overlap not refused"),
    }
}
