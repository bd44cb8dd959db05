//! End-to-end and unit tests over hand-assembled save images.

use arksavefile::{ArkError, ArkParser, ArrayReader, Name, Names, Properties, Property, Type, Value};
use arksavefile::export::{nursery_records, tamed_records, wild_records};
use arksavefile::numeric::{f32_bits_as_i32, f64_bits_as_i32};
use arksavefile::objects::classify;

fn w_i16(v: &mut Vec<u8>, x: i16) {
    v.extend_from_slice(&x.to_le_bytes());
}

fn w_i32(v: &mut Vec<u8>, x: i32) {
    v.extend_from_slice(&x.to_le_bytes());
}

fn w_u32(v: &mut Vec<u8>, x: u32) {
    v.extend_from_slice(&x.to_le_bytes());
}

fn w_f32(v: &mut Vec<u8>, x: f32) {
    v.extend_from_slice(&x.to_le_bytes());
}

fn w_u128(v: &mut Vec<u8>, x: u128) {
    v.extend_from_slice(&x.to_le_bytes());
}

/// A length-prefixed UTF-8 string with its trailing NUL.
fn w_str(v: &mut Vec<u8>, s: &str) {
    w_i32(v, s.len() as i32 + 1);
    v.extend_from_slice(s.as_bytes());
    v.push(0);
}

fn w_name(v: &mut Vec<u8>, id: u32) {
    w_u32(v, id);
    w_u32(v, 0);
}

/// One property record header.
fn w_prop_header(v: &mut Vec<u8>, name_id: u32, type_id: u32, data_size: u32, index: u32) {
    w_u32(v, name_id);
    w_u32(v, 0); // instance
    w_u32(v, type_id);
    w_u32(v, 0); // reserved
    w_u32(v, data_size);
    w_u32(v, index);
}

/// The name table every test save shares. Index 1 is "None".
const NAMES: &[&str] = &[
    "None",
    "IntProperty",
    "BoolProperty",
    "StrProperty",
    "StructProperty",
    "ArrayProperty",
    "ByteProperty",
    "Color",
    "Rex_Character_BP_C",
    "DinoID1",
    "bIsFemale",
    "BaseCharacterLevel",
    "MyCharacterStatusComponent",
    "TamingTeamID",
    "TamedName",
    "PrimalItem_WeaponEmptyCryopod_C",
    "CustomItemDatas",
    "CustomDataBytes",
    "ByteArrays",
    "Bytes",
    "NumberOfLevelUpPointsApplied",
    "OwnerName",
    "bHasResetDecayTime",
    "bInitializedMe",
    "CurrentStatusValues",
];

fn name_id_of(s: &str) -> u32 {
    for (i, n) in NAMES.iter().enumerate() {
        if *n == s {
            return (i + 1) as u32;
        }
    }
    panic!("name not in test table");
}

fn write_name_table(v: &mut Vec<u8>) {
    w_i32(v, NAMES.len() as i32);
    for n in NAMES {
        w_str(v, n);
    }
}

/// An Int property record.
fn prop_int(name: &str, index: u32, value: i32) -> Vec<u8> {
    let mut v = Vec::new();
    w_prop_header(&mut v, name_id_of(name), name_id_of("IntProperty"), 4, index);
    w_i32(&mut v, value);
    v
}

/// A Bool property record.
fn prop_bool(name: &str, value: bool) -> Vec<u8> {
    let mut v = Vec::new();
    w_prop_header(&mut v, name_id_of(name), name_id_of("BoolProperty"), 1, 0);
    v.push(if value { 1 } else { 0 });
    v
}

/// A Str property record.
fn prop_str(name: &str, value: &str) -> Vec<u8> {
    let mut body = Vec::new();
    w_str(&mut body, value);
    let mut v = Vec::new();
    w_prop_header(
        &mut v,
        name_id_of(name),
        name_id_of("StrProperty"),
        body.len() as u32,
        0,
    );
    v.extend_from_slice(&body);
    v
}

/// A Struct property record holding a nested property stream.
fn prop_struct_nested(name: &str, kind: &str, inner: &[Vec<u8>]) -> Vec<u8> {
    let mut body = Vec::new();
    for p in inner {
        body.extend_from_slice(p);
    }
    w_u32(&mut body, name_id_of("None"));
    let mut v = Vec::new();
    w_prop_header(
        &mut v,
        name_id_of(name),
        name_id_of("StructProperty"),
        body.len() as u32,
        0,
    );
    w_name(&mut v, name_id_of(kind));
    v.extend_from_slice(&body);
    v
}

/// A byte-array property record.
fn prop_u8_array(name: &str, bytes: &[u8]) -> Vec<u8> {
    let mut v = Vec::new();
    w_prop_header(
        &mut v,
        name_id_of(name),
        name_id_of("ArrayProperty"),
        4 + bytes.len() as u32,
        0,
    );
    w_name(&mut v, name_id_of("ByteProperty"));
    w_i32(&mut v, bytes.len() as i32);
    v.extend_from_slice(bytes);
    v
}

/// A property stream: records then the terminator.
fn stream(records: &[Vec<u8>]) -> Vec<u8> {
    let mut v = Vec::new();
    for r in records {
        v.extend_from_slice(r);
    }
    w_u32(&mut v, name_id_of("None"));
    v
}

struct TestObject {
    class: &'static str,
    is_item: bool,
    location: Option<(f32, f32, f32)>,
    props: Vec<u8>,
}

/// Assemble a save: header, empty skipped blocks, the directory, the shared
/// name table, and a property region.
fn build_save(objects: &[TestObject]) -> Vec<u8> {
    build_save_with_map(objects, Some("TestMap"))
}

/// As [`build_save`], with the binary-data-names block holding either one
/// map-identifier string or no entries at all.
fn build_save_with_map(objects: &[TestObject], map: Option<&str>) -> Vec<u8> {
    // Property region: concatenated streams; record each offset.
    let mut prop_region = Vec::new();
    let mut offsets = Vec::new();
    for o in objects {
        offsets.push(prop_region.len() as i32);
        prop_region.extend_from_slice(&o.props);
    }
    // Directory.
    let mut dir = Vec::new();
    w_i32(&mut dir, objects.len() as i32);
    for (k, o) in objects.iter().enumerate() {
        w_u128(&mut dir, 0x1111 + k as u128);
        w_name(&mut dir, name_id_of(o.class));
        w_i32(&mut dir, if o.is_item { 1 } else { 0 });
        w_i32(&mut dir, 0); // extra names
        dir.extend_from_slice(&[0u8; 8]);
        match o.location {
            Some((x, y, z)) => {
                w_i32(&mut dir, 1);
                w_f32(&mut dir, x);
                w_f32(&mut dir, y);
                w_f32(&mut dir, z);
                dir.extend_from_slice(&[0u8; 12]);
            },
            None => w_i32(&mut dir, 0),
        }
        w_i32(&mut dir, offsets[k]);
        w_i32(&mut dir, 0); // trailing slot
    }
    // Front matter; offsets patched once sizes are known.
    let mut v = Vec::new();
    w_i16(&mut v, 5); // version
    let fix_names = v.len();
    w_u32(&mut v, 0); // names offset, patched below
    let fix_props = v.len();
    w_i32(&mut v, 0); // properties offset, patched below
    w_f32(&mut v, 0.0); // game time
    match map {
        Some(m) => {
            w_i32(&mut v, 1); // one binary-data name
            w_str(&mut v, m);
        },
        None => w_i32(&mut v, 0), // no binary-data names at all
    }
    w_i32(&mut v, 0); // embedded binary data
    w_i32(&mut v, 0); // data-files object map
    v.extend_from_slice(&dir);
    let names_offset = v.len() as u32;
    write_name_table(&mut v);
    let props_offset = v.len() as i32;
    v.extend_from_slice(&prop_region);
    v[fix_names..fix_names + 4].copy_from_slice(&names_offset.to_le_bytes());
    v[fix_props..fix_props + 4].copy_from_slice(&props_offset.to_le_bytes());
    v
}

/// A mini-save as a cryopod embeds it: a directory whose property offsets
/// are absolute within the blob.
fn build_minisave(objects: &[TestObject]) -> Vec<u8> {
    // First pass to learn the directory size.
    let mut dir_len = 4;
    for o in objects {
        dir_len += 16 + 8 + 4 + 4 + 8 + 4 + 8;
        if o.location.is_some() {
            dir_len += 24;
        }
    }
    let mut prop_off = dir_len;
    let mut v = Vec::new();
    w_i32(&mut v, objects.len() as i32);
    for o in objects {
        w_u128(&mut v, 0x9999);
        w_name(&mut v, name_id_of(o.class));
        w_i32(&mut v, if o.is_item { 1 } else { 0 });
        w_i32(&mut v, 0);
        v.extend_from_slice(&[0u8; 8]);
        match o.location {
            Some((x, y, z)) => {
                w_i32(&mut v, 1);
                w_f32(&mut v, x);
                w_f32(&mut v, y);
                w_f32(&mut v, z);
                v.extend_from_slice(&[0u8; 12]);
            },
            None => w_i32(&mut v, 0),
        }
        w_i32(&mut v, prop_off as i32);
        w_i32(&mut v, 0);
        prop_off += o.props.len();
    }
    for o in objects {
        v.extend_from_slice(&o.props);
    }
    v
}

fn load_names() -> Names {
    let mut table = Vec::new();
    w_i32(&mut table, NAMES.len() as i32);
    for n in NAMES {
        w_str(&mut table, n);
    }
    let mut r = ArrayReader::new(&table);
    Names::new(&mut r, 0).unwrap()
}

#[test]
fn minimal_header_yields_empty_save() {
    let save = build_save(&[]);
    let parser = ArkParser::read(&save).unwrap();
    assert_eq!(parser.entries().len(), 0);
    assert_eq!(parser.map, "TestMap");
}

#[test]
fn empty_binary_data_names_yield_empty_map() {
    // The block's count is zero: no map string is present, none is read.
    let save = build_save_with_map(&[], None);
    let parser = ArkParser::read(&save).unwrap();
    assert_eq!(parser.entries().len(), 0);
    assert_eq!(parser.map, "");
}

#[test]
fn single_wild_creature() {
    let creature = TestObject {
        class: "Rex_Character_BP_C",
        is_item: false,
        location: Some((100.0, 200.0, 300.0)),
        props: stream(&[
            prop_int("DinoID1", 0, 42),
            prop_bool("bIsFemale", true),
            prop_int("MyCharacterStatusComponent", 0, 1),
        ]),
    };
    let status = TestObject {
        class: "Rex_Character_BP_C",
        is_item: false,
        location: None,
        props: stream(&[prop_int("BaseCharacterLevel", 0, 30)]),
    };
    let save = build_save(&[creature, status]);
    let parser = ArkParser::read(&save).unwrap();
    assert_eq!(parser.entries().len(), 2);
    assert_eq!(parser.entries()[0].object_type, Type::WildCreature);
    let wilds = wild_records(&parser);
    assert_eq!(wilds.len(), 1);
    assert!(wilds[0].is_female);
    assert!(wilds[0].tameable);
    assert_eq!(wilds[0].base_level, 30);
    assert_eq!(wilds[0].class_name, "Rex_Character_BP_C");
    assert_eq!(f32::from_bits(wilds[0].x), 100.0);
    assert_eq!(wilds[0].base_stats, vec![0i32; 12]);
}

#[test]
fn tamed_creature_with_named_status() {
    let creature = TestObject {
        class: "Rex_Character_BP_C",
        is_item: false,
        location: Some((1.0, 2.0, 3.0)),
        props: stream(&[
            prop_int("DinoID1", 0, 42),
            prop_int("TamingTeamID", 0, 1000),
            prop_str("TamedName", "Rexy"),
            prop_int("MyCharacterStatusComponent", 0, 7),
        ]),
    };
    let save = build_save(&[creature]);
    let parser = ArkParser::read(&save).unwrap();
    assert_eq!(parser.entries().len(), 1);
    assert_eq!(parser.entries()[0].object_type, Type::TamedCreature);
    assert_eq!(parser.objects[0].status_component, Some(7));
    // The reference points outside the one-object array, so the entry
    // resolves no component and the projection falls back to defaults.
    assert!(parser.entries()[0].status.is_none());
    let tames = tamed_records(&parser);
    assert_eq!(tames.len(), 1);
    assert_eq!(tames[0].name, "Rexy");
    assert_eq!(tames[0].base_level, 1);
}

#[test]
fn color_struct_reorders_channels() {
    let names = load_names();
    let mut body = Vec::new();
    w_f32(&mut body, 0.1);
    w_f32(&mut body, 0.2);
    w_f32(&mut body, 0.3);
    w_f32(&mut body, 0.4);
    let mut rec = Vec::new();
    w_prop_header(
        &mut rec,
        name_id_of("DinoID1"),
        name_id_of("StructProperty"),
        body.len() as u32,
        0,
    );
    w_name(&mut rec, name_id_of("Color"));
    rec.extend_from_slice(&body);
    let bytes = stream(&[rec]);
    let mut reader = ArrayReader::new(&bytes);
    let mut props = Properties::new();
    props.read(&mut reader, &names).unwrap();
    match &props.groups[0].props[0].value {
        Value::RGBA(r, g, b, a) => {
            assert_eq!(f32::from_bits(*r), 0.3);
            assert_eq!(f32::from_bits(*g), 0.2);
            assert_eq!(f32::from_bits(*b), 0.1);
            assert_eq!(f32::from_bits(*a), 0.4);
        },
        other => panic!("expected a color, got {:?}", other),
    }
}

#[test]
fn sparse_int_array_pads_gaps() {
    let names = load_names();
    let bytes = stream(&[prop_int("DinoID1", 0, 5), prop_int("DinoID1", 3, 9)]);
    let mut reader = ArrayReader::new(&bytes);
    let mut props = Properties::new();
    props.read(&mut reader, &names).unwrap();
    let id = names.get_name_id("DinoID1").unwrap();
    assert_eq!(props.get_vec_int(id), vec![5, 0, 0, 9]);
}

#[test]
fn sparse_stats_pad_to_twelve() {
    let creature = TestObject {
        class: "Rex_Character_BP_C",
        is_item: false,
        location: Some((0.0, 0.0, 0.0)),
        props: stream(&[
            prop_int("DinoID1", 0, 42),
            prop_int("MyCharacterStatusComponent", 0, 1),
        ]),
    };
    let status = TestObject {
        class: "Rex_Character_BP_C",
        is_item: false,
        location: None,
        props: stream(&[
            prop_int("NumberOfLevelUpPointsApplied", 0, 5),
            prop_int("NumberOfLevelUpPointsApplied", 3, 9),
        ]),
    };
    let save = build_save(&[creature, status]);
    let parser = ArkParser::read(&save).unwrap();
    let wilds = wild_records(&parser);
    assert_eq!(wilds[0].base_stats, vec![5, 0, 0, 9, 0, 0, 0, 0, 0, 0, 0, 0]);
}

#[test]
fn cryopod_expands_embedded_creature() {
    let frozen = TestObject {
        class: "Rex_Character_BP_C",
        is_item: false,
        location: None,
        props: stream(&[prop_int("DinoID1", 0, 7), prop_int("TamingTeamID", 0, 4)]),
    };
    let blob = build_minisave(&[frozen]);
    let pod = TestObject {
        class: "PrimalItem_WeaponEmptyCryopod_C",
        is_item: true,
        location: None,
        props: stream(&[prop_struct_nested(
            "CustomItemDatas",
            "CustomItemDatas",
            &[prop_struct_nested(
                "CustomDataBytes",
                "CustomDataBytes",
                &[prop_struct_nested(
                    "ByteArrays",
                    "ByteArrays",
                    &[prop_u8_array("Bytes", &blob)],
                )],
            )],
        )]),
    };
    let save = build_save(&[pod]);
    let parser = ArkParser::read(&save).unwrap();
    assert_eq!(parser.entries().len(), 2);
    let rex = name_id_of("Rex_Character_BP_C") as usize;
    assert_eq!(parser.objects[1].name.id, rex);
    assert_eq!(parser.entries()[1].object_type, Type::TamedCreature);
    assert_eq!(parser.entries()[0].object_type, Type::Item);
}

#[test]
fn name_table_round_trips() {
    let names = load_names();
    for (i, n) in NAMES.iter().enumerate() {
        let id = names.get_name_id(n).unwrap();
        assert_eq!(id, i + 1);
        assert_eq!(names.get_name(id).as_str(), *n);
    }
    assert_eq!(names.get_name(0).as_str(), "-----");
    assert!(names.get_name_id("-----").is_none());
    assert!(names.get_name_id("NotInTheTable").is_none());
}

#[test]
fn string_encodings() {
    // n == 0 and n == 1: empty, consuming n bytes.
    let mut v = Vec::new();
    w_i32(&mut v, 0);
    w_i32(&mut v, 1);
    v.push(0);
    let mut r = ArrayReader::new(&v);
    assert_eq!(r.read_str().unwrap(), "");
    assert_eq!(r.position(), 4);
    assert_eq!(r.read_str().unwrap(), "");
    assert_eq!(r.position(), 9);
    // n == -1: empty, consuming two bytes.
    let mut v = Vec::new();
    w_i32(&mut v, -1);
    v.extend_from_slice(&[0, 0]);
    let mut r = ArrayReader::new(&v);
    assert_eq!(r.read_str().unwrap(), "");
    assert_eq!(r.position(), 6);
    // Positive: UTF-8 with trailing NUL.
    let mut v = Vec::new();
    w_str(&mut v, "Rexy");
    let mut r = ArrayReader::new(&v);
    assert_eq!(r.read_str().unwrap(), "Rexy");
    assert_eq!(r.position(), 9);
    // Negative: UTF-16LE with trailing NUL unit.
    let mut v = Vec::new();
    w_i32(&mut v, -3);
    v.extend_from_slice(&[0x41, 0x00, 0xC9, 0x00, 0x00, 0x00]); // "AÉ"
    let mut r = ArrayReader::new(&v);
    assert_eq!(r.read_str().unwrap(), "A\u{c9}");
    assert_eq!(r.position(), 10);
}

#[test]
fn header_version_gate() {
    let mut v = Vec::new();
    w_i16(&mut v, 4);
    v.extend_from_slice(&[0u8; 32]);
    assert!(matches!(ArkParser::read(&v), Err(ArkError::UnsupportedVersion)));
    let mut v = Vec::new();
    w_i16(&mut v, 7);
    w_u32(&mut v, 0); // hibernation
    w_i32(&mut v, 5); // must be zero
    v.extend_from_slice(&[0u8; 32]);
    assert!(matches!(ArkParser::read(&v), Err(ArkError::HeaderCorrupt)));
    let v = [5u8];
    assert!(matches!(ArkParser::read(&v), Err(ArkError::UnexpectedEof)));
}

#[test]
fn classifier_truth_table() {
    let names = load_names();
    let empty = Properties::new();
    let with = |name: &str| {
        let bytes = stream(&[prop_int(name, 0, 1)]);
        let mut r = ArrayReader::new(&bytes);
        let mut p = Properties::new();
        p.read(&mut r, &names).unwrap();
        p
    };
    // Rule order: the item rule wins over everything else.
    assert_eq!(classify("Egg_Rex_Fertilized_C", true, &empty), Type::FertilizedEgg);
    assert_eq!(classify("Anything", true, &with("DinoID1")), Type::Item);
    // Structures.
    assert_eq!(classify("Wall_C", false, &with("OwnerName")), Type::Structure);
    assert_eq!(
        classify("DeathItemCache_Xyz", false, &with("OwnerName")),
        Type::DeathItemCache
    );
    assert_eq!(classify("Wall_C", false, &with("bHasResetDecayTime")), Type::Structure);
    // Inventories.
    assert_eq!(
        classify("DinoTamedInventoryComponent_Rex", false, &empty),
        Type::TamedInventory
    );
    assert_eq!(
        classify("PrimalInventoryBP_Box", false, &with("bInitializedMe")),
        Type::StructureInventory
    );
    assert_eq!(
        classify("PrimalInventoryComponentX", false, &with("bInitializedMe")),
        Type::PlayerInventory
    );
    assert_eq!(
        classify("DinoWildInventoryComponent_Rex", false, &with("bInitializedMe")),
        Type::WildCreatureInventory
    );
    assert_eq!(classify("Oddball", false, &with("bInitializedMe")), Type::Unknown);
    // Rafts, creatures, status, painting, drops, players, game.
    assert_eq!(classify("Raft_BP_C", false, &empty), Type::Raft);
    assert_eq!(classify("MotorRaft_BP_C", false, &empty), Type::Raft);
    assert_eq!(classify("Rex_Character_BP_C", false, &with("DinoID1")), Type::WildCreature);
    assert_eq!(classify("Rex_Character_BP_C", false, &with("TamingTeamID")), Type::Unknown);
    assert_eq!(
        classify("Status", false, &with("CurrentStatusValues")),
        Type::StatusValues
    );
    assert_eq!(
        classify("StructurePaintingComponent", false, &empty),
        Type::StructurePaintingComponent
    );
    assert_eq!(classify("DroppedItemGeneric_C", false, &empty), Type::DroppedItem);
    assert_eq!(classify("PlayerPawnTest_Male_C", false, &empty), Type::Player);
    assert_eq!(classify("PlayerPawnTest_Female_C", false, &empty), Type::Player);
    assert_eq!(classify("BossArenaManagerX", false, &empty), Type::Game);
    assert_eq!(classify("ShooterGameState", false, &empty), Type::Game);
    assert_eq!(classify("TestGameMode_C", false, &empty), Type::Game);
    assert_eq!(classify("NPCZoneManagerBlah", false, &empty), Type::Game);
    assert_eq!(classify("WeapFistsPlus", false, &empty), Type::Game);
    assert_eq!(classify("SomeManager", false, &empty), Type::Game);
    assert_eq!(classify("SomeActor", false, &empty), Type::Game);
    assert_eq!(classify("Mystery", false, &empty), Type::Unknown);
    // First match wins: a raft name with creature properties is still a raft.
    assert_eq!(classify("Raft_BP_C", false, &with("DinoID1")), Type::Raft);
}

#[test]
fn tamed_classification_needs_dino_id() {
    let names = load_names();
    let bytes = stream(&[prop_int("DinoID1", 0, 1), prop_int("TamingTeamID", 0, 2)]);
    let mut r = ArrayReader::new(&bytes);
    let mut p = Properties::new();
    p.read(&mut r, &names).unwrap();
    assert_eq!(classify("Rex_Character_BP_C", false, &p), Type::TamedCreature);
}

#[test]
fn float_bit_casts_match_rust() {
    let cases_f32 = [
        0.0f32, -0.0, 1.0, -1.0, 0.5, -0.5, 1.5, 29.9, -29.9, 2147483520.0, -2147483520.0,
        2147483648.0, -2147483648.0, 1e38, -1e38, f32::INFINITY, f32::NEG_INFINITY, f32::NAN,
        f32::MIN_POSITIVE, 255.999,
    ];
    for f in cases_f32 {
        assert_eq!(f32_bits_as_i32(f.to_bits()), f as i32, "case {f}");
    }
    let cases_f64 = [
        0.0f64, -0.0, 1.0, -1.0, 0.5, 29.9, -29.9, 2147483646.9, -2147483646.9, 2147483648.0,
        -2147483649.0, 1e300, -1e300, f64::INFINITY, f64::NEG_INFINITY, f64::NAN,
    ];
    for f in cases_f64 {
        assert_eq!(f64_bits_as_i32(f.to_bits()), f as i32, "case {f}");
    }
}

#[test]
fn parse_is_deterministic() {
    let creature = TestObject {
        class: "Rex_Character_BP_C",
        is_item: false,
        location: Some((1.0, 2.0, 3.0)),
        props: stream(&[prop_int("DinoID1", 0, 42)]),
    };
    let save = build_save(&[creature]);
    let a = ArkParser::read(&save).unwrap();
    let b = ArkParser::read(&save).unwrap();
    assert_eq!(a.map, b.map);
    assert_eq!(a.entries().len(), b.entries().len());
    for (ea, eb) in a.entries().iter().zip(b.entries().iter()) {
        assert_eq!(ea.object_type, eb.object_type);
        assert_eq!(ea.status, eb.status);
        assert_eq!(ea.inventory, eb.inventory);
    }
    for (oa, ob) in a.objects.iter().zip(b.objects.iter()) {
        assert_eq!(oa.guid, ob.guid);
        assert_eq!(oa.name, ob.name);
        assert_eq!(oa.properties, ob.properties);
    }
}

#[test]
fn nursery_empty_without_gestation_name() {
    let save = build_save(&[]);
    let parser = ArkParser::read(&save).unwrap();
    assert_eq!(nursery_records(&parser).len(), 0);
}

#[test]
fn properties_getters() {
    let names = load_names();
    let bytes = stream(&[
        prop_int("DinoID1", 0, 42),
        prop_bool("bIsFemale", true),
        prop_str("TamedName", "Rexy"),
    ]);
    let mut r = ArrayReader::new(&bytes);
    let mut p = Properties::new();
    p.read(&mut r, &names).unwrap();
    let dino = names.get_name_id("DinoID1").unwrap();
    let female = names.get_name_id("bIsFemale").unwrap();
    let tamed = names.get_name_id("TamedName").unwrap();
    assert!(p.contains("DinoID1"));
    assert!(!p.contains("TamingTeamID"));
    assert!(p.contains_id(dino));
    assert_eq!(p.get_i32(dino), Some(42));
    assert_eq!(p.get_bool(female), Some(true));
    assert_eq!(p.get_str(tamed), Some("Rexy"));
    assert_eq!(p.get_bool(dino), None);
    assert_eq!(p.get_i32(names.get_name_id("Bytes").unwrap()), None);
}

#[test]
fn unknown_property_type_is_reported() {
    let names = load_names();
    let mut rec = Vec::new();
    // "Bytes" is a name but no property type.
    w_prop_header(&mut rec, name_id_of("DinoID1"), name_id_of("Bytes"), 4, 0);
    w_i32(&mut rec, 1);
    let bytes = stream(&[rec]);
    let mut r = ArrayReader::new(&bytes);
    let mut p = Properties::new();
    assert_eq!(p.read(&mut r, &names), Err(ArkError::UnknownPropertyType));
}

#[test]
fn name_property_holds_id_and_instance() {
    let n = Name { id: 3, instance: 9 };
    assert_eq!(n.id, 3);
    assert_eq!(n.instance, 9);
    let p = Property { name: n, ind: 0, value: Value::Int(1) };
    assert_eq!(p.name.instance, 9);
}
