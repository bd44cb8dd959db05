//! Decoded objects: the directory reader, the classifier that assigns each
//! object a semantic type, and the linker that resolves status / inventory
//! component references.

use vstd::prelude::*;

use crate::decode::{sp_count, sp_props_of};
use crate::error::ArkError;
use crate::names::{name_at, spec_lookup0, Name, Names};
use crate::properties::{sp_find_group, sp_get_first_int, Properties, SpecGroup, SpecValue};
use crate::reader::{bool_at, cap_pos, i32_at, u128_at, u32_at, ArrayReader};
use crate::strings::{
    egg_class_match, egg_fertilized_match, spec_ends_with, spec_starts_with, str_ends_with, str_eq,
    str_starts_with,
};

verus! {

/// A world position, held as the bit patterns of three 32-bit floats.
#[derive(Clone, Copy, Debug, PartialEq, Eq, Structural)]
pub struct Location {
    pub x: u32,
    pub y: u32,
    pub z: u32,
}

/// The location stored at `p`: three floats; twelve further bytes (the
/// rotation) follow on disk and are skipped.
pub open spec fn sp_location_at(b: Seq<u8>, p: int) -> Location {
    Location { x: u32_at(b, p), y: u32_at(b, p + 4), z: u32_at(b, p + 8) }
}

impl Location {
    /// Read a location and skip the trailing rotation bytes.
    pub fn read(file: &mut ArrayReader) -> (r: Result<Location, ArkError>)
        requires
            old(file).wf(),
        ensures
            final(file).wf(),
            final(file).bytes() == old(file).bytes(),
            match r {
                Ok(l) => old(file).pos() + 12 <= old(file).bytes().len() && l == sp_location_at(
                    old(file).bytes(),
                    old(file).pos(),
                ) && final(file).pos() == cap_pos(old(file).bytes(), old(file).pos() + 24),
                Err(e) => e == ArkError::UnexpectedEof && old(file).pos() + 12 > old(
                    file,
                ).bytes().len(),
            },
    {
        let x = match file.read_f32_bits() {
            Ok(v) => v,
            Err(e) => { return Err(e) },
        };
        let y = match file.read_f32_bits() {
            Ok(v) => v,
            Err(e) => { return Err(e) },
        };
        let z = match file.read_f32_bits() {
            Ok(v) => v,
            Err(e) => { return Err(e) },
        };
        file.skip(12);
        Ok(Location { x, y, z })
    }
}

/// The semantic classification of a decoded object.
#[derive(Clone, Copy, Debug, PartialEq, Eq, Structural)]
pub enum Type {
    DeathItemCache,
    DroppedItem,
    FertilizedEgg,
    Game,
    Item,
    Player,
    PlayerInventory,
    Raft,
    StatusValues,
    Structure,
    StructureInventory,
    StructurePaintingComponent,
    TamedCreature,
    TamedInventory,
    Unknown,
    WildCreature,
    WildCreatureInventory,
}

/// Is a property with this stringified name present? (Keyed by the group
/// tag, which the decoder fills with the interned name of the group's id.)
pub open spec fn sp_has(props: Seq<SpecGroup>, s: Seq<char>) -> bool {
    crate::properties::sp_contains_name(props, s)
}

/// The classification rules, evaluated top to bottom; the first match wins.
pub open spec fn sp_classify(class: Seq<char>, is_item: bool, props: Seq<SpecGroup>) -> Type {
    if is_item {
        if egg_fertilized_match(class) {
            Type::FertilizedEgg
        } else {
            Type::Item
        }
    } else if sp_has(props, "OwnerName"@) || sp_has(props, "bHasResetDecayTime"@) {
        if spec_starts_with(class, "DeathItemCache_"@) {
            Type::DeathItemCache
        } else {
            Type::Structure
        }
    } else if spec_starts_with(class, "DinoTamedInventoryComponent_"@) {
        Type::TamedInventory
    } else if sp_has(props, "bInitializedMe"@) {
        if spec_starts_with(class, "PrimalInventoryBP_"@) {
            Type::StructureInventory
        } else if spec_starts_with(class, "PrimalInventoryComponent"@) {
            Type::PlayerInventory
        } else if spec_starts_with(class, "DinoWildInventoryComponent_"@) {
            Type::WildCreatureInventory
        } else {
            Type::Unknown
        }
    } else if class == "Raft_BP_C"@ || class == "MotorRaft_BP_C"@ {
        Type::Raft
    } else if sp_has(props, "DinoID1"@) {
        if sp_has(props, "TamerString"@) || sp_has(props, "TamingTeamID"@) {
            Type::TamedCreature
        } else {
            Type::WildCreature
        }
    } else if sp_has(props, "CurrentStatusValues"@) {
        Type::StatusValues
    } else if class == "StructurePaintingComponent"@ {
        Type::StructurePaintingComponent
    } else if spec_starts_with(class, "DroppedItem"@) {
        Type::DroppedItem
    } else if class == "PlayerPawnTest_Male_C"@ || class == "PlayerPawnTest_Female_C"@ {
        Type::Player
    } else if spec_starts_with(class, "BossArenaManager"@) || class == "ShooterGameState"@ || class
        == "TestGameMode_C"@ || spec_starts_with(class, "NPCZoneManager"@) || spec_starts_with(
        class,
        "WeapFists"@,
    ) || spec_ends_with(class, "Manager"@) || spec_ends_with(class, "Actor"@) {
        Type::Game
    } else {
        Type::Unknown
    }
}

/// Law: an item is always classed as a fertilized egg or a plain item,
/// whatever its class name and properties say — the item rule comes first.
pub proof fn lemma_classify_item_first(class: Seq<char>, props: Seq<SpecGroup>)
    ensures
        sp_classify(class, true, props) == Type::FertilizedEgg || sp_classify(class, true, props)
            == Type::Item,
        sp_classify(class, true, props) == Type::FertilizedEgg <==> egg_fertilized_match(class),
{
}

/// Assign a type to an object from its class name, item flag and properties.
pub fn classify(class: &str, is_item: bool, properties: &Properties) -> (r: Type)
    ensures
        r == sp_classify(class@, is_item, properties@),
{
    if is_item {
        if egg_class_match(class) {
            Type::FertilizedEgg
        } else {
            Type::Item
        }
    } else if properties.contains("OwnerName") || properties.contains("bHasResetDecayTime") {
        if str_starts_with(class, "DeathItemCache_") {
            Type::DeathItemCache
        } else {
            Type::Structure
        }
    } else if str_starts_with(class, "DinoTamedInventoryComponent_") {
        Type::TamedInventory
    } else if properties.contains("bInitializedMe") {
        if str_starts_with(class, "PrimalInventoryBP_") {
            Type::StructureInventory
        } else if str_starts_with(class, "PrimalInventoryComponent") {
            Type::PlayerInventory
        } else if str_starts_with(class, "DinoWildInventoryComponent_") {
            Type::WildCreatureInventory
        } else {
            Type::Unknown
        }
    } else if str_eq(class, "Raft_BP_C") || str_eq(class, "MotorRaft_BP_C") {
        Type::Raft
    } else if properties.contains("DinoID1") {
        if properties.contains("TamerString") || properties.contains("TamingTeamID") {
            Type::TamedCreature
        } else {
            Type::WildCreature
        }
    } else if properties.contains("CurrentStatusValues") {
        Type::StatusValues
    } else if str_eq(class, "StructurePaintingComponent") {
        Type::StructurePaintingComponent
    } else if str_starts_with(class, "DroppedItem") {
        Type::DroppedItem
    } else if str_eq(class, "PlayerPawnTest_Male_C") || str_eq(class, "PlayerPawnTest_Female_C") {
        Type::Player
    } else if str_starts_with(class, "BossArenaManager") || str_eq(class, "ShooterGameState")
        || str_eq(class, "TestGameMode_C") || str_starts_with(class, "NPCZoneManager")
        || str_starts_with(class, "WeapFists") || str_ends_with(class, "Manager") || str_ends_with(
        class,
        "Actor",
    ) {
        Type::Game
    } else {
        Type::Unknown
    }
}

/// The component reference stored under name id `id`: the first record's
/// payload when it is an integer, reinterpreted as an object index.
pub open spec fn sp_component_ref(props: Seq<SpecGroup>, id: usize) -> Option<usize> {
    match sp_find_group(props, id) {
        Some(i) => if props[i].props.len() == 0 {
            None
        } else {
            match props[i].props[0].value {
                SpecValue::Int(v) => Some(v as usize),
                _ => None,
            }
        },
        None => None,
    }
}

/// Look up the component reference stored under `id`.
pub fn component_ref(properties: &Properties, id: usize) -> (r: Option<usize>)
    ensures
        r == sp_component_ref(properties@, id),
{
    match properties.get_first_int(id) {
        Some(v) => Some(
            #[verifier::truncate]
            (v as usize),
        ),
        None => None,
    }
}

/// One decoded object, immutable after construction.
#[derive(Debug)]
pub struct Object {
    pub guid: u128,
    pub name: Name,
    pub is_item: bool,
    pub location: Option<Location>,
    pub properties: Properties,
    pub object_type: Type,
    pub status_component: Option<usize>,
    pub inventory_component: Option<usize>,
}

/// The mathematical shape of an [`Object`].
pub struct SpecObject {
    pub guid: u128,
    pub name: Name,
    pub is_item: bool,
    pub location: Option<Location>,
    pub properties: Seq<SpecGroup>,
    pub object_type: Type,
    pub status_component: Option<usize>,
    pub inventory_component: Option<usize>,
}

impl View for Object {
    type V = SpecObject;

    open spec fn view(&self) -> SpecObject {
        SpecObject {
            guid: self.guid,
            name: self.name,
            is_item: self.is_item,
            location: self.location,
            properties: self.properties@,
            object_type: self.object_type,
            status_component: self.status_component,
            inventory_component: self.inventory_component,
        }
    }
}

/// The shapes of a sequence of objects, elementwise.
pub open spec fn objects_view(xs: Seq<Object>) -> Seq<SpecObject>
    decreases xs,
{
    if xs.len() == 0 {
        Seq::empty()
    } else {
        seq![xs[0]@] + objects_view(xs.drop_first())
    }
}

/// `objects_view` maps elementwise.
pub proof fn lemma_objects_view(xs: Seq<Object>)
    ensures
        objects_view(xs).len() == xs.len(),
        forall|i: int| 0 <= i < xs.len() ==> objects_view(xs)[i] == xs[i]@,
    decreases xs.len(),
{
    if xs.len() > 0 {
        lemma_objects_view(xs.drop_first());
    }
}

/// What an object's construction yields: the classification of its class
/// name, and the two component references resolved from the well-known
/// names (the sentinel id 0 stands for an absent well-known name).
pub open spec fn sp_make_object(
    guid: u128,
    name: Name,
    is_item: bool,
    location: Option<Location>,
    props: Seq<SpecGroup>,
    names: Names,
) -> SpecObject {
    SpecObject {
        guid,
        name,
        is_item,
        location,
        properties: props,
        object_type: sp_classify(names.table()[name.id as int], is_item, props),
        status_component: sp_component_ref(
            props,
            spec_lookup0(names.table(), "MyCharacterStatusComponent"@) as usize,
        ),
        inventory_component: sp_component_ref(
            props,
            spec_lookup0(names.table(), "MyInventoryComponent"@) as usize,
        ),
    }
}

impl Object {
    /// Build an object: classify it and resolve its component references.
    pub fn new(
        guid: u128,
        name: Name,
        is_item: bool,
        location: Option<Location>,
        properties: Properties,
        names: &Names,
    ) -> (r: Object)
        requires
            name.id < names.table().len(),
        ensures
            r@ == sp_make_object(guid, name, is_item, location, properties@, *names),
    {
        let class = names.get_name(name.id);
        let object_type = classify(class.as_str(), is_item, &properties);
        let status_name = names.get_name_id_or_zero("MyCharacterStatusComponent");
        let inventory_name = names.get_name_id_or_zero("MyInventoryComponent");
        let status_component = component_ref(&properties, status_name);
        let inventory_component = component_ref(&properties, inventory_name);
        Object {
            guid,
            name,
            is_item,
            location,
            properties,
            object_type,
            status_component,
            inventory_component,
        }
    }
}

/// What decoding one directory entry at `p` yields: the object and the
/// directory position after it. `prop_base` is the absolute base of the
/// property region; each entry names its property block by an offset from
/// that base (sign-extended, as the decoder reads it).
pub open spec fn sp_read_object(b: Seq<u8>, names: Names, prop_base: int, p: int) -> Result<
    (SpecObject, int),
    ArkError,
> {
    if p + 28 > b.len() {
        Err(ArkError::UnexpectedEof)
    } else {
        let guid = u128_at(b, p);
        let name = name_at(b, p + 16);
        let is_item = bool_at(b, p + 24);
        let extra = sp_count(i32_at(b, p + 28));
        if p + 32 + 8 * extra > b.len() {
            Err(ArkError::UnexpectedEof)
        } else {
            let q1 = cap_pos(b, p + 32 + 8 * extra + 8);
            if q1 + 4 > b.len() {
                Err(ArkError::UnexpectedEof)
            } else {
                let has_loc = bool_at(b, q1);
                if has_loc && q1 + 16 > b.len() {
                    Err(ArkError::UnexpectedEof)
                } else {
                    let location = if has_loc {
                        Some(sp_location_at(b, q1 + 4))
                    } else {
                        None
                    };
                    let q2 = if has_loc {
                        cap_pos(b, q1 + 28)
                    } else {
                        q1 + 4
                    };
                    if q2 + 4 > b.len() {
                        Err(ArkError::UnexpectedEof)
                    } else {
                        let off = i32_at(b, q2) as u64 as int;
                        let next = cap_pos(b, q2 + 8);
                        match sp_props_of(b, names, cap_pos(b, prop_base + off)) {
                            Err(e) => Err(e),
                            Ok((props, _pe)) => if name.id >= names.table().len() {
                                Err(ArkError::UnknownPropertyType)
                            } else {
                                Ok(
                                    (
                                        sp_make_object(guid, name, is_item, location, props, names),
                                        next,
                                    ),
                                )
                            },
                        }
                    }
                }
            }
        }
    }
}

/// What decoding `k` directory entries from `p` yields.
pub open spec fn sp_objects_from(b: Seq<u8>, names: Names, prop_base: int, p: int, k: int) -> Result<
    (Seq<SpecObject>, int),
    ArkError,
>
    decreases k,
{
    if k <= 0 {
        Ok((Seq::empty(), p))
    } else {
        match sp_read_object(b, names, prop_base, p) {
            Err(e) => Err(e),
            Ok((o, p2)) => match sp_objects_from(b, names, prop_base, p2, k - 1) {
                Err(e) => Err(e),
                Ok((rest, pe)) => Ok((seq![o] + rest, pe)),
            },
        }
    }
}

/// What the whole object directory at `p` yields: a count, then that many
/// entries.
pub open spec fn sp_read_objects(b: Seq<u8>, names: Names, prop_base: int, p: int) -> Result<
    (Seq<SpecObject>, int),
    ArkError,
> {
    if p + 4 > b.len() {
        Err(ArkError::UnexpectedEof)
    } else {
        sp_objects_from(b, names, prop_base, p + 4, sp_count(i32_at(b, p)))
    }
}

/// Read one directory entry: header fields, then a seek to its property
/// block, then a seek back to walk on.
#[verifier::loop_isolation(false)]
#[verifier::rlimit(100)]
fn read_object(file: &mut ArrayReader, names: &Names, prop_base: u64) -> (r: Result<
    Object,
    ArkError,
>)
    requires
        old(file).wf(),
    ensures
        final(file).wf(),
        final(file).bytes() == old(file).bytes(),
        match r {
            Ok(o) => sp_read_object(old(file).bytes(), *names, prop_base as int, old(file).pos())
                == Ok::<_, ArkError>((o@, final(file).pos())) && old(file).pos() < final(file).pos(),
            Err(e) => sp_read_object(old(file).bytes(), *names, prop_base as int, old(file).pos())
                == Err::<(SpecObject, int), _>(e),
        },
{
    let ghost b = file.bytes();
    let ghost p = file.pos();
    let guid = match file.read_u128() {
        Ok(v) => v,
        Err(e) => { return Err(e) },
    };
    let name = match file.read_name() {
        Ok(v) => v,
        Err(e) => { return Err(e) },
    };
    let is_item = match file.read_bool() {
        Ok(v) => v,
        Err(e) => { return Err(e) },
    };
    let extra = match file.read_i32() {
        Ok(v) => v,
        Err(e) => { return Err(e) },
    };
    let extra_n: usize = if extra < 0 {
        0
    } else {
        extra as usize
    };
    let mut i: usize = 0;
    while i < extra_n
        invariant
            file.wf(),
            file.bytes() == b,
            0 <= i <= extra_n,
            file.pos() == p + 32 + 8 * i,
            p + 32 + 8 * i <= b.len(),
        decreases extra_n - i,
    {
        match file.read_name() {
            Ok(_) => (),
            Err(e) => {
                proof {
                    assert(p + 32 + 8 * (extra_n as int) > b.len());
                }
                return Err(e);
            },
        }
        i = i + 1;
    }
    proof {
        assert(file.pos() == p + 32 + 8 * (extra_n as int));
    }
    file.skip(8);
    let has_loc = match file.read_bool() {
        Ok(v) => v,
        Err(e) => { return Err(e) },
    };
    let location = if has_loc {
        match Location::read(file) {
            Ok(l) => Some(l),
            Err(e) => { return Err(e) },
        }
    } else {
        None
    };
    let off = match file.read_i32() {
        Ok(v) => v,
        Err(e) => { return Err(e) },
    };
    let next_object = {
        file.skip(4);
        file.position()
    };
    let prop_target64 = (prop_base as u128) + ((
    #[verifier::truncate]
    (off as u64)) as u128);
    let len_total = file.total_len();
    let prop_target: usize = if prop_target64 > (len_total as u128) {
        len_total
    } else {
        prop_target64 as usize
    };
    file.seek_to(prop_target);
    let mut properties = Properties::new();
    match properties.read(file, names) {
        Ok(()) => (),
        Err(e) => { return Err(e) },
    }
    file.seek_to(next_object);
    if name.id >= names.len() {
        return Err(ArkError::UnknownPropertyType);
    }
    Ok(Object::new(guid, name, is_item, location, properties, names))
}

/// Read the whole object directory: a count, then that many entries, each
/// with its property block decoded through a seek into the property region.
#[verifier::loop_isolation(false)]
pub fn read_objects(file: &mut ArrayReader, names: &Names, properties_offset: u64) -> (r: Result<
    Vec<Object>,
    ArkError,
>)
    requires
        old(file).wf(),
    ensures
        final(file).wf(),
        final(file).bytes() == old(file).bytes(),
        match r {
            Ok(v) => sp_read_objects(
                old(file).bytes(),
                *names,
                properties_offset as int,
                old(file).pos(),
            ) == Ok::<_, ArkError>((objects_view(v@), final(file).pos())),
            Err(e) => sp_read_objects(
                old(file).bytes(),
                *names,
                properties_offset as int,
                old(file).pos(),
            ) == Err::<(Seq<SpecObject>, int), _>(e),
        },
{
    let ghost b = file.bytes();
    let ghost p0 = file.pos();
    let count = match file.read_i32() {
        Ok(v) => v,
        Err(e) => { return Err(e) },
    };
    let n: usize = if count < 0 {
        0
    } else {
        count as usize
    };
    let ghost q0 = file.pos();
    let mut objects: Vec<Object> = Vec::new();
    let mut k: usize = 0;
    while k < n
        invariant
            file.wf(),
            file.bytes() == b,
            0 <= k <= n,
            objects@.len() == k,
            match sp_objects_from(b, *names, properties_offset as int, file.pos(), n - k) {
                Ok((rest, pe)) => sp_objects_from(b, *names, properties_offset as int, q0, n as int)
                    == Ok::<_, ArkError>((objects_view(objects@) + rest, pe)),
                Err(e) => sp_objects_from(b, *names, properties_offset as int, q0, n as int)
                    == Err::<(Seq<SpecObject>, int), _>(e),
            },
        decreases n - k,
    {
        let ghost p = file.pos();
        let o = match read_object(file, names, properties_offset) {
            Ok(o) => o,
            Err(e) => {
                proof {
                    assert(sp_objects_from(b, *names, properties_offset as int, p, n - k) == Err::<
                        (Seq<SpecObject>, int),
                        ArkError,
                    >(e));
                }
                return Err(e);
            },
        };
        let ghost pre = objects@;
        let ghost ov = o@;
        objects.push(o);
        proof {
            lemma_objects_view(pre);
            lemma_objects_view(objects@);
            assert(objects_view(objects@) =~= objects_view(pre) + seq![ov]);
            let p2 = file.pos();
            match sp_objects_from(b, *names, properties_offset as int, p2, n - k - 1) {
                Ok((rest2, pe)) => {
                    assert(sp_objects_from(b, *names, properties_offset as int, p, n - k) == Ok::<
                        _,
                        ArkError,
                    >((seq![ov] + rest2, pe)));
                    assert(objects_view(objects@) + rest2 =~= objects_view(pre) + (seq![ov]
                        + rest2));
                },
                Err(e2) => {
                    assert(sp_objects_from(b, *names, properties_offset as int, p, n - k) == Err::<
                        (Seq<SpecObject>, int),
                        _,
                    >(e2));
                },
            }
        }
        k = k + 1;
    }
    proof {
        assert(objects_view(objects@) + Seq::<SpecObject>::empty() =~= objects_view(objects@));
    }
    Ok(objects)
}

/// Law: one directory entry decodes the same under any two loaded name
/// tables holding the same strings.
#[verifier::rlimit(100)]
pub proof fn lemma_object_congruent(b: Seq<u8>, n1: Names, n2: Names, prop_base: int, p: int)
    requires
        crate::names::names_equiv(n1, n2),
    ensures
        sp_read_object(b, n1, prop_base, p) == sp_read_object(b, n2, prop_base, p),
{
    crate::names::lemma_names_equiv_fields(n1, n2);
    if p + 28 <= b.len() {
        let extra = sp_count(i32_at(b, p + 28));
        if p + 32 + 8 * extra <= b.len() {
            let q1 = cap_pos(b, p + 32 + 8 * extra + 8);
            if q1 + 4 <= b.len() {
                let has_loc = bool_at(b, q1);
                if !(has_loc && q1 + 16 > b.len()) {
                    let q2 = if has_loc {
                        cap_pos(b, q1 + 28)
                    } else {
                        q1 + 4
                    };
                    if q2 + 4 <= b.len() {
                        let off = i32_at(b, q2) as u64 as int;
                        crate::decode::lemma_prop_list_congruent(
                            b,
                            n1,
                            n2,
                            cap_pos(b, prop_base + off),
                        );
                        match crate::decode::sp_prop_list(b, n1, cap_pos(b, prop_base + off)) {
                            Ok((recs, _)) => {
                                crate::decode::lemma_fold_groups_congruent(
                                    Seq::empty(),
                                    recs,
                                    n1,
                                    n2,
                                );
                            },
                            Err(_) => {},
                        }
                    }
                }
            }
        }
    }
}

/// Law: the whole directory decodes the same under equivalent name tables.
pub proof fn lemma_objects_from_congruent(
    b: Seq<u8>,
    n1: Names,
    n2: Names,
    prop_base: int,
    p: int,
    k: int,
)
    requires
        crate::names::names_equiv(n1, n2),
    ensures
        sp_objects_from(b, n1, prop_base, p, k) == sp_objects_from(b, n2, prop_base, p, k),
    decreases k,
{
    if k > 0 {
        lemma_object_congruent(b, n1, n2, prop_base, p);
        match sp_read_object(b, n1, prop_base, p) {
            Ok((_, p2)) => {
                lemma_objects_from_congruent(b, n1, n2, prop_base, p2, k - 1);
            },
            Err(_) => {},
        }
    }
}

/// Law: object decoding depends on the name table alone.
pub proof fn lemma_read_objects_congruent(b: Seq<u8>, n1: Names, n2: Names, prop_base: int, p: int)
    requires
        crate::names::names_equiv(n1, n2),
    ensures
        sp_read_objects(b, n1, prop_base, p) == sp_read_objects(b, n2, prop_base, p),
{
    if p + 4 <= b.len() {
        lemma_objects_from_congruent(b, n1, n2, prop_base, p + 4, sp_count(i32_at(b, p)));
    }
}

} // verus!
