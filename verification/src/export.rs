//! Projections of the decoded objects into flat, exportable records: wild
//! creatures, tamed creatures, the nursery (gestating mothers and fertilized
//! eggs), and the cryopod items. Writing these records out as JSON is left
//! to the caller; everything here is pure computation over decoded objects.
//!
//! Missing optional properties are not errors: they default to `false`, the
//! empty string, zero stats, or level 1, and a missing or out-of-range
//! status reference yields the same defaults.

use vstd::prelude::*;

use crate::names::{spec_lookup0, Names};
use crate::objects::{objects_view, SpecObject, Type};
use crate::properties::{sp_get_bool, sp_get_i32, sp_get_str, sp_get_vec_int, Properties, SpecGroup};
use crate::savefile::ArkParser;

verus! {

/// A boolean property, defaulting to false.
pub open spec fn sp_bool0(gs: Seq<SpecGroup>, id: usize) -> bool {
    match sp_get_bool(gs, id) {
        Some(b) => b,
        None => false,
    }
}

/// A numeric property, defaulting to `d`.
pub open spec fn sp_i32_or(gs: Seq<SpecGroup>, id: usize, d: i32) -> i32 {
    match sp_get_i32(gs, id) {
        Some(v) => v,
        None => d,
    }
}

/// A string property, defaulting to the empty string.
pub open spec fn sp_str0(gs: Seq<SpecGroup>, id: usize) -> Seq<char> {
    match sp_get_str(gs, id) {
        Some(s) => s,
        None => Seq::empty(),
    }
}

/// A stat vector brought to exactly twelve slots: truncated or zero-padded.
pub open spec fn sp_stats12(gs: Seq<SpecGroup>, id: usize) -> Seq<i32> {
    let v = sp_get_vec_int(gs, id);
    if v.len() >= 12 {
        v.take(12)
    } else {
        v + Seq::new((12 - v.len()) as nat, |i: int| 0i32)
    }
}

/// The properties of the status component `o` points at, when the reference
/// stays inside the flat array; an absent or stray reference has none.
pub open spec fn sp_status_props(objs: Seq<SpecObject>, o: SpecObject) -> Seq<SpecGroup> {
    match o.status_component {
        Some(j) => if (j as int) < objs.len() {
            objs[j as int].properties
        } else {
            Seq::empty()
        },
        None => Seq::empty(),
    }
}

/// The class name of `o`, or empty for an id outside the table.
pub open spec fn sp_class_of(nt: Seq<Seq<char>>, o: SpecObject) -> Seq<char> {
    if (o.name.id as int) < nt.len() {
        nt[o.name.id as int]
    } else {
        Seq::empty()
    }
}

/// Project a numeric property out of an object's status component.
fn sprops_get_i32(parser: &ArkParser, i: usize, id: usize) -> (r: Option<i32>)
    requires
        i < parser.objects@.len(),
    ensures
        r == sp_get_i32(
            sp_status_props(objects_view(parser.objects@), objects_view(parser.objects@)[i as int]),
            id,
        ),
{
    proof {
        crate::objects::lemma_objects_view(parser.objects@);
    }
    let o = &parser.objects[i];
    match o.status_component {
        Some(j) => if j < parser.objects.len() {
            parser.objects[j].properties.get_i32(id)
        } else {
            None
        },
        None => None,
    }
}

/// Project a twelve-slot stat vector out of a property map.
fn stats12_of(props: &Properties, id: usize) -> (r: Vec<i32>)
    ensures
        r@ == sp_stats12(props@, id),
{
    let mut v = props.get_vec_int(id);
    let ghost v0 = v@;
    if v.len() >= 12 {
        v.truncate(12);
        proof {
            assert(v@ =~= v0.take(12));
        }
    } else {
        while v.len() < 12
            invariant
                v0 == sp_get_vec_int(props@, id),
                v0.len() < 12,
                v0.len() <= v@.len() <= 12,
                v@ =~= v0 + Seq::new((v@.len() - v0.len()) as nat, |i: int| 0i32),
            decreases 12 - v@.len(),
        {
            v.push(0);
            proof {
                assert(v@ =~= v0 + Seq::new((v@.len() - v0.len()) as nat, |i: int| 0i32));
            }
        }
    }
    v
}

/// Project a twelve-slot stat vector out of an object's status component.
fn sprops_stats12(parser: &ArkParser, i: usize, id: usize) -> (r: Vec<i32>)
    requires
        i < parser.objects@.len(),
    ensures
        r@ == sp_stats12(
            sp_status_props(objects_view(parser.objects@), objects_view(parser.objects@)[i as int]),
            id,
        ),
{
    proof {
        crate::objects::lemma_objects_view(parser.objects@);
    }
    let o = &parser.objects[i];
    match o.status_component {
        Some(j) => if j < parser.objects.len() {
            stats12_of(&parser.objects[j].properties, id)
        } else {
            let mut v: Vec<i32> = Vec::new();
            let mut k: usize = 0;
            while k < 12
                invariant
                    0 <= k <= 12,
                    v@ =~= Seq::new(k as nat, |i: int| 0i32),
                decreases 12 - k,
            {
                v.push(0);
                proof {
                    assert(v@ =~= Seq::new((k + 1) as nat, |i: int| 0i32));
                }
                k = k + 1;
            }
            proof {
                crate::properties::lemma_find_group_from(Seq::<SpecGroup>::empty(), id, 0);
                assert(sp_get_vec_int(Seq::<SpecGroup>::empty(), id) =~= Seq::<i32>::empty());
                assert(v@ =~= sp_stats12(Seq::<SpecGroup>::empty(), id));
            }
            v
        },
        None => {
            let mut v: Vec<i32> = Vec::new();
            let mut k: usize = 0;
            while k < 12
                invariant
                    0 <= k <= 12,
                    v@ =~= Seq::new(k as nat, |i: int| 0i32),
                decreases 12 - k,
            {
                v.push(0);
                proof {
                    assert(v@ =~= Seq::new((k + 1) as nat, |i: int| 0i32));
                }
                k = k + 1;
            }
            proof {
                crate::properties::lemma_find_group_from(Seq::<SpecGroup>::empty(), id, 0);
                assert(sp_get_vec_int(Seq::<SpecGroup>::empty(), id) =~= Seq::<i32>::empty());
                assert(v@ =~= sp_stats12(Seq::<SpecGroup>::empty(), id));
            }
            v
        },
    }
}

/// The class name of object `i`, or empty for an id outside the table.
fn class_of(parser: &ArkParser, i: usize) -> (r: String)
    requires
        i < parser.objects@.len(),
    ensures
        r@ == sp_class_of((*parser.names).table(), objects_view(parser.objects@)[i as int]),
{
    proof {
        crate::objects::lemma_objects_view(parser.objects@);
    }
    let o = &parser.objects[i];
    if o.name.id < parser.names.len() {
        parser.names.get_name(o.name.id).clone()
    } else {
        String::new()
    }
}

/// One exported wild creature.
pub struct WildRecord {
    pub tameable: bool,
    pub is_female: bool,
    pub class_name: String,
    pub x: u32,
    pub y: u32,
    pub z: u32,
    pub base_stats: Vec<i32>,
    pub base_level: i32,
}

/// The shape of a [`WildRecord`].
pub struct SpecWild {
    pub tameable: bool,
    pub is_female: bool,
    pub class_name: Seq<char>,
    pub x: u32,
    pub y: u32,
    pub z: u32,
    pub base_stats: Seq<i32>,
    pub base_level: i32,
}

impl View for WildRecord {
    type V = SpecWild;

    open spec fn view(&self) -> SpecWild {
        SpecWild {
            tameable: self.tameable,
            is_female: self.is_female,
            class_name: self.class_name@,
            x: self.x,
            y: self.y,
            z: self.z,
            base_stats: self.base_stats@,
            base_level: self.base_level,
        }
    }
}

/// What one wild creature exports to.
pub open spec fn sp_wild_of(objs: Seq<SpecObject>, nt: Seq<Seq<char>>, o: SpecObject) -> SpecWild {
    let sprops = sp_status_props(objs, o);
    let loc = o.location->Some_0;
    SpecWild {
        tameable: !sp_bool0(o.properties, spec_lookup0(nt, "bForceDisablingTaming"@) as usize),
        is_female: sp_bool0(o.properties, spec_lookup0(nt, "bIsFemale"@) as usize),
        class_name: sp_class_of(nt, o),
        x: loc.x,
        y: loc.y,
        z: loc.z,
        base_stats: sp_stats12(sprops, spec_lookup0(nt, "NumberOfLevelUpPointsApplied"@) as usize),
        base_level: sp_i32_or(sprops, spec_lookup0(nt, "BaseCharacterLevel"@) as usize, 1),
    }
}

/// The wild-creature export of the objects from index `i` on: every wild
/// creature that carries a location, in order.
pub open spec fn sp_wilds(objs: Seq<SpecObject>, nt: Seq<Seq<char>>, i: int) -> Seq<SpecWild>
    decreases objs.len() - i,
{
    if i < 0 || i >= objs.len() {
        Seq::empty()
    } else {
        let rest = sp_wilds(objs, nt, i + 1);
        if objs[i].object_type == Type::WildCreature && objs[i].location is Some {
            seq![sp_wild_of(objs, nt, objs[i])] + rest
        } else {
            rest
        }
    }
}

/// Build the wild-creature export rows.
#[verifier::loop_isolation(false)]
pub fn wild_records(parser: &ArkParser) -> (r: Vec<WildRecord>)
    ensures
        r@.map_values(|w: WildRecord| w@) == sp_wilds(
            objects_view(parser.objects@),
            (*parser.names).table(),
            0,
        ),
{
    let ghost objs = objects_view(parser.objects@);
    let ghost nt = crate::savefile::sp_table(parser);
    proof {
        crate::objects::lemma_objects_view(parser.objects@);
    }
    let names: &Names = &parser.names;
    let is_female = names.get_name_id_or_zero("bIsFemale");
    let taming_disabled = names.get_name_id_or_zero("bForceDisablingTaming");
    let base_levels = names.get_name_id_or_zero("NumberOfLevelUpPointsApplied");
    let base_level = names.get_name_id_or_zero("BaseCharacterLevel");
    let n = parser.objects.len();
    let mut out: Vec<WildRecord> = Vec::new();
    let mut i: usize = 0;
    while i < n
        invariant
            0 <= i <= n,
            n == parser.objects@.len(),
            out@.map_values(|w: WildRecord| w@) + sp_wilds(objs, nt, i as int) =~= sp_wilds(
                objs,
                nt,
                0,
            ),
        decreases n - i,
    {
        let o = &parser.objects[i];
        let ghost pre = out@;
        let is_wild = match o.object_type {
            Type::WildCreature => true,
            _ => false,
        };
        match (is_wild, &o.location) {
            (true, Some(loc)) => {
                let class_name = class_of(parser, i);
                let base_stats = sprops_stats12(parser, i, base_levels);
                let lvl = match sprops_get_i32(parser, i, base_level) {
                    Some(v) => v,
                    None => 1,
                };
                let o2 = &parser.objects[i];
                let rec = WildRecord {
                    is_female: match o2.properties.get_bool(is_female) {
                        Some(b) => b,
                        None => false,
                    },
                    tameable: !(match o2.properties.get_bool(taming_disabled) {
                        Some(b) => b,
                        None => false,
                    }),
                    class_name,
                    x: loc.x,
                    y: loc.y,
                    z: loc.z,
                    base_level: lvl,
                    base_stats,
                };
                proof {
                    assert(rec@ == sp_wild_of(objs, nt, objs[i as int]));
                }
                out.push(rec);
                proof {
                    assert(out@.map_values(|w: WildRecord| w@) =~= pre.map_values(
                        |w: WildRecord| w@,
                    ) + seq![rec@]);
                    assert(pre.map_values(|w: WildRecord| w@) + seq![rec@] + sp_wilds(
                        objs,
                        nt,
                        i + 1,
                    ) =~= pre.map_values(|w: WildRecord| w@) + (seq![rec@] + sp_wilds(
                        objs,
                        nt,
                        i + 1,
                    )));
                }
            },
            _ => (),
        }
        i = i + 1;
    }
    out
}

/// One exported tamed creature.
pub struct TamedRecord {
    pub is_female: bool,
    pub name: String,
    pub class_name: String,
    pub x: u32,
    pub y: u32,
    pub z: u32,
    pub base_stats: Vec<i32>,
    pub tamed_stats: Vec<i32>,
    pub base_level: i32,
}

/// The shape of a [`TamedRecord`].
pub struct SpecTamed {
    pub is_female: bool,
    pub name: Seq<char>,
    pub class_name: Seq<char>,
    pub x: u32,
    pub y: u32,
    pub z: u32,
    pub base_stats: Seq<i32>,
    pub tamed_stats: Seq<i32>,
    pub base_level: i32,
}

impl View for TamedRecord {
    type V = SpecTamed;

    open spec fn view(&self) -> SpecTamed {
        SpecTamed {
            is_female: self.is_female,
            name: self.name@,
            class_name: self.class_name@,
            x: self.x,
            y: self.y,
            z: self.z,
            base_stats: self.base_stats@,
            tamed_stats: self.tamed_stats@,
            base_level: self.base_level,
        }
    }
}

/// What one tamed creature exports to.
pub open spec fn sp_tamed_of(objs: Seq<SpecObject>, nt: Seq<Seq<char>>, o: SpecObject) -> SpecTamed {
    let sprops = sp_status_props(objs, o);
    let loc = o.location->Some_0;
    SpecTamed {
        is_female: sp_bool0(o.properties, spec_lookup0(nt, "bIsFemale"@) as usize),
        name: sp_str0(o.properties, spec_lookup0(nt, "TamedName"@) as usize),
        class_name: sp_class_of(nt, o),
        x: loc.x,
        y: loc.y,
        z: loc.z,
        base_stats: sp_stats12(sprops, spec_lookup0(nt, "NumberOfLevelUpPointsApplied"@) as usize),
        tamed_stats: sp_stats12(
            sprops,
            spec_lookup0(nt, "NumberOfLevelUpPointsAppliedTamed"@) as usize,
        ),
        base_level: sp_i32_or(sprops, spec_lookup0(nt, "BaseCharacterLevel"@) as usize, 1),
    }
}

/// The tamed-creature export of the objects from index `i` on.
pub open spec fn sp_tameds(objs: Seq<SpecObject>, nt: Seq<Seq<char>>, i: int) -> Seq<SpecTamed>
    decreases objs.len() - i,
{
    if i < 0 || i >= objs.len() {
        Seq::empty()
    } else {
        let rest = sp_tameds(objs, nt, i + 1);
        if objs[i].object_type == Type::TamedCreature && objs[i].location is Some {
            seq![sp_tamed_of(objs, nt, objs[i])] + rest
        } else {
            rest
        }
    }
}

/// Build the tamed-creature export rows.
#[verifier::loop_isolation(false)]
pub fn tamed_records(parser: &ArkParser) -> (r: Vec<TamedRecord>)
    ensures
        r@.map_values(|w: TamedRecord| w@) == sp_tameds(
            objects_view(parser.objects@),
            (*parser.names).table(),
            0,
        ),
{
    let ghost objs = objects_view(parser.objects@);
    let ghost nt = crate::savefile::sp_table(parser);
    proof {
        crate::objects::lemma_objects_view(parser.objects@);
    }
    let names: &Names = &parser.names;
    let is_female = names.get_name_id_or_zero("bIsFemale");
    let tamed_name = names.get_name_id_or_zero("TamedName");
    let base_levels = names.get_name_id_or_zero("NumberOfLevelUpPointsApplied");
    let tamed_levels = names.get_name_id_or_zero("NumberOfLevelUpPointsAppliedTamed");
    let base_level = names.get_name_id_or_zero("BaseCharacterLevel");
    let n = parser.objects.len();
    let mut out: Vec<TamedRecord> = Vec::new();
    let mut i: usize = 0;
    while i < n
        invariant
            0 <= i <= n,
            n == parser.objects@.len(),
            out@.map_values(|w: TamedRecord| w@) + sp_tameds(objs, nt, i as int) =~= sp_tameds(
                objs,
                nt,
                0,
            ),
        decreases n - i,
    {
        let o = &parser.objects[i];
        let ghost pre = out@;
        let is_tamed = match o.object_type {
            Type::TamedCreature => true,
            _ => false,
        };
        match (is_tamed, &o.location) {
            (true, Some(loc)) => {
                let class_name = class_of(parser, i);
                let base_stats = sprops_stats12(parser, i, base_levels);
                let tamed_stats = sprops_stats12(parser, i, tamed_levels);
                let lvl = match sprops_get_i32(parser, i, base_level) {
                    Some(v) => v,
                    None => 1,
                };
                let o2 = &parser.objects[i];
                let rec = TamedRecord {
                    is_female: match o2.properties.get_bool(is_female) {
                        Some(b) => b,
                        None => false,
                    },
                    name: match o2.properties.get_str(tamed_name) {
                        Some(s) => s.to_owned(),
                        None => String::new(),
                    },
                    class_name,
                    x: loc.x,
                    y: loc.y,
                    z: loc.z,
                    base_level: lvl,
                    base_stats,
                    tamed_stats,
                };
                proof {
                    assert(rec@ == sp_tamed_of(objs, nt, objs[i as int]));
                }
                out.push(rec);
                proof {
                    assert(out@.map_values(|w: TamedRecord| w@) =~= pre.map_values(
                        |w: TamedRecord| w@,
                    ) + seq![rec@]);
                    assert(pre.map_values(|w: TamedRecord| w@) + seq![rec@] + sp_tameds(
                        objs,
                        nt,
                        i + 1,
                    ) =~= pre.map_values(|w: TamedRecord| w@) + (seq![rec@] + sp_tameds(
                        objs,
                        nt,
                        i + 1,
                    )));
                }
            },
            _ => (),
        }
        i = i + 1;
    }
    out
}

/// One exported nursery row: a gestating mother or a fertilized egg.
pub struct BabyRecord {
    pub parent: String,
    pub class_name: String,
    pub base_stats: Vec<i32>,
}

/// The shape of a [`BabyRecord`].
pub struct SpecBaby {
    pub parent: Seq<char>,
    pub class_name: Seq<char>,
    pub base_stats: Seq<i32>,
}

impl View for BabyRecord {
    type V = SpecBaby;

    open spec fn view(&self) -> SpecBaby {
        SpecBaby {
            parent: self.parent@,
            class_name: self.class_name@,
            base_stats: self.base_stats@,
        }
    }
}

/// What one nursery object exports to: a gestating mother reports her own
/// name and gestation stats, an egg its parents and egg stats.
pub open spec fn sp_baby_of(nt: Seq<Seq<char>>, o: SpecObject) -> SpecBaby {
    if o.object_type == Type::TamedCreature {
        SpecBaby {
            parent: sp_str0(o.properties, spec_lookup0(nt, "TamedName"@) as usize),
            class_name: sp_class_of(nt, o),
            base_stats: sp_stats12(
                o.properties,
                spec_lookup0(nt, "GestationEggNumberOfLevelUpPointsApplied"@) as usize,
            ),
        }
    } else {
        SpecBaby {
            parent: sp_str0(o.properties, spec_lookup0(nt, "CustomItemDescription"@) as usize),
            class_name: sp_class_of(nt, o),
            base_stats: sp_stats12(
                o.properties,
                spec_lookup0(nt, "EggNumberOfLevelUpPointsApplied"@) as usize,
            ),
        }
    }
}

/// Does this object belong in the nursery: a tamed creature carrying the
/// gestation stat, or a fertilized egg.
pub open spec fn sp_is_baby(nt: Seq<Seq<char>>, o: SpecObject) -> bool {
    ||| (o.object_type == Type::TamedCreature && crate::properties::sp_find_group(
        o.properties,
        spec_lookup0(nt, "GestationEggNumberOfLevelUpPointsApplied"@) as usize,
    ) is Some)
    ||| o.object_type == Type::FertilizedEgg
}

/// The nursery export of the objects from index `i` on. A save whose name
/// table lacks the gestation stat name has no nursery at all.
pub open spec fn sp_nursery(objs: Seq<SpecObject>, nt: Seq<Seq<char>>, i: int) -> Seq<SpecBaby>
    decreases objs.len() - i,
{
    if i < 0 || i >= objs.len() {
        Seq::empty()
    } else {
        let rest = sp_nursery(objs, nt, i + 1);
        if sp_is_baby(nt, objs[i]) {
            seq![sp_baby_of(nt, objs[i])] + rest
        } else {
            rest
        }
    }
}

/// Build the nursery export rows; empty when the name table lacks the
/// gestation stat name.
#[verifier::loop_isolation(false)]
pub fn nursery_records(parser: &ArkParser) -> (r: Vec<BabyRecord>)
    ensures
        crate::names::spec_lookup(
            (*parser.names).table(),
            "GestationEggNumberOfLevelUpPointsApplied"@,
        ) is None ==> r@.len() == 0,
        crate::names::spec_lookup(
            (*parser.names).table(),
            "GestationEggNumberOfLevelUpPointsApplied"@,
        ) is Some ==> r@.map_values(|w: BabyRecord| w@) == sp_nursery(
            objects_view(parser.objects@),
            (*parser.names).table(),
            0,
        ),
{
    let ghost objs = objects_view(parser.objects@);
    let ghost nt = crate::savefile::sp_table(parser);
    proof {
        crate::objects::lemma_objects_view(parser.objects@);
    }
    let names: &Names = &parser.names;
    let mut out: Vec<BabyRecord> = Vec::new();
    let gest = match names.get_name_id("GestationEggNumberOfLevelUpPointsApplied") {
        Some(id) => id,
        None => { return out },
    };
    let tamed_name = names.get_name_id_or_zero("TamedName");
    let parents = names.get_name_id_or_zero("CustomItemDescription");
    let egg_levels = names.get_name_id_or_zero("EggNumberOfLevelUpPointsApplied");
    let n = parser.objects.len();
    let mut i: usize = 0;
    while i < n
        invariant
            0 <= i <= n,
            n == parser.objects@.len(),
            gest as int == spec_lookup0(nt, "GestationEggNumberOfLevelUpPointsApplied"@),
            out@.map_values(|w: BabyRecord| w@) + sp_nursery(objs, nt, i as int) =~= sp_nursery(
                objs,
                nt,
                0,
            ),
        decreases n - i,
    {
        let o = &parser.objects[i];
        let ghost pre = out@;
        let is_tamed = match o.object_type {
            Type::TamedCreature => true,
            _ => false,
        };
        let is_egg = match o.object_type {
            Type::FertilizedEgg => true,
            _ => false,
        };
        if (is_tamed && o.properties.contains_id(gest)) || is_egg {
            let class_name = class_of(parser, i);
            let o2 = &parser.objects[i];
            let rec = if is_tamed {
                BabyRecord {
                    parent: match o2.properties.get_str(tamed_name) {
                        Some(s) => s.to_owned(),
                        None => String::new(),
                    },
                    class_name,
                    base_stats: stats12_of(&o2.properties, gest),
                }
            } else {
                BabyRecord {
                    parent: match o2.properties.get_str(parents) {
                        Some(s) => s.to_owned(),
                        None => String::new(),
                    },
                    class_name,
                    base_stats: stats12_of(&o2.properties, egg_levels),
                }
            };
            proof {
                assert(rec@ == sp_baby_of(nt, objs[i as int]));
            }
            out.push(rec);
            proof {
                assert(out@.map_values(|w: BabyRecord| w@) =~= pre.map_values(|w: BabyRecord| w@)
                    + seq![rec@]);
                assert(pre.map_values(|w: BabyRecord| w@) + seq![rec@] + sp_nursery(objs, nt, i + 1)
                    =~= pre.map_values(|w: BabyRecord| w@) + (seq![rec@] + sp_nursery(
                    objs,
                    nt,
                    i + 1,
                )));
            }
        }
        i = i + 1;
    }
    out
}

/// The indices of the cryopod items among the objects from `i` on.
pub open spec fn sp_cryo_indices(objs: Seq<SpecObject>, nt: Seq<Seq<char>>, i: int) -> Seq<usize>
    decreases objs.len() - i,
{
    if i < 0 || i >= objs.len() {
        Seq::empty()
    } else {
        let rest = sp_cryo_indices(objs, nt, i + 1);
        if objs[i].name.id as int == spec_lookup0(nt, "PrimalItem_WeaponEmptyCryopod_C"@) {
            seq![i as usize] + rest
        } else {
            rest
        }
    }
}

/// The indices of the cryopod items in the flat object array.
#[verifier::loop_isolation(false)]
pub fn cryopod_indices(parser: &ArkParser) -> (r: Vec<usize>)
    ensures
        r@ == sp_cryo_indices(objects_view(parser.objects@), (*parser.names).table(), 0),
{
    let ghost objs = objects_view(parser.objects@);
    let ghost nt = crate::savefile::sp_table(parser);
    proof {
        crate::objects::lemma_objects_view(parser.objects@);
    }
    let cryopod = parser.names.get_name_id_or_zero("PrimalItem_WeaponEmptyCryopod_C");
    let n = parser.objects.len();
    let mut out: Vec<usize> = Vec::new();
    let mut i: usize = 0;
    while i < n
        invariant
            0 <= i <= n,
            n == parser.objects@.len(),
            out@ + sp_cryo_indices(objs, nt, i as int) =~= sp_cryo_indices(objs, nt, 0),
        decreases n - i,
    {
        if parser.objects[i].name.id == cryopod {
            let ghost pre = out@;
            out.push(i);
            proof {
                assert(pre + seq![i as usize] + sp_cryo_indices(objs, nt, i + 1) =~= pre + (seq![
                    i as usize,
                ] + sp_cryo_indices(objs, nt, i + 1)));
            }
        }
        i = i + 1;
    }
    out
}

} // verus!
