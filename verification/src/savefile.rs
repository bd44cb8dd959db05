//! The save facade: header, skipped blocks, name table, object directory,
//! cryopod expansion, and the entry list the library hands out.

use std::rc::Rc;
use vstd::prelude::*;

use crate::decode::sp_count;
use crate::error::ArkError;
use crate::names::{names_list_at, Name, Names};
use crate::objects::{
    objects_view, read_objects, sp_read_objects, Location, Object, SpecObject, Type,
};
use crate::properties::{sp_find_group, Properties, SpecGroup, SpecValue, Value};
use crate::reader::{cap_pos, i16_at, i32_at, str_read_at, str_skip_at, u32_at, ArrayReader};
use crate::names::spec_lookup0;

verus! {

/// What the header yields: the version, the name-table offset, the property
/// region's base (sign-extended, as the decoder reads it), and the position
/// after the header. Versions 5 through 9 are accepted; versions above 6
/// carry a hibernation slot whose second word must be zero; versions above 8
/// carry a save counter. The game-time float is consumed and ignored, and a
/// header cut short inside it is tolerated there.
pub open spec fn sp_read_header(b: Seq<u8>) -> Result<((i16, u32, u64), int), ArkError> {
    if 2 > b.len() {
        Err(ArkError::UnexpectedEof)
    } else {
        let version = i16_at(b, 0);
        if version < 5 || version > 9 {
            Err(ArkError::UnsupportedVersion)
        } else {
            let p = if version > 6 {
                10int
            } else {
                2int
            };
            if version > 6 && 10 > b.len() {
                Err(ArkError::UnexpectedEof)
            } else if version > 6 && i32_at(b, 6) != 0 {
                Err(ArkError::HeaderCorrupt)
            } else if p + 8 > b.len() {
                Err(ArkError::UnexpectedEof)
            } else {
                let names_offset = u32_at(b, p);
                let properties_offset = i32_at(b, p + 4) as u64;
                let q = if p + 12 <= b.len() {
                    p + 12
                } else {
                    p + 8
                };
                if version > 8 {
                    if q + 4 > b.len() {
                        Err(ArkError::UnexpectedEof)
                    } else {
                        Ok(((version, names_offset, properties_offset), q + 4))
                    }
                } else {
                    Ok(((version, names_offset, properties_offset), q))
                }
            }
        }
    }
}

/// Read and validate the header.
pub fn read_header(file: &mut ArrayReader) -> (r: Result<(i16, u32, u64), ArkError>)
    requires
        old(file).wf(),
        old(file).pos() == 0,
    ensures
        final(file).wf(),
        final(file).bytes() == old(file).bytes(),
        match r {
            Ok(h) => sp_read_header(old(file).bytes()) == Ok::<_, ArkError>((
                h,
                final(file).pos(),
            )),
            Err(e) => sp_read_header(old(file).bytes()) == Err::<((i16, u32, u64), int), _>(e),
        },
{
    let version = match file.read_i16() {
        Ok(v) => v,
        Err(e) => { return Err(e) },
    };
    if version < 5 || version > 9 {
        return Err(ArkError::UnsupportedVersion);
    }
    if version > 6 {
        let _hibernation = match file.read_u32() {
            Ok(v) => v,
            Err(e) => { return Err(e) },
        };
        let zero = match file.read_i32() {
            Ok(v) => v,
            Err(e) => { return Err(e) },
        };
        if zero != 0 {
            return Err(ArkError::HeaderCorrupt);
        }
    }
    let names_offset = match file.read_u32() {
        Ok(v) => v,
        Err(e) => { return Err(e) },
    };
    let properties_i32 = match file.read_i32() {
        Ok(v) => v,
        Err(e) => { return Err(e) },
    };
    let properties_offset =
    #[verifier::truncate]
    (properties_i32 as u64);
    let _game_time = file.read_f32_bits();
    if version > 8 {
        match file.read_u32() {
            Ok(_) => (),
            Err(e) => { return Err(e) },
        }
    }
    Ok((version, names_offset, properties_offset))
}

/// The position after skipping `k` length-prefixed strings at `p`.
pub open spec fn sp_skip_strs(b: Seq<u8>, p: int, k: int) -> Result<int, ArkError>
    decreases k,
{
    if k <= 0 {
        Ok(p)
    } else {
        match str_skip_at(b, p) {
            Err(e) => Err(e),
            Ok(p2) => sp_skip_strs(b, p2, k - 1),
        }
    }
}

/// Skip `k` strings.
#[verifier::loop_isolation(false)]
fn skip_strs(file: &mut ArrayReader, k: u32) -> (r: Result<(), ArkError>)
    requires
        old(file).wf(),
    ensures
        final(file).wf(),
        final(file).bytes() == old(file).bytes(),
        match r {
            Ok(()) => sp_skip_strs(old(file).bytes(), old(file).pos(), k as int) == Ok::<
                int,
                ArkError,
            >(final(file).pos()),
            Err(e) => sp_skip_strs(old(file).bytes(), old(file).pos(), k as int) == Err::<int, _>(
                e,
            ),
        },
{
    let ghost b = file.bytes();
    let ghost p0 = file.pos();
    let mut i: u32 = 0;
    while i < k
        invariant
            file.wf(),
            file.bytes() == b,
            0 <= i <= k,
            sp_skip_strs(b, p0, k as int) == sp_skip_strs(b, file.pos(), k - i),
        decreases k - i,
    {
        match file.skip_str() {
            Ok(()) => (),
            Err(e) => { return Err(e) },
        }
        i = i + 1;
    }
    Ok(())
}

/// What the binary-data-names block yields: its first string is the map
/// identifier; the rest are skipped. A block holding no names at all yields
/// the empty map identifier, and only the count is consumed.
pub open spec fn sp_skip_bdn(b: Seq<u8>, p: int) -> Result<(Seq<char>, int), ArkError> {
    if p + 4 > b.len() {
        Err(ArkError::UnexpectedEof)
    } else {
        let count = i32_at(b, p) as int;
        if count < 1 {
            Ok((Seq::empty(), p + 4))
        } else {
            match str_read_at(b, p + 4) {
                Err(e) => Err(e),
                Ok((map, p2)) => match sp_skip_strs(b, p2, count - 1) {
                    Err(e) => Err(e),
                    Ok(p3) => Ok((map, p3)),
                },
            }
        }
    }
}

/// Skip the binary-data-names block, keeping the map identifier.
fn skip_binary_data_names(file: &mut ArrayReader) -> (r: Result<String, ArkError>)
    requires
        old(file).wf(),
    ensures
        final(file).wf(),
        final(file).bytes() == old(file).bytes(),
        match r {
            Ok(map) => sp_skip_bdn(old(file).bytes(), old(file).pos()) == Ok::<_, ArkError>((
                map@,
                final(file).pos(),
            )),
            Err(e) => sp_skip_bdn(old(file).bytes(), old(file).pos()) == Err::<(Seq<char>, int), _>(
                e,
            ),
        },
{
    let count = match file.read_i32() {
        Ok(v) => v,
        Err(e) => { return Err(e) },
    };
    if count < 1 {
        return Ok(String::new());
    }
    let map = match file.read_str() {
        Ok(s) => s,
        Err(e) => { return Err(e) },
    };
    let rest: u32 = (count - 1) as u32;
    match skip_strs(file, rest) {
        Ok(()) => Ok(map),
        Err(e) => Err(e),
    }
}

/// The position after the blob list of one embedded-binary-data part.
pub open spec fn sp_skip_blobs(b: Seq<u8>, p: int, k: int) -> Result<int, ArkError>
    decreases k,
{
    if k <= 0 {
        Ok(p)
    } else if p + 4 > b.len() {
        Err(ArkError::UnexpectedEof)
    } else {
        let words = sp_count(i32_at(b, p));
        sp_skip_blobs(b, cap_pos(b, p + 4 + 4 * words), k - 1)
    }
}

/// Skip `k` blobs, each a word count followed by that many 4-byte words.
#[verifier::loop_isolation(false)]
fn skip_blobs(file: &mut ArrayReader, k: u32) -> (r: Result<(), ArkError>)
    requires
        old(file).wf(),
    ensures
        final(file).wf(),
        final(file).bytes() == old(file).bytes(),
        match r {
            Ok(()) => sp_skip_blobs(old(file).bytes(), old(file).pos(), k as int) == Ok::<
                int,
                ArkError,
            >(final(file).pos()),
            Err(e) => sp_skip_blobs(old(file).bytes(), old(file).pos(), k as int) == Err::<int, _>(
                e,
            ),
        },
{
    let ghost b = file.bytes();
    let ghost p0 = file.pos();
    let mut i: u32 = 0;
    while i < k
        invariant
            file.wf(),
            file.bytes() == b,
            0 <= i <= k,
            sp_skip_blobs(b, p0, k as int) == sp_skip_blobs(b, file.pos(), k - i),
        decreases k - i,
    {
        let ghost p = file.pos();
        let words = match file.read_i32() {
            Ok(v) => v,
            Err(e) => { return Err(e) },
        };
        let w: usize = if words < 0 {
            0
        } else {
            words as usize
        };
        file.skip(w);
        file.skip(w);
        file.skip(w);
        file.skip(w);
        proof {
            assert(file.pos() == cap_pos(b, p + 4 + 4 * (w as int)));
        }
        i = i + 1;
    }
    Ok(())
}

/// The position after the part list of one embedded-binary-data entry.
pub open spec fn sp_skip_parts(b: Seq<u8>, p: int, k: int) -> Result<int, ArkError>
    decreases k,
{
    if k <= 0 {
        Ok(p)
    } else if p + 4 > b.len() {
        Err(ArkError::UnexpectedEof)
    } else {
        match sp_skip_blobs(b, p + 4, sp_count(i32_at(b, p))) {
            Err(e) => Err(e),
            Ok(p2) => sp_skip_parts(b, p2, k - 1),
        }
    }
}

/// Skip `k` parts, each a blob count followed by its blobs.
#[verifier::loop_isolation(false)]
fn skip_parts(file: &mut ArrayReader, k: u32) -> (r: Result<(), ArkError>)
    requires
        old(file).wf(),
    ensures
        final(file).wf(),
        final(file).bytes() == old(file).bytes(),
        match r {
            Ok(()) => sp_skip_parts(old(file).bytes(), old(file).pos(), k as int) == Ok::<
                int,
                ArkError,
            >(final(file).pos()),
            Err(e) => sp_skip_parts(old(file).bytes(), old(file).pos(), k as int) == Err::<int, _>(
                e,
            ),
        },
{
    let ghost b = file.bytes();
    let ghost p0 = file.pos();
    let mut i: u32 = 0;
    while i < k
        invariant
            file.wf(),
            file.bytes() == b,
            0 <= i <= k,
            sp_skip_parts(b, p0, k as int) == sp_skip_parts(b, file.pos(), k - i),
        decreases k - i,
    {
        let blobs = match file.read_i32() {
            Ok(v) => v,
            Err(e) => { return Err(e) },
        };
        let bn: u32 = if blobs < 0 {
            0
        } else {
            blobs as u32
        };
        match skip_blobs(file, bn) {
            Ok(()) => (),
            Err(e) => { return Err(e) },
        }
        i = i + 1;
    }
    Ok(())
}

/// The position after the embedded-binary-data block at `p`.
pub open spec fn sp_skip_ebd_entries(b: Seq<u8>, p: int, k: int) -> Result<int, ArkError>
    decreases k,
{
    if k <= 0 {
        Ok(p)
    } else {
        match str_skip_at(b, p) {
            Err(e) => Err(e),
            Ok(p2) => if p2 + 4 > b.len() {
                Err(ArkError::UnexpectedEof)
            } else {
                match sp_skip_parts(b, p2 + 4, sp_count(i32_at(b, p2))) {
                    Err(e) => Err(e),
                    Ok(p3) => sp_skip_ebd_entries(b, p3, k - 1),
                }
            },
        }
    }
}

/// The position after the whole embedded-binary-data block.
pub open spec fn sp_skip_ebd(b: Seq<u8>, p: int) -> Result<int, ArkError> {
    if p + 4 > b.len() {
        Err(ArkError::UnexpectedEof)
    } else {
        sp_skip_ebd_entries(b, p + 4, sp_count(i32_at(b, p)))
    }
}

/// Skip the embedded-binary-data block: each entry is a path string, then
/// parts of blobs of 4-byte words.
#[verifier::loop_isolation(false)]
fn skip_embedded_binary_data(file: &mut ArrayReader) -> (r: Result<(), ArkError>)
    requires
        old(file).wf(),
    ensures
        final(file).wf(),
        final(file).bytes() == old(file).bytes(),
        match r {
            Ok(()) => sp_skip_ebd(old(file).bytes(), old(file).pos()) == Ok::<int, ArkError>(
                final(file).pos(),
            ),
            Err(e) => sp_skip_ebd(old(file).bytes(), old(file).pos()) == Err::<int, _>(e),
        },
{
    let ghost b = file.bytes();
    let data_count = match file.read_i32() {
        Ok(v) => v,
        Err(e) => { return Err(e) },
    };
    let n: u32 = if data_count < 0 {
        0
    } else {
        data_count as u32
    };
    let ghost q0 = file.pos();
    let mut i: u32 = 0;
    while i < n
        invariant
            file.wf(),
            file.bytes() == b,
            0 <= i <= n,
            sp_skip_ebd_entries(b, q0, n as int) == sp_skip_ebd_entries(b, file.pos(), n - i),
        decreases n - i,
    {
        match file.skip_str() {
            Ok(()) => (),
            Err(e) => { return Err(e) },
        }
        let parts = match file.read_i32() {
            Ok(v) => v,
            Err(e) => { return Err(e) },
        };
        let pn: u32 = if parts < 0 {
            0
        } else {
            parts as u32
        };
        match skip_parts(file, pn) {
            Ok(()) => (),
            Err(e) => { return Err(e) },
        }
        i = i + 1;
    }
    Ok(())
}

/// The position after one data-files object-map entry at `p`: four skipped
/// bytes, a count, then that many skipped strings.
pub open spec fn sp_skip_dfom_entries(b: Seq<u8>, p: int, k: int) -> Result<int, ArkError>
    decreases k,
{
    if k <= 0 {
        Ok(p)
    } else {
        let q = cap_pos(b, p + 4);
        if q + 4 > b.len() {
            Err(ArkError::UnexpectedEof)
        } else {
            match sp_skip_strs(b, q + 4, u32_at(b, q) as int) {
                Err(e) => Err(e),
                Ok(p2) => sp_skip_dfom_entries(b, p2, k - 1),
            }
        }
    }
}

/// The position after the whole data-files object-map block.
pub open spec fn sp_skip_dfom(b: Seq<u8>, p: int) -> Result<int, ArkError> {
    if p + 4 > b.len() {
        Err(ArkError::UnexpectedEof)
    } else {
        sp_skip_dfom_entries(b, p + 4, sp_count(i32_at(b, p)))
    }
}

/// Skip the data-files object-map block.
#[verifier::loop_isolation(false)]
fn skip_data_files_object_map(file: &mut ArrayReader) -> (r: Result<(), ArkError>)
    requires
        old(file).wf(),
    ensures
        final(file).wf(),
        final(file).bytes() == old(file).bytes(),
        match r {
            Ok(()) => sp_skip_dfom(old(file).bytes(), old(file).pos()) == Ok::<int, ArkError>(
                final(file).pos(),
            ),
            Err(e) => sp_skip_dfom(old(file).bytes(), old(file).pos()) == Err::<int, _>(e),
        },
{
    let ghost b = file.bytes();
    let entries = match file.read_i32() {
        Ok(v) => v,
        Err(e) => { return Err(e) },
    };
    let n: u32 = if entries < 0 {
        0
    } else {
        entries as u32
    };
    let ghost q0 = file.pos();
    let mut i: u32 = 0;
    while i < n
        invariant
            file.wf(),
            file.bytes() == b,
            0 <= i <= n,
            sp_skip_dfom_entries(b, q0, n as int) == sp_skip_dfom_entries(b, file.pos(), n - i),
        decreases n - i,
    {
        file.skip(4);
        let count = match file.read_u32() {
            Ok(v) => v,
            Err(e) => { return Err(e) },
        };
        match skip_strs(file, count) {
            Ok(()) => (),
            Err(e) => { return Err(e) },
        }
        i = i + 1;
    }
    Ok(())
}

/// One step of the cryopod descent: inside a nested property map, move to
/// the first record under `id`; any other value passes through unchanged.
pub open spec fn sp_hop(v: SpecValue, id: usize) -> Result<SpecValue, ArkError> {
    match v {
        SpecValue::Properties(gs) => match crate::properties::sp_get_first_value(gs, id) {
            Some(v2) => Ok(v2),
            None => Err(ArkError::MalformedCryopodBlob),
        },
        _ => Ok(v),
    }
}

/// What one object contributes to cryopod expansion: a cryopod item carrying
/// `CustomItemDatas` has the path `CustomDataBytes → ByteArrays → Bytes`
/// descended; the byte array found there decodes as a mini-save whose object
/// entries name their property blocks by absolute offsets. Anything else
/// contributes nothing.
pub open spec fn sp_expand_one(o: SpecObject, names: Names) -> Result<Seq<SpecObject>, ArkError> {
    let nt = names.table();
    let cid = spec_lookup0(nt, "CustomItemDatas"@) as usize;
    if o.name.id as int == spec_lookup0(nt, "PrimalItem_WeaponEmptyCryopod_C"@) && sp_find_group(
        o.properties,
        cid,
    ) is Some {
        match crate::properties::sp_get_first_value(o.properties, cid) {
            None => Err(ArkError::MalformedCryopodBlob),
            Some(v0) => match sp_hop(v0, spec_lookup0(nt, "CustomDataBytes"@) as usize) {
                Err(e) => Err(e),
                Ok(v1) => match sp_hop(v1, spec_lookup0(nt, "ByteArrays"@) as usize) {
                    Err(e) => Err(e),
                    Ok(v2) => match sp_hop(v2, spec_lookup0(nt, "Bytes"@) as usize) {
                        Err(e) => Err(e),
                        Ok(v3) => match v3 {
                            SpecValue::ArrayOfU8(data) => match sp_read_objects(
                                data,
                                names,
                                0,
                                0,
                            ) {
                                Err(_) => Err(ArkError::MalformedCryopodBlob),
                                Ok((objs, _)) => Ok(objs),
                            },
                            _ => Ok(Seq::empty()),
                        },
                    },
                },
            },
        }
    } else {
        Ok(Seq::empty())
    }
}

/// All cryopod expansions of the objects from index `i` on, in order.
pub open spec fn sp_expansions(objs: Seq<SpecObject>, names: Names, i: int) -> Result<
    Seq<SpecObject>,
    ArkError,
>
    decreases objs.len() - i,
{
    if i < 0 || i >= objs.len() {
        Ok(Seq::empty())
    } else {
        match sp_expand_one(objs[i], names) {
            Err(e) => Err(e),
            Ok(add) => match sp_expansions(objs, names, i + 1) {
                Err(e) => Err(e),
                Ok(rest) => Ok(add + rest),
            },
        }
    }
}

/// Law: expansion only appends — the objects already decoded keep their
/// indices, and everything a cryopod yields lands after them.
pub proof fn lemma_expansion_appends(objs: Seq<SpecObject>, extra: Seq<SpecObject>)
    ensures
        (objs + extra).len() == objs.len() + extra.len(),
        forall|i: int| 0 <= i < objs.len() ==> (objs + extra)[i] == objs[i],
        forall|i: int|
            objs.len() <= i < objs.len() + extra.len() ==> (objs + extra)[i] == extra[i - objs.len()],
{
}

/// The objects frozen inside one cryopod-classed mini-save.
pub struct CryopodParser {
    pub objects: Vec<Object>,
}

impl CryopodParser {
    /// Decode a mini-save: the same directory layout as the outer save, but
    /// property offsets are absolute within the blob, and the outer name
    /// table is shared.
    pub fn read(data: &[u8], names: &Names) -> (r: Result<CryopodParser, ArkError>)
        ensures
            match r {
                Ok(p) => sp_read_objects(data@, *names, 0, 0) matches Ok((objs, _))
                    && objects_view(p.objects@) == objs,
                Err(e) => sp_read_objects(data@, *names, 0, 0) == Err::<(Seq<SpecObject>, int), _>(
                    e,
                ),
            },
    {
        let mut file = ArrayReader::new(data);
        match read_objects(&mut file, names, 0) {
            Ok(objects) => Ok(CryopodParser { objects }),
            Err(e) => Err(e),
        }
    }
}

/// Descend one hop of the cryopod path.
fn hop<'a>(v: &'a Value, id: usize) -> (r: Result<&'a Value, ArkError>)
    ensures
        match r {
            Ok(v2) => sp_hop(v@, id) == Ok::<SpecValue, ArkError>(v2@),
            Err(e) => sp_hop(v@, id) == Err::<SpecValue, _>(e),
        },
{
    match v {
        Value::Properties(p) => match p.first_value(id) {
            Some(v2) => Ok(v2),
            None => Err(ArkError::MalformedCryopodBlob),
        },
        _ => Ok(v),
    }
}

/// Expand every cryopod item found among `objects` into the creatures its
/// embedded mini-save holds, in discovery order.
#[verifier::loop_isolation(false)]
pub fn uncryopod_dinos(objects: &Vec<Object>, names: &Names) -> (r: Result<Vec<Object>, ArkError>)
    ensures
        match r {
            Ok(v) => sp_expansions(objects_view(objects@), *names, 0) == Ok::<_, ArkError>(
                objects_view(v@),
            ),
            Err(e) => sp_expansions(objects_view(objects@), *names, 0) == Err::<Seq<SpecObject>, _>(
                e,
            ),
        },
{
    let ghost all = objects_view(objects@);
    proof {
        crate::objects::lemma_objects_view(objects@);
    }
    let cryopod = names.get_name_id_or_zero("PrimalItem_WeaponEmptyCryopod_C");
    let custom_item_datas = names.get_name_id_or_zero("CustomItemDatas");
    let custom_data_bytes = names.get_name_id_or_zero("CustomDataBytes");
    let byte_arrays = names.get_name_id_or_zero("ByteArrays");
    let bytes_id = names.get_name_id_or_zero("Bytes");
    let mut frozen: Vec<Object> = Vec::new();
    let mut i: usize = 0;
    while i < objects.len()
        invariant
            0 <= i <= objects@.len(),
            match sp_expansions(all, *names, i as int) {
                Ok(rest) => sp_expansions(all, *names, 0) == Ok::<_, ArkError>(
                    objects_view(frozen@) + rest,
                ),
                Err(e) => sp_expansions(all, *names, 0) == Err::<Seq<SpecObject>, _>(e),
            },
        decreases objects@.len() - i,
    {
        let o = &objects[i];
        let ghost pre = frozen@;
        let mut added: Vec<Object> = Vec::new();
        if o.name.id == cryopod && o.properties.contains_id(custom_item_datas) {
            let v0 = match o.properties.first_value(custom_item_datas) {
                Some(v) => v,
                None => { return Err(ArkError::MalformedCryopodBlob) },
            };
            let v1 = match hop(v0, custom_data_bytes) {
                Ok(v) => v,
                Err(e) => { return Err(e) },
            };
            let v2 = match hop(v1, byte_arrays) {
                Ok(v) => v,
                Err(e) => { return Err(e) },
            };
            let v3 = match hop(v2, bytes_id) {
                Ok(v) => v,
                Err(e) => { return Err(e) },
            };
            match v3 {
                Value::ArrayOfU8(data) => {
                    match CryopodParser::read(data.as_slice(), names) {
                        Ok(parser) => {
                            let mut objs = parser.objects;
                            added.append(&mut objs);
                        },
                        Err(_) => { return Err(ArkError::MalformedCryopodBlob) },
                    }
                },
                _ => (),
            }
        }
        let ghost added_seq = added@;
        let ghost addedv = objects_view(added_seq);
        proof {
            assert(sp_expand_one(all[i as int], *names) == Ok::<Seq<SpecObject>, ArkError>(addedv));
        }
        frozen.append(&mut added);
        proof {
            crate::objects::lemma_objects_view(pre);
            crate::objects::lemma_objects_view(added_seq);
            crate::objects::lemma_objects_view(frozen@);
            assert(objects_view(frozen@) =~= objects_view(pre) + addedv);
            match sp_expansions(all, *names, i + 1) {
                Ok(rest2) => {
                    assert(objects_view(frozen@) + rest2 =~= objects_view(pre) + (addedv + rest2));
                },
                Err(_) => {},
            }
        }
        i = i + 1;
    }
    proof {
        assert(objects_view(frozen@) + Seq::<SpecObject>::empty() =~= objects_view(frozen@));
    }
    Ok(frozen)
}

/// What the fixed front of the file yields: the name-table offset, the
/// property-region base, the map identifier, and the position where the
/// object directory starts (after the three skipped blocks).
pub open spec fn sp_layout(b: Seq<u8>) -> Result<(u32, u64, Seq<char>, int), ArkError> {
    match sp_read_header(b) {
        Err(e) => Err(e),
        Ok((h, p1)) => match sp_skip_bdn(b, p1) {
            Err(e) => Err(e),
            Ok((map, p2)) => match sp_skip_ebd(b, p2) {
                Err(e) => Err(e),
                Ok(p3) => match sp_skip_dfom(b, p3) {
                    Err(e) => Err(e),
                    Ok(p4) => Ok((h.1, h.2, map, p4)),
                },
            },
        },
    }
}

/// A read-only projection over one object in the flat array: a shared handle
/// to the array, the index it describes, and the resolved component indices.
pub struct Entry {
    pub object_type: Type,
    pub objects: Rc<Vec<Object>>,
    pub object: usize,
    pub inventory: Option<usize>,
    pub status: Option<usize>,
}

impl Entry {
    /// The shapes of the objects in the shared flat array.
    pub open spec fn objs(self) -> Seq<SpecObject> {
        objects_view(self.objects@)
    }

    /// The shape of the object this entry describes.
    pub open spec fn spec_object(self) -> SpecObject {
        self.objs()[self.object as int]
    }

    /// Every index this entry carries points inside the flat array.
    pub open spec fn wf(self) -> bool {
        &&& (self.object as int) < self.objects@.len()
        &&& match self.status {
            Some(j) => (j as int) < self.objects@.len(),
            None => true,
        }
        &&& match self.inventory {
            Some(j) => (j as int) < self.objects@.len(),
            None => true,
        }
    }

    /// The described object's name reference.
    pub fn name(&self) -> (r: &Name)
        requires
            self.wf(),
        ensures
            *r == self.spec_object().name,
    {
        proof {
            crate::objects::lemma_objects_view(self.objects@);
        }
        &self.objects[self.object].name
    }

    /// The described object's properties.
    pub fn properties(&self) -> (r: &Properties)
        requires
            self.wf(),
        ensures
            r@ == self.spec_object().properties,
    {
        proof {
            crate::objects::lemma_objects_view(self.objects@);
        }
        &self.objects[self.object].properties
    }

    /// The described object's location, if it carries one.
    pub fn location(&self) -> (r: Option<&Location>)
        requires
            self.wf(),
        ensures
            match r {
                Some(l) => self.spec_object().location == Some(*l),
                None => self.spec_object().location is None,
            },
    {
        proof {
            crate::objects::lemma_objects_view(self.objects@);
        }
        match &self.objects[self.object].location {
            Some(l) => Some(l),
            None => None,
        }
    }

    /// The sibling object the status reference points at, if any.
    pub fn status_component(&self) -> (r: Option<&Object>)
        requires
            self.wf(),
        ensures
            match r {
                Some(o) => self.status matches Some(j) && o@ == self.objs()[j as int],
                None => self.status is None,
            },
    {
        proof {
            crate::objects::lemma_objects_view(self.objects@);
        }
        match self.status {
            Some(index) => Some(&self.objects[index]),
            None => None,
        }
    }

    /// The sibling object the inventory reference points at, if any.
    pub fn inventory_component(&self) -> (r: Option<&Object>)
        requires
            self.wf(),
        ensures
            match r {
                Some(o) => self.inventory matches Some(j) && o@ == self.objs()[j as int],
                None => self.inventory is None,
            },
    {
        proof {
            crate::objects::lemma_objects_view(self.objects@);
        }
        match self.inventory {
            Some(index) => Some(&self.objects[index]),
            None => None,
        }
    }
}

/// The interned name table of a loaded save.
pub open spec fn sp_table(p: &ArkParser) -> Seq<Seq<char>> {
    (*p.names).table()
}

/// A component index clamped to the flat array: an index that points outside
/// it resolves to no component at all.
pub open spec fn sp_bounded_ref(r: Option<usize>, n: int) -> Option<usize> {
    match r {
        Some(j) => if (j as int) < n {
            Some(j)
        } else {
            None
        },
        None => None,
    }
}

/// The loaded save: the shared name table, the flat object array (file-level
/// objects first, cryopod expansions appended), and one entry per object.
pub struct ArkParser {
    pub names: Rc<Names>,
    pub objects: Rc<Vec<Object>>,
    pub entries: Vec<Entry>,
    pub map: String,
}

impl ArkParser {
    /// The parser's entries relate to the given object shapes: one entry per
    /// object, in order, carrying its type and its bounded component indices.
    pub open spec fn entries_match(self, objs: Seq<SpecObject>) -> bool {
        &&& objects_view(self.objects@) == objs
        &&& self.entries@.len() == objs.len()
        &&& forall|i: int|
            0 <= i < objs.len() ==> {
                let e = #[trigger] self.entries@[i];
                &&& e.objects@ == self.objects@
                &&& e.object as int == i
                &&& e.wf()
                &&& e.object_type == objs[i].object_type
                &&& e.status == sp_bounded_ref(objs[i].status_component, objs.len() as int)
                &&& e.inventory == sp_bounded_ref(objs[i].inventory_component, objs.len() as int)
            }
    }

    /// A parser that faithfully decodes `b`: the name table comes from the
    /// header's offset, the map identifier from the first binary-data name,
    /// and the entries from the object directory plus cryopod expansion.
    pub open spec fn sp_parser_ok(self, b: Seq<u8>) -> bool {
        match sp_layout(b) {
            Ok((noff, poff, map, p4)) => {
                &&& names_list_at(b, noff as int) == Ok::<_, ArkError>((*self.names).table())
                &&& (*self.names).wf()
                &&& self.map@ == map
                &&& match sp_read_objects(b, *self.names, poff as int, p4) {
                    Ok((objs, _pe)) => match sp_expansions(objs, *self.names, 0) {
                        Ok(extra) => self.entries_match(objs + extra),
                        Err(_) => false,
                    },
                    Err(_) => false,
                }
            },
            Err(_) => false,
        }
    }

    /// Parse a whole save held in memory.
    pub fn read(data: &[u8]) -> (r: Result<ArkParser, ArkError>)
        ensures
            match r {
                Ok(p) => p.sp_parser_ok(data@),
                Err(e) => sp_parse_err(data@, e),
            },
    {
        let mut file = ArrayReader::new(data);
        let header = match read_header(&mut file) {
            Ok(h) => h,
            Err(e) => { return Err(e) },
        };
        let names_offset = header.1;
        let properties_offset = header.2;
        let map = match skip_binary_data_names(&mut file) {
            Ok(m) => m,
            Err(e) => { return Err(e) },
        };
        match skip_embedded_binary_data(&mut file) {
            Ok(()) => (),
            Err(e) => { return Err(e) },
        }
        match skip_data_files_object_map(&mut file) {
            Ok(()) => (),
            Err(e) => { return Err(e) },
        }
        let names = match Names::new(&mut file, names_offset as usize) {
            Ok(nm) => nm,
            Err(e) => { return Err(e) },
        };
        let mut objects = match read_objects(&mut file, &names, properties_offset) {
            Ok(v) => v,
            Err(e) => {
                proof {
                    assert(names.wf() && names.table() == names_list_at(
                        data@,
                        names_offset as int,
                    )->Ok_0);
                }
                return Err(e);
            },
        };
        let mut frozen = match uncryopod_dinos(&objects, &names) {
            Ok(v) => v,
            Err(e) => { return Err(e) },
        };
        let ghost objs_pre = objects@;
        let ghost frozen_pre = frozen@;
        let ghost file_objs = objects_view(objs_pre);
        let ghost extra_objs = objects_view(frozen_pre);
        objects.append(&mut frozen);
        proof {
            crate::objects::lemma_objects_view(objs_pre);
            crate::objects::lemma_objects_view(frozen_pre);
            crate::objects::lemma_objects_view(objects@);
            assert(objects_view(objects@) =~= file_objs + extra_objs);
        }
        let ghost all = objects_view(objects@);
        let n = objects.len();
        proof {
            crate::objects::lemma_objects_view(objects@);
        }
        let mut metas: Vec<(Type, Option<usize>, Option<usize>)> = Vec::new();
        let mut i: usize = 0;
        while i < n
            invariant
                n == objects@.len(),
                all == objects_view(objects@),
                all.len() == n,
                forall|k: int| 0 <= k < n ==> objects_view(objects@)[k] == objects@[k]@,
                0 <= i <= n,
                metas@.len() == i,
                forall|k: int|
                    0 <= k < i ==> (#[trigger] metas@[k]) == (
                        all[k].object_type,
                        sp_bounded_ref(all[k].status_component, n as int),
                        sp_bounded_ref(all[k].inventory_component, n as int),
                    ),
            decreases n - i,
        {
            let o = &objects[i];
            let st = match o.status_component {
                Some(j) => if j < n {
                    Some(j)
                } else {
                    None
                },
                None => None,
            };
            let inv = match o.inventory_component {
                Some(j) => if j < n {
                    Some(j)
                } else {
                    None
                },
                None => None,
            };
            metas.push((o.object_type, st, inv));
            i = i + 1;
        }
        let objects_rc = Rc::new(objects);
        let mut entries: Vec<Entry> = Vec::new();
        let mut k: usize = 0;
        while k < n
            invariant
                n == objects_rc@.len(),
                all == objects_view(objects_rc@),
                all.len() == n,
                metas@.len() == n,
                forall|j: int|
                    0 <= j < n ==> (#[trigger] metas@[j]) == (
                        all[j].object_type,
                        sp_bounded_ref(all[j].status_component, n as int),
                        sp_bounded_ref(all[j].inventory_component, n as int),
                    ),
                0 <= k <= n,
                entries@.len() == k,
                forall|j: int|
                    0 <= j < k ==> {
                        let e = #[trigger] entries@[j];
                        &&& e.objects@ == objects_rc@
                        &&& e.object as int == j
                        &&& e.wf()
                        &&& e.object_type == all[j].object_type
                        &&& e.status == sp_bounded_ref(all[j].status_component, n as int)
                        &&& e.inventory == sp_bounded_ref(all[j].inventory_component, n as int)
                    },
            decreases n - k,
        {
            let m = &metas[k];
            entries.push(
                Entry {
                    object_type: m.0,
                    objects: objects_rc.clone(),
                    object: k,
                    inventory: m.2,
                    status: m.1,
                },
            );
            k = k + 1;
        }
        Ok(ArkParser { names: Rc::new(names), objects: objects_rc, entries, map })
    }

    /// The string interned at `id`.
    pub fn get_name(&self, id: usize) -> (r: &String)
        requires
            id < (*self.names).table().len(),
        ensures
            r@ == (*self.names).table()[id as int],
    {
        self.names.get_name(id)
    }

    /// The id of `name`, if the table holds it past the placeholder.
    pub fn get_name_id(&self, name: &str) -> (r: Option<usize>)
        ensures
            match r {
                Some(i) => crate::names::spec_lookup((*self.names).table(), name@) == Some(i as int),
                None => crate::names::spec_lookup((*self.names).table(), name@) is None,
            },
    {
        self.names.get_name_id(name)
    }

    /// One entry per object of the flat array, in file order.
    pub fn entries(&self) -> (r: &Vec<Entry>)
        ensures
            r == &self.entries,
    {
        &self.entries
    }
}

/// How a failed parse relates to the bytes: the error is the one the layout,
/// the name table, or — for some name table matching the bytes — the object
/// directory or the cryopod expansion reports.
pub open spec fn sp_parse_err(b: Seq<u8>, e: ArkError) -> bool {
    match sp_layout(b) {
        Err(el) => e == el,
        Ok((noff, poff, _map, p4)) => match names_list_at(b, noff as int) {
            Err(en) => e == en,
            Ok(nt) => exists|nm: Names|
                (#[trigger] nm.wf()) && nm.table() == nt && match sp_read_objects(
                    b,
                    nm,
                    poff as int,
                    p4,
                ) {
                    Err(eo) => e == eo,
                    Ok((objs, _)) => sp_expansions(objs, nm, 0) == Err::<Seq<SpecObject>, ArkError>(
                        e,
                    ),
                },
        },
    }
}

/// Law: cryopod expansion depends on the name table alone.
pub proof fn lemma_expand_one_congruent(o: SpecObject, n1: Names, n2: Names)
    requires
        crate::names::names_equiv(n1, n2),
    ensures
        sp_expand_one(o, n1) == sp_expand_one(o, n2),
{
    let nt = n1.table();
    let cid = spec_lookup0(nt, "CustomItemDatas"@) as usize;
    if o.name.id as int == spec_lookup0(nt, "PrimalItem_WeaponEmptyCryopod_C"@) && sp_find_group(
        o.properties,
        cid,
    ) is Some {
        match crate::properties::sp_get_first_value(o.properties, cid) {
            None => {},
            Some(v0) => match sp_hop(v0, spec_lookup0(nt, "CustomDataBytes"@) as usize) {
                Err(_) => {},
                Ok(v1) => match sp_hop(v1, spec_lookup0(nt, "ByteArrays"@) as usize) {
                    Err(_) => {},
                    Ok(v2) => match sp_hop(v2, spec_lookup0(nt, "Bytes"@) as usize) {
                        Err(_) => {},
                        Ok(v3) => match v3 {
                            SpecValue::ArrayOfU8(data) => {
                                crate::objects::lemma_read_objects_congruent(data, n1, n2, 0, 0);
                            },
                            _ => {},
                        },
                    },
                },
            },
        }
    }
}

/// Law: the whole expansion pass depends on the name table alone.
pub proof fn lemma_expansions_congruent(objs: Seq<SpecObject>, n1: Names, n2: Names, i: int)
    requires
        crate::names::names_equiv(n1, n2),
    ensures
        sp_expansions(objs, n1, i) == sp_expansions(objs, n2, i),
    decreases objs.len() - i,
{
    if 0 <= i < objs.len() {
        lemma_expand_one_congruent(objs[i], n1, n2);
        lemma_expansions_congruent(objs, n1, n2, i + 1);
    }
}

/// Law: parsing is deterministic. Two loaded saves built from the same bytes
/// agree on the name table, the map identifier, the shapes of the flat
/// object array, and every entry's type and component indices.
pub proof fn lemma_parse_deterministic(b: Seq<u8>, p1: ArkParser, p2: ArkParser)
    requires
        p1.sp_parser_ok(b),
        p2.sp_parser_ok(b),
    ensures
        (*p1.names).table() == (*p2.names).table(),
        p1.map@ == p2.map@,
        objects_view(p1.objects@) == objects_view(p2.objects@),
        p1.entries@.len() == p2.entries@.len(),
        forall|i: int|
            0 <= i < p1.entries@.len() ==> (#[trigger] p1.entries@[i]).object_type
                == p2.entries@[i].object_type && p1.entries@[i].object == p2.entries@[i].object
                && p1.entries@[i].status == p2.entries@[i].status && p1.entries@[i].inventory
                == p2.entries@[i].inventory,
{
    match sp_layout(b) {
        Ok((noff, poff, map, p4)) => {
            let n1 = *p1.names;
            let n2 = *p2.names;
            assert(crate::names::names_equiv(n1, n2));
            crate::objects::lemma_read_objects_congruent(b, n1, n2, poff as int, p4);
            match sp_read_objects(b, n1, poff as int, p4) {
                Ok((objs, _)) => {
                    lemma_expansions_congruent(objs, n1, n2, 0);
                },
                Err(_) => {},
            }
        },
        Err(_) => {},
    }
}

} // verus!
