//! The tagged property-stream decoder.
//!
//! A property stream is a run of records, each `name id, instance, type id,
//! four reserved bytes, payload size, sparse index, payload`, ended by a
//! record whose name resolves to `None`. Payloads may nest whole property
//! streams (structs and struct arrays), so reading is recursive.
//!
//! Every reading function is mirrored by a spec function over the raw bytes;
//! the `ensures` of each reader states that it returns exactly what its spec
//! function denotes, at exactly the position the spec function names.

use vstd::prelude::*;
use vstd::utf8::{decode_utf8, valid_utf8};

use crate::error::ArkError;
use crate::names::{name_at, Name, Names};
use crate::properties::{
    group_view, groups_view, lemma_groups_view, lemma_props_view, lemma_values_view, props_view,
    property_view, sp_group_add, strings_view, value_view, values_view, Properties, Property,
    SpecGroup, SpecProperty, SpecValue, Value,
};
use crate::reader::{
    bool_at, cap_pos, i16_at, i32_at, i64_at, str_read_at, u128_at, u16_at, u32_at, u64_at,
    ArrayReader,
};
use crate::strings::{base64_decode, base64_decode_of, str_eq, utf8_string};

verus! {

/// A count prefix: negative counts denote no elements.
pub open spec fn sp_count(c: i32) -> int {
    if c < 0 {
        0
    } else {
        c as int
    }
}

/// Records folded into groups: each record joins the group of its name id,
/// in order; a fresh id opens a group tagged with the id's interned string.
pub open spec fn sp_fold_groups(gs: Seq<SpecGroup>, recs: Seq<SpecProperty>, names: Names) -> Seq<
    SpecGroup,
>
    decreases recs.len(),
{
    if recs.len() == 0 {
        gs
    } else {
        sp_fold_groups(
            sp_group_add(gs, recs[0], names.table()[recs[0].name.id as int]),
            recs.drop_first(),
            names,
        )
    }
}

/// The `count` `u8` elements at `p`.
#[verifier::opaque]
pub open spec fn sp_u8_elems(b: Seq<u8>, p: int, count: int) -> Result<(Seq<u8>, int), ArkError> {
    if p + count > b.len() {
        Err(ArkError::UnexpectedEof)
    } else {
        Ok((b.subrange(p, p + count), p + count))
    }
}

/// The `count` `i8` elements at `p`.
#[verifier::opaque]
pub open spec fn sp_i8_elems(b: Seq<u8>, p: int, count: int) -> Result<(Seq<i8>, int), ArkError> {
    if p + count > b.len() {
        Err(ArkError::UnexpectedEof)
    } else {
        Ok((Seq::new(count as nat, |j: int| b[p + j] as i8), p + count))
    }
}

/// The `count` little-endian `u16` elements at `p`.
#[verifier::opaque]
pub open spec fn sp_u16_elems(b: Seq<u8>, p: int, count: int) -> Result<(Seq<u16>, int), ArkError> {
    if p + 2 * count > b.len() {
        Err(ArkError::UnexpectedEof)
    } else {
        Ok((Seq::new(count as nat, |j: int| u16_at(b, p + 2 * j)), p + 2 * count))
    }
}

/// The `count` little-endian `i16` elements at `p`.
#[verifier::opaque]
pub open spec fn sp_i16_elems(b: Seq<u8>, p: int, count: int) -> Result<(Seq<i16>, int), ArkError> {
    if p + 2 * count > b.len() {
        Err(ArkError::UnexpectedEof)
    } else {
        Ok((Seq::new(count as nat, |j: int| i16_at(b, p + 2 * j)), p + 2 * count))
    }
}

/// The `count` little-endian `u32` elements at `p` (also the bit patterns of
/// 32-bit float elements).
#[verifier::opaque]
pub open spec fn sp_u32_elems(b: Seq<u8>, p: int, count: int) -> Result<(Seq<u32>, int), ArkError> {
    if p + 4 * count > b.len() {
        Err(ArkError::UnexpectedEof)
    } else {
        Ok((Seq::new(count as nat, |j: int| u32_at(b, p + 4 * j)), p + 4 * count))
    }
}

/// The `count` little-endian `i32` elements at `p`.
#[verifier::opaque]
pub open spec fn sp_i32_elems(b: Seq<u8>, p: int, count: int) -> Result<(Seq<i32>, int), ArkError> {
    if p + 4 * count > b.len() {
        Err(ArkError::UnexpectedEof)
    } else {
        Ok((Seq::new(count as nat, |j: int| i32_at(b, p + 4 * j)), p + 4 * count))
    }
}

/// The `count` little-endian `u64` elements at `p` (also the bit patterns of
/// 64-bit float elements).
#[verifier::opaque]
pub open spec fn sp_u64_elems(b: Seq<u8>, p: int, count: int) -> Result<(Seq<u64>, int), ArkError> {
    if p + 8 * count > b.len() {
        Err(ArkError::UnexpectedEof)
    } else {
        Ok((Seq::new(count as nat, |j: int| u64_at(b, p + 8 * j)), p + 8 * count))
    }
}

/// The `count` four-byte boolean elements at `p`.
#[verifier::opaque]
pub open spec fn sp_bool_elems(b: Seq<u8>, p: int, count: int) -> Result<
    (Seq<bool>, int),
    ArkError,
> {
    if p + 4 * count > b.len() {
        Err(ArkError::UnexpectedEof)
    } else {
        Ok((Seq::new(count as nat, |j: int| bool_at(b, p + 4 * j)), p + 4 * count))
    }
}

/// The `count` packed `Color` struct elements at `p`: each 16 bytes, stored
/// `b g r a` and reordered to `RGBA(r, g, b, a)`.
#[verifier::opaque]
pub open spec fn sp_color_elems(b: Seq<u8>, p: int, count: int) -> Result<
    (Seq<SpecValue>, int),
    ArkError,
> {
    if p + 16 * count > b.len() {
        Err(ArkError::UnexpectedEof)
    } else {
        Ok(
            (
                Seq::new(
                    count as nat,
                    |j: int|
                        SpecValue::RGBA(
                            u32_at(b, p + 16 * j + 8),
                            u32_at(b, p + 16 * j + 4),
                            u32_at(b, p + 16 * j),
                            u32_at(b, p + 16 * j + 12),
                        ),
                ),
                p + 16 * count,
            ),
        )
    }
}

/// The `count` packed `Vector` struct elements at `p`: each 12 bytes.
#[verifier::opaque]
pub open spec fn sp_vector_elems(b: Seq<u8>, p: int, count: int) -> Result<
    (Seq<SpecValue>, int),
    ArkError,
> {
    if p + 12 * count > b.len() {
        Err(ArkError::UnexpectedEof)
    } else {
        Ok(
            (
                Seq::new(
                    count as nat,
                    |j: int|
                        SpecValue::Vector(
                            u32_at(b, p + 12 * j),
                            u32_at(b, p + 12 * j + 4),
                            u32_at(b, p + 12 * j + 8),
                        ),
                ),
                p + 12 * count,
            ),
        )
    }
}

/// The `count` packed `LinearColor` struct elements at `p`: each 16 bytes,
/// stored in `r g b a` order.
#[verifier::opaque]
pub open spec fn sp_linear_elems(b: Seq<u8>, p: int, count: int) -> Result<
    (Seq<SpecValue>, int),
    ArkError,
> {
    if p + 16 * count > b.len() {
        Err(ArkError::UnexpectedEof)
    } else {
        Ok(
            (
                Seq::new(
                    count as nat,
                    |j: int|
                        SpecValue::RGBA(
                            u32_at(b, p + 16 * j),
                            u32_at(b, p + 16 * j + 4),
                            u32_at(b, p + 16 * j + 8),
                            u32_at(b, p + 16 * j + 12),
                        ),
                ),
                p + 16 * count,
            ),
        )
    }
}

/// The `count` object-reference elements at `p`: each a kind tag, then an
/// integer (kind 0) or a name (kind 1).
#[verifier::opaque]
pub open spec fn sp_object_elems(b: Seq<u8>, p: int, count: int) -> Result<
    (Seq<SpecValue>, int),
    ArkError,
>
    decreases count,
{
    if count <= 0 {
        Ok((Seq::empty(), p))
    } else if p + 4 > b.len() {
        Err(ArkError::UnexpectedEof)
    } else {
        let kind = u32_at(b, p);
        if kind == 0 {
            if p + 8 > b.len() {
                Err(ArkError::UnexpectedEof)
            } else {
                match sp_object_elems(b, p + 8, count - 1) {
                    Err(e) => Err(e),
                    Ok((rest, pe)) => Ok((seq![SpecValue::Int(i32_at(b, p + 4))] + rest, pe)),
                }
            }
        } else if kind == 1 {
            if p + 12 > b.len() {
                Err(ArkError::UnexpectedEof)
            } else {
                match sp_object_elems(b, p + 12, count - 1) {
                    Err(e) => Err(e),
                    Ok((rest, pe)) => Ok((seq![SpecValue::Name(name_at(b, p + 4))] + rest, pe)),
                }
            }
        } else {
            Err(ArkError::UnknownObjectPropertyKind)
        }
    }
}

/// The `count` length-prefixed string elements at `p`.
#[verifier::opaque]
pub open spec fn sp_str_elems(b: Seq<u8>, p: int, count: int) -> Result<
    (Seq<Seq<char>>, int),
    ArkError,
>
    decreases count,
{
    if count <= 0 {
        Ok((Seq::empty(), p))
    } else {
        match str_read_at(b, p) {
            Err(e) => Err(e),
            Ok((s, p2)) => match sp_str_elems(b, p2, count - 1) {
                Err(e) => Err(e),
                Ok((rest, pe)) => Ok((seq![s] + rest, pe)),
            },
        }
    }
}

/// What a `ByteProperty` payload at `p` denotes: an enum-type name, then a
/// raw byte when that name is `None`, else an enum variant name.
pub open spec fn sp_byte_rest(b: Seq<u8>, names: Names, p: int) -> Result<
    (SpecValue, int),
    ArkError,
> {
    if p + 8 > b.len() {
        Err(ArkError::UnexpectedEof)
    } else {
        let en = name_at(b, p);
        if en.id >= names.table().len() {
            Err(ArkError::UnknownPropertyType)
        } else if names.table()[en.id as int] == "None"@ {
            if p + 9 > b.len() {
                Err(ArkError::UnexpectedEof)
            } else {
                Ok((SpecValue::Byte(b[p + 8]), p + 9))
            }
        } else {
            if p + 16 > b.len() {
                Err(ArkError::UnexpectedEof)
            } else {
                Ok((SpecValue::Enum(en, name_at(b, p + 8)), p + 16))
            }
        }
    }
}

/// What an `ObjectProperty` payload at `p` denotes, branching on its size:
/// a bare integer, or a kind tag selecting an integer or a name.
pub open spec fn sp_object_rest(b: Seq<u8>, data_size: u32, p: int) -> Result<
    (SpecValue, int),
    ArkError,
> {
    let ds = data_size as int;
    if ds == 4 {
        if p + 4 > b.len() {
            Err(ArkError::UnexpectedEof)
        } else {
            Ok((SpecValue::Int(i32_at(b, p)), p + 4))
        }
    } else if ds >= 8 {
        if p + 4 > b.len() {
            Err(ArkError::UnexpectedEof)
        } else {
            let kind = u32_at(b, p);
            if kind == 0 {
                if p + 8 > b.len() {
                    Err(ArkError::UnexpectedEof)
                } else {
                    Ok((SpecValue::Int(i32_at(b, p + 4)), p + 8))
                }
            } else if kind == 1 {
                if p + 12 > b.len() {
                    Err(ArkError::UnexpectedEof)
                } else {
                    Ok((SpecValue::Name(name_at(b, p + 4)), p + 12))
                }
            } else {
                Err(ArkError::UnknownObjectPropertyKind)
            }
        }
    } else {
        Err(ArkError::UnknownObjectPropertyKind)
    }
}

/// What a `TextProperty` payload at `p` denotes: `data_size` raw bytes,
/// base64-decoded and read as UTF-8.
pub open spec fn sp_text_rest(b: Seq<u8>, data_size: u32, p: int) -> Result<
    (SpecValue, int),
    ArkError,
> {
    let ds = data_size as int;
    if p + ds > b.len() {
        Err(ArkError::UnexpectedEof)
    } else {
        match base64_decode_of(b.subrange(p, p + ds)) {
            Some(d) => if valid_utf8(d) {
                Ok((SpecValue::Str(decode_utf8(d)), p + ds))
            } else {
                Err(ArkError::InvalidString)
            },
            None => Err(ArkError::InvalidString),
        }
    }
}

/// Is this struct kind one of the fixed-layout kinds?
pub open spec fn sp_is_fixed_struct(names: Names, kid: usize) -> bool {
    kid == names.vector_property || kid == names.rotator_property || kid
        == names.vector2d_property || kid == names.quat_property || kid == names.color_property
        || kid == names.linear_color_property
}

/// What a fixed-layout struct payload at `p` denotes, without the trailing
/// seek: vectors and rotators hold three floats, 2D vectors two, quaternions
/// and colors four — `Color` stored `b g r a` and reordered to RGBA.
#[verifier::opaque]
pub open spec fn sp_struct_fixed(b: Seq<u8>, names: Names, kid: usize, p: int) -> Result<
    SpecValue,
    ArkError,
> {
    if kid == names.vector_property || kid == names.rotator_property {
        if p + 12 > b.len() {
            Err(ArkError::UnexpectedEof)
        } else {
            Ok(SpecValue::Vector(u32_at(b, p), u32_at(b, p + 4), u32_at(b, p + 8)))
        }
    } else if kid == names.vector2d_property {
        if p + 8 > b.len() {
            Err(ArkError::UnexpectedEof)
        } else {
            Ok(SpecValue::Vector2D(u32_at(b, p), u32_at(b, p + 4)))
        }
    } else if kid == names.quat_property {
        if p + 16 > b.len() {
            Err(ArkError::UnexpectedEof)
        } else {
            Ok(
                SpecValue::Quat(
                    u32_at(b, p),
                    u32_at(b, p + 4),
                    u32_at(b, p + 8),
                    u32_at(b, p + 12),
                ),
            )
        }
    } else if kid == names.color_property {
        if p + 16 > b.len() {
            Err(ArkError::UnexpectedEof)
        } else {
            Ok(
                SpecValue::RGBA(
                    u32_at(b, p + 8),
                    u32_at(b, p + 4),
                    u32_at(b, p),
                    u32_at(b, p + 12),
                ),
            )
        }
    } else {
        if p + 16 > b.len() {
            Err(ArkError::UnexpectedEof)
        } else {
            Ok(
                SpecValue::RGBA(
                    u32_at(b, p),
                    u32_at(b, p + 4),
                    u32_at(b, p + 8),
                    u32_at(b, p + 12),
                ),
            )
        }
    }
}

/// What a `StructProperty` payload denotes once its kind name is read: `p`
/// stands just after the kind, and the payload always ends at the declared
/// size past `p`, whatever the kind consumed.
pub open spec fn sp_struct_rest(
    b: Seq<u8>,
    names: Names,
    data_size: u32,
    kind: Name,
    p: int,
) -> Result<(SpecValue, int), ArkError>
    decreases b.len() - p, 3int,
{
    let ds = data_size as int;
    let end = cap_pos(b, p + ds);
    let kid = kind.id;
    if sp_is_fixed_struct(names, kid) {
        match sp_struct_fixed(b, names, kid, p) {
            Err(e) => Err(e),
            Ok(v) => Ok((v, end)),
        }
    } else if kid == names.unique_netid_property {
        if p + 4 > b.len() {
            Err(ArkError::UnexpectedEof)
        } else {
            match str_read_at(b, p + 4) {
                Err(e) => Err(e),
                Ok((s, _p2)) => Ok((SpecValue::Str(s), end)),
            }
        }
    } else {
        match sp_prop_list(b, names, p) {
            Err(e) => Err(e),
            Ok((recs, _pe)) => Ok(
                (SpecValue::Properties(sp_fold_groups(Seq::empty(), recs, names)), end),
            ),
        }
    }
}

/// What one tagged payload at `p` denotes, given its type id and declared
/// size, and the position after it. Dispatch mirrors the decoder: the type id
/// is compared against the well-known ids in a fixed order, and an id that
/// matches none of them is an unknown property type.
pub open spec fn sp_read_value(
    b: Seq<u8>,
    names: Names,
    type_id: usize,
    data_size: u32,
    p: int,
) -> Result<(SpecValue, int), ArkError>
    decreases b.len() - p, 1int,
{
    let ds = data_size as int;
    if type_id == names.array_property {
        if p + 8 > b.len() {
            Err(ArkError::UnexpectedEof)
        } else {
            sp_read_array(b, names, data_size, p + 8, name_at(b, p))
        }
    } else if type_id == names.bool_property {
        if p + 1 > b.len() {
            Err(ArkError::UnexpectedEof)
        } else {
            Ok((SpecValue::Bool(b[p] != 0), p + 1))
        }
    } else if type_id == names.byte_property {
        sp_byte_rest(b, names, p)
    } else if type_id == names.double_property {
        if p + 8 > b.len() {
            Err(ArkError::UnexpectedEof)
        } else {
            Ok((SpecValue::Double(u64_at(b, p)), p + 8))
        }
    } else if type_id == names.float_property {
        if p + 4 > b.len() {
            Err(ArkError::UnexpectedEof)
        } else {
            Ok((SpecValue::Float(u32_at(b, p)), p + 4))
        }
    } else if type_id == names.int16_property {
        if p + 2 > b.len() {
            Err(ArkError::UnexpectedEof)
        } else {
            Ok((SpecValue::Int16(i16_at(b, p)), p + 2))
        }
    } else if type_id == names.int8_property {
        if p + 1 > b.len() {
            Err(ArkError::UnexpectedEof)
        } else {
            Ok((SpecValue::Int8(b[p] as i8), p + 1))
        }
    } else if type_id == names.int_property {
        if p + 4 > b.len() {
            Err(ArkError::UnexpectedEof)
        } else {
            Ok((SpecValue::Int(i32_at(b, p)), p + 4))
        }
    } else if type_id == names.name_property {
        if p + 8 > b.len() {
            Err(ArkError::UnexpectedEof)
        } else {
            Ok((SpecValue::Name(name_at(b, p)), p + 8))
        }
    } else if type_id == names.object_property {
        sp_object_rest(b, data_size, p)
    } else if type_id == names.str_property {
        match str_read_at(b, p) {
            Err(e) => Err(e),
            Ok((s, p2)) => Ok((SpecValue::Str(s), p2)),
        }
    } else if type_id == names.struct_property {
        if p + 8 > b.len() {
            Err(ArkError::UnexpectedEof)
        } else {
            sp_struct_rest(b, names, data_size, name_at(b, p), p + 8)
        }
    } else if type_id == names.text_property {
        sp_text_rest(b, data_size, p)
    } else if type_id == names.uint16_property {
        if p + 2 > b.len() {
            Err(ArkError::UnexpectedEof)
        } else {
            Ok((SpecValue::UInt16(u16_at(b, p)), p + 2))
        }
    } else if type_id == names.uint32_property {
        if p + 4 > b.len() {
            Err(ArkError::UnexpectedEof)
        } else {
            Ok((SpecValue::UInt32(u32_at(b, p)), p + 4))
        }
    } else if type_id == names.uint64_property {
        if p + 8 > b.len() {
            Err(ArkError::UnexpectedEof)
        } else {
            Ok((SpecValue::UInt64(u64_at(b, p)), p + 8))
        }
    } else {
        Err(ArkError::UnknownPropertyType)
    }
}

/// What an array payload of a primitive element kind at `p` denotes, the
/// unknown-kind fallback included: that one skips the declared size and
/// denotes an empty `i32` array.
#[verifier::opaque]
pub open spec fn sp_prim_array(
    b: Seq<u8>,
    names: Names,
    data_size: u32,
    p: int,
    et: Name,
) -> Result<(SpecValue, int), ArkError> {
    let ds = data_size as int;
    let eid = et.id;
    if eid == names.uint32_property {
        if p + 4 > b.len() {
            Err(ArkError::UnexpectedEof)
        } else {
            match sp_u32_elems(b, p + 4, sp_count(i32_at(b, p))) {
                Err(e) => Err(e),
                Ok((items, pe)) => Ok((SpecValue::ArrayOfU32(items), pe)),
            }
        }
    } else if eid == names.int_property {
        if p + 4 > b.len() {
            Err(ArkError::UnexpectedEof)
        } else {
            match sp_i32_elems(b, p + 4, sp_count(i32_at(b, p))) {
                Err(e) => Err(e),
                Ok((items, pe)) => Ok((SpecValue::ArrayOfI32(items), pe)),
            }
        }
    } else if eid == names.uint16_property {
        if p + 4 > b.len() {
            Err(ArkError::UnexpectedEof)
        } else {
            match sp_u16_elems(b, p + 4, sp_count(i32_at(b, p))) {
                Err(e) => Err(e),
                Ok((items, pe)) => Ok((SpecValue::ArrayOfU16(items), pe)),
            }
        }
    } else if eid == names.int16_property {
        if p + 4 > b.len() {
            Err(ArkError::UnexpectedEof)
        } else {
            match sp_i16_elems(b, p + 4, sp_count(i32_at(b, p))) {
                Err(e) => Err(e),
                Ok((items, pe)) => Ok((SpecValue::ArrayOfI16(items), pe)),
            }
        }
    } else if eid == names.byte_property {
        if p + 4 > b.len() {
            Err(ArkError::UnexpectedEof)
        } else {
            match sp_u8_elems(b, p + 4, sp_count(i32_at(b, p))) {
                Err(e) => Err(e),
                Ok((items, pe)) => Ok((SpecValue::ArrayOfU8(items), pe)),
            }
        }
    } else if eid == names.int8_property {
        if p + 4 > b.len() {
            Err(ArkError::UnexpectedEof)
        } else {
            match sp_i8_elems(b, p + 4, sp_count(i32_at(b, p))) {
                Err(e) => Err(e),
                Ok((items, pe)) => Ok((SpecValue::ArrayOfI8(items), pe)),
            }
        }
    } else if eid == names.str_property {
        if p + 4 > b.len() {
            Err(ArkError::UnexpectedEof)
        } else {
            match sp_str_elems(b, p + 4, sp_count(i32_at(b, p))) {
                Err(e) => Err(e),
                Ok((items, pe)) => Ok((SpecValue::ArrayOfStr(items), pe)),
            }
        }
    } else if eid == names.uint64_property {
        if p + 4 > b.len() {
            Err(ArkError::UnexpectedEof)
        } else {
            match sp_u64_elems(b, p + 4, sp_count(i32_at(b, p))) {
                Err(e) => Err(e),
                Ok((items, pe)) => Ok((SpecValue::ArrayOfU64(items), pe)),
            }
        }
    } else if eid == names.bool_property {
        if p + 4 > b.len() {
            Err(ArkError::UnexpectedEof)
        } else {
            match sp_bool_elems(b, p + 4, sp_count(i32_at(b, p))) {
                Err(e) => Err(e),
                Ok((items, pe)) => Ok((SpecValue::ArrayOfBool(items), pe)),
            }
        }
    } else if eid == names.float_property {
        if p + 4 > b.len() {
            Err(ArkError::UnexpectedEof)
        } else {
            match sp_u32_elems(b, p + 4, sp_count(i32_at(b, p))) {
                Err(e) => Err(e),
                Ok((items, pe)) => Ok((SpecValue::ArrayOfF32(items), pe)),
            }
        }
    } else if eid == names.double_property {
        if p + 4 > b.len() {
            Err(ArkError::UnexpectedEof)
        } else {
            match sp_u64_elems(b, p + 4, sp_count(i32_at(b, p))) {
                Err(e) => Err(e),
                Ok((items, pe)) => Ok((SpecValue::ArrayOfF64(items), pe)),
            }
        }
    } else if eid == names.name_property {
        if p + 4 > b.len() {
            Err(ArkError::UnexpectedEof)
        } else {
            match sp_u32_elems(b, p + 4, sp_count(i32_at(b, p))) {
                Err(e) => Err(e),
                Ok((items, pe)) => Ok((SpecValue::ArrayOfF32(items), pe)),
            }
        }
    } else {
        Ok((SpecValue::ArrayOfI32(Seq::empty()), cap_pos(b, p + ds)))
    }
}

/// What an array payload at `p` denotes: `p` stands just after the element
/// kind name, which is dispatched in the decoder's fixed order. Unknown
/// element kinds skip the declared size and denote an empty `i32` array.
pub open spec fn sp_read_array(
    b: Seq<u8>,
    names: Names,
    data_size: u32,
    p: int,
    et: Name,
) -> Result<(SpecValue, int), ArkError>
    decreases b.len() - p, 0int,
{
    let ds = data_size as int;
    let eid = et.id;
    if eid == names.object_property {
        if p + 4 > b.len() {
            Err(ArkError::UnexpectedEof)
        } else {
            match sp_object_elems(b, p + 4, sp_count(i32_at(b, p))) {
                Err(e) => Err(e),
                Ok((items, pe)) => Ok((SpecValue::ArrayOfObject(items), pe)),
            }
        }
    } else if eid == names.struct_property {
        let end = cap_pos(b, p + ds);
        if p + 4 > b.len() {
            Err(ArkError::UnexpectedEof)
        } else {
            let count = sp_count(i32_at(b, p));
            let stride = if count == 0 || ds < 4 {
                0int
            } else {
                ((ds - 4) / 4) / count
            };
            if stride == 1 {
                match sp_color_elems(b, p + 4, count) {
                    Err(e) => Err(e),
                    Ok((items, _pe)) => Ok((SpecValue::ArrayOfStruct(items), end)),
                }
            } else if stride == 3 {
                match sp_vector_elems(b, p + 4, count) {
                    Err(e) => Err(e),
                    Ok((items, _pe)) => Ok((SpecValue::ArrayOfStruct(items), end)),
                }
            } else if stride == 4 {
                match sp_linear_elems(b, p + 4, count) {
                    Err(e) => Err(e),
                    Ok((items, _pe)) => Ok((SpecValue::ArrayOfStruct(items), end)),
                }
            } else {
                match sp_prop_list(b, names, p + 4) {
                    Err(e) => Err(e),
                    Ok((recs, _pe)) => Ok(
                        (SpecValue::Properties(sp_fold_groups(Seq::empty(), recs, names)), end),
                    ),
                }
            }
        }
    } else {
        sp_prim_array(b, names, data_size, p, et)
    }
}

/// The records of the property stream at `p`/// The records of the property stream at `p` and the position after its
/// terminator. A name or type id outside the table cannot be resolved and
/// is an unknown property type.
#[verifier::opaque]
pub open spec fn sp_prop_list(b: Seq<u8>, names: Names, p: int) -> Result<
    (Seq<SpecProperty>, int),
    ArkError,
>
    decreases b.len() - p, 2int,
{
    if p + 4 > b.len() {
        Err(ArkError::UnexpectedEof)
    } else {
        let id = u32_at(b, p) as usize;
        if id >= names.table().len() {
            Err(ArkError::UnknownPropertyType)
        } else if names.table()[id as int] == "None"@ {
            Ok((Seq::empty(), p + 4))
        } else if p + 24 > b.len() {
            Err(ArkError::UnexpectedEof)
        } else {
            let instance = u32_at(b, p + 4);
            let type_id = u32_at(b, p + 8) as usize;
            let data_size = u32_at(b, p + 16);
            let ind = u32_at(b, p + 20);
            match sp_read_value(b, names, type_id, data_size, p + 24) {
                Err(e) => Err(e),
                Ok((v, p2)) => {
                    let rec = SpecProperty { name: Name { id, instance }, ind, value: v };
                    let p3 = cap_pos(b, p2);
                    if p3 <= p {
                        Err(ArkError::UnexpectedEof)
                    } else {
                        match sp_prop_list(b, names, p3) {
                            Err(e) => Err(e),
                            Ok((rest, pe)) => Ok((seq![rec] + rest, pe)),
                        }
                    }
                },
            }
        }
    }
}

/// What a whole property stream leaves in a map that starts as `gs`.
pub open spec fn sp_props_of(b: Seq<u8>, names: Names, p: int) -> Result<
    (Seq<SpecGroup>, int),
    ArkError,
> {
    match sp_prop_list(b, names, p) {
        Err(e) => Err(e),
        Ok((recs, pe)) => Ok((sp_fold_groups(Seq::empty(), recs, names), pe)),
    }
}

/// Read `count` signed bytes.
#[verifier::loop_isolation(false)]
fn read_elems_i8(file: &mut ArrayReader, count: usize) -> (r: Result<Vec<i8>, ArkError>)
    requires
        old(file).wf(),
        count <= 0x7fff_ffff,
    ensures
        final(file).wf(),
        final(file).bytes() == old(file).bytes(),
        match r {
            Ok(v) => sp_i8_elems(old(file).bytes(), old(file).pos(), count as int) == Ok::<
                _,
                ArkError,
            >((v@, final(file).pos())),
            Err(e) => sp_i8_elems(old(file).bytes(), old(file).pos(), count as int) == Err::<
                (Seq<i8>, int),
                _,
            >(e),
        },
{
    proof {
        reveal(sp_i8_elems);
    }
    let ghost b = file.bytes();
    let ghost p0 = file.pos();
    if (count as u64) > (file.remaining() as u64) {
        return Err(ArkError::UnexpectedEof);
    }
    let mut v: Vec<i8> = Vec::new();
    let mut i: usize = 0;
    while i < count
        invariant
            file.wf(),
            file.bytes() == b,
            file.pos() == p0 + i,
            i <= count,
            v@ =~= Seq::new(i as nat, |j: int| b[p0 + j] as i8),
        decreases count - i,
    {
        let x = match file.read_i8() {
            Ok(x) => x,
            Err(e) => {
                proof {
                    assert(false);
                }
                return Err(e);
            },
        };
        v.push(x);
        proof {
            assert(v@ =~= Seq::new((i + 1) as nat, |j: int| b[p0 + j] as i8));
        }
        i = i + 1;
    }
    Ok(v)
}

/// Read `count` little-endian `u16` elements.
#[verifier::loop_isolation(false)]
fn read_elems_u16(file: &mut ArrayReader, count: usize) -> (r: Result<Vec<u16>, ArkError>)
    requires
        old(file).wf(),
        count <= 0x7fff_ffff,
    ensures
        final(file).wf(),
        final(file).bytes() == old(file).bytes(),
        match r {
            Ok(v) => sp_u16_elems(old(file).bytes(), old(file).pos(), count as int) == Ok::<
                _,
                ArkError,
            >((v@, final(file).pos())),
            Err(e) => sp_u16_elems(old(file).bytes(), old(file).pos(), count as int) == Err::<
                (Seq<u16>, int),
                _,
            >(e),
        },
{
    proof {
        reveal(sp_u16_elems);
    }
    let ghost b = file.bytes();
    let ghost p0 = file.pos();
    if (count as u64) * 2 > (file.remaining() as u64) {
        return Err(ArkError::UnexpectedEof);
    }
    let mut v: Vec<u16> = Vec::new();
    let mut i: usize = 0;
    while i < count
        invariant
            file.wf(),
            file.bytes() == b,
            file.pos() == p0 + 2 * i,
            i <= count,
            v@ =~= Seq::new(i as nat, |j: int| u16_at(b, p0 + 2 * j)),
        decreases count - i,
    {
        let x = match file.read_u16() {
            Ok(x) => x,
            Err(e) => {
                proof {
                    assert(false);
                }
                return Err(e);
            },
        };
        v.push(x);
        proof {
            assert(v@ =~= Seq::new((i + 1) as nat, |j: int| u16_at(b, p0 + 2 * j)));
        }
        i = i + 1;
    }
    Ok(v)
}

/// Read `count` little-endian `i16` elements.
#[verifier::loop_isolation(false)]
fn read_elems_i16(file: &mut ArrayReader, count: usize) -> (r: Result<Vec<i16>, ArkError>)
    requires
        old(file).wf(),
        count <= 0x7fff_ffff,
    ensures
        final(file).wf(),
        final(file).bytes() == old(file).bytes(),
        match r {
            Ok(v) => sp_i16_elems(old(file).bytes(), old(file).pos(), count as int) == Ok::<
                _,
                ArkError,
            >((v@, final(file).pos())),
            Err(e) => sp_i16_elems(old(file).bytes(), old(file).pos(), count as int) == Err::<
                (Seq<i16>, int),
                _,
            >(e),
        },
{
    proof {
        reveal(sp_i16_elems);
    }
    let ghost b = file.bytes();
    let ghost p0 = file.pos();
    if (count as u64) * 2 > (file.remaining() as u64) {
        return Err(ArkError::UnexpectedEof);
    }
    let mut v: Vec<i16> = Vec::new();
    let mut i: usize = 0;
    while i < count
        invariant
            file.wf(),
            file.bytes() == b,
            file.pos() == p0 + 2 * i,
            i <= count,
            v@ =~= Seq::new(i as nat, |j: int| i16_at(b, p0 + 2 * j)),
        decreases count - i,
    {
        let x = match file.read_i16() {
            Ok(x) => x,
            Err(e) => {
                proof {
                    assert(false);
                }
                return Err(e);
            },
        };
        v.push(x);
        proof {
            assert(v@ =~= Seq::new((i + 1) as nat, |j: int| i16_at(b, p0 + 2 * j)));
        }
        i = i + 1;
    }
    Ok(v)
}

/// Read `count` little-endian `u32` elements.
#[verifier::loop_isolation(false)]
fn read_elems_u32(file: &mut ArrayReader, count: usize) -> (r: Result<Vec<u32>, ArkError>)
    requires
        old(file).wf(),
        count <= 0x7fff_ffff,
    ensures
        final(file).wf(),
        final(file).bytes() == old(file).bytes(),
        match r {
            Ok(v) => sp_u32_elems(old(file).bytes(), old(file).pos(), count as int) == Ok::<
                _,
                ArkError,
            >((v@, final(file).pos())),
            Err(e) => sp_u32_elems(old(file).bytes(), old(file).pos(), count as int) == Err::<
                (Seq<u32>, int),
                _,
            >(e),
        },
{
    proof {
        reveal(sp_u32_elems);
    }
    let ghost b = file.bytes();
    let ghost p0 = file.pos();
    if (count as u64) * 4 > (file.remaining() as u64) {
        return Err(ArkError::UnexpectedEof);
    }
    let mut v: Vec<u32> = Vec::new();
    let mut i: usize = 0;
    while i < count
        invariant
            file.wf(),
            file.bytes() == b,
            file.pos() == p0 + 4 * i,
            i <= count,
            v@ =~= Seq::new(i as nat, |j: int| u32_at(b, p0 + 4 * j)),
        decreases count - i,
    {
        let x = match file.read_u32() {
            Ok(x) => x,
            Err(e) => {
                proof {
                    assert(false);
                }
                return Err(e);
            },
        };
        v.push(x);
        proof {
            assert(v@ =~= Seq::new((i + 1) as nat, |j: int| u32_at(b, p0 + 4 * j)));
        }
        i = i + 1;
    }
    Ok(v)
}

/// Read `count` little-endian `i32` elements.
#[verifier::loop_isolation(false)]
fn read_elems_i32(file: &mut ArrayReader, count: usize) -> (r: Result<Vec<i32>, ArkError>)
    requires
        old(file).wf(),
        count <= 0x7fff_ffff,
    ensures
        final(file).wf(),
        final(file).bytes() == old(file).bytes(),
        match r {
            Ok(v) => sp_i32_elems(old(file).bytes(), old(file).pos(), count as int) == Ok::<
                _,
                ArkError,
            >((v@, final(file).pos())),
            Err(e) => sp_i32_elems(old(file).bytes(), old(file).pos(), count as int) == Err::<
                (Seq<i32>, int),
                _,
            >(e),
        },
{
    proof {
        reveal(sp_i32_elems);
    }
    let ghost b = file.bytes();
    let ghost p0 = file.pos();
    if (count as u64) * 4 > (file.remaining() as u64) {
        return Err(ArkError::UnexpectedEof);
    }
    let mut v: Vec<i32> = Vec::new();
    let mut i: usize = 0;
    while i < count
        invariant
            file.wf(),
            file.bytes() == b,
            file.pos() == p0 + 4 * i,
            i <= count,
            v@ =~= Seq::new(i as nat, |j: int| i32_at(b, p0 + 4 * j)),
        decreases count - i,
    {
        let x = match file.read_i32() {
            Ok(x) => x,
            Err(e) => {
                proof {
                    assert(false);
                }
                return Err(e);
            },
        };
        v.push(x);
        proof {
            assert(v@ =~= Seq::new((i + 1) as nat, |j: int| i32_at(b, p0 + 4 * j)));
        }
        i = i + 1;
    }
    Ok(v)
}

/// Read `count` little-endian `u64` elements.
#[verifier::loop_isolation(false)]
fn read_elems_u64(file: &mut ArrayReader, count: usize) -> (r: Result<Vec<u64>, ArkError>)
    requires
        old(file).wf(),
        count <= 0x7fff_ffff,
    ensures
        final(file).wf(),
        final(file).bytes() == old(file).bytes(),
        match r {
            Ok(v) => sp_u64_elems(old(file).bytes(), old(file).pos(), count as int) == Ok::<
                _,
                ArkError,
            >((v@, final(file).pos())),
            Err(e) => sp_u64_elems(old(file).bytes(), old(file).pos(), count as int) == Err::<
                (Seq<u64>, int),
                _,
            >(e),
        },
{
    proof {
        reveal(sp_u64_elems);
    }
    let ghost b = file.bytes();
    let ghost p0 = file.pos();
    if (count as u64) * 8 > (file.remaining() as u64) {
        return Err(ArkError::UnexpectedEof);
    }
    let mut v: Vec<u64> = Vec::new();
    let mut i: usize = 0;
    while i < count
        invariant
            file.wf(),
            file.bytes() == b,
            file.pos() == p0 + 8 * i,
            i <= count,
            v@ =~= Seq::new(i as nat, |j: int| u64_at(b, p0 + 8 * j)),
        decreases count - i,
    {
        let x = match file.read_u64() {
            Ok(x) => x,
            Err(e) => {
                proof {
                    assert(false);
                }
                return Err(e);
            },
        };
        v.push(x);
        proof {
            assert(v@ =~= Seq::new((i + 1) as nat, |j: int| u64_at(b, p0 + 8 * j)));
        }
        i = i + 1;
    }
    Ok(v)
}

/// Read `count` four-byte boolean elements.
#[verifier::loop_isolation(false)]
fn read_elems_bool(file: &mut ArrayReader, count: usize) -> (r: Result<Vec<bool>, ArkError>)
    requires
        old(file).wf(),
        count <= 0x7fff_ffff,
    ensures
        final(file).wf(),
        final(file).bytes() == old(file).bytes(),
        match r {
            Ok(v) => sp_bool_elems(old(file).bytes(), old(file).pos(), count as int) == Ok::<
                _,
                ArkError,
            >((v@, final(file).pos())),
            Err(e) => sp_bool_elems(old(file).bytes(), old(file).pos(), count as int) == Err::<
                (Seq<bool>, int),
                _,
            >(e),
        },
{
    proof {
        reveal(sp_bool_elems);
    }
    let ghost b = file.bytes();
    let ghost p0 = file.pos();
    if (count as u64) * 4 > (file.remaining() as u64) {
        return Err(ArkError::UnexpectedEof);
    }
    let mut v: Vec<bool> = Vec::new();
    let mut i: usize = 0;
    while i < count
        invariant
            file.wf(),
            file.bytes() == b,
            file.pos() == p0 + 4 * i,
            i <= count,
            v@ =~= Seq::new(i as nat, |j: int| bool_at(b, p0 + 4 * j)),
        decreases count - i,
    {
        let x = match file.read_bool() {
            Ok(x) => x,
            Err(e) => {
                proof {
                    assert(false);
                }
                return Err(e);
            },
        };
        v.push(x);
        proof {
            assert(v@ =~= Seq::new((i + 1) as nat, |j: int| bool_at(b, p0 + 4 * j)));
        }
        i = i + 1;
    }
    Ok(v)
}

/// Read `count` packed `Color` elements, reordering each `b g r a` to RGBA.
#[verifier::loop_isolation(false)]
fn read_elems_color(file: &mut ArrayReader, count: usize) -> (r: Result<Vec<Value>, ArkError>)
    requires
        old(file).wf(),
        count <= 0x7fff_ffff,
    ensures
        final(file).wf(),
        final(file).bytes() == old(file).bytes(),
        match r {
            Ok(v) => sp_color_elems(old(file).bytes(), old(file).pos(), count as int) == Ok::<
                _,
                ArkError,
            >((values_view(v@), final(file).pos())),
            Err(e) => sp_color_elems(old(file).bytes(), old(file).pos(), count as int) == Err::<
                (Seq<SpecValue>, int),
                _,
            >(e),
        },
{
    proof {
        reveal(sp_color_elems);
    }
    let ghost b = file.bytes();
    let ghost p0 = file.pos();
    if (count as u64) * 16 > (file.remaining() as u64) {
        return Err(ArkError::UnexpectedEof);
    }
    let mut v: Vec<Value> = Vec::new();
    let mut i: usize = 0;
    while i < count
        invariant
            file.wf(),
            file.bytes() == b,
            file.pos() == p0 + 16 * i,
            i <= count,
            values_view(v@) =~= Seq::new(
                i as nat,
                |j: int|
                    SpecValue::RGBA(
                        u32_at(b, p0 + 16 * j + 8),
                        u32_at(b, p0 + 16 * j + 4),
                        u32_at(b, p0 + 16 * j),
                        u32_at(b, p0 + 16 * j + 12),
                    ),
            ),
        decreases count - i,
    {
        let cb = match file.read_f32_bits() {
            Ok(x) => x,
            Err(e) => {
                proof {
                    assert(false);
                }
                return Err(e);
            },
        };
        let cg = match file.read_f32_bits() {
            Ok(x) => x,
            Err(e) => {
                proof {
                    assert(false);
                }
                return Err(e);
            },
        };
        let cr = match file.read_f32_bits() {
            Ok(x) => x,
            Err(e) => {
                proof {
                    assert(false);
                }
                return Err(e);
            },
        };
        let ca = match file.read_f32_bits() {
            Ok(x) => x,
            Err(e) => {
                proof {
                    assert(false);
                }
                return Err(e);
            },
        };
        let ghost pre = v@;
        let item = Value::RGBA(cr, cg, cb, ca);
        v.push(item);
        proof {
            lemma_values_view(pre);
            lemma_values_view(v@);
            assert(value_view(item) == SpecValue::RGBA(cr, cg, cb, ca));
            assert(values_view(v@) =~= values_view(pre) + seq![value_view(item)]);
            assert(values_view(v@) =~= Seq::new(
                (i + 1) as nat,
                |j: int|
                    SpecValue::RGBA(
                        u32_at(b, p0 + 16 * j + 8),
                        u32_at(b, p0 + 16 * j + 4),
                        u32_at(b, p0 + 16 * j),
                        u32_at(b, p0 + 16 * j + 12),
                    ),
            ));
        }
        i = i + 1;
    }
    Ok(v)
}

/// Read `count` packed `Vector` elements.
#[verifier::loop_isolation(false)]
fn read_elems_vector(file: &mut ArrayReader, count: usize) -> (r: Result<Vec<Value>, ArkError>)
    requires
        old(file).wf(),
        count <= 0x7fff_ffff,
    ensures
        final(file).wf(),
        final(file).bytes() == old(file).bytes(),
        match r {
            Ok(v) => sp_vector_elems(old(file).bytes(), old(file).pos(), count as int) == Ok::<
                _,
                ArkError,
            >((values_view(v@), final(file).pos())),
            Err(e) => sp_vector_elems(old(file).bytes(), old(file).pos(), count as int) == Err::<
                (Seq<SpecValue>, int),
                _,
            >(e),
        },
{
    proof {
        reveal(sp_vector_elems);
    }
    let ghost b = file.bytes();
    let ghost p0 = file.pos();
    if (count as u64) * 12 > (file.remaining() as u64) {
        return Err(ArkError::UnexpectedEof);
    }
    let mut v: Vec<Value> = Vec::new();
    let mut i: usize = 0;
    while i < count
        invariant
            file.wf(),
            file.bytes() == b,
            file.pos() == p0 + 12 * i,
            i <= count,
            values_view(v@) =~= Seq::new(
                i as nat,
                |j: int|
                    SpecValue::Vector(
                        u32_at(b, p0 + 12 * j),
                        u32_at(b, p0 + 12 * j + 4),
                        u32_at(b, p0 + 12 * j + 8),
                    ),
            ),
        decreases count - i,
    {
        let x = match file.read_f32_bits() {
            Ok(x) => x,
            Err(e) => {
                proof {
                    assert(false);
                }
                return Err(e);
            },
        };
        let y = match file.read_f32_bits() {
            Ok(x) => x,
            Err(e) => {
                proof {
                    assert(false);
                }
                return Err(e);
            },
        };
        let z = match file.read_f32_bits() {
            Ok(x) => x,
            Err(e) => {
                proof {
                    assert(false);
                }
                return Err(e);
            },
        };
        let ghost pre = v@;
        let item = Value::Vector(x, y, z);
        v.push(item);
        proof {
            lemma_values_view(pre);
            lemma_values_view(v@);
            assert(value_view(item) == SpecValue::Vector(x, y, z));
            assert(values_view(v@) =~= values_view(pre) + seq![value_view(item)]);
            assert(values_view(v@) =~= Seq::new(
                (i + 1) as nat,
                |j: int|
                    SpecValue::Vector(
                        u32_at(b, p0 + 12 * j),
                        u32_at(b, p0 + 12 * j + 4),
                        u32_at(b, p0 + 12 * j + 8),
                    ),
            ));
        }
        i = i + 1;
    }
    Ok(v)
}

/// Read `count` packed `LinearColor` elements, stored in RGBA order.
#[verifier::loop_isolation(false)]
fn read_elems_linear(file: &mut ArrayReader, count: usize) -> (r: Result<Vec<Value>, ArkError>)
    requires
        old(file).wf(),
        count <= 0x7fff_ffff,
    ensures
        final(file).wf(),
        final(file).bytes() == old(file).bytes(),
        match r {
            Ok(v) => sp_linear_elems(old(file).bytes(), old(file).pos(), count as int) == Ok::<
                _,
                ArkError,
            >((values_view(v@), final(file).pos())),
            Err(e) => sp_linear_elems(old(file).bytes(), old(file).pos(), count as int) == Err::<
                (Seq<SpecValue>, int),
                _,
            >(e),
        },
{
    proof {
        reveal(sp_linear_elems);
    }
    let ghost b = file.bytes();
    let ghost p0 = file.pos();
    if (count as u64) * 16 > (file.remaining() as u64) {
        return Err(ArkError::UnexpectedEof);
    }
    let mut v: Vec<Value> = Vec::new();
    let mut i: usize = 0;
    while i < count
        invariant
            file.wf(),
            file.bytes() == b,
            file.pos() == p0 + 16 * i,
            i <= count,
            values_view(v@) =~= Seq::new(
                i as nat,
                |j: int|
                    SpecValue::RGBA(
                        u32_at(b, p0 + 16 * j),
                        u32_at(b, p0 + 16 * j + 4),
                        u32_at(b, p0 + 16 * j + 8),
                        u32_at(b, p0 + 16 * j + 12),
                    ),
            ),
        decreases count - i,
    {
        let cr = match file.read_f32_bits() {
            Ok(x) => x,
            Err(e) => {
                proof {
                    assert(false);
                }
                return Err(e);
            },
        };
        let cg = match file.read_f32_bits() {
            Ok(x) => x,
            Err(e) => {
                proof {
                    assert(false);
                }
                return Err(e);
            },
        };
        let cb = match file.read_f32_bits() {
            Ok(x) => x,
            Err(e) => {
                proof {
                    assert(false);
                }
                return Err(e);
            },
        };
        let ca = match file.read_f32_bits() {
            Ok(x) => x,
            Err(e) => {
                proof {
                    assert(false);
                }
                return Err(e);
            },
        };
        let ghost pre = v@;
        let item = Value::RGBA(cr, cg, cb, ca);
        v.push(item);
        proof {
            lemma_values_view(pre);
            lemma_values_view(v@);
            assert(value_view(item) == SpecValue::RGBA(cr, cg, cb, ca));
            assert(values_view(v@) =~= values_view(pre) + seq![value_view(item)]);
            assert(values_view(v@) =~= Seq::new(
                (i + 1) as nat,
                |j: int|
                    SpecValue::RGBA(
                        u32_at(b, p0 + 16 * j),
                        u32_at(b, p0 + 16 * j + 4),
                        u32_at(b, p0 + 16 * j + 8),
                        u32_at(b, p0 + 16 * j + 12),
                    ),
            ));
        }
        i = i + 1;
    }
    Ok(v)
}

/// Read `count` object-reference elements.
#[verifier::loop_isolation(false)]
fn read_elems_object(file: &mut ArrayReader, count: usize) -> (r: Result<Vec<Value>, ArkError>)
    requires
        old(file).wf(),
    ensures
        final(file).wf(),
        final(file).bytes() == old(file).bytes(),
        match r {
            Ok(v) => sp_object_elems(old(file).bytes(), old(file).pos(), count as int) == Ok::<
                _,
                ArkError,
            >((values_view(v@), final(file).pos())) && old(file).pos() <= final(file).pos(),
            Err(e) => sp_object_elems(old(file).bytes(), old(file).pos(), count as int) == Err::<
                (Seq<SpecValue>, int),
                _,
            >(e),
        },
{
    proof {
        reveal(sp_object_elems);
    }
    let ghost b = file.bytes();
    let ghost p0 = file.pos();
    let mut v: Vec<Value> = Vec::new();
    let mut k: usize = 0;
    while k < count
        invariant
            file.wf(),
            file.bytes() == b,
            p0 <= file.pos(),
            0 <= k <= count,
            match sp_object_elems(b, file.pos(), count - k) {
                Ok((rest, pe)) => sp_object_elems(b, p0, count as int) == Ok::<_, ArkError>((
                    values_view(v@) + rest,
                    pe,
                )),
                Err(e) => sp_object_elems(b, p0, count as int) == Err::<(Seq<SpecValue>, int), _>(
                    e,
                ),
            },
        decreases count - k,
    {
        let ghost p = file.pos();
        let kind = match file.read_u32() {
            Ok(x) => x,
            Err(e) => { return Err(e) },
        };
        let item = if kind == 0 {
            match file.read_i32() {
                Ok(x) => Value::Int(x),
                Err(e) => { return Err(e) },
            }
        } else if kind == 1 {
            match file.read_name() {
                Ok(nm) => Value::Name(nm),
                Err(e) => { return Err(e) },
            }
        } else {
            return Err(ArkError::UnknownObjectPropertyKind);
        };
        let ghost pre = v@;
        v.push(item);
        proof {
            lemma_values_view(pre);
            lemma_values_view(v@);
            assert(values_view(v@) =~= values_view(pre) + seq![value_view(item)]);
            let p2 = file.pos();
            match sp_object_elems(b, p2, count - k - 1) {
                Ok((rest2, pe)) => {
                    assert(sp_object_elems(b, p, count - k) == Ok::<_, ArkError>((
                        seq![value_view(item)] + rest2,
                        pe,
                    )));
                    assert(values_view(v@) + rest2 =~= values_view(pre) + (seq![value_view(item)]
                        + rest2));
                },
                Err(e2) => {
                    assert(sp_object_elems(b, p, count - k) == Err::<(Seq<SpecValue>, int), _>(e2));
                },
            }
        }
        k = k + 1;
    }
    proof {
        assert(values_view(v@) + Seq::<SpecValue>::empty() =~= values_view(v@));
    }
    Ok(v)
}

/// Read `count` length-prefixed string elements.
#[verifier::loop_isolation(false)]
fn read_elems_str(file: &mut ArrayReader, count: usize) -> (r: Result<Vec<String>, ArkError>)
    requires
        old(file).wf(),
    ensures
        final(file).wf(),
        final(file).bytes() == old(file).bytes(),
        match r {
            Ok(v) => sp_str_elems(old(file).bytes(), old(file).pos(), count as int) == Ok::<
                _,
                ArkError,
            >((strings_view(v@), final(file).pos())) && old(file).pos() <= final(file).pos(),
            Err(e) => sp_str_elems(old(file).bytes(), old(file).pos(), count as int) == Err::<
                (Seq<Seq<char>>, int),
                _,
            >(e),
        },
{
    proof {
        reveal(sp_str_elems);
    }
    let ghost b = file.bytes();
    let ghost p0 = file.pos();
    let mut v: Vec<String> = Vec::new();
    let mut k: usize = 0;
    while k < count
        invariant
            file.wf(),
            file.bytes() == b,
            p0 <= file.pos(),
            0 <= k <= count,
            match sp_str_elems(b, file.pos(), count - k) {
                Ok((rest, pe)) => sp_str_elems(b, p0, count as int) == Ok::<_, ArkError>((
                    strings_view(v@) + rest,
                    pe,
                )),
                Err(e) => sp_str_elems(b, p0, count as int) == Err::<(Seq<Seq<char>>, int), _>(e),
            },
        decreases count - k,
    {
        let ghost p = file.pos();
        let s = match file.read_str() {
            Ok(s) => s,
            Err(e) => {
                proof {
                    assert(sp_str_elems(b, p, count - k) == Err::<(Seq<Seq<char>>, int), ArkError>(
                        e,
                    ));
                }
                return Err(e);
            },
        };
        let ghost pre = v@;
        let ghost sv = s@;
        v.push(s);
        proof {
            assert(strings_view(v@) =~= strings_view(pre) + seq![sv]);
            let p2 = file.pos();
            match sp_str_elems(b, p2, count - k - 1) {
                Ok((rest2, pe)) => {
                    assert(sp_str_elems(b, p, count - k) == Ok::<_, ArkError>((
                        seq![sv] + rest2,
                        pe,
                    )));
                    assert(strings_view(v@) + rest2 =~= strings_view(pre) + (seq![sv] + rest2));
                },
                Err(e2) => {
                    assert(sp_str_elems(b, p, count - k) == Err::<(Seq<Seq<char>>, int), _>(e2));
                },
            }
        }
        k = k + 1;
    }
    proof {
        assert(strings_view(v@) + Seq::<Seq<char>>::empty() =~= strings_view(v@));
    }
    Ok(v)
}

/// Read a count prefix, clamping negative counts to zero.
fn read_count(file: &mut ArrayReader) -> (r: Result<usize, ArkError>)
    requires
        old(file).wf(),
    ensures
        final(file).wf(),
        final(file).bytes() == old(file).bytes(),
        match r {
            Ok(c) => old(file).pos() + 4 <= old(file).bytes().len() && c as int == sp_count(
                i32_at(old(file).bytes(), old(file).pos()),
            ) && c <= 0x7fff_ffff && final(file).pos() == old(file).pos() + 4,
            Err(e) => e == ArkError::UnexpectedEof && old(file).pos() + 4 > old(file).bytes().len(),
        },
{
    match file.read_i32() {
        Ok(c) => Ok(
            if c < 0 {
                0
            } else {
                c as usize
            },
        ),
        Err(e) => Err(e),
    }
}

/// Clamp `from + data_size` to the end of the buffer.
fn end_of_block(file: &ArrayReader, from: usize, data_size: u32) -> (r: usize)
    requires
        file.wf(),
        from <= file.bytes().len(),
    ensures
        r as int == cap_pos(file.bytes(), from + data_size as int),
        r <= file.bytes().len(),
{
    let len_total = file.total_len();
    let room = len_total - from;
    if (data_size as u64) > (room as u64) {
        len_total
    } else {
        from + (data_size as usize)
    }
}

/// Read an array payload of a primitive element kind, the unknown-kind
/// fallback included.
#[verifier::rlimit(100)]
fn read_prim_array(file: &mut ArrayReader, names: &Names, data_size: u32, et: Name) -> (r: Result<
    Value,
    ArkError,
>)
    requires
        old(file).wf(),
        et.id != names.object_property,
        et.id != names.struct_property,
    ensures
        final(file).wf(),
        final(file).bytes() == old(file).bytes(),
        match r {
            Ok(v) => sp_prim_array(old(file).bytes(), *names, data_size, old(file).pos(), et)
                == Ok::<_, ArkError>((v@, final(file).pos())) && old(file).pos() <= final(file).pos(),
            Err(e) => sp_prim_array(old(file).bytes(), *names, data_size, old(file).pos(), et)
                == Err::<(SpecValue, int), _>(e),
        },
{
    proof {
        reveal(sp_prim_array);
        reveal(sp_u8_elems);
        reveal(sp_i8_elems);
        reveal(sp_u16_elems);
        reveal(sp_i16_elems);
        reveal(sp_u32_elems);
        reveal(sp_i32_elems);
    }
    let eid = et.id;
    if eid == names.uint32_property {
        let cnt = match read_count(file) {
            Ok(c) => c,
            Err(e) => { return Err(e) },
        };
        match read_elems_u32(file, cnt) {
            Ok(items) => Ok(Value::ArrayOfU32(items)),
            Err(e) => Err(e),
        }
    } else if eid == names.int_property {
        let cnt = match read_count(file) {
            Ok(c) => c,
            Err(e) => { return Err(e) },
        };
        match read_elems_i32(file, cnt) {
            Ok(items) => Ok(Value::ArrayOfI32(items)),
            Err(e) => Err(e),
        }
    } else if eid == names.uint16_property {
        let cnt = match read_count(file) {
            Ok(c) => c,
            Err(e) => { return Err(e) },
        };
        match read_elems_u16(file, cnt) {
            Ok(items) => Ok(Value::ArrayOfU16(items)),
            Err(e) => Err(e),
        }
    } else if eid == names.int16_property {
        let cnt = match read_count(file) {
            Ok(c) => c,
            Err(e) => { return Err(e) },
        };
        match read_elems_i16(file, cnt) {
            Ok(items) => Ok(Value::ArrayOfI16(items)),
            Err(e) => Err(e),
        }
    } else if eid == names.byte_property {
        let cnt = match read_count(file) {
            Ok(c) => c,
            Err(e) => { return Err(e) },
        };
        match file.read_bytes(cnt) {
            Ok(items) => Ok(Value::ArrayOfU8(items)),
            Err(e) => Err(e),
        }
    } else if eid == names.int8_property {
        let cnt = match read_count(file) {
            Ok(c) => c,
            Err(e) => { return Err(e) },
        };
        match read_elems_i8(file, cnt) {
            Ok(items) => Ok(Value::ArrayOfI8(items)),
            Err(e) => Err(e),
        }
    } else {
        read_prim_array_rest(file, names, data_size, et)
    }
}

/// The primitive-array kinds the first dispatch does not cover.
#[verifier::rlimit(100)]
fn read_prim_array_rest(file: &mut ArrayReader, names: &Names, data_size: u32, et: Name) -> (r:
    Result<Value, ArkError>)
    requires
        old(file).wf(),
        et.id != names.object_property,
        et.id != names.struct_property,
        et.id != names.uint32_property,
        et.id != names.int_property,
        et.id != names.uint16_property,
        et.id != names.int16_property,
        et.id != names.byte_property,
        et.id != names.int8_property,
    ensures
        final(file).wf(),
        final(file).bytes() == old(file).bytes(),
        match r {
            Ok(v) => sp_prim_array(old(file).bytes(), *names, data_size, old(file).pos(), et)
                == Ok::<_, ArkError>((v@, final(file).pos())) && old(file).pos() <= final(file).pos(),
            Err(e) => sp_prim_array(old(file).bytes(), *names, data_size, old(file).pos(), et)
                == Err::<(SpecValue, int), _>(e),
        },
{
    proof {
        reveal(sp_prim_array);
        reveal(sp_str_elems);
        reveal(sp_u64_elems);
        reveal(sp_bool_elems);
        reveal(sp_u32_elems);
    }
    let eid = et.id;
    if eid == names.str_property {
        let cnt = match read_count(file) {
            Ok(c) => c,
            Err(e) => { return Err(e) },
        };
        match read_elems_str(file, cnt) {
            Ok(items) => Ok(Value::ArrayOfStr(items)),
            Err(e) => Err(e),
        }
    } else if eid == names.uint64_property {
        let cnt = match read_count(file) {
            Ok(c) => c,
            Err(e) => { return Err(e) },
        };
        match read_elems_u64(file, cnt) {
            Ok(items) => Ok(Value::ArrayOfU64(items)),
            Err(e) => Err(e),
        }
    } else if eid == names.bool_property {
        let cnt = match read_count(file) {
            Ok(c) => c,
            Err(e) => { return Err(e) },
        };
        match read_elems_bool(file, cnt) {
            Ok(items) => Ok(Value::ArrayOfBool(items)),
            Err(e) => Err(e),
        }
    } else if eid == names.float_property {
        let cnt = match read_count(file) {
            Ok(c) => c,
            Err(e) => { return Err(e) },
        };
        match read_elems_u32(file, cnt) {
            Ok(items) => Ok(Value::ArrayOfF32(items)),
            Err(e) => Err(e),
        }
    } else if eid == names.double_property {
        let cnt = match read_count(file) {
            Ok(c) => c,
            Err(e) => { return Err(e) },
        };
        match read_elems_u64(file, cnt) {
            Ok(items) => Ok(Value::ArrayOfF64(items)),
            Err(e) => Err(e),
        }
    } else if eid == names.name_property {
        let cnt = match read_count(file) {
            Ok(c) => c,
            Err(e) => { return Err(e) },
        };
        match read_elems_u32(file, cnt) {
            Ok(items) => Ok(Value::ArrayOfF32(items)),
            Err(e) => Err(e),
        }
    } else {
        file.skip(data_size as usize);
        Ok(Value::ArrayOfI32(Vec::new()))
    }
}


/// Read an array payload: the reader stands just after the element-kind
/// name `et`.
#[verifier::rlimit(100)]
#[verifier::spinoff_prover]
fn read_array(file: &mut ArrayReader, names: &Names, data_size: u32, et: Name) -> (r: Result<
    Value,
    ArkError,
>)
    requires
        old(file).wf(),
    ensures
        final(file).wf(),
        final(file).bytes() == old(file).bytes(),
        match r {
            Ok(v) => sp_read_array(old(file).bytes(), *names, data_size, old(file).pos(), et)
                == Ok::<_, ArkError>((v@, final(file).pos())) && old(file).pos() <= final(file).pos(),
            Err(e) => sp_read_array(old(file).bytes(), *names, data_size, old(file).pos(), et)
                == Err::<(SpecValue, int), _>(e),
        },
    decreases file.bytes().len() - file.pos(), 0int,
{
    let ghost b = file.bytes();
    let ghost p = file.pos();
    let eid = et.id;
    if eid == names.object_property {
        let cnt = match read_count(file) {
            Ok(c) => c,
            Err(e) => { return Err(e) },
        };
        match read_elems_object(file, cnt) {
            Ok(items) => Ok(Value::ArrayOfObject(items)),
            Err(e) => Err(e),
        }
    } else if eid == names.struct_property {
        let pstart = file.position();
        let endu = end_of_block(file, pstart, data_size);
        let count = match file.read_i32() {
            Ok(c) => c,
            Err(e) => { return Err(e) },
        };
        let cnt: usize = if count < 0 {
            0
        } else {
            count as usize
        };
        let stride: u32 = if cnt == 0 || data_size < 4 {
            0
        } else {
            ((data_size - 4) / 4) / (count as u32)
        };
        if stride == 1 {
            match read_elems_color(file, cnt) {
                Ok(items) => {
                    file.seek_to(endu);
                    Ok(Value::ArrayOfStruct(items))
                },
                Err(e) => Err(e),
            }
        } else if stride == 3 {
            match read_elems_vector(file, cnt) {
                Ok(items) => {
                    file.seek_to(endu);
                    Ok(Value::ArrayOfStruct(items))
                },
                Err(e) => Err(e),
            }
        } else if stride == 4 {
            match read_elems_linear(file, cnt) {
                Ok(items) => {
                    file.seek_to(endu);
                    Ok(Value::ArrayOfStruct(items))
                },
                Err(e) => Err(e),
            }
        } else {
            let mut props = Properties::new();
            match props.read(file, names) {
                Ok(()) => {
                    file.seek_to(endu);
                    Ok(Value::Properties(props))
                },
                Err(e) => Err(e),
            }
        }
    } else {
        read_prim_array(file, names, data_size, et)
    }
}

/// Read a `ByteProperty` payload/// Read a `ByteProperty` payload: a raw byte, or an enum variant.
fn read_byte_rest(file: &mut ArrayReader, names: &Names) -> (r: Result<Value, ArkError>)
    requires
        old(file).wf(),
    ensures
        final(file).wf(),
        final(file).bytes() == old(file).bytes(),
        match r {
            Ok(v) => sp_byte_rest(old(file).bytes(), *names, old(file).pos()) == Ok::<_, ArkError>(
                (v@, final(file).pos()),
            ) && old(file).pos() <= final(file).pos(),
            Err(e) => sp_byte_rest(old(file).bytes(), *names, old(file).pos()) == Err::<
                (SpecValue, int),
                _,
            >(e),
        },
{
    let en = match file.read_name() {
        Ok(nm) => nm,
        Err(e) => { return Err(e) },
    };
    if en.id >= names.len() {
        return Err(ArkError::UnknownPropertyType);
    }
    if str_eq(names.get_name(en.id).as_str(), "None") {
        match file.read_u8() {
            Ok(x) => Ok(Value::Byte(x)),
            Err(e) => Err(e),
        }
    } else {
        match file.read_name() {
            Ok(vn) => Ok(Value::Enum(en, vn)),
            Err(e) => Err(e),
        }
    }
}

/// Read an `ObjectProperty` payload, branching on its declared size.
fn read_object_rest(file: &mut ArrayReader, data_size: u32) -> (r: Result<Value, ArkError>)
    requires
        old(file).wf(),
    ensures
        final(file).wf(),
        final(file).bytes() == old(file).bytes(),
        match r {
            Ok(v) => sp_object_rest(old(file).bytes(), data_size, old(file).pos()) == Ok::<
                _,
                ArkError,
            >((v@, final(file).pos())) && old(file).pos() <= final(file).pos(),
            Err(e) => sp_object_rest(old(file).bytes(), data_size, old(file).pos()) == Err::<
                (SpecValue, int),
                _,
            >(e),
        },
{
    if data_size == 4 {
        match file.read_i32() {
            Ok(x) => Ok(Value::Int(x)),
            Err(e) => Err(e),
        }
    } else if data_size >= 8 {
        let kind = match file.read_u32() {
            Ok(x) => x,
            Err(e) => { return Err(e) },
        };
        if kind == 0 {
            match file.read_i32() {
                Ok(x) => Ok(Value::Int(x)),
                Err(e) => Err(e),
            }
        } else if kind == 1 {
            match file.read_name() {
                Ok(nm) => Ok(Value::Name(nm)),
                Err(e) => Err(e),
            }
        } else {
            Err(ArkError::UnknownObjectPropertyKind)
        }
    } else {
        Err(ArkError::UnknownObjectPropertyKind)
    }
}

/// Read a `TextProperty` payload: raw bytes, base64-decoded, read as UTF-8.
fn read_text_rest(file: &mut ArrayReader, data_size: u32) -> (r: Result<Value, ArkError>)
    requires
        old(file).wf(),
    ensures
        final(file).wf(),
        final(file).bytes() == old(file).bytes(),
        match r {
            Ok(v) => sp_text_rest(old(file).bytes(), data_size, old(file).pos()) == Ok::<
                _,
                ArkError,
            >((v@, final(file).pos())) && old(file).pos() <= final(file).pos(),
            Err(e) => sp_text_rest(old(file).bytes(), data_size, old(file).pos()) == Err::<
                (SpecValue, int),
                _,
            >(e),
        },
{
    let buf = match file.read_bytes(data_size as usize) {
        Ok(v) => v,
        Err(e) => { return Err(e) },
    };
    match base64_decode(&buf) {
        Some(d) => match utf8_string(d) {
            Some(s) => Ok(Value::Str(s)),
            None => Err(ArkError::InvalidString),
        },
        None => Err(ArkError::InvalidString),
    }
}

/// Read a fixed-layout struct payload (no trailing seek).
#[verifier::rlimit(100)]
fn read_struct_fixed(file: &mut ArrayReader, names: &Names, kid: usize) -> (r: Result<
    Value,
    ArkError,
>)
    requires
        old(file).wf(),
        sp_is_fixed_struct(*names, kid),
    ensures
        final(file).wf(),
        final(file).bytes() == old(file).bytes(),
        match r {
            Ok(v) => sp_struct_fixed(old(file).bytes(), *names, kid, old(file).pos()) == Ok::<
                _,
                ArkError,
            >(v@),
            Err(e) => sp_struct_fixed(old(file).bytes(), *names, kid, old(file).pos()) == Err::<
                SpecValue,
                _,
            >(e),
        },
{
    proof {
        reveal(sp_struct_fixed);
    }
    if kid == names.vector_property || kid == names.rotator_property {
        let x = match file.read_f32_bits() {
            Ok(x) => x,
            Err(e) => { return Err(e) },
        };
        let y = match file.read_f32_bits() {
            Ok(x) => x,
            Err(e) => { return Err(e) },
        };
        let z = match file.read_f32_bits() {
            Ok(x) => x,
            Err(e) => { return Err(e) },
        };
        Ok(Value::Vector(x, y, z))
    } else if kid == names.vector2d_property {
        let x = match file.read_f32_bits() {
            Ok(x) => x,
            Err(e) => { return Err(e) },
        };
        let y = match file.read_f32_bits() {
            Ok(x) => x,
            Err(e) => { return Err(e) },
        };
        Ok(Value::Vector2D(x, y))
    } else if kid == names.quat_property {
        let x = match file.read_f32_bits() {
            Ok(x) => x,
            Err(e) => { return Err(e) },
        };
        let y = match file.read_f32_bits() {
            Ok(x) => x,
            Err(e) => { return Err(e) },
        };
        let z = match file.read_f32_bits() {
            Ok(x) => x,
            Err(e) => { return Err(e) },
        };
        let w = match file.read_f32_bits() {
            Ok(x) => x,
            Err(e) => { return Err(e) },
        };
        Ok(Value::Quat(x, y, z, w))
    } else if kid == names.color_property {
        let cb = match file.read_f32_bits() {
            Ok(x) => x,
            Err(e) => { return Err(e) },
        };
        let cg = match file.read_f32_bits() {
            Ok(x) => x,
            Err(e) => { return Err(e) },
        };
        let cr = match file.read_f32_bits() {
            Ok(x) => x,
            Err(e) => { return Err(e) },
        };
        let ca = match file.read_f32_bits() {
            Ok(x) => x,
            Err(e) => { return Err(e) },
        };
        Ok(Value::RGBA(cr, cg, cb, ca))
    } else {
        let cr = match file.read_f32_bits() {
            Ok(x) => x,
            Err(e) => { return Err(e) },
        };
        let cg = match file.read_f32_bits() {
            Ok(x) => x,
            Err(e) => { return Err(e) },
        };
        let cb = match file.read_f32_bits() {
            Ok(x) => x,
            Err(e) => { return Err(e) },
        };
        let ca = match file.read_f32_bits() {
            Ok(x) => x,
            Err(e) => { return Err(e) },
        };
        Ok(Value::RGBA(cr, cg, cb, ca))
    }
}

/// Read a `StructProperty` payload once its kind name is read; whatever the
/// kind consumed, leave the reader at the declared size past the kind.
#[verifier::rlimit(100)]
fn read_struct_rest(file: &mut ArrayReader, names: &Names, data_size: u32, kind: Name) -> (r:
    Result<Value, ArkError>)
    requires
        old(file).wf(),
    ensures
        final(file).wf(),
        final(file).bytes() == old(file).bytes(),
        match r {
            Ok(v) => sp_struct_rest(old(file).bytes(), *names, data_size, kind, old(file).pos())
                == Ok::<_, ArkError>((v@, final(file).pos())) && old(file).pos() <= final(file).pos(),
            Err(e) => sp_struct_rest(old(file).bytes(), *names, data_size, kind, old(file).pos())
                == Err::<(SpecValue, int), _>(e),
        },
    decreases file.bytes().len() - file.pos(), 3int,
{
    proof {
        reveal(sp_struct_rest);
        reveal(sp_prop_list);
    }
    let ghost b = file.bytes();
    let ghost p = file.pos();
    let pstart = file.position();
    let endu = end_of_block(file, pstart, data_size);
    proof {
        assert(endu as int == cap_pos(b, p + data_size as int));
    }
    let kid = kind.id;
    if kid == names.vector_property || kid == names.rotator_property || kid
        == names.vector2d_property || kid == names.quat_property || kid == names.color_property
        || kid == names.linear_color_property {
        proof {
            assert(sp_is_fixed_struct(*names, kid));
        }
        match read_struct_fixed(file, names, kid) {
            Ok(v) => {
                file.seek_to(endu);
                proof {
                    assert(sp_struct_fixed(b, *names, kid, p) == Ok::<SpecValue, ArkError>(v@));
                    assert(sp_struct_rest(b, *names, data_size, kind, p) == Ok::<_, ArkError>((
                        v@,
                        endu as int,
                    )));
                }
                Ok(v)
            },
            Err(e) => Err(e),
        }
    } else if kid == names.unique_netid_property {
        let _pad = match file.read_i32() {
            Ok(x) => x,
            Err(e) => { return Err(e) },
        };
        match file.read_str() {
            Ok(s) => {
                let ghost sv = s@;
                file.seek_to(endu);
                proof {
                    assert(sp_struct_rest(b, *names, data_size, kind, p) == Ok::<_, ArkError>((
                        SpecValue::Str(sv),
                        endu as int,
                    )));
                }
                Ok(Value::Str(s))
            },
            Err(e) => Err(e),
        }
    } else {
        let mut props = Properties::new();
        match props.read(file, names) {
            Ok(()) => {
                file.seek_to(endu);
                proof {
                    match sp_prop_list(b, *names, p) {
                        Ok((recs, _endp)) => {
                            assert(sp_struct_rest(b, *names, data_size, kind, p) == Ok::<
                                _,
                                ArkError,
                            >((
                                SpecValue::Properties(sp_fold_groups(Seq::empty(), recs, *names)),
                                cap_pos(b, p + data_size as int),
                            )));
                        },
                        Err(_) => {
                            assert(false);
                        },
                    }
                }
                Ok(Value::Properties(props))
            },
            Err(e) => Err(e),
        }
    }
}

/// Read one tagged payload, dispatching on the record's type id.
#[verifier::rlimit(100)]
fn read_value(file: &mut ArrayReader, names: &Names, type_id: usize, data_size: u32) -> (r: Result<
    Value,
    ArkError,
>)
    requires
        old(file).wf(),
    ensures
        final(file).wf(),
        final(file).bytes() == old(file).bytes(),
        match r {
            Ok(v) => sp_read_value(old(file).bytes(), *names, type_id, data_size, old(file).pos())
                == Ok::<_, ArkError>((v@, final(file).pos())) && old(file).pos() <= final(file).pos(),
            Err(e) => sp_read_value(old(file).bytes(), *names, type_id, data_size, old(file).pos())
                == Err::<(SpecValue, int), _>(e),
        },
    decreases file.bytes().len() - file.pos(), 1int,
{
    if type_id == names.array_property {
        let et = match file.read_name() {
            Ok(nm) => nm,
            Err(e) => { return Err(e) },
        };
        read_array(file, names, data_size, et)
    } else if type_id == names.bool_property {
        match file.read_u8() {
            Ok(x) => Ok(Value::Bool(x != 0)),
            Err(e) => Err(e),
        }
    } else if type_id == names.byte_property {
        read_byte_rest(file, names)
    } else if type_id == names.double_property {
        match file.read_f64_bits() {
            Ok(x) => Ok(Value::Double(x)),
            Err(e) => Err(e),
        }
    } else if type_id == names.float_property {
        match file.read_f32_bits() {
            Ok(x) => Ok(Value::Float(x)),
            Err(e) => Err(e),
        }
    } else if type_id == names.int16_property {
        match file.read_i16() {
            Ok(x) => Ok(Value::Int16(x)),
            Err(e) => Err(e),
        }
    } else if type_id == names.int8_property {
        match file.read_i8() {
            Ok(x) => Ok(Value::Int8(x)),
            Err(e) => Err(e),
        }
    } else if type_id == names.int_property {
        match file.read_i32() {
            Ok(x) => Ok(Value::Int(x)),
            Err(e) => Err(e),
        }
    } else if type_id == names.name_property {
        match file.read_name() {
            Ok(nm) => Ok(Value::Name(nm)),
            Err(e) => Err(e),
        }
    } else if type_id == names.object_property {
        read_object_rest(file, data_size)
    } else if type_id == names.str_property {
        match file.read_str() {
            Ok(s) => Ok(Value::Str(s)),
            Err(e) => Err(e),
        }
    } else if type_id == names.struct_property {
        let kind = match file.read_name() {
            Ok(nm) => nm,
            Err(e) => { return Err(e) },
        };
        read_struct_rest(file, names, data_size, kind)
    } else if type_id == names.text_property {
        read_text_rest(file, data_size)
    } else if type_id == names.uint16_property {
        match file.read_u16() {
            Ok(x) => Ok(Value::UInt16(x)),
            Err(e) => Err(e),
        }
    } else if type_id == names.uint32_property {
        match file.read_u32() {
            Ok(x) => Ok(Value::UInt32(x)),
            Err(e) => Err(e),
        }
    } else if type_id == names.uint64_property {
        match file.read_u64() {
            Ok(x) => Ok(Value::UInt64(x)),
            Err(e) => Err(e),
        }
    } else {
        Err(ArkError::UnknownPropertyType)
    }
}

impl Properties {
    /// Read a whole property stream into this map, leaving the reader just
    /// past the stream's terminator.
    ///
    /// Sparse indices are stored as the stream gives them: a well-formed
    /// save keeps each group's indices strictly increasing (the data-model
    /// invariant), but the decoder does not reject a stream that breaks it —
    /// the numeric projections define their behavior either way.
    #[verifier::loop_isolation(false)]
    #[verifier::rlimit(100)]
    pub fn read(&mut self, file: &mut ArrayReader, names: &Names) -> (r: Result<(), ArkError>)
        requires
            old(file).wf(),
        ensures
            final(file).wf(),
            final(file).bytes() == old(file).bytes(),
            match r {
                Ok(()) => match sp_prop_list(old(file).bytes(), *names, old(file).pos()) {
                    Ok((recs, endp)) => final(self)@ == sp_fold_groups(old(self)@, recs, *names)
                        && final(file).pos() == endp,
                    Err(_) => false,
                },
                Err(e) => sp_prop_list(old(file).bytes(), *names, old(file).pos()) == Err::<
                    (Seq<SpecProperty>, int),
                    _,
                >(e),
            },
        decreases file.bytes().len() - file.pos(), 2int,
    {
        let ghost b = file.bytes();
        let ghost p0 = file.pos();
        let ghost gs0 = self@;
        loop
            invariant
                file.wf(),
                file.bytes() == b,
                p0 <= file.pos(),
                match sp_prop_list(b, *names, file.pos()) {
                    Ok((recs, endp)) => match sp_prop_list(b, *names, p0) {
                        Ok((recs0, endp0)) => endp0 == endp && sp_fold_groups(gs0, recs0, *names)
                            == sp_fold_groups(self@, recs, *names),
                        Err(_) => false,
                    },
                    Err(e) => sp_prop_list(b, *names, p0) == Err::<(Seq<SpecProperty>, int), _>(e),
                },
            decreases b.len() - file.pos(),
        {
            proof {
                reveal(sp_prop_list);
            }
            let ghost p = file.pos();
            let id_u = match file.read_u32() {
                Ok(x) => x,
                Err(e) => { return Err(e) },
            };
            let id = id_u as usize;
            if id >= names.len() {
                return Err(ArkError::UnknownPropertyType);
            }
            if str_eq(names.get_name(id).as_str(), "None") {
                proof {
                    assert(sp_prop_list(b, *names, p) == Ok::<_, ArkError>((
                        Seq::<SpecProperty>::empty(),
                        p + 4,
                    )));
                    assert(sp_fold_groups(self@, Seq::<SpecProperty>::empty(), *names) == self@);
                }
                return Ok(());
            }
            let instance = match file.read_u32() {
                Ok(x) => x,
                Err(e) => { return Err(e) },
            };
            let type_id_u = match file.read_u32() {
                Ok(x) => x,
                Err(e) => { return Err(e) },
            };
            let type_id = type_id_u as usize;
            file.skip(4);
            let data_size = match file.read_u32() {
                Ok(x) => x,
                Err(e) => { return Err(e) },
            };
            let ind = match file.read_u32() {
                Ok(x) => x,
                Err(e) => { return Err(e) },
            };
            let value = match read_value(file, names, type_id, data_size) {
                Ok(v) => v,
                Err(e) => { return Err(e) },
            };
            let prop = Property { name: Name { id, instance }, ind, value };
            let ghost gs_pre = self@;
            let ghost rec = property_view(prop);
            let ghost p2 = file.pos();
            let nm = names.get_name(id);
            self.add_record(prop, nm);
            proof {
                assert(cap_pos(b, p2) == p2);
                match sp_prop_list(b, *names, p2) {
                    Ok((rest, endp2)) => {
                        assert(sp_prop_list(b, *names, p) == Ok::<_, ArkError>((
                            seq![rec] + rest,
                            endp2,
                        )));
                        assert((seq![rec] + rest).drop_first() =~= rest);
                        assert((seq![rec] + rest)[0] == rec);
                        assert(sp_fold_groups(gs_pre, seq![rec] + rest, *names) == sp_fold_groups(
                            self@,
                            rest,
                            *names,
                        ));
                    },
                    Err(e2) => {
                        assert(sp_prop_list(b, *names, p) == Err::<(Seq<SpecProperty>, int), _>(
                            e2,
                        ));
                    },
                }
            }
        }
    }
}

/// Law: folding records into groups depends on the name table alone, not on
/// which loaded `Names` value carries it.
pub proof fn lemma_fold_groups_congruent(
    gs: Seq<SpecGroup>,
    recs: Seq<SpecProperty>,
    n1: Names,
    n2: Names,
)
    requires
        crate::names::names_equiv(n1, n2),
    ensures
        sp_fold_groups(gs, recs, n1) == sp_fold_groups(gs, recs, n2),
    decreases recs.len(),
{
    if recs.len() > 0 {
        lemma_fold_groups_congruent(
            sp_group_add(gs, recs[0], n1.table()[recs[0].name.id as int]),
            recs.drop_first(),
            n1,
            n2,
        );
    }
}

/// Law: a property stream decodes the same under any two loaded name tables
/// holding the same strings.
#[verifier::rlimit(100)]
pub proof fn lemma_prop_list_congruent(b: Seq<u8>, n1: Names, n2: Names, p: int)
    requires
        crate::names::names_equiv(n1, n2),
    ensures
        sp_prop_list(b, n1, p) == sp_prop_list(b, n2, p),
    decreases b.len() - p, 5int,
{
    reveal(sp_prop_list);
    crate::names::lemma_names_equiv_fields(n1, n2);
    if p + 4 <= b.len() {
        let id = u32_at(b, p) as usize;
        if (id as int) < n1.table().len() && n1.table()[id as int] != "None"@ && p + 24 <= b.len() {
            let type_id = u32_at(b, p + 8) as usize;
            let data_size = u32_at(b, p + 16);
            lemma_value_congruent(b, n1, n2, type_id, data_size, p + 24);
            match sp_read_value(b, n1, type_id, data_size, p + 24) {
                Ok((v, p2)) => {
                    let p3 = cap_pos(b, p2);
                    if p3 > p {
                        lemma_prop_list_congruent(b, n1, n2, p3);
                    }
                },
                Err(_) => {},
            }
        }
    }
}

/// Law: one tagged payload decodes the same under equivalent name tables.
#[verifier::rlimit(100)]
pub proof fn lemma_value_congruent(
    b: Seq<u8>,
    n1: Names,
    n2: Names,
    type_id: usize,
    data_size: u32,
    p: int,
)
    requires
        crate::names::names_equiv(n1, n2),
    ensures
        sp_read_value(b, n1, type_id, data_size, p) == sp_read_value(b, n2, type_id, data_size, p),
    decreases b.len() - p, 4int,
{
    crate::names::lemma_names_equiv_fields(n1, n2);
    if type_id == n1.array_property {
        if p + 8 <= b.len() {
            lemma_array_congruent(b, n1, n2, data_size, p + 8, name_at(b, p));
        }
    } else if type_id == n1.struct_property && type_id != n1.bool_property && type_id
        != n1.byte_property && type_id != n1.double_property && type_id != n1.float_property
        && type_id != n1.int16_property && type_id != n1.int8_property && type_id
        != n1.int_property && type_id != n1.name_property && type_id != n1.object_property
        && type_id != n1.str_property {
        if p + 8 <= b.len() {
            lemma_struct_rest_congruent(b, n1, n2, data_size, name_at(b, p), p + 8);
        }
    }
}

/// Law: an array payload decodes the same under equivalent name tables.
#[verifier::rlimit(100)]
pub proof fn lemma_array_congruent(
    b: Seq<u8>,
    n1: Names,
    n2: Names,
    data_size: u32,
    p: int,
    et: Name,
)
    requires
        crate::names::names_equiv(n1, n2),
    ensures
        sp_read_array(b, n1, data_size, p, et) == sp_read_array(b, n2, data_size, p, et),
    decreases b.len() - p, 3int,
{
    reveal_with_fuel(sp_read_array, 2);
    reveal(sp_prim_array);
    reveal_with_fuel(sp_prop_list, 2);
    crate::names::lemma_names_equiv_fields(n1, n2);
    let eid = et.id;
    if eid == n1.object_property {
        assert(sp_read_array(b, n1, data_size, p, et) == sp_read_array(b, n2, data_size, p, et));
    } else if eid == n1.struct_property {
        if p + 4 <= b.len() {
            let ds = data_size as int;
            let count = sp_count(i32_at(b, p));
            let stride = if count == 0 || ds < 4 {
                0int
            } else {
                ((ds - 4) / 4) / count
            };
            if stride != 1 && stride != 3 && stride != 4 {
                lemma_prop_list_congruent(b, n1, n2, p + 4);
                match sp_prop_list(b, n1, p + 4) {
                    Ok((recs, _)) => {
                        lemma_fold_groups_congruent(Seq::empty(), recs, n1, n2);
                    },
                    Err(_) => {},
                }
            }
        }
        assert(sp_read_array(b, n1, data_size, p, et) =~~= sp_read_array(b, n2, data_size, p, et));
    } else {
        assert(sp_prim_array(b, n1, data_size, p, et) == sp_prim_array(b, n2, data_size, p, et));
        assert(sp_read_array(b, n1, data_size, p, et) == sp_read_array(b, n2, data_size, p, et));
    }
}

/// Law: a struct payload decodes the same under equivalent name tables.
#[verifier::rlimit(100)]
pub proof fn lemma_struct_rest_congruent(
    b: Seq<u8>,
    n1: Names,
    n2: Names,
    data_size: u32,
    kind: Name,
    p: int,
)
    requires
        crate::names::names_equiv(n1, n2),
    ensures
        sp_struct_rest(b, n1, data_size, kind, p) == sp_struct_rest(b, n2, data_size, kind, p),
    decreases b.len() - p, 6int,
{
    reveal_with_fuel(sp_struct_rest, 2);
    reveal(sp_struct_fixed);
    reveal_with_fuel(sp_prop_list, 2);
    crate::names::lemma_names_equiv_fields(n1, n2);
    let kid = kind.id;
    if sp_is_fixed_struct(n1, kid) {
        assert(sp_is_fixed_struct(n2, kid));
        assert(sp_struct_fixed(b, n1, kid, p) == sp_struct_fixed(b, n2, kid, p));
        assert(sp_struct_rest(b, n1, data_size, kind, p) =~~= sp_struct_rest(
            b,
            n2,
            data_size,
            kind,
            p,
        ));
    } else if kid == n1.unique_netid_property {
        assert(sp_struct_rest(b, n1, data_size, kind, p) == sp_struct_rest(
            b,
            n2,
            data_size,
            kind,
            p,
        ));
    } else {
        lemma_prop_list_congruent(b, n1, n2, p);
        match sp_prop_list(b, n1, p) {
            Ok((recs, _)) => {
                lemma_fold_groups_congruent(Seq::empty(), recs, n1, n2);
            },
            Err(_) => {},
        }
        assert(sp_struct_rest(b, n1, data_size, kind, p) == sp_struct_rest(
            b,
            n2,
            data_size,
            kind,
            p,
        ));
    }
}

} // verus!
