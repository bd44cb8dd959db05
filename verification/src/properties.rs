//! The decoded property graph: tagged values, properties, and the ordered,
//! id-grouped property map attached to every object.
//!
//! Floats never appear as such: every float the format carries is held as its
//! raw bit pattern (`u32` for 32-bit, `u64` for 64-bit floats).

use vstd::prelude::*;

use crate::names::Name;
use crate::numeric::{f32_bits_as_i32, f32_bits_to_i32, f64_bits_as_i32, f64_bits_to_i32};
use crate::strings::str_eq;

verus! {

/// A property payload. One variant per value shape the format carries;
/// float payloads hold bit patterns.
#[derive(Debug, PartialEq)]
pub enum Value {
    ArrayOfF32(Vec<u32>),
    ArrayOfF64(Vec<u64>),
    ArrayOfI16(Vec<i16>),
    ArrayOfI32(Vec<i32>),
    ArrayOfI8(Vec<i8>),
    ArrayOfName(Vec<Name>),
    ArrayOfObject(Vec<Value>),
    ArrayOfStruct(Vec<Value>),
    ArrayOfStr(Vec<String>),
    ArrayOfU16(Vec<u16>),
    ArrayOfU32(Vec<u32>),
    ArrayOfU64(Vec<u64>),
    ArrayOfU8(Vec<u8>),
    ArrayOfBool(Vec<bool>),
    Bool(bool),
    Byte(u8),
    Double(u64),
    Enum(Name, Name),
    Float(u32),
    Int16(i16),
    Int8(i8),
    Int(i32),
    Name(Name),
    Properties(Properties),
    Quat(u32, u32, u32, u32),
    RGBA(u32, u32, u32, u32),
    Str(String),
    UInt16(u16),
    UInt32(u32),
    UInt64(u64),
    Vector(u32, u32, u32),
    Vector2D(u32, u32),
}

/// A single property record: its name, its sparse index, and its payload.
#[derive(Debug, PartialEq)]
pub struct Property {
    pub name: Name,
    pub ind: u32,
    pub value: Value,
}

/// All records sharing one name id, in stream order, along with the
/// stringified name they share.
#[derive(Debug, PartialEq)]
pub struct PropertyGroup {
    pub id: usize,
    pub name: String,
    pub props: Vec<Property>,
}

/// An object's properties: groups in first-appearance order of their name id.
#[derive(Debug, PartialEq)]
pub struct Properties {
    pub groups: Vec<PropertyGroup>,
}

/// The mathematical shape of a [`Value`].
pub enum SpecValue {
    ArrayOfF32(Seq<u32>),
    ArrayOfF64(Seq<u64>),
    ArrayOfI16(Seq<i16>),
    ArrayOfI32(Seq<i32>),
    ArrayOfI8(Seq<i8>),
    ArrayOfName(Seq<Name>),
    ArrayOfObject(Seq<SpecValue>),
    ArrayOfStruct(Seq<SpecValue>),
    ArrayOfStr(Seq<Seq<char>>),
    ArrayOfU16(Seq<u16>),
    ArrayOfU32(Seq<u32>),
    ArrayOfU64(Seq<u64>),
    ArrayOfU8(Seq<u8>),
    ArrayOfBool(Seq<bool>),
    Bool(bool),
    Byte(u8),
    Double(u64),
    Enum(Name, Name),
    Float(u32),
    Int16(i16),
    Int8(i8),
    Int(i32),
    Name(Name),
    Properties(Seq<SpecGroup>),
    Quat(u32, u32, u32, u32),
    RGBA(u32, u32, u32, u32),
    Str(Seq<char>),
    UInt16(u16),
    UInt32(u32),
    UInt64(u64),
    Vector(u32, u32, u32),
    Vector2D(u32, u32),
}

/// The mathematical shape of a [`Property`].
pub struct SpecProperty {
    pub name: Name,
    pub ind: u32,
    pub value: SpecValue,
}

/// The mathematical shape of a [`PropertyGroup`].
pub struct SpecGroup {
    pub id: usize,
    pub name: Seq<char>,
    pub props: Seq<SpecProperty>,
}

/// The shape of a [`Value`].
pub open spec fn value_view(v: Value) -> SpecValue
    decreases v,
{
    match v {
        Value::ArrayOfF32(xs) => SpecValue::ArrayOfF32(xs@),
        Value::ArrayOfF64(xs) => SpecValue::ArrayOfF64(xs@),
        Value::ArrayOfI16(xs) => SpecValue::ArrayOfI16(xs@),
        Value::ArrayOfI32(xs) => SpecValue::ArrayOfI32(xs@),
        Value::ArrayOfI8(xs) => SpecValue::ArrayOfI8(xs@),
        Value::ArrayOfName(xs) => SpecValue::ArrayOfName(xs@),
        Value::ArrayOfObject(xs) => SpecValue::ArrayOfObject(values_view(xs@)),
        Value::ArrayOfStruct(xs) => SpecValue::ArrayOfStruct(values_view(xs@)),
        Value::ArrayOfStr(xs) => SpecValue::ArrayOfStr(strings_view(xs@)),
        Value::ArrayOfU16(xs) => SpecValue::ArrayOfU16(xs@),
        Value::ArrayOfU32(xs) => SpecValue::ArrayOfU32(xs@),
        Value::ArrayOfU64(xs) => SpecValue::ArrayOfU64(xs@),
        Value::ArrayOfU8(xs) => SpecValue::ArrayOfU8(xs@),
        Value::ArrayOfBool(xs) => SpecValue::ArrayOfBool(xs@),
        Value::Bool(x) => SpecValue::Bool(x),
        Value::Byte(x) => SpecValue::Byte(x),
        Value::Double(x) => SpecValue::Double(x),
        Value::Enum(t, v) => SpecValue::Enum(t, v),
        Value::Float(x) => SpecValue::Float(x),
        Value::Int16(x) => SpecValue::Int16(x),
        Value::Int8(x) => SpecValue::Int8(x),
        Value::Int(x) => SpecValue::Int(x),
        Value::Name(n) => SpecValue::Name(n),
        Value::Properties(p) => SpecValue::Properties(groups_view(p.groups@)),
        Value::Quat(a, b, c, d) => SpecValue::Quat(a, b, c, d),
        Value::RGBA(a, b, c, d) => SpecValue::RGBA(a, b, c, d),
        Value::Str(s) => SpecValue::Str(s@),
        Value::UInt16(x) => SpecValue::UInt16(x),
        Value::UInt32(x) => SpecValue::UInt32(x),
        Value::UInt64(x) => SpecValue::UInt64(x),
        Value::Vector(a, b, c) => SpecValue::Vector(a, b, c),
        Value::Vector2D(a, b) => SpecValue::Vector2D(a, b),
    }
}

/// The shapes of a sequence of values, elementwise.
pub open spec fn values_view(xs: Seq<Value>) -> Seq<SpecValue>
    decreases xs,
{
    if xs.len() == 0 {
        Seq::empty()
    } else {
        seq![value_view(xs[0])] + values_view(xs.drop_first())
    }
}

/// The views of a sequence of strings, elementwise.
pub open spec fn strings_view(xs: Seq<String>) -> Seq<Seq<char>> {
    xs.map_values(|s: String| s@)
}

/// The shape of a [`Property`].
pub open spec fn property_view(p: Property) -> SpecProperty
    decreases p,
{
    SpecProperty { name: p.name, ind: p.ind, value: value_view(p.value) }
}

/// The shapes of a sequence of properties, elementwise.
pub open spec fn props_view(ps: Seq<Property>) -> Seq<SpecProperty>
    decreases ps,
{
    if ps.len() == 0 {
        Seq::empty()
    } else {
        seq![property_view(ps[0])] + props_view(ps.drop_first())
    }
}

/// The shape of a [`PropertyGroup`].
pub open spec fn group_view(g: PropertyGroup) -> SpecGroup
    decreases g,
{
    SpecGroup { id: g.id, name: g.name@, props: props_view(g.props@) }
}

/// The shapes of a sequence of groups, elementwise.
pub open spec fn groups_view(gs: Seq<PropertyGroup>) -> Seq<SpecGroup>
    decreases gs,
{
    if gs.len() == 0 {
        Seq::empty()
    } else {
        seq![group_view(gs[0])] + groups_view(gs.drop_first())
    }
}

impl View for Value {
    type V = SpecValue;

    open spec fn view(&self) -> SpecValue {
        value_view(*self)
    }
}

impl View for Property {
    type V = SpecProperty;

    open spec fn view(&self) -> SpecProperty {
        property_view(*self)
    }
}

impl View for PropertyGroup {
    type V = SpecGroup;

    open spec fn view(&self) -> SpecGroup {
        group_view(*self)
    }
}

impl View for Properties {
    type V = Seq<SpecGroup>;

    open spec fn view(&self) -> Seq<SpecGroup> {
        groups_view(self.groups@)
    }
}

/// `values_view` maps elementwise.
pub proof fn lemma_values_view(xs: Seq<Value>)
    ensures
        values_view(xs).len() == xs.len(),
        forall|i: int| 0 <= i < xs.len() ==> values_view(xs)[i] == value_view(xs[i]),
    decreases xs.len(),
{
    if xs.len() > 0 {
        lemma_values_view(xs.drop_first());
    }
}

/// `props_view` maps elementwise.
pub proof fn lemma_props_view(ps: Seq<Property>)
    ensures
        props_view(ps).len() == ps.len(),
        forall|i: int| 0 <= i < ps.len() ==> props_view(ps)[i] == property_view(ps[i]),
    decreases ps.len(),
{
    if ps.len() > 0 {
        lemma_props_view(ps.drop_first());
    }
}

/// `groups_view` maps elementwise.
pub proof fn lemma_groups_view(gs: Seq<PropertyGroup>)
    ensures
        groups_view(gs).len() == gs.len(),
        forall|i: int| 0 <= i < gs.len() ==> groups_view(gs)[i] == group_view(gs[i]),
    decreases gs.len(),
{
    if gs.len() > 0 {
        lemma_groups_view(gs.drop_first());
    }
}

/// The first group at or after `i` whose id is `id`, if any.
pub open spec fn sp_find_group_from(gs: Seq<SpecGroup>, id: usize, i: int) -> Option<int>
    decreases gs.len() - i,
{
    if i < 0 || i >= gs.len() {
        None
    } else if gs[i].id == id {
        Some(i)
    } else {
        sp_find_group_from(gs, id, i + 1)
    }
}

/// The first group whose id is `id`, if any.
pub open spec fn sp_find_group(gs: Seq<SpecGroup>, id: usize) -> Option<int> {
    sp_find_group_from(gs, id, 0)
}

/// Law: a found group lies in range, carries the id, and is the first to.
pub proof fn lemma_find_group_from(gs: Seq<SpecGroup>, id: usize, i: int)
    requires
        0 <= i,
    ensures
        match sp_find_group_from(gs, id, i) {
            Some(j) => i <= j < gs.len() && gs[j].id == id && (forall|k: int|
                i <= k < j ==> gs[k].id != id),
            None => forall|k: int| i <= k < gs.len() ==> gs[k].id != id,
        },
    decreases gs.len() - i,
{
    if 0 <= i < gs.len() && gs[i].id != id {
        lemma_find_group_from(gs, id, i + 1);
    }
}

/// How one freshly read record joins the group list: appended to the first
/// group carrying its name id, or opening a new group at the end.
pub open spec fn sp_group_add(gs: Seq<SpecGroup>, p: SpecProperty, name: Seq<char>) -> Seq<
    SpecGroup,
> {
    match sp_find_group(gs, p.name.id) {
        Some(i) => gs.update(i, SpecGroup { props: gs[i].props.push(p), ..gs[i] }),
        None => gs.push(SpecGroup { id: p.name.id, name, props: seq![p] }),
    }
}

/// Is a property with this stringified name present?
pub open spec fn sp_contains_name(gs: Seq<SpecGroup>, s: Seq<char>) -> bool {
    exists|i: int| 0 <= i < gs.len() && (#[trigger] gs[i].name) == s
}

/// The integer a scalar payload projects to, if it is numeric: signed and
/// small unsigned values widen, `u32` reinterprets, `u64` truncates, and
/// float bit patterns truncate toward zero with saturation.
pub open spec fn sp_value_int(v: SpecValue) -> Option<i32> {
    match v {
        SpecValue::Byte(x) => Some(x as i32),
        SpecValue::Double(bits) => Some(f64_bits_to_i32(bits)),
        SpecValue::Float(bits) => Some(f32_bits_to_i32(bits)),
        SpecValue::Int16(x) => Some(x as i32),
        SpecValue::Int8(x) => Some(x as i32),
        SpecValue::Int(x) => Some(x),
        SpecValue::UInt16(x) => Some(x as i32),
        SpecValue::UInt32(x) => Some(x as i32),
        SpecValue::UInt64(x) => Some(x as i32),
        _ => None,
    }
}

/// As [`sp_value_int`], with 0 for a payload that is not numeric.
pub open spec fn sp_value_int0(v: SpecValue) -> i32 {
    match sp_value_int(v) {
        Some(x) => x,
        None => 0,
    }
}

/// What `get_bool` yields: the first record of the group, when boolean.
pub open spec fn sp_get_bool(gs: Seq<SpecGroup>, id: usize) -> Option<bool> {
    match sp_find_group(gs, id) {
        Some(i) => if gs[i].props.len() == 0 {
            None
        } else {
            match gs[i].props[0].value {
                SpecValue::Bool(b) => Some(b),
                _ => None,
            }
        },
        None => None,
    }
}

/// What `get_i32` yields: the first record of the group, when numeric.
pub open spec fn sp_get_i32(gs: Seq<SpecGroup>, id: usize) -> Option<i32> {
    match sp_find_group(gs, id) {
        Some(i) => if gs[i].props.len() == 0 {
            None
        } else {
            sp_value_int(gs[i].props[0].value)
        },
        None => None,
    }
}

/// What `get_str` yields: the first record of the group, when a string.
pub open spec fn sp_get_str(gs: Seq<SpecGroup>, id: usize) -> Option<Seq<char>> {
    match sp_find_group(gs, id) {
        Some(i) => if gs[i].props.len() == 0 {
            None
        } else {
            match gs[i].props[0].value {
                SpecValue::Str(s) => Some(s),
                _ => None,
            }
        },
        None => None,
    }
}

/// What `first_value` yields: the first record's payload under `id`.
pub open spec fn sp_get_first_value(gs: Seq<SpecGroup>, id: usize) -> Option<SpecValue> {
    match sp_find_group(gs, id) {
        Some(i) => if gs[i].props.len() == 0 {
            None
        } else {
            Some(gs[i].props[0].value)
        },
        None => None,
    }
}

/// What `get_first_int` yields: the first record of the group when its
/// payload is a plain `Int`.
pub open spec fn sp_get_first_int(gs: Seq<SpecGroup>, id: usize) -> Option<i32> {
    match sp_find_group(gs, id) {
        Some(i) => if gs[i].props.len() == 0 {
            None
        } else {
            match gs[i].props[0].value {
                SpecValue::Int(v) => Some(v),
                _ => None,
            }
        },
        None => None,
    }
}

/// `n` zeros.
pub open spec fn sp_zeros(n: int) -> Seq<i32> {
    Seq::new(if n < 0 {
        0
    } else {
        n as nat
    }, |i: int| 0i32)
}

/// Validity of a record sequence's sparse indices: strictly increasing, so
/// each index appears once and never steps backward. This is the data-model
/// invariant of a well-formed save. The decoder does not enforce it — it
/// stores indices as the stream gives them — so it is an assumption on the
/// input, not a postcondition of decoding; [`lemma_vec_int_sparse`] states
/// the exact placement of the sparse projection under it, and for any other
/// sequence the cursor walk of [`sp_vec_int_rec`] is the defined behavior.
pub open spec fn sp_inds_strictly_increasing(props: Seq<SpecProperty>) -> bool {
    forall|j: int, k: int| 0 <= j < k < props.len() ==> props[j].ind < props[k].ind
}

/// The sparse-array projection of a record sequence: walking the records in
/// order with a cursor, each record first pads with zeros up to its sparse
/// index (when that index lies ahead of the cursor), then contributes its
/// numeric value. Indices that step backward contribute right at the cursor;
/// see [`sp_inds_strictly_increasing`] for the well-formed case.
pub open spec fn sp_vec_int_rec(props: Seq<SpecProperty>, cursor: int, acc: Seq<i32>) -> Seq<i32>
    decreases props.len(),
{
    if props.len() == 0 {
        acc
    } else {
        let p = props[0];
        let gap = if p.ind > cursor {
            p.ind - cursor
        } else {
            0
        };
        let next = if p.ind > cursor {
            p.ind + 1
        } else {
            cursor + 1
        };
        sp_vec_int_rec(props.drop_first(), next, acc + sp_zeros(gap) + seq![sp_value_int0(p.value)])
    }
}

/// What `get_vec_int` yields: the sparse-array projection of the group's
/// records, or the empty vector for an absent id.
pub open spec fn sp_get_vec_int(gs: Seq<SpecGroup>, id: usize) -> Seq<i32> {
    match sp_find_group(gs, id) {
        Some(i) => sp_vec_int_rec(gs[i].props, 0, Seq::empty()),
        None => Seq::empty(),
    }
}

/// The numeric projection of a payload, with 0 for a non-numeric one.
fn value_int0(v: &Value) -> (r: i32)
    ensures
        r == sp_value_int0(v@),
{
    match v {
        Value::Byte(x) => *x as i32,
        Value::Double(bits) => f64_bits_as_i32(*bits),
        Value::Float(bits) => f32_bits_as_i32(*bits),
        Value::Int16(x) => *x as i32,
        Value::Int8(x) => *x as i32,
        Value::Int(x) => *x,
        Value::UInt16(x) => *x as i32,
        Value::UInt32(x) => {
            #[verifier::truncate]
            (*x as i32)
        },
        Value::UInt64(x) => {
            #[verifier::truncate]
            (*x as i32)
        },
        _ => 0,
    }
}

impl Properties {
    /// An empty property map.
    pub fn new() -> (r: Properties)
        ensures
            r@ == Seq::<SpecGroup>::empty(),
    {
        Properties { groups: Vec::new() }
    }

    /// Find the index of the group carrying `id`.
    fn find_group(&self, id: usize) -> (r: Option<usize>)
        ensures
            match r {
                Some(i) => sp_find_group(self@, id) == Some(i as int) && i < self.groups@.len(),
                None => sp_find_group(self@, id) is None,
            },
    {
        proof {
            lemma_groups_view(self.groups@);
        }
        let mut i: usize = 0;
        while i < self.groups.len()
            invariant
                groups_view(self.groups@).len() == self.groups@.len(),
                forall|k: int|
                    0 <= k < self.groups@.len() ==> groups_view(self.groups@)[k] == group_view(
                        self.groups@[k],
                    ),
                0 <= i,
                sp_find_group(self@, id) == sp_find_group_from(self@, id, i as int),
            decreases self.groups@.len() - i,
        {
            if self.groups[i].id == id {
                return Some(i);
            }
            i = i + 1;
        }
        None
    }

    /// Append one freshly decoded record, keyed by its name id, opening a new
    /// group (tagged with the record's stringified name) on first appearance.
    pub fn add_record(&mut self, p: Property, name: &String)
        ensures
            final(self)@ == sp_group_add(old(self)@, p@, name@),
    {
        proof {
            lemma_groups_view(self.groups@);
        }
        let id = p.name.id;
        match self.find_group(id) {
            Some(i) => {
                let ghost gs0 = self.groups@;
                let g = &mut self.groups[i];
                g.props.push(p);
                proof {
                    lemma_props_view(gs0[i as int].props@);
                    lemma_props_view(self.groups@[i as int].props@);
                    assert(self.groups@ =~= gs0.update(i as int, self.groups@[i as int]));
                    assert(group_view(self.groups@[i as int]).props =~= group_view(
                        gs0[i as int],
                    ).props.push(property_view(p)));
                    lemma_groups_view(self.groups@);
                    lemma_groups_view(gs0);
                    assert(groups_view(self.groups@) =~= groups_view(gs0).update(
                        i as int,
                        group_view(self.groups@[i as int]),
                    ));
                }
            },
            None => {
                let ghost gs0 = self.groups@;
                self.groups.push(PropertyGroup { id, name: name.clone(), props: vec![p] });
                proof {
                    lemma_groups_view(self.groups@);
                    lemma_groups_view(gs0);
                    assert(group_view(self.groups@[gs0.len() as int]).props =~= seq![
                        property_view(p),
                    ]);
                    assert(groups_view(self.groups@) =~= groups_view(gs0).push(
                        group_view(self.groups@[gs0.len() as int]),
                    ));
                }
            },
        }
    }

    /// Is a property with this stringified name present?
    pub fn contains(&self, name: &str) -> (r: bool)
        ensures
            r == sp_contains_name(self@, name@),
    {
        proof {
            lemma_groups_view(self.groups@);
        }
        let mut i: usize = 0;
        while i < self.groups.len()
            invariant
                groups_view(self.groups@).len() == self.groups@.len(),
                forall|k: int|
                    0 <= k < self.groups@.len() ==> groups_view(self.groups@)[k] == group_view(
                        self.groups@[k],
                    ),
                0 <= i <= self.groups@.len(),
                forall|k: int| 0 <= k < i ==> (#[trigger] self@[k].name) != name@,
            decreases self.groups@.len() - i,
        {
            if str_eq(self.groups[i].name.as_str(), name) {
                assert(self@[i as int].name == name@);
                return true;
            }
            i = i + 1;
        }
        false
    }

    /// Is a property with this name id present?
    pub fn contains_id(&self, id: usize) -> (r: bool)
        ensures
            r == (sp_find_group(self@, id) is Some),
    {
        self.find_group(id).is_some()
    }

    /// The first record under `id`, when boolean.
    pub fn get_bool(&self, id: usize) -> (r: Option<bool>)
        ensures
            r == sp_get_bool(self@, id),
    {
        proof {
            lemma_groups_view(self.groups@);
        }
        match self.find_group(id) {
            Some(i) => {
                let g = &self.groups[i];
                proof {
                    lemma_props_view(g.props@);
                }
                if g.props.len() == 0 {
                    None
                } else {
                    match &g.props[0].value {
                        Value::Bool(b) => Some(*b),
                        _ => None,
                    }
                }
            },
            None => None,
        }
    }

    /// The first record under `id` projected to an integer, when numeric.
    pub fn get_i32(&self, id: usize) -> (r: Option<i32>)
        ensures
            r == sp_get_i32(self@, id),
    {
        proof {
            lemma_groups_view(self.groups@);
        }
        match self.find_group(id) {
            Some(i) => {
                let g = &self.groups[i];
                proof {
                    lemma_props_view(g.props@);
                }
                if g.props.len() == 0 {
                    None
                } else {
                    let v = &g.props[0].value;
                    match v {
                        Value::Byte(_) | Value::Double(_) | Value::Float(_) | Value::Int16(_)
                            | Value::Int8(_) | Value::Int(_) | Value::UInt16(_) | Value::UInt32(_)
                            | Value::UInt64(_) => Some(value_int0(v)),
                        _ => None,
                    }
                }
            },
            None => None,
        }
    }

    /// The first record under `id`, when a string.
    pub fn get_str(&self, id: usize) -> (r: Option<&str>)
        ensures
            match r {
                Some(s) => sp_get_str(self@, id) == Some(s@),
                None => sp_get_str(self@, id) is None,
            },
    {
        proof {
            lemma_groups_view(self.groups@);
        }
        match self.find_group(id) {
            Some(i) => {
                let g = &self.groups[i];
                proof {
                    lemma_props_view(g.props@);
                }
                if g.props.len() == 0 {
                    None
                } else {
                    match &g.props[0].value {
                        Value::Str(s) => Some(s.as_str()),
                        _ => None,
                    }
                }
            },
            None => None,
        }
    }

    /// The first record's payload under `id`.
    pub fn first_value(&self, id: usize) -> (r: Option<&Value>)
        ensures
            match r {
                Some(v) => sp_get_first_value(self@, id) == Some(v@),
                None => sp_get_first_value(self@, id) is None,
            },
    {
        proof {
            lemma_groups_view(self.groups@);
        }
        match self.find_group(id) {
            Some(i) => {
                let g = &self.groups[i];
                proof {
                    lemma_props_view(g.props@);
                }
                if g.props.len() == 0 {
                    None
                } else {
                    Some(&g.props[0].value)
                }
            },
            None => None,
        }
    }

    /// The first record under `id` when its payload is a plain `Int`.
    pub fn get_first_int(&self, id: usize) -> (r: Option<i32>)
        ensures
            r == sp_get_first_int(self@, id),
    {
        proof {
            lemma_groups_view(self.groups@);
        }
        match self.find_group(id) {
            Some(i) => {
                let g = &self.groups[i];
                proof {
                    lemma_props_view(g.props@);
                }
                if g.props.len() == 0 {
                    None
                } else {
                    match &g.props[0].value {
                        Value::Int(v) => Some(*v),
                        _ => None,
                    }
                }
            },
            None => None,
        }
    }

    /// The sparse-array projection of the records under `id`: zeros fill the
    /// gaps the sparse indices skip over. For a well-formed group (indices
    /// strictly increasing, see [`sp_inds_strictly_increasing`]) each value
    /// lands at its own index; indices that step backward land at the
    /// cursor, as the walk of [`sp_vec_int_rec`] defines.
    pub fn get_vec_int(&self, id: usize) -> (r: Vec<i32>)
        ensures
            r@ == sp_get_vec_int(self@, id),
    {
        proof {
            lemma_groups_view(self.groups@);
        }
        let mut list: Vec<i32> = Vec::new();
        let gi = match self.find_group(id) {
            Some(i) => i,
            None => { return list },
        };
        let g = &self.groups[gi];
        proof {
            lemma_props_view(g.props@);
        }
        let ghost ps = props_view(g.props@);
        let ghost target = sp_vec_int_rec(ps, 0, Seq::empty());
        proof {
            assert(ps.skip(0) =~= ps);
        }
        let mut k: usize = 0;
        while k < g.props.len()
            invariant
                props_view(g.props@).len() == g.props@.len(),
                forall|j: int|
                    0 <= j < g.props@.len() ==> props_view(g.props@)[j] == property_view(
                        g.props@[j],
                    ),
                ps == props_view(g.props@),
                target == sp_vec_int_rec(ps, 0, Seq::empty()),
                0 <= k <= g.props@.len(),
                sp_vec_int_rec(ps.skip(k as int), list@.len() as int, list@) == target,
            decreases g.props@.len() - k,
        {
            let p = &g.props[k];
            let ghost pre = list@;
            let ghost cur0 = pre.len() as int;
            let ghost gap = if p.ind as int > cur0 {
                p.ind - cur0
            } else {
                0
            };
            while (list.len() as u64) < (p.ind as u64)
                invariant
                    cur0 <= list@.len(),
                    list@.len() <= (if p.ind as int > cur0 {
                        p.ind as int
                    } else {
                        cur0
                    }),
                    list@ =~= pre + sp_zeros(list@.len() - cur0),
                decreases p.ind as int - list@.len(),
            {
                list.push(0);
                proof {
                    assert(list@ =~= pre + sp_zeros(list@.len() - cur0));
                }
            }
            proof {
                assert(list@ =~= pre + sp_zeros(gap));
            }
            list.push(value_int0(&p.value));
            proof {
                let sp = property_view(*p);
                assert(ps.skip(k as int)[0] == sp);
                assert(ps.skip(k as int).drop_first() =~= ps.skip(k as int + 1));
                assert(list@ =~= pre + sp_zeros(gap) + seq![sp_value_int0(sp.value)]);
                assert(list@.len() as int == (if sp.ind as int > cur0 {
                    sp.ind + 1
                } else {
                    cur0 + 1
                }));
            }
            k = k + 1;
        }
        proof {
            assert(ps.skip(ps.len() as int) =~= Seq::<SpecProperty>::empty());
        }
        list
    }
}

/// Law: when a record sequence satisfies the sparse-index validity
/// predicate and its indices start at or past the cursor, the projection
/// keeps what was already laid down, places every record's value at its own
/// sparse index, fills the gaps with zeros, and ends one past the last
/// index.
pub proof fn lemma_vec_int_sparse(props: Seq<SpecProperty>, cursor: int, acc: Seq<i32>)
    requires
        0 <= cursor,
        acc.len() == cursor,
        sp_inds_strictly_increasing(props),
        forall|j: int| 0 <= j < props.len() ==> cursor <= (#[trigger] props[j].ind),
    ensures
        sp_vec_int_rec(props, cursor, acc).len() == (if props.len() == 0 {
            acc.len() as int
        } else {
            props.last().ind + 1
        }),
        forall|i: int|
            0 <= i < acc.len() ==> (#[trigger] sp_vec_int_rec(props, cursor, acc)[i]) == acc[i],
        forall|j: int|
            0 <= j < props.len() ==> sp_vec_int_rec(props, cursor, acc)[(
            #[trigger] props[j].ind) as int] == sp_value_int0(props[j].value),
        forall|i: int|
            cursor <= i < sp_vec_int_rec(props, cursor, acc).len() && (forall|j: int|
                0 <= j < props.len() ==> (#[trigger] props[j].ind) != i) ==> sp_vec_int_rec(
                props,
                cursor,
                acc,
            )[i] == 0,
    decreases props.len(),
{
    if props.len() > 0 {
        let p = props[0];
        let gap = if p.ind > cursor {
            p.ind - cursor
        } else {
            0
        };
        let next = if p.ind > cursor {
            p.ind + 1
        } else {
            cursor + 1
        };
        let acc2 = acc + sp_zeros(gap) + seq![sp_value_int0(p.value)];
        assert(acc2.len() == next);
        assert(acc2[p.ind as int] == sp_value_int0(p.value));
        lemma_vec_int_sparse(props.drop_first(), next, acc2);
        assert(forall|j: int|
            0 <= j < props.drop_first().len() ==> (#[trigger] props.drop_first()[j].ind) == props[
                j + 1
            ].ind && next <= props.drop_first()[j].ind);
        assert(sp_vec_int_rec(props, cursor, acc) == sp_vec_int_rec(
            props.drop_first(),
            next,
            acc2,
        ));
        assert(forall|j: int|
            1 <= j < props.len() ==> sp_vec_int_rec(props, cursor, acc)[(
            #[trigger] props[j].ind) as int] == sp_value_int0(props[j].value)) by {
            assert(forall|j: int|
                0 <= j < props.drop_first().len() ==> sp_vec_int_rec(props.drop_first(), next, acc2)[
                    (#[trigger] props.drop_first()[j].ind) as int
                ] == sp_value_int0(props.drop_first()[j].value));
            assert(forall|j: int|
                1 <= j < props.len() ==> props.drop_first()[j - 1] == (#[trigger] props[j]));
        }
    }
}

} // verus!
