//! The deduplicated name table: every class and property name in a save is an
//! integer id into this table. Index 0 holds a placeholder and is never a real
//! name; file entries start at index 1.

use vstd::prelude::*;
use vstd::string::StringExecFns;

use crate::error::ArkError;
use crate::reader::{u32_at, ArrayReader, str_read_at};
use crate::strings::str_eq;

verus! {

/// A name reference: an id into the name table plus an instance number that
/// disambiguates repeated class names.
#[derive(Clone, Copy, Debug, PartialEq, Eq, Structural)]
pub struct Name {
    pub id: usize,
    pub instance: u32,
}

/// The name reference stored at `p`: two little-endian `u32`s.
pub open spec fn name_at(b: Seq<u8>, p: int) -> Name {
    Name { id: u32_at(b, p) as usize, instance: u32_at(b, p + 4) }
}

impl<'a> ArrayReader<'a> {
    /// Read a name reference: id then instance.
    pub fn read_name(&mut self) -> (r: Result<Name, ArkError>)
        requires
            old(self).wf(),
        ensures
            final(self).wf(),
            final(self).bytes() == old(self).bytes(),
            match r {
                Ok(nm) => old(self).pos() + 8 <= old(self).bytes().len() && nm == name_at(
                    old(self).bytes(),
                    old(self).pos(),
                ) && final(self).pos() == old(self).pos() + 8,
                Err(e) => e == ArkError::UnexpectedEof && old(self).pos() + 8 > old(
                    self,
                ).bytes().len(),
            },
    {
        let id = match self.read_u32() {
            Ok(v) => v,
            Err(e) => { return Err(e) },
        };
        let instance = match self.read_u32() {
            Ok(v) => v,
            Err(e) => { return Err(e) },
        };
        Ok(Name { id: id as usize, instance })
    }
}

/// The placeholder stored at index 0 of every name table.
pub open spec fn placeholder_name() -> Seq<char> {
    "-----"@
}

/// The table entries stored at `p`: `k` length-prefixed strings in a row,
/// and the position after them.
pub open spec fn names_entries_at(b: Seq<u8>, p: int, k: int) -> Result<
    (Seq<Seq<char>>, int),
    ArkError,
>
    decreases k,
{
    if k <= 0 {
        Ok((Seq::empty(), p))
    } else {
        match str_read_at(b, p) {
            Err(e) => Err(e),
            Ok((s, p2)) => match names_entries_at(b, p2, k - 1) {
                Err(e) => Err(e),
                Ok((rest, p3)) => Ok((seq![s] + rest, p3)),
            },
        }
    }
}

/// The whole name table stored at absolute offset `off`: a count, then that
/// many strings, with the placeholder prepended at index 0. A count below one
/// yields a table holding only the placeholder.
pub open spec fn names_list_at(b: Seq<u8>, off: int) -> Result<Seq<Seq<char>>, ArkError> {
    if off + 4 > b.len() {
        Err(ArkError::UnexpectedEof)
    } else {
        let count = u32_at(b, off) as i32 as int;
        let k = if count < 1 {
            0
        } else {
            count
        };
        match names_entries_at(b, off + 4, k) {
            Err(e) => Err(e),
            Ok((entries, _)) => Ok(seq![placeholder_name()] + entries),
        }
    }
}

/// The first index at or after `i` holding `s`, if any.
pub open spec fn spec_lookup_from(nt: Seq<Seq<char>>, s: Seq<char>, i: int) -> Option<int>
    decreases nt.len() - i,
{
    if i < 0 || i >= nt.len() {
        None
    } else if nt[i] == s {
        Some(i)
    } else {
        spec_lookup_from(nt, s, i + 1)
    }
}

/// The id of `s` in the table: the first index from 1 on holding `s`.
/// Index 0 (the placeholder) is never reported.
pub open spec fn spec_lookup(nt: Seq<Seq<char>>, s: Seq<char>) -> Option<int> {
    spec_lookup_from(nt, s, 1)
}

/// The id of `s`, with 0 standing in for a name that is absent.
pub open spec fn spec_lookup0(nt: Seq<Seq<char>>, s: Seq<char>) -> int {
    match spec_lookup(nt, s) {
        Some(i) => i,
        None => 0,
    }
}

/// Law: a lookup that reports an id found that very name there, and a lookup
/// that reports nothing found it nowhere past the placeholder.
pub proof fn lemma_lookup_from(nt: Seq<Seq<char>>, s: Seq<char>, i: int)
    requires
        0 <= i,
    ensures
        match spec_lookup_from(nt, s, i) {
            Some(j) => i <= j < nt.len() && nt[j] == s && (forall|k: int|
                0 <= k && i <= k < j ==> nt[k] != s),
            None => forall|k: int| 0 <= k && i <= k < nt.len() ==> nt[k] != s,
        },
    decreases nt.len() - i,
{
    if 0 <= i < nt.len() && nt[i] != s {
        lemma_lookup_from(nt, s, i + 1);
    }
}

/// Law: if a name is reported present at id `j`, the table holds it at `j`;
/// if absent, no entry past the placeholder holds it.
pub proof fn lemma_lookup_index(nt: Seq<Seq<char>>, s: Seq<char>)
    ensures
        match spec_lookup(nt, s) {
            Some(j) => 1 <= j < nt.len() && nt[j] == s,
            None => forall|k: int| 1 <= k < nt.len() ==> nt[k] != s,
        },
{
    lemma_lookup_from(nt, s, 1);
    if spec_lookup(nt, s) is None {
        assert(forall|k: int| 1 <= k < nt.len() ==> nt[k] != s) by {
            assert(forall|k: int| 0 <= k && 1 <= k < nt.len() ==> nt[k] != s);
        }
    }
}

/// Find the id of `name` in a string table, searching from index 1.
fn lookup_vec(names: &Vec<String>, name: &str) -> (r: Option<usize>)
    ensures
        match r {
            Some(i) => spec_lookup(names@.map_values(|s: String| s@), name@) == Some(i as int),
            None => spec_lookup(names@.map_values(|s: String| s@), name@) is None,
        },
{
    let ghost nt = names@.map_values(|s: String| s@);
    let mut i: usize = 1;
    while i < names.len()
        invariant
            nt == names@.map_values(|s: String| s@),
            1 <= i,
            spec_lookup(nt, name@) == spec_lookup_from(nt, name@, i as int),
        decreases names@.len() - i,
    {
        if str_eq(names[i].as_str(), name) {
            return Some(i);
        }
        i = i + 1;
    }
    None
}

/// The id of `name` in a freshly read string table, with 0 for a name that
/// the table lacks.
pub fn name_id(names: &Vec<String>, name: &str) -> (r: usize)
    ensures
        r as int == spec_lookup0(names@.map_values(|s: String| s@), name@),
{
    match lookup_vec(names, name) {
        Some(i) => i,
        None => 0,
    }
}

/// The loaded name table, with the ids of the well-known type tags computed
/// once at construction. A well-known tag the table lacks resolves to the
/// sentinel id 0.
pub struct Names {
    pub names: Vec<String>,
    pub array_property: usize,
    pub bool_property: usize,
    pub byte_property: usize,
    pub color_property: usize,
    pub double_property: usize,
    pub float_property: usize,
    pub int16_property: usize,
    pub int8_property: usize,
    pub int_property: usize,
    pub linear_color_property: usize,
    pub name_property: usize,
    pub object_property: usize,
    pub quat_property: usize,
    pub rotator_property: usize,
    pub str_property: usize,
    pub struct_property: usize,
    pub text_property: usize,
    pub uint16_property: usize,
    pub uint32_property: usize,
    pub uint64_property: usize,
    pub unique_netid_property: usize,
    pub vector_property: usize,
    pub vector2d_property: usize,
}

impl Names {
    /// The interned strings, by id.
    pub open spec fn table(self) -> Seq<Seq<char>> {
        self.names@.map_values(|s: String| s@)
    }

    /// Every well-known id field holds the lookup of its tag.
    pub open spec fn wf(self) -> bool {
        &&& self.array_property as int == spec_lookup0(self.table(), "ArrayProperty"@)
        &&& self.bool_property as int == spec_lookup0(self.table(), "BoolProperty"@)
        &&& self.byte_property as int == spec_lookup0(self.table(), "ByteProperty"@)
        &&& self.color_property as int == spec_lookup0(self.table(), "Color"@)
        &&& self.double_property as int == spec_lookup0(self.table(), "DoubleProperty"@)
        &&& self.float_property as int == spec_lookup0(self.table(), "FloatProperty"@)
        &&& self.int16_property as int == spec_lookup0(self.table(), "Int16Property"@)
        &&& self.int8_property as int == spec_lookup0(self.table(), "Int8Property"@)
        &&& self.int_property as int == spec_lookup0(self.table(), "IntProperty"@)
        &&& self.linear_color_property as int == spec_lookup0(self.table(), "LinearColor"@)
        &&& self.name_property as int == spec_lookup0(self.table(), "NameProperty"@)
        &&& self.object_property as int == spec_lookup0(self.table(), "ObjectProperty"@)
        &&& self.quat_property as int == spec_lookup0(self.table(), "Quat"@)
        &&& self.rotator_property as int == spec_lookup0(self.table(), "Rotator"@)
        &&& self.str_property as int == spec_lookup0(self.table(), "StrProperty"@)
        &&& self.struct_property as int == spec_lookup0(self.table(), "StructProperty"@)
        &&& self.text_property as int == spec_lookup0(self.table(), "TextProperty"@)
        &&& self.uint16_property as int == spec_lookup0(self.table(), "UInt16Property"@)
        &&& self.uint32_property as int == spec_lookup0(self.table(), "UInt32Property"@)
        &&& self.uint64_property as int == spec_lookup0(self.table(), "UInt64Property"@)
        &&& self.unique_netid_property as int == spec_lookup0(self.table(), "UniqueNetIdRepl"@)
        &&& self.vector_property as int == spec_lookup0(self.table(), "Vector"@)
        &&& self.vector2d_property as int == spec_lookup0(self.table(), "Vector2D"@)
    }

    /// Load the table from absolute offset `class_offset`, then restore the
    /// reader to where it stood.
    #[verifier::loop_isolation(false)]
    pub fn new(file: &mut ArrayReader, class_offset: usize) -> (r: Result<Names, ArkError>)
        requires
            old(file).wf(),
        ensures
            final(file).wf(),
            final(file).bytes() == old(file).bytes(),
            match r {
                Ok(nm) => names_list_at(old(file).bytes(), class_offset as int) == Ok::<
                    _,
                    ArkError,
                >(nm.table()) && nm.wf() && nm.table().len() >= 1 && nm.table()[0]
                    == placeholder_name() && final(file).pos() == old(file).pos(),
                Err(e) => names_list_at(old(file).bytes(), class_offset as int) == Err::<
                    Seq<Seq<char>>,
                    _,
                >(e),
            },
    {
        let current_pos = file.position();
        file.seek_to(class_offset);
        proof {
            if class_offset as int + 4 > file.bytes().len() {
                assert(file.pos() + 4 > file.bytes().len());
            }
        }
        let name_count = match file.read_i32() {
            Ok(v) => v,
            Err(e) => { return Err(e) },
        };
        let n: usize = if name_count < 1 {
            0
        } else {
            name_count as usize
        };
        let ghost q0 = file.pos();
        let mut names: Vec<String> = Vec::new();
        names.push(String::from_str("-----"));
        proof {
            assert(names@.map_values(|s: String| s@) =~= seq![placeholder_name()]);
        }
        let mut i: usize = 0;
        while i < n
            invariant
                file.wf(),
                file.bytes() == old(file).bytes(),
                0 <= i <= n,
                names@.len() == i + 1,
                names@.map_values(|s: String| s@)[0] == placeholder_name(),
                match names_entries_at(file.bytes(), file.pos(), n - i) {
                    Ok((rest, pend)) => names_entries_at(file.bytes(), q0, n as int) == Ok::<
                        _,
                        ArkError,
                    >((names@.map_values(|s: String| s@).skip(1) + rest, pend)),
                    Err(e) => names_entries_at(file.bytes(), q0, n as int) == Err::<
                        (Seq<Seq<char>>, int),
                        _,
                    >(e),
                },
            decreases n - i,
        {
            let ghost pre = names@.map_values(|s: String| s@);
            let ghost p = file.pos();
            let s = match file.read_str() {
                Ok(v) => v,
                Err(e) => {
                    proof {
                        assert(names_entries_at(file.bytes(), p, n - i) == Err::<
                            (Seq<Seq<char>>, int),
                            ArkError,
                        >(e));
                    }
                    return Err(e);
                },
            };
            names.push(s);
            proof {
                let post = names@.map_values(|ss: String| ss@);
                assert(post =~= pre + seq![s@]);
                assert(post.skip(1) =~= pre.skip(1) + seq![s@]);
                let p2 = file.pos();
                match names_entries_at(file.bytes(), p2, n - i - 1) {
                    Ok((rest2, pend)) => {
                        assert(names_entries_at(file.bytes(), p, n - i) == Ok::<_, ArkError>((
                            seq![s@] + rest2,
                            pend,
                        )));
                        assert(post.skip(1) + rest2 =~= pre.skip(1) + (seq![s@] + rest2));
                    },
                    Err(e2) => {
                        assert(names_entries_at(file.bytes(), p, n - i) == Err::<
                            (Seq<Seq<char>>, int),
                            ArkError,
                        >(e2));
                    },
                }
            }
            i = i + 1;
        }
        proof {
            assert(names_entries_at(file.bytes(), file.pos(), 0) == Ok::<_, ArkError>((
                Seq::<Seq<char>>::empty(),
                file.pos(),
            )));
            let tail = names@.map_values(|s: String| s@).skip(1);
            assert(tail + Seq::<Seq<char>>::empty() =~= tail);
        }
        file.seek_to(current_pos);
        proof {
            let nt = names@.map_values(|s: String| s@);
            let b = file.bytes();
            let off = class_offset as int;
            assert(off + 4 <= b.len());
            assert(q0 == off + 4);
            match names_entries_at(b, q0, n as int) {
                Ok((entries, pend)) => {
                    assert(nt.skip(1) == entries);
                    assert(names_list_at(b, off) == Ok::<_, ArkError>(
                        seq![placeholder_name()] + entries,
                    ));
                    assert(seq![placeholder_name()] + entries =~= nt);
                },
                Err(_) => {
                    assert(false);
                },
            }
        }
        let array_property = name_id(&names, "ArrayProperty");
        let bool_property = name_id(&names, "BoolProperty");
        let byte_property = name_id(&names, "ByteProperty");
        let color_property = name_id(&names, "Color");
        let double_property = name_id(&names, "DoubleProperty");
        let float_property = name_id(&names, "FloatProperty");
        let int16_property = name_id(&names, "Int16Property");
        let int8_property = name_id(&names, "Int8Property");
        let int_property = name_id(&names, "IntProperty");
        let linear_color_property = name_id(&names, "LinearColor");
        let name_property = name_id(&names, "NameProperty");
        let object_property = name_id(&names, "ObjectProperty");
        let quat_property = name_id(&names, "Quat");
        let rotator_property = name_id(&names, "Rotator");
        let str_property = name_id(&names, "StrProperty");
        let struct_property = name_id(&names, "StructProperty");
        let text_property = name_id(&names, "TextProperty");
        let uint16_property = name_id(&names, "UInt16Property");
        let uint32_property = name_id(&names, "UInt32Property");
        let uint64_property = name_id(&names, "UInt64Property");
        let unique_netid_property = name_id(&names, "UniqueNetIdRepl");
        let vector_property = name_id(&names, "Vector");
        let vector2d_property = name_id(&names, "Vector2D");
        Ok(
            Names {
                names,
                array_property,
                bool_property,
                byte_property,
                color_property,
                double_property,
                float_property,
                int16_property,
                int8_property,
                int_property,
                linear_color_property,
                name_property,
                object_property,
                quat_property,
                rotator_property,
                str_property,
                struct_property,
                text_property,
                uint16_property,
                uint32_property,
                uint64_property,
                unique_netid_property,
                vector_property,
                vector2d_property,
            },
        )
    }

    /// How many entries the table holds, the placeholder included.
    pub fn len(&self) -> (r: usize)
        ensures
            r == self.table().len(),
    {
        self.names.len()
    }

    /// The string interned at `id`.
    pub fn get_name(&self, id: usize) -> (r: &String)
        requires
            id < self.table().len(),
        ensures
            r@ == self.table()[id as int],
    {
        &self.names[id]
    }

    /// The id of `name`, if the table holds it past the placeholder.
    pub fn get_name_id(&self, name: &str) -> (r: Option<usize>)
        ensures
            match r {
                Some(i) => spec_lookup(self.table(), name@) == Some(i as int),
                None => spec_lookup(self.table(), name@) is None,
            },
    {
        lookup_vec(&self.names, name)
    }

    /// The id of `name`, with the sentinel 0 for an absent name.
    pub fn get_name_id_or_zero(&self, name: &str) -> (r: usize)
        ensures
            r as int == spec_lookup0(self.table(), name@),
    {
        name_id(&self.names, name)
    }
}

/// Two loaded name tables with the same interned strings resolve every
/// well-known tag alike: the id fields are lookups of the table.
pub open spec fn names_equiv(n1: Names, n2: Names) -> bool {
    n1.table() == n2.table() && n1.wf() && n2.wf()
}

/// Law: equivalent name tables agree on every well-known id field.
pub proof fn lemma_names_equiv_fields(n1: Names, n2: Names)
    requires
        names_equiv(n1, n2),
    ensures
        n1.array_property == n2.array_property,
        n1.bool_property == n2.bool_property,
        n1.byte_property == n2.byte_property,
        n1.color_property == n2.color_property,
        n1.double_property == n2.double_property,
        n1.float_property == n2.float_property,
        n1.int16_property == n2.int16_property,
        n1.int8_property == n2.int8_property,
        n1.int_property == n2.int_property,
        n1.linear_color_property == n2.linear_color_property,
        n1.name_property == n2.name_property,
        n1.object_property == n2.object_property,
        n1.quat_property == n2.quat_property,
        n1.rotator_property == n2.rotator_property,
        n1.str_property == n2.str_property,
        n1.struct_property == n2.struct_property,
        n1.text_property == n2.text_property,
        n1.uint16_property == n2.uint16_property,
        n1.uint32_property == n2.uint32_property,
        n1.uint64_property == n2.uint64_property,
        n1.unique_netid_property == n2.unique_netid_property,
        n1.vector_property == n2.vector_property,
        n1.vector2d_property == n2.vector2d_property,
{
}

} // verus!
