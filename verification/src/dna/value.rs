//! Dynamic DNA values and the ordered field maps of struct values.

use indexmap::IndexMap;
use vstd::prelude::*;

use crate::index_map::{entries_insert, entries_remove, entry_lookup, key_position};

verus! {

/// The mathematical model of a [`DnaValue`]: strings are character
/// sequences, fixed-size arrays are sequences of bit patterns, and a struct
/// is its list of entries in insertion order.
pub enum ValueModel {
    Bool(bool),
    I32(i32),
    I64(i64),
    F32(u64),
    F64(u64),
    String(Seq<char>),
    Vec2(Seq<u64>),
    Vec3(Seq<u64>),
    Vec4(Seq<u64>),
    Mat4(Seq<u64>),
    Quat(Seq<u64>),
    Color4f(Seq<u64>),
    Array(Seq<ValueModel>),
    Struct(Seq<(Seq<char>, ValueModel)>),
    Option(Option<Box<ValueModel>>),
    Enum { variant: Seq<char>, value: Option<Box<ValueModel>> },
    Null,
}

/// The fields of a struct value, in insertion order.
#[verifier::external_body]
#[derive(Debug)]
pub struct DnaMap {
    inner: IndexMap<String, DnaValue>,
}

/// A concrete runtime value in the DNA type system. Floating-point payloads
/// are the bit patterns of `f64` values (`F32` values are widened to `f64`
/// first).
#[derive(Debug, PartialEq)]
pub enum DnaValue {
    Bool(bool),
    I32(i32),
    I64(i64),
    F32(u64),
    F64(u64),
    String(String),
    Vec2([u64; 2]),
    Vec3([u64; 3]),
    Vec4([u64; 4]),
    Mat4([u64; 16]),
    Quat([u64; 4]),
    Color4f([u64; 4]),
    Array(Vec<DnaValue>),
    Struct(DnaMap),
    Option(Option<Box<DnaValue>>),
    Enum { variant: String, value: Option<Box<DnaValue>> },
    /// An explicitly null / missing value.
    Null,
}

/// The entries of a struct value's field map, in insertion order, each
/// value taken by its model.
pub uninterp spec fn dna_map_entries(m: DnaMap) -> Seq<(Seq<char>, ValueModel)>;

impl DnaValue {
    pub open spec fn model(self) -> ValueModel
        decreases self,
    {
        match self {
            DnaValue::Bool(b) => ValueModel::Bool(b),
            DnaValue::I32(x) => ValueModel::I32(x),
            DnaValue::I64(x) => ValueModel::I64(x),
            DnaValue::F32(x) => ValueModel::F32(x),
            DnaValue::F64(x) => ValueModel::F64(x),
            DnaValue::String(s) => ValueModel::String(s@),
            DnaValue::Vec2(a) => ValueModel::Vec2(a@),
            DnaValue::Vec3(a) => ValueModel::Vec3(a@),
            DnaValue::Vec4(a) => ValueModel::Vec4(a@),
            DnaValue::Mat4(a) => ValueModel::Mat4(a@),
            DnaValue::Quat(a) => ValueModel::Quat(a@),
            DnaValue::Color4f(a) => ValueModel::Color4f(a@),
            DnaValue::Array(v) => ValueModel::Array(
                Seq::new(v@.len(), |i: int| if 0 <= i < v.len() { v[i].model() } else { ValueModel::Null }),
            ),
            DnaValue::Struct(m) => ValueModel::Struct(dna_map_entries(m)),
            DnaValue::Option(o) => match o {
                Some(b) => ValueModel::Option(Some(Box::new(b.model()))),
                None => ValueModel::Option(None),
            },
            DnaValue::Enum { variant, value } => ValueModel::Enum {
                variant: variant@,
                value: match value {
                    Some(b) => Some(Box::new(b.model())),
                    None => None,
                },
            },
            DnaValue::Null => ValueModel::Null,
        }
    }
}

/// `IndexMap::new`: an empty map.
#[verifier::external_body]
fn map_new() -> (m: DnaMap)
    ensures
        dna_map_entries(m) == Seq::<(Seq<char>, ValueModel)>::empty(),
{
    DnaMap { inner: IndexMap::new() }
}

/// `IndexMap::insert`: an existing key keeps its place and gets the new
/// value, whose old value is handed back; a new key is appended last.
#[verifier::external_body]
fn map_insert(m: &mut DnaMap, key: String, value: DnaValue) -> (r: Option<DnaValue>)
    ensures
        dna_map_entries(*final(m)) == entries_insert(dna_map_entries(*old(m)), key@, value.model()),
        match r {
            Some(x) => entry_lookup(dna_map_entries(*old(m)), key@) == Some(x.model()),
            None => entry_lookup(dna_map_entries(*old(m)), key@) is None,
        },
{
    m.inner.insert(key, value)
}

/// `IndexMap::get`: the value stored under the key.
#[verifier::external_body]
fn map_get<'a>(m: &'a DnaMap, key: &str) -> (r: Option<&'a DnaValue>)
    ensures
        match r {
            Some(x) => entry_lookup(dna_map_entries(*m), key@) == Some(x.model()),
            None => entry_lookup(dna_map_entries(*m), key@) is None,
        },
{
    m.inner.get(key)
}

/// `IndexMap::get_mut`: a mutable reference to the value stored under the
/// key; what is written through it becomes that entry's value, in place.
#[verifier::external_body]
fn map_get_mut<'a>(m: &'a mut DnaMap, key: &str) -> (r: Option<&'a mut DnaValue>)
    ensures
        match r {
            Some(x) => {
                let e = dna_map_entries(*old(m));
                let p = key_position(e, key@);
                &&& p >= 0
                &&& e[p].1 == (*x).model()
                &&& dna_map_entries(*final(m)) == e.update(p, (key@, (*final(x)).model()))
            },
            None => key_position(dna_map_entries(*old(m)), key@) < 0 && *final(m) == *old(m),
        },
{
    m.inner.get_mut(key)
}

/// `IndexMap::shift_remove`: removes the entry, keeping the order of the
/// others, and hands back its value.
#[verifier::external_body]
fn map_shift_remove(m: &mut DnaMap, key: &str) -> (r: Option<DnaValue>)
    ensures
        dna_map_entries(*final(m)) == entries_remove(dna_map_entries(*old(m)), key@),
        match r {
            Some(x) => entry_lookup(dna_map_entries(*old(m)), key@) == Some(x.model()),
            None => entry_lookup(dna_map_entries(*old(m)), key@) is None,
        },
{
    m.inner.shift_remove(key)
}

/// `IndexMap::len`: the number of entries.
#[verifier::external_body]
fn map_len(m: &DnaMap) -> (r: usize)
    ensures
        r == dna_map_entries(*m).len(),
{
    m.inner.len()
}

/// `IndexMap::clone`: a map with the same entries in the same order; each
/// value is copied by [`DnaValue::clone`], which keeps its model.
#[verifier::external_body]
fn map_clone(m: &DnaMap) -> (r: DnaMap)
    ensures
        dna_map_entries(r) == dna_map_entries(*m),
{
    DnaMap { inner: m.inner.clone() }
}

impl DnaMap {
    /// An empty field map.
    pub fn new() -> (m: DnaMap)
        ensures
            dna_map_entries(m) == Seq::<(Seq<char>, ValueModel)>::empty(),
    {
        map_new()
    }

    /// Inserts or replaces the value under `key`, returning the value it
    /// replaced.
    pub fn insert(&mut self, key: String, value: DnaValue) -> (r: Option<DnaValue>)
        ensures
            dna_map_entries(*final(self)) == entries_insert(dna_map_entries(*old(self)), key@, value.model()),
            match r {
                Some(x) => entry_lookup(dna_map_entries(*old(self)), key@) == Some(x.model()),
                None => entry_lookup(dna_map_entries(*old(self)), key@) is None,
            },
    {
        map_insert(self, key, value)
    }

    /// The value stored under `key`.
    pub fn get(&self, key: &str) -> (r: Option<&DnaValue>)
        ensures
            match r {
                Some(x) => entry_lookup(dna_map_entries(*self), key@) == Some(x.model()),
                None => entry_lookup(dna_map_entries(*self), key@) is None,
            },
    {
        map_get(self, key)
    }

    /// A mutable reference to the value stored under `key`.
    pub fn get_mut(&mut self, key: &str) -> (r: Option<&mut DnaValue>)
        ensures
            match r {
                Some(x) => {
                    let e = dna_map_entries(*old(self));
                    let p = key_position(e, key@);
                    &&& p >= 0
                    &&& e[p].1 == (*x).model()
                    &&& dna_map_entries(*final(self)) == e.update(p, (key@, (*final(x)).model()))
                },
                None => key_position(dna_map_entries(*old(self)), key@) < 0 && *final(self) == *old(self),
            },
    {
        map_get_mut(self, key)
    }

    /// Whether a value is stored under `key`.
    pub fn contains_key(&self, key: &str) -> (b: bool)
        ensures
            b == (key_position(dna_map_entries(*self), key@) >= 0),
    {
        map_get(self, key).is_some()
    }

    /// Removes the entry under `key`, keeping the order of the others, and
    /// returns its value.
    pub fn shift_remove(&mut self, key: &str) -> (r: Option<DnaValue>)
        ensures
            dna_map_entries(*final(self)) == entries_remove(dna_map_entries(*old(self)), key@),
            match r {
                Some(x) => entry_lookup(dna_map_entries(*old(self)), key@) == Some(x.model()),
                None => entry_lookup(dna_map_entries(*old(self)), key@) is None,
            },
    {
        map_shift_remove(self, key)
    }

    /// The number of entries.
    pub fn len(&self) -> (r: usize)
        ensures
            r == dna_map_entries(*self).len(),
    {
        map_len(self)
    }
}

impl Clone for DnaMap {
    fn clone(&self) -> (r: Self)
        ensures
            dna_map_entries(r) == dna_map_entries(*self),
    {
        map_clone(self)
    }
}

/// Copies of the values, in order.
fn clone_values(v: &Vec<DnaValue>) -> (r: Vec<DnaValue>)
    ensures
        r@.len() == v@.len(),
        forall|i: int| 0 <= i < v@.len() ==> (#[trigger] r[i]).model() == v[i].model(),
    decreases v,
{
    let mut r: Vec<DnaValue> = Vec::new();
    let mut i: usize = 0;
    while i < v.len()
        invariant
            i <= v.len(),
            r@.len() == i,
            forall|j: int| 0 <= j < i ==> (#[trigger] r[j]).model() == v[j].model(),
        decreases v.len() - i,
    {
        proof {
            assert(decreases_to!(*v => v[i as int]));
        }
        r.push(v[i].clone());
        i = i + 1;
    }
    r
}

impl DnaValue {
    /// Whether this value is [`DnaValue::Null`].
    pub fn is_null(&self) -> (b: bool)
        ensures
            b == (self.model() is Null),
    {
        match self {
            DnaValue::Null => true,
            _ => false,
        }
    }

    /// The boolean held by a `Bool` value.
    pub fn as_bool(&self) -> (r: Option<bool>)
        ensures
            r == (match self.model() {
                ValueModel::Bool(b) => Some(b),
                _ => None,
            }),
    {
        match self {
            DnaValue::Bool(b) => Some(*b),
            _ => None,
        }
    }

    /// The text held by a `String` value.
    pub fn as_str(&self) -> (r: Option<&str>)
        ensures
            match r {
                Some(s) => self.model() matches ValueModel::String(t) && s@ == t,
                None => !(self.model() is String),
            },
    {
        match self {
            DnaValue::String(s) => Some(s.as_str()),
            _ => None,
        }
    }
}

impl Clone for DnaValue {
    /// A deep copy, with the same model.
    fn clone(&self) -> (r: Self)
        ensures
            r.model() == self.model(),
        decreases self,
    {
        match self {
            DnaValue::Bool(b) => DnaValue::Bool(*b),
            DnaValue::I32(x) => DnaValue::I32(*x),
            DnaValue::I64(x) => DnaValue::I64(*x),
            DnaValue::F32(x) => DnaValue::F32(*x),
            DnaValue::F64(x) => DnaValue::F64(*x),
            DnaValue::String(s) => DnaValue::String(s.clone()),
            DnaValue::Vec2(a) => DnaValue::Vec2(*a),
            DnaValue::Vec3(a) => DnaValue::Vec3(*a),
            DnaValue::Vec4(a) => DnaValue::Vec4(*a),
            DnaValue::Mat4(a) => DnaValue::Mat4(*a),
            DnaValue::Quat(a) => DnaValue::Quat(*a),
            DnaValue::Color4f(a) => DnaValue::Color4f(*a),
            DnaValue::Array(v) => {
                let c = clone_values(v);
                let r = DnaValue::Array(c);
                assert(r.model()->Array_0 =~= self.model()->Array_0);
                r
            },
            DnaValue::Struct(m) => DnaValue::Struct(map_clone(m)),
            DnaValue::Option(o) => match o {
                Some(b) => DnaValue::Option(Some(Box::new((**b).clone()))),
                None => DnaValue::Option(None),
            },
            DnaValue::Enum { variant, value } => DnaValue::Enum {
                variant: variant.clone(),
                value: match value {
                    Some(b) => Some(Box::new((**b).clone())),
                    None => None,
                },
            },
            DnaValue::Null => DnaValue::Null,
        }
    }
}

impl PartialEq for DnaMap {
    /// `IndexMap::eq`: whether the maps hold the same key-value pairs, in
    /// any order. Nothing is stated of the result.
    #[verifier::external_body]
    fn eq(&self, other: &Self) -> (r: bool) {
        self.inner == other.inner
    }
}

} // verus!
