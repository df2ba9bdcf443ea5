//! Type identities of the host runtime, as plain values.
use vstd::prelude::*;

verus! {

/// A runtime type: its identity and the identities of all of its ancestors.
pub struct TypeObject {
    pub id: u64,
    /// Every proper ancestor of the type (transitively), in any order.
    pub bases: Vec<u64>,
    /// Whether the type's own namespace holds the record-marker attribute.
    pub has_record_marker: bool,
}

/// `t` is `base` itself or one of its subclasses.
pub open spec fn subtype_of(t: &TypeObject, base: u64) -> bool {
    t.id == base || t.bases@.contains(base)
}

/// Seven pairwise distinct identities.
pub open spec fn distinct7(a: u64, b: u64, c: u64, d: u64, e: u64, f: u64, g: u64) -> bool {
    &&& a != b
    &&& a != c
    &&& a != d
    &&& a != e
    &&& a != f
    &&& a != g
    &&& b != c
    &&& b != d
    &&& b != e
    &&& b != f
    &&& b != g
    &&& c != d
    &&& c != e
    &&& c != f
    &&& c != g
    &&& d != e
    &&& d != f
    &&& d != g
    &&& e != f
    &&& e != g
    &&& f != g
}

/// The types of the optional numeric-array library, probed once per context.
pub struct NumpyTypes {
    pub array: u64,
    pub scalars: Vec<u64>,
}

/// Whether `t` is exactly `base`, a type that may be absent.
pub open spec fn is_exact_opt(t: &TypeObject, base: Option<u64>) -> bool {
    base == Some(t.id)
}

pub fn is_exact(t: &TypeObject, base: u64) -> (r: bool)
    ensures
        r == (t.id == base),
{
    t.id == base
}

pub fn is_exact_optional(t: &TypeObject, base: Option<u64>) -> (r: bool)
    ensures
        r == is_exact_opt(t, base),
{
    match base {
        Some(b) => t.id == b,
        None => false,
    }
}

/// Subclass test: a walk over the type's ancestors.
pub fn is_subtype(t: &TypeObject, base: u64) -> (r: bool)
    ensures
        r == subtype_of(t, base),
{
    if t.id == base {
        return true;
    }
    let mut i: usize = 0;
    while i < t.bases.len()
        invariant
            i <= t.bases@.len(),
            forall|j: int| 0 <= j < i ==> t.bases@[j] != base,
        decreases t.bases@.len() - i,
    {
        if t.bases[i] == base {
            return true;
        }
        i = i + 1;
    }
    false
}

pub open spec fn is_numpy_scalar_spec(t: &TypeObject, np: &NumpyTypes) -> bool {
    np.scalars@.contains(t.id)
}

pub fn is_numpy_scalar(t: &TypeObject, np: &NumpyTypes) -> (r: bool)
    ensures
        r == is_numpy_scalar_spec(t, np),
{
    let mut i: usize = 0;
    while i < np.scalars.len()
        invariant
            i <= np.scalars@.len(),
            forall|j: int| 0 <= j < i ==> np.scalars@[j] != t.id,
        decreases np.scalars@.len() - i,
    {
        if np.scalars[i] == t.id {
            return true;
        }
        i = i + 1;
    }
    false
}

pub fn is_numpy_array(t: &TypeObject, np: &NumpyTypes) -> (r: bool)
    ensures
        r == (t.id == np.array),
{
    t.id == np.array
}

} // verus!

verus! {

/// The type identities that one context caches: required categories as plain
/// identities, optional ones as `None` where the host does not provide them.
pub struct TypeRefs {
    pub str_type: u64,
    pub int_type: u64,
    pub bool_type: u64,
    pub none_type: u64,
    pub float_type: u64,
    pub list_type: u64,
    pub dict_type: u64,
    pub tuple_type: u64,
    pub bytes_type: u64,
    pub bytearray_type: u64,
    pub memoryview_type: u64,
    pub uuid_type: u64,
    pub enum_type: u64,
    pub field_type: u64,
    pub fragment_type: u64,
    pub datetime_type: Option<u64>,
    pub date_type: Option<u64>,
    pub time_type: Option<u64>,
    pub zoneinfo_type: Option<u64>,
    pub numpy: Option<NumpyTypes>,
}

impl TypeRefs {
    /// The identities of the categories that the fast path tests exactly.
    pub open spec fn is_common_exact(&self, id: u64) -> bool {
        id == self.str_type || id == self.int_type || id == self.bool_type || id
            == self.none_type || id == self.float_type || id == self.list_type || id
            == self.dict_type || Some(id) == self.datetime_type
    }

    /// The identities of every category that is tested by identity.
    pub open spec fn is_any_exact(&self, id: u64) -> bool {
        self.is_common_exact(id) || id == self.uuid_type || id == self.tuple_type || id
            == self.fragment_type || Some(id) == self.date_type || Some(id) == self.time_type
    }

    /// The categories of the fast path have distinct identities.
    pub open spec fn wf(&self) -> bool {
        distinct7(
            self.str_type,
            self.int_type,
            self.bool_type,
            self.none_type,
            self.float_type,
            self.list_type,
            self.dict_type,
        )
    }

    pub fn check_wf(&self) -> (r: bool)
        ensures
            r == self.wf(),
    {
        self.str_type != self.int_type && self.str_type != self.bool_type && self.str_type != self.none_type && self.str_type != self.float_type && self.str_type != self.list_type && self.str_type != self.dict_type && self.int_type != self.bool_type && self.int_type != self.none_type && self.int_type != self.float_type && self.int_type != self.list_type && self.int_type != self.dict_type && self.bool_type != self.none_type && self.bool_type != self.float_type && self.bool_type != self.list_type && self.bool_type != self.dict_type && self.none_type != self.float_type && self.none_type != self.list_type && self.none_type != self.dict_type && self.float_type != self.list_type && self.float_type != self.dict_type && self.list_type != self.dict_type
    }
}

} // verus!
