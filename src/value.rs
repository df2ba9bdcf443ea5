//! Native values of the host runtime, as the codec sees them.
use vstd::prelude::*;
use crate::typeref::{TypeObject, TypeRefs};
use crate::key_cache::PyStr;

verus! {

/// What a value holds besides its type.
pub enum Payload {
    Nothing,
    Bool(bool),
    Int(i128),
    /// An IEEE 754 double, by its bits.
    Float(u64),
    Str(String),
    List(Vec<PyObject>),
    Dict(Vec<(PyStr, PyObject)>),
    /// An enum member, by the value that it wraps.
    Member(Box<PyObject>),
    /// A value whose content the codec does not read.
    Opaque,
}

/// A value of the host runtime: its type and its content.
pub struct PyObject {
    pub ob_type: TypeObject,
    pub payload: Payload,
}

/// The type object of a built-in category with no ancestor but the root.
pub fn builtin_type(id: u64) -> (r: TypeObject)
    ensures
        r.id == id,
        r.bases@ == Seq::<u64>::empty(),
        !r.has_record_marker,
{
    TypeObject { id, bases: Vec::new(), has_record_marker: false }
}

/// `o` is the boolean `b`.
pub open spec fn is_bool_object(o: &PyObject, types: &TypeRefs, b: bool) -> bool {
    &&& o.ob_type.id == types.bool_type
    &&& o.ob_type.bases@ == seq![types.int_type]
    &&& !o.ob_type.has_record_marker
    &&& o.payload == Payload::Bool(b)
}

/// `o` is the null value.
pub open spec fn is_none_object(o: &PyObject, types: &TypeRefs) -> bool {
    &&& o.ob_type.id == types.none_type
    &&& o.ob_type.bases@ == Seq::<u64>::empty()
    &&& !o.ob_type.has_record_marker
    &&& o.payload == Payload::Nothing
}

/// `o` is the integer `v`.
pub open spec fn is_int_object(o: &PyObject, types: &TypeRefs, v: int) -> bool {
    &&& o.ob_type.id == types.int_type
    &&& o.ob_type.bases@ == Seq::<u64>::empty()
    &&& !o.ob_type.has_record_marker
    &&& o.payload matches Payload::Int(x) && x == v
}

/// `a` and `b` have the same type and the same content, children aside.
pub open spec fn same_scalar(a: &PyObject, b: &PyObject) -> bool {
    &&& a.ob_type.id == b.ob_type.id
    &&& a.ob_type.bases@ == b.ob_type.bases@
    &&& a.ob_type.has_record_marker == b.ob_type.has_record_marker
    &&& a.payload == b.payload
}

/// `o` is the empty string.
pub open spec fn is_empty_str_object(o: &PyObject, types: &TypeRefs) -> bool {
    &&& o.ob_type.id == types.str_type
    &&& o.ob_type.bases@ == Seq::<u64>::empty()
    &&& !o.ob_type.has_record_marker
    &&& o.payload matches Payload::Str(s) && s@ == Seq::<char>::empty()
}

/// The values that a context shares instead of building them anew.
pub struct Singletons {
    pub none: PyObject,
    pub true_: PyObject,
    pub false_: PyObject,
    pub empty_unicode: PyObject,
}

impl Singletons {
    pub open spec fn wf(&self, types: &TypeRefs) -> bool {
        &&& is_none_object(&self.none, types)
        &&& is_bool_object(&self.true_, types, true)
        &&& is_bool_object(&self.false_, types, false)
        &&& is_empty_str_object(&self.empty_unicode, types)
    }

    pub fn new(types: &TypeRefs) -> (r: Singletons)
        ensures
            r.wf(types),
    {
        let mut true_type = builtin_type(types.bool_type);
        true_type.bases.push(types.int_type);
        let mut false_type = builtin_type(types.bool_type);
        false_type.bases.push(types.int_type);
        assert(true_type.bases@ =~= seq![types.int_type]);
        assert(false_type.bases@ =~= seq![types.int_type]);
        let empty = String::new();
        Singletons {
            none: PyObject { ob_type: builtin_type(types.none_type), payload: Payload::Nothing },
            true_: PyObject { ob_type: true_type, payload: Payload::Bool(true) },
            false_: PyObject { ob_type: false_type, payload: Payload::Bool(false) },
            empty_unicode: PyObject { ob_type: builtin_type(types.str_type), payload: Payload::Str(empty) },
        }
    }
}

impl PyObject {
    /// A copy of a value with no children, with the same type and content.
    pub fn copy_scalar(&self) -> (r: PyObject)
        requires
            self.payload is Nothing || self.payload is Bool || self.payload is Str,
        ensures
            r.ob_type.id == self.ob_type.id,
            r.ob_type.bases@ == self.ob_type.bases@,
            r.ob_type.has_record_marker == self.ob_type.has_record_marker,
            r.payload == self.payload,
    {
        let mut bases: Vec<u64> = Vec::new();
        let mut i: usize = 0;
        while i < self.ob_type.bases.len()
            invariant
                i <= self.ob_type.bases@.len(),
                bases@ == self.ob_type.bases@.subrange(0, i as int),
            decreases self.ob_type.bases@.len() - i,
        {
            bases.push(self.ob_type.bases[i]);
            i = i + 1;
            assert(bases@ =~= self.ob_type.bases@.subrange(0, i as int));
        }
        assert(bases@ =~= self.ob_type.bases@);
        let payload = match &self.payload {
            Payload::Nothing => Payload::Nothing,
            Payload::Bool(b) => Payload::Bool(*b),
            Payload::Str(s) => Payload::Str(s.clone()),
            _ => Payload::Opaque,
        };
        PyObject {
            ob_type: TypeObject {
                id: self.ob_type.id,
                bases,
                has_record_marker: self.ob_type.has_record_marker,
            },
            payload,
        }
    }
}

} // verus!
