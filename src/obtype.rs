//! The value classifier: from a runtime type and the behaviour flags to the
//! strategy that serializes values of that type.
use vstd::prelude::*;
use crate::typeref::{
    TypeObject, TypeRefs, subtype_of, is_exact_opt, is_numpy_scalar_spec, is_exact,
    is_exact_optional, is_subtype, is_numpy_scalar, is_numpy_array,
};

verus! {

/// Flag: serialize numeric-array library types.
pub const SERIALIZE_NUMPY: u32 = 16;

/// Flag: treat subclasses of str, int, list and dict as unrecognized.
pub const PASSTHROUGH_SUBCLASS: u32 = 256;

/// Flag: treat datetime, date and time values as unrecognized.
pub const PASSTHROUGH_DATETIME: u32 = 512;

/// Flag: treat record types as unrecognized.
pub const PASSTHROUGH_DATACLASS: u32 = 2048;

/// The serialization strategy chosen for a value.
#[derive(PartialEq, Eq, Structural, Clone, Copy, Debug)]
pub enum ObType {
    Str,
    Int,
    Bool,
    Null,
    Float,
    List,
    Dict,
    Datetime,
    Date,
    Time,
    Tuple,
    Uuid,
    Dataclass,
    NumpyScalar,
    NumpyArray,
    Enum,
    StrSubclass,
    Fragment,
    Unknown,
}

pub open spec fn flag_clear(opts: u32, flag: u32) -> bool {
    opts & flag == 0
}

/// The fast path: exact identity against the most common categories, in order.
pub open spec fn common_obtype(t: &TypeObject, opts: u32, types: &TypeRefs) -> Option<ObType> {
    if t.id == types.str_type {
        Some(ObType::Str)
    } else if t.id == types.int_type {
        Some(ObType::Int)
    } else if t.id == types.bool_type {
        Some(ObType::Bool)
    } else if t.id == types.none_type {
        Some(ObType::Null)
    } else if t.id == types.float_type {
        Some(ObType::Float)
    } else if t.id == types.list_type {
        Some(ObType::List)
    } else if t.id == types.dict_type {
        Some(ObType::Dict)
    } else if is_exact_opt(t, types.datetime_type) && flag_clear(opts, PASSTHROUGH_DATETIME) {
        Some(ObType::Datetime)
    } else {
        None
    }
}

/// The cold path, in its order of precedence.
pub open spec fn unlikely_obtype(t: &TypeObject, opts: u32, types: &TypeRefs) -> ObType {
    if t.id == types.uuid_type {
        ObType::Uuid
    } else if t.id == types.tuple_type {
        ObType::Tuple
    } else if t.id == types.fragment_type {
        ObType::Fragment
    } else if flag_clear(opts, PASSTHROUGH_DATETIME) && is_exact_opt(t, types.date_type) {
        ObType::Date
    } else if flag_clear(opts, PASSTHROUGH_DATETIME) && is_exact_opt(t, types.time_type) {
        ObType::Time
    } else if flag_clear(opts, PASSTHROUGH_SUBCLASS) && subtype_of(t, types.str_type) {
        ObType::StrSubclass
    } else if flag_clear(opts, PASSTHROUGH_SUBCLASS) && subtype_of(t, types.int_type) {
        ObType::Int
    } else if flag_clear(opts, PASSTHROUGH_SUBCLASS) && subtype_of(t, types.list_type) {
        ObType::List
    } else if flag_clear(opts, PASSTHROUGH_SUBCLASS) && subtype_of(t, types.dict_type) {
        ObType::Dict
    } else if subtype_of(t, types.enum_type) {
        ObType::Enum
    } else if flag_clear(opts, PASSTHROUGH_DATACLASS) && t.has_record_marker {
        ObType::Dataclass
    } else if !flag_clear(opts, SERIALIZE_NUMPY) && types.numpy is Some
        && is_numpy_scalar_spec(t, &types.numpy->0) {
        ObType::NumpyScalar
    } else if !flag_clear(opts, SERIALIZE_NUMPY) && types.numpy is Some && t.id
        == types.numpy->0.array {
        ObType::NumpyArray
    } else {
        ObType::Unknown
    }
}

/// The strategy for a value of type `t`.
pub open spec fn obtype_of(t: &TypeObject, opts: u32, types: &TypeRefs) -> ObType {
    match common_obtype(t, opts, types) {
        Some(o) => o,
        None => unlikely_obtype(t, opts, types),
    }
}

/// Classifies a value by its type: identity tests on the common categories
/// first, then the cold path.
pub fn pyobject_to_obtype(ob_type: &TypeObject, opts: u32, types: &TypeRefs) -> (r: ObType)
    ensures
        r == obtype_of(ob_type, opts, types),
{
    if is_exact(ob_type, types.str_type) {
        ObType::Str
    } else if is_exact(ob_type, types.int_type) {
        ObType::Int
    } else if is_exact(ob_type, types.bool_type) {
        ObType::Bool
    } else if is_exact(ob_type, types.none_type) {
        ObType::Null
    } else if is_exact(ob_type, types.float_type) {
        ObType::Float
    } else if is_exact(ob_type, types.list_type) {
        ObType::List
    } else if is_exact(ob_type, types.dict_type) {
        ObType::Dict
    } else if is_exact_optional(ob_type, types.datetime_type) && opts & PASSTHROUGH_DATETIME == 0 {
        ObType::Datetime
    } else {
        pyobject_to_obtype_unlikely(ob_type, opts, types)
    }
}

/// The cold path of the classifier: exact tests on the rarer categories,
/// subclass tests, the record marker and the numeric-array types.
pub fn pyobject_to_obtype_unlikely(ob_type: &TypeObject, opts: u32, types: &TypeRefs) -> (r:
    ObType)
    ensures
        r == unlikely_obtype(ob_type, opts, types),
{
    if is_exact(ob_type, types.uuid_type) {
        return ObType::Uuid;
    } else if is_exact(ob_type, types.tuple_type) {
        return ObType::Tuple;
    } else if is_exact(ob_type, types.fragment_type) {
        return ObType::Fragment;
    }
    if opts & PASSTHROUGH_DATETIME == 0 {
        if is_exact_optional(ob_type, types.date_type) {
            return ObType::Date;
        } else if is_exact_optional(ob_type, types.time_type) {
            return ObType::Time;
        }
    }
    if opts & PASSTHROUGH_SUBCLASS == 0 {
        if is_subtype(ob_type, types.str_type) {
            return ObType::StrSubclass;
        } else if is_subtype(ob_type, types.int_type) {
            return ObType::Int;
        } else if is_subtype(ob_type, types.list_type) {
            return ObType::List;
        } else if is_subtype(ob_type, types.dict_type) {
            return ObType::Dict;
        }
    }
    if is_subtype(ob_type, types.enum_type) {
        return ObType::Enum;
    }
    if opts & PASSTHROUGH_DATACLASS == 0 && ob_type.has_record_marker {
        return ObType::Dataclass;
    }
    if opts & SERIALIZE_NUMPY != 0 {
        if let Some(np) = &types.numpy {
            if is_numpy_scalar(ob_type, np) {
                return ObType::NumpyScalar;
            } else if is_numpy_array(ob_type, np) {
                return ObType::NumpyArray;
            }
        }
    }
    ObType::Unknown
}

} // verus!

verus! {

/// The tag of a built-in scalar category, by its identity.
pub open spec fn scalar_tag(id: u64, types: &TypeRefs) -> ObType {
    if id == types.str_type {
        ObType::Str
    } else if id == types.int_type {
        ObType::Int
    } else if id == types.bool_type {
        ObType::Bool
    } else if id == types.none_type {
        ObType::Null
    } else {
        ObType::Float
    }
}

pub open spec fn is_scalar_type(id: u64, types: &TypeRefs) -> bool {
    id == types.str_type || id == types.int_type || id == types.bool_type || id
        == types.none_type || id == types.float_type
}

/// A value whose type is exactly a built-in scalar category gets that
/// category's tag whatever the flags, and the tag is decided by identity
/// alone: a type `u` with the same identity but other ancestors or attributes
/// gets the same tag, so no subclass or attribute test takes part.
pub proof fn lemma_scalar_fast_path(t: &TypeObject, u: &TypeObject, opts: u32, types: &TypeRefs)
    requires
        types.wf(),
        is_scalar_type(t.id, types),
        u.id == t.id,
    ensures
        obtype_of(t, opts, types) == scalar_tag(t.id, types),
        common_obtype(t, opts, types) == Some(scalar_tag(t.id, types)),
        obtype_of(u, opts, types) == obtype_of(t, opts, types),
{
}

/// The tag that a subclass of one of the four normalized categories gets.
pub open spec fn normalized_tag(base: u64, types: &TypeRefs) -> ObType {
    if base == types.str_type {
        ObType::StrSubclass
    } else if base == types.int_type {
        ObType::Int
    } else if base == types.list_type {
        ObType::List
    } else {
        ObType::Dict
    }
}

/// A proper subclass of exactly one of str, int, list and dict is classified
/// as that base category while the subclass pass-through flag is clear, and
/// never as it while the flag is set.
pub proof fn lemma_subclass_normalization(
    t: &TypeObject,
    opts: u32,
    types: &TypeRefs,
    base: u64,
)
    requires
        types.wf(),
        base == types.str_type || base == types.int_type || base == types.list_type || base
            == types.dict_type,
        t.bases@.contains(base),
        !types.is_any_exact(t.id),
        subtype_of(t, types.str_type) ==> base == types.str_type,
        subtype_of(t, types.int_type) ==> base == types.int_type,
        subtype_of(t, types.list_type) ==> base == types.list_type,
        subtype_of(t, types.dict_type) ==> base == types.dict_type,
    ensures
        flag_clear(opts, PASSTHROUGH_SUBCLASS) ==> obtype_of(t, opts, types) == normalized_tag(
            base,
            types,
        ),
        !flag_clear(opts, PASSTHROUGH_SUBCLASS) ==> obtype_of(t, opts, types) != normalized_tag(
            base,
            types,
        ),
{
}

/// A type in no configured category, classified with the numeric-array
/// extension off, is unrecognized.
pub proof fn lemma_unrecognized(t: &TypeObject, opts: u32, types: &TypeRefs)
    requires
        !types.is_any_exact(t.id),
        !subtype_of(t, types.str_type),
        !subtype_of(t, types.int_type),
        !subtype_of(t, types.list_type),
        !subtype_of(t, types.dict_type),
        !subtype_of(t, types.enum_type),
        !t.has_record_marker,
        flag_clear(opts, SERIALIZE_NUMPY),
    ensures
        obtype_of(t, opts, types) == ObType::Unknown,
{
}

/// The two states of the subclass pass-through flag give different tags for
/// a proper subclass of exactly one of str, int, list and dict that is no
/// enum and no record: its base tag with the flag clear, unrecognized with it
/// set (the numeric-array extension off in the second case). The cold path
/// alone decides both.
pub proof fn lemma_subclass_flag_states(
    t: &TypeObject,
    o1: u32,
    o2: u32,
    types: &TypeRefs,
    base: u64,
)
    requires
        types.wf(),
        base == types.str_type || base == types.int_type || base == types.list_type || base
            == types.dict_type,
        t.bases@.contains(base),
        !types.is_any_exact(t.id),
        subtype_of(t, types.str_type) ==> base == types.str_type,
        subtype_of(t, types.int_type) ==> base == types.int_type,
        subtype_of(t, types.list_type) ==> base == types.list_type,
        subtype_of(t, types.dict_type) ==> base == types.dict_type,
        !subtype_of(t, types.enum_type),
        !t.has_record_marker,
        flag_clear(o1, PASSTHROUGH_SUBCLASS),
        !flag_clear(o2, PASSTHROUGH_SUBCLASS),
        flag_clear(o2, SERIALIZE_NUMPY),
    ensures
        obtype_of(t, o1, types) == normalized_tag(base, types),
        unlikely_obtype(t, o1, types) == normalized_tag(base, types),
        obtype_of(t, o2, types) == ObType::Unknown,
        unlikely_obtype(t, o2, types) == ObType::Unknown,
        normalized_tag(base, types) != ObType::Unknown,
{
}

} // verus!
