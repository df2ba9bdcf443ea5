use hyperjson::interpreter_state::{InitError, InterpreterState, TypeLookup};
use hyperjson::obtype::{
    pyobject_to_obtype, pyobject_to_obtype_unlikely, ObType, PASSTHROUGH_DATACLASS,
    PASSTHROUGH_DATETIME, PASSTHROUGH_SUBCLASS, SERIALIZE_NUMPY,
};
use hyperjson::typeref::{is_subtype, NumpyTypes, TypeObject, TypeRefs};

const STR: u64 = 1;
const INT: u64 = 2;
const BOOL: u64 = 3;
const NONE: u64 = 4;
const FLOAT: u64 = 5;
const LIST: u64 = 6;
const DICT: u64 = 7;
const TUPLE: u64 = 8;
const UUID: u64 = 9;
const ENUM: u64 = 10;
const FRAGMENT: u64 = 11;
const DATETIME: u64 = 12;
const DATE: u64 = 13;
const TIME: u64 = 14;
const NP_ARRAY: u64 = 15;
const NP_FLOAT64: u64 = 16;

fn lookup() -> TypeLookup {
    TypeLookup {
        str_type: Some(STR),
        int_type: Some(INT),
        bool_type: Some(BOOL),
        none_type: Some(NONE),
        float_type: Some(FLOAT),
        list_type: Some(LIST),
        dict_type: Some(DICT),
        tuple_type: Some(TUPLE),
        bytes_type: Some(20),
        bytearray_type: Some(21),
        memoryview_type: Some(22),
        uuid_type: Some(UUID),
        enum_type: Some(ENUM),
        field_type: Some(23),
        fragment_type: Some(FRAGMENT),
        datetime_type: Some(DATETIME),
        date_type: Some(DATE),
        time_type: Some(TIME),
        zoneinfo_type: Some(24),
        numpy: Some(NumpyTypes { array: NP_ARRAY, scalars: vec![NP_FLOAT64] }),
        json_encode_error: Some(30),
        json_decode_error: Some(31),
    }
}

fn types() -> TypeRefs {
    InterpreterState::new(lookup()).ok().unwrap().types
}

fn ty(id: u64, bases: Vec<u64>) -> TypeObject {
    TypeObject { id, bases, has_record_marker: false }
}

#[test]
fn exact_scalars_take_their_own_tag() {
    let t = types();
    let all_flags = PASSTHROUGH_SUBCLASS | PASSTHROUGH_DATETIME | PASSTHROUGH_DATACLASS | SERIALIZE_NUMPY;
    for opts in [0, all_flags] {
        assert_eq!(pyobject_to_obtype(&ty(STR, vec![]), opts, &t), ObType::Str);
        assert_eq!(pyobject_to_obtype(&ty(INT, vec![]), opts, &t), ObType::Int);
        assert_eq!(pyobject_to_obtype(&ty(BOOL, vec![INT]), opts, &t), ObType::Bool);
        assert_eq!(pyobject_to_obtype(&ty(NONE, vec![]), opts, &t), ObType::Null);
        assert_eq!(pyobject_to_obtype(&ty(FLOAT, vec![]), opts, &t), ObType::Float);
        assert_eq!(pyobject_to_obtype(&ty(LIST, vec![]), opts, &t), ObType::List);
        assert_eq!(pyobject_to_obtype(&ty(DICT, vec![]), opts, &t), ObType::Dict);
    }
}

#[test]
fn exact_match_ignores_ancestors_and_marker() {
    let t = types();
    let odd = TypeObject { id: INT, bases: vec![ENUM, STR], has_record_marker: true };
    assert_eq!(pyobject_to_obtype(&odd, 0, &t), ObType::Int);
}

#[test]
fn subclasses_normalize_only_with_flag_clear() {
    let t = types();
    let str_sub = ty(100, vec![STR]);
    let int_sub = ty(101, vec![INT]);
    let list_sub = ty(102, vec![LIST]);
    let dict_sub = ty(103, vec![DICT]);
    assert_eq!(pyobject_to_obtype(&str_sub, 0, &t), ObType::StrSubclass);
    assert_eq!(pyobject_to_obtype(&int_sub, 0, &t), ObType::Int);
    assert_eq!(pyobject_to_obtype(&list_sub, 0, &t), ObType::List);
    assert_eq!(pyobject_to_obtype(&dict_sub, 0, &t), ObType::Dict);
    for sub in [&str_sub, &int_sub, &list_sub, &dict_sub] {
        assert_eq!(pyobject_to_obtype(sub, PASSTHROUGH_SUBCLASS, &t), ObType::Unknown);
    }
}

#[test]
fn deep_subclass_is_normalized() {
    let t = types();
    let grandchild = ty(104, vec![102, LIST]);
    assert_eq!(pyobject_to_obtype(&grandchild, 0, &t), ObType::List);
}

#[test]
fn datetime_family_and_passthrough() {
    let t = types();
    assert_eq!(pyobject_to_obtype(&ty(DATETIME, vec![DATE]), 0, &t), ObType::Datetime);
    assert_eq!(pyobject_to_obtype(&ty(DATE, vec![]), 0, &t), ObType::Date);
    assert_eq!(pyobject_to_obtype(&ty(TIME, vec![]), 0, &t), ObType::Time);
    assert_eq!(pyobject_to_obtype(&ty(DATETIME, vec![DATE]), PASSTHROUGH_DATETIME, &t), ObType::Unknown);
    assert_eq!(pyobject_to_obtype(&ty(DATE, vec![]), PASSTHROUGH_DATETIME, &t), ObType::Unknown);
    assert_eq!(pyobject_to_obtype(&ty(TIME, vec![]), PASSTHROUGH_DATETIME, &t), ObType::Unknown);
}

#[test]
fn absent_optional_category_never_matches() {
    let mut l = lookup();
    l.datetime_type = None;
    l.date_type = None;
    let t = InterpreterState::new(l).ok().unwrap().types;
    assert_eq!(pyobject_to_obtype(&ty(DATETIME, vec![]), 0, &t), ObType::Unknown);
    assert_eq!(pyobject_to_obtype(&ty(DATE, vec![]), 0, &t), ObType::Unknown);
    assert_eq!(pyobject_to_obtype(&ty(TIME, vec![]), 0, &t), ObType::Time);
}

#[test]
fn uncommon_exact_categories() {
    let t = types();
    assert_eq!(pyobject_to_obtype_unlikely(&ty(UUID, vec![]), 0, &t), ObType::Uuid);
    assert_eq!(pyobject_to_obtype_unlikely(&ty(TUPLE, vec![]), 0, &t), ObType::Tuple);
    assert_eq!(pyobject_to_obtype_unlikely(&ty(FRAGMENT, vec![]), 0, &t), ObType::Fragment);
    assert_eq!(pyobject_to_obtype(&ty(TUPLE, vec![]), PASSTHROUGH_SUBCLASS, &t), ObType::Tuple);
}

#[test]
fn enum_after_subclass_tests() {
    let t = types();
    assert_eq!(pyobject_to_obtype(&ty(200, vec![ENUM]), 0, &t), ObType::Enum);
    assert_eq!(pyobject_to_obtype(&ty(201, vec![INT, ENUM]), 0, &t), ObType::Int);
    assert_eq!(pyobject_to_obtype(&ty(201, vec![INT, ENUM]), PASSTHROUGH_SUBCLASS, &t), ObType::Enum);
}

#[test]
fn record_marker_and_its_flag() {
    let t = types();
    let rec = TypeObject { id: 300, bases: vec![], has_record_marker: true };
    assert_eq!(pyobject_to_obtype(&rec, 0, &t), ObType::Dataclass);
    assert_eq!(pyobject_to_obtype(&rec, PASSTHROUGH_DATACLASS, &t), ObType::Unknown);
}

#[test]
fn numpy_types_need_the_flag() {
    let t = types();
    assert_eq!(pyobject_to_obtype(&ty(NP_FLOAT64, vec![]), 0, &t), ObType::Unknown);
    assert_eq!(pyobject_to_obtype(&ty(NP_FLOAT64, vec![]), SERIALIZE_NUMPY, &t), ObType::NumpyScalar);
    assert_eq!(pyobject_to_obtype(&ty(NP_ARRAY, vec![]), SERIALIZE_NUMPY, &t), ObType::NumpyArray);
    let mut l = lookup();
    l.numpy = None;
    let t2 = InterpreterState::new(l).ok().unwrap().types;
    assert_eq!(pyobject_to_obtype(&ty(NP_ARRAY, vec![]), SERIALIZE_NUMPY, &t2), ObType::Unknown);
}

#[test]
fn unrecognized_type_with_extensions_off() {
    let t = types();
    assert_eq!(pyobject_to_obtype(&ty(999, vec![998]), 0, &t), ObType::Unknown);
}

#[test]
fn subtype_walk() {
    assert!(is_subtype(&ty(5, vec![]), 5));
    assert!(is_subtype(&ty(5, vec![7, 9]), 9));
    assert!(!is_subtype(&ty(5, vec![7, 9]), 8));
}

#[test]
fn missing_required_type_fails_setup() {
    let mut l = lookup();
    l.uuid_type = None;
    assert_eq!(InterpreterState::new(l).err(), Some(InitError::MissingRequiredType));
    let mut l = lookup();
    l.json_decode_error = None;
    assert_eq!(InterpreterState::new(l).err(), Some(InitError::MissingRequiredType));
}

#[test]
fn setup_keeps_what_host_reported() {
    let st = InterpreterState::new(lookup()).ok().unwrap();
    assert_eq!(st.types.str_type, STR);
    assert_eq!(st.types.datetime_type, Some(DATETIME));
    assert_eq!(st.json_encode_error, 30);
    assert_eq!(st.json_decode_error, 31);
    assert_eq!(st.names.value, "value");
    assert_eq!(st.names.dataclass_fields, "__dataclass_fields__");
    assert_eq!(st.key_map.len(), 0);
}

#[test]
fn indistinct_core_types_fail_setup() {
    let mut l = lookup();
    l.list_type = Some(DICT);
    assert_eq!(InterpreterState::new(l).err(), Some(InitError::IndistinctTypes));
    let mut l = lookup();
    l.list_type = Some(DICT);
    l.str_type = None;
    assert_eq!(InterpreterState::new(l).err(), Some(InitError::MissingRequiredType));
}
