use hyperjson::deserializer::{deserialize, skip_value, DecodeError};
use hyperjson::interpreter_state::{InterpreterState, TypeLookup};
use hyperjson::key_cache::{KeyMap, PyStr};
use hyperjson::obtype::PASSTHROUGH_DATETIME;
use hyperjson::serializer::{EncodeError, EnumSerializer, PyObjectSerializer, Token};
use hyperjson::typeref::{TypeObject, TypeRefs};
use hyperjson::value::{builtin_type, Payload, PyObject};

const STR: u64 = 1;
const INT: u64 = 2;
const BOOL: u64 = 3;
const NONE: u64 = 4;
const FLOAT: u64 = 5;
const LIST: u64 = 6;
const DICT: u64 = 7;
const TUPLE: u64 = 8;
const ENUM: u64 = 10;
const DATETIME: u64 = 12;

fn state() -> InterpreterState {
    let l = TypeLookup {
        str_type: Some(STR),
        int_type: Some(INT),
        bool_type: Some(BOOL),
        none_type: Some(NONE),
        float_type: Some(FLOAT),
        list_type: Some(LIST),
        dict_type: Some(DICT),
        tuple_type: Some(TUPLE),
        bytes_type: Some(20),
        bytearray_type: Some(21),
        memoryview_type: Some(22),
        uuid_type: Some(9),
        enum_type: Some(ENUM),
        field_type: Some(23),
        fragment_type: Some(11),
        datetime_type: Some(DATETIME),
        date_type: None,
        time_type: None,
        zoneinfo_type: None,
        numpy: None,
        json_encode_error: Some(30),
        json_decode_error: Some(31),
    };
    InterpreterState::new(l).ok().unwrap()
}

fn obj(id: u64, payload: Payload) -> PyObject {
    PyObject { ob_type: builtin_type(id), payload }
}

fn boolean(b: bool) -> PyObject {
    PyObject {
        ob_type: TypeObject { id: BOOL, bases: vec![INT], has_record_marker: false },
        payload: Payload::Bool(b),
    }
}

fn key(s: &str) -> PyStr {
    PyStr { text: s.to_string(), serial: 0 }
}

fn encode(o: &PyObject, t: &TypeRefs, opts: u32) -> Result<Vec<Token>, EncodeError> {
    let mut out = Vec::new();
    PyObjectSerializer::new(o, t, opts).serialize(&mut out).map(|_| out)
}

fn sample() -> PyObject {
    obj(
        DICT,
        Payload::Dict(vec![
            (key("a"), obj(INT, Payload::Int(1))),
            (
                key("b"),
                obj(
                    LIST,
                    Payload::List(vec![
                        boolean(true),
                        obj(NONE, Payload::Nothing),
                        obj(FLOAT, Payload::Float(2.5f64.to_bits())),
                    ]),
                ),
            ),
        ]),
    )
}

fn same(a: &[Token], b: &[Token]) -> bool {
    format!("{:?}", a) == format!("{:?}", b)
}

#[test]
fn nested_structure_encodes_in_order() {
    let st = state();
    let t = &st.types;
    let toks = encode(&sample(), &t, 0).unwrap();
    let expected = vec![
        Token::BeginDict,
        Token::Key("a".to_string()),
        Token::Int(1),
        Token::Key("b".to_string()),
        Token::BeginList,
        Token::True,
        Token::Null,
        Token::Float(2.5f64.to_bits()),
        Token::EndList,
        Token::EndDict,
    ];
    assert!(same(&toks, &expected));
}

#[test]
fn nested_structure_decodes_with_order_kept() {
    let st = state();
    let t = &st.types;
    let toks = encode(&sample(), &t, 0).unwrap();
    let mut km = KeyMap::new();
    let back = deserialize(&toks, &t, &st.singletons, &mut km).unwrap();
    assert_eq!(back.ob_type.id, DICT);
    let entries = match &back.payload {
        Payload::Dict(v) => v,
        _ => panic!("not a mapping"),
    };
    assert_eq!(entries.len(), 2);
    assert_eq!(entries[0].0.text, "a");
    assert_eq!(entries[1].0.text, "b");
    assert!(matches!(entries[0].1.payload, Payload::Int(1)));
    match &entries[1].1.payload {
        Payload::List(items) => {
            assert_eq!(items.len(), 3);
            assert_eq!(items[0].ob_type.id, BOOL);
            assert!(matches!(items[0].payload, Payload::Bool(true)));
            assert_eq!(items[1].ob_type.id, NONE);
            assert!(matches!(items[2].payload, Payload::Float(b) if f64::from_bits(b) == 2.5));
        }
        _ => panic!("not a list"),
    }
    let again = encode(&back, &t, 0).unwrap();
    assert!(same(&again, &toks));
    assert_eq!(km.len(), 2);
}

#[test]
fn enum_member_encodes_as_its_value() {
    let st = state();
    let t = &st.types;
    let seven = obj(INT, Payload::Int(7));
    let member = PyObject {
        ob_type: TypeObject { id: 500, bases: vec![ENUM], has_record_marker: false },
        payload: Payload::Member(Box::new(obj(INT, Payload::Int(7)))),
    };
    let a = encode(&member, &t, 0).unwrap();
    let b = encode(&seven, &t, 0).unwrap();
    assert!(same(&a, &b));
    assert!(same(&a, &[Token::Int(7)]));
}

#[test]
fn enum_serializer_delegates() {
    let st = state();
    let t = &st.types;
    let member = PyObject {
        ob_type: TypeObject { id: 500, bases: vec![ENUM], has_record_marker: false },
        payload: Payload::Member(Box::new(obj(STR, Payload::Str("x".to_string())))),
    };
    let outer = PyObjectSerializer::new(&member, &t, 0);
    let mut out = Vec::new();
    EnumSerializer::new(&outer).serialize(&mut out).unwrap();
    assert!(same(&out, &[Token::Str("x".to_string())]));
}

#[test]
fn enum_wrapping_unknown_fails_like_it() {
    let st = state();
    let t = &st.types;
    let member = PyObject {
        ob_type: TypeObject { id: 500, bases: vec![ENUM], has_record_marker: false },
        payload: Payload::Member(Box::new(obj(999, Payload::Opaque))),
    };
    assert_eq!(encode(&member, &t, 0).err(), Some(EncodeError::Unrecognized));
}

#[test]
fn unrecognized_value_fails_to_encode() {
    let st = state();
    let t = &st.types;
    let odd = obj(999, Payload::Opaque);
    assert_eq!(encode(&odd, &t, 0).err(), Some(EncodeError::Unrecognized));
    let inside = obj(LIST, Payload::List(vec![obj(INT, Payload::Int(1)), odd]));
    assert_eq!(encode(&inside, &t, 0).err(), Some(EncodeError::Unrecognized));
}

#[test]
fn datetime_has_no_writer_here() {
    let st = state();
    let t = &st.types;
    let dt = obj(DATETIME, Payload::Opaque);
    assert_eq!(encode(&dt, &t, 0).err(), Some(EncodeError::Unsupported));
    assert_eq!(encode(&dt, &t, PASSTHROUGH_DATETIME).err(), Some(EncodeError::Unrecognized));
}

#[test]
fn integers_beyond_64_bits_fail() {
    let st = state();
    let t = &st.types;
    let big = obj(INT, Payload::Int(u64::MAX as i128 + 1));
    assert_eq!(encode(&big, &t, 0).err(), Some(EncodeError::IntegerOutOfRange));
    let small = obj(INT, Payload::Int(i64::MIN as i128 - 1));
    assert_eq!(encode(&small, &t, 0).err(), Some(EncodeError::IntegerOutOfRange));
    let top = obj(INT, Payload::Int(u64::MAX as i128));
    assert!(same(&encode(&top, &t, 0).unwrap(), &[Token::Int(u64::MAX as i128)]));
}

#[test]
fn content_must_fit_category() {
    let st = state();
    let t = &st.types;
    let wrong = obj(INT, Payload::Str("1".to_string()));
    assert_eq!(encode(&wrong, &t, 0).err(), Some(EncodeError::InvalidValue));
}

#[test]
fn tuple_and_subclass_encode_as_base() {
    let st = state();
    let t = &st.types;
    let tup = obj(TUPLE, Payload::List(vec![obj(STR, Payload::Str("s".to_string()))]));
    assert!(same(
        &encode(&tup, &t, 0).unwrap(),
        &[Token::BeginList, Token::Str("s".to_string()), Token::EndList]
    ));
    let sub = PyObject {
        ob_type: TypeObject { id: 600, bases: vec![STR], has_record_marker: false },
        payload: Payload::Str("q".to_string()),
    };
    assert!(same(&encode(&sub, &t, 0).unwrap(), &[Token::Str("q".to_string())]));
}

#[test]
fn empty_containers_round_trip() {
    let st = state();
    let t = &st.types;
    let v = obj(LIST, Payload::List(vec![obj(DICT, Payload::Dict(vec![]))]));
    let toks = encode(&v, &t, 0).unwrap();
    assert!(same(&toks, &[Token::BeginList, Token::BeginDict, Token::EndDict, Token::EndList]));
    let mut km = KeyMap::new();
    let back = deserialize(&toks, &t, &st.singletons, &mut km).unwrap();
    assert!(same(&encode(&back, &t, 0).unwrap(), &toks));
}

#[test]
fn malformed_tokens_are_rejected() {
    let st = state();
    let t = &st.types;
    let mut km = KeyMap::new();
    assert_eq!(deserialize(&vec![], &t, &st.singletons, &mut km).err(), Some(DecodeError::Malformed));
    assert_eq!(deserialize(&vec![Token::BeginList], &t, &st.singletons, &mut km).err(), Some(DecodeError::Malformed));
    assert_eq!(
        deserialize(&vec![Token::Null, Token::Null], &t, &st.singletons, &mut km).err(),
        Some(DecodeError::Malformed)
    );
    assert_eq!(
        deserialize(&vec![Token::BeginDict, Token::Null, Token::EndDict], &t, &st.singletons, &mut km).err(),
        Some(DecodeError::Malformed)
    );
    assert_eq!(
        deserialize(&vec![Token::Int(u64::MAX as i128 + 1)], &t, &st.singletons, &mut km).err(),
        Some(DecodeError::Malformed)
    );
}

#[test]
fn decoded_keys_come_from_the_cache() {
    let st = state();
    let t = &st.types;
    let toks = vec![
        Token::BeginList,
        Token::BeginDict,
        Token::Key("k".to_string()),
        Token::Int(1),
        Token::EndDict,
        Token::BeginDict,
        Token::Key("k".to_string()),
        Token::Int(2),
        Token::EndDict,
        Token::EndList,
    ];
    let mut km = KeyMap::new();
    let back = deserialize(&toks, &t, &st.singletons, &mut km).unwrap();
    let serial_of = |o: &PyObject| match &o.payload {
        Payload::Dict(v) => v[0].0.serial,
        _ => panic!("not a mapping"),
    };
    match &back.payload {
        Payload::List(items) => assert_eq!(serial_of(&items[0]), serial_of(&items[1])),
        _ => panic!("not a list"),
    }
    assert_eq!(km.len(), 1);
}

#[test]
fn long_keys_do_not_fill_the_cache() {
    let st = state();
    let t = &st.types;
    let long = "z".repeat(70);
    let toks = vec![Token::BeginDict, Token::Key(long.clone()), Token::Null, Token::EndDict];
    let mut km = KeyMap::new();
    let back = deserialize(&toks, &t, &st.singletons, &mut km).unwrap();
    assert_eq!(km.len(), 0);
    match &back.payload {
        Payload::Dict(v) => assert_eq!(v[0].0.text, long),
        _ => panic!("not a mapping"),
    }
}

#[test]
fn skip_value_finds_value_ends() {
    let st = state();
    let t = &st.types;
    let toks = encode(&sample(), &t, 0).unwrap();
    assert_eq!(skip_value(&toks, 0), Some(toks.len()));
    assert_eq!(skip_value(&toks, 2), Some(3));
    assert_eq!(skip_value(&toks, 4), Some(9));
    assert_eq!(skip_value(&toks, 1), None);
    assert_eq!(skip_value(&toks, toks.len()), None);
}

#[test]
fn decoded_scalars_match_shared_values() {
    let st = state();
    let t = &st.types;
    let mut km = KeyMap::new();
    let tr = deserialize(&vec![Token::True], t, &st.singletons, &mut km).unwrap();
    assert_eq!(tr.ob_type.id, st.singletons.true_.ob_type.id);
    assert_eq!(tr.ob_type.bases, st.singletons.true_.ob_type.bases);
    assert!(matches!(tr.payload, Payload::Bool(true)));
    let fa = deserialize(&vec![Token::False], t, &st.singletons, &mut km).unwrap();
    assert!(matches!(fa.payload, Payload::Bool(false)));
    let nu = deserialize(&vec![Token::Null], t, &st.singletons, &mut km).unwrap();
    assert_eq!(nu.ob_type.id, st.singletons.none.ob_type.id);
    assert!(matches!(nu.payload, Payload::Nothing));
}
