//! The strategy dispatch table: each classified value becomes writer tokens,
//! containers and enum members by recursion.
use vstd::prelude::*;
use crate::typeref::TypeRefs;
use crate::obtype::{ObType, obtype_of, pyobject_to_obtype};
use crate::value::{PyObject, Payload};
use crate::key_cache::PyStr;

verus! {

/// One event handed to the JSON writer.
#[derive(Debug)]
pub enum Token {
    Null,
    True,
    False,
    Int(i128),
    /// An IEEE 754 double, by its bits.
    Float(u64),
    Str(String),
    BeginList,
    EndList,
    BeginDict,
    Key(String),
    EndDict,
}

/// A token as a mathematical value.
pub enum TokenV {
    Null,
    True,
    False,
    Int(int),
    Float(u64),
    Str(Seq<char>),
    BeginList,
    EndList,
    BeginDict,
    Key(Seq<char>),
    EndDict,
}

impl Token {
    pub open spec fn view(&self) -> TokenV {
        match self {
            Token::Null => TokenV::Null,
            Token::True => TokenV::True,
            Token::False => TokenV::False,
            Token::Int(i) => TokenV::Int(*i as int),
            Token::Float(b) => TokenV::Float(*b),
            Token::Str(s) => TokenV::Str(s@),
            Token::BeginList => TokenV::BeginList,
            Token::EndList => TokenV::EndList,
            Token::BeginDict => TokenV::BeginDict,
            Token::Key(s) => TokenV::Key(s@),
            Token::EndDict => TokenV::EndDict,
        }
    }
}

impl Token {
    pub fn is_end_list(&self) -> (r: bool)
        ensures
            r == (self is EndList),
    {
        matches!(self, Token::EndList)
    }

    pub fn is_end_dict(&self) -> (r: bool)
        ensures
            r == (self is EndDict),
    {
        matches!(self, Token::EndDict)
    }
}

pub open spec fn tokens_view(s: Seq<Token>) -> Seq<TokenV> {
    s.map_values(|t: Token| t@)
}

/// Why a value could not be encoded.
#[derive(PartialEq, Eq, Structural, Clone, Copy, Debug)]
pub enum EncodeError {
    /// The value is in no configured category.
    Unrecognized,
    /// The category's writer is not part of this dispatch table.
    Unsupported,
    /// The value's content does not fit its category.
    InvalidValue,
    /// An integer outside the signed and unsigned 64-bit ranges.
    IntegerOutOfRange,
}

pub const I64_MIN: i128 = -9223372036854775808;

pub const I64_MAX: i128 = 9223372036854775807;

pub const U64_MAX: i128 = 18446744073709551615;

/// Integers that the writer takes: those of `i64` or of `u64`.
pub open spec fn int_in_range(i: int) -> bool {
    I64_MIN <= i <= U64_MAX
}

pub open spec fn n_children(o: PyObject) -> nat {
    match o.payload {
        Payload::List(v) => v@.len(),
        Payload::Dict(v) => v@.len(),
        _ => 0,
    }
}

/// The tokens for the first `i` items of the list `o`, or the first error.
pub open spec fn items_prefix(o: PyObject, types: TypeRefs, opts: u32, i: nat) -> Result<
    Seq<TokenV>,
    EncodeError,
>
    decreases o, i,
{
    if i == 0 {
        Ok(Seq::empty())
    } else if let Payload::List(v) = o.payload {
        if i <= v@.len() {
            match items_prefix(o, types, opts, (i - 1) as nat) {
                Err(e) => Err(e),
                Ok(t) => match encoded(v@[i - 1], types, opts) {
                    Err(e) => Err(e),
                    Ok(u) => Ok(t + u),
                },
            }
        } else {
            Ok(Seq::empty())
        }
    } else {
        Ok(Seq::empty())
    }
}

/// The tokens for the first `i` entries of the mapping `o`, or the first error.
pub open spec fn entries_prefix(o: PyObject, types: TypeRefs, opts: u32, i: nat) -> Result<
    Seq<TokenV>,
    EncodeError,
>
    decreases o, i,
{
    if i == 0 {
        Ok(Seq::empty())
    } else if let Payload::Dict(v) = o.payload {
        if i <= v@.len() {
            match entries_prefix(o, types, opts, (i - 1) as nat) {
                Err(e) => Err(e),
                Ok(t) => match encoded(v@[i - 1].1, types, opts) {
                    Err(e) => Err(e),
                    Ok(u) => Ok(t + seq![TokenV::Key(v@[i - 1].0.text@)] + u),
                },
            }
        } else {
            Ok(Seq::empty())
        }
    } else {
        Ok(Seq::empty())
    }
}

/// The tokens that encode `o`, or why it cannot be encoded.
pub open spec fn encoded(o: PyObject, types: TypeRefs, opts: u32) -> Result<
    Seq<TokenV>,
    EncodeError,
>
    decreases o, n_children(o) + 1,
{
    match obtype_of(&o.ob_type, opts, &types) {
        ObType::Str | ObType::StrSubclass => match o.payload {
            Payload::Str(s) => Ok(seq![TokenV::Str(s@)]),
            _ => Err(EncodeError::InvalidValue),
        },
        ObType::Int => match o.payload {
            Payload::Int(i) => if int_in_range(i as int) {
                Ok(seq![TokenV::Int(i as int)])
            } else {
                Err(EncodeError::IntegerOutOfRange)
            },
            _ => Err(EncodeError::InvalidValue),
        },
        ObType::Bool => match o.payload {
            Payload::Bool(b) => Ok(
                seq![
                    if b {
                        TokenV::True
                    } else {
                        TokenV::False
                    },
                ],
            ),
            _ => Err(EncodeError::InvalidValue),
        },
        ObType::Null => Ok(seq![TokenV::Null]),
        ObType::Float => match o.payload {
            Payload::Float(b) => Ok(seq![TokenV::Float(b)]),
            _ => Err(EncodeError::InvalidValue),
        },
        ObType::List | ObType::Tuple => match o.payload {
            Payload::List(v) => match items_prefix(o, types, opts, v@.len()) {
                Ok(t) => Ok(seq![TokenV::BeginList] + t + seq![TokenV::EndList]),
                Err(e) => Err(e),
            },
            _ => Err(EncodeError::InvalidValue),
        },
        ObType::Dict => match o.payload {
            Payload::Dict(v) => match entries_prefix(o, types, opts, v@.len()) {
                Ok(t) => Ok(seq![TokenV::BeginDict] + t + seq![TokenV::EndDict]),
                Err(e) => Err(e),
            },
            _ => Err(EncodeError::InvalidValue),
        },
        ObType::Enum => match o.payload {
            Payload::Member(inner) => encoded(*inner, types, opts),
            _ => Err(EncodeError::InvalidValue),
        },
        ObType::Unknown => Err(EncodeError::Unrecognized),
        _ => Err(EncodeError::Unsupported),
    }
}

} // verus!

verus! {

/// Serializes one value under one context's types and one set of flags.
pub struct PyObjectSerializer<'a> {
    pub ptr: &'a PyObject,
    pub types: &'a TypeRefs,
    pub opts: u32,
}

/// Serializes an enum member by serializing the value it wraps with the same
/// context and flags.
pub struct EnumSerializer<'a> {
    pub previous: &'a PyObjectSerializer<'a>,
}

impl<'a> EnumSerializer<'a> {
    pub fn new(previous: &'a PyObjectSerializer<'a>) -> (r: Self)
        ensures
            r.previous == previous,
    {
        Self { previous: previous }
    }

    /// Appends the tokens of the wrapped value, or fails as it does.
    pub fn serialize(&self, out: &mut Vec<Token>) -> (r: Result<(), EncodeError>)
        ensures
            match self.previous.ptr.payload {
                Payload::Member(inner) => match encoded(*inner, *self.previous.types, self.previous.opts) {
                    Ok(t) => r is Ok && tokens_view(final(out)@) == tokens_view(old(out)@) + t,
                    Err(e) => r == Err::<(), EncodeError>(e),
                },
                _ => r == Err::<(), EncodeError>(EncodeError::InvalidValue),
            },
        decreases *self.previous.ptr, 0nat,
    {
        match &self.previous.ptr.payload {
            Payload::Member(inner) => {
                let s = PyObjectSerializer::new(&**inner, self.previous.types, self.previous.opts);
                s.serialize(out)
            },
            _ => Err(EncodeError::InvalidValue),
        }
    }
}

proof fn lemma_items_err_sticks(o: PyObject, types: TypeRefs, opts: u32, i: nat, j: nat)
    requires
        i <= j,
        o.payload is List,
        j <= o.payload->List_0@.len(),
        items_prefix(o, types, opts, i) is Err,
    ensures
        items_prefix(o, types, opts, j) == items_prefix(o, types, opts, i),
    decreases j - i,
{
    if i < j {
        lemma_items_err_sticks(o, types, opts, i, (j - 1) as nat);
    }
}

proof fn lemma_entries_err_sticks(o: PyObject, types: TypeRefs, opts: u32, i: nat, j: nat)
    requires
        i <= j,
        o.payload is Dict,
        j <= o.payload->Dict_0@.len(),
        entries_prefix(o, types, opts, i) is Err,
    ensures
        entries_prefix(o, types, opts, j) == entries_prefix(o, types, opts, i),
    decreases j - i,
{
    if i < j {
        lemma_entries_err_sticks(o, types, opts, i, (j - 1) as nat);
    }
}

proof fn lemma_encoded_list(o: PyObject, types: TypeRefs, opts: u32)
    requires
        o.payload is List,
        obtype_of(&o.ob_type, opts, &types) == ObType::List || obtype_of(&o.ob_type, opts, &types)
            == ObType::Tuple,
    ensures
        encoded(o, types, opts) == match items_prefix(o, types, opts, o.payload->List_0@.len()) {
            Ok(t) => Ok(seq![TokenV::BeginList] + t + seq![TokenV::EndList]),
            Err(e) => Err::<Seq<TokenV>, EncodeError>(e),
        },
{
}

proof fn lemma_encoded_dict(o: PyObject, types: TypeRefs, opts: u32)
    requires
        o.payload is Dict,
        obtype_of(&o.ob_type, opts, &types) == ObType::Dict,
    ensures
        encoded(o, types, opts) == match entries_prefix(o, types, opts, o.payload->Dict_0@.len()) {
            Ok(t) => Ok(seq![TokenV::BeginDict] + t + seq![TokenV::EndDict]),
            Err(e) => Err::<Seq<TokenV>, EncodeError>(e),
        },
{
}

proof fn lemma_tokens_view_push(s: Seq<Token>, t: Token)
    ensures
        tokens_view(s.push(t)) == tokens_view(s).push(t@),
{
    assert(tokens_view(s.push(t)) =~= tokens_view(s).push(t@));
}

impl<'a> PyObjectSerializer<'a> {
    pub fn new(ptr: &'a PyObject, types: &'a TypeRefs, opts: u32) -> (r: Self)
        ensures
            r.ptr == ptr,
            r.types == types,
            r.opts == opts,
    {
        PyObjectSerializer { ptr, types, opts }
    }

    fn push_token(out: &mut Vec<Token>, t: Token)
        ensures
            tokens_view(final(out)@) == tokens_view(old(out)@).push(t@),
    {
        proof {
            lemma_tokens_view_push(out@, t);
        }
        out.push(t);
    }

    fn serialize_list(o: &PyObject, v: &Vec<PyObject>, types: &TypeRefs, opts: u32, out: &mut Vec<Token>) -> (r: Result<
        (),
        EncodeError,
    >)
        requires
            o.payload == Payload::List(*v),
            obtype_of(&o.ob_type, opts, types) == ObType::List || obtype_of(
                &o.ob_type,
                opts,
                types,
            ) == ObType::Tuple,
        ensures
            match encoded(*o, *types, opts) {
                Ok(t) => r is Ok && tokens_view(final(out)@) == tokens_view(old(out)@) + t,
                Err(e) => r == Err::<(), EncodeError>(e),
            },
        decreases o, n_children(*o),
    {
        let ghost start = tokens_view(out@);
        Self::push_token(out, Token::BeginList);
        let mut i: usize = 0;
        while i < v.len()
            invariant
                o.payload == Payload::List(*v),
                obtype_of(&o.ob_type, opts, types) == ObType::List || obtype_of(
                    &o.ob_type,
                    opts,
                    types,
                ) == ObType::Tuple,
                i <= v@.len(),
                items_prefix(*o, *types, opts, i as nat) is Ok,
                tokens_view(out@) == start.push(TokenV::BeginList) + items_prefix(
                    *o,
                    *types,
                    opts,
                    i as nat,
                )->Ok_0,
            decreases v@.len() - i,
        {
            let s = PyObjectSerializer::new(&v[i], types, opts);
            proof {
                vstd::std_specs::vec::axiom_vec_index_decreases(*v, i as int);
                assert(decreases_to!(*o => o.payload));
                assert(decreases_to!(o.payload => *v));
                assert(decreases_to!(*v => v[i as int]));
                assert(decreases_to!(*o => v[i as int]));
            }
            match s.serialize(out) {
                Ok(()) => {},
                Err(e) => {
                    proof {
                        assert(items_prefix(*o, *types, opts, (i + 1) as nat) == Err::<
                            Seq<TokenV>,
                            EncodeError,
                        >(e));
                        lemma_items_err_sticks(*o, *types, opts, (i + 1) as nat, v@.len());
                        lemma_encoded_list(*o, *types, opts);
                        assert(encoded(*o, *types, opts) == Err::<Seq<TokenV>, EncodeError>(e));
                    }
                    return Err(e);
                },
            }
            i = i + 1;
            assert(tokens_view(out@) =~= start.push(TokenV::BeginList) + items_prefix(
                *o,
                *types,
                opts,
                i as nat,
            )->Ok_0);
        }
        Self::push_token(out, Token::EndList);
        assert(tokens_view(out@) =~= start + encoded(*o, *types, opts)->Ok_0);
        Ok(())
    }

    fn serialize_dict(o: &PyObject, v: &Vec<(PyStr, PyObject)>, types: &TypeRefs, opts: u32, out: &mut Vec<Token>) -> (r: Result<
        (),
        EncodeError,
    >)
        requires
            o.payload == Payload::Dict(*v),
            obtype_of(&o.ob_type, opts, types) == ObType::Dict,
        ensures
            match encoded(*o, *types, opts) {
                Ok(t) => r is Ok && tokens_view(final(out)@) == tokens_view(old(out)@) + t,
                Err(e) => r == Err::<(), EncodeError>(e),
            },
        decreases o, n_children(*o),
    {
        let ghost start = tokens_view(out@);
        Self::push_token(out, Token::BeginDict);
        let mut i: usize = 0;
        while i < v.len()
            invariant
                o.payload == Payload::Dict(*v),
                obtype_of(&o.ob_type, opts, types) == ObType::Dict,
                i <= v@.len(),
                entries_prefix(*o, *types, opts, i as nat) is Ok,
                tokens_view(out@) == start.push(TokenV::BeginDict) + entries_prefix(
                    *o,
                    *types,
                    opts,
                    i as nat,
                )->Ok_0,
            decreases v@.len() - i,
        {
            Self::push_token(out, Token::Key(v[i].0.text.clone()));
            let s = PyObjectSerializer::new(&v[i].1, types, opts);
            proof {
                vstd::std_specs::vec::axiom_vec_index_decreases(*v, i as int);
                assert(decreases_to!(*o => o.payload));
                assert(decreases_to!(o.payload => *v));
                assert(decreases_to!(*v => v[i as int]));
                assert(decreases_to!(v[i as int] => v[i as int].1));
                assert(decreases_to!(*o => v[i as int]));
                assert(decreases_to!(*o => v[i as int].1));
            }
            match s.serialize(out) {
                Ok(()) => {},
                Err(e) => {
                    proof {
                        assert(entries_prefix(*o, *types, opts, (i + 1) as nat) == Err::<
                            Seq<TokenV>,
                            EncodeError,
                        >(e));
                        lemma_entries_err_sticks(*o, *types, opts, (i + 1) as nat, v@.len());
                        lemma_encoded_dict(*o, *types, opts);
                        assert(encoded(*o, *types, opts) == Err::<Seq<TokenV>, EncodeError>(e));
                    }
                    return Err(e);
                },
            }
            i = i + 1;
            assert(tokens_view(out@) =~= start.push(TokenV::BeginDict) + entries_prefix(
                *o,
                *types,
                opts,
                i as nat,
            )->Ok_0);
        }
        Self::push_token(out, Token::EndDict);
        assert(tokens_view(out@) =~= start + encoded(*o, *types, opts)->Ok_0);
        Ok(())
    }

    /// Appends the tokens that encode the value, or fails with the error of
    /// the first part that cannot be encoded.
    pub fn serialize(&self, out: &mut Vec<Token>) -> (r: Result<(), EncodeError>)
        ensures
            match encoded(*self.ptr, *self.types, self.opts) {
                Ok(t) => r is Ok && tokens_view(final(out)@) == tokens_view(old(out)@) + t,
                Err(e) => r == Err::<(), EncodeError>(e),
            },
        decreases *self.ptr, n_children(*self.ptr) + 1,
    {
        let o = self.ptr;
        let ghost start = tokens_view(out@);
        match pyobject_to_obtype(&o.ob_type, self.opts, self.types) {
            ObType::Str | ObType::StrSubclass => match &o.payload {
                Payload::Str(s) => {
                    Self::push_token(out, Token::Str(s.clone()));
                    Ok(())
                },
                _ => Err(EncodeError::InvalidValue),
            },
            ObType::Int => match &o.payload {
                Payload::Int(i) => {
                    if *i < I64_MIN || *i > U64_MAX {
                        return Err(EncodeError::IntegerOutOfRange);
                    }
                    Self::push_token(out, Token::Int(*i));
                    Ok(())
                },
                _ => Err(EncodeError::InvalidValue),
            },
            ObType::Bool => match &o.payload {
                Payload::Bool(b) => {
                    if *b {
                        Self::push_token(out, Token::True);
                    } else {
                        Self::push_token(out, Token::False);
                    }
                    Ok(())
                },
                _ => Err(EncodeError::InvalidValue),
            },
            ObType::Null => {
                Self::push_token(out, Token::Null);
                Ok(())
            },
            ObType::Float => match &o.payload {
                Payload::Float(b) => {
                    Self::push_token(out, Token::Float(*b));
                    Ok(())
                },
                _ => Err(EncodeError::InvalidValue),
            },
            ObType::List | ObType::Tuple => match &o.payload {
                Payload::List(v) => Self::serialize_list(o, v, self.types, self.opts, out),
                _ => Err(EncodeError::InvalidValue),
            },
            ObType::Dict => match &o.payload {
                Payload::Dict(v) => Self::serialize_dict(o, v, self.types, self.opts, out),
                _ => Err(EncodeError::InvalidValue),
            },
            ObType::Enum => EnumSerializer::new(self).serialize(out),
            ObType::Unknown => Err(EncodeError::Unrecognized),
            _ => Err(EncodeError::Unsupported),
        }
    }
}

} // verus!

verus! {

/// An enum member encodes exactly as the value that it wraps, under the same
/// context and flags, failures included.
pub proof fn lemma_enum_delegates(o: PyObject, types: TypeRefs, opts: u32)
    requires
        obtype_of(&o.ob_type, opts, &types) == ObType::Enum,
        o.payload is Member,
    ensures
        encoded(o, types, opts) == encoded(*o.payload->Member_0, types, opts),
{
}

/// An unrecognized value is never dropped or coerced: encoding it fails with
/// the unrecognized-value error.
pub proof fn lemma_unrecognized_fails(o: PyObject, types: TypeRefs, opts: u32)
    requires
        obtype_of(&o.ob_type, opts, &types) == ObType::Unknown,
    ensures
        encoded(o, types, opts) == Err::<Seq<TokenV>, EncodeError>(EncodeError::Unrecognized),
{
}

} // verus!
