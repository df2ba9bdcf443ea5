//! Per-context state: what one isolated runtime instance caches, the registry
//! that builds it once per context, and the per-thread memo in front of it.
use vstd::prelude::*;
use crate::typeref::{TypeRefs, NumpyTypes, distinct7};
use crate::key_cache::KeyMap;
use crate::value::Singletons;
use std::collections::HashMap;

verus! {

broadcast use vstd::std_specs::hash::group_hash_axioms;

/// What the host reported when asked for each type identity and error
/// category; `None` where it could not supply one.
pub struct TypeLookup {
    pub str_type: Option<u64>,
    pub int_type: Option<u64>,
    pub bool_type: Option<u64>,
    pub none_type: Option<u64>,
    pub float_type: Option<u64>,
    pub list_type: Option<u64>,
    pub dict_type: Option<u64>,
    pub tuple_type: Option<u64>,
    pub bytes_type: Option<u64>,
    pub bytearray_type: Option<u64>,
    pub memoryview_type: Option<u64>,
    pub uuid_type: Option<u64>,
    pub enum_type: Option<u64>,
    pub field_type: Option<u64>,
    pub fragment_type: Option<u64>,
    pub datetime_type: Option<u64>,
    pub date_type: Option<u64>,
    pub time_type: Option<u64>,
    pub zoneinfo_type: Option<u64>,
    pub numpy: Option<NumpyTypes>,
    pub json_encode_error: Option<u64>,
    pub json_decode_error: Option<u64>,
}

impl TypeLookup {
    /// The core scalar and container identities, where reported, are distinct.
    pub open spec fn core_distinct(&self) -> bool {
        distinct7(
            self.str_type->0,
            self.int_type->0,
            self.bool_type->0,
            self.none_type->0,
            self.float_type->0,
            self.list_type->0,
            self.dict_type->0,
        )
    }

    /// Every required category and both error categories were supplied.
    pub open spec fn required_present(&self) -> bool {
        &&& self.str_type is Some
        &&& self.int_type is Some
        &&& self.bool_type is Some
        &&& self.none_type is Some
        &&& self.float_type is Some
        &&& self.list_type is Some
        &&& self.dict_type is Some
        &&& self.tuple_type is Some
        &&& self.bytes_type is Some
        &&& self.bytearray_type is Some
        &&& self.memoryview_type is Some
        &&& self.uuid_type is Some
        &&& self.enum_type is Some
        &&& self.field_type is Some
        &&& self.fragment_type is Some
        &&& self.json_encode_error is Some
        &&& self.json_decode_error is Some
    }
}

/// Why a context could not be set up.
#[derive(PartialEq, Eq, Structural, Clone, Copy, Debug)]
pub enum InitError {
    MissingRequiredType,
    /// Two of the core scalar and container categories share an identity.
    IndistinctTypes,
}

/// The attribute names that introspection of records, enums and arrays uses.
pub struct AttrNames {
    pub value: String,
    pub int_attr: String,
    pub dict: String,
    pub dataclass_fields: String,
    pub slots: String,
    pub field_type: String,
    pub array_struct: String,
    pub dtype: String,
    pub descr: String,
    pub utcoffset: String,
    pub normalize: String,
    pub convert: String,
    pub dst: String,
    pub default: String,
    pub option: String,
}

impl AttrNames {
    pub fn new() -> (r: AttrNames)
        ensures
            r.value@ == "value"@,
            r.int_attr@ == "int"@,
            r.dict@ == "__dict__"@,
            r.dataclass_fields@ == "__dataclass_fields__"@,
            r.slots@ == "__slots__"@,
            r.field_type@ == "_field_type"@,
            r.array_struct@ == "__array_struct__"@,
            r.dtype@ == "dtype"@,
            r.descr@ == "descr"@,
            r.utcoffset@ == "utcoffset"@,
            r.normalize@ == "normalize"@,
            r.convert@ == "convert"@,
            r.dst@ == "dst"@,
            r.default@ == "default"@,
            r.option@ == "option"@,
    {
        AttrNames {
            value: "value".to_owned(),
            int_attr: "int".to_owned(),
            dict: "__dict__".to_owned(),
            dataclass_fields: "__dataclass_fields__".to_owned(),
            slots: "__slots__".to_owned(),
            field_type: "_field_type".to_owned(),
            array_struct: "__array_struct__".to_owned(),
            dtype: "dtype".to_owned(),
            descr: "descr".to_owned(),
            utcoffset: "utcoffset".to_owned(),
            normalize: "normalize".to_owned(),
            convert: "convert".to_owned(),
            dst: "dst".to_owned(),
            default: "default".to_owned(),
            option: "option".to_owned(),
        }
    }
}

/// Everything one context caches. Set up once; only `key_map` changes after.
pub struct InterpreterState {
    pub types: TypeRefs,
    pub singletons: Singletons,
    pub names: AttrNames,
    pub json_encode_error: u64,
    pub json_decode_error: u64,
    pub key_map: KeyMap,
}

/// `st` holds exactly what `l` reported, the shared values and attribute
/// names, and an empty key cache.
pub open spec fn built_from(st: &InterpreterState, l: &TypeLookup) -> bool {
    &&& st.singletons.wf(&st.types)
    &&& st.names.value@ == "value"@
    &&& st.names.int_attr@ == "int"@
    &&& st.names.dict@ == "__dict__"@
    &&& st.names.dataclass_fields@ == "__dataclass_fields__"@
    &&& st.names.slots@ == "__slots__"@
    &&& st.names.field_type@ == "_field_type"@
    &&& st.names.array_struct@ == "__array_struct__"@
    &&& st.names.dtype@ == "dtype"@
    &&& st.names.descr@ == "descr"@
    &&& st.names.utcoffset@ == "utcoffset"@
    &&& st.names.normalize@ == "normalize"@
    &&& st.names.convert@ == "convert"@
    &&& st.names.dst@ == "dst"@
    &&& st.names.default@ == "default"@
    &&& st.names.option@ == "option"@
    &&& Some(st.types.str_type) == l.str_type
    &&& Some(st.types.int_type) == l.int_type
    &&& Some(st.types.bool_type) == l.bool_type
    &&& Some(st.types.none_type) == l.none_type
    &&& Some(st.types.float_type) == l.float_type
    &&& Some(st.types.list_type) == l.list_type
    &&& Some(st.types.dict_type) == l.dict_type
    &&& Some(st.types.tuple_type) == l.tuple_type
    &&& Some(st.types.bytes_type) == l.bytes_type
    &&& Some(st.types.bytearray_type) == l.bytearray_type
    &&& Some(st.types.memoryview_type) == l.memoryview_type
    &&& Some(st.types.uuid_type) == l.uuid_type
    &&& Some(st.types.enum_type) == l.enum_type
    &&& Some(st.types.field_type) == l.field_type
    &&& Some(st.types.fragment_type) == l.fragment_type
    &&& st.types.datetime_type == l.datetime_type
    &&& st.types.date_type == l.date_type
    &&& st.types.time_type == l.time_type
    &&& st.types.zoneinfo_type == l.zoneinfo_type
    &&& st.types.numpy == l.numpy
    &&& Some(st.json_encode_error) == l.json_encode_error
    &&& Some(st.json_decode_error) == l.json_decode_error
    &&& st.key_map@ == Map::<u64, (Seq<char>, u64)>::empty()
    &&& st.key_map.next_serial == 0
}

impl InterpreterState {
    /// Sets up a context from what the host reported: fails when a required
    /// category is missing, or else when two core categories share an
    /// identity; optional ones stay absent.
    pub fn new(lookup: TypeLookup) -> (r: Result<InterpreterState, InitError>)
        ensures
            !lookup.required_present() ==> r == Err::<InterpreterState, InitError>(
                InitError::MissingRequiredType,
            ),
            lookup.required_present() ==> (r is Ok <==> lookup.core_distinct()),
            lookup.required_present() && !lookup.core_distinct() ==> r == Err::<
                InterpreterState,
                InitError,
            >(InitError::IndistinctTypes),
            r matches Ok(st) ==> built_from(&st, &lookup) && st.types.wf(),
    {
        let TypeLookup {
            str_type,
            int_type,
            bool_type,
            none_type,
            float_type,
            list_type,
            dict_type,
            tuple_type,
            bytes_type,
            bytearray_type,
            memoryview_type,
            uuid_type,
            enum_type,
            field_type,
            fragment_type,
            datetime_type,
            date_type,
            time_type,
            zoneinfo_type,
            numpy,
            json_encode_error,
            json_decode_error,
        } = lookup;
        match (
            (str_type, int_type, bool_type, none_type, float_type, list_type),
            (dict_type, tuple_type, bytes_type, bytearray_type, memoryview_type, uuid_type),
            (enum_type, field_type, fragment_type, json_encode_error, json_decode_error),
        ) {
            (
                (Some(s), Some(i), Some(b), Some(n), Some(f), Some(l)),
                (Some(d), Some(t), Some(by), Some(ba), Some(mv), Some(u)),
                (Some(en), Some(fi), Some(fr), Some(ee), Some(de)),
            ) => {
                let types = TypeRefs {
                    str_type: s,
                    int_type: i,
                    bool_type: b,
                    none_type: n,
                    float_type: f,
                    list_type: l,
                    dict_type: d,
                    tuple_type: t,
                    bytes_type: by,
                    bytearray_type: ba,
                    memoryview_type: mv,
                    uuid_type: u,
                    enum_type: en,
                    field_type: fi,
                    fragment_type: fr,
                    datetime_type,
                    date_type,
                    time_type,
                    zoneinfo_type,
                    numpy,
                };
                if !types.check_wf() {
                    return Err(InitError::IndistinctTypes);
                }
                let singletons = Singletons::new(&types);
                Ok(
                    InterpreterState {
                        types,
                        singletons,
                        names: AttrNames::new(),
                        json_encode_error: ee,
                        json_decode_error: de,
                        key_map: KeyMap::new(),
                    },
                )
            },
            _ => Err(InitError::MissingRequiredType),
        }
    }
}

} // verus!

verus! {

/// The position of `m` in `ids`, if it is there.
pub open spec fn position_of(ids: Seq<u64>, m: u64) -> Option<int> {
    if ids.contains(m) {
        Some(choose|i: int| 0 <= i < ids.len() && ids[i] == m)
    } else {
        None
    }
}

/// What resolving `m` does to the identities of a registry whose every
/// construction succeeds: the identities after, and the position handed out.
pub open spec fn resolved(ids: Seq<u64>, m: u64) -> (Seq<u64>, int) {
    match position_of(ids, m) {
        Some(i) => (ids, i),
        None => (ids.push(m), ids.len() as int),
    }
}

/// Context states by context identity. Entries are added, never removed or
/// replaced; a state is named by its position. `index` maps each registered
/// identity to its position; `modules` keeps the identities in the order they
/// were registered.
pub struct Registry {
    pub index: HashMap<u64, usize>,
    pub modules: Vec<u64>,
    pub states: Vec<InterpreterState>,
}

impl Registry {
    pub open spec fn wf(&self) -> bool {
        &&& self.modules@.len() == self.states@.len()
        &&& self.modules@.no_duplicates()
        &&& forall|m: u64| #[trigger]
            self.index@.contains_key(m) <==> self.modules@.contains(m)
        &&& forall|m: u64| #[trigger]
            self.index@.contains_key(m) ==> self.index@[m] < self.modules@.len()
                && self.modules@[self.index@[m] as int] == m
    }

    pub open spec fn view(&self) -> Seq<u64> {
        self.modules@
    }

    pub fn new() -> (r: Registry)
        ensures
            r.wf(),
            r@ == Seq::<u64>::empty(),
    {
        Registry { index: HashMap::new(), modules: Vec::new(), states: Vec::new() }
    }

    /// The position of the state of context `module`, if it has one.
    pub fn find(&self, module: u64) -> (r: Option<usize>)
        requires
            self.wf(),
        ensures
            r matches Some(i) ==> i < self@.len() && self@[i as int] == module,
            r is None <==> !self@.contains(module),
    {
        match self.index.get(&module) {
            Some(i) => Some(*i),
            None => None,
        }
    }

    /// Returns the state of context `module`, set up from `lookup` if the
    /// context has none yet. An existing state is returned as it is and
    /// `lookup` is not used; a failed set-up registers nothing.
    pub fn get_or_init_state(&mut self, module: u64, lookup: TypeLookup) -> (r: Result<
        usize,
        InitError,
    >)
        requires
            old(self).wf(),
        ensures
            final(self).wf(),
            final(self).states@.subrange(0, old(self).states@.len() as int) == old(self).states@,
            old(self)@.contains(module) ==> {
                &&& r matches Ok(i) && i < old(self)@.len() && old(self)@[i as int] == module
                &&& final(self)@ == old(self)@
                &&& final(self).states@ == old(self).states@
            },
            !old(self)@.contains(module) ==> (r is Ok <==> lookup.required_present()
                && lookup.core_distinct()),
            !old(self)@.contains(module) && r is Ok ==> {
                &&& r matches Ok(i) && i == old(self)@.len()
                &&& final(self)@ == old(self)@.push(module)
                &&& final(self).states@.drop_last() == old(self).states@
                &&& built_from(&final(self).states@.last(), &lookup)
            },
            r is Err ==> {
                &&& !old(self)@.contains(module)
                &&& (!lookup.required_present() ==> r == Err::<usize, InitError>(
                    InitError::MissingRequiredType,
                ))
                &&& (lookup.required_present() ==> r == Err::<usize, InitError>(
                    InitError::IndistinctTypes,
                ))
                &&& final(self)@ == old(self)@
                &&& final(self).states@ == old(self).states@
            },
    {
        match self.find(module) {
            Some(i) => Ok(i),
            None => match InterpreterState::new(lookup) {
                Ok(st) => {
                    let i = self.modules.len();
                    let ghost old_modules = self.modules@;
                    let ghost old_index = self.index@;
                    self.modules.push(module);
                    self.states.push(st);
                    self.index.insert(module, i);
                    proof {
                        assert(self.modules@[i as int] == module);
                        assert forall|m: u64|
                            #[trigger] self.index@.contains_key(m) <==> self.modules@.contains(m) by {
                            if self.modules@.contains(m) && m != module {
                                let j = choose|j: int| 0 <= j < self.modules@.len() && self.modules@[j] == m;
                                assert(j < old_modules.len());
                                assert(old_modules[j] == m);
                            }
                            if m != module && old_modules.contains(m) {
                                let j = choose|j: int| 0 <= j < old_modules.len() && old_modules[j] == m;
                                assert(self.modules@[j] == m);
                            }
                            if m == module {
                                assert(self.modules@.contains(m));
                            }
                        }
                        assert forall|m: u64| #[trigger] self.index@.contains_key(m) implies self.index@[m]
                            < self.modules@.len() && self.modules@[self.index@[m] as int] == m by {
                            if m != module {
                                assert(old_index.contains_key(m));
                            }
                        }
                        assert forall|a: int, b: int|
                            0 <= a < b < self.modules@.len() implies self.modules@[a] != self.modules@[b] by {
                            if b == i {
                                assert(old_modules.contains(old_modules[a]));
                            }
                        }
                    }
                    assert(self.states@.drop_last() =~= old(self).states@);
                    Ok(i)
                },
                Err(e) => Err(e),
            },
        }
    }

    /// The state at position `i`.
    pub fn state(&self, i: usize) -> (r: &InterpreterState)
        requires
            self.wf(),
            i < self@.len(),
        ensures
            *r == self.states@[i as int],
    {
        &self.states[i]
    }

    /// The state at position `i`, to use its key cache.
    pub fn state_mut(&mut self, i: usize) -> (r: &mut InterpreterState)
        requires
            old(self).wf(),
            i < old(self)@.len(),
        ensures
            *r == old(self).states@[i as int],
            final(self)@ == old(self)@,
            final(self).states@ == old(self).states@.update(i as int, *final(r)),
    {
        &mut self.states[i]
    }
}

/// Resolving a context twice hands out the same state and constructs it at
/// most once: the second resolution changes nothing, and the first adds at
/// most one entry.
pub proof fn lemma_resolve_idempotent(ids: Seq<u64>, m: u64)
    requires
        ids.no_duplicates(),
    ensures
        resolved(resolved(ids, m).0, m) == resolved(ids, m),
        resolved(ids, m).0.len() <= ids.len() + 1,
        resolved(ids, m).0.no_duplicates(),
        resolved(ids, m).0[resolved(ids, m).1] == m,
{
    let (ids1, i1) = resolved(ids, m);
    if ids.contains(m) {
        let i = choose|i: int| 0 <= i < ids.len() && ids[i] == m;
        assert(ids1[i1] == m);
    } else {
        assert(ids1[ids.len() as int] == m);
        assert(ids1.contains(m));
        let j = choose|j: int| 0 <= j < ids1.len() && ids1[j] == m;
        assert(j == ids.len()) by {
            if j < ids.len() {
                assert(ids[j] == m);
            }
        }
        assert forall|a: int, b: int| 0 <= a < b < ids1.len() implies ids1[a] != ids1[b] by {
            if b == ids.len() {
                assert(ids1[a] == ids[a]);
                assert(ids.contains(ids[a]));
            }
        }
    }
}

/// `get_or_init_state` follows `resolved` where construction succeeds.
proof fn lemma_registry_follows_resolved(before: Seq<u64>, after: Seq<u64>, m: u64, i: int)
    requires
        before.no_duplicates(),
        before.contains(m) ==> after == before && 0 <= i < before.len() && before[i] == m,
        !before.contains(m) ==> after == before.push(m) && i == before.len(),
    ensures
        resolved(before, m) == (after, i),
{
    if before.contains(m) {
        let k = choose|k: int| 0 <= k < before.len() && before[k] == m;
        assert(k == i);
    }
}

/// The per-thread memo of the last context resolved and its state.
pub struct ThreadCache {
    pub cached: Option<(u64, usize)>,
}

impl ThreadCache {
    pub fn new() -> (r: ThreadCache)
        ensures
            r.cached is None,
    {
        ThreadCache { cached: None }
    }

    /// The memo agrees with the registry.
    pub open spec fn coherent(&self, reg: &Registry) -> bool {
        self.cached matches Some((m, i)) ==> i < reg@.len() && reg@[i as int] == m
    }

    /// The memoized state, if the memo is for the active context.
    pub fn lookup(&self, active: u64) -> (r: Option<usize>)
        ensures
            r == (match self.cached {
                Some((m, i)) => if m == active {
                    Some(i)
                } else {
                    None
                },
                None => None,
            }),
    {
        match self.cached {
            Some((m, i)) => if m == active {
                Some(i)
            } else {
                None
            },
            None => None,
        }
    }
}

/// The state of the active context: from the thread's memo when it is for
/// that context, else resolved through the registry and memoized.
pub fn get_current_state(
    cache: &mut ThreadCache,
    registry: &mut Registry,
    active: u64,
    lookup: TypeLookup,
) -> (r: Result<usize, InitError>)
    requires
        old(registry).wf(),
        old(cache).coherent(old(registry)),
    ensures
        final(registry).wf(),
        final(cache).coherent(final(registry)),
        final(registry).states@.subrange(0, old(registry).states@.len() as int)
            == old(registry).states@,
        old(registry)@.contains(active) ==> {
            &&& r matches Ok(i) && old(registry)@[i as int] == active
            &&& final(registry)@ == old(registry)@
            &&& final(registry).states@ == old(registry).states@
        },
        !old(registry)@.contains(active) ==> (r is Ok <==> lookup.required_present()
            && lookup.core_distinct()),
        r matches Ok(i) ==> i < final(registry)@.len() && final(registry)@[i as int] == active
            && final(cache).cached == Some((active, i)),
        r matches Ok(i) ==> (final(registry)@, i as int) == resolved(old(registry)@, active),
        r is Err ==> final(registry)@ == old(registry)@,
{
    match cache.lookup(active) {
        Some(i) => {
            proof {
                lemma_registry_follows_resolved(registry@, registry@, active, i as int);
            }
            Ok(i)
        },
        None => {
            let r = registry.get_or_init_state(active, lookup);
            if let Ok(i) = r {
                cache.cached = Some((active, i));
                proof {
                    lemma_registry_follows_resolved(old(registry)@, registry@, active, i as int);
                }
            }
            r
        },
    }
}

} // verus!
