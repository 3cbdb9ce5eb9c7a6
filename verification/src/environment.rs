//! The table of named types visible to the checker.

use vstd::prelude::*;
use crate::errors::{diagnostic_span_of, TypeError};
use crate::name_map::{entry_keys, keys_ascending, NameMap};
use crate::text::owned;
use crate::token::Span;
use crate::types::{model_of, CoreType, TypeModel};

verus! {

/// Names and models of the built-in types, `void` standing for `unit`.
pub open spec fn builtin_types() -> Map<Seq<char>, TypeModel> {
    map![
        "int8"@ => TypeModel::Int8,
        "int16"@ => TypeModel::Int16,
        "int32"@ => TypeModel::Int32,
        "int64"@ => TypeModel::Int64,
        "uint8"@ => TypeModel::UInt8,
        "uint16"@ => TypeModel::UInt16,
        "uint32"@ => TypeModel::UInt32,
        "uint64"@ => TypeModel::UInt64,
        "float32"@ => TypeModel::Float32,
        "float64"@ => TypeModel::Float64,
        "string"@ => TypeModel::String,
        "boolean"@ => TypeModel::Boolean,
        "unit"@ => TypeModel::Unit,
        "void"@ => TypeModel::Unit,
    ]
}

/// Environment for tracking types and their definitions.
#[derive(Debug)]
pub struct TypeEnvironment {
    /// Type names with their definitions.
    types: NameMap<CoreType>,
    /// Generic type parameters with their constraints.
    generic_params: NameMap<Vec<String>>,
}

impl TypeEnvironment {
    /// Models of the registered types, by name.
    pub closed spec fn types(&self) -> Map<Seq<char>, TypeModel> {
        self.types@.map_values(|t: CoreType| model_of(t))
    }

    /// Registered type names in ascending order.
    pub closed spec fn type_names(&self) -> Seq<Seq<char>> {
        entry_keys(self.types.entries_spec())
    }

    /// Well-formedness of the tables.
    pub closed spec fn wf(&self) -> bool {
        self.types.wf() && self.generic_params.wf()
    }

    /// The registered names are ascending and are exactly the registered types.
    pub proof fn lemma_type_names(&self)
        requires
            self.wf(),
        ensures
            keys_ascending(self.type_names()),
            forall|k: Seq<char>| #[trigger] self.types().contains_key(k) <==> self.type_names().contains(k),
    {
        self.types.lemma_view();
        let e = self.types.entries_spec();
        assert forall|k: Seq<char>| #[trigger] self.types().contains_key(k) <==> self.type_names().contains(k) by {
            if self.types@.contains_key(k) {
                let i = choose|i: int| 0 <= i < e.len() && e[i].0@ == k;
                assert(self.type_names()[i] == k);
            }
            if self.type_names().contains(k) {
                let i = choose|i: int| 0 <= i < self.type_names().len() && self.type_names()[i] == k;
                assert(e[i].0@ == k);
            }
        }
    }

    /// Create a new type environment holding the built-in types.
    pub fn new() -> (r: Self)
        ensures
            r.wf(),
            r.types() == builtin_types(),
    {
        let mut env = TypeEnvironment { types: NameMap::new(), generic_params: NameMap::new() };
        assert(env.types() =~= Map::<Seq<char>, TypeModel>::empty());
        env.register_builtin_types();
        env
    }

    /// Register all built-in core types.
    fn register_builtin_types(&mut self)
        requires
            old(self).wf(),
            old(self).types() == Map::<Seq<char>, TypeModel>::empty(),
        ensures
            final(self).wf(),
            final(self).types() == builtin_types(),
    {
        self.register_type(owned("int8"), CoreType::Int8);
        self.register_type(owned("int16"), CoreType::Int16);
        self.register_type(owned("int32"), CoreType::Int32);
        self.register_type(owned("int64"), CoreType::Int64);
        self.register_type(owned("uint8"), CoreType::UInt8);
        self.register_type(owned("uint16"), CoreType::UInt16);
        self.register_type(owned("uint32"), CoreType::UInt32);
        self.register_type(owned("uint64"), CoreType::UInt64);
        self.register_type(owned("float32"), CoreType::Float32);
        self.register_type(owned("float64"), CoreType::Float64);
        self.register_type(owned("string"), CoreType::String);
        self.register_type(owned("boolean"), CoreType::Boolean);
        self.register_type(owned("unit"), CoreType::Unit);
        self.register_type(owned("void"), CoreType::Unit);
        assert(self.types() =~= builtin_types());
    }

    /// Look up a type by name; an unknown name is reported at `span`.
    pub fn lookup_type(&self, name: &str, span: Span) -> (r: Result<&CoreType, TypeError>)
        requires
            self.wf(),
        ensures
            self.types().contains_key(name@) ==> (r matches Ok(t) && model_of(*t) == self.types()[name@]),
            !self.types().contains_key(name@) ==> (r matches Err(TypeError::TypeNotFound { type_label, span: s })
                && type_label@ == name@ && s == diagnostic_span_of(span)),
    {
        match self.types.get(name) {
            Some(t) => Ok(t),
            None => Err(TypeError::TypeNotFound { type_label: owned(name), span: TypeError::span_from_span(span) }),
        }
    }

    /// Register a type in the environment, replacing any earlier one of that name.
    pub fn register_type(&mut self, name: String, core_type: CoreType)
        requires
            old(self).wf(),
        ensures
            final(self).wf(),
            final(self).types() == old(self).types().insert(name@, model_of(core_type)),
    {
        let ghost before = self.types@;
        let ghost k = name@;
        let ghost m = model_of(core_type);
        self.types.insert(name, core_type);
        assert(self.types() =~= before.map_values(|t: CoreType| model_of(t)).insert(k, m));
    }

    /// Check if a type exists in the environment.
    pub fn has_type(&self, name: &str) -> (r: bool)
        requires
            self.wf(),
        ensures
            r == self.types().contains_key(name@),
    {
        self.types.contains_key(name)
    }

    /// All registered type names, sorted.
    pub fn get_type_names(&self) -> (r: Vec<String>)
        requires
            self.wf(),
        ensures
            r@.map_values(|s: String| s@) == self.type_names(),
    {
        let n = self.types.len();
        let mut out: Vec<String> = Vec::new();
        let mut i: usize = 0;
        while i < n
            invariant
                self.wf(),
                n == self.types.entries_spec().len(),
                i <= n,
                out@.len() == i,
                forall|j: int| 0 <= j < i ==> #[trigger] out@[j]@ == self.types.entries_spec()[j].0@,
            decreases n - i,
        {
            let (name, _) = self.types.entry_at(i);
            out.push(name.clone());
            i = i + 1;
        }
        assert(out@.map_values(|s: String| s@) =~= self.type_names());
        out
    }
}

impl Default for TypeEnvironment {
    /// An environment holding the built-in types.
    fn default() -> (r: Self)
        ensures
            r.wf(),
            r.types() == builtin_types(),
    {
        Self::new()
    }
}

} // verus!
