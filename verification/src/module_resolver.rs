//! Module interfaces, import resolution and dependency-cycle detection.

use vstd::prelude::*;
use crate::ast::BorrowKind;
use crate::errors::{diagnostic_span_of, TypeError};
use crate::name_map::NameMap;
use crate::symbol_table::{symbol_model, SymbolInfo, SymbolModel, SymbolType, Visibility};
use crate::text::{join3, join5, owned, str_eq, seq_less, lemma_seq_less_irreflexive, lemma_seq_less_transitive};
use crate::token::{Position, Span};
use crate::types::{CoreType, GenericTypeParameter, model_of, models_of, params_model, param_model, lemma_models_of, lemma_params_model, ParamModel, TypeModel};

verus! {

/// Import availability for a registered module interface.
#[derive(Debug, Clone, Copy, PartialEq, Eq, Structural)]
pub enum ModuleAvailability {
    /// Importable from ordinary production and test compilations.
    Always,
    /// Importable only when the checker is explicitly running in test mode.
    TestOnly,
    /// Parsed and retained for source-of-truth metadata, but not importable yet.
    FuturePublicApi,
}

impl ModuleAvailability {
    /// Return true when this availability is importable under the current checker mode.
    pub fn is_import_allowed(self, allow_test_only: bool, allow_future_public_api: bool) -> (r: bool)
        ensures
            r == (match self {
                ModuleAvailability::Always => true,
                ModuleAvailability::TestOnly => allow_test_only,
                ModuleAvailability::FuturePublicApi => allow_future_public_api,
            }),
    {
        match self {
            ModuleAvailability::Always => true,
            ModuleAvailability::TestOnly => allow_test_only,
            ModuleAvailability::FuturePublicApi => allow_future_public_api,
        }
    }

    /// Human-readable reason used in diagnostics when an import is rejected.
    pub fn rejection_reason(self) -> (r: &'static str)
        ensures
            r@ == (match self {
                ModuleAvailability::Always => "module is available"@,
                ModuleAvailability::TestOnly =>
                    "module is test-only and may only be imported by test-runner compilations"@,
                ModuleAvailability::FuturePublicApi =>
                    "terminal public API prerequisite validation has not completed"@,
            }),
    {
        match self {
            ModuleAvailability::Always => "module is available",
            ModuleAvailability::TestOnly =>
                "module is test-only and may only be imported by test-runner compilations",
            ModuleAvailability::FuturePublicApi =>
                "terminal public API prerequisite validation has not completed",
        }
    }

    /// Human-readable help used in diagnostics when an import is rejected.
    pub fn rejection_help(self) -> (r: &'static str)
        ensures
            r@ == (match self {
                ModuleAvailability::Always => "No availability action is required."@,
                ModuleAvailability::TestOnly =>
                    "Remove this production import or run the checker in test-only terminal mode."@,
                ModuleAvailability::FuturePublicApi =>
                    "Enable the selected terminal public API prerequisite set before importing this module."@,
            }),
    {
        match self {
            ModuleAvailability::Always => "No availability action is required.",
            ModuleAvailability::TestOnly =>
                "Remove this production import or run the checker in test-only terminal mode.",
            ModuleAvailability::FuturePublicApi =>
                "Enable the selected terminal public API prerequisite set before importing this module.",
        }
    }
}

/// Type-declaration metadata retained for module-interface consumers.
#[derive(Debug)]
pub struct ModuleTypeDeclaration {
    /// Type name exported or declared by this interface.
    pub name: String,
    /// Repository-relative declaration source path.
    pub source_path: String,
    /// Whether the declaration is public in its source.
    pub is_public: bool,
    /// Source span inside the declaration file.
    pub span: Span,
}

/// Export/import view for one module path.
#[derive(Debug)]
pub struct ModuleInterface {
    /// Symbols visible to importers.
    pub exports: NameMap<SymbolInfo>,
    /// Symbols declared in-module but not exportable.
    pub private_symbols: NameMap<SymbolInfo>,
    /// Canonical module identifier.
    pub path: String,
    /// ADT field layouts keyed by nominal owner name.
    pub adt_fields: NameMap<NameMap<CoreType>>,
    /// Ordered function return-label metadata keyed by symbol name.
    pub function_return_labels: NameMap<Vec<String>>,
    /// Ordered function parameter borrow metadata keyed by symbol name.
    pub function_borrow_kinds: NameMap<Vec<BorrowKind>>,
    /// Availability gate applied before imports from this interface are resolved.
    pub availability: ModuleAvailability,
    /// Namespace declarations parsed from the module source.
    pub namespaces: Vec<Vec<String>>,
    /// Type declaration metadata keyed by declared type name.
    pub type_declarations: NameMap<ModuleTypeDeclaration>,
}

/// The error reporting a duplicate public export.
pub open spec fn is_duplicate_export_error(e: TypeError, name: Seq<char>, module: Seq<char>, span: Span) -> bool {
    e matches TypeError::ConstraintSolvingFailed { reason, span: s } && reason@ == "duplicate public export '"@
        + name + "' in module '"@ + module + "'"@ && s == diagnostic_span_of(span)
}

/// A symbol registered without error as public or entry is the export of its name.
pub proof fn law_registered_export_is_exported(before: ModuleInterface, after: ModuleInterface, symbol: SymbolInfo)
    requires
        symbol_registered(before, after, symbol, Ok(())),
        !(symbol.visibility is Private),
    ensures
        after.exports@.contains_key(symbol.name@),
        after.exports@[symbol.name@] == symbol,
{
}

/// The effect of registering `symbol` on an interface: private symbols are filed
/// (replacing an earlier one of the same name); a public or entry symbol is exported
/// unless its name is already exported, which fails with a duplicate-export error and
/// changes nothing. Every other table is left as it was.
pub open spec fn symbol_registered(
    before: ModuleInterface,
    after: ModuleInterface,
    symbol: SymbolInfo,
    r: Result<(), TypeError>,
) -> bool {
    &&& after.path == before.path
    &&& after.availability == before.availability
    &&& after.adt_fields == before.adt_fields
    &&& after.function_return_labels == before.function_return_labels
    &&& after.function_borrow_kinds == before.function_borrow_kinds
    &&& after.namespaces == before.namespaces
    &&& after.type_declarations == before.type_declarations
    &&& if symbol.visibility is Private {
        &&& r is Ok
        &&& after.exports == before.exports
        &&& after.private_symbols@ == before.private_symbols@.insert(symbol.name@, symbol)
    } else if before.exports@.contains_key(symbol.name@) {
        &&& after.private_symbols == before.private_symbols
        &&& after.exports == before.exports
        &&& r matches Err(e) && is_duplicate_export_error(e, symbol.name@, before.path@, symbol.source_location)
    } else {
        &&& r is Ok
        &&& after.private_symbols == before.private_symbols
        &&& after.exports@ == before.exports@.insert(symbol.name@, symbol)
    }
}

impl ModuleInterface {
    /// All keyed tables are well formed.
    pub open spec fn wf(&self) -> bool {
        &&& self.exports.wf()
        &&& self.private_symbols.wf()
        &&& self.adt_fields.wf()
        &&& self.function_return_labels.wf()
        &&& self.function_borrow_kinds.wf()
        &&& self.type_declarations.wf()
    }

    /// The interface holds no metadata.
    pub open spec fn is_empty_for(&self, path: Seq<char>, availability: ModuleAvailability) -> bool {
        &&& self.is_fresh_apart_from_adt_fields(path, availability)
        &&& self.adt_fields@ == Map::<Seq<char>, NameMap<CoreType>>::empty()
    }

    /// The interface holds no metadata other than, possibly, ADT field layouts.
    pub open spec fn is_fresh_apart_from_adt_fields(&self, path: Seq<char>, availability: ModuleAvailability) -> bool {
        &&& self.wf()
        &&& self.path@ == path
        &&& self.availability == availability
        &&& self.exports@ == Map::<Seq<char>, SymbolInfo>::empty()
        &&& self.private_symbols@ == Map::<Seq<char>, SymbolInfo>::empty()
        &&& self.function_return_labels@ == Map::<Seq<char>, Vec<String>>::empty()
        &&& self.function_borrow_kinds@ == Map::<Seq<char>, Vec<BorrowKind>>::empty()
        &&& self.namespaces@.len() == 0
        &&& self.type_declarations@ == Map::<Seq<char>, ModuleTypeDeclaration>::empty()
    }

    /// Build an empty interface for `path`.
    pub fn new(path: String) -> (r: Self)
        ensures
            r.is_empty_for(path@, ModuleAvailability::Always),
    {
        Self::with_availability(path, ModuleAvailability::Always)
    }

    /// Build an empty interface with an explicit import availability gate.
    pub fn with_availability(path: String, availability: ModuleAvailability) -> (r: Self)
        ensures
            r.is_empty_for(path@, availability),
    {
        ModuleInterface {
            exports: NameMap::new(),
            private_symbols: NameMap::new(),
            path,
            adt_fields: NameMap::new(),
            function_return_labels: NameMap::new(),
            function_borrow_kinds: NameMap::new(),
            availability,
            namespaces: Vec::new(),
            type_declarations: NameMap::new(),
        }
    }

    /// Insert a symbol into the export or private table. A second public export with
    /// the same name is rejected and leaves the interface unchanged.
    pub fn register_symbol(&mut self, symbol: SymbolInfo) -> (r: Result<(), TypeError>)
        requires
            old(self).wf(),
        ensures
            final(self).wf(),
            symbol_registered(*old(self), *final(self), symbol, r),
    {
        match symbol.visibility {
            Visibility::Public | Visibility::Entry => {
                if self.exports.contains_key(symbol.name.as_str()) {
                    let reason = join5(
                        "duplicate public export '",
                        symbol.name.as_str(),
                        "' in module '",
                        self.path.as_str(),
                        "'",
                    );
                    return Err(TypeError::ConstraintSolvingFailed {
                        reason,
                        span: TypeError::span_from_span(symbol.source_location),
                    });
                }
                let key = symbol.name.clone();
                self.exports.insert(key, symbol);
            },
            Visibility::Private => {
                let key = symbol.name.clone();
                self.private_symbols.insert(key, symbol);
            },
        }
        Ok(())
    }

    /// Register ordered return-label metadata for one symbol name.
    pub fn register_function_return_labels(&mut self, symbol_name: String, labels: Vec<String>)
        requires
            old(self).wf(),
        ensures
            final(self).wf(),
            final(self).function_return_labels@ == old(self).function_return_labels@.insert(symbol_name@, labels),
            final(self).exports == old(self).exports,
            final(self).private_symbols == old(self).private_symbols,
            final(self).function_borrow_kinds == old(self).function_borrow_kinds,
            final(self).type_declarations == old(self).type_declarations,
            final(self).adt_fields == old(self).adt_fields,
            final(self).path == old(self).path,
            final(self).availability == old(self).availability,
            final(self).namespaces == old(self).namespaces,
    {
        self.function_return_labels.insert(symbol_name, labels);
    }

    /// Read ordered return-label metadata for one symbol name.
    pub fn function_return_labels(&self, symbol_name: &str) -> (r: Option<&Vec<String>>)
        requires
            self.wf(),
        ensures
            r is Some <==> self.function_return_labels@.contains_key(symbol_name@),
            r matches Some(v) ==> *v == self.function_return_labels@[symbol_name@],
    {
        self.function_return_labels.get(symbol_name)
    }

    /// Register ordered parameter borrow metadata for one symbol name.
    pub fn register_function_borrow_kinds(&mut self, symbol_name: String, borrow_kinds: Vec<BorrowKind>)
        requires
            old(self).wf(),
        ensures
            final(self).wf(),
            final(self).function_borrow_kinds@ == old(self).function_borrow_kinds@.insert(symbol_name@, borrow_kinds),
            final(self).exports == old(self).exports,
            final(self).private_symbols == old(self).private_symbols,
            final(self).function_return_labels == old(self).function_return_labels,
            final(self).type_declarations == old(self).type_declarations,
            final(self).adt_fields == old(self).adt_fields,
            final(self).path == old(self).path,
            final(self).availability == old(self).availability,
            final(self).namespaces == old(self).namespaces,
    {
        self.function_borrow_kinds.insert(symbol_name, borrow_kinds);
    }

    /// Read ordered parameter borrow metadata for one symbol name.
    pub fn function_borrow_kinds(&self, symbol_name: &str) -> (r: Option<&Vec<BorrowKind>>)
        requires
            self.wf(),
        ensures
            r is Some <==> self.function_borrow_kinds@.contains_key(symbol_name@),
            r matches Some(v) ==> *v == self.function_borrow_kinds@[symbol_name@],
    {
        self.function_borrow_kinds.get(symbol_name)
    }

    /// Register one namespace declaration.
    pub fn register_namespace(&mut self, namespace: Vec<String>)
        requires
            old(self).wf(),
        ensures
            final(self).wf(),
            final(self).namespaces@ == old(self).namespaces@.push(namespace),
            final(self).exports == old(self).exports,
            final(self).private_symbols == old(self).private_symbols,
            final(self).function_return_labels == old(self).function_return_labels,
            final(self).function_borrow_kinds == old(self).function_borrow_kinds,
            final(self).type_declarations == old(self).type_declarations,
            final(self).adt_fields == old(self).adt_fields,
            final(self).path == old(self).path,
            final(self).availability == old(self).availability,
    {
        self.namespaces.push(namespace);
    }

    /// Register type-declaration metadata under the declaration's name.
    pub fn register_type_declaration(&mut self, declaration: ModuleTypeDeclaration)
        requires
            old(self).wf(),
        ensures
            final(self).wf(),
            final(self).type_declarations@ == old(self).type_declarations@.insert(declaration.name@, declaration),
            final(self).exports == old(self).exports,
            final(self).private_symbols == old(self).private_symbols,
            final(self).function_return_labels == old(self).function_return_labels,
            final(self).function_borrow_kinds == old(self).function_borrow_kinds,
            final(self).adt_fields == old(self).adt_fields,
            final(self).path == old(self).path,
            final(self).availability == old(self).availability,
            final(self).namespaces == old(self).namespaces,
    {
        let key = declaration.name.clone();
        self.type_declarations.insert(key, declaration);
    }

    /// Read type-declaration metadata for one type name.
    pub fn type_declaration(&self, type_label: &str) -> (r: Option<&ModuleTypeDeclaration>)
        requires
            self.wf(),
        ensures
            r is Some <==> self.type_declarations@.contains_key(type_label@),
            r matches Some(v) ==> *v == self.type_declarations@[type_label@],
    {
        self.type_declarations.get(type_label)
    }
}

/// Views of a list of strings.
pub open spec fn strings_view(v: Vec<String>) -> Seq<Seq<char>> {
    v@.map_values(|s: String| s@)
}

/// Views of the values of a name-to-name table.
pub open spec fn names_view(m: NameMap<String>) -> Map<Seq<char>, Seq<char>> {
    m@.map_values(|s: String| s@)
}

/// Resolver for imports and module dependency validation.
#[derive(Debug)]
pub struct ModuleResolver {
    /// Known interfaces keyed by module path.
    modules: NameMap<ModuleInterface>,
    /// Directed import graph: module -> imported modules.
    dependency_graph: NameMap<Vec<String>>,
    /// Imported local bindings per module for conflict detection.
    import_name_bindings: NameMap<NameMap<String>>,
}

impl ModuleResolver {
    /// Registered interfaces keyed by module path.
    pub closed spec fn modules(&self) -> Map<Seq<char>, ModuleInterface> {
        self.modules@
    }

    /// Registered interfaces in ascending module-path order.
    pub closed spec fn module_entries(&self) -> Seq<(String, ModuleInterface)> {
        self.modules.entries_spec()
    }

    /// The import graph: each module with the modules it imports, in registration order.
    pub closed spec fn graph(&self) -> Map<Seq<char>, Seq<Seq<char>>> {
        self.dependency_graph@.map_values(|v: Vec<String>| strings_view(v))
    }

    /// Imported local names per module, each with the module it was imported from.
    pub closed spec fn bindings(&self) -> Map<Seq<char>, Map<Seq<char>, Seq<char>>> {
        self.import_name_bindings@.map_values(|m: NameMap<String>| names_view(m))
    }

    /// Well-formedness: every table is ordered, and each interface is filed under its
    /// own module path.
    pub closed spec fn wf(&self) -> bool {
        &&& self.modules.wf()
        &&& forall|k: Seq<char>| #[trigger] self.modules@.contains_key(k) ==> self.modules@[k].wf()
            && self.modules@[k].path@ == k
        &&& self.dependency_graph.wf()
        &&& forall|k: Seq<char>| #[trigger] self.dependency_graph@.contains_key(k)
            ==> strings_view(self.dependency_graph@[k]).no_duplicates()
        &&& self.import_name_bindings.wf()
        &&& forall|k: Seq<char>| #[trigger] self.import_name_bindings@.contains_key(k)
            ==> self.import_name_bindings@[k].wf()
    }

    /// Facts about a well-formed resolver that callers may rely on.
    pub proof fn lemma_wf(&self)
        requires
            self.wf(),
        ensures
            forall|k: Seq<char>| #[trigger] self.modules().contains_key(k) ==> self.modules()[k].wf()
                && self.modules()[k].path@ == k,
            self.modules().dom().finite(),
            self.graph().dom().finite(),
            forall|i: int| 0 <= i < self.module_entries().len() ==> self.modules().contains_key(
                #[trigger] self.module_entries()[i].0@) && self.modules()[self.module_entries()[i].0@]
                == self.module_entries()[i].1,
            forall|k: Seq<char>| #[trigger] self.modules().contains_key(k) <==> exists|i: int|
                0 <= i < self.module_entries().len() && self.module_entries()[i].0@ == k,
            crate::name_map::keys_ascending(crate::name_map::entry_keys(self.module_entries())),
            forall|k: Seq<char>| #[trigger] self.graph().contains_key(k) ==> self.graph()[k].no_duplicates(),
    {
        self.modules.lemma_finite();
        self.modules.lemma_view();
        assert forall|k: Seq<char>| #[trigger] self.modules().contains_key(k) <==> exists|i: int|
            0 <= i < self.module_entries().len() && self.module_entries()[i].0@ == k by {
            if self.modules@.contains_key(k) {
                let i = choose|i: int| 0 <= i < self.modules.entries_spec().len() && self.modules.entries_spec()[i].0@ == k;
                assert(self.module_entries()[i].0@ == k);
            }
        }
        self.dependency_graph.lemma_finite();
        assert(self.graph().dom() =~= self.dependency_graph@.dom());
    }

    /// A resolver with no registered modules, dependencies or import bindings.
    pub fn new() -> (r: Self)
        ensures
            r.wf(),
            r.modules() == Map::<Seq<char>, ModuleInterface>::empty(),
            r.graph() == Map::<Seq<char>, Seq<Seq<char>>>::empty(),
            r.bindings() == Map::<Seq<char>, Map<Seq<char>, Seq<char>>>::empty(),
    {
        let r = ModuleResolver {
            modules: NameMap::new(),
            dependency_graph: NameMap::new(),
            import_name_bindings: NameMap::new(),
        };
        proof {
            assert(r.graph() =~= Map::<Seq<char>, Seq<Seq<char>>>::empty());
            assert(r.bindings() =~= Map::<Seq<char>, Map<Seq<char>, Seq<char>>>::empty());
        }
        r
    }

    /// Register a complete module interface under its module path, replacing any
    /// interface registered there before.
    pub fn register_module_interface(&mut self, interface: ModuleInterface)
        requires
            old(self).wf(),
            interface.wf(),
        ensures
            final(self).wf(),
            final(self).modules() == old(self).modules().insert(interface.path@, interface),
            final(self).graph() == old(self).graph(),
            final(self).bindings() == old(self).bindings(),
    {
        let key = interface.path.clone();
        self.modules.insert(key, interface);
    }

    /// Register ADT field metadata for one owner in a specific module, creating an
    /// empty interface for the module when none is registered yet.
    pub fn register_adt_fields_for_module(&mut self, module: &str, owner: String, fields: NameMap<CoreType>)
        requires
            old(self).wf(),
        ensures
            final(self).wf(),
            final(self).modules().dom() == old(self).modules().dom().insert(module@),
            forall|k: Seq<char>| k != module@ && #[trigger] old(self).modules().contains_key(k)
                ==> final(self).modules()[k] == old(self).modules()[k],
            final(self).modules()[module@].adt_fields@ == (if old(self).modules().contains_key(module@) {
                old(self).modules()[module@].adt_fields@
            } else {
                Map::<Seq<char>, NameMap<CoreType>>::empty()
            }).insert(owner@, fields),
            old(self).modules().contains_key(module@) ==> same_apart_from_adt_fields(
                old(self).modules()[module@], final(self).modules()[module@]),
            !old(self).modules().contains_key(module@) ==> final(self).modules()[module@].is_fresh_apart_from_adt_fields(
                module@, ModuleAvailability::Always),
            final(self).graph() == old(self).graph(),
            final(self).bindings() == old(self).bindings(),
    {
        let ghost before = self.modules@;
        let mut interface = match self.modules.take(module) {
            Some(i) => i,
            None => ModuleInterface::new(owned(module)),
        };
        interface.adt_fields.insert(owner, fields);
        self.modules.insert(owned(module), interface);
        proof {
            assert(self.modules@.dom() =~= before.dom().insert(module@));
        }
    }

    /// The interface registered for `module`, if any.
    pub fn module_interface(&self, module: &str) -> (r: Option<&ModuleInterface>)
        requires
            self.wf(),
        ensures
            r is Some <==> self.modules().contains_key(module@),
            r matches Some(i) ==> *i == self.modules()[module@],
    {
        self.modules.get(module)
    }

    /// Register one symbol for a module, creating an empty interface for the module
    /// when none is registered yet (also when the registration then fails).
    pub fn register_symbol_for_module(&mut self, module: &str, symbol: SymbolInfo) -> (r: Result<(), TypeError>)
        requires
            old(self).wf(),
        ensures
            final(self).wf(),
            final(self).modules().dom() == old(self).modules().dom().insert(module@),
            forall|k: Seq<char>| k != module@ && #[trigger] old(self).modules().contains_key(k)
                ==> final(self).modules()[k] == old(self).modules()[k],
            old(self).modules().contains_key(module@) ==> symbol_registered(
                old(self).modules()[module@], final(self).modules()[module@], symbol, r),
            !old(self).modules().contains_key(module@) ==> exists|b: ModuleInterface|
                b.is_empty_for(module@, ModuleAvailability::Always)
                && #[trigger] symbol_registered(b, final(self).modules()[module@], symbol, r),
            final(self).graph() == old(self).graph(),
            final(self).bindings() == old(self).bindings(),
    {
        let ghost before = self.modules@;
        let mut interface = match self.modules.take(module) {
            Some(i) => i,
            None => ModuleInterface::new(owned(module)),
        };
        let ghost base = interface;
        let r = interface.register_symbol(symbol);
        self.modules.insert(owned(module), interface);
        proof {
            assert(self.modules@.dom() =~= before.dom().insert(module@));
            if !before.contains_key(module@) {
                assert(symbol_registered(base, self.modules@[module@], symbol, r));
            }
        }
        r
    }

    /// Register an import edge `module -> dependency`; an edge already present is not
    /// added twice.
    pub fn register_dependency(&mut self, module: &str, dependency: &str)
        requires
            old(self).wf(),
        ensures
            final(self).wf(),
            final(self).graph() == old(self).graph().insert(module@, {
                let deps = if old(self).graph().contains_key(module@) {
                    old(self).graph()[module@]
                } else {
                    Seq::<Seq<char>>::empty()
                };
                if deps.contains(dependency@) { deps } else { deps.push(dependency@) }
            }),
            final(self).modules() == old(self).modules(),
            final(self).bindings() == old(self).bindings(),
    {
        let ghost before = self.dependency_graph@;
        let mut dependencies = match self.dependency_graph.take(module) {
            Some(d) => d,
            None => Vec::new(),
        };
        let ghost deps = strings_view(dependencies);
        proof {
            let expected_deps = if before.contains_key(module@) {
                strings_view(before[module@])
            } else {
                Seq::<Seq<char>>::empty()
            };
            assert(deps =~= expected_deps);
            assert(old(self).graph().contains_key(module@) == before.contains_key(module@));
        }
        let mut found = false;
        let mut i: usize = 0;
        while i < dependencies.len()
            invariant
                i <= dependencies@.len(),
                deps == strings_view(dependencies),
                found == exists|j: int| 0 <= j < i && dependencies@[j]@ == dependency@,
            decreases dependencies@.len() - i,
        {
            if str_eq(dependencies[i].as_str(), dependency) {
                found = true;
            }
            i = i + 1;
        }
        proof {
            if found {
                let j = choose|j: int| 0 <= j < i && dependencies@[j]@ == dependency@;
                assert(deps[j] == dependency@);
            } else {
                assert forall|j: int| 0 <= j < deps.len() implies deps[j] != dependency@ by {
                    assert(deps[j] == dependencies@[j]@);
                }
            }
        }
        if !found {
            dependencies.push(owned(dependency));
        }
        self.dependency_graph.insert(owned(module), dependencies);
        proof {
            let expected = if found { deps } else { deps.push(dependency@) };
            assert(strings_view(dependencies) =~= expected);
            assert(self.graph() =~= before.map_values(|v: Vec<String>| strings_view(v)).insert(module@, expected));
        }
    }

    /// Validate and record one imported local binding in a module. Binding a local
    /// name a second time from the same module is accepted; from a different module it
    /// fails. The module's binding table exists afterwards in either case.
    pub fn validate_import_name_binding(
        &mut self,
        module: &str,
        local_name: &str,
        source_module: &str,
        span: Span,
    ) -> (r: Result<(), TypeError>)
        requires
            old(self).wf(),
        ensures
            final(self).wf(),
            final(self).modules() == old(self).modules(),
            final(self).graph() == old(self).graph(),
            ({
                let table = if old(self).bindings().contains_key(module@) {
                    old(self).bindings()[module@]
                } else {
                    Map::<Seq<char>, Seq<char>>::empty()
                };
                if table.contains_key(local_name@) {
                    &&& final(self).bindings() == old(self).bindings().insert(module@, table)
                    &&& if table[local_name@] == source_module@ {
                        r is Ok
                    } else {
                        r matches Err(TypeError::ImportNameConflict { name, first_module, second_module, span: s })
                            && name@ == local_name@ && first_module@ == table[local_name@]
                            && second_module@ == source_module@ && s == diagnostic_span_of(span)
                    }
                } else {
                    &&& r is Ok
                    &&& final(self).bindings() == old(self).bindings().insert(
                        module@, table.insert(local_name@, source_module@))
                }
            }),
    {
        let ghost before = self.import_name_bindings@;
        let mut table = match self.import_name_bindings.take(module) {
            Some(t) => t,
            None => NameMap::new(),
        };
        let ghost t0 = names_view(table);
        proof {
            if before.contains_key(module@) {
                assert(old(self).bindings()[module@] == t0);
            } else {
                assert(t0 =~= Map::<Seq<char>, Seq<char>>::empty());
            }
        }
        let mut result: Result<(), TypeError> = Ok(());
        let mut add = false;
        match table.get(local_name) {
            Some(first) => {
                if !str_eq(first.as_str(), source_module) {
                    result = Err(TypeError::ImportNameConflict {
                        name: owned(local_name),
                        first_module: first.clone(),
                        second_module: owned(source_module),
                        span: TypeError::span_from_span(span),
                    });
                }
            },
            None => {
                add = true;
            },
        }
        if add {
            table.insert(owned(local_name), owned(source_module));
        }
        self.import_name_bindings.insert(owned(module), table);
        proof {
            let t1 = names_view(table);
            if add {
                assert(t1 =~= t0.insert(local_name@, source_module@));
            } else {
                assert(t1 =~= t0);
            }
            assert(self.bindings() =~= before.map_values(|m: NameMap<String>| names_view(m)).insert(module@, t1));
        }
        result
    }

    /// Resolve a named symbol import from a source module.
    pub fn resolve_symbol(&self, source: &str, symbol_name: &str, span: Span) -> (r: Result<SymbolInfo, TypeError>)
        requires
            self.wf(),
        ensures
            !self.modules().contains_key(source@) ==> (r matches Err(TypeError::UnresolvedImport { path, span: s })
                && path@ == source@ && s == diagnostic_span_of(span)),
            self.modules().contains_key(source@) ==> ({
                let i = self.modules()[source@];
                if i.exports@.contains_key(symbol_name@) {
                    r matches Ok(sym) && symbol_model(sym) == symbol_model(i.exports@[symbol_name@])
                } else if i.private_symbols@.contains_key(symbol_name@) {
                    r matches Err(TypeError::PrivateSymbolAccess { symbol, module, span: s })
                        && symbol@ == symbol_name@ && module@ == source@ && s == diagnostic_span_of(span)
                } else {
                    r matches Err(TypeError::SymbolNotFound { name, suggestion, span: s })
                        && name@ == source@ + "."@ + symbol_name@ && suggestion is None
                        && s == diagnostic_span_of(span)
                }
            }),
    {
        let interface = match self.modules.get(source) {
            Some(i) => i,
            None => {
                return Err(TypeError::UnresolvedImport {
                    path: owned(source),
                    span: TypeError::span_from_span(span),
                });
            },
        };
        if let Some(symbol) = interface.exports.get(symbol_name) {
            return Ok(symbol.duplicate());
        }
        if interface.private_symbols.contains_key(symbol_name) {
            return Err(TypeError::PrivateSymbolAccess {
                symbol: owned(symbol_name),
                module: owned(source),
                span: TypeError::span_from_span(span),
            });
        }
        Err(TypeError::SymbolNotFound {
            name: join3(source, ".", symbol_name),
            suggestion: None,
            span: TypeError::span_from_span(span),
        })
    }

    /// Resolve all exported symbols from `source`, in ascending name order.
    pub fn resolve_all_exports(&self, source: &str, span: Span) -> (r: Result<Vec<SymbolInfo>, TypeError>)
        requires
            self.wf(),
        ensures
            !self.modules().contains_key(source@) ==> (r matches Err(TypeError::UnresolvedImport { path, span: s })
                && path@ == source@ && s == diagnostic_span_of(span)),
            self.modules().contains_key(source@) ==> (r matches Ok(v) && ({
                let entries = self.modules()[source@].exports.entries_spec();
                &&& v@.len() == entries.len()
                &&& forall|j: int| 0 <= j < v@.len() ==> symbol_model(#[trigger] v@[j]) == symbol_model(entries[j].1)
            })),
    {
        let interface = match self.modules.get(source) {
            Some(i) => i,
            None => {
                return Err(TypeError::UnresolvedImport {
                    path: owned(source),
                    span: TypeError::span_from_span(span),
                });
            },
        };
        let n = interface.exports.len();
        let mut out: Vec<SymbolInfo> = Vec::new();
        let mut i: usize = 0;
        while i < n
            invariant
                interface.wf(),
                n == interface.exports.entries_spec().len(),
                i <= n,
                out@.len() == i,
                forall|j: int| 0 <= j < i ==> symbol_model(#[trigger] out@[j])
                    == symbol_model(interface.exports.entries_spec()[j].1),
            decreases n - i,
        {
            let (_, symbol) = interface.exports.entry_at(i);
            out.push(symbol.duplicate());
            i = i + 1;
        }
        Ok(out)
    }
}

/// The interface is test-only and declares a type named `name`.
pub open spec fn declares_test_only_type(i: ModuleInterface, name: Seq<char>) -> bool {
    i.availability == ModuleAvailability::TestOnly && i.type_declarations@.contains_key(name)
}

/// Path of the first interface, in the given order, that declares `name` test-only.
pub open spec fn test_only_source_in(entries: Seq<(String, ModuleInterface)>, name: Seq<char>) -> Option<Seq<char>>
    decreases entries.len(),
{
    if entries.len() == 0 {
        None
    } else {
        match test_only_source_in(entries.drop_last(), name) {
            Some(p) => Some(p),
            None => if declares_test_only_type(entries.last().1, name) {
                Some(entries.last().1.path@)
            } else {
                None
            },
        }
    }
}

/// `test_only_source_in` picks the least index whose interface declares the name.
pub proof fn lemma_test_only_source_in(entries: Seq<(String, ModuleInterface)>, name: Seq<char>)
    ensures
        (forall|j: int| 0 <= j < entries.len() ==> !declares_test_only_type(#[trigger] entries[j].1, name))
            ==> test_only_source_in(entries, name) is None,
        forall|i: int| 0 <= i < entries.len() && declares_test_only_type(#[trigger] entries[i].1, name)
            && (forall|j: int| 0 <= j < i ==> !declares_test_only_type(#[trigger] entries[j].1, name))
            ==> test_only_source_in(entries, name) == Some(entries[i].1.path@),
    decreases entries.len(),
{
    if entries.len() > 0 {
        let t = entries.drop_last();
        lemma_test_only_source_in(t, name);
        assert forall|i: int| 0 <= i < entries.len() && declares_test_only_type(#[trigger] entries[i].1, name)
            && (forall|j: int| 0 <= j < i ==> !declares_test_only_type(#[trigger] entries[j].1, name))
            implies test_only_source_in(entries, name) == Some(entries[i].1.path@) by {
            if i < entries.len() - 1 {
                assert(t[i] == entries[i]);
                assert forall|j: int| 0 <= j < i implies !declares_test_only_type(#[trigger] t[j].1, name) by {
                    assert(t[j] == entries[j]);
                }
            } else {
                assert forall|j: int| 0 <= j < t.len() implies !declares_test_only_type(#[trigger] t[j].1, name) by {
                    assert(t[j] == entries[j]);
                }
            }
        }
        if forall|j: int| 0 <= j < entries.len() ==> !declares_test_only_type(#[trigger] entries[j].1, name) {
            assert forall|j: int| 0 <= j < t.len() implies !declares_test_only_type(#[trigger] t[j].1, name) by {
                assert(t[j] == entries[j]);
            }
            assert(!declares_test_only_type(entries[entries.len() - 1].1, name));
        }
    }
}

/// Views of an optional pair of strings.
pub open spec fn pair_view(r: Option<(String, String)>) -> Option<(Seq<char>, Seq<char>)> {
    match r {
        Some((a, b)) => Some((a@, b@)),
        None => None,
    }
}

impl ModuleResolver {
    /// Path of the first registered module, in ascending path order, that is test-only
    /// and declares a type named `name`.
    pub open spec fn test_only_source(&self, name: Seq<char>) -> Option<Seq<char>> {
        test_only_source_in(self.module_entries(), name)
    }

    /// First test-only type reached by a type, with the module declaring it.
    pub open spec fn type_test_only_ref(&self, m: TypeModel) -> Option<(Seq<char>, Seq<char>)>
        decreases m,
    {
        match m {
            TypeModel::Array(e) => self.type_test_only_ref(*e),
            TypeModel::Function { generic_params, parameters, return_types, error_types } =>
                match self.params_test_only_ref(generic_params) {
                    Some(x) => Some(x),
                    None => match self.list_test_only_ref(parameters) {
                        Some(x) => Some(x),
                        None => match self.list_test_only_ref(return_types) {
                            Some(x) => Some(x),
                            None => self.list_test_only_ref(error_types),
                        },
                    },
                },
            TypeModel::Generic { name, type_args } => match self.test_only_source(name) {
                Some(p) => Some((name, p)),
                None => self.list_test_only_ref(type_args),
            },
            _ => None,
        }
    }

    /// First test-only type reached by a list of types, taken in order.
    pub open spec fn list_test_only_ref(&self, s: Seq<TypeModel>) -> Option<(Seq<char>, Seq<char>)>
        decreases s,
    {
        if s.len() == 0 {
            None
        } else {
            match self.list_test_only_ref(s.drop_last()) {
                Some(x) => Some(x),
                None => self.type_test_only_ref(s.last()),
            }
        }
    }

    /// First test-only type reached by the constraints of generic parameters, in order.
    pub open spec fn params_test_only_ref(&self, ps: Seq<ParamModel>) -> Option<(Seq<char>, Seq<char>)>
        decreases ps,
    {
        if ps.len() == 0 {
            None
        } else {
            match self.params_test_only_ref(ps.drop_last()) {
                Some(x) => Some(x),
                None => self.list_test_only_ref(ps.last().constraints),
            }
        }
    }

    /// A found reference in a prefix is the reference of the whole list.
    proof fn lemma_list_prefix(&self, s: Seq<TypeModel>, k: int)
        requires
            0 <= k <= s.len(),
            self.list_test_only_ref(s.take(k)) is Some,
        ensures
            self.list_test_only_ref(s) == self.list_test_only_ref(s.take(k)),
        decreases s.len(),
    {
        if k < s.len() {
            assert(s.drop_last().take(k) =~= s.take(k));
            self.lemma_list_prefix(s.drop_last(), k);
        } else {
            assert(s.take(k) =~= s);
        }
    }

    /// A found reference in a prefix is the reference of the whole parameter list.
    proof fn lemma_params_prefix(&self, s: Seq<ParamModel>, k: int)
        requires
            0 <= k <= s.len(),
            self.params_test_only_ref(s.take(k)) is Some,
        ensures
            self.params_test_only_ref(s) == self.params_test_only_ref(s.take(k)),
        decreases s.len(),
    {
        if k < s.len() {
            assert(s.drop_last().take(k) =~= s.take(k));
            self.lemma_params_prefix(s.drop_last(), k);
        } else {
            assert(s.take(k) =~= s);
        }
    }

    /// The test-only module that declares `type_label`: the first such module in
    /// ascending module-path order.
    pub fn test_only_type_source(&self, type_label: &str) -> (r: Option<&str>)
        requires
            self.wf(),
        ensures
            r is None <==> self.test_only_source(type_label@) is None,
            r matches Some(p) ==> self.test_only_source(type_label@) == Some(p@),
            r is Some <==> exists|k: Seq<char>| #[trigger] self.modules().contains_key(k)
                && declares_test_only_type(self.modules()[k], type_label@),
            r matches Some(p) ==> self.modules().contains_key(p@) && declares_test_only_type(
                self.modules()[p@], type_label@) && forall|k: Seq<char>| #[trigger] self.modules().contains_key(k)
                && declares_test_only_type(self.modules()[k], type_label@) ==> !seq_less(k, p@),
    {
        proof {
            self.lemma_wf();
            lemma_test_only_source_in(self.module_entries(), type_label@);
        }
        let ghost entries = self.module_entries();
        proof {
            assert forall|j: int| 0 <= j < entries.len() implies (#[trigger] entries[j].1).wf() by {
                assert(self.modules().contains_key(entries[j].0@));
            }
        }
        let n = self.modules.len();
        let mut i: usize = 0;
        while i < n
            invariant
                self.wf(),
                entries == self.module_entries(),
                n == entries.len(),
                i <= n,
                forall|j: int| 0 <= j < entries.len() ==> (#[trigger] entries[j].1).wf(),
                forall|j: int| 0 <= j < i ==> !declares_test_only_type(#[trigger] entries[j].1, type_label@),
            decreases n - i,
        {
            proof {
                self.lemma_wf();
            }
            let (_, interface) = self.modules.entry_at(i);
            if interface.availability == ModuleAvailability::TestOnly
                && interface.type_declarations.contains_key(type_label) {
                proof {
                    self.lemma_wf();
                    let p = entries[i as int].0@;
                    assert(declares_test_only_type(entries[i as int].1, type_label@));
                    lemma_test_only_source_in(entries, type_label@);
                    assert(test_only_source_in(entries, type_label@) == Some(entries[i as int].1.path@));
                    assert(self.modules()[p] == entries[i as int].1);
                    assert(interface.path@ == p);
                    assert forall|k: Seq<char>| #[trigger] self.modules().contains_key(k)
                        && declares_test_only_type(self.modules()[k], type_label@) implies !seq_less(k, p) by {
                        let j = choose|j: int| 0 <= j < entries.len() && entries[j].0@ == k;
                        assert(self.modules()[k] == entries[j].1);
                        let keys = crate::name_map::entry_keys(entries);
                        assert(keys[j] == k);
                        assert(keys[i as int] == p);
                        if j < i {
                            assert(!declares_test_only_type(entries[j].1, type_label@));
                        } else if j == i {
                            lemma_seq_less_irreflexive(p);
                        } else {
                            assert(seq_less(p, k));
                            if seq_less(k, p) {
                                lemma_seq_less_transitive(p, k, p);
                                lemma_seq_less_irreflexive(p);
                            }
                        }
                    }
                }
                return Some(interface.path.as_str());
            }
            i = i + 1;
        }
        proof {
            self.lemma_wf();
            assert forall|k: Seq<char>| #[trigger] self.modules().contains_key(k)
                implies !declares_test_only_type(self.modules()[k], type_label@) by {
                let j = choose|j: int| 0 <= j < entries.len() && entries[j].0@ == k;
                assert(self.modules()[k] == entries[j].1);
            }
        }
        None
    }

    /// The first test-only type reached by a type signature, with the module that
    /// declares it.
    pub fn core_type_test_only_reference(&self, core_type: &CoreType) -> (r: Option<(String, String)>)
        requires
            self.wf(),
        ensures
            pair_view(r) == self.type_test_only_ref(model_of(*core_type)),
        decreases core_type,
    {
        match core_type {
            CoreType::Array(element) => self.core_type_test_only_reference(&**element),
            CoreType::Function { generic_params, parameters, return_types, error_types } => {
                let a = self.params_test_only_reference(generic_params);
                if a.is_some() {
                    return a;
                }
                let b = self.list_test_only_reference(parameters);
                if b.is_some() {
                    return b;
                }
                let c = self.list_test_only_reference(return_types);
                if c.is_some() {
                    return c;
                }
                self.list_test_only_reference(error_types)
            },
            CoreType::Generic { name, type_args } => match self.test_only_type_source(name.as_str()) {
                Some(p) => Some((name.clone(), owned(p))),
                None => self.list_test_only_reference(type_args),
            },
            _ => None,
        }
    }

    /// The first test-only type reached by a list of types.
    fn list_test_only_reference(&self, v: &Vec<CoreType>) -> (r: Option<(String, String)>)
        requires
            self.wf(),
        ensures
            pair_view(r) == self.list_test_only_ref(models_of(v@)),
        decreases v,
    {
        proof {
            lemma_models_of(v@);
        }
        let ghost ms = models_of(v@);
        let mut i: usize = 0;
        while i < v.len()
            invariant
                self.wf(),
                i <= v.len(),
                ms == models_of(v@),
                ms.len() == v@.len(),
                forall|j: int| 0 <= j < v@.len() ==> #[trigger] ms[j] == model_of(v@[j]),
                self.list_test_only_ref(ms.take(i as int)) is None,
            decreases v.len() - i,
        {
            proof {
                vstd::std_specs::vec::axiom_vec_index_decreases(*v, i as int);
                assert(ms.take(i + 1).drop_last() =~= ms.take(i as int));
                assert(ms.take(i + 1).last() == model_of(v@[i as int]));
            }
            let found = self.core_type_test_only_reference(&v[i]);
            if found.is_some() {
                proof {
                    self.lemma_list_prefix(ms, i + 1);
                }
                return found;
            }
            i = i + 1;
        }
        proof {
            assert(ms.take(v@.len() as int) =~= ms);
        }
        None
    }

    /// The first test-only type reached by the constraints of generic parameters.
    fn params_test_only_reference(&self, v: &Vec<GenericTypeParameter>) -> (r: Option<(String, String)>)
        requires
            self.wf(),
        ensures
            pair_view(r) == self.params_test_only_ref(params_model(v@)),
        decreases v,
    {
        proof {
            lemma_params_model(v@);
        }
        let ghost ps = params_model(v@);
        let mut i: usize = 0;
        while i < v.len()
            invariant
                self.wf(),
                i <= v.len(),
                ps == params_model(v@),
                ps.len() == v@.len(),
                forall|j: int| 0 <= j < v@.len() ==> #[trigger] ps[j] == param_model(v@[j]),
                self.params_test_only_ref(ps.take(i as int)) is None,
            decreases v.len() - i,
        {
            proof {
                vstd::std_specs::vec::axiom_vec_index_decreases(*v, i as int);
                assert(ps.take(i + 1).drop_last() =~= ps.take(i as int));
                assert(ps.take(i + 1).last() == param_model(v@[i as int]));
            }
            let found = self.list_test_only_reference(&v[i].constraints);
            if found.is_some() {
                proof {
                    self.lemma_params_prefix(ps, i + 1);
                }
                return found;
            }
            i = i + 1;
        }
        proof {
            assert(ps.take(v@.len() as int) =~= ps);
        }
        None
    }
}

/// Whether a symbol goes to a module's export table.
pub open spec fn is_exported(s: SymbolInfo) -> bool {
    !(s.visibility is Private)
}

/// `symbols[i]` is exported under a name that an earlier exported symbol already has.
pub open spec fn duplicate_export_at(symbols: Seq<SymbolInfo>, i: int) -> bool {
    &&& 0 <= i < symbols.len()
    &&& is_exported(symbols[i])
    &&& exists|j: int| 0 <= j < i && is_exported(#[trigger] symbols[j]) && symbols[j].name@ == symbols[i].name@
}

/// Models of the exported symbols, by name (a later symbol replaces an earlier one).
pub open spec fn exports_model(symbols: Seq<SymbolInfo>) -> Map<Seq<char>, SymbolModel>
    decreases symbols.len(),
{
    if symbols.len() == 0 {
        Map::empty()
    } else {
        let m = exports_model(symbols.drop_last());
        if is_exported(symbols.last()) {
            m.insert(symbols.last().name@, symbol_model(symbols.last()))
        } else {
            m
        }
    }
}

/// Models of the private symbols, by name (a later symbol replaces an earlier one).
pub open spec fn privates_model(symbols: Seq<SymbolInfo>) -> Map<Seq<char>, SymbolModel>
    decreases symbols.len(),
{
    if symbols.len() == 0 {
        Map::empty()
    } else {
        let m = privates_model(symbols.drop_last());
        if !is_exported(symbols.last()) {
            m.insert(symbols.last().name@, symbol_model(symbols.last()))
        } else {
            m
        }
    }
}

/// Models of a symbol table's entries.
pub open spec fn models_view(m: Map<Seq<char>, SymbolInfo>) -> Map<Seq<char>, SymbolModel> {
    m.map_values(|s: SymbolInfo| symbol_model(s))
}

/// Every exported name comes from an exported symbol.
pub proof fn lemma_exports_model_dom(symbols: Seq<SymbolInfo>)
    ensures
        forall|k: Seq<char>| #[trigger] exports_model(symbols).contains_key(k) ==> exists|j: int|
            0 <= j < symbols.len() && is_exported(#[trigger] symbols[j]) && symbols[j].name@ == k,
    decreases symbols.len(),
{
    if symbols.len() > 0 {
        let t = symbols.drop_last();
        lemma_exports_model_dom(t);
        assert forall|k: Seq<char>| #[trigger] exports_model(symbols).contains_key(k) implies exists|j: int|
            0 <= j < symbols.len() && is_exported(#[trigger] symbols[j]) && symbols[j].name@ == k by {
            if exports_model(t).contains_key(k) {
                let j = choose|j: int| 0 <= j < t.len() && is_exported(#[trigger] t[j]) && t[j].name@ == k;
                assert(symbols[j] == t[j]);
            } else {
                assert(is_exported(symbols[symbols.len() - 1]));
            }
        }
    }
}

/// The interface holds exactly the given symbol tables and nothing else.
pub open spec fn holds_only_symbols(
    i: ModuleInterface,
    path: Seq<char>,
    exports: Map<Seq<char>, SymbolModel>,
    privates: Map<Seq<char>, SymbolModel>,
) -> bool {
    &&& i.wf()
    &&& i.path@ == path
    &&& i.availability == ModuleAvailability::Always
    &&& models_view(i.exports@) == exports
    &&& models_view(i.private_symbols@) == privates
    &&& i.adt_fields@ == Map::<Seq<char>, NameMap<CoreType>>::empty()
    &&& i.function_return_labels@ == Map::<Seq<char>, Vec<String>>::empty()
    &&& i.function_borrow_kinds@ == Map::<Seq<char>, Vec<BorrowKind>>::empty()
    &&& i.namespaces@.len() == 0
    &&& i.type_declarations@ == Map::<Seq<char>, ModuleTypeDeclaration>::empty()
}

impl ModuleResolver {
    /// Build an interface for `module` from `symbols`, in order, and register it in
    /// place of any earlier one. An exported name that occurs twice fails at its second
    /// occurrence, and then nothing is registered.
    pub fn generate_module_interface(&mut self, module: &str, symbols: &[SymbolInfo]) -> (r: Result<(), TypeError>)
        requires
            old(self).wf(),
        ensures
            final(self).wf(),
            final(self).graph() == old(self).graph(),
            final(self).bindings() == old(self).bindings(),
            (exists|i: int| duplicate_export_at(symbols@, i)) ==> {
                &&& final(self).modules() == old(self).modules()
                &&& r matches Err(e) && exists|i: int| #[trigger] duplicate_export_at(symbols@, i)
                    && (forall|j: int| 0 <= j < i ==> !duplicate_export_at(symbols@, j))
                    && is_duplicate_export_error(e, symbols@[i].name@, module@, symbols@[i].source_location)
            },
            !(exists|i: int| duplicate_export_at(symbols@, i)) ==> {
                &&& r is Ok
                &&& final(self).modules().dom() == old(self).modules().dom().insert(module@)
                &&& forall|k: Seq<char>| k != module@ && #[trigger] old(self).modules().contains_key(k)
                    ==> final(self).modules()[k] == old(self).modules()[k]
                &&& holds_only_symbols(final(self).modules()[module@], module@, exports_model(symbols@),
                    privates_model(symbols@))
            },
    {
        let mut interface = ModuleInterface::new(owned(module));
        let mut i: usize = 0;
        proof {
            assert(symbols@.take(0) =~= Seq::<SymbolInfo>::empty());
            assert(models_view(interface.exports@) =~= Map::<Seq<char>, SymbolModel>::empty());
            assert(models_view(interface.private_symbols@) =~= Map::<Seq<char>, SymbolModel>::empty());
        }
        while i < symbols.len()
            invariant
                self.wf(),
                i <= symbols@.len(),
                holds_only_symbols(interface, module@, exports_model(symbols@.take(i as int)),
                    privates_model(symbols@.take(i as int))),
                forall|j: int| 0 <= j < i ==> !duplicate_export_at(symbols@, j),
            decreases symbols@.len() - i,
        {
            let ghost before = interface;
            let ghost pre = symbols@.take(i as int);
            let ghost post = symbols@.take(i + 1);
            proof {
                assert(post.drop_last() =~= pre);
                assert(post.last() == symbols@[i as int]);
            }
            let symbol = symbols[i].duplicate();
            let registered = interface.register_symbol(symbol);
            match registered {
                Err(e) => {
                    proof {
                        lemma_exports_model_dom(pre);
                        assert(models_view(before.exports@).contains_key(symbol.name@));
                        assert(exports_model(pre).contains_key(symbols@[i as int].name@));
                        let j = choose|j: int| 0 <= j < pre.len() && is_exported(#[trigger] pre[j])
                            && pre[j].name@ == symbols@[i as int].name@;
                        assert(pre[j] == symbols@[j]);
                        assert(duplicate_export_at(symbols@, i as int));
                    }
                    return Err(e);
                },
                Ok(()) => {
                    proof {
                        if is_exported(symbols@[i as int]) {
                            assert(models_view(interface.exports@) =~= models_view(before.exports@).insert(
                                symbols@[i as int].name@, symbol_model(symbols@[i as int])));
                            assert(!duplicate_export_at(symbols@, i as int)) by {
                                if duplicate_export_at(symbols@, i as int) {
                                    let j = choose|j: int| 0 <= j < i && is_exported(#[trigger] symbols@[j])
                                        && symbols@[j].name@ == symbols@[i as int].name@;
                                    assert(pre[j] == symbols@[j]);
                                    lemma_exports_model_contains(pre, j);
                                }
                            }
                        } else {
                            assert(models_view(interface.private_symbols@) =~= models_view(before.private_symbols@).insert(
                                symbols@[i as int].name@, symbol_model(symbols@[i as int])));
                        }
                    }
                },
            }
            i = i + 1;
        }
        proof {
            assert(symbols@.take(symbols@.len() as int) =~= symbols@);
        }
        let ghost before = self.modules@;
        self.register_module_interface(interface);
        proof {
            assert(self.modules@.dom() =~= before.dom().insert(module@));
        }
        Ok(())
    }
}

/// An exported symbol's name is in the export model.
pub proof fn lemma_exports_model_contains(symbols: Seq<SymbolInfo>, j: int)
    requires
        0 <= j < symbols.len(),
        is_exported(symbols[j]),
    ensures
        exports_model(symbols).contains_key(symbols[j].name@),
    decreases symbols.len(),
{
    if j < symbols.len() - 1 {
        let t = symbols.drop_last();
        assert(t[j] == symbols[j]);
        lemma_exports_model_contains(t, j);
    }
}

/// `b` is among the modules that `a` imports.
pub open spec fn has_edge(g: Map<Seq<char>, Seq<Seq<char>>>, a: Seq<char>, b: Seq<char>) -> bool {
    g.contains_key(a) && g[a].contains(b)
}

/// The step from position `i` of `w` to the next one follows an import.
pub open spec fn edge_at(g: Map<Seq<char>, Seq<Seq<char>>>, w: Seq<Seq<char>>, i: int) -> bool {
    has_edge(g, w[i], w[i + 1])
}

/// A non-empty sequence of modules, each importing the next.
pub open spec fn is_walk(g: Map<Seq<char>, Seq<Seq<char>>>, w: Seq<Seq<char>>) -> bool {
    &&& w.len() >= 1
    &&& forall|i: int| 0 <= i < w.len() - 1 ==> #[trigger] edge_at(g, w, i)
}

/// Some module occurs twice.
pub open spec fn has_repeat(w: Seq<Seq<char>>) -> bool {
    exists|i: int, j: int| 0 <= i < j < w.len() && w[i] == w[j]
}

/// Some walk from `m` visits a module twice: an import cycle is reachable from `m`.
pub open spec fn cycle_reachable(g: Map<Seq<char>, Seq<Seq<char>>>, m: Seq<char>) -> bool {
    exists|w: Seq<Seq<char>>| #[trigger] is_walk(g, w) && w[0] == m && has_repeat(w)
}

/// Some walk leads from `a` to `b`.
pub open spec fn reachable(g: Map<Seq<char>, Seq<Seq<char>>>, a: Seq<char>, b: Seq<char>) -> bool {
    exists|w: Seq<Seq<char>>| #[trigger] is_walk(g, w) && w[0] == a && w.last() == b
}

/// A walk that returns to its first module and visits no other module twice.
pub open spec fn is_simple_cycle(g: Map<Seq<char>, Seq<Seq<char>>>, c: Seq<Seq<char>>) -> bool {
    &&& c.len() >= 2
    &&& is_walk(g, c)
    &&& c[0] == c.last()
    &&& c.drop_last().no_duplicates()
}

/// Every import of a module in `order` occurs earlier in `order`.
pub open spec fn finish_ordered(g: Map<Seq<char>, Seq<Seq<char>>>, order: Seq<Seq<char>>) -> bool {
    forall|i: int, d: Seq<char>| 0 <= i < order.len() && #[trigger] has_edge(g, order[i], d)
        ==> exists|j: int| 0 <= j < i && order[j] == d
}

/// A contiguous piece of a walk is a walk.
pub proof fn lemma_subwalk(g: Map<Seq<char>, Seq<Seq<char>>>, w: Seq<Seq<char>>, a: int, b: int)
    requires
        is_walk(g, w),
        0 <= a < b <= w.len(),
    ensures
        is_walk(g, w.subrange(a, b)),
{
    let t = w.subrange(a, b);
    assert forall|i: int| 0 <= i < t.len() - 1 implies #[trigger] edge_at(g, t, i) by {
        assert(edge_at(g, w, a + i));
    }
}

/// Along a walk that starts in a finish-ordered sequence, positions in that sequence
/// strictly decrease.
proof fn lemma_walk_positions(g: Map<Seq<char>, Seq<Seq<char>>>, order: Seq<Seq<char>>, w: Seq<Seq<char>>, p0: int)
    -> (ps: Seq<int>)
    requires
        finish_ordered(g, order),
        is_walk(g, w),
        0 <= p0 < order.len(),
        order[p0] == w[0],
    ensures
        ps.len() == w.len(),
        forall|k: int| 0 <= k < w.len() ==> 0 <= #[trigger] ps[k] < order.len() && order[ps[k]] == w[k],
        forall|a: int, b: int| 0 <= a < b < w.len() ==> #[trigger] ps[b] < #[trigger] ps[a],
    decreases w.len(),
{
    if w.len() == 1 {
        seq![p0]
    } else {
        let t = w.drop_last();
        lemma_subwalk(g, w, 0, w.len() - 1);
        assert(t =~= w.subrange(0, w.len() - 1));
        let pt = lemma_walk_positions(g, order, t, p0);
        let n: int = t.len() as int;
        assert(edge_at(g, w, n - 1));
        assert(has_edge(g, order[pt[n - 1]], w[n]));
        let j = choose|j: int| 0 <= j < pt[n - 1] && order[j] == w[n];
        let ps = pt.push(j);
        assert forall|k: int| 0 <= k < w.len() implies 0 <= #[trigger] ps[k] < order.len() && order[ps[k]] == w[k] by {
            if k < n {
                assert(ps[k] == pt[k]);
                assert(t[k] == w[k]);
            }
        }
        assert forall|a: int, b: int| 0 <= a < b < w.len() implies #[trigger] ps[b] < #[trigger] ps[a] by {
            if b < n {
                assert(ps[a] == pt[a] && ps[b] == pt[b]);
            } else {
                assert(ps[a] == pt[a]);
                if a < n - 1 {
                    assert(pt[n - 1] < pt[a]);
                }
            }
        }
        ps
    }
}

/// No walk from a module of a duplicate-free finish-ordered sequence repeats a module.
proof fn lemma_no_repeat_from_finished(g: Map<Seq<char>, Seq<Seq<char>>>, order: Seq<Seq<char>>, m: Seq<char>)
    requires
        finish_ordered(g, order),
        order.no_duplicates(),
        order.contains(m),
    ensures
        !cycle_reachable(g, m),
{
    let p0 = choose|p: int| 0 <= p < order.len() && order[p] == m;
    assert forall|w: Seq<Seq<char>>| #[trigger] is_walk(g, w) && w[0] == m implies !has_repeat(w) by {
        let ps = lemma_walk_positions(g, order, w, p0);
        if has_repeat(w) {
            let (a, b) = choose|a: int, b: int| 0 <= a < b < w.len() && w[a] == w[b];
            assert(ps[b] < ps[a]);
            assert(order[ps[a]] == order[ps[b]]);
        }
    }
}

/// A walk to the start of a simple cycle makes the cycle reachable.
proof fn lemma_cycle_reachable(g: Map<Seq<char>, Seq<Seq<char>>>, m: Seq<char>, c: Seq<Seq<char>>)
    requires
        is_simple_cycle(g, c),
        reachable(g, m, c[0]),
    ensures
        cycle_reachable(g, m),
{
    let p = choose|w: Seq<Seq<char>>| #[trigger] is_walk(g, w) && w[0] == m && w.last() == c[0];
    let w = p + c.subrange(1, c.len() as int);
    let n = p.len();
    assert forall|i: int| 0 <= i < w.len() - 1 implies #[trigger] edge_at(g, w, i) by {
        if i < n - 1 {
            assert(edge_at(g, p, i));
        } else {
            assert(edge_at(g, c, i - n + 1));
        }
    }
    assert(w[n - 1] == c[0]);
    assert(w[w.len() - 1] == c.last());
    assert(is_walk(g, w) && w[0] == m && has_repeat(w));
}

impl ModuleResolver {
    /// Depth-first search for an import cycle. `visiting` is the path of modules from
    /// `root` whose imports are being explored; `visited` holds the modules already
    /// finished, in the order `order` in which they finished.
    fn dfs_cycle(
        &self,
        module: &str,
        visiting: &mut Vec<String>,
        visited: &mut NameMap<bool>,
        span: Span,
        Ghost(root): Ghost<Seq<char>>,
        Ghost(order): Ghost<Seq<Seq<char>>>,
    ) -> (r: (Result<(), TypeError>, Ghost<Seq<Seq<char>>>))
        requires
            self.wf(),
            ({
                let g = self.graph();
                let vis = strings_view(*old(visiting));
                &&& vis.no_duplicates()
                &&& forall|i: int| 0 <= i < vis.len() ==> g.contains_key(#[trigger] vis[i])
                &&& vis.len() == 0 ==> module@ == root
                &&& vis.len() > 0 ==> vis[0] == root && is_walk(g, vis) && has_edge(g, vis.last(), module@)
                &&& order.no_duplicates()
                &&& finish_ordered(g, order)
                &&& old(visited).wf()
                &&& forall|k: Seq<char>| #[trigger] old(visited)@.contains_key(k) <==> order.contains(k)
                &&& forall|k: Seq<char>| #[trigger] old(visited)@.contains_key(k) ==> old(visited)@[k]
                &&& forall|i: int| 0 <= i < order.len() ==> !vis.contains(#[trigger] order[i])
            }),
        ensures
            r.0 is Ok ==> ({
                let g = self.graph();
                let vis = strings_view(*old(visiting));
                let o = r.1@;
                &&& final(visiting)@ == old(visiting)@
                &&& o.no_duplicates()
                &&& finish_ordered(g, o)
                &&& final(visited).wf()
                &&& forall|k: Seq<char>| #[trigger] final(visited)@.contains_key(k) <==> o.contains(k)
                &&& forall|k: Seq<char>| #[trigger] final(visited)@.contains_key(k) ==> final(visited)@[k]
                &&& forall|k: Seq<char>| order.contains(k) ==> #[trigger] o.contains(k)
                &&& o.contains(module@)
                &&& forall|i: int| 0 <= i < o.len() ==> !vis.contains(#[trigger] o[i])
            }),
            r.0 matches Err(e) ==> (e matches TypeError::CircularDependency { cycle, span: s }
                && s == diagnostic_span_of(span) && is_simple_cycle(self.graph(), strings_view(cycle))
                && reachable(self.graph(), root, strings_view(cycle)[0])),
        decreases self.graph().dom().len() - old(visiting)@.len(),
    {
        let ghost g = self.graph();
        let ghost vis = strings_view(*visiting);
        proof {
            self.lemma_wf();
        }
        let mut idx: usize = 0;
        while idx < visiting.len() && !str_eq(visiting[idx].as_str(), module)
            invariant
                idx <= visiting@.len(),
                vis == strings_view(*visiting),
                forall|j: int| 0 <= j < idx ==> visiting@[j]@ != module@,
            decreases visiting@.len() - idx,
        {
            idx = idx + 1;
        }
        if idx < visiting.len() {
            let mut cycle: Vec<String> = Vec::new();
            let mut k: usize = idx;
            while k < visiting.len()
                invariant
                    idx <= k <= visiting@.len(),
                    vis == strings_view(*visiting),
                    strings_view(cycle) == vis.subrange(idx as int, k as int),
                decreases visiting@.len() - k,
            {
                let ghost prev = strings_view(cycle);
                let piece = owned(visiting[k].as_str());
                cycle.push(piece);
                proof {
                    assert(strings_view(cycle) =~= prev.push(vis[k as int]));
                    assert(strings_view(cycle) =~= vis.subrange(idx as int, k + 1));
                }
                k = k + 1;
            }
            cycle.push(owned(module));
            proof {
                let c = strings_view(cycle);
                let n = vis.len();
                assert(c =~= vis.subrange(idx as int, n as int).push(module@));
                assert(vis[idx as int] == module@);
                assert forall|i: int| 0 <= i < c.len() - 1 implies #[trigger] edge_at(g, c, i) by {
                    if i < n - idx - 1 {
                        assert(edge_at(g, vis, idx + i));
                    }
                }
                assert(c.drop_last() =~= vis.subrange(idx as int, n as int));
                lemma_subwalk(g, vis, 0, idx + 1);
                assert(vis.subrange(0, idx + 1).last() == c[0]);
                assert(is_walk(g, vis.subrange(0, idx + 1)));
            }
            return (
                Err(TypeError::CircularDependency { cycle, span: TypeError::span_from_span(span) }),
                Ghost(order),
            );
        }
        match visited.get(module) {
            Some(done) => {
                if *done {
                    return (Ok(()), Ghost(order));
                }
            },
            None => {},
        }
        let ghost mut current: Seq<Seq<char>> = order;
        proof {
            assert(!order.contains(module@));
        }
        visiting.push(owned(module));
        let ghost vis2 = strings_view(*visiting);
        let ghost pushed = visiting@;
        proof {
            assert(vis2 =~= vis.push(module@));
            assert(pushed.drop_last() =~= old(visiting)@);
            assert(vis2[vis.len() as int] == module@);
            assert forall|i: int| 0 <= i < current.len() implies !vis2.contains(#[trigger] current[i]) by {
                if vis2.contains(current[i]) {
                    let t = choose|t: int| 0 <= t < vis2.len() && vis2[t] == current[i];
                    if t < vis.len() {
                        assert(vis[t] == vis2[t]);
                        assert(vis.contains(order[i]));
                    } else {
                        assert(order.contains(module@));
                    }
                }
            }
        }
        match self.dependency_graph.get(module) {
            Some(dependencies) => {
                proof {
                    assert(g.contains_key(module@));
                    assert(g[module@] == strings_view(*dependencies));
                    assert(vis2.no_duplicates());
                    assert(vis2.to_set().subset_of(g.dom()));
                    vis2.unique_seq_to_set();
                    vstd::set_lib::lemma_len_subset(vis2.to_set(), g.dom());
                    if vis.len() > 0 {
                        assert forall|i: int| 0 <= i < vis2.len() - 1 implies #[trigger] edge_at(g, vis2, i) by {
                            if i < vis.len() - 1 {
                                assert(edge_at(g, vis, i));
                            } else {
                                assert(vis2[i] == vis.last());
                                assert(vis2[i + 1] == module@);
                            }
                        }
                    }
                }
                let mut j: usize = 0;
                while j < dependencies.len()
                    invariant
                        self.wf(),
                        g == self.graph(),
                        g.contains_key(module@),
                        g[module@] == strings_view(*dependencies),
                        j <= dependencies@.len(),
                        vis2 == strings_view(*visiting),
                        vis2 == vis.push(module@),
                        vis == strings_view(*old(visiting)),
                        visiting@ == pushed,
                        pushed.drop_last() == old(visiting)@,
                        vis2.no_duplicates(),
                        forall|i: int| 0 <= i < vis2.len() ==> g.contains_key(#[trigger] vis2[i]),
                        vis2[0] == root,
                        is_walk(g, vis2),
                        vis2.len() <= g.dom().len(),
                        current.no_duplicates(),
                        finish_ordered(g, current),
                        visited.wf(),
                        forall|k: Seq<char>| #[trigger] visited@.contains_key(k) <==> current.contains(k),
                        forall|k: Seq<char>| #[trigger] visited@.contains_key(k) ==> visited@[k],
                        forall|k: Seq<char>| order.contains(k) ==> #[trigger] current.contains(k),
                        forall|i: int| 0 <= i < current.len() ==> !vis2.contains(#[trigger] current[i]),
                        forall|i: int| 0 <= i < j ==> current.contains(#[trigger] g[module@][i]),
                    decreases dependencies@.len() - j,
                {
                    proof {
                        assert(g[module@][j as int] == dependencies@[j as int]@);
                        assert(has_edge(g, vis2.last(), dependencies@[j as int]@));
                    }
                    let (res, Ghost(next)) = self.dfs_cycle(
                        dependencies[j].as_str(),
                        visiting,
                        visited,
                        span,
                        Ghost(root),
                        Ghost(current),
                    );
                    match res {
                        Err(e) => {
                            return (Err(e), Ghost(next));
                        },
                        Ok(()) => {},
                    }
                    proof {
                        current = next;
                    }
                    j = j + 1;
                }
            },
            None => {
                proof {
                    assert(!g.contains_key(module@));
                }
            },
        }
        visiting.pop();
        visited.insert(owned(module), true);
        let ghost finished = current.push(module@);
        proof {
            assert(visiting@ =~= old(visiting)@);
            assert(!current.contains(module@)) by {
                if current.contains(module@) {
                    let i = choose|i: int| 0 <= i < current.len() && current[i] == module@;
                    assert(vis2[vis.len() as int] == module@);
                    assert(vis2.contains(current[i]));
                }
            }
            assert forall|i: int, d: Seq<char>| 0 <= i < finished.len() && #[trigger] has_edge(g, finished[i], d)
                implies exists|jj: int| 0 <= jj < i && finished[jj] == d by {
                if i < current.len() {
                    assert(finished[i] == current[i]);
                    let jj = choose|jj: int| 0 <= jj < i && current[jj] == d;
                    assert(finished[jj] == d);
                } else {
                    let t = choose|t: int| 0 <= t < g[module@].len() && g[module@][t] == d;
                    assert(current.contains(g[module@][t]));
                    let jj = choose|jj: int| 0 <= jj < current.len() && current[jj] == d;
                    assert(finished[jj] == d);
                }
            }
            assert forall|k: Seq<char>| #[trigger] visited@.contains_key(k) <==> finished.contains(k) by {
                if k == module@ {
                    assert(finished[current.len() as int] == k);
                } else if current.contains(k) {
                    let i = choose|i: int| 0 <= i < current.len() && current[i] == k;
                    assert(finished[i] == k);
                } else if finished.contains(k) {
                    let i = choose|i: int| 0 <= i < finished.len() && finished[i] == k;
                    if i < current.len() {
                        assert(current[i] == k);
                    }
                }
            }
            assert forall|k: Seq<char>| order.contains(k) implies #[trigger] finished.contains(k) by {
                assert(current.contains(k));
                let i = choose|i: int| 0 <= i < current.len() && current[i] == k;
                assert(finished[i] == k);
            }
            assert(finished[current.len() as int] == module@);
            assert forall|i: int| 0 <= i < finished.len() implies !vis.contains(#[trigger] finished[i]) by {
                if i < current.len() {
                    assert(finished[i] == current[i]);
                    if vis.contains(current[i]) {
                        let t = choose|t: int| 0 <= t < vis.len() && vis[t] == current[i];
                        assert(vis2[t] == vis[t]);
                    }
                }
            }
        }
        (Ok(()), Ghost(finished))
    }

    /// Detect an import cycle reachable from `module`. Succeeds exactly when no chain
    /// of imports starting at `module` visits a module twice; otherwise reports such
    /// a cycle, listed from its first module back to that module.
    pub fn validate_no_cycles_from(&self, module: &str, span: Span) -> (r: Result<(), TypeError>)
        requires
            self.wf(),
        ensures
            r is Ok <==> !cycle_reachable(self.graph(), module@),
            r matches Err(e) ==> (e matches TypeError::CircularDependency { cycle, span: s }
                && s == diagnostic_span_of(span) && is_simple_cycle(self.graph(), strings_view(cycle))
                && reachable(self.graph(), module@, strings_view(cycle)[0])),
    {
        let mut visiting: Vec<String> = Vec::new();
        let mut visited: NameMap<bool> = NameMap::new();
        proof {
            assert(strings_view(visiting) =~= Seq::<Seq<char>>::empty());
        }
        let (r, Ghost(order)) = self.dfs_cycle(
            module,
            &mut visiting,
            &mut visited,
            span,
            Ghost(module@),
            Ghost(Seq::<Seq<char>>::empty()),
        );
        proof {
            match r {
                Ok(()) => {
                    lemma_no_repeat_from_finished(self.graph(), order, module@);
                },
                Err(ref e) => {
                    if let TypeError::CircularDependency { ref cycle, span: _ } = e {
                        lemma_cycle_reachable(self.graph(), module@, strings_view(*cycle));
                    }
                },
            }
        }
        r
    }
}

impl ModuleResolver {
    /// A symbol record anchored at the start of the source, as built-in symbols are.
    pub fn module_symbol(name: String, symbol_type: SymbolType, core_type: CoreType, visibility: Visibility) -> (r: SymbolInfo)
        ensures
            r.name == name,
            r.symbol_type == symbol_type,
            r.core_type == core_type,
            r.visibility == visibility,
            r.source_location == (Span {
                start: Position { line: 1, column: 1, offset: 0 },
                end: Position { line: 1, column: 1, offset: 0 },
            }),
            !r.is_let_binding,
            !r.is_mutable,
            r.read_count == 0,
            !r.is_pure,
    {
        SymbolInfo {
            name,
            symbol_type,
            core_type,
            visibility,
            source_location: Span::single(Position::start()),
            is_let_binding: false,
            is_mutable: false,
            read_count: 0,
            is_pure: false,
        }
    }
}

impl Default for ModuleResolver {
    /// An empty resolver.
    fn default() -> (r: Self)
        ensures
            r.wf(),
            r.modules() == Map::<Seq<char>, ModuleInterface>::empty(),
            r.graph() == Map::<Seq<char>, Seq<Seq<char>>>::empty(),
            r.bindings() == Map::<Seq<char>, Map<Seq<char>, Seq<char>>>::empty(),
    {
        Self::new()
    }
}

/// Two interfaces agree on everything except their ADT field layouts.
pub open spec fn same_apart_from_adt_fields(a: ModuleInterface, b: ModuleInterface) -> bool {
    &&& b.wf()
    &&& a.exports == b.exports
    &&& a.private_symbols == b.private_symbols
    &&& a.path == b.path
    &&& a.function_return_labels == b.function_return_labels
    &&& a.function_borrow_kinds == b.function_borrow_kinds
    &&& a.availability == b.availability
    &&& a.namespaces == b.namespaces
    &&& a.type_declarations == b.type_declarations
}


/// The nominal type name `n` is mentioned in `m`: as a nominal type's name, or anywhere
/// inside an array element, a function's generic-parameter constraints, parameters,
/// return or error types, or a nominal type's arguments.
pub open spec fn mentions_name(n: Seq<char>, m: TypeModel) -> bool
    decreases m,
{
    match m {
        TypeModel::Array(e) => mentions_name(n, *e),
        TypeModel::Function { generic_params, parameters, return_types, error_types } => params_mention_name(
            n,
            generic_params,
        ) || list_mentions_name(n, parameters) || list_mentions_name(n, return_types) || list_mentions_name(n, error_types),
        TypeModel::Generic { name, type_args } => name == n || list_mentions_name(n, type_args),
        _ => false,
    }
}

/// `n` is mentioned in one of `s`.
pub open spec fn list_mentions_name(n: Seq<char>, s: Seq<TypeModel>) -> bool
    decreases s,
{
    if s.len() == 0 {
        false
    } else {
        list_mentions_name(n, s.drop_last()) || mentions_name(n, s.last())
    }
}

/// `n` is mentioned in the constraints of one of `ps`.
pub open spec fn params_mention_name(n: Seq<char>, ps: Seq<ParamModel>) -> bool
    decreases ps,
{
    if ps.len() == 0 {
        false
    } else {
        params_mention_name(n, ps.drop_last()) || list_mentions_name(n, ps.last().constraints)
    }
}

impl ModuleResolver {
    /// A type refers to a test-only type exactly when some nominal name it mentions is
    /// declared by a test-only module; the reference found is such a name, with the
    /// module that declares it.
    pub proof fn law_test_only_reference_is_a_mentioned_name(&self, m: TypeModel)
        ensures
            self.type_test_only_ref(m) is Some <==> exists|n: Seq<char>| mentions_name(n, m) && self.test_only_source(n) is Some,
            self.type_test_only_ref(m) matches Some((n, p)) ==> mentions_name(n, m) && self.test_only_source(n) == Some(p),
    {
        self.lemma_type_ref(m);
        match self.type_test_only_ref(m) {
            Some(found) => {
                assert(mentions_name(found.0, m) && self.test_only_source(found.0) is Some);
            },
            None => {},
        }
    }

    proof fn lemma_type_ref(&self, m: TypeModel)
        ensures
            self.type_test_only_ref(m) matches Some((n, p)) ==> mentions_name(n, m) && self.test_only_source(n) == Some(p),
            self.type_test_only_ref(m) is None ==> forall|n: Seq<char>| #[trigger] mentions_name(n, m) ==> self.test_only_source(n) is None,
        decreases m,
    {
        match m {
            TypeModel::Array(e) => self.lemma_type_ref(*e),
            TypeModel::Function { generic_params, parameters, return_types, error_types } => {
                self.lemma_params_ref(generic_params);
                self.lemma_list_ref(parameters);
                self.lemma_list_ref(return_types);
                self.lemma_list_ref(error_types);
            },
            TypeModel::Generic { name, type_args } => self.lemma_list_ref(type_args),
            _ => {},
        }
        if self.type_test_only_ref(m) is None {
            assert forall|n: Seq<char>| #[trigger] mentions_name(n, m) implies self.test_only_source(n) is None by {
                match m {
                    TypeModel::Array(e) => assert(mentions_name(n, *e)),
                    TypeModel::Function { generic_params, parameters, return_types, error_types } => {
                        if params_mention_name(n, generic_params) {
                        } else if list_mentions_name(n, parameters) {
                        } else if list_mentions_name(n, return_types) {
                        } else {
                            assert(list_mentions_name(n, error_types));
                        }
                    },
                    TypeModel::Generic { name, type_args } => {
                        if name != n {
                            assert(list_mentions_name(n, type_args));
                        }
                    },
                    _ => {},
                }
            }
        }
    }

    proof fn lemma_list_ref(&self, s: Seq<TypeModel>)
        ensures
            self.list_test_only_ref(s) matches Some((n, p)) ==> list_mentions_name(n, s) && self.test_only_source(n) == Some(p),
            self.list_test_only_ref(s) is None ==> forall|n: Seq<char>| #[trigger] list_mentions_name(n, s) ==> self.test_only_source(n) is None,
        decreases s,
    {
        if s.len() > 0 {
            self.lemma_list_ref(s.drop_last());
            self.lemma_type_ref(s.last());
            if self.list_test_only_ref(s) is None {
                assert forall|n: Seq<char>| #[trigger] list_mentions_name(n, s) implies self.test_only_source(n) is None by {
                    if !list_mentions_name(n, s.drop_last()) {
                        assert(mentions_name(n, s.last()));
                    }
                }
            }
        }
    }

    proof fn lemma_params_ref(&self, ps: Seq<ParamModel>)
        ensures
            self.params_test_only_ref(ps) matches Some((n, p)) ==> params_mention_name(n, ps) && self.test_only_source(n) == Some(p),
            self.params_test_only_ref(ps) is None ==> forall|n: Seq<char>| #[trigger] params_mention_name(n, ps) ==> self.test_only_source(n) is None,
        decreases ps,
    {
        if ps.len() > 0 {
            self.lemma_params_ref(ps.drop_last());
            self.lemma_list_ref(ps.last().constraints);
            if self.params_test_only_ref(ps) is None {
                assert forall|n: Seq<char>| #[trigger] params_mention_name(n, ps) implies self.test_only_source(n) is None by {
                    if !params_mention_name(n, ps.drop_last()) {
                        assert(list_mentions_name(n, ps.last().constraints));
                    }
                }
            }
        }
    }
}

} // verus!
