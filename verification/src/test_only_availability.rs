//! Compile-time availability checks for test-only declarations: production
//! declarations, signatures and type definitions may not opt into test-only authority
//! or reach a type declared by a test-only module.

use vstd::prelude::*;
use crate::ast::{DeclarationAnnotation, FieldDef, Type, TypeDef, TypeParameter, VariantDef};
use crate::errors::{is_constraint_error, TypeError};
use crate::module_resolver::ModuleResolver;
use crate::text::{join3, join5, str_eq};
use crate::token::Span;
use crate::types::{model_of, CoreType};

verus! {

/// The test-only authority an annotation claims, with its location.
pub open spec fn annotation_violation(a: DeclarationAnnotation) -> Option<(Seq<char>, Span)> {
    match a {
        DeclarationAnnotation::Availability { value, span } => if value@ == "test_only"@ {
            Some(("declares @availability(test_only)"@, span))
        } else {
            None
        },
        DeclarationAnnotation::ConstructorVisibility { value, span } => if value@ == "test_runner"@ {
            Some(("declares @constructor_visibility(test_runner)"@, span))
        } else {
            None
        },
        DeclarationAnnotation::Other { .. } => None,
    }
}

/// The first annotation, in order, that claims test-only authority.
pub open spec fn first_annotation_violation(s: Seq<DeclarationAnnotation>) -> Option<(Seq<char>, Span)>
    decreases s.len(),
{
    if s.len() == 0 {
        None
    } else {
        match annotation_violation(s[0]) {
            Some(v) => Some(v),
            None => first_annotation_violation(s.drop_first()),
        }
    }
}

/// Reason reported for a production declaration claiming test-only authority.
pub open spec fn metadata_violation_reason(declaration: Seq<char>, reason: Seq<char>) -> Seq<char> {
    "test-only availability violation: production declaration '"@ + declaration + "' "@ + reason
}

/// Reason reported for a production surface that reaches a test-only type.
pub open spec fn type_reference_reason(kind: Seq<char>, owner: Seq<char>, type_label: Seq<char>, module: Seq<char>) -> Seq<char> {
    "test-only availability violation: production "@ + kind + " '"@ + owner + "' references test-only type '"@
        + type_label + "' from '"@ + module + "'"@
}

/// The first nominal name, in pre-order, of a type annotation that a test-only module
/// declares: the name, the module and the name's location.
pub open spec fn type_name_reference(r: ModuleResolver, t: Type) -> Option<(Seq<char>, Seq<char>, Span)>
    decreases t,
{
    match t {
        Type::Basic { name, span } => match r.test_only_source(name@) {
            Some(m) => Some((name@, m, span)),
            None => None,
        },
        Type::Generic { name, type_args, span } => match r.test_only_source(name@) {
            Some(m) => Some((name@, m, span)),
            None => list_name_reference(r, type_args@),
        },
        Type::Array { element_type, .. } => type_name_reference(r, *element_type),
        Type::Function { parameters, return_types, errors, .. } => match list_name_reference(r, parameters@) {
            Some(x) => Some(x),
            None => match list_name_reference(r, return_types@) {
                Some(x) => Some(x),
                None => match errors {
                    Some(es) => list_name_reference(r, es@),
                    None => None,
                },
            },
        },
    }
}

/// The first test-only reference of a list of type annotations, taken in order.
pub open spec fn list_name_reference(r: ModuleResolver, s: Seq<Type>) -> Option<(Seq<char>, Seq<char>, Span)>
    decreases s,
{
    if s.len() == 0 {
        None
    } else {
        match list_name_reference(r, s.drop_last()) {
            Some(x) => Some(x),
            None => type_name_reference(r, s.last()),
        }
    }
}

/// The first test-only reference among the constraints of type parameters, in order.
pub open spec fn parameters_reference(r: ModuleResolver, ps: Seq<TypeParameter>) -> Option<(Seq<char>, Seq<char>, Span)>
    decreases ps.len(),
{
    if ps.len() == 0 {
        None
    } else {
        match parameters_reference(r, ps.drop_last()) {
            Some(x) => Some(x),
            None => list_name_reference(r, ps.last().constraints@),
        }
    }
}

/// The first test-only reference among field annotations, in order.
pub open spec fn fields_reference(r: ModuleResolver, fs: Seq<FieldDef>) -> Option<(Seq<char>, Seq<char>, Span)>
    decreases fs.len(),
{
    if fs.len() == 0 {
        None
    } else {
        match fields_reference(r, fs.drop_last()) {
            Some(x) => Some(x),
            None => type_name_reference(r, fs.last().type_annotation),
        }
    }
}

/// The first test-only reference among the fields of variants, in order.
pub open spec fn variants_reference(r: ModuleResolver, vs: Seq<VariantDef>) -> Option<(Seq<char>, Seq<char>, Span)>
    decreases vs.len(),
{
    if vs.len() == 0 {
        None
    } else {
        match variants_reference(r, vs.drop_last()) {
            Some(x) => Some(x),
            None => fields_reference(r, vs.last().fields@),
        }
    }
}

/// The surface kind and first test-only reference of a type definition.
pub open spec fn type_def_reference(r: ModuleResolver, d: TypeDef) -> Option<(Seq<char>, (Seq<char>, Seq<char>, Span))> {
    match d {
        TypeDef::Product { fields } => match fields_reference(r, fields@) {
            Some(x) => Some(("type field"@, x)),
            None => None,
        },
        TypeDef::Sum { variants } => match variants_reference(r, variants@) {
            Some(x) => Some(("variant field"@, x)),
            None => None,
        },
        TypeDef::Alias { target_type } => match type_name_reference(r, target_type) {
            Some(x) => Some(("type alias"@, x)),
            None => None,
        },
        TypeDef::Opaque => None,
    }
}

/// The result of checking one reference for a surface of `kind` owned by `owner`.
pub open spec fn reference_result(
    r: Result<(), TypeError>,
    kind: Seq<char>,
    owner: Seq<char>,
    found: Option<(Seq<char>, Seq<char>, Span)>,
) -> bool {
    match found {
        Some((t, m, span)) => r matches Err(e) && is_constraint_error(e, type_reference_reason(kind, owner, t, m), span),
        None => r is Ok,
    }
}

/// Build the diagnostic for production metadata that opts into test-only authority.
pub fn test_only_metadata_error(declaration_name: &str, reason: &str, span: Span) -> (r: TypeError)
    ensures
        is_constraint_error(r, metadata_violation_reason(declaration_name@, reason@), span),
{
    let mut text = join3("test-only availability violation: production declaration '", declaration_name, "' ");
    text.append(reason);
    TypeError::ConstraintSolvingFailed { reason: text, span: TypeError::span_from_span(span) }
}

/// Build the diagnostic for production surfaces that reach test-only types.
pub fn test_only_type_reference_error(
    surface_kind: &str,
    owner_name: &str,
    type_label: &str,
    module: &str,
    span: Span,
) -> (r: TypeError)
    ensures
        is_constraint_error(r, type_reference_reason(surface_kind@, owner_name@, type_label@, module@), span),
{
    let mut text = join5("test-only availability violation: production ", surface_kind, " '", owner_name, "' references test-only type '");
    text.append(type_label);
    text.append("' from '");
    text.append(module);
    text.append("'");
    assert(text@ =~= type_reference_reason(surface_kind@, owner_name@, type_label@, module@));
    TypeError::ConstraintSolvingFailed { reason: text, span: TypeError::span_from_span(span) }
}

/// Reject production declarations that opt into test-only availability.
pub fn validate_production_declaration_availability(
    allow_test_only_imports: bool,
    declaration_name: &str,
    annotations: &[DeclarationAnnotation],
) -> (r: Result<(), TypeError>)
    ensures
        allow_test_only_imports ==> r is Ok,
        !allow_test_only_imports ==> match first_annotation_violation(annotations@) {
            Some((reason, span)) => r matches Err(e) && is_constraint_error(
                e,
                metadata_violation_reason(declaration_name@, reason),
                span,
            ),
            None => r is Ok,
        },
{
    if allow_test_only_imports {
        return Ok(());
    }
    let mut i: usize = 0;
    assert(annotations@.skip(0) =~= annotations@);
    while i < annotations.len()
        invariant
            !allow_test_only_imports,
            i <= annotations@.len(),
            first_annotation_violation(annotations@) == first_annotation_violation(annotations@.skip(i as int)),
        decreases annotations@.len() - i,
    {
        proof {
            assert(annotations@.skip(i as int).drop_first() =~= annotations@.skip(i + 1));
            assert(annotations@.skip(i as int)[0] == annotations@[i as int]);
        }
        match &annotations[i] {
            DeclarationAnnotation::Availability { value, span } => {
                if str_eq(value.as_str(), "test_only") {
                    return Err(test_only_metadata_error(declaration_name, "declares @availability(test_only)", *span));
                }
            },
            DeclarationAnnotation::ConstructorVisibility { value, span } => {
                if str_eq(value.as_str(), "test_runner") {
                    return Err(
                        test_only_metadata_error(declaration_name, "declares @constructor_visibility(test_runner)", *span),
                    );
                }
            },
            DeclarationAnnotation::Other { .. } => {},
        }
        i = i + 1;
    }
    Ok(())
}

/// Reject one production nominal type name when a test-only module declares it.
fn validate_production_type_name_surface(
    resolver: &ModuleResolver,
    surface_kind: &str,
    owner_name: &str,
    type_label: &str,
    span: Span,
) -> (r: Result<(), TypeError>)
    requires
        resolver.wf(),
    ensures
        reference_result(r, surface_kind@, owner_name@, match resolver.test_only_source(type_label@) {
            Some(m) => Some((type_label@, m, span)),
            None => None,
        }),
{
    match resolver.test_only_type_source(type_label) {
        Some(module) => Err(test_only_type_reference_error(surface_kind, owner_name, type_label, module, span)),
        None => Ok(()),
    }
}

/// Recursively inspect a type annotation for names declared by test-only modules.
fn validate_ast_type_names(resolver: &ModuleResolver, surface_kind: &str, owner_name: &str, ast_type: &Type) -> (r:
    Result<(), TypeError>)
    requires
        resolver.wf(),
    ensures
        reference_result(r, surface_kind@, owner_name@, type_name_reference(*resolver, *ast_type)),
    decreases ast_type,
{
    match ast_type {
        Type::Basic { name, span } => validate_production_type_name_surface(resolver, surface_kind, owner_name, name.as_str(), *span),
        Type::Generic { name, type_args, span } => {
            let own = validate_production_type_name_surface(resolver, surface_kind, owner_name, name.as_str(), *span);
            if own.is_err() {
                return own;
            }
            validate_type_list_names(resolver, surface_kind, owner_name, type_args)
        },
        Type::Array { element_type, .. } => validate_ast_type_names(resolver, surface_kind, owner_name, &**element_type),
        Type::Function { parameters, return_types, errors, .. } => {
            let p = validate_type_list_names(resolver, surface_kind, owner_name, parameters);
            if p.is_err() {
                return p;
            }
            let q = validate_type_list_names(resolver, surface_kind, owner_name, return_types);
            if q.is_err() {
                return q;
            }
            match errors {
                Some(error_types) => validate_type_list_names(resolver, surface_kind, owner_name, error_types),
                None => Ok(()),
            }
        },
    }
}

/// A reference found in a prefix of a list is the reference of the whole list.
proof fn lemma_list_reference_prefix(r: ModuleResolver, s: Seq<Type>, k: int)
    requires
        0 <= k <= s.len(),
        list_name_reference(r, s.take(k)) is Some,
    ensures
        list_name_reference(r, s) == list_name_reference(r, s.take(k)),
    decreases s.len(),
{
    if k < s.len() {
        assert(s.drop_last().take(k) =~= s.take(k));
        lemma_list_reference_prefix(r, s.drop_last(), k);
    } else {
        assert(s.take(k) =~= s);
    }
}

/// Inspect a list of type annotations in order.
fn validate_type_list_names(resolver: &ModuleResolver, surface_kind: &str, owner_name: &str, types: &Vec<Type>) -> (r:
    Result<(), TypeError>)
    requires
        resolver.wf(),
    ensures
        reference_result(r, surface_kind@, owner_name@, list_name_reference(*resolver, types@)),
    decreases types,
{
    let mut i: usize = 0;
    while i < types.len()
        invariant
            resolver.wf(),
            i <= types@.len(),
            list_name_reference(*resolver, types@.take(i as int)) is None,
        decreases types@.len() - i,
    {
        proof {
            vstd::std_specs::vec::axiom_vec_index_decreases(*types, i as int);
            assert(types@.take(i + 1).drop_last() =~= types@.take(i as int));
            assert(types@.take(i + 1).last() == types@[i as int]);
        }
        let checked = validate_ast_type_names(resolver, surface_kind, owner_name, &types[i]);
        if checked.is_err() {
            proof {
                lemma_list_reference_prefix(*resolver, types@, i + 1);
            }
            return checked;
        }
        i = i + 1;
    }
    proof {
        assert(types@.take(types@.len() as int) =~= types@);
    }
    Ok(())
}

/// Reject production generic bounds that name test-only types.
pub fn validate_production_type_parameter_constraints(
    resolver: &ModuleResolver,
    allow_test_only_imports: bool,
    surface_kind: &str,
    owner_name: &str,
    declarations: Option<&[TypeParameter]>,
) -> (r: Result<(), TypeError>)
    requires
        resolver.wf(),
    ensures
        allow_test_only_imports ==> r is Ok,
        !allow_test_only_imports ==> reference_result(r, surface_kind@, owner_name@, match declarations {
            Some(ps) => parameters_reference(*resolver, ps@),
            None => None,
        }),
{
    if allow_test_only_imports {
        return Ok(());
    }
    let parameters = match declarations {
        Some(ps) => ps,
        None => return Ok(()),
    };
    let mut i: usize = 0;
    while i < parameters.len()
        invariant
            resolver.wf(),
            !allow_test_only_imports,
            declarations == Some(parameters),
            i <= parameters@.len(),
            parameters_reference(*resolver, parameters@.take(i as int)) is None,
        decreases parameters@.len() - i,
    {
        proof {
            assert(parameters@.take(i + 1).drop_last() =~= parameters@.take(i as int));
            assert(parameters@.take(i + 1).last() == parameters@[i as int]);
        }
        let checked = validate_type_list_names(resolver, surface_kind, owner_name, &parameters[i].constraints);
        if checked.is_err() {
            proof {
                lemma_parameters_reference_prefix(*resolver, parameters@, i + 1);
            }
            return checked;
        }
        i = i + 1;
    }
    proof {
        assert(parameters@.take(parameters@.len() as int) =~= parameters@);
    }
    Ok(())
}

/// A reference found in a prefix of the parameters is the reference of all of them.
proof fn lemma_parameters_reference_prefix(r: ModuleResolver, s: Seq<TypeParameter>, k: int)
    requires
        0 <= k <= s.len(),
        parameters_reference(r, s.take(k)) is Some,
    ensures
        parameters_reference(r, s) == parameters_reference(r, s.take(k)),
    decreases s.len(),
{
    if k < s.len() {
        assert(s.drop_last().take(k) =~= s.take(k));
        lemma_parameters_reference_prefix(r, s.drop_last(), k);
    } else {
        assert(s.take(k) =~= s);
    }
}

/// Reject production-visible core types that reach a test-only declaration.
pub fn validate_production_core_type_surface(
    resolver: &ModuleResolver,
    allow_test_only_imports: bool,
    surface_kind: &str,
    owner_name: &str,
    core_type: &CoreType,
    span: Span,
) -> (r: Result<(), TypeError>)
    requires
        resolver.wf(),
    ensures
        allow_test_only_imports ==> r is Ok,
        !allow_test_only_imports ==> reference_result(r, surface_kind@, owner_name@, match resolver.type_test_only_ref(
            model_of(*core_type),
        ) {
            Some((t, m)) => Some((t, m, span)),
            None => None,
        }),
{
    if allow_test_only_imports {
        return Ok(());
    }
    match resolver.core_type_test_only_reference(core_type) {
        Some((type_label, module)) => Err(
            test_only_type_reference_error(surface_kind, owner_name, type_label.as_str(), module.as_str(), span),
        ),
        None => Ok(()),
    }
}

/// Reject production type annotations that name test-only types.
pub fn validate_production_ast_type_surface(
    resolver: &ModuleResolver,
    allow_test_only_imports: bool,
    surface_kind: &str,
    owner_name: &str,
    ast_type: &Type,
) -> (r: Result<(), TypeError>)
    requires
        resolver.wf(),
    ensures
        allow_test_only_imports ==> r is Ok,
        !allow_test_only_imports ==> reference_result(r, surface_kind@, owner_name@, type_name_reference(*resolver, *ast_type)),
{
    if allow_test_only_imports {
        return Ok(());
    }
    validate_ast_type_names(resolver, surface_kind, owner_name, ast_type)
}

/// Check field annotations in order.
fn validate_fields(resolver: &ModuleResolver, surface_kind: &str, owner_name: &str, fields: &Vec<FieldDef>) -> (r:
    Result<(), TypeError>)
    requires
        resolver.wf(),
    ensures
        reference_result(r, surface_kind@, owner_name@, fields_reference(*resolver, fields@)),
{
    let mut i: usize = 0;
    while i < fields.len()
        invariant
            resolver.wf(),
            i <= fields@.len(),
            fields_reference(*resolver, fields@.take(i as int)) is None,
        decreases fields@.len() - i,
    {
        proof {
            assert(fields@.take(i + 1).drop_last() =~= fields@.take(i as int));
            assert(fields@.take(i + 1).last() == fields@[i as int]);
        }
        let checked = validate_ast_type_names(resolver, surface_kind, owner_name, &fields[i].type_annotation);
        if checked.is_err() {
            proof {
                lemma_fields_reference_prefix(*resolver, fields@, i + 1);
            }
            return checked;
        }
        i = i + 1;
    }
    proof {
        assert(fields@.take(fields@.len() as int) =~= fields@);
    }
    Ok(())
}

/// A reference found in a prefix of the fields is the reference of all of them.
proof fn lemma_fields_reference_prefix(r: ModuleResolver, s: Seq<FieldDef>, k: int)
    requires
        0 <= k <= s.len(),
        fields_reference(r, s.take(k)) is Some,
    ensures
        fields_reference(r, s) == fields_reference(r, s.take(k)),
    decreases s.len(),
{
    if k < s.len() {
        assert(s.drop_last().take(k) =~= s.take(k));
        lemma_fields_reference_prefix(r, s.drop_last(), k);
    } else {
        assert(s.take(k) =~= s);
    }
}

/// A reference found in a prefix of the variants is the reference of all of them.
proof fn lemma_variants_reference_prefix(r: ModuleResolver, s: Seq<VariantDef>, k: int)
    requires
        0 <= k <= s.len(),
        variants_reference(r, s.take(k)) is Some,
    ensures
        variants_reference(r, s) == variants_reference(r, s.take(k)),
    decreases s.len(),
{
    if k < s.len() {
        assert(s.drop_last().take(k) =~= s.take(k));
        lemma_variants_reference_prefix(r, s.drop_last(), k);
    } else {
        assert(s.take(k) =~= s);
    }
}

/// Reject production type declarations whose fields or aliases name test-only types.
pub fn validate_production_type_def_surface(
    resolver: &ModuleResolver,
    allow_test_only_imports: bool,
    type_label: &str,
    type_def: &TypeDef,
) -> (r: Result<(), TypeError>)
    requires
        resolver.wf(),
    ensures
        allow_test_only_imports ==> r is Ok,
        !allow_test_only_imports ==> match type_def_reference(*resolver, *type_def) {
            Some((kind, x)) => reference_result(r, kind, type_label@, Some(x)),
            None => r is Ok,
        },
{
    if allow_test_only_imports {
        return Ok(());
    }
    match type_def {
        TypeDef::Product { fields } => validate_fields(resolver, "type field", type_label, fields),
        TypeDef::Sum { variants } => {
            let mut i: usize = 0;
            while i < variants.len()
                invariant
                    resolver.wf(),
                    !allow_test_only_imports,
                    type_def_reference(*resolver, *type_def) == match variants_reference(*resolver, variants@) {
                        Some(x) => Some(("variant field"@, x)),
                        None => None,
                    },
                    i <= variants@.len(),
                    variants_reference(*resolver, variants@.take(i as int)) is None,
                decreases variants@.len() - i,
            {
                proof {
                    assert(variants@.take(i + 1).drop_last() =~= variants@.take(i as int));
                    assert(variants@.take(i + 1).last() == variants@[i as int]);
                }
                let checked = validate_fields(resolver, "variant field", type_label, &variants[i].fields);
                if checked.is_err() {
                    proof {
                        lemma_variants_reference_prefix(*resolver, variants@, i + 1);
                    }
                    return checked;
                }
                i = i + 1;
            }
            proof {
                assert(variants@.take(variants@.len() as int) =~= variants@);
            }
            Ok(())
        },
        TypeDef::Alias { target_type } => validate_ast_type_names(resolver, "type alias", type_label, target_type),
        TypeDef::Opaque => Ok(()),
    }
}

} // verus!
