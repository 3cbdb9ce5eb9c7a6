//! The standard built-in functions every program can call.

use vstd::prelude::*;
use crate::environment::TypeEnvironment;
use crate::name_map::NameMap;
use crate::symbol_table::{symbol_model, SymbolInfo, SymbolModel, SymbolType, Visibility};
use crate::text::{join3, owned};
use crate::token::{Position, Span};
use crate::types::{model_of, CoreType, TypeModel, TypeVar};

verus! {

/// The function type with these parameters, returns and errors, and no generic
/// parameters.
pub open spec fn fn_model(parameters: Seq<TypeModel>, return_types: Seq<TypeModel>, error_types: Seq<TypeModel>) -> TypeModel {
    TypeModel::Function { generic_params: Seq::empty(), parameters, return_types, error_types }
}

/// The nominal type `name<args>`.
pub open spec fn nominal_model(name: Seq<char>, type_args: Seq<TypeModel>) -> TypeModel {
    TypeModel::Generic { name, type_args }
}

/// The symbol a built-in function is registered as: public, declared at the start of
/// the source, never read yet.
pub open spec fn builtin_symbol(name: Seq<char>, signature: TypeModel) -> SymbolModel {
    SymbolModel {
        name,
        symbol_type: SymbolType::Function,
        core_type: signature,
        visibility: Visibility::Public,
        source_location: Span {
            start: Position { line: 1, column: 1, offset: 0 },
            end: Position { line: 1, column: 1, offset: 0 },
        },
        is_let_binding: false,
        is_mutable: false,
        read_count: 0,
        is_pure: false,
    }
}

/// The integer type names that carry arithmetic intrinsics, in registration order.
pub open spec fn integer_type_names() -> Seq<Seq<char>> {
    seq!["int8"@, "int16"@, "int32"@, "int64"@, "uint8"@, "uint16"@, "uint32"@, "uint64"@]
}

/// The integer types named by `integer_type_names`.
pub open spec fn integer_type_models() -> Seq<TypeModel> {
    seq![
        TypeModel::Int8,
        TypeModel::Int16,
        TypeModel::Int32,
        TypeModel::Int64,
        TypeModel::UInt8,
        TypeModel::UInt16,
        TypeModel::UInt32,
        TypeModel::UInt64,
    ]
}

/// Intrinsics returning `Option<T>`.
pub open spec fn checked_methods() -> Seq<Seq<char>> {
    seq!["checked_add"@, "checked_sub"@, "checked_mul"@]
}

/// Intrinsics returning `T`.
pub open spec fn same_type_methods() -> Seq<Seq<char>> {
    seq![
        "wrapping_add"@,
        "wrapping_sub"@,
        "wrapping_mul"@,
        "saturating_add"@,
        "saturating_sub"@,
        "saturating_mul"@,
        "bshl_masked"@,
        "bshr_masked"@,
        "masked_bshl"@,
        "masked_bshr"@,
        "masked_bushr"@,
    ]
}

/// The intrinsics of integer type `i`: `type.method` with its signature, checked ones
/// first.
pub open spec fn type_intrinsics(i: int) -> Seq<(Seq<char>, TypeModel)> {
    let t = integer_type_models()[i];
    let n = integer_type_names()[i];
    Seq::new(3, |j: int| (n + "."@ + checked_methods()[j], fn_model(seq![t], seq![nominal_model("Option"@, seq![t])], seq![])))
        + Seq::new(11, |j: int| (n + "."@ + same_type_methods()[j], fn_model(seq![t], seq![t], seq![])))
}

/// The intrinsics of the first `k` integer types.
pub open spec fn intrinsics_upto(k: int) -> Seq<(Seq<char>, TypeModel)>
    decreases k,
{
    if k <= 0 {
        Seq::empty()
    } else {
        intrinsics_upto(k - 1) + type_intrinsics(k - 1)
    }
}

/// The built-in functions with their signatures, in registration order: `print`,
/// `take_input`, `string_to_int32`, `random_int32`, then the arithmetic intrinsics of
/// each integer type.
pub open spec fn standard_builtins() -> Seq<(Seq<char>, TypeModel)> {
    seq![
        ("print"@, fn_model(seq![TypeModel::Variable { id: 0, name: "T"@ }], seq![TypeModel::Unit], seq![])),
        ("take_input"@, fn_model(seq![], seq![TypeModel::String], seq![])),
        ("string_to_int32"@, fn_model(seq![TypeModel::String], seq![TypeModel::Int32], seq![nominal_model("ParseError"@, seq![])])),
        ("random_int32"@, fn_model(seq![TypeModel::Int32, TypeModel::Int32], seq![TypeModel::Int32], seq![])),
    ] + intrinsics_upto(8)
}

/// Symbols viewed by their models.
pub open spec fn symbol_models(m: Map<Seq<char>, SymbolInfo>) -> Map<Seq<char>, SymbolModel> {
    m.map_values(|s: SymbolInfo| symbol_model(s))
}

/// `m` with each entry of `es` registered as a built-in symbol, in order.
pub open spec fn with_builtins(m: Map<Seq<char>, SymbolModel>, es: Seq<(Seq<char>, TypeModel)>) -> Map<Seq<char>, SymbolModel>
    decreases es.len(),
{
    if es.len() == 0 {
        m
    } else {
        with_builtins(m, es.drop_last()).insert(es.last().0, builtin_symbol(es.last().0, es.last().1))
    }
}

/// Register one built-in function symbol.
fn register_builtin_symbol(symbols: &mut NameMap<SymbolInfo>, name: String, signature: CoreType)
    requires
        old(symbols).wf(),
    ensures
        final(symbols).wf(),
        symbol_models(final(symbols)@) == symbol_models(old(symbols)@).insert(name@, builtin_symbol(name@, model_of(signature))),
{
    let ghost k = name@;
    let ghost sig = model_of(signature);
    let info = SymbolInfo {
        name: name.clone(),
        symbol_type: SymbolType::Function,
        core_type: signature,
        visibility: Visibility::Public,
        source_location: Span::single(Position::start()),
        is_let_binding: false,
        is_mutable: false,
        read_count: 0,
        is_pure: false,
    };
    let ghost before = symbols@;
    symbols.insert(name, info);
    proof {
        assert(symbol_models(symbols@) =~= symbol_models(before).insert(k, builtin_symbol(k, sig)));
    }
}

/// Name of integer type `i`.
fn integer_type_name(i: usize) -> (r: &'static str)
    requires
        i < 8,
    ensures
        r@ == integer_type_names()[i as int],
{
    match i {
        0 => "int8",
        1 => "int16",
        2 => "int32",
        3 => "int64",
        4 => "uint8",
        5 => "uint16",
        6 => "uint32",
        _ => "uint64",
    }
}

/// Integer type `i`.
fn integer_type(i: usize) -> (r: CoreType)
    requires
        i < 8,
    ensures
        model_of(r) == integer_type_models()[i as int],
{
    match i {
        0 => CoreType::Int8,
        1 => CoreType::Int16,
        2 => CoreType::Int32,
        3 => CoreType::Int64,
        4 => CoreType::UInt8,
        5 => CoreType::UInt16,
        6 => CoreType::UInt32,
        _ => CoreType::UInt64,
    }
}

/// Checked intrinsic `j`.
fn checked_method(j: usize) -> (r: &'static str)
    requires
        j < 3,
    ensures
        r@ == checked_methods()[j as int],
{
    match j {
        0 => "checked_add",
        1 => "checked_sub",
        _ => "checked_mul",
    }
}

/// Same-type intrinsic `j`.
fn same_type_method(j: usize) -> (r: &'static str)
    requires
        j < 11,
    ensures
        r@ == same_type_methods()[j as int],
{
    match j {
        0 => "wrapping_add",
        1 => "wrapping_sub",
        2 => "wrapping_mul",
        3 => "saturating_add",
        4 => "saturating_sub",
        5 => "saturating_mul",
        6 => "bshl_masked",
        7 => "bshr_masked",
        8 => "masked_bshl",
        9 => "masked_bshr",
        _ => "masked_bushr",
    }
}

/// The function type `fn(parameters) -> return_types errors error_types`.
fn function_type(parameters: Vec<CoreType>, return_types: Vec<CoreType>, error_types: Vec<CoreType>) -> (r: CoreType)
    ensures
        model_of(r) == fn_model(
            crate::types::models_of(parameters@),
            crate::types::models_of(return_types@),
            crate::types::models_of(error_types@),
        ),
{
    let r = CoreType::Function { generic_params: Vec::new(), parameters, return_types, error_types };
    proof {
        assert(crate::types::params_model(Seq::<crate::types::GenericTypeParameter>::empty()) =~= Seq::empty());
    }
    r
}

/// A list of no types.
fn no_types() -> (r: Vec<CoreType>)
    ensures
        crate::types::models_of(r@) == Seq::<TypeModel>::empty(),
{
    Vec::new()
}

/// A list of one type.
fn one_type(t: CoreType) -> (r: Vec<CoreType>)
    ensures
        crate::types::models_of(r@) == seq![model_of(t)],
{
    let ghost m = model_of(t);
    let mut v: Vec<CoreType> = Vec::new();
    v.push(t);
    proof {
        crate::types::lemma_models_of(v@);
        assert(crate::types::models_of(v@) =~= seq![m]);
    }
    v
}

/// A list of two types.
fn two_types(a: CoreType, b: CoreType) -> (r: Vec<CoreType>)
    ensures
        crate::types::models_of(r@) == seq![model_of(a), model_of(b)],
{
    let ghost (ma, mb) = (model_of(a), model_of(b));
    let mut v: Vec<CoreType> = Vec::new();
    v.push(a);
    v.push(b);
    proof {
        crate::types::lemma_models_of(v@);
        assert(crate::types::models_of(v@) =~= seq![ma, mb]);
    }
    v
}

/// Registering one more entry.
proof fn lemma_with_builtins_push(m: Map<Seq<char>, SymbolModel>, es: Seq<(Seq<char>, TypeModel)>, e: (Seq<char>, TypeModel))
    ensures
        with_builtins(m, es.push(e)) == with_builtins(m, es).insert(e.0, builtin_symbol(e.0, e.1)),
{
    assert(es.push(e).drop_last() =~= es);
}

/// The four named built-in functions.
pub open spec fn named_builtins() -> Seq<(Seq<char>, TypeModel)> {
    standard_builtins().take(4)
}

/// Register the standard built-in functions as public function symbols, and the
/// nominal `Option` type in the environment.
pub fn register_standard_builtins(environment: &mut TypeEnvironment, symbols: &mut NameMap<SymbolInfo>)
    requires
        old(environment).wf(),
        old(symbols).wf(),
    ensures
        final(environment).wf(),
        final(environment).types() == old(environment).types().insert("Option"@, nominal_model("Option"@, seq![])),
        final(symbols).wf(),
        symbol_models(final(symbols)@) == with_builtins(symbol_models(old(symbols)@), standard_builtins()),
{
    let ghost m0 = symbol_models(symbols@);
    let ghost s = standard_builtins();
    proof {
        assert(s.take(0) =~= Seq::<(Seq<char>, TypeModel)>::empty());
    }
    let t = CoreType::Variable(TypeVar::new(0, owned("T")));
    let sig = function_type(one_type(t), one_type(CoreType::Unit), no_types());
    register_builtin_symbol(symbols, owned("print"), sig);
    proof {
        assert(s.take(1) =~= s.take(0).push(s[0]));
        lemma_with_builtins_push(m0, s.take(0), s[0]);
    }
    let sig = function_type(no_types(), one_type(CoreType::String), no_types());
    register_builtin_symbol(symbols, owned("take_input"), sig);
    proof {
        assert(s.take(2) =~= s.take(1).push(s[1]));
        lemma_with_builtins_push(m0, s.take(1), s[1]);
    }
    let parse_error = CoreType::Generic { name: owned("ParseError"), type_args: no_types() };
    let sig = function_type(one_type(CoreType::String), one_type(CoreType::Int32), one_type(parse_error));
    register_builtin_symbol(symbols, owned("string_to_int32"), sig);
    proof {
        assert(s.take(3) =~= s.take(2).push(s[2]));
        lemma_with_builtins_push(m0, s.take(2), s[2]);
    }
    environment.register_type(owned("Option"), CoreType::Generic { name: owned("Option"), type_args: no_types() });
    let sig = function_type(two_types(CoreType::Int32, CoreType::Int32), one_type(CoreType::Int32), no_types());
    register_builtin_symbol(symbols, owned("random_int32"), sig);
    proof {
        assert(s.take(4) =~= s.take(3).push(s[3]));
        lemma_with_builtins_push(m0, s.take(3), s[3]);
        assert(named_builtins() + intrinsics_upto(0) =~= s.take(4));
    }
    let mut i: usize = 0;
    while i < 8
        invariant
            i <= 8,
            symbols.wf(),
            symbol_models(symbols@) == with_builtins(m0, named_builtins() + intrinsics_upto(i as int)),
        decreases 8 - i,
    {
        let ghost done = named_builtins() + intrinsics_upto(i as int);
        let ghost ti = type_intrinsics(i as int);
        let label = integer_type_name(i);
        let mut j: usize = 0;
        proof {
            assert(done + ti.take(0) =~= done);
        }
        while j < 3
            invariant
                i < 8,
                j <= 3,
                symbols.wf(),
                label@ == integer_type_names()[i as int],
                ti == type_intrinsics(i as int),
                symbol_models(symbols@) == with_builtins(m0, done + ti.take(j as int)),
            decreases 3 - j,
        {
            let name = join3(label, ".", checked_method(j));
            let option = CoreType::Generic { name: owned("Option"), type_args: one_type(integer_type(i)) };
            let sig = function_type(one_type(integer_type(i)), one_type(option), no_types());
            register_builtin_symbol(symbols, name, sig);
            proof {
                assert(done + ti.take(j + 1) =~= (done + ti.take(j as int)).push(ti[j as int]));
                lemma_with_builtins_push(m0, done + ti.take(j as int), ti[j as int]);
            }
            j = j + 1;
        }
        let mut k: usize = 0;
        while k < 11
            invariant
                i < 8,
                k <= 11,
                symbols.wf(),
                label@ == integer_type_names()[i as int],
                ti == type_intrinsics(i as int),
                ti.len() == 14,
                symbol_models(symbols@) == with_builtins(m0, done + ti.take(3 + k)),
            decreases 11 - k,
        {
            let name = join3(label, ".", same_type_method(k));
            let sig = function_type(one_type(integer_type(i)), one_type(integer_type(i)), no_types());
            register_builtin_symbol(symbols, name, sig);
            proof {
                assert(done + ti.take(3 + k + 1) =~= (done + ti.take(3 + k)).push(ti[3 + k]));
                lemma_with_builtins_push(m0, done + ti.take(3 + k), ti[3 + k]);
            }
            k = k + 1;
        }
        proof {
            assert(ti.take(14) =~= ti);
            assert(named_builtins() + intrinsics_upto(i + 1) =~= done + ti);
        }
        i = i + 1;
    }
    proof {
        assert(named_builtins() + intrinsics_upto(8) =~= s);
    }
}

} // verus!
