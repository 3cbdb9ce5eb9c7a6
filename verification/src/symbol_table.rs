//! Symbol records shared by module interfaces.

use vstd::prelude::*;
use crate::token::Span;
use crate::types::{model_of, CoreType, TypeModel};

verus! {

/// Kind of a named symbol.
#[derive(Debug, Clone, Copy, PartialEq, Eq, Structural)]
pub enum SymbolType {
    Variable,
    Constant,
    Function,
    Type,
}

/// Visibility of a symbol to importers.
#[derive(Debug, Clone, Copy, PartialEq, Eq, Structural)]
pub enum Visibility {
    Public,
    Private,
    Entry,
}

/// One named symbol.
#[derive(Debug)]
pub struct SymbolInfo {
    /// Symbol name.
    pub name: String,
    /// Symbol kind.
    pub symbol_type: SymbolType,
    /// Resolved type of the symbol.
    pub core_type: CoreType,
    /// Visibility to importers.
    pub visibility: Visibility,
    /// Declaration site.
    pub source_location: Span,
    /// Whether the symbol was introduced by `let`.
    pub is_let_binding: bool,
    /// Whether the binding is mutable.
    pub is_mutable: bool,
    /// Number of reads observed.
    pub read_count: usize,
    /// Whether the function is pure.
    pub is_pure: bool,
}

/// Mathematical model of a symbol.
pub ghost struct SymbolModel {
    pub name: Seq<char>,
    pub symbol_type: SymbolType,
    pub core_type: TypeModel,
    pub visibility: Visibility,
    pub source_location: Span,
    pub is_let_binding: bool,
    pub is_mutable: bool,
    pub read_count: usize,
    pub is_pure: bool,
}

/// Model of a symbol.
pub open spec fn symbol_model(s: SymbolInfo) -> SymbolModel {
    SymbolModel {
        name: s.name@,
        symbol_type: s.symbol_type,
        core_type: model_of(s.core_type),
        visibility: s.visibility,
        source_location: s.source_location,
        is_let_binding: s.is_let_binding,
        is_mutable: s.is_mutable,
        read_count: s.read_count,
        is_pure: s.is_pure,
    }
}

impl SymbolInfo {
    /// Deep copy preserving the model.
    pub fn duplicate(&self) -> (r: SymbolInfo)
        ensures
            symbol_model(r) == symbol_model(*self),
    {
        SymbolInfo {
            name: self.name.clone(),
            symbol_type: self.symbol_type,
            core_type: self.core_type.duplicate(),
            visibility: self.visibility,
            source_location: self.source_location,
            is_let_binding: self.is_let_binding,
            is_mutable: self.is_mutable,
            read_count: self.read_count,
            is_pure: self.is_pure,
        }
    }
}

} // verus!
