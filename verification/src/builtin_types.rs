//! Nominal types of the opaque built-in handles and payload-free built-in errors.

use vstd::prelude::*;
use crate::affine_aggregates::nominal_type;
use crate::types::{model_of, TypeModel};

verus! {

/// Name of the opaque byte-buffer type.
pub const BYTES_TYPE_NAME: &'static str = "Bytes";

/// Name of the opaque stdout writer handle.
pub const STDOUT_WRITER_TYPE_NAME: &'static str = "StdoutWriter";

/// Name of the opaque stdout terminal handle.
pub const STDOUT_TERMINAL_TYPE_NAME: &'static str = "StdoutTerminal";

/// Name of the opaque string builder handle.
pub const STRING_BUILDER_TYPE_NAME: &'static str = "StringBuilder";

/// Name of the opaque frame clock handle.
pub const FRAME_CLOCK_TYPE_NAME: &'static str = "FrameClock";

/// The nominal type model with this name and no type arguments.
pub open spec fn nominal_model(name: Seq<char>) -> TypeModel {
    TypeModel::Generic { name, type_args: Seq::empty() }
}

/// Construct the opaque nominal type representing `Bytes` values.
pub fn bytes_core_type() -> (r: crate::types::CoreType)
    ensures
        model_of(r) == nominal_model("Bytes"@),
{
    nominal_type(BYTES_TYPE_NAME)
}

/// Build the nominal type of the opaque `StdoutWriter` handle.
pub fn stdout_writer_core_type() -> (r: crate::types::CoreType)
    ensures
        model_of(r) == nominal_model("StdoutWriter"@),
{
    nominal_type(STDOUT_WRITER_TYPE_NAME)
}

/// Build the nominal type of the opaque `StdoutTerminal` handle.
pub fn stdout_terminal_core_type() -> (r: crate::types::CoreType)
    ensures
        model_of(r) == nominal_model("StdoutTerminal"@),
{
    nominal_type(STDOUT_TERMINAL_TYPE_NAME)
}

/// Build the nominal type of the opaque `StringBuilder` handle.
pub fn string_builder_core_type() -> (r: crate::types::CoreType)
    ensures
        model_of(r) == nominal_model("StringBuilder"@),
{
    nominal_type(STRING_BUILDER_TYPE_NAME)
}

/// Build the nominal type of the opaque `FrameClock` handle.
pub fn frame_clock_core_type() -> (r: crate::types::CoreType)
    ensures
        model_of(r) == nominal_model("FrameClock"@),
{
    nominal_type(FRAME_CLOCK_TYPE_NAME)
}

/// Build the nominal type of a payload-free built-in error.
pub fn error_core_type(name: &str) -> (r: crate::types::CoreType)
    ensures
        model_of(r) == nominal_model(name@),
{
    nominal_type(name)
}

} // verus!
