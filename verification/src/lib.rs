//! Reflection-to-binding compiler for WGSL shader modules.
//!
//! Given the parsed intermediate representation of one or more shader
//! entry points, this library extracts and validates resource bindings,
//! maps shader-side types to host-side type descriptors with
//! GPU-conformant memory layout, derives vertex buffer layouts, and
//! merges the declarations produced for every entry point into a single
//! deduplicated, dependency-ordered namespace tree that a code emitter
//! can turn into source text.
//!
//! The parsed representation is a trusted input: the front-end that
//! produces it guarantees the well-formedness stated in [`ir::module_wf`],
//! including that identifiers are ASCII (generated names must be valid
//! identifiers of the ASCII-based host language).

pub mod base32;
pub mod bindgroup;
pub mod decl;
pub mod emit;
pub mod generate;
pub mod ir;
pub mod layout;
pub mod mangle;
pub mod namespace;
pub mod text;
pub mod vertex;

use vstd::prelude::*;

verus! {

/// How host records for shader structs are serialized into GPU buffers.
///
/// `RuntimeEncoded` emits an encode routine that writes each field at its
/// GPU-mandated offset into a byte buffer; the host record's own layout is
/// irrelevant. `DirectReinterpret` engineers the host record's layout to be
/// bit-identical to the GPU layout so the record can be copied as raw bytes.
#[derive(Debug, Clone, Copy, PartialEq, Eq, Structural)]
pub enum WgslTypeSerializeStrategy {
    RuntimeEncoded,
    DirectReinterpret,
}

impl Default for WgslTypeSerializeStrategy {
    fn default() -> (r: Self)
        ensures
            r == WgslTypeSerializeStrategy::RuntimeEncoded,
    {
        WgslTypeSerializeStrategy::RuntimeEncoded
    }
}

/// Errors while generating host bindings for a shader module.
///
/// Every error is fatal to the run that raised it: generation never
/// produces partial output.
#[derive(Debug, Clone, Copy, PartialEq, Eq, Structural)]
pub enum CreateModuleError {
    /// The set of bind group indices in use is not exactly `0..n`.
    NonConsecutiveBindGroups,
    /// Two resource variables share one (group, binding) slot; `binding`
    /// is the colliding binding index.
    DuplicateBinding { binding: u32 },
    /// A shader type (given by its index in the module's type list) has
    /// neither a built-in nor a custom host mapping, or its size cannot
    /// be represented.
    UnsupportedType { ty: u32 },
    /// A struct's GPU-mandated layout cannot be satisfied by the chosen
    /// serialization strategy; `ty` is the struct's type index.
    LayoutConflict { ty: u32 },
    /// Two declarations with the same module path and name carry
    /// different bodies.
    InconsistentDeclaration,
}

} // verus!
