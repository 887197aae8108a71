//! Data model for the parsed shader intermediate representation.
//!
//! The front-end that parses shader source is an external collaborator;
//! it hands the compiler a [`Module`]: a type arena, the global resource
//! variables, and the entry points with their stage tags and
//! reachable-variable sets. Types reference each other by index into the
//! arena, and a well-formed arena is topologically ordered: a composite
//! type only refers to types with a strictly smaller index.

use vstd::prelude::*;

verus! {

use vstd::utf8::is_ascii_chars;

/// The kind of a scalar shader type.
#[derive(Debug, Clone, Copy, PartialEq, Eq, Structural)]
pub enum ScalarKind {
    Sint,
    Uint,
    Float,
    Bool,
}

/// A scalar shader type: its kind and its width in bytes (4 or 8).
#[derive(Debug, Clone, Copy, PartialEq, Eq, Structural)]
pub struct Scalar {
    pub kind: ScalarKind,
    pub width: u32,
}

/// One member of a struct shader type. `ty` indexes the module's type
/// arena; `location` is the member's vertex input location attribute,
/// when it has one.
#[derive(Debug, Clone)]
pub struct StructMember {
    pub name: String,
    pub ty: u32,
    pub location: Option<u32>,
}

/// The shape of one shader type. Composite types refer to other types
/// by their index in the module's type arena.
#[derive(Debug, Clone)]
pub enum TypeInner {
    Scalar(Scalar),
    Vector { size: u32, scalar: Scalar },
    Matrix { columns: u32, rows: u32, scalar: Scalar },
    Array { element: u32, count: Option<u32> },
    Struct { members: Vec<StructMember> },
    Texture,
    Sampler,
}

/// One entry of the module's type arena: an optional name (struct types
/// carry the name the composition system gave them, possibly mangled)
/// and the type's shape.
#[derive(Debug, Clone)]
pub struct TypeDef {
    pub name: Option<String>,
    pub inner: TypeInner,
}

/// The address space a global variable lives in.
#[derive(Debug, Clone, Copy, PartialEq, Eq, Structural)]
pub enum AddressSpace {
    Uniform,
    Storage { read_only: bool },
    Handle,
    Other,
}

/// A (group, binding) slot attached to a global resource variable.
#[derive(Debug, Clone, Copy, PartialEq, Eq, Structural)]
pub struct ResourceId {
    pub group: u32,
    pub binding: u32,
}

/// A global variable of the shader module. Only variables with a
/// `binding` participate in bind group analysis.
#[derive(Debug, Clone)]
pub struct GlobalVariable {
    pub name: String,
    pub space: AddressSpace,
    pub binding: Option<ResourceId>,
    pub ty: u32,
}

/// The pipeline stage an entry point belongs to.
#[derive(Debug, Clone, Copy, PartialEq, Eq, Structural)]
pub enum ShaderStage {
    Vertex,
    Fragment,
    Compute,
}

/// One shader entry point. `inputs` lists the type indices of its
/// struct-typed input parameters in declaration order; `used_globals`
/// is the set of global-variable indices reachable from the entry
/// point's expressions, as computed by the front-end.
#[derive(Debug, Clone)]
pub struct EntryPoint {
    pub name: String,
    pub stage: ShaderStage,
    pub workgroup_size_x: u32,
    pub workgroup_size_y: u32,
    pub workgroup_size_z: u32,
    pub inputs: Vec<u32>,
    pub used_globals: Vec<u32>,
}

/// A parsed shader module: the trusted input of the compiler.
#[derive(Debug, Clone)]
pub struct Module {
    pub types: Vec<TypeDef>,
    pub globals: Vec<GlobalVariable>,
    pub entry_points: Vec<EntryPoint>,
}

/// Whether a type shape only refers to strictly earlier arena indices.
pub open spec fn type_refs_below(inner: TypeInner, i: int) -> bool {
    match inner {
        TypeInner::Array { element, count } => element < i,
        TypeInner::Struct { members } => forall|k: int|
            0 <= k < members@.len() ==> (#[trigger] members@[k]).ty < i,
        _ => true,
    }
}

/// Whether a global variable with a binding can be classified as a
/// uniform buffer, storage buffer, texture, or sampler.
pub open spec fn classifiable(types: Seq<TypeDef>, g: GlobalVariable) -> bool {
    match g.space {
        AddressSpace::Uniform => true,
        AddressSpace::Storage { read_only } => true,
        AddressSpace::Handle => g.ty < types.len() && (types[g.ty as int].inner is Texture
            || types[g.ty as int].inner is Sampler),
        AddressSpace::Other => false,
    }
}

/// Structural constraints on one type shape: scalar widths are 4 or 8
/// bytes, vectors have 2 to 4 components, matrices 2 to 4 columns and
/// rows, fixed-size arrays at least one element, and member names are
/// ASCII.
pub open spec fn type_shape_wf(inner: TypeInner) -> bool {
    match inner {
        TypeInner::Scalar(s) => s.width == 4 || s.width == 8,
        TypeInner::Vector { size, scalar } => (2 <= size <= 4) && (scalar.width == 4
            || scalar.width == 8),
        TypeInner::Matrix { columns, rows, scalar } => (2 <= columns <= 4) && (2 <= rows <= 4)
            && (scalar.width == 4 || scalar.width == 8),
        TypeInner::Array { element, count } => count is Some ==> count->0 >= 1,
        TypeInner::Struct { members } => forall|k: int|
            0 <= k < members@.len() ==> (#[trigger] members@[k]).name@.len() > 0
                && is_ascii_chars(members@[k].name@),
        _ => true,
    }
}

/// Well-formedness of a type arena: every type reference stays inside
/// the arena and respects its topological order, every shape meets its
/// structural constraints, and every type name is ASCII.
pub open spec fn types_wf(types: Seq<TypeDef>) -> bool {
    &&& forall|i: int| 0 <= i < types.len() ==> type_refs_below((#[trigger] types[i]).inner, i)
    &&& forall|i: int| 0 <= i < types.len() ==> type_shape_wf((#[trigger] types[i]).inner)
    &&& forall|i: int|
        0 <= i < types.len() ==> ((#[trigger] types[i]).name is Some ==> types[i].name->0@.len()
            > 0 && is_ascii_chars(types[i].name->0@))
}

/// Well-formedness of a module, established by the front-end:
/// a well-formed type arena, every bound global classifiable,
/// entry-point input and reachable-variable indices in range, and every
/// identifier ASCII.
///
/// The ASCII clause is part of the front-end boundary contract, not a
/// property of shader source: the converter that produces this
/// representation must reject or transliterate identifiers outside
/// ASCII, because every generated name (constants, accessors, host
/// records) must be an identifier of the ASCII-based host language.
pub open spec fn module_wf(m: Module) -> bool {
    &&& types_wf(m.types@)
    &&& forall|i: int| 0 <= i < m.globals@.len() ==> (#[trigger] m.globals@[i]).ty
        < m.types@.len()
    &&& forall|i: int|
        0 <= i < m.globals@.len() ==> ((#[trigger] m.globals@[i]).binding is Some
            ==> classifiable(m.types@, m.globals@[i]))
    &&& forall|i: int|
        0 <= i < m.globals@.len() ==> is_ascii_chars((#[trigger] m.globals@[i]).name@)
    &&& forall|i: int, k: int|
        0 <= i < m.entry_points@.len() && 0 <= k < m.entry_points@[i].inputs@.len()
            ==> #[trigger] m.entry_points@[i].inputs@[k] < m.types@.len()
    &&& forall|i: int, k: int|
        0 <= i < m.entry_points@.len() && 0 <= k < m.entry_points@[i].used_globals@.len()
            ==> #[trigger] m.entry_points@[i].used_globals@[k] < m.globals@.len()
    &&& forall|i: int|
        0 <= i < m.entry_points@.len() ==> (#[trigger] m.entry_points@[i]).name@.len() > 0
            && is_ascii_chars(m.entry_points@[i].name@)
}

} // verus!
