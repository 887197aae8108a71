//! Per-entry declaration emission.
//!
//! Assembles the declaration list of one shader entry: its host
//! records, bind group table, vertex attribute implementations, compute
//! items, entry point constants, vertex state accessors, pipeline
//! layout, and shader module loader, each paired with the module path
//! it belongs under (the entry's own module, or a shared-root path
//! recovered by demangling). Both the emitted list and the verdict are
//! functions of the entry and the options: [`spec_entry_pairs`] pins
//! every declaration's view, [`spec_entry_err`] the first error.

use vstd::prelude::*;

verus! {

use vstd::utf8::is_ascii_chars;
use crate::CreateModuleError;
use crate::WgslTypeSerializeStrategy;
use crate::bindgroup::{first_dup, get_bind_group_data, group_list, groups_contiguous, num_groups};
use crate::decl::{DeclBody, DeclBodyV, Declaration, DeclarationV, Dependency, ResourceBindingV};
use crate::generate::{ShaderEntry, WgslBindgenOption, WgslShaderSourceOutputType, compute_module,
    entry_const_bytes, entry_const_name, entry_point_constants, spec_compute_entries,
    spec_entry_consts};
use crate::ir::{AddressSpace, EntryPoint, Module, ShaderStage, StructMember, TypeDef, TypeInner,
    module_wf};
use crate::layout::{MatrixMapEntry, VectorMapEntry, build_struct, fields_match,
    spec_build_err, spec_gpu_align, spec_gpu_size, spec_map_type, spec_member_offset,
    type_map_ok};
use crate::mangle::{demangle_splitting_mod_path_and_item, spec_demangle, spec_demangle_qualified};
use crate::text::{ascii_to_string, bytes_ascii, bytes_to_chars, chars_to_bytes,
    lemma_ascii_chars_bytes_roundtrip, lemma_bytes_to_chars_ascii, push_snake, push_str_bytes,
    snake_bytes, str_bytes};
use crate::vertex::{VertexAttribute, attr_end, attr_max_align, attr_off, get_vertex_input_structs,
    input_located_sorted, spec_attr_verdict, spec_vertex_format, spec_vertex_inputs,
    vertex_attributes};

/// The views of a path/declaration pair list.
pub open spec fn pair_views(s: Seq<(String, Declaration)>) -> Seq<(Seq<char>, DeclarationV)> {
    Seq::new(s.len(), |k: int| (s[k].0@, s[k].1@))
}

/// Whether any bound global of the given address-space class refers to
/// type `i` directly.
pub open spec fn used_as(m: Module, i: int, uniform: bool) -> bool {
    exists|g: int|
        0 <= g < m.globals@.len() && (#[trigger] m.globals@[g]).binding is Some
            && m.globals@[g].ty == i && (if uniform {
            m.globals@[g].space is Uniform
        } else {
            m.globals@[g].space is Storage
        })
}

/// Whether type `i` is a struct with a name of its own.
pub open spec fn is_named_struct(m: Module, i: int) -> bool {
    &&& 0 <= i < m.types@.len()
    &&& m.types@[i].inner is Struct
    &&& m.types@[i].name is Some
}

/// The demangled (origin path, base name) of the name of type `i`.
pub open spec fn demangled_parts(m: Module, i: int) -> (Option<Seq<u8>>, Seq<u8>) {
    spec_demangle(chars_to_bytes(m.types@[i].name->0@))
}

/// The declaration name of type `i`: its demangled base name.
pub open spec fn struct_decl_name(m: Module, i: int) -> Seq<char> {
    bytes_to_chars(demangled_parts(m, i).1)
}

/// The module path the declaration of type `i` belongs under: its
/// demangled origin path, or the entry's own module.
pub open spec fn struct_decl_path(m: Module, i: int, mod_name: Seq<char>) -> Seq<char> {
    match demangled_parts(m, i).0 {
        Some(p) => bytes_to_chars(p),
        None => mod_name,
    }
}

/// The field views of the host record built for struct `i` under the
/// given usage.
pub open spec fn struct_fields_view(
    types: Seq<TypeDef>,
    i: int,
    vecs: Seq<VectorMapEntry>,
    mats: Seq<MatrixMapEntry>,
    uniform: bool,
) -> Seq<crate::decl::FieldLayoutV> {
    let members = types[i].inner->Struct_members@;
    Seq::new(
        members.len(),
        |k: int|
            crate::decl::FieldLayoutV {
                name: members[k].name@,
                ty: members[k].ty,
                offset: spec_member_offset(types, i, members, uniform, k) as u32,
                size: spec_gpu_size(types, members[k].ty as int, uniform) as u32,
                host_name: bytes_to_chars(
                    (spec_map_type(types, members[k].ty as int, vecs, mats, uniform)->0).0,
                ),
                host_size: (spec_map_type(types, members[k].ty as int, vecs, mats, uniform)->0).1
                    as u32,
                host_align: (spec_map_type(types, members[k].ty as int, vecs, mats, uniform)->0).2
                    as u32,
            },
    )
}

/// The host-struct declaration body of struct `i` under the given
/// usage and strategy.
pub open spec fn host_struct_body(
    m: Module,
    i: int,
    vecs: Seq<VectorMapEntry>,
    mats: Seq<MatrixMapEntry>,
    uniform: bool,
    direct: bool,
) -> DeclBodyV {
    DeclBodyV::HostStruct {
        host_name: bytes_to_chars(spec_demangle_qualified(chars_to_bytes(m.types@[i].name->0@))),
        fields: struct_fields_view(m.types@, i, vecs, mats, uniform),
        size: spec_gpu_size(m.types@, i, uniform) as u32,
        align: spec_gpu_align(m.types@, i, uniform) as u32,
        encode: !direct,
    }
}

/// The host-struct declarations of the first `n` arena types: one per
/// named struct, built under uniform rules when a uniform binding
/// refers to it, placed by its demangled path.
pub open spec fn struct_pairs_upto(
    m: Module,
    mod_name: Seq<char>,
    vecs: Seq<VectorMapEntry>,
    mats: Seq<MatrixMapEntry>,
    direct: bool,
    n: int,
) -> Seq<(Seq<char>, DeclarationV)>
    decreases n,
{
    if n <= 0 {
        Seq::empty()
    } else {
        let rest = struct_pairs_upto(m, mod_name, vecs, mats, direct, n - 1);
        if is_named_struct(m, n - 1) {
            rest + seq![
                (
                    struct_decl_path(m, n - 1, mod_name),
                    DeclarationV {
                        name: struct_decl_name(m, n - 1),
                        body: host_struct_body(
                            m,
                            n - 1,
                            vecs,
                            mats,
                            used_as(m, n - 1, true),
                            direct,
                        ),
                    },
                ),
            ]
        } else {
            rest
        }
    }
}

/// Whether the uniform-rule and storage-rule layouts of struct `i`
/// agree: same size, same alignment, same fields.
pub open spec fn layouts_same(
    types: Seq<TypeDef>,
    i: int,
    vecs: Seq<VectorMapEntry>,
    mats: Seq<MatrixMapEntry>,
) -> bool {
    &&& spec_gpu_size(types, i, true) == spec_gpu_size(types, i, false)
    &&& spec_gpu_align(types, i, true) == spec_gpu_align(types, i, false)
    &&& struct_fields_view(types, i, vecs, mats, true) == struct_fields_view(
        types,
        i,
        vecs,
        mats,
        false,
    )
}

/// The first problem of the named-struct scan over the first `n` arena
/// types: a build error under the struct's usage, and, for a
/// direct-reinterpret struct bound as both uniform and storage, a
/// build error under storage rules or diverging layouts.
pub open spec fn struct_scan_err(
    m: Module,
    vecs: Seq<VectorMapEntry>,
    mats: Seq<MatrixMapEntry>,
    strategy: WgslTypeSerializeStrategy,
    n: int,
) -> Option<CreateModuleError>
    decreases n,
{
    if n <= 0 {
        None
    } else if struct_scan_err(m, vecs, mats, strategy, n - 1) is Some {
        struct_scan_err(m, vecs, mats, strategy, n - 1)
    } else if is_named_struct(m, n - 1) {
        let i = n - 1;
        let members = m.types@[i].inner->Struct_members@;
        let uu = used_as(m, i, true);
        let su = used_as(m, i, false);
        match spec_build_err(m.types@, i, members, vecs, mats, strategy, uu) {
            Some(e) => Some(e),
            None => if strategy is DirectReinterpret && uu && su {
                match spec_build_err(m.types@, i, members, vecs, mats, strategy, false) {
                    Some(e) => Some(e),
                    None => if !layouts_same(m.types@, i, vecs, mats) {
                        Some(CreateModuleError::LayoutConflict { ty: i as u32 })
                    } else {
                        None
                    },
                }
            } else {
                None
            },
        }
    } else {
        None
    }
}

/// The bind group table as declaration content: for each group
/// `0..num_groups`, its ordered resource list.
pub open spec fn bind_groups_view(m: Module) -> Seq<Seq<ResourceBindingV>> {
    Seq::new(
        num_groups(m) as nat,
        |g: int| Seq::new(group_list(m, g).len(), |j: int| group_list(m, g)[j]@),
    )
}

/// The sorted located members of vertex input struct `si`.
pub open spec fn input_sorted(m: Module, si: int) -> Seq<StructMember> {
    input_located_sorted(m.types@, si)
}

/// The derived attributes of vertex input struct `si`.
pub open spec fn input_attrs_view(
    m: Module,
    si: int,
    vecs: Seq<VectorMapEntry>,
    mats: Seq<MatrixMapEntry>,
) -> Seq<VertexAttribute> {
    let ss = input_sorted(m, si);
    Seq::new(
        ss.len(),
        |k: int|
            VertexAttribute {
                location: ss[k].location->0,
                format: spec_vertex_format(m.types@, ss[k].ty as int)->0,
                offset: attr_off(m.types@, ss, vecs, mats, k) as u32,
            },
    )
}

/// The element stride of vertex input struct `si`.
pub open spec fn input_stride(
    m: Module,
    si: int,
    vecs: Seq<VectorMapEntry>,
    mats: Seq<MatrixMapEntry>,
) -> int {
    let ss = input_sorted(m, si);
    crate::layout::spec_align_up(
        attr_end(m.types@, ss, vecs, mats, ss.len() as int),
        attr_max_align(m.types@, ss, vecs, mats, ss.len() as int),
    )
}

/// The declaration name of the vertex-attribute impl of input `si`:
/// the demangled base name with an `_attributes` tag.
pub open spec fn impl_name_chars(m: Module, si: int) -> Seq<char> {
    bytes_to_chars(
        demangled_parts(m, si).1 + seq![95u8, 97u8, 116u8, 116u8, 114u8, 105u8, 98u8, 117u8,
            116u8, 101u8, 115u8],
    )
}

/// The vertex-attribute impl declarations of the first `n` vertex
/// input structs.
pub open spec fn vertex_impl_pairs_upto(
    m: Module,
    mod_name: Seq<char>,
    vecs: Seq<VectorMapEntry>,
    mats: Seq<MatrixMapEntry>,
    n: int,
) -> Seq<(Seq<char>, DeclarationV)>
    decreases n,
{
    if n <= 0 {
        Seq::empty()
    } else {
        let si = spec_vertex_inputs(m)[n - 1] as int;
        vertex_impl_pairs_upto(m, mod_name, vecs, mats, n - 1) + seq![
            (
                mod_name,
                DeclarationV {
                    name: impl_name_chars(m, si),
                    body: DeclBodyV::VertexAttributesImpl {
                        struct_name: struct_decl_name(m, si),
                        stride: input_stride(m, si, vecs, mats) as u32,
                        attributes: input_attrs_view(m, si, vecs, mats),
                    },
                },
            ),
        ]
    }
}

/// The first problem of the vertex-input scan over the first `n`
/// inputs: the attribute deriver's verdict, then a missing struct
/// name.
pub open spec fn vertex_scan_err(
    m: Module,
    vecs: Seq<VectorMapEntry>,
    mats: Seq<MatrixMapEntry>,
    n: int,
) -> Option<CreateModuleError>
    decreases n,
{
    if n <= 0 {
        None
    } else if vertex_scan_err(m, vecs, mats, n - 1) is Some {
        vertex_scan_err(m, vecs, mats, n - 1)
    } else {
        let si = spec_vertex_inputs(m)[n - 1];
        match spec_attr_verdict(m.types@, input_sorted(m, si as int), vecs, mats, si) {
            Some(e) => Some(e),
            None => if m.types@[si as int].name is None {
                Some(CreateModuleError::UnsupportedType { ty: si })
            } else {
                None
            },
        }
    }
}

/// Whether the module has a vertex entry point.
pub open spec fn has_vertex(eps: Seq<EntryPoint>) -> bool {
    exists|k: int| 0 <= k < eps.len() && (#[trigger] eps[k]).stage is Vertex
}

/// The vertex buffer names: the demangled base names of the vertex
/// input structs, in collection order.
pub open spec fn buffer_name_views(m: Module) -> Seq<Seq<char>> {
    Seq::new(spec_vertex_inputs(m).len(), |k: int| struct_decl_name(m, spec_vertex_inputs(m)[k] as int))
}

/// The step-mode parameter names: the buffer names in snake_case.
pub open spec fn param_name_views(m: Module) -> Seq<Seq<char>> {
    Seq::new(
        spec_vertex_inputs(m).len(),
        |k: int| bytes_to_chars(snake_bytes(chars_to_bytes(buffer_name_views(m)[k]))),
    )
}

/// The `<name>_entry` accessor name of a vertex entry point.
pub open spec fn entry_fn_name_chars(name: Seq<char>) -> Seq<char> {
    bytes_to_chars(chars_to_bytes(name) + seq![95u8, 101u8, 110u8, 116u8, 114u8, 121u8])
}

/// The vertex-state accessor declarations of the first `n` entry
/// points: one per vertex entry, over all vertex input buffers.
pub open spec fn vertex_state_pairs_upto(m: Module, mod_name: Seq<char>, n: int) -> Seq<
    (Seq<char>, DeclarationV),
>
    decreases n,
{
    if n <= 0 {
        Seq::empty()
    } else {
        let rest = vertex_state_pairs_upto(m, mod_name, n - 1);
        let e = m.entry_points@[n - 1];
        if e.stage is Vertex {
            rest + seq![
                (
                    mod_name,
                    DeclarationV {
                        name: entry_fn_name_chars(e.name@),
                        body: DeclBodyV::VertexEntryFn {
                            fn_name: entry_fn_name_chars(e.name@),
                            const_name: bytes_to_chars(entry_const_bytes(e.name@)),
                            params: param_name_views(m),
                            buffers: buffer_name_views(m),
                        },
                    },
                ),
            ]
        } else {
            rest
        }
    }
}

/// The shader-module declaration body of an entry, by output type.
pub open spec fn shader_module_body(entry: ShaderEntry, options: WgslBindgenOption) -> DeclBodyV {
    match options.shader_source_output_type {
        WgslShaderSourceOutputType::FinalShaderString => DeclBodyV::ShaderModuleEmbed {
            source: entry.source@,
        },
        WgslShaderSourceOutputType::Composer => DeclBodyV::ShaderModuleComposer {
            entry_path: entry.entry_path@,
            deps: entry.dependencies.deep_view(),
        },
    }
}

/// The whole declaration list of one entry, in emission order: host
/// structs, the bind group table (when any group exists), one
/// vertex-attribute impl per input struct, the compute module (when
/// any compute entry exists), the entry point constants, the vertex
/// scaffolding and accessors (when any vertex entry exists), the
/// pipeline layout, and the shader module loader.
pub open spec fn spec_entry_pairs(entry: ShaderEntry, options: WgslBindgenOption) -> Seq<
    (Seq<char>, DeclarationV),
> {
    let m = entry.module;
    let mn = entry.mod_name@;
    let vecs = options.type_map.vectors@;
    let mats = options.type_map.matrices@;
    let direct = options.serialization_strategy is DirectReinterpret;
    struct_pairs_upto(m, mn, vecs, mats, direct, m.types@.len() as int) + (if num_groups(m) > 0 {
        seq![
            (
                mn,
                DeclarationV {
                    name: "bind_groups"@,
                    body: DeclBodyV::BindGroups { groups: bind_groups_view(m) },
                },
            ),
        ]
    } else {
        Seq::empty()
    }) + vertex_impl_pairs_upto(m, mn, vecs, mats, spec_vertex_inputs(m).len() as int) + (
    if spec_compute_entries(m.entry_points@).len() > 0 {
        seq![
            (
                mn,
                DeclarationV {
                    name: "compute"@,
                    body: DeclBodyV::ComputeModule {
                        entries: spec_compute_entries(m.entry_points@),
                    },
                },
            ),
        ]
    } else {
        Seq::empty()
    }) + Seq::new(m.entry_points@.len(), |k: int| (mn, spec_entry_consts(m.entry_points@)[k])) + (
    if has_vertex(m.entry_points@) {
        seq![
            (mn, DeclarationV { name: "VertexEntry"@, body: DeclBodyV::VertexStateScaffold }),
        ] + vertex_state_pairs_upto(m, mn, m.entry_points@.len() as int)
    } else {
        Seq::empty()
    }) + seq![
        (
            mn,
            DeclarationV {
                name: "create_pipeline_layout"@,
                body: DeclBodyV::PipelineLayout { group_count: num_groups(m) as u64 },
            },
        ),
        (
            mn,
            DeclarationV { name: "create_shader_module"@, body: shader_module_body(entry, options) },
        ),
    ]
}

/// The first error of one entry's emission, in evaluation order: bind
/// group validation, then the named-struct scan, then the vertex-input
/// scan; every other step always succeeds.
pub open spec fn spec_entry_err(entry: ShaderEntry, options: WgslBindgenOption) -> Option<
    CreateModuleError,
> {
    let m = entry.module;
    let vecs = options.type_map.vectors@;
    let mats = options.type_map.matrices@;
    if first_dup(m) is Some {
        Some(CreateModuleError::DuplicateBinding { binding: first_dup(m)->0 })
    } else if !groups_contiguous(m) {
        Some(CreateModuleError::NonConsecutiveBindGroups)
    } else if struct_scan_err(m, vecs, mats, options.serialization_strategy, m.types@.len() as int)
        is Some {
        struct_scan_err(m, vecs, mats, options.serialization_strategy, m.types@.len() as int)
    } else if vertex_scan_err(m, vecs, mats, spec_vertex_inputs(m).len() as int) is Some {
        vertex_scan_err(m, vecs, mats, spec_vertex_inputs(m).len() as int)
    } else {
        None
    }
}

/// Whether type `i` is referenced by a uniform (or storage) binding.
#[verifier::loop_isolation(false)]
fn type_used_as(m: &Module, i: usize, uniform: bool) -> (r: bool)
    ensures
        r == used_as(*m, i as int, uniform),
{
    let mut g: usize = 0;
    let mut found: bool = false;
    while g < m.globals.len()
        invariant
            g <= m.globals@.len(),
            found == exists|t: int|
                0 <= t < g && (#[trigger] m.globals@[t]).binding is Some && m.globals@[t].ty == i
                    && (if uniform {
                    m.globals@[t].space is Uniform
                } else {
                    m.globals@[t].space is Storage
                }),
        decreases m.globals@.len() - g,
    {
        let gv = &m.globals[g];
        let space_hit = if uniform {
            match gv.space {
                AddressSpace::Uniform => true,
                _ => false,
            }
        } else {
            match gv.space {
                AddressSpace::Storage { read_only } => true,
                _ => false,
            }
        };
        let bound = match &gv.binding {
            Some(b) => true,
            None => false,
        };
        if bound && gv.ty as usize == i && space_hit {
            found = true;
        }
        g = g + 1;
    }
    found
}

/// A built layout's field views equal the spec field views.
proof fn lemma_built_fields_view(
    types: Seq<TypeDef>,
    i: int,
    vecs: Seq<VectorMapEntry>,
    mats: Seq<MatrixMapEntry>,
    uniform: bool,
    fs: Vec<crate::layout::FieldLayout>,
)
    requires
        0 <= i < types.len(),
        types[i].inner is Struct,
        fields_match(types, i, types[i].inner->Struct_members@, vecs, mats, uniform, fs@),
    ensures
        fs.deep_view() =~~= struct_fields_view(types, i, vecs, mats, uniform),
{
    let members = types[i].inner->Struct_members@;
    assert forall|k: int|
        0 <= k < members.len() implies fs.deep_view()[k] =~~= struct_fields_view(
        types,
        i,
        vecs,
        mats,
        uniform,
    )[k] by {
        assert(fs.deep_view()[k] == fs@[k]@);
        assert(members[k].ty as int == members[k].ty as int);
    }
}

proof fn lemma_struct_scan_err_persists(
    m: Module,
    vecs: Seq<VectorMapEntry>,
    mats: Seq<MatrixMapEntry>,
    strategy: WgslTypeSerializeStrategy,
    a: int,
    b: int,
)
    requires
        0 <= a <= b,
        struct_scan_err(m, vecs, mats, strategy, a) is Some,
    ensures
        struct_scan_err(m, vecs, mats, strategy, b) == struct_scan_err(m, vecs, mats, strategy, a),
    decreases b - a,
{
    if a < b {
        lemma_struct_scan_err_persists(m, vecs, mats, strategy, a, b - 1);
    }
}

proof fn lemma_vertex_scan_err_persists(
    m: Module,
    vecs: Seq<VectorMapEntry>,
    mats: Seq<MatrixMapEntry>,
    a: int,
    b: int,
)
    requires
        0 <= a <= b,
        vertex_scan_err(m, vecs, mats, a) is Some,
    ensures
        vertex_scan_err(m, vecs, mats, b) == vertex_scan_err(m, vecs, mats, a),
    decreases b - a,
{
    if a < b {
        lemma_vertex_scan_err_persists(m, vecs, mats, a, b - 1);
    }
}

/// Builds the host-struct declarations of every named struct type, in
/// arena order.
#[verifier::loop_isolation(false)]
#[verifier::rlimit(100)]
#[verifier::spinoff_prover]
fn struct_decl_pairs(
    m: &Module,
    mod_name: &String,
    map: &crate::layout::WgslTypeMap,
    strategy: WgslTypeSerializeStrategy,
) -> (r: Result<Vec<(String, Declaration)>, CreateModuleError>)
    requires
        module_wf(*m),
        is_ascii_chars(mod_name@),
        type_map_ok(map.vectors@, map.matrices@),
    ensures
        match r {
            Ok(v) => struct_scan_err(*m, map.vectors@, map.matrices@, strategy, m.types@.len() as int)
                is None && pair_views(v@) =~~= struct_pairs_upto(
                *m,
                mod_name@,
                map.vectors@,
                map.matrices@,
                strategy is DirectReinterpret,
                m.types@.len() as int,
            ),
            Err(e) => struct_scan_err(
                *m,
                map.vectors@,
                map.matrices@,
                strategy,
                m.types@.len() as int,
            ) == Some(e),
        },
{
    let ghost vecs = map.vectors@;
    let ghost mats = map.matrices@;
    let ghost direct_g = strategy is DirectReinterpret;
    let direct = match strategy {
        WgslTypeSerializeStrategy::DirectReinterpret => true,
        WgslTypeSerializeStrategy::RuntimeEncoded => false,
    };
    let mut out: Vec<(String, Declaration)> = Vec::new();
    let mut ti: usize = 0;
    while ti < m.types.len()
        invariant
            ti <= m.types@.len(),
            struct_scan_err(*m, vecs, mats, strategy, ti as int) is None,
            pair_views(out@) =~~= struct_pairs_upto(*m, mod_name@, vecs, mats, direct_g, ti as int),
        decreases m.types@.len() - ti,
    {
        let named_struct = match &m.types[ti].inner {
            TypeInner::Struct { members } => match &m.types[ti].name {
                Some(nm) => true,
                None => false,
            },
            _ => false,
        };
        proof {
            assert(named_struct == is_named_struct(*m, ti as int));
        }
        if named_struct {
            let uniform_used = type_used_as(m, ti, true);
            let storage_used = type_used_as(m, ti, false);
            let built = match build_struct(&m.types, ti, map, strategy, uniform_used) {
                Ok(sl) => sl,
                Err(e) => {
                    proof {
                        assert(struct_scan_err(*m, vecs, mats, strategy, ti + 1) == Some(e));
                        lemma_struct_scan_err_persists(
                            *m,
                            vecs,
                            mats,
                            strategy,
                            ti + 1,
                            m.types@.len() as int,
                        );
                    }
                    return Err(e);
                },
            };
            if direct && uniform_used && storage_used {
                let storage_built = match build_struct(&m.types, ti, map, strategy, false) {
                    Ok(sl) => sl,
                    Err(e) => {
                        proof {
                            assert(struct_scan_err(*m, vecs, mats, strategy, ti + 1) == Some(e));
                            lemma_struct_scan_err_persists(
                                *m,
                                vecs,
                                mats,
                                strategy,
                                ti + 1,
                                m.types@.len() as int,
                            );
                        }
                        return Err(e);
                    },
                };
                let agree = built.size == storage_built.size && built.align == storage_built.align
                    && crate::decl::fields_eq(&built.fields, &storage_built.fields);
                proof {
                    lemma_built_fields_view(m.types@, ti as int, vecs, mats, true, built.fields);
                    lemma_built_fields_view(
                        m.types@,
                        ti as int,
                        vecs,
                        mats,
                        false,
                        storage_built.fields,
                    );
                    assert(agree == layouts_same(m.types@, ti as int, vecs, mats));
                }
                if !agree {
                    proof {
                        assert(struct_scan_err(*m, vecs, mats, strategy, ti + 1) == Some(
                            CreateModuleError::LayoutConflict { ty: ti as u32 },
                        ));
                        lemma_struct_scan_err_persists(
                            *m,
                            vecs,
                            mats,
                            strategy,
                            ti + 1,
                            m.types@.len() as int,
                        );
                    }
                    return Err(CreateModuleError::LayoutConflict { ty: ti as u32 });
                }
            }
            let raw = match &m.types[ti].name {
                Some(nm) => nm.clone(),
                None => {
                    proof {
                        assert(false);
                    }
                    return Err(CreateModuleError::UnsupportedType { ty: ti as u32 });
                },
            };
            let (mod_path, base) = demangle_splitting_mod_path_and_item(raw.as_str());
            let path = match mod_path {
                Some(p) => p,
                None => mod_name.clone(),
            };
            let ghost pre = out@;
            out.push(
                (
                    path,
                    Declaration {
                        name: base,
                        body: DeclBody::HostStruct {
                            host_name: built.name,
                            fields: built.fields,
                            size: built.size,
                            align: built.align,
                            encode: !direct,
                        },
                    },
                ),
            );
            proof {
                lemma_built_fields_view(
                    m.types@,
                    ti as int,
                    vecs,
                    mats,
                    uniform_used,
                    out@[pre.len() as int].1.body->HostStruct_fields,
                );
                assert(out@[pre.len() as int].1@ =~~= DeclarationV {
                    name: struct_decl_name(*m, ti as int),
                    body: host_struct_body(
                        *m,
                        ti as int,
                        vecs,
                        mats,
                        used_as(*m, ti as int, true),
                        direct_g,
                    ),
                });
                assert(out@[pre.len() as int].0@ == struct_decl_path(*m, ti as int, mod_name@));
                assert(pair_views(out@) =~~= struct_pairs_upto(
                    *m,
                    mod_name@,
                    vecs,
                    mats,
                    direct_g,
                    ti + 1,
                ));
            }
        } else {
            proof {
                assert(pair_views(out@) =~~= struct_pairs_upto(
                    *m,
                    mod_name@,
                    vecs,
                    mats,
                    direct_g,
                    ti + 1,
                ));
            }
        }
        ti = ti + 1;
    }
    Ok(out)
}

/// Builds the vertex-attribute impl declarations of the module's
/// vertex input structs, returning them with the buffer names.
#[verifier::loop_isolation(false)]
#[verifier::rlimit(100)]
#[verifier::spinoff_prover]
fn vertex_decl_pairs(m: &Module, mod_name: &String, map: &crate::layout::WgslTypeMap) -> (r: Result<
    (Vec<(String, Declaration)>, Vec<String>),
    CreateModuleError,
>)
    requires
        module_wf(*m),
        is_ascii_chars(mod_name@),
        type_map_ok(map.vectors@, map.matrices@),
    ensures
        match r {
            Ok((v, vn)) => {
                &&& vertex_scan_err(*m, map.vectors@, map.matrices@, spec_vertex_inputs(
                    *m,
                ).len() as int) is None
                &&& pair_views(v@) =~~= vertex_impl_pairs_upto(
                    *m,
                    mod_name@,
                    map.vectors@,
                    map.matrices@,
                    spec_vertex_inputs(*m).len() as int,
                )
                &&& vn.deep_view() =~~= buffer_name_views(*m)
                &&& forall|k: int| 0 <= k < vn@.len() ==> is_ascii_chars(#[trigger] vn@[k]@)
            },
            Err(e) => vertex_scan_err(
                *m,
                map.vectors@,
                map.matrices@,
                spec_vertex_inputs(*m).len() as int,
            ) == Some(e),
        },
{
    let ghost vecs = map.vectors@;
    let ghost mats = map.matrices@;
    let inputs = get_vertex_input_structs(m);
    let ghost n_inputs = spec_vertex_inputs(*m).len() as int;
    let mut out: Vec<(String, Declaration)> = Vec::new();
    let mut vnames: Vec<String> = Vec::new();
    let mut vi: usize = 0;
    while vi < inputs.len()
        invariant
            vi <= inputs@.len(),
            inputs@ == spec_vertex_inputs(*m),
            vertex_scan_err(*m, vecs, mats, vi as int) is None,
            pair_views(out@) =~~= vertex_impl_pairs_upto(*m, mod_name@, vecs, mats, vi as int),
            vnames@.len() == vi,
            forall|k: int|
                0 <= k < vi ==> #[trigger] vnames@[k]@ == buffer_name_views(*m)[k],
            forall|k: int| 0 <= k < vi ==> is_ascii_chars(#[trigger] vnames@[k]@),
        decreases inputs@.len() - vi,
    {
        let si = inputs[vi];
        let (attrs, stride) = match vertex_attributes(&m.types, si as usize, map) {
            Ok(p) => p,
            Err(e) => {
                proof {
                    assert(vertex_scan_err(*m, vecs, mats, vi + 1) == Some(e));
                    lemma_vertex_scan_err_persists(*m, vecs, mats, vi + 1, n_inputs);
                }
                return Err(e);
            },
        };
        let raw = match &m.types[si as usize].name {
            Some(nm) => nm.clone(),
            None => {
                proof {
                    assert(vertex_scan_err(*m, vecs, mats, vi + 1) == Some(
                        CreateModuleError::UnsupportedType { ty: si },
                    ));
                    lemma_vertex_scan_err_persists(*m, vecs, mats, vi + 1, n_inputs);
                }
                return Err(CreateModuleError::UnsupportedType { ty: si });
            },
        };
        let (_, base) = demangle_splitting_mod_path_and_item(raw.as_str());
        proof {
            lemma_ascii_chars_bytes_roundtrip(raw@);
            crate::mangle::lemma_demangle_name_ascii(chars_to_bytes(raw@));
            lemma_bytes_to_chars_ascii(spec_demangle(chars_to_bytes(raw@)).1);
            reveal_strlit("_attributes");
            assert(is_ascii_chars("_attributes"@));
        }
        let mut ib = str_bytes(base.as_str());
        push_str_bytes(&mut ib, "_attributes");
        proof {
            assert(bytes_ascii(ib@));
            lemma_bytes_to_chars_ascii(ib@);
            assert(ib@ =~= demangled_parts(*m, si as int).1 + seq![95u8, 97u8, 116u8, 116u8,
                114u8, 105u8, 98u8, 117u8, 116u8, 101u8, 115u8]) by {
                assert(chars_to_bytes("_attributes"@) =~= seq![95u8, 97u8, 116u8, 116u8, 114u8,
                    105u8, 98u8, 117u8, 116u8, 101u8, 115u8]);
                assert(chars_to_bytes(base@) =~= demangled_parts(*m, si as int).1);
            }
        }
        let impl_name = ascii_to_string(&ib);
        let ghost pre = out@;
        out.push(
            (
                mod_name.clone(),
                Declaration {
                    name: impl_name,
                    body: DeclBody::VertexAttributesImpl {
                        struct_name: base.clone(),
                        stride,
                        attributes: attrs,
                    },
                },
            ),
        );
        proof {
            assert(out@[pre.len() as int].1.body->VertexAttributesImpl_attributes@
                =~= input_attrs_view(*m, si as int, vecs, mats)) by {
                let av = out@[pre.len() as int].1.body->VertexAttributesImpl_attributes@;
                let ss = input_sorted(*m, si as int);
                assert forall|k: int| 0 <= k < ss.len() implies av[k] == input_attrs_view(
                    *m,
                    si as int,
                    vecs,
                    mats,
                )[k] by {
                    assert(spec_vertex_format(m.types@, #[trigger] ss[k].ty as int) is Some);
                }
            }
            assert(out@[pre.len() as int].1@ =~~= DeclarationV {
                name: impl_name_chars(*m, si as int),
                body: DeclBodyV::VertexAttributesImpl {
                    struct_name: struct_decl_name(*m, si as int),
                    stride: input_stride(*m, si as int, vecs, mats) as u32,
                    attributes: input_attrs_view(*m, si as int, vecs, mats),
                },
            });
            assert(pair_views(out@) =~~= vertex_impl_pairs_upto(
                *m,
                mod_name@,
                vecs,
                mats,
                vi + 1,
            ));
        }
        vnames.push(base);
        vi = vi + 1;
    }
    proof {
        assert(vnames.deep_view() =~~= buffer_name_views(*m)) by {
            assert(forall|k: int|
                0 <= k < vnames@.len() ==> #[trigger] vnames.deep_view()[k] == vnames@[k]@);
        }
    }
    Ok((out, vnames))
}

/// Pairs every entry point constant with the entry's module path.
#[verifier::loop_isolation(false)]
fn const_pairs(m: &Module, mod_name: &String) -> (r: Vec<(String, Declaration)>)
    requires
        module_wf(*m),
    ensures
        pair_views(r@) =~~= Seq::new(
            m.entry_points@.len(),
            |k: int| (mod_name@, spec_entry_consts(m.entry_points@)[k]),
        ),
{
    let mut consts = entry_point_constants(m);
    let ghost full = consts.deep_view();
    proof {
        assert(full.len() == consts@.len());
        assert(forall|k: int| 0 <= k < consts@.len() ==> #[trigger] consts@[k]@ == full[k]);
    }
    let mut out: Vec<(String, Declaration)> = Vec::new();
    while consts.len() > 0
        invariant
            full == spec_entry_consts(m.entry_points@),
            out@.len() + consts@.len() == full.len(),
            forall|k: int|
                0 <= k < consts@.len() ==> #[trigger] consts@[k]@ == full[out@.len() + k],
            pair_views(out@) =~~= Seq::new(out@.len(), |k: int| (mod_name@, full[k])),
        decreases consts@.len(),
    {
        let ghost pre_c = consts@;
        let ghost pre_out = out@;
        let d = consts.remove(0);
        proof {
            assert(consts@ =~= pre_c.drop_first());
            assert(d@ == full[pre_out.len() as int]);
        }
        out.push((mod_name.clone(), d));
        proof {
            assert forall|k: int| 0 <= k < consts@.len() implies #[trigger] consts@[k]@ == full[
                out@.len() + k
            ] by {
                assert(consts@[k] == pre_c[k + 1]);
            }
            assert(pair_views(out@) =~~= Seq::new(out@.len(), |k: int| (mod_name@, full[k])))
                by {
                assert forall|k: int| 0 <= k < out@.len() implies pair_views(out@)[k] == (
                    mod_name@,
                    full[k],
                ) by {
                    if k < pre_out.len() {
                        assert(out@[k] == pre_out[k]);
                        assert(pair_views(pre_out)[k] == (mod_name@, full[k]));
                    } else {
                        assert(out@[k].1 == d);
                    }
                }
            }
        }
    }
    proof {
        assert(pair_views(out@) =~~= Seq::new(
            m.entry_points@.len(),
            |k: int| (mod_name@, spec_entry_consts(m.entry_points@)[k]),
        ));
    }
    out
}

/// Builds the vertex scaffolding and one accessor per vertex entry
/// point, over the given buffer names; nothing when the module has no
/// vertex entry point.
#[verifier::loop_isolation(false)]
#[verifier::rlimit(100)]
#[verifier::spinoff_prover]
fn vertex_state_pairs(m: &Module, mod_name: &String, vnames: &Vec<String>) -> (r: Vec<
    (String, Declaration),
>)
    requires
        module_wf(*m),
        is_ascii_chars(mod_name@),
        vnames.deep_view() =~~= buffer_name_views(*m),
        forall|k: int| 0 <= k < vnames@.len() ==> is_ascii_chars(#[trigger] vnames@[k]@),
        forall|k: int| 0 <= k < vnames@.len() ==> #[trigger] vnames.deep_view()[k] == vnames@[k]@,
    ensures
        pair_views(r@) =~~= (if has_vertex(m.entry_points@) {
            seq![
                (
                    mod_name@,
                    DeclarationV { name: "VertexEntry"@, body: DeclBodyV::VertexStateScaffold },
                ),
            ] + vertex_state_pairs_upto(*m, mod_name@, m.entry_points@.len() as int)
        } else {
            Seq::<(Seq<char>, DeclarationV)>::empty()
        }),
{
    let mut hv: bool = false;
    let mut ei: usize = 0;
    while ei < m.entry_points.len()
        invariant
            ei <= m.entry_points@.len(),
            hv == exists|k: int|
                0 <= k < ei && (#[trigger] m.entry_points@[k]).stage is Vertex,
        decreases m.entry_points@.len() - ei,
    {
        let is_v = match m.entry_points[ei].stage {
            ShaderStage::Vertex => true,
            _ => false,
        };
        if is_v {
            hv = true;
        }
        ei = ei + 1;
    }
    let mut out: Vec<(String, Declaration)> = Vec::new();
    if !hv {
        proof {
            assert(pair_views(out@) =~~= Seq::<(Seq<char>, DeclarationV)>::empty());
        }
        return out;
    }
    out.push(
        (
            mod_name.clone(),
            Declaration { name: "VertexEntry".to_owned(), body: DeclBody::VertexStateScaffold },
        ),
    );
    let ghost scaffold = seq![
        (mod_name@, DeclarationV { name: "VertexEntry"@, body: DeclBodyV::VertexStateScaffold }),
    ];
    let mut e2: usize = 0;
    while e2 < m.entry_points.len()
        invariant
            e2 <= m.entry_points@.len(),
            pair_views(out@) =~~= scaffold + vertex_state_pairs_upto(*m, mod_name@, e2 as int),
        decreases m.entry_points@.len() - e2,
    {
        let ep = &m.entry_points[e2];
        let is_v = match ep.stage {
            ShaderStage::Vertex => true,
            _ => false,
        };
        if is_v {
            proof {
                reveal_strlit("_entry");
                assert(is_ascii_chars("_entry"@));
            }
            let nb = str_bytes(ep.name.as_str());
            let mut fb: Vec<u8> = Vec::new();
            crate::text::push_all(&mut fb, &nb);
            push_str_bytes(&mut fb, "_entry");
            proof {
                assert(bytes_ascii(fb@));
                lemma_bytes_to_chars_ascii(fb@);
                assert(fb@ =~= chars_to_bytes(ep.name@) + seq![95u8, 101u8, 110u8, 116u8, 114u8,
                    121u8]) by {
                    assert(chars_to_bytes("_entry"@) =~= seq![95u8, 101u8, 110u8, 116u8, 114u8,
                        121u8]);
                }
            }
            let fn_name = ascii_to_string(&fb);
            let const_name = entry_const_name(&ep.name);
            proof {
                assert(vnames.deep_view().len() == vnames@.len());
                assert(buffer_name_views(*m).len() == spec_vertex_inputs(*m).len());
            }
            let mut params: Vec<String> = Vec::new();
            let mut buffers: Vec<String> = Vec::new();
            let mut b: usize = 0;
            while b < vnames.len()
                invariant
                    b <= vnames@.len(),
                    params@.len() == b,
                    buffers@.len() == b,
                    forall|k: int|
                        0 <= k < b ==> #[trigger] params@[k]@ == param_name_views(*m)[k],
                    forall|k: int|
                        0 <= k < b ==> #[trigger] buffers@[k]@ == buffer_name_views(*m)[k],
                decreases vnames@.len() - b,
            {
                let sb = str_bytes(vnames[b].as_str());
                let mut pb: Vec<u8> = Vec::new();
                push_snake(&mut pb, &sb);
                proof {
                    assert(bytes_ascii(pb@)) by {
                        assert forall|t: int| 0 <= t < pb@.len() implies #[trigger] pb@[t]
                            < 128 by {
                            lemma_snake_ascii(sb@);
                        }
                    }
                    lemma_bytes_to_chars_ascii(pb@);
                    assert(vnames.deep_view()[b as int] == vnames@[b as int]@);
                    assert(vnames@[b as int]@ == buffer_name_views(*m)[b as int]);
                    assert(pb@ =~= snake_bytes(chars_to_bytes(buffer_name_views(*m)[b as int])));
                }
                params.push(ascii_to_string(&pb));
                buffers.push(vnames[b].clone());
                b = b + 1;
            }
            let ghost pre = out@;
            out.push(
                (
                    mod_name.clone(),
                    Declaration {
                        name: fn_name.clone(),
                        body: DeclBody::VertexEntryFn { fn_name, const_name, params, buffers },
                    },
                ),
            );
            proof {
                assert(out@[pre.len() as int].1.body->VertexEntryFn_params.deep_view()
                    =~~= param_name_views(*m)) by {
                    let ps = out@[pre.len() as int].1.body->VertexEntryFn_params;
                    assert(ps@.len() == param_name_views(*m).len());
                    assert(forall|k: int|
                        0 <= k < ps@.len() ==> #[trigger] ps.deep_view()[k] == ps@[k]@);
                    assert(forall|k: int|
                        0 <= k < ps@.len() ==> #[trigger] ps@[k]@ == param_name_views(*m)[k]);
                }
                assert(out@[pre.len() as int].1.body->VertexEntryFn_buffers.deep_view()
                    =~~= buffer_name_views(*m)) by {
                    let bs = out@[pre.len() as int].1.body->VertexEntryFn_buffers;
                    assert(bs@.len() == buffer_name_views(*m).len());
                    assert(forall|k: int|
                        0 <= k < bs@.len() ==> #[trigger] bs.deep_view()[k] == bs@[k]@);
                    assert(forall|k: int|
                        0 <= k < bs@.len() ==> #[trigger] bs@[k]@ == buffer_name_views(*m)[k]);
                }
                assert(out@[pre.len() as int].1@ =~~= DeclarationV {
                    name: entry_fn_name_chars(m.entry_points@[e2 as int].name@),
                    body: DeclBodyV::VertexEntryFn {
                        fn_name: entry_fn_name_chars(m.entry_points@[e2 as int].name@),
                        const_name: bytes_to_chars(
                            entry_const_bytes(m.entry_points@[e2 as int].name@),
                        ),
                        params: param_name_views(*m),
                        buffers: buffer_name_views(*m),
                    },
                });
                let ghost dv = out@[pre.len() as int].1@;
                let ghost target = scaffold + vertex_state_pairs_upto(*m, mod_name@, e2 + 1);
                assert(vertex_state_pairs_upto(*m, mod_name@, e2 + 1)
                    =~~= vertex_state_pairs_upto(*m, mod_name@, e2 as int) + seq![
                    (mod_name@, dv),
                ]);
                assert(pair_views(out@) =~~= target) by {
                    assert(pair_views(out@).len() == target.len());
                    assert forall|k: int| 0 <= k < pair_views(out@).len() implies pair_views(
                        out@,
                    )[k] == target[k] by {
                        if k < pre.len() {
                            assert(out@[k] == pre[k]);
                            assert(pair_views(pre)[k] == (scaffold + vertex_state_pairs_upto(
                                *m,
                                mod_name@,
                                e2 as int,
                            ))[k]);
                        } else {
                            assert(pair_views(out@)[k] == (mod_name@, dv));
                        }
                    }
                }
            }
        } else {
            proof {
                assert(pair_views(out@) =~~= scaffold + vertex_state_pairs_upto(
                    *m,
                    mod_name@,
                    e2 + 1,
                ));
            }
        }
        e2 = e2 + 1;
    }
    out
}

/// Concatenating pair lists concatenates their views.
proof fn lemma_pair_views_concat(a: Seq<(String, Declaration)>, b: Seq<(String, Declaration)>)
    ensures
        pair_views(a + b) =~~= pair_views(a) + pair_views(b),
{
}

/// Assembles the declarations of one shader entry, paired with their
/// target module paths. The result is a function of the entry and the
/// options: on success the list is exactly [`spec_entry_pairs`], and a
/// failure returns exactly the first error [`spec_entry_err`] names.
#[verifier::loop_isolation(false)]
#[verifier::rlimit(100)]
#[verifier::spinoff_prover]
pub fn entry_declarations(entry: &ShaderEntry, options: &WgslBindgenOption) -> (r: Result<
    Vec<(String, Declaration)>,
    CreateModuleError,
>)
    requires
        module_wf(entry.module),
        is_ascii_chars(entry.mod_name@),
        type_map_ok(options.type_map.vectors@, options.type_map.matrices@),
    ensures
        match r {
            Ok(v) => {
                &&& spec_entry_err(*entry, *options) is None
                &&& pair_views(v@) == spec_entry_pairs(*entry, *options)
                &&& first_dup(entry.module) is None
                &&& groups_contiguous(entry.module)
            },
            Err(e) => spec_entry_err(*entry, *options) == Some(e),
        },
{
    let m = &entry.module;
    let ghost vecs = options.type_map.vectors@;
    let ghost mats = options.type_map.matrices@;
    let table = match get_bind_group_data(m) {
        Ok(t) => t,
        Err(e) => {
            return Err(e);
        },
    };
    let mut out = match struct_decl_pairs(m, &entry.mod_name, &options.type_map,
        options.serialization_strategy) {
        Ok(v) => v,
        Err(e) => {
            return Err(e);
        },
    };
    let ghost seg_structs = pair_views(out@);
    let gcount: u64 = table.groups.len() as u64;
    if table.groups.len() > 0 {
        let ghost pre = out@;
        out.push(
            (
                entry.mod_name.clone(),
                Declaration {
                    name: "bind_groups".to_owned(),
                    body: DeclBody::BindGroups { groups: table.groups },
                },
            ),
        );
        proof {
            assert(out@[pre.len() as int].1.body->BindGroups_groups.deep_view()
                =~~= bind_groups_view(*m));
            assert(pair_views(out@) =~~= seg_structs + seq![
                (
                    entry.mod_name@,
                    DeclarationV {
                        name: "bind_groups"@,
                        body: DeclBodyV::BindGroups { groups: bind_groups_view(*m) },
                    },
                ),
            ]);
        }
    }
    let ghost seg_bind = pair_views(out@);
    let (mut vpairs, vnames) = match vertex_decl_pairs(m, &entry.mod_name, &options.type_map) {
        Ok(p) => p,
        Err(e) => {
            return Err(e);
        },
    };
    proof {
        lemma_pair_views_concat(out@, vpairs@);
    }
    out.append(&mut vpairs);
    let ghost seg_vimpl = pair_views(out@);
    match compute_module(m) {
        Some(d) => {
            let ghost pre = out@;
            out.push((entry.mod_name.clone(), d));
            proof {
                assert(pair_views(out@) =~~= seg_vimpl + seq![
                    (
                        entry.mod_name@,
                        DeclarationV {
                            name: "compute"@,
                            body: DeclBodyV::ComputeModule {
                                entries: spec_compute_entries(m.entry_points@),
                            },
                        },
                    ),
                ]);
            }
        },
        None => {},
    }
    let ghost seg_compute = pair_views(out@);
    let mut cp = const_pairs(m, &entry.mod_name);
    proof {
        lemma_pair_views_concat(out@, cp@);
    }
    out.append(&mut cp);
    let ghost seg_consts = pair_views(out@);
    let mut vsp = vertex_state_pairs(m, &entry.mod_name, &vnames);
    proof {
        lemma_pair_views_concat(out@, vsp@);
    }
    out.append(&mut vsp);
    let ghost seg_states = pair_views(out@);
    let ghost pre_tail = out@;
    out.push(
        (
            entry.mod_name.clone(),
            Declaration {
                name: "create_pipeline_layout".to_owned(),
                body: DeclBody::PipelineLayout { group_count: gcount },
            },
        ),
    );
    match options.shader_source_output_type {
        WgslShaderSourceOutputType::FinalShaderString => {
            out.push(
                (
                    entry.mod_name.clone(),
                    Declaration {
                        name: "create_shader_module".to_owned(),
                        body: DeclBody::ShaderModuleEmbed { source: entry.source.clone() },
                    },
                ),
            );
        },
        WgslShaderSourceOutputType::Composer => {
            out.push(
                (
                    entry.mod_name.clone(),
                    Declaration {
                        name: "create_shader_module".to_owned(),
                        body: DeclBody::ShaderModuleComposer {
                            entry_path: entry.entry_path.clone(),
                            deps: copy_deps(&entry.dependencies),
                        },
                    },
                ),
            );
        },
    }
    proof {
        assert(out@[pre_tail.len() as int + 1].1.body@ =~~= shader_module_body(*entry, *options)) by {
            match options.shader_source_output_type {
                WgslShaderSourceOutputType::FinalShaderString => {},
                WgslShaderSourceOutputType::Composer => {
                    let ds = out@[pre_tail.len() as int + 1].1.body->ShaderModuleComposer_deps;
                    assert(ds.deep_view() =~~= entry.dependencies.deep_view());
                },
            }
        }
        assert(pair_views(out@) =~~= seg_states + seq![
            (
                entry.mod_name@,
                DeclarationV {
                    name: "create_pipeline_layout"@,
                    body: DeclBodyV::PipelineLayout { group_count: num_groups(entry.module) as u64 },
                },
            ),
            (
                entry.mod_name@,
                DeclarationV {
                    name: "create_shader_module"@,
                    body: shader_module_body(*entry, *options),
                },
            ),
        ]);
        assert(pair_views(out@) =~~= spec_entry_pairs(*entry, *options));
    }
    Ok(out)
}

/// Copies the dependency list.
fn copy_deps(deps: &Vec<Dependency>) -> (r: Vec<Dependency>)
    ensures
        r.deep_view() == deps.deep_view(),
{
    let mut out: Vec<Dependency> = Vec::new();
    let mut i: usize = 0;
    while i < deps.len()
        invariant
            i <= deps@.len(),
            out@.len() == i,
            forall|t: int| 0 <= t < i ==> #[trigger] out@[t]@ == deps@[t]@,
        decreases deps@.len() - i,
    {
        let d = &deps[i];
        let alias = match &d.as_name {
            Some(s) => Some(s.clone()),
            None => None,
        };
        out.push(Dependency { file_path: d.file_path.clone(), as_name: alias });
        i = i + 1;
    }
    proof {
        assert(out.deep_view() =~= deps.deep_view()) by {
            assert(forall|t: int|
                0 <= t < deps@.len() ==> #[trigger] out.deep_view()[t] == out@[t]@
                    && deps.deep_view()[t] == deps@[t]@);
        }
    }
    out
}

/// Snake-casing ASCII bytes yields ASCII bytes.
proof fn lemma_snake_ascii(s: Seq<u8>)
    requires
        bytes_ascii(s),
    ensures
        bytes_ascii(crate::text::snake_bytes(s)),
    decreases s.len(),
{
    if s.len() > 0 {
        lemma_snake_ascii(s.drop_last());
        assert(bytes_ascii(s.drop_last())) by {
            assert(forall|t: int| 0 <= t < s.len() - 1 ==> s.drop_last()[t] == s[t]);
        }
    }
}

} // verus!
