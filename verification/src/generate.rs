//! The entry orchestrator.
//!
//! Iterates the configured shader entries in order; for each, analyzes
//! bind groups, builds host records, derives vertex layouts, and emits
//! the per-entry declarations; merges everything into one namespace
//! tree with a single shared root module. Any fatal error aborts the
//! whole run: no partial tree is returned.

use vstd::prelude::*;

verus! {

use vstd::utf8::is_ascii_chars;
use crate::CreateModuleError;
use crate::WgslTypeSerializeStrategy;
use crate::bindgroup::{first_dup, groups_contiguous};
use crate::decl::{ComputeEntry, ComputeEntryV, DeclBody, DeclBodyV, Declaration, DeclarationV,
    Dependency};
use crate::ir::{EntryPoint, Module, ShaderStage, module_wf};
use crate::layout::{WgslTypeMap, type_map_ok};
use crate::namespace::{NamespaceModuleV, NamespaceTree, spec_tree_add};
use crate::text::{ascii_to_string, bytes_ascii, bytes_to_chars, chars_to_bytes,
    lemma_bytes_to_chars_ascii, push_str_bytes, push_upper, str_bytes, upper_bytes};

/// How the generated code obtains its shader source: an embedded final
/// string, or composition calls resolved at the caller's build time.
#[derive(Debug, Clone, Copy, PartialEq, Eq, Structural)]
pub enum WgslShaderSourceOutputType {
    FinalShaderString,
    Composer,
}

/// The generation options: serialization strategy, shader source
/// output, and the project type map.
#[derive(Debug)]
pub struct WgslBindgenOption {
    pub serialization_strategy: WgslTypeSerializeStrategy,
    pub shader_source_output_type: WgslShaderSourceOutputType,
    pub type_map: WgslTypeMap,
}

impl Default for WgslBindgenOption {
    /// The defaults: runtime-encoded serialization, embedded shader
    /// source, no overrides.
    fn default() -> (r: WgslBindgenOption)
        ensures
            r.serialization_strategy == WgslTypeSerializeStrategy::RuntimeEncoded,
            r.shader_source_output_type == WgslShaderSourceOutputType::FinalShaderString,
            r.type_map.vectors@.len() == 0,
            r.type_map.matrices@.len() == 0,
    {
        WgslBindgenOption {
            serialization_strategy: WgslTypeSerializeStrategy::RuntimeEncoded,
            shader_source_output_type: WgslShaderSourceOutputType::FinalShaderString,
            type_map: WgslTypeMap { vectors: Vec::new(), matrices: Vec::new() },
        }
    }
}

/// One configured shader entry: its module name, its parsed module,
/// its final source text, and its dependency list.
#[derive(Debug)]
pub struct ShaderEntry {
    pub mod_name: String,
    pub module: Module,
    pub source: String,
    pub entry_path: String,
    pub dependencies: Vec<Dependency>,
}

/// The `ENTRY_<NAME>` constant name of an entry point.
pub open spec fn entry_const_bytes(name: Seq<char>) -> Seq<u8> {
    seq![69u8, 78u8, 84u8, 82u8, 89u8, 95u8] + upper_bytes(chars_to_bytes(name))
}

/// The `<NAME>_WORKGROUP_SIZE` constant name of a compute entry point.
pub open spec fn workgroup_const_bytes(name: Seq<char>) -> Seq<u8> {
    upper_bytes(chars_to_bytes(name)) + seq![95u8, 87u8, 79u8, 82u8, 75u8, 71u8, 82u8, 79u8,
        85u8, 80u8, 95u8, 83u8, 73u8, 90u8, 69u8]
}

/// The `create_<name>_pipeline` constructor name of a compute entry.
pub open spec fn pipeline_fn_bytes(name: Seq<char>) -> Seq<u8> {
    seq![99u8, 114u8, 101u8, 97u8, 116u8, 101u8, 95u8] + chars_to_bytes(name) + seq![95u8,
        112u8, 105u8, 112u8, 101u8, 108u8, 105u8, 110u8, 101u8]
}

/// The `Compute Pipeline <name>` label of a compute pipeline.
pub open spec fn pipeline_label_bytes(name: Seq<char>) -> Seq<u8> {
    seq![67u8, 111u8, 109u8, 112u8, 117u8, 116u8, 101u8, 32u8, 80u8, 105u8, 112u8, 101u8,
        108u8, 105u8, 110u8, 101u8, 32u8] + chars_to_bytes(name)
}

/// The compute entries of the module's entry points, in order.
pub open spec fn spec_compute_entries(eps: Seq<EntryPoint>) -> Seq<ComputeEntryV>
    decreases eps.len(),
{
    if eps.len() == 0 {
        Seq::empty()
    } else {
        let rest = spec_compute_entries(eps.drop_last());
        let e = eps.last();
        if e.stage is Compute {
            rest + seq![
                ComputeEntryV {
                    entry_point: e.name@,
                    const_name: bytes_to_chars(workgroup_const_bytes(e.name@)),
                    pipeline_fn: bytes_to_chars(pipeline_fn_bytes(e.name@)),
                    label: bytes_to_chars(pipeline_label_bytes(e.name@)),
                    x: e.workgroup_size_x,
                    y: e.workgroup_size_y,
                    z: e.workgroup_size_z,
                },
            ]
        } else {
            rest
        }
    }
}

/// Builds the `ENTRY_<NAME>` constant name of an entry point name.
pub(crate) fn entry_const_name(name: &String) -> (r: String)
    requires
        is_ascii_chars(name@),
    ensures
        r@ == bytes_to_chars(entry_const_bytes(name@)),
{
    proof {
        reveal_strlit("ENTRY_");
        assert(is_ascii_chars("ENTRY_"@));
    }
    let mut b: Vec<u8> = Vec::new();
    push_str_bytes(&mut b, "ENTRY_");
    let nb = str_bytes(name.as_str());
    push_upper(&mut b, &nb);
    proof {
        assert(chars_to_bytes("ENTRY_"@) =~= seq![69u8, 78u8, 84u8, 82u8, 89u8, 95u8]);
        assert(b@ =~= entry_const_bytes(name@));
        assert(bytes_ascii(b@)) by {
            assert forall|t: int| 0 <= t < b@.len() implies #[trigger] b@[t] < 128 by {
                if t >= 6 {
                    assert(b@[t] == crate::text::upper_byte(chars_to_bytes(name@)[t - 6]));
                }
            }
        }
        lemma_bytes_to_chars_ascii(b@);
    }
    ascii_to_string(&b)
}

/// Builds the compute module declaration of the module's entry points:
/// one workgroup-size constant and one pipeline constructor per
/// compute entry point; no declaration at all when the module has no
/// compute entry point.
#[verifier::loop_isolation(false)]
pub fn compute_module(m: &Module) -> (r: Option<Declaration>)
    requires
        module_wf(*m),
    ensures
        match r {
            Some(d) => {
                &&& spec_compute_entries(m.entry_points@).len() > 0
                &&& d@.name == "compute"@
                &&& d@.body == (DeclBodyV::ComputeModule {
                    entries: spec_compute_entries(m.entry_points@),
                })
            },
            None => spec_compute_entries(m.entry_points@).len() == 0,
        },
{
    let mut entries: Vec<ComputeEntry> = Vec::new();
    let mut i: usize = 0;
    while i < m.entry_points.len()
        invariant
            i <= m.entry_points@.len(),
            entries.deep_view() == spec_compute_entries(m.entry_points@.take(i as int)),
        decreases m.entry_points@.len() - i,
    {
        let e = &m.entry_points[i];
        match e.stage {
            ShaderStage::Compute => {
                proof {
                    reveal_strlit("_WORKGROUP_SIZE");
                    reveal_strlit("create_");
                    reveal_strlit("_pipeline");
                    reveal_strlit("Compute Pipeline ");
                    assert(is_ascii_chars("_WORKGROUP_SIZE"@));
                    assert(is_ascii_chars("create_"@));
                    assert(is_ascii_chars("_pipeline"@));
                    assert(is_ascii_chars("Compute Pipeline "@));
                }
                let nb = str_bytes(e.name.as_str());
                let mut cb: Vec<u8> = Vec::new();
                push_upper(&mut cb, &nb);
                push_str_bytes(&mut cb, "_WORKGROUP_SIZE");
                let mut pb: Vec<u8> = Vec::new();
                push_str_bytes(&mut pb, "create_");
                crate::text::push_all(&mut pb, &nb);
                push_str_bytes(&mut pb, "_pipeline");
                let mut lb: Vec<u8> = Vec::new();
                push_str_bytes(&mut lb, "Compute Pipeline ");
                crate::text::push_all(&mut lb, &nb);
                proof {
                    assert(cb@ =~= workgroup_const_bytes(e.name@));
                    assert(pb@ =~= pipeline_fn_bytes(e.name@));
                    assert(lb@ =~= pipeline_label_bytes(e.name@));
                    assert(bytes_ascii(nb@)) by {
                        crate::text::lemma_ascii_chars_bytes_roundtrip(e.name@);
                    }
                    assert(bytes_ascii(cb@)) by {
                        assert forall|t: int| 0 <= t < cb@.len() implies #[trigger] cb@[t]
                            < 128 by {
                            if t < nb@.len() {
                                assert(cb@[t] == crate::text::upper_byte(nb@[t]));
                            }
                        }
                    }
                    assert(bytes_ascii(pb@));
                    assert(bytes_ascii(lb@));
                    lemma_bytes_to_chars_ascii(cb@);
                    lemma_bytes_to_chars_ascii(pb@);
                    lemma_bytes_to_chars_ascii(lb@);
                }
                entries.push(ComputeEntry {
                    entry_point: e.name.clone(),
                    const_name: ascii_to_string(&cb),
                    pipeline_fn: ascii_to_string(&pb),
                    label: ascii_to_string(&lb),
                    x: e.workgroup_size_x,
                    y: e.workgroup_size_y,
                    z: e.workgroup_size_z,
                });
            },
            _ => {},
        }
        i = i + 1;
        proof {
            assert(m.entry_points@.take(i as int).drop_last() =~= m.entry_points@.take(i - 1));
            assert(m.entry_points@.take(i as int).last() == m.entry_points@[i - 1]);
            assert(entries.deep_view() =~= spec_compute_entries(m.entry_points@.take(i as int)));
        }
    }
    proof {
        assert(m.entry_points@.take(m.entry_points@.len() as int) =~= m.entry_points@);
    }
    if entries.len() == 0 {
        proof {
            assert(entries.deep_view().len() == entries@.len());
        }
        return None;
    }
    proof {
        assert(entries.deep_view().len() == entries@.len());
    }
    let name = "compute".to_owned();
    Some(Declaration { name, body: DeclBody::ComputeModule { entries } })
}

/// The entry point constant declarations of the module, one per entry
/// point, in order.
pub open spec fn spec_entry_consts(eps: Seq<EntryPoint>) -> Seq<DeclarationV> {
    Seq::new(
        eps.len(),
        |k: int|
            DeclarationV {
                name: bytes_to_chars(entry_const_bytes(eps[k].name@)),
                body: DeclBodyV::EntryConstant { value: eps[k].name@ },
            },
    )
}

/// Builds the entry point constant declarations: one string constant
/// per entry point, named `ENTRY_<NAME>`.
#[verifier::loop_isolation(false)]
pub fn entry_point_constants(m: &Module) -> (r: Vec<Declaration>)
    requires
        module_wf(*m),
    ensures
        r.deep_view() =~= spec_entry_consts(m.entry_points@),
{
    let mut out: Vec<Declaration> = Vec::new();
    let mut i: usize = 0;
    while i < m.entry_points.len()
        invariant
            i <= m.entry_points@.len(),
            out.deep_view() =~= spec_entry_consts(m.entry_points@).take(i as int),
        decreases m.entry_points@.len() - i,
    {
        let e = &m.entry_points[i];
        let cname = entry_const_name(&e.name);
        out.push(Declaration { name: cname, body: DeclBody::EntryConstant { value: e.name.clone() } });
        i = i + 1;
        proof {
            assert(out.deep_view() =~= spec_entry_consts(m.entry_points@).take(i as int));
        }
    }
    out
}

/// The root prelude declaration's view.
pub open spec fn prelude_decl_view(options: WgslBindgenOption) -> DeclarationV {
    DeclarationV {
        name: "prelude"@,
        body: DeclBodyV::RootPrelude {
            direct: options.serialization_strategy is DirectReinterpret,
        },
    }
}

/// The tree every run starts from: the shared root module holding the
/// prelude.
pub open spec fn root_tree_view(options: WgslBindgenOption) -> Seq<NamespaceModuleV> {
    seq![NamespaceModuleV { path: "_root"@, items: seq![prelude_decl_view(options)] }]
}

/// Generation from entry `i` onward over the given tree state: the
/// first failing entry's error, an inconsistent declaration found
/// while merging, or the merged tree.
pub open spec fn spec_generate_from(
    entries: Seq<ShaderEntry>,
    i: int,
    state: Seq<NamespaceModuleV>,
    options: WgslBindgenOption,
) -> Result<Seq<NamespaceModuleV>, CreateModuleError>
    decreases entries.len() - i,
{
    if i < 0 || i >= entries.len() {
        Ok(state)
    } else {
        match crate::emit::spec_entry_err(entries[i], options) {
            Some(e) => Err(e),
            None => match crate::namespace::spec_add_all(
                state,
                crate::emit::spec_entry_pairs(entries[i], options),
            ) {
                Ok(s2) => spec_generate_from(entries, i + 1, s2, options),
                Err(()) => Err(CreateModuleError::InconsistentDeclaration),
            },
        }
    }
}

/// One whole generation run as a function of its inputs: starting from
/// the shared-root tree, each entry in order either aborts the run with
/// its first error or merges its declaration list into the tree.
pub open spec fn spec_generate(entries: Seq<ShaderEntry>, options: WgslBindgenOption) -> Result<
    Seq<NamespaceModuleV>,
    CreateModuleError,
> {
    spec_generate_from(entries, 0, root_tree_view(options), options)
}

/// Generation is deterministic: its result is pinned by
/// [`spec_generate`], a function of the entries and options alone, so
/// two runs over identical input produce identical trees — and hence
/// byte-identical emitted output.
pub proof fn lemma_generation_deterministic(
    entries: Seq<ShaderEntry>,
    options: WgslBindgenOption,
    t1: Seq<NamespaceModuleV>,
    t2: Seq<NamespaceModuleV>,
)
    requires
        spec_generate(entries, options) == Ok::<_, CreateModuleError>(t1),
        spec_generate(entries, options) == Ok::<_, CreateModuleError>(t2),
    ensures
        t1 == t2,
{
}

/// Runs generation for the configured entries: analyzes and validates
/// each entry's module, emits its declarations, and merges everything
/// into one namespace tree whose first module is the shared root.
///
/// The result is exactly [`spec_generate`]: on success the tree is the
/// in-order merge of every entry's declaration list onto the
/// shared-root tree, and on failure the error is the first failing
/// entry's first error (or the first inconsistent declaration the
/// merge finds).
#[verifier::loop_isolation(false)]
#[verifier::rlimit(100)]
#[verifier::spinoff_prover]
pub fn create_rust_bindings(entries: &Vec<ShaderEntry>, options: &WgslBindgenOption) -> (r: Result<
    NamespaceTree,
    CreateModuleError,
>)
    requires
        forall|k: int| 0 <= k < entries@.len() ==> module_wf((#[trigger] entries@[k]).module),
        forall|k: int|
            0 <= k < entries@.len() ==> is_ascii_chars((#[trigger] entries@[k]).mod_name@),
        type_map_ok(options.type_map.vectors@, options.type_map.matrices@),
    ensures
        match r {
            Ok(t) => {
                &&& spec_generate(entries@, *options) == Ok::<_, CreateModuleError>(t@)
                &&& t@.len() >= 1
                &&& t@[0].path == "_root"@
                &&& t@[0].items.len() >= 1
                &&& t@[0].items[0] == prelude_decl_view(*options)
                &&& forall|k: int|
                    0 <= k < entries@.len() ==> first_dup(#[trigger] entries@[k].module) is None
                        && groups_contiguous(entries@[k].module)
            },
            Err(e) => spec_generate(entries@, *options) == Err::<Seq<NamespaceModuleV>, _>(e),
        },
{
    let mut tree = NamespaceTree::new();
    let root_name = "_root".to_owned();
    let prelude_name = "prelude".to_owned();
    let direct = match options.serialization_strategy {
        WgslTypeSerializeStrategy::DirectReinterpret => true,
        WgslTypeSerializeStrategy::RuntimeEncoded => false,
    };
    let add0 = tree.add(
        root_name,
        Declaration { name: prelude_name, body: DeclBody::RootPrelude { direct } },
    );
    match add0 {
        Ok(()) => {},
        Err(e) => {
            proof {
                assert(false);
            }
            return Err(e);
        },
    }
    proof {
        assert(tree@ =~~= root_tree_view(*options));
    }
    let mut ei: usize = 0;
    while ei < entries.len()
        invariant
            ei <= entries@.len(),
            spec_generate(entries@, *options) == spec_generate_from(
                entries@,
                ei as int,
                tree@,
                *options,
            ),
            tree@.len() >= 1,
            tree@[0].path == "_root"@,
            tree@[0].items.len() >= 1,
            tree@[0].items[0] == prelude_decl_view(*options),
            forall|k: int|
                0 <= k < ei ==> first_dup(#[trigger] entries@[k].module) is None
                    && groups_contiguous(entries@[k].module),
        decreases entries@.len() - ei,
    {
        let entry = &entries[ei];
        let ghost state0 = tree@;
        let mut decls = match crate::emit::entry_declarations(entry, options) {
            Ok(d) => d,
            Err(e) => {
                proof {
                    assert(spec_generate_from(entries@, ei as int, state0, *options) == Err::<
                        Seq<NamespaceModuleV>,
                        _,
                    >(e));
                }
                return Err(e);
            },
        };
        let ghost pairs = crate::emit::spec_entry_pairs(entries@[ei as int], *options);
        proof {
            assert(crate::emit::pair_views(decls@) == pairs);
        }
        while decls.len() > 0
            invariant
                crate::namespace::spec_add_all(state0, pairs) == crate::namespace::spec_add_all(
                    tree@,
                    crate::emit::pair_views(decls@),
                ),
                tree@.len() >= 1,
                tree@[0].path == "_root"@,
                tree@[0].items.len() >= 1,
                tree@[0].items[0] == prelude_decl_view(*options),
            decreases decls@.len(),
        {
            let ghost pre_d = decls@;
            let (path, decl) = decls.remove(0);
            let ghost pre = tree@;
            let ghost pv = path@;
            let ghost dv = decl@;
            proof {
                assert(decls@ =~= pre_d.drop_first());
                assert(crate::emit::pair_views(pre_d)[0] == (pv, dv));
                assert(crate::emit::pair_views(decls@) =~~= crate::emit::pair_views(
                    pre_d,
                ).drop_first());
            }
            match tree.add(path, decl) {
                Ok(()) => {
                    proof {
                        lemma_add_keeps_root(pre, pv, dv, tree@);
                        assert(crate::namespace::spec_add_all(pre, crate::emit::pair_views(pre_d))
                            == crate::namespace::spec_add_all(
                            tree@,
                            crate::emit::pair_views(decls@),
                        ));
                    }
                },
                Err(e) => {
                    proof {
                        assert(crate::namespace::spec_add_all(
                            pre,
                            crate::emit::pair_views(pre_d),
                        ) is Err);
                        assert(spec_generate_from(entries@, ei as int, state0, *options) == Err::<
                            Seq<NamespaceModuleV>,
                            _,
                        >(CreateModuleError::InconsistentDeclaration));
                    }
                    return Err(e);
                },
            }
        }
        proof {
            assert(crate::emit::pair_views(decls@) =~~= Seq::<(Seq<char>, DeclarationV)>::empty());
            assert(crate::namespace::spec_add_all(state0, pairs) == Ok::<_, ()>(tree@));
            assert(spec_generate_from(entries@, ei as int, state0, *options)
                == spec_generate_from(entries@, ei + 1, tree@, *options));
        }
        ei = ei + 1;
    }
    proof {
        assert(spec_generate_from(entries@, entries@.len() as int, tree@, *options) == Ok::<
            _,
            CreateModuleError,
        >(tree@));
    }
    Ok(tree)
}

/// A successful add keeps the first module and its first item.
proof fn lemma_add_keeps_root(
    pre: Seq<NamespaceModuleV>,
    p: Seq<char>,
    d: DeclarationV,
    post: Seq<NamespaceModuleV>,
)
    requires
        pre.len() >= 1,
        pre[0].items.len() >= 1,
        spec_tree_add(pre, p, d) == Ok::<_, ()>(post),
    ensures
        post.len() >= 1,
        post[0].path == pre[0].path,
        post[0].items.len() >= 1,
        post[0].items[0] == pre[0].items[0],
{
    crate::namespace::lemma_mod_idx_char(pre, p);
    match crate::namespace::mod_idx(pre, p) {
        None => {},
        Some(mi) => {},
    }
}

} // verus!
