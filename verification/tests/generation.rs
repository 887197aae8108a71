use wgsl_bindgen::bindgroup::{get_bind_group_data, ResourceKind};
use wgsl_bindgen::decl::Dependency;
use wgsl_bindgen::decl::DeclBody;
use wgsl_bindgen::generate::{
    create_rust_bindings, ShaderEntry, WgslBindgenOption, WgslShaderSourceOutputType,
};
use wgsl_bindgen::ir::{
    AddressSpace, EntryPoint, GlobalVariable, Module, ResourceId, Scalar, ScalarKind, ShaderStage,
    StructMember, TypeDef, TypeInner,
};
use wgsl_bindgen::layout::WgslTypeMap;
use wgsl_bindgen::namespace::{NamespaceModule, NamespaceTree};
use wgsl_bindgen::decl::Declaration;
use wgsl_bindgen::CreateModuleError;
use wgsl_bindgen::WgslTypeSerializeStrategy;

fn f32_scalar() -> Scalar {
    Scalar { kind: ScalarKind::Float, width: 4 }
}

fn vec4f_type() -> TypeDef {
    TypeDef { name: None, inner: TypeInner::Vector { size: 4, scalar: f32_scalar() } }
}

fn plain_entry(name: &str, stage: ShaderStage) -> EntryPoint {
    EntryPoint {
        name: name.to_string(),
        stage,
        workgroup_size_x: 1,
        workgroup_size_y: 1,
        workgroup_size_z: 1,
        inputs: Vec::new(),
        used_globals: Vec::new(),
    }
}

fn uniform_var(name: &str, group: u32, binding: u32, ty: u32) -> GlobalVariable {
    GlobalVariable {
        name: name.to_string(),
        space: AddressSpace::Uniform,
        binding: Some(ResourceId { group, binding }),
        ty,
    }
}

fn shader_entry(module: Module, source: &str) -> ShaderEntry {
    ShaderEntry {
        mod_name: "test".to_string(),
        module,
        source: source.to_string(),
        entry_path: "shader.wgsl".to_string(),
        dependencies: Vec::new(),
    }
}

fn generate(module: Module, source: &str) -> Result<NamespaceTree, CreateModuleError> {
    create_rust_bindings(&vec![shader_entry(module, source)], &WgslBindgenOption::default())
}

fn module_named<'a>(tree: &'a NamespaceTree, name: &str) -> &'a NamespaceModule {
    tree.modules
        .iter()
        .find(|m| m.path == name)
        .unwrap_or_else(|| panic!("missing module"))
}

fn item_named<'a>(m: &'a NamespaceModule, name: &str) -> &'a Declaration {
    m.items.iter().find(|d| d.name == name).unwrap_or_else(|| panic!("missing item"))
}

#[test]
fn create_shader_module_embed_source() {
    let source = "\n@fragment\nfn fs_main() {}\n";
    let module = Module {
        types: Vec::new(),
        globals: Vec::new(),
        entry_points: vec![plain_entry("fs_main", ShaderStage::Fragment)],
    };
    let tree = generate(module, source).unwrap();

    assert_eq!(tree.modules[0].path, "_root");
    let test_mod = module_named(&tree, "test");
    let entry_const = item_named(test_mod, "ENTRY_FS_MAIN");
    match &entry_const.body {
        DeclBody::EntryConstant { value } => assert_eq!(value, "fs_main"),
        _ => panic!("wrong body"),
    }
    let layout = item_named(test_mod, "create_pipeline_layout");
    match &layout.body {
        DeclBody::PipelineLayout { group_count } => assert_eq!(*group_count, 0),
        _ => panic!("wrong body"),
    }
    let shader = item_named(test_mod, "create_shader_module");
    match &shader.body {
        DeclBody::ShaderModuleEmbed { source: s } => assert_eq!(s, source),
        _ => panic!("wrong body"),
    }
    // No bind groups, no compute module, no vertex scaffolding.
    assert!(test_mod.items.iter().all(|d| d.name != "bind_groups"));
    assert!(test_mod.items.iter().all(|d| d.name != "compute"));
    assert!(test_mod.items.iter().all(|d| d.name != "VertexEntry"));
}

fn consecutive_groups_module() -> Module {
    // struct A { f: vec4<f32> }; two uniforms of type A at groups 0 and 1.
    Module {
        types: vec![
            vec4f_type(),
            TypeDef {
                name: Some("A".to_string()),
                inner: TypeInner::Struct {
                    members: vec![StructMember {
                        name: "f".to_string(),
                        ty: 0,
                        location: None,
                    }],
                },
            },
        ],
        globals: vec![uniform_var("a", 0, 0, 1), uniform_var("b", 1, 0, 1)],
        entry_points: vec![
            plain_entry("vs_main", ShaderStage::Vertex),
            plain_entry("fs_main", ShaderStage::Fragment),
        ],
    }
}

#[test]
fn create_shader_module_consecutive_bind_groups() {
    let tree = generate(consecutive_groups_module(), "src").unwrap();
    let test_mod = module_named(&tree, "test");
    match &item_named(test_mod, "bind_groups").body {
        DeclBody::BindGroups { groups } => {
            assert_eq!(groups.len(), 2);
            assert_eq!(groups[0].len(), 1);
            assert_eq!(groups[1].len(), 1);
        }
        _ => panic!("wrong body"),
    }
}

#[test]
fn create_shader_module_non_consecutive_bind_groups() {
    let module = Module {
        types: vec![vec4f_type()],
        globals: vec![
            uniform_var("a", 0, 0, 0),
            uniform_var("b", 1, 0, 0),
            uniform_var("c", 3, 0, 0),
        ],
        entry_points: vec![plain_entry("main", ShaderStage::Fragment)],
    };
    let result = generate(module, "src");
    assert!(matches!(result, Err(CreateModuleError::NonConsecutiveBindGroups)));
}

#[test]
fn create_shader_module_repeated_bindings() {
    let module = Module {
        types: vec![
            vec4f_type(),
            TypeDef {
                name: Some("A".to_string()),
                inner: TypeInner::Struct {
                    members: vec![StructMember {
                        name: "f".to_string(),
                        ty: 0,
                        location: None,
                    }],
                },
            },
        ],
        globals: vec![uniform_var("a", 0, 2, 1), uniform_var("b", 0, 2, 1)],
        entry_points: vec![plain_entry("main", ShaderStage::Fragment)],
    };
    let result = generate(module, "src");
    assert!(matches!(result, Err(CreateModuleError::DuplicateBinding { binding: 2 })));
}

#[test]
fn one_descriptor_for_shared_struct_type() {
    // The same struct type behind two bindings yields one host struct
    // declaration and two resource bindings over groups {0, 1}.
    let tree = generate(consecutive_groups_module(), "src").unwrap();
    let test_mod = module_named(&tree, "test");
    let host_structs: Vec<&Declaration> = test_mod
        .items
        .iter()
        .filter(|d| matches!(d.body, DeclBody::HostStruct { .. }))
        .collect();
    assert_eq!(host_structs.len(), 1);
    assert_eq!(host_structs[0].name, "A");
    match &item_named(test_mod, "bind_groups").body {
        DeclBody::BindGroups { groups } => {
            assert_eq!(groups.len(), 2);
            assert_eq!(groups[0][0].group, 0);
            assert_eq!(groups[1][0].group, 1);
        }
        _ => panic!("wrong body"),
    }
}

#[test]
fn generation_is_reproducible() {
    let t1 = generate(consecutive_groups_module(), "src").unwrap();
    let t2 = generate(consecutive_groups_module(), "src").unwrap();
    assert_eq!(t1.modules.len(), t2.modules.len());
    for (a, b) in t1.modules.iter().zip(t2.modules.iter()) {
        assert_eq!(a.path, b.path);
        assert_eq!(a.items.len(), b.items.len());
        for (x, y) in a.items.iter().zip(b.items.iter()) {
            assert_eq!(x.name, y.name);
        }
    }
}

#[test]
fn inconsistent_declaration_is_refused() {
    let mut tree = NamespaceTree::new();
    tree.add(
        "m".to_string(),
        Declaration { name: "X".to_string(), body: DeclBody::PipelineLayout { group_count: 1 } },
    )
    .unwrap();
    // An identical duplicate is silently kept once.
    tree.add(
        "m".to_string(),
        Declaration { name: "X".to_string(), body: DeclBody::PipelineLayout { group_count: 1 } },
    )
    .unwrap();
    assert_eq!(tree.modules[0].items.len(), 1);
    // A same-identity declaration with a different body is an error.
    let err = tree.add(
        "m".to_string(),
        Declaration { name: "X".to_string(), body: DeclBody::PipelineLayout { group_count: 2 } },
    );
    assert!(matches!(err, Err(CreateModuleError::InconsistentDeclaration)));
}

#[test]
fn storage_texture_sampler_kinds() {
    let module = Module {
        types: vec![
            TypeDef { name: None, inner: TypeInner::Texture },
            TypeDef { name: None, inner: TypeInner::Sampler },
            vec4f_type(),
        ],
        globals: vec![
            GlobalVariable {
                name: "t".to_string(),
                space: AddressSpace::Handle,
                binding: Some(ResourceId { group: 0, binding: 0 }),
                ty: 0,
            },
            GlobalVariable {
                name: "s".to_string(),
                space: AddressSpace::Handle,
                binding: Some(ResourceId { group: 0, binding: 1 }),
                ty: 1,
            },
            GlobalVariable {
                name: "buf".to_string(),
                space: AddressSpace::Storage { read_only: true },
                binding: Some(ResourceId { group: 0, binding: 2 }),
                ty: 2,
            },
        ],
        entry_points: vec![{
            let mut e = plain_entry("fs", ShaderStage::Fragment);
            e.used_globals = vec![0, 1, 2];
            e
        }],
    };
    let table = get_bind_group_data(&module).unwrap();
    assert_eq!(table.groups.len(), 1);
    let g = &table.groups[0];
    assert_eq!(g.len(), 3);
    assert!(matches!(g[0].kind, ResourceKind::Texture));
    assert!(matches!(g[1].kind, ResourceKind::Sampler));
    assert!(matches!(g[2].kind, ResourceKind::StorageBuffer { read_only: true }));
    assert!(g[0].visibility.fragment && !g[0].visibility.vertex);
}

#[test]
fn composer_output_carries_dependencies() {
    let module = Module {
        types: Vec::new(),
        globals: Vec::new(),
        entry_points: vec![plain_entry("fs_main", ShaderStage::Fragment)],
    };
    let mut entry = shader_entry(module, "src");
    entry.dependencies = vec![Dependency {
        file_path: "util.wgsl".to_string(),
        as_name: Some("Util".to_string()),
    }];
    let options = WgslBindgenOption {
        serialization_strategy: WgslTypeSerializeStrategy::RuntimeEncoded,
        shader_source_output_type: WgslShaderSourceOutputType::Composer,
        type_map: WgslTypeMap { vectors: Vec::new(), matrices: Vec::new() },
    };
    let tree = create_rust_bindings(&vec![entry], &options).unwrap();
    let test_mod = module_named(&tree, "test");
    match &item_named(test_mod, "create_shader_module").body {
        DeclBody::ShaderModuleComposer { entry_path, deps } => {
            assert_eq!(entry_path, "shader.wgsl");
            assert_eq!(deps.len(), 1);
            assert_eq!(deps[0].file_path, "util.wgsl");
            assert_eq!(deps[0].as_name.as_deref(), Some("Util"));
        }
        _ => panic!("wrong body"),
    }
}
