use wgsl_bindgen::decl::DeclBody;
use wgsl_bindgen::generate::{create_rust_bindings, ShaderEntry, WgslBindgenOption};
use wgsl_bindgen::ir::{
    AddressSpace, EntryPoint, GlobalVariable, Module, ResourceId, Scalar, ScalarKind, ShaderStage,
    StructMember, TypeDef, TypeInner,
};
use wgsl_bindgen::layout::{
    build_struct, gpu_align, gpu_size, validate_type_map, VectorMapEntry, WgslTypeMap,
};
use wgsl_bindgen::CreateModuleError;
use wgsl_bindgen::WgslTypeSerializeStrategy;

fn empty_map() -> WgslTypeMap {
    WgslTypeMap { vectors: Vec::new(), matrices: Vec::new() }
}

fn f32_scalar() -> Scalar {
    Scalar { kind: ScalarKind::Float, width: 4 }
}

/// struct S { a: vec3<f32>, b: f32 } over a small arena.
fn vec3_struct_arena() -> Vec<TypeDef> {
    vec![
        TypeDef { name: None, inner: TypeInner::Scalar(f32_scalar()) },
        TypeDef { name: None, inner: TypeInner::Vector { size: 3, scalar: f32_scalar() } },
        TypeDef {
            name: Some("S".to_string()),
            inner: TypeInner::Struct {
                members: vec![
                    StructMember { name: "a".to_string(), ty: 1, location: None },
                    StructMember { name: "b".to_string(), ty: 0, location: None },
                ],
            },
        },
    ]
}

#[test]
fn uniform_rounds_vec3_to_sixteen() {
    let types = vec3_struct_arena();
    // vec3<f32>: size 12, alignment 16 under either usage.
    assert_eq!(gpu_size(&types, 1, true), Ok(12));
    assert_eq!(gpu_align(&types, 1, true), 16);
    // The struct under uniform rules: b lands at offset 12, and the
    // total is rounded to the 16-byte struct alignment.
    assert_eq!(gpu_size(&types, 2, true), Ok(16));
    assert_eq!(gpu_align(&types, 2, true), 16);
    // Storage rules keep the same packing here, but the struct
    // alignment stays natural.
    assert_eq!(gpu_align(&types, 0, false), 4);
}

#[test]
fn direct_reinterpret_matches_gpu_layout() {
    // The built host record's size and alignment equal the
    // GPU-mandated size and alignment for the declared usage.
    let types = vec3_struct_arena();
    let built = build_struct(
        &types,
        2,
        &empty_map(),
        WgslTypeSerializeStrategy::DirectReinterpret,
        true,
    )
    .unwrap();
    assert_eq!(built.size, 16);
    assert_eq!(built.align, 16);
    assert_eq!(built.fields.len(), 2);
    assert_eq!(built.fields[0].offset, 0);
    assert_eq!(built.fields[1].offset, 12);
    assert_eq!(built.fields[0].host_name, "[f32; 3]");
    assert_eq!(built.fields[1].host_name, "f32");
    assert_eq!(built.name, "S");
}

#[test]
fn runtime_encoded_uses_gpu_offsets() {
    let types = vec3_struct_arena();
    let built = build_struct(
        &types,
        2,
        &empty_map(),
        WgslTypeSerializeStrategy::RuntimeEncoded,
        false,
    )
    .unwrap();
    // Storage rules: the vec3 member still aligns to 16, b lands at
    // byte 12, and the struct inherits the 16-byte member alignment.
    assert_eq!(built.fields[1].offset, 12);
    assert_eq!(built.size, 16);
    assert_eq!(built.align, 16);
}

#[test]
fn custom_vector_map_is_validated_eagerly() {
    // size below the component footprint is a configuration error.
    let bad = WgslTypeMap {
        vectors: vec![VectorMapEntry {
            size: 4,
            scalar: f32_scalar(),
            host_name: "Vec4".to_string(),
            host_size: 8,
            host_align: 4,
        }],
        matrices: Vec::new(),
    };
    assert!(matches!(
        validate_type_map(&bad),
        Err(CreateModuleError::LayoutConflict { ty: 0 })
    ));
    let good = WgslTypeMap {
        vectors: vec![VectorMapEntry {
            size: 4,
            scalar: f32_scalar(),
            host_name: "Vec4".to_string(),
            host_size: 16,
            host_align: 16,
        }],
        matrices: Vec::new(),
    };
    assert!(validate_type_map(&good).is_ok());
}

#[test]
fn unsupported_type_is_reported() {
    // A texture behind a uniform struct member has no host mapping.
    let types = vec![
        TypeDef { name: None, inner: TypeInner::Texture },
        TypeDef {
            name: Some("Bad".to_string()),
            inner: TypeInner::Struct {
                members: vec![StructMember { name: "t".to_string(), ty: 0, location: None }],
            },
        },
    ];
    let r = build_struct(
        &types,
        1,
        &empty_map(),
        WgslTypeSerializeStrategy::RuntimeEncoded,
        false,
    );
    assert!(matches!(r, Err(CreateModuleError::UnsupportedType { ty: 0 })));
}

#[test]
fn orchestrator_propagates_first_structural_error() {
    // A named struct holding a texture member cannot be laid out; the
    // whole run fails with that structured error, no partial tree.
    let types = vec![
        TypeDef { name: None, inner: TypeInner::Texture },
        TypeDef {
            name: Some("Bad".to_string()),
            inner: TypeInner::Struct {
                members: vec![StructMember { name: "t".to_string(), ty: 0, location: None }],
            },
        },
    ];
    let module = Module {
        types,
        globals: vec![GlobalVariable {
            name: "b".to_string(),
            space: AddressSpace::Uniform,
            binding: Some(ResourceId { group: 0, binding: 0 }),
            ty: 1,
        }],
        entry_points: vec![EntryPoint {
            name: "main".to_string(),
            stage: ShaderStage::Fragment,
            workgroup_size_x: 1,
            workgroup_size_y: 1,
            workgroup_size_z: 1,
            inputs: Vec::new(),
            used_globals: vec![0],
        }],
    };
    let entry = ShaderEntry {
        mod_name: "test".to_string(),
        module,
        source: "src".to_string(),
        entry_path: "p".to_string(),
        dependencies: Vec::new(),
    };
    let r = create_rust_bindings(&vec![entry], &WgslBindgenOption::default());
    assert!(matches!(r, Err(CreateModuleError::UnsupportedType { ty: 0 })));
}

#[test]
fn vertex_states_decls_follow_entries() {
    // One vertex entry over two input structs: one accessor with both
    // buffers, snake-case step-mode parameters; a fragment-only module
    // emits no vertex scaffolding at all.
    let types = vec![
        TypeDef { name: None, inner: TypeInner::Vector { size: 4, scalar: f32_scalar() } },
        TypeDef {
            name: Some("Input0".to_string()),
            inner: TypeInner::Struct {
                members: vec![StructMember {
                    name: "position".to_string(),
                    ty: 0,
                    location: Some(0),
                }],
            },
        },
        TypeDef {
            name: Some("Input1".to_string()),
            inner: TypeInner::Struct {
                members: vec![StructMember {
                    name: "some_data".to_string(),
                    ty: 0,
                    location: Some(1),
                }],
            },
        },
    ];
    let module = Module {
        types,
        globals: Vec::new(),
        entry_points: vec![EntryPoint {
            name: "vs_main".to_string(),
            stage: ShaderStage::Vertex,
            workgroup_size_x: 1,
            workgroup_size_y: 1,
            workgroup_size_z: 1,
            inputs: vec![1, 2],
            used_globals: Vec::new(),
        }],
    };
    let entry = ShaderEntry {
        mod_name: "test".to_string(),
        module,
        source: "src".to_string(),
        entry_path: "p".to_string(),
        dependencies: Vec::new(),
    };
    let tree = create_rust_bindings(&vec![entry], &WgslBindgenOption::default()).unwrap();
    let test_mod = tree.modules.iter().find(|m| m.path == "test").unwrap();
    assert!(test_mod.items.iter().any(|d| d.name == "VertexEntry"));
    let accessor = test_mod.items.iter().find(|d| d.name == "vs_main_entry").unwrap();
    match &accessor.body {
        DeclBody::VertexEntryFn { fn_name, const_name, params, buffers } => {
            assert_eq!(fn_name, "vs_main_entry");
            assert_eq!(const_name, "ENTRY_VS_MAIN");
            assert_eq!(params, &vec!["input0".to_string(), "input1".to_string()]);
            assert_eq!(buffers, &vec!["Input0".to_string(), "Input1".to_string()]);
        }
        _ => panic!("wrong body"),
    }
}

#[test]
fn write_vertex_shader_entry_no_buffers() {
    let module = Module {
        types: Vec::new(),
        globals: Vec::new(),
        entry_points: vec![EntryPoint {
            name: "vs_main".to_string(),
            stage: ShaderStage::Vertex,
            workgroup_size_x: 1,
            workgroup_size_y: 1,
            workgroup_size_z: 1,
            inputs: Vec::new(),
            used_globals: Vec::new(),
        }],
    };
    let entry = ShaderEntry {
        mod_name: "test".to_string(),
        module,
        source: "src".to_string(),
        entry_path: "p".to_string(),
        dependencies: Vec::new(),
    };
    let tree = create_rust_bindings(&vec![entry], &WgslBindgenOption::default()).unwrap();
    let test_mod = tree.modules.iter().find(|m| m.path == "test").unwrap();
    let accessor = test_mod.items.iter().find(|d| d.name == "vs_main_entry").unwrap();
    match &accessor.body {
        DeclBody::VertexEntryFn { buffers, params, .. } => {
            assert!(buffers.is_empty());
            assert!(params.is_empty());
        }
        _ => panic!("wrong body"),
    }
}

#[test]
fn write_vertex_shader_multiple_entries() {
    let types = vec![
        TypeDef { name: None, inner: TypeInner::Vector { size: 4, scalar: f32_scalar() } },
        TypeDef {
            name: Some("VertexInput".to_string()),
            inner: TypeInner::Struct {
                members: vec![StructMember {
                    name: "position".to_string(),
                    ty: 0,
                    location: Some(0),
                }],
            },
        },
    ];
    let mk = |name: &str| EntryPoint {
        name: name.to_string(),
        stage: ShaderStage::Vertex,
        workgroup_size_x: 1,
        workgroup_size_y: 1,
        workgroup_size_z: 1,
        inputs: vec![1],
        used_globals: Vec::new(),
    };
    let module =
        Module { types, globals: Vec::new(), entry_points: vec![mk("vs_main_1"), mk("vs_main_2")] };
    let entry = ShaderEntry {
        mod_name: "test".to_string(),
        module,
        source: "src".to_string(),
        entry_path: "p".to_string(),
        dependencies: Vec::new(),
    };
    let tree = create_rust_bindings(&vec![entry], &WgslBindgenOption::default()).unwrap();
    let test_mod = tree.modules.iter().find(|m| m.path == "test").unwrap();
    for fn_name in ["vs_main_1_entry", "vs_main_2_entry"] {
        let accessor = test_mod.items.iter().find(|d| d.name == fn_name).unwrap();
        match &accessor.body {
            DeclBody::VertexEntryFn { buffers, params, .. } => {
                assert_eq!(buffers, &vec!["VertexInput".to_string()]);
                assert_eq!(params, &vec!["vertex_input".to_string()]);
            }
            _ => panic!("wrong body"),
        }
    }
}

#[test]
fn write_vertex_shader_entry_multiple_buffers() {
    // Covered in structured form by vertex_states_decls_follow_entries;
    // this checks the attribute impls exist for both buffers.
    let types = vec![
        TypeDef { name: None, inner: TypeInner::Vector { size: 4, scalar: f32_scalar() } },
        TypeDef {
            name: Some("Input0".to_string()),
            inner: TypeInner::Struct {
                members: vec![StructMember {
                    name: "position".to_string(),
                    ty: 0,
                    location: Some(0),
                }],
            },
        },
        TypeDef {
            name: Some("Input1".to_string()),
            inner: TypeInner::Struct {
                members: vec![StructMember {
                    name: "some_data".to_string(),
                    ty: 0,
                    location: Some(1),
                }],
            },
        },
    ];
    let module = Module {
        types,
        globals: Vec::new(),
        entry_points: vec![EntryPoint {
            name: "vs_main".to_string(),
            stage: ShaderStage::Vertex,
            workgroup_size_x: 1,
            workgroup_size_y: 1,
            workgroup_size_z: 1,
            inputs: vec![1, 2],
            used_globals: Vec::new(),
        }],
    };
    let entry = ShaderEntry {
        mod_name: "test".to_string(),
        module,
        source: "src".to_string(),
        entry_path: "p".to_string(),
        dependencies: Vec::new(),
    };
    let tree = create_rust_bindings(&vec![entry], &WgslBindgenOption::default()).unwrap();
    let test_mod = tree.modules.iter().find(|m| m.path == "test").unwrap();
    let impls: Vec<String> = test_mod
        .items
        .iter()
        .filter_map(|d| match &d.body {
            DeclBody::VertexAttributesImpl { struct_name, .. } => Some(struct_name.clone()),
            _ => None,
        })
        .collect();
    assert_eq!(impls, vec!["Input0".to_string(), "Input1".to_string()]);
}

#[test]
fn write_vertex_states_no_entries() {
    // A fragment entry with a struct input emits no vertex scaffolding.
    let types = vec![
        TypeDef { name: None, inner: TypeInner::Vector { size: 4, scalar: f32_scalar() } },
        TypeDef {
            name: Some("Input".to_string()),
            inner: TypeInner::Struct {
                members: vec![StructMember {
                    name: "position".to_string(),
                    ty: 0,
                    location: Some(0),
                }],
            },
        },
    ];
    let module = Module {
        types,
        globals: Vec::new(),
        entry_points: vec![EntryPoint {
            name: "main".to_string(),
            stage: ShaderStage::Fragment,
            workgroup_size_x: 1,
            workgroup_size_y: 1,
            workgroup_size_z: 1,
            inputs: vec![1],
            used_globals: Vec::new(),
        }],
    };
    let entry = ShaderEntry {
        mod_name: "test".to_string(),
        module,
        source: "src".to_string(),
        entry_path: "p".to_string(),
        dependencies: Vec::new(),
    };
    let tree = create_rust_bindings(&vec![entry], &WgslBindgenOption::default()).unwrap();
    let test_mod = tree.modules.iter().find(|m| m.path == "test").unwrap();
    assert!(test_mod.items.iter().all(|d| d.name != "VertexEntry"));
    assert!(test_mod
        .items
        .iter()
        .all(|d| !matches!(d.body, DeclBody::VertexEntryFn { .. })));
}

#[test]
fn mangled_struct_lands_in_shared_root_path() {
    // A struct whose name carries a composition mangle is declared
    // under its origin module path, not the entry's module.
    let types = vec![
        TypeDef { name: None, inner: TypeInner::Vector { size: 4, scalar: f32_scalar() } },
        TypeDef {
            name: Some("UniformsX_naga_oil_mod_XOR4XAZLTX".to_string()),
            inner: TypeInner::Struct {
                members: vec![StructMember { name: "color".to_string(), ty: 0, location: None }],
            },
        },
    ];
    let module = Module {
        types,
        globals: vec![GlobalVariable {
            name: "uniforms".to_string(),
            space: AddressSpace::Uniform,
            binding: Some(ResourceId { group: 0, binding: 0 }),
            ty: 1,
        }],
        entry_points: vec![EntryPoint {
            name: "fs_main".to_string(),
            stage: ShaderStage::Fragment,
            workgroup_size_x: 1,
            workgroup_size_y: 1,
            workgroup_size_z: 1,
            inputs: Vec::new(),
            used_globals: vec![0],
        }],
    };
    let entry = ShaderEntry {
        mod_name: "test".to_string(),
        module,
        source: "src".to_string(),
        entry_path: "p".to_string(),
        dependencies: Vec::new(),
    };
    let tree = create_rust_bindings(&vec![entry], &WgslBindgenOption::default()).unwrap();
    let shared = tree.modules.iter().find(|m| m.path == "types").unwrap();
    let decl = shared.items.iter().find(|d| d.name == "Uniforms").unwrap();
    match &decl.body {
        DeclBody::HostStruct { host_name, .. } => {
            assert_eq!(host_name, "_root::types::Uniforms");
        }
        _ => panic!("wrong body"),
    }
}
