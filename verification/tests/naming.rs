use wgsl_bindgen::decl::DeclBody;
use wgsl_bindgen::generate::{compute_module, entry_point_constants};
use wgsl_bindgen::ir::{
    EntryPoint, Module, Scalar, ScalarKind, ShaderStage, StructMember, TypeDef, TypeInner,
};
use wgsl_bindgen::layout::WgslTypeMap;
use wgsl_bindgen::mangle::{demangle, demangle_and_qualify, mangle};
use wgsl_bindgen::vertex::{get_vertex_input_structs, vertex_attributes, VertexFormat};

fn empty_map() -> WgslTypeMap {
    WgslTypeMap { vectors: Vec::new(), matrices: Vec::new() }
}

fn vertex_entry_with_inputs(name: &str, inputs: Vec<u32>) -> EntryPoint {
    EntryPoint {
        name: name.to_string(),
        stage: ShaderStage::Vertex,
        workgroup_size_x: 1,
        workgroup_size_y: 1,
        workgroup_size_z: 1,
        inputs,
        used_globals: Vec::new(),
    }
}

fn compute_entry(name: &str, x: u32, y: u32, z: u32) -> EntryPoint {
    EntryPoint {
        name: name.to_string(),
        stage: ShaderStage::Compute,
        workgroup_size_x: x,
        workgroup_size_y: y,
        workgroup_size_z: z,
        inputs: Vec::new(),
        used_globals: Vec::new(),
    }
}

/// A type arena holding a scalar and 2/3/4-component vectors of one
/// scalar kind, then one vertex input struct over them.
fn vertex_input_arena(kind: ScalarKind, width: u32, field_names: [&str; 4]) -> Vec<TypeDef> {
    let sc = Scalar { kind, width };
    let mut types = vec![
        TypeDef { name: None, inner: TypeInner::Scalar(sc) },
        TypeDef { name: None, inner: TypeInner::Vector { size: 2, scalar: sc } },
        TypeDef { name: None, inner: TypeInner::Vector { size: 3, scalar: sc } },
        TypeDef { name: None, inner: TypeInner::Vector { size: 4, scalar: sc } },
    ];
    let members: Vec<StructMember> = (0..4)
        .map(|k| StructMember {
            name: field_names[k as usize].to_string(),
            ty: k,
            location: Some(k),
        })
        .collect();
    types.push(TypeDef {
        name: Some("VertexInput0".to_string()),
        inner: TypeInner::Struct { members },
    });
    types
}

#[test]
fn write_vertex_module_empty() {
    let module = Module {
        types: Vec::new(),
        globals: Vec::new(),
        entry_points: vec![vertex_entry_with_inputs("main", Vec::new())],
    };
    assert!(get_vertex_input_structs(&module).is_empty());
}

#[test]
fn write_vertex_module_single_input_float32() {
    let types = vertex_input_arena(ScalarKind::Float, 4, ["a", "b", "c", "d"]);
    let (attrs, _stride) = vertex_attributes(&types, 4, &empty_map()).unwrap();
    let formats: Vec<VertexFormat> = attrs.iter().map(|a| a.format).collect();
    assert_eq!(
        formats,
        vec![
            VertexFormat::Float32,
            VertexFormat::Float32x2,
            VertexFormat::Float32x3,
            VertexFormat::Float32x4
        ]
    );
    let offsets: Vec<u32> = attrs.iter().map(|a| a.offset).collect();
    assert_eq!(offsets, vec![0, 4, 12, 24]);
    let locations: Vec<u32> = attrs.iter().map(|a| a.location).collect();
    assert_eq!(locations, vec![0, 1, 2, 3]);
}

#[test]
fn write_vertex_module_single_input_float64() {
    let types = vertex_input_arena(ScalarKind::Float, 8, ["a", "b", "c", "d"]);
    let (attrs, _stride) = vertex_attributes(&types, 4, &empty_map()).unwrap();
    let formats: Vec<VertexFormat> = attrs.iter().map(|a| a.format).collect();
    assert_eq!(
        formats,
        vec![
            VertexFormat::Float64,
            VertexFormat::Float64x2,
            VertexFormat::Float64x3,
            VertexFormat::Float64x4
        ]
    );
    let offsets: Vec<u32> = attrs.iter().map(|a| a.offset).collect();
    assert_eq!(offsets, vec![0, 8, 24, 48]);
}

#[test]
fn write_vertex_module_single_input_sint32() {
    let types = vertex_input_arena(ScalarKind::Sint, 4, ["a", "a", "a", "a"]);
    let (attrs, _stride) = vertex_attributes(&types, 4, &empty_map()).unwrap();
    let formats: Vec<VertexFormat> = attrs.iter().map(|a| a.format).collect();
    assert_eq!(
        formats,
        vec![
            VertexFormat::Sint32,
            VertexFormat::Sint32x2,
            VertexFormat::Sint32x3,
            VertexFormat::Sint32x4
        ]
    );
}

#[test]
fn write_vertex_module_single_input_uint32() {
    let types = vertex_input_arena(ScalarKind::Uint, 4, ["a", "b", "c", "d"]);
    let (attrs, _stride) = vertex_attributes(&types, 4, &empty_map()).unwrap();
    let formats: Vec<VertexFormat> = attrs.iter().map(|a| a.format).collect();
    assert_eq!(
        formats,
        vec![
            VertexFormat::Uint32,
            VertexFormat::Uint32x2,
            VertexFormat::Uint32x3,
            VertexFormat::Uint32x4
        ]
    );
}

#[test]
fn vertex_attribute_error_names_member_type() {
    // A located member without a vertex format (a boolean scalar)
    // fails, and the error names that member's type index.
    let sc = Scalar { kind: ScalarKind::Bool, width: 4 };
    let types = vec![
        TypeDef { name: None, inner: TypeInner::Scalar(sc) },
        TypeDef {
            name: Some("In".to_string()),
            inner: TypeInner::Struct {
                members: vec![StructMember {
                    name: "flag".to_string(),
                    ty: 0,
                    location: Some(0),
                }],
            },
        },
    ];
    let r = vertex_attributes(&types, 1, &empty_map());
    assert!(matches!(
        r,
        Err(wgsl_bindgen::CreateModuleError::UnsupportedType { ty: 0 })
    ));
}

#[test]
fn write_compute_module_empty() {
    let module = Module {
        types: Vec::new(),
        globals: Vec::new(),
        entry_points: vec![vertex_entry_with_inputs("main", Vec::new())],
    };
    assert!(compute_module(&module).is_none());
}

#[test]
fn write_compute_module_multiple_entries() {
    let module = Module {
        types: Vec::new(),
        globals: Vec::new(),
        entry_points: vec![compute_entry("main1", 1, 2, 3), compute_entry("main2", 256, 1, 1)],
    };
    let decl = compute_module(&module).unwrap();
    assert_eq!(decl.name, "compute");
    match decl.body {
        DeclBody::ComputeModule { entries } => {
            assert_eq!(entries.len(), 2);
            assert_eq!(entries[0].const_name, "MAIN1_WORKGROUP_SIZE");
            assert_eq!(entries[0].pipeline_fn, "create_main1_pipeline");
            assert_eq!(entries[0].label, "Compute Pipeline main1");
            assert_eq!((entries[0].x, entries[0].y, entries[0].z), (1, 2, 3));
            assert_eq!(entries[1].const_name, "MAIN2_WORKGROUP_SIZE");
            assert_eq!(entries[1].pipeline_fn, "create_main2_pipeline");
            assert_eq!(entries[1].label, "Compute Pipeline main2");
            assert_eq!((entries[1].x, entries[1].y, entries[1].z), (256, 1, 1));
        }
        _ => panic!("wrong body"),
    }
}

#[test]
fn write_entry_constants() {
    let mk = |name: &str, stage: ShaderStage| EntryPoint {
        name: name.to_string(),
        stage,
        workgroup_size_x: 1,
        workgroup_size_y: 1,
        workgroup_size_z: 1,
        inputs: Vec::new(),
        used_globals: Vec::new(),
    };
    let module = Module {
        types: Vec::new(),
        globals: Vec::new(),
        entry_points: vec![
            mk("vs_main", ShaderStage::Vertex),
            mk("another_vs", ShaderStage::Vertex),
            mk("fs_main", ShaderStage::Fragment),
            mk("another_fs", ShaderStage::Fragment),
        ],
    };
    let consts = entry_point_constants(&module);
    let names: Vec<&str> = consts.iter().map(|d| d.name.as_str()).collect();
    assert_eq!(
        names,
        vec!["ENTRY_VS_MAIN", "ENTRY_ANOTHER_VS", "ENTRY_FS_MAIN", "ENTRY_ANOTHER_FS"]
    );
    for (d, expected) in consts.iter().zip(["vs_main", "another_vs", "fs_main", "another_fs"]) {
        match &d.body {
            DeclBody::EntryConstant { value } => assert_eq!(value, expected),
            _ => panic!("wrong body"),
        }
    }
}

#[test]
fn should_fully_qualify_mangled_string() {
    let string = "UniformsX_naga_oil_mod_XOR4XAZLTX";
    let actual = demangle_and_qualify(string);
    assert_eq!(actual, "_root::types::Uniforms");
}

#[test]
fn should_not_fully_qualify_non_mangled_string() {
    let string = "MatricesF64";
    let actual = demangle_and_qualify(string);
    assert_eq!(actual, "MatricesF64");
}

#[test]
fn demangling_inverts_mangling_on_samples() {
    for (path, name) in [
        ("types", "Uniforms"),
        ("a::b", "fs_main"),
        ("geometry", "X_naga"),
        ("m", "x"),
    ] {
        let mangled = mangle(path, name);
        let joined = demangle(&mangled);
        assert_eq!(joined, format!("{}::{}", path, name));
    }
    assert_eq!(mangle("types", "Uniforms"), "UniformsX_naga_oil_mod_XOR4XAZLTX");
}
