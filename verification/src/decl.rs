//! Declarations: the emittable units of generated code.
//!
//! Each declaration carries a name and a structured body; the external
//! emitter turns bodies into source text. Declarations are the unit of
//! deduplication in the namespace tree, compared by their views: two
//! declarations are the same when their names and body contents agree.

use vstd::prelude::*;

verus! {

use crate::bindgroup::{ResourceBinding, ResourceKind, StageSet};
use crate::layout::FieldLayout;
use crate::vertex::VertexAttribute;

/// One shader file dependency, passed through to the emitted
/// shader-loading code: a file identity and an optional alias.
#[derive(Debug, Clone)]
pub struct Dependency {
    pub file_path: String,
    pub as_name: Option<String>,
}

/// One compute entry point's generated items: its workgroup-size
/// constant and its pipeline constructor.
#[derive(Debug, Clone)]
pub struct ComputeEntry {
    pub entry_point: String,
    pub const_name: String,
    pub pipeline_fn: String,
    pub label: String,
    pub x: u32,
    pub y: u32,
    pub z: u32,
}

/// The body of one declaration.
#[derive(Debug)]
pub enum DeclBody {
    EntryConstant { value: String },
    PipelineLayout { group_count: u64 },
    ShaderModuleEmbed { source: String },
    ShaderModuleComposer { entry_path: String, deps: Vec<Dependency> },
    BindGroups { groups: Vec<Vec<ResourceBinding>> },
    VertexAttributesImpl { struct_name: String, stride: u32, attributes: Vec<VertexAttribute> },
    VertexStateScaffold,
    VertexEntryFn { fn_name: String, const_name: String, params: Vec<String>, buffers: Vec<
        String,
    > },
    ComputeModule { entries: Vec<ComputeEntry> },
    HostStruct { host_name: String, fields: Vec<FieldLayout>, size: u32, align: u32, encode: bool },
    RootPrelude { direct: bool },
}

/// One emittable declaration.
#[derive(Debug)]
pub struct Declaration {
    pub name: String,
    pub body: DeclBody,
}

/// The view of a resource binding.
#[verifier::ext_equal]
pub struct ResourceBindingV {
    pub name: Seq<char>,
    pub group: u32,
    pub binding: u32,
    pub kind: ResourceKind,
    pub visibility: StageSet,
    pub ty: u32,
}

impl View for ResourceBinding {
    type V = ResourceBindingV;

    open spec fn view(&self) -> ResourceBindingV {
        ResourceBindingV {
            name: self.name@,
            group: self.group,
            binding: self.binding,
            kind: self.kind,
            visibility: self.visibility,
            ty: self.ty,
        }
    }
}

/// The view of a field layout.
#[verifier::ext_equal]
pub struct FieldLayoutV {
    pub name: Seq<char>,
    pub ty: u32,
    pub offset: u32,
    pub size: u32,
    pub host_name: Seq<char>,
    pub host_size: u32,
    pub host_align: u32,
}

impl View for FieldLayout {
    type V = FieldLayoutV;

    open spec fn view(&self) -> FieldLayoutV {
        FieldLayoutV {
            name: self.name@,
            ty: self.ty,
            offset: self.offset,
            size: self.size,
            host_name: self.host_name@,
            host_size: self.host_size,
            host_align: self.host_align,
        }
    }
}

/// The view of a dependency.
#[verifier::ext_equal]
pub struct DependencyV {
    pub file_path: Seq<char>,
    pub as_name: Option<Seq<char>>,
}

impl View for Dependency {
    type V = DependencyV;

    open spec fn view(&self) -> DependencyV {
        DependencyV {
            file_path: self.file_path@,
            as_name: match self.as_name {
                Some(s) => Some(s@),
                None => None,
            },
        }
    }
}

/// The view of a compute entry.
#[verifier::ext_equal]
pub struct ComputeEntryV {
    pub entry_point: Seq<char>,
    pub const_name: Seq<char>,
    pub pipeline_fn: Seq<char>,
    pub label: Seq<char>,
    pub x: u32,
    pub y: u32,
    pub z: u32,
}

impl View for ComputeEntry {
    type V = ComputeEntryV;

    open spec fn view(&self) -> ComputeEntryV {
        ComputeEntryV {
            entry_point: self.entry_point@,
            const_name: self.const_name@,
            pipeline_fn: self.pipeline_fn@,
            label: self.label@,
            x: self.x,
            y: self.y,
            z: self.z,
        }
    }
}

/// The view of a declaration body.
#[verifier::ext_equal]
pub enum DeclBodyV {
    EntryConstant { value: Seq<char> },
    PipelineLayout { group_count: u64 },
    ShaderModuleEmbed { source: Seq<char> },
    ShaderModuleComposer { entry_path: Seq<char>, deps: Seq<DependencyV> },
    BindGroups { groups: Seq<Seq<ResourceBindingV>> },
    VertexAttributesImpl { struct_name: Seq<char>, stride: u32, attributes: Seq<VertexAttribute> },
    VertexStateScaffold,
    VertexEntryFn { fn_name: Seq<char>, const_name: Seq<char>, params: Seq<Seq<char>>, buffers: Seq<
        Seq<char>,
    > },
    ComputeModule { entries: Seq<ComputeEntryV> },
    HostStruct { host_name: Seq<char>, fields: Seq<FieldLayoutV>, size: u32, align: u32, encode: bool },
    RootPrelude { direct: bool },
}

impl View for DeclBody {
    type V = DeclBodyV;

    open spec fn view(&self) -> DeclBodyV {
        match self {
            DeclBody::EntryConstant { value } => DeclBodyV::EntryConstant { value: value@ },
            DeclBody::PipelineLayout { group_count } => DeclBodyV::PipelineLayout {
                group_count: *group_count,
            },
            DeclBody::ShaderModuleEmbed { source } => DeclBodyV::ShaderModuleEmbed {
                source: source@,
            },
            DeclBody::ShaderModuleComposer { entry_path, deps } => (
            DeclBodyV::ShaderModuleComposer {
                entry_path: entry_path@,
                deps: deps.deep_view(),
            }),
            DeclBody::BindGroups { groups } => (DeclBodyV::BindGroups {
                groups: groups.deep_view(),
            }),
            DeclBody::VertexAttributesImpl { struct_name, stride, attributes } => (
            DeclBodyV::VertexAttributesImpl {
                struct_name: struct_name@,
                stride: *stride,
                attributes: attributes@,
            }),
            DeclBody::VertexStateScaffold => DeclBodyV::VertexStateScaffold,
            DeclBody::VertexEntryFn { fn_name, const_name, params, buffers } => (
            DeclBodyV::VertexEntryFn {
                fn_name: fn_name@,
                const_name: const_name@,
                params: params.deep_view(),
                buffers: buffers.deep_view(),
            }),
            DeclBody::ComputeModule { entries } => (DeclBodyV::ComputeModule {
                entries: entries.deep_view(),
            }),
            DeclBody::HostStruct { host_name, fields, size, align, encode } => (
            DeclBodyV::HostStruct {
                host_name: host_name@,
                fields: fields.deep_view(),
                size: *size,
                align: *align,
                encode: *encode,
            }),
            DeclBody::RootPrelude { direct } => DeclBodyV::RootPrelude { direct: *direct },
        }
    }
}

impl DeepView for ResourceBinding {
    type V = ResourceBindingV;

    open spec fn deep_view(&self) -> ResourceBindingV {
        self@
    }
}

impl DeepView for FieldLayout {
    type V = FieldLayoutV;

    open spec fn deep_view(&self) -> FieldLayoutV {
        self@
    }
}

impl DeepView for Dependency {
    type V = DependencyV;

    open spec fn deep_view(&self) -> DependencyV {
        self@
    }
}

impl DeepView for ComputeEntry {
    type V = ComputeEntryV;

    open spec fn deep_view(&self) -> ComputeEntryV {
        self@
    }
}

/// The view of a declaration.
#[verifier::ext_equal]
pub struct DeclarationV {
    pub name: Seq<char>,
    pub body: DeclBodyV,
}

impl View for Declaration {
    type V = DeclarationV;

    open spec fn view(&self) -> DeclarationV {
        DeclarationV { name: self.name@, body: self.body@ }
    }
}

impl DeepView for Declaration {
    type V = DeclarationV;

    open spec fn deep_view(&self) -> DeclarationV {
        self@
    }
}

/// Whether two string vectors hold the same texts.
fn strings_eq(a: &Vec<String>, b: &Vec<String>) -> (r: bool)
    ensures
        r == (a.deep_view() == b.deep_view()),
{
    if a.len() != b.len() {
        proof {
            assert(a.deep_view().len() == a@.len());
            assert(b.deep_view().len() == b@.len());
        }
        return false;
    }
    let mut i: usize = 0;
    while i < a.len()
        invariant
            i <= a@.len(),
            a@.len() == b@.len(),
            forall|t: int| 0 <= t < i ==> #[trigger] a@[t]@ == b@[t]@,
        decreases a@.len() - i,
    {
        if !a[i].eq(&b[i]) {
            proof {
                assert(a.deep_view()[i as int] == a@[i as int]@);
                assert(b.deep_view()[i as int] == b@[i as int]@);
            }
            return false;
        }
        i = i + 1;
    }
    proof {
        assert(a.deep_view() =~= b.deep_view()) by {
            assert(forall|t: int|
                0 <= t < a@.len() ==> #[trigger] a.deep_view()[t] == a@[t]@ && b.deep_view()[t]
                    == b@[t]@);
        }
    }
    true
}

/// Whether two resource bindings agree.
fn rb_eq(a: &ResourceBinding, b: &ResourceBinding) -> (r: bool)
    ensures
        r == (a@ == b@),
{
    a.name.eq(&b.name) && a.group == b.group && a.binding == b.binding && a.kind == b.kind
        && a.visibility == b.visibility && a.ty == b.ty
}

fn rbs_eq(a: &Vec<ResourceBinding>, b: &Vec<ResourceBinding>) -> (r: bool)
    ensures
        r == (a.deep_view() == b.deep_view()),
{
    if a.len() != b.len() {
        proof {
            assert(a.deep_view().len() == a@.len());
            assert(b.deep_view().len() == b@.len());
        }
        return false;
    }
    let mut i: usize = 0;
    while i < a.len()
        invariant
            i <= a@.len(),
            a@.len() == b@.len(),
            forall|t: int| 0 <= t < i ==> #[trigger] a@[t]@ == b@[t]@,
        decreases a@.len() - i,
    {
        if !rb_eq(&a[i], &b[i]) {
            proof {
                assert(a.deep_view()[i as int] == a@[i as int]@);
                assert(b.deep_view()[i as int] == b@[i as int]@);
            }
            return false;
        }
        i = i + 1;
    }
    proof {
        assert(a.deep_view() =~= b.deep_view()) by {
            assert(forall|t: int|
                0 <= t < a@.len() ==> #[trigger] a.deep_view()[t] == a@[t]@ && b.deep_view()[t]
                    == b@[t]@);
        }
    }
    true
}

fn rbss_eq(a: &Vec<Vec<ResourceBinding>>, b: &Vec<Vec<ResourceBinding>>) -> (r: bool)
    ensures
        r == (a.deep_view() == b.deep_view()),
{
    if a.len() != b.len() {
        proof {
            assert(a.deep_view().len() == a@.len());
            assert(b.deep_view().len() == b@.len());
        }
        return false;
    }
    let mut i: usize = 0;
    while i < a.len()
        invariant
            i <= a@.len(),
            a@.len() == b@.len(),
            forall|t: int| 0 <= t < i ==> #[trigger] a@[t].deep_view() == b@[t].deep_view(),
        decreases a@.len() - i,
    {
        if !rbs_eq(&a[i], &b[i]) {
            proof {
                assert(a.deep_view()[i as int] == a@[i as int].deep_view());
                assert(b.deep_view()[i as int] == b@[i as int].deep_view());
            }
            return false;
        }
        i = i + 1;
    }
    proof {
        assert(a.deep_view() =~= b.deep_view()) by {
            assert(forall|t: int|
                0 <= t < a@.len() ==> #[trigger] a.deep_view()[t] == a@[t].deep_view()
                    && b.deep_view()[t] == b@[t].deep_view());
        }
    }
    true
}

fn attrs_eq(a: &Vec<VertexAttribute>, b: &Vec<VertexAttribute>) -> (r: bool)
    ensures
        r == (a@ == b@),
{
    if a.len() != b.len() {
        return false;
    }
    let mut i: usize = 0;
    while i < a.len()
        invariant
            i <= a@.len(),
            a@.len() == b@.len(),
            forall|t: int| 0 <= t < i ==> a@[t] == b@[t],
        decreases a@.len() - i,
    {
        if !(a[i] == b[i]) {
            return false;
        }
        i = i + 1;
    }
    proof {
        assert(a@ =~= b@);
    }
    true
}

pub fn fields_eq(a: &Vec<FieldLayout>, b: &Vec<FieldLayout>) -> (r: bool)
    ensures
        r == (a.deep_view() == b.deep_view()),
{
    if a.len() != b.len() {
        proof {
            assert(a.deep_view().len() == a@.len());
            assert(b.deep_view().len() == b@.len());
        }
        return false;
    }
    let mut i: usize = 0;
    while i < a.len()
        invariant
            i <= a@.len(),
            a@.len() == b@.len(),
            forall|t: int| 0 <= t < i ==> #[trigger] a@[t]@ == b@[t]@,
        decreases a@.len() - i,
    {
        let x = &a[i];
        let y = &b[i];
        let same = x.name.eq(&y.name) && x.ty == y.ty && x.offset == y.offset && x.size == y.size
            && x.host_name.eq(&y.host_name) && x.host_size == y.host_size && x.host_align
            == y.host_align;
        if !same {
            proof {
                assert(a.deep_view()[i as int] == a@[i as int]@);
                assert(b.deep_view()[i as int] == b@[i as int]@);
            }
            return false;
        }
        i = i + 1;
    }
    proof {
        assert(a.deep_view() =~= b.deep_view()) by {
            assert(forall|t: int|
                0 <= t < a@.len() ==> #[trigger] a.deep_view()[t] == a@[t]@ && b.deep_view()[t]
                    == b@[t]@);
        }
    }
    true
}

fn deps_eq(a: &Vec<Dependency>, b: &Vec<Dependency>) -> (r: bool)
    ensures
        r == (a.deep_view() == b.deep_view()),
{
    if a.len() != b.len() {
        proof {
            assert(a.deep_view().len() == a@.len());
            assert(b.deep_view().len() == b@.len());
        }
        return false;
    }
    let mut i: usize = 0;
    while i < a.len()
        invariant
            i <= a@.len(),
            a@.len() == b@.len(),
            forall|t: int| 0 <= t < i ==> #[trigger] a@[t]@ == b@[t]@,
        decreases a@.len() - i,
    {
        let x = &a[i];
        let y = &b[i];
        let alias_same = match (&x.as_name, &y.as_name) {
            (Some(p), Some(q)) => p.eq(q),
            (None, None) => true,
            _ => false,
        };
        if !(x.file_path.eq(&y.file_path) && alias_same) {
            proof {
                assert(a.deep_view()[i as int] == a@[i as int]@);
                assert(b.deep_view()[i as int] == b@[i as int]@);
            }
            return false;
        }
        i = i + 1;
    }
    proof {
        assert(a.deep_view() =~= b.deep_view()) by {
            assert(forall|t: int|
                0 <= t < a@.len() ==> #[trigger] a.deep_view()[t] == a@[t]@ && b.deep_view()[t]
                    == b@[t]@);
        }
    }
    true
}

fn centries_eq(a: &Vec<ComputeEntry>, b: &Vec<ComputeEntry>) -> (r: bool)
    ensures
        r == (a.deep_view() == b.deep_view()),
{
    if a.len() != b.len() {
        proof {
            assert(a.deep_view().len() == a@.len());
            assert(b.deep_view().len() == b@.len());
        }
        return false;
    }
    let mut i: usize = 0;
    while i < a.len()
        invariant
            i <= a@.len(),
            a@.len() == b@.len(),
            forall|t: int| 0 <= t < i ==> #[trigger] a@[t]@ == b@[t]@,
        decreases a@.len() - i,
    {
        let x = &a[i];
        let y = &b[i];
        let same = x.entry_point.eq(&y.entry_point) && x.const_name.eq(&y.const_name)
            && x.pipeline_fn.eq(&y.pipeline_fn) && x.label.eq(&y.label) && x.x == y.x && x.y == y.y
            && x.z == y.z;
        if !same {
            proof {
                assert(a.deep_view()[i as int] == a@[i as int]@);
                assert(b.deep_view()[i as int] == b@[i as int]@);
            }
            return false;
        }
        i = i + 1;
    }
    proof {
        assert(a.deep_view() =~= b.deep_view()) by {
            assert(forall|t: int|
                0 <= t < a@.len() ==> #[trigger] a.deep_view()[t] == a@[t]@ && b.deep_view()[t]
                    == b@[t]@);
        }
    }
    true
}

/// Whether two declaration bodies hold the same contents.
pub fn body_eq(a: &DeclBody, b: &DeclBody) -> (r: bool)
    ensures
        r == (a@ == b@),
{
    match (a, b) {
        (DeclBody::EntryConstant { value: x }, DeclBody::EntryConstant { value: y }) => x.eq(y),
        (
            DeclBody::PipelineLayout { group_count: x },
            DeclBody::PipelineLayout { group_count: y },
        ) => x == y,
        (DeclBody::ShaderModuleEmbed { source: x }, DeclBody::ShaderModuleEmbed { source: y }) => x
            .eq(y),
        (
            DeclBody::ShaderModuleComposer { entry_path: xp, deps: xd },
            DeclBody::ShaderModuleComposer { entry_path: yp, deps: yd },
        ) => xp.eq(yp) && deps_eq(xd, yd),
        (DeclBody::BindGroups { groups: x }, DeclBody::BindGroups { groups: y }) => rbss_eq(x, y),
        (
            DeclBody::VertexAttributesImpl { struct_name: xn, stride: xs, attributes: xa },
            DeclBody::VertexAttributesImpl { struct_name: yn, stride: ys, attributes: ya },
        ) => xn.eq(yn) && xs == ys && attrs_eq(xa, ya),
        (DeclBody::VertexStateScaffold, DeclBody::VertexStateScaffold) => true,
        (
            DeclBody::VertexEntryFn { fn_name: xf, const_name: xc, params: xp, buffers: xb },
            DeclBody::VertexEntryFn { fn_name: yf, const_name: yc, params: yp, buffers: yb },
        ) => xf.eq(yf) && xc.eq(yc) && strings_eq(xp, yp) && strings_eq(xb, yb),
        (DeclBody::ComputeModule { entries: x }, DeclBody::ComputeModule { entries: y }) => (
        centries_eq(x, y)),
        (
            DeclBody::HostStruct { host_name: xn, fields: xf, size: xs, align: xa, encode: xe },
            DeclBody::HostStruct { host_name: yn, fields: yf, size: ys, align: ya, encode: ye },
        ) => xn.eq(yn) && fields_eq(xf, yf) && xs == ys && xa == ya && xe == ye,
        (DeclBody::RootPrelude { direct: x }, DeclBody::RootPrelude { direct: y }) => x == y,
        _ => false,
    }
}

} // verus!
