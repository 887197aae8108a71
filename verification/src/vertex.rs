//! Vertex buffer layout derivation.
//!
//! For every vertex entry point's struct-typed inputs, derives one
//! vertex attribute per field, ordered by declared location, with byte
//! offsets following the host record's natural packed layout.

use vstd::prelude::*;

verus! {

use crate::CreateModuleError;
use crate::ir::{EntryPoint, Module, StructMember, TypeDef, TypeInner, module_wf, types_wf};
use crate::layout::{WgslTypeMap, align_up_u64, map_type, spec_align_up, spec_map_type,
    type_map_ok};

/// A host-side vertex attribute format: scalar or vector of 32-bit
/// float, signed or unsigned integer, or 64-bit float.
#[derive(Debug, Clone, Copy, PartialEq, Eq, Structural)]
pub enum VertexFormat {
    Float32,
    Float32x2,
    Float32x3,
    Float32x4,
    Float64,
    Float64x2,
    Float64x3,
    Float64x4,
    Sint32,
    Sint32x2,
    Sint32x3,
    Sint32x4,
    Uint32,
    Uint32x2,
    Uint32x3,
    Uint32x4,
}

/// One derived vertex attribute: shader location, format, and byte
/// offset inside the buffer element.
#[derive(Debug, Clone, Copy, PartialEq, Eq, Structural)]
pub struct VertexAttribute {
    pub location: u32,
    pub format: VertexFormat,
    pub offset: u32,
}

/// The vertex format of a scalar kind, width and component count, when
/// one exists.
pub open spec fn spec_format_of(kind: crate::ir::ScalarKind, width: u32, comps: u32) -> Option<
    VertexFormat,
> {
    match kind {
        crate::ir::ScalarKind::Float => if width == 4 {
            match comps {
                1u32 => Some(VertexFormat::Float32),
                2u32 => Some(VertexFormat::Float32x2),
                3u32 => Some(VertexFormat::Float32x3),
                4u32 => Some(VertexFormat::Float32x4),
                _ => None,
            }
        } else if width == 8 {
            match comps {
                1u32 => Some(VertexFormat::Float64),
                2u32 => Some(VertexFormat::Float64x2),
                3u32 => Some(VertexFormat::Float64x3),
                4u32 => Some(VertexFormat::Float64x4),
                _ => None,
            }
        } else {
            None
        },
        crate::ir::ScalarKind::Sint => if width == 4 {
            match comps {
                1u32 => Some(VertexFormat::Sint32),
                2u32 => Some(VertexFormat::Sint32x2),
                3u32 => Some(VertexFormat::Sint32x3),
                4u32 => Some(VertexFormat::Sint32x4),
                _ => None,
            }
        } else {
            None
        },
        crate::ir::ScalarKind::Uint => if width == 4 {
            match comps {
                1u32 => Some(VertexFormat::Uint32),
                2u32 => Some(VertexFormat::Uint32x2),
                3u32 => Some(VertexFormat::Uint32x3),
                4u32 => Some(VertexFormat::Uint32x4),
                _ => None,
            }
        } else {
            None
        },
        crate::ir::ScalarKind::Bool => None,
    }
}

/// The vertex format of shader type `i`: scalars and vectors of the
/// supported scalar kinds have one, everything else has none.
pub open spec fn spec_vertex_format(types: Seq<TypeDef>, i: int) -> Option<VertexFormat> {
    if 0 <= i < types.len() {
        match types[i].inner {
            TypeInner::Scalar(s) => spec_format_of(s.kind, s.width, 1),
            TypeInner::Vector { size, scalar } => spec_format_of(scalar.kind, scalar.width, size),
            _ => None,
        }
    } else {
        None
    }
}

/// Computes the vertex format of shader type `i`.
pub fn vertex_format(types: &Vec<TypeDef>, i: usize) -> (r: Option<VertexFormat>)
    requires
        i < types@.len(),
    ensures
        r == spec_vertex_format(types@, i as int),
{
    match &types[i].inner {
        TypeInner::Scalar(s) => format_of(s.kind, s.width, 1),
        TypeInner::Vector { size, scalar } => format_of(scalar.kind, scalar.width, *size),
        _ => None,
    }
}

fn format_of(kind: crate::ir::ScalarKind, width: u32, comps: u32) -> (r: Option<VertexFormat>)
    ensures
        r == spec_format_of(kind, width, comps),
{
    match kind {
        crate::ir::ScalarKind::Float => {
            if width == 4 {
                match comps {
                    1u32 => Some(VertexFormat::Float32),
                    2u32 => Some(VertexFormat::Float32x2),
                    3u32 => Some(VertexFormat::Float32x3),
                    4u32 => Some(VertexFormat::Float32x4),
                    _ => None,
                }
            } else if width == 8 {
                match comps {
                    1u32 => Some(VertexFormat::Float64),
                    2u32 => Some(VertexFormat::Float64x2),
                    3u32 => Some(VertexFormat::Float64x3),
                    4u32 => Some(VertexFormat::Float64x4),
                    _ => None,
                }
            } else {
                None
            }
        },
        crate::ir::ScalarKind::Sint => {
            if width == 4 {
                match comps {
                    1u32 => Some(VertexFormat::Sint32),
                    2u32 => Some(VertexFormat::Sint32x2),
                    3u32 => Some(VertexFormat::Sint32x3),
                    4u32 => Some(VertexFormat::Sint32x4),
                    _ => None,
                }
            } else {
                None
            }
        },
        crate::ir::ScalarKind::Uint => {
            if width == 4 {
                match comps {
                    1u32 => Some(VertexFormat::Uint32),
                    2u32 => Some(VertexFormat::Uint32x2),
                    3u32 => Some(VertexFormat::Uint32x3),
                    4u32 => Some(VertexFormat::Uint32x4),
                    _ => None,
                }
            } else {
                None
            }
        },
        crate::ir::ScalarKind::Bool => None,
    }
}

/// All struct-typed input type indices of all entry points, in
/// declaration order.
pub open spec fn all_inputs(eps: Seq<EntryPoint>) -> Seq<u32>
    decreases eps.len(),
{
    if eps.len() == 0 {
        Seq::empty()
    } else {
        all_inputs(eps.drop_last()) + eps.last().inputs@
    }
}

/// The struct-typed inputs with duplicates removed, keeping first-seen
/// order.
pub open spec fn dedup_structs(types: Seq<TypeDef>, s: Seq<u32>) -> Seq<u32>
    decreases s.len(),
{
    if s.len() == 0 {
        Seq::empty()
    } else {
        let rest = dedup_structs(types, s.drop_last());
        if s.last() < types.len() && types[s.last() as int].inner is Struct && !rest.contains(
            s.last(),
        ) {
            rest + seq![s.last()]
        } else {
            rest
        }
    }
}

/// The vertex input struct types of the module: every struct-typed
/// entry point input, first-seen order, no duplicates.
pub open spec fn spec_vertex_inputs(m: Module) -> Seq<u32> {
    dedup_structs(m.types@, all_inputs(m.entry_points@))
}

/// Every index a dedup keeps denotes a struct type of the arena.
pub proof fn lemma_dedup_structs_typed(types: Seq<TypeDef>, s: Seq<u32>)
    ensures
        forall|k: int|
            0 <= k < dedup_structs(types, s).len() ==> #[trigger] dedup_structs(types, s)[k]
                < types.len() && types[dedup_structs(types, s)[k] as int].inner is Struct,
    decreases s.len(),
{
    if s.len() > 0 {
        lemma_dedup_structs_typed(types, s.drop_last());
        let rest = dedup_structs(types, s.drop_last());
        assert forall|k: int| 0 <= k < dedup_structs(types, s).len() implies #[trigger] dedup_structs(
            types,
            s,
        )[k] < types.len() && types[dedup_structs(types, s)[k] as int].inner is Struct by {
            if k < rest.len() {
                assert(dedup_structs(types, s)[k] == rest[k]);
            }
        }
    }
}

/// Collects the vertex input struct types of the module.
#[verifier::loop_isolation(false)]
pub fn get_vertex_input_structs(m: &Module) -> (r: Vec<u32>)
    requires
        module_wf(*m),
    ensures
        r@ == spec_vertex_inputs(*m),
        forall|k: int| 0 <= k < r@.len() ==> #[trigger] r@[k] < m.types@.len(),
        forall|k: int|
            0 <= k < r@.len() ==> m.types@[#[trigger] r@[k] as int].inner is Struct,
{
    proof {
        lemma_dedup_structs_typed(m.types@, all_inputs(m.entry_points@));
    }
    let mut out: Vec<u32> = Vec::new();
    let mut e: usize = 0;
    while e < m.entry_points.len()
        invariant
            e <= m.entry_points@.len(),
            out@ == dedup_structs(m.types@, all_inputs(m.entry_points@.take(e as int))),
            forall|k: int| 0 <= k < out@.len() ==> #[trigger] out@[k] < m.types@.len(),
        decreases m.entry_points@.len() - e,
    {
        let ep = &m.entry_points[e];
        let mut k: usize = 0;
        while k < ep.inputs.len()
            invariant
                k <= ep.inputs@.len(),
                ep == &m.entry_points@[e as int],
                e < m.entry_points@.len(),
                out@ == dedup_structs(
                    m.types@,
                    all_inputs(m.entry_points@.take(e as int)) + ep.inputs@.take(k as int),
                ),
                forall|t: int| 0 <= t < out@.len() ==> #[trigger] out@[t] < m.types@.len(),
            decreases ep.inputs@.len() - k,
        {
            let ghost pre = all_inputs(m.entry_points@.take(e as int)) + ep.inputs@.take(k as int);
            let ghost pre_out = out@;
            proof {
                assert(m.entry_points@[e as int].inputs@[k as int] < m.types@.len());
            }
            let ti = ep.inputs[k];
            let is_struct = match &m.types[ti as usize].inner {
                TypeInner::Struct { members } => true,
                _ => false,
            };
            let mut seen: bool = false;
            let mut t: usize = 0;
            while t < out.len()
                invariant
                    t <= out@.len(),
                    out@ == pre_out,
                    seen <==> exists|u: int| 0 <= u < t && out@[u] == ti,
                decreases out@.len() - t,
            {
                if out[t] == ti {
                    seen = true;
                }
                t = t + 1;
            }
            proof {
                assert(seen <==> pre_out.contains(ti));
            }
            if is_struct && !seen {
                out.push(ti);
            }
            k = k + 1;
            proof {
                let cur = all_inputs(m.entry_points@.take(e as int)) + ep.inputs@.take(k as int);
                assert(cur.drop_last() =~= pre);
                assert(cur.last() == ti);
                assert(out@ =~= dedup_structs(m.types@, cur));
            }
        }
        e = e + 1;
        proof {
            assert(m.entry_points@.take(e as int).drop_last() =~= m.entry_points@.take(e - 1));
            assert(all_inputs(m.entry_points@.take(e as int)) =~= all_inputs(
                m.entry_points@.take(e - 1),
            ) + m.entry_points@[e - 1].inputs@);
            assert(m.entry_points@[e - 1].inputs@.take(m.entry_points@[e - 1].inputs@.len() as int)
                =~= m.entry_points@[e - 1].inputs@);
        }
    }
    proof {
        assert(m.entry_points@.take(m.entry_points@.len() as int) =~= m.entry_points@);
    }
    out
}

/// The members of a struct that carry a location attribute, in
/// declaration order.
pub open spec fn located_members(members: Seq<StructMember>) -> Seq<StructMember>
    decreases members.len(),
{
    if members.len() == 0 {
        Seq::empty()
    } else {
        let rest = located_members(members.drop_last());
        if members.last().location is Some {
            rest + seq![members.last()]
        } else {
            rest
        }
    }
}

/// Inserts a member into a list ordered by ascending location, before
/// the first member with a strictly larger location.
pub open spec fn insert_by_location(s: Seq<StructMember>, x: StructMember) -> Seq<StructMember>
    decreases s.len(),
{
    if s.len() == 0 {
        seq![x]
    } else if x.location->0 < s[0].location->0 {
        seq![x] + s
    } else {
        seq![s[0]] + insert_by_location(s.drop_first(), x)
    }
}

/// The located members sorted by their location attribute.
pub open spec fn sort_by_location(s: Seq<StructMember>) -> Seq<StructMember>
    decreases s.len(),
{
    if s.len() == 0 {
        Seq::empty()
    } else {
        insert_by_location(sort_by_location(s.drop_last()), s.last())
    }
}

/// Whether a member list is ordered by ascending location.
pub open spec fn sorted_by_loc(s: Seq<StructMember>) -> bool {
    forall|i: int, j: int|
        0 <= i < j < s.len() ==> s[i].location->0 <= s[j].location->0
}

proof fn lemma_insert_loc_props(s: Seq<StructMember>, x: StructMember)
    ensures
        insert_by_location(s, x).len() == s.len() + 1,
        sorted_by_loc(s) ==> sorted_by_loc(insert_by_location(s, x)),
        forall|y: StructMember|
            #[trigger] insert_by_location(s, x).contains(y) <==> (s.contains(y) || y == x),
    decreases s.len(),
{
    let r = insert_by_location(s, x);
    if s.len() == 0 {
        assert forall|y: StructMember| #[trigger] r.contains(y) implies (s.contains(y) || y
            == x) by {
            assert(r[0] == x);
        }
        assert(r.contains(x));
    } else if x.location->0 < s[0].location->0 {
        assert forall|y: StructMember| (s.contains(y) || y == x) implies #[trigger] r.contains(
            y,
        ) by {
            if y == x {
                assert(r[0] == y);
            } else {
                let k = choose|k: int| 0 <= k < s.len() && s[k] == y;
                assert(r[k + 1] == y);
            }
        }
        assert forall|y: StructMember| #[trigger] r.contains(y) implies (s.contains(y) || y
            == x) by {
            let k = choose|k: int| 0 <= k < r.len() && r[k] == y;
            if k > 0 {
                assert(s[k - 1] == y);
            }
        }
        if sorted_by_loc(s) {
            assert forall|i: int, j: int| 0 <= i < j < r.len() implies r[i].location->0
                <= r[j].location->0 by {
                if i > 0 {
                    assert(r[i] == s[i - 1] && r[j] == s[j - 1]);
                } else {
                    assert(r[j] == s[j - 1]);
                }
            }
        }
    } else {
        let tail = s.drop_first();
        lemma_insert_loc_props(tail, x);
        let rt = insert_by_location(tail, x);
        assert(r == seq![s[0]] + rt);
        assert forall|y: StructMember| (s.contains(y) || y == x) implies #[trigger] r.contains(
            y,
        ) by {
            if y == x || tail.contains(y) {
                assert(rt.contains(y));
                let k = choose|k: int| 0 <= k < rt.len() && rt[k] == y;
                assert(r[k + 1] == y);
            } else {
                let k = choose|k: int| 0 <= k < s.len() && s[k] == y;
                if k == 0 {
                    assert(r[0] == y);
                } else {
                    assert(tail[k - 1] == y);
                    assert(tail.contains(y));
                }
            }
        }
        assert forall|y: StructMember| #[trigger] r.contains(y) implies (s.contains(y) || y
            == x) by {
            let k = choose|k: int| 0 <= k < r.len() && r[k] == y;
            if k == 0 {
                assert(s[0] == y);
            } else {
                assert(rt.contains(rt[k - 1]));
                if tail.contains(rt[k - 1]) {
                    let t = choose|t: int| 0 <= t < tail.len() && tail[t] == rt[k - 1];
                    assert(s[t + 1] == y);
                }
            }
        }
        if sorted_by_loc(s) {
            assert(forall|k: int| 0 <= k < tail.len() ==> tail[k] == s[k + 1]);
            assert(sorted_by_loc(tail));
            assert forall|i: int, j: int| 0 <= i < j < r.len() implies r[i].location->0
                <= r[j].location->0 by {
                if i == 0 {
                    assert(r[j] == rt[j - 1]);
                    assert(rt.contains(rt[j - 1]));
                    if rt[j - 1] == x {
                        assert(s[0].location->0 <= x.location->0);
                    } else {
                        assert(tail.contains(rt[j - 1]));
                        let t = choose|t: int| 0 <= t < tail.len() && tail[t] == rt[j - 1];
                        assert(s[t + 1] == tail[t]);
                    }
                } else {
                    assert(r[i] == rt[i - 1] && r[j] == rt[j - 1]);
                }
            }
        }
    }
}

/// Sorting by location keeps the list sorted.
pub proof fn lemma_sort_by_location_sorted(s: Seq<StructMember>)
    ensures
        sorted_by_loc(sort_by_location(s)),
        sort_by_location(s).len() == s.len(),
    decreases s.len(),
{
    if s.len() > 0 {
        lemma_sort_by_location_sorted(s.drop_last());
        lemma_insert_loc_props(sort_by_location(s.drop_last()), s.last());
    }
}

/// Inserting at the slot where every earlier member's location is not
/// larger and every later member's is strictly larger realizes
/// [`insert_by_location`].
proof fn lemma_insert_loc_at_slot(s: Seq<StructMember>, x: StructMember, pos: int)
    requires
        sorted_by_loc(s),
        0 <= pos <= s.len(),
        forall|k: int| 0 <= k < pos ==> (#[trigger] s[k]).location->0 <= x.location->0,
        forall|k: int| pos <= k < s.len() ==> (#[trigger] s[k]).location->0 > x.location->0,
    ensures
        s.insert(pos, x) =~= insert_by_location(s, x),
    decreases s.len(),
{
    if s.len() == 0 {
    } else if x.location->0 < s[0].location->0 {
        assert(pos == 0);
    } else {
        assert(pos > 0);
        let tail = s.drop_first();
        assert(forall|k: int| 0 <= k < tail.len() ==> tail[k] == s[k + 1]);
        lemma_insert_loc_at_slot(tail, x, pos - 1);
        assert(s.insert(pos, x) =~= seq![s[0]] + tail.insert(pos - 1, x));
    }
}

/// The packed end of the first `k` attributes of the sorted member
/// list, under host-native layout.
pub open spec fn attr_end(
    types: Seq<TypeDef>,
    ss: Seq<StructMember>,
    vecs: Seq<crate::layout::VectorMapEntry>,
    mats: Seq<crate::layout::MatrixMapEntry>,
    k: int,
) -> int
    decreases k,
{
    if k <= 0 {
        0
    } else {
        let d = spec_map_type(types, ss[k - 1].ty as int, vecs, mats, false)->0;
        spec_align_up(attr_end(types, ss, vecs, mats, k - 1), d.2) + d.1
    }
}

/// The host-native byte offset of attribute `k`.
pub open spec fn attr_off(
    types: Seq<TypeDef>,
    ss: Seq<StructMember>,
    vecs: Seq<crate::layout::VectorMapEntry>,
    mats: Seq<crate::layout::MatrixMapEntry>,
    k: int,
) -> int {
    spec_align_up(
        attr_end(types, ss, vecs, mats, k),
        (spec_map_type(types, ss[k].ty as int, vecs, mats, false)->0).2,
    )
}

/// The largest host alignment among the first `k` attributes, at
/// least 1.
pub open spec fn attr_max_align(
    types: Seq<TypeDef>,
    ss: Seq<StructMember>,
    vecs: Seq<crate::layout::VectorMapEntry>,
    mats: Seq<crate::layout::MatrixMapEntry>,
    k: int,
) -> int
    decreases k,
{
    if k <= 0 {
        1
    } else {
        let rest = attr_max_align(types, ss, vecs, mats, k - 1);
        let a = (spec_map_type(types, ss[k - 1].ty as int, vecs, mats, false)->0).2;
        if a > rest {
            a
        } else {
            rest
        }
    }
}

/// A type with a vertex format has a host mapping with positive size
/// and alignment.
pub proof fn lemma_format_host_pos(
    types: Seq<TypeDef>,
    i: int,
    vecs: Seq<crate::layout::VectorMapEntry>,
    mats: Seq<crate::layout::MatrixMapEntry>,
)
    requires
        types_wf(types),
        type_map_ok(vecs, mats),
        spec_vertex_format(types, i) is Some,
    ensures
        spec_map_type(types, i, vecs, mats, false) is Some,
        (spec_map_type(types, i, vecs, mats, false)->0).1 >= 1,
        (spec_map_type(types, i, vecs, mats, false)->0).2 >= 1,
{
    reveal(crate::layout::spec_map_type);
    match types[i].inner {
        TypeInner::Scalar(sc) => {},
        TypeInner::Vector { size, scalar } => {
            match crate::layout::spec_find_vec(vecs, size, scalar) {
                Some(e) => {
                    crate::layout::lemma_find_vec_member(vecs, size, scalar);
                    assert((e.host_size as int) >= (e.size as int) * (e.scalar.width as int));
                    assert((e.size as int) * (e.scalar.width as int) >= 1) by (nonlinear_arith)
                        requires
                            e.size >= 2,
                            e.scalar.width >= 4,
                    ;
                },
                None => {
                    assert((size as int) * (scalar.width as int) >= 1) by (nonlinear_arith)
                        requires
                            size >= 2,
                            scalar.width >= 4,
                    ;
                },
            }
        },
        _ => {},
    }
}

/// Collects the members that carry a location attribute.
#[verifier::loop_isolation(false)]
fn collect_located(types: &Vec<TypeDef>, si: usize) -> (r: Vec<StructMember>)
    requires
        si < types@.len(),
        types@[si as int].inner matches TypeInner::Struct { members: ms },
    ensures
        r@ == located_members(types@[si as int].inner->Struct_members@),
        forall|t: int| 0 <= t < r@.len() ==> (#[trigger] r@[t]).location is Some,
{
    let ghost members = types@[si as int].inner->Struct_members@;
    let mlist = match &types[si].inner {
        TypeInner::Struct { members: ms } => ms,
        _ => {
            proof {
                assert(false);
            }
            return Vec::new();
        },
    };
    let mut located: Vec<StructMember> = Vec::new();
    let mut k: usize = 0;
    while k < mlist.len()
        invariant
            k <= members.len(),
            mlist@ == members,
            located@ == located_members(members.take(k as int)),
            forall|t: int| 0 <= t < located@.len() ==> (#[trigger] located@[t]).location is Some,
        decreases members.len() - k,
    {
        let m = &mlist[k];
        match &m.location {
            Some(loc) => {
                located.push(StructMember { name: m.name.clone(), ty: m.ty, location: Some(*loc) });
                proof {
                    assert(StructMember { name: m.name, ty: m.ty, location: Some(*loc) }
                        == members[k as int]);
                }
            },
            None => {},
        }
        k = k + 1;
        proof {
            assert(members.take(k as int).drop_last() =~= members.take(k - 1));
            assert(located@ =~= located_members(members.take(k as int)));
        }
    }
    proof {
        assert(members.take(members.len() as int) =~= members);
    }
    located
}

/// Sorts the located members by ascending location.
#[verifier::loop_isolation(false)]
fn sort_located(located: &Vec<StructMember>) -> (r: Vec<StructMember>)
    requires
        forall|t: int| 0 <= t < located@.len() ==> (#[trigger] located@[t]).location is Some,
    ensures
        r@ == sort_by_location(located@),
        sorted_by_loc(r@),
        forall|t: int| 0 <= t < r@.len() ==> (#[trigger] r@[t]).location is Some,
{
    let mut sorted: Vec<StructMember> = Vec::new();
    let mut k2: usize = 0;
    while k2 < located.len()
        invariant
            k2 <= located@.len(),
            sorted@ == sort_by_location(located@.take(k2 as int)),
            sorted_by_loc(sorted@),
            forall|t: int| 0 <= t < sorted@.len() ==> (#[trigger] sorted@[t]).location is Some,
        decreases located@.len() - k2,
    {
        let x = StructMember {
            name: located[k2].name.clone(),
            ty: located[k2].ty,
            location: located[k2].location,
        };
        proof {
            assert(x == located@[k2 as int]);
        }
        let xl = match &x.location {
            Some(l) => *l,
            None => {
                proof {
                    assert(false);
                }
                0
            },
        };
        let pos = find_loc_slot(&sorted, xl);
        proof {
            lemma_insert_loc_at_slot(sorted@, x, pos as int);
            lemma_insert_loc_props(sorted@, x);
        }
        sorted.insert(pos, x);
        k2 = k2 + 1;
        proof {
            assert(located@.take(k2 as int).drop_last() =~= located@.take(k2 - 1));
            assert(located@.take(k2 as int).last() == located@[k2 - 1]);
            assert(sorted@ =~= sort_by_location(located@.take(k2 as int)));
        }
    }
    proof {
        assert(located@.take(located@.len() as int) =~= located@);
    }
    sorted
}

/// The located members of struct `si`, sorted by location: the member
/// list one attribute derivation works over.
pub open spec fn input_located_sorted(types: Seq<TypeDef>, si: int) -> Seq<StructMember> {
    sort_by_location(located_members(types[si].inner->Struct_members@))
}

/// The first problem found scanning the first `n` sorted members: a
/// member without a vertex format (the error names that member's
/// type), or a packed span past `u32::MAX` (the error names the
/// struct `si`).
pub open spec fn attr_scan_err(
    types: Seq<TypeDef>,
    ss: Seq<StructMember>,
    vecs: Seq<crate::layout::VectorMapEntry>,
    mats: Seq<crate::layout::MatrixMapEntry>,
    si: u32,
    n: int,
) -> Option<CreateModuleError>
    decreases n,
{
    if n <= 0 {
        None
    } else if attr_scan_err(types, ss, vecs, mats, si, n - 1) is Some {
        attr_scan_err(types, ss, vecs, mats, si, n - 1)
    } else if spec_vertex_format(types, ss[n - 1].ty as int) is None {
        Some(CreateModuleError::UnsupportedType { ty: ss[n - 1].ty })
    } else if attr_end(types, ss, vecs, mats, n) > u32::MAX {
        Some(CreateModuleError::UnsupportedType { ty: si })
    } else {
        None
    }
}

/// The attribute deriver's verdict for a sorted member list: the first
/// scan error, or an overflowing stride, or success.
pub open spec fn spec_attr_verdict(
    types: Seq<TypeDef>,
    ss: Seq<StructMember>,
    vecs: Seq<crate::layout::VectorMapEntry>,
    mats: Seq<crate::layout::MatrixMapEntry>,
    si: u32,
) -> Option<CreateModuleError> {
    let n = ss.len() as int;
    if attr_scan_err(types, ss, vecs, mats, si, n) is Some {
        attr_scan_err(types, ss, vecs, mats, si, n)
    } else if spec_align_up(
        attr_end(types, ss, vecs, mats, n),
        attr_max_align(types, ss, vecs, mats, n),
    ) > u32::MAX {
        Some(CreateModuleError::UnsupportedType { ty: si })
    } else {
        None
    }
}

proof fn lemma_attr_scan_err_persists(
    types: Seq<TypeDef>,
    ss: Seq<StructMember>,
    vecs: Seq<crate::layout::VectorMapEntry>,
    mats: Seq<crate::layout::MatrixMapEntry>,
    si: u32,
    a: int,
    b: int,
)
    requires
        0 <= a <= b,
        attr_scan_err(types, ss, vecs, mats, si, a) is Some,
    ensures
        attr_scan_err(types, ss, vecs, mats, si, b) == attr_scan_err(types, ss, vecs, mats, si, a),
    decreases b - a,
{
    if a < b {
        lemma_attr_scan_err_persists(types, ss, vecs, mats, si, a, b - 1);
    }
}

/// Derives the attributes of a sorted located-member list, at strictly
/// increasing host-native offsets, and the element stride.
#[verifier::loop_isolation(false)]
#[verifier::rlimit(100)]
#[verifier::spinoff_prover]
fn attrs_from_sorted(
    types: &Vec<TypeDef>,
    si: usize,
    map: &WgslTypeMap,
    sorted: &Vec<StructMember>,
) -> (r: Result<(Vec<VertexAttribute>, u32), CreateModuleError>)
    requires
        types_wf(types@),
        si < types@.len(),
        type_map_ok(map.vectors@, map.matrices@),
        forall|t: int| 0 <= t < sorted@.len() ==> (#[trigger] sorted@[t]).location is Some,
    ensures
        ({
            let ss = sorted@;
            match r {
                Ok((attrs, stride)) => {
                    &&& attrs@.len() == ss.len()
                    &&& forall|k: int|
                        0 <= k < ss.len() ==> {
                            &&& spec_vertex_format(types@, #[trigger] ss[k].ty as int) is Some
                            &&& attrs@[k].location == ss[k].location->0
                            &&& attrs@[k].format == spec_vertex_format(types@, ss[k].ty as int)->0
                            &&& attrs@[k].offset == attr_off(
                                types@,
                                ss,
                                map.vectors@,
                                map.matrices@,
                                k,
                            )
                        }
                    &&& forall|j: int, k: int|
                        0 <= j < k < attrs@.len() ==> attrs@[j].offset < attrs@[k].offset
                    &&& stride == spec_align_up(
                        attr_end(types@, ss, map.vectors@, map.matrices@, ss.len() as int),
                        attr_max_align(types@, ss, map.vectors@, map.matrices@, ss.len() as int),
                    )
                    &&& spec_attr_verdict(types@, ss, map.vectors@, map.matrices@, si as u32)
                        is None
                },
                Err(e) => spec_attr_verdict(types@, ss, map.vectors@, map.matrices@, si as u32)
                    == Some(e),
            }
        }),
{
    let ghost ss = sorted@;
    let mut attrs: Vec<VertexAttribute> = Vec::new();
    let mut end: u64 = 0;
    let mut maxa: u64 = 1;
    let mut k3: usize = 0;
    while k3 < sorted.len()
        invariant
            k3 <= ss.len(),
            end == attr_end(types@, ss, map.vectors@, map.matrices@, k3 as int),
            end <= u32::MAX,
            maxa == attr_max_align(types@, ss, map.vectors@, map.matrices@, k3 as int),
            1 <= maxa <= u32::MAX,
            attrs@.len() == k3,
            attr_scan_err(types@, ss, map.vectors@, map.matrices@, si as u32, k3 as int) is None,
            forall|t: int|
                0 <= t < k3 ==> {
                    &&& spec_vertex_format(types@, #[trigger] ss[t].ty as int) is Some
                    &&& attrs@[t].location == ss[t].location->0
                    &&& attrs@[t].format == spec_vertex_format(types@, ss[t].ty as int)->0
                    &&& attrs@[t].offset == attr_off(types@, ss, map.vectors@, map.matrices@, t)
                    &&& (spec_map_type(types@, ss[t].ty as int, map.vectors@, map.matrices@, false)
                        ->0).1 >= 1
                    &&& (spec_map_type(types@, ss[t].ty as int, map.vectors@, map.matrices@, false)
                        ->0).2 >= 1
                },
            forall|j: int, t: int| 0 <= j < t < k3 ==> attrs@[j].offset < attrs@[t].offset,
        decreases ss.len() - k3,
    {
        let mem_ty = sorted[k3].ty;
        if mem_ty as usize >= types.len() {
            proof {
                lemma_attr_scan_err_persists(
                    types@,
                    ss,
                    map.vectors@,
                    map.matrices@,
                    si as u32,
                    k3 + 1,
                    ss.len() as int,
                );
            }
            return Err(CreateModuleError::UnsupportedType { ty: mem_ty });
        }
        let fmt = match vertex_format(types, mem_ty as usize) {
            Some(f) => f,
            None => {
                proof {
                    lemma_attr_scan_err_persists(
                        types@,
                        ss,
                        map.vectors@,
                        map.matrices@,
                        si as u32,
                        k3 + 1,
                        ss.len() as int,
                    );
                }
                return Err(CreateModuleError::UnsupportedType { ty: mem_ty });
            },
        };
        proof {
            lemma_format_host_pos(types@, mem_ty as int, map.vectors@, map.matrices@);
        }
        let d = match map_type(types, mem_ty as usize, map, false) {
            Ok(d) => d,
            Err(e) => {
                proof {
                    assert(false);
                }
                return Err(e);
            },
        };
        let xl = match &sorted[k3].location {
            Some(l) => *l,
            None => {
                proof {
                    assert(false);
                }
                0
            },
        };
        let off = align_up_u64(end, d.align as u64);
        let new_end = off + d.size as u64;
        proof {
            assert(new_end == attr_end(types@, ss, map.vectors@, map.matrices@, k3 + 1));
        }
        if new_end > u32::MAX as u64 {
            proof {
                lemma_attr_scan_err_persists(
                    types@,
                    ss,
                    map.vectors@,
                    map.matrices@,
                    si as u32,
                    k3 + 1,
                    ss.len() as int,
                );
            }
            return Err(CreateModuleError::UnsupportedType { ty: si as u32 });
        }
        attrs.push(VertexAttribute { location: xl, format: fmt, offset: off as u32 });
        end = new_end;
        if (d.align as u64) > maxa {
            maxa = d.align as u64;
        }
        k3 = k3 + 1;
        proof {
            assert forall|j: int, t: int| 0 <= j < t < k3 implies attrs@[j].offset
                < attrs@[t].offset by {
                if t == k3 - 1 {
                    lemma_attr_end_mono(types@, ss, map.vectors@, map.matrices@, j + 1, t);
                }
            }
        }
    }
    let stride = align_up_u64(end, maxa);
    if stride > u32::MAX as u64 {
        return Err(CreateModuleError::UnsupportedType { ty: si as u32 });
    }
    Ok((attrs, stride as u32))
}

/// Derives the vertex attributes of the struct at arena index `si`:
/// one per located member, in ascending location order, at strictly
/// increasing host-native byte offsets; also returns the element
/// stride. The verdict is a function of the inputs: the first located
/// member without a vertex format raises `UnsupportedType` naming its
/// type, an element spilling past `u32::MAX` raises it naming the
/// struct, and every other input succeeds.
pub fn vertex_attributes(
    types: &Vec<TypeDef>,
    si: usize,
    map: &WgslTypeMap,
) -> (r: Result<(Vec<VertexAttribute>, u32), CreateModuleError>)
    requires
        types_wf(types@),
        si < types@.len(),
        type_map_ok(map.vectors@, map.matrices@),
        types@[si as int].inner matches TypeInner::Struct { members: ms },
    ensures
        ({
            let members = types@[si as int].inner->Struct_members@;
            let ss = sort_by_location(located_members(members));
            match r {
                Ok((attrs, stride)) => {
                    &&& attrs@.len() == ss.len()
                    &&& forall|k: int|
                        0 <= k < ss.len() ==> {
                            &&& spec_vertex_format(types@, #[trigger] ss[k].ty as int) is Some
                            &&& attrs@[k].location == ss[k].location->0
                            &&& attrs@[k].format == spec_vertex_format(types@, ss[k].ty as int)->0
                            &&& attrs@[k].offset == attr_off(
                                types@,
                                ss,
                                map.vectors@,
                                map.matrices@,
                                k,
                            )
                        }
                    &&& forall|j: int, k: int|
                        0 <= j < k < attrs@.len() ==> attrs@[j].offset < attrs@[k].offset
                    &&& stride == spec_align_up(
                        attr_end(types@, ss, map.vectors@, map.matrices@, ss.len() as int),
                        attr_max_align(types@, ss, map.vectors@, map.matrices@, ss.len() as int),
                    )
                    &&& spec_attr_verdict(types@, ss, map.vectors@, map.matrices@, si as u32)
                        is None
                },
                Err(e) => spec_attr_verdict(types@, ss, map.vectors@, map.matrices@, si as u32)
                    == Some(e),
            }
        }),
{
    let located = collect_located(types, si);
    let sorted = sort_located(&located);
    attrs_from_sorted(types, si, map, &sorted)
}

/// Finds the slot where a member with location `xl` belongs in a list
/// ordered by ascending location: after every location not above `xl`,
/// before every strictly larger one.
#[verifier::loop_isolation(false)]
fn find_loc_slot(lst: &Vec<StructMember>, xl: u32) -> (pos: usize)
    requires
        sorted_by_loc(lst@),
        forall|t: int| 0 <= t < lst@.len() ==> (#[trigger] lst@[t]).location is Some,
    ensures
        pos <= lst@.len(),
        forall|t: int| 0 <= t < pos ==> (#[trigger] lst@[t]).location->0 <= xl,
        forall|t: int| pos <= t < lst@.len() ==> (#[trigger] lst@[t]).location->0 > xl,
{
    let mut pos: usize = 0;
    while pos < lst.len()
        invariant
            pos <= lst@.len(),
            forall|t: int| 0 <= t < pos ==> (#[trigger] lst@[t]).location->0 <= xl,
        decreases lst@.len() - pos,
    {
        let sl = match &lst[pos].location {
            Some(l) => *l,
            None => {
                proof {
                    assert(lst@[pos as int].location is Some);
                    assert(false);
                }
                0
            },
        };
        if sl > xl {
            proof {
                assert forall|t: int| pos <= t < lst@.len() implies (
                #[trigger] lst@[t]).location->0 > xl by {
                    assert(lst@[pos as int].location->0 <= lst@[t].location->0);
                }
            }
            return pos;
        }
        pos = pos + 1;
    }
    pos
}

proof fn lemma_located_all_some(members: Seq<StructMember>, k: int)
    ensures
        0 <= k < located_members(members).len() ==> located_members(members)[k].location is Some,
    decreases members.len(),
{
    if members.len() > 0 {
        lemma_located_all_some(members.drop_last(), k);
    }
}

/// Attribute spans grow monotonically.
proof fn lemma_attr_end_mono(
    types: Seq<TypeDef>,
    ss: Seq<StructMember>,
    vecs: Seq<crate::layout::VectorMapEntry>,
    mats: Seq<crate::layout::MatrixMapEntry>,
    a: int,
    b: int,
)
    requires
        0 <= a <= b,
        forall|t: int|
            0 <= t < b ==> {
                let d = spec_map_type(types, (#[trigger] ss[t]).ty as int, vecs, mats, false)->0;
                d.1 >= 1 && d.2 >= 1
            },
    ensures
        attr_end(types, ss, vecs, mats, a) <= attr_end(types, ss, vecs, mats, b),
    decreases b - a,
{
    if a < b {
        lemma_attr_end_mono(types, ss, vecs, mats, a, b - 1);
        let d = spec_map_type(types, ss[b - 1].ty as int, vecs, mats, false)->0;
        if attr_end(types, ss, vecs, mats, b - 1) >= 0 {
            crate::layout::lemma_align_up_ge(attr_end(types, ss, vecs, mats, b - 1), d.2);
        }
    }
}

} // verus!
