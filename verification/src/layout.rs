//! GPU-conformant memory layout and host type descriptors.
//!
//! Computes the size and alignment the GPU mandates for every shader
//! type, under the rules of the two buffer address spaces: uniform
//! buffers round the alignment of structs and array elements up to 16
//! bytes; storage buffers use the natural alignment. Maps shader types
//! to host-side type descriptors, with per-project overrides for vector
//! and matrix types, and builds layout-checked host records for shader
//! structs.

use vstd::prelude::*;

verus! {

use vstd::utf8::is_ascii_chars;
use crate::CreateModuleError;
use crate::WgslTypeSerializeStrategy;
use crate::ir::{Scalar, ScalarKind, StructMember, TypeDef, TypeInner, type_refs_below,
    type_shape_wf, types_wf};

/// `x` rounded up to the next multiple of `a`.
pub open spec fn spec_align_up(x: int, a: int) -> int {
    if x % a == 0 {
        x
    } else {
        x + a - (x % a)
    }
}

/// Rounds `x` up to the next multiple of `a`.
pub fn align_up_u64(x: u64, a: u64) -> (r: u64)
    requires
        1 <= a,
        x + a <= u64::MAX,
    ensures
        r == spec_align_up(x as int, a as int),
        x <= r < x + a,
{
    let m = x % a;
    if m == 0 {
        x
    } else {
        x + (a - m)
    }
}

/// The GPU alignment of a vector of `size` components of `width`-byte
/// scalars: two-component vectors align to two scalars, wider ones to
/// four.
pub open spec fn vec_gpu_align(size: u32, width: u32) -> int {
    if size == 2 {
        2 * width
    } else {
        4 * width
    }
}

/// The uniform-buffer rounding rule: alignments below 16 are raised
/// to 16.
pub open spec fn round16(a: int, uniform: bool) -> int {
    if uniform && a < 16 {
        16
    } else {
        a
    }
}

/// The GPU-mandated alignment of type `i`, under uniform or storage
/// buffer rules.
pub open spec fn spec_gpu_align(types: Seq<TypeDef>, i: int, uniform: bool) -> int
    decreases i, 1int, 0int,
{
    if 0 <= i < types.len() {
        match types[i].inner {
            TypeInner::Scalar(s) => s.width as int,
            TypeInner::Vector { size, scalar } => vec_gpu_align(size, scalar.width),
            TypeInner::Matrix { columns, rows, scalar } => vec_gpu_align(rows, scalar.width),
            TypeInner::Array { element, count } => {
                let a = if element < i {
                    spec_gpu_align(types, element as int, uniform)
                } else {
                    1
                };
                round16(a, uniform)
            },
            TypeInner::Struct { members } => {
                let a = spec_struct_align(types, i, members@, uniform, members@.len() as int);
                round16(a, uniform)
            },
            TypeInner::Texture => 1,
            TypeInner::Sampler => 1,
        }
    } else {
        1
    }
}

/// The largest GPU alignment among the first `n` members of the struct
/// at arena index `i`, at least 1.
pub open spec fn spec_struct_align(
    types: Seq<TypeDef>,
    i: int,
    members: Seq<StructMember>,
    uniform: bool,
    n: int,
) -> int
    decreases i, 0int, n,
{
    if n <= 0 {
        1
    } else {
        let rest = spec_struct_align(types, i, members, uniform, n - 1);
        let mty = members[n - 1].ty as int;
        let a = if 0 <= n - 1 < members.len() && mty < i {
            spec_gpu_align(types, mty, uniform)
        } else {
            1
        };
        if a > rest {
            a
        } else {
            rest
        }
    }
}

/// The GPU-mandated byte size of type `i`, under uniform or storage
/// buffer rules. A runtime-sized array contributes one element stride.
pub open spec fn spec_gpu_size(types: Seq<TypeDef>, i: int, uniform: bool) -> int
    decreases i, 1int, 1int,
{
    if 0 <= i < types.len() {
        match types[i].inner {
            TypeInner::Scalar(s) => s.width as int,
            TypeInner::Vector { size, scalar } => size * scalar.width,
            TypeInner::Matrix { columns, rows, scalar } => columns * spec_align_up(
                rows * scalar.width,
                vec_gpu_align(rows, scalar.width),
            ),
            TypeInner::Array { element, count } => {
                let stride = if element < i {
                    spec_array_stride(types, element as int, uniform)
                } else {
                    1
                };
                match count {
                    Some(n) => n * stride,
                    None => stride,
                }
            },
            TypeInner::Struct { members } => {
                let end = spec_member_end(types, i, members@, uniform, members@.len() as int);
                spec_align_up(end, spec_gpu_align(types, i, uniform))
            },
            TypeInner::Texture => 0,
            TypeInner::Sampler => 0,
        }
    } else {
        0
    }
}

/// The stride of an array whose elements have type `e`: the element
/// size rounded up to the element alignment (itself rounded to 16 in a
/// uniform buffer).
pub open spec fn spec_array_stride(types: Seq<TypeDef>, e: int, uniform: bool) -> int
    decreases e, 2int, 0int,
{
    spec_align_up(
        spec_gpu_size(types, e, uniform),
        round16(spec_gpu_align(types, e, uniform), uniform),
    )
}

/// The end of the packed span of the first `n` members of the struct at
/// arena index `i`: each member starts at its own alignment.
pub open spec fn spec_member_end(
    types: Seq<TypeDef>,
    i: int,
    members: Seq<StructMember>,
    uniform: bool,
    n: int,
) -> int
    decreases i, 0int, n,
{
    if n <= 0 {
        0
    } else {
        let prev = spec_member_end(types, i, members, uniform, n - 1);
        let mty = members[n - 1].ty as int;
        if 0 <= n - 1 < members.len() && mty < i {
            spec_align_up(prev, spec_gpu_align(types, mty, uniform)) + spec_gpu_size(
                types,
                mty,
                uniform,
            )
        } else {
            prev
        }
    }
}

/// The GPU-mandated byte offset of member `k` of the struct at arena
/// index `i`.
#[verifier::opaque]
pub open spec fn spec_member_offset(
    types: Seq<TypeDef>,
    i: int,
    members: Seq<StructMember>,
    uniform: bool,
    k: int,
) -> int
    decreases i, 0int, k + 1,
{
    spec_align_up(
        spec_member_end(types, i, members, uniform, k),
        if 0 <= k < members.len() && members[k].ty < i {
            spec_gpu_align(types, members[k].ty as int, uniform)
        } else {
            1
        },
    )
}

/// Computes the GPU-mandated alignment of type `i`.
#[verifier::loop_isolation(false)]
pub fn gpu_align(types: &Vec<TypeDef>, i: usize, uniform: bool) -> (r: u64)
    requires
        types_wf(types@),
        i < types@.len(),
    ensures
        r == spec_gpu_align(types@, i as int, uniform),
        1 <= r <= 32,
    decreases i, 1int, 0int,
{
    proof {
        assert(type_shape_wf(types@[i as int].inner));
    }
    match &types[i].inner {
        TypeInner::Scalar(s) => s.width as u64,
        TypeInner::Vector { size, scalar } => {
            if *size == 2 {
                2 * scalar.width as u64
            } else {
                4 * scalar.width as u64
            }
        },
        TypeInner::Matrix { columns, rows, scalar } => {
            if *rows == 2 {
                2 * scalar.width as u64
            } else {
                4 * scalar.width as u64
            }
        },
        TypeInner::Array { element, count } => {
            proof {
                assert(type_refs_below(types@[i as int].inner, i as int));
            }
            let a = gpu_align(types, *element as usize, uniform);
            if uniform && a < 16 {
                16
            } else {
                a
            }
        },
        TypeInner::Struct { members } => {
            let ghost mseq = members@;
            let mut best: u64 = 1;
            let mut k: usize = 0;
            while k < members.len()
                invariant
                    k <= mseq.len(),
                    members@ == mseq,
                    best == spec_struct_align(types@, i as int, mseq, uniform, k as int),
                    1 <= best <= 32,
                decreases mseq.len() - k,
            {
                proof {
                    assert(type_refs_below(types@[i as int].inner, i as int));
                    assert(mseq[k as int].ty < i);
                }
                let a = gpu_align(types, members[k].ty as usize, uniform);
                if a > best {
                    best = a;
                }
                k = k + 1;
            }
            if uniform && best < 16 {
                16
            } else {
                best
            }
        },
        TypeInner::Texture => 1,
        TypeInner::Sampler => 1,
    }
}

/// Computes the GPU-mandated byte size of type `i`, or `Err` when it
/// exceeds `u32::MAX`.
#[verifier::loop_isolation(false)]
pub fn gpu_size(types: &Vec<TypeDef>, i: usize, uniform: bool) -> (r: Result<u64, ()>)
    requires
        types_wf(types@),
        i < types@.len(),
    ensures
        match r {
            Ok(v) => v == spec_gpu_size(types@, i as int, uniform) && v <= u32::MAX,
            Err(()) => spec_gpu_size(types@, i as int, uniform) > u32::MAX,
        },
    decreases i, 1int, 1int,
{
    proof {
        assert(type_shape_wf(types@[i as int].inner));
    }
    match &types[i].inner {
        TypeInner::Scalar(s) => Ok(s.width as u64),
        TypeInner::Vector { size, scalar } => {
            proof {
                assert((*size as int) * (scalar.width as int) <= 32) by (nonlinear_arith)
                    requires
                        *size <= 4,
                        scalar.width <= 8,
                ;
            }
            Ok((*size as u64) * (scalar.width as u64))
        },
        TypeInner::Matrix { columns, rows, scalar } => {
            let va = if *rows == 2 {
                2 * scalar.width as u64
            } else {
                4 * scalar.width as u64
            };
            proof {
                assert((*rows as int) * (scalar.width as int) <= 32) by (nonlinear_arith)
                    requires
                        *rows <= 4,
                        scalar.width <= 8,
                ;
            }
            let stride = align_up_u64((*rows as u64) * (scalar.width as u64), va);
            proof {
                assert((*columns as int) * (stride as int) <= 256) by (nonlinear_arith)
                    requires
                        *columns <= 4,
                        stride <= 64,
                ;
            }
            Ok((*columns as u64) * stride)
        },
        TypeInner::Array { element, count } => {
            proof {
                assert(type_refs_below(types@[i as int].inner, i as int));
            }
            let es = gpu_size(types, *element as usize, uniform);
            match es {
                Err(()) => {
                    proof {
                        lemma_stride_ge_size(types@, *element as int, uniform);
                        lemma_gpu_size_nonneg(types@, *element as int, uniform);
                        let st = spec_array_stride(types@, *element as int, uniform);
                        if count is Some {
                            assert((count->0 as int) * st >= st) by (nonlinear_arith)
                                requires
                                    count->0 >= 1,
                                    st >= 0,
                            ;
                        }
                    }
                    Err(())
                },
                Ok(esz) => {
                    let ea = gpu_align(types, *element as usize, uniform);
                    let sa = if uniform && ea < 16 {
                        16
                    } else {
                        ea
                    };
                    let stride = align_up_u64(esz, sa);
                    if stride > u32::MAX as u64 {
                        match count {
                            Some(n) => {
                                proof {
                                    let st = spec_array_stride(
                                        types@,
                                        *element as int,
                                        uniform,
                                    );
                                    assert((*n as int) * st >= st) by (nonlinear_arith)
                                        requires
                                            *n >= 1,
                                            st >= 0,
                                    ;
                                }
                                Err(())
                            },
                            None => Err(()),
                        }
                    } else {
                        match count {
                            Some(n) => {
                                proof {
                                    assert((*n as int) * (stride as int) <= 0xffff_ffff
                                        * 0xffff_ffff) by (nonlinear_arith)
                                        requires
                                            (*n as int) <= 0xffff_ffff,
                                            0 <= (stride as int) <= 0xffff_ffff,
                                    ;
                                }
                                let total = (*n as u64) * stride;
                                if total > u32::MAX as u64 {
                                    Err(())
                                } else {
                                    Ok(total)
                                }
                            },
                            None => Ok(stride),
                        }
                    }
                },
            }
        },
        TypeInner::Struct { members } => {
            let ghost mseq = members@;
            let mut end: u64 = 0;
            let mut k: usize = 0;
            while k < members.len()
                invariant
                    k <= mseq.len(),
                    members@ == mseq,
                    end == spec_member_end(types@, i as int, mseq, uniform, k as int),
                    end <= u32::MAX,
                decreases mseq.len() - k,
            {
                proof {
                    assert(type_refs_below(types@[i as int].inner, i as int));
                    assert(mseq[k as int].ty < i);
                }
                let mty = members[k].ty as usize;
                let ma = gpu_align(types, mty, uniform);
                let off = align_up_u64(end, ma);
                let ms = gpu_size(types, mty, uniform);
                match ms {
                    Err(()) => {
                        proof {
                            lemma_member_end_nonneg(types@, i as int, mseq, uniform, k as int);
                            lemma_gpu_align_pos(types@, mty as int, uniform);
                            lemma_align_up_ge(
                                spec_member_end(types@, i as int, mseq, uniform, k as int),
                                spec_gpu_align(types@, mty as int, uniform),
                            );
                            lemma_member_end_ge(
                                types@,
                                i as int,
                                mseq,
                                uniform,
                                k + 1,
                                mseq.len() as int,
                            );
                            lemma_struct_size_ge_end(types@, i as int, mseq, uniform);
                        }
                        return Err(());
                    },
                    Ok(msz) => {
                        let new_end = off + msz;
                        if new_end > u32::MAX as u64 {
                            proof {
                                lemma_member_end_ge(
                                    types@,
                                    i as int,
                                    mseq,
                                    uniform,
                                    k + 1,
                                    mseq.len() as int,
                                );
                                lemma_struct_size_ge_end(types@, i as int, mseq, uniform);
                            }
                            return Err(());
                        }
                        end = new_end;
                    },
                }
                k = k + 1;
            }
            let sa = gpu_align(types, i, uniform);
            let total = align_up_u64(end, sa);
            if total > u32::MAX as u64 {
                Err(())
            } else {
                Ok(total)
            }
        },
        TypeInner::Texture => Ok(0),
        TypeInner::Sampler => Ok(0),
    }
}

/// GPU sizes, member spans and offsets are nonnegative.
pub proof fn lemma_gpu_size_nonneg(types: Seq<TypeDef>, i: int, uniform: bool)
    requires
        types_wf(types),
    ensures
        spec_gpu_size(types, i, uniform) >= 0,
    decreases i, 2int, 1int,
{
    if 0 <= i < types.len() {
        match types[i].inner {
            TypeInner::Matrix { columns, rows, scalar } => {
                lemma_align_up_ge(rows * scalar.width, vec_gpu_align(rows, scalar.width));
            },
            TypeInner::Array { element, count } => {
                if element < i {
                    lemma_stride_ge_size(types, element as int, uniform);
                    lemma_gpu_size_nonneg(types, element as int, uniform);
                }
            },
            TypeInner::Struct { members } => {
                lemma_member_end_nonneg(types, i, members@, uniform, members@.len() as int);
                lemma_gpu_align_pos(types, i, uniform);
                lemma_align_up_ge(
                    spec_member_end(types, i, members@, uniform, members@.len() as int),
                    spec_gpu_align(types, i, uniform),
                );
            },
            _ => {},
        }
    }
}

/// Member spans are nonnegative and grow with the member count.
pub proof fn lemma_member_end_nonneg(
    types: Seq<TypeDef>,
    i: int,
    members: Seq<StructMember>,
    uniform: bool,
    n: int,
)
    requires
        types_wf(types),
    ensures
        spec_member_end(types, i, members, uniform, n) >= 0,
    decreases i, 1int, n,
{
    if n > 0 {
        lemma_member_end_nonneg(types, i, members, uniform, n - 1);
        let mty = members[n - 1].ty as int;
        if 0 <= n - 1 < members.len() && mty < i {
            lemma_gpu_align_pos(types, mty, uniform);
            lemma_align_up_ge(
                spec_member_end(types, i, members, uniform, n - 1),
                spec_gpu_align(types, mty, uniform),
            );
            lemma_gpu_size_nonneg(types, mty, uniform);
        }
    }
}

/// GPU alignments are positive.
pub proof fn lemma_gpu_align_pos(types: Seq<TypeDef>, i: int, uniform: bool)
    requires
        types_wf(types),
    ensures
        spec_gpu_align(types, i, uniform) >= 1,
    decreases i, 2int, 0int,
{
    if 0 <= i < types.len() {
        match types[i].inner {
            TypeInner::Array { element, count } => {
                if element < i {
                    lemma_gpu_align_pos(types, element as int, uniform);
                }
            },
            TypeInner::Struct { members } => {
                lemma_struct_align_pos(types, i, members@, uniform, members@.len() as int);
            },
            _ => {},
        }
    }
}

proof fn lemma_struct_align_pos(
    types: Seq<TypeDef>,
    i: int,
    members: Seq<StructMember>,
    uniform: bool,
    n: int,
)
    requires
        types_wf(types),
    ensures
        spec_struct_align(types, i, members, uniform, n) >= 1,
    decreases i, 1int, n,
{
    if n > 0 {
        lemma_struct_align_pos(types, i, members, uniform, n - 1);
    }
}

/// Rounding up does not shrink a nonnegative value, and stays below
/// `x + a`.
pub proof fn lemma_align_up_ge(x: int, a: int)
    requires
        x >= 0,
        a >= 1,
    ensures
        x <= spec_align_up(x, a) < x + a,
        spec_align_up(x, a) % a == 0,
{
    if x % a != 0 {
        assert(0 <= x % a < a);
        assert((x + a - (x % a)) % a == 0) by {
            let q = x / a;
            vstd::arithmetic::div_mod::lemma_fundamental_div_mod(x, a);
            assert(x + a - (x % a) == (q + 1) * a) by {
                assert(x == q * a + x % a);
                assert((q + 1) * a == q * a + a) by (nonlinear_arith);
            }
            vstd::arithmetic::div_mod::lemma_mod_multiples_basic(q + 1, a);
        }
    }
}

/// An array stride is at least the element size.
pub proof fn lemma_stride_ge_size(types: Seq<TypeDef>, e: int, uniform: bool)
    requires
        types_wf(types),
    ensures
        spec_array_stride(types, e, uniform) >= spec_gpu_size(types, e, uniform),
    decreases e, 3int, 0int,
{
    lemma_gpu_size_nonneg(types, e, uniform);
    lemma_gpu_align_pos(types, e, uniform);
    lemma_align_up_ge(
        spec_gpu_size(types, e, uniform),
        round16(spec_gpu_align(types, e, uniform), uniform),
    );
}

/// A longer member prefix spans at least as far as a shorter one.
pub proof fn lemma_member_end_ge(
    types: Seq<TypeDef>,
    i: int,
    members: Seq<StructMember>,
    uniform: bool,
    a: int,
    b: int,
)
    requires
        types_wf(types),
        0 <= a <= b,
    ensures
        spec_member_end(types, i, members, uniform, a) <= spec_member_end(
            types,
            i,
            members,
            uniform,
            b,
        ),
    decreases i, 1int, b,
{
    if a < b {
        lemma_member_end_ge(types, i, members, uniform, a, b - 1);
        let mty = members[b - 1].ty as int;
        if 0 <= b - 1 < members.len() && mty < i {
            lemma_member_end_nonneg(types, i, members, uniform, b - 1);
            lemma_gpu_align_pos(types, mty, uniform);
            lemma_align_up_ge(
                spec_member_end(types, i, members, uniform, b - 1),
                spec_gpu_align(types, mty, uniform),
            );
            lemma_gpu_size_nonneg(types, mty, uniform);
        }
    }
}

/// A struct's size is at least the span of its members.
pub proof fn lemma_struct_size_ge_end(
    types: Seq<TypeDef>,
    i: int,
    members: Seq<StructMember>,
    uniform: bool,
)
    requires
        types_wf(types),
        0 <= i < types.len(),
        types[i].inner matches TypeInner::Struct { members: ms } && ms@ == members,
    ensures
        spec_gpu_size(types, i, uniform) >= spec_member_end(
            types,
            i,
            members,
            uniform,
            members.len() as int,
        ),
{
    lemma_member_end_nonneg(types, i, members, uniform, members.len() as int);
    lemma_gpu_align_pos(types, i, uniform);
    lemma_align_up_ge(
        spec_member_end(types, i, members, uniform, members.len() as int),
        spec_gpu_align(types, i, uniform),
    );
}

/// A host type descriptor: the host-side type name, its byte size and
/// alignment, and whether it is a runtime-sized array type.
#[derive(Debug, Clone)]
pub struct TypeDescriptor {
    pub host_name: String,
    pub size: u32,
    pub align: u32,
    pub runtime_sized: bool,
}

/// A project override mapping one vector shape to a host type.
#[derive(Debug, Clone)]
pub struct VectorMapEntry {
    pub size: u32,
    pub scalar: Scalar,
    pub host_name: String,
    pub host_size: u32,
    pub host_align: u32,
}

/// A project override mapping one matrix shape to a host type.
#[derive(Debug, Clone)]
pub struct MatrixMapEntry {
    pub columns: u32,
    pub rows: u32,
    pub scalar: Scalar,
    pub host_name: String,
    pub host_size: u32,
    pub host_align: u32,
}

/// The project-level custom type map: vector and matrix overrides,
/// searched in order, first match wins.
#[derive(Debug, Clone)]
pub struct WgslTypeMap {
    pub vectors: Vec<VectorMapEntry>,
    pub matrices: Vec<MatrixMapEntry>,
}

/// Whether one vector override is internally consistent: a usable
/// alignment, room for the components, a size that is a whole number of
/// alignment units, and an ASCII name.
pub open spec fn vector_entry_ok(e: VectorMapEntry) -> bool {
    &&& 2 <= e.size <= 4
    &&& (e.scalar.width == 4 || e.scalar.width == 8)
    &&& e.host_align >= 1
    &&& e.host_size >= e.size * e.scalar.width
    &&& e.host_size % e.host_align == 0
    &&& e.host_name@.len() > 0
    &&& is_ascii_chars(e.host_name@)
}

/// Whether one matrix override is internally consistent.
pub open spec fn matrix_entry_ok(e: MatrixMapEntry) -> bool {
    &&& 2 <= e.columns <= 4
    &&& 2 <= e.rows <= 4
    &&& (e.scalar.width == 4 || e.scalar.width == 8)
    &&& e.host_align >= 1
    &&& e.host_size >= e.columns * e.rows * e.scalar.width
    &&& e.host_size % e.host_align == 0
    &&& e.host_name@.len() > 0
    &&& is_ascii_chars(e.host_name@)
}

/// Whether every override of the map is consistent.
pub open spec fn type_map_ok(vecs: Seq<VectorMapEntry>, mats: Seq<MatrixMapEntry>) -> bool {
    &&& forall|k: int| 0 <= k < vecs.len() ==> vector_entry_ok(#[trigger] vecs[k])
    &&& forall|k: int| 0 <= k < mats.len() ==> matrix_entry_ok(#[trigger] mats[k])
}

/// The position of the first inconsistent override, vectors first.
pub open spec fn spec_first_bad_entry(
    vecs: Seq<VectorMapEntry>,
    mats: Seq<MatrixMapEntry>,
    n: int,
) -> Option<int>
    decreases n,
{
    if n <= 0 {
        None
    } else if spec_first_bad_entry(vecs, mats, n - 1) is Some {
        spec_first_bad_entry(vecs, mats, n - 1)
    } else if n - 1 < vecs.len() {
        if !vector_entry_ok(vecs[n - 1]) {
            Some(n - 1)
        } else {
            None
        }
    } else if n - 1 - vecs.len() < mats.len() {
        if !matrix_entry_ok(mats[n - 1 - vecs.len()]) {
            Some(n - 1)
        } else {
            None
        }
    } else {
        None
    }
}

/// Validates the custom type map eagerly, before generation: size and
/// alignment of every override must be consistent. The error names the
/// first offending entry's position (vectors first, then matrices).
#[verifier::loop_isolation(false)]
pub fn validate_type_map(map: &WgslTypeMap) -> (r: Result<(), CreateModuleError>)
    ensures
        ({
            let total = map.vectors@.len() + map.matrices@.len();
            match r {
                Ok(()) => type_map_ok(map.vectors@, map.matrices@) && spec_first_bad_entry(
                    map.vectors@,
                    map.matrices@,
                    total as int,
                ) is None,
                Err(e) => {
                    &&& spec_first_bad_entry(map.vectors@, map.matrices@, total as int)
                        matches Some(b)
                    &&& e == (CreateModuleError::LayoutConflict { ty: b as u32 })
                    &&& !type_map_ok(map.vectors@, map.matrices@)
                },
            }
        }),
{
    let nv = map.vectors.len();
    let mut k: usize = 0;
    while k < nv
        invariant
            k <= nv,
            spec_first_bad_entry(map.vectors@, map.matrices@, k as int) is None,
            forall|t: int| 0 <= t < k ==> vector_entry_ok(#[trigger] map.vectors@[t]),
        decreases nv - k,
    {
        let e = &map.vectors[k];
        let bounds = 2 <= e.size && e.size <= 4 && (e.scalar.width == 4 || e.scalar.width == 8);
        let mut ok = bounds && e.host_align >= 1 && e.host_size % e.host_align == 0
            && e.host_name.as_str().unicode_len() > 0 && e.host_name.as_str().is_ascii();
        if ok {
            proof {
                assert((e.size as int) * (e.scalar.width as int) <= 32) by (nonlinear_arith)
                    requires
                        e.size <= 4,
                        e.scalar.width <= 8,
                ;
            }
            ok = (e.host_size as u64) >= (e.size as u64) * (e.scalar.width as u64);
        }
        if !ok {
            proof {
                lemma_first_bad_persists(map.vectors@, map.matrices@, k + 1, (map.vectors@.len()
                    + map.matrices@.len()) as int);
            }
            return Err(CreateModuleError::LayoutConflict { ty: k as u32 });
        }
        k = k + 1;
    }
    let nm = map.matrices.len();
    let mut j: usize = 0;
    while j < nm
        invariant
            j <= nm,
            spec_first_bad_entry(map.vectors@, map.matrices@, (nv + j) as int) is None,
            forall|t: int| 0 <= t < nv ==> vector_entry_ok(#[trigger] map.vectors@[t]),
            forall|t: int| 0 <= t < j ==> matrix_entry_ok(#[trigger] map.matrices@[t]),
        decreases nm - j,
    {
        let e = &map.matrices[j];
        let bounds = 2 <= e.columns && e.columns <= 4 && 2 <= e.rows && e.rows <= 4 && (
        e.scalar.width == 4 || e.scalar.width == 8);
        let mut ok = bounds && e.host_align >= 1 && e.host_size % e.host_align == 0
            && e.host_name.as_str().unicode_len() > 0 && e.host_name.as_str().is_ascii();
        if ok {
            proof {
                assert((e.columns as int) * (e.rows as int) * (e.scalar.width as int) <= 128)
                    by (nonlinear_arith)
                    requires
                        e.columns <= 4,
                        e.rows <= 4,
                        e.scalar.width <= 8,
                ;
            }
            ok = (e.host_size as u64) >= (e.columns as u64) * (e.rows as u64) * (
            e.scalar.width as u64);
        }
        if !ok {
            proof {
                lemma_first_bad_persists(map.vectors@, map.matrices@, (nv + j + 1) as int, (
                map.vectors@.len() + map.matrices@.len()) as int);
            }
            return Err(CreateModuleError::LayoutConflict { ty: (nv as u128 + j as u128) as u32 });
        }
        j = j + 1;
    }
    Ok(())
}

proof fn lemma_first_bad_persists(
    vecs: Seq<VectorMapEntry>,
    mats: Seq<MatrixMapEntry>,
    a: int,
    b: int,
)
    requires
        0 <= a <= b,
        spec_first_bad_entry(vecs, mats, a) is Some,
    ensures
        spec_first_bad_entry(vecs, mats, b) == spec_first_bad_entry(vecs, mats, a),
    decreases b - a,
{
    if a < b {
        lemma_first_bad_persists(vecs, mats, a, b - 1);
    }
}

/// The first vector override matching the given shape.
pub open spec fn spec_find_vec(
    entries: Seq<VectorMapEntry>,
    size: u32,
    scalar: Scalar,
) -> Option<VectorMapEntry>
    decreases entries.len(),
{
    if entries.len() == 0 {
        None
    } else if entries[0].size == size && entries[0].scalar == scalar {
        Some(entries[0])
    } else {
        spec_find_vec(entries.drop_first(), size, scalar)
    }
}

/// The first matrix override matching the given shape.
pub open spec fn spec_find_mat(
    entries: Seq<MatrixMapEntry>,
    columns: u32,
    rows: u32,
    scalar: Scalar,
) -> Option<MatrixMapEntry>
    decreases entries.len(),
{
    if entries.len() == 0 {
        None
    } else if entries[0].columns == columns && entries[0].rows == rows && entries[0].scalar
        == scalar {
        Some(entries[0])
    } else {
        spec_find_mat(entries.drop_first(), columns, rows, scalar)
    }
}

fn find_vec(entries: &Vec<VectorMapEntry>, size: u32, scalar: Scalar) -> (r: Option<
    VectorMapEntry,
>)
    ensures
        r == spec_find_vec(entries@, size, scalar),
{
    proof {
        assert(entries@.skip(0) =~= entries@);
    }
    let mut k: usize = 0;
    while k < entries.len()
        invariant
            k <= entries@.len(),
            spec_find_vec(entries@, size, scalar) == spec_find_vec(
                entries@.skip(k as int),
                size,
                scalar,
            ),
        decreases entries@.len() - k,
    {
        let e = &entries[k];
        let hit = e.size == size && e.scalar.kind == scalar.kind && e.scalar.width
            == scalar.width;
        proof {
            assert(entries@.skip(k as int)[0] == entries@[k as int]);
            assert(entries@.skip(k as int).drop_first() =~= entries@.skip(k + 1));
        }
        if hit {
            return Some(VectorMapEntry {
                size: e.size,
                scalar: e.scalar,
                host_name: e.host_name.clone(),
                host_size: e.host_size,
                host_align: e.host_align,
            });
        }
        k = k + 1;
    }
    proof {
        assert(entries@.skip(entries@.len() as int).len() == 0);
    }
    None
}

fn find_mat(entries: &Vec<MatrixMapEntry>, columns: u32, rows: u32, scalar: Scalar) -> (r: Option<
    MatrixMapEntry,
>)
    ensures
        r == spec_find_mat(entries@, columns, rows, scalar),
{
    proof {
        assert(entries@.skip(0) =~= entries@);
    }
    let mut k: usize = 0;
    while k < entries.len()
        invariant
            k <= entries@.len(),
            spec_find_mat(entries@, columns, rows, scalar) == spec_find_mat(
                entries@.skip(k as int),
                columns,
                rows,
                scalar,
            ),
        decreases entries@.len() - k,
    {
        let e = &entries[k];
        let hit = e.columns == columns && e.rows == rows && e.scalar.kind == scalar.kind
            && e.scalar.width == scalar.width;
        proof {
            assert(entries@.skip(k as int)[0] == entries@[k as int]);
            assert(entries@.skip(k as int).drop_first() =~= entries@.skip(k + 1));
        }
        if hit {
            return Some(MatrixMapEntry {
                columns: e.columns,
                rows: e.rows,
                scalar: e.scalar,
                host_name: e.host_name.clone(),
                host_size: e.host_size,
                host_align: e.host_align,
            });
        }
        k = k + 1;
    }
    proof {
        assert(entries@.skip(entries@.len() as int).len() == 0);
    }
    None
}

/// The default host type name of a scalar shader type. The boolean
/// scalar maps to a 32-bit host word, since a host `bool` has no
/// GPU-compatible layout.
pub open spec fn scalar_name_bytes(s: Scalar) -> Seq<u8> {
    match s.kind {
        ScalarKind::Float => if s.width == 8 {
            seq![102u8, 54u8, 52u8]
        } else {
            seq![102u8, 51u8, 50u8]
        },
        ScalarKind::Sint => if s.width == 8 {
            seq![105u8, 54u8, 52u8]
        } else {
            seq![105u8, 51u8, 50u8]
        },
        ScalarKind::Uint => if s.width == 8 {
            seq![117u8, 54u8, 52u8]
        } else {
            seq![117u8, 51u8, 50u8]
        },
        ScalarKind::Bool => seq![117u8, 51u8, 50u8],
    }
}

/// The default host type name of a vector: an array of its scalar.
pub open spec fn vec_default_name(size: u32, s: Scalar) -> Seq<u8> {
    seq![91u8] + scalar_name_bytes(s) + seq![59u8, 32u8] + crate::text::dec_bytes(size as nat)
        + seq![93u8]
}

/// The default host type name of a matrix: an array of row vectors.
pub open spec fn mat_default_name(columns: u32, rows: u32, s: Scalar) -> Seq<u8> {
    seq![91u8] + vec_default_name(rows, s) + seq![59u8, 32u8] + crate::text::dec_bytes(
        columns as nat,
    ) + seq![93u8]
}

/// The host type descriptor of type `i`, when the type has one: its
/// host name bytes, byte size, alignment, and runtime-sized flag.
///
/// Scalars, vectors and matrices have built-in mappings, the latter two
/// overridable by the project map; fixed-size arrays map to host arrays
/// of their element; a named struct maps to its demangled, qualified
/// host record whose engineered layout equals the GPU layout under the
/// given usage. Textures, samplers, anonymous structs, types whose size
/// cannot be represented, and arrays of runtime-sized elements have
/// none.
#[verifier::opaque]
pub open spec fn spec_map_type(
    types: Seq<TypeDef>,
    i: int,
    vecs: Seq<VectorMapEntry>,
    mats: Seq<MatrixMapEntry>,
    uniform: bool,
) -> Option<(Seq<u8>, int, int, bool)>
    decreases i,
{
    if 0 <= i < types.len() {
        match types[i].inner {
            TypeInner::Scalar(s) => Some(
                (
                    scalar_name_bytes(s),
                    if s.kind is Bool {
                        4
                    } else {
                        s.width as int
                    },
                    if s.kind is Bool {
                        4
                    } else {
                        s.width as int
                    },
                    false,
                ),
            ),
            TypeInner::Vector { size, scalar } => match spec_find_vec(vecs, size, scalar) {
                Some(e) => Some(
                    (
                        crate::text::chars_to_bytes(e.host_name@),
                        e.host_size as int,
                        e.host_align as int,
                        false,
                    ),
                ),
                None => Some(
                    (
                        vec_default_name(size, scalar),
                        size * scalar.width,
                        scalar.width as int,
                        false,
                    ),
                ),
            },
            TypeInner::Matrix { columns, rows, scalar } => match spec_find_mat(
                mats,
                columns,
                rows,
                scalar,
            ) {
                Some(e) => Some(
                    (
                        crate::text::chars_to_bytes(e.host_name@),
                        e.host_size as int,
                        e.host_align as int,
                        false,
                    ),
                ),
                None => Some(
                    (
                        mat_default_name(columns, rows, scalar),
                        columns * rows * scalar.width,
                        scalar.width as int,
                        false,
                    ),
                ),
            },
            TypeInner::Array { element, count } => {
                if element < i {
                    match spec_map_type(types, element as int, vecs, mats, uniform) {
                        Some(ed) => {
                            if ed.3 {
                                None
                            } else {
                                match count {
                                    Some(n) => if n * ed.1 <= u32::MAX {
                                        Some(
                                            (
                                                seq![91u8] + ed.0 + seq![59u8, 32u8]
                                                    + crate::text::dec_bytes(n as nat)
                                                    + seq![93u8],
                                                n * ed.1,
                                                ed.2,
                                                false,
                                            ),
                                        )
                                    } else {
                                        None
                                    },
                                    None => Some((ed.0, ed.1, ed.2, true)),
                                }
                            }
                        },
                        None => None,
                    }
                } else {
                    None
                }
            },
            TypeInner::Struct { members } => match types[i].name {
                Some(nm) => if spec_gpu_size(types, i, uniform) <= u32::MAX {
                    Some(
                        (
                            crate::mangle::spec_demangle_qualified(
                                crate::text::chars_to_bytes(nm@),
                            ),
                            spec_gpu_size(types, i, uniform),
                            spec_gpu_align(types, i, uniform),
                            false,
                        ),
                    )
                } else {
                    None
                },
                None => None,
            },
            TypeInner::Texture => None,
            TypeInner::Sampler => None,
        }
    } else {
        None
    }
}

/// The host name bytes of a mappable type are ASCII.
pub proof fn lemma_map_type_ascii(
    types: Seq<TypeDef>,
    i: int,
    vecs: Seq<VectorMapEntry>,
    mats: Seq<MatrixMapEntry>,
    uniform: bool,
)
    requires
        types_wf(types),
        type_map_ok(vecs, mats),
    ensures
        spec_map_type(types, i, vecs, mats, uniform) matches Some(t) ==> crate::text::bytes_ascii(
            t.0,
        ),
    decreases i,
{
    reveal(spec_map_type);
    if 0 <= i < types.len() {
        match types[i].inner {
            TypeInner::Scalar(s) => {},
            TypeInner::Vector { size, scalar } => {
                match spec_find_vec(vecs, size, scalar) {
                    Some(e) => {
                        lemma_find_vec_member(vecs, size, scalar);
                        crate::text::lemma_ascii_chars_bytes_roundtrip(e.host_name@);
                    },
                    None => {
                        crate::text::lemma_dec_bytes_ascii(size as nat);
                    },
                }
            },
            TypeInner::Matrix { columns, rows, scalar } => {
                match spec_find_mat(mats, columns, rows, scalar) {
                    Some(e) => {
                        lemma_find_mat_member(mats, columns, rows, scalar);
                        crate::text::lemma_ascii_chars_bytes_roundtrip(e.host_name@);
                    },
                    None => {
                        crate::text::lemma_dec_bytes_ascii(columns as nat);
                        crate::text::lemma_dec_bytes_ascii(rows as nat);
                    },
                }
            },
            TypeInner::Array { element, count } => {
                if element < i {
                    lemma_map_type_ascii(types, element as int, vecs, mats, uniform);
                    if count is Some {
                        crate::text::lemma_dec_bytes_ascii(count->0 as nat);
                    }
                }
            },
            TypeInner::Struct { members } => {
                match types[i].name {
                    Some(nm) => {
                        crate::text::lemma_ascii_chars_bytes_roundtrip(nm@);
                        crate::mangle::lemma_demangle_qualified_ascii(
                            crate::text::chars_to_bytes(nm@),
                        );
                    },
                    None => {},
                }
            },
            _ => {},
        }
    }
}

/// A successful override lookup returns an element of the table.
pub proof fn lemma_find_vec_member(entries: Seq<VectorMapEntry>, size: u32, scalar: Scalar)
    ensures
        spec_find_vec(entries, size, scalar) matches Some(e) ==> exists|k: int|
            0 <= k < entries.len() && #[trigger] entries[k] == e,
    decreases entries.len(),
{
    if entries.len() > 0 && !(entries[0].size == size && entries[0].scalar == scalar) {
        lemma_find_vec_member(entries.drop_first(), size, scalar);
        match spec_find_vec(entries, size, scalar) {
            Some(e) => {
                let k = choose|k: int|
                    0 <= k < entries.drop_first().len() && #[trigger] entries.drop_first()[k]
                        == e;
                assert(entries[k + 1] == e);
            },
            None => {},
        }
    }
}

proof fn lemma_find_mat_member(entries: Seq<MatrixMapEntry>, columns: u32, rows: u32, scalar: Scalar)
    ensures
        spec_find_mat(entries, columns, rows, scalar) matches Some(e) ==> exists|k: int|
            0 <= k < entries.len() && #[trigger] entries[k] == e,
    decreases entries.len(),
{
    if entries.len() > 0 && !(entries[0].columns == columns && entries[0].rows == rows
        && entries[0].scalar == scalar) {
        lemma_find_mat_member(entries.drop_first(), columns, rows, scalar);
        match spec_find_mat(entries, columns, rows, scalar) {
            Some(e) => {
                let k = choose|k: int|
                    0 <= k < entries.drop_first().len() && #[trigger] entries.drop_first()[k]
                        == e;
                assert(entries[k + 1] == e);
            },
            None => {},
        }
    }
}

/// Appends the default scalar host type name to a fresh vector.
fn scalar_name(s: Scalar) -> (r: Vec<u8>)
    ensures
        r@ == scalar_name_bytes(s),
        crate::text::bytes_ascii(r@),
{
    let mut r: Vec<u8> = Vec::new();
    match s.kind {
        ScalarKind::Float => r.push(102),
        ScalarKind::Sint => {
            if s.width == 8 {
                r.push(105);
            } else {
                r.push(105);
            }
        },
        ScalarKind::Uint => r.push(117),
        ScalarKind::Bool => r.push(117),
    }
    match s.kind {
        ScalarKind::Bool => {
            r.push(51);
            r.push(50);
        },
        _ => {
            if s.width == 8 {
                r.push(54);
                r.push(52);
            } else {
                r.push(51);
                r.push(50);
            }
        },
    }
    proof {
        assert(r@ =~= scalar_name_bytes(s));
    }
    r
}

/// Maps shader type `i` to its host type descriptor, or
/// `UnsupportedType` naming `i` when it has no mapping.
#[verifier::loop_isolation(false)]
#[verifier::rlimit(100)]
#[verifier::spinoff_prover]
pub fn map_type(
    types: &Vec<TypeDef>,
    i: usize,
    map: &WgslTypeMap,
    uniform: bool,
) -> (r: Result<TypeDescriptor, CreateModuleError>)
    requires
        types_wf(types@),
        i < types@.len(),
        type_map_ok(map.vectors@, map.matrices@),
    ensures
        match r {
            Ok(d) => {
                &&& spec_map_type(types@, i as int, map.vectors@, map.matrices@, uniform)
                    matches Some(t)
                &&& d.host_name@ == crate::text::bytes_to_chars(t.0)
                &&& d.size == t.1
                &&& d.align == t.2
                &&& d.runtime_sized == t.3
                &&& is_ascii_chars(d.host_name@)
            },
            Err(e) => {
                &&& spec_map_type(types@, i as int, map.vectors@, map.matrices@, uniform)
                    is None
                &&& e == (CreateModuleError::UnsupportedType { ty: i as u32 })
            },
        },
    decreases i,
{
    proof {
        reveal(spec_map_type);
        assert(type_shape_wf(types@[i as int].inner));
        lemma_map_type_ascii(types@, i as int, map.vectors@, map.matrices@, uniform);
    }
    match &types[i].inner {
        TypeInner::Scalar(s) => {
            let nb = scalar_name(*s);
            let sz: u32 = if s.kind == ScalarKind::Bool {
                4
            } else {
                s.width
            };
            proof {
                crate::text::lemma_bytes_to_chars_ascii(nb@);
            }
            Ok(TypeDescriptor {
                host_name: crate::text::ascii_to_string(&nb),
                size: sz,
                align: sz,
                runtime_sized: false,
            })
        },
        TypeInner::Vector { size, scalar } => {
            match find_vec(&map.vectors, *size, *scalar) {
                Some(e) => {
                    proof {
                        lemma_find_vec_member(map.vectors@, *size, *scalar);
                    }
                    Ok(TypeDescriptor {
                        host_name: e.host_name,
                        size: e.host_size,
                        align: e.host_align,
                        runtime_sized: false,
                    })
                },
                None => {
                    let mut nb: Vec<u8> = Vec::new();
                    nb.push(91);
                    let sn = scalar_name(*scalar);
                    crate::text::push_all(&mut nb, &sn);
                    nb.push(59);
                    nb.push(32);
                    crate::text::push_dec(&mut nb, *size);
                    nb.push(93);
                    proof {
                        assert(nb@ =~= vec_default_name(*size, *scalar));
                        crate::text::lemma_bytes_to_chars_ascii(nb@);
                    }
                    Ok(TypeDescriptor {
                        host_name: crate::text::ascii_to_string(&nb),
                        size: *size * scalar.width,
                        align: scalar.width,
                        runtime_sized: false,
                    })
                },
            }
        },
        TypeInner::Matrix { columns, rows, scalar } => {
            match find_mat(&map.matrices, *columns, *rows, *scalar) {
                Some(e) => {
                    proof {
                        lemma_find_mat_member(map.matrices@, *columns, *rows, *scalar);
                    }
                    Ok(TypeDescriptor {
                        host_name: e.host_name,
                        size: e.host_size,
                        align: e.host_align,
                        runtime_sized: false,
                    })
                },
                None => {
                    let mut nb: Vec<u8> = Vec::new();
                    nb.push(91);
                    nb.push(91);
                    let sn = scalar_name(*scalar);
                    crate::text::push_all(&mut nb, &sn);
                    nb.push(59);
                    nb.push(32);
                    crate::text::push_dec(&mut nb, *rows);
                    nb.push(93);
                    nb.push(59);
                    nb.push(32);
                    crate::text::push_dec(&mut nb, *columns);
                    nb.push(93);
                    proof {
                        assert(nb@ =~= mat_default_name(*columns, *rows, *scalar));
                        crate::text::lemma_bytes_to_chars_ascii(nb@);
                        assert((*columns as int) * (*rows as int) * (scalar.width as int) <= 128)
                            by (nonlinear_arith)
                            requires
                                *columns <= 4,
                                *rows <= 4,
                                scalar.width <= 8,
                        ;
                    }
                    Ok(TypeDescriptor {
                        host_name: crate::text::ascii_to_string(&nb),
                        size: *columns * *rows * scalar.width,
                        align: scalar.width,
                        runtime_sized: false,
                    })
                },
            }
        },
        TypeInner::Array { element, count } => {
            proof {
                assert(type_refs_below(types@[i as int].inner, i as int));
            }
            let ed = map_type(types, *element as usize, map, uniform);
            match ed {
                Err(e) => Err(CreateModuleError::UnsupportedType { ty: i as u32 }),
                Ok(d) => {
                    if d.runtime_sized {
                        Err(CreateModuleError::UnsupportedType { ty: i as u32 })
                    } else {
                        match count {
                            Some(n) => {
                                proof {
                                    assert((*n as int) * (d.size as int) <= 0xffff_ffff
                                        * 0xffff_ffff) by (nonlinear_arith)
                                        requires
                                            (*n as int) <= 0xffff_ffff,
                                            0 <= (d.size as int) <= 0xffff_ffff,
                                    ;
                                }
                                let total = (*n as u64) * (d.size as u64);
                                if total > u32::MAX as u64 {
                                    Err(CreateModuleError::UnsupportedType { ty: i as u32 })
                                } else {
                                    let mut nb: Vec<u8> = Vec::new();
                                    nb.push(91);
                                    let en = crate::text::str_bytes(d.host_name.as_str());
                                    crate::text::push_all(&mut nb, &en);
                                    nb.push(59);
                                    nb.push(32);
                                    crate::text::push_dec(&mut nb, *n);
                                    nb.push(93);
                                    proof {
                                        let t = spec_map_type(
                                            types@,
                                            i as int,
                                            map.vectors@,
                                            map.matrices@,
                                            uniform,
                                        )->0;
                                        let et = spec_map_type(
                                            types@,
                                            *element as int,
                                            map.vectors@,
                                            map.matrices@,
                                            uniform,
                                        )->0;
                                        assert(en@ =~= et.0);
                                        assert(nb@ =~= t.0);
                                        crate::text::lemma_bytes_to_chars_ascii(nb@);
                                    }
                                    Ok(TypeDescriptor {
                                        host_name: crate::text::ascii_to_string(&nb),
                                        size: total as u32,
                                        align: d.align,
                                        runtime_sized: false,
                                    })
                                }
                            },
                            None => Ok(TypeDescriptor {
                                host_name: d.host_name,
                                size: d.size,
                                align: d.align,
                                runtime_sized: true,
                            }),
                        }
                    }
                },
            }
        },
        TypeInner::Struct { members } => {
            match &types[i].name {
                Some(nm) => {
                    let gs = gpu_size(types, i, uniform);
                    match gs {
                        Err(()) => Err(CreateModuleError::UnsupportedType { ty: i as u32 }),
                        Ok(sz) => {
                            let ga = gpu_align(types, i, uniform);
                            let qn = crate::mangle::demangle_and_qualify(nm.as_str());
                            Ok(TypeDescriptor {
                                host_name: qn,
                                size: sz as u32,
                                align: ga as u32,
                                runtime_sized: false,
                            })
                        },
                    }
                },
                None => Err(CreateModuleError::UnsupportedType { ty: i as u32 }),
            }
        },
        TypeInner::Texture => Err(CreateModuleError::UnsupportedType { ty: i as u32 }),
        TypeInner::Sampler => Err(CreateModuleError::UnsupportedType { ty: i as u32 }),
    }
}

/// One field of a built host record: the member name, its shader type
/// index, its GPU-mandated offset and size, and its host type.
#[derive(Debug, Clone)]
pub struct FieldLayout {
    pub name: String,
    pub ty: u32,
    pub offset: u32,
    pub size: u32,
    pub host_name: String,
    pub host_size: u32,
    pub host_align: u32,
}

/// A built host record for one shader struct: its host name, its
/// fields at their GPU-mandated offsets, and its engineered byte size
/// and alignment, equal to the GPU-mandated ones.
#[derive(Debug)]
pub struct StructLayout {
    pub name: String,
    pub fields: Vec<FieldLayout>,
    pub size: u32,
    pub align: u32,
}

/// The first problem among the first `n` members: an unmappable or
/// unrepresentably large member type, or a runtime-sized member that is
/// not the last member of a storage-bound struct.
pub open spec fn first_member_err(
    types: Seq<TypeDef>,
    i: int,
    members: Seq<StructMember>,
    vecs: Seq<VectorMapEntry>,
    mats: Seq<MatrixMapEntry>,
    uniform: bool,
    n: int,
) -> Option<CreateModuleError>
    decreases n,
{
    if n <= 0 {
        None
    } else if first_member_err(types, i, members, vecs, mats, uniform, n - 1) is Some {
        first_member_err(types, i, members, vecs, mats, uniform, n - 1)
    } else {
        let mty = members[n - 1].ty as int;
        match spec_map_type(types, mty, vecs, mats, uniform) {
            None => Some(CreateModuleError::UnsupportedType { ty: members[n - 1].ty }),
            Some(t) => {
                if t.3 && (uniform || n != members.len()) {
                    Some(CreateModuleError::LayoutConflict { ty: i as u32 })
                } else if spec_gpu_size(types, mty, uniform) > u32::MAX {
                    Some(CreateModuleError::UnsupportedType { ty: members[n - 1].ty })
                } else {
                    None
                }
            },
        }
    }
}

/// Whether the engineered host layout can match the GPU layout exactly:
/// every member's GPU offset falls on its host alignment, every host
/// alignment divides the record's GPU alignment, and every host size
/// fits in the span up to the next member's offset (or the record end).
pub open spec fn direct_fit(
    types: Seq<TypeDef>,
    i: int,
    members: Seq<StructMember>,
    vecs: Seq<VectorMapEntry>,
    mats: Seq<MatrixMapEntry>,
    uniform: bool,
) -> bool {
    forall|k: int|
        0 <= k < members.len() ==> {
            let t = spec_map_type(types, #[trigger] members[k].ty as int, vecs, mats, uniform)->0;
            let span_end = if k + 1 < members.len() {
                spec_member_offset(types, i, members, uniform, k + 1)
            } else {
                spec_gpu_size(types, i, uniform)
            };
            &&& t.2 >= 1
            &&& spec_member_offset(types, i, members, uniform, k) % t.2 == 0
            &&& spec_gpu_align(types, i, uniform) % t.2 == 0
            &&& t.1 <= span_end - spec_member_offset(types, i, members, uniform, k)
        }
}

/// The verdict of the struct builder: the first problem it reports, or
/// `None` when the record can be built.
pub open spec fn spec_build_err(
    types: Seq<TypeDef>,
    i: int,
    members: Seq<StructMember>,
    vecs: Seq<VectorMapEntry>,
    mats: Seq<MatrixMapEntry>,
    strategy: WgslTypeSerializeStrategy,
    uniform: bool,
) -> Option<CreateModuleError> {
    if !(0 <= i < types.len()) || types[i].name is None {
        Some(CreateModuleError::UnsupportedType { ty: i as u32 })
    } else if first_member_err(types, i, members, vecs, mats, uniform, members.len() as int)
        is Some {
        first_member_err(types, i, members, vecs, mats, uniform, members.len() as int)
    } else if spec_gpu_size(types, i, uniform) > u32::MAX {
        Some(CreateModuleError::UnsupportedType { ty: i as u32 })
    } else if strategy is DirectReinterpret && !direct_fit(types, i, members, vecs, mats, uniform) {
        Some(CreateModuleError::LayoutConflict { ty: i as u32 })
    } else {
        None
    }
}

proof fn lemma_first_member_err_persists(
    types: Seq<TypeDef>,
    i: int,
    members: Seq<StructMember>,
    vecs: Seq<VectorMapEntry>,
    mats: Seq<MatrixMapEntry>,
    uniform: bool,
    a: int,
    b: int,
)
    requires
        0 <= a <= b,
        first_member_err(types, i, members, vecs, mats, uniform, a) is Some,
    ensures
        first_member_err(types, i, members, vecs, mats, uniform, b) == first_member_err(
            types,
            i,
            members,
            vecs,
            mats,
            uniform,
            a,
        ),
    decreases b - a,
{
    if a < b {
        lemma_first_member_err_persists(types, i, members, vecs, mats, uniform, a, b - 1);
    }
}

/// The shared shape of the per-member descriptor facts.
pub open spec fn descs_match(
    types: Seq<TypeDef>,
    members: Seq<StructMember>,
    vecs: Seq<VectorMapEntry>,
    mats: Seq<MatrixMapEntry>,
    uniform: bool,
    ds: Seq<TypeDescriptor>,
) -> bool {
    &&& ds.len() == members.len()
    &&& forall|t: int|
        0 <= t < members.len() ==> {
            let d = spec_map_type(types, #[trigger] members[t].ty as int, vecs, mats, uniform);
            &&& d is Some
            &&& ds[t].host_name@ == crate::text::bytes_to_chars((d->0).0)
            &&& ds[t].size == (d->0).1
            &&& ds[t].align == (d->0).2
            &&& ds[t].runtime_sized == (d->0).3
            &&& spec_gpu_size(types, members[t].ty as int, uniform) <= u32::MAX
        }
}

/// The shared shape of the per-field layout facts.
pub open spec fn fields_match(
    types: Seq<TypeDef>,
    i: int,
    members: Seq<StructMember>,
    vecs: Seq<VectorMapEntry>,
    mats: Seq<MatrixMapEntry>,
    uniform: bool,
    fs: Seq<FieldLayout>,
) -> bool {
    &&& fs.len() == members.len()
    &&& forall|t: int|
        0 <= t < members.len() ==> {
            let d = spec_map_type(types, #[trigger] members[t].ty as int, vecs, mats, uniform)->0;
            &&& fs[t].name@ == members[t].name@
            &&& fs[t].ty == members[t].ty
            &&& fs[t].offset == spec_member_offset(types, i, members, uniform, t)
            &&& fs[t].size == spec_gpu_size(types, members[t].ty as int, uniform)
            &&& fs[t].host_name@ == crate::text::bytes_to_chars(d.0)
            &&& fs[t].host_size == d.1
            &&& fs[t].host_align == d.2
        }
}

#[verifier::loop_isolation(false)]
fn build_member_descs(
    types: &Vec<TypeDef>,
    i: usize,
    map: &WgslTypeMap,
    uniform: bool,
) -> (r: Result<Vec<TypeDescriptor>, CreateModuleError>)
    requires
        types_wf(types@),
        i < types@.len(),
        type_map_ok(map.vectors@, map.matrices@),
        types@[i as int].inner matches TypeInner::Struct { members: ms },
    ensures
        ({
            let members = types@[i as int].inner->Struct_members@;
            match r {
                Ok(ds) => first_member_err(
                    types@,
                    i as int,
                    members,
                    map.vectors@,
                    map.matrices@,
                    uniform,
                    members.len() as int,
                ) is None && descs_match(
                    types@,
                    members,
                    map.vectors@,
                    map.matrices@,
                    uniform,
                    ds@,
                ),
                Err(e) => first_member_err(
                    types@,
                    i as int,
                    members,
                    map.vectors@,
                    map.matrices@,
                    uniform,
                    members.len() as int,
                ) == Some(e),
            }
        }),
{
    let ghost members = types@[i as int].inner->Struct_members@;
    let mlist = match &types[i].inner {
        TypeInner::Struct { members: ms } => ms,
        _ => {
            proof {
                assert(false);
            }
            return Err(CreateModuleError::UnsupportedType { ty: i as u32 });
        },
    };
    let nmem = mlist.len();
    let mut descs: Vec<TypeDescriptor> = Vec::new();
    let mut k: usize = 0;
    while k < nmem
        invariant
            k <= nmem,
            nmem == members.len(),
            mlist@ == members,
            first_member_err(
                types@,
                i as int,
                members,
                map.vectors@,
                map.matrices@,
                uniform,
                k as int,
            ) is None,
            descs@.len() == k,
            forall|t: int|
                0 <= t < k ==> {
                    let d = spec_map_type(
                        types@,
                        #[trigger] members[t].ty as int,
                        map.vectors@,
                        map.matrices@,
                        uniform,
                    );
                    &&& d is Some
                    &&& descs@[t].host_name@ == crate::text::bytes_to_chars((d->0).0)
                    &&& descs@[t].size == (d->0).1
                    &&& descs@[t].align == (d->0).2
                    &&& descs@[t].runtime_sized == (d->0).3
                    &&& spec_gpu_size(types@, members[t].ty as int, uniform) <= u32::MAX
                },
        decreases nmem - k,
    {
        proof {
            assert(type_refs_below(types@[i as int].inner, i as int));
            assert(members[k as int].ty < i);
        }
        let mty = mlist[k].ty;
        let d = match map_type(types, mty as usize, map, uniform) {
            Ok(d) => d,
            Err(e) => {
                proof {
                    lemma_first_member_err_persists(
                        types@,
                        i as int,
                        members,
                        map.vectors@,
                        map.matrices@,
                        uniform,
                        k + 1,
                        members.len() as int,
                    );
                }
                return Err(e);
            },
        };
        if d.runtime_sized && (uniform || k + 1 != nmem) {
            proof {
                lemma_first_member_err_persists(
                    types@,
                    i as int,
                    members,
                    map.vectors@,
                    map.matrices@,
                    uniform,
                    k + 1,
                    members.len() as int,
                );
            }
            return Err(CreateModuleError::LayoutConflict { ty: i as u32 });
        }
        match gpu_size(types, mty as usize, uniform) {
            Err(()) => {
                proof {
                    lemma_first_member_err_persists(
                        types@,
                        i as int,
                        members,
                        map.vectors@,
                        map.matrices@,
                        uniform,
                        k + 1,
                        members.len() as int,
                    );
                }
                return Err(CreateModuleError::UnsupportedType { ty: mty });
            },
            Ok(_) => {},
        }
        descs.push(d);
        k = k + 1;
    }
    Ok(descs)
}

#[verifier::loop_isolation(false)]
fn compute_field_layouts(
    types: &Vec<TypeDef>,
    i: usize,
    map: &WgslTypeMap,
    uniform: bool,
    descs: &Vec<TypeDescriptor>,
) -> (r: Result<(Vec<FieldLayout>, u64), ()>)
    requires
        types_wf(types@),
        i < types@.len(),
        types@[i as int].inner matches TypeInner::Struct { members: ms },
        descs_match(
            types@,
            types@[i as int].inner->Struct_members@,
            map.vectors@,
            map.matrices@,
            uniform,
            descs@,
        ),
    ensures
        ({
            let members = types@[i as int].inner->Struct_members@;
            match r {
                Ok((fs, total)) => {
                    &&& total == spec_gpu_size(types@, i as int, uniform)
                    &&& total <= u32::MAX
                    &&& fields_match(
                        types@,
                        i as int,
                        members,
                        map.vectors@,
                        map.matrices@,
                        uniform,
                        fs@,
                    )
                },
                Err(()) => spec_gpu_size(types@, i as int, uniform) > u32::MAX,
            }
        }),
{
    let ghost members = types@[i as int].inner->Struct_members@;
    let mlist = match &types[i].inner {
        TypeInner::Struct { members: ms } => ms,
        _ => {
            proof {
                assert(false);
            }
            return Err(());
        },
    };
    let nmem = mlist.len();
    let mut fields: Vec<FieldLayout> = Vec::new();
    let mut end: u64 = 0;
    let mut k2: usize = 0;
    while k2 < nmem
        invariant
            k2 <= nmem,
            nmem == members.len(),
            mlist@ == members,
            end == spec_member_end(types@, i as int, members, uniform, k2 as int),
            end <= u32::MAX,
            fields@.len() == k2,
            forall|t: int|
                0 <= t < k2 ==> {
                    let d = spec_map_type(
                        types@,
                        #[trigger] members[t].ty as int,
                        map.vectors@,
                        map.matrices@,
                        uniform,
                    )->0;
                    &&& fields@[t].name@ == members[t].name@
                    &&& fields@[t].ty == members[t].ty
                    &&& fields@[t].offset == spec_member_offset(
                        types@,
                        i as int,
                        members,
                        uniform,
                        t,
                    )
                    &&& fields@[t].size == spec_gpu_size(types@, members[t].ty as int, uniform)
                    &&& fields@[t].host_name@ == crate::text::bytes_to_chars(d.0)
                    &&& fields@[t].host_size == d.1
                    &&& fields@[t].host_align == d.2
                },
        decreases nmem - k2,
    {
        proof {
            reveal(crate::layout::spec_member_offset);
            assert(type_refs_below(types@[i as int].inner, i as int));
            assert(members[k2 as int].ty < i);
        }
        let mty = mlist[k2].ty;
        let ma = gpu_align(types, mty as usize, uniform);
        let off = align_up_u64(end, ma);
        let msz = match gpu_size(types, mty as usize, uniform) {
            Ok(v) => v,
            Err(()) => {
                proof {
                    assert(false);
                }
                return Err(());
            },
        };
        let new_end = off + msz;
        if new_end > u32::MAX as u64 {
            proof {
                lemma_member_end_ge(
                    types@,
                    i as int,
                    members,
                    uniform,
                    k2 + 1,
                    members.len() as int,
                );
                lemma_struct_size_ge_end(types@, i as int, members, uniform);
            }
            return Err(());
        }
        let d = &descs[k2];
        fields.push(FieldLayout {
            name: mlist[k2].name.clone(),
            ty: mty,
            offset: off as u32,
            size: msz as u32,
            host_name: d.host_name.clone(),
            host_size: d.size,
            host_align: d.align,
        });
        end = new_end;
        k2 = k2 + 1;
    }
    let sa = gpu_align(types, i, uniform);
    let total = align_up_u64(end, sa);
    if total > u32::MAX as u64 {
        return Err(());
    }
    Ok((fields, total))
}

#[verifier::loop_isolation(false)]
#[verifier::rlimit(100)]
#[verifier::spinoff_prover]
fn check_direct_fit(
    types: &Vec<TypeDef>,
    i: usize,
    map: &WgslTypeMap,
    uniform: bool,
    fields: &Vec<FieldLayout>,
    total: u64,
    sa: u64,
) -> (r: bool)
    requires
        types_wf(types@),
        i < types@.len(),
        types@[i as int].inner matches TypeInner::Struct { members: ms },
        total == spec_gpu_size(types@, i as int, uniform),
        sa == spec_gpu_align(types@, i as int, uniform),
        sa <= 32,
        fields_match(
            types@,
            i as int,
            types@[i as int].inner->Struct_members@,
            map.vectors@,
            map.matrices@,
            uniform,
            fields@,
        ),
    ensures
        r == direct_fit(
            types@,
            i as int,
            types@[i as int].inner->Struct_members@,
            map.vectors@,
            map.matrices@,
            uniform,
        ),
{
    let ghost members = types@[i as int].inner->Struct_members@;
    let nmem = fields.len();
    let mut k3: usize = 0;
    while k3 < nmem
        invariant
            k3 <= nmem,
            nmem == members.len(),
            forall|t: int|
                0 <= t < k3 ==> {
                    let d = spec_map_type(
                        types@,
                        #[trigger] members[t].ty as int,
                        map.vectors@,
                        map.matrices@,
                        uniform,
                    )->0;
                    let span_end = if t + 1 < members.len() {
                        spec_member_offset(types@, i as int, members, uniform, t + 1)
                    } else {
                        spec_gpu_size(types@, i as int, uniform)
                    };
                    &&& d.2 >= 1
                    &&& spec_member_offset(types@, i as int, members, uniform, t) % d.2 == 0
                    &&& spec_gpu_align(types@, i as int, uniform) % d.2 == 0
                    &&& d.1 <= span_end - spec_member_offset(types@, i as int, members, uniform, t)
                },
        decreases nmem - k3,
    {
        proof {
            assert(members[k3 as int].ty < i) by {
                assert(type_refs_below(types@[i as int].inner, i as int));
            }
            if k3 + 1 < nmem {
                assert(members[k3 + 1].ty < i) by {
                    assert(type_refs_below(types@[i as int].inner, i as int));
                }
            }
        }
        let f = &fields[k3];
        let span_end: u64 = if k3 + 1 < nmem {
            fields[k3 + 1].offset as u64
        } else {
            total
        };
        let ok = f.host_align >= 1 && f.offset % f.host_align == 0 && (sa as u32) % f.host_align
            == 0 && (f.host_size as u64) + (f.offset as u64) <= span_end;
        if !ok {
            proof {
                if direct_fit(types@, i as int, members, map.vectors@, map.matrices@, uniform) {
                    let d = spec_map_type(
                        types@,
                        members[k3 as int].ty as int,
                        map.vectors@,
                        map.matrices@,
                        uniform,
                    )->0;
                    let se = if k3 + 1 < members.len() {
                        spec_member_offset(types@, i as int, members, uniform, k3 + 1)
                    } else {
                        spec_gpu_size(types@, i as int, uniform)
                    };
                    assert(d.2 >= 1 && spec_member_offset(types@, i as int, members, uniform, k3 as int)
                        % d.2 == 0 && spec_gpu_align(types@, i as int, uniform) % d.2 == 0 && d.1
                        <= se - spec_member_offset(types@, i as int, members, uniform, k3 as int));
                    assert(false);
                }
            }
            return false;
        }
        k3 = k3 + 1;
    }
    true
}

/// Builds the layout-checked host record for the struct at arena index
/// `i`, under the chosen serialization strategy and buffer usage.
///
/// On success the record's byte size and alignment equal the
/// GPU-mandated size and alignment for the given usage, and every field
/// sits at its GPU-mandated offset. Under `DirectReinterpret` the
/// host types must be able to realize that layout exactly; a struct
/// that cannot raises `LayoutConflict`, and a member without a host
/// mapping raises `UnsupportedType`.
pub fn build_struct(
    types: &Vec<TypeDef>,
    i: usize,
    map: &WgslTypeMap,
    strategy: WgslTypeSerializeStrategy,
    uniform: bool,
) -> (r: Result<StructLayout, CreateModuleError>)
    requires
        types_wf(types@),
        i < types@.len(),
        type_map_ok(map.vectors@, map.matrices@),
        types@[i as int].inner matches TypeInner::Struct { members: ms },
    ensures
        ({
            let members = types@[i as int].inner->Struct_members@;
            match r {
                Ok(sl) => {
                    &&& spec_build_err(
                        types@,
                        i as int,
                        members,
                        map.vectors@,
                        map.matrices@,
                        strategy,
                        uniform,
                    ) is None
                    &&& sl.name@ == crate::text::bytes_to_chars(
                        crate::mangle::spec_demangle_qualified(
                            crate::text::chars_to_bytes(types@[i as int].name->0@),
                        ),
                    )
                    &&& sl.size == spec_gpu_size(types@, i as int, uniform)
                    &&& sl.align == spec_gpu_align(types@, i as int, uniform)
                    &&& fields_match(
                        types@,
                        i as int,
                        members,
                        map.vectors@,
                        map.matrices@,
                        uniform,
                        sl.fields@,
                    )
                },
                Err(e) => spec_build_err(
                    types@,
                    i as int,
                    members,
                    map.vectors@,
                    map.matrices@,
                    strategy,
                    uniform,
                ) == Some(e),
            }
        }),
{
    let nm = match &types[i].name {
        Some(n) => n.clone(),
        None => {
            return Err(CreateModuleError::UnsupportedType { ty: i as u32 });
        },
    };
    let descs = match build_member_descs(types, i, map, uniform) {
        Ok(d) => d,
        Err(e) => {
            return Err(e);
        },
    };
    let (fields, total) = match compute_field_layouts(types, i, map, uniform, &descs) {
        Ok(p) => p,
        Err(()) => {
            return Err(CreateModuleError::UnsupportedType { ty: i as u32 });
        },
    };
    let sa = gpu_align(types, i, uniform);
    let is_direct = match strategy {
        WgslTypeSerializeStrategy::DirectReinterpret => true,
        WgslTypeSerializeStrategy::RuntimeEncoded => false,
    };
    if is_direct {
        if !check_direct_fit(types, i, map, uniform, &fields, total, sa) {
            return Err(CreateModuleError::LayoutConflict { ty: i as u32 });
        }
    }
    let qn = crate::mangle::demangle_and_qualify(nm.as_str());
    Ok(StructLayout { name: qn, fields, size: total as u32, align: sa as u32 })
}

} // verus!
