//! Bind group analysis.
//!
//! Walks the module's global resource variables, classifies each bound
//! variable by resource kind, computes the shader stages it is visible
//! to, validates the structural constraints (no duplicate
//! (group, binding) slot, group indices contiguous from zero), and
//! produces one ordered resource table per group.

use vstd::prelude::*;

verus! {

use crate::CreateModuleError;
use crate::ir::{AddressSpace, EntryPoint, GlobalVariable, Module, ShaderStage, TypeDef, TypeInner};
use crate::ir::{classifiable, module_wf};

/// The kind of resource one binding refers to.
#[derive(Debug, Clone, Copy, PartialEq, Eq, Structural)]
pub enum ResourceKind {
    UniformBuffer,
    StorageBuffer { read_only: bool },
    Texture,
    Sampler,
}

/// The set of pipeline stages a resource is visible to.
#[derive(Debug, Clone, Copy, PartialEq, Eq, Structural)]
pub struct StageSet {
    pub vertex: bool,
    pub fragment: bool,
    pub compute: bool,
}

/// One validated resource binding of the analyzed module.
#[derive(Debug, Clone)]
pub struct ResourceBinding {
    pub name: String,
    pub group: u32,
    pub binding: u32,
    pub kind: ResourceKind,
    pub visibility: StageSet,
    pub ty: u32,
}

/// The bind group table: `groups[g]` lists the resources of group `g`,
/// ordered by ascending binding index.
#[derive(Debug)]
pub struct BindGroupTable {
    pub groups: Vec<Vec<ResourceBinding>>,
}

/// Whether global `i` of the module is a resource variable (it carries a
/// (group, binding) attribute).
pub open spec fn is_resource(m: Module, i: int) -> bool {
    0 <= i < m.globals@.len() && m.globals@[i].binding is Some
}

/// The group index of resource `i`.
pub open spec fn group_of(m: Module, i: int) -> int {
    m.globals@[i].binding->0.group as int
}

/// The binding index of resource `i`.
pub open spec fn binding_of(m: Module, i: int) -> int {
    m.globals@[i].binding->0.binding as int
}

/// Whether entry point `e` reaches global `g`.
pub open spec fn entry_uses(e: EntryPoint, g: u32) -> bool {
    exists|k: int| 0 <= k < e.used_globals@.len() && e.used_globals@[k] == g
}

/// The stages global `g` is visible to: every stage whose entry points
/// reach it.
pub open spec fn spec_visibility(eps: Seq<EntryPoint>, g: u32) -> StageSet {
    StageSet {
        vertex: exists|i: int|
            0 <= i < eps.len() && (#[trigger] eps[i]).stage is Vertex && entry_uses(eps[i], g),
        fragment: exists|i: int|
            0 <= i < eps.len() && (#[trigger] eps[i]).stage is Fragment && entry_uses(eps[i], g),
        compute: exists|i: int|
            0 <= i < eps.len() && (#[trigger] eps[i]).stage is Compute && entry_uses(eps[i], g),
    }
}

/// The resource kind of a classifiable global variable.
pub open spec fn spec_kind(types: Seq<TypeDef>, g: GlobalVariable) -> ResourceKind {
    match g.space {
        AddressSpace::Uniform => ResourceKind::UniformBuffer,
        AddressSpace::Storage { read_only } => ResourceKind::StorageBuffer { read_only },
        AddressSpace::Handle => if types[g.ty as int].inner is Texture {
            ResourceKind::Texture
        } else {
            ResourceKind::Sampler
        },
        AddressSpace::Other => ResourceKind::UniformBuffer,
    }
}

/// The resource binding derived from resource `i` of the module.
pub open spec fn spec_binding(m: Module, i: int) -> ResourceBinding {
    ResourceBinding {
        name: m.globals@[i].name,
        group: m.globals@[i].binding->0.group,
        binding: m.globals@[i].binding->0.binding,
        kind: spec_kind(m.types@, m.globals@[i]),
        visibility: spec_visibility(m.entry_points@, i as u32),
        ty: m.globals@[i].ty,
    }
}

/// Whether resources `i` and `j` collide on one (group, binding) slot.
pub open spec fn slot_clash(m: Module, i: int, j: int) -> bool {
    &&& is_resource(m, i)
    &&& is_resource(m, j)
    &&& group_of(m, i) == group_of(m, j)
    &&& binding_of(m, i) == binding_of(m, j)
}

/// The binding index of the first duplicate slot among the first `n`
/// globals, scanning in declaration order, if any.
pub open spec fn first_dup_upto(m: Module, n: int) -> Option<u32>
    decreases n,
{
    if n <= 0 {
        None
    } else if first_dup_upto(m, n - 1) is Some {
        first_dup_upto(m, n - 1)
    } else if is_resource(m, n - 1) && (exists|i: int|
        0 <= i < n - 1 && #[trigger] slot_clash(m, i, n - 1)) {
        Some(m.globals@[n - 1].binding->0.binding)
    } else {
        None
    }
}

/// The first duplicate slot of the whole module, if any.
pub open spec fn first_dup(m: Module) -> Option<u32> {
    first_dup_upto(m, m.globals@.len() as int)
}

/// One more than the largest group index among the first `n` globals,
/// or zero when none of them is a resource.
pub open spec fn num_groups_upto(m: Module, n: int) -> int
    decreases n,
{
    if n <= 0 {
        0
    } else {
        let r = num_groups_upto(m, n - 1);
        if is_resource(m, n - 1) && group_of(m, n - 1) + 1 > r {
            group_of(m, n - 1) + 1
        } else {
            r
        }
    }
}

/// One more than the largest group index in use, or zero.
pub open spec fn num_groups(m: Module) -> int {
    num_groups_upto(m, m.globals@.len() as int)
}

/// Whether some resource uses group `g`.
pub open spec fn group_in_use(m: Module, g: int) -> bool {
    exists|i: int| is_resource(m, i) && group_of(m, i) == g
}

/// Whether the group indices in use are exactly `0..n` for some n.
pub open spec fn groups_contiguous(m: Module) -> bool {
    forall|g: int| 0 <= g < num_groups(m) ==> group_in_use(m, g)
}

/// Inserts a resource binding into a list ordered by ascending binding
/// index, before the first element with a larger binding index.
pub open spec fn insert_by_binding(s: Seq<ResourceBinding>, rb: ResourceBinding) -> Seq<
    ResourceBinding,
>
    decreases s.len(),
{
    if s.len() == 0 {
        seq![rb]
    } else if rb.binding < s[0].binding {
        seq![rb] + s
    } else {
        seq![s[0]] + insert_by_binding(s.drop_first(), rb)
    }
}

/// The ordered resource list of group `g`, restricted to the first `n`
/// globals.
pub open spec fn group_list_upto(m: Module, g: int, n: int) -> Seq<ResourceBinding>
    decreases n,
{
    if n <= 0 {
        Seq::empty()
    } else {
        let t = group_list_upto(m, g, n - 1);
        if is_resource(m, n - 1) && group_of(m, n - 1) == g {
            insert_by_binding(t, spec_binding(m, n - 1))
        } else {
            t
        }
    }
}

/// The ordered resource list of group `g` for the whole module.
pub open spec fn group_list(m: Module, g: int) -> Seq<ResourceBinding> {
    group_list_upto(m, g, m.globals@.len() as int)
}

/// Whether a resource list is strictly ordered by binding index.
pub open spec fn sorted_strict(s: Seq<ResourceBinding>) -> bool {
    forall|i: int, j: int| 0 <= i < j < s.len() ==> s[i].binding < s[j].binding
}

proof fn lemma_insert_props(s: Seq<ResourceBinding>, rb: ResourceBinding)
    ensures
        insert_by_binding(s, rb).len() == s.len() + 1,
        forall|x: ResourceBinding|
            #[trigger] insert_by_binding(s, rb).contains(x) <==> (s.contains(x) || x == rb),
        sorted_strict(s) && (forall|k: int| 0 <= k < s.len() ==> (#[trigger] s[k]).binding
            != rb.binding) ==> sorted_strict(insert_by_binding(s, rb)),
    decreases s.len(),
{
    let r = insert_by_binding(s, rb);
    if s.len() == 0 {
        assert forall|x: ResourceBinding| #[trigger] r.contains(x) implies (s.contains(x) || x
            == rb) by {
            assert(r[0] == rb);
        }
        assert(r.contains(rb));
    } else if rb.binding < s[0].binding {
        assert forall|x: ResourceBinding| (s.contains(x) || x == rb) implies #[trigger] r.contains(
            x,
        ) by {
            if x == rb {
                assert(r[0] == x);
            } else {
                let k = choose|k: int| 0 <= k < s.len() && s[k] == x;
                assert(r[k + 1] == x);
            }
        }
        assert forall|x: ResourceBinding| #[trigger] r.contains(x) implies (s.contains(x) || x
            == rb) by {
            let k = choose|k: int| 0 <= k < r.len() && r[k] == x;
            if k > 0 {
                assert(s[k - 1] == x);
            }
        }
    } else {
        let tail = s.drop_first();
        lemma_insert_props(tail, rb);
        let rt = insert_by_binding(tail, rb);
        assert(r == seq![s[0]] + rt);
        assert forall|x: ResourceBinding| (s.contains(x) || x == rb) implies #[trigger] r.contains(
            x,
        ) by {
            if x == rb || tail.contains(x) {
                assert(rt.contains(x));
                let k = choose|k: int| 0 <= k < rt.len() && rt[k] == x;
                assert(r[k + 1] == x);
            } else {
                let k = choose|k: int| 0 <= k < s.len() && s[k] == x;
                if k == 0 {
                    assert(r[0] == x);
                } else {
                    assert(tail[k - 1] == x);
                    assert(tail.contains(x));
                }
            }
        }
        assert forall|x: ResourceBinding| #[trigger] r.contains(x) implies (s.contains(x) || x
            == rb) by {
            let k = choose|k: int| 0 <= k < r.len() && r[k] == x;
            if k == 0 {
                assert(s[0] == x);
            } else {
                assert(rt.contains(x));
                if tail.contains(x) {
                    let t = choose|t: int| 0 <= t < tail.len() && tail[t] == x;
                    assert(s[t + 1] == x);
                }
            }
        }
        if sorted_strict(s) && (forall|k: int|
            0 <= k < s.len() ==> (#[trigger] s[k]).binding != rb.binding) {
            assert(forall|k: int| 0 <= k < tail.len() ==> (#[trigger] tail[k]).binding
                != rb.binding) by {
                assert(forall|k: int| 0 <= k < tail.len() ==> tail[k] == s[k + 1]);
            }
            assert(sorted_strict(tail));
            assert(sorted_strict(rt));
            assert forall|i: int, j: int| 0 <= i < j < r.len() implies r[i].binding
                < r[j].binding by {
                if i == 0 {
                    assert(r[j] == rt[j - 1]);
                    assert(rt.contains(rt[j - 1]));
                    if rt[j - 1] == rb {
                        assert(s[0].binding < rb.binding);
                    } else {
                        assert(tail.contains(rt[j - 1]));
                        let t = choose|t: int| 0 <= t < tail.len() && tail[t] == rt[j - 1];
                        assert(s[t + 1] == tail[t]);
                    }
                } else {
                    assert(r[i] == rt[i - 1] && r[j] == rt[j - 1]);
                }
            }
        }
    }
}

/// What a group's resource list holds: strictly binding-ordered
/// entries, exactly the resources of group `g` among the first `n`
/// globals.
pub proof fn lemma_group_list_props(m: Module, g: int, n: int)
    requires
        0 <= n <= m.globals@.len(),
        first_dup_upto(m, n) is None,
    ensures
        sorted_strict(group_list_upto(m, g, n)),
        forall|x: ResourceBinding|
            #[trigger] group_list_upto(m, g, n).contains(x) <==> exists|i: int|
                0 <= i < n && is_resource(m, i) && group_of(m, i) == g && x == spec_binding(m, i),
    decreases n,
{
    if n > 0 {
        lemma_group_list_props(m, g, n - 1);
        let t = group_list_upto(m, g, n - 1);
        if is_resource(m, n - 1) && group_of(m, n - 1) == g {
            let rb = spec_binding(m, n - 1);
            lemma_insert_props(t, rb);
            assert forall|k: int| 0 <= k < t.len() implies (#[trigger] t[k]).binding
                != rb.binding by {
                assert(t.contains(t[k]));
                let i = choose|i: int|
                    0 <= i < n - 1 && is_resource(m, i) && group_of(m, i) == g && t[k]
                        == spec_binding(m, i);
                if t[k].binding == rb.binding {
                    assert(slot_clash(m, i, n - 1));
                    assert(first_dup_upto(m, n) is Some);
                }
            }
        }
    }
}

proof fn lemma_first_dup_none_prefix(m: Module, n: int)
    requires
        first_dup_upto(m, n) is None,
    ensures
        forall|k: int| 0 <= k <= n ==> first_dup_upto(m, k) is None,
    decreases n,
{
    if n > 0 {
        lemma_first_dup_none_prefix(m, n - 1);
    }
}

/// A `Some` verdict of the duplicate scan names a real collision: two
/// distinct resources sharing one slot, whose binding index is the one
/// named.
pub proof fn lemma_first_dup_witness(m: Module, n: int)
    requires
        first_dup_upto(m, n) is Some,
    ensures
        exists|i: int, j: int|
            i < j < n && #[trigger] slot_clash(m, i, j) && binding_of(m, j) == first_dup_upto(
                m,
                n,
            )->0,
    decreases n,
{
    if n > 0 {
        if first_dup_upto(m, n - 1) is Some {
            lemma_first_dup_witness(m, n - 1);
            let (i, j) = choose|i: int, j: int|
                i < j < n - 1 && #[trigger] slot_clash(m, i, j) && binding_of(m, j)
                    == first_dup_upto(m, n - 1)->0;
            assert(slot_clash(m, i, j));
        } else {
            let i = choose|i: int| 0 <= i < n - 1 && #[trigger] slot_clash(m, i, n - 1);
            assert(slot_clash(m, i, n - 1));
        }
    }
}

/// A `None` verdict of the duplicate scan means no two resources share
/// a slot.
pub proof fn lemma_first_dup_complete(m: Module, n: int)
    requires
        first_dup_upto(m, n) is None,
    ensures
        forall|i: int, j: int| 0 <= i < j < n ==> !slot_clash(m, i, j),
    decreases n,
{
    if n > 0 {
        lemma_first_dup_none_prefix(m, n);
        lemma_first_dup_complete(m, n - 1);
        assert forall|i: int, j: int| 0 <= i < j < n implies !slot_clash(m, i, j) by {
            if j == n - 1 && slot_clash(m, i, j) {
                assert(is_resource(m, n - 1));
                assert(first_dup_upto(m, n) is Some);
            }
        }
    }
}

/// A group is in use exactly when its resource list is nonempty.
proof fn lemma_group_nonempty(m: Module, g: int)
    requires
        first_dup(m) is None,
    ensures
        group_in_use(m, g) <==> group_list(m, g).len() > 0,
{
    lemma_group_list_props(m, g, m.globals@.len() as int);
    let s = group_list(m, g);
    if s.len() > 0 {
        assert(s.contains(s[0]));
    }
    if group_in_use(m, g) {
        let i = choose|i: int| is_resource(m, i) && group_of(m, i) == g;
        assert(s.contains(spec_binding(m, i)));
    }
}

/// Every group index in use is below `num_groups`.
proof fn lemma_group_below_num(m: Module, n: int)
    ensures
        forall|i: int|
            0 <= i < n && is_resource(m, i) ==> #[trigger] group_of(m, i) < num_groups_upto(m, n),
        num_groups_upto(m, n) <= num_groups_upto(m, n + 1),
    decreases n,
{
    if n > 0 {
        lemma_group_below_num(m, n - 1);
    }
}

proof fn lemma_num_groups_mono(m: Module, a: int, b: int)
    requires
        a <= b,
    ensures
        num_groups_upto(m, a) <= num_groups_upto(m, b),
    decreases b - a,
{
    if a < b {
        lemma_num_groups_mono(m, a, b - 1);
        lemma_group_below_num(m, b - 1);
    }
}

/// Whether entry point `e` reaches global `g`.
fn uses_global(e: &EntryPoint, g: u32) -> (r: bool)
    ensures
        r == entry_uses(*e, g),
{
    let mut k: usize = 0;
    while k < e.used_globals.len()
        invariant
            k <= e.used_globals@.len(),
            forall|t: int| 0 <= t < k ==> e.used_globals@[t] != g,
        decreases e.used_globals@.len() - k,
    {
        if e.used_globals[k] == g {
            return true;
        }
        k = k + 1;
    }
    false
}

/// Computes the stage visibility of global `g`: one flag per stage with
/// an entry point that reaches the global.
pub fn stage_visibility(m: &Module, g: u32) -> (r: StageSet)
    ensures
        r == spec_visibility(m.entry_points@, g),
{
    let mut vis = StageSet { vertex: false, fragment: false, compute: false };
    let mut i: usize = 0;
    while i < m.entry_points.len()
        invariant
            i <= m.entry_points@.len(),
            vis.vertex == exists|t: int|
                0 <= t < i && (#[trigger] m.entry_points@[t]).stage is Vertex && entry_uses(
                    m.entry_points@[t],
                    g,
                ),
            vis.fragment == exists|t: int|
                0 <= t < i && (#[trigger] m.entry_points@[t]).stage is Fragment && entry_uses(
                    m.entry_points@[t],
                    g,
                ),
            vis.compute == exists|t: int|
                0 <= t < i && (#[trigger] m.entry_points@[t]).stage is Compute && entry_uses(
                    m.entry_points@[t],
                    g,
                ),
        decreases m.entry_points@.len() - i,
    {
        let e = &m.entry_points[i];
        if uses_global(e, g) {
            match e.stage {
                ShaderStage::Vertex => {
                    vis.vertex = true;
                },
                ShaderStage::Fragment => {
                    vis.fragment = true;
                },
                ShaderStage::Compute => {
                    vis.compute = true;
                },
            }
        }
        i = i + 1;
    }
    vis
}

/// Classifies a bound global variable by its address space and type.
fn classify(m: &Module, gi: usize) -> (r: ResourceKind)
    requires
        module_wf(*m),
        is_resource(*m, gi as int),
    ensures
        r == spec_kind(m.types@, m.globals@[gi as int]),
{
    let g = &m.globals[gi];
    match g.space {
        AddressSpace::Uniform => ResourceKind::UniformBuffer,
        AddressSpace::Storage { read_only } => ResourceKind::StorageBuffer { read_only },
        AddressSpace::Handle => {
            assert(classifiable(m.types@, m.globals@[gi as int]));
            match &m.types[g.ty as usize].inner {
                TypeInner::Texture => ResourceKind::Texture,
                _ => ResourceKind::Sampler,
            }
        },
        AddressSpace::Other => {
            assert(classifiable(m.types@, m.globals@[gi as int]));
            ResourceKind::UniformBuffer
        },
    }
}

/// Finds the insertion slot for binding index `b` in a strictly ordered
/// list: `Ok(pos)` when `b` is absent, `Err(())` when present.
fn find_slot(lst: &Vec<ResourceBinding>, b: u32) -> (r: Result<usize, ()>)
    requires
        sorted_strict(lst@),
    ensures
        match r {
            Ok(pos) => pos <= lst@.len() && (forall|k: int|
                0 <= k < pos ==> (#[trigger] lst@[k]).binding < b) && (forall|k: int|
                pos <= k < lst@.len() ==> (#[trigger] lst@[k]).binding > b),
            Err(()) => exists|k: int| 0 <= k < lst@.len() && (#[trigger] lst@[k]).binding == b,
        },
{
    let mut pos: usize = 0;
    while pos < lst.len()
        invariant
            pos <= lst@.len(),
            sorted_strict(lst@),
            forall|k: int| 0 <= k < pos ==> (#[trigger] lst@[k]).binding < b,
        decreases lst@.len() - pos,
    {
        let cur = lst[pos].binding;
        if cur == b {
            return Err(());
        }
        if cur > b {
            return Ok(pos);
        }
        pos = pos + 1;
    }
    Ok(pos)
}

/// For a strictly ordered list, inserting at the slot found by
/// [`find_slot`] realizes [`insert_by_binding`].
proof fn lemma_insert_at_slot(s: Seq<ResourceBinding>, rb: ResourceBinding, pos: int)
    requires
        sorted_strict(s),
        0 <= pos <= s.len(),
        forall|k: int| 0 <= k < pos ==> (#[trigger] s[k]).binding < rb.binding,
        forall|k: int| pos <= k < s.len() ==> (#[trigger] s[k]).binding > rb.binding,
    ensures
        s.insert(pos, rb) =~= insert_by_binding(s, rb),
    decreases s.len(),
{
    if s.len() == 0 {
    } else if rb.binding < s[0].binding {
        assert(pos == 0);
    } else {
        assert(pos > 0);
        let tail = s.drop_first();
        assert(forall|k: int| 0 <= k < tail.len() ==> tail[k] == s[k + 1]);
        lemma_insert_at_slot(tail, rb, pos - 1);
        assert(s.insert(pos, rb) =~= seq![s[0]] + tail.insert(pos - 1, rb));
    }
}

/// Analyzes the module's resource bindings into a bind group table.
///
/// The verdict is a function of the module alone. On success the table
/// has one entry per group index `0..n`, each a nonempty list of that
/// group's resources in strictly ascending binding order, holding
/// exactly the module's bound globals. Two globals sharing one
/// (group, binding) slot raise `DuplicateBinding` naming the colliding
/// binding index; otherwise, group indices in use that are not exactly
/// `0..n` raise `NonConsecutiveBindGroups`.
#[verifier::loop_isolation(false)]
pub fn get_bind_group_data(m: &Module) -> (r: Result<BindGroupTable, CreateModuleError>)
    requires
        module_wf(*m),
    ensures
        match r {
            Ok(t) => {
                &&& first_dup(*m) is None
                &&& groups_contiguous(*m)
                &&& t.groups@.len() == num_groups(*m)
                &&& forall|g: int|
                    0 <= g < t.groups@.len() ==> (#[trigger] t.groups@[g])@ == group_list(*m, g)
                &&& forall|g: int|
                    0 <= g < t.groups@.len() ==> (#[trigger] t.groups@[g])@.len() > 0
                &&& forall|g: int|
                    0 <= g < t.groups@.len() ==> sorted_strict((#[trigger] t.groups@[g])@)
                &&& forall|g: int, x: ResourceBinding|
                    0 <= g < t.groups@.len() ==> (#[trigger] t.groups@[g]@.contains(x) <==>
                    exists|i: int|
                        is_resource(*m, i) && group_of(*m, i) == g && x == spec_binding(*m, i))
            },
            Err(e) => {
                ||| {
                    &&& first_dup(*m) matches Some(b)
                    &&& e == (CreateModuleError::DuplicateBinding { binding: b })
                    &&& exists|i: int, j: int|
                        #[trigger] slot_clash(*m, i, j) && i < j && binding_of(*m, j) == b
                }
                ||| {
                    &&& first_dup(*m) is None
                    &&& !groups_contiguous(*m)
                    &&& e == CreateModuleError::NonConsecutiveBindGroups
                }
            },
        },
{
    let mut groups: Vec<Vec<ResourceBinding>> = Vec::new();
    let mut gi: usize = 0;
    while gi < m.globals.len()
        invariant
            gi <= m.globals@.len(),
            first_dup_upto(*m, gi as int) is None,
            groups@.len() == num_groups_upto(*m, gi as int),
            forall|g: int|
                0 <= g < groups@.len() ==> (#[trigger] groups@[g])@ == group_list_upto(
                    *m,
                    g,
                    gi as int,
                ),
        decreases m.globals@.len() - gi,
    {
        proof {
            lemma_group_below_num(*m, gi as int);
        }
        match &m.globals[gi].binding {
            None => {
                proof {
                    assert(!is_resource(*m, gi as int));
                    assert(groups@.len() == num_groups_upto(*m, gi + 1));
                    assert(forall|g: int|
                        0 <= g < groups@.len() ==> (#[trigger] groups@[g])@ == group_list_upto(
                            *m,
                            g,
                            gi + 1,
                        ));
                }
            },
            Some(rid) => {
                let group_no = rid.group;
                let binding_no = rid.binding;
                let group_idx = group_no as usize;
                while groups.len() <= group_idx
                    invariant
                        forall|g: int|
                            0 <= g < groups@.len() ==> (#[trigger] groups@[g])@
                                == group_list_upto(*m, g, gi as int),
                        groups@.len() >= num_groups_upto(*m, gi as int),
                        groups@.len() <= group_idx + 1 || groups@.len() == num_groups_upto(
                            *m,
                            gi as int,
                        ),
                    decreases group_idx + 1 - groups@.len(),
                {
                    proof {
                        let gnew = groups@.len() as int;
                        lemma_group_list_props(*m, gnew, gi as int);
                        let s = group_list_upto(*m, gnew, gi as int);
                        if s.len() > 0 {
                            assert(s.contains(s[0]));
                            let i = choose|i: int|
                                0 <= i < gi && is_resource(*m, i) && group_of(*m, i) == gnew
                                    && s[0] == spec_binding(*m, i);
                            assert(false);
                        }
                    }
                    groups.push(Vec::new());
                }
                let kind = classify(m, gi);
                let vis = stage_visibility(m, gi as u32);
                let name = m.globals[gi].name.clone();
                let ty = m.globals[gi].ty;
                let rb = ResourceBinding {
                    name,
                    group: group_no,
                    binding: binding_no,
                    kind,
                    visibility: vis,
                    ty,
                };
                proof {
                    assert(rb == spec_binding(*m, gi as int));
                    lemma_group_list_props(*m, group_idx as int, gi as int);
                }
                let slot = find_slot(&groups[group_idx], binding_no);
                match slot {
                    Ok(pos) => {
                        proof {
                            lemma_insert_at_slot(groups@[group_idx as int]@, rb, pos as int);
                        }
                        let lst = &mut groups[group_idx];
                        lst.insert(pos, rb);
                        proof {
                            assert forall|g: int| 0 <= g < groups@.len() implies (
                            #[trigger] groups@[g])@ == group_list_upto(*m, g, gi + 1) by {
                                if g != group_idx as int {
                                    assert(groups@[g]@ == group_list_upto(*m, g, gi as int));
                                }
                            }
                            assert(first_dup_upto(*m, gi + 1) is None) by {
                                if exists|i: int| 0 <= i < gi && slot_clash(*m, i, gi as int) {
                                    let i = choose|i: int|
                                        0 <= i < gi && slot_clash(*m, i, gi as int);
                                    let s = group_list_upto(*m, group_idx as int, gi as int);
                                    assert(s.contains(spec_binding(*m, i)));
                                    let k = choose|k: int| 0 <= k < s.len() && s[k] == spec_binding(*m, i);
                                    assert(s[k].binding == binding_no);
                                }
                            }
                            assert(groups@.len() == num_groups_upto(*m, gi + 1));
                        }
                    },
                    Err(()) => {
                        proof {
                            let s = groups@[group_idx as int]@;
                            let k = choose|k: int|
                                0 <= k < s.len() && (#[trigger] s[k]).binding == binding_no;
                            assert(s.contains(s[k]));
                            let i = choose|i: int|
                                0 <= i < gi && is_resource(*m, i) && group_of(*m, i)
                                    == group_idx as int && s[k] == spec_binding(*m, i);
                            assert(slot_clash(*m, i, gi as int));
                            assert(first_dup_upto(*m, gi + 1) == Some(binding_no));
                            lemma_first_dup_some_persists(*m, gi + 1, m.globals@.len() as int);
                        }
                        return Err(CreateModuleError::DuplicateBinding { binding: binding_no });
                    },
                }
            },
        }
        gi = gi + 1;
    }
    let mut g: usize = 0;
    while g < groups.len()
        invariant
            first_dup(*m) is None,
            groups@.len() == num_groups(*m),
            forall|t: int|
                0 <= t < groups@.len() ==> (#[trigger] groups@[t])@ == group_list(*m, t),
            g <= groups@.len(),
            forall|t: int| 0 <= t < g ==> group_in_use(*m, t),
        decreases groups@.len() - g,
    {
        if groups[g].is_empty() {
            proof {
                lemma_group_nonempty(*m, g as int);
                assert(!group_in_use(*m, g as int));
            }
            return Err(CreateModuleError::NonConsecutiveBindGroups);
        }
        proof {
            lemma_group_nonempty(*m, g as int);
        }
        g = g + 1;
    }
    proof {
        assert(groups_contiguous(*m));
        assert forall|t: int| 0 <= t < groups@.len() implies (#[trigger] groups@[t])@.len()
            > 0 by {
            lemma_group_nonempty(*m, t);
        }
        assert forall|t: int| 0 <= t < groups@.len() implies sorted_strict(
            (#[trigger] groups@[t])@,
        ) by {
            lemma_group_list_props(*m, t, m.globals@.len() as int);
        }
        assert forall|t: int, x: ResourceBinding| 0 <= t < groups@.len() implies (
        #[trigger] groups@[t]@.contains(x) <==> exists|i: int|
            is_resource(*m, i) && group_of(*m, i) == t && x == spec_binding(*m, i)) by {
            lemma_group_list_props(*m, t, m.globals@.len() as int);
            if groups@[t]@.contains(x) {
                let i = choose|i: int|
                    0 <= i < m.globals@.len() && is_resource(*m, i) && group_of(*m, i) == t && x
                        == spec_binding(*m, i);
                assert(is_resource(*m, i) && group_of(*m, i) == t && x == spec_binding(*m, i));
            }
        }
    }
    Ok(BindGroupTable { groups })
}

/// Once the duplicate scan has fired within a prefix, it stays fired.
proof fn lemma_first_dup_some_persists(m: Module, a: int, b: int)
    requires
        0 <= a <= b,
        first_dup_upto(m, a) is Some,
    ensures
        first_dup_upto(m, b) == first_dup_upto(m, a),
    decreases b - a,
{
    if a < b {
        lemma_first_dup_some_persists(m, a, b - 1);
    }
}

} // verus!
