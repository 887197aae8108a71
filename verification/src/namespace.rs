//! The namespace tree: ordered modules of ordered, unique declarations.
//!
//! Declarations are placed by (module path, name); on a collision with
//! an identical body the first-seen declaration is kept, and a
//! collision with a different body is an internal consistency error.
//! Module order and item order are first-seen, so output is
//! reproducible run over run.

use vstd::prelude::*;

verus! {

use crate::CreateModuleError;
use crate::decl::{DeclBody, Declaration, DeclarationV};
use crate::mangle::{demangle_splitting_mod_path_and_item, spec_demangle};
use crate::text::{bytes_to_chars, chars_to_bytes};
use vstd::utf8::is_ascii_chars;

/// One module of the tree: its path and its declarations, in
/// first-seen order.
#[derive(Debug)]
pub struct NamespaceModule {
    pub path: String,
    pub items: Vec<Declaration>,
}

/// The view of a namespace module.
#[verifier::ext_equal]
pub struct NamespaceModuleV {
    pub path: Seq<char>,
    pub items: Seq<DeclarationV>,
}

impl View for NamespaceModule {
    type V = NamespaceModuleV;

    open spec fn view(&self) -> NamespaceModuleV {
        NamespaceModuleV { path: self.path@, items: self.items.deep_view() }
    }
}

impl DeepView for NamespaceModule {
    type V = NamespaceModuleV;

    open spec fn deep_view(&self) -> NamespaceModuleV {
        self@
    }
}

/// The namespace tree: modules in first-seen order.
#[derive(Debug)]
pub struct NamespaceTree {
    pub modules: Vec<NamespaceModule>,
}

impl View for NamespaceTree {
    type V = Seq<NamespaceModuleV>;

    open spec fn view(&self) -> Seq<NamespaceModuleV> {
        self.modules.deep_view()
    }
}

/// The position of the first module with the given path.
pub open spec fn mod_idx(ms: Seq<NamespaceModuleV>, path: Seq<char>) -> Option<int>
    decreases ms.len(),
{
    if ms.len() == 0 {
        None
    } else if ms[0].path == path {
        Some(0)
    } else {
        match mod_idx(ms.drop_first(), path) {
            Some(i) => Some(i + 1),
            None => None,
        }
    }
}

/// The position of the first declaration with the given name.
pub open spec fn item_idx(items: Seq<DeclarationV>, name: Seq<char>) -> Option<int>
    decreases items.len(),
{
    if items.len() == 0 {
        None
    } else if items[0].name == name {
        Some(0)
    } else {
        match item_idx(items.drop_first(), name) {
            Some(i) => Some(i + 1),
            None => None,
        }
    }
}

/// Adds one declaration under one module path: a new module is
/// appended, a new name is appended to its module, an identical
/// duplicate is dropped, and a same-name declaration with a different
/// body is refused.
pub open spec fn spec_tree_add(
    t: Seq<NamespaceModuleV>,
    path: Seq<char>,
    d: DeclarationV,
) -> Result<Seq<NamespaceModuleV>, ()> {
    match mod_idx(t, path) {
        None => Ok(t + seq![NamespaceModuleV { path, items: seq![d] }]),
        Some(mi) => match item_idx(t[mi].items, d.name) {
            None => Ok(
                t.update(mi, NamespaceModuleV { path, items: t[mi].items + seq![d] }),
            ),
            Some(ii) => if t[mi].items[ii].body == d.body {
                Ok(t)
            } else {
                Err(())
            },
        },
    }
}

/// Merges a list of (module path, declaration) pairs into a tree, in
/// order, stopping at the first inconsistent declaration.
pub open spec fn spec_add_all(
    t: Seq<NamespaceModuleV>,
    pairs: Seq<(Seq<char>, DeclarationV)>,
) -> Result<Seq<NamespaceModuleV>, ()>
    decreases pairs.len(),
{
    if pairs.len() == 0 {
        Ok(t)
    } else {
        match spec_tree_add(t, pairs[0].0, pairs[0].1) {
            Ok(t2) => spec_add_all(t2, pairs.drop_first()),
            Err(()) => Err(()),
        }
    }
}

/// Determinism of the merge engine: applying the same declaration
/// sequence to the same starting tree yields the same tree.
pub proof fn lemma_merge_deterministic(
    t: Seq<NamespaceModuleV>,
    pairs: Seq<(Seq<char>, DeclarationV)>,
    r1: Seq<NamespaceModuleV>,
    r2: Seq<NamespaceModuleV>,
)
    requires
        spec_add_all(t, pairs) == Ok::<_, ()>(r1),
        spec_add_all(t, pairs) == Ok::<_, ()>(r2),
    ensures
        r1 == r2,
{
}

/// What a `mod_idx` verdict means.
pub proof fn lemma_mod_idx_char(ms: Seq<NamespaceModuleV>, path: Seq<char>)
    ensures
        match mod_idx(ms, path) {
            Some(i) => 0 <= i < ms.len() && ms[i].path == path && forall|j: int|
                0 <= j < i ==> (#[trigger] ms[j]).path != path,
            None => forall|j: int| 0 <= j < ms.len() ==> (#[trigger] ms[j]).path != path,
        },
    decreases ms.len(),
{
    if ms.len() > 0 && ms[0].path != path {
        lemma_mod_idx_char(ms.drop_first(), path);
        match mod_idx(ms, path) {
            Some(i) => {
                assert(ms[i] == ms.drop_first()[i - 1]);
                assert forall|j: int| 0 <= j < i implies (#[trigger] ms[j]).path != path by {
                    if j > 0 {
                        assert(ms.drop_first()[j - 1].path != path);
                        assert(ms[j] == ms.drop_first()[j - 1]);
                    }
                }
            },
            None => {
                assert forall|j: int| 0 <= j < ms.len() implies (#[trigger] ms[j]).path
                    != path by {
                    if j > 0 {
                        assert(ms.drop_first()[j - 1].path != path);
                        assert(ms[j] == ms.drop_first()[j - 1]);
                    }
                }
            },
        }
    }
}

proof fn lemma_item_idx_char(items: Seq<DeclarationV>, name: Seq<char>)
    ensures
        match item_idx(items, name) {
            Some(i) => 0 <= i < items.len() && items[i].name == name && forall|j: int|
                0 <= j < i ==> (#[trigger] items[j]).name != name,
            None => forall|j: int| 0 <= j < items.len() ==> (#[trigger] items[j]).name != name,
        },
    decreases items.len(),
{
    if items.len() > 0 && items[0].name != name {
        lemma_item_idx_char(items.drop_first(), name);
        match item_idx(items, name) {
            Some(i) => {
                assert(items[i] == items.drop_first()[i - 1]);
                assert forall|j: int| 0 <= j < i implies (#[trigger] items[j]).name != name by {
                    if j > 0 {
                        assert(items.drop_first()[j - 1].name != name);
                        assert(items[j] == items.drop_first()[j - 1]);
                    }
                }
            },
            None => {
                assert forall|j: int| 0 <= j < items.len() implies (#[trigger] items[j]).name
                    != name by {
                    if j > 0 {
                        assert(items.drop_first()[j - 1].name != name);
                        assert(items[j] == items.drop_first()[j - 1]);
                    }
                }
            },
        }
    }
}

/// Finds the first module with the given path.
#[verifier::loop_isolation(false)]
fn find_module(ms: &Vec<NamespaceModule>, path: &String) -> (r: Option<usize>)
    ensures
        ({
            let v = mod_idx(ms.deep_view(), path@);
            match r {
                Some(i) => v == Some(i as int),
                None => v is None,
            }
        }),
{
    proof {
        lemma_mod_idx_char(ms.deep_view(), path@);
    }
    let mut mi: usize = 0;
    while mi < ms.len()
        invariant
            mi <= ms@.len(),
            forall|j: int| 0 <= j < mi ==> (#[trigger] ms.deep_view()[j]).path != path@,
        decreases ms@.len() - mi,
    {
        if ms[mi].path.eq(path) {
            proof {
                assert(ms.deep_view()[mi as int].path == path@);
                if mod_idx(ms.deep_view(), path@) is None {
                    assert(false);
                }
            }
            return Some(mi);
        }
        proof {
            assert(ms.deep_view()[mi as int].path != path@);
        }
        mi = mi + 1;
    }
    proof {
        match mod_idx(ms.deep_view(), path@) {
            Some(i) => {
                assert(ms.deep_view()[i].path == path@);
                assert(false);
            },
            None => {},
        }
    }
    None
}

/// Finds the first declaration with the given name.
#[verifier::loop_isolation(false)]
fn find_item(items: &Vec<Declaration>, name: &String) -> (r: Option<usize>)
    ensures
        ({
            let v = item_idx(items.deep_view(), name@);
            match r {
                Some(i) => v == Some(i as int),
                None => v is None,
            }
        }),
{
    proof {
        lemma_item_idx_char(items.deep_view(), name@);
    }
    let mut ii: usize = 0;
    while ii < items.len()
        invariant
            ii <= items@.len(),
            forall|j: int| 0 <= j < ii ==> (#[trigger] items.deep_view()[j]).name != name@,
        decreases items@.len() - ii,
    {
        if items[ii].name.eq(name) {
            proof {
                assert(items.deep_view()[ii as int].name == name@);
                if item_idx(items.deep_view(), name@) is None {
                    assert(false);
                }
            }
            return Some(ii);
        }
        proof {
            assert(items.deep_view()[ii as int].name != name@);
        }
        ii = ii + 1;
    }
    proof {
        match item_idx(items.deep_view(), name@) {
            Some(i) => {
                assert(items.deep_view()[i].name == name@);
                assert(false);
            },
            None => {},
        }
    }
    None
}

impl NamespaceTree {
    /// The empty tree.
    pub fn new() -> (r: NamespaceTree)
        ensures
            r@ =~= Seq::<NamespaceModuleV>::empty(),
    {
        NamespaceTree { modules: Vec::new() }
    }

    /// Adds one declaration under the given module path, deduplicating
    /// identical declarations and refusing a same-identity declaration
    /// with a different body.
    pub fn add(&mut self, path: String, decl: Declaration) -> (r: Result<(), CreateModuleError>)
        ensures
            match r {
                Ok(()) => spec_tree_add(old(self)@, path@, decl@) == Ok::<_, ()>(final(self)@),
                Err(e) => {
                    &&& e == CreateModuleError::InconsistentDeclaration
                    &&& spec_tree_add(old(self)@, path@, decl@) is Err
                    &&& final(self)@ == old(self)@
                },
            },
    {
        let ghost pv = path@;
        let ghost dv = decl@;
        match find_module(&self.modules, &path) {
            None => {
                let mut items: Vec<Declaration> = Vec::new();
                items.push(decl);
                self.modules.push(NamespaceModule { path, items });
                proof {
                    assert(self@ =~~= old(self)@ + seq![
                        NamespaceModuleV { path: pv, items: seq![dv] },
                    ]);
                }
                Ok(())
            },
            Some(mi) => {
                proof {
                    lemma_mod_idx_char(old(self)@, pv);
                }
                match find_item(&self.modules[mi].items, &decl.name) {
                    None => {
                        let ghost orig = self@;
                        let mref = &mut self.modules[mi];
                        mref.items.push(decl);
                        proof {
                            assert(self@ =~~= orig.update(
                                mi as int,
                                NamespaceModuleV {
                                    path: orig[mi as int].path,
                                    items: orig[mi as int].items + seq![dv],
                                },
                            ));
                            assert(orig[mi as int].path == pv);
                            assert(NamespaceModuleV {
                                path: orig[mi as int].path,
                                items: orig[mi as int].items + seq![dv],
                            } == NamespaceModuleV {
                                path: pv,
                                items: orig[mi as int].items + seq![dv],
                            });
                        }
                        Ok(())
                    },
                    Some(ii) => {
                        proof {
                            lemma_item_idx_char(old(self)@[mi as int].items, dv.name);
                        }
                        if body_matches(&self.modules[mi].items[ii].body, &decl.body) {
                            proof {
                                assert(old(self)@[mi as int].items[ii as int].body == dv.body);
                            }
                            Ok(())
                        } else {
                            proof {
                                assert(old(self)@[mi as int].items[ii as int].body != dv.body);
                            }
                            Err(CreateModuleError::InconsistentDeclaration)
                        }
                    },
                }
            },
        }
    }
}

fn body_matches(a: &DeclBody, b: &DeclBody) -> (r: bool)
    ensures
        r == (a@ == b@),
{
    crate::decl::body_eq(a, b)
}

/// A source item recovered from a possibly mangled identifier: the
/// origin module path (absent for the entry's own module), the base
/// name, and the declaration body it carries.
#[derive(Debug)]
pub struct RustSourceItem {
    pub mod_path: Option<String>,
    pub name: String,
    pub item: DeclBody,
}

impl RustSourceItem {
    /// Splits a mangled identifier into module path and base name and
    /// attaches the declaration body.
    pub fn from_mangled(name: &str, item: DeclBody) -> (r: RustSourceItem)
        requires
            is_ascii_chars(name@),
        ensures
            ({
                let d = spec_demangle(chars_to_bytes(name@));
                &&& (r.mod_path is Some) == (d.0 is Some)
                &&& (r.mod_path is Some ==> r.mod_path->0@ == bytes_to_chars(d.0->0))
                &&& r.name@ == bytes_to_chars(d.1)
                &&& r.item == item
            }),
    {
        let (mod_path, base) = demangle_splitting_mod_path_and_item(name);
        RustSourceItem { mod_path, name: base, item }
    }
}

} // verus!
