//! A tree of scopes, each knowing its parent and its sub-scopes. The scopes
//! live in one table and refer to each other by index.
use vstd::prelude::*;

verus! {

/// A scope: the indexes of its sub-scopes and of its parent, and its
/// labels with their values.
#[derive(Debug)]
pub struct Scope {
    pub sub_scopes: Vec<usize>,
    pub parent_scope: Option<usize>,
    pub labels: Vec<(String, i32)>,
}

/// All scopes; the base scope is the first.
#[derive(Debug)]
pub struct ScopeTree {
    pub scopes: Vec<Scope>,
}

impl ScopeTree {
    /// Every index refers to a scope of the table, the base scope has no
    /// parent, and a scope is a sub-scope of exactly the scope that is its
    /// parent.
    pub open spec fn wf(&self) -> bool {
        let s = self.scopes@;
        &&& s.len() > 0
        &&& s[0].parent_scope is None
        &&& forall|i: int|
            #![trigger s[i].parent_scope]
            0 < i < s.len() ==> (s[i].parent_scope matches Some(p) && p < i)
        &&& forall|i: int, k: int|
            0 <= i < s.len() && 0 <= k < s[i].sub_scopes@.len() ==> {
                let c = #[trigger] s[i].sub_scopes@[k];
                0 < c < s.len() && s[c as int].parent_scope == Some(i as usize)
            }
        &&& forall|c: int|
            #![trigger s[c].parent_scope]
            0 < c < s.len() ==> s[s[c].parent_scope->Some_0 as int].sub_scopes@.contains(
                c as usize,
            )
    }
}

/// A tree with only the base scope.
pub fn get_base_scope() -> (res: ScopeTree)
    ensures
        res.wf(),
        res.scopes@.len() == 1,
        res.scopes@[0].sub_scopes@.len() == 0,
        res.scopes@[0].labels@.len() == 0,
{
    let mut scopes: Vec<Scope> = Vec::new();
    scopes.push(Scope { sub_scopes: Vec::new(), parent_scope: None, labels: Vec::new() });
    ScopeTree { scopes }
}

/// Adds a new scope below `parent` and returns its index.
pub fn add_sub_scope(tree: &mut ScopeTree, parent: usize) -> (res: usize)
    requires
        old(tree).wf(),
        parent < old(tree).scopes@.len(),
    ensures
        final(tree).wf(),
        res == old(tree).scopes@.len(),
        final(tree).scopes@.len() == old(tree).scopes@.len() + 1,
        final(tree).scopes@[res as int].parent_scope == Some(parent),
        final(tree).scopes@[res as int].sub_scopes@.len() == 0,
        final(tree).scopes@[res as int].labels@.len() == 0,
        final(tree).scopes@[parent as int].sub_scopes@ == old(tree).scopes@[parent as int].sub_scopes@.push(res),
        forall|i: int|
            0 <= i < old(tree).scopes@.len() && i != parent ==> #[trigger] final(tree).scopes@[i]
                == old(tree).scopes@[i],
{
    let ghost s0 = tree.scopes@;
    let child = tree.scopes.len();
    tree.scopes.push(Scope { sub_scopes: Vec::new(), parent_scope: Some(parent), labels: Vec::new() });
    let mut p = tree.scopes.remove(parent);
    p.sub_scopes.push(child);
    tree.scopes.insert(parent, p);
    let ghost s = tree.scopes@;
    assert(forall|i: int| 0 <= i < s.len() && i != parent ==> s[i] == s0.push(s[child as int])[i]);
    assert forall|i: int, k: int|
        0 <= i < s.len() && 0 <= k < s[i].sub_scopes@.len() implies {
            let c = #[trigger] s[i].sub_scopes@[k];
            0 < c < s.len() && s[c as int].parent_scope == Some(i as usize)
        } by {
        if i == parent && k == s[i].sub_scopes@.len() - 1 {
        } else if i < s0.len() {
            assert(s[i].sub_scopes@[k] == s0[i].sub_scopes@[k]);
        }
    }
    assert forall|c: int|
        #![trigger s[c].parent_scope]
        0 < c < s.len() implies s[s[c].parent_scope->Some_0 as int].sub_scopes@.contains(c as usize) by {
        if c == child {
            assert(s[parent as int].sub_scopes@.last() == child);
        } else {
            let q = s0[c].parent_scope->Some_0 as int;
            assert(s0[q].sub_scopes@.contains(c as usize));
            let k = choose|k: int| 0 <= k < s0[q].sub_scopes@.len() && s0[q].sub_scopes@[k] == c as usize;
            assert(s[q].sub_scopes@[k] == c as usize);
        }
    }
    child
}

} // verus!
