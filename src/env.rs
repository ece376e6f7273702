//! Environments: an arena of nodes, each holding bindings and the index of its parent.
use crate::core_types::{copy_expr, ExprModel, Expression};
use vstd::prelude::*;

verus! {

broadcast use vstd::std_specs::vec::group_vec_axioms, vstd::seq::group_seq_axioms;

/// One name bound to one value.
#[derive(Debug)]
pub struct Binding {
    pub name: String,
    pub value: Expression,
}

/// A node of the environment arena. Lookup searches its bindings, newest first,
/// then its parent.
#[derive(Debug)]
pub struct EnvNode {
    pub parent: Option<usize>,
    pub bindings: Vec<Binding>,
}

/// The model of an `EnvNode`.
pub struct EnvNodeModel {
    pub parent: Option<usize>,
    pub bindings: Seq<(Seq<char>, ExprModel)>,
}

pub open spec fn binding_model(b: Binding) -> (Seq<char>, ExprModel) {
    (b.name@, b.value@)
}

impl View for EnvNode {
    type V = EnvNodeModel;

    open spec fn view(&self) -> EnvNodeModel {
        EnvNodeModel {
            parent: self.parent,
            bindings: self.bindings@.map_values(|b: Binding| binding_model(b)),
        }
    }
}

pub open spec fn envs_model(s: Seq<EnvNode>) -> Seq<EnvNodeModel> {
    s.map_values(|n: EnvNode| n@)
}

pub open spec fn opt_model(o: Option<Expression>) -> Option<ExprModel> {
    match o {
        Some(e) => Some(e@),
        None => None,
    }
}

pub broadcast proof fn lemma_envs_model_push(s: Seq<EnvNode>, n: EnvNode)
    ensures
        #[trigger] envs_model(s.push(n)) == envs_model(s).push(n@),
{
    assert(envs_model(s.push(n)) =~= envs_model(s).push(n@));
}

pub broadcast proof fn lemma_envs_model_update(s: Seq<EnvNode>, i: int, n: EnvNode)
    requires
        0 <= i < s.len(),
    ensures
        #[trigger] envs_model(s.update(i, n)) == envs_model(s).update(i, n@),
{
    assert(envs_model(s.update(i, n)) =~= envs_model(s).update(i, n@));
}

pub broadcast group group_env_lemmas {
    lemma_envs_model_push,
    lemma_envs_model_update,
}

/// The value of the newest binding of `name` among `bs`.
pub open spec fn find_binding(bs: Seq<(Seq<char>, ExprModel)>, name: Seq<char>) -> Option<ExprModel>
    decreases bs.len(),
{
    if bs.len() == 0 {
        None
    } else if bs.last().0 == name {
        Some(bs.last().1)
    } else {
        find_binding(bs.drop_last(), name)
    }
}

/// The value of `name` in environment `k`: its own bindings first, then its
/// parent's. A parent that does not precede its child ends the search.
pub open spec fn lookup_spec(envs: Seq<EnvNodeModel>, k: usize, name: Seq<char>) -> Option<ExprModel>
    decreases k,
{
    if k >= envs.len() {
        None
    } else {
        match find_binding(envs[k as int].bindings, name) {
            Some(v) => Some(v),
            None => match envs[k as int].parent {
                Some(p) => if p < k {
                    lookup_spec(envs, p, name)
                } else {
                    None
                },
                None => None,
            },
        }
    }
}

/// A copy of the newest value bound to `name` in this node alone.
pub fn find_in_node(node: &EnvNode, name: &String) -> (r: Option<Expression>)
    ensures
        opt_model(r) == find_binding(node@.bindings, name@),
{
    let ghost bs = node@.bindings;
    let mut i: usize = node.bindings.len();
    assert(bs.subrange(0, i as int) =~= bs);
    while i > 0
        invariant
            i <= node.bindings@.len(),
            bs == node@.bindings,
            find_binding(bs, name@) == find_binding(bs.subrange(0, i as int), name@),
        decreases i,
    {
        proof {
            assert(bs.subrange(0, i as int).drop_last() =~= bs.subrange(0, i - 1));
        }
        if node.bindings[i - 1].name == *name {
            return Some(copy_expr(&node.bindings[i - 1].value));
        }
        i = i - 1;
    }
    None
}

/// A copy of the value bound to `name` in environment `k`.
pub fn lookup(envs: &Vec<EnvNode>, k: usize, name: &String) -> (r: Option<Expression>)
    ensures
        opt_model(r) == lookup_spec(envs_model(envs@), k, name@),
{
    let ghost m = envs_model(envs@);
    let mut cur = k;
    loop
        invariant
            m == envs_model(envs@),
            lookup_spec(m, cur, name@) == lookup_spec(m, k, name@),
        decreases cur,
    {
        if cur >= envs.len() {
            return None;
        }
        let found = find_in_node(&envs[cur], name);
        if found.is_some() {
            return found;
        }
        match envs[cur].parent {
            Some(p) => {
                if p < cur {
                    cur = p;
                } else {
                    return None;
                }
            },
            None => {
                return None;
            },
        }
    }
}

} // verus!
