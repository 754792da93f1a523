//! The flat instance analysis of the minimal language: one ordered list of
//! bindings, appended to by each assignment, where a name resolves to its
//! most recent binding.
use vstd::prelude::*;
use crate::bindings::same_text;
use crate::parser::{node_view, views, Location, Node, NodeType, Syntax, SyntaxKind};

verus! {

/// A variable bound by an assignment: its name, the class of the assigned
/// value, and where the assignment starts.
#[derive(Debug, Clone, PartialEq, Eq)]
pub struct Instance {
    pub name: String,
    pub ty: String,
    pub location: Location,
}

pub struct InstanceView {
    pub name: Seq<char>,
    pub ty: Seq<char>,
    pub line: int,
    pub column: int,
}

pub open spec fn instance_view(i: Instance) -> InstanceView {
    InstanceView {
        name: i.name@,
        ty: i.ty@,
        line: i.location.line as int,
        column: i.location.column as int,
    }
}

pub open spec fn instance_views(s: Seq<Instance>) -> Seq<InstanceView> {
    s.map_values(|i: Instance| instance_view(i))
}

/// The most recent binding of `name`.
pub open spec fn latest(env: Seq<InstanceView>, name: Seq<char>) -> Option<InstanceView>
    decreases env.len(),
{
    if env.len() == 0 {
        None
    } else if env.last().name == name {
        Some(env.last())
    } else {
        latest(env.drop_last(), name)
    }
}

/// The class of expression `e`, and the bindings after it: an assignment
/// binds its name after whatever its value bound, and has the value's class.
pub open spec fn infer_expr(e: Syntax, env: Seq<InstanceView>) -> (Seq<char>, Seq<InstanceView>)
    decreases e,
{
    match e.kind {
        SyntaxKind::Integer(_) => ("Integer"@, env),
        SyntaxKind::Str(_) => ("String"@, env),
        SyntaxKind::Variable(n) => match latest(env, n) {
            Some(b) => (b.ty, env),
            None => ("Unknown"@, env),
        },
        SyntaxKind::Assignment(n, v) => {
            let (t, env1) = infer_expr(*v, env);
            (t, env1.push(InstanceView { name: n, ty: t, line: e.line, column: e.column }))
        },
    }
}

/// The bindings after each statement in turn.
pub open spec fn infer_all(es: Seq<Syntax>) -> Seq<InstanceView>
    decreases es.len(),
{
    if es.len() == 0 {
        Seq::empty()
    } else {
        infer_expr(es.last(), infer_all(es.drop_last())).1
    }
}

/// Finds the most recent binding of `name`.
pub fn lookup_instance<'a>(env: &'a Vec<Instance>, name: &str) -> (r: Option<&'a Instance>)
    ensures
        match r {
            Some(i) => latest(instance_views(env@), name@) == Some(instance_view(*i)),
            None => latest(instance_views(env@), name@) is None,
        },
{
    let ghost all = instance_views(env@);
    let mut i: usize = env.len();
    assert(instance_views(env@.subrange(0, i as int)) =~= all);
    while i > 0
        invariant
            i <= env.len(),
            all == instance_views(env@),
            latest(all, name@) == latest(instance_views(env@.subrange(0, i as int)), name@),
        decreases i,
    {
        let ghost sub = instance_views(env@.subrange(0, i as int));
        assert(sub.drop_last() =~= instance_views(env@.subrange(0, i - 1)));
        assert(sub.last() == instance_view(env@[i - 1]));
        if same_text(env[i - 1].name.as_str(), name) {
            return Some(&env[i - 1]);
        }
        i = i - 1;
    }
    None
}

/// Infers the class of `n` and appends the bindings it makes.
pub fn infer_node(n: &Node, env: &mut Vec<Instance>) -> (r: String)
    ensures
        r@ == infer_expr(node_view(*n), instance_views(old(env)@)).0,
        instance_views(final(env)@) == infer_expr(node_view(*n), instance_views(old(env)@)).1,
    decreases n,
{
    match &n.node_type {
        NodeType::Integer(_) => "Integer".to_string(),
        NodeType::String(_) => "String".to_string(),
        NodeType::Variable(name) => match lookup_instance(env, name.as_str()) {
            Some(b) => b.ty.clone(),
            None => "Unknown".to_string(),
        },
        NodeType::Assignment(name, value) => {
            let t = infer_node(value, env);
            let ghost before = instance_views(env@);
            let b = Instance { name: name.clone(), ty: t.clone(), location: n.location };
            env.push(b);
            assert(instance_views(env@) =~= before.push(instance_view(b)));
            t
        },
    }
}

/// The bindings that a program makes, in the order it makes them.
pub fn infer(nodes: &Vec<Node>) -> (r: Vec<Instance>)
    ensures
        instance_views(r@) == infer_all(views(nodes@)),
{
    let mut env: Vec<Instance> = Vec::new();
    let mut i: usize = 0;
    assert(views(nodes@.subrange(0, 0)) =~= Seq::<Syntax>::empty());
    assert(instance_views(env@) =~= Seq::<InstanceView>::empty());
    while i < nodes.len()
        invariant
            i <= nodes.len(),
            instance_views(env@) == infer_all(views(nodes@.subrange(0, i as int))),
        decreases nodes.len() - i,
    {
        infer_node(&nodes[i], &mut env);
        assert(views(nodes@.subrange(0, i + 1)).drop_last() =~= views(nodes@.subrange(0, i as int)));
        assert(views(nodes@.subrange(0, i + 1)).last() == node_view(nodes@[i as int]));
        i = i + 1;
    }
    assert(nodes@.subrange(0, nodes.len() as int) =~= nodes@);
    env
}

/// After a program whose last statement assigns to a name, the name
/// resolves to that assignment, with the class of its value, whatever
/// bound it before.
pub proof fn lemma_last_assignment_wins(es: Seq<Syntax>)
    requires
        es.len() > 0,
        es.last().kind is Assignment,
    ensures
        ({
            let w = es.last();
            let name = w.kind->Assignment_0;
            latest(infer_all(es), name) == Some(
                InstanceView {
                    name,
                    ty: infer_expr(w, infer_all(es.drop_last())).0,
                    line: w.line,
                    column: w.column,
                },
            )
        }),
{
}

} // verus!
