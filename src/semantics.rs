//! What visiting a tree does to the checker, stated over a model in which
//! every type is the name of the class it aliases.
use vstd::prelude::*;
use crate::typecheck::{ErrorKind, Expr, Span, TypeError};

verus! {

/// The checker's state: the value stack, the scope stack (innermost last),
/// the error log and the root object's method table (name to return type).
pub struct CheckModel {
    pub stack: Seq<Seq<char>>,
    pub scopes: Seq<Map<Seq<char>, Seq<char>>>,
    pub errors: Seq<TypeError>,
    pub methods: Map<Seq<char>, Seq<char>>,
}

pub open spec fn integer_name() -> Seq<char> {
    "Integer"@
}

pub open spec fn string_name() -> Seq<char> {
    "String"@
}

/// The sentinel pushed where no type could be inferred.
pub open spec fn unknown_name() -> Seq<char> {
    "Unknown"@
}

/// What a method definition evaluates to.
pub open spec fn symbol_name() -> Seq<char> {
    "Symbol"@
}

pub open spec fn push_value(st: CheckModel, t: Seq<char>) -> CheckModel {
    CheckModel { stack: st.stack.push(t), ..st }
}

pub open spec fn pop_value(st: CheckModel) -> CheckModel {
    CheckModel { stack: st.stack.drop_last(), ..st }
}

/// The innermost scope with `name` bound to `t`.
pub open spec fn bind_local(st: CheckModel, name: Seq<char>, t: Seq<char>) -> CheckModel {
    CheckModel {
        scopes: st.scopes.update(st.scopes.len() - 1, st.scopes.last().insert(name, t)),
        ..st
    }
}

pub open spec fn enter_scope(st: CheckModel) -> CheckModel {
    CheckModel { scopes: st.scopes.push(Map::empty()), ..st }
}

pub open spec fn exit_scope(st: CheckModel) -> CheckModel {
    CheckModel { scopes: st.scopes.drop_last(), ..st }
}

/// Visiting `e`: children first, then the node itself. Each node leaves
/// exactly one more value on the stack than it found.
pub open spec fn eval(e: Expr, st: CheckModel) -> CheckModel
    decreases e,
{
    match e {
        Expr::Integer(_) => push_value(st, integer_name()),
        Expr::Str(_) => push_value(st, string_name()),
        Expr::LocalRead { name, loc } => {
            if st.scopes.last().contains_key(name@) {
                push_value(st, st.scopes.last()[name@])
            } else {
                CheckModel {
                    stack: st.stack.push(unknown_name()),
                    errors: st.errors.push(
                        TypeError { kind: ErrorKind::UndefinedVariable(name), loc },
                    ),
                    ..st
                }
            }
        },
        Expr::LocalWrite { name, value, loc: _ } => {
            let s1 = eval(*value, st);
            bind_local(s1, name@, s1.stack.last())
        },
        Expr::Statements(v) => {
            if v@.len() == 0 {
                push_value(st, unknown_name())
            } else {
                eval_seq(v@, st)
            }
        },
        Expr::Def { name, params: _, body, loc: _ } => {
            let s1 = match body {
                Some(b) => eval(*b, enter_scope(st)),
                None => push_value(enter_scope(st), unknown_name()),
            };
            CheckModel {
                stack: s1.stack.drop_last().push(symbol_name()),
                scopes: s1.scopes.drop_last(),
                errors: s1.errors,
                methods: s1.methods.insert(name@, s1.stack.last()),
            }
        },
    }
}

/// Visiting statements in order; the value of each but the last is dropped.
pub open spec fn eval_seq(es: Seq<Expr>, st: CheckModel) -> CheckModel
    decreases es,
{
    if es.len() <= 1 {
        if es.len() == 0 {
            st
        } else {
            eval(es[0], st)
        }
    } else {
        eval(es.last(), pop_value(eval_seq(es.drop_last(), st)))
    }
}

/// A visit leaves one more value on the stack, keeps the values below it,
/// keeps the number of scopes and touches no scope but the innermost.
pub proof fn lemma_eval_shape(e: Expr, st: CheckModel)
    requires
        st.scopes.len() > 0,
    ensures
        eval(e, st).stack.drop_last() == st.stack,
        eval(e, st).stack.len() == st.stack.len() + 1,
        eval(e, st).scopes.len() == st.scopes.len(),
        eval(e, st).scopes.drop_last() == st.scopes.drop_last(),
    decreases e,
{
    match e {
        Expr::Integer(_) => {
            assert(eval(e, st).stack.drop_last() =~= st.stack);
        },
        Expr::Str(_) => {
            assert(eval(e, st).stack.drop_last() =~= st.stack);
        },
        Expr::LocalRead { name, loc } => {
            assert(eval(e, st).stack.drop_last() =~= st.stack);
        },
        Expr::LocalWrite { name, value, loc } => {
            lemma_eval_shape(*value, st);
            let s1 = eval(*value, st);
            assert(eval(e, st).scopes.drop_last() =~= s1.scopes.drop_last());
        },
        Expr::Statements(v) => {
            if v@.len() == 0 {
                assert(eval(e, st).stack.drop_last() =~= st.stack);
            } else {
                lemma_eval_seq_shape(v@, st);
            }
        },
        Expr::Def { name, params, body, loc } => {
            let inner = enter_scope(st);
            match body {
                Some(b) => {
                    lemma_eval_shape(*b, inner);
                },
                None => {
                    assert(push_value(inner, unknown_name()).stack.drop_last() =~= inner.stack);
                },
            }
            let s1 = match body {
                Some(b) => eval(*b, inner),
                None => push_value(inner, unknown_name()),
            };
            assert(inner.scopes.drop_last() =~= st.scopes);
            assert(s1.scopes.drop_last() =~= st.scopes);
            assert(eval(e, st).stack.drop_last() =~= st.stack);
        },
    }
}

/// The same for a nonempty sequence of statements.
pub proof fn lemma_eval_seq_shape(es: Seq<Expr>, st: CheckModel)
    requires
        st.scopes.len() > 0,
        es.len() > 0,
    ensures
        eval_seq(es, st).stack.drop_last() == st.stack,
        eval_seq(es, st).stack.len() == st.stack.len() + 1,
        eval_seq(es, st).scopes.len() == st.scopes.len(),
        eval_seq(es, st).scopes.drop_last() == st.scopes.drop_last(),
    decreases es,
{
    if es.len() == 1 {
        lemma_eval_shape(es[0], st);
    } else {
        lemma_eval_seq_shape(es.drop_last(), st);
        let p = pop_value(eval_seq(es.drop_last(), st));
        lemma_eval_shape(es.last(), p);
    }
}

/// An integer literal has type "Integer" and a string literal type "String".
pub proof fn lemma_literal_types(loc: Span, st: CheckModel)
    ensures
        eval(Expr::Integer(loc), st).stack == st.stack.push(integer_name()),
        eval(Expr::Str(loc), st).stack == st.stack.push(string_name()),
{
}

/// After a run of statements that ends with a write to a local, the local
/// is bound in the innermost scope to the type of that last write, which is
/// also the run's value, whatever was bound before.
pub proof fn lemma_last_write_wins(es: Seq<Expr>, st: CheckModel)
    requires
        st.scopes.len() > 0,
        es.len() > 0,
        es.last() is LocalWrite,
    ensures
        ({
            let s = eval_seq(es, st);
            let pre = if es.len() == 1 { st } else { pop_value(eval_seq(es.drop_last(), st)) };
            &&& s.scopes.last().contains_key(es.last()->LocalWrite_name@)
            &&& s.scopes.last()[es.last()->LocalWrite_name@] == s.stack.last()
            &&& s.stack.last() == eval(*es.last()->LocalWrite_value, pre).stack.last()
        }),
{
    let pre = if es.len() == 1 { st } else { pop_value(eval_seq(es.drop_last(), st)) };
    if es.len() > 1 {
        lemma_eval_seq_shape(es.drop_last(), st);
    }
    let w = es.last();
    assert(eval_seq(es, st) == eval(w, pre));
    let s1 = eval(*w->LocalWrite_value, pre);
    lemma_eval_shape(*w->LocalWrite_value, pre);
    assert(eval(w, pre) == bind_local(s1, w->LocalWrite_name@, s1.stack.last()));
}

/// Reading a local right after writing it yields the type just written,
/// and logs nothing.
pub proof fn lemma_write_then_read(w: Expr, r: Expr, st: CheckModel)
    requires
        st.scopes.len() > 0,
        w is LocalWrite,
        r is LocalRead,
        r->LocalRead_name@ == w->LocalWrite_name@,
    ensures
        eval_seq(seq![w, r], st).stack.last() == eval(w, st).stack.last(),
        eval_seq(seq![w, r], st).errors == eval(w, st).errors,
{
    let es = seq![w, r];
    assert(es.drop_last() =~= seq![w]);
    assert(eval_seq(es.drop_last(), st) == eval(w, st));
    lemma_eval_shape(*w->LocalWrite_value, st);
    let s1 = eval(*w->LocalWrite_value, st);
    let sw = eval(w, st);
    assert(sw == bind_local(s1, w->LocalWrite_name@, s1.stack.last()));
    let p = pop_value(sw);
    assert(p.scopes.last().contains_key(r->LocalRead_name@));
    assert(eval_seq(es, st) == eval(r, p));
    assert(eval(r, p).stack.last() == p.scopes.last()[r->LocalRead_name@]);
}

/// Reading a local that the innermost scope does not bind logs exactly one
/// error at the read and yields "Unknown"; nothing else changes.
pub proof fn lemma_unbound_read(e: Expr, st: CheckModel)
    requires
        e is LocalRead,
        !st.scopes.last().contains_key(e->LocalRead_name@),
    ensures
        eval(e, st) == (CheckModel {
            stack: st.stack.push(unknown_name()),
            errors: st.errors.push(
                TypeError {
                    kind: ErrorKind::UndefinedVariable(e->LocalRead_name),
                    loc: e->LocalRead_loc,
                },
            ),
            ..st
        }),
{
}

/// What a visit yields, and what it leaves in the innermost scope, depend
/// on the innermost scope alone.
pub proof fn lemma_eval_frame(e: Expr, st1: CheckModel, st2: CheckModel)
    requires
        st1.scopes.len() > 0,
        st2.scopes.len() > 0,
        st1.scopes.last() == st2.scopes.last(),
    ensures
        eval(e, st1).stack.last() == eval(e, st2).stack.last(),
        eval(e, st1).scopes.last() == eval(e, st2).scopes.last(),
    decreases e,
{
    lemma_eval_shape(e, st1);
    lemma_eval_shape(e, st2);
    match e {
        Expr::LocalWrite { name, value, loc } => {
            lemma_eval_frame(*value, st1, st2);
            lemma_eval_shape(*value, st1);
            lemma_eval_shape(*value, st2);
        },
        Expr::Statements(v) => {
            if v@.len() > 0 {
                lemma_eval_seq_frame(v@, st1, st2);
            }
        },
        Expr::Def { name, params, body, loc } => {
            match body {
                Some(b) => {
                    lemma_eval_frame(*b, enter_scope(st1), enter_scope(st2));
                    lemma_eval_shape(*b, enter_scope(st1));
                    lemma_eval_shape(*b, enter_scope(st2));
                },
                None => {},
            }
            let s1 = match body {
                Some(b) => eval(*b, enter_scope(st1)),
                None => push_value(enter_scope(st1), unknown_name()),
            };
            let s2 = match body {
                Some(b) => eval(*b, enter_scope(st2)),
                None => push_value(enter_scope(st2), unknown_name()),
            };
            assert(s1.scopes.drop_last() =~= st1.scopes);
            assert(s2.scopes.drop_last() =~= st2.scopes);
        },
        _ => {},
    }
}

/// The same for a nonempty sequence of statements.
pub proof fn lemma_eval_seq_frame(es: Seq<Expr>, st1: CheckModel, st2: CheckModel)
    requires
        st1.scopes.len() > 0,
        st2.scopes.len() > 0,
        st1.scopes.last() == st2.scopes.last(),
        es.len() > 0,
    ensures
        eval_seq(es, st1).stack.last() == eval_seq(es, st2).stack.last(),
        eval_seq(es, st1).scopes.last() == eval_seq(es, st2).scopes.last(),
    decreases es,
{
    if es.len() == 1 {
        lemma_eval_frame(es[0], st1, st2);
    } else {
        lemma_eval_seq_frame(es.drop_last(), st1, st2);
        lemma_eval_seq_shape(es.drop_last(), st1);
        lemma_eval_seq_shape(es.drop_last(), st2);
        lemma_eval_frame(
            es.last(),
            pop_value(eval_seq(es.drop_last(), st1)),
            pop_value(eval_seq(es.drop_last(), st2)),
        );
    }
}

/// A method definition leaves every scope as it found it, and the return
/// type it records does not depend on the state it is visited in.
pub proof fn lemma_def_isolated(d: Expr, st1: CheckModel, st2: CheckModel)
    requires
        d is Def,
        st1.scopes.len() > 0,
        st2.scopes.len() > 0,
    ensures
        eval(d, st1).scopes == st1.scopes,
        eval(d, st1).methods.contains_key(d->Def_name@),
        eval(d, st1).methods[d->Def_name@] == eval(d, st2).methods[d->Def_name@],
{
    lemma_eval_shape(d, st1);
    match d {
        Expr::Def { name, params, body, loc } => {
            match body {
                Some(b) => {
                    lemma_eval_frame(*b, enter_scope(st1), enter_scope(st2));
                    lemma_eval_shape(*b, enter_scope(st1));
                },
                None => {},
            }
            let s1 = match body {
                Some(b) => eval(*b, enter_scope(st1)),
                None => push_value(enter_scope(st1), unknown_name()),
            };
            assert(s1.scopes.drop_last() =~= st1.scopes);
        },
        _ => {},
    }
}

/// Two sibling method definitions do not see each other's locals: after
/// both, the scopes are as before, and the second records the return type
/// it records when visited alone. (That the first does too, in whatever
/// state it is visited, is `lemma_def_isolated`.)
pub proof fn lemma_sibling_defs(d1: Expr, d2: Expr, st: CheckModel)
    requires
        d1 is Def,
        d2 is Def,
        st.scopes.len() > 0,
    ensures
        eval_seq(seq![d1, d2], st).scopes == st.scopes,
        eval_seq(seq![d1, d2], st).methods[d2->Def_name@] == eval(d2, st).methods[d2->Def_name@],
{
    let es = seq![d1, d2];
    assert(es.drop_last() =~= seq![d1]);
    let s1 = eval(d1, st);
    assert(eval_seq(es.drop_last(), st) == s1);
    assert(eval_seq(es, st) == eval(d2, pop_value(s1)));
    lemma_def_isolated(d1, st, st);
    lemma_eval_shape(d1, st);
    let p = pop_value(s1);
    lemma_def_isolated(d2, p, st);
}

/// A method whose body ends with an integer literal returns "Integer".
pub proof fn lemma_def_returns_literal(d: Expr, st: CheckModel)
    requires
        d is Def,
        st.scopes.len() > 0,
        d->Def_body matches Some(b) && (*b) is Statements && (*b)->Statements_0@.len() > 0
            && (*b)->Statements_0@.last() is Integer,
    ensures
        eval(d, st).methods[d->Def_name@] == integer_name(),
{
    let b = *d->Def_body->Some_0;
    let v = b->Statements_0@;
    let inner = enter_scope(st);
    if v.len() == 1 {
        assert(eval_seq(v, inner) == eval(v[0], inner));
    } else {
        assert(eval_seq(v, inner) == eval(v.last(), pop_value(eval_seq(v.drop_last(), inner))));
    }
    assert(eval(b, inner) == eval_seq(v, inner));
}

/// A method whose body reads a local that it never wrote logs one error at
/// the read and returns "Unknown".
pub proof fn lemma_def_unbound_read(d: Expr, st: CheckModel)
    requires
        d is Def,
        d->Def_body matches Some(b) && (*b) is Statements && (*b)->Statements_0@.len() == 1
            && (*b)->Statements_0@[0] is LocalRead,
    ensures
        ({
            let r = (*d->Def_body->Some_0)->Statements_0@[0];
            &&& eval(d, st).errors == st.errors.push(
                TypeError {
                    kind: ErrorKind::UndefinedVariable(r->LocalRead_name),
                    loc: r->LocalRead_loc,
                },
            )
            &&& eval(d, st).methods[d->Def_name@] == unknown_name()
        }),
{
    let b = *d->Def_body->Some_0;
    let v = b->Statements_0@;
    let inner = enter_scope(st);
    assert(eval_seq(v, inner) == eval(v[0], inner));
    assert(eval(b, inner) == eval_seq(v, inner));
}

} // verus!
