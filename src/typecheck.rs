//! The scoped type checker: it walks a tree bottom-up, carries each
//! expression's type to its parent on a value stack, binds locals in the
//! scope of the enclosing method body, records each method's inferred
//! return type on the root object and logs reads of unbound locals.
use vstd::prelude::*;
use crate::bindings::{as_map, insert, lookup};
use crate::semantics::{self, eval, eval_seq, lemma_eval_shape, CheckModel};

verus! {

/// A type: a table of method signatures, or a reference to a named class.
#[derive(Debug, PartialEq, Eq)]
pub enum Type {
    Signature(Vec<(String, Method)>),
    Alias(String),
}

/// A method's argument types, in order, and its return type.
#[derive(Debug, PartialEq, Eq)]
pub struct Method {
    pub args: Vec<Type>,
    pub ret: Type,
}

#[derive(Debug, Clone, PartialEq, Eq)]
pub enum ErrorKind {
    UndefinedVariable(String),
}

/// The start and end offsets of a node's source text.
#[derive(Debug, Clone, Copy, PartialEq, Eq)]
pub struct Span {
    pub start: usize,
    pub end: usize,
}

/// An error found by the checker, with the span of the node it concerns.
#[derive(Debug, Clone, PartialEq, Eq)]
pub struct TypeError {
    pub kind: ErrorKind,
    pub loc: Span,
}

/// A node of the tree handed to the checker. Each node carries its span.
#[derive(Debug, PartialEq, Eq)]
pub enum Expr {
    Integer(Span),
    Str(Span),
    LocalRead { name: String, loc: Span },
    LocalWrite { name: String, value: Box<Expr>, loc: Span },
    Statements(Vec<Expr>),
    Def { name: String, params: Vec<String>, body: Option<Box<Expr>>, loc: Span },
}

/// The class name that an alias refers to.
pub open spec fn alias_name(t: Type) -> Seq<char> {
    match t {
        Type::Alias(n) => n@,
        Type::Signature(_) => Seq::empty(),
    }
}

impl Type {
    pub fn alias(name: &str) -> (r: Type)
        ensures
            r is Alias,
            alias_name(r) == name@,
    {
        Type::Alias(name.to_string())
    }

    pub fn sig(entries: Vec<(String, Method)>) -> (r: Type)
        ensures
            r == Type::Signature(entries),
    {
        Type::Signature(entries)
    }

    pub fn as_sig(&self) -> (r: Option<&Vec<(String, Method)>>)
        ensures
            match *self {
                Type::Signature(s) => r == Some(&s),
                Type::Alias(_) => r is None,
            },
    {
        match self {
            Type::Signature(sig) => Some(sig),
            _ => None,
        }
    }

    pub fn as_alias(&self) -> (r: Option<&String>)
        ensures
            match *self {
                Type::Alias(n) => r == Some(&n),
                Type::Signature(_) => r is None,
            },
    {
        match self {
            Type::Alias(name) => Some(name),
            _ => None,
        }
    }
}

impl Method {
    pub fn new(args: Vec<Type>, ret: Type) -> (r: Method)
        ensures
            r.args == args,
            r.ret == ret,
    {
        Method { args, ret }
    }
}

impl TypeError {
    pub fn new(kind: ErrorKind, loc: Span) -> (r: TypeError)
        ensures
            r.kind == kind,
            r.loc == loc,
    {
        TypeError { kind, loc }
    }
}

/// A copy of an alias.
fn copy_alias(t: &Type) -> (r: Type)
    requires
        t is Alias,
    ensures
        r == *t,
{
    match t {
        Type::Alias(n) => Type::Alias(n.clone()),
        Type::Signature(_) => Type::Alias(String::new()),
    }
}

/// Every value bound in a table is an alias.
pub open spec fn aliases_only(s: Seq<(String, Type)>) -> bool {
    forall|k: Seq<char>| #[trigger] as_map(s).contains_key(k) ==> as_map(s)[k] is Alias
}

/// Every method in a table takes no arguments and returns an alias.
pub open spec fn inferred_methods(s: Seq<(String, Method)>) -> bool {
    forall|k: Seq<char>| #[trigger] as_map(s).contains_key(k) ==> {
        &&& as_map(s)[k].args@.len() == 0
        &&& as_map(s)[k].ret is Alias
    }
}

pub open spec fn scope_model(s: Vec<(String, Type)>) -> Map<Seq<char>, Seq<char>> {
    as_map(s@).map_values(|t: Type| alias_name(t))
}

pub open spec fn method_model(s: Seq<(String, Method)>) -> Map<Seq<char>, Seq<char>> {
    as_map(s).map_values(|m: Method| alias_name(m.ret))
}

/// The checker's state: built-in classes, known objects, the value stack,
/// the scope stack (innermost last) and the error log.
#[derive(Debug, PartialEq, Eq)]
pub struct TypeChecker {
    pub types: Vec<(String, Type)>,
    pub objects: Vec<(String, Type)>,
    pub type_stack: Vec<Type>,
    pub local_variables: Vec<Vec<(String, Type)>>,
    pub errors: Vec<TypeError>,
}

impl TypeChecker {
    /// The method table of the root object.
    pub open spec fn root_methods(&self) -> Seq<(String, Method)> {
        match self.objects@[0].1 {
            Type::Signature(ms) => ms@,
            Type::Alias(_) => Seq::empty(),
        }
    }

    /// The root object "Object" is the only object and holds a method table
    /// of inferred methods; every value on the stacks is an alias.
    pub open spec fn wf(&self) -> bool {
        &&& self.objects@.len() == 1
        &&& self.objects@[0].0@ == "Object"@
        &&& self.objects@[0].1 is Signature
        &&& inferred_methods(self.root_methods())
        &&& forall|i: int| 0 <= i < self.type_stack@.len() ==> #[trigger] self.type_stack@[i] is Alias
        &&& forall|i: int|
            0 <= i < self.local_variables@.len() ==> aliases_only(#[trigger] self.local_variables@[i]@)
    }

    pub open spec fn model(&self) -> CheckModel {
        CheckModel {
            stack: self.type_stack@.map_values(|t: Type| alias_name(t)),
            scopes: self.local_variables@.map_values(|s: Vec<(String, Type)>| scope_model(s)),
            errors: self.errors@,
            methods: method_model(self.root_methods()),
        }
    }

    /// A checker with the root object "Object", which has no methods yet,
    /// and the built-in class "String", whose `upcase` returns a "String".
    pub fn new() -> (r: TypeChecker)
        ensures
            r.wf(),
            r.model().stack.len() == 0,
            r.model().scopes.len() == 0,
            r.model().errors.len() == 0,
            r.model().methods == Map::<Seq<char>, Seq<char>>::empty(),
            r.types@.len() == 1,
            r.types@[0].0@ == "String"@,
            r.types@[0].1 is Signature,
            method_model(r.types@[0].1->Signature_0@) == Map::<Seq<char>, Seq<char>>::empty().insert(
                "upcase"@,
                "String"@,
            ),
    {
        let mut objects: Vec<(String, Type)> = Vec::new();
        objects.push(("Object".to_string(), Type::sig(Vec::new())));
        let mut upcase: Vec<(String, Method)> = Vec::new();
        upcase.push(("upcase".to_string(), Method::new(Vec::new(), Type::alias("String"))));
        let mut types: Vec<(String, Type)> = Vec::new();
        types.push(("String".to_string(), Type::sig(upcase)));
        let r = TypeChecker {
            types,
            objects,
            type_stack: Vec::new(),
            local_variables: Vec::new(),
            errors: Vec::new(),
        };
        assert(as_map(r.root_methods()) =~= Map::empty());
        let ghost ms = r.types@[0].1->Signature_0@;
        assert(ms.drop_last() =~= Seq::<(String, Method)>::empty());
        assert(method_model(ms) =~= Map::<Seq<char>, Seq<char>>::empty().insert("upcase"@, "String"@));
        assert(r.model().methods =~= Map::empty());
        r
    }

    pub fn get_object(&self, name: &str) -> (r: Option<&Type>)
        ensures
            match r {
                Some(t) => crate::bindings::find(self.objects@, name@) == Some(*t),
                None => crate::bindings::find(self.objects@, name@) is None,
            },
    {
        lookup(&self.objects, name)
    }

    /// The method signature recorded on the root object under `name`.
    pub fn get_method(&self, name: &str) -> (r: Option<&Method>)
        requires
            self.wf(),
        ensures
            match r {
                Some(m) => {
                    &&& self.model().methods.contains_key(name@)
                    &&& alias_name(m.ret) == self.model().methods[name@]
                    &&& m.args@.len() == 0
                },
                None => !self.model().methods.contains_key(name@),
            },
    {
        match &self.objects[0].1 {
            Type::Signature(ms) => lookup(ms, name),
            Type::Alias(_) => None,
        }
    }

    /// Pushes a value.
    fn push_value(&mut self, t: Type)
        requires
            old(self).wf(),
            t is Alias,
        ensures
            final(self).wf(),
            final(self).model() == semantics::push_value(old(self).model(), alias_name(t)),
            final(self).type_stack.len() == old(self).type_stack.len() + 1,
            final(self).local_variables.len() == old(self).local_variables.len(),
    {
        self.type_stack.push(t);
        assert(self.model().stack =~= old(self).model().stack.push(alias_name(t)));
    }

    /// Pops the top value.
    fn pop_value(&mut self) -> (r: Type)
        requires
            old(self).wf(),
            old(self).type_stack.len() > 0,
        ensures
            final(self).wf(),
            r is Alias,
            alias_name(r) == old(self).model().stack.last(),
            final(self).model() == semantics::pop_value(old(self).model()),
            final(self).type_stack.len() == old(self).type_stack.len() - 1,
            final(self).local_variables.len() == old(self).local_variables.len(),
    {
        let r = self.type_stack.pop().unwrap();
        assert(self.model().stack =~= old(self).model().stack.drop_last());
        assert(old(self).type_stack@[old(self).type_stack@.len() - 1] is Alias);
        r
    }

    /// Opens a fresh, empty scope.
    pub fn enter_scope(&mut self)
        requires
            old(self).wf(),
        ensures
            final(self).wf(),
            final(self).model() == semantics::enter_scope(old(self).model()),
            final(self).local_variables.len() == old(self).local_variables.len() + 1,
            final(self).type_stack.len() == old(self).type_stack.len(),
    {
        let fresh: Vec<(String, Type)> = Vec::new();
        assert(scope_model(fresh) =~= Map::empty()) by {
            assert(as_map(fresh@) =~= Map::empty());
        }
        self.local_variables.push(fresh);
        assert(self.model().scopes =~= old(self).model().scopes.push(Map::empty()));
    }

    /// Closes the innermost scope.
    pub fn exit_scope(&mut self)
        requires
            old(self).wf(),
            old(self).local_variables.len() > 0,
        ensures
            final(self).wf(),
            final(self).model() == semantics::exit_scope(old(self).model()),
            final(self).local_variables.len() == old(self).local_variables.len() - 1,
            final(self).type_stack.len() == old(self).type_stack.len(),
    {
        self.local_variables.pop();
        assert(self.model().scopes =~= old(self).model().scopes.drop_last());
    }

    /// Binds `name` to `t` in the innermost scope.
    fn bind_local(&mut self, name: String, t: Type)
        requires
            old(self).wf(),
            old(self).local_variables.len() > 0,
            t is Alias,
        ensures
            final(self).wf(),
            final(self).model() == semantics::bind_local(old(self).model(), name@, alias_name(t)),
            final(self).type_stack.len() == old(self).type_stack.len(),
            final(self).local_variables.len() == old(self).local_variables.len(),
    {
        let ghost nv = name@;
        let ghost tv = alias_name(t);
        let mut top = self.local_variables.pop().unwrap();
        let ghost before = top@;
        insert(&mut top, name, t);
        assert(scope_model(top) =~= as_map(before).map_values(|t: Type| alias_name(t)).insert(nv, tv));
        self.local_variables.push(top);
        let ghost m = old(self).model();
        assert(self.model().scopes =~= m.scopes.update(m.scopes.len() - 1, m.scopes.last().insert(nv, tv)));
        assert forall|i: int| 0 <= i < self.local_variables@.len() implies aliases_only(
            #[trigger] self.local_variables@[i]@,
        ) by {
            if i < self.local_variables@.len() - 1 {
                assert(self.local_variables@[i] == old(self).local_variables@[i]);
            } else {
                assert(old(self).local_variables@[i] == old(self).local_variables@.last());
                assert(aliases_only(before));
            }
        }
    }

    /// Records a method with no arguments and return type `ret` on the root
    /// object.
    fn record_method(&mut self, name: String, ret: Type)
        requires
            old(self).wf(),
            ret is Alias,
        ensures
            final(self).wf(),
            final(self).model() == (CheckModel {
                methods: old(self).model().methods.insert(name@, alias_name(ret)),
                ..old(self).model()
            }),
            final(self).type_stack.len() == old(self).type_stack.len(),
            final(self).local_variables.len() == old(self).local_variables.len(),
    {
        let ghost nv = name@;
        let ghost rv = alias_name(ret);
        let (oname, oty) = self.objects.pop().unwrap();
        match oty {
            Type::Signature(mut ms) => {
                let ghost before = ms@;
                let m = Method { args: Vec::new(), ret };
                insert(&mut ms, name, m);
                assert(method_model(ms@) =~= method_model(before).insert(nv, rv));
                self.objects.push((oname, Type::Signature(ms)));
            },
            Type::Alias(a) => {
                self.objects.push((oname, Type::Alias(a)));
            },
        }
        assert(self.model().methods =~= old(self).model().methods.insert(nv, rv));
        assert(self.model().stack =~= old(self).model().stack);
        assert(self.model().scopes =~= old(self).model().scopes);
    }

    /// Visits `e` in the innermost scope: children first, then the node.
    /// Reads of unbound locals are logged and yield "Unknown".
    #[verifier::loop_isolation(false)]
    pub fn visit_node(&mut self, e: &Expr)
        requires
            old(self).wf(),
            old(self).local_variables.len() > 0,
        ensures
            final(self).wf(),
            final(self).model() == eval(*e, old(self).model()),
            final(self).local_variables.len() == old(self).local_variables.len(),
            final(self).type_stack.len() == old(self).type_stack.len() + 1,
        decreases e,
    {
        let ghost st = self.model();
        match e {
            Expr::Integer(_) => self.push_value(Type::alias("Integer")),
            Expr::Str(_) => self.push_value(Type::alias("String")),
            Expr::LocalRead { name, loc } => {
                let n = self.local_variables.len();
                let ghost top = self.local_variables@[n - 1];
                assert(st.scopes.last() == scope_model(top));
                let found = match lookup(&self.local_variables[n - 1], name.as_str()) {
                    Some(t) => {
                        assert(as_map(top@).contains_key(name@));
                        Some(copy_alias(t))
                    },
                    None => None,
                };
                match found {
                    Some(t) => self.push_value(t),
                    None => {
                        self.errors.push(
                            TypeError::new(ErrorKind::UndefinedVariable(name.clone()), *loc),
                        );
                        self.push_value(Type::alias("Unknown"));
                    },
                }
            },
            Expr::LocalWrite { name, value, loc: _ } => {
                self.visit_node(value);
                proof {
                    lemma_eval_shape(**value, st);
                }
                let t = self.pop_value();
                let c = copy_alias(&t);
                self.bind_local(name.clone(), c);
                self.push_value(t);
                let ghost s1 = eval(**value, st);
                assert(s1.stack.drop_last().push(s1.stack.last()) =~= s1.stack);
            },
            Expr::Statements(v) => {
                if v.len() == 0 {
                    self.push_value(Type::alias("Unknown"));
                } else {
                    self.visit_node(&v[0]);
                    proof {
                        lemma_eval_shape(v@[0], st);
                    }
                    assert(v@.subrange(0, 1) =~= seq![v@[0]]);
                    let mut i: usize = 1;
                    while i < v.len()
                        invariant
                            1 <= i <= v.len(),
                            self.wf(),
                            self.local_variables.len() == old(self).local_variables.len(),
                            self.type_stack.len() == old(self).type_stack.len() + 1,
                            st.scopes.len() > 0,
                            self.model() == eval_seq(v@.subrange(0, i as int), st),
                        decreases v.len() - i,
                    {
                        proof {
                            semantics::lemma_eval_seq_shape(v@.subrange(0, i as int), st);
                        }
                        self.pop_value();
                        let ghost prev = self.model();
                        self.visit_node(&v[i]);
                        proof {
                            lemma_eval_shape(v@[i as int], semantics::pop_value(prev));
                        }
                        assert(v@.subrange(0, i + 1).drop_last() =~= v@.subrange(0, i as int));
                        i = i + 1;
                    }
                    assert(v@.subrange(0, v.len() as int) =~= v@);
                }
            },
            Expr::Def { name, params: _, body, loc: _ } => {
                self.enter_scope();
                match body {
                    Some(b) => {
                        self.visit_node(b);
                        proof {
                            lemma_eval_shape(**b, semantics::enter_scope(st));
                        }
                    },
                    None => self.push_value(Type::alias("Unknown")),
                }
                let ret = self.pop_value();
                self.exit_scope();
                self.record_method(name.clone(), ret);
                self.push_value(Type::alias("Symbol"));
            },
        }
    }

    /// Visits a whole tree: `e` is checked in a top-level scope of its own,
    /// which is closed afterwards; its value stays on the stack.
    pub fn visit(&mut self, e: &Expr)
        requires
            old(self).wf(),
        ensures
            final(self).wf(),
            final(self).model() == semantics::exit_scope(
                eval(*e, semantics::enter_scope(old(self).model())),
            ),
    {
        self.enter_scope();
        self.visit_node(e);
        proof {
            lemma_eval_shape(*e, semantics::enter_scope(old(self).model()));
        }
        self.exit_scope();
    }
}

impl Default for TypeChecker {
    fn default() -> (r: TypeChecker)
        ensures
            r.wf(),
            r.model().stack.len() == 0,
            r.model().scopes.len() == 0,
            r.model().errors.len() == 0,
            r.model().methods == Map::<Seq<char>, Seq<char>>::empty(),
    {
        TypeChecker::new()
    }
}

} // verus!
