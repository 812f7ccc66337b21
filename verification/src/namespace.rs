//! The namespace tree: scopes that map names to bindings, whose values may
//! hold further scopes.

use vstd::prelude::*;
use crate::text::{chars_of, is_text};

verus! {

/// A tag that groups symbols under one section of the reference.
#[derive(Clone, Debug)]
pub struct Category {
    /// The name under which the section is shown and routed.
    pub name: String,
}

/// How a function is represented, which decides whether it has an identity.
#[derive(Clone, Copy, Debug, PartialEq, Eq, Structural)]
pub enum FuncRepr {
    /// A built-in function, with its identity among the built-in functions.
    Native(u64),
    /// The constructor of a structural element, with the element's identity.
    Element(u64),
    /// A closure or another user-defined function: it has no identity.
    Opaque,
}

/// The identity under which a value is found again. Functions of different
/// representations never share a key, and a function without identity has
/// none.
#[derive(Clone, Copy, Debug, PartialEq, Eq, Hash, Structural)]
pub enum SymbolKey {
    Native(u64),
    Element(u64),
    Type(u64),
}

/// A function value.
#[derive(Debug)]
pub struct Func {
    pub repr: FuncRepr,
    /// The function's own name; `None` for an anonymous function.
    pub name: Option<String>,
    /// The names of its parameters.
    pub params: Vec<String>,
    /// The definitions nested in the function, if it has any.
    pub scope: Option<Scope>,
}

/// A type value.
#[derive(Debug)]
pub struct Type {
    /// The identity of the type.
    pub id: u64,
    /// The names of the parameters of its constructor (none without one).
    pub params: Vec<String>,
    /// The definitions nested in the type.
    pub scope: Scope,
}

/// A value bound to a name.
#[derive(Debug)]
pub enum Value {
    Func(Func),
    Type(Type),
    Module(Scope),
    Other,
}

/// A named value with its optional category.
#[derive(Debug)]
pub struct Binding {
    pub name: String,
    pub value: Value,
    pub category: Option<Category>,
}

/// A mapping from names to bindings, in the order of definition. A name is
/// looked up as the first binding that carries it.
#[derive(Debug)]
pub struct Scope {
    pub bindings: Vec<Binding>,
}

/// The namespace tree: the scope of the general namespace, from which links
/// are resolved, and the scope of the math namespace.
#[derive(Debug)]
pub struct NamespaceTree {
    pub global: Scope,
    pub math: Scope,
}

/// Whether `name` is one of `names`.
pub open spec fn names_contain(names: Seq<String>, name: Seq<char>) -> bool {
    exists|i: int| 0 <= i < names.len() && #[trigger] names[i]@ == name
}

/// The first position at or after `from` whose binding is called `name`, or
/// the number of bindings when there is none.
pub open spec fn position(bindings: Seq<Binding>, name: Seq<char>, from: int) -> int
    decreases bindings.len() - from,
{
    if from >= bindings.len() {
        bindings.len() as int
    } else if bindings[from].name@ == name {
        from
    } else {
        position(bindings, name, from + 1)
    }
}

/// What `position` returns lies between `from` and the end, names a binding
/// called `name` unless it is the end, and no binding before it is called so.
pub proof fn lemma_position(bindings: Seq<Binding>, name: Seq<char>, from: int)
    requires
        0 <= from <= bindings.len(),
    ensures
        from <= position(bindings, name, from) <= bindings.len(),
        position(bindings, name, from) < bindings.len() ==> bindings[position(
            bindings,
            name,
            from,
        )].name@ == name,
        forall|j: int| from <= j < position(bindings, name, from) ==> bindings[j].name@ != name,
    decreases bindings.len() - from,
{
    if from < bindings.len() && bindings[from].name@ != name {
        lemma_position(bindings, name, from + 1);
    }
}

/// The first binding called `name` at or after `from` is where `position`
/// points.
pub proof fn lemma_position_is(bindings: Seq<Binding>, name: Seq<char>, from: int, i: int)
    requires
        0 <= from <= i < bindings.len(),
        bindings[i].name@ == name,
        forall|j: int| from <= j < i ==> bindings[j].name@ != name,
    ensures
        position(bindings, name, from) == i,
    decreases i - from,
{
    if from < i {
        lemma_position_is(bindings, name, from + 1, i);
    }
}

/// Where two sequences of bindings differ only in bindings that are not
/// called `name`, and at most by one such binding at the end, `name`
/// refers to the same binding in both.
pub proof fn lemma_position_kept(a: Seq<Binding>, b: Seq<Binding>, name: Seq<char>, from: int)
    requires
        0 <= from <= a.len() <= b.len() <= a.len() + 1,
        forall|j: int|
            from <= j < a.len() ==> (a[j] == b[j] || (a[j].name@ != name && b[j].name@ != name)),
        b.len() == a.len() + 1 ==> b[a.len() as int].name@ != name,
    ensures
        position(a, name, from) < a.len() <==> position(b, name, from) < b.len(),
        position(a, name, from) < a.len() ==> position(b, name, from) == position(a, name, from)
            && b[position(a, name, from)] == a[position(a, name, from)],
    decreases a.len() - from,
{
    if from < a.len() {
        if a[from].name@ != name {
            lemma_position_kept(a, b, name, from + 1);
        }
    } else if b.len() == a.len() + 1 {
        assert(position(b, name, from + 1) == b.len());
    }
}

/// In a scope without repeated names, every binding is the one that its
/// name refers to.
pub proof fn lemma_unique_names(scope: Scope, i: int)
    requires
        scope.names_unique(),
        0 <= i < scope.bindings.len(),
    ensures
        scope.spec_get(scope.bindings@[i].name@) == Some(scope.bindings@[i]),
        scope@[scope.bindings@[i].name@] == scope.bindings@[i],
{
    lemma_position_is(scope.bindings@, scope.bindings@[i].name@, 0, i);
}

impl FuncRepr {
    /// The key of a function so represented.
    pub open spec fn spec_key(self) -> Option<SymbolKey> {
        match self {
            FuncRepr::Native(id) => Some(SymbolKey::Native(id)),
            FuncRepr::Element(id) => Some(SymbolKey::Element(id)),
            FuncRepr::Opaque => None,
        }
    }
}

impl Value {
    /// The scope nested in this value: that of a function, a type or a
    /// module.
    pub open spec fn spec_scope(self) -> Option<Scope> {
        match self {
            Value::Func(f) => f.scope,
            Value::Type(t) => Some(t.scope),
            Value::Module(s) => Some(s),
            Value::Other => None,
        }
    }

    /// The value bound to `name` in the scope nested in this value.
    pub open spec fn spec_field(self, name: Seq<char>) -> Option<Value> {
        match self.spec_scope() {
            Some(scope) => match scope.spec_get(name) {
                Some(binding) => Some(binding.value),
                None => None,
            },
            None => None,
        }
    }

    /// Whether this value can be called with a parameter called `name`.
    pub open spec fn spec_has_param(self, name: Seq<char>) -> bool {
        match self {
            Value::Func(f) => names_contain(f.params@, name),
            Value::Type(t) => names_contain(t.params@, name),
            _ => false,
        }
    }

    /// The identity of this value: of a function with an identity, or of a
    /// type.
    pub open spec fn spec_key(self) -> Option<SymbolKey> {
        match self {
            Value::Func(f) => f.repr.spec_key(),
            Value::Type(t) => Some(SymbolKey::Type(t.id)),
            _ => None,
        }
    }

    /// The scope nested in this value, if it has one.
    pub fn scope(&self) -> (res: Option<&Scope>)
        ensures
            match res {
                Some(s) => self.spec_scope() == Some(*s),
                None => self.spec_scope() is None,
            },
    {
        match self {
            Value::Func(f) => f.scope.as_ref(),
            Value::Type(t) => Some(&t.scope),
            Value::Module(s) => Some(s),
            Value::Other => None,
        }
    }

    /// The value bound to `name` in the scope nested in this value.
    pub fn field(&self, name: &str) -> (res: Option<&Value>)
        ensures
            match res {
                Some(v) => self.spec_field(name@) == Some(*v),
                None => self.spec_field(name@) is None,
            },
    {
        match self.scope() {
            Some(scope) => match scope.get(name) {
                Some(binding) => Some(&binding.value),
                None => None,
            },
            None => None,
        }
    }

    /// Whether this value can be called with a parameter called `name`.
    pub fn has_param(&self, name: &str) -> (res: bool)
        ensures
            res == self.spec_has_param(name@),
    {
        match self {
            Value::Func(f) => contains_name(&f.params, name),
            Value::Type(t) => contains_name(&t.params, name),
            _ => false,
        }
    }

    /// The identity of this value, if it has one.
    pub fn key(&self) -> (res: Option<SymbolKey>)
        ensures
            res == self.spec_key(),
    {
        match self {
            Value::Func(f) => match f.repr {
                FuncRepr::Native(id) => Some(SymbolKey::Native(id)),
                FuncRepr::Element(id) => Some(SymbolKey::Element(id)),
                FuncRepr::Opaque => None,
            },
            Value::Type(t) => Some(SymbolKey::Type(t.id)),
            _ => None,
        }
    }
}

/// Whether `name` is one of `names`.
pub fn contains_name(names: &Vec<String>, name: &str) -> (res: bool)
    ensures
        res == names_contain(names@, name@),
{
    let wanted = chars_of(name);
    let mut i: usize = 0;
    while i < names.len()
        invariant
            i <= names.len(),
            wanted@ == name@,
            forall|j: int| 0 <= j < i ==> names@[j]@ != name@,
        decreases names.len() - i,
    {
        if is_text(&wanted, names[i].as_str()) {
            return true;
        }
        i += 1;
    }
    false
}

impl View for Scope {
    type V = Map<Seq<char>, Binding>;

    /// The scope as a mapping from names to bindings.
    open spec fn view(&self) -> Map<Seq<char>, Binding> {
        Map::new(
            |name: Seq<char>| self.spec_get(name) is Some,
            |name: Seq<char>| self.spec_get(name)->0,
        )
    }
}

impl Scope {
    /// The binding that `name` refers to.
    pub open spec fn spec_get(self, name: Seq<char>) -> Option<Binding> {
        let i = position(self.bindings@, name, 0);
        if i < self.bindings.len() {
            Some(self.bindings@[i])
        } else {
            None
        }
    }

    /// No two bindings share a name.
    pub open spec fn names_unique(self) -> bool {
        forall|i: int, j: int|
            0 <= i < j < self.bindings.len() ==> #[trigger] self.bindings@[i].name@
                != #[trigger] self.bindings@[j].name@
    }

    /// The scope after `binding` was defined in it: in the place of the
    /// binding of that name, or at the end.
    pub open spec fn spec_define(self, binding: Binding) -> Seq<Binding> {
        let i = position(self.bindings@, binding.name@, 0);
        if i < self.bindings.len() {
            self.bindings@.update(i, binding)
        } else {
            self.bindings@.push(binding)
        }
    }

    /// An empty scope.
    pub fn new() -> (res: Scope)
        ensures
            res.bindings@ == Seq::<Binding>::empty(),
            res.names_unique(),
    {
        Scope { bindings: Vec::new() }
    }

    /// The position of the binding that `name` refers to.
    pub fn find(&self, name: &str) -> (res: usize)
        ensures
            res == position(self.bindings@, name@, 0),
            res <= self.bindings.len(),
    {
        let wanted = chars_of(name);
        let mut i: usize = 0;
        while i < self.bindings.len() && !is_text(&wanted, self.bindings[i].name.as_str())
            invariant
                i <= self.bindings.len(),
                wanted@ == name@,
                position(self.bindings@, name@, 0) == position(self.bindings@, name@, i as int),
            decreases self.bindings.len() - i,
        {
            i += 1;
        }
        i
    }

    /// The binding that `name` refers to.
    pub fn get(&self, name: &str) -> (res: Option<&Binding>)
        ensures
            match res {
                Some(b) => self.spec_get(name@) == Some(*b),
                None => self.spec_get(name@) is None,
            },
            match res {
                Some(b) => self@.contains_key(name@) && self@[name@] == *b,
                None => !self@.contains_key(name@),
            },
    {
        let i = self.find(name);
        if i < self.bindings.len() {
            Some(&self.bindings[i])
        } else {
            None
        }
    }

    /// Binds `name` to `value`: in the place of an earlier binding of that
    /// name, else as the last binding.
    pub fn define(&mut self, name: String, value: Value, category: Option<Category>)
        ensures
            final(self).bindings@ == old(self).spec_define(Binding { name, value, category }),
            final(self).spec_get(name@) == Some(Binding { name, value, category }),
            final(self)@ == old(self)@.insert(name@, Binding { name, value, category }),
            old(self).names_unique() ==> final(self).names_unique(),
    {
        let i = self.find(name.as_str());
        let ghost wanted = name@;
        let binding = Binding { name, value, category };
        proof {
            lemma_position(self.bindings@, wanted, 0);
        }
        if i < self.bindings.len() {
            self.bindings.set(i, binding);
        } else {
            self.bindings.push(binding);
        }
        proof {
            let before = old(self).bindings@;
            let after = self.bindings@;
            lemma_position_is(after, wanted, 0, i as int);
            assert forall|other: Seq<char>| other != wanted implies self.spec_get(other) == old(
                self,
            ).spec_get(other) by {
                lemma_position_kept(before, after, other, 0);
            }
            assert(self@ =~= old(self)@.insert(wanted, binding));
            if old(self).names_unique() {
                assert forall|j: int, k: int| 0 <= j < k < after.len() implies after[j].name@
                    != after[k].name@ by {
                    if j != i && k != i {
                        assert(before[j].name@ != before[k].name@);
                    }
                }
            }
        }
    }
}

} // verus!
