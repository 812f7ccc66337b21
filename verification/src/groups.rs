//! Groups: functions that are documented together on one page, which
//! overrides where each of them would be routed on its own.

use vstd::prelude::*;
use crate::error::ResolveError;
use crate::namespace::{contains_name, names_contain, Binding, NamespaceTree, Scope, Value};
use crate::text::{same_str, texts};

verus! {

/// A collection of functions documented on one page.
#[derive(Clone, Debug)]
pub struct GroupData {
    /// The name of the page.
    pub name: String,
    /// The name of the category that the page belongs to.
    pub category: String,
    /// The modules to walk, from the root, to the scope of the functions.
    pub path: Vec<String>,
    /// The names of the functions of the group. Empty until the group is
    /// filled, unless it was given.
    pub filter: Vec<String>,
}

/// A group as plain text.
pub struct GroupView {
    pub name: Seq<char>,
    pub category: Seq<char>,
    pub path: Seq<Seq<char>>,
    pub filter: Seq<Seq<char>>,
}

impl View for GroupData {
    type V = GroupView;

    open spec fn view(&self) -> GroupView {
        GroupView {
            name: self.name@,
            category: self.category@,
            path: texts(self.path@),
            filter: texts(self.filter@),
        }
    }
}

/// The groups, each with its functions.
#[derive(Debug)]
pub struct GroupRegistry {
    pub groups: Vec<GroupData>,
}

/// The groups as plain text.
pub open spec fn group_views(groups: Seq<GroupData>) -> Seq<GroupView> {
    groups.map_values(|g: GroupData| g@)
}

/// The scope reached from `scope` through the modules `path[from..]`, if
/// each of them is a module of the scope before it.
pub open spec fn module_at(scope: Scope, path: Seq<Seq<char>>, from: int) -> Option<Scope>
    decreases path.len() - from,
{
    if from >= path.len() {
        Some(scope)
    } else {
        match scope.spec_get(path[from]) {
            Some(binding) => match binding.value {
                Value::Module(inner) => module_at(inner, path, from + 1),
                _ => None,
            },
            None => None,
        }
    }
}

/// The names of the functions among the first `k` bindings, in order.
pub open spec fn function_names(bindings: Seq<Binding>, k: int) -> Seq<Seq<char>>
    decreases k,
{
    if k <= 0 || k > bindings.len() {
        Seq::<Seq<char>>::empty()
    } else if bindings[k - 1].value is Func {
        function_names(bindings, k - 1).push(bindings[k - 1].name@)
    } else {
        function_names(bindings, k - 1)
    }
}

/// The group with its functions: as given, or else every function of the
/// scope that its path leads to. `None` when the path leads nowhere.
pub open spec fn filled(group: GroupView, global: Scope) -> Option<GroupView> {
    if group.filter.len() > 0 {
        Some(group)
    } else {
        match module_at(global, group.path, 0) {
            Some(scope) => Some(
                GroupView {
                    filter: function_names(scope.bindings@, scope.bindings.len() as int),
                    ..group
                },
            ),
            None => None,
        }
    }
}

/// Whether `group` documents the function `name` of `category`.
pub open spec fn group_matches(group: GroupView, category: Seq<char>, name: Seq<char>) -> bool {
    group.category == category && group.filter.contains(name)
}

/// The first position at or after `from` of a group that documents the
/// function `name` of `category`, or the number of groups.
pub open spec fn group_position(
    groups: Seq<GroupView>,
    category: Seq<char>,
    name: Seq<char>,
    from: int,
) -> int
    decreases groups.len() - from,
{
    if from >= groups.len() {
        groups.len() as int
    } else if group_matches(groups[from], category, name) {
        from
    } else {
        group_position(groups, category, name, from + 1)
    }
}

/// The first group that documents the function `name` of `category`.
pub open spec fn find_group(groups: Seq<GroupView>, category: Seq<char>, name: Seq<char>) -> Option<
    GroupView,
> {
    let i = group_position(groups, category, name, 0);
    if i < groups.len() {
        Some(groups[i])
    } else {
        None
    }
}

/// What `group_position` returns lies between `from` and the end, points to
/// a matching group unless it is the end, and no group before it matches.
pub proof fn lemma_group_position(
    groups: Seq<GroupView>,
    category: Seq<char>,
    name: Seq<char>,
    from: int,
)
    requires
        0 <= from <= groups.len(),
    ensures
        from <= group_position(groups, category, name, from) <= groups.len(),
        group_position(groups, category, name, from) < groups.len() ==> group_matches(
            groups[group_position(groups, category, name, from)],
            category,
            name,
        ),
        forall|j: int|
            from <= j < group_position(groups, category, name, from) ==> !group_matches(
                #[trigger] groups[j],
                category,
                name,
            ),
    decreases groups.len() - from,
{
    if from < groups.len() && !group_matches(groups[from], category, name) {
        lemma_group_position(groups, category, name, from + 1);
    }
}

/// A name is among the texts of `names` exactly when one of them has it.
pub proof fn lemma_texts_contain(names: Seq<String>, name: Seq<char>)
    ensures
        texts(names).contains(name) == names_contain(names, name),
{
    if names_contain(names, name) {
        let i = choose|i: int| 0 <= i < names.len() && #[trigger] names[i]@ == name;
        assert(texts(names)[i] == name);
    }
}

/// The scope that `path` leads to from `global`.
pub fn module_of<'a>(global: &'a Scope, path: &Vec<String>) -> (res: Result<
    &'a Scope,
    ResolveError,
>)
    ensures
        match res {
            Ok(scope) => module_at(*global, texts(path@), 0) == Some(*scope),
            Err(e) => e == ResolveError::UnknownModule && module_at(*global, texts(path@), 0)
                is None,
        },
{
    let mut focus = global;
    let mut i: usize = 0;
    while i < path.len()
        invariant
            i <= path.len(),
            module_at(*global, texts(path@), 0) == module_at(*focus, texts(path@), i as int),
        decreases path.len() - i,
    {
        match focus.get(path[i].as_str()) {
            Some(binding) => match &binding.value {
                Value::Module(inner) => {
                    focus = inner;
                },
                _ => {
                    return Err(ResolveError::UnknownModule);
                },
            },
            None => {
                return Err(ResolveError::UnknownModule);
            },
        }
        i += 1;
    }
    Ok(focus)
}

/// The names of the functions bound in `scope`, in order.
pub fn functions_of(scope: &Scope) -> (names: Vec<String>)
    ensures
        texts(names@) == function_names(scope.bindings@, scope.bindings.len() as int),
{
    let mut names: Vec<String> = Vec::new();
    let mut i: usize = 0;
    while i < scope.bindings.len()
        invariant
            i <= scope.bindings.len(),
            texts(names@) == function_names(scope.bindings@, i as int),
        decreases scope.bindings.len() - i,
    {
        let binding = &scope.bindings[i];
        i += 1;
        if let Value::Func(_) = &binding.value {
            names.push(binding.name.clone());
        }
    }
    names
}

impl GroupData {
    /// The group with its functions: its own if it names any, else every
    /// function of the scope that its path leads to.
    pub fn fill(self, tree: &NamespaceTree) -> (res: Result<GroupData, ResolveError>)
        ensures
            match res {
                Ok(group) => filled(self@, tree.global) == Some(group@),
                Err(e) => e == ResolveError::UnknownModule && filled(self@, tree.global) is None,
            },
    {
        if self.filter.len() > 0 {
            return Ok(self);
        }
        let scope = match module_of(&tree.global, &self.path) {
            Ok(scope) => scope,
            Err(e) => {
                return Err(e);
            },
        };
        let filter = functions_of(scope);
        Ok(GroupData { name: self.name, category: self.category, path: self.path, filter })
    }

    /// Whether this group documents the function `name` of `category`.
    pub fn documents(&self, category: &str, name: &str) -> (res: bool)
        ensures
            res == group_matches(self@, category@, name@),
    {
        proof {
            lemma_texts_contain(self.filter@, name@);
        }
        same_str(self.category.as_str(), category) && contains_name(&self.filter, name)
    }
}

impl View for GroupRegistry {
    type V = Seq<GroupView>;

    open spec fn view(&self) -> Seq<GroupView> {
        group_views(self.groups@)
    }
}

impl GroupRegistry {
    /// Fills every group, in order. Fails on the first group whose path
    /// leads nowhere.
    pub fn load(groups: Vec<GroupData>, tree: &NamespaceTree) -> (res: Result<
        GroupRegistry,
        ResolveError,
    >)
        ensures
            match res {
                Ok(registry) => {
                    &&& registry.groups.len() == groups.len()
                    &&& forall|i: int|
                        0 <= i < groups.len() ==> filled(#[trigger] groups@[i]@, tree.global)
                            == Some(registry.groups@[i]@)
                },
                Err(e) => {
                    &&& e == ResolveError::UnknownModule
                    &&& exists|i: int|
                        0 <= i < groups.len() && filled(#[trigger] groups@[i]@, tree.global)
                            is None
                },
            },
    {
        let ghost given = groups@;
        let mut filled_groups: Vec<GroupData> = Vec::new();
        let iter = groups.into_iter();
        for group in it: iter
            invariant
                it.seq() == given,
                given == groups@,
                filled_groups.len() == it.index(),
                forall|i: int|
                    0 <= i < filled_groups.len() ==> filled(#[trigger] given[i]@, tree.global)
                        == Some(filled_groups@[i]@),
        {
            match group.fill(tree) {
                Ok(group) => {
                    filled_groups.push(group);
                },
                Err(e) => {
                    return Err(e);
                },
            }
        }
        Ok(GroupRegistry { groups: filled_groups })
    }

    /// The first group that documents the function `name` of `category`.
    pub fn find(&self, category: &str, name: &str) -> (res: Option<&GroupData>)
        ensures
            match res {
                Some(group) => find_group(self@, category@, name@) == Some(group@),
                None => find_group(self@, category@, name@) is None,
            },
    {
        let mut i: usize = 0;
        while i < self.groups.len()
            invariant
                i <= self.groups.len(),
                group_position(self@, category@, name@, 0) == group_position(
                    self@,
                    category@,
                    name@,
                    i as int,
                ),
            decreases self.groups.len() - i,
        {
            if self.groups[i].documents(category, name) {
                return Some(&self.groups[i]);
            }
            i += 1;
        }
        None
    }
}

} // verus!
