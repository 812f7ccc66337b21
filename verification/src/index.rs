//! The reverse index: from the identity of a value of the namespace to the
//! route of the page that documents it.

use std::collections::HashMap;
use vstd::prelude::*;
use vstd::string::StringExecFns;
use crate::groups::{find_group, GroupRegistry, GroupView};
use crate::laws::lemma_index_routes_closed;
use crate::namespace::{Binding, Category, NamespaceTree, Scope, SymbolKey, Value};
use crate::resolve::is_closed;
use crate::text::{urlify, urlify_text};

verus! {

/// One registration: a key and the route recorded for it.
pub struct Entry {
    pub key: SymbolKey,
    pub route: Seq<char>,
}

/// A scope that waits to be traversed, with what it has from above.
pub struct Frame {
    pub scope: Scope,
    /// The URL fragment of the name under which the scope was entered;
    /// `None` for a root.
    pub parent: Option<Seq<char>>,
    /// The category that holds for the whole scope, if one was met above.
    pub category: Option<Category>,
}

/// The category of a binding: the one from above, else its own.
pub open spec fn inherited(category: Option<Category>, binding: Binding) -> Option<Category> {
    if category is Some {
        category
    } else {
        binding.category
    }
}

/// The route of a symbol by itself: a page of its own at the top level,
/// else a definition on the page of what it is nested in.
pub open spec fn symbol_route(category: Seq<char>, parent: Option<Seq<char>>, name: Seq<char>) -> Seq<
    char,
> {
    match parent {
        Some(parent) => "reference/"@ + category + "/"@ + parent + "/#definitions-"@ + name,
        None => "reference/"@ + category + "/"@ + name + "/"@,
    }
}

/// The route of a function on the page of its group.
pub open spec fn grouped_route(group: GroupView, name: Seq<char>) -> Seq<char> {
    "reference/"@ + group.category + "/"@ + group.name + "/#functions-"@ + name
}

/// The route of a function called `name` of `category`: on the page of its
/// group if it has one, else by itself.
pub open spec fn function_route(
    category: Seq<char>,
    parent: Option<Seq<char>>,
    name: Seq<char>,
    groups: Seq<GroupView>,
) -> Seq<char> {
    match find_group(groups, category, name) {
        Some(group) => grouped_route(group, name),
        None => symbol_route(category, parent, name),
    }
}

/// What a binding registers: a function with an identity and a name, or a
/// type, if it has a category.
pub open spec fn entry_of(binding: Binding, frame: Frame, groups: Seq<GroupView>) -> Option<Entry> {
    match inherited(frame.category, binding) {
        None => None,
        Some(category) => match binding.value {
            Value::Func(f) => match (f.repr.spec_key(), f.name) {
                (Some(key), Some(name)) => Some(
                    Entry { key, route: function_route(category.name@, frame.parent, name@, groups) },
                ),
                _ => None,
            },
            Value::Type(t) => Some(
                Entry {
                    key: SymbolKey::Type(t.id),
                    route: symbol_route(category.name@, frame.parent, urlify_text(binding.name@)),
                },
            ),
            _ => None,
        },
    }
}

/// The scope nested in a binding, as it waits to be traversed.
pub open spec fn child_frame(binding: Binding, frame: Frame) -> Option<Frame> {
    match binding.value.spec_scope() {
        Some(scope) => Some(
            Frame {
                scope,
                parent: Some(urlify_text(binding.name@)),
                category: inherited(frame.category, binding),
            },
        ),
        None => None,
    }
}

/// What the first `k` bindings of a frame register, in order.
pub open spec fn own_entries(frame: Frame, groups: Seq<GroupView>, k: int) -> Seq<Entry>
    decreases k,
{
    if k <= 0 || k > frame.scope.bindings.len() {
        Seq::<Entry>::empty()
    } else {
        match entry_of(frame.scope.bindings@[k - 1], frame, groups) {
            Some(entry) => own_entries(frame, groups, k - 1).push(entry),
            None => own_entries(frame, groups, k - 1),
        }
    }
}

/// The scopes nested in the first `k` bindings of a frame, in order.
pub open spec fn child_frames(frame: Frame, k: int) -> Seq<Frame>
    decreases k,
{
    if k <= 0 || k > frame.scope.bindings.len() {
        Seq::<Frame>::empty()
    } else {
        match child_frame(frame.scope.bindings@[k - 1], frame) {
            Some(child) => child_frames(frame, k - 1).push(child),
            None => child_frames(frame, k - 1),
        }
    }
}

/// Everything registered below a frame, in the order of the traversal: the
/// frame's own bindings first, then the nested scopes, the last one first.
pub open spec fn frame_walk(frame: Frame, groups: Seq<GroupView>) -> Seq<Entry>
    decreases frame.scope, frame.scope.bindings.len() + 1,
{
    own_entries(frame, groups, frame.scope.bindings.len() as int) + nested_walk(
        frame,
        groups,
        frame.scope.bindings.len() as int,
    )
}

/// Everything registered below the scopes nested in the first `k` bindings
/// of a frame, the last of these scopes first.
pub open spec fn nested_walk(frame: Frame, groups: Seq<GroupView>, k: int) -> Seq<Entry>
    decreases frame.scope, k,
{
    if k <= 0 || k > frame.scope.bindings.len() {
        Seq::<Entry>::empty()
    } else {
        match child_frame(frame.scope.bindings@[k - 1], frame) {
            Some(child) => frame_walk(child, groups) + nested_walk(frame, groups, k - 1),
            None => nested_walk(frame, groups, k - 1),
        }
    }
}

/// Everything that a stack of waiting frames will still register: the top
/// of the stack, which is its last frame, comes first.
pub open spec fn pending(frames: Seq<Frame>, groups: Seq<GroupView>) -> Seq<Entry>
    decreases frames.len(),
{
    if frames.len() == 0 {
        Seq::<Entry>::empty()
    } else {
        frame_walk(frames.last(), groups) + pending(frames.drop_last(), groups)
    }
}

/// The frames from which the traversal starts.
pub open spec fn roots(tree: NamespaceTree) -> Seq<Frame> {
    seq![
        Frame { scope: tree.global, parent: None, category: None },
        Frame { scope: tree.math, parent: None, category: None },
    ]
}

/// Every registration of the tree, in the order of the traversal.
pub open spec fn index_entries(tree: NamespaceTree, groups: Seq<GroupView>) -> Seq<Entry> {
    pending(roots(tree), groups)
}

/// The mapping that a sequence of registrations leaves: for each key the
/// route of its last registration.
pub open spec fn to_map(entries: Seq<Entry>) -> Map<SymbolKey, Seq<char>>
    decreases entries.len(),
{
    if entries.len() == 0 {
        Map::empty()
    } else {
        to_map(entries.drop_last()).insert(entries.last().key, entries.last().route)
    }
}

/// The number of scopes in the tree below `scope`, itself included.
spec fn scope_count(scope: Scope) -> nat
    decreases scope, scope.bindings.len() + 1,
{
    1 + nested_count(scope, scope.bindings.len() as int)
}

/// The number of scopes in the trees nested in the first `k` bindings.
spec fn nested_count(scope: Scope, k: int) -> nat
    decreases scope, k,
{
    if k <= 0 || k > scope.bindings.len() {
        0
    } else {
        nested_count(scope, k - 1) + match scope.bindings@[k - 1].value.spec_scope() {
            Some(inner) => scope_count(inner),
            None => 0,
        }
    }
}

/// The number of scopes in the trees below the waiting frames.
spec fn frames_count(frames: Seq<Frame>) -> nat
    decreases frames.len(),
{
    if frames.len() == 0 {
        0
    } else {
        frames_count(frames.drop_last()) + scope_count(frames.last().scope)
    }
}

/// The number under which a key is stored.
spec fn encode(key: SymbolKey) -> u128 {
    match key {
        SymbolKey::Native(id) => id as u128,
        SymbolKey::Element(id) => (0x1_0000_0000_0000_0000u128 + id) as u128,
        SymbolKey::Type(id) => (0x2_0000_0000_0000_0000u128 + id) as u128,
    }
}

/// The mapping from keys that a table of stored routes stands for.
spec fn decoded(routes: Map<u128, String>) -> Map<SymbolKey, Seq<char>> {
    Map::new(
        |key: SymbolKey| routes.contains_key(encode(key)),
        |key: SymbolKey| routes[encode(key)]@,
    )
}

/// The route recorded for `value` in `index`.
pub open spec fn route_of(value: Value, index: Map<SymbolKey, Seq<char>>) -> Option<Seq<char>> {
    match value.spec_key() {
        Some(key) => if index.contains_key(key) {
            Some(index[key])
        } else {
            None
        },
        None => None,
    }
}

/// Different keys are stored under different numbers.
proof fn lemma_encode_injective(a: SymbolKey, b: SymbolKey)
    ensures
        encode(a) == encode(b) <==> a == b,
{
}

/// Storing a route under the number of a key records it for that key and
/// for no other.
proof fn lemma_decoded_insert(routes: Map<u128, String>, key: SymbolKey, route: String)
    ensures
        decoded(routes.insert(encode(key), route)) == decoded(routes).insert(key, route@),
{
    assert forall|other: SymbolKey| encode(other) == encode(key) implies other == key by {
        lemma_encode_injective(other, key);
    }
}

/// The frames waiting after the scopes nested in the first `k` bindings of
/// a frame were pushed on `rest` will register what these scopes hold, the
/// last one first, and then what `rest` holds.
proof fn lemma_pending_children(rest: Seq<Frame>, frame: Frame, groups: Seq<GroupView>, k: int)
    requires
        0 <= k <= frame.scope.bindings.len(),
    ensures
        pending(rest + child_frames(frame, k), groups) == nested_walk(frame, groups, k) + pending(
            rest,
            groups,
        ),
        frames_count(rest + child_frames(frame, k)) == frames_count(rest) + nested_count(
            frame.scope,
            k,
        ),
    decreases k,
{
    if k > 0 {
        lemma_pending_children(rest, frame, groups, k - 1);
        if child_frame(frame.scope.bindings@[k - 1], frame) is Some {
            assert((rest + child_frames(frame, k)).drop_last() =~= rest + child_frames(
                frame,
                k - 1,
            ));
        }
    }
}

/// The reverse index of a namespace tree.
pub struct SymbolIndex {
    routes: HashMap<u128, String>,
}

impl View for SymbolIndex {
    type V = Map<SymbolKey, Seq<char>>;

    closed spec fn view(&self) -> Map<SymbolKey, Seq<char>> {
        decoded(self.routes@)
    }
}

/// A scope on the work list, with what it has from above.
struct Waiting<'a> {
    scope: &'a Scope,
    parent: Option<String>,
    category: Option<&'a Category>,
}

impl<'a> Waiting<'a> {
    spec fn frame(self) -> Frame {
        Frame {
            scope: *self.scope,
            parent: match self.parent {
                Some(parent) => Some(parent@),
                None => None,
            },
            category: match self.category {
                Some(category) => Some(*category),
                None => None,
            },
        }
    }
}

/// The frames that a work list stands for.
spec fn frames_of(stack: Seq<Waiting<'_>>) -> Seq<Frame> {
    stack.map_values(|w: Waiting<'_>| w.frame())
}

/// The number under which `key` is stored.
fn encode_key(key: SymbolKey) -> (res: u128)
    ensures
        res == encode(key),
{
    match key {
        SymbolKey::Native(id) => id as u128,
        SymbolKey::Element(id) => 0x1_0000_0000_0000_0000u128 + (id as u128),
        SymbolKey::Type(id) => 0x2_0000_0000_0000_0000u128 + (id as u128),
    }
}

/// Builds the route of a symbol by itself.
fn make_symbol_route(category: &str, parent: &Option<String>, name: &str) -> (res: String)
    ensures
        res@ == symbol_route(
            category@,
            match parent {
                Some(parent) => Some(parent@),
                None => None,
            },
            name@,
        ),
{
    let mut route = String::from_str("reference/");
    route.append(category);
    route.append("/");
    match parent {
        Some(parent) => {
            route.append(parent.as_str());
            route.append("/#definitions-");
            route.append(name);
        },
        None => {
            route.append(name);
            route.append("/");
        },
    }
    route
}

/// Builds the route of a function: on the page of its group, or by itself.
fn make_function_route(
    category: &str,
    parent: &Option<String>,
    name: &str,
    groups: &GroupRegistry,
) -> (res: String)
    ensures
        res@ == function_route(
            category@,
            match parent {
                Some(parent) => Some(parent@),
                None => None,
            },
            name@,
            groups@,
        ),
{
    match groups.find(category, name) {
        Some(group) => {
            let mut route = String::from_str("reference/");
            route.append(group.category.as_str());
            route.append("/");
            route.append(group.name.as_str());
            route.append("/#functions-");
            route.append(name);
            route
        },
        None => make_symbol_route(category, parent, name),
    }
}

impl SymbolIndex {
    /// Traverses the tree from its roots with a work list and records the
    /// route of every function and type that has a category. Where a key is
    /// registered more than once, the last registration stays.
    pub fn build(tree: &NamespaceTree, groups: &GroupRegistry) -> (index: SymbolIndex)
        ensures
            index@ == to_map(index_entries(*tree, groups@)),
            forall|key: SymbolKey| index@.contains_key(key) ==> is_closed(#[trigger] index@[key]),
    {
        let mut routes: HashMap<u128, String> = HashMap::new();
        let mut stack: Vec<Waiting<'_>> = Vec::new();
        stack.push(Waiting { scope: &tree.global, parent: None, category: None });
        stack.push(Waiting { scope: &tree.math, parent: None, category: None });
        let ghost all = index_entries(*tree, groups@);
        let ghost mut done: Seq<Entry> = Seq::empty();
        proof {
            assert(frames_of(stack@) =~= roots(*tree));
        }
        while stack.len() > 0
            invariant
                decoded(routes@) == to_map(done),
                done + pending(frames_of(stack@), groups@) == all,
            decreases frames_count(frames_of(stack@)),
        {
            let ghost before = frames_of(stack@);
            let waiting = stack.pop().unwrap();
            let ghost frame = waiting.frame();
            let ghost rest = frames_of(stack@);
            let ghost done_before = done;
            proof {
                assert(before.drop_last() =~= rest);
            }
            let scope = waiting.scope;
            let mut j: usize = 0;
            while j < scope.bindings.len()
                invariant
                    j <= scope.bindings.len(),
                    *scope == frame.scope,
                    waiting.frame() == frame,
                    waiting.scope == scope,
                    decoded(routes@) == to_map(done),
                    done == done_before + own_entries(frame, groups@, j as int),
                    frames_of(stack@) == rest + child_frames(frame, j as int),
                decreases scope.bindings.len() - j,
            {
                let binding = &scope.bindings[j];
                let category: Option<&Category> = match waiting.category {
                    Some(category) => Some(category),
                    None => binding.category.as_ref(),
                };
                let name = urlify(binding.name.as_str());
                let ghost stack_before = stack@;
                let ghost done_then = done;
                let found: Option<(SymbolKey, String)> = match &binding.value {
                    Value::Func(f) => match (category, &f.name, binding.value.key()) {
                        (Some(category), Some(own), Some(key)) => Some(
                            (
                                key,
                                make_function_route(
                                    category.name.as_str(),
                                    &waiting.parent,
                                    own.as_str(),
                                    groups,
                                ),
                            ),
                        ),
                        _ => None,
                    },
                    Value::Type(t) => match category {
                        Some(category) => Some(
                            (
                                SymbolKey::Type(t.id),
                                make_symbol_route(
                                    category.name.as_str(),
                                    &waiting.parent,
                                    name.as_str(),
                                ),
                            ),
                        ),
                        None => None,
                    },
                    _ => None,
                };
                if let Some((key, route)) = found {
                    proof {
                        lemma_decoded_insert(routes@, key, route);
                        done = done.push(Entry { key, route: route@ });
                        assert(done.drop_last() =~= done_then);
                    }
                    routes.insert(encode_key(key), route);
                }
                if let Some(inner) = binding.value.scope() {
                    stack.push(Waiting { scope: inner, parent: Some(name), category });
                    assert(frames_of(stack@) =~= frames_of(stack_before).push(
                        child_frame(*binding, frame)->0,
                    ));
                }
                j += 1;
            }
            proof {
                lemma_pending_children(rest, frame, groups@, scope.bindings.len() as int);
            }
        }
        proof {
            assert forall|key: SymbolKey| to_map(all).contains_key(key) implies is_closed(
                #[trigger] to_map(all)[key],
            ) by {
                lemma_index_routes_closed(*tree, groups@, key);
            }
        }
        SymbolIndex { routes }
    }

    /// The route recorded for `key`.
    pub fn get(&self, key: SymbolKey) -> (res: Option<&String>)
        ensures
            match res {
                Some(route) => self@.contains_key(key) && self@[key] == route@,
                None => !self@.contains_key(key),
            },
    {
        let stored = encode_key(key);
        self.routes.get(&stored)
    }
}

/// Gets the route of a value: of a function with an identity or of a type,
/// if the index holds it.
pub fn route_of_value<'a>(value: &Value, index: &'a SymbolIndex) -> (res: Option<&'a String>)
    ensures
        match res {
            Some(route) => route_of(*value, index@) == Some(route@),
            None => route_of(*value, index@) is None,
        },
        value.spec_key() is None ==> res is None,
{
    match value.key() {
        Some(key) => index.get(key),
        None => None,
    }
}

} // verus!
