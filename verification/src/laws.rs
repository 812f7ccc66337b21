//! What holds of links, routes and the index in general.

use vstd::prelude::*;
use crate::error::ResolveError;
use crate::groups::{find_group, group_matches, lemma_group_position, GroupView};
use crate::index::{
    child_frame, frame_walk, function_route, grouped_route, index_entries, inherited, nested_walk,
    own_entries, pending, roots, route_of, symbol_route, to_map, Entry, Frame,
};
use crate::namespace::{FuncRepr, NamespaceTree, SymbolKey, Value};
use crate::resolve::{
    default_route, definition_route, group_route, has_scheme, is_absolute, is_closed, is_letter,
    is_scheme_char, known_route, lemma_closed, link_head, scheme_end,
    link_tail, normalized, route_of_link, segments, walk, with_tail,
};
use crate::docs::{
    advance, at_reference, emitted, lemma_advance, link_after, plain_docs, scan, CODE_FENCE,
    EXAMPLE_FENCE,
};
use crate::text::{find_char, lemma_find_char, lemma_skip_char, replace_from, urlify_text};

verus! {

/// A character that is not found from the start does not occur.
pub proof fn lemma_absent(s: Seq<char>, c: char)
    requires
        find_char(s, 0, c) == s.len(),
    ensures
        !s.contains(c),
{
    lemma_find_char(s, 0, c);
}

/// A character occurs in a concatenation exactly when it occurs in one of
/// the two parts.
pub proof fn lemma_contains_concat(a: Seq<char>, b: Seq<char>, c: char)
    ensures
        (a + b).contains(c) == (a.contains(c) || b.contains(c)),
{
    if a.contains(c) {
        let i = choose|i: int| 0 <= i < a.len() && a[i] == c;
        assert((a + b)[i] == c);
    }
    if b.contains(c) {
        let i = choose|i: int| 0 <= i < b.len() && b[i] == c;
        assert((a + b)[a.len() + i] == c);
    }
}

/// A head that opens with `$` and holds no slash, and that names a fixed
/// destination whose route is not closed, resolves to that route with a
/// closing slash.
pub proof fn lemma_plain_head(
    head: Seq<char>,
    route: Seq<char>,
    base: Seq<char>,
    tree: NamespaceTree,
    groups: Seq<GroupView>,
)
    requires
        head.len() > 0,
        head[0] == '$',
        find_char(head, 0, '/') == head.len(),
        known_route(head, base) == Some(route),
        !is_closed(route),
    ensures
        route_of_link(head, base, tree, groups) == Ok::<Seq<char>, ResolveError>(route.push('/')),
{
    assert(link_head(head) =~= head);
}

/// A base without fragment and query, followed by a suffix without them
/// that does not end in a slash, is not closed.
pub proof fn lemma_open_route(base: Seq<char>, suffix: Seq<char>)
    requires
        !base.contains('#'),
        !base.contains('?'),
        suffix.len() > 0,
        suffix.last() != '/',
        find_char(suffix, 0, '#') == suffix.len(),
        find_char(suffix, 0, '?') == suffix.len(),
    ensures
        !is_closed(base + suffix),
{
    lemma_absent(suffix, '#');
    lemma_absent(suffix, '?');
    lemma_contains_concat(base, suffix, '#');
    lemma_contains_concat(base, suffix, '?');
}

/// `$tutorial` leads to the tutorial under the base.
pub proof fn lemma_tutorial(base: Seq<char>, tree: NamespaceTree, groups: Seq<GroupView>)
    requires
        !base.contains('#'),
        !base.contains('?'),
    ensures
        route_of_link("$tutorial"@, base, tree, groups) == Ok::<Seq<char>, ResolveError>(
            (base + "tutorial"@).push('/'),
        ),
{
    reveal_strlit("$tutorial");
    reveal_strlit("tutorial");
    reveal_with_fuel(find_char, 12);
    lemma_open_route(base, "tutorial"@);
    lemma_plain_head("$tutorial"@, base + "tutorial"@, base, tree, groups);
}

/// `$reference` leads to the reference under the base.
pub proof fn lemma_reference(base: Seq<char>, tree: NamespaceTree, groups: Seq<GroupView>)
    requires
        !base.contains('#'),
        !base.contains('?'),
    ensures
        route_of_link("$reference"@, base, tree, groups) == Ok::<Seq<char>, ResolveError>(
            (base + "reference"@).push('/'),
        ),
{
    reveal_strlit("$tutorial");
    reveal_strlit("$reference");
    reveal_strlit("reference");
    reveal_with_fuel(find_char, 13);
    lemma_open_route(base, "reference"@);
    lemma_plain_head("$reference"@, base + "reference"@, base, tree, groups);
}

/// `$category` leads to the reference under the base, as `$reference` does.
pub proof fn lemma_category(base: Seq<char>, tree: NamespaceTree, groups: Seq<GroupView>)
    requires
        !base.contains('#'),
        !base.contains('?'),
    ensures
        route_of_link("$category"@, base, tree, groups) == Ok::<Seq<char>, ResolveError>(
            (base + "reference"@).push('/'),
        ),
{
    reveal_strlit("$tutorial");
    reveal_strlit("$reference");
    reveal_strlit("$category");
    reveal_strlit("reference");
    reveal_with_fuel(find_char, 12);
    lemma_open_route(base, "reference"@);
    lemma_plain_head("$category"@, base + "reference"@, base, tree, groups);
}

/// `$syntax` leads to the page on syntax under the base.
pub proof fn lemma_syntax(base: Seq<char>, tree: NamespaceTree, groups: Seq<GroupView>)
    requires
        !base.contains('#'),
        !base.contains('?'),
    ensures
        route_of_link("$syntax"@, base, tree, groups) == Ok::<Seq<char>, ResolveError>(
            (base + "reference/syntax"@).push('/'),
        ),
{
    reveal_strlit("$tutorial");
    reveal_strlit("$reference");
    reveal_strlit("$category");
    reveal_strlit("$syntax");
    reveal_strlit("reference/syntax");
    reveal_with_fuel(find_char, 19);
    lemma_open_route(base, "reference/syntax"@);
    lemma_plain_head("$syntax"@, base + "reference/syntax"@, base, tree, groups);
}

/// `$styling` leads to the page on styling under the base.
pub proof fn lemma_styling(base: Seq<char>, tree: NamespaceTree, groups: Seq<GroupView>)
    requires
        !base.contains('#'),
        !base.contains('?'),
    ensures
        route_of_link("$styling"@, base, tree, groups) == Ok::<Seq<char>, ResolveError>(
            (base + "reference/styling"@).push('/'),
        ),
{
    reveal_strlit("$tutorial");
    reveal_strlit("$reference");
    reveal_strlit("$category");
    reveal_strlit("$syntax");
    reveal_strlit("$styling");
    reveal_strlit("reference/styling");
    reveal_with_fuel(find_char, 20);
    lemma_open_route(base, "reference/styling"@);
    lemma_plain_head("$styling"@, base + "reference/styling"@, base, tree, groups);
}

/// `$scripting` leads to the page on scripting under the base.
pub proof fn lemma_scripting(base: Seq<char>, tree: NamespaceTree, groups: Seq<GroupView>)
    requires
        !base.contains('#'),
        !base.contains('?'),
    ensures
        route_of_link("$scripting"@, base, tree, groups) == Ok::<Seq<char>, ResolveError>(
            (base + "reference/scripting"@).push('/'),
        ),
{
    reveal_strlit("$tutorial");
    reveal_strlit("$reference");
    reveal_strlit("$category");
    reveal_strlit("$syntax");
    reveal_strlit("$styling");
    reveal_strlit("$scripting");
    reveal_strlit("reference/scripting");
    reveal_with_fuel(find_char, 22);
    lemma_open_route(base, "reference/scripting"@);
    lemma_plain_head("$scripting"@, base + "reference/scripting"@, base, tree, groups);
}

/// `$context` leads to the page on context under the base.
pub proof fn lemma_context(base: Seq<char>, tree: NamespaceTree, groups: Seq<GroupView>)
    requires
        !base.contains('#'),
        !base.contains('?'),
    ensures
        route_of_link("$context"@, base, tree, groups) == Ok::<Seq<char>, ResolveError>(
            (base + "reference/context"@).push('/'),
        ),
{
    reveal_strlit("$tutorial");
    reveal_strlit("$reference");
    reveal_strlit("$category");
    reveal_strlit("$syntax");
    reveal_strlit("$styling");
    reveal_strlit("$scripting");
    reveal_strlit("$context");
    reveal_strlit("reference/context");
    reveal_with_fuel(find_char, 20);
    lemma_open_route(base, "reference/context"@);
    lemma_plain_head("$context"@, base + "reference/context"@, base, tree, groups);
}

/// `$guides` leads to the guides under the base.
pub proof fn lemma_guides(base: Seq<char>, tree: NamespaceTree, groups: Seq<GroupView>)
    requires
        !base.contains('#'),
        !base.contains('?'),
    ensures
        route_of_link("$guides"@, base, tree, groups) == Ok::<Seq<char>, ResolveError>(
            (base + "guides"@).push('/'),
        ),
{
    reveal_strlit("$tutorial");
    reveal_strlit("$reference");
    reveal_strlit("$category");
    reveal_strlit("$syntax");
    reveal_strlit("$styling");
    reveal_strlit("$scripting");
    reveal_strlit("$context");
    reveal_strlit("$guides");
    reveal_strlit("guides");
    reveal_with_fuel(find_char, 10);
    lemma_open_route(base, "guides"@);
    lemma_plain_head("$guides"@, base + "guides"@, base, tree, groups);
}

/// `$changelog` leads to the changelog under the base.
pub proof fn lemma_changelog(base: Seq<char>, tree: NamespaceTree, groups: Seq<GroupView>)
    requires
        !base.contains('#'),
        !base.contains('?'),
    ensures
        route_of_link("$changelog"@, base, tree, groups) == Ok::<Seq<char>, ResolveError>(
            (base + "changelog"@).push('/'),
        ),
{
    reveal_strlit("$tutorial");
    reveal_strlit("$reference");
    reveal_strlit("$category");
    reveal_strlit("$syntax");
    reveal_strlit("$styling");
    reveal_strlit("$scripting");
    reveal_strlit("$context");
    reveal_strlit("$guides");
    reveal_strlit("$changelog");
    reveal_strlit("changelog");
    reveal_with_fuel(find_char, 13);
    lemma_open_route(base, "changelog"@);
    lemma_plain_head("$changelog"@, base + "changelog"@, base, tree, groups);
}

/// `$community` leads to the community page under the base.
pub proof fn lemma_community(base: Seq<char>, tree: NamespaceTree, groups: Seq<GroupView>)
    requires
        !base.contains('#'),
        !base.contains('?'),
    ensures
        route_of_link("$community"@, base, tree, groups) == Ok::<Seq<char>, ResolveError>(
            (base + "community"@).push('/'),
        ),
{
    reveal_strlit("$tutorial");
    reveal_strlit("$reference");
    reveal_strlit("$category");
    reveal_strlit("$syntax");
    reveal_strlit("$styling");
    reveal_strlit("$scripting");
    reveal_strlit("$context");
    reveal_strlit("$guides");
    reveal_strlit("$changelog");
    reveal_strlit("$community");
    reveal_strlit("community");
    reveal_with_fuel(find_char, 13);
    lemma_open_route(base, "community"@);
    lemma_plain_head("$community"@, base + "community"@, base, tree, groups);
}

/// `$universe` leads to the package universe, whatever the base.
pub proof fn lemma_universe(base: Seq<char>, tree: NamespaceTree, groups: Seq<GroupView>)
    ensures
        route_of_link("$universe"@, base, tree, groups) == Ok::<Seq<char>, ResolveError>(
            "https://typst.app/universe"@.push('/'),
        ),
{
    reveal_strlit("$tutorial");
    reveal_strlit("$reference");
    reveal_strlit("$category");
    reveal_strlit("$syntax");
    reveal_strlit("$styling");
    reveal_strlit("$scripting");
    reveal_strlit("$context");
    reveal_strlit("$guides");
    reveal_strlit("$changelog");
    reveal_strlit("$community");
    reveal_strlit("$universe");
    reveal_strlit("https://typst.app/universe");
    reveal_with_fuel(find_char, 29);
    lemma_absent("https://typst.app/universe"@, '#');
    lemma_absent("https://typst.app/universe"@, '?');
    lemma_plain_head("$universe"@, "https://typst.app/universe"@, base, tree, groups);
}

/// All the fixed destinations at once: each head leads to its page under
/// the base, `$category` to the same page as `$reference`, and `$universe`
/// to the package universe.
pub proof fn lemma_known_destinations(base: Seq<char>, tree: NamespaceTree, groups: Seq<GroupView>)
    requires
        !base.contains('#'),
        !base.contains('?'),
    ensures
        route_of_link("$tutorial"@, base, tree, groups) == Ok::<Seq<char>, ResolveError>(
            (base + "tutorial"@).push('/'),
        ),
        route_of_link("$reference"@, base, tree, groups) == Ok::<Seq<char>, ResolveError>(
            (base + "reference"@).push('/'),
        ),
        route_of_link("$category"@, base, tree, groups) == route_of_link(
            "$reference"@,
            base,
            tree,
            groups,
        ),
        route_of_link("$syntax"@, base, tree, groups) == Ok::<Seq<char>, ResolveError>(
            (base + "reference/syntax"@).push('/'),
        ),
        route_of_link("$styling"@, base, tree, groups) == Ok::<Seq<char>, ResolveError>(
            (base + "reference/styling"@).push('/'),
        ),
        route_of_link("$scripting"@, base, tree, groups) == Ok::<Seq<char>, ResolveError>(
            (base + "reference/scripting"@).push('/'),
        ),
        route_of_link("$context"@, base, tree, groups) == Ok::<Seq<char>, ResolveError>(
            (base + "reference/context"@).push('/'),
        ),
        route_of_link("$guides"@, base, tree, groups) == Ok::<Seq<char>, ResolveError>(
            (base + "guides"@).push('/'),
        ),
        route_of_link("$changelog"@, base, tree, groups) == Ok::<Seq<char>, ResolveError>(
            (base + "changelog"@).push('/'),
        ),
        route_of_link("$community"@, base, tree, groups) == Ok::<Seq<char>, ResolveError>(
            (base + "community"@).push('/'),
        ),
        route_of_link("$universe"@, base, tree, groups) == Ok::<Seq<char>, ResolveError>(
            "https://typst.app/universe"@.push('/'),
        ),
{
    lemma_tutorial(base, tree, groups);
    lemma_reference(base, tree, groups);
    lemma_category(base, tree, groups);
    lemma_syntax(base, tree, groups);
    lemma_styling(base, tree, groups);
    lemma_scripting(base, tree, groups);
    lemma_context(base, tree, groups);
    lemma_guides(base, tree, groups);
    lemma_changelog(base, tree, groups);
    lemma_community(base, tree, groups);
    lemma_universe(base, tree, groups);
}

/// The head of a link holds no slash, the tail does not begin with one,
/// and between the two stand slashes only.
pub proof fn lemma_link_parts(link: Seq<char>)
    ensures
        !link_head(link).contains('/'),
        link_tail(link).len() > 0 ==> link_tail(link)[0] != '/',
        link_head(link).len() + link_tail(link).len() <= link.len(),
        link_head(link).len() == link.len() ==> link_tail(link).len() == 0,
        forall|j: int|
            link_head(link).len() <= j < link.len() - link_tail(link).len() ==> link[j] == '/',
{
    lemma_find_char(link, 0, '/');
    let k = find_char(link, 0, '/');
    lemma_skip_char(link, k, '/');
}

/// The end of a scheme lies at the first character that a scheme cannot
/// hold.
pub proof fn lemma_scheme_end(link: Seq<char>, from: int, end: int)
    requires
        0 <= from <= end <= link.len(),
        forall|j: int| from <= j < end ==> is_scheme_char(#[trigger] link[j]),
        end < link.len() ==> !is_scheme_char(link[end]),
    ensures
        scheme_end(link, from) == end,
    decreases end - from,
{
    if from < end {
        lemma_scheme_end(link, from + 1, end);
    }
}

/// The end of a scheme lies between the position it is sought from and the
/// end of the link, and only scheme characters stand before it.
pub proof fn lemma_scheme_end_bounds(link: Seq<char>, from: int)
    requires
        0 <= from <= link.len(),
    ensures
        from <= scheme_end(link, from) <= link.len(),
        forall|j: int| from <= j < scheme_end(link, from) ==> is_scheme_char(#[trigger] link[j]),
    decreases link.len() - from,
{
    if from < link.len() && is_scheme_char(link[from]) {
        lemma_scheme_end_bounds(link, from + 1);
    }
}

/// A scheme, a colon and anything behind them make a link that is taken as
/// it is: `https://…`, `http://…`, `mailto:…`, `ftp://…` and every other
/// URL.
pub proof fn lemma_url_is_absolute(scheme: Seq<char>, rest: Seq<char>)
    requires
        scheme.len() > 0,
        is_letter(scheme[0]),
        forall|j: int| 0 <= j < scheme.len() ==> is_scheme_char(#[trigger] scheme[j]),
    ensures
        has_scheme(scheme + seq![':'] + rest),
        is_absolute(scheme + seq![':'] + rest),
{
    let link = scheme + seq![':'] + rest;
    assert forall|j: int| 1 <= j < scheme.len() implies is_scheme_char(#[trigger] link[j]) by {
        assert(link[j] == scheme[j]);
    }
    assert(link[scheme.len() as int] == ':');
    lemma_scheme_end(link, 1, scheme.len() as int);
}

/// A link that opens with neither `#` nor an ASCII letter, or that holds no
/// colon, is not taken as it is.
pub proof fn lemma_not_absolute(link: Seq<char>)
    ensures
        link.len() == 0 ==> !is_absolute(link),
        link.len() > 0 && link[0] != '#' && !is_letter(link[0]) ==> !is_absolute(link),
        link.len() > 0 && link[0] != '#' && !link.contains(':') ==> !is_absolute(link),
{
    if link.len() > 0 && has_scheme(link) {
        lemma_scheme_end_bounds(link, 1);
        assert(link.contains(link[scheme_end(link, 1)]));
    }
}

/// A link that opens with `#` or with the scheme of a URL resolves to
/// itself, whatever the base and the namespace.
pub proof fn lemma_absolute_link_unchanged(
    link: Seq<char>,
    base: Seq<char>,
    tree: NamespaceTree,
    groups: Seq<GroupView>,
)
    requires
        is_absolute(link),
    ensures
        route_of_link(link, base, tree, groups) == Ok::<Seq<char>, ResolveError>(link),
{
}

/// A closed route is left as it is; any other route gets one slash, after
/// which it is closed, so that a second normalization changes nothing.
pub proof fn lemma_normalized(route: Seq<char>)
    ensures
        is_closed(route) ==> normalized(route) == route,
        !is_closed(route) ==> normalized(route) == route.push('/'),
        (route.contains('#') || route.contains('?')) ==> normalized(route) == route,
        is_closed(normalized(route)),
        normalized(normalized(route)) == normalized(route),
{
    lemma_closed(route);
}

/// Every route that a link resolves to, unless the link is taken as it is,
/// is closed: it holds a fragment or a query, or it ends in a slash.
pub proof fn lemma_resolved_route_closed(
    link: Seq<char>,
    base: Seq<char>,
    tree: NamespaceTree,
    groups: Seq<GroupView>,
)
    requires
        !is_absolute(link),
        route_of_link(link, base, tree, groups) is Ok,
    ensures
        is_closed(route_of_link(link, base, tree, groups)->Ok_0),
        normalized(route_of_link(link, base, tree, groups)->Ok_0) == route_of_link(
            link,
            base,
            tree,
            groups,
        )->Ok_0,
{
    let head = match known_route(link_head(link), base) {
        Some(route) => Ok(route),
        None => definition_route(link_head(link), base, tree, groups),
    };
    lemma_normalized(with_tail(head->Ok_0, link_tail(link)));
}

/// Where the category and the name of a definition match a group, the
/// definition resolves to the page of the first such group, at the
/// fragment of the function: the group decides, whatever the definition
/// holds.
pub proof fn lemma_group_precedence(
    head: Seq<char>,
    base: Seq<char>,
    tree: NamespaceTree,
    groups: Seq<GroupView>,
    i: int,
)
    requires
        walk(tree.global, segments(head), 0, None).category is Some,
        walk(tree.global, segments(head), 0, None).next < segments(head).len(),
        walk(tree.global, segments(head), 0, None).scope.spec_get(
            segments(head)[walk(tree.global, segments(head), 0, None).next],
        ) is Some,
        0 <= i < groups.len(),
        group_matches(
            groups[i],
            walk(tree.global, segments(head), 0, None).category->0.name@,
            segments(head)[walk(tree.global, segments(head), 0, None).next],
        ),
    ensures
        ({
            let parts = segments(head);
            let stop = walk(tree.global, parts, 0, None);
            let found = find_group(groups, stop.category->0.name@, parts[stop.next]);
            &&& found is Some
            &&& group_matches(found->0, stop.category->0.name@, parts[stop.next])
            &&& definition_route(head, base, tree, groups) == Ok::<Seq<char>, ResolveError>(
                group_route(base, found->0, parts, stop.next),
            )
            &&& (base + "reference/"@ + found->0.category + "/"@ + found->0.name
                + "/#functions-"@ + parts[stop.next]).is_prefix_of(
                group_route(base, found->0, parts, stop.next),
            )
        }),
{
    let parts = segments(head);
    let stop = walk(tree.global, parts, 0, None);
    lemma_group_position(groups, stop.category->0.name@, parts[stop.next], 0);
}

/// The page of a group is never the page that the definition would have
/// by itself, as long as neither the name of the group nor the name of the
/// definition holds a slash.
pub proof fn lemma_group_route_differs(
    base: Seq<char>,
    category: Seq<char>,
    group: GroupView,
    value: Value,
    parts: Seq<Seq<char>>,
    next: int,
)
    requires
        0 <= next < parts.len(),
        group.category == category,
        !group.name.contains('/'),
        !parts[next].contains('/'),
    ensures
        default_route(base, category, value, parts, next) != Ok::<Seq<char>, ResolveError>(
            group_route(base, group, parts, next),
        ),
{
    reveal_strlit("/#functions-");
    reveal_strlit("/#definitions-");
    reveal_strlit("/#parameters-");
    reveal_strlit("-");
    let prefix = base + "reference/"@ + category + "/"@;
    let leaf = parts[next];
    let at = prefix.len() as int;
    let grouped = group_route(base, group, parts, next);
    let head = prefix + group.name + "/#functions-"@ + leaf;
    assert(head.is_prefix_of(grouped));
    assert(head[at + group.name.len()] == '/');
    assert(head[at + group.name.len() + 2] == 'f');
    assert(forall|k: int| 0 <= k < group.name.len() ==> head[at + k] == group.name[k]);
    if default_route(base, category, value, parts, next) is Ok {
        let plain = default_route(base, category, value, parts, next)->Ok_0;
        let own = prefix + leaf;
        assert(forall|k: int| 0 <= k < leaf.len() ==> own[at + k] == leaf[k]);
        if next + 1 >= parts.len() {
            assert(plain.len() < grouped.len());
        } else {
            let mark = if value.spec_field(parts[next + 1]) is Some {
                own + "/#definitions-"@
            } else {
                own + "/#parameters-"@
            };
            assert(mark.is_prefix_of(plain));
            assert(mark[at + leaf.len()] == '/');
            assert(mark[at + leaf.len() + 2] != 'f');
            if group.name.len() < leaf.len() {
                assert(plain[at + group.name.len()] == leaf[group.name.len() as int]);
                assert(grouped[at + group.name.len()] == '/');
            } else if group.name.len() > leaf.len() {
                assert(grouped[at + leaf.len()] == group.name[leaf.len() as int]);
                assert(plain[at + leaf.len()] == '/');
            } else {
                assert(grouped[at + leaf.len() + 2] == 'f');
                assert(plain[at + leaf.len() + 2] != 'f');
            }
        }
    }
}

/// Two values of the same identity have the same route, and a value
/// without identity has none: a closure, a module or any other value, also
/// where a symbol of the same name is indexed.
pub proof fn lemma_route_stable(a: Value, b: Value, index: Map<SymbolKey, Seq<char>>)
    ensures
        a.spec_key() == b.spec_key() ==> route_of(a, index) == route_of(b, index),
        a.spec_key() is None ==> route_of(a, index) is None,
        (a matches Value::Func(f) && f.repr == FuncRepr::Opaque) ==> route_of(a, index) is None,
        a is Module || a is Other ==> route_of(a, index) is None,
{
}

/// Whether every registration records a closed route.
pub open spec fn all_closed(entries: Seq<Entry>) -> bool {
    forall|i: int| 0 <= i < entries.len() ==> is_closed((#[trigger] entries[i]).route)
}

/// The route of a symbol by itself is closed: it ends in a slash at the top
/// level, and holds a fragment below.
pub proof fn lemma_symbol_route_closed(
    category: Seq<char>,
    parent: Option<Seq<char>>,
    name: Seq<char>,
)
    ensures
        is_closed(symbol_route(category, parent, name)),
{
    reveal_strlit("/");
    reveal_strlit("/#definitions-");
    let route = symbol_route(category, parent, name);
    match parent {
        Some(parent) => {
            let front = "reference/"@ + category + "/"@ + parent;
            assert(route[front.len() as int + 1] == '#');
        },
        None => {
            assert(route.last() == '/');
        },
    }
}

/// The route of a function is closed: it holds the fragment of its group,
/// or it is the route of a symbol by itself.
pub proof fn lemma_function_route_closed(
    category: Seq<char>,
    parent: Option<Seq<char>>,
    name: Seq<char>,
    groups: Seq<GroupView>,
)
    ensures
        is_closed(function_route(category, parent, name, groups)),
{
    reveal_strlit("/#functions-");
    match find_group(groups, category, name) {
        Some(group) => {
            let front = "reference/"@ + group.category + "/"@ + group.name;
            assert(grouped_route(group, name)[front.len() as int + 1] == '#');
        },
        None => {
            lemma_symbol_route_closed(category, parent, name);
        },
    }
}

/// What the bindings of a frame register is closed.
pub proof fn lemma_own_entries_closed(frame: Frame, groups: Seq<GroupView>, k: int)
    ensures
        all_closed(own_entries(frame, groups, k)),
    decreases k,
{
    if 0 < k <= frame.scope.bindings.len() {
        lemma_own_entries_closed(frame, groups, k - 1);
        let binding = frame.scope.bindings@[k - 1];
        match inherited(frame.category, binding) {
            Some(category) => {
                lemma_symbol_route_closed(
                    category.name@,
                    frame.parent,
                    urlify_text(binding.name@),
                );
                if let Value::Func(f) = binding.value {
                    if let Some(name) = f.name {
                        lemma_function_route_closed(category.name@, frame.parent, name@, groups);
                    }
                }
            },
            None => {},
        }
    }
}

/// Everything registered below a frame is closed.
pub proof fn lemma_frame_walk_closed(frame: Frame, groups: Seq<GroupView>)
    ensures
        all_closed(frame_walk(frame, groups)),
    decreases frame.scope, frame.scope.bindings.len() + 1,
{
    lemma_own_entries_closed(frame, groups, frame.scope.bindings.len() as int);
    lemma_nested_walk_closed(frame, groups, frame.scope.bindings.len() as int);
}

/// Everything registered below the scopes nested in a frame is closed.
pub proof fn lemma_nested_walk_closed(frame: Frame, groups: Seq<GroupView>, k: int)
    ensures
        all_closed(nested_walk(frame, groups, k)),
    decreases frame.scope, k,
{
    if 0 < k <= frame.scope.bindings.len() {
        lemma_nested_walk_closed(frame, groups, k - 1);
        match child_frame(frame.scope.bindings@[k - 1], frame) {
            Some(child) => {
                lemma_frame_walk_closed(child, groups);
            },
            None => {},
        }
    }
}

/// Everything that waiting frames will register is closed.
pub proof fn lemma_pending_closed(frames: Seq<Frame>, groups: Seq<GroupView>)
    ensures
        all_closed(pending(frames, groups)),
    decreases frames.len(),
{
    if frames.len() > 0 {
        lemma_frame_walk_closed(frames.last(), groups);
        lemma_pending_closed(frames.drop_last(), groups);
    }
}

/// What the index holds for a key is the route of one of the
/// registrations.
pub proof fn lemma_to_map_route(entries: Seq<Entry>, key: SymbolKey)
    requires
        to_map(entries).contains_key(key),
    ensures
        exists|i: int|
            0 <= i < entries.len() && (#[trigger] entries[i]).key == key && entries[i].route
                == to_map(entries)[key],
    decreases entries.len(),
{
    if entries.len() > 0 {
        let last = entries.len() - 1;
        if entries[last].key == key {
            assert(entries[last].route == to_map(entries)[key]);
        } else {
            let front = entries.drop_last();
            lemma_to_map_route(front, key);
            let i = choose|i: int|
                0 <= i < front.len() && (#[trigger] front[i]).key == key && front[i].route
                    == to_map(front)[key];
            assert(entries[i].key == key && entries[i].route == to_map(entries)[key]);
        }
    }
}

/// Every route that the index of a tree records is closed: it holds a
/// fragment, or it ends in a slash.
pub proof fn lemma_index_routes_closed(tree: NamespaceTree, groups: Seq<GroupView>, key: SymbolKey)
    requires
        to_map(index_entries(tree, groups)).contains_key(key),
    ensures
        is_closed(to_map(index_entries(tree, groups))[key]),
{
    let entries = index_entries(tree, groups);
    lemma_pending_closed(roots(tree), groups);
    lemma_to_map_route(entries, key);
}

/// The index holds a key exactly when something registered it.
pub proof fn lemma_to_map_keys(entries: Seq<Entry>, key: SymbolKey)
    ensures
        to_map(entries).contains_key(key) <==> exists|i: int|
            0 <= i < entries.len() && (#[trigger] entries[i]).key == key,
    decreases entries.len(),
{
    if entries.len() > 0 {
        let front = entries.drop_last();
        let last = entries.len() - 1;
        lemma_to_map_keys(front, key);
        if entries[last].key != key {
            if exists|i: int| 0 <= i < entries.len() && (#[trigger] entries[i]).key == key {
                let i = choose|i: int|
                    0 <= i < entries.len() && (#[trigger] entries[i]).key == key;
                assert(front[i].key == key);
            }
        }
    }
}

/// The index holds for a key the route of its last registration: where
/// every key is registered once, the order of the traversal is immaterial.
pub proof fn lemma_to_map_last(entries: Seq<Entry>, i: int)
    requires
        0 <= i < entries.len(),
        forall|j: int| i < j < entries.len() ==> (#[trigger] entries[j]).key != entries[i].key,
    ensures
        to_map(entries).contains_key(entries[i].key),
        to_map(entries)[entries[i].key] == entries[i].route,
    decreases entries.len(),
{
    let front = entries.drop_last();
    let last = entries.len() - 1;
    if i < last {
        assert forall|j: int| i < j < front.len() implies (#[trigger] front[j]).key
            != front[i].key by {
        }
        lemma_to_map_last(front, i);
    }
}

/// Where nothing of `pat` can begin, nothing is replaced.
pub proof fn lemma_nothing_replaced(s: Seq<char>, from: int, pat: Seq<char>, to: Seq<char>)
    requires
        0 <= from <= s.len(),
        pat.len() > 0,
        !s.contains(pat[0]),
    ensures
        replace_from(s, from, pat, to) == s.subrange(from, s.len() as int),
    decreases s.len() - from,
{
    if from < s.len() {
        lemma_nothing_replaced(s, from + 1, pat, to);
    }
}

/// Whether no closing bracket of `s` stands right before an opening
/// parenthesis.
pub open spec fn no_link_target(s: Seq<char>) -> bool {
    forall|j: int| 0 <= j && j + 1 < s.len() && #[trigger] s[j] == ']' ==> s[j + 1] != '('
}

/// Text without backtick in which no `]` stands before a `(` is scanned as
/// it is, whether a link is open or not: references in brackets are copied
/// and never resolved.
pub proof fn lemma_scan_unchanged(
    s: Seq<char>,
    i: int,
    in_link: bool,
    tree: NamespaceTree,
    groups: Seq<GroupView>,
)
    requires
        0 <= i <= s.len(),
        !s.contains('`'),
        no_link_target(s),
    ensures
        scan(s, i, in_link, tree, groups) == s.subrange(i, s.len() as int),
    decreases s.len() - i,
{
    if i < s.len() {
        lemma_advance(s, i, in_link);
        let next = advance(s, i, in_link);
        assert(emitted(s, i, in_link, tree, groups) =~= s.subrange(i, next)) by {
            if at_reference(s, i, in_link) {
                lemma_find_char(s, i + 2, ']');
            }
        }
        lemma_scan_unchanged(s, next, link_after(s, i, in_link), tree, groups);
    }
}

/// Documentation without inline code in which no `]` stands before a `(`
/// is displayed as it is: whole, with no cut at the end of a sentence.
pub proof fn lemma_plain_docs_unchanged(
    docs: Seq<char>,
    tree: NamespaceTree,
    groups: Seq<GroupView>,
)
    requires
        !docs.contains('`'),
        no_link_target(docs),
    ensures
        plain_docs(docs, tree, groups) == docs,
{
    reveal_strlit("```example");
    lemma_nothing_replaced(docs, 0, EXAMPLE_FENCE@, CODE_FENCE@);
    assert(docs.subrange(0, docs.len() as int) =~= docs);
    lemma_scan_unchanged(docs, 0, false, tree, groups);
}

} // verus!
