//! Resolution of links: from a symbolic reference such as
//! `$category.symbol.field` to the route of the page that documents it.

use vstd::prelude::*;
use vstd::string::StringExecFns;
use crate::error::ResolveError;
use crate::groups::{find_group, GroupRegistry, GroupView};
use crate::namespace::{Category, NamespaceTree, Scope, Value};
use crate::text::{
    chars_of, find_char, find_from, has_char, is_text, skip_char, skip_from, split, split_from,
    string_of, texts,
};

verus! {

/// Where the walk through the modules of a link stopped.
pub struct Walk {
    /// The scope in which the next segment is to be looked up.
    pub scope: Scope,
    /// The position of the first segment that names no module.
    pub next: int,
    /// The first category met on the way.
    pub category: Option<Category>,
}

/// Whether `c` is an ASCII letter.
pub open spec fn is_letter(c: char) -> bool {
    ('a' <= c && c <= 'z') || ('A' <= c && c <= 'Z')
}

/// Whether `c` may stand in the scheme of a URL: an ASCII letter, an ASCII
/// digit, `+`, `-` or `.`.
pub open spec fn is_scheme_char(c: char) -> bool {
    is_letter(c) || ('0' <= c && c <= '9') || c == '+' || c == '-' || c == '.'
}

/// The first position at or after `from` that holds no character of a
/// scheme, or the length of `link` when there is none.
pub open spec fn scheme_end(link: Seq<char>, from: int) -> int
    decreases link.len() - from,
{
    if from >= link.len() {
        link.len() as int
    } else if !is_scheme_char(link[from]) {
        from
    } else {
        scheme_end(link, from + 1)
    }
}

/// Whether a link opens with the scheme of a URL: an ASCII letter, then
/// any number of scheme characters, then a colon.
pub open spec fn has_scheme(link: Seq<char>) -> bool {
    &&& link.len() > 0
    &&& is_letter(link[0])
    &&& scheme_end(link, 1) < link.len()
    &&& link[scheme_end(link, 1)] == ':'
}

/// Whether a link is taken as it is: it opens with `#` or with the scheme
/// of a URL.
pub open spec fn is_absolute(link: Seq<char>) -> bool {
    (link.len() > 0 && link[0] == '#') || has_scheme(link)
}

/// The part of a link before its first slash.
pub open spec fn link_head(link: Seq<char>) -> Seq<char> {
    link.subrange(0, find_char(link, 0, '/'))
}

/// The part of a link after the slashes that follow its head.
pub open spec fn link_tail(link: Seq<char>) -> Seq<char> {
    link.subrange(skip_char(link, find_char(link, 0, '/'), '/'), link.len() as int)
}

/// The route of a head that names one of the fixed destinations.
pub open spec fn known_route(head: Seq<char>, base: Seq<char>) -> Option<Seq<char>> {
    if head == "$tutorial"@ {
        Some(base + "tutorial"@)
    } else if head == "$reference"@ {
        Some(base + "reference"@)
    } else if head == "$category"@ {
        Some(base + "reference"@)
    } else if head == "$syntax"@ {
        Some(base + "reference/syntax"@)
    } else if head == "$styling"@ {
        Some(base + "reference/styling"@)
    } else if head == "$scripting"@ {
        Some(base + "reference/scripting"@)
    } else if head == "$context"@ {
        Some(base + "reference/context"@)
    } else if head == "$guides"@ {
        Some(base + "guides"@)
    } else if head == "$changelog"@ {
        Some(base + "changelog"@)
    } else if head == "$community"@ {
        Some(base + "community"@)
    } else if head == "$universe"@ {
        Some("https://typst.app/universe"@)
    } else {
        None
    }
}

/// The segments of a head: what stands between the dots, after the leading
/// `$` signs.
pub open spec fn segments(head: Seq<char>) -> Seq<Seq<char>> {
    split_from(head, skip_char(head, 0, '$'), '.')
}

/// The category to go on with: the one already met, else that of `name` in
/// `scope`.
pub open spec fn met_category(category: Option<Category>, scope: Scope, name: Seq<char>) -> Option<
    Category,
> {
    if category is Some {
        category
    } else {
        match scope.spec_get(name) {
            Some(binding) => binding.category,
            None => None,
        }
    }
}

/// Walks from `scope` through the segments `parts[i..]` for as long as they
/// name modules, and keeps the first category met, that of the segment
/// where the walk stops included.
pub open spec fn walk(scope: Scope, parts: Seq<Seq<char>>, i: int, category: Option<Category>) -> Walk
    decreases parts.len() - i,
{
    if i >= parts.len() {
        Walk { scope, next: i, category }
    } else {
        let category = met_category(category, scope, parts[i]);
        match scope.spec_get(parts[i]) {
            Some(binding) => match binding.value {
                Value::Module(inner) => walk(inner, parts, i + 1, category),
                _ => Walk { scope, next: i, category },
            },
            None => Walk { scope, next: i, category },
        }
    }
}

/// The route into the page of `group` for the function `parts[next]`, and
/// for its parameter if a segment follows.
pub open spec fn group_route(base: Seq<char>, group: GroupView, parts: Seq<Seq<char>>, next: int) -> Seq<
    char,
> {
    let route = base + "reference/"@ + group.category + "/"@ + group.name + "/#functions-"@
        + parts[next];
    if next + 1 < parts.len() {
        route + "-"@ + parts[next + 1]
    } else {
        route
    }
}

/// The route of the definition `parts[next]` of `category` by itself, and
/// of what the segments after it name in `value`: a field, and a parameter
/// of that field if it has it, or else a parameter of `value`.
pub open spec fn default_route(
    base: Seq<char>,
    category: Seq<char>,
    value: Value,
    parts: Seq<Seq<char>>,
    next: int,
) -> Result<Seq<char>, ResolveError> {
    let route = base + "reference/"@ + category + "/"@ + parts[next];
    if next + 1 >= parts.len() {
        Ok(route)
    } else {
        match value.spec_field(parts[next + 1]) {
            Some(field) => {
                let route = route + "/#definitions-"@ + parts[next + 1];
                if next + 2 < parts.len() && field.spec_has_param(parts[next + 2]) {
                    Ok(route + "-"@ + parts[next + 2])
                } else {
                    Ok(route)
                }
            },
            None => if value.spec_has_param(parts[next + 1]) {
                Ok(route + "/#parameters-"@ + parts[next + 1])
            } else {
                Err(ResolveError::UnknownField)
            },
        }
    }
}

/// The route of the definition that `head` names.
pub open spec fn definition_route(
    head: Seq<char>,
    base: Seq<char>,
    tree: NamespaceTree,
    groups: Seq<GroupView>,
) -> Result<Seq<char>, ResolveError> {
    let parts = segments(head);
    let stop = walk(tree.global, parts, 0, None);
    if stop.category is None {
        Err(ResolveError::NoCategory)
    } else if stop.next >= parts.len() {
        Err(ResolveError::EmptyLinkHead)
    } else {
        match stop.scope.spec_get(parts[stop.next]) {
            None => Err(ResolveError::UnknownField),
            Some(binding) => match find_group(groups, stop.category->0.name@, parts[stop.next]) {
                Some(group) => Ok(group_route(base, group, parts, stop.next)),
                None => default_route(
                    base,
                    stop.category->0.name@,
                    binding.value,
                    parts,
                    stop.next,
                ),
            },
        }
    }
}

/// `route` with `tail` as a further path segment, if there is a tail.
pub open spec fn with_tail(route: Seq<char>, tail: Seq<char>) -> Seq<char> {
    if tail.len() > 0 {
        route + "/"@ + tail
    } else {
        route
    }
}

/// Whether `route` is left without a closing slash: it holds a fragment or
/// a query, or it ends in a slash already.
pub open spec fn is_closed(route: Seq<char>) -> bool {
    route.contains('#') || route.contains('?') || (route.len() > 0 && route.last() == '/')
}

/// `route` with a closing slash, unless it is closed.
pub open spec fn normalized(route: Seq<char>) -> Seq<char> {
    if is_closed(route) {
        route
    } else {
        route.push('/')
    }
}

/// Normalization closes every route.
pub proof fn lemma_closed(route: Seq<char>)
    ensures
        is_closed(normalized(route)),
{
}

/// The route that `link` resolves to.
pub open spec fn route_of_link(
    link: Seq<char>,
    base: Seq<char>,
    tree: NamespaceTree,
    groups: Seq<GroupView>,
) -> Result<Seq<char>, ResolveError> {
    if is_absolute(link) {
        Ok(link)
    } else if link_head(link).len() == 0 {
        Err(ResolveError::EmptyLinkHead)
    } else {
        let head = match known_route(link_head(link), base) {
            Some(route) => Ok(route),
            None => definition_route(link_head(link), base, tree, groups),
        };
        match head {
            Ok(route) => Ok(normalized(with_tail(route, link_tail(link)))),
            Err(e) => Err(e),
        }
    }
}

/// The text of a route, or the error.
pub open spec fn route_view(res: Result<String, ResolveError>) -> Result<Seq<char>, ResolveError> {
    match res {
        Ok(route) => Ok(route@),
        Err(e) => Err(e),
    }
}

/// The category that a reference points to.
pub open spec fn category_view(category: Option<&Category>) -> Option<Category> {
    match category {
        Some(c) => Some(*c),
        None => None,
    }
}

/// `base` followed by `suffix`.
fn join(base: &str, suffix: &str) -> (res: String)
    ensures
        res@ == base@ + suffix@,
{
    let mut res = String::from_str(base);
    res.append(suffix);
    res
}

/// Resolves a `$` link head to a known destination.
pub fn resolve_known(head: &str, base: &str) -> (res: Option<String>)
    ensures
        match res {
            Some(route) => known_route(head@, base@) == Some(route@),
            None => known_route(head@, base@) is None,
        },
{
    let chars = chars_of(head);
    if is_text(&chars, "$tutorial") {
        Some(join(base, "tutorial"))
    } else if is_text(&chars, "$reference") {
        Some(join(base, "reference"))
    } else if is_text(&chars, "$category") {
        Some(join(base, "reference"))
    } else if is_text(&chars, "$syntax") {
        Some(join(base, "reference/syntax"))
    } else if is_text(&chars, "$styling") {
        Some(join(base, "reference/styling"))
    } else if is_text(&chars, "$scripting") {
        Some(join(base, "reference/scripting"))
    } else if is_text(&chars, "$context") {
        Some(join(base, "reference/context"))
    } else if is_text(&chars, "$guides") {
        Some(join(base, "guides"))
    } else if is_text(&chars, "$changelog") {
        Some(join(base, "changelog"))
    } else if is_text(&chars, "$community") {
        Some(join(base, "community"))
    } else if is_text(&chars, "$universe") {
        Some(String::from_str("https://typst.app/universe"))
    } else {
        None
    }
}

/// Splits a link at its first slash: the head, and what follows the
/// slashes.
pub fn split_link(link: &str) -> (res: (String, String))
    ensures
        res.0@ == link_head(link@),
        res.1@ == link_tail(link@),
{
    let chars = chars_of(link);
    let k = find_from(&chars, 0, '/');
    let t = skip_from(&chars, k, '/');
    (string_of(&chars, 0, k), string_of(&chars, t, chars.len()))
}

/// Walks from `global` through the leading segments that name modules.
/// Returns the scope reached, the position of the segment where the walk
/// stopped, and the first category met.
pub fn walk_modules<'a>(global: &'a Scope, parts: &Vec<String>) -> (res: (
    &'a Scope,
    usize,
    Option<&'a Category>,
))
    ensures
        walk(*global, texts(parts@), 0, None) == (Walk {
            scope: *res.0,
            next: res.1 as int,
            category: category_view(res.2),
        }),
        res.1 <= parts.len(),
{
    let mut focus = global;
    let mut category: Option<&Category> = None;
    let mut i: usize = 0;
    while i < parts.len()
        invariant
            i <= parts.len(),
            walk(*global, texts(parts@), 0, None) == walk(
                *focus,
                texts(parts@),
                i as int,
                category_view(category),
            ),
        decreases parts.len() - i,
    {
        let found = focus.get(parts[i].as_str());
        if category.is_none() {
            category =
            match found {
                Some(binding) => binding.category.as_ref(),
                None => None,
            };
        }
        match found {
            Some(binding) => match &binding.value {
                Value::Module(inner) => {
                    focus = inner;
                    i += 1;
                },
                _ => {
                    return (focus, i, category);
                },
            },
            None => {
                return (focus, i, category);
            },
        }
    }
    (focus, i, category)
}

/// Resolves a `$` link head to a definition of the namespace.
pub fn resolve_definition(head: &str, base: &str, tree: &NamespaceTree, groups: &GroupRegistry) -> (res:
    Result<String, ResolveError>)
    ensures
        route_view(res) == definition_route(head@, base@, *tree, groups@),
{
    let chars = chars_of(head);
    let start = skip_from(&chars, 0, '$');
    let parts = split(&chars, start, '.');
    let (focus, next, category) = walk_modules(&tree.global, &parts);
    let category = match category {
        Some(category) => category,
        None => {
            return Err(ResolveError::NoCategory);
        },
    };
    if next >= parts.len() {
        return Err(ResolveError::EmptyLinkHead);
    }
    let leaf = parts[next].as_str();
    let value = match focus.get(leaf) {
        Some(binding) => &binding.value,
        None => {
            return Err(ResolveError::UnknownField);
        },
    };
    if let Some(group) = groups.find(category.name.as_str(), leaf) {
        let mut route = String::from_str(base);
        route.append("reference/");
        route.append(group.category.as_str());
        route.append("/");
        route.append(group.name.as_str());
        route.append("/#functions-");
        route.append(leaf);
        if next + 1 < parts.len() {
            route.append("-");
            route.append(parts[next + 1].as_str());
        }
        return Ok(route);
    }
    let mut route = String::from_str(base);
    route.append("reference/");
    route.append(category.name.as_str());
    route.append("/");
    route.append(leaf);
    if next + 1 < parts.len() {
        let field = parts[next + 1].as_str();
        match value.field(field) {
            Some(inner) => {
                route.append("/#definitions-");
                route.append(field);
                if next + 2 < parts.len() {
                    let param = parts[next + 2].as_str();
                    if inner.has_param(param) {
                        route.append("-");
                        route.append(param);
                    }
                }
            },
            None => {
                if value.has_param(field) {
                    route.append("/#parameters-");
                    route.append(field);
                } else {
                    return Err(ResolveError::UnknownField);
                }
            },
        }
    }
    Ok(route)
}

/// Closes `route` with a slash, unless it holds a fragment or a query or
/// ends in a slash already.
pub fn normalize(route: String) -> (res: String)
    ensures
        res@ == normalized(route@),
{
    let chars = chars_of(route.as_str());
    let closed = has_char(&chars, '#') || has_char(&chars, '?') || (chars.len() > 0
        && chars[chars.len() - 1] == '/');
    if closed {
        route
    } else {
        let mut route = route;
        route.push('/');
        route
    }
}

/// Whether `c` is an ASCII letter.
pub fn letter(c: char) -> (res: bool)
    ensures
        res == is_letter(c),
{
    ('a' <= c && c <= 'z') || ('A' <= c && c <= 'Z')
}

/// Whether `c` may stand in the scheme of a URL.
pub fn scheme_char(c: char) -> (res: bool)
    ensures
        res == is_scheme_char(c),
{
    letter(c) || ('0' <= c && c <= '9') || c == '+' || c == '-' || c == '.'
}

/// Whether a link is taken as it is: it opens with `#` or with the scheme
/// of a URL.
pub fn is_absolute_link(link: &str) -> (res: bool)
    ensures
        res == is_absolute(link@),
{
    let chars = chars_of(link);
    if chars.len() == 0 {
        return false;
    }
    if chars[0] == '#' {
        return true;
    }
    if !letter(chars[0]) {
        return false;
    }
    let mut i: usize = 1;
    while i < chars.len() && scheme_char(chars[i])
        invariant
            1 <= i <= chars.len(),
            scheme_end(chars@, 1) == scheme_end(chars@, i as int),
        decreases chars.len() - i,
    {
        i += 1;
    }
    i < chars.len() && chars[i] == ':'
}

/// Resolves a link within the documentation to a route under `base`.
pub fn resolve(link: &str, base: &str, tree: &NamespaceTree, groups: &GroupRegistry) -> (res: Result<
    String,
    ResolveError,
>)
    ensures
        route_view(res) == route_of_link(link@, base@, *tree, groups@),
        is_absolute(link@) ==> route_view(res) == Ok::<Seq<char>, ResolveError>(link@),
        !is_absolute(link@) ==> match res {
            Ok(route) => is_closed(route@),
            Err(_) => true,
        },
{
    if is_absolute_link(link) {
        return Ok(String::from_str(link));
    }
    let (head, tail) = split_link(link);
    if head.as_str().is_empty() {
        return Err(ResolveError::EmptyLinkHead);
    }
    let mut route = match resolve_known(head.as_str(), base) {
        Some(route) => route,
        None => match resolve_definition(head.as_str(), base, tree, groups) {
            Ok(route) => route,
            Err(e) => {
                return Err(e);
            },
        },
    };
    if !tail.as_str().is_empty() {
        route.append("/");
        route.append(tail.as_str());
    }
    proof {
        lemma_closed(route@);
    }
    Ok(normalize(route))
}

} // verus!
