use doc_routes::error::ResolveError;
use doc_routes::groups::{GroupData, GroupRegistry};
use doc_routes::namespace::{
    Binding, Category, Func, FuncRepr, NamespaceTree, Scope, Type, Value,
};
use doc_routes::resolve::{
    is_absolute_link, letter, normalize, resolve, resolve_definition, resolve_known, scheme_char,
    split_link,
};

const BASE: &str = "https://typst.app/docs/";

fn category(name: &str) -> Option<Category> {
    Some(Category { name: name.to_string() })
}

fn names(list: &[&str]) -> Vec<String> {
    list.iter().map(|n| n.to_string()).collect()
}

fn function(id: u64, name: &str, params: &[&str], scope: Option<Scope>) -> Value {
    Value::Func(Func {
        repr: FuncRepr::Native(id),
        name: Some(name.to_string()),
        params: names(params),
        scope,
    })
}

fn binding(name: &str, value: Value, category: Option<Category>) -> Binding {
    Binding { name: name.to_string(), value, category }
}

fn sample_tree() -> NamespaceTree {
    let calc = Scope {
        bindings: vec![
            binding("abs", function(20, "abs", &["value"], None), None),
            binding("pow", function(21, "pow", &["base", "exponent"], None), None),
            binding("pi", Value::Other, None),
        ],
    };
    let text = function(
        2,
        "text",
        &["font", "size"],
        Some(Scope { bindings: vec![] }),
    );
    let table = function(
        3,
        "table",
        &["columns"],
        Some(Scope {
            bindings: vec![binding("cell", function(4, "cell", &["x", "y"], None), None)],
        }),
    );
    let color = Type {
        id: 1,
        params: names(&["value"]),
        scope: Scope {
            bindings: vec![
                binding("rgb", function(30, "rgb", &["red", "green"], None), None),
                binding("red", Value::Other, None),
            ],
        },
    };
    let inner = Scope {
        bindings: vec![binding("deep", function(40, "deep", &[], None), category("layout"))],
    };
    let outer = Scope { bindings: vec![binding("inner", Value::Module(inner), None)] };
    NamespaceTree {
        global: Scope {
            bindings: vec![
                binding("cite", function(1, "cite", &["key", "form"], None), category("model")),
                binding("text", text, category("text")),
                binding("table", table, category("model")),
                binding("calc", Value::Module(calc), category("foundations")),
                binding("color", Value::Type(color), category("visualize")),
                binding("outer", Value::Module(outer), None),
                binding("plain", function(50, "plain", &[], None), None),
                binding("version", Value::Other, category("foundations")),
            ],
        },
        math: Scope { bindings: vec![] },
    }
}

fn sample_groups(tree: &NamespaceTree) -> GroupRegistry {
    let calc = GroupData {
        name: "calc".to_string(),
        category: "foundations".to_string(),
        path: names(&["calc"]),
        filter: vec![],
    };
    let typography = GroupData {
        name: "typography".to_string(),
        category: "text".to_string(),
        path: vec![],
        filter: names(&["text"]),
    };
    GroupRegistry::load(vec![calc, typography], tree).unwrap()
}

fn route(link: &str) -> Result<String, ResolveError> {
    let tree = sample_tree();
    let groups = sample_groups(&tree);
    resolve(link, BASE, &tree, &groups)
}

fn definition(head: &str) -> Result<String, ResolveError> {
    let tree = sample_tree();
    let groups = sample_groups(&tree);
    resolve_definition(head, BASE, &tree, &groups)
}

fn ok(route: &str) -> Result<String, ResolveError> {
    Ok(route.to_string())
}

#[test]
fn absolute_links_are_unchanged() {
    assert_eq!(route("#fragment"), ok("#fragment"));
    assert_eq!(route("#"), ok("#"));
    assert_eq!(route("https://example.org/a?b#c"), ok("https://example.org/a?b#c"));
    assert_eq!(route("http://example.org"), ok("http://example.org"));
    assert_eq!(route("mailto:someone@example.org"), ok("mailto:someone@example.org"));
    assert_eq!(route("ftp://example.org/a/b"), ok("ftp://example.org/a/b"));
    assert_eq!(route("svn+ssh://host/path"), ok("svn+ssh://host/path"));
    assert_eq!(route("x-1.2:rest"), ok("x-1.2:rest"));
    assert_eq!(route("HTTPS://EXAMPLE.ORG"), ok("HTTPS://EXAMPLE.ORG"));
    assert_eq!(route("a:"), ok("a:"));
}

#[test]
fn links_without_scheme_are_resolved() {
    assert_eq!(route("httpfoo"), Err(ResolveError::NoCategory));
    assert_eq!(route("http"), Err(ResolveError::NoCategory));
    assert_eq!(route("cite"), ok("https://typst.app/docs/reference/model/cite/"));
    assert_eq!(route("cite/a:b"), ok("https://typst.app/docs/reference/model/cite/a:b/"));
    assert_eq!(route(":x"), Err(ResolveError::NoCategory));
    assert_eq!(route("1a:x"), Err(ResolveError::NoCategory));
    assert_eq!(route("$cite:x"), Err(ResolveError::NoCategory));
    assert_eq!(route("a_b:x"), Err(ResolveError::NoCategory));
    assert_eq!(route("é:x"), Err(ResolveError::NoCategory));
}

#[test]
fn absolute_links_ignore_base_and_namespace() {
    let tree = NamespaceTree { global: Scope { bindings: vec![] }, math: Scope { bindings: vec![] } };
    let groups = GroupRegistry { groups: vec![] };
    assert_eq!(resolve("#x", "", &tree, &groups), ok("#x"));
    assert_eq!(resolve("#x", "other/", &tree, &groups), ok("#x"));
}

#[test]
fn is_absolute_link_cases() {
    assert!(is_absolute_link("#a"));
    assert!(is_absolute_link("#"));
    assert!(is_absolute_link("https://x"));
    assert!(is_absolute_link("http:"));
    assert!(is_absolute_link("mailto:x"));
    assert!(is_absolute_link("a+b-c.d1:x"));
    assert!(is_absolute_link("Z:"));
    assert!(!is_absolute_link(""));
    assert!(!is_absolute_link("http"));
    assert!(!is_absolute_link("httpfoo"));
    assert!(!is_absolute_link("http//x:"));
    assert!(!is_absolute_link("$http:"));
    assert!(!is_absolute_link(":"));
    assert!(!is_absolute_link("1a:"));
    assert!(!is_absolute_link("+a:"));
    assert!(!is_absolute_link("a b:"));
    assert!(!is_absolute_link("a#"));
    assert!(!is_absolute_link("a/b:c"));
}

#[test]
fn scheme_characters() {
    for c in ['a', 'z', 'A', 'Z', 'm'] {
        assert!(letter(c));
        assert!(scheme_char(c));
    }
    for c in ['0', '9', '+', '-', '.'] {
        assert!(!letter(c));
        assert!(scheme_char(c));
    }
    for c in [':', '/', '$', '#', '_', ' ', '@', '[', '`', '{', 'é', 'ß'] {
        assert!(!letter(c));
        assert!(!scheme_char(c));
    }
}

#[test]
fn known_destinations_resolve_under_base() {
    assert_eq!(route("$tutorial"), ok("https://typst.app/docs/tutorial/"));
    assert_eq!(route("$reference"), ok("https://typst.app/docs/reference/"));
    assert_eq!(route("$category"), ok("https://typst.app/docs/reference/"));
    assert_eq!(route("$syntax"), ok("https://typst.app/docs/reference/syntax/"));
    assert_eq!(route("$styling"), ok("https://typst.app/docs/reference/styling/"));
    assert_eq!(route("$scripting"), ok("https://typst.app/docs/reference/scripting/"));
    assert_eq!(route("$context"), ok("https://typst.app/docs/reference/context/"));
    assert_eq!(route("$guides"), ok("https://typst.app/docs/guides/"));
    assert_eq!(route("$changelog"), ok("https://typst.app/docs/changelog/"));
    assert_eq!(route("$community"), ok("https://typst.app/docs/community/"));
    assert_eq!(route("$universe"), ok("https://typst.app/universe/"));
}

#[test]
fn known_destinations_with_other_base() {
    let tree = sample_tree();
    let groups = sample_groups(&tree);
    assert_eq!(resolve("$tutorial", "/docs/", &tree, &groups), ok("/docs/tutorial/"));
    assert_eq!(resolve("$tutorial", "", &tree, &groups), ok("tutorial/"));
    assert_eq!(resolve("$universe", "/docs/", &tree, &groups), ok("https://typst.app/universe/"));
}

#[test]
fn resolve_known_table() {
    assert_eq!(resolve_known("$tutorial", "b/"), Some("b/tutorial".to_string()));
    assert_eq!(resolve_known("$reference", "b/"), Some("b/reference".to_string()));
    assert_eq!(resolve_known("$category", "b/"), Some("b/reference".to_string()));
    assert_eq!(resolve_known("$syntax", "b/"), Some("b/reference/syntax".to_string()));
    assert_eq!(resolve_known("$styling", "b/"), Some("b/reference/styling".to_string()));
    assert_eq!(resolve_known("$scripting", "b/"), Some("b/reference/scripting".to_string()));
    assert_eq!(resolve_known("$context", "b/"), Some("b/reference/context".to_string()));
    assert_eq!(resolve_known("$guides", "b/"), Some("b/guides".to_string()));
    assert_eq!(resolve_known("$changelog", "b/"), Some("b/changelog".to_string()));
    assert_eq!(resolve_known("$community", "b/"), Some("b/community".to_string()));
    assert_eq!(resolve_known("$universe", "b/"), Some("https://typst.app/universe".to_string()));
}

#[test]
fn resolve_known_rejects_other_heads() {
    assert_eq!(resolve_known("tutorial", "b/"), None);
    assert_eq!(resolve_known("$Tutorial", "b/"), None);
    assert_eq!(resolve_known("$tutorial ", "b/"), None);
    assert_eq!(resolve_known("$$tutorial", "b/"), None);
    assert_eq!(resolve_known("", "b/"), None);
    assert_eq!(resolve_known("$cite", "b/"), None);
}

#[test]
fn base_with_query_is_not_closed_again() {
    let tree = sample_tree();
    let groups = sample_groups(&tree);
    assert_eq!(resolve("$tutorial", "x?y=", &tree, &groups), ok("x?y=tutorial"));
    assert_eq!(resolve("$tutorial", "x#", &tree, &groups), ok("x#tutorial"));
}

#[test]
fn tail_is_appended_as_segment() {
    assert_eq!(route("$guides/page-setup"), ok("https://typst.app/docs/guides/page-setup/"));
    assert_eq!(route("$guides/a/b"), ok("https://typst.app/docs/guides/a/b/"));
    assert_eq!(route("$guides/a/"), ok("https://typst.app/docs/guides/a/"));
    assert_eq!(route("$guides///a"), ok("https://typst.app/docs/guides/a/"));
    assert_eq!(route("$guides/"), ok("https://typst.app/docs/guides/"));
    assert_eq!(route("$cite/more"), ok("https://typst.app/docs/reference/model/cite/more/"));
}

#[test]
fn tail_with_fragment_or_query_gets_no_slash() {
    assert_eq!(route("$guides/page#top"), ok("https://typst.app/docs/guides/page#top"));
    assert_eq!(route("$guides/page?x=1"), ok("https://typst.app/docs/guides/page?x=1"));
    assert_eq!(route("$tutorial/#intro"), ok("https://typst.app/docs/tutorial/#intro"));
}

#[test]
fn split_link_at_first_slash() {
    assert_eq!(split_link("$a/b/c"), ("$a".to_string(), "b/c".to_string()));
    assert_eq!(split_link("$a"), ("$a".to_string(), String::new()));
    assert_eq!(split_link("$a///b/"), ("$a".to_string(), "b/".to_string()));
    assert_eq!(split_link("/b"), (String::new(), "b".to_string()));
    assert_eq!(split_link(""), (String::new(), String::new()));
    assert_eq!(split_link("é/ü"), ("é".to_string(), "ü".to_string()));
}

#[test]
fn normalize_appends_one_slash() {
    assert_eq!(normalize("a/b".to_string()), "a/b/");
    assert_eq!(normalize("a/b/".to_string()), "a/b/");
    assert_eq!(normalize(normalize("a/b".to_string())), "a/b/");
    assert_eq!(normalize(String::new()), "/");
}

#[test]
fn normalize_leaves_fragment_and_query() {
    assert_eq!(normalize("a#b".to_string()), "a#b");
    assert_eq!(normalize("a?b".to_string()), "a?b");
    assert_eq!(normalize("a/#".to_string()), "a/#");
    assert_eq!(normalize("#".to_string()), "#");
}

#[test]
fn definition_at_top_level() {
    assert_eq!(definition("$cite"), ok("https://typst.app/docs/reference/model/cite"));
    assert_eq!(route("$cite"), ok("https://typst.app/docs/reference/model/cite/"));
    assert_eq!(route("$version"), ok("https://typst.app/docs/reference/foundations/version/"));
    assert_eq!(route("$color"), ok("https://typst.app/docs/reference/visualize/color/"));
}

#[test]
fn definition_without_sigil_or_with_several() {
    assert_eq!(definition("cite"), ok("https://typst.app/docs/reference/model/cite"));
    assert_eq!(definition("$$cite"), ok("https://typst.app/docs/reference/model/cite"));
}

#[test]
fn definition_parameter() {
    assert_eq!(
        route("$cite.form"),
        ok("https://typst.app/docs/reference/model/cite/#parameters-form")
    );
    assert_eq!(
        route("$color.value"),
        ok("https://typst.app/docs/reference/visualize/color/#parameters-value")
    );
}

#[test]
fn definition_field() {
    assert_eq!(
        route("$table.cell"),
        ok("https://typst.app/docs/reference/model/table/#definitions-cell")
    );
    assert_eq!(
        route("$color.rgb"),
        ok("https://typst.app/docs/reference/visualize/color/#definitions-rgb")
    );
    assert_eq!(
        route("$color.red"),
        ok("https://typst.app/docs/reference/visualize/color/#definitions-red")
    );
}

#[test]
fn definition_field_parameter() {
    assert_eq!(
        route("$table.cell.x"),
        ok("https://typst.app/docs/reference/model/table/#definitions-cell-x")
    );
    assert_eq!(
        route("$color.rgb.green"),
        ok("https://typst.app/docs/reference/visualize/color/#definitions-rgb-green")
    );
}

#[test]
fn unknown_parameter_of_field_is_ignored() {
    assert_eq!(
        route("$table.cell.z"),
        ok("https://typst.app/docs/reference/model/table/#definitions-cell")
    );
    assert_eq!(
        route("$color.red.x"),
        ok("https://typst.app/docs/reference/visualize/color/#definitions-red")
    );
}

#[test]
fn segments_after_parameter_are_ignored() {
    assert_eq!(
        route("$cite.form.more"),
        ok("https://typst.app/docs/reference/model/cite/#parameters-form")
    );
    assert_eq!(
        route("$table.cell.x.more"),
        ok("https://typst.app/docs/reference/model/table/#definitions-cell-x")
    );
}

#[test]
fn field_wins_over_parameter() {
    let scope = Scope {
        bindings: vec![binding("both", function(61, "both", &[], None), None)],
    };
    let tree = NamespaceTree {
        global: Scope {
            bindings: vec![binding(
                "f",
                function(60, "f", &["both"], Some(scope)),
                category("model"),
            )],
        },
        math: Scope { bindings: vec![] },
    };
    let groups = GroupRegistry { groups: vec![] };
    assert_eq!(
        resolve("$f.both", "b/", &tree, &groups),
        ok("b/reference/model/f/#definitions-both")
    );
}

#[test]
fn grouped_function_resolves_to_group_page() {
    assert_eq!(
        route("$calc.pow"),
        ok("https://typst.app/docs/reference/foundations/calc/#functions-pow")
    );
    assert_eq!(
        definition("$calc.abs"),
        ok("https://typst.app/docs/reference/foundations/calc/#functions-abs")
    );
    assert_eq!(
        route("$text"),
        ok("https://typst.app/docs/reference/text/typography/#functions-text")
    );
}

#[test]
fn grouped_function_parameter() {
    assert_eq!(
        route("$calc.pow.exponent"),
        ok("https://typst.app/docs/reference/foundations/calc/#functions-pow-exponent")
    );
    assert_eq!(
        route("$text.size"),
        ok("https://typst.app/docs/reference/text/typography/#functions-text-size")
    );
}

#[test]
fn grouped_function_takes_any_next_segment() {
    assert_eq!(
        route("$calc.pow.nothing.more"),
        ok("https://typst.app/docs/reference/foundations/calc/#functions-pow-nothing")
    );
}

#[test]
fn group_needs_matching_category() {
    let tree = sample_tree();
    let other = GroupData {
        name: "calc".to_string(),
        category: "math".to_string(),
        path: vec![],
        filter: names(&["pow", "cite"]),
    };
    let groups = GroupRegistry::load(vec![other], &tree).unwrap();
    assert_eq!(
        resolve("$calc.pow", BASE, &tree, &groups),
        ok("https://typst.app/docs/reference/foundations/pow/")
    );
    assert_eq!(
        resolve("$cite", BASE, &tree, &groups),
        ok("https://typst.app/docs/reference/model/cite/")
    );
}

#[test]
fn first_matching_group_wins() {
    let tree = sample_tree();
    let first = GroupData {
        name: "first".to_string(),
        category: "model".to_string(),
        path: vec![],
        filter: names(&["cite"]),
    };
    let second = GroupData {
        name: "second".to_string(),
        category: "model".to_string(),
        path: vec![],
        filter: names(&["table", "cite"]),
    };
    let groups = GroupRegistry::load(vec![first, second], &tree).unwrap();
    assert_eq!(
        resolve("$cite", BASE, &tree, &groups),
        ok("https://typst.app/docs/reference/model/first/#functions-cite")
    );
    assert_eq!(
        resolve("$table", BASE, &tree, &groups),
        ok("https://typst.app/docs/reference/model/second/#functions-table")
    );
}

#[test]
fn module_member_not_in_group_uses_module_category() {
    assert_eq!(route("$calc.pi"), ok("https://typst.app/docs/reference/foundations/pi/"));
}

#[test]
fn category_is_taken_where_first_met() {
    assert_eq!(route("$outer.inner.deep"), ok("https://typst.app/docs/reference/layout/deep/"));
}

#[test]
fn error_no_category() {
    assert_eq!(route("$nothing"), Err(ResolveError::NoCategory));
    assert_eq!(route("$plain"), Err(ResolveError::NoCategory));
    assert_eq!(route("$outer.inner"), Err(ResolveError::NoCategory));
    assert_eq!(route("$outer.missing"), Err(ResolveError::NoCategory));
    assert_eq!(route("$"), Err(ResolveError::NoCategory));
    assert_eq!(definition(""), Err(ResolveError::NoCategory));
    assert_eq!(route("$.cite"), Err(ResolveError::NoCategory));
}

#[test]
fn error_empty_link_head() {
    assert_eq!(route("$calc"), Err(ResolveError::EmptyLinkHead));
    assert_eq!(definition("calc"), Err(ResolveError::EmptyLinkHead));
    assert_eq!(route("$calc/tail"), Err(ResolveError::EmptyLinkHead));
    assert_eq!(route(""), Err(ResolveError::EmptyLinkHead));
    assert_eq!(route("/tail"), Err(ResolveError::EmptyLinkHead));
    assert_eq!(route("///"), Err(ResolveError::EmptyLinkHead));
}

#[test]
fn error_unknown_field() {
    assert_eq!(route("$calc.missing"), Err(ResolveError::UnknownField));
    assert_eq!(route("$calc."), Err(ResolveError::UnknownField));
    assert_eq!(route("$cite.missing"), Err(ResolveError::UnknownField));
    assert_eq!(route("$version.major"), Err(ResolveError::UnknownField));
    assert_eq!(route("$table.columns.x"), ok("https://typst.app/docs/reference/model/table/#parameters-columns"));
    assert_eq!(route("$table.nothing"), Err(ResolveError::UnknownField));
}

#[test]
fn error_messages() {
    assert_eq!(ResolveError::UnknownModule.message(), "module doesn't contain the module");
    assert_eq!(ResolveError::NoCategory.message(), "link has no category");
    assert_eq!(ResolveError::EmptyLinkHead.message(), "link is missing first part");
    assert_eq!(ResolveError::UnknownField.message(), "field not found");
    assert_eq!(ResolveError::RegistryLoad.message(), "group definitions are malformed");
}

#[test]
fn math_namespace_is_not_searched() {
    let tree = NamespaceTree {
        global: Scope { bindings: vec![] },
        math: Scope {
            bindings: vec![binding("frac", function(70, "frac", &[], None), category("math"))],
        },
    };
    let groups = GroupRegistry { groups: vec![] };
    assert_eq!(resolve("$frac", BASE, &tree, &groups), Err(ResolveError::NoCategory));
}
