use doc_routes::docs::{plain_docs_sentence, DOCS_BASE, NOT_FOUND};
use doc_routes::groups::{GroupData, GroupRegistry};
use doc_routes::namespace::{
    Binding, Category, Func, FuncRepr, NamespaceTree, Scope, Type, Value,
};

fn docs_category(name: &str) -> Option<Category> {
    Some(Category { name: name.to_string() })
}

fn docs_function(id: u64, name: &str, params: &[&str]) -> Value {
    Value::Func(Func {
        repr: FuncRepr::Element(id),
        name: Some(name.to_string()),
        params: params.iter().map(|p| p.to_string()).collect(),
        scope: Some(Scope { bindings: vec![] }),
    })
}

fn docs_binding(name: &str, value: Value, category: Option<Category>) -> Binding {
    Binding { name: name.to_string(), value, category }
}

fn docs_tree() -> NamespaceTree {
    let calc = Scope {
        bindings: vec![
            docs_binding("abs", docs_function(20, "abs", &["value"]), None),
            docs_binding("pow", docs_function(21, "pow", &["base", "exponent"]), None),
        ],
    };
    let color = Type {
        id: 1,
        params: vec![],
        scope: Scope {
            bindings: vec![docs_binding("rgb", docs_function(30, "rgb", &["red"]), None)],
        },
    };
    NamespaceTree {
        global: Scope {
            bindings: vec![
                docs_binding("cite", docs_function(1, "cite", &["key", "form"]), docs_category("model")),
                docs_binding("calc", Value::Module(calc), docs_category("foundations")),
                docs_binding("color", Value::Type(color), docs_category("visualize")),
            ],
        },
        math: Scope { bindings: vec![] },
    }
}

fn docs_groups(tree: &NamespaceTree) -> GroupRegistry {
    let calc = GroupData {
        name: "calc".to_string(),
        category: "foundations".to_string(),
        path: vec!["calc".to_string()],
        filter: vec![],
    };
    GroupRegistry::load(vec![calc], tree).unwrap()
}

fn docs_plain(text: &str) -> String {
    let tree = docs_tree();
    let groups = docs_groups(&tree);
    plain_docs_sentence(text, &tree, &groups)
}

#[test]
fn docs_test() {
    assert_eq!(
        "[citation](https://typst.app/docs/reference/model/cite/)",
        docs_plain("[citation]($cite)")
    );
    assert_eq!("[citation][cite]", docs_plain("[citation][cite]"));
    assert_eq!(
        "[citation](https://typst.app/docs/reference/model/cite/)",
        docs_plain("[citation]($cite)")
    );
    assert_eq!("[citation][cite][cite2]", docs_plain("[citation][cite][cite2]"));
    assert_eq!(
        "[citation][cite](test)[cite2]",
        docs_plain("[citation][cite](test)[cite2]")
    );
}

#[test]
fn docs_fixed_addresses() {
    assert_eq!(DOCS_BASE, "https://typst.app/docs/");
    assert_eq!(NOT_FOUND, "https://typst.app/docs/404.html");
}

#[test]
fn docs_empty_text() {
    assert_eq!("", docs_plain(""));
}

#[test]
fn docs_plain_text_is_copied() {
    let text = "Displays a citation. It does not stop at the first sentence.";
    assert_eq!(text, docs_plain(text));
}

#[test]
fn docs_non_ascii_text_is_copied() {
    assert_eq!("Größe – 大小 `π`", docs_plain("Größe – 大小 `π`"));
}

#[test]
fn docs_unresolved_link_gets_fallback() {
    assert_eq!(
        "[nothing](https://typst.app/docs/404.html)",
        docs_plain("[nothing]($nothing)")
    );
    assert_eq!("[empty](https://typst.app/docs/404.html)", docs_plain("[empty]()"));
}

#[test]
fn docs_link_after_failed_link_is_still_rewritten() {
    assert_eq!(
        "[a](https://typst.app/docs/404.html) and [b](https://typst.app/docs/reference/model/cite/)",
        docs_plain("[a]($missing) and [b]($cite)")
    );
}

#[test]
fn docs_grouped_function_link() {
    assert_eq!(
        "[power](https://typst.app/docs/reference/foundations/calc/#functions-pow)",
        docs_plain("[power]($calc.pow)")
    );
    assert_eq!(
        "[exponent](https://typst.app/docs/reference/foundations/calc/#functions-pow-exponent)",
        docs_plain("[exponent]($calc.pow.exponent)")
    );
}

#[test]
fn docs_known_destination_link() {
    assert_eq!(
        "[guide](https://typst.app/docs/guides/page-setup/)",
        docs_plain("[guide]($guides/page-setup)")
    );
    assert_eq!(
        "[packages](https://typst.app/universe/)",
        docs_plain("[packages]($universe)")
    );
}

#[test]
fn docs_absolute_link_is_kept() {
    assert_eq!("[web](https://example.org)", docs_plain("[web](https://example.org)"));
    assert_eq!("[here](#section)", docs_plain("[here](#section)"));
    assert_eq!("[mail](mailto:a@example.org)", docs_plain("[mail](mailto:a@example.org)"));
    assert_eq!(
        "[none](https://typst.app/docs/404.html)",
        docs_plain("[none](httpfoo)")
    );
}

#[test]
fn docs_unterminated_link_target() {
    assert_eq!(
        "[citation](https://typst.app/docs/reference/model/cite/)",
        docs_plain("[citation]($cite")
    );
}

#[test]
fn docs_unterminated_reference() {
    assert_eq!("[citation][cite", docs_plain("[citation][cite"));
}

#[test]
fn docs_parenthesis_without_open_link_is_plain() {
    assert_eq!("]($cite)", docs_plain("]($cite)"));
    assert_eq!("a ] (b)", docs_plain("a ] (b)"));
}

#[test]
fn docs_bracket_reopens_link() {
    assert_eq!(
        "[a][b][c](https://typst.app/docs/reference/model/cite/)",
        docs_plain("[a][b][c]($cite)")
    );
}

#[test]
fn docs_inline_code_is_unwrapped_once() {
    assert_eq!("`x + y`", docs_plain("`{x + y}`"));
    assert_eq!("`text`", docs_plain("`[text]`"));
    assert_eq!("`{inner}`", docs_plain("`{{inner}}`"));
    assert_eq!("``", docs_plain("`{}`"));
}

#[test]
fn docs_inline_code_without_wrapping_is_kept() {
    assert_eq!("`plain`", docs_plain("`plain`"));
    assert_eq!("`{open`", docs_plain("`{open`"));
    assert_eq!("`{mixed]`", docs_plain("`{mixed]`"));
    assert_eq!("`{`", docs_plain("`{`"));
    assert_eq!("``", docs_plain("``"));
}

#[test]
fn docs_inline_code_hides_links() {
    assert_eq!("`[a]($cite)`", docs_plain("`[a]($cite)`"));
}

#[test]
fn docs_unterminated_inline_code_is_closed() {
    assert_eq!("`rest`", docs_plain("`rest"));
    assert_eq!("a``", docs_plain("a`"));
}

#[test]
fn docs_inline_code_keeps_open_link() {
    assert_eq!(
        "[`cite`](https://typst.app/docs/reference/model/cite/)",
        docs_plain("[`cite`]($cite)")
    );
}

#[test]
fn docs_example_fence_is_replaced_everywhere() {
    let scanned = docs_plain("```example\n#cite(<key>)\n```\nand\n```example\nx\n```");
    assert!(!scanned.contains("example"));
    assert_eq!(scanned.matches("typ").count(), 2);
    assert!(scanned.starts_with("`"));
}

#[test]
fn docs_example_fence_scanned_as_code() {
    assert_eq!("```typ x`", docs_plain("```example x"));
}
