//! The display form of documentation text: inline code without its outer
//! wrapping, and symbolic links rewritten to routes.

use vstd::prelude::*;
use vstd::string::StringExecFns;
use crate::groups::{GroupRegistry, GroupView};
use crate::namespace::NamespaceTree;
use crate::resolve::{resolve, route_of_link};
use crate::text::{
    chars_of, find_char, find_from, lemma_find_char, replace_all, replace_from, string_of,
};

verus! {

/// The address under which the documentation is published.
pub const DOCS_BASE: &'static str = "https://typst.app/docs/";

/// The page that stands in for a link that could not be resolved.
pub const NOT_FOUND: &'static str = "https://typst.app/docs/404.html";

/// The marker with which documentation opens an example.
pub const EXAMPLE_FENCE: &'static str = "```example";

/// The marker of a code block in the language itself.
pub const CODE_FENCE: &'static str = "```typ";

/// Inline code without its outer pair of braces or brackets, if it is
/// wrapped in one.
pub open spec fn unwrapped(raw: Seq<char>) -> Seq<char> {
    if raw.len() >= 2 && ((raw.first() == '{' && raw.last() == '}') || (raw.first() == '['
        && raw.last() == ']')) {
        raw.subrange(1, raw.len() - 1)
    } else {
        raw
    }
}

/// The address that a link target is rewritten to: its route, or the page
/// for what could not be found.
pub open spec fn link_address(target: Seq<char>, tree: NamespaceTree, groups: Seq<GroupView>) -> Seq<
    char,
> {
    match route_of_link(target, DOCS_BASE@, tree, groups) {
        Ok(route) => route,
        Err(_) => NOT_FOUND@,
    }
}

/// The position behind the delimiter found at `j`, or the end if none was
/// found.
pub open spec fn behind(s: Seq<char>, j: int) -> int {
    if j < s.len() {
        j + 1
    } else {
        s.len() as int
    }
}

/// Whether a link target follows the `]` at `i`.
pub open spec fn at_target(s: Seq<char>, i: int, in_link: bool) -> bool {
    s[i] == ']' && in_link && i + 1 < s.len() && s[i + 1] == '('
}

/// Whether a reference follows the `]` at `i`.
pub open spec fn at_reference(s: Seq<char>, i: int, in_link: bool) -> bool {
    s[i] == ']' && in_link && i + 1 < s.len() && s[i + 1] == '['
}

/// What the scanner writes for what stands at `i`: inline code without its
/// wrapping, a closing bracket with the address of the link target behind
/// it, a closing bracket with the reference behind it as it is, or the
/// character itself.
pub open spec fn emitted(
    s: Seq<char>,
    i: int,
    in_link: bool,
    tree: NamespaceTree,
    groups: Seq<GroupView>,
) -> Seq<char> {
    if s[i] == '`' {
        seq!['`'] + unwrapped(s.subrange(i + 1, find_char(s, i + 1, '`'))) + seq!['`']
    } else if at_target(s, i, in_link) {
        seq![']', '('] + link_address(s.subrange(i + 2, find_char(s, i + 2, ')')), tree, groups)
            + seq![')']
    } else if at_reference(s, i, in_link) {
        seq![']'] + s.subrange(i + 1, behind(s, find_char(s, i + 2, ']')))
    } else {
        seq![s[i]]
    }
}

/// Where the scanner goes on after what stands at `i`.
pub open spec fn advance(s: Seq<char>, i: int, in_link: bool) -> int {
    if s[i] == '`' {
        behind(s, find_char(s, i + 1, '`'))
    } else if at_target(s, i, in_link) {
        behind(s, find_char(s, i + 2, ')'))
    } else if at_reference(s, i, in_link) {
        behind(s, find_char(s, i + 2, ']'))
    } else {
        i + 1
    }
}

/// Whether a `[` is open after what stands at `i`: a `[` opens one, a `]`
/// closes it, inline code and other characters leave it as it is.
pub open spec fn link_after(s: Seq<char>, i: int, in_link: bool) -> bool {
    if s[i] == '`' {
        in_link
    } else if s[i] == '[' {
        true
    } else if s[i] == ']' {
        false
    } else {
        in_link
    }
}

/// The scanner always moves on, and never past the end.
pub proof fn lemma_advance(s: Seq<char>, i: int, in_link: bool)
    requires
        0 <= i < s.len(),
    ensures
        i < advance(s, i, in_link) <= s.len(),
{
    if s[i] == '`' {
        lemma_find_char(s, i + 1, '`');
    } else if at_target(s, i, in_link) {
        lemma_find_char(s, i + 2, ')');
    } else if at_reference(s, i, in_link) {
        lemma_find_char(s, i + 2, ']');
    }
}

/// The display form of `s[i..]`. `in_link` says whether a `[` was seen that
/// no `]` has closed yet.
pub open spec fn scan(
    s: Seq<char>,
    i: int,
    in_link: bool,
    tree: NamespaceTree,
    groups: Seq<GroupView>,
) -> Seq<char>
    decreases s.len() - i,
{
    if i < 0 || i >= s.len() {
        Seq::<char>::empty()
    } else {
        proof {
            lemma_advance(s, i, in_link);
        }
        emitted(s, i, in_link, tree, groups) + scan(
            s,
            advance(s, i, in_link),
            link_after(s, i, in_link),
            tree,
            groups,
        )
    }
}

/// The display form of documentation text.
pub open spec fn plain_docs(docs: Seq<char>, tree: NamespaceTree, groups: Seq<GroupView>) -> Seq<
    char,
> {
    scan(replace_from(docs, 0, EXAMPLE_FENCE@, CODE_FENCE@), 0, false, tree, groups)
}

/// Appends the characters `chars[from..to]` to `out`.
fn append_chars(out: &mut String, chars: &Vec<char>, from: usize, to: usize)
    requires
        from <= to <= chars.len(),
    ensures
        final(out)@ == old(out)@ + chars@.subrange(from as int, to as int),
{
    let mut i: usize = from;
    while i < to
        invariant
            from <= i <= to <= chars.len(),
            out@ == old(out)@ + chars@.subrange(from as int, i as int),
        decreases to - i,
    {
        out.push(chars[i]);
        i += 1;
    }
}

/// The address that a link target is rewritten to.
fn address_of(target: &str, tree: &NamespaceTree, groups: &GroupRegistry) -> (res: String)
    ensures
        res@ == link_address(target@, *tree, groups@),
{
    match resolve(target, DOCS_BASE, tree, groups) {
        Ok(route) => route,
        Err(_) => String::from_str(NOT_FOUND),
    }
}

/// Writes inline code that opens at `i`, and returns where it ends.
fn write_code(out: &mut String, chars: &Vec<char>, i: usize) -> (next: usize)
    requires
        i < chars.len(),
        chars@[i as int] == '`',
    ensures
        final(out)@ == old(out)@ + (seq!['`'] + unwrapped(
            chars@.subrange(i + 1, find_char(chars@, i + 1, '`')),
        ) + seq!['`']),
        next == behind(chars@, find_char(chars@, i + 1, '`')),
        i < next <= chars.len(),
{
    let j = find_from(chars, i + 1, '`');
    let wrapped = j - (i + 1) >= 2 && ((chars[i + 1] == '{' && chars[j - 1] == '}') || (chars[i
        + 1] == '[' && chars[j - 1] == ']'));
    out.push('`');
    if wrapped {
        append_chars(out, chars, i + 2, j - 1);
    } else {
        append_chars(out, chars, i + 1, j);
    }
    out.push('`');
    if j < chars.len() {
        j + 1
    } else {
        j
    }
}

/// Writes the `]` at `i` and the address of the link target behind it, and
/// returns where the target ends.
fn write_target(
    out: &mut String,
    chars: &Vec<char>,
    i: usize,
    tree: &NamespaceTree,
    groups: &GroupRegistry,
) -> (next: usize)
    requires
        i + 1 < chars.len(),
    ensures
        final(out)@ == old(out)@ + (seq![']', '('] + link_address(
            chars@.subrange(i + 2, find_char(chars@, i + 2, ')')),
            *tree,
            groups@,
        ) + seq![')']),
        next == behind(chars@, find_char(chars@, i + 2, ')')),
        i < next <= chars.len(),
{
    let j = find_from(chars, i + 2, ')');
    let target = string_of(chars, i + 2, j);
    let address = address_of(target.as_str(), tree, groups);
    out.push(']');
    out.push('(');
    out.append(address.as_str());
    out.push(')');
    if j < chars.len() {
        j + 1
    } else {
        j
    }
}

/// Writes the `]` at `i` and the reference behind it as it is, and returns
/// where the reference ends.
fn write_reference(out: &mut String, chars: &Vec<char>, i: usize) -> (next: usize)
    requires
        i + 1 < chars.len(),
    ensures
        final(out)@ == old(out)@ + (seq![']'] + chars@.subrange(
            i + 1,
            behind(chars@, find_char(chars@, i + 2, ']')),
        )),
        next == behind(chars@, find_char(chars@, i + 2, ']')),
        i < next <= chars.len(),
{
    let j = find_from(chars, i + 2, ']');
    let next = if j < chars.len() {
        j + 1
    } else {
        j
    };
    out.push(']');
    append_chars(out, chars, i + 1, next);
    next
}

/// Writes what stands at `i`, and returns where the scanner goes on.
fn write_step(
    out: &mut String,
    chars: &Vec<char>,
    i: usize,
    link: bool,
    tree: &NamespaceTree,
    groups: &GroupRegistry,
) -> (next: usize)
    requires
        i < chars.len(),
    ensures
        final(out)@ == old(out)@ + emitted(chars@, i as int, link, *tree, groups@),
        next == advance(chars@, i as int, link),
        i < next <= chars.len(),
{
    let ch = chars[i];
    if ch == '`' {
        write_code(out, chars, i)
    } else if ch == ']' && link && i + 1 < chars.len() && chars[i + 1] == '(' {
        write_target(out, chars, i, tree, groups)
    } else if ch == ']' && link && i + 1 < chars.len() && chars[i + 1] == '[' {
        write_reference(out, chars, i)
    } else {
        out.push(ch);
        i + 1
    }
}

/// Extracts the plain display form of a piece of documentation: the whole
/// text, with inline code unwrapped and symbolic links resolved.
pub fn plain_docs_sentence(docs: &str, tree: &NamespaceTree, groups: &GroupRegistry) -> (out:
    String)
    ensures
        out@ == plain_docs(docs@, *tree, groups@),
{
    let given = chars_of(docs);
    let chars = replace_all(&given, EXAMPLE_FENCE, CODE_FENCE);
    let ghost all = scan(chars@, 0, false, *tree, groups@);
    let mut out = String::new();
    let mut link = false;
    let mut i: usize = 0;
    while i < chars.len()
        invariant
            i <= chars.len(),
            out@ + scan(chars@, i as int, link, *tree, groups@) == all,
        decreases chars.len() - i,
    {
        let ch = chars[i];
        let next = write_step(&mut out, &chars, i, link, tree, groups);
        if ch == '[' {
            link = true;
        } else if ch == ']' {
            link = false;
        }
        i = next;
    }
    out
}

} // verus!
