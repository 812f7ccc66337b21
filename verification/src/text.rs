//! Character-level helpers: every string is handled as its sequence of
//! characters, and positions are indices into that sequence.

use vstd::prelude::*;

verus! {

broadcast use vstd::string::group_string_axioms;

/// `String::push` appends one character to the end of the string.
pub assume_specification[ String::push ](s: &mut String, c: char)
    ensures
        final(s)@ == old(s)@.push(c),
;

/// The texts of a sequence of strings.
pub open spec fn texts(v: Seq<String>) -> Seq<Seq<char>> {
    v.map_values(|s: String| s@)
}

/// The first position at or after `from` that holds `c`, or the length of
/// `s` when there is none.
pub open spec fn find_char(s: Seq<char>, from: int, c: char) -> int
    decreases s.len() - from,
{
    if from >= s.len() {
        s.len() as int
    } else if s[from] == c {
        from
    } else {
        find_char(s, from + 1, c)
    }
}

/// The first position at or after `from` that does not hold `c`, or the
/// length of `s` when every later character is `c`.
pub open spec fn skip_char(s: Seq<char>, from: int, c: char) -> int
    decreases s.len() - from,
{
    if from >= s.len() {
        s.len() as int
    } else if s[from] != c {
        from
    } else {
        skip_char(s, from + 1, c)
    }
}

/// Whether `pat` stands in `s` at position `i`.
pub open spec fn matches_at(s: Seq<char>, i: int, pat: Seq<char>) -> bool {
    &&& 0 <= i
    &&& i + pat.len() <= s.len()
    &&& s.subrange(i, i + pat.len()) == pat
}

/// The pieces of `s[from..]` between occurrences of `sep`. There is always
/// at least one piece; pieces may be empty.
pub open spec fn split_from(s: Seq<char>, from: int, sep: char) -> Seq<Seq<char>>
    decreases s.len() - from,
{
    let k = find_char(s, from, sep);
    if from < 0 || from > s.len() {
        seq![Seq::<char>::empty()]
    } else if k >= s.len() {
        seq![s.subrange(from, s.len() as int)]
    } else {
        proof {
            lemma_find_char(s, from, sep);
        }
        seq![s.subrange(from, k)] + split_from(s, k + 1, sep)
    }
}

/// `s[from..]` with every occurrence of `pat` replaced by `to`, taking
/// occurrences from the left and never overlapping. An empty `pat` occurs
/// nowhere.
pub open spec fn replace_from(s: Seq<char>, from: int, pat: Seq<char>, to: Seq<char>) -> Seq<char>
    decreases s.len() - from,
{
    if from >= s.len() {
        Seq::<char>::empty()
    } else if pat.len() > 0 && matches_at(s, from, pat) {
        to + replace_from(s, from + pat.len(), pat, to)
    } else {
        seq![s[from]] + replace_from(s, from + 1, pat, to)
    }
}

/// The character that stands for `c` in a URL fragment: ASCII letters in
/// lower case, ASCII digits as they are, `-` for everything else.
pub open spec fn urlify_char(c: char) -> char {
    if 'A' <= c && c <= 'Z' {
        ((c as u8) + 32) as char
    } else if ('a' <= c && c <= 'z') || ('0' <= c && c <= '9') {
        c
    } else {
        '-'
    }
}

/// `title` as a URL fragment, character by character.
pub open spec fn urlify_text(title: Seq<char>) -> Seq<char> {
    Seq::new(title.len(), |i: int| urlify_char(title[i]))
}

/// The character of the decimal digit `d`.
pub open spec fn digit(d: nat) -> char {
    ((48 + d) as u8) as char
}

/// The decimal notation of `n`, without leading zeros.
pub open spec fn decimal(n: nat) -> Seq<char>
    decreases n,
{
    if n < 10 {
        seq![digit(n)]
    } else {
        decimal(n / 10).push(digit(n % 10))
    }
}

/// What `find_char` returns lies between `from` and the end, holds `c`
/// unless it is the end, and nothing before it does.
pub proof fn lemma_find_char(s: Seq<char>, from: int, c: char)
    requires
        0 <= from <= s.len(),
    ensures
        from <= find_char(s, from, c) <= s.len(),
        find_char(s, from, c) < s.len() ==> s[find_char(s, from, c)] == c,
        forall|j: int| from <= j < find_char(s, from, c) ==> s[j] != c,
    decreases s.len() - from,
{
    if from < s.len() && s[from] != c {
        lemma_find_char(s, from + 1, c);
    }
}

/// What `skip_char` returns lies between `from` and the end, does not hold
/// `c` unless it is the end, and everything before it does.
pub proof fn lemma_skip_char(s: Seq<char>, from: int, c: char)
    requires
        0 <= from <= s.len(),
    ensures
        from <= skip_char(s, from, c) <= s.len(),
        skip_char(s, from, c) < s.len() ==> s[skip_char(s, from, c)] != c,
        forall|j: int| from <= j < skip_char(s, from, c) ==> s[j] == c,
    decreases s.len() - from,
{
    if from < s.len() && s[from] == c {
        lemma_skip_char(s, from + 1, c);
    }
}

/// The characters of `s`, in order.
pub fn chars_of(s: &str) -> (out: Vec<char>)
    ensures
        out@ == s@,
{
    let mut out: Vec<char> = Vec::new();
    let chars = s.chars();
    for c in it: chars
        invariant
            it.seq() == s@,
            out@ == s@.take(it.index()),
    {
        out.push(c);
    }
    out
}

/// The string made of the characters `chars[from..to]`.
pub fn string_of(chars: &Vec<char>, from: usize, to: usize) -> (out: String)
    requires
        from <= to <= chars.len(),
    ensures
        out@ == chars@.subrange(from as int, to as int),
{
    let mut out = String::new();
    let mut i: usize = from;
    while i < to
        invariant
            from <= i <= to <= chars.len(),
            out@ == chars@.subrange(from as int, i as int),
        decreases to - i,
    {
        out.push(chars[i]);
        i += 1;
    }
    out
}

/// Appends the characters `chars[from..to]` to `out`.
pub fn push_chars(out: &mut Vec<char>, chars: &Vec<char>, from: usize, to: usize)
    requires
        from <= to <= chars.len(),
    ensures
        final(out)@ == old(out)@ + chars@.subrange(from as int, to as int),
{
    let mut i: usize = from;
    while i < to
        invariant
            from <= i <= to <= chars.len(),
            out@ == old(out)@ + chars@.subrange(from as int, i as int),
        decreases to - i,
    {
        out.push(chars[i]);
        i += 1;
    }
}

/// Whether `pat` stands in `chars` at position `i`.
pub fn matches_here(chars: &Vec<char>, i: usize, pat: &Vec<char>) -> (res: bool)
    requires
        i <= chars.len(),
    ensures
        res == matches_at(chars@, i as int, pat@),
{
    if pat.len() > chars.len() - i {
        return false;
    }
    let mut j: usize = 0;
    while j < pat.len()
        invariant
            i + pat.len() <= chars.len(),
            j <= pat.len(),
            forall|k: int| 0 <= k < j ==> chars@[i + k] == pat@[k],
        decreases pat.len() - j,
    {
        if chars[i + j] != pat[j] {
            return false;
        }
        j += 1;
    }
    assert(chars@.subrange(i as int, i + pat.len()) =~= pat@);
    true
}

/// The first position at or after `from` that holds `c`, or the length.
pub fn find_from(chars: &Vec<char>, from: usize, c: char) -> (res: usize)
    requires
        from <= chars.len(),
    ensures
        res == find_char(chars@, from as int, c),
        from <= res <= chars.len(),
{
    let mut i: usize = from;
    while i < chars.len() && chars[i] != c
        invariant
            from <= i <= chars.len(),
            find_char(chars@, from as int, c) == find_char(chars@, i as int, c),
        decreases chars.len() - i,
    {
        i += 1;
    }
    i
}

/// The first position at or after `from` that does not hold `c`, or the
/// length.
pub fn skip_from(chars: &Vec<char>, from: usize, c: char) -> (res: usize)
    requires
        from <= chars.len(),
    ensures
        res == skip_char(chars@, from as int, c),
        from <= res <= chars.len(),
{
    let mut i: usize = from;
    while i < chars.len() && chars[i] == c
        invariant
            from <= i <= chars.len(),
            skip_char(chars@, from as int, c) == skip_char(chars@, i as int, c),
        decreases chars.len() - i,
    {
        i += 1;
    }
    i
}

/// Whether `c` occurs in `chars`.
pub fn has_char(chars: &Vec<char>, c: char) -> (res: bool)
    ensures
        res == chars@.contains(c),
{
    let i = find_from(chars, 0, c);
    proof {
        lemma_find_char(chars@, 0, c);
    }
    i < chars.len()
}

/// The pieces of `chars[from..]` between occurrences of `sep`.
pub fn split(chars: &Vec<char>, from: usize, sep: char) -> (parts: Vec<String>)
    requires
        from <= chars.len(),
    ensures
        texts(parts@) == split_from(chars@, from as int, sep),
        parts.len() >= 1,
{
    let mut parts: Vec<String> = Vec::new();
    let mut i: usize = from;
    loop
        invariant_except_break
            from <= i <= chars.len(),
            texts(parts@) + split_from(chars@, i as int, sep) == split_from(
                chars@,
                from as int,
                sep,
            ),
        ensures
            texts(parts@) == split_from(chars@, from as int, sep),
            parts.len() >= 1,
        decreases chars.len() - i,
    {
        let k = find_from(chars, i, sep);
        let piece = string_of(chars, i, k);
        parts.push(piece);
        if k >= chars.len() {
            break;
        }
        i = k + 1;
    }
    parts
}

/// `chars` with every occurrence of `pat` replaced by `to`.
pub fn replace_all(chars: &Vec<char>, pat: &str, to: &str) -> (out: Vec<char>)
    ensures
        out@ == replace_from(chars@, 0, pat@, to@),
{
    let pat = chars_of(pat);
    let to = chars_of(to);
    let mut out: Vec<char> = Vec::new();
    let mut i: usize = 0;
    while i < chars.len()
        invariant
            i <= chars.len(),
            out@ + replace_from(chars@, i as int, pat@, to@) == replace_from(chars@, 0, pat@, to@),
        decreases chars.len() - i,
    {
        if pat.len() > 0 && matches_here(chars, i, &pat) {
            push_chars(&mut out, &to, 0, to.len());
            i += pat.len();
        } else {
            out.push(chars[i]);
            i += 1;
        }
    }
    out
}

/// Turns a title into a URL fragment.
pub fn urlify(title: &str) -> (out: String)
    ensures
        out@ == urlify_text(title@),
{
    let chars = chars_of(title);
    let mut out = String::new();
    let mut i: usize = 0;
    while i < chars.len()
        invariant
            i <= chars.len(),
            chars@ == title@,
            out@ == urlify_text(title@).take(i as int),
        decreases chars.len() - i,
    {
        let c = chars[i];
        let d = if 'A' <= c && c <= 'Z' {
            ((c as u8) + 32) as char
        } else if ('a' <= c && c <= 'z') || ('0' <= c && c <= '9') {
            c
        } else {
            '-'
        };
        out.push(d);
        i += 1;
    }
    out
}

/// Whether `chars` holds exactly the characters of `text`.
pub fn is_text(chars: &Vec<char>, text: &str) -> (res: bool)
    ensures
        res == (chars@ == text@),
{
    let mut i: usize = 0;
    let rest = text.chars();
    for c in it: rest
        invariant
            it.seq() == text@,
            i == it.index(),
            i <= chars.len(),
            chars@.take(i as int) == text@.take(i as int),
    {
        if i >= chars.len() || chars[i] != c {
            return false;
        }
        i += 1;
        assert(chars@.take(i as int) =~= text@.take(i as int));
    }
    assert(text@.take(i as int) =~= text@);
    if i == chars.len() {
        assert(chars@.take(i as int) =~= chars@);
        true
    } else {
        false
    }
}

/// Whether the two slices hold the same characters.
pub fn same_str(a: &str, b: &str) -> (res: bool)
    ensures
        res == (a@ == b@),
{
    let chars = chars_of(a);
    is_text(&chars, b)
}

/// The decimal notation of `n`.
pub fn decimal_string(n: u64) -> (out: String)
    ensures
        out@ == decimal(n as nat),
    decreases n,
{
    let last = ((48 + (n % 10)) as u8) as char;
    if n < 10 {
        let mut out = String::new();
        out.push(last);
        out
    } else {
        let mut out = decimal_string(n / 10);
        out.push(last);
        out
    }
}

} // verus!
