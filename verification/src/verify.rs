//! Formal verification coverage: which Hoare-tripled `pub fn` are exercised
//! by a `#[kani::proof]` harness.
//!
//! The scan works on the text of the project's source files; finding and
//! reading them is left to the caller.
use vstd::prelude::*;

use crate::text::{
    chars_of, contains, count_char, count_char_exec, is_whitespace, is_ws,
    lemma_count_two, lemma_lines_total, lemma_sum_lens_prefix, lemma_sum_lens_step,
    lemma_trim_len, lines_of, same_chars, slice_chars, split_lines, starts_with,
    starts_with_chars, string_of, sum_lens, trim, trim_chars, trim_start, trim_start_chars, views,
};

verus! {

/// A doc line that opens a Hoare triple: `/// {`.
pub const HOARE_PATTERN: &'static str = "^\\s*///\\s*\\{";

/// A function declaration: optional `pub`, `async` and `unsafe`, then `fn`.
pub const FN_DECL_PATTERN: &'static str = "^\\s*(pub\\s+)?(async\\s+)?(unsafe\\s+)?fn\\s+";

/// The attribute that marks a Kani proof harness.
pub const KANI_PROOF_PATTERN: &'static str = "#\\[kani::proof\\]";

/// A call: a lower-case identifier followed by `(`.
pub const FN_CALL_PATTERN: &'static str = "\\b([a-z_][a-z0-9_]*)\\s*\\(";

/// What `regex::Regex::new(pattern)` followed by `is_match(haystack)` answers.
pub uninterp spec fn regex_is_match(pattern: Seq<char>, haystack: Seq<char>) -> bool;

/// The text of capture group 1 of each successive non-overlapping match of
/// `pattern` in `haystack`, as `regex::Regex::captures_iter` yields them.
pub uninterp spec fn regex_group1_matches(pattern: Seq<char>, haystack: Seq<char>) -> Seq<Seq<char>>;

/// `s` with `kw` removed when `kw` is followed by whitespace, and that
/// whitespace removed too; `s` unchanged otherwise (the group `(kw\s+)?`).
pub open spec fn skip_keyword(s: Seq<char>, kw: Seq<char>) -> Seq<char> {
    if starts_with(s, kw) && s.len() > kw.len() && is_ws(s[kw.len() as int]) {
        trim_start(s.skip(kw.len() as int))
    } else {
        s
    }
}

/// For a line that matches [`FN_DECL_PATTERN`], the text after `fn` and the
/// whitespace that follows it; `None` for a line that does not match.
pub open spec fn fn_decl_rest(line: Seq<char>) -> Option<Seq<char>> {
    let s = skip_keyword(
        skip_keyword(skip_keyword(trim_start(line), "pub"@), "async"@),
        "unsafe"@,
    );
    if starts_with(s, "fn"@) && s.len() > 2 && is_ws(s[2]) {
        Some(trim_start(s.skip(2)))
    } else {
        None
    }
}

/// A line that matches [`HOARE_PATTERN`]: after leading whitespace, `///`,
/// more whitespace, then `{`.
pub open spec fn opens_hoare_triple(line: Seq<char>) -> bool {
    let r = trim_start(line);
    &&& starts_with(r, "///"@)
    &&& trim_start(r.skip(3)).len() > 0
    &&& trim_start(r.skip(3))[0] == '{'
}

/// A character that may continue a function name.
pub open spec fn is_ident_char(c: char) -> bool {
    ('a' <= c <= 'z') || ('A' <= c <= 'Z') || ('0' <= c <= '9') || c == '_'
}

/// The longest prefix of `s` made of identifier characters.
pub open spec fn ident_prefix(s: Seq<char>) -> Seq<char>
    decreases s.len(),
{
    if s.len() > 0 && is_ident_char(s[0]) {
        seq![s[0]] + ident_prefix(s.drop_first())
    } else {
        Seq::empty()
    }
}

/// The name a declaration line declares.
pub open spec fn declared_fn_name(line: Seq<char>) -> Seq<char> {
    match fn_decl_rest(line) {
        Some(rest) => ident_prefix(rest),
        None => Seq::empty(),
    }
}

/// Walking up from line `i` (exclusive), past attributes, blank lines and doc
/// lines, a doc line that opens a Hoare triple is found.
pub open spec fn hoare_above(lines: Seq<Seq<char>>, i: int) -> bool
    decreases i,
{
    if i <= 0 || i > lines.len() {
        false
    } else {
        let l = trim(lines[i - 1]);
        if starts_with(l, "///"@) {
            if opens_hoare_triple(l) {
                true
            } else {
                hoare_above(lines, i - 1)
            }
        } else if l.len() == 0 || starts_with(l, "#"@) {
            hoare_above(lines, i - 1)
        } else {
            false
        }
    }
}

/// Line `idx` declares a `pub fn` under a Hoare triple.
pub open spec fn is_documented_pub_fn(lines: Seq<Seq<char>>, idx: int) -> bool {
    &&& fn_decl_rest(lines[idx]) is Some
    &&& starts_with(trim(lines[idx]), "pub"@)
    &&& hoare_above(lines, idx)
}

/// A function of the registry: its name, its file and its (1-based) line.
pub type Decl = (Seq<char>, Seq<char>, nat);

/// The first index of `name` in `reg`, if any.
pub open spec fn find_name(reg: Seq<Decl>, name: Seq<char>) -> Option<nat>
    decreases reg.len(),
{
    if reg.len() == 0 {
        None
    } else {
        match find_name(reg.drop_last(), name) {
            Some(i) => Some(i),
            None => if reg.last().0 == name {
                Some((reg.len() - 1) as nat)
            } else {
                None
            },
        }
    }
}

/// Records a declaration: a name seen before keeps its place and takes the
/// new location; a new name is appended.
pub open spec fn upsert(reg: Seq<Decl>, d: Decl) -> Seq<Decl> {
    match find_name(reg, d.0) {
        Some(i) => reg.update(i as int, d),
        None => reg.push(d),
    }
}

/// The registry after the first `n` lines of one file.
pub open spec fn file_decls(reg: Seq<Decl>, path: Seq<char>, lines: Seq<Seq<char>>, n: nat) -> Seq<
    Decl,
>
    decreases n,
{
    if n == 0 {
        reg
    } else {
        let prev = file_decls(reg, path, lines, (n - 1) as nat);
        if is_documented_pub_fn(lines, n - 1) {
            upsert(prev, (declared_fn_name(lines[n - 1]), path, n))
        } else {
            prev
        }
    }
}

/// A source file: its path and its text.
pub struct SourceFile {
    pub path: String,
    pub content: String,
}

/// The registry of documented `pub fn` over the first `n` files.
pub open spec fn registry(files: Seq<SourceFile>, n: nat) -> Seq<Decl>
    decreases n,
{
    if n == 0 || n > files.len() {
        Seq::empty()
    } else {
        let f = files[n - 1];
        let lines = lines_of(f.content@);
        file_decls(registry(files, (n - 1) as nat), f.path@, lines, lines.len())
    }
}

/// A name the harness scan ignores: Rust keywords and `kani` itself.
pub open spec fn is_ignored_call(n: Seq<char>) -> bool {
    ||| n == "if"@
    ||| n == "for"@
    ||| n == "while"@
    ||| n == "match"@
    ||| n == "let"@
    ||| n == "fn"@
    ||| n == "return"@
    ||| n == "kani"@
}

/// The names called on one line of a harness.
pub open spec fn calls_on(line: Seq<char>) -> Set<Seq<char>> {
    regex_group1_matches(FN_CALL_PATTERN@, line).to_set().filter(|n: Seq<char>| !is_ignored_call(n))
}

/// The harness scan of one file after `n` lines: the names called so far,
/// whether a harness is open, and its brace depth.
pub open spec fn proof_scan(lines: Seq<Seq<char>>, n: nat) -> (Set<Seq<char>>, bool, int)
    decreases n,
{
    if n == 0 || n > lines.len() {
        (Set::empty(), false, 0)
    } else {
        let (names, open, depth) = proof_scan(lines, (n - 1) as nat);
        let line = lines[n - 1];
        if contains(line, "#[kani::proof]"@) {
            (names, true, 0)
        } else if open {
            let t = trim(line);
            let d = depth + count_char(t, '{') - count_char(t, '}');
            (names + calls_on(line), !(d <= 0 && t == "}"@), d)
        } else {
            (names, open, depth)
        }
    }
}

/// The names called inside harnesses of the first `n` files.
pub open spec fn proven_names(files: Seq<SourceFile>, n: nat) -> Set<Seq<char>>
    decreases n,
{
    if n == 0 || n > files.len() {
        Set::empty()
    } else {
        let lines = lines_of(files[n - 1].content@);
        proven_names(files, (n - 1) as nat) + proof_scan(lines, lines.len()).0
    }
}

/// The names of the registry that are proven, in registry order.
pub open spec fn covered_of(reg: Seq<Decl>, proven: Set<Seq<char>>) -> Seq<Seq<char>>
    decreases reg.len(),
{
    if reg.len() == 0 {
        Seq::empty()
    } else if proven.contains(reg.last().0) {
        covered_of(reg.drop_last(), proven).push(reg.last().0)
    } else {
        covered_of(reg.drop_last(), proven)
    }
}

/// The entries of the registry that are not proven, in registry order.
pub open spec fn missing_of(reg: Seq<Decl>, proven: Set<Seq<char>>) -> Seq<Decl>
    decreases reg.len(),
{
    if reg.len() == 0 {
        Seq::empty()
    } else if proven.contains(reg.last().0) {
        missing_of(reg.drop_last(), proven)
    } else {
        missing_of(reg.drop_last(), proven).push(reg.last())
    }
}

/// Coverage report for a single crate.
pub struct CoverageReport {
    /// Functions that have a Hoare triple but no Kani proof harness.
    pub missing: Vec<MissingProof>,
    /// Functions that have both a Hoare triple and a Kani proof harness.
    pub covered: Vec<String>,
    /// Total `pub fn` with Hoare triples found.
    pub total: usize,
}

/// A documented function that no harness calls.
pub struct MissingProof {
    pub file: String,
    pub line: usize,
    pub function: String,
}

impl MissingProof {
    pub open spec fn view_decl(&self) -> Decl {
        (self.function@, self.file@, self.line as nat)
    }
}

pub open spec fn decls_of(v: Seq<MissingProof>) -> Seq<Decl> {
    v.map_values(|m: MissingProof| m.view_decl())
}

/// `regex::Regex::new(pattern)`, then `is_match(haystack)`; `None` when the
/// pattern does not compile. For the three patterns this library uses, the
/// contract also states what a match means, as the regex syntax documents it
/// (`^` anchors at the start of the haystack, `\s` is Unicode `White_Space`).
#[verifier::external_body]
fn regex_matches(pattern: &str, haystack: &str) -> (r: Option<bool>)
    ensures
        r matches Some(b) ==> b == regex_is_match(pattern@, haystack@),
        pattern@ == HOARE_PATTERN@ ==> r == Some(opens_hoare_triple(haystack@)),
        pattern@ == FN_DECL_PATTERN@ ==> r == Some(fn_decl_rest(haystack@) is Some),
        pattern@ == KANI_PROOF_PATTERN@ ==> r == Some(contains(haystack@, "#[kani::proof]"@)),
{
    match regex::Regex::new(pattern) {
        Ok(re) => Some(re.is_match(haystack)),
        Err(_) => None,
    }
}

/// `regex::Regex::new(pattern)`, then the text of capture group 1 of every
/// item of `captures_iter(haystack)`. Only for [`FN_CALL_PATTERN`], which
/// compiles and whose group 1 takes part in every match.
#[verifier::external_body]
fn regex_group1(pattern: &str, haystack: &str) -> (r: Vec<String>)
    requires
        pattern@ == FN_CALL_PATTERN@,
    ensures
        views(r@) == regex_group1_matches(pattern@, haystack@),
{
    let re = regex::Regex::new(pattern).unwrap();
    re.captures_iter(haystack).map(|caps| caps[1].to_string()).collect()
}

/// `skip_keyword` on characters.
fn skip_keyword_exec(s: Vec<char>, kw: &Vec<char>) -> (r: Vec<char>)
    ensures
        r@ == skip_keyword(s@, kw@),
{
    if starts_with_chars(&s, kw) && s.len() > kw.len() && is_whitespace(s[kw.len()]) {
        let rest = slice_chars(&s, kw.len(), s.len());
        trim_start_chars(&rest)
    } else {
        s
    }
}

/// `fn_decl_rest` on characters.
fn fn_decl_rest_exec(line: &Vec<char>) -> (r: Option<Vec<char>>)
    ensures
        match r {
            Some(v) => fn_decl_rest(line@) == Some(v@),
            None => fn_decl_rest(line@) is None,
        },
{
    let s0 = trim_start_chars(line);
    let s1 = skip_keyword_exec(s0, &chars_of("pub"));
    let s2 = skip_keyword_exec(s1, &chars_of("async"));
    let s = skip_keyword_exec(s2, &chars_of("unsafe"));
    let f = chars_of("fn");
    if starts_with_chars(&s, &f) && s.len() > 2 && is_whitespace(s[2]) {
        let rest = slice_chars(&s, 2, s.len());
        Some(trim_start_chars(&rest))
    } else {
        None
    }
}

/// `c` may continue a function name.
fn is_ident_char_exec(c: char) -> (r: bool)
    ensures
        r == is_ident_char(c),
{
    ('a' <= c && c <= 'z') || ('A' <= c && c <= 'Z') || ('0' <= c && c <= '9') || c == '_'
}

proof fn lemma_ident_prefix(s: Seq<char>, i: int)
    requires
        0 <= i <= s.len(),
        forall|j: int| 0 <= j < i ==> is_ident_char(#[trigger] s[j]),
        i == s.len() || !is_ident_char(s[i]),
    ensures
        ident_prefix(s) == s.take(i),
    decreases i,
{
    if i > 0 {
        assert forall|j: int| 0 <= j < i - 1 implies is_ident_char(#[trigger] s.drop_first()[j]) by {
            assert(s.drop_first()[j] == s[j + 1]);
        }
        lemma_ident_prefix(s.drop_first(), i - 1);
        assert(seq![s[0]] + s.drop_first().take(i - 1) == s.take(i));
    }
}

/// The name declared by a declaration line.
fn declared_fn_name_exec(line: &Vec<char>) -> (r: Vec<char>)
    ensures
        r@ == declared_fn_name(line@),
{
    match fn_decl_rest_exec(line) {
        Some(rest) => {
            let mut i: usize = 0;
            while i < rest.len() && is_ident_char_exec(rest[i])
                invariant
                    i <= rest@.len(),
                    forall|j: int| 0 <= j < i ==> is_ident_char(#[trigger] rest@[j]),
                decreases rest@.len() - i,
            {
                i = i + 1;
            }
            proof {
                lemma_ident_prefix(rest@, i as int);
            }
            slice_chars(&rest, 0, i)
        },
        None => Vec::new(),
    }
}

/// Whether `l` (already trimmed) opens a Hoare triple, by the regex.
fn opens_hoare_exec(l: &Vec<char>) -> (r: bool)
    ensures
        r == opens_hoare_triple(l@),
{
    let s = string_of(l.as_slice());
    match regex_matches(HOARE_PATTERN, s.as_str()) {
        Some(b) => b,
        None => false,
    }
}

/// `hoare_above` for the lines of one file.
fn documented_above(lines: &Vec<String>, idx: usize) -> (r: bool)
    requires
        idx <= lines@.len(),
    ensures
        r == hoare_above(views(lines@), idx as int),
{
    let ghost ls = views(lines@);
    let slashes = chars_of("///");
    let hash = chars_of("#");
    let mut i: usize = idx;
    while i > 0
        invariant
            i <= idx <= lines@.len(),
            ls == views(lines@),
            slashes@ == "///"@,
            hash@ == "#"@,
            hoare_above(ls, idx as int) == hoare_above(ls, i as int),
        decreases i,
    {
        let l = trim_chars(&chars_of(lines[i - 1].as_str()));
        assert(ls[i - 1] == lines@[i - 1]@);
        if starts_with_chars(&l, &slashes) {
            if opens_hoare_exec(&l) {
                return true;
            }
        } else if !(l.len() == 0 || starts_with_chars(&l, &hash)) {
            return false;
        }
        i = i - 1;
    }
    false
}

proof fn lemma_find_name_extend(reg: Seq<Decl>, name: Seq<char>, k: int)
    requires
        0 <= k <= reg.len(),
        find_name(reg.take(k), name) is Some,
    ensures
        find_name(reg, name) == find_name(reg.take(k), name),
    decreases reg.len() - k,
{
    if k < reg.len() {
        assert(reg.take(k + 1).drop_last() == reg.take(k));
        lemma_find_name_extend(reg, name, k + 1);
    } else {
        assert(reg.take(k) == reg);
    }
}

proof fn lemma_find_name_bounds(reg: Seq<Decl>, name: Seq<char>)
    ensures
        find_name(reg, name) matches Some(i) ==> i < reg.len() && reg[i as int].0 == name,
        find_name(reg, name) is None ==> forall|j: int| 0 <= j < reg.len() ==> reg[j].0 != name,
    decreases reg.len(),
{
    if reg.len() > 0 {
        lemma_find_name_bounds(reg.drop_last(), name);
        if find_name(reg.drop_last(), name) is None {
            assert forall|j: int| 0 <= j < reg.len() - 1 implies reg[j].0 != name by {
                assert(reg.drop_last()[j] == reg[j]);
            }
        }
    }
}

/// Records the declaration `d` in the registry.
fn upsert_exec(reg: &mut Vec<MissingProof>, d: MissingProof)
    ensures
        decls_of(final(reg)@) == upsert(decls_of(old(reg)@), d.view_decl()),
{
    let ghost r0 = decls_of(reg@);
    let fname = chars_of(d.function.as_str());
    let mut i: usize = 0;
    while i < reg.len()
        invariant
            i <= reg@.len(),
            r0 == decls_of(reg@),
            r0 == decls_of(old(reg)@),
            fname@ == d.function@,
            find_name(r0.take(i as int), d.function@) is None,
        decreases reg@.len() - i,
    {
        let here = chars_of(reg[i].function.as_str());
        assert(r0.take(i + 1).drop_last() == r0.take(i as int));
        assert(r0[i as int] == reg@[i as int].view_decl());
        if same_chars(&here, &fname) {
            proof {
                assert(find_name(r0.take(i + 1), d.function@) == Some(i as nat));
                lemma_find_name_extend(r0, d.function@, i + 1);
            }
            let ghost dv = d.view_decl();
            assert(find_name(r0, dv.0) == Some(i as nat));
            assert(upsert(r0, dv) == r0.update(i as int, dv));
            reg.set(i, d);
            assert(decls_of(reg@) =~= r0.update(i as int, dv));
            return;
        }
        i = i + 1;
    }
    assert(r0.take(i as int) == r0);
    reg.push(d);
    assert(decls_of(reg@) =~= r0.push(d.view_decl()));
}

/// The registry of documented `pub fn` of one file, added to `reg`.
fn scan_declarations(reg: &mut Vec<MissingProof>, path: &String, lines: &Vec<String>)
    ensures
        decls_of(final(reg)@) == file_decls(
            decls_of(old(reg)@),
            path@,
            views(lines@),
            lines@.len(),
        ),
{
    let ghost r0 = decls_of(reg@);
    let ghost ls = views(lines@);
    let pub_kw = chars_of("pub");
    let mut idx: usize = 0;
    while idx < lines.len()
        invariant
            idx <= lines@.len(),
            ls == views(lines@),
            pub_kw@ == "pub"@,
            decls_of(reg@) == file_decls(r0, path@, ls, idx as nat),
        decreases lines@.len() - idx,
    {
        let line = &lines[idx];
        assert(ls[idx as int] == line@);
        let decl = match regex_matches(FN_DECL_PATTERN, line.as_str()) {
            Some(b) => b,
            None => false,
        };
        if decl {
            let cs = chars_of(line.as_str());
            let t = trim_chars(&cs);
            if starts_with_chars(&t, &pub_kw) && documented_above(lines, idx) {
                let name = declared_fn_name_exec(&cs);
                let entry = MissingProof {
                    file: path.clone(),
                    line: idx + 1,
                    function: string_of(name.as_slice()),
                };
                upsert_exec(reg, entry);
            }
        }
        idx = idx + 1;
    }
}

/// `n` is the view of one of `v`.
pub open spec fn names_contain(v: Seq<String>, n: Seq<char>) -> bool {
    exists|j: int| 0 <= j < v.len() && v[j]@ == n
}

/// `n` is among the first `m` of `found` and is not ignored.
pub open spec fn found_call(found: Seq<Seq<char>>, m: int, n: Seq<char>) -> bool {
    exists|j: int| 0 <= j < m && found[j] == n && !is_ignored_call(n)
}

/// Whether `name` is among `names`.
fn has_name(names: &Vec<String>, name: &String) -> (r: bool)
    ensures
        r == exists|j: int| 0 <= j < names@.len() && names@[j]@ == name@,
{
    let mut i: usize = 0;
    while i < names.len()
        invariant
            i <= names@.len(),
            forall|j: int| 0 <= j < i ==> names@[j]@ != name@,
        decreases names@.len() - i,
    {
        if names[i] == *name {
            return true;
        }
        i = i + 1;
    }
    false
}

/// `is_ignored_call` on a string.
fn is_ignored_call_exec(n: &String) -> (r: bool)
    ensures
        r == is_ignored_call(n@),
{
    let c = chars_of(n.as_str());
    same_chars(&c, &chars_of("if")) || same_chars(&c, &chars_of("for")) || same_chars(
        &c,
        &chars_of("while"),
    ) || same_chars(&c, &chars_of("match")) || same_chars(&c, &chars_of("let")) || same_chars(
        &c,
        &chars_of("fn"),
    ) || same_chars(&c, &chars_of("return")) || same_chars(&c, &chars_of("kani"))
}

proof fn lemma_found_call_step(found: Seq<Seq<char>>, m: int, n: Seq<char>)
    requires
        0 <= m < found.len(),
    ensures
        found_call(found, m + 1, n) <==> (found_call(found, m, n) || (found[m] == n
            && !is_ignored_call(n))),
{
    if found_call(found, m + 1, n) {
        let j = choose|j: int| 0 <= j < m + 1 && found[j] == n && !is_ignored_call(n);
        if j < m {
            assert(0 <= j < m && found[j] == n && !is_ignored_call(n));
        }
    }
    if found_call(found, m, n) {
        let j = choose|j: int| 0 <= j < m && found[j] == n && !is_ignored_call(n);
        assert(0 <= j < m + 1 && found[j] == n && !is_ignored_call(n));
    }
    if found[m] == n && !is_ignored_call(n) {
        assert(0 <= m < m + 1 && found[m] == n && !is_ignored_call(n));
    }
}

proof fn lemma_names_push(v: Seq<String>, x: String, n: Seq<char>)
    ensures
        names_contain(v.push(x), n) <==> (names_contain(v, n) || x@ == n),
{
    let w = v.push(x);
    if names_contain(w, n) {
        let j = choose|j: int| 0 <= j < w.len() && w[j]@ == n;
        if j < v.len() {
            assert(0 <= j < v.len() && v[j]@ == n);
        }
    }
    if names_contain(v, n) {
        let j = choose|j: int| 0 <= j < v.len() && v[j]@ == n;
        assert(0 <= j < w.len() && w[j]@ == n);
    }
    if x@ == n {
        assert(0 <= v.len() < w.len() && w[v.len() as int]@ == n);
    }
}

proof fn lemma_calls_on(found: Seq<Seq<char>>, line: Seq<char>, n: Seq<char>)
    requires
        found == regex_group1_matches(FN_CALL_PATTERN@, line),
    ensures
        calls_on(line).contains(n) <==> found_call(found, found.len() as int, n),
{
    if found_call(found, found.len() as int, n) {
        let j = choose|j: int| 0 <= j < found.len() && found[j] == n && !is_ignored_call(n);
        assert(found.contains(found[j]));
    }
    if calls_on(line).contains(n) {
        assert(found.contains(n));
        let j = choose|j: int| 0 <= j < found.len() && found[j] == n;
        assert(0 <= j < found.len() && found[j] == n && !is_ignored_call(n));
    }
}

/// Adds to `proven` the names called on `line`.
fn record_calls(proven: &mut Vec<String>, line: &String)
    ensures
        forall|n: Seq<char>|
            #![trigger names_contain(final(proven)@, n)]
            names_contain(final(proven)@, n) <==> (names_contain(old(proven)@, n) || calls_on(
                line@,
            ).contains(n)),
{
    let names = regex_group1(FN_CALL_PATTERN, line.as_str());
    let ghost found = views(names@);
    let ghost p0 = old(proven)@;
    let mut m: usize = 0;
    while m < names.len()
        invariant
            m <= names@.len(),
            found == views(names@),
            found == regex_group1_matches(FN_CALL_PATTERN@, line@),
            forall|n: Seq<char>|
                #![trigger names_contain(proven@, n)]
                names_contain(proven@, n) <==> (names_contain(p0, n) || found_call(
                    found,
                    m as int,
                    n,
                )),
        decreases names@.len() - m,
    {
        let name = &names[m];
        assert(found[m as int] == name@);
        let ghost before = proven@;
        if !is_ignored_call_exec(name) && !has_name(proven, name) {
            proven.push(name.clone());
        }
        assert forall|n: Seq<char>|
            #![trigger names_contain(proven@, n)]
            names_contain(proven@, n) <==> (names_contain(p0, n) || found_call(
                found,
                m + 1,
                n,
            )) by {
            lemma_found_call_step(found, m as int, n);
            lemma_names_push(before, *name, n);
            assert(names_contain(before, n) <==> (names_contain(p0, n) || found_call(
                found,
                m as int,
                n,
            )));
        }
        m = m + 1;
    }
    assert forall|n: Seq<char>|
        #![trigger names_contain(proven@, n)]
        names_contain(proven@, n) <==> (names_contain(p0, n) || calls_on(line@).contains(n)) by {
        lemma_calls_on(found, line@, n);
        assert(names_contain(proven@, n) <==> (names_contain(p0, n) || found_call(
            found,
            m as int,
            n,
        )));
    }
}

/// Adds to `proven` the names called inside the harnesses of one file.
fn scan_harnesses(proven: &mut Vec<String>, lines: &Vec<String>, Ghost(budget): Ghost<nat>)
    requires
        sum_lens(views(lines@)) <= budget,
        budget <= i64::MAX,
    ensures
        forall|n: Seq<char>|
            names_contain(final(proven)@, n) <==> (names_contain(old(proven)@, n) || proof_scan(
                views(lines@),
                lines@.len(),
            ).0.contains(n)),
{
    let ghost ls = views(lines@);
    let ghost p0 = old(proven)@;
    let mut open = false;
    let mut depth: i64 = 0;
    let mut k: usize = 0;
    while k < lines.len()
        invariant
            k <= lines@.len(),
            ls == views(lines@),
            sum_lens(ls) <= budget <= i64::MAX,
            proof_scan(ls, k as nat).1 == open,
            proof_scan(ls, k as nat).2 == depth as int,
            -(sum_lens(ls.take(k as int)) as int) <= depth <= sum_lens(ls.take(k as int)),
            forall|n: Seq<char>|
                names_contain(proven@, n) <==> (names_contain(p0, n) || proof_scan(ls, k as nat).0.contains(n)),
        decreases lines@.len() - k,
    {
        let line = &lines[k];
        let ghost before = proven@;
        assert(ls[k as int] == line@);
        proof {
            lemma_sum_lens_step(ls, k as int);
            lemma_sum_lens_prefix(ls, k + 1);
        }
        let kani = match regex_matches(KANI_PROOF_PATTERN, line.as_str()) {
            Some(b) => b,
            None => false,
        };
        if kani {
            open = true;
            depth = 0;
        } else if open {
            let t = trim_chars(&chars_of(line.as_str()));
            let opens = count_char_exec(&t, '{');
            let closes = count_char_exec(&t, '}');
            proof {
                lemma_count_two(t@, '{', '}');
                lemma_trim_len(line@);
            }
            depth = depth + opens as i64 - closes as i64;
            record_calls(proven, line);
            if depth <= 0 && same_chars(&t, &chars_of("}")) {
                open = false;
            }
        }
        assert forall|n: Seq<char>|
            #![trigger names_contain(proven@, n)]
            names_contain(proven@, n) <==> (names_contain(p0, n) || proof_scan(
                ls,
                (k + 1) as nat,
            ).0.contains(n)) by {
            assert(names_contain(before, n) <==> (names_contain(p0, n) || proof_scan(
                ls,
                k as nat,
            ).0.contains(n)));
        }
        k = k + 1;
    }
    assert(ls.take(k as int) == ls);
}

/// A vector of names and the set it stands for agree on `n`.
proof fn lemma_has_name_set(names: Seq<String>, s: Set<Seq<char>>, n: Seq<char>)
    requires
        forall|m: Seq<char>| (exists|j: int| 0 <= j < names.len() && names[j]@ == m) <==> s.contains(m),
    ensures
        (exists|j: int| 0 <= j < names.len() && names[j]@ == n) == s.contains(n),
{
}

/// Formal verification coverage of a crate, from the text of its source files.
///
/// Every `pub fn` whose doc comment opens a Hoare triple (`/// {`) is looked
/// up among the functions called inside `#[kani::proof]` harnesses, in any of
/// the files. A name declared more than once keeps the location of its last
/// declaration.
pub fn check_coverage(files: &Vec<SourceFile>) -> (report: CoverageReport)
    requires
        forall|i: int| 0 <= i < files@.len() ==> #[trigger] files@[i].content@.len() <= isize::MAX,
    ensures
        report.total == registry(files@, files@.len()).len(),
        views(report.covered@) == covered_of(
            registry(files@, files@.len()),
            proven_names(files@, files@.len()),
        ),
        decls_of(report.missing@) == missing_of(
            registry(files@, files@.len()),
            proven_names(files@, files@.len()),
        ),
        report.total == report.covered@.len() + report.missing@.len(),
{
    // 1. The documented `pub fn`, with their latest location.
    let mut reg: Vec<MissingProof> = Vec::new();
    let mut i: usize = 0;
    assert(decls_of(reg@) =~= Seq::<Decl>::empty());
    while i < files.len()
        invariant
            i <= files@.len(),
            decls_of(reg@) == registry(files@, i as nat),
        decreases files@.len() - i,
    {
        let lines = split_lines(files[i].content.as_str());
        scan_declarations(&mut reg, &files[i].path, &lines);
        i = i + 1;
    }
    // 2. The names called inside harnesses.
    let mut proven: Vec<String> = Vec::new();
    let mut i: usize = 0;
    while i < files.len()
        invariant
            i <= files@.len(),
            forall|i: int| 0 <= i < files@.len() ==> #[trigger] files@[i].content@.len() <= isize::MAX,
            forall|n: Seq<char>|
                names_contain(proven@, n) <==> proven_names(
                    files@,
                    i as nat,
                ).contains(n),
        decreases files@.len() - i,
    {
        let lines = split_lines(files[i].content.as_str());
        proof {
            lemma_lines_total(files@[i as int].content@);
        }
        scan_harnesses(&mut proven, &lines, Ghost(files@[i as int].content@.len()));
        i = i + 1;
    }
    // 3. The report.
    let ghost reg_v = decls_of(reg@);
    let ghost proven_set = proven_names(files@, files@.len());
    let total = reg.len();
    let mut covered: Vec<String> = Vec::new();
    let mut missing: Vec<MissingProof> = Vec::new();
    let mut k: usize = 0;
    while k < reg.len()
        invariant
            k <= reg@.len(),
            reg_v == decls_of(reg@),
            forall|n: Seq<char>|
                names_contain(proven@, n) <==> proven_set.contains(
                    n,
                ),
            views(covered@) == covered_of(reg_v.take(k as int), proven_set),
            decls_of(missing@) == missing_of(reg_v.take(k as int), proven_set),
            covered@.len() + missing@.len() == k,
        decreases reg@.len() - k,
    {
        let entry = &reg[k];
        assert(reg_v.take(k + 1).drop_last() == reg_v.take(k as int));
        assert(reg_v[k as int] == entry.view_decl());
        proof {
            lemma_has_name_set(proven@, proven_set, entry.function@);
        }
        if has_name(&proven, &entry.function) {
            let ghost before = covered@;
            covered.push(entry.function.clone());
            assert(views(covered@) =~= views(before).push(entry.function@));
        } else {
            let ghost before = missing@;
            missing.push(
                MissingProof {
                    file: entry.file.clone(),
                    line: entry.line,
                    function: entry.function.clone(),
                },
            );
            assert(decls_of(missing@) =~= decls_of(before).push(entry.view_decl()));
        }
        k = k + 1;
    }
    assert(reg_v.take(k as int) == reg_v);
    CoverageReport { missing, covered, total }
}

/// The directories to scan for a crate: its `src` directory when that
/// exists; else the workspace's source directories when they could be found
/// and are not empty; else the crate root itself.
pub fn resolve_scan_dirs(
    src_dir: String,
    src_exists: bool,
    workspace_dirs: Option<Vec<String>>,
    crate_root: String,
) -> (dirs: Vec<String>)
    ensures
        src_exists ==> dirs@ == seq![src_dir],
        !src_exists ==> match workspace_dirs {
            Some(w) => if w@.len() > 0 {
                dirs@ == w@
            } else {
                dirs@ == seq![crate_root]
            },
            None => dirs@ == seq![crate_root],
        },
{
    if src_exists {
        let mut v = Vec::new();
        v.push(src_dir);
        return v;
    }
    match workspace_dirs {
        Some(w) => {
            if w.len() > 0 {
                return w;
            }
        },
        None => {},
    }
    let mut v = Vec::new();
    v.push(crate_root);
    v
}

/// No two entries of `reg` share a name.
pub open spec fn names_distinct(reg: Seq<Decl>) -> bool {
    forall|i: int, j: int| 0 <= i < j < reg.len() ==> #[trigger] reg[i].0 != #[trigger] reg[j].0
}

proof fn lemma_upsert_distinct(reg: Seq<Decl>, d: Decl)
    requires
        names_distinct(reg),
    ensures
        names_distinct(upsert(reg, d)),
{
    lemma_find_name_bounds(reg, d.0);
    let r2 = upsert(reg, d);
    match find_name(reg, d.0) {
        Some(k) => {
            assert forall|i: int, j: int| 0 <= i < j < r2.len() implies #[trigger] r2[i].0
                != #[trigger] r2[j].0 by {
                assert(r2[i].0 == reg[i].0);
                assert(r2[j].0 == reg[j].0);
            }
        },
        None => {
            assert forall|i: int, j: int| 0 <= i < j < r2.len() implies #[trigger] r2[i].0
                != #[trigger] r2[j].0 by {
                if j == reg.len() {
                    assert(reg[i].0 != d.0);
                } else {
                    assert(r2[i] == reg[i]);
                    assert(r2[j] == reg[j]);
                }
            }
        },
    }
}

proof fn lemma_file_decls_distinct(reg: Seq<Decl>, path: Seq<char>, lines: Seq<Seq<char>>, n: nat)
    requires
        names_distinct(reg),
    ensures
        names_distinct(file_decls(reg, path, lines, n)),
    decreases n,
{
    if n > 0 {
        lemma_file_decls_distinct(reg, path, lines, (n - 1) as nat);
        let prev = file_decls(reg, path, lines, (n - 1) as nat);
        if is_documented_pub_fn(lines, n - 1) {
            lemma_upsert_distinct(prev, (declared_fn_name(lines[n - 1]), path, n));
        }
    }
}

proof fn lemma_registry_distinct(files: Seq<SourceFile>, n: nat)
    ensures
        names_distinct(registry(files, n)),
    decreases n,
{
    if n > 0 && n <= files.len() {
        lemma_registry_distinct(files, (n - 1) as nat);
        let f = files[n - 1];
        let lines = lines_of(f.content@);
        lemma_file_decls_distinct(registry(files, (n - 1) as nat), f.path@, lines, lines.len());
    }
}

proof fn lemma_split_sound(reg: Seq<Decl>, proven: Set<Seq<char>>)
    ensures
        covered_of(reg, proven).len() + missing_of(reg, proven).len() == reg.len(),
        forall|i: int| 0 <= i < covered_of(reg, proven).len() ==> proven.contains(
            #[trigger] covered_of(reg, proven)[i],
        ) && exists|j: int| 0 <= j < reg.len() && reg[j].0 == covered_of(reg, proven)[i],
        forall|i: int| 0 <= i < missing_of(reg, proven).len() ==> !proven.contains(
            #[trigger] missing_of(reg, proven)[i].0,
        ) && exists|j: int| 0 <= j < reg.len() && reg[j] == missing_of(reg, proven)[i],
    decreases reg.len(),
{
    if reg.len() > 0 {
        let r = reg.drop_last();
        lemma_split_sound(r, proven);
        let c = covered_of(reg, proven);
        let m = missing_of(reg, proven);
        assert forall|i: int| 0 <= i < c.len() implies proven.contains(#[trigger] c[i]) && exists|
            j: int,
        | 0 <= j < reg.len() && reg[j].0 == c[i] by {
            if i < covered_of(r, proven).len() {
                let j = choose|j: int| 0 <= j < r.len() && r[j].0 == covered_of(r, proven)[i];
                assert(reg[j] == r[j]);
            } else {
                assert(reg[reg.len() - 1].0 == c[i]);
            }
        }
        assert forall|i: int| 0 <= i < m.len() implies !proven.contains(#[trigger] m[i].0) && exists|
            j: int,
        | 0 <= j < reg.len() && reg[j] == m[i] by {
            if i < missing_of(r, proven).len() {
                assert(!proven.contains(missing_of(r, proven)[i].0));
                let j = choose|j: int| 0 <= j < r.len() && r[j] == missing_of(r, proven)[i];
                assert(reg[j] == r[j]);
            } else {
                assert(reg[reg.len() - 1] == m[i]);
            }
        }
    }
}

/// The coverage report partitions the documented functions: each is reported
/// once, as covered when some harness calls it and as missing otherwise, and
/// no name is reported twice.
pub proof fn law_coverage_partition(files: Seq<SourceFile>)
    ensures
        ({
            let reg = registry(files, files.len());
            let proven = proven_names(files, files.len());
            let covered = covered_of(reg, proven);
            let missing = missing_of(reg, proven);
            &&& names_distinct(reg)
            &&& covered.len() + missing.len() == reg.len()
            &&& forall|i: int| 0 <= i < covered.len() ==> proven.contains(#[trigger] covered[i])
            &&& forall|i: int| 0 <= i < missing.len() ==> !proven.contains(#[trigger] missing[i].0)
            &&& forall|i: int|
                0 <= i < covered.len() ==> exists|j: int|
                    0 <= j < reg.len() && reg[j].0 == #[trigger] covered[i]
            &&& forall|i: int|
                0 <= i < missing.len() ==> exists|j: int| 0 <= j < reg.len() && reg[j] == #[trigger] missing[i]
        }),
{
    lemma_registry_distinct(files, files.len());
    lemma_split_sound(registry(files, files.len()), proven_names(files, files.len()));
}

/// Where `name` was last declared, documented, among the first `n` lines of
/// one file: that file and the 1-based line.
pub open spec fn last_decl_in_file(path: Seq<char>, lines: Seq<Seq<char>>, n: nat, name: Seq<
    char,
>) -> Option<(Seq<char>, nat)>
    decreases n,
{
    if n == 0 {
        None
    } else if is_documented_pub_fn(lines, n - 1) && declared_fn_name(lines[n - 1]) == name {
        Some((path, n))
    } else {
        last_decl_in_file(path, lines, (n - 1) as nat, name)
    }
}

/// Where `name` was last declared, documented, in the first `k` files.
pub open spec fn last_decl(files: Seq<SourceFile>, k: nat, name: Seq<char>) -> Option<(Seq<char>, nat)>
    decreases k,
{
    if k == 0 || k > files.len() {
        None
    } else {
        let f = files[k - 1];
        let lines = lines_of(f.content@);
        match last_decl_in_file(f.path@, lines, lines.len(), name) {
            Some(x) => Some(x),
            None => last_decl(files, (k - 1) as nat, name),
        }
    }
}

/// The last declaration of `name` over the first `k` files and the first `n`
/// lines of the next one.
pub open spec fn last_decl_so_far(
    files: Seq<SourceFile>,
    k: nat,
    path: Seq<char>,
    lines: Seq<Seq<char>>,
    n: nat,
    name: Seq<char>,
) -> Option<(Seq<char>, nat)> {
    match last_decl_in_file(path, lines, n, name) {
        Some(x) => Some(x),
        None => last_decl(files, k, name),
    }
}

/// `reg` holds exactly the names declared so far, each with its last location.
pub open spec fn tracks(
    reg: Seq<Decl>,
    files: Seq<SourceFile>,
    k: nat,
    path: Seq<char>,
    lines: Seq<Seq<char>>,
    n: nat,
) -> bool {
    &&& forall|i: int|
        0 <= i < reg.len() ==> last_decl_so_far(files, k, path, lines, n, #[trigger] reg[i].0) == Some(
            (reg[i].1, reg[i].2),
        )
    &&& forall|name: Seq<char>|
        #![trigger last_decl_so_far(files, k, path, lines, n, name)]
        last_decl_so_far(files, k, path, lines, n, name) is Some ==> exists|i: int|
            0 <= i < reg.len() && reg[i].0 == name
}

proof fn lemma_file_decls_track(
    files: Seq<SourceFile>,
    k: nat,
    path: Seq<char>,
    lines: Seq<Seq<char>>,
    n: nat,
)
    requires
        names_distinct(registry(files, k)),
        tracks(registry(files, k), files, k, path, lines, 0),
    ensures
        tracks(file_decls(registry(files, k), path, lines, n), files, k, path, lines, n),
    decreases n,
{
    if n > 0 {
        let base = registry(files, k);
        lemma_file_decls_track(files, k, path, lines, (n - 1) as nat);
        lemma_file_decls_distinct(base, path, lines, (n - 1) as nat);
        let prev = file_decls(base, path, lines, (n - 1) as nat);
        let m = (n - 1) as nat;
        if is_documented_pub_fn(lines, n - 1) {
            let nm = declared_fn_name(lines[n - 1]);
            let d = (nm, path, n);
            let cur = upsert(prev, d);
            lemma_find_name_bounds(prev, nm);
            assert forall|i: int| 0 <= i < cur.len() implies last_decl_so_far(
                files,
                k,
                path,
                lines,
                n,
                #[trigger] cur[i].0,
            ) == Some((cur[i].1, cur[i].2)) by {
                if cur[i].0 != nm {
                    assert(cur[i] == prev[i]);
                    assert(last_decl_so_far(files, k, path, lines, m, prev[i].0) == Some(
                        (prev[i].1, prev[i].2),
                    ));
                }
            }
            assert forall|name: Seq<char>|
                #![trigger last_decl_so_far(files, k, path, lines, n, name)]
                last_decl_so_far(files, k, path, lines, n, name) is Some implies exists|i: int|
                    0 <= i < cur.len() && cur[i].0 == name by {
                if name == nm {
                    match find_name(prev, nm) {
                        Some(j) => {
                            assert(cur[j as int].0 == name);
                        },
                        None => {
                            assert(cur[prev.len() as int].0 == name);
                        },
                    }
                } else {
                    assert(last_decl_so_far(files, k, path, lines, m, name) is Some);
                    let j = choose|j: int| 0 <= j < prev.len() && prev[j].0 == name;
                    assert(cur[j].0 == name);
                }
            }
        } else {
            assert forall|i: int| 0 <= i < prev.len() implies last_decl_so_far(
                files,
                k,
                path,
                lines,
                n,
                #[trigger] prev[i].0,
            ) == Some((prev[i].1, prev[i].2)) by {
                assert(last_decl_so_far(files, k, path, lines, m, prev[i].0) == Some(
                    (prev[i].1, prev[i].2),
                ));
            }
            assert forall|name: Seq<char>|
                #![trigger last_decl_so_far(files, k, path, lines, n, name)]
                last_decl_so_far(files, k, path, lines, n, name) is Some implies exists|i: int|
                    0 <= i < prev.len() && prev[i].0 == name by {
                assert(last_decl_so_far(files, k, path, lines, m, name) is Some);
            }
        }
    }
}

proof fn lemma_registry_tracks(files: Seq<SourceFile>, k: nat)
    requires
        k <= files.len(),
    ensures
        forall|i: int|
            0 <= i < registry(files, k).len() ==> last_decl(files, k, #[trigger] registry(files, k)[i].0)
                == Some((registry(files, k)[i].1, registry(files, k)[i].2)),
        forall|name: Seq<char>|
            #![trigger last_decl(files, k, name)]
            last_decl(files, k, name) is Some ==> exists|i: int|
                0 <= i < registry(files, k).len() && registry(files, k)[i].0 == name,
    decreases k,
{
    if k > 0 {
        let j = (k - 1) as nat;
        lemma_registry_tracks(files, j);
        lemma_registry_distinct(files, j);
        let f = files[k - 1];
        let lines = lines_of(f.content@);
        let base = registry(files, j);
        assert(tracks(base, files, j, f.path@, lines, 0)) by {
            assert forall|i: int| 0 <= i < base.len() implies last_decl_so_far(
                files,
                j,
                f.path@,
                lines,
                0,
                #[trigger] base[i].0,
            ) == Some((base[i].1, base[i].2)) by {
                assert(last_decl(files, j, base[i].0) == Some((base[i].1, base[i].2)));
            }
            assert forall|name: Seq<char>|
                #![trigger last_decl_so_far(files, j, f.path@, lines, 0, name)]
                last_decl_so_far(files, j, f.path@, lines, 0, name) is Some implies exists|i: int|
                    0 <= i < base.len() && base[i].0 == name by {
                assert(last_decl(files, j, name) is Some);
            }
        }
        lemma_file_decls_track(files, j, f.path@, lines, lines.len());
        let reg = registry(files, k);
        assert forall|i: int| 0 <= i < reg.len() implies last_decl(files, k, #[trigger] reg[i].0)
            == Some((reg[i].1, reg[i].2)) by {
            assert(last_decl_so_far(files, j, f.path@, lines, lines.len(), reg[i].0) == Some(
                (reg[i].1, reg[i].2),
            ));
        }
        assert forall|name: Seq<char>|
            #![trigger last_decl(files, k, name)]
            last_decl(files, k, name) is Some implies exists|i: int|
                0 <= i < reg.len() && reg[i].0 == name by {
            assert(last_decl_so_far(files, j, f.path@, lines, lines.len(), name) is Some);
        }
    }
}

/// Every documented `pub fn` of the files is reported, at the place of its
/// last documented declaration, and nothing else is.
pub proof fn law_coverage_reports_last_declarations(files: Seq<SourceFile>)
    ensures
        ({
            let reg = registry(files, files.len());
            &&& forall|i: int|
                0 <= i < reg.len() ==> last_decl(files, files.len(), #[trigger] reg[i].0) == Some(
                    (reg[i].1, reg[i].2),
                )
            &&& forall|name: Seq<char>|
                #![trigger last_decl(files, files.len(), name)]
                last_decl(files, files.len(), name) is Some ==> exists|i: int|
                    0 <= i < reg.len() && reg[i].0 == name
        }),
{
    lemma_registry_tracks(files, files.len());
}

/// The brace depth inside the harness whose `#[kani::proof]` line is `h`,
/// after its lines `h + 1` to `m`: each line adds its `{` and takes away its
/// `}`.
pub open spec fn harness_depth(lines: Seq<Seq<char>>, h: int, m: int) -> int
    decreases m - h,
{
    if m <= h {
        0
    } else {
        harness_depth(lines, h, m - 1) + count_char(trim(lines[m]), '{') - count_char(
            trim(lines[m]),
            '}',
        )
    }
}

proof fn lemma_harness_stays_open(lines: Seq<Seq<char>>, h: int, j: int, n: int)
    requires
        0 <= h < j < lines.len(),
        h + 1 <= n <= j,
        contains(lines[h], "#[kani::proof]"@),
        forall|m: int| h < m <= j ==> !contains(#[trigger] lines[m], "#[kani::proof]"@),
        forall|m: int| h < m < j ==> #[trigger] harness_depth(lines, h, m) > 0,
    ensures
        proof_scan(lines, n as nat).1,
        proof_scan(lines, n as nat).2 == harness_depth(lines, h, n - 1),
    decreases n,
{
    if n > h + 1 {
        lemma_harness_stays_open(lines, h, j, n - 1);
        assert(!contains(lines[n - 1], "#[kani::proof]"@));
        assert(harness_depth(lines, h, n - 1) > 0);
    }
}

proof fn lemma_scan_names_grow(lines: Seq<Seq<char>>, n: nat, big: nat)
    requires
        n <= big <= lines.len(),
    ensures
        proof_scan(lines, n).0.subset_of(proof_scan(lines, big).0),
    decreases big - n,
{
    if n < big {
        lemma_scan_names_grow(lines, n, (big - 1) as nat);
    }
}

proof fn lemma_proven_names_grow(files: Seq<SourceFile>, k: nat, big: nat)
    requires
        k < big <= files.len(),
    ensures
        ({
            let lines = lines_of(files[k as int].content@);
            proof_scan(lines, lines.len()).0.subset_of(proven_names(files, big))
        }),
    decreases big - k,
{
    if k + 1 < big {
        lemma_proven_names_grow(files, k, (big - 1) as nat);
    }
}

/// Inside a harness, the brace depth decides where it ends: while the
/// depth stays above 0 the harness is open, whatever lines (a lone `}`
/// closing a nested block among them) it holds. So every name called on a
/// line `j` of the harness opened at line `h`, before the harness's braces
/// have all been closed and before another `#[kani::proof]`, counts as
/// proven, in the file and for the whole crate.
pub proof fn law_calls_in_open_harness_are_proven(files: Seq<SourceFile>, k: int, h: int, j: int)
    requires
        0 <= k < files.len(),
        ({
            let lines = lines_of(files[k].content@);
            &&& 0 <= h < j < lines.len()
            &&& contains(lines[h], "#[kani::proof]"@)
            &&& forall|m: int| h < m <= j ==> !contains(#[trigger] lines[m], "#[kani::proof]"@)
            &&& forall|m: int| h < m < j ==> #[trigger] harness_depth(lines, h, m) > 0
        }),
    ensures
        ({
            let lines = lines_of(files[k].content@);
            &&& calls_on(lines[j]).subset_of(proof_scan(lines, lines.len()).0)
            &&& calls_on(lines[j]).subset_of(proven_names(files, files.len()))
        }),
{
    let lines = lines_of(files[k].content@);
    lemma_harness_stays_open(lines, h, j, j);
    assert(proof_scan(lines, (j + 1) as nat).0 == proof_scan(lines, j as nat).0 + calls_on(
        lines[j],
    ));
    lemma_scan_names_grow(lines, (j + 1) as nat, lines.len());
    lemma_proven_names_grow(files, k as nat, files.len());
}

/// The last `#[kani::proof]` line among the first `n` lines.
pub open spec fn last_harness_start(lines: Seq<Seq<char>>, n: int) -> Option<int>
    decreases n,
{
    if n <= 0 || n > lines.len() {
        None
    } else if contains(lines[n - 1], "#[kani::proof]"@) {
        Some(n - 1)
    } else {
        last_harness_start(lines, n - 1)
    }
}

/// Line `m` ends the harness opened at line `h`: it is a lone `}` that
/// brings the harness's brace depth to 0 or below.
pub open spec fn closes_harness(lines: Seq<Seq<char>>, h: int, m: int) -> bool {
    harness_depth(lines, h, m) <= 0 && trim(lines[m]) == "}"@
}

/// Line `j` belongs to the harness opened at line `h`: it comes after that
/// `#[kani::proof]` line with no other one in between (nor on line `j`),
/// and no line before it has ended the harness. The line that ends it
/// belongs to it.
pub open spec fn in_harness(lines: Seq<Seq<char>>, h: int, j: int) -> bool {
    &&& 0 <= h < j < lines.len()
    &&& contains(lines[h], "#[kani::proof]"@)
    &&& forall|m: int| h < m <= j ==> !contains(#[trigger] lines[m], "#[kani::proof]"@)
    &&& forall|m: int| h < m < j ==> !#[trigger] closes_harness(lines, h, m)
}

proof fn lemma_last_start_props(lines: Seq<Seq<char>>, n: int)
    requires
        0 <= n <= lines.len(),
    ensures
        last_harness_start(lines, n) matches Some(h) ==> 0 <= h < n && contains(
            lines[h],
            "#[kani::proof]"@,
        ) && forall|m: int| h < m < n ==> !contains(#[trigger] lines[m], "#[kani::proof]"@),
    decreases n,
{
    if n > 0 {
        lemma_last_start_props(lines, n - 1);
    }
}

proof fn lemma_last_start_is(lines: Seq<Seq<char>>, h: int, n: int)
    requires
        0 <= h < n <= lines.len(),
        contains(lines[h], "#[kani::proof]"@),
        forall|m: int| h < m < n ==> !contains(#[trigger] lines[m], "#[kani::proof]"@),
    ensures
        last_harness_start(lines, n) == Some(h),
    decreases n,
{
    if n > h + 1 {
        assert(!contains(lines[n - 1], "#[kani::proof]"@));
        lemma_last_start_is(lines, h, n - 1);
    }
}

/// What the scan knows after `n` lines, in terms of the harnesses.
proof fn lemma_scan_state(lines: Seq<Seq<char>>, n: int)
    requires
        0 <= n <= lines.len(),
    ensures
        proof_scan(lines, n as nat).1 <==> (last_harness_start(lines, n) matches Some(h) && forall|
            m: int,
        | h < m < n ==> !#[trigger] closes_harness(lines, h, m)),
        proof_scan(lines, n as nat).1 ==> proof_scan(lines, n as nat).2 == harness_depth(
            lines,
            last_harness_start(lines, n)->0,
            n - 1,
        ),
        forall|x: Seq<char>|
            #![trigger proof_scan(lines, n as nat).0.contains(x)]
            proof_scan(lines, n as nat).0.contains(x) <==> exists|h: int, j: int|
                j < n && #[trigger] in_harness(lines, h, j) && calls_on(lines[j]).contains(x),
    decreases n,
{
    if n > 0 {
        let k = n - 1;
        lemma_scan_state(lines, k);
        lemma_last_start_props(lines, k);
        lemma_last_start_props(lines, n);
        let line = lines[k];
        let prev = proof_scan(lines, k as nat);
        let now = proof_scan(lines, n as nat);
        if contains(line, "#[kani::proof]"@) {
            assert(last_harness_start(lines, n) == Some(k));
            assert forall|x: Seq<char>| #![trigger now.0.contains(x)]
                now.0.contains(x) <== exists|h: int, j: int|
                    j < n && #[trigger] in_harness(lines, h, j) && calls_on(lines[j]).contains(x) by {
                if exists|h: int, j: int|
                    j < n && #[trigger] in_harness(lines, h, j) && calls_on(lines[j]).contains(x) {
                    let (h, j) = choose|h: int, j: int|
                        j < n && #[trigger] in_harness(lines, h, j) && calls_on(lines[j]).contains(x);
                    assert(j != k);
                }
            }
        } else {
            assert(last_harness_start(lines, n) == last_harness_start(lines, k));
            if prev.1 {
                let h = last_harness_start(lines, k)->0;
                assert(in_harness(lines, h, k));
                assert(now.2 == harness_depth(lines, h, k));
                assert(now.1 == !closes_harness(lines, h, k));
                if now.1 {
                    assert forall|m: int| h < m < n implies !#[trigger] closes_harness(lines, h, m) by {
                        if m < k {
                        }
                    }
                }
                assert forall|x: Seq<char>| #![trigger now.0.contains(x)]
                    now.0.contains(x) <==> exists|h2: int, j: int|
                        j < n && #[trigger] in_harness(lines, h2, j) && calls_on(lines[j]).contains(x) by {
                    if now.0.contains(x) && !prev.0.contains(x) {
                        assert(calls_on(line).contains(x));
                        assert(in_harness(lines, h, k) && calls_on(lines[k]).contains(x));
                    }
                    if exists|h2: int, j: int|
                        j < n && #[trigger] in_harness(lines, h2, j) && calls_on(lines[j]).contains(x) {
                        let (h2, j) = choose|h2: int, j: int|
                            j < n && #[trigger] in_harness(lines, h2, j) && calls_on(
                                lines[j],
                            ).contains(x);
                        if j < k {
                            assert(prev.0.contains(x));
                        }
                    }
                }
            } else {
                assert forall|x: Seq<char>| #![trigger now.0.contains(x)]
                    now.0.contains(x) <==> exists|h2: int, j: int|
                        j < n && #[trigger] in_harness(lines, h2, j) && calls_on(lines[j]).contains(x) by {
                    if exists|h2: int, j: int|
                        j < n && #[trigger] in_harness(lines, h2, j) && calls_on(lines[j]).contains(x) {
                        let (h2, j) = choose|h2: int, j: int|
                            j < n && #[trigger] in_harness(lines, h2, j) && calls_on(
                                lines[j],
                            ).contains(x);
                        if j == k {
                            lemma_last_start_is(lines, h2, k);
                            assert(forall|m: int| h2 < m < k ==> !#[trigger] closes_harness(lines, h2, m));
                            assert(false);
                        }
                    }
                }
                if last_harness_start(lines, n) is Some {
                    let h = last_harness_start(lines, n)->0;
                    if forall|m: int| h < m < n ==> !#[trigger] closes_harness(lines, h, m) {
                        assert(forall|m: int| h < m < k ==> !#[trigger] closes_harness(lines, h, m));
                    }
                }
            }
        }
    }
}

/// The names the harness scan counts as proven are exactly those called on
/// the lines of harnesses: a harness runs from the line after its
/// `#[kani::proof]` to the lone `}` that brings its brace depth back to 0 or
/// below (that line included), or to the next `#[kani::proof]`, or to the
/// end of the file. A `}` that closes a nested block while the depth stays
/// above 0 does not end it, and calls after a harness has ended do not count.
pub proof fn law_proven_names_are_the_harness_calls(lines: Seq<Seq<char>>, x: Seq<char>)
    ensures
        proof_scan(lines, lines.len()).0.contains(x) <==> exists|h: int, j: int|
            #[trigger] in_harness(lines, h, j) && calls_on(lines[j]).contains(x),
{
    lemma_scan_state(lines, lines.len() as int);
}

} // verus!
