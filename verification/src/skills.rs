//! Project skills: their names, and the `SKILL.md` a new one starts from.
use vstd::prelude::*;

use crate::text::{
    chars_of, contains, contains_chars, ends_with, has_char, has_char_exec, occurs_at_exec,
    push_char, replace_all, replace_str, starts_with, starts_with_chars,
};

verus! {

/// The text a new skill's `SKILL.md` starts from.
pub const SKILL_TEMPLATE: &'static str = r#"---
name: {name}
version: 1.0.0
description: |
  {description}
---

# {title}

## When to Use

Describe the scenarios where this skill should be used.

## Steps

1. First, do this
2. Then, do that

## Examples

```rust
// Example code
```
"#;

/// Why a skill name was refused.
#[derive(PartialEq, Eq, Structural, Clone, Copy, Debug)]
pub enum SkillNameError {
    Empty,
    PathLike,
    InvalidCharacters,
    HyphenAtEdge,
    ConsecutiveHyphens,
}

impl SkillNameError {
    /// The message shown for this error.
    pub fn message(&self) -> (s: String)
        ensures
            s@ == skill_error_message(*self),
    {
        match self {
            SkillNameError::Empty => String::from_str("Skill name cannot be empty"),
            SkillNameError::PathLike => String::from_str(
                "Skill name cannot contain path separators, parent directory references, or leading dots",
            ),
            SkillNameError::InvalidCharacters => String::from_str(
                "Skill name must match ^[a-z0-9-]+$",
            ),
            SkillNameError::HyphenAtEdge => String::from_str(
                "Skill name must not start or end with a hyphen",
            ),
            SkillNameError::ConsecutiveHyphens => String::from_str(
                "Skill name must not contain consecutive hyphens",
            ),
        }
    }
}

pub open spec fn skill_error_message(e: SkillNameError) -> Seq<char> {
    match e {
        SkillNameError::Empty => "Skill name cannot be empty"@,
        SkillNameError::PathLike =>
            "Skill name cannot contain path separators, parent directory references, or leading dots"@,
        SkillNameError::InvalidCharacters => "Skill name must match ^[a-z0-9-]+$"@,
        SkillNameError::HyphenAtEdge => "Skill name must not start or end with a hyphen"@,
        SkillNameError::ConsecutiveHyphens => "Skill name must not contain consecutive hyphens"@,
    }
}

/// A name that could walk out of the skills directory.
pub open spec fn is_path_like(n: Seq<char>) -> bool {
    ||| starts_with(n, "."@)
    ||| has_char(n, '/')
    ||| has_char(n, '\\')
    ||| contains(n, ".."@)
}

/// A character allowed in a skill name: `[a-z0-9-]`.
pub open spec fn is_name_char(c: char) -> bool {
    ('a' <= c <= 'z') || ('0' <= c <= '9') || c == '-'
}

pub open spec fn all_name_chars(n: Seq<char>) -> bool {
    forall|i: int| 0 <= i < n.len() ==> is_name_char(#[trigger] n[i])
}

/// The verdict on a proposed skill name; the first rule broken decides.
pub open spec fn check_skill_name(n: Seq<char>) -> Result<(), SkillNameError> {
    if n.len() == 0 {
        Err(SkillNameError::Empty)
    } else if is_path_like(n) {
        Err(SkillNameError::PathLike)
    } else if !all_name_chars(n) {
        Err(SkillNameError::InvalidCharacters)
    } else if starts_with(n, "-"@) || ends_with(n, "-"@) {
        Err(SkillNameError::HyphenAtEdge)
    } else if contains(n, "--"@) {
        Err(SkillNameError::ConsecutiveHyphens)
    } else {
        Ok(())
    }
}

/// A validated skill name.
pub struct SkillName(String);

impl View for SkillName {
    type V = Seq<char>;

    closed spec fn view(&self) -> Seq<char> {
        self.0@
    }
}

impl SkillName {
    /// Accepts `name` when it is a non-empty `[a-z0-9-]+` with no hyphen at
    /// either end and no two hyphens in a row; path-like names are refused first.
    pub fn new(name: &str) -> (r: Result<SkillName, SkillNameError>)
        ensures
            match r {
                Ok(s) => check_skill_name(name@) is Ok && s@ == name@,
                Err(e) => check_skill_name(name@) == Err::<(), SkillNameError>(e),
            },
    {
        let n = chars_of(name);
        if n.len() == 0 {
            return Err(SkillNameError::Empty);
        }
        if starts_with_chars(&n, &chars_of(".")) || has_char_exec(&n, '/') || has_char_exec(
            &n,
            '\\',
        ) || contains_chars(&n, &chars_of("..")) {
            return Err(SkillNameError::PathLike);
        }
        let mut i: usize = 0;
        while i < n.len()
            invariant
                i <= n@.len(),
                n@ == name@,
                n@.len() > 0,
                !is_path_like(n@),
                forall|j: int| 0 <= j < i ==> is_name_char(#[trigger] n@[j]),
            decreases n@.len() - i,
        {
            let c = n[i];
            if !(('a' <= c && c <= 'z') || ('0' <= c && c <= '9') || c == '-') {
                assert(!is_name_char(n@[i as int]));
                return Err(SkillNameError::InvalidCharacters);
            }
            i = i + 1;
        }
        let hyphen = chars_of("-");
        let ends = n.len() >= hyphen.len() && occurs_at_exec(&n, &hyphen, n.len() - hyphen.len());
        if starts_with_chars(&n, &hyphen) || ends {
            return Err(SkillNameError::HyphenAtEdge);
        }
        if contains_chars(&n, &chars_of("--")) {
            return Err(SkillNameError::ConsecutiveHyphens);
        }
        Ok(SkillName(String::from_str(name)))
    }

    pub fn as_str(&self) -> (s: &str)
        ensures
            s@ == self@,
    {
        self.0.as_str()
    }
}

/// What `char::to_uppercase` yields for `c`.
pub uninterp spec fn char_uppercase(c: char) -> Seq<char>;

/// `char::to_uppercase`, collected into a string. An ASCII lower-case letter
/// maps to its upper-case letter, and every other ASCII character to itself.
#[verifier::external_body]
fn uppercase_of(c: char) -> (r: String)
    ensures
        r@ == char_uppercase(c),
        'a' <= c <= 'z' ==> r@ == seq![((c as u32) - 32) as char],
        (c as u32) < 128 && !('a' <= c <= 'z') ==> r@ == seq![c],
{
    c.to_uppercase().collect()
}

/// The pieces of `s` between hyphens (`str::split('-')`); there is always at
/// least one, possibly empty.
pub open spec fn dash_split(s: Seq<char>) -> Seq<Seq<char>>
    decreases s.len(),
{
    if s.len() == 0 {
        seq![Seq::empty()]
    } else {
        let w = dash_split(s.drop_last());
        if s.last() == '-' {
            w.push(Seq::empty())
        } else {
            w.update(w.len() - 1, w.last().push(s.last()))
        }
    }
}

/// A word with its first character upper-cased.
pub open spec fn capitalize(w: Seq<char>) -> Seq<char> {
    if w.len() == 0 {
        Seq::empty()
    } else {
        char_uppercase(w[0]) + w.drop_first()
    }
}

/// The capitalized words joined by single spaces.
pub open spec fn join_capitalized(ws: Seq<Seq<char>>) -> Seq<char>
    decreases ws.len(),
{
    if ws.len() == 0 {
        Seq::empty()
    } else if ws.len() == 1 {
        capitalize(ws[0])
    } else {
        join_capitalized(ws.drop_last()) + " "@ + capitalize(ws.last())
    }
}

/// `my-skill-name` becomes `My Skill Name`.
pub open spec fn title_case(s: Seq<char>) -> Seq<char> {
    join_capitalized(dash_split(s))
}

proof fn lemma_dash_split_nonempty(s: Seq<char>)
    ensures
        dash_split(s).len() >= 1,
    decreases s.len(),
{
    if s.len() > 0 {
        lemma_dash_split_nonempty(s.drop_last());
    }
}

/// Every character of `s` is ASCII.
pub open spec fn all_ascii(s: Seq<char>) -> bool {
    forall|i: int| 0 <= i < s.len() ==> (s[i] as u32) < 128
}

/// The ASCII upper-case of `c`: a lower-case letter becomes its capital, any
/// other character stays.
pub open spec fn ascii_upper(c: char) -> char {
    if 'a' <= c <= 'z' {
        ((c as u32) - 32) as char
    } else {
        c
    }
}

/// Title case of ASCII text, character by character: the length is kept,
/// each hyphen becomes a space, the first character of each word (at the
/// start or after a hyphen) is upper-cased and the rest stay.
pub open spec fn ascii_title_case(s: Seq<char>) -> Seq<char> {
    Seq::new(
        s.len(),
        |i: int|
            if s[i] == '-' {
                ' '
            } else if i == 0 || s[i - 1] == '-' {
                ascii_upper(s[i])
            } else {
                s[i]
            },
    )
}

/// Title case of a hyphenated name: each hyphen becomes a space and the first
/// character of each piece is upper-cased.
pub fn to_title_case(s: &str) -> (r: String)
    ensures
        r@ == title_case(s@),
        all_ascii(s@) ==> r@ == ascii_title_case(s@),
{
    let cs = chars_of(s);
    let mut out = String::new();
    let mut at_start = true;
    let mut i: usize = 0;
    while i < cs.len()
        invariant
            i <= cs@.len(),
            cs@ == s@,
            dash_split(cs@.take(i as int)).len() >= 1,
            out@ == join_capitalized(dash_split(cs@.take(i as int))),
            at_start == (dash_split(cs@.take(i as int)).last().len() == 0),
            at_start == (i == 0 || cs@[i - 1] == '-'),
            all_ascii(cs@.take(i as int)) ==> out@ == ascii_title_case(cs@.take(i as int)),
        decreases cs@.len() - i,
    {
        let ghost out0 = out@;
        let ghost t0 = cs@.take(i as int);
        let ghost t1 = cs@.take(i + 1);
        let ghost ws = dash_split(cs@.take(i as int));
        let c = cs[i];
        assert(cs@.take(i + 1).drop_last() == cs@.take(i as int));
        assert(cs@.take(i + 1).last() == c);
        if c == '-' {
            let ghost ws2 = ws.push(Seq::empty());
            assert(ws2.drop_last() == ws);
            push_char(&mut out, ' ');
            assert(" "@ == seq![' ']) by {
                reveal_strlit(" ");
            }
            assert(capitalize(Seq::<char>::empty()) == Seq::<char>::empty());
            assert(out@ == join_capitalized(ws) + " "@ + capitalize(Seq::empty()));
            at_start = true;
        } else {
            let ghost w = ws.last();
            let ghost ws2 = ws.update(ws.len() - 1, w.push(c));
            assert(ws2.drop_last() == ws.drop_last());
            assert(ws2.last() == w.push(c));
            if at_start {
                let up = uppercase_of(c);
                assert(capitalize(w.push(c)) == char_uppercase(c)) by {
                    assert(w.push(c)[0] == c);
                    assert(w.push(c).drop_first().len() == 0);
                    assert(char_uppercase(c) + Seq::<char>::empty() == char_uppercase(c));
                }
                out.append(up.as_str());
                at_start = false;
            } else {
                assert(capitalize(w.push(c)) == capitalize(w).push(c)) by {
                    assert(w.push(c)[0] == w[0]);
                    assert(w.push(c).drop_first() == w.drop_first().push(c));
                }
                push_char(&mut out, c);
            }
            proof {
                if ws.len() > 1 {
                    assert(join_capitalized(ws) == join_capitalized(ws.drop_last()) + " "@
                        + capitalize(w));
                }
            }
        }
        proof {
            if all_ascii(t1) {
                assert(t1[i as int] == c);
                assert(all_ascii(t0)) by {
                    assert forall|j: int| 0 <= j < t0.len() implies (t0[j] as u32) < 128 by {
                        assert(t0[j] == t1[j]);
                    }
                }
                assert(out@ == out0.push(ascii_title_case(t1)[i as int]));
                assert(ascii_title_case(t1) =~= ascii_title_case(t0).push(
                    ascii_title_case(t1)[i as int],
                ));
            }
        }
        i = i + 1;
    }
    assert(cs@.take(cs@.len() as int) == cs@);
    out
}

/// The files a new skill is made of.
pub struct SkillFiles {
    /// `.kimi/skills/<name>`
    pub dir: String,
    /// `.kimi/skills/<name>/SKILL.md`
    pub path: String,
    /// The text of `SKILL.md`.
    pub content: String,
}

/// The description used when none is given.
pub open spec fn default_description() -> Seq<char> {
    "TODO: describe what this skill does"@
}

/// The text of a new skill's `SKILL.md`: the template with `{name}`, then
/// `{description}`, then `{title}` replaced, in that order.
pub open spec fn skill_content(name: Seq<char>, description: Seq<char>) -> Seq<char> {
    replace_all(
        replace_all(replace_all(SKILL_TEMPLATE@, "{name}"@, name), "{description}"@, description),
        "{title}"@,
        title_case(name),
    )
}

/// Where a new skill goes and what its `SKILL.md` says.
pub fn skill_files(name: &SkillName, description: Option<&str>) -> (f: SkillFiles)
    ensures
        f.dir@ == ".kimi/skills/"@ + name@,
        f.path@ == ".kimi/skills/"@ + name@ + "/SKILL.md"@,
        f.content@ == skill_content(
            name@,
            match description {
                Some(d) => d@,
                None => default_description(),
            },
        ),
{
    let mut dir = String::from_str(".kimi/skills/");
    dir.append(name.as_str());
    let mut path = dir.clone();
    path.append("/SKILL.md");
    let desc = match description {
        Some(d) => d,
        None => "TODO: describe what this skill does",
    };
    let title = to_title_case(name.as_str());
    proof {
        reveal_strlit("{name}");
        reveal_strlit("{description}");
        reveal_strlit("{title}");
    }
    let step1 = replace_str(SKILL_TEMPLATE, "{name}", name.as_str());
    let step2 = replace_str(step1.as_str(), "{description}", desc);
    let content = replace_str(step2.as_str(), "{title}", title.as_str());
    SkillFiles { dir, path, content }
}

/// An accepted skill name is a single plain path segment: non-empty, made of
/// `[a-z0-9-]`, with no separator, no `..`, no leading dot or hyphen, no
/// trailing hyphen and no double hyphen. So the skill's directory is a direct
/// child of `.kimi/skills`.
pub proof fn law_skill_names_are_plain(n: Seq<char>)
    requires
        check_skill_name(n) is Ok,
    ensures
        n.len() > 0,
        all_name_chars(n),
        !has_char(n, '/'),
        !has_char(n, '\\'),
        !contains(n, ".."@),
        !starts_with(n, "."@),
        !starts_with(n, "-"@),
        !ends_with(n, "-"@),
        !contains(n, "--"@),
{
}

/// A name is accepted exactly when it is non-empty, each of its characters
/// is an ASCII lower-case letter (`a` to `z`), an ASCII digit (`0` to `9`)
/// or a hyphen, it neither starts nor ends with a hyphen, and no two hyphens
/// stand next to each other.
pub proof fn law_skill_name_accepted_exactly(n: Seq<char>)
    ensures
        check_skill_name(n) is Ok <==> {
            &&& n.len() > 0
            &&& forall|i: int|
                0 <= i < n.len() ==> ('a' <= #[trigger] n[i] <= 'z' || '0' <= n[i] <= '9' || n[i]
                    == '-')
            &&& n[0] != '-'
            &&& n[n.len() - 1] != '-'
            &&& forall|i: int| 0 <= i < n.len() - 1 ==> !(#[trigger] n[i] == '-' && n[i + 1] == '-')
        },
{
    reveal_strlit(".");
    reveal_strlit("..");
    reveal_strlit("-");
    reveal_strlit("--");
    let plain = n.len() > 0 && (forall|i: int|
        0 <= i < n.len() ==> ('a' <= #[trigger] n[i] <= 'z' || '0' <= n[i] <= '9' || n[i] == '-'))
        && n[0] != '-' && n[n.len() - 1] != '-' && (forall|i: int|
        0 <= i < n.len() - 1 ==> !(#[trigger] n[i] == '-' && n[i + 1] == '-'));
    if check_skill_name(n) is Ok {
        assert forall|i: int| 0 <= i < n.len() implies ('a' <= #[trigger] n[i] <= 'z' || '0' <= n[i]
            <= '9' || n[i] == '-') by {
            assert(is_name_char(n[i]));
        }
        assert(n[0] != '-') by {
            if n[0] == '-' {
                assert(n.subrange(0, 1) =~= "-"@);
            }
        }
        assert(n[n.len() - 1] != '-') by {
            if n[n.len() - 1] == '-' {
                assert(n.subrange(n.len() - 1, n.len() as int) =~= "-"@);
            }
        }
        assert forall|i: int| 0 <= i < n.len() - 1 implies !(#[trigger] n[i] == '-' && n[i + 1]
            == '-') by {
            if n[i] == '-' && n[i + 1] == '-' {
                assert(crate::text::occurs_at(n, "--"@, i)) by {
                    assert(n.subrange(i, i + 2) =~= "--"@);
                }
            }
        }
    }
    if plain {
        assert(!starts_with(n, "."@)) by {
            if starts_with(n, "."@) {
                assert(n.subrange(0, 1)[0] == n[0]);
            }
        }
        assert(!has_char(n, '/'));
        assert(!has_char(n, '\\'));
        assert(!contains(n, ".."@)) by {
            if contains(n, ".."@) {
                let k = choose|k: int| crate::text::occurs_at(n, ".."@, k);
                assert(n.subrange(k, k + 2)[0] == n[k]);
            }
        }
        assert(all_name_chars(n));
        assert(!starts_with(n, "-"@)) by {
            if starts_with(n, "-"@) {
                assert(n.subrange(0, 1)[0] == n[0]);
            }
        }
        assert(!ends_with(n, "-"@)) by {
            if ends_with(n, "-"@) {
                assert(n.subrange(n.len() - 1, n.len() as int)[0] == n[n.len() - 1]);
            }
        }
        assert(!contains(n, "--"@)) by {
            if contains(n, "--"@) {
                let k = choose|k: int| crate::text::occurs_at(n, "--"@, k);
                assert(n.subrange(k, k + 2)[0] == n[k]);
                assert(n.subrange(k, k + 2)[1] == n[k + 1]);
            }
        }
    }
}

/// The class `[a-z0-9-]` written out as its character ranges, in which the
/// laws below state the naming rules.
pub open spec fn in_name_class(c: char) -> bool {
    ('a' <= c <= 'z') || ('0' <= c <= '9') || c == '-'
}

proof fn lemma_path_like_chars(n: Seq<char>)
    ensures
        is_path_like(n) <==> (n.len() > 0 && (n[0] == '.' || (exists|i: int|
            0 <= i < n.len() && (#[trigger] n[i] == '/' || n[i] == '\\')) || (exists|i: int|
            0 <= i < n.len() - 1 && #[trigger] n[i] == '.' && n[i + 1] == '.'))),
{
    reveal_strlit(".");
    reveal_strlit("..");
    if starts_with(n, "."@) {
        assert(n.subrange(0, 1)[0] == n[0]);
    }
    if contains(n, ".."@) {
        let k = choose|k: int| crate::text::occurs_at(n, ".."@, k);
        assert(n.subrange(k, k + 2)[0] == n[k]);
        assert(n.subrange(k, k + 2)[1] == n[k + 1]);
    }
    if n.len() > 0 && n[0] == '.' {
        assert(n.subrange(0, 1) =~= "."@);
    }
    if exists|i: int| 0 <= i < n.len() - 1 && #[trigger] n[i] == '.' && n[i + 1] == '.' {
        let i = choose|i: int| 0 <= i < n.len() - 1 && #[trigger] n[i] == '.' && n[i + 1] == '.';
        assert(n.subrange(i, i + 2) =~= ".."@);
        assert(crate::text::occurs_at(n, ".."@, i));
    }
}

/// Which rule a refused name breaks, the first in this order deciding: an
/// empty name; a name that starts with `.`, holds `/` or `\\`, or holds `..`;
/// a name with a character outside `a`–`z`, `0`–`9` and `-`; a name that
/// starts or ends with a hyphen; a name with two hyphens in a row.
pub proof fn law_skill_name_first_broken_rule(n: Seq<char>)
    ensures
        n.len() == 0 ==> check_skill_name(n) == Err::<(), SkillNameError>(SkillNameError::Empty),
        n.len() > 0 && (n[0] == '.' || (exists|i: int|
            0 <= i < n.len() && (#[trigger] n[i] == '/' || n[i] == '\\')) || (exists|i: int|
            0 <= i < n.len() - 1 && #[trigger] n[i] == '.' && n[i + 1] == '.'))
            ==> check_skill_name(n) == Err::<(), SkillNameError>(SkillNameError::PathLike),
        n.len() > 0 && n[0] != '.' && (forall|i: int|
            0 <= i < n.len() ==> #[trigger] n[i] != '/' && n[i] != '\\') && (forall|i: int|
            0 <= i < n.len() - 1 ==> !(#[trigger] n[i] == '.' && n[i + 1] == '.')) && (exists|i: int|
            0 <= i < n.len() && !in_name_class(#[trigger] n[i])) ==> check_skill_name(n) == Err::<
            (),
            SkillNameError,
        >(SkillNameError::InvalidCharacters),
        n.len() > 0 && (forall|i: int| 0 <= i < n.len() ==> in_name_class(#[trigger] n[i])) && (n[0]
            == '-' || n[n.len() - 1] == '-') ==> check_skill_name(n) == Err::<(), SkillNameError>(
            SkillNameError::HyphenAtEdge,
        ),
        n.len() > 0 && (forall|i: int| 0 <= i < n.len() ==> in_name_class(#[trigger] n[i])) && n[0]
            != '-' && n[n.len() - 1] != '-' && (exists|i: int|
            0 <= i < n.len() - 1 && #[trigger] n[i] == '-' && n[i + 1] == '-') ==> check_skill_name(n)
            == Err::<(), SkillNameError>(SkillNameError::ConsecutiveHyphens),
{
    reveal_strlit("-");
    reveal_strlit("--");
    lemma_path_like_chars(n);
    if n.len() > 0 && (forall|i: int| 0 <= i < n.len() ==> in_name_class(#[trigger] n[i])) {
        assert(!is_path_like(n)) by {
            if n[0] == '.' {
                assert(in_name_class(n[0]));
            }
            if exists|i: int| 0 <= i < n.len() && (#[trigger] n[i] == '/' || n[i] == '\\') {
                let i = choose|i: int| 0 <= i < n.len() && (#[trigger] n[i] == '/' || n[i] == '\\');
                assert(in_name_class(n[i]));
            }
            if exists|i: int| 0 <= i < n.len() - 1 && #[trigger] n[i] == '.' && n[i + 1] == '.' {
                let i = choose|i: int| 0 <= i < n.len() - 1 && #[trigger] n[i] == '.' && n[i + 1] == '.';
                assert(in_name_class(n[i]));
            }
        }
        assert forall|i: int| 0 <= i < n.len() implies is_name_char(#[trigger] n[i]) by {
            assert(in_name_class(n[i]));
        }
        if n[0] == '-' {
            assert(n.subrange(0, 1) =~= "-"@);
        }
        if n[n.len() - 1] == '-' {
            assert(n.subrange(n.len() - 1, n.len() as int) =~= "-"@);
        }
        if n[0] != '-' {
            assert(!starts_with(n, "-"@)) by {
                if starts_with(n, "-"@) {
                    assert(n.subrange(0, 1)[0] == n[0]);
                }
            }
        }
        if n[n.len() - 1] != '-' {
            assert(!ends_with(n, "-"@)) by {
                if ends_with(n, "-"@) {
                    assert(n.subrange(n.len() - 1, n.len() as int)[0] == n[n.len() - 1]);
                }
            }
        }
        if exists|i: int| 0 <= i < n.len() - 1 && #[trigger] n[i] == '-' && n[i + 1] == '-' {
            let i = choose|i: int| 0 <= i < n.len() - 1 && #[trigger] n[i] == '-' && n[i + 1] == '-';
            assert(n.subrange(i, i + 2) =~= "--"@);
            assert(crate::text::occurs_at(n, "--"@, i));
        }
    }
    if exists|i: int| 0 <= i < n.len() && !in_name_class(#[trigger] n[i]) {
        let i = choose|i: int| 0 <= i < n.len() && !in_name_class(#[trigger] n[i]);
        assert(!is_name_char(n[i]));
    }
}

} // verus!
