//! Expansion of `$VAR` references in allow-list paths.
//!
//! A reference is a dollar sign followed by a name: a letter or underscore,
//! then letters, digits and underscores, as many as follow. Expansion yields
//! two paths: one with every reference replaced by the variable's value, where
//! it has one, and one with every reference replaced by its bare name.

use vstd::prelude::*;
use crate::text::TextPairs;

verus! {

/// A character that may begin a variable name.
pub open spec fn is_name_start(c: char) -> bool {
    ('A' <= c && c <= 'Z') || ('a' <= c && c <= 'z') || c == '_'
}

/// A character that may continue a variable name.
pub open spec fn is_name_char(c: char) -> bool {
    is_name_start(c) || ('0' <= c && c <= '9')
}

/// A variable reference begins at position `i` of `s`.
pub open spec fn token_at(s: Seq<char>, i: int) -> bool {
    0 <= i && i + 1 < s.len() && s[i] == '$' && is_name_start(s[i + 1])
}

/// `s` holds at least one variable reference.
pub open spec fn has_token(s: Seq<char>) -> bool {
    exists|i: int| token_at(s, i)
}

/// The end of the longest run of name characters that begins at `i`.
pub open spec fn name_end(s: Seq<char>, i: int) -> int
    decreases s.len() - i,
{
    if 0 <= i < s.len() && is_name_char(s[i]) {
        name_end(s, i + 1)
    } else {
        i
    }
}

/// A run of name characters ends at or behind its start, within the sequence.
pub proof fn lemma_name_end_bounds(s: Seq<char>, i: int)
    requires
        0 <= i <= s.len(),
    ensures
        i <= name_end(s, i) <= s.len(),
    decreases s.len() - i,
{
    if i < s.len() && is_name_char(s[i]) {
        lemma_name_end_bounds(s, i + 1);
    }
}

/// The value of `name` in `env`: that of the first pair that carries the name.
pub open spec fn lookup(env: TextPairs, name: Seq<char>) -> Option<Seq<char>>
    decreases env.len(),
{
    if env.len() == 0 {
        None
    } else if env[0].0 == name {
        Some(env[0].1)
    } else {
        lookup(env.drop_first(), name)
    }
}

/// `s` from position `i` on, each variable reference replaced by what
/// `replacement` gives for its name, every other character kept.
pub open spec fn substitute(
    s: Seq<char>,
    i: int,
    replacement: spec_fn(Seq<char>) -> Seq<char>,
) -> Seq<char>
    decreases s.len() - i,
{
    if i < 0 || i >= s.len() {
        Seq::empty()
    } else if token_at(s, i) {
        proof {
            lemma_name_end_bounds(s, i + 2);
        }
        let j = name_end(s, i + 2);
        replacement(s.subrange(i + 1, j)) + substitute(s, j, replacement)
    } else {
        seq![s[i]] + substitute(s, i + 1, replacement)
    }
}

/// What a reference to `name` becomes in the resolved path: the variable's
/// value, or the reference itself where the variable is not set.
pub open spec fn resolved_token(env: TextPairs, name: Seq<char>) -> Seq<char> {
    match lookup(env, name) {
        Some(value) => value,
        None => seq!['$'] + name,
    }
}

/// The path with every reference to a set variable replaced by its value.
pub open spec fn resolved_path(s: Seq<char>, env: TextPairs) -> Seq<char> {
    substitute(s, 0, |name: Seq<char>| resolved_token(env, name))
}

/// The path with every reference replaced by the variable's bare name.
pub open spec fn sanitized_path(s: Seq<char>) -> Seq<char> {
    substitute(s, 0, |name: Seq<char>| name)
}

/// Behind the last reference nothing is replaced.
pub proof fn lemma_substitute_without_tokens(
    s: Seq<char>,
    i: int,
    replacement: spec_fn(Seq<char>) -> Seq<char>,
)
    requires
        0 <= i <= s.len(),
        forall|k: int| i <= k ==> !token_at(s, k),
    ensures
        substitute(s, i, replacement) == s.subrange(i, s.len() as int),
    decreases s.len() - i,
{
    if i < s.len() {
        lemma_substitute_without_tokens(s, i + 1, replacement);
        assert(seq![s[i]] + s.subrange(i + 1, s.len() as int) =~= s.subrange(i, s.len() as int));
    } else {
        assert(s.subrange(i, s.len() as int) =~= Seq::<char>::empty());
    }
}

/// A path without variable references expands to itself, under every
/// environment, in both forms.
pub proof fn law_plain_path_is_fixed(s: Seq<char>, env: TextPairs)
    requires
        !has_token(s),
    ensures
        resolved_path(s, env) == s,
        sanitized_path(s) == s,
{
    lemma_substitute_without_tokens(s, 0, |name: Seq<char>| resolved_token(env, name));
    lemma_substitute_without_tokens(s, 0, |name: Seq<char>| name);
    assert(s.subrange(0, s.len() as int) =~= s);
}

/// Sanitizing is idempotent on every path whose sanitized form holds no
/// variable reference any more.
pub proof fn law_sanitized_is_stable(s: Seq<char>, env: TextPairs)
    requires
        !has_token(sanitized_path(s)),
    ensures
        sanitized_path(sanitized_path(s)) == sanitized_path(s),
        resolved_path(sanitized_path(s), env) == sanitized_path(s),
{
    law_plain_path_is_fixed(sanitized_path(s), env);
}

fn name_start(c: char) -> (b: bool)
    ensures
        b == is_name_start(c),
{
    (c >= 'A' && c <= 'Z') || (c >= 'a' && c <= 'z') || c == '_'
}

fn name_char(c: char) -> (b: bool)
    ensures
        b == is_name_char(c),
{
    name_start(c) || (c >= '0' && c <= '9')
}

/// Looks a variable up in an environment given as a list of pairs.
pub fn lookup_variable<'a>(
    env: &'a Vec<(String, String)>,
    name: &str,
) -> (value: Option<&'a String>)
    ensures
        match value {
            Some(v) => lookup(env.deep_view(), name@) == Some(v@),
            None => lookup(env.deep_view(), name@) is None,
        },
{
    let wanted = name.to_owned();
    let mut i: usize = 0;
    proof {
        assert(env.deep_view().skip(0) =~= env.deep_view());
    }
    while i < env.len()
        invariant
            i <= env.len(),
            wanted@ == name@,
            lookup(env.deep_view(), name@) == lookup(env.deep_view().skip(i as int), name@),
        decreases env.len() - i,
    {
        proof {
            let rest = env.deep_view().skip(i as int);
            assert(rest[0] == env.deep_view()[i as int]);
            assert(rest.drop_first() =~= env.deep_view().skip(i + 1));
        }
        if env[i].0 == wanted {
            return Some(&env[i].1);
        }
        i = i + 1;
    }
    None
}

/// Expands the variable references of `path` against the environment `env`.
/// The first result is the resolved path, the second the sanitized one.
pub fn expand_env_vars(path: &str, env: &Vec<(String, String)>) -> (out: (String, String))
    ensures
        out.0@ == resolved_path(path@, env.deep_view()),
        out.1@ == sanitized_path(path@),
{
    let chars = crate::text::chars_of(path);
    let n: usize = chars.len();
    let ghost s = path@;
    let ghost by_value = |name: Seq<char>| resolved_token(env.deep_view(), name);
    let ghost by_name = |name: Seq<char>| name;
    let mut resolved = String::new();
    let mut sanitized = String::new();
    let mut i: usize = 0;
    let mut lit: usize = 0;
    proof {
        assert(resolved@ + s.subrange(0, 0) =~= Seq::<char>::empty());
    }
    while i < n
        invariant
            chars@ == s,
            s == path@,
            n == s.len(),
            lit <= i <= n,
            by_value == |name: Seq<char>| resolved_token(env.deep_view(), name),
            by_name == |name: Seq<char>| name,
            substitute(s, 0, by_value) == resolved@ + s.subrange(lit as int, i as int)
                + substitute(s, i as int, by_value),
            substitute(s, 0, by_name) == sanitized@ + s.subrange(lit as int, i as int)
                + substitute(s, i as int, by_name),
        decreases n - i,
    {
        if chars[i] == '$' && i + 1 < n && name_start(chars[i + 1]) {
            let mut j: usize = i + 2;
            while j < n && name_char(chars[j])
                invariant
                    chars@ == s,
                    n == s.len(),
                    i + 2 <= j <= n,
                    name_end(s, i + 2) == name_end(s, j as int),
                decreases n - j,
            {
                j = j + 1;
            }
            let literal = path.substring_char(lit, i);
            let name = path.substring_char(i + 1, j);
            let ghost resolved_before = resolved@;
            let ghost sanitized_before = sanitized@;
            resolved.append(literal);
            sanitized.append(literal);
            match lookup_variable(env, name) {
                Some(value) => {
                    resolved.append(value.as_str());
                },
                None => {
                    let token = path.substring_char(i, j);
                    proof {
                        assert(token@ =~= seq!['$'] + name@);
                    }
                    resolved.append(token);
                },
            }
            sanitized.append(name);
            proof {
                assert(token_at(s, i as int));
                assert(resolved@ =~= resolved_before + s.subrange(lit as int, i as int) + by_value(
                    name@,
                ));
                assert(sanitized@ =~= sanitized_before + s.subrange(lit as int, i as int)
                    + by_name(name@));
                assert(s.subrange(j as int, j as int) =~= Seq::<char>::empty());
            }
            i = j;
            lit = j;
        } else {
            proof {
                assert(!token_at(s, i as int));
                assert(s.subrange(lit as int, i as int) + seq![s[i as int]] =~= s.subrange(
                    lit as int,
                    i + 1,
                ));
            }
            i = i + 1;
        }
    }
    let literal = path.substring_char(lit, n);
    resolved.append(literal);
    sanitized.append(literal);
    (resolved, sanitized)
}

} // verus!
