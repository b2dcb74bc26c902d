use vstd::prelude::*;

use crate::text::{chars_of, string_from_chars};
use crate::vars::Vars;

verus! {

/// Characters that may form a variable name: ASCII letters, digits and `_`.
pub open spec fn is_name_char(c: char) -> bool {
    ('a' <= c && c <= 'z') || ('A' <= c && c <= 'Z') || ('0' <= c && c <= '9') || c == '_'
}

/// A variable name: a non-empty run of name characters.
pub open spec fn is_name(n: Seq<char>) -> bool {
    n.len() > 0 && forall|i: int| 0 <= i < n.len() ==> is_name_char(#[trigger] n[i])
}

/// Length of the longest prefix of `s` made of name characters.
pub open spec fn name_len(s: Seq<char>) -> nat
    decreases s.len(),
{
    if s.len() > 0 && is_name_char(s[0]) {
        1 + name_len(s.drop_first())
    } else {
        0
    }
}

/// What a `$` followed by the run `name` becomes: the variable's value when it
/// is set, the text unchanged otherwise (a lone `$` for an empty run).
pub open spec fn token_text(name: Seq<char>, vars: Map<Seq<char>, Seq<char>>) -> Seq<char> {
    if name.len() > 0 && vars.contains_key(name) {
        vars[name]
    } else {
        seq!['$'] + name
    }
}

/// Substitution of `$name` placeholders in `t`, scanning left to right; values
/// are inserted as they are, never scanned again.
pub open spec fn substitute(t: Seq<char>, vars: Map<Seq<char>, Seq<char>>) -> Seq<char>
    decreases t.len(),
{
    if t.len() == 0 {
        Seq::empty()
    } else if t[0] == '$' {
        proof {
            lemma_name_len_bound(t.drop_first());
        }
        let k = name_len(t.drop_first()) as int;
        token_text(t.subrange(1, 1 + k), vars) + substitute(t.subrange(1 + k, t.len() as int), vars)
    } else {
        seq![t[0]] + substitute(t.drop_first(), vars)
    }
}

/// The longest run of name characters at the start of `s` lies within `s`.
pub proof fn lemma_name_len_bound(s: Seq<char>)
    ensures
        name_len(s) <= s.len(),
        forall|i: int| 0 <= i < name_len(s) ==> is_name_char(#[trigger] s[i]),
    decreases s.len(),
{
    if s.len() > 0 && is_name_char(s[0]) {
        lemma_name_len_bound(s.drop_first());
        assert forall|i: int| 0 <= i < name_len(s) implies is_name_char(#[trigger] s[i]) by {
            if i > 0 {
                assert(s[i] == s.drop_first()[i - 1]);
            }
        }
    }
}

proof fn lemma_name_len_exact(s: Seq<char>, k: int)
    requires
        0 <= k <= s.len(),
        forall|i: int| 0 <= i < k ==> is_name_char(#[trigger] s[i]),
        k == s.len() || !is_name_char(s[k]),
    ensures
        name_len(s) == k,
    decreases k,
{
    if k > 0 {
        let d = s.drop_first();
        assert forall|i: int| 0 <= i < k - 1 implies is_name_char(#[trigger] d[i]) by {
            assert(d[i] == s[i + 1]);
        }
        if k < s.len() {
            assert(d[k - 1] == s[k]);
        }
        lemma_name_len_exact(d, k - 1);
        assert(is_name_char(s[0]));
    }
}

fn is_name_character(c: char) -> (r: bool)
    ensures
        r == is_name_char(c),
{
    ('a' <= c && c <= 'z') || ('A' <= c && c <= 'Z') || ('0' <= c && c <= '9') || c == '_'
}

fn push_all(out: &mut Vec<char>, src: &Vec<char>)
    ensures
        final(out)@ == old(out)@ + src@,
{
    let mut i: usize = 0;
    while i < src.len()
        invariant
            i <= src@.len(),
            out@ == old(out)@ + src@.subrange(0, i as int),
        decreases src@.len() - i,
    {
        out.push(src[i]);
        i = i + 1;
        assert(out@ =~= old(out)@ + src@.subrange(0, i as int));
    }
    assert(src@.subrange(0, src@.len() as int) =~= src@);
}

/// Replaces each `$name` in `s` by the value of `name` in `vars`; names not in
/// `vars`, and a `$` followed by no name character, are left as they are.
pub fn apply_template(s: &str, vars: &Vars) -> (r: String)
    ensures
        r@ == substitute(s@, vars@),
{
    let t = chars_of(s);
    let n = t.len();
    let mut out: Vec<char> = Vec::new();
    let mut i: usize = 0;
    assert(t@.subrange(0, n as int) =~= t@);
    while i < n
        invariant
            n == t@.len(),
            t@ == s@,
            i <= n,
            out@ + substitute(t@.subrange(i as int, n as int), vars@) == substitute(s@, vars@),
        decreases n - i,
    {
        let c = t[i];
        let ghost rest = t@.subrange(i as int, n as int);
        if c == '$' {
            let mut name: Vec<char> = Vec::new();
            let mut j: usize = i + 1;
            while j < n && is_name_character(t[j])
                invariant
                    n == t@.len(),
                    i + 1 <= j <= n,
                    name@ == t@.subrange(i + 1, j as int),
                    forall|m: int| i + 1 <= m < j ==> is_name_char(#[trigger] t@[m]),
                decreases n - j,
            {
                name.push(t[j]);
                j = j + 1;
                assert(name@ =~= t@.subrange(i + 1, j as int));
            }
            proof {
                let after = t@.subrange(i + 1, n as int);
                assert(rest.drop_first() =~= after);
                assert forall|m: int| 0 <= m < j - i - 1 implies is_name_char(#[trigger] after[m]) by {
                    assert(after[m] == t@[i + 1 + m]);
                }
                if j < n {
                    assert(after[j - i - 1] == t@[j as int]);
                }
                lemma_name_len_exact(after, j - i - 1);
                assert(rest.subrange(1, 1 + (j - i - 1)) =~= name@);
                assert(rest.subrange(1 + (j - i - 1), rest.len() as int) =~= t@.subrange(j as int, n as int));
            }
            let ghost before = out@;
            if name.len() > 0 {
                match vars.get_chars(&name) {
                    Some(v) => {
                        push_all(&mut out, v);
                    },
                    None => {
                        out.push('$');
                        push_all(&mut out, &name);
                    },
                }
            } else {
                out.push('$');
            }
            assert(out@ =~= before + token_text(name@, vars@));
            i = j;
        } else {
            out.push(c);
            assert(rest.drop_first() =~= t@.subrange(i + 1, n as int));
            i = i + 1;
        }
    }
    string_from_chars(&out)
}

/// Text with no `$` comes back unchanged, whatever the variables.
pub proof fn lemma_no_placeholder_identity(t: Seq<char>, vars: Map<Seq<char>, Seq<char>>)
    requires
        forall|i: int| 0 <= i < t.len() ==> t[i] != '$',
    ensures
        substitute(t, vars) == t,
    decreases t.len(),
{
    if t.len() > 0 {
        let d = t.drop_first();
        assert forall|i: int| 0 <= i < d.len() implies d[i] != '$' by {
            assert(d[i] == t[i + 1]);
        }
        lemma_no_placeholder_identity(d, vars);
        assert(seq![t[0]] + d =~= t);
    }
}

proof fn lemma_single_token(n: Seq<char>, vars: Map<Seq<char>, Seq<char>>)
    requires
        forall|i: int| 0 <= i < n.len() ==> is_name_char(#[trigger] n[i]),
    ensures
        substitute(seq!['$'] + n, vars) == token_text(n, vars),
{
    let t = seq!['$'] + n;
    assert(t[0] == '$');
    assert(t.drop_first() =~= n);
    lemma_name_len_exact(n, n.len() as int);
    assert(t.subrange(1, 1 + n.len() as int) =~= n);
    assert(t.subrange(1 + n.len() as int, t.len() as int) =~= Seq::<char>::empty());
    assert(substitute(Seq::<char>::empty(), vars) == Seq::<char>::empty());
    assert(token_text(n, vars) + Seq::<char>::empty() =~= token_text(n, vars));
}

/// `$name` alone becomes the value of `name` when it is set.
pub proof fn lemma_bound_name(n: Seq<char>, vars: Map<Seq<char>, Seq<char>>)
    requires
        is_name(n),
        vars.contains_key(n),
    ensures
        substitute(seq!['$'] + n, vars) == vars[n],
{
    lemma_single_token(n, vars);
}

/// `$name` alone stays as it is when `name` is not set.
pub proof fn lemma_unbound_name(n: Seq<char>, vars: Map<Seq<char>, Seq<char>>)
    requires
        is_name(n),
        !vars.contains_key(n),
    ensures
        substitute(seq!['$'] + n, vars) == seq!['$'] + n,
{
    lemma_single_token(n, vars);
}

/// A lone `$` stays as it is, whatever the variables.
pub proof fn lemma_lone_dollar(vars: Map<Seq<char>, Seq<char>>)
    ensures
        substitute(seq!['$'], vars) == seq!['$'],
{
    lemma_single_token(Seq::empty(), vars);
    assert(seq!['$'] + Seq::<char>::empty() =~= seq!['$']);
}

} // verus!
