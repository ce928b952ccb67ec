//! Flat variable substitution: every `%{{name}}` is replaced by the value
//! of the variable called `name`.
use vstd::prelude::*;

use crate::text::{chars_of, string_from_chars};
use crate::variable::Variable;

verus! {

/// The token that stands for the variable `name` in a rendered file.
pub open spec fn placeholder(name: Seq<char>) -> Seq<char> {
    seq!['%', '{', '{'] + name + seq!['}', '}']
}

/// `s` with every occurrence of `pat` replaced by `rep`, scanning left to
/// right; occurrences do not overlap.
pub open spec fn replace_all(s: Seq<char>, pat: Seq<char>, rep: Seq<char>) -> Seq<char>
    decreases s.len(),
{
    if s.len() == 0 {
        s
    } else if 0 < pat.len() <= s.len() && s.subrange(0, pat.len() as int) == pat {
        rep + replace_all(s.subrange(pat.len() as int, s.len() as int), pat, rep)
    } else {
        seq![s[0]] + replace_all(s.subrange(1, s.len() as int), pat, rep)
    }
}

/// The text after substituting the first `k` variables, one after the other.
pub open spec fn render_prefix(text: Seq<char>, vars: Seq<Variable>, k: int) -> Seq<char>
    decreases k,
{
    if k <= 0 {
        text
    } else {
        let prev = render_prefix(text, vars, k - 1);
        replace_all(prev, placeholder(vars[k - 1].name@), vars[k - 1].value@)
    }
}

/// The text after substituting every variable, in order.
pub open spec fn render_text(text: Seq<char>, vars: Seq<Variable>) -> Seq<char> {
    render_prefix(text, vars, vars.len() as int)
}

fn matches_at(s: &Vec<char>, i: usize, pat: &Vec<char>) -> (b: bool)
    requires
        i + pat.len() <= s.len(),
    ensures
        b == (s@.subrange(i as int, i + pat.len()) == pat@),
{
    let mut j: usize = 0;
    while j < pat.len()
        invariant
            j <= pat.len(),
            i + pat.len() <= s.len(),
            forall|k: int| 0 <= k < j ==> s@[i + k] == pat@[k],
        decreases pat.len() - j,
    {
        if s[i + j] != pat[j] {
            assert(s@.subrange(i as int, i + pat.len())[j as int] != pat@[j as int]);
            return false;
        }
        j = j + 1;
    }
    assert(s@.subrange(i as int, i + pat.len()) =~= pat@);
    true
}

fn replace_all_chars(s: &Vec<char>, pat: &Vec<char>, rep: &Vec<char>) -> (r: Vec<char>)
    ensures
        r@ == replace_all(s@, pat@, rep@),
{
    let n = s.len();
    let mut out: Vec<char> = Vec::new();
    let mut i: usize = 0;
    assert(s@.subrange(0, n as int) =~= s@);
    assert(out@ + replace_all(s@, pat@, rep@) =~= replace_all(s@, pat@, rep@));
    while i < n
        invariant
            n == s.len(),
            i <= n,
            out@ + replace_all(s@.subrange(i as int, n as int), pat@, rep@) == replace_all(
                s@,
                pat@,
                rep@,
            ),
        decreases n - i,
    {
        let ghost rest = s@.subrange(i as int, n as int);
        let ghost before = out@;
        let p = pat.len();
        if 0 < p && p <= n - i && matches_at(s, i, pat) {
            assert(rest.subrange(0, p as int) =~= s@.subrange(i as int, i + p));
            assert(rest.subrange(p as int, rest.len() as int) =~= s@.subrange(i + p, n as int));
            let mut k: usize = 0;
            while k < rep.len()
                invariant
                    k <= rep.len(),
                    out@ == before + rep@.subrange(0, k as int),
                decreases rep.len() - k,
            {
                out.push(rep[k]);
                k = k + 1;
            }
            assert(rep@.subrange(0, rep.len() as int) =~= rep@);
            let ghost tail = replace_all(s@.subrange(i + p, n as int), pat@, rep@);
            assert(before + (rep@ + tail) =~= out@ + tail);
            i = i + p;
        } else {
            if 0 < p && p <= n - i {
                assert(rest.subrange(0, p as int) =~= s@.subrange(i as int, i + p));
            }
            assert(rest.subrange(1, rest.len() as int) =~= s@.subrange(i + 1, n as int));
            let ghost tail = replace_all(s@.subrange(i + 1, n as int), pat@, rep@);
            assert(before + (seq![s@[i as int]] + tail) =~= before.push(s@[i as int]) + tail);
            out.push(s[i]);
            i = i + 1;
        }
    }
    assert(s@.subrange(n as int, n as int) =~= Seq::<char>::empty());
    assert(out@ + Seq::<char>::empty() =~= out@);
    out
}

fn placeholder_chars(name: &Vec<char>) -> (r: Vec<char>)
    ensures
        r@ == placeholder(name@),
{
    let mut r: Vec<char> = Vec::new();
    r.push('%');
    r.push('{');
    r.push('{');
    let mut k: usize = 0;
    while k < name.len()
        invariant
            k <= name.len(),
            r@ == seq!['%', '{', '{'] + name@.subrange(0, k as int),
        decreases name.len() - k,
    {
        r.push(name[k]);
        k = k + 1;
    }
    assert(name@.subrange(0, name.len() as int) =~= name@);
    r.push('}');
    r.push('}');
    assert(r@ =~= placeholder(name@));
    r
}

/// Replaces every `%{{name}}` of `source` with the value of the variable
/// called `name`, for each variable in order. Placeholders that name no
/// variable are left as they are.
pub fn render(source: &str, variables: &Vec<Variable>) -> (r: String)
    ensures
        r@ == render_text(source@, variables@),
{
    let mut text = chars_of(source);
    let mut k: usize = 0;
    while k < variables.len()
        invariant
            k <= variables.len(),
            text@ == render_prefix(source@, variables@, k as int),
        decreases variables.len() - k,
    {
        let var = &variables[k];
        let name = chars_of(var.name.as_str());
        let value = chars_of(var.value.as_str());
        let pat = placeholder_chars(&name);
        text = replace_all_chars(&text, &pat, &value);
        k = k + 1;
    }
    string_from_chars(&text)
}

/// `pat` occurs nowhere in `s`.
pub open spec fn occurs_nowhere(s: Seq<char>, pat: Seq<char>) -> bool {
    forall|i: int| 0 <= i && i + pat.len() <= s.len() ==> #[trigger] s.subrange(i, i + pat.len()) != pat
}

/// Replacing a pattern that does not occur leaves the text as it is.
pub proof fn lemma_replace_absent(s: Seq<char>, pat: Seq<char>, rep: Seq<char>)
    requires
        pat.len() > 0,
        occurs_nowhere(s, pat),
    ensures
        replace_all(s, pat, rep) == s,
    decreases s.len(),
{
    if s.len() > 0 {
        let rest = s.subrange(1, s.len() as int);
        if pat.len() <= s.len() {
            let z: int = 0;
            assert(s.subrange(z, z + pat.len()) != pat);
            assert(s.subrange(0, pat.len() as int) =~= s.subrange(z, z + pat.len()));
        }
        assert forall|i: int| 0 <= i && i + pat.len() <= rest.len() implies #[trigger] rest.subrange(
            i,
            i + pat.len(),
        ) != pat by {
            assert(rest.subrange(i, i + pat.len()) =~= s.subrange(i + 1, i + 1 + pat.len()));
        }
        lemma_replace_absent(rest, pat, rep);
        assert(seq![s[0]] + rest =~= s);
    }
}

/// A text in which no variable's placeholder occurs renders to itself.
pub proof fn lemma_render_without_placeholders(text: Seq<char>, vars: Seq<Variable>)
    requires
        forall|i: int| 0 <= i < vars.len() ==> occurs_nowhere(text, placeholder(#[trigger] vars[i].name@)),
    ensures
        render_text(text, vars) == text,
{
    lemma_render_prefix_unchanged(text, vars, vars.len() as int);
}

proof fn lemma_render_prefix_unchanged(text: Seq<char>, vars: Seq<Variable>, k: int)
    requires
        k <= vars.len(),
        forall|i: int| 0 <= i < vars.len() ==> occurs_nowhere(text, placeholder(#[trigger] vars[i].name@)),
    ensures
        render_prefix(text, vars, k) == text,
    decreases k,
{
    if k > 0 {
        lemma_render_prefix_unchanged(text, vars, k - 1);
        let v = vars[k - 1];
        assert(occurs_nowhere(text, placeholder(v.name@)));
        lemma_replace_absent(text, placeholder(v.name@), v.value@);
    }
}

} // verus!
