//! Redaction of declared-secret flag values from command text.
//!
//! A command manifest may name flags (such as `--token`) whose values must
//! never reach the transcript. The values are found in the command line
//! (`--flag=value` and `--flag value` forms) and every occurrence of each is
//! replaced by a fixed marker before the command is recorded.

use vstd::prelude::*;
use crate::text::{
    chars_eq, chars_start_with, chars_views, extend_chars, split_words, starts_with,
    occurs_at, starts_with_at, str_views, string_from_chars, string_views, to_chars, words,
};

verus! {

/// The text that stands in place of a redacted value.
pub open spec fn marker() -> Seq<char> {
    "[REDACTED]"@
}

/// `s` with every occurrence of `p` replaced by `r`, scanning left to right
/// without overlap (`str::replace`); an empty `p` leaves `s` as it is.
pub open spec fn replace_all(s: Seq<char>, p: Seq<char>, r: Seq<char>) -> Seq<char>
    decreases s.len(),
{
    if p.len() == 0 || s.len() == 0 {
        s
    } else if starts_with(s, p) {
        r + replace_all(s.subrange(p.len() as int, s.len() as int), p, r)
    } else {
        seq![s[0]] + replace_all(s.drop_first(), p, r)
    }
}

/// `s` with each literal in turn replaced by the marker.
pub open spec fn scrub(s: Seq<char>, literals: Seq<Seq<char>>) -> Seq<char>
    decreases literals.len(),
{
    if literals.len() == 0 {
        s
    } else {
        replace_all(scrub(s, literals.drop_last()), literals.last(), marker())
    }
}

/// `s` with every occurrence of `p` replaced by `r`.
pub fn replace_all_chars(s: &Vec<char>, p: &Vec<char>, r: &Vec<char>) -> (out: Vec<char>)
    ensures
        out@ == replace_all(s@, p@, r@),
{
    if p.len() == 0 {
        return s.clone();
    }
    let mut out: Vec<char> = Vec::new();
    let mut i: usize = 0;
    assert(s@.subrange(0, s@.len() as int) =~= s@);
    assert(out@ + replace_all(s@, p@, r@) =~= replace_all(s@, p@, r@));
    while i < s.len()
        invariant
            i <= s@.len(),
            p@.len() > 0,
            replace_all(s@, p@, r@) == out@ + replace_all(
                s@.subrange(i as int, s@.len() as int),
                p@,
                r@,
            ),
        decreases s@.len() - i,
    {
        let ghost rest = s@.subrange(i as int, s@.len() as int);
        if starts_with_at(s, i, p) {
            assert(rest.subrange(p@.len() as int, rest.len() as int) =~= s@.subrange(
                i + p@.len(),
                s@.len() as int,
            ));
            extend_chars(&mut out, r);
            i = i + p.len();
        } else {
            assert(rest.drop_first() =~= s@.subrange(i + 1, s@.len() as int));
            out.push(s[i]);
            i = i + 1;
        }
    }
    out
}

/// `text` with every occurrence of each literal, in turn, replaced by the
/// marker. Empty literals are skipped.
pub fn scrub_literals(text: &str, literals: &[&str]) -> (r: String)
    ensures
        r@ == scrub(text@, str_views(literals@)),
{
    let ghost lits = str_views(literals@);
    let marker_chars = to_chars("[REDACTED]");
    let mut cur = to_chars(text);
    let mut j: usize = 0;
    while j < literals.len()
        invariant
            j <= literals@.len(),
            lits == str_views(literals@),
            marker_chars@ == marker(),
            cur@ == scrub(text@, lits.take(j as int)),
        decreases literals@.len() - j,
    {
        let lit = to_chars(literals[j]);
        cur = replace_all_chars(&cur, &lit, &marker_chars);
        assert(lits.take(j + 1).drop_last() =~= lits.take(j as int));
        j = j + 1;
    }
    assert(lits.take(literals@.len() as int) =~= lits);
    string_from_chars(&cur)
}

/// The value of `token` in the `rule=value` form, when it has a non-empty one.
pub open spec fn eq_form_value(token: Seq<char>, rule: Seq<char>) -> Seq<Seq<char>> {
    let pre = rule.push('=');
    if starts_with(token, pre) && token.len() > pre.len() {
        seq![token.subrange(pre.len() as int, token.len() as int)]
    } else {
        seq![]
    }
}

/// The value following `tokens[i]` in the `rule value` form, when the next
/// token exists and does not begin with `-`.
pub open spec fn space_form_value(tokens: Seq<Seq<char>>, i: int, rule: Seq<char>) -> Seq<
    Seq<char>,
> {
    if tokens[i] == rule && i + 1 < tokens.len() && !(tokens[i + 1].len() > 0 && tokens[i
        + 1][0] == '-') {
        seq![tokens[i + 1]]
    } else {
        seq![]
    }
}

/// The values that `tokens[i]` yields for each rule, rules in order.
pub open spec fn rule_values(tokens: Seq<Seq<char>>, i: int, rules: Seq<Seq<char>>) -> Seq<
    Seq<char>,
>
    decreases rules.len(),
{
    if rules.len() == 0 {
        seq![]
    } else {
        rule_values(tokens, i, rules.drop_last()) + eq_form_value(tokens[i], rules.last())
            + space_form_value(tokens, i, rules.last())
    }
}

/// The values yielded by the first `n` tokens.
pub open spec fn flag_values(tokens: Seq<Seq<char>>, rules: Seq<Seq<char>>, n: int) -> Seq<
    Seq<char>,
>
    decreases n,
{
    if n <= 0 {
        seq![]
    } else {
        flag_values(tokens, rules, n - 1) + rule_values(tokens, n - 1, rules)
    }
}

/// The values of the named flags in the command line `cmd`.
pub open spec fn spec_extract_flag_values(cmd: Seq<char>, rules: Seq<Seq<char>>) -> Seq<
    Seq<char>,
> {
    flag_values(words(cmd), rules, words(cmd).len() as int)
}

/// Extracts the values of named flag arguments from `cmd` for the given
/// `rules` (flag names such as `--key`), in both `--flag=value` and
/// `--flag value` forms, so they can be scrubbed.
pub fn extract_flag_values(cmd: &str, rules: &[&str]) -> (r: Vec<String>)
    ensures
        string_views(r@) == spec_extract_flag_values(cmd@, str_views(rules@)),
{
    let ghost rv = str_views(rules@);
    let chars = to_chars(cmd);
    let tokens = split_words(&chars);
    let ghost tv = words(cmd@);
    assert(chars_views(tokens@) =~= tv);
    let mut values: Vec<String> = Vec::new();
    let mut i: usize = 0;
    while i < tokens.len()
        invariant
            i <= tokens@.len(),
            tv == words(cmd@),
            tokens@.len() == tv.len(),
            forall|k: int| 0 <= k < tv.len() ==> (#[trigger] tokens@[k])@ == tv[k],
            rv == str_views(rules@),
            string_views(values@) == flag_values(tv, rv, i as int),
        decreases tokens@.len() - i,
    {
        let mut j: usize = 0;
        while j < rules.len()
            invariant
                i < tokens@.len(),
                j <= rules@.len(),
                tv == words(cmd@),
                tokens@.len() == tv.len(),
                forall|k: int| 0 <= k < tv.len() ==> (#[trigger] tokens@[k])@ == tv[k],
                rv == str_views(rules@),
                string_views(values@) == flag_values(tv, rv, i as int) + rule_values(
                    tv,
                    i as int,
                    rv.take(j as int),
                ),
            decreases rules@.len() - j,
        {
            let ghost before = string_views(values@);
            let rule = to_chars(rules[j]);
            let mut prefix = rule.clone();
            prefix.push('=');
            let token = &tokens[i];
            let ghost eqv = eq_form_value(tv[i as int], rv[j as int]);
            let ghost spv = space_form_value(tv, i as int, rv[j as int]);
            if chars_start_with(token, &prefix) && token.len() > prefix.len() {
                let mut val: Vec<char> = Vec::new();
                let mut k = prefix.len();
                while k < token.len()
                    invariant
                        prefix@.len() <= k <= token@.len(),
                        val@ == token@.subrange(prefix@.len() as int, k as int),
                    decreases token@.len() - k,
                {
                    val.push(token[k]);
                    k = k + 1;
                    assert(val@ =~= token@.subrange(prefix@.len() as int, k as int));
                }
                values.push(string_from_chars(&val));
            }
            let ghost mid = string_views(values@);
            assert(mid =~= before + eqv);
            if chars_eq(token, &rule) && tokens.len() - i > 1 {
                let next = &tokens[i + 1];
                if !(next.len() > 0 && next[0] == '-') {
                    values.push(string_from_chars(next));
                }
            }
            assert(string_views(values@) =~= mid + spv);
            assert(rv.take(j + 1).drop_last() =~= rv.take(j as int));
            j = j + 1;
        }
        assert(rv.take(rules@.len() as int) =~= rv);
        i = i + 1;
    }
    values
}

/// `v` is a value of the flag `rule` at token `i`: the token is `rule=v`
/// with `v` not empty, or the token is exactly `rule` and `v` is the next
/// token, which does not begin with `-`.
pub open spec fn is_flag_value_at(tokens: Seq<Seq<char>>, rule: Seq<char>, i: int, v: Seq<char>) -> bool {
    &&& 0 <= i < tokens.len()
    &&& {
        ||| v.len() > 0 && tokens[i] == rule.push('=') + v
        ||| tokens[i] == rule && i + 1 < tokens.len() && tokens[i + 1] == v && !(v.len() > 0
            && v[0] == '-')
    }
}

proof fn lemma_rule_values_sound(tokens: Seq<Seq<char>>, i: int, rules: Seq<Seq<char>>, k: int)
    requires
        0 <= i < tokens.len(),
        0 <= k < rule_values(tokens, i, rules).len(),
    ensures
        exists|j: int|
            0 <= j < rules.len() && #[trigger] is_flag_value_at(
                tokens,
                rules[j],
                i,
                rule_values(tokens, i, rules)[k],
            ),
    decreases rules.len(),
{
    let prev = rule_values(tokens, i, rules.drop_last());
    let rule = rules.last();
    let eq = eq_form_value(tokens[i], rule);
    let sp = space_form_value(tokens, i, rule);
    let all = rule_values(tokens, i, rules);
    assert(all == prev + eq + sp);
    let last = rules.len() - 1;
    if k < prev.len() {
        lemma_rule_values_sound(tokens, i, rules.drop_last(), k);
        let j = choose|j: int|
            0 <= j < rules.drop_last().len() && #[trigger] is_flag_value_at(
                tokens,
                rules.drop_last()[j],
                i,
                prev[k],
            );
        assert(all[k] == prev[k]);
        assert(rules.drop_last()[j] == rules[j]);
        assert(is_flag_value_at(tokens, rules[j], i, all[k]));
    } else if k < prev.len() + eq.len() {
        let pre = rule.push('=');
        let v = tokens[i].subrange(pre.len() as int, tokens[i].len() as int);
        assert(all[k] == eq[k - prev.len()]);
        assert(eq[k - prev.len()] == v);
        assert(tokens[i] =~= pre + v);
        assert(is_flag_value_at(tokens, rules[last], i, all[k]));
    } else {
        assert(all[k] == sp[k - prev.len() - eq.len()]);
        assert(is_flag_value_at(tokens, rules[last], i, all[k]));
    }
}

proof fn lemma_flag_values_sound(tokens: Seq<Seq<char>>, rules: Seq<Seq<char>>, n: int, k: int)
    requires
        0 <= n <= tokens.len(),
        0 <= k < flag_values(tokens, rules, n).len(),
    ensures
        exists|i: int, j: int|
            0 <= j < rules.len() && #[trigger] is_flag_value_at(
                tokens,
                rules[j],
                i,
                flag_values(tokens, rules, n)[k],
            ),
    decreases n,
{
    let prev = flag_values(tokens, rules, n - 1);
    let cur = rule_values(tokens, n - 1, rules);
    let all = flag_values(tokens, rules, n);
    assert(all == prev + cur);
    if k < prev.len() {
        lemma_flag_values_sound(tokens, rules, n - 1, k);
        assert(all[k] == prev[k]);
    } else {
        lemma_rule_values_sound(tokens, n - 1, rules, k - prev.len());
        assert(all[k] == cur[k - prev.len()]);
        let j = choose|j: int|
            0 <= j < rules.len() && #[trigger] is_flag_value_at(
                tokens,
                rules[j],
                n - 1,
                cur[k - prev.len()],
            );
        assert(is_flag_value_at(tokens, rules[j], n - 1, all[k]));
    }
}

/// Every value extracted from a command line is a flag's value in one of
/// the two forms: the suffix of a word `rule=value`, or the word right
/// after a word exactly equal to `rule`. A word that merely begins with a
/// flag's name (`--token=x`, `--tokens`) never makes the next word a value.
pub proof fn lemma_extracted_values_are_flag_values(cmd: Seq<char>, rules: Seq<Seq<char>>, k: int)
    requires
        0 <= k < spec_extract_flag_values(cmd, rules).len(),
    ensures
        exists|i: int, j: int|
            0 <= j < rules.len() && #[trigger] is_flag_value_at(
                words(cmd),
                rules[j],
                i,
                spec_extract_flag_values(cmd, rules)[k],
            ),
{
    lemma_flag_values_sound(words(cmd), rules, words(cmd).len() as int, k);
}

// ---------------------------------------------------------------------------
// Redacted values never survive
// ---------------------------------------------------------------------------

/// No character of `a` occurs in `b`.
pub open spec fn shares_no_char(a: Seq<char>, b: Seq<char>) -> bool {
    forall|i: int, j: int| 0 <= i < a.len() && 0 <= j < b.len() ==> #[trigger] a[i] != #[trigger] b[j]
}

/// If the output of a replacement begins with `w`, which shares no
/// character with the non-empty replacement text, then the input begins
/// with `w` too.
proof fn lemma_prefix_of_replacement(u: Seq<char>, p: Seq<char>, r: Seq<char>, w: Seq<char>)
    requires
        r.len() > 0,
        shares_no_char(w, r),
        w.len() <= replace_all(u, p, r).len(),
        replace_all(u, p, r).subrange(0, w.len() as int) == w,
    ensures
        starts_with(u, w),
    decreases u.len(),
{
    if w.len() == 0 {
        assert(u.subrange(0, 0) =~= w);
    } else if p.len() == 0 || u.len() == 0 {
    } else if starts_with(u, p) {
        let out = replace_all(u, p, r);
        assert(out[0] == r[0]);
        assert(w[0] == out.subrange(0, w.len() as int)[0]);
        assert(false);
    } else {
        let rest = replace_all(u.drop_first(), p, r);
        let out = seq![u[0]] + rest;
        assert(w[0] == out.subrange(0, w.len() as int)[0]);
        let w1 = w.drop_first();
        assert(rest.subrange(0, w1.len() as int) =~= out.subrange(1, w.len() as int));
        assert(out.subrange(1, w.len() as int) =~= w1) by {
            assert(out.subrange(0, w.len() as int) == w);
        }
        lemma_prefix_of_replacement(u.drop_first(), p, r, w1);
        assert(u.subrange(0, w.len() as int) =~= w) by {
            assert(u.drop_first().subrange(0, w1.len() as int) == w1);
            assert forall|k: int| 0 <= k < w.len() implies u.subrange(0, w.len() as int)[k]
                == w[k] by {
                if k > 0 {
                    assert(u.drop_first().subrange(0, w1.len() as int)[k - 1] == w1[k - 1]);
                }
            }
        }
    }
}

/// A text that shares no character with the non-empty replacement occurs in
/// the output of a replacement only where it already occurred in the input.
proof fn lemma_replacement_adds_no_occurrence(
    s: Seq<char>,
    p: Seq<char>,
    r: Seq<char>,
    q: Seq<char>,
    off: int,
)
    requires
        r.len() > 0,
        q.len() > 0,
        shares_no_char(q, r),
        occurs_at(replace_all(s, p, r), q, off),
    ensures
        exists|o: int| occurs_at(s, q, o),
    decreases s.len(),
{
    let out = replace_all(s, p, r);
    if p.len() == 0 || s.len() == 0 {
        assert(occurs_at(s, q, off));
    } else if starts_with(s, p) {
        let tail = s.subrange(p.len() as int, s.len() as int);
        let rest = replace_all(tail, p, r);
        if off < r.len() {
            assert(out[off] == r[off]);
            assert(q[0] == out.subrange(off, off + q.len())[0]);
            assert(false);
        }
        assert(rest.subrange(off - r.len(), off - r.len() + q.len()) =~= out.subrange(
            off,
            off + q.len(),
        ));
        lemma_replacement_adds_no_occurrence(tail, p, r, q, off - r.len());
        let o = choose|o: int| occurs_at(tail, q, o);
        assert(s.subrange(o + p.len(), o + p.len() + q.len()) =~= tail.subrange(o, o + q.len()));
        assert(occurs_at(s, q, o + p.len()));
    } else {
        let tail = s.drop_first();
        let rest = replace_all(tail, p, r);
        if off == 0 {
            let q1 = q.drop_first();
            assert(rest.subrange(0, q1.len() as int) =~= out.subrange(1, q.len() as int));
            assert(out.subrange(1, q.len() as int) =~= q1) by {
                assert(out.subrange(0, q.len() as int) == q);
            }
            assert(shares_no_char(q1, r)) by {
                assert forall|i: int, j: int| 0 <= i < q1.len() && 0 <= j < r.len() implies #[trigger] q1[i]
                    != #[trigger] r[j] by {
                    assert(q1[i] == q[i + 1]);
                }
            }
            lemma_prefix_of_replacement(tail, p, r, q1);
            assert(q[0] == out.subrange(0, q.len() as int)[0]);
            assert(s.subrange(0, q.len() as int) =~= q) by {
                assert forall|k: int| 0 <= k < q.len() implies s.subrange(0, q.len() as int)[k]
                    == q[k] by {
                    if k > 0 {
                        assert(tail.subrange(0, q1.len() as int)[k - 1] == q1[k - 1]);
                    }
                }
            }
            assert(occurs_at(s, q, 0));
        } else {
            assert(rest.subrange(off - 1, off - 1 + q.len()) =~= out.subrange(off, off + q.len()));
            lemma_replacement_adds_no_occurrence(tail, p, r, q, off - 1);
            let o = choose|o: int| occurs_at(tail, q, o);
            assert(s.subrange(o + 1, o + 1 + q.len()) =~= tail.subrange(o, o + q.len()));
            assert(occurs_at(s, q, o + 1));
        }
    }
}

/// A non-empty text that shares no character with the non-empty replacement
/// does not occur in the output of replacing it.
proof fn lemma_replacement_removes_all(s: Seq<char>, p: Seq<char>, r: Seq<char>, off: int)
    requires
        r.len() > 0,
        p.len() > 0,
        shares_no_char(p, r),
    ensures
        !occurs_at(replace_all(s, p, r), p, off),
    decreases s.len(),
{
    let out = replace_all(s, p, r);
    if s.len() == 0 {
    } else if starts_with(s, p) {
        let tail = s.subrange(p.len() as int, s.len() as int);
        let rest = replace_all(tail, p, r);
        if occurs_at(out, p, off) {
            if off < r.len() {
                assert(out[off] == r[off]);
                assert(p[0] == out.subrange(off, off + p.len())[0]);
            } else {
                assert(rest.subrange(off - r.len(), off - r.len() + p.len()) =~= out.subrange(
                    off,
                    off + p.len(),
                ));
                lemma_replacement_removes_all(tail, p, r, off - r.len());
            }
        }
    } else {
        let tail = s.drop_first();
        let rest = replace_all(tail, p, r);
        if occurs_at(out, p, off) {
            if off == 0 {
                let p1 = p.drop_first();
                assert(rest.subrange(0, p1.len() as int) =~= out.subrange(1, p.len() as int));
                assert(out.subrange(1, p.len() as int) =~= p1) by {
                    assert(out.subrange(0, p.len() as int) == p);
                }
                assert(shares_no_char(p1, r)) by {
                    assert forall|i: int, j: int| 0 <= i < p1.len() && 0 <= j < r.len() implies #[trigger] p1[i]
                        != #[trigger] r[j] by {
                        assert(p1[i] == p[i + 1]);
                    }
                }
                lemma_prefix_of_replacement(tail, p, r, p1);
                assert(p[0] == out.subrange(0, p.len() as int)[0]);
                assert(s.subrange(0, p.len() as int) =~= p) by {
                    assert forall|k: int| 0 <= k < p.len() implies s.subrange(0, p.len() as int)[k]
                        == p[k] by {
                        if k > 0 {
                            assert(tail.subrange(0, p1.len() as int)[k - 1] == p1[k - 1]);
                        }
                    }
                }
            } else {
                assert(rest.subrange(off - 1, off - 1 + p.len()) =~= out.subrange(
                    off,
                    off + p.len(),
                ));
                lemma_replacement_removes_all(tail, p, r, off - 1);
            }
        }
    }
}

/// Scrubbing removes every occurrence of every non-empty literal that
/// shares no character with the marker `[REDACTED]`.
pub proof fn lemma_scrubbed_literals_absent(s: Seq<char>, literals: Seq<Seq<char>>, k: int, off: int)
    requires
        0 <= k < literals.len(),
        literals[k].len() > 0,
        forall|j: int| 0 <= j < literals.len() ==> shares_no_char(#[trigger] literals[j], marker()),
    ensures
        !occurs_at(scrub(s, literals), literals[k], off),
    decreases literals.len(),
{
    reveal_strlit("[REDACTED]");
    let pre = literals.drop_last();
    let last = literals.last();
    let inner = scrub(s, pre);
    assert(shares_no_char(literals[k], marker()));
    if k == literals.len() - 1 {
        lemma_replacement_removes_all(inner, last, marker(), off);
    } else {
        assert(pre[k] == literals[k]);
        if occurs_at(scrub(s, literals), literals[k], off) {
            if last.len() == 0 {
                assert(scrub(s, literals) == inner);
                lemma_scrubbed_literals_absent(s, pre, k, off);
            } else {
                lemma_replacement_adds_no_occurrence(inner, last, marker(), literals[k], off);
                let o = choose|o: int| occurs_at(inner, literals[k], o);
                lemma_scrubbed_literals_absent(s, pre, k, o);
            }
        }
    }
}

} // verus!
