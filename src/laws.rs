//! Laws that relate the parts of the pipeline.
use vstd::prelude::*;
use vstd::arithmetic::power2::{pow2, lemma2_to64, lemma_pow2_unfold, lemma_pow2_pos};
use vstd::arithmetic::div_mod::{lemma_div_denominator, lemma_fundamental_div_mod, lemma_multiply_divide_lt};
use crate::reader::{is_letter, line_at, col_at};
use crate::lexer::{scan, lex, ident_end, lemma_ident_end};
use crate::token::{TokenView, ErrorView};
use crate::ast::{ComponentView, OperationView, ValueView, eval_op, eval_comp, eval_prefix, lookup, lemma_lookup_absent};
use crate::parser::{parse_comp, parse_source, toggle};
use crate::table::{bit, assignment, is_table_of};
use crate::vars::variables;

verus! {

/// Two numbers below `2^n` with the same lowest `n` bits are equal.
pub proof fn lemma_bits_determine(c: nat, d: nat, n: nat)
    requires
        c < pow2(n),
        d < pow2(n),
        forall|k: nat| k < n ==> bit(c, k) == bit(d, k),
    ensures
        c == d,
    decreases n,
{
    if n == 0 {
        lemma2_to64();
    } else {
        lemma_pow2_unfold(n);
        let m = (n - 1) as nat;
        lemma2_to64();
        assert(bit(c, 0) == bit(d, 0));
        assert(c / 1 == c && d / 1 == d);
        assert forall|k: nat| k < m implies #[trigger] bit(c / 2, k) == bit(d / 2, k) by {
            assert(bit(c, k + 1) == bit(d, k + 1));
            lemma_pow2_unfold(k + 1);
            lemma_pow2_pos(k);
            lemma_div_denominator(c as int, 2, pow2(k) as int);
            lemma_div_denominator(d as int, 2, pow2(k) as int);
            assert((k + 1) as nat - 1 == k);
        }
        lemma_multiply_divide_lt(c as int, 2, pow2(m) as int);
        lemma_multiply_divide_lt(d as int, 2, pow2(m) as int);
        lemma_bits_determine(c / 2, d / 2, m);
        lemma_fundamental_div_mod(c as int, 2);
        lemma_fundamental_div_mod(d as int, 2);
    }
}

/// Distinct rows of the enumeration have distinct assignments: the
/// assignment of row `c` encodes `c` and nothing else.
pub proof fn law_assignments_distinct(vars: Seq<Seq<char>>, c: nat, d: nat)
    requires
        c < pow2(vars.len()),
        d < pow2(vars.len()),
        c != d,
    ensures
        assignment(vars, c) != assignment(vars, d),
{
    let n = vars.len();
    if assignment(vars, c) == assignment(vars, d) {
        assert forall|k: nat| k < n implies bit(c, k) == bit(d, k) by {
            let i = n - 1 - k;
            assert(assignment(vars, c)[i] == assignment(vars, d)[i]);
            assert((n - 1 - i) as nat == k);
        }
        lemma_bits_determine(c, d, n);
    }
}

/// A truth table over `n` variables has `2^n` rows, no two with the same assignment.
pub proof fn law_table_rows(op: OperationView, rows: Seq<(Seq<(Seq<char>, bool)>, bool)>)
    requires
        is_table_of(op, rows),
    ensures
        rows.len() == pow2(variables(op).len()),
        forall|c: int, d: int|
            0 <= c < rows.len() && 0 <= d < rows.len() && c != d ==> (#[trigger] rows[c]).0
                != (#[trigger] rows[d]).0,
{
    assert forall|c: int, d: int|
        0 <= c < rows.len() && 0 <= d < rows.len() && c != d implies (#[trigger] rows[c]).0
        != (#[trigger] rows[d]).0 by {
        law_assignments_distinct(variables(op), c as nat, d as nat);
    }
}

/// Operators group left to right: `x o1 y o2 z` evaluates as `(x o1 y) o2 z`.
pub proof fn law_left_to_right(
    x: ComponentView,
    y: ComponentView,
    z: ComponentView,
    o1: TokenView,
    o2: TokenView,
    env: Seq<(Seq<char>, bool)>,
)
    ensures
        eval_op(OperationView { components: seq![x, y, z], ops: seq![o1, o2] }, env) == eval_op(
            OperationView {
                components: seq![
                    ComponentView {
                        value: ValueView::Expr(OperationView { components: seq![x, y], ops: seq![o1] }),
                        negated: false,
                    },
                    z,
                ],
                ops: seq![o2],
            },
            env,
        ),
{
    let flat = OperationView { components: seq![x, y, z], ops: seq![o1, o2] };
    let inner = OperationView { components: seq![x, y], ops: seq![o1] };
    let grouped = OperationView {
        components: seq![ComponentView { value: ValueView::Expr(inner), negated: false }, z],
        ops: seq![o2],
    };
    assert(eval_prefix(flat, env, 1) == eval_comp(x, env));
    assert(eval_prefix(inner, env, 1) == eval_comp(x, env));
    assert(eval_prefix(flat, env, 2) == eval_prefix(inner, env, 2));
    assert(eval_prefix(grouped, env, 1) == eval_comp(grouped.components[0], env));
    assert(eval_comp(grouped.components[0], env) == eval_prefix(inner, env, 2));
    assert(eval_prefix(flat, env, 3) == eval_prefix(grouped, env, 2));
}

/// A double negation cancels: the component after `!!` parses to the same
/// component, ending at the same place, as the two `!` tokens together with it.
pub proof fn law_double_negation(ts: Seq<TokenView>, p: int)
    requires
        0 <= p,
        p + 1 < ts.len(),
        ts[p].kind is Not,
        ts[p + 1].kind is Not,
    ensures
        parse_comp(ts, p) == parse_comp(ts, p + 2),
{
    assert(parse_comp(ts, p) == toggle(parse_comp(ts, p + 1), true));
    assert(parse_comp(ts, p + 1) == toggle(parse_comp(ts, p + 2), true));
    if let Ok((c, e)) = parse_comp(ts, p + 2) {
        assert(ComponentView { value: c.value, negated: (c.negated != true) != true } == c);
    }
}

/// A variable that the assignment leaves out reads as `false`.
pub proof fn law_absent_variable_false(env: Seq<(Seq<char>, bool)>, name: Seq<char>, negated: bool)
    requires
        forall|i: int| 0 <= i < env.len() ==> (#[trigger] env[i]).0 != name,
    ensures
        !lookup(env, name),
        eval_comp(ComponentView { value: ValueView::Var(name), negated }, env) == Ok::<
            bool,
            ErrorView,
        >(negated),
{
    lemma_lookup_absent(env, name);
}

/// `a` and `b` are the same character or two spellings of one operator.
pub open spec fn synonym(a: char, b: char) -> bool {
    ||| a == b
    ||| (a == '&' && b == '*') || (a == '*' && b == '&')
    ||| (a == '|' && b == '+') || (a == '+' && b == '|')
    ||| (a == '!' && b == '~') || (a == '~' && b == '!')
}

/// `s1` and `s2` differ at most by operator spellings.
pub open spec fn same_up_to_synonyms(s1: Seq<char>, s2: Seq<char>) -> bool {
    &&& s1.len() == s2.len()
    &&& forall|i: int| 0 <= i < s1.len() ==> synonym(#[trigger] s1[i], s2[i])
}

proof fn lemma_synonym_places(s1: Seq<char>, s2: Seq<char>, p: int)
    requires
        same_up_to_synonyms(s1, s2),
        0 <= p <= s1.len(),
    ensures
        line_at(s1, p) == line_at(s2, p),
        col_at(s1, p) == col_at(s2, p),
    decreases p,
{
    if p > 0 {
        assert(synonym(s1[p - 1], s2[p - 1]));
        lemma_synonym_places(s1, s2, p - 1);
    }
}

proof fn lemma_synonym_ident(s1: Seq<char>, s2: Seq<char>, p: int)
    requires
        same_up_to_synonyms(s1, s2),
        0 <= p <= s1.len(),
    ensures
        ident_end(s1, p) == ident_end(s2, p),
    decreases s1.len() - p,
{
    if p < s1.len() {
        assert(synonym(s1[p], s2[p]));
        lemma_synonym_ident(s1, s2, p + 1);
    }
}

proof fn lemma_synonym_scan(s1: Seq<char>, s2: Seq<char>, p: int)
    requires
        same_up_to_synonyms(s1, s2),
        0 <= p <= s1.len(),
    ensures
        scan(s1, p) == scan(s2, p),
    decreases s1.len() - p,
{
    if p == s1.len() {
        lemma_synonym_places(s1, s2, p);
    } else {
        let c1 = s1[p];
        let c2 = s2[p];
        assert(synonym(c1, c2));
        lemma_synonym_places(s1, s2, p + 1);
        if c1 == ' ' || c1 == '\n' {
            lemma_synonym_scan(s1, s2, p + 1);
        } else if is_letter(c1) {
            lemma_ident_end(s1, p + 1);
            lemma_synonym_ident(s1, s2, p + 1);
            let e = ident_end(s1, p + 1);
            lemma_synonym_places(s1, s2, e);
            assert forall|i: int| 0 <= i < e - p implies s1.subrange(p, e)[i] == s2.subrange(p, e)[i] by {
                assert(synonym(s1[p + i], s2[p + i]));
                if i > 0 {
                    assert(is_letter(s1[p + i]));
                }
            }
            assert(s1.subrange(p, e) =~= s2.subrange(p, e));
        }
    }
}

proof fn lemma_synonym_lex(s1: Seq<char>, s2: Seq<char>, p: int)
    requires
        same_up_to_synonyms(s1, s2),
        0 <= p <= s1.len(),
    ensures
        lex(s1, p) == lex(s2, p),
    decreases s1.len() - p,
{
    lemma_synonym_scan(s1, s2, p);
    if let Ok((t, q)) = scan(s1, p) {
        if !(t.kind is EndOfInput || p >= s1.len() || q <= p || q > s1.len()) {
            lemma_synonym_lex(s1, s2, q);
        }
    }
}

/// `&` / `*`, `|` / `+` and `!` / `~` are interchangeable: two texts that
/// differ only in these spellings give the same tokens and the same tree,
/// or the same error.
pub proof fn law_synonyms(s1: Seq<char>, s2: Seq<char>)
    requires
        same_up_to_synonyms(s1, s2),
    ensures
        lex(s1, 0) == lex(s2, 0),
        parse_source(s1) == parse_source(s2),
{
    lemma_synonym_lex(s1, s2, 0);
}

} // verus!
