//! Variable discovery: the names that a tree refers to, in order of first occurrence.
use vstd::prelude::*;
use crate::ast::{ComponentView, Operation, OperationView, ValueView, VarOrExpr, lemma_comps_view};

verus! {

/// The views of a sequence of strings.
pub open spec fn names(v: Seq<String>) -> Seq<Seq<char>> {
    v.map_values(|s: String| s@)
}

/// Every variable reference of a component, depth first, repeats included.
pub open spec fn occ_comp(c: ComponentView) -> Seq<Seq<char>>
    decreases c, 0int,
{
    match c.value {
        ValueView::Var(name) => seq![name],
        ValueView::Expr(op) => occ_prefix(op, op.components.len() as int),
    }
}

/// The references within the first `n` components of `op`.
pub open spec fn occ_prefix(op: OperationView, n: int) -> Seq<Seq<char>>
    decreases op, n,
{
    if n <= 0 || n > op.components.len() {
        Seq::empty()
    } else {
        occ_prefix(op, n - 1) + occ_comp(op.components[n - 1])
    }
}

/// Every variable reference of `op`, depth first, repeats included.
pub open spec fn occurrences(op: OperationView) -> Seq<Seq<char>> {
    occ_prefix(op, op.components.len() as int)
}

/// `acc` followed by the names of `s` that are new, each at its first occurrence.
pub open spec fn add_new(acc: Seq<Seq<char>>, s: Seq<Seq<char>>) -> Seq<Seq<char>>
    decreases s.len(),
{
    if s.len() == 0 {
        acc
    } else {
        let a = add_new(acc, s.drop_last());
        if a.contains(s.last()) {
            a
        } else {
            a.push(s.last())
        }
    }
}

/// The distinct names that `op` refers to, in order of first occurrence.
pub open spec fn variables(op: OperationView) -> Seq<Seq<char>> {
    add_new(Seq::empty(), occurrences(op))
}

pub proof fn lemma_add_new_contains(acc: Seq<Seq<char>>, s: Seq<Seq<char>>)
    ensures
        forall|v: Seq<char>|
            #[trigger] add_new(acc, s).contains(v) <==> acc.contains(v) || s.contains(v),
    decreases s.len(),
{
    if s.len() > 0 {
        lemma_add_new_contains(acc, s.drop_last());
        let a = add_new(acc, s.drop_last());
        assert forall|v: Seq<char>| #[trigger] add_new(acc, s).contains(v) <==> acc.contains(v) || s.contains(v) by {
            if s.contains(v) && !s.drop_last().contains(v) {
                let i = choose|i: int| 0 <= i < s.len() && s[i] == v;
                if i < s.len() - 1 {
                    assert(s.drop_last()[i] == v);
                }
            }
            if s.drop_last().contains(v) {
                let i = choose|i: int| 0 <= i < s.drop_last().len() && s.drop_last()[i] == v;
                assert(s[i] == v);
            }
            if !a.contains(s.last()) {
                assert(a.push(s.last()).last() == s.last());
                if a.contains(v) {
                    let i = choose|i: int| 0 <= i < a.len() && a[i] == v;
                    assert(a.push(s.last())[i] == v);
                }
                if a.push(s.last()).contains(v) && v != s.last() {
                    let i = choose|i: int| 0 <= i < a.len() + 1 && a.push(s.last())[i] == v;
                    assert(a[i] == v);
                }
            }
        }
    }
}

pub proof fn lemma_add_new_no_duplicates(acc: Seq<Seq<char>>, s: Seq<Seq<char>>)
    requires
        acc.no_duplicates(),
    ensures
        add_new(acc, s).no_duplicates(),
    decreases s.len(),
{
    if s.len() > 0 {
        lemma_add_new_no_duplicates(acc, s.drop_last());
    }
}

/// Adding `x` and then `y` adds `x + y`.
pub proof fn lemma_add_new_concat(acc: Seq<Seq<char>>, x: Seq<Seq<char>>, y: Seq<Seq<char>>)
    ensures
        add_new(add_new(acc, x), y) == add_new(acc, x + y),
    decreases y.len(),
{
    if y.len() == 0 {
        assert(x + y =~= x);
    } else {
        lemma_add_new_concat(acc, x, y.drop_last());
        assert((x + y).drop_last() =~= x + y.drop_last());
        assert((x + y).last() == y.last());
    }
}

/// Adding the distinct names of `x` adds the same as adding `x` itself.
pub proof fn lemma_add_new_dedup(acc: Seq<Seq<char>>, x: Seq<Seq<char>>)
    ensures
        add_new(acc, add_new(Seq::empty(), x)) == add_new(acc, x),
    decreases x.len(),
{
    if x.len() > 0 {
        let xs = x.drop_last();
        let e = x.last();
        let d = add_new(Seq::empty(), xs);
        lemma_add_new_dedup(acc, xs);
        lemma_add_new_contains(Seq::empty(), xs);
        lemma_add_new_contains(acc, xs);
        if !d.contains(e) {
            assert(d.push(e).drop_last() =~= d);
        }
    }
}

/// Whether `name` is among `vars`.
pub fn contains_name(vars: &Vec<String>, name: &String) -> (r: bool)
    ensures
        r == names(vars@).contains(name@),
{
    let mut i: usize = 0;
    while i < vars.len()
        invariant
            i <= vars.len(),
            forall|j: int| 0 <= j < i ==> names(vars@)[j] != name@,
        decreases vars.len() - i,
    {
        if vars[i] == *name {
            assert(names(vars@)[i as int] == name@);
            return true;
        }
        i += 1;
    }
    false
}

/// Appends `name` unless it is there already.
fn push_new(vars: &mut Vec<String>, name: &String)
    ensures
        names(final(vars)@) == add_new(names(old(vars)@), seq![name@]),
{
    let ghost before = names(vars@);
    assert(seq![name@].drop_last() =~= Seq::<Seq<char>>::empty());
    assert(add_new(before, Seq::<Seq<char>>::empty()) == before);
    if !contains_name(vars, name) {
        vars.push(name.clone());
        assert(names(vars@) =~= before.push(name@));
    }
}

impl Operation {
    /// The distinct variable names of the tree, depth first, in order of first occurrence.
    pub fn get_variables(&self) -> (r: Vec<String>)
        ensures
            names(r@) == variables(self@),
            names(r@).no_duplicates(),
        decreases self,
    {
        proof {
            lemma_comps_view(self.components@);
        }
        let ghost op = self@;
        let mut vars: Vec<String> = Vec::new();
        let mut idx: usize = 0;
        assert(names(vars@) =~= Seq::<Seq<char>>::empty());
        while idx < self.components.len()
            invariant
                op == self@,
                idx <= self.components.len(),
                self.components.len() == op.components.len(),
                forall|i: int|
                    0 <= i < op.components.len() ==> op.components[i] == (
                    #[trigger] self.components@[i])@,
                names(vars@) == add_new(Seq::empty(), occ_prefix(op, idx as int)),
            decreases self.components.len() - idx,
        {
            let ghost base = names(vars@);
            let ghost c = op.components[idx as int];
            match &self.components[idx].value {
                VarOrExpr::Var(v) => {
                    push_new(&mut vars, v);
                },
                VarOrExpr::Expr(sub) => {
                    let other = sub.get_variables();
                    let mut j: usize = 0;
                    assert(names(other@).take(0) =~= Seq::<Seq<char>>::empty());
                    while j < other.len()
                        invariant
                            j <= other.len(),
                            names(vars@) == add_new(base, names(other@).take(j as int)),
                        decreases other.len() - j,
                    {
                        let ghost before = names(vars@);
                        push_new(&mut vars, &other[j]);
                        proof {
                            lemma_add_new_concat(base, names(other@).take(j as int), seq![names(other@)[j as int]]);
                            assert(names(other@).take(j as int) + seq![names(other@)[j as int]] =~= names(other@).take(j + 1));
                        }
                        j += 1;
                    }
                    proof {
                        assert(names(other@).take(other.len() as int) =~= names(other@));
                        lemma_add_new_dedup(base, occurrences(sub@));
                    }
                },
            }
            proof {
                lemma_add_new_concat(Seq::empty(), occ_prefix(op, idx as int), occ_comp(c));
            }
            idx += 1;
        }
        proof {
            lemma_add_new_no_duplicates(Seq::empty(), occurrences(op));
        }
        vars
    }
}

} // verus!
