//! The displayed order of variables: by name, character by character.
use vstd::prelude::*;
use crate::vars::names;

verus! {

broadcast use vstd::seq_lib::group_to_multiset_ensures;

/// `a` comes no later than `b` in lexicographic order of code points.
pub open spec fn name_le(a: Seq<char>, b: Seq<char>) -> bool
    decreases a.len(),
{
    if a.len() == 0 {
        true
    } else if b.len() == 0 {
        false
    } else if a[0] != b[0] {
        a[0] < b[0]
    } else {
        name_le(a.drop_first(), b.drop_first())
    }
}

/// Every name comes no later than each name after it.
pub open spec fn sorted_names(s: Seq<Seq<char>>) -> bool {
    forall|i: int, j: int| 0 <= i < j < s.len() ==> name_le(#[trigger] s[i], #[trigger] s[j])
}

pub proof fn lemma_name_le_total(a: Seq<char>, b: Seq<char>)
    ensures
        name_le(a, b) || name_le(b, a),
    decreases a.len(),
{
    if a.len() > 0 && b.len() > 0 && a[0] == b[0] {
        lemma_name_le_total(a.drop_first(), b.drop_first());
    }
}

pub proof fn lemma_name_le_trans(a: Seq<char>, b: Seq<char>, c: Seq<char>)
    requires
        name_le(a, b),
        name_le(b, c),
    ensures
        name_le(a, c),
    decreases a.len(),
{
    if a.len() > 0 && b.len() > 0 && c.len() > 0 && a[0] == b[0] && b[0] == c[0] {
        lemma_name_le_trans(a.drop_first(), b.drop_first(), c.drop_first());
    }
}

/// Whether `a` comes no later than `b`.
pub fn string_le(a: &String, b: &String) -> (r: bool)
    ensures
        r == name_le(a@, b@),
{
    let sa = a.as_str();
    let sb = b.as_str();
    let la = sa.unicode_len();
    let lb = sb.unicode_len();
    let mut i: usize = 0;
    assert(a@.skip(0) =~= a@ && b@.skip(0) =~= b@);
    while i < la && i < lb
        invariant
            i <= la == a@.len(),
            i <= lb == b@.len(),
            sa@ == a@,
            sb@ == b@,
            name_le(a@, b@) == name_le(a@.skip(i as int), b@.skip(i as int)),
        decreases la - i,
    {
        let ca = sa.get_char(i);
        let cb = sb.get_char(i);
        assert(a@.skip(i as int)[0] == ca && b@.skip(i as int)[0] == cb);
        if ca != cb {
            return ca < cb;
        }
        assert(a@.skip(i as int).drop_first() =~= a@.skip(i + 1));
        assert(b@.skip(i as int).drop_first() =~= b@.skip(i + 1));
        i += 1;
    }
    i == la
}

/// The names of `vars` in lexicographic order, as a table's header shows them.
pub fn sorted_variables(vars: &Vec<String>) -> (r: Vec<String>)
    ensures
        names(r@).to_multiset() == names(vars@).to_multiset(),
        sorted_names(names(r@)),
{
    let mut out: Vec<String> = Vec::new();
    let mut i: usize = 0;
    assert(names(vars@).take(0) =~= Seq::<Seq<char>>::empty());
    assert(names(out@) =~= Seq::<Seq<char>>::empty());
    while i < vars.len()
        invariant
            i <= vars.len(),
            names(out@).to_multiset() == names(vars@).take(i as int).to_multiset(),
            sorted_names(names(out@)),
        decreases vars.len() - i,
    {
        let v = &vars[i];
        let mut k: usize = 0;
        while k < out.len() && string_le(&out[k], v)
            invariant
                k <= out.len(),
                forall|j: int| 0 <= j < k ==> name_le(#[trigger] names(out@)[j], v@),
            decreases out.len() - k,
        {
            k += 1;
        }
        let ghost before = names(out@);
        proof {
            if k < out.len() {
                lemma_name_le_total(before[k as int], v@);
            }
        }
        out.insert(k, v.clone());
        proof {
            let now = names(out@);
            assert(now =~= before.insert(k as int, v@));
            assert(names(vars@).take(i + 1) =~= names(vars@).take(i as int).push(v@));
            assert forall|x: int, y: int| 0 <= x < y < now.len() implies name_le(
                #[trigger] now[x],
                #[trigger] now[y],
            ) by {
                if y < k {
                } else if y == k {
                } else if x < k {
                    lemma_name_le_trans(now[x], v@, before[k as int]);
                    if y - 1 > k {
                        lemma_name_le_trans(now[x], before[k as int], before[y - 1]);
                    }
                } else if x == k {
                    if y - 1 > k {
                        lemma_name_le_trans(v@, before[k as int], before[y - 1]);
                    }
                } else {
                }
            }
        }
        i += 1;
    }
    assert(names(vars@).take(vars.len() as int) =~= names(vars@));
    out
}

} // verus!
