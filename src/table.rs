//! Truth-table enumeration and the whole pipeline from text to table.
use vstd::prelude::*;
use vstd::arithmetic::power2::pow2;
use vstd::bits::{lemma_u64_shr_is_div, lemma_u64_shl_is_mul, lemma_u64_pow2_no_overflow};
use crate::token::{ErrorPosition, ErrorView};
use crate::ast::{Environment, Operation, OperationView, eval_op, shaped};
use crate::vars::{names, variables};

verus! {

/// Bit `k` of `c`, counting from the least significant.
pub open spec fn bit(c: nat, k: nat) -> bool {
    (c / pow2(k)) % 2 == 1
}

/// The assignment of row `c`: the variable at place `i` of `vars` takes bit
/// `len - 1 - i` of `c`, so that the first variable varies slowest.
pub open spec fn assignment(vars: Seq<Seq<char>>, c: nat) -> Seq<(Seq<char>, bool)> {
    Seq::new(vars.len(), |i: int| (vars[i], bit(c, (vars.len() - 1 - i) as nat)))
}

/// `rows` is the truth table of `op`: one row per counter value below
/// `2^len` in ascending order, each with its assignment and result.
pub open spec fn is_table_of(op: OperationView, rows: Seq<(Seq<(Seq<char>, bool)>, bool)>) -> bool {
    let vars = variables(op);
    &&& rows.len() == pow2(vars.len())
    &&& forall|c: int|
        0 <= c < rows.len() ==> {
            &&& (#[trigger] rows[c]).0 == assignment(vars, c as nat)
            &&& eval_op(op, rows[c].0) == Ok::<bool, ErrorView>(rows[c].1)
        }
}

/// The views of truth-table rows.
pub open spec fn rows_view(rows: Seq<(Environment, bool)>) -> Seq<(Seq<(Seq<char>, bool)>, bool)> {
    rows.map_values(|r: (Environment, bool)| (r.0@, r.1))
}

/// The most variables whose assignments can be counted in a `u64`.
pub const MAX_VARIABLES: usize = 63;

impl Operation {
    /// Evaluates the tree under every assignment of its variables.
    pub fn truth_table(&self) -> (r: Result<Vec<(Environment, bool)>, ErrorPosition>)
        requires
            shaped(self@),
            variables(self@).len() <= MAX_VARIABLES,
        ensures
            match r {
                Ok(rows) => is_table_of(self@, rows_view(rows@)),
                Err(e) => exists|c: nat|
                    {
                        &&& c < pow2(variables(self@).len())
                        &&& eval_op(self@, assignment(variables(self@), c)) == Err::<
                            bool,
                            ErrorView,
                        >(e@)
                        &&& forall|d: nat|
                            d < c ==> #[trigger] eval_op(
                                self@,
                                assignment(variables(self@), d),
                            ) is Ok
                    },
            },
    {
        let vars = self.get_variables();
        let ghost vs = variables(self@);
        let n = vars.len();
        proof {
            lemma_u64_pow2_no_overflow(n as nat);
            lemma_u64_shl_is_mul(1, n as u64);
        }
        let tests: u64 = 1u64 << (n as u64);
        let mut result: Vec<(Environment, bool)> = Vec::new();
        let mut num: u64 = 0;
        while num < tests
            invariant
                names(vars@) == vs,
                vs == variables(self@),
                n == vars.len(),
                n <= MAX_VARIABLES,
                tests == pow2(n as nat),
                num <= tests,
                shaped(self@),
                result.len() == num,
                forall|c: int|
                    0 <= c < num ==> {
                        &&& (#[trigger] result@[c]).0@ == assignment(vs, c as nat)
                        &&& eval_op(self@, result@[c].0@) == Ok::<bool, ErrorView>(result@[c].1)
                    },
            decreases tests - num,
        {
            let mut env = Environment { vars: Vec::new() };
            let mut pos: usize = 0;
            while pos < n
                invariant
                    names(vars@) == vs,
                    n == vars.len(),
                    n <= MAX_VARIABLES,
                    pos <= n,
                    env@ =~= assignment(vs, num as nat).take(pos as int),
                decreases n - pos,
            {
                let shift = (n - 1 - pos) as u64;
                let shifted = num >> shift;
                let value = (shifted & 1) == 1;
                proof {
                    lemma_u64_shr_is_div(num, shift);
                    assert((shifted & 1) == shifted % 2) by (bit_vector);
                }
                let ghost before = env@;
                env.vars.push((vars[pos].clone(), value));
                assert(env@ =~= before.push((vs[pos as int], value)));
                pos += 1;
            }
            assert(env@ =~= assignment(vs, num as nat));
            let b = match self.eval(&env) {
                Ok(b) => b,
                Err(e) => {
                    proof {
                        assert forall|d: nat| d < num implies #[trigger] eval_op(
                            self@,
                            assignment(vs, d),
                        ) is Ok by {
                            assert(result@[d as int].0@ == assignment(vs, d));
                        }
                    }
                    return Err(e);
                },
            };
            result.push((env, b));
            num += 1;
        }
        proof {
            assert forall|c: int| 0 <= c < rows_view(result@).len() implies {
                &&& (#[trigger] rows_view(result@)[c]).0 == assignment(vs, c as nat)
                &&& eval_op(self@, rows_view(result@)[c].0) == Ok::<bool, ErrorView>(rows_view(result@)[c].1)
            } by {
                assert(rows_view(result@)[c] == (result@[c].0@, result@[c].1));
            }
        }
        Ok(result)
    }
}

} // verus!
