//! The expression tree, its view, and its evaluation under an assignment.
use vstd::prelude::*;
use crate::token::{is_binop, views, Token, TokenView, KindView, ErrorKind, ErrorKindView, ErrorPosition, ErrorView, error_at};

verus! {

/// A variable's name, or a parenthesised sub-expression.
pub enum VarOrExpr {
    Var(String),
    Expr(Operation),
}

/// A possibly negated operand.
pub struct Component {
    pub value: VarOrExpr,
    pub negated: bool,
}

/// A chain of operands joined left to right: `ops[i]` stands between
/// `components[i]` and `components[i + 1]`.
pub struct Operation {
    pub components: Vec<Component>,
    pub ops: Vec<Token>,
}

pub enum ValueView {
    Var(Seq<char>),
    Expr(OperationView),
}

pub struct ComponentView {
    pub value: ValueView,
    pub negated: bool,
}

pub struct OperationView {
    pub components: Seq<ComponentView>,
    pub ops: Seq<TokenView>,
}

pub open spec fn op_view(op: Operation) -> OperationView
    decreases op, 1int,
{
    OperationView {
        components: comps_view(op.components@),
        ops: views(op.ops@),
    }
}

pub open spec fn comps_view(s: Seq<Component>) -> Seq<ComponentView>
    decreases s, 0int,
{
    if s.len() == 0 {
        Seq::empty()
    } else {
        comps_view(s.drop_last()).push(comp_view(s.last()))
    }
}

pub open spec fn comp_view(c: Component) -> ComponentView
    decreases c, 0int,
{
    ComponentView {
        value: match c.value {
            VarOrExpr::Var(name) => ValueView::Var(name@),
            VarOrExpr::Expr(op) => ValueView::Expr(op_view(op)),
        },
        negated: c.negated,
    }
}

impl View for Operation {
    type V = OperationView;

    open spec fn view(&self) -> OperationView {
        op_view(*self)
    }
}

impl View for Component {
    type V = ComponentView;

    open spec fn view(&self) -> ComponentView {
        comp_view(*self)
    }
}

pub proof fn lemma_comps_view(s: Seq<Component>)
    ensures
        comps_view(s).len() == s.len(),
        forall|i: int| 0 <= i < s.len() ==> #[trigger] comps_view(s)[i] == comp_view(s[i]),
    decreases s.len(),
{
    if s.len() > 0 {
        lemma_comps_view(s.drop_last());
    }
}


/// The value of `name` under `env`: that of its first entry, or `false`
/// where `env` has none.
pub open spec fn lookup(env: Seq<(Seq<char>, bool)>, name: Seq<char>) -> bool
    decreases env.len(),
{
    if env.len() == 0 {
        false
    } else if env[0].0 == name {
        env[0].1
    } else {
        lookup(env.drop_first(), name)
    }
}

/// Combines the running value `acc` with the next operand `b` by operator `t`.
pub open spec fn combine(t: TokenView, acc: bool, b: bool) -> Result<bool, ErrorView> {
    match t.kind {
        KindView::And => Ok(acc && b),
        KindView::Or => Ok(acc || b),
        KindView::Xor => Ok(acc != b),
        _ => Err(error_at(ErrorKindView::UnexpectedOperation(t.kind), t)),
    }
}

/// The value of a component: its variable or sub-expression, inverted when negated.
pub open spec fn eval_comp(c: ComponentView, env: Seq<(Seq<char>, bool)>) -> Result<bool, ErrorView>
    decreases c, 0int,
{
    let v = match c.value {
        ValueView::Var(name) => Ok(lookup(env, name)),
        ValueView::Expr(op) => eval_prefix(op, env, op.components.len() as int),
    };
    match v {
        Ok(b) => Ok(if c.negated { !b } else { b }),
        Err(e) => Err(e),
    }
}

/// The running value after the first `n` components, folded left to right.
pub open spec fn eval_prefix(op: OperationView, env: Seq<(Seq<char>, bool)>, n: int) -> Result<
    bool,
    ErrorView,
>
    decreases op, n,
{
    if n <= 0 || n > op.components.len() {
        Ok(false)
    } else if n == 1 {
        eval_comp(op.components[0], env)
    } else {
        match eval_prefix(op, env, n - 1) {
            Err(e) => Err(e),
            Ok(acc) => match eval_comp(op.components[n - 1], env) {
                Err(e) => Err(e),
                Ok(b) => combine(op.ops[n - 2], acc, b),
            },
        }
    }
}

/// The value of an operation: `false` with no operands, else the left-to-right fold.
pub open spec fn eval_op(op: OperationView, env: Seq<(Seq<char>, bool)>) -> Result<bool, ErrorView> {
    eval_prefix(op, env, op.components.len() as int)
}

/// Each operation has one operator between each two neighbouring operands.
pub open spec fn shaped(op: OperationView) -> bool
    decreases op, 1int,
{
    &&& (op.components.len() == 0 ==> op.ops.len() == 0)
    &&& (op.components.len() > 0 ==> op.ops.len() + 1 == op.components.len())
    &&& forall|i: int| 0 <= i < op.components.len() ==> shaped_comp(#[trigger] op.components[i])
}

pub open spec fn shaped_comp(c: ComponentView) -> bool
    decreases c, 0int,
{
    match c.value {
        ValueView::Var(_) => true,
        ValueView::Expr(op) => shaped(op),
    }
}

/// A tree as the parser builds it: at least one operand in each operation,
/// and only binary operators between them.
pub open spec fn well_formed(op: OperationView) -> bool
    decreases op, 1int,
{
    &&& op.components.len() >= 1
    &&& op.ops.len() + 1 == op.components.len()
    &&& forall|i: int| 0 <= i < op.ops.len() ==> is_binop(#[trigger] op.ops[i].kind)
    &&& forall|i: int| 0 <= i < op.components.len() ==> well_formed_comp(#[trigger] op.components[i])
}

pub open spec fn well_formed_comp(c: ComponentView) -> bool
    decreases c, 0int,
{
    match c.value {
        ValueView::Var(_) => true,
        ValueView::Expr(op) => well_formed(op),
    }
}

pub proof fn lemma_well_formed_shaped(op: OperationView)
    requires
        well_formed(op),
    ensures
        shaped(op),
    decreases op, 1int,
{
    assert forall|i: int| 0 <= i < op.components.len() implies shaped_comp(#[trigger] op.components[i]) by {
        lemma_well_formed_comp_shaped(op.components[i]);
    }
}

pub proof fn lemma_well_formed_comp_shaped(c: ComponentView)
    requires
        well_formed_comp(c),
    ensures
        shaped_comp(c),
    decreases c, 0int,
{
    if let ValueView::Expr(op) = c.value {
        lemma_well_formed_shaped(op);
    }
}

/// A component of a well-formed tree evaluates without error.
pub proof fn lemma_eval_comp_ok(c: ComponentView, env: Seq<(Seq<char>, bool)>)
    requires
        well_formed_comp(c),
    ensures
        eval_comp(c, env) is Ok,
    decreases c, 0int,
{
    if let ValueView::Expr(op) = c.value {
        lemma_eval_prefix_ok(op, env, op.components.len() as int);
    }
}

pub proof fn lemma_eval_prefix_ok(op: OperationView, env: Seq<(Seq<char>, bool)>, n: int)
    requires
        well_formed(op),
        n <= op.components.len(),
    ensures
        eval_prefix(op, env, n) is Ok,
    decreases op, n,
{
    if 1 <= n {
        lemma_eval_comp_ok(op.components[n - 1], env);
        if n > 1 {
            lemma_eval_prefix_ok(op, env, n - 1);
            assert(is_binop(op.ops[n - 2].kind));
        }
    }
}

/// A well-formed tree evaluates without error under every assignment.
pub proof fn lemma_eval_ok(op: OperationView, env: Seq<(Seq<char>, bool)>)
    requires
        well_formed(op),
    ensures
        eval_op(op, env) is Ok,
{
    lemma_eval_prefix_ok(op, env, op.components.len() as int);
}

/// The assignment of a truth-table row: each name with its value.
pub struct Environment {
    pub vars: Vec<(String, bool)>,
}

impl View for Environment {
    type V = Seq<(Seq<char>, bool)>;

    open spec fn view(&self) -> Seq<(Seq<char>, bool)> {
        self.vars@.map_values(|p: (String, bool)| (p.0@, p.1))
    }
}

impl Environment {
    /// The value of `name`; a name without an entry is `false`.
    pub fn get_variable(&self, name: &String) -> (r: bool)
        ensures
            r == lookup(self@, name@),
            (forall|i: int| 0 <= i < self@.len() ==> (#[trigger] self@[i]).0 != name@) ==> !r,
    {
        let ghost env = self@;
        let mut i: usize = 0;
        assert(env.subrange(0, env.len() as int) =~= env);
        while i < self.vars.len()
            invariant
                env == self@,
                i <= env.len(),
                lookup(env, name@) == lookup(env.subrange(i as int, env.len() as int), name@),
            decreases self.vars.len() - i,
        {
            assert(env.subrange(i as int, env.len() as int).drop_first() =~= env.subrange(
                i + 1,
                env.len() as int,
            ));
            if self.vars[i].0 == *name {
                return self.vars[i].1;
            }
            i += 1;
        }
        proof {
            lemma_lookup_absent(env, name@);
        }
        false
    }
}

/// A name without an entry reads as `false`.
pub proof fn lemma_lookup_absent(env: Seq<(Seq<char>, bool)>, name: Seq<char>)
    ensures
        (forall|i: int| 0 <= i < env.len() ==> (#[trigger] env[i]).0 != name) ==> !lookup(env, name),
    decreases env.len(),
{
    if env.len() > 0 {
        if forall|i: int| 0 <= i < env.len() ==> (#[trigger] env[i]).0 != name {
            let rest = env.drop_first();
            assert forall|i: int| 0 <= i < rest.len() implies (#[trigger] rest[i]).0 != name by {
                assert(rest[i] == env[i + 1]);
            }
        }
        lemma_lookup_absent(env.drop_first(), name);
    }
}

/// Once the fold fails, it fails with that error to the end.
pub proof fn lemma_prefix_err(op: OperationView, env: Seq<(Seq<char>, bool)>, k: int, n: int)
    requires
        1 <= k <= n <= op.components.len(),
        eval_prefix(op, env, k) is Err,
    ensures
        eval_prefix(op, env, n) == eval_prefix(op, env, k),
    decreases n - k,
{
    if n > k {
        lemma_prefix_err(op, env, k, n - 1);
    }
}

impl Component {
    pub fn eval(&self, env: &Environment) -> (r: Result<bool, ErrorPosition>)
        requires
            shaped_comp(self@),
        ensures
            match r {
                Ok(b) => eval_comp(self@, env@) == Ok::<bool, ErrorView>(b),
                Err(e) => eval_comp(self@, env@) == Err::<bool, ErrorView>(e@),
            },
        decreases self, 0int,
    {
        let mut val = match &self.value {
            VarOrExpr::Var(name) => env.get_variable(name),
            VarOrExpr::Expr(op) => {
                match op.eval(env) {
                    Ok(b) => b,
                    Err(e) => return Err(e),
                }
            },
        };
        if self.negated {
            val = !val;
        }
        Ok(val)
    }
}

impl Operation {
    pub fn eval(&self, env: &Environment) -> (r: Result<bool, ErrorPosition>)
        requires
            shaped(self@),
        ensures
            match r {
                Ok(b) => eval_op(self@, env@) == Ok::<bool, ErrorView>(b),
                Err(e) => eval_op(self@, env@) == Err::<bool, ErrorView>(e@),
            },
        decreases self, 1int,
    {
        proof {
            lemma_comps_view(self.components@);
        }
        let ghost op = self@;
        if self.components.len() == 0 {
            return Ok(false);
        }
        let mut value = match self.components[0].eval(env) {
            Ok(b) => b,
            Err(e) => {
                proof {
                    lemma_prefix_err(op, env@, 1, op.components.len() as int);
                }
                return Err(e);
            },
        };
        let mut idx: usize = 1;
        while idx < self.components.len()
            invariant
                op == self@,
                1 <= idx <= self.components.len(),
                self.components.len() == op.components.len(),
                self.ops.len() + 1 == self.components.len(),
                shaped(op),
                forall|i: int|
                    0 <= i < op.components.len() ==> op.components[i] == (
                    #[trigger] self.components@[i])@,
                eval_prefix(op, env@, idx as int) == Ok::<bool, ErrorView>(value),
            decreases self.components.len() - idx,
        {
            let b = match self.components[idx].eval(env) {
                Ok(b) => b,
                Err(e) => {
                    proof {
                        lemma_prefix_err(op, env@, idx + 1, op.components.len() as int);
                    }
                    return Err(e);
                },
            };
            let t = &self.ops[idx - 1];
            assert(op.ops[idx - 1] == t@);
            match t.kind {
                crate::token::TokenKind::And => value = value && b,
                crate::token::TokenKind::Or => value = value || b,
                crate::token::TokenKind::Xor => value = value != b,
                _ => {
                    proof {
                        lemma_prefix_err(op, env@, idx + 1, op.components.len() as int);
                    }
                    return Err(
                        ErrorPosition::from_token(
                            ErrorKind::UnexpectedOperation(t.kind.copy()),
                            t,
                        ),
                    )
                },
            }
            idx += 1;
        }
        Ok(value)
    }
}

} // verus!
