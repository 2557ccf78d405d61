//! The recursive-descent parser. All binary operators share one level and
//! group left to right; `!` binds to the component that follows it.
//!
//! ```text
//! operation := component (binop component)*
//! binop     := And | Or | Xor
//! component := (Not)* ( Identifier | '(' operation ')' )
//! ```
use vstd::prelude::*;
use crate::token::{views, TokenKind, KindView, Token, TokenView, ErrorKind, ErrorKindView, ErrorPosition, ErrorView, error_at, is_binop};
use crate::lexer::{Lexer, lex, ends_once, prepend, lemma_scan_advances};
use crate::ast::{Component, ComponentView, Operation, OperationView, ValueView, VarOrExpr, well_formed, well_formed_comp, lemma_comps_view};

verus! {

/// The error for reading past the tokens; a parser over tokens that end
/// with `EndOfInput` never produces it.
pub open spec fn past_end() -> ErrorView {
    error_at(
        ErrorKindView::UnexpectedToken(KindView::EndOfInput),
        TokenView { kind: KindView::EndOfInput, col: 0, line: 0 },
    )
}

/// `r` with the component's negation flipped when `flip` holds.
pub open spec fn toggle(r: Result<(ComponentView, int), ErrorView>, flip: bool) -> Result<
    (ComponentView, int),
    ErrorView,
> {
    match r {
        Ok((c, e)) => Ok((ComponentView { value: c.value, negated: c.negated != flip }, e)),
        Err(e) => Err(e),
    }
}

/// The component that starts at token `p`, with the index just past it.
pub open spec fn parse_comp(ts: Seq<TokenView>, p: int) -> Result<(ComponentView, int), ErrorView>
    decreases ts.len() - p, 0int,
{
    if p < 0 || p >= ts.len() {
        Err(past_end())
    } else {
        let t = ts[p];
        match t.kind {
            KindView::Not => toggle(parse_comp(ts, p + 1), true),
            KindView::LeftParen => match parse_op(ts, p + 1) {
                Err(e) => Err(e),
                Ok((op, e)) => {
                    if e < 0 || e >= ts.len() {
                        Err(past_end())
                    } else if ts[e].kind is RightParen {
                        Ok((ComponentView { value: ValueView::Expr(op), negated: false }, e + 1))
                    } else {
                        Err(error_at(ErrorKindView::UnexpectedToken(ts[e].kind), ts[e]))
                    }
                },
            },
            KindView::Identifier(name) => Ok(
                (ComponentView { value: ValueView::Var(name), negated: false }, p + 1),
            ),
            _ => Err(error_at(ErrorKindView::UnexpectedToken(t.kind), t)),
        }
    }
}

/// The operation that starts at token `p`, with the index of the token that ends it.
pub open spec fn parse_op(ts: Seq<TokenView>, p: int) -> Result<(OperationView, int), ErrorView>
    decreases ts.len() - p, 1int,
{
    if p < 0 || p >= ts.len() {
        Err(past_end())
    } else {
        match parse_comp(ts, p) {
            Err(e) => Err(e),
            Ok((c, q)) => {
                if q <= p || q > ts.len() {
                    Err(past_end())
                } else {
                    parse_tail(ts, OperationView { components: seq![c], ops: seq![] }, q)
                }
            },
        }
    }
}

/// Extends `acc` by each operator at `q` and the component after it, for as
/// long as binary operators follow.
pub open spec fn parse_tail(ts: Seq<TokenView>, acc: OperationView, q: int) -> Result<
    (OperationView, int),
    ErrorView,
>
    decreases ts.len() - q, 2int,
{
    if q < 0 || q >= ts.len() {
        Err(past_end())
    } else if !is_binop(ts[q].kind) {
        Ok((acc, q))
    } else {
        match parse_comp(ts, q + 1) {
            Err(e) => Err(e),
            Ok((c, r)) => {
                if r <= q || r > ts.len() {
                    Err(past_end())
                } else {
                    parse_tail(
                        ts,
                        OperationView {
                            components: acc.components.push(c),
                            ops: acc.ops.push(ts[q]),
                        },
                        r,
                    )
                }
            },
        }
    }
}

/// The tree of a whole token sequence; tokens after the first operation are not read.
pub open spec fn parse_tokens(ts: Seq<TokenView>) -> Result<OperationView, ErrorView> {
    match parse_op(ts, 0) {
        Ok((op, _)) => Ok(op),
        Err(e) => Err(e),
    }
}

/// The tree of a line of text, or the first error in it.
pub open spec fn parse_source(s: Seq<char>) -> Result<OperationView, ErrorView> {
    match lex(s, 0) {
        Ok(ts) => parse_tokens(ts),
        Err(e) => Err(e),
    }
}

/// Parses a token sequence by an index into it.
pub struct Parser {
    pub tokens: Vec<Token>,
    pub pos: u32,
}

impl Parser {
    pub open spec fn wf(&self) -> bool {
        &&& ends_once(views(self.tokens@))
        &&& self.tokens@.len() <= u32::MAX
        &&& self.pos <= self.tokens@.len()
    }

    pub open spec fn toks(&self) -> Seq<TokenView> {
        views(self.tokens@)
    }

    /// Reads all tokens of the lexer's text, up to and including `EndOfInput`.
    pub fn new(lexer: &mut Lexer) -> (r: Result<Self, ErrorPosition>)
        requires
            old(lexer).reader.wf(),
        ensures
            final(lexer).reader.wf(),
            final(lexer).reader.source@ == old(lexer).reader.source@,
            match r {
                Ok(p) => {
                    &&& p.wf()
                    &&& p.pos == 0
                    &&& lex(old(lexer).reader.source@, old(lexer).reader.pos as int) == Ok::<
                        Seq<TokenView>,
                        ErrorView,
                    >(p.toks())
                },
                Err(e) => lex(old(lexer).reader.source@, old(lexer).reader.pos as int) == Err::<
                    Seq<TokenView>,
                    ErrorView,
                >(e@),
            },
    {
        let ghost s = lexer.reader.source@;
        let ghost start = lexer.reader.pos as int;
        let mut tokens: Vec<Token> = Vec::new();
        loop
            invariant
                lexer.reader.wf(),
                lexer.reader.source@ == s,
                s == old(lexer).reader.source@,
                start == old(lexer).reader.pos,
                start <= lexer.reader.pos,
                tokens.len() <= lexer.reader.pos - start,
                lex(s, start) == prepend(views(tokens@), lex(s, lexer.reader.pos as int)),
                forall|i: int| 0 <= i < tokens.len() ==> !((#[trigger] tokens@[i]).kind@ is EndOfInput),
            decreases s.len() - lexer.reader.pos,
        {
            let ghost p = lexer.reader.pos as int;
            proof {
                lemma_scan_advances(s, p);
            }
            let token = match lexer.next_token() {
                Ok(t) => t,
                Err(e) => {
                    assert(prepend(views(tokens@), lex(s, p)) == Err::<Seq<TokenView>, ErrorView>(e@));
                    return Err(e);
                },
            };
            let done = match token.kind {
                TokenKind::EndOfInput => true,
                _ => false,
            };
            let ghost before = tokens@;
            tokens.push(token);
            assert(views(tokens@) =~= views(before) + seq![token@]);
            if done {
                assert(lex(s, p) == Ok::<Seq<TokenView>, ErrorView>(seq![token@]));
                assert(ends_once(views(tokens@))) by {
                    assert forall|i: int| 0 <= i < views(tokens@).len() - 1 implies !(#[trigger] views(tokens@)[i].kind is EndOfInput) by {
                        assert(tokens@[i] == before[i]);
                    }
                }
                return Ok(Self { tokens, pos: 0 });
            }
            assert(views(before) + (seq![token@] + lex(s, lexer.reader.pos as int)->Ok_0) =~= views(tokens@) + lex(s, lexer.reader.pos as int)->Ok_0);
        }
    }

    /// The token at the cursor; the cursor moves past it.
    pub fn next(&mut self) -> (r: Token)
        requires
            old(self).wf(),
            old(self).pos < old(self).tokens@.len(),
        ensures
            final(self).wf(),
            final(self).tokens@ == old(self).tokens@,
            final(self).pos == old(self).pos + 1,
            r@ == old(self).toks()[old(self).pos as int],
    {
        let tok = self.tokens[self.pos as usize].copy();
        self.pos += 1;
        tok
    }

    /// Moves the cursor back by one token.
    pub fn back(&mut self)
        requires
            old(self).wf(),
            old(self).pos > 0,
        ensures
            final(self).wf(),
            final(self).tokens@ == old(self).tokens@,
            final(self).pos == old(self).pos - 1,
    {
        self.pos -= 1;
    }

    /// Parses an operation from the cursor on; on success the cursor stands
    /// at the token that ended it.
    pub fn parse(&mut self) -> (r: Result<Operation, ErrorPosition>)
        requires
            old(self).wf(),
            old(self).pos < old(self).tokens@.len(),
        ensures
            final(self).wf(),
            final(self).tokens@ == old(self).tokens@,
            match r {
                Ok(op) => {
                    &&& parse_op(old(self).toks(), old(self).pos as int) == Ok::<
                        (OperationView, int),
                        ErrorView,
                    >((op@, final(self).pos as int))
                    &&& old(self).pos < final(self).pos < final(self).tokens@.len()
                    &&& well_formed(op@)
                },
                Err(e) => parse_op(old(self).toks(), old(self).pos as int) == Err::<
                    (OperationView, int),
                    ErrorView,
                >(e@),
            },
        decreases old(self).tokens@.len() - old(self).pos, 1int,
    {
        let ghost ts = self.toks();
        let ghost begin = self.pos as int;
        let mut op = Operation { components: Vec::new(), ops: Vec::new() };
        let first = match self.component() {
            Ok(c) => c,
            Err(e) => return Err(e),
        };
        op.components.push(first);
        proof {
            lemma_comps_view(op.components@);
            assert(op.components@.drop_last() =~= Seq::<Component>::empty());
            assert(views(op.ops@) =~= Seq::<TokenView>::empty());
            assert(op@ == OperationView { components: seq![first@], ops: seq![] });
        }
        let mut token = self.next();
        while token.kind.is_binop()
            invariant
                self.wf(),
                self.toks() == ts,
                self.tokens@ == old(self).tokens@,
                ts == old(self).toks(),
                begin == old(self).pos,
                begin + 1 < self.pos <= ts.len(),
                token@ == ts[self.pos - 1],
                parse_op(ts, begin) == parse_tail(ts, op@, self.pos - 1),
                well_formed(op@),
            decreases ts.len() - self.pos,
        {
            let ghost q = self.pos - 1;
            let ghost before = op;
            op.ops.push(token);
            let c = match self.component() {
                Ok(c) => c,
                Err(e) => return Err(e),
            };
            op.components.push(c);
            proof {
                lemma_comps_view(op.components@);
                lemma_comps_view(before.components@);
                assert(op.components@.drop_last() =~= before.components@);
                assert(views(op.ops@) =~= views(before.ops@).push(ts[q]));
                assert(op@.components =~= before@.components.push(c@));
                assert forall|i: int| 0 <= i < op@.components.len() implies well_formed_comp(
                    #[trigger] op@.components[i],
                ) by {
                    if i < before@.components.len() {
                        assert(op@.components[i] == before@.components[i]);
                    }
                }
                assert forall|i: int| 0 <= i < op@.ops.len() implies is_binop(
                    #[trigger] op@.ops[i].kind,
                ) by {
                    if i < before@.ops.len() {
                        assert(op@.ops[i] == before@.ops[i]);
                    }
                }
            }
            token = self.next();
        }
        self.back();
        assert(parse_tail(ts, op@, self.pos as int) == Ok::<(OperationView, int), ErrorView>(
            (op@, self.pos as int),
        ));
        Ok(op)
    }

    /// Parses one component from the cursor on; on success the cursor stands
    /// just past it.
    pub fn component(&mut self) -> (r: Result<Component, ErrorPosition>)
        requires
            old(self).wf(),
            old(self).pos < old(self).tokens@.len(),
        ensures
            final(self).wf(),
            final(self).tokens@ == old(self).tokens@,
            match r {
                Ok(c) => {
                    &&& parse_comp(old(self).toks(), old(self).pos as int) == Ok::<
                        (ComponentView, int),
                        ErrorView,
                    >((c@, final(self).pos as int))
                    &&& old(self).pos < final(self).pos < final(self).tokens@.len()
                    &&& well_formed_comp(c@)
                },
                Err(e) => parse_comp(old(self).toks(), old(self).pos as int) == Err::<
                    (ComponentView, int),
                    ErrorView,
                >(e@),
            },
        decreases old(self).tokens@.len() - old(self).pos, 0int,
    {
        let ghost ts = self.toks();
        let ghost begin = self.pos as int;
        let mut neg = false;
        loop
            invariant
                self.wf(),
                self.toks() == ts,
                self.tokens@ == old(self).tokens@,
                ts == old(self).toks(),
                begin == old(self).pos,
                begin <= self.pos < ts.len(),
                parse_comp(ts, begin) == toggle(parse_comp(ts, self.pos as int), neg),
            decreases ts.len() - self.pos,
        {
            let ghost p = self.pos as int;
            let token = self.next();
            match token.kind {
                TokenKind::Not => {
                    neg = !neg;
                },
                TokenKind::LeftParen => {
                    let op = match self.parse() {
                        Ok(op) => op,
                        Err(e) => return Err(e),
                    };
                    let next = self.next();
                    match next.kind {
                        TokenKind::RightParen => {
                            return Ok(Component { value: VarOrExpr::Expr(op), negated: neg });
                        },
                        other => {
                            return Err(
                                ErrorPosition {
                                    kind: ErrorKind::UnexpectedToken(other),
                                    line: next.line,
                                    col_range: (next.col, next.col),
                                },
                            );
                        },
                    }
                },
                TokenKind::Identifier(name) => {
                    return Ok(Component { value: VarOrExpr::Var(name), negated: neg });
                },
                other => {
                    return Err(
                        ErrorPosition {
                            kind: ErrorKind::UnexpectedToken(other),
                            line: token.line,
                            col_range: (token.col, token.col),
                        },
                    );
                },
            }
        }
    }
}

} // verus!
