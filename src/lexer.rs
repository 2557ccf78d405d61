//! The tokenizer: turns the characters of a line into tokens.
use vstd::prelude::*;
use crate::reader::{StringReader, is_alpha, is_letter, line_at, col_at};
use crate::token::{TokenKind, KindView, Token, TokenView, ErrorKind, ErrorKindView, ErrorPosition, ErrorView};

verus! {

/// The kind of a one-character token, with `*`, `+`, `~` as synonyms of `&`, `|`, `!`.
pub open spec fn symbol_kind(c: char) -> Option<KindView> {
    if c == '(' {
        Some(KindView::LeftParen)
    } else if c == ')' {
        Some(KindView::RightParen)
    } else if c == '&' || c == '*' {
        Some(KindView::And)
    } else if c == '|' || c == '+' {
        Some(KindView::Or)
    } else if c == '!' || c == '~' {
        Some(KindView::Not)
    } else if c == '^' {
        Some(KindView::Xor)
    } else {
        None
    }
}

/// The offset just past the run of letters that starts at `p`.
pub open spec fn ident_end(s: Seq<char>, p: int) -> int
    decreases s.len() - p,
{
    if 0 <= p < s.len() && is_letter(s[p]) {
        ident_end(s, p + 1)
    } else {
        p
    }
}

/// The token of kind `k` as recognised once `p` characters are read.
pub open spec fn token_at(s: Seq<char>, p: int, k: KindView) -> TokenView {
    TokenView { kind: k, col: col_at(s, p), line: line_at(s, p) }
}

/// The next token from offset `p` on, with the offset after it; or the error
/// at the first character that starts no token. Spaces and newlines are skipped.
pub open spec fn scan(s: Seq<char>, p: int) -> Result<(TokenView, int), ErrorView>
    decreases s.len() - p,
{
    if p < 0 || p >= s.len() {
        Ok((token_at(s, p, KindView::EndOfInput), p))
    } else {
        let c = s[p];
        if c == ' ' || c == '\n' {
            scan(s, p + 1)
        } else if symbol_kind(c) is Some {
            Ok((token_at(s, p + 1, symbol_kind(c)->0), p + 1))
        } else if is_letter(c) {
            let e = ident_end(s, p + 1);
            Ok((token_at(s, e, KindView::Identifier(s.subrange(p, e))), e))
        } else {
            Err(
                ErrorView {
                    kind: ErrorKindView::UnexpectedCharacter(c),
                    line: line_at(s, p + 1),
                    col_range: (col_at(s, p + 1), col_at(s, p + 1)),
                },
            )
        }
    }
}

/// All tokens from offset `p` on, ending with the one `EndOfInput`; or the first error.
pub open spec fn lex(s: Seq<char>, p: int) -> Result<Seq<TokenView>, ErrorView>
    decreases s.len() - p,
{
    match scan(s, p) {
        Err(e) => Err(e),
        Ok((t, q)) => {
            if t.kind is EndOfInput || p < 0 || p >= s.len() || q <= p || q > s.len() {
                Ok(seq![t])
            } else {
                match lex(s, q) {
                    Ok(ts) => Ok(seq![t] + ts),
                    Err(e) => Err(e),
                }
            }
        },
    }
}

/// A token sequence as the parser needs it: `EndOfInput` last and only there.
pub open spec fn ends_once(ts: Seq<TokenView>) -> bool {
    &&& ts.len() >= 1
    &&& ts.last().kind is EndOfInput
    &&& forall|i: int| 0 <= i < ts.len() - 1 ==> !(#[trigger] ts[i].kind is EndOfInput)
}

/// `ts` in front of what `r` holds, if it holds tokens.
pub open spec fn prepend(ts: Seq<TokenView>, r: Result<Seq<TokenView>, ErrorView>) -> Result<
    Seq<TokenView>,
    ErrorView,
> {
    match r {
        Ok(rest) => Ok(ts + rest),
        Err(e) => Err(e),
    }
}

pub proof fn lemma_ident_end(s: Seq<char>, p: int)
    requires
        0 <= p <= s.len(),
    ensures
        p <= ident_end(s, p) <= s.len(),
        forall|i: int| p <= i < ident_end(s, p) ==> is_letter(#[trigger] s[i]),
    decreases s.len() - p,
{
    if p < s.len() && is_letter(s[p]) {
        lemma_ident_end(s, p + 1);
    }
}

/// A token other than the last moves the offset forward.
pub proof fn lemma_scan_advances(s: Seq<char>, p: int)
    requires
        0 <= p,
    ensures
        scan(s, p) matches Ok((t, q)) ==> (t.kind is EndOfInput || (p < q <= s.len())),
    decreases s.len() - p,
{
    if p < s.len() {
        let c = s[p];
        if c == ' ' || c == '\n' {
            lemma_scan_advances(s, p + 1);
        } else if is_letter(c) {
            lemma_ident_end(s, p + 1);
        }
    }
}

pub proof fn lemma_lex_ends_once(s: Seq<char>, p: int)
    requires
        0 <= p,
    ensures
        lex(s, p) matches Ok(ts) ==> ends_once(ts),
    decreases s.len() - p,
{
    lemma_scan_advances(s, p);
    if let Ok((t, q)) = scan(s, p) {
        if !(t.kind is EndOfInput || p >= s.len() || q <= p || q > s.len()) {
            lemma_lex_ends_once(s, q);
            if let Ok(ts) = lex(s, q) {
                let all = seq![t] + ts;
                assert forall|i: int| 0 <= i < all.len() - 1 implies !(#[trigger] all[i].kind is EndOfInput) by {
                    if i > 0 {
                        assert(all[i] == ts[i - 1]);
                    }
                }
            }
        }
    }
}

/// Produces tokens from a reader.
pub struct Lexer {
    pub reader: StringReader,
}

impl Lexer {
    /// A token of kind `kind` at the reader's current place.
    pub fn tok(&self, kind: TokenKind) -> (r: Token)
        ensures
            r@ == (TokenView { kind: kind@, col: self.reader.col as int, line: self.reader.line as int }),
    {
        Token { kind, col: self.reader.col, line: self.reader.line }
    }

    /// Recognises the next token, skipping spaces and newlines.
    pub fn next_token(&mut self) -> (r: Result<Token, ErrorPosition>)
        requires
            old(self).reader.wf(),
        ensures
            final(self).reader.wf(),
            final(self).reader.source@ == old(self).reader.source@,
            match r {
                Ok(t) => scan(old(self).reader.source@, old(self).reader.pos as int) == Ok::<
                    (TokenView, int),
                    ErrorView,
                >((t@, final(self).reader.pos as int)),
                Err(e) => scan(old(self).reader.source@, old(self).reader.pos as int) == Err::<
                    (TokenView, int),
                    ErrorView,
                >(e@),
            },
    {
        let ghost s = self.reader.source@;
        let ghost start = self.reader.pos as int;
        loop
            invariant
                self.reader.wf(),
                self.reader.source@ == s,
                s == old(self).reader.source@,
                start == old(self).reader.pos,
                start <= self.reader.pos,
                scan(s, start) == scan(s, self.reader.pos as int),
            decreases s.len() - self.reader.pos,
        {
            let ghost p = self.reader.pos as int;
            if let Some(c) = self.reader.read() {
                if c == ' ' || c == '\n' {
                    continue ;
                }
                let kind = if c == '(' {
                    TokenKind::LeftParen
                } else if c == ')' {
                    TokenKind::RightParen
                } else if c == '&' || c == '*' {
                    TokenKind::And
                } else if c == '|' || c == '+' {
                    TokenKind::Or
                } else if c == '!' || c == '~' {
                    TokenKind::Not
                } else if c == '^' {
                    TokenKind::Xor
                } else if is_alpha(c) {
                    return Ok(self.next_ident());
                } else {
                    return Err(
                        ErrorPosition {
                            kind: ErrorKind::UnexpectedCharacter(c),
                            line: self.reader.line,
                            col_range: (self.reader.col, self.reader.col),
                        },
                    );
                };
                return Ok(self.tok(kind));
            }
            return Ok(self.tok(TokenKind::EndOfInput));
        }
    }

    /// Reads the rest of an identifier whose first letter was just read.
    pub fn next_ident(&mut self) -> (r: Token)
        requires
            old(self).reader.wf(),
            old(self).reader.pos >= 1,
            is_letter(old(self).reader.source@[old(self).reader.pos - 1]),
        ensures
            final(self).reader.wf(),
            final(self).reader.source@ == old(self).reader.source@,
            final(self).reader.pos == ident_end(old(self).reader.source@, old(self).reader.pos as int),
            r@ == token_at(
                old(self).reader.source@,
                final(self).reader.pos as int,
                KindView::Identifier(
                    old(self).reader.source@.subrange(
                        old(self).reader.pos - 1,
                        final(self).reader.pos as int,
                    ),
                ),
            ),
    {
        let ghost s = self.reader.source@;
        let ghost begin = self.reader.pos as int;
        let start = self.reader.pos - 1;
        loop
            invariant
                self.reader.wf(),
                self.reader.source@ == s,
                s == old(self).reader.source@,
                begin == old(self).reader.pos,
                begin <= self.reader.pos,
                ident_end(s, begin) == ident_end(s, self.reader.pos as int),
            ensures
                self.reader.wf(),
                self.reader.source@ == s,
                ident_end(s, begin) == self.reader.pos,
            decreases s.len() - self.reader.pos,
        {
            let next = self.reader.peak();
            let more = match next {
                Some(c) => is_alpha(c),
                None => false,
            };
            if !more {
                break;
            }
            self.reader.read();
        }
        let name = String::from_str(self.reader.source.as_str().substring_char(start as usize, self.reader.pos as usize));
        self.tok(TokenKind::Identifier(name))
    }
}

} // verus!
