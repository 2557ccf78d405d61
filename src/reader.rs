//! A character cursor over one line of input that tracks line and column.
use vstd::prelude::*;

verus! {

/// An ASCII letter: the characters that may make up an identifier.
pub open spec fn is_letter(c: char) -> bool {
    ('a' <= c && c <= 'z') || ('A' <= c && c <= 'Z')
}

/// The line of the character at offset `p`, counting from 1.
pub open spec fn line_at(s: Seq<char>, p: int) -> int
    decreases p,
{
    if p <= 0 {
        1
    } else if s[p - 1] == '\n' {
        line_at(s, p - 1) + 1
    } else {
        line_at(s, p - 1)
    }
}

/// The number of characters read on the current line once `p` characters are read.
pub open spec fn col_at(s: Seq<char>, p: int) -> int
    decreases p,
{
    if p <= 0 {
        0
    } else if s[p - 1] == '\n' {
        0
    } else {
        col_at(s, p - 1) + 1
    }
}

/// The character at offset `p`, or nothing past the end.
pub open spec fn char_at(s: Seq<char>, p: int) -> Option<char> {
    if 0 <= p < s.len() {
        Some(s[p])
    } else {
        None
    }
}

pub proof fn lemma_line_col_bounds(s: Seq<char>, p: int)
    requires
        0 <= p,
    ensures
        1 <= line_at(s, p) <= p + 1,
        0 <= col_at(s, p) <= p,
    decreases p,
{
    if p > 0 {
        lemma_line_col_bounds(s, p - 1);
    }
}

pub fn is_alpha(c: char) -> (r: bool)
    ensures
        r == is_letter(c),
{
    ('a' <= c && c <= 'z') || ('A' <= c && c <= 'Z')
}

/// Reads a line of text one character at a time.
pub struct StringReader {
    pub pos: u32,
    pub source: String,
    pub col: u32,
    pub line: u32,
}

impl StringReader {
    /// The cursor stands within the text, and `line` / `col` describe the
    /// place just after the last character read.
    pub open spec fn wf(&self) -> bool {
        &&& self.source@.len() < u32::MAX
        &&& self.pos <= self.source@.len()
        &&& self.line == line_at(self.source@, self.pos as int)
        &&& self.col == col_at(self.source@, self.pos as int)
    }

    pub fn new(source: String) -> (r: Self)
        requires
            source@.len() < u32::MAX,
        ensures
            r.wf(),
            r.source@ == source@,
            r.pos == 0,
    {
        Self { pos: 0, line: 1, col: 0, source }
    }

    /// The next unread character, without consuming it.
    pub fn peak(&self) -> (r: Option<char>)
        requires
            self.wf(),
        ensures
            r == char_at(self.source@, self.pos as int),
    {
        let s = self.source.as_str();
        if (self.pos as usize) < s.unicode_len() {
            Some(s.get_char(self.pos as usize))
        } else {
            None
        }
    }

    /// Consumes and returns the next character; a newline starts a new line.
    pub fn read(&mut self) -> (r: Option<char>)
        requires
            old(self).wf(),
        ensures
            final(self).wf(),
            final(self).source@ == old(self).source@,
            r == char_at(old(self).source@, old(self).pos as int),
            final(self).pos == (if r is Some { old(self).pos + 1 } else { old(self).pos as int }),
    {
        let next = self.peak();
        if let Some(c) = next {
            proof {
                lemma_line_col_bounds(self.source@, self.pos as int);
            }
            if c == '\n' {
                self.line += 1;
                self.col = 0;
            } else {
                self.col += 1;
            }
            self.pos += 1;
        }
        next
    }
}

} // verus!
