//! The pipeline for one line of text: tokens, tree, variables, truth table.
use vstd::prelude::*;
use crate::reader::StringReader;
use crate::lexer::{Lexer, lemma_lex_ends_once};
use crate::parser::{Parser, parse_source};
use crate::token::{ErrorPosition, ErrorView};
use crate::ast::{Environment, Operation, OperationView, eval_op, well_formed, lemma_well_formed_shaped, lemma_eval_ok};
use crate::vars::{names, variables};
use crate::header::{sorted_variables, sorted_names};
use crate::table::{MAX_VARIABLES, is_table_of, rows_view};

verus! {

/// Parses one line of text into a tree.
pub fn parse_str(src: String) -> (r: Result<Operation, ErrorPosition>)
    requires
        src@.len() < u32::MAX,
    ensures
        match r {
            Ok(op) => parse_source(src@) == Ok::<OperationView, ErrorView>(op@) && well_formed(op@),
            Err(e) => parse_source(src@) == Err::<OperationView, ErrorView>(e@),
        },
{
    let ghost s = src@;
    let mut lexer = Lexer { reader: StringReader::new(src) };
    let mut parser = match Parser::new(&mut lexer) {
        Ok(p) => p,
        Err(e) => return Err(e),
    };
    proof {
        lemma_lex_ends_once(s, 0);
    }
    parser.parse()
}

/// A parsed line: its tree, its variables in order of first occurrence and
/// in the order of the displayed header, and its truth table where the
/// variables are few enough to count.
pub struct Analysis {
    pub root: Operation,
    pub variables: Vec<String>,
    pub header: Vec<String>,
    pub table: Option<Vec<(Environment, bool)>>,
}

/// Parses a line and enumerates its truth table.
pub fn parse_expr(src: String) -> (r: Result<Analysis, ErrorPosition>)
    requires
        src@.len() < u32::MAX,
    ensures
        match r {
            Ok(a) => {
                &&& parse_source(src@) == Ok::<OperationView, ErrorView>(a.root@)
                &&& well_formed(a.root@)
                &&& names(a.variables@) == variables(a.root@)
                &&& names(a.header@).to_multiset() == variables(a.root@).to_multiset()
                &&& sorted_names(names(a.header@))
                &&& (a.table is Some <==> variables(a.root@).len() <= MAX_VARIABLES)
                &&& (a.table matches Some(rows) ==> is_table_of(a.root@, rows_view(rows@)))
            },
            Err(e) => parse_source(src@) == Err::<OperationView, ErrorView>(e@),
        },
{
    let root = match parse_str(src) {
        Ok(op) => op,
        Err(e) => return Err(e),
    };
    let vars = root.get_variables();
    let table = if vars.len() <= MAX_VARIABLES {
        proof {
            lemma_well_formed_shaped(root@);
            assert forall|env: Seq<(Seq<char>, bool)>| #[trigger] eval_op(root@, env) is Ok by {
                lemma_eval_ok(root@, env);
            }
        }
        match root.truth_table() {
            Ok(rows) => Some(rows),
            Err(e) => return Err(e),
        }
    } else {
        None
    };
    let header = sorted_variables(&vars);
    Ok(Analysis { root, variables: vars, header, table })
}

} // verus!
