//! The whole way of a source text: compile, optimize, list, run.

use crate::compile::{spec_compile, Labels, ParserView};
use crate::dump::{lines_view, listing};
use crate::error::Fault;
use crate::exec::{effects_view, spec_run, Effect};
use crate::lexer::{end_tokens, lex_tokens};
use crate::name_map::entries_map;
use crate::optimize::cfg::max_program_len;
use crate::optimize::constant::spec_constant_folding;
use crate::optimize::peekhole::spec_jump_chain;
use crate::optimize::remove_unreachable::spec_remove_unreachable;
use crate::parser::{ops_view, OpView, Parser, SyntaxError};
use crate::var_map::{StoreView, VariableMap};
use vstd::prelude::*;

verus! {

/// What is done with a source text.
#[derive(Debug, Clone, Copy)]
pub struct Options {
    /// Whether the intermediate code is listed.
    pub emit_ir: bool,
    /// Whether the program is executed.
    pub execute: bool,
    /// Whether the optimizer is enabled.
    pub optimize: bool,
}

impl Options {
    /// Optimize and execute, without a listing.
    pub fn new() -> (opts: Self)
        ensures
            !opts.emit_ir,
            opts.execute,
            opts.optimize,
    {
        Options { emit_ir: false, execute: true, optimize: true }
    }
}

/// Why a source text was not run to its end.
#[derive(Debug, Clone, Copy, PartialEq, Eq, Structural)]
pub enum RunError {
    /// The text is no program.
    Syntax(SyntaxError),
    /// The optimizer or the program itself ran into a fault.
    Fault(Fault),
}

/// What became of a source text.
#[derive(Debug)]
pub struct Report {
    /// The listing of the intermediate code, where one was asked for.
    pub listing: Option<Vec<String>>,
    /// What the program showed.
    pub output: Vec<Effect>,
    /// Why the work stopped early, if it did.
    pub error: Option<RunError>,
}

/// A program with its label table.
pub ghost struct Stage {
    pub code: Seq<OpView>,
    pub labels: Labels,
}

/// The program that the source text `s` compiles to, with the labels of
/// `labels` and its own.
pub open spec fn spec_front(s: Seq<char>, labels: Labels) -> Result<Stage, RunError> {
    match lex_tokens(s, 0, 0) {
        Err(e) => Err(RunError::Syntax(SyntaxError::Lex(e))),
        Ok(toks) => match spec_compile(
            toks + end_tokens(),
            ParserView {
                pos: 0,
                expr_pos: 0,
                temps: 0,
                label_cnt: 0,
                code: Seq::empty(),
                blocks: Seq::empty(),
            },
            labels,
        ) {
            Err(e) => Err(RunError::Syntax(e)),
            Ok((st, bound)) => Ok(Stage { code: st.code, labels: bound }),
        },
    }
}

/// The optimized program: constants are folded, chains of jumps are
/// collapsed, and what cannot be reached is removed, in this order.
pub open spec fn spec_optimize(stage: Stage) -> Result<Stage, RunError> {
    match spec_constant_folding(stage.code, stage.labels) {
        Err(fault) => Err(RunError::Fault(fault)),
        Ok(folded) => if folded.len() > max_program_len() {
            Err(RunError::Fault(Fault::ProgramTooLong))
        } else {
            match spec_jump_chain(folded, stage.labels, folded.len() as int) {
                Err(fault) => Err(RunError::Fault(fault)),
                Ok(collapsed) => match spec_remove_unreachable(collapsed, stage.labels) {
                    Err(fault) => Err(RunError::Fault(fault)),
                    Ok((code, labels)) => Ok(Stage { code, labels }),
                },
            }
        },
    }
}

/// The program that is listed and executed.
pub open spec fn spec_prepare(s: Seq<char>, optimize: bool, labels: Labels) -> Result<
    Stage,
    RunError,
> {
    match spec_front(s, labels) {
        Err(e) => Err(e),
        Ok(stage) => if optimize {
            spec_optimize(stage)
        } else {
            Ok(stage)
        },
    }
}

/// `lines` lists the program `code` with the labels `labels`; the labels
/// of one position may come in any order.
pub open spec fn lists(lines: Seq<Seq<char>>, code: Seq<OpView>, labels: Labels) -> bool {
    exists|names: Seq<Seq<char>>, values: Seq<i32>|
        names.no_duplicates() && names.len() == values.len() && entries_map(names, values)
            == labels && #[trigger] listing(code, names, values, code.len() as int + 1) == lines
}

/// Compiles the source text `s` and, as `opts` says, optimizes, lists and
/// executes the program, on the store `var_map`.
///
/// The variables and arrays of the store change only as the program
/// changes them. Where the text does not compile or the optimizer meets a
/// fault, nothing is listed or executed.
pub fn run(s: String, opts: &Options, var_map: &mut VariableMap) -> (report: Report)
    ensures
        match spec_prepare(s@, opts.optimize, old(var_map)@.labels) {
            Err(e) => {
                &&& report.error == Some(e)
                &&& report.listing is None
                &&& report.output@.len() == 0
                &&& final(var_map).map == old(var_map).map
                &&& final(var_map).array_map == old(var_map).array_map
            },
            Ok(stage) => {
                let before = StoreView { labels: stage.labels, ..old(var_map)@ };
                let ran = spec_run(stage.code, 0, before, Seq::empty(), u64::MAX as nat);
                &&& match report.listing {
                    Some(lines) => opts.emit_ir && lists(lines_view(lines@), stage.code, stage.labels),
                    None => !opts.emit_ir,
                }
                &&& if opts.execute {
                    &&& final(var_map)@ == ran.store
                    &&& effects_view(report.output@) == ran.output
                    &&& report.error == match ran.fault {
                        Some(fault) => Some(RunError::Fault(fault)),
                        None => None,
                    }
                } else {
                    &&& final(var_map)@ == before
                    &&& report.output@.len() == 0
                    &&& report.error is None
                }
            },
        },
{
    let mut parser = Parser::new(s);
    match parser.compile(var_map) {
        Ok(()) => {},
        Err(e) => {
            return Report { listing: None, output: Vec::new(), error: Some(RunError::Syntax(e)) };
        },
    }
    if opts.optimize {
        match optimize(&mut parser, var_map) {
            Ok(()) => {},
            Err(fault) => {
                return Report { listing: None, output: Vec::new(), error: Some(RunError::Fault(fault)) };
            },
        }
    }
    let ghost stage = spec_prepare(s@, opts.optimize, old(var_map)@.labels)->Ok_0;
    let listing = if opts.emit_ir {
        let lines = parser.dump_internal_code(var_map);
        proof {
            use_type_invariant(&var_map.label_map);
            var_map.label_map.lemma_entries();
            assert(listing(
                stage.code,
                var_map.label_map.names(),
                var_map.label_map.values(),
                stage.code.len() as int + 1,
            ) == lines_view(lines@));
        }
        Some(lines)
    } else {
        None
    };
    if opts.execute {
        let done = parser.exec(var_map);
        let error = match done.fault {
            Some(fault) => Some(RunError::Fault(fault)),
            None => None,
        };
        Report { listing, output: done.output, error }
    } else {
        Report { listing, output: Vec::new(), error: None }
    }
}

/// Runs the passes of the optimizer on the program of `parser`.
pub fn optimize(parser: &mut Parser, var_map: &mut VariableMap) -> (done: Result<(), Fault>)
    ensures
        final(parser).lexer == old(parser).lexer,
        final(var_map).map == old(var_map).map,
        final(var_map).array_map == old(var_map).array_map,
        match spec_optimize(
            Stage { code: ops_view(old(parser).internal_code@), labels: old(var_map)@.labels },
        ) {
            Ok(stage) => {
                &&& done is Ok
                &&& ops_view(final(parser).internal_code@) == stage.code
                &&& final(var_map)@.labels == stage.labels
            },
            Err(e) => done matches Err(fault) && e == RunError::Fault(fault),
        },
{
    match parser.optimize_constant_folding(var_map) {
        Ok(()) => {},
        Err(fault) => {
            return Err(fault);
        },
    }
    match parser.optimize_jump_chain(var_map) {
        Ok(()) => {},
        Err(fault) => {
            return Err(fault);
        },
    }
    parser.remove_unreachable_ops(var_map)
}

} // verus!
