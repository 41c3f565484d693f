//! A small interpreted language: source text is parsed into statements,
//! lowered to a flat, address-based intermediate representation, and executed
//! by a single-stack machine over an indirectly addressed value store. The
//! lowering and execution engines keep their state across submissions, so the
//! language can be driven one submission at a time.

use vstd::prelude::*;

pub mod compiler;
pub mod data;
pub mod easy;
pub mod interpreter;
pub mod names;
pub mod parser;
pub mod timer;

use crate::compiler::{Compiler, compile_program};
use crate::interpreter::{Interpreter, RunError, StepV, VmV, label_map, labels_ok, ops_v,
    strip_labels, vm_iter};
use crate::parser::program_of_text;

verus! {

/// What stopped a submission: it could not be read, it could not be lowered,
/// or the machine met a fatal condition while running it.
#[derive(Debug)]
pub enum LangError {
    Parse(parser::ParseError),
    Compile(compiler::CompileError),
    Run(RunError),
}

/// The whole language: a lowering engine and an execution engine whose state
/// persists across submissions.
pub struct Lang {
    pub compiler: Compiler,
    pub interpreter: Interpreter,
    pub debug: bool,
}

impl Lang {
    /// A fresh language with empty persistent state.
    pub fn new() -> (r: Lang)
        ensures
            r.compiler.st() == (compiler::CompSt {
                vars: Map::<Seq<char>, i32>::empty(),
                funcs: Map::<Seq<char>, compiler::FuncV>::empty(),
                caddr: 0,
                fnprog: Seq::<interpreter::OpV>::empty(),
            }),
            r.interpreter.vm() == (VmV {
                store: Map::empty(),
                points: Map::empty(),
                prog: Seq::empty(),
                stack: Seq::empty(),
                output: Seq::empty(),
            }),
            !r.debug,
    {
        Lang { compiler: Compiler::continues(), interpreter: Interpreter::new(), debug: false }
    }

    /// Parses, lowers and runs one submission against the persistent state.
    /// Every line the run printed stands appended to the interpreter's
    /// `output`; a fatal condition at any stage is handed back as the error
    /// of that stage.
    pub fn continues(&mut self, s: String) -> (r: Result<(), LangError>)
        ensures
            final(self).debug == old(self).debug,
            ({
                match program_of_text(s@) {
                    Err(e) => r matches Err(le) && (le matches LangError::Parse(e2) && e2@ == e)
                        && *final(self) == *old(self),
                    Ok(insts) => match compile_program(insts, old(self).compiler.st()) {
                        Err(e) => r matches Err(le) && (le matches LangError::Compile(e2) && e2@
                            == e) && final(self).interpreter == old(self).interpreter,
                        Ok(pr) => final(self).compiler.st() == pr.1 && ops_v(
                            final(self).compiler.program@,
                        ) == pr.0 && ({
                            let opsv = pr.0;
                            let init = VmV {
                                store: old(self).interpreter.store_v(),
                                points: label_map(old(self).interpreter.points@, opsv),
                                prog: strip_labels(opsv),
                                stack: old(self).interpreter.call_stack@.push(0),
                                output: old(self).interpreter.out_v(),
                            };
                            if labels_ok(opsv) {
                                match r {
                                    Ok(_) => exists|n: nat|
                                        vm_iter(init, n) == StepV::Done(
                                            final(self).interpreter.vm(),
                                        ),
                                    Err(le) => le matches LangError::Run(e2) && ((e2
                                        == RunError::StepLimit && vm_iter(init, u64::MAX as nat)
                                        == StepV::More(final(self).interpreter.vm())) || exists|
                                        n: nat,
                                    |
                                        vm_iter(init, n) == StepV::Fail(
                                            final(self).interpreter.vm(),
                                            e2,
                                        )),
                                }
                            } else {
                                r matches Err(le) && (le matches LangError::Run(e2) && e2
                                    == RunError::NotANumber)
                            }
                        }),
                    },
                }
            }),
    {
        let insts = match parser::parse(s) {
            Ok(i) => i,
            Err(e) => {
                return Err(LangError::Parse(e));
            },
        };
        let ops = match self.compiler.continues_compile(insts) {
            Ok(o) => o,
            Err(e) => {
                return Err(LangError::Compile(e));
            },
        };
        match self.interpreter.continues_run(ops) {
            Ok(_) => Ok(()),
            Err(e) => Err(LangError::Run(e)),
        }
    }
}

} // verus!
