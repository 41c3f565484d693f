//! The execution engine: a fetch-execute loop over a single stack of pending
//! instruction positions, operating on an indirectly addressed value store.

use vstd::prelude::*;
use crate::data::{DATA, DataV, data_display, data_i32, data_is_text};
use std::collections::HashMap;

verus! {

broadcast use vstd::std_specs::hash::group_hash_axioms;

/// A fatal runtime condition; execution stops at the instruction that met it.
#[allow(non_camel_case_types)]
#[derive(Debug, Clone, Copy, PartialEq, Eq, Structural)]
pub enum RunError {
    /// A reference chased through the store reached an address that holds
    /// nothing.
    NullPointer(i32),
    /// A reference chase revisited addresses without reaching a value.
    PointerCycle(i32),
    /// A text value stood where a number was needed.
    NotANumber,
    /// The divisor resolved to zero.
    DivisionByZero,
    /// The smallest number was divided by minus one.
    DivisionOverflow,
    /// A jump or call named a label that was never resolved.
    UnknownLabel(i32),
    /// A return was executed with nothing left on the continuation stack.
    StackUnderflow,
    /// The run reached the greatest number of steps the engine is willing to
    /// take in one invocation; the machine itself had not stopped.
    StepLimit,
}

/// One instruction of the flat intermediate representation. Operands are
/// values; an operand that is an address is resolved through the store at
/// execution time.
#[allow(non_camel_case_types)]
#[derive(Debug, Clone)]
pub enum Operation {
    POINT { name: DATA },
    SET { name: DATA, value: DATA },
    JUMP { name: DATA },
    PRINT { value: DATA },
    CALL { name: DATA },
    RET,
    HALT,
    JUMP_IF { name: DATA, condition: DATA },
    EQ { name: DATA, value: DATA, ret: DATA },
    GREATER { name: DATA, value: DATA, ret: DATA },
    NOT { name: DATA, ret: DATA },
    ADD { name: DATA, value: DATA, ret: DATA },
    SUB { name: DATA, value: DATA, ret: DATA },
    MUL { name: DATA, value: DATA, ret: DATA },
    DIV { name: DATA, value: DATA, ret: DATA },
    NOP,
    DROP { name: DATA },
}

/// The mathematical model of one instruction.
#[allow(non_camel_case_types)]
pub enum OpV {
    POINT { name: DataV },
    SET { name: DataV, value: DataV },
    JUMP { name: DataV },
    PRINT { value: DataV },
    CALL { name: DataV },
    RET,
    HALT,
    JUMP_IF { name: DataV, condition: DataV },
    EQ { name: DataV, value: DataV, ret: DataV },
    GREATER { name: DataV, value: DataV, ret: DataV },
    NOT { name: DataV, ret: DataV },
    ADD { name: DataV, value: DataV, ret: DataV },
    SUB { name: DataV, value: DataV, ret: DataV },
    MUL { name: DataV, value: DataV, ret: DataV },
    DIV { name: DataV, value: DataV, ret: DataV },
    NOP,
    DROP { name: DataV },
}

impl View for Operation {
    type V = OpV;

    open spec fn view(&self) -> OpV {
        match self {
            Operation::POINT { name } => OpV::POINT { name: name@ },
            Operation::SET { name, value } => OpV::SET { name: name@, value: value@ },
            Operation::JUMP { name } => OpV::JUMP { name: name@ },
            Operation::PRINT { value } => OpV::PRINT { value: value@ },
            Operation::CALL { name } => OpV::CALL { name: name@ },
            Operation::RET => OpV::RET,
            Operation::HALT => OpV::HALT,
            Operation::JUMP_IF { name, condition } => OpV::JUMP_IF {
                name: name@,
                condition: condition@,
            },
            Operation::EQ { name, value, ret } => OpV::EQ { name: name@, value: value@, ret: ret@ },
            Operation::GREATER { name, value, ret } => OpV::GREATER {
                name: name@,
                value: value@,
                ret: ret@,
            },
            Operation::NOT { name, ret } => OpV::NOT { name: name@, ret: ret@ },
            Operation::ADD { name, value, ret } => OpV::ADD {
                name: name@,
                value: value@,
                ret: ret@,
            },
            Operation::SUB { name, value, ret } => OpV::SUB {
                name: name@,
                value: value@,
                ret: ret@,
            },
            Operation::MUL { name, value, ret } => OpV::MUL {
                name: name@,
                value: value@,
                ret: ret@,
            },
            Operation::DIV { name, value, ret } => OpV::DIV {
                name: name@,
                value: value@,
                ret: ret@,
            },
            Operation::NOP => OpV::NOP,
            Operation::DROP { name } => OpV::DROP { name: name@ },
        }
    }
}

impl Operation {
    /// A copy of this instruction, equal to it in the model.
    pub fn dup(&self) -> (r: Operation)
        ensures
            r@ == self@,
    {
        match self {
            Operation::POINT { name } => Operation::POINT { name: name.dup() },
            Operation::SET { name, value } => Operation::SET {
                name: name.dup(),
                value: value.dup(),
            },
            Operation::JUMP { name } => Operation::JUMP { name: name.dup() },
            Operation::PRINT { value } => Operation::PRINT { value: value.dup() },
            Operation::CALL { name } => Operation::CALL { name: name.dup() },
            Operation::RET => Operation::RET,
            Operation::HALT => Operation::HALT,
            Operation::JUMP_IF { name, condition } => Operation::JUMP_IF {
                name: name.dup(),
                condition: condition.dup(),
            },
            Operation::EQ { name, value, ret } => Operation::EQ {
                name: name.dup(),
                value: value.dup(),
                ret: ret.dup(),
            },
            Operation::GREATER { name, value, ret } => Operation::GREATER {
                name: name.dup(),
                value: value.dup(),
                ret: ret.dup(),
            },
            Operation::NOT { name, ret } => Operation::NOT { name: name.dup(), ret: ret.dup() },
            Operation::ADD { name, value, ret } => Operation::ADD {
                name: name.dup(),
                value: value.dup(),
                ret: ret.dup(),
            },
            Operation::SUB { name, value, ret } => Operation::SUB {
                name: name.dup(),
                value: value.dup(),
                ret: ret.dup(),
            },
            Operation::MUL { name, value, ret } => Operation::MUL {
                name: name.dup(),
                value: value.dup(),
                ret: ret.dup(),
            },
            Operation::DIV { name, value, ret } => Operation::DIV {
                name: name.dup(),
                value: value.dup(),
                ret: ret.dup(),
            },
            Operation::NOP => Operation::NOP,
            Operation::DROP { name } => Operation::DROP { name: name.dup() },
        }
    }
}

/// The view of a sequence of instructions.
pub open spec fn ops_v(s: Seq<Operation>) -> Seq<OpV> {
    s.map_values(|o: Operation| o@)
}

// ---------------------------------------------------------------------------
// Reference resolution
// ---------------------------------------------------------------------------

/// Chases a value through the store: an address is looked up and its content
/// resolved in turn, until a non-address value is reached. An address that
/// holds nothing is a dangling reference; running out of fuel means the chase
/// revisited an address.
pub open spec fn resolve_data(store: Map<i32, DataV>, d: DataV, fuel: nat) -> Result<
    DataV,
    RunError,
>
    decreases fuel,
{
    match d {
        DataV::Pointer(p) => {
            if !store.contains_key(p) {
                Err(RunError::NullPointer(p))
            } else if fuel == 0 {
                Err(RunError::PointerCycle(p))
            } else {
                resolve_data(store, store[p], (fuel - 1) as nat)
            }
        },
        _ => Ok(d),
    }
}

/// Resolution followed by the numeric coercion.
pub open spec fn resolve_num(store: Map<i32, DataV>, d: DataV) -> Result<i32, RunError> {
    match resolve_data(store, d, store.dom().len()) {
        Err(e) => Err(e),
        Ok(v) => if data_is_text(v) {
            Err(RunError::NotANumber)
        } else {
            Ok(data_i32(v))
        },
    }
}

/// Truncating 32-bit division, written over the magnitudes.
pub open spec fn div_trunc(a: i32, b: i32) -> i32
    recommends
        b != 0,
        !(a == i32::MIN && b == -1),
{
    let ma: int = if a >= 0 {
        a as int
    } else {
        -(a as int)
    };
    let mb: int = if b >= 0 {
        b as int
    } else {
        -(b as int)
    };
    let q = ma / mb;
    if (a < 0) != (b < 0) {
        (-q) as i32
    } else {
        q as i32
    }
}

// ---------------------------------------------------------------------------
// The machine and its model
// ---------------------------------------------------------------------------

/// The model of the whole machine: the store, the resolved label table, the
/// label-stripped program, the continuation stack, and the lines printed.
#[verifier::ext_equal]
pub struct VmV {
    pub store: Map<i32, DataV>,
    pub points: Map<i32, usize>,
    pub prog: Seq<OpV>,
    pub stack: Seq<usize>,
    pub output: Seq<Seq<char>>,
}

/// What one step of the machine does.
pub enum StepV {
    /// The machine took the step and goes on in the given state.
    More(VmV),
    /// The machine stopped in the given state.
    Done(VmV),
    /// The machine met a fatal condition in the given state.
    Fail(VmV, RunError),
}

/// One step of the machine: pop the top position; past the end means stop;
/// otherwise push the next position as the default continuation and execute
/// the instruction at the popped position.
pub open spec fn vm_step(s: VmV) -> StepV {
    if s.stack.len() == 0 {
        StepV::Fail(s, RunError::StackUnderflow)
    } else {
        let i = s.stack.last();
        let popped = VmV { stack: s.stack.drop_last(), ..s };
        if i >= s.prog.len() {
            StepV::Done(popped)
        } else {
            let s1 = VmV { stack: popped.stack.push((i + 1) as usize), ..s };
            match s.prog[i as int] {
                OpV::NOP => StepV::More(s1),
                OpV::RET => StepV::More(popped),
                OpV::HALT => StepV::Done(s1),
                OpV::POINT { name } => match resolve_num(s.store, name) {
                    Err(e) => StepV::Fail(s1, e),
                    Ok(pos) => StepV::More(
                        VmV { points: s1.points.insert(pos, i as usize), ..s1 },
                    ),
                },
                OpV::DROP { name } => match resolve_num(s.store, name) {
                    Err(e) => StepV::Fail(s1, e),
                    Ok(pos) => StepV::More(VmV { store: s1.store.remove(pos), ..s1 }),
                },
                OpV::SET { name, value } => match resolve_data(s.store, value, s.store.dom().len()) {
                    Err(e) => StepV::Fail(s1, e),
                    Ok(rv) => match resolve_num(s.store, name) {
                        Err(e) => StepV::Fail(s1, e),
                        Ok(pos) => StepV::More(VmV { store: s1.store.insert(pos, rv), ..s1 }),
                    },
                },
                OpV::JUMP { name } => match resolve_num(s.store, name) {
                    Err(e) => StepV::Fail(s1, e),
                    Ok(pos) => if s.points.contains_key(pos) {
                        StepV::More(VmV { stack: popped.stack.push(s.points[pos]), ..s1 })
                    } else {
                        StepV::Fail(s1, RunError::UnknownLabel(pos))
                    },
                },
                OpV::CALL { name } => match resolve_num(s.store, name) {
                    Err(e) => StepV::Fail(s1, e),
                    Ok(pos) => if s.points.contains_key(pos) {
                        StepV::More(VmV { stack: s1.stack.push(s.points[pos]), ..s1 })
                    } else {
                        StepV::Fail(s1, RunError::UnknownLabel(pos))
                    },
                },
                OpV::JUMP_IF { name, condition } => match resolve_num(s.store, condition) {
                    Err(e) => StepV::Fail(s1, e),
                    Ok(c) => if c == 1 {
                        match resolve_num(s.store, name) {
                            Err(e) => StepV::Fail(s1, e),
                            Ok(pos) => if s.points.contains_key(pos) {
                                StepV::More(
                                    VmV { stack: popped.stack.push(s.points[pos]), ..s1 },
                                )
                            } else {
                                StepV::Fail(s1, RunError::UnknownLabel(pos))
                            },
                        }
                    } else {
                        StepV::More(s1)
                    },
                },
                OpV::PRINT { value } => match resolve_data(s.store, value, s.store.dom().len()) {
                    Err(e) => StepV::Fail(s1, e),
                    Ok(rv) => StepV::More(
                        VmV { output: s1.output.push(data_display(rv)), ..s1 },
                    ),
                },
                OpV::GREATER { name, value, ret } => match vm_binop_args(s.store, name, value, ret) {
                    Err(e) => StepV::Fail(s1, e),
                    Ok((b, a, r)) => StepV::More(
                        VmV { store: s1.store.insert(r, DataV::Bool(b > a)), ..s1 },
                    ),
                },
                OpV::EQ { name, value, ret } => match vm_binop_args(s.store, name, value, ret) {
                    Err(e) => StepV::Fail(s1, e),
                    Ok((b, a, r)) => StepV::More(
                        VmV { store: s1.store.insert(r, DataV::Bool(b == a)), ..s1 },
                    ),
                },
                OpV::NOT { name, ret } => match resolve_num(s.store, name) {
                    Err(e) => StepV::Fail(s1, e),
                    Ok(b) => match resolve_num(s.store, ret) {
                        Err(e) => StepV::Fail(s1, e),
                        Ok(r) => StepV::More(
                            VmV { store: s1.store.insert(r, DataV::Bool(b == 0)), ..s1 },
                        ),
                    },
                },
                OpV::ADD { name, value, ret } => match vm_binop_args(s.store, name, value, ret) {
                    Err(e) => StepV::Fail(s1, e),
                    Ok((b, a, r)) => StepV::More(
                        VmV {
                            store: s1.store.insert(
                                r,
                                DataV::Number(vstd::wrapping::i32_specs::wrapping_add(b, a)),
                            ),
                            ..s1
                        },
                    ),
                },
                OpV::SUB { name, value, ret } => match vm_binop_args(s.store, name, value, ret) {
                    Err(e) => StepV::Fail(s1, e),
                    Ok((b, a, r)) => StepV::More(
                        VmV {
                            store: s1.store.insert(
                                r,
                                DataV::Number(vstd::wrapping::i32_specs::wrapping_sub(b, a)),
                            ),
                            ..s1
                        },
                    ),
                },
                OpV::MUL { name, value, ret } => match vm_binop_args(s.store, name, value, ret) {
                    Err(e) => StepV::Fail(s1, e),
                    Ok((b, a, r)) => StepV::More(
                        VmV {
                            store: s1.store.insert(
                                r,
                                DataV::Number(vstd::wrapping::i32_specs::wrapping_mul(b, a)),
                            ),
                            ..s1
                        },
                    ),
                },
                OpV::DIV { name, value, ret } => match vm_binop_args(s.store, name, value, ret) {
                    Err(e) => StepV::Fail(s1, e),
                    Ok((b, a, r)) => if a == 0 {
                        StepV::Fail(s1, RunError::DivisionByZero)
                    } else if b == i32::MIN && a == -1 {
                        StepV::Fail(s1, RunError::DivisionOverflow)
                    } else {
                        StepV::More(
                            VmV { store: s1.store.insert(r, DataV::Number(div_trunc(b, a))), ..s1 },
                        )
                    },
                },
            }
        }
    }
}

/// The three operands of an arithmetic or comparison instruction, resolved in
/// the order the machine resolves them: the right operand, the left operand,
/// then the destination.
pub open spec fn vm_binop_args(
    store: Map<i32, DataV>,
    name: DataV,
    value: DataV,
    ret: DataV,
) -> Result<(i32, i32, i32), RunError> {
    match resolve_num(store, value) {
        Err(e) => Err(e),
        Ok(a) => match resolve_num(store, name) {
            Err(e) => Err(e),
            Ok(b) => match resolve_num(store, ret) {
                Err(e) => Err(e),
                Ok(r) => Ok((b, a, r)),
            },
        },
    }
}

/// The machine after `n` steps, as long as it keeps going.
pub open spec fn vm_iter(s: VmV, n: nat) -> StepV
    decreases n,
{
    if n == 0 {
        StepV::More(s)
    } else {
        match vm_iter(s, (n - 1) as nat) {
            StepV::More(s2) => vm_step(s2),
            done => done,
        }
    }
}

// ---------------------------------------------------------------------------
// Label resolution
// ---------------------------------------------------------------------------

/// The program with every label instruction removed.
pub open spec fn strip_labels(ops: Seq<OpV>) -> Seq<OpV>
    decreases ops.len(),
{
    if ops.len() == 0 {
        Seq::empty()
    } else {
        let front = strip_labels(ops.drop_last());
        if ops.last() is POINT {
            front
        } else {
            front.push(ops.last())
        }
    }
}

/// The label of a label instruction.
pub open spec fn point_label(o: OpV) -> DataV {
    match o {
        OpV::POINT { name } => name,
        _ => arbitrary(),
    }
}

/// Whether every label in the program is numeric.
pub open spec fn labels_ok(ops: Seq<OpV>) -> bool {
    forall|j: int|
        0 <= j < ops.len() && #[trigger] ops[j] is POINT ==> !data_is_text(point_label(ops[j]))
}

/// The label table after resolving the program's labels: each label maps to
/// the position its following instruction occupies in the label-stripped
/// program. A label defined twice keeps its later position.
pub open spec fn label_map(m: Map<i32, usize>, ops: Seq<OpV>) -> Map<i32, usize>
    decreases ops.len(),
{
    if ops.len() == 0 {
        m
    } else {
        let front = ops.drop_last();
        let r = label_map(m, front);
        if ops.last() is POINT && !data_is_text(point_label(ops.last())) {
            r.insert(data_i32(point_label(ops.last())), strip_labels(front).len() as usize)
        } else {
            r
        }
    }
}

// ---------------------------------------------------------------------------
// The interpreter
// ---------------------------------------------------------------------------

/// The execution engine. It owns the value store, the resolved label table,
/// the label-stripped program, the continuation stack, and the lines printed
/// so far; all of it persists across repeated runs.
pub struct Interpreter {
    pub data: HashMap<i32, DATA>,
    pub points: HashMap<i32, usize>,
    pub programms: Vec<Operation>,
    pub call_stack: Vec<usize>,
    pub output: Vec<String>,
}

impl Interpreter {
    /// The model of the value store.
    pub open spec fn store_v(&self) -> Map<i32, DataV> {
        self.data@.map_values(|d: DATA| d@)
    }

    /// The model of the printed lines.
    pub open spec fn out_v(&self) -> Seq<Seq<char>> {
        self.output@.map_values(|s: String| s@)
    }

    /// The model of the whole machine.
    pub open spec fn vm(&self) -> VmV {
        VmV {
            store: self.store_v(),
            points: self.points@,
            prog: ops_v(self.programms@),
            stack: self.call_stack@,
            output: self.out_v(),
        }
    }

    /// A fresh engine: empty store, no labels, no program, empty stack.
    pub fn new() -> (r: Interpreter)
        ensures
            r.vm() == (VmV {
                store: Map::empty(),
                points: Map::empty(),
                prog: Seq::empty(),
                stack: Seq::empty(),
                output: Seq::empty(),
            }),
    {
        let r = Interpreter {
            data: HashMap::new(),
            points: HashMap::new(),
            programms: Vec::new(),
            call_stack: Vec::new(),
            output: Vec::new(),
        };
        proof {
            assert(r.store_v() =~= Map::<i32, DataV>::empty());
            assert(r.out_v() =~= Seq::<Seq<char>>::empty());
            assert(ops_v(r.programms@) =~= Seq::<OpV>::empty());
            assert(r.vm() =~~= (VmV {
                store: Map::empty(),
                points: Map::empty(),
                prog: Seq::empty(),
                stack: Seq::empty(),
                output: Seq::empty(),
            }));
        }
        r
    }
}

impl DATA {
    /// Chases this value through the given engine's store until a non-address
    /// value is reached, as `resolve_data` describes.
    pub fn get(&self, interp: &Interpreter) -> (r: Result<DATA, RunError>)
        ensures
            match resolve_data(interp.store_v(), self@, interp.store_v().dom().len()) {
                Ok(d) => r matches Ok(v) && v@ == d,
                Err(e) => r matches Err(e2) && e2 == e,
            },
    {
        proof {
            assert(interp.store_v().dom() =~= interp.data@.dom());
        }
        let ghost store = interp.store_v();
        let mut fuel: usize = interp.data.len();
        let mut cur: DATA = self.dup();
        loop
            invariant
                interp.store_v() == store,
                interp.store_v().dom() =~= interp.data@.dom(),
                resolve_data(store, self@, store.dom().len()) == resolve_data(
                    store,
                    cur@,
                    fuel as nat,
                ),
            decreases fuel,
        {
            match cur {
                DATA::POINTER(p) => {
                    match interp.data.get(&p) {
                        None => {
                            return Err(RunError::NullPointer(p));
                        },
                        Some(v) => {
                            if fuel == 0 {
                                return Err(RunError::PointerCycle(p));
                            }
                            proof {
                                assert(store[p] == v@);
                            }
                            fuel = fuel - 1;
                            cur = v.dup();
                        },
                    }
                },
                _ => {
                    return Ok(cur);
                },
            }
        }
    }

    /// The numeric coercion; text is a fatal condition.
    pub fn to_i32(&self) -> (r: Result<i32, RunError>)
        ensures
            !data_is_text(self@) ==> r == Ok::<i32, RunError>(data_i32(self@)),
            data_is_text(self@) ==> r == Err::<i32, RunError>(RunError::NotANumber),
    {
        match self {
            DATA::Number(n) => Ok(*n),
            DATA::Bool(b) => Ok(
                if *b {
                    1
                } else {
                    0
                },
            ),
            DATA::POINTER(p) => Ok(*p),
            DATA::Text(_) => Err(RunError::NotANumber),
        }
    }
}

/// Resolves an operand and coerces it to a number.
fn get_num(d: &DATA, interp: &Interpreter) -> (r: Result<i32, RunError>)
    ensures
        r == resolve_num(interp.store_v(), d@),
{
    match d.get(interp) {
        Ok(v) => v.to_i32(),
        Err(e) => Err(e),
    }
}

/// Truncating 32-bit division over the magnitudes.
fn div_exec(a: i32, b: i32) -> (q: i32)
    requires
        b != 0,
        !(a == i32::MIN && b == -1),
    ensures
        q == div_trunc(a, b),
{
    let ma: u32 = if a >= 0 {
        a as u32
    } else if a == i32::MIN {
        2147483648u32
    } else {
        (-a) as u32
    };
    let mb: u32 = if b >= 0 {
        b as u32
    } else if b == i32::MIN {
        2147483648u32
    } else {
        (-b) as u32
    };
    let q0: u32 = ma / mb;
    if (a < 0) != (b < 0) {
        if q0 == 2147483648u32 {
            i32::MIN
        } else {
            -(q0 as i32)
        }
    } else {
        assert(q0 <= 2147483647) by {
            if a == i32::MIN {
                assert(mb >= 2);
                vstd::arithmetic::div_mod::lemma_div_is_ordered_by_denominator(
                    ma as int,
                    2,
                    mb as int,
                );
            }
        }
        q0 as i32
    }
}

impl Interpreter {
    /// Executes one instruction, as `vm_step` describes: `Ok(true)` to go on,
    /// `Ok(false)` when the machine stopped, an error on a fatal condition.
    #[verifier::rlimit(100)]
    pub fn tick(&mut self) -> (r: Result<bool, RunError>)
        ensures
            match vm_step(old(self).vm()) {
                StepV::More(s) => r == Ok::<bool, RunError>(true) && final(self).vm() == s,
                StepV::Done(s) => r == Ok::<bool, RunError>(false) && final(self).vm() == s,
                StepV::Fail(s, e) => r == Err::<bool, RunError>(e) && final(self).vm() == s,
            },
    {
        let ghost pre = self.vm();
        let index = match self.call_stack.pop() {
            Some(i) => i,
            None => {
                return Err(RunError::StackUnderflow);
            },
        };
        proof {
            assert(self.vm() =~~= (VmV { stack: pre.stack.drop_last(), ..pre }));
        }
        if index >= self.programms.len() {
            return Ok(false);
        }
        let op = self.programms[index].dup();
        self.call_stack.push(index + 1);
        let ghost s1 = VmV { stack: pre.stack.drop_last().push((index + 1) as usize), ..pre };
        proof {
            assert(self.vm() =~~= s1);
            assert(op@ == pre.prog[index as int]);
        }
        match op {
            Operation::NOP => Ok(true),
            Operation::RET => {
                self.call_stack.pop();
                proof {
                    assert(self.vm() =~~= (VmV { stack: pre.stack.drop_last(), ..pre }));
                }
                Ok(true)
            },
            Operation::HALT => Ok(false),
            Operation::POINT { name } => {
                let pos = match get_num(&name, self) {
                    Ok(p) => p,
                    Err(e) => {
                        return Err(e);
                    },
                };
                self.points.insert(pos, index);
                proof {
                    assert(self.vm() =~~= (VmV { points: s1.points.insert(pos, index), ..s1 }));
                }
                Ok(true)
            },
            Operation::DROP { name } => {
                let pos = match get_num(&name, self) {
                    Ok(p) => p,
                    Err(e) => {
                        return Err(e);
                    },
                };
                self.data.remove(&pos);
                proof {
                    assert(self.store_v() =~= pre.store.remove(pos));
                    assert(self.vm() =~~= (VmV { store: s1.store.remove(pos), ..s1 }));
                }
                Ok(true)
            },
            Operation::SET { name, value } => {
                let rv = match value.get(self) {
                    Ok(v) => v,
                    Err(e) => {
                        return Err(e);
                    },
                };
                let pos = match get_num(&name, self) {
                    Ok(p) => p,
                    Err(e) => {
                        return Err(e);
                    },
                };
                let ghost rvv = rv@;
                self.data.insert(pos, rv);
                proof {
                    assert(self.store_v() =~= pre.store.insert(pos, rvv));
                    assert(self.vm() =~~= (VmV { store: s1.store.insert(pos, rvv), ..s1 }));
                }
                Ok(true)
            },
            Operation::JUMP { name } => {
                let pos = match get_num(&name, self) {
                    Ok(p) => p,
                    Err(e) => {
                        return Err(e);
                    },
                };
                let target = match self.points.get(&pos) {
                    Some(t) => *t,
                    None => {
                        return Err(RunError::UnknownLabel(pos));
                    },
                };
                self.call_stack.pop();
                self.call_stack.push(target);
                proof {
                    assert(self.vm() =~~= (VmV {
                        stack: pre.stack.drop_last().push(target),
                        ..s1
                    }));
                }
                Ok(true)
            },
            Operation::CALL { name } => {
                let pos = match get_num(&name, self) {
                    Ok(p) => p,
                    Err(e) => {
                        return Err(e);
                    },
                };
                let target = match self.points.get(&pos) {
                    Some(t) => *t,
                    None => {
                        return Err(RunError::UnknownLabel(pos));
                    },
                };
                self.call_stack.push(target);
                proof {
                    assert(self.vm() =~~= (VmV { stack: s1.stack.push(target), ..s1 }));
                }
                Ok(true)
            },
            Operation::JUMP_IF { name, condition } => {
                let c = match get_num(&condition, self) {
                    Ok(c) => c,
                    Err(e) => {
                        return Err(e);
                    },
                };
                if c == 1 {
                    let pos = match get_num(&name, self) {
                        Ok(p) => p,
                        Err(e) => {
                            return Err(e);
                        },
                    };
                    let target = match self.points.get(&pos) {
                        Some(t) => *t,
                        None => {
                            return Err(RunError::UnknownLabel(pos));
                        },
                    };
                    self.call_stack.pop();
                    self.call_stack.push(target);
                    proof {
                        assert(self.vm() =~~= (VmV {
                            stack: pre.stack.drop_last().push(target),
                            ..s1
                        }));
                    }
                }
                Ok(true)
            },
            Operation::PRINT { value } => {
                let rv = match value.get(self) {
                    Ok(v) => v,
                    Err(e) => {
                        return Err(e);
                    },
                };
                let line = rv.to_string();
                self.output.push(line);
                proof {
                    assert(self.out_v() =~= pre.output.push(data_display(rv@)));
                    assert(self.vm() =~~= (VmV {
                        output: s1.output.push(data_display(rv@)),
                        ..s1
                    }));
                }
                Ok(true)
            },
            Operation::GREATER { name, value, ret } => {
                let a = match get_num(&value, self) {
                    Ok(v) => v,
                    Err(e) => {
                        return Err(e);
                    },
                };
                let b = match get_num(&name, self) {
                    Ok(v) => v,
                    Err(e) => {
                        return Err(e);
                    },
                };
                let rdst = match get_num(&ret, self) {
                    Ok(v) => v,
                    Err(e) => {
                        return Err(e);
                    },
                };
                self.data.insert(rdst, DATA::Bool(b > a));
                proof {
                    assert(self.store_v() =~= pre.store.insert(rdst, DataV::Bool(b > a)));
                    assert(self.vm() =~~= (VmV {
                        store: s1.store.insert(rdst, DataV::Bool(b > a)),
                        ..s1
                    }));
                }
                Ok(true)
            },
            Operation::EQ { name, value, ret } => {
                let a = match get_num(&value, self) {
                    Ok(v) => v,
                    Err(e) => {
                        return Err(e);
                    },
                };
                let b = match get_num(&name, self) {
                    Ok(v) => v,
                    Err(e) => {
                        return Err(e);
                    },
                };
                let rdst = match get_num(&ret, self) {
                    Ok(v) => v,
                    Err(e) => {
                        return Err(e);
                    },
                };
                self.data.insert(rdst, DATA::Bool(b == a));
                proof {
                    assert(self.store_v() =~= pre.store.insert(rdst, DataV::Bool(b == a)));
                    assert(self.vm() =~~= (VmV {
                        store: s1.store.insert(rdst, DataV::Bool(b == a)),
                        ..s1
                    }));
                }
                Ok(true)
            },
            Operation::NOT { name, ret } => {
                let b = match get_num(&name, self) {
                    Ok(v) => v,
                    Err(e) => {
                        return Err(e);
                    },
                };
                let rdst = match get_num(&ret, self) {
                    Ok(v) => v,
                    Err(e) => {
                        return Err(e);
                    },
                };
                self.data.insert(rdst, DATA::Bool(b == 0));
                proof {
                    assert(self.store_v() =~= pre.store.insert(rdst, DataV::Bool(b == 0)));
                    assert(self.vm() =~~= (VmV {
                        store: s1.store.insert(rdst, DataV::Bool(b == 0)),
                        ..s1
                    }));
                }
                Ok(true)
            },
            Operation::ADD { name, value, ret } => {
                let a = match get_num(&value, self) {
                    Ok(v) => v,
                    Err(e) => {
                        return Err(e);
                    },
                };
                let b = match get_num(&name, self) {
                    Ok(v) => v,
                    Err(e) => {
                        return Err(e);
                    },
                };
                let rdst = match get_num(&ret, self) {
                    Ok(v) => v,
                    Err(e) => {
                        return Err(e);
                    },
                };
                let sum = b.wrapping_add(a);
                self.data.insert(rdst, DATA::Number(sum));
                proof {
                    assert(self.store_v() =~= pre.store.insert(rdst, DataV::Number(sum)));
                    assert(self.vm() =~~= (VmV {
                        store: s1.store.insert(rdst, DataV::Number(sum)),
                        ..s1
                    }));
                }
                Ok(true)
            },
            Operation::SUB { name, value, ret } => {
                let a = match get_num(&value, self) {
                    Ok(v) => v,
                    Err(e) => {
                        return Err(e);
                    },
                };
                let b = match get_num(&name, self) {
                    Ok(v) => v,
                    Err(e) => {
                        return Err(e);
                    },
                };
                let rdst = match get_num(&ret, self) {
                    Ok(v) => v,
                    Err(e) => {
                        return Err(e);
                    },
                };
                let diff = b.wrapping_sub(a);
                self.data.insert(rdst, DATA::Number(diff));
                proof {
                    assert(self.store_v() =~= pre.store.insert(rdst, DataV::Number(diff)));
                    assert(self.vm() =~~= (VmV {
                        store: s1.store.insert(rdst, DataV::Number(diff)),
                        ..s1
                    }));
                }
                Ok(true)
            },
            Operation::MUL { name, value, ret } => {
                let a = match get_num(&value, self) {
                    Ok(v) => v,
                    Err(e) => {
                        return Err(e);
                    },
                };
                let b = match get_num(&name, self) {
                    Ok(v) => v,
                    Err(e) => {
                        return Err(e);
                    },
                };
                let rdst = match get_num(&ret, self) {
                    Ok(v) => v,
                    Err(e) => {
                        return Err(e);
                    },
                };
                let prod = b.wrapping_mul(a);
                self.data.insert(rdst, DATA::Number(prod));
                proof {
                    assert(self.store_v() =~= pre.store.insert(rdst, DataV::Number(prod)));
                    assert(self.vm() =~~= (VmV {
                        store: s1.store.insert(rdst, DataV::Number(prod)),
                        ..s1
                    }));
                }
                Ok(true)
            },
            Operation::DIV { name, value, ret } => {
                let a = match get_num(&value, self) {
                    Ok(v) => v,
                    Err(e) => {
                        return Err(e);
                    },
                };
                let b = match get_num(&name, self) {
                    Ok(v) => v,
                    Err(e) => {
                        return Err(e);
                    },
                };
                let rdst = match get_num(&ret, self) {
                    Ok(v) => v,
                    Err(e) => {
                        return Err(e);
                    },
                };
                if a == 0 {
                    return Err(RunError::DivisionByZero);
                }
                if b == i32::MIN && a == -1 {
                    return Err(RunError::DivisionOverflow);
                }
                let q = div_exec(b, a);
                self.data.insert(rdst, DATA::Number(q));
                proof {
                    assert(self.store_v() =~= pre.store.insert(rdst, DataV::Number(q)));
                    assert(self.vm() =~~= (VmV {
                        store: s1.store.insert(rdst, DataV::Number(q)),
                        ..s1
                    }));
                }
                Ok(true)
            },
        }
    }

    /// Resolves the labels of the given program and executes it from position
    /// 0 against this engine's persistent store and label table. Fails up
    /// front, changing nothing, when a label is text; otherwise the result and
    /// the engine's final state are those of running the machine from the
    /// installed program, and every line the run printed stands appended to
    /// `output`.
    #[verifier::loop_isolation(false)]
    pub fn continues_run(&mut self, p: Vec<Operation>) -> (r: Result<(), RunError>)
        ensures
            ({
                let opsv = ops_v(p@);
                if labels_ok(opsv) {
                    let init = VmV {
                        store: old(self).store_v(),
                        points: label_map(old(self).points@, opsv),
                        prog: strip_labels(opsv),
                        stack: old(self).call_stack@.push(0),
                        output: old(self).out_v(),
                    };
                    match r {
                        Ok(_) => exists|n: nat| vm_iter(init, n) == StepV::Done(final(self).vm()),
                        Err(e) => (e == RunError::StepLimit && vm_iter(init, u64::MAX as nat)
                            == StepV::More(final(self).vm())) || exists|n: nat|
                            vm_iter(init, n) == StepV::Fail(final(self).vm(), e),
                    }
                } else {
                    r == Err::<(), RunError>(RunError::NotANumber) && *final(self) == *old(self)
                }
            }),
    {
        let ghost opsv = ops_v(p@);
        let n = p.len();
        let mut i: usize = 0;
        while i < n
            invariant
                i <= n,
                n == p@.len(),
                opsv == ops_v(p@),
                *self == *old(self),
                forall|j: int|
                    0 <= j < i && #[trigger] opsv[j] is POINT ==> !data_is_text(
                        point_label(opsv[j]),
                    ),
            decreases n - i,
        {
            match &p[i] {
                Operation::POINT { name } => {
                    match name {
                        DATA::Text(_) => {
                            proof {
                                assert(opsv[i as int] is POINT && data_is_text(
                                    point_label(opsv[i as int]),
                                ));
                            }
                            return Err(RunError::NotANumber);
                        },
                        _ => {},
                    }
                },
                _ => {},
            }
            i += 1;
        }
        assert(labels_ok(opsv));
        self.programms = p;
        self.call_stack.push(0);
        let mut stripped: Vec<Operation> = Vec::new();
        let m = self.programms.len();
        let mut i: usize = 0;
        proof {
            assert(opsv.take(0) =~= Seq::<OpV>::empty());
            assert(ops_v(stripped@) =~= Seq::<OpV>::empty());
        }
        while i < m
            invariant
                i <= m,
                m == self.programms@.len(),
                opsv == ops_v(self.programms@),
                labels_ok(opsv),
                self.points@ == label_map(old(self).points@, opsv.take(i as int)),
                ops_v(stripped@) == strip_labels(opsv.take(i as int)),
                stripped@.len() <= i,
                self.data == old(self).data,
                self.output == old(self).output,
                self.call_stack@ == old(self).call_stack@.push(0),
            decreases m - i,
        {
            proof {
                assert(opsv.take(i + 1).drop_last() =~= opsv.take(i as int));
                assert(opsv.take(i + 1).last() == opsv[i as int]);
            }
            match &self.programms[i] {
                Operation::POINT { name } => {
                    let l = match name.to_i32() {
                        Ok(l) => l,
                        Err(e) => {
                            proof {
                                assert(false);
                            }
                            return Err(e);
                        },
                    };
                    let pos = stripped.len();
                    self.points.insert(l, pos);
                },
                op => {
                    let ghost prevstrip = stripped@;
                    stripped.push(op.dup());
                    proof {
                        assert(stripped@.drop_last() =~= prevstrip);
                        assert(ops_v(stripped@) =~= strip_labels(opsv.take(i + 1)));
                    }
                },
            }
            i += 1;
        }
        proof {
            assert(opsv.take(m as int) =~= opsv);
        }
        self.programms = stripped;
        let ghost init = VmV {
            store: old(self).store_v(),
            points: label_map(old(self).points@, opsv),
            prog: strip_labels(opsv),
            stack: old(self).call_stack@.push(0),
            output: old(self).out_v(),
        };
        proof {
            assert(self.vm() =~~= init);
        }
        let ghost mut steps: nat = 0;
        let mut budget: u64 = u64::MAX;
        loop
            invariant
                vm_iter(init, steps) == StepV::More(self.vm()),
                steps == u64::MAX - budget,
            decreases budget,
        {
            if budget == 0 {
                return Err(RunError::StepLimit);
            }
            budget = budget - 1;
            let ghost prev = self.vm();
            let ghost stepped = vm_step(prev);
            match self.tick() {
                Ok(true) => {
                    proof {
                        steps = steps + 1;
                        assert((steps - 1) as nat == steps - 1);
                        assert(vm_iter(init, steps) == vm_step(prev));
                    }
                },
                Ok(false) => {
                    proof {
                        assert(vm_iter(init, steps + 1) == vm_step(prev));
                        assert(vm_iter(init, steps + 1) == StepV::Done(self.vm()));
                    }
                    return Ok(());
                },
                Err(e) => {
                    proof {
                        assert(vm_iter(init, steps + 1) == vm_step(prev));
                        assert(vm_iter(init, steps + 1) == StepV::Fail(self.vm(), e));
                    }
                    return Err(e);
                },
            }
        }
    }

    /// Runs the program on a fresh engine, as `continues_run` describes, and
    /// hands back every line it printed beside the result.
    pub fn run(p: Vec<Operation>) -> (r: (Vec<String>, Result<(), RunError>))
        ensures
            ({
                let opsv = ops_v(p@);
                let init = VmV {
                    store: Map::empty(),
                    points: label_map(Map::empty(), opsv),
                    prog: strip_labels(opsv),
                    stack: seq![0usize],
                    output: Seq::empty(),
                };
                if labels_ok(opsv) {
                    match r.1 {
                        Ok(_) => exists|n: nat, f: VmV|
                            vm_iter(init, n) == StepV::Done(f) && lines_v(r.0) == f.output,
                        Err(e) => (e == RunError::StepLimit && exists|f: VmV|
                            vm_iter(init, u64::MAX as nat) == StepV::More(f) && lines_v(r.0)
                                == f.output) || exists|n: nat, f: VmV|
                            vm_iter(init, n) == StepV::Fail(f, e) && lines_v(r.0) == f.output,
                    }
                } else {
                    r.1 == Err::<(), RunError>(RunError::NotANumber) && r.0@.len() == 0
                }
            }),
    {
        let mut interpreter = Interpreter::new();
        let ghost pre = interpreter;
        let res = interpreter.continues_run(p);
        proof {
            let opsv = ops_v(p@);
            let init = VmV {
                store: Map::empty(),
                points: label_map(Map::empty(), opsv),
                prog: strip_labels(opsv),
                stack: seq![0usize],
                output: Seq::empty(),
            };
            assert(pre.call_stack@.push(0) =~= seq![0usize]);
            assert(init =~~= (VmV {
                store: pre.store_v(),
                points: label_map(pre.points@, opsv),
                prog: strip_labels(opsv),
                stack: pre.call_stack@.push(0),
                output: pre.out_v(),
            }));
            assert(lines_v(interpreter.output) =~= interpreter.out_v());
            let fv = interpreter.vm();
            assert(lines_v(interpreter.output) == fv.output);
            if labels_ok(opsv) {
                match res {
                    Ok(_) => {},
                    Err(e) => {
                        if e == RunError::StepLimit && vm_iter(init, u64::MAX as nat)
                            == StepV::More(fv) {
                            assert(exists|f: VmV|
                                vm_iter(init, u64::MAX as nat) == StepV::More(f) && lines_v(
                                    interpreter.output,
                                ) == f.output);
                        } else {
                            assert(exists|n: nat| vm_iter(init, n) == StepV::Fail(fv, e));
                            let n0 = choose|n: nat| vm_iter(init, n) == StepV::Fail(fv, e);
                            assert(vm_iter(init, n0) == StepV::Fail(fv, e) && lines_v(
                                interpreter.output,
                            ) == fv.output);
                        }
                    },
                }
            } else {
                assert(interpreter.out_v() == pre.out_v());
                assert(pre.out_v().len() == 0);
                assert(interpreter.output@.len() == interpreter.out_v().len());
            }
        }
        (interpreter.output, res)
    }
}

/// The view of printed lines.
pub open spec fn lines_v(v: Vec<String>) -> Seq<Seq<char>> {
    v@.map_values(|s: String| s@)
}

// ---------------------------------------------------------------------------
// Laws
// ---------------------------------------------------------------------------

/// Stripping splits over any cut of the program.
proof fn lemma_strip_split(ops: Seq<OpV>, j: int)
    requires
        0 <= j <= ops.len(),
    ensures
        strip_labels(ops) == strip_labels(ops.take(j)) + strip_labels(ops.skip(j)),
    decreases ops.len() - j,
{
    if j == ops.len() {
        assert(ops.take(j) =~= ops);
        assert(strip_labels(ops.skip(j)) =~= Seq::<OpV>::empty());
        assert(strip_labels(ops) =~= strip_labels(ops.take(j)) + strip_labels(ops.skip(j)));
    } else {
        lemma_strip_split(ops, j + 1);
        assert(ops.take(j + 1).drop_last() =~= ops.take(j));
        assert(ops.take(j + 1).last() == ops[j]);
        assert(ops.skip(j).drop_first() =~= ops.skip(j + 1));
        let tail = ops.skip(j);
        lemma_strip_cons(tail);
        if ops[j] is POINT {
            assert(strip_labels(ops) =~= strip_labels(ops.take(j)) + strip_labels(ops.skip(j)));
        } else {
            assert(strip_labels(ops) =~= strip_labels(ops.take(j)) + strip_labels(ops.skip(j)));
        }
    }
}

/// Stripping peels its first instruction.
proof fn lemma_strip_cons(ops: Seq<OpV>)
    requires
        ops.len() > 0,
    ensures
        strip_labels(ops) == if ops[0] is POINT {
            strip_labels(ops.drop_first())
        } else {
            seq![ops[0]] + strip_labels(ops.drop_first())
        },
    decreases ops.len(),
{
    if ops.len() == 1 {
        assert(ops.drop_first() =~= Seq::<OpV>::empty());
        assert(ops.drop_last() =~= Seq::<OpV>::empty());
        assert(strip_labels(Seq::<OpV>::empty()) =~= Seq::<OpV>::empty());
        assert(strip_labels(ops.drop_first()) =~= Seq::<OpV>::empty());
        if ops[0] is POINT {
        } else {
            assert(strip_labels(ops) =~= seq![ops[0]] + strip_labels(ops.drop_first()));
        }
    } else {
        lemma_strip_cons(ops.drop_last());
        assert(ops.drop_last().drop_first() =~= ops.drop_first().drop_last());
        assert(ops.drop_last()[0] == ops[0]);
        assert(ops.drop_first().last() == ops.last());
        if ops[0] is POINT {
            assert(strip_labels(ops) =~= strip_labels(ops.drop_first()));
        } else {
            assert(strip_labels(ops) =~= seq![ops[0]] + strip_labels(ops.drop_first()));
        }
    }
}

/// Label resolution is correct: a label maps to the position that the first
/// instruction after it occupies in the label-stripped program, counted only
/// over instructions that survive stripping, so a jump or call through the
/// table resumes exactly at the instructions that follow the label.
pub proof fn lemma_label_resolution(m0: Map<i32, usize>, ops: Seq<OpV>, j: int, l: i32)
    requires
        0 <= j < ops.len(),
        ops.len() <= usize::MAX,
        ops[j] is POINT,
        !data_is_text(point_label(ops[j])),
        data_i32(point_label(ops[j])) == l,
        forall|k: int|
            j < k < ops.len() && #[trigger] ops[k] is POINT && !data_is_text(point_label(ops[k]))
                ==> data_i32(point_label(ops[k])) != l,
    ensures
        label_map(m0, ops).contains_key(l),
        label_map(m0, ops)[l] == strip_labels(ops.take(j)).len(),
        strip_labels(ops).skip(label_map(m0, ops)[l] as int) == strip_labels(ops.skip(j)),
    decreases ops.len(),
{
    broadcast use vstd::seq_lib::group_seq_properties;

    lemma_strip_len(ops.take(j));
    if j == ops.len() - 1 {
        assert(ops.drop_last() =~= ops.take(j));
    } else {
        assert(ops.drop_last().take(j) =~= ops.take(j));
        lemma_label_resolution(m0, ops.drop_last(), j, l);
        if ops.last() is POINT && !data_is_text(point_label(ops.last())) {
            assert(data_i32(point_label(ops[ops.len() - 1])) != l);
        }
    }
    lemma_strip_split(ops, j);
    let pos = strip_labels(ops.take(j)).len() as int;
    assert(strip_labels(ops).skip(pos) =~= strip_labels(ops.skip(j)));
}

/// The stripped program is never longer than the original.
pub proof fn lemma_strip_len(ops: Seq<OpV>)
    ensures
        strip_labels(ops).len() <= ops.len(),
    decreases ops.len(),
{
    if ops.len() > 0 {
        lemma_strip_len(ops.drop_last());
    }
}

/// The indirection chase is correct for a chain of any length: when address
/// `chain[0]` holds `Pointer(chain[1])`, and so on, and the last address of
/// the chain holds a non-address value, resolving a reference to `chain[0]`
/// with fuel for the chain yields that value.
pub proof fn lemma_resolve_chain(store: Map<i32, DataV>, chain: Seq<i32>, v: DataV, fuel: nat)
    requires
        chain.len() >= 1,
        forall|i: int|
            0 <= i < chain.len() - 1 ==> store.contains_key(#[trigger] chain[i])
                && store[chain[i]] == DataV::Pointer(chain[i + 1]),
        store.contains_key(chain.last()),
        store[chain.last()] == v,
        !(v is Pointer),
        fuel >= chain.len(),
    ensures
        resolve_data(store, DataV::Pointer(chain[0]), fuel) == Ok::<DataV, RunError>(v),
    decreases chain.len(),
{
    if chain.len() == 1 {
        assert(resolve_data(store, v, (fuel - 1) as nat) == Ok::<DataV, RunError>(v));
    } else {
        let rest = chain.drop_first();
        assert(rest.last() == chain.last());
        assert(forall|i: int|
            0 <= i < rest.len() - 1 ==> store.contains_key(#[trigger] rest[i]) && store[rest[i]]
                == DataV::Pointer(rest[i + 1])) by {
            assert(forall|i: int| 0 <= i < rest.len() ==> rest[i] == chain[i + 1]);
        }
        lemma_resolve_chain(store, rest, v, (fuel - 1) as nat);
        assert(store[chain[0]] == DataV::Pointer(rest[0]));
    }
}

/// The chase as the machine performs it: its fuel is the size of the store,
/// which any chain of distinct addresses fits inside.
pub proof fn lemma_resolve_chain_in_store(store: Map<i32, DataV>, chain: Seq<i32>, v: DataV)
    requires
        chain.len() >= 1,
        chain.no_duplicates(),
        store.dom().finite(),
        forall|i: int|
            0 <= i < chain.len() - 1 ==> store.contains_key(#[trigger] chain[i])
                && store[chain[i]] == DataV::Pointer(chain[i + 1]),
        store.contains_key(chain.last()),
        store[chain.last()] == v,
        !(v is Pointer),
    ensures
        resolve_data(store, DataV::Pointer(chain[0]), store.dom().len()) == Ok::<
            DataV,
            RunError,
        >(v),
{
    chain.unique_seq_to_set();
    assert(chain.to_set().subset_of(store.dom())) by {
        assert(forall|a: i32| chain.to_set().contains(a) ==> chain.contains(a));
        assert(forall|i: int| 0 <= i < chain.len() ==> store.contains_key(#[trigger] chain[i]));
    }
    vstd::set_lib::lemma_len_subset(chain.to_set(), store.dom());
    lemma_resolve_chain(store, chain, v, store.dom().len());
}

} // verus!
