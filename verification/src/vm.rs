//! The virtual machine: an instruction pointer into the chunk that it runs,
//! and an operand stack.
//!
//! The machine fetches, decodes and dispatches. It does not compute on
//! values: where an instruction asks for arithmetic the machine hands the
//! operands out as an `Operation` and takes the result back. What a run
//! returns is stated by `execute`, for every function that the arithmetic
//! may be.

use vstd::prelude::*;
use crate::chunk::{Chunk, ChunkView};
use crate::collections::stack::{Stack, STACK_MAX};
use crate::compiler::{compile, listing, ListedToken};
use crate::opcode::{decode, OpCode};
use crate::scanner::token_stream;
use crate::value::Value;

verus! {

/// How an interpretation ended.
#[derive(Debug, Clone, Copy, PartialEq, Eq, Structural)]
pub enum InterpretResult {
    Success,
    CompileError,
    RuntimeError,
}

impl InterpretResult {
    /// The exit code that a process reports for this result.
    pub open spec fn exit_code(self) -> i32 {
        match self {
            InterpretResult::Success => 0,
            InterpretResult::CompileError => 65,
            InterpretResult::RuntimeError => 70,
        }
    }

    /// The exit code that a process reports for this result: 0, 65 or 70.
    pub fn to_exit_code(&self) -> (code: i32)
        ensures
            code == self.exit_code(),
    {
        match self {
            InterpretResult::Success => 0,
            InterpretResult::CompileError => 65,
            InterpretResult::RuntimeError => 70,
        }
    }

    /// The result of a run: success where it returned a value, a runtime
    /// error where it stopped on a fault.
    pub fn of_run(outcome: &Result<Value, Fault>) -> (result: InterpretResult)
        ensures
            result == (if outcome is Ok {
                InterpretResult::Success
            } else {
                InterpretResult::RuntimeError
            }),
    {
        match outcome {
            Ok(_) => InterpretResult::Success,
            Err(_) => InterpretResult::RuntimeError,
        }
    }
}

/// Why a run stopped before it reached a `Return`.
#[derive(Debug, Clone, Copy, PartialEq, Eq, Structural)]
pub enum Fault {
    /// The instruction pointer stands at or past the end of the code.
    CodeExhausted,
    /// The byte at the instruction pointer names no instruction.
    UnknownOpcode,
    /// The code ends where the operand of a `Constant` should stand.
    MissingOperand,
    /// The operand of a `Constant` names no constant of the pool.
    ConstantOutOfRange,
    /// A push onto a full stack.
    StackOverflow,
    /// A pop that the stack has too few values for.
    StackUnderflow,
}

/// Arithmetic that an instruction asks for. In the binary operations the
/// left operand comes first: it is the one that was pushed first and popped
/// last.
#[derive(Debug, Clone, Copy, PartialEq, Eq, Structural)]
pub enum Operation {
    Add(Value, Value),
    Subtract(Value, Value),
    Multiply(Value, Value),
    Divide(Value, Value),
    Negate(Value),
}

/// What one dispatch step comes to.
#[derive(Debug, Clone, Copy, PartialEq, Eq, Structural)]
pub enum Step {
    /// The instruction is done; the next one can be dispatched.
    Next,
    /// The operands are popped; the result of the operation is to be pushed
    /// before the next instruction is dispatched.
    Compute(Operation),
    /// The program returned this value and halted.
    Return(Value),
    /// The machine cannot go on; it is as it was before the step.
    Fault(Fault),
}

/// The state of a machine.
pub struct Machine {
    /// The offset in the code of the next byte to decode.
    pub ip: nat,
    /// The operand stack, the oldest value first.
    pub stack: Seq<Value>,
}

impl Machine {
    /// The machine with `value` pushed.
    pub open spec fn push(self, value: Value) -> Machine {
        Machine { stack: self.stack.push(value), ..self }
    }

    /// The machine with its top `n` values popped and its instruction
    /// pointer moved by `bytes`.
    pub open spec fn advance(self, bytes: nat, n: nat) -> Machine {
        Machine { ip: self.ip + bytes, stack: self.stack.take(self.stack.len() - n) }
    }

    /// The machine at the start of the code, with the same stack.
    pub open spec fn restart(self) -> Machine {
        Machine { ip: 0, ..self }
    }
}

/// The operation of an arithmetic opcode on left operand `a` and right
/// operand `b`.
pub open spec fn binary(opcode: OpCode, a: Value, b: Value) -> Operation {
    match opcode {
        OpCode::Add => Operation::Add(a, b),
        OpCode::Subtract => Operation::Subtract(a, b),
        OpCode::Multiply => Operation::Multiply(a, b),
        _ => Operation::Divide(a, b),
    }
}

/// One fetch, decode and dispatch: what the step comes to, and the machine
/// after it.
pub open spec fn transition(chunk: ChunkView, m: Machine) -> (Step, Machine) {
    let depth = m.stack.len();
    let ip = m.ip as int;
    if ip >= chunk.code.len() {
        (Step::Fault(Fault::CodeExhausted), m)
    } else {
        match decode(chunk.code[ip]) {
            OpCode::Constant => {
                if ip + 1 >= chunk.code.len() {
                    (Step::Fault(Fault::MissingOperand), m)
                } else if chunk.code[ip + 1] >= chunk.constants.len() {
                    (Step::Fault(Fault::ConstantOutOfRange), m)
                } else if depth >= STACK_MAX {
                    (Step::Fault(Fault::StackOverflow), m)
                } else {
                    (Step::Next, m.advance(2, 0).push(chunk.constants[chunk.code[ip + 1] as int]))
                }
            },
            OpCode::Negate => {
                if depth < 1 {
                    (Step::Fault(Fault::StackUnderflow), m)
                } else {
                    (Step::Compute(Operation::Negate(m.stack[depth - 1])), m.advance(1, 1))
                }
            },
            OpCode::Return => {
                if depth < 1 {
                    (Step::Fault(Fault::StackUnderflow), m)
                } else {
                    (Step::Return(m.stack[depth - 1]), m.advance(1, 1))
                }
            },
            OpCode::Unknown => (Step::Fault(Fault::UnknownOpcode), m),
            arithmetic => {
                if depth < 2 {
                    (Step::Fault(Fault::StackUnderflow), m)
                } else {
                    (
                        Step::Compute(binary(arithmetic, m.stack[depth - 2], m.stack[depth - 1])),
                        m.advance(1, 2),
                    )
                }
            },
        }
    }
}

/// A run from machine state `m` to its end, where `alu` is the arithmetic:
/// the value returned or the fault, and the machine as the run leaves it.
pub open spec fn execute(chunk: ChunkView, m: Machine, alu: spec_fn(Operation) -> Value) -> (
    Result<Value, Fault>,
    Machine,
)
    decreases chunk.code.len() - m.ip,
{
    let (step, next) = transition(chunk, m);
    match step {
        Step::Next => execute(chunk, next, alu),
        Step::Compute(operation) => execute(chunk, next.push(alu(operation)), alu),
        Step::Return(value) => (Ok(value), next),
        Step::Fault(fault) => (Err(fault), next),
    }
}

/// Whether and on what a run faults depends on the code and on the number
/// of values on the stack, not on the values nor on the arithmetic.
pub proof fn lemma_faults_are_static(
    chunk: ChunkView,
    m1: Machine,
    alu1: spec_fn(Operation) -> Value,
    m2: Machine,
    alu2: spec_fn(Operation) -> Value,
)
    requires
        m1.ip == m2.ip,
        m1.stack.len() == m2.stack.len(),
    ensures
        execute(chunk, m1, alu1).0 is Err <==> execute(chunk, m2, alu2).0 is Err,
        execute(chunk, m1, alu1).0 is Err ==> execute(chunk, m1, alu1).0 == execute(
            chunk,
            m2,
            alu2,
        ).0,
        execute(chunk, m1, alu1).1.ip == execute(chunk, m2, alu2).1.ip,
        execute(chunk, m1, alu1).1.stack.len() == execute(chunk, m2, alu2).1.stack.len(),
    decreases chunk.code.len() - m1.ip,
{
    let (step1, next1) = transition(chunk, m1);
    let (step2, next2) = transition(chunk, m2);
    match step1 {
        Step::Next => {
            lemma_faults_are_static(chunk, next1, alu1, next2, alu2);
        },
        Step::Compute(operation1) => {
            let operation2 = step2->Compute_0;
            lemma_faults_are_static(
                chunk,
                next1.push(alu1(operation1)),
                alu1,
                next2.push(alu2(operation2)),
                alu2,
            );
        },
        _ => {},
    }
}

/// Whether `alu` computes the function `f`: whatever it returns for an
/// operation is what `f` gives.
pub open spec fn computes<F: Fn(Operation) -> Value>(alu: F, f: spec_fn(Operation) -> Value) -> bool {
    forall|operation: Operation, value: Value| #[trigger]
        alu.ensures((operation,), value) ==> value == f(operation)
}

/// The virtual machine.
pub struct VM {
    ip: usize,
    stack: Stack<Value>,
}

impl View for VM {
    type V = Machine;

    closed spec fn view(&self) -> Machine {
        Machine { ip: self.ip as nat, stack: self.stack@ }
    }
}

/// What an interpretation of a source comes to.
pub struct Interpretation {
    pub result: InterpretResult,
    /// The tokens of the source, listed.
    pub listing: Vec<ListedToken>,
}

impl VM {
    /// The invariant of the type: the stack is within its slots.
    pub open spec fn wf(&self) -> bool {
        self@.stack.len() <= STACK_MAX
    }

    /// A machine at the start of the code, with an empty stack.
    pub fn init() -> (vm: VM)
        ensures
            vm.wf(),
            vm@ == (Machine { ip: 0, stack: Seq::empty() }),
    {
        VM { ip: 0, stack: Stack::default() }
    }

    /// Interprets a source. There is no bytecode compiler yet: the source is
    /// scanned to its end, its tokens are listed, and the result is `Success`.
    /// The machine is left as it was.
    pub fn interpret(&mut self, source: &[u8]) -> (interpretation: Interpretation)
        requires
            source@.len() < usize::MAX,
        ensures
            *final(self) == *old(self),
            interpretation.result == InterpretResult::Success,
            interpretation.listing@ == listing(token_stream(source@, 0)),
    {
        let listing = compile(source);
        Interpretation { result: InterpretResult::Success, listing }
    }

    /// Runs `chunk` from its start, on the stack as it is, until a `Return`
    /// or a fault. Each arithmetic operation is handed to `alu`, and what
    /// `alu` returns is pushed as its result.
    ///
    /// Whether the run faults, and on what, does not depend on `alu`. The
    /// value that it returns, and the stack that it leaves, are those of
    /// `execute` for every function that `alu` computes.
    pub fn run<F: Fn(Operation) -> Value>(&mut self, chunk: &Chunk, alu: F) -> (outcome: Result<
        Value,
        Fault,
    >)
        requires
            old(self).wf(),
            chunk.wf(),
            forall|operation: Operation| alu.requires((operation,)),
        ensures
            final(self).wf(),
            forall|f: spec_fn(Operation) -> Value|
                outcome is Err <==> (#[trigger] execute(chunk@, old(self)@.restart(), f)).0 is Err,
            forall|f: spec_fn(Operation) -> Value|
                outcome is Err ==> (#[trigger] execute(chunk@, old(self)@.restart(), f)).0
                    == outcome,
            forall|f: spec_fn(Operation) -> Value|
                computes(alu, f) ==> #[trigger] execute(chunk@, old(self)@.restart(), f) == (
                    outcome,
                    final(self)@,
                ),
    {
        self.rewind();
        let ghost start = self@;
        loop
            invariant
                self.wf(),
                chunk.wf(),
                self@.ip <= chunk@.code.len(),
                start == old(self)@.restart(),
                forall|operation: Operation| alu.requires((operation,)),
                forall|f: spec_fn(Operation) -> Value|
                    (#[trigger] execute(chunk@, start, f)).0 is Err <==> execute(
                        chunk@,
                        self@,
                        f,
                    ).0 is Err,
                forall|f: spec_fn(Operation) -> Value|
                    (#[trigger] execute(chunk@, start, f)).0 is Err ==> execute(chunk@, start, f).0
                        == execute(chunk@, self@, f).0,
                forall|f: spec_fn(Operation) -> Value|
                    computes(alu, f) ==> #[trigger] execute(chunk@, start, f) == execute(
                        chunk@,
                        self@,
                        f,
                    ),
            decreases chunk@.code.len() - self@.ip,
        {
            let ghost before = self@;
            match self.step(chunk) {
                Step::Next => {},
                Step::Compute(operation) => {
                    let value = alu(operation);
                    let ghost popped = self@;
                    self.resume(value);
                    proof {
                        assert forall|f: spec_fn(Operation) -> Value|
                            (#[trigger] execute(chunk@, start, f)).0 is Err <==> execute(
                                chunk@,
                                self@,
                                f,
                            ).0 is Err by {
                            lemma_faults_are_static(
                                chunk@,
                                popped.push(f(operation)),
                                f,
                                popped.push(value),
                                f,
                            );
                        }
                        assert forall|f: spec_fn(Operation) -> Value|
                            (#[trigger] execute(chunk@, start, f)).0 is Err implies execute(
                                chunk@,
                                start,
                                f,
                            ).0 == execute(chunk@, self@, f).0 by {
                            lemma_faults_are_static(
                                chunk@,
                                popped.push(f(operation)),
                                f,
                                popped.push(value),
                                f,
                            );
                        }
                    }
                },
                Step::Return(value) => {
                    return Ok(value);
                },
                Step::Fault(fault) => {
                    return Err(fault);
                },
            }
        }
    }

    /// Moves the instruction pointer back to the start of the code. The
    /// stack stays as it is.
    pub fn rewind(&mut self)
        ensures
            final(self)@ == old(self)@.restart(),
    {
        self.ip = 0;
    }

    /// The offset in the code of the next byte to decode.
    pub fn ip(&self) -> (ip: usize)
        ensures
            ip == self@.ip,
    {
        self.ip
    }

    /// The operand stack.
    pub fn stack(&self) -> (stack: &Stack<Value>)
        ensures
            stack@ == self@.stack,
    {
        &self.stack
    }

    /// Fetches, decodes and dispatches one instruction. An arithmetic
    /// instruction pops its operands and hands them out; `resume` takes the
    /// result. On a fault the machine is left as it was.
    pub fn step(&mut self, chunk: &Chunk) -> (step: Step)
        requires
            old(self).wf(),
            chunk.wf(),
        ensures
            final(self).wf(),
            (step, final(self)@) == transition(chunk@, old(self)@),
    {
        if self.ip >= chunk.count() {
            return Step::Fault(Fault::CodeExhausted);
        }
        let instruction = OpCode::from(chunk.byte_at(self.ip));
        match instruction {
            OpCode::Constant => {
                if self.ip + 1 >= chunk.count() {
                    return Step::Fault(Fault::MissingOperand);
                }
                let position = chunk.byte_at(self.ip + 1) as usize;
                if position >= chunk.constants_count() {
                    return Step::Fault(Fault::ConstantOutOfRange);
                }
                if self.stack.len() >= STACK_MAX {
                    return Step::Fault(Fault::StackOverflow);
                }
                self.ip = self.ip + 2;
                let value = chunk.constant_at(position);
                self.stack.push(value);
                assert(self@.stack == old(self)@.advance(2, 0).push(value).stack);
                Step::Next
            },
            OpCode::Negate => {
                if self.stack.len() < 1 {
                    return Step::Fault(Fault::StackUnderflow);
                }
                self.ip = self.ip + 1;
                let value = self.stack.pop();
                Step::Compute(Operation::Negate(value))
            },
            OpCode::Return => {
                if self.stack.len() < 1 {
                    return Step::Fault(Fault::StackUnderflow);
                }
                self.ip = self.ip + 1;
                let value = self.stack.pop();
                Step::Return(value)
            },
            OpCode::Unknown => Step::Fault(Fault::UnknownOpcode),
            _ => {
                if self.stack.len() < 2 {
                    return Step::Fault(Fault::StackUnderflow);
                }
                self.ip = self.ip + 1;
                Step::Compute(self.binary_op(instruction))
            },
        }
    }

    /// Pushes the result of the operation that the last step handed out.
    pub fn resume(&mut self, value: Value)
        requires
            old(self)@.stack.len() < STACK_MAX,
        ensures
            final(self).wf(),
            final(self)@ == old(self)@.push(value),
    {
        self.stack.push(value);
    }

    /// Pops the right operand, then the left one, and returns the operation
    /// of `opcode` on them: the operands come off in the reverse of the
    /// order in which the program pushed them.
    fn binary_op(&mut self, opcode: OpCode) -> (operation: Operation)
        requires
            old(self)@.stack.len() >= 2,
        ensures
            final(self)@ == old(self)@.advance(0, 2),
            operation == binary(
                opcode,
                old(self)@.stack[old(self)@.stack.len() - 2],
                old(self)@.stack[old(self)@.stack.len() - 1],
            ),
    {
        let b = self.stack.pop();
        let a = self.stack.pop();
        assert(self@.stack == old(self)@.stack.take(old(self)@.stack.len() - 2));
        match opcode {
            OpCode::Add => Operation::Add(a, b),
            OpCode::Subtract => Operation::Subtract(a, b),
            OpCode::Multiply => Operation::Multiply(a, b),
            _ => Operation::Divide(a, b),
        }
    }

    /// Releases what the machine holds. It holds nothing that outlives it,
    /// so the machine is left as it was and can be used again.
    pub fn free(&mut self)
        ensures
            *final(self) == *old(self),
    {
    }
}

} // verus!
