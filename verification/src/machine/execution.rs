//! The machine that executes instructions: its memory map, allocation
//! heap, output system, the values above the current call frame, the
//! string table, the program counter, and whether it still runs.
//!
//! An instruction arrives with its operands already loaded: each
//! operand the opcode loads is a value, and each it stores names where
//! the result goes. Execution carries out every opcode whose work this
//! state holds. Returning from a function is handed back to the caller
//! as an effect, and so is any opcode whose work needs call frames,
//! compressed strings, searches, saved states, acceleration, floating
//! point, gestalt, or the random generator.

use vstd::prelude::*;

use crate::error::VoxamError;
use crate::heap::{allocation, freeing, Heap};
use crate::machine::{
    array_load, array_loaded, array_store, array_stored, branch_condition, branches, computed,
    copied, copy_of, io_mode, jump_of, jumped, operand_list, peek_of, peeked, roll_of, rolled,
    selected,
    stored_value, swap_of, swapped, IOSystem, Jump,
};
use crate::memory::{put_word, refusal, Memory, MemoryState};
use crate::opcodes::op;

verus! {

/// Where a store operand puts its value (Glulx: Instruction Format):
/// nowhere, a word of memory, or a push onto the stack.
#[derive(Debug, Clone, Copy, PartialEq, Eq, Structural)]
pub enum Destination {
    Discard,
    Memory(u32),
    Push,
}

/// One operand of an instruction, as decoded: a loaded value, or the
/// destination of a store.
#[derive(Debug, Clone, Copy, PartialEq, Eq, Structural)]
pub enum Operand {
    Load(u32),
    Store(Destination),
}

/// What an executed instruction leaves to its caller.
#[derive(Debug, Clone, Copy, PartialEq, Eq, Structural)]
pub enum Effect {
    /// Go on to the next instruction.
    Next,
    /// Return this value from the current function (Glulx: Calling and
    /// Returning).
    Return(u32),
    /// The opcode's work lies outside this state; nothing changed.
    Elsewhere,
}

/// The machine's state.
pub struct Machine {
    /// The memory map.
    pub memory: Memory,
    /// The allocation heap.
    pub heap: Heap,
    /// The current output system.
    pub iosys: IOSystem,
    /// The values above the current call frame, the top last.
    pub stack: Vec<u32>,
    /// How many values the stack can hold above the frame.
    pub stack_limit: usize,
    /// The string-decoding table's address.
    pub string_table: u32,
    /// The program counter.
    pub pc: u32,
    /// Whether execution has not been halted by quit.
    pub running: bool,
}

/// The machine's state as a mathematical value.
pub struct MachineState {
    pub memory: MemoryState,
    pub heap: Heap,
    pub iosys: IOSystem,
    pub stack: Seq<u32>,
    pub stack_limit: nat,
    pub string_table: u32,
    pub pc: u32,
    pub running: bool,
}

impl MachineState {
    /// What every machine keeps: a well-formed map, a heap that keeps
    /// its invariant over it, and a stack within its limit, which fits
    /// a word.
    pub open spec fn wf(self) -> bool {
        &&& self.memory.wf()
        &&& self.heap.wf(self.memory)
        &&& self.stack.len() <= self.stack_limit
        &&& self.stack_limit <= u32::MAX
    }
}

impl View for Machine {
    type V = MachineState;

    open spec fn view(&self) -> MachineState {
        MachineState {
            memory: self.memory@,
            heap: self.heap,
            iosys: self.iosys,
            stack: self.stack@,
            stack_limit: self.stack_limit as nat,
            string_table: self.string_table,
            pc: self.pc,
            running: self.running,
        }
    }
}

/// The value operand `i` carries; zero for a store operand or for one
/// the instruction does not have.
pub open spec fn loaded(args: Seq<Operand>, i: int) -> u32 {
    if 0 <= i < args.len() {
        match args[i] {
            Operand::Load(value) => value,
            Operand::Store(_) => 0,
        }
    } else {
        0
    }
}

/// Where store operand `i` goes; nowhere for a loaded operand or for
/// one the instruction does not have.
pub open spec fn destination(args: Seq<Operand>, i: int) -> Destination {
    if 0 <= i < args.len() {
        match args[i] {
            Operand::Store(place) => place,
            Operand::Load(_) => Destination::Discard,
        }
    } else {
        Destination::Discard
    }
}

/// A store of a value: its verdict and the state it leaves. A word
/// lands in memory only within RAM; a push needs room on the stack.
pub open spec fn stored(s: MachineState, place: Destination, value: u32) -> (
    MachineState,
    Result<(), VoxamError>,
) {
    match place {
        Destination::Discard => (s, Ok(())),
        Destination::Memory(address) => if s.memory.writable(address, 4) {
            (
                MachineState {
                    memory: s.memory.with_bytes(put_word(s.memory.bytes, address as int, value)),
                    ..s
                },
                Ok(()),
            )
        } else {
            (s, Err(refusal(address, s.memory.ramstart)))
        },
        Destination::Push => if s.stack.len() < s.stack_limit {
            (MachineState { stack: s.stack.push(value), ..s }, Ok(()))
        } else {
            (s, Err(VoxamError::StackFull))
        },
    }
}

/// A step's verdict read as an instruction's: done means go on.
pub open spec fn then_next(step: (MachineState, Result<(), VoxamError>)) -> (
    MachineState,
    Result<Effect, VoxamError>,
) {
    match step.1 {
        Ok(()) => (step.0, Ok(Effect::Next)),
        Err(fault) => (step.0, Err(fault)),
    }
}

/// A store of a computed value, or the computation's fault with
/// nothing changed.
pub open spec fn store_result(s: MachineState, place: Destination, value: Result<u32, VoxamError>) -> (
    MachineState,
    Result<Effect, VoxamError>,
) {
    match value {
        Ok(held) => then_next(stored(s, place, held)),
        Err(fault) => (s, Err(fault)),
    }
}

/// A branch by an offset: a return of 0 or 1, or a move of the program
/// counter (Glulx: Branches).
pub open spec fn branched(s: MachineState, offset: u32) -> (MachineState, Result<Effect, VoxamError>) {
    match jump_of(s.pc, offset) {
        Jump::Return(value) => (s, Ok(Effect::Return(value))),
        Jump::To(target) => (MachineState { pc: target, ..s }, Ok(Effect::Next)),
    }
}

/// Whether an opcode takes one loaded operand where its family takes
/// two: the unary value opcodes and the branches on zero.
pub open spec fn unary(opcode: u32) -> bool {
    opcode == op::NEG || opcode == op::BITNOT || opcode == op::COPY || opcode == op::SEXS
        || opcode == op::SEXB || opcode == op::JZ || opcode == op::JNZ
}

/// The values a stack copy pushes onto a stack with limited room: all of
/// them where they fit; otherwise as many as fit, then the fault.
pub open spec fn pushed_all(s: MachineState, block: Seq<u32>) -> (
    MachineState,
    Result<Effect, VoxamError>,
) {
    let room = s.stack_limit - s.stack.len();
    if block.len() <= room {
        (MachineState { stack: s.stack + block, ..s }, Ok(Effect::Next))
    } else {
        (MachineState { stack: s.stack + block.take(room), ..s }, Err(VoxamError::StackFull))
    }
}

/// A new stack, or a fault with nothing changed.
pub open spec fn restacked(s: MachineState, result: Result<Seq<u32>, VoxamError>) -> (
    MachineState,
    Result<Effect, VoxamError>,
) {
    match result {
        Ok(stack) => (MachineState { stack, ..s }, Ok(Effect::Next)),
        Err(fault) => (s, Err(fault)),
    }
}

/// A new map with its verdict.
pub open spec fn remapped(s: MachineState, step: (Result<(), VoxamError>, MemoryState)) -> (
    MachineState,
    Result<Effect, VoxamError>,
) {
    then_next((MachineState { memory: step.1, ..s }, step.0))
}

/// What an instruction does to a machine, for every opcode but the
/// two that go through the heap: integer math and data moves store
/// their value; branches, jumps, and returns move or leave; arrays,
/// the stack family, the output system, the string table, and the
/// memory map do their work; quit halts; debugtrap is fatal; and any
/// other opcode is left to the caller with nothing changed (Glulx:
/// Dictionary of Opcodes).
pub open spec fn outcome(s: MachineState, opcode: u32, args: Seq<Operand>) -> (
    MachineState,
    Result<Effect, VoxamError>,
) {
    let a = loaded(args, 0);
    let b = if unary(opcode) {
        0
    } else {
        loaded(args, 1)
    };
    if opcode == op::NOP {
        (s, Ok(Effect::Next))
    } else if stored_value(opcode, 0, 0) is Some {
        store_result(
            s,
            destination(
                args,
                if unary(opcode) {
                    1
                } else {
                    2
                },
            ),
            stored_value(opcode, a, b)->Some_0,
        )
    } else if branch_condition(opcode, 0, 0) is Some {
        if branch_condition(opcode, a, b)->Some_0 {
            branched(
                s,
                loaded(
                    args,
                    if unary(opcode) {
                        1
                    } else {
                        2
                    },
                ),
            )
        } else {
            (s, Ok(Effect::Next))
        }
    } else if opcode == op::JUMP {
        branched(s, a)
    } else if opcode == op::JUMPABS {
        (MachineState { pc: a, ..s }, Ok(Effect::Next))
    } else if opcode == op::RETURN {
        (s, Ok(Effect::Return(a)))
    } else if array_loaded(s.memory, opcode, 0, 0) is Some {
        store_result(s, destination(args, 2), array_loaded(s.memory, opcode, a, b)->Some_0)
    } else if array_stored(s.memory, opcode, 0, 0, 0) is Some {
        let (verdict, memory) = array_stored(s.memory, opcode, a, b, loaded(args, 2))->Some_0;
        remapped(s, (verdict, memory))
    } else if opcode == op::STKCOUNT {
        then_next(stored(s, destination(args, 0), s.stack.len() as u32))
    } else if opcode == op::STKPEEK {
        store_result(s, destination(args, 1), peek_of(s.stack, a))
    } else if opcode == op::STKSWAP {
        restacked(s, swap_of(s.stack))
    } else if opcode == op::STKCOPY {
        match copy_of(s.stack, a) {
            Ok(block) => pushed_all(s, block),
            Err(fault) => (s, Err(fault)),
        }
    } else if opcode == op::STKROLL {
        restacked(s, roll_of(s.stack, a, b))
    } else if opcode == op::GETIOSYS {
        let first = stored(s, destination(args, 0), s.iosys.mode);
        if first.1 is Err {
            then_next(first)
        } else {
            then_next(stored(first.0, destination(args, 1), s.iosys.rock))
        }
    } else if opcode == op::SETIOSYS {
        let iosys = if a == io_mode::GLK {
            selected(io_mode::NULL, 0)
        } else {
            selected(a, b)
        };
        (MachineState { iosys, ..s }, Ok(Effect::Next))
    } else if opcode == op::GETSTRINGTBL {
        then_next(stored(s, destination(args, 0), s.string_table))
    } else if opcode == op::SETSTRINGTBL {
        (MachineState { string_table: a, ..s }, Ok(Effect::Next))
    } else if opcode == op::GETMEMSIZE {
        then_next(stored(s, destination(args, 0), s.memory.endmem() as u32))
    } else if opcode == op::SETMEMSIZE {
        if s.heap.is_active() {
            (s, Err(VoxamError::ResizeUnderHeap))
        } else {
            let (verdict, memory) = s.memory.sized(a);
            if verdict is Err {
                (s, Err(verdict->Err_0))
            } else {
                then_next(stored(MachineState { memory, ..s }, destination(args, 1), 0))
            }
        }
    } else if opcode == op::MZERO {
        remapped(s, s.memory.filled(b, a, 0))
    } else if opcode == op::MCOPY {
        remapped(s, s.memory.copied(loaded(args, 2), b, a))
    } else if opcode == op::PROTECT {
        (MachineState { memory: s.memory.protected(a, b), ..s }, Ok(Effect::Next))
    } else if opcode == op::QUIT {
        (MachineState { running: false, ..s }, Ok(Effect::Next))
    } else if opcode == op::DEBUGTRAP {
        (s, Err(VoxamError::DebugTrap { value: a }))
    } else {
        (s, Ok(Effect::Elsewhere))
    }
}

/// What an instruction does to a machine: `outcome` for every opcode
/// but malloc and mfree, which do what the heap's allocation and
/// freeing do, a refused or zero allocation storing zero and a granted
/// one its address.
pub open spec fn executes(
    before: MachineState,
    opcode: u32,
    args: Seq<Operand>,
    after: MachineState,
    result: Result<Effect, VoxamError>,
) -> bool {
    if opcode == op::MALLOC {
        exists|heap: Heap, memory: MemoryState, granted: Result<u32, VoxamError>|
            {
                &&& #[trigger] allocation(before.heap, before.memory, loaded(args, 0), heap, memory, granted)
                &&& match granted {
                    Ok(address) => (after, result) == then_next(
                        stored(MachineState { heap, memory, ..before }, destination(args, 1), address),
                    ),
                    Err(fault) => after == MachineState { heap, memory, ..before } && result
                        == Err::<Effect, VoxamError>(fault),
                }
            }
    } else if opcode == op::MFREE {
        exists|verdict: Result<(), VoxamError>|
            {
                &&& #[trigger] freeing(before.heap, before.memory, loaded(args, 0), after.heap, after.memory, verdict)
                &&& after == MachineState { heap: after.heap, memory: after.memory, ..before }
                &&& result == match verdict {
                    Ok(()) => Ok::<Effect, VoxamError>(Effect::Next),
                    Err(fault) => Err(fault),
                }
            }
    } else {
        (after, result) == outcome(before, opcode, args)
    }
}

impl Machine {
    /// A machine over a memory map with an empty stack of a limit, no
    /// heap, the null output system, and no string table, running from
    /// address zero.
    pub fn new(memory: Memory, stack_limit: u32) -> (machine: Self)
        requires
            memory@.wf(),
        ensures
            machine@.wf(),
            machine@.memory == memory@,
            machine@.stack.len() == 0,
            machine@.stack_limit == stack_limit,
            !machine@.heap.is_active(),
            machine@.iosys == (IOSystem { mode: io_mode::NULL, rock: 0 }),
            machine@.string_table == 0,
            machine@.pc == 0,
            machine@.running,
    {
        Machine {
            memory,
            heap: Heap::new(),
            iosys: IOSystem { mode: io_mode::NULL, rock: 0 },
            stack: Vec::new(),
            stack_limit: stack_limit as usize,
            string_table: 0,
            pc: 0,
            running: true,
        }
    }

    /// Whether execution has not yet been halted by quit.
    pub fn running(&self) -> (running: bool)
        ensures
            running == self@.running,
    {
        self.running
    }

    /// Store a value where a store operand says.
    fn store(&mut self, place: Destination, value: u32) -> (result: Result<(), VoxamError>)
        requires
            old(self)@.wf(),
        ensures
            final(self)@.wf(),
            (final(self)@, result) == stored(old(self)@, place, value),
    {
        match place {
            Destination::Discard => Ok(()),
            Destination::Memory(address) => self.memory.write_word(address, value),
            Destination::Push => {
                if self.stack.len() < self.stack_limit {
                    self.stack.push(value);
                    Ok(())
                } else {
                    Err(VoxamError::StackFull)
                }
            },
        }
    }

    /// Store a computed value, or hand back its fault.
    fn store_value(&mut self, place: Destination, value: Result<u32, VoxamError>) -> (result: Result<
        Effect,
        VoxamError,
    >)
        requires
            old(self)@.wf(),
        ensures
            final(self)@.wf(),
            (final(self)@, result) == store_result(old(self)@, place, value),
    {
        match value {
            Ok(held) => match self.store(place, held) {
                Ok(()) => Ok(Effect::Next),
                Err(fault) => Err(fault),
            },
            Err(fault) => Err(fault),
        }
    }

    /// Branch by an offset.
    fn branch(&mut self, offset: u32) -> (result: Result<Effect, VoxamError>)
        requires
            old(self)@.wf(),
        ensures
            final(self)@.wf(),
            (final(self)@, result) == branched(old(self)@, offset),
    {
        match jumped(self.pc, offset) {
            Jump::Return(value) => Ok(Effect::Return(value)),
            Jump::To(target) => {
                self.pc = target;
                Ok(Effect::Next)
            },
        }
    }

    /// Push a copied block, as much of it as the stack has room for.
    fn push_block(&mut self, block: Vec<u32>) -> (result: Result<Effect, VoxamError>)
        requires
            old(self)@.wf(),
        ensures
            final(self)@.wf(),
            (final(self)@, result) == pushed_all(old(self)@, block@),
    {
        let ghost start = self.stack@;
        let mut at: usize = 0;
        while at < block.len()
            invariant
                self@.wf(),
                at <= block@.len(),
                self.stack@ == start + block@.take(at as int),
                self.memory@ == old(self)@.memory,
                self.heap == old(self)@.heap,
                self.iosys == old(self)@.iosys,
                self.stack_limit == old(self)@.stack_limit,
                self.string_table == old(self)@.string_table,
                self.pc == old(self)@.pc,
                self.running == old(self)@.running,
                start == old(self)@.stack,
            decreases block@.len() - at,
        {
            if self.stack.len() >= self.stack_limit {
                proof {
                    assert(block@.len() > old(self)@.stack_limit - start.len());
                    assert(at == old(self)@.stack_limit - start.len());
                }
                return Err(VoxamError::StackFull);
            }
            self.stack.push(block[at]);
            proof {
                assert(block@.take(at + 1) == block@.take(at as int).push(block@[at as int]));
            }
            at += 1;
        }
        proof {
            assert(block@.take(at as int) == block@);
        }
        Ok(Effect::Next)
    }

    /// Carry out one instruction whose operands are loaded.
    ///
    /// A roll by the most negative number of places is left out where
    /// the roll would turn anything: the negation of that count does not
    /// fit in 32 bits.
    #[verifier::rlimit(100)]
    #[verifier::spinoff_prover]
    pub fn execute(&mut self, opcode: u32, args: &[Operand]) -> (result: Result<Effect, VoxamError>)
        requires
            old(self)@.wf(),
            opcode == op::STKROLL ==> !(loaded(args@, 1) == 0x8000_0000 && 0 < crate::machine::as_signed(
                loaded(args@, 0),
            ) <= old(self)@.stack.len()),
        ensures
            final(self)@.wf(),
            executes(old(self)@, opcode, args@, final(self)@, result),
    {
        if opcode == op::MALLOC {
            return self.malloc(args);
        }
        if opcode == op::MFREE {
            return self.mfree(args);
        }
        self.carry_out(opcode, args)
    }

    /// The malloc opcode: allocate, then store the address or zero.
    fn malloc(&mut self, args: &[Operand]) -> (result: Result<Effect, VoxamError>)
        requires
            old(self)@.wf(),
        ensures
            final(self)@.wf(),
            executes(old(self)@, op::MALLOC, args@, final(self)@, result),
    {
        let length = load(args, 0);
        let ghost before = self@;
        let granted = self.heap.allocate(&mut self.memory, length);
        let ghost heap = self.heap;
        let ghost memory = self.memory@;
        proof {
            assert(allocation(before.heap, before.memory, length, heap, memory, granted));
        }
        match granted {
            Ok(address) => {
                let stored_at = self.store(place(args, 1), address);
                match stored_at {
                    Ok(()) => Ok(Effect::Next),
                    Err(fault) => Err(fault),
                }
            },
            Err(fault) => Err(fault),
        }
    }

    /// The mfree opcode.
    fn mfree(&mut self, args: &[Operand]) -> (result: Result<Effect, VoxamError>)
        requires
            old(self)@.wf(),
        ensures
            final(self)@.wf(),
            executes(old(self)@, op::MFREE, args@, final(self)@, result),
    {
        let address = load(args, 0);
        let ghost before = self@;
        let verdict = self.heap.free(&mut self.memory, address);
        proof {
            assert(freeing(before.heap, before.memory, address, self.heap, self.memory@, verdict));
        }
        match verdict {
            Ok(()) => Ok(Effect::Next),
            Err(fault) => Err(fault),
        }
    }

    /// Every opcode but the two that go through the heap.
    #[verifier::rlimit(100)]
    #[verifier::spinoff_prover]
    fn carry_out(&mut self, opcode: u32, args: &[Operand]) -> (result: Result<Effect, VoxamError>)
        requires
            old(self)@.wf(),
            opcode != op::MALLOC,
            opcode != op::MFREE,
            opcode == op::STKROLL ==> !(loaded(args@, 1) == 0x8000_0000 && 0 < crate::machine::as_signed(
                loaded(args@, 0),
            ) <= old(self)@.stack.len()),
        ensures
            final(self)@.wf(),
            (final(self)@, result) == outcome(old(self)@, opcode, args@),
    {
        if opcode == op::NOP {
            return Ok(Effect::Next);
        }
        let unary_op = opcode == op::NEG || opcode == op::BITNOT || opcode == op::COPY || opcode
            == op::SEXS || opcode == op::SEXB || opcode == op::JZ || opcode == op::JNZ;
        match computed(opcode, 0, 0) {
            Some(_) => {
                let a = load(args, 0);
                let b = if unary_op {
                    0
                } else {
                    load(args, 1)
                };
                let to = if unary_op {
                    place(args, 1)
                } else {
                    place(args, 2)
                };
                let value = computed(opcode, a, b);
                return match value {
                    Some(held) => self.store_value(to, held),
                    None => Ok(Effect::Elsewhere),
                };
            },
            None => {},
        }
        match branches(opcode, 0, 0) {
            Some(_) => {
                let a = load(args, 0);
                let (b, offset) = if unary_op {
                    (0, load(args, 1))
                } else {
                    (load(args, 1), load(args, 2))
                };
                return match branches(opcode, a, b) {
                    Some(true) => self.branch(offset),
                    _ => Ok(Effect::Next),
                };
            },
            None => {},
        }
        if opcode == op::JUMP {
            return self.branch(load(args, 0));
        }
        if opcode == op::JUMPABS {
            self.pc = load(args, 0);
            return Ok(Effect::Next);
        }
        if opcode == op::RETURN {
            return Ok(Effect::Return(load(args, 0)));
        }
        self.carry_out_state(opcode, args)
    }

    /// The opcodes that work on memory, the stack, the output system,
    /// and the string table.
    #[verifier::rlimit(100)]
    #[verifier::spinoff_prover]
    fn carry_out_state(&mut self, opcode: u32, args: &[Operand]) -> (result: Result<
        Effect,
        VoxamError,
    >)
        requires
            old(self)@.wf(),
            opcode != op::MALLOC,
            opcode != op::MFREE,
            opcode != op::NOP,
            stored_value(opcode, 0, 0) is None,
            branch_condition(opcode, 0, 0) is None,
            opcode != op::JUMP,
            opcode != op::JUMPABS,
            opcode != op::RETURN,
            opcode == op::STKROLL ==> !(loaded(args@, 1) == 0x8000_0000 && 0 < crate::machine::as_signed(
                loaded(args@, 0),
            ) <= old(self)@.stack.len()),
        ensures
            final(self)@.wf(),
            (final(self)@, result) == outcome(old(self)@, opcode, args@),
    {
        if opcode == op::ALOAD || opcode == op::ALOADS || opcode == op::ALOADB || opcode
            == op::ALOADBIT {
            let value = array_load(&self.memory, opcode, load(args, 0), load(args, 1));
            return match value {
                Some(held) => self.store_value(place(args, 2), held),
                None => Ok(Effect::Elsewhere),
            };
        }
        if opcode == op::ASTORE || opcode == op::ASTORES || opcode == op::ASTOREB || opcode
            == op::ASTOREBIT {
            let done = array_store(&mut self.memory, opcode, load(args, 0), load(args, 1), load(args, 2));
            return match done {
                Some(Ok(())) => Ok(Effect::Next),
                Some(Err(fault)) => Err(fault),
                None => Ok(Effect::Elsewhere),
            };
        }
        self.carry_out_rest(opcode, args)
    }

    /// The stack family, the output system, the string table, the
    /// memory map, quit, and debugtrap.
    #[verifier::rlimit(100)]
    #[verifier::spinoff_prover]
    fn carry_out_rest(&mut self, opcode: u32, args: &[Operand]) -> (result: Result<
        Effect,
        VoxamError,
    >)
        requires
            old(self)@.wf(),
            opcode != op::MALLOC,
            opcode != op::MFREE,
            opcode != op::NOP,
            stored_value(opcode, 0, 0) is None,
            branch_condition(opcode, 0, 0) is None,
            opcode != op::JUMP,
            opcode != op::JUMPABS,
            opcode != op::RETURN,
            array_loaded(old(self)@.memory, opcode, 0, 0) is None,
            array_stored(old(self)@.memory, opcode, 0, 0, 0) is None,
            opcode == op::STKROLL ==> !(loaded(args@, 1) == 0x8000_0000 && 0 < crate::machine::as_signed(
                loaded(args@, 0),
            ) <= old(self)@.stack.len()),
        ensures
            final(self)@.wf(),
            (final(self)@, result) == outcome(old(self)@, opcode, args@),
    {
        if opcode == op::STKCOUNT {
            let count = self.stack.len() as u32;
            return match self.store(place(args, 0), count) {
                Ok(()) => Ok(Effect::Next),
                Err(fault) => Err(fault),
            };
        }
        if opcode == op::STKPEEK {
            let value = peeked(&self.stack, load(args, 0));
            return self.store_value(place(args, 1), value);
        }
        if opcode == op::STKSWAP {
            return match swapped(&mut self.stack) {
                Ok(()) => Ok(Effect::Next),
                Err(fault) => Err(fault),
            };
        }
        if opcode == op::STKCOPY {
            return match copied(&self.stack, load(args, 0)) {
                Ok(block) => self.push_block(block),
                Err(fault) => Err(fault),
            };
        }
        if opcode == op::STKROLL {
            return match rolled(&mut self.stack, load(args, 0), load(args, 1)) {
                Ok(()) => Ok(Effect::Next),
                Err(fault) => Err(fault),
            };
        }
        if opcode == op::GETIOSYS {
            let (mode, rock) = (self.iosys.mode, self.iosys.rock);
            match self.store(place(args, 0), mode) {
                Ok(()) => {},
                Err(fault) => return Err(fault),
            }
            return match self.store(place(args, 1), rock) {
                Ok(()) => Ok(Effect::Next),
                Err(fault) => Err(fault),
            };
        }
        if opcode == op::SETIOSYS {
            let (mut mode, mut rock) = (load(args, 0), load(args, 1));
            if mode == io_mode::GLK {
                mode = io_mode::NULL;
                rock = 0;
            }
            self.iosys.select(mode, rock);
            return Ok(Effect::Next);
        }
        if opcode == op::GETSTRINGTBL {
            let table = self.string_table;
            return match self.store(place(args, 0), table) {
                Ok(()) => Ok(Effect::Next),
                Err(fault) => Err(fault),
            };
        }
        if opcode == op::SETSTRINGTBL {
            self.string_table = load(args, 0);
            return Ok(Effect::Next);
        }
        self.carry_out_map(opcode, args)
    }

    /// The memory map's opcodes, quit, and debugtrap.
    #[verifier::rlimit(100)]
    #[verifier::spinoff_prover]
    fn carry_out_map(&mut self, opcode: u32, args: &[Operand]) -> (result: Result<
        Effect,
        VoxamError,
    >)
        requires
            old(self)@.wf(),
            opcode != op::MALLOC,
            opcode != op::MFREE,
            opcode != op::NOP,
            stored_value(opcode, 0, 0) is None,
            branch_condition(opcode, 0, 0) is None,
            opcode != op::JUMP,
            opcode != op::JUMPABS,
            opcode != op::RETURN,
            array_loaded(old(self)@.memory, opcode, 0, 0) is None,
            array_stored(old(self)@.memory, opcode, 0, 0, 0) is None,
            opcode != op::STKCOUNT,
            opcode != op::STKPEEK,
            opcode != op::STKSWAP,
            opcode != op::STKCOPY,
            opcode != op::STKROLL,
            opcode != op::GETIOSYS,
            opcode != op::SETIOSYS,
            opcode != op::GETSTRINGTBL,
            opcode != op::SETSTRINGTBL,
        ensures
            final(self)@.wf(),
            (final(self)@, result) == outcome(old(self)@, opcode, args@),
    {
        if opcode == op::GETMEMSIZE {
            let endmem = self.memory.endmem();
            return match self.store(place(args, 0), endmem) {
                Ok(()) => Ok(Effect::Next),
                Err(fault) => Err(fault),
            };
        }
        if opcode == op::SETMEMSIZE {
            if self.heap.active() {
                return Err(VoxamError::ResizeUnderHeap);
            }
            match self.memory.set_size(load(args, 0)) {
                Ok(()) => {},
                Err(fault) => return Err(fault),
            }
            return match self.store(place(args, 1), 0) {
                Ok(()) => Ok(Effect::Next),
                Err(fault) => Err(fault),
            };
        }
        if opcode == op::MZERO {
            return match self.memory.fill(load(args, 1), load(args, 0), 0) {
                Ok(()) => Ok(Effect::Next),
                Err(fault) => Err(fault),
            };
        }
        if opcode == op::MCOPY {
            return match self.memory.copy(load(args, 2), load(args, 1), load(args, 0)) {
                Ok(()) => Ok(Effect::Next),
                Err(fault) => Err(fault),
            };
        }
        if opcode == op::PROTECT {
            self.memory.set_protection(load(args, 0), load(args, 1));
            return Ok(Effect::Next);
        }
        if opcode == op::QUIT {
            self.running = false;
            return Ok(Effect::Next);
        }
        if opcode == op::DEBUGTRAP {
            return Err(VoxamError::DebugTrap { value: load(args, 0) });
        }
        Ok(Effect::Elsewhere)
    }
}

/// The value operand `i` carries.
fn load(args: &[Operand], i: usize) -> (value: u32)
    ensures
        value == loaded(args@, i as int),
{
    if i >= args.len() {
        return 0;
    }
    match args[i] {
        Operand::Load(value) => value,
        Operand::Store(_) => 0,
    }
}

/// Where store operand `i` goes.
fn place(args: &[Operand], i: usize) -> (to: Destination)
    ensures
        to == destination(args@, i as int),
{
    if i >= args.len() {
        return Destination::Discard;
    }
    match args[i] {
        Operand::Store(to) => to,
        Operand::Load(_) => Destination::Discard,
    }
}

/// Every opcode the machine executes is decoded with the operands its
/// execution uses, in the order it uses them: a loaded `L` for each
/// value it reads and a store `S` for each result it writes. A value
/// opcode reads one operand, or two, and stores one; a branch reads its
/// one or two operands and then its offset; an array load reads base
/// and index and stores; an array store reads base, index, and value;
/// the rest read and store what their work names. Every such operand
/// is a word, and copys and copyb move two bytes and one.
pub proof fn operand_lists_match_execution(opcode: u32)
    ensures
        stored_value(opcode, 0, 0) is Some ==> operand_list(opcode) == Some(
            (
                if unary(opcode) {
                    seq!['L', 'S']
                } else {
                    seq!['L', 'L', 'S']
                },
                4u32,
            ),
        ),
        branch_condition(opcode, 0, 0) is Some ==> operand_list(opcode) == Some(
            (
                if unary(opcode) {
                    seq!['L', 'L']
                } else {
                    seq!['L', 'L', 'L']
                },
                4u32,
            ),
        ),
        (opcode == op::ALOAD || opcode == op::ALOADS || opcode == op::ALOADB || opcode
            == op::ALOADBIT) ==> operand_list(opcode) == Some((seq!['L', 'L', 'S'], 4u32)),
        (opcode == op::ASTORE || opcode == op::ASTORES || opcode == op::ASTOREB || opcode
            == op::ASTOREBIT) ==> operand_list(opcode) == Some((seq!['L', 'L', 'L'], 4u32)),
        (opcode == op::NOP || opcode == op::STKSWAP || opcode == op::QUIT) ==> operand_list(opcode)
            == Some((Seq::<char>::empty(), 4u32)),
        (opcode == op::JUMP || opcode == op::JUMPABS || opcode == op::RETURN || opcode
            == op::STKCOPY || opcode == op::SETSTRINGTBL || opcode == op::MFREE || opcode
            == op::DEBUGTRAP) ==> operand_list(opcode) == Some((seq!['L'], 4u32)),
        (opcode == op::STKCOUNT || opcode == op::GETSTRINGTBL || opcode == op::GETMEMSIZE)
            ==> operand_list(opcode) == Some((seq!['S'], 4u32)),
        (opcode == op::STKPEEK || opcode == op::SETMEMSIZE || opcode == op::MALLOC)
            ==> operand_list(opcode) == Some((seq!['L', 'S'], 4u32)),
        (opcode == op::STKROLL || opcode == op::SETIOSYS || opcode == op::MZERO || opcode
            == op::PROTECT) ==> operand_list(opcode) == Some((seq!['L', 'L'], 4u32)),
        opcode == op::MCOPY ==> operand_list(opcode) == Some((seq!['L', 'L', 'L'], 4u32)),
        opcode == op::GETIOSYS ==> operand_list(opcode) == Some((seq!['S', 'S'], 4u32)),
        opcode == op::COPYS ==> operand_list(opcode) == Some((seq!['L', 'S'], 2u32)),
        opcode == op::COPYB ==> operand_list(opcode) == Some((seq!['L', 'S'], 1u32)),
{
    reveal_strlit("");
    reveal_strlit("L");
    reveal_strlit("S");
    reveal_strlit("LS");
    reveal_strlit("LL");
    reveal_strlit("SS");
    reveal_strlit("LLS");
    reveal_strlit("LLL");
    assert(""@ =~= Seq::<char>::empty());
    assert("L"@ =~= seq!['L']);
    assert("S"@ =~= seq!['S']);
    assert("LS"@ =~= seq!['L', 'S']);
    assert("LL"@ =~= seq!['L', 'L']);
    assert("SS"@ =~= seq!['S', 'S']);
    assert("LLS"@ =~= seq!['L', 'L', 'S']);
    assert("LLL"@ =~= seq!['L', 'L', 'L']);
}

} // verus!
