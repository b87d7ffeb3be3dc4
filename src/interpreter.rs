//! The interpreter backend: runs a program line by line on live registers.
use vstd::prelude::*;
use crate::error::{Error, ErrorKind, ErrorModel, OpResult};
use crate::machine::{
    apply_transformation, find_register, is_register, lemma_register_index, register_index,
    transformed, Backend, Effect, Transformation,
};
use crate::names::REGISTER_COUNT;
use crate::operations::{execute_line, line_handled};
use crate::program::{defines, label_text, Program};
use crate::support::{character_of, is_scalar_value, randomize};

verus! {

/// The state of a running program, apart from the program itself.
pub struct ContextModel {
    /// The value of each register.
    pub registers: Seq<i32>,
    /// The 0-indexed line to execute next.
    pub line: int,
    /// The characters printed and not yet taken.
    pub output: Seq<char>,
    /// The register that waits for a byte of input, if any.
    pub awaiting_input: Option<int>,
}

/// A representation of the state of "memory" during the execution of a program.
#[derive(Debug)]
pub struct Context<'ctx> {
    /// Program being executed.
    pub program: &'ctx Program,
    /// The value of each register, by register index.
    pub registers: Vec<i32>,
    /// The 0-indexed line number currently being executed.
    pub current_line_number: usize,
    /// The characters printed and not yet taken.
    pub output: Vec<char>,
    /// The register that waits for a byte of input, if any.
    pub awaiting_input: Option<usize>,
}

/// `out` is `before` followed by the character of code point `v`.
pub open spec fn printed(before: Seq<char>, out: Seq<char>, v: i32) -> bool {
    &&& out.len() == before.len() + 1
    &&& out.drop_last() == before
    &&& out.last() as u32 as int == v as int
}

impl<'ctx> View for Context<'ctx> {
    type V = ContextModel;

    open spec fn view(&self) -> ContextModel {
        ContextModel {
            registers: self.registers@,
            line: self.current_line_number as int,
            output: self.output@,
            awaiting_input: match self.awaiting_input {
                Some(i) => Some(i as int),
                None => None,
            },
        }
    }
}

impl<'ctx> Context<'ctx> {
    /// A context at the start of `program`: every register holds 0.
    pub fn new(program: &'ctx Program) -> (r: Context<'ctx>)
        requires
            program.wf(),
        ensures
            r.inv(),
            r.program == program,
            r@.registers == Seq::new(REGISTER_COUNT as nat, |i: int| 0i32),
            r@.line == 0,
            r@.output.len() == 0,
            r@.awaiting_input is None,
    {
        let mut registers: Vec<i32> = Vec::new();
        let mut i: usize = 0;
        while i < REGISTER_COUNT
            invariant
                i <= REGISTER_COUNT,
                registers@ == Seq::new(i as nat, |k: int| 0i32),
            decreases REGISTER_COUNT - i,
        {
            registers.push(0);
            i = i + 1;
            assert(registers@ =~= Seq::new(i as nat, |k: int| 0i32));
        }
        Context {
            program,
            registers,
            current_line_number: 0,
            output: Vec::new(),
            awaiting_input: None,
        }
    }

    /// The program has run past its last line.
    pub open spec fn finished(&self) -> bool {
        self.current_line_number >= self.program.lines().len()
    }

    /// Whether the program has run past its last line.
    pub fn is_finished(&self) -> (r: bool)
        ensures
            r == self.finished(),
    {
        self.current_line_number >= self.program.line_count()
    }

    /// `post` follows `pre` by running the current line, which returned `r`: the
    /// line's instruction ran, and on success execution moved on by one line.
    pub open spec fn steps(pre: Context<'ctx>, post: Context<'ctx>, r: OpResult) -> bool {
        exists|mid: Context<'ctx>|
            {
                &&& line_handled(
                    pre.program.lines()[pre.current_line_number as int],
                    pre.current_line_number,
                    pre,
                    mid,
                    r,
                )
                &&& r is Ok ==> post@ == (ContextModel { line: mid@.line + 1, ..mid@ })
                &&& r is Err ==> post == mid
            }
    }

    /// Executes the line at `current_line_number` and sets `current_line_number`
    /// to the index of the next line to execute: the line after, or the line
    /// after the label that a jump names.
    pub fn execute_current_line(&mut self) -> (r: OpResult)
        requires
            old(self).inv(),
            old(self).awaiting_input is None,
        ensures
            final(self).inv(),
            final(self).program == old(self).program,
            old(self).finished() ==> r is Err && *final(self) == *old(self),
            !old(self).finished() ==> Context::steps(*old(self), *final(self), r),
    {
        if self.current_line_number >= self.program.line_count() {
            return Err(Error::new(ErrorKind::UnknownInstruction, self.current_line_number));
        }
        let program = self.program;
        let line = program.line(self.current_line_number);
        let n = self.current_line_number;
        proof {
            if label_text(line@) is Some {
                assert(defines(program.lines(), n as int, label_text(line@)->0));
            }
        }
        let r = execute_line(line, n, self);
        let ghost mid = *self;
        assert(line_handled(program.lines()[n as int], n, *old(self), mid, r));
        match r {
            Ok(()) => {
                self.current_line_number = self.current_line_number + 1;
                assert(self@ == ContextModel { line: mid@.line + 1, ..mid@ });
                assert(self.inv());
                r
            },
            Err(_) => r,
        }
    }

    /// Takes the characters printed so far.
    pub fn take_output(&mut self) -> (r: Vec<char>)
        ensures
            r@ == old(self)@.output,
            final(self)@ == (ContextModel { output: Seq::empty(), ..old(self)@ }),
            final(self).program == old(self).program,
            old(self).inv() ==> final(self).inv(),
    {
        let mut out: Vec<char> = Vec::new();
        std::mem::swap(&mut out, &mut self.output);
        out
    }

    /// Stores a byte of input, or -1 at the end of input, in the register that
    /// waits for it.
    pub fn receive_input(&mut self, byte: Option<u8>)
        requires
            old(self).inv(),
            old(self).awaiting_input is Some,
        ensures
            final(self).inv(),
            final(self).program == old(self).program,
            final(self)@ == (ContextModel {
                registers: old(self)@.registers.update(
                    old(self)@.awaiting_input->0,
                    match byte {
                        Some(b) => b as i32,
                        None => -1i32,
                    },
                ),
                awaiting_input: None,
                ..old(self)@
            }),
    {
        let i = self.awaiting_input.unwrap();
        let value: i32 = match byte {
            Some(b) => b as i32,
            None => -1,
        };
        self.registers.set(i, value);
        self.awaiting_input = None;
    }

    /// The value of the register called `name`.
    pub fn get_register_value(&self, name: &str) -> (r: i32)
        requires
            self.inv(),
            is_register(name@),
        ensures
            r == self@.registers[register_index(name@)],
    {
        proof {
            lemma_register_index(name@);
        }
        let i = find_register(name).unwrap();
        self.registers[i]
    }

    /// Sets the register called `name` to `value`.
    pub fn set_register_value(&mut self, name: &str, value: i32)
        requires
            old(self).inv(),
            is_register(name@),
        ensures
            final(self).inv(),
            final(self).program == old(self).program,
            final(self)@ == (ContextModel {
                registers: old(self)@.registers.update(register_index(name@), value),
                ..old(self)@
            }),
    {
        proof {
            lemma_register_index(name@);
        }
        let i = find_register(name).unwrap();
        self.registers.set(i, value);
    }
}

impl<'ctx> Backend for Context<'ctx> {
    open spec fn inv(&self) -> bool {
        &&& self.program.wf()
        &&& self.registers@.len() == REGISTER_COUNT
        &&& self.current_line_number <= self.program.lines().len()
        &&& match self.awaiting_input {
            Some(i) => i < REGISTER_COUNT,
            None => true,
        }
    }

    open spec fn label_known(&self, name: Seq<char>) -> bool {
        self.program.label_line(name) is Some
    }

    open spec fn performs(
        pre: Self,
        effect: Effect,
        post: Self,
        result: Option<ErrorModel>,
    ) -> bool {
        &&& post.program == pre.program
        &&& match effect {
            Effect::Label(_) => result is None && post@ == pre@,
            Effect::Modify(name, t) => {
                let i = register_index(name);
                &&& result is None
                &&& post@ == ContextModel {
                    registers: pre@.registers.update(
                        i,
                        transformed(pre@.registers[i], t, pre@.registers),
                    ),
                    ..pre@
                }
            },
            Effect::Print(name) => {
                let v = pre@.registers[register_index(name)];
                if is_scalar_value(v as int) {
                    &&& result is None
                    &&& printed(pre@.output, post@.output, v)
                    &&& post@ == ContextModel { output: post@.output, ..pre@ }
                } else {
                    result == Some(ErrorModel::InvalidCharacter(v)) && post@ == pre@
                }
            },
            Effect::Read(name) => result is None && post@ == ContextModel {
                awaiting_input: Some(register_index(name)),
                ..pre@
            },
            Effect::Randomize(name) => {
                &&& result is None
                &&& 0 <= post@.registers[register_index(name)] < 10
                &&& post@ == ContextModel {
                    registers: pre@.registers.update(
                        register_index(name),
                        post@.registers[register_index(name)],
                    ),
                    ..pre@
                }
            },
            Effect::Jump(label) => result is None && post@ == ContextModel {
                line: pre.program.label_line(label)->0,
                ..pre@
            },
            Effect::JumpIfZero(name, label) => {
                &&& result is None
                &&& if pre@.registers[register_index(name)] == 0 {
                    post@ == ContextModel { line: pre.program.label_line(label)->0, ..pre@ }
                } else {
                    post@ == pre@
                }
            },
            Effect::JumpIfNeg(name, label) => {
                &&& result is None
                &&& if pre@.registers[register_index(name)] < 0 {
                    post@ == ContextModel { line: pre.program.label_line(label)->0, ..pre@ }
                } else {
                    post@ == pre@
                }
            },
        }
    }

    fn has_register(&self, name: &str) -> (r: bool) {
        find_register(name).is_some()
    }

    fn has_label(&self, label: &str) -> (r: bool) {
        self.program.find_label(label).is_some()
    }

    fn gen_modify_register(&mut self, name: &str, transformation: Transformation) {
        let value = self.get_register_value(name);
        let new_value = apply_transformation(value, &transformation, &self.registers);
        self.set_register_value(name, new_value);
    }

    fn gen_print(&mut self, register: &str) -> (r: Result<(), ErrorKind>) {
        let value = self.get_register_value(register);
        match character_of(value) {
            Some(c) => {
                let ghost before = self.output@;
                self.output.push(c);
                assert(self.output@.drop_last() =~= before);
                Ok(())
            },
            None => Err(ErrorKind::InvalidCharacter(value)),
        }
    }

    fn gen_read(&mut self, register: &str) {
        proof {
            lemma_register_index(register@);
        }
        self.awaiting_input = find_register(register);
    }

    fn gen_randomize(&mut self, register: &str) {
        let d = randomize();
        self.set_register_value(register, d);
    }

    fn gen_label(&mut self, _name: &str) {
    }

    fn gen_jump(&mut self, label: &str) {
        let line_number = self.program.find_label(label).unwrap();
        self.current_line_number = line_number;
    }

    fn gen_jump_if_zero(&mut self, register: &str, label: &str) {
        let value = self.get_register_value(register);
        if value == 0 {
            self.gen_jump(label);
        }
    }

    fn gen_jump_if_neg(&mut self, register: &str, label: &str) {
        let value = self.get_register_value(register);
        if value < 0 {
            self.gen_jump(label);
        }
    }
}

} // verus!
