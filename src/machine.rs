//! Registers, transformations and the effects that instructions have on a machine.
use vstd::prelude::*;
use vstd::wrapping::i32_specs;
use vstd::arithmetic::div_mod::{lemma_fundamental_div_mod, lemma_mod_multiples_basic};
use crate::error::{ErrorKind, ErrorModel};
use crate::names::{lemma_names_nonempty, register_names, register_table, texts, REGISTER_COUNT};
use crate::operand::{Operand, OperandModel};
use crate::text::same_text;

verus! {

/// `name` names a register.
pub open spec fn is_register(name: Seq<char>) -> bool {
    register_names().contains(name)
}

/// The index of the register called `name`.
pub open spec fn register_index(name: Seq<char>) -> int {
    choose|i: int| 0 <= i < register_names().len() && register_names()[i] == name
}

/// No two registers share a name.
pub proof fn lemma_register_names_distinct()
    ensures
        forall|i: int, j: int|
            0 <= i < j < register_names().len() ==> #[trigger] register_names()[i]
                != #[trigger] register_names()[j],
{
    reveal_strlit("customer experience");
    reveal_strlit("revenue streams");
    reveal_strlit("core competencies");
    reveal_strlit("best practices");
    reveal_strlit("stakeholder engagement");
    reveal_strlit("key performance indicators");
    reveal_strlit("return on investment");
    reveal_strlit("assets");
    let t = register_names();
    assert(t[0].len() == 19 && t[1].len() == 15 && t[2].len() == 17 && t[3].len() == 14);
    assert(t[4].len() == 22 && t[5].len() == 26 && t[6].len() == 20 && t[7].len() == 6);
}

pub proof fn lemma_register_index(name: Seq<char>)
    requires
        is_register(name),
    ensures
        0 <= register_index(name) < REGISTER_COUNT,
        register_names()[register_index(name)] == name,
        forall|i: int|
            0 <= i < REGISTER_COUNT && #[trigger] register_names()[i] == name ==> i
                == register_index(name),
{
    lemma_names_nonempty();
    lemma_register_names_distinct();
    let k = choose|k: int| 0 <= k < register_names().len() && register_names()[k] == name;
    assert forall|i: int|
        0 <= i < REGISTER_COUNT && #[trigger] register_names()[i] == name implies i
        == register_index(name) by {
        if i < register_index(name) {
            assert(register_names()[i] != register_names()[register_index(name)]);
        } else if i > register_index(name) {
            assert(register_names()[register_index(name)] != register_names()[i]);
        }
    }
}

/// The index of the register called `name`, if there is one.
pub fn find_register(name: &str) -> (r: Option<usize>)
    ensures
        match r {
            Some(i) => is_register(name@) && i as int == register_index(name@),
            None => !is_register(name@),
        },
{
    let table = register_table();
    proof {
        lemma_names_nonempty();
    }
    let mut i: usize = 0;
    while i < table.len()
        invariant
            texts(table@) == register_names(),
            i <= table@.len(),
            forall|k: int| 0 <= k < i ==> register_names()[k] != name@,
        decreases table@.len() - i,
    {
        assert(table@[i as int]@ == register_names()[i as int]);
        if same_text(table[i], name) {
            proof {
                assert(register_names()[i as int] == name@);
                lemma_register_index(name@);
            }
            return Some(i);
        }
        i = i + 1;
    }
    proof {
        if is_register(name@) {
            let k = choose|k: int| 0 <= k < register_names().len() && register_names()[k] == name@;
        }
    }
    None
}

/// A transformation to apply to a register's value.
#[derive(Debug, Clone)]
pub enum Transformation {
    Add(Operand),
    Subtract(Operand),
    Multiply(Operand),
    Divide(Operand),
    Assign(Operand),
}

/// What a transformation stands for.
pub enum TransformationModel {
    Add(OperandModel),
    Subtract(OperandModel),
    Multiply(OperandModel),
    Divide(OperandModel),
    Assign(OperandModel),
}

impl View for Transformation {
    type V = TransformationModel;

    open spec fn view(&self) -> TransformationModel {
        match self {
            Transformation::Add(o) => TransformationModel::Add(o@),
            Transformation::Subtract(o) => TransformationModel::Subtract(o@),
            Transformation::Multiply(o) => TransformationModel::Multiply(o@),
            Transformation::Divide(o) => TransformationModel::Divide(o@),
            Transformation::Assign(o) => TransformationModel::Assign(o@),
        }
    }
}

impl TransformationModel {
    /// The operand of the transformation.
    pub open spec fn operand(self) -> OperandModel {
        match self {
            TransformationModel::Add(o) => o,
            TransformationModel::Subtract(o) => o,
            TransformationModel::Multiply(o) => o,
            TransformationModel::Divide(o) => o,
            TransformationModel::Assign(o) => o,
        }
    }

    /// The operand is a literal or a register, and a divisor is a literal
    /// other than 0 and -1.
    pub open spec fn wf(self) -> bool {
        &&& match self.operand() {
            OperandModel::Register(n) => is_register(n),
            OperandModel::Literal(_) => true,
            OperandModel::Label(_) => false,
        }
        &&& match self {
            TransformationModel::Divide(o) => match o {
                OperandModel::Literal(d) => d != 0 && d != -1,
                _ => false,
            },
            _ => true,
        }
    }
}

/// The value of an operand, given the values of the registers.
pub open spec fn operand_value(o: OperandModel, registers: Seq<i32>) -> i32 {
    match o {
        OperandModel::Register(n) => registers[register_index(n)],
        OperandModel::Literal(v) => v,
        OperandModel::Label(_) => 0,
    }
}

/// `a / b` rounded toward zero.
pub open spec fn truncating_div(a: int, b: int) -> int {
    let q = abs(a) / abs(b);
    if (a < 0) != (b < 0) {
        -q
    } else {
        q
    }
}

pub open spec fn abs(a: int) -> int {
    if a < 0 {
        -a
    } else {
        a
    }
}

/// The new value of a register holding `value` under `t`, given the values of the registers.
pub open spec fn transformed(value: i32, t: TransformationModel, registers: Seq<i32>) -> i32 {
    let v = operand_value(t.operand(), registers);
    match t {
        TransformationModel::Add(_) => i32_specs::wrapping_add(value, v),
        TransformationModel::Subtract(_) => i32_specs::wrapping_sub(value, v),
        TransformationModel::Multiply(_) => i32_specs::wrapping_mul(value, v),
        TransformationModel::Divide(_) => truncating_div(value as int, v as int) as i32,
        TransformationModel::Assign(_) => v,
    }
}

/// Computes the new value of a register holding `value` under `t`.
pub fn apply_transformation(value: i32, t: &Transformation, registers: &Vec<i32>) -> (r: i32)
    requires
        t@.wf(),
        registers@.len() == REGISTER_COUNT,
    ensures
        r == transformed(value, t@, registers@),
{
    let operand = match t {
        Transformation::Add(o) => o,
        Transformation::Subtract(o) => o,
        Transformation::Multiply(o) => o,
        Transformation::Divide(o) => o,
        Transformation::Assign(o) => o,
    };
    let v = match operand {
        Operand::Register(n) => {
            let i = find_register(n.as_str());
            proof {
                lemma_register_index(n@);
            }
            registers[i.unwrap()]
        },
        Operand::Literal(l) => *l,
        Operand::Label(_) => 0,
    };
    match t {
        Transformation::Add(_) => value.wrapping_add(v),
        Transformation::Subtract(_) => value.wrapping_sub(v),
        Transformation::Multiply(_) => value.wrapping_mul(v),
        Transformation::Divide(_) => truncated_quotient(value, v),
        Transformation::Assign(_) => v,
    }
}

/// `a / b` rounded toward zero, as Rust's `/` computes it.
pub fn truncated_quotient(a: i32, b: i32) -> (r: i32)
    requires
        b != 0,
        b != -1,
    ensures
        r as int == truncating_div(a as int, b as int),
{
    let x: i64 = if a < 0 { -(a as i64) } else { a as i64 };
    let y: i64 = if b < 0 { -(b as i64) } else { b as i64 };
    let q: i64 = x / y;
    assert(0 <= q <= x) by (nonlinear_arith)
        requires
            q == x / y,
            x >= 0,
            y >= 1,
    ;
    assert(x == abs(a as int) && y == abs(b as int));
    assert(q == abs(a as int) / abs(b as int));
    assert(b < 0 && a < 0 ==> q < 0x8000_0000) by (nonlinear_arith)
        requires
            q == x / y,
            x <= 0x8000_0000,
            b < 0 ==> y >= 2,
            x >= 0,
    ;
    if (a < 0) != (b < 0) {
        (-q) as i32
    } else {
        q as i32
    }
}

/// `r` is the 32-bit two's-complement wrap of `x`: the `i32` congruent to `x` modulo 2^32.
pub open spec fn wraps_to(x: int, r: i32) -> bool {
    (r as int - x) % 0x1_0000_0000 == 0
}

/// Adding, subtracting and multiplying a register's value wrap around in 32-bit
/// two's-complement arithmetic; dividing it rounds toward zero.
pub proof fn lemma_register_arithmetic(value: i32, v: i32, registers: Seq<i32>)
    ensures
        wraps_to(
            value + v,
            transformed(value, TransformationModel::Add(OperandModel::Literal(v)), registers),
        ),
        wraps_to(
            value - v,
            transformed(value, TransformationModel::Subtract(OperandModel::Literal(v)), registers),
        ),
        wraps_to(
            value * v,
            transformed(value, TransformationModel::Multiply(OperandModel::Literal(v)), registers),
        ),
        v != 0 && v != -1 ==> transformed(
            value,
            TransformationModel::Divide(OperandModel::Literal(v)),
            registers,
        ) as int == truncating_div(value as int, v as int),
{
    let m: int = 0x1_0000_0000;
    lemma_mod_multiples_basic(-1, m);
    lemma_mod_multiples_basic(1, m);
    lemma_mod_multiples_basic(0, m);
    let x = value * v;
    lemma_fundamental_div_mod(x, m);
    let q = x / m;
    lemma_mod_multiples_basic(-q, m);
    lemma_mod_multiples_basic(-q - 1, m);
    assert((-q) * m == -(m * q) && (-q - 1) * m == -(m * q) - m) by (nonlinear_arith);
    if v != 0 && v != -1 {
        let a = abs(value as int);
        let b = abs(v as int);
        assert(a / b <= a) by (nonlinear_arith)
            requires
                a >= 0,
                b >= 1,
        ;
        if b >= 2 {
            assert(a / b <= a / 2) by (nonlinear_arith)
                requires
                    a >= 0,
                    b >= 2,
            ;
        }
    }
}

/// What an instruction does to a machine.
pub enum Effect {
    /// Enters the label of that name.
    Label(Seq<char>),
    /// Transforms the value of a register.
    Modify(Seq<char>, TransformationModel),
    /// Prints the value of a register as a character.
    Print(Seq<char>),
    /// Reads one byte of input into a register.
    Read(Seq<char>),
    /// Sets a register to a random digit.
    Randomize(Seq<char>),
    /// Continues after the label of that name.
    Jump(Seq<char>),
    /// Continues after the label (second) when the register (first) holds 0.
    JumpIfZero(Seq<char>, Seq<char>),
    /// Continues after the label (second) when the register (first) is negative.
    JumpIfNeg(Seq<char>, Seq<char>),
}

/// How an attempt ended: `None` for success, else the error.
pub open spec fn outcome(r: Result<(), ErrorKind>) -> Option<ErrorModel> {
    match r {
        Ok(_) => None,
        Err(k) => Some(k@),
    }
}

/// A way of carrying out instructions: running them at once, or compiling them.
pub trait Backend: Sized {
    /// The state is consistent.
    spec fn inv(&self) -> bool;

    /// The label `name` can be jumped to.
    spec fn label_known(&self, name: Seq<char>) -> bool;

    /// `post` is a state that carrying out `effect` from `pre` may lead to, with `result`.
    spec fn performs(pre: Self, effect: Effect, post: Self, result: Option<ErrorModel>) -> bool;

    fn has_register(&self, name: &str) -> (r: bool)
        ensures
            r == is_register(name@),
    ;

    fn has_label(&self, label: &str) -> (r: bool)
        requires
            self.inv(),
        ensures
            r == self.label_known(label@),
    ;

    fn gen_modify_register(&mut self, name: &str, transformation: Transformation)
        requires
            old(self).inv(),
            is_register(name@),
            transformation@.wf(),
        ensures
            final(self).inv(),
            Self::performs(*old(self), Effect::Modify(name@, transformation@), *final(self), None),
    ;

    fn gen_print(&mut self, register: &str) -> (r: Result<(), ErrorKind>)
        requires
            old(self).inv(),
            is_register(register@),
        ensures
            final(self).inv(),
            Self::performs(*old(self), Effect::Print(register@), *final(self), outcome(r)),
    ;

    fn gen_read(&mut self, register: &str)
        requires
            old(self).inv(),
            is_register(register@),
        ensures
            final(self).inv(),
            Self::performs(*old(self), Effect::Read(register@), *final(self), None),
    ;

    fn gen_randomize(&mut self, register: &str)
        requires
            old(self).inv(),
            is_register(register@),
        ensures
            final(self).inv(),
            Self::performs(*old(self), Effect::Randomize(register@), *final(self), None),
    ;

    fn gen_label(&mut self, name: &str)
        requires
            old(self).inv(),
            old(self).label_known(name@),
        ensures
            final(self).inv(),
            Self::performs(*old(self), Effect::Label(name@), *final(self), None),
    ;

    fn gen_jump(&mut self, label: &str)
        requires
            old(self).inv(),
            old(self).label_known(label@),
        ensures
            final(self).inv(),
            Self::performs(*old(self), Effect::Jump(label@), *final(self), None),
    ;

    fn gen_jump_if_zero(&mut self, register: &str, label: &str)
        requires
            old(self).inv(),
            is_register(register@),
            old(self).label_known(label@),
        ensures
            final(self).inv(),
            Self::performs(
                *old(self),
                Effect::JumpIfZero(register@, label@),
                *final(self),
                None,
            ),
    ;

    fn gen_jump_if_neg(&mut self, register: &str, label: &str)
        requires
            old(self).inv(),
            is_register(register@),
            old(self).label_known(label@),
        ensures
            final(self).inv(),
            Self::performs(*old(self), Effect::JumpIfNeg(register@, label@), *final(self), None),
    ;
}

} // verus!
