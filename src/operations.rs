//! The instructions of the language: their keywords, the checks on their
//! operands, and the effect each one asks of a backend.
use vstd::prelude::*;
use crate::error::{Error, ErrorKind, ErrorModel, OpResult};
use crate::machine::{is_register, Backend, Effect, Transformation, TransformationModel};
use crate::names::{lemma_names_nonempty, register_names, texts};
use crate::operand::{lex, literal_run, operand_views, parse_operands, Operand, OperandModel};
use crate::program::{label_prefixes, label_text};
use crate::text::{
    first_match, first_match_at, first_match_from, is_prefix, lemma_first_match,
    skip_first_match,
};

verus! {

/// The instructions of the language.
#[derive(Debug, Clone, Copy, PartialEq, Eq, Structural)]
pub enum Op {
    Label,
    Increment,
    Decrement,
    Negate,
    Double,
    Halve,
    Randomize,
    Assign,
    Add,
    Subtract,
    Read,
    Print,
    Jump,
    JumpIfZero,
    JumpIfNeg,
}

/// The keywords that begin an instruction line, in matching priority order.
pub open spec fn instruction_prefixes() -> Seq<Seq<char>> {
    seq![
        "moving forward, "@,
        "going forward, "@,
        "innovate "@,
        "value-add "@,
        "streamline "@,
        "optimize "@,
        "revamp "@,
        "overhaul "@,
        "amplify "@,
        "incentivize "@,
        "backburner "@,
        "paradigm shift "@,
        "align "@,
        "synergize "@,
        "integrate "@,
        "differentiate "@,
        "crowdsource "@,
        "deliver "@,
        "produce "@,
        "circle back to "@,
        "revisit "@,
        "pivot "@,
        "restructure "@,
    ]
}

/// The instruction that each keyword of `instruction_prefixes` selects.
pub open spec fn instruction_ops() -> Seq<Op> {
    seq![
        Op::Label,
        Op::Label,
        Op::Increment,
        Op::Increment,
        Op::Decrement,
        Op::Decrement,
        Op::Negate,
        Op::Negate,
        Op::Double,
        Op::Double,
        Op::Halve,
        Op::Randomize,
        Op::Assign,
        Op::Add,
        Op::Add,
        Op::Subtract,
        Op::Read,
        Op::Print,
        Op::Print,
        Op::Jump,
        Op::Jump,
        Op::JumpIfZero,
        Op::JumpIfNeg,
    ]
}

pub fn instruction_prefix_table() -> (r: Vec<&'static str>)
    ensures
        texts(r@) == instruction_prefixes(),
{
    let r = vec![
        "moving forward, ",
        "going forward, ",
        "innovate ",
        "value-add ",
        "streamline ",
        "optimize ",
        "revamp ",
        "overhaul ",
        "amplify ",
        "incentivize ",
        "backburner ",
        "paradigm shift ",
        "align ",
        "synergize ",
        "integrate ",
        "differentiate ",
        "crowdsource ",
        "deliver ",
        "produce ",
        "circle back to ",
        "revisit ",
        "pivot ",
        "restructure ",
    ];
    assert(texts(r@) =~= instruction_prefixes());
    r
}

pub fn instruction_op(k: usize) -> (r: Op)
    requires
        k < instruction_ops().len(),
    ensures
        r == instruction_ops()[k as int],
{
    let ops = vec![
        Op::Label,
        Op::Label,
        Op::Increment,
        Op::Increment,
        Op::Decrement,
        Op::Decrement,
        Op::Negate,
        Op::Negate,
        Op::Double,
        Op::Double,
        Op::Halve,
        Op::Randomize,
        Op::Assign,
        Op::Add,
        Op::Add,
        Op::Subtract,
        Op::Read,
        Op::Print,
        Op::Print,
        Op::Jump,
        Op::Jump,
        Op::JumpIfZero,
        Op::JumpIfNeg,
    ];
    assert(ops@ =~= instruction_ops());
    ops[k]
}

/// A transformation of the register `name`, which must exist.
pub open spec fn modify_effect(name: Seq<char>, t: TransformationModel) -> Result<Effect, ErrorModel> {
    if is_register(name) {
        Ok(Effect::Modify(name, t))
    } else {
        Err(ErrorModel::InvalidRegister(name))
    }
}

/// The single register of `ops`.
pub open spec fn single_register(ops: Seq<OperandModel>) -> Option<Seq<char>> {
    if ops.len() == 1 && ops[0] is Register {
        Some(ops[0]->Register_0)
    } else {
        None
    }
}

/// A jump to `label`, which must be known.
pub open spec fn jump_effect(
    label: Seq<char>,
    known: spec_fn(Seq<char>) -> bool,
    e: Effect,
) -> Result<Effect, ErrorModel> {
    if known(label) {
        Ok(e)
    } else {
        Err(ErrorModel::UndefinedLabel(label))
    }
}

/// What the instruction `op` with the operand text `operands` asks of a backend
/// that knows the labels `known`, or the error it raises.
pub open spec fn decode(
    op: Op,
    operands: Seq<char>,
    known: spec_fn(Seq<char>) -> bool,
) -> Result<Effect, ErrorModel> {
    let ops = lex(operands);
    match op {
        Op::Label => Ok(Effect::Label(operands)),
        Op::Increment => modify_effect(
            operands,
            TransformationModel::Add(OperandModel::Literal(1)),
        ),
        Op::Decrement => modify_effect(
            operands,
            TransformationModel::Add(OperandModel::Literal(-1i32)),
        ),
        Op::Negate => modify_effect(
            operands,
            TransformationModel::Multiply(OperandModel::Literal(-1i32)),
        ),
        Op::Double => modify_effect(
            operands,
            TransformationModel::Multiply(OperandModel::Literal(2)),
        ),
        Op::Halve => modify_effect(
            operands,
            TransformationModel::Divide(OperandModel::Literal(2)),
        ),
        Op::Randomize => match single_register(ops) {
            Some(r) => Ok(Effect::Randomize(r)),
            None => Err(ErrorModel::InvalidOperand),
        },
        Op::Read => match single_register(ops) {
            Some(r) => Ok(Effect::Read(r)),
            None => Err(ErrorModel::InvalidOperand),
        },
        Op::Print => match single_register(ops) {
            Some(r) => Ok(Effect::Print(r)),
            None => Err(ErrorModel::InvalidOperand),
        },
        Op::Assign => {
            if ops.len() != 2 {
                Err(ErrorModel::InvalidOperand)
            } else {
                match ops[0] {
                    OperandModel::Register(to) => {
                        if ops[1] is Label {
                            Err(ErrorModel::InvalidOperand)
                        } else {
                            modify_effect(to, TransformationModel::Assign(ops[1]))
                        }
                    },
                    OperandModel::Literal(_) => match ops[1] {
                        OperandModel::Register(to) => modify_effect(
                            to,
                            TransformationModel::Assign(ops[0]),
                        ),
                        _ => Err(ErrorModel::InvalidOperand),
                    },
                    OperandModel::Label(_) => Err(ErrorModel::InvalidOperand),
                }
            }
        },
        Op::Add => {
            if ops.len() == 2 && ops[0] is Register && ops[1] is Register {
                modify_effect(ops[0]->Register_0, TransformationModel::Add(ops[1]))
            } else {
                Err(ErrorModel::InvalidOperand)
            }
        },
        Op::Subtract => {
            if ops.len() == 2 && ops[0] is Register && ops[1] is Register {
                modify_effect(ops[0]->Register_0, TransformationModel::Subtract(ops[1]))
            } else {
                Err(ErrorModel::InvalidOperand)
            }
        },
        Op::Jump => {
            if ops.len() == 1 && ops[0] is Label {
                jump_effect(ops[0]->Label_0, known, Effect::Jump(ops[0]->Label_0))
            } else {
                Err(ErrorModel::InvalidOperand)
            }
        },
        Op::JumpIfZero => {
            if ops.len() == 2 && ops[0] is Register && ops[1] is Label {
                jump_effect(
                    ops[1]->Label_0,
                    known,
                    Effect::JumpIfZero(ops[0]->Register_0, ops[1]->Label_0),
                )
            } else {
                Err(ErrorModel::InvalidOperand)
            }
        },
        Op::JumpIfNeg => {
            if ops.len() == 2 && ops[0] is Register && ops[1] is Label {
                jump_effect(
                    ops[1]->Label_0,
                    known,
                    Effect::JumpIfNeg(ops[0]->Register_0, ops[1]->Label_0),
                )
            } else {
                Err(ErrorModel::InvalidOperand)
            }
        },
    }
}

/// How an instruction ended: `None` for success, else the error.
pub open spec fn op_outcome(r: OpResult) -> Option<ErrorModel> {
    match r {
        Ok(_) => None,
        Err(e) => Some(e.kind@),
    }
}

/// Running the instruction `op` with the operand text `operands` on line
/// `line_number` took the backend from `pre` to `post` and returned `r`.
pub open spec fn handled<B: Backend>(
    op: Op,
    operands: Seq<char>,
    line_number: usize,
    pre: B,
    post: B,
    r: OpResult,
) -> bool {
    &&& post.inv()
    &&& match decode(op, operands, |l: Seq<char>| pre.label_known(l)) {
        Ok(e) => {
            &&& B::performs(pre, e, post, op_outcome(r))
            &&& r is Err ==> r->Err_0.line_number == line_number
        },
        Err(m) => {
            &&& r is Err
            &&& r->Err_0.kind@ == m
            &&& r->Err_0.line_number == line_number
            &&& post == pre
        },
    }
}

/// Every register that the lexer yields is a register of the machine.
pub proof fn lemma_lex_registers(s: Seq<char>)
    ensures
        forall|k: int|
            0 <= k < lex(s).len() && (#[trigger] lex(s)[k]) is Register ==> is_register(
                lex(s)[k]->Register_0,
            ),
    decreases s.len(),
{
    lemma_names_nonempty();
    if s.len() > 0 {
        lemma_first_match(register_names(), s);
        match first_match(register_names(), s) {
            Some(i) => {
                let after = skip_first_match(
                    crate::names::operand_connectors(),
                    s.skip(register_names()[i].len() as int),
                );
                crate::operand::lemma_skip_first_match_len(
                    crate::names::operand_connectors(),
                    s.skip(register_names()[i].len() as int),
                );
                lemma_lex_registers(after);
                assert(register_names().contains(register_names()[i]));
                assert forall|k: int|
                    0 <= k < lex(s).len() && (#[trigger] lex(s)[k]) is Register implies is_register(
                    lex(s)[k]->Register_0,
                ) by {
                    if k > 0 {
                        assert(lex(s)[k] == lex(after)[k - 1]);
                    }
                }
            },
            None => {
                if first_match(crate::names::digit_names(), s) is Some {
                    let run = literal_run(s);
                    let after = skip_first_match(crate::names::operand_connectors(), run.1);
                    crate::operand::lemma_literal_run_shorter(s);
                    crate::operand::lemma_skip_first_match_len(
                        crate::names::operand_connectors(),
                        run.1,
                    );
                    lemma_lex_registers(after);
                    assert forall|k: int|
                        0 <= k < lex(s).len() && (#[trigger] lex(s)[k]) is Register implies is_register(
                        lex(s)[k]->Register_0,
                    ) by {
                        if k > 0 {
                            assert(lex(s)[k] == lex(after)[k - 1]);
                        }
                    }
                }
            },
        }
    }
}

fn invalid_operand(message: &str, line_number: usize) -> (r: OpResult)
    ensures
        r is Err,
        r->Err_0.kind@ == ErrorModel::InvalidOperand,
        r->Err_0.line_number == line_number,
{
    Err(Error::new(ErrorKind::InvalidOperand(message.to_owned()), line_number))
}

/// Modifies the register with the provided name using the provided `Transformation`.
pub fn modify_register<B: Backend>(
    name: &str,
    transformation: Transformation,
    line_number: usize,
    context: &mut B,
) -> (r: OpResult)
    requires
        old(context).inv(),
        transformation@.wf(),
    ensures
        final(context).inv(),
        match modify_effect(name@, transformation@) {
            Ok(e) => r is Ok && B::performs(*old(context), e, *final(context), None),
            Err(m) => r is Err && r->Err_0.kind@ == m && r->Err_0.line_number == line_number
                && *final(context) == *old(context),
        },
{
    if context.has_register(name) {
        context.gen_modify_register(name, transformation);
        Ok(())
    } else {
        Err(Error::new(ErrorKind::InvalidRegister(name.to_owned()), line_number))
    }
}

/// Enters a label.
pub fn label<B: Backend>(operands: &str, line_number: usize, context: &mut B) -> (r: OpResult)
    requires
        old(context).inv(),
        old(context).label_known(operands@),
    ensures
        handled(Op::Label, operands@, line_number, *old(context), *final(context), r),
{
    context.gen_label(operands);
    Ok(())
}

/// Increments a register's value by 1.
pub fn increment<B: Backend>(operands: &str, line_number: usize, context: &mut B) -> (r: OpResult)
    requires
        old(context).inv(),
    ensures
        handled(Op::Increment, operands@, line_number, *old(context), *final(context), r),
{
    modify_register(operands, Transformation::Add(Operand::Literal(1)), line_number, context)
}

/// Decrements a register's value by 1.
pub fn decrement<B: Backend>(operands: &str, line_number: usize, context: &mut B) -> (r: OpResult)
    requires
        old(context).inv(),
    ensures
        handled(Op::Decrement, operands@, line_number, *old(context), *final(context), r),
{
    modify_register(operands, Transformation::Add(Operand::Literal(-1)), line_number, context)
}

/// Multiplies a register's value by -1.
pub fn negate<B: Backend>(operands: &str, line_number: usize, context: &mut B) -> (r: OpResult)
    requires
        old(context).inv(),
    ensures
        handled(Op::Negate, operands@, line_number, *old(context), *final(context), r),
{
    modify_register(operands, Transformation::Multiply(Operand::Literal(-1)), line_number, context)
}

/// Multiplies a register's value by 2.
pub fn double<B: Backend>(operands: &str, line_number: usize, context: &mut B) -> (r: OpResult)
    requires
        old(context).inv(),
    ensures
        handled(Op::Double, operands@, line_number, *old(context), *final(context), r),
{
    modify_register(operands, Transformation::Multiply(Operand::Literal(2)), line_number, context)
}

/// Divides a register's value by 2.
pub fn halve<B: Backend>(operands: &str, line_number: usize, context: &mut B) -> (r: OpResult)
    requires
        old(context).inv(),
    ensures
        handled(Op::Halve, operands@, line_number, *old(context), *final(context), r),
{
    modify_register(operands, Transformation::Divide(Operand::Literal(2)), line_number, context)
}

/// Sets a register's value to a random number between 0 and 9 (inclusive).
pub fn randomize<B: Backend>(operands: &str, line_number: usize, context: &mut B) -> (r: OpResult)
    requires
        old(context).inv(),
    ensures
        handled(Op::Randomize, operands@, line_number, *old(context), *final(context), r),
{
    let ops = parse_operands(operands);
    proof {
        lemma_lex_registers(operands@);
    }
    if ops.len() != 1 {
        return invalid_operand("wrong number of operands for randomize", line_number);
    }
    match &ops[0] {
        Operand::Register(name) => {
            assert(operand_views(ops@)[0] == ops@[0]@);
            context.gen_randomize(name.as_str());
            Ok(())
        },
        _ => invalid_operand("operand for randomize must be a register", line_number),
    }
}

/// Reads a byte of input into a register.
pub fn read<B: Backend>(operands: &str, line_number: usize, context: &mut B) -> (r: OpResult)
    requires
        old(context).inv(),
    ensures
        handled(Op::Read, operands@, line_number, *old(context), *final(context), r),
{
    let ops = parse_operands(operands);
    proof {
        lemma_lex_registers(operands@);
    }
    if ops.len() != 1 {
        return invalid_operand("wrong number of operands for read", line_number);
    }
    match &ops[0] {
        Operand::Register(name) => {
            assert(operand_views(ops@)[0] == ops@[0]@);
            context.gen_read(name.as_str());
            Ok(())
        },
        _ => invalid_operand("operand for read must be a register", line_number),
    }
}

/// Prints a register's value.
pub fn print<B: Backend>(operands: &str, line_number: usize, context: &mut B) -> (r: OpResult)
    requires
        old(context).inv(),
    ensures
        handled(Op::Print, operands@, line_number, *old(context), *final(context), r),
{
    let ops = parse_operands(operands);
    proof {
        lemma_lex_registers(operands@);
    }
    if ops.len() != 1 {
        return invalid_operand("wrong number of operands for print", line_number);
    }
    match &ops[0] {
        Operand::Register(name) => {
            assert(operand_views(ops@)[0] == ops@[0]@);
            match context.gen_print(name.as_str()) {
                Ok(()) => Ok(()),
                Err(kind) => Err(Error::new(kind, line_number)),
            }
        },
        _ => invalid_operand("operand for print must be a register", line_number),
    }
}

/// Sets a register's value to the value of another register or to a literal value.
pub fn assign<B: Backend>(operands: &str, line_number: usize, context: &mut B) -> (r: OpResult)
    requires
        old(context).inv(),
    ensures
        handled(Op::Assign, operands@, line_number, *old(context), *final(context), r),
{
    let ops = parse_operands(operands);
    proof {
        lemma_lex_registers(operands@);
    }
    if ops.len() != 2 {
        return invalid_operand("wrong number of operands for assignment", line_number);
    }
    assert(operand_views(ops@)[0] == ops@[0]@);
    assert(operand_views(ops@)[1] == ops@[1]@);
    match &ops[0] {
        Operand::Register(to_register) => {
            let source = match &ops[1] {
                Operand::Register(name) => Operand::Register(name.clone()),
                Operand::Literal(value) => Operand::Literal(*value),
                Operand::Label(_) => {
                    return invalid_operand(
                        "second operand for assignment must be a register or literal",
                        line_number,
                    );
                },
            };
            modify_register(
                to_register.as_str(),
                Transformation::Assign(source),
                line_number,
                context,
            )
        },
        Operand::Literal(value) => match &ops[1] {
            Operand::Register(to_register) => modify_register(
                to_register.as_str(),
                Transformation::Assign(Operand::Literal(*value)),
                line_number,
                context,
            ),
            _ => invalid_operand(
                "second operand for assignment must be a register if the first operand is a literal",
                line_number,
            ),
        },
        Operand::Label(_) => invalid_operand(
            "first operand for assignment must be a register or literal",
            line_number,
        ),
    }
}

/// Adds a register's value to another register's value.
pub fn add<B: Backend>(operands: &str, line_number: usize, context: &mut B) -> (r: OpResult)
    requires
        old(context).inv(),
    ensures
        handled(Op::Add, operands@, line_number, *old(context), *final(context), r),
{
    let ops = parse_operands(operands);
    proof {
        lemma_lex_registers(operands@);
    }
    if ops.len() != 2 {
        return invalid_operand("wrong number of operands for add", line_number);
    }
    assert(operand_views(ops@)[0] == ops@[0]@);
    assert(operand_views(ops@)[1] == ops@[1]@);
    let register = match &ops[0] {
        Operand::Register(name) => name,
        _ => {
            return invalid_operand("first operand for add must be a register", line_number);
        },
    };
    match &ops[1] {
        Operand::Register(name) => modify_register(
            register.as_str(),
            Transformation::Add(Operand::Register(name.clone())),
            line_number,
            context,
        ),
        _ => invalid_operand("second operand for add must be a register", line_number),
    }
}

/// Subtracts a register's value from another register's value.
pub fn subtract<B: Backend>(operands: &str, line_number: usize, context: &mut B) -> (r: OpResult)
    requires
        old(context).inv(),
    ensures
        handled(Op::Subtract, operands@, line_number, *old(context), *final(context), r),
{
    let ops = parse_operands(operands);
    proof {
        lemma_lex_registers(operands@);
    }
    if ops.len() != 2 {
        return invalid_operand("wrong number of operands for subtract", line_number);
    }
    assert(operand_views(ops@)[0] == ops@[0]@);
    assert(operand_views(ops@)[1] == ops@[1]@);
    let register = match &ops[0] {
        Operand::Register(name) => name,
        _ => {
            return invalid_operand("first operand for subtract must be a register", line_number);
        },
    };
    match &ops[1] {
        Operand::Register(name) => modify_register(
            register.as_str(),
            Transformation::Subtract(Operand::Register(name.clone())),
            line_number,
            context,
        ),
        _ => invalid_operand("second operand for subtract must be a register", line_number),
    }
}

fn undefined_label(label: &str, line_number: usize) -> (r: OpResult)
    ensures
        r is Err,
        r->Err_0.kind@ == ErrorModel::UndefinedLabel(label@),
        r->Err_0.line_number == line_number,
{
    Err(Error::new(ErrorKind::UndefinedLabel(label.to_owned()), line_number))
}

/// Jumps to a label.
pub fn jump<B: Backend>(operands: &str, line_number: usize, context: &mut B) -> (r: OpResult)
    requires
        old(context).inv(),
    ensures
        handled(Op::Jump, operands@, line_number, *old(context), *final(context), r),
{
    let ops = parse_operands(operands);
    if ops.len() != 1 {
        return invalid_operand("wrong number of operands for jump", line_number);
    }
    assert(operand_views(ops@)[0] == ops@[0]@);
    let label = match &ops[0] {
        Operand::Label(name) => name.as_str(),
        _ => {
            return invalid_operand("operand for jump must be a label", line_number);
        },
    };
    if !context.has_label(label) {
        return undefined_label(label, line_number);
    }
    context.gen_jump(label);
    Ok(())
}

/// Jumps to a label if a register's value is 0.
pub fn jump_if_zero<B: Backend>(operands: &str, line_number: usize, context: &mut B) -> (r: OpResult)
    requires
        old(context).inv(),
    ensures
        handled(Op::JumpIfZero, operands@, line_number, *old(context), *final(context), r),
{
    let ops = parse_operands(operands);
    proof {
        lemma_lex_registers(operands@);
    }
    if ops.len() != 2 {
        return invalid_operand("wrong number of operands for jump if zero", line_number);
    }
    assert(operand_views(ops@)[0] == ops@[0]@);
    assert(operand_views(ops@)[1] == ops@[1]@);
    let register = match &ops[0] {
        Operand::Register(name) => name.as_str(),
        _ => {
            return invalid_operand(
                "first operand for jump if zero must be a register",
                line_number,
            );
        },
    };
    let label = match &ops[1] {
        Operand::Label(name) => name.as_str(),
        _ => {
            return invalid_operand(
                "second operand for jump if zero must be a label",
                line_number,
            );
        },
    };
    if !context.has_label(label) {
        return undefined_label(label, line_number);
    }
    context.gen_jump_if_zero(register, label);
    Ok(())
}

/// Jumps to a label if a register's value is negative.
pub fn jump_if_neg<B: Backend>(operands: &str, line_number: usize, context: &mut B) -> (r: OpResult)
    requires
        old(context).inv(),
    ensures
        handled(Op::JumpIfNeg, operands@, line_number, *old(context), *final(context), r),
{
    let ops = parse_operands(operands);
    proof {
        lemma_lex_registers(operands@);
    }
    if ops.len() != 2 {
        return invalid_operand("wrong number of operands for jump if negative", line_number);
    }
    assert(operand_views(ops@)[0] == ops@[0]@);
    assert(operand_views(ops@)[1] == ops@[1]@);
    let register = match &ops[0] {
        Operand::Register(name) => name.as_str(),
        _ => {
            return invalid_operand(
                "first operand for jump if negative must be a register",
                line_number,
            );
        },
    };
    let label = match &ops[1] {
        Operand::Label(name) => name.as_str(),
        _ => {
            return invalid_operand(
                "second operand for jump if negative must be a label",
                line_number,
            );
        },
    };
    if !context.has_label(label) {
        return undefined_label(label, line_number);
    }
    context.gen_jump_if_neg(register, label);
    Ok(())
}

/// What the line `line` asks of a backend that knows the labels `known`, or the
/// error it raises: the first keyword that begins the line selects the instruction,
/// and the text after it is the operand text.
pub open spec fn decode_line(line: Seq<char>, known: spec_fn(Seq<char>) -> bool) -> Result<
    Effect,
    ErrorModel,
> {
    match first_match(instruction_prefixes(), line) {
        Some(k) => decode(
            instruction_ops()[k],
            line.skip(instruction_prefixes()[k].len() as int),
            known,
        ),
        None => Err(ErrorModel::UnknownInstruction),
    }
}

/// Running the line `line`, numbered `line_number`, took the backend from `pre`
/// to `post` and returned `r`.
pub open spec fn line_handled<B: Backend>(
    line: Seq<char>,
    line_number: usize,
    pre: B,
    post: B,
    r: OpResult,
) -> bool {
    match first_match(instruction_prefixes(), line) {
        Some(k) => handled(
            instruction_ops()[k],
            line.skip(instruction_prefixes()[k].len() as int),
            line_number,
            pre,
            post,
            r,
        ),
        None => {
            &&& r is Err
            &&& r->Err_0.kind@ == ErrorModel::UnknownInstruction
            &&& r->Err_0.line_number == line_number
            &&& post == pre
            &&& post.inv()
        },
    }
}

/// A line selects the label instruction exactly when it defines a label, and
/// then its operand text is the label.
pub proof fn lemma_label_lines(line: Seq<char>)
    ensures
        match first_match(instruction_prefixes(), line) {
            Some(k) => (instruction_ops()[k] == Op::Label) == (label_text(line) is Some) && (
            label_text(line) is Some ==> label_text(line)->0 == line.skip(
                instruction_prefixes()[k].len() as int,
            )),
            None => label_text(line) is None,
        },
{
    let t = instruction_prefixes();
    let l = label_prefixes();
    assert(t[0] == l[0] && t[1] == l[1]);
    lemma_first_match(t, line);
    lemma_first_match(l, line);
    assert(first_match_from(l, line, 2) is None);
    if is_prefix(t[0], line) {
        assert(first_match(t, line) == Some(0int));
        assert(first_match(l, line) == Some(0int));
    } else if is_prefix(t[1], line) {
        assert(first_match(t, line) == Some(1int));
        assert(first_match_from(l, line, 1) == Some(1int));
        assert(first_match(l, line) == Some(1int));
    } else {
        assert(first_match_from(l, line, 1) is None);
        assert(first_match(l, line) is None);
        assert forall|k: int| 2 <= k < instruction_ops().len() implies instruction_ops()[k]
            != Op::Label by {}
    }
}

/// Runs the instruction on the line `line`, numbered `line_number`, on `context`.
pub fn execute_line<B: Backend>(line: &str, line_number: usize, context: &mut B) -> (r: OpResult)
    requires
        old(context).inv(),
        label_text(line@) is Some ==> old(context).label_known(label_text(line@)->0),
    ensures
        line_handled(line@, line_number, *old(context), *final(context), r),
{
    let table = instruction_prefix_table();
    proof {
        assert(line@.skip(0) =~= line@);
        lemma_label_lines(line@);
    }
    match first_match_at(line, 0, &table) {
        Some(k) => {
            proof {
                lemma_first_match(instruction_prefixes(), line@);
                assert(table@[k as int]@ == instruction_prefixes()[k as int]);
            }
            let n = line.unicode_len();
            let len = table[k].unicode_len();
            let operands = line.substring_char(len, n);
            assert(operands@ =~= line@.skip(instruction_prefixes()[k as int].len() as int));
            match instruction_op(k) {
                Op::Label => label(operands, line_number, context),
                Op::Increment => increment(operands, line_number, context),
                Op::Decrement => decrement(operands, line_number, context),
                Op::Negate => negate(operands, line_number, context),
                Op::Double => double(operands, line_number, context),
                Op::Halve => halve(operands, line_number, context),
                Op::Randomize => randomize(operands, line_number, context),
                Op::Assign => assign(operands, line_number, context),
                Op::Add => crate::operations::add(operands, line_number, context),
                Op::Subtract => subtract(operands, line_number, context),
                Op::Read => read(operands, line_number, context),
                Op::Print => print(operands, line_number, context),
                Op::Jump => jump(operands, line_number, context),
                Op::JumpIfZero => jump_if_zero(operands, line_number, context),
                Op::JumpIfNeg => jump_if_neg(operands, line_number, context),
            }
        },
        None => Err(Error::new(ErrorKind::UnknownInstruction, line_number)),
    }
}

} // verus!
