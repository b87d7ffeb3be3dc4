//! The semantics of running a program line by line and of running the graph that
//! the compiler backend builds from it, and the proof that both print the same.
use vstd::prelude::*;
use crate::codegen::{
    finish, label_block, lower, lower_lines, open_block, BlockModel, CodeModel, Exit, GraphModel,
    Test,
};
use crate::error::{ErrorModel, OpResult};
use crate::interpreter::{Context, ContextModel};
use crate::machine::Backend;
use crate::machine::{is_register, register_index, transformed, Effect};
use crate::operations::{decode_line, line_handled};
use crate::program::{defines, Program};
use crate::support::is_scalar_value;

verus! {

/// The values a run works on: registers, the code points printed, and the bytes of
/// input and random digits still to come.
pub struct Data {
    pub registers: Seq<i32>,
    pub output: Seq<int>,
    pub input: Seq<i32>,
    pub random: Seq<i32>,
}

/// Whether a run goes on, has ended, or has failed.
pub enum Status {
    Running,
    Done,
    Failed(ErrorModel),
}

/// The code points of `s`.
pub open spec fn code_points(s: Seq<char>) -> Seq<int> {
    s.map_values(|c: char| code_point(c))
}

/// The code point of `c`.
pub open spec fn code_point(c: char) -> int {
    c as u32 as int
}

/// Carries out the straight-line instruction `c` on `d`.
pub open spec fn data_step(d: Data, c: CodeModel) -> (Data, Option<ErrorModel>) {
    match c {
        CodeModel::Modify(r, t) => (
            Data { registers: d.registers.update(r, transformed(d.registers[r], t, d.registers)), ..d },
            None,
        ),
        CodeModel::Print(r) => {
            if is_scalar_value(d.registers[r] as int) {
                (Data { output: d.output.push(d.registers[r] as int), ..d }, None)
            } else {
                (d, Some(ErrorModel::InvalidCharacter(d.registers[r])))
            }
        },
        CodeModel::Read(r) => {
            if d.input.len() > 0 {
                (
                    Data {
                        registers: d.registers.update(r, d.input[0]),
                        input: d.input.drop_first(),
                        ..d
                    },
                    None,
                )
            } else {
                (Data { registers: d.registers.update(r, -1i32), ..d }, None)
            }
        },
        CodeModel::Randomize(r) => {
            if d.random.len() > 0 {
                (
                    Data {
                        registers: d.registers.update(r, d.random[0]),
                        random: d.random.drop_first(),
                        ..d
                    },
                    None,
                )
            } else {
                (Data { registers: d.registers.update(r, 0i32), ..d }, None)
            }
        },
    }
}

/// The straight-line instruction that an effect lowers to, if any.
pub open spec fn effect_code(e: Effect) -> Option<CodeModel> {
    match e {
        Effect::Modify(name, t) => Some(CodeModel::Modify(register_index(name), t)),
        Effect::Print(name) => Some(CodeModel::Print(register_index(name))),
        Effect::Read(name) => Some(CodeModel::Read(register_index(name))),
        Effect::Randomize(name) => Some(CodeModel::Randomize(register_index(name))),
        _ => None,
    }
}

/// The labels a program defines.
pub open spec fn known(p: &Program) -> spec_fn(Seq<char>) -> bool {
    |l: Seq<char>| p.label_line(l) is Some
}

/// Every line of the program is an instruction with valid operands.
pub open spec fn valid_program(p: &Program) -> bool {
    forall|i: int| 0 <= i < p.lines().len() ==> #[trigger] decode_line(p.lines()[i], known(p)) is Ok
}

/// A state of a program run line by line.
pub struct LineState {
    pub data: Data,
    pub line: int,
    pub status: Status,
}

/// One step of running `p` line by line: the line runs, then execution goes on
/// with the next line, or with the line after the label a jump names.
pub open spec fn line_step(p: &Program, s: LineState) -> LineState {
    if !(s.status is Running) {
        s
    } else if s.line < 0 || s.line >= p.lines().len() {
        LineState { status: Status::Done, ..s }
    } else {
        match decode_line(p.lines()[s.line], known(p)) {
            Err(m) => LineState { status: Status::Failed(m), ..s },
            Ok(e) => match effect_code(e) {
                Some(c) => {
                    let (d, err) = data_step(s.data, c);
                    match err {
                        Some(m) => LineState { data: d, status: Status::Failed(m), ..s },
                        None => LineState { data: d, line: s.line + 1, ..s },
                    }
                },
                None => match e {
                    Effect::Jump(l) => LineState { line: p.label_line(l)->0 + 1, ..s },
                    Effect::JumpIfZero(name, l) => {
                        if s.data.registers[register_index(name)] == 0 {
                            LineState { line: p.label_line(l)->0 + 1, ..s }
                        } else {
                            LineState { line: s.line + 1, ..s }
                        }
                    },
                    Effect::JumpIfNeg(name, l) => {
                        if s.data.registers[register_index(name)] < 0 {
                            LineState { line: p.label_line(l)->0 + 1, ..s }
                        } else {
                            LineState { line: s.line + 1, ..s }
                        }
                    },
                    _ => LineState { line: s.line + 1, ..s },
                },
            },
        }
    }
}

/// The test of a conditional branch holds of `v`.
pub open spec fn test_holds(t: Test, v: i32) -> bool {
    match t {
        Test::Zero => v == 0,
        Test::Negative => v < 0,
    }
}

/// A state of a run of a control-flow graph.
pub struct GraphState {
    pub data: Data,
    pub block: int,
    pub index: int,
    pub status: Status,
}

/// One step of running the graph `g`: the next instruction of the block, or the
/// control transfer that ends it.
pub open spec fn graph_step(g: GraphModel, s: GraphState) -> GraphState {
    if !(s.status is Running) {
        s
    } else if s.block < 0 || s.block >= g.blocks.len() {
        GraphState { status: Status::Done, ..s }
    } else {
        let b = g.blocks[s.block];
        if 0 <= s.index < b.code.len() {
            let (d, err) = data_step(s.data, b.code[s.index]);
            match err {
                Some(m) => GraphState { data: d, status: Status::Failed(m), ..s },
                None => GraphState { data: d, index: s.index + 1, ..s },
            }
        } else {
            match b.exit {
                Some(Exit::Branch(t)) => GraphState { block: t as int, index: 0, ..s },
                Some(Exit::BranchIf(r, test, t, e)) => {
                    if test_holds(test, s.data.registers[r as int]) {
                        GraphState { block: t as int, index: 0, ..s }
                    } else {
                        GraphState { block: e as int, index: 0, ..s }
                    }
                },
                _ => GraphState { status: Status::Done, ..s },
            }
        }
    }
}

pub open spec fn run_lines(p: &Program, s: LineState, n: nat) -> LineState
    decreases n,
{
    if n == 0 {
        s
    } else {
        run_lines(p, line_step(p, s), (n - 1) as nat)
    }
}

pub open spec fn run_graph(g: GraphModel, s: GraphState, n: nat) -> GraphState
    decreases n,
{
    if n == 0 {
        s
    } else {
        run_graph(g, graph_step(g, s), (n - 1) as nat)
    }
}

/// The graph after lowering the first `n` lines of `p`.
pub open spec fn graph_at(p: &Program, n: int) -> GraphModel {
    lower_lines(p, n)->Ok_0
}

/// The number of labels of `p`.
pub open spec fn label_count(p: &Program) -> int {
    p.label_table().len() as int
}

/// What holds of the graph after lowering the first `n` lines of a valid program.
pub open spec fn lowering_inv(p: &Program, n: int) -> bool {
    let g = graph_at(p, n);
    let t = p.label_table();
    &&& lower_lines(p, n) is Ok
    &&& 0 <= g.current < g.blocks.len()
    &&& label_count(p) + 1 <= g.blocks.len() <= label_count(p) + 1 + n
    &&& forall|k: int|
        0 <= k < t.len() && t[k].1 >= n ==> #[trigger] g.blocks[k + 1] == open_block()
    &&& (g.current == 0 || g.current > label_count(p) || t[g.current - 1].1 < n)
}

/// `g2` extends `g1`: blocks are only added, written at their end, and ended once.
pub open spec fn extends(g1: GraphModel, g2: GraphModel) -> bool {
    &&& g1.blocks.len() <= g2.blocks.len()
    &&& forall|b: int|
        0 <= b < g1.blocks.len() ==> {
            &&& (#[trigger] g1.blocks[b]).code.len() <= g2.blocks[b].code.len()
            &&& g2.blocks[b].code.take(g1.blocks[b].code.len() as int) == g1.blocks[b].code
            &&& g1.blocks[b].exit is Some ==> g2.blocks[b] == g1.blocks[b]
        }
}

pub proof fn lemma_extends_trans(g1: GraphModel, g2: GraphModel, g3: GraphModel)
    requires
        extends(g1, g2),
        extends(g2, g3),
    ensures
        extends(g1, g3),
{
    assert forall|b: int| 0 <= b < g1.blocks.len() implies {
        &&& (#[trigger] g1.blocks[b]).code.len() <= g3.blocks[b].code.len()
        &&& g3.blocks[b].code.take(g1.blocks[b].code.len() as int) == g1.blocks[b].code
        &&& g1.blocks[b].exit is Some ==> g3.blocks[b] == g1.blocks[b]
    } by {
        let c1 = g1.blocks[b].code;
        let c2 = g2.blocks[b].code;
        let c3 = g3.blocks[b].code;
        assert(c3.take(c2.len() as int) == c2);
        assert(c3.take(c1.len() as int) =~= c2.take(c1.len() as int));
    }
}

/// The block of a label that `p` defines is one past its index in the label table.
pub proof fn lemma_label_block(p: &Program, k: int)
    requires
        p.wf(),
        0 <= k < p.label_table().len(),
    ensures
        label_block(p, p.label_table()[k].0@) == k + 1,
        p.label_line(p.label_table()[k].0@) == Some(p.label_table()[k].1 as int),
{
    let t = p.label_table();
    let l = t[k].0@;
    crate::program::lemma_label_names_distinct(p);
    let c = choose|c: int| 0 <= c < t.len() && t[c].0@ == l;
    assert(c == k);
    assert(defines(p.lines(), t[k].1 as int, l));
    let i = choose|i: int| defines(p.lines(), i, l);
    if i != t[k].1 {
        if i < t[k].1 {
            assert(crate::program::collision(p.lines(), i, t[k].1 as int));
        } else {
            assert(crate::program::collision(p.lines(), t[k].1 as int, i));
        }
    }
}

/// The block of a label that `p` defines is one of the label blocks.
pub proof fn lemma_label_block_range(p: &Program, l: Seq<char>)
    requires
        p.wf(),
        p.label_line(l) is Some,
    ensures
        1 <= label_block(p, l) <= label_count(p),
        label_count(p) < usize::MAX,
{
    lemma_known_label(p, l);
    let k = choose|k: int|
        0 <= k < p.label_table().len() && p.label_table()[k].0@ == l && p.label_table()[k].1
            == p.label_line(l)->0;
    lemma_label_block(p, k);
}

/// A label that `p` defines has an entry in the label table.
pub proof fn lemma_known_label(p: &Program, l: Seq<char>)
    requires
        p.wf(),
        p.label_line(l) is Some,
    ensures
        exists|k: int|
            0 <= k < p.label_table().len() && p.label_table()[k].0@ == l && p.label_table()[k].1
                == p.label_line(l)->0,
{
    let i = choose|i: int| defines(p.lines(), i, l);
    let t = p.label_table();
    let k = choose|k: int| 0 <= k < t.len() && #[trigger] t[k].1 == i;
    lemma_label_block(p, k);
}

/// What a decoded line asks for names registers and known labels; a label line
/// enters the label it defines.
pub proof fn lemma_decoded(line: Seq<char>, known: spec_fn(Seq<char>) -> bool)
    requires
        decode_line(line, known) is Ok,
    ensures
        match decode_line(line, known)->Ok_0 {
            Effect::Label(l) => crate::program::label_text(line) == Some(l),
            Effect::Modify(n, t) => is_register(n) && t.wf(),
            Effect::Print(n) => is_register(n),
            Effect::Read(n) => is_register(n),
            Effect::Randomize(n) => is_register(n),
            Effect::Jump(l) => known(l),
            Effect::JumpIfZero(n, l) => is_register(n) && known(l),
            Effect::JumpIfNeg(n, l) => is_register(n) && known(l),
        },
{
    crate::operations::lemma_label_lines(line);
    let k = crate::text::first_match(crate::operations::instruction_prefixes(), line)->0;
    let operands = line.skip(crate::operations::instruction_prefixes()[k].len() as int);
    crate::operations::lemma_lex_registers(operands);
    let ops = crate::operand::lex(operands);
    if ops.len() == 2 {
        assert(ops[0] is Register ==> is_register(ops[0]->Register_0));
        assert(ops[1] is Register ==> is_register(ops[1]->Register_0));
    }
    if ops.len() == 1 {
        assert(ops[0] is Register ==> is_register(ops[0]->Register_0));
    }
}

pub proof fn lemma_extends_refl(g: GraphModel)
    ensures
        extends(g, g),
{
    assert forall|b: int| 0 <= b < g.blocks.len() implies {
        &&& (#[trigger] g.blocks[b]).code.len() <= g.blocks[b].code.len()
        &&& g.blocks[b].code.take(g.blocks[b].code.len() as int) == g.blocks[b].code
        &&& g.blocks[b].exit is Some ==> g.blocks[b] == g.blocks[b]
    } by {
        assert(g.blocks[b].code.take(g.blocks[b].code.len() as int) =~= g.blocks[b].code);
    }
}

/// Lowering one more line keeps the invariant and extends the graph.
pub proof fn lemma_lowering_step(p: &Program, n: int)
    requires
        p.wf(),
        valid_program(p),
        0 <= n < p.lines().len(),
        lowering_inv(p, n),
    ensures
        lowering_inv(p, n + 1),
        extends(graph_at(p, n), graph_at(p, n + 1)),
        graph_at(p, n + 1) == lower(p, graph_at(p, n), decode_line(p.lines()[n], known(p))->Ok_0),
        decode_line(p.lines()[n], known(p))->Ok_0 is Label ==> {
            &&& graph_at(p, n + 1).current == label_block(
                p,
                decode_line(p.lines()[n], known(p))->Ok_0->Label_0,
            )
            &&& graph_at(p, n + 1).blocks[graph_at(p, n + 1).current] == open_block()
        },
{
    let g = graph_at(p, n);
    let t = p.label_table();
    let line = p.lines()[n];
    assert(decode_line(line, known(p)) is Ok);
    let e = decode_line(line, known(p))->Ok_0;
    assert(lower_lines(p, n + 1) == Ok::<GraphModel, (int, ErrorModel)>(lower(p, g, e)));
    let h = lower(p, g, e);
    lemma_decoded(line, known(p));
    let c = g.current;
    let cur = g.blocks[c];
    lemma_extends_refl(g);
    match e {
        Effect::Label(l) => {
            assert(defines(p.lines(), n, l));
            lemma_known_label(p, l);
            let k0 = choose|k: int| 0 <= k < t.len() && t[k].0@ == l && t[k].1 == p.label_line(l)->0;
            lemma_label_block(p, k0);
            assert(t[k0].1 == n) by {
                let i = choose|i: int| defines(p.lines(), i, l);
                if i != n {
                    if i < n {
                        assert(crate::program::collision(p.lines(), i, n));
                    } else {
                        assert(crate::program::collision(p.lines(), n, i));
                    }
                }
            }
            let b = k0 + 1;
            assert(c != b);
            assert(h.current == b);
            if cur.exit is None {
                let g2 = crate::codegen::end_block(g, Exit::Branch(b as usize));
                assert(g2.blocks == g.blocks.update(c, BlockModel { exit: Some(Exit::Branch(b as usize)), ..cur }));
                assert forall|bb: int| 0 <= bb < g.blocks.len() implies {
                    &&& (#[trigger] g.blocks[bb]).code.len() <= h.blocks[bb].code.len()
                    &&& h.blocks[bb].code.take(g.blocks[bb].code.len() as int) == g.blocks[bb].code
                    &&& g.blocks[bb].exit is Some ==> h.blocks[bb] == g.blocks[bb]
                } by {
                    assert(h.blocks[bb].code.take(g.blocks[bb].code.len() as int) =~= g.blocks[bb].code);
                }
            }
            assert(h.blocks[b] == open_block());
        },
        Effect::Modify(name, tr) => {
            if cur.exit is None {
                assert forall|bb: int| 0 <= bb < g.blocks.len() implies {
                    &&& (#[trigger] g.blocks[bb]).code.len() <= h.blocks[bb].code.len()
                    &&& h.blocks[bb].code.take(g.blocks[bb].code.len() as int) == g.blocks[bb].code
                    &&& g.blocks[bb].exit is Some ==> h.blocks[bb] == g.blocks[bb]
                } by {
                    assert(h.blocks[bb].code.take(g.blocks[bb].code.len() as int) =~= g.blocks[bb].code);
                }
            }
        },
        Effect::Print(name) => {
            if cur.exit is None {
                assert forall|bb: int| 0 <= bb < g.blocks.len() implies {
                    &&& (#[trigger] g.blocks[bb]).code.len() <= h.blocks[bb].code.len()
                    &&& h.blocks[bb].code.take(g.blocks[bb].code.len() as int) == g.blocks[bb].code
                    &&& g.blocks[bb].exit is Some ==> h.blocks[bb] == g.blocks[bb]
                } by {
                    assert(h.blocks[bb].code.take(g.blocks[bb].code.len() as int) =~= g.blocks[bb].code);
                }
            }
        },
        Effect::Read(name) => {
            if cur.exit is None {
                assert forall|bb: int| 0 <= bb < g.blocks.len() implies {
                    &&& (#[trigger] g.blocks[bb]).code.len() <= h.blocks[bb].code.len()
                    &&& h.blocks[bb].code.take(g.blocks[bb].code.len() as int) == g.blocks[bb].code
                    &&& g.blocks[bb].exit is Some ==> h.blocks[bb] == g.blocks[bb]
                } by {
                    assert(h.blocks[bb].code.take(g.blocks[bb].code.len() as int) =~= g.blocks[bb].code);
                }
            }
        },
        Effect::Randomize(name) => {
            if cur.exit is None {
                assert forall|bb: int| 0 <= bb < g.blocks.len() implies {
                    &&& (#[trigger] g.blocks[bb]).code.len() <= h.blocks[bb].code.len()
                    &&& h.blocks[bb].code.take(g.blocks[bb].code.len() as int) == g.blocks[bb].code
                    &&& g.blocks[bb].exit is Some ==> h.blocks[bb] == g.blocks[bb]
                } by {
                    assert(h.blocks[bb].code.take(g.blocks[bb].code.len() as int) =~= g.blocks[bb].code);
                }
            }
        },
        Effect::Jump(l) => {
            if cur.exit is None {
                assert forall|bb: int| 0 <= bb < g.blocks.len() implies {
                    &&& (#[trigger] g.blocks[bb]).code.len() <= h.blocks[bb].code.len()
                    &&& h.blocks[bb].code.take(g.blocks[bb].code.len() as int) == g.blocks[bb].code
                    &&& g.blocks[bb].exit is Some ==> h.blocks[bb] == g.blocks[bb]
                } by {
                    assert(h.blocks[bb].code.take(g.blocks[bb].code.len() as int) =~= g.blocks[bb].code);
                }
            }
        },
        Effect::JumpIfZero(name, l) => {
            if cur.exit is None {
                assert forall|bb: int| 0 <= bb < g.blocks.len() implies {
                    &&& (#[trigger] g.blocks[bb]).code.len() <= h.blocks[bb].code.len()
                    &&& h.blocks[bb].code.take(g.blocks[bb].code.len() as int) == g.blocks[bb].code
                    &&& g.blocks[bb].exit is Some ==> h.blocks[bb] == g.blocks[bb]
                } by {
                    assert(h.blocks[bb].code.take(g.blocks[bb].code.len() as int) =~= g.blocks[bb].code);
                }
            }
        },
        Effect::JumpIfNeg(name, l) => {
            if cur.exit is None {
                assert forall|bb: int| 0 <= bb < g.blocks.len() implies {
                    &&& (#[trigger] g.blocks[bb]).code.len() <= h.blocks[bb].code.len()
                    &&& h.blocks[bb].code.take(g.blocks[bb].code.len() as int) == g.blocks[bb].code
                    &&& g.blocks[bb].exit is Some ==> h.blocks[bb] == g.blocks[bb]
                } by {
                    assert(h.blocks[bb].code.take(g.blocks[bb].code.len() as int) =~= g.blocks[bb].code);
                }
            }
        },
    }
}

/// The final graph of a valid program.
pub open spec fn final_graph(p: &Program) -> GraphModel {
    finish(graph_at(p, p.lines().len() as int))
}

pub proof fn lemma_inv_upto(p: &Program, n: int)
    requires
        p.wf(),
        valid_program(p),
        0 <= n <= p.lines().len(),
    ensures
        lowering_inv(p, n),
    decreases n,
{
    if n == 0 {
        assert(lower_lines(p, 0) == Ok::<GraphModel, (int, ErrorModel)>(
            crate::codegen::initial_graph(p),
        ));
    } else {
        lemma_inv_upto(p, n - 1);
        lemma_lowering_step(p, n - 1);
    }
}

pub proof fn lemma_extends_final(p: &Program, n: int)
    requires
        p.wf(),
        valid_program(p),
        0 <= n <= p.lines().len(),
    ensures
        extends(graph_at(p, n), final_graph(p)),
    decreases p.lines().len() - n,
{
    let len = p.lines().len() as int;
    if n == len {
        let g = graph_at(p, n);
        let h = final_graph(p);
        lemma_inv_upto(p, n);
        lemma_extends_refl(g);
        assert forall|bb: int| 0 <= bb < g.blocks.len() implies {
            &&& (#[trigger] g.blocks[bb]).code.len() <= h.blocks[bb].code.len()
            &&& h.blocks[bb].code.take(g.blocks[bb].code.len() as int) == g.blocks[bb].code
            &&& g.blocks[bb].exit is Some ==> h.blocks[bb] == g.blocks[bb]
        } by {
            assert(h.blocks[bb].code.take(g.blocks[bb].code.len() as int) =~= g.blocks[bb].code);
        }
    } else {
        lemma_inv_upto(p, n);
        lemma_lowering_step(p, n);
        lemma_extends_final(p, n + 1);
        lemma_extends_trans(graph_at(p, n), graph_at(p, n + 1), final_graph(p));
    }
}

/// Line `n` can be reached: the block that its code is lowered into does not end before it.
pub open spec fn reached(p: &Program, n: int) -> bool {
    graph_at(p, n).blocks[graph_at(p, n).current].exit is None
}

/// The line state `si` and the graph state `sg` stand for the same point of a run.
pub open spec fn in_step(p: &Program, si: LineState, sg: GraphState) -> bool {
    &&& si.status == sg.status
    &&& si.data == sg.data
    &&& si.status is Running ==> {
        let g = graph_at(p, si.line);
        &&& 0 <= si.line <= p.lines().len()
        &&& reached(p, si.line)
        &&& sg.block == g.current
        &&& sg.index == g.blocks[g.current].code.len()
    }
}

/// Execution resumes after a label at the start of the label's block.
pub proof fn lemma_after_label(p: &Program, l: Seq<char>)
    requires
        p.wf(),
        valid_program(p),
        p.label_line(l) is Some,
    ensures
        ({
            let t = p.label_line(l)->0 + 1;
            let g = graph_at(p, t);
            &&& 0 < t <= p.lines().len()
            &&& g.current == label_block(p, l)
            &&& g.blocks[g.current] == open_block()
        }),
{
    let i = p.label_line(l)->0;
    assert(defines(p.lines(), i, l));
    lemma_inv_upto(p, i);
    lemma_lowering_step(p, i);
    let line = p.lines()[i];
    crate::operations::lemma_label_lines(line);
    lemma_decoded(line, known(p));
}

/// One step of each run keeps them in step.
pub proof fn lemma_step_in_step(p: &Program, si: LineState, sg: GraphState)
    requires
        p.wf(),
        valid_program(p),
        2 * p.lines().len() + 2 <= usize::MAX,
        in_step(p, si, sg),
    ensures
        in_step(p, line_step(p, si), graph_step(final_graph(p), sg)),
{
    if si.status is Running {
        let len = p.lines().len() as int;
        let big = final_graph(p);
        let n = si.line;
        let g = graph_at(p, n);
        let c = g.current;
        let k = g.blocks[c].code.len() as int;
        lemma_inv_upto(p, n);
        lemma_extends_final(p, n);
        assert(c < big.blocks.len());
        if n == len {
            assert(big.blocks[c] == BlockModel { exit: Some(Exit::Return), ..g.blocks[c] });
        } else {
            let line = p.lines()[n];
            assert(decode_line(line, known(p)) is Ok);
            let e = decode_line(line, known(p))->Ok_0;
            lemma_decoded(line, known(p));
            lemma_lowering_step(p, n);
            lemma_inv_upto(p, n + 1);
            lemma_extends_final(p, n + 1);
            let h = graph_at(p, n + 1);
            assert(h.blocks[c].code.len() <= big.blocks[c].code.len());
            assert(big.blocks[c].code.take(h.blocks[c].code.len() as int) == h.blocks[c].code);
            match e {
                Effect::Label(l) => {
                    assert(big.blocks[c] == h.blocks[c]);
                },
                Effect::Jump(l) => {
                    assert(big.blocks[c] == h.blocks[c]);
                    lemma_after_label(p, l);
                },
                Effect::JumpIfZero(name, l) => {
                    assert(big.blocks[c] == h.blocks[c]);
                    crate::machine::lemma_register_index(name);
                    lemma_after_label(p, l);
                    lemma_known_label(p, l);
                },
                Effect::JumpIfNeg(name, l) => {
                    assert(big.blocks[c] == h.blocks[c]);
                    crate::machine::lemma_register_index(name);
                    lemma_after_label(p, l);
                    lemma_known_label(p, l);
                },
                _ => {
                    let code = effect_code(e)->0;
                    assert(h.blocks[c].code == g.blocks[c].code.push(code));
                    assert(big.blocks[c].code[k] == h.blocks[c].code.take(k + 1)[k]);
                },
            }
        }
    }
}

/// Run line by line or through the graph that the compiler backend builds (the
/// graph `compile` returns is `final_graph(p)`), a valid program prints the same
/// characters and ends the same way, step for step, for every input and every
/// sequence of random digits.
pub proof fn lemma_backends_agree(p: &Program, data: Data, steps: nat)
    requires
        p.wf(),
        valid_program(p),
        2 * p.lines().len() + 2 <= usize::MAX,
    ensures
        lower_lines(p, p.lines().len() as int) is Ok,
        ({
            let si = run_lines(p, LineState { data, line: 0, status: Status::Running }, steps);
            let sg = run_graph(
                final_graph(p),
                GraphState { data, block: 0, index: 0, status: Status::Running },
                steps,
            );
            si.data.output == sg.data.output && si.status == sg.status
        }),
{
    lemma_inv_upto(p, p.lines().len() as int);
    lemma_inv_upto(p, 0);
    assert(lower_lines(p, 0) == Ok::<GraphModel, (int, ErrorModel)>(
        crate::codegen::initial_graph(p),
    ));
    lemma_runs_in_step(
        p,
        LineState { data, line: 0, status: Status::Running },
        GraphState { data, block: 0, index: 0, status: Status::Running },
        steps,
    );
}

pub proof fn lemma_runs_in_step(p: &Program, si: LineState, sg: GraphState, steps: nat)
    requires
        p.wf(),
        valid_program(p),
        2 * p.lines().len() + 2 <= usize::MAX,
        in_step(p, si, sg),
    ensures
        in_step(p, run_lines(p, si, steps), run_graph(final_graph(p), sg, steps)),
    decreases steps,
{
    if steps > 0 {
        lemma_step_in_step(p, si, sg);
        lemma_runs_in_step(
            p,
            line_step(p, si),
            graph_step(final_graph(p), sg),
            (steps - 1) as nat,
        );
    }
}

/// A jump to a label `l`, and a conditional jump whose test holds, resume at the
/// first line after the line that defines `l`; in the graph, that line is lowered
/// at the start of the block of `l`, which is where the branch of the jump leads.
pub proof fn lemma_jump_resumes_after_label(p: &Program, s: LineState)
    requires
        p.wf(),
        valid_program(p),
        s.status is Running,
        0 <= s.line < p.lines().len(),
        reached(p, s.line),
    ensures
        ({
            let e = decode_line(p.lines()[s.line], known(p))->Ok_0;
            let taken = match e {
                Effect::Jump(l) => Some(l),
                Effect::JumpIfZero(name, l) => if s.data.registers[register_index(name)] == 0 {
                    Some(l)
                } else {
                    None
                },
                Effect::JumpIfNeg(name, l) => if s.data.registers[register_index(name)] < 0 {
                    Some(l)
                } else {
                    None
                },
                _ => None,
            };
            taken is Some ==> {
                let l = taken->0;
                let next = line_step(p, s).line;
                let g = graph_at(p, next);
                &&& p.label_line(l) is Some
                &&& next == p.label_line(l)->0 + 1
                &&& g.current == label_block(p, l)
                &&& g.blocks[g.current] == open_block()
                &&& match graph_at(p, s.line + 1).blocks[graph_at(p, s.line).current].exit {
                    Some(Exit::Branch(b)) => b == label_block(p, l),
                    Some(Exit::BranchIf(_, _, b, _)) => b == label_block(p, l),
                    _ => false,
                }
            }
        }),
{
    let line = p.lines()[s.line];
    assert(decode_line(line, known(p)) is Ok);
    let e = decode_line(line, known(p))->Ok_0;
    lemma_decoded(line, known(p));
    lemma_inv_upto(p, s.line);
    lemma_lowering_step(p, s.line);
    match e {
        Effect::Jump(l) => {
            lemma_after_label(p, l);
            lemma_known_label(p, l);
            lemma_label_block_range(p, l);

        },
        Effect::JumpIfZero(name, l) => {
            lemma_after_label(p, l);
            lemma_label_block_range(p, l);
        },
        Effect::JumpIfNeg(name, l) => {
            lemma_after_label(p, l);
            lemma_label_block_range(p, l);
        },
        _ => {},
    }
}

/// A register holding 0 passes the zero test and fails the negative test; one
/// holding -1 passes the negative test and fails the zero test. This holds of a
/// program run line by line and of the branches of the graph.
pub proof fn lemma_zero_and_negative_tests(
    p: &Program,
    s: LineState,
    name: Seq<char>,
    l: Seq<char>,
)
    requires
        p.wf(),
        s.status is Running,
        0 <= s.line < p.lines().len(),
        s.data.registers[register_index(name)] == 0 || s.data.registers[register_index(name)]
            == -1,
        p.label_line(l) is Some,
    ensures
        test_holds(Test::Zero, 0) && !test_holds(Test::Negative, 0),
        test_holds(Test::Negative, -1i32) && !test_holds(Test::Zero, -1i32),
        decode_line(p.lines()[s.line], known(p)) == Ok::<Effect, ErrorModel>(
            Effect::JumpIfZero(name, l),
        ) ==> line_step(p, s).line == if s.data.registers[register_index(name)] == 0 {
            p.label_line(l)->0 + 1
        } else {
            s.line + 1
        },
        decode_line(p.lines()[s.line], known(p)) == Ok::<Effect, ErrorModel>(
            Effect::JumpIfNeg(name, l),
        ) ==> line_step(p, s).line == if s.data.registers[register_index(name)] == -1 {
            p.label_line(l)->0 + 1
        } else {
            s.line + 1
        },
{
}

/// The line state `s` and the context `c` are at the same line with the same
/// registers and the same output.
pub open spec fn agrees(s: LineState, c: Context) -> bool {
    &&& s.status is Running
    &&& s.data.registers == c@.registers
    &&& s.data.output == code_points(c@.output)
    &&& s.line == c@.line
}

/// Each step of the interpreter is a step of running the program line by line. A
/// read leaves the register to the caller, who stores the next byte of input or -1;
/// a random digit is the next of the random digits.
pub proof fn lemma_interpreter_follows_lines<'a>(
    pre: Context<'a>,
    post: Context<'a>,
    r: OpResult,
    s: LineState,
)
    requires
        pre.inv(),
        pre.awaiting_input is None,
        !pre.finished(),
        valid_program(pre.program),
        Context::steps(pre, post, r),
        agrees(s, pre),
    ensures
        ({
            let p = pre.program;
            let e = decode_line(p.lines()[s.line], known(p))->Ok_0;
            let next = line_step(p, s);
            match e {
                Effect::Read(name) => {
                    &&& r is Ok
                    &&& post@ == (ContextModel {
                        line: pre@.line + 1,
                        awaiting_input: Some(register_index(name)),
                        ..pre@
                    })
                    &&& next.line == s.line + 1
                    &&& next.data.output == s.data.output
                    &&& next.data.registers == s.data.registers.update(
                        register_index(name),
                        if s.data.input.len() > 0 {
                            s.data.input[0]
                        } else {
                            -1i32
                        },
                    )
                },
                Effect::Randomize(name) => {
                    let d = post@.registers[register_index(name)];
                    &&& r is Ok
                    &&& 0 <= d < 10
                    &&& post.awaiting_input is None
                    &&& agrees(
                        line_step(
                            p,
                            LineState { data: Data { random: seq![d] + s.data.random, ..s.data }, ..s },
                        ),
                        post,
                    )
                },
                _ => {
                    &&& r is Ok ==> agrees(next, post) && post.awaiting_input is None
                    &&& r is Err ==> next.status == Status::Failed(r->Err_0.kind@)
                        && next.data.output == code_points(post@.output)
                },
            }
        }),
{
    let p = pre.program;
    let line = p.lines()[s.line];
    assert(decode_line(line, known(p)) is Ok);
    let mid = choose|mid: Context<'a>|
        {
            &&& line_handled(line, pre.current_line_number, pre, mid, r)
            &&& r is Ok ==> post@ == (ContextModel { line: mid@.line + 1, ..mid@ })
            &&& r is Err ==> post == mid
        };
    lemma_decoded(line, known(p));
    let kp = |l: Seq<char>| pre.label_known(l);
    assert(kp =~= known(p));
    let e = decode_line(line, known(p))->Ok_0;
    match e {
        Effect::Randomize(name) => {
            crate::machine::lemma_register_index(name);
            let d = post@.registers[register_index(name)];
            let s2 = LineState { data: Data { random: seq![d] + s.data.random, ..s.data }, ..s };
            assert(line_step(p, s2).data.registers =~= post@.registers);
        },
        Effect::Print(name) => {
            crate::machine::lemma_register_index(name);
            let v = pre@.registers[register_index(name)];
            if r is Ok {
                assert(post@.output =~= pre@.output.push(post@.output.last()));
                assert(code_points(post@.output) =~= code_points(pre@.output).push(v as int));
            }
        },
        Effect::Modify(name, t) => {
            crate::machine::lemma_register_index(name);
        },
        Effect::Read(name) => {
            crate::machine::lemma_register_index(name);
        },
        _ => {},
    }
}

} // verus!
