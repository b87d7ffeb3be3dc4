//! The compiler backend: lowers a program into a control-flow graph of basic
//! blocks, one for each label after an entry block, for a code generator to emit
//! and run.
use vstd::prelude::*;
use crate::error::{Error, ErrorKind, ErrorModel};
use crate::machine::{
    find_register, lemma_register_index, register_index, Backend, Effect, Transformation,
    TransformationModel,
};
use crate::operations::{decode_line, execute_line};
use crate::program::{defines, label_text, Program};

verus! {

/// The comparison with zero of a conditional branch.
#[derive(Debug, Clone, Copy, PartialEq, Eq, Structural)]
pub enum Test {
    /// The register holds 0.
    Zero,
    /// The register holds a negative value.
    Negative,
}

/// A straight-line instruction of a basic block; registers are given by index.
#[derive(Debug)]
pub enum Code {
    Modify(usize, Transformation),
    Print(usize),
    Read(usize),
    Randomize(usize),
}

/// The control transfer that ends a basic block.
#[derive(Debug, Clone, Copy, PartialEq, Eq, Structural)]
pub enum Exit {
    /// Returns from the program.
    Return,
    /// Continues with the block of that index.
    Branch(usize),
    /// Tests the register (first) and continues with the block `then` (third)
    /// when the test holds, else with the block `otherwise` (fourth).
    BranchIf(usize, Test, usize, usize),
}

/// A basic block.
#[derive(Debug)]
pub struct Block {
    /// The name of the block.
    pub name: String,
    /// Its straight-line instructions.
    pub code: Vec<Code>,
    /// How it ends, once it does.
    pub exit: Option<Exit>,
}

pub enum CodeModel {
    Modify(int, TransformationModel),
    Print(int),
    Read(int),
    Randomize(int),
}

pub struct BlockModel {
    pub code: Seq<CodeModel>,
    pub exit: Option<Exit>,
}

/// The control-flow graph under construction: its blocks and the block being written.
pub struct GraphModel {
    pub blocks: Seq<BlockModel>,
    pub current: int,
}

impl View for Code {
    type V = CodeModel;

    open spec fn view(&self) -> CodeModel {
        match self {
            Code::Modify(r, t) => CodeModel::Modify(*r as int, t@),
            Code::Print(r) => CodeModel::Print(*r as int),
            Code::Read(r) => CodeModel::Read(*r as int),
            Code::Randomize(r) => CodeModel::Randomize(*r as int),
        }
    }
}

impl View for Block {
    type V = BlockModel;

    open spec fn view(&self) -> BlockModel {
        BlockModel { code: self.code@.map_values(|c: Code| c@), exit: self.exit }
    }
}

/// The views of a sequence of blocks.
pub open spec fn block_views(v: Seq<Block>) -> Seq<BlockModel> {
    v.map_values(|b: Block| b@)
}

/// An empty block that does not end yet.
pub open spec fn open_block() -> BlockModel {
    BlockModel { code: Seq::empty(), exit: None }
}

/// The block of the label `name` in a graph built for `program`: the blocks
/// of the labels follow the entry block in line order.
pub open spec fn label_block(program: &Program, name: Seq<char>) -> int {
    1 + choose|k: int|
        0 <= k < program.label_table().len() && program.label_table()[k].0@ == name
}

/// The graph before any line is lowered.
pub open spec fn initial_graph(program: &Program) -> GraphModel {
    GraphModel {
        blocks: Seq::new((program.label_table().len() + 1) as nat, |i: int| open_block()),
        current: 0,
    }
}

/// Appends `c` to the current block, unless that block already ends.
pub open spec fn emit(g: GraphModel, c: CodeModel) -> GraphModel {
    let cur = g.blocks[g.current];
    if cur.exit is None {
        GraphModel {
            blocks: g.blocks.update(g.current, BlockModel { code: cur.code.push(c), ..cur }),
            ..g
        }
    } else {
        g
    }
}

/// Ends the current block with `exit`, unless it already ends.
pub open spec fn end_block(g: GraphModel, exit: Exit) -> GraphModel {
    let cur = g.blocks[g.current];
    if cur.exit is None {
        GraphModel {
            blocks: g.blocks.update(g.current, BlockModel { exit: Some(exit), ..cur }),
            ..g
        }
    } else {
        g
    }
}

/// Ends the current block, unless it already ends, with a branch to the block
/// of `target` when `test` holds of the register `r`, else to a new block, which
/// becomes the current one.
pub open spec fn branch_if(g: GraphModel, r: int, test: Test, target: int) -> GraphModel {
    let cur = g.blocks[g.current];
    let next = g.blocks.len() as int;
    if cur.exit is None {
        GraphModel {
            blocks: g.blocks.update(
                g.current,
                BlockModel {
                    exit: Some(Exit::BranchIf(r as usize, test, target as usize, next as usize)),
                    ..cur
                },
            ).push(open_block()),
            current: next,
        }
    } else {
        g
    }
}

/// The graph after lowering `effect` into `g`, for `program`.
pub open spec fn lower(program: &Program, g: GraphModel, effect: Effect) -> GraphModel {
    match effect {
        Effect::Label(name) => {
            let b = label_block(program, name);
            GraphModel { current: b, ..end_block(g, Exit::Branch(b as usize)) }
        },
        Effect::Modify(name, t) => emit(g, CodeModel::Modify(register_index(name), t)),
        Effect::Print(name) => emit(g, CodeModel::Print(register_index(name))),
        Effect::Read(name) => emit(g, CodeModel::Read(register_index(name))),
        Effect::Randomize(name) => emit(g, CodeModel::Randomize(register_index(name))),
        Effect::Jump(label) => end_block(g, Exit::Branch(label_block(program, label) as usize)),
        Effect::JumpIfZero(name, label) => branch_if(
            g,
            register_index(name),
            Test::Zero,
            label_block(program, label),
        ),
        Effect::JumpIfNeg(name, label) => branch_if(
            g,
            register_index(name),
            Test::Negative,
            label_block(program, label),
        ),
    }
}

/// The graph after lowering the first `n` lines of `program`, or the first error
/// with its line.
pub open spec fn lower_lines(program: &Program, n: int) -> Result<GraphModel, (int, ErrorModel)>
    decreases n,
{
    if n <= 0 {
        Ok(initial_graph(program))
    } else {
        match lower_lines(program, n - 1) {
            Err(e) => Err(e),
            Ok(g) => match decode_line(
                program.lines()[n - 1],
                |l: Seq<char>| program.label_line(l) is Some,
            ) {
                Ok(e) => Ok(lower(program, g, e)),
                Err(k) => Err((n - 1, k)),
            },
        }
    }
}

/// Once lowering fails, it fails with the same error at every later line.
pub proof fn lemma_lower_lines_error(program: &Program, m: int, n: int)
    requires
        1 <= m <= n,
        lower_lines(program, m) is Err,
    ensures
        lower_lines(program, n) == lower_lines(program, m),
    decreases n - m,
{
    if m < n {
        lemma_lower_lines_error(program, m, n - 1);
    }
}

/// The finished graph: the current block, if it does not end yet, returns.
pub open spec fn finish(g: GraphModel) -> GraphModel {
    end_block(g, Exit::Return)
}

/// A code generator that lowers a program into basic blocks.
pub struct CodeGen<'p> {
    /// The program being compiled.
    pub program: &'p Program,
    /// The blocks: the entry block, one for each label in line order, then the
    /// blocks that follow conditional branches.
    pub blocks: Vec<Block>,
    /// The block being written.
    pub current: usize,
}

impl<'p> View for CodeGen<'p> {
    type V = GraphModel;

    open spec fn view(&self) -> GraphModel {
        GraphModel { blocks: block_views(self.blocks@), current: self.current as int }
    }
}

/// Compiles `program` into a control-flow graph.
pub fn compile(program: &Program) -> (r: Result<CodeGen, Error>)
    requires
        program.wf(),
    ensures
        match lower_lines(program, program.lines().len() as int) {
            Ok(g) => r is Ok && r->Ok_0.program == program && r->Ok_0@ == finish(g),
            Err((line, kind)) => r is Err && r->Err_0.line_number == line && r->Err_0.kind@
                == kind,
        },
{
    let mut codegen = CodeGen::create_basic_blocks(program);
    let mut i: usize = 0;
    while i < program.line_count()
        invariant
            program.wf(),
            codegen.inv(),
            codegen.program == program,
            i <= program.lines().len(),
            lower_lines(program, i as int) == Ok::<GraphModel, (int, ErrorModel)>(codegen@),
        decreases program.lines().len() - i,
    {
        let line = program.line(i);
        proof {
            if label_text(line@) is Some {
                assert(defines(program.lines(), i as int, label_text(line@)->0));
            }
        }
        let ghost pre = codegen;
        let ghost known = |l: Seq<char>| program.label_line(l) is Some;
        assert(known =~= (|l: Seq<char>| pre.label_known(l)));
        match execute_line(line, i, &mut codegen) {
            Ok(()) => {},
            Err(e) => {
                proof {
                    assert(lower_lines(program, i + 1) == Err::<GraphModel, (int, ErrorModel)>(
                        (i as int, e.kind@),
                    ));
                    lemma_lower_lines_error(program, i + 1, program.lines().len() as int);
                }
                return Err(e);
            },
        }
        i = i + 1;
    }
    codegen.finish();
    Ok(codegen)
}

impl<'p> CodeGen<'p> {
    /// A code generator for `program` with an empty entry block, being written,
    /// and an empty block for each label, in line order.
    pub fn create_basic_blocks(program: &'p Program) -> (r: CodeGen<'p>)
        requires
            program.wf(),
        ensures
            r.inv(),
            r.program == program,
            r@ == initial_graph(program),
    {
        let mut blocks: Vec<Block> = Vec::new();
        let entry = Block { name: "entry".to_owned(), code: Vec::new(), exit: None };
        assert(entry@.code =~= Seq::<CodeModel>::empty());
        blocks.push(entry);
        assert(block_views(blocks@) =~= Seq::new(1, |i: int| open_block()));
        let labels = program.labels();
        let mut k: usize = 0;
        while k < labels.len()
            invariant
                labels@ == program.label_table(),
                k <= labels@.len(),
                block_views(blocks@) == Seq::new((k + 1) as nat, |i: int| open_block()),
            decreases labels@.len() - k,
        {
            let block = Block { name: labels[k].0.clone(), code: Vec::new(), exit: None };
            assert(block@.code =~= Seq::<CodeModel>::empty());
            assert(block@ == open_block());
            let ghost before = blocks@;
            blocks.push(block);
            assert(block_views(blocks@) =~= block_views(before).push(open_block()));
            k = k + 1;
            assert(block_views(blocks@) =~= Seq::new((k + 1) as nat, |i: int| open_block()));
        }
        CodeGen { program, blocks, current: 0 }
    }

    /// The index of the block of the label `name`, which the program defines.
    pub fn label_block(&self, name: &str) -> (r: usize)
        requires
            self.inv(),
            self.program.label_line(name@) is Some,
        ensures
            r as int == label_block(self.program, name@),
            r < self.blocks@.len(),
    {
        proof {
            let program = self.program;
            let i = choose|i: int| defines(program.lines(), i, name@);
            let kk = choose|kk: int|
                0 <= kk < program.label_table().len() && #[trigger] program.label_table()[kk].1
                    == i;
            crate::program::lemma_label_names_distinct(program);
        }
        let k = self.program.label_index(name).unwrap();
        let count = self.blocks.len();
        assert(k + 1 < count);
        k + 1
    }

    /// Ends the current block with a return, unless it already ends.
    pub fn finish(&mut self)
        requires
            old(self).inv(),
        ensures
            final(self).inv(),
            final(self).program == old(self).program,
            final(self)@ == finish(old(self)@),
    {
        self.end_block(Exit::Return);
    }

    /// Appends `code` to the current block, unless that block already ends.
    fn emit(&mut self, code: Code)
        requires
            old(self).inv(),
        ensures
            final(self).inv(),
            final(self).program == old(self).program,
            final(self)@ == emit(old(self)@, code@),
    {
        let cur = self.current;
        if self.blocks[cur].exit.is_none() {
            let ghost before = block_views(self.blocks@);
            let ghost blocks0 = self.blocks@;
            let ghost c = code@;
            let mut block = self.blocks.remove(cur);
            let ghost b0 = block@;
            block.code.push(code);
            assert(block@.code =~= b0.code.push(c));
            assert(block@ == BlockModel { code: before[cur as int].code.push(c), ..before[cur as int] });
            self.blocks.insert(cur, block);
            proof {
                assert(self.blocks@ =~= blocks0.update(cur as int, block));
                assert(block_views(self.blocks@) =~= before.update(
                    cur as int,
                    BlockModel { code: before[cur as int].code.push(c), ..before[cur as int] },
                ));
            }
        }
    }

    /// Ends the current block with `exit`, unless it already ends.
    fn end_block(&mut self, exit: Exit)
        requires
            old(self).inv(),
        ensures
            final(self).inv(),
            final(self).program == old(self).program,
            final(self)@ == end_block(old(self)@, exit),
    {
        let cur = self.current;
        if self.blocks[cur].exit.is_none() {
            let ghost before = block_views(self.blocks@);
            let ghost blocks0 = self.blocks@;
            let mut block = self.blocks.remove(cur);
            block.exit = Some(exit);
            self.blocks.insert(cur, block);
            proof {
                assert(self.blocks@ =~= blocks0.update(cur as int, block));
                assert(block_views(self.blocks@) =~= before.update(
                    cur as int,
                    BlockModel { exit: Some(exit), ..before[cur as int] },
                ));
            }
        }
    }

    /// Lowers a conditional branch on the register `register` to the block `target`.
    fn gen_cond_zero_jump(&mut self, register: usize, test: Test, target: usize)
        requires
            old(self).inv(),
            target < old(self).blocks@.len(),
            register < crate::names::REGISTER_COUNT,
        ensures
            final(self).inv(),
            final(self).program == old(self).program,
            final(self)@ == branch_if(old(self)@, register as int, test, target as int),
    {
        let cur = self.current;
        if self.blocks[cur].exit.is_none() {
            let ghost before = block_views(self.blocks@);
            let next = self.blocks.len();
            let mut name = self.blocks[cur].name.clone();
            name.append("'");
            self.end_block(Exit::BranchIf(register, test, target, next));
            let fresh = Block { name, code: Vec::new(), exit: None };
            assert(fresh@.code =~= Seq::<CodeModel>::empty());
            self.blocks.push(fresh);
            self.current = next;
            proof {
                assert(block_views(self.blocks@) =~= before.update(
                    cur as int,
                    BlockModel {
                        exit: Some(Exit::BranchIf(register, test, target, next)),
                        ..before[cur as int]
                    },
                ).push(open_block()));
            }
        }
    }
}

impl<'p> Backend for CodeGen<'p> {
    open spec fn inv(&self) -> bool {
        &&& self.program.wf()
        &&& self.current < self.blocks@.len()
        &&& self.program.label_table().len() + 1 <= self.blocks@.len()
    }

    open spec fn label_known(&self, name: Seq<char>) -> bool {
        self.program.label_line(name) is Some
    }

    open spec fn performs(
        pre: Self,
        effect: Effect,
        post: Self,
        result: Option<ErrorModel>,
    ) -> bool {
        &&& post.program == pre.program
        &&& result is None
        &&& post@ == lower(pre.program, pre@, effect)
    }

    fn has_register(&self, name: &str) -> (r: bool) {
        find_register(name).is_some()
    }

    fn has_label(&self, label: &str) -> (r: bool) {
        self.program.find_label(label).is_some()
    }

    fn gen_modify_register(&mut self, name: &str, transformation: Transformation) {
        proof {
            lemma_register_index(name@);
        }
        let r = find_register(name).unwrap();
        self.emit(Code::Modify(r, transformation));
    }

    fn gen_print(&mut self, register: &str) -> (r: Result<(), ErrorKind>) {
        proof {
            lemma_register_index(register@);
        }
        let r = find_register(register).unwrap();
        self.emit(Code::Print(r));
        Ok(())
    }

    fn gen_read(&mut self, register: &str) {
        proof {
            lemma_register_index(register@);
        }
        let r = find_register(register).unwrap();
        self.emit(Code::Read(r));
    }

    fn gen_randomize(&mut self, register: &str) {
        proof {
            lemma_register_index(register@);
        }
        let r = find_register(register).unwrap();
        self.emit(Code::Randomize(r));
    }

    fn gen_label(&mut self, name: &str) {
        let b = self.label_block(name);
        self.end_block(Exit::Branch(b));
        self.current = b;
    }

    fn gen_jump(&mut self, label: &str) {
        let b = self.label_block(label);
        self.end_block(Exit::Branch(b));
    }

    fn gen_jump_if_zero(&mut self, register: &str, label: &str) {
        proof {
            lemma_register_index(register@);
        }
        let r = find_register(register).unwrap();
        let b = self.label_block(label);
        self.gen_cond_zero_jump(r, Test::Zero, b);
    }

    fn gen_jump_if_neg(&mut self, register: &str, label: &str) {
        proof {
            lemma_register_index(register@);
        }
        let r = find_register(register).unwrap();
        let b = self.label_block(label);
        self.gen_cond_zero_jump(r, Test::Negative, b);
    }
}

} // verus!
