use strategic_communication::codegen::{compile, Code, CodeGen, Exit, Test};
use strategic_communication::interpreter::Context;
use strategic_communication::machine::apply_transformation;
use strategic_communication::program::Program;
use strategic_communication::support::character_of;

fn program(lines: &[&str]) -> Program {
    Program::new("test".to_string(), lines.iter().map(|l| l.to_string()).collect()).unwrap()
}

/// Output of the interpreter, and whether it ended without error.
fn interpret(p: &Program, input: &[u8]) -> (String, bool) {
    let mut ctx = Context::new(p);
    let mut out = String::new();
    let mut input = input.iter();
    while !ctx.is_finished() {
        let r = ctx.execute_current_line();
        out.extend(ctx.take_output());
        if r.is_err() {
            return (out, false);
        }
        if ctx.awaiting_input.is_some() {
            ctx.receive_input(input.next().copied());
        }
    }
    (out, true)
}

/// Output of walking the compiled graph block by block, and whether it ended without error.
fn walk(g: &CodeGen, input: &[u8]) -> (String, bool) {
    let mut registers = vec![0i32; 8];
    let mut input = input.iter();
    let mut out = String::new();
    let (mut block, mut index) = (0usize, 0usize);
    loop {
        let b = &g.blocks[block];
        if index < b.code.len() {
            match &b.code[index] {
                Code::Modify(r, t) => registers[*r] = apply_transformation(registers[*r], t, &registers),
                Code::Print(r) => match character_of(registers[*r]) {
                    Some(c) => out.push(c),
                    None => return (out, false),
                },
                Code::Read(r) => registers[*r] = input.next().map(|b| *b as i32).unwrap_or(-1),
                Code::Randomize(r) => registers[*r] = 0,
            }
            index += 1;
            continue;
        }
        index = 0;
        match b.exit {
            Some(Exit::Branch(t)) => block = t,
            Some(Exit::BranchIf(r, test, t, e)) => {
                let holds = match test {
                    Test::Zero => registers[r] == 0,
                    Test::Negative => registers[r] < 0,
                };
                block = if holds { t } else { e };
            }
            _ => return (out, true),
        }
    }
}

fn same_on_both(lines: &[&str], input: &[u8]) -> String {
    let p = program(lines);
    let g = compile(&p).unwrap();
    let a = interpret(&p, input);
    let b = walk(&g, input);
    assert_eq!(a, b);
    a.0
}

#[test]
fn backends_agree_on_a_loop() {
    let out = same_on_both(
        &[
            "align assets to finance, manufacturing",
            "align revenue streams to engineering, hr",
            "moving forward, loop",
            "deliver assets",
            "innovate assets",
            "streamline revenue streams",
            "pivot revenue streams to done",
            "revisit loop",
            "going forward, done",
        ],
        &[],
    );
    assert_eq!(out, "0123456789");
}

#[test]
fn backends_agree_on_input_echo() {
    let out = same_on_both(
        &[
            "moving forward, loop",
            "crowdsource assets",
            "restructure assets to done",
            "deliver assets",
            "circle back to loop",
            "moving forward, done",
        ],
        b"echo",
    );
    assert_eq!(out, "echo");
}

#[test]
fn backends_agree_on_forward_jumps_and_dead_code() {
    let out = same_on_both(
        &[
            "align assets to r&d and marketing",
            "circle back to skip",
            "deliver assets",
            "innovate assets",
            "moving forward, skip",
            "deliver assets",
            "moving forward, last",
            "innovate assets",
            "deliver assets",
        ],
        &[],
    );
    assert_eq!(out, "AB");
}

#[test]
fn backends_agree_on_failing_print() {
    let out = same_on_both(
        &["align assets to sales, legal", "deliver assets", "optimize core competencies", "deliver core competencies"],
        &[],
    );
    assert_eq!(out, "H");
}

#[test]
fn backends_agree_when_jumping_to_last_label() {
    let out = same_on_both(
        &["innovate assets", "pivot best practices to end", "deliver assets", "moving forward, end"],
        &[],
    );
    assert_eq!(out, "");
}
