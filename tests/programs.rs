use strategic_communication::codegen::{compile, Exit, Test};
use strategic_communication::error::{Error, ErrorKind};
use strategic_communication::interpreter::Context;
use strategic_communication::program::Program;

fn program(lines: &[&str]) -> Result<Program, Error> {
    Program::new(
        "test".to_string(),
        lines.iter().map(|l| l.to_string()).collect(),
    )
}

/// Runs `lines` on the interpreter with `input`, returning what it printed and how it ended.
fn run(lines: &[&str], input: &[u8]) -> (String, Result<(), Error>) {
    let p = program(lines).expect("program");
    let mut ctx = Context::new(&p);
    let mut out = String::new();
    let mut input = input.iter();
    let mut steps = 0;
    while !ctx.is_finished() {
        steps += 1;
        assert!(steps < 100_000, "program does not terminate");
        let r = ctx.execute_current_line();
        out.extend(ctx.take_output());
        if let Err(e) = r {
            return (out, Err(e));
        }
        if ctx.awaiting_input.is_some() {
            ctx.receive_input(input.next().copied());
        }
    }
    (out, Ok(()))
}

#[test]
fn set_72_and_print_gives_h() {
    let (out, r) = run(
        &["align customer experience to sales and legal", "deliver customer experience"],
        &[],
    );
    assert_eq!(out, "H");
    assert!(r.is_ok());
}

#[test]
fn literal_before_register_assigns() {
    let (out, r) = run(&["align sales, legal to assets", "produce assets"], &[]);
    assert_eq!(out, "H");
    assert!(r.is_ok());
}

#[test]
fn unmatched_line_is_unknown_instruction_on_its_line() {
    let (out, r) = run(&["innovate assets", "think outside the box", "innovate assets"], &[]);
    assert_eq!(out, "");
    let e = r.unwrap_err();
    assert!(matches!(e.kind, ErrorKind::UnknownInstruction));
    assert_eq!(e.line_number + 1, 2);
}

#[test]
fn duplicate_label_fails_before_running() {
    let r = program(&["moving forward, growth", "innovate assets", "going forward, growth"]);
    let e = r.unwrap_err();
    assert_eq!(e.line_number + 1, 3);
    match e.kind {
        ErrorKind::DuplicateLabel(label, previous) => {
            assert_eq!(label, "growth");
            assert_eq!(previous + 1, 1);
        }
        _ => panic!("wrong error kind"),
    }
}

#[test]
fn duplicate_label_reports_first_collision() {
    let e = program(&[
        "moving forward, a",
        "moving forward, b",
        "moving forward, b",
        "moving forward, a",
    ])
    .unwrap_err();
    assert_eq!(e.line_number, 2);
    assert!(matches!(e.kind, ErrorKind::DuplicateLabel(ref l, 1) if l == "b"));
}

#[test]
fn distinct_labels_build_a_program() {
    let p = program(&["moving forward, a", "going forward, b"]).unwrap();
    assert_eq!(p.find_label("a"), Some(0));
    assert_eq!(p.find_label("b"), Some(1));
    assert_eq!(p.find_label("c"), None);
    assert_eq!(p.line_count(), 2);
}

#[test]
fn jump_resumes_after_label() {
    // Prints "A" once: the jump skips the line that would print "B".
    let (out, r) = run(
        &[
            "align assets to r&d and marketing",
            "circle back to done",
            "align assets to r&d and r&d",
            "moving forward, done",
            "deliver assets",
        ],
        &[],
    );
    assert_eq!(out, "A");
    assert!(r.is_ok());
}

#[test]
fn zero_takes_zero_jump_not_negative_jump() {
    let (out, r) = run(
        &[
            "restructure assets to negative",
            "pivot assets to zero",
            "align best practices to hr",
            "circle back to end",
            "moving forward, negative",
            "align best practices to executive management",
            "circle back to end",
            "moving forward, zero",
            "align best practices to sales, sales",
            "moving forward, end",
            "deliver best practices",
        ],
        &[],
    );
    assert_eq!(out, "M");
    assert!(r.is_ok());
}

#[test]
fn minus_one_takes_negative_jump_not_zero_jump() {
    let (out, r) = run(
        &[
            "optimize assets",
            "pivot assets to zero",
            "restructure assets to negative",
            "circle back to end",
            "moving forward, negative",
            "align best practices to legal, legal",
            "circle back to end",
            "moving forward, zero",
            "align best practices to sales, sales",
            "moving forward, end",
            "deliver best practices",
        ],
        &[],
    );
    assert_eq!(out, "\u{16}");
    assert!(r.is_ok());
}

#[test]
fn counting_loop_prints_digits() {
    let (out, r) = run(
        &[
            "align assets to finance, manufacturing",
            "align revenue streams to engineering, hr",
            "moving forward, loop",
            "deliver assets",
            "innovate assets",
            "streamline revenue streams",
            "pivot revenue streams to done",
            "revisit loop",
            "going forward, done",
        ],
        &[],
    );
    assert_eq!(out, "0123456789");
    assert!(r.is_ok());
}

#[test]
fn arithmetic_instructions() {
    // 10 + 3 = 13, 13 - 3 = 10, negate, double, halve: -10 -> -20 -> -10, negate again: 10,
    // plus 55 gives 65 = 'A'.
    let (out, r) = run(
        &[
            "align assets to engineering, hr",
            "align core competencies to pr",
            "synergize assets with core competencies",
            "differentiate assets with core competencies",
            "revamp assets",
            "amplify assets",
            "backburner assets",
            "overhaul assets",
            "align core competencies to marketing, marketing",
            "integrate assets and core competencies",
            "deliver assets",
        ],
        &[],
    );
    assert_eq!(out, "A");
    assert!(r.is_ok());
}

#[test]
fn read_echoes_input_and_ends_with_minus_one() {
    let (out, r) = run(
        &[
            "moving forward, loop",
            "crowdsource assets",
            "restructure assets to done",
            "deliver assets",
            "circle back to loop",
            "moving forward, done",
        ],
        b"hi",
    );
    assert_eq!(out, "hi");
    assert!(r.is_ok());
}

#[test]
fn randomize_gives_a_digit() {
    let p = program(&["paradigm shift assets"]).unwrap();
    let mut ctx = Context::new(&p);
    ctx.execute_current_line().unwrap();
    assert!((0..10).contains(&ctx.registers[7]));
}

#[test]
fn print_of_negative_value_is_invalid_character() {
    let (out, r) = run(&["optimize assets", "deliver assets"], &[]);
    assert_eq!(out, "");
    let e = r.unwrap_err();
    assert_eq!(e.line_number, 1);
    assert!(matches!(e.kind, ErrorKind::InvalidCharacter(-1)));
}

#[test]
fn jump_to_undefined_label_fails_at_the_jump() {
    let (out, r) = run(&["innovate assets", "circle back to nowhere"], &[]);
    assert_eq!(out, "");
    let e = r.unwrap_err();
    assert_eq!(e.line_number, 1);
    assert!(matches!(e.kind, ErrorKind::UndefinedLabel(ref l) if l == "nowhere"));
}

#[test]
fn wrong_operands_are_invalid_operand() {
    for line in [
        "deliver hr",
        "deliver assets and assets",
        "synergize assets with hr",
        "align hr to legal",
        "pivot assets",
        "circle back to assets",
    ] {
        let (_, r) = run(&[line], &[]);
        let e = r.unwrap_err();
        assert!(matches!(e.kind, ErrorKind::InvalidOperand(_)), "{}", line);
        assert_eq!(e.line_number, 0);
    }
}

#[test]
fn unknown_register_is_invalid_register() {
    let (_, r) = run(&["innovate synergies"], &[]);
    assert!(matches!(r.unwrap_err().kind, ErrorKind::InvalidRegister(ref n) if n == "synergies"));
}

#[test]
fn compile_builds_entry_and_label_blocks() {
    let p = program(&[
        "innovate assets",
        "moving forward, loop",
        "pivot assets to end",
        "circle back to loop",
        "going forward, end",
        "deliver assets",
    ])
    .unwrap();
    let g = compile(&p).unwrap();
    // entry, loop, end, and the block after the conditional branch
    assert_eq!(g.blocks.len(), 4);
    assert_eq!(g.blocks[0].code.len(), 1);
    assert_eq!(g.blocks[0].exit, Some(Exit::Branch(1)));
    assert_eq!(g.blocks[1].exit, Some(Exit::BranchIf(7, Test::Zero, 2, 3)));
    assert_eq!(g.blocks[3].exit, Some(Exit::Branch(1)));
    assert_eq!(g.blocks[2].code.len(), 1);
    assert_eq!(g.blocks[2].exit, Some(Exit::Return));
    assert_eq!(g.blocks[1].name, "loop");
    assert_eq!(g.blocks[3].name, "loop'");
}

#[test]
fn compile_reports_unknown_instruction() {
    let p = program(&["innovate assets", "leverage synergies"]).unwrap();
    let e = compile(&p).err().unwrap();
    assert_eq!(e.line_number, 1);
    assert!(matches!(e.kind, ErrorKind::UnknownInstruction));
}
