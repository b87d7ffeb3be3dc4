use strategic_communication::machine::{apply_transformation, truncated_quotient, Transformation};
use strategic_communication::operand::{parse_literal, parse_operands, Operand};
use strategic_communication::support::character_of;

#[test]
fn digit_names_read_most_significant_first() {
    let ops = parse_operands("finance and legal");
    assert_eq!(ops.len(), 1);
    assert!(matches!(ops[0], Operand::Literal(42)));
}

#[test]
fn literal_connectors_are_all_accepted() {
    let (v, end) = parse_literal("engineering, legal, and pr", 0);
    assert_eq!(v, 123);
    assert_eq!(end, 26);
    let (v, end) = parse_literal("hrsales", 0);
    assert_eq!(v, 7);
    assert_eq!(end, 7);
}

#[test]
fn literal_stops_at_first_non_digit() {
    let (v, end) = parse_literal("pr and x", 0);
    assert_eq!(v, 3);
    assert_eq!(end, 7);
}

#[test]
fn operands_register_literal_label() {
    let ops = parse_operands("assets with executive management to the moon");
    assert_eq!(ops.len(), 3);
    assert!(matches!(&ops[0], Operand::Register(n) if n == "assets"));
    assert!(matches!(ops[1], Operand::Literal(9)));
    assert!(matches!(&ops[2], Operand::Label(n) if n == "the moon"));
}

#[test]
fn label_takes_rest_of_text() {
    let ops = parse_operands("hr and assets");
    assert_eq!(ops.len(), 2);
    assert!(matches!(ops[0], Operand::Literal(0)));
    assert!(matches!(&ops[1], Operand::Register(n) if n == "assets"));
    let ops = parse_operands("quarterly goals and assets");
    assert_eq!(ops.len(), 1);
    assert!(matches!(&ops[0], Operand::Label(n) if n == "quarterly goals and assets"));
}

#[test]
fn empty_operands() {
    assert_eq!(parse_operands("").len(), 0);
}

#[test]
fn ten_digit_literal_wraps() {
    // 4294967297 = 2^32 + 1 wraps to 1
    let (v, _) = parse_literal(
        "finance, legal, executive management, finance, executive management, r&d, \
         sales, legal, executive management, sales",
        0,
    );
    assert_eq!(v, 1);
}

#[test]
fn add_wraps_on_overflow() {
    let regs = vec![0; 8];
    assert_eq!(
        apply_transformation(i32::MAX, &Transformation::Add(Operand::Literal(1)), &regs),
        i32::MIN
    );
    assert_eq!(
        apply_transformation(i32::MIN, &Transformation::Subtract(Operand::Literal(1)), &regs),
        i32::MAX
    );
    assert_eq!(
        apply_transformation(i32::MIN, &Transformation::Multiply(Operand::Literal(-1)), &regs),
        i32::MIN
    );
    assert_eq!(
        apply_transformation(0x4000_0000, &Transformation::Multiply(Operand::Literal(2)), &regs),
        i32::MIN
    );
}

#[test]
fn register_operands_read_register_values() {
    let mut regs = vec![0; 8];
    regs[1] = 5;
    let t = Transformation::Add(Operand::Register("revenue streams".to_string()));
    assert_eq!(apply_transformation(3, &t, &regs), 8);
    let t = Transformation::Assign(Operand::Register("revenue streams".to_string()));
    assert_eq!(apply_transformation(3, &t, &regs), 5);
}

#[test]
fn divide_truncates_toward_zero() {
    assert_eq!(truncated_quotient(-7, 2), -3);
    assert_eq!(truncated_quotient(7, 2), 3);
    assert_eq!(truncated_quotient(7, -2), -3);
    assert_eq!(truncated_quotient(i32::MIN, 2), -1073741824);
    assert_eq!(truncated_quotient(i32::MIN, 1), i32::MIN);
    let regs = vec![0; 8];
    assert_eq!(
        apply_transformation(-5, &Transformation::Divide(Operand::Literal(2)), &regs),
        -2
    );
}

#[test]
fn code_points_become_characters() {
    assert_eq!(character_of(72), Some('H'));
    assert_eq!(character_of(0x1F600), Some('\u{1F600}'));
    assert_eq!(character_of(-1), None);
    assert_eq!(character_of(0xD800), None);
    assert_eq!(character_of(0x110000), None);
}
