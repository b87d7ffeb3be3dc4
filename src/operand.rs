//! Lexing of instruction operands: registers, literal numerals and labels.
use vstd::prelude::*;
use vstd::wrapping::i32_specs;
use crate::names::{
    digit_names, digit_table, lemma_names_nonempty, literal_connector_table, literal_connectors,
    operand_connector_table, operand_connectors, register_names, register_table, texts,
};
use crate::text::{
    first_match, first_match_at, first_match_from, is_prefix, lemma_first_match, skip_first_match,
};

verus! {

/// An operand of an instruction.
#[derive(Debug, Clone)]
pub enum Operand {
    /// The name of a register.
    Register(String),
    /// A literal value.
    Literal(i32),
    /// The name of a label.
    Label(String),
}

/// What an operand stands for.
pub enum OperandModel {
    Register(Seq<char>),
    Literal(i32),
    Label(Seq<char>),
}

impl View for Operand {
    type V = OperandModel;

    open spec fn view(&self) -> OperandModel {
        match self {
            Operand::Register(name) => OperandModel::Register(name@),
            Operand::Literal(v) => OperandModel::Literal(*v),
            Operand::Label(name) => OperandModel::Label(name@),
        }
    }
}

/// The views of a sequence of operands.
pub open spec fn operand_views(v: Seq<Operand>) -> Seq<OperandModel> {
    v.map_values(|o: Operand| o@)
}

pub proof fn lemma_skip_first_match_len(table: Seq<Seq<char>>, s: Seq<char>)
    ensures
        skip_first_match(table, s).len() <= s.len(),
{
    lemma_first_match(table, s);
}

/// The digits named at the start of `s`, and the text after them.
pub open spec fn literal_run(s: Seq<char>) -> (Seq<int>, Seq<char>)
    decreases s.len(),
{
    match first_match(digit_names(), s) {
        Some(d) => {
            let after = skip_first_match(
                literal_connectors(),
                s.skip(digit_names()[d].len() as int),
            );
            proof {
                lemma_names_nonempty();
                lemma_first_match(digit_names(), s);
                lemma_skip_first_match_len(
                    literal_connectors(),
                    s.skip(digit_names()[d].len() as int),
                );
            }
            (seq![d].add(literal_run(after).0), literal_run(after).1)
        },
        None => (Seq::empty(), s),
    }
}

/// The base-10 integer whose digits, most significant first, are `ds`.
pub open spec fn decimal_value(ds: Seq<int>) -> int
    decreases ds.len(),
{
    if ds.len() == 0 {
        0
    } else {
        decimal_value(ds.drop_last()) * 10 + ds.last()
    }
}

/// The base-10 integer of the digits `ds`, accumulated in 32-bit wrapping arithmetic.
pub open spec fn literal_value(ds: Seq<int>) -> i32
    decreases ds.len(),
{
    if ds.len() == 0 {
        0
    } else {
        i32_specs::wrapping_add(
            i32_specs::wrapping_mul(literal_value(ds.drop_last()), 10),
            ds.last() as i32,
        )
    }
}

/// The operands of the text `s`.
pub open spec fn lex(s: Seq<char>) -> Seq<OperandModel>
    decreases s.len(),
{
    if s.len() == 0 {
        Seq::empty()
    } else {
        match first_match(register_names(), s) {
            Some(i) => {
                let after = skip_first_match(
                    operand_connectors(),
                    s.skip(register_names()[i].len() as int),
                );
                proof {
                    lemma_names_nonempty();
                    lemma_first_match(register_names(), s);
                    lemma_skip_first_match_len(
                        operand_connectors(),
                        s.skip(register_names()[i].len() as int),
                    );
                }
                seq![OperandModel::Register(register_names()[i])].add(lex(after))
            },
            None => {
                if first_match(digit_names(), s) is Some {
                    let run = literal_run(s);
                    let after = skip_first_match(operand_connectors(), run.1);
                    proof {
                        lemma_literal_run_shorter(s);
                        lemma_skip_first_match_len(operand_connectors(), run.1);
                    }
                    seq![OperandModel::Literal(literal_value(run.0))].add(lex(after))
                } else {
                    seq![OperandModel::Label(s)]
                }
            },
        }
    }
}

/// Reading a literal consumes text whenever `s` begins with a digit name.
pub proof fn lemma_literal_run_shorter(s: Seq<char>)
    ensures
        literal_run(s).1.len() <= s.len(),
        first_match(digit_names(), s) is Some ==> literal_run(s).1.len() < s.len(),
    decreases s.len(),
{
    lemma_names_nonempty();
    lemma_first_match(digit_names(), s);
    if let Some(d) = first_match(digit_names(), s) {
        let after = skip_first_match(literal_connectors(), s.skip(digit_names()[d].len() as int));
        lemma_skip_first_match_len(literal_connectors(), s.skip(digit_names()[d].len() as int));
        lemma_literal_run_shorter(after);
    }
}

/// Reads the literal whose digit names begin at character `pos` of `s`.
/// Returns its value and the position just after it.
pub fn parse_literal(s: &str, pos: usize) -> (r: (i32, usize))
    requires
        pos <= s@.len(),
    ensures
        pos <= r.1 <= s@.len(),
        r.0 == literal_value(literal_run(s@.skip(pos as int)).0),
        s@.skip(r.1 as int) == literal_run(s@.skip(pos as int)).1,
{
    let digits = digit_table();
    let connectors = literal_connector_table();
    let n = s.unicode_len();
    let mut p = pos;
    let mut value: i32 = 0;
    let ghost mut ds: Seq<int> = Seq::empty();
    proof {
        lemma_names_nonempty();
    }
    loop
        invariant
            n == s@.len(),
            pos <= p <= n,
            texts(digits@) == digit_names(),
            texts(connectors@) == literal_connectors(),
            value == literal_value(ds),
            literal_run(s@.skip(pos as int)).0 == ds + literal_run(s@.skip(p as int)).0,
            literal_run(s@.skip(pos as int)).1 == literal_run(s@.skip(p as int)).1,
        decreases n - p,
    {
        let ghost rest = s@.skip(p as int);
        match first_match_at(s, p, &digits) {
            Some(d) => {
                proof {
                    lemma_first_match(digit_names(), rest);
                    assert(digits@[d as int]@ == digit_names()[d as int]);
                }
                let len = digits[d].unicode_len();
                let q = p + len;
                assert(rest.skip(len as int) =~= s@.skip(q as int));
                let after = match first_match_at(s, q, &connectors) {
                    Some(k) => {
                        proof {
                            lemma_first_match(literal_connectors(), s@.skip(q as int));
                            assert(connectors@[k as int]@ == literal_connectors()[k as int]);
                        }
                        let c = connectors[k].unicode_len();
                        assert(s@.skip(q as int).skip(c as int) =~= s@.skip((q + c) as int));
                        q + c
                    },
                    None => q,
                };
                proof {
                    let ds2 = ds.push(d as int);
                    assert(ds2.drop_last() =~= ds);
                    assert(literal_run(rest).0 =~= seq![d as int].add(
                        literal_run(s@.skip(after as int)).0,
                    ));
                    assert(ds + literal_run(rest).0 =~= ds2 + literal_run(
                        s@.skip(after as int),
                    ).0);
                    ds = ds2;
                }
                value = value.wrapping_mul(10).wrapping_add(d as i32);
                p = after;
            },
            None => {
                assert(literal_run(rest).0 =~= Seq::<int>::empty());
                assert(ds + literal_run(rest).0 =~= ds);
                return (value, p);
            },
        }
    }
}

/// Skips the first connector of `table` that the text of `s` from `pos` on begins with.
fn skip_connector(s: &str, pos: usize, table: &Vec<&str>) -> (r: usize)
    requires
        pos <= s@.len() <= usize::MAX,
    ensures
        pos <= r <= s@.len(),
        s@.skip(r as int) == skip_first_match(texts(table@), s@.skip(pos as int)),
{
    match first_match_at(s, pos, table) {
        Some(k) => {
            proof {
                lemma_first_match(texts(table@), s@.skip(pos as int));
                assert(first_match(texts(table@), s@.skip(pos as int)) == Some(k as int));
                assert(table@[k as int]@ == texts(table@)[k as int]);
                assert(is_prefix(texts(table@)[k as int], s@.skip(pos as int)));
            }
            let c = table[k].unicode_len();
            assert(s@.skip(pos as int).skip(c as int) =~= s@.skip((pos + c) as int));
            pos + c
        },
        None => pos,
    }
}

/// Splits an operand text into its operands: registers and literals, and a label
/// made of all the text that follows them.
pub fn parse_operands(operands: &str) -> (r: Vec<Operand>)
    ensures
        operand_views(r@) == lex(operands@),
{
    let registers = register_table();
    let digits = digit_table();
    let connectors = operand_connector_table();
    let n = operands.unicode_len();
    let mut p: usize = 0;
    let mut parsed: Vec<Operand> = Vec::new();
    proof {
        lemma_names_nonempty();
        assert(operands@.skip(0) =~= operands@);
        assert(operand_views(parsed@) =~= Seq::<OperandModel>::empty());
    }
    while p < n
        invariant
            n == operands@.len(),
            p <= n,
            texts(registers@) == register_names(),
            texts(digits@) == digit_names(),
            texts(connectors@) == operand_connectors(),
            lex(operands@) == operand_views(parsed@) + lex(operands@.skip(p as int)),
        decreases n - p,
    {
        let ghost rest = operands@.skip(p as int);
        match first_match_at(operands, p, &registers) {
            Some(i) => {
                proof {
                    lemma_first_match(register_names(), rest);
                    assert(registers@[i as int]@ == register_names()[i as int]);
                }
                let name = registers[i];
                let len = name.unicode_len();
                assert(rest.skip(len as int) =~= operands@.skip((p + len) as int));
                let after = skip_connector(operands, p + len, &connectors);
                let ghost before = operand_views(parsed@);
                parsed.push(Operand::Register(name.to_owned()));
                proof {
                    assert(operand_views(parsed@) =~= before.push(
                        OperandModel::Register(register_names()[i as int]),
                    ));
                    assert(lex(rest) =~= seq![OperandModel::Register(register_names()[i as int])].add(
                        lex(operands@.skip(after as int)),
                    ));
                    assert(lex(operands@) =~= operand_views(parsed@) + lex(
                        operands@.skip(after as int),
                    ));
                }
                p = after;
            },
            None => {
                if first_match_at(operands, p, &digits).is_some() {
                    let (value, end) = parse_literal(operands, p);
                    let after = skip_connector(operands, end, &connectors);
                    proof {
                        lemma_literal_run_shorter(rest);
                    }
                    let ghost before = operand_views(parsed@);
                    parsed.push(Operand::Literal(value));
                    proof {
                        assert(operand_views(parsed@) =~= before.push(OperandModel::Literal(value)));
                        assert(lex(rest) =~= seq![OperandModel::Literal(value)].add(
                            lex(operands@.skip(after as int)),
                        ));
                        assert(lex(operands@) =~= operand_views(parsed@) + lex(
                            operands@.skip(after as int),
                        ));
                    }
                    p = after;
                } else {
                    let label = operands.substring_char(p, n).to_owned();
                    let ghost before = operand_views(parsed@);
                    parsed.push(Operand::Label(label));
                    proof {
                        assert(operands@.subrange(p as int, n as int) =~= rest);
                        assert(operand_views(parsed@) =~= before.push(OperandModel::Label(rest)));
                        assert(lex(operands@) =~= operand_views(parsed@));
                    }
                    return parsed;
                }
            },
        }
    }
    proof {
        assert(lex(operands@.skip(p as int)) =~= Seq::<OperandModel>::empty());
        assert(lex(operands@) =~= operand_views(parsed@));
    }
    parsed
}

/// The text naming the digits `ds`, most significant first, joined by " and ".
pub open spec fn spelled(ds: Seq<int>) -> Seq<char>
    decreases ds.len(),
{
    if ds.len() == 0 {
        Seq::empty()
    } else if ds.len() == 1 {
        digit_names()[ds[0]]
    } else {
        digit_names()[ds[0]] + " and "@ + spelled(ds.drop_first())
    }
}

/// `a` and `b` differ at position `i`.
pub open spec fn differ_at(a: Seq<char>, b: Seq<char>, i: int) -> bool {
    0 <= i < a.len() && i < b.len() && a[i] != b[i]
}

proof fn lemma_digit_names_differ()
    ensures
        forall|j: int, d: int|
            0 <= j < 10 && 0 <= d < 10 && j != d ==> differ_at(
                #[trigger] digit_names()[j],
                #[trigger] digit_names()[d],
                0,
            ) || differ_at(digit_names()[j], digit_names()[d], 1) || differ_at(
                digit_names()[j],
                digit_names()[d],
                2,
            ),
{
    reveal_strlit("hr");
    reveal_strlit("engineering");
    reveal_strlit("legal");
    reveal_strlit("pr");
    reveal_strlit("finance");
    reveal_strlit("marketing");
    reveal_strlit("r&d");
    reveal_strlit("sales");
    reveal_strlit("manufacturing");
    reveal_strlit("executive management");
}

proof fn lemma_register_names_differ()
    ensures
        forall|j: int, d: int|
            0 <= j < 8 && 0 <= d < 8 && j != d ==> differ_at(
                #[trigger] register_names()[j],
                #[trigger] register_names()[d],
                0,
            ) || differ_at(register_names()[j], register_names()[d], 1) || differ_at(
                register_names()[j],
                register_names()[d],
                2,
            ),
{
    reveal_strlit("customer experience");
    reveal_strlit("revenue streams");
    reveal_strlit("core competencies");
    reveal_strlit("best practices");
    reveal_strlit("stakeholder engagement");
    reveal_strlit("key performance indicators");
    reveal_strlit("return on investment");
    reveal_strlit("assets");
}

/// No register name is a prefix of another register name, and no digit name is a
/// prefix of another digit name, so greedy prefix matching reads names unambiguously.
pub proof fn lemma_names_prefix_free()
    ensures
        forall|i: int, j: int|
            0 <= i < register_names().len() && 0 <= j < register_names().len() && i != j
                ==> !is_prefix(#[trigger] register_names()[i], #[trigger] register_names()[j]),
        forall|i: int, j: int|
            0 <= i < digit_names().len() && 0 <= j < digit_names().len() && i != j ==> !is_prefix(
                #[trigger] digit_names()[i],
                #[trigger] digit_names()[j],
            ),
{
    lemma_names_nonempty();
    lemma_register_names_differ();
    lemma_digit_names_differ();
    assert forall|i: int, j: int|
        0 <= i < register_names().len() && 0 <= j < register_names().len() && i != j
            implies !is_prefix(#[trigger] register_names()[i], #[trigger] register_names()[j]) by {
        let a = register_names()[i];
        let b = register_names()[j];
        if is_prefix(a, b) {
            let k = if differ_at(a, b, 0) {
                0
            } else if differ_at(a, b, 1) {
                1
            } else {
                2
            };
            assert(b.take(a.len() as int)[k] == b[k]);
        }
    }
    assert forall|i: int, j: int|
        0 <= i < digit_names().len() && 0 <= j < digit_names().len() && i != j implies !is_prefix(
        #[trigger] digit_names()[i],
        #[trigger] digit_names()[j],
    ) by {
        let a = digit_names()[i];
        let b = digit_names()[j];
        if is_prefix(a, b) {
            let k = if differ_at(a, b, 0) {
                0
            } else if differ_at(a, b, 1) {
                1
            } else {
                2
            };
            assert(b.take(a.len() as int)[k] == b[k]);
        }
    }
}

/// A text that begins with a digit name and the rest of a literal is read as that digit.
proof fn lemma_first_digit(d: int, more: Seq<char>)
    requires
        0 <= d < 10,
    ensures
        first_match(digit_names(), digit_names()[d] + more) == Some(d),
{
    let s = digit_names()[d] + more;
    lemma_digit_names_differ();
    lemma_names_nonempty();
    assert(s.take(digit_names()[d].len() as int) =~= digit_names()[d]);
    assert forall|j: int| 0 <= j < d implies !is_prefix(#[trigger] digit_names()[j], s) by {
        let a = digit_names()[j];
        let b = digit_names()[d];
        if is_prefix(a, s) {
            let i = if differ_at(a, b, 0) {
                0
            } else if differ_at(a, b, 1) {
                1
            } else {
                2
            };
            assert(s.take(a.len() as int)[i] == a[i]);
            assert(s[i] == b[i]);
        }
    }
    lemma_first_match_upto(digit_names(), s, d, 0);
}

/// The first match is at `k` when the phrase at `k` is a prefix and none before it is.
pub proof fn lemma_first_match_upto(table: Seq<Seq<char>>, s: Seq<char>, k: int, i: int)
    requires
        0 <= i <= k < table.len(),
        is_prefix(table[k], s),
        forall|j: int| 0 <= j < k ==> !is_prefix(#[trigger] table[j], s),
    ensures
        crate::text::first_match_from(table, s, i) == Some(k),
    decreases k - i,
{
    if i < k {
        lemma_first_match_upto(table, s, k, i + 1);
    }
}

/// Reading the spelled digits `ds` yields exactly those digits and consumes the whole text.
pub proof fn lemma_literal_run_spelled(ds: Seq<int>)
    requires
        ds.len() >= 1,
        forall|i: int| 0 <= i < ds.len() ==> 0 <= #[trigger] ds[i] < 10,
    ensures
        literal_run(spelled(ds)) == (ds, Seq::<char>::empty()),
    decreases ds.len(),
{
    lemma_names_nonempty();
    reveal_strlit(" and ");
    reveal_strlit(", and ");
    reveal_strlit(", ");
    let s = spelled(ds);
    let name = digit_names()[ds[0]];
    if ds.len() == 1 {
        assert(s =~= name + Seq::<char>::empty());
        lemma_first_digit(ds[0], Seq::empty());
        assert(s.skip(name.len() as int) =~= Seq::<char>::empty());
        lemma_first_match(literal_connectors(), Seq::<char>::empty());
        lemma_first_match(digit_names(), Seq::<char>::empty());
        assert(literal_run(Seq::<char>::empty()).0 =~= Seq::<int>::empty());
        assert(seq![ds[0]].add(Seq::<int>::empty()) =~= ds);
    } else {
        let rest = ds.drop_first();
        let tail = " and "@ + spelled(rest);
        assert(s =~= name + tail);
        lemma_first_digit(ds[0], tail);
        assert(s.skip(name.len() as int) =~= tail);
        assert(!is_prefix(literal_connectors()[0], tail)) by {
            if is_prefix(literal_connectors()[0], tail) {
                assert(tail.take(6)[0] == tail[0]);
            }
        }
        assert(tail.take(5) =~= " and "@);
        assert(first_match_from(literal_connectors(), tail, 1) == Some(1int));
        assert(tail.skip(5) =~= spelled(rest));
        assert forall|i: int| 0 <= i < rest.len() implies 0 <= #[trigger] rest[i] < 10 by {
            assert(rest[i] == ds[i + 1]);
        }
        lemma_literal_run_spelled(rest);
        assert(seq![ds[0]].add(rest) =~= ds);
    }
}

/// While the base-10 value fits in an `i32`, the wrapping accumulation is exact.
pub proof fn lemma_literal_value_exact(ds: Seq<int>)
    requires
        forall|i: int| 0 <= i < ds.len() ==> 0 <= #[trigger] ds[i] < 10,
        decimal_value(ds) <= i32::MAX,
    ensures
        literal_value(ds) as int == decimal_value(ds),
        0 <= decimal_value(ds),
    decreases ds.len(),
{
    if ds.len() > 0 {
        let front = ds.drop_last();
        assert forall|i: int| 0 <= i < front.len() implies 0 <= #[trigger] front[i] < 10 by {
            assert(front[i] == ds[i]);
        }
        assert(0 <= ds.last() < 10) by {
            assert(ds.last() == ds[ds.len() - 1]);
        }
        lemma_decimal_value_nonnegative(front);
        assert(decimal_value(front) <= i32::MAX);
        lemma_literal_value_exact(front);
        let v = literal_value(front);
        assert(v * 10 <= i32::MAX);
        assert(i32_specs::wrapping_mul(v, 10) == v * 10) by {
            assert((v * 10) % 0x1_0000_0000 == v * 10);
        }
    }
}

proof fn lemma_decimal_value_nonnegative(ds: Seq<int>)
    requires
        forall|i: int| 0 <= i < ds.len() ==> 0 <= #[trigger] ds[i] < 10,
    ensures
        0 <= decimal_value(ds),
    decreases ds.len(),
{
    if ds.len() > 0 {
        let front = ds.drop_last();
        assert forall|i: int| 0 <= i < front.len() implies 0 <= #[trigger] front[i] < 10 by {
            assert(front[i] == ds[i]);
        }
        assert(ds.last() == ds[ds.len() - 1]);
        lemma_decimal_value_nonnegative(front);
    }
}

/// Digit names read left to right decode to the base-10 integer of those digits,
/// the first digit being the most significant, whenever that integer fits in an `i32`.
pub proof fn lemma_literal_decoding(ds: Seq<int>)
    requires
        ds.len() >= 1,
        forall|i: int| 0 <= i < ds.len() ==> 0 <= #[trigger] ds[i] < 10,
        decimal_value(ds) <= i32::MAX,
    ensures
        literal_run(spelled(ds)).0 == ds,
        literal_run(spelled(ds)).1.len() == 0,
        literal_value(literal_run(spelled(ds)).0) as int == decimal_value(ds),
{
    lemma_literal_run_spelled(ds);
    lemma_literal_value_exact(ds);
}

} // verus!
