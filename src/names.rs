//! The fixed vocabulary of the language: register names, digit names,
//! connector phrases and instruction keywords.
use vstd::prelude::*;

verus! {

/// Number of registers of the machine.
pub const REGISTER_COUNT: usize = 8;

/// The names of the registers, in lexing priority order.
pub open spec fn register_names() -> Seq<Seq<char>> {
    seq![
        "customer experience"@,
        "revenue streams"@,
        "core competencies"@,
        "best practices"@,
        "stakeholder engagement"@,
        "key performance indicators"@,
        "return on investment"@,
        "assets"@,
    ]
}

/// The names of the digits; the name at index `d` stands for the digit `d`.
pub open spec fn digit_names() -> Seq<Seq<char>> {
    seq![
        "hr"@,
        "engineering"@,
        "legal"@,
        "pr"@,
        "finance"@,
        "marketing"@,
        "r&d"@,
        "sales"@,
        "manufacturing"@,
        "executive management"@,
    ]
}

/// Phrases that may follow an operand.
pub open spec fn operand_connectors() -> Seq<Seq<char>> {
    seq![" and "@, " with "@, " to "@]
}

/// Phrases that may follow a digit name inside a literal.
pub open spec fn literal_connectors() -> Seq<Seq<char>> {
    seq![", and "@, " and "@, ", "@]
}

/// The view of each text of a table.
pub open spec fn texts(v: Seq<&str>) -> Seq<Seq<char>> {
    v.map_values(|t: &str| t@)
}

pub fn register_table() -> (r: Vec<&'static str>)
    ensures
        texts(r@) == register_names(),
{
    let r = vec![
        "customer experience",
        "revenue streams",
        "core competencies",
        "best practices",
        "stakeholder engagement",
        "key performance indicators",
        "return on investment",
        "assets",
    ];
    assert(texts(r@) =~= register_names());
    r
}

pub fn digit_table() -> (r: Vec<&'static str>)
    ensures
        texts(r@) == digit_names(),
{
    let r = vec![
        "hr",
        "engineering",
        "legal",
        "pr",
        "finance",
        "marketing",
        "r&d",
        "sales",
        "manufacturing",
        "executive management",
    ];
    assert(texts(r@) =~= digit_names());
    r
}

pub fn operand_connector_table() -> (r: Vec<&'static str>)
    ensures
        texts(r@) == operand_connectors(),
{
    let r = vec![" and ", " with ", " to "];
    assert(texts(r@) =~= operand_connectors());
    r
}

pub fn literal_connector_table() -> (r: Vec<&'static str>)
    ensures
        texts(r@) == literal_connectors(),
{
    let r = vec![", and ", " and ", ", "];
    assert(texts(r@) =~= literal_connectors());
    r
}

/// Every name of the two operand tables is non-empty.
pub proof fn lemma_names_nonempty()
    ensures
        forall|i: int| 0 <= i < register_names().len() ==> #[trigger] register_names()[i].len() > 0,
        forall|i: int| 0 <= i < digit_names().len() ==> #[trigger] digit_names()[i].len() > 0,
        register_names().len() == REGISTER_COUNT,
        digit_names().len() == 10,
{
    reveal_strlit("customer experience");
    reveal_strlit("revenue streams");
    reveal_strlit("core competencies");
    reveal_strlit("best practices");
    reveal_strlit("stakeholder engagement");
    reveal_strlit("key performance indicators");
    reveal_strlit("return on investment");
    reveal_strlit("assets");
    reveal_strlit("hr");
    reveal_strlit("engineering");
    reveal_strlit("legal");
    reveal_strlit("pr");
    reveal_strlit("finance");
    reveal_strlit("marketing");
    reveal_strlit("r&d");
    reveal_strlit("sales");
    reveal_strlit("manufacturing");
    reveal_strlit("executive management");
}

} // verus!
