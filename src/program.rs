//! A program: its normalized source lines and the table of the labels it defines.
use vstd::prelude::*;
use crate::error::{Error, ErrorKind, ErrorModel};
use crate::names::texts;
use crate::text::{first_match, first_match_at, lemma_first_match, same_text, skip_first_match};

verus! {

/// The phrases that begin a label definition.
pub open spec fn label_prefixes() -> Seq<Seq<char>> {
    seq!["moving forward, "@, "going forward, "@]
}

pub fn label_prefix_table() -> (r: Vec<&'static str>)
    ensures
        texts(r@) == label_prefixes(),
{
    let r = vec!["moving forward, ", "going forward, "];
    assert(texts(r@) =~= label_prefixes());
    r
}

/// The label that `line` defines, if it is a label definition.
pub open spec fn label_text(line: Seq<char>) -> Option<Seq<char>> {
    match first_match(label_prefixes(), line) {
        Some(_) => Some(skip_first_match(label_prefixes(), line)),
        None => None,
    }
}

/// The texts of a sequence of lines.
pub open spec fn line_views(v: Seq<String>) -> Seq<Seq<char>> {
    v.map_values(|l: String| l@)
}

/// Line `i` defines the label `name`.
pub open spec fn defines(lines: Seq<Seq<char>>, i: int, name: Seq<char>) -> bool {
    0 <= i < lines.len() && label_text(lines[i]) == Some(name)
}

/// Lines `i` and `j`, with `i` before `j`, define the same label.
pub open spec fn collision(lines: Seq<Seq<char>>, i: int, j: int) -> bool {
    0 <= i < j < lines.len() && label_text(lines[i]) is Some && label_text(lines[i])
        == label_text(lines[j])
}

/// Some label is defined twice.
pub open spec fn has_duplicate(lines: Seq<Seq<char>>) -> bool {
    exists|i: int, j: int| collision(lines, i, j)
}

/// The line on which `name` is defined, if any.
pub open spec fn label_line(lines: Seq<Seq<char>>, name: Seq<char>) -> Option<int> {
    if exists|i: int| defines(lines, i, name) {
        Some(choose|i: int| defines(lines, i, name))
    } else {
        None
    }
}

/// `table` lists the labels defined on lines before `n`, in line order.
pub open spec fn table_of(lines: Seq<Seq<char>>, table: Seq<(String, usize)>, n: int) -> bool {
    &&& forall|k: int|
        0 <= k < table.len() ==> #[trigger] table[k].1 < n && defines(
            lines,
            table[k].1 as int,
            table[k].0@,
        )
    &&& forall|i: int|
        0 <= i < n && i < lines.len() && #[trigger] label_text(lines[i]) is Some ==> exists|k: int|
            0 <= k < table.len() && #[trigger] table[k].1 == i
    &&& forall|k1: int, k2: int|
        0 <= k1 < k2 < table.len() ==> #[trigger] table[k1].1 < #[trigger] table[k2].1
}

/// A representation of a program.
#[derive(Debug)]
pub struct Program {
    /// The name of the program.
    pub(crate) name: String,
    /// The source code of the program, split by line.
    pub(crate) source: Vec<String>,
    /// The labels and the lines they are defined on, in line order.
    pub(crate) labels: Vec<(String, usize)>,
}

impl Program {
    /// The lines of the program.
    pub open(crate) spec fn lines(&self) -> Seq<Seq<char>> {
        line_views(self.source@)
    }

    /// The name of the program.
    pub open(crate) spec fn name_text(&self) -> Seq<char> {
        self.name@
    }

    /// The label table of the program.
    pub open(crate) spec fn label_table(&self) -> Seq<(String, usize)> {
        self.labels@
    }

    pub open(crate) spec fn wf(&self) -> bool {
        &&& !has_duplicate(self.lines())
        &&& self.lines().len() < usize::MAX
        &&& self.labels@.len() <= self.lines().len()
        &&& table_of(self.lines(), self.labels@, self.lines().len() as int)
    }

    /// The line on which `name` is defined, if any.
    pub open(crate) spec fn label_line(&self, name: Seq<char>) -> Option<int> {
        label_line(self.lines(), name)
    }

    /// Creates a new `Program` from its name and its normalized source lines.
    /// Fails on the first line that defines a label already defined above it.
    pub fn new(name: String, source: Vec<String>) -> (r: Result<Program, Error>)
        requires
            source@.len() < usize::MAX,
        ensures
            match r {
                Ok(p) => {
                    &&& !has_duplicate(line_views(source@))
                    &&& p.wf()
                    &&& p.lines() == line_views(source@)
                    &&& p.name_text() == name@
                },
                Err(e) => first_duplicate(line_views(source@), e),
            },
    {
        match Program::find_labels(&source) {
            Ok(labels) => Ok(Program { name, source, labels }),
            Err(e) => Err(e),
        }
    }

    /// Finds all the labels defined in the provided program, with the lines
    /// they are defined on.
    pub fn find_labels(source: &Vec<String>) -> (r: Result<Vec<(String, usize)>, Error>)
        ensures
            match r {
                Ok(table) => {
                    &&& !has_duplicate(line_views(source@))
                    &&& table@.len() <= source@.len()
                    &&& table_of(line_views(source@), table@, source@.len() as int)
                },
                Err(e) => first_duplicate(line_views(source@), e),
            },
    {
        let ghost lines = line_views(source@);
        let prefixes = label_prefix_table();
        let mut labels: Vec<(String, usize)> = Vec::new();
        let mut j: usize = 0;
        while j < source.len()
            invariant
                lines == line_views(source@),
                texts(prefixes@) == label_prefixes(),
                j <= source@.len(),
                labels@.len() <= j,
                table_of(lines, labels@, j as int),
                forall|a: int, b: int| #[trigger] collision(lines, a, b) ==> b >= j,
            decreases source@.len() - j,
        {
            let line = source[j].as_str();
            let n = line.unicode_len();
            assert(lines[j as int] == line@);
            match first_match_at(line, 0, &prefixes) {
                Some(k) => {
                    proof {
                        assert(line@.skip(0) =~= line@);
                        lemma_first_match(label_prefixes(), line@);
                        assert(prefixes@[k as int]@ == label_prefixes()[k as int]);
                    }
                    let len = prefixes[k].unicode_len();
                    let label = line.substring_char(len, n);
                    assert(label@ =~= skip_first_match(label_prefixes(), line@));
                    match find_entry(&labels, label) {
                        Some(e) => {
                            let previous = labels[e].1;
                            proof {
                                assert(collision(lines, previous as int, j as int));
                            }
                            return Err(
                                Error::new(
                                    ErrorKind::DuplicateLabel(label.to_owned(), previous),
                                    j,
                                ),
                            );
                        },
                        None => {
                            proof {
                                assert forall|a: int, b: int| #[trigger]
                                    collision(lines, a, b) implies b >= j + 1 by {
                                    if b == j {
                                        let kk = choose|kk: int|
                                            0 <= kk < labels@.len() && #[trigger] labels@[kk].1
                                                == a;
                                        assert(labels@[kk].0@ == label@);
                                    }
                                }
                            }
                            let ghost old_labels = labels@;
                            labels.push((label.to_owned(), j));
                            proof {
                                assert forall|i: int|
                                    0 <= i < j + 1 && i < lines.len() && #[trigger] label_text(
                                        lines[i],
                                    ) is Some implies exists|kk: int|
                                    0 <= kk < labels@.len() && #[trigger] labels@[kk].1 == i by {
                                    if i < j {
                                        let kk = choose|kk: int|
                                            0 <= kk < old_labels.len() && #[trigger] old_labels[kk].1
                                                == i;
                                        assert(labels@[kk].1 == i);
                                    } else {
                                        assert(labels@[old_labels.len() as int].1 == i);
                                    }
                                }
                            }
                        },
                    }
                },
                None => {
                    proof {
                        assert(line@.skip(0) =~= line@);
                    }
                },
            }
            j = j + 1;
        }
        Ok(labels)
    }

    /// The number of lines of the program.
    pub fn line_count(&self) -> (r: usize)
        ensures
            r == self.lines().len(),
    {
        self.source.len()
    }

    /// The line at 0-indexed position `i`.
    pub fn line(&self, i: usize) -> (r: &str)
        requires
            i < self.lines().len(),
        ensures
            r@ == self.lines()[i as int],
    {
        self.source[i].as_str()
    }

    /// The name of the program.
    pub fn name(&self) -> (r: &str)
        ensures
            r@ == self.name_text(),
    {
        self.name.as_str()
    }

    /// The labels of the program with their lines, in line order.
    pub fn labels(&self) -> (r: &Vec<(String, usize)>)
        ensures
            r@ == self.label_table(),
    {
        &self.labels
    }

    /// The index in the label table of the label `name`, if it is there.
    pub fn label_index(&self, name: &str) -> (r: Option<usize>)
        ensures
            match r {
                Some(k) => k < self.label_table().len() && self.label_table()[k as int].0@ == name@,
                None => forall|k: int|
                    0 <= k < self.label_table().len() ==> self.label_table()[k].0@ != name@,
            },
    {
        find_entry(&self.labels, name)
    }

    /// The line on which the label `name` is defined, if any.
    pub fn find_label(&self, name: &str) -> (r: Option<usize>)
        requires
            self.wf(),
        ensures
            match r {
                Some(i) => self.label_line(name@) == Some(i as int),
                None => self.label_line(name@) is None,
            },
    {
        match find_entry(&self.labels, name) {
            Some(k) => {
                let i = self.labels[k].1;
                proof {
                    assert(defines(self.lines(), i as int, name@));
                    let c = choose|c: int| defines(self.lines(), c, name@);
                    if c != i {
                        if c < i {
                            assert(collision(self.lines(), c, i as int));
                        } else {
                            assert(collision(self.lines(), i as int, c));
                        }
                    }
                }
                Some(i)
            },
            None => {
                proof {
                    if exists|c: int| defines(self.lines(), c, name@) {
                        let c = choose|c: int| defines(self.lines(), c, name@);
                        let kk = choose|kk: int|
                            0 <= kk < self.labels@.len() && #[trigger] self.labels@[kk].1 == c;
                        assert(self.labels@[kk].0@ == name@);
                    }
                }
                None
            },
        }
    }
}

/// `e` reports the first line that defines a label already defined above it,
/// together with the line of that earlier definition.
pub open spec fn first_duplicate(lines: Seq<Seq<char>>, e: Error) -> bool {
    match e.kind@ {
        ErrorModel::DuplicateLabel(name, previous) => {
            &&& collision(lines, previous, e.line_number as int)
            &&& label_text(lines[previous]) == Some(name)
            &&& forall|a: int, b: int| collision(lines, a, b) ==> b >= e.line_number
        },
        _ => false,
    }
}

/// Index of the entry of `table` for the label `name`, if any.
fn find_entry(table: &Vec<(String, usize)>, name: &str) -> (r: Option<usize>)
    ensures
        match r {
            Some(k) => k < table@.len() && table@[k as int].0@ == name@,
            None => forall|k: int| 0 <= k < table@.len() ==> table@[k].0@ != name@,
        },
{
    let mut k: usize = 0;
    while k < table.len()
        invariant
            k <= table@.len(),
            forall|kk: int| 0 <= kk < k ==> table@[kk].0@ != name@,
        decreases table@.len() - k,
    {
        if same_text(table[k].0.as_str(), name) {
            return Some(k);
        }
        k = k + 1;
    }
    None
}

/// In a well-formed program no two entries of the label table share a label.
pub proof fn lemma_label_names_distinct(p: &Program)
    requires
        p.wf(),
    ensures
        forall|k1: int, k2: int|
            0 <= k1 < p.label_table().len() && 0 <= k2 < p.label_table().len() && k1 != k2
                ==> #[trigger] p.label_table()[k1].0@ != #[trigger] p.label_table()[k2].0@,
{
    let t = p.label_table();
    assert forall|k1: int, k2: int|
        0 <= k1 < t.len() && 0 <= k2 < t.len() && k1 != k2 implies #[trigger] t[k1].0@
        != #[trigger] t[k2].0@ by {
        if t[k1].0@ == t[k2].0@ {
            if k1 < k2 {
                assert(collision(p.lines(), t[k1].1 as int, t[k2].1 as int));
            } else {
                assert(collision(p.lines(), t[k2].1 as int, t[k1].1 as int));
            }
        }
    }
}

} // verus!
