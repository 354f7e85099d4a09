//! The table that a `package.use` file declares: for each package name,
//! what the last directive for that name says.

use vstd::prelude::*;
use crate::line::{line_entry, parse_line};
use crate::name_map::NameMap;
use crate::package::{ConstraintView, PackageConstraint};

verus! {

/// The table after the lines `lines`, read from first to last: each line
/// that declares something puts it under its package's name, in place of
/// what an earlier line put there.
pub open spec fn table_of(lines: Seq<Seq<char>>) -> Map<Seq<char>, ConstraintView>
    decreases lines.len(),
{
    if lines.len() == 0 {
        Map::empty()
    } else {
        let before = table_of(lines.drop_last());
        match line_entry(lines.last()) {
            Some(c) => before.insert(c.package.name, c),
            None => before,
        }
    }
}

/// Whether `line` declares something for the package `name`.
pub open spec fn declares_for(line: Seq<char>, name: Seq<char>) -> bool {
    line_entry(line) is Some && line_entry(line)->Some_0.package.name == name
}

/// The views of the strings in `lines`.
pub open spec fn line_views(lines: Seq<String>) -> Seq<Seq<char>> {
    lines.map_values(|l: String| l@)
}

/// A table from package names to what was declared for them.
#[derive(Debug)]
pub struct PackageTable {
    entries: NameMap<PackageConstraint>,
}

impl View for PackageTable {
    type V = Map<Seq<char>, ConstraintView>;

    closed spec fn view(&self) -> Map<Seq<char>, ConstraintView> {
        self.entries@.map_values(|c: PackageConstraint| c@)
    }
}

impl PackageTable {
    /// The table without entries.
    pub fn new() -> (t: Self)
        ensures
            t@ == Map::<Seq<char>, ConstraintView>::empty(),
    {
        let t = PackageTable { entries: NameMap::new() };
        assert(t@ =~= Map::<Seq<char>, ConstraintView>::empty());
        t
    }

    /// The number of packages in the table.
    pub fn len(&self) -> (n: usize)
        ensures
            self@.dom().finite(),
            n == self@.dom().len(),
    {
        assert(self@.dom() =~= self.entries@.dom());
        self.entries.len()
    }

    /// Whether the table holds an entry for the package `name`.
    pub fn contains_key(&self, name: &str) -> (b: bool)
        ensures
            b == self@.contains_key(name@),
    {
        self.entries.contains_key(name)
    }

    /// What was declared for the package `name`, if anything.
    pub fn get(&self, name: &str) -> (r: Option<&PackageConstraint>)
        ensures
            r is Some == self@.contains_key(name@),
            r is Some ==> r->Some_0@ == self@[name@],
    {
        self.entries.get(name)
    }

    /// The names of the packages in the table, each once, in no order
    /// that callers may rely on.
    pub fn names(&self) -> (names: Vec<&str>)
        ensures
            self@.dom().finite(),
            names@.len() == self@.dom().len(),
            forall|i: int| 0 <= i < names@.len() ==> self@.contains_key(#[trigger] names@[i]@),
            forall|k: Seq<char>|
                self@.contains_key(k) ==> exists|i: int|
                    0 <= i < names@.len() && (#[trigger] names@[i])@ == k,
            forall|i: int, j: int|
                0 <= i < names@.len() && 0 <= j < names@.len() && i != j ==> (#[trigger] names@[i])@
                    != (#[trigger] names@[j])@,
    {
        assert(self@.dom() =~= self.entries@.dom());
        self.entries.keys()
    }

    /// Puts `entry` under the name of its package, in place of what was
    /// there before.
    pub fn insert(&mut self, entry: PackageConstraint)
        ensures
            final(self)@ == old(self)@.insert(entry@.package.name, entry@),
    {
        let name = entry.package.name.clone();
        self.entries.insert(name, entry);
        assert(final(self)@ =~= old(self)@.insert(entry@.package.name, entry@));
    }
}

/// Reads the lines of a `package.use` file into a table. Lines that
/// declare nothing are passed over.
pub fn parse_lines(lines: &Vec<String>) -> (t: PackageTable)
    ensures
        t@ == table_of(line_views(lines@)),
{
    let ghost views = line_views(lines@);
    let mut t = PackageTable::new();
    let mut i: usize = 0;
    while i < lines.len()
        invariant
            i <= lines.len(),
            views == line_views(lines@),
            t@ == table_of(views.subrange(0, i as int)),
        decreases lines.len() - i,
    {
        proof {
            let next = views.subrange(0, i + 1);
            assert(next.drop_last() == views.subrange(0, i as int));
            assert(next.last() == lines@[i as int]@);
        }
        match parse_line(lines[i].as_str()) {
            Some(entry) => {
                t.insert(entry);
            },
            None => {},
        }
        i = i + 1;
    }
    assert(views.subrange(0, lines.len() as int) == views);
    t
}

/// Reading the same lines twice gives the same table: whatever two runs
/// of `parse_lines` return for lines that read alike, the tables are
/// equal.
pub proof fn lemma_parse_is_repeatable(
    first_lines: &Vec<String>,
    second_lines: &Vec<String>,
    first: PackageTable,
    second: PackageTable,
)
    requires
        line_views(first_lines@) == line_views(second_lines@),
        call_ensures(parse_lines, (first_lines,), first),
        call_ensures(parse_lines, (second_lines,), second),
    ensures
        first@ == second@,
{
}

/// The table holds a name exactly when some line declares something for
/// it.
pub proof fn lemma_table_names(lines: Seq<Seq<char>>, name: Seq<char>)
    ensures
        table_of(lines).contains_key(name) <==> exists|i: int|
            0 <= i < lines.len() && declares_for(#[trigger] lines[i], name),
    decreases lines.len(),
{
    if lines.len() > 0 {
        let front = lines.drop_last();
        lemma_table_names(front, name);
        if table_of(lines).contains_key(name) {
            if table_of(front).contains_key(name) {
                let i = choose|i: int| 0 <= i < front.len() && declares_for(#[trigger] front[i], name);
                assert(declares_for(lines[i], name));
            } else {
                assert(declares_for(lines[lines.len() - 1], name));
            }
        }
        if exists|i: int| 0 <= i < lines.len() && declares_for(#[trigger] lines[i], name) {
            let i = choose|i: int| 0 <= i < lines.len() && declares_for(#[trigger] lines[i], name);
            if i < front.len() {
                assert(declares_for(front[i], name));
            }
        }
    }
}

/// The last line for a name wins: where line `i` declares something and no
/// later line declares anything for the same name, the table holds under
/// that name what line `i` declares, whole, and nothing of an earlier line.
pub proof fn lemma_last_line_wins(lines: Seq<Seq<char>>, i: int)
    requires
        0 <= i < lines.len(),
        line_entry(lines[i]) is Some,
        forall|j: int|
            i < j < lines.len() ==> !declares_for(
                #[trigger] lines[j],
                line_entry(lines[i])->Some_0.package.name,
            ),
    ensures
        table_of(lines).contains_key(line_entry(lines[i])->Some_0.package.name),
        table_of(lines)[line_entry(lines[i])->Some_0.package.name] == line_entry(
            lines[i],
        )->Some_0,
    decreases lines.len(),
{
    let name = line_entry(lines[i])->Some_0.package.name;
    if i < lines.len() - 1 {
        let front = lines.drop_last();
        assert(!declares_for(lines[lines.len() - 1], name));
        assert forall|j: int| i < j < front.len() implies !declares_for(
            #[trigger] front[j],
            name,
        ) by {
            assert(front[j] == lines[j]);
        }
        lemma_last_line_wins(front, i);
    }
}

} // verus!
