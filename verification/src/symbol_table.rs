//! The symbol table: every definition of a module by its path, with the
//! paths from which it is used.

use crate::ast::{clone_path, path_view, PathView, Symbol};
use vstd::prelude::*;

verus! {

/// What the table knows of the paths: for every definition the set of
/// paths that use it.
pub type TableView = Map<PathView, Set<PathView>>;

/// Whether two path segments are the same.
pub fn symbol_eq(a: &Symbol, b: &Symbol) -> (same: bool)
    ensures
        same == (a@ == b@),
{
    match (a, b) {
        (Symbol::Anon(), Symbol::Anon()) => true,
        (Symbol::Named(x), Symbol::Named(y)) => *x == *y,
        _ => false,
    }
}

/// Whether two paths are the same.
pub fn path_eq(a: &Vec<Symbol>, b: &Vec<Symbol>) -> (same: bool)
    ensures
        same == (path_view(a@) == path_view(b@)),
{
    if a.len() != b.len() {
        assert(path_view(a@).len() != path_view(b@).len());
        return false;
    }
    let mut i: usize = 0;
    while i < a.len()
        invariant
            a.len() == b.len(),
            i <= a.len(),
            forall|j: int| 0 <= j < i ==> a[j]@ == b[j]@,
        decreases a.len() - i,
    {
        if !symbol_eq(&a[i], &b[i]) {
            assert(path_view(a@)[i as int] != path_view(b@)[i as int]);
            return false;
        }
        i += 1;
    }
    assert(path_view(a@) =~= path_view(b@));
    true
}

/// A definition and the places that use it.
#[derive(Debug, PartialEq, Eq)]
pub struct Entry {
    pub path: Vec<Symbol>,
    pub uses: Vec<Vec<Symbol>>,
}

/// The set of the paths in a list of paths.
pub open spec fn paths_view(paths: Seq<Vec<Symbol>>) -> Set<PathView> {
    Set::new(|p: PathView| exists|i: int| 0 <= i < paths.len() && path_view(paths[i]@) == p)
}

/// The uses of the first entry for `path` in a list of entries.
pub open spec fn find_uses(entries: Seq<Entry>, path: PathView) -> Option<Set<PathView>>
    decreases entries.len(),
{
    if entries.len() == 0 {
        None
    } else if path_view(entries[0].path@) == path {
        Some(paths_view(entries[0].uses@))
    } else {
        find_uses(entries.subrange(1, entries.len() as int), path)
    }
}

/// The table that a list of entries stands for.
pub open spec fn table_view(entries: Seq<Entry>) -> TableView {
    Map::new(
        |path: PathView| find_uses(entries, path) is Some,
        |path: PathView| find_uses(entries, path).unwrap(),
    )
}

/// The symbol table of a module. Entries are made on first reference and
/// never leave; the uses of an entry only grow.
#[derive(Debug, PartialEq, Eq)]
pub struct Table {
    pub entries: Vec<Entry>,
}

impl View for Table {
    type V = TableView;

    open spec fn view(&self) -> TableView {
        table_view(self.entries@)
    }
}

/// `later` holds every definition and every use that `earlier` holds.
pub open spec fn table_grows(earlier: TableView, later: TableView) -> bool {
    forall|path: PathView| #[trigger]
        earlier.contains_key(path) ==> later.contains_key(path) && earlier[path].subset_of(
            later[path],
        )
}

/// The table with an entry for `path`, made if there was none.
pub open spec fn with_entry(table: TableView, path: PathView) -> TableView {
    if table.contains_key(path) {
        table
    } else {
        table.insert(path, Set::empty())
    }
}

/// The table with `user` among the uses of `path`, which it holds.
pub open spec fn with_use(table: TableView, path: PathView, user: PathView) -> TableView {
    table.insert(path, table[path].insert(user))
}

proof fn lemma_find_uses_skips(entries: Seq<Entry>, path: PathView, checked: int)
    requires
        0 <= checked <= entries.len(),
        forall|j: int| 0 <= j < checked ==> path_view(entries[j].path@) != path,
    ensures
        find_uses(entries, path) == find_uses(
            entries.subrange(checked, entries.len() as int),
            path,
        ),
    decreases checked,
{
    if checked == 0 {
        assert(entries.subrange(0, entries.len() as int) =~= entries);
    } else {
        let rest = entries.subrange(1, entries.len() as int);
        assert forall|j: int| 0 <= j < checked - 1 implies path_view(rest[j].path@) != path by {
            assert(rest[j] == entries[j + 1]);
        }
        lemma_find_uses_skips(rest, path, checked - 1);
        assert(rest.subrange(checked - 1, rest.len() as int) =~= entries.subrange(
            checked,
            entries.len() as int,
        ));
    }
}

/// An entry added at the end is found only where no earlier entry is.
proof fn lemma_find_uses_push(entries: Seq<Entry>, entry: Entry, path: PathView)
    ensures
        find_uses(entries.push(entry), path) == if find_uses(entries, path) is Some {
            find_uses(entries, path)
        } else if path_view(entry.path@) == path {
            Some(paths_view(entry.uses@))
        } else {
            None
        },
    decreases entries.len(),
{
    let longer = entries.push(entry);
    if entries.len() == 0 {
        assert(longer.subrange(1, longer.len() as int) =~= Seq::<Entry>::empty());
        assert(find_uses(Seq::<Entry>::empty(), path) is None);
        assert(find_uses(entries, path) is None);
    } else {
        assert(longer[0] == entries[0]);
        let rest = entries.subrange(1, entries.len() as int);
        assert(longer.subrange(1, longer.len() as int) =~= rest.push(entry));
        lemma_find_uses_push(rest, entry, path);
    }
}

/// Replacing the uses of the entry at `index`, the first for its path,
/// changes what is found for that path and nothing else.
proof fn lemma_find_uses_update(
    entries: Seq<Entry>,
    index: int,
    entry: Entry,
    path: PathView,
)
    requires
        0 <= index < entries.len(),
        entry.path == entries[index].path,
        forall|j: int| 0 <= j < index ==> path_view(entries[j].path@) != path_view(entry.path@),
    ensures
        find_uses(entries.update(index, entry), path) == if path == path_view(entry.path@) {
            Some(paths_view(entry.uses@))
        } else {
            find_uses(entries, path)
        },
    decreases index,
{
    let updated = entries.update(index, entry);
    let rest = entries.subrange(1, entries.len() as int);
    if index == 0 {
        assert(updated.subrange(1, updated.len() as int) =~= rest);
    } else {
        assert(updated[0] == entries[0]);
        assert(path_view(entries[0].path@) != path_view(entry.path@));
        assert forall|j: int| 0 <= j < index - 1 implies path_view(rest[j].path@) != path_view(
            entry.path@,
        ) by {
            assert(rest[j] == entries[j + 1]);
        }
        assert(rest[index - 1] == entries[index]);
        lemma_find_uses_update(rest, index - 1, entry, path);
        assert(updated.subrange(1, updated.len() as int) =~= rest.update(index - 1, entry));
    }
}

impl Table {
    /// A table without entries.
    pub fn new() -> (table: Table)
        ensures
            table@ == Map::<PathView, Set<PathView>>::empty(),
    {
        let table = Table { entries: Vec::new() };
        assert(table@ =~= Map::<PathView, Set<PathView>>::empty());
        table
    }

    /// The place of the first entry for `path`.
    fn position(&self, path: &Vec<Symbol>) -> (found: Option<usize>)
        ensures
            match found {
                Some(index) => {
                    &&& index < self.entries.len()
                    &&& path_view(self.entries[index as int].path@) == path_view(path@)
                    &&& forall|j: int|
                        0 <= j < index ==> path_view(self.entries[j].path@) != path_view(path@)
                    &&& self@.contains_key(path_view(path@))
                    &&& self@[path_view(path@)] == paths_view(self.entries[index as int].uses@)
                },
                None => !self@.contains_key(path_view(path@)),
            },
    {
        let mut i: usize = 0;
        while i < self.entries.len()
            invariant
                i <= self.entries.len(),
                forall|j: int| 0 <= j < i ==> path_view(self.entries[j].path@) != path_view(path@),
            decreases self.entries.len() - i,
        {
            if path_eq(&self.entries[i].path, path) {
                proof {
                    lemma_find_uses_skips(self.entries@, path_view(path@), i as int);
                    assert(self.entries@.subrange(i as int, self.entries@.len() as int)[0]
                        == self.entries@[i as int]);
                }
                return Some(i);
            }
            i += 1;
        }
        proof {
            lemma_find_uses_skips(self.entries@, path_view(path@), i as int);
        }
        None
    }

    /// Whether the table holds a definition at `path`.
    pub fn contains(&self, path: &Vec<Symbol>) -> (held: bool)
        ensures
            held == self@.contains_key(path_view(path@)),
    {
        self.position(path).is_some()
    }

    /// The entry for `path`, if the table holds one.
    pub fn find(&self, path: &Vec<Symbol>) -> (found: Option<&Entry>)
        ensures
            match found {
                Some(entry) => {
                    &&& self@.contains_key(path_view(path@))
                    &&& path_view(entry.path@) == path_view(path@)
                    &&& paths_view(entry.uses@) == self@[path_view(path@)]
                },
                None => !self@.contains_key(path_view(path@)),
            },
    {
        match self.position(path) {
            Some(index) => Some(&self.entries[index]),
            None => None,
        }
    }

    /// Whether nothing uses the definition at `path`; `None` where the
    /// table holds no such definition.
    pub fn is_unused(&self, path: &Vec<Symbol>) -> (unused: Option<bool>)
        ensures
            match unused {
                Some(none) => self@.contains_key(path_view(path@)) && none == (self@[path_view(
                    path@,
                )] =~= Set::<PathView>::empty()),
                None => !self@.contains_key(path_view(path@)),
            },
    {
        match self.position(path) {
            Some(index) => {
                let none = self.entries[index].uses.len() == 0;
                proof {
                    let uses = self.entries[index as int].uses@;
                    if !none {
                        assert(paths_view(uses).contains(path_view(uses[0]@)));
                    }
                }
                Some(none)
            },
            None => None,
        }
    }

    /// Makes an entry for `path` unless the table holds one.
    pub fn get_mut(&mut self, path: &Vec<Symbol>)
        ensures
            final(self)@ == with_entry(old(self)@, path_view(path@)),
    {
        if self.position(path).is_none() {
            let ghost before = self.entries@;
            let entry = Entry { path: clone_path(path), uses: Vec::new() };
            self.entries.push(entry);
            proof {
                assert(paths_view(entry.uses@) =~= Set::<PathView>::empty());
                assert forall|p: PathView|
                    find_uses(before.push(entry), p) == if find_uses(before, p) is Some {
                        find_uses(before, p)
                    } else if path_view(entry.path@) == p {
                        Some(paths_view(entry.uses@))
                    } else {
                        None
                    } by {
                    lemma_find_uses_push(before, entry, p);
                }
                assert(self@ =~= with_entry(old(self)@, path_view(path@)));
            }
        }
    }

    /// Records that the definition at `path` is used from `user`. Where
    /// the table holds no such definition it stays as it is, and the
    /// result is `false`.
    pub fn add_use(&mut self, path: &Vec<Symbol>, user: &Vec<Symbol>) -> (held: bool)
        ensures
            held == old(self)@.contains_key(path_view(path@)),
            final(self)@ == if held {
                with_use(old(self)@, path_view(path@), path_view(user@))
            } else {
                old(self)@
            },
    {
        match self.position(path) {
            None => false,
            Some(index) => {
                let ghost before = self.entries@;
                let mut known = false;
                let mut i: usize = 0;
                while i < self.entries[index].uses.len()
                    invariant
                        index < self.entries.len(),
                        self.entries@ == before,
                        i <= self.entries[index as int].uses.len(),
                        known ==> paths_view(self.entries[index as int].uses@).contains(
                            path_view(user@),
                        ),
                        !known ==> forall|j: int|
                            0 <= j < i ==> path_view(self.entries[index as int].uses[j]@)
                                != path_view(user@),
                    decreases self.entries[index as int].uses.len() - i,
                {
                    if path_eq(&self.entries[index].uses[i], user) {
                        known = true;
                    }
                    i += 1;
                }
                let ghost old_uses = paths_view(before[index as int].uses@);
                if known {
                    assert(old_uses.insert(path_view(user@)) =~= old_uses);
                    assert(self@ =~= with_use(old(self)@, path_view(path@), path_view(user@)));
                } else {
                    let mut uses: Vec<Vec<Symbol>> = Vec::new();
                    let mut k: usize = 0;
                    while k < self.entries[index].uses.len()
                        invariant
                            index < self.entries.len(),
                            self.entries@ == before,
                            k <= self.entries[index as int].uses.len(),
                            uses.len() == k,
                            forall|j: int|
                                0 <= j < k ==> path_view(uses[j]@) == path_view(
                                    self.entries[index as int].uses[j]@,
                                ),
                        decreases self.entries[index as int].uses.len() - k,
                    {
                        uses.push(clone_path(&self.entries[index].uses[k]));
                        k += 1;
                    }
                    uses.push(clone_path(user));
                    let entry = Entry { path: clone_path(&self.entries[index].path), uses };
                    proof {
                        let prior = before[index as int].uses@;
                        assert forall|p: PathView|
                            paths_view(entry.uses@).contains(p) == old_uses.insert(
                                path_view(user@),
                            ).contains(p) by {
                            if paths_view(entry.uses@).contains(p) {
                                let w = choose|w: int|
                                    0 <= w < entry.uses@.len() && path_view(entry.uses@[w]@) == p;
                                if w < prior.len() {
                                    assert(path_view(prior[w]@) == p);
                                }
                            }
                            if old_uses.contains(p) {
                                let w = choose|w: int|
                                    0 <= w < prior.len() && path_view(prior[w]@) == p;
                                assert(path_view(entry.uses@[w]@) == p);
                            }
                            if p == path_view(user@) {
                                assert(path_view(entry.uses@[prior.len() as int]@) == p);
                            }
                        }
                        assert(paths_view(entry.uses@) =~= old_uses.insert(path_view(user@)));
                    }
                    self.replace(index, entry);
                }
                true
            },
        }
    }

    /// Puts `entry` in the place of the first entry for its path.
    fn replace(&mut self, index: usize, entry: Entry)
        requires
            index < old(self).entries.len(),
            path_view(entry.path@) == path_view(old(self).entries[index as int].path@),
            forall|j: int|
                0 <= j < index ==> path_view(old(self).entries[j].path@) != path_view(entry.path@),
        ensures
            final(self)@ == old(self)@.insert(path_view(entry.path@), paths_view(entry.uses@)),
    {
        let ghost before = self.entries@;
        let ghost same_path = Entry { path: before[index as int].path, uses: entry.uses };
        self.entries.set(index, entry);
        proof {
            assert forall|p: PathView|
                find_uses(self.entries@, p) == if p == path_view(entry.path@) {
                    Some(paths_view(entry.uses@))
                } else {
                    find_uses(before, p)
                } by {
                lemma_find_uses_update(before, index as int, same_path, p);
                lemma_find_uses_same_views(before.update(index as int, same_path), self.entries@, p);
            }
            assert(self@ =~= old(self)@.insert(path_view(entry.path@), paths_view(entry.uses@)));
        }
    }
}

/// Lists of entries with the same paths and uses stand for the same table.
proof fn lemma_find_uses_same_views(a: Seq<Entry>, b: Seq<Entry>, path: PathView)
    requires
        a.len() == b.len(),
        forall|j: int|
            0 <= j < a.len() ==> path_view(a[j].path@) == path_view(b[j].path@) && paths_view(
                a[j].uses@,
            ) == paths_view(b[j].uses@),
    ensures
        find_uses(a, path) == find_uses(b, path),
    decreases a.len(),
{
    if a.len() > 0 {
        let rest_a = a.subrange(1, a.len() as int);
        let rest_b = b.subrange(1, b.len() as int);
        assert forall|j: int| 0 <= j < rest_a.len() implies path_view(rest_a[j].path@)
            == path_view(rest_b[j].path@) && paths_view(rest_a[j].uses@) == paths_view(
            rest_b[j].uses@,
        ) by {
            assert(rest_a[j] == a[j + 1]);
            assert(rest_b[j] == b[j + 1]);
        }
        lemma_find_uses_same_views(rest_a, rest_b, path);
    }
}

impl Clone for Entry {
    fn clone(&self) -> (copy: Entry)
        ensures
            path_view(copy.path@) == path_view(self.path@),
            paths_view(copy.uses@) == paths_view(self.uses@),
    {
        let mut uses: Vec<Vec<Symbol>> = Vec::new();
        let mut k: usize = 0;
        while k < self.uses.len()
            invariant
                k <= self.uses.len(),
                uses.len() == k,
                forall|j: int| 0 <= j < k ==> path_view(uses[j]@) == path_view(self.uses[j]@),
            decreases self.uses.len() - k,
        {
            uses.push(clone_path(&self.uses[k]));
            k += 1;
        }
        proof {
            assert forall|p: PathView| paths_view(uses@).contains(p) == paths_view(
                self.uses@,
            ).contains(p) by {
                if paths_view(uses@).contains(p) {
                    let w = choose|w: int| 0 <= w < uses@.len() && path_view(uses@[w]@) == p;
                    assert(path_view(self.uses@[w]@) == p);
                }
                if paths_view(self.uses@).contains(p) {
                    let w = choose|w: int|
                        0 <= w < self.uses@.len() && path_view(self.uses@[w]@) == p;
                    assert(path_view(uses@[w]@) == p);
                }
            }
            assert(paths_view(uses@) =~= paths_view(self.uses@));
        }
        Entry { path: clone_path(&self.path), uses }
    }
}

impl Clone for Table {
    fn clone(&self) -> (copy: Table)
        ensures
            copy@ == self@,
    {
        let mut entries: Vec<Entry> = Vec::new();
        let mut k: usize = 0;
        while k < self.entries.len()
            invariant
                k <= self.entries.len(),
                entries.len() == k,
                forall|j: int|
                    0 <= j < k ==> path_view(entries[j].path@) == path_view(
                        self.entries[j].path@,
                    ) && paths_view(entries[j].uses@) == paths_view(self.entries[j].uses@),
            decreases self.entries.len() - k,
        {
            entries.push(self.entries[k].clone());
            k += 1;
        }
        let copy = Table { entries };
        proof {
            assert forall|p: PathView| find_uses(copy.entries@, p) == find_uses(
                self.entries@,
                p,
            ) by {
                lemma_find_uses_same_views(copy.entries@, self.entries@, p);
            }
            assert(copy@ =~= self@);
        }
        copy
    }
}

impl Default for Table {
    fn default() -> (table: Table)
        ensures
            table@ == Map::<PathView, Set<PathView>>::empty(),
    {
        Table::new()
    }
}

/// A table that has grown and grows again has grown.
pub proof fn lemma_grows_on(first: TableView, second: TableView, third: TableView)
    requires
        table_grows(first, second),
        table_grows(second, third),
    ensures
        table_grows(first, third),
{
    assert forall|path: PathView| #[trigger] first.contains_key(path) implies third.contains_key(
        path,
    ) && first[path].subset_of(third[path]) by {
        assert(second.contains_key(path));
        assert forall|user: PathView| first[path].contains(user) implies third[path].contains(
            user,
        ) by {
            assert(second[path].contains(user));
        }
    }
}

/// A table with one more entry or one more use has grown.
pub proof fn lemma_grows_by_one(table: TableView, path: PathView, user: PathView)
    ensures
        table_grows(table, with_entry(table, path)),
        table.contains_key(path) ==> table_grows(table, with_use(table, path, user)),
{
}

} // verus!
