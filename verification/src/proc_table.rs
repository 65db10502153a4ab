//! The table of running processes.

use std::collections::hash_map::DefaultHasher;
use std::collections::HashMap;
use std::hash::Hasher;

use vstd::prelude::*;
use vstd::std_specs::hash::DefaultHasherAdditionalSpecFns;
use vstd::utf8::encode_utf8;

use crate::text::{copy_text, fold, fold_is_idempotent, to_ascii_lowercase};

verus! {

broadcast use vstd::std_specs::hash::group_hash_axioms;

/// What the table knows of a process, but for its name.
#[derive(Clone, Copy, PartialEq, Eq, Debug, Default, Structural)]
pub struct ProcMeta {
    pub pid: u32,
    pub name_hash: u64,
    pub is_game: bool,
}

/// The hash of a process name: that of its ASCII lower-case form, closed by a
/// byte that no UTF-8 text holds.
pub open spec fn hash_of(name: Seq<char>) -> u64 {
    DefaultHasher::spec_finish(seq![encode_utf8(fold(name)), seq![0xffu8]])
}

pub fn name_hash(name: &str) -> (r: u64)
    ensures
        r == hash_of(name@),
{
    let low = to_ascii_lowercase(name);
    let end: [u8; 1] = [0xff];
    let mut h = DefaultHasher::new();
    h.write(low.as_str().as_bytes());
    h.write(end.as_slice());
    assert(end@ =~= seq![0xffu8]);
    assert(h@ =~= seq![encode_utf8(fold(name@)), seq![0xffu8]]);
    h.finish()
}

/// Names that differ in ASCII case alone have the same hash.
pub proof fn hash_ignores_case(a: Seq<char>, b: Seq<char>)
    requires
        fold(a) == fold(b),
    ensures
        hash_of(a) == hash_of(b),
{
}

/// A name and its lower-case form have the same hash.
pub proof fn hash_of_folded(a: Seq<char>)
    ensures
        hash_of(fold(a)) == hash_of(a),
{
    fold_is_idempotent(a);
}

/// The contents of a process table.
pub struct TableView {
    /// One row per process, in table order.
    pub rows: Seq<ProcMeta>,
    /// The recorded names.
    pub names: Map<u32, Seq<char>>,
}

impl TableView {
    /// A table without processes.
    pub open spec fn empty() -> TableView {
        TableView { rows: Seq::empty(), names: Map::empty() }
    }

    /// Row `i` is the first one of `pid`.
    pub open spec fn is_row_of(self, pid: u32, i: int) -> bool {
        &&& 0 <= i < self.rows.len()
        &&& self.rows[i].pid == pid
        &&& forall|j: int| 0 <= j < i ==> (#[trigger] self.rows[j]).pid != pid
    }

    /// Some row is of `pid`.
    pub open spec fn has(self, pid: u32) -> bool {
        exists|i: int| self.is_row_of(pid, i)
    }

    /// The index of the first row of `pid`.
    pub open spec fn row_of(self, pid: u32) -> int {
        choose|i: int| self.is_row_of(pid, i)
    }

    /// What is known of `pid`.
    pub open spec fn meta(self, pid: u32) -> Option<ProcMeta> {
        if self.has(pid) {
            Some(self.rows[self.row_of(pid)])
        } else {
            None
        }
    }

    /// The name recorded for `pid`; the empty text where there is none.
    pub open spec fn name_or_empty(self, pid: u32) -> Seq<char> {
        if self.names.contains_key(pid) {
            self.names[pid]
        } else {
            Seq::empty()
        }
    }

    /// The table as pids, names and game flags, in table order.
    pub open spec fn listing(self) -> Seq<(u32, Seq<char>, bool)> {
        Seq::new(
            self.rows.len(),
            |i: int| (self.rows[i].pid, self.name_or_empty(self.rows[i].pid), self.rows[i].is_game),
        )
    }

    /// The table after a process was seen: a process that is known under a name
    /// of the same hash has its game flag set, any other gets a new row.
    pub open spec fn upserted(self, pid: u32, name: Seq<char>, is_game: bool) -> TableView {
        if self.has(pid) && self.rows[self.row_of(pid)].name_hash == hash_of(name) {
            let i = self.row_of(pid);
            TableView {
                rows: self.rows.update(i, (ProcMeta { is_game, ..self.rows[i] })),
                names: self.names,
            }
        } else {
            TableView {
                rows: self.rows.push((ProcMeta { pid, name_hash: hash_of(name), is_game })),
                names: self.names.insert(pid, name),
            }
        }
    }

    /// The table after a process left: the last row takes the place of its
    /// first row, and its name is dropped.
    pub open spec fn removed(self, pid: u32) -> TableView {
        if self.has(pid) {
            TableView {
                rows: self.rows.update(self.row_of(pid), self.rows.last()).drop_last(),
                names: self.names.remove(pid),
            }
        } else {
            self
        }
    }

    /// Each named process has a row.
    pub open spec fn names_have_rows(self) -> bool {
        forall|pid: u32| #[trigger] self.names.contains_key(pid) ==> self.has(pid)
    }

    pub proof fn first_row_is_unique(self, pid: u32, i: int)
        requires
            self.is_row_of(pid, i),
        ensures
            self.has(pid),
            self.row_of(pid) == i,
    {
        let k = self.row_of(pid);
        assert(self.is_row_of(pid, k));
        if k < i {
            assert(self.rows[k].pid != pid);
        } else if i < k {
            assert(self.rows[i].pid != pid);
        }
    }

    /// A pid that stands in some row has a first row.
    pub proof fn some_row_means_first_row(self, pid: u32, i: int)
        requires
            0 <= i < self.rows.len(),
            self.rows[i].pid == pid,
        ensures
            self.has(pid),
            self.row_of(pid) <= i,
        decreases i,
    {
        if exists|j: int| 0 <= j < i && (#[trigger] self.rows[j]).pid == pid {
            let j = choose|j: int| 0 <= j < i && (#[trigger] self.rows[j]).pid == pid;
            self.some_row_means_first_row(pid, j);
        } else {
            assert(self.is_row_of(pid, i));
            self.first_row_is_unique(pid, i);
        }
    }
}

/// A process that was just seen is in the table under its name, unless it was
/// already known under a name of the same hash; other processes are untouched.
pub proof fn upsert_then_lookup(t: TableView, pid: u32, name: Seq<char>, is_game: bool)
    ensures
        t.upserted(pid, name, is_game).has(pid),
        !t.has(pid) ==> t.upserted(pid, name, is_game).meta(pid) == Some(
            ProcMeta { pid, name_hash: hash_of(name), is_game },
        ),
        !t.has(pid) ==> t.upserted(pid, name, is_game).name_or_empty(pid) == name,
        forall|other: u32|
            other != pid ==> #[trigger] t.upserted(pid, name, is_game).meta(other) == t.meta(other),
        forall|other: u32|
            other != pid ==> #[trigger] t.upserted(pid, name, is_game).name_or_empty(other)
                == t.name_or_empty(other),
{
    let u = t.upserted(pid, name, is_game);
    if t.has(pid) && t.rows[t.row_of(pid)].name_hash == hash_of(name) {
        let i = t.row_of(pid);
        assert(t.is_row_of(pid, i));
        assert(u.is_row_of(pid, i));
        assert forall|other: u32| other != pid implies #[trigger] u.meta(other) == t.meta(other) by {
            if t.has(other) {
                let k = t.row_of(other);
                assert(t.is_row_of(other, k));
                assert(u.is_row_of(other, k));
                u.first_row_is_unique(other, k);
            }
            if u.has(other) {
                let k = u.row_of(other);
                assert(u.is_row_of(other, k));
                assert forall|j: int| 0 <= j < k implies (#[trigger] t.rows[j]).pid != other by {
                    assert(u.rows[j].pid != other);
                }
                assert(t.is_row_of(other, k));
            }
        }
    } else {
        let n = t.rows.len() as int;
        u.some_row_means_first_row(pid, n);
        if !t.has(pid) {
            let k = u.row_of(pid);
            assert(u.is_row_of(pid, k));
            if k < n {
                t.some_row_means_first_row(pid, k);
            }
        }
        assert forall|other: u32| other != pid implies #[trigger] u.meta(other) == t.meta(other) by {
            if t.has(other) {
                let k = t.row_of(other);
                assert(t.is_row_of(other, k));
                assert(u.is_row_of(other, k));
                u.first_row_is_unique(other, k);
            }
            if u.has(other) {
                let k = u.row_of(other);
                assert(u.is_row_of(other, k));
                assert forall|j: int| 0 <= j < k implies (#[trigger] t.rows[j]).pid != other by {
                    assert(u.rows[j].pid != other);
                }
                assert(t.is_row_of(other, k));
            }
        }
    }
}

/// After a process left, a process with a single row is unknown, and other
/// processes keep their names and stay in the table.
pub proof fn remove_then_lookup(t: TableView, pid: u32)
    ensures
        !t.removed(pid).names.contains_key(pid) || !t.has(pid),
        (forall|i: int, j: int|
            0 <= i < t.rows.len() && 0 <= j < t.rows.len() && t.rows[i].pid == pid
                && t.rows[j].pid == pid ==> i == j) ==> !t.removed(pid).has(pid),
        forall|other: u32|
            other != pid ==> {
                &&& #[trigger] t.removed(pid).has(other) <==> t.has(other)
                &&& t.removed(pid).name_or_empty(other) == t.name_or_empty(other)
            },
{
    let u = t.removed(pid);
    if t.has(pid) {
        let k = t.row_of(pid);
        let last = t.rows.len() - 1;
        assert(t.is_row_of(pid, k));
        assert forall|other: u32| other != pid implies (#[trigger] u.has(other) <==> t.has(other))
            && u.name_or_empty(other) == t.name_or_empty(other) by {
            if t.has(other) {
                let i = t.row_of(other);
                assert(t.is_row_of(other, i));
                if i == last {
                    assert(u.rows[k].pid == other);
                    u.some_row_means_first_row(other, k);
                } else {
                    assert(u.rows[i].pid == other);
                    u.some_row_means_first_row(other, i);
                }
            }
            if u.has(other) {
                let i = u.row_of(other);
                assert(u.is_row_of(other, i));
                if i == k {
                    t.some_row_means_first_row(other, last);
                } else {
                    t.some_row_means_first_row(other, i);
                }
            }
        }
        if u.has(pid) {
            let i = u.row_of(pid);
            assert(u.is_row_of(pid, i));
            if i == k {
                assert(t.rows[last].pid == pid && last != k);
            } else {
                assert(t.rows[i].pid == pid && i != k);
            }
        }
    }
}

/// Every name in the table belongs to a row, whatever is recorded or removed.
pub proof fn names_keep_rows(t: TableView, pid: u32, name: Seq<char>, is_game: bool)
    requires
        t.names_have_rows(),
    ensures
        t.upserted(pid, name, is_game).names_have_rows(),
        t.removed(pid).names_have_rows(),
{
    upsert_then_lookup(t, pid, name, is_game);
    let u = t.upserted(pid, name, is_game);
    assert forall|p: u32| #[trigger] u.names.contains_key(p) implies u.has(p) by {
        if p != pid {
            assert(u.name_or_empty(p) == t.name_or_empty(p));
            assert(t.names.contains_key(p));
            assert(u.meta(p) is Some);
        }
    }
    remove_then_lookup(t, pid);
    let r = t.removed(pid);
    assert forall|p: u32| #[trigger] r.names.contains_key(p) implies r.has(p) by {
        assert(t.names.contains_key(p));
        if t.has(pid) {
            assert(p != pid);
        }
        assert(r.has(p) <==> t.has(p));
    }
}

/// The table of running processes: one row per process, names in a side map.
pub struct ProcessTable {
    rows: Vec<ProcMeta>,
    names: HashMap<u32, String>,
}

impl View for ProcessTable {
    type V = TableView;

    closed spec fn view(&self) -> TableView {
        TableView { rows: self.rows@, names: self.names@.map_values(|s: String| s@) }
    }
}

impl Default for ProcessTable {
    fn default() -> (r: Self)
        ensures
            r@ == TableView::empty(),
    {
        let r = ProcessTable { rows: Vec::new(), names: HashMap::new() };
        assert(r@.names =~= Map::<u32, Seq<char>>::empty());
        r
    }
}

impl ProcessTable {
    /// An empty table.
    pub fn new() -> (r: Self)
        ensures
            r@ == TableView::empty(),
    {
        Self::default()
    }

    fn position(&self, pid: u32) -> (r: Option<usize>)
        ensures
            r is Some <==> self@.has(pid),
            r is Some ==> self@.is_row_of(pid, r->0 as int) && self@.row_of(pid) == r->0,
    {
        let mut i: usize = 0;
        while i < self.rows.len()
            invariant
                i <= self.rows@.len(),
                forall|j: int| 0 <= j < i ==> (#[trigger] self@.rows[j]).pid != pid,
            decreases self.rows@.len() - i,
        {
            if self.rows[i].pid == pid {
                assert(self@.is_row_of(pid, i as int));
                proof {
                    self@.first_row_is_unique(pid, i as int);
                }
                return Some(i);
            }
            i = i + 1;
        }
        assert(!self@.has(pid));
        None
    }

    /// Records that `pid` was seen under `name`.
    pub fn upsert(&mut self, pid: u32, name: &str, is_game: bool)
        ensures
            final(self)@ == old(self)@.upserted(pid, name@, is_game),
    {
        let ghost before = self@;
        let h: u64 = name_hash(name);
        if let Some(i) = self.position(pid) {
            if self.rows[i].name_hash == h {
                self.rows.set(i, ProcMeta { pid, name_hash: h, is_game });
                assert(self@.rows =~= before.upserted(pid, name@, is_game).rows);
                return;
            }
        }
        self.rows.push(ProcMeta { pid, name_hash: h, is_game });
        self.names.insert(pid, copy_text(name));
        assert(self@.names =~= before.upserted(pid, name@, is_game).names);
    }

    /// Forgets `pid`; `None` when it is not in the table.
    pub fn remove(&mut self, pid: u32) -> (r: Option<()>)
        ensures
            final(self)@ == old(self)@.removed(pid),
            r is Some <==> old(self)@.has(pid),
    {
        let ghost before = self@;
        match self.position(pid) {
            Some(i) => {
                self.rows.swap_remove(i);
                self.names.remove(&pid);
                assert(self@.names =~= before.removed(pid).names);
                Some(())
            },
            None => None,
        }
    }

    /// What is known of `pid`.
    pub fn get(&self, pid: u32) -> (r: Option<ProcMeta>)
        ensures
            r == self@.meta(pid),
    {
        match self.position(pid) {
            Some(i) => Some(self.rows[i]),
            None => None,
        }
    }

    /// The name recorded for `pid`.
    pub fn name(&self, pid: u32) -> (r: Option<&str>)
        ensures
            r is Some <==> self@.names.contains_key(pid),
            r is Some ==> r->0@ == self@.names[pid],
    {
        match self.names.get(&pid) {
            Some(s) => Some(s.as_str()),
            None => None,
        }
    }

    /// The name recorded for `pid`; the empty text where there is none.
    pub fn name_or_default(&self, pid: u32) -> (r: &str)
        ensures
            r@ == self@.name_or_empty(pid),
    {
        match self.name(pid) {
            Some(s) => s,
            None => {
                proof {
                    reveal_strlit("");
                }
                assert(""@ =~= Seq::<char>::empty());
                ""
            },
        }
    }

    /// Every row as pid, name and game flag, in table order.
    pub fn iter(&self) -> (r: Vec<(u32, &str, bool)>)
        ensures
            listed(r@) == self@.listing(),
    {
        let mut r: Vec<(u32, &str, bool)> = Vec::new();
        let mut i: usize = 0;
        while i < self.rows.len()
            invariant
                i <= self.rows@.len(),
                listed(r@) == self@.listing().take(i as int),
            decreases self.rows@.len() - i,
        {
            let row = self.rows[i];
            let ghost before = r@;
            r.push((row.pid, self.name_or_default(row.pid), row.is_game));
            assert(listed(r@) =~= listed(before).push(self@.listing()[i as int]));
            i = i + 1;
            assert(listed(r@) =~= self@.listing().take(i as int));
        }
        assert(self@.listing().take(i as int) =~= self@.listing());
        r
    }

    pub fn len(&self) -> (r: usize)
        ensures
            r == self@.rows.len(),
    {
        self.rows.len()
    }

    pub fn is_empty(&self) -> (r: bool)
        ensures
            r == (self@.rows.len() == 0),
    {
        self.rows.len() == 0
    }
}

/// Rows with their names as texts.
pub open spec fn listed(rows: Seq<(u32, &str, bool)>) -> Seq<(u32, Seq<char>, bool)> {
    rows.map_values(|r: (u32, &str, bool)| (r.0, r.1@, r.2))
}

} // verus!
