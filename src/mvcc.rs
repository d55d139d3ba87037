//! A small table of named rows with versioned transactions.
//!
//! `MVCC` owns the table, the counter that hands out transaction versions
//! (starting at 1), and the versions of the transactions still active.  A
//! transaction remembers its version and the versions that were active when
//! it began.  Writes go to the table directly; committing or rolling back
//! ends the transaction.
use std::collections::HashSet;
use vstd::prelude::*;
use vstd::std_specs::hash::spec_hash_keys_iter;
use vstd::std_specs::iter::IteratorSpec;

verus! {

broadcast use vstd::std_specs::hash::group_hash_axioms;

struct TableRow {
    id: u32,
    name: String,
}

/// The rows, each an id and a name, in order of insertion.
pub struct TableStore {
    rows: Vec<TableRow>,
}

/// `rows` with every row of id `id` removed.
pub open spec fn without_id(rows: Seq<(u32, Seq<char>)>, id: u32) -> Seq<(u32, Seq<char>)>
    decreases rows.len(),
{
    if rows.len() == 0 {
        Seq::empty()
    } else if rows.last().0 == id {
        without_id(rows.drop_last(), id)
    } else {
        without_id(rows.drop_last(), id).push(rows.last())
    }
}

/// `new` is `old` with the first row of id `id` renamed to `name`, or, when
/// there is none, with the row appended.
pub open spec fn upserted(
    old: Seq<(u32, Seq<char>)>,
    new: Seq<(u32, Seq<char>)>,
    id: u32,
    name: Seq<char>,
) -> bool {
    ||| exists|k: int|
        0 <= k < old.len() && #[trigger] old[k].0 == id && (forall|j: int| 0 <= j < k ==> old[j].0 != id)
            && new == old.update(k, (id, name))
    ||| (forall|j: int| 0 <= j < old.len() ==> old[j].0 != id) && new == old.push((id, name))
}

/// The version after `v`; the counter wraps around at the top of `usize`.
pub open spec fn next_after(v: usize) -> usize {
    if v == usize::MAX {
        0
    } else {
        (v + 1) as usize
    }
}

/// A copy of a set of versions.
fn copy_versions(s: &HashSet<usize>) -> (r: HashSet<usize>)
    ensures
        r@ == s@,
{
    let mut r: HashSet<usize> = HashSet::new();
    proof {
        let rem = spec_hash_keys_iter(s).remaining();
        assert(rem.unref().to_set() == s@);
        assert forall|x: usize| s@.contains(x) <==> exists|j: int| 0 <= j < rem.len() && #[trigger] *rem[j] == x by {
            if s@.contains(x) {
                assert(rem.unref().contains(x));
                let j = choose|j: int| 0 <= j < rem.unref().len() && rem.unref()[j] == x;
                assert(*rem[j] == x);
            }
            if exists|j: int| 0 <= j < rem.len() && #[trigger] *rem[j] == x {
                let j = choose|j: int| 0 <= j < rem.len() && #[trigger] *rem[j] == x;
                assert(rem.unref()[j] == x);
                assert(rem.unref().contains(x));
            }
        }
    }
    for v in it: s.iter()
        invariant
            forall|x: usize| s@.contains(x) <==> exists|j: int| 0 <= j < it.seq().len() && #[trigger] *it.seq()[j] == x,
            forall|x: usize| r@.contains(x) <==> exists|j: int| 0 <= j < it.index() && #[trigger] *it.seq()[j] == x,
            it.index() == it.seq().len() ==> r@ =~= s@,
    {
        r.insert(*v);
    }
    r
}

impl TableStore {
    pub closed spec fn spec_rows(&self) -> Seq<(u32, Seq<char>)> {
        self.rows@.map_values(|r: TableRow| (r.id, r.name@))
    }

    /// An empty table.
    pub fn new() -> (t: TableStore)
        ensures
            t.spec_rows().len() == 0,
    {
        let t = TableStore { rows: Vec::new() };
        proof {
            assert(t.spec_rows() =~= Seq::empty());
        }
        t
    }

    /// The number of rows.
    pub fn len(&self) -> (r: usize)
        ensures
            r == self.spec_rows().len(),
    {
        self.rows.len()
    }

    /// The id and the name of row `i`.
    pub fn row(&self, i: usize) -> (r: (u32, String))
        requires
            i < self.spec_rows().len(),
        ensures
            (r.0, r.1@) == self.spec_rows()[i as int],
    {
        (self.rows[i].id, self.rows[i].name.clone())
    }
}

/// The table and the bookkeeping of its transactions.
pub struct MVCC {
    table: TableStore,
    next_version: usize,
    active: HashSet<usize>,
}

impl MVCC {
    pub closed spec fn spec_table(&self) -> TableStore {
        self.table
    }

    /// The version the next transaction gets.
    pub closed spec fn spec_next_version(&self) -> usize {
        self.next_version
    }

    /// The versions of the active transactions.
    pub closed spec fn spec_active(&self) -> Set<usize> {
        self.active@
    }

    /// Versioned access to `table`; the first transaction gets version 1.
    pub fn new(table: TableStore) -> (m: MVCC)
        ensures
            m.spec_table() == table,
            m.spec_next_version() == 1,
            m.spec_active().len() == 0,
    {
        MVCC { table, next_version: 1, active: HashSet::new() }
    }

    /// The table as it stands.
    pub fn table(&self) -> (r: &TableStore)
        ensures
            *r == self.spec_table(),
    {
        &self.table
    }

    /// Starts a transaction, as [`Transaction::begin`] does.
    pub fn begin_transaction(&mut self) -> (t: Transaction)
        ensures
            t.spec_version() == old(self).spec_next_version(),
            t.spec_active_xids() == old(self).spec_active(),
            final(self).spec_next_version() == next_after(old(self).spec_next_version()),
            final(self).spec_active() == old(self).spec_active().insert(t.spec_version()),
            final(self).spec_table() == old(self).spec_table(),
    {
        Transaction::begin(self)
    }
}

/// A transaction: its version and the versions active when it began.
pub struct Transaction {
    version: usize,
    active_xids: HashSet<usize>,
}

impl Transaction {
    pub closed spec fn spec_version(&self) -> usize {
        self.version
    }

    pub closed spec fn spec_active_xids(&self) -> Set<usize> {
        self.active_xids@
    }

    /// Starts a transaction: it takes the next version and a copy of the
    /// active versions, and becomes active itself.
    pub fn begin(db: &mut MVCC) -> (t: Transaction)
        ensures
            t.spec_version() == old(db).spec_next_version(),
            t.spec_active_xids() == old(db).spec_active(),
            final(db).spec_next_version() == next_after(old(db).spec_next_version()),
            final(db).spec_active() == old(db).spec_active().insert(t.spec_version()),
            final(db).spec_table() == old(db).spec_table(),
    {
        let version = db.next_version;
        db.next_version = db.next_version.wrapping_add(1);
        let active_xids = copy_versions(&db.active);
        db.active.insert(version);
        Transaction { version, active_xids }
    }

    /// Names row `id` `name`: the first row of that id is renamed, or a row
    /// is appended when there is none.
    pub fn set(&self, db: &mut MVCC, id: u32, name: String)
        ensures
            upserted(
                old(db).spec_table().spec_rows(),
                final(db).spec_table().spec_rows(),
                id,
                name@,
            ),
            final(db).spec_next_version() == old(db).spec_next_version(),
            final(db).spec_active() == old(db).spec_active(),
    {
        let ghost rows0 = db.table.spec_rows();
        let n = db.table.rows.len();
        let mut k: usize = 0;
        while k < n
            invariant
                n == db.table.rows@.len(),
                k <= n,
                rows0 == db.table.spec_rows(),
                rows0 == old(db).spec_table().spec_rows(),
                db.next_version == old(db).next_version,
                db.active@ == old(db).active@,
                forall|j: int| 0 <= j < k ==> rows0[j].0 != id,
            decreases n - k,
        {
            proof {
                assert(rows0[k as int].0 == db.table.rows@[k as int].id);
            }
            if db.table.rows[k].id == id {
                db.table.rows.set(k, TableRow { id, name });
                proof {
                    assert(db.table.spec_rows() =~= rows0.update(k as int, (id, name@)));
                    assert(rows0[k as int].0 == id);
                    assert(upserted(rows0, db.table.spec_rows(), id, name@));
                }
                return;
            }
            k += 1;
        }
        db.table.rows.push(TableRow { id, name });
        proof {
            assert(db.table.spec_rows() =~= rows0.push((id, name@)));
        }
    }

    /// Removes every row of id `id`.
    pub fn delete(&self, db: &mut MVCC, id: u32)
        ensures
            final(db).spec_table().spec_rows() == without_id(old(db).spec_table().spec_rows(), id),
            final(db).spec_next_version() == old(db).spec_next_version(),
            final(db).spec_active() == old(db).spec_active(),
    {
        let ghost rows0 = db.table.spec_rows();
        let n = db.table.rows.len();
        let mut kept: Vec<TableRow> = Vec::new();
        let mut k: usize = 0;
        while k < n
            invariant
                n == db.table.rows@.len(),
                k <= n,
                rows0 == db.table.spec_rows(),
                kept@.map_values(|r: TableRow| (r.id, r.name@)) == without_id(
                    rows0.subrange(0, k as int),
                    id,
                ),
            decreases n - k,
        {
            let ghost before = kept@;
            proof {
                assert(rows0.subrange(0, k + 1).drop_last() =~= rows0.subrange(0, k as int));
            }
            if db.table.rows[k].id != id {
                let row = TableRow { id: db.table.rows[k].id, name: db.table.rows[k].name.clone() };
                kept.push(row);
                proof {
                    assert(kept@.map_values(|r: TableRow| (r.id, r.name@)) =~= before.map_values(
                        |r: TableRow| (r.id, r.name@),
                    ).push(rows0[k as int]));
                }
            }
            k += 1;
        }
        proof {
            assert(rows0.subrange(0, n as int) =~= rows0);
        }
        db.table.rows = kept;
    }

    /// Version `version` may be read by this transaction: it was not active
    /// when the transaction began, and is not newer than it.
    fn is_visible(&self, version: usize) -> (r: bool)
        ensures
            r == (!self.spec_active_xids().contains(version) && version <= self.spec_version()),
    {
        if self.active_xids.contains(&version) {
            return false;
        }
        version <= self.version
    }

    /// The name of the first row of id `id`, when this transaction's own
    /// version is visible to it.
    pub fn get(&self, db: &MVCC, id: u32) -> (r: Option<String>)
        ensures
            ({
                let rows = db.spec_table().spec_rows();
                let visible = !self.spec_active_xids().contains(self.spec_version());
                match r {
                    Some(name) => visible && exists|k: int|
                        0 <= k < rows.len() && #[trigger] rows[k] == (id, name@) && forall|j: int|
                            0 <= j < k ==> rows[j].0 != id,
                    None => !visible || forall|j: int| 0 <= j < rows.len() ==> rows[j].0 != id,
                }
            }),
    {
        if !self.is_visible(self.version) {
            return None;
        }
        let rows = &db.table.rows;
        let n = rows.len();
        let mut k: usize = 0;
        while k < n
            invariant
                n == rows@.len(),
                rows@ == db.table.rows@,
                k <= n,
                !self.spec_active_xids().contains(self.spec_version()),
                forall|j: int| 0 <= j < k ==> db.spec_table().spec_rows()[j].0 != id,
            decreases n - k,
        {
            proof {
                assert(db.spec_table().spec_rows()[k as int].0 == rows@[k as int].id);
            }
            if rows[k].id == id {
                let name = rows[k].name.clone();
                proof {
                    assert(db.spec_table().spec_rows()[k as int] == (id, name@));
                }
                return Some(name);
            }
            k += 1;
        }
        None
    }

    fn end(&self, db: &mut MVCC)
        ensures
            final(db).spec_active() == old(db).spec_active().remove(self.spec_version()),
            final(db).spec_next_version() == old(db).spec_next_version(),
            final(db).spec_table() == old(db).spec_table(),
    {
        db.active.remove(&self.version);
    }

    /// Ends the transaction: its version is no longer active.
    pub fn commit(&self, db: &mut MVCC)
        ensures
            final(db).spec_active() == old(db).spec_active().remove(self.spec_version()),
            final(db).spec_next_version() == old(db).spec_next_version(),
            final(db).spec_table() == old(db).spec_table(),
    {
        self.end(db)
    }

    /// Ends the transaction: its version is no longer active.  Writes were
    /// made to the table directly and stay.
    pub fn rollback(&self, db: &mut MVCC)
        ensures
            final(db).spec_active() == old(db).spec_active().remove(self.spec_version()),
            final(db).spec_next_version() == old(db).spec_next_version(),
            final(db).spec_table() == old(db).spec_table(),
    {
        self.end(db)
    }
}

} // verus!
