//! The schema catalog: per-table column metadata in declaration order,
//! and the table-name lookup that queries consult.

use vstd::prelude::*;
use vstd::pervasive::VecAdditionalExecFns;

use crate::data::ColumnType;

verus! {

/// What role a column plays in its table's key.
#[derive(Debug, Copy, Clone, PartialEq, Eq, Structural)]
pub enum Kind {
    PartitionKey,
    Clustering,
    Regular,
    Static,
}

/// One column: its name, type, and key kind.
#[derive(Debug, Clone)]
pub struct ColumnMetadata {
    pub name: String,
    pub column_type: ColumnType,
    pub kind: Kind,
}

/// The first position of a column with the given name, if any.
pub open spec fn spec_find_column(cols: Seq<ColumnMetadata>, name: Seq<char>) -> Option<int>
    decreases cols.len(),
{
    if cols.len() == 0 {
        None
    } else if cols[0].name@ == name {
        Some(0)
    } else {
        match spec_find_column(cols.drop_first(), name) {
            None => None,
            Some(i) => Some(i + 1),
        }
    }
}

/// The found column bears the given name and stands at the found
/// position; before it no column does.
pub broadcast proof fn lemma_find_column(cols: Seq<ColumnMetadata>, name: Seq<char>)
    ensures
        (#[trigger] spec_find_column(cols, name) matches Some(i) ==> 0 <= i < cols.len()
            && cols[i].name@ == name && forall|j: int| 0 <= j < i ==> cols[j].name@ != name),
        spec_find_column(cols, name) is None ==> forall|j: int|
            0 <= j < cols.len() ==> (#[trigger] cols[j]).name@ != name,
    decreases cols.len(),
{
    if cols.len() == 0 {
    } else if cols[0].name@ == name {
    } else {
        lemma_find_column(cols.drop_first(), name);
        assert(forall|j: int| 1 <= j < cols.len() ==> cols[j] == cols.drop_first()[j - 1]);
    }
}

/// A table: its name, its ordered key column names, and its columns in
/// declaration order. The column order is authoritative for the row codec
/// and is never changed after creation.
#[derive(Debug, Clone)]
pub struct TableMetadata {
    pub name: String,
    pub partition_key: Vec<String>,
    pub cluster_key: Vec<String>,
    pub columns: Vec<ColumnMetadata>,
}

/// Copy a column, field by field.
pub fn clone_column(c: &ColumnMetadata) -> (r: ColumnMetadata)
    ensures
        r == *c,
{
    ColumnMetadata { name: c.name.clone(), column_type: c.column_type, kind: c.kind }
}

/// Copy a vector of strings, element by element.
pub fn clone_string_vec(v: &Vec<String>) -> (r: Vec<String>)
    ensures
        r@ == v@,
{
    let mut out: Vec<String> = Vec::new();
    let mut i: usize = 0;
    while i < v.len()
        invariant
            i <= v@.len(),
            out@ == v@.take(i as int),
        decreases v@.len() - i,
    {
        out.push(v[i].clone());
        assert(out@ =~= v@.take(i + 1));
        i = i + 1;
    }
    assert(v@.take(v@.len() as int) =~= v@);
    out
}

/// Two tables carry the same metadata: the same name, key lists, and
/// columns.
pub open spec fn table_eqv(a: TableMetadata, b: TableMetadata) -> bool {
    &&& a.name == b.name
    &&& a.partition_key@ == b.partition_key@
    &&& a.cluster_key@ == b.cluster_key@
    &&& a.columns@ == b.columns@
}

/// The catalog holds a table carrying this metadata under its name.
pub open spec fn spec_table_in(ts: Seq<TableMetadata>, t: TableMetadata) -> bool {
    spec_lookup_table(ts, t.name@) matches Some(s) && table_eqv(s, t)
}

impl TableMetadata {
    /// Copy a table's metadata, field by field.
    pub fn duplicate(&self) -> (r: TableMetadata)
        ensures
            table_eqv(r, *self),
    {
        let mut columns: Vec<ColumnMetadata> = Vec::new();
        let mut i: usize = 0;
        while i < self.columns.len()
            invariant
                i <= self.columns@.len(),
                columns@ == self.columns@.take(i as int),
            decreases self.columns@.len() - i,
        {
            columns.push(clone_column(&self.columns[i]));
            assert(columns@ =~= self.columns@.take(i + 1));
            i = i + 1;
        }
        assert(self.columns@.take(self.columns@.len() as int) =~= self.columns@);
        let r = TableMetadata {
            name: self.name.clone(),
            partition_key: clone_string_vec(&self.partition_key),
            cluster_key: clone_string_vec(&self.cluster_key),
            columns,
        };
        r
    }

    /// Column names are unique.
    pub open spec fn wf(self) -> bool {
        forall|i: int, j: int|
            0 <= i < j < self.columns@.len() ==> (#[trigger] self.columns@[i]).name@ != (
            #[trigger] self.columns@[j]).name@
    }

    /// Find a column by name.
    pub fn get_column(&self, name: &String) -> (r: Option<&ColumnMetadata>)
        ensures
            r is Some <==> spec_find_column(self.columns@, name@) is Some,
            (r matches Some(c) ==> spec_find_column(self.columns@, name@) matches Some(i) && *c
                == self.columns@[i]),
    {
        proof {
            broadcast use lemma_find_column;

        }
        let mut i: usize = 0;
        while i < self.columns.len()
            invariant
                i <= self.columns@.len(),
                forall|j: int| 0 <= j < i ==> (#[trigger] self.columns@[j]).name@ != name@,
            decreases self.columns@.len() - i,
        {
            if self.columns[i].name.eq(name) {
                proof {
                    lemma_find_column_prefix(self.columns@, name@, i as int);
                }
                return Some(&self.columns[i]);
            }
            i = i + 1;
        }
        None
    }

    /// The declared column names, in declaration order.
    pub fn ordered_column_names(&self) -> (r: Vec<String>)
        ensures
            r@.len() == self.columns@.len(),
            forall|i: int| 0 <= i < r@.len() ==> (#[trigger] r@[i])@ == self.columns@[i].name@,
    {
        let mut names: Vec<String> = Vec::new();
        let mut i: usize = 0;
        while i < self.columns.len()
            invariant
                i <= self.columns@.len(),
                names@.len() == i,
                forall|j: int| 0 <= j < i ==> (#[trigger] names@[j])@ == self.columns@[j].name@,
            decreases self.columns@.len() - i,
        {
            names.push(self.columns[i].name.clone());
            i = i + 1;
        }
        names
    }
}

/// When the first `k` columns do not bear the name and column `k` does,
/// the find lands on `k`.
pub proof fn lemma_find_column_prefix(cols: Seq<ColumnMetadata>, name: Seq<char>, k: int)
    requires
        0 <= k < cols.len(),
        cols[k].name@ == name,
        forall|j: int| 0 <= j < k ==> (#[trigger] cols[j]).name@ != name,
    ensures
        spec_find_column(cols, name) == Some(k),
    decreases k,
{
    if k == 0 {
    } else {
        assert(forall|j: int| 1 <= j < cols.len() ==> cols[j] == cols.drop_first()[j - 1]);
        lemma_find_column_prefix(cols.drop_first(), name, k - 1);
    }
}

/// The first position of a table with the given name, if any.
pub open spec fn spec_find_table(ts: Seq<TableMetadata>, name: Seq<char>) -> Option<int>
    decreases ts.len(),
{
    if ts.len() == 0 {
        None
    } else if ts[0].name@ == name {
        Some(0)
    } else {
        match spec_find_table(ts.drop_first(), name) {
            None => None,
            Some(i) => Some(i + 1),
        }
    }
}

/// The found table bears the given name and stands at the found position;
/// before it no table does.
pub broadcast proof fn lemma_find_table(ts: Seq<TableMetadata>, name: Seq<char>)
    ensures
        (#[trigger] spec_find_table(ts, name) matches Some(i) ==> 0 <= i < ts.len() && ts[i].name@
            == name && forall|j: int| 0 <= j < i ==> ts[j].name@ != name),
        spec_find_table(ts, name) is None ==> forall|j: int|
            0 <= j < ts.len() ==> (#[trigger] ts[j]).name@ != name,
    decreases ts.len(),
{
    if ts.len() == 0 {
    } else if ts[0].name@ == name {
    } else {
        lemma_find_table(ts.drop_first(), name);
        assert(forall|j: int| 1 <= j < ts.len() ==> ts[j] == ts.drop_first()[j - 1]);
    }
}

/// When the first `k` tables do not bear the name and table `k` does, the
/// find lands on `k`.
proof fn lemma_find_table_prefix(ts: Seq<TableMetadata>, name: Seq<char>, k: int)
    requires
        0 <= k < ts.len(),
        ts[k].name@ == name,
        forall|j: int| 0 <= j < k ==> (#[trigger] ts[j]).name@ != name,
    ensures
        spec_find_table(ts, name) == Some(k),
    decreases k,
{
    if k == 0 {
    } else {
        assert(forall|j: int| 1 <= j < ts.len() ==> ts[j] == ts.drop_first()[j - 1]);
        lemma_find_table_prefix(ts.drop_first(), name, k - 1);
    }
}

/// The table stored under a name, if any.
pub open spec fn spec_lookup_table(ts: Seq<TableMetadata>, name: Seq<char>) -> Option<
    TableMetadata,
> {
    match spec_find_table(ts, name) {
        None => None,
        Some(i) => Some(ts[i]),
    }
}

/// The schema catalog: a table-name to metadata mapping that preserves
/// creation order.
#[derive(Debug)]
pub struct Tables {
    pub tables: Vec<TableMetadata>,
}

impl Tables {
    /// An empty catalog.
    pub fn new() -> (r: Tables)
        ensures
            r.tables@ == Seq::<TableMetadata>::empty(),
    {
        Tables { tables: Vec::new() }
    }

    /// Look a table up by name.
    pub fn get(&self, name: &String) -> (r: Option<&TableMetadata>)
        ensures
            r is Some <==> spec_lookup_table(self.tables@, name@) is Some,
            (r matches Some(t) ==> spec_lookup_table(self.tables@, name@) == Some(*t)),
    {
        proof {
            broadcast use lemma_find_table;

        }
        let mut i: usize = 0;
        while i < self.tables.len()
            invariant
                i <= self.tables@.len(),
                forall|j: int| 0 <= j < i ==> (#[trigger] self.tables@[j]).name@ != name@,
            decreases self.tables@.len() - i,
        {
            if self.tables[i].name.eq(name) {
                proof {
                    lemma_find_table_prefix(self.tables@, name@, i as int);
                }
                return Some(&self.tables[i]);
            }
            i = i + 1;
        }
        None
    }

    /// Create or replace a table: the last writer wins, and no other
    /// entry changes.
    pub fn insert(&mut self, table: TableMetadata)
        ensures
            spec_lookup_table(final(self).tables@, table.name@) == Some(table),
            forall|n: Seq<char>|
                n != table.name@ ==> #[trigger] spec_lookup_table(final(self).tables@, n)
                    == spec_lookup_table(old(self).tables@, n),
    {
        proof {
            broadcast use lemma_find_table;

        }
        let mut i: usize = 0;
        while i < self.tables.len()
            invariant
                i <= self.tables@.len(),
                self.tables@ == old(self).tables@,
                forall|j: int| 0 <= j < i ==> (#[trigger] self.tables@[j]).name@ != table.name@,
            decreases self.tables@.len() - i,
        {
            if self.tables[i].name.eq(&table.name) {
                proof {
                    lemma_find_table_prefix(self.tables@, table.name@, i as int);
                }
                let ghost name = table.name@;
                let ghost before = self.tables@;
                self.tables.set(i, table);
                proof {
                    lemma_find_table_prefix(self.tables@, name, i as int);
                    assert forall|n: Seq<char>| n != name implies #[trigger] spec_lookup_table(
                        self.tables@,
                        n,
                    ) == spec_lookup_table(before, n) by {
                        lemma_lookup_set_other(before, self.tables@, i as int, n);
                    }
                }
                return ;
            }
            i = i + 1;
        }
        let ghost name = table.name@;
        let ghost before = self.tables@;
        self.tables.push(table);
        proof {
            assert(forall|j: int| 0 <= j < before.len() ==> self.tables@[j] == before[j]);
            lemma_find_table_prefix(self.tables@, name, before.len() as int);
            assert forall|n: Seq<char>| n != name implies #[trigger] spec_lookup_table(
                self.tables@,
                n,
            ) == spec_lookup_table(before, n) by {
                lemma_lookup_push_other(before, table, n);
            }
        }
    }
}

/// Replacing one table changes no lookup under another name.
proof fn lemma_lookup_set_other(
    before: Seq<TableMetadata>,
    after: Seq<TableMetadata>,
    i: int,
    n: Seq<char>,
)
    requires
        0 <= i < before.len(),
        after.len() == before.len(),
        forall|j: int| 0 <= j < before.len() && j != i ==> after[j] == before[j],
        before[i].name@ != n,
        after[i].name@ != n,
    ensures
        spec_lookup_table(after, n) == spec_lookup_table(before, n),
    decreases before.len(),
{
    broadcast use lemma_find_table;

    if i == 0 {
        assert(after.drop_first() =~= before.drop_first());
        assert(spec_find_table(after, n) == spec_find_table(before, n));
    } else {
        assert(after[0] == before[0]);
        if before[0].name@ == n {
            assert(spec_find_table(after, n) == Some(0int) && spec_find_table(before, n) == Some(
                0int,
            ));
        } else {
            assert(forall|j: int|
                0 <= j < before.drop_first().len() && j != i - 1 ==> after.drop_first()[j]
                    == before.drop_first()[j]);
            lemma_lookup_set_other(before.drop_first(), after.drop_first(), i - 1, n);
            assert(spec_find_table(after.drop_first(), n) == spec_find_table(
                before.drop_first(),
                n,
            ));
        }
    }
    assert(spec_find_table(after, n) == spec_find_table(before, n));
    let f = spec_find_table(before, n);
    if f is Some {
        let k = f->Some_0;
        assert(before[k].name@ == n);
        assert(k != i);
        assert(after[k] == before[k]);
    }
}

/// Appending a table changes no lookup under another name.
proof fn lemma_lookup_push_other(before: Seq<TableMetadata>, t: TableMetadata, n: Seq<char>)
    requires
        t.name@ != n,
    ensures
        spec_lookup_table(before.push(t), n) == spec_lookup_table(before, n),
    decreases before.len(),
{
    broadcast use lemma_find_table;

    let p = before.push(t);
    if before.len() == 0 {
        assert(p[0] == t);
        assert(p.drop_first() =~= before);
        assert(spec_find_table(p, n) is None);
    } else {
        assert(p[0] == before[0]);
        assert(p.drop_first() =~= before.drop_first().push(t));
        lemma_lookup_push_other(before.drop_first(), t, n);
        if before[0].name@ == n {
            assert(spec_find_table(p, n) == Some(0int) && spec_find_table(before, n) == Some(
                0int,
            ));
        } else {
            assert(spec_find_table(p.drop_first(), n) == spec_find_table(before.drop_first(), n))
                by {
                let fp = spec_find_table(p.drop_first(), n);
                if fp is Some {
                    assert(p.drop_first()[fp->Some_0].name@ == n);
                    assert(fp->Some_0 < before.drop_first().len());
                }
                let fb = spec_find_table(before.drop_first(), n);
                if fb is Some {
                    assert(p.drop_first()[fb->Some_0] == before.drop_first()[fb->Some_0]);
                }
            }
        }
    }
    assert(spec_find_table(p, n) == spec_find_table(before, n));
    let fb2 = spec_find_table(before, n);
    if fb2 is Some {
        let k = fb2->Some_0;
        assert(before[k].name@ == n);
        assert(k < before.len());
        assert(p[k] == before[k]);
    }
}

/// A named keyspace holding a catalog of tables.
#[derive(Debug)]
pub struct DbKeyspace {
    pub name: String,
    pub tables: Tables,
}

impl DbKeyspace {
    /// Create or replace a table in this keyspace's catalog.
    pub fn create_table(&mut self, table: TableMetadata)
        ensures
            spec_lookup_table(final(self).tables.tables@, table.name@) == Some(table),
            final(self).name == old(self).name,
            forall|n: Seq<char>|
                n != table.name@ ==> #[trigger] spec_lookup_table(final(self).tables.tables@, n)
                    == spec_lookup_table(old(self).tables.tables@, n),
    {
        self.tables.insert(table);
    }
}

} // verus!
