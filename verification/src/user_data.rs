//! Named tables of 32-bit values, kept in the order in which their names
//! first arrived.

use vstd::prelude::*;
use indexmap::IndexMap;
use std::collections::hash_map::RandomState;

verus! {

/// `indexmap::IndexMap`, the insertion-ordered map, as an opaque type.
#[verifier::external_type_specification]
#[verifier::external_body]
#[verifier::reject_recursive_types(K)]
#[verifier::reject_recursive_types(V)]
#[verifier::reject_recursive_types(S)]
pub struct ExIndexMap<K, V, S>(IndexMap<K, V, S>);

/// The name of a table and its values.
pub type Table = (Seq<char>, Seq<u32>);

/// The entries of an insertion-ordered map from names to tables, in its
/// order.
pub uninterp spec fn table_entries(m: IndexMap<String, Vec<u32>, RandomState>) -> Seq<Table>;

/// Whether a table named `name` is among `entries`.
pub open spec fn has_table(entries: Seq<Table>, name: Seq<char>) -> bool {
    exists|i: int| 0 <= i < entries.len() && (#[trigger] entries[i]).0 == name
}

/// Whether no two of `entries` share a name.
pub open spec fn distinct_names(entries: Seq<Table>) -> bool {
    forall|i: int, j: int|
        0 <= i < j < entries.len() ==> (#[trigger] entries[i]).0 != (#[trigger] entries[j]).0
}

/// `IndexMap::with_capacity`: a new map, which holds nothing. A capacity
/// that cannot be allocated is left out.
#[verifier::external_body]
fn tables_with_capacity(n: usize) -> (m: IndexMap<String, Vec<u32>, RandomState>)
    requires
        n <= 0x10000,
    ensures
        table_entries(m) == Seq::<Table>::empty(),
{
    IndexMap::with_capacity(n)
}

/// `IndexMap::len`: the number of entries.
#[verifier::external_body]
fn tables_len(m: &IndexMap<String, Vec<u32>, RandomState>) -> (n: usize)
    ensures
        n == table_entries(*m).len(),
{
    m.len()
}

/// `IndexMap::contains_key`: whether an entry has the key.
#[verifier::external_body]
fn tables_contains_key(m: &IndexMap<String, Vec<u32>, RandomState>, name: &str) -> (r: bool)
    ensures
        r == has_table(table_entries(*m), name@),
{
    m.contains_key(name)
}

/// `IndexMap::clear`: removes every entry.
#[verifier::external_body]
fn tables_clear(m: &mut IndexMap<String, Vec<u32>, RandomState>)
    ensures
        table_entries(*final(m)) == Seq::<Table>::empty(),
{
    m.clear()
}

/// `IndexMap::get_mut`: the value of the entry that has the key, for
/// reading and writing in place; the entry keeps its key and its place, and
/// no other entry changes. `None`, and nothing changes, where no entry has
/// the key. The map holds each key once.
#[verifier::external_body]
fn tables_get_mut<'a>(m: &'a mut IndexMap<String, Vec<u32>, RandomState>, name: &str) -> (r:
    Option<&'a mut Vec<u32>>)
    ensures
        distinct_names(table_entries(*old(m))),
        match r {
            Some(v) => exists|i: int|
                0 <= i < table_entries(*old(m)).len() && (#[trigger] table_entries(*old(m))[i]).0
                    == name@ && v@ == table_entries(*old(m))[i].1 && table_entries(*final(m))
                    == table_entries(*old(m)).update(i, (name@, final(v)@)),
            None => !has_table(table_entries(*old(m)), name@) && table_entries(*final(m))
                == table_entries(*old(m)),
        },
{
    m.get_mut(name)
}

/// `IndexMap::insert`: where an entry has the key, its value is replaced
/// and it keeps its place; where none has, the pair becomes the last entry.
#[verifier::external_body]
fn tables_insert(m: &mut IndexMap<String, Vec<u32>, RandomState>, name: String, values: Vec<u32>)
    ensures
        has_table(table_entries(*old(m)), name@) ==> exists|i: int|
            0 <= i < table_entries(*old(m)).len() && (#[trigger] table_entries(*old(m))[i]).0
                == name@ && table_entries(*final(m)) == table_entries(*old(m)).update(
                i,
                (name@, values@),
            ),
        !has_table(table_entries(*old(m)), name@) ==> table_entries(*final(m)) == table_entries(
            *old(m),
        ).push((name@, values@)),
{
    m.insert(name, values);
}

/// `IndexMap::get_index`: the entry at place `i` of the order, or `None`
/// where `i` is not below the number of entries.
#[verifier::external_body]
fn tables_get_index(m: &IndexMap<String, Vec<u32>, RandomState>, i: usize) -> (r: Option<
    (&String, &Vec<u32>),
>)
    ensures
        match r {
            Some((k, v)) => i < table_entries(*m).len() && k@ == table_entries(*m)[i as int].0
                && v@ == table_entries(*m)[i as int].1,
            None => i >= table_entries(*m).len(),
        },
{
    m.get_index(i)
}

/// The name of the table that is discarded when the first real table
/// arrives.
pub open spec fn sentinel_name() -> Seq<char> {
    "_dummy"@
}

/// Whether `entries` holds the sentinel table and nothing else.
pub open spec fn only_sentinel(entries: Seq<Table>) -> bool {
    entries.len() == 1 && entries[0].0 == sentinel_name()
}

/// `entries` after `values` have arrived for `name`: appended to the table
/// of that name where there is one, else a new last table.
pub open spec fn extend_table(entries: Seq<Table>, name: Seq<char>, values: Seq<u32>) -> Seq<
    Table,
>
    decreases entries.len(),
{
    if entries.len() == 0 {
        seq![(name, values)]
    } else if entries[0].0 == name {
        seq![(name, entries[0].1 + values)] + entries.drop_first()
    } else {
        seq![entries[0]] + extend_table(entries.drop_first(), name, values)
    }
}

/// `entries` after a data directive for `name` with `values`: a lone
/// sentinel table is discarded first.
pub open spec fn add_data(entries: Seq<Table>, name: Seq<char>, values: Seq<u32>) -> Seq<Table> {
    if only_sentinel(entries) {
        extend_table(Seq::empty(), name, values)
    } else {
        extend_table(entries, name, values)
    }
}

/// Extending the table at place `i` changes that entry alone.
pub proof fn lemma_extend_present(entries: Seq<Table>, name: Seq<char>, values: Seq<u32>, i: int)
    requires
        distinct_names(entries),
        0 <= i < entries.len(),
        entries[i].0 == name,
    ensures
        extend_table(entries, name, values) == entries.update(i, (name, entries[i].1 + values)),
    decreases entries.len(),
{
    if i == 0 {
        assert(seq![(name, entries[0].1 + values)] + entries.drop_first() =~= entries.update(
            0,
            (name, entries[0].1 + values),
        ));
    } else {
        let rest = entries.drop_first();
        assert(distinct_names(rest)) by {
            assert forall|a: int, b: int| 0 <= a < b < rest.len() implies (#[trigger] rest[a]).0 != (
            #[trigger] rest[b]).0 by {
                assert(rest[a] == entries[a + 1]);
                assert(rest[b] == entries[b + 1]);
            }
        }
        assert(rest[i - 1] == entries[i]);
        lemma_extend_present(rest, name, values, i - 1);
        assert(entries[0].0 != entries[i].0);
        assert(seq![entries[0]] + rest.update(i - 1, (name, entries[i].1 + values))
            =~= entries.update(i, (name, entries[i].1 + values)));
    }
}

/// Extending a table that is not there adds it behind the others.
pub proof fn lemma_extend_absent(entries: Seq<Table>, name: Seq<char>, values: Seq<u32>)
    requires
        !has_table(entries, name),
    ensures
        extend_table(entries, name, values) == entries.push((name, values)),
    decreases entries.len(),
{
    if entries.len() == 0 {
        assert(seq![(name, values)] =~= entries.push((name, values)));
    } else {
        let rest = entries.drop_first();
        assert(entries[0].0 != name);
        assert(!has_table(rest, name)) by {
            if has_table(rest, name) {
                let k = choose|k: int| 0 <= k < rest.len() && (#[trigger] rest[k]).0 == name;
                assert(entries[k + 1].0 == name);
            }
        }
        lemma_extend_absent(rest, name, values);
        assert(seq![entries[0]] + rest.push((name, values)) =~= entries.push((name, values)));
    }
}

/// Adding data keeps names distinct, and afterwards the named table is
/// there.
pub proof fn lemma_extend_keeps_distinct(entries: Seq<Table>, name: Seq<char>, values: Seq<u32>)
    requires
        distinct_names(entries),
    ensures
        distinct_names(extend_table(entries, name, values)),
        has_table(extend_table(entries, name, values), name),
{
    if has_table(entries, name) {
        let i = choose|i: int| 0 <= i < entries.len() && (#[trigger] entries[i]).0 == name;
        lemma_extend_present(entries, name, values, i);
        let after = entries.update(i, (name, entries[i].1 + values));
        assert forall|a: int, b: int| 0 <= a < b < after.len() implies (#[trigger] after[a]).0 != (
        #[trigger] after[b]).0 by {
            assert(after[a].0 == entries[a].0);
            assert(after[b].0 == entries[b].0);
        }
        assert(after[i].0 == name);
    } else {
        lemma_extend_absent(entries, name, values);
        let after = entries.push((name, values));
        assert forall|a: int, b: int| 0 <= a < b < after.len() implies (#[trigger] after[a]).0 != (
        #[trigger] after[b]).0 by {
            if b == entries.len() {
                assert(after[a] == entries[a]);
            } else {
                assert(after[a] == entries[a]);
                assert(after[b] == entries[b]);
            }
        }
        assert(after[entries.len() as int].0 == name);
    }
}

/// Values that arrive for one name in two data directives end up in one
/// table, in the order of their arrival, unless the first directive left
/// that table as a lone sentinel.
pub proof fn lemma_data_accumulates(
    entries: Seq<Table>,
    name: Seq<char>,
    first: Seq<u32>,
    second: Seq<u32>,
)
    requires
        !only_sentinel(add_data(entries, name, first)),
    ensures
        add_data(add_data(entries, name, first), name, second) == add_data(
            entries,
            name,
            first + second,
        ),
{
    let start = if only_sentinel(entries) {
        Seq::<Table>::empty()
    } else {
        entries
    };
    lemma_extend_twice(start, name, first, second);
}

/// Extending a table twice is extending it once with both runs of values.
pub proof fn lemma_extend_twice(
    entries: Seq<Table>,
    name: Seq<char>,
    first: Seq<u32>,
    second: Seq<u32>,
)
    ensures
        extend_table(extend_table(entries, name, first), name, second) == extend_table(
            entries,
            name,
            first + second,
        ),
    decreases entries.len(),
{
    let once = extend_table(entries, name, first);
    if entries.len() == 0 {
        assert(once[0].0 == name);
        assert(once.drop_first() =~= Seq::<Table>::empty());
        assert(seq![(name, first + second)] + Seq::<Table>::empty() =~= seq![
            (name, first + second),
        ]);
    } else if entries[0].0 == name {
        assert(once[0] == (name, entries[0].1 + first));
        assert(once.drop_first() =~= entries.drop_first());
        assert((entries[0].1 + first) + second =~= entries[0].1 + (first + second));
    } else {
        let rest = entries.drop_first();
        lemma_extend_twice(rest, name, first, second);
        assert(once[0] == entries[0]);
        assert(once.drop_first() =~= extend_table(rest, name, first));
    }
}

/// The tables that data directives have filled.
pub struct UserData {
    tables: IndexMap<String, Vec<u32>, RandomState>,
}

impl View for UserData {
    type V = Seq<Table>;

    closed spec fn view(&self) -> Seq<Table> {
        table_entries(self.tables)
    }
}

impl UserData {
    /// No tables.
    pub fn new() -> (r: Self)
        ensures
            r@ == Seq::<Table>::empty(),
    {
        UserData { tables: tables_with_capacity(16) }
    }


    /// The number of tables.
    pub fn len(&self) -> (n: usize)
        ensures
            n == self@.len(),
    {
        tables_len(&self.tables)
    }

    /// Whether there is a table named `name`.
    pub fn contains(&self, name: &str) -> (r: bool)
        ensures
            r == has_table(self@, name@),
    {
        tables_contains_key(&self.tables, name)
    }

    /// The name of the table at place `i`.
    pub fn name_at(&self, i: usize) -> (r: Option<String>)
        ensures
            match r {
                Some(s) => i < self@.len() && s@ == self@[i as int].0,
                None => i >= self@.len(),
            },
    {
        match tables_get_index(&self.tables, i) {
            Some((k, _)) => Some(k.clone()),
            None => None,
        }
    }

    /// The values of the table at place `i`.
    pub fn values_at(&self, i: usize) -> (r: Option<Vec<u32>>)
        ensures
            match r {
                Some(v) => i < self@.len() && v@ == self@[i as int].1,
                None => i >= self@.len(),
            },
    {
        match tables_get_index(&self.tables, i) {
            Some((_, v)) => Some(v.clone()),
            None => None,
        }
    }

    /// The number of values in the table at place `i`.
    pub fn size_at(&self, i: usize) -> (r: Option<usize>)
        ensures
            match r {
                Some(n) => i < self@.len() && n == self@[i as int].1.len(),
                None => i >= self@.len(),
            },
    {
        match tables_get_index(&self.tables, i) {
            Some((_, v)) => Some(v.len()),
            None => None,
        }
    }

    /// Takes in the values of a data directive for the table `name`: a lone
    /// sentinel table is discarded, then the values are appended to the
    /// table of that name, which is created behind the others where it is
    /// missing.
    pub fn add(&mut self, name: String, values: Vec<u32>)
        ensures
            final(self)@ == add_data(old(self)@, name@, values@),
    {
        let mut values = values;
        let ghost given = values@;
        if tables_len(&self.tables) == 1 && tables_contains_key(&self.tables, "_dummy") {
            assert(self@[0].0 == sentinel_name());
            tables_clear(&mut self.tables);
        }
        let ghost start = self@;
        assert(add_data(old(self)@, name@, given) == extend_table(start, name@, given));
        match tables_get_mut(&mut self.tables, name.as_str()) {
            Some(existing) => {
                existing.append(&mut values);
                proof {
                    let i = choose|i: int|
                        0 <= i < start.len() && (#[trigger] start[i]).0 == name@ && table_entries(
                            self.tables,
                        ) == start.update(i, (name@, start[i].1 + given));
                    lemma_extend_present(start, name@, given, i);
                }
            },
            None => {
                proof {
                    lemma_extend_absent(start, name@, given);
                }
                tables_insert(&mut self.tables, name, values);
            },
        }
    }
}

} // verus!
