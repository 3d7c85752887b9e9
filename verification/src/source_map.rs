//! The result of preprocessing: the transformed source with the line that
//! each of its lines came from, and what the directives declared.

use vstd::prelude::*;
use vstd::hash_map::StringHashMap;
use crate::user_data::{add_data, extend_table, only_sentinel, sentinel_name, Table, UserData};

verus! {

/// The transformed source of a shader and what its directives declared.
pub struct SourceMap {
    /// The `enable` statements of the shader, one per line.
    pub extensions: String,
    /// The transformed shader, each line closed by a line feed.
    pub source: String,
    /// For each line of `source`, the line of the input that produced it.
    pub map: Vec<usize>,
    /// The dispatch grid that a directive fixed for an entry point.
    pub workgroup_count: StringHashMap<[u32; 3]>,
    /// The entry points that run on the first frame only.
    pub dispatch_once: StringHashMap<bool>,
    /// How often per frame an entry point runs, where a directive says so.
    pub dispatch_count: StringHashMap<u32>,
    /// For each assertion, by its number, the line of the input that made it.
    pub assert_map: Vec<usize>,
    /// The data tables, in the order in which their names first arrived.
    pub user_data: UserData,
}

/// A source map as plain values.
pub struct SourceModel {
    /// The extension statements, each closed by a line feed.
    pub extensions: Seq<char>,
    /// The transformed shader, each line closed by a line feed.
    pub source: Seq<char>,
    /// For each line of `source`, the line of the input that produced it.
    pub line_map: Seq<usize>,
    /// The dispatch grid that a directive fixed for an entry point.
    pub workgroup_count: Map<Seq<char>, [u32; 3]>,
    /// The entry points that run on the first frame only.
    pub dispatch_once: Map<Seq<char>, bool>,
    /// How often per frame an entry point runs, where a directive says so.
    pub dispatch_count: Map<Seq<char>, u32>,
    /// For each assertion, by its number, the line of the input that made it.
    pub assert_map: Seq<usize>,
    /// The data tables, in the order in which their names first arrived.
    pub user_data: Seq<Table>,
}

impl View for SourceMap {
    type V = SourceModel;

    open spec fn view(&self) -> SourceModel {
        SourceModel {
            extensions: self.extensions@,
            source: self.source@,
            line_map: self.map@,
            workgroup_count: self.workgroup_count@,
            dispatch_once: self.dispatch_once@,
            dispatch_count: self.dispatch_count@,
            assert_map: self.assert_map@,
            user_data: self.user_data@,
        }
    }
}

/// The number of line feeds in `t`, which is the number of lines of a text
/// whose every line is closed by one.
pub open spec fn line_count(t: Seq<char>) -> nat
    decreases t.len(),
{
    if t.len() == 0 {
        0
    } else {
        line_count(t.drop_last()) + if t.last() == '\n' {
            1nat
        } else {
            0nat
        }
    }
}

/// Whether `t` holds no line feed.
pub open spec fn single_line(t: Seq<char>) -> bool {
    forall|i: int| 0 <= i < t.len() ==> #[trigger] t[i] != '\n'
}

/// A text without line feeds, put behind another, adds no line.
pub proof fn lemma_line_count_append(a: Seq<char>, b: Seq<char>)
    requires
        single_line(b),
    ensures
        line_count(a + b) == line_count(a),
    decreases b.len(),
{
    if b.len() == 0 {
        assert(a + b == a);
    } else {
        lemma_line_count_append(a, b.drop_last());
        assert((a + b).drop_last() == a + b.drop_last());
        assert((a + b).last() == b.last());
    }
}

/// The tables of a new source map: the bootstrap table, which holds one
/// zero. It keeps the struct of data tables from being empty, and gives
/// way to the first table that a data directive fills.
pub open spec fn bootstrap_tables() -> Seq<Table> {
    seq![(sentinel_name(), seq![0u32])]
}

/// The first data directive discards the bootstrap table: its table is the
/// only one afterwards.
pub proof fn lemma_first_data_discards_bootstrap(name: Seq<char>, values: Seq<u32>)
    ensures
        add_data(bootstrap_tables(), name, values) == seq![(name, values)],
{
    assert(only_sentinel(bootstrap_tables()));
    assert(extend_table(Seq::<Table>::empty(), name, values) =~= seq![(name, values)]);
}

/// A new source map: no source, no extensions, nothing declared, and the
/// bootstrap table.
pub open spec fn new_source() -> SourceModel {
    SourceModel {
        extensions: Seq::empty(),
        source: Seq::empty(),
        line_map: Seq::empty(),
        workgroup_count: Map::empty(),
        dispatch_once: Map::empty(),
        dispatch_count: Map::empty(),
        assert_map: Seq::empty(),
        user_data: bootstrap_tables(),
    }
}

/// `m` with the line `line`, which came from line `n` of the input, put
/// behind its source.
pub open spec fn with_line(m: SourceModel, line: Seq<char>, n: usize) -> SourceModel {
    SourceModel { source: m.source + line + seq!['\n'], line_map: m.line_map.push(n), ..m }
}

/// `m` with the statement `line` put behind its extensions.
pub open spec fn with_extension(m: SourceModel, line: Seq<char>) -> SourceModel {
    SourceModel { extensions: m.extensions + line + seq!['\n'], ..m }
}

/// Whether `m` maps each line of its source to a line of the input.
pub open spec fn lines_mapped(m: SourceModel) -> bool {
    line_count(m.source) == m.line_map.len()
}

/// A line without line feeds keeps the source and its line map in step.
pub proof fn lemma_with_line_mapped(m: SourceModel, line: Seq<char>, n: usize)
    requires
        lines_mapped(m),
        single_line(line),
    ensures
        lines_mapped(with_line(m, line, n)),
{
    lemma_line_count_append(m.source, line);
    let s = m.source + line + seq!['\n'];
    assert(s.drop_last() == m.source + line);
}

impl SourceMap {
    /// A new source map: it holds nothing but the bootstrap table.
    pub fn new() -> (r: Self)
        ensures
            r@ == new_source(),
    {
        let mut user_data = UserData::new();
        let mut zero: Vec<u32> = Vec::new();
        zero.push(0);
        let name = "_dummy".to_owned();
        proof {
            assert(zero@ =~= seq![0u32]);
            assert(add_data(Seq::<Table>::empty(), name@, zero@) =~= bootstrap_tables());
        }
        user_data.add(name, zero);
        SourceMap {
            extensions: String::new(),
            source: String::new(),
            map: Vec::new(),
            workgroup_count: StringHashMap::new(),
            dispatch_once: StringHashMap::new(),
            dispatch_count: StringHashMap::new(),
            assert_map: Vec::new(),
            user_data,
        }
    }

    /// Puts the line `line`, which came from line `n` of the input, behind
    /// the source.
    pub fn push_line(&mut self, line: &str, n: usize)
        ensures
            final(self)@ == with_line(old(self)@, line@, n),
    {
        self.source.append(line);
        self.source.append("\n");
        self.map.push(n);
        proof {
            reveal_strlit("\n");
            assert("\n"@ =~= seq!['\n']);
        }
    }

    /// Puts the statement `line` behind the extensions.
    pub fn push_extension(&mut self, line: &str)
        ensures
            final(self)@ == with_extension(old(self)@, line@),
    {
        self.extensions.append(line);
        self.extensions.append("\n");
        proof {
            reveal_strlit("\n");
            assert("\n"@ =~= seq!['\n']);
        }
    }

    /// The dispatch grid that a directive fixed for the entry point `name`.
    pub fn workgroup_count_of(&self, name: &str) -> (r: Option<[u32; 3]>)
        ensures
            match r {
                Some(grid) => self@.workgroup_count.contains_key(name@) && grid
                    == self@.workgroup_count[name@],
                None => !self@.workgroup_count.contains_key(name@),
            },
    {
        match self.workgroup_count.get(name) {
            Some(grid) => Some(*grid),
            None => None,
        }
    }

    /// Whether the entry point `name` runs on the first frame only.
    pub fn is_dispatch_once(&self, name: &str) -> (r: bool)
        ensures
            r == (self@.dispatch_once.contains_key(name@) && self@.dispatch_once[name@]),
    {
        match self.dispatch_once.get(name) {
            Some(flag) => *flag,
            None => false,
        }
    }

    /// How often per frame the entry point `name` runs, where a directive
    /// says so.
    pub fn dispatch_count_of(&self, name: &str) -> (r: Option<u32>)
        ensures
            match r {
                Some(count) => self@.dispatch_count.contains_key(name@) && count
                    == self@.dispatch_count[name@],
                None => !self@.dispatch_count.contains_key(name@),
            },
    {
        match self.dispatch_count.get(name) {
            Some(count) => Some(*count),
            None => None,
        }
    }
}

impl Default for SourceMap {
    fn default() -> (r: Self)
        ensures
            r@ == new_source(),
    {
        SourceMap::new()
    }
}

} // verus!
