//! The graph store: ingests an edge stream, assigns dense zero-based
//! vertex indices, and builds a reverse adjacency index (for each vertex,
//! the sorted, deduplicated list of vertices pointing at it) together with
//! the out-degree of every vertex.

use vstd::prelude::*;

use crate::digits::{
    decimal_bytes, digits_part, digits_value, parse_index, render_index, valid_index_token,
    ParseError,
};

verus! {

use vstd::string::StringSliceAdditionalSpecFns;

/// Some name in the table equals `name`.
pub open spec fn has_name(names: Seq<Seq<char>>, name: Seq<char>) -> bool {
    exists|i: int| 0 <= i < names.len() && names[i] == name
}

/// The index holding the name `nm`; meaningful under `has_name`, and
/// unique when the names are pairwise distinct.
pub open spec fn name_index(names: Seq<Seq<char>>, nm: Seq<char>) -> int {
    choose|i: int| 0 <= i < names.len() && names[i] == nm
}

/// The name table after one token is resolved in named mode: unchanged
/// for a known name, extended by the name otherwise.
pub open spec fn names_after(names: Seq<Seq<char>>, nm: Seq<char>) -> Seq<Seq<char>> {
    if has_name(names, nm) {
        names
    } else {
        names.push(nm)
    }
}

/// The index a token resolves to in named mode: the index it already
/// holds, or the freshly assigned next one.
pub open spec fn index_of_token(names: Seq<Seq<char>>, nm: Seq<char>) -> int {
    if has_name(names, nm) {
        name_index(names, nm)
    } else {
        names.len() as int
    }
}

/// Stock damping-loop iteration cap for a freshly built table.
pub const DEFAULT_MAX_ITERATIONS: usize = 10000;

/// A sequence of vertex indices in strictly ascending order: sorted, with
/// no duplicates.
pub open spec fn strictly_sorted(s: Seq<usize>) -> bool {
    forall|i: int, j: int| 0 <= i < j < s.len() ==> s[i] < s[j]
}

/// The mathematical content of a `Table`: the reverse adjacency rows, the
/// out-degree of every vertex, the name table of named mode, and the
/// ingestion parameters.
#[verifier::ext_equal]
pub ghost struct TableView {
    pub trace: bool,
    pub max_iterations: usize,
    pub delim: Seq<char>,
    pub numeric: bool,
    pub num_outgoing: Seq<usize>,
    pub rows: Seq<Seq<usize>>,
    pub names: Seq<Seq<char>>,
}

impl TableView {
    /// The graph has an edge from vertex `u` to the vertex with index `v`.
    pub open spec fn edge(self, u: usize, v: int) -> bool {
        0 <= v < self.rows.len() && self.rows[v].contains(u)
    }

    /// The set of distinct destinations vertex `u` links to.
    pub open spec fn dests(self, u: usize) -> Set<int> {
        Set::new(|v: int| self.edge(u, v))
    }

    /// Well-formedness: rows and out-degrees cover the same vertices, each
    /// row is sorted and duplicate-free, every recorded source is itself a
    /// known vertex, each out-degree counts exactly the distinct
    /// destinations of its vertex, and vertex names are pairwise distinct.
    pub open spec fn wf(self) -> bool {
        &&& self.num_outgoing.len() == self.rows.len()
        &&& forall|v: int| 0 <= v < self.rows.len() ==> strictly_sorted(#[trigger] self.rows[v])
        &&& forall|v: int, k: int|
            0 <= v < self.rows.len() && 0 <= k < self.rows[v].len()
                ==> (#[trigger] self.rows[v][k]) < self.rows.len()
        &&& forall|u: int|
            0 <= u < self.num_outgoing.len()
                ==> (#[trigger] self.num_outgoing[u]) as int == self.dests(u as usize).len() as int
        &&& forall|i: int, j: int|
            0 <= i < j < self.names.len()
                ==> (#[trigger] self.names[i]) != (#[trigger] self.names[j])
    }
}

/// The destination set of any vertex is finite and no larger than the
/// vertex count: it is a subset of the valid row indices.
pub proof fn lemma_dests_card(tv: TableView, u: usize)
    ensures
        tv.dests(u).finite(),
        tv.dests(u).len() <= tv.rows.len(),
{
    let n = tv.rows.len() as int;
    vstd::set_lib::lemma_int_range(0, n);
    assert(tv.dests(u).subset_of(vstd::set_lib::set_int_range(0, n)));
    vstd::set_lib::lemma_len_subset(tv.dests(u), vstd::set_lib::set_int_range(0, n));
}

/// The name table of a well-formed store is a bijection: two indices
/// holding the same name are the same index, so every index maps back
/// to exactly the name that produced it.
pub proof fn lemma_names_bijective(tv: TableView, i: int, j: int)
    requires
        tv.wf(),
        0 <= i < tv.names.len(),
        0 <= j < tv.names.len(),
        tv.names[i] == tv.names[j],
    ensures
        i == j,
{
}

/// Well-formedness depends only on the rows, the out-degrees and the
/// names: two views agreeing on those stand or fall together.
proof fn lemma_wf_same_structure(a: TableView, b: TableView)
    requires
        a.wf(),
        b.rows == a.rows,
        b.num_outgoing == a.num_outgoing,
        b.names == a.names,
    ensures
        b.wf(),
{
    assert forall|u: int|
        0 <= u < b.num_outgoing.len() implies (#[trigger] b.num_outgoing[u]) as int == b.dests(
        u as usize,
    ).len() as int by {
        assert(b.dests(u as usize) =~= a.dests(u as usize));
    }
}

/// Inserting a genuinely new source `from` into row `to` and bumping the
/// out-degree of `from` by one preserves well-formedness, and changes the
/// edge relation by exactly that one edge.
proof fn lemma_update_wf(pre: TableView, post: TableView, from: usize, to: usize)
    requires
        pre.wf(),
        pre.rows.len() <= usize::MAX,
        (to as int) < pre.rows.len(),
        (from as int) < pre.rows.len(),
        !pre.rows[to as int].contains(from),
        post.rows.len() == pre.rows.len(),
        post.num_outgoing.len() == pre.num_outgoing.len(),
        post.names == pre.names,
        forall|v: int| 0 <= v < pre.rows.len() && v != to as int ==> post.rows[v] == pre.rows[v],
        strictly_sorted(post.rows[to as int]),
        forall|x: usize|
            post.rows[to as int].contains(x) <==> pre.rows[to as int].contains(x) || x == from,
        forall|u: int|
            0 <= u < pre.num_outgoing.len() && u != from as int
                ==> post.num_outgoing[u] == pre.num_outgoing[u],
        post.num_outgoing[from as int] as int == pre.num_outgoing[from as int] + 1,
    ensures
        post.wf(),
        forall|u: usize, v: int|
            post.edge(u, v) <==> pre.edge(u, v) || (u == from && v == to as int),
{
    assert forall|u: usize, v: int|
        post.edge(u, v) <==> pre.edge(u, v) || (u == from && v == to as int) by {
        if 0 <= v < pre.rows.len() {
            if v != to as int {
                assert(post.rows[v] == pre.rows[v]);
            }
        }
    }
    // each recorded source is a known vertex
    assert forall|v: int, k: int|
        0 <= v < post.rows.len() && 0 <= k < post.rows[v].len() implies (
        #[trigger] post.rows[v][k]) < post.rows.len() by {
        let x = post.rows[v][k];
        assert(post.rows[v].contains(x));
        if v == to as int {
            if x != from {
                assert(pre.rows[to as int].contains(x));
                let k0 = choose|k0: int|
                    0 <= k0 < pre.rows[to as int].len() && pre.rows[to as int][k0] == x;
                assert(pre.rows[to as int][k0] < pre.rows.len());
            }
        } else {
            assert(pre.rows[v].contains(x));
            let k0 = choose|k0: int| 0 <= k0 < pre.rows[v].len() && pre.rows[v][k0] == x;
            assert(pre.rows[v][k0] < pre.rows.len());
        }
    }
    // out-degrees still count distinct destinations
    assert forall|u: int|
        0 <= u < post.num_outgoing.len() implies (#[trigger] post.num_outgoing[u]) as int
        == post.dests(u as usize).len() as int by {
        let uu = u as usize;
        lemma_dests_card(pre, uu);
        if u == from as int {
            assert(post.dests(uu) =~= pre.dests(uu).insert(to as int));
            assert(!pre.dests(uu).contains(to as int));
            assert(post.dests(uu).len() == pre.dests(uu).len() + 1);
        } else {
            assert(post.dests(uu) =~= pre.dests(uu));
        }
    }
}

/// A graph store for PageRank: the reverse adjacency index, the
/// out-degree vector, the name table, and the ingestion parameters.
pub struct Table {
    trace: bool,
    max_iterations: usize,
    delim: String,
    numeric: bool,
    num_outgoing: Vec<usize>,
    rows: Vec<Vec<usize>>,
    names: Vec<String>,
}

impl View for Table {
    type V = TableView;

    closed spec fn view(&self) -> TableView {
        TableView {
            trace: self.trace,
            max_iterations: self.max_iterations,
            delim: self.delim@,
            numeric: self.numeric,
            num_outgoing: self.num_outgoing@,
            rows: self.rows@.map_values(|r: Vec<usize>| r@),
            names: self.names@.map_values(|s: String| s@),
        }
    }
}

impl Default for Table {
    /// A fresh, empty table with the stock parameters: tracing off, named
    /// mode, delimiter `" => "`, and the stock iteration cap.
    fn default() -> (t: Table)
        ensures
            t@.wf(),
            t@.rows.len() == 0,
            t@.num_outgoing.len() == 0,
            t@.names.len() == 0,
            t@.trace == false,
            t@.numeric == false,
            t@.max_iterations == DEFAULT_MAX_ITERATIONS,
            t@.delim == " => "@,
    {
        Table {
            trace: false,
            max_iterations: DEFAULT_MAX_ITERATIONS,
            delim: " => ".to_owned(),
            numeric: false,
            num_outgoing: Vec::new(),
            rows: Vec::new(),
            names: Vec::new(),
        }
    }
}

impl Table {
    /// A fresh, empty table with the stock parameters.
    pub fn new() -> (t: Table)
        ensures
            t@.wf(),
            t@.rows.len() == 0,
            t@.num_outgoing.len() == 0,
            t@.names.len() == 0,
            t@.trace == false,
            t@.numeric == false,
            t@.max_iterations == DEFAULT_MAX_ITERATIONS,
            t@.delim == " => "@,
    {
        Table::default()
    }

    /// Clears all rows, out-degrees and name mappings, keeping the
    /// ingestion parameters, so the table can take fresh input.
    pub fn reset(&mut self)
        ensures
            final(self)@.wf(),
            final(self)@.rows.len() == 0,
            final(self)@.num_outgoing.len() == 0,
            final(self)@.names.len() == 0,
            final(self)@.trace == old(self)@.trace,
            final(self)@.numeric == old(self)@.numeric,
            final(self)@.max_iterations == old(self)@.max_iterations,
            final(self)@.delim == old(self)@.delim,
    {
        self.num_outgoing.clear();
        self.rows.clear();
        self.names.clear();
    }

    /// Returns the number of rows of the link matrix: the vertex count.
    pub fn get_num_rows(&self) -> (r: usize)
        ensures
            r as int == self@.rows.len(),
    {
        self.rows.len()
    }

    /// Read-only view of the reverse adjacency rows, for the solver.
    pub fn get_rows(&self) -> (r: &Vec<Vec<usize>>)
        ensures
            r@.map_values(|v: Vec<usize>| v@) == self@.rows,
    {
        &self.rows
    }

    /// Read-only view of the out-degree vector, for the solver.
    pub fn get_num_outgoing(&self) -> (r: &Vec<usize>)
        ensures
            r@ == self@.num_outgoing,
    {
        &self.num_outgoing
    }

    /// Read-only view of the index-to-name table of named mode, in index
    /// order.
    pub fn get_mapping(&self) -> (r: &Vec<String>)
        ensures
            r@.map_values(|s: String| s@) == self@.names,
    {
        &self.names
    }

    /// Returns true when tracing output is enabled, false otherwise.
    pub fn get_trace(&self) -> (r: bool)
        ensures
            r == self@.trace,
    {
        self.trace
    }

    /// Sets tracing output.
    pub fn set_trace(&mut self, t: bool)
        ensures
            final(self)@ == (TableView { trace: t, ..old(self)@ }),
            old(self)@.wf() ==> final(self)@.wf(),
    {
        self.trace = t;
        proof {
            if old(self)@.wf() {
                lemma_wf_same_structure(old(self)@, self@);
            }
        }
    }

    /// Returns true if edge tokens are numeric (dense zero-based vertex
    /// indices), false if they are arbitrary names.
    pub fn get_numeric(&self) -> (r: bool)
        ensures
            r == self@.numeric,
    {
        self.numeric
    }

    /// Selects between numeric tokens and arbitrary name tokens.
    pub fn set_numeric(&mut self, n: bool)
        ensures
            final(self)@ == (TableView { numeric: n, ..old(self)@ }),
            old(self)@.wf() ==> final(self)@.wf(),
    {
        self.numeric = n;
        proof {
            if old(self)@.wf() {
                lemma_wf_same_structure(old(self)@, self@);
            }
        }
    }

    /// Returns the maximum number of solver iterations.
    pub fn get_max_iterations(&self) -> (r: usize)
        ensures
            r == self@.max_iterations,
    {
        self.max_iterations
    }

    /// Sets the maximum number of solver iterations.
    pub fn set_max_iterations(&mut self, i: usize)
        ensures
            final(self)@ == (TableView { max_iterations: i, ..old(self)@ }),
            old(self)@.wf() ==> final(self)@.wf(),
    {
        self.max_iterations = i;
        proof {
            if old(self)@.wf() {
                lemma_wf_same_structure(old(self)@, self@);
            }
        }
    }

    /// Returns the delimiter that separates the two vertex tokens on each
    /// input line.
    pub fn get_delim(&self) -> (r: &str)
        ensures
            r@ == self@.delim,
    {
        self.delim.as_str()
    }

    /// Inserts `t` into a strictly sorted vector at its sorted position,
    /// unless it is already present. Returns whether `t` was newly added.
    fn insert_into_vector(v: &mut Vec<usize>, t: usize) -> (r: bool)
        requires
            strictly_sorted(old(v)@),
        ensures
            strictly_sorted(final(v)@),
            r == !old(v)@.contains(t),
            forall|x: usize| final(v)@.contains(x) <==> old(v)@.contains(x) || x == t,
            r ==> final(v)@.len() == old(v)@.len() + 1,
            !r ==> final(v)@ == old(v)@,
    {
        let mut i: usize = 0;
        while i < v.len() && v[i] < t
            invariant
                v@ == old(v)@,
                strictly_sorted(v@),
                i <= v@.len(),
                forall|k: int| 0 <= k < i ==> v@[k] < t,
            decreases v@.len() - i,
        {
            i = i + 1;
        }
        if i < v.len() && v[i] == t {
            assert(old(v)@.contains(t)) by {
                assert(old(v)@[i as int] == t);
            }
            return false;
        }
        proof {
            assert forall|k: int| 0 <= k < old(v)@.len() implies old(v)@[k] != t by {
                if k >= i {
                    if i < old(v)@.len() {
                        if k > i {
                            assert(old(v)@[i as int] < old(v)@[k]);
                        }
                    }
                }
            }
            assert(!old(v)@.contains(t));
            old(v)@.insert_ensures(i as int, t);
        }
        v.insert(i, t);
        proof {
            assert(v@ == old(v)@.insert(i as int, t));
            assert forall|a: int, b: int| 0 <= a < b < v@.len() implies v@[a] < v@[b] by {
                let ov = old(v)@;
                if b > i {
                    assert(v@[b] == ov[b - 1]);
                    assert(i < ov.len());
                    if b - 1 > i {
                        assert(ov[i as int] < ov[b - 1]);
                    }
                    assert(ov[b - 1] > t);
                }
                if a < i {
                    assert(v@[a] == ov[a] && ov[a] < t);
                } else if a == i {
                    assert(v@[a] == t);
                } else {
                    assert(v@[a] == ov[a - 1]);
                }
                if b < i {
                    assert(v@[b] == ov[b]);
                } else if b == i {
                    assert(v@[b] == t);
                }
            }
            assert forall|x: usize| v@.contains(x) <==> old(v)@.contains(x) || x == t by {
                if v@.contains(x) {
                    let k = choose|k: int| 0 <= k < v@.len() && v@[k] == x;
                    if k < i {
                        assert(old(v)@[k] == x);
                    } else if k == i {
                    } else {
                        assert(old(v)@[k - 1] == x);
                    }
                }
                if old(v)@.contains(x) {
                    let k = choose|k: int| 0 <= k < old(v)@.len() && old(v)@[k] == x;
                    if k < i {
                        assert(v@[k] == x);
                    } else {
                        assert(v@[k + 1] == x);
                    }
                }
                if x == t {
                    assert(v@[i as int] == t);
                }
            }
        }
        true
    }

    /// Grows the rows and out-degree vectors with empty rows and zero
    /// degrees until they hold at least `target` vertices. Never shrinks.
    fn grow(&mut self, target: usize)
        requires
            old(self)@.wf(),
        ensures
            final(self)@.wf(),
            final(self)@.rows.len() == vstd::math::max(
                old(self)@.rows.len() as int,
                target as int,
            ),
            forall|v: int|
                0 <= v < old(self)@.rows.len() ==> final(self)@.rows[v] == old(self)@.rows[v],
            forall|v: int|
                old(self)@.rows.len() <= v < final(self)@.rows.len()
                    ==> final(self)@.rows[v].len() == 0,
            forall|u: int|
                0 <= u < old(self)@.num_outgoing.len()
                    ==> final(self)@.num_outgoing[u] == old(self)@.num_outgoing[u],
            forall|u: int|
                old(self)@.num_outgoing.len() <= u < final(self)@.num_outgoing.len()
                    ==> final(self)@.num_outgoing[u] == 0,
            forall|u: usize, v: int| final(self)@.edge(u, v) <==> old(self)@.edge(u, v),
            final(self)@.names == old(self)@.names,
            final(self)@.trace == old(self)@.trace,
            final(self)@.numeric == old(self)@.numeric,
            final(self)@.max_iterations == old(self)@.max_iterations,
            final(self)@.delim == old(self)@.delim,
    {
        while self.rows.len() < target
            invariant
                old(self)@.wf(),
                self@.num_outgoing.len() == self@.rows.len(),
                self@.rows.len() >= old(self)@.rows.len(),
                self@.rows.len() <= vstd::math::max(old(self)@.rows.len() as int, target as int),
                forall|v: int|
                    0 <= v < old(self)@.rows.len() ==> self@.rows[v] == old(self)@.rows[v],
                forall|v: int|
                    old(self)@.rows.len() <= v < self@.rows.len() ==> self@.rows[v].len() == 0,
                forall|u: int|
                    0 <= u < old(self)@.num_outgoing.len()
                        ==> self@.num_outgoing[u] == old(self)@.num_outgoing[u],
                forall|u: int|
                    old(self)@.num_outgoing.len() <= u < self@.num_outgoing.len()
                        ==> self@.num_outgoing[u] == 0,
                self@.names == old(self)@.names,
                self@.trace == old(self)@.trace,
                self@.numeric == old(self)@.numeric,
                self@.max_iterations == old(self)@.max_iterations,
                self@.delim == old(self)@.delim,
            decreases target as int - self@.rows.len(),
        {
            let ghost prev = self@;
            self.rows.push(Vec::new());
            self.num_outgoing.push(0);
            proof {
                assert forall|v: int|
                    old(self)@.rows.len() <= v < self@.rows.len() implies self@.rows[v].len()
                    == 0 by {
                    if v < prev.rows.len() {
                        assert(self@.rows[v] == prev.rows[v]);
                    } else {
                        assert(self@.rows[v] == self.rows@[v]@);
                    }
                }
            }
        }
        proof {
            let pre = old(self)@;
            let post = self@;
            assert forall|u: usize, v: int| post.edge(u, v) <==> pre.edge(u, v) by {
                if 0 <= v < pre.rows.len() {
                    assert(post.rows[v] == pre.rows[v]);
                } else if pre.rows.len() <= v < post.rows.len() {
                    assert(post.rows[v].len() == 0);
                    assert(!post.rows[v].contains(u));
                }
            }
            assert forall|v: int, k: int|
                0 <= v < post.rows.len() && 0 <= k < post.rows[v].len() implies (
            #[trigger] post.rows[v][k]) < post.rows.len() by {
                if v < pre.rows.len() {
                    assert(pre.rows[v][k] < pre.rows.len());
                }
            }
            assert forall|u: int|
                0 <= u < post.num_outgoing.len() implies (#[trigger] post.num_outgoing[u]) as int
                == post.dests(u as usize).len() as int by {
                let uu = u as usize;
                assert(post.dests(uu) =~= pre.dests(uu));
                if u < pre.num_outgoing.len() {
                } else {
                    assert forall|v: int| !pre.edge(uu, v) by {
                        if 0 <= v < pre.rows.len() {
                            if pre.rows[v].contains(uu) {
                                let k = choose|k: int|
                                    0 <= k < pre.rows[v].len() && pre.rows[v][k] == uu;
                                assert(pre.rows[v][k] < pre.rows.len());
                            }
                        }
                    }
                    assert(pre.dests(uu) =~= Set::<int>::empty());
                    assert(pre.dests(uu).len() == 0);
                }
            }
        }
    }

    /// Adds an arc to the hyperlink matrix between `from` and `to`.
    ///
    /// Rows and out-degrees grow on demand to cover both endpoints. The
    /// source is kept at its sorted position in row `to`; a duplicate arc
    /// changes nothing at all, and only a genuinely new arc bumps the
    /// out-degree of `from`. Returns whether the arc was newly added.
    pub fn add_arc(&mut self, from: usize, to: usize) -> (r: bool)
        requires
            old(self)@.wf(),
            from < usize::MAX,
            to < usize::MAX,
        ensures
            final(self)@.wf(),
            r == !old(self)@.edge(from, to as int),
            forall|u: usize, v: int|
                final(self)@.edge(u, v) <==> old(self)@.edge(u, v) || (u == from && v
                    == to as int),
            final(self)@.rows.len() == vstd::math::max(
                old(self)@.rows.len() as int,
                vstd::math::max(from as int, to as int) + 1,
            ),
            !r ==> final(self)@ == old(self)@,
            forall|u: int|
                0 <= u < old(self)@.num_outgoing.len() && u != from as int
                    ==> final(self)@.num_outgoing[u] == old(self)@.num_outgoing[u],
            r && (from as int) < old(self)@.num_outgoing.len()
                ==> final(self)@.num_outgoing[from as int]
                    == old(self)@.num_outgoing[from as int] + 1,
            r && (from as int) >= old(self)@.num_outgoing.len()
                ==> final(self)@.num_outgoing[from as int] == 1,
            final(self)@.names == old(self)@.names,
            final(self)@.trace == old(self)@.trace,
            final(self)@.numeric == old(self)@.numeric,
            final(self)@.max_iterations == old(self)@.max_iterations,
            final(self)@.delim == old(self)@.delim,
    {
        let max_dim: usize = if from > to {
            from
        } else {
            to
        };
        if self.rows.len() <= max_dim {
            self.grow(max_dim + 1);
        }
        let ghost pre = self@;
        proof {
            assert(pre.edge(from, to as int) == old(self)@.edge(from, to as int));
        }
        let ret: bool = Self::insert_into_vector(&mut self.rows[to], from);
        proof {
            assert(self@.rows =~= pre.rows.update(to as int, self.rows@[to as int]@));
        }
        if ret {
            proof {
                // the new destination set of `from` still fits the vertex
                // count, so the out-degree cannot overflow
                let n = pre.rows.len() as int;
                lemma_dests_card(pre, from);
                vstd::set_lib::lemma_int_range(0, n);
                assert(pre.dests(from).insert(to as int).subset_of(
                    vstd::set_lib::set_int_range(0, n),
                ));
                vstd::set_lib::lemma_len_subset(
                    pre.dests(from).insert(to as int),
                    vstd::set_lib::set_int_range(0, n),
                );
                assert(!pre.dests(from).contains(to as int));
                assert(pre.dests(from).len() + 1 <= n);
                assert(pre.num_outgoing[from as int] < n);
            }
            let deg: &mut usize = &mut self.num_outgoing[from];
            *deg = *deg + 1;
            proof {
                lemma_update_wf(pre, self@, from, to);
            }
        } else {
            proof {
                assert(self@.rows =~= pre.rows);
                assert(self@ =~= pre);
            }
        }
        ret
    }

    /// Adds a mapping from a node's name to a dense numeric index in
    /// first-seen order. Returns the index of the name: the index it
    /// already had, or the freshly assigned next one.
    fn insert_mapping(&mut self, key: String) -> (idx: usize)
        requires
            old(self)@.wf(),
        ensures
            final(self)@.wf(),
            (idx as int) < final(self)@.names.len(),
            final(self)@.names[idx as int] == key@,
            idx as int == index_of_token(old(self)@.names, key@),
            final(self)@ == (TableView {
                names: names_after(old(self)@.names, key@),
                ..old(self)@
            }),
            has_name(old(self)@.names, key@) ==> final(self)@ == old(self)@,
            !has_name(old(self)@.names, key@) ==> final(self)@ == (TableView {
                names: old(self)@.names.push(key@),
                ..old(self)@
            }) && idx as int == old(self)@.names.len(),
    {
        let n: usize = self.names.len();
        let mut i: usize = 0;
        while i < n
            invariant
                old(self)@.wf(),
                self@ == old(self)@,
                n == self@.names.len(),
                i <= n,
                forall|k: int| 0 <= k < i ==> self@.names[k] != key@,
            decreases n - i,
        {
            let nm: &String = &self.names[i];
            if *nm == key {
                proof {
                    assert(old(self)@.names[i as int] == key@);
                    assert(has_name(old(self)@.names, key@));
                    let j = name_index(old(self)@.names, key@);
                    assert(0 <= j < old(self)@.names.len() && old(self)@.names[j] == key@);
                    if j != i as int {
                        lemma_names_bijective(old(self)@, j, i as int);
                    }
                    assert(self@ =~= (TableView {
                        names: names_after(old(self)@.names, key@),
                        ..old(self)@
                    }));
                }
                return i;
            }
            i = i + 1;
        }
        proof {
            assert(!has_name(self@.names, key@));
        }
        self.names.push(key);
        proof {
            assert(self@.names =~= old(self)@.names.push(key@));
            assert(self@ =~= (TableView { names: old(self)@.names.push(key@), ..old(self)@ }));
            assert forall|a: int, b: int|
                0 <= a < b < self@.names.len() implies (#[trigger] self@.names[a]) != (
            #[trigger] self@.names[b]) by {
                if b == self@.names.len() - 1 {
                    assert(self@.names[a] == old(self)@.names[a]);
                }
            }
            assert(self@.rows == old(self)@.rows);
            assert(self@.num_outgoing == old(self)@.num_outgoing);
            assert forall|u: int|
                0 <= u < self@.num_outgoing.len() implies (#[trigger] self@.num_outgoing[u]) as int
                == self@.dests(u as usize).len() as int by {
                assert(self@.dests(u as usize) =~= old(self)@.dests(u as usize));
            }
            assert(self@.wf());
        }
        n
    }

    /// Resolves an edge token to a dense vertex index: in numeric mode
    /// the token must itself be a non-negative integer, which is its own
    /// index; in named mode the token's index is looked up in the name
    /// table, or newly assigned in first-seen order.
    pub fn resolve_vertex(&mut self, token: &str) -> (r: Result<usize, ParseError>)
        requires
            old(self)@.wf(),
        ensures
            final(self)@.wf(),
            old(self)@.numeric ==> final(self)@ == old(self)@,
            old(self)@.numeric ==> (r is Ok <==> valid_index_token(token.spec_bytes())),
            old(self)@.numeric && r is Ok ==> r->Ok_0 as int == digits_value(
                digits_part(token.spec_bytes()),
            ),
            !old(self)@.numeric ==> r is Ok,
            !old(self)@.numeric ==> {
                let idx = r->Ok_0;
                &&& (idx as int) < final(self)@.names.len()
                &&& final(self)@.names[idx as int] == token@
                &&& idx as int == index_of_token(old(self)@.names, token@)
                &&& final(self)@ == (TableView {
                    names: names_after(old(self)@.names, token@),
                    ..old(self)@
                })
                &&& (has_name(old(self)@.names, token@) ==> final(self)@ == old(self)@)
                &&& (!has_name(old(self)@.names, token@) ==> final(self)@ == (TableView {
                    names: old(self)@.names.push(token@),
                    ..old(self)@
                }) && idx as int == old(self)@.names.len())
            },
    {
        if self.numeric {
            parse_index(token)
        } else {
            Ok(self.insert_mapping(token.to_owned()))
        }
    }

    /// Ingests one edge given as a pair of raw tokens: resolves the
    /// source token, then the destination token, and records the arc
    /// between them, growing the tables to cover both endpoints.
    /// Returns whether the arc was newly added.
    ///
    /// In numeric mode a token that is not a valid index, or one too
    /// large for the tables to grow past, is a `ParseError` and leaves
    /// the table unchanged; in named mode every token pair resolves.
    pub fn ingest_edge(&mut self, from_token: &str, to_token: &str) -> (r: Result<
        bool,
        ParseError,
    >)
        requires
            old(self)@.wf(),
            old(self)@.names.len() + 2 < usize::MAX,
        ensures
            final(self)@.wf(),
            final(self)@.trace == old(self)@.trace,
            final(self)@.numeric == old(self)@.numeric,
            final(self)@.max_iterations == old(self)@.max_iterations,
            final(self)@.delim == old(self)@.delim,
            old(self)@.numeric ==> ({
                let fv = digits_value(digits_part(from_token.spec_bytes()));
                let tv = digits_value(digits_part(to_token.spec_bytes()));
                &&& final(self)@.names == old(self)@.names
                &&& (r is Ok <==> valid_index_token(from_token.spec_bytes())
                    && valid_index_token(to_token.spec_bytes()) && fv < usize::MAX && tv
                    < usize::MAX)
                &&& (r is Err ==> final(self)@ == old(self)@)
                &&& (r is Ok ==> r->Ok_0 == !old(self)@.edge(fv as usize, tv))
                &&& (r is Ok ==> (forall|u: usize, v: int|
                    final(self)@.edge(u, v) <==> old(self)@.edge(u, v) || (u == fv as usize && v
                        == tv)))
                &&& (r is Ok ==> final(self)@.rows.len() == vstd::math::max(
                    old(self)@.rows.len() as int,
                    vstd::math::max(fv, tv) + 1,
                ))
            }),
            !old(self)@.numeric ==> ({
                let n1 = names_after(old(self)@.names, from_token@);
                let f = index_of_token(old(self)@.names, from_token@);
                let t = index_of_token(n1, to_token@);
                &&& r is Ok
                &&& final(self)@.names == names_after(n1, to_token@)
                &&& r->Ok_0 == !old(self)@.edge(f as usize, t)
                &&& (forall|u: usize, v: int|
                    final(self)@.edge(u, v) <==> old(self)@.edge(u, v) || (u == f as usize && v
                        == t))
                &&& final(self)@.rows.len() == vstd::math::max(
                    old(self)@.rows.len() as int,
                    vstd::math::max(f, t) + 1,
                )
            }),
    {
        let from_idx: usize = match self.resolve_vertex(from_token) {
            Ok(i) => i,
            Err(e) => {
                return Err(e);
            },
        };
        if from_idx == usize::MAX {
            proof {
                assert(old(self)@.numeric);
            }
            return Err(ParseError);
        }
        let ghost mid1 = self@;
        let to_idx: usize = match self.resolve_vertex(to_token) {
            Ok(i) => i,
            Err(e) => {
                return Err(e);
            },
        };
        if to_idx == usize::MAX {
            proof {
                assert(old(self)@.numeric);
            }
            return Err(ParseError);
        }
        let ghost mid2 = self@;
        proof {
            assert(mid2.rows == old(self)@.rows);
            assert(mid2.num_outgoing == old(self)@.num_outgoing);
        }
        let added: bool = self.add_arc(from_idx, to_idx);
        Ok(added)
    }

    /// Sets the number of rows of the link matrix, growing the rows and
    /// out-degree vectors with empty rows and zero degrees as needed.
    /// Rows are never shrunk: a count at or below the current vertex
    /// count leaves the table as it is.
    pub fn set_num_rows(&mut self, num_rows: usize)
        requires
            old(self)@.wf(),
        ensures
            final(self)@.wf(),
            final(self)@.rows.len() == vstd::math::max(
                old(self)@.rows.len() as int,
                num_rows as int,
            ),
            forall|v: int|
                0 <= v < old(self)@.rows.len() ==> final(self)@.rows[v] == old(self)@.rows[v],
            forall|v: int|
                old(self)@.rows.len() <= v < final(self)@.rows.len()
                    ==> final(self)@.rows[v].len() == 0,
            forall|u: int|
                0 <= u < old(self)@.num_outgoing.len()
                    ==> final(self)@.num_outgoing[u] == old(self)@.num_outgoing[u],
            forall|u: int|
                old(self)@.num_outgoing.len() <= u < final(self)@.num_outgoing.len()
                    ==> final(self)@.num_outgoing[u] == 0,
            forall|u: usize, v: int| final(self)@.edge(u, v) <==> old(self)@.edge(u, v),
            final(self)@.names == old(self)@.names,
            final(self)@.trace == old(self)@.trace,
            final(self)@.numeric == old(self)@.numeric,
            final(self)@.max_iterations == old(self)@.max_iterations,
            final(self)@.delim == old(self)@.delim,
    {
        self.grow(num_rows);
    }

    /// Reserves space for the internal tables used for the calculation:
    /// purely a capacity hint, with no observable effect on the table.
    pub fn reserve(&mut self, size: usize)
        ensures
            final(self)@ == old(self)@,
    {
        self.num_outgoing.reserve(size);
        self.rows.reserve(size);
    }

    /// Returns the display name of the vertex with the given index: the
    /// decimal string of the index itself in numeric mode, or the
    /// original token that produced the index in named mode.
    pub fn get_node_name(&self, index: usize) -> (r: String)
        requires
            !self@.numeric ==> (index as int) < self@.names.len(),
        ensures
            self@.numeric ==> r@.len() == decimal_bytes(index as int).len() && (forall|i: int|
                0 <= i < r@.len() ==> r@[i] as int == decimal_bytes(index as int)[i] as int),
            !self@.numeric ==> r@ == self@.names[index as int],
    {
        if self.numeric {
            render_index(index)
        } else {
            self.names[index].clone()
        }
    }

    /// Sets the delimiter that separates the two vertex tokens on each
    /// input line.
    pub fn set_delim(&mut self, d: &str)
        ensures
            final(self)@ == (TableView { delim: d@, ..old(self)@ }),
            old(self)@.wf() ==> final(self)@.wf(),
    {
        self.delim = d.to_owned();
        proof {
            if old(self)@.wf() {
                lemma_wf_same_structure(old(self)@, self@);
            }
        }
    }
}

} // verus!

