//! The arbitrage pipeline: graph construction from a rate table,
//! negative-cycle search by relaxation, cycle normalization, profit
//! evaluation and best-candidate selection.
use vstd::prelude::*;

use crate::dec::dec_add;
use crate::dec::dec_cmp;
use crate::dec::dec_from_str;
use crate::dec::dec_from_u64;
use crate::dec::dec_lt;
use crate::dec::dec_mul;
use crate::dec::dec_neg;
use crate::dec::dec_zero;
use crate::dec::parse_dec_str;
use crate::dec::Dec;
use crate::digits::p10;
use crate::digits::u_is_zero;
use crate::error::ArbiError;
use crate::rates::RateTable;
use crate::Cmp;

verus! {

/// Mantissa and scale of every distance in a vector, the model the
/// relaxation is stated over.
pub open spec fn pairs_of(s: Seq<Dec>) -> Seq<(int, int)> {
    s.map_values(|d: Dec| (d.mant(), d.scale as int))
}

/// Exact addition on mantissa/scale pairs, as `dec_add` computes it.
pub open spec fn dd_add(a: (int, int), b: (int, int)) -> (int, int) {
    let sc = if a.1 >= b.1 {
        a.1
    } else {
        b.1
    };
    (a.0 * p10((sc - a.1) as nat) + b.0 * p10((sc - b.1) as nat), sc)
}

/// Strict order on mantissa/scale pairs, as `dec_cmp` decides it.
pub open spec fn dd_lt(a: (int, int), b: (int, int)) -> bool {
    a.0 * p10(b.1 as nat) < b.0 * p10(a.1 as nat)
}

/// One relaxation of one edge over the distance and predecessor model.
pub open spec fn relax_edge(
    d: Seq<(int, int)>,
    p: Seq<Option<usize>>,
    e: (usize, usize, Dec),
) -> (Seq<(int, int)>, Seq<Option<usize>>) {
    let nd = dd_add(d[e.0 as int], (e.2.mant(), e.2.scale as int));
    if dd_lt(nd, d[e.1 as int]) {
        (d.update(e.1 as int, nd), p.update(e.1 as int, Some(e.0)))
    } else {
        (d, p)
    }
}

/// The state after relaxing the edges from position `i` on and then
/// `rounds - 1` more full passes.
pub open spec fn relax_all(
    d: Seq<(int, int)>,
    p: Seq<Option<usize>>,
    edges: Seq<(usize, usize, Dec)>,
    i: int,
    rounds: int,
) -> (Seq<(int, int)>, Seq<Option<usize>>)
    decreases rounds, edges.len() - i,
{
    if rounds <= 0 {
        (d, p)
    } else if i < 0 || i >= edges.len() {
        relax_all(d, p, edges, 0, rounds - 1)
    } else {
        let s = relax_edge(d, p, edges[i]);
        relax_all(s.0, s.1, edges, i + 1, rounds)
    }
}

/// Starting distances: zero at the base vertex, a large sentinel
/// elsewhere.
pub open spec fn init_dist(n: int, bi: int) -> Seq<(int, int)> {
    Seq::new(
        n as nat,
        |i: int|
            if i == bi {
                (0int, 0int)
            } else {
                (1000000000int, 0int)
            },
    )
}

/// Starting predecessors: none.
pub open spec fn init_pred(n: int) -> Seq<Option<usize>> {
    Seq::new(n as nat, |i: int| None::<usize>)
}

/// First index holding `name`, or the length when absent.
pub open spec fn name_idx(vs: Seq<String>, name: Seq<char>) -> int
    decreases vs.len(),
{
    if vs.len() == 0 {
        0
    } else if vs[0]@ == name {
        0
    } else {
        1 + name_idx(vs.drop_first(), name)
    }
}

proof fn lemma_name_idx_at(vs: Seq<String>, name: Seq<char>, i: int)
    requires
        0 <= i < vs.len(),
        forall|j: int| 0 <= j < i ==> (#[trigger] vs[j])@ != name,
        vs[i]@ == name,
    ensures
        name_idx(vs, name) == i,
    decreases i,
{
    if i > 0 {
        assert(forall|j: int| 0 <= j < vs.len() - 1 ==> vs.drop_first()[j] == vs[j + 1]);
        lemma_name_idx_at(vs.drop_first(), name, i - 1);
    }
}

proof fn lemma_name_idx_none(vs: Seq<String>, name: Seq<char>)
    requires
        forall|j: int| 0 <= j < vs.len() ==> (#[trigger] vs[j])@ != name,
    ensures
        name_idx(vs, name) == vs.len(),
    decreases vs.len(),
{
    if vs.len() > 0 {
        assert(forall|j: int| 0 <= j < vs.len() - 1 ==> vs.drop_first()[j] == vs[j + 1]);
        lemma_name_idx_none(vs.drop_first(), name);
    }
}

/// Whether the predecessor walk from `cur` revisits a vertex within the
/// step budget, marking each visited vertex as it goes; a missing
/// predecessor or an exhausted budget without a revisit means no
/// closure.
pub open spec fn walk_closes(
    p: Seq<Option<usize>>,
    vis: Seq<bool>,
    cur: int,
    steps: int,
    n: int,
) -> bool
    decreases n - steps,
{
    if steps >= n {
        0 <= cur < vis.len() && vis[cur]
    } else if 0 <= cur < vis.len() && vis[cur] {
        true
    } else {
        match (if 0 <= cur < p.len() {
            p[cur]
        } else {
            None
        }) {
            Some(q) => walk_closes(p, vis.update(cur, true), q as int, steps + 1, n),
            None => false,
        }
    }
}

/// The edge still relaxes under the final distances.
pub open spec fn edge_violated(d: Seq<(int, int)>, e: (usize, usize, Dec)) -> bool {
    dd_lt(dd_add(d[e.0 as int], (e.2.mant(), e.2.scale as int)), d[e.1 as int])
}

/// Some edge at position `i` or later both still relaxes and has a
/// closing predecessor walk.
pub open spec fn any_candidate(
    d: Seq<(int, int)>,
    p: Seq<Option<usize>>,
    edges: Seq<(usize, usize, Dec)>,
    i: int,
    n: int,
) -> bool
    decreases edges.len() - i,
{
    if i < 0 || i >= edges.len() {
        false
    } else {
        (edge_violated(d, edges[i]) && walk_closes(
            p,
            Seq::new(n as nat, |t: int| false),
            edges[i].0 as int,
            0,
            n,
        )) || any_candidate(d, p, edges, i + 1, n)
    }
}

/// The finder reports candidates exactly when, after |V|-1 relaxation
/// rounds from the base currency, some edge still relaxes and its
/// predecessor walk closes within the step budget.
pub open spec fn finder_reports(base: Seq<char>, g: Graph) -> bool {
    let n = g.verts@.len() as int;
    let st = relax_all(
        init_dist(n, name_idx(g.verts@, base)),
        init_pred(n),
        g.edges@,
        0,
        n - 1,
    );
    n > 0 && any_candidate(st.0, st.1, g.edges@, 0, n)
}

/// Number of separator characters in a pair key.
pub open spec fn dash_count(s: Seq<char>) -> int
    decreases s.len(),
{
    if s.len() == 0 {
        0
    } else {
        dash_count(s.drop_last()) + if s.last() == '-' {
            1int
        } else {
            0int
        }
    }
}

/// Index of the first separator, or the length when there is none.
pub open spec fn dash_idx(s: Seq<char>) -> int
    decreases s.len(),
{
    if s.len() == 0 {
        0
    } else {
        let p = dash_idx(s.drop_last());
        if p < s.len() - 1 {
            p
        } else if s.last() == '-' {
            s.len() - 1
        } else {
            s.len() as int
        }
    }
}

/// A key splits into exactly two non-empty codes around one separator.
pub open spec fn pair_key_ok(s: Seq<char>) -> bool {
    dash_count(s) == 1 && 0 < dash_idx(s) && dash_idx(s) < s.len() - 1
}

/// The code before the separator.
pub open spec fn pair_from(s: Seq<char>) -> Seq<char> {
    s.take(dash_idx(s))
}

/// The code after the separator.
pub open spec fn pair_to(s: Seq<char>) -> Seq<char> {
    s.skip(dash_idx(s) + 1)
}

/// Splits a pair key into its two currency codes, or nothing when the key
/// is not exactly two non-empty codes joined by one separator.
pub fn split_pair(key: &str) -> (r: Option<(String, String)>)
    ensures
        r is Some <==> pair_key_ok(key@),
        r matches Some(p) ==> p.0@ == pair_from(key@) && p.1@ == pair_to(key@),
{
    let n = key.unicode_len();
    let mut cnt: usize = 0;
    let mut found: bool = false;
    let mut first: usize = 0;
    let mut i: usize = 0;
    proof {
        assert(key@.take(0) =~= Seq::<char>::empty());
    }
    while i < n
        invariant
            n == key@.len(),
            i <= n,
            cnt <= i,
            cnt as int == dash_count(key@.take(i as int)),
            found <==> cnt > 0,
            found ==> first < i && dash_idx(key@.take(i as int)) == first,
            !found ==> dash_idx(key@.take(i as int)) == i,
        decreases n - i,
    {
        let c = key.get_char(i);
        proof {
            assert(key@.take(i + 1).drop_last() =~= key@.take(i as int));
            assert(key@.take(i + 1).last() == key@[i as int]);
        }
        if c == '-' {
            cnt = cnt + 1;
            if !found {
                found = true;
                first = i;
            }
        }
        i = i + 1;
    }
    proof {
        assert(key@.take(n as int) =~= key@);
    }
    if cnt != 1 {
        return None;
    }
    if first == 0 || first + 1 >= n {
        return None;
    }
    let from = key.substring_char(0, first).to_owned();
    let to = key.substring_char(first + 1, n).to_owned();
    proof {
        assert(from@ =~= pair_from(key@));
        assert(to@ =~= pair_to(key@));
    }
    Some((from, to))
}

/// What rust_decimal computes for the natural logarithm of the decimal
/// with the given digits and scale: the rendering of `ln` of that number,
/// or nothing when the number cannot be represented or is not positive.
/// The outcome depends on the digits and the scale alone.
pub uninterp spec fn ln_str_of(mag: Seq<u8>, scale: nat) -> Option<Seq<char>>;

/// Relies on rust_decimal: `Decimal::from_str` reads the decimal literal
/// formed from `mag` and `scale`, `MathematicalOps::checked_ln` computes
/// the natural logarithm (returning `None` instead of panicking for
/// non-positive values), and `Decimal`'s `Display` renders the result as
/// a plain decimal literal.  All three are functions of their input alone,
/// so the composite result is named by `ln_str_of`.  The logarithm is
/// computed at `Decimal`'s fixed 96-bit precision: a rate with more
/// significant digits is rounded before the logarithm is taken, and the
/// result itself is an approximation, which is why edge weights are
/// fit only for cycle detection while profits are evaluated exactly
/// from the rates themselves.
#[verifier::external_body]
fn ln_decimal_str(mag: &Vec<u8>, scale: usize) -> (r: Option<String>)
    requires
        crate::digits::digits_wf(mag@),
    ensures
        r is Some <==> ln_str_of(mag@, scale as nat) is Some,
        r matches Some(s) ==> ln_str_of(mag@, scale as nat) == Some(s@),
{
    let mut digits: String = mag.iter().rev().map(|d| (b'0' + d) as char).collect();
    let text = if scale == 0 {
        digits
    } else {
        if digits.len() <= scale {
            digits = "0".repeat(scale - digits.len() + 1) + &digits;
        }
        format!("{}.{}", &digits[..digits.len() - scale], &digits[digits.len() - scale..])
    };
    match <rust_decimal::Decimal as core::str::FromStr>::from_str(&text) {
        Ok(v) => rust_decimal::MathematicalOps::checked_ln(&v).map(|l| l.to_string()),
        Err(_) => None,
    }
}

/// A weighted directed graph over interned currency names: the edge
/// `(u, v, w)` converts `verts[u]` into `verts[v]` at log-weight `w`.
pub struct Graph {
    pub verts: Vec<String>,
    pub edges: Vec<(usize, usize, Dec)>,
}

impl Graph {
    /// Every edge points at interned vertices and carries a well-formed
    /// weight.
    pub open spec fn wf(self) -> bool {
        forall|i: int|
            0 <= i < self.edges@.len() ==> {
                &&& (#[trigger] self.edges@[i]).0 < self.verts@.len()
                &&& self.edges@[i].1 < self.verts@.len()
                &&& self.edges@[i].2.wf()
            }
    }
}

/// The mantissa and scale of the edge weight an entry yields: the
/// negated parse of the named logarithm rendering.
pub open spec fn weight_of(e: (String, Dec)) -> Option<(int, nat)> {
    match ln_str_of(e.1.mag@, e.1.scale as nat) {
        None => None,
        Some(s) => match parse_dec_str(s) {
            None => None,
            Some((m, sc)) => Some((-m, sc)),
        },
    }
}

/// An entry the graph builder accepts: a well-shaped key, a positive
/// rate, and a representable logarithm.
pub open spec fn entry_ok(e: (String, Dec)) -> bool {
    pair_key_ok(e.0@) && e.1.mant() > 0 && weight_of(e) is Some
}

/// The error owed for a rejected entry, which carries the entry's key.
pub open spec fn entry_err(e: (String, Dec), err: ArbiError) -> bool {
    if !pair_key_ok(e.0@) {
        err matches ArbiError::MalformedPairKey(s) && s@ == e.0@
    } else if e.1.mant() <= 0 {
        err matches ArbiError::InvalidRate(s) && s@ == e.0@
    } else {
        err matches ArbiError::ArithmeticConversionError(s) && s@ == e.0@
    }
}

/// Index of the first entry the builder rejects, or -1.
pub open spec fn first_bad_entry(t: Seq<(String, Dec)>) -> int
    decreases t.len(),
{
    if t.len() == 0 {
        -1
    } else {
        let q = first_bad_entry(t.drop_last());
        if q >= 0 {
            q
        } else if !entry_ok(t.last()) {
            t.len() - 1
        } else {
            -1
        }
    }
}

proof fn lemma_fbe_all_good(t: Seq<(String, Dec)>)
    requires
        forall|j: int| 0 <= j < t.len() ==> entry_ok(t[j]),
    ensures
        first_bad_entry(t) == -1,
    decreases t.len(),
{
    if t.len() > 0 {
        lemma_fbe_all_good(t.drop_last());
    }
}

proof fn lemma_fbe_at(t: Seq<(String, Dec)>, i: int)
    requires
        0 <= i < t.len(),
        forall|j: int| 0 <= j < i ==> entry_ok(t[j]),
        !entry_ok(t[i]),
    ensures
        first_bad_entry(t) == i,
    decreases t.len(),
{
    if i == t.len() - 1 {
        lemma_fbe_all_good(t.drop_last());
    } else {
        lemma_fbe_at(t.drop_last(), i);
    }
}

/// Interning one name into a vertex name list: appended at the end when
/// new, the list unchanged when already present.
pub open spec fn intern_names(vs: Seq<Seq<char>>, name: Seq<char>) -> Seq<Seq<char>> {
    if vs.contains(name) {
        vs
    } else {
        vs.push(name)
    }
}

/// The vertex name list after interning the codes of the first `i`
/// entries' keys, from first to to.
pub open spec fn verts_after(entries: Seq<(String, Dec)>, i: int) -> Seq<Seq<char>>
    decreases i,
{
    if i <= 0 {
        Seq::empty()
    } else {
        let k = entries[i - 1].0@;
        intern_names(intern_names(verts_after(entries, i - 1), pair_from(k)), pair_to(k))
    }
}

/// Returns the index of `name` among the vertices, interning it at the
/// end when it is new.  Existing vertices keep their places, and the
/// name list grows exactly as `intern_names` says.
fn intern(verts: &mut Vec<String>, name: &String) -> (r: usize)
    ensures
        old(verts)@.len() <= final(verts)@.len() <= old(verts)@.len() + 1,
        forall|j: int| 0 <= j < old(verts)@.len() ==> final(verts)@[j] == old(verts)@[j],
        r < final(verts)@.len(),
        final(verts)@[r as int]@ == name@,
        views_of(final(verts)@) == intern_names(views_of(old(verts)@), name@),
{
    let n = verts.len();
    let mut i: usize = 0;
    while i < n
        invariant
            n == verts@.len(),
            i <= n,
            forall|t: int| 0 <= t < i ==> (#[trigger] verts@[t])@ != name@,
        decreases n - i,
    {
        if verts[i] == *name {
            proof {
                assert(views_of(verts@)[i as int] == name@);
                assert(views_of(verts@).contains(name@));
            }
            return i;
        }
        i = i + 1;
    }
    proof {
        assert forall|t: int| 0 <= t < views_of(verts@).len() implies views_of(verts@)[t]
            != name@ by {
            assert(views_of(verts@)[t] == verts@[t]@);
        }
        assert(!views_of(verts@).contains(name@));
    }
    verts.push(name.clone());
    proof {
        assert(views_of(verts@) =~= views_of(verts@.drop_last()).push(name@));
    }
    n
}

/// Everything the graph builder promises of a graph built from a table:
/// well-formed, one edge per entry in order, the interned vertex list,
/// and each edge's endpoints and weight pinned to its entry.
pub open spec fn graph_built_from(g: Graph, t: RateTable) -> bool {
    &&& g.wf()
    &&& g.edges@.len() == t.entries@.len()
    &&& views_of(g.verts@) == verts_after(t.entries@, t.entries@.len() as int)
    &&& forall|i: int|
        0 <= i < t.entries@.len() ==> {
            let e = #[trigger] t.entries@[i];
            let ed = g.edges@[i];
            &&& g.verts@[ed.0 as int]@ == pair_from(e.0@)
            &&& g.verts@[ed.1 as int]@ == pair_to(e.0@)
            &&& weight_of(e) == Some((ed.2.mant(), ed.2.scale as nat))
        }
}

/// Builds the log-weighted conversion graph from a rate table.  Every
/// entry becomes one edge, in table order; its weight is the negated
/// logarithm of its rate.  The first entry with a malformed key, a
/// non-positive rate, or an unrepresentable logarithm aborts the build
/// with the matching error.
pub fn build_graph_btm(rates: &RateTable) -> (r: Result<Graph, ArbiError>)
    requires
        rates.wf(),
    ensures
        r is Ok <==> first_bad_entry(rates.entries@) == -1,
        r matches Ok(g) ==> views_of(g.verts@) == verts_after(
            rates.entries@,
            rates.entries@.len() as int,
        ),
        r matches Ok(g) ==> graph_built_from(g, *rates),
        r matches Ok(g) ==> {
            &&& g.wf()
            &&& g.edges@.len() == rates.entries@.len()
            &&& forall|i: int|
                0 <= i < rates.entries@.len() ==> {
                    let e = #[trigger] rates.entries@[i];
                    let ed = g.edges@[i];
                    &&& g.verts@[ed.0 as int]@ == pair_from(e.0@)
                    &&& g.verts@[ed.1 as int]@ == pair_to(e.0@)
                    &&& weight_of(e) == Some((ed.2.mant(), ed.2.scale as nat))
                }
        },
        r matches Err(e) ==> first_bad_entry(rates.entries@) >= 0 && entry_err(
            rates.entries@[first_bad_entry(rates.entries@)],
            e,
        ),
{
    let n = rates.entries.len();
    let mut verts: Vec<String> = Vec::new();
    let mut edges: Vec<(usize, usize, Dec)> = Vec::new();
    let mut i: usize = 0;
    while i < n
        invariant
            n == rates.entries@.len(),
            rates.wf(),
            i <= n,
            edges@.len() == i,
            views_of(verts@) == verts_after(rates.entries@, i as int),
            forall|j: int| 0 <= j < i ==> entry_ok(#[trigger] rates.entries@[j]),
            forall|j: int|
                0 <= j < i ==> {
                    let e = #[trigger] rates.entries@[j];
                    let ed = edges@[j];
                    &&& ed.0 < verts@.len()
                    &&& ed.1 < verts@.len()
                    &&& ed.2.wf()
                    &&& verts@[ed.0 as int]@ == pair_from(e.0@)
                    &&& verts@[ed.1 as int]@ == pair_to(e.0@)
                    &&& weight_of(e) == Some((ed.2.mant(), ed.2.scale as nat))
                },
        decreases n - i,
    {
        let key = &rates.entries[i].0;
        let rate = &rates.entries[i].1;
        match split_pair(key.as_str()) {
            None => {
                proof {
                    lemma_fbe_at(rates.entries@, i as int);
                }
                return Err(ArbiError::MalformedPairKey(key.clone()));
            },
            Some((from, to)) => {
                proof {
                    crate::digits::lemma_seq_val_nonneg(rate.mag@);
                }
                if rate.neg || u_is_zero(&rate.mag) {
                    proof {
                        lemma_fbe_at(rates.entries@, i as int);
                    }
                    return Err(ArbiError::InvalidRate(key.clone()));
                }
                match ln_decimal_str(&rate.mag, rate.scale) {
                    None => {
                        proof {
                            lemma_fbe_at(rates.entries@, i as int);
                        }
                        return Err(ArbiError::ArithmeticConversionError(key.clone()));
                    },
                    Some(ln_text) => {
                        match dec_from_str(ln_text.as_str()) {
                            None => {
                                proof {
                                    lemma_fbe_at(rates.entries@, i as int);
                                }
                                return Err(ArbiError::ArithmeticConversionError(key.clone()));
                            },
                            Some(ln_dec) => {
                                let w = dec_neg(&ln_dec);
                                let u = intern(&mut verts, &from);
                                let v = intern(&mut verts, &to);
                                proof {
                                    assert(views_of(verts@) == verts_after(
                                        rates.entries@,
                                        i + 1,
                                    ));
                                }
                                edges.push((u, v, w));
                            },
                        }
                    },
                }
            },
        }
        i = i + 1;
    }
    proof {
        lemma_fbe_all_good(rates.entries@);
        assert forall|j: int|
            0 <= j < edges@.len() implies {
            &&& (#[trigger] edges@[j]).0 < verts@.len()
            &&& edges@[j].1 < verts@.len()
            &&& edges@[j].2.wf()
        } by {
            assert(entry_ok(rates.entries@[j]));
        }
    }
    Ok(Graph { verts, edges })
}

/// The name occurs among the vertices.
pub open spec fn in_verts(vs: Seq<String>, name: Seq<char>) -> bool {
    exists|t: int| 0 <= t < vs.len() && (#[trigger] vs[t])@ == name
}

/// Runs single-source relaxation from the base currency over the graph
/// and reconstructs a candidate cycle for every edge that still relaxes
/// afterwards, walking predecessor links under a visited guard bounded by
/// the vertex count, so the walk always terminates; a walk that runs out
/// of predecessors or steps yields no candidate.  Returns the candidates,
/// or nothing when no edge kept relaxing.  Every candidate lists at least
/// three vertex names, all taken from the graph.
pub fn find_arbitrage_with_base_currency_btm(base_currency: String, graph: &Graph) -> (r: Option<
    Vec<Vec<String>>,
>)
    requires
        graph.wf(),
    ensures
        r matches Some(cs) ==> cs@.len() > 0,
        r matches Some(cs) ==> forall|i: int|
            0 <= i < cs@.len() ==> (#[trigger] cs@[i])@.len() >= 3,
        r matches Some(cs) ==> forall|i: int, j: int|
            0 <= i < cs@.len() && 0 <= j < cs@[i]@.len() ==> in_verts(
                graph.verts@,
                (#[trigger] cs@[i]@[j])@,
            ),
        r is Some <==> finder_reports(base_currency@, *graph),
{
    let n = graph.verts.len();
    if n == 0 {
        return None;
    }
    let mut dist: Vec<Dec> = Vec::new();
    let mut pred: Vec<Option<usize>> = Vec::new();
    let mut j: usize = 0;
    while j < n
        invariant
            j <= n,
            dist@.len() == j,
            pred@.len() == j,
            forall|t: int| 0 <= t < j ==> (#[trigger] dist@[t]).wf(),
            forall|t: int|
                0 <= t < j ==> (#[trigger] dist@[t]).mant() == 1000000000 && dist@[t].scale == 0,
            forall|t: int| 0 <= t < j ==> (#[trigger] pred@[t]) is None,
        decreases n - j,
    {
        dist.push(dec_from_u64(1000000000u64));
        pred.push(None);
        j = j + 1;
    }
    // The base currency starts at distance zero when it is a vertex.
    let mut bi: usize = n;
    let mut scan: usize = 0;
    while scan < n
        invariant
            scan <= n,
            n == graph.verts@.len(),
            bi == n || (bi < scan && graph.verts@[bi as int]@ == base_currency@ && forall|t: int|
                0 <= t < bi ==> (#[trigger] graph.verts@[t])@ != base_currency@),
            bi == n ==> forall|t: int|
                0 <= t < scan ==> (#[trigger] graph.verts@[t])@ != base_currency@,
        decreases n - scan,
    {
        if bi == n {
            if graph.verts[scan] == base_currency {
                bi = scan;
            }
        }
        scan = scan + 1;
    }
    proof {
        if bi < n {
            lemma_name_idx_at(graph.verts@, base_currency@, bi as int);
        } else {
            lemma_name_idx_none(graph.verts@, base_currency@);
        }
    }
    if bi < n {
        dist.set(bi, dec_zero());
    }
    let ghost d0 = pairs_of(dist@);
    let ghost p0 = pred@;
    proof {
        assert(d0 =~= init_dist(n as int, name_idx(graph.verts@, base_currency@)));
        assert(p0 =~= init_pred(n as int));
    }
    // Relax every edge up to |V| - 1 times.
    let m = graph.edges.len();
    let mut round: usize = 0;
    while round < n - 1
        invariant
            n == graph.verts@.len(),
            m == graph.edges@.len(),
            graph.wf(),
            round <= n - 1,
            dist@.len() == n,
            pred@.len() == n,
            forall|t: int| 0 <= t < n ==> (#[trigger] dist@[t]).wf(),
            forall|t: int|
                0 <= t < n ==> ((#[trigger] pred@[t]) matches Some(u) ==> u < n),
            relax_all(d0, p0, graph.edges@, 0, n - 1) == relax_all(
                pairs_of(dist@),
                pred@,
                graph.edges@,
                0,
                n - 1 - round,
            ),
        decreases n - 1 - round,
    {
        let mut e: usize = 0;
        while e < m
            invariant
                n == graph.verts@.len(),
                m == graph.edges@.len(),
                graph.wf(),
                e <= m,
                round < n - 1,
                dist@.len() == n,
                pred@.len() == n,
                forall|t: int| 0 <= t < n ==> (#[trigger] dist@[t]).wf(),
                forall|t: int|
                    0 <= t < n ==> ((#[trigger] pred@[t]) matches Some(u) ==> u < n),
                relax_all(d0, p0, graph.edges@, 0, n - 1) == relax_all(
                    pairs_of(dist@),
                    pred@,
                    graph.edges@,
                    e as int,
                    n - 1 - round,
                ),
            decreases m - e,
        {
            let u = graph.edges[e].0;
            let v = graph.edges[e].1;
            let nd = dec_add(&dist[u], &graph.edges[e].2);
            let ghost oldd = pairs_of(dist@);
            let ghost oldp = pred@;
            proof {
                assert(oldd[u as int] == (dist@[u as int].mant(), dist@[u as int].scale as int));
                assert(oldd[v as int] == (dist@[v as int].mant(), dist@[v as int].scale as int));
                assert((nd.mant(), nd.scale as int) == dd_add(
                    oldd[u as int],
                    (graph.edges@[e as int].2.mant(), graph.edges@[e as int].2.scale as int),
                ));
            }
            if matches!(dec_cmp(&nd, &dist[v]), Cmp::Lt) {
                dist.set(v, nd);
                pred.set(v, Some(u));
                proof {
                    assert(pairs_of(dist@) =~= oldd.update(
                        v as int,
                        (nd.mant(), nd.scale as int),
                    ));
                    assert(relax_edge(oldd, oldp, graph.edges@[e as int]) == (
                        pairs_of(dist@),
                        pred@,
                    ));
                }
            } else {
                proof {
                    assert(relax_edge(oldd, oldp, graph.edges@[e as int]) == (oldd, oldp));
                }
            }
            e = e + 1;
        }
        round = round + 1;
    }
    proof {
        assert(relax_all(d0, p0, graph.edges@, 0, n - 1) == (pairs_of(dist@), pred@));
    }
    // One more pass: every edge that still relaxes witnesses a cycle.
    let mut arbitrages: Vec<Vec<String>> = Vec::new();
    let mut e: usize = 0;
    while e < m
        invariant
            n == graph.verts@.len(),
            m == graph.edges@.len(),
            graph.wf(),
            e <= m,
            dist@.len() == n,
            pred@.len() == n,
            forall|t: int| 0 <= t < n ==> (#[trigger] dist@[t]).wf(),
            forall|t: int|
                0 <= t < n ==> ((#[trigger] pred@[t]) matches Some(u) ==> u < n),
            forall|i: int|
                0 <= i < arbitrages@.len() ==> (#[trigger] arbitrages@[i])@.len() >= 3,
            forall|i: int, j2: int|
                0 <= i < arbitrages@.len() && 0 <= j2 < arbitrages@[i]@.len() ==> in_verts(
                    graph.verts@,
                    (#[trigger] arbitrages@[i]@[j2])@,
                ),
            any_candidate(pairs_of(dist@), pred@, graph.edges@, 0, n as int) == (arbitrages@.len()
                > 0 || any_candidate(pairs_of(dist@), pred@, graph.edges@, e as int, n as int)),
        decreases m - e,
    {
        let u = graph.edges[e].0;
        let v = graph.edges[e].1;
        let nd = dec_add(&dist[u], &graph.edges[e].2);
        proof {
            assert(pairs_of(dist@)[u as int] == (
                dist@[u as int].mant(),
                dist@[u as int].scale as int,
            ));
            assert(pairs_of(dist@)[v as int] == (
                dist@[v as int].mant(),
                dist@[v as int].scale as int,
            ));
            assert((nd.mant(), nd.scale as int) == dd_add(
                pairs_of(dist@)[u as int],
                (graph.edges@[e as int].2.mant(), graph.edges@[e as int].2.scale as int),
            ));
        }
        if matches!(dec_cmp(&nd, &dist[v]), Cmp::Lt) {
            proof {
                assert(edge_violated(pairs_of(dist@), graph.edges@[e as int]));
            }
            let mut cycle: Vec<String> = Vec::new();
            cycle.push(graph.verts[v].clone());
            let mut visited: Vec<bool> = Vec::new();
            let mut t: usize = 0;
            while t < n
                invariant
                    t <= n,
                    visited@.len() == t,
                    forall|t2: int| 0 <= t2 < t ==> !(#[trigger] visited@[t2]),
                decreases n - t,
            {
                visited.push(false);
                t = t + 1;
            }
            let ghost vis0 = visited@;
            proof {
                assert(vis0 =~= Seq::new(n as nat, |t2: int| false));
            }
            let mut current: usize = u;
            let mut steps: usize = 0;
            let mut closed: bool = false;
            let mut aborted: bool = false;
            while steps < n
                invariant_except_break
                    !aborted,
                    !closed,
                    walk_closes(pred@, vis0, u as int, 0, n as int) == walk_closes(
                        pred@,
                        visited@,
                        current as int,
                        steps as int,
                        n as int,
                    ),
                invariant
                    n == graph.verts@.len(),
                    steps <= n,
                    current < n,
                    visited@.len() == n,
                    pred@.len() == n,
                    forall|t2: int|
                        0 <= t2 < n ==> ((#[trigger] pred@[t2]) matches Some(p) ==> p < n),
                    cycle@.len() >= 1,
                    cycle@.len() >= 2 || (forall|t2: int|
                        0 <= t2 < n ==> !(#[trigger] visited@[t2])),
                    closed ==> cycle@.len() >= 2,
                    forall|j2: int|
                        0 <= j2 < cycle@.len() ==> in_verts(
                            graph.verts@,
                            (#[trigger] cycle@[j2])@,
                        ),
                ensures
                    closed ==> walk_closes(pred@, vis0, u as int, 0, n as int),
                    aborted ==> !walk_closes(pred@, vis0, u as int, 0, n as int),
                    aborted ==> !closed,
                    (!closed && !aborted) ==> walk_closes(pred@, vis0, u as int, 0, n as int)
                        == visited@[current as int],
                decreases n - steps,
            {
                if visited[current] {
                    closed = true;
                    break ;
                }
                let ghost visb = visited@;
                visited.set(current, true);
                cycle.push(graph.verts[current].clone());
                proof {
                    assert(visited@ =~= visb.update(current as int, true));
                }
                match pred[current] {
                    Some(p) => {
                        current = p;
                    },
                    None => {
                        proof {
                            assert(!walk_closes(
                                pred@,
                                visb,
                                current as int,
                                steps as int,
                                n as int,
                            ));
                        }
                        aborted = true;
                        break ;
                    },
                }
                steps = steps + 1;
            }
            if !closed && !aborted && visited[current] {
                // The step budget ran out with the walk standing on an
                // already-visited vertex: the loop is closed here.
                closed = true;
            }
            proof {
                assert(closed == walk_closes(pred@, vis0, u as int, 0, n as int));
            }
            if closed {
                cycle.push(graph.verts[current].clone());
                // The walk pushed the start vertex, at least one hop, and
                // the vertex that closed the loop.
                let mut reversed: Vec<String> = Vec::new();
                let len = cycle.len();
                let mut q: usize = len;
                while q > 0
                    invariant
                        len == cycle@.len(),
                        len >= 3,
                        q <= len,
                        reversed@.len() == len - q,
                        forall|j2: int|
                            0 <= j2 < cycle@.len() ==> in_verts(
                                graph.verts@,
                                (#[trigger] cycle@[j2])@,
                            ),
                        forall|j2: int|
                            0 <= j2 < reversed@.len() ==> in_verts(
                                graph.verts@,
                                (#[trigger] reversed@[j2])@,
                            ),
                    decreases q,
                {
                    q = q - 1;
                    reversed.push(cycle[q].clone());
                }
                arbitrages.push(reversed);
            }
        }
        e = e + 1;
    }
    proof {
        assert(any_candidate(pairs_of(dist@), pred@, graph.edges@, m as int, n as int) == false);
        assert(any_candidate(pairs_of(dist@), pred@, graph.edges@, 0, n as int) == (
        arbitrages@.len() > 0));
        assert(relax_all(
            init_dist(n as int, name_idx(graph.verts@, base_currency@)),
            init_pred(n as int),
            graph.edges@,
            0,
            n - 1,
        ) == (pairs_of(dist@), pred@));
        assert(finder_reports(base_currency@, *graph) == (arbitrages@.len() > 0));
    }
    if arbitrages.len() > 0 {
        return Some(arbitrages);
    }
    None
}

/// The character sequences a list of names denotes.
pub open spec fn views_of(s: Seq<String>) -> Seq<Seq<char>> {
    s.map_values(|x: String| x@)
}

/// The list with every immediately-repeated element removed.
pub open spec fn spec_collapse(s: Seq<Seq<char>>) -> Seq<Seq<char>>
    decreases s.len(),
{
    if s.len() <= 1 {
        s
    } else {
        let r = spec_collapse(s.drop_last());
        if r.len() > 0 && r.last() == s.last() {
            r
        } else {
            r.push(s.last())
        }
    }
}

/// No element is immediately repeated.
pub open spec fn no_adjacent_repeat(s: Seq<Seq<char>>) -> bool {
    forall|j: int| 0 <= j < s.len() - 1 ==> (#[trigger] s[j]) != s[j + 1]
}

/// The list padded so it starts and ends with the base currency.
pub open spec fn spec_pad(base: Seq<char>, c: Seq<Seq<char>>) -> Seq<Seq<char>> {
    let c1 = if c.len() == 0 || c.first() != base {
        seq![base].add(c)
    } else {
        c
    };
    if c1.last() != base {
        c1.push(base)
    } else {
        c1
    }
}

/// What the Cycle Normalizer produces: the padded list with repeats
/// collapsed.
pub open spec fn spec_adjust(base: Seq<char>, c: Seq<Seq<char>>) -> Seq<Seq<char>> {
    spec_collapse(spec_pad(base, c))
}

/// Collapsing keeps the ends and never empties a non-empty list.
proof fn lemma_collapse_props(s: Seq<Seq<char>>)
    requires
        s.len() >= 1,
    ensures
        1 <= spec_collapse(s).len() <= s.len(),
        spec_collapse(s).first() == s.first(),
        spec_collapse(s).last() == s.last(),
    decreases s.len(),
{
    if s.len() > 1 {
        lemma_collapse_props(s.drop_last());
    }
}

/// Collapsing leaves no immediate repeats.
proof fn lemma_collapse_no_adjacent(s: Seq<Seq<char>>)
    ensures
        no_adjacent_repeat(spec_collapse(s)),
    decreases s.len(),
{
    if s.len() > 1 {
        lemma_collapse_no_adjacent(s.drop_last());
        lemma_collapse_props(s.drop_last());
        let r = spec_collapse(s.drop_last());
        if !(r.len() > 0 && r.last() == s.last()) {
            assert forall|j: int|
                0 <= j < r.push(s.last()).len() - 1 implies (#[trigger] r.push(s.last())[j])
                != r.push(s.last())[j + 1] by {
                if j < r.len() - 1 {
                    assert(r[j] != r[j + 1]);
                }
            }
        }
    }
}

/// A list with no immediate repeats collapses to itself.
proof fn lemma_collapse_fixed(s: Seq<Seq<char>>)
    requires
        no_adjacent_repeat(s),
    ensures
        spec_collapse(s) == s,
    decreases s.len(),
{
    if s.len() > 1 {
        assert(forall|j: int|
            0 <= j < s.drop_last().len() - 1 ==> (#[trigger] s.drop_last()[j]) != s.drop_last()[j
                + 1]);
        lemma_collapse_fixed(s.drop_last());
        assert(s.drop_last().last() == s[s.len() - 2]);
        assert(s[s.len() - 2] != s[s.len() - 1]);
        assert(spec_collapse(s) =~= s);
    }
}

/// A normalized cycle is non-empty, starts and ends at the base
/// currency, and has no immediate repeats.
pub proof fn lemma_adjust_props(base: Seq<char>, c: Seq<Seq<char>>)
    ensures
        1 <= spec_adjust(base, c).len(),
        spec_adjust(base, c).first() == base,
        spec_adjust(base, c).last() == base,
        no_adjacent_repeat(spec_adjust(base, c)),
{
    let c1 = spec_pad(base, c);
    assert(c1.len() >= 1);
    assert(c1.first() == base);
    assert(c1.last() == base);
    lemma_collapse_props(c1);
    lemma_collapse_no_adjacent(c1);
}

/// The Cycle Normalizer is idempotent: normalizing an already-normalized
/// cycle returns it unchanged.
pub proof fn lemma_normalizer_idempotent(base: Seq<char>, c: Seq<Seq<char>>)
    ensures
        spec_adjust(base, spec_adjust(base, c)) == spec_adjust(base, c),
{
    let a = spec_adjust(base, c);
    lemma_adjust_props(base, c);
    assert(spec_pad(base, a) == a);
    lemma_collapse_fixed(a);
}

/// Removes immediately-repeated names from a conversion path, so a
/// normalized cycle never converts a currency into itself.
pub fn remove_consecutive_duplicates(input: &Vec<String>) -> (r: Vec<String>)
    ensures
        views_of(r@) == spec_collapse(views_of(input@)),
{
    let n = input.len();
    let mut out: Vec<String> = Vec::new();
    let mut i: usize = 0;
    proof {
        assert(views_of(input@.take(0)) =~= Seq::<Seq<char>>::empty());
        assert(views_of(out@) =~= Seq::<Seq<char>>::empty());
    }
    while i < n
        invariant
            n == input@.len(),
            i <= n,
            views_of(out@) == spec_collapse(views_of(input@.take(i as int))),
        decreases n - i,
    {
        proof {
            assert(views_of(input@.take(i + 1)).drop_last() =~= views_of(input@.take(i as int)));
            assert(views_of(input@.take(i + 1)).last() == input@[i as int]@);
        }
        let keep: bool = if out.len() == 0 {
            true
        } else {
            !(out[out.len() - 1] == input[i])
        };
        proof {
            assert(views_of(out@).len() == out@.len());
            if out@.len() > 0 {
                assert(views_of(out@).last() == out@[out@.len() - 1]@);
            }
        }
        if keep {
            out.push(input[i].clone());
            proof {
                assert(views_of(out@) =~= spec_collapse(views_of(input@.take(i as int))).push(
                    input@[i as int]@,
                ));
            }
        }
        i = i + 1;
    }
    proof {
        assert(input@.take(n as int) =~= input@);
    }
    out
}

/// Normalizes a detected cycle: prepends the base currency when the
/// cycle does not start with it, appends it when the cycle does not end
/// with it, then collapses immediate repeats.
pub fn adjust_arbitrages_btm(base_currency: String, arbitrage: &Vec<String>) -> (r: Vec<String>)
    ensures
        views_of(r@) == spec_adjust(base_currency@, views_of(arbitrage@)),
        r@.len() >= 1,
        views_of(r@).first() == base_currency@,
        views_of(r@).last() == base_currency@,
        no_adjacent_repeat(views_of(r@)),
{
    let n = arbitrage.len();
    let mut padded: Vec<String> = Vec::new();
    let need_front: bool = if n == 0 {
        true
    } else {
        !(arbitrage[0] == base_currency)
    };
    if need_front {
        padded.push(base_currency.clone());
    }
    let mut i: usize = 0;
    while i < n
        invariant
            n == arbitrage@.len(),
            i <= n,
            need_front == (arbitrage@.len() == 0 || arbitrage@[0]@ != base_currency@),
            views_of(padded@) =~= (if need_front {
                seq![base_currency@]
            } else {
                Seq::<Seq<char>>::empty()
            }).add(views_of(arbitrage@.take(i as int))),
        decreases n - i,
    {
        let ghost pv = views_of(padded@);
        padded.push(arbitrage[i].clone());
        proof {
            assert(views_of(arbitrage@.take(i + 1)) =~= views_of(arbitrage@.take(i as int)).push(
                arbitrage@[i as int]@,
            ));
            assert(views_of(padded@) =~= pv.push(arbitrage@[i as int]@));
        }
        i = i + 1;
    }
    proof {
        assert(arbitrage@.take(n as int) =~= arbitrage@);
        let c = views_of(arbitrage@);
        let c1 = if c.len() == 0 || c.first() != base_currency@ {
            seq![base_currency@].add(c)
        } else {
            c
        };
        assert(views_of(padded@) =~= c1);
    }
    let m = padded.len();
    let need_back: bool = !(padded[m - 1] == base_currency);
    if need_back {
        padded.push(base_currency.clone());
    }
    proof {
        assert(views_of(padded@) =~= spec_pad(base_currency@, views_of(arbitrage@)));
    }
    let out = remove_consecutive_duplicates(&padded);
    proof {
        lemma_adjust_props(base_currency@, views_of(arbitrage@));
        assert(views_of(out@).len() == out@.len());
        assert(views_of(out@).first() == out@[0]@);
    }
    out
}

/// The lookup key of one conversion hop.
pub open spec fn hop_key(a: Seq<char>, b: Seq<char>) -> Seq<char> {
    a + "-"@ + b
}

/// Mantissa and scale after replaying the first `j` hops of a cycle
/// against the table, starting from the given investment; nothing when a
/// hop is missing from the table.
pub open spec fn eval_pfx(t: RateTable, c: Seq<Seq<char>>, j: int, m0: int, s0: nat) -> Option<
    (int, nat),
>
    decreases j,
{
    if j <= 0 {
        Some((m0, s0))
    } else {
        match eval_pfx(t, c, j - 1, m0, s0) {
            None => None,
            Some((m, s)) => match t.spec_lookup(hop_key(c[j - 1], c[j])) {
                None => None,
                Some(r) => Some((m * r.mant(), (s + r.scale) as nat)),
            },
        }
    }
}

/// Index of the first hop missing from the table among the first `j`
/// hops, or -1.
pub open spec fn first_missing_hop(t: RateTable, c: Seq<Seq<char>>, j: int) -> int
    decreases j,
{
    if j <= 0 {
        -1
    } else {
        let p = first_missing_hop(t, c, j - 1);
        if p >= 0 {
            p
        } else if t.spec_lookup(hop_key(c[j - 1], c[j])) is None {
            j - 1
        } else {
            -1
        }
    }
}

/// A failed replay stays failed as more hops are added.
proof fn lemma_eval_none_mono(t: RateTable, c: Seq<Seq<char>>, j1: int, j2: int, m0: int, s0: nat)
    requires
        0 <= j1 <= j2,
        eval_pfx(t, c, j1, m0, s0) is None,
    ensures
        eval_pfx(t, c, j2, m0, s0) is None,
    decreases j2 - j1,
{
    if j2 > j1 {
        lemma_eval_none_mono(t, c, j1, j2 - 1, m0, s0);
    }
}

/// Scales only grow as hops are replayed.
proof fn lemma_eval_scale_mono(t: RateTable, c: Seq<Seq<char>>, j1: int, j2: int, m0: int, s0: nat)
    requires
        0 <= j1 <= j2,
        eval_pfx(t, c, j2, m0, s0) is Some,
    ensures
        eval_pfx(t, c, j1, m0, s0) matches Some((m1, s1)) && (eval_pfx(t, c, j2, m0, s0)
            matches Some((m2, s2)) && s1 <= s2),
    decreases j2 - j1,
{
    if j2 > j1 {
        lemma_eval_scale_mono(t, c, j1, j2 - 1, m0, s0);
    }
}

proof fn lemma_fmh_at(t: RateTable, c: Seq<Seq<char>>, i: int, j: int)
    requires
        0 <= i < j,
        forall|h: int| 0 <= h < i ==> t.spec_lookup(#[trigger] hop_key(c[h], c[h + 1])) is Some,
        t.spec_lookup(hop_key(c[i], c[i + 1])) is None,
    ensures
        first_missing_hop(t, c, j) == i,
    decreases j,
{
    if j - 1 == i {
        lemma_fmh_none(t, c, i);
    } else {
        lemma_fmh_at(t, c, i, j - 1);
    }
}

proof fn lemma_fmh_none(t: RateTable, c: Seq<Seq<char>>, j: int)
    requires
        forall|h: int| 0 <= h < j ==> t.spec_lookup(#[trigger] hop_key(c[h], c[h + 1])) is Some,
    ensures
        first_missing_hop(t, c, j) == -1,
    decreases j,
{
    if j > 0 {
        lemma_fmh_none(t, c, j - 1);
        let h = j - 1;
        assert(t.spec_lookup(hop_key(c[h], c[h + 1])) is Some);
        assert(c[h + 1] == c[j]);
    }
}

proof fn lemma_fmh_lower(t: RateTable, c: Seq<Seq<char>>, j1: int, j2: int)
    requires
        0 <= j1 <= j2,
        first_missing_hop(t, c, j1) == -1,
        first_missing_hop(t, c, j2) >= 0,
    ensures
        first_missing_hop(t, c, j2) >= j1,
    decreases j2,
{
    if j2 > j1 {
        if first_missing_hop(t, c, j2 - 1) >= 0 {
            lemma_fmh_lower(t, c, j1, j2 - 1);
        }
    }
}

/// The Profit Evaluator is linear in the initial investment: scaling the
/// investment by any factor scales the evaluated outcome by exactly that
/// factor, and never changes whether evaluation succeeds.
pub proof fn lemma_evaluator_linear(
    t: RateTable,
    c: Seq<Seq<char>>,
    j: int,
    m0: int,
    s0: nat,
    km: int,
    ks: nat,
)
    ensures
        eval_pfx(t, c, j, m0, s0) is Some <==> eval_pfx(t, c, j, km * m0, (ks + s0) as nat)
            is Some,
        eval_pfx(t, c, j, m0, s0) matches Some((m, s)) ==> eval_pfx(
            t,
            c,
            j,
            km * m0,
            (ks + s0) as nat,
        ) == Some((km * m, (ks + s) as nat)),
    decreases
            if j >= 0 {
                j
            } else {
                0
            },
{
    if j > 0 {
        lemma_evaluator_linear(t, c, j - 1, m0, s0, km, ks);
        match eval_pfx(t, c, j - 1, m0, s0) {
            Some((m, s)) => {
                match t.spec_lookup(hop_key(c[j - 1], c[j])) {
                    Some(rt) => {
                        assert((km * m) * rt.mant() == km * (m * rt.mant())) by (nonlinear_arith);
                    },
                    None => {},
                }
            },
            None => {},
        }
    }
}

/// Replays a normalized cycle against the rate table, multiplying the
/// investment by the rate of each consecutive hop, exactly.  A hop whose
/// pair is absent aborts with `RateNotFoundError` naming that pair; a
/// result whose scale exceeds the machine's index range aborts with
/// `ArithmeticConversionError`.
pub fn calculate_arbitrage_btm(investment: Dec, arbitrage: &Vec<String>, rates: &RateTable) -> (r:
    Result<Dec, ArbiError>)
    requires
        investment.wf(),
        rates.wf(),
        arbitrage@.len() >= 1,
    ensures
        r matches Ok(v) ==> v.wf() && eval_pfx(
            *rates,
            views_of(arbitrage@),
            arbitrage@.len() - 1,
            investment.mant(),
            investment.scale as nat,
        ) == Some((v.mant(), v.scale as nat)),
        eval_pfx(
            *rates,
            views_of(arbitrage@),
            arbitrage@.len() - 1,
            investment.mant(),
            investment.scale as nat,
        ) is None ==> r is Err,
        (eval_pfx(
            *rates,
            views_of(arbitrage@),
            arbitrage@.len() - 1,
            investment.mant(),
            investment.scale as nat,
        ) matches Some((m, s)) && s <= usize::MAX) ==> r is Ok,
        r matches Err(e) ==> (e is RateNotFoundError || e is ArithmeticConversionError),
        r matches Err(e) ==> (e matches ArbiError::RateNotFoundError(k) ==> {
            let f = first_missing_hop(
                *rates,
                views_of(arbitrage@),
                arbitrage@.len() - 1,
            );
            &&& 0 <= f < arbitrage@.len() - 1
            &&& k@ == hop_key(views_of(arbitrage@)[f], views_of(arbitrage@)[f + 1])
        }),
        ({
            let c = views_of(arbitrage@);
            let f = first_missing_hop(*rates, c, arbitrage@.len() - 1);
            (f >= 0 && (eval_pfx(*rates, c, f, investment.mant(), investment.scale as nat)
                matches Some((m2, s2)) && s2 <= usize::MAX)) ==> (r matches Err(e) && e matches ArbiError::RateNotFoundError(
                k,
            ) && k@ == hop_key(c[f], c[f + 1]))
        }),
{
    let ghost cviews = views_of(arbitrage@);
    let hops = arbitrage.len() - 1;
    let mut result = investment;
    let mut i: usize = 0;
    while i < hops
        invariant
            rates.wf(),
            result.wf(),
            cviews == views_of(arbitrage@),
            hops == arbitrage@.len() - 1,
            i <= hops,
            investment.wf(),
            eval_pfx(*rates, cviews, i as int, investment.mant(), investment.scale as nat)
                == Some((result.mant(), result.scale as nat)),
            forall|h: int|
                0 <= h < i ==> rates.spec_lookup(#[trigger] hop_key(cviews[h], cviews[h + 1]))
                    is Some,
        decreases hops - i,
    {
        let mut key = arbitrage[i].clone();
        key.append("-");
        key.append(arbitrage[i + 1].as_str());
        proof {
            assert(cviews[i as int] == arbitrage@[i as int]@);
            assert(cviews[i + 1] == arbitrage@[i + 1]@);
            assert(key@ == hop_key(cviews[i as int], cviews[i + 1]));
        }
        match rates.lookup(&key) {
            None => {
                proof {
                    lemma_fmh_at(*rates, cviews, i as int, hops as int);
                    lemma_eval_none_mono(
                        *rates,
                        cviews,
                        i + 1,
                        hops as int,
                        investment.mant(),
                        investment.scale as nat,
                    );
                }
                return Err(ArbiError::RateNotFoundError(key));
            },
            Some(rate) => {
                proof {
                    crate::rates::lemma_lookup_wf(*rates, key@);
                }
                if rate.scale > usize::MAX - result.scale {
                    proof {
                        if eval_pfx(
                            *rates,
                            cviews,
                            hops as int,
                            investment.mant(),
                            investment.scale as nat,
                        ) is Some {
                            lemma_eval_scale_mono(
                                *rates,
                                cviews,
                                i + 1,
                                hops as int,
                                investment.mant(),
                                investment.scale as nat,
                            );
                        }
                        let f = first_missing_hop(*rates, cviews, hops as int);
                        if f >= 0 {
                            lemma_fmh_none(*rates, cviews, i + 1);
                            lemma_fmh_lower(*rates, cviews, i + 1, hops as int);
                            if eval_pfx(*rates, cviews, f, investment.mant(),
                                investment.scale as nat) is Some {
                                lemma_eval_scale_mono(
                                    *rates,
                                    cviews,
                                    i + 1,
                                    f,
                                    investment.mant(),
                                    investment.scale as nat,
                                );
                            }
                        }
                    }
                    return Err(ArbiError::ArithmeticConversionError(key));
                }
                result = dec_mul(&result, rate);
            },
        }
        i = i + 1;
    }
    proof {
        lemma_fmh_none(*rates, cviews, hops as int);
    }
    Ok(result)
}

/// Index of the best candidate: the highest profit, first come on ties.
pub open spec fn best_idx(s: Seq<(Vec<String>, Dec)>) -> int
    decreases s.len(),
{
    if s.len() <= 1 {
        0
    } else {
        let p = best_idx(s.drop_last());
        if dec_lt(s[p].1, s.last().1) {
            s.len() - 1
        } else {
            p
        }
    }
}

proof fn lemma_best_idx_range(s: Seq<(Vec<String>, Dec)>)
    requires
        s.len() >= 1,
    ensures
        0 <= best_idx(s) < s.len(),
    decreases s.len(),
{
    if s.len() > 1 {
        lemma_best_idx_range(s.drop_last());
    }
}

/// Transitivity of the cross-multiplied order on mantissa/scale pairs.
proof fn lemma_rat_trans(m1: int, p1: int, m2: int, p2: int, m3: int, p3: int)
    requires
        p1 >= 1,
        p2 >= 1,
        p3 >= 1,
        m1 * p2 <= m2 * p1,
        m2 * p3 < m3 * p2,
    ensures
        m1 * p3 < m3 * p1,
{
    assert((m1 * p2) * p3 <= (m2 * p1) * p3) by (nonlinear_arith)
        requires
            p3 >= 1 && m1 * p2 <= m2 * p1,
    ;
    assert((m2 * p3) * p1 < (m3 * p2) * p1) by (nonlinear_arith)
        requires
            p1 >= 1 && m2 * p3 < m3 * p2,
    ;
    assert((m1 * p2) * p3 == (m1 * p3) * p2) by (nonlinear_arith);
    assert((m2 * p1) * p3 == (m2 * p3) * p1) by (nonlinear_arith);
    assert((m3 * p2) * p1 == (m3 * p1) * p2) by (nonlinear_arith);
    assert((m1 * p3) * p2 < (m3 * p1) * p2);
    assert(m1 * p3 < m3 * p1) by (nonlinear_arith)
        requires
            p2 >= 1 && (m1 * p3) * p2 < (m3 * p1) * p2,
    ;
}

/// A value that is at most a second one, which is below a third, is
/// below the third.
proof fn lemma_dec_le_lt_trans(a: Dec, b: Dec, c: Dec)
    requires
        !dec_lt(b, a),
        dec_lt(b, c),
    ensures
        dec_lt(a, c),
        !dec_lt(c, a),
{
    crate::digits::lemma_p10_pos(a.scale as nat);
    crate::digits::lemma_p10_pos(b.scale as nat);
    crate::digits::lemma_p10_pos(c.scale as nat);
    lemma_rat_trans(
        a.mant(),
        crate::digits::p10(a.scale as nat),
        b.mant(),
        crate::digits::p10(b.scale as nat),
        c.mant(),
        crate::digits::p10(c.scale as nat),
    );
}

/// The Best-Candidate Selector's choice carries the maximum profit: no
/// candidate beats the one at `best_idx`, and every earlier candidate is
/// strictly below it, so ties keep the candidate seen first.
pub proof fn lemma_best_idx_is_max(s: Seq<(Vec<String>, Dec)>)
    requires
        s.len() >= 1,
    ensures
        forall|j: int| 0 <= j < s.len() ==> !dec_lt(s[best_idx(s)].1, (#[trigger] s[j]).1),
        forall|j: int| 0 <= j < best_idx(s) ==> dec_lt((#[trigger] s[j]).1, s[best_idx(s)].1),
    decreases s.len(),
{
    lemma_best_idx_range(s);
    if s.len() > 1 {
        let d = s.drop_last();
        lemma_best_idx_is_max(d);
        lemma_best_idx_range(d);
        let p = best_idx(d);
        assert(forall|j: int| 0 <= j < d.len() ==> d[j] == s[j]);
        if dec_lt(s[p].1, s.last().1) {
            assert(best_idx(s) == s.len() - 1);
            assert forall|j: int| 0 <= j < s.len() implies !dec_lt(
                s[best_idx(s)].1,
                (#[trigger] s[j]).1,
            ) by {
                if j < s.len() - 1 {
                    assert(!dec_lt(d[p].1, d[j].1));
                    lemma_dec_le_lt_trans(s[j].1, s[p].1, s.last().1);
                }
            }
            assert forall|j: int| 0 <= j < best_idx(s) implies dec_lt(
                (#[trigger] s[j]).1,
                s[best_idx(s)].1,
            ) by {
                assert(!dec_lt(d[p].1, d[j].1));
                lemma_dec_le_lt_trans(s[j].1, s[p].1, s.last().1);
            }
        } else {
            assert(best_idx(s) == p);
        }
    }
}

/// Picks the candidate with the highest profit; ties keep the candidate
/// seen first.  Returns nothing for an empty list.
pub fn best_pnl(arbitrages: Vec<(Vec<String>, Dec)>) -> (r: Option<(Vec<String>, Dec)>)
    requires
        forall|i: int| 0 <= i < arbitrages@.len() ==> (#[trigger] arbitrages@[i]).1.wf(),
    ensures
        r is Some <==> arbitrages@.len() > 0,
        r matches Some(p) ==> 0 <= best_idx(arbitrages@) < arbitrages@.len() && p
            == arbitrages@[best_idx(arbitrages@)],
        r matches Some(p) ==> forall|j: int|
            0 <= j < arbitrages@.len() ==> !dec_lt(p.1, (#[trigger] arbitrages@[j]).1),
{
    let n = arbitrages.len();
    if n == 0 {
        return None;
    }
    let mut bi: usize = 0;
    let mut i: usize = 1;
    proof {
        assert(arbitrages@.take(1).len() == 1);
        assert(best_idx(arbitrages@.take(1)) == 0);
    }
    while i < n
        invariant
            n == arbitrages@.len(),
            1 <= i <= n,
            bi < i,
            forall|t: int| 0 <= t < n ==> (#[trigger] arbitrages@[t]).1.wf(),
            bi as int == best_idx(arbitrages@.take(i as int)),
        decreases n - i,
    {
        proof {
            assert(arbitrages@.take(i + 1).drop_last() =~= arbitrages@.take(i as int));
            assert(arbitrages@.take(i + 1).last() == arbitrages@[i as int]);
            assert(arbitrages@.take(i + 1)[bi as int] == arbitrages@[bi as int]);
            lemma_best_idx_range(arbitrages@.take(i as int));
        }
        if matches!(dec_cmp(&arbitrages[i].1, &arbitrages[bi].1), Cmp::Gt) {
            bi = i;
        }
        i = i + 1;
    }
    proof {
        assert(arbitrages@.take(n as int) =~= arbitrages@);
        lemma_best_idx_is_max(arbitrages@);
    }
    let mut arbs = arbitrages;
    let picked = arbs.remove(bi);
    Some(picked)
}

/// Runs the whole pipeline over one rate table: builds the graph, finds
/// candidate cycles from the base currency, normalizes and evaluates
/// each, and returns the best result, or nothing when no cycle was
/// found.  Errors from the graph builder and the evaluator abort the
/// run.
pub fn process_rates_btm(base_currency: &String, investment: &Dec, rates: &RateTable) -> (r:
    Result<Option<(Vec<String>, Dec)>, ArbiError>)
    requires
        rates.wf(),
        investment.wf(),
    ensures
        first_bad_entry(rates.entries@) >= 0 ==> r is Err && (r matches Err(e) ==> entry_err(
            rates.entries@[first_bad_entry(rates.entries@)],
            e,
        )),
        r matches Ok(Some(p)) ==> {
            &&& p.1.wf()
            &&& p.0@.len() >= 1
            &&& views_of(p.0@).first() == base_currency@
            &&& views_of(p.0@).last() == base_currency@
            &&& no_adjacent_repeat(views_of(p.0@))
            &&& eval_pfx(
                *rates,
                views_of(p.0@),
                p.0@.len() - 1,
                investment.mant(),
                investment.scale as nat,
            ) == Some((p.1.mant(), p.1.scale as nat))
        },
        first_bad_entry(rates.entries@) == -1 ==> (r matches Err(e) ==> (e is RateNotFoundError
            || e is ArithmeticConversionError)),
        r matches Ok(Some(p2)) ==> exists|g: Graph| #[trigger] graph_built_from(g, *rates)
            && finder_reports(base_currency@, g),
        r matches Ok(None) ==> first_bad_entry(rates.entries@) == -1 && (exists|g: Graph|
            #[trigger] graph_built_from(g, *rates) && !finder_reports(base_currency@, g)),
{
    let graph = match build_graph_btm(rates) {
        Err(e) => {
            return Err(e);
        },
        Ok(g) => g,
    };
    let ghost reports = finder_reports(base_currency@, graph);
    let mut pnls: Vec<(Vec<String>, Dec)> = Vec::new();
    match find_arbitrage_with_base_currency_btm(base_currency.clone(), &graph) {
        None => {
            proof {
                assert(!reports);
            }
        },
        Some(arbitrages) => {
            proof {
                assert(reports);
            }
            let m = arbitrages.len();
            let mut i: usize = 0;
            while i < m
                invariant
                    m == arbitrages@.len(),
                    i <= m,
                    m > 0,
                    pnls@.len() == i,
                    rates.wf(),
                    investment.wf(),
                    first_bad_entry(rates.entries@) == -1,
                    forall|t: int|
                        0 <= t < pnls@.len() ==> {
                            &&& (#[trigger] pnls@[t]).1.wf()
                            &&& pnls@[t].0@.len() >= 1
                            &&& views_of(pnls@[t].0@).first() == base_currency@
                            &&& views_of(pnls@[t].0@).last() == base_currency@
                            &&& no_adjacent_repeat(views_of(pnls@[t].0@))
                            &&& eval_pfx(
                                *rates,
                                views_of(pnls@[t].0@),
                                pnls@[t].0@.len() - 1,
                                investment.mant(),
                                investment.scale as nat,
                            ) == Some((pnls@[t].1.mant(), pnls@[t].1.scale as nat))
                        },
                decreases m - i,
            {
                let adjusted = adjust_arbitrages_btm(base_currency.clone(), &arbitrages[i]);
                let inv = crate::dec::dec_clone(investment);
                match calculate_arbitrage_btm(inv, &adjusted, rates) {
                    Err(e) => {
                        return Err(e);
                    },
                    Ok(value) => {
                        proof {
                            assert(views_of(adjusted@).first() == adjusted@[0]@);
                            assert(views_of(adjusted@).last() == adjusted@[adjusted@.len() - 1]@);
                        }
                        pnls.push((adjusted, value));
                    },
                }
                i = i + 1;
            }
        },
    }
    let ghost had_candidates = pnls@.len() > 0;
    proof {
        assert(had_candidates == reports);
        assert(graph_built_from(graph, *rates));
    }
    let best = best_pnl(pnls);
    Ok(best)
}

/// Runs the pipeline over the bundled sample rate set.
pub fn run_with_default_rates_btm(base_currency: &String, investment: &Dec) -> (r: Result<
    Option<(Vec<String>, Dec)>,
    ArbiError,
>)
    requires
        investment.wf(),
    ensures
        r matches Ok(Some(p)) ==> {
            &&& p.1.wf()
            &&& p.0@.len() >= 1
            &&& views_of(p.0@).first() == base_currency@
            &&& views_of(p.0@).last() == base_currency@
            &&& no_adjacent_repeat(views_of(p.0@))
        },
        r matches Err(e) ==> (e is RateNotFoundError || e is ArithmeticConversionError || e
            is MalformedPairKey || e is InvalidRate),
        r matches Ok(Some(p2)) ==> exists|t2: RateTable, g2: Graph|
            #[trigger] graph_built_from(g2, t2) && crate::rates::default_table_shape(t2)
                && finder_reports(base_currency@, g2),
        r matches Ok(None) ==> exists|t2: RateTable, g2: Graph|
            #[trigger] graph_built_from(g2, t2) && crate::rates::default_table_shape(t2)
                && !finder_reports(base_currency@, g2),
{
    let rates = match crate::rates::default_rates_bigdecimal() {
        Err(e) => {
            return Err(e);
        },
        Ok(t) => t,
    };
    let out = process_rates_btm(base_currency, investment, &rates);
    proof {
        if out matches Ok(Some(_)) {
            let g = choose|g: Graph|
                graph_built_from(g, rates) && finder_reports(base_currency@, g);
            assert(graph_built_from(g, rates) && crate::rates::default_table_shape(rates)
                && finder_reports(base_currency@, g));
        }
        if out matches Ok(None) {
            let g = choose|g: Graph|
                graph_built_from(g, rates) && !finder_reports(base_currency@, g);
            assert(graph_built_from(g, rates) && crate::rates::default_table_shape(rates)
                && !finder_reports(base_currency@, g));
        }
    }
    out
}

} // verus!
