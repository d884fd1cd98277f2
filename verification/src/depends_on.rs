//! The dependency resolver: a deterministic total order over a
//! configuration's resources that places every prerequisite — named in
//! `dependsOn` or referenced by an expression — before its dependent, with
//! ties broken by position in the document, earlier first.
use vstd::prelude::*;

use crate::doc::{resources_view, strings_view, Configuration, SpecResource};
use crate::walker::{no_expressions, props_no_expressions};
use crate::engine::ExpressionEngine;
use crate::error::DscError;
use crate::value::{array_view, group_value_axioms, object_view, spec_bracketed, SpecValue, PropValue};

verus! {

/// The message begins with the given prefix.
pub open spec fn message_prefixed(m: Seq<char>, p: Seq<char>) -> bool {
    m.len() >= p.len() && m.take(p.len() as int) == p
}

/// No property value anywhere in the document holds a bracketed string: the
/// expression engine is never consulted for such a document.
pub open spec fn config_expression_free(rs: Seq<SpecResource>) -> bool {
    forall|a: int|
        0 <= a < rs.len() ==> match (#[trigger] rs[a]).properties {
            Some(fs) => props_no_expressions(fs),
            None => true,
        }
}

/// The value stands somewhere before position `j` of the order.
pub open spec fn in_prefix(ord: Seq<usize>, v: usize, j: int) -> bool {
    exists|j2: int| 0 <= j2 < j && ord[j2] == v
}

/// Every prerequisite of `v` stands before position `j` of the order.
pub open spec fn ready_at(edges: Seq<(usize, usize)>, ord: Seq<usize>, v: usize, j: int) -> bool {
    forall|k: int|
        0 <= k < edges.len() && (#[trigger] edges[k]).0 == v ==> in_prefix(ord, edges[k].1, j)
}

/// A topological order: every node exactly once, each emitted only when its
/// prerequisites already stand earlier.
pub open spec fn valid_order(n: int, edges: Seq<(usize, usize)>, ord: Seq<usize>) -> bool {
    &&& ord.len() == n
    &&& forall|j: int| 0 <= j < n ==> (#[trigger] ord[j]) < n
    &&& forall|j: int| 0 <= j < n ==> !in_prefix(ord, #[trigger] ord[j], j)
    &&& forall|j: int| 0 <= j < n ==> ready_at(edges, ord, #[trigger] ord[j], j)
}

/// The document-order tie-break: each position holds the least node that was
/// eligible there. Together with `valid_order` this pins the order uniquely.
pub open spec fn first_ready_order(n: int, edges: Seq<(usize, usize)>, ord: Seq<usize>) -> bool {
    forall|j: int, v: usize|
        #![trigger ord[j], ready_at(edges, ord, v, j)]
        0 <= j < ord.len() && v < n && !in_prefix(ord, v, j) && ready_at(edges, ord, v, j)
            ==> ord[j] <= v
}

/// A set of nodes each of which has a prerequisite inside the set: the
/// witness shape of a dependency cycle.
pub open spec fn cyclic(n: int, edges: Seq<(usize, usize)>) -> bool {
    exists|s: Set<int>|
        {
            &&& s.finite()
            &&& s.len() > 0
            &&& forall|v: int| s.contains(v) ==> 0 <= v < n
            &&& forall|v: int| #[trigger]
                s.contains(v) ==> exists|k: int|
                    0 <= k < edges.len() && (#[trigger] edges[k]).0 == v as usize && s.contains(
                        edges[k].1 as int,
                    )
        }
}

/// How many entries of a sequence of booleans are set.
pub open spec fn count_true(s: Seq<bool>) -> int
    decreases s.len(),
{
    if s.len() == 0 {
        0
    } else {
        count_true(s.drop_last()) + if s.last() {
            1int
        } else {
            0int
        }
    }
}

proof fn lemma_count_true_update(s: Seq<bool>, i: int)
    requires
        0 <= i < s.len(),
        !s[i],
    ensures
        count_true(s.update(i, true)) == count_true(s) + 1,
    decreases s.len(),
{
    if i == s.len() - 1 {
        assert(s.update(i, true).drop_last() =~= s.drop_last());
    } else {
        assert(s.update(i, true).drop_last() =~= s.drop_last().update(i, true));
        lemma_count_true_update(s.drop_last(), i);
    }
}

proof fn lemma_count_true_all(s: Seq<bool>)
    requires
        forall|j: int| 0 <= j < s.len() ==> s[j],
    ensures
        count_true(s) == s.len(),
    decreases s.len(),
{
    if s.len() > 0 {
        lemma_count_true_all(s.drop_last());
    }
}

/// Whether every prerequisite of `v` is already emitted.
#[verifier::loop_isolation(false)]
fn deps_emitted(edges: &Vec<(usize, usize)>, emitted: &Vec<bool>, v: usize) -> (r: bool)
    requires
        forall|k: int|
            0 <= k < edges@.len() ==> (#[trigger] edges@[k]).0 < emitted@.len() && edges@[k].1
                < emitted@.len(),
    ensures
        r == forall|k: int|
            0 <= k < edges@.len() && (#[trigger] edges@[k]).0 == v ==> emitted@[edges@[k].1 as int],
{
    let m = edges.len();
    let mut k: usize = 0;
    while k < m
        invariant
            0 <= k <= m,
            forall|k2: int|
                0 <= k2 < k && (#[trigger] edges@[k2]).0 == v ==> emitted@[edges@[k2].1 as int],
        decreases m - k,
    {
        if edges[k].0 == v && !emitted[edges[k].1] {
            return false;
        }
        k += 1;
    }
    true
}

/// Compute the invocation order for `n` nodes under a list of edges, each
/// `(dependent, prerequisite)`: repeatedly emit the lowest-numbered node
/// whose prerequisites are all emitted. Succeeds exactly when the edges are
/// acyclic; the order is a topological sort with the document-order
/// tie-break.
#[verifier::loop_isolation(false)]
#[verifier::rlimit(100)]
pub fn invocation_order(n: usize, edges: &Vec<(usize, usize)>, names: &Vec<String>) -> (r: Result<
    Vec<usize>,
    DscError,
>)
    requires
        names@.len() == n,
        forall|k: int|
            0 <= k < edges@.len() ==> (#[trigger] edges@[k]).0 < n && edges@[k].1 < n,
    ensures
        r matches Ok(ord) ==> valid_order(n as int, edges@, ord@) && first_ready_order(
            n as int,
            edges@,
            ord@,
        ),
        r is Ok <==> !cyclic(n as int, edges@),
        r matches Err(e) ==> (e matches DscError::Validation(m) && message_prefixed(
            m@,
            "Circular dependency among resources: "@,
        )),
{
    let mut emitted: Vec<bool> = Vec::new();
    let mut f: usize = 0;
    while f < n
        invariant
            0 <= f <= n,
            emitted@.len() == f,
            forall|j: int| 0 <= j < f ==> !(#[trigger] emitted@[j]),
        decreases n - f,
    {
        emitted.push(false);
        f += 1;
    }
    let mut ord: Vec<usize> = Vec::new();
    proof {
        lemma_count_true_zero(emitted@);
    }
    while ord.len() < n
        invariant
            emitted@.len() == n,
            ord@.len() <= n,
            count_true(emitted@) == ord@.len(),
            forall|v: int| 0 <= v < n ==> ((#[trigger] emitted@[v]) <==> in_prefix(ord@, v as usize, ord@.len() as int)),
            forall|j: int| 0 <= j < ord@.len() ==> (#[trigger] ord@[j]) < n,
            forall|j: int| 0 <= j < ord@.len() ==> !in_prefix(ord@, #[trigger] ord@[j], j),
            forall|j: int|
                0 <= j < ord@.len() ==> ready_at(edges@, ord@, #[trigger] ord@[j], j),
            first_ready_order(n as int, edges@, ord@),
        decreases n - ord.len(),
    {
        let ghost old_ord = ord@;
        let ghost old_emitted = emitted@;
        let mut pick: usize = 0;
        let mut found = false;
        let mut v: usize = 0;
        while v < n && !found
            invariant
                0 <= v <= n,
                !found ==> forall|v2: int|
                    0 <= v2 < v ==> (#[trigger] emitted@[v2]) || !(forall|k: int|
                        0 <= k < edges@.len() && (#[trigger] edges@[k]).0 == v2 as usize
                            ==> emitted@[edges@[k].1 as int]),
                found ==> {
                    &&& pick < n
                    &&& !emitted@[pick as int]
                    &&& (forall|k: int|
                        0 <= k < edges@.len() && (#[trigger] edges@[k]).0 == pick
                            ==> emitted@[edges@[k].1 as int])
                    &&& forall|v2: int|
                        0 <= v2 < pick ==> (#[trigger] emitted@[v2]) || !(forall|k: int|
                            0 <= k < edges@.len() && (#[trigger] edges@[k]).0 == v2 as usize
                                ==> emitted@[edges@[k].1 as int])
                },
            decreases n - v + (if found { 0int } else { 1int }),
        {
            if !emitted[v] && deps_emitted(edges, &emitted, v) {
                pick = v;
                found = true;
            } else {
                v += 1;
            }
        }
        if !found {
            proof {
                let s = Set::new(|x: int| 0 <= x < n && !emitted@[x]);
                assert(s.subset_of(vstd::set_lib::set_int_range(0, n as int)));
                vstd::set_lib::lemma_int_range(0, n as int);
                vstd::set_lib::lemma_len_subset(s, vstd::set_lib::set_int_range(0, n as int));
                if count_true(emitted@) < n {
                    if forall|j: int| 0 <= j < n ==> #[trigger] emitted@[j] {
                        lemma_count_true_all(emitted@);
                        assert(false);
                    }
                    let w = choose|j: int| 0 <= j < n && !emitted@[j];
                    assert(s.contains(w));
                    if s.len() == 0 {
                        assert(s =~= Set::empty());
                        assert(false);
                    }
                }
                assert forall|x: int| #[trigger] s.contains(x) implies exists|k: int|
                    0 <= k < edges@.len() && (#[trigger] edges@[k]).0 == x as usize && s.contains(
                        edges@[k].1 as int,
                    ) by {
                    assert(0 <= x < n && !emitted@[x]);
                    assert(!(forall|k: int|
                        0 <= k < edges@.len() && (#[trigger] edges@[k]).0 == x as usize
                            ==> emitted@[edges@[k].1 as int]));
                    let k = choose|k: int|
                        0 <= k < edges@.len() && (#[trigger] edges@[k]).0 == x as usize
                            && !emitted@[edges@[k].1 as int];
                    assert(s.contains(edges@[k].1 as int));
                }
                assert(cyclic(n as int, edges@));
            }
            let mut msg = String::from_str("Circular dependency among resources: ");
            let ghost p = "Circular dependency among resources: "@;
            proof {
                assert(msg@.take(p.len() as int) =~= p);
            }
            let mut v2: usize = 0;
            let mut first = true;
            while v2 < n
                invariant
                    0 <= v2 <= n,
                    emitted@.len() == n,
                    names@.len() == n,
                    message_prefixed(msg@, p),
                decreases n - v2,
            {
                let ghost before_msg = msg@;
                if !emitted[v2] {
                    if !first {
                        msg.append(",");
                    }
                    msg.append(names[v2].as_str());
                    first = false;
                }
                proof {
                    assert(msg@.take(p.len() as int) =~= before_msg.take(p.len() as int));
                }
                v2 += 1;
            }
            return Err(DscError::Validation(msg));
        }
        ord.push(pick);
        emitted[pick] = true;
        proof {
            lemma_count_true_update(old_emitted, pick as int);
            assert(emitted@ == old_emitted.update(pick as int, true));
            assert(ord@ == old_ord.push(pick));
            lemma_push_step(n as int, edges@, old_ord, old_emitted, pick);
        }
    }
    proof {
        lemma_order_acyclic(n as int, edges@, ord@);
    }
    Ok(ord)
}

/// A position below the old length holds the same prefix membership after a
/// push.
proof fn lemma_prefix_push(old_ord: Seq<usize>, pick: usize, x: usize, j: int)
    requires
        0 <= j <= old_ord.len(),
    ensures
        in_prefix(old_ord.push(pick), x, j) == in_prefix(old_ord, x, j),
{
    let new_ord = old_ord.push(pick);
    if in_prefix(new_ord, x, j) {
        let j2 = choose|j2: int| 0 <= j2 < j && new_ord[j2] == x;
        assert(old_ord[j2] == x);
    }
    if in_prefix(old_ord, x, j) {
        let j2 = choose|j2: int| 0 <= j2 < j && old_ord[j2] == x;
        assert(new_ord[j2] == x);
    }
}

/// A position below the old length holds the same readiness after a push.
proof fn lemma_ready_push(
    edges: Seq<(usize, usize)>,
    old_ord: Seq<usize>,
    pick: usize,
    v: usize,
    j: int,
)
    requires
        0 <= j <= old_ord.len(),
    ensures
        ready_at(edges, old_ord.push(pick), v, j) == ready_at(edges, old_ord, v, j),
{
    let new_ord = old_ord.push(pick);
    if ready_at(edges, new_ord, v, j) {
        assert forall|k: int|
            0 <= k < edges.len() && (#[trigger] edges[k]).0 == v implies in_prefix(
            old_ord,
            edges[k].1,
            j,
        ) by {
            lemma_prefix_push(old_ord, pick, edges[k].1, j);
        }
    }
    if ready_at(edges, old_ord, v, j) {
        assert forall|k: int|
            0 <= k < edges.len() && (#[trigger] edges[k]).0 == v implies in_prefix(
            new_ord,
            edges[k].1,
            j,
        ) by {
            lemma_prefix_push(old_ord, pick, edges[k].1, j);
        }
    }
}

/// Emitting the least eligible node preserves every invariant of the
/// emission loop.
proof fn lemma_push_step(
    n: int,
    edges: Seq<(usize, usize)>,
    old_ord: Seq<usize>,
    old_emitted: Seq<bool>,
    pick: usize,
)
    requires
        n <= usize::MAX as int,
        forall|k: int| 0 <= k < edges.len() ==> (#[trigger] edges[k]).0 < n && edges[k].1 < n,
        old_emitted.len() == n,
        old_ord.len() < n,
        forall|v: int|
            0 <= v < n ==> ((#[trigger] old_emitted[v]) <==> in_prefix(
                old_ord,
                v as usize,
                old_ord.len() as int,
            )),
        forall|j: int| 0 <= j < old_ord.len() ==> (#[trigger] old_ord[j]) < n,
        forall|j: int| 0 <= j < old_ord.len() ==> !in_prefix(old_ord, #[trigger] old_ord[j], j),
        forall|j: int|
            0 <= j < old_ord.len() ==> ready_at(edges, old_ord, #[trigger] old_ord[j], j),
        first_ready_order(n, edges, old_ord),
        pick < n,
        !old_emitted[pick as int],
        forall|k: int|
            0 <= k < edges.len() && (#[trigger] edges[k]).0 == pick ==> old_emitted[edges[k].1 as int],
        forall|v2: int|
            0 <= v2 < pick ==> (#[trigger] old_emitted[v2]) || !(forall|k: int|
                0 <= k < edges.len() && (#[trigger] edges[k]).0 == v2 as usize
                    ==> old_emitted[edges[k].1 as int]),
    ensures
        forall|v: int|
            0 <= v < n ==> ((#[trigger] old_emitted.update(pick as int, true)[v]) <==> in_prefix(
                old_ord.push(pick),
                v as usize,
                old_ord.push(pick).len() as int,
            )),
        forall|j: int|
            0 <= j < old_ord.push(pick).len() ==> (#[trigger] old_ord.push(pick)[j]) < n,
        forall|j: int|
            0 <= j < old_ord.push(pick).len() ==> !in_prefix(
                old_ord.push(pick),
                #[trigger] old_ord.push(pick)[j],
                j,
            ),
        forall|j: int|
            0 <= j < old_ord.push(pick).len() ==> ready_at(
                edges,
                old_ord.push(pick),
                #[trigger] old_ord.push(pick)[j],
                j,
            ),
        first_ready_order(n, edges, old_ord.push(pick)),
{
    let new_ord = old_ord.push(pick);
    let new_emitted = old_emitted.update(pick as int, true);
    let len = old_ord.len() as int;
    assert(new_ord[len] == pick);

    assert forall|v: int| 0 <= v < n implies ((#[trigger] new_emitted[v]) <==> in_prefix(
        new_ord,
        v as usize,
        len + 1,
    )) by {
        lemma_prefix_push(old_ord, pick, v as usize, len);
        if new_emitted[v] {
            if v == pick as int {
                assert(new_ord[len] == v as usize);
            } else {
                assert(old_emitted[v]);
                assert(in_prefix(old_ord, v as usize, len));
                assert(in_prefix(new_ord, v as usize, len));
                let j2 = choose|j2: int| 0 <= j2 < len && new_ord[j2] == v as usize;
                assert(0 <= j2 < len + 1 && new_ord[j2] == v as usize);
            }
        }
        if in_prefix(new_ord, v as usize, len + 1) {
            let j2 = choose|j2: int| 0 <= j2 < len + 1 && new_ord[j2] == v as usize;
            if j2 == len {
                assert(v == pick as int);
            } else {
                assert(in_prefix(new_ord, v as usize, len));
                assert(in_prefix(old_ord, v as usize, len));
                assert(old_emitted[v]);
            }
        }
    }

    assert forall|j: int| 0 <= j < new_ord.len() implies !in_prefix(
        new_ord,
        #[trigger] new_ord[j],
        j,
    ) by {
        lemma_prefix_push(old_ord, pick, new_ord[j], j);
        if j < len {
            assert(!in_prefix(old_ord, old_ord[j], j));
        } else {
            assert(new_ord[j] == pick);
            if in_prefix(old_ord, pick, len) {
                assert(old_emitted[pick as int]);
                assert(false);
            }
        }
    }

    assert forall|j: int| 0 <= j < new_ord.len() implies ready_at(
        edges,
        new_ord,
        #[trigger] new_ord[j],
        j,
    ) by {
        lemma_ready_push(edges, old_ord, pick, new_ord[j], j);
        if j < len {
            assert(ready_at(edges, old_ord, old_ord[j], j));
        } else {
            assert(new_ord[j] == pick);
            assert forall|k: int|
                0 <= k < edges.len() && (#[trigger] edges[k]).0 == pick implies in_prefix(
                old_ord,
                edges[k].1,
                len,
            ) by {
                assert(old_emitted[edges[k].1 as int]);
            }
            assert(ready_at(edges, old_ord, pick, len));
        }
    }

    assert forall|j: int, v2: usize|
        #![trigger new_ord[j], ready_at(edges, new_ord, v2, j)]
        0 <= j < new_ord.len() && v2 < n && !in_prefix(new_ord, v2, j) && ready_at(
            edges,
            new_ord,
            v2,
            j,
        ) implies new_ord[j] <= v2 by {
        lemma_prefix_push(old_ord, pick, v2, if j <= len {
            j
        } else {
            len
        });
        lemma_ready_push(edges, old_ord, pick, v2, if j <= len {
            j
        } else {
            len
        });
        if j < len {
            assert(!in_prefix(old_ord, v2, j));
            assert(ready_at(edges, old_ord, v2, j));
            assert(old_ord[j] <= v2);
        } else {
            assert(new_ord[j] == pick);
            if v2 < pick {
                assert(!in_prefix(old_ord, v2, len));
                assert(!old_emitted[v2 as int]);
                assert(ready_at(edges, old_ord, v2, len));
                assert forall|k: int|
                    0 <= k < edges.len() && (#[trigger] edges[k]).0 == v2 implies old_emitted[edges[k].1 as int] by {
                    assert(in_prefix(old_ord, edges[k].1, len));
                }
                assert(old_emitted[v2 as int] || !(forall|k: int|
                    0 <= k < edges.len() && (#[trigger] edges[k]).0 == v2 as int as usize
                        ==> old_emitted[edges[k].1 as int]));
                assert(false);
            }
        }
    }
}

proof fn lemma_count_true_zero(s: Seq<bool>)
    requires
        forall|j: int| 0 <= j < s.len() ==> !(#[trigger] s[j]),
    ensures
        count_true(s) == 0,
    decreases s.len(),
{
    if s.len() > 0 {
        lemma_count_true_zero(s.drop_last());
    }
}

/// The least position at or after `j0` holding a member of `s`.
proof fn lemma_first_position(ord: Seq<usize>, s: Set<int>, j0: int) -> (j: int)
    requires
        0 <= j0 <= ord.len(),
        exists|j2: int| j0 <= j2 < ord.len() && s.contains(ord[j2] as int),
    ensures
        j0 <= j < ord.len(),
        s.contains(ord[j] as int),
        forall|j2: int| j0 <= j2 < j ==> !s.contains((#[trigger] ord[j2]) as int),
    decreases ord.len() - j0,
{
    if s.contains(ord[j0] as int) {
        j0
    } else {
        lemma_first_position(ord, s, j0 + 1)
    }
}

/// A complete topological order rules every cycle witness out.
proof fn lemma_order_acyclic(n: int, edges: Seq<(usize, usize)>, ord: Seq<usize>)
    requires
        n <= usize::MAX as int,
        valid_order(n, edges, ord),
        forall|k: int| 0 <= k < edges.len() ==> (#[trigger] edges[k]).0 < n && edges[k].1 < n,
    ensures
        !cyclic(n, edges),
{
    if cyclic(n, edges) {
        let s = choose|s: Set<int>|
            {
                &&& s.finite()
                &&& s.len() > 0
                &&& (forall|v: int| s.contains(v) ==> 0 <= v < n)
                &&& (forall|v: int| #[trigger]
                    s.contains(v) ==> exists|k: int|
                        0 <= k < edges.len() && (#[trigger] edges[k]).0 == v as usize && s.contains(
                            edges[k].1 as int,
                        ))
            };
        let w = s.choose();
        assert(s.contains(w));
        assert(0 <= w < n);
        assert(in_prefix(ord, w as usize, ord.len() as int)) by {
            lemma_order_covers(n, edges, ord, w as usize);
        }
        let jw = choose|j2: int| 0 <= j2 < ord.len() && ord[j2] == w as usize;
        assert(s.contains(ord[jw] as int));
        let j = lemma_first_position(ord, s, 0);
        let v = ord[j];
        assert(s.contains(v as int));
        let k = choose|k: int|
            0 <= k < edges.len() && (#[trigger] edges[k]).0 == v && s.contains(edges[k].1 as int);
        assert(ready_at(edges, ord, v, j));
        assert(in_prefix(ord, edges[k].1, j));
        let j2 = choose|j2: int| 0 <= j2 < j && ord[j2] == edges[k].1;
        assert(s.contains(ord[j2] as int));
        assert(false);
    }
}

/// Every node below `n` stands somewhere in a complete topological order.
proof fn lemma_order_covers(n: int, edges: Seq<(usize, usize)>, ord: Seq<usize>, v: usize)
    requires
        valid_order(n, edges, ord),
        v < n,
    ensures
        in_prefix(ord, v, ord.len() as int),
{
    if !in_prefix(ord, v, ord.len() as int) {
        lemma_suffix_values_len(ord, n, v, 0);
        vstd::set_lib::lemma_int_range(0, n);
        vstd::set_lib::lemma_len_subset(
            suffix_values(ord, 0),
            vstd::set_lib::set_int_range(0, n).remove(v as int),
        );
        assert(vstd::set_lib::set_int_range(0, n).contains(v as int));
        assert(vstd::set_lib::set_int_range(0, n).remove(v as int).len() == n - 1);
        assert(false);
    }
}

/// The distinct values standing at or after position `j`.
pub open spec fn suffix_values(ord: Seq<usize>, j: int) -> Set<int> {
    Set::new(|x: int| exists|j2: int| j <= j2 < ord.len() && (#[trigger] ord[j2]) as int == x)
}

/// In a repetition-free sequence of `n` values below `n` that misses `v`,
/// the values from position `j` on are `n - j` many and all differ from `v`.
proof fn lemma_suffix_values_len(ord: Seq<usize>, n: int, v: usize, j: int)
    requires
        ord.len() == n,
        forall|j2: int| 0 <= j2 < ord.len() ==> (#[trigger] ord[j2]) < n,
        forall|j2: int| 0 <= j2 < ord.len() ==> !in_prefix(ord, #[trigger] ord[j2], j2),
        v < n,
        !in_prefix(ord, v, ord.len() as int),
        0 <= j <= n,
    ensures
        suffix_values(ord, j).finite(),
        suffix_values(ord, j).len() == n - j,
        suffix_values(ord, j).subset_of(vstd::set_lib::set_int_range(0, n).remove(v as int)),
    decreases n - j,
{
    if j == n {
        assert(suffix_values(ord, j) =~= Set::<int>::empty());
    } else {
        lemma_suffix_values_len(ord, n, v, j + 1);
        assert(suffix_values(ord, j) =~= suffix_values(ord, j + 1).insert(ord[j] as int));
        if suffix_values(ord, j + 1).contains(ord[j] as int) {
            let j2 = choose|j2: int|
                j + 1 <= j2 < ord.len() && (#[trigger] ord[j2]) as int == ord[j] as int;
            assert(in_prefix(ord, ord[j2], j2));
            assert(false);
        }
        assert(ord[j] != v) by {
            if ord[j] == v {
                assert(in_prefix(ord, v, ord.len() as int));
            }
        }
        assert(vstd::set_lib::set_int_range(0, n).remove(v as int).contains(ord[j] as int));
    }
}

/// All resource names differ pairwise.
pub open spec fn distinct_names(rs: Seq<SpecResource>) -> bool {
    forall|a: int, b: int|
        0 <= a < rs.len() && 0 <= b < rs.len() && a != b ==> (#[trigger] rs[a].name) != (
        #[trigger] rs[b].name)
}

/// Every declared prerequisite stands before its dependent in the order.
pub open spec fn respects_explicit_deps(rs: Seq<SpecResource>, ord: Seq<usize>) -> bool {
    forall|a: int, k: int, b: int, j1: int, j2: int|
        #![trigger rs[a].depends_on->Some_0[k], rs[b].name, ord[j1], ord[j2]]
        0 <= a < rs.len() && 0 <= b < rs.len() && rs[a].depends_on is Some && 0 <= k
            < rs[a].depends_on->Some_0.len() && rs[b].name == rs[a].depends_on->Some_0[k] && 0 <= j1
            < ord.len() && 0 <= j2 < ord.len() && ord[j1] == a as usize && ord[j2] == b as usize
            ==> j2 < j1
}

/// Some edge records that resource `a`'s `k`-th declared dependency points
/// at the resource carrying the named prerequisite.
pub open spec fn dep_edge_exists(
    rs: Seq<SpecResource>,
    edges: Seq<(usize, usize)>,
    a: int,
    k: int,
) -> bool {
    exists|idx: int, b: int|
        #![trigger edges[idx], rs[b].name]
        0 <= idx < edges.len() && 0 <= b < rs.len() && edges[idx] == (a as usize, b as usize)
            && rs[b].name == rs[a].depends_on->Some_0[k]
}

/// Every declared dependency of the first `a_upto` resources has an edge.
pub open spec fn explicit_covered(
    rs: Seq<SpecResource>,
    edges: Seq<(usize, usize)>,
    a_upto: int,
) -> bool {
    forall|a: int, k: int|
        #![trigger dep_edge_exists(rs, edges, a, k)]
        0 <= a < a_upto && rs[a].depends_on is Some && 0 <= k < rs[a].depends_on->Some_0.len()
            ==> dep_edge_exists(rs, edges, a, k)
}

/// Growing the edge list keeps a recorded dependency edge recorded.
proof fn lemma_dep_edge_extend(
    rs: Seq<SpecResource>,
    old_edges: Seq<(usize, usize)>,
    new_edges: Seq<(usize, usize)>,
    a: int,
    k: int,
)
    requires
        dep_edge_exists(rs, old_edges, a, k),
        old_edges.len() <= new_edges.len(),
        forall|idx: int| 0 <= idx < old_edges.len() ==> (#[trigger] new_edges[idx]) == old_edges[idx],
    ensures
        dep_edge_exists(rs, new_edges, a, k),
{
    let (idx, b) = choose|idx: int, b: int|
        #![trigger old_edges[idx], rs[b].name]
        0 <= idx < old_edges.len() && 0 <= b < rs.len() && old_edges[idx] == (a as usize, b as usize)
            && rs[b].name == rs[a].depends_on->Some_0[k];
    assert(new_edges[idx] == (a as usize, b as usize));
}

/// Growing the edge list keeps every covered dependency covered.
proof fn lemma_covered_extend(
    rs: Seq<SpecResource>,
    old_edges: Seq<(usize, usize)>,
    new_edges: Seq<(usize, usize)>,
    a_upto: int,
)
    requires
        explicit_covered(rs, old_edges, a_upto),
        old_edges.len() <= new_edges.len(),
        forall|idx: int| 0 <= idx < old_edges.len() ==> (#[trigger] new_edges[idx]) == old_edges[idx],
    ensures
        explicit_covered(rs, new_edges, a_upto),
{
    assert forall|a: int, k: int|
        0 <= a < a_upto && rs[a].depends_on is Some && 0 <= k < rs[a].depends_on->Some_0.len()
            implies #[trigger] dep_edge_exists(rs, new_edges, a, k) by {
        assert(dep_edge_exists(rs, old_edges, a, k));
        lemma_dep_edge_extend(rs, old_edges, new_edges, a, k);
    }
}

/// In a topological order, the two ends of an edge stand prerequisite
/// first.
proof fn lemma_valid_order_edge(
    n: int,
    edges: Seq<(usize, usize)>,
    ord: Seq<usize>,
    k: int,
    j1: int,
    j2: int,
)
    requires
        valid_order(n, edges, ord),
        0 <= k < edges.len(),
        0 <= j1 < ord.len(),
        0 <= j2 < ord.len(),
        ord[j1] == edges[k].0,
        ord[j2] == edges[k].1,
    ensures
        j2 < j1,
{
    assert(ready_at(edges, ord, ord[j1], j1));
    assert(in_prefix(ord, edges[k].1, j1));
    let j3 = choose|j3: int| 0 <= j3 < j1 && ord[j3] == edges[k].1;
    if j3 < j2 {
        assert(in_prefix(ord, ord[j2], j2));
        assert(false);
    }
    if j2 < j3 {
        assert(in_prefix(ord, ord[j3], j3));
        assert(false);
    }
}

/// The position of the resource carrying a name, scanning from the front.
#[verifier::loop_isolation(false)]
fn find_resource_index(config: &Configuration, name: &String) -> (r: Option<usize>)
    ensures
        match r {
            Some(b) => b < config.resources@.len() && resources_view(config.resources)[b as int].name == name@,
            None => forall|b: int|
                0 <= b < config.resources@.len() ==> (#[trigger] resources_view(
                    config.resources,
                )[b].name) != name@,
        },
{
    let n = config.resources.len();
    let mut b: usize = 0;
    while b < n
        invariant
            0 <= b <= n,
            forall|b2: int|
                0 <= b2 < b ==> (#[trigger] resources_view(config.resources)[b2].name) != name@,
        decreases n - b,
    {
        if config.resources[b].name == *name {
            return Some(b);
        }
        b += 1;
    }
    None
}

/// Gather every expression-shaped string inside a value, in document order;
/// a value without bracketed strings contributes nothing.
#[verifier::loop_isolation(false)]
fn collect_statements(v: &PropValue, out: &mut Vec<String>)
    ensures
        no_expressions(v@) ==> final(out)@.len() == old(out)@.len(),
    decreases v,
{
    broadcast use crate::value::group_value_axioms;

    match v {
        PropValue::String(s) => {
            if crate::value::is_bracketed(s) {
                out.push(s.clone());
            }
        },
        PropValue::Array(es) => {
            let n = es.len();
            let mut i: usize = 0;
            while i < n
                invariant
                    0 <= i <= n,
                    no_expressions(v@) ==> out@.len() == old(out)@.len(),
                decreases n - i,
            {
                proof {
                    if no_expressions(v@) {
                        assert(v@ == SpecValue::Array(crate::value::array_view(*es)));
                        assert(v@->Array_0 == crate::value::array_view(*es));
                        assert(no_expressions(v@->Array_0[i as int]));
                        assert(v@->Array_0[i as int] == es[i as int]@);
                    }
                }
                collect_statements(&es[i], out);
                i += 1;
            }
        },
        PropValue::Object(fs) => {
            let n = fs.len();
            let mut i: usize = 0;
            while i < n
                invariant
                    0 <= i <= n,
                    no_expressions(v@) ==> out@.len() == old(out)@.len(),
                decreases n - i,
            {
                proof {
                    if no_expressions(v@) {
                        assert(v@ == SpecValue::Object(crate::value::object_view(*fs)));
                        assert(v@->Object_0 == crate::value::object_view(*fs));
                        assert(no_expressions(v@->Object_0[i as int].1));
                        assert(v@->Object_0[i as int].1 == fs[i as int].1@);
                    }
                }
                collect_statements(&fs[i].1, out);
                i += 1;
            }
        },
        _ => {
        },
    }
}

/// Resource `a`'s `k`-th declared dependency names some resource.
pub open spec fn dep_resolves(rs: Seq<SpecResource>, a: int, k: int) -> bool {
    exists|b: int| 0 <= b < rs.len() && (#[trigger] rs[b].name) == rs[a].depends_on->Some_0[k]
}

/// Every declared `dependsOn` name resolves to some resource of the
/// document.
pub open spec fn all_deps_resolve(rs: Seq<SpecResource>) -> bool {
    forall|a: int, k: int|
        0 <= a < rs.len() && rs[a].depends_on is Some && 0 <= k < rs[a].depends_on->Some_0.len()
            ==> #[trigger] dep_resolves(rs, a, k)
}

/// An order emitted against some edge list that contains every declared
/// dependency: a topological sort of it, with the least eligible node first
/// at every position. The edge list also carries the engine's
/// expression-reference edges, so it is existential here.
pub open spec fn ordered_by_edges(
    rs: Seq<SpecResource>,
    es: Seq<(usize, usize)>,
    ord: Seq<usize>,
) -> bool {
    &&& forall|k: int|
        0 <= k < es.len() ==> (#[trigger] es[k]).0 < rs.len() && es[k].1 < rs.len()
    &&& explicit_covered(rs, es, rs.len() as int)
    &&& valid_order(rs.len() as int, es, ord)
    &&& first_ready_order(rs.len() as int, es, ord)
}

/// Positions below `j` agree, so prefix membership at `j` agrees.
proof fn lemma_prefix_same(ord1: Seq<usize>, ord2: Seq<usize>, x: usize, j: int)
    requires
        0 <= j <= ord1.len(),
        0 <= j <= ord2.len(),
        forall|j2: int| 0 <= j2 < j ==> (#[trigger] ord1[j2]) == ord2[j2],
    ensures
        in_prefix(ord1, x, j) == in_prefix(ord2, x, j),
{
    if in_prefix(ord1, x, j) {
        let j2 = choose|j2: int| 0 <= j2 < j && ord1[j2] == x;
        assert(ord2[j2] == x);
    }
    if in_prefix(ord2, x, j) {
        let j2 = choose|j2: int| 0 <= j2 < j && ord2[j2] == x;
        assert(ord1[j2] == x);
    }
}

/// Positions below `j` agree, so readiness at `j` agrees.
proof fn lemma_ready_same(
    es: Seq<(usize, usize)>,
    ord1: Seq<usize>,
    ord2: Seq<usize>,
    v: usize,
    j: int,
)
    requires
        0 <= j <= ord1.len(),
        0 <= j <= ord2.len(),
        forall|j2: int| 0 <= j2 < j ==> (#[trigger] ord1[j2]) == ord2[j2],
    ensures
        ready_at(es, ord1, v, j) == ready_at(es, ord2, v, j),
{
    if ready_at(es, ord1, v, j) {
        assert forall|k: int|
            0 <= k < es.len() && (#[trigger] es[k]).0 == v implies in_prefix(ord2, es[k].1, j) by {
            lemma_prefix_same(ord1, ord2, es[k].1, j);
        }
    }
    if ready_at(es, ord2, v, j) {
        assert forall|k: int|
            0 <= k < es.len() && (#[trigger] es[k]).0 == v implies in_prefix(ord1, es[k].1, j) by {
            lemma_prefix_same(ord1, ord2, es[k].1, j);
        }
    }
}

proof fn lemma_unique_from(
    n: int,
    es: Seq<(usize, usize)>,
    ord1: Seq<usize>,
    ord2: Seq<usize>,
    j: int,
)
    requires
        valid_order(n, es, ord1),
        first_ready_order(n, es, ord1),
        valid_order(n, es, ord2),
        first_ready_order(n, es, ord2),
        0 <= j <= n,
        forall|j2: int| 0 <= j2 < j ==> (#[trigger] ord1[j2]) == ord2[j2],
    ensures
        ord1 =~= ord2,
    decreases n - j,
{
    if j == n {
        assert(ord1 =~= ord2);
    } else {
        let v1 = ord1[j];
        let v2 = ord2[j];
        lemma_prefix_same(ord1, ord2, v1, j);
        lemma_prefix_same(ord1, ord2, v2, j);
        lemma_ready_same(es, ord1, ord2, v1, j);
        lemma_ready_same(es, ord1, ord2, v2, j);
        assert(ready_at(es, ord2, v1, j) && !in_prefix(ord2, v1, j));
        assert(ready_at(es, ord1, v2, j) && !in_prefix(ord1, v2, j));
        assert(ord2[j] <= v1);
        assert(ord1[j] <= v2);
        assert(ord1[j] == ord2[j]);
        assert forall|j2: int| 0 <= j2 < j + 1 implies (#[trigger] ord1[j2]) == ord2[j2] by {
        }
        lemma_unique_from(n, es, ord1, ord2, j + 1);
    }
}

/// The document-order tie-break pins the order uniquely: any two orders of
/// the same nodes under the same edges that are both topological and both
/// least-eligible-first are equal. Repeated resolver calls over the same
/// document and the same engine answers therefore emit the same order.
pub proof fn lemma_resolver_order_unique(
    n: int,
    es: Seq<(usize, usize)>,
    ord1: Seq<usize>,
    ord2: Seq<usize>,
)
    requires
        valid_order(n, es, ord1),
        first_ready_order(n, es, ord1),
        valid_order(n, es, ord2),
        first_ready_order(n, es, ord2),
    ensures
        ord1 == ord2,
{
    lemma_unique_from(n, es, ord1, ord2, 0);
}

/// A resolver-shaped order: each resource exactly once, named prerequisites
/// first, over a document whose resource names are unique.
pub open spec fn resolver_ok_order(rs: Seq<SpecResource>, ord: Seq<usize>) -> bool {
    &&& ord.len() == rs.len()
    &&& forall|j: int| 0 <= j < ord.len() ==> (#[trigger] ord[j]) < rs.len()
    &&& forall|j: int| 0 <= j < ord.len() ==> !in_prefix(ord, #[trigger] ord[j], j)
    &&& distinct_names(rs)
    &&& respects_explicit_deps(rs, ord)
}

/// The invocation order of a configuration's resources: explicit `dependsOn`
/// names and the names the engine reads out of bracketed expressions both
/// become prerequisite edges; the order is the unique topological sort with
/// the document-order tie-break. Duplicate resource names, a dependency on
/// an unknown name, and a dependency cycle are validation errors.
#[verifier::loop_isolation(false)]
pub fn get_resource_invocation_order<E: ExpressionEngine>(
    config: &Configuration,
    engine: &mut E,
) -> (r: Result<Vec<usize>, DscError>)
    ensures
        r matches Ok(ord) ==> resolver_ok_order(resources_view(config.resources), ord@),
        r matches Ok(ord) ==> exists|es: Seq<(usize, usize)>|
            #[trigger] ordered_by_edges(resources_view(config.resources), es, ord@),
        r is Ok ==> all_deps_resolve(resources_view(config.resources)),
        !distinct_names(resources_view(config.resources)) ==> (r matches Err(e) && e is Validation),
        resources_view(config.resources).len() == 0 ==> r is Ok,
        config_expression_free(resources_view(config.resources)) ==> (r matches Err(e) ==> e
            is Validation),
        (config_expression_free(resources_view(config.resources)) && distinct_names(
            resources_view(config.resources),
        ) && all_deps_resolve(resources_view(config.resources))) ==> (r matches Err(e) ==> (e
            matches DscError::Validation(m) && message_prefixed(
            m@,
            "Circular dependency among resources: "@,
        ))),
{
    let ghost rs = resources_view(config.resources);
    let n = config.resources.len();
    let mut a: usize = 0;
    while a < n
        invariant
            0 <= a <= n,
            forall|a2: int, b2: int|
                0 <= a2 < a && a2 < b2 < n ==> (#[trigger] rs[a2].name) != (#[trigger] rs[b2].name),
        decreases n - a,
    {
        let mut b: usize = a + 1;
        while b < n
            invariant
                a < b <= n,
                forall|b2: int| a < b2 < b ==> (#[trigger] rs[b2].name) != rs[a as int].name,
            decreases n - b,
        {
            if config.resources[a].name == config.resources[b].name {
                proof {
                    assert(rs[a as int].name == rs[b as int].name);
                }
                return Err(
                    DscError::Validation(String::from_str("resource names must be unique")),
                );
            }
            b += 1;
        }
        a += 1;
    }
    proof {
        assert(distinct_names(rs));
    }
    let mut edges: Vec<(usize, usize)> = Vec::new();
    let mut a: usize = 0;
    while a < n
        invariant
            0 <= a <= n,
            forall|k: int|
                0 <= k < edges@.len() ==> (#[trigger] edges@[k]).0 < n && edges@[k].1 < n,
            explicit_covered(rs, edges@, a as int),
            distinct_names(rs),
        decreases n - a,
    {
        if let Some(deps) = &config.resources[a].depends_on {
            let m = deps.len();
            let mut k: usize = 0;
            while k < m
                invariant
                    0 <= k <= m,
                    forall|k2: int|
                        0 <= k2 < edges@.len() ==> (#[trigger] edges@[k2]).0 < n && edges@[k2].1
                            < n,
                    explicit_covered(rs, edges@, a as int),
                    forall|k2: int|
                        0 <= k2 < k ==> #[trigger] dep_edge_exists(rs, edges@, a as int, k2),
                decreases m - k,
            {
                match find_resource_index(config, &deps[k]) {
                    Some(b) => {
                        let ghost old_edges = edges@;
                        edges.push((a, b));
                        proof {
                            lemma_covered_extend(rs, old_edges, edges@, a as int);
                            assert forall|k2: int| 0 <= k2 < k + 1 implies #[trigger] dep_edge_exists(
                                rs,
                                edges@,
                                a as int,
                                k2,
                            ) by {
                                if k2 < k as int {
                                    lemma_dep_edge_extend(rs, old_edges, edges@, a as int, k2);
                                } else {
                                    assert(rs[a as int].depends_on->Some_0[k as int] == deps[k as int]@);
                                    assert(edges@[old_edges.len() as int] == (a, b));
                                    assert(rs[b as int].name == deps[k as int]@);
                                }
                            }
                        }
                    },
                    None => {
                        proof {
                            assert(rs[a as int].depends_on->Some_0[k as int] == deps[k as int]@);
                            if dep_resolves(rs, a as int, k as int) {
                                let b0 = choose|b: int|
                                    0 <= b < rs.len() && (#[trigger] rs[b].name)
                                        == rs[a as int].depends_on->Some_0[k as int];
                                assert(resources_view(config.resources)[b0].name
                                    == deps[k as int]@);
                                assert(false);
                            }
                        }
                        return Err(
                            DscError::Validation(
                                String::from_str("dependency on an unknown resource name"),
                            ),
                        );
                    },
                }
                k += 1;
            }
            proof {
                assert forall|a2: int, k2: int|
                    0 <= a2 < a as int + 1 && rs[a2].depends_on is Some && 0 <= k2
                        < rs[a2].depends_on->Some_0.len() implies #[trigger] dep_edge_exists(
                    rs,
                    edges@,
                    a2,
                    k2,
                ) by {
                    if a2 < a as int {
                        assert(explicit_covered(rs, edges@, a as int));
                    }
                }
                assert(explicit_covered(rs, edges@, a as int + 1));
            }
        } else {
            proof {
                assert forall|a2: int, k2: int|
                    0 <= a2 < a as int + 1 && rs[a2].depends_on is Some && 0 <= k2
                        < rs[a2].depends_on->Some_0.len() implies #[trigger] dep_edge_exists(
                    rs,
                    edges@,
                    a2,
                    k2,
                ) by {
                    assert(rs[a as int].depends_on is None);
                    assert(a2 < a as int);
                }
                assert(explicit_covered(rs, edges@, a as int + 1));
            }
        }
        if let Some(props) = &config.resources[a].properties {
            let mut stmts: Vec<String> = Vec::new();
            let m = props.len();
            let mut i: usize = 0;
            while i < m
                invariant
                    0 <= i <= m,
                    config_expression_free(rs) ==> stmts@.len() == 0,
                decreases m - i,
            {
                proof {
                    if config_expression_free(rs) {
                        assert(rs[a as int].properties == Some(crate::value::object_view(*props)));
                        assert(props_no_expressions(crate::value::object_view(*props)));
                        assert(no_expressions(crate::value::object_view(*props)[i as int].1));
                        assert(crate::value::object_view(*props)[i as int].1
                            == props[i as int].1@);
                    }
                }
                collect_statements(&props[i].1, &mut stmts);
                i += 1;
            }
            let t = stmts.len();
            let mut si: usize = 0;
            while si < t
                invariant
                    0 <= si <= t,
                    config_expression_free(rs) ==> t == 0,
                    forall|k2: int|
                        0 <= k2 < edges@.len() ==> (#[trigger] edges@[k2]).0 < n && edges@[k2].1
                            < n,
                    explicit_covered(rs, edges@, a as int + 1),
                decreases t - si,
            {
                let refs = match engine.references(&stmts[si]) {
                    Ok(refs) => refs,
                    Err(e) => {
                        return Err(e);
                    },
                };
                let u = refs.len();
                let mut ri: usize = 0;
                while ri < u
                    invariant
                        0 <= ri <= u,
                        forall|k2: int|
                            0 <= k2 < edges@.len() ==> (#[trigger] edges@[k2]).0 < n
                                && edges@[k2].1 < n,
                        explicit_covered(rs, edges@, a as int + 1),
                    decreases u - ri,
                {
                    match find_resource_index(config, &refs[ri]) {
                        Some(b) => {
                            let ghost old_edges = edges@;
                            edges.push((a, b));
                            proof {
                                lemma_covered_extend(rs, old_edges, edges@, a as int + 1);
                            }
                        },
                        None => {
                            return Err(
                                DscError::Validation(
                                    String::from_str(
                                        "expression reference to an unknown resource name",
                                    ),
                                ),
                            );
                        },
                    }
                    ri += 1;
                }
                si += 1;
            }
        }
        a += 1;
    }
    proof {
        if n == 0 {
            if cyclic(0, edges@) {
                let s = choose|s: Set<int>|
                    {
                        &&& s.finite()
                        &&& s.len() > 0
                        &&& forall|v: int| s.contains(v) ==> 0 <= v < 0
                        &&& forall|v: int| #[trigger]
                            s.contains(v) ==> exists|k: int|
                                0 <= k < edges@.len() && (#[trigger] edges@[k]).0 == v as usize
                                    && s.contains(edges@[k].1 as int)
                    };
                assert(s =~= Set::<int>::empty());
                assert(false);
            }
        }
    }
    let mut names: Vec<String> = Vec::new();
    let mut ni: usize = 0;
    while ni < n
        invariant
            0 <= ni <= n,
            names@.len() == ni,
        decreases n - ni,
    {
        names.push(config.resources[ni].name.clone());
        ni += 1;
    }
    let ord = match invocation_order(n, &edges, &names) {
        Ok(ord) => ord,
        Err(e) => {
            return Err(e);
        },
    };
    proof {
        assert(ordered_by_edges(rs, edges@, ord@));
        assert forall|a2: int, k2: int|
            0 <= a2 < rs.len() && rs[a2].depends_on is Some && 0 <= k2
                < rs[a2].depends_on->Some_0.len() implies #[trigger] dep_resolves(
            rs,
            a2,
            k2,
        ) by {
            assert(dep_edge_exists(rs, edges@, a2, k2));
            let (idx, b) = choose|idx: int, b: int|
                #![trigger edges@[idx], rs[b].name]
                0 <= idx < edges@.len() && 0 <= b < rs.len() && edges@[idx] == (
                    a2 as usize,
                    b as usize,
                ) && rs[b].name == rs[a2].depends_on->Some_0[k2];
            assert(0 <= b < rs.len() && rs[b].name == rs[a2].depends_on->Some_0[k2]);
        }
        assert(all_deps_resolve(rs));
    }
    proof {
        assert forall|a2: int, k2: int, b2: int, j1: int, j2: int|
            #![trigger rs[a2].depends_on->Some_0[k2], rs[b2].name, ord@[j1], ord@[j2]]
            0 <= a2 < rs.len() && 0 <= b2 < rs.len() && rs[a2].depends_on is Some && 0 <= k2
                < rs[a2].depends_on->Some_0.len() && rs[b2].name == rs[a2].depends_on->Some_0[k2]
                && 0 <= j1 < ord@.len() && 0 <= j2 < ord@.len() && ord@[j1] == a2 as usize
                && ord@[j2] == b2 as usize implies j2 < j1 by {
            assert(dep_edge_exists(rs, edges@, a2, k2));
            let (idx, b) = choose|idx: int, b: int|
                #![trigger edges@[idx], rs[b].name]
                0 <= idx < edges@.len() && 0 <= b < rs.len() && edges@[idx] == (
                    a2 as usize,
                    b as usize,
                ) && rs[b].name == rs[a2].depends_on->Some_0[k2];
            assert(b == b2);
            lemma_valid_order_edge(n as int, edges@, ord@, idx, j1, j2);
        }
    }
    Ok(ord)
}

} // verus!
