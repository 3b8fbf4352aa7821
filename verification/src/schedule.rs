use vstd::prelude::*;

use crate::dict::Dict;
use crate::errors::{Error, ErrorView};
use crate::model::{Job, JobView};
use crate::strutil::chars_to_string;
use crate::value::{assoc, has_pair_key, keys_unique, lemma_assoc_unique, push_str_chars};

verus! {

pub open spec fn keys_of(js: Seq<(Seq<char>, JobView)>) -> Seq<Seq<char>> {
    Seq::new(js.len(), |i: int| js[i].0)
}

pub open spec fn contains_name(names: Seq<Seq<char>>, x: Seq<char>) -> bool {
    exists|i: int| 0 <= i < names.len() && names[i] == x
}

pub open spec fn distinct_names(names: Seq<Seq<char>>) -> bool {
    forall|i: int, j: int| 0 <= i < j < names.len() ==> names[i] != names[j]
}

/// The declared predecessors of the named job.
pub open spec fn needs_of(js: Seq<(Seq<char>, JobView)>, name: Seq<char>) -> Seq<Seq<char>> {
    match assoc(js, name) {
        Some(j) => j.needs,
        None => Seq::empty(),
    }
}

/// The d-th declared predecessor of the named job.
pub open spec fn dep_at(js: Seq<(Seq<char>, JobView)>, name: Seq<char>, d: int) -> Seq<char> {
    needs_of(js, name)[d]
}

/// The name already stands somewhere before position p of the order.
pub open spec fn placed_before(ord: Seq<Seq<char>>, p: int, x: Seq<char>) -> bool {
    exists|k: int| 0 <= k < p && ord[k] == x
}

/// Every declared predecessor names a job that exists.
pub open spec fn all_deps_exist(js: Seq<(Seq<char>, JobView)>) -> bool {
    forall|i: int, d: int| 0 <= i < js.len() && 0 <= d < js[i].1.needs.len()
        ==> contains_name(keys_of(js), #[trigger] js[i].1.needs[d])
}

/// A correct execution order: each job once, and each only after all the
/// jobs it needs.
pub open spec fn valid_order(js: Seq<(Seq<char>, JobView)>, ord: Seq<Seq<char>>) -> bool {
    &&& ord.len() == js.len()
    &&& (forall|p: int| 0 <= p < ord.len() ==> contains_name(keys_of(js), #[trigger] ord[p]))
    &&& distinct_names(ord)
    &&& (forall|p: int, d: int| 0 <= p < ord.len() && 0 <= d < needs_of(js, ord[p]).len()
        ==> placed_before(ord, p, dep_at(js, ord[p], d)))
}

/// The job names that the given order has not placed, in declaration order.
pub open spec fn unplaced_keys(
    js: Seq<(Seq<char>, JobView)>,
    done: Seq<Seq<char>>,
    n: int,
) -> Seq<Seq<char>>
    decreases n,
{
    if n <= 0 || n > js.len() {
        Seq::empty()
    } else if contains_name(done, js[n - 1].0) {
        unplaced_keys(js, done, n - 1)
    } else {
        unplaced_keys(js, done, n - 1).push(js[n - 1].0)
    }
}

/// A partial order that could be a prefix of an execution: distinct job
/// names, and each entry's declared predecessors all placed before it.
pub open spec fn closed_prefix(js: Seq<(Seq<char>, JobView)>, done: Seq<Seq<char>>) -> bool {
    &&& distinct_names(done)
    &&& (forall|p: int| 0 <= p < done.len() ==> contains_name(keys_of(js), #[trigger] done[p]))
    &&& (forall|p: int, d: int| 0 <= p < done.len() && 0 <= d < needs_of(js, done[p]).len()
        ==> placed_before(done, p, dep_at(js, done[p], d)))
}

/// A job can be scheduled when some closed prefix places it.
pub open spec fn name_schedulable(js: Seq<(Seq<char>, JobView)>, x: Seq<char>) -> bool {
    exists|done: Seq<Seq<char>>| closed_prefix(js, done) && contains_name(done, x)
}

/// The jobs no order can ever place, in declaration order: each waits,
/// directly or through others, on something unplaceable or missing.
pub open spec fn stuck_keys(js: Seq<(Seq<char>, JobView)>, n: int) -> Seq<Seq<char>>
    decreases n,
{
    if n <= 0 || n > js.len() {
        Seq::empty()
    } else if name_schedulable(js, js[n - 1].0) {
        stuck_keys(js, n - 1)
    } else {
        stuck_keys(js, n - 1).push(js[n - 1].0)
    }
}

/// The first declared predecessor of the walk's current job that is
/// itself stuck.
pub open spec fn first_stuck_need(
    stuck: Seq<Seq<char>>,
    needs: Seq<Seq<char>>,
    d: int,
) -> Option<Seq<char>>
    decreases needs.len() - d,
{
    if d < 0 || d >= needs.len() {
        None
    } else if contains_name(stuck, needs[d]) {
        Some(needs[d])
    } else {
        first_stuck_need(stuck, needs, d + 1)
    }
}

/// Walking stuck-to-stuck along first blocked predecessors until a name
/// repeats or the fuel runs out.
pub open spec fn cycle_walk(
    js: Seq<(Seq<char>, JobView)>,
    stuck: Seq<Seq<char>>,
    path: Seq<Seq<char>>,
    cur: Seq<char>,
    fuel: nat,
) -> Seq<Seq<char>>
    decreases fuel,
{
    if fuel == 0 {
        path
    } else {
        let path2 = path.push(cur);
        match first_stuck_need(stuck, needs_of(js, cur), 0) {
            None => path2,
            Some(nx) => if contains_name(path2, nx) {
                path2.push(nx)
            } else {
                cycle_walk(js, stuck, path2, nx, (fuel - 1) as nat)
            },
        }
    }
}

/// Names joined with arrows, as a cycle is reported.
pub open spec fn join_arrow(names: Seq<Seq<char>>, n: int) -> Seq<char>
    decreases n,
{
    if n <= 0 || n > names.len() {
        Seq::empty()
    } else if n == 1 {
        names[0]
    } else {
        join_arrow(names, n - 1) + " -> "@ + names[n - 1]
    }
}

/// The walk a dependency cycle is reported with, from the first stuck
/// job.
pub open spec fn spec_cycle_walk(js: Seq<(Seq<char>, JobView)>) -> Seq<Seq<char>> {
    let stuck = stuck_keys(js, js.len() as int);
    cycle_walk(js, stuck, Seq::empty(), stuck[0], js.len() as nat)
}

/// The chain a dependency cycle is reported with: the walk from the
/// first stuck job, joined with arrows.
pub open spec fn spec_cycle_chain(js: Seq<(Seq<char>, JobView)>) -> Seq<char> {
    let stuck = stuck_keys(js, js.len() as int);
    if stuck.len() == 0 {
        Seq::empty()
    } else {
        join_arrow(spec_cycle_walk(js), spec_cycle_walk(js).len() as int)
    }
}

/// Every stuck job waits on a stuck job: with all dependencies present,
/// what blocks a stuck job is itself stuck.
pub open spec fn stuck_needs_stuck(js: Seq<(Seq<char>, JobView)>) -> bool {
    forall|x: Seq<char>| contains_name(stuck_keys(js, js.len() as int), x) ==> exists|d: int|
        0 <= d < needs_of(js, x).len() && contains_name(
        stuck_keys(js, js.len() as int),
        needs_of(js, x)[d],
    )
}

proof fn lemma_stuck_len(js: Seq<(Seq<char>, JobView)>, n: int)
    requires
        0 <= n <= js.len(),
    ensures
        stuck_keys(js, n).len() <= n,
    decreases n,
{
    if n > 0 {
        lemma_stuck_len(js, n - 1);
    }
}

proof fn lemma_stuck_membership(js: Seq<(Seq<char>, JobView)>, n: int, x: Seq<char>)
    requires
        0 <= n <= js.len(),
    ensures
        contains_name(stuck_keys(js, n), x) <==> exists|i: int|
            0 <= i < n && (#[trigger] js[i]).0 == x && !name_schedulable(js, x),
    decreases n,
{
    if n > 0 {
        lemma_stuck_membership(js, n - 1, x);
        let stk = stuck_keys(js, n);
        if contains_name(stk, x) {
            let w = choose|w: int| 0 <= w < stk.len() && stk[w] == x;
            if w < stuck_keys(js, n - 1).len() {
                assert(stuck_keys(js, n - 1)[w] == x);
                assert(contains_name(stuck_keys(js, n - 1), x));
            }
        }
        if exists|i: int| 0 <= i < n && (#[trigger] js[i]).0 == x && !name_schedulable(js, x) {
            let i = choose|i: int| 0 <= i < n && (#[trigger] js[i]).0 == x
                && !name_schedulable(js, x);
            if i < n - 1 {
                assert(contains_name(stuck_keys(js, n - 1), x));
                if !name_schedulable(js, js[n - 1].0) {
                    let w = choose|w: int| 0 <= w < stuck_keys(js, n - 1).len()
                        && #[trigger] stuck_keys(js, n - 1)[w] == x;
                    assert(stk[w] == x);
                } else {
                    assert(stk == stuck_keys(js, n - 1));
                }
            } else {
                assert(stk[stk.len() - 1] == x);
            }
        }
    }
}

proof fn lemma_unplaced_membership(
    js: Seq<(Seq<char>, JobView)>,
    done: Seq<Seq<char>>,
    n: int,
    t: int,
)
    requires
        0 <= t < n <= js.len(),
        !contains_name(done, js[t].0),
    ensures
        contains_name(unplaced_keys(js, done, n), js[t].0),
    decreases n,
{
    if t == n - 1 {
        let u = unplaced_keys(js, done, n);
        assert(u[u.len() - 1] == js[t].0);
    } else {
        lemma_unplaced_membership(js, done, n - 1, t);
        let u0 = unplaced_keys(js, done, n - 1);
        let w = choose|w: int| 0 <= w < u0.len() && u0[w] == js[t].0;
        assert(unplaced_keys(js, done, n)[w] == js[t].0);
    }
}

proof fn lemma_fsn_props(stuck: Seq<Seq<char>>, needs: Seq<Seq<char>>, d: int)
    requires
        0 <= d,
    ensures
        first_stuck_need(stuck, needs, d) matches Some(nx) ==> contains_name(stuck, nx),
        (exists|j: int| d <= j < needs.len() && contains_name(stuck, #[trigger] needs[j]))
            ==> first_stuck_need(stuck, needs, d) is Some,
    decreases needs.len() - d,
{
    if d < needs.len() && !contains_name(stuck, needs[d]) {
        lemma_fsn_props(stuck, needs, d + 1);
    }
}

/// A list that closes on itself: its last name already stands earlier
/// in it.
pub open spec fn repeats_last(w: Seq<Seq<char>>) -> bool {
    w.len() >= 2 && exists|i: int| 0 <= i < w.len() - 1 && #[trigger] w[i] == w[w.len() - 1]
}

/// A walk that starts stuck, over a stuck set whose members all wait on
/// stuck members, always closes: it ends by repeating a name it already
/// holds.
proof fn lemma_walk_closes(
    js: Seq<(Seq<char>, JobView)>,
    stuck: Seq<Seq<char>>,
    path: Seq<Seq<char>>,
    cur: Seq<char>,
    fuel: nat,
)
    requires
        stuck == stuck_keys(js, js.len() as int),
        stuck_needs_stuck(js),
        distinct_names(path),
        forall|p: int| 0 <= p < path.len() ==> contains_name(stuck, #[trigger] path[p]),
        contains_name(stuck, cur),
        !contains_name(path, cur),
        fuel >= stuck.len() - path.len(),
    ensures
        cycle_walk(js, stuck, path, cur, fuel).len() >= path.len() + 2,
        repeats_last(cycle_walk(js, stuck, path, cur, fuel)),
    decreases fuel,
{
    if fuel == 0 {
        // impossible: the path would hold more distinct stuck names than
        // the stuck set has
        let ext = path.push(cur);
        assert(distinct_names(ext));
        assert(forall|p: int| 0 <= p < ext.len() ==> contains_name(stuck, #[trigger] ext[p]));
        lemma_subset_len(ext, stuck);
        assert(false);
    } else {
        let path2 = path.push(cur);
        let nv = needs_of(js, cur);
        assert(exists|d: int| 0 <= d < nv.len() && contains_name(stuck, #[trigger] nv[d]));
        lemma_fsn_props(stuck, nv, 0);
        let nx = first_stuck_need(stuck, nv, 0)->0;
        assert(contains_name(stuck, nx));
        let w = cycle_walk(js, stuck, path, cur, fuel);
        if contains_name(path2, nx) {
            assert(w == path2.push(nx));
            let i = choose|i: int| 0 <= i < path2.len() && path2[i] == nx;
            assert(w[i] == nx);
            assert(w[w.len() - 1] == nx);
        } else {
            assert(distinct_names(path2)) by {
                assert(forall|p: int, q: int| 0 <= p < q < path2.len() && q < path.len()
                    ==> path2[p] == path[p] && path2[q] == path[q]);
            }
            lemma_walk_closes(js, stuck, path2, nx, (fuel - 1) as nat);
            assert(w == cycle_walk(js, stuck, path2, nx, (fuel - 1) as nat));
        }
    }
}

/// Where a name first stands in a list; the list's length when it is absent.
pub open spec fn pos_in(ord: Seq<Seq<char>>, x: Seq<char>) -> int
    decreases ord.len(),
{
    if ord.len() == 0 {
        0
    } else if ord[0] == x {
        0
    } else {
        1 + pos_in(ord.drop_first(), x)
    }
}

proof fn lemma_pos_in(ord: Seq<Seq<char>>, x: Seq<char>)
    ensures
        contains_name(ord, x) ==> 0 <= pos_in(ord, x) < ord.len() && ord[pos_in(ord, x)] == x,
        !contains_name(ord, x) ==> pos_in(ord, x) == ord.len(),
        forall|k: int| 0 <= k < ord.len() && ord[k] == x ==> pos_in(ord, x) <= k,
    decreases ord.len(),
{
    if ord.len() > 0 && ord[0] != x {
        let t = ord.drop_first();
        lemma_pos_in(t, x);
        assert(forall|k: int| 0 <= k < t.len() ==> t[k] == ord[k + 1]);
        if contains_name(ord, x) {
            let w = choose|w: int| 0 <= w < ord.len() && ord[w] == x;
            assert(t[w - 1] == x);
        }
        if contains_name(t, x) {
            let w = choose|w: int| 0 <= w < t.len() && t[w] == x;
            assert(ord[w + 1] == x);
        }
        assert forall|k: int| 0 <= k < ord.len() && ord[k] == x implies pos_in(ord, x) <= k by {
            assert(t[k - 1] == x);
        }
    }
}

/// A list of distinct names, all found in another list, is no longer than it.
proof fn lemma_subset_len(sub: Seq<Seq<char>>, sup: Seq<Seq<char>>)
    requires
        distinct_names(sub),
        forall|p: int| 0 <= p < sub.len() ==> contains_name(sup, #[trigger] sub[p]),
    ensures
        sup.len() >= sub.len(),
    decreases sub.len(),
{
    if sub.len() > 0 {
        let lastx = sub.last();
        assert(contains_name(sup, lastx));
        let p = choose|p: int| 0 <= p < sup.len() && sup[p] == lastx;
        let sup2 = sup.remove(p);
        sup.remove_ensures(p);
        let sub2 = sub.drop_last();
        assert(distinct_names(sub2)) by {
            assert(forall|i: int, j: int| 0 <= i < j < sub2.len()
                ==> sub2[i] == sub[i] && sub2[j] == sub[j]);
        }
        assert forall|q: int| 0 <= q < sub2.len() implies contains_name(
            sup2,
            #[trigger] sub2[q],
        ) by {
            assert(sub2[q] == sub[q]);
            assert(contains_name(sup, sub[q]));
            let w = choose|w: int| 0 <= w < sup.len() && sup[w] == sub[q];
            assert(sub[q] != lastx);
            assert(w != p);
            if w < p {
                assert(sup2[w] == sup[w]);
            } else {
                assert(sup2[w - 1] == sup[w]);
            }
        }
        lemma_subset_len(sub2, sup2);
    }
}

/// Among the jobs that the partial order has not placed, one stands
/// earliest in the complete order.
proof fn lemma_argmin(
    js: Seq<(Seq<char>, JobView)>,
    done: Seq<Seq<char>>,
    ord: Seq<Seq<char>>,
    lo: int,
) -> (jm: int)
    requires
        0 <= lo < js.len(),
        exists|i: int| lo <= i < js.len() && !contains_name(done, (#[trigger] js[i]).0),
    ensures
        lo <= jm < js.len(),
        !contains_name(done, js[jm].0),
        forall|t: int| lo <= t < js.len() && !contains_name(done, (#[trigger] js[t]).0)
            ==> pos_in(ord, js[jm].0) <= pos_in(ord, js[t].0),
    decreases js.len() - lo,
{
    if lo == js.len() - 1 {
        lo
    } else if exists|i: int| lo + 1 <= i < js.len() && !contains_name(done, (#[trigger] js[i]).0) {
        let m = lemma_argmin(js, done, ord, lo + 1);
        if !contains_name(done, js[lo].0) && pos_in(ord, js[lo].0) <= pos_in(ord, js[m].0) {
            lo
        } else {
            m
        }
    } else {
        let w = choose|i: int| lo <= i < js.len() && !contains_name(done, (#[trigger] js[i]).0);
        assert(w == lo);
        lo
    }
}

/// In any correct order of the whole set, every job name appears.
proof fn lemma_all_keys_in_order(js: Seq<(Seq<char>, JobView)>, ord: Seq<Seq<char>>, i: int)
    requires
        keys_unique(js),
        valid_order(js, ord),
        0 <= i < js.len(),
    ensures
        contains_name(ord, js[i].0),
{
    if !contains_name(ord, js[i].0) {
        let keys2 = keys_of(js).remove(i);
        keys_of(js).remove_ensures(i);
        assert forall|p: int| 0 <= p < ord.len() implies contains_name(
            keys2,
            #[trigger] ord[p],
        ) by {
            assert(contains_name(keys_of(js), ord[p]));
            let w = choose|w: int| 0 <= w < keys_of(js).len() && keys_of(js)[w] == ord[p];
            assert(ord[p] != js[i].0);
            assert(w != i);
            if w < i {
                assert(keys2[w] == keys_of(js)[w]);
            } else {
                assert(keys2[w - 1] == keys_of(js)[w]);
            }
        }
        lemma_subset_len(ord, keys2);
        assert(false);
    }
}

/// When every job still unplaced waits on something unplaced, no complete
/// correct order exists at all.
proof fn lemma_stuck_no_order(js: Seq<(Seq<char>, JobView)>, done: Seq<Seq<char>>)
    requires
        keys_unique(js),
        distinct_names(done),
        forall|p: int| 0 <= p < done.len() ==> contains_name(keys_of(js), #[trigger] done[p]),
        done.len() < js.len(),
        forall|i: int| 0 <= i < js.len() && !contains_name(done, (#[trigger] js[i]).0)
            ==> exists|d: int| 0 <= d < js[i].1.needs.len() && !contains_name(
                done,
                js[i].1.needs[d],
            ),
    ensures
        forall|ord: Seq<Seq<char>>| !valid_order(js, ord),
{
    assert forall|ord: Seq<Seq<char>>| !valid_order(js, ord) by {
        if valid_order(js, ord) {
            // some job is unplaced, else `done` would hold all the distinct keys
            assert(exists|i: int| 0 <= i < js.len() && !contains_name(
                done,
                (#[trigger] js[i]).0,
            )) by {
                if forall|i: int| 0 <= i < js.len() ==> contains_name(done, (#[trigger] js[i]).0) {
                    assert(distinct_names(keys_of(js))) by {
                        assert(forall|p: int, q: int| 0 <= p < q < js.len()
                            ==> keys_of(js)[p] == js[p].0 && keys_of(js)[q] == js[q].0);
                    }
                    assert(forall|p: int| 0 <= p < keys_of(js).len() ==> contains_name(
                        done,
                        #[trigger] keys_of(js)[p],
                    ));
                    lemma_subset_len(keys_of(js), done);
                    assert(false);
                }
            }
            let jm = lemma_argmin(js, done, ord, 0);
            let name = js[jm].0;
            lemma_all_keys_in_order(js, ord, jm);
            lemma_pos_in(ord, name);
            let p = pos_in(ord, name);
            assert(ord[p] == name);
            lemma_assoc_unique(js, jm);
            assert(needs_of(js, name) == js[jm].1.needs);
            let d = choose|d: int| 0 <= d < js[jm].1.needs.len() && !contains_name(
                done,
                js[jm].1.needs[d],
            );
            let dep = js[jm].1.needs[d];
            assert(placed_before(ord, p, dep_at(js, ord[p], d)));
            let k = choose|k: int| 0 <= k < p && ord[k] == dep_at(js, ord[p], d);
            assert(ord[k] == dep);
            assert(contains_name(keys_of(js), ord[k]));
            let w = choose|w: int| 0 <= w < keys_of(js).len() && keys_of(js)[w] == dep;
            assert(js[w].0 == dep);
            assert(!contains_name(done, js[w].0));
            assert(pos_in(ord, name) <= pos_in(ord, dep));
            lemma_pos_in(ord, dep);
            assert(pos_in(ord, dep) <= k);
            assert(false);
        }
    }
}

/// A job the partial order did not place, when every unplaced job waits
/// on something unplaced, can never be placed by any closed prefix.
proof fn lemma_unplaced_unschedulable(js: Seq<(Seq<char>, JobView)>, done: Seq<Seq<char>>)
    requires
        keys_unique(js),
        forall|i: int| 0 <= i < js.len() && !contains_name(done, (#[trigger] js[i]).0)
            ==> exists|d: int| 0 <= d < js[i].1.needs.len() && !contains_name(
            done,
            js[i].1.needs[d],
        ),
    ensures
        forall|i: int| 0 <= i < js.len() && !contains_name(done, (#[trigger] js[i]).0)
            ==> !name_schedulable(js, js[i].0),
{
    assert forall|i: int| 0 <= i < js.len() && !contains_name(done, (#[trigger] js[i]).0)
        implies !name_schedulable(js, js[i].0) by {
        if name_schedulable(js, js[i].0) {
            let ord = choose|ord: Seq<Seq<char>>| closed_prefix(js, ord) && contains_name(
                ord,
                js[i].0,
            );
            let jm = lemma_argmin(js, done, ord, 0);
            let name = js[jm].0;
            lemma_pos_in(ord, js[i].0);
            lemma_pos_in(ord, name);
            let p = pos_in(ord, name);
            assert(pos_in(ord, name) <= pos_in(ord, js[i].0));
            assert(p < ord.len());
            assert(ord[p] == name);
            lemma_assoc_unique(js, jm);
            assert(needs_of(js, name) == js[jm].1.needs);
            let d = choose|d: int| 0 <= d < js[jm].1.needs.len() && !contains_name(
                done,
                js[jm].1.needs[d],
            );
            let dep = js[jm].1.needs[d];
            assert(placed_before(ord, p, dep_at(js, ord[p], d)));
            let k = choose|k: int| 0 <= k < p && ord[k] == dep_at(js, ord[p], d);
            assert(ord[k] == dep);
            assert(contains_name(keys_of(js), ord[k]));
            let w = choose|w: int| 0 <= w < keys_of(js).len() && keys_of(js)[w] == dep;
            assert(js[w].0 == dep);
            assert(!contains_name(done, js[w].0));
            assert(pos_in(ord, name) <= pos_in(ord, dep));
            lemma_pos_in(ord, dep);
            assert(pos_in(ord, dep) <= k);
            assert(false);
        }
    }
}

/// When placement and schedulability agree job by job, what is left over
/// is exactly the stuck set.
proof fn lemma_leftover_is_stuck(js: Seq<(Seq<char>, JobView)>, done: Seq<Seq<char>>, n: int)
    requires
        0 <= n <= js.len(),
        forall|i: int| 0 <= i < js.len() ==> (contains_name(done, (#[trigger] js[i]).0)
            <==> name_schedulable(js, js[i].0)),
    ensures
        unplaced_keys(js, done, n) == stuck_keys(js, n),
    decreases n,
{
    if n > 0 {
        lemma_leftover_is_stuck(js, done, n - 1);
    }
}

/// Is the name one of the strings in the list?
fn name_in(list: &Vec<String>, name: &String) -> (r: bool)
    ensures
        r == contains_name(list.deep_view(), name@),
{
    let n = list.len();
    let mut i: usize = 0;
    while i < n
        invariant
            0 <= i <= n,
            n == list@.len(),
            forall|j: int| 0 <= j < i ==> list.deep_view()[j] != name@,
        decreases n - i,
    {
        if list[i].eq(name) {
            proof {
                assert(list.deep_view()[i as int] == name@);
            }
            return true;
        }
        i = i + 1;
    }
    false
}

/// Are all the job's declared predecessors already placed?
fn job_ready(job: &Job, order: &Vec<String>) -> (r: bool)
    ensures
        r == (forall|d: int| 0 <= d < job@.needs.len() ==> contains_name(
            order.deep_view(),
            #[trigger] job@.needs[d],
        )),
{
    let needs = job.needs.as_vec();
    let n = needs.len();
    let mut d: usize = 0;
    while d < n
        invariant
            0 <= d <= n,
            n == needs@.len(),
            needs.deep_view() == job@.needs,
            forall|j: int| 0 <= j < d ==> contains_name(order.deep_view(), #[trigger] job@.needs[j]),
        decreases n - d,
    {
        if !name_in(order, &needs[d]) {
            proof {
                assert(job@.needs[d as int] == needs.deep_view()[d as int]);
            }
            return false;
        }
        proof {
            assert(job@.needs[d as int] == needs.deep_view()[d as int]);
        }
        d = d + 1;
    }
    true
}

/// What the scheduler worked out: the jobs it could place, in execution
/// order, and the jobs it could not.
pub struct SchedulePlan {
    pub order: Vec<String>,
    pub leftover: Vec<String>,
}

/// Place the jobs one by one, each as soon as everything it needs is
/// placed, scanning in declaration order; what is left cannot be scheduled.
pub fn schedulable_order(jobs: &Dict<Job>) -> (r: SchedulePlan)
    requires
        jobs.wf(),
    ensures
        r.leftover.deep_view() == unplaced_keys(jobs@, r.order.deep_view(), jobs@.len() as int),
        r.leftover.deep_view() == stuck_keys(jobs@, jobs@.len() as int),
        r.leftover.deep_view().len() == 0 ==> valid_order(jobs@, r.order.deep_view()),
        r.leftover.deep_view().len() > 0 ==> forall|ord: Seq<Seq<char>>| !valid_order(jobs@, ord),
        all_deps_exist(jobs@) ==> stuck_needs_stuck(jobs@),
{
    let ghost js = jobs@;
    let n = jobs.len();
    let mut order: Vec<String> = Vec::new();
    let mut stuck = false;
    proof {
        assert(order.deep_view() =~= Seq::<Seq<char>>::empty());
    }
    while order.len() < n && !stuck
        invariant
            js == jobs@,
            jobs.wf(),
            n == js.len(),
            order.deep_view().len() <= n,
            forall|p: int| 0 <= p < order.deep_view().len() ==> contains_name(
                keys_of(js),
                #[trigger] order.deep_view()[p],
            ),
            distinct_names(order.deep_view()),
            forall|p: int, d: int| 0 <= p < order.deep_view().len() && 0 <= d < needs_of(
                js,
                order.deep_view()[p],
            ).len() ==> placed_before(order.deep_view(), p, dep_at(js, order.deep_view()[p], d)),
            stuck ==> forall|i: int| 0 <= i < n ==> contains_name(
                order.deep_view(),
                (#[trigger] js[i]).0,
            ) || exists|d: int| 0 <= d < js[i].1.needs.len() && !contains_name(
                order.deep_view(),
                js[i].1.needs[d],
            ),
        decreases n - order.len() + (if stuck { 0int } else { 1int }),
    {
        let ghost odv = order.deep_view();
        let mut pick: usize = n;
        let mut i: usize = 0;
        while i < n && pick == n
            invariant
                js == jobs@,
                jobs.wf(),
                n == js.len(),
                0 <= i <= n,
                pick <= n,
                odv == order.deep_view(),
                pick == n ==> forall|t: int| 0 <= t < i ==> contains_name(
                    odv,
                    (#[trigger] js[t]).0,
                ) || exists|d: int| 0 <= d < js[t].1.needs.len() && !contains_name(
                    odv,
                    js[t].1.needs[d],
                ),
                pick < n ==> !contains_name(odv, js[pick as int].0) && (forall|d: int|
                    0 <= d < js[pick as int].1.needs.len() ==> contains_name(
                        odv,
                        #[trigger] js[pick as int].1.needs[d],
                    )),
            decreases n - i, (if pick == n { 1int } else { 0int }),
        {
            let key_i = jobs.key_at(i);
            let in_order = name_in(&order, key_i);
            let mut ready = false;
            if !in_order {
                ready = job_ready(jobs.val_at(i), &order);
            }
            if !in_order && ready {
                pick = i;
            } else {
                proof {
                    if in_order {
                        assert(contains_name(odv, js[i as int].0));
                    } else {
                        assert(exists|d: int| 0 <= d < js[i as int].1.needs.len()
                            && !contains_name(odv, js[i as int].1.needs[d]));
                    }
                }
                i = i + 1;
            }
        }
        if pick < n {
            let ghost before = order.deep_view();
            let key_p = jobs.key_at(pick);
            order.push(key_p.clone());
            proof {
                assert(order.deep_view() =~= before.push(js[pick as int].0));
                lemma_assoc_unique(js, pick as int);
                assert(needs_of(js, js[pick as int].0) == js[pick as int].1.needs);
                assert(contains_name(keys_of(js), js[pick as int].0)) by {
                    assert(keys_of(js)[pick as int] == js[pick as int].0);
                }
                let after = order.deep_view();
                assert forall|p: int, d: int| 0 <= p < after.len() && 0 <= d < needs_of(
                    js,
                    after[p],
                ).len() implies placed_before(after, p, dep_at(js, after[p], d)) by {
                    if p < before.len() {
                        assert(after[p] == before[p]);
                        assert(placed_before(before, p, dep_at(js, before[p], d)));
                        let k = choose|k: int| 0 <= k < p && before[k] == dep_at(
                            js,
                            before[p],
                            d,
                        );
                        assert(after[k] == before[k]);
                    } else {
                        assert(after[p] == js[pick as int].0);
                        assert(needs_of(js, after[p]) == js[pick as int].1.needs);
                        let dep = dep_at(js, after[p], d);
                        assert(js[pick as int].1.needs[d] == dep);
                        assert(contains_name(before, dep));
                        let k = choose|k: int| 0 <= k < before.len() && before[k] == dep;
                        assert(after[k] == dep);
                    }
                }
            }
        } else {
            stuck = true;
        }
    }

    let mut leftover: Vec<String> = Vec::new();
    let mut i: usize = 0;
    proof {
        assert(leftover.deep_view() =~= unplaced_keys(js, order.deep_view(), 0));
    }
    while i < n
        invariant
            js == jobs@,
            n == js.len(),
            0 <= i <= n,
            leftover.deep_view() == unplaced_keys(js, order.deep_view(), i as int),
        decreases n - i,
    {
        let key_i = jobs.key_at(i);
        if !name_in(&order, key_i) {
            leftover.push(key_i.clone());
            proof {
                assert(leftover.deep_view() =~= unplaced_keys(js, order.deep_view(), i + 1));
            }
        } else {
            proof {
                assert(leftover.deep_view() =~= unplaced_keys(js, order.deep_view(), i + 1));
            }
        }
        i = i + 1;
    }
    proof {
        let odv = order.deep_view();
        lemma_unplaced_keys_all(js, odv, n as int);
        assert(closed_prefix(js, odv));
        assert forall|t: int| 0 <= t < n && contains_name(odv, (#[trigger] js[t]).0)
            implies name_schedulable(js, js[t].0) by {
            assert(closed_prefix(js, odv) && contains_name(odv, js[t].0));
        }
        if leftover.deep_view().len() == 0 {
            // every key placed: the order is complete and correct
            assert(forall|t: int| 0 <= t < n ==> contains_name(odv, (#[trigger] js[t]).0));
            assert(distinct_names(keys_of(js))) by {
                assert(forall|p: int, q: int| 0 <= p < q < js.len()
                    ==> keys_of(js)[p] == js[p].0 && keys_of(js)[q] == js[q].0);
            }
            assert(forall|p: int| 0 <= p < keys_of(js).len() ==> contains_name(
                odv,
                #[trigger] keys_of(js)[p],
            )) by {
                assert(forall|p: int| 0 <= p < js.len() ==> keys_of(js)[p] == js[p].0);
            }
            lemma_subset_len(keys_of(js), odv);
            lemma_subset_len(odv, keys_of(js));
            assert(odv.len() == js.len());
            lemma_leftover_is_stuck(js, odv, n as int);
        } else {
            // some key is unplaced, so the placing loop stopped short
            let u = choose|t: int| 0 <= t < n && !contains_name(odv, (#[trigger] js[t]).0);
            if odv.len() >= n {
                let keys2 = keys_of(js).remove(u);
                keys_of(js).remove_ensures(u);
                assert forall|p: int| 0 <= p < odv.len() implies contains_name(
                    keys2,
                    #[trigger] odv[p],
                ) by {
                    assert(contains_name(keys_of(js), odv[p]));
                    let w = choose|w: int| 0 <= w < keys_of(js).len() && keys_of(js)[w]
                        == odv[p];
                    assert(js[w].0 == odv[p]);
                    assert(odv[p] != js[u].0);
                    assert(w != u);
                    if w < u {
                        assert(keys2[w] == keys_of(js)[w]);
                    } else {
                        assert(keys2[w - 1] == keys_of(js)[w]);
                    }
                }
                lemma_subset_len(odv, keys2);
                assert(false);
            }
            assert(stuck);
            lemma_stuck_no_order(js, odv);
            lemma_unplaced_unschedulable(js, odv);
            lemma_leftover_is_stuck(js, odv, n as int);
            if all_deps_exist(js) {
                let stk = stuck_keys(js, js.len() as int);
                assert forall|x: Seq<char>| contains_name(stk, x) implies exists|d: int|
                    0 <= d < needs_of(js, x).len() && contains_name(
                    stk,
                    needs_of(js, x)[d],
                ) by {
                    lemma_stuck_membership(js, n as int, x);
                    let i = choose|i: int| 0 <= i < n && (#[trigger] js[i]).0 == x
                        && !name_schedulable(js, x);
                    assert(!contains_name(odv, js[i as int].0));
                    let d = choose|d: int| 0 <= d < js[i as int].1.needs.len()
                        && !contains_name(odv, js[i as int].1.needs[d]);
                    let dep = js[i as int].1.needs[d];
                    assert(contains_name(keys_of(js), dep));
                    let t = choose|t: int| 0 <= t < keys_of(js).len() && keys_of(js)[t] == dep;
                    assert(js[t].0 == dep);
                    lemma_unplaced_membership(js, odv, n as int, t);
                    assert(contains_name(unplaced_keys(js, odv, n as int), dep));
                    lemma_assoc_unique(js, i);
                    assert(needs_of(js, x) == js[i as int].1.needs);
                    assert(needs_of(js, x)[d] == dep);
                }
            }
        }
    }
    SchedulePlan { order, leftover }
}

/// A name is left over exactly when it is a job name that the order has
/// not placed.
proof fn lemma_unplaced_keys_all(js: Seq<(Seq<char>, JobView)>, done: Seq<Seq<char>>, n: int)
    requires
        0 <= n <= js.len(),
    ensures
        unplaced_keys(js, done, n).len() == 0 <==> (forall|t: int| 0 <= t < n ==> contains_name(
            done,
            (#[trigger] js[t]).0,
        )),
    decreases n,
{
    if n > 0 {
        lemma_unplaced_keys_all(js, done, n - 1);
    }
}

/// A job whose declared predecessor names no existing job can never be
/// scheduled, so no correct order exists.
proof fn lemma_missing_dep_no_order(js: Seq<(Seq<char>, JobView)>, i: int, d: int)
    requires
        keys_unique(js),
        0 <= i < js.len(),
        0 <= d < js[i].1.needs.len(),
        !contains_name(keys_of(js), js[i].1.needs[d]),
    ensures
        forall|ord: Seq<Seq<char>>| !valid_order(js, ord),
{
    assert forall|ord: Seq<Seq<char>>| !valid_order(js, ord) by {
        if valid_order(js, ord) {
            lemma_all_keys_in_order(js, ord, i);
            lemma_pos_in(ord, js[i].0);
            let p = pos_in(ord, js[i].0);
            assert(ord[p] == js[i].0);
            lemma_assoc_unique(js, i);
            assert(needs_of(js, ord[p]) == js[i].1.needs);
            assert(placed_before(ord, p, dep_at(js, ord[p], d)));
            let k = choose|k: int| 0 <= k < p && ord[k] == dep_at(js, ord[p], d);
            assert(contains_name(keys_of(js), ord[k]));
            assert(false);
        }
    }
}

/// Order the jobs so that every job follows everything it needs; report a
/// missing dependency or a dependency cycle instead.
pub fn toposort_jobs(jobs: &Dict<Job>) -> (r: Result<Vec<String>, Error>)
    requires
        jobs.wf(),
    ensures
        r matches Ok(order) ==> valid_order(jobs@, order.deep_view()),
        r matches Err(e) ==> match e@ {
            ErrorView::JobDependencyNotFound { job, dependency } => contains_name(
                keys_of(jobs@),
                job,
            ) && contains_name(needs_of(jobs@, job), dependency) && !contains_name(
                keys_of(jobs@),
                dependency,
            ),
            ErrorView::CircularDependency { chain } => all_deps_exist(jobs@)
                && (forall|ord: Seq<Seq<char>>| !valid_order(jobs@, ord))
                && chain == spec_cycle_chain(jobs@) && repeats_last(spec_cycle_walk(jobs@)),
            _ => false,
        },
        (r is Err) ==> (forall|ord: Seq<Seq<char>>| !valid_order(jobs@, ord)),
{
    let ghost js = jobs@;
    let n = jobs.len();
    let mut i: usize = 0;
    while i < n
        invariant
            js == jobs@,
            jobs.wf(),
            n == js.len(),
            0 <= i <= n,
            forall|t: int, d: int| 0 <= t < i && 0 <= d < js[t].1.needs.len()
                ==> contains_name(keys_of(js), #[trigger] js[t].1.needs[d]),
        decreases n - i,
    {
        let job = jobs.val_at(i);
        let needs = job.needs.as_vec();
        let nd = needs.len();
        let mut d: usize = 0;
        while d < nd
            invariant
                js == jobs@,
                jobs.wf(),
                n == js.len(),
                0 <= i < n,
                nd == needs@.len(),
                needs.deep_view() == js[i as int].1.needs,
                0 <= d <= nd,
                forall|t: int| 0 <= t < d ==> contains_name(
                    keys_of(js),
                    #[trigger] needs.deep_view()[t],
                ),
            decreases nd - d,
        {
            let mut present = false;
            let nn = jobs.len();
            let mut t: usize = 0;
            while t < nn && !present
                invariant
                    js == jobs@,
                    nn == js.len(),
                    0 <= t <= nn,
                    present ==> contains_name(keys_of(js), needs.deep_view()[d as int]),
                    !present ==> forall|q: int| 0 <= q < t ==> keys_of(js)[q]
                        != needs.deep_view()[d as int],
                    0 <= d < nd,
                    nd == needs@.len(),
                    needs.deep_view() == js[i as int].1.needs,
                decreases nn - t, (if present { 0int } else { 1int }),
            {
                if jobs.key_at(t).eq(&needs[d]) {
                    present = true;
                    proof {
                        assert(keys_of(js)[t as int] == needs.deep_view()[d as int]);
                    }
                } else {
                    proof {
                        assert(keys_of(js)[t as int] != needs.deep_view()[d as int]);
                    }
                    t = t + 1;
                }
            }
            if !present {
                let e = Error::JobDependencyNotFound {
                    job: jobs.key_at(i).clone(),
                    dependency: needs[d].clone(),
                };
                proof {
                    lemma_assoc_unique(js, i as int);
                    assert(needs_of(js, js[i as int].0) == js[i as int].1.needs);
                    assert(contains_name(keys_of(js), js[i as int].0)) by {
                        assert(keys_of(js)[i as int] == js[i as int].0);
                    }
                    assert(contains_name(needs_of(js, js[i as int].0),
                        needs.deep_view()[d as int])) by {
                        assert(needs_of(js, js[i as int].0)[d as int]
                            == needs.deep_view()[d as int]);
                    }
                    assert(!contains_name(keys_of(js), needs.deep_view()[d as int]));
                    assert(js[i as int].1.needs[d as int] == needs.deep_view()[d as int]);
                    lemma_missing_dep_no_order(js, i as int, d as int);
                }
                return Err(e);
            }
            d = d + 1;
        }
        i = i + 1;
    }
    proof {
        assert(all_deps_exist(js));
    }
    let plan = schedulable_order(jobs);
    if plan.leftover.len() == 0 {
        proof {
            assert(plan.leftover.deep_view().len() == 0);
        }
        Ok(plan.order)
    } else {
        // walk unmet needs from a leftover job to show one cycle
        let chain = build_cycle_chain(jobs, &plan.leftover);
        proof {
            assert(plan.leftover.deep_view().len() > 0);
            let stk = stuck_keys(js, js.len() as int);
            lemma_stuck_len(js, js.len() as int);
            assert(contains_name(stk, stk[0])) by {
                let w0: int = 0;
                assert(0 <= w0 < stk.len() && stk[w0] == stk[0]);
            }
            assert(distinct_names(Seq::<Seq<char>>::empty()));
            lemma_walk_closes(js, stk, Seq::<Seq<char>>::empty(), stk[0], js.len() as nat);
        }
        Err(Error::CircularDependency { chain })
    }
}

/// Follow unmet needs from an unplaced job until a name repeats, and write
/// the walk as `a -> b -> ... -> a`.
proof fn lemma_stuck_are_keys(js: Seq<(Seq<char>, JobView)>, n: int)
    requires
        0 <= n <= js.len(),
    ensures
        forall|x: Seq<char>| contains_name(stuck_keys(js, n), x) ==> has_pair_key(js, x),
    decreases n,
{
    if n > 0 {
        lemma_stuck_are_keys(js, n - 1);
        assert forall|x: Seq<char>| contains_name(stuck_keys(js, n), x) implies has_pair_key(
            js,
            x,
        ) by {
            let stk = stuck_keys(js, n);
            let w = choose|w: int| 0 <= w < stk.len() && stk[w] == x;
            if w < stuck_keys(js, n - 1).len() {
                assert(stuck_keys(js, n - 1)[w] == x);
                assert(contains_name(stuck_keys(js, n - 1), x));
            } else {
                assert(x == js[n - 1].0);
            }
        }
    }
}

/// Walk unmet needs from the first stuck job until a name repeats, and
/// write the walk as `a -> b -> ... -> a`.
fn build_cycle_chain(jobs: &Dict<Job>, leftover: &Vec<String>) -> (r: String)
    requires
        jobs.wf(),
        leftover.deep_view() == stuck_keys(jobs@, jobs@.len() as int),
        leftover@.len() > 0,
    ensures
        r@ == spec_cycle_chain(jobs@),
{
    let ghost js = jobs@;
    let ghost stuck = stuck_keys(js, js.len() as int);
    proof {
        lemma_stuck_are_keys(js, js.len() as int);
    }
    let mut path: Vec<String> = Vec::new();
    let mut current: String = leftover[0].clone();
    proof {
        assert(leftover.deep_view()[0] == leftover@[0]@);
        assert(contains_name(stuck, current@));
        assert(path.deep_view() =~= Seq::<Seq<char>>::empty());
    }
    let n = jobs.len();
    let mut remaining: usize = n;
    let ghost target = cycle_walk(js, stuck, Seq::<Seq<char>>::empty(), stuck[0], n as nat);
    let mut finished = false;
    while !finished && remaining > 0
        invariant
            js == jobs@,
            jobs.wf(),
            n == js.len(),
            remaining <= n,
            stuck == stuck_keys(js, js.len() as int),
            leftover.deep_view() == stuck,
            forall|x: Seq<char>| contains_name(stuck, x) ==> has_pair_key(js, x),
            target == cycle_walk(js, stuck, Seq::<Seq<char>>::empty(), stuck[0], n as nat),
            !finished ==> contains_name(stuck, current@) && target == cycle_walk(js, stuck,
                path.deep_view(), current@, remaining as nat),
            finished ==> target == path.deep_view(),
        decreases remaining, (if finished { 0int } else { 1int }),
    {
        let ghost path0 = path.deep_view();
        path.push(current.clone());
        proof {
            assert(path.deep_view() =~= path0.push(current@));
        }
        let mut next: Option<String> = None;
        match jobs.get(&current) {
            Some(job) => {
                let needs = job.needs.as_vec();
                let ghost nv = needs_of(js, current@);
                proof {
                    assert(assoc(js, current@) == Some(job.deep_view()));
                    assert(needs.deep_view() == nv);
                }
                let nd = needs.len();
                let mut d: usize = 0;
                let mut found = false;
                while d < nd && !found
                    invariant
                        0 <= d <= nd,
                        nd == needs@.len(),
                        needs.deep_view() == nv,
                        leftover.deep_view() == stuck,
                        !found ==> (next is None && first_stuck_need(stuck, nv, 0)
                            == first_stuck_need(stuck, nv, d as int)),
                        found ==> (next matches Some(nx) && first_stuck_need(stuck, nv, 0)
                            == Some(nx@) && contains_name(stuck, nx@)),
                    decreases nd - d, (if found { 0int } else { 1int }),
                {
                    proof {
                        assert(needs.deep_view()[d as int] == needs@[d as int]@);
                    }
                    if name_in(leftover, &needs[d]) {
                        next = Some(needs[d].clone());
                        proof {
                            assert(first_stuck_need(stuck, nv, d as int) == Some(nv[d as int]));
                        }
                        found = true;
                    } else {
                        d = d + 1;
                    }
                }
                proof {
                    if !found {
                        assert(first_stuck_need(stuck, nv, 0) is None);
                    }
                }
            }
            None => {
                proof {
                    assert(has_pair_key(js, current@));
                    crate::value::lemma_assoc_some(js, current@);
                    assert(false);
                }
            }
        }
        match next {
            Some(name) => {
                if name_in(&path, &name) {
                    let ghost nx = name@;
                    proof {
                        assert(cycle_walk(js, stuck, path0, current@, remaining as nat)
                            == path0.push(current@).push(nx));
                    }
                    path.push(name);
                    proof {
                        assert(path.deep_view() =~= path0.push(current@).push(nx));
                    }
                    finished = true;
                } else {
                    proof {
                        assert(!contains_name(path.deep_view(), name@));
                        assert(cycle_walk(js, stuck, path0, current@, remaining as nat)
                            == cycle_walk(js, stuck, path0.push(current@), name@, (remaining
                            - 1) as nat));
                    }
                    current = name;
                    remaining = remaining - 1;
                }
            }
            None => {
                proof {
                    assert(cycle_walk(js, stuck, path0, current@, remaining as nat)
                        == path0.push(current@));
                }
                finished = true;
            }
        }
    }
    proof {
        assert(target == path.deep_view());
    }
    let ghost walk = path.deep_view();
    let mut out: Vec<char> = Vec::new();
    let m = path.len();
    let mut p: usize = 0;
    while p < m
        invariant
            m == path@.len(),
            walk == path.deep_view(),
            walk.len() == m,
            0 <= p <= m,
            out@ == join_arrow(walk, p as int),
        decreases m - p,
    {
        if p > 0 {
            push_str_chars(" -> ", &mut out);
        }
        push_str_chars(path[p].as_str(), &mut out);
        proof {
            assert(path.deep_view()[p as int] == path@[p as int]@);
            assert(out@ =~= join_arrow(walk, p + 1));
        }
        p = p + 1;
    }
    proof {
        assert(stuck.len() > 0);
        assert(out@ == spec_cycle_chain(js));
    }
    chars_to_string(&out)
}

} // verus!
