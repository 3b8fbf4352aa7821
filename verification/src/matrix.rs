use vstd::prelude::*;

use crate::dict::Dict;
use crate::model::{Matrix, MatrixView, Strategy};
use crate::outputs::dup_value_dict;
use crate::strutil::{chars_to_string, lemma_sort_spec_props, sort_spec, sort_strings, sorted_lex};
use crate::value::{
    assoc, deep_copy, push_str_chars, push_string_form, string_form, val_equal, value_eq, Val,
    ValView,
};

verus! {

/// One run of a matrix job: values chosen per key.
pub type Combination = Seq<(Seq<char>, ValView)>;

/// One combination paired with each of a dimension's values in turn.
pub open spec fn combo_row(c: Combination, key: Seq<char>, vals: Seq<ValView>, n: int) -> Seq<
    Combination,
>
    decreases n,
{
    if n <= 0 || n > vals.len() {
        Seq::empty()
    } else {
        combo_row(c, key, vals, n - 1).push(c.push((key, vals[n - 1])))
    }
}

/// Every given combination extended with every value of one dimension.
pub open spec fn cart_step(
    combos: Seq<Combination>,
    key: Seq<char>,
    vals: Seq<ValView>,
    n: int,
) -> Seq<Combination>
    decreases n,
{
    if n <= 0 || n > combos.len() {
        Seq::empty()
    } else {
        cart_step(combos, key, vals, n - 1) + combo_row(combos[n - 1], key, vals, vals.len() as int)
    }
}

pub open spec fn cart_rec(dims: Seq<(Seq<char>, Seq<ValView>)>, n: int) -> Seq<Combination>
    decreases n,
{
    if n <= 0 || n > dims.len() {
        seq![Seq::empty()]
    } else {
        let prev = cart_rec(dims, n - 1);
        cart_step(prev, dims[n - 1].0, dims[n - 1].1, prev.len() as int)
    }
}

/// The cartesian product of the dimensions, in declaration order.
pub open spec fn spec_cartesian(dims: Seq<(Seq<char>, Seq<ValView>)>) -> Seq<Combination> {
    if dims.len() == 0 {
        Seq::empty()
    } else {
        cart_rec(dims, dims.len() as int)
    }
}

/// An exclude entry matches a combination when each of its keys is present
/// with an equal value.
pub open spec fn combo_matches_exclude(c: Combination, ex: Combination) -> bool {
    forall|i: int| 0 <= i < ex.len() ==> match assoc(c, (#[trigger] ex[i]).0) {
        Some(v) => val_equal(v, ex[i].1),
        None => false,
    }
}

pub open spec fn matches_any_exclude(c: Combination, excludes: Seq<Combination>) -> bool {
    exists|k: int| 0 <= k < excludes.len() && combo_matches_exclude(c, #[trigger] excludes[k])
}

/// The combinations that no exclude entry matches, in order.
pub open spec fn kept_seq(combos: Seq<Combination>, excludes: Seq<Combination>, n: int) -> Seq<
    Combination,
>
    decreases n,
{
    if n <= 0 || n > combos.len() {
        Seq::empty()
    } else if matches_any_exclude(combos[n - 1], excludes) {
        kept_seq(combos, excludes, n - 1)
    } else {
        kept_seq(combos, excludes, n - 1).push(combos[n - 1])
    }
}

/// How many of the combinations some exclude entry matches.
pub open spec fn excluded_count(combos: Seq<Combination>, excludes: Seq<Combination>, n: int) -> int
    decreases n,
{
    if n <= 0 || n > combos.len() {
        0
    } else if matches_any_exclude(combos[n - 1], excludes) {
        excluded_count(combos, excludes, n - 1) + 1
    } else {
        excluded_count(combos, excludes, n - 1)
    }
}

/// What expanding a matrix yields: the cartesian product of the dimensions,
/// less the excluded combinations, plus the rows appended verbatim; one empty
/// combination when nothing is left.
pub open spec fn spec_expand(m: MatrixView) -> Seq<Combination> {
    if m.dimensions.len() == 0 && m.added.len() == 0 {
        seq![Seq::empty()]
    } else {
        let base = spec_cartesian(m.dimensions);
        let all = kept_seq(base, m.exclude, base.len() as int) + m.added;
        if all.len() == 0 {
            seq![Seq::empty()]
        } else {
            all
        }
    }
}

/// The product of the dimension sizes.
pub open spec fn dims_product(dims: Seq<(Seq<char>, Seq<ValView>)>, n: int) -> int
    decreases n,
{
    if n <= 0 || n > dims.len() {
        1
    } else {
        dims_product(dims, n - 1) * dims[n - 1].1.len()
    }
}

proof fn lemma_combo_row_len(c: Combination, key: Seq<char>, vals: Seq<ValView>, n: int)
    requires
        0 <= n <= vals.len(),
    ensures
        combo_row(c, key, vals, n).len() == n,
    decreases n,
{
    if n > 0 {
        lemma_combo_row_len(c, key, vals, n - 1);
    }
}

proof fn lemma_cart_step_len(combos: Seq<Combination>, key: Seq<char>, vals: Seq<ValView>, n: int)
    requires
        0 <= n <= combos.len(),
    ensures
        cart_step(combos, key, vals, n).len() == n * (vals.len() as int),
    decreases n,
{
    if n > 0 {
        lemma_cart_step_len(combos, key, vals, n - 1);
        lemma_combo_row_len(combos[n - 1], key, vals, vals.len() as int);
        let vl = vals.len() as int;
        assert(cart_step(combos, key, vals, n).len() == cart_step(combos, key, vals, n - 1).len()
            + combo_row(combos[n - 1], key, vals, vl).len());
        assert((n - 1) * vl + vl == n * vl) by (nonlinear_arith);
        assert(cart_step(combos, key, vals, n).len() == n * vl);
        assert(cart_step(combos, key, vals, n).len() == n * (vals.len() as int));
    } else {
        assert(n == 0);
        assert(cart_step(combos, key, vals, n).len() == 0);
        assert(cart_step(combos, key, vals, n).len() == n * (vals.len() as int));
    }
}

proof fn lemma_cart_rec_len(dims: Seq<(Seq<char>, Seq<ValView>)>, n: int)
    requires
        0 <= n <= dims.len(),
    ensures
        cart_rec(dims, n).len() == dims_product(dims, n),
        dims_product(dims, n) >= 0,
    decreases n,
{
    if n > 0 {
        lemma_cart_rec_len(dims, n - 1);
        lemma_cart_step_len(cart_rec(dims, n - 1), dims[n - 1].0, dims[n - 1].1,
            cart_rec(dims, n - 1).len() as int);
        assert(dims_product(dims, n - 1) * dims[n - 1].1.len() >= 0) by (nonlinear_arith)
            requires dims_product(dims, n - 1) >= 0 && dims[n - 1].1.len() >= 0;
    }
}

proof fn lemma_kept_len(combos: Seq<Combination>, excludes: Seq<Combination>, n: int)
    requires
        0 <= n <= combos.len(),
    ensures
        kept_seq(combos, excludes, n).len() == n - excluded_count(combos, excludes, n),
        0 <= excluded_count(combos, excludes, n) <= n,
    decreases n,
{
    if n > 0 {
        lemma_kept_len(combos, excludes, n - 1);
    }
}

/// The size of an expansion: the product of the dimension sizes, less the
/// excluded combinations, plus the appended rows; at least the one empty
/// combination.
pub proof fn lemma_matrix_size(m: MatrixView)
    ensures
        m.dimensions.len() == 0 && m.added.len() == 0 ==> spec_expand(m).len() == 1,
        m.dimensions.len() == 0 && m.added.len() > 0 ==> spec_expand(m).len() == m.added.len(),
        m.dimensions.len() > 0 ==> spec_expand(m).len() == {
            let total = dims_product(m.dimensions, m.dimensions.len() as int) - excluded_count(
                spec_cartesian(m.dimensions),
                m.exclude,
                spec_cartesian(m.dimensions).len() as int,
            ) + m.added.len();
            if total == 0 {
                1int
            } else {
                total
            }
        },
{
    if m.dimensions.len() > 0 {
        lemma_cart_rec_len(m.dimensions, m.dimensions.len() as int);
        lemma_kept_len(spec_cartesian(m.dimensions), m.exclude,
            spec_cartesian(m.dimensions).len() as int);
    } else {
        if m.added.len() > 0 {
            assert(kept_seq(Seq::empty(), m.exclude, 0) =~= Seq::<Combination>::empty());
            assert(kept_seq(Seq::empty(), m.exclude, 0) + m.added =~= m.added);
        }
    }
}

/// Does any exclude entry match the combination?
fn matches_any_exclude_exec(combo: &Dict<Val>, excludes: &Vec<Dict<Val>>) -> (r: bool)
    ensures
        r == matches_any_exclude(combo@, excludes.deep_view()),
{
    let n = excludes.len();
    let mut k: usize = 0;
    while k < n
        invariant
            0 <= k <= n,
            n == excludes@.len(),
            forall|j: int| 0 <= j < k
                ==> !combo_matches_exclude(combo@, excludes.deep_view()[j]),
        decreases n - k,
    {
        let ex = &excludes[k];
        let m = ex.len();
        let mut i: usize = 0;
        let mut all_match = true;
        while i < m && all_match
            invariant
                0 <= i <= m,
                m == ex@.len(),
                ex@ == excludes.deep_view()[k as int],
                all_match ==> forall|j: int| 0 <= j < i ==> match assoc(
                    combo@,
                    (#[trigger] ex@[j]).0,
                ) {
                    Some(v) => val_equal(v, ex@[j].1),
                    None => false,
                },
                !all_match ==> !combo_matches_exclude(combo@, ex@),
            decreases m - i,
        {
            let key = ex.key_at(i);
            match combo.get(key) {
                Some(v) => {
                    if !value_eq(v, ex.val_at(i)) {
                        all_match = false;
                        proof {
                            assert(!combo_matches_exclude(combo@, ex@));
                        }
                    }
                }
                None => {
                    all_match = false;
                    proof {
                        assert(!combo_matches_exclude(combo@, ex@));
                    }
                }
            }
            i = i + 1;
        }
        if all_match {
            proof {
                assert(combo_matches_exclude(combo@, ex@));
            }
            return true;
        }
        k = k + 1;
    }
    false
}

/// Expand a strategy's matrix into the combinations its job runs with.
pub fn expand_matrix(strategy: &Strategy) -> (r: Vec<Dict<Val>>)
    ensures
        r.deep_view() == spec_expand(strategy@.matrix),
{
    expand_matrix_inner(&strategy.matrix)
}

/// The cartesian product of the dimensions, one dictionary per combination.
fn cartesian_product(dims: &Dict<Vec<Val>>) -> (r: Vec<Dict<Val>>)
    ensures
        r.deep_view() == spec_cartesian(dims@),
{
    let nd = dims.len();
    if nd == 0 {
        let r: Vec<Dict<Val>> = Vec::new();
        proof {
            assert(r.deep_view() =~~= spec_cartesian(dims@));
        }
        return r;
    }
    let mut result: Vec<Dict<Val>> = Vec::new();
    result.push(Dict::new());
    proof {
        assert(result.deep_view() =~= cart_rec(dims@, 0));
    }
    let mut k: usize = 0;
    while k < nd
        invariant
            0 <= k <= nd,
            nd == dims@.len(),
            result.deep_view() == cart_rec(dims@, k as int),
        decreases nd - k,
    {
        let key = dims.key_at(k);
        let vals = dims.val_at(k);
        let nv = vals.len();
        let ghost prev = result.deep_view();
        let mut new_result: Vec<Dict<Val>> = Vec::new();
        let nr = result.len();
        let mut c: usize = 0;
        proof {
            assert(new_result.deep_view() =~~= cart_step(prev, dims@[k as int].0,
                dims@[k as int].1, 0));
        }
        while c < nr
            invariant
                0 <= c <= nr,
                nr == result@.len(),
                nv == vals@.len(),
                0 <= k < dims@.len(),
                key@ == dims@[k as int].0,
                vals.deep_view() == dims@[k as int].1,
                prev == result.deep_view(),
                prev.len() == nr,
                new_result.deep_view() == cart_step(prev, dims@[k as int].0, dims@[k as int].1,
                    c as int),
            decreases nr - c,
        {
            let base = &result[c];
            let mut j: usize = 0;
            proof {
                assert(new_result.deep_view() =~~= cart_step(prev, dims@[k as int].0,
                    dims@[k as int].1, c as int) + combo_row(prev[c as int], dims@[k as int].0,
                    dims@[k as int].1, 0));
            }
            while j < nv
                invariant
                    0 <= j <= nv,
                    nv == vals@.len(),
                    nr == result@.len(),
                    0 <= c < nr,
                    0 <= k < dims@.len(),
                    key@ == dims@[k as int].0,
                    vals.deep_view() == dims@[k as int].1,
                    prev == result.deep_view(),
                    base@ == result@[c as int]@,
                    base.deep_view() == prev[c as int],
                    new_result.deep_view() == cart_step(prev, dims@[k as int].0,
                        dims@[k as int].1, c as int) + combo_row(prev[c as int],
                        dims@[k as int].0, dims@[k as int].1, j as int),
                decreases nv - j,
            {
                let mut c2 = dup_value_dict(base);
                let v2 = deep_copy(&vals[j]);
                c2.entries.push((key.clone(), v2));
                let ghost key_v = dims@[k as int].0;
                let ghost vals_v = dims@[k as int].1;
                let ghost base_v = prev[c as int];
                proof {
                    assert(c2.deep_view() =~= base_v.push((key_v, vals_v[j as int])));
                }
                let ghost elem = base_v.push((key_v, vals_v[j as int]));
                new_result.push(c2);
                proof {
                    assert(combo_row(base_v, key_v, vals_v, j + 1) == combo_row(base_v, key_v,
                        vals_v, j as int).push(elem));
                    assert(new_result.deep_view() =~~= (cart_step(prev, key_v, vals_v, c as int)
                        + combo_row(base_v, key_v, vals_v, j as int)).push(elem));
                    assert((cart_step(prev, key_v, vals_v, c as int) + combo_row(base_v, key_v,
                        vals_v, j as int)).push(elem) =~~= cart_step(prev, key_v, vals_v,
                        c as int) + combo_row(base_v, key_v, vals_v, j + 1));
                }
                j = j + 1;
            }
            proof {
                assert(new_result.deep_view() =~~= cart_step(prev, dims@[k as int].0,
                    dims@[k as int].1, c + 1));
            }
            c = c + 1;
        }
        result = new_result;
        k = k + 1;
    }
    result
}

/// Expand a matrix into the combinations its job runs with.
pub fn expand_matrix_inner(matrix: &Matrix) -> (r: Vec<Dict<Val>>)
    ensures
        r.deep_view() == spec_expand(matrix@),
{
    if matrix.dimensions.is_empty() && matrix.added.len() == 0 {
        let mut r: Vec<Dict<Val>> = Vec::new();
        r.push(Dict::new());
        proof {
            assert(r.deep_view() =~~= seq![Seq::<(Seq<char>, ValView)>::empty()]);
        }
        return r;
    }
    let combos = cartesian_product(&matrix.dimensions);
    let ghost base = combos.deep_view();
    let mut kept: Vec<Dict<Val>> = Vec::new();
    let n = combos.len();
    let mut i: usize = 0;
    proof {
        assert(kept.deep_view() =~~= kept_seq(base, matrix@.exclude, 0));
    }
    while i < n
        invariant
            0 <= i <= n,
            n == combos@.len(),
            base == combos.deep_view(),
            base.len() == n,
            matrix@.exclude == matrix.exclude.deep_view(),
            kept.deep_view() == kept_seq(base, matrix@.exclude, i as int),
        decreases n - i,
    {
        if !matches_any_exclude_exec(&combos[i], &matrix.exclude) {
            let c2 = dup_value_dict(&combos[i]);
            kept.push(c2);
            proof {
                assert(kept.deep_view() =~~= kept_seq(base, matrix@.exclude, i + 1));
            }
        } else {
            proof {
                assert(kept.deep_view() =~~= kept_seq(base, matrix@.exclude, i + 1));
            }
        }
        i = i + 1;
    }
    let na = matrix.added.len();
    let mut a: usize = 0;
    let ghost keptv = kept.deep_view();
    while a < na
        invariant
            0 <= a <= na,
            na == matrix.added@.len(),
            matrix@.added == matrix.added.deep_view(),
            kept.deep_view() == keptv + matrix@.added.take(a as int),
        decreases na - a,
    {
        let c2 = dup_value_dict(&matrix.added[a]);
        proof {
            assert(c2.deep_view() == matrix.added@[a as int].deep_view());
            assert(matrix@.added[a as int] == matrix.added@[a as int].deep_view());
            assert(matrix@.added.take(a + 1) =~= matrix@.added.take(a as int).push(
                matrix@.added[a as int]));
        }
        kept.push(c2);
        proof {
            assert(kept.deep_view() =~~= (keptv + matrix@.added.take(a as int)).push(
                matrix@.added[a as int]));
            assert((keptv + matrix@.added.take(a as int)).push(matrix@.added[a as int])
                =~~= keptv + matrix@.added.take(a + 1));
        }
        a = a + 1;
    }
    proof {
        assert(matrix@.added.take(na as int) =~= matrix@.added);
    }
    if kept.len() == 0 {
        let mut r: Vec<Dict<Val>> = Vec::new();
        r.push(Dict::new());
        proof {
            assert(r.deep_view() =~~= seq![Seq::<(Seq<char>, ValView)>::empty()]);
        }
        r
    } else {
        kept
    }
}

/// One `key=value` part of a matrix suffix.
/// The keys of a combination, in declaration order.
pub open spec fn combo_keys(c: Combination, n: int) -> Seq<Seq<char>>
    decreases n,
{
    if n <= 0 || n > c.len() {
        Seq::empty()
    } else {
        combo_keys(c, n - 1).push(c[n - 1].0)
    }
}

/// The `key=value` part written for one key of the combination.
pub open spec fn part_for_key(c: Combination, k: Seq<char>) -> Seq<char> {
    match assoc(c, k) {
        Some(v) => k + seq!['='] + string_form(v),
        None => k + seq!['='],
    }
}

pub open spec fn parts_for_keys(c: Combination, keys: Seq<Seq<char>>, n: int) -> Seq<Seq<char>>
    decreases n,
{
    if n <= 0 || n > keys.len() {
        Seq::empty()
    } else {
        parts_for_keys(c, keys, n - 1).push(part_for_key(c, keys[n - 1]))
    }
}

pub open spec fn join_parts(parts: Seq<Seq<char>>, n: int) -> Seq<char>
    decreases n,
{
    if n <= 0 || n > parts.len() {
        Seq::empty()
    } else if n == 1 {
        parts[0]
    } else {
        join_parts(parts, n - 1) + seq![',', ' '] + parts[n - 1]
    }
}

/// The log suffix of a combination: one `key=value` part per key, the
/// keys in ascending order, between brackets; empty for the empty
/// combination.
pub open spec fn suffix_spec(c: Combination) -> Seq<char> {
    if c.len() == 0 {
        Seq::empty()
    } else {
        let sk = sort_spec(combo_keys(c, c.len() as int));
        seq![' ', '['] + join_parts(parts_for_keys(c, sk, sk.len() as int),
            sk.len() as int) + seq![']']
    }
}

/// The keys appear in the formatted suffix in ascending order.
pub proof fn lemma_matrix_suffix_order(c: Combination)
    ensures
        sorted_lex(sort_spec(combo_keys(c, c.len() as int))),
{
    lemma_sort_spec_props(combo_keys(c, c.len() as int));
}

proof fn lemma_combo_keys_len(c: Combination, n: int)
    requires
        0 <= n <= c.len(),
    ensures
        combo_keys(c, n).len() == n,
    decreases n,
{
    if n > 0 {
        lemma_combo_keys_len(c, n - 1);
    }
}

proof fn lemma_parts_for_keys(c: Combination, keys: Seq<Seq<char>>, n: int)
    requires
        0 <= n <= keys.len(),
    ensures
        parts_for_keys(c, keys, n).len() == n,
        forall|i: int| 0 <= i < n ==> parts_for_keys(c, keys, n)[i] == part_for_key(
            c,
            #[trigger] keys[i],
        ),
    decreases n,
{
    if n > 0 {
        lemma_parts_for_keys(c, keys, n - 1);
    }
}

/// Format the combination for the log line of a matrix job.
pub fn format_matrix_suffix(combo: &Dict<Val>) -> (r: String)
    ensures
        r@ == suffix_spec(combo@),
{
    if combo.is_empty() {
        let out: Vec<char> = Vec::new();
        return chars_to_string(&out);
    }
    let n = combo.len();
    let mut keys: Vec<String> = Vec::new();
    let mut i: usize = 0;
    proof {
        assert(keys.deep_view() =~= combo_keys(combo@, 0));
    }
    while i < n
        invariant
            0 <= i <= n,
            n == combo@.len(),
            keys.deep_view() == combo_keys(combo@, i as int),
        decreases n - i,
    {
        let ghost pre = keys.deep_view();
        keys.push(combo.key_at(i).clone());
        proof {
            assert(keys.deep_view() =~= pre.push(combo@[i as int].0));
        }
        i = i + 1;
    }
    let sorted = sort_strings(keys);
    let ghost sk = sort_spec(combo_keys(combo@, n as int));
    let ghost parts = parts_for_keys(combo@, sk, sk.len() as int);
    proof {
        lemma_sort_spec_props(combo_keys(combo@, n as int));
        lemma_combo_keys_len(combo@, n as int);
        lemma_parts_for_keys(combo@, sk, sk.len() as int);
    }
    let mut out: Vec<char> = Vec::new();
    out.push(' ');
    out.push('[');
    let np = sorted.len();
    let mut p: usize = 0;
    while p < np
        invariant
            0 <= p <= np,
            np == sorted@.len(),
            sorted.deep_view() == sk,
            sk.len() == np,
            parts == parts_for_keys(combo@, sk, sk.len() as int),
            parts.len() == np,
            forall|q: int| 0 <= q < np ==> parts[q] == part_for_key(combo@, #[trigger] sk[q]),
            out@ == seq![' ', '['] + join_parts(parts, p as int),
        decreases np - p,
    {
        if p > 0 {
            out.push(',');
            out.push(' ');
        }
        let key = &sorted[p];
        proof {
            assert(sorted@[p as int]@ == sk[p as int]);
        }
        push_str_chars(key.as_str(), &mut out);
        out.push('=');
        match combo.get(key) {
            Some(v) => {
                push_string_form(v, &mut out);
            }
            None => {}
        }
        proof {
            assert(out@ =~= seq![' ', '['] + join_parts(parts, p + 1));
        }
        p = p + 1;
    }
    out.push(']');
    proof {
        assert(out@ =~= suffix_spec(combo@));
    }
    chars_to_string(&out)
}

} // verus!
