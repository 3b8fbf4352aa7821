use vstd::prelude::*;

verus! {

/// Whitespace, as trimming understands it.
pub open spec fn is_space(c: char) -> bool {
    c == ' ' || c == '\t' || c == '\n' || c == '\r' || c == '\u{b}' || c == '\u{c}'
}

pub fn char_is_space(c: char) -> (r: bool)
    ensures
        r == is_space(c),
{
    c == ' ' || c == '\t' || c == '\n' || c == '\r' || c == '\u{b}' || c == '\u{c}'
}

pub open spec fn trim_start_idx(s: Seq<char>, i: int) -> int
    decreases s.len() - i,
{
    if 0 <= i < s.len() && is_space(s[i]) {
        trim_start_idx(s, i + 1)
    } else {
        i
    }
}

pub open spec fn trim_end_idx(s: Seq<char>, j: int) -> int
    decreases j,
{
    if 0 < j <= s.len() && is_space(s[j - 1]) {
        trim_end_idx(s, j - 1)
    } else {
        j
    }
}

/// The string with leading and trailing whitespace removed.
pub open spec fn trimmed(s: Seq<char>) -> Seq<char> {
    let a = trim_start_idx(s, 0);
    let b = trim_end_idx(s, s.len() as int);
    if a < b {
        s.subrange(a, b)
    } else {
        Seq::empty()
    }
}

proof fn lemma_trim_start_bounds(s: Seq<char>, i: int)
    requires
        0 <= i <= s.len(),
    ensures
        i <= trim_start_idx(s, i) <= s.len(),
    decreases s.len() - i,
{
    if i < s.len() && is_space(s[i]) {
        lemma_trim_start_bounds(s, i + 1);
    }
}

/// Copy a range of a character vector.
pub fn subvec(s: &Vec<char>, lo: usize, hi: usize) -> (r: Vec<char>)
    requires
        lo <= hi <= s@.len(),
    ensures
        r@ == s@.subrange(lo as int, hi as int),
{
    let mut r: Vec<char> = Vec::new();
    let mut i: usize = lo;
    while i < hi
        invariant
            lo <= i <= hi <= s@.len(),
            r@ =~= s@.subrange(lo as int, i as int),
        decreases hi - i,
    {
        r.push(s[i]);
        proof {
            assert(r@ =~= s@.subrange(lo as int, i + 1));
        }
        i = i + 1;
    }
    proof {
        assert(r@ =~= s@.subrange(lo as int, hi as int));
    }
    r
}

/// Remove leading and trailing whitespace.
pub fn trim_vec(s: &Vec<char>) -> (r: Vec<char>)
    ensures
        r@ == trimmed(s@),
{
    let n = s.len();
    let mut a: usize = 0;
    while a < n && char_is_space(s[a])
        invariant
            0 <= a <= n,
            n == s@.len(),
            trim_start_idx(s@, 0) == trim_start_idx(s@, a as int),
        decreases n - a,
    {
        a = a + 1;
    }
    proof {
        lemma_trim_start_bounds(s@, a as int);
        assert(trim_start_idx(s@, a as int) == a as int);
    }
    let mut b: usize = n;
    while b > 0 && char_is_space(s[b - 1])
        invariant
            0 <= b <= n,
            n == s@.len(),
            trim_end_idx(s@, n as int) == trim_end_idx(s@, b as int),
        decreases b,
    {
        b = b - 1;
    }
    proof {
        assert(trim_end_idx(s@, b as int) == b as int);
    }
    if a < b {
        subvec(s, a, b)
    } else {
        let r: Vec<char> = Vec::new();
        proof {
            assert(r@ =~= trimmed(s@));
        }
        r
    }
}

/// The characters of a string slice, in order.
pub fn str_to_chars(s: &str) -> (r: Vec<char>)
    ensures
        r@ == s@,
{
    let n = s.unicode_len();
    let mut r: Vec<char> = Vec::new();
    let mut i: usize = 0;
    while i < n
        invariant
            n == s@.len(),
            0 <= i <= n,
            r@ =~= s@.take(i as int),
        decreases n - i,
    {
        let c = s.get_char(i);
        r.push(c);
        proof {
            assert(r@ =~= s@.take(i + 1));
        }
        i = i + 1;
    }
    proof {
        assert(r@ =~= s@);
    }
    r
}

/// Relies on `String: FromIterator<char>`: collecting characters yields the
/// string holding exactly those characters in order.
#[verifier::external_body]
pub fn chars_to_string(v: &Vec<char>) -> (r: String)
    ensures
        r@ == v@,
{
    v.iter().collect()
}

/// Lexicographic order on character sequences, by code point.
pub open spec fn lex_le(a: Seq<char>, b: Seq<char>) -> bool
    decreases a.len(),
{
    if a.len() == 0 {
        true
    } else if b.len() == 0 {
        false
    } else if a[0] == b[0] {
        lex_le(a.drop_first(), b.drop_first())
    } else {
        (a[0] as int) < (b[0] as int)
    }
}

pub proof fn lemma_lex_le_total(a: Seq<char>, b: Seq<char>)
    ensures
        lex_le(a, b) || lex_le(b, a),
    decreases a.len(),
{
    if a.len() > 0 && b.len() > 0 && a[0] == b[0] {
        lemma_lex_le_total(a.drop_first(), b.drop_first());
    }
}

pub proof fn lemma_lex_le_trans(a: Seq<char>, b: Seq<char>, c: Seq<char>)
    requires
        lex_le(a, b),
        lex_le(b, c),
    ensures
        lex_le(a, c),
    decreases a.len(),
{
    if a.len() > 0 && b.len() > 0 && c.len() > 0 {
        if a[0] == b[0] && b[0] == c[0] {
            lemma_lex_le_trans(a.drop_first(), b.drop_first(), c.drop_first());
        }
    }
}

proof fn lemma_lex_le_skip(a: Seq<char>, b: Seq<char>, i: int)
    requires
        0 <= i <= a.len(),
        i <= b.len(),
        forall|j: int| 0 <= j < i ==> a[j] == b[j],
    ensures
        lex_le(a, b) == lex_le(a.skip(i), b.skip(i)),
    decreases i,
{
    if i == 0 {
        assert(a.skip(0) =~= a);
        assert(b.skip(0) =~= b);
    } else if a.len() > 0 && b.len() > 0 {
        assert(a[0] == b[0]);
        let a1 = a.drop_first();
        let b1 = b.drop_first();
        assert(forall|j: int| 0 <= j < i - 1 ==> a1[j] == a[j + 1] && b1[j] == b[j + 1]);
        lemma_lex_le_skip(a1, b1, i - 1);
        assert(a1.skip(i - 1) =~= a.skip(i));
        assert(b1.skip(i - 1) =~= b.skip(i));
    }
}

/// Decide the lexicographic order of two strings.
pub fn str_le(a: &String, b: &String) -> (r: bool)
    ensures
        r == lex_le(a@, b@),
{
    let sa = a.as_str();
    let sb = b.as_str();
    let na = sa.unicode_len();
    let nb = sb.unicode_len();
    let mut i: usize = 0;
    loop
        invariant
            na == a@.len(),
            nb == b@.len(),
            sa@ == a@,
            sb@ == b@,
            0 <= i <= na,
            i <= nb,
            forall|j: int| 0 <= j < i ==> a@[j] == b@[j],
        decreases na - i,
    {
        if i >= na {
            proof {
                lemma_lex_le_skip(a@, b@, i as int);
                assert(a@.skip(i as int).len() == 0);
            }
            return true;
        }
        if i >= nb {
            proof {
                lemma_lex_le_skip(a@, b@, i as int);
                assert(b@.skip(i as int).len() == 0);
                assert(a@.skip(i as int).len() > 0);
            }
            return false;
        }
        let ca = sa.get_char(i);
        let cb = sb.get_char(i);
        if ca != cb {
            proof {
                lemma_lex_le_skip(a@, b@, i as int);
                assert(a@.skip(i as int)[0] == a@[i as int]);
                assert(b@.skip(i as int)[0] == b@[i as int]);
            }
            return (ca as u32) < (cb as u32);
        }
        i = i + 1;
    }
}

pub open spec fn sorted_lex(s: Seq<Seq<char>>) -> bool {
    forall|i: int, j: int| 0 <= i < j < s.len() ==> lex_le(#[trigger] s[i], #[trigger] s[j])
}

/// Where a string lands in a sorted list: before the first entry that is
/// not smaller than it.
pub open spec fn insert_sorted(s: Seq<Seq<char>>, x: Seq<char>) -> Seq<Seq<char>>
    decreases s.len(),
{
    if s.len() == 0 {
        seq![x]
    } else if lex_le(x, s[0]) {
        seq![x] + s
    } else {
        seq![s[0]] + insert_sorted(s.drop_first(), x)
    }
}

/// Sorting as repeated insertion, front to back.
pub open spec fn sort_spec(s: Seq<Seq<char>>) -> Seq<Seq<char>>
    decreases s.len(),
{
    if s.len() == 0 {
        Seq::empty()
    } else {
        insert_sorted(sort_spec(s.drop_last()), s.last())
    }
}

proof fn lemma_insert_sorted_at(s: Seq<Seq<char>>, x: Seq<char>, k: int)
    requires
        0 <= k <= s.len(),
        forall|j: int| 0 <= j < k ==> !lex_le(x, #[trigger] s[j]),
        k < s.len() ==> lex_le(x, s[k]),
    ensures
        insert_sorted(s, x) == s.insert(k, x),
    decreases s.len(),
{
    if s.len() == 0 {
        assert(insert_sorted(s, x) =~= s.insert(0, x));
    } else if k == 0 {
        assert(lex_le(x, s[0]));
        assert(seq![x] + s =~= s.insert(0, x));
    } else {
        assert(!lex_le(x, s[0]));
        let t = s.drop_first();
        assert(forall|j: int| 0 <= j < k - 1 ==> t[j] == s[j + 1]);
        lemma_insert_sorted_at(t, x, k - 1);
        assert(seq![s[0]] + t.insert(k - 1, x) =~= s.insert(k, x));
    }
}

pub proof fn lemma_insert_sorted_props(s: Seq<Seq<char>>, x: Seq<char>)
    requires
        sorted_lex(s),
    ensures
        sorted_lex(insert_sorted(s, x)),
        insert_sorted(s, x).to_multiset() == s.to_multiset().insert(x),
        insert_sorted(s, x).len() == s.len() + 1,
    decreases s.len(),
{
    vstd::seq_lib::to_multiset_build(s, x);
    if s.len() == 0 {
        assert(insert_sorted(s, x) =~= s.push(x));
    } else if lex_le(x, s[0]) {
        let r = seq![x] + s;
        assert forall|p: int, q: int| 0 <= p < q < r.len() implies lex_le(
            #[trigger] r[p],
            #[trigger] r[q],
        ) by {
            if p == 0 {
                if q > 1 {
                    lemma_lex_le_trans(x, s[0], s[q - 1]);
                }
            } else {
                assert(r[p] == s[p - 1] && r[q] == s[q - 1]);
            }
        }
        assert(r =~= s.insert(0, x));
        vstd::seq_lib::to_multiset_insert(s, 0, x);
    } else {
        let t = s.drop_first();
        assert(sorted_lex(t)) by {
            assert(forall|p: int, q: int| 0 <= p < q < t.len()
                ==> t[p] == s[p + 1] && t[q] == s[q + 1]);
        }
        lemma_insert_sorted_props(t, x);
        let r = seq![s[0]] + insert_sorted(t, x);
        lemma_lex_le_total(x, s[0]);
        assert forall|p: int, q: int| 0 <= p < q < r.len() implies lex_le(
            #[trigger] r[p],
            #[trigger] r[q],
        ) by {
            if p == 0 {
                let it = insert_sorted(t, x);
                assert(r[q] == it[q - 1]);
                vstd::seq_lib::to_multiset_contains(it, it[q - 1]);
                vstd::seq_lib::to_multiset_contains(t, it[q - 1]);
                if it[q - 1] == x {
                    assert(lex_le(s[0], x));
                } else {
                    assert(it.to_multiset().count(it[q - 1]) > 0);
                    assert(t.to_multiset().count(it[q - 1]) > 0 || it[q - 1] == x);
                    assert(t.contains(it[q - 1]));
                    let w = choose|w: int| 0 <= w < t.len() && t[w] == it[q - 1];
                    assert(s[w + 1] == t[w]);
                    assert(lex_le(s[0], s[w + 1]));
                }
            } else {
                assert(r[p] == insert_sorted(t, x)[p - 1]);
                assert(r[q] == insert_sorted(t, x)[q - 1]);
            }
        }
        assert(r.to_multiset() == s.to_multiset().insert(x)) by {
            vstd::seq_lib::lemma_multiset_commutative(seq![s[0]], insert_sorted(t, x));
            vstd::seq_lib::lemma_multiset_commutative(seq![s[0]], t);
            assert(seq![s[0]] + t =~= s);
            assert(seq![s[0]].to_multiset().add(t.to_multiset().insert(x))
                =~= s.to_multiset().insert(x));
        }
    }
}

/// The sorted copy of a list of strings holds the same strings, in
/// lexicographic order.
pub proof fn lemma_sort_spec_props(s: Seq<Seq<char>>)
    ensures
        sorted_lex(sort_spec(s)),
        sort_spec(s).to_multiset() == s.to_multiset(),
        sort_spec(s).len() == s.len(),
    decreases s.len(),
{
    if s.len() > 0 {
        lemma_sort_spec_props(s.drop_last());
        lemma_insert_sorted_props(sort_spec(s.drop_last()), s.last());
        vstd::seq_lib::to_multiset_build(s.drop_last(), s.last());
        assert(s.drop_last().push(s.last()) =~= s);
        assert(sort_spec(s) == insert_sorted(sort_spec(s.drop_last()), s.last()));
        assert(sort_spec(s).to_multiset()
            == sort_spec(s.drop_last()).to_multiset().insert(s.last()));
        assert(sort_spec(s.drop_last()).to_multiset() == s.drop_last().to_multiset());
        assert(s.drop_last().push(s.last()).to_multiset()
            == s.drop_last().to_multiset().insert(s.last()));
        assert(sort_spec(s).to_multiset() == s.to_multiset());
    } else {
        assert(s =~= Seq::<Seq<char>>::empty());
    }
}

/// Sort strings into lexicographic order.
pub fn sort_strings(v: Vec<String>) -> (r: Vec<String>)
    ensures
        r.deep_view() == sort_spec(v.deep_view()),
{
    let mut out: Vec<String> = Vec::new();
    let n = v.len();
    let ghost vs = v.deep_view();
    proof {
        assert(vs.take(0) =~= Seq::<Seq<char>>::empty());
        assert(out.deep_view() =~= Seq::<Seq<char>>::empty());
    }
    for idx in 0..n
        invariant
            n == v@.len(),
            vs == v.deep_view(),
            vs.len() == n,
            out.deep_view() == sort_spec(vs.take(idx as int)),
    {
        let ghost before = out.deep_view();
        let x = v[idx].clone();
        proof {
            assert(x@ == vs[idx as int]);
        }
        let mut k: usize = 0;
        while k < out.len() && !str_le(&x, &out[k])
            invariant
                0 <= k <= out.deep_view().len(),
                out.deep_view() == before,
                out@.len() == before.len(),
                forall|j: int| 0 <= j < k ==> !lex_le(x@, #[trigger] before[j]),
            decreases out.deep_view().len() - k,
        {
            k = k + 1;
        }
        proof {
            lemma_insert_sorted_at(before, x@, k as int);
        }
        out.insert(k, x);
        proof {
            assert(out.deep_view() =~= before.insert(k as int, vs[idx as int]));
            assert(vs.take(idx + 1).drop_last() =~= vs.take(idx as int));
            assert(vs.take(idx + 1).last() == vs[idx as int]);
        }
    }
    proof {
        assert(vs.take(n as int) =~= vs);
    }
    out
}

} // verus!
