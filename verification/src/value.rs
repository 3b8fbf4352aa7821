use vstd::prelude::*;

verus! {

/// The mathematical model of a dynamically typed value: the tree of
/// plain data that a workflow document carries around.
pub enum ValView {
    Null,
    Bool(bool),
    Int(int),
    Num(Seq<char>),
    Str(Seq<char>),
    Arr(Seq<ValView>),
    Obj(Seq<(Seq<char>, ValView)>),
}

/// A dynamically typed value: null, boolean, integer, non-integer number
/// (kept in its canonical decimal form), string, array, or object with
/// string keys in insertion order.
#[derive(Debug, PartialEq)]
pub enum Val {
    Null,
    Bool(bool),
    Int(i64),
    Num(String),
    Str(String),
    Arr(Vec<Val>),
    Obj(Vec<(String, Val)>),
}

pub open spec fn view_of(v: Val) -> ValView
    decreases v, 0int,
{
    match v {
        Val::Null => ValView::Null,
        Val::Bool(b) => ValView::Bool(b),
        Val::Int(i) => ValView::Int(i as int),
        Val::Num(s) => ValView::Num(s@),
        Val::Str(s) => ValView::Str(s@),
        Val::Arr(items) => ValView::Arr(views_of_vec(items, items.len() as int)),
        Val::Obj(entries) => ValView::Obj(entry_views_of_vec(entries, entries.len() as int)),
    }
}

pub open spec fn views_of_vec(items: Vec<Val>, n: int) -> Seq<ValView>
    decreases items, n,
{
    if n <= 0 || n > items.len() {
        Seq::empty()
    } else {
        views_of_vec(items, n - 1).push(view_of(items[n - 1]))
    }
}

pub open spec fn entry_views_of_vec(entries: Vec<(String, Val)>, n: int) -> Seq<(Seq<char>, ValView)>
    decreases entries, n,
{
    if n <= 0 || n > entries.len() {
        Seq::empty()
    } else {
        entry_views_of_vec(entries, n - 1).push((entries[n - 1].0@, view_of(entries[n - 1].1)))
    }
}

impl View for Val {
    type V = ValView;

    open spec fn view(&self) -> ValView {
        view_of(*self)
    }
}

impl DeepView for Val {
    type V = ValView;

    open spec fn deep_view(&self) -> ValView {
        view_of(*self)
    }
}

pub proof fn lemma_views_of_vec(items: Vec<Val>, n: int)
    requires
        0 <= n <= items.len(),
    ensures
        views_of_vec(items, n).len() == n,
        forall|i: int| 0 <= i < n ==> views_of_vec(items, n)[i] == view_of(items[i]),
    decreases n,
{
    if n > 0 {
        lemma_views_of_vec(items, n - 1);
    }
}

pub proof fn lemma_entry_views_of_vec(entries: Vec<(String, Val)>, n: int)
    requires
        0 <= n <= entries.len(),
    ensures
        entry_views_of_vec(entries, n).len() == n,
        forall|i: int| 0 <= i < n ==> entry_views_of_vec(entries, n)[i]
            == (entries[i].0@, view_of(entries[i].1)),
    decreases n,
{
    if n > 0 {
        lemma_entry_views_of_vec(entries, n - 1);
    }
}

/// First-match lookup in a sequence of key/value pairs.
pub open spec fn assoc<X>(s: Seq<(Seq<char>, X)>, k: Seq<char>) -> Option<X>
    decreases s.len(),
{
    if s.len() == 0 {
        None
    } else if s[0].0 == k {
        Some(s[0].1)
    } else {
        assoc(s.drop_first(), k)
    }
}

pub open spec fn has_pair_key<X>(s: Seq<(Seq<char>, X)>, k: Seq<char>) -> bool {
    exists|i: int| 0 <= i < s.len() && s[i].0 == k
}

pub proof fn lemma_assoc_some<X>(s: Seq<(Seq<char>, X)>, k: Seq<char>)
    ensures
        assoc(s, k) is Some <==> has_pair_key(s, k),
        assoc(s, k) is Some ==> exists|i: int|
            0 <= i < s.len() && s[i].0 == k && assoc(s, k) == Some(s[i].1),
    decreases s.len(),
{
    if s.len() > 0 {
        lemma_assoc_some(s.drop_first(), k);
        if s[0].0 != k {
            if has_pair_key(s, k) {
                let i = choose|i: int| 0 <= i < s.len() && s[i].0 == k;
                assert(s.drop_first()[i - 1] == s[i]);
            }
            if has_pair_key(s.drop_first(), k) {
                let i = choose|i: int| 0 <= i < s.drop_first().len() && s.drop_first()[i].0 == k;
                assert(s[i + 1] == s.drop_first()[i]);
            }
            if assoc(s.drop_first(), k) is Some {
                let i = choose|i: int|
                    0 <= i < s.drop_first().len() && s.drop_first()[i].0 == k
                        && assoc(s.drop_first(), k) == Some(s.drop_first()[i].1);
                assert(s[i + 1] == s.drop_first()[i]);
            }
        }
    }
}

/// Keys of an object are pairwise distinct.
pub open spec fn keys_unique<X>(s: Seq<(Seq<char>, X)>) -> bool {
    forall|i: int, j: int| 0 <= i < j < s.len() ==> s[i].0 != s[j].0
}

pub proof fn lemma_assoc_unique<X>(s: Seq<(Seq<char>, X)>, i: int)
    requires
        keys_unique(s),
        0 <= i < s.len(),
    ensures
        assoc(s, s[i].0) == Some(s[i].1),
    decreases s.len(),
{
    if i > 0 {
        assert(s[0].0 != s[i].0);
        assert(s.drop_first()[i - 1] == s[i]);
        assert(keys_unique(s.drop_first())) by {
            assert(forall|p: int, q: int| 0 <= p < q < s.drop_first().len()
                ==> s.drop_first()[p] == s[p + 1] && s.drop_first()[q] == s[q + 1]);
        }
        lemma_assoc_unique(s.drop_first(), i - 1);
    }
}

/// A value is well formed when every object in it has pairwise distinct keys.
pub open spec fn wf_value(v: ValView) -> bool
    decreases v, 0int,
{
    match v {
        ValView::Arr(items) => wf_seq(items, items.len() as int),
        ValView::Obj(entries) => keys_unique(entries) && wf_entries(entries, entries.len() as int),
        _ => true,
    }
}

pub open spec fn wf_seq(items: Seq<ValView>, n: int) -> bool
    decreases items, n,
{
    if n <= 0 || n > items.len() {
        true
    } else {
        wf_seq(items, n - 1) && wf_value(items[n - 1])
    }
}

pub open spec fn wf_entries(entries: Seq<(Seq<char>, ValView)>, n: int) -> bool
    decreases entries, n,
{
    if n <= 0 || n > entries.len() {
        true
    } else {
        wf_entries(entries, n - 1) && wf_value(entries[n - 1].1)
    }
}

pub proof fn lemma_wf_seq(items: Seq<ValView>, n: int)
    requires
        0 <= n <= items.len(),
    ensures
        wf_seq(items, n) <==> (forall|i: int| 0 <= i < n ==> wf_value(#[trigger] items[i])),
    decreases n,
{
    if n > 0 {
        lemma_wf_seq(items, n - 1);
    }
}

pub proof fn lemma_wf_entries(entries: Seq<(Seq<char>, ValView)>, n: int)
    requires
        0 <= n <= entries.len(),
    ensures
        wf_entries(entries, n) <==> (forall|i: int|
            0 <= i < n ==> wf_value(#[trigger] entries[i].1)),
    decreases n,
{
    if n > 0 {
        lemma_wf_entries(entries, n - 1);
    }
}

/// Structural equality of values, where objects compare as finite maps:
/// same number of entries, and every entry of the left side is matched by
/// the entry under the same key on the right side.
pub open spec fn val_equal(a: ValView, b: ValView) -> bool
    decreases a, 0int,
{
    match (a, b) {
        (ValView::Arr(x), ValView::Arr(y)) => x.len() == y.len() && arr_equal(x, y, x.len() as int),
        (ValView::Obj(x), ValView::Obj(y)) => x.len() == y.len() && obj_covered(x, y, x.len() as int),
        _ => a == b,
    }
}

pub open spec fn arr_equal(x: Seq<ValView>, y: Seq<ValView>, n: int) -> bool
    decreases x, n,
{
    if n <= 0 || n > x.len() || x.len() != y.len() {
        true
    } else {
        arr_equal(x, y, n - 1) && val_equal(x[n - 1], y[n - 1])
    }
}

pub open spec fn obj_covered(x: Seq<(Seq<char>, ValView)>, y: Seq<(Seq<char>, ValView)>, n: int) -> bool
    decreases x, n,
{
    if n <= 0 || n > x.len() {
        true
    } else {
        obj_covered(x, y, n - 1) && match assoc(y, x[n - 1].0) {
            Some(w) => val_equal(x[n - 1].1, w),
            None => false,
        }
    }
}


pub proof fn lemma_arr_equal(x: Seq<ValView>, y: Seq<ValView>, n: int)
    requires
        0 <= n <= x.len(),
        x.len() == y.len(),
    ensures
        arr_equal(x, y, n) <==> (forall|i: int| 0 <= i < n ==> val_equal(#[trigger] x[i], y[i])),
    decreases n,
{
    if n > 0 {
        lemma_arr_equal(x, y, n - 1);
    }
}

pub proof fn lemma_obj_covered(x: Seq<(Seq<char>, ValView)>, y: Seq<(Seq<char>, ValView)>, n: int)
    requires
        0 <= n <= x.len(),
    ensures
        obj_covered(x, y, n) <==> (forall|i: int| 0 <= i < n ==> match assoc(y, #[trigger] x[i].0) {
            Some(w) => val_equal(x[i].1, w),
            None => false,
        }),
    decreases n,
{
    if n > 0 {
        lemma_obj_covered(x, y, n - 1);
    }
}

pub proof fn lemma_assoc_at<X>(s: Seq<(Seq<char>, X)>, k: Seq<char>, m: int)
    requires
        0 <= m <= s.len(),
        forall|j: int| 0 <= j < m ==> s[j].0 != k,
    ensures
        m == s.len() ==> assoc(s, k) is None,
        m < s.len() && s[m].0 == k ==> assoc(s, k) == Some(s[m].1),
    decreases s.len(),
{
    if s.len() > 0 && m > 0 {
        let t = s.drop_first();
        assert(s[0].0 != k);
        assert(forall|j: int| 0 <= j < m - 1 ==> t[j] == s[j + 1]);
        lemma_assoc_at(t, k, m - 1);
        if m < s.len() && s[m].0 == k {
            assert(t[m - 1] == s[m]);
        }
    }
}

/// Scan key/value entries for the first entry with the given key.
pub fn entries_get<'a>(entries: &'a Vec<(String, Val)>, key: &String) -> (r: Option<&'a Val>)
    ensures
        match r {
            Some(v) => assoc(entry_views_of_vec(*entries, entries@.len() as int), key@) == Some(v@)
                && exists|i: int| 0 <= i < entries@.len() && *v == (#[trigger] entries@[i]).1,
            None => assoc(entry_views_of_vec(*entries, entries@.len() as int), key@) is None,
        },
{
    let ghost s = entry_views_of_vec(*entries, entries@.len() as int);
    proof {
        lemma_entry_views_of_vec(*entries, entries@.len() as int);
    }
    let n = entries.len();
    let mut i: usize = 0;
    while i < n
        invariant
            n == entries@.len(),
            0 <= i <= n,
            s == entry_views_of_vec(*entries, entries@.len() as int),
            s.len() == n,
            forall|j: int| 0 <= j < s.len() ==> s[j] == (entries@[j].0@, view_of(entries@[j].1)),
            forall|j: int| 0 <= j < i ==> s[j].0 != key@,
        decreases n - i,
    {
        if entries[i].0 == *key {
            proof {
                lemma_assoc_at(s, key@, i as int);
            }
            proof {
                assert(entries@[i as int].1 == entries@[i as int].1);
            }
            return Some(&entries[i].1);
        }
        i = i + 1;
    }
    proof {
        lemma_assoc_at(s, key@, n as int);
    }
    None
}

/// Decide structural equality of two values.
#[verifier::loop_isolation(false)]
pub fn value_eq(a: &Val, b: &Val) -> (r: bool)
    ensures
        r == val_equal(a@, b@),
    decreases a,
{
    match a {
        Val::Null => matches!(b, Val::Null),
        Val::Bool(x) => match b { Val::Bool(y) => *x == *y, _ => false },
        Val::Int(x) => match b { Val::Int(y) => *x == *y, _ => false },
        Val::Num(x) => match b { Val::Num(y) => *x == *y, _ => false },
        Val::Str(x) => match b { Val::Str(y) => *x == *y, _ => false },
        Val::Arr(x) => {
            match b {
                Val::Arr(y) => {
                    let ghost xs = views_of_vec(*x, x@.len() as int);
                    let ghost ys = views_of_vec(*y, y@.len() as int);
                    proof {
                        lemma_views_of_vec(*x, x@.len() as int);
                        lemma_views_of_vec(*y, y@.len() as int);
                    }
                    if x.len() != y.len() {
                        return false;
                    }
                    let n = x.len();
                    let mut i: usize = 0;
                    while i < n
                        invariant
                            n == x@.len() && n == y@.len(),
                            0 <= i <= n,
                            a@ == ValView::Arr(xs) && b@ == ValView::Arr(ys),
                            xs == views_of_vec(*x, x@.len() as int),
                            ys == views_of_vec(*y, y@.len() as int),
                            xs.len() == n && ys.len() == n,
                            forall|j: int| 0 <= j < n
                                ==> xs[j] == view_of(x@[j]) && ys[j] == view_of(y@[j]),
                            forall|j: int| 0 <= j < i ==> val_equal(#[trigger] xs[j], ys[j]),
                        decreases n - i,
                    {
                        proof {
                            assert(decreases_to!(*a => *x));
                            assert(decreases_to!(*x => x@[i as int]));
                        }
                        if !value_eq(&x[i], &y[i]) {
                            proof {
                                assert(xs[i as int] == view_of(x@[i as int]));
                                assert(ys[i as int] == view_of(y@[i as int]));
                                assert(!val_equal(xs[i as int], ys[i as int]));
                                lemma_arr_equal(xs, ys, n as int);
                            }
                            return false;
                        }
                        i = i + 1;
                    }
                    proof {
                        lemma_arr_equal(xs, ys, n as int);
                    }
                    true
                }
                _ => false,
            }
        }
        Val::Obj(x) => {
            match b {
                Val::Obj(y) => {
                    let ghost xs = entry_views_of_vec(*x, x@.len() as int);
                    let ghost ys = entry_views_of_vec(*y, y@.len() as int);
                    proof {
                        lemma_entry_views_of_vec(*x, x@.len() as int);
                        lemma_entry_views_of_vec(*y, y@.len() as int);
                    }
                    if x.len() != y.len() {
                        return false;
                    }
                    let n = x.len();
                    let mut i: usize = 0;
                    while i < n
                        invariant
                            n == x@.len() && n == y@.len(),
                            0 <= i <= n,
                            a@ == ValView::Obj(xs) && b@ == ValView::Obj(ys),
                            xs == entry_views_of_vec(*x, x@.len() as int),
                            ys == entry_views_of_vec(*y, y@.len() as int),
                            xs.len() == n && ys.len() == n,
                            forall|j: int| 0 <= j < n
                                ==> xs[j] == (x@[j].0@, view_of(x@[j].1))
                                    && ys[j] == (y@[j].0@, view_of(y@[j].1)),
                            forall|j: int| 0 <= j < i ==> match assoc(ys, #[trigger] xs[j].0) {
                                Some(w) => val_equal(xs[j].1, w),
                                None => false,
                            },
                        decreases n - i,
                    {
                        proof {
                            assert(decreases_to!(*a => *x));
                            assert(decreases_to!(*x => x@[i as int]));
                            assert(decreases_to!(x@[i as int] => x@[i as int].1));
                        }
                        proof {
                            assert(xs[i as int] == (x@[i as int].0@, view_of(x@[i as int].1)));
                        }
                        let found = entries_get(y, &x[i].0);
                        match found {
                            Some(w) => {
                                if !value_eq(&x[i].1, w) {
                                    proof {
                                        assert(assoc(ys, xs[i as int].0) == Some(w@));
                                        lemma_obj_covered(xs, ys, n as int);
                                    }
                                    return false;
                                }
                            }
                            None => {
                                proof {
                                    assert(assoc(ys, xs[i as int].0) is None);
                                    lemma_obj_covered(xs, ys, n as int);
                                }
                                return false;
                            }
                        }
                        i = i + 1;
                    }
                    proof {
                        lemma_obj_covered(xs, ys, n as int);
                    }
                    true
                }
                _ => false,
            }
        }
    }
}


pub open spec fn digit_char(d: int) -> char {
    ((48 + d) as u8) as char
}

pub open spec fn dec_digits(n: nat) -> Seq<char>
    decreases n,
{
    if n < 10 {
        seq![digit_char(n as int)]
    } else {
        dec_digits(n / 10) + seq![digit_char((n % 10) as int)]
    }
}

/// The canonical decimal form of an integer.
pub open spec fn int_decimal(i: int) -> Seq<char> {
    if i < 0 {
        seq!['-'] + dec_digits((-i) as nat)
    } else {
        dec_digits(i as nat)
    }
}

pub open spec fn hex_char(d: int) -> char {
    if d < 10 {
        digit_char(d)
    } else {
        ((87 + d) as u8) as char
    }
}

/// How one character is written inside a JSON string literal.
pub open spec fn escape_char(c: char) -> Seq<char> {
    if c == '"' {
        seq!['\\', '"']
    } else if c == '\\' {
        seq!['\\', '\\']
    } else if c == '\u{8}' {
        seq!['\\', 'b']
    } else if c == '\t' {
        seq!['\\', 't']
    } else if c == '\n' {
        seq!['\\', 'n']
    } else if c == '\u{c}' {
        seq!['\\', 'f']
    } else if c == '\r' {
        seq!['\\', 'r']
    } else if (c as int) < 32 {
        seq!['\\', 'u', '0', '0', hex_char(c as int / 16), hex_char(c as int % 16)]
    } else {
        seq![c]
    }
}

pub open spec fn escaped_prefix(s: Seq<char>, n: int) -> Seq<char>
    decreases n,
{
    if n <= 0 || n > s.len() {
        Seq::empty()
    } else {
        escaped_prefix(s, n - 1) + escape_char(s[n - 1])
    }
}

pub open spec fn quoted(s: Seq<char>) -> Seq<char> {
    seq!['"'] + escaped_prefix(s, s.len() as int) + seq!['"']
}

/// The compact JSON text of a value.
pub open spec fn json_text(v: ValView) -> Seq<char>
    decreases v, 0int,
{
    match v {
        ValView::Null => "null"@,
        ValView::Bool(b) => if b { "true"@ } else { "false"@ },
        ValView::Int(i) => int_decimal(i),
        ValView::Num(s) => s,
        ValView::Str(s) => quoted(s),
        ValView::Arr(items) => seq!['['] + json_items(items, items.len() as int) + seq![']'],
        ValView::Obj(entries) => seq!['{'] + json_entries(entries, entries.len() as int) + seq!['}'],
    }
}

pub open spec fn json_items(items: Seq<ValView>, n: int) -> Seq<char>
    decreases items, n,
{
    if n <= 0 || n > items.len() {
        Seq::empty()
    } else if n == 1 {
        json_text(items[0])
    } else {
        json_items(items, n - 1) + seq![','] + json_text(items[n - 1])
    }
}

pub open spec fn json_entries(entries: Seq<(Seq<char>, ValView)>, n: int) -> Seq<char>
    decreases entries, n,
{
    if n <= 0 || n > entries.len() {
        Seq::empty()
    } else if n == 1 {
        quoted(entries[0].0) + seq![':'] + json_text(entries[0].1)
    } else {
        json_entries(entries, n - 1) + seq![','] + quoted(entries[n - 1].0) + seq![':']
            + json_text(entries[n - 1].1)
    }
}

/// How a value reads when it is spliced into a string: a string keeps its
/// characters, everything else uses its JSON text.
pub open spec fn string_form(v: ValView) -> Seq<char> {
    match v {
        ValView::Str(s) => s,
        _ => json_text(v),
    }
}

pub fn push_dec_u64(n: u64, out: &mut Vec<char>)
    ensures
        final(out)@ == old(out)@ + dec_digits(n as nat),
    decreases n,
{
    if n < 10 {
        let c = (48 + n as u8) as char;
        out.push(c);
        proof {
            assert(out@ =~= old(out)@ + dec_digits(n as nat));
        }
    } else {
        push_dec_u64(n / 10, out);
        let c = (48 + (n % 10) as u8) as char;
        out.push(c);
        proof {
            assert(out@ =~= old(out)@ + dec_digits(n as nat));
        }
    }
}

pub fn push_dec_i64(n: i64, out: &mut Vec<char>)
    ensures
        final(out)@ == old(out)@ + int_decimal(n as int),
{
    if n < 0 {
        out.push('-');
        let m: u64 = (-(n as i128)) as u64;
        proof {
            assert(m as int == -(n as int));
        }
        push_dec_u64(m, out);
        proof {
            assert(out@ =~= old(out)@ + int_decimal(n as int));
        }
    } else {
        push_dec_u64(n as u64, out);
    }
}

/// Append every character of a string slice.
pub fn push_str_chars(s: &str, out: &mut Vec<char>)
    ensures
        final(out)@ == old(out)@ + s@,
{
    let n = s.unicode_len();
    let mut i: usize = 0;
    while i < n
        invariant
            n == s@.len(),
            0 <= i <= n,
            out@ == old(out)@ + s@.take(i as int),
        decreases n - i,
    {
        let c = s.get_char(i);
        out.push(c);
        proof {
            assert(out@ =~= old(out)@ + s@.take(i + 1));
        }
        i = i + 1;
    }
    proof {
        assert(s@.take(n as int) =~= s@);
    }
}

fn push_escaped(c: char, out: &mut Vec<char>)
    ensures
        final(out)@ == old(out)@ + escape_char(c),
{
    if c == '"' {
        out.push('\\');
        out.push('"');
    } else if c == '\\' {
        out.push('\\');
        out.push('\\');
    } else if c == '\u{8}' {
        out.push('\\');
        out.push('b');
    } else if c == '\t' {
        out.push('\\');
        out.push('t');
    } else if c == '\n' {
        out.push('\\');
        out.push('n');
    } else if c == '\u{c}' {
        out.push('\\');
        out.push('f');
    } else if c == '\r' {
        out.push('\\');
        out.push('r');
    } else if (c as u32) < 32 {
        out.push('\\');
        out.push('u');
        out.push('0');
        out.push('0');
        let hi = (c as u32) / 16;
        let lo = (c as u32) % 16;
        let hc = if hi < 10 { (48 + hi as u8) as char } else { (87 + hi as u8) as char };
        let lc = if lo < 10 { (48 + lo as u8) as char } else { (87 + lo as u8) as char };
        out.push(hc);
        out.push(lc);
    } else {
        out.push(c);
    }
    proof {
        assert(out@ =~= old(out)@ + escape_char(c));
    }
}

fn push_quoted(s: &String, out: &mut Vec<char>)
    ensures
        final(out)@ == old(out)@ + quoted(s@),
{
    out.push('"');
    let q = s.as_str();
    let n = q.unicode_len();
    let mut i: usize = 0;
    while i < n
        invariant
            n == s@.len(),
            q@ == s@,
            0 <= i <= n,
            out@ == old(out)@ + seq!['"'] + escaped_prefix(s@, i as int),
        decreases n - i,
    {
        let c = q.get_char(i);
        push_escaped(c, out);
        proof {
            assert(out@ =~= old(out)@ + seq!['"'] + escaped_prefix(s@, i + 1));
        }
        i = i + 1;
    }
    out.push('"');
    proof {
        assert(out@ =~= old(out)@ + quoted(s@));
    }
}

/// Append the compact JSON text of a value.
#[verifier::loop_isolation(false)]
#[verifier::rlimit(60)]
pub fn push_json(v: &Val, out: &mut Vec<char>)
    ensures
        final(out)@ == old(out)@ + json_text(v@),
    decreases v,
{
    match v {
        Val::Null => {
            push_str_chars("null", out);
        }
        Val::Bool(b) => {
            if *b {
                push_str_chars("true", out);
            } else {
                push_str_chars("false", out);
            }
        }
        Val::Int(i) => {
            push_dec_i64(*i, out);
        }
        Val::Num(s) => {
            push_str_chars(s.as_str(), out);
        }
        Val::Str(s) => {
            push_quoted(s, out);
        }
        Val::Arr(x) => {
            let ghost xs = views_of_vec(*x, x@.len() as int);
            proof {
                lemma_views_of_vec(*x, x@.len() as int);
            }
            out.push('[');
            let n = x.len();
            let mut i: usize = 0;
            while i < n
                invariant
                    0 <= i <= n,
                    out@ == old(out)@ + seq!['['] + json_items(xs, i as int),
                decreases n - i,
            {
                if i > 0 {
                    out.push(',');
                }
                proof {
                    assert(decreases_to!(*v => *x));
                    assert(decreases_to!(*x => x@[i as int]));
                }
                push_json(&x[i], out);
                proof {
                    assert(xs[i as int] == view_of(x@[i as int]));
                    assert(out@ =~= old(out)@ + seq!['['] + json_items(xs, i + 1));
                }
                i = i + 1;
            }
            out.push(']');
            proof {
                assert(out@ =~= old(out)@ + json_text(v@));
            }
        }
        Val::Obj(x) => {
            let ghost xs = entry_views_of_vec(*x, x@.len() as int);
            proof {
                lemma_entry_views_of_vec(*x, x@.len() as int);
            }
            out.push('{');
            let n = x.len();
            let mut i: usize = 0;
            while i < n
                invariant
                    0 <= i <= n,
                    out@ == old(out)@ + seq!['{'] + json_entries(xs, i as int),
                decreases n - i,
            {
                if i > 0 {
                    out.push(',');
                }
                push_quoted(&x[i].0, out);
                out.push(':');
                proof {
                    assert(decreases_to!(*v => *x));
                    assert(decreases_to!(*x => x@[i as int]));
                    assert(decreases_to!(x@[i as int] => x@[i as int].1));
                }
                push_json(&x[i].1, out);
                proof {
                    assert(xs[i as int] == (x@[i as int].0@, view_of(x@[i as int].1)));
                    assert(out@ =~= old(out)@ + seq!['{'] + json_entries(xs, i + 1));
                }
                i = i + 1;
            }
            out.push('}');
            proof {
                assert(out@ =~= old(out)@ + json_text(v@));
            }
        }
    }
}

/// Append the string form of a value: a string keeps its characters,
/// everything else uses its JSON text.
pub fn push_string_form(v: &Val, out: &mut Vec<char>)
    ensures
        final(out)@ == old(out)@ + string_form(v@),
{
    match v {
        Val::Str(s) => {
            push_str_chars(s.as_str(), out);
        }
        _ => {
            push_json(v, out);
        }
    }
}

/// Copy a value, field by field.
#[verifier::loop_isolation(false)]
pub fn deep_copy(v: &Val) -> (r: Val)
    ensures
        r@ == v@,
    decreases v,
{
    match v {
        Val::Null => Val::Null,
        Val::Bool(b) => Val::Bool(*b),
        Val::Int(i) => Val::Int(*i),
        Val::Num(s) => Val::Num(s.clone()),
        Val::Str(s) => Val::Str(s.clone()),
        Val::Arr(x) => {
            let mut out: Vec<Val> = Vec::new();
            let n = x.len();
            let mut i: usize = 0;
            while i < n
                invariant
                    0 <= i <= n,
                    out@.len() == i,
                    forall|j: int| 0 <= j < i ==> view_of(#[trigger] out@[j]) == view_of(x@[j]),
                decreases n - i,
            {
                proof {
                    assert(decreases_to!(*v => *x));
                    assert(decreases_to!(*x => x@[i as int]));
                }
                let c = deep_copy(&x[i]);
                out.push(c);
                i = i + 1;
            }
            proof {
                lemma_views_of_vec(*x, x@.len() as int);
                lemma_views_of_vec(out, out@.len() as int);
                assert(views_of_vec(out, out@.len() as int) =~= views_of_vec(*x, x@.len() as int));
            }
            Val::Arr(out)
        }
        Val::Obj(x) => {
            let mut out: Vec<(String, Val)> = Vec::new();
            let n = x.len();
            let mut i: usize = 0;
            while i < n
                invariant
                    0 <= i <= n,
                    out@.len() == i,
                    forall|j: int| 0 <= j < i ==> (#[trigger] out@[j]).0@ == x@[j].0@
                        && view_of(out@[j].1) == view_of(x@[j].1),
                decreases n - i,
            {
                proof {
                    assert(decreases_to!(*v => *x));
                    assert(decreases_to!(*x => x@[i as int]));
                    assert(decreases_to!(x@[i as int] => x@[i as int].1));
                }
                let k = x[i].0.clone();
                let c = deep_copy(&x[i].1);
                out.push((k, c));
                i = i + 1;
            }
            proof {
                lemma_entry_views_of_vec(*x, x@.len() as int);
                lemma_entry_views_of_vec(out, out@.len() as int);
                assert(entry_views_of_vec(out, out@.len() as int)
                    =~= entry_views_of_vec(*x, x@.len() as int));
            }
            Val::Obj(out)
        }
    }
}

} // verus!
