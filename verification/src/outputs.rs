use vstd::prelude::*;

use crate::dict::{spec_insert, Dict};
use crate::strutil::chars_to_string;
use crate::value::{
    assoc, entry_views_of_vec, lemma_entry_views_of_vec, push_string_form, string_form, Val,
    ValView,
};

verus! {

/// What one step hands back: named values.
#[derive(Debug)]
pub struct StepOutputs {
    pub values: Dict<Val>,
}

impl View for StepOutputs {
    type V = Seq<(Seq<char>, ValView)>;

    open spec fn view(&self) -> Seq<(Seq<char>, ValView)> {
        self.values@
    }
}

impl DeepView for StepOutputs {
    type V = Seq<(Seq<char>, ValView)>;

    open spec fn deep_view(&self) -> Seq<(Seq<char>, ValView)> {
        self.view()
    }
}

/// What a whole job publishes through its declared outputs.
#[derive(Debug)]
pub struct JobOutputs {
    pub outputs: Dict<Val>,
}

impl View for JobOutputs {
    type V = Seq<(Seq<char>, ValView)>;

    open spec fn view(&self) -> Seq<(Seq<char>, ValView)> {
        self.outputs@
    }
}

impl DeepView for JobOutputs {
    type V = Seq<(Seq<char>, ValView)>;

    open spec fn deep_view(&self) -> Seq<(Seq<char>, ValView)> {
        self.view()
    }
}

/// Folding a sequence of bindings into a map, later bindings replacing
/// earlier ones under the same key.
pub open spec fn insert_all(
    s: Seq<(Seq<char>, ValView)>,
    entries: Seq<(Seq<char>, ValView)>,
    n: int,
) -> Seq<(Seq<char>, ValView)>
    decreases n,
{
    if n <= 0 || n > entries.len() {
        s
    } else {
        spec_insert(insert_all(s, entries, n - 1), entries[n - 1].0, entries[n - 1].1)
    }
}

impl StepOutputs {
    pub fn new() -> (r: Self)
        ensures
            r@ == Seq::<(Seq<char>, ValView)>::empty(),
            r.values.wf(),
    {
        StepOutputs { values: Dict::new() }
    }

    /// Keep the fields of an object value; any other value gives no outputs.
    pub fn from_value(value: Val) -> (r: Self)
        ensures
            r@ == (match value@ {
                ValView::Obj(e) => insert_all(Seq::empty(), e, e.len() as int),
                _ => Seq::<(Seq<char>, ValView)>::empty(),
            }),
            r.values.wf(),
    {
        match value {
            Val::Obj(entries) => {
                let ghost es = entry_views_of_vec(entries, entries@.len() as int);
                proof {
                    lemma_entry_views_of_vec(entries, entries@.len() as int);
                }
                let mut out = StepOutputs::new();
                let n = entries.len();
                let mut i: usize = 0;
                while i < n
                    invariant
                        0 <= i <= n,
                        n == entries@.len(),
                        es == entry_views_of_vec(entries, entries@.len() as int),
                        es.len() == n,
                        forall|j: int| 0 <= j < n
                            ==> es[j] == (entries@[j].0@, crate::value::view_of(entries@[j].1)),
                        out@ == insert_all(Seq::empty(), es, i as int),
                        out.values.wf(),
                    decreases n - i,
                {
                    let k = entries[i].0.clone();
                    let v = crate::value::deep_copy(&entries[i].1);
                    out.values.insert(k, v);
                    i = i + 1;
                }
                out
            }
            _ => StepOutputs::new(),
        }
    }

    pub fn get(&self, key: &String) -> (r: Option<&Val>)
        ensures
            match r {
                Some(v) => assoc(self@, key@) == Some(v@),
                None => assoc(self@, key@) is None,
            },
    {
        self.values.get(key)
    }

    /// The stored value under the key, rendered as a string.
    pub fn get_string(&self, key: &String) -> (r: Option<String>)
        ensures
            r matches Some(s) ==> assoc(self@, key@) matches Some(v) && s@ == string_form(v),
            r is None ==> assoc(self@, key@) is None,
    {
        match self.values.get(key) {
            Some(v) => {
                let mut out: Vec<char> = Vec::new();
                push_string_form(v, &mut out);
                Some(chars_to_string(&out))
            }
            None => None,
        }
    }

    pub fn insert(&mut self, key: String, value: Val)
        ensures
            final(self)@ == spec_insert(old(self)@, key@, value@),
            old(self).values.wf() ==> final(self).values.wf(),
    {
        self.values.insert(key, value);
    }

    pub fn is_empty(&self) -> (r: bool)
        ensures
            r == (self@.len() == 0),
    {
        self.values.is_empty()
    }

    /// The outputs as one object value.
    pub fn to_value(&self) -> (r: Val)
        ensures
            r@ == ValView::Obj(self@),
    {
        dict_to_obj(&self.values)
    }

    pub fn dup(&self) -> (r: Self)
        ensures
            r@ == self@,
    {
        StepOutputs { values: dup_value_dict(&self.values) }
    }
}

impl JobOutputs {
    pub fn new() -> (r: Self)
        ensures
            r@ == Seq::<(Seq<char>, ValView)>::empty(),
            r.outputs.wf(),
    {
        JobOutputs { outputs: Dict::new() }
    }

    pub fn get(&self, key: &String) -> (r: Option<&Val>)
        ensures
            match r {
                Some(v) => assoc(self@, key@) == Some(v@),
                None => assoc(self@, key@) is None,
            },
    {
        self.outputs.get(key)
    }

    /// The stored value under the key, rendered as a string.
    pub fn get_string(&self, key: &String) -> (r: Option<String>)
        ensures
            r matches Some(s) ==> assoc(self@, key@) matches Some(v) && s@ == string_form(v),
            r is None ==> assoc(self@, key@) is None,
    {
        match self.outputs.get(key) {
            Some(v) => {
                let mut out: Vec<char> = Vec::new();
                push_string_form(v, &mut out);
                Some(chars_to_string(&out))
            }
            None => None,
        }
    }

    pub fn insert(&mut self, key: String, value: Val)
        ensures
            final(self)@ == spec_insert(old(self)@, key@, value@),
            old(self).outputs.wf() ==> final(self).outputs.wf(),
    {
        self.outputs.insert(key, value);
    }

    /// The outputs as one object value.
    pub fn to_value(&self) -> (r: Val)
        ensures
            r@ == ValView::Obj(self@),
    {
        dict_to_obj(&self.outputs)
    }

    pub fn dup(&self) -> (r: Self)
        ensures
            r@ == self@,
    {
        JobOutputs { outputs: dup_value_dict(&self.outputs) }
    }
}

/// Copy a value dictionary entry by entry.
pub fn dup_value_dict(d: &Dict<Val>) -> (r: Dict<Val>)
    ensures
        r@ == d@,
{
    let mut entries: Vec<(String, Val)> = Vec::new();
    let n = d.len();
    let mut i: usize = 0;
    while i < n
        invariant
            0 <= i <= n,
            n == d@.len(),
            entries@.len() == i,
            forall|j: int| 0 <= j < i
                ==> ((#[trigger] entries@[j]).0@, entries@[j].1@) == d@[j],
        decreases n - i,
    {
        let k = d.key_at(i).clone();
        let v = crate::value::deep_copy(d.val_at(i));
        entries.push((k, v));
        i = i + 1;
    }
    let r = Dict { entries };
    proof {
        assert(r@ =~= d@);
    }
    r
}

/// Render a value dictionary as one object value.
pub fn dict_to_obj(d: &Dict<Val>) -> (r: Val)
    ensures
        r@ == ValView::Obj(d@),
{
    let mut entries: Vec<(String, Val)> = Vec::new();
    let n = d.len();
    let mut i: usize = 0;
    while i < n
        invariant
            0 <= i <= n,
            n == d@.len(),
            entries@.len() == i,
            forall|j: int| 0 <= j < i
                ==> ((#[trigger] entries@[j]).0@, entries@[j].1@) == d@[j],
        decreases n - i,
    {
        let k = d.key_at(i).clone();
        let v = crate::value::deep_copy(d.val_at(i));
        entries.push((k, v));
        i = i + 1;
    }
    let ghost evec = entries;
    let r = Val::Obj(entries);
    proof {
        lemma_entry_views_of_vec(evec, evec@.len() as int);
        assert(entry_views_of_vec(evec, evec@.len() as int) =~= d@);
    }
    r
}

/// A placeholder service endpoint made visible to expressions.
#[derive(Debug)]
pub struct ContainerInfo {
    pub url: String,
    pub host: String,
    pub port: u16,
}

pub struct ContainerInfoView {
    pub url: Seq<char>,
    pub host: Seq<char>,
    pub port: u16,
}

impl View for ContainerInfo {
    type V = ContainerInfoView;

    open spec fn view(&self) -> ContainerInfoView {
        ContainerInfoView { url: self.url@, host: self.host@, port: self.port }
    }
}

impl DeepView for ContainerInfo {
    type V = ContainerInfoView;

    open spec fn deep_view(&self) -> ContainerInfoView {
        self.view()
    }
}

impl ContainerInfo {
    pub fn dup(&self) -> (r: Self)
        ensures
            r@ == self@,
    {
        ContainerInfo { url: self.url.clone(), host: self.host.clone(), port: self.port }
    }
}

} // verus!
