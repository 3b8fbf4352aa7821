use vstd::prelude::*;

use crate::dict::{spec_insert_all, Dict};
use crate::errors::{Error, ErrorView};
use crate::model::{spec_is_reusable, Workflow, WorkflowView};
use crate::strutil::str_to_chars;
use crate::value::assoc;

verus! {

/// The marker that makes a `uses` value a cross-workflow reference.
pub open spec fn file_ref_prefix() -> Seq<char> {
    seq!['@', 'f', 'i', 'l', 'e', ':']
}

pub open spec fn spec_is_file_ref(s: Seq<char>) -> bool {
    s.len() >= 6 && s.subrange(0, 6) == file_ref_prefix()
}

/// The registry key named by a file reference; the marker alone, with
/// nothing after it, names none.
pub open spec fn spec_parse_file_ref(s: Seq<char>) -> Option<Seq<char>> {
    if spec_is_file_ref(s) && s.len() > 6 {
        Some(s.skip(6))
    } else {
        None
    }
}

/// Does the `uses` value name a workflow file?
pub fn is_file_ref(uses: &str) -> (r: bool)
    ensures
        r == spec_is_file_ref(uses@),
{
    let chars = str_to_chars(uses);
    if chars.len() < 6 {
        return false;
    }
    let r = chars[0] == '@' && chars[1] == 'f' && chars[2] == 'i' && chars[3] == 'l'
        && chars[4] == 'e' && chars[5] == ':';
    proof {
        if r {
            assert(uses@.subrange(0, 6) =~= file_ref_prefix());
        } else {
            assert(uses@.subrange(0, 6) != file_ref_prefix()) by {
                if uses@.subrange(0, 6) == file_ref_prefix() {
                    assert(uses@.subrange(0, 6)[0] == '@');
                    assert(uses@.subrange(0, 6)[1] == 'f');
                    assert(uses@.subrange(0, 6)[2] == 'i');
                    assert(uses@.subrange(0, 6)[3] == 'l');
                    assert(uses@.subrange(0, 6)[4] == 'e');
                    assert(uses@.subrange(0, 6)[5] == ':');
                }
            }
        }
    }
    r
}

/// Strip the file-reference marker, or reject the value; a reference
/// with an empty path is rejected too.
pub fn parse_file_ref(uses: &str) -> (r: Result<&str, Error>)
    ensures
        spec_parse_file_ref(uses@) matches Some(p) ==> (r matches Ok(s) && s@ == p),
        spec_parse_file_ref(uses@) is None ==> (r matches Err(e) && e@
            == ErrorView::InvalidFileRef { uses: uses@ }),
{
    if !is_file_ref(uses) {
        return Err(Error::InvalidFileRef { uses: uses.to_owned() });
    }
    let n = uses.unicode_len();
    if n == 6 {
        return Err(Error::InvalidFileRef { uses: uses.to_owned() });
    }
    let rest = uses.substring_char(6, n);
    proof {
        assert(rest@ =~= uses@.skip(6));
    }
    Ok(rest)
}

/// Prefixing any non-empty path with the file-reference marker and
/// parsing it back yields the path again; anything without the marker,
/// and the bare marker itself, is rejected.
pub proof fn lemma_file_ref_round_trip(s: Seq<char>)
    requires
        s.len() > 0,
    ensures
        spec_is_file_ref(file_ref_prefix() + s),
        spec_parse_file_ref(file_ref_prefix() + s) == Some(s),
        spec_parse_file_ref(file_ref_prefix()) is None,
{
    assert((file_ref_prefix() + s).subrange(0, 6) =~= file_ref_prefix());
    assert((file_ref_prefix() + s).skip(6) =~= s);
}

/// The parsed workflows of a directory, keyed by relative path.
#[derive(Debug)]
pub struct WorkflowRegistry {
    pub base_path: String,
    pub workflows: Dict<Workflow>,
}

pub struct WorkflowRegistryView {
    pub base_path: Seq<char>,
    pub workflows: Seq<(Seq<char>, WorkflowView)>,
}

impl View for WorkflowRegistry {
    type V = WorkflowRegistryView;

    open spec fn view(&self) -> WorkflowRegistryView {
        WorkflowRegistryView { base_path: self.base_path@, workflows: self.workflows@ }
    }
}

/// The entries whose workflow the given keep-test accepts, in order.
pub open spec fn runnable_seq(ws: Seq<(Seq<char>, WorkflowView)>, n: int) -> Seq<(Seq<char>, WorkflowView)>
    decreases n,
{
    if n <= 0 || n > ws.len() {
        Seq::empty()
    } else if !spec_is_reusable(ws[n - 1].1) {
        runnable_seq(ws, n - 1).push(ws[n - 1])
    } else {
        runnable_seq(ws, n - 1)
    }
}

pub open spec fn reusable_seq(ws: Seq<(Seq<char>, WorkflowView)>, n: int) -> Seq<(Seq<char>, WorkflowView)>
    decreases n,
{
    if n <= 0 || n > ws.len() {
        Seq::empty()
    } else if spec_is_reusable(ws[n - 1].1) {
        reusable_seq(ws, n - 1).push(ws[n - 1])
    } else {
        reusable_seq(ws, n - 1)
    }
}

impl WorkflowRegistry {
    /// Build the catalog from parsed workflows; a later entry under the same
    /// relative path replaces the earlier one.
    pub fn from_entries(base_path: String, parsed: Vec<(String, Workflow)>) -> (r: Self)
        ensures
            r@.base_path == base_path@,
            r@.workflows == spec_insert_all(
                Seq::empty(),
                Seq::new(parsed@.len(), |i: int| (parsed@[i].0@, parsed@[i].1@)),
                parsed@.len() as int,
            ),
            r.workflows.wf(),
    {
        let ghost orig = Seq::new(parsed@.len(), |i: int| (parsed@[i].0@, parsed@[i].1@));
        let mut workflows: Dict<Workflow> = Dict::new();
        let mut parsed = parsed;
        let n = parsed.len();
        let mut i: usize = 0;
        while i < n
            invariant
                0 <= i <= n,
                n == orig.len(),
                parsed@.len() == n - i,
                forall|j: int| 0 <= j < n - i
                    ==> (#[trigger] parsed@[j].0@, parsed@[j].1@) == orig[j + i],
                workflows@ == spec_insert_all(Seq::empty(), orig, i as int),
                workflows.wf(),
            decreases n - i,
        {
            let ghost p0 = parsed@;
            let (k, w) = parsed.remove(0);
            proof {
                p0.remove_ensures(0);
                assert((k@, w@) == orig[i as int]);
            }
            workflows.insert(k, w);
            i = i + 1;
        }
        WorkflowRegistry { base_path, workflows }
    }

    pub fn get(&self, path: &String) -> (r: Option<&Workflow>)
        ensures
            match r {
                Some(w) => assoc(self@.workflows, path@) == Some(w@),
                None => assoc(self@.workflows, path@) is None,
            },
    {
        self.workflows.get(path)
    }

    pub fn get_by_str(&self, path: &String) -> (r: Option<&Workflow>)
        ensures
            match r {
                Some(w) => assoc(self@.workflows, path@) == Some(w@),
                None => assoc(self@.workflows, path@) is None,
            },
    {
        self.workflows.get(path)
    }

    pub fn is_reusable(&self, path: &String) -> (r: bool)
        ensures
            r == match assoc(self@.workflows, path@) {
                Some(w) => spec_is_reusable(w),
                None => false,
            },
    {
        match self.workflows.get(path) {
            Some(w) => w.is_reusable(),
            None => false,
        }
    }

    /// Follow a `@file:` reference to the workflow it names.
    pub fn resolve_file_ref(&self, uses: &str) -> (r: Result<&Workflow, Error>)
        ensures
            spec_parse_file_ref(uses@) is None ==> (r matches Err(e) && e@
                == ErrorView::InvalidFileRef { uses: uses@ }),
            spec_parse_file_ref(uses@) matches Some(p) ==> match assoc(self@.workflows, p) {
                Some(w) => (r matches Ok(res) && res@ == w),
                None => (r matches Err(e) && e@ == ErrorView::WorkflowNotFound { path: p }),
            },
    {
        let path = match parse_file_ref(uses) {
            Ok(p) => p,
            Err(e) => {
                return Err(e);
            }
        };
        let key = path.to_owned();
        match self.workflows.get(&key) {
            Some(w) => Ok(w),
            None => Err(Error::WorkflowNotFound { path: key }),
        }
    }

    /// The workflows that run on their own, with their paths.
    pub fn runnable_workflows(&self) -> (r: Vec<(&String, &Workflow)>)
        ensures
            Seq::new(r@.len(), |i: int| ((#[trigger] r@[i].0)@, r@[i].1@))
                == runnable_seq(self@.workflows, self@.workflows.len() as int),
    {
        let mut r: Vec<(&String, &Workflow)> = Vec::new();
        let n = self.workflows.len();
        let mut i: usize = 0;
        while i < n
            invariant
                0 <= i <= n,
                n == self@.workflows.len(),
                Seq::new(r@.len(), |j: int| ((#[trigger] r@[j].0)@, r@[j].1@))
                    =~= runnable_seq(self@.workflows, i as int),
            decreases n - i,
        {
            let w = self.workflows.val_at(i);
            if !w.is_reusable() {
                r.push((self.workflows.key_at(i), w));
            }
            proof {
                assert(Seq::new(r@.len(), |j: int| ((#[trigger] r@[j].0)@, r@[j].1@))
                    =~= runnable_seq(self@.workflows, i + 1));
            }
            i = i + 1;
        }
        r
    }

    /// The workflows that only serve `@file:` references, with their paths.
    pub fn reusable_workflows(&self) -> (r: Vec<(&String, &Workflow)>)
        ensures
            Seq::new(r@.len(), |i: int| ((#[trigger] r@[i].0)@, r@[i].1@))
                == reusable_seq(self@.workflows, self@.workflows.len() as int),
    {
        let mut r: Vec<(&String, &Workflow)> = Vec::new();
        let n = self.workflows.len();
        let mut i: usize = 0;
        while i < n
            invariant
                0 <= i <= n,
                n == self@.workflows.len(),
                Seq::new(r@.len(), |j: int| ((#[trigger] r@[j].0)@, r@[j].1@))
                    =~= reusable_seq(self@.workflows, i as int),
            decreases n - i,
        {
            let w = self.workflows.val_at(i);
            if w.is_reusable() {
                r.push((self.workflows.key_at(i), w));
            }
            proof {
                assert(Seq::new(r@.len(), |j: int| ((#[trigger] r@[j].0)@, r@[j].1@))
                    =~= reusable_seq(self@.workflows, i + 1));
            }
            i = i + 1;
        }
        r
    }

    /// Every workflow with its path, in catalog order.
    pub fn all_workflows(&self) -> (r: Vec<(&String, &Workflow)>)
        ensures
            r@.len() == self@.workflows.len(),
            forall|i: int| 0 <= i < r@.len()
                ==> ((#[trigger] r@[i].0)@, r@[i].1@) == self@.workflows[i],
    {
        let mut r: Vec<(&String, &Workflow)> = Vec::new();
        let n = self.workflows.len();
        let mut i: usize = 0;
        while i < n
            invariant
                0 <= i <= n,
                n == self@.workflows.len(),
                r@.len() == i,
                forall|j: int| 0 <= j < i
                    ==> ((#[trigger] r@[j].0)@, r@[j].1@) == self@.workflows[j],
            decreases n - i,
        {
            r.push((self.workflows.key_at(i), self.workflows.val_at(i)));
            i = i + 1;
        }
        r
    }

    pub fn base_path(&self) -> (r: &String)
        ensures
            r@ == self@.base_path,
    {
        &self.base_path
    }

    pub fn workflow_count(&self) -> (r: usize)
        ensures
            r == self@.workflows.len(),
    {
        self.workflows.len()
    }

    pub fn runnable_count(&self) -> (r: usize)
        ensures
            r == runnable_seq(self@.workflows, self@.workflows.len() as int).len(),
    {
        self.runnable_workflows().len()
    }

    pub fn reusable_count(&self) -> (r: usize)
        ensures
            r == reusable_seq(self@.workflows, self@.workflows.len() as int).len(),
    {
        self.reusable_workflows().len()
    }
}

} // verus!
