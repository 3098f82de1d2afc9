use vstd::prelude::*;
use vstd::string::StringExecFns;
use crate::path::{dir_join, dir_join_all, join_dir};

verus! {

broadcast use vstd::std_specs::vec::axiom_vec_index_decreases,
    vstd::std_specs::vec::axiom_vec_decreases_to_view,
    vstd::seq::axiom_seq_subrange_decreases;

/// One node of the declared hierarchy: the sources declared on it, and the
/// named groups below it.
pub struct Entry {
    pub torrents: Vec<String>,
    pub children: Option<Subdirectories>,
}

/// The named groups below an entry, in the order in which they are walked.
pub struct Subdirectories(pub Vec<(String, Entry)>);

/// One unit of work: a source and the directory it is placed in.
#[derive(Clone, Debug, PartialEq, Eq)]
pub struct Schema {
    pub filename: String,
    pub download_dir: String,
}

/// A job as a pair of the source and the target directory.
pub type JobView = (Seq<char>, Seq<char>);

impl View for Schema {
    type V = JobView;

    open spec fn view(&self) -> JobView {
        (self.filename@, self.download_dir@)
    }
}

/// The jobs that a list of schemas stands for.
pub open spec fn jobs_view(s: Seq<Schema>) -> Seq<JobView> {
    s.map_values(|j: Schema| j@)
}

/// The jobs for the sources declared directly on one entry, all in `dir`.
pub open spec fn direct_jobs(torrents: Seq<String>, dir: Seq<char>) -> Seq<JobView> {
    torrents.map_values(|t: String| (t@, dir))
}

/// The jobs of an entry whose directory is `dir`: first its own sources,
/// then those of each group below it, in order.
pub open spec fn entry_jobs(e: Entry, dir: Seq<char>) -> Seq<JobView>
    decreases e,
{
    direct_jobs(e.torrents@, dir) + match e.children {
        Some(c) => children_jobs(c.0@, dir),
        None => Seq::empty(),
    }
}

/// The jobs of the named groups `cs`, each placed below `dir` under its name.
pub open spec fn children_jobs(cs: Seq<(String, Entry)>, dir: Seq<char>) -> Seq<JobView>
    decreases cs,
{
    if cs.len() == 0 {
        Seq::empty()
    } else {
        children_jobs(cs.subrange(0, cs.len() - 1), dir) + entry_jobs(
            cs[cs.len() - 1].1,
            dir_join(dir, cs[cs.len() - 1].0@),
        )
    }
}

/// The number of sources declared on `e` and on every entry below it.
pub open spec fn torrent_count(e: Entry) -> nat
    decreases e,
{
    e.torrents@.len() + match e.children {
        Some(c) => children_count(c.0@),
        None => 0nat,
    }
}

/// The number of sources declared in the groups `cs` and below them.
pub open spec fn children_count(cs: Seq<(String, Entry)>) -> nat
    decreases cs,
{
    if cs.len() == 0 {
        0
    } else {
        children_count(cs.subrange(0, cs.len() - 1)) + torrent_count(cs[cs.len() - 1].1)
    }
}

/// The group of `e` named `name`, if it has one.
pub open spec fn child_named(e: Entry, name: Seq<char>) -> Option<Entry> {
    match e.children {
        Some(c) => if exists|i: int| 0 <= i < c.0@.len() && (#[trigger] c.0@[i]).0@ == name {
            Some(c.0@[choose|i: int| 0 <= i < c.0@.len() && (#[trigger] c.0@[i]).0@ == name].1)
        } else {
            None
        },
        None => None,
    }
}

/// The entry reached from `e` through the group names of `path`, if any.
pub open spec fn descend(e: Entry, path: Seq<Seq<char>>) -> Option<Entry>
    decreases path.len(),
{
    if path.len() == 0 {
        Some(e)
    } else {
        match descend(e, path.drop_last()) {
            Some(p) => child_named(p, path.last()),
            None => None,
        }
    }
}

/// Traversal yields exactly one job for each source declared anywhere in the
/// tree.
pub proof fn lemma_job_count(e: Entry, dir: Seq<char>)
    ensures
        entry_jobs(e, dir).len() == torrent_count(e),
    decreases e,
{
    match e.children {
        Some(c) => lemma_children_job_count(c.0@, dir),
        None => {},
    }
}

/// The groups `cs` yield exactly one job for each source declared in them.
pub proof fn lemma_children_job_count(cs: Seq<(String, Entry)>, dir: Seq<char>)
    ensures
        children_jobs(cs, dir).len() == children_count(cs),
    decreases cs,
{
    if cs.len() > 0 {
        lemma_children_job_count(cs.subrange(0, cs.len() - 1), dir);
        lemma_job_count(cs[cs.len() - 1].1, dir_join(dir, cs[cs.len() - 1].0@));
    }
}

proof fn lemma_children_include(cs: Seq<(String, Entry)>, dir: Seq<char>, i: int, job: JobView)
    requires
        0 <= i < cs.len(),
        entry_jobs(cs[i].1, dir_join(dir, cs[i].0@)).contains(job),
    ensures
        children_jobs(cs, dir).contains(job),
    decreases cs,
{
    let front = cs.subrange(0, cs.len() - 1);
    let tail = entry_jobs(cs[cs.len() - 1].1, dir_join(dir, cs[cs.len() - 1].0@));
    if i < cs.len() - 1 {
        assert(front[i] == cs[i]);
        lemma_children_include(front, dir, i, job);
        let k = choose|k: int| 0 <= k < children_jobs(front, dir).len()
            && children_jobs(front, dir)[k] == job;
        assert((children_jobs(front, dir) + tail)[k] == job);
    } else {
        let k = choose|k: int| 0 <= k < tail.len() && tail[k] == job;
        assert((children_jobs(front, dir) + tail)[children_jobs(front, dir).len() + k] == job);
    }
}

proof fn lemma_descend_include(e: Entry, dir: Seq<char>, path: Seq<Seq<char>>, job: JobView)
    requires
        descend(e, path) is Some,
        entry_jobs(descend(e, path)->0, dir_join_all(dir, path)).contains(job),
    ensures
        entry_jobs(e, dir).contains(job),
    decreases path.len(),
{
    if path.len() > 0 {
        let front = path.drop_last();
        let p = descend(e, front)->0;
        let c = p.children->0;
        let i = choose|i: int| 0 <= i < c.0@.len() && (#[trigger] c.0@[i]).0@ == path.last();
        lemma_children_include(c.0@, dir_join_all(dir, front), i, job);
        let own = direct_jobs(p.torrents@, dir_join_all(dir, front));
        let k = choose|k: int| 0 <= k < children_jobs(c.0@, dir_join_all(dir, front)).len()
            && children_jobs(c.0@, dir_join_all(dir, front))[k] == job;
        assert((own + children_jobs(c.0@, dir_join_all(dir, front)))[own.len() + k] == job);
        lemma_descend_include(e, dir, front, job);
    }
}

/// Each source declared on the entry reached through the group names `path`
/// gives a job whose directory is `dir` joined with each of those names in
/// turn.
pub proof fn lemma_job_directory(e: Entry, dir: Seq<char>, path: Seq<Seq<char>>, t: int)
    requires
        descend(e, path) is Some,
        0 <= t < descend(e, path)->0.torrents@.len(),
    ensures
        entry_jobs(e, dir).contains(
            (descend(e, path)->0.torrents@[t]@, dir_join_all(dir, path)),
        ),
{
    let sub = descend(e, path)->0;
    let d = dir_join_all(dir, path);
    let job = (sub.torrents@[t]@, d);
    let own = direct_jobs(sub.torrents@, d);
    assert(own[t] == job);
    assert(entry_jobs(sub, d)[t] == job);
    lemma_descend_include(e, dir, path, job);
}

/// Traversing the same tree from the same directory twice gives the same
/// jobs, in the same order and so as the same multiset.
pub proof fn lemma_traversal_reproducible(e: Entry, dir: Seq<char>, r1: Seq<Schema>, r2: Seq<Schema>)
    requires
        jobs_view(r1) == entry_jobs(e, dir),
        jobs_view(r2) == entry_jobs(e, dir),
    ensures
        jobs_view(r1) == jobs_view(r2),
        jobs_view(r1).to_multiset() == jobs_view(r2).to_multiset(),
{
}

/// No two of the groups `cs` share a name.
pub open spec fn names_unique(cs: Seq<(String, Entry)>) -> bool {
    forall|i: int, j: int|
        #![trigger cs[i], cs[j]]
        0 <= i < j < cs.len() ==> cs[i].0@ != cs[j].0@
}

/// Whether the names of sibling groups differ everywhere in the tree.
pub open spec fn entry_wf(e: Entry) -> bool
    decreases e,
{
    match e.children {
        Some(c) => children_wf(c.0@),
        None => true,
    }
}

/// Whether the groups `cs`, and every tree below them, have sibling names
/// that differ.
pub open spec fn children_wf(cs: Seq<(String, Entry)>) -> bool
    decreases cs,
{
    &&& names_unique(cs)
    &&& cs.len() > 0 ==> children_wf(cs.subrange(0, cs.len() - 1)) && entry_wf(
        cs[cs.len() - 1].1,
    )
}

/// Whether `job` is the job of a source declared on some entry of `e`,
/// placed in `dir` joined with the names of the groups leading to that entry.
pub open spec fn job_declared(e: Entry, dir: Seq<char>, job: JobView) -> bool {
    exists|path: Seq<Seq<char>>, t: int|
        #![trigger descend(e, path), dir_join_all(dir, path), job_at(e, path, t)]
        descend(e, path) is Some && 0 <= t < descend(e, path)->0.torrents@.len() && job == (
        job_at(e, path, t), dir_join_all(dir, path))
}

/// The source at position `t` of the entry reached through `path`.
pub open spec fn job_at(e: Entry, path: Seq<Seq<char>>, t: int) -> Seq<char> {
    descend(e, path)->0.torrents@[t]@
}

proof fn lemma_children_wf_item(cs: Seq<(String, Entry)>, i: int)
    requires
        children_wf(cs),
        0 <= i < cs.len(),
    ensures
        entry_wf(cs[i].1),
    decreases cs,
{
    if i < cs.len() - 1 {
        assert(cs.subrange(0, cs.len() - 1)[i] == cs[i]);
        lemma_children_wf_item(cs.subrange(0, cs.len() - 1), i);
    }
}

proof fn lemma_children_origin(cs: Seq<(String, Entry)>, dir: Seq<char>, k: int) -> (r: (int, int))
    requires
        0 <= k < children_jobs(cs, dir).len(),
    ensures
        0 <= r.0 < cs.len(),
        0 <= r.1 < entry_jobs(cs[r.0].1, dir_join(dir, cs[r.0].0@)).len(),
        children_jobs(cs, dir)[k] == entry_jobs(cs[r.0].1, dir_join(dir, cs[r.0].0@))[r.1],
    decreases cs,
{
    let front = cs.subrange(0, cs.len() - 1);
    let n = children_jobs(front, dir).len();
    if k < n {
        let r = lemma_children_origin(front, dir, k);
        assert(front[r.0] == cs[r.0]);
        r
    } else {
        (cs.len() - 1, k - n)
    }
}

proof fn lemma_join_all_prepend(dir: Seq<char>, g: Seq<char>, p: Seq<Seq<char>>)
    ensures
        dir_join_all(dir, seq![g] + p) == dir_join_all(dir_join(dir, g), p),
    decreases p.len(),
{
    if p.len() == 0 {
        assert(seq![g] + p =~= seq![g]);
        assert(seq![g].drop_last() =~= Seq::<Seq<char>>::empty());
        assert(dir_join_all(dir, Seq::<Seq<char>>::empty()) == dir);
    } else {
        assert((seq![g] + p).drop_last() =~= seq![g] + p.drop_last());
        assert((seq![g] + p).last() == p.last());
        lemma_join_all_prepend(dir, g, p.drop_last());
    }
}

proof fn lemma_descend_prepend(e: Entry, g: Seq<char>, p: Seq<Seq<char>>)
    requires
        child_named(e, g) is Some,
    ensures
        descend(e, seq![g] + p) == descend(child_named(e, g)->0, p),
    decreases p.len(),
{
    if p.len() == 0 {
        assert(seq![g] + p =~= seq![g]);
        assert(seq![g].drop_last() =~= Seq::<Seq<char>>::empty());
        assert(descend(e, Seq::<Seq<char>>::empty()) == Some(e));
        assert(descend(child_named(e, g)->0, p) == Some(child_named(e, g)->0));
    } else {
        assert((seq![g] + p).drop_last() =~= seq![g] + p.drop_last());
        assert((seq![g] + p).last() == p.last());
        lemma_descend_prepend(e, g, p.drop_last());
    }
}

/// In a tree whose sibling groups have distinct names, every job of the
/// traversal is the job of a source declared on the entry reached through
/// some list of group names, placed in `dir` joined with those names.
pub proof fn lemma_job_origin(e: Entry, dir: Seq<char>, k: int)
    requires
        entry_wf(e),
        0 <= k < entry_jobs(e, dir).len(),
    ensures
        job_declared(e, dir, entry_jobs(e, dir)[k]),
    decreases e,
{
    let own = direct_jobs(e.torrents@, dir);
    let empty = Seq::<Seq<char>>::empty();
    if k < own.len() {
        assert(descend(e, empty) == Some(e));
        assert(dir_join_all(dir, empty) == dir);
        assert(entry_jobs(e, dir)[k] == own[k]);
        assert(entry_jobs(e, dir)[k] == (job_at(e, empty, k), dir_join_all(dir, empty)));
    } else {
        let c = e.children->0;
        let cs = c.0@;
        assert(entry_jobs(e, dir)[k] == children_jobs(cs, dir)[k - own.len()]);
        let (i, k2) = lemma_children_origin(cs, dir, k - own.len());
        let child = cs[i].1;
        let name = cs[i].0@;
        let sub_dir = dir_join(dir, name);
        lemma_children_wf_item(cs, i);
        assert(decreases_to!(e => child));
        lemma_job_origin(child, sub_dir, k2);
        let job = entry_jobs(child, sub_dir)[k2];
        let (p, t) = choose|p: Seq<Seq<char>>, t: int|
            descend(child, p) is Some && 0 <= t < descend(child, p)->0.torrents@.len() && job == (
            job_at(child, p, t), dir_join_all(sub_dir, p));
        let chosen = choose|j: int| 0 <= j < cs.len() && (#[trigger] cs[j]).0@ == name;
        assert(cs[chosen] == cs[i]) by {
            if chosen != i {
                if chosen < i {
                    assert(cs[chosen].0@ != cs[i].0@);
                } else {
                    assert(cs[i].0@ != cs[chosen].0@);
                }
            }
        }
        assert(child_named(e, name) == Some(child));
        lemma_descend_prepend(e, name, p);
        lemma_join_all_prepend(dir, name, p);
        let path = seq![name] + p;
        assert(job == (job_at(e, path, t), dir_join_all(dir, path)));
    }
}

impl Entry {
    fn write_traversal_to_vec(&self, download_dir: &str, list: &mut Vec<Schema>)
        ensures
            jobs_view(final(list)@) == jobs_view(old(list)@) + entry_jobs(*self, download_dir@),
        decreases self,
    {
        let ghost start = list@;
        let mut i: usize = 0;
        while i < self.torrents.len()
            invariant
                i <= self.torrents.len(),
                jobs_view(list@) == jobs_view(start) + direct_jobs(
                    self.torrents@.subrange(0, i as int),
                    download_dir@,
                ),
            decreases self.torrents.len() - i,
        {
            let job = Schema {
                filename: self.torrents[i].clone(),
                download_dir: String::from_str(download_dir),
            };
            let ghost before = list@;
            list.push(job);
            proof {
                assert(self.torrents@.subrange(0, i + 1) == self.torrents@.subrange(0, i as int).push(
                    self.torrents@[i as int],
                ));
                assert(jobs_view(list@) == jobs_view(before).push(job@));
                assert(jobs_view(list@) =~= jobs_view(start) + direct_jobs(
                    self.torrents@.subrange(0, i + 1),
                    download_dir@,
                ));
            }
            i = i + 1;
        }
        assert(self.torrents@.subrange(0, i as int) == self.torrents@);
        let ghost mid = list@;
        match &self.children {
            Some(c) => {
                c.write_traversal_to_vec(download_dir, list);
            },
            None => {},
        }
        assert(jobs_view(list@) =~= jobs_view(start) + entry_jobs(*self, download_dir@));
    }

    /// Whether the names of sibling groups differ everywhere in this tree.
    pub fn has_unique_names(&self) -> (r: bool)
        ensures
            r == entry_wf(*self),
        decreases self,
    {
        match &self.children {
            Some(c) => c.has_unique_names(),
            None => true,
        }
    }

    /// The flat list of jobs of this tree, with `download_dir` as the
    /// directory of the root.
    pub fn traverse(&self, download_dir: &str) -> (r: Vec<Schema>)
        ensures
            jobs_view(r@) == entry_jobs(*self, download_dir@),
    {
        let mut list: Vec<Schema> = Vec::new();
        self.write_traversal_to_vec(download_dir, &mut list);
        assert(jobs_view(Seq::<Schema>::empty()) =~= Seq::<JobView>::empty());
        assert(jobs_view(list@) =~= entry_jobs(*self, download_dir@));
        list
    }
}

impl Subdirectories {
    /// Whether these groups, and every tree below them, have sibling names
    /// that differ.
    pub fn has_unique_names(&self) -> (r: bool)
        ensures
            r == children_wf(self.0@),
        decreases self,
    {
        let ghost cs = self.0@;
        let mut ok = true;
        let mut i: usize = 0;
        assert(names_unique(cs.subrange(0, 0)));
        while i < self.0.len()
            invariant
                i <= self.0.len(),
                cs == self.0@,
                ok == children_wf(cs.subrange(0, i as int)),
            decreases self.0.len() - i,
        {
            let mut distinct = true;
            let mut j: usize = 0;
            while j < i
                invariant
                    j <= i < self.0.len(),
                    cs == self.0@,
                    distinct == (forall|m: int| 0 <= m < j ==> (#[trigger] cs[m]).0@ != cs[i as int].0@),
                decreases i - j,
            {
                if self.0[j].0 == self.0[i].0 {
                    distinct = false;
                }
                j = j + 1;
            }
            assert(decreases_to!(self => self.0[i as int].1));
            let child_ok = self.0[i].1.has_unique_names();
            proof {
                let before = cs.subrange(0, i as int);
                let after = cs.subrange(0, i + 1);
                assert(after.subrange(0, after.len() - 1) == before);
                assert(after[after.len() - 1] == cs[i as int]);
                if distinct && names_unique(before) {
                    assert forall|a: int, b: int| 0 <= a < b < after.len() implies after[a].0@
                        != after[b].0@ by {
                        if b < i {
                            assert(before[a] == after[a] && before[b] == after[b]);
                        } else {
                            assert(after[a] == cs[a]);
                        }
                    }
                }
                if names_unique(after) {
                    assert forall|m: int| 0 <= m < i implies (#[trigger] cs[m]).0@ != cs[i as int].0@ by {
                        assert(after[m] == cs[m]);
                    }
                    assert forall|a: int, b: int| 0 <= a < b < before.len() implies before[a].0@
                        != before[b].0@ by {
                        assert(before[a] == after[a] && before[b] == after[b]);
                    }
                }
            }
            ok = ok && distinct && child_ok;
            i = i + 1;
        }
        assert(cs.subrange(0, i as int) == cs);
        ok
    }

    fn write_traversal_to_vec(&self, download_dir: &str, list: &mut Vec<Schema>)
        ensures
            jobs_view(final(list)@) == jobs_view(old(list)@) + children_jobs(self.0@, download_dir@),
        decreases self,
    {
        let ghost start = list@;
        let mut i: usize = 0;
        assert(jobs_view(start) + children_jobs(self.0@.subrange(0, 0), download_dir@) =~= jobs_view(start));
        while i < self.0.len()
            invariant
                i <= self.0.len(),
                jobs_view(list@) == jobs_view(start) + children_jobs(
                    self.0@.subrange(0, i as int),
                    download_dir@,
                ),
            decreases self.0.len() - i,
        {
            let dir = join_dir(download_dir, self.0[i].0.as_str());
            assert(decreases_to!(self => self.0[i as int].1));
            self.0[i].1.write_traversal_to_vec(dir.as_str(), list);
            proof {
                let cs = self.0@.subrange(0, i + 1);
                assert(cs.subrange(0, cs.len() - 1) == self.0@.subrange(0, i as int));
                assert(cs[cs.len() - 1] == self.0@[i as int]);
                assert(jobs_view(list@) =~= jobs_view(start) + children_jobs(cs, download_dir@));
            }
            i = i + 1;
        }
        assert(self.0@.subrange(0, i as int) == self.0@);
    }
}

} // verus!
