//! The in-flight registry: which (package, kind, path) computations are
//! running, and the decisions that add and remove them.
//!
//! The registry is a list of (package, task) pairs. A package's in-flight set
//! is the tasks paired with its name, in the order they were added; a package
//! with no task has no set. Within one package no two tasks share a kind and a
//! path.

use vstd::prelude::*;

use crate::classify::{classified, get_file_kind};
use crate::kinds::{FileKind, StatKind};
use crate::stats::StatsError;

verus! {

/// A file as listed, before its content hash is known. Times are
/// milliseconds since the Unix epoch.
#[derive(Debug)]
pub struct FileWithoutSha {
    pub path: String,
    pub size: i32,
    pub revision: i32,
    pub last_author: String,
    pub last_changed: i64,
}

/// A listed file with the content hash of its revision.
#[derive(Debug)]
pub struct File {
    pub path: String,
    pub size: i32,
    pub revision: i32,
    pub sha: String,
    pub last_author: String,
    pub last_changed: i64,
}

/// One unit of work: fetch this file and compute its statistics.
#[derive(Debug)]
pub struct Task {
    /// When the task was created.
    pub created: i64,
    pub file: File,
    pub kind: FileKind,
}

/// One statistic of one file, ready to be stored.
#[derive(Debug)]
pub struct NewEntry {
    /// When the task that computed it was created.
    pub requested: i64,
    /// When the statistic was computed.
    pub created: i64,
    pub name: String,
    pub revision: i32,
    pub sha: String,
    pub path: String,
    pub last_changed: i64,
    pub last_author: String,
    pub size: i32,
    pub file_kind: FileKind,
    pub stat_kind: StatKind,
    pub value: usize,
}

impl Clone for File {
    fn clone(&self) -> (r: File)
        ensures
            r == *self,
    {
        File {
            path: self.path.clone(),
            size: self.size,
            revision: self.revision,
            sha: self.sha.clone(),
            last_author: self.last_author.clone(),
            last_changed: self.last_changed,
        }
    }
}

impl Clone for Task {
    fn clone(&self) -> (r: Task)
        ensures
            r == *self,
    {
        Task { created: self.created, file: self.file.clone(), kind: self.kind }
    }
}

/// What identifies a task within its package: its kind and its path.
pub open spec fn key(t: Task) -> (FileKind, Seq<char>) {
    (t.kind, t.file.path@)
}

/// The tasks of package `name` among `es`, in order.
pub open spec fn flights(es: Seq<(Seq<char>, Task)>, name: Seq<char>) -> Seq<Task>
    decreases es.len(),
{
    if es.len() == 0 {
        Seq::empty()
    } else if es.last().0 == name {
        flights(es.drop_last(), name).push(es.last().1)
    } else {
        flights(es.drop_last(), name)
    }
}

/// Whether some task of package `name` has key `k`.
pub open spec fn in_flight(es: Seq<(Seq<char>, Task)>, name: Seq<char>, k: (FileKind, Seq<char>)) -> bool {
    exists|i: int| 0 <= i < es.len() && es[i].0 == name && key(#[trigger] es[i].1) == k
}

/// No two tasks of one package share a key.
pub open spec fn keys_unique(es: Seq<(Seq<char>, Task)>) -> bool {
    forall|i: int, j: int|
        0 <= i < j < es.len() && es[i].0 == es[j].0 ==> key(#[trigger] es[i].1) != key(
            #[trigger] es[j].1,
        )
}

/// No two tasks of a sequence share a key.
pub open spec fn distinct_keys(ts: Seq<Task>) -> bool {
    forall|i: int, j: int| 0 <= i < j < ts.len() ==> key(#[trigger] ts[i]) != key(#[trigger] ts[j])
}

/// Adding a batch of tasks for package `name`: each task whose key is not in
/// flight for `name` (counting those of the batch added before it) is added.
/// Gives the new pairs and the tasks added, in batch order.
pub open spec fn recorded(es: Seq<(Seq<char>, Task)>, name: Seq<char>, batch: Seq<Task>) -> (
    Seq<(Seq<char>, Task)>,
    Seq<Task>,
)
    decreases batch.len(),
{
    if batch.len() == 0 {
        (es, Seq::empty())
    } else {
        let (es1, added) = recorded(es, name, batch.drop_last());
        let t = batch.last();
        if in_flight(es1, name, key(t)) {
            (es1, added)
        } else {
            (es1.push((name, t)), added.push(t))
        }
    }
}

/// The pairs without the task of package `name` with key `k`.
pub open spec fn completed(es: Seq<(Seq<char>, Task)>, name: Seq<char>, k: (FileKind, Seq<char>)) -> Seq<
    (Seq<char>, Task),
> {
    es.filter(not_task(name, k))
}

/// Whether a pair is not the task of package `name` with key `k`.
pub open spec fn not_task(name: Seq<char>, k: (FileKind, Seq<char>)) -> spec_fn((Seq<char>, Task)) -> bool {
    |e: (Seq<char>, Task)| !(e.0 == name && key(e.1) == k)
}

/// The in-flight registry.
pub struct Registry {
    entries: Vec<(String, Task)>,
}

impl Registry {
    /// The (package, task) pairs in flight.
    pub closed spec fn pairs(&self) -> Seq<(Seq<char>, Task)> {
        self.entries@.map_values(|e: (String, Task)| (e.0@, e.1))
    }

    /// No two tasks of one package share a key.
    pub open spec fn wf(&self) -> bool {
        keys_unique(self.pairs())
    }

    /// An empty registry.
    pub fn new() -> (r: Registry)
        ensures
            r.pairs() == Seq::<(Seq<char>, Task)>::empty(),
            r.wf(),
    {
        Registry { entries: Vec::new() }
    }

    /// The tasks in flight for `name`; `None` where there is none.
    pub fn get_tasks_in_progress(&self, name: &str) -> (r: Option<Vec<Task>>)
        ensures
            r is Some ==> r->Some_0@.len() > 0,
            flights(self.pairs(), name@).len() == 0 ==> r is None,
            flights(self.pairs(), name@).len() > 0 ==> r is Some && r->Some_0@ == flights(
                self.pairs(),
                name@,
            ),
    {
        let ts = self.tasks_of(name);
        if ts.len() == 0 {
            None
        } else {
            Some(ts)
        }
    }

    fn tasks_of(&self, name: &str) -> (r: Vec<Task>)
        ensures
            r@ == flights(self.pairs(), name@),
    {
        let n = name.to_owned();
        let mut ts: Vec<Task> = Vec::new();
        let mut i: usize = 0;
        while i < self.entries.len()
            invariant
                i <= self.entries@.len(),
                n@ == name@,
                ts@ == flights(self.pairs().take(i as int), name@),
            decreases self.entries.len() - i,
        {
            assert(self.pairs().take(i + 1).drop_last() =~= self.pairs().take(i as int));
            if self.entries[i].0 == n {
                ts.push(self.entries[i].1.clone());
            }
            i = i + 1;
        }
        assert(self.pairs().take(self.entries@.len() as int) =~= self.pairs());
        ts
    }

    /// Whether a task of `name` with this kind and path is in flight.
    fn has_task(&self, name: &str, kind: FileKind, path: &String) -> (r: bool)
        ensures
            r == in_flight(self.pairs(), name@, (kind, path@)),
    {
        let n = name.to_owned();
        let mut i: usize = 0;
        while i < self.entries.len()
            invariant
                i <= self.entries@.len(),
                n@ == name@,
                forall|j: int|
                    0 <= j < i ==> !(self.pairs()[j].0 == name@ && key(
                        #[trigger] self.pairs()[j].1,
                    ) == (kind, path@)),
            decreases self.entries.len() - i,
        {
            let e = &self.entries[i];
            if e.0 == n && e.1.kind == kind && e.1.file.path == *path {
                assert(key(self.pairs()[i as int].1) == (kind, path@));
                return true;
            }
            i = i + 1;
        }
        false
    }

    /// Adds the tasks of `new_tasks` whose kind and path are not in flight for
    /// `name` (nor among those of `new_tasks` added before them). Returns the
    /// tasks added, and then all the tasks in flight for `name`.
    pub fn record_new_tasks(&mut self, name: &str, new_tasks: Vec<Task>) -> (r: (
        Vec<Task>,
        Vec<Task>,
    ))
        requires
            old(self).wf(),
        ensures
            final(self).wf(),
            final(self).pairs() == recorded(old(self).pairs(), name@, new_tasks@).0,
            r.0@ == recorded(old(self).pairs(), name@, new_tasks@).1,
            r.1@ == flights(final(self).pairs(), name@),
    {
        let ghost before = self.pairs();
        let mut added: Vec<Task> = Vec::new();
        let mut i: usize = 0;
        while i < new_tasks.len()
            invariant
                i <= new_tasks@.len(),
                self.wf(),
                (self.pairs(), added@) == recorded(before, name@, new_tasks@.take(i as int)),
            decreases new_tasks.len() - i,
        {
            assert(new_tasks@.take(i + 1).drop_last() =~= new_tasks@.take(i as int));
            let t = &new_tasks[i];
            if !self.has_task(name, t.kind, &t.file.path) {
                let ghost prev = self.pairs();
                self.entries.push((name.to_owned(), t.clone()));
                assert(self.pairs() =~= prev.push((name@, *t)));
                added.push(t.clone());
            }
            i = i + 1;
        }
        assert(new_tasks@.take(new_tasks@.len() as int) =~= new_tasks@);
        let all = self.tasks_of(name);
        (added, all)
    }

    /// Removes the task of `name` with this kind and path, if it is in flight;
    /// a package left with no task has no set any more.
    pub fn record_task_completion(&mut self, name: &str, kind: FileKind, path: &String)
        requires
            old(self).wf(),
        ensures
            final(self).wf(),
            final(self).pairs() == completed(old(self).pairs(), name@, (kind, path@)),
    {
        let ghost before = self.pairs();
        let n = name.to_owned();
        let mut kept: Vec<(String, Task)> = Vec::new();
        let mut i: usize = 0;
        proof {
            reveal(Seq::filter);
        }
        while i < self.entries.len()
            invariant
                i <= self.entries@.len(),
                n@ == name@,
                before == self.pairs(),
                kept@.map_values(|e: (String, Task)| (e.0@, e.1)) == completed(
                    before.take(i as int),
                    name@,
                    (kind, path@),
                ),
            decreases self.entries.len() - i,
        {
            proof {
                reveal(Seq::filter);
            }
            assert(before.take(i + 1).drop_last() =~= before.take(i as int));
            let ghost prev = kept@.map_values(|e: (String, Task)| (e.0@, e.1));
            let e = &self.entries[i];
            if !(e.0 == n && e.1.kind == kind && e.1.file.path == *path) {
                assert(not_task(name@, (kind, path@))(before[i as int]));
                kept.push((e.0.clone(), e.1.clone()));
                assert(kept@.map_values(|e: (String, Task)| (e.0@, e.1)) =~= prev.push(
                    before[i as int],
                ));
            }
            i = i + 1;
        }
        assert(before.take(before.len() as int) =~= before);
        self.entries = kept;
        proof {
            lemma_completed_keeps_unique(before, name@, (kind, path@));
        }
    }
}

/// Removing tasks keeps the keys of each package distinct.
proof fn lemma_completed_keeps_unique(
    es: Seq<(Seq<char>, Task)>,
    name: Seq<char>,
    k: (FileKind, Seq<char>),
)
    requires
        keys_unique(es),
    ensures
        keys_unique(completed(es, name, k)),
{
    let p = not_task(name, k);
    let out = es.filter(p);
    assert forall|i: int, j: int|
        0 <= i < j < out.len() && out[i].0 == out[j].0 implies key(#[trigger] out[i].1) != key(
            #[trigger] out[j].1,
        ) by {
        lemma_filter_index_order(es, p, i, j);
        let (a, b) = choose|a: int, b: int|
            0 <= a < b < es.len() && es[a] == out[i] && es[b] == out[j];
        assert(key(es[a].1) != key(es[b].1));
    }
}

/// Two positions of a filtered sequence come from two positions of the
/// unfiltered sequence, in the same order.
proof fn lemma_filter_index_order<A>(s: Seq<A>, p: spec_fn(A) -> bool, i: int, j: int)
    requires
        0 <= i < j < s.filter(p).len(),
    ensures
        exists|a: int, b: int|
            0 <= a < b < s.len() && s[a] == s.filter(p)[i] && s[b] == s.filter(p)[j],
    decreases s.len(),
{
    reveal(Seq::filter);
    let rest = s.drop_last().filter(p);
    if p(s.last()) && j == rest.len() {
        if i < rest.len() {
            lemma_filter_index_in(s.drop_last(), p, i);
            let a = choose|a: int| 0 <= a < s.drop_last().len() && s.drop_last()[a] == rest[i];
            assert(s[a] == s.filter(p)[i] && s[s.len() - 1] == s.filter(p)[j]);
        }
    } else {
        lemma_filter_index_order(s.drop_last(), p, i, j);
        let (a, b) = choose|a: int, b: int|
            0 <= a < b < s.drop_last().len() && s.drop_last()[a] == rest[i] && s.drop_last()[b]
                == rest[j];
        assert(s[a] == s.filter(p)[i] && s[b] == s.filter(p)[j]);
    }
}

/// Each position of a filtered sequence comes from a position of the unfiltered one.
proof fn lemma_filter_index_in<A>(s: Seq<A>, p: spec_fn(A) -> bool, i: int)
    requires
        0 <= i < s.filter(p).len(),
    ensures
        exists|a: int| 0 <= a < s.len() && s[a] == s.filter(p)[i],
    decreases s.len(),
{
    reveal(Seq::filter);
    let rest = s.drop_last().filter(p);
    if p(s.last()) && i == rest.len() {
        assert(s[s.len() - 1] == s.filter(p)[i]);
    } else {
        lemma_filter_index_in(s.drop_last(), p, i);
        let a = choose|a: int| 0 <= a < s.drop_last().len() && s.drop_last()[a] == rest[i];
        assert(s[a] == s.filter(p)[i]);
    }
}

/// What adding a batch does: keys in flight stay in flight; each task added
/// was not in flight before and is afterwards; the tasks added have distinct
/// keys; and the keys of each package stay distinct.
pub proof fn lemma_recorded(es: Seq<(Seq<char>, Task)>, name: Seq<char>, batch: Seq<Task>)
    ensures
        forall|k: (FileKind, Seq<char>)|
            in_flight(es, name, k) ==> #[trigger] in_flight(recorded(es, name, batch).0, name, k),
        forall|i: int|
            0 <= i < recorded(es, name, batch).1.len() ==> !in_flight(
                es,
                name,
                key(#[trigger] recorded(es, name, batch).1[i]),
            ) && in_flight(recorded(es, name, batch).0, name, key(recorded(es, name, batch).1[i])),
        distinct_keys(recorded(es, name, batch).1),
        keys_unique(es) ==> keys_unique(recorded(es, name, batch).0),
    decreases batch.len(),
{
    if batch.len() > 0 {
        lemma_recorded(es, name, batch.drop_last());
        let (es1, added) = recorded(es, name, batch.drop_last());
        let t = batch.last();
        if !in_flight(es1, name, key(t)) {
            let es2 = es1.push((name, t));
            assert forall|k: (FileKind, Seq<char>)| in_flight(es1, name, k) implies #[trigger] in_flight(
                es2,
                name,
                k,
            ) by {
                let i = choose|i: int| 0 <= i < es1.len() && es1[i].0 == name && key(#[trigger] es1[i].1) == k;
                assert(es2[i] == es1[i]);
            }
            assert(es2[es1.len() as int] == (name, t));
            assert(key(es2[es1.len() as int].1) == key(t));
            assert(in_flight(es2, name, key(t)));
        }
    }
}

/// A package's in-flight tasks never hold two tasks with one kind and path,
/// so two successive requests for a package never both create a task for the
/// same kind and path: what the second creates was not in flight after the
/// first, and what the first created still is.
pub proof fn lemma_no_duplicate_new_tasks(
    es: Seq<(Seq<char>, Task)>,
    name: Seq<char>,
    first: Seq<Task>,
    second: Seq<Task>,
)
    requires
        keys_unique(es),
    ensures
        ({
            let (es1, new1) = recorded(es, name, first);
            let (es2, new2) = recorded(es1, name, second);
            &&& distinct_keys(new1 + new2)
            &&& forall|i: int| 0 <= i < (new1 + new2).len() ==> !in_flight(
                es,
                name,
                key(#[trigger] (new1 + new2)[i]),
            )
            &&& keys_unique(es2)
        }),
{
    let (es1, new1) = recorded(es, name, first);
    let (es2, new2) = recorded(es1, name, second);
    lemma_recorded(es, name, first);
    lemma_recorded(es1, name, second);
    let all = new1 + new2;
    assert forall|i: int, j: int| 0 <= i < j < all.len() implies key(#[trigger] all[i]) != key(
        #[trigger] all[j],
    ) by {
        if j >= new1.len() && i < new1.len() {
            assert(all[i] == new1[i]);
            assert(all[j] == new2[j - new1.len()]);
            assert(in_flight(es1, name, key(new1[i])));
            assert(!in_flight(es1, name, key(new2[j - new1.len()])));
        } else if i >= new1.len() {
            assert(all[i] == new2[i - new1.len()]);
            assert(all[j] == new2[j - new1.len()]);
        } else {
            assert(all[i] == new1[i]);
            assert(all[j] == new1[j]);
        }
    }
    assert forall|i: int| 0 <= i < all.len() implies !in_flight(es, name, key(#[trigger] all[i])) by {
        if i < new1.len() {
            assert(all[i] == new1[i]);
        } else {
            assert(all[i] == new2[i - new1.len()]);
            assert(!in_flight(es1, name, key(new2[i - new1.len()])));
        }
    }
}

/// Once the task of a package with some kind and path completes, no task of
/// that package with that kind and path is in flight.
pub proof fn lemma_completion_clears(
    es: Seq<(Seq<char>, Task)>,
    name: Seq<char>,
    k: (FileKind, Seq<char>),
)
    ensures
        !in_flight(completed(es, name, k), name, k),
{
    let p = not_task(name, k);
    let out = es.filter(p);
    if in_flight(out, name, k) {
        let i = choose|i: int| 0 <= i < out.len() && out[i].0 == name && key(#[trigger] out[i].1) == k;
        es.lemma_filter_pred(p, i);
        assert(p(out[i]));
    }
}

/// The files of a listing that a request for package `name` asks for: those
/// of a recognised kind, of the requested kind if one is given, and with no
/// task of that kind and path in flight; each with its kind.
pub open spec fn requested(
    es: Seq<(Seq<char>, Task)>,
    name: Seq<char>,
    files: Seq<FileWithoutSha>,
    maybe_kind: Option<FileKind>,
) -> Seq<(FileKind, FileWithoutSha)>
    decreases files.len(),
{
    if files.len() == 0 {
        Seq::empty()
    } else {
        let rest = requested(es, name, files.drop_last(), maybe_kind);
        let f = files.last();
        match classified(f.path@) {
            Some(k) => if (maybe_kind is None || maybe_kind == Some(k)) && !in_flight(es, name, (k, f.path@)) {
                rest.push((k, f))
            } else {
                rest
            },
            None => rest,
        }
    }
}

/// The hash found for `revision` among (revision, hash) pairs: that of the
/// first pair with this revision, where it has one.
pub open spec fn sha_for(shas: Seq<(i32, Option<String>)>, revision: i32) -> Option<String>
    decreases shas.len(),
{
    if shas.len() == 0 {
        None
    } else if shas[0].0 == revision {
        shas[0].1
    } else {
        sha_for(shas.drop_first(), revision)
    }
}

/// The tasks for the requested files whose revision has a hash, created at
/// `now`.
pub open spec fn tasks_for(reqs: Seq<(FileKind, FileWithoutSha)>, shas: Seq<(i32, Option<String>)>, now: i64) -> Seq<Task>
    decreases reqs.len(),
{
    if reqs.len() == 0 {
        Seq::empty()
    } else {
        let rest = tasks_for(reqs.drop_last(), shas, now);
        let (k, f) = reqs.last();
        match sha_for(shas, f.revision) {
            Some(sha) => rest.push(
                Task {
                    created: now,
                    file: File {
                        path: f.path,
                        size: f.size,
                        revision: f.revision,
                        sha: sha,
                        last_author: f.last_author,
                        last_changed: f.last_changed,
                    },
                    kind: k,
                },
            ),
            None => rest,
        }
    }
}

/// The entry that records statistic `stat` of `task` of package `name`,
/// computed at `now`.
pub open spec fn entry_of(name: Seq<char>, task: Task, stat: (StatKind, usize), now: i64, e: NewEntry) -> bool {
    &&& e.requested == task.created
    &&& e.created == now
    &&& e.name@ == name
    &&& e.revision == task.file.revision
    &&& e.sha == task.file.sha
    &&& e.path == task.file.path
    &&& e.last_changed == task.file.last_changed
    &&& e.last_author == task.file.last_author
    &&& e.size == task.file.size
    &&& e.file_kind == task.kind
    &&& e.stat_kind == stat.0
    &&& e.value == stat.1
}

fn clone_file(f: &FileWithoutSha) -> (r: FileWithoutSha)
    ensures
        r == *f,
{
    FileWithoutSha {
        path: f.path.clone(),
        size: f.size,
        revision: f.revision,
        last_author: f.last_author.clone(),
        last_changed: f.last_changed,
    }
}

fn lookup_sha(shas: &Vec<(i32, Option<String>)>, revision: i32) -> (r: Option<String>)
    ensures
        r == sha_for(shas@, revision),
{
    let mut k: usize = 0;
    assert(shas@.skip(0) =~= shas@);
    while k < shas.len()
        invariant
            k <= shas@.len(),
            sha_for(shas@, revision) == sha_for(shas@.skip(k as int), revision),
        decreases shas.len() - k,
    {
        assert(shas@.skip(k as int).drop_first() =~= shas@.skip(k + 1));
        assert(shas@.skip(k as int)[0] == shas@[k as int]);
        if shas[k].0 == revision {
            return match &shas[k].1 {
                Some(s) => Some(s.clone()),
                None => None,
            };
        }
        k = k + 1;
    }
    None
}

/// The distinct revisions of the requested files.
pub fn unique_revisions(reqs: &Vec<(FileKind, FileWithoutSha)>) -> (r: Vec<i32>)
    ensures
        r@.no_duplicates(),
        forall|x: i32| r@.contains(x) <==> exists|i: int| 0 <= i < reqs@.len() && (#[trigger] reqs@[i]).1.revision == x,
{
    let mut r: Vec<i32> = Vec::new();
    let mut i: usize = 0;
    while i < reqs.len()
        invariant
            i <= reqs@.len(),
            r@.no_duplicates(),
            forall|x: i32| r@.contains(x) <==> exists|j: int| 0 <= j < i && (#[trigger] reqs@[j]).1.revision == x,
        decreases reqs.len() - i,
    {
        let v = reqs[i].1.revision;
        let mut seen = false;
        let mut k: usize = 0;
        while k < r.len()
            invariant
                k <= r@.len(),
                seen == exists|m: int| 0 <= m < k && r@[m] == v,
            decreases r.len() - k,
        {
            if r[k] == v {
                seen = true;
            }
            k = k + 1;
        }
        let ghost before = r@;
        if !seen {
            r.push(v);
        }
        assert forall|x: i32| r@.contains(x) <==> exists|j: int| 0 <= j < i + 1 && (#[trigger] reqs@[j]).1.revision == x by {
            if r@.contains(x) && x != v {
                let m = choose|m: int| 0 <= m < r@.len() && r@[m] == x;
                assert(before.contains(x));
            }
            if exists|j: int| 0 <= j < i + 1 && (#[trigger] reqs@[j]).1.revision == x {
                if x != v {
                    let j = choose|j: int| 0 <= j < i + 1 && (#[trigger] reqs@[j]).1.revision == x;
                    assert(j < i);
                    assert(before.contains(x));
                    let m = choose|m: int| 0 <= m < before.len() && before[m] == x;
                    assert(r@[m] == x);
                } else if !seen {
                    assert(r@[r@.len() - 1] == v);
                } else {
                    let m = choose|m: int| 0 <= m < r@.len() && r@[m] == v;
                }
            }
        }
        i = i + 1;
    }
    r
}

/// The tasks for the requested files whose revision has a hash among
/// `shas`, created at `now`.
pub fn make_tasks(reqs: &Vec<(FileKind, FileWithoutSha)>, shas: &Vec<(i32, Option<String>)>, now: i64) -> (r: Vec<Task>)
    ensures
        r@ == tasks_for(reqs@, shas@, now),
{
    let mut r: Vec<Task> = Vec::new();
    let mut i: usize = 0;
    while i < reqs.len()
        invariant
            i <= reqs@.len(),
            r@ == tasks_for(reqs@.take(i as int), shas@, now),
        decreases reqs.len() - i,
    {
        assert(reqs@.take(i + 1).drop_last() =~= reqs@.take(i as int));
        assert(reqs@.take(i + 1).last() == reqs@[i as int]);
        let (k, f) = (&reqs[i].0, &reqs[i].1);
        match lookup_sha(shas, f.revision) {
            Some(sha) => {
                let g = clone_file(f);
                r.push(
                    Task {
                        created: now,
                        file: File {
                            path: g.path,
                            size: g.size,
                            revision: g.revision,
                            sha: sha,
                            last_author: g.last_author,
                            last_changed: g.last_changed,
                        },
                        kind: *k,
                    },
                );
            },
            None => {},
        }
        i = i + 1;
    }
    assert(reqs@.take(reqs@.len() as int) =~= reqs@);
    r
}

/// The entries that record the statistics `stats` of `task` of package
/// `name`, computed at `now`, one per statistic and in their order.
pub fn task_entries(name: &str, task: &Task, stats: &Vec<(StatKind, usize)>, now: i64) -> (r: Vec<NewEntry>)
    ensures
        r@.len() == stats@.len(),
        forall|i: int| 0 <= i < r@.len() ==> entry_of(name@, *task, stats@[i], now, #[trigger] r@[i]),
{
    let mut r: Vec<NewEntry> = Vec::new();
    let mut i: usize = 0;
    while i < stats.len()
        invariant
            i <= stats@.len(),
            r@.len() == i,
            forall|j: int| 0 <= j < i ==> entry_of(name@, *task, stats@[j], now, #[trigger] r@[j]),
        decreases stats.len() - i,
    {
        let f = task.file.clone();
        r.push(
            NewEntry {
                requested: task.created,
                created: now,
                name: name.to_owned(),
                revision: f.revision,
                sha: f.sha,
                path: f.path,
                last_changed: f.last_changed,
                last_author: f.last_author,
                size: f.size,
                file_kind: task.kind,
                stat_kind: stats[i].0,
                value: stats[i].1,
            },
        );
        i = i + 1;
    }
    r
}

impl Registry {
    /// The files of `files` that a request for package `name` asks for, each
    /// with its kind: those of a recognised kind, of `maybe_kind` where it is
    /// given, and with no task of that kind and path in flight.
    pub fn requested_files(&self, name: &str, files: &Vec<FileWithoutSha>, maybe_kind: Option<FileKind>) -> (r: Vec<(FileKind, FileWithoutSha)>)
        ensures
            r@ == requested(self.pairs(), name@, files@, maybe_kind),
    {
        let mut r: Vec<(FileKind, FileWithoutSha)> = Vec::new();
        let mut i: usize = 0;
        while i < files.len()
            invariant
                i <= files@.len(),
                r@ == requested(self.pairs(), name@, files@.take(i as int), maybe_kind),
            decreases files.len() - i,
        {
            assert(files@.take(i + 1).drop_last() =~= files@.take(i as int));
            assert(files@.take(i + 1).last() == files@[i as int]);
            let f = &files[i];
            match get_file_kind(f.path.as_str()) {
                Some(k) => {
                    let wanted = match maybe_kind {
                        Some(m) => m == k,
                        None => true,
                    };
                    if wanted && !self.has_task(name, k, &f.path) {
                        r.push((k, clone_file(f)));
                    }
                },
                None => {},
            }
            i = i + 1;
        }
        assert(files@.take(files@.len() as int) =~= files@);
        r
    }

    /// Creates, at `now`, the tasks for the requested files whose revision has
    /// a hash among `shas`, and adds those not already in flight. Returns the
    /// tasks added, and then all the tasks in flight for `name`.
    pub fn launch_tasks(
        &mut self,
        name: &str,
        reqs: &Vec<(FileKind, FileWithoutSha)>,
        shas: &Vec<(i32, Option<String>)>,
        now: i64,
    ) -> (r: (Vec<Task>, Vec<Task>))
        requires
            old(self).wf(),
        ensures
            final(self).wf(),
            final(self).pairs() == recorded(old(self).pairs(), name@, tasks_for(reqs@, shas@, now)).0,
            r.0@ == recorded(old(self).pairs(), name@, tasks_for(reqs@, shas@, now)).1,
            r.1@ == flights(final(self).pairs(), name@),
    {
        let tasks = make_tasks(reqs, shas, now);
        self.record_new_tasks(name, tasks)
    }

    /// Ends `task` of package `name`: whatever its outcome, it leaves the
    /// registry; where its statistics were computed, they are returned as
    /// entries computed at `now`, and otherwise none is.
    pub fn complete_task(
        &mut self,
        name: &str,
        task: &Task,
        outcome: &Result<Vec<(StatKind, usize)>, StatsError>,
        now: i64,
    ) -> (r: Vec<NewEntry>)
        requires
            old(self).wf(),
        ensures
            final(self).wf(),
            final(self).pairs() == completed(old(self).pairs(), name@, key(*task)),
            !in_flight(final(self).pairs(), name@, key(*task)),
            match outcome {
                Ok(stats) => r@.len() == stats@.len() && forall|i: int|
                    0 <= i < r@.len() ==> entry_of(name@, *task, stats@[i], now, #[trigger] r@[i]),
                Err(_) => r@.len() == 0,
            },
    {
        self.record_task_completion(name, task.kind, &task.file.path);
        proof {
            lemma_completion_clears(old(self).pairs(), name@, key(*task));
        }
        match outcome {
            Ok(stats) => task_entries(name, task, stats, now),
            Err(_) => Vec::new(),
        }
    }
}

} // verus!
