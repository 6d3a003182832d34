//! The breadth-first disk walks: which directory comes next, which of a
//! directory's files are reported, and which of its sub-directories are
//! queued.
//!
//! The caller reads each directory and hands its entries to a step
//! function; the walk state decides the order, visits each path once, and
//! stops at the scan's cap.
use vstd::prelude::*;

use crate::projects::{directory_manifests, manifests_among, should_descend, skip_dirs, MAX_PROJECTS};
use crate::source_files::{
    dir_is_project, is_project_marker, loose_source_files, loose_sources, project_markers,
    should_enter, source_skip_dirs, MAX_SOURCE_FILES,
};
use crate::text::{chars_of, str_is};
use crate::types::{string_views, ProjectEcosystem, SourceLanguage};

verus! {

/// The number of buckets of a `PathSet`.
pub const PATH_BUCKETS: usize = 4096;

/// A hash of a path's characters, kept below a million.
pub open spec fn path_hash(s: Seq<char>) -> nat
    decreases s.len(),
{
    if s.len() == 0 {
        0
    } else {
        ((path_hash(s.drop_last()) * 31 + (s.last() as u32) as nat) % 1_000_003) as nat
    }
}

/// The bucket a path belongs in.
pub open spec fn bucket_of(s: Seq<char>) -> nat {
    path_hash(s) % (PATH_BUCKETS as nat)
}

/// The bucket of a path, computed.
fn path_bucket(s: &str) -> (r: usize)
    ensures
        r == bucket_of(s@),
        r < PATH_BUCKETS,
{
    let v = chars_of(s);
    let mut h: u64 = 0;
    let mut i: usize = 0;
    while i < v.len()
        invariant
            i <= v.len(),
            v@ == s@,
            h == path_hash(v@.take(i as int)),
            h < 1_000_003,
        decreases v.len() - i,
    {
        proof {
            assert(v@.take(i + 1).drop_last() =~= v@.take(i as int));
            assert(v@.take(i + 1).last() == v@[i as int]);
        }
        let c = v[i] as u32;
        h = (h * 31 + c as u64) % 1_000_003;
        i = i + 1;
    }
    assert(v@.take(v@.len() as int) =~= v@);
    (h % 4096) as usize
}

/// A set of paths, hashed into buckets.
pub struct PathSet {
    buckets: Vec<Vec<String>>,
}

impl PathSet {
    /// Every path sits in its own bucket.
    pub closed spec fn wf(&self) -> bool {
        &&& self.buckets@.len() == PATH_BUCKETS
        &&& forall|b: int, k: int|
            0 <= b < PATH_BUCKETS && 0 <= k < self.buckets@[b]@.len() ==> bucket_of(
                #[trigger] self.buckets@[b]@[k]@,
            ) == b
    }

    /// Whether `x` is held in bucket `b` of the set.
    pub closed spec fn holds_at(&self, x: Seq<char>, b: int) -> bool {
        exists|k: int| 0 <= k < self.buckets@[b]@.len() && #[trigger] self.buckets@[b]@[k]@ == x
    }

    /// The paths in the set.
    pub closed spec fn view(&self) -> Set<Seq<char>> {
        Set::new(|x: Seq<char>| self.holds_at(x, bucket_of(x) as int))
    }

    /// The empty set.
    pub fn new() -> (r: PathSet)
        ensures
            r.wf(),
            r.view() == Set::<Seq<char>>::empty(),
    {
        let mut buckets: Vec<Vec<String>> = Vec::new();
        let mut i: usize = 0;
        while i < PATH_BUCKETS
            invariant
                i <= PATH_BUCKETS,
                buckets@.len() == i,
                forall|b: int| 0 <= b < i ==> (#[trigger] buckets@[b])@.len() == 0,
            decreases PATH_BUCKETS - i,
        {
            buckets.push(Vec::new());
            i = i + 1;
        }
        let r = PathSet { buckets };
        assert(r.view() =~= Set::<Seq<char>>::empty());
        r
    }

    /// Add `s`; `true` when it was not in the set before.
    pub fn insert(&mut self, s: String) -> (r: bool)
        requires
            old(self).wf(),
        ensures
            final(self).wf(),
            final(self).view() == old(self).view().insert(s@),
            r == !old(self).view().contains(s@),
    {
        let b = path_bucket(s.as_str());
        let ghost before = *self;
        let mut k: usize = 0;
        while k < self.buckets[b].len()
            invariant
                self.wf(),
                *self == before,
                b == bucket_of(s@),
                b < PATH_BUCKETS,
                k <= self.buckets@[b as int]@.len(),
                forall|j: int| 0 <= j < k ==> (#[trigger] self.buckets@[b as int]@[j])@ != s@,
            decreases self.buckets@[b as int]@.len() - k,
        {
            if str_is(self.buckets[b][k].as_str(), s.as_str()) {
                assert(self.holds_at(s@, b as int));
                return false;
            }
            k = k + 1;
        }
        assert(!before.holds_at(s@, b as int));
        let ghost sv = s@;
        let ghost ss = s;
        let mut bucket: Vec<String> = Vec::new();
        std::mem::swap(&mut bucket, &mut self.buckets[b]);
        bucket.push(s);
        std::mem::swap(&mut bucket, &mut self.buckets[b]);
        proof {
            assert(self.buckets@.len() == PATH_BUCKETS);
            assert(self.buckets@[b as int]@ =~= before.buckets@[b as int]@.push(ss));
            assert(forall|c: int| 0 <= c < PATH_BUCKETS && c != b ==> self.buckets@[c] == before.buckets@[c]);
            assert forall|c: int, j: int|
                0 <= c < PATH_BUCKETS && 0 <= j < self.buckets@[c]@.len() implies bucket_of(
                #[trigger] self.buckets@[c]@[j]@,
            ) == c by {
                if c == b && j == before.buckets@[b as int]@.len() {
                } else {
                    assert(self.buckets@[c]@[j] == before.buckets@[c]@[j]);
                }
            }
            assert forall|x: Seq<char>| #[trigger] self.view().contains(x) == before.view().insert(sv).contains(x) by {
                let bx = bucket_of(x) as int;
                if x == sv {
                    assert(self.buckets@[b as int]@[before.buckets@[b as int]@.len() as int]@ == sv);
                    assert(self.holds_at(x, bx));
                } else {
                    if self.holds_at(x, bx) {
                        let j = choose|j: int| 0 <= j < self.buckets@[bx]@.len() && #[trigger] self.buckets@[bx]@[j]@ == x;
                        assert(before.buckets@[bx]@[j] == self.buckets@[bx]@[j]);
                        assert(before.holds_at(x, bx));
                    }
                    if before.holds_at(x, bx) {
                        let j = choose|j: int| 0 <= j < before.buckets@[bx]@.len() && #[trigger] before.buckets@[bx]@[j]@ == x;
                        assert(before.buckets@[bx]@[j] == self.buckets@[bx]@[j]);
                        assert(self.holds_at(x, bx));
                    }
                }
            }
            assert(self.view() =~= before.view().insert(sv));
        }
        true
    }
}

/// The first position from `i` on whose path is not in `visited`.
pub open spec fn first_unvisited(q: Seq<Seq<char>>, visited: Set<Seq<char>>, i: int) -> Option<int>
    decreases q.len() - i,
{
    if i < 0 || i >= q.len() {
        None
    } else if !visited.contains(q[i]) {
        Some(i)
    } else {
        first_unvisited(q, visited, i + 1)
    }
}

/// `a + b`, or the largest `usize` when that does not fit.
pub open spec fn saturating_sum(a: nat, b: nat) -> nat {
    if a + b <= usize::MAX {
        a + b
    } else {
        usize::MAX as nat
    }
}

/// The queue of a walk: every path queued so far, in order, the position
/// of the next one, the paths visited, and how many results were reported.
pub struct Queue {
    paths: Vec<String>,
    next: usize,
    visited: PathSet,
    found: usize,
}

impl Queue {
    /// The paths queued so far, in order.
    pub closed spec fn queued(&self) -> Seq<Seq<char>> {
        string_views(self.paths@)
    }

    /// The position of the next path to consider.
    pub closed spec fn next_pos(&self) -> nat {
        self.next as nat
    }

    /// The paths visited so far.
    pub closed spec fn visited(&self) -> Set<Seq<char>> {
        self.visited.view()
    }

    /// How many results the walk has reported.
    pub closed spec fn found(&self) -> nat {
        self.found as nat
    }

    /// The queue's positions are in range and its visited set is well formed.
    pub closed spec fn wf(&self) -> bool {
        &&& self.next <= self.paths@.len()
        &&& self.visited.wf()
    }

    fn starting(roots: Vec<String>) -> (r: Queue)
        ensures
            r.wf(),
            r.queued() == string_views(roots@),
            r.next_pos() == 0,
            r.visited() == Set::<Seq<char>>::empty(),
            r.found() == 0,
    {
        Queue { paths: roots, next: 0, visited: PathSet::new(), found: 0 }
    }

    /// Take the next path not visited yet, unless `cap` results were
    /// reported already: its position, marked visited.
    fn take_next(&mut self, cap: usize) -> (r: Option<usize>)
        requires
            old(self).wf(),
        ensures
            final(self).wf(),
            final(self).queued() == old(self).queued(),
            final(self).found() == old(self).found(),
            old(self).found() >= cap ==> r is None && final(self).next_pos() == old(self).next_pos()
                && final(self).visited() == old(self).visited(),
            old(self).found() < cap ==> match first_unvisited(
                old(self).queued(),
                old(self).visited(),
                old(self).next_pos() as int,
            ) {
                Some(p) => r == Some(p as usize) && final(self).next_pos() == p + 1
                    && final(self).visited() == old(self).visited().insert(old(self).queued()[p]),
                None => r is None && final(self).next_pos() == old(self).queued().len()
                    && final(self).visited() == old(self).visited(),
            },
    {
        if self.found >= cap {
            return None;
        }
        let ghost q = self.queued();
        let ghost start = self.next as int;
        let ghost v0 = self.visited();
        while self.next < self.paths.len()
            invariant
                self.wf(),
                q == self.queued(),
                v0 == self.visited(),
                start <= self.next,
                self.found < cap,
                self.paths == old(self).paths,
                self.found == old(self).found,
                q == old(self).queued(),
                v0 == old(self).visited(),
                start == old(self).next,
                first_unvisited(q, v0, start) == first_unvisited(q, v0, self.next as int),
            decreases self.paths@.len() - self.next,
        {
            let p = self.next;
            self.next = self.next + 1;
            let item = self.paths[p].clone();
            assert(q.len() == self.paths@.len());
            assert(item@ == q[p as int]);
            let fresh = self.visited.insert(item);
            if fresh {
                assert(!v0.contains(q[p as int]));
                assert(first_unvisited(q, v0, p as int) == Some(p as int));
                assert(self.visited() == v0.insert(q[p as int]));
                return Some(p);
            }
            assert(self.visited() =~= v0);
        }
        None
    }

    /// Append paths to the queue and count results.
    fn extend(&mut self, paths: Vec<String>, results: usize)
        requires
            old(self).wf(),
        ensures
            final(self).wf(),
            final(self).queued() == old(self).queued() + string_views(paths@),
            final(self).next_pos() == old(self).next_pos(),
            final(self).visited() == old(self).visited(),
            final(self).found() == saturating_sum(old(self).found(), results as nat),
    {
        let ghost q0 = self.queued();
        let mut i: usize = 0;
        while i < paths.len()
            invariant
                self.wf(),
                i <= paths.len(),
                self.queued() == q0 + string_views(paths@.take(i as int)),
                self.next_pos() == old(self).next_pos(),
                self.visited() == old(self).visited(),
                self.found == old(self).found,
            decreases paths.len() - i,
        {
            let ghost before = self.paths@;
            let item = paths[i].clone();
            assert(item@ == paths@[i as int]@);
            self.paths.push(item);
            proof {
                assert(paths@.take(i + 1) =~= paths@.take(i as int).push(paths@[i as int]));
                assert(string_views(self.paths@) =~= string_views(before).push(paths@[i as int]@));
                assert(string_views(paths@.take(i + 1)) =~= string_views(paths@.take(i as int)).push(paths@[i as int]@));
            }
            i = i + 1;
            assert(self.queued() =~= q0 + string_views(paths@.take(i as int)));
        }
        assert(paths@.take(paths@.len() as int) =~= paths@);
        self.found = if self.found > usize::MAX - results { usize::MAX } else { self.found + results };
    }
}

/// Whether the source-file walk enters a directory named `n`.
pub open spec fn enters_source_dir(n: Seq<char>) -> bool {
    !source_skip_dirs().contains(n) && !(n.len() > 0 && n[0] == '.')
}

/// Whether the project walk enters a directory named `n`.
pub open spec fn enters_project_dir(n: Seq<char>) -> bool {
    !skip_dirs().contains(n) && !(n.len() > 0 && n[0] == '.')
}

/// The positions among `names[j..]` of the directories the source-file walk
/// enters, last first.
pub open spec fn source_children(names: Seq<Seq<char>>, j: int) -> Seq<usize>
    decreases names.len() - j,
{
    if j < 0 || j >= names.len() {
        Seq::empty()
    } else {
        source_children(names, j + 1) + if enters_source_dir(names[j]) {
            seq![j as usize]
        } else {
            Seq::empty()
        }
    }
}

/// The positions among the first `k` names of the directories the project
/// walk enters, in order.
pub open spec fn project_children(names: Seq<Seq<char>>, k: int) -> Seq<usize>
    decreases k,
{
    if k <= 0 || k > names.len() {
        Seq::empty()
    } else {
        project_children(names, k - 1) + if enters_project_dir(names[k - 1]) {
            seq![(k - 1) as usize]
        } else {
            Seq::empty()
        }
    }
}

/// The paths at the given positions.
pub open spec fn paths_at(paths: Seq<Seq<char>>, at: Seq<usize>) -> Seq<Seq<char>> {
    at.map_values(|i: usize| paths[i as int])
}

/// Copies of the paths at the given positions.
fn copy_paths(paths: &Vec<String>, at: &Vec<usize>) -> (r: Vec<String>)
    requires
        forall|k: int| 0 <= k < at@.len() ==> (#[trigger] at@[k]) < paths@.len(),
    ensures
        string_views(r@) == paths_at(string_views(paths@), at@),
{
    let mut r: Vec<String> = Vec::new();
    let mut k: usize = 0;
    while k < at.len()
        invariant
            k <= at@.len(),
            forall|j: int| 0 <= j < at@.len() ==> (#[trigger] at@[j]) < paths@.len(),
            string_views(r@) == paths_at(string_views(paths@), at@.take(k as int)),
        decreases at@.len() - k,
    {
        let s = paths[at[k]].clone();
        assert(s@ == paths@[at@[k as int] as int]@);
        let ghost before = r@;
        r.push(s);
        assert(string_views(r@) =~= string_views(before).push(s@));
        assert(at@.take(k + 1) =~= at@.take(k as int).push(at@[k as int]));
        k = k + 1;
        assert(string_views(r@) =~= paths_at(string_views(paths@), at@.take(k as int)));
    }
    assert(at@.take(at@.len() as int) =~= at@);
    r
}

/// Whether any of the file names marks a project root.
fn any_project_marker(file_names: &Vec<String>) -> (r: bool)
    ensures
        r == dir_is_project(string_views(file_names@)),
{
    let ghost names = string_views(file_names@);
    let mut i: usize = 0;
    while i < file_names.len()
        invariant
            i <= file_names.len(),
            names == string_views(file_names@),
            forall|k: int| 0 <= k < i ==> !project_markers().contains(#[trigger] names[k]),
        decreases file_names.len() - i,
    {
        if is_project_marker(file_names[i].as_str()) {
            assert(project_markers().contains(names[i as int]));
            return true;
        }
        i = i + 1;
    }
    false
}

/// The walk for loose source files, from one root.
pub struct SourceWalk {
    queue: Queue,
}

impl SourceWalk {
    /// The walk's queue.
    pub closed spec fn queue(&self) -> Queue {
        self.queue
    }

    /// The walk's state is well formed.
    pub closed spec fn wf(&self) -> bool {
        self.queue.wf()
    }

    /// A walk that starts at `root`.
    pub fn new(root: String) -> (r: SourceWalk)
        ensures
            r.wf(),
            r.queue().queued() == seq![root@],
            r.queue().next_pos() == 0,
            r.queue().visited() == Set::<Seq<char>>::empty(),
            r.queue().found() == 0,
    {
        let mut roots: Vec<String> = Vec::new();
        roots.push(root);
        assert(string_views(roots@) =~= seq![roots@[0]@]);
        SourceWalk { queue: Queue::starting(roots) }
    }

    /// The position in the queue of the next directory to read: the first
    /// queued path not visited yet, now marked visited; `None` once the
    /// queue is used up or `MAX_SOURCE_FILES` files were reported.
    pub fn next_dir(&mut self) -> (r: Option<usize>)
        requires
            old(self).wf(),
        ensures
            final(self).wf(),
            final(self).queue().queued() == old(self).queue().queued(),
            final(self).queue().found() == old(self).queue().found(),
            old(self).queue().found() >= MAX_SOURCE_FILES ==> r is None,
            old(self).queue().found() < MAX_SOURCE_FILES ==> match first_unvisited(
                old(self).queue().queued(),
                old(self).queue().visited(),
                old(self).queue().next_pos() as int,
            ) {
                Some(p) => r == Some(p as usize) && final(self).queue().next_pos() == p + 1
                    && final(self).queue().visited() == old(self).queue().visited().insert(
                    old(self).queue().queued()[p],
                ),
                None => r is None,
            },
            r matches Some(p) ==> !old(self).queue().visited().contains(old(self).queue().queued()[p as int]),
    {
        proof {
            lemma_first_unvisited(self.queue.queued(), self.queue.visited(), self.queue.next_pos() as int);
        }
        self.queue.take_next(MAX_SOURCE_FILES)
    }

    /// One directory read: the files it reports, by index and language, and
    /// the positions of the sub-directories queued after it. A directory
    /// holding a project manifest reports nothing and queues nothing; any
    /// other reports its loose source files and queues the sub-directories
    /// the walk enters, last listed first.
    pub fn step(
        &mut self,
        dir_names: &Vec<String>,
        dir_paths: &Vec<String>,
        file_names: &Vec<String>,
        languages: &[SourceLanguage],
    ) -> (r: (Vec<(usize, SourceLanguage)>, Vec<usize>))
        requires
            old(self).wf(),
            dir_names@.len() == dir_paths@.len(),
        ensures
            final(self).wf(),
            r.0@ == loose_sources(string_views(file_names@), languages@),
            r.1@ == if dir_is_project(string_views(file_names@)) {
                Seq::empty()
            } else {
                source_children(string_views(dir_names@), 0)
            },
            dir_is_project(string_views(file_names@)) ==> r.0@.len() == 0 && r.1@.len() == 0,
            final(self).queue().queued() == old(self).queue().queued() + paths_at(
                string_views(dir_paths@),
                r.1@,
            ),
            final(self).queue().next_pos() == old(self).queue().next_pos(),
            final(self).queue().visited() == old(self).queue().visited(),
            final(self).queue().found() == saturating_sum(old(self).queue().found(), r.0@.len()),
    {
        let files = loose_source_files(file_names, languages);
        let ghost names = string_views(dir_names@);
        let mut children: Vec<usize> = Vec::new();
        if !any_project_marker(file_names) {
            let mut j: usize = dir_names.len();
            while j > 0
                invariant
                    j <= dir_names@.len(),
                    names == string_views(dir_names@),
                    children@ == source_children(names, j as int),
                    forall|k: int| 0 <= k < children@.len() ==> (#[trigger] children@[k]) < dir_names@.len(),
                decreases j,
            {
                j = j - 1;
                if should_enter(dir_names[j].as_str()) {
                    children.push(j);
                }
                assert(children@ =~= source_children(names, j as int));
            }
        } else {
            assert(children@ =~= Seq::<usize>::empty());
        }
        let queued = copy_paths(dir_paths, &children);
        self.queue.extend(queued, files.len());
        (files, children)
    }
}

/// The project walk, from several roots: each queued directory carries the
/// ecosystems found in it or above it, which are not reported again below.
pub struct ProjectWalk {
    queue: Queue,
    above: Vec<Vec<ProjectEcosystem>>,
}

/// The manifests whose ecosystem is not among `above`, in order.
pub open spec fn new_manifests(ms: Seq<(usize, ProjectEcosystem)>, above: Seq<ProjectEcosystem>) -> Seq<
    (usize, ProjectEcosystem),
>
    decreases ms.len(),
{
    if ms.len() == 0 {
        Seq::empty()
    } else {
        new_manifests(ms.drop_last(), above) + if above.contains(ms.last().1) {
            Seq::empty()
        } else {
            seq![ms.last()]
        }
    }
}

/// The ecosystems of a list of manifests.
pub open spec fn ecosystems_of(ms: Seq<(usize, ProjectEcosystem)>) -> Seq<ProjectEcosystem> {
    ms.map_values(|m: (usize, ProjectEcosystem)| m.1)
}

impl ProjectWalk {
    /// The walk's queue.
    pub closed spec fn queue(&self) -> Queue {
        self.queue
    }

    /// The ecosystems found in or above each queued directory.
    pub closed spec fn above(&self) -> Seq<Seq<ProjectEcosystem>> {
        self.above@.map_values(|v: Vec<ProjectEcosystem>| v@)
    }

    /// The walk's state is well formed: one list of ecosystems per queued path.
    pub closed spec fn wf(&self) -> bool {
        &&& self.queue.wf()
        &&& self.above@.len() == self.queue.paths@.len()
    }

    /// A walk over `roots`, in order, with nothing found above them.
    pub fn new(roots: Vec<String>) -> (r: ProjectWalk)
        ensures
            r.wf(),
            r.queue().queued() == string_views(roots@),
            r.queue().next_pos() == 0,
            r.queue().visited() == Set::<Seq<char>>::empty(),
            r.queue().found() == 0,
            forall|k: int| 0 <= k < roots@.len() ==> (#[trigger] r.above()[k]).len() == 0,
    {
        let mut above: Vec<Vec<ProjectEcosystem>> = Vec::new();
        let mut i: usize = 0;
        while i < roots.len()
            invariant
                i <= roots@.len(),
                above@.len() == i,
                forall|k: int| 0 <= k < i ==> (#[trigger] above@[k])@.len() == 0,
            decreases roots@.len() - i,
        {
            above.push(Vec::new());
            i = i + 1;
        }
        let r = ProjectWalk { queue: Queue::starting(roots), above };
        assert(r.queue.paths@.len() == string_views(roots@).len());
        r
    }

    /// The position in the queue of the next directory to read, as for the
    /// source-file walk, with `MAX_PROJECTS` as the cap.
    pub fn next_dir(&mut self) -> (r: Option<usize>)
        requires
            old(self).wf(),
        ensures
            final(self).wf(),
            final(self).above() == old(self).above(),
            final(self).queue().queued() == old(self).queue().queued(),
            final(self).queue().found() == old(self).queue().found(),
            old(self).queue().found() >= MAX_PROJECTS ==> r is None,
            old(self).queue().found() < MAX_PROJECTS ==> match first_unvisited(
                old(self).queue().queued(),
                old(self).queue().visited(),
                old(self).queue().next_pos() as int,
            ) {
                Some(p) => r == Some(p as usize) && final(self).queue().next_pos() == p + 1
                    && final(self).queue().visited() == old(self).queue().visited().insert(
                    old(self).queue().queued()[p],
                ),
                None => r is None,
            },
            r matches Some(p) ==> p < old(self).queue().queued().len()
                && !old(self).queue().visited().contains(old(self).queue().queued()[p as int]),
    {
        proof {
            lemma_first_unvisited(self.queue.queued(), self.queue.visited(), self.queue.next_pos() as int);
        }
        self.queue.take_next(MAX_PROJECTS)
    }

    /// One directory read, the one at queue position `at`: the manifests it
    /// reports, by file index and ecosystem, and the positions of the
    /// sub-directories queued after it, in the order listed. A manifest is
    /// reported only when its ecosystem was not found in or above the
    /// directory; the queued sub-directories carry what was found above plus
    /// what is reported here.
    pub fn step(
        &mut self,
        at: usize,
        dir_names: &Vec<String>,
        dir_paths: &Vec<String>,
        file_names: &Vec<String>,
    ) -> (r: (Vec<(usize, ProjectEcosystem)>, Vec<usize>))
        requires
            old(self).wf(),
            at < old(self).queue().queued().len(),
            dir_names@.len() == dir_paths@.len(),
        ensures
            final(self).wf(),
            r.0@ == new_manifests(manifests_among(string_views(file_names@)), old(self).above()[at as int]),
            forall|k: int| 0 <= k < r.0@.len() ==> !old(self).above()[at as int].contains(#[trigger] r.0@[k].1),
            r.1@ == project_children(string_views(dir_names@), dir_names@.len() as int),
            final(self).queue().queued() == old(self).queue().queued() + paths_at(
                string_views(dir_paths@),
                r.1@,
            ),
            final(self).above().len() == final(self).queue().queued().len(),
            forall|k: int| 0 <= k < old(self).above().len() ==> #[trigger] final(self).above()[k] == old(self).above()[k],
            forall|k: int|
                old(self).above().len() <= k < final(self).above().len() ==> #[trigger] final(self).above()[k]
                    == old(self).above()[at as int] + ecosystems_of(r.0@),
            final(self).queue().next_pos() == old(self).queue().next_pos(),
            final(self).queue().visited() == old(self).queue().visited(),
            final(self).queue().found() == saturating_sum(old(self).queue().found(), r.0@.len()),
    {
        let ghost old_above = self.above();
        let ghost names = string_views(dir_names@);
        assert(self.queue.queued().len() == self.queue.paths@.len());
        let manifests = directory_manifests(file_names);
        let ghost ms = manifests@;
        let found_above: &Vec<ProjectEcosystem> = &self.above[at];
        let ghost base = found_above@;
        let mut here: Vec<ProjectEcosystem> = Vec::new();
        let mut h: usize = 0;
        while h < found_above.len()
            invariant
                h <= found_above@.len(),
                here@ == found_above@.take(h as int),
            decreases found_above@.len() - h,
        {
            here.push(found_above[h]);
            h = h + 1;
            assert(here@ =~= found_above@.take(h as int));
        }
        assert(here@ =~= base);
        let mut fresh: Vec<(usize, ProjectEcosystem)> = Vec::new();
        let mut i: usize = 0;
        while i < manifests.len()
            invariant
                i <= manifests@.len(),
                ms == manifests@,
                fresh@ == new_manifests(ms.take(i as int), base),
                here@ == base + ecosystems_of(fresh@),
                base == found_above@,
            decreases manifests@.len() - i,
        {
            let m = manifests[i];
            let mut seen = false;
            let mut k: usize = 0;
            while k < found_above.len()
                invariant
                    k <= found_above@.len(),
                    base == found_above@,
                    seen == exists|j: int| 0 <= j < k && base[j] == m.1,
                decreases found_above@.len() - k,
            {
                if found_above[k] == m.1 {
                    seen = true;
                }
                k = k + 1;
            }
            proof {
                assert(ms.take(i + 1).drop_last() =~= ms.take(i as int));
                assert(ms.take(i + 1).last() == m);
                assert(seen == base.contains(m.1));
            }
            if !seen {
                fresh.push(m);
                here.push(m.1);
            }
            i = i + 1;
            assert(here@ =~= base + ecosystems_of(fresh@));
        }
        assert(ms.take(ms.len() as int) =~= ms);
        proof {
            lemma_new_manifests_fresh(ms, base);
        }
        let mut children: Vec<usize> = Vec::new();
        let mut j: usize = 0;
        while j < dir_names.len()
            invariant
                j <= dir_names@.len(),
                names == string_views(dir_names@),
                children@ == project_children(names, j as int),
                forall|k: int| 0 <= k < children@.len() ==> (#[trigger] children@[k]) < dir_names@.len(),
            decreases dir_names@.len() - j,
        {
            if should_descend(dir_names[j].as_str()) {
                children.push(j);
            }
            j = j + 1;
            assert(children@ =~= project_children(names, j as int));
        }
        let queued = copy_paths(dir_paths, &children);
        let mut c: usize = 0;
        while c < children.len()
            invariant
                c <= children@.len(),
                self.above@.len() == old(self).above@.len() + c,
                forall|k: int| 0 <= k < old(self).above@.len() ==> #[trigger] self.above@[k] == old(self).above@[k],
                forall|k: int|
                    old(self).above@.len() <= k < self.above@.len() ==> (#[trigger] self.above@[k])@ == here@,
                self.queue == old(self).queue,
            decreases children@.len() - c,
        {
            self.above.push(here.clone());
            c = c + 1;
        }
        self.queue.extend(queued, fresh.len());
        proof {
            assert(self.queue.queued().len() == self.queue.paths@.len());
            assert(old(self).queue.queued().len() == old(self).queue.paths@.len());
            assert forall|k: int| 0 <= k < old_above.len() implies #[trigger] self.above()[k] == old_above[k] by {}
        }
        (fresh, children)
    }
}

/// A position `first_unvisited` finds lies in the queue, from `i` on.
proof fn lemma_first_unvisited(q: Seq<Seq<char>>, visited: Set<Seq<char>>, i: int)
    ensures
        first_unvisited(q, visited, i) matches Some(p) ==> i <= p < q.len() && !visited.contains(q[p]),
    decreases q.len() - i,
{
    if 0 <= i < q.len() && visited.contains(q[i]) {
        lemma_first_unvisited(q, visited, i + 1);
    }
}

/// No manifest kept by `new_manifests` has an ecosystem among `above`.
proof fn lemma_new_manifests_fresh(ms: Seq<(usize, ProjectEcosystem)>, above: Seq<ProjectEcosystem>)
    ensures
        forall|k: int| 0 <= k < new_manifests(ms, above).len() ==> !above.contains(
            #[trigger] new_manifests(ms, above)[k].1,
        ),
    decreases ms.len(),
{
    if ms.len() > 0 {
        lemma_new_manifests_fresh(ms.drop_last(), above);
        let init = new_manifests(ms.drop_last(), above);
        let r = new_manifests(ms, above);
        assert forall|k: int| 0 <= k < r.len() implies !above.contains(#[trigger] r[k].1) by {
            if k < init.len() {
                assert(r[k] == init[k]);
            }
        }
    }
}

/// Breadth-first order: the next directory is the earliest queued one not
/// yet visited, every one queued between being visited already; with none
/// left, every one from `i` on is visited.
pub proof fn lemma_first_unvisited_is_earliest(q: Seq<Seq<char>>, visited: Set<Seq<char>>, i: int)
    requires
        0 <= i,
    ensures
        first_unvisited(q, visited, i) matches Some(p) ==> i <= p < q.len() && !visited.contains(q[p])
            && forall|k: int| i <= k < p ==> visited.contains(#[trigger] q[k]),
        first_unvisited(q, visited, i) is None ==> forall|k: int| i <= k < q.len() ==> visited.contains(
            #[trigger] q[k],
        ),
    decreases q.len() - i,
{
    if i < q.len() && visited.contains(q[i]) {
        lemma_first_unvisited_is_earliest(q, visited, i + 1);
    }
}

/// The directories the project walk never enters: dependency caches, VCS
/// and build output.
pub open spec fn project_walk_skips() -> Set<Seq<char>> {
    set![
        "node_modules"@, ".git"@, ".svn"@, ".hg"@, "target"@, "build"@, "dist"@, ".next"@,
        ".nuxt"@, ".cache"@, ".gradle"@, ".m2"@, "venv"@, ".venv"@, "env"@, "__pycache__"@,
        ".tox"@, ".pytest_cache"@, "vendor"@, ".cargo"@, ".rustup"@, "Pods"@, "DerivedData"@,
        ".deno"@, ".bun"@, "coverage"@, ".turbo"@,
    ]
}

/// The directories the source-file walk never enters: dependency caches,
/// VCS and build output, and system or media folders.
pub open spec fn source_walk_skips() -> Set<Seq<char>> {
    set![
        "node_modules"@, ".git"@, ".svn"@, ".hg"@, "target"@, "dist"@, ".next"@, ".nuxt"@,
        ".cache"@, ".gradle"@, ".m2"@, "venv"@, ".venv"@, "env"@, "__pycache__"@, ".tox"@,
        ".pytest_cache"@, "vendor"@, ".cargo"@, ".rustup"@, "Pods"@, "DerivedData"@, ".deno"@,
        ".bun"@, "coverage"@, ".turbo"@, "Library"@, "Pictures"@, "Music"@, "Movies"@, ".Trash"@,
    ]
}

/// Whether a directory name is hidden.
pub open spec fn is_hidden(n: Seq<char>) -> bool {
    n.len() > 0 && n[0] == '.'
}

/// The walks enter exactly the directories that are neither hidden nor
/// among those they skip.
pub proof fn lemma_walks_enter(n: Seq<char>)
    ensures
        enters_project_dir(n) == (!project_walk_skips().contains(n) && !is_hidden(n)),
        enters_source_dir(n) == (!source_walk_skips().contains(n) && !is_hidden(n)),
{
    assert(skip_dirs().to_set() =~= project_walk_skips()) by {
        assert forall|x: Seq<char>| skip_dirs().contains(x) <==> project_walk_skips().contains(x) by {
            if skip_dirs().contains(x) {
                let k = choose|k: int| 0 <= k < skip_dirs().len() && skip_dirs()[k] == x;
                assert(0 <= k < 27);
            }
        }
    }
    assert(source_skip_dirs().to_set() =~= source_walk_skips()) by {
        assert forall|x: Seq<char>| source_skip_dirs().contains(x) <==> source_walk_skips().contains(x) by {
            if source_skip_dirs().contains(x) {
                let k = choose|k: int| 0 <= k < source_skip_dirs().len() && source_skip_dirs()[k] == x;
                assert(0 <= k < 31);
            }
        }
    }
    assert(skip_dirs().contains(n) == skip_dirs().to_set().contains(n));
    assert(source_skip_dirs().contains(n) == source_skip_dirs().to_set().contains(n));
}

/// The project walk queues, in the order listed, exactly the sub-directories
/// it enters.
pub proof fn lemma_project_children(names: Seq<Seq<char>>, k: int)
    requires
        0 <= k <= names.len(),
        names.len() <= usize::MAX,
    ensures
        forall|a: int, b: int|
            0 <= a < b < project_children(names, k).len() ==> #[trigger] project_children(names, k)[a]
                < #[trigger] project_children(names, k)[b],
        forall|j: int|
            0 <= j < k ==> (project_children(names, k).contains(j as usize) <==> enters_project_dir(
                #[trigger] names[j],
            )),
        forall|a: int|
            0 <= a < project_children(names, k).len() ==> #[trigger] project_children(names, k)[a] < k,
    decreases k,
{
    if k > 0 {
        lemma_project_children(names, k - 1);
        let init = project_children(names, k - 1);
        let r = project_children(names, k);
        if enters_project_dir(names[k - 1]) {
            assert(r == init.push((k - 1) as usize));
        } else {
            assert(r == init);
        }
        assert forall|a: int| 0 <= a < init.len() implies r[a] == init[a] by {}
        assert forall|j: int| 0 <= j < k implies (r.contains(j as usize) <==> enters_project_dir(
            #[trigger] names[j],
        )) by {
            if r.contains(j as usize) {
                let a = choose|a: int| 0 <= a < r.len() && r[a] == j as usize;
                if a < init.len() {
                    assert(init[a] == j as usize);
                }
            }
            if enters_project_dir(names[j]) {
                if j < k - 1 {
                    let a = choose|a: int| 0 <= a < init.len() && init[a] == j as usize;
                    assert(r[a] == j as usize);
                } else {
                    assert(r[init.len() as int] == j as usize);
                }
            }
        }
    }
}

/// The source-file walk queues, last listed first, exactly the
/// sub-directories it enters.
pub proof fn lemma_source_children(names: Seq<Seq<char>>, j: int)
    requires
        0 <= j <= names.len(),
        names.len() <= usize::MAX,
    ensures
        forall|a: int, b: int|
            0 <= a < b < source_children(names, j).len() ==> #[trigger] source_children(names, j)[a]
                > #[trigger] source_children(names, j)[b],
        forall|m: int|
            j <= m < names.len() ==> (source_children(names, j).contains(m as usize) <==> enters_source_dir(
                #[trigger] names[m],
            )),
        forall|a: int|
            0 <= a < source_children(names, j).len() ==> j <= #[trigger] source_children(names, j)[a] < names.len(),
    decreases names.len() - j,
{
    if j < names.len() {
        lemma_source_children(names, j + 1);
        let rest = source_children(names, j + 1);
        let r = source_children(names, j);
        if enters_source_dir(names[j]) {
            assert(r == rest.push(j as usize));
        } else {
            assert(r == rest);
        }
        assert forall|a: int| 0 <= a < rest.len() implies r[a] == rest[a] by {}
        assert forall|m: int| j <= m < names.len() implies (r.contains(m as usize) <==> enters_source_dir(
            #[trigger] names[m],
        )) by {
            if r.contains(m as usize) {
                let a = choose|a: int| 0 <= a < r.len() && r[a] == m as usize;
                if a < rest.len() {
                    assert(rest[a] == m as usize);
                }
            }
            if enters_source_dir(names[m]) {
                if m > j {
                    let a = choose|a: int| 0 <= a < rest.len() && rest[a] == m as usize;
                    assert(r[a] == m as usize);
                } else {
                    assert(r[rest.len() as int] == m as usize);
                }
            }
        }
    }
}

/// The caps of the walks: the source-file walk reads no directory once
/// 5000 files were reported, the project walk none once 2000 projects were
/// (the caps `next_dir` applies).
pub proof fn lemma_walk_caps()
    ensures
        MAX_SOURCE_FILES == 5000,
        MAX_PROJECTS == 2000,
{
}

} // verus!
