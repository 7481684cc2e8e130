use vstd::prelude::*;

use crate::bytes::{bytes_eq, copy_bytes};
use crate::cutoff::{sat_add, CutoffDecision};
use crate::size_text::{decimal_size_text, format_decimal_size};

verus! {

/// How a directory entry takes part in the descent.
#[derive(Clone, Copy, Debug, PartialEq, Eq, Structural)]
pub enum ChildKind {
    /// A subdirectory.
    Dir,
    /// A symbolic link whose target is an existing directory.
    SymlinkToDir,
    /// Anything else, a broken link included.
    Other,
}

/// One entry of a directory listing: its file name, its path, and its kind.
#[derive(Clone, Debug, PartialEq, Eq)]
pub struct Child {
    pub name: Vec<u8>,
    pub path: Vec<u8>,
    pub kind: ChildKind,
}

pub struct ChildView {
    pub name: Seq<u8>,
    pub path: Seq<u8>,
    pub kind: ChildKind,
}

impl View for Child {
    type V = ChildView;

    open spec fn view(&self) -> ChildView {
        ChildView { name: self.name@, path: self.path@, kind: self.kind }
    }
}

/// The bytes of a path separator.
pub const SEPARATOR: u8 = 47;

/// `Cargo.toml`, the file that marks a project directory.
pub open spec fn manifest_name() -> Seq<u8> {
    seq![67u8, 97u8, 114u8, 103u8, 111u8, 46u8, 116u8, 111u8, 109u8, 108u8]
}

/// `target`, the directory that holds a project's build output.
pub open spec fn build_output_name() -> Seq<u8> {
    seq![116u8, 97u8, 114u8, 103u8, 101u8, 116u8]
}

fn manifest_name_bytes() -> (r: Vec<u8>)
    ensures
        r@ == manifest_name(),
{
    let r = vec![67u8, 97u8, 114u8, 103u8, 111u8, 46u8, 116u8, 111u8, 109u8, 108u8];
    proof {
        assert(r@ =~= manifest_name());
    }
    r
}

fn build_output_name_bytes() -> (r: Vec<u8>)
    ensures
        r@ == build_output_name(),
{
    let r = vec![116u8, 97u8, 114u8, 103u8, 101u8, 116u8];
    proof {
        assert(r@ =~= build_output_name());
    }
    r
}

/// The path of the build-output directory inside `dir`.
pub open spec fn build_output_path(dir: Seq<u8>) -> Seq<u8> {
    if dir.len() > 0 && dir.last() == SEPARATOR {
        dir + build_output_name()
    } else {
        dir.push(SEPARATOR) + build_output_name()
    }
}

pub open spec fn children_view(children: Seq<Child>) -> Seq<ChildView> {
    children.map_values(|c: Child| c@)
}

/// Some entry of the listing has exactly this name.
pub open spec fn has_name(children: Seq<ChildView>, name: Seq<u8>) -> bool {
    exists|i: int| 0 <= i < children.len() && #[trigger] children[i].name == name
}

/// The listing holds both a manifest and a build-output directory.
pub open spec fn is_project(children: Seq<ChildView>) -> bool {
    has_name(children, manifest_name()) && has_name(children, build_output_name())
}

/// The entry leads to a directory that the descent may enter.
pub open spec fn is_candidate(c: ChildView) -> bool {
    c.kind == ChildKind::Dir || c.kind == ChildKind::SymlinkToDir
}

/// The paths of the entries the descent may enter, in listing order.
pub open spec fn candidate_paths(children: Seq<ChildView>) -> Seq<Seq<u8>>
    decreases children.len(),
{
    if children.len() == 0 {
        Seq::empty()
    } else {
        let rest = candidate_paths(children.drop_last());
        if is_candidate(children.last()) {
            rest.push(children.last().path)
        } else {
            rest
        }
    }
}

/// What a directory listing shows: whether the directory is a project, and
/// which of its entries lead to directories.
#[derive(Clone, Debug, PartialEq, Eq)]
pub struct Classification {
    pub is_project: bool,
    pub candidates: Vec<Vec<u8>>,
}

pub open spec fn paths_view(v: Seq<Vec<u8>>) -> Seq<Seq<u8>> {
    v.map_values(|p: Vec<u8>| p@)
}

/// Classifies a directory by its listing.
pub fn classify_children(children: &Vec<Child>) -> (r: Classification)
    ensures
        r.is_project == is_project(children_view(children@)),
        paths_view(r.candidates@) == candidate_paths(children_view(children@)),
{
    let manifest = manifest_name_bytes();
    let build_output = build_output_name_bytes();
    let ghost all = children_view(children@);
    let mut has_manifest = false;
    let mut has_build_output = false;
    let mut candidates: Vec<Vec<u8>> = Vec::new();
    let mut i: usize = 0;
    while i < children.len()
        invariant
            i <= children.len(),
            all == children_view(children@),
            manifest@ == manifest_name(),
            build_output@ == build_output_name(),
            has_manifest == has_name(all.subrange(0, i as int), manifest_name()),
            has_build_output == has_name(all.subrange(0, i as int), build_output_name()),
            paths_view(candidates@) == candidate_paths(all.subrange(0, i as int)),
        decreases children.len() - i,
    {
        let c = &children[i];
        let ghost pre = all.subrange(0, i as int);
        let ghost post = all.subrange(0, i + 1);
        proof {
            assert(post.drop_last() =~= pre);
            assert(post.last() == c@);
            assert forall|name: Seq<u8>| #[trigger]
                has_name(post, name) == (has_name(pre, name) || c@.name == name) by {
                if has_name(post, name) {
                    let k = choose|k: int| 0 <= k < post.len() && #[trigger] post[k].name == name;
                    if k < pre.len() {
                        assert(pre[k] == post[k]);
                    }
                }
                if has_name(pre, name) {
                    let k = choose|k: int| 0 <= k < pre.len() && #[trigger] pre[k].name == name;
                    assert(post[k] == pre[k]);
                }
                if c@.name == name {
                    assert(post[i as int] == c@);
                }
            }
        }
        if bytes_eq(&c.name, &manifest) {
            has_manifest = true;
        }
        if bytes_eq(&c.name, &build_output) {
            has_build_output = true;
        }
        if c.kind == ChildKind::Dir || c.kind == ChildKind::SymlinkToDir {
            let p = copy_bytes(&c.path);
            let ghost before = candidates@;
            candidates.push(p);
            proof {
                assert(paths_view(candidates@) =~= paths_view(before).push(c@.path));
            }
        }
        i = i + 1;
    }
    proof {
        assert(all.subrange(0, i as int) =~= all);
    }
    Classification { is_project: has_manifest && has_build_output, candidates }
}

/// The scan as the library reasons about it.
pub struct ScanModel {
    pub cutoff: Option<i128>,
    pub delete_authorized: bool,
    /// The canonical paths of the directories on the current descent path.
    pub visited: Seq<Seq<u8>>,
    /// Directories still to enter, each with the depth of the directory that
    /// listed it; the last one is entered first.
    pub work: Seq<(Seq<u8>, int)>,
    /// Bytes reclaimed so far.
    pub total: u64,
    pub phase: PhaseModel,
}

pub enum PhaseModel {
    /// Waiting for the listing of this directory.
    Listing(Seq<u8>),
    /// Waiting for the decision on this build-output directory.
    Deciding(Seq<u8>),
    /// Waiting for the canonical path of the last work item.
    Resolving,
    /// Waiting for the caller to acknowledge a report.
    Acknowledging,
    Finished,
}

pub enum EventModel {
    Listed(Seq<ChildView>),
    Decided(CutoffDecision),
    Resolved(Option<Seq<u8>>),
    Acknowledged,
}

pub enum ActionModel {
    List(Seq<u8>),
    Evaluate(Seq<u8>, i128),
    Measure(Seq<u8>),
    Resolve(Seq<u8>),
    Reclaim(Seq<u8>, u64, bool),
    Cycle(Seq<Seq<u8>>),
    Done(u64),
    Ignored,
}

/// The state a scan of `root` starts in.
pub open spec fn initial(root: Seq<u8>, cutoff: Option<i128>, delete_authorized: bool) -> ScanModel {
    ScanModel {
        cutoff,
        delete_authorized,
        visited: seq![root],
        work: Seq::empty(),
        total: 0,
        phase: PhaseModel::Listing(root),
    }
}

/// What a state may be: the descent path never holds a path twice, and a scan
/// that resolves has something to resolve.
pub open spec fn model_wf(s: ScanModel) -> bool {
    &&& s.visited.no_duplicates()
    &&& (s.phase is Resolving ==> s.work.len() > 0)
}

/// Work items for the candidates of a directory at depth `depth`, in the order
/// in which they are pushed: the first candidate ends on top.
pub open spec fn pushed_work(cands: Seq<Seq<u8>>, depth: int) -> Seq<(Seq<u8>, int)> {
    Seq::new(cands.len(), |k: int| (cands[cands.len() - 1 - k], depth))
}

/// The descent path cut back to its first `depth` entries.
pub open spec fn truncated(v: Seq<Seq<u8>>, depth: int) -> Seq<Seq<u8>> {
    if 0 <= depth < v.len() {
        v.subrange(0, depth)
    } else {
        v
    }
}

/// The chain of a symbolic-link cycle: the descent path from the first
/// occurrence of `c` on, followed by `c` again.
pub open spec fn cycle_chain(v: Seq<Seq<u8>>, c: Seq<u8>) -> Seq<Seq<u8>> {
    let i = choose|i: int| 0 <= i < v.len() && v[i] == c;
    v.subrange(i, v.len() as int).push(c)
}

/// Takes the next work item, or ends the scan when none is left.
pub open spec fn advance(s: ScanModel) -> (ScanModel, ActionModel) {
    if s.work.len() == 0 {
        (ScanModel { phase: PhaseModel::Finished, ..s }, ActionModel::Done(s.total))
    } else {
        (ScanModel { phase: PhaseModel::Resolving, ..s }, ActionModel::Resolve(s.work.last().0))
    }
}

/// One step of the scan: the next state and the action asked of the caller.
pub open spec fn next(s: ScanModel, e: EventModel) -> (ScanModel, ActionModel) {
    match (s.phase, e) {
        (PhaseModel::Listing(dir), EventModel::Listed(children)) => {
            if is_project(children) {
                let t = build_output_path(dir);
                let a = match s.cutoff {
                    Some(c) => ActionModel::Evaluate(t, c),
                    None => ActionModel::Measure(t),
                };
                (ScanModel { phase: PhaseModel::Deciding(t), ..s }, a)
            } else {
                let w = s.work + pushed_work(candidate_paths(children), s.visited.len() as int);
                advance(ScanModel { work: w, ..s })
            }
        },
        (PhaseModel::Deciding(t), EventModel::Decided(d)) => {
            match d {
                CutoffDecision::Eligible(n) => (
                    ScanModel {
                        total: sat_add(s.total, n),
                        phase: PhaseModel::Acknowledging,
                        ..s
                    },
                    ActionModel::Reclaim(t, n, s.delete_authorized),
                ),
                CutoffDecision::NotEligible => advance(s),
            }
        },
        (PhaseModel::Resolving, EventModel::Resolved(r)) => {
            let item = s.work.last();
            let w = s.work.drop_last();
            match r {
                None => advance(ScanModel { work: w, ..s }),
                Some(c) => {
                    let v = truncated(s.visited, item.1);
                    if v.contains(c) {
                        (
                            ScanModel { visited: v, work: w, phase: PhaseModel::Acknowledging, ..s },
                            ActionModel::Cycle(cycle_chain(v, c)),
                        )
                    } else {
                        (
                            ScanModel {
                                visited: v.push(c),
                                work: w,
                                phase: PhaseModel::Listing(item.0),
                                ..s
                            },
                            ActionModel::List(item.0),
                        )
                    }
                },
            }
        },
        (PhaseModel::Acknowledging, EventModel::Acknowledged) => advance(s),
        _ => (s, ActionModel::Ignored),
    }
}

/// A directory still to enter, with the depth of the directory that listed it.
pub struct WorkItem {
    pub path: Vec<u8>,
    pub depth: usize,
}

pub enum Phase {
    Listing(Vec<u8>),
    Deciding(Vec<u8>),
    Resolving,
    Acknowledging,
    Finished,
}

/// What the caller reports back after carrying out an action.
#[derive(Clone, Debug, PartialEq, Eq)]
pub enum Event {
    /// The readable entries of the directory asked for (none when it could not
    /// be opened).
    Listed(Vec<Child>),
    /// The decision on the build-output directory asked for.
    Decided(CutoffDecision),
    /// The canonical path of the directory asked for, if it could be resolved.
    Resolved(Option<Vec<u8>>),
    /// A report was delivered.
    Acknowledged,
}

/// What the scan asks the caller to do next.
#[derive(Clone, Debug, PartialEq, Eq)]
pub enum Action {
    /// List this directory.
    List(Vec<u8>),
    /// Walk this build-output directory against the age cutoff.
    Evaluate { target: Vec<u8>, cutoff: i128 },
    /// Measure this build-output directory; there is no age cutoff.
    Measure(Vec<u8>),
    /// Resolve this path to its canonical form.
    Resolve(Vec<u8>),
    /// Report this directory as reclaimed, and remove it when `delete` holds.
    Reclaim { target: Vec<u8>, size: u64, size_text: String, delete: bool },
    /// Warn of a symbolic-link cycle along this chain of paths.
    Cycle(Vec<Vec<u8>>),
    /// The scan is over, having reclaimed `total` bytes.
    Done { total: u64, total_text: String },
    /// The event did not fit the state; nothing changed.
    Ignored,
}

pub open spec fn work_view(w: Seq<WorkItem>) -> Seq<(Seq<u8>, int)> {
    w.map_values(|i: WorkItem| (i.path@, i.depth as int))
}

impl View for Phase {
    type V = PhaseModel;

    open spec fn view(&self) -> PhaseModel {
        match self {
            Phase::Listing(d) => PhaseModel::Listing(d@),
            Phase::Deciding(t) => PhaseModel::Deciding(t@),
            Phase::Resolving => PhaseModel::Resolving,
            Phase::Acknowledging => PhaseModel::Acknowledging,
            Phase::Finished => PhaseModel::Finished,
        }
    }
}

impl View for Event {
    type V = EventModel;

    open spec fn view(&self) -> EventModel {
        match self {
            Event::Listed(c) => EventModel::Listed(children_view(c@)),
            Event::Decided(d) => EventModel::Decided(*d),
            Event::Resolved(r) => EventModel::Resolved(
                match r {
                    Some(p) => Some(p@),
                    None => None,
                },
            ),
            Event::Acknowledged => EventModel::Acknowledged,
        }
    }
}

impl View for Action {
    type V = ActionModel;

    open spec fn view(&self) -> ActionModel {
        match self {
            Action::List(d) => ActionModel::List(d@),
            Action::Evaluate { target, cutoff } => ActionModel::Evaluate(target@, *cutoff),
            Action::Measure(t) => ActionModel::Measure(t@),
            Action::Resolve(p) => ActionModel::Resolve(p@),
            Action::Reclaim { target, size, delete, .. } => ActionModel::Reclaim(
                target@,
                *size,
                *delete,
            ),
            Action::Cycle(c) => ActionModel::Cycle(paths_view(c@)),
            Action::Done { total, .. } => ActionModel::Done(*total),
            Action::Ignored => ActionModel::Ignored,
        }
    }
}

/// The texts an action carries are humansize's rendering of its byte counts.
pub open spec fn texts_match(a: Action) -> bool {
    match a {
        Action::Reclaim { size, size_text, .. } => size_text@ == decimal_size_text(size),
        Action::Done { total, total_text } => total_text@ == decimal_size_text(total),
        _ => true,
    }
}

/// A scan in progress over a directory tree, driven by the caller one event
/// at a time.
pub struct Scanner {
    cutoff: Option<i128>,
    delete_authorized: bool,
    visited: Vec<Vec<u8>>,
    work: Vec<WorkItem>,
    total: u64,
    phase: Phase,
}

impl View for Scanner {
    type V = ScanModel;

    closed spec fn view(&self) -> ScanModel {
        ScanModel {
            cutoff: self.cutoff,
            delete_authorized: self.delete_authorized,
            visited: paths_view(self.visited@),
            work: work_view(self.work@),
            total: self.total,
            phase: self.phase@,
        }
    }
}

/// The path of the build-output directory inside `dir`.
fn build_output_path_bytes(dir: &Vec<u8>) -> (r: Vec<u8>)
    ensures
        r@ == build_output_path(dir@),
{
    let mut r = copy_bytes(dir);
    let n = dir.len();
    if !(n > 0 && dir[n - 1] == SEPARATOR) {
        r.push(SEPARATOR);
    }
    let name = build_output_name_bytes();
    let ghost base = r@;
    let mut i: usize = 0;
    while i < name.len()
        invariant
            i <= name.len(),
            name@ == build_output_name(),
            r@ == base + name@.subrange(0, i as int),
        decreases name.len() - i,
    {
        r.push(name[i]);
        i = i + 1;
        proof {
            assert(r@ =~= base + name@.subrange(0, i as int));
        }
    }
    proof {
        assert(name@.subrange(0, i as int) =~= name@);
    }
    r
}

/// Where `c` stands on the descent path, if it does.
fn find_path(v: &Vec<Vec<u8>>, c: &Vec<u8>) -> (r: Option<usize>)
    ensures
        r is None ==> !paths_view(v@).contains(c@),
        r matches Some(i) ==> i < v@.len() && paths_view(v@)[i as int] == c@,
{
    let mut i: usize = 0;
    while i < v.len()
        invariant
            i <= v.len(),
            forall|k: int| 0 <= k < i ==> paths_view(v@)[k] != c@,
        decreases v.len() - i,
    {
        if bytes_eq(&v[i], c) {
            return Some(i);
        }
        i = i + 1;
    }
    proof {
        if paths_view(v@).contains(c@) {
            let k = choose|k: int| 0 <= k < paths_view(v@).len() && paths_view(v@)[k] == c@;
            assert(paths_view(v@)[k] != c@);
        }
    }
    None
}

/// The cycle chain from position `i` of the descent path, where `c` stands.
fn cycle_chain_of(v: &Vec<Vec<u8>>, i: usize, c: Vec<u8>) -> (r: Vec<Vec<u8>>)
    requires
        i < v@.len(),
        paths_view(v@)[i as int] == c@,
        paths_view(v@).no_duplicates(),
    ensures
        paths_view(r@) == cycle_chain(paths_view(v@), c@),
{
    let ghost pv = paths_view(v@);
    let mut r: Vec<Vec<u8>> = Vec::new();
    let mut k: usize = i;
    while k < v.len()
        invariant
            i <= k <= v.len(),
            pv == paths_view(v@),
            paths_view(r@) == pv.subrange(i as int, k as int),
        decreases v.len() - k,
    {
        let ghost before = r@;
        let p = copy_bytes(&v[k]);
        r.push(p);
        proof {
            assert(paths_view(r@) =~= paths_view(before).push(p@));
            assert(p@ == pv[k as int]);
        }
        k = k + 1;
        proof {
            assert(paths_view(r@) =~= pv.subrange(i as int, k as int));
        }
    }
    r.push(c);
    proof {
        assert(paths_view(r@) =~= pv.subrange(i as int, pv.len() as int).push(c@));
        let j = choose|j: int| 0 <= j < pv.len() && pv[j] == c@;
        assert(pv[i as int] == c@);
        assert(j == i);
    }
    r
}

/// A path not yet on the descent path keeps it free of repeats.
pub(crate) proof fn lemma_push_fresh(v: Seq<Seq<u8>>, c: Seq<u8>)
    requires
        v.no_duplicates(),
        !v.contains(c),
    ensures
        v.push(c).no_duplicates(),
{
    let w = v.push(c);
    assert forall|a: int, b: int| 0 <= a < w.len() && 0 <= b < w.len() && a != b implies w[a]
        != w[b] by {
        if a < v.len() && b < v.len() {
            assert(w[a] == v[a] && w[b] == v[b]);
        } else if a < v.len() {
            assert(w[a] == v[a]);
        } else if b < v.len() {
            assert(w[b] == v[b]);
        }
    }
}

/// Starts a scan of `root`: returns the scanner and its first action, the
/// listing of `root`. Without a cutoff every project's build output is
/// eligible; with `delete_authorized` false the scan only reports.
pub fn scan_for_target_dirs(root: Vec<u8>, cutoff: Option<i128>, delete_authorized: bool) -> (r: (
    Scanner,
    Action,
))
    ensures
        r.0@ == initial(root@, cutoff, delete_authorized),
        r.1@ == ActionModel::List(root@),
        model_wf(r.0@),
{
    let first = copy_bytes(&root);
    let mut visited: Vec<Vec<u8>> = Vec::new();
    visited.push(root);
    let scanner = Scanner {
        cutoff,
        delete_authorized,
        visited,
        work: Vec::new(),
        total: 0,
        phase: Phase::Listing(copy_bytes(&first)),
    };
    proof {
        assert(scanner@.visited =~= seq![first@]);
        assert(scanner@.work =~= Seq::<(Seq<u8>, int)>::empty());
    }
    (scanner, Action::List(first))
}

impl Scanner {
    /// Bytes reclaimed so far.
    pub fn total(&self) -> (r: u64)
        ensures
            r == self@.total,
    {
        self.total
    }

    /// Whether the scan is over.
    pub fn is_finished(&self) -> (r: bool)
        ensures
            r == (self@.phase is Finished),
    {
        match self.phase {
            Phase::Finished => true,
            _ => false,
        }
    }

    /// Takes the caller's report of the last action and returns the next
    /// action. An event that does not answer the pending action is ignored.
    pub fn step(&mut self, e: Event) -> (a: Action)
        requires
            model_wf(old(self)@),
        ensures
            final(self)@ == next(old(self)@, e@).0,
            a@ == next(old(self)@, e@).1,
            model_wf(final(self)@),
            texts_match(a),
    {
        match e {
            Event::Listed(children) => {
                let dir = match &self.phase {
                    Phase::Listing(d) => copy_bytes(d),
                    _ => {
                        return Action::Ignored;
                    },
                };
                let c = classify_children(&children);
                if c.is_project {
                    let t = build_output_path_bytes(&dir);
                    self.phase = Phase::Deciding(copy_bytes(&t));
                    match self.cutoff {
                        Some(cut) => Action::Evaluate { target: t, cutoff: cut },
                        None => Action::Measure(t),
                    }
                } else {
                    let depth = self.visited.len();
                    self.push_candidates(c.candidates, depth);
                    self.advance()
                }
            },
            Event::Decided(d) => {
                let t = match &self.phase {
                    Phase::Deciding(t) => copy_bytes(t),
                    _ => {
                        return Action::Ignored;
                    },
                };
                match d {
                    CutoffDecision::Eligible(n) => {
                        self.total = self.total.saturating_add(n);
                        self.phase = Phase::Acknowledging;
                        let size_text = format_decimal_size(n);
                        Action::Reclaim {
                            target: t,
                            size: n,
                            size_text,
                            delete: self.delete_authorized,
                        }
                    },
                    CutoffDecision::NotEligible => self.advance(),
                }
            },
            Event::Resolved(r) => {
                match self.phase {
                    Phase::Resolving => {},
                    _ => {
                        return Action::Ignored;
                    },
                }
                let ghost w0 = self@.work;
                let item = match self.work.pop() {
                    Some(item) => item,
                    None => {
                        return Action::Ignored;
                    },
                };
                proof {
                    assert(self@.work =~= w0.drop_last());
                    assert(w0.last() == (item.path@, item.depth as int));
                }
                match r {
                    None => self.advance(),
                    Some(c) => {
                        let ghost v0 = self@.visited;
                        self.visited.truncate(item.depth);
                        proof {
                            assert(paths_view(self.visited@) =~= truncated(v0, item.depth as int));
                        }
                        match find_path(&self.visited, &c) {
                            Some(i) => {
                                let chain = cycle_chain_of(&self.visited, i, c);
                                self.phase = Phase::Acknowledging;
                                Action::Cycle(chain)
                            },
                            None => {
                                let ghost v = self@.visited;
                                self.visited.push(c);
                                proof {
                                    assert(paths_view(self.visited@) =~= v.push(c@));
                                    lemma_push_fresh(v, c@);
                                }
                                self.phase = Phase::Listing(copy_bytes(&item.path));
                                Action::List(item.path)
                            },
                        }
                    },
                }
            },
            Event::Acknowledged => {
                match self.phase {
                    Phase::Acknowledging => self.advance(),
                    _ => Action::Ignored,
                }
            },
        }
    }

    fn push_candidates(&mut self, candidates: Vec<Vec<u8>>, depth: usize)
        ensures
            final(self)@ == (ScanModel {
                work: old(self)@.work + pushed_work(paths_view(candidates@), depth as int),
                ..old(self)@
            }),
    {
        let mut candidates = candidates;
        let ghost cands = paths_view(candidates@);
        let ghost w0 = old(self)@.work;
        let ghost n = cands.len();
        while candidates.len() > 0
            invariant
                cands.len() == n,
                candidates@.len() <= n,
                paths_view(candidates@) == cands.subrange(0, candidates@.len() as int),
                self@ == (ScanModel {
                    work: w0 + pushed_work(cands, depth as int).subrange(
                        0,
                        n - candidates@.len(),
                    ),
                    ..old(self)@
                }),
            decreases candidates@.len(),
        {
            let ghost before = self@.work;
            let ghost k = candidates@.len();
            let ghost cv = candidates@;
            let p = candidates.pop().unwrap();
            proof {
                assert(p == cv[k - 1]);
                assert(paths_view(cv)[k - 1] == p@);
                assert(cands.subrange(0, k as int)[k - 1] == cands[k - 1]);
                assert(p@ == cands[k - 1]);
                assert(paths_view(candidates@) =~= cands.subrange(0, k - 1));
            }
            self.work.push(WorkItem { path: p, depth });
            proof {
                assert(work_view(self.work@) =~= before.push((cands[k - 1], depth as int)));
                assert(w0 + pushed_work(cands, depth as int).subrange(0, n - (k - 1)) =~= (w0
                    + pushed_work(cands, depth as int).subrange(0, n - k)).push(
                    (cands[k - 1], depth as int),
                ));
            }
        }
        proof {
            assert(pushed_work(cands, depth as int).subrange(0, n as int) =~= pushed_work(
                cands,
                depth as int,
            ));
        }
    }

    fn advance(&mut self) -> (a: Action)
        ensures
            final(self)@ == advance(old(self)@).0,
            a@ == advance(old(self)@).1,
            texts_match(a),
    {
        let n = self.work.len();
        if n == 0 {
            self.phase = Phase::Finished;
            let total_text = format_decimal_size(self.total);
            Action::Done { total: self.total, total_text }
        } else {
            self.phase = Phase::Resolving;
            let p = copy_bytes(&self.work[n - 1].path);
            Action::Resolve(p)
        }
    }
}

} // verus!
