use vstd::prelude::*;
use crate::seg::{Seg, SegModel, lowered, to_lower};
use crate::path::{
    FsPath, PathModel, all_text, concat_model, key_of, parent_model, parse_segs, parse_path,
    push_model, rest_model,
};
use crate::cache::{Cache, put_rel};

verus! {

/// What one filesystem metadata query answered: the entry is there, it is
/// not there, or the query failed some other way (permission, I/O fault).
/// Only `NotFound` lets case-insensitive matching continue; any other
/// failure is terminal.
#[derive(Clone, Copy, Debug, PartialEq, Eq)]
pub enum StatOutcome {
    Found,
    NotFound,
    Failed,
}

/// Where a directory scan's answer will be applied: to the final segment
/// under a verified parent, or to segment `idx` of the walk from the base.
#[derive(Clone, Debug)]
pub enum LkWhy {
    Prefix,
    Walk { idx: usize },
}

/// Its mathematical value.
pub enum LkWhyModel {
    Prefix,
    Walk { idx: int },
}

impl View for LkWhy {
    type V = LkWhyModel;

    open spec fn view(&self) -> LkWhyModel {
        match self {
            LkWhy::Prefix => LkWhyModel::Prefix,
            LkWhy::Walk { idx } => LkWhyModel::Walk { idx: *idx as int },
        }
    }
}

/// What the resolver waits for next.
#[derive(Clone, Debug)]
pub enum St {
    ProbeFull { stored: FsPath },
    StatFull,
    ProbeParent { stored: FsPath },
    StatParent,
    LkInit { dir: FsPath },
    LkDir { dir: FsPath, folded: String, why: LkWhy },
    Finished,
}

/// Its mathematical value.
pub enum StModel {
    ProbeFull { stored: PathModel },
    StatFull,
    ProbeParent { stored: PathModel },
    StatParent,
    LkInit { dir: PathModel },
    LkDir { dir: PathModel, folded: Seq<char>, why: LkWhyModel },
    Finished,
}

impl View for St {
    type V = StModel;

    open spec fn view(&self) -> StModel {
        match self {
            St::ProbeFull { stored } => StModel::ProbeFull { stored: stored@ },
            St::StatFull => StModel::StatFull,
            St::ProbeParent { stored } => StModel::ProbeParent { stored: stored@ },
            St::StatParent => StModel::StatParent,
            St::LkInit { dir } => StModel::LkInit { dir: dir@ },
            St::LkDir { dir, folded, why } => StModel::LkDir {
                dir: dir@,
                folded: folded@,
                why: why@,
            },
            St::Finished => StModel::Finished,
        }
    }
}

/// What the resolver asks its caller to do next. `Finish` carries the
/// resolved path and ends the resolution; the others name one filesystem
/// query whose answer the next `step` call takes.
#[derive(Clone, Debug)]
pub enum Action {
    Finish(FsPath),
    Stat(FsPath),
    StatKind(FsPath),
    ReadDir(FsPath),
}

/// Its mathematical value.
pub enum ActionModel {
    Finish(PathModel),
    Stat(PathModel),
    StatKind(PathModel),
    ReadDir(PathModel),
}

impl View for Action {
    type V = ActionModel;

    open spec fn view(&self) -> ActionModel {
        match self {
            Action::Finish(p) => ActionModel::Finish(p@),
            Action::Stat(p) => ActionModel::Stat(p@),
            Action::StatKind(p) => ActionModel::StatKind(p@),
            Action::ReadDir(p) => ActionModel::ReadDir(p@),
        }
    }
}

/// A filesystem answer handed back to the resolver. `Stat(b)` answers
/// `Action::Stat`: does the path exist. `StatKind` answers
/// `Action::StatKind` with the three-way outcome. `Dir` answers
/// `Action::ReadDir` with the directory's entry names in enumeration order,
/// or nothing when the directory could not be read.
#[derive(Clone, Debug)]
pub enum Event {
    Stat(bool),
    StatKind(StatOutcome),
    Dir(Option<Vec<Seg>>),
}

/// Its mathematical value.
pub enum EventModel {
    Stat(bool),
    StatKind(StatOutcome),
    Dir(Option<Seq<SegModel>>),
}

impl View for Event {
    type V = EventModel;

    open spec fn view(&self) -> EventModel {
        match self {
            Event::Stat(b) => EventModel::Stat(*b),
            Event::StatKind(k) => EventModel::StatKind(*k),
            Event::Dir(o) => EventModel::Dir(
                match o {
                    Some(es) => Some(es@.map_values(|s: Seg| s@)),
                    None => None,
                },
            ),
        }
    }
}

/// What the cache does during one step: nothing, one insertion of a path
/// under its folded key, or the removal of one folded key.
pub enum CacheOp {
    Keep,
    Store(PathModel),
    Evict(PathModel),
}

/// The resolver's mathematical state: the fixed inputs of the resolution
/// and what it waits for.
pub struct ResolverModel {
    pub base: PathModel,
    pub rel: Seq<SegModel>,
    pub full: PathModel,
    pub st: StModel,
}

/// One transition's outcome: the new waiting state, the action handed to
/// the caller, and what happened to the cache.
pub struct StepOut {
    pub st: StModel,
    pub act: ActionModel,
    pub op: CacheOp,
}

/// The first directory entry whose lowered text equals the folded name;
/// entries that are not text never match.
pub open spec fn scan_model(entries: Seq<SegModel>, folded: Seq<char>) -> Option<SegModel>
    decreases entries.len(),
{
    if entries.len() == 0 {
        None
    } else if entries[0] matches SegModel::Text(t) && lowered(t) == folded {
        Some(entries[0])
    } else {
        scan_model(entries.drop_first(), folded)
    }
}

/// Entering the walk at segment `idx` with the resolved prefix `acc`: just
/// before its last segment the walk seeds the cache with the path resolved
/// so far; a text segment asks for the directory's entries, a non-text
/// segment is terminal and the rest of the path is appended verbatim.
pub open spec fn walk_enter(rel: Seq<SegModel>, acc: PathModel, idx: int) -> StepOut
    recommends
        0 <= idx < rel.len(),
{
    let op = if idx == rel.len() - 1 {
        CacheOp::Store(acc)
    } else {
        CacheOp::Keep
    };
    match rel[idx] {
        SegModel::Text(t) => StepOut {
            st: StModel::LkDir { dir: acc, folded: lowered(t), why: LkWhyModel::Walk { idx } },
            act: ActionModel::ReadDir(acc),
            op,
        },
        SegModel::Opaque(_) => StepOut {
            st: StModel::Finished,
            act: ActionModel::Finish(rest_model(acc, rel, idx)),
            op,
        },
    }
}

/// How a directory scan's answer ends or continues the resolution.
pub open spec fn dir_step(r: ResolverModel, dir: PathModel, why: LkWhyModel, matched: Option<SegModel>) -> StepOut {
    match why {
        LkWhyModel::Prefix => {
            match matched {
                Some(m) => {
                    let cand = push_model(dir, m);
                    StepOut {
                        st: StModel::Finished,
                        act: ActionModel::Finish(cand),
                        op: CacheOp::Store(cand),
                    }
                },
                None => StepOut {
                    st: StModel::Finished,
                    act: ActionModel::Finish(push_model(dir, r.rel.last())),
                    op: CacheOp::Keep,
                },
            }
        },
        LkWhyModel::Walk { idx } => {
            match matched {
                Some(m) => {
                    let acc2 = push_model(dir, m);
                    if idx == r.rel.len() - 1 {
                        StepOut {
                            st: StModel::Finished,
                            act: ActionModel::Finish(acc2),
                            op: CacheOp::Store(acc2),
                        }
                    } else {
                        walk_enter(r.rel, acc2, idx + 1)
                    }
                },
                None => StepOut {
                    st: StModel::Finished,
                    act: ActionModel::Finish(rest_model(dir, r.rel, idx)),
                    op: CacheOp::Keep,
                },
            }
        },
    }
}

/// The resolver's whole transition relation: given the waiting state, the
/// filesystem's answer and the cache's current contents, the next state,
/// the action handed back, and the cache change are all determined, except
/// for which entry an insertion into a full cache evicts.
pub open spec fn step_model(r: ResolverModel, ev: EventModel, cm: Map<Seq<u8>, PathModel>) -> StepOut {
    let parent = parent_model(r.full);
    match r.st {
        StModel::ProbeFull { stored } => {
            let alive = ev matches EventModel::Stat(true);
            if alive {
                StepOut {
                    st: StModel::Finished,
                    act: ActionModel::Finish(stored),
                    op: CacheOp::Keep,
                }
            } else {
                StepOut {
                    st: StModel::StatFull,
                    act: ActionModel::Stat(r.full),
                    op: CacheOp::Evict(r.full),
                }
            }
        },
        StModel::StatFull => {
            let there = ev matches EventModel::Stat(true);
            if there || r.rel.len() == 0 {
                StepOut { st: StModel::Finished, act: ActionModel::Finish(r.full), op: CacheOp::Keep }
            } else if r.rel.len() > 1 {
                if cm.dom().contains(key_of(parent)) {
                    StepOut {
                        st: StModel::ProbeParent { stored: cm[key_of(parent)] },
                        act: ActionModel::Stat(cm[key_of(parent)]),
                        op: CacheOp::Keep,
                    }
                } else {
                    StepOut {
                        st: StModel::StatParent,
                        act: ActionModel::Stat(parent),
                        op: CacheOp::Keep,
                    }
                }
            } else {
                StepOut {
                    st: StModel::LkInit { dir: parent },
                    act: ActionModel::StatKind(push_model(parent, r.rel.last())),
                    op: CacheOp::Keep,
                }
            }
        },
        StModel::ProbeParent { stored } => {
            let alive = ev matches EventModel::Stat(true);
            if alive {
                StepOut {
                    st: StModel::LkInit { dir: stored },
                    act: ActionModel::StatKind(push_model(stored, r.rel.last())),
                    op: CacheOp::Keep,
                }
            } else {
                StepOut {
                    st: StModel::StatParent,
                    act: ActionModel::Stat(parent),
                    op: CacheOp::Evict(parent),
                }
            }
        },
        StModel::StatParent => {
            let there = ev matches EventModel::Stat(true);
            if there {
                StepOut {
                    st: StModel::LkInit { dir: parent },
                    act: ActionModel::StatKind(push_model(parent, r.rel.last())),
                    op: CacheOp::Store(parent),
                }
            } else {
                walk_enter(r.rel, r.base, 0)
            }
        },
        StModel::LkInit { dir } => {
            let cand = push_model(dir, r.rel.last());
            match ev {
                EventModel::StatKind(StatOutcome::Found) => StepOut {
                    st: StModel::Finished,
                    act: ActionModel::Finish(cand),
                    op: CacheOp::Store(cand),
                },
                EventModel::StatKind(StatOutcome::Failed) => StepOut {
                    st: StModel::Finished,
                    act: ActionModel::Finish(cand),
                    op: CacheOp::Keep,
                },
                _ => match r.rel.last() {
                    SegModel::Text(t) => StepOut {
                        st: StModel::LkDir { dir, folded: lowered(t), why: LkWhyModel::Prefix },
                        act: ActionModel::ReadDir(dir),
                        op: CacheOp::Keep,
                    },
                    SegModel::Opaque(_) => StepOut {
                        st: StModel::Finished,
                        act: ActionModel::Finish(cand),
                        op: CacheOp::Keep,
                    },
                },
            }
        },
        StModel::LkDir { dir, folded, why } => {
            let matched = match ev {
                EventModel::Dir(Some(es)) => scan_model(es, folded),
                _ => None,
            };
            dir_step(r, dir, why, matched)
        },
        StModel::Finished => StepOut {
            st: StModel::Finished,
            act: ActionModel::Finish(r.full),
            op: CacheOp::Keep,
        },
    }
}

/// Where the resolution starts: the pure checks that need no filesystem.
/// With case-insensitive matching off the result is the plain
/// concatenation and nothing else happens; a candidate that is not rooted,
/// not wholly text, or has no parent is returned as it is; otherwise the
/// cache is consulted for the whole candidate and the first filesystem
/// query is issued.
pub open spec fn start_model(base: PathModel, raw: Seq<u8>, case_insensitive: bool, cm: Map<Seq<u8>, PathModel>) -> (ResolverModel, ActionModel) {
    let rel = parse_segs(raw);
    let full = concat_model(base, rel);
    let fin = ResolverModel { base, rel, full, st: StModel::Finished };
    if !case_insensitive {
        (fin, ActionModel::Finish(full))
    } else if !full.rooted || !all_text(full) {
        (fin, ActionModel::Finish(full))
    } else if full.segs.len() == 0 {
        (fin, ActionModel::Finish(full))
    } else if cm.dom().contains(key_of(full)) {
        (
            ResolverModel { base, rel, full, st: StModel::ProbeFull { stored: cm[key_of(full)] } },
            ActionModel::Stat(cm[key_of(full)]),
        )
    } else {
        (ResolverModel { base, rel, full, st: StModel::StatFull }, ActionModel::Stat(full))
    }
}

} // verus!

verus! {

/// One unfolding of `scan_model` on a nonempty entry list.
proof fn lemma_scan_step(entries: Seq<SegModel>, folded: Seq<char>)
    requires
        entries.len() > 0,
    ensures
        scan_model(entries, folded) == (if entries[0] matches SegModel::Text(t) && lowered(t)
            == folded {
            Some(entries[0])
        } else {
            scan_model(entries.drop_first(), folded)
        }),
{
}

/// The first entry whose lowered text equals the folded name, exactly as
/// `scan_model` picks it; entries that are not text are skipped.
pub fn scan_entries(entries: &Vec<Seg>, folded: &String) -> (r: Option<Seg>)
    ensures
        match r {
            Some(s) => scan_model(entries@.map_values(|s2: Seg| s2@), folded@) == Some(s@),
            None => scan_model(entries@.map_values(|s2: Seg| s2@), folded@) is None,
        },
{
    let ghost all = entries@.map_values(|s2: Seg| s2@);
    proof {
        assert(all.skip(0) =~= all);
    }
    let mut i: usize = 0;
    while i < entries.len()
        invariant
            i <= entries@.len(),
            all == entries@.map_values(|s2: Seg| s2@),
            scan_model(all.skip(i as int), folded@) == scan_model(all, folded@),
        decreases entries@.len() - i,
    {
        let ghost restm = all.skip(i as int);
        proof {
            assert(restm.len() > 0);
            assert(restm[0] == all[i as int]);
            assert(all[i as int] == entries@[i as int]@);
            assert(restm.drop_first() =~= all.skip(i as int + 1));
            lemma_scan_step(restm, folded@);
        }
        match &entries[i] {
            Seg::Text(t) => {
                let low = to_lower(t);
                if low == *folded {
                    let hit = entries[i].duplicate();
                    proof {
                        assert(scan_model(all, folded@) == Some(all[i as int]));
                    }
                    return Some(hit);
                }
            },
            Seg::Opaque(_) => {},
        }
        i = i + 1;
    }
    proof {
        assert(all.skip(all.len() as int) =~= Seq::<SegModel>::empty());
    }
    None
}

/// Which answers a waiting state takes.
pub open spec fn expects(st: StModel, ev: EventModel) -> bool {
    match st {
        StModel::ProbeFull { .. } => ev is Stat,
        StModel::StatFull => ev is Stat,
        StModel::ProbeParent { .. } => ev is Stat,
        StModel::StatParent => ev is Stat,
        StModel::LkInit { .. } => ev is StatKind,
        StModel::LkDir { .. } => ev is Dir,
        StModel::Finished => false,
    }
}

/// What one step's cache operation means for the cache's contents.
pub open spec fn op_rel(
    pre: Map<Seq<u8>, PathModel>,
    post: Map<Seq<u8>, PathModel>,
    op: CacheOp,
    cap: nat,
) -> bool {
    match op {
        CacheOp::Keep => post == pre,
        CacheOp::Store(p) => put_rel(pre, post, key_of(p), p, cap),
        CacheOp::Evict(p) => post == pre.remove(key_of(p)),
    }
}

/// The resolver's inputs never change, its candidate is the concatenation
/// of base and relative segments, and whatever it waits for is consistent
/// with them: filesystem queries only happen for a rooted, wholly textual
/// candidate with at least one segment, and a walk index stays in range.
pub open spec fn rm_wf(r: ResolverModel) -> bool {
    &&& r.full == concat_model(r.base, r.rel)
    &&& match r.st {
        StModel::Finished => true,
        StModel::ProbeFull { .. } => r.full.rooted && all_text(r.full) && r.full.segs.len() >= 1,
        StModel::StatFull => r.full.rooted && all_text(r.full) && r.full.segs.len() >= 1,
        StModel::ProbeParent { .. } => r.full.rooted && all_text(r.full) && r.full.segs.len() >= 1
            && r.rel.len() >= 2,
        StModel::StatParent => r.full.rooted && all_text(r.full) && r.full.segs.len() >= 1
            && r.rel.len() >= 2,
        StModel::LkInit { .. } => r.full.rooted && all_text(r.full) && r.full.segs.len() >= 1
            && r.rel.len() >= 1,
        StModel::LkDir { dir, folded, why } => {
            &&& r.full.rooted && all_text(r.full) && r.full.segs.len() >= 1 && r.rel.len() >= 1
            &&& match why {
                LkWhyModel::Prefix => true,
                LkWhyModel::Walk { idx } => 0 <= idx < r.rel.len(),
            }
        },
    }
}

/// The case-insensitive resolver: a state machine over one resolution.
///
/// `start` performs every decision that needs no filesystem; from then on
/// the caller performs the single query each returned action names and
/// hands the answer to `step`, until an action carries the resolved path.
/// The shared cache is read and written only inside these calls.
pub struct Resolver {
    pub base: FsPath,
    pub rel: Vec<Seg>,
    pub full: FsPath,
    pub st: St,
}

impl View for Resolver {
    type V = ResolverModel;

    open spec fn view(&self) -> ResolverModel {
        ResolverModel {
            base: self.base@,
            rel: self.rel@.map_values(|s: Seg| s@),
            full: self.full@,
            st: self.st@,
        }
    }
}

impl Resolver {
    /// The machine's invariant.
    pub open spec fn wf(self) -> bool {
        rm_wf(self@)
    }

    /// Begin resolving `raw` under `base`. All decisions that need no
    /// filesystem happen here, exactly as `start_model` says: with matching
    /// off, or on a candidate that is not rooted, not wholly text, or
    /// empty, the action already carries the result and the cache is not
    /// read; otherwise the cache is probed for the whole candidate and the
    /// first filesystem query is returned.
    pub fn start(base: FsPath, raw: &[u8], case_insensitive: bool, cache: &mut Cache) -> (r: (
        Resolver,
        Action,
    ))
        requires
            old(cache).wf(),
        ensures
            final(cache).wf(),
            final(cache).cap() == old(cache).cap(),
            final(cache)@ == old(cache)@,
            r.0.wf(),
            (r.0@, r.1@) == start_model(base@, raw@, case_insensitive, old(cache)@),
    {
        let rel_path = parse_path(raw);
        let rel = rel_path.segs;
        let full = base.join(&rel);
        if !case_insensitive || !full.rooted || !full.is_all_text() || full.segs.len() == 0 {
            let a = Action::Finish(full.duplicate());
            return (Resolver { base, rel, full, st: St::Finished }, a);
        }
        match cache.get(&full) {
            Some(stored) => {
                let a = Action::Stat(stored.duplicate());
                (Resolver { base, rel, full, st: St::ProbeFull { stored } }, a)
            },
            None => {
                let a = Action::Stat(full.duplicate());
                (Resolver { base, rel, full, st: St::StatFull }, a)
            },
        }
    }

    /// Enter the walk at segment `idx` with the resolved prefix `acc`.
    fn walk_go(&mut self, cache: &mut Cache, acc: FsPath, idx: usize) -> (a: Action)
        requires
            old(cache).wf(),
            old(self)@.full == concat_model(old(self)@.base, old(self)@.rel),
            old(self)@.full.rooted,
            all_text(old(self)@.full),
            old(self)@.full.segs.len() >= 1,
            idx < old(self)@.rel.len(),
        ensures
            final(self)@.base == old(self)@.base,
            final(self)@.rel == old(self)@.rel,
            final(self)@.full == old(self)@.full,
            final(self).wf(),
            final(cache).wf(),
            final(cache).cap() == old(cache).cap(),
            ({
                let out = walk_enter(old(self)@.rel, acc@, idx as int);
                &&& final(self)@.st == out.st
                &&& a@ == out.act
                &&& op_rel(old(cache)@, final(cache)@, out.op, old(cache).cap())
            }),
    {
        if idx == self.rel.len() - 1 {
            cache.insert(&acc);
        }
        let seg = self.rel[idx].duplicate();
        proof {
            assert(seg@ == self@.rel[idx as int]);
        }
        match seg {
            Seg::Text(t) => {
                let folded = to_lower(&t);
                let a = Action::ReadDir(acc.duplicate());
                self.st = St::LkDir { dir: acc, folded, why: LkWhy::Walk { idx } };
                a
            },
            Seg::Opaque(_) => {
                let out = acc.extend_from(&self.rel, idx);
                self.st = St::Finished;
                Action::Finish(out)
            },
        }
    }

    /// Feed one filesystem answer to the resolver. The transition performed
    /// is exactly `step_model` of the waiting state, the answer and the
    /// cache's contents; the cache changes exactly by the transition's
    /// operation.
    pub fn step(&mut self, cache: &mut Cache, ev: Event) -> (a: Action)
        requires
            old(self).wf(),
            old(cache).wf(),
            expects(old(self)@.st, ev@),
        ensures
            final(self).wf(),
            final(self)@.base == old(self)@.base,
            final(self)@.rel == old(self)@.rel,
            final(self)@.full == old(self)@.full,
            final(cache).wf(),
            final(cache).cap() == old(cache).cap(),
            ({
                let out = step_model(old(self)@, ev@, old(cache)@);
                &&& final(self)@.st == out.st
                &&& a@ == out.act
                &&& op_rel(old(cache)@, final(cache)@, out.op, old(cache).cap())
            }),
    {
        let mut stv = St::Finished;
        core::mem::swap(&mut stv, &mut self.st);
        match stv {
            St::ProbeFull { stored } => {
                let alive = matches!(ev, Event::Stat(true));
                if alive {
                    self.st = St::Finished;
                    Action::Finish(stored)
                } else {
                    cache.drop_stale(&self.full);
                    self.st = St::StatFull;
                    Action::Stat(self.full.duplicate())
                }
            },
            St::StatFull => {
                let there = matches!(ev, Event::Stat(true));
                if there || self.rel.len() == 0 {
                    self.st = St::Finished;
                    Action::Finish(self.full.duplicate())
                } else if self.rel.len() > 1 {
                    let parent = self.full.parent_path();
                    match cache.get(&parent) {
                        Some(stored) => {
                            let a = Action::Stat(stored.duplicate());
                            self.st = St::ProbeParent { stored };
                            a
                        },
                        None => {
                            let a = Action::Stat(parent);
                            self.st = St::StatParent;
                            a
                        },
                    }
                } else {
                    let parent = self.full.parent_path();
                    let last = self.rel[self.rel.len() - 1].duplicate();
                    let cand = parent.child(last);
                    self.st = St::LkInit { dir: parent };
                    Action::StatKind(cand)
                }
            },
            St::ProbeParent { stored } => {
                let alive = matches!(ev, Event::Stat(true));
                if alive {
                    let last = self.rel[self.rel.len() - 1].duplicate();
                    let cand = stored.child(last);
                    self.st = St::LkInit { dir: stored };
                    Action::StatKind(cand)
                } else {
                    let parent = self.full.parent_path();
                    cache.drop_stale(&parent);
                    let a = Action::Stat(parent);
                    self.st = St::StatParent;
                    a
                }
            },
            St::StatParent => {
                let there = matches!(ev, Event::Stat(true));
                if there {
                    let parent = self.full.parent_path();
                    cache.insert(&parent);
                    let last = self.rel[self.rel.len() - 1].duplicate();
                    let cand = parent.child(last);
                    self.st = St::LkInit { dir: parent };
                    Action::StatKind(cand)
                } else {
                    let base = self.base.duplicate();
                    self.walk_go(cache, base, 0)
                }
            },
            St::LkInit { dir } => {
                let outcome = match ev {
                    Event::StatKind(k) => k,
                    _ => StatOutcome::Failed,
                };
                match outcome {
                    StatOutcome::Found => {
                        let last = self.rel[self.rel.len() - 1].duplicate();
                        let cand = dir.child(last);
                        cache.insert(&cand);
                        self.st = St::Finished;
                        Action::Finish(cand)
                    },
                    StatOutcome::Failed => {
                        let last = self.rel[self.rel.len() - 1].duplicate();
                        let cand = dir.child(last);
                        self.st = St::Finished;
                        Action::Finish(cand)
                    },
                    StatOutcome::NotFound => {
                        let last = self.rel[self.rel.len() - 1].duplicate();
                        match last {
                            Seg::Text(t) => {
                                let folded = to_lower(&t);
                                let a = Action::ReadDir(dir.duplicate());
                                self.st = St::LkDir { dir, folded, why: LkWhy::Prefix };
                                a
                            },
                            Seg::Opaque(_) => {
                                let last2 = self.rel[self.rel.len() - 1].duplicate();
                                let cand = dir.child(last2);
                                self.st = St::Finished;
                                Action::Finish(cand)
                            },
                        }
                    },
                }
            },
            St::LkDir { dir, folded, why } => {
                let entries_opt = match ev {
                    Event::Dir(o) => o,
                    _ => None,
                };
                let matched = match &entries_opt {
                    Some(es) => scan_entries(es, &folded),
                    None => None,
                };
                match why {
                    LkWhy::Prefix => {
                        match matched {
                            Some(m) => {
                                let cand = dir.child(m);
                                cache.insert(&cand);
                                self.st = St::Finished;
                                Action::Finish(cand)
                            },
                            None => {
                                let last = self.rel[self.rel.len() - 1].duplicate();
                                let cand = dir.child(last);
                                self.st = St::Finished;
                                Action::Finish(cand)
                            },
                        }
                    },
                    LkWhy::Walk { idx } => {
                        match matched {
                            Some(m) => {
                                let acc2 = dir.child(m);
                                if idx == self.rel.len() - 1 {
                                    cache.insert(&acc2);
                                    self.st = St::Finished;
                                    Action::Finish(acc2)
                                } else {
                                    self.walk_go(cache, acc2, idx + 1)
                                }
                            },
                            None => {
                                let out = dir.extend_from(&self.rel, idx);
                                self.st = St::Finished;
                                Action::Finish(out)
                            },
                        }
                    },
                }
            },
            St::Finished => {
                self.st = St::Finished;
                Action::Finish(self.full.duplicate())
            },
        }
    }
}

} // verus!
