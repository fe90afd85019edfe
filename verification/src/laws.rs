use vstd::prelude::*;
use crate::seg::{SegModel, fold_seg, lowered, seg_fold_bytes};
use crate::path::{
    PathModel, all_text, concat_model, key_of, parent_model, parse_segs, rest_model, push_model,
};
use crate::resolve::{
    ActionModel, CacheOp, EventModel, LkWhyModel, ResolverModel, StModel, scan_model, start_model,
    step_model,
};

verus! {

/// Pass-through when matching is off: for any base, raw bytes and cache,
/// the resolution is already finished at `start` with exactly the
/// concatenation of the base and the root-stripped relative path, and no
/// filesystem query is ever requested.
pub proof fn lemma_pass_through(
    base: PathModel,
    raw: Seq<u8>,
    cm: Map<Seq<u8>, PathModel>,
)
    ensures
        start_model(base, raw, false, cm).1 == ActionModel::Finish(
            concat_model(base, parse_segs(raw)),
        ),
        (start_model(base, raw, false, cm).0.st is Finished),
{
}

/// Exact match preserved: when the cache holds nothing under the
/// candidate's folded key, resolving a path that exists on disk with
/// exactly the given case returns that exact path, with matching on or
/// off. With matching off, and on a candidate that fails the pure checks,
/// the result is immediate; otherwise the first filesystem query is the
/// candidate itself and an affirmative answer finishes with it, the cache
/// untouched.
pub proof fn lemma_exact_match_preserved(
    base: PathModel,
    raw: Seq<u8>,
    case_insensitive: bool,
    cm: Map<Seq<u8>, PathModel>,
)
    requires
        !cm.dom().contains(key_of(concat_model(base, parse_segs(raw)))),
    ensures
        ({
            let full = concat_model(base, parse_segs(raw));
            let (rm, act) = start_model(base, raw, case_insensitive, cm);
            act == ActionModel::Finish(full) || (act == ActionModel::Stat(full) && {
                let out = step_model(rm, EventModel::Stat(true), cm);
                &&& out.act == ActionModel::Finish(full)
                &&& out.st is Finished
                &&& out.op is Keep
            })
        }),
{
}

/// The cached result is served: when the cache holds `p` under the
/// candidate's folded key, `start` asks whether `p` still exists and an
/// affirmative answer finishes with `p` at once, the cache untouched.
/// With the lemma below, this is why resolving the same input again
/// returns the same path: a completed resolution stores its result under
/// the folded key of the candidate, and the stored path folds back to
/// that same key.
pub proof fn lemma_cached_result_returned(
    base: PathModel,
    raw: Seq<u8>,
    cm: Map<Seq<u8>, PathModel>,
    p: PathModel,
)
    requires
        ({
            let full = concat_model(base, parse_segs(raw));
            &&& full.rooted
            &&& all_text(full)
            &&& full.segs.len() > 0
            &&& cm.dom().contains(key_of(full))
            &&& cm[key_of(full)] == p
        }),
    ensures
        ({
            let (rm, act) = start_model(base, raw, true, cm);
            act == ActionModel::Stat(p) && {
                let out = step_model(rm, EventModel::Stat(true), cm);
                &&& out.act == ActionModel::Finish(p)
                &&& out.st is Finished
                &&& out.op is Keep
            }
        }),
{
}

/// A directory-scan match folds to the same form as the segment looked
/// for: the entry that matched is text whose lowered form is the folded
/// name. A resolved path therefore folds to the same key as the queried
/// one, which is what lets a later resolution of the same input find it
/// in the cache.
pub proof fn lemma_scan_match_same_fold(
    entries: Seq<SegModel>,
    folded: Seq<char>,
    m: SegModel,
    t: Seq<char>,
)
    requires
        scan_model(entries, folded) == Some(m),
        folded == lowered(t),
    ensures
        fold_seg(m) == fold_seg(SegModel::Text(t)),
    decreases entries.len(),
{
    if entries.len() == 0 {
    } else if entries[0] matches SegModel::Text(t0) && lowered(t0) == folded {
    } else {
        lemma_scan_match_same_fold(entries.drop_first(), folded, m, t);
    }
}

/// Parent-prefix shortcut, first leg: when the full candidate is absent
/// but its parent is cached, the machine turns to validating the cached
/// parent instead of walking from the base.
pub proof fn lemma_parent_shortcut(r: ResolverModel, cm: Map<Seq<u8>, PathModel>)
    requires
        (r.st is StatFull),
        r.rel.len() > 1,
        cm.dom().contains(key_of(parent_model(r.full))),
    ensures
        ({
            let stored = cm[key_of(parent_model(r.full))];
            let out = step_model(r, EventModel::Stat(false), cm);
            &&& out.st == StModel::ProbeParent { stored }
            &&& out.act == ActionModel::Stat(stored)
            &&& out.op is Keep
        }),
{
}

/// Parent-prefix shortcut, second leg: a cached parent that still exists
/// sends the machine straight to one lookup of the final segment under it.
pub proof fn lemma_parent_alive_single_lookup(
    r: ResolverModel,
    stored: PathModel,
    cm: Map<Seq<u8>, PathModel>,
)
    requires
        (r.st == StModel::ProbeParent { stored }),
    ensures
        ({
            let out = step_model(r, EventModel::Stat(true), cm);
            &&& out.st == StModel::LkInit { dir: stored }
            &&& out.act == ActionModel::StatKind(push_model(stored, r.rel.last()))
            &&& out.op is Keep
        }),
{
}

/// Parent-prefix shortcut, last leg: a lookup under a verified parent
/// finishes the resolution on every possible answer — it never enters the
/// walk, so the whole resolution enumerates at most one directory.
pub proof fn lemma_prefix_lookup_finishes(
    r: ResolverModel,
    dir: PathModel,
    folded: Seq<char>,
    ev: EventModel,
    cm: Map<Seq<u8>, PathModel>,
)
    requires
        (r.st == StModel::LkDir { dir, folded, why: LkWhyModel::Prefix }),
    ensures
        step_model(r, ev, cm).st is Finished,
{
}

/// Terminal propagation in the walk: when a directory cannot be
/// enumerated, or no entry matches, the walk ends at once with every
/// remaining segment appended verbatim — the caller receives a complete
/// path — and nothing is stored in the cache by that step.
pub proof fn lemma_terminal_appends_rest(
    r: ResolverModel,
    dir: PathModel,
    folded: Seq<char>,
    idx: int,
    ev: EventModel,
    cm: Map<Seq<u8>, PathModel>,
)
    requires
        (r.st == StModel::LkDir { dir, folded, why: LkWhyModel::Walk { idx } }),
        0 <= idx < r.rel.len(),
        (match ev {
            EventModel::Dir(Some(es)) => scan_model(es, folded) is None,
            _ => true,
        }),
    ensures
        ({
            let out = step_model(r, ev, cm);
            &&& out.st is Finished
            &&& out.act == ActionModel::Finish(rest_model(dir, r.rel, idx))
            &&& out.op is Keep
        }),
{
}

/// A failed metadata query (anything but not-found) under a verified
/// parent is terminal: the verbatim candidate comes back and nothing is
/// cached.
pub proof fn lemma_failed_stat_terminal(
    r: ResolverModel,
    dir: PathModel,
    cm: Map<Seq<u8>, PathModel>,
)
    requires
        (r.st == StModel::LkInit { dir }),
    ensures
        ({
            let out = step_model(
                r,
                EventModel::StatKind(crate::resolve::StatOutcome::Failed),
                cm,
            );
            &&& out.st is Finished
            &&& out.act == ActionModel::Finish(push_model(dir, r.rel.last()))
            &&& out.op is Keep
        }),
{
}

/// Unresolvable path degrades to the naive concatenation: if the walk's
/// prefix so far is still the verbatim one and the scan of the next
/// segment finds no match, the final path is exactly the concatenation of
/// the base and the whole relative path.
pub proof fn lemma_unresolved_is_concat(
    r: ResolverModel,
    dir: PathModel,
    folded: Seq<char>,
    idx: int,
    ev: EventModel,
    cm: Map<Seq<u8>, PathModel>,
)
    requires
        (r.st == StModel::LkDir { dir, folded, why: LkWhyModel::Walk { idx } }),
        0 <= idx < r.rel.len(),
        r.full == concat_model(r.base, r.rel),
        dir == concat_model(r.base, r.rel.take(idx)),
        (match ev {
            EventModel::Dir(Some(es)) => scan_model(es, folded) is None,
            _ => true,
        }),
    ensures
        step_model(r, ev, cm).act == ActionModel::Finish(r.full),
{
    lemma_terminal_appends_rest(r, dir, folded, idx, ev, cm);
    assert(rest_model(dir, r.rel, idx).segs =~= r.full.segs);
    assert(rest_model(dir, r.rel, idx) =~= r.full);
}

} // verus!

verus! {

/// Matching an entry preserves the folded key: two prefixes with the same
/// key, extended by segments with the same fold, still share their key.
/// With the scan lemma above, a case-corrected resolution is stored under
/// the same key as the verbatim candidate, which is what a repeated
/// resolution of the same input looks up.
pub proof fn lemma_match_keeps_key(dir: PathModel, dir2: PathModel, m: SegModel, s: SegModel)
    requires
        key_of(dir) == key_of(dir2),
        dir.segs.len() == 0 <==> dir2.segs.len() == 0,
        fold_seg(m) == fold_seg(s),
    ensures
        key_of(push_model(dir, m)) == key_of(push_model(dir2, s)),
{
    crate::path::lemma_push_key(dir, m);
    crate::path::lemma_push_key(dir2, s);
    assert(seg_fold_bytes(m) == seg_fold_bytes(s));
}

} // verus!


verus! {

/// The walk keeps folded keys aligned with the verbatim prefix: when the
/// scan at segment `idx` of a walk whose directory shares its key with the
/// verbatim prefix finds a match, the extended directory again shares its
/// key with the verbatim prefix one segment further. So whatever a
/// completed walk stores — the seeded parent just before the last segment,
/// and the final result — is stored under the folded key of the verbatim
/// candidate's prefix, which is exactly what a later resolution of the
/// same input, or of a sibling, computes and looks up.
pub proof fn lemma_walk_keeps_prefix_key(
    r: ResolverModel,
    dir: PathModel,
    folded: Seq<char>,
    idx: int,
    es: Seq<SegModel>,
    m: SegModel,
    t: Seq<char>,
    cm: Map<Seq<u8>, PathModel>,
)
    requires
        (r.st == StModel::LkDir { dir, folded, why: LkWhyModel::Walk { idx } }),
        0 <= idx < r.rel.len(),
        r.full == concat_model(r.base, r.rel),
        r.rel[idx] == SegModel::Text(t),
        folded == lowered(t),
        scan_model(es, folded) == Some(m),
        key_of(dir) == key_of(concat_model(r.base, r.rel.take(idx))),
        dir.segs.len() == r.base.segs.len() + idx,
    ensures
        ({
            let out = step_model(r, EventModel::Dir(Some(es)), cm);
            let next = push_model(dir, m);
            &&& key_of(next) == key_of(concat_model(r.base, r.rel.take(idx + 1)))
            &&& next.segs.len() == r.base.segs.len() + idx + 1
            &&& (idx == r.rel.len() - 1 ==> out.act == ActionModel::Finish(next) && out.op
                == CacheOp::Store(next) && key_of(next) == key_of(r.full))
            &&& (idx + 1 == r.rel.len() - 1 ==> out.op == CacheOp::Store(next))
        }),
{
    lemma_scan_match_same_fold(es, folded, m, t);
    let pre = concat_model(r.base, r.rel.take(idx));
    lemma_match_keeps_key(dir, pre, m, SegModel::Text(t));
    assert(push_model(pre, SegModel::Text(t)).segs =~= concat_model(
        r.base,
        r.rel.take(idx + 1),
    ).segs);
    assert(push_model(pre, SegModel::Text(t)) =~= concat_model(r.base, r.rel.take(idx + 1)));
    if idx == r.rel.len() - 1 {
        assert(r.rel.take(idx + 1) =~= r.rel);
    }
}

} // verus!
