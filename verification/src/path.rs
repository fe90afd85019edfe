use vstd::prelude::*;
use crate::seg::{Seg, SegModel, seg_fold_bytes, seg_of_bytes, seg_from_bytes};

verus! {

/// A filesystem path: an ordered sequence of segments, rooted or relative.
#[derive(Clone, Debug, PartialEq, Eq)]
pub struct FsPath {
    pub rooted: bool,
    pub segs: Vec<Seg>,
}

/// The mathematical value of a path.
pub struct PathModel {
    pub rooted: bool,
    pub segs: Seq<SegModel>,
}

impl View for FsPath {
    type V = PathModel;

    open spec fn view(&self) -> PathModel {
        PathModel { rooted: self.rooted, segs: self.segs@.map_values(|s: Seg| s@) }
    }
}

/// A whole path is decodable text exactly when every segment is.
pub open spec fn all_text(p: PathModel) -> bool {
    forall|i: int| 0 <= i < p.segs.len() ==> p.segs[i] is Text
}

/// The path `rel` joined under `base`; `rel`'s own rooting is ignored.
pub open spec fn concat_model(base: PathModel, rel: Seq<SegModel>) -> PathModel {
    PathModel { rooted: base.rooted, segs: base.segs + rel }
}

/// The path extended by one segment.
pub open spec fn push_model(p: PathModel, s: SegModel) -> PathModel {
    PathModel { rooted: p.rooted, segs: p.segs.push(s) }
}

/// The path extended verbatim by every segment of `rel` from `from` on.
pub open spec fn rest_model(p: PathModel, rel: Seq<SegModel>, from: int) -> PathModel {
    PathModel { rooted: p.rooted, segs: p.segs + rel.skip(from) }
}

/// The path shortened by its last segment.
pub open spec fn parent_model(p: PathModel) -> PathModel {
    PathModel { rooted: p.rooted, segs: p.segs.drop_last() }
}

/// The byte separating segments in a path's rendered form.
pub open spec fn sep_byte() -> u8 {
    47u8
}

/// The case-folded key bytes of a segment list: folded segments joined by
/// separators.
pub open spec fn key_of_segs(segs: Seq<SegModel>) -> Seq<u8>
    decreases segs.len(),
{
    if segs.len() == 0 {
        Seq::<u8>::empty()
    } else if segs.len() == 1 {
        seg_fold_bytes(segs[0])
    } else {
        key_of_segs(segs.drop_last()) + seq![sep_byte()] + seg_fold_bytes(segs.last())
    }
}

/// The cache key of a path: the byte rendering of its case-folded form.
/// A key is always derived from the path it stands for by this pure
/// function; the cache stores nothing that breaks that bond.
pub open spec fn key_of(p: PathModel) -> Seq<u8> {
    (if p.rooted {
        seq![sep_byte()]
    } else {
        Seq::<u8>::empty()
    }) + key_of_segs(p.segs)
}

impl FsPath {
    /// An exact copy of the path.
    pub fn duplicate(&self) -> (r: FsPath)
        ensures
            r@ == self@,
    {
        let mut segs: Vec<Seg> = Vec::new();
        let mut i: usize = 0;
        while i < self.segs.len()
            invariant
                i <= self.segs@.len(),
                segs@.len() == i,
                forall|j: int| 0 <= j < i ==> segs@[j]@ == self.segs@[j]@,
            decreases self.segs@.len() - i,
        {
            segs.push(self.segs[i].duplicate());
            i = i + 1;
        }
        proof {
            assert(segs@.map_values(|s: Seg| s@) =~= self.segs@.map_values(|s: Seg| s@));
        }
        FsPath { rooted: self.rooted, segs }
    }

    /// The path extended by one segment.
    pub fn child(&self, s: Seg) -> (r: FsPath)
        ensures
            r@.rooted == self@.rooted,
            r@.segs == self@.segs.push(s@),
    {
        let mut r = self.duplicate();
        r.segs.push(s);
        proof {
            assert(r@.segs =~= self@.segs.push(s@));
        }
        r
    }

    /// The path shortened by its last segment.
    pub fn parent_path(&self) -> (r: FsPath)
        requires
            self@.segs.len() > 0,
        ensures
            r@ == parent_model(self@),
    {
        let mut r = self.duplicate();
        let _last = r.segs.pop();
        proof {
            assert(r@.segs =~= parent_model(self@).segs);
            assert(r@ =~= parent_model(self@));
        }
        r
    }

    /// Whether every segment of the path is decodable text.
    pub fn is_all_text(&self) -> (r: bool)
        ensures
            r == all_text(self@),
    {
        let mut i: usize = 0;
        while i < self.segs.len()
            invariant
                i <= self.segs@.len(),
                forall|j: int| 0 <= j < i ==> self@.segs[j] is Text,
            decreases self.segs@.len() - i,
        {
            match &self.segs[i] {
                Seg::Text(_) => {},
                Seg::Opaque(_) => {
                    proof {
                        assert(!(self@.segs[i as int] is Text));
                    }
                    return false;
                },
            }
            i = i + 1;
        }
        true
    }

    /// `rel` joined under this path; `rel`'s own rooting is ignored.
    pub fn join(&self, rel: &Vec<Seg>) -> (r: FsPath)
        ensures
            r@ == concat_model(self@, rel@.map_values(|s: Seg| s@)),
    {
        let mut r = self.duplicate();
        let mut i: usize = 0;
        while i < rel.len()
            invariant
                i <= rel@.len(),
                r.rooted == self@.rooted,
                r.segs@.len() == self@.segs.len() + i,
                forall|j: int| 0 <= j < self@.segs.len() ==> r.segs@[j]@ == self@.segs[j],
                forall|j: int|
                    0 <= j < i ==> r.segs@[self@.segs.len() + j]@ == rel@[j]@,
            decreases rel@.len() - i,
        {
            r.segs.push(rel[i].duplicate());
            i = i + 1;
        }
        proof {
            assert(r@.segs =~= concat_model(self@, rel@.map_values(|s: Seg| s@)).segs);
            assert(r@ =~= concat_model(self@, rel@.map_values(|s: Seg| s@)));
        }
        r
    }

    /// The path extended verbatim by every segment of `rel` from `from` on.
    pub fn extend_from(&self, rel: &Vec<Seg>, from: usize) -> (r: FsPath)
        requires
            from <= rel@.len(),
        ensures
            r@ == rest_model(self@, rel@.map_values(|s: Seg| s@), from as int),
    {
        let mut r = self.duplicate();
        let mut i: usize = from;
        while i < rel.len()
            invariant
                from <= i <= rel@.len(),
                r.rooted == self@.rooted,
                r.segs@.len() == self@.segs.len() + i - from,
                forall|j: int| 0 <= j < self@.segs.len() ==> r.segs@[j]@ == self@.segs[j],
                forall|j: int|
                    from <= j < i ==> r.segs@[self@.segs.len() + j - from]@ == rel@[j]@,
            decreases rel@.len() - i,
        {
            r.segs.push(rel[i].duplicate());
            i = i + 1;
        }
        proof {
            let m = rest_model(self@, rel@.map_values(|s: Seg| s@), from as int);
            assert(r@.segs =~= m.segs);
            assert(r@ =~= m);
        }
        r
    }

    /// The cache key of the path: its case-folded byte rendering.
    pub fn fold_key(&self) -> (k: Vec<u8>)
        ensures
            k@ == key_of(self@),
    {
        let ghost m = self@;
        let mut k: Vec<u8> = Vec::new();
        if self.rooted {
            k.push(47u8);
        }
        let mut i: usize = 0;
        while i < self.segs.len()
            invariant
                i <= self.segs@.len(),
                k@ == (if m.rooted {
                    seq![sep_byte()]
                } else {
                    Seq::<u8>::empty()
                }) + key_of_segs(m.segs.subrange(0, i as int)),
                m == self@,
            decreases self.segs@.len() - i,
        {
            if i > 0 {
                k.push(47u8);
            }
            let mut fb = self.segs[i].fold_bytes();
            proof {
                assert(self@.segs[i as int] == self.segs@[i as int]@);
            }
            k.append(&mut fb);
            i = i + 1;
            proof {
                lemma_key_of_segs_extend(m.segs, i as int);
                assert(k@ =~= (if m.rooted {
                    seq![sep_byte()]
                } else {
                    Seq::<u8>::empty()
                }) + key_of_segs(m.segs.subrange(0, i as int)));
            }
        }
        proof {
            assert(m.segs.subrange(0, m.segs.len() as int) =~= m.segs);
        }
        k
    }
}

/// The raw names between separator bytes, in order; empty names (leading,
/// doubled or trailing separators) contribute nothing. `cur` carries the
/// bytes of the name read so far.
pub open spec fn split_raw(b: Seq<u8>, cur: Seq<u8>) -> Seq<Seq<u8>>
    decreases b.len(),
{
    if b.len() == 0 {
        if cur.len() == 0 {
            Seq::<Seq<u8>>::empty()
        } else {
            seq![cur]
        }
    } else if b[0] == sep_byte() {
        (if cur.len() == 0 {
            Seq::<Seq<u8>>::empty()
        } else {
            seq![cur]
        }) + split_raw(b.drop_first(), Seq::<u8>::empty())
    } else {
        split_raw(b.drop_first(), cur.push(b[0]))
    }
}

/// The segments that raw path bytes stand for.
pub open spec fn parse_segs(raw: Seq<u8>) -> Seq<SegModel> {
    split_raw(raw, Seq::<u8>::empty()).map_values(|b: Seq<u8>| seg_of_bytes(b))
}

/// Whether raw path bytes carry a leading root marker.
pub open spec fn parse_rooted(raw: Seq<u8>) -> bool {
    raw.len() > 0 && raw[0] == sep_byte()
}


/// Pushing a name and its segment keeps a segment list and a name list in
/// step.
proof fn lemma_seg_list_push(xs: Seq<Seg>, ys: Seq<Seq<u8>>, x: Seg, y: Seq<u8>)
    requires
        xs.map_values(|s: Seg| s@) == ys.map_values(|b: Seq<u8>| seg_of_bytes(b)),
        x@ == seg_of_bytes(y),
    ensures
        xs.push(x).map_values(|s: Seg| s@) == ys.push(y).map_values(|b: Seq<u8>| seg_of_bytes(b)),
{
    let lhs = xs.push(x).map_values(|s: Seg| s@);
    let rhs = ys.push(y).map_values(|b: Seq<u8>| seg_of_bytes(b));
    assert(xs.map_values(|s: Seg| s@).len() == xs.len());
    assert(ys.map_values(|b: Seq<u8>| seg_of_bytes(b)).len() == ys.len());
    assert forall|i: int| 0 <= i < lhs.len() implies lhs[i] == rhs[i] by {
        assert(lhs[i] == xs.push(x)[i]@);
        assert(rhs[i] == seg_of_bytes(ys.push(y)[i]));
        if i < xs.len() {
            assert(xs.push(x)[i] == xs[i]);
            assert(ys.push(y)[i] == ys[i]);
            assert(xs.map_values(|s: Seg| s@)[i] == xs[i]@);
            assert(ys.map_values(|b: Seq<u8>| seg_of_bytes(b))[i] == seg_of_bytes(ys[i]));
            assert(xs.map_values(|s: Seg| s@)[i] == ys.map_values(|b: Seq<u8>| seg_of_bytes(b))[i]);
        } else {
            assert(xs.push(x)[i] == x);
            assert(ys.push(y)[i] == y);
        }
    }
    assert(lhs =~= rhs);
}

/// One unfolding of `split_raw` on a nonempty byte sequence.
proof fn lemma_split_step(b: Seq<u8>, cur: Seq<u8>)
    requires
        b.len() > 0,
    ensures
        b[0] == sep_byte() ==> split_raw(b, cur) == (if cur.len() == 0 {
            Seq::<Seq<u8>>::empty()
        } else {
            seq![cur]
        }) + split_raw(b.drop_first(), Seq::<u8>::empty()),
        b[0] != sep_byte() ==> split_raw(b, cur) == split_raw(b.drop_first(), cur.push(b[0])),
{
}

/// Read raw path bytes as a path: a leading separator roots it, separators
/// split it into named segments, and each name is kept as text when it
/// decodes as UTF-8 and as opaque bytes otherwise.
pub fn parse_path(raw: &[u8]) -> (r: FsPath)
    ensures
        r@.rooted == parse_rooted(raw@),
        r@.segs == parse_segs(raw@),
{
    let rooted = raw.len() > 0 && raw[0] == 47u8;
    let mut segs: Vec<Seg> = Vec::new();
    let mut cur: Vec<u8> = Vec::new();
    let ghost mut done: Seq<Seq<u8>> = Seq::<Seq<u8>>::empty();
    let mut i: usize = 0;
    proof {
        assert(raw@.subrange(0, raw@.len() as int) =~= raw@);
        assert(done + split_raw(raw@, Seq::<u8>::empty()) =~= split_raw(raw@, Seq::<u8>::empty()));
    }
    while i < raw.len()
        invariant
            i <= raw@.len(),
            segs@.map_values(|s: Seg| s@) == done.map_values(|b: Seq<u8>| seg_of_bytes(b)),
            done + split_raw(raw@.subrange(i as int, raw@.len() as int), cur@) == split_raw(
                raw@,
                Seq::<u8>::empty(),
            ),
        decreases raw@.len() - i,
    {
        let ghost rest = raw@.subrange(i as int, raw@.len() as int);
        let ghost rest1 = raw@.subrange(i as int + 1, raw@.len() as int);
        let ghost cur0 = cur@;
        let ghost done0 = done;
        proof {
            assert(rest.len() > 0);
            assert(rest[0] == raw@[i as int]);
            assert(rest.drop_first() =~= rest1);
            lemma_split_step(rest, cur0);
        }
        if raw[i] == 47u8 {
            if cur.len() > 0 {
                let name = cur;
                let ghost nameview = name@;
                cur = Vec::new();
                let s = seg_from_bytes(name);
                let ghost segs0 = segs@;
                let ghost sview = s@;
                segs.push(s);
                proof {
                    lemma_seg_list_push(segs0, done, s, nameview);
                    done = done.push(nameview);
                    assert(done =~= done0 + seq![cur0]);
                }
            } else {
                proof {
                    assert(done =~= done0 + Seq::<Seq<u8>>::empty());
                }
            }
            proof {
                assert(split_raw(rest, cur0) == (if cur0.len() == 0 {
                    Seq::<Seq<u8>>::empty()
                } else {
                    seq![cur0]
                }) + split_raw(rest1, Seq::<u8>::empty()));
                assert(cur@ =~= Seq::<u8>::empty());
                assert(split_raw(rest1, cur@) == split_raw(rest1, Seq::<u8>::empty()));
                assert(done + split_raw(rest1, cur@) =~~= done0 + split_raw(rest, cur0));
            }
        } else {
            cur.push(raw[i]);
            proof {
                assert(split_raw(rest, cur0) == split_raw(rest1, cur@));
            }
        }
        i = i + 1;
    }
    let ghost tail_name = cur@;
    let ghost done0 = done;
    if cur.len() > 0 {
        let s = seg_from_bytes(cur);
        let ghost segs0 = segs@;
        segs.push(s);
        proof {
            lemma_seg_list_push(segs0, done, s, tail_name);
            done = done.push(tail_name);
            assert(done =~= done0 + seq![tail_name]);
        }
    } else {
        proof {
            assert(done =~= done0 + Seq::<Seq<u8>>::empty());
        }
    }
    proof {
        assert(raw@.subrange(raw@.len() as int, raw@.len() as int) =~= Seq::<u8>::empty());
        assert(split_raw(Seq::<u8>::empty(), tail_name) == (if tail_name.len() == 0 {
            Seq::<Seq<u8>>::empty()
        } else {
            seq![tail_name]
        }));
        assert(done =~~= split_raw(raw@, Seq::<u8>::empty()));
        assert(segs@.map_values(|s: Seg| s@) =~~= done.map_values(|b: Seq<u8>| seg_of_bytes(b)));
        assert(segs@.map_values(|s: Seg| s@) =~~= parse_segs(raw@));
    }
    FsPath { rooted, segs }
}

/// Pushing a segment extends a path's cache key by a separator (once the
/// path has segments) and the folded bytes of the segment.
pub proof fn lemma_push_key(p: PathModel, s: SegModel)
    ensures
        key_of(push_model(p, s)) == if p.segs.len() == 0 {
            key_of(p) + seg_fold_bytes(s)
        } else {
            key_of(p) + seq![sep_byte()] + seg_fold_bytes(s)
        },
{
    let q = push_model(p, s);
    if p.segs.len() == 0 {
        assert(q.segs.len() == 1);
        assert(q.segs[0] == s);
        assert(key_of(q) =~= key_of(p) + seg_fold_bytes(s));
    } else {
        assert(q.segs.drop_last() =~= p.segs);
        assert(q.segs.last() == s);
        assert(key_of(q) =~= key_of(p) + seq![sep_byte()] + seg_fold_bytes(s));
    }
}

/// Leading root markers are stripped: the segments of a path are those of
/// the same bytes with a leading separator removed.
pub proof fn lemma_root_marker_ignored(raw: Seq<u8>)
    requires
        raw.len() > 0,
        raw[0] == sep_byte(),
    ensures
        parse_segs(raw) == parse_segs(raw.drop_first()),
{
    assert(split_raw(raw, Seq::<u8>::empty()) =~= split_raw(raw.drop_first(), Seq::<u8>::empty()));
}

/// Extending a prefix of a segment list by one segment extends its key by
/// a separator (after the first segment) and the folded segment bytes.
proof fn lemma_key_of_segs_extend(segs: Seq<SegModel>, i: int)
    requires
        1 <= i <= segs.len(),
    ensures
        key_of_segs(segs.subrange(0, i)) == if i == 1 {
            seg_fold_bytes(segs[0])
        } else {
            key_of_segs(segs.subrange(0, i - 1)) + seq![sep_byte()] + seg_fold_bytes(segs[i - 1])
        },
{
    let pre = segs.subrange(0, i);
    if i == 1 {
        assert(pre.len() == 1);
        assert(pre[0] == segs[0]);
    } else {
        assert(pre.drop_last() =~= segs.subrange(0, i - 1));
        assert(pre.last() == segs[i - 1]);
    }
}

} // verus!

