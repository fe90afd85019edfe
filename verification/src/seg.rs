use vstd::prelude::*;
use vstd::utf8::{valid_utf8, decode_utf8, encode_utf8};
use vstd::string::StrSliceExecFns;

verus! {

/// One path segment. Segment names on disk are raw bytes; only the ones that
/// decode as UTF-8 text can take part in case-insensitive matching, so a
/// segment is kept either as its decoded text or as its opaque bytes.
#[derive(Clone, Debug, PartialEq, Eq)]
pub enum Seg {
    Text(String),
    Opaque(Vec<u8>),
}

/// The mathematical value of a segment.
pub enum SegModel {
    Text(Seq<char>),
    Opaque(Seq<u8>),
}

impl View for Seg {
    type V = SegModel;

    open spec fn view(&self) -> SegModel {
        match self {
            Seg::Text(s) => SegModel::Text(s@),
            Seg::Opaque(b) => SegModel::Opaque(b@),
        }
    }
}

/// The lowercase form of a character sequence, as `str::to_lowercase`
/// computes it. The result depends on the characters alone.
pub uninterp spec fn lowered(s: Seq<char>) -> Seq<char>;

/// Relies on str::to_lowercase: the lowercase form of the text, a pure
/// function of its characters.
#[verifier::external_body]
pub(crate) fn to_lower(s: &String) -> (r: String)
    ensures
        r@ == lowered(s@),
{
    s.to_lowercase()
}

/// Relies on String::from_utf8: it succeeds exactly on input that is valid
/// UTF-8, decoding it, and its error hands the input bytes back unchanged
/// (FromUtf8Error::into_bytes).
#[verifier::external_body]
fn decode_bytes(b: Vec<u8>) -> (r: Result<String, Vec<u8>>)
    ensures
        match r {
            Ok(s) => valid_utf8(b@) && s@ == decode_utf8(b@),
            Err(e) => !valid_utf8(b@) && e@ == b@,
        },
{
    match String::from_utf8(b) {
        Ok(s) => Ok(s),
        Err(e) => Err(e.into_bytes()),
    }
}

/// The segment that a raw byte name stands for: its text when the bytes
/// decode, the opaque bytes otherwise.
pub open spec fn seg_of_bytes(b: Seq<u8>) -> SegModel {
    if valid_utf8(b) {
        SegModel::Text(decode_utf8(b))
    } else {
        SegModel::Opaque(b)
    }
}

/// Classify a raw byte name as a segment.
pub fn seg_from_bytes(b: Vec<u8>) -> (s: Seg)
    ensures
        s@ == seg_of_bytes(b@),
{
    match decode_bytes(b) {
        Ok(t) => Seg::Text(t),
        Err(raw) => Seg::Opaque(raw),
    }
}

/// Case folding of one segment: text is lowered, opaque bytes fold to
/// themselves and so never match case-insensitively.
pub open spec fn fold_seg(s: SegModel) -> SegModel {
    match s {
        SegModel::Text(t) => SegModel::Text(lowered(t)),
        SegModel::Opaque(b) => SegModel::Opaque(b),
    }
}

/// The bytes a folded segment contributes to a cache key.
pub open spec fn seg_fold_bytes(s: SegModel) -> Seq<u8> {
    match s {
        SegModel::Text(t) => encode_utf8(lowered(t)),
        SegModel::Opaque(b) => b,
    }
}

impl Seg {
    /// An exact copy of the segment.
    pub fn duplicate(&self) -> (r: Seg)
        ensures
            r@ == self@,
    {
        match self {
            Seg::Text(s) => Seg::Text(s.clone()),
            Seg::Opaque(b) => Seg::Opaque(copy_bytes(b)),
        }
    }

    /// The bytes this segment contributes to a cache key: its lowered text
    /// in UTF-8, or the opaque bytes themselves.
    pub fn fold_bytes(&self) -> (r: Vec<u8>)
        ensures
            r@ == seg_fold_bytes(self@),
    {
        match self {
            Seg::Text(s) => {
                let lowered_text = to_lower(s);
                lowered_text.as_str().as_bytes_vec()
            },
            Seg::Opaque(b) => copy_bytes(b),
        }
    }
}

/// An exact copy of a byte vector.
pub fn copy_bytes(b: &Vec<u8>) -> (r: Vec<u8>)
    ensures
        r@ == b@,
{
    let mut r: Vec<u8> = Vec::new();
    let mut i: usize = 0;
    while i < b.len()
        invariant
            i <= b@.len(),
            r@ == b@.subrange(0, i as int),
        decreases b@.len() - i,
    {
        r.push(b[i]);
        i = i + 1;
        proof {
            assert(r@ =~= b@.subrange(0, i as int));
        }
    }
    proof {
        assert(r@ =~= b@);
    }
    r
}

} // verus!
