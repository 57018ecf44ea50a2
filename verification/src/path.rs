//! Derivation paths: an ordered list of child-key steps, and the parser for
//! their textual form.
//!
//! A path reads `m`, then zero or more segments separated by `/`; a segment
//! is a decimal index below 2^31, optionally marked hardened by a trailing
//! apostrophe or `h`.

use crate::errors::KeyError;
use crate::text::{split, split_bytes};
use vstd::prelude::*;
use vstd::string::StringSliceAdditionalSpecFns;
use vstd::string::StrSliceExecFns;

verus! {

/// One step of a derivation path.
#[derive(Clone, Copy, Debug, PartialEq, Eq, Structural)]
pub struct PathSegment {
    /// The child index, before any hardening offset.
    pub index: u32,
    /// Whether the step derives a hardened child.
    pub hardened: bool,
}

/// A segment's index stays below the hardening offset.
pub open spec fn segment_wf(s: PathSegment) -> bool {
    s.index < 0x80000000
}

/// An ordered list of path segments.
#[derive(Debug)]
pub struct DerivationPath {
    segments: Vec<PathSegment>,
}

impl DerivationPath {
    /// The segments in order.
    pub closed spec fn spec_segments(&self) -> Seq<PathSegment> {
        self.segments@
    }

    /// At most 255 segments (the depth field of an extended key is a byte),
    /// each with an index below 2^31.
    pub closed spec fn wf(&self) -> bool {
        self.segments@.len() <= 255 && forall|i: int|
            0 <= i < self.segments@.len() ==> segment_wf(#[trigger] self.segments@[i])
    }

    /// `wf` in terms of the public accessor.
    pub proof fn lemma_wf(&self)
        requires
            self.wf(),
        ensures
            self.spec_segments().len() <= 255,
            forall|i: int|
                0 <= i < self.spec_segments().len() ==> segment_wf(
                    #[trigger] self.spec_segments()[i],
                ),
    {
    }

    /// How many segments the path has.
    pub fn len(&self) -> (r: usize)
        ensures
            r == self.spec_segments().len(),
    {
        self.segments.len()
    }

    /// The segment at a position.
    pub fn segment(&self, i: usize) -> (r: PathSegment)
        requires
            i < self.spec_segments().len(),
        ensures
            r == self.spec_segments()[i as int],
    {
        self.segments[i]
    }

    /// A path from explicit segments.
    pub fn from_segments(segments: Vec<PathSegment>) -> (r: Result<DerivationPath, KeyError>)
        ensures
            r is Ok <==> segments@.len() <= 255 && forall|i: int|
                0 <= i < segments@.len() ==> segment_wf(#[trigger] segments@[i]),
            r matches Ok(p) ==> p.wf() && p.spec_segments() == segments@,
            r matches Err(e) ==> e == KeyError::InvalidPathSyntax,
    {
        if segments.len() > 255 {
            return Err(KeyError::InvalidPathSyntax);
        }
        let mut i: usize = 0;
        while i < segments.len()
            invariant
                i <= segments@.len(),
                forall|j: int| 0 <= j < i ==> segment_wf(#[trigger] segments@[j]),
            decreases segments@.len() - i,
        {
            if segments[i].index >= 0x80000000 {
                return Err(KeyError::InvalidPathSyntax);
            }
            i += 1;
        }
        Ok(DerivationPath { segments })
    }
}

/// Whether a byte is a decimal digit.
pub open spec fn is_digit(b: u8) -> bool {
    48 <= b <= 57
}

/// The value of a string of decimal digits, most significant first.
pub open spec fn digits_value(ds: Seq<u8>) -> int
    decreases ds.len(),
{
    if ds.len() == 0 {
        0
    } else {
        digits_value(ds.drop_last()) * 10 + (ds.last() - 48)
    }
}

/// Whether a byte string is one or more decimal digits.
pub open spec fn is_digits(ds: Seq<u8>) -> bool {
    ds.len() >= 1 && forall|i: int| 0 <= i < ds.len() ==> is_digit(#[trigger] ds[i])
}

/// Whether a path token ends in a hardening mark.
pub open spec fn seg_hardened(tok: Seq<u8>) -> bool {
    tok.len() > 0 && (tok.last() == 39 || tok.last() == 104)
}

/// The digits of a path token, with any hardening mark removed.
pub open spec fn seg_body(tok: Seq<u8>) -> Seq<u8> {
    if seg_hardened(tok) {
        tok.drop_last()
    } else {
        tok
    }
}

/// Whether a path token is a well-formed segment.
pub open spec fn seg_ok(tok: Seq<u8>) -> bool {
    is_digits(seg_body(tok)) && digits_value(seg_body(tok)) < 0x80000000
}

/// The segment a well-formed path token denotes.
pub open spec fn seg_value(tok: Seq<u8>) -> PathSegment {
    PathSegment { index: digits_value(seg_body(tok)) as u32, hardened: seg_hardened(tok) }
}

/// Whether path text is well formed: a leading `m`, then at most 255
/// well-formed segments.
pub open spec fn path_ok(bytes: Seq<u8>) -> bool {
    let toks = split_bytes(bytes, 47);
    &&& toks[0] == seq![109u8]
    &&& toks.len() <= 256
    &&& forall|k: int| 1 <= k < toks.len() ==> seg_ok(#[trigger] toks[k])
}

/// The segments well-formed path text denotes.
pub open spec fn path_value(bytes: Seq<u8>) -> Seq<PathSegment> {
    let toks = split_bytes(bytes, 47);
    Seq::new((toks.len() - 1) as nat, |k: int| seg_value(toks[k + 1]))
}

/// The value of a digit string never drops below zero.
proof fn lemma_digits_nonneg(ds: Seq<u8>)
    requires
        forall|i: int| 0 <= i < ds.len() ==> is_digit(#[trigger] ds[i]),
    ensures
        digits_value(ds) >= 0,
    decreases ds.len(),
{
    if ds.len() > 0 {
        lemma_digits_nonneg(ds.drop_last());
    }
}

/// A digit string is worth at least any of its prefixes.
proof fn lemma_digits_prefix(ds: Seq<u8>, i: int)
    requires
        forall|t: int| 0 <= t < ds.len() ==> is_digit(#[trigger] ds[t]),
        0 <= i <= ds.len(),
    ensures
        digits_value(ds.take(i)) <= digits_value(ds),
    decreases ds.len() - i,
{
    if i < ds.len() {
        lemma_digits_prefix(ds, i + 1);
        let p = ds.take(i + 1);
        assert(p.drop_last() =~= ds.take(i));
        assert(p.last() == ds[i]);
        lemma_digits_nonneg(ds.take(i));
        assert(digits_value(ds.take(i)) <= digits_value(ds.take(i + 1)));
    } else {
        assert(ds.take(i) =~= ds);
    }
}

/// Parse one path token.
fn parse_segment(tok: &Vec<u8>) -> (r: Option<PathSegment>)
    ensures
        r is Some <==> seg_ok(tok@),
        r is Some ==> r.unwrap() == seg_value(tok@),
{
    let len = tok.len();
    let hardened = len > 0 && (tok[len - 1] == 39 || tok[len - 1] == 104);
    let blen = if hardened {
        len - 1
    } else {
        len
    };
    let ghost body = seg_body(tok@);
    proof {
        assert(hardened == seg_hardened(tok@));
        assert(body =~= tok@.take(blen as int));
        assert(body.len() == blen);
    }
    if blen == 0 {
        return None;
    }
    let mut acc: u64 = 0;
    let mut i: usize = 0;
    while i < blen
        invariant
            i <= blen,
            blen <= tok@.len(),
            body == seg_body(tok@),
            body =~= tok@.take(blen as int),
            body.len() == blen,
            forall|t: int| 0 <= t < i ==> is_digit(#[trigger] body[t]),
            acc == digits_value(body.take(i as int)),
            acc < 0x80000000,
        decreases blen - i,
    {
        let b = tok[i];
        proof {
            assert(body[i as int] == tok@[i as int]);
        }
        if b < 48 || b > 57 {
            proof {
                assert(!is_digits(body));
            }
            return None;
        }
        let d: u64 = (b - 48) as u64;
        let next: u64 = acc * 10 + d;
        proof {
            assert(body.take(i + 1 as int).drop_last() =~= body.take(i as int));
            assert(body.take(i + 1 as int).last() == body[i as int]);
        }
        if next >= 0x80000000 {
            proof {
                if seg_ok(tok@) {
                    lemma_digits_prefix(body, i + 1);
                }
            }
            return None;
        }
        acc = next;
        i += 1;
    }
    proof {
        assert(body.take(blen as int) =~= body);
        assert(is_digits(body));
        assert(seg_ok(tok@));
    }
    Some(PathSegment { index: acc as u32, hardened })
}

/// Parse path text.
pub fn parse_path(s: &str) -> (r: Result<DerivationPath, KeyError>)
    ensures
        r is Ok <==> path_ok(s.spec_bytes()),
        r matches Ok(p) ==> p.wf() && p.spec_segments() == path_value(s.spec_bytes()),
        r matches Err(e) ==> e == KeyError::InvalidPathSyntax,
{
    let bytes = s.as_bytes_vec();
    let toks = split(&bytes, 47);
    let ghost toks_dv = toks.deep_view();
    let head: &Vec<u8> = &toks[0];
    proof {
        assert(head@ == toks_dv[0]);
    }
    if !(head.len() == 1 && head[0] == 109) {
        proof {
            assert(toks_dv[0] != seq![109u8]) by {
                if head@.len() == 1 && head@[0] == 109 {
                    assert(head@ =~= seq![109u8]);
                }
            }
        }
        return Err(KeyError::InvalidPathSyntax);
    }
    proof {
        assert(head@ =~= seq![109u8]);
    }
    if toks.len() > 256 {
        return Err(KeyError::InvalidPathSyntax);
    }
    let mut segments: Vec<PathSegment> = Vec::new();
    let mut k: usize = 1;
    while k < toks.len()
        invariant
            1 <= k <= toks@.len(),
            toks_dv == toks.deep_view(),
            toks_dv == split_bytes(s.spec_bytes(), 47),
            toks_dv.len() == toks@.len(),
            toks_dv.len() <= 256,
            segments@.len() == k - 1,
            forall|t: int| 1 <= t < k ==> seg_ok(#[trigger] toks_dv[t]),
            forall|t: int|
                0 <= t < k - 1 ==> #[trigger] segments@[t] == seg_value(toks_dv[t + 1])
                    && segment_wf(segments@[t]),
        decreases toks@.len() - k,
    {
        let tok: &Vec<u8> = &toks[k];
        proof {
            assert(tok@ == toks_dv[k as int]);
        }
        match parse_segment(tok) {
            Some(seg) => {
                proof {
                    lemma_digits_nonneg(seg_body(tok@));
                }
                segments.push(seg);
            },
            None => {
                proof {
                    assert(!seg_ok(toks_dv[k as int]));
                    assert(!path_ok(s.spec_bytes()));
                }
                return Err(KeyError::InvalidPathSyntax);
            },
        }
        k += 1;
    }
    proof {
        assert(segments@ =~= path_value(bytes@));
    }
    Ok(DerivationPath { segments })
}

/// The fixed account path: purpose 44, coin type 118, account 0, all three
/// hardened, then change 0 and address index 0.
pub fn default_path() -> (r: DerivationPath)
    ensures
        r.wf(),
        r.spec_segments() == seq![
            PathSegment { index: 44, hardened: true },
            PathSegment { index: 118, hardened: true },
            PathSegment { index: 0, hardened: true },
            PathSegment { index: 0, hardened: false },
            PathSegment { index: 0, hardened: false },
        ],
{
    let mut segments: Vec<PathSegment> = Vec::new();
    segments.push(PathSegment { index: 44, hardened: true });
    segments.push(PathSegment { index: 118, hardened: true });
    segments.push(PathSegment { index: 0, hardened: true });
    segments.push(PathSegment { index: 0, hardened: false });
    segments.push(PathSegment { index: 0, hardened: false });
    proof {
        assert(segments@ =~= seq![
            PathSegment { index: 44u32, hardened: true },
            PathSegment { index: 118u32, hardened: true },
            PathSegment { index: 0u32, hardened: true },
            PathSegment { index: 0u32, hardened: false },
            PathSegment { index: 0u32, hardened: false },
        ]);
    }
    DerivationPath { segments }
}

} // verus!
