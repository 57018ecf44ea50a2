//! Splitting byte strings on spaces and joining them back.
//!
//! A phrase is a byte string; its words are the (possibly empty) tokens
//! between single space bytes.  Splitting and joining are specified as
//! recursive functions and the executable scanners are verified against them.

use vstd::prelude::*;

verus! {

/// The space byte, the separator between the words of a phrase.
pub open spec fn space() -> u8 {
    32
}

/// The tokens of a byte string, split on a separator byte.  The result
/// always holds at least one token; consecutive separators yield empty
/// tokens.
pub open spec fn split_bytes(s: Seq<u8>, sep: u8) -> Seq<Seq<u8>>
    decreases s.len(),
{
    if s.len() == 0 {
        seq![Seq::<u8>::empty()]
    } else if s[0] == sep {
        seq![Seq::<u8>::empty()] + split_bytes(s.drop_first(), sep)
    } else {
        let rest = split_bytes(s.drop_first(), sep);
        rest.update(0, seq![s[0]] + rest[0])
    }
}

/// The tokens joined with single separators.
pub open spec fn join_words(ws: Seq<Seq<u8>>, sep: u8) -> Seq<u8>
    decreases ws.len(),
{
    if ws.len() == 0 {
        Seq::<u8>::empty()
    } else if ws.len() == 1 {
        ws[0]
    } else {
        ws[0] + seq![sep] + join_words(ws.drop_first(), sep)
    }
}

/// Whether a token holds no separator byte.
pub open spec fn sep_free(w: Seq<u8>, sep: u8) -> bool {
    forall|i: int| 0 <= i < w.len() ==> w[i] != sep
}

pub proof fn lemma_split_len(s: Seq<u8>, sep: u8)
    ensures
        split_bytes(s, sep).len() >= 1,
    decreases s.len(),
{
    if s.len() > 0 {
        lemma_split_len(s.drop_first(), sep);
    }
}

/// A token without separators splits into itself alone.
pub proof fn lemma_split_no_sep(a: Seq<u8>, sep: u8)
    requires
        sep_free(a, sep),
    ensures
        split_bytes(a, sep) == seq![a],
    decreases a.len(),
{
    if a.len() == 0 {
        assert(a =~= Seq::<u8>::empty());
        assert(split_bytes(a, sep) =~~= seq![a]);
    } else {
        assert(a.drop_first() =~= a.subrange(1, a.len() as int));
        lemma_split_no_sep(a.drop_first(), sep);
        let rest = split_bytes(a.drop_first(), sep);
        assert(rest.update(0, seq![a[0]] + rest[0]) =~= seq![seq![a[0]] + a.drop_first()]);
        assert(seq![a[0]] + a.drop_first() =~= a);
        assert(split_bytes(a, sep) =~= seq![a]);
    }
}

/// Splitting a separator-free token, a separator, and a remainder yields the
/// token followed by the split of the remainder.
pub proof fn lemma_split_prepend(a: Seq<u8>, b: Seq<u8>, sep: u8)
    requires
        sep_free(a, sep),
    ensures
        split_bytes(a + seq![sep] + b, sep) == seq![a] + split_bytes(b, sep),
    decreases a.len(),
{
    let s = a + seq![sep] + b;
    if a.len() == 0 {
        assert(s[0] == sep);
        assert(s.drop_first() =~= b);
        assert(a =~= Seq::<u8>::empty());
        assert(split_bytes(s, sep) =~~= seq![a] + split_bytes(b, sep));
    } else {
        assert(s[0] == a[0]);
        assert(s[0] != sep);
        assert(s.drop_first() =~= a.drop_first() + seq![sep] + b);
        lemma_split_prepend(a.drop_first(), b, sep);
        let rest = split_bytes(s.drop_first(), sep);
        assert(rest == seq![a.drop_first()] + split_bytes(b, sep));
        lemma_split_len(b, sep);
        assert(rest[0] == a.drop_first());
        assert(seq![a[0]] + rest[0] =~= a);
        assert(split_bytes(s, sep) =~= (seq![a.drop_first()] + split_bytes(b, sep)).update(0, a));
        assert((seq![a.drop_first()] + split_bytes(b, sep)).update(0, a) =~= seq![a] + split_bytes(
            b,
            sep,
        ));
    }
}

/// Splitting undoes joining, for a nonempty list of separator-free tokens.
pub proof fn lemma_split_join(ws: Seq<Seq<u8>>, sep: u8)
    requires
        ws.len() >= 1,
        forall|i: int| 0 <= i < ws.len() ==> sep_free(#[trigger] ws[i], sep),
    ensures
        split_bytes(join_words(ws, sep), sep) == ws,
    decreases ws.len(),
{
    if ws.len() == 1 {
        lemma_split_no_sep(ws[0], sep);
        assert(seq![ws[0]] =~= ws);
    } else {
        lemma_split_join(ws.drop_first(), sep);
        lemma_split_prepend(ws[0], join_words(ws.drop_first(), sep), sep);
        assert(seq![ws[0]] + ws.drop_first() =~= ws);
    }
}

/// Whether two byte vectors hold the same bytes.
pub fn bytes_eq(a: &Vec<u8>, b: &Vec<u8>) -> (r: bool)
    ensures
        r == (a@ == b@),
{
    if a.len() != b.len() {
        proof {
            assert(a@ != b@);
        }
        return false;
    }
    let mut i: usize = 0;
    while i < a.len()
        invariant
            i <= a@.len(),
            a@.len() == b@.len(),
            forall|j: int| 0 <= j < i ==> a@[j] == b@[j],
        decreases a@.len() - i,
    {
        if a[i] != b[i] {
            return false;
        }
        i += 1;
    }
    proof {
        assert(a@ =~= b@);
    }
    true
}

/// Split a byte string on a separator.
pub fn split(s: &Vec<u8>, sep: u8) -> (r: Vec<Vec<u8>>)
    ensures
        r.deep_view() == split_bytes(s@, sep),
        r@.len() >= 1,
{
    let mut out: Vec<Vec<u8>> = Vec::new();
    let mut cur: Vec<u8> = Vec::new();
    let mut i: usize = 0;
    proof {
        lemma_split_len(s@, sep);
        assert(s@.skip(0) =~= s@);
        assert(out.deep_view() =~~= Seq::<Seq<u8>>::empty());
        assert(prepend_first(cur@, split_bytes(s@, sep)) =~~= split_bytes(s@, sep));
        assert(out.deep_view() + prepend_first(cur@, split_bytes(s@.skip(0), sep)) =~~= split_bytes(
            s@,
            sep,
        ));
    }
    while i < s.len()
        invariant
            i <= s@.len(),
            split_bytes(s@, sep) == out.deep_view() + prepend_first(cur@, split_bytes(
                s@.skip(i as int),
                sep,
            )),
        decreases s@.len() - i,
    {
        proof {
            assert(s@.skip(i as int).drop_first() =~= s@.skip(i + 1 as int));
            assert(s@.skip(i as int)[0] == s@[i as int]);
            lemma_split_len(s@.skip(i + 1 as int), sep);
        }
        let ghost pre = out.deep_view();
        let ghost cur0 = cur@;
        let ghost rest = split_bytes(s@.skip(i + 1 as int), sep);
        if s[i] == sep {
            out.push(cur);
            cur = Vec::new();
            proof {
                assert(out.deep_view() =~~= pre + seq![cur0]);
                assert(prepend_first(cur0, seq![Seq::<u8>::empty()] + rest) =~~= seq![cur0]
                    + rest);
                assert(prepend_first(cur@, rest) =~~= rest);
                assert(pre + (seq![cur0] + rest) =~= (pre + seq![cur0]) + rest);
            }
        } else {
            let c = s[i];
            cur.push(c);
            proof {
                assert(cur@ =~= cur0 + seq![c]);
                let r0 = split_bytes(s@.skip(i as int), sep);
                assert(r0 == prepend_first(seq![c], rest));
                assert(prepend_first(cur0, prepend_first(seq![c], rest)) =~~= prepend_first(
                    cur@,
                    rest,
                ));
            }
        }
        i += 1;
    }
    proof {
        assert(s@.skip(s@.len() as int) =~= Seq::<u8>::empty());
        assert(prepend_first(cur@, split_bytes(Seq::<u8>::empty(), sep)) =~~= seq![cur@]);
    }
    let ghost pre = out.deep_view();
    let ghost cur0 = cur@;
    out.push(cur);
    proof {
        assert(out.deep_view() =~~= pre + seq![cur0]);
    }
    out
}

/// The token list with its first token extended on the left.
pub open spec fn prepend_first(c: Seq<u8>, ws: Seq<Seq<u8>>) -> Seq<Seq<u8>>
    recommends
        ws.len() >= 1,
{
    ws.update(0, c + ws[0])
}

/// What remains to be written once the first `i` tokens are out: a leading
/// space when `i > 0`, then the tokens from `i` on joined with spaces.
pub open spec fn tail_join(ws: Seq<Seq<u8>>, i: int, sep: u8) -> Seq<u8>
    recommends
        0 <= i <= ws.len(),
{
    if i == 0 {
        join_words(ws, sep)
    } else if i == ws.len() {
        Seq::<u8>::empty()
    } else {
        seq![sep] + join_words(ws.skip(i), sep)
    }
}

proof fn lemma_tail_join_step(ws: Seq<Seq<u8>>, i: int, sep: u8)
    requires
        0 <= i < ws.len(),
    ensures
        tail_join(ws, i, sep) == (if i > 0 {
            seq![sep]
        } else {
            Seq::<u8>::empty()
        }) + ws[i] + tail_join(ws, i + 1, sep),
{
    if i == 0 {
        if ws.len() == 1 {
            assert(tail_join(ws, 0, sep) =~= Seq::<u8>::empty() + ws[0] + Seq::<u8>::empty());
        } else {
            assert(ws.drop_first() =~= ws.skip(1));
            assert(tail_join(ws, 0, sep) =~= Seq::<u8>::empty() + ws[0] + (seq![sep] + join_words(
                ws.skip(1),
                sep,
            )));
        }
    } else {
        assert(ws.skip(i)[0] == ws[i]);
        if i + 1 == ws.len() {
            assert(ws.skip(i) =~~= seq![ws[i]]);
            assert(tail_join(ws, i, sep) =~= seq![sep] + ws[i] + Seq::<u8>::empty());
        } else {
            assert(ws.skip(i).drop_first() =~= ws.skip(i + 1));
            assert(join_words(ws.skip(i), sep) == ws[i] + seq![sep] + join_words(
                ws.skip(i + 1),
                sep,
            ));
            assert(tail_join(ws, i, sep) =~= seq![sep] + ws[i] + (seq![sep] + join_words(
                ws.skip(i + 1),
                sep,
            )));
        }
    }
}

/// Join byte vectors with single separators.
pub fn join(ws: &Vec<Vec<u8>>, sep: u8) -> (r: Vec<u8>)
    requires
        ws@.len() >= 1,
    ensures
        r@ == join_words(ws.deep_view(), sep),
{
    let ghost dv = ws.deep_view();
    let mut out: Vec<u8> = Vec::new();
    let mut i: usize = 0;
    proof {
        assert(out@ + tail_join(dv, 0, sep) =~= tail_join(dv, 0, sep));
    }
    while i < ws.len()
        invariant
            i <= ws@.len(),
            ws@.len() >= 1,
            dv == ws.deep_view(),
            dv.len() == ws@.len(),
            join_words(dv, sep) == out@ + tail_join(dv, i as int, sep),
        decreases ws@.len() - i,
    {
        proof {
            lemma_tail_join_step(dv, i as int, sep);
        }
        if i > 0 {
            let ghost out0 = out@;
            out.push(sep);
            proof {
                assert(out@ =~= out0 + seq![sep]);
            }
        } else {
            proof {
                assert(out@ + Seq::<u8>::empty() =~= out@);
            }
        }
        let w: &Vec<u8> = &ws[i];
        proof {
            assert(w@ == dv[i as int]);
            assert(join_words(dv, sep) == (out@ + dv[i as int]) + tail_join(dv, i + 1, sep)) by {
                assert(out@ + dv[i as int] + tail_join(dv, i + 1, sep) =~= join_words(dv, sep));
            }
        }
        let mut j: usize = 0;
        proof {
            assert(w@.skip(0) =~= w@);
        }
        while j < w.len()
            invariant
                j <= w@.len(),
                i < ws@.len(),
                dv.len() == ws@.len(),
                w@ == dv[i as int],
                join_words(dv, sep) == (out@ + w@.skip(j as int)) + tail_join(dv, i + 1, sep),
            decreases w@.len() - j,
        {
            let ghost out0 = out@;
            out.push(w[j]);
            proof {
                assert(out@ =~= out0 + seq![w@[j as int]]);
                assert(w@.skip(j as int) =~= seq![w@[j as int]] + w@.skip(j + 1 as int));
                assert((out@ + w@.skip(j + 1 as int)) =~= (out0 + w@.skip(j as int)));
            }
            j += 1;
        }
        proof {
            assert(w@.skip(w@.len() as int) =~= Seq::<u8>::empty());
            assert(out@ + Seq::<u8>::empty() =~= out@);
            assert(out@ + tail_join(dv, i + 1, sep) =~= (out@ + w@.skip(w@.len() as int))
                + tail_join(dv, i + 1, sep));
        }
        i += 1;
    }
    proof {
        assert(out@ + tail_join(dv, dv.len() as int, sep) =~= out@);
    }
    out
}

} // verus!
