use vstd::prelude::*;
use vstd::slice::slice_index_get;

verus! {

/// The separator between segments of an event line: `:`.
pub const SEP: u8 = 58;

/// A decoded unit of one event line: a marker byte and its label.
pub struct Token {
    pub marker: u8,
    pub label: Vec<u8>,
}

impl View for Token {
    type V = (u8, Seq<u8>);

    open spec fn view(&self) -> (u8, Seq<u8>) {
        (self.marker, self.label@)
    }
}

/// The (marker, label) views of a token vector.
pub open spec fn toks_view(toks: Seq<Token>) -> Seq<(u8, Seq<u8>)> {
    toks.map_values(|t: Token| t@)
}

/// Index of the first separator in `s`, or `s.len()` if there is none.
pub open spec fn first_sep(s: Seq<u8>) -> nat
    decreases s.len(),
{
    if s.len() == 0 {
        0
    } else if s[0] == SEP {
        0
    } else {
        1 + first_sep(s.skip(1))
    }
}

/// An index with the properties of `first_sep` — everything before it
/// is separator-free, and it is the separator itself unless there is
/// none — is `first_sep`.
pub proof fn lemma_first_sep_is(s: Seq<u8>, i: int)
    requires
        0 <= i <= s.len(),
        forall|j: int| 0 <= j < i ==> s[j] != SEP,
        i == s.len() || s[i] == SEP,
    ensures
        first_sep(s) == i,
    decreases s.len(),
{
    if s.len() == 0 {
    } else if s[0] == SEP {
        assert(i == 0);
    } else {
        assert(i >= 1);
        assert forall|j: int| 0 <= j < i - 1 implies s.skip(1)[j] != SEP by {
            assert(s.skip(1)[j] == s[j + 1]);
        }
        if i < s.len() {
            assert(s.skip(1)[i - 1] == s[i]);
        }
        lemma_first_sep_is(s.skip(1), i - 1);
    }
}

/// Split `s` on the separator. The result always has at least one
/// segment; an empty input gives one empty segment.
pub open spec fn split_sep(s: Seq<u8>) -> Seq<Seq<u8>>
    decreases s.len(),
{
    let i = first_sep(s);
    if i >= s.len() {
        seq![s]
    } else {
        seq![s.take(i as int)] + split_sep(s.skip(i as int + 1))
    }
}

/// Join segments, placing the separator between neighbours.
pub open spec fn join_sep(segs: Seq<Seq<u8>>) -> Seq<u8>
    decreases segs.len(),
{
    if segs.len() == 0 {
        Seq::empty()
    } else if segs.len() == 1 {
        segs[0]
    } else {
        segs[0] + seq![SEP] + join_sep(segs.skip(1))
    }
}

/// The token a segment of length two or more decodes to.
pub open spec fn token_of(seg: Seq<u8>) -> (u8, Seq<u8>) {
    (seg[0], seg.skip(1))
}

/// Decode a sequence of segments: a segment shorter than two bytes is
/// dropped, every other becomes its (marker, label) token, in order.
pub open spec fn tokens_of_segs(segs: Seq<Seq<u8>>) -> Seq<(u8, Seq<u8>)>
    decreases segs.len(),
{
    if segs.len() == 0 {
        Seq::empty()
    } else {
        (if segs[0].len() >= 2 {
            seq![token_of(segs[0])]
        } else {
            Seq::<(u8, Seq<u8>)>::empty()
        }) + tokens_of_segs(segs.skip(1))
    }
}

/// Decode a whole line: discard the frame marker (the first byte),
/// split the rest on the separator, decode the segments. An empty line
/// has no tokens.
pub open spec fn tokens_of(line: Seq<u8>) -> Seq<(u8, Seq<u8>)> {
    if line.len() == 0 {
        Seq::empty()
    } else {
        tokens_of_segs(split_sep(line.skip(1)))
    }
}

/// Decoding distributes over putting one segment in front.
proof fn lemma_tokens_of_segs_step(seg: Seq<u8>, rest: Seq<Seq<u8>>)
    ensures
        tokens_of_segs(seq![seg] + rest) == (if seg.len() >= 2 {
            seq![token_of(seg)]
        } else {
            Seq::<(u8, Seq<u8>)>::empty()
        }) + tokens_of_segs(rest),
{
    assert((seq![seg] + rest)[0] == seg);
    assert((seq![seg] + rest).skip(1) =~= rest);
}

/// Decoding a single segment.
proof fn lemma_tokens_of_segs_single(seg: Seq<u8>)
    ensures
        tokens_of_segs(seq![seg]) == (if seg.len() >= 2 {
            seq![token_of(seg)]
        } else {
            Seq::<(u8, Seq<u8>)>::empty()
        }),
{
    let segs = seq![seg];
    assert(segs[0] == seg);
    assert(segs.skip(1) =~= Seq::<Seq<u8>>::empty());
    assert(tokens_of_segs(Seq::<Seq<u8>>::empty()) == Seq::<(u8, Seq<u8>)>::empty());
    if seg.len() >= 2 {
        assert(tokens_of_segs(segs) =~= seq![token_of(seg)]);
    } else {
        assert(tokens_of_segs(segs) =~= Seq::<(u8, Seq<u8>)>::empty());
    }
}

/// How `split_sep` peels off its first segment, given where that
/// segment ends.
pub proof fn lemma_split_sep_step(s: Seq<u8>, e: int)
    requires
        0 <= e <= s.len(),
        forall|j: int| 0 <= j < e ==> s[j] != SEP,
        e == s.len() || s[e] == SEP,
    ensures
        e == s.len() ==> split_sep(s) == seq![s],
        e < s.len() ==> split_sep(s) == seq![s.take(e)] + split_sep(s.skip(e + 1)),
{
    lemma_first_sep_is(s, e);
}

/// Decode one event line into its tokens: the first byte is the frame
/// marker and is discarded, the rest is split on the separator, and
/// every segment of at least two bytes yields a token whose marker is
/// the segment's first byte and whose label is the rest of it.
pub fn tokenize(line: &[u8]) -> (toks: Vec<Token>)
    ensures
        toks_view(toks@) == tokens_of(line@),
{
    let mut toks: Vec<Token> = Vec::new();
    let n = line.len();
    if n == 0 {
        proof {
            assert(toks_view(toks@) =~= tokens_of(line@));
        }
        return toks;
    }
    let ghost s = line@.skip(1);
    let mut p: usize = 1;
    proof {
        assert(s.skip(0) =~= s);
        assert(toks_view(toks@) =~= Seq::<(u8, Seq<u8>)>::empty());
    }
    loop
        invariant_except_break
            tokens_of(line@) == toks_view(toks@) + tokens_of_segs(split_sep(s.skip(p - 1))),
        invariant
            1 <= p <= n,
            n == line@.len(),
            n >= 1,
            s == line@.skip(1),
        ensures
            toks_view(toks@) == tokens_of(line@),
        decreases n - p,
    {
        let mut e: usize = p;
        while e < n && *slice_index_get(line, e) != SEP
            invariant
                p <= e <= n,
                n == line@.len(),
                forall|j: int| p <= j < e ==> line@[j] != SEP,
            decreases n - e,
        {
            e += 1;
        }
        let ghost r = s.skip(p - 1);
        proof {
            assert forall|j: int| 0 <= j < e - p implies r[j] != SEP by {
                assert(r[j] == line@[j + p]);
            }
            if e < n {
                assert(r[e - p] == line@[e as int]);
            }
            lemma_split_sep_step(r, e - p);
            assert(r.take(e - p) =~= line@.subrange(p as int, e as int));
        }
        if e - p >= 2 {
            let mut label: Vec<u8> = Vec::new();
            let mut k: usize = p + 1;
            while k < e
                invariant
                    p + 1 <= k <= e,
                    e <= n,
                    n == line@.len(),
                    label@ == line@.subrange(p as int + 1, k as int),
                decreases e - k,
            {
                label.push(*slice_index_get(line, k));
                proof {
                    assert(line@.subrange(p as int + 1, k as int) + seq![line@[k as int]]
                        =~= line@.subrange(p as int + 1, k as int + 1));
                }
                k += 1;
            }
            let t = Token { marker: *slice_index_get(line, p), label };
            proof {
                assert(t@ == token_of(line@.subrange(p as int, e as int))) by {
                    assert(line@.subrange(p as int, e as int).skip(1)
                        =~= line@.subrange(p as int + 1, e as int));
                }
            }
            let ghost old_toks = toks@;
            toks.push(t);
            proof {
                assert(toks_view(toks@) =~= toks_view(old_toks) + seq![t@]);
            }
        }
        proof {
            let seg = line@.subrange(p as int, e as int);
            if e == n {
                lemma_tokens_of_segs_single(seg);
                assert(r =~= seg);
            } else {
                lemma_tokens_of_segs_step(seg, split_sep(r.skip(e - p + 1)));
                assert(r.skip(e - p + 1) =~= s.skip(e as int));
            }
        }
        if e == n {
            break;
        }
        p = e + 1;
    }
    toks
}

/// Joining separator-free segments and splitting again recovers them.
pub proof fn lemma_split_join(segs: Seq<Seq<u8>>)
    requires
        segs.len() >= 1,
        forall|k: int| 0 <= k < segs.len() ==> !(#[trigger] segs[k]).contains(SEP),
    ensures
        split_sep(join_sep(segs)) == segs,
    decreases segs.len(),
{
    let j = join_sep(segs);
    assert forall|i: int| 0 <= i < segs[0].len() implies segs[0][i] != SEP by {
        assert(!segs[0].contains(SEP));
    }
    if segs.len() == 1 {
        lemma_first_sep_is(j, j.len() as int);
        assert(split_sep(j) =~= segs);
    } else {
        let len0 = segs[0].len() as int;
        assert forall|i: int| 0 <= i < len0 implies j[i] != SEP by {
            assert(j[i] == segs[0][i]);
        }
        assert(j[len0] == SEP);
        lemma_first_sep_is(j, len0);
        assert forall|k: int| 0 <= k < segs.skip(1).len() implies !(#[trigger] segs.skip(1)[k]).contains(SEP) by {
            assert(segs.skip(1)[k] == segs[k + 1]);
        }
        lemma_split_join(segs.skip(1));
        assert(j.take(len0) =~= segs[0]);
        assert(j.skip(len0 + 1) =~= join_sep(segs.skip(1)));
        assert(split_sep(j) =~= segs);
    }
}

/// Law: decoding a line built from arbitrary separator-free segments
/// keeps exactly the segments of length two or more, as (marker,
/// label) tokens in order, and drops the short ones — whatever single
/// byte `x` frames the line.
pub proof fn lemma_tokenize_segments(x: u8, segs: Seq<Seq<u8>>)
    requires
        segs.len() >= 1,
        forall|k: int| 0 <= k < segs.len() ==> !(#[trigger] segs[k]).contains(SEP),
    ensures
        tokens_of(seq![x] + join_sep(segs)) == tokens_of_segs(segs),
{
    lemma_split_join(segs);
    assert((seq![x] + join_sep(segs)).skip(1) =~= join_sep(segs));
}

/// The segment that encodes one (marker, label) token.
pub open spec fn seg_of_token(t: (u8, Seq<u8>)) -> Seq<u8> {
    seq![t.0] + t.1
}

/// Decoding the segments that encode a token sequence gives back the
/// tokens, provided every label is non-empty.
proof fn lemma_tokens_of_seg_map(toks: Seq<(u8, Seq<u8>)>)
    requires
        forall|k: int| 0 <= k < toks.len() ==> (#[trigger] toks[k]).1.len() >= 1,
    ensures
        tokens_of_segs(toks.map_values(|t: (u8, Seq<u8>)| seg_of_token(t))) == toks,
    decreases toks.len(),
{
    let segs = toks.map_values(|t: (u8, Seq<u8>)| seg_of_token(t));
    if toks.len() == 0 {
        assert(tokens_of_segs(segs) =~= toks);
    } else {
        assert forall|k: int| 0 <= k < toks.skip(1).len() implies (#[trigger] toks.skip(1)[k]).1.len() >= 1 by {
            assert(toks.skip(1)[k] == toks[k + 1]);
        }
        lemma_tokens_of_seg_map(toks.skip(1));
        assert(segs.skip(1) =~= toks.skip(1).map_values(|t: (u8, Seq<u8>)| seg_of_token(t)));
        assert(segs[0] == seg_of_token(toks[0]));
        assert(token_of(seg_of_token(toks[0])) == toks[0]) by {
            assert(seg_of_token(toks[0]).skip(1) =~= toks[0].1);
        }
        assert(tokens_of_segs(segs) =~= toks);
    }
}

/// Law: a round trip. A line built from (marker, label) pairs — any
/// frame-marker byte `x` in front, one segment of marker-then-label
/// per pair, segments joined with the separator — decodes to exactly
/// those pairs, in order. This holds provided no marker is the
/// separator byte, no label contains it, and no label is empty: an
/// empty label gives a one-byte segment, which decoding drops.
pub proof fn lemma_tokenize_round_trip(x: u8, toks: Seq<(u8, Seq<u8>)>)
    requires
        forall|k: int| 0 <= k < toks.len() ==> (#[trigger] toks[k]).0 != SEP,
        forall|k: int| 0 <= k < toks.len() ==> !(#[trigger] toks[k]).1.contains(SEP),
        forall|k: int| 0 <= k < toks.len() ==> (#[trigger] toks[k]).1.len() >= 1,
    ensures
        tokens_of(seq![x] + join_sep(toks.map_values(|t: (u8, Seq<u8>)| seg_of_token(t))))
            == toks,
{
    let segs = toks.map_values(|t: (u8, Seq<u8>)| seg_of_token(t));
    if toks.len() == 0 {
        let line = seq![x] + join_sep(segs);
        assert(line.skip(1) =~= Seq::<u8>::empty());
        lemma_first_sep_is(Seq::<u8>::empty(), 0);
        lemma_tokens_of_segs_single(Seq::<u8>::empty());
        assert(split_sep(Seq::<u8>::empty()) =~= seq![Seq::<u8>::empty()]);
        assert(tokens_of(line) =~= toks);
    } else {
        assert forall|k: int| 0 <= k < segs.len() implies !(#[trigger] segs[k]).contains(SEP) by {
            let seg = segs[k];
            assert(seg == seg_of_token(toks[k]));
            assert forall|i: int| 0 <= i < seg.len() implies seg[i] != SEP by {
                if i == 0 {
                    assert(seg[0] == toks[k].0);
                } else {
                    assert(seg[i] == toks[k].1[i - 1]);
                    assert(!toks[k].1.contains(SEP));
                }
            }
            if seg.contains(SEP) {
                let i = choose|i: int| 0 <= i < seg.len() && seg[i] == SEP;
                assert(seg[i] != SEP);
            }
        }
        lemma_tokenize_segments(x, segs);
        lemma_tokens_of_seg_map(toks);
    }
}

} // verus!
