use vstd::prelude::*;
use vstd::slice::slice_index_get;
use crate::color::{Colors, ColorsView, colorize, append_bytes};
use crate::token::{Token, toks_view, tokens_of, tokenize};

verus! {

/// Which color setting a marker selects: `m`/`M` the monitor color,
/// `f`/`F` the free-desktop color, `o`/`O` the occupied-desktop color,
/// `u`/`U` the urgent-desktop color, anything else the window-state
/// color.
pub open spec fn category_setting(cfg: ColorsView, marker: u8) -> Option<Seq<u8>> {
    if marker == ('m' as u8) || marker == ('M' as u8) {
        cfg.monitor
    } else if marker == ('f' as u8) || marker == ('F' as u8) {
        cfg.free
    } else if marker == ('o' as u8) || marker == ('O' as u8) {
        cfg.occupied
    } else if marker == ('u' as u8) || marker == ('U' as u8) {
        cfg.urgent
    } else {
        cfg.state
    }
}

/// The bytes one token contributes to the output line: the colorized
/// label inside the layout its marker selects — ` x  ` for the
/// lower-case desktop and monitor markers, `-x- ` for the upper-case
/// ones, ` x` for the window-state markers `L`, `T` and `G`. A token
/// with any other marker contributes nothing.
pub open spec fn fragment_of(cfg: ColorsView, marker: u8, label: Seq<u8>) -> Seq<u8> {
    if marker == ('m' as u8) || marker == ('f' as u8) || marker == ('o' as u8) || marker == (
    'u' as u8) {
        seq![(' ' as u8)] + colorize(category_setting(cfg, marker), label) + seq![(' ' as u8), (' ' as u8)]
    } else if marker == ('M' as u8) || marker == ('F' as u8) || marker == ('O' as u8) || marker
        == ('U' as u8) {
        seq![('-' as u8)] + colorize(category_setting(cfg, marker), label) + seq![('-' as u8), (' ' as u8)]
    } else if marker == ('L' as u8) || marker == ('T' as u8) || marker == ('G' as u8) {
        seq![(' ' as u8)] + colorize(cfg.state, label)
    } else {
        Seq::empty()
    }
}

/// All fragments of a token sequence, concatenated in token order.
pub open spec fn rendered_tokens(cfg: ColorsView, toks: Seq<(u8, Seq<u8>)>) -> Seq<u8>
    decreases toks.len(),
{
    if toks.len() == 0 {
        Seq::empty()
    } else {
        rendered_tokens(cfg, toks.drop_last()) + fragment_of(
            cfg,
            toks.last().0,
            toks.last().1,
        )
    }
}

/// The full output for one input line: the fragments of its tokens in
/// order, then a single newline.
pub open spec fn rendered_line(cfg: ColorsView, line: Seq<u8>) -> Seq<u8> {
    rendered_tokens(cfg, tokens_of(line)) + seq![('\n' as u8)]
}

/// Append the fragment of one token to `out`.
fn push_fragment(out: &mut Vec<u8>, c: &Colors, marker: u8, label: &[u8])
    ensures
        final(out)@ == old(out)@ + fragment_of(c@, marker, label@),
{
    let padded = marker == ('m' as u8) || marker == ('f' as u8) || marker == ('o' as u8)
        || marker == ('u' as u8);
    let dashed = marker == ('M' as u8) || marker == ('F' as u8) || marker == ('O' as u8)
        || marker == ('U' as u8);
    let state_marker = marker == ('L' as u8) || marker == ('T' as u8) || marker == ('G' as u8);
    if padded || dashed {
        let setting = if marker == ('m' as u8) || marker == ('M' as u8) {
            &c.monitor
        } else if marker == ('f' as u8) || marker == ('F' as u8) {
            &c.free
        } else if marker == ('o' as u8) || marker == ('O' as u8) {
            &c.occupied
        } else {
            &c.urgent
        };
        let t = setting.draw(label).to_text();
        if padded {
            out.push(' ' as u8);
            append_bytes(out, t.as_slice());
            out.push(' ' as u8);
            out.push(' ' as u8);
        } else {
            out.push('-' as u8);
            append_bytes(out, t.as_slice());
            out.push('-' as u8);
            out.push(' ' as u8);
        }
    } else if state_marker {
        out.push(' ' as u8);
        let t = c.state.draw(label).to_text();
        append_bytes(out, t.as_slice());
    }
    proof {
        assert(out@ =~= old(out)@ + fragment_of(c@, marker, label@));
    }
}

/// Format one event line: decode its tokens and render each in order,
/// closing with a newline. Returns the bytes of the finished status
/// line.
pub fn print_bspwm(c: &Colors, line: &[u8]) -> (out: Vec<u8>)
    ensures
        out@ == rendered_line(c@, line@),
{
    let toks = tokenize(line);
    let ghost tv = toks_view(toks@);
    let mut out: Vec<u8> = Vec::new();
    let mut i: usize = 0;
    proof {
        assert(tv.take(0) =~= Seq::<(u8, Seq<u8>)>::empty());
    }
    while i < toks.len()
        invariant
            i <= toks@.len(),
            tv == toks_view(toks@),
            tv == tokens_of(line@),
            out@ == rendered_tokens(c@, tv.take(i as int)),
        decreases toks@.len() - i,
    {
        let t = &toks[i];
        push_fragment(&mut out, c, t.marker, t.label.as_slice());
        proof {
            assert(tv[i as int] == toks@[i as int]@);
            assert(tv.take(i + 1).drop_last() =~= tv.take(i as int));
            assert(tv.take(i + 1).last() == tv[i as int]);
        }
        i += 1;
    }
    proof {
        assert(tv.take(tv.len() as int) =~= tv);
    }
    out.push('\n' as u8);
    out
}

/// Byte-for-byte equality of two slices.
pub fn bytes_eq(a: &[u8], b: &[u8]) -> (r: bool)
    ensures
        r == (a@ == b@),
{
    if a.len() != b.len() {
        return false;
    }
    let mut i: usize = 0;
    while i < a.len()
        invariant
            i <= a@.len(),
            a@.len() == b@.len(),
            forall|j: int| 0 <= j < i ==> a@[j] == b@[j],
        decreases a@.len() - i,
    {
        if *slice_index_get(a, i) != *slice_index_get(b, i) {
            return false;
        }
        i += 1;
    }
    proof {
        assert(a@ =~= b@);
    }
    true
}

/// Handle one line of the event stream with the dedup rule: a line
/// byte-identical to the one before it produces no output, any other
/// line is rendered.
pub fn process_line(c: &Colors, prev: &[u8], line: &[u8]) -> (r: Option<Vec<u8>>)
    ensures
        line@ == prev@ ==> r is None,
        line@ != prev@ ==> (r matches Some(out) && out@ == rendered_line(c@, line@)),
{
    if bytes_eq(prev, line) {
        None
    } else {
        Some(print_bspwm(c, line))
    }
}

/// Law: the length of a padded fragment. For the markers `m`, `f`, `o`
/// and `u`, in a well-formed configuration, the fragment is the label
/// plus one leading and two trailing spaces when the selected color is
/// absent; when it is set, the markup adds a fixed overhead of sixteen
/// bytes — nine markup bytes and the seven-byte color value.
pub proof fn lemma_padded_fragment_len(c: Colors, marker: u8, label: Seq<u8>)
    requires
        c.wf(),
        marker == ('m' as u8) || marker == ('f' as u8) || marker == ('o' as u8) || marker == (
        'u' as u8),
    ensures
        category_setting(c@, marker) is None ==> fragment_of(c@, marker, label).len() == 1
            + label.len() + 2,
        category_setting(c@, marker) is Some ==> fragment_of(c@, marker, label).len() == 1
            + label.len() + 2 + 16,
{
}

} // verus!
