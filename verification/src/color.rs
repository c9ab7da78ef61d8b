use vstd::prelude::*;
use vstd::slice::slice_index_get;

verus! {

/// A byte is an ASCII hexadecimal digit.
pub open spec fn is_hex_digit(b: u8) -> bool {
    (('0' as u8) <= b && b <= ('9' as u8)) || (('A' as u8) <= b && b <= ('F' as u8)) || (('a' as u8) <= b && b <= ('f' as u8))
}

/// The hex-color grammar: exactly `#` followed by six hex digits.
pub open spec fn valid_hex(s: Seq<u8>) -> bool {
    &&& s.len() == 7
    &&& s[0] == ('#' as u8)
    &&& forall|i: int| 1 <= i < 7 ==> is_hex_digit(#[trigger] s[i])
}

/// The markup prefix that opens a foreground-color region: `%{F`.
pub open spec fn markup_open() -> Seq<u8> {
    seq![('%' as u8), ('{' as u8), ('F' as u8)]
}

/// The byte that closes the markup instruction: `}`.
pub open spec fn markup_mid() -> Seq<u8> {
    seq![('}' as u8)]
}

/// The markup that resets the foreground color: `%{F-}`.
pub open spec fn markup_reset() -> Seq<u8> {
    seq![('%' as u8), ('{' as u8), ('F' as u8), ('-' as u8), ('}' as u8)]
}

/// What drawing a label with an optional color produces: the label
/// alone, or the label wrapped in `%{F<hex>}...%{F-}` markup.
pub open spec fn colorize(c: Option<Seq<u8>>, label: Seq<u8>) -> Seq<u8> {
    match c {
        Option::None => label,
        Option::Some(hex) => markup_open() + hex + markup_mid() + label + markup_reset(),
    }
}

/// An optional RGB color: either absent (draw labels plain) or a
/// `#RRGGBB` value that satisfies the hex-color grammar.
pub struct Color {
    hex: Option<Vec<u8>>,
}

impl View for Color {
    type V = Option<Seq<u8>>;

    closed spec fn view(&self) -> Option<Seq<u8>> {
        match self.hex {
            Option::Some(v) => Option::Some(v@),
            Option::None => Option::None,
        }
    }
}

/// A byte is an ASCII hexadecimal digit.
fn byte_is_hex_digit(b: u8) -> (r: bool)
    ensures
        r == is_hex_digit(b),
{
    (('0' as u8) <= b && b <= ('9' as u8)) || (('A' as u8) <= b && b <= ('F' as u8)) || (('a' as u8) <= b && b <= ('f' as u8))
}

/// Append every byte of `src` to `out`.
pub fn append_bytes(out: &mut Vec<u8>, src: &[u8])
    ensures
        final(out)@ == old(out)@ + src@,
{
    let mut i: usize = 0;
    while i < src.len()
        invariant
            i <= src@.len(),
            out@ == old(out)@ + src@.take(i as int),
        decreases src@.len() - i,
    {
        out.push(*slice_index_get(src, i));
        proof {
            assert(old(out)@ + src@.take(i as int) + seq![src@[i as int]]
                =~= old(out)@ + src@.take(i as int + 1));
        }
        i += 1;
    }
    proof {
        assert(old(out)@ + src@.take(src@.len() as int) =~= old(out)@ + src@);
    }
}

impl Color {
    /// The color is well formed: a present value satisfies the
    /// hex-color grammar.
    pub open spec fn wf(&self) -> bool {
        self@ matches Some(h) ==> valid_hex(h)
    }

    /// Parse a color flag value. The empty string means "no color";
    /// any other value must match the hex-color grammar exactly, else
    /// construction fails.
    pub fn new(s: &[u8]) -> (r: Option<Color>)
        ensures
            (r is Some) <==> (s@.len() == 0 || valid_hex(s@)),
            r matches Some(c) ==> c.wf() && (s@.len() == 0 ==> c@ is None) && (s@.len() != 0
                ==> c@ == Some(s@)),
    {
        if s.len() == 0 {
            return Some(Color { hex: None });
        }
        if s.len() != 7 || *slice_index_get(s, 0) != ('#' as u8) {
            return None;
        }
        let mut i: usize = 1;
        while i < 7
            invariant
                1 <= i <= 7,
                s@.len() == 7,
                forall|j: int| 1 <= j < i ==> is_hex_digit(#[trigger] s@[j]),
            decreases 7 - i,
        {
            if !byte_is_hex_digit(*slice_index_get(s, i)) {
                return None;
            }
            i += 1;
        }
        let mut v: Vec<u8> = Vec::new();
        append_bytes(&mut v, s);
        proof {
            assert(Seq::<u8>::empty() + s@ =~= s@);
        }
        Some(Color { hex: Some(v) })
    }

    /// Bind a label to this color for rendering.
    pub fn draw<'a>(&'a self, element: &'a [u8]) -> (d: DrawColor<'a>)
        ensures
            d@ == (self@, element@),
    {
        DrawColor { color: self, label: element }
    }
}

/// A label bound to the color it is to be drawn with.
pub struct DrawColor<'a> {
    color: &'a Color,
    label: &'a [u8],
}

impl<'a> View for DrawColor<'a> {
    type V = (Option<Seq<u8>>, Seq<u8>);

    closed spec fn view(&self) -> (Option<Seq<u8>>, Seq<u8>) {
        (self.color@, self.label@)
    }
}

impl<'a> DrawColor<'a> {
    /// Render the label, wrapping it in color markup when a color is
    /// set.
    pub fn to_text(&self) -> (out: Vec<u8>)
        ensures
            out@ == colorize(self@.0, self@.1),
    {
        let mut out: Vec<u8> = Vec::new();
        match &self.color.hex {
            Option::Some(hex) => {
                out.push(('%' as u8));
                out.push(('{' as u8));
                out.push(('F' as u8));
                append_bytes(&mut out, hex.as_slice());
                out.push(('}' as u8));
                append_bytes(&mut out, self.label);
                out.push(('%' as u8));
                out.push(('{' as u8));
                out.push(('F' as u8));
                out.push(('-' as u8));
                out.push(('}' as u8));
            },
            Option::None => {
                append_bytes(&mut out, self.label);
            },
        }
        proof {
            assert(out@ =~= colorize(self@.0, self@.1));
        }
        out
    }
}

/// The five color settings, one per semantic category.
pub struct Colors {
    pub free: Color,
    pub monitor: Color,
    pub occupied: Color,
    pub urgent: Color,
    pub state: Color,
}

/// Spec-level image of a color configuration: the optional hex value
/// of each category.
pub struct ColorsView {
    pub free: Option<Seq<u8>>,
    pub monitor: Option<Seq<u8>>,
    pub occupied: Option<Seq<u8>>,
    pub urgent: Option<Seq<u8>>,
    pub state: Option<Seq<u8>>,
}

impl View for Colors {
    type V = ColorsView;

    open spec fn view(&self) -> ColorsView {
        ColorsView {
            free: self.free@,
            monitor: self.monitor@,
            occupied: self.occupied@,
            urgent: self.urgent@,
            state: self.state@,
        }
    }
}

impl Colors {
    /// Every setting is well formed.
    pub open spec fn wf(&self) -> bool {
        &&& self.free.wf()
        &&& self.monitor.wf()
        &&& self.occupied.wf()
        &&& self.urgent.wf()
        &&& self.state.wf()
    }
}

/// Law: a color constructed from the empty flag value draws any label
/// unchanged — no markup is added.
pub proof fn lemma_uncolored_draw_identity(c: Color, label: Seq<u8>)
    requires
        c@ is None,
    ensures
        colorize(c@, label) == label,
{
}

} // verus!
