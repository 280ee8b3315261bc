//! The alignment engine: padding segments to a common display width.
//!
//! A text is split on a configurable delimiter; every segment is measured,
//! and padding is prepended so that all segments visually align to the
//! widest one.  Alignment only ever adds characters at the left edge of a
//! segment, which is why left alignment is a true identity.

use vstd::prelude::*;
use vstd::string::StringExecFns;

use crate::segments::{
    join_text, lemma_join_push, lemma_split_text_len, seg_views, split_chars, split_text,
};
use crate::width::{chars_of, max_of_widths, max_text_width, measure_segments, text_width};

verus! {

/// Relies on `String::push`: appends the given character to the end of
/// the string.
pub assume_specification[ String::push ](s: &mut String, c: char)
    ensures
        final(s)@ == old(s)@.push(c),
;

/// How segments are aligned within a block.
#[derive(Debug, Clone, Copy, PartialEq, Eq, Structural)]
pub enum Alignment {
    Left,
    Center,
    Right,
}

/// Options for aligning a block of text.
#[derive(Debug, Clone)]
pub struct AlignOptions {
    /// The alignment mode.
    pub align: Alignment,
    /// The delimiter the text is split on (a line break when not set).
    pub split: String,
    /// The padding character (a space when not set).
    pub pad: char,
}

impl Default for AlignOptions {
    /// The default options: center alignment, split on line breaks, pad
    /// with spaces.
    fn default() -> (r: Self)
        ensures
            r.align == Alignment::Center,
            r.split@ == seq!['\n'],
            r.pad == ' ',
    {
        proof {
            reveal_strlit("\n");
        }
        let s: String = String::from_str("\n");
        proof {
            assert(s@ =~= seq!['\n']);
        }
        AlignOptions { align: Alignment::Center, split: s, pad: ' ' }
    }
}

impl AlignOptions {
    /// Options with the given alignment and the default delimiter and pad.
    pub fn new(align: Alignment) -> (r: Self)
        ensures
            r.align == align,
            r.split@ == seq!['\n'],
            r.pad == ' ',
    {
        let d: AlignOptions = Default::default();
        AlignOptions { align, split: d.split, pad: d.pad }
    }

    /// The same options with the delimiter replaced.
    pub fn split(self, split: &str) -> (r: Self)
        ensures
            r.align == self.align,
            r.split@ == split@,
            r.pad == self.pad,
    {
        AlignOptions { align: self.align, split: split.to_owned(), pad: self.pad }
    }

    /// The same options with the padding character replaced.
    pub fn pad(self, pad: char) -> (r: Self)
        ensures
            r.align == self.align,
            r.split@ == self.split@,
            r.pad == pad,
    {
        AlignOptions { align: self.align, split: self.split, pad }
    }
}

/// How many pad characters a segment of width `w` receives when the
/// widest segment has width `maxw`: none for left alignment, the full
/// deficit for right alignment, and half the deficit, rounded down, for
/// center alignment.
pub open spec fn pad_count(a: Alignment, maxw: nat, w: nat) -> nat {
    if w > maxw {
        0
    } else {
        match a {
            Alignment::Left => 0,
            Alignment::Center => (((maxw - w) as nat) / 2) as nat,
            Alignment::Right => (maxw - w) as nat,
        }
    }
}

/// `n` copies of the pad character.
pub open spec fn pad_run(p: char, n: nat) -> Seq<char> {
    Seq::new(n, |i: int| p)
}

/// A segment with its padding prepended.
pub open spec fn aligned_segment(seg: Seq<char>, a: Alignment, maxw: nat, p: char) -> Seq<char> {
    pad_run(p, pad_count(a, maxw, text_width(seg))) + seg
}

/// Every segment with its padding prepended.
pub open spec fn align_segments(ss: Seq<Seq<char>>, a: Alignment, maxw: nat, p: char) -> Seq<
    Seq<char>,
> {
    ss.map_values(|seg: Seq<char>| aligned_segment(seg, a, maxw, p))
}

/// The aligned block: the text split on the delimiter, every segment
/// padded against the widest, and the pieces rejoined with the same
/// delimiter.  An empty text and left alignment are identities.
pub open spec fn align_text(s: Seq<char>, a: Alignment, d: Seq<char>, p: char) -> Seq<char> {
    if s.len() == 0 || a == Alignment::Left {
        s
    } else {
        let segs = split_text(s, d);
        join_text(align_segments(segs, a, max_text_width(segs), p), d)
    }
}

/// The alignment the options ask for; center when none are given.
pub open spec fn opt_align(o: Option<AlignOptions>) -> Alignment {
    match o {
        Some(x) => x.align,
        None => Alignment::Center,
    }
}

/// The delimiter the options ask for; a line break when none are given.
pub open spec fn opt_delim(o: Option<AlignOptions>) -> Seq<char> {
    match o {
        Some(x) => x.split@,
        None => seq!['\n'],
    }
}

/// The padding character the options ask for; a space when none are given.
pub open spec fn opt_pad(o: Option<AlignOptions>) -> char {
    match o {
        Some(x) => x.pad,
        None => ' ',
    }
}

/// Appends the characters of `v` to `out`.
pub fn push_chars(out: &mut String, v: &Vec<char>)
    ensures
        final(out)@ == old(out)@ + v@,
{
    let n: usize = v.len();
    let mut i: usize = 0;
    proof {
        assert(out@ =~= old(out)@ + v@.take(0));
    }
    while i < n
        invariant
            n == v@.len(),
            i <= n,
            out@ == old(out)@ + v@.take(i as int),
        decreases n - i,
    {
        let c: char = v[i];
        out.push(c);
        proof {
            assert((old(out)@ + v@.take(i as int)).push(v@[i as int]) =~= old(out)@ + v@.take(
                i as int + 1,
            ));
        }
        i = i + 1;
    }
    proof {
        assert(old(out)@ + v@.take(n as int) =~= old(out)@ + v@);
    }
}

/// Appends `k` copies of the pad character to `out`.
fn push_pads(out: &mut String, p: char, k: usize)
    ensures
        final(out)@ == old(out)@ + pad_run(p, k as nat),
{
    let mut i: usize = 0;
    proof {
        assert(out@ =~= old(out)@ + pad_run(p, 0));
    }
    while i < k
        invariant
            i <= k,
            out@ == old(out)@ + pad_run(p, i as nat),
        decreases k - i,
    {
        out.push(p);
        proof {
            assert((old(out)@ + pad_run(p, i as nat)).push(p) =~= old(out)@ + pad_run(
                p,
                i as nat + 1,
            ));
        }
        i = i + 1;
    }
}

/// Aligns a block of text: the text is split on the configured delimiter,
/// every segment is measured (ANSI escape sequences inside a segment are
/// kept in the output but occupy no columns), and pad characters are
/// prepended so all segments align to the widest.  An empty text is
/// returned unchanged, and left alignment is a no-op.
pub fn ansi_align(text: &str, opts: Option<AlignOptions>) -> (res: String)
    ensures
        res@ == align_text(text@, opt_align(opts), opt_delim(opts), opt_pad(opts)),
{
    if text.is_empty() {
        return text.to_owned();
    }
    let o: AlignOptions = match opts {
        Some(x) => x,
        None => Default::default(),
    };
    if o.align == Alignment::Left {
        return text.to_owned();
    }
    let tv: Vec<char> = chars_of(text);
    let dv: Vec<char> = chars_of(o.split.as_str());
    let segs: Vec<Vec<char>> = split_chars(&tv, &dv);
    let ws: Vec<usize> = measure_segments(&segs);
    let mw: usize = max_of_widths(&segs, &ws);
    let ghost a = o.align;
    let ghost d = dv@;
    let ghost p = o.pad;
    let ghost alg = align_segments(seg_views(segs@), a, mw as nat, p);
    proof {
        lemma_split_text_len(tv@, dv@);
    }
    let n: usize = segs.len();
    let mut out: String = String::new();
    let mut i: usize = 0;
    while i < n
        invariant
            n == segs@.len(),
            n >= 1,
            i <= n,
            ws@.len() == segs@.len(),
            forall|j: int| 0 <= j < segs@.len() ==> ws@[j] == text_width(segs@[j]@),
            forall|j: int| 0 <= j < ws@.len() ==> ws@[j] <= mw,
            d == dv@,
            p == o.pad,
            a == o.align,
            alg == align_segments(seg_views(segs@), a, mw as nat, p),
            i == 0 ==> out@ == Seq::<char>::empty(),
            i >= 1 ==> out@ == join_text(alg.take(i as int), d),
        decreases n - i,
    {
        if i > 0 {
            push_chars(&mut out, &dv);
        }
        let w: usize = ws[i];
        let k: usize = match o.align {
            Alignment::Left => 0,
            Alignment::Center => (mw - w) / 2,
            Alignment::Right => mw - w,
        };
        push_pads(&mut out, o.pad, k);
        push_chars(&mut out, &segs[i]);
        proof {
            assert(seg_views(segs@)[i as int] == segs@[i as int]@);
            assert(alg[i as int] == aligned_segment(segs@[i as int]@, a, mw as nat, p));
            assert(k as nat == pad_count(a, mw as nat, text_width(segs@[i as int]@)));
            assert(alg[i as int] =~= pad_run(p, k as nat) + segs@[i as int]@);
            lemma_join_push(alg.take(i as int), alg[i as int], d);
            assert(alg.take(i as int).push(alg[i as int]) =~= alg.take(i as int + 1));
            if i == 0 {
                assert(out@ =~= join_text(alg.take(1), d));
            } else {
                assert(out@ =~= join_text(alg.take(i as int + 1), d));
            }
        }
        i = i + 1;
    }
    proof {
        assert(alg.take(n as int) =~= alg);
        assert(text@.len() > 0);
        assert(out@ == align_text(text@, opt_align(opts), opt_delim(opts), opt_pad(opts)));
    }
    out
}

/// Left alignment: the text is returned unchanged.
pub fn left(text: &str) -> (res: String)
    ensures
        res@ == text@,
        res@ == align_text(text@, Alignment::Left, seq!['\n'], ' '),
{
    ansi_align(text, Some(AlignOptions::new(Alignment::Left)))
}

/// Center alignment with the default delimiter and pad.
pub fn center(text: &str) -> (res: String)
    ensures
        res@ == align_text(text@, Alignment::Center, seq!['\n'], ' '),
{
    ansi_align(text, Some(AlignOptions::new(Alignment::Center)))
}

/// Right alignment with the default delimiter and pad.
pub fn right(text: &str) -> (res: String)
    ensures
        res@ == align_text(text@, Alignment::Right, seq!['\n'], ' '),
{
    ansi_align(text, Some(AlignOptions::new(Alignment::Right)))
}

} // verus!
