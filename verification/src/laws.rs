//! Laws of the measurement-and-alignment pipeline, stated and proved.

use vstd::prelude::*;

use crate::align::{
    align_segments, align_text, aligned_segment, pad_count, pad_run, Alignment,
};
use crate::segments::{join_text, lemma_join_split, lemma_split_text_len, split_text};
use crate::width::{
    char_columns, chars_width, csi_rest, csi_strip, is_csi_final_char, is_csi_param_char,
    is_plain_char, lemma_chars_width_concat, lemma_max_is_bound, max_text_width, stripped,
    text_width,
};

verus! {

/// Every character of `s` is printable ASCII.
pub open spec fn all_plain(s: Seq<char>) -> bool {
    forall|i: int| 0 <= i < s.len() ==> is_plain_char(#[trigger] s[i])
}

/// The character `c` does not occur in `x`.
pub open spec fn delim_free(x: Seq<char>, c: char) -> bool {
    forall|j: int| 0 <= j < x.len() ==> #[trigger] x[j] != c
}

/// A printable ASCII prefix passes the escape stripper verbatim.
pub proof fn lemma_stripped_plain_prefix(pre: Seq<char>, t: Seq<char>)
    requires
        all_plain(pre),
    ensures
        stripped(pre + t) == pre + stripped(t),
    decreases pre.len(),
{
    if pre.len() == 0 {
        assert(pre + t =~= t);
        assert(pre + stripped(t) =~= stripped(t));
    } else {
        assert((pre + t).len() > 0);
        assert((pre + t)[0] == pre[0]);
        assert((pre + t).drop_first() =~= pre.drop_first() + t);
        lemma_stripped_plain_prefix(pre.drop_first(), t);
        assert(stripped(pre + t) == seq![pre[0]] + (pre.drop_first() + stripped(t)));
        assert(seq![pre[0]] + (pre.drop_first() + stripped(t)) =~= pre + stripped(t));
    }
}

/// A pure printable ASCII text is left untouched by the escape stripper.
pub proof fn lemma_stripped_plain_identity(s: Seq<char>)
    requires
        all_plain(s),
    ensures
        stripped(s) == s,
{
    lemma_stripped_plain_prefix(s, Seq::<char>::empty());
    assert(s + Seq::<char>::empty() =~= s);
    assert(s + stripped(Seq::<char>::empty()) =~= s);
}

/// Printable ASCII characters occupy one column each.
pub proof fn lemma_chars_width_plain(s: Seq<char>)
    requires
        all_plain(s),
    ensures
        chars_width(s) == s.len(),
    decreases s.len(),
{
    if s.len() > 0 {
        assert(is_plain_char(s[0]));
        assert(char_columns(s[0]) == 1);
        lemma_chars_width_plain(s.drop_first());
    }
}

/// The display width of a pure printable ASCII text is its character
/// count; in particular the empty text has width zero.
pub proof fn lemma_plain_text_width(s: Seq<char>)
    requires
        all_plain(s),
    ensures
        text_width(s) == s.len(),
{
    lemma_stripped_plain_identity(s);
    lemma_chars_width_plain(s);
}

/// Padding a segment with `k` printable ASCII pad characters adds exactly
/// `k` columns to its display width.
pub proof fn lemma_pad_width(p: char, k: nat, seg: Seq<char>)
    requires
        is_plain_char(p),
    ensures
        text_width(pad_run(p, k) + seg) == k + text_width(seg),
{
    assert(all_plain(pad_run(p, k)));
    lemma_stripped_plain_prefix(pad_run(p, k), seg);
    lemma_chars_width_concat(pad_run(p, k), stripped(seg));
    lemma_chars_width_plain(pad_run(p, k));
}

/// A complete simple CSI escape sequence: the escape character, `[`,
/// parameter characters (digits and semicolons), and one final character.
pub open spec fn is_csi_sequence(e: Seq<char>) -> bool {
    csi_strip(e) == Some(Seq::<char>::empty())
}

/// A CSI body keeps its shape when more text follows it.
proof fn lemma_csi_rest_concat(x: Seq<char>, y: Seq<char>)
    ensures
        csi_rest(x) matches Some(r) ==> csi_rest(x + y) == Some(r + y),
    decreases x.len(),
{
    if x.len() == 0 {
    } else if is_csi_final_char(x[0]) {
        assert((x + y)[0] == x[0]);
        assert((x + y).drop_first() =~= x.drop_first() + y);
    } else if is_csi_param_char(x[0]) {
        assert((x + y)[0] == x[0]);
        assert((x + y).drop_first() =~= x.drop_first() + y);
        lemma_csi_rest_concat(x.drop_first(), y);
    }
}

/// A simple CSI escape sequence at the front of a text is removed whole
/// by the escape stripper.
pub proof fn lemma_csi_prefix_stripped(e: Seq<char>, t: Seq<char>)
    requires
        is_csi_sequence(e),
    ensures
        stripped(e + t) == stripped(t),
{
    let s = e + t;
    assert(e.len() >= 2);
    assert(csi_rest(e.skip(2)) == Some(Seq::<char>::empty()));
    assert(e.skip(2).len() >= 1);
    assert(s[0] == e[0]);
    assert(s[1] == e[1]);
    assert(!is_plain_char(s[0]));
    assert(s.skip(2) =~= e.skip(2) + t);
    lemma_csi_rest_concat(e.skip(2), t);
    assert(Seq::<char>::empty() + t =~= t);
    assert(csi_strip(s) == Some(t));
}

/// Wrapping a pure printable ASCII text in simple CSI escape sequences
/// leaves its display width unchanged.
pub proof fn lemma_escape_wrapping_width(e1: Seq<char>, s: Seq<char>, e2: Seq<char>)
    requires
        is_csi_sequence(e1),
        is_csi_sequence(e2),
        all_plain(s),
    ensures
        text_width(e1 + s + e2) == text_width(s),
{
    assert(e1 + s + e2 =~= e1 + (s + e2));
    lemma_csi_prefix_stripped(e1, s + e2);
    lemma_stripped_plain_prefix(s, e2);
    lemma_csi_prefix_stripped(e2, Seq::<char>::empty());
    assert(e2 + Seq::<char>::empty() =~= e2);
    assert(stripped(e2) == stripped(Seq::<char>::empty()));
    assert(s + stripped(e2) =~= s);
    lemma_stripped_plain_identity(s);
}

/// Left alignment is the identity on every text, whatever the delimiter
/// and the pad character.
pub proof fn lemma_left_align_identity(s: Seq<char>, d: Seq<char>, p: char)
    ensures
        align_text(s, Alignment::Left, d, p) == s,
{
}

/// Under right alignment each segment receives exactly the widest width
/// minus its own display width in leading pad characters.
pub proof fn lemma_right_align_pads(s: Seq<char>, d: Seq<char>, p: char, i: int)
    requires
        0 <= i < split_text(s, d).len(),
    ensures
        text_width(split_text(s, d)[i]) <= max_text_width(split_text(s, d)),
        align_segments(
            split_text(s, d),
            Alignment::Right,
            max_text_width(split_text(s, d)),
            p,
        )[i] == pad_run(
            p,
            (max_text_width(split_text(s, d)) - text_width(split_text(s, d)[i])) as nat,
        ) + split_text(s, d)[i],
{
    let segs = split_text(s, d);
    let m = max_text_width(segs);
    lemma_max_is_bound(segs, i);
    assert(align_segments(segs, Alignment::Right, m, p)[i] == aligned_segment(
        segs[i],
        Alignment::Right,
        m,
        p,
    ));
    assert(pad_count(Alignment::Right, m, text_width(segs[i])) == (m - text_width(
        segs[i],
    )) as nat);
}

/// A block whose segments all already have the widest width is a fixed
/// point of alignment: re-running it, in any mode, changes nothing.
pub proof fn lemma_aligned_block_fixed(s: Seq<char>, a: Alignment, d: Seq<char>, p: char)
    requires
        d.len() > 0,
        forall|i: int|
            0 <= i < split_text(s, d).len() ==> text_width(#[trigger] split_text(s, d)[i])
                == max_text_width(split_text(s, d)),
    ensures
        align_text(s, a, d, p) == s,
{
    if s.len() == 0 || a == Alignment::Left {
    } else {
        let segs = split_text(s, d);
        let m = max_text_width(segs);
        let alg = align_segments(segs, a, m, p);
        assert forall|i: int| 0 <= i < segs.len() implies alg[i] == segs[i] by {
            assert(alg[i] == aligned_segment(segs[i], a, m, p));
            assert(pad_count(a, m, text_width(segs[i])) == 0);
            assert(pad_run(p, 0) + segs[i] =~= segs[i]);
        }
        assert(alg =~~= segs);
        lemma_join_split(s, d);
    }
}

/// No segment of a split on a one-character delimiter contains that
/// character.
proof fn lemma_split_free(s: Seq<char>, d: Seq<char>)
    requires
        d.len() == 1,
    ensures
        forall|i: int|
            0 <= i < split_text(s, d).len() ==> delim_free(#[trigger] split_text(s, d)[i], d[0]),
    decreases s.len(),
{
    let c = d[0];
    if s.len() == 0 {
        assert(split_text(s, d)[0] =~= Seq::<char>::empty());
        assert(delim_free(split_text(s, d)[0], c));
    } else if s.subrange(0, 1) == d {
        lemma_split_free(s.skip(1), d);
        let parts = seq![Seq::<char>::empty()] + split_text(s.skip(1), d);
        assert(split_text(s, d) == parts);
        assert forall|i: int| 0 <= i < parts.len() implies delim_free(#[trigger] parts[i], c) by {
            if i == 0 {
                assert(parts[0] =~= Seq::<char>::empty());
            } else {
                assert(parts[i] == split_text(s.skip(1), d)[i - 1]);
            }
        }
    } else {
        assert(s.subrange(0, 1) =~= seq![s[0]]);
        assert(d =~= seq![c]);
        assert(s[0] != c);
        lemma_split_free(s.drop_first(), d);
        let rest = split_text(s.drop_first(), d);
        lemma_split_text_len(s.drop_first(), d);
        let parts = seq![seq![s[0]] + rest[0]] + rest.drop_first();
        assert(split_text(s, d) == parts);
        assert forall|i: int| 0 <= i < parts.len() implies delim_free(#[trigger] parts[i], c) by {
            if i == 0 {
                assert(delim_free(rest[0], c));
                assert forall|j: int| 0 <= j < parts[0].len() implies #[trigger] parts[0][j] != c
                by {
                    if j == 0 {
                        assert(parts[0][0] == s[0]);
                    } else {
                        assert(parts[0][j] == rest[0][j - 1]);
                    }
                }
            } else {
                assert(parts[i] == rest[i]);
                assert(delim_free(rest[i], c));
            }
        }
    }
}

/// Splitting a text free of the one-character delimiter yields the text
/// as its only segment.
proof fn lemma_split_of_free(x: Seq<char>, d: Seq<char>)
    requires
        d.len() == 1,
        delim_free(x, d[0]),
    ensures
        split_text(x, d) == seq![x],
    decreases x.len(),
{
    if x.len() == 0 {
        assert(split_text(x, d) =~~= seq![x]);
    } else {
        assert(x.subrange(0, 1) =~= seq![x[0]]);
        assert(d =~= seq![d[0]]);
        assert(x[0] != d[0]);
        assert(delim_free(x.drop_first(), d[0]));
        lemma_split_of_free(x.drop_first(), d);
        assert(split_text(x, d) =~~= seq![seq![x[0]] + x.drop_first()]);
        assert(seq![x[0]] + x.drop_first() =~= x);
        assert(split_text(x, d) =~~= seq![x]);
    }
}

/// Splitting `x + d + y` on the one-character delimiter `d`, with `x`
/// free of it, peels off `x` as the first segment.
proof fn lemma_split_concat(x: Seq<char>, y: Seq<char>, d: Seq<char>)
    requires
        d.len() == 1,
        delim_free(x, d[0]),
    ensures
        split_text(x + d + y, d) == seq![x] + split_text(y, d),
    decreases x.len(),
{
    let s = x + d + y;
    if x.len() == 0 {
        assert(s.len() >= 1);
        assert(s.subrange(0, 1) =~= d);
        assert(s.skip(1) =~= y);
        assert(split_text(s, d) == seq![Seq::<char>::empty()] + split_text(y, d));
        assert(seq![Seq::<char>::empty()] + split_text(y, d) =~~= seq![x] + split_text(y, d));
    } else {
        assert(s.len() >= 2);
        assert(s[0] == x[0]);
        assert(s.subrange(0, 1) =~= seq![s[0]]);
        assert(d =~= seq![d[0]]);
        assert(x[0] != d[0]);
        assert(s.subrange(0, 1) != d);
        assert(s.drop_first() =~= x.drop_first() + d + y);
        assert(delim_free(x.drop_first(), d[0]));
        lemma_split_concat(x.drop_first(), y, d);
        let rest = split_text(s.drop_first(), d);
        lemma_split_text_len(y, d);
        assert(rest == seq![x.drop_first()] + split_text(y, d));
        assert(rest[0] == x.drop_first());
        assert(rest.drop_first() =~= split_text(y, d));
        assert(split_text(s, d) == seq![seq![s[0]] + rest[0]] + rest.drop_first());
        assert(seq![s[0]] + x.drop_first() =~= x);
        assert(split_text(s, d) =~~= seq![x] + split_text(y, d));
    }
}

/// Splitting a join on a one-character delimiter that occurs in no
/// segment gives the segments back.
proof fn lemma_split_join_inverse(blocks: Seq<Seq<char>>, d: Seq<char>)
    requires
        d.len() == 1,
        blocks.len() >= 1,
        forall|i: int| 0 <= i < blocks.len() ==> delim_free(#[trigger] blocks[i], d[0]),
    ensures
        split_text(join_text(blocks, d), d) == blocks,
    decreases blocks.len(),
{
    if blocks.len() == 1 {
        assert(join_text(blocks, d) == blocks[0]);
        lemma_split_of_free(blocks[0], d);
        assert(seq![blocks[0]] =~~= blocks);
    } else {
        let tail = blocks.drop_first();
        assert(join_text(blocks, d) == blocks[0] + d + join_text(tail, d));
        lemma_split_concat(blocks[0], join_text(tail, d), d);
        assert forall|i: int| 0 <= i < tail.len() implies delim_free(#[trigger] tail[i], d[0]) by {
            assert(tail[i] == blocks[i + 1]);
        }
        lemma_split_join_inverse(tail, d);
        assert(seq![blocks[0]] + tail =~~= blocks);
    }
}

/// The widest width of a block whose segments all have width `m` is `m`.
proof fn lemma_max_const(ss: Seq<Seq<char>>, m: nat)
    requires
        ss.len() >= 1,
        forall|i: int| 0 <= i < ss.len() ==> text_width(#[trigger] ss[i]) == m,
    ensures
        max_text_width(ss) == m,
    decreases ss.len(),
{
    assert(text_width(ss[0]) == m);
    if ss.len() == 1 {
        assert(ss.drop_first() =~= Seq::<Seq<char>>::empty());
        assert(max_text_width(ss.drop_first()) == 0);
    } else {
        assert forall|i: int| 0 <= i < ss.drop_first().len() implies text_width(
            #[trigger] ss.drop_first()[i],
        ) == m by {
            assert(ss.drop_first()[i] == ss[i + 1]);
        }
        lemma_max_const(ss.drop_first(), m);
    }
}

/// Right alignment is idempotent: re-running it with the same
/// one-character delimiter and the same printable pad character, one that
/// is not the delimiter itself, changes nothing, because after the first
/// run every segment already has the widest width.
pub proof fn lemma_right_align_idempotent(s: Seq<char>, d: Seq<char>, p: char)
    requires
        d.len() == 1,
        is_plain_char(p),
        p != d[0],
    ensures
        align_text(align_text(s, Alignment::Right, d, p), Alignment::Right, d, p) == align_text(
            s,
            Alignment::Right,
            d,
            p,
        ),
{
    if s.len() == 0 {
    } else {
        let segs = split_text(s, d);
        lemma_split_text_len(s, d);
        let m = max_text_width(segs);
        let alg = align_segments(segs, Alignment::Right, m, p);
        let t = join_text(alg, d);
        assert(align_text(s, Alignment::Right, d, p) == t);
        assert forall|i: int| 0 <= i < alg.len() implies text_width(#[trigger] alg[i]) == m
            && delim_free(alg[i], d[0]) by {
            lemma_max_is_bound(segs, i);
            let w = text_width(segs[i]);
            assert(alg[i] == aligned_segment(segs[i], Alignment::Right, m, p));
            let k = pad_count(Alignment::Right, m, w);
            assert(k == (m - w) as nat);
            lemma_pad_width(p, k, segs[i]);
            lemma_split_free(s, d);
            assert(delim_free(segs[i], d[0]));
            assert forall|j: int| 0 <= j < alg[i].len() implies #[trigger] alg[i][j] != d[0] by {
                if j < k {
                    assert(alg[i][j] == p);
                } else {
                    assert(alg[i][j] == segs[i][j - k]);
                }
            }
        }
        if t.len() == 0 {
        } else {
            lemma_split_join_inverse(alg, d);
            assert(split_text(t, d) == alg);
            lemma_max_const(alg, m);
            let alg2 = align_segments(alg, Alignment::Right, m, p);
            assert forall|i: int| 0 <= i < alg.len() implies alg2[i] == alg[i] by {
                assert(alg2[i] == aligned_segment(alg[i], Alignment::Right, m, p));
                assert(pad_count(Alignment::Right, m, text_width(alg[i])) == 0);
                assert(pad_run(p, 0) + alg[i] =~= alg[i]);
            }
            assert(alg2 =~~= alg);
            assert(align_text(t, Alignment::Right, d, p) == join_text(alg2, d));
            assert(align_text(t, Alignment::Right, d, p) == t);
        }
    }
}

} // verus!
