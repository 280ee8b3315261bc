//! Display-width measurement: escape stripping and per-character columns.
//!
//! The width of a text is the sum of the column counts of the characters
//! that remain after ANSI escape sequences are stripped.  Control
//! characters occupy no columns; East-Asian wide characters occupy two.

use vstd::prelude::*;
use vstd::string::StrSliceExecFns;

use crate::segments::{seg_views, split_chars, split_text};

verus! {

/// A printable ASCII character (U+0020 through U+007E).  Such a character
/// passes the escape stripper verbatim and occupies exactly one column.
pub open spec fn is_plain_char(c: char) -> bool {
    0x20 <= c as u32 && c as u32 <= 0x7E
}

/// A control character: the Unicode `Cc` category, that is U+0000 through
/// U+001F and U+007F through U+009F.  Control characters occupy no columns.
pub open spec fn is_control_char(c: char) -> bool {
    c as u32 <= 0x1F || (0x7F <= c as u32 && c as u32 <= 0x9F)
}

/// A parameter character of a simple CSI control sequence: a decimal
/// digit or a semicolon.
pub open spec fn is_csi_param_char(c: char) -> bool {
    ('0' <= c && c <= '9') || c == ';'
}

/// A final character of a CSI control sequence (U+0040 through U+007E).
pub open spec fn is_csi_final_char(c: char) -> bool {
    0x40 <= c as u32 && c as u32 <= 0x7E
}

/// What remains of `s` after the body of a simple CSI control sequence —
/// parameter characters, then one final character — at its front, or
/// `None` where no such body starts `s`.
pub open spec fn csi_rest(s: Seq<char>) -> Option<Seq<char>>
    decreases s.len(),
{
    if s.len() == 0 {
        None
    } else if is_csi_final_char(s[0]) {
        Some(s.drop_first())
    } else if is_csi_param_char(s[0]) {
        csi_rest(s.drop_first())
    } else {
        None
    }
}

/// What a CSI body leaves behind is shorter than the body itself.
pub proof fn lemma_csi_rest_len(s: Seq<char>)
    ensures
        csi_rest(s) matches Some(r) ==> r.len() < s.len(),
    decreases s.len(),
{
    if s.len() > 0 && !is_csi_final_char(s[0]) && is_csi_param_char(s[0]) {
        lemma_csi_rest_len(s.drop_first());
    }
}

/// What remains of `s` after a simple CSI escape sequence — the escape
/// character, `[`, parameter characters, one final character — at its
/// front, or `None` where `s` does not start with one.
pub open spec fn csi_strip(s: Seq<char>) -> Option<Seq<char>> {
    if s.len() >= 2 && s[0] == '\u{1B}' && s[1] == '[' {
        csi_rest(s.skip(2))
    } else {
        None
    }
}

/// What the escape stripper makes of a text that starts neither with a
/// printable ASCII character nor with a simple CSI escape sequence.  Left
/// without a definition: it stands for the result of
/// `strip_ansi_escapes::strip` on that text.
pub uninterp spec fn strip_rest(s: Seq<char>) -> Seq<char>;

/// The escape stripper leaves nothing determined about `s`: the text is
/// not empty and starts neither with a printable ASCII character nor with
/// a simple CSI escape sequence.
pub open spec fn strip_opaque_at(s: Seq<char>) -> bool {
    s.len() > 0 && !is_plain_char(s[0]) && csi_strip(s) is None
}

/// The escape stripper's result on a text: printable ASCII characters at
/// the front pass through verbatim, a simple CSI escape sequence at the
/// front is removed entirely, and from the first character that is
/// neither, the result is whatever the stripper makes of that remainder
/// (`strip_rest`).
pub open spec fn stripped(s: Seq<char>) -> Seq<char>
    decreases s.len(),
    via stripped_decreases
{
    if s.len() == 0 {
        Seq::<char>::empty()
    } else if is_plain_char(s[0]) {
        seq![s[0]] + stripped(s.drop_first())
    } else {
        match csi_strip(s) {
            Some(r) => stripped(r),
            None => strip_rest(s),
        }
    }
}

#[via_fn]
proof fn stripped_decreases(s: Seq<char>) {
    if s.len() > 0 && !is_plain_char(s[0]) {
        lemma_csi_rest_len(s.skip(2));
    }
}

/// The column count that the Unicode width tables give a character, or
/// `None` for a control character.  Left without a definition: it stands
/// for the result of `unicode_width::UnicodeWidthChar::width`.
pub uninterp spec fn uwidth(c: char) -> Option<usize>;

/// The columns a single character occupies: printable ASCII is one column,
/// a control character is none, and anything else is what the width tables
/// say, with characters the tables do not know defaulting to none.
pub open spec fn char_columns(c: char) -> nat {
    if is_plain_char(c) {
        1
    } else if is_control_char(c) {
        0
    } else {
        match uwidth(c) {
            Some(w) => w as nat,
            None => 0,
        }
    }
}

/// The columns a sequence of characters occupies: the sum of the
/// per-character counts.
pub open spec fn chars_width(s: Seq<char>) -> nat
    decreases s.len(),
{
    if s.len() == 0 {
        0
    } else {
        char_columns(s[0]) + chars_width(s.drop_first())
    }
}

/// The display width of a text: the column count of what remains after
/// escape stripping.
pub open spec fn text_width(s: Seq<char>) -> nat {
    chars_width(stripped(s))
}

/// Relies on `strip_ansi_escapes::strip`.  Its parser starts in its
/// ground state, where a printable ASCII byte is emitted verbatim and
/// leaves the state unchanged, so such characters at the front of the
/// input pass through.  A simple CSI escape sequence at the front — the
/// escape character, `[`, digit and semicolon parameter bytes, one final
/// byte in the range U+0040 through U+007E — walks the parser through its
/// escape and CSI states back to the ground state and emits nothing.
/// What the stripper makes of the input from any other leading character
/// on is named by `strip_rest`.  Bytes that are not valid UTF-8 after
/// stripping degrade to the empty text, per `core::str::from_utf8`.  The
/// length bound holds because a `Vec` never allocates more than
/// `isize::MAX` bytes and a `char` takes four.
#[verifier::external_body]
fn strip_to_chars(s: &str) -> (r: Vec<char>)
    ensures
        r@ == stripped(s@),
        strip_opaque_at(s@) ==> r@ == strip_rest(s@),
        4 * r@.len() <= usize::MAX,
{
    let bytes = strip_ansi_escapes::strip(s);
    match core::str::from_utf8(&bytes) {
        Ok(t) => t.chars().collect(),
        Err(_) => Vec::new(),
    }
}

/// Relies on `unicode_width::UnicodeWidthChar::width`: the character's
/// displayed width in columns, `None` for a control character.  Its tables
/// give printable ASCII one column, and give no character more than three.
#[verifier::external_body]
fn unicode_columns(c: char) -> (r: Option<usize>)
    ensures
        r == uwidth(c),
        is_plain_char(c) ==> r == Some(1usize),
        r matches Some(w) ==> w <= 3,
{
    unicode_width::UnicodeWidthChar::width(c)
}

/// Whether `c` is in the Unicode control category.
fn check_control(c: char) -> (r: bool)
    ensures
        r == is_control_char(c),
{
    let u: u32 = c as u32;
    u <= 0x1F || (0x7F <= u && u <= 0x9F)
}

/// The columns a single character occupies on screen.
fn char_display_columns(c: char) -> (w: usize)
    ensures
        w == char_columns(c),
        w <= 3,
{
    if check_control(c) {
        0
    } else {
        match unicode_columns(c) {
            Some(w) => w,
            None => 0,
        }
    }
}

/// Column counts add up across concatenation of character sequences.
pub proof fn lemma_chars_width_concat(a: Seq<char>, b: Seq<char>)
    ensures
        chars_width(a + b) == chars_width(a) + chars_width(b),
    decreases a.len(),
{
    if a.len() == 0 {
        assert(a + b =~= b);
    } else {
        assert((a + b).len() > 0);
        assert((a + b)[0] == a[0]);
        assert((a + b).drop_first() =~= a.drop_first() + b);
        lemma_chars_width_concat(a.drop_first(), b);
        assert(chars_width(a + b) == char_columns(a[0]) + chars_width(a.drop_first() + b));
    }
}

proof fn lemma_chars_width_push(s: Seq<char>, c: char)
    ensures
        chars_width(s.push(c)) == chars_width(s) + char_columns(c),
{
    assert(s.push(c) =~= s + seq![c]);
    lemma_chars_width_concat(s, seq![c]);
    assert(seq![c].drop_first() =~= Seq::<char>::empty());
    assert(chars_width(seq![c]) == char_columns(c) + chars_width(Seq::<char>::empty()));
}

/// The column count of a sequence of characters, summed one by one.
fn measure_chars(v: &Vec<char>) -> (w: usize)
    requires
        4 * v@.len() <= usize::MAX,
    ensures
        w == chars_width(v@),
{
    let n: usize = v.len();
    let mut total: usize = 0;
    let mut i: usize = 0;
    while i < n
        invariant
            n == v@.len(),
            4 * v@.len() <= usize::MAX,
            i <= n,
            total == chars_width(v@.take(i as int)),
            total <= 3 * i,
        decreases n - i,
    {
        let w: usize = char_display_columns(v[i]);
        proof {
            lemma_chars_width_push(v@.take(i as int), v@[i as int]);
            assert(v@.take(i as int + 1) =~= v@.take(i as int).push(v@[i as int]));
        }
        total = total + w;
        i = i + 1;
    }
    proof {
        assert(v@.take(n as int) =~= v@);
    }
    total
}

/// The display width of a text: ANSI escape sequences are stripped first
/// and occupy no columns; control characters count zero columns, East-Asian
/// wide characters two, everything else one or what the Unicode width
/// tables say.
pub fn string_width(s: &str) -> (w: usize)
    ensures
        w == text_width(s@),
{
    let cleaned: Vec<char> = strip_to_chars(s);
    measure_chars(&cleaned)
}

/// The characters of a text, one by one.
pub fn chars_of(s: &str) -> (v: Vec<char>)
    ensures
        v@ == s@,
{
    let n: usize = s.unicode_len();
    let mut v: Vec<char> = Vec::new();
    let mut i: usize = 0;
    proof {
        assert(v@ =~= s@.take(0));
    }
    while i < n
        invariant
            n == s@.len(),
            i <= n,
            v@ == s@.take(i as int),
        decreases n - i,
    {
        let c: char = s.get_char(i);
        v.push(c);
        proof {
            assert(s@.take(i as int).push(s@[i as int]) =~= s@.take(i as int + 1));
        }
        i = i + 1;
    }
    proof {
        assert(s@.take(n as int) =~= s@);
    }
    v
}

/// The display width of a sequence of characters.
fn width_of_chars(v: &Vec<char>) -> (w: usize)
    ensures
        w == text_width(v@),
{
    let mut s: String = String::new();
    crate::align::push_chars(&mut s, v);
    proof {
        assert(Seq::<char>::empty() + v@ =~= v@);
    }
    string_width(s.as_str())
}

/// The display width of each segment.
pub fn measure_segments(segs: &Vec<Vec<char>>) -> (ws: Vec<usize>)
    ensures
        ws@.len() == segs@.len(),
        forall|i: int| 0 <= i < segs@.len() ==> ws@[i] == text_width(segs@[i]@),
{
    let n: usize = segs.len();
    let mut ws: Vec<usize> = Vec::new();
    let mut i: usize = 0;
    while i < n
        invariant
            n == segs@.len(),
            i <= n,
            ws@.len() == i,
            forall|j: int| 0 <= j < i ==> ws@[j] == text_width(segs@[j]@),
        decreases n - i,
    {
        let w: usize = width_of_chars(&segs[i]);
        ws.push(w);
        i = i + 1;
    }
    ws
}

/// The widest display width among the segments, zero if there are none.
pub open spec fn max_text_width(ss: Seq<Seq<char>>) -> nat
    decreases ss.len(),
{
    if ss.len() == 0 {
        0
    } else {
        let rest = max_text_width(ss.drop_first());
        if text_width(ss[0]) >= rest {
            text_width(ss[0])
        } else {
            rest
        }
    }
}

/// How the widest width grows when one more segment is appended.
pub proof fn lemma_max_push(ss: Seq<Seq<char>>, x: Seq<char>)
    ensures
        max_text_width(ss.push(x)) == if text_width(x) >= max_text_width(ss) {
            text_width(x)
        } else {
            max_text_width(ss)
        },
    decreases ss.len(),
{
    if ss.len() == 0 {
        assert(ss.push(x)[0] == x);
        assert(ss.push(x).drop_first() =~= Seq::<Seq<char>>::empty());
        assert(max_text_width(ss.push(x).drop_first()) == 0);
        assert(max_text_width(ss.push(x)) == text_width(x));
    } else {
        assert(ss.push(x)[0] == ss[0]);
        assert(ss.push(x).drop_first() =~= ss.drop_first().push(x));
        lemma_max_push(ss.drop_first(), x);
        assert(max_text_width(ss.push(x)) == if text_width(ss[0]) >= max_text_width(
            ss.drop_first().push(x),
        ) {
            text_width(ss[0])
        } else {
            max_text_width(ss.drop_first().push(x))
        });
        assert(max_text_width(ss) == if text_width(ss[0]) >= max_text_width(ss.drop_first()) {
            text_width(ss[0])
        } else {
            max_text_width(ss.drop_first())
        });
    }
}

/// No segment is wider than the widest.
pub proof fn lemma_max_is_bound(ss: Seq<Seq<char>>, i: int)
    requires
        0 <= i < ss.len(),
    ensures
        text_width(ss[i]) <= max_text_width(ss),
    decreases ss.len(),
{
    if i > 0 {
        lemma_max_is_bound(ss.drop_first(), i - 1);
    }
}

/// The widest display width among the segments, given their widths.
pub fn max_of_widths(segs: &Vec<Vec<char>>, ws: &Vec<usize>) -> (mw: usize)
    requires
        ws@.len() == segs@.len(),
        forall|i: int| 0 <= i < segs@.len() ==> ws@[i] == text_width(segs@[i]@),
    ensures
        mw == max_text_width(seg_views(segs@)),
        forall|i: int| 0 <= i < ws@.len() ==> ws@[i] <= mw,
{
    let n: usize = ws.len();
    let mut mw: usize = 0;
    let mut i: usize = 0;
    proof {
        assert(seg_views(segs@).take(0) =~= Seq::<Seq<char>>::empty());
    }
    while i < n
        invariant
            n == ws@.len(),
            ws@.len() == segs@.len(),
            forall|j: int| 0 <= j < segs@.len() ==> ws@[j] == text_width(segs@[j]@),
            i <= n,
            mw == max_text_width(seg_views(segs@).take(i as int)),
            forall|j: int| 0 <= j < i ==> ws@[j] <= mw,
        decreases n - i,
    {
        proof {
            assert(seg_views(segs@)[i as int] == segs@[i as int]@);
            lemma_max_push(seg_views(segs@).take(i as int), segs@[i as int]@);
            assert(seg_views(segs@).take(i as int).push(seg_views(segs@)[i as int])
                =~= seg_views(segs@).take(i as int + 1));
        }
        let w: usize = ws[i];
        if w > mw {
            mw = w;
        }
        i = i + 1;
    }
    proof {
        assert(seg_views(segs@).take(n as int) =~= seg_views(segs@));
    }
    mw
}

/// The display width of the widest line: the text is split on line breaks
/// and the widest line's display width is returned, zero for an empty
/// text.
pub fn widest_line(text: &str) -> (w: usize)
    ensures
        w == max_text_width(split_text(text@, seq!['\n'])),
{
    let tv: Vec<char> = chars_of(text);
    let mut dv: Vec<char> = Vec::new();
    dv.push('\n');
    proof {
        assert(dv@ =~= seq!['\n']);
    }
    let segs: Vec<Vec<char>> = split_chars(&tv, &dv);
    let ws: Vec<usize> = measure_segments(&segs);
    max_of_widths(&segs, &ws)
}

} // verus!
