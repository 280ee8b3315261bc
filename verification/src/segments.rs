//! Splitting a text on a delimiter and joining the pieces back.
//!
//! Splitting follows the leftmost, non-overlapping occurrences of the
//! delimiter, the way `str::split` does: the segment order and count
//! follow exactly from the split, including empty segments at boundaries.
//! An empty delimiter yields an empty segment, every character on its
//! own, and an empty segment again.

use vstd::prelude::*;

verus! {

/// The segments of `s` split on an empty delimiter: an empty segment,
/// then each character alone, then an empty segment.
pub open spec fn split_empty_delim(s: Seq<char>) -> Seq<Seq<char>> {
    seq![Seq::<char>::empty()] + Seq::new(s.len(), |i: int| seq![s[i]]) + seq![
        Seq::<char>::empty(),
    ]
}

/// The segments of `s` split on the delimiter `d`: split points are the
/// leftmost, non-overlapping occurrences of `d`.
pub open spec fn split_text(s: Seq<char>, d: Seq<char>) -> Seq<Seq<char>>
    decreases s.len(),
{
    if d.len() == 0 {
        split_empty_delim(s)
    } else if s.len() == 0 {
        seq![Seq::<char>::empty()]
    } else if d.len() <= s.len() && s.subrange(0, d.len() as int) == d {
        seq![Seq::<char>::empty()] + split_text(s.skip(d.len() as int), d)
    } else {
        let rest = split_text(s.drop_first(), d);
        seq![seq![s[0]] + rest[0]] + rest.drop_first()
    }
}

/// The segments rejoined with the delimiter `d` between them.
pub open spec fn join_text(ss: Seq<Seq<char>>, d: Seq<char>) -> Seq<char>
    decreases ss.len(),
{
    if ss.len() == 0 {
        Seq::<char>::empty()
    } else if ss.len() == 1 {
        ss[0]
    } else {
        ss[0] + d + join_text(ss.drop_first(), d)
    }
}

/// A split always yields at least one segment.
pub proof fn lemma_split_text_len(s: Seq<char>, d: Seq<char>)
    ensures
        split_text(s, d).len() >= 1,
    decreases s.len(),
{
    if d.len() == 0 {
    } else if s.len() == 0 {
    } else if d.len() <= s.len() && s.subrange(0, d.len() as int) == d {
        lemma_split_text_len(s.skip(d.len() as int), d);
    } else {
        lemma_split_text_len(s.drop_first(), d);
    }
}

/// Joining the segments of a split restores the text.
pub proof fn lemma_join_split(s: Seq<char>, d: Seq<char>)
    requires
        d.len() > 0,
    ensures
        join_text(split_text(s, d), d) == s,
    decreases s.len(),
{
    if s.len() == 0 {
        assert(join_text(split_text(s, d), d) =~= s);
    } else if d.len() <= s.len() && s.subrange(0, d.len() as int) == d {
        let tail = s.skip(d.len() as int);
        lemma_join_split(tail, d);
        lemma_split_text_len(tail, d);
        let parts = seq![Seq::<char>::empty()] + split_text(tail, d);
        assert(parts.len() >= 2);
        assert(parts[0] =~= Seq::<char>::empty());
        assert(parts.drop_first() =~= split_text(tail, d));
        assert(join_text(parts, d) == parts[0] + d + join_text(split_text(tail, d), d));
        assert(join_text(parts, d) =~= s);
    } else {
        let rest = split_text(s.drop_first(), d);
        lemma_join_split(s.drop_first(), d);
        lemma_split_text_len(s.drop_first(), d);
        let parts = seq![seq![s[0]] + rest[0]] + rest.drop_first();
        if rest.len() == 1 {
            assert(parts.len() == 1);
            assert(join_text(parts, d) == seq![s[0]] + rest[0]);
            assert(join_text(rest, d) == rest[0]);
            assert(seq![s[0]] + rest[0] =~= s);
        } else {
            assert(parts.len() >= 2);
            assert(parts[0] == seq![s[0]] + rest[0]);
            assert(parts.drop_first() =~= rest.drop_first());
            assert(join_text(parts, d) == parts[0] + d + join_text(rest.drop_first(), d));
            assert(join_text(rest, d) == rest[0] + d + join_text(rest.drop_first(), d));
            assert(parts[0] + d + join_text(rest.drop_first(), d) =~= seq![s[0]] + (rest[0] + d
                + join_text(rest.drop_first(), d)));
            assert(seq![s[0]] + join_text(rest, d) =~= s);
        }
    }
}

/// Appending one more segment to a join appends a delimiter and the
/// segment, unless the join was empty so far.
pub proof fn lemma_join_push(ss: Seq<Seq<char>>, x: Seq<char>, d: Seq<char>)
    ensures
        ss.len() == 0 ==> join_text(ss.push(x), d) == x,
        ss.len() >= 1 ==> join_text(ss.push(x), d) == join_text(ss, d) + d + x,
    decreases ss.len(),
{
    if ss.len() == 0 {
        assert(ss.push(x).len() == 1);
        assert(ss.push(x)[0] == x);
    } else if ss.len() == 1 {
        assert(ss.push(x).len() == 2);
        assert(ss.push(x)[0] == ss[0]);
        assert(ss.push(x).drop_first() =~= seq![x]);
        assert(join_text(seq![x], d) == x);
    } else {
        assert(ss.push(x).drop_first() =~= ss.drop_first().push(x));
        lemma_join_push(ss.drop_first(), x, d);
        assert(ss.push(x)[0] == ss[0]);
        assert(join_text(ss.push(x), d) == ss[0] + d + join_text(ss.drop_first().push(x), d));
        assert(ss[0] + d + (join_text(ss.drop_first(), d) + d + x) =~= (ss[0] + d + join_text(
            ss.drop_first(),
            d,
        )) + d + x);
    }
}

/// Whether the delimiter occurs in `s` at position `i`.
fn delim_at(s: &Vec<char>, d: &Vec<char>, i: usize) -> (r: bool)
    requires
        i + d@.len() <= s@.len(),
    ensures
        r == (s@.subrange(i as int, i as int + d@.len() as int) == d@),
{
    let n: usize = s.len();
    let m: usize = d.len();
    let mut k: usize = 0;
    while k < m
        invariant
            n == s@.len(),
            m == d@.len(),
            i + m <= n,
            k <= m,
            forall|j: int| 0 <= j < k ==> s@[i + j] == d@[j],
        decreases m - k,
    {
        if s[i + k] != d[k] {
            proof {
                assert(s@.subrange(i as int, i as int + m as int)[k as int] == s@[i + k]);
            }
            return false;
        }
        k = k + 1;
    }
    proof {
        assert(s@.subrange(i as int, i as int + m as int) =~= d@);
    }
    true
}

/// The views of a vector of segments.
pub open spec fn seg_views(vs: Seq<Vec<char>>) -> Seq<Seq<char>> {
    vs.map_values(|v: Vec<char>| v@)
}

/// `split_text` with the first segment extended at the front by `p`.
spec fn prepend_first(p: Seq<char>, ss: Seq<Seq<char>>) -> Seq<Seq<char>> {
    seq![p + ss[0]] + ss.drop_first()
}

/// Split `s` on the delimiter `d`, the way `str::split` does.
pub fn split_chars(s: &Vec<char>, d: &Vec<char>) -> (segs: Vec<Vec<char>>)
    ensures
        seg_views(segs@) == split_text(s@, d@),
{
    let n: usize = s.len();
    let m: usize = d.len();
    let mut segs: Vec<Vec<char>> = Vec::new();
    if m == 0 {
        segs.push(Vec::new());
        let mut i: usize = 0;
        while i < n
            invariant
                n == s@.len(),
                i <= n,
                segs@.len() == i + 1,
                seg_views(segs@)[0] =~= Seq::<char>::empty(),
                forall|j: int| 1 <= j <= i ==> seg_views(segs@)[j] =~= seq![s@[j - 1]],
            decreases n - i,
        {
            let mut one: Vec<char> = Vec::new();
            one.push(s[i]);
            proof {
                assert(one@ =~= seq![s@[i as int]]);
                assert(seg_views(segs@.push(one)) =~~= seg_views(segs@) + seq![one@]);
            }
            segs.push(one);
            i = i + 1;
        }
        let last: Vec<char> = Vec::new();
        proof {
            assert(last@ =~= Seq::<char>::empty());
            assert(seg_views(segs@.push(last)) =~~= seg_views(segs@) + seq![last@]);
        }
        segs.push(last);
        proof {
            assert(seg_views(segs@).len() == n + 2);
            assert(split_empty_delim(s@).len() == n + 2);
            assert forall|j: int| 0 <= j < n + 2 implies seg_views(segs@)[j] =~= split_empty_delim(
                s@,
            )[j] by {
                if j == 0 {
                } else if j <= n {
                    assert(split_empty_delim(s@)[j] =~= seq![s@[j - 1]]);
                } else {
                    assert(split_empty_delim(s@)[j] =~= Seq::<char>::empty());
                }
            }
            assert(seg_views(segs@) =~~= split_empty_delim(s@));
        }
    } else {
        let mut cur: Vec<char> = Vec::new();
        let mut i: usize = 0;
        proof {
            assert(s@.skip(0) =~= s@);
            lemma_split_text_len(s@, d@);
            assert(prepend_first(Seq::<char>::empty(), split_text(s@, d@)) =~~= split_text(
                s@,
                d@,
            ));
        }
        while i < n
            invariant
                n == s@.len(),
                m == d@.len(),
                m >= 1,
                i <= n,
                split_text(s@, d@) =~~= seg_views(segs@) + prepend_first(
                    cur@,
                    split_text(s@.skip(i as int), d@),
                ),
            decreases n - i,
        {
            let ghost tail = s@.skip(i as int);
            proof {
                lemma_split_text_len(tail, d@);
            }
            if m <= n - i && delim_at(s, d, i) {
                proof {
                    assert(tail.len() == n - i);
                    assert(tail.subrange(0, m as int) =~= s@.subrange(
                        i as int,
                        i as int + m as int,
                    ));
                    assert(split_text(tail, d@) == seq![Seq::<char>::empty()] + split_text(
                        tail.skip(m as int),
                        d@,
                    ));
                    lemma_split_text_len(tail.skip(m as int), d@);
                    assert(tail.skip(m as int) =~= s@.skip(i as int + m as int));
                    assert(prepend_first(cur@, split_text(tail, d@)) =~~= seq![cur@] + split_text(
                        s@.skip(i as int + m as int),
                        d@,
                    ));
                    assert(seg_views(segs@.push(cur)) =~~= seg_views(segs@) + seq![cur@]);
                }
                segs.push(cur);
                cur = Vec::new();
                i = i + m;
                proof {
                    lemma_split_text_len(s@.skip(i as int), d@);
                    assert(prepend_first(Seq::<char>::empty(), split_text(s@.skip(i as int), d@))
                        =~~= split_text(s@.skip(i as int), d@));
                }
            } else {
                proof {
                    assert(tail.len() > 0);
                    if m <= tail.len() {
                        assert(tail.subrange(0, m as int) =~= s@.subrange(
                            i as int,
                            i as int + m as int,
                        ));
                        assert(tail.subrange(0, m as int) != d@);
                    }
                    let rest = split_text(tail.drop_first(), d@);
                    lemma_split_text_len(tail.drop_first(), d@);
                    assert(split_text(tail, d@) == seq![seq![tail[0]] + rest[0]]
                        + rest.drop_first());
                    assert(tail.drop_first() =~= s@.skip(i as int + 1));
                    assert(tail[0] == s@[i as int]);
                    assert(prepend_first(cur@, split_text(tail, d@)) =~~= prepend_first(
                        cur@.push(s@[i as int]),
                        rest,
                    ));
                }
                let c: char = s[i];
                cur.push(c);
                i = i + 1;
            }
        }
        proof {
            assert(s@.skip(n as int) =~= Seq::<char>::empty());
            assert(split_text(s@.skip(n as int), d@) =~= seq![Seq::<char>::empty()]);
            assert(prepend_first(cur@, seq![Seq::<char>::empty()]) =~~= seq![cur@]);
        }
        proof {
            assert(seg_views(segs@.push(cur)) =~~= seg_views(segs@) + seq![cur@]);
        }
        segs.push(cur);
    }
    proof {
        assert(seg_views(segs@) =~~= split_text(s@, d@));
    }
    segs
}

} // verus!
