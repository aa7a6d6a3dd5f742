//! The mask matcher: a simplified wildcard language where `*` stands for any
//! run of characters (including none) and `?` for exactly one character.
//!
//! `mask_matches` is the mathematical definition; `match_mask` is the
//! linear-amortized two-pointer backtracking matcher (not a general regex
//! engine), proved equivalent to the definition.

use vstd::prelude::*;
use crate::text::chars_of;

verus! {

/// One mask character accepts one text character.
pub open spec fn fits(mc: char, c: char) -> bool {
    mc == '?' || mc == c
}

/// The mask language: `*` matches any run of characters, `?` exactly one,
/// anything else itself.
pub open spec fn mask_matches(s: Seq<char>, m: Seq<char>) -> bool
    decreases s.len() + m.len(),
{
    if m.len() == 0 {
        s.len() == 0
    } else if m[0] == '*' {
        mask_matches(s, m.skip(1)) || (s.len() > 0 && mask_matches(s.skip(1), m))
    } else {
        s.len() > 0 && fits(m[0], s[0]) && mask_matches(s.skip(1), m.skip(1))
    }
}

/// A leading `*` matches exactly the runs that leave some suffix of the text
/// to the rest of the mask.
proof fn lemma_star_expand(s: Seq<char>, m: Seq<char>)
    requires
        m.len() > 0,
        m[0] == '*',
    ensures
        mask_matches(s, m) <==> exists|t: int|
            0 <= t <= s.len() && #[trigger] mask_matches(s.skip(t), m.skip(1)),
    decreases s.len(),
{
    if s.len() > 0 {
        lemma_star_expand(s.skip(1), m);
    }
    if mask_matches(s, m) {
        if mask_matches(s, m.skip(1)) {
            assert(s.skip(0) =~= s);
            assert(mask_matches(s.skip(0), m.skip(1)));
        } else {
            let t1 = choose|t: int|
                0 <= t <= s.skip(1).len() && #[trigger] mask_matches(s.skip(1).skip(t), m.skip(1));
            assert(s.skip(1).skip(t1) =~= s.skip(1 + t1));
            assert(mask_matches(s.skip(1 + t1), m.skip(1)));
        }
    }
    if exists|t: int| 0 <= t <= s.len() && #[trigger] mask_matches(s.skip(t), m.skip(1)) {
        let t = choose|t: int| 0 <= t <= s.len() && #[trigger] mask_matches(s.skip(t), m.skip(1));
        if t == 0 {
            assert(s.skip(0) =~= s);
            assert(mask_matches(s, m.skip(1)));
        } else {
            assert(s.skip(1).skip(t - 1) =~= s.skip(t));
            assert(mask_matches(s.skip(1).skip(t - 1), m.skip(1)));
            assert(mask_matches(s.skip(1), m));
        }
    }
}

/// A star-free mask prefix is forced: it must match the text character by
/// character.
proof fn lemma_segment(s: Seq<char>, m: Seq<char>, k: int)
    requires
        0 <= k <= m.len(),
        forall|j: int| 0 <= j < k ==> m[j] != '*',
    ensures
        mask_matches(s, m) <==> (s.len() >= k && (forall|i: int|
            0 <= i < k ==> fits(#[trigger] m[i], s[i])) && mask_matches(s.skip(k), m.skip(k))),
    decreases k,
{
    if k == 0 {
        assert(s.skip(0) =~= s);
        assert(m.skip(0) =~= m);
    } else if s.len() == 0 {
        // a nonempty forced prefix cannot match an empty text
        assert(!mask_matches(s, m));
    } else {
        lemma_segment(s.skip(1), m.skip(1), k - 1);
        if mask_matches(s, m) {
            assert(s.skip(1).skip(k - 1) =~= s.skip(k));
            assert(m.skip(1).skip(k - 1) =~= m.skip(k));
            assert forall|i: int| 0 <= i < k implies fits(#[trigger] m[i], s[i]) by {
                if i > 0 {
                    assert(fits(m.skip(1)[i - 1], s.skip(1)[i - 1]));
                }
            }
        } else {
            if s.len() >= k && (forall|i: int| 0 <= i < k ==> fits(#[trigger] m[i], s[i]))
                && mask_matches(s.skip(k), m.skip(k)) {
                assert(s.skip(1).skip(k - 1) =~= s.skip(k));
                assert(m.skip(1).skip(k - 1) =~= m.skip(k));
                assert forall|i: int| 0 <= i < k - 1
                    implies fits(#[trigger] m.skip(1)[i], s.skip(1)[i]) by {
                    assert(fits(m[i + 1], s[i + 1]));
                }
                assert(mask_matches(s.skip(1), m.skip(1)));
                assert(fits(m[0], s[0]));
                assert(mask_matches(s, m));
            }
        }
    }
}

/// An empty text matches exactly the masks made of stars alone.
proof fn lemma_empty_matches(s: Seq<char>, m: Seq<char>)
    requires
        s.len() == 0,
    ensures
        mask_matches(s, m) <==> (forall|j: int| 0 <= j < m.len() ==> #[trigger] m[j] == '*'),
    decreases m.len(),
{
    if m.len() > 0 {
        if m[0] == '*' {
            lemma_empty_matches(s, m.skip(1));
            if mask_matches(s, m) {
                assert forall|j: int| 0 <= j < m.len() implies #[trigger] m[j] == '*' by {
                    if j > 0 {
                        assert(m.skip(1)[j - 1] == '*');
                    }
                }
            } else {
                if forall|j: int| 0 <= j < m.len() ==> #[trigger] m[j] == '*' {
                    assert forall|j: int| 0 <= j < m.skip(1).len()
                        implies #[trigger] m.skip(1)[j] == '*' by {
                        assert(m[j + 1] == '*');
                    }
                    assert(mask_matches(s, m.skip(1)));
                }
            }
        }
    }
}

/// Meeting a `*` at mask position `mi` with the text cursor at `si`: the
/// remaining match succeeds exactly when some text suffix at or after `si`
/// matches the mask after the star.
proof fn lemma_enter_star(s: Seq<char>, m: Seq<char>, si: int, mi: int)
    requires
        0 <= si <= s.len(),
        0 <= mi < m.len(),
        m[mi] == '*',
    ensures
        mask_matches(s.skip(si), m.skip(mi)) <==> exists|t: int|
            si <= t <= s.len() && #[trigger] mask_matches(s.skip(t), m.skip(mi + 1)),
{
    let s1 = s.skip(si);
    let m1 = m.skip(mi);
    assert(m1[0] == m[mi]);
    lemma_star_expand(s1, m1);
    assert(m1.skip(1) =~= m.skip(mi + 1));
    if mask_matches(s1, m1) {
        let t1 = choose|t: int|
            0 <= t <= s1.len() && #[trigger] mask_matches(s1.skip(t), m1.skip(1));
        assert(s1.skip(t1) =~= s.skip(si + t1));
        assert(mask_matches(s.skip(si + t1), m.skip(mi + 1)));
    }
    if exists|t: int| si <= t <= s.len() && #[trigger] mask_matches(s.skip(t), m.skip(mi + 1)) {
        let t = choose|t: int|
            si <= t <= s.len() && #[trigger] mask_matches(s.skip(t), m.skip(mi + 1));
        assert(s1.skip(t - si) =~= s.skip(t));
        assert(mask_matches(s1.skip(t - si), m1.skip(1)));
        assert(mask_matches(s1, m1));
    }
}

/// The backtracking frame: the star at `ms` has absorbed `ss - start`
/// characters and the star-free mask run up to `mi` fits the text run up
/// to `si`.
spec fn star_frame(s: Seq<char>, m: Seq<char>, ss: int, si: int, ms: int, mi: int) -> bool {
    &&& 0 <= ss <= si <= s.len()
    &&& 0 <= ms < mi <= m.len()
    &&& m[ms] == '*'
    &&& si - ss == mi - ms - 1
    &&& (forall|j: int| ms < j < mi ==> m[j] != '*')
    &&& (forall|i: int| 0 <= i < si - ss ==> fits(#[trigger] m[ms + 1 + i], s[ss + i]))
}

/// Meeting a second `*` while a star frame is live: absorption candidates
/// for the old star translate into absorption candidates for the new one.
proof fn lemma_merge_star(s: Seq<char>, m: Seq<char>, ss: int, si: int, ms: int, mi: int)
    requires
        star_frame(s, m, ss, si, ms, mi),
        mi < m.len(),
        m[mi] == '*',
    ensures
        (exists|t: int| ss <= t <= s.len() && #[trigger] mask_matches(s.skip(t), m.skip(ms + 1)))
            <==> (exists|u: int|
            si <= u <= s.len() && #[trigger] mask_matches(s.skip(u), m.skip(mi + 1))),
{
    let k = mi - ms - 1;
    assert forall|j: int| 0 <= j < k implies #[trigger] m.skip(ms + 1)[j] != '*' by {
        assert(m[ms + 1 + j] != '*');
    }
    if exists|t: int| ss <= t <= s.len() && #[trigger] mask_matches(s.skip(t), m.skip(ms + 1)) {
        let t = choose|t: int|
            ss <= t <= s.len() && #[trigger] mask_matches(s.skip(t), m.skip(ms + 1));
        lemma_segment(s.skip(t), m.skip(ms + 1), k);
        assert(s.skip(t).skip(k) =~= s.skip(t + k));
        assert(m.skip(ms + 1).skip(k) =~= m.skip(mi));
        assert(mask_matches(s.skip(t + k), m.skip(mi)));
        lemma_enter_star(s, m, t + k, mi);
        let u = choose|u: int|
            t + k <= u <= s.len() && #[trigger] mask_matches(s.skip(u), m.skip(mi + 1));
        assert(si <= u <= s.len() && mask_matches(s.skip(u), m.skip(mi + 1)));
    }
    if exists|u: int| si <= u <= s.len() && #[trigger] mask_matches(s.skip(u), m.skip(mi + 1)) {
        lemma_enter_star(s, m, si, mi);
        assert(mask_matches(s.skip(si), m.skip(mi)));
        lemma_segment(s.skip(ss), m.skip(ms + 1), k);
        assert(s.skip(ss).skip(k) =~= s.skip(si));
        assert(m.skip(ms + 1).skip(k) =~= m.skip(mi));
        assert forall|i: int| 0 <= i < k implies fits(
            #[trigger] m.skip(ms + 1)[i],
            s.skip(ss)[i],
        ) by {
            assert(fits(m[ms + 1 + i], s[ss + i]));
        }
        assert(s.skip(ss).len() >= k);
        assert(mask_matches(s.skip(ss), m.skip(ms + 1)));
    }
}

/// A dead end with no live star: the rest of the text cannot match the
/// rest of the mask.
proof fn lemma_stuck(s: Seq<char>, m: Seq<char>, si: int, mi: int)
    requires
        0 <= si < s.len(),
        0 <= mi <= m.len(),
        mi == m.len() || (m[mi] != '*' && !fits(m[mi], s[si])),
    ensures
        !mask_matches(s.skip(si), m.skip(mi)),
{
    assert(s.skip(si).len() > 0);
    if mi < m.len() {
        assert(m.skip(mi)[0] == m[mi]);
        assert(s.skip(si)[0] == s[si]);
    } else {
        assert(m.skip(mi).len() == 0);
    }
}

/// A dead end with a live star: the star's current absorption try is
/// refuted, so only longer absorptions remain possible.
proof fn lemma_backtrack(s: Seq<char>, m: Seq<char>, ss: int, si: int, ms: int, mi: int)
    requires
        star_frame(s, m, ss, si, ms, mi),
        si < s.len(),
        mi == m.len() || (m[mi] != '*' && !fits(m[mi], s[si])),
    ensures
        !mask_matches(s.skip(ss), m.skip(ms + 1)),
{
    let k = mi - ms - 1;
    assert forall|j: int| 0 <= j < k implies #[trigger] m.skip(ms + 1)[j] != '*' by {
        assert(m[ms + 1 + j] != '*');
    }
    lemma_segment(s.skip(ss), m.skip(ms + 1), k);
    if mask_matches(s.skip(ss), m.skip(ms + 1)) {
        assert(s.skip(ss).skip(k) =~= s.skip(si));
        assert(m.skip(ms + 1).skip(k) =~= m.skip(mi));
        lemma_stuck(s, m, si, mi);
        assert(false);
    }
}

/// The text is exhausted and no star is live: what remains of the mask
/// must be stars alone.
proof fn lemma_exit_plain(s: Seq<char>, m: Seq<char>, mi: int)
    requires
        0 <= mi <= m.len(),
    ensures
        mask_matches(s.skip(s.len() as int), m.skip(mi)) <==> (forall|j: int|
            mi <= j < m.len() ==> #[trigger] m[j] == '*'),
{
    let se = s.skip(s.len() as int);
    assert(se.len() == 0);
    lemma_empty_matches(se, m.skip(mi));
    if mask_matches(se, m.skip(mi)) {
        assert forall|j: int| mi <= j < m.len() implies #[trigger] m[j] == '*' by {
            assert(m.skip(mi)[j - mi] == '*');
        }
    } else {
        if forall|j: int| mi <= j < m.len() ==> #[trigger] m[j] == '*' {
            assert forall|j: int| 0 <= j < m.skip(mi).len()
                implies #[trigger] m.skip(mi)[j] == '*' by {
                assert(m[mi + j] == '*');
            }
            assert(mask_matches(se, m.skip(mi)));
        }
    }
}

/// The text is exhausted under a live star: the star can still absorb
/// exactly when what remains of the mask is stars alone.
proof fn lemma_exit_star(s: Seq<char>, m: Seq<char>, ss: int, ms: int, mi: int)
    requires
        star_frame(s, m, ss, s.len() as int, ms, mi),
    ensures
        (exists|t: int| ss <= t <= s.len() && #[trigger] mask_matches(s.skip(t), m.skip(ms + 1)))
            <==> (forall|j: int| mi <= j < m.len() ==> #[trigger] m[j] == '*'),
{
    let k = mi - ms - 1;
    let slen = s.len() as int;
    assert forall|j: int| 0 <= j < k implies #[trigger] m.skip(ms + 1)[j] != '*' by {
        assert(m[ms + 1 + j] != '*');
    }
    lemma_exit_plain(s, m, mi);
    if exists|t: int| ss <= t <= slen && #[trigger] mask_matches(s.skip(t), m.skip(ms + 1)) {
        let t = choose|t: int|
            ss <= t <= slen && #[trigger] mask_matches(s.skip(t), m.skip(ms + 1));
        lemma_segment(s.skip(t), m.skip(ms + 1), k);
        assert(s.skip(t).len() >= k);
        assert(t == ss);
        assert(s.skip(t).skip(k) =~= s.skip(slen));
        assert(m.skip(ms + 1).skip(k) =~= m.skip(mi));
        assert(mask_matches(s.skip(slen), m.skip(mi)));
    } else {
        if forall|j: int| mi <= j < m.len() ==> #[trigger] m[j] == '*' {
            assert(mask_matches(s.skip(slen), m.skip(mi)));
            lemma_segment(s.skip(ss), m.skip(ms + 1), k);
            assert(s.skip(ss).skip(k) =~= s.skip(slen));
            assert(m.skip(ms + 1).skip(k) =~= m.skip(mi));
            assert forall|i: int| 0 <= i < k implies fits(
                #[trigger] m.skip(ms + 1)[i],
                s.skip(ss)[i],
            ) by {
                assert(fits(m[ms + 1 + i], s[ss + i]));
            }
            assert(s.skip(ss).len() >= k);
            assert(mask_matches(s.skip(ss), m.skip(ms + 1)));
            assert(false);
        }
    }
}

/// The two-pointer backtracking matcher over character vectors.
///
/// Two cursors walk the text and the mask; a `*` records its position and
/// the text position it started absorbing at; on a mismatch the most recent
/// `*` absorbs one more character and the mask replays from just after it.
pub fn match_mask_chars(s: &Vec<char>, m: &Vec<char>) -> (r: bool)
    ensures
        r == mask_matches(s@, m@),
{
    let slen = s.len();
    let mlen = m.len();
    let mut si: usize = 0;
    let mut mi: usize = 0;
    let mut ss: usize = 0;
    let mut star: Option<usize> = None;

    proof {
        assert(s@.skip(0) =~= s@);
        assert(m@.skip(0) =~= m@);
    }
    while si < slen
        invariant
            slen == s@.len(),
            mlen == m@.len(),
            si <= slen,
            mi <= mlen,
            ss <= si,
            star is None ==> (mask_matches(s@, m@) <==> mask_matches(
                s@.skip(si as int),
                m@.skip(mi as int),
            )),
            star matches Some(ms) ==> {
                &&& star_frame(s@, m@, ss as int, si as int, ms as int, mi as int)
                &&& (mask_matches(s@, m@) <==> exists|t: int|
                    ss <= t <= slen && #[trigger] mask_matches(s@.skip(t), m@.skip(ms + 1)))
            },
        decreases slen - ss, slen - si, mlen - mi,
    {
        if mi < mlen && m[mi] == '*' {
            proof {
                match star {
                    None => {
                        lemma_enter_star(s@, m@, si as int, mi as int);
                    },
                    Some(ms) => {
                        lemma_merge_star(s@, m@, ss as int, si as int, ms as int, mi as int);
                    },
                }
            }
            star = Some(mi);
            ss = si;
            mi = mi + 1;
            proof {
                let ms = star->Some_0;
                assert(star_frame(s@, m@, ss as int, si as int, ms as int, mi as int));
                assert(mask_matches(s@, m@) <==> exists|t: int|
                    ss <= t <= slen && #[trigger] mask_matches(s@.skip(t), m@.skip(ms + 1)));
            }
        } else if mi < mlen && (m[mi] == '?' || m[mi] == s[si]) {
            proof {
                assert(fits(m@[mi as int], s@[si as int]));
                match star {
                    None => {
                        lemma_char_step(s@, m@, si as int, mi as int);
                    },
                    Some(ms) => {
                        assert forall|i: int| 0 <= i < si + 1 - ss implies fits(
                            #[trigger] m@[ms + 1 + i],
                            s@[ss + i],
                        ) by {
                            if i == si - ss {
                                assert(ms + 1 + i == mi as int);
                            }
                        }
                    },
                }
            }
            si = si + 1;
            mi = mi + 1;
            proof {
                if star is Some {
                    let ms = star->Some_0;
                    assert(star_frame(s@, m@, ss as int, si as int, ms as int, mi as int));
                    assert(mask_matches(s@, m@) <==> exists|t: int|
                        ss <= t <= slen && #[trigger] mask_matches(s@.skip(t), m@.skip(ms + 1)));
                }
            }
        } else {
            match star {
                Some(ms_exec) => {
                    proof {
                        lemma_backtrack(s@, m@, ss as int, si as int, ms_exec as int, mi as int);
                        if mask_matches(s@, m@) {
                            let t = choose|t: int|
                                ss <= t <= slen && #[trigger] mask_matches(
                                    s@.skip(t),
                                    m@.skip(ms_exec + 1),
                                );
                            assert(t != ss);
                        }
                    }
                    mi = ms_exec + 1;
                    ss = ss + 1;
                    si = ss;
                    proof {
                        let ms = star->Some_0;
                        assert(star_frame(s@, m@, ss as int, si as int, ms as int, mi as int));
                        assert(mask_matches(s@, m@) <==> exists|t: int|
                            ss <= t <= slen && #[trigger] mask_matches(
                                s@.skip(t),
                                m@.skip(ms + 1),
                            ));
                    }
                },
                None => {
                    proof {
                        lemma_stuck(s@, m@, si as int, mi as int);
                    }
                    return false;
                },
            }
        }
    }

    // the text is exhausted: the match succeeds exactly when only stars
    // remain in the mask
    let ghost mi0 = mi as int;
    proof {
        match star {
            None => {
                lemma_exit_plain(s@, m@, mi0);
            },
            Some(ms_exec) => {
                lemma_exit_star(s@, m@, ss as int, ms_exec as int, mi0);
            },
        }
        assert(mask_matches(s@, m@) <==> (forall|j: int|
            mi0 <= j < mlen ==> #[trigger] m@[j] == '*'));
    }

    while mi < mlen && m[mi] == '*'
        invariant
            mlen == m@.len(),
            mi0 <= mi <= mlen,
            forall|j: int| mi0 <= j < mi ==> #[trigger] m@[j] == '*',
            mask_matches(s@, m@) <==> (forall|j: int|
                mi0 <= j < mlen ==> #[trigger] m@[j] == '*'),
        decreases mlen - mi,
    {
        mi = mi + 1;
    }
    mi == mlen
}

/// One literal or `?` step: both cursors advance together.
proof fn lemma_char_step(s: Seq<char>, m: Seq<char>, si: int, mi: int)
    requires
        0 <= si < s.len(),
        0 <= mi < m.len(),
        m[mi] != '*',
        fits(m[mi], s[si]),
    ensures
        mask_matches(s.skip(si), m.skip(mi)) <==> mask_matches(s.skip(si + 1), m.skip(mi + 1)),
{
    assert(s.skip(si).skip(1) =~= s.skip(si + 1));
    assert(m.skip(mi).skip(1) =~= m.skip(mi + 1));
    assert(m.skip(mi)[0] == m[mi]);
    assert(s.skip(si)[0] == s[si]);
}

/// A mask consisting of a single `*` accepts every text.
pub proof fn lemma_star_matches_all(s: Seq<char>)
    ensures
        mask_matches(s, seq!['*']),
    decreases s.len(),
{
    let m = seq!['*'];
    if s.len() == 0 {
        assert(mask_matches(s, m.skip(1)));
    } else {
        lemma_star_matches_all(s.skip(1));
    }
}

/// `match_mask(s, mask)`: does the whole text match the whole mask?
pub fn match_mask(s: &str, mask: &str) -> (r: bool)
    ensures
        r == mask_matches(s@, mask@),
{
    let sv = chars_of(s);
    let mv = chars_of(mask);
    match_mask_chars(&sv, &mv)
}

} // verus!
