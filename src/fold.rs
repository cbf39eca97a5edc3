//! Folding and unfolding of lines: a logical line longer than 75 octets is
//! split into physical lines, each continuation starting with one space.
use vstd::prelude::*;

use crate::text::{append_chars, slice_chars};

verus! {

/// The most octets a physical line holds, its line break not counted.
pub const MAX_OCTETS: usize = 75;

/// How many octets `c` takes in UTF-8.
pub open spec fn utf8_len(c: char) -> nat {
    if (c as u32) < 0x80 {
        1
    } else if (c as u32) < 0x800 {
        2
    } else if (c as u32) < 0x10000 {
        3
    } else {
        4
    }
}

/// How many octets `s` takes in UTF-8.
pub open spec fn octets(s: Seq<char>) -> nat
    decreases s.len(),
{
    if s.len() == 0 {
        0
    } else {
        utf8_len(s[0]) + octets(s.skip(1))
    }
}

/// How many leading characters of `s` fit in `budget` octets.
pub open spec fn fitting(s: Seq<char>, budget: int) -> nat
    decreases s.len(),
{
    if s.len() == 0 || utf8_len(s[0]) > budget {
        0
    } else {
        1 + fitting(s.skip(1), budget - utf8_len(s[0]))
    }
}

/// How many backslashes stand in a row just before index `i` of `s`.
pub open spec fn backslash_run(s: Seq<char>, i: int) -> nat
    decreases i,
{
    if i <= 0 || i > s.len() || s[i - 1] != '\\' {
        0
    } else {
        1 + backslash_run(s, i - 1)
    }
}

/// How many characters the next physical line takes: those that fit, and at
/// least one; one less where the cut, with more text to follow, would fall
/// after an odd run of backslashes, that is inside an escape sequence, so
/// that no escape sequence is split.
pub open spec fn chunk_len(s: Seq<char>, budget: int) -> nat {
    let f = fitting(s, budget);
    if s.len() > 0 && f == 0 {
        1
    } else if f >= 2 && f < s.len() && backslash_run(s, f as int) % 2 == 1 {
        (f - 1) as nat
    } else {
        f
    }
}

/// Whether a physical line continues the one before it.
pub open spec fn is_continuation(l: Seq<char>) -> bool {
    l.len() > 0 && (l[0] == ' ' || l[0] == '\t')
}

/// The continuation lines that carry `s`.
pub open spec fn fold_rest(s: Seq<char>) -> Seq<Seq<char>>
    decreases s.len(),
{
    if s.len() == 0 {
        Seq::empty()
    } else {
        let k = chunk_len(s, MAX_OCTETS - 1);
        if k == 0 || k > s.len() {
            Seq::empty()
        } else {
            seq![seq![' '] + s.take(k as int)] + fold_rest(s.skip(k as int))
        }
    }
}

/// The physical lines of the logical line `l`.
pub open spec fn fold_spec(l: Seq<char>) -> Seq<Seq<char>> {
    let k = chunk_len(l, MAX_OCTETS as int);
    seq![l.take(k as int)] + fold_rest(l.skip(k as int))
}

/// The logical lines of the physical lines `ls`: each continuation, its first
/// character taken off, is appended to the line before it. `None` where the
/// first line is a continuation.
pub open spec fn unfold_spec(ls: Seq<Seq<char>>) -> Option<Seq<Seq<char>>>
    decreases ls.len(),
{
    if ls.len() == 0 {
        Some(Seq::empty())
    } else {
        let l = ls.last();
        match unfold_spec(ls.drop_last()) {
            None => None,
            Some(u) => if is_continuation(l) {
                if u.len() == 0 {
                    None
                } else {
                    Some(u.update(u.len() - 1, u.last() + l.skip(1)))
                }
            } else {
                Some(u.push(l))
            },
        }
    }
}

pub(crate) proof fn lemma_fitting_bound(s: Seq<char>, budget: int)
    ensures
        fitting(s, budget) <= s.len(),
        budget >= 4 && s.len() > 0 ==> fitting(s, budget) >= 1,
        octets(s.take(fitting(s, budget) as int)) <= if budget < 0 {
            0
        } else {
            budget
        },
    decreases s.len(),
{
    if s.len() == 0 || utf8_len(s[0]) > budget {
        assert(s.take(0) =~= Seq::<char>::empty());
    } else {
        let k = fitting(s, budget);
        lemma_fitting_bound(s.skip(1), budget - utf8_len(s[0]));
        assert(s.take(k as int).skip(1) =~= s.skip(1).take(k - 1));
    }
}

proof fn lemma_unfold_push_continuation(p: Seq<Seq<char>>, u: Seq<Seq<char>>, c: Seq<char>)
    requires
        unfold_spec(p) == Some(u),
        u.len() > 0,
    ensures
        unfold_spec(p.push(seq![' '] + c)) == Some(u.update(u.len() - 1, u.last() + c)),
{
    let x = seq![' '] + c;
    assert(p.push(x).drop_last() =~= p);
    assert(x.skip(1) =~= c);
}

proof fn lemma_unfold_fold_rest(p: Seq<Seq<char>>, u: Seq<Seq<char>>, s: Seq<char>)
    requires
        unfold_spec(p) == Some(u),
        u.len() > 0,
    ensures
        unfold_spec(p + fold_rest(s)) == Some(u.update(u.len() - 1, u.last() + s)),
    decreases s.len(),
{
    if s.len() == 0 {
        assert(p + fold_rest(s) =~= p);
        assert(u.last() + s =~= u.last());
        assert(u.update(u.len() - 1, u.last()) =~= u);
    } else {
        lemma_fitting_bound(s, MAX_OCTETS - 1);
        let k = chunk_len(s, MAX_OCTETS - 1);
        let c = s.take(k as int);
        let p2 = p.push(seq![' '] + c);
        let u2 = u.update(u.len() - 1, u.last() + c);
        lemma_unfold_push_continuation(p, u, c);
        lemma_unfold_fold_rest(p2, u2, s.skip(k as int));
        assert(p + fold_rest(s) =~= p2 + fold_rest(s.skip(k as int)));
        assert(u2.last() + s.skip(k as int) =~= u.last() + s);
        assert(u2.update(u2.len() - 1, u2.last() + s.skip(k as int)) =~= u.update(
            u.len() - 1,
            u.last() + s,
        ));
    }
}

/// Unfolding the physical lines of a logical line gives that line back,
/// where the line does not itself start as a continuation would.
pub proof fn lemma_unfold_fold(l: Seq<char>)
    requires
        !is_continuation(l),
    ensures
        unfold_spec(fold_spec(l)) == Some(seq![l]),
{
    lemma_fitting_bound(l, MAX_OCTETS as int);
    let k = chunk_len(l, MAX_OCTETS as int);
    let first = l.take(k as int);
    let p = seq![first];
    assert(p.drop_last() =~= Seq::<Seq<char>>::empty());
    assert(unfold_spec(Seq::<Seq<char>>::empty()) == Some(Seq::<Seq<char>>::empty()));
    assert(!is_continuation(first));
    assert(Seq::<Seq<char>>::empty().push(first) =~= p);
    assert(unfold_spec(p) == Some(p));
    lemma_unfold_fold_rest(p, p, l.skip(k as int));
    assert(first + l.skip(k as int) =~= l);
    assert(p.update(0, first + l.skip(k as int)) =~= seq![l]);
}


proof fn lemma_fold_rest_prefixed(s: Seq<char>)
    ensures
        forall|i: int|
            0 <= i < fold_rest(s).len() ==> (#[trigger] fold_rest(s)[i]).len() >= 1
                && fold_rest(s)[i][0] == ' ',
    decreases s.len(),
{
    if s.len() > 0 {
        let k = chunk_len(s, MAX_OCTETS - 1);
        if k > 0 && k <= s.len() {
            lemma_fold_rest_prefixed(s.skip(k as int));
            let x = seq![' '] + s.take(k as int);
            assert(fold_rest(s) == seq![x] + fold_rest(s.skip(k as int)));
            assert forall|i: int| 0 <= i < fold_rest(s).len() implies (#[trigger] fold_rest(
                s,
            )[i]).len() >= 1 && fold_rest(s)[i][0] == ' ' by {
                if i > 0 {
                    assert(fold_rest(s)[i] == fold_rest(s.skip(k as int))[i - 1]);
                }
            }
        }
    }
}

/// A logical line of more than 75 octets is folded into two or more physical
/// lines, each continuation starting with one space.
pub proof fn lemma_fold_long_line(l: Seq<char>)
    requires
        octets(l) > MAX_OCTETS,
    ensures
        fold_spec(l).len() >= 2,
        forall|i: int|
            1 <= i < fold_spec(l).len() ==> (#[trigger] fold_spec(l)[i]).len() >= 1
                && fold_spec(l)[i][0] == ' ',
{
    lemma_fitting_bound(l, MAX_OCTETS as int);
    let k = chunk_len(l, MAX_OCTETS as int);
    lemma_fold_rest_prefixed(l.skip(k as int));
    if k == l.len() {
        assert(l.take(k as int) =~= l);
    }
    assert(l.skip(k as int).len() > 0);
    assert(fold_rest(l.skip(k as int)).len() >= 1) by {
        lemma_fitting_bound(l.skip(k as int), MAX_OCTETS - 1);
    }
    assert forall|i: int| 1 <= i < fold_spec(l).len() implies (#[trigger] fold_spec(l)[i]).len()
        >= 1 && fold_spec(l)[i][0] == ' ' by {
        assert(fold_spec(l)[i] == fold_rest(l.skip(k as int))[i - 1]);
    }
}

proof fn lemma_octets_concat(a: Seq<char>, b: Seq<char>)
    ensures
        octets(a + b) == octets(a) + octets(b),
    decreases a.len(),
{
    if a.len() == 0 {
        assert(a + b =~= b);
    } else {
        lemma_octets_concat(a.skip(1), b);
        assert((a + b).skip(1) =~= a.skip(1) + b);
    }
}

proof fn lemma_octets_prefix(s: Seq<char>, j: int, k: int)
    requires
        0 <= j <= k <= s.len(),
    ensures
        octets(s.take(j)) <= octets(s.take(k)),
{
    lemma_octets_concat(s.take(j), s.subrange(j, k));
    assert(s.take(j) + s.subrange(j, k) =~= s.take(k));
}

proof fn lemma_fold_rest_octets(s: Seq<char>)
    ensures
        forall|i: int|
            0 <= i < fold_rest(s).len() ==> octets(#[trigger] fold_rest(s)[i]) <= MAX_OCTETS,
    decreases s.len(),
{
    if s.len() > 0 {
        lemma_fitting_bound(s, MAX_OCTETS - 1);
        let k = chunk_len(s, MAX_OCTETS - 1);
        let f = fitting(s, MAX_OCTETS - 1);
        lemma_fold_rest_octets(s.skip(k as int));
        lemma_octets_prefix(s, k as int, f as int);
        let x = seq![' '] + s.take(k as int);
        lemma_octets_concat(seq![' '], s.take(k as int));
        assert(seq![' '].skip(1) =~= Seq::<char>::empty());
        assert(octets(Seq::<char>::empty()) == 0);
        assert(utf8_len(' ') == 1);
        assert(octets(seq![' ']) == 1);
        assert forall|i: int| 0 <= i < fold_rest(s).len() implies octets(
            #[trigger] fold_rest(s)[i],
        ) <= MAX_OCTETS by {
            if i > 0 {
                assert(fold_rest(s)[i] == fold_rest(s.skip(k as int))[i - 1]);
            }
        }
    }
}

/// Every physical line of a folded line takes at most 75 octets.
pub proof fn lemma_fold_octets(l: Seq<char>)
    ensures
        forall|i: int| 0 <= i < fold_spec(l).len() ==> octets(#[trigger] fold_spec(l)[i]) <= MAX_OCTETS,
{
    lemma_fitting_bound(l, MAX_OCTETS as int);
    let k = chunk_len(l, MAX_OCTETS as int);
    let f = fitting(l, MAX_OCTETS as int);
    lemma_octets_prefix(l, k as int, f as int);
    lemma_fold_rest_octets(l.skip(k as int));
    assert forall|i: int| 0 <= i < fold_spec(l).len() implies octets(
        #[trigger] fold_spec(l)[i],
    ) <= MAX_OCTETS by {
        if i > 0 {
            assert(fold_spec(l)[i] == fold_rest(l.skip(k as int))[i - 1]);
        }
    }
}

/// The continuation lines, each without its first character, one after the
/// other.
pub open spec fn concat_tails(ts: Seq<Seq<char>>) -> Seq<char>
    decreases ts.len(),
{
    if ts.len() == 0 {
        Seq::empty()
    } else {
        concat_tails(ts.drop_last()) + ts.last().skip(1)
    }
}

/// Unfolding a line and the continuations that follow it gives one logical
/// line: the first line, then each continuation without its first character.
pub proof fn lemma_unfold_continuations(ls: Seq<Seq<char>>)
    requires
        ls.len() >= 1,
        !is_continuation(ls[0]),
        forall|i: int| 1 <= i < ls.len() ==> is_continuation(#[trigger] ls[i]),
    ensures
        unfold_spec(ls) == Some(seq![ls[0] + concat_tails(ls.skip(1))]),
    decreases ls.len(),
{
    if ls.len() == 1 {
        assert(ls.drop_last() =~= Seq::<Seq<char>>::empty());
        assert(ls.skip(1) =~= Seq::<Seq<char>>::empty());
        assert(ls[0] + Seq::<char>::empty() =~= ls[0]);
        assert(Seq::<Seq<char>>::empty().push(ls.last()) =~= seq![ls[0] + concat_tails(ls.skip(1))]);
    } else {
        let d = ls.drop_last();
        assert forall|i: int| 1 <= i < d.len() implies is_continuation(#[trigger] d[i]) by {
            assert(d[i] == ls[i]);
        }
        lemma_unfold_continuations(d);
        assert(ls.skip(1).drop_last() =~= d.skip(1));
        assert(ls.skip(1).last() == ls.last());
        let u = seq![d[0] + concat_tails(d.skip(1))];
        assert(is_continuation(ls.last()));
        assert(concat_tails(ls.skip(1)) == concat_tails(d.skip(1)) + ls.last().skip(1));
        assert(d[0] == ls[0]);
        assert(d[0] + concat_tails(d.skip(1)) + ls.last().skip(1) =~= ls[0] + concat_tails(
            ls.skip(1),
        ));
        assert(u.update(0, u.last() + ls.last().skip(1)) =~= seq![ls[0] + concat_tails(ls.skip(1))]);
    }
}

/// A logical line of more than 75 octets folds into two or more physical
/// lines, each continuation starting with one space; unfolding keeps the
/// first line and appends each continuation without its leading space, which
/// gives the logical line back.
pub proof fn lemma_fold_long_line_unfolds(l: Seq<char>)
    requires
        octets(l) > MAX_OCTETS,
        !is_continuation(l),
    ensures
        fold_spec(l).len() >= 2,
        forall|i: int| 1 <= i < fold_spec(l).len() ==> (#[trigger] fold_spec(l)[i])[0] == ' ',
        unfold_spec(fold_spec(l)) == Some(seq![fold_spec(l)[0] + concat_tails(fold_spec(l).skip(1))]),
        fold_spec(l)[0] + concat_tails(fold_spec(l).skip(1)) == l,
{
    let f = fold_spec(l);
    lemma_fold_long_line(l);
    lemma_unfold_fold(l);
    lemma_fitting_bound(l, MAX_OCTETS as int);
    let k = chunk_len(l, MAX_OCTETS as int);
    assert(f[0] == l.take(k as int));
    assert(!is_continuation(f[0]));
    assert forall|i: int| 1 <= i < f.len() implies is_continuation(#[trigger] f[i]) by {
        assert(f[i].len() >= 1 && f[i][0] == ' ');
    }
    lemma_unfold_continuations(f);
    assert(seq![f[0] + concat_tails(f.skip(1))][0] == seq![l][0]);
}

proof fn lemma_unfold_none_extends(ls: Seq<Seq<char>>, i: int)
    requires
        0 <= i <= ls.len(),
        unfold_spec(ls.take(i)) is None,
    ensures
        unfold_spec(ls) is None,
    decreases ls.len(),
{
    if i == ls.len() {
        assert(ls.take(i) =~= ls);
    } else {
        assert(ls.drop_last().take(i) =~= ls.take(i));
        lemma_unfold_none_extends(ls.drop_last(), i);
    }
}

/// How many octets `c` takes in UTF-8 (see [`utf8_len`]).
fn char_octets(c: char) -> (r: usize)
    ensures
        r == utf8_len(c),
{
    let u = c as u32;
    if u < 0x80 {
        1
    } else if u < 0x800 {
        2
    } else if u < 0x10000 {
        3
    } else {
        4
    }
}

/// Whether an odd number of backslashes stands in a row just before index
/// `i` of `s`, counting no further back than `start`.
fn odd_backslash_run(s: &Vec<char>, start: usize, i: usize) -> (r: bool)
    requires
        start <= i <= s@.len(),
    ensures
        r == (backslash_run(s@.skip(start as int), i - start) % 2 == 1),
{
    let ghost t = s@.skip(start as int);
    let mut j: usize = i;
    let mut odd = false;
    while j > start && s[j - 1] == '\\'
        invariant
            start <= j <= i,
            i <= s@.len(),
            t == s@.skip(start as int),
            (backslash_run(t, i - start) % 2 == 1) == (odd != (backslash_run(t, j - start) % 2
                == 1)),
        decreases j,
    {
        assert(t[j - start - 1] == s@[j - 1]);
        odd = !odd;
        j -= 1;
    }
    if j > start {
        assert(t[j - start - 1] == s@[j - 1]);
    }
    odd
}

/// How many characters of `s` from `start` go into a physical line of
/// `budget` octets (see [`chunk_len`]).
fn chunk_at(s: &Vec<char>, start: usize, budget: usize) -> (k: usize)
    requires
        start <= s@.len(),
    ensures
        k == chunk_len(s@.skip(start as int), budget as int),
{
    let mut i: usize = start;
    let mut used: usize = 0;
    assert(s@.skip(start as int).skip(0) =~= s@.skip(start as int));
    if start == s.len() {
        assert(s@.skip(start as int).len() == 0);
        return 0;
    }
    while i < s.len()
        invariant
            start <= i <= s@.len(),
            used <= budget,
            fitting(s@.skip(start as int), budget as int) == (i - start) + fitting(
                s@.skip(i as int),
                budget - used,
            ),
        ensures
            start <= i <= s@.len(),
            fitting(s@.skip(start as int), budget as int) == (i - start),
        decreases s@.len() - i,
    {
        let w = char_octets(s[i]);
        assert(s@.skip(i as int)[0] == s@[i as int]);
        if w > budget - used {
            break;
        }
        if i + 1 == s.len() {
            assert(s@.skip(i + 1).len() == 0);
        }
        assert(s@.skip(i as int).skip(1) =~= s@.skip(i + 1));
        used = used + w;
        i += 1;
    }
    let k = i - start;
    if k == 0 && start < s.len() {
        1
    } else if k >= 2 && i < s.len() && odd_backslash_run(s, start, i) {
        k - 1
    } else {
        k
    }
}

/// The physical lines of the logical line `l` (see [`fold_spec`]): every one
/// but the last as long as 75 octets allow, one character less where that
/// keeps an escape sequence whole; splits fall on character boundaries and
/// each continuation starts with one space.
pub fn fold_line(l: &Vec<char>) -> (r: Vec<Vec<char>>)
    ensures
        r@.map_values(|x: Vec<char>| x@) == fold_spec(l@),
{
    let n = l.len();
    assert(l@.skip(0) =~= l@);
    proof {
        lemma_fitting_bound(l@, MAX_OCTETS as int);
    }
    let k = chunk_at(l, 0, MAX_OCTETS);
    let mut out: Vec<Vec<char>> = Vec::new();
    out.push(slice_chars(l, 0, k));
    let mut pos: usize = k;
    assert(out@.map_values(|x: Vec<char>| x@) =~= seq![l@.take(k as int)]);
    while pos < n
        invariant
            n == l@.len(),
            pos <= n,
            fold_spec(l@) == out@.map_values(|x: Vec<char>| x@) + fold_rest(l@.skip(pos as int)),
        decreases n - pos,
    {
        let ghost rest = l@.skip(pos as int);
        proof {
            lemma_fitting_bound(rest, MAX_OCTETS - 1);
        }
        let k = chunk_at(l, pos, MAX_OCTETS - 1);
        let mut line: Vec<char> = Vec::new();
        line.push(' ');
        append_chars(&mut line, &slice_chars(l, pos, pos + k));
        let ghost before = out@.map_values(|x: Vec<char>| x@);
        out.push(line);
        proof {
            assert(rest.take(k as int) =~= l@.subrange(pos as int, pos + k));
            assert(rest.skip(k as int) =~= l@.skip(pos + k));
            assert(out@.map_values(|x: Vec<char>| x@) =~= before.push(seq![' '] + rest.take(k as int)));
            assert(before + fold_rest(rest) =~= out@.map_values(|x: Vec<char>| x@) + fold_rest(
                l@.skip(pos + k),
            ));
        }
        pos = pos + k;
    }
    assert(l@.skip(pos as int) =~= Seq::<char>::empty());
    assert(fold_spec(l@) =~= out@.map_values(|x: Vec<char>| x@));
    out
}

/// The logical lines of the physical lines `ls` (see [`unfold_spec`]); `Err`
/// with the index of the line where a continuation has no line to continue.
pub fn unfold_lines(ls: &Vec<Vec<char>>) -> (r: Result<Vec<Vec<char>>, usize>)
    ensures
        match r {
            Ok(u) => unfold_spec(ls@.map_values(|x: Vec<char>| x@)) == Some(
                u@.map_values(|x: Vec<char>| x@),
            ),
            Err(i) => unfold_spec(ls@.map_values(|x: Vec<char>| x@)) is None && i < ls@.len(),
        },
{
    let ghost v = ls@.map_values(|x: Vec<char>| x@);
    let mut out: Vec<Vec<char>> = Vec::new();
    let mut i: usize = 0;
    assert(v.take(0) =~= Seq::<Seq<char>>::empty());
    assert(out@.map_values(|x: Vec<char>| x@) =~= Seq::<Seq<char>>::empty());
    while i < ls.len()
        invariant
            i <= ls@.len(),
            v == ls@.map_values(|x: Vec<char>| x@),
            unfold_spec(v.take(i as int)) == Some(out@.map_values(|x: Vec<char>| x@)),
        decreases ls@.len() - i,
    {
        let l = &ls[i];
        let ghost before = out@.map_values(|x: Vec<char>| x@);
        assert(v.take(i + 1).drop_last() =~= v.take(i as int));
        assert(v.take(i + 1).last() == l@);
        if l.len() > 0 && (l[0] == ' ' || l[0] == '\t') {
            if out.len() == 0 {
                proof {
                    lemma_unfold_none_extends(v, i + 1);
                }
                return Err(i);
            }
            let mut last = out.pop().unwrap();
            let ghost old_last = last@;
            append_chars(&mut last, &slice_chars(l, 1, l.len()));
            out.push(last);
            assert(l@.skip(1) =~= l@.subrange(1, l@.len() as int));
            assert(out@.map_values(|x: Vec<char>| x@) =~= before.update(
                before.len() - 1,
                before.last() + l@.skip(1),
            ));
        } else {
            out.push(l.clone());
            assert(out@.map_values(|x: Vec<char>| x@) =~= before.push(l@));
        }
        i += 1;
    }
    assert(v.take(i as int) =~= v);
    Ok(out)
}

} // verus!
