//! Escaping of property values and splitting on unescaped separators.
use vstd::prelude::*;

use crate::text::append_chars;

verus! {

/// The character that an escape sequence `\c` stands for.
pub open spec fn unescaped_char(c: char) -> char {
    if c == 'n' || c == 'N' {
        '\n'
    } else {
        c
    }
}

/// Removes the escapes of a property value: `\\`, `\,`, `\;`, `\n` and `\N`.
/// A backslash followed by another character stands for that character; a
/// lone backslash at the end stays as it is.
pub open spec fn unescape(s: Seq<char>) -> Seq<char>
    decreases s.len(),
{
    if s.len() == 0 {
        Seq::empty()
    } else if s[0] == '\\' && s.len() >= 2 {
        seq![unescaped_char(s[1])] + unescape(s.skip(2))
    } else {
        seq![s[0]] + unescape(s.skip(1))
    }
}

/// The text that stands for one character in an escaped value.
pub open spec fn escape_char(c: char) -> Seq<char> {
    if c == '\\' || c == ',' || c == ';' {
        seq!['\\', c]
    } else if c == '\n' {
        seq!['\\', 'n']
    } else {
        seq![c]
    }
}

/// Escapes a property value so that no separator stays bare.
pub open spec fn escape(s: Seq<char>) -> Seq<char>
    decreases s.len(),
{
    if s.len() == 0 {
        Seq::empty()
    } else {
        escape_char(s[0]) + escape(s.skip(1))
    }
}

/// Puts `p` in front of the first piece.
pub open spec fn prepend_first(p: Seq<char>, parts: Seq<Seq<char>>) -> Seq<Seq<char>> {
    parts.update(0, p + parts[0])
}

/// Splits `s` at each occurrence of `sep` that no backslash escapes. The pieces
/// keep their escapes.
pub open spec fn split_unescaped(s: Seq<char>, sep: char) -> Seq<Seq<char>>
    decreases s.len(),
{
    if s.len() == 0 {
        seq![Seq::empty()]
    } else if s[0] == '\\' && s.len() >= 2 {
        prepend_first(s.take(2), split_unescaped(s.skip(2), sep))
    } else if s[0] == sep {
        seq![Seq::<char>::empty()] + split_unescaped(s.skip(1), sep)
    } else {
        prepend_first(seq![s[0]], split_unescaped(s.skip(1), sep))
    }
}

/// Joins the pieces with `sep` between each two.
pub open spec fn join(parts: Seq<Seq<char>>, sep: char) -> Seq<char>
    decreases parts.len(),
{
    if parts.len() == 0 {
        Seq::empty()
    } else if parts.len() == 1 {
        parts[0]
    } else {
        parts[0] + seq![sep] + join(parts.skip(1), sep)
    }
}

pub(crate) proof fn lemma_prepend_twice(a: Seq<char>, b: Seq<char>, x: Seq<Seq<char>>)
    requires
        x.len() >= 1,
    ensures
        prepend_first(a, prepend_first(b, x)) == prepend_first(a + b, x),
        prepend_first(Seq::empty(), x) == x,
{
    assert(a + (b + x[0]) =~= (a + b) + x[0]);
    assert(prepend_first(a, prepend_first(b, x)) =~= prepend_first(a + b, x));
    assert(Seq::<char>::empty() + x[0] =~= x[0]);
    assert(prepend_first(Seq::empty(), x) =~= x);
}

pub(crate) proof fn lemma_split_nonempty(s: Seq<char>, sep: char)
    ensures
        split_unescaped(s, sep).len() >= 1,
    decreases s.len(),
{
    if s.len() == 0 {
    } else if s[0] == '\\' && s.len() >= 2 {
        lemma_split_nonempty(s.skip(2), sep);
    } else if s[0] == sep {
    } else {
        lemma_split_nonempty(s.skip(1), sep);
    }
}

/// Unescaping an escaped text gives the text back.
pub proof fn lemma_unescape_escape(s: Seq<char>)
    ensures
        unescape(escape(s)) == s,
    decreases s.len(),
{
    if s.len() > 0 {
        let e = escape(s);
        let rest = escape(s.skip(1));
        lemma_unescape_escape(s.skip(1));
        let c = escape_char(s[0]);
        if c.len() == 2 {
            assert(e.skip(2) =~= rest);
        } else {
            assert(e.skip(1) =~= rest);
        }
        assert(unescape(e) =~= s);
    }
}

/// `s` holds no bare `sep` and does not end in a lone backslash: it stays one
/// piece when split, also when more text follows it.
pub open spec fn no_bare_sep(s: Seq<char>, sep: char) -> bool
    decreases s.len(),
{
    if s.len() == 0 {
        true
    } else if s[0] == '\\' {
        s.len() >= 2 && no_bare_sep(s.skip(2), sep)
    } else {
        s[0] != sep && no_bare_sep(s.skip(1), sep)
    }
}

pub(crate) proof fn lemma_no_bare_sep_concat(a: Seq<char>, b: Seq<char>, sep: char)
    requires
        no_bare_sep(a, sep),
        no_bare_sep(b, sep),
    ensures
        no_bare_sep(a + b, sep),
    decreases a.len(),
{
    if a.len() == 0 {
        assert(a + b =~= b);
    } else if a[0] == '\\' {
        lemma_no_bare_sep_concat(a.skip(2), b, sep);
        assert((a + b).skip(2) =~= a.skip(2) + b);
    } else {
        lemma_no_bare_sep_concat(a.skip(1), b, sep);
        assert((a + b).skip(1) =~= a.skip(1) + b);
    }
}

pub(crate) proof fn lemma_escape_no_bare_sep(x: Seq<char>, sep: char)
    requires
        sep == ',' || sep == ';',
    ensures
        no_bare_sep(escape(x), sep),
    decreases x.len(),
{
    if x.len() > 0 {
        lemma_escape_no_bare_sep(x.skip(1), sep);
        let c = escape_char(x[0]);
        if c.len() == 2 {
            assert(c.skip(2) =~= Seq::<char>::empty());
            assert(no_bare_sep(c.skip(2), sep));
        } else {
            assert(c.skip(1) =~= Seq::<char>::empty());
            assert(no_bare_sep(c.skip(1), sep));
        }
        assert(no_bare_sep(c, sep));
        lemma_no_bare_sep_concat(c, escape(x.skip(1)), sep);
    }
}

/// A text with no bare separator goes whole in front of the first piece.
pub(crate) proof fn lemma_split_prefix(a: Seq<char>, t: Seq<char>, sep: char)
    requires
        no_bare_sep(a, sep),
    ensures
        split_unescaped(a + t, sep) == prepend_first(a, split_unescaped(t, sep)),
    decreases a.len(),
{
    lemma_split_nonempty(t, sep);
    if a.len() == 0 {
        assert(a + t =~= t);
        lemma_prepend_twice(a, a, split_unescaped(t, sep));
    } else {
        let s = a + t;
        let k: int = if a[0] == '\\' { 2 } else { 1 };
        let rest = a.skip(k);
        lemma_split_prefix(rest, t, sep);
        assert(s.skip(k) =~= rest + t);
        assert(s.take(k) =~= a.take(k));
        if k == 1 {
            assert(seq![s[0]] =~= a.take(1));
        }
        lemma_prepend_twice(a.take(k), rest, split_unescaped(t, sep));
        assert(a.take(k) + rest =~= a);
    }
}

/// Splitting pieces with no bare separator, joined by it, gives the pieces back.
pub proof fn lemma_split_join(parts: Seq<Seq<char>>, sep: char)
    requires
        sep != '\\',
        parts.len() >= 1,
        forall|i: int| 0 <= i < parts.len() ==> no_bare_sep(#[trigger] parts[i], sep),
    ensures
        split_unescaped(join(parts, sep), sep) == parts,
    decreases parts.len(),
{
    let e: Seq<char> = Seq::empty();
    if parts.len() == 1 {
        lemma_split_prefix(parts[0], e, sep);
        assert(parts[0] + e =~= parts[0]);
        assert(prepend_first(parts[0], seq![e]) =~= parts);
    } else {
        let tail = parts.skip(1);
        assert forall|i: int| 0 <= i < tail.len() implies no_bare_sep(#[trigger] tail[i], sep) by {
            assert(tail[i] == parts[i + 1]);
        }
        lemma_split_join(tail, sep);
        let j = join(tail, sep);
        let st: Seq<char> = seq![sep] + j;
        assert(join(parts, sep) =~= parts[0] + st);
        lemma_split_prefix(parts[0], st, sep);
        assert(st.skip(1) =~= j);
        assert(split_unescaped(st, sep) == seq![e] + tail);
        assert(prepend_first(parts[0], seq![e] + tail) =~= parts);
    }
}

/// Joining pieces with no bare `;` by commas leaves no bare `;`.
pub(crate) proof fn lemma_join_no_bare_sep(parts: Seq<Seq<char>>, inner: char, sep: char)
    requires
        inner != sep,
        inner != '\\',
        forall|i: int| 0 <= i < parts.len() ==> no_bare_sep(#[trigger] parts[i], sep),
    ensures
        no_bare_sep(join(parts, inner), sep),
    decreases parts.len(),
{
    if parts.len() >= 2 {
        let tail = parts.skip(1);
        assert forall|i: int| 0 <= i < tail.len() implies no_bare_sep(#[trigger] tail[i], sep) by {
            assert(tail[i] == parts[i + 1]);
        }
        lemma_join_no_bare_sep(tail, inner, sep);
        let c: Seq<char> = seq![inner];
        assert(c.skip(1) =~= Seq::<char>::empty());
        assert(no_bare_sep(c.skip(1), sep));
        assert(no_bare_sep(c, sep));
        lemma_no_bare_sep_concat(c, join(tail, inner), sep);
        lemma_no_bare_sep_concat(parts[0], c + join(tail, inner), sep);
        assert(join(parts, inner) =~= parts[0] + (c + join(tail, inner)));
    }
}

/// The escaped pieces, each escaped.
pub open spec fn escape_all(parts: Seq<Seq<char>>) -> Seq<Seq<char>> {
    parts.map_values(|p: Seq<char>| escape(p))
}

/// The pieces, each unescaped.
pub open spec fn unescape_all(parts: Seq<Seq<char>>) -> Seq<Seq<char>> {
    parts.map_values(|p: Seq<char>| unescape(p))
}

pub(crate) proof fn lemma_escape_all_no_bare_sep(parts: Seq<Seq<char>>, sep: char)
    requires
        sep == ',' || sep == ';',
    ensures
        forall|i: int| 0 <= i < parts.len() ==> no_bare_sep(#[trigger] escape_all(parts)[i], sep),
{
    assert forall|i: int| 0 <= i < parts.len() implies no_bare_sep(
        #[trigger] escape_all(parts)[i],
        sep,
    ) by {
        lemma_escape_no_bare_sep(parts[i], sep);
    }
}

/// Unescaping each escaped piece gives the pieces back.
pub(crate) proof fn lemma_unescape_all_escape_all(parts: Seq<Seq<char>>)
    ensures
        unescape_all(escape_all(parts)) == parts,
{
    assert forall|i: int| 0 <= i < parts.len() implies unescape_all(escape_all(parts))[i]
        == parts[i] by {
        lemma_unescape_escape(parts[i]);
    }
    assert(unescape_all(escape_all(parts)) =~= parts);
}


/// Removes the escapes of `s` (see [`unescape`]).
pub fn unescape_text(s: &Vec<char>) -> (r: Vec<char>)
    ensures
        r@ == unescape(s@),
{
    let mut r: Vec<char> = Vec::new();
    let mut i: usize = 0;
    assert(s@.skip(0) =~= s@);
    assert(r@ + unescape(s@) =~= unescape(s@));
    while i < s.len()
        invariant
            i <= s@.len(),
            r@ + unescape(s@.skip(i as int)) == unescape(s@),
        decreases s@.len() - i,
    {
        let ghost rest = s@.skip(i as int);
        if s[i] == '\\' && i + 1 < s.len() {
            let c = s[i + 1];
            r.push(if c == 'n' || c == 'N' { '\n' } else { c });
            assert(rest.skip(2) =~= s@.skip(i + 2));
            i += 2;
        } else {
            r.push(s[i]);
            assert(rest.skip(1) =~= s@.skip(i + 1));
            i += 1;
        }
    }
    assert(s@.skip(i as int) =~= Seq::<char>::empty());
    assert(r@ + Seq::<char>::empty() =~= r@);
    r
}

/// Escapes `s` (see [`escape`]).
pub fn escape_text(s: &Vec<char>) -> (r: Vec<char>)
    ensures
        r@ == escape(s@),
{
    let mut r: Vec<char> = Vec::new();
    let mut i: usize = 0;
    assert(s@.skip(0) =~= s@);
    assert(r@ + escape(s@) =~= escape(s@));
    while i < s.len()
        invariant
            i <= s@.len(),
            r@ + escape(s@.skip(i as int)) == escape(s@),
        decreases s@.len() - i,
    {
        let c = s[i];
        let ghost before = r@;
        if c == '\\' || c == ',' || c == ';' {
            r.push('\\');
            r.push(c);
        } else if c == '\n' {
            r.push('\\');
            r.push('n');
        } else {
            r.push(c);
        }
        assert(r@ =~= before + escape_char(c));
        assert(s@.skip(i as int).skip(1) =~= s@.skip(i + 1));
        assert(r@ + escape(s@.skip(i + 1)) =~= before + escape(s@.skip(i as int)));
        i += 1;
    }
    assert(s@.skip(i as int) =~= Seq::<char>::empty());
    assert(r@ + Seq::<char>::empty() =~= r@);
    r
}

/// Splits `s` at each unescaped `sep` (see [`split_unescaped`]).
pub fn split_text(s: &Vec<char>, sep: char) -> (r: Vec<Vec<char>>)
    ensures
        r@.map_values(|p: Vec<char>| p@) == split_unescaped(s@, sep),
{
    let mut parts: Vec<Vec<char>> = Vec::new();
    let mut cur: Vec<char> = Vec::new();
    let mut i: usize = 0;
    proof {
        assert(s@.skip(0) =~= s@);
        lemma_split_nonempty(s@, sep);
        lemma_prepend_twice(Seq::empty(), Seq::empty(), split_unescaped(s@, sep));
        assert(parts@.map_values(|p: Vec<char>| p@) + split_unescaped(s@, sep) =~= split_unescaped(s@, sep));
    }
    while i < s.len()
        invariant
            i <= s@.len(),
            split_unescaped(s@, sep) == parts@.map_values(|p: Vec<char>| p@) + prepend_first(
                cur@,
                split_unescaped(s@.skip(i as int), sep),
            ),
        decreases s@.len() - i,
    {
        let ghost rest = s@.skip(i as int);
        let ghost pv = parts@.map_values(|p: Vec<char>| p@);
        if s[i] == '\\' && i + 1 < s.len() {
            let ghost x = split_unescaped(s@.skip(i + 2), sep);
            proof {
                lemma_split_nonempty(s@.skip(i + 2), sep);
                assert(rest.skip(2) =~= s@.skip(i + 2));
                assert(rest.take(2) =~= seq![s@[i as int], s@[i + 1]]);
                lemma_prepend_twice(cur@, rest.take(2), x);
                assert(cur@ + rest.take(2) =~= cur@.push(s@[i as int]).push(s@[i + 1]));
            }
            cur.push(s[i]);
            cur.push(s[i + 1]);
            i += 2;
        } else if s[i] == sep {
            let ghost x = split_unescaped(s@.skip(i + 1), sep);
            proof {
                assert(rest.skip(1) =~= s@.skip(i + 1));
                assert(pv + prepend_first(cur@, seq![Seq::<char>::empty()] + x) =~= pv.push(cur@)
                    + prepend_first(Seq::<char>::empty(), x)) by {
                    lemma_split_nonempty(s@.skip(i + 1), sep);
                    assert(prepend_first(Seq::<char>::empty(), x) =~= x);
                    assert(cur@ + Seq::<char>::empty() =~= cur@);
                }
            }
            parts.push(cur);
            cur = Vec::new();
            proof {
                assert(parts@.map_values(|p: Vec<char>| p@) =~= pv.push(parts@[parts@.len() - 1]@));
                lemma_split_nonempty(s@.skip(i + 1), sep);
                lemma_prepend_twice(Seq::empty(), Seq::empty(), x);
            }
            i += 1;
        } else {
            let ghost x = split_unescaped(s@.skip(i + 1), sep);
            proof {
                lemma_split_nonempty(s@.skip(i + 1), sep);
                assert(rest.skip(1) =~= s@.skip(i + 1));
                lemma_prepend_twice(cur@, seq![rest[0]], x);
                assert(cur@ + seq![rest[0]] =~= cur@.push(rest[0]));
            }
            cur.push(s[i]);
            i += 1;
        }
    }
    proof {
        assert(s@.skip(i as int) =~= Seq::<char>::empty());
        assert(prepend_first(cur@, seq![Seq::<char>::empty()]) =~= seq![cur@]);
    }
    let ghost pv = parts@.map_values(|p: Vec<char>| p@);
    parts.push(cur);
    assert(parts@.map_values(|p: Vec<char>| p@) =~= pv + seq![parts@[parts@.len() - 1]@]);
    parts
}


/// Joining one more piece adds a separator and the piece at the end.
pub(crate) proof fn lemma_join_push(parts: Seq<Seq<char>>, p: Seq<char>, sep: char)
    requires
        parts.len() >= 1,
    ensures
        join(parts.push(p), sep) == join(parts, sep) + seq![sep] + p,
    decreases parts.len(),
{
    let q = parts.push(p);
    if parts.len() == 1 {
        assert(q.skip(1) =~= seq![p]);
        assert(join(q.skip(1), sep) == p);
        assert(join(parts, sep) == parts[0]);
        assert(join(q, sep) =~= join(parts, sep) + seq![sep] + p);
    } else {
        assert(q.skip(1) =~= parts.skip(1).push(p));
        lemma_join_push(parts.skip(1), p, sep);
        assert(join(q, sep) =~= join(parts, sep) + seq![sep] + p);
    }
}

/// A join is empty only when it joins nothing or one empty piece.
pub(crate) proof fn lemma_join_empty(parts: Seq<Seq<char>>, sep: char)
    requires
        join(parts, sep).len() == 0,
    ensures
        parts.len() == 0 || (parts.len() == 1 && parts[0].len() == 0),
{
}

pub(crate) proof fn lemma_escape_len(s: Seq<char>)
    ensures
        escape(s).len() >= s.len(),
    decreases s.len(),
{
    if s.len() > 0 {
        lemma_escape_len(s.skip(1));
    }
}

/// Joins the pieces with `sep` between each two (see [`join`]).
pub fn join_pieces(parts: &Vec<Vec<char>>, sep: char) -> (r: Vec<char>)
    ensures
        r@ == join(parts@.map_values(|p: Vec<char>| p@), sep),
{
    let ghost v = parts@.map_values(|p: Vec<char>| p@);
    let mut r: Vec<char> = Vec::new();
    if parts.len() == 0 {
        return r;
    }
    append_chars(&mut r, &parts[0]);
    assert(v.take(1) =~= seq![v[0]]);
    let mut i: usize = 1;
    while i < parts.len()
        invariant
            1 <= i <= parts@.len(),
            v == parts@.map_values(|p: Vec<char>| p@),
            r@ == join(v.take(i as int), sep),
        decreases parts@.len() - i,
    {
        proof {
            lemma_join_push(v.take(i as int), v[i as int], sep);
            assert(v.take(i + 1) =~= v.take(i as int).push(v[i as int]));
        }
        r.push(sep);
        append_chars(&mut r, &parts[i]);
        i += 1;
    }
    assert(v.take(i as int) =~= v);
    r
}

} // verus!
