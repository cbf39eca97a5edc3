//! Writing a card back as vCard 4.0 text.
use vstd::prelude::*;

use crate::content_line::opt_view;
use crate::document::{physical_lines, props_view, raw_lines, strip_cr, VCard};
use crate::escape::{join, join_pieces};
use crate::fold::{
    chunk_len, fold_line, fold_rest, fold_spec, is_continuation, lemma_fitting_bound,
    lemma_unfold_fold, unfold_spec, MAX_OCTETS,
};
use crate::params::{params_view, Parameter, ParameterModel};
use crate::property::{Property, PropertyModel};
use crate::text::{append_chars, chars_of, string_of};
use crate::value::{encode_spec, encode_value};

verus! {

/// Whether a parameter value holds a character that only quotes protect.
pub open spec fn needs_quotes(v: Seq<char>) -> bool {
    exists|i: int| 0 <= i < v.len() && (v[i] == ':' || v[i] == ';' || v[i] == ',')
}

/// A parameter value as written: quoted where it needs quotes.
pub open spec fn param_value_text(v: Seq<char>) -> Seq<char> {
    if needs_quotes(v) {
        seq!['"'] + v + seq!['"']
    } else {
        v
    }
}

/// A parameter as written: `name=value,value`.
pub open spec fn param_text(p: ParameterModel) -> Seq<char> {
    p.name + seq!['='] + join(p.values.map_values(|v: Seq<char>| param_value_text(v)), ',')
}

/// The parameters as written, each after a `;`.
pub open spec fn params_text(ps: Seq<ParameterModel>) -> Seq<char>
    decreases ps.len(),
{
    if ps.len() == 0 {
        Seq::empty()
    } else {
        params_text(ps.drop_last()) + seq![';'] + param_text(ps.last())
    }
}

/// The group and its dot, where there is a group.
pub open spec fn group_prefix(g: Option<Seq<char>>) -> Seq<char> {
    match g {
        Some(g) => g + seq!['.'],
        None => Seq::empty(),
    }
}

/// The logical line of a property.
pub open spec fn content_text(p: PropertyModel) -> Seq<char> {
    group_prefix(p.group) + p.name + params_text(p.params) + seq![':'] + encode_spec(p.value)
}

/// The physical lines of the properties, in order.
pub open spec fn body_lines(ps: Seq<PropertyModel>) -> Seq<Seq<char>>
    decreases ps.len(),
{
    if ps.len() == 0 {
        Seq::empty()
    } else {
        body_lines(ps.drop_last()) + fold_spec(content_text(ps.last()))
    }
}

/// The physical lines of a card with the properties `ps`.
pub open spec fn card_lines(ps: Seq<PropertyModel>) -> Seq<Seq<char>> {
    seq!["BEGIN:VCARD"@] + body_lines(ps) + seq!["END:VCARD"@]
}

/// The lines, each ended by a carriage return and a line feed.
pub open spec fn crlf_text(ls: Seq<Seq<char>>) -> Seq<char>
    decreases ls.len(),
{
    if ls.len() == 0 {
        Seq::empty()
    } else {
        crlf_text(ls.drop_last()) + ls.last() + seq!['\r', '\n']
    }
}

/// The text of a card with the properties `ps`.
pub open spec fn serialize_spec(ps: Seq<PropertyModel>) -> Seq<char> {
    crlf_text(card_lines(ps))
}

/// Whether `s` holds no line feed.
pub open spec fn no_lf(s: Seq<char>) -> bool {
    forall|j: int| 0 <= j < s.len() ==> s[j] != '\n'
}

proof fn lemma_raw_lines_append(t: Seq<char>, s: Seq<char>)
    requires
        no_lf(s),
    ensures
        raw_lines(t + s) == raw_lines(t).update(
            raw_lines(t).len() - 1,
            raw_lines(t).last() + s,
        ),
    decreases s.len(),
{
    crate::document::lemma_raw_lines_nonempty(t);
    let p = raw_lines(t);
    if s.len() == 0 {
        assert(t + s =~= t);
        assert(p.last() + s =~= p.last());
        assert(p.update(p.len() - 1, p.last()) =~= p);
    } else {
        let s2 = s.drop_last();
        assert(no_lf(s2)) by {
            assert forall|j: int| 0 <= j < s2.len() implies s2[j] != '\n' by {
                assert(s2[j] == s[j]);
            }
        }
        assert(s.last() != '\n');
        lemma_raw_lines_append(t, s2);
        let q = raw_lines(t + s2);
        assert(q == p.update(p.len() - 1, p.last() + s2));
        assert(q.len() == p.len());
        assert(q.last() == p.last() + s2);
        let u = t + s;
        assert(u.len() > 0);
        assert(u.drop_last() =~= t + s2);
        assert(u.last() == s.last());
        assert(u.last() != '\n');
        assert(raw_lines(u.drop_last()) == q);
        assert(raw_lines(u) == q.update(q.len() - 1, q.last().push(u.last())));
        assert((p.last() + s2).push(s.last()) =~= p.last() + s);
        assert((t + s).drop_last() =~= t + s2);
        assert((t + s).last() == s.last());
        assert(p.last() + s2 + seq![s.last()] =~= p.last() + s);
        assert(raw_lines(t + s) =~= p.update(p.len() - 1, p.last() + s));
    }
}

proof fn lemma_raw_lines_crlf(ls: Seq<Seq<char>>)
    requires
        forall|i: int| 0 <= i < ls.len() ==> no_lf(#[trigger] ls[i]),
    ensures
        raw_lines(crlf_text(ls)) == ls.map_values(|l: Seq<char>| l.push('\r')).push(Seq::empty()),
    decreases ls.len(),
{
    if ls.len() == 0 {
        assert(raw_lines(Seq::empty()) =~= seq![Seq::<char>::empty()]);
        assert(ls.map_values(|l: Seq<char>| l.push('\r')).push(Seq::empty()) =~= seq![
            Seq::<char>::empty(),
        ]);
    } else {
        let rest = ls.drop_last();
        let l = ls.last();
        assert forall|i: int| 0 <= i < rest.len() implies no_lf(#[trigger] rest[i]) by {
            assert(rest[i] == ls[i]);
        }
        lemma_raw_lines_crlf(rest);
        let c = l.push('\r');
        assert(no_lf(c));
        let t = crlf_text(rest);
        assert(crlf_text(ls) =~= (t + c) + seq!['\n']);
        assert((t + c + seq!['\n']).drop_last() =~= t + c);
        lemma_raw_lines_append(t, c);
        let p = raw_lines(t);
        assert(p.last() + c =~= c);
        assert(raw_lines(crlf_text(ls)) =~= ls.map_values(|l: Seq<char>| l.push('\r')).push(
            Seq::empty(),
        ));
    }
}

/// Lines with no line feed, written each with CRLF, are split back into the
/// same lines.
pub proof fn lemma_physical_lines_crlf(ls: Seq<Seq<char>>)
    requires
        forall|i: int| 0 <= i < ls.len() ==> no_lf(#[trigger] ls[i]),
    ensures
        physical_lines(crlf_text(ls)) == ls,
{
    lemma_raw_lines_crlf(ls);
    let m = ls.map_values(|l: Seq<char>| l.push('\r'));
    assert(m.push(Seq::empty()).drop_last() =~= m);
    assert forall|i: int| 0 <= i < ls.len() implies strip_cr(m[i]) == ls[i] by {
        assert(m[i].drop_last() =~= ls[i]);
    }
    assert(m.map_values(|l: Seq<char>| strip_cr(l)) =~= ls);
}

proof fn lemma_fold_rest_no_lf(s: Seq<char>)
    requires
        no_lf(s),
    ensures
        forall|i: int| 0 <= i < fold_rest(s).len() ==> no_lf(#[trigger] fold_rest(s)[i]),
    decreases s.len(),
{
    if s.len() > 0 {
        let k = chunk_len(s, MAX_OCTETS - 1);
        if k > 0 && k <= s.len() {
            assert(no_lf(s.skip(k as int))) by {
                assert forall|j: int| 0 <= j < s.skip(k as int).len() implies s.skip(
                    k as int,
                )[j] != '\n' by {
                    assert(s.skip(k as int)[j] == s[j + k]);
                }
            }
            lemma_fold_rest_no_lf(s.skip(k as int));
            let x = seq![' '] + s.take(k as int);
            assert(no_lf(x)) by {
                assert forall|j: int| 0 <= j < x.len() implies x[j] != '\n' by {
                    if j > 0 {
                        assert(x[j] == s[j - 1]);
                    }
                }
            }
            assert forall|i: int| 0 <= i < fold_rest(s).len() implies no_lf(
                #[trigger] fold_rest(s)[i],
            ) by {
                if i > 0 {
                    assert(fold_rest(s)[i] == fold_rest(s.skip(k as int))[i - 1]);
                }
            }
        }
    }
}

/// Folding a logical line with no line feed, writing its physical lines each
/// with CRLF, and unfolding that text gives the line back, where the line
/// does not itself start as a continuation would.
pub proof fn lemma_text_unfold_fold(l: Seq<char>)
    requires
        no_lf(l),
        !is_continuation(l),
    ensures
        unfold_spec(physical_lines(crlf_text(fold_spec(l)))) == Some(seq![l]),
{
    lemma_fitting_bound(l, MAX_OCTETS as int);
    let k = chunk_len(l, MAX_OCTETS as int);
    let first = l.take(k as int);
    assert(no_lf(l.skip(k as int))) by {
        assert forall|j: int| 0 <= j < l.skip(k as int).len() implies l.skip(k as int)[j]
            != '\n' by {
            assert(l.skip(k as int)[j] == l[j + k]);
        }
    }
    lemma_fold_rest_no_lf(l.skip(k as int));
    let f = fold_spec(l);
    assert forall|i: int| 0 <= i < f.len() implies no_lf(#[trigger] f[i]) by {
        if i > 0 {
            assert(f[i] == fold_rest(l.skip(k as int))[i - 1]);
        } else {
            assert forall|j: int| 0 <= j < first.len() implies first[j] != '\n' by {
                assert(first[j] == l[j]);
            }
        }
    }
    lemma_physical_lines_crlf(f);
    lemma_unfold_fold(l);
}

/// A parameter value as written (see [`param_value_text`]).
fn write_param_value(v: &String) -> (r: Vec<char>)
    ensures
        r@ == param_value_text(v@),
{
    let c = chars_of(v.as_str());
    let mut i: usize = 0;
    let mut quote = false;
    while i < c.len()
        invariant
            i <= c@.len(),
            c@ == v@,
            quote == exists|j: int| 0 <= j < i && (c@[j] == ':' || c@[j] == ';' || c@[j] == ','),
        decreases c@.len() - i,
    {
        if c[i] == ':' || c[i] == ';' || c[i] == ',' {
            quote = true;
        }
        i += 1;
    }
    if quote {
        let mut r: Vec<char> = Vec::new();
        r.push('"');
        append_chars(&mut r, &c);
        r.push('"');
        assert(r@ =~= seq!['"'] + v@ + seq!['"']);
        r
    } else {
        c
    }
}

/// A parameter as written (see [`param_text`]).
fn write_param(p: &Parameter) -> (r: Vec<char>)
    ensures
        r@ == param_text(p@),
{
    let ghost vs = p@.values;
    let mut pieces: Vec<Vec<char>> = Vec::new();
    let mut i: usize = 0;
    while i < p.values.len()
        invariant
            i <= p.values@.len(),
            vs == p@.values,
            pieces@.len() == i,
            forall|j: int| 0 <= j < i ==> (#[trigger] pieces@[j])@ == param_value_text(vs[j]),
        decreases p.values@.len() - i,
    {
        pieces.push(write_param_value(&p.values[i]));
        i += 1;
    }
    assert(pieces@.map_values(|x: Vec<char>| x@) =~= vs.map_values(
        |v: Seq<char>| param_value_text(v),
    ));
    let mut r = chars_of(p.name.as_str());
    r.push('=');
    append_chars(&mut r, &join_pieces(&pieces, ','));
    r
}

/// The logical line of a property (see [`content_text`]).
pub fn write_content_line(p: &Property) -> (r: Vec<char>)
    ensures
        r@ == content_text(p@),
{
    let mut r: Vec<char> = Vec::new();
    match &p.group {
        Some(g) => {
            append_chars(&mut r, &chars_of(g.as_str()));
            r.push('.');
        },
        None => {},
    }
    assert(r@ =~= group_prefix(opt_view(p.group)));
    append_chars(&mut r, &chars_of(p.name.as_str()));
    let ghost ps = params_view(p.params@);
    let ghost start = r@;
    let mut i: usize = 0;
    assert(ps.take(0) =~= Seq::<ParameterModel>::empty());
    assert(start + params_text(ps.take(0)) =~= start);
    while i < p.params.len()
        invariant
            i <= p.params@.len(),
            ps == params_view(p.params@),
            r@ == start + params_text(ps.take(i as int)),
        decreases p.params@.len() - i,
    {
        r.push(';');
        append_chars(&mut r, &write_param(&p.params[i]));
        assert(ps.take(i + 1).drop_last() =~= ps.take(i as int));
        assert(ps.take(i + 1).last() == p.params@[i as int]@);
        assert(r@ =~= start + params_text(ps.take(i + 1)));
        i += 1;
    }
    assert(ps.take(i as int) =~= ps);
    r.push(':');
    append_chars(&mut r, &encode_value(&p.value));
    assert(r@ =~= content_text(p@));
    r
}

/// Appends the lines to `out`, each ended by a carriage return and a line feed.
fn push_crlf_lines(out: &mut Vec<char>, ls: &Vec<Vec<char>>)
    ensures
        final(out)@ == old(out)@ + crlf_text(ls@.map_values(|x: Vec<char>| x@)),
    decreases ls@.len(),
{
    let ghost v = ls@.map_values(|x: Vec<char>| x@);
    let ghost start = out@;
    let mut i: usize = 0;
    assert(v.take(0) =~= Seq::<Seq<char>>::empty());
    assert(start + crlf_text(v.take(0)) =~= start);
    while i < ls.len()
        invariant
            i <= ls@.len(),
            v == ls@.map_values(|x: Vec<char>| x@),
            out@ == start + crlf_text(v.take(i as int)),
        decreases ls@.len() - i,
    {
        append_chars(out, &ls[i]);
        out.push('\r');
        out.push('\n');
        assert(v.take(i + 1).drop_last() =~= v.take(i as int));
        assert(v.take(i + 1).last() == ls@[i as int]@);
        assert(out@ =~= start + crlf_text(v.take(i + 1)));
        i += 1;
    }
    assert(v.take(i as int) =~= v);
}

proof fn lemma_crlf_concat(a: Seq<Seq<char>>, b: Seq<Seq<char>>)
    ensures
        crlf_text(a + b) == crlf_text(a) + crlf_text(b),
    decreases b.len(),
{
    if b.len() == 0 {
        assert(a + b =~= a);
        assert(crlf_text(a) + crlf_text(b) =~= crlf_text(a));
    } else {
        lemma_crlf_concat(a, b.drop_last());
        assert((a + b).drop_last() =~= a + b.drop_last());
        assert(crlf_text(a + b) =~= crlf_text(a) + crlf_text(b));
    }
}

impl VCard {
    /// The text of the card (see [`serialize_spec`]): `BEGIN:VCARD`, each
    /// property in order, folded, and `END:VCARD`, each line ended by CRLF.
    pub fn serialize(&self) -> (r: String)
        ensures
            r@ == serialize_spec(props_view(self.properties@)),
    {
        let ghost ps = props_view(self.properties@);
        let mut out: Vec<char> = Vec::new();
        let mut begin: Vec<Vec<char>> = Vec::new();
        begin.push(chars_of("BEGIN:VCARD"));
        push_crlf_lines(&mut out, &begin);
        assert(begin@.map_values(|x: Vec<char>| x@) =~= seq!["BEGIN:VCARD"@]);
        let ghost head = out@;
        let mut i: usize = 0;
        assert(ps.take(0) =~= Seq::<PropertyModel>::empty());
        assert(head + crlf_text(body_lines(ps.take(0))) =~= head);
        while i < self.properties.len()
            invariant
                i <= self.properties@.len(),
                ps == props_view(self.properties@),
                out@ == head + crlf_text(body_lines(ps.take(i as int))),
            decreases self.properties@.len() - i,
        {
            let folded = fold_line(&write_content_line(&self.properties[i]));
            push_crlf_lines(&mut out, &folded);
            proof {
                assert(ps.take(i + 1).drop_last() =~= ps.take(i as int));
                assert(ps.take(i + 1).last() == self.properties@[i as int]@);
                lemma_crlf_concat(body_lines(ps.take(i as int)), fold_spec(
                    content_text(ps[i as int]),
                ));
            }
            assert(out@ =~= head + crlf_text(body_lines(ps.take(i + 1))));
            i += 1;
        }
        assert(ps.take(i as int) =~= ps);
        let mut end: Vec<Vec<char>> = Vec::new();
        end.push(chars_of("END:VCARD"));
        push_crlf_lines(&mut out, &end);
        assert(end@.map_values(|x: Vec<char>| x@) =~= seq!["END:VCARD"@]);
        proof {
            lemma_crlf_concat(seq!["BEGIN:VCARD"@], body_lines(ps));
            lemma_crlf_concat(seq!["BEGIN:VCARD"@] + body_lines(ps), seq!["END:VCARD"@]);
        }
        assert(out@ =~= serialize_spec(ps));
        string_of(&out)
    }
}

} // verus!
