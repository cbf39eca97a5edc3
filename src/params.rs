//! Parameters of a content line: `name "=" value *("," value)`, separated by
//! `;`, where a value may be double-quoted to hold `:`, `;` or `,`.
use vstd::prelude::*;

use crate::catalog::{is_name, is_name_text};
use crate::escape::{lemma_prepend_twice, prepend_first};
use crate::text::{slice_chars, string_of};
use crate::value::strs;

verus! {

/// A parameter: its name as written and its values, unquoted, in order.
#[derive(Clone, Debug, PartialEq)]
pub struct Parameter {
    pub name: String,
    pub values: Vec<String>,
}

/// What a [`Parameter`] holds, as sequences of characters.
pub struct ParameterModel {
    pub name: Seq<char>,
    pub values: Seq<Seq<char>>,
}

impl View for Parameter {
    type V = ParameterModel;

    open spec fn view(&self) -> ParameterModel {
        ParameterModel { name: self.name@, values: strs(self.values@) }
    }
}

/// The parameters, each as a model.
pub open spec fn params_view(v: Seq<Parameter>) -> Seq<ParameterModel> {
    v.map_values(|p: Parameter| p@)
}

/// Splits `s` at each `sep` outside double quotes, `quoted` telling whether a
/// quote is open at the start. The pieces keep their quotes.
pub open spec fn split_quoted(s: Seq<char>, sep: char, quoted: bool) -> Seq<Seq<char>>
    decreases s.len(),
{
    if s.len() == 0 {
        seq![Seq::empty()]
    } else if s[0] == '"' {
        prepend_first(seq![s[0]], split_quoted(s.skip(1), sep, !quoted))
    } else if s[0] == sep && !quoted {
        seq![Seq::<char>::empty()] + split_quoted(s.skip(1), sep, quoted)
    } else {
        prepend_first(seq![s[0]], split_quoted(s.skip(1), sep, quoted))
    }
}

/// Whether `s` holds a double quote.
pub open spec fn has_quote(s: Seq<char>) -> bool {
    exists|i: int| 0 <= i < s.len() && s[i] == '"'
}

/// A parameter value with its quotes taken off, or `None` where its quotes
/// are not one pair around the whole value.
pub open spec fn param_value_spec(v: Seq<char>) -> Option<Seq<char>> {
    if v.len() >= 2 && v[0] == '"' && v[v.len() - 1] == '"' && !has_quote(
        v.subrange(1, v.len() - 1),
    ) {
        Some(v.subrange(1, v.len() - 1))
    } else if !has_quote(v) {
        Some(v)
    } else {
        None
    }
}

/// The index of the first `=` in `s` at or after `i`, or -1.
pub open spec fn first_eq(s: Seq<char>, i: int) -> int
    decreases s.len() - i,
{
    if i < 0 || i >= s.len() {
        -1
    } else if s[i] == '=' {
        i
    } else {
        first_eq(s, i + 1)
    }
}

/// One parameter, or `None` where it has no `=`, its name is no name,
/// nothing follows its `=`, or a value is badly quoted.
pub open spec fn param_spec(p: Seq<char>) -> Option<ParameterModel> {
    let e = first_eq(p, 0);
    let vals = split_quoted(p.skip(e + 1), ',', false);
    if e < 0 || !is_name(p.take(e)) || e + 1 >= p.len() {
        None
    } else if forall|i: int| 0 <= i < vals.len() ==> (#[trigger] param_value_spec(vals[i])) is Some {
        Some(
            ParameterModel {
                name: p.take(e),
                values: vals.map_values(|v: Seq<char>| param_value_spec(v)->Some_0),
            },
        )
    } else {
        None
    }
}

/// The parameters of the text `raw`, or `None` where one of them is malformed.
pub open spec fn params_spec(raw: Seq<char>) -> Option<Seq<ParameterModel>> {
    let ps = split_quoted(raw, ';', false);
    if forall|i: int| 0 <= i < ps.len() ==> (#[trigger] param_spec(ps[i])) is Some {
        Some(ps.map_values(|p: Seq<char>| param_spec(p)->Some_0))
    } else {
        None
    }
}

pub(crate) proof fn lemma_split_quoted_nonempty(s: Seq<char>, sep: char, quoted: bool)
    ensures
        split_quoted(s, sep, quoted).len() >= 1,
    decreases s.len(),
{
    if s.len() > 0 {
        lemma_split_quoted_nonempty(s.skip(1), sep, !quoted);
        lemma_split_quoted_nonempty(s.skip(1), sep, quoted);
    }
}

/// Splits `s` at each `sep` outside double quotes (see [`split_quoted`]).
pub fn split_quoted_text(s: &Vec<char>, sep: char) -> (r: Vec<Vec<char>>)
    requires
        sep != '"',
    ensures
        r@.map_values(|p: Vec<char>| p@) == split_quoted(s@, sep, false),
{
    let mut parts: Vec<Vec<char>> = Vec::new();
    let mut cur: Vec<char> = Vec::new();
    let mut quoted = false;
    let mut i: usize = 0;
    proof {
        assert(s@.skip(0) =~= s@);
        lemma_split_quoted_nonempty(s@, sep, false);
        lemma_prepend_twice(Seq::empty(), Seq::empty(), split_quoted(s@, sep, false));
        assert(parts@.map_values(|p: Vec<char>| p@) + split_quoted(s@, sep, false)
            =~= split_quoted(s@, sep, false));
    }
    while i < s.len()
        invariant
            i <= s@.len(),
            sep != '"',
            split_quoted(s@, sep, false) == parts@.map_values(|p: Vec<char>| p@) + prepend_first(
                cur@,
                split_quoted(s@.skip(i as int), sep, quoted),
            ),
        decreases s@.len() - i,
    {
        let ghost rest = s@.skip(i as int);
        let ghost pv = parts@.map_values(|p: Vec<char>| p@);
        proof {
            assert(rest.skip(1) =~= s@.skip(i + 1));
            assert(rest.len() > 0 && rest[0] == s@[i as int]);
        }
        if s[i] == sep && !quoted {
            let ghost x = split_quoted(s@.skip(i + 1), sep, quoted);
            proof {
                lemma_split_quoted_nonempty(s@.skip(i + 1), sep, quoted);
                lemma_prepend_twice(Seq::empty(), Seq::empty(), x);
                assert(prepend_first(cur@, seq![Seq::<char>::empty()] + x) =~= seq![cur@] + x);
                assert(split_quoted(rest, sep, quoted) == seq![Seq::<char>::empty()] + x);
            }
            parts.push(cur);
            cur = Vec::new();
            assert(parts@.map_values(|p: Vec<char>| p@) =~= pv.push(parts@[parts@.len() - 1]@));
        } else {
            let q = if s[i] == '"' {
                !quoted
            } else {
                quoted
            };
            let ghost x = split_quoted(s@.skip(i + 1), sep, q);
            proof {
                lemma_split_quoted_nonempty(s@.skip(i + 1), sep, q);
                lemma_prepend_twice(cur@, seq![rest[0]], x);
                assert(cur@ + seq![rest[0]] =~= cur@.push(rest[0]));
                assert(split_quoted(rest, sep, quoted) == prepend_first(seq![rest[0]], x));
            }
            cur.push(s[i]);
            quoted = q;
        }
        i += 1;
    }
    proof {
        assert(s@.skip(i as int) =~= Seq::<char>::empty());
        assert(prepend_first(cur@, seq![Seq::<char>::empty()]) =~= seq![cur@]);
    }
    let ghost pv = parts@.map_values(|p: Vec<char>| p@);
    parts.push(cur);
    assert(parts@.map_values(|p: Vec<char>| p@) =~= pv + seq![parts@[parts@.len() - 1]@]);
    parts
}


/// Whether the characters of `s` from `a` up to `b` hold a double quote.
fn quote_between(s: &Vec<char>, a: usize, b: usize) -> (r: bool)
    requires
        a <= b <= s@.len(),
    ensures
        r == has_quote(s@.subrange(a as int, b as int)),
{
    let mut i: usize = a;
    while i < b
        invariant
            a <= i <= b,
            b <= s@.len(),
            forall|j: int| a <= j < i ==> s@[j] != '"',
        decreases b - i,
    {
        if s[i] == '"' {
            assert(s@.subrange(a as int, b as int)[i - a] == '"');
            return true;
        }
        i += 1;
    }
    assert forall|j: int| 0 <= j < b - a implies s@.subrange(a as int, b as int)[j] != '"' by {
        assert(s@.subrange(a as int, b as int)[j] == s@[a + j]);
    }
    false
}

/// A parameter value with its quotes taken off (see [`param_value_spec`]).
fn param_value(v: &Vec<char>) -> (r: Option<String>)
    ensures
        match r {
            Some(t) => param_value_spec(v@) == Some(t@),
            None => param_value_spec(v@) is None,
        },
{
    let n = v.len();
    if n >= 2 && v[0] == '"' && v[n - 1] == '"' && !quote_between(v, 1, n - 1) {
        Some(string_of(&slice_chars(v, 1, n - 1)))
    } else if !quote_between(v, 0, n) {
        assert(v@.subrange(0, n as int) =~= v@);
        Some(string_of(v))
    } else {
        assert(v@.subrange(0, n as int) =~= v@);
        None
    }
}

/// The index of the first `=` in `s` (see [`first_eq`]).
fn find_eq(s: &Vec<char>) -> (r: Option<usize>)
    ensures
        match r {
            Some(e) => first_eq(s@, 0) == e && e < s@.len() && s@[e as int] == '=',
            None => first_eq(s@, 0) == -1,
        },
{
    let mut i: usize = 0;
    while i < s.len()
        invariant
            i <= s@.len(),
            first_eq(s@, 0) == first_eq(s@, i as int),
        decreases s@.len() - i,
    {
        if s[i] == '=' {
            return Some(i);
        }
        i += 1;
    }
    None
}

/// One parameter (see [`param_spec`]).
pub fn decode_param(p: &Vec<char>) -> (r: Option<Parameter>)
    ensures
        match r {
            Some(q) => param_spec(p@) == Some(q@),
            None => param_spec(p@) is None,
        },
{
    let found = find_eq(p);
    if found.is_none() {
        return None;
    }
    let e = found.unwrap();
    assert(e < p@.len());
    let name = slice_chars(p, 0, e);
    assert(name@ =~= p@.take(e as int));
    if !is_name_text(&name) {
        return None;
    }
    let n = p.len();
    if e + 1 >= n {
        return None;
    }
    let rest = slice_chars(p, e + 1, n);
    assert(rest@ =~= p@.skip(e + 1));
    let vals = split_quoted_text(&rest, ',');
    let ghost vv = vals@.map_values(|x: Vec<char>| x@);
    assert(vv == split_quoted(p@.skip(first_eq(p@, 0) + 1), ',', false));
    let mut values: Vec<String> = Vec::new();
    let mut i: usize = 0;
    while i < vals.len()
        invariant
            i <= vals@.len(),
            vv == vals@.map_values(|x: Vec<char>| x@),
            vv == split_quoted(p@.skip(e + 1), ',', false),
            e == first_eq(p@, 0),
            is_name(p@.take(e as int)),
            e + 1 < p@.len(),
            values@.len() == i,
            forall|j: int| 0 <= j < i ==> (#[trigger] param_value_spec(vv[j])) is Some,
            strs(values@) == vv.take(i as int).map_values(
                |v: Seq<char>| param_value_spec(v)->Some_0,
            ),
        decreases vals@.len() - i,
    {
        match param_value(&vals[i]) {
            Some(t) => {
                let ghost before = strs(values@);
                values.push(t);
                assert forall|j: int| 0 <= j <= i implies #[trigger] strs(values@)[j]
                    == vv.take(i + 1).map_values(|v: Seq<char>| param_value_spec(v)->Some_0)[j] by {
                    if j < i {
                        assert(before[j] == vv.take(i as int).map_values(
                            |v: Seq<char>| param_value_spec(v)->Some_0,
                        )[j]);
                    }
                }
                assert(strs(values@) =~= vv.take(i + 1).map_values(
                    |v: Seq<char>| param_value_spec(v)->Some_0,
                ));
            },
            None => {
                assert(param_value_spec(vv[i as int]) is None);
                return None;
            },
        }
        i += 1;
    }
    assert(vv.take(i as int) =~= vv);
    Some(Parameter { name: string_of(&name), values })
}

/// The parameters of the text `raw`, in order, repeats kept; `None` where one
/// of them is malformed (see [`params_spec`]).
pub fn decode_params(raw: &Vec<char>) -> (r: Option<Vec<Parameter>>)
    ensures
        match r {
            Some(ps) => params_spec(raw@) == Some(params_view(ps@)),
            None => params_spec(raw@) is None,
        },
{
    let pieces = split_quoted_text(raw, ';');
    let ghost pv = pieces@.map_values(|x: Vec<char>| x@);
    let mut r: Vec<Parameter> = Vec::new();
    let mut i: usize = 0;
    while i < pieces.len()
        invariant
            i <= pieces@.len(),
            pv == pieces@.map_values(|x: Vec<char>| x@),
            pv == split_quoted(raw@, ';', false),
            r@.len() == i,
            forall|j: int| 0 <= j < i ==> (#[trigger] param_spec(pv[j])) is Some,
            params_view(r@) == pv.take(i as int).map_values(|p: Seq<char>| param_spec(p)->Some_0),
        decreases pieces@.len() - i,
    {
        match decode_param(&pieces[i]) {
            Some(q) => {
                let ghost before = params_view(r@);
                r.push(q);
                assert forall|j: int| 0 <= j <= i implies #[trigger] params_view(r@)[j]
                    == pv.take(i + 1).map_values(|p: Seq<char>| param_spec(p)->Some_0)[j] by {
                    if j < i {
                        assert(before[j] == pv.take(i as int).map_values(
                            |p: Seq<char>| param_spec(p)->Some_0,
                        )[j]);
                    }
                }
                assert(params_view(r@) =~= pv.take(i + 1).map_values(
                    |p: Seq<char>| param_spec(p)->Some_0,
                ));
            },
            None => {
                assert(param_spec(pv[i as int]) is None);
                return None;
            },
        }
        i += 1;
    }
    assert(pv.take(i as int) =~= pv);
    Some(r)
}

} // verus!
