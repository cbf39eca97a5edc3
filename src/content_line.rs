//! The grammar of a content line: `[group "."] name *(";" param) ":" value`.
use vstd::prelude::*;

use crate::catalog::is_name_char;
use crate::text::{slice_chars, string_of};

verus! {

/// One logical line taken apart. `params` is the text between the first `;`
/// after the name and the colon that starts the value, without that `;`.
#[derive(Clone, Debug, PartialEq)]
pub struct ContentLine {
    pub group: Option<String>,
    pub name: String,
    pub params: Option<String>,
    pub value: String,
}

/// What a [`ContentLine`] holds, as sequences of characters.
pub struct ContentLineModel {
    pub group: Option<Seq<char>>,
    pub name: Seq<char>,
    pub params: Option<Seq<char>>,
    pub value: Seq<char>,
}

/// The characters of an optional string.
pub open spec fn opt_view(o: Option<String>) -> Option<Seq<char>> {
    match o {
        Some(s) => Some(s@),
        None => None,
    }
}

impl View for ContentLine {
    type V = ContentLineModel;

    open spec fn view(&self) -> ContentLineModel {
        ContentLineModel {
            group: opt_view(self.group),
            name: self.name@,
            params: opt_view(self.params),
            value: self.value@,
        }
    }
}

/// The end of the run of name characters that starts at `i`.
pub open spec fn name_run(s: Seq<char>, i: int) -> int
    decreases s.len() - i,
{
    if i < 0 || i >= s.len() || !is_name_char(s[i]) {
        i
    } else {
        name_run(s, i + 1)
    }
}

/// The index of the first `:` at or after `i` that stands outside double
/// quotes, `quoted` telling whether a quote is open at `i`; -1 where there is
/// none.
pub open spec fn colon_from(s: Seq<char>, i: int, quoted: bool) -> int
    decreases s.len() - i,
{
    if i < 0 || i >= s.len() {
        -1
    } else if s[i] == '"' {
        colon_from(s, i + 1, !quoted)
    } else if s[i] == ':' && !quoted {
        i
    } else {
        colon_from(s, i + 1, quoted)
    }
}

/// Where the name starts: after the group and its dot, where there is a group.
pub open spec fn name_start(s: Seq<char>) -> int {
    let a = name_run(s, 0);
    if 0 < a < s.len() && s[a] == '.' {
        a + 1
    } else {
        0
    }
}

/// The parts of the line `s`, or `None` where it does not follow the grammar:
/// an empty name, a name not followed by `;` or `:`, or no colon outside quotes.
pub open spec fn content_line_spec(s: Seq<char>) -> Option<ContentLineModel> {
    let ns = name_start(s);
    let ne = name_run(s, ns);
    let group = if ns > 0 {
        Some(s.take(ns - 1))
    } else {
        None
    };
    if ne == ns || ne >= s.len() {
        None
    } else if s[ne] == ':' {
        Some(
            ContentLineModel {
                group,
                name: s.subrange(ns, ne),
                params: None,
                value: s.skip(ne + 1),
            },
        )
    } else if s[ne] == ';' && colon_from(s, ne + 1, false) >= 0 {
        let c = colon_from(s, ne + 1, false);
        Some(
            ContentLineModel {
                group,
                name: s.subrange(ns, ne),
                params: Some(s.subrange(ne + 1, c)),
                value: s.skip(c + 1),
            },
        )
    } else {
        None
    }
}

proof fn lemma_name_run_bounds(s: Seq<char>, i: int)
    requires
        0 <= i <= s.len(),
    ensures
        i <= name_run(s, i) <= s.len(),
        forall|j: int| i <= j < name_run(s, i) ==> is_name_char(#[trigger] s[j]),
    decreases s.len() - i,
{
    if i < s.len() && is_name_char(s[i]) {
        lemma_name_run_bounds(s, i + 1);
    }
}

proof fn lemma_colon_bounds(s: Seq<char>, i: int, quoted: bool)
    requires
        0 <= i,
    ensures
        colon_from(s, i, quoted) == -1 || (i <= colon_from(s, i, quoted) < s.len() && s[colon_from(
            s,
            i,
            quoted,
        )] == ':'),
    decreases s.len() - i,
{
    if i < s.len() {
        lemma_colon_bounds(s, i + 1, quoted);
        lemma_colon_bounds(s, i + 1, !quoted);
    }
}

/// A line with no colon, or with an empty name, does not follow the grammar.
pub proof fn lemma_grammar_rejects(s: Seq<char>)
    requires
        (forall|i: int| 0 <= i < s.len() ==> s[i] != ':') || (s.len() > 0 && s[0] == ':'),
    ensures
        content_line_spec(s) is None,
{
    lemma_name_run_bounds(s, 0);
    let ns = name_start(s);
    lemma_name_run_bounds(s, ns);
    let ne = name_run(s, ns);
    if ne < s.len() && s[ne] == ';' {
        lemma_colon_bounds(s, ne + 1, false);
    }
}

/// The end of the run of name characters that starts at `i` (see [`name_run`]).
fn name_end(s: &Vec<char>, i: usize) -> (r: usize)
    requires
        i <= s@.len(),
    ensures
        r == name_run(s@, i as int),
{
    let mut j: usize = i;
    while j < s.len()
        invariant
            i <= j <= s@.len(),
            name_run(s@, i as int) == name_run(s@, j as int),
        decreases s@.len() - j,
    {
        let c = s[j];
        if !(('a' <= c && c <= 'z') || ('A' <= c && c <= 'Z') || ('0' <= c && c <= '9') || c
            == '-') {
            return j;
        }
        j += 1;
    }
    j
}

/// The first colon at or after `i` outside double quotes (see [`colon_from`]).
fn find_colon(s: &Vec<char>, i: usize) -> (r: Option<usize>)
    requires
        i <= s@.len(),
    ensures
        match r {
            Some(c) => colon_from(s@, i as int, false) == c,
            None => colon_from(s@, i as int, false) == -1,
        },
{
    let mut j: usize = i;
    let mut quoted = false;
    while j < s.len()
        invariant
            i <= j <= s@.len(),
            colon_from(s@, i as int, false) == colon_from(s@, j as int, quoted),
        decreases s@.len() - j,
    {
        if s[j] == '"' {
            quoted = !quoted;
        } else if s[j] == ':' && !quoted {
            return Some(j);
        }
        j += 1;
    }
    None
}

/// Takes the logical line `s` apart; `None` where it does not follow the
/// grammar (see [`content_line_spec`]).
pub fn parse_content_line(s: &Vec<char>) -> (r: Option<ContentLine>)
    ensures
        match r {
            Some(c) => content_line_spec(s@) == Some(c@),
            None => content_line_spec(s@) is None,
        },
{
    proof {
        lemma_name_run_bounds(s@, 0);
    }
    let a = name_end(s, 0);
    let ns: usize = if 0 < a && a < s.len() && s[a] == '.' {
        a + 1
    } else {
        0
    };
    proof {
        lemma_name_run_bounds(s@, ns as int);
    }
    let ne = name_end(s, ns);
    if ne == ns || ne >= s.len() {
        return None;
    }
    let group = if ns > 0 {
        Some(string_of(&slice_chars(s, 0, ns - 1)))
    } else {
        None
    };
    let name = string_of(&slice_chars(s, ns, ne));
    if s[ne] == ':' {
        let value = string_of(&slice_chars(s, ne + 1, s.len()));
        let r = ContentLine { group, name, params: None, value };
        proof {
            assert(s@.take(ns - 1) =~= s@.subrange(0, ns - 1));
            assert(s@.skip(ne + 1) =~= s@.subrange(ne + 1, s@.len() as int));
        }
        Some(r)
    } else if s[ne] == ';' {
        match find_colon(s, ne + 1) {
            Some(c) => {
                proof {
                    lemma_colon_bounds(s@, ne + 1, false);
                    assert(s@.take(ns - 1) =~= s@.subrange(0, ns - 1));
                    assert(s@.skip(c + 1) =~= s@.subrange(c + 1, s@.len() as int));
                }
                let params = string_of(&slice_chars(s, ne + 1, c));
                let value = string_of(&slice_chars(s, c + 1, s.len()));
                Some(ContentLine { group, name, params: Some(params), value })
            },
            None => None,
        }
    } else {
        None
    }
}

} // verus!
