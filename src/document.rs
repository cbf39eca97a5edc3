//! Cards: the envelope, the cardinality of each property type, and the
//! parse of a whole text.
use vstd::prelude::*;

use crate::catalog::{
    cardinality_of, opt_type_view, type_of_name, Cardinality, PropertyType, PropertyTypeModel,
};
use crate::content_line::{content_line_spec, parse_content_line};
use crate::error::{ErrorKind, ParserError};
use crate::fold::{unfold_lines, unfold_spec};
use crate::property::{assemble, assemble_spec, Property, PropertyModel};
use crate::text::{chars_of, same_chars, string_of, upper, upper_is};
use crate::value::{ValueModel, ValueType};

verus! {

/// The lines of a text as it is split at each line feed.
pub open spec fn raw_lines(t: Seq<char>) -> Seq<Seq<char>>
    decreases t.len(),
{
    if t.len() == 0 {
        seq![Seq::empty()]
    } else {
        let p = raw_lines(t.drop_last());
        if t.last() == '\n' {
            p.push(Seq::empty())
        } else {
            p.update(p.len() - 1, p.last().push(t.last()))
        }
    }
}

/// A line without the carriage return that may end it.
pub open spec fn strip_cr(l: Seq<char>) -> Seq<char> {
    if l.len() > 0 && l.last() == '\r' {
        l.drop_last()
    } else {
        l
    }
}

/// The physical lines of a text: lines end at a line feed, with or without a
/// carriage return before it; a final line break ends the last line and
/// starts no new one.
pub open spec fn physical_lines(t: Seq<char>) -> Seq<Seq<char>> {
    let p = raw_lines(t);
    let q = if p.len() > 0 && p.last().len() == 0 {
        p.drop_last()
    } else {
        p
    };
    q.map_values(|l: Seq<char>| strip_cr(l))
}

/// The properties, each as a model.
pub open spec fn props_view(v: Seq<Property>) -> Seq<PropertyModel> {
    v.map_values(|p: Property| p@)
}

/// How many of the properties have type `t`.
pub open spec fn count_type(ps: Seq<PropertyModel>, t: PropertyTypeModel) -> nat
    decreases ps.len(),
{
    if ps.len() == 0 {
        0
    } else {
        count_type(ps.drop_last(), t) + if ps.last().ptype == t {
            1nat
        } else {
            0nat
        }
    }
}

/// Whether `n` occurrences meet the cardinality `c`.
pub open spec fn card_ok(c: Cardinality, n: nat) -> bool {
    match c {
        Cardinality::ExactlyOne => n == 1,
        Cardinality::AtMostOne => n <= 1,
        Cardinality::AtLeastOne => n >= 1,
        Cardinality::Arbitrary => true,
    }
}

/// Whether every `VERSION` property holds the text `4.0`.
pub open spec fn versions_ok(ps: Seq<PropertyModel>) -> bool {
    forall|i: int|
        0 <= i < ps.len() && (#[trigger] ps[i]).ptype == PropertyTypeModel::Version ==> ps[i].value
            == ValueModel::Text("4.0"@)
}

/// Whether every property type that a card stores occurs as often as its
/// cardinality allows (`BEGIN` and `END` frame the card and are not stored),
/// and the one `VERSION` says `4.0`.
pub open spec fn cardinality_ok(ps: Seq<PropertyModel>) -> bool {
    versions_ok(ps) && forall|t: PropertyTypeModel|
        !(t is Begin || t is End) ==> card_ok(cardinality_of(t), #[trigger] count_type(ps, t))
}

/// Whether the type `t`, found `n` times in `ps`, breaks a rule of the card:
/// its cardinality, or for `VERSION` the value `4.0`.
pub open spec fn breaks_rule(ps: Seq<PropertyModel>, t: PropertyTypeModel, n: nat) -> bool {
    !(t is Begin || t is End) && n == count_type(ps, t) && (!card_ok(cardinality_of(t), n) || (t
        is Version && !versions_ok(ps)))
}

/// The count of a type goes up by one with each property of that type.
proof fn lemma_count_push(ps: Seq<PropertyModel>, p: PropertyModel, t: PropertyTypeModel)
    ensures
        count_type(ps.push(p), t) == count_type(ps, t) + if p.ptype == t {
            1nat
        } else {
            0nat
        },
{
    assert(ps.push(p).drop_last() =~= ps);
}

/// A card with no `FN`, or with two or more `UID` properties, breaks the
/// cardinality rules; adding a `TEL` property never breaks them.
pub proof fn lemma_cardinality_rules(ps: Seq<PropertyModel>, tel: PropertyModel)
    requires
        tel.ptype == PropertyTypeModel::Tel,
    ensures
        count_type(ps, PropertyTypeModel::Fn) == 0 ==> !cardinality_ok(ps),
        count_type(ps, PropertyTypeModel::Uid) >= 2 ==> !cardinality_ok(ps),
        cardinality_ok(ps) ==> cardinality_ok(ps.push(tel)),
{
    if count_type(ps, PropertyTypeModel::Fn) == 0 {
        assert(!card_ok(cardinality_of(PropertyTypeModel::Fn), count_type(ps, PropertyTypeModel::Fn)));
    }
    if count_type(ps, PropertyTypeModel::Uid) >= 2 {
        assert(!card_ok(cardinality_of(PropertyTypeModel::Uid), count_type(ps, PropertyTypeModel::Uid)));
    }
    if cardinality_ok(ps) {
        assert forall|i: int|
            0 <= i < ps.push(tel).len() && (#[trigger] ps.push(tel)[i]).ptype
                == PropertyTypeModel::Version implies ps.push(tel)[i].value == ValueModel::Text(
            "4.0"@,
        ) by {
            assert(ps.push(tel)[i] == ps[i]);
        }
        assert forall|t: PropertyTypeModel| !(t is Begin || t is End) implies card_ok(
            cardinality_of(t),
            #[trigger] count_type(ps.push(tel), t),
        ) by {
            lemma_count_push(ps, tel, t);
            assert(card_ok(cardinality_of(t), count_type(ps, t)));
        }
    }
}

/// Where the build of a card stands after some lines.
pub enum Stage {
    AwaitBegin,
    InBody(Seq<PropertyModel>),
    Done(Seq<PropertyModel>),
    Failed(ErrorKind, nat),
}

/// The stage after the logical line `line`, the line at index `idx`.
pub open spec fn step(st: Stage, line: Seq<char>, idx: nat) -> Stage {
    match st {
        Stage::AwaitBegin => if line.len() == 0 {
            Stage::AwaitBegin
        } else {
            match content_line_spec(line) {
                None => Stage::Failed(ErrorKind::Envelope, idx),
                Some(c) => if type_of_name(c.name) == PropertyTypeModel::Begin && upper(c.value)
                    == "VCARD"@ {
                    Stage::InBody(Seq::empty())
                } else {
                    Stage::Failed(ErrorKind::Envelope, idx)
                },
            }
        },
        Stage::InBody(ps) => match content_line_spec(line) {
            None => Stage::Failed(ErrorKind::Grammar, idx),
            Some(c) => {
                let t = type_of_name(c.name);
                if t == PropertyTypeModel::Begin {
                    Stage::Failed(ErrorKind::Envelope, idx)
                } else if t == PropertyTypeModel::End {
                    if upper(c.value) == "VCARD"@ {
                        Stage::Done(ps)
                    } else {
                        Stage::Failed(ErrorKind::Envelope, idx)
                    }
                } else {
                    match assemble_spec(c) {
                        Err(e) => Stage::Failed(e, idx),
                        Ok(p) => Stage::InBody(ps.push(p)),
                    }
                }
            },
        },
        _ => st,
    }
}

/// The stage after all of the logical lines `ls`.
pub open spec fn run(ls: Seq<Seq<char>>) -> Stage
    decreases ls.len(),
{
    if ls.len() == 0 {
        Stage::AwaitBegin
    } else {
        step(run(ls.drop_last()), ls.last(), (ls.len() - 1) as nat)
    }
}

/// The properties gathered once the logical lines `ls` are read, where the
/// card was closed.
pub open spec fn run_props(ls: Seq<Seq<char>>) -> Seq<PropertyModel> {
    match run(ls) {
        Stage::Done(ps) => ps,
        _ => Seq::empty(),
    }
}

/// Whether `p` names a stored type, found `found` times in `ps`, that breaks
/// a rule of the card.
pub open spec fn blames(ps: Seq<PropertyModel>, p: Option<PropertyTypeModel>, found: nat) -> bool {
    match p {
        Some(t) => breaks_rule(ps, t, found),
        None => false,
    }
}

/// The properties of the card that the logical lines `ls` hold, or the stage
/// and line that reject them. Lines after `END:VCARD` are not read.
pub open spec fn build_spec(ls: Seq<Seq<char>>) -> Result<Seq<PropertyModel>, (ErrorKind, nat)> {
    match run(ls) {
        Stage::Done(ps) => if cardinality_ok(ps) {
            Ok(ps)
        } else {
            Err((ErrorKind::Cardinality, 0nat))
        },
        Stage::Failed(e, i) => Err((e, i)),
        _ => Err((ErrorKind::Envelope, ls.len())),
    }
}

/// The properties of the card that the text `t` holds, or the stage and the
/// logical line that reject it.
pub open spec fn parse_spec(t: Seq<char>) -> Result<Seq<PropertyModel>, (ErrorKind, nat)> {
    match unfold_spec(physical_lines(t)) {
        None => Err((ErrorKind::Fold, 0nat)),
        Some(ls) => build_spec(ls),
    }
}

pub(crate) proof fn lemma_raw_lines_nonempty(t: Seq<char>)
    ensures
        raw_lines(t).len() >= 1,
    decreases t.len(),
{
    if t.len() > 0 {
        lemma_raw_lines_nonempty(t.drop_last());
    }
}

proof fn lemma_run_failed_extends(ls: Seq<Seq<char>>, i: int, e: ErrorKind, at: nat)
    requires
        0 <= i <= ls.len(),
        run(ls.take(i)) == Stage::Failed(e, at),
    ensures
        run(ls) == Stage::Failed(e, at),
    decreases ls.len(),
{
    if i == ls.len() {
        assert(ls.take(i) =~= ls);
    } else {
        assert(ls.drop_last().take(i) =~= ls.take(i));
        lemma_run_failed_extends(ls.drop_last(), i, e, at);
    }
}

/// The physical lines of the text `t` (see [`physical_lines`]).
pub fn split_physical(t: &Vec<char>) -> (r: Vec<Vec<char>>)
    ensures
        r@.map_values(|x: Vec<char>| x@) == physical_lines(t@),
{
    let mut parts: Vec<Vec<char>> = Vec::new();
    let mut cur: Vec<char> = Vec::new();
    let mut i: usize = 0;
    assert(t@.take(0) =~= Seq::<char>::empty());
    assert(parts@.map_values(|x: Vec<char>| x@).push(cur@) =~= raw_lines(t@.take(0)));
    while i < t.len()
        invariant
            i <= t@.len(),
            parts@.map_values(|x: Vec<char>| x@).push(cur@) == raw_lines(t@.take(i as int)),
        decreases t@.len() - i,
    {
        let ghost before = parts@.map_values(|x: Vec<char>| x@);
        assert(t@.take(i + 1).drop_last() =~= t@.take(i as int));
        assert(t@.take(i + 1).last() == t@[i as int]);
        if t[i] == '\n' {
            parts.push(cur);
            cur = Vec::new();
            assert(parts@.map_values(|x: Vec<char>| x@) =~= before.push(parts@.last()@));
            assert(parts@.map_values(|x: Vec<char>| x@).push(cur@) =~= raw_lines(
                t@.take(i + 1),
            ));
        } else {
            cur.push(t[i]);
            assert(before.push(cur@) =~= raw_lines(t@.take(i + 1)));
        }
        i += 1;
    }
    assert(t@.take(i as int) =~= t@);
    let ghost raw = raw_lines(t@);
    if cur.len() > 0 {
        parts.push(cur);
    }
    assert(parts@.map_values(|x: Vec<char>| x@) =~= (if raw.len() > 0 && raw.last().len() == 0 {
        raw.drop_last()
    } else {
        raw
    }));
    let ghost q = parts@.map_values(|x: Vec<char>| x@);
    let mut r: Vec<Vec<char>> = Vec::new();
    let mut j: usize = 0;
    while j < parts.len()
        invariant
            j <= parts@.len(),
            q == parts@.map_values(|x: Vec<char>| x@),
            r@.len() == j,
            forall|k: int| 0 <= k < j ==> (#[trigger] r@[k])@ == strip_cr(q[k]),
        decreases parts@.len() - j,
    {
        let l = &parts[j];
        let n = l.len();
        if n > 0 && l[n - 1] == '\r' {
            let mut s = l.clone();
            s.pop();
            r.push(s);
            assert(r@[j as int]@ =~= strip_cr(q[j as int]));
        } else {
            r.push(l.clone());
            assert(r@[j as int]@ =~= strip_cr(q[j as int]));
        }
        j += 1;
    }
    assert(r@.map_values(|x: Vec<char>| x@) =~= q.map_values(|l: Seq<char>| strip_cr(l)));
    r
}


/// How many of the properties have type `t` (see [`count_type`]).
pub fn count_of(props: &Vec<Property>, t: &PropertyType) -> (r: usize)
    ensures
        r == count_type(props_view(props@), t@),
{
    let ghost v = props_view(props@);
    let mut n: usize = 0;
    let mut i: usize = 0;
    assert(v.take(0) =~= Seq::<PropertyModel>::empty());
    while i < props.len()
        invariant
            i <= props@.len(),
            v == props_view(props@),
            n <= i,
            n == count_type(v.take(i as int), t@),
        decreases props@.len() - i,
    {
        assert(v.take(i + 1).drop_last() =~= v.take(i as int));
        assert(v.take(i + 1).last() == props@[i as int]@);
        if props[i].ptype.same_as(t) {
            n += 1;
        }
        i += 1;
    }
    assert(v.take(i as int) =~= v);
    n
}

/// Whether `n` occurrences meet the cardinality `c` (see [`card_ok`]).
fn meets(c: Cardinality, n: usize) -> (r: bool)
    ensures
        r == card_ok(c, n as nat),
{
    match c {
        Cardinality::ExactlyOne => n == 1,
        Cardinality::AtMostOne => n <= 1,
        Cardinality::AtLeastOne => n >= 1,
        Cardinality::Arbitrary => true,
    }
}

/// The property types whose count is limited, in the order they are checked.
pub open spec fn checked_types() -> Seq<PropertyTypeModel> {
    seq![PropertyTypeModel::Version, PropertyTypeModel::Fn, PropertyTypeModel::N, PropertyTypeModel::Bday, PropertyTypeModel::Anniversary, PropertyTypeModel::Gender, PropertyTypeModel::Prodid, PropertyTypeModel::Rev, PropertyTypeModel::Uid, PropertyTypeModel::Kind]
}

/// The type at `i` in [`checked_types`].
fn checked_type(i: usize) -> (r: PropertyType)
    requires
        i < 10,
    ensures
        r@ == checked_types()[i as int],
{
    if i == 0 {
        PropertyType::Version
    } else if i == 1 {
        PropertyType::Fn
    } else if i == 2 {
        PropertyType::N
    } else if i == 3 {
        PropertyType::Bday
    } else if i == 4 {
        PropertyType::Anniversary
    } else if i == 5 {
        PropertyType::Gender
    } else if i == 6 {
        PropertyType::Prodid
    } else if i == 7 {
        PropertyType::Rev
    } else if i == 8 {
        PropertyType::Uid
    } else {
        PropertyType::Kind
    }
}

/// Checks the cardinality of every stored property type; `Err` names a type
/// that breaks its rule, and how many of it there are.
pub fn check_cardinality(props: &Vec<Property>) -> (r: Result<(), (PropertyType, usize)>)
    ensures
        r is Ok <==> cardinality_ok(props_view(props@)),
        r matches Err((t, n)) ==> breaks_rule(props_view(props@), t@, n as nat),
{
    let ghost v = props_view(props@);
    let mut i: usize = 0;
    while i < 10
        invariant
            i <= 10,
            v == props_view(props@),
            forall|j: int|
                0 <= j < i ==> card_ok(
                    cardinality_of(checked_types()[j]),
                    count_type(v, #[trigger] checked_types()[j]),
                ),
        decreases 10 - i,
    {
        let t = checked_type(i);
        let n = count_of(props, &t);
        if !meets(t.get_cardinality(), n) {
            return Err((t, n));
        }
        i += 1;
    }
    let mut j: usize = 0;
    while j < props.len()
        invariant
            j <= props@.len(),
            v == props_view(props@),
            forall|k: int|
                0 <= k < j && (#[trigger] v[k]).ptype == PropertyTypeModel::Version ==> v[k].value
                    == ValueModel::Text("4.0"@),
        decreases props@.len() - j,
    {
        if matches!(props[j].ptype, PropertyType::Version) {
            let ok = match &props[j].value {
                ValueType::Text(t) => same_chars(&chars_of(t.as_str()), &chars_of("4.0")),
                _ => false,
            };
            if !ok {
                assert(v[j as int] == props@[j as int]@);
                assert(v[j as int].value != ValueModel::Text("4.0"@));
                assert(!versions_ok(v));
                let n = count_of(props, &PropertyType::Version);
                return Err((PropertyType::Version, n));
            }
        }
        j += 1;
    }
    assert forall|t: PropertyTypeModel| !(t is Begin || t is End) implies card_ok(
        cardinality_of(t),
        #[trigger] count_type(v, t),
    ) by {
        if t is Version { assert(checked_types()[0] == t); }
        if t is Fn { assert(checked_types()[1] == t); }
        if t is N { assert(checked_types()[2] == t); }
        if t is Bday { assert(checked_types()[3] == t); }
        if t is Anniversary { assert(checked_types()[4] == t); }
        if t is Gender { assert(checked_types()[5] == t); }
        if t is Prodid { assert(checked_types()[6] == t); }
        if t is Rev { assert(checked_types()[7] == t); }
        if t is Uid { assert(checked_types()[8] == t); }
        if t is Kind { assert(checked_types()[9] == t); }
    }
    Ok(())
}

/// A vCard 4.0 card: its properties in the order they came, `VERSION`
/// among them; `BEGIN` and `END` are not stored.
#[derive(Clone, Debug, PartialEq)]
pub struct VCard {
    pub properties: Vec<Property>,
}

/// The stage of a build as the loop in [`build`] holds it.
spec fn stage_of(phase: u8, props: Seq<Property>) -> Stage {
    if phase == 0 {
        Stage::AwaitBegin
    } else if phase == 1 {
        Stage::InBody(props_view(props))
    } else {
        Stage::Done(props_view(props))
    }
}

/// The card that the logical lines `ls` hold (see [`build_spec`]).
pub fn build(ls: &Vec<Vec<char>>) -> (r: Result<VCard, ParserError>)
    ensures
        match r {
            Ok(card) => build_spec(ls@.map_values(|x: Vec<char>| x@)) == Ok::<
                Seq<PropertyModel>,
                (ErrorKind, nat),
            >(props_view(card.properties@)),
            Err(e) => build_spec(ls@.map_values(|x: Vec<char>| x@)) == Err::<
                Seq<PropertyModel>,
                (ErrorKind, nat),
            >((e.kind, e.line as nat)) && (e.kind is Cardinality ==> blames(
                run_props(ls@.map_values(|x: Vec<char>| x@)),
                opt_type_view(e.property),
                e.found as nat,
            )),
        },
{
    let ghost v = ls@.map_values(|x: Vec<char>| x@);
    let mut phase: u8 = 0;
    let mut props: Vec<Property> = Vec::new();
    let mut i: usize = 0;
    assert(v.take(0) =~= Seq::<Seq<char>>::empty());
    while i < ls.len()
        invariant
            i <= ls@.len(),
            v == ls@.map_values(|x: Vec<char>| x@),
            phase <= 2,
            phase == 0 ==> props@.len() == 0,
            run(v.take(i as int)) == stage_of(phase, props@),
        decreases ls@.len() - i,
    {
        let line = &ls[i];
        let ghost st = stage_of(phase, props@);
        proof {
            assert(v.take(i + 1).drop_last() =~= v.take(i as int));
            assert(v.take(i + 1).last() == line@);
            assert(run(v.take(i + 1)) == step(st, line@, i as nat));
        }
        if phase == 0 {
            if line.len() > 0 {
                match parse_content_line(line) {
                    None => {
                        proof { lemma_run_failed_extends(v, i + 1, ErrorKind::Envelope, i as nat); }
                        return Err(ParserError::new(ErrorKind::Envelope, i));
                    },
                    Some(c) => {
                        let name = chars_of(c.name.as_str());
                        if matches!(PropertyType::from_chars(&name), PropertyType::Begin) && upper_is(
                            &chars_of(c.value.as_str()),
                            "VCARD",
                        ) {
                            phase = 1;
                            assert(props_view(props@) =~= Seq::<PropertyModel>::empty());
                        } else {
                            proof { lemma_run_failed_extends(v, i + 1, ErrorKind::Envelope, i as nat); }
                            return Err(ParserError::new(ErrorKind::Envelope, i));
                        }
                    },
                }
            }
        } else if phase == 1 {
            match parse_content_line(line) {
                None => {
                    proof { lemma_run_failed_extends(v, i + 1, ErrorKind::Grammar, i as nat); }
                    return Err(ParserError::new(ErrorKind::Grammar, i));
                },
                Some(c) => {
                    let name = chars_of(c.name.as_str());
                    let t = PropertyType::from_chars(&name);
                    if matches!(t, PropertyType::Begin) {
                        proof { lemma_run_failed_extends(v, i + 1, ErrorKind::Envelope, i as nat); }
                        return Err(ParserError::new(ErrorKind::Envelope, i));
                    } else if matches!(t, PropertyType::End) {
                        if upper_is(&chars_of(c.value.as_str()), "VCARD") {
                            phase = 2;
                        } else {
                            proof { lemma_run_failed_extends(v, i + 1, ErrorKind::Envelope, i as nat); }
                            return Err(ParserError::new(ErrorKind::Envelope, i));
                        }
                    } else {
                        match assemble(&c) {
                            Err(e) => {
                                proof { lemma_run_failed_extends(v, i + 1, e, i as nat); }
                                return Err(ParserError::new(e, i));
                            },
                            Ok(p) => {
                                let ghost before = props_view(props@);
                                props.push(p);
                                assert(props_view(props@) =~= before.push(p@));
                            },
                        }
                    }
                },
            }
        }
        i += 1;
    }
    assert(v.take(i as int) =~= v);
    if phase != 2 {
        return Err(ParserError::new(ErrorKind::Envelope, i));
    }
    match check_cardinality(&props) {
        Ok(()) => Ok(VCard { properties: props }),
        Err((t, n)) => Err(
            ParserError { kind: ErrorKind::Cardinality, line: 0, property: Some(t), found: n },
        ),
    }
}


/// A property `name:text` with no group and no parameters.
pub open spec fn plain_text_property(name: Seq<char>, t: PropertyTypeModel, text: Seq<char>) -> PropertyModel {
    PropertyModel {
        group: None,
        name,
        ptype: t,
        params: Seq::empty(),
        value: ValueModel::Text(text),
    }
}

/// A property `name:text` with no group and no parameters.
fn plain_text(name: &str, t: PropertyType, text: &String) -> (r: Property)
    ensures
        r@ == plain_text_property(name@, t@, text@),
{
    let params: Vec<crate::params::Parameter> = Vec::new();
    let r = Property {
        group: None,
        name: string_of(&chars_of(name)),
        ptype: t,
        params,
        value: ValueType::Text(string_of(&chars_of(text.as_str()))),
    };
    assert(r@.params =~= Seq::<crate::params::ParameterModel>::empty());
    r
}

impl VCard {
    /// The version of the format, which is always 4.0.
    pub fn version(&self) -> (r: &'static str)
        ensures
            r@ == "4.0"@,
    {
        "4.0"
    }

    /// A card with `VERSION:4.0` and one `FN` property for each of the
    /// formatted names, in order; `None` where there is no name, as a card
    /// holds at least one `FN`.
    pub fn new(formatted_names: Vec<String>) -> (r: Option<VCard>)
        ensures
            r is Some <==> formatted_names@.len() >= 1,
            r matches Some(card) ==> props_view(card.properties@) == seq![
                plain_text_property("VERSION"@, PropertyTypeModel::Version, "4.0"@),
            ] + formatted_names@.map_values(
                |f: String| plain_text_property("FN"@, PropertyTypeModel::Fn, f@),
            ),
    {
        if formatted_names.len() == 0 {
            return None;
        }
        let mut props: Vec<Property> = Vec::new();
        let four = string_of(&chars_of("4.0"));
        props.push(plain_text("VERSION", PropertyType::Version, &four));
        let ghost fv = formatted_names@.map_values(
            |f: String| plain_text_property("FN"@, PropertyTypeModel::Fn, f@),
        );
        let mut i: usize = 0;
        while i < formatted_names.len()
            invariant
                i <= formatted_names@.len(),
                fv == formatted_names@.map_values(
                    |f: String| plain_text_property("FN"@, PropertyTypeModel::Fn, f@),
                ),
                props@.len() == i + 1,
                props@[0]@ == plain_text_property("VERSION"@, PropertyTypeModel::Version, "4.0"@),
                forall|j: int| 0 <= j < i ==> (#[trigger] props@[j + 1])@ == fv[j],
            decreases formatted_names@.len() - i,
        {
            props.push(plain_text("FN", PropertyType::Fn, &formatted_names[i]));
            i += 1;
        }
        assert forall|j: int| 0 <= j < props@.len() implies #[trigger] props_view(props@)[j] == (seq![
            plain_text_property("VERSION"@, PropertyTypeModel::Version, "4.0"@),
        ] + fv)[j] by {
            if j > 0 {
                assert(props@[(j - 1) + 1] == props@[j]);
            }
        }
        assert(props_view(props@) =~= seq![
            plain_text_property("VERSION"@, PropertyTypeModel::Version, "4.0"@),
        ] + fv);
        Some(VCard { properties: props })
    }
}

} // verus!
