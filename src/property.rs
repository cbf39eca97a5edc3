//! Properties: a content line with its parameters decoded and its value
//! decoded under the kind that its type and parameters give.
use vstd::prelude::*;

use crate::catalog::{
    default_kind_of, is_name, is_name_text, kind_from_name, kind_of_upper, type_of_name,
    PropertyType, PropertyTypeModel,
};
use crate::content_line::{opt_view, ContentLine, ContentLineModel};
use crate::error::{ErrorKind, ParserError};
use crate::params::{decode_params, params_spec, params_view, Parameter, ParameterModel};
use crate::text::{chars_of, slice_chars, string_of, upper, upper_is};
use crate::value::{decode_spec, decode_value, ValueType, ValueKind, ValueModel};

verus! {

/// A property of a card. `name` is the name as written; `ptype` is what it
/// stands for.
#[derive(Clone, Debug, PartialEq)]
pub struct Property {
    pub group: Option<String>,
    pub name: String,
    pub ptype: PropertyType,
    pub params: Vec<Parameter>,
    pub value: ValueType,
}

/// What a [`Property`] holds, as sequences of characters.
pub struct PropertyModel {
    pub group: Option<Seq<char>>,
    pub name: Seq<char>,
    pub ptype: PropertyTypeModel,
    pub params: Seq<ParameterModel>,
    pub value: ValueModel,
}

impl View for Property {
    type V = PropertyModel;

    open spec fn view(&self) -> PropertyModel {
        PropertyModel {
            group: opt_view(self.group),
            name: self.name@,
            ptype: self.ptype@,
            params: params_view(self.params@),
            value: self.value@,
        }
    }
}

/// The kind that the first `VALUE` parameter names, if it names one.
pub open spec fn value_override(ps: Seq<ParameterModel>) -> Option<ValueKind>
    decreases ps.len(),
{
    if ps.len() == 0 {
        None
    } else if upper(ps[0].name) == "VALUE"@ {
        if ps[0].values.len() > 0 {
            kind_of_upper(upper(ps[0].values[0]))
        } else {
            None
        }
    } else {
        value_override(ps.skip(1))
    }
}

/// The kind a value is decoded under: the one a `VALUE` parameter names, but
/// `text` keeps a list or structured default, whose items are text.
pub open spec fn effective_kind(default: ValueKind, o: Option<ValueKind>) -> ValueKind {
    match o {
        Some(k) => if k is Text && (default is TextList || default is StructuredText) {
            default
        } else {
            k
        },
        None => default,
    }
}

/// Whether a structured value has as many components as its property type
/// gives them: five for `N`, seven for `ADR`, two for `CLIENTPIDMAP`, at most
/// two for `GENDER`.
pub open spec fn components_fit(t: PropertyTypeModel, v: ValueModel) -> bool {
    match v {
        ValueModel::StructuredText(c) => match t {
            PropertyTypeModel::N => c.len() == 5,
            PropertyTypeModel::Adr => c.len() == 7,
            PropertyTypeModel::Clientpidmap => c.len() == 2,
            PropertyTypeModel::Gender => c.len() <= 2,
            _ => true,
        },
        _ => true,
    }
}

/// The property that a content line stands for, or the stage that rejects it.
pub open spec fn assemble_spec(c: ContentLineModel) -> Result<PropertyModel, ErrorKind> {
    let ps = match c.params {
        None => Some(Seq::empty()),
        Some(raw) => params_spec(raw),
    };
    match ps {
        None => Err(ErrorKind::Param),
        Some(ps) => {
            let t = type_of_name(c.name);
            let k = effective_kind(default_kind_of(t), value_override(ps));
            match decode_spec(k, c.value) {
                None => Err(ErrorKind::Value),
                Some(v) => if components_fit(t, v) {
                    Ok(
                        PropertyModel {
                            group: c.group,
                            name: c.name,
                            ptype: t,
                            params: ps,
                            value: v,
                        },
                    )
                } else {
                    Err(ErrorKind::Value)
                },
            }
        },
    }
}

/// The kind that the first `VALUE` parameter names (see [`value_override`]).
fn find_value_override(ps: &Vec<Parameter>) -> (r: Option<ValueKind>)
    ensures
        r == value_override(params_view(ps@)),
{
    let ghost v = params_view(ps@);
    let mut i: usize = 0;
    assert(v.skip(0) =~= v);
    while i < ps.len()
        invariant
            i <= ps@.len(),
            v == params_view(ps@),
            value_override(v) == value_override(v.skip(i as int)),
        decreases ps@.len() - i,
    {
        let p = &ps[i];
        let name = chars_of(p.name.as_str());
        assert(v.skip(i as int)[0] == p@);
        if upper_is(&name, "VALUE") {
            if p.values.len() > 0 {
                return kind_from_name(&chars_of(p.values[0].as_str()));
            }
            return None;
        }
        assert(v.skip(i as int).skip(1) =~= v.skip(i + 1));
        i += 1;
    }
    None
}

/// Whether a structured value has as many components as its property type
/// gives them (see [`components_fit`]).
fn component_count_fits(t: &PropertyType, v: &ValueType) -> (r: bool)
    ensures
        r == components_fit(t@, v@),
{
    match v {
        ValueType::StructuredText(c) => match t {
            PropertyType::N => c.len() == 5,
            PropertyType::Adr => c.len() == 7,
            PropertyType::Clientpidmap => c.len() == 2,
            PropertyType::Gender => c.len() <= 2,
            _ => true,
        },
        _ => true,
    }
}

/// The property that the content line `c` stands for (see [`assemble_spec`]).
pub fn assemble(c: &ContentLine) -> (r: Result<Property, ErrorKind>)
    ensures
        match r {
            Ok(p) => assemble_spec(c@) == Ok::<PropertyModel, ErrorKind>(p@),
            Err(e) => assemble_spec(c@) == Err::<PropertyModel, ErrorKind>(e),
        },
{
    let params: Vec<Parameter> = match &c.params {
        None => {
            let ps: Vec<Parameter> = Vec::new();
            assert(params_view(ps@) =~= Seq::<ParameterModel>::empty());
            ps
        },
        Some(raw) => match decode_params(&chars_of(raw.as_str())) {
            Some(ps) => ps,
            None => {
                return Err(ErrorKind::Param);
            },
        },
    };
    let name = chars_of(c.name.as_str());
    let t = PropertyType::from_chars(&name);
    let k = match find_value_override(&params) {
        Some(k) => if k == ValueKind::Text && (t.default_kind() == ValueKind::TextList
            || t.default_kind() == ValueKind::StructuredText) {
            t.default_kind()
        } else {
            k
        },
        None => t.default_kind(),
    };
    match decode_value(k, &chars_of(c.value.as_str())) {
        Some(v) => {
            if !component_count_fits(&t, &v) {
                return Err(ErrorKind::Value);
            }
            Ok(Property { group: c.group.clone(), name: c.name.clone(), ptype: t, params, value: v })
        },
        None => Err(ErrorKind::Value),
    }
}


/// The characters of an optional string slice.
pub open spec fn opt_str_view(o: Option<&str>) -> Option<Seq<char>> {
    match o {
        Some(s) => Some(s@),
        None => None,
    }
}

/// The parameter text without the `;` that starts it.
pub open spec fn params_after_semicolon(params: Option<Seq<char>>) -> Option<Seq<char>> {
    match params {
        Some(p) => Some(p.skip(1)),
        None => None,
    }
}

/// The property with these parts, or the stage that rejects them: the group
/// and the name must be names, and the parameter text, where there is one,
/// starts with `;`.
pub open spec fn from_parts_spec(
    group: Option<Seq<char>>,
    name: Seq<char>,
    params: Option<Seq<char>>,
    value: Seq<char>,
) -> Result<PropertyModel, ErrorKind> {
    if !is_name(name) || (group matches Some(g) && !is_name(g)) || (params matches Some(p) && !(
    p.len() > 0 && p[0] == ';')) {
        Err(ErrorKind::Grammar)
    } else {
        assemble_spec(
            ContentLineModel { group, name, params: params_after_semicolon(params), value },
        )
    }
}

/// The string with the characters of `s`, where there is one.
fn opt_string(s: Option<&str>) -> (r: Option<String>)
    ensures
        opt_view(r) == opt_str_view(s),
{
    match s {
        Some(t) => Some(string_of(&chars_of(t))),
        None => None,
    }
}

impl Property {
    /// The property that a content line with these parts stands for (see
    /// [`from_parts_spec`]). `params` is the parameter text as it stands in
    /// the line, starting with its `;` (`;TYPE=work`). The error names the
    /// stage and line 0.
    pub fn new_from_strings(group: Option<&str>, name: &str, params: Option<&str>, value: &str) -> (r:
        Result<Property, ParserError>)
        ensures
            match r {
                Ok(p) => from_parts_spec(
                    opt_str_view(group),
                    name@,
                    opt_str_view(params),
                    value@,
                ) == Ok::<PropertyModel, ErrorKind>(p@),
                Err(e) => from_parts_spec(opt_str_view(group), name@, opt_str_view(params), value@)
                    == Err::<PropertyModel, ErrorKind>(e.kind) && e.line == 0 && e.property is None,
            },
    {
        let n = chars_of(name);
        if !is_name_text(&n) {
            return Err(ParserError::new(ErrorKind::Grammar, 0));
        }
        match group {
            Some(g) => {
                if !is_name_text(&chars_of(g)) {
                    return Err(ParserError::new(ErrorKind::Grammar, 0));
                }
            },
            None => {},
        }
        let raw_params = match params {
            Some(p) => {
                let pc = chars_of(p);
                if pc.len() == 0 || pc[0] != ';' {
                    return Err(ParserError::new(ErrorKind::Grammar, 0));
                }
                let rest = slice_chars(&pc, 1, pc.len());
                assert(rest@ =~= p@.skip(1));
                Some(string_of(&rest))
            },
            None => None,
        };
        let c = ContentLine {
            group: opt_string(group),
            name: string_of(&n),
            params: raw_params,
            value: string_of(&chars_of(value)),
        };
        match assemble(&c) {
            Ok(p) => Ok(p),
            Err(e) => Err(ParserError::new(e, 0)),
        }
    }
}

} // verus!
