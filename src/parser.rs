//! The entry point of a parse: text in, card or error out.
use vstd::prelude::*;

use crate::document::{blames, build, parse_spec, physical_lines, props_view, run_props, split_physical, VCard};
use crate::catalog::opt_type_view;
use crate::error::{ErrorKind, ParserError};
use crate::fold::{unfold_lines, unfold_spec};
use crate::property::PropertyModel;
use crate::text::chars_of;

verus! {

/// The properties that a parse of `t` gathered before it checked their
/// cardinality.
pub open spec fn gathered(t: Seq<char>) -> Seq<PropertyModel> {
    match unfold_spec(physical_lines(t)) {
        Some(ls) => run_props(ls),
        None => Seq::empty(),
    }
}

/// Parses vCard 4.0 text. It holds no state: one parser serves any number
/// of parses.
pub struct Parser {}

impl Parser {
    /// A parser.
    pub fn new() -> (r: Parser) {
        Parser {  }
    }

    /// The card that `input` holds (see [`parse_spec`]): lines are unfolded,
    /// taken apart, their parameters and values decoded, the envelope and the
    /// cardinality of each property type checked. The first error ends the
    /// parse.
    pub fn parse_vcard(&self, input: String) -> (r: Result<VCard, ParserError>)
        ensures
            match r {
                Ok(card) => parse_spec(input@) == Ok::<Seq<PropertyModel>, (ErrorKind, nat)>(
                    props_view(card.properties@),
                ),
                Err(e) => parse_spec(input@) == Err::<Seq<PropertyModel>, (ErrorKind, nat)>(
                    (e.kind, e.line as nat),
                ) && (e.kind is Cardinality ==> blames(
                    gathered(input@),
                    opt_type_view(e.property),
                    e.found as nat,
                )),
            },
    {
        let text = chars_of(input.as_str());
        let physical = split_physical(&text);
        match unfold_lines(&physical) {
            Err(_) => Err(ParserError::new(ErrorKind::Fold, 0)),
            Ok(logical) => build(&logical),
        }
    }
}

} // verus!
