//! The catalog of property types: what each name means, how often it may
//! occur in a card, and the kind of value it holds by default.
use vstd::prelude::*;

use crate::text::{chars_of, same_chars, string_of, upper, upper_chars};
use crate::value::ValueKind;

verus! {

/// The type of a property. Names outside the list below are extensions,
/// which keep the name as written.
#[derive(Clone, Debug, PartialEq, Eq)]
pub enum PropertyType {
    Begin,
    End,
    Source,
    Kind,
    Xml,
    Fn,
    N,
    Nickname,
    Photo,
    Bday,
    Anniversary,
    Gender,
    Adr,
    Tel,
    Email,
    Impp,
    Lang,
    Tz,
    Geo,
    Title,
    Role,
    Logo,
    Org,
    Member,
    Related,
    Categories,
    Note,
    Prodid,
    Rev,
    Sound,
    Uid,
    Clientpidmap,
    Url,
    Version,
    Key,
    Fburl,
    Caladruri,
    Caluri,
    Extension(String),
}

/// What a [`PropertyType`] stands for, with the name of an extension as a
/// sequence of characters.
pub enum PropertyTypeModel {
    Begin,
    End,
    Source,
    Kind,
    Xml,
    Fn,
    N,
    Nickname,
    Photo,
    Bday,
    Anniversary,
    Gender,
    Adr,
    Tel,
    Email,
    Impp,
    Lang,
    Tz,
    Geo,
    Title,
    Role,
    Logo,
    Org,
    Member,
    Related,
    Categories,
    Note,
    Prodid,
    Rev,
    Sound,
    Uid,
    Clientpidmap,
    Url,
    Version,
    Key,
    Fburl,
    Caladruri,
    Caluri,
    Extension(Seq<char>),
}

impl View for PropertyType {
    type V = PropertyTypeModel;

    open spec fn view(&self) -> PropertyTypeModel {
        match self {
            PropertyType::Begin => PropertyTypeModel::Begin,
            PropertyType::End => PropertyTypeModel::End,
            PropertyType::Source => PropertyTypeModel::Source,
            PropertyType::Kind => PropertyTypeModel::Kind,
            PropertyType::Xml => PropertyTypeModel::Xml,
            PropertyType::Fn => PropertyTypeModel::Fn,
            PropertyType::N => PropertyTypeModel::N,
            PropertyType::Nickname => PropertyTypeModel::Nickname,
            PropertyType::Photo => PropertyTypeModel::Photo,
            PropertyType::Bday => PropertyTypeModel::Bday,
            PropertyType::Anniversary => PropertyTypeModel::Anniversary,
            PropertyType::Gender => PropertyTypeModel::Gender,
            PropertyType::Adr => PropertyTypeModel::Adr,
            PropertyType::Tel => PropertyTypeModel::Tel,
            PropertyType::Email => PropertyTypeModel::Email,
            PropertyType::Impp => PropertyTypeModel::Impp,
            PropertyType::Lang => PropertyTypeModel::Lang,
            PropertyType::Tz => PropertyTypeModel::Tz,
            PropertyType::Geo => PropertyTypeModel::Geo,
            PropertyType::Title => PropertyTypeModel::Title,
            PropertyType::Role => PropertyTypeModel::Role,
            PropertyType::Logo => PropertyTypeModel::Logo,
            PropertyType::Org => PropertyTypeModel::Org,
            PropertyType::Member => PropertyTypeModel::Member,
            PropertyType::Related => PropertyTypeModel::Related,
            PropertyType::Categories => PropertyTypeModel::Categories,
            PropertyType::Note => PropertyTypeModel::Note,
            PropertyType::Prodid => PropertyTypeModel::Prodid,
            PropertyType::Rev => PropertyTypeModel::Rev,
            PropertyType::Sound => PropertyTypeModel::Sound,
            PropertyType::Uid => PropertyTypeModel::Uid,
            PropertyType::Clientpidmap => PropertyTypeModel::Clientpidmap,
            PropertyType::Url => PropertyTypeModel::Url,
            PropertyType::Version => PropertyTypeModel::Version,
            PropertyType::Key => PropertyTypeModel::Key,
            PropertyType::Fburl => PropertyTypeModel::Fburl,
            PropertyType::Caladruri => PropertyTypeModel::Caladruri,
            PropertyType::Caluri => PropertyTypeModel::Caluri,
            PropertyType::Extension(x) => PropertyTypeModel::Extension(x@),
        }
    }
}

/// How many properties of a type a card may hold.
#[derive(Clone, Copy, Debug, PartialEq, Eq, Structural)]
pub enum Cardinality {
    ExactlyOne,
    AtMostOne,
    AtLeastOne,
    Arbitrary,
}

/// Whether `c` may stand in a group or a property name.
pub open spec fn is_name_char(c: char) -> bool {
    ('a' <= c && c <= 'z') || ('A' <= c && c <= 'Z') || ('0' <= c && c <= '9') || c == '-'
}

/// Whether `s` is a group or a property name: one or more letters, digits or
/// hyphens.
pub open spec fn is_name(s: Seq<char>) -> bool {
    s.len() > 0 && forall|i: int| 0 <= i < s.len() ==> is_name_char(#[trigger] s[i])
}

/// The type that the name `s`, in upper case `u`, stands for.
pub open spec fn type_of_upper(u: Seq<char>, s: Seq<char>) -> PropertyTypeModel {
    if u == "BEGIN"@ {
        PropertyTypeModel::Begin
    } else if u == "END"@ {
        PropertyTypeModel::End
    } else if u == "SOURCE"@ {
        PropertyTypeModel::Source
    } else if u == "KIND"@ {
        PropertyTypeModel::Kind
    } else if u == "XML"@ {
        PropertyTypeModel::Xml
    } else if u == "FN"@ {
        PropertyTypeModel::Fn
    } else if u == "N"@ {
        PropertyTypeModel::N
    } else if u == "NICKNAME"@ {
        PropertyTypeModel::Nickname
    } else if u == "PHOTO"@ {
        PropertyTypeModel::Photo
    } else if u == "BDAY"@ {
        PropertyTypeModel::Bday
    } else if u == "ANNIVERSARY"@ {
        PropertyTypeModel::Anniversary
    } else if u == "GENDER"@ {
        PropertyTypeModel::Gender
    } else if u == "ADR"@ {
        PropertyTypeModel::Adr
    } else if u == "TEL"@ {
        PropertyTypeModel::Tel
    } else if u == "EMAIL"@ {
        PropertyTypeModel::Email
    } else if u == "IMPP"@ {
        PropertyTypeModel::Impp
    } else if u == "LANG"@ {
        PropertyTypeModel::Lang
    } else if u == "TZ"@ {
        PropertyTypeModel::Tz
    } else if u == "GEO"@ {
        PropertyTypeModel::Geo
    } else if u == "TITLE"@ {
        PropertyTypeModel::Title
    } else if u == "ROLE"@ {
        PropertyTypeModel::Role
    } else if u == "LOGO"@ {
        PropertyTypeModel::Logo
    } else if u == "ORG"@ {
        PropertyTypeModel::Org
    } else if u == "MEMBER"@ {
        PropertyTypeModel::Member
    } else if u == "RELATED"@ {
        PropertyTypeModel::Related
    } else if u == "CATEGORIES"@ {
        PropertyTypeModel::Categories
    } else if u == "NOTE"@ {
        PropertyTypeModel::Note
    } else if u == "PRODID"@ {
        PropertyTypeModel::Prodid
    } else if u == "REV"@ {
        PropertyTypeModel::Rev
    } else if u == "SOUND"@ {
        PropertyTypeModel::Sound
    } else if u == "UID"@ {
        PropertyTypeModel::Uid
    } else if u == "CLIENTPIDMAP"@ {
        PropertyTypeModel::Clientpidmap
    } else if u == "URL"@ {
        PropertyTypeModel::Url
    } else if u == "VERSION"@ {
        PropertyTypeModel::Version
    } else if u == "KEY"@ {
        PropertyTypeModel::Key
    } else if u == "FBURL"@ {
        PropertyTypeModel::Fburl
    } else if u == "CALADRURI"@ {
        PropertyTypeModel::Caladruri
    } else if u == "CALURI"@ {
        PropertyTypeModel::Caluri
    } else {
        PropertyTypeModel::Extension(s)
    }
}

/// The type that a name stands for, whatever the case of its letters.
pub open spec fn type_of_name(s: Seq<char>) -> PropertyTypeModel {
    type_of_upper(upper(s), s)
}

/// The model of an optional property type.
pub open spec fn opt_type_view(o: Option<PropertyType>) -> Option<PropertyTypeModel> {
    match o {
        Some(t) => Some(t@),
        None => None,
    }
}

/// The position of each property type in the catalog.
pub open spec fn tag_of(t: PropertyTypeModel) -> u8 {
    match t {
        PropertyTypeModel::Begin => 0,
        PropertyTypeModel::End => 1,
        PropertyTypeModel::Source => 2,
        PropertyTypeModel::Kind => 3,
        PropertyTypeModel::Xml => 4,
        PropertyTypeModel::Fn => 5,
        PropertyTypeModel::N => 6,
        PropertyTypeModel::Nickname => 7,
        PropertyTypeModel::Photo => 8,
        PropertyTypeModel::Bday => 9,
        PropertyTypeModel::Anniversary => 10,
        PropertyTypeModel::Gender => 11,
        PropertyTypeModel::Adr => 12,
        PropertyTypeModel::Tel => 13,
        PropertyTypeModel::Email => 14,
        PropertyTypeModel::Impp => 15,
        PropertyTypeModel::Lang => 16,
        PropertyTypeModel::Tz => 17,
        PropertyTypeModel::Geo => 18,
        PropertyTypeModel::Title => 19,
        PropertyTypeModel::Role => 20,
        PropertyTypeModel::Logo => 21,
        PropertyTypeModel::Org => 22,
        PropertyTypeModel::Member => 23,
        PropertyTypeModel::Related => 24,
        PropertyTypeModel::Categories => 25,
        PropertyTypeModel::Note => 26,
        PropertyTypeModel::Prodid => 27,
        PropertyTypeModel::Rev => 28,
        PropertyTypeModel::Sound => 29,
        PropertyTypeModel::Uid => 30,
        PropertyTypeModel::Clientpidmap => 31,
        PropertyTypeModel::Url => 32,
        PropertyTypeModel::Version => 33,
        PropertyTypeModel::Key => 34,
        PropertyTypeModel::Fburl => 35,
        PropertyTypeModel::Caladruri => 36,
        PropertyTypeModel::Caluri => 37,
        PropertyTypeModel::Extension(_) => 38,
    }
}

/// The cardinality of each property type.
pub open spec fn cardinality_of(t: PropertyTypeModel) -> Cardinality {
    match t {
        PropertyTypeModel::Begin | PropertyTypeModel::End | PropertyTypeModel::Version => Cardinality::ExactlyOne,
        PropertyTypeModel::Fn => Cardinality::AtLeastOne,
        PropertyTypeModel::N | PropertyTypeModel::Bday | PropertyTypeModel::Anniversary | PropertyTypeModel::Gender
        | PropertyTypeModel::Prodid | PropertyTypeModel::Rev | PropertyTypeModel::Uid
        | PropertyTypeModel::Kind => Cardinality::AtMostOne,
        _ => Cardinality::Arbitrary,
    }
}

/// The kind of value each property type holds when no `VALUE` parameter
/// says otherwise.
pub open spec fn default_kind_of(t: PropertyTypeModel) -> ValueKind {
    match t {
        PropertyTypeModel::Source | PropertyTypeModel::Photo | PropertyTypeModel::Impp | PropertyTypeModel::Geo | PropertyTypeModel::Logo | PropertyTypeModel::Member | PropertyTypeModel::Related | PropertyTypeModel::Sound | PropertyTypeModel::Uid | PropertyTypeModel::Url | PropertyTypeModel::Key | PropertyTypeModel::Fburl | PropertyTypeModel::Caladruri | PropertyTypeModel::Caluri => ValueKind::Uri,
        PropertyTypeModel::N | PropertyTypeModel::Gender | PropertyTypeModel::Adr | PropertyTypeModel::Org | PropertyTypeModel::Clientpidmap => ValueKind::StructuredText,
        PropertyTypeModel::Nickname | PropertyTypeModel::Categories => ValueKind::TextList,
        PropertyTypeModel::Bday | PropertyTypeModel::Anniversary => ValueKind::DateAndOrTime,
        PropertyTypeModel::Lang => ValueKind::LanguageTag,
        PropertyTypeModel::Rev => ValueKind::Timestamp,
        _ => ValueKind::Text,
    }
}

/// The value kind that a `VALUE` parameter names, in upper case.
pub open spec fn kind_of_upper(u: Seq<char>) -> Option<ValueKind> {
    if u == "TEXT"@ {
        Some(ValueKind::Text)
    } else if u == "URI"@ {
        Some(ValueKind::Uri)
    } else if u == "DATE"@ {
        Some(ValueKind::Date)
    } else if u == "TIME"@ {
        Some(ValueKind::Time)
    } else if u == "DATE-TIME"@ {
        Some(ValueKind::DateTime)
    } else if u == "DATE-AND-OR-TIME"@ {
        Some(ValueKind::DateAndOrTime)
    } else if u == "TIMESTAMP"@ {
        Some(ValueKind::Timestamp)
    } else if u == "BOOLEAN"@ {
        Some(ValueKind::Boolean)
    } else if u == "INTEGER"@ {
        Some(ValueKind::Integer)
    } else if u == "FLOAT"@ {
        Some(ValueKind::Float)
    } else if u == "UTC-OFFSET"@ {
        Some(ValueKind::UtcOffset)
    } else if u == "LANGUAGE-TAG"@ {
        Some(ValueKind::LanguageTag)
    } else {
        None
    }
}

/// Whether `u` reads `lit`.
fn is_lit(u: &Vec<char>, lit: &str) -> (r: bool)
    ensures
        r == (u@ == lit@),
{
    same_chars(u, &chars_of(lit))
}

/// Whether every character of `s` may stand in a name.
pub fn is_name_text(s: &Vec<char>) -> (r: bool)
    ensures
        r == is_name(s@),
{
    if s.len() == 0 {
        return false;
    }
    let mut i: usize = 0;
    while i < s.len()
        invariant
            i <= s@.len(),
            forall|j: int| 0 <= j < i ==> is_name_char(#[trigger] s@[j]),
        decreases s@.len() - i,
    {
        let c = s[i];
        if !(('a' <= c && c <= 'z') || ('A' <= c && c <= 'Z') || ('0' <= c && c <= '9') || c
            == '-') {
            return false;
        }
        i += 1;
    }
    true
}

/// The value kind that a `VALUE` parameter names (see [`kind_of_upper`]);
/// the case of its letters does not matter.
pub fn kind_from_name(s: &Vec<char>) -> (r: Option<ValueKind>)
    ensures
        r == kind_of_upper(upper(s@)),
{
    let u = upper_chars(s);
    if is_lit(&u, "TEXT") {
        Some(ValueKind::Text)
    } else if is_lit(&u, "URI") {
        Some(ValueKind::Uri)
    } else if is_lit(&u, "DATE") {
        Some(ValueKind::Date)
    } else if is_lit(&u, "TIME") {
        Some(ValueKind::Time)
    } else if is_lit(&u, "DATE-TIME") {
        Some(ValueKind::DateTime)
    } else if is_lit(&u, "DATE-AND-OR-TIME") {
        Some(ValueKind::DateAndOrTime)
    } else if is_lit(&u, "TIMESTAMP") {
        Some(ValueKind::Timestamp)
    } else if is_lit(&u, "BOOLEAN") {
        Some(ValueKind::Boolean)
    } else if is_lit(&u, "INTEGER") {
        Some(ValueKind::Integer)
    } else if is_lit(&u, "FLOAT") {
        Some(ValueKind::Float)
    } else if is_lit(&u, "UTC-OFFSET") {
        Some(ValueKind::UtcOffset)
    } else if is_lit(&u, "LANGUAGE-TAG") {
        Some(ValueKind::LanguageTag)
    } else {
        None
    }
}

impl PropertyType {
    /// The type that `s` names, whatever the case of its letters; `Err` where
    /// `s` is no name.
    pub fn from_str(s: &str) -> (r: Result<PropertyType, ()>)
        ensures
            r is Ok <==> is_name(s@),
            r is Ok ==> r->Ok_0@ == type_of_name(s@),
    {
        let c = chars_of(s);
        if !is_name_text(&c) {
            return Err(());
        }
        Ok(PropertyType::from_chars(&c))
    }

    /// The type that the characters `s` name (see [`type_of_name`]).
    pub fn from_chars(s: &Vec<char>) -> (r: PropertyType)
        ensures
            r@ == type_of_name(s@),
    {
        let u = upper_chars(s);
        if is_lit(&u, "BEGIN") {
            PropertyType::Begin
        } else if is_lit(&u, "END") {
            PropertyType::End
        } else if is_lit(&u, "SOURCE") {
            PropertyType::Source
        } else if is_lit(&u, "KIND") {
            PropertyType::Kind
        } else if is_lit(&u, "XML") {
            PropertyType::Xml
        } else if is_lit(&u, "FN") {
            PropertyType::Fn
        } else if is_lit(&u, "N") {
            PropertyType::N
        } else if is_lit(&u, "NICKNAME") {
            PropertyType::Nickname
        } else if is_lit(&u, "PHOTO") {
            PropertyType::Photo
        } else if is_lit(&u, "BDAY") {
            PropertyType::Bday
        } else if is_lit(&u, "ANNIVERSARY") {
            PropertyType::Anniversary
        } else if is_lit(&u, "GENDER") {
            PropertyType::Gender
        } else if is_lit(&u, "ADR") {
            PropertyType::Adr
        } else if is_lit(&u, "TEL") {
            PropertyType::Tel
        } else if is_lit(&u, "EMAIL") {
            PropertyType::Email
        } else if is_lit(&u, "IMPP") {
            PropertyType::Impp
        } else if is_lit(&u, "LANG") {
            PropertyType::Lang
        } else if is_lit(&u, "TZ") {
            PropertyType::Tz
        } else if is_lit(&u, "GEO") {
            PropertyType::Geo
        } else if is_lit(&u, "TITLE") {
            PropertyType::Title
        } else if is_lit(&u, "ROLE") {
            PropertyType::Role
        } else if is_lit(&u, "LOGO") {
            PropertyType::Logo
        } else if is_lit(&u, "ORG") {
            PropertyType::Org
        } else if is_lit(&u, "MEMBER") {
            PropertyType::Member
        } else if is_lit(&u, "RELATED") {
            PropertyType::Related
        } else if is_lit(&u, "CATEGORIES") {
            PropertyType::Categories
        } else if is_lit(&u, "NOTE") {
            PropertyType::Note
        } else if is_lit(&u, "PRODID") {
            PropertyType::Prodid
        } else if is_lit(&u, "REV") {
            PropertyType::Rev
        } else if is_lit(&u, "SOUND") {
            PropertyType::Sound
        } else if is_lit(&u, "UID") {
            PropertyType::Uid
        } else if is_lit(&u, "CLIENTPIDMAP") {
            PropertyType::Clientpidmap
        } else if is_lit(&u, "URL") {
            PropertyType::Url
        } else if is_lit(&u, "VERSION") {
            PropertyType::Version
        } else if is_lit(&u, "KEY") {
            PropertyType::Key
        } else if is_lit(&u, "FBURL") {
            PropertyType::Fburl
        } else if is_lit(&u, "CALADRURI") {
            PropertyType::Caladruri
        } else if is_lit(&u, "CALURI") {
            PropertyType::Caluri
        } else {
            PropertyType::Extension(string_of(s))
        }
    }

    /// The position of this type in the catalog; extensions come last.
    fn tag(&self) -> (r: u8)
        ensures
            r == tag_of(self@),
    {
        match self {
            PropertyType::Begin => 0,
            PropertyType::End => 1,
            PropertyType::Source => 2,
            PropertyType::Kind => 3,
            PropertyType::Xml => 4,
            PropertyType::Fn => 5,
            PropertyType::N => 6,
            PropertyType::Nickname => 7,
            PropertyType::Photo => 8,
            PropertyType::Bday => 9,
            PropertyType::Anniversary => 10,
            PropertyType::Gender => 11,
            PropertyType::Adr => 12,
            PropertyType::Tel => 13,
            PropertyType::Email => 14,
            PropertyType::Impp => 15,
            PropertyType::Lang => 16,
            PropertyType::Tz => 17,
            PropertyType::Geo => 18,
            PropertyType::Title => 19,
            PropertyType::Role => 20,
            PropertyType::Logo => 21,
            PropertyType::Org => 22,
            PropertyType::Member => 23,
            PropertyType::Related => 24,
            PropertyType::Categories => 25,
            PropertyType::Note => 26,
            PropertyType::Prodid => 27,
            PropertyType::Rev => 28,
            PropertyType::Sound => 29,
            PropertyType::Uid => 30,
            PropertyType::Clientpidmap => 31,
            PropertyType::Url => 32,
            PropertyType::Version => 33,
            PropertyType::Key => 34,
            PropertyType::Fburl => 35,
            PropertyType::Caladruri => 36,
            PropertyType::Caluri => 37,
            PropertyType::Extension(_) => 38,
        }
    }

    /// Whether the two types are the same, extensions by their names.
    pub fn same_as(&self, other: &PropertyType) -> (r: bool)
        ensures
            r == (self@ == other@),
    {
        if self.tag() != other.tag() {
            return false;
        }
        match (self, other) {
            (PropertyType::Extension(x), PropertyType::Extension(y)) => same_chars(
                &chars_of(x.as_str()),
                &chars_of(y.as_str()),
            ),
            _ => true,
        }
    }

    /// How many properties of this type a card may hold.
    pub fn get_cardinality(&self) -> (r: Cardinality)
        ensures
            r == cardinality_of(self@),
    {
        match self {
            PropertyType::Begin | PropertyType::End | PropertyType::Version => Cardinality::ExactlyOne,
            PropertyType::Fn => Cardinality::AtLeastOne,
            PropertyType::N | PropertyType::Bday | PropertyType::Anniversary | PropertyType::Gender
            | PropertyType::Prodid | PropertyType::Rev | PropertyType::Uid
            | PropertyType::Kind => Cardinality::AtMostOne,
            _ => Cardinality::Arbitrary,
        }
    }

    /// The kind of value this type holds when no `VALUE` parameter says
    /// otherwise.
    pub fn default_kind(&self) -> (r: ValueKind)
        ensures
            r == default_kind_of(self@),
    {
        match self {
            PropertyType::Source | PropertyType::Photo | PropertyType::Impp | PropertyType::Geo | PropertyType::Logo | PropertyType::Member | PropertyType::Related | PropertyType::Sound | PropertyType::Uid | PropertyType::Url | PropertyType::Key | PropertyType::Fburl | PropertyType::Caladruri | PropertyType::Caluri => ValueKind::Uri,
            PropertyType::N | PropertyType::Gender | PropertyType::Adr | PropertyType::Org | PropertyType::Clientpidmap => ValueKind::StructuredText,
            PropertyType::Nickname | PropertyType::Categories => ValueKind::TextList,
            PropertyType::Bday | PropertyType::Anniversary => ValueKind::DateAndOrTime,
            PropertyType::Lang => ValueKind::LanguageTag,
            PropertyType::Rev => ValueKind::Timestamp,
            _ => ValueKind::Text,
        }
    }
}

} // verus!
