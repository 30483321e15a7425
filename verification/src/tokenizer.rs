//! The tokenizer: it turns lexemes into tokens with a meaning.

use vstd::prelude::*;
use crate::error::LciError;
use crate::lexer::{Lexeme, LexemeList};
use crate::text::{
    chars_of, float_literal_exec, is_float_literal, parse_i64, spec_parse_i64, str_eq,
    string_of,
};

verus! {

/// The tokens of LOLCODE that carry no value.
#[derive(Debug, Clone, Copy, PartialEq, Eq, Structural)]
pub enum Keyword {
    /// IT - implicit variable
    It,
    /// ITZ LIEK A - inherited object
    ItzLiekA,
    /// NOOB - nil
    Noob,
    /// NUMBR - integer type
    Numbr,
    /// NUMBAR - float type
    Numbar,
    /// TROOF - boolean type
    Troof,
    /// YARN - string type
    Yarn,
    /// BUKKIT - array type
    Bukkit,
    /// end of input
    Eof,
    /// hard or soft newline
    Newline,
    /// HAI - start of program
    Hai,
    /// KTHXBYE - end of program
    KThxBye,
    /// HAS A - variable declaration
    HasA,
    /// HAS AN - variable declaration
    HasAn,
    /// ITZ A - type initialization
    ItzA,
    /// ITZ - value initialization
    Itz,
    /// R NOOB - deallocation
    RNoob,
    /// R - assignment
    R,
    /// AN YR - function argument separator
    AnYr,
    /// AN - built-in function argument separator
    An,
    /// SUM OF - addition
    SumOf,
    /// DIFF OF - subtraction
    DiffOf,
    /// PRODUKT OF - multiplication
    ProduktOf,
    /// QUOSHUNT OF - division
    QuoshuntOf,
    /// MOD OF - modulo
    ModOf,
    /// BIGGR OF - max/greater
    BiggrOf,
    /// SMALLR OF - min/less
    SmallrOf,
    /// BOTH OF - logical AND
    BothOf,
    /// EITHER OF - logical OR
    EitherOf,
    /// WON OF - logical XOR
    WonOf,
    /// NOT - logical NOT
    Not,
    /// MKAY - infinite arity delimiter
    Mkay,
    /// ALL OF - infinite arity AND
    AllOf,
    /// ANY OF - infinite arity OR
    AnyOf,
    /// BOTH SAEM - equality
    BothSaem,
    /// DIFFRINT - inequality
    Diffrint,
    /// MAEK - cast
    Maek,
    /// A - cast target separator
    A,
    /// IS NOW A - in-place cast
    IsNowA,
    /// VISIBLE - print to stdout
    Visible,
    /// INVISIBLE - print to stderr
    Invisible,
    /// SMOOSH - string concatenation
    Smoosh,
    /// ! - suppress newline in output
    Bang,
    /// GIMMEH - input
    Gimmeh,
    /// O RLY? - conditional
    ORly,
    /// YA RLY - true branch
    YaRly,
    /// MEBBE - else-if branch
    Mebbe,
    /// NO WAI - false branch
    NoWai,
    /// OIC - end conditional/switch
    Oic,
    /// WTF? - switch
    Wtf,
    /// OMG - case
    Omg,
    /// OMGWTF - default case
    OmgWtf,
    /// GTFO - break/return
    Gtfo,
    /// IM IN YR - loop start
    ImInYr,
    /// UPPIN - increment
    Uppin,
    /// NERFIN - decrement
    Nerfin,
    /// YR - function/loop name delimiter
    Yr,
    /// TIL - loop until condition
    Til,
    /// WILE - loop while condition
    Wile,
    /// IM OUTTA YR - loop end
    ImOuttaYr,
    /// HOW IZ - function definition start
    HowIz,
    /// IZ - function scope delimiter
    Iz,
    /// IF U SAY SO - function definition end
    IfUSaySo,
    /// FOUND YR - return with value
    FoundYr,
    /// SRS - indirect variable access
    Srs,
    /// 'Z - array slot access
    ApostropheZ,
    /// O HAI IM - alternate array declaration
    OHaiIm,
    /// IM LIEK - alternate inheritance
    ImLiek,
    /// KTHX - end alternate array
    Kthx,
}

/// Token types in LOLCODE. A float literal is held as its source text;
/// its value is computed where it is used.
#[derive(Debug, Clone, PartialEq)]
pub enum TokenType {
    /// Integer literal.
    Integer(i64),
    /// Floating point literal, as written.
    Float(String),
    /// String literal, escapes resolved.
    String(String),
    /// Identifier.
    Identifier(String),
    /// Boolean literal (WIN or FAIL).
    Boolean(bool),
    /// IT - implicit variable
    It,
    /// ITZ LIEK A - inherited object
    ItzLiekA,
    /// NOOB - nil
    Noob,
    /// NUMBR - integer type
    Numbr,
    /// NUMBAR - float type
    Numbar,
    /// TROOF - boolean type
    Troof,
    /// YARN - string type
    Yarn,
    /// BUKKIT - array type
    Bukkit,
    /// end of input
    Eof,
    /// hard or soft newline
    Newline,
    /// HAI - start of program
    Hai,
    /// KTHXBYE - end of program
    KThxBye,
    /// HAS A - variable declaration
    HasA,
    /// HAS AN - variable declaration
    HasAn,
    /// ITZ A - type initialization
    ItzA,
    /// ITZ - value initialization
    Itz,
    /// R NOOB - deallocation
    RNoob,
    /// R - assignment
    R,
    /// AN YR - function argument separator
    AnYr,
    /// AN - built-in function argument separator
    An,
    /// SUM OF - addition
    SumOf,
    /// DIFF OF - subtraction
    DiffOf,
    /// PRODUKT OF - multiplication
    ProduktOf,
    /// QUOSHUNT OF - division
    QuoshuntOf,
    /// MOD OF - modulo
    ModOf,
    /// BIGGR OF - max/greater
    BiggrOf,
    /// SMALLR OF - min/less
    SmallrOf,
    /// BOTH OF - logical AND
    BothOf,
    /// EITHER OF - logical OR
    EitherOf,
    /// WON OF - logical XOR
    WonOf,
    /// NOT - logical NOT
    Not,
    /// MKAY - infinite arity delimiter
    Mkay,
    /// ALL OF - infinite arity AND
    AllOf,
    /// ANY OF - infinite arity OR
    AnyOf,
    /// BOTH SAEM - equality
    BothSaem,
    /// DIFFRINT - inequality
    Diffrint,
    /// MAEK - cast
    Maek,
    /// A - cast target separator
    A,
    /// IS NOW A - in-place cast
    IsNowA,
    /// VISIBLE - print to stdout
    Visible,
    /// INVISIBLE - print to stderr
    Invisible,
    /// SMOOSH - string concatenation
    Smoosh,
    /// ! - suppress newline in output
    Bang,
    /// GIMMEH - input
    Gimmeh,
    /// O RLY? - conditional
    ORly,
    /// YA RLY - true branch
    YaRly,
    /// MEBBE - else-if branch
    Mebbe,
    /// NO WAI - false branch
    NoWai,
    /// OIC - end conditional/switch
    Oic,
    /// WTF? - switch
    Wtf,
    /// OMG - case
    Omg,
    /// OMGWTF - default case
    OmgWtf,
    /// GTFO - break/return
    Gtfo,
    /// IM IN YR - loop start
    ImInYr,
    /// UPPIN - increment
    Uppin,
    /// NERFIN - decrement
    Nerfin,
    /// YR - function/loop name delimiter
    Yr,
    /// TIL - loop until condition
    Til,
    /// WILE - loop while condition
    Wile,
    /// IM OUTTA YR - loop end
    ImOuttaYr,
    /// HOW IZ - function definition start
    HowIz,
    /// IZ - function scope delimiter
    Iz,
    /// IF U SAY SO - function definition end
    IfUSaySo,
    /// FOUND YR - return with value
    FoundYr,
    /// SRS - indirect variable access
    Srs,
    /// 'Z - array slot access
    ApostropheZ,
    /// O HAI IM - alternate array declaration
    OHaiIm,
    /// IM LIEK - alternate inheritance
    ImLiek,
    /// KTHX - end alternate array
    Kthx,
}

/// What a token type denotes, with its text as characters.
pub enum TokenModel {
    Integer(i64),
    Float(Seq<char>),
    Str(Seq<char>),
    Identifier(Seq<char>),
    Boolean(bool),
    Keyword(Keyword),
}

impl View for TokenType {
    type V = TokenModel;

    open spec fn view(&self) -> TokenModel {
        match self {
            TokenType::Integer(v) => TokenModel::Integer(*v),
            TokenType::Float(s) => TokenModel::Float(s@),
            TokenType::String(s) => TokenModel::Str(s@),
            TokenType::Identifier(s) => TokenModel::Identifier(s@),
            TokenType::Boolean(b) => TokenModel::Boolean(*b),
            TokenType::It => TokenModel::Keyword(Keyword::It),
            TokenType::ItzLiekA => TokenModel::Keyword(Keyword::ItzLiekA),
            TokenType::Noob => TokenModel::Keyword(Keyword::Noob),
            TokenType::Numbr => TokenModel::Keyword(Keyword::Numbr),
            TokenType::Numbar => TokenModel::Keyword(Keyword::Numbar),
            TokenType::Troof => TokenModel::Keyword(Keyword::Troof),
            TokenType::Yarn => TokenModel::Keyword(Keyword::Yarn),
            TokenType::Bukkit => TokenModel::Keyword(Keyword::Bukkit),
            TokenType::Eof => TokenModel::Keyword(Keyword::Eof),
            TokenType::Newline => TokenModel::Keyword(Keyword::Newline),
            TokenType::Hai => TokenModel::Keyword(Keyword::Hai),
            TokenType::KThxBye => TokenModel::Keyword(Keyword::KThxBye),
            TokenType::HasA => TokenModel::Keyword(Keyword::HasA),
            TokenType::HasAn => TokenModel::Keyword(Keyword::HasAn),
            TokenType::ItzA => TokenModel::Keyword(Keyword::ItzA),
            TokenType::Itz => TokenModel::Keyword(Keyword::Itz),
            TokenType::RNoob => TokenModel::Keyword(Keyword::RNoob),
            TokenType::R => TokenModel::Keyword(Keyword::R),
            TokenType::AnYr => TokenModel::Keyword(Keyword::AnYr),
            TokenType::An => TokenModel::Keyword(Keyword::An),
            TokenType::SumOf => TokenModel::Keyword(Keyword::SumOf),
            TokenType::DiffOf => TokenModel::Keyword(Keyword::DiffOf),
            TokenType::ProduktOf => TokenModel::Keyword(Keyword::ProduktOf),
            TokenType::QuoshuntOf => TokenModel::Keyword(Keyword::QuoshuntOf),
            TokenType::ModOf => TokenModel::Keyword(Keyword::ModOf),
            TokenType::BiggrOf => TokenModel::Keyword(Keyword::BiggrOf),
            TokenType::SmallrOf => TokenModel::Keyword(Keyword::SmallrOf),
            TokenType::BothOf => TokenModel::Keyword(Keyword::BothOf),
            TokenType::EitherOf => TokenModel::Keyword(Keyword::EitherOf),
            TokenType::WonOf => TokenModel::Keyword(Keyword::WonOf),
            TokenType::Not => TokenModel::Keyword(Keyword::Not),
            TokenType::Mkay => TokenModel::Keyword(Keyword::Mkay),
            TokenType::AllOf => TokenModel::Keyword(Keyword::AllOf),
            TokenType::AnyOf => TokenModel::Keyword(Keyword::AnyOf),
            TokenType::BothSaem => TokenModel::Keyword(Keyword::BothSaem),
            TokenType::Diffrint => TokenModel::Keyword(Keyword::Diffrint),
            TokenType::Maek => TokenModel::Keyword(Keyword::Maek),
            TokenType::A => TokenModel::Keyword(Keyword::A),
            TokenType::IsNowA => TokenModel::Keyword(Keyword::IsNowA),
            TokenType::Visible => TokenModel::Keyword(Keyword::Visible),
            TokenType::Invisible => TokenModel::Keyword(Keyword::Invisible),
            TokenType::Smoosh => TokenModel::Keyword(Keyword::Smoosh),
            TokenType::Bang => TokenModel::Keyword(Keyword::Bang),
            TokenType::Gimmeh => TokenModel::Keyword(Keyword::Gimmeh),
            TokenType::ORly => TokenModel::Keyword(Keyword::ORly),
            TokenType::YaRly => TokenModel::Keyword(Keyword::YaRly),
            TokenType::Mebbe => TokenModel::Keyword(Keyword::Mebbe),
            TokenType::NoWai => TokenModel::Keyword(Keyword::NoWai),
            TokenType::Oic => TokenModel::Keyword(Keyword::Oic),
            TokenType::Wtf => TokenModel::Keyword(Keyword::Wtf),
            TokenType::Omg => TokenModel::Keyword(Keyword::Omg),
            TokenType::OmgWtf => TokenModel::Keyword(Keyword::OmgWtf),
            TokenType::Gtfo => TokenModel::Keyword(Keyword::Gtfo),
            TokenType::ImInYr => TokenModel::Keyword(Keyword::ImInYr),
            TokenType::Uppin => TokenModel::Keyword(Keyword::Uppin),
            TokenType::Nerfin => TokenModel::Keyword(Keyword::Nerfin),
            TokenType::Yr => TokenModel::Keyword(Keyword::Yr),
            TokenType::Til => TokenModel::Keyword(Keyword::Til),
            TokenType::Wile => TokenModel::Keyword(Keyword::Wile),
            TokenType::ImOuttaYr => TokenModel::Keyword(Keyword::ImOuttaYr),
            TokenType::HowIz => TokenModel::Keyword(Keyword::HowIz),
            TokenType::Iz => TokenModel::Keyword(Keyword::Iz),
            TokenType::IfUSaySo => TokenModel::Keyword(Keyword::IfUSaySo),
            TokenType::FoundYr => TokenModel::Keyword(Keyword::FoundYr),
            TokenType::Srs => TokenModel::Keyword(Keyword::Srs),
            TokenType::ApostropheZ => TokenModel::Keyword(Keyword::ApostropheZ),
            TokenType::OHaiIm => TokenModel::Keyword(Keyword::OHaiIm),
            TokenType::ImLiek => TokenModel::Keyword(Keyword::ImLiek),
            TokenType::Kthx => TokenModel::Keyword(Keyword::Kthx),
        }
    }
}

impl TokenType {
    /// The keyword that this token type is, if it is one.
    pub fn keyword(&self) -> (r: Option<Keyword>)
        ensures
            match self@ {
                TokenModel::Keyword(k) => r == Some(k),
                _ => r is None,
            },
    {
        match self {
            TokenType::Integer(_) => None,
            TokenType::Float(_) => None,
            TokenType::String(_) => None,
            TokenType::Identifier(_) => None,
            TokenType::Boolean(_) => None,
            TokenType::It => Some(Keyword::It),
            TokenType::ItzLiekA => Some(Keyword::ItzLiekA),
            TokenType::Noob => Some(Keyword::Noob),
            TokenType::Numbr => Some(Keyword::Numbr),
            TokenType::Numbar => Some(Keyword::Numbar),
            TokenType::Troof => Some(Keyword::Troof),
            TokenType::Yarn => Some(Keyword::Yarn),
            TokenType::Bukkit => Some(Keyword::Bukkit),
            TokenType::Eof => Some(Keyword::Eof),
            TokenType::Newline => Some(Keyword::Newline),
            TokenType::Hai => Some(Keyword::Hai),
            TokenType::KThxBye => Some(Keyword::KThxBye),
            TokenType::HasA => Some(Keyword::HasA),
            TokenType::HasAn => Some(Keyword::HasAn),
            TokenType::ItzA => Some(Keyword::ItzA),
            TokenType::Itz => Some(Keyword::Itz),
            TokenType::RNoob => Some(Keyword::RNoob),
            TokenType::R => Some(Keyword::R),
            TokenType::AnYr => Some(Keyword::AnYr),
            TokenType::An => Some(Keyword::An),
            TokenType::SumOf => Some(Keyword::SumOf),
            TokenType::DiffOf => Some(Keyword::DiffOf),
            TokenType::ProduktOf => Some(Keyword::ProduktOf),
            TokenType::QuoshuntOf => Some(Keyword::QuoshuntOf),
            TokenType::ModOf => Some(Keyword::ModOf),
            TokenType::BiggrOf => Some(Keyword::BiggrOf),
            TokenType::SmallrOf => Some(Keyword::SmallrOf),
            TokenType::BothOf => Some(Keyword::BothOf),
            TokenType::EitherOf => Some(Keyword::EitherOf),
            TokenType::WonOf => Some(Keyword::WonOf),
            TokenType::Not => Some(Keyword::Not),
            TokenType::Mkay => Some(Keyword::Mkay),
            TokenType::AllOf => Some(Keyword::AllOf),
            TokenType::AnyOf => Some(Keyword::AnyOf),
            TokenType::BothSaem => Some(Keyword::BothSaem),
            TokenType::Diffrint => Some(Keyword::Diffrint),
            TokenType::Maek => Some(Keyword::Maek),
            TokenType::A => Some(Keyword::A),
            TokenType::IsNowA => Some(Keyword::IsNowA),
            TokenType::Visible => Some(Keyword::Visible),
            TokenType::Invisible => Some(Keyword::Invisible),
            TokenType::Smoosh => Some(Keyword::Smoosh),
            TokenType::Bang => Some(Keyword::Bang),
            TokenType::Gimmeh => Some(Keyword::Gimmeh),
            TokenType::ORly => Some(Keyword::ORly),
            TokenType::YaRly => Some(Keyword::YaRly),
            TokenType::Mebbe => Some(Keyword::Mebbe),
            TokenType::NoWai => Some(Keyword::NoWai),
            TokenType::Oic => Some(Keyword::Oic),
            TokenType::Wtf => Some(Keyword::Wtf),
            TokenType::Omg => Some(Keyword::Omg),
            TokenType::OmgWtf => Some(Keyword::OmgWtf),
            TokenType::Gtfo => Some(Keyword::Gtfo),
            TokenType::ImInYr => Some(Keyword::ImInYr),
            TokenType::Uppin => Some(Keyword::Uppin),
            TokenType::Nerfin => Some(Keyword::Nerfin),
            TokenType::Yr => Some(Keyword::Yr),
            TokenType::Til => Some(Keyword::Til),
            TokenType::Wile => Some(Keyword::Wile),
            TokenType::ImOuttaYr => Some(Keyword::ImOuttaYr),
            TokenType::HowIz => Some(Keyword::HowIz),
            TokenType::Iz => Some(Keyword::Iz),
            TokenType::IfUSaySo => Some(Keyword::IfUSaySo),
            TokenType::FoundYr => Some(Keyword::FoundYr),
            TokenType::Srs => Some(Keyword::Srs),
            TokenType::ApostropheZ => Some(Keyword::ApostropheZ),
            TokenType::OHaiIm => Some(Keyword::OHaiIm),
            TokenType::ImLiek => Some(Keyword::ImLiek),
            TokenType::Kthx => Some(Keyword::Kthx),
        }
    }

    /// The token type of a keyword.
    pub fn from_keyword(k: Keyword) -> (t: TokenType)
        ensures
            t@ == TokenModel::Keyword(k),
    {
        match k {
            Keyword::It => TokenType::It,
            Keyword::ItzLiekA => TokenType::ItzLiekA,
            Keyword::Noob => TokenType::Noob,
            Keyword::Numbr => TokenType::Numbr,
            Keyword::Numbar => TokenType::Numbar,
            Keyword::Troof => TokenType::Troof,
            Keyword::Yarn => TokenType::Yarn,
            Keyword::Bukkit => TokenType::Bukkit,
            Keyword::Eof => TokenType::Eof,
            Keyword::Newline => TokenType::Newline,
            Keyword::Hai => TokenType::Hai,
            Keyword::KThxBye => TokenType::KThxBye,
            Keyword::HasA => TokenType::HasA,
            Keyword::HasAn => TokenType::HasAn,
            Keyword::ItzA => TokenType::ItzA,
            Keyword::Itz => TokenType::Itz,
            Keyword::RNoob => TokenType::RNoob,
            Keyword::R => TokenType::R,
            Keyword::AnYr => TokenType::AnYr,
            Keyword::An => TokenType::An,
            Keyword::SumOf => TokenType::SumOf,
            Keyword::DiffOf => TokenType::DiffOf,
            Keyword::ProduktOf => TokenType::ProduktOf,
            Keyword::QuoshuntOf => TokenType::QuoshuntOf,
            Keyword::ModOf => TokenType::ModOf,
            Keyword::BiggrOf => TokenType::BiggrOf,
            Keyword::SmallrOf => TokenType::SmallrOf,
            Keyword::BothOf => TokenType::BothOf,
            Keyword::EitherOf => TokenType::EitherOf,
            Keyword::WonOf => TokenType::WonOf,
            Keyword::Not => TokenType::Not,
            Keyword::Mkay => TokenType::Mkay,
            Keyword::AllOf => TokenType::AllOf,
            Keyword::AnyOf => TokenType::AnyOf,
            Keyword::BothSaem => TokenType::BothSaem,
            Keyword::Diffrint => TokenType::Diffrint,
            Keyword::Maek => TokenType::Maek,
            Keyword::A => TokenType::A,
            Keyword::IsNowA => TokenType::IsNowA,
            Keyword::Visible => TokenType::Visible,
            Keyword::Invisible => TokenType::Invisible,
            Keyword::Smoosh => TokenType::Smoosh,
            Keyword::Bang => TokenType::Bang,
            Keyword::Gimmeh => TokenType::Gimmeh,
            Keyword::ORly => TokenType::ORly,
            Keyword::YaRly => TokenType::YaRly,
            Keyword::Mebbe => TokenType::Mebbe,
            Keyword::NoWai => TokenType::NoWai,
            Keyword::Oic => TokenType::Oic,
            Keyword::Wtf => TokenType::Wtf,
            Keyword::Omg => TokenType::Omg,
            Keyword::OmgWtf => TokenType::OmgWtf,
            Keyword::Gtfo => TokenType::Gtfo,
            Keyword::ImInYr => TokenType::ImInYr,
            Keyword::Uppin => TokenType::Uppin,
            Keyword::Nerfin => TokenType::Nerfin,
            Keyword::Yr => TokenType::Yr,
            Keyword::Til => TokenType::Til,
            Keyword::Wile => TokenType::Wile,
            Keyword::ImOuttaYr => TokenType::ImOuttaYr,
            Keyword::HowIz => TokenType::HowIz,
            Keyword::Iz => TokenType::Iz,
            Keyword::IfUSaySo => TokenType::IfUSaySo,
            Keyword::FoundYr => TokenType::FoundYr,
            Keyword::Srs => TokenType::Srs,
            Keyword::ApostropheZ => TokenType::ApostropheZ,
            Keyword::OHaiIm => TokenType::OHaiIm,
            Keyword::ImLiek => TokenType::ImLiek,
            Keyword::Kthx => TokenType::Kthx,
        }
    }
}

/// The keyword that a single lexeme spells, if any.
pub open spec fn single_keyword(img: Seq<char>) -> Option<Keyword> {
    if img == "\n"@ { Some(Keyword::Newline) }
    else if img == "!"@ { Some(Keyword::Bang) }
    else if img == "'Z"@ { Some(Keyword::ApostropheZ) }
    else if img == "IT"@ { Some(Keyword::It) }
    else if img == "NOOB"@ { Some(Keyword::Noob) }
    else if img == "NUMBR"@ { Some(Keyword::Numbr) }
    else if img == "NUMBAR"@ { Some(Keyword::Numbar) }
    else if img == "TROOF"@ { Some(Keyword::Troof) }
    else if img == "YARN"@ { Some(Keyword::Yarn) }
    else if img == "BUKKIT"@ { Some(Keyword::Bukkit) }
    else if img == "HAI"@ { Some(Keyword::Hai) }
    else if img == "KTHXBYE"@ { Some(Keyword::KThxBye) }
    else if img == "R"@ { Some(Keyword::R) }
    else if img == "AN"@ { Some(Keyword::An) }
    else if img == "NOT"@ { Some(Keyword::Not) }
    else if img == "MKAY"@ { Some(Keyword::Mkay) }
    else if img == "MAEK"@ { Some(Keyword::Maek) }
    else if img == "A"@ { Some(Keyword::A) }
    else if img == "VISIBLE"@ { Some(Keyword::Visible) }
    else if img == "INVISIBLE"@ { Some(Keyword::Invisible) }
    else if img == "SMOOSH"@ { Some(Keyword::Smoosh) }
    else if img == "GIMMEH"@ { Some(Keyword::Gimmeh) }
    else if img == "MEBBE"@ { Some(Keyword::Mebbe) }
    else if img == "OIC"@ { Some(Keyword::Oic) }
    else if img == "OMG"@ { Some(Keyword::Omg) }
    else if img == "OMGWTF"@ { Some(Keyword::OmgWtf) }
    else if img == "GTFO"@ { Some(Keyword::Gtfo) }
    else if img == "UPPIN"@ { Some(Keyword::Uppin) }
    else if img == "NERFIN"@ { Some(Keyword::Nerfin) }
    else if img == "YR"@ { Some(Keyword::Yr) }
    else if img == "TIL"@ { Some(Keyword::Til) }
    else if img == "WILE"@ { Some(Keyword::Wile) }
    else if img == "IZ"@ { Some(Keyword::Iz) }
    else if img == "SRS"@ { Some(Keyword::Srs) }
    else if img == "KTHX"@ { Some(Keyword::Kthx) }
    else if img == "ITZ"@ { Some(Keyword::Itz) }
    else if img == "DIFFRINT"@ { Some(Keyword::Diffrint) }
    else if img == "WTF?"@ { Some(Keyword::Wtf) }
    else { None }
}

fn single_keyword_exec(img: &str) -> (r: Option<Keyword>)
    ensures
        r == single_keyword(img@),
{
    if str_eq(img, "\n") { Some(Keyword::Newline) }
    else if str_eq(img, "!") { Some(Keyword::Bang) }
    else if str_eq(img, "'Z") { Some(Keyword::ApostropheZ) }
    else if str_eq(img, "IT") { Some(Keyword::It) }
    else if str_eq(img, "NOOB") { Some(Keyword::Noob) }
    else if str_eq(img, "NUMBR") { Some(Keyword::Numbr) }
    else if str_eq(img, "NUMBAR") { Some(Keyword::Numbar) }
    else if str_eq(img, "TROOF") { Some(Keyword::Troof) }
    else if str_eq(img, "YARN") { Some(Keyword::Yarn) }
    else if str_eq(img, "BUKKIT") { Some(Keyword::Bukkit) }
    else if str_eq(img, "HAI") { Some(Keyword::Hai) }
    else if str_eq(img, "KTHXBYE") { Some(Keyword::KThxBye) }
    else if str_eq(img, "R") { Some(Keyword::R) }
    else if str_eq(img, "AN") { Some(Keyword::An) }
    else if str_eq(img, "NOT") { Some(Keyword::Not) }
    else if str_eq(img, "MKAY") { Some(Keyword::Mkay) }
    else if str_eq(img, "MAEK") { Some(Keyword::Maek) }
    else if str_eq(img, "A") { Some(Keyword::A) }
    else if str_eq(img, "VISIBLE") { Some(Keyword::Visible) }
    else if str_eq(img, "INVISIBLE") { Some(Keyword::Invisible) }
    else if str_eq(img, "SMOOSH") { Some(Keyword::Smoosh) }
    else if str_eq(img, "GIMMEH") { Some(Keyword::Gimmeh) }
    else if str_eq(img, "MEBBE") { Some(Keyword::Mebbe) }
    else if str_eq(img, "OIC") { Some(Keyword::Oic) }
    else if str_eq(img, "OMG") { Some(Keyword::Omg) }
    else if str_eq(img, "OMGWTF") { Some(Keyword::OmgWtf) }
    else if str_eq(img, "GTFO") { Some(Keyword::Gtfo) }
    else if str_eq(img, "UPPIN") { Some(Keyword::Uppin) }
    else if str_eq(img, "NERFIN") { Some(Keyword::Nerfin) }
    else if str_eq(img, "YR") { Some(Keyword::Yr) }
    else if str_eq(img, "TIL") { Some(Keyword::Til) }
    else if str_eq(img, "WILE") { Some(Keyword::Wile) }
    else if str_eq(img, "IZ") { Some(Keyword::Iz) }
    else if str_eq(img, "SRS") { Some(Keyword::Srs) }
    else if str_eq(img, "KTHX") { Some(Keyword::Kthx) }
    else if str_eq(img, "ITZ") { Some(Keyword::Itz) }
    else if str_eq(img, "DIFFRINT") { Some(Keyword::Diffrint) }
    else if str_eq(img, "WTF?") { Some(Keyword::Wtf) }
    else { None }
}

/// The keyword that `k` lexemes, their images joined by single spaces,
/// spell, for the keywords of `k` words.
pub open spec fn joined_keyword(k: int, j: Seq<char>) -> Option<Keyword> {
    if k == 3 && j == "IM OUTTA YR"@ { Some(Keyword::ImOuttaYr) }
    else if k == 4 && j == "IF U SAY SO"@ { Some(Keyword::IfUSaySo) }
    else if k == 3 && j == "ITZ LIEK A"@ { Some(Keyword::ItzLiekA) }
    else if k == 3 && j == "O HAI IM"@ { Some(Keyword::OHaiIm) }
    else if k == 3 && j == "IS NOW A"@ { Some(Keyword::IsNowA) }
    else if k == 3 && j == "IM IN YR"@ { Some(Keyword::ImInYr) }
    else if k == 2 && j == "O RLY?"@ { Some(Keyword::ORly) }
    else if k == 2 && j == "YA RLY"@ { Some(Keyword::YaRly) }
    else if k == 2 && j == "NO WAI"@ { Some(Keyword::NoWai) }
    else if k == 2 && j == "IM LIEK"@ { Some(Keyword::ImLiek) }
    else if k == 2 && j == "HAS A"@ { Some(Keyword::HasA) }
    else if k == 2 && j == "HAS AN"@ { Some(Keyword::HasAn) }
    else if k == 2 && j == "ITZ A"@ { Some(Keyword::ItzA) }
    else if k == 2 && j == "R NOOB"@ { Some(Keyword::RNoob) }
    else if k == 2 && j == "AN YR"@ { Some(Keyword::AnYr) }
    else if k == 2 && j == "SUM OF"@ { Some(Keyword::SumOf) }
    else if k == 2 && j == "DIFF OF"@ { Some(Keyword::DiffOf) }
    else if k == 2 && j == "PRODUKT OF"@ { Some(Keyword::ProduktOf) }
    else if k == 2 && j == "QUOSHUNT OF"@ { Some(Keyword::QuoshuntOf) }
    else if k == 2 && j == "MOD OF"@ { Some(Keyword::ModOf) }
    else if k == 2 && j == "BIGGR OF"@ { Some(Keyword::BiggrOf) }
    else if k == 2 && j == "SMALLR OF"@ { Some(Keyword::SmallrOf) }
    else if k == 2 && j == "BOTH OF"@ { Some(Keyword::BothOf) }
    else if k == 2 && j == "EITHER OF"@ { Some(Keyword::EitherOf) }
    else if k == 2 && j == "WON OF"@ { Some(Keyword::WonOf) }
    else if k == 2 && j == "ALL OF"@ { Some(Keyword::AllOf) }
    else if k == 2 && j == "ANY OF"@ { Some(Keyword::AnyOf) }
    else if k == 2 && j == "BOTH SAEM"@ { Some(Keyword::BothSaem) }
    else if k == 2 && j == "HOW IZ"@ { Some(Keyword::HowIz) }
    else if k == 2 && j == "FOUND YR"@ { Some(Keyword::FoundYr) }
    else { None }
}

fn joined_keyword_exec(k: usize, j: &str) -> (r: Option<Keyword>)
    ensures
        r == joined_keyword(k as int, j@),
{
    if k == 3 && str_eq(j, "IM OUTTA YR") { Some(Keyword::ImOuttaYr) }
    else if k == 4 && str_eq(j, "IF U SAY SO") { Some(Keyword::IfUSaySo) }
    else if k == 3 && str_eq(j, "ITZ LIEK A") { Some(Keyword::ItzLiekA) }
    else if k == 3 && str_eq(j, "O HAI IM") { Some(Keyword::OHaiIm) }
    else if k == 3 && str_eq(j, "IS NOW A") { Some(Keyword::IsNowA) }
    else if k == 3 && str_eq(j, "IM IN YR") { Some(Keyword::ImInYr) }
    else if k == 2 && str_eq(j, "O RLY?") { Some(Keyword::ORly) }
    else if k == 2 && str_eq(j, "YA RLY") { Some(Keyword::YaRly) }
    else if k == 2 && str_eq(j, "NO WAI") { Some(Keyword::NoWai) }
    else if k == 2 && str_eq(j, "IM LIEK") { Some(Keyword::ImLiek) }
    else if k == 2 && str_eq(j, "HAS A") { Some(Keyword::HasA) }
    else if k == 2 && str_eq(j, "HAS AN") { Some(Keyword::HasAn) }
    else if k == 2 && str_eq(j, "ITZ A") { Some(Keyword::ItzA) }
    else if k == 2 && str_eq(j, "R NOOB") { Some(Keyword::RNoob) }
    else if k == 2 && str_eq(j, "AN YR") { Some(Keyword::AnYr) }
    else if k == 2 && str_eq(j, "SUM OF") { Some(Keyword::SumOf) }
    else if k == 2 && str_eq(j, "DIFF OF") { Some(Keyword::DiffOf) }
    else if k == 2 && str_eq(j, "PRODUKT OF") { Some(Keyword::ProduktOf) }
    else if k == 2 && str_eq(j, "QUOSHUNT OF") { Some(Keyword::QuoshuntOf) }
    else if k == 2 && str_eq(j, "MOD OF") { Some(Keyword::ModOf) }
    else if k == 2 && str_eq(j, "BIGGR OF") { Some(Keyword::BiggrOf) }
    else if k == 2 && str_eq(j, "SMALLR OF") { Some(Keyword::SmallrOf) }
    else if k == 2 && str_eq(j, "BOTH OF") { Some(Keyword::BothOf) }
    else if k == 2 && str_eq(j, "EITHER OF") { Some(Keyword::EitherOf) }
    else if k == 2 && str_eq(j, "WON OF") { Some(Keyword::WonOf) }
    else if k == 2 && str_eq(j, "ALL OF") { Some(Keyword::AllOf) }
    else if k == 2 && str_eq(j, "ANY OF") { Some(Keyword::AnyOf) }
    else if k == 2 && str_eq(j, "BOTH SAEM") { Some(Keyword::BothSaem) }
    else if k == 2 && str_eq(j, "HOW IZ") { Some(Keyword::HowIz) }
    else if k == 2 && str_eq(j, "FOUND YR") { Some(Keyword::FoundYr) }
    else { None }
}
/// The images of `k` lexemes from `lo` on, joined by single spaces.
pub open spec fn join_images(ls: Seq<Lexeme>, lo: int, k: int) -> Seq<char>
    decreases k,
{
    if k <= 0 {
        Seq::empty()
    } else if k == 1 {
        ls[lo].image@
    } else {
        join_images(ls, lo, k - 1) + seq![' '] + ls[lo + k - 1].image@
    }
}

/// The keyword that the lexemes from `i` on start with, as some words of
/// it joined, and how many lexemes it takes: four, three, then two words
/// are tried, in that order, each keyword at its own number of words.
pub open spec fn multi_keyword(ls: Seq<Lexeme>, i: int) -> Option<(Keyword, int)> {
    let n = ls.len() - i;
    if n >= 4 && joined_keyword(4, join_images(ls, i, 4)) is Some {
        Some((joined_keyword(4, join_images(ls, i, 4)).unwrap(), 4))
    } else if n >= 3 && joined_keyword(3, join_images(ls, i, 3)) is Some {
        Some((joined_keyword(3, join_images(ls, i, 3)).unwrap(), 3))
    } else if n >= 2 && joined_keyword(2, join_images(ls, i, 2)) is Some {
        Some((joined_keyword(2, join_images(ls, i, 2)).unwrap(), 2))
    } else {
        None
    }
}

/// The characters of a string literal from `i` on, escapes resolved, up to
/// its closing quote: `:)` is a newline, `:>` a tab, `:o` a bell, `:"` a
/// quote and `::` a colon; a `:` before any other character stays with it.
pub open spec fn unescape_from(cs: Seq<char>, i: int) -> Seq<char>
    decreases cs.len() - i,
{
    if i < 0 || i >= cs.len() || cs[i] == '"' {
        Seq::empty()
    } else if cs[i] == ':' && i + 1 < cs.len() {
        let c = cs[i + 1];
        let e = if c == ')' {
            seq!['\n']
        } else if c == '>' {
            seq!['\t']
        } else if c == 'o' {
            seq!['\u{7}']
        } else if c == '"' {
            seq!['"']
        } else if c == ':' {
            seq![':']
        } else {
            seq![':', c]
        };
        e + unescape_from(cs, i + 2)
    } else {
        seq![cs[i]] + unescape_from(cs, i + 1)
    }
}

/// The content of a string literal: what follows its opening quote, with
/// escapes resolved; text that does not start with a quote is kept as is.
pub open spec fn spec_string_literal(s: Seq<char>) -> Seq<char> {
    if s.len() > 0 && s[0] == '"' {
        unescape_from(s, 1)
    } else {
        s
    }
}

/// What a single lexeme means: a keyword, a boolean, a string, an integer,
/// a float or, failing all of these, an identifier.
pub open spec fn classify(img: Seq<char>) -> TokenModel {
    match single_keyword(img) {
        Some(k) => TokenModel::Keyword(k),
        None => if img == "WIN"@ {
            TokenModel::Boolean(true)
        } else if img == "FAIL"@ {
            TokenModel::Boolean(false)
        } else if img.len() > 0 && img[0] == '"' {
            TokenModel::Str(spec_string_literal(img))
        } else if spec_parse_i64(img) is Some {
            TokenModel::Integer(spec_parse_i64(img).unwrap())
        } else if is_float_literal(img) {
            TokenModel::Float(img)
        } else {
            TokenModel::Identifier(img)
        },
    }
}

/// A token with its type, image, and location information.
#[derive(Debug, Clone)]
pub struct Token {
    pub token_type: TokenType,
    pub image: String,
    pub fname: String,
    pub line: usize,
}

impl Token {
    /// Create a token.
    pub fn new(token_type: TokenType, image: String, fname: String, line: usize) -> (r: Self)
        ensures
            r.token_type == token_type,
            r.image == image,
            r.fname == fname,
            r.line == line,
    {
        Token { token_type, image, fname, line }
    }
}

/// The tokens, as (meaning, image, file name, line), that the lexemes from
/// `i` on give.
pub open spec fn tokenize_from(ls: Seq<Lexeme>, i: int) -> Seq<
    (TokenModel, Seq<char>, Seq<char>, usize),
>
    decreases ls.len() - i,
{
    if i < 0 || i >= ls.len() {
        Seq::empty()
    } else {
        let lx = ls[i];
        match multi_keyword(ls, i) {
            Some((k, c)) => seq![(TokenModel::Keyword(k), lx.image@, lx.fname@, lx.line)]
                + tokenize_from(ls, i + c),
            None => seq![(classify(lx.image@), lx.image@, lx.fname@, lx.line)] + tokenize_from(
                ls,
                i + 1,
            ),
        }
    }
}

/// The tokens of a lexeme list: one per keyword or lexeme, then an end of
/// input token with the last lexeme's file and line, if there is any lexeme.
pub open spec fn spec_tokenize(ls: Seq<Lexeme>) -> Seq<(TokenModel, Seq<char>, Seq<char>, usize)> {
    tokenize_from(ls, 0) + if ls.len() > 0 {
        seq![(TokenModel::Keyword(Keyword::Eof), Seq::<char>::empty(), ls.last().fname@, ls.last().line)]
    } else {
        Seq::empty()
    }
}

/// A token is the given (meaning, image, file name, line).
pub open spec fn token_is(t: Token, m: (TokenModel, Seq<char>, Seq<char>, usize)) -> bool {
    t.token_type@ == m.0 && t.image@ == m.1 && t.fname@ == m.2 && t.line == m.3
}

/// The tokens are, one by one, the given models.
pub open spec fn tokens_match(
    ts: Seq<Token>,
    model: Seq<(TokenModel, Seq<char>, Seq<char>, usize)>,
) -> bool {
    ts.len() == model.len() && forall|k: int| 0 <= k < ts.len() ==> token_is(#[trigger] ts[k], model[k])
}

} // verus!

verus! {

fn join_exec(ls: &Vec<Lexeme>, lo: usize, k: usize) -> (s: String)
    requires
        1 <= k,
        lo + k <= ls@.len(),
    ensures
        s@ == join_images(ls@, lo as int, k as int),
{
    let n = ls.len();
    let mut s = ls[lo].image.clone();
    let mut t: usize = 1;
    proof {
        reveal_strlit(" ");
    }
    while t < k
        invariant
            1 <= t <= k,
            lo + k <= n,
            n == ls@.len(),
            s@ == join_images(ls@, lo as int, t as int),
            " "@ == seq![' '],
        decreases k - t,
    {
        s.append(" ");
        s.append(ls[lo + t].image.as_str());
        t = t + 1;
    }
    s
}

fn multi_keyword_exec(ls: &Vec<Lexeme>, i: usize) -> (r: Option<(Keyword, usize)>)
    requires
        i < ls@.len(),
    ensures
        match multi_keyword(ls@, i as int) {
            Some((k, c)) => r == Some((k, c as usize)) && 2 <= c <= 4 && i + c <= ls@.len(),
            None => r is None,
        },
{
    let n = ls.len() - i;
    if n >= 4 {
        let j = join_exec(ls, i, 4);
        if let Some(k) = joined_keyword_exec(4, j.as_str()) {
            return Some((k, 4));
        }
    }
    if n >= 3 {
        let j = join_exec(ls, i, 3);
        if let Some(k) = joined_keyword_exec(3, j.as_str()) {
            return Some((k, 3));
        }
    }
    if n >= 2 {
        let j = join_exec(ls, i, 2);
        if let Some(k) = joined_keyword_exec(2, j.as_str()) {
            return Some((k, 2));
        }
    }
    None
}

/// Parse a string literal, handling escape sequences.
pub fn parse_string_literal(s: &str) -> (r: Result<String, LciError>)
    ensures
        r is Ok,
        r is Ok ==> r.unwrap()@ == spec_string_literal(s@),
{
    let cs = chars_of(s);
    let n = cs.len();
    if n == 0 || cs[0] != '"' {
        return Ok(string_of(cs.as_slice()));
    }
    let mut out: Vec<char> = Vec::new();
    let mut i: usize = 1;
    while i < n
        invariant
            1 <= i <= n + 1,
            n == cs@.len(),
            i > n ==> i == n + 1,
            out@ + unescape_from(cs@, i as int) == unescape_from(cs@, 1),
        ensures
            out@ + unescape_from(cs@, i as int) == unescape_from(cs@, 1),
            i >= n || cs@[i as int] == '"',
        decreases n + 1 - i,
    {
        let c = cs[i];
        if c == '"' {
            break;
        }
        if c == ':' && i + 1 < n {
            let d = cs[i + 1];
            let ghost before = out@;
            if d == ')' {
                out.push('\n');
            } else if d == '>' {
                out.push('\t');
            } else if d == 'o' {
                out.push('\u{7}');
            } else if d == '"' {
                out.push('"');
            } else if d == ':' {
                out.push(':');
            } else {
                out.push(c);
                out.push(d);
            }
            proof {
                let e = out@.subrange(before.len() as int, out@.len() as int);
                assert(out@ =~= before + e);
                assert(before + (e + unescape_from(cs@, i + 2)) =~= out@ + unescape_from(cs@, i + 2));
            }
            i = i + 2;
        } else {
            let ghost before = out@;
            out.push(c);
            assert(before + (seq![c] + unescape_from(cs@, i + 1)) =~= out@ + unescape_from(cs@, i + 1));
            i = i + 1;
        }
    }
    assert(unescape_from(cs@, i as int) == Seq::<char>::empty());
    assert(out@ =~= out@ + unescape_from(cs@, i as int));
    Ok(string_of(out.as_slice()))
}

fn classify_exec(img: &String) -> (t: TokenType)
    ensures
        t@ == classify(img@),
{
    match single_keyword_exec(img.as_str()) {
        Some(k) => TokenType::from_keyword(k),
        None => {
            if str_eq(img.as_str(), "WIN") {
                TokenType::Boolean(true)
            } else if str_eq(img.as_str(), "FAIL") {
                TokenType::Boolean(false)
            } else {
                let cs = chars_of(img.as_str());
                if cs.len() > 0 && cs[0] == '"' {
                    match parse_string_literal(img.as_str()) {
                        Ok(content) => TokenType::String(content),
                        Err(_) => TokenType::String(String::new()),
                    }
                } else {
                    match parse_i64(&cs) {
                        Some(v) => TokenType::Integer(v),
                        None => {
                            if float_literal_exec(&cs) {
                                TokenType::Float(img.clone())
                            } else {
                                TokenType::Identifier(img.clone())
                            }
                        },
                    }
                }
            }
        },
    }
}

/// Convert lexemes into tokens.
pub fn tokenize_lexemes(lexemes: &LexemeList) -> (r: Result<Vec<Token>, LciError>)
    ensures
        r is Ok,
        r is Ok ==> tokens_match(r.unwrap()@, spec_tokenize(lexemes.lexemes@)),
{
    let ls = &lexemes.lexemes;
    let n = ls.len();
    let mut tokens: Vec<Token> = Vec::new();
    let mut i: usize = 0;
    let ghost mut done: Seq<(TokenModel, Seq<char>, Seq<char>, usize)> = Seq::empty();
    while i < n
        invariant
            i <= n == ls@.len(),
            tokens_match(tokens@, done),
            done + tokenize_from(ls@, i as int) == tokenize_from(ls@, 0),
        decreases n - i,
    {
        let lx = &ls[i];
        let ghost before = tokens@;
        let ghost i0 = i as int;
        match multi_keyword_exec(ls, i) {
            Some((k, c)) => {
                let t = Token::new(
                    TokenType::from_keyword(k),
                    lx.image.clone(),
                    lx.fname.clone(),
                    lx.line,
                );
                tokens.push(t);
                i = i + c;
            },
            None => {
                let t = Token::new(classify_exec(&lx.image), lx.image.clone(), lx.fname.clone(), lx.line);
                tokens.push(t);
                i = i + 1;
            },
        }
        proof {
            let m = tokens@.last();
            let mm = (m.token_type@, m.image@, m.fname@, m.line);
            let d2 = done.push(mm);
            assert forall|k: int| 0 <= k < tokens@.len() implies token_is(#[trigger] tokens@[k], d2[k]) by {
                if k < before.len() {
                    assert(tokens@[k] == before[k]);
                }
            }
            assert(tokenize_from(ls@, i0) == seq![mm] + tokenize_from(ls@, i as int));
            assert(done + (seq![mm] + tokenize_from(ls@, i as int)) =~= d2 + tokenize_from(
                ls@,
                i as int,
            ));
            done = d2;
        }
    }
    assert(done + tokenize_from(ls@, n as int) =~= done);
    let ghost before = tokens@;
    if n > 0 {
        let last = &ls[n - 1];
        tokens.push(Token::new(TokenType::Eof, String::new(), last.fname.clone(), last.line));
        assert forall|k: int| 0 <= k < tokens@.len() implies token_is(
            #[trigger] tokens@[k],
            spec_tokenize(ls@)[k],
        ) by {
            if k < before.len() {
                assert(tokens@[k] == before[k]);
            }
        }
    } else {
        assert(spec_tokenize(ls@) =~= done);
    }
    Ok(tokens)
}

} // verus!

verus! {

proof fn lemma_tokenize_from(ls: Seq<Lexeme>, i: int)
    requires
        0 <= i <= ls.len(),
    ensures
        tokenize_from(ls, i).len() <= ls.len() - i,
        i < ls.len() ==> tokenize_from(ls, i).len() > 0,
        forall|k: int|
            0 <= k < tokenize_from(ls, i).len() ==> (#[trigger] tokenize_from(ls, i)[k]).0
                != TokenModel::Keyword(Keyword::Eof),
    decreases ls.len() - i,
{
    if i < ls.len() {
        let t = tokenize_from(ls, i);
        let lx = ls[i];
        match multi_keyword(ls, i) {
            Some((kw, c)) => {
                lemma_tokenize_from(ls, i + c);
                let rest = tokenize_from(ls, i + c);
                assert forall|k: int| 0 <= k < t.len() implies (#[trigger] t[k]).0
                    != TokenModel::Keyword(Keyword::Eof) by {
                    if k > 0 {
                        assert(t[k] == rest[k - 1]);
                    }
                }
            },
            None => {
                lemma_tokenize_from(ls, i + 1);
                let rest = tokenize_from(ls, i + 1);
                assert forall|k: int| 0 <= k < t.len() implies (#[trigger] t[k]).0
                    != TokenModel::Keyword(Keyword::Eof) by {
                    if k > 0 {
                        assert(t[k] == rest[k - 1]);
                    }
                }
            },
        }
    }
}

/// The tokens of a lexeme list: none for no lexemes; otherwise at most one
/// per lexeme, then the end of input, which no other token is.
pub proof fn tokens_end_once(ls: Seq<Lexeme>)
    ensures
        ls.len() == 0 ==> spec_tokenize(ls).len() == 0,
        ls.len() > 0 ==> {
            let t = spec_tokenize(ls);
            &&& 2 <= t.len() <= ls.len() + 1
            &&& t.last().0 == TokenModel::Keyword(Keyword::Eof)
            &&& forall|k: int| 0 <= k < t.len() - 1 ==> (#[trigger] t[k]).0 != TokenModel::Keyword(
                Keyword::Eof,
            )
        },
{
    lemma_tokenize_from(ls, 0);
    let t = spec_tokenize(ls);
    let body = tokenize_from(ls, 0);
    if ls.len() > 0 {
        assert forall|k: int| 0 <= k < t.len() - 1 implies (#[trigger] t[k]).0
            != TokenModel::Keyword(Keyword::Eof) by {
            assert(t[k] == body[k]);
        }
    } else {
        assert(t =~= body);
    }
}

} // verus!

verus! {

/// How each keyword is written: how many words it has, and its words
/// joined by single spaces. The end of input is not written.
pub open spec fn keyword_spelling(k: Keyword) -> Option<(int, Seq<char>)> {
    match k {
        Keyword::It => Some((1int, "IT"@)),
        Keyword::ItzLiekA => Some((3int, "ITZ LIEK A"@)),
        Keyword::Noob => Some((1int, "NOOB"@)),
        Keyword::Numbr => Some((1int, "NUMBR"@)),
        Keyword::Numbar => Some((1int, "NUMBAR"@)),
        Keyword::Troof => Some((1int, "TROOF"@)),
        Keyword::Yarn => Some((1int, "YARN"@)),
        Keyword::Bukkit => Some((1int, "BUKKIT"@)),
        Keyword::Eof => None,
        Keyword::Newline => Some((1int, "\n"@)),
        Keyword::Hai => Some((1int, "HAI"@)),
        Keyword::KThxBye => Some((1int, "KTHXBYE"@)),
        Keyword::HasA => Some((2int, "HAS A"@)),
        Keyword::HasAn => Some((2int, "HAS AN"@)),
        Keyword::ItzA => Some((2int, "ITZ A"@)),
        Keyword::Itz => Some((1int, "ITZ"@)),
        Keyword::RNoob => Some((2int, "R NOOB"@)),
        Keyword::R => Some((1int, "R"@)),
        Keyword::AnYr => Some((2int, "AN YR"@)),
        Keyword::An => Some((1int, "AN"@)),
        Keyword::SumOf => Some((2int, "SUM OF"@)),
        Keyword::DiffOf => Some((2int, "DIFF OF"@)),
        Keyword::ProduktOf => Some((2int, "PRODUKT OF"@)),
        Keyword::QuoshuntOf => Some((2int, "QUOSHUNT OF"@)),
        Keyword::ModOf => Some((2int, "MOD OF"@)),
        Keyword::BiggrOf => Some((2int, "BIGGR OF"@)),
        Keyword::SmallrOf => Some((2int, "SMALLR OF"@)),
        Keyword::BothOf => Some((2int, "BOTH OF"@)),
        Keyword::EitherOf => Some((2int, "EITHER OF"@)),
        Keyword::WonOf => Some((2int, "WON OF"@)),
        Keyword::Not => Some((1int, "NOT"@)),
        Keyword::Mkay => Some((1int, "MKAY"@)),
        Keyword::AllOf => Some((2int, "ALL OF"@)),
        Keyword::AnyOf => Some((2int, "ANY OF"@)),
        Keyword::BothSaem => Some((2int, "BOTH SAEM"@)),
        Keyword::Diffrint => Some((1int, "DIFFRINT"@)),
        Keyword::Maek => Some((1int, "MAEK"@)),
        Keyword::A => Some((1int, "A"@)),
        Keyword::IsNowA => Some((3int, "IS NOW A"@)),
        Keyword::Visible => Some((1int, "VISIBLE"@)),
        Keyword::Invisible => Some((1int, "INVISIBLE"@)),
        Keyword::Smoosh => Some((1int, "SMOOSH"@)),
        Keyword::Bang => Some((1int, "!"@)),
        Keyword::Gimmeh => Some((1int, "GIMMEH"@)),
        Keyword::ORly => Some((2int, "O RLY?"@)),
        Keyword::YaRly => Some((2int, "YA RLY"@)),
        Keyword::Mebbe => Some((1int, "MEBBE"@)),
        Keyword::NoWai => Some((2int, "NO WAI"@)),
        Keyword::Oic => Some((1int, "OIC"@)),
        Keyword::Wtf => Some((1int, "WTF?"@)),
        Keyword::Omg => Some((1int, "OMG"@)),
        Keyword::OmgWtf => Some((1int, "OMGWTF"@)),
        Keyword::Gtfo => Some((1int, "GTFO"@)),
        Keyword::ImInYr => Some((3int, "IM IN YR"@)),
        Keyword::Uppin => Some((1int, "UPPIN"@)),
        Keyword::Nerfin => Some((1int, "NERFIN"@)),
        Keyword::Yr => Some((1int, "YR"@)),
        Keyword::Til => Some((1int, "TIL"@)),
        Keyword::Wile => Some((1int, "WILE"@)),
        Keyword::ImOuttaYr => Some((3int, "IM OUTTA YR"@)),
        Keyword::HowIz => Some((2int, "HOW IZ"@)),
        Keyword::Iz => Some((1int, "IZ"@)),
        Keyword::IfUSaySo => Some((4int, "IF U SAY SO"@)),
        Keyword::FoundYr => Some((2int, "FOUND YR"@)),
        Keyword::Srs => Some((1int, "SRS"@)),
        Keyword::ApostropheZ => Some((1int, "'Z"@)),
        Keyword::OHaiIm => Some((3int, "O HAI IM"@)),
        Keyword::ImLiek => Some((2int, "IM LIEK"@)),
        Keyword::Kthx => Some((1int, "KTHX"@)),
    }
}


/// Every keyword is read from the way it is written, and nothing else is
/// read as it: a one-word keyword from its single lexeme, a keyword of
/// several words from that many lexemes whose images, joined by single
/// spaces, spell it. A lexeme that spells a one-word keyword is that
/// keyword's token, never an identifier.
pub proof fn keyword_spelling_law(k: Keyword, n: int, w: Seq<char>)
    ensures
        single_keyword(w) == Some(k) <==> keyword_spelling(k) == Some((1int, w)),
        joined_keyword(n, w) == Some(k) <==> (n >= 2 && keyword_spelling(k) == Some((n, w))),
        keyword_spelling(k) == Some((1int, w)) ==> classify(w) == TokenModel::Keyword(k),
{
    reveal_strlit("!");
    reveal_strlit("'Z");
    reveal_strlit("A");
    reveal_strlit("ALL OF");
    reveal_strlit("AN");
    reveal_strlit("AN YR");
    reveal_strlit("ANY OF");
    reveal_strlit("BIGGR OF");
    reveal_strlit("BOTH OF");
    reveal_strlit("BOTH SAEM");
    reveal_strlit("BUKKIT");
    reveal_strlit("DIFF OF");
    reveal_strlit("DIFFRINT");
    reveal_strlit("EITHER OF");
    reveal_strlit("FOUND YR");
    reveal_strlit("GIMMEH");
    reveal_strlit("GTFO");
    reveal_strlit("HAI");
    reveal_strlit("HAS A");
    reveal_strlit("HAS AN");
    reveal_strlit("HOW IZ");
    reveal_strlit("IF U SAY SO");
    reveal_strlit("IM IN YR");
    reveal_strlit("IM LIEK");
    reveal_strlit("IM OUTTA YR");
    reveal_strlit("INVISIBLE");
    reveal_strlit("IS NOW A");
    reveal_strlit("IT");
    reveal_strlit("ITZ");
    reveal_strlit("ITZ A");
    reveal_strlit("ITZ LIEK A");
    reveal_strlit("IZ");
    reveal_strlit("KTHX");
    reveal_strlit("KTHXBYE");
    reveal_strlit("MAEK");
    reveal_strlit("MEBBE");
    reveal_strlit("MKAY");
    reveal_strlit("MOD OF");
    reveal_strlit("NERFIN");
    reveal_strlit("NO WAI");
    reveal_strlit("NOOB");
    reveal_strlit("NOT");
    reveal_strlit("NUMBAR");
    reveal_strlit("NUMBR");
    reveal_strlit("O HAI IM");
    reveal_strlit("O RLY?");
    reveal_strlit("OIC");
    reveal_strlit("OMG");
    reveal_strlit("OMGWTF");
    reveal_strlit("PRODUKT OF");
    reveal_strlit("QUOSHUNT OF");
    reveal_strlit("R");
    reveal_strlit("R NOOB");
    reveal_strlit("SMALLR OF");
    reveal_strlit("SMOOSH");
    reveal_strlit("SRS");
    reveal_strlit("SUM OF");
    reveal_strlit("TIL");
    reveal_strlit("TROOF");
    reveal_strlit("UPPIN");
    reveal_strlit("VISIBLE");
    reveal_strlit("WILE");
    reveal_strlit("WON OF");
    reveal_strlit("WTF?");
    reveal_strlit("YA RLY");
    reveal_strlit("YARN");
    reveal_strlit("YR");
    reveal_strlit("\n");
    assert("!"@.len() == 1 && "!"@[0] == '!');
    assert("'Z"@.len() == 2 && "'Z"@[0] == '\'' && "'Z"@[1] == 'Z');
    assert("A"@.len() == 1 && "A"@[0] == 'A');
    assert("ALL OF"@.len() == 6 && "ALL OF"@[0] == 'A' && "ALL OF"@[1] == 'L' && "ALL OF"@[2] == 'L' && "ALL OF"@[3] == ' ' && "ALL OF"@[4] == 'O' && "ALL OF"@[5] == 'F');
    assert("AN"@.len() == 2 && "AN"@[0] == 'A' && "AN"@[1] == 'N');
    assert("AN YR"@.len() == 5 && "AN YR"@[0] == 'A' && "AN YR"@[1] == 'N' && "AN YR"@[2] == ' ' && "AN YR"@[3] == 'Y' && "AN YR"@[4] == 'R');
    assert("ANY OF"@.len() == 6 && "ANY OF"@[0] == 'A' && "ANY OF"@[1] == 'N' && "ANY OF"@[2] == 'Y' && "ANY OF"@[3] == ' ' && "ANY OF"@[4] == 'O' && "ANY OF"@[5] == 'F');
    assert("BIGGR OF"@.len() == 8 && "BIGGR OF"@[0] == 'B' && "BIGGR OF"@[1] == 'I' && "BIGGR OF"@[2] == 'G' && "BIGGR OF"@[3] == 'G' && "BIGGR OF"@[4] == 'R' && "BIGGR OF"@[5] == ' ' && "BIGGR OF"@[6] == 'O' && "BIGGR OF"@[7] == 'F');
    assert("BOTH OF"@.len() == 7 && "BOTH OF"@[0] == 'B' && "BOTH OF"@[1] == 'O' && "BOTH OF"@[2] == 'T' && "BOTH OF"@[3] == 'H' && "BOTH OF"@[4] == ' ' && "BOTH OF"@[5] == 'O' && "BOTH OF"@[6] == 'F');
    assert("BOTH SAEM"@.len() == 9 && "BOTH SAEM"@[0] == 'B' && "BOTH SAEM"@[1] == 'O' && "BOTH SAEM"@[2] == 'T' && "BOTH SAEM"@[3] == 'H' && "BOTH SAEM"@[4] == ' ' && "BOTH SAEM"@[5] == 'S' && "BOTH SAEM"@[6] == 'A' && "BOTH SAEM"@[7] == 'E' && "BOTH SAEM"@[8] == 'M');
    assert("BUKKIT"@.len() == 6 && "BUKKIT"@[0] == 'B' && "BUKKIT"@[1] == 'U' && "BUKKIT"@[2] == 'K' && "BUKKIT"@[3] == 'K' && "BUKKIT"@[4] == 'I' && "BUKKIT"@[5] == 'T');
    assert("DIFF OF"@.len() == 7 && "DIFF OF"@[0] == 'D' && "DIFF OF"@[1] == 'I' && "DIFF OF"@[2] == 'F' && "DIFF OF"@[3] == 'F' && "DIFF OF"@[4] == ' ' && "DIFF OF"@[5] == 'O' && "DIFF OF"@[6] == 'F');
    assert("DIFFRINT"@.len() == 8 && "DIFFRINT"@[0] == 'D' && "DIFFRINT"@[1] == 'I' && "DIFFRINT"@[2] == 'F' && "DIFFRINT"@[3] == 'F' && "DIFFRINT"@[4] == 'R' && "DIFFRINT"@[5] == 'I' && "DIFFRINT"@[6] == 'N' && "DIFFRINT"@[7] == 'T');
    assert("EITHER OF"@.len() == 9 && "EITHER OF"@[0] == 'E' && "EITHER OF"@[1] == 'I' && "EITHER OF"@[2] == 'T' && "EITHER OF"@[3] == 'H' && "EITHER OF"@[4] == 'E' && "EITHER OF"@[5] == 'R' && "EITHER OF"@[6] == ' ' && "EITHER OF"@[7] == 'O' && "EITHER OF"@[8] == 'F');
    assert("FOUND YR"@.len() == 8 && "FOUND YR"@[0] == 'F' && "FOUND YR"@[1] == 'O' && "FOUND YR"@[2] == 'U' && "FOUND YR"@[3] == 'N' && "FOUND YR"@[4] == 'D' && "FOUND YR"@[5] == ' ' && "FOUND YR"@[6] == 'Y' && "FOUND YR"@[7] == 'R');
    assert("GIMMEH"@.len() == 6 && "GIMMEH"@[0] == 'G' && "GIMMEH"@[1] == 'I' && "GIMMEH"@[2] == 'M' && "GIMMEH"@[3] == 'M' && "GIMMEH"@[4] == 'E' && "GIMMEH"@[5] == 'H');
    assert("GTFO"@.len() == 4 && "GTFO"@[0] == 'G' && "GTFO"@[1] == 'T' && "GTFO"@[2] == 'F' && "GTFO"@[3] == 'O');
    assert("HAI"@.len() == 3 && "HAI"@[0] == 'H' && "HAI"@[1] == 'A' && "HAI"@[2] == 'I');
    assert("HAS A"@.len() == 5 && "HAS A"@[0] == 'H' && "HAS A"@[1] == 'A' && "HAS A"@[2] == 'S' && "HAS A"@[3] == ' ' && "HAS A"@[4] == 'A');
    assert("HAS AN"@.len() == 6 && "HAS AN"@[0] == 'H' && "HAS AN"@[1] == 'A' && "HAS AN"@[2] == 'S' && "HAS AN"@[3] == ' ' && "HAS AN"@[4] == 'A' && "HAS AN"@[5] == 'N');
    assert("HOW IZ"@.len() == 6 && "HOW IZ"@[0] == 'H' && "HOW IZ"@[1] == 'O' && "HOW IZ"@[2] == 'W' && "HOW IZ"@[3] == ' ' && "HOW IZ"@[4] == 'I' && "HOW IZ"@[5] == 'Z');
    assert("IF U SAY SO"@.len() == 11 && "IF U SAY SO"@[0] == 'I' && "IF U SAY SO"@[1] == 'F' && "IF U SAY SO"@[2] == ' ' && "IF U SAY SO"@[3] == 'U' && "IF U SAY SO"@[4] == ' ' && "IF U SAY SO"@[5] == 'S' && "IF U SAY SO"@[6] == 'A' && "IF U SAY SO"@[7] == 'Y' && "IF U SAY SO"@[8] == ' ' && "IF U SAY SO"@[9] == 'S' && "IF U SAY SO"@[10] == 'O');
    assert("IM IN YR"@.len() == 8 && "IM IN YR"@[0] == 'I' && "IM IN YR"@[1] == 'M' && "IM IN YR"@[2] == ' ' && "IM IN YR"@[3] == 'I' && "IM IN YR"@[4] == 'N' && "IM IN YR"@[5] == ' ' && "IM IN YR"@[6] == 'Y' && "IM IN YR"@[7] == 'R');
    assert("IM LIEK"@.len() == 7 && "IM LIEK"@[0] == 'I' && "IM LIEK"@[1] == 'M' && "IM LIEK"@[2] == ' ' && "IM LIEK"@[3] == 'L' && "IM LIEK"@[4] == 'I' && "IM LIEK"@[5] == 'E' && "IM LIEK"@[6] == 'K');
    assert("IM OUTTA YR"@.len() == 11 && "IM OUTTA YR"@[0] == 'I' && "IM OUTTA YR"@[1] == 'M' && "IM OUTTA YR"@[2] == ' ' && "IM OUTTA YR"@[3] == 'O' && "IM OUTTA YR"@[4] == 'U' && "IM OUTTA YR"@[5] == 'T' && "IM OUTTA YR"@[6] == 'T' && "IM OUTTA YR"@[7] == 'A' && "IM OUTTA YR"@[8] == ' ' && "IM OUTTA YR"@[9] == 'Y' && "IM OUTTA YR"@[10] == 'R');
    assert("INVISIBLE"@.len() == 9 && "INVISIBLE"@[0] == 'I' && "INVISIBLE"@[1] == 'N' && "INVISIBLE"@[2] == 'V' && "INVISIBLE"@[3] == 'I' && "INVISIBLE"@[4] == 'S' && "INVISIBLE"@[5] == 'I' && "INVISIBLE"@[6] == 'B' && "INVISIBLE"@[7] == 'L' && "INVISIBLE"@[8] == 'E');
    assert("IS NOW A"@.len() == 8 && "IS NOW A"@[0] == 'I' && "IS NOW A"@[1] == 'S' && "IS NOW A"@[2] == ' ' && "IS NOW A"@[3] == 'N' && "IS NOW A"@[4] == 'O' && "IS NOW A"@[5] == 'W' && "IS NOW A"@[6] == ' ' && "IS NOW A"@[7] == 'A');
    assert("IT"@.len() == 2 && "IT"@[0] == 'I' && "IT"@[1] == 'T');
    assert("ITZ"@.len() == 3 && "ITZ"@[0] == 'I' && "ITZ"@[1] == 'T' && "ITZ"@[2] == 'Z');
    assert("ITZ A"@.len() == 5 && "ITZ A"@[0] == 'I' && "ITZ A"@[1] == 'T' && "ITZ A"@[2] == 'Z' && "ITZ A"@[3] == ' ' && "ITZ A"@[4] == 'A');
    assert("ITZ LIEK A"@.len() == 10 && "ITZ LIEK A"@[0] == 'I' && "ITZ LIEK A"@[1] == 'T' && "ITZ LIEK A"@[2] == 'Z' && "ITZ LIEK A"@[3] == ' ' && "ITZ LIEK A"@[4] == 'L' && "ITZ LIEK A"@[5] == 'I' && "ITZ LIEK A"@[6] == 'E' && "ITZ LIEK A"@[7] == 'K' && "ITZ LIEK A"@[8] == ' ' && "ITZ LIEK A"@[9] == 'A');
    assert("IZ"@.len() == 2 && "IZ"@[0] == 'I' && "IZ"@[1] == 'Z');
    assert("KTHX"@.len() == 4 && "KTHX"@[0] == 'K' && "KTHX"@[1] == 'T' && "KTHX"@[2] == 'H' && "KTHX"@[3] == 'X');
    assert("KTHXBYE"@.len() == 7 && "KTHXBYE"@[0] == 'K' && "KTHXBYE"@[1] == 'T' && "KTHXBYE"@[2] == 'H' && "KTHXBYE"@[3] == 'X' && "KTHXBYE"@[4] == 'B' && "KTHXBYE"@[5] == 'Y' && "KTHXBYE"@[6] == 'E');
    assert("MAEK"@.len() == 4 && "MAEK"@[0] == 'M' && "MAEK"@[1] == 'A' && "MAEK"@[2] == 'E' && "MAEK"@[3] == 'K');
    assert("MEBBE"@.len() == 5 && "MEBBE"@[0] == 'M' && "MEBBE"@[1] == 'E' && "MEBBE"@[2] == 'B' && "MEBBE"@[3] == 'B' && "MEBBE"@[4] == 'E');
    assert("MKAY"@.len() == 4 && "MKAY"@[0] == 'M' && "MKAY"@[1] == 'K' && "MKAY"@[2] == 'A' && "MKAY"@[3] == 'Y');
    assert("MOD OF"@.len() == 6 && "MOD OF"@[0] == 'M' && "MOD OF"@[1] == 'O' && "MOD OF"@[2] == 'D' && "MOD OF"@[3] == ' ' && "MOD OF"@[4] == 'O' && "MOD OF"@[5] == 'F');
    assert("NERFIN"@.len() == 6 && "NERFIN"@[0] == 'N' && "NERFIN"@[1] == 'E' && "NERFIN"@[2] == 'R' && "NERFIN"@[3] == 'F' && "NERFIN"@[4] == 'I' && "NERFIN"@[5] == 'N');
    assert("NO WAI"@.len() == 6 && "NO WAI"@[0] == 'N' && "NO WAI"@[1] == 'O' && "NO WAI"@[2] == ' ' && "NO WAI"@[3] == 'W' && "NO WAI"@[4] == 'A' && "NO WAI"@[5] == 'I');
    assert("NOOB"@.len() == 4 && "NOOB"@[0] == 'N' && "NOOB"@[1] == 'O' && "NOOB"@[2] == 'O' && "NOOB"@[3] == 'B');
    assert("NOT"@.len() == 3 && "NOT"@[0] == 'N' && "NOT"@[1] == 'O' && "NOT"@[2] == 'T');
    assert("NUMBAR"@.len() == 6 && "NUMBAR"@[0] == 'N' && "NUMBAR"@[1] == 'U' && "NUMBAR"@[2] == 'M' && "NUMBAR"@[3] == 'B' && "NUMBAR"@[4] == 'A' && "NUMBAR"@[5] == 'R');
    assert("NUMBR"@.len() == 5 && "NUMBR"@[0] == 'N' && "NUMBR"@[1] == 'U' && "NUMBR"@[2] == 'M' && "NUMBR"@[3] == 'B' && "NUMBR"@[4] == 'R');
    assert("O HAI IM"@.len() == 8 && "O HAI IM"@[0] == 'O' && "O HAI IM"@[1] == ' ' && "O HAI IM"@[2] == 'H' && "O HAI IM"@[3] == 'A' && "O HAI IM"@[4] == 'I' && "O HAI IM"@[5] == ' ' && "O HAI IM"@[6] == 'I' && "O HAI IM"@[7] == 'M');
    assert("O RLY?"@.len() == 6 && "O RLY?"@[0] == 'O' && "O RLY?"@[1] == ' ' && "O RLY?"@[2] == 'R' && "O RLY?"@[3] == 'L' && "O RLY?"@[4] == 'Y' && "O RLY?"@[5] == '?');
    assert("OIC"@.len() == 3 && "OIC"@[0] == 'O' && "OIC"@[1] == 'I' && "OIC"@[2] == 'C');
    assert("OMG"@.len() == 3 && "OMG"@[0] == 'O' && "OMG"@[1] == 'M' && "OMG"@[2] == 'G');
    assert("OMGWTF"@.len() == 6 && "OMGWTF"@[0] == 'O' && "OMGWTF"@[1] == 'M' && "OMGWTF"@[2] == 'G' && "OMGWTF"@[3] == 'W' && "OMGWTF"@[4] == 'T' && "OMGWTF"@[5] == 'F');
    assert("PRODUKT OF"@.len() == 10 && "PRODUKT OF"@[0] == 'P' && "PRODUKT OF"@[1] == 'R' && "PRODUKT OF"@[2] == 'O' && "PRODUKT OF"@[3] == 'D' && "PRODUKT OF"@[4] == 'U' && "PRODUKT OF"@[5] == 'K' && "PRODUKT OF"@[6] == 'T' && "PRODUKT OF"@[7] == ' ' && "PRODUKT OF"@[8] == 'O' && "PRODUKT OF"@[9] == 'F');
    assert("QUOSHUNT OF"@.len() == 11 && "QUOSHUNT OF"@[0] == 'Q' && "QUOSHUNT OF"@[1] == 'U' && "QUOSHUNT OF"@[2] == 'O' && "QUOSHUNT OF"@[3] == 'S' && "QUOSHUNT OF"@[4] == 'H' && "QUOSHUNT OF"@[5] == 'U' && "QUOSHUNT OF"@[6] == 'N' && "QUOSHUNT OF"@[7] == 'T' && "QUOSHUNT OF"@[8] == ' ' && "QUOSHUNT OF"@[9] == 'O' && "QUOSHUNT OF"@[10] == 'F');
    assert("R"@.len() == 1 && "R"@[0] == 'R');
    assert("R NOOB"@.len() == 6 && "R NOOB"@[0] == 'R' && "R NOOB"@[1] == ' ' && "R NOOB"@[2] == 'N' && "R NOOB"@[3] == 'O' && "R NOOB"@[4] == 'O' && "R NOOB"@[5] == 'B');
    assert("SMALLR OF"@.len() == 9 && "SMALLR OF"@[0] == 'S' && "SMALLR OF"@[1] == 'M' && "SMALLR OF"@[2] == 'A' && "SMALLR OF"@[3] == 'L' && "SMALLR OF"@[4] == 'L' && "SMALLR OF"@[5] == 'R' && "SMALLR OF"@[6] == ' ' && "SMALLR OF"@[7] == 'O' && "SMALLR OF"@[8] == 'F');
    assert("SMOOSH"@.len() == 6 && "SMOOSH"@[0] == 'S' && "SMOOSH"@[1] == 'M' && "SMOOSH"@[2] == 'O' && "SMOOSH"@[3] == 'O' && "SMOOSH"@[4] == 'S' && "SMOOSH"@[5] == 'H');
    assert("SRS"@.len() == 3 && "SRS"@[0] == 'S' && "SRS"@[1] == 'R' && "SRS"@[2] == 'S');
    assert("SUM OF"@.len() == 6 && "SUM OF"@[0] == 'S' && "SUM OF"@[1] == 'U' && "SUM OF"@[2] == 'M' && "SUM OF"@[3] == ' ' && "SUM OF"@[4] == 'O' && "SUM OF"@[5] == 'F');
    assert("TIL"@.len() == 3 && "TIL"@[0] == 'T' && "TIL"@[1] == 'I' && "TIL"@[2] == 'L');
    assert("TROOF"@.len() == 5 && "TROOF"@[0] == 'T' && "TROOF"@[1] == 'R' && "TROOF"@[2] == 'O' && "TROOF"@[3] == 'O' && "TROOF"@[4] == 'F');
    assert("UPPIN"@.len() == 5 && "UPPIN"@[0] == 'U' && "UPPIN"@[1] == 'P' && "UPPIN"@[2] == 'P' && "UPPIN"@[3] == 'I' && "UPPIN"@[4] == 'N');
    assert("VISIBLE"@.len() == 7 && "VISIBLE"@[0] == 'V' && "VISIBLE"@[1] == 'I' && "VISIBLE"@[2] == 'S' && "VISIBLE"@[3] == 'I' && "VISIBLE"@[4] == 'B' && "VISIBLE"@[5] == 'L' && "VISIBLE"@[6] == 'E');
    assert("WILE"@.len() == 4 && "WILE"@[0] == 'W' && "WILE"@[1] == 'I' && "WILE"@[2] == 'L' && "WILE"@[3] == 'E');
    assert("WON OF"@.len() == 6 && "WON OF"@[0] == 'W' && "WON OF"@[1] == 'O' && "WON OF"@[2] == 'N' && "WON OF"@[3] == ' ' && "WON OF"@[4] == 'O' && "WON OF"@[5] == 'F');
    assert("WTF?"@.len() == 4 && "WTF?"@[0] == 'W' && "WTF?"@[1] == 'T' && "WTF?"@[2] == 'F' && "WTF?"@[3] == '?');
    assert("YA RLY"@.len() == 6 && "YA RLY"@[0] == 'Y' && "YA RLY"@[1] == 'A' && "YA RLY"@[2] == ' ' && "YA RLY"@[3] == 'R' && "YA RLY"@[4] == 'L' && "YA RLY"@[5] == 'Y');
    assert("YARN"@.len() == 4 && "YARN"@[0] == 'Y' && "YARN"@[1] == 'A' && "YARN"@[2] == 'R' && "YARN"@[3] == 'N');
    assert("YR"@.len() == 2 && "YR"@[0] == 'Y' && "YR"@[1] == 'R');
    assert("\n"@.len() == 1 && "\n"@[0] == '\n');
    match k {
        Keyword::It => {},
        Keyword::ItzLiekA => {},
        Keyword::Noob => {},
        Keyword::Numbr => {},
        Keyword::Numbar => {},
        Keyword::Troof => {},
        Keyword::Yarn => {},
        Keyword::Bukkit => {},
        Keyword::Eof => {},
        Keyword::Newline => {},
        Keyword::Hai => {},
        Keyword::KThxBye => {},
        Keyword::HasA => {},
        Keyword::HasAn => {},
        Keyword::ItzA => {},
        Keyword::Itz => {},
        Keyword::RNoob => {},
        Keyword::R => {},
        Keyword::AnYr => {},
        Keyword::An => {},
        Keyword::SumOf => {},
        Keyword::DiffOf => {},
        Keyword::ProduktOf => {},
        Keyword::QuoshuntOf => {},
        Keyword::ModOf => {},
        Keyword::BiggrOf => {},
        Keyword::SmallrOf => {},
        Keyword::BothOf => {},
        Keyword::EitherOf => {},
        Keyword::WonOf => {},
        Keyword::Not => {},
        Keyword::Mkay => {},
        Keyword::AllOf => {},
        Keyword::AnyOf => {},
        Keyword::BothSaem => {},
        Keyword::Diffrint => {},
        Keyword::Maek => {},
        Keyword::A => {},
        Keyword::IsNowA => {},
        Keyword::Visible => {},
        Keyword::Invisible => {},
        Keyword::Smoosh => {},
        Keyword::Bang => {},
        Keyword::Gimmeh => {},
        Keyword::ORly => {},
        Keyword::YaRly => {},
        Keyword::Mebbe => {},
        Keyword::NoWai => {},
        Keyword::Oic => {},
        Keyword::Wtf => {},
        Keyword::Omg => {},
        Keyword::OmgWtf => {},
        Keyword::Gtfo => {},
        Keyword::ImInYr => {},
        Keyword::Uppin => {},
        Keyword::Nerfin => {},
        Keyword::Yr => {},
        Keyword::Til => {},
        Keyword::Wile => {},
        Keyword::ImOuttaYr => {},
        Keyword::HowIz => {},
        Keyword::Iz => {},
        Keyword::IfUSaySo => {},
        Keyword::FoundYr => {},
        Keyword::Srs => {},
        Keyword::ApostropheZ => {},
        Keyword::OHaiIm => {},
        Keyword::ImLiek => {},
        Keyword::Kthx => {},
    }

}

} // verus!

verus! {

/// What an escape after `:` stands for in a string literal.
pub open spec fn escape_meaning(c: char) -> Seq<char> {
    if c == ')' {
        seq!['\n']
    } else if c == '>' {
        seq!['\t']
    } else if c == 'o' {
        seq!['\u{7}']
    } else if c == '"' {
        seq!['"']
    } else if c == ':' {
        seq![':']
    } else {
        seq![':', c]
    }
}

proof fn lemma_plain_body(cs: Seq<char>, i: int, end: int)
    requires
        1 <= i <= end < cs.len(),
        cs[end] == '"',
        forall|p: int| i <= p < end ==> cs[p] != ':' && cs[p] != '"',
    ensures
        unescape_from(cs, i) == cs.subrange(i, end),
    decreases end - i,
{
    if i < end {
        lemma_plain_body(cs, i + 1, end);
        assert(cs.subrange(i, end) =~= seq![cs[i]] + cs.subrange(i + 1, end));
    } else {
        assert(cs.subrange(i, end) =~= Seq::<char>::empty());
    }
}

/// A string literal's content: text that does not start with a quote is
/// kept as it is; a quoted text without `:` or inner quotes is what lies
/// between its quotes; reading stops at the closing quote; `:)` is a line
/// feed, `:>` a tab, `:o` a bell, `:"` a quote, `::` a colon, and `:` before
/// any other character stays with it.
pub proof fn string_literal_law(cs: Seq<char>, i: int)
    ensures
        (cs.len() == 0 || cs[0] != '"') ==> spec_string_literal(cs) == cs,
        0 <= i < cs.len() && cs[i] == '"' ==> unescape_from(cs, i) == Seq::<char>::empty(),
        0 <= i && i + 1 < cs.len() && cs[i] == ':' ==> unescape_from(cs, i) == escape_meaning(
            cs[i + 1],
        ) + unescape_from(cs, i + 2),
        0 <= i < cs.len() && cs[i] != ':' && cs[i] != '"' ==> unescape_from(cs, i) == seq![cs[i]]
            + unescape_from(cs, i + 1),
        forall|end: int|
            0 < end < cs.len() && cs[0] == '"' && cs[end] == '"' && (forall|p: int|
                1 <= p < end ==> cs[p] != ':' && cs[p] != '"') ==> #[trigger] cs.subrange(1, end)
                == spec_string_literal(cs),
{
    assert forall|end: int|
        0 < end < cs.len() && cs[0] == '"' && cs[end] == '"' && (forall|p: int|
            1 <= p < end ==> cs[p] != ':' && cs[p] != '"') implies #[trigger] cs.subrange(1, end)
        == spec_string_literal(cs) by {
        lemma_plain_body(cs, 1, end);
    }
}

} // verus!
