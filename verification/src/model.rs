//! The mathematical model of the parser: what tokenization, resolution and
//! the whole parse return, stated over sequences and maps. The executable
//! code in the other modules is proved against these functions.

use vstd::prelude::*;

use crate::value::ArgumentType;

verus! {

/// Mathematical form of a typed argument value. A floating-point value is
/// carried as its decimal text: verified code holds no machine floats, so
/// conversion to one is left to the host program.
pub enum ValueModel {
    Int(i32),
    FloatText(Seq<char>),
    Text(Seq<char>),
    Bool(bool),
}

/// Mathematical form of a parse failure.
pub enum ErrModel {
    /// Fewer raw tokens than declared positional arguments.
    MissingPositional,
    /// A bare token stood where an option key was expected.
    Malformed(Seq<char>),
    /// A supplied token that does not read as the declared type.
    Invalid(Seq<char>),
    /// A required declaration was neither supplied nor defaulted; carries the
    /// canonical long name.
    MissingRequired(Seq<char>),
    /// An accessor was used on a value of another tag.
    WrongType,
}

/// Mathematical form of one argument declaration. The help text plays no
/// part in parsing; it is carried for the host's help screen alone.
pub struct DeclModel {
    pub short: Seq<char>,
    pub long: Seq<char>,
    pub help: Seq<char>,
    pub required: bool,
    pub default: Option<ValueModel>,
    pub dtype: ArgumentType,
}

/// A default value carries the tag its declaration's type expects.
pub open spec fn default_fits(v: ValueModel, dt: ArgumentType) -> bool {
    match (v, dt) {
        (ValueModel::Int(_), ArgumentType::INT) => true,
        (ValueModel::FloatText(_), ArgumentType::FLOAT) => true,
        (ValueModel::Text(_), ArgumentType::STR) => true,
        (ValueModel::Bool(_), ArgumentType::BOOL) => true,
        _ => false,
    }
}

/// Mathematical form of a parser: its declarations, already classified.
pub struct ParserModel {
    pub description: Seq<char>,
    pub positionals: Seq<DeclModel>,
    pub required: Seq<DeclModel>,
    pub optionals: Seq<DeclModel>,
}

/// Outcome of a parse: help was requested, every declaration resolved, or a failure.
pub enum ParseModel {
    Help,
    Resolved(Map<Seq<char>, ValueModel>),
    Fail(ErrModel),
}

/// The token begins with the option prefix.
pub open spec fn starts_dash(s: Seq<char>) -> bool {
    s.len() > 0 && s[0] == '-'
}

/// The name begins with the long-option prefix.
pub open spec fn starts_double_dash(s: Seq<char>) -> bool {
    s.len() >= 2 && s[0] == '-' && s[1] == '-'
}

/// Canonical key of a declaration: its long name with the leading dashes removed.
pub open spec fn canon(s: Seq<char>) -> Seq<char>
    decreases s.len(),
{
    if s.len() > 0 && s[0] == '-' {
        canon(s.skip(1))
    } else {
        s
    }
}

/// A declaration is positional when neither name carries its option prefix.
pub open spec fn is_positional(d: DeclModel) -> bool {
    !starts_dash(d.short) && !starts_double_dash(d.long)
}

pub open spec fn is_digit(c: char) -> bool {
    48 <= c as u32 && c as u32 <= 57
}

pub open spec fn digit_val(c: char) -> int {
    c as u32 - 48
}

pub open spec fn all_digits(s: Seq<char>) -> bool {
    forall|i: int| 0 <= i < s.len() ==> is_digit(s[i])
}

/// Value of a digit string read in base ten.
pub open spec fn digits_val(s: Seq<char>) -> int
    decreases s.len(),
{
    if s.len() == 0 {
        0
    } else {
        digits_val(s.drop_last()) * 10 + digit_val(s.last())
    }
}

/// Integer syntax: an optional sign, then at least one decimal digit.
pub open spec fn int_syntax_ok(s: Seq<char>) -> bool {
    if s.len() == 0 {
        false
    } else if s[0] == '+' || s[0] == '-' {
        s.len() >= 2 && all_digits(s.skip(1))
    } else {
        all_digits(s)
    }
}

pub open spec fn int_magnitude(s: Seq<char>) -> int {
    if s.len() > 0 && (s[0] == '+' || s[0] == '-') {
        digits_val(s.skip(1))
    } else {
        digits_val(s)
    }
}

pub open spec fn int_value(s: Seq<char>) -> int {
    if s.len() > 0 && s[0] == '-' {
        -int_magnitude(s)
    } else {
        int_magnitude(s)
    }
}

/// What reading a token as an integer yields: the signed decimal value when
/// the syntax holds and the value fits, nothing otherwise.
pub open spec fn parse_int_model(s: Seq<char>) -> Option<i32> {
    if int_syntax_ok(s) && i32::MIN <= int_value(s) <= i32::MAX {
        Some(int_value(s) as i32)
    } else {
        None
    }
}

/// What reading a token as a boolean yields: only the two literal words.
pub open spec fn parse_bool_model(s: Seq<char>) -> Option<bool> {
    if s == "true"@ {
        Some(true)
    } else if s == "false"@ {
        Some(false)
    } else {
        None
    }
}

/// Typed reading of a supplied token under a declared type. Text is taken as
/// it stands, and so is the text of a floating-point value.
pub open spec fn typed_parse(dt: ArgumentType, s: Seq<char>) -> Option<ValueModel> {
    match dt {
        ArgumentType::INT => match parse_int_model(s) {
            Some(i) => Some(ValueModel::Int(i)),
            None => None,
        },
        ArgumentType::FLOAT => Some(ValueModel::FloatText(s)),
        ArgumentType::STR => Some(ValueModel::Text(s)),
        ArgumentType::BOOL => match parse_bool_model(s) {
            Some(b) => Some(ValueModel::Bool(b)),
            None => None,
        },
    }
}

/// The type-appropriate zero substituted for an optional declaration that is
/// neither supplied nor defaulted.
pub open spec fn zero_value(dt: ArgumentType) -> ValueModel {
    match dt {
        ArgumentType::INT => ValueModel::Int(0),
        ArgumentType::FLOAT => ValueModel::FloatText("0.0"@),
        ArgumentType::STR => ValueModel::Text(Seq::empty()),
        ArgumentType::BOOL => ValueModel::Bool(false),
    }
}

/// A help key stands somewhere among the user-supplied tokens.
pub open spec fn help_requested(args: Seq<Seq<char>>) -> bool {
    exists|i: int| 1 <= i < args.len() && (args[i] == "-h"@ || args[i] == "--help"@)
}

/// First pass from index `i` on: each option key takes the following token as
/// its value, or the marker `true` when none follows before the next key; a
/// bare token in key position is a failure. Later occurrences of a key
/// overwrite earlier ones.
pub open spec fn tokenize(
    args: Seq<Seq<char>>,
    i: int,
    acc: Map<Seq<char>, Seq<char>>,
) -> Result<Map<Seq<char>, Seq<char>>, ErrModel>
    decreases args.len() - i,
{
    if i < 0 || i >= args.len() {
        Ok(acc)
    } else if !starts_dash(args[i]) {
        Err(ErrModel::Malformed(args[i]))
    } else if i + 1 < args.len() && !starts_dash(args[i + 1]) {
        tokenize(args, i + 2, acc.insert(args[i], args[i + 1]))
    } else {
        tokenize(args, i + 1, acc.insert(args[i], "true"@))
    }
}

/// Second-pass resolution of one declaration against the token map: the short
/// name is looked up first, then the long name; a supplied token is read under
/// the declared type; otherwise the default applies, and failing that, a
/// required declaration is missing while an optional one takes the zero value.
pub open spec fn resolve_one(d: DeclModel, tok: Map<Seq<char>, Seq<char>>) -> Result<
    ValueModel,
    ErrModel,
> {
    let supplied = if tok.contains_key(d.short) {
        Some(tok[d.short])
    } else if tok.contains_key(d.long) {
        Some(tok[d.long])
    } else {
        None::<Seq<char>>
    };
    match supplied {
        Some(v) => match typed_parse(d.dtype, v) {
            Some(val) => Ok(val),
            None => Err(ErrModel::Invalid(v)),
        },
        None => match d.default {
            Some(dv) => Ok(dv),
            None => if d.required {
                Err(ErrModel::MissingRequired(canon(d.long)))
            } else {
                Ok(zero_value(d.dtype))
            },
        },
    }
}

/// Resolution of a list of declarations in order, each entered under its
/// canonical long name; the first failure ends the parse.
pub open spec fn resolve_list(
    decls: Seq<DeclModel>,
    tok: Map<Seq<char>, Seq<char>>,
    acc: Map<Seq<char>, ValueModel>,
) -> Result<Map<Seq<char>, ValueModel>, ErrModel>
    decreases decls.len(),
{
    if decls.len() == 0 {
        Ok(acc)
    } else {
        match resolve_one(decls[0], tok) {
            Ok(v) => resolve_list(decls.drop_first(), tok, acc.insert(canon(decls[0].long), v)),
            Err(e) => Err(e),
        }
    }
}

/// Positional consumption: declaration number j takes raw token `args[i + j]`
/// by position alone, reads it under the declared type, and also records it in
/// the token map under the declaration's long name as the first pass would.
pub open spec fn resolve_pos(
    decls: Seq<DeclModel>,
    args: Seq<Seq<char>>,
    i: int,
    tok: Map<Seq<char>, Seq<char>>,
    acc: Map<Seq<char>, ValueModel>,
) -> Result<(Map<Seq<char>, Seq<char>>, Map<Seq<char>, ValueModel>), ErrModel>
    decreases decls.len(),
{
    if decls.len() == 0 {
        Ok((tok, acc))
    } else {
        let d = decls[0];
        let v = args[i];
        match typed_parse(d.dtype, v) {
            Some(val) => resolve_pos(
                decls.drop_first(),
                args,
                i + 1,
                tok.insert(d.long, v),
                acc.insert(canon(d.long), val),
            ),
            None => Err(ErrModel::Invalid(v)),
        }
    }
}

/// The first pass as a whole: positional consumption, then tokenization of
/// the rest. Yields the token map and the positional entries.
pub open spec fn first_pass(p: ParserModel, args: Seq<Seq<char>>) -> Result<
    (Map<Seq<char>, Seq<char>>, Map<Seq<char>, ValueModel>),
    ErrModel,
> {
    match resolve_pos(p.positionals, args, 1, Map::empty(), Map::empty()) {
        Err(e) => Err(e),
        Ok((tok0, out0)) => match tokenize(args, 1 + p.positionals.len() as int, tok0) {
            Err(e) => Err(e),
            Ok(tok) => Ok((tok, out0)),
        },
    }
}

/// The whole parse. `args[0]` is the program name and is never read. Help
/// anywhere among the tokens short-circuits everything else; then the
/// positional declarations consume the first tokens by position; the rest are
/// tokenized into option/value pairs; and the required and then the optional
/// declarations resolve against them. With no positional declarations the
/// consumption step is empty and tokenization starts right after the program
/// name.
pub open spec fn parse_model(p: ParserModel, args: Seq<Seq<char>>) -> ParseModel {
    if help_requested(args) {
        ParseModel::Help
    } else if p.positionals.len() > 0 && args.len() < 1 + p.positionals.len() {
        ParseModel::Fail(ErrModel::MissingPositional)
    } else {
        match first_pass(p, args) {
            Err(e) => ParseModel::Fail(e),
            Ok((tok, out0)) => match resolve_list(p.required, tok, out0) {
                Err(e) => ParseModel::Fail(e),
                Ok(out1) => match resolve_list(p.optionals, tok, out1) {
                    Err(e) => ParseModel::Fail(e),
                    Ok(out2) => ParseModel::Resolved(out2),
                },
            },
        }
    }
}

} // verus!
