//! The argument parser: registration of declarations and the two-pass parse,
//! proved against [`crate::model::parse_model`].

use vstd::prelude::*;
use vstd::string::StringExecFns;

use crate::model::{
    default_fits, help_requested, is_positional, parse_model, resolve_list, resolve_one,
    resolve_pos, tokenize, typed_parse, zero_value, DeclModel, ParseModel, ParserModel, ValueModel,
};
use crate::table::{ParsedArgs, TokenMap};
use crate::text::{canonical_name, parse_bool, parse_int, starts_with_dash, starts_with_double_dash, str_eq};
use crate::value::{ArgError, ArgumentType, InnerData};

verus! {

/// One argument declaration, immutable once registered.
#[derive(Debug)]
pub struct Argument {
    short_name: String,
    long_name: String,
    help: String,
    required: bool,
    default: Option<InnerData>,
    dtype: ArgumentType,
}

impl View for Argument {
    type V = DeclModel;

    closed spec fn view(&self) -> DeclModel {
        DeclModel {
            short: self.short_name@,
            long: self.long_name@,
            help: self.help@,
            required: self.required,
            default: match self.default {
                Some(d) => Some(d@),
                None => None,
            },
            dtype: self.dtype,
        }
    }
}

impl Argument {
    pub fn short_name(&self) -> (r: &String)
        ensures
            r@ == self@.short,
    {
        &self.short_name
    }

    pub fn long_name(&self) -> (r: &String)
        ensures
            r@ == self@.long,
    {
        &self.long_name
    }

    pub fn help(&self) -> (r: &String)
        ensures
            r@ == self@.help,
    {
        &self.help
    }

    pub fn required(&self) -> (r: bool)
        ensures
            r == self@.required,
    {
        self.required
    }

    pub fn dtype(&self) -> (r: ArgumentType)
        ensures
            r == self@.dtype,
    {
        self.dtype
    }
}

/// The declarations a vector holds, in their mathematical form.
pub open spec fn decls_of(v: Seq<Argument>) -> Seq<DeclModel> {
    v.map_values(|a: Argument| a@)
}

/// A successful parse: either every declaration resolved to a typed value, or
/// a help key was seen and nothing else was done, so the host should show the
/// help screen and run no further.
#[derive(Debug)]
pub enum ParseOutcome {
    Parsed(ParsedArgs),
    Help,
}

/// Reads a supplied token under the declared type.
fn typed_read(dt: ArgumentType, s: &str) -> (r: Option<InnerData>)
    ensures
        match r {
            Some(v) => typed_parse(dt, s@) matches Some(m) && v@ == m,
            None => typed_parse(dt, s@) is None,
        },
{
    match dt {
        ArgumentType::INT => match parse_int(s) {
            Some(i) => Some(InnerData::INT(i)),
            None => None,
        },
        ArgumentType::FLOAT => Some(InnerData::FLOAT(s.to_owned())),
        ArgumentType::STR => Some(InnerData::STR(s.to_owned())),
        ArgumentType::BOOL => match parse_bool(s) {
            Some(b) => Some(InnerData::BOOL(b)),
            None => None,
        },
    }
}

/// The type-appropriate zero for an optional declaration left unsupplied.
fn zero_data(dt: ArgumentType) -> (r: InnerData)
    ensures
        r@ == zero_value(dt),
{
    match dt {
        ArgumentType::INT => InnerData::INT(0),
        ArgumentType::FLOAT => InnerData::FLOAT(String::from_str("0.0")),
        ArgumentType::STR => InnerData::STR(String::new()),
        ArgumentType::BOOL => InnerData::BOOL(false),
    }
}

/// Resolves one declaration against the token map: the short name is looked
/// up first, then the long name; a supplied token is read under the declared
/// type; otherwise the default, and failing that, the zero value or a
/// missing-required failure.
fn resolve_decl(a: &Argument, tok: &TokenMap) -> (r: Result<InnerData, ArgError>)
    ensures
        match r {
            Ok(v) => resolve_one(a@, tok@) matches Ok(m) && v@ == m,
            Err(e) => resolve_one(a@, tok@) matches Err(m) && e@ == m,
        },
{
    let found: Option<&String> = match tok.get(a.short_name.as_str()) {
        Some(v) => Some(v),
        None => tok.get(a.long_name.as_str()),
    };
    match found {
        Some(v) => match typed_read(a.dtype, v.as_str()) {
            Some(val) => Ok(val),
            None => Err(ArgError::InvalidValue(v.clone())),
        },
        None => match &a.default {
            Some(d) => Ok(d.duplicate()),
            None => {
                if a.required {
                    Err(ArgError::MissingRequired(canonical_name(a.long_name.as_str())))
                } else {
                    Ok(zero_data(a.dtype))
                }
            },
        },
    }
}

/// Resolves a whole list of declarations into `out`, each under its canonical
/// long name, stopping at the first failure.
#[verifier::loop_isolation(false)]
fn resolve_into(decls: &Vec<Argument>, tok: &TokenMap, out: &mut ParsedArgs) -> (r: Result<
    (),
    ArgError,
>)
    ensures
        match r {
            Ok(_) => resolve_list(decls_of(decls@), tok@, old(out)@) matches Ok(m) && final(out)@
                == m,
            Err(e) => resolve_list(decls_of(decls@), tok@, old(out)@) matches Err(m) && e@ == m,
        },
{
    let ghost dseq = decls_of(decls@);
    let ghost out0 = out@;
    proof {
        assert(dseq.skip(0) =~= dseq);
    }
    let mut c: usize = 0;
    while c < decls.len()
        invariant
            c <= decls.len(),
            resolve_list(dseq.skip(c as int), tok@, out@) == resolve_list(dseq, tok@, out0),
        decreases decls.len() - c,
    {
        let a = &decls[c];
        proof {
            assert(dseq.skip(c as int)[0] == a@);
            assert(dseq.skip(c as int).drop_first() =~= dseq.skip(c as int + 1));
        }
        match resolve_decl(a, tok) {
            Ok(v) => {
                let key: String = canonical_name(a.long_name.as_str());
                out.insert(key, v);
            },
            Err(e) => {
                return Err(e);
            },
        }
        c = c + 1;
    }
    Ok(())
}

/// The argument parser: a description and the declarations, each in the
/// collection its classification put it in.
pub struct ArgumentParser {
    description: String,
    positional_args: Vec<Argument>,
    required_args: Vec<Argument>,
    optional_args: Vec<Argument>,
}

impl View for ArgumentParser {
    type V = ParserModel;

    closed spec fn view(&self) -> ParserModel {
        ParserModel {
            description: self.description@,
            positionals: decls_of(self.positional_args@),
            required: decls_of(self.required_args@),
            optionals: decls_of(self.optional_args@),
        }
    }
}

impl ArgumentParser {
    /// An empty parser; an absent description means empty text.
    pub fn new(description: Option<&str>) -> (r: ArgumentParser)
        ensures
            r@.positionals.len() == 0,
            r@.required.len() == 0,
            r@.optionals.len() == 0,
            r@.description == (match description {
                Some(d) => d@,
                None => Seq::<char>::empty(),
            }),
    {
        let d: String = match description {
            Some(d) => d.to_owned(),
            None => String::new(),
        };
        ArgumentParser {
            description: d,
            positional_args: Vec::new(),
            required_args: Vec::new(),
            optional_args: Vec::new(),
        }
    }

    pub fn description(&self) -> (r: &String)
        ensures
            r@ == self@.description,
    {
        &self.description
    }

    /// The positional declarations, in registration order.
    pub fn positional_list(&self) -> (r: &Vec<Argument>)
        ensures
            decls_of(r@) == self@.positionals,
    {
        &self.positional_args
    }

    /// The required named declarations, in registration order.
    pub fn required_list(&self) -> (r: &Vec<Argument>)
        ensures
            decls_of(r@) == self@.required,
    {
        &self.required_args
    }

    /// The optional named declarations, in registration order.
    pub fn optional_list(&self) -> (r: &Vec<Argument>)
        ensures
            decls_of(r@) == self@.optionals,
    {
        &self.optional_args
    }

    /// Registers one declaration, classified by its names: positional when
    /// the short name has no dash prefix and the long name no double-dash
    /// prefix, else required or optional per the flag. A default must carry
    /// the declared type's tag, and a required declaration takes no default.
    /// Duplicate names are not rejected: every declaration still resolves,
    /// and of two declarations sharing a canonical long name the later one
    /// decides the resolved entry.
    pub fn add_argument(
        &mut self,
        short_name: &str,
        long_name: &str,
        help: &str,
        required: bool,
        default: Option<InnerData>,
        dtype: ArgumentType,
    )
        requires
            match default {
                Some(d) => default_fits(d@, dtype) && !required,
                None => true,
            },
        ensures
            final(self)@.description == old(self)@.description,
            ({
                let d = (DeclModel {
                    short: short_name@,
                    long: long_name@,
                    help: help@,
                    required: required,
                    default: match default {
                        Some(v) => Some(v@),
                        None => None,
                    },
                    dtype: dtype,
                });
                let p0 = old(self)@;
                let p1 = final(self)@;
                if is_positional(d) {
                    p1.positionals == p0.positionals.push(d) && p1.required == p0.required
                        && p1.optionals == p0.optionals
                } else if required {
                    p1.required == p0.required.push(d) && p1.positionals == p0.positionals
                        && p1.optionals == p0.optionals
                } else {
                    p1.optionals == p0.optionals.push(d) && p1.positionals == p0.positionals
                        && p1.required == p0.required
                }
            }),
    {
        let is_pos: bool = !starts_with_dash(short_name) && !starts_with_double_dash(long_name);
        let argument = Argument {
            short_name: short_name.to_owned(),
            long_name: long_name.to_owned(),
            help: help.to_owned(),
            required: required,
            default: default,
            dtype: dtype,
        };
        if is_pos {
            let ghost before = self.positional_args@;
            self.positional_args.push(argument);
            proof {
                assert(decls_of(self.positional_args@) =~= decls_of(before).push(
                    self.positional_args@.last()@,
                ));
            }
        } else if required {
            let ghost before = self.required_args@;
            self.required_args.push(argument);
            proof {
                assert(decls_of(self.required_args@) =~= decls_of(before).push(
                    self.required_args@.last()@,
                ));
            }
        } else {
            let ghost before = self.optional_args@;
            self.optional_args.push(argument);
            proof {
                assert(decls_of(self.optional_args@) =~= decls_of(before).push(
                    self.optional_args@.last()@,
                ));
            }
        }
    }

    /// The two-pass parse of a raw argument vector, whose first element is
    /// the program name and is never read. Help anywhere among the tokens
    /// wins; then the positional declarations consume the first tokens by
    /// position; the remaining tokens pair up as option keys and values; and
    /// the required and then the optional declarations resolve against them.
    /// The result is exactly what [`parse_model`] says it is.
    #[verifier::loop_isolation(false)]
    pub fn parse_args(&self, args: &Vec<String>) -> (r: Result<ParseOutcome, ArgError>)
        ensures
            match r {
                Ok(ParseOutcome::Help) => parse_model(self@, args.deep_view()) is Help,
                Ok(ParseOutcome::Parsed(out)) => parse_model(self@, args.deep_view()) matches ParseModel::Resolved(m)
                    && out@ == m,
                Err(e) => parse_model(self@, args.deep_view()) matches ParseModel::Fail(m) && e@
                    == m,
            },
    {
        let ghost argv = args.deep_view();

        // A help key anywhere among the user-supplied tokens short-circuits
        // everything else, missing required arguments included.
        let mut k: usize = 1;
        while k < args.len()
            invariant
                1 <= k,
                forall|j: int| 1 <= j < k ==> !(argv[j] == "-h"@ || argv[j] == "--help"@),
            decreases args.len() - k,
        {
            if str_eq(args[k].as_str(), "-h") || str_eq(args[k].as_str(), "--help") {
                proof {
                    assert(argv[k as int] == "-h"@ || argv[k as int] == "--help"@);
                    assert(help_requested(argv));
                }
                return Ok(ParseOutcome::Help);
            }
            k = k + 1;
        }
        proof {
            assert(!help_requested(argv));
        }

        let n_pos: usize = self.positional_args.len();
        if n_pos > 0 && args.len() <= n_pos {
            return Err(ArgError::MissingPositional);
        }

        // First the positional declarations, by position alone.
        let mut tok = TokenMap::new();
        let mut out = ParsedArgs::new();
        let ghost pos_decls = self@.positionals;
        proof {
            assert(pos_decls.skip(0) =~= pos_decls);
        }
        let mut j: usize = 0;
        while j < n_pos
            invariant
                j <= n_pos,
                resolve_pos(pos_decls.skip(j as int), argv, 1 + j as int, tok@, out@)
                    == resolve_pos(
                    pos_decls,
                    argv,
                    1,
                    Map::<Seq<char>, Seq<char>>::empty(),
                    Map::<Seq<char>, ValueModel>::empty(),
                ),
            decreases n_pos - j,
        {
            let a = &self.positional_args[j];
            proof {
                assert(pos_decls.skip(j as int)[0] == a@);
                assert(pos_decls.skip(j as int).drop_first() =~= pos_decls.skip(j as int + 1));
            }
            let v: String = args[1 + j].clone();
            tok.insert(a.long_name.clone(), v.clone());
            match typed_read(a.dtype, v.as_str()) {
                Some(val) => {
                    let key: String = canonical_name(a.long_name.as_str());
                    out.insert(key, val);
                },
                None => {
                    return Err(ArgError::InvalidValue(v));
                },
            }
            j = j + 1;
        }
        let ghost tok1 = tok@;
        let ghost out1 = out@;

        // Then the remaining tokens pair up as option keys and values.
        let mut i: usize = 1 + n_pos;
        while i < args.len()
            invariant
                tokenize(argv, i as int, tok@) == tokenize(argv, 1 + n_pos as int, tok1),
                out@ == out1,
            decreases args.len() - i,
        {
            if !starts_with_dash(args[i].as_str()) {
                return Err(ArgError::MalformedToken(args[i].clone()));
            }
            let key: String = args[i].clone();
            if i + 1 < args.len() && !starts_with_dash(args[i + 1].as_str()) {
                let val: String = args[i + 1].clone();
                tok.insert(key, val);
                i = i + 2;
            } else {
                tok.insert(key, String::from_str("true"));
                i = i + 1;
            }
        }

        // Finally the named declarations resolve against the token map:
        // the required ones first, then the optional ones.
        match resolve_into(&self.required_args, &tok, &mut out) {
            Ok(_) => {},
            Err(e) => {
                return Err(e);
            },
        }
        match resolve_into(&self.optional_args, &tok, &mut out) {
            Ok(_) => {},
            Err(e) => {
                return Err(e);
            },
        }
        Ok(ParseOutcome::Parsed(out))
    }
}

} // verus!
