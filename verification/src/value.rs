//! The typed value union and the error type.

use vstd::prelude::*;

use crate::model::{ErrModel, ValueModel};

verus! {

/// The kind of value a declaration expects.
#[derive(Clone, Copy, PartialEq, Eq, Structural, Debug)]
pub enum ArgumentType {
    INT,
    FLOAT,
    STR,
    BOOL,
}

/// A typed argument value: exactly one of the four kinds. A `FLOAT` carries
/// the decimal text of the number as supplied (or defaulted): verified code
/// holds no machine floats, so conversion to one is left to the host program.
#[derive(Debug)]
pub enum InnerData {
    INT(i32),
    FLOAT(String),
    STR(String),
    BOOL(bool),
}

impl View for InnerData {
    type V = ValueModel;

    open spec fn view(&self) -> ValueModel {
        match self {
            InnerData::INT(i) => ValueModel::Int(*i),
            InnerData::FLOAT(t) => ValueModel::FloatText(t@),
            InnerData::STR(s) => ValueModel::Text(s@),
            InnerData::BOOL(b) => ValueModel::Bool(*b),
        }
    }
}

/// A parse or extraction failure. Each variant carries what names the
/// offending condition; rendering a message from it is the host's.
#[derive(Debug)]
pub enum ArgError {
    /// Fewer raw tokens than declared positional arguments.
    MissingPositional,
    /// The carried bare token stood where an option key was expected.
    MalformedToken(String),
    /// The carried token does not read as the declared type.
    InvalidValue(String),
    /// The required declaration with the carried canonical long name was
    /// neither supplied nor defaulted.
    MissingRequired(String),
    /// An accessor was used on a value of another tag.
    WrongType,
}

impl View for ArgError {
    type V = ErrModel;

    open spec fn view(&self) -> ErrModel {
        match self {
            ArgError::MissingPositional => ErrModel::MissingPositional,
            ArgError::MalformedToken(t) => ErrModel::Malformed(t@),
            ArgError::InvalidValue(t) => ErrModel::Invalid(t@),
            ArgError::MissingRequired(n) => ErrModel::MissingRequired(n@),
            ArgError::WrongType => ErrModel::WrongType,
        }
    }
}

impl InnerData {
    pub fn from_int(i: i32) -> (r: InnerData)
        ensures
            r@ == ValueModel::Int(i),
    {
        InnerData::INT(i)
    }

    /// Wraps the decimal text of a floating-point value.
    pub fn from_float(text: String) -> (r: InnerData)
        ensures
            r@ == ValueModel::FloatText(text@),
    {
        InnerData::FLOAT(text)
    }

    pub fn from_str(s: String) -> (r: InnerData)
        ensures
            r@ == ValueModel::Text(s@),
    {
        InnerData::STR(s)
    }

    pub fn from_bool(b: bool) -> (r: InnerData)
        ensures
            r@ == ValueModel::Bool(b),
    {
        InnerData::BOOL(b)
    }

    /// The wrapped integer, or `WrongType` when the value is of another tag.
    pub fn get_int(&self) -> (r: Result<i32, ArgError>)
        ensures
            match self@ {
                ValueModel::Int(i) => r == Ok::<i32, ArgError>(i),
                _ => r == Err::<i32, ArgError>(ArgError::WrongType),
            },
    {
        match self {
            InnerData::INT(i) => Ok(*i),
            _ => Err(ArgError::WrongType),
        }
    }

    /// The decimal text of the wrapped floating-point value, or `WrongType`.
    pub fn get_float(&self) -> (r: Result<String, ArgError>)
        ensures
            match self@ {
                ValueModel::FloatText(t) => r matches Ok(s) && s@ == t,
                _ => r matches Err(e) && e@ == ErrModel::WrongType,
            },
    {
        match self {
            InnerData::FLOAT(t) => Ok(t.clone()),
            _ => Err(ArgError::WrongType),
        }
    }

    /// A copy of the wrapped text, owned by the caller, or `WrongType`.
    pub fn get_str(&self) -> (r: Result<String, ArgError>)
        ensures
            match self@ {
                ValueModel::Text(t) => r matches Ok(s) && s@ == t,
                _ => r matches Err(e) && e@ == ErrModel::WrongType,
            },
    {
        match self {
            InnerData::STR(s) => Ok(s.clone()),
            _ => Err(ArgError::WrongType),
        }
    }

    /// The wrapped boolean, or `WrongType` when the value is of another tag.
    pub fn get_bool(&self) -> (r: Result<bool, ArgError>)
        ensures
            match self@ {
                ValueModel::Bool(b) => r == Ok::<bool, ArgError>(b),
                _ => r == Err::<bool, ArgError>(ArgError::WrongType),
            },
    {
        match self {
            InnerData::BOOL(b) => Ok(*b),
            _ => Err(ArgError::WrongType),
        }
    }

    /// An identical value, fit to hand out while the original stays in place.
    pub fn duplicate(&self) -> (r: InnerData)
        ensures
            r@ == self@,
    {
        match self {
            InnerData::INT(i) => InnerData::INT(*i),
            InnerData::FLOAT(t) => InnerData::FLOAT(t.clone()),
            InnerData::STR(s) => InnerData::STR(s.clone()),
            InnerData::BOOL(b) => InnerData::BOOL(*b),
        }
    }
}

} // verus!
