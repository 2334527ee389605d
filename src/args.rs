use vstd::prelude::*;

use crate::units::Prefix;

verus! {

/// What the command line asks for.
pub struct Config {
    /// The text that a process name must contain.
    pub filter: String,
    /// The unit system in which memory is shown.
    pub prefix: Prefix,
}

/// Why a command line is refused.
pub enum UsageError {
    /// No filter was given.
    MissingFilter,
    /// More than a filter and a unit system were given.
    TooManyArguments,
    /// The unit system is neither `decimal` nor `binary`; holds the token.
    InvalidPrefix(String),
}

/// The lower-case form of a text, as Unicode defines it.
pub uninterp spec fn lower_of(s: Seq<char>) -> Seq<char>;

/// Relies on `str::to_lowercase`: the lower-case form depends on the text alone.
#[verifier::external_body]
fn lowercase(s: &str) -> (r: String)
    ensures
        r@ == lower_of(s@),
{
    s.to_lowercase()
}

/// The unit system named by a lower-case token.
pub open spec fn prefix_named(t: Seq<char>) -> Option<Prefix> {
    if t == seq!['d', 'e', 'c', 'i', 'm', 'a', 'l'] {
        Some(Prefix::Decimal)
    } else if t == seq!['b', 'i', 'n', 'a', 'r', 'y'] {
        Some(Prefix::Binary)
    } else {
        None
    }
}

/// The unit system named by a token already in lower case.
pub fn prefix_from_lowered(t: &String) -> (r: Option<Prefix>)
    ensures
        r == prefix_named(t@),
{
    let decimal = String::from_str("decimal");
    let binary = String::from_str("binary");
    proof {
        reveal_strlit("decimal");
        reveal_strlit("binary");
    }
    assert(decimal@ =~= seq!['d', 'e', 'c', 'i', 'm', 'a', 'l']);
    assert(binary@ =~= seq!['b', 'i', 'n', 'a', 'r', 'y']);
    if *t == decimal {
        Some(Prefix::Decimal)
    } else if *t == binary {
        Some(Prefix::Binary)
    } else {
        None
    }
}

/// The unit system named by a token, in any case.
pub fn parse_prefix(token: &str) -> (r: Option<Prefix>)
    ensures
        r == prefix_named(lower_of(token@)),
{
    let lowered = lowercase(token);
    prefix_from_lowered(&lowered)
}

/// Reads the arguments that follow the program name: a filter, then
/// optionally a unit system (`decimal`, the default, or `binary`, in any case).
pub fn parse_args(args: &Vec<String>) -> (r: Result<Config, UsageError>)
    ensures
        match r {
            Ok(c) => {
                &&& 1 <= args@.len() <= 2
                &&& c.filter@ == args@[0]@
                &&& args@.len() == 1 ==> c.prefix == Prefix::Decimal
                &&& args@.len() == 2 ==> prefix_named(lower_of(args@[1]@)) == Some(c.prefix)
            },
            Err(UsageError::MissingFilter) => args@.len() == 0,
            Err(UsageError::TooManyArguments) => args@.len() > 2,
            Err(UsageError::InvalidPrefix(t)) => {
                &&& args@.len() == 2
                &&& t@ == args@[1]@
                &&& prefix_named(lower_of(args@[1]@)) is None
            },
        },
{
    if args.len() == 0 {
        return Err(UsageError::MissingFilter);
    }
    if args.len() > 2 {
        return Err(UsageError::TooManyArguments);
    }
    let filter = args[0].clone();
    if args.len() == 1 {
        return Ok(Config { filter, prefix: Prefix::Decimal });
    }
    match parse_prefix(args[1].as_str()) {
        Some(prefix) => Ok(Config { filter, prefix }),
        None => Err(UsageError::InvalidPrefix(args[1].clone())),
    }
}

} // verus!
