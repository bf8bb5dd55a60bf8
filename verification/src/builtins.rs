use vstd::prelude::*;

verus! {

/// The integer that `str::parse::<i32>` of std reads from the characters `s`
/// (an optional sign, then decimal digits, the value fitting in `i32`), or
/// `None` when it reads none.
pub uninterp spec fn parsed_i32(s: Seq<char>) -> Option<i32>;

/// `str::parse::<i32>` of std, its error dropped: a function of the
/// characters alone, named by `parsed_i32`.
#[verifier::external_body]
fn parse_i32(s: &String) -> (res: Option<i32>)
    ensures
        res == parsed_i32(s@),
{
    s.parse::<i32>().ok()
}

/// Why the `exit` test built-in falls back to status 1.
#[derive(Copy, Clone, Debug, PartialEq, Eq, Structural)]
pub enum ExitArgsError {
    /// No arguments at all, not even the name of the built-in.
    NoBuiltinName,
    /// The name of the built-in but no status after it.
    TooFewArguments,
    /// A status that is not a decimal `i32`.
    InvalidStatus,
}

/// What the `exit` test built-in makes of its arguments, the first of which is
/// its own name: the status that the second spells, or why there is none.
pub open spec fn exit_args_outcome(args: Seq<Seq<char>>) -> Result<i32, ExitArgsError> {
    if args.len() < 1 {
        Err(ExitArgsError::NoBuiltinName)
    } else if args.len() < 2 {
        Err(ExitArgsError::TooFewArguments)
    } else {
        match parsed_i32(args[1]) {
            Some(status) => Ok(status),
            None => Err(ExitArgsError::InvalidStatus),
        }
    }
}

/// The status that the `exit` test built-in returns: the one its arguments
/// give, or 1 when they give none.
pub open spec fn exit_builtin_status(outcome: Result<i32, ExitArgsError>) -> i32 {
    match outcome {
        Ok(status) => status,
        Err(_) => 1,
    }
}

/// The `exit` test built-in returns the status that its second argument
/// spells whenever it spells one, whatever that status is; it returns 1 when
/// there is no second argument or it spells no `i32`.
pub proof fn lemma_exit_status_law(args: Seq<Seq<char>>)
    ensures
        args.len() >= 2 && parsed_i32(args[1]) is Some ==> exit_args_outcome(args) == Ok::<i32, ExitArgsError>(
            parsed_i32(args[1])->0,
        ),
        exit_builtin_status(exit_args_outcome(args)) == if args.len() >= 2 && parsed_i32(args[1]) is Some {
            parsed_i32(args[1])->0
        } else {
            1
        },
        exit_args_outcome(args) is Ok ==> args.len() >= 2 && parsed_i32(args[1]) == Some(
            exit_args_outcome(args)->Ok_0,
        ),
{
}

/// Reads the status of the `exit` test built-in from its arguments, the first
/// of which is its own name.
pub fn exit_args(args: &[String]) -> (res: Result<i32, ExitArgsError>)
    ensures
        res == exit_args_outcome(args@.map_values(|a: String| a@)),
        (res == Err::<i32, ExitArgsError>(ExitArgsError::NoBuiltinName)) == (args.len() == 0),
        (res == Err::<i32, ExitArgsError>(ExitArgsError::TooFewArguments)) == (args.len() == 1),
        args.len() >= 2 ==> match parsed_i32(args@[1]@) {
            Some(n) => res == Ok::<i32, ExitArgsError>(n),
            None => res == Err::<i32, ExitArgsError>(ExitArgsError::InvalidStatus),
        },
{
    let ghost argv = args@.map_values(|a: String| a@);
    if args.len() < 1 {
        return Err(ExitArgsError::NoBuiltinName);
    }
    if args.len() < 2 {
        return Err(ExitArgsError::TooFewArguments);
    }
    assert(argv[1] == args@[1]@);
    match parse_i32(&args[1]) {
        Some(status) => Ok(status),
        None => Err(ExitArgsError::InvalidStatus),
    }
}

/// The status that the `exit` test built-in returns for its arguments.
pub fn exit_status_of_args(args: &[String]) -> (res: i32)
    ensures
        res == exit_builtin_status(exit_args_outcome(args@.map_values(|a: String| a@))),
        res == if args.len() >= 2 && parsed_i32(args@[1]@) is Some {
            parsed_i32(args@[1]@)->0
        } else {
            1
        },
{
    match exit_args(args) {
        Ok(status) => status,
        Err(_) => 1,
    }
}

} // verus!
