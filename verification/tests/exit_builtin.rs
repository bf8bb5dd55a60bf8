use rsush::builtins::{exit_args, exit_status_of_args, ExitArgsError};

fn strings(v: &[&str]) -> Vec<String>
{ v.iter().map(|s| String::from(*s)).collect() }

#[test]
fn exit_builtin_reads_the_status_after_its_name()
{
    assert_eq!(Ok(42), exit_args(&strings(&["test_builtin_exit", "42"])));
    assert_eq!(Ok(-3), exit_args(&strings(&["test_builtin_exit", "-3", "x"])));
    assert_eq!(Ok(7), exit_args(&strings(&["test_builtin_exit", "+7"])));
    assert_eq!(42, exit_status_of_args(&strings(&["test_builtin_exit", "42"])));
}

#[test]
fn exit_builtin_falls_back_to_one()
{
    assert_eq!(Err(ExitArgsError::NoBuiltinName), exit_args(&[]));
    assert_eq!(Err(ExitArgsError::TooFewArguments), exit_args(&strings(&["test_builtin_exit"])));
    assert_eq!(Err(ExitArgsError::InvalidStatus), exit_args(&strings(&["test_builtin_exit", "4x"])));
    assert_eq!(Err(ExitArgsError::InvalidStatus), exit_args(&strings(&["test_builtin_exit", "99999999999"])));
    assert_eq!(1, exit_status_of_args(&strings(&["test_builtin_exit", ""])));
    assert_eq!(1, exit_status_of_args(&strings(&["test_builtin_exit"])));
}
