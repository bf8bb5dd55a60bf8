use vstd::prelude::*;
use vstd::string::*;
use crate::args::Arguments;
use crate::text::{push_char, string_chars};

verus! {

/// Whether an option was given with `-` (set) or with `+` (unset).
#[derive(Copy, Clone, Debug, PartialEq, Eq, Structural)]
pub enum OptionType {
    Minus,
    Plus,
}

/// The shell flags that `set` and the command line can change.
#[derive(Copy, Clone, Debug, PartialEq, Eq, Structural)]
pub enum ShellFlag {
    Allexport,
    Errexit,
    Ignoreeof,
    Monitor,
    Noclobber,
    Noglob,
    Noexec,
    Nolog,
    Notify,
    Nounset,
    Verbose,
    Vi,
    Xtrace,
    Strlossy,
}

/// Why `parse_options` refused its arguments.
pub enum OptionError {
    /// An option letter that neither the settings nor the handler know.
    UnknownOption(OptionType, char),
    /// `-o` or `+o` without a name after it, which the handler did not take.
    OptionRequiresArgument(OptionType, char),
    /// A name after `-o` or `+o` that names no flag.
    InvalidArgument,
}

/// The index of the first argument that is not an option, and whether the
/// options ended with `--`; or the reason the options were refused.
pub type OptionResult = Result<(usize, bool), OptionError>;

/// The settings of the shell.
#[derive(Clone)]
pub struct Settings {
    pub allexport_flag: bool,
    pub errexit_flag: bool,
    pub ignoreeof_flag: bool,
    pub monitor_flag: bool,
    pub noclobber_flag: bool,
    pub noglob_flag: bool,
    pub noexec_flag: bool,
    pub nolog_flag: bool,
    pub notify_flag: bool,
    pub nounset_flag: bool,
    pub verbose_flag: bool,
    pub vi_flag: bool,
    pub xtrace_flag: bool,
    pub strlossy_flag: bool,
    pub arg0: String,
    arg_vec_stack: Vec<Arguments>,
    current_args: Arguments,
}

/// The value that an option of the given type gives to its flag.
pub open spec fn option_value(t: OptionType) -> bool {
    t == OptionType::Minus
}

/// The flag that a single option letter names, if any (`h` and `o` name none).
pub open spec fn flag_of_letter(c: char) -> Option<ShellFlag> {
    if c == 'a' {
        Some(ShellFlag::Allexport)
    } else if c == 'e' {
        Some(ShellFlag::Errexit)
    } else if c == 'm' {
        Some(ShellFlag::Monitor)
    } else if c == 'C' {
        Some(ShellFlag::Noclobber)
    } else if c == 'f' {
        Some(ShellFlag::Noglob)
    } else if c == 'n' {
        Some(ShellFlag::Noexec)
    } else if c == 'b' {
        Some(ShellFlag::Notify)
    } else if c == 'u' {
        Some(ShellFlag::Nounset)
    } else if c == 'v' {
        Some(ShellFlag::Verbose)
    } else if c == 'x' {
        Some(ShellFlag::Xtrace)
    } else {
        None
    }
}

/// The name under which `-o` and `+o` know a flag.
pub open spec fn flag_name(f: ShellFlag) -> Seq<char> {
    match f {
        ShellFlag::Allexport => "allexport"@,
        ShellFlag::Errexit => "errexit"@,
        ShellFlag::Ignoreeof => "ignoreeof"@,
        ShellFlag::Monitor => "monitor"@,
        ShellFlag::Noclobber => "noclobber"@,
        ShellFlag::Noglob => "noglob"@,
        ShellFlag::Noexec => "noexec"@,
        ShellFlag::Nolog => "nolog"@,
        ShellFlag::Notify => "notify"@,
        ShellFlag::Nounset => "nounset"@,
        ShellFlag::Verbose => "verbose"@,
        ShellFlag::Vi => "vi"@,
        ShellFlag::Xtrace => "xtrace"@,
        ShellFlag::Strlossy => "strlossy"@,
    }
}

/// The flag that an argument of `-o` or `+o` names, if any.
pub open spec fn flag_of_name(name: Seq<char>) -> Option<ShellFlag> {
    if name == "allexport"@ {
        Some(ShellFlag::Allexport)
    } else if name == "errexit"@ {
        Some(ShellFlag::Errexit)
    } else if name == "ignoreeof"@ {
        Some(ShellFlag::Ignoreeof)
    } else if name == "monitor"@ {
        Some(ShellFlag::Monitor)
    } else if name == "noclobber"@ {
        Some(ShellFlag::Noclobber)
    } else if name == "noglob"@ {
        Some(ShellFlag::Noglob)
    } else if name == "noexec"@ {
        Some(ShellFlag::Noexec)
    } else if name == "nolog"@ {
        Some(ShellFlag::Nolog)
    } else if name == "notify"@ {
        Some(ShellFlag::Notify)
    } else if name == "nounset"@ {
        Some(ShellFlag::Nounset)
    } else if name == "verbose"@ {
        Some(ShellFlag::Verbose)
    } else if name == "vi"@ {
        Some(ShellFlag::Vi)
    } else if name == "xtrace"@ {
        Some(ShellFlag::Xtrace)
    } else if name == "strlossy"@ {
        Some(ShellFlag::Strlossy)
    } else {
        None
    }
}

/// The character sequences of the given strings.
pub open spec fn arg_views(args: Seq<String>) -> Seq<Seq<char>> {
    args.map_values(|a: String| a@)
}

/// An argument that holds option letters: at least two characters, a `-` or
/// `+` first, and not `--`.
pub open spec fn is_option_group(arg: Seq<char>) -> bool {
    &&& arg.len() >= 2
    &&& (arg[0] == '-' || arg[0] == '+')
    &&& !(arg.len() == 2 && arg[0] == '-' && arg[1] == '-')
}

/// The argument `--`.
pub open spec fn is_double_minus(arg: Seq<char>) -> bool {
    arg.len() == 2 && arg[0] == '-' && arg[1] == '-'
}

/// The type of the options in an argument whose first character is `c`.
pub open spec fn option_type_of(c: char) -> OptionType {
    if c == '-' {
        OptionType::Minus
    } else {
        OptionType::Plus
    }
}

/// A call of the handler of options that the settings do not know: the
/// option type and letter it was given, the settings it was given, its
/// answer, and the settings it left.
pub struct HandlerCall {
    pub option_type: OptionType,
    pub letter: char,
    pub before: Settings,
    pub taken: bool,
    pub after: Settings,
}

/// What the handler answered and left when the parser gave it the option type
/// `t`, the letter `c` and the settings `s` as its `n`-th call, according to
/// the record `o` of its calls. The handler's behaviour is not known in
/// advance, so the record is a parameter of the specification. A record that
/// was not made for these arguments counts as a refusal that changed nothing.
pub open spec fn handler_outcome(o: Seq<HandlerCall>, n: int, t: OptionType, c: char, s: Settings) -> (bool, Settings) {
    if 0 <= n < o.len() && o[n].option_type == t && o[n].letter == c && o[n].before == s {
        (o[n].taken, o[n].after)
    } else {
        (false, s)
    }
}

/// A record that extends `orc` by `e` begins with `orc` and then holds `e`.
proof fn lemma_record_extends(orc: Seq<HandlerCall>, e: HandlerCall, g: Seq<HandlerCall>)
    requires
        g.len() >= orc.len() + 1,
        g.take((orc.len() + 1) as int) == orc.push(e),
    ensures
        g.take(orc.len() as int) == orc,
        g[orc.len() as int] == e,
{
    assert(g.take(orc.len() as int) =~= orc) by {
        assert forall|i: int| 0 <= i < orc.len() implies g.take(orc.len() as int)[i] == orc[i] by {
            assert(g.take((orc.len() + 1) as int)[i] == orc.push(e)[i]);
        }
    }
    assert(g.take((orc.len() + 1) as int)[orc.len() as int] == orc.push(e)[orc.len() as int]);
    assert(g.take((orc.len() + 1) as int)[orc.len() as int] == g[orc.len() as int]);
}

/// A record of handler calls, each of which the handler can have answered
/// as recorded, stays so when one more such call is added.
proof fn lemma_record_call<F>(f: F, before: Seq<HandlerCall>, e: HandlerCall)
    where
        F: FnMut(OptionType, char, &mut Settings) -> bool,
    requires
        forall|i: int| 0 <= i < before.len() ==> (exists|r: &mut Settings|
            *r == #[trigger] before[i].before && *final(r) == before[i].after
                && call_ensures(f, (before[i].option_type, before[i].letter, r), before[i].taken)),
        exists|r: &mut Settings|
            *r == e.before && *final(r) == e.after && call_ensures(f, (e.option_type, e.letter, r), e.taken),
    ensures
        before.push(e).len() == before.len() + 1,
        before.push(e)[before.len() as int] == e,
        forall|i: int| 0 <= i < before.push(e).len() ==> (exists|r: &mut Settings|
            *r == #[trigger] before.push(e)[i].before && *final(r) == before.push(e)[i].after
                && call_ensures(f, (before.push(e)[i].option_type, before.push(e)[i].letter, r), before.push(e)[i].taken)),
{
    assert forall|i: int| 0 <= i < before.push(e).len() implies (exists|r: &mut Settings|
        *r == #[trigger] before.push(e)[i].before && *final(r) == before.push(e)[i].after
            && call_ensures(f, (before.push(e)[i].option_type, before.push(e)[i].letter, r), before.push(e)[i].taken)) by {
        if i < before.len() {
            assert(before.push(e)[i] == before[i]);
        } else {
            assert(before.push(e)[i] == e);
        }
    }
}

/// The character at `j`.
fn char_at(v: &Vec<char>, j: usize) -> (c: char)
    requires
        j < v.len(),
    ensures
        c == v@[j as int],
{
    v[j]
}

/// The option parser from the state where argument `k` is next (`j == 0`), or
/// where the character `j` of argument `k` is next (`j >= 1`), with options of
/// type `t`, settings `s`, and `n` calls of the handler made so far, whose
/// outcomes are `o`.
pub open spec fn run_options(
    args: Seq<Seq<char>>,
    k: int,
    j: int,
    t: OptionType,
    s: Settings,
    o: Seq<HandlerCall>,
    n: int,
) -> (OptionResult, Settings)
    decreases args.len() - k, if 0 <= k < args.len() { args[k].len() + 1 - j } else { 0 },
{
    if k < 0 || k >= args.len() || j < 0 {
        (Ok((k as usize, false)), s)
    } else if j == 0 {
        let arg = args[k];
        if is_double_minus(arg) {
            (Ok(((k + 1) as usize, true)), s)
        } else if !is_option_group(arg) {
            (Ok((k as usize, false)), s)
        } else {
            run_options(args, k, 1, option_type_of(arg[0]), s, o, n)
        }
    } else if j >= args[k].len() {
        run_options(args, k + 1, 0, t, s, o, n)
    } else {
        let arg = args[k];
        let c = arg[j];
        if let Some(f) = flag_of_letter(c) {
            run_options(args, k, j + 1, t, s.with_flag(f, option_value(t)), o, n)
        } else if c == 'h' {
            run_options(args, k, j + 1, t, s, o, n)
        } else if c == 'o' {
            if j + 1 < arg.len() {
                match flag_of_name(arg.subrange(j + 1, arg.len() as int)) {
                    Some(f) => run_options(args, k + 1, 0, t, s.with_flag(f, option_value(t)), o, n),
                    None => (Err(OptionError::InvalidArgument), s),
                }
            } else if k + 1 < args.len() {
                match flag_of_name(args[k + 1]) {
                    Some(f) => run_options(args, k + 2, 0, t, s.with_flag(f, option_value(t)), o, n),
                    None => (Err(OptionError::InvalidArgument), s),
                }
            } else {
                let (taken, s2) = handler_outcome(o, n, t, c, s);
                if taken {
                    run_options(args, k + 1, 0, t, s2, o, n + 1)
                } else {
                    (Err(OptionError::OptionRequiresArgument(t, c)), s2)
                }
            }
        } else {
            let (taken, s2) = handler_outcome(o, n, t, c, s);
            if taken {
                run_options(args, k, j + 1, t, s2, o, n + 1)
            } else {
                (Err(OptionError::UnknownOption(t, c)), s2)
            }
        }
    }
}

/// Whether the record `o` holds exactly the calls that the option parser
/// makes of the handler from the state of `run_options` on: each call, from
/// the `n`-th on, was made with the option type, letter and settings of its
/// entry, and no entry is left over.
pub open spec fn calls_recorded(
    args: Seq<Seq<char>>,
    k: int,
    j: int,
    t: OptionType,
    s: Settings,
    o: Seq<HandlerCall>,
    n: int,
) -> bool
    decreases args.len() - k, if 0 <= k < args.len() { args[k].len() + 1 - j } else { 0 },
{
    if k < 0 || k >= args.len() || j < 0 {
        n == o.len()
    } else if j == 0 {
        let arg = args[k];
        if is_double_minus(arg) || !is_option_group(arg) {
            n == o.len()
        } else {
            calls_recorded(args, k, 1, option_type_of(arg[0]), s, o, n)
        }
    } else if j >= args[k].len() {
        calls_recorded(args, k + 1, 0, t, s, o, n)
    } else {
        let arg = args[k];
        let c = arg[j];
        if let Some(f) = flag_of_letter(c) {
            calls_recorded(args, k, j + 1, t, s.with_flag(f, option_value(t)), o, n)
        } else if c == 'h' {
            calls_recorded(args, k, j + 1, t, s, o, n)
        } else if c == 'o' && j + 1 < arg.len() {
            match flag_of_name(arg.subrange(j + 1, arg.len() as int)) {
                Some(f) => calls_recorded(args, k + 1, 0, t, s.with_flag(f, option_value(t)), o, n),
                None => n == o.len(),
            }
        } else if c == 'o' && k + 1 < args.len() {
            match flag_of_name(args[k + 1]) {
                Some(f) => calls_recorded(args, k + 2, 0, t, s.with_flag(f, option_value(t)), o, n),
                None => n == o.len(),
            }
        } else {
            &&& 0 <= n < o.len()
            &&& o[n].option_type == t
            &&& o[n].letter == c
            &&& o[n].before == s
            &&& if !o[n].taken {
                n + 1 == o.len()
            } else if c == 'o' {
                calls_recorded(args, k + 1, 0, t, o[n].after, o, n + 1)
            } else {
                calls_recorded(args, k, j + 1, t, o[n].after, o, n + 1)
            }
        }
    }
}

/// Whether the record `o` holds exactly the calls of the handler that
/// `parse_options` makes on the arguments `args` and the settings `s`.
pub open spec fn parse_options_calls(args: Seq<Seq<char>>, s: Settings, o: Seq<HandlerCall>) -> bool {
    if args.len() == 0 {
        o.len() == 0
    } else {
        calls_recorded(args, 1, 0, OptionType::Minus, s, o, 0)
    }
}

/// What `parse_options` returns and leaves of the settings `s` on the
/// arguments `args`, of which the first is the name of the command, when the
/// handler's calls have the outcomes `o`.
pub open spec fn parse_options_outcome(args: Seq<Seq<char>>, s: Settings, o: Seq<HandlerCall>) -> (OptionResult, Settings) {
    if args.len() == 0 {
        (Ok((0, false)), s)
    } else {
        run_options(args, 1, 0, OptionType::Minus, s, o, 0)
    }
}

/// Every option letter in `args` is one that the settings handle themselves:
/// a flag letter, `h`, or `o` with a name after it.
pub open spec fn handler_free(args: Seq<Seq<char>>) -> bool {
    forall|k: int, j: int|
        1 <= k < args.len() && is_option_group(args[k]) && 1 <= j < args[k].len()
            ==> #[trigger] handled_by_settings(args, k, j)
}

/// The option letter `j` of argument `k` needs no handler.
pub open spec fn handled_by_settings(args: Seq<Seq<char>>, k: int, j: int) -> bool {
    let c = args[k][j];
    ||| flag_of_letter(c) is Some
    ||| c == 'h'
    ||| (c == 'o' && (j + 1 < args[k].len() || k + 1 < args.len()))
}

/// Whether the characters of `v` from `start` on are those of `lit`.
fn chars_eq_from(v: &Vec<char>, start: usize, lit: &str) -> (res: bool)
    requires
        start <= v.len(),
    ensures
        res == (v@.subrange(start as int, v.len() as int) == lit@),
{
    let n = lit.unicode_len();
    if v.len() - start != n {
        return false;
    }
    let mut i: usize = 0;
    while i < n
        invariant
            start + n == v.len(),
            n == lit@.len(),
            i <= n,
            forall|m: int| 0 <= m < i ==> v@[start + m] == lit@[m],
        decreases n - i,
    {
        if v[start + i] != lit.get_char(i) {
            assert(v@.subrange(start as int, v.len() as int)[i as int] != lit@[i as int]);
            return false;
        }
        i = i + 1;
    }
    assert(v@.subrange(start as int, v.len() as int) =~= lit@);
    true
}

/// The flag named by the characters of `v` from `start` on, if any.
fn flag_by_name_from(v: &Vec<char>, start: usize) -> (res: Option<ShellFlag>)
    requires
        start <= v.len(),
    ensures
        res == flag_of_name(v@.subrange(start as int, v.len() as int)),
{
    if chars_eq_from(v, start, "allexport") {
        Some(ShellFlag::Allexport)
    } else if chars_eq_from(v, start, "errexit") {
        Some(ShellFlag::Errexit)
    } else if chars_eq_from(v, start, "ignoreeof") {
        Some(ShellFlag::Ignoreeof)
    } else if chars_eq_from(v, start, "monitor") {
        Some(ShellFlag::Monitor)
    } else if chars_eq_from(v, start, "noclobber") {
        Some(ShellFlag::Noclobber)
    } else if chars_eq_from(v, start, "noglob") {
        Some(ShellFlag::Noglob)
    } else if chars_eq_from(v, start, "noexec") {
        Some(ShellFlag::Noexec)
    } else if chars_eq_from(v, start, "nolog") {
        Some(ShellFlag::Nolog)
    } else if chars_eq_from(v, start, "notify") {
        Some(ShellFlag::Notify)
    } else if chars_eq_from(v, start, "nounset") {
        Some(ShellFlag::Nounset)
    } else if chars_eq_from(v, start, "verbose") {
        Some(ShellFlag::Verbose)
    } else if chars_eq_from(v, start, "vi") {
        Some(ShellFlag::Vi)
    } else if chars_eq_from(v, start, "xtrace") {
        Some(ShellFlag::Xtrace)
    } else if chars_eq_from(v, start, "strlossy") {
        Some(ShellFlag::Strlossy)
    } else {
        None
    }
}

/// The flag that an option letter names, if any.
fn letter_flag(c: char) -> (res: Option<ShellFlag>)
    ensures
        res == flag_of_letter(c),
{
    if c == 'a' {
        Some(ShellFlag::Allexport)
    } else if c == 'e' {
        Some(ShellFlag::Errexit)
    } else if c == 'm' {
        Some(ShellFlag::Monitor)
    } else if c == 'C' {
        Some(ShellFlag::Noclobber)
    } else if c == 'f' {
        Some(ShellFlag::Noglob)
    } else if c == 'n' {
        Some(ShellFlag::Noexec)
    } else if c == 'b' {
        Some(ShellFlag::Notify)
    } else if c == 'u' {
        Some(ShellFlag::Nounset)
    } else if c == 'v' {
        Some(ShellFlag::Verbose)
    } else if c == 'x' {
        Some(ShellFlag::Xtrace)
    } else {
        None
    }
}

impl Settings {
    /// The value of a flag.
    pub closed spec fn flag(self, f: ShellFlag) -> bool {
        match f {
            ShellFlag::Allexport => self.allexport_flag,
            ShellFlag::Errexit => self.errexit_flag,
            ShellFlag::Ignoreeof => self.ignoreeof_flag,
            ShellFlag::Monitor => self.monitor_flag,
            ShellFlag::Noclobber => self.noclobber_flag,
            ShellFlag::Noglob => self.noglob_flag,
            ShellFlag::Noexec => self.noexec_flag,
            ShellFlag::Nolog => self.nolog_flag,
            ShellFlag::Notify => self.notify_flag,
            ShellFlag::Nounset => self.nounset_flag,
            ShellFlag::Verbose => self.verbose_flag,
            ShellFlag::Vi => self.vi_flag,
            ShellFlag::Xtrace => self.xtrace_flag,
            ShellFlag::Strlossy => self.strlossy_flag,
        }
    }

    /// These settings with one flag changed and everything else kept.
    #[verifier::opaque]
    pub closed spec fn with_flag(self, f: ShellFlag, v: bool) -> Settings {
        match f {
            ShellFlag::Allexport => Settings { allexport_flag: v, ..self },
            ShellFlag::Errexit => Settings { errexit_flag: v, ..self },
            ShellFlag::Ignoreeof => Settings { ignoreeof_flag: v, ..self },
            ShellFlag::Monitor => Settings { monitor_flag: v, ..self },
            ShellFlag::Noclobber => Settings { noclobber_flag: v, ..self },
            ShellFlag::Noglob => Settings { noglob_flag: v, ..self },
            ShellFlag::Noexec => Settings { noexec_flag: v, ..self },
            ShellFlag::Nolog => Settings { nolog_flag: v, ..self },
            ShellFlag::Notify => Settings { notify_flag: v, ..self },
            ShellFlag::Nounset => Settings { nounset_flag: v, ..self },
            ShellFlag::Verbose => Settings { verbose_flag: v, ..self },
            ShellFlag::Vi => Settings { vi_flag: v, ..self },
            ShellFlag::Xtrace => Settings { xtrace_flag: v, ..self },
            ShellFlag::Strlossy => Settings { strlossy_flag: v, ..self },
        }
    }

    /// The name of the shell or script, `$0`.
    pub closed spec fn arg0_view(self) -> Seq<char> {
        self.arg0@
    }

    /// `arg0` and the positional parameters, in use and saved, are the same
    /// values in both settings.
    pub closed spec fn same_rest(self, other: Settings) -> bool {
        &&& self.arg0 == other.arg0
        &&& self.arg_vec_stack == other.arg_vec_stack
        &&& self.current_args == other.current_args
    }

    /// The positional parameters in use.
    pub closed spec fn current(self) -> Arguments {
        self.current_args
    }

    /// The saved positional parameters, the most recently saved last.
    pub closed spec fn saved(self) -> Seq<Arguments> {
        self.arg_vec_stack@
    }

    /// The public part of two settings agrees: every flag and `arg0`.
    pub open spec fn same_public(self, other: Settings) -> bool {
        &&& forall|f: ShellFlag| #[trigger] self.flag(f) == other.flag(f)
        &&& self.arg0_view() == other.arg0_view()
    }

    /// Settings with the default flags: `monitor` and `notify` set, all others
    /// unset; an empty `arg0`, no saved and no current positional parameters.
    pub fn new() -> (res: Settings)
        ensures
            forall|f: ShellFlag|
                #[trigger] res.flag(f) == (f == ShellFlag::Monitor || f == ShellFlag::Notify),
            res.arg0_view() == Seq::<char>::empty(),
            res.saved() == Seq::<Arguments>::empty(),
            res.current().params() == Seq::<Seq<char>>::empty(),
    {
        Settings {
            allexport_flag: false,
            errexit_flag: false,
            ignoreeof_flag: false,
            monitor_flag: true,
            noclobber_flag: false,
            noglob_flag: false,
            noexec_flag: false,
            nolog_flag: false,
            notify_flag: true,
            nounset_flag: false,
            verbose_flag: false,
            vi_flag: false,
            xtrace_flag: false,
            strlossy_flag: false,
            arg0: String::new(),
            arg_vec_stack: Vec::new(),
            current_args: Arguments::new(),
        }
    }
}

impl Settings {
    /// The value of a flag.
    pub fn get_flag(&self, f: ShellFlag) -> (res: bool)
        ensures
            res == self.flag(f),
    {
        match f {
            ShellFlag::Allexport => self.allexport_flag,
            ShellFlag::Errexit => self.errexit_flag,
            ShellFlag::Ignoreeof => self.ignoreeof_flag,
            ShellFlag::Monitor => self.monitor_flag,
            ShellFlag::Noclobber => self.noclobber_flag,
            ShellFlag::Noglob => self.noglob_flag,
            ShellFlag::Noexec => self.noexec_flag,
            ShellFlag::Nolog => self.nolog_flag,
            ShellFlag::Notify => self.notify_flag,
            ShellFlag::Nounset => self.nounset_flag,
            ShellFlag::Verbose => self.verbose_flag,
            ShellFlag::Vi => self.vi_flag,
            ShellFlag::Xtrace => self.xtrace_flag,
            ShellFlag::Strlossy => self.strlossy_flag,
        }
    }

    /// Gives a flag a value; `lemma_with_flag` says what that changes.
    pub fn set_flag(&mut self, f: ShellFlag, v: bool)
        ensures
            *final(self) == old(self).with_flag(f, v),
    {
        reveal(Settings::with_flag);
        match f {
            ShellFlag::Allexport => {
                self.allexport_flag = v;
                return;
            },
            ShellFlag::Errexit => {
                self.errexit_flag = v;
                return;
            },
            ShellFlag::Ignoreeof => {
                self.ignoreeof_flag = v;
                return;
            },
            ShellFlag::Monitor => {
                self.monitor_flag = v;
                return;
            },
            ShellFlag::Noclobber => {
                self.noclobber_flag = v;
                return;
            },
            ShellFlag::Noglob => {
                self.noglob_flag = v;
                return;
            },
            ShellFlag::Noexec => {
                self.noexec_flag = v;
                return;
            },
            ShellFlag::Nolog => {
                self.nolog_flag = v;
                return;
            },
            ShellFlag::Notify => {
                self.notify_flag = v;
                return;
            },
            ShellFlag::Nounset => {
                self.nounset_flag = v;
                return;
            },
            ShellFlag::Verbose => {
                self.verbose_flag = v;
                return;
            },
            ShellFlag::Vi => {
                self.vi_flag = v;
                return;
            },
            ShellFlag::Xtrace => {
                self.xtrace_flag = v;
                return;
            },
            ShellFlag::Strlossy => {
                self.strlossy_flag = v;
                return;
            },
        }
    }

    /// The option parser proper; it also hands back the outcomes of the
    /// handler's calls.
    fn run_parse<F>(&mut self, args: &[String], mut f: F) -> (res: (OptionResult, Ghost<Seq<HandlerCall>>))
        where
            F: FnMut(OptionType, char, &mut Self) -> bool,
        requires
            forall|t: OptionType, c: char, s: &mut Settings| call_requires(f, (t, c, s)),
        ensures
            parse_options_outcome(arg_views(args@), *old(self), res.1@) == (res.0, *final(self)),
            parse_options_calls(arg_views(args@), *old(self), res.1@),
            forall|i: int| 0 <= i < res.1@.len() ==> (exists|r: &mut Settings|
                *r == #[trigger] res.1@[i].before && *final(r) == res.1@[i].after
                    && call_ensures(f, (res.1@[i].option_type, res.1@[i].letter, r), res.1@[i].taken)),
    {
        let ghost argv = arg_views(args@);
        let ghost s0 = *self;
        if args.len() == 0 {
            return (Ok((0, false)), Ghost(Seq::empty()));
        }
        let mut k: usize = 1;
        let mut j: usize = 0;
        let mut t = OptionType::Minus;
        let mut cur: Vec<char> = Vec::new();
        let ghost mut orc: Seq<HandlerCall> = Seq::empty();
        let ghost f0 = f;
        assert forall|g: Seq<HandlerCall>|
            g.len() >= orc.len() && g.take(orc.len() as int) == orc
            implies #[trigger] parse_options_outcome(argv, s0, g)
                == run_options(argv, k as int, j as int, t, *self, g, orc.len() as int) by {}
        assert forall|g: Seq<HandlerCall>|
            g.len() >= orc.len() && g.take(orc.len() as int) == orc
            implies #[trigger] parse_options_calls(argv, s0, g)
                == calls_recorded(argv, k as int, j as int, t, *self, g, orc.len() as int) by {}
        #[verifier::loop_isolation(false)]
        loop
            invariant
                argv == arg_views(args@),
                argv.len() == args.len(),
                s0 == *old(self),
                1 <= k <= args.len(),
                j >= 1 ==> (k < args.len() && cur@ == argv[k as int] && j <= cur@.len()),
                forall|g: Seq<HandlerCall>|
                    g.len() >= orc.len() && g.take(orc.len() as int) == orc
                    ==> #[trigger] parse_options_outcome(argv, s0, g)
                        == run_options(argv, k as int, j as int, t, *self, g, orc.len() as int),
                forall|g: Seq<HandlerCall>|
                    g.len() >= orc.len() && g.take(orc.len() as int) == orc
                    ==> #[trigger] parse_options_calls(argv, s0, g)
                        == calls_recorded(argv, k as int, j as int, t, *self, g, orc.len() as int),
                forall|tt: OptionType, c: char, s: &mut Settings| call_requires(f, (tt, c, s)),
                f == f0,
                forall|i: int| 0 <= i < orc.len() ==> (exists|r: &mut Settings|
                    *r == #[trigger] orc[i].before && *final(r) == orc[i].after
                        && call_ensures(f, (orc[i].option_type, orc[i].letter, r), orc[i].taken)),
            decreases
                args.len() - k,
                if k < args.len() { argv[k as int].len() + 1 - j } else { 0 },
        {
            assert(orc.take(orc.len() as int) =~= orc);
            assert(parse_options_outcome(argv, s0, orc)
                == run_options(argv, k as int, j as int, t, *self, orc, orc.len() as int));
            assert(parse_options_calls(argv, s0, orc)
                == calls_recorded(argv, k as int, j as int, t, *self, orc, orc.len() as int));
            if j == 0 {
                if k >= args.len() {
                    return (Ok((k, false)), Ghost(orc));
                }
                let arg = string_chars(&args[k]);
                assert(arg@ == argv[k as int]);
                if arg.len() == 2 && arg[0] == '-' && arg[1] == '-' {
                    return (Ok((k + 1, true)), Ghost(orc));
                }
                if arg.len() < 2 || (arg[0] != '-' && arg[0] != '+') {
                    return (Ok((k, false)), Ghost(orc));
                }
                t = if arg[0] == '-' { OptionType::Minus } else { OptionType::Plus };
                cur = arg;
                j = 1;
            } else if j >= cur.len() {
                k = k + 1;
                j = 0;
            } else {
                let c: char = char_at(&cur, j);
                match letter_flag(c) {
                    Some(fl) => {
                        self.set_flag(fl, t == OptionType::Minus);
                        j = j + 1;
                    },
                    None => {
                        if c == 'h' {
                            j = j + 1;
                        } else if c == 'o' && j + 1 < cur.len() {
                            match flag_by_name_from(&cur, j + 1) {
                                Some(fl) => {
                                    self.set_flag(fl, t == OptionType::Minus);
                                    k = k + 1;
                                    j = 0;
                                },
                                None => {
                                    return (Err(OptionError::InvalidArgument), Ghost(orc));
                                },
                            }
                        } else if c == 'o' && k + 1 < args.len() {
                            let next = string_chars(&args[k + 1]);
                            assert(next@.subrange(0, next@.len() as int) =~= argv[k + 1]);
                            match flag_by_name_from(&next, 0) {
                                Some(fl) => {
                                    self.set_flag(fl, t == OptionType::Minus);
                                    k = k + 2;
                                    j = 0;
                                },
                                None => {
                                    return (Err(OptionError::InvalidArgument), Ghost(orc));
                                },
                            }
                        } else {
                            // An option the settings do not know, or `o` with
                            // no name after it: the handler decides.
                            let ghost prior = orc;
                            let ghost sb = *self;
                            let taken = f(t, c, self);
                            let ghost e = HandlerCall { option_type: t, letter: c, before: sb, taken, after: *self };
                            proof {
                                assert(exists|r: &mut Settings|
                                    *r == sb && *final(r) == *self && call_ensures(f, (t, c, r), taken));
                                lemma_record_call(f, prior, e);
                                orc = prior.push(e);
                                assert forall|g: Seq<HandlerCall>|
                                    g.len() >= orc.len() && g.take(orc.len() as int) == orc
                                    implies #[trigger] parse_options_outcome(argv, s0, g)
                                        == run_options(argv, k as int, j as int, t, sb, g, prior.len() as int)
                                        && handler_outcome(g, prior.len() as int, t, c, sb) == (taken, *self) by {
                                    lemma_record_extends(prior, e, g);
                                }
                                assert forall|g: Seq<HandlerCall>|
                                    g.len() >= orc.len() && g.take(orc.len() as int) == orc
                                    implies #[trigger] parse_options_calls(argv, s0, g)
                                        == calls_recorded(argv, k as int, j as int, t, sb, g, prior.len() as int)
                                        && g[prior.len() as int] == e by {
                                    lemma_record_extends(prior, e, g);
                                }
                                assert(orc.take(orc.len() as int) =~= orc);
                            }
                            if !taken {
                                assert(parse_options_outcome(argv, s0, orc)
                                    == run_options(argv, k as int, j as int, t, sb, orc, prior.len() as int));
                                assert(parse_options_calls(argv, s0, orc)
                                    == calls_recorded(argv, k as int, j as int, t, sb, orc, prior.len() as int));
                                if c == 'o' {
                                    return (Err(OptionError::OptionRequiresArgument(t, c)), Ghost(orc));
                                }
                                return (Err(OptionError::UnknownOption(t, c)), Ghost(orc));
                            }
                            if c == 'o' {
                                k = k + 1;
                                j = 0;
                            } else {
                                j = j + 1;
                            }
                        }
                    },
                }
            }
        }
    }
}

/// When every option letter is one the settings handle themselves, the
/// handler is never called, so what it would do does not matter.
proof fn lemma_run_handler_free(
    args: Seq<Seq<char>>,
    k: int,
    j: int,
    t: OptionType,
    s: Settings,
    o1: Seq<HandlerCall>,
    n1: int,
    o2: Seq<HandlerCall>,
    n2: int,
)
    requires
        handler_free(args),
        1 <= k,
        0 <= j,
        j >= 1 ==> k < args.len() && is_option_group(args[k]),
    ensures
        run_options(args, k, j, t, s, o1, n1) == run_options(args, k, j, t, s, o2, n2),
    decreases args.len() - k, if 0 <= k < args.len() { args[k].len() + 1 - j } else { 0 },
{
    if k >= args.len() {
    } else if j == 0 {
        let arg = args[k];
        if !is_double_minus(arg) && is_option_group(arg) {
            lemma_run_handler_free(args, k, 1, option_type_of(arg[0]), s, o1, n1, o2, n2);
        }
    } else if j >= args[k].len() {
        lemma_run_handler_free(args, k + 1, 0, t, s, o1, n1, o2, n2);
    } else {
        let arg = args[k];
        let c = arg[j];
        assert(handled_by_settings(args, k, j));
        if let Some(f) = flag_of_letter(c) {
            lemma_run_handler_free(args, k, j + 1, t, s.with_flag(f, option_value(t)), o1, n1, o2, n2);
        } else if c == 'h' {
            lemma_run_handler_free(args, k, j + 1, t, s, o1, n1, o2, n2);
        } else if j + 1 < arg.len() {
            if let Some(f) = flag_of_name(arg.subrange(j + 1, arg.len() as int)) {
                lemma_run_handler_free(args, k + 1, 0, t, s.with_flag(f, option_value(t)), o1, n1, o2, n2);
            }
        } else {
            if let Some(f) = flag_of_name(args[k + 1]) {
                lemma_run_handler_free(args, k + 2, 0, t, s.with_flag(f, option_value(t)), o1, n1, o2, n2);
            }
        }
    }
}

impl Settings {
    /// Parses the options at the front of `args`, whose first element is the
    /// name of the command and is skipped, and sets the flags they name.
    ///
    /// Each argument that starts with `-` (set) or `+` (unset) and has more
    /// characters is a group of option letters: `a e m C f n b u v x` name
    /// flags, `h` is accepted and ignored, and `o` takes the name of a flag,
    /// either from the rest of the argument or from the next argument. The
    /// options end at the first other argument, at `-` or `+`, or after `--`.
    /// Every other letter, and an `o` with nothing after it, goes to `f`,
    /// which may change the settings and answers whether it took the option.
    ///
    /// On success the result is the index of the first argument after the
    /// options, and whether the options ended with `--`. What `f` does is not
    /// known in advance: the result is that of the specification for a record
    /// of the calls of `f` that holds exactly the calls the specification
    /// makes, in order, each with the option type, letter and settings it is
    /// given there, and with an answer and settings that `f` can give back
    /// for them. Scanning stops at the first call that `f` refuses. When no
    /// option needs `f`, the record is empty.
    pub fn parse_options<F>(&mut self, args: &[String], f: F) -> (res: OptionResult)
        where
            F: FnMut(OptionType, char, &mut Self) -> bool,
        requires
            forall|t: OptionType, c: char, s: &mut Settings| call_requires(f, (t, c, s)),
        ensures
            (exists|o: Seq<HandlerCall>|
                #[trigger] parse_options_outcome(arg_views(args@), *old(self), o) == (res, *final(self))
                && parse_options_calls(arg_views(args@), *old(self), o)
                && forall|i: int| 0 <= i < o.len() ==> (exists|r: &mut Settings|
                    *r == #[trigger] o[i].before && *final(r) == o[i].after
                        && call_ensures(f, (o[i].option_type, o[i].letter, r), o[i].taken))),
            handler_free(arg_views(args@)) ==> parse_options_outcome(
                arg_views(args@),
                *old(self),
                Seq::empty(),
            ) == (res, *final(self)),
    {
        let ghost argv = arg_views(args@);
        let ghost s0 = *self;
        let (res, Ghost(o)) = self.run_parse(args, f);
        proof {
            if handler_free(argv) && argv.len() > 0 {
                lemma_run_handler_free(argv, 1, 0, OptionType::Minus, s0, o, 0, Seq::empty(), 0);
            }
        }
        res
    }
}

/// Appends `c` to `s` when `b` holds.
fn push_letter_if(s: &mut String, b: bool, c: char)
    ensures
        final(s)@ == old(s)@ + letter_if(b, c),
{
    if b {
        push_char(s, c);
    }
    assert(s@ =~= old(s)@ + letter_if(b, c));
}

/// `c` when `b` holds, else nothing.
pub open spec fn letter_if(b: bool, c: char) -> Seq<char> {
    if b {
        seq![c]
    } else {
        Seq::empty()
    }
}

/// The sign that introduces options of type `t`.
pub open spec fn option_sign(t: OptionType) -> char {
    match t {
        OptionType::Minus => '-',
        OptionType::Plus => '+',
    }
}

impl OptionType {
    /// The sign of the option type: `-` or `+`.
    pub fn to_string(&self) -> (res: String)
        ensures
            res@ == seq![option_sign(*self)],
    {
        let mut res = String::new();
        match self {
            OptionType::Minus => push_char(&mut res, '-'),
            OptionType::Plus => push_char(&mut res, '+'),
        }
        res
    }
}

impl OptionError {
    /// The message that reports the error.
    pub fn to_string(&self) -> (res: String)
        ensures
            res@ == match *self {
                OptionError::UnknownOption(t, c) => "unknown option -- '"@ + seq![option_sign(t), c, '\'' ],
                OptionError::OptionRequiresArgument(t, c) =>
                    "option requires an argument -- '"@ + seq![option_sign(t), c, '\''],
                OptionError::InvalidArgument => "Invalid argument"@,
            },
    {
        match self {
            OptionError::UnknownOption(t, c) => {
                let mut res = String::from_str("unknown option -- '");
                let sign = t.to_string();
                res.append(sign.as_str());
                push_char(&mut res, *c);
                push_char(&mut res, '\'');
                assert(res@ =~= "unknown option -- '"@ + seq![option_sign(*t), *c, '\'']);
                res
            },
            OptionError::OptionRequiresArgument(t, c) => {
                let mut res = String::from_str("option requires an argument -- '");
                let sign = t.to_string();
                res.append(sign.as_str());
                push_char(&mut res, *c);
                push_char(&mut res, '\'');
                assert(res@ =~= "option requires an argument -- '"@ + seq![option_sign(*t), *c, '\'']);
                res
            },
            OptionError::InvalidArgument => String::from_str("Invalid argument"),
        }
    }
}

impl Settings {
    /// The letters of the set flags that have letters, in the order
    /// `a e m C f n b u v x`: the value of `$-`.
    pub open spec fn spec_option_string(self) -> Seq<char> {
        letter_if(self.flag(ShellFlag::Allexport), 'a') + letter_if(self.flag(ShellFlag::Errexit), 'e')
            + letter_if(self.flag(ShellFlag::Monitor), 'm') + letter_if(self.flag(ShellFlag::Noclobber), 'C')
            + letter_if(self.flag(ShellFlag::Noglob), 'f') + letter_if(self.flag(ShellFlag::Noexec), 'n')
            + letter_if(self.flag(ShellFlag::Notify), 'b') + letter_if(self.flag(ShellFlag::Nounset), 'u')
            + letter_if(self.flag(ShellFlag::Verbose), 'v') + letter_if(self.flag(ShellFlag::Xtrace), 'x')
    }

    /// `after` is these settings after `push_args(args)`: `args` in use, the
    /// parameters that were in use saved on top, the flags and `arg0` kept.
    pub open spec fn pushed(self, args: Arguments, after: Settings) -> bool {
        &&& after.current() == args
        &&& after.saved() == self.saved().push(self.current())
        &&& after.same_public(self)
    }

    /// `after` is these settings after `pop_args()`: the most recently saved
    /// parameters back in use, or nothing changed when none were saved.
    pub open spec fn popped(self, after: Settings) -> bool {
        &&& if self.saved().len() > 0 {
            &&& after.current() == self.saved().last()
            &&& after.saved() == self.saved().drop_last()
        } else {
            &&& after.current() == self.current()
            &&& after.saved() == self.saved()
        }
        &&& after.same_public(self)
    }

    /// Puts `args` in use as the positional parameters and saves those that
    /// were in use.
    pub fn push_args(&mut self, args: Arguments)
        ensures
            old(self).pushed(args, *final(self)),
    {
        let mut prev = args;
        std::mem::swap(&mut self.current_args, &mut prev);
        self.arg_vec_stack.push(prev);
    }

    /// Puts the most recently saved positional parameters back in use; does
    /// nothing when none are saved.
    pub fn pop_args(&mut self)
        ensures
            old(self).popped(*final(self)),
    {
        match self.arg_vec_stack.pop() {
            Some(args) => self.current_args = args,
            None => (),
        }
    }

    /// The positional parameters in use.
    pub fn current_args(&self) -> (res: &Arguments)
        ensures
            *res == self.current(),
    {
        &self.current_args
    }

    /// The positional parameters in use, to change in place.
    pub fn current_args_mut(&mut self) -> (res: &mut Arguments)
        ensures
            *res == old(self).current(),
            final(self).current() == *final(res),
            final(self).saved() == old(self).saved(),
            final(self).same_public(*old(self)),
    {
        &mut self.current_args
    }

    /// The letters of the set flags, in the order `a e m C f n b u v x`.
    pub fn option_string(&self) -> (res: String)
        ensures
            res@ == self.spec_option_string(),
    {
        let mut s = String::new();
        push_letter_if(&mut s, self.allexport_flag, 'a');
        push_letter_if(&mut s, self.errexit_flag, 'e');
        push_letter_if(&mut s, self.monitor_flag, 'm');
        push_letter_if(&mut s, self.noclobber_flag, 'C');
        push_letter_if(&mut s, self.noglob_flag, 'f');
        push_letter_if(&mut s, self.noexec_flag, 'n');
        push_letter_if(&mut s, self.notify_flag, 'b');
        push_letter_if(&mut s, self.nounset_flag, 'u');
        push_letter_if(&mut s, self.verbose_flag, 'v');
        push_letter_if(&mut s, self.xtrace_flag, 'x');
        assert(s@ =~= self.spec_option_string());
        s
    }
}

/// Changing one flag changes that flag alone: the other flags, `arg0` and
/// the positional parameters stay.
#[verifier::spinoff_prover]
pub proof fn lemma_with_flag(s: Settings, f: ShellFlag, v: bool)
    ensures
        forall|g: ShellFlag| #[trigger] s.with_flag(f, v).flag(g) == if g == f { v } else { s.flag(g) },
        s.with_flag(f, v).arg0_view() == s.arg0_view(),
        s.with_flag(f, v).current() == s.current(),
        s.with_flag(f, v).saved() == s.saved(),
        s.with_flag(f, v).same_rest(s),
{
    reveal(Settings::with_flag);
}

/// `pop_args` undoes `push_args`: the positional parameters in use and the
/// saved ones are those from before the push, and the flags and `arg0` are kept.
pub proof fn lemma_pop_args_undoes_push_args(s0: Settings, args: Arguments, s1: Settings, s2: Settings)
    requires
        s0.pushed(args, s1),
        s1.popped(s2),
    ensures
        s2.current() == s0.current(),
        s2.saved() == s0.saved(),
        s2.same_public(s0),
{
    assert(s1.saved().drop_last() =~= s0.saved());
}

/// The arguments `name` and `-c` or `+c`, for an option letter `c`.
pub open spec fn letter_option_args(name: Seq<char>, t: OptionType, c: char) -> Seq<Seq<char>> {
    seq![name, seq![option_sign(t), c]]
}

/// The arguments `name`, `-o` or `+o`, and the name of a flag.
pub open spec fn named_option_args(name: Seq<char>, t: OptionType, f: ShellFlag) -> Seq<Seq<char>> {
    seq![name, seq![option_sign(t), 'o'], flag_name(f)]
}

/// The arguments `name` and `-o` or `+o` joined with the name of a flag.
pub open spec fn joined_option_args(name: Seq<char>, t: OptionType, f: ShellFlag) -> Seq<Seq<char>> {
    seq![name, seq![option_sign(t), 'o'] + flag_name(f)]
}

/// Each name that `flag_name` gives is known to `flag_of_name` as that flag.
pub proof fn lemma_flag_name_round_trip(f: ShellFlag)
    ensures
        flag_of_name(flag_name(f)) == Some(f),
        flag_name(f).len() >= 2,
{
    reveal_strlit("allexport");
    reveal_strlit("errexit");
    reveal_strlit("ignoreeof");
    reveal_strlit("monitor");
    reveal_strlit("noclobber");
    reveal_strlit("noglob");
    reveal_strlit("noexec");
    reveal_strlit("nolog");
    reveal_strlit("notify");
    reveal_strlit("nounset");
    reveal_strlit("verbose");
    reveal_strlit("vi");
    reveal_strlit("xtrace");
    reveal_strlit("strlossy");
    assert(flag_name(f).len() >= 2);
    match f {
        ShellFlag::Allexport => {

        },
        ShellFlag::Errexit => {
            assert("errexit"@.len() != "allexport"@.len());
        },
        ShellFlag::Ignoreeof => {
            assert("ignoreeof"@[0] != "allexport"@[0]);
            assert("ignoreeof"@.len() != "errexit"@.len());
        },
        ShellFlag::Monitor => {
            assert("monitor"@.len() != "allexport"@.len());
            assert("monitor"@[0] != "errexit"@[0]);
            assert("monitor"@.len() != "ignoreeof"@.len());
        },
        ShellFlag::Noclobber => {
            assert("noclobber"@[0] != "allexport"@[0]);
            assert("noclobber"@.len() != "errexit"@.len());
            assert("noclobber"@[0] != "ignoreeof"@[0]);
            assert("noclobber"@.len() != "monitor"@.len());
        },
        ShellFlag::Noglob => {
            assert("noglob"@.len() != "allexport"@.len());
            assert("noglob"@.len() != "errexit"@.len());
            assert("noglob"@.len() != "ignoreeof"@.len());
            assert("noglob"@.len() != "monitor"@.len());
            assert("noglob"@.len() != "noclobber"@.len());
        },
        ShellFlag::Noexec => {
            assert("noexec"@.len() != "allexport"@.len());
            assert("noexec"@.len() != "errexit"@.len());
            assert("noexec"@.len() != "ignoreeof"@.len());
            assert("noexec"@.len() != "monitor"@.len());
            assert("noexec"@.len() != "noclobber"@.len());
            assert("noexec"@[2] != "noglob"@[2]);
        },
        ShellFlag::Nolog => {
            assert("nolog"@.len() != "allexport"@.len());
            assert("nolog"@.len() != "errexit"@.len());
            assert("nolog"@.len() != "ignoreeof"@.len());
            assert("nolog"@.len() != "monitor"@.len());
            assert("nolog"@.len() != "noclobber"@.len());
            assert("nolog"@.len() != "noglob"@.len());
            assert("nolog"@.len() != "noexec"@.len());
        },
        ShellFlag::Notify => {
            assert("notify"@.len() != "allexport"@.len());
            assert("notify"@.len() != "errexit"@.len());
            assert("notify"@.len() != "ignoreeof"@.len());
            assert("notify"@.len() != "monitor"@.len());
            assert("notify"@.len() != "noclobber"@.len());
            assert("notify"@[2] != "noglob"@[2]);
            assert("notify"@[2] != "noexec"@[2]);
            assert("notify"@.len() != "nolog"@.len());
        },
        ShellFlag::Nounset => {
            assert("nounset"@.len() != "allexport"@.len());
            assert("nounset"@[0] != "errexit"@[0]);
            assert("nounset"@.len() != "ignoreeof"@.len());
            assert("nounset"@[0] != "monitor"@[0]);
            assert("nounset"@.len() != "noclobber"@.len());
            assert("nounset"@.len() != "noglob"@.len());
            assert("nounset"@.len() != "noexec"@.len());
            assert("nounset"@.len() != "nolog"@.len());
            assert("nounset"@.len() != "notify"@.len());
        },
        ShellFlag::Verbose => {
            assert("verbose"@.len() != "allexport"@.len());
            assert("verbose"@[0] != "errexit"@[0]);
            assert("verbose"@.len() != "ignoreeof"@.len());
            assert("verbose"@[0] != "monitor"@[0]);
            assert("verbose"@.len() != "noclobber"@.len());
            assert("verbose"@.len() != "noglob"@.len());
            assert("verbose"@.len() != "noexec"@.len());
            assert("verbose"@.len() != "nolog"@.len());
            assert("verbose"@.len() != "notify"@.len());
            assert("verbose"@[0] != "nounset"@[0]);
        },
        ShellFlag::Vi => {
            assert("vi"@.len() != "allexport"@.len());
            assert("vi"@.len() != "errexit"@.len());
            assert("vi"@.len() != "ignoreeof"@.len());
            assert("vi"@.len() != "monitor"@.len());
            assert("vi"@.len() != "noclobber"@.len());
            assert("vi"@.len() != "noglob"@.len());
            assert("vi"@.len() != "noexec"@.len());
            assert("vi"@.len() != "nolog"@.len());
            assert("vi"@.len() != "notify"@.len());
            assert("vi"@.len() != "nounset"@.len());
            assert("vi"@.len() != "verbose"@.len());
        },
        ShellFlag::Xtrace => {
            assert("xtrace"@.len() != "allexport"@.len());
            assert("xtrace"@.len() != "errexit"@.len());
            assert("xtrace"@.len() != "ignoreeof"@.len());
            assert("xtrace"@.len() != "monitor"@.len());
            assert("xtrace"@.len() != "noclobber"@.len());
            assert("xtrace"@[0] != "noglob"@[0]);
            assert("xtrace"@[0] != "noexec"@[0]);
            assert("xtrace"@.len() != "nolog"@.len());
            assert("xtrace"@[0] != "notify"@[0]);
            assert("xtrace"@.len() != "nounset"@.len());
            assert("xtrace"@.len() != "verbose"@.len());
            assert("xtrace"@.len() != "vi"@.len());
        },
        ShellFlag::Strlossy => {
            assert("strlossy"@.len() != "allexport"@.len());
            assert("strlossy"@.len() != "errexit"@.len());
            assert("strlossy"@.len() != "ignoreeof"@.len());
            assert("strlossy"@.len() != "monitor"@.len());
            assert("strlossy"@.len() != "noclobber"@.len());
            assert("strlossy"@.len() != "noglob"@.len());
            assert("strlossy"@.len() != "noexec"@.len());
            assert("strlossy"@.len() != "nolog"@.len());
            assert("strlossy"@.len() != "notify"@.len());
            assert("strlossy"@.len() != "nounset"@.len());
            assert("strlossy"@.len() != "verbose"@.len());
            assert("strlossy"@.len() != "vi"@.len());
            assert("strlossy"@.len() != "xtrace"@.len());
        },
    }
}

/// An option letter sets its flag when given with `-` and unsets it when given
/// with `+`; the long name after `-o`/`+o`, apart or joined, does the same, and
/// nothing else changes. No such option calls the handler.
pub proof fn lemma_option_forms_agree(
    name: Seq<char>,
    t: OptionType,
    c: char,
    f: ShellFlag,
    s: Settings,
    o: Seq<HandlerCall>,
)
    requires
        flag_of_letter(c) == Some(f),
    ensures
        parse_options_outcome(letter_option_args(name, t, c), s, o)
            == (Ok::<(usize, bool), OptionError>((2, false)), s.with_flag(f, option_value(t))),
        parse_options_outcome(named_option_args(name, t, f), s, o)
            == (Ok::<(usize, bool), OptionError>((3, false)), s.with_flag(f, option_value(t))),
        parse_options_outcome(joined_option_args(name, t, f), s, o)
            == (Ok::<(usize, bool), OptionError>((2, false)), s.with_flag(f, option_value(t))),
{
    lemma_flag_name_round_trip(f);
    let a1 = letter_option_args(name, t, c);
    let a2 = named_option_args(name, t, f);
    let a3 = joined_option_args(name, t, f);
    let v = option_value(t);
    assert(option_type_of(a1[1][0]) == t);
    assert(run_options(a1, 1, 2, t, s.with_flag(f, v), o, 0) == run_options(a1, 2, 0, t, s.with_flag(f, v), o, 0));
    assert(run_options(a1, 1, 1, t, s, o, 0) == run_options(a1, 1, 2, t, s.with_flag(f, v), o, 0));
    assert(option_type_of(a2[1][0]) == t);
    assert(run_options(a2, 1, 1, t, s, o, 0) == run_options(a2, 3, 0, t, s.with_flag(f, v), o, 0));
    let j = seq![option_sign(t), 'o'] + flag_name(f);
    assert(j.subrange(2, j.len() as int) =~= flag_name(f));
    assert(option_type_of(a3[1][0]) == t);
    assert(run_options(a3, 1, 1, t, s, o, 0) == run_options(a3, 2, 0, t, s.with_flag(f, v), o, 0));
}

/// Where the option parser stops, from any state: at an index from `k` on,
/// just after `--` when it says so, and otherwise before the end or before the
/// first argument that holds no options.
proof fn lemma_run_stop(
    args: Seq<Seq<char>>,
    k: int,
    j: int,
    t: OptionType,
    s: Settings,
    o: Seq<HandlerCall>,
    n: int,
)
    requires
        args.len() <= usize::MAX,
        1 <= k <= args.len(),
        0 <= j,
        j >= 1 ==> k < args.len() && is_option_group(args[k]),
        j == 0 && k >= 2 ==> !is_double_minus(args[k - 1]),
    ensures
        stop_is_valid(args, k, run_options(args, k, j, t, s, o, n).0),
    decreases args.len() - k, if 0 <= k < args.len() { args[k].len() + 1 - j } else { 0 },
{
    if k >= args.len() {
    } else if j == 0 {
        let arg = args[k];
        if !is_double_minus(arg) && is_option_group(arg) {
            lemma_run_stop(args, k, 1, option_type_of(arg[0]), s, o, n);
        }
    } else if j >= args[k].len() {
        lemma_run_stop(args, k + 1, 0, t, s, o, n);
    } else {
        let arg = args[k];
        let c = arg[j];
        if let Some(f) = flag_of_letter(c) {
            lemma_run_stop(args, k, j + 1, t, s.with_flag(f, option_value(t)), o, n);
        } else if c == 'h' {
            lemma_run_stop(args, k, j + 1, t, s, o, n);
        } else if c == 'o' {
            if j + 1 < arg.len() {
                if let Some(f) = flag_of_name(arg.subrange(j + 1, arg.len() as int)) {
                    lemma_run_stop(args, k + 1, 0, t, s.with_flag(f, option_value(t)), o, n);
                }
            } else if k + 1 < args.len() {
                if let Some(f) = flag_of_name(args[k + 1]) {
                    lemma_flag_names_not_double_minus(args[k + 1]);
                    lemma_run_stop(args, k + 2, 0, t, s.with_flag(f, option_value(t)), o, n);
                }
            } else {
                let (taken, s2) = handler_outcome(o, n, t, c, s);
                if taken {
                    lemma_run_stop(args, k + 1, 0, t, s2, o, n + 1);
                }
            }
        } else {
            let (taken, s2) = handler_outcome(o, n, t, c, s);
            if taken {
                lemma_run_stop(args, k, j + 1, t, s2, o, n + 1);
            }
        }
    }
}

/// No flag is named `--`.
proof fn lemma_flag_names_not_double_minus(name: Seq<char>)
    ensures
        flag_of_name(name) is Some ==> !is_double_minus(name),
{
    reveal_strlit("allexport");
    reveal_strlit("errexit");
    reveal_strlit("ignoreeof");
    reveal_strlit("monitor");
    reveal_strlit("noclobber");
    reveal_strlit("noglob");
    reveal_strlit("noexec");
    reveal_strlit("nolog");
    reveal_strlit("notify");
    reveal_strlit("nounset");
    reveal_strlit("verbose");
    reveal_strlit("vi");
    reveal_strlit("xtrace");
    reveal_strlit("strlossy");
}

/// A stop at index `i`, reached from argument `k`, is one where the options
/// end: at or after `k` and within the arguments; right after `--` when `--`
/// ended them; otherwise at the end or at an argument that holds no options,
/// and, past the first argument, not right after a `--`.
pub open spec fn stop_is_valid(args: Seq<Seq<char>>, k: int, res: OptionResult) -> bool {
    match res {
        Ok((i, double_minus)) => {
            &&& k <= i <= args.len()
            &&& double_minus ==> i >= 2 && is_double_minus(args[i - 1])
            &&& !double_minus && i >= 2 ==> !is_double_minus(args[i - 1])
            &&& !double_minus && i < args.len() ==> !is_option_group(args[i as int]) && !is_double_minus(
                args[i as int],
            )
        },
        Err(_) => true,
    }
}

/// On success `parse_options` stops where the options end: the arguments from
/// the returned index on are the operands. With `--` the index is just after
/// it; otherwise it is the end or the first argument that holds no options
/// (`-`, `+`, or one that starts with neither). The first argument is never
/// taken for an option. The options ended with `--` exactly when the argument
/// before the returned index is `--` and is not the first.
pub proof fn lemma_parse_options_stops_at_operands(args: Seq<Seq<char>>, s: Settings, o: Seq<HandlerCall>)
    requires
        args.len() <= usize::MAX,
    ensures
        args.len() == 0 ==> parse_options_outcome(args, s, o).0 == Ok::<(usize, bool), OptionError>((0, false)),
        args.len() > 0 ==> stop_is_valid(args, 1, parse_options_outcome(args, s, o).0),
{
    if args.len() > 0 {
        lemma_run_stop(args, 1, 0, OptionType::Minus, s, o, 0);
    }
}

/// Without the handler the option parser changes flags only, from any state.
proof fn lemma_run_keeps_parameters(
    args: Seq<Seq<char>>,
    k: int,
    j: int,
    t: OptionType,
    s: Settings,
    o: Seq<HandlerCall>,
    n: int,
)
    requires
        handler_free(args),
        1 <= k,
        0 <= j,
        j >= 1 ==> k < args.len() && is_option_group(args[k]),
    ensures
        run_options(args, k, j, t, s, o, n).1.arg0_view() == s.arg0_view(),
        run_options(args, k, j, t, s, o, n).1.current() == s.current(),
        run_options(args, k, j, t, s, o, n).1.saved() == s.saved(),
    decreases args.len() - k, if 0 <= k < args.len() { args[k].len() + 1 - j } else { 0 },
{
    if k >= args.len() {
    } else if j == 0 {
        let arg = args[k];
        if !is_double_minus(arg) && is_option_group(arg) {
            lemma_run_keeps_parameters(args, k, 1, option_type_of(arg[0]), s, o, n);
        }
    } else if j >= args[k].len() {
        lemma_run_keeps_parameters(args, k + 1, 0, t, s, o, n);
    } else {
        let arg = args[k];
        let c = arg[j];
        assert(handled_by_settings(args, k, j));
        if let Some(f) = flag_of_letter(c) {
            lemma_with_flag(s, f, option_value(t));
            lemma_run_keeps_parameters(args, k, j + 1, t, s.with_flag(f, option_value(t)), o, n);
        } else if c == 'h' {
            lemma_run_keeps_parameters(args, k, j + 1, t, s, o, n);
        } else if j + 1 < arg.len() {
            if let Some(f) = flag_of_name(arg.subrange(j + 1, arg.len() as int)) {
                lemma_with_flag(s, f, option_value(t));
                lemma_run_keeps_parameters(args, k + 1, 0, t, s.with_flag(f, option_value(t)), o, n);
            }
        } else {
            if let Some(f) = flag_of_name(args[k + 1]) {
                lemma_with_flag(s, f, option_value(t));
                lemma_run_keeps_parameters(args, k + 2, 0, t, s.with_flag(f, option_value(t)), o, n);
            }
        }
    }
}

/// When no option needs the handler, `parse_options` changes only flags:
/// `arg0` and the positional parameters, in use and saved, stay as they were,
/// whether it succeeds or fails.
pub proof fn lemma_parse_options_changes_only_flags(args: Seq<Seq<char>>, s: Settings, o: Seq<HandlerCall>)
    requires
        handler_free(args),
    ensures
        parse_options_outcome(args, s, o).1.arg0_view() == s.arg0_view(),
        parse_options_outcome(args, s, o).1.current() == s.current(),
        parse_options_outcome(args, s, o).1.saved() == s.saved(),
{
    if args.len() > 0 {
        lemma_run_keeps_parameters(args, 1, 0, OptionType::Minus, s, o, 0);
    }
}

/// The option letter of a flag, if it has one.
pub open spec fn letter_of(f: ShellFlag) -> Option<char> {
    match f {
        ShellFlag::Allexport => Some('a'),
        ShellFlag::Errexit => Some('e'),
        ShellFlag::Monitor => Some('m'),
        ShellFlag::Noclobber => Some('C'),
        ShellFlag::Noglob => Some('f'),
        ShellFlag::Noexec => Some('n'),
        ShellFlag::Notify => Some('b'),
        ShellFlag::Nounset => Some('u'),
        ShellFlag::Verbose => Some('v'),
        ShellFlag::Xtrace => Some('x'),
        _ => None,
    }
}

/// Every character of `w` is an option letter of a flag.
pub open spec fn all_letters(w: Seq<char>) -> bool {
    forall|i: int| 0 <= i < w.len() ==> #[trigger] flag_of_letter(w[i]) is Some
}

/// Some character of `w` is the option letter of `g`.
pub open spec fn names_flag(w: Seq<char>, g: ShellFlag) -> bool
    decreases w.len(),
{
    w.len() > 0 && (flag_of_letter(w[0]) == Some(g) || names_flag(w.drop_first(), g))
}

/// The settings after the option letters `w`, each giving its flag `v`.
pub open spec fn apply_letters(s: Settings, w: Seq<char>, v: bool) -> Settings
    decreases w.len(),
{
    if w.len() == 0 {
        s
    } else {
        match flag_of_letter(w[0]) {
            Some(f) => apply_letters(s.with_flag(f, v), w.drop_first(), v),
            None => s,
        }
    }
}

/// Reading a run of option letters applies them in order.
proof fn lemma_run_letters(
    args: Seq<Seq<char>>,
    k: int,
    j: int,
    t: OptionType,
    s: Settings,
    o: Seq<HandlerCall>,
    n: int,
)
    requires
        1 <= k < args.len(),
        1 <= j <= args[k].len(),
        all_letters(args[k].subrange(j, args[k].len() as int)),
    ensures
        run_options(args, k, j, t, s, o, n) == run_options(
            args,
            k + 1,
            0,
            t,
            apply_letters(s, args[k].subrange(j, args[k].len() as int), option_value(t)),
            o,
            n,
        ),
    decreases args[k].len() - j,
{
    let w = args[k].subrange(j, args[k].len() as int);
    if j < args[k].len() {
        assert(flag_of_letter(w[0]) is Some);
        let f = flag_of_letter(args[k][j]).unwrap();
        assert(w.drop_first() =~= args[k].subrange(j + 1, args[k].len() as int));
        assert forall|i: int| 0 <= i < w.drop_first().len() implies #[trigger] flag_of_letter(w.drop_first()[i]) is Some by {
            assert(w.drop_first()[i] == w[i + 1]);
        }
        lemma_run_letters(args, k, j + 1, t, s.with_flag(f, option_value(t)), o, n);
    } else {
        assert(w.len() == 0);
    }
}

/// After applying the option letters `w`, a flag has the value `v` when `w`
/// names it and its old value otherwise; `arg0` and the parameters stay.
proof fn lemma_apply_letters(s: Settings, w: Seq<char>, v: bool)
    requires
        all_letters(w),
    ensures
        forall|g: ShellFlag|
            #[trigger] apply_letters(s, w, v).flag(g) == if names_flag(w, g) { v } else { s.flag(g) },
        apply_letters(s, w, v).arg0_view() == s.arg0_view(),
        apply_letters(s, w, v).current() == s.current(),
        apply_letters(s, w, v).saved() == s.saved(),
    decreases w.len(),
{
    if w.len() > 0 {
        assert(flag_of_letter(w[0]) is Some);
        let f = flag_of_letter(w[0]).unwrap();
        assert forall|i: int| 0 <= i < w.drop_first().len() implies #[trigger] flag_of_letter(w.drop_first()[i]) is Some by {
            assert(w.drop_first()[i] == w[i + 1]);
        }
        lemma_with_flag(s, f, v);
        lemma_apply_letters(s.with_flag(f, v), w.drop_first(), v);
    }
}

/// A single optional letter names the flag of that letter.
proof fn lemma_names_flag_letter_if(b: bool, c: char, g: ShellFlag)
    ensures
        names_flag(letter_if(b, c), g) == (b && flag_of_letter(c) == Some(g)),
{
    if b {
        let w = letter_if(b, c);
        assert(w.drop_first().len() == 0);
        assert(!names_flag(w.drop_first(), g));
        assert(w[0] == c);
    }
}

/// A concatenation names a flag when either part does.
proof fn lemma_names_flag_concat(a: Seq<char>, b: Seq<char>, g: ShellFlag)
    ensures
        names_flag(a + b, g) == (names_flag(a, g) || names_flag(b, g)),
    decreases a.len(),
{
    if a.len() > 0 {
        assert((a + b).drop_first() =~= a.drop_first() + b);
        lemma_names_flag_concat(a.drop_first(), b, g);
    } else {
        assert(a + b =~= b);
    }
}

/// A concatenation of option letters holds option letters only.
proof fn lemma_all_letters_concat(a: Seq<char>, b: Seq<char>)
    requires
        all_letters(a),
        all_letters(b),
    ensures
        all_letters(a + b),
{
    assert forall|i: int| 0 <= i < (a + b).len() implies #[trigger] flag_of_letter((a + b)[i]) is Some by {
        if i < a.len() {
            assert((a + b)[i] == a[i]);
        } else {
            assert((a + b)[i] == b[i - a.len()]);
        }
    }
}

/// The option string of `s` holds option letters only.
proof fn lemma_option_string_all_letters(s: Settings)
    ensures
        all_letters(s.spec_option_string()),
{
    let p0 = letter_if(s.flag(ShellFlag::Allexport), 'a');
    let p1 = letter_if(s.flag(ShellFlag::Errexit), 'e');
    let p2 = letter_if(s.flag(ShellFlag::Monitor), 'm');
    let p3 = letter_if(s.flag(ShellFlag::Noclobber), 'C');
    let p4 = letter_if(s.flag(ShellFlag::Noglob), 'f');
    let p5 = letter_if(s.flag(ShellFlag::Noexec), 'n');
    let p6 = letter_if(s.flag(ShellFlag::Notify), 'b');
    let p7 = letter_if(s.flag(ShellFlag::Nounset), 'u');
    let p8 = letter_if(s.flag(ShellFlag::Verbose), 'v');
    let p9 = letter_if(s.flag(ShellFlag::Xtrace), 'x');
    assert(all_letters(p0));
    assert(all_letters(p1));
    assert(all_letters(p2));
    assert(all_letters(p3));
    assert(all_letters(p4));
    assert(all_letters(p5));
    assert(all_letters(p6));
    assert(all_letters(p7));
    assert(all_letters(p8));
    assert(all_letters(p9));
    let q1 = p0 + p1;
    lemma_all_letters_concat(p0, p1);
    let q2 = q1 + p2;
    lemma_all_letters_concat(q1, p2);
    let q3 = q2 + p3;
    lemma_all_letters_concat(q2, p3);
    let q4 = q3 + p4;
    lemma_all_letters_concat(q3, p4);
    let q5 = q4 + p5;
    lemma_all_letters_concat(q4, p5);
    let q6 = q5 + p6;
    lemma_all_letters_concat(q5, p6);
    let q7 = q6 + p7;
    lemma_all_letters_concat(q6, p7);
    let q8 = q7 + p8;
    lemma_all_letters_concat(q7, p8);
    let q9 = q8 + p9;
    lemma_all_letters_concat(q8, p9);
    assert(q9 == s.spec_option_string());
}

/// The option string names exactly the set flags that have letters: a flag
/// has its letter in it if and only if the flag is set and has a letter.
#[verifier::spinoff_prover]
pub proof fn lemma_option_string_letters(s: Settings, g: ShellFlag)
    ensures
        names_flag(s.spec_option_string(), g) == (letter_of(g) is Some && s.flag(g)),
{
    let p0 = letter_if(s.flag(ShellFlag::Allexport), 'a');
    let p1 = letter_if(s.flag(ShellFlag::Errexit), 'e');
    let p2 = letter_if(s.flag(ShellFlag::Monitor), 'm');
    let p3 = letter_if(s.flag(ShellFlag::Noclobber), 'C');
    let p4 = letter_if(s.flag(ShellFlag::Noglob), 'f');
    let p5 = letter_if(s.flag(ShellFlag::Noexec), 'n');
    let p6 = letter_if(s.flag(ShellFlag::Notify), 'b');
    let p7 = letter_if(s.flag(ShellFlag::Nounset), 'u');
    let p8 = letter_if(s.flag(ShellFlag::Verbose), 'v');
    let p9 = letter_if(s.flag(ShellFlag::Xtrace), 'x');
    let q1 = p0 + p1;
    let q2 = q1 + p2;
    let q3 = q2 + p3;
    let q4 = q3 + p4;
    let q5 = q4 + p5;
    let q6 = q5 + p6;
    let q7 = q6 + p7;
    let q8 = q7 + p8;
    let q9 = q8 + p9;
    assert(q9 == s.spec_option_string());
    lemma_names_flag_concat(p0, p1, g);
    lemma_names_flag_concat(q1, p2, g);
    lemma_names_flag_concat(q2, p3, g);
    lemma_names_flag_concat(q3, p4, g);
    lemma_names_flag_concat(q4, p5, g);
    lemma_names_flag_concat(q5, p6, g);
    lemma_names_flag_concat(q6, p7, g);
    lemma_names_flag_concat(q7, p8, g);
    lemma_names_flag_concat(q8, p9, g);
    lemma_names_flag_letter_if(s.flag(ShellFlag::Allexport), 'a', g);
    lemma_names_flag_letter_if(s.flag(ShellFlag::Errexit), 'e', g);
    lemma_names_flag_letter_if(s.flag(ShellFlag::Monitor), 'm', g);
    lemma_names_flag_letter_if(s.flag(ShellFlag::Noclobber), 'C', g);
    lemma_names_flag_letter_if(s.flag(ShellFlag::Noglob), 'f', g);
    lemma_names_flag_letter_if(s.flag(ShellFlag::Noexec), 'n', g);
    lemma_names_flag_letter_if(s.flag(ShellFlag::Notify), 'b', g);
    lemma_names_flag_letter_if(s.flag(ShellFlag::Nounset), 'u', g);
    lemma_names_flag_letter_if(s.flag(ShellFlag::Verbose), 'v', g);
    lemma_names_flag_letter_if(s.flag(ShellFlag::Xtrace), 'x', g);
    let named = names_flag(p0, g) || names_flag(p1, g) || names_flag(p2, g) || names_flag(p3, g)
        || names_flag(p4, g) || names_flag(p5, g) || names_flag(p6, g) || names_flag(p7, g)
        || names_flag(p8, g) || names_flag(p9, g);
    assert(names_flag(q9, g) == named);
    match g {
        ShellFlag::Allexport => {},
        ShellFlag::Errexit => {},
        ShellFlag::Ignoreeof => {},
        ShellFlag::Monitor => {},
        ShellFlag::Noclobber => {},
        ShellFlag::Noglob => {},
        ShellFlag::Noexec => {},
        ShellFlag::Nolog => {},
        ShellFlag::Notify => {},
        ShellFlag::Nounset => {},
        ShellFlag::Verbose => {},
        ShellFlag::Vi => {},
        ShellFlag::Xtrace => {},
        ShellFlag::Strlossy => {},
    }
}

/// The arguments `name` and `-` followed by the option string of `s`.
pub open spec fn option_string_args(name: Seq<char>, s: Settings) -> Seq<Seq<char>> {
    seq![name, seq!['-'] + s.spec_option_string()]
}

/// What `option_string` prints is read back by `parse_options`: the arguments
/// `name` and `-` followed by the option string of `s`, parsed on settings
/// `t`, call no handler and set exactly the flags that are set in `s` and
/// have letters; every other flag, `arg0` and the positional parameters of
/// `t` stay. The second argument is taken whole, unless the option string is
/// empty: `-` alone is an operand.
pub proof fn lemma_option_string_round_trip(name: Seq<char>, s: Settings, t: Settings, o: Seq<HandlerCall>)
    ensures
        parse_options_outcome(option_string_args(name, s), t, o).0
            == Ok::<(usize, bool), OptionError>((if s.spec_option_string().len() > 0 { 2 } else { 1 }, false)),
        forall|g: ShellFlag|
            #[trigger] parse_options_outcome(option_string_args(name, s), t, o).1.flag(g)
                == if letter_of(g) is Some && s.flag(g) { true } else { t.flag(g) },
        parse_options_outcome(option_string_args(name, s), t, o).1.arg0_view() == t.arg0_view(),
        parse_options_outcome(option_string_args(name, s), t, o).1.current() == t.current(),
        parse_options_outcome(option_string_args(name, s), t, o).1.saved() == t.saved(),
{
    let w = s.spec_option_string();
    let arg = seq!['-'] + w;
    let args = seq![name, arg];
    if w.len() == 0 {
        assert(!is_option_group(arg));
        assert forall|g: ShellFlag|
            #[trigger] parse_options_outcome(args, t, o).1.flag(g)
                == if letter_of(g) is Some && s.flag(g) { true } else { t.flag(g) } by {
            lemma_option_string_letters(s, g);
        }
    } else {
        lemma_option_string_all_letters(s);
        assert(arg.subrange(1, arg.len() as int) =~= w);
        assert(flag_of_letter(w[0]) is Some);
        assert(arg[1] == w[0]);
        assert(is_option_group(arg));
        assert(!is_double_minus(arg));
        lemma_run_letters(args, 1, 1, OptionType::Minus, t, o, 0);
        lemma_apply_letters(t, w, true);
        assert forall|g: ShellFlag|
            #[trigger] parse_options_outcome(args, t, o).1.flag(g)
                == if letter_of(g) is Some && s.flag(g) { true } else { t.flag(g) } by {
            lemma_option_string_letters(s, g);
        }
    }
}

/// The value that the options from a state of the parser give to flag `g`
/// last, if any, when the `n`-th and later calls of the handler are answered
/// as the record `o` says and change no flag.
pub open spec fn last_assignment(
    args: Seq<Seq<char>>,
    k: int,
    j: int,
    t: OptionType,
    g: ShellFlag,
    o: Seq<HandlerCall>,
    n: int,
) -> Option<bool>
    decreases args.len() - k, if 0 <= k < args.len() { args[k].len() + 1 - j } else { 0 },
{
    if k < 0 || k >= args.len() || j < 0 {
        None
    } else if j == 0 {
        let arg = args[k];
        if is_double_minus(arg) || !is_option_group(arg) {
            None
        } else {
            last_assignment(args, k, 1, option_type_of(arg[0]), g, o, n)
        }
    } else if j >= args[k].len() {
        last_assignment(args, k + 1, 0, t, g, o, n)
    } else {
        let arg = args[k];
        let c = arg[j];
        let (assigned, next) = if let Some(f) = flag_of_letter(c) {
            (Some(f), last_assignment(args, k, j + 1, t, g, o, n))
        } else if c == 'h' {
            (None, last_assignment(args, k, j + 1, t, g, o, n))
        } else if c == 'o' && j + 1 < arg.len() {
            match flag_of_name(arg.subrange(j + 1, arg.len() as int)) {
                Some(f) => (Some(f), last_assignment(args, k + 1, 0, t, g, o, n)),
                None => (None, None),
            }
        } else if c == 'o' && k + 1 < args.len() {
            match flag_of_name(args[k + 1]) {
                Some(f) => (Some(f), last_assignment(args, k + 2, 0, t, g, o, n)),
                None => (None, None),
            }
        } else if !(0 <= n < o.len() && o[n].taken) {
            (None, None)
        } else if c == 'o' {
            (None, last_assignment(args, k + 1, 0, t, g, o, n + 1))
        } else {
            (None, last_assignment(args, k, j + 1, t, g, o, n + 1))
        };
        match next {
            Some(v) => Some(v),
            None => if assigned == Some(g) {
                Some(option_value(t))
            } else {
                None
            },
        }
    }
}

/// Without the handler, the parser overwrites each flag it assigns with the
/// value it assigns last and keeps everything else; what it returns does not
/// depend on the settings.
proof fn lemma_run_overwrites(
    args: Seq<Seq<char>>,
    k: int,
    j: int,
    t: OptionType,
    s: Settings,
    s2: Settings,
    o: Seq<HandlerCall>,
    n: int,
)
    requires
        handler_free(args),
        1 <= k,
        0 <= j,
        j >= 1 ==> k < args.len() && is_option_group(args[k]),
    ensures
        forall|g: ShellFlag| #[trigger] run_options(args, k, j, t, s, o, n).1.flag(g)
            == match last_assignment(args, k, j, t, g, o, n) {
                Some(v) => v,
                None => s.flag(g),
            },
        run_options(args, k, j, t, s, o, n).1.same_rest(s),
        run_options(args, k, j, t, s, o, n).0 == run_options(args, k, j, t, s2, o, n).0,
    decreases args.len() - k, if 0 <= k < args.len() { args[k].len() + 1 - j } else { 0 },
{
    if k >= args.len() {
    } else if j == 0 {
        let arg = args[k];
        if !is_double_minus(arg) && is_option_group(arg) {
            lemma_run_overwrites(args, k, 1, option_type_of(arg[0]), s, s2, o, n);
        }
    } else if j >= args[k].len() {
        lemma_run_overwrites(args, k + 1, 0, t, s, s2, o, n);
    } else {
        let arg = args[k];
        let c = arg[j];
        let v = option_value(t);
        assert(handled_by_settings(args, k, j));
        if let Some(f) = flag_of_letter(c) {
            lemma_with_flag(s, f, v);
            lemma_run_overwrites(args, k, j + 1, t, s.with_flag(f, v), s2.with_flag(f, v), o, n);
        } else if c == 'h' {
            lemma_run_overwrites(args, k, j + 1, t, s, s2, o, n);
        } else if j + 1 < arg.len() {
            if let Some(f) = flag_of_name(arg.subrange(j + 1, arg.len() as int)) {
                lemma_with_flag(s, f, v);
                lemma_run_overwrites(args, k + 1, 0, t, s.with_flag(f, v), s2.with_flag(f, v), o, n);
            }
        } else {
            if let Some(f) = flag_of_name(args[k + 1]) {
                lemma_with_flag(s, f, v);
                lemma_run_overwrites(args, k + 2, 0, t, s.with_flag(f, v), s2.with_flag(f, v), o, n);
            }
        }
    }
}

/// When the calls of the handler are those of the record and change nothing,
/// the parser overwrites each flag it assigns with the value it assigns last
/// and keeps everything else.
proof fn lemma_run_quiet(
    args: Seq<Seq<char>>,
    k: int,
    j: int,
    t: OptionType,
    s: Settings,
    o: Seq<HandlerCall>,
    n: int,
)
    requires
        forall|i: int| 0 <= i < o.len() ==> #[trigger] o[i].after == o[i].before,
        calls_recorded(args, k, j, t, s, o, n),
        1 <= k,
        0 <= j,
        0 <= n,
        j >= 1 ==> k < args.len() && is_option_group(args[k]),
    ensures
        forall|g: ShellFlag| #[trigger] run_options(args, k, j, t, s, o, n).1.flag(g)
            == match last_assignment(args, k, j, t, g, o, n) {
                Some(v) => v,
                None => s.flag(g),
            },
        run_options(args, k, j, t, s, o, n).1.same_rest(s),
    decreases args.len() - k, if 0 <= k < args.len() { args[k].len() + 1 - j } else { 0 },
{
    if k >= args.len() {
    } else if j == 0 {
        let arg = args[k];
        if !is_double_minus(arg) && is_option_group(arg) {
            lemma_run_quiet(args, k, 1, option_type_of(arg[0]), s, o, n);
        }
    } else if j >= args[k].len() {
        lemma_run_quiet(args, k + 1, 0, t, s, o, n);
    } else {
        let arg = args[k];
        let c = arg[j];
        let v = option_value(t);
        if let Some(f) = flag_of_letter(c) {
            lemma_with_flag(s, f, v);
            lemma_run_quiet(args, k, j + 1, t, s.with_flag(f, v), o, n);
        } else if c == 'h' {
            lemma_run_quiet(args, k, j + 1, t, s, o, n);
        } else if c == 'o' && j + 1 < arg.len() {
            if let Some(f) = flag_of_name(arg.subrange(j + 1, arg.len() as int)) {
                lemma_with_flag(s, f, v);
                lemma_run_quiet(args, k + 1, 0, t, s.with_flag(f, v), o, n);
            }
        } else if c == 'o' && k + 1 < args.len() {
            if let Some(f) = flag_of_name(args[k + 1]) {
                lemma_with_flag(s, f, v);
                lemma_run_quiet(args, k + 2, 0, t, s.with_flag(f, v), o, n);
            }
        } else {
            assert(o[n].after == o[n].before);
            if o[n].taken {
                if c == 'o' {
                    lemma_run_quiet(args, k + 1, 0, t, s, o, n + 1);
                } else {
                    lemma_run_quiet(args, k, j + 1, t, s, o, n + 1);
                }
            }
        }
    }
}

/// Two records whose calls change nothing and give the same answers lead the
/// parser to the same result and the same last values, from any settings.
proof fn lemma_run_quiet_same(
    args: Seq<Seq<char>>,
    k: int,
    j: int,
    t: OptionType,
    s1: Settings,
    o1: Seq<HandlerCall>,
    s2: Settings,
    o2: Seq<HandlerCall>,
    n: int,
)
    requires
        forall|i: int| 0 <= i < o1.len() ==> #[trigger] o1[i].after == o1[i].before,
        forall|i: int| 0 <= i < o2.len() ==> #[trigger] o2[i].after == o2[i].before,
        o1.len() == o2.len(),
        forall|i: int| 0 <= i < o1.len() ==> #[trigger] o1[i].taken == o2[i].taken,
        calls_recorded(args, k, j, t, s1, o1, n),
        calls_recorded(args, k, j, t, s2, o2, n),
        1 <= k,
        0 <= j,
        0 <= n,
        j >= 1 ==> k < args.len() && is_option_group(args[k]),
    ensures
        run_options(args, k, j, t, s1, o1, n).0 == run_options(args, k, j, t, s2, o2, n).0,
        forall|g: ShellFlag| #[trigger] last_assignment(args, k, j, t, g, o1, n)
            == last_assignment(args, k, j, t, g, o2, n),
    decreases args.len() - k, if 0 <= k < args.len() { args[k].len() + 1 - j } else { 0 },
{
    if k >= args.len() {
    } else if j == 0 {
        let arg = args[k];
        if !is_double_minus(arg) && is_option_group(arg) {
            lemma_run_quiet_same(args, k, 1, option_type_of(arg[0]), s1, o1, s2, o2, n);
            assert forall|g: ShellFlag| #[trigger] last_assignment(args, k, j, t, g, o1, n)
                == last_assignment(args, k, j, t, g, o2, n) by {
                assert(last_assignment(args, k, 1, option_type_of(arg[0]), g, o1, n) == last_assignment(args, k, 1, option_type_of(arg[0]), g, o2, n));
            }
        }
    } else if j >= args[k].len() {
        lemma_run_quiet_same(args, k + 1, 0, t, s1, o1, s2, o2, n);
        assert forall|g: ShellFlag| #[trigger] last_assignment(args, k, j, t, g, o1, n)
            == last_assignment(args, k, j, t, g, o2, n) by {
            assert(last_assignment(args, k + 1, 0, t, g, o1, n) == last_assignment(args, k + 1, 0, t, g, o2, n));
        }
    } else {
        let arg = args[k];
        let c = arg[j];
        let v = option_value(t);
        if let Some(f) = flag_of_letter(c) {
            lemma_run_quiet_same(args, k, j + 1, t, s1.with_flag(f, v), o1, s2.with_flag(f, v), o2, n);
            assert forall|g: ShellFlag| #[trigger] last_assignment(args, k, j, t, g, o1, n)
                == last_assignment(args, k, j, t, g, o2, n) by {
                assert(last_assignment(args, k, j + 1, t, g, o1, n) == last_assignment(args, k, j + 1, t, g, o2, n));
            }
        } else if c == 'h' {
            lemma_run_quiet_same(args, k, j + 1, t, s1, o1, s2, o2, n);
            assert forall|g: ShellFlag| #[trigger] last_assignment(args, k, j, t, g, o1, n)
                == last_assignment(args, k, j, t, g, o2, n) by {
                assert(last_assignment(args, k, j + 1, t, g, o1, n) == last_assignment(args, k, j + 1, t, g, o2, n));
            }
        } else if c == 'o' && j + 1 < arg.len() {
            if let Some(f) = flag_of_name(arg.subrange(j + 1, arg.len() as int)) {
                lemma_run_quiet_same(args, k + 1, 0, t, s1.with_flag(f, v), o1, s2.with_flag(f, v), o2, n);
                assert forall|g: ShellFlag| #[trigger] last_assignment(args, k, j, t, g, o1, n)
                    == last_assignment(args, k, j, t, g, o2, n) by {
                    assert(last_assignment(args, k + 1, 0, t, g, o1, n) == last_assignment(args, k + 1, 0, t, g, o2, n));
                }
            }
        } else if c == 'o' && k + 1 < args.len() {
            if let Some(f) = flag_of_name(args[k + 1]) {
                lemma_run_quiet_same(args, k + 2, 0, t, s1.with_flag(f, v), o1, s2.with_flag(f, v), o2, n);
                assert forall|g: ShellFlag| #[trigger] last_assignment(args, k, j, t, g, o1, n)
                    == last_assignment(args, k, j, t, g, o2, n) by {
                    assert(last_assignment(args, k + 2, 0, t, g, o1, n) == last_assignment(args, k + 2, 0, t, g, o2, n));
                }
            }
        } else {
            assert(o1[n].after == o1[n].before);
            assert(o2[n].after == o2[n].before);
            assert(o1[n].taken == o2[n].taken);
            if o1[n].taken {
                if c == 'o' {
                    lemma_run_quiet_same(args, k + 1, 0, t, s1, o1, s2, o2, n + 1);
                    assert forall|g: ShellFlag| #[trigger] last_assignment(args, k, j, t, g, o1, n)
                        == last_assignment(args, k, j, t, g, o2, n) by {
                        assert(last_assignment(args, k + 1, 0, t, g, o1, n + 1) == last_assignment(args, k + 1, 0, t, g, o2, n + 1));
                    }
                } else {
                    lemma_run_quiet_same(args, k, j + 1, t, s1, o1, s2, o2, n + 1);
                    assert forall|g: ShellFlag| #[trigger] last_assignment(args, k, j, t, g, o1, n)
                        == last_assignment(args, k, j, t, g, o2, n) by {
                        assert(last_assignment(args, k, j + 1, t, g, o1, n + 1) == last_assignment(args, k, j + 1, t, g, o2, n + 1));
                    }
                }
            }
        }
    }
}

/// The error that reports a refusal of the handler: `OptionRequiresArgument`
/// for `o`, `UnknownOption` for any other letter.
pub open spec fn refusal_error(h: HandlerCall) -> OptionError {
    if h.letter == 'o' {
        OptionError::OptionRequiresArgument(h.option_type, 'o')
    } else {
        OptionError::UnknownOption(h.option_type, h.letter)
    }
}

/// A result that reports a refusal of the handler.
pub open spec fn is_refusal(res: OptionResult) -> bool {
    match res {
        Err(OptionError::UnknownOption(_, _)) => true,
        Err(OptionError::OptionRequiresArgument(_, _)) => true,
        _ => false,
    }
}

/// What the calls of the handler from a state of the parser are: each for a
/// letter the settings do not handle, each taken but the last, and the result
/// a refusal exactly when the last was refused, reported for its letter.
proof fn lemma_run_calls(
    args: Seq<Seq<char>>,
    k: int,
    j: int,
    t: OptionType,
    s: Settings,
    o: Seq<HandlerCall>,
    n: int,
)
    requires
        calls_recorded(args, k, j, t, s, o, n),
        1 <= k,
        0 <= j,
        0 <= n,
        j >= 1 ==> k < args.len() && is_option_group(args[k]),
    ensures
        n <= o.len(),
        forall|i: int| n <= i < o.len() ==> flag_of_letter(#[trigger] o[i].letter) is None && o[i].letter != 'h',
        forall|i: int| n <= i < o.len() - 1 ==> #[trigger] o[i].taken,
        is_refusal(run_options(args, k, j, t, s, o, n).0) == (n < o.len() && !o[o.len() - 1].taken),
        n < o.len() && !o[o.len() - 1].taken ==> run_options(args, k, j, t, s, o, n).0
            == Err::<(usize, bool), OptionError>(refusal_error(o[o.len() - 1])),
    decreases args.len() - k, if 0 <= k < args.len() { args[k].len() + 1 - j } else { 0 },
{
    if k >= args.len() {
    } else if j == 0 {
        let arg = args[k];
        if !is_double_minus(arg) && is_option_group(arg) {
            lemma_run_calls(args, k, 1, option_type_of(arg[0]), s, o, n);
        }
    } else if j >= args[k].len() {
        lemma_run_calls(args, k + 1, 0, t, s, o, n);
    } else {
        let arg = args[k];
        let c = arg[j];
        let v = option_value(t);
        if let Some(f) = flag_of_letter(c) {
            lemma_run_calls(args, k, j + 1, t, s.with_flag(f, v), o, n);
        } else if c == 'h' {
            lemma_run_calls(args, k, j + 1, t, s, o, n);
        } else if c == 'o' && j + 1 < arg.len() {
            if let Some(f) = flag_of_name(arg.subrange(j + 1, arg.len() as int)) {
                lemma_run_calls(args, k + 1, 0, t, s.with_flag(f, v), o, n);
            }
        } else if c == 'o' && k + 1 < args.len() {
            if let Some(f) = flag_of_name(args[k + 1]) {
                lemma_run_calls(args, k + 2, 0, t, s.with_flag(f, v), o, n);
            }
        } else {
            assert(o[n].letter == c);
            if o[n].taken {
                if c == 'o' {
                    lemma_run_calls(args, k + 1, 0, t, o[n].after, o, n + 1);
                } else {
                    lemma_run_calls(args, k, j + 1, t, o[n].after, o, n + 1);
                }
            }
        }
    }
}

/// The handler is called for the letters that the settings do not handle and
/// for `o` with no name after it, in the order the options are scanned, until
/// it refuses one: every call but the last was taken. The parse fails with
/// `UnknownOption`, or `OptionRequiresArgument` for `o`, exactly when the last
/// call was refused, and then for the option type and letter of that call.
pub proof fn lemma_parse_options_handler_calls(args: Seq<Seq<char>>, s: Settings, o: Seq<HandlerCall>)
    requires
        parse_options_calls(args, s, o),
    ensures
        forall|i: int| 0 <= i < o.len() ==> flag_of_letter(#[trigger] o[i].letter) is None && o[i].letter != 'h',
        forall|i: int| 0 <= i < o.len() - 1 ==> #[trigger] o[i].taken,
        is_refusal(parse_options_outcome(args, s, o).0) == (o.len() > 0 && !o[o.len() - 1].taken),
        o.len() > 0 && !o[o.len() - 1].taken ==> parse_options_outcome(args, s, o).0
            == Err::<(usize, bool), OptionError>(refusal_error(o[o.len() - 1])),
{
    if args.len() > 0 {
        lemma_run_calls(args, 1, 0, OptionType::Minus, s, o, 0);
    }
}

/// Exactly the letters `a e m C f n b u v x` name flags, each the flag whose
/// letter it is: a letter names a flag if and only if it is that flag's letter.
pub proof fn lemma_flag_letters(c: char, f: ShellFlag)
    ensures
        (flag_of_letter(c) is Some) == (c == 'a' || c == 'e' || c == 'm' || c == 'C' || c == 'f' || c == 'n'
            || c == 'b' || c == 'u' || c == 'v' || c == 'x'),
        (flag_of_letter(c) == Some(f)) == (letter_of(f) == Some(c)),
{
}

/// An option letter other than `a e m C f n b u v x`, `h` and `o`, alone in
/// an argument after the command name, names no flag: the handler is called
/// once, with the option type, the letter and the settings as they were; the
/// parse takes the argument when the handler does and fails with
/// `UnknownOption` when it refuses, and the settings are those the handler
/// leaves.
pub proof fn lemma_other_letters_go_to_handler(
    name: Seq<char>,
    t: OptionType,
    c: char,
    s: Settings,
    o: Seq<HandlerCall>,
)
    requires
        !(c == 'a' || c == 'e' || c == 'm' || c == 'C' || c == 'f' || c == 'n' || c == 'b' || c == 'u'
            || c == 'v' || c == 'x' || c == 'h' || c == 'o'),
        !(t == OptionType::Minus && c == '-'),
        parse_options_calls(seq![name, seq![option_sign(t), c]], s, o),
    ensures
        o.len() == 1,
        o[0].option_type == t,
        o[0].letter == c,
        o[0].before == s,
        parse_options_outcome(seq![name, seq![option_sign(t), c]], s, o) == (
            if o[0].taken {
                Ok::<(usize, bool), OptionError>((2, false))
            } else {
                Err::<(usize, bool), OptionError>(OptionError::UnknownOption(t, c))
            },
            o[0].after,
        ),
{
    let args = seq![name, seq![option_sign(t), c]];
    let arg = args[1];
    assert(arg.len() == 2 && arg[1] == c && arg[0] == option_sign(t));
    assert(option_type_of(arg[0]) == t) by {
        match t {
            OptionType::Minus => {},
            OptionType::Plus => {},
        }
    }
    assert(is_option_group(arg));
    assert(!is_double_minus(arg));
    assert(flag_of_letter(c) is None);
    reveal_with_fuel(calls_recorded, 5);
    reveal_with_fuel(run_options, 5);
}

/// Settings with the same flags and the same other fields are the same.
proof fn lemma_settings_ext(a: Settings, b: Settings)
    requires
        forall|g: ShellFlag| #[trigger] a.flag(g) == b.flag(g),
        a.same_rest(b),
    ensures
        a == b,
{
    assert(a.flag(ShellFlag::Allexport) == b.flag(ShellFlag::Allexport));
    assert(a.flag(ShellFlag::Errexit) == b.flag(ShellFlag::Errexit));
    assert(a.flag(ShellFlag::Ignoreeof) == b.flag(ShellFlag::Ignoreeof));
    assert(a.flag(ShellFlag::Monitor) == b.flag(ShellFlag::Monitor));
    assert(a.flag(ShellFlag::Noclobber) == b.flag(ShellFlag::Noclobber));
    assert(a.flag(ShellFlag::Noglob) == b.flag(ShellFlag::Noglob));
    assert(a.flag(ShellFlag::Noexec) == b.flag(ShellFlag::Noexec));
    assert(a.flag(ShellFlag::Nolog) == b.flag(ShellFlag::Nolog));
    assert(a.flag(ShellFlag::Notify) == b.flag(ShellFlag::Notify));
    assert(a.flag(ShellFlag::Nounset) == b.flag(ShellFlag::Nounset));
    assert(a.flag(ShellFlag::Verbose) == b.flag(ShellFlag::Verbose));
    assert(a.flag(ShellFlag::Vi) == b.flag(ShellFlag::Vi));
    assert(a.flag(ShellFlag::Xtrace) == b.flag(ShellFlag::Xtrace));
    assert(a.flag(ShellFlag::Strlossy) == b.flag(ShellFlag::Strlossy));
}

/// When no option needs the handler, each flag ends with the value that the
/// last option naming it gives (`-` sets, `+` unsets), also when the parse
/// fails; a flag that no option names keeps its value, and `arg0` and the
/// positional parameters stay.
pub proof fn lemma_parse_options_overwrites(args: Seq<Seq<char>>, s: Settings, o: Seq<HandlerCall>)
    requires
        handler_free(args),
        args.len() > 0,
    ensures
        forall|g: ShellFlag| #[trigger] parse_options_outcome(args, s, o).1.flag(g)
            == match last_assignment(args, 1, 0, OptionType::Minus, g, o, 0) {
                Some(v) => v,
                None => s.flag(g),
            },
        parse_options_outcome(args, s, o).1.arg0_view() == s.arg0_view(),
        parse_options_outcome(args, s, o).1.current() == s.current(),
        parse_options_outcome(args, s, o).1.saved() == s.saved(),
{
    lemma_run_overwrites(args, 1, 0, OptionType::Minus, s, s, o, 0);
}

/// When the handler changes nothing, each flag ends with the value that the
/// last option naming it gives, also when the parse fails: the options that
/// the handler took assign nothing, and the scan ends where it refused one. A
/// flag that no scanned option names keeps its value, and `arg0` and the
/// positional parameters stay.
pub proof fn lemma_parse_options_quiet_handler(args: Seq<Seq<char>>, s: Settings, o: Seq<HandlerCall>)
    requires
        args.len() > 0,
        parse_options_calls(args, s, o),
        forall|i: int| 0 <= i < o.len() ==> #[trigger] o[i].after == o[i].before,
    ensures
        forall|g: ShellFlag| #[trigger] parse_options_outcome(args, s, o).1.flag(g)
            == match last_assignment(args, 1, 0, OptionType::Minus, g, o, 0) {
                Some(v) => v,
                None => s.flag(g),
            },
        parse_options_outcome(args, s, o).1.arg0_view() == s.arg0_view(),
        parse_options_outcome(args, s, o).1.current() == s.current(),
        parse_options_outcome(args, s, o).1.saved() == s.saved(),
{
    lemma_run_quiet(args, 1, 0, OptionType::Minus, s, o, 0);
}

/// Setting the same options twice is setting them once, also when the
/// handler is called: when its calls change nothing and it answers the second
/// parse as it answered the first, parsing the arguments again on the settings
/// that the first parse left gives the same result and the same settings.
pub proof fn lemma_parse_options_quiet_idempotent(
    args: Seq<Seq<char>>,
    s: Settings,
    o1: Seq<HandlerCall>,
    o2: Seq<HandlerCall>,
)
    requires
        args.len() > 0,
        parse_options_calls(args, s, o1),
        parse_options_calls(args, parse_options_outcome(args, s, o1).1, o2),
        forall|i: int| 0 <= i < o1.len() ==> #[trigger] o1[i].after == o1[i].before,
        forall|i: int| 0 <= i < o2.len() ==> #[trigger] o2[i].after == o2[i].before,
        o1.len() == o2.len(),
        forall|i: int| 0 <= i < o1.len() ==> #[trigger] o1[i].taken == o2[i].taken,
    ensures
        parse_options_outcome(args, parse_options_outcome(args, s, o1).1, o2) == parse_options_outcome(args, s, o1),
{
    let r1 = parse_options_outcome(args, s, o1);
    let s1 = r1.1;
    let r2 = parse_options_outcome(args, s1, o2);
    lemma_run_quiet(args, 1, 0, OptionType::Minus, s, o1, 0);
    lemma_run_quiet(args, 1, 0, OptionType::Minus, s1, o2, 0);
    lemma_run_quiet_same(args, 1, 0, OptionType::Minus, s, o1, s1, o2, 0);
    assert forall|g: ShellFlag| #[trigger] r2.1.flag(g) == s1.flag(g) by {
        assert(last_assignment(args, 1, 0, OptionType::Minus, g, o1, 0)
            == last_assignment(args, 1, 0, OptionType::Minus, g, o2, 0));
        assert(r2.1.flag(g) == match last_assignment(args, 1, 0, OptionType::Minus, g, o2, 0) {
            Some(v) => v,
            None => s1.flag(g),
        });
        assert(s1.flag(g) == match last_assignment(args, 1, 0, OptionType::Minus, g, o1, 0) {
            Some(v) => v,
            None => s.flag(g),
        });
    }
    lemma_settings_ext(r2.1, s1);
}

/// Setting the same options twice is setting them once: when no option needs
/// the handler, parsing the arguments again on the settings that a parse left
/// gives the same result and the same settings.
pub proof fn lemma_parse_options_idempotent(
    args: Seq<Seq<char>>,
    s: Settings,
    o1: Seq<HandlerCall>,
    o2: Seq<HandlerCall>,
)
    requires
        handler_free(args),
    ensures
        parse_options_outcome(args, parse_options_outcome(args, s, o1).1, o2) == parse_options_outcome(args, s, o1),
{
    if args.len() > 0 {
        let r1 = parse_options_outcome(args, s, o1);
        let s1 = r1.1;
        lemma_run_overwrites(args, 1, 0, OptionType::Minus, s, s1, o1, 0);
        lemma_run_overwrites(args, 1, 0, OptionType::Minus, s1, s, o1, 0);
        lemma_run_handler_free(args, 1, 0, OptionType::Minus, s1, o2, 0, o1, 0);
        let r2 = parse_options_outcome(args, s1, o2);
        assert forall|g: ShellFlag| #[trigger] r2.1.flag(g) == s1.flag(g) by {
            assert(r2.1.flag(g) == match last_assignment(args, 1, 0, OptionType::Minus, g, o1, 0) {
                Some(v) => v,
                None => s1.flag(g),
            });
            assert(s1.flag(g) == match last_assignment(args, 1, 0, OptionType::Minus, g, o1, 0) {
                Some(v) => v,
                None => s.flag(g),
            });
        }
        lemma_settings_ext(r2.1, s1);
    }
}

} // verus!
