//! Command-line flags: which flags a command has, and how its arguments are
//! read.
use vstd::prelude::*;

use crate::text::{opt_view, same, to_chars, views};

verus! {

/// The commands.
#[derive(Debug, Clone, Copy, PartialEq, Eq, Structural)]
pub enum Command {
    Status,
    Stats,
    Search,
    Alerts,
    Ack,
    Digest,
    Tail,
    Retention,
    DryRun,
    Validate,
}

/// The flags of all commands, and the positional argument of `alerts ack`.
#[derive(Debug, Clone, Copy, PartialEq, Eq, Structural)]
pub enum Flag {
    DataDir,
    Verbose,
    Source,
    After,
    Before,
    Interval,
    Last,
    Query,
    NoLimit,
    Raw,
    Format,
    Window,
    Correlated,
    All,
    Note,
    RuleId,
    Follow,
    NoFollow,
    Days,
    Preview,
    Yes,
    File,
    Config,
    Rules,
    NormalizedConfig,
}

/// How many arguments a flag takes.
#[derive(Debug, Clone, Copy, PartialEq, Eq, Structural)]
pub enum Arity {
    Zero,
    One,
    /// One, unless the next argument looks like a flag.
    Optional,
}

/// How many arguments a flag takes.
pub open spec fn arity_of(f: Flag) -> Arity {
    match f {
        Flag::Verbose => Arity::Zero,
        Flag::NoLimit => Arity::Zero,
        Flag::Correlated => Arity::Zero,
        Flag::All => Arity::Zero,
        Flag::Follow => Arity::Zero,
        Flag::NoFollow => Arity::Zero,
        Flag::Preview => Arity::Zero,
        Flag::Yes => Arity::Zero,
        Flag::Raw => Arity::Optional,
        _ => Arity::One,
    }
}

fn arity(f: Flag) -> (r: Arity)
    ensures
        r == arity_of(f),
{
    match f {
        Flag::Verbose => Arity::Zero,
        Flag::NoLimit => Arity::Zero,
        Flag::Correlated => Arity::Zero,
        Flag::All => Arity::Zero,
        Flag::Follow => Arity::Zero,
        Flag::NoFollow => Arity::Zero,
        Flag::Preview => Arity::Zero,
        Flag::Yes => Arity::Zero,
        Flag::Raw => Arity::Optional,
        _ => Arity::One,
    }
}

/// The flag that an argument is to a command.
pub open spec fn flag_of(c: Command, s: Seq<char>) -> Option<Flag> {
    let data_dir = c != Command::DryRun && c != Command::Validate;
    let ranged = c == Command::Stats || c == Command::Search || c == Command::Alerts;
    let queried = c == Command::Search || c == Command::Alerts;
    let sourced = c == Command::Stats || c == Command::Tail || c == Command::DryRun;
    if data_dir && (s == "--data-dir"@ || s == "-d"@) {
        Some(Flag::DataDir)
    } else if c == Command::Status && (s == "--verbose"@ || s == "-v"@) {
        Some(Flag::Verbose)
    } else if sourced && (s == "--source"@ || s == "-s"@) {
        Some(Flag::Source)
    } else if ranged && (s == "--after"@ || s == "-a"@) {
        Some(Flag::After)
    } else if ranged && (s == "--before"@ || s == "-b"@) {
        Some(Flag::Before)
    } else if (c == Command::Stats || c == Command::Digest) && s == "--interval"@ {
        Some(Flag::Interval)
    } else if c == Command::Stats && s == "--last"@ {
        Some(Flag::Last)
    } else if queried && (s == "--query"@ || s == "-q"@) {
        Some(Flag::Query)
    } else if c == Command::Search && s == "--no-limit"@ {
        Some(Flag::NoLimit)
    } else if c == Command::Search && s == "--raw"@ {
        Some(Flag::Raw)
    } else if (queried || c == Command::Digest) && s == "--format"@ {
        Some(Flag::Format)
    } else if (queried || c == Command::Digest) && s == "--window"@ {
        Some(Flag::Window)
    } else if queried && s == "-w"@ {
        Some(Flag::Window)
    } else if c == Command::Alerts && s == "--correlated"@ {
        Some(Flag::Correlated)
    } else if c == Command::Alerts && s == "--all"@ {
        Some(Flag::All)
    } else if c == Command::Ack && s == "--note"@ {
        Some(Flag::Note)
    } else if c == Command::Tail && (s == "--follow"@ || s == "-f"@) {
        Some(Flag::Follow)
    } else if c == Command::Tail && (s == "--no-follow"@ || s == "-F"@) {
        Some(Flag::NoFollow)
    } else if c == Command::Retention && (s == "--days"@ || s == "-n"@) {
        Some(Flag::Days)
    } else if c == Command::Retention && (s == "--dry-run"@ || s == "-D"@) {
        Some(Flag::Preview)
    } else if c == Command::Retention && (s == "--yes"@ || s == "--force"@ || s == "-y"@) {
        Some(Flag::Yes)
    } else if c == Command::DryRun && (s == "--file"@ || s == "-f"@) {
        Some(Flag::File)
    } else if (c == Command::DryRun || c == Command::Validate) && (s == "--config"@ || s
        == "-c"@) {
        Some(Flag::Config)
    } else if (c == Command::DryRun || c == Command::Validate) && (s == "--rules"@ || s == "-r"@) {
        Some(Flag::Rules)
    } else if c == Command::Validate && (s == "--normalized-config"@ || s == "-N"@) {
        Some(Flag::NormalizedConfig)
    } else {
        None
    }
}

fn find_flag(c: Command, s: &str) -> (r: Option<Flag>)
    ensures
        r == flag_of(c, s@),
{
    let data_dir = c != Command::DryRun && c != Command::Validate;
    let ranged = c == Command::Stats || c == Command::Search || c == Command::Alerts;
    let queried = c == Command::Search || c == Command::Alerts;
    let sourced = c == Command::Stats || c == Command::Tail || c == Command::DryRun;
    if data_dir && (same(s, "--data-dir") || same(s, "-d")) {
        Some(Flag::DataDir)
    } else if c == Command::Status && (same(s, "--verbose") || same(s, "-v")) {
        Some(Flag::Verbose)
    } else if sourced && (same(s, "--source") || same(s, "-s")) {
        Some(Flag::Source)
    } else if ranged && (same(s, "--after") || same(s, "-a")) {
        Some(Flag::After)
    } else if ranged && (same(s, "--before") || same(s, "-b")) {
        Some(Flag::Before)
    } else if (c == Command::Stats || c == Command::Digest) && same(s, "--interval") {
        Some(Flag::Interval)
    } else if c == Command::Stats && same(s, "--last") {
        Some(Flag::Last)
    } else if queried && (same(s, "--query") || same(s, "-q")) {
        Some(Flag::Query)
    } else if c == Command::Search && same(s, "--no-limit") {
        Some(Flag::NoLimit)
    } else if c == Command::Search && same(s, "--raw") {
        Some(Flag::Raw)
    } else if (queried || c == Command::Digest) && same(s, "--format") {
        Some(Flag::Format)
    } else if (queried || c == Command::Digest) && same(s, "--window") {
        Some(Flag::Window)
    } else if queried && same(s, "-w") {
        Some(Flag::Window)
    } else if c == Command::Alerts && same(s, "--correlated") {
        Some(Flag::Correlated)
    } else if c == Command::Alerts && same(s, "--all") {
        Some(Flag::All)
    } else if c == Command::Ack && same(s, "--note") {
        Some(Flag::Note)
    } else if c == Command::Tail && (same(s, "--follow") || same(s, "-f")) {
        Some(Flag::Follow)
    } else if c == Command::Tail && (same(s, "--no-follow") || same(s, "-F")) {
        Some(Flag::NoFollow)
    } else if c == Command::Retention && (same(s, "--days") || same(s, "-n")) {
        Some(Flag::Days)
    } else if c == Command::Retention && (same(s, "--dry-run") || same(s, "-D")) {
        Some(Flag::Preview)
    } else if c == Command::Retention && (same(s, "--yes") || same(s, "--force") || same(s, "-y")) {
        Some(Flag::Yes)
    } else if c == Command::DryRun && (same(s, "--file") || same(s, "-f")) {
        Some(Flag::File)
    } else if (c == Command::DryRun || c == Command::Validate) && (same(s, "--config") || same(
        s,
        "-c",
    )) {
        Some(Flag::Config)
    } else if (c == Command::DryRun || c == Command::Validate) && (same(s, "--rules") || same(
        s,
        "-r",
    )) {
        Some(Flag::Rules)
    } else if c == Command::Validate && (same(s, "--normalized-config") || same(s, "-N")) {
        Some(Flag::NormalizedConfig)
    } else {
        None
    }
}

/// A flag as it was given, with its argument if it had one.
pub struct Given {
    pub flag: Flag,
    pub value: Option<String>,
}

/// The model of a given flag.
pub type GivenV = (Flag, Option<Seq<char>>);

/// The models of given flags.
pub open spec fn given_views(v: Seq<Given>) -> Seq<GivenV> {
    v.map_values(|g: Given| (g.flag, opt_view(g.value)))
}

/// Where the reading of the arguments ends.
pub enum Stop {
    /// All arguments were read.
    End,
    /// Help was asked for.
    Help,
    /// An argument is no flag of the command.
    Unknown(String),
    /// A flag lacks its argument.
    Missing(String),
}

/// The model of where the reading ends.
pub ghost enum StopV {
    End,
    Help,
    Unknown(Seq<char>),
    Missing(Seq<char>),
}

impl View for Stop {
    type V = StopV;

    open spec fn view(&self) -> StopV {
        match self {
            Stop::End => StopV::End,
            Stop::Help => StopV::Help,
            Stop::Unknown(s) => StopV::Unknown(s@),
            Stop::Missing(s) => StopV::Missing(s@),
        }
    }
}

/// Whether an argument looks like a flag.
pub open spec fn looks_like_flag(s: Seq<char>) -> bool {
    s.len() > 0 && s[0] == '-'
}

/// Whether a flag was given.
pub open spec fn is_given(gs: Seq<GivenV>, f: Flag) -> bool {
    exists|i: int| 0 <= i < gs.len() && (#[trigger] gs[i]).0 == f
}

/// The flags given from argument `i` on, behind `acc`, up to where the reading
/// ends.
pub open spec fn read_from(c: Command, args: Seq<Seq<char>>, i: int, acc: Seq<GivenV>) -> (
    Seq<GivenV>,
    StopV,
)
    decreases args.len() - i,
{
    if i < 0 || i >= args.len() {
        (acc, StopV::End)
    } else if args[i] == "--help"@ || args[i] == "-h"@ {
        (acc, StopV::Help)
    } else {
        match flag_of(c, args[i]) {
            None => if c == Command::Ack && !looks_like_flag(args[i]) && !is_given(
                acc,
                Flag::RuleId,
            ) {
                read_from(c, args, i + 1, acc.push((Flag::RuleId, Some(args[i]))))
            } else {
                (acc, StopV::Unknown(args[i]))
            },
            Some(f) => match arity_of(f) {
                Arity::Zero => read_from(c, args, i + 1, acc.push((f, None))),
                Arity::One => if i + 1 < args.len() {
                    read_from(c, args, i + 2, acc.push((f, Some(args[i + 1]))))
                } else {
                    (acc, StopV::Missing(args[i]))
                },
                Arity::Optional => if i + 1 < args.len() && !looks_like_flag(args[i + 1]) {
                    read_from(c, args, i + 2, acc.push((f, Some(args[i + 1]))))
                } else {
                    read_from(c, args, i + 1, acc.push((f, None)))
                },
            },
        }
    }
}

fn dashed(s: &str) -> (r: bool)
    ensures
        r == looks_like_flag(s@),
{
    let v = to_chars(s);
    v.len() > 0 && v[0] == '-'
}

/// Whether a flag was given.
pub fn has_flag(gs: &Vec<Given>, f: Flag) -> (r: bool)
    ensures
        r == is_given(given_views(gs@), f),
{
    let ghost gv = given_views(gs@);
    let mut i: usize = 0;
    while i < gs.len()
        invariant
            i <= gs@.len(),
            gv == given_views(gs@),
            forall|k: int| 0 <= k < i ==> (#[trigger] gv[k]).0 != f,
        decreases gs@.len() - i,
    {
        if gs[i].flag == f {
            assert(gv[i as int].0 == f);
            return true;
        }
        i = i + 1;
    }
    false
}

/// The argument of the last occurrence of a flag.
pub open spec fn value_of(gs: Seq<GivenV>, f: Flag) -> Option<Seq<char>>
    decreases gs.len(),
{
    if gs.len() == 0 {
        None
    } else if gs.last().0 == f {
        gs.last().1
    } else {
        value_of(gs.drop_last(), f)
    }
}

/// The argument of the last occurrence of a flag.
pub fn flag_value(gs: &Vec<Given>, f: Flag) -> (r: Option<String>)
    ensures
        opt_view(r) == value_of(given_views(gs@), f),
{
    let ghost gv = given_views(gs@);
    let mut i: usize = gs.len();
    assert(gv.take(i as int) =~= gv);
    while i > 0
        invariant
            i <= gs@.len(),
            gv == given_views(gs@),
            value_of(gv, f) == value_of(gv.take(i as int), f),
        decreases i,
    {
        assert(gv.take(i as int).last() == gv[i - 1]);
        assert(gv.take(i as int).drop_last() =~= gv.take(i - 1));
        if gs[i - 1].flag == f {
            return match &gs[i - 1].value {
                Some(s) => Some(s.clone()),
                None => None,
            };
        }
        i = i - 1;
    }
    None
}

fn push_given(gs: &mut Vec<Given>, flag: Flag, value: Option<String>)
    ensures
        given_views(final(gs)@) == given_views(old(gs)@).push((flag, opt_view(value))),
{
    let ghost before = given_views(gs@);
    let ghost v = opt_view(value);
    gs.push(Given { flag, value });
    assert(given_views(gs@) =~= before.push((flag, v)));
}

/// Reads a command's arguments.
pub fn read_flags(c: Command, args: &Vec<String>) -> (r: (Vec<Given>, Stop))
    ensures
        (given_views(r.0@), r.1@) == read_from(c, views(args@), 0, Seq::empty()),
{
    let ghost av = views(args@);
    let n: usize = args.len();
    let mut gs: Vec<Given> = Vec::new();
    let mut i: usize = 0;
    assert(given_views(gs@) =~= Seq::<GivenV>::empty());
    while i < n
        invariant
            n == args@.len(),
            av == views(args@),
            i <= n,
            read_from(c, av, 0, Seq::empty()) == read_from(c, av, i as int, given_views(gs@)),
        decreases n - i,
    {
        let a = args[i].as_str();
        assert(av[i as int] == a@);
        if same(a, "--help") || same(a, "-h") {
            return (gs, Stop::Help);
        }
        match find_flag(c, a) {
            None => {
                if c == Command::Ack && !dashed(a) && !has_flag(&gs, Flag::RuleId) {
                    push_given(&mut gs, Flag::RuleId, Some(args[i].clone()));
                    i = i + 1;
                } else {
                    return (gs, Stop::Unknown(args[i].clone()));
                }
            },
            Some(f) => match arity(f) {
                Arity::Zero => {
                    push_given(&mut gs, f, None);
                    i = i + 1;
                },
                Arity::One => {
                    if n - i > 1 {
                        assert(av[i + 1] == args@[i + 1]@);
                        push_given(&mut gs, f, Some(args[i + 1].clone()));
                        i = i + 2;
                    } else {
                        return (gs, Stop::Missing(args[i].clone()));
                    }
                },
                Arity::Optional => {
                    if n - i > 1 && !dashed(args[i + 1].as_str()) {
                        assert(av[i + 1] == args@[i + 1]@);
                        push_given(&mut gs, f, Some(args[i + 1].clone()));
                        i = i + 2;
                    } else {
                        push_given(&mut gs, f, None);
                        i = i + 1;
                    }
                },
            },
        }
    }
    (gs, Stop::End)
}

} // verus!
