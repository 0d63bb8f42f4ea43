//! Command line arguments: `--name value` options, flags and the subcommand.

use vstd::prelude::*;
use vstd::slice::*;
use vstd::string::*;
use crate::text;

verus! {

/// Strings as contracts speak of them.
pub open spec fn views(strings: Seq<String>) -> Seq<Seq<char>> {
    strings.map_values(|s: String| s@)
}

/// An optional string as contracts speak of it.
pub open spec fn opt_view(s: Option<String>) -> Option<Seq<char>> {
    match s {
        Some(s) => Some(s@),
        None => None,
    }
}

/// What follows the first occurrence of `name`, if it occurs and anything follows.
pub open spec fn option_value(args: Seq<Seq<char>>, name: Seq<char>) -> Option<Seq<char>>
    decreases args.len(),
{
    if args.len() == 0 {
        None
    } else if args[0] == name {
        if args.len() > 1 {
            Some(args[1])
        } else {
            None
        }
    } else {
        option_value(args.drop_first(), name)
    }
}

/// What follows each occurrence of `name`, in order.
pub open spec fn option_values(args: Seq<Seq<char>>, name: Seq<char>) -> Seq<Seq<char>>
    decreases args.len(),
{
    if args.len() == 0 {
        Seq::empty()
    } else if args[0] == name && args.len() > 1 {
        seq![args[1]] + option_values(args.drop_first(), name)
    } else {
        option_values(args.drop_first(), name)
    }
}

/// The value of an option given once.
pub fn opt(args: &[String], name: &str) -> (r: Option<String>)
    ensures
        opt_view(r) == option_value(views(args@), name@),
{
    let ghost a = views(args@);
    let mut i: usize = 0;
    assert(a.skip(0) =~= a);
    while i < args.len()
        invariant
            a == views(args@),
            i <= args@.len(),
            option_value(a, name@) == option_value(a.skip(i as int), name@),
        decreases args@.len() - i,
    {
        assert(a.skip(i as int)[0] == args@[i as int]@);
        if text::str_eq(args[i].as_str(), name) {
            if i + 1 < args.len() {
                assert(a.skip(i as int)[1] == args@[i + 1]@);
                return Some(args[i + 1].clone());
            }
            return None;
        }
        assert(a.skip(i as int).drop_first() =~= a.skip(i + 1));
        i = i + 1;
    }
    None
}

/// The values of an option that may be given again and again.
pub fn opt_all(args: &[String], name: &str) -> (r: Vec<String>)
    ensures
        views(r@) == option_values(views(args@), name@),
{
    let ghost a = views(args@);
    let mut out: Vec<String> = Vec::new();
    let mut i: usize = 0;
    assert(a.skip(0) =~= a);
    assert(views(out@) + option_values(a, name@) =~= option_values(a, name@));
    while i < args.len()
        invariant
            a == views(args@),
            i <= args@.len(),
            option_values(a, name@) == views(out@) + option_values(a.skip(i as int), name@),
        decreases args@.len() - i,
    {
        let ghost rest = option_values(a.skip(i + 1), name@);
        let ghost before = out@;
        assert(a.skip(i as int)[0] == args@[i as int]@);
        assert(a.skip(i as int).drop_first() =~= a.skip(i + 1));
        if text::str_eq(args[i].as_str(), name) && i + 1 < args.len() {
            assert(a.skip(i as int)[1] == args@[i + 1]@);
            let value = args[i + 1].clone();
            out.push(value);
            assert(views(before) + (seq![value@] + rest) =~= views(out@) + rest);
        }
        i = i + 1;
    }
    assert(option_values(a.skip(i as int), name@) =~= Seq::empty());
    assert(views(out@) + Seq::empty() =~= views(out@));
    out
}

/// Whether a flag is given.
pub fn flag(args: &[String], name: &str) -> (r: bool)
    ensures
        r == views(args@).contains(name@),
{
    let ghost a = views(args@);
    let mut i: usize = 0;
    while i < args.len()
        invariant
            a == views(args@),
            i <= args@.len(),
            forall|j: int| 0 <= j < i ==> a[j] != name@,
        decreases args@.len() - i,
    {
        assert(a[i as int] == args@[i as int]@);
        if text::str_eq(args[i].as_str(), name) {
            return true;
        }
        i = i + 1;
    }
    false
}

/// The subcommands.
#[derive(Debug, Clone, PartialEq, Eq)]
pub enum Command {
    Genkey,
    Serve,
    Push,
    Help,
    Unknown,
}

/// The subcommand that the arguments, the program's own name left out, begin with.
pub open spec fn command_of(args: Seq<Seq<char>>) -> Command {
    if args.len() == 0 {
        Command::Help
    } else if args[0] == "genkey"@ {
        Command::Genkey
    } else if args[0] == "serve"@ {
        Command::Serve
    } else if args[0] == "push"@ {
        Command::Push
    } else if args[0] == "-h"@ || args[0] == "--help"@ || args[0] == "help"@ {
        Command::Help
    } else {
        Command::Unknown
    }
}

/// Which subcommand is asked for. Without one, help is.
pub fn command(args: &[String]) -> (r: Command)
    ensures
        r == command_of(views(args@)),
{
    if args.len() == 0 {
        return Command::Help;
    }
    assert(views(args@)[0] == args@[0]@);
    let first = args[0].as_str();
    if text::str_eq(first, "genkey") {
        Command::Genkey
    } else if text::str_eq(first, "serve") {
        Command::Serve
    } else if text::str_eq(first, "push") {
        Command::Push
    } else if text::str_eq(first, "-h") || text::str_eq(first, "--help") || text::str_eq(
        first,
        "help",
    ) {
        Command::Help
    } else {
        Command::Unknown
    }
}

/// Where `genkey` writes: the value of `--out` or, where `--out` is not given, a first argument
/// that is no option.
pub open spec fn genkey_path(args: Seq<Seq<char>>) -> Option<Seq<char>> {
    if args.contains("--out"@) {
        option_value(args, "--out"@)
    } else if args.len() > 0 && !is_option(args[0]) {
        Some(args[0])
    } else {
        None
    }
}

/// Whether an argument is an option or a flag: it starts with a dash.
pub open spec fn is_option(arg: Seq<char>) -> bool {
    arg.len() > 0 && arg[0] == '-'
}

/// Where `genkey` is asked to write the private key.
pub fn genkey_out(args: &[String]) -> (r: Option<String>)
    ensures
        opt_view(r) == genkey_path(views(args@)),
{
    if flag(args, "--out") {
        return opt(args, "--out");
    }
    if args.len() == 0 {
        return None;
    }
    assert(views(args@)[0] == args@[0]@);
    let first = text::chars_of(args[0].as_str());
    if first.len() > 0 && first[0] == '-' {
        None
    } else {
        Some(args[0].clone())
    }
}

/// The value of an option is what stands behind the first place where its name does; there is none
/// if the name does not occur, or first occurs at the end.
pub proof fn law_option_value_follows_its_name(
    before: Seq<Seq<char>>,
    name: Seq<char>,
    after: Seq<Seq<char>>,
)
    requires
        !before.contains(name),
    ensures
        option_value(before, name) is None,
        option_value(before + seq![name] + after, name) == if after.len() > 0 {
            Some(after[0])
        } else {
            None
        },
    decreases before.len(),
{
    let all = before + seq![name] + after;
    if before.len() > 0 {
        let rest = before.drop_first();
        assert(before.contains(before[0]));
        assert forall|i: int| 0 <= i < rest.len() implies #[trigger] rest[i] != name by {
            assert(before.contains(before[i + 1]));
        }
        law_option_value_follows_its_name(rest, name, after);
        assert(all.drop_first() =~= rest + seq![name] + after);
    } else if after.len() > 0 {
        assert(all[1] == after[0]);
    }
}

/// One more argument adds a value exactly if the name stands right before it, and then it is that
/// argument, after all the others.
pub proof fn law_option_values_in_order(args: Seq<Seq<char>>, name: Seq<char>, x: Seq<char>)
    ensures
        option_values(Seq::<Seq<char>>::empty(), name) == Seq::<Seq<char>>::empty(),
        option_values(args.push(x), name) == if args.len() > 0 && args.last() == name {
            option_values(args, name).push(x)
        } else {
            option_values(args, name)
        },
    decreases args.len(),
{
    let all = args.push(x);
    let none = Seq::<Seq<char>>::empty();
    assert(option_values(none, name) =~= none);
    if args.len() == 0 {
        assert(all.drop_first() =~= none);
        assert(args =~= none);
    } else {
        let rest = args.drop_first();
        assert(all.drop_first() =~= rest.push(x));
        law_option_values_in_order(rest, name, x);
        if args.len() == 1 {
            assert(rest =~= none);
            assert(option_values(args, name) =~= none);
            if args[0] == name {
                assert(option_values(all, name) =~= none.push(x));
            }
        } else {
            assert(rest.last() == args.last());
            assert(all[1] == args[1]);
            assert(option_values(all, name) =~= if args.last() == name {
                option_values(args, name).push(x)
            } else {
                option_values(args, name)
            });
        }
    }
}

/// The first argument alone decides the subcommand: three words for three commands, three for help,
/// as for no argument, and any other word for none.
pub proof fn law_first_word_is_the_command(first: Seq<char>, rest: Seq<Seq<char>>)
    ensures
        command_of(Seq::<Seq<char>>::empty()) == Command::Help,
        ({
            let c = command_of(seq![first] + rest);
            &&& first == "genkey"@ ==> c == Command::Genkey
            &&& first == "serve"@ ==> c == Command::Serve
            &&& first == "push"@ ==> c == Command::Push
            &&& first == "help"@ || first == "-h"@ || first == "--help"@ ==> c == Command::Help
            &&& c == Command::Unknown <==> first != "genkey"@ && first != "serve"@ && first
                != "push"@ && first != "help"@ && first != "-h"@ && first != "--help"@
        }),
{
    let args = seq![first] + rest;
    assert(args[0] == first);
    reveal_strlit("genkey");
    reveal_strlit("serve");
    reveal_strlit("push");
    reveal_strlit("help");
    reveal_strlit("-h");
    reveal_strlit("--help");
    assert("genkey"@.len() == 6 && "serve"@.len() == 5 && "push"@.len() == 4 && "help"@.len() == 4
        && "-h"@.len() == 2 && "--help"@.len() == 6);
    assert("push"@[0] != "help"@[0]);
    assert("genkey"@[0] != "--help"@[0]);
}

/// `genkey` writes where `--out` says; where it is not given, to its first argument, unless that
/// starts with a dash.
pub proof fn law_genkey_path(first: Seq<char>, rest: Seq<Seq<char>>)
    ensures
        genkey_path(Seq::<Seq<char>>::empty()) is None,
        (seq![first] + rest).contains("--out"@) ==> genkey_path(seq![first] + rest) == option_value(
            seq![first] + rest,
            "--out"@,
        ),
        !(seq![first] + rest).contains("--out"@) ==> genkey_path(seq![first] + rest) == if first.len()
            > 0 && first[0] == '-' {
            None
        } else {
            Some(first)
        },
{
    let none = Seq::<Seq<char>>::empty();
    assert(!none.contains("--out"@));
    assert((seq![first] + rest)[0] == first);
}

} // verus!
