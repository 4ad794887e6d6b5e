//! The command line: `key=value` arguments and the choice of subcommand.
use vstd::prelude::*;

use crate::error::CrabaseError;
use crate::expr::translate::{last_value, last_value_exec, pairs_view, strs_view};
use crate::text::{chars_of, str_eq, string_from_chars};

verus! {

/// Index of the first `=` of `s` at or after `k`, if any.
pub open spec fn first_eq(s: Seq<char>, k: int) -> Option<int>
    decreases s.len() - k,
{
    if k < 0 || k >= s.len() {
        None
    } else if s[k] == '=' {
        Some(k)
    } else {
        first_eq(s, k + 1)
    }
}

/// The `key=value` pairs among the arguments, in order: the key is what
/// precedes the first `=`, the value what follows it; other arguments are
/// skipped.
pub open spec fn kv_spec(args: Seq<Seq<char>>) -> Seq<(Seq<char>, Seq<char>)>
    decreases args.len(),
{
    if args.len() == 0 {
        Seq::empty()
    } else {
        let prev = kv_spec(args.drop_last());
        let a = args.last();
        match first_eq(a, 0) {
            Some(i) => prev.push((a.take(i), a.skip(i + 1))),
            None => prev,
        }
    }
}

fn split_kv(arg: &String) -> (r: Option<(String, String)>)
    ensures
        match first_eq(arg@, 0) {
            Some(i) => r matches Some((k, v)) && k@ == arg@.take(i) && v@ == arg@.skip(i + 1),
            None => r is None,
        },
{
    let v = chars_of(arg.as_str());
    let mut i: usize = 0;
    while i < v.len() && v[i] != '='
        invariant
            0 <= i <= v.len(),
            v@ == arg@,
            first_eq(arg@, 0) == first_eq(arg@, i as int),
        decreases v.len() - i,
    {
        i += 1;
    }
    if i == v.len() {
        return None;
    }
    assert(v@.subrange(0, i as int) =~= arg@.take(i as int));
    assert(v@.subrange(i + 1, v.len() as int) =~= arg@.skip(i + 1));
    Some((string_from_chars(&v, 0, i), string_from_chars(&v, i + 1, v.len())))
}

/// The `key=value` pairs among the arguments; where a key repeats, the
/// later pair is the one that [`kv_get`] finds.
pub fn parse_kv_args(args: &Vec<String>) -> (r: Vec<(String, String)>)
    ensures
        pairs_view(r@) == kv_spec(strs_view(args@)),
{
    let ghost av = strs_view(args@);
    let mut out: Vec<(String, String)> = Vec::new();
    let mut i: usize = 0;
    assert(av.take(0) =~= Seq::<Seq<char>>::empty());
    assert(pairs_view(out@) =~= Seq::<(Seq<char>, Seq<char>)>::empty());
    while i < args.len()
        invariant
            0 <= i <= args.len(),
            av == strs_view(args@),
            pairs_view(out@) == kv_spec(av.take(i as int)),
        decreases args.len() - i,
    {
        assert(av.take(i + 1).drop_last() =~= av.take(i as int));
        assert(av.take(i + 1).last() == args@[i as int]@);
        match split_kv(&args[i]) {
            Some(kv) => {
                let ghost before = out@;
                let ghost kvv = (kv.0@, kv.1@);
                out.push(kv);
                assert(pairs_view(out@) =~= pairs_view(before).push(kvv));
            },
            None => {},
        }
        i += 1;
    }
    assert(av.take(args.len() as int) =~= av);
    out
}

/// The value of `key` among parsed arguments (the later one where it repeats).
pub fn kv_get<'a>(kv: &'a Vec<(String, String)>, key: &str) -> (r: Option<&'a String>)
    ensures
        match last_value(pairs_view(kv@), key@) {
            Some(v) => r is Some && r->0@ == v,
            None => r is None,
        },
{
    last_value_exec(kv, key)
}

/// What the command line asks for. A missing vault means the current
/// directory.
#[derive(Debug)]
pub enum Command {
    /// `base:views file=<path> [vault=<root>]`: list the views of a base.
    Views { file: String, vault: Option<String> },
    /// `bases [vault=<root>]`: list the base files of a vault.
    Bases { vault: Option<String> },
    /// `base:query file=<path> [format=csv] [vault=<root>] [view=<name>]`:
    /// run a view and write it as CSV.
    Query { file: String, vault: Option<String>, view: Option<String> },
}

/// Model of a command.
pub enum CommandV {
    Views { file: Seq<char>, vault: Option<Seq<char>> },
    Bases { vault: Option<Seq<char>> },
    Query { file: Seq<char>, vault: Option<Seq<char>>, view: Option<Seq<char>> },
}

/// How a command line is refused.
pub enum CliErr {
    /// A required argument (the subcommand or `file`) is missing.
    Missing(Seq<char>),
    /// An unknown subcommand or an output format other than `csv`, with the
    /// message that says so.
    Unsupported(Seq<char>),
}

/// The message for an unknown subcommand.
pub open spec fn unknown_subcommand_message(sub: Seq<char>) -> Seq<char> {
    "Unknown subcommand: "@ + sub + ". Expected 'base:query', 'base:views', or 'bases'"@
}

/// The message for an output format other than `csv`.
pub open spec fn unsupported_format_message(fmt: Seq<char>) -> Seq<char> {
    "Unsupported format: "@ + fmt + ". Only 'csv' is supported"@
}

/// The command that the arguments (the program name first) ask for.
pub open spec fn command_spec(args: Seq<Seq<char>>) -> Result<CommandV, CliErr> {
    if args.len() < 2 {
        Err(CliErr::Missing("subcommand"@))
    } else {
        let sub = args[1];
        let kv = kv_spec(args.skip(2));
        let vault = last_value(kv, "vault"@);
        if sub == "base:views"@ {
            match last_value(kv, "file"@) {
                None => Err(CliErr::Missing("file"@)),
                Some(f) => Ok(CommandV::Views { file: f, vault }),
            }
        } else if sub == "bases"@ {
            Ok(CommandV::Bases { vault })
        } else if sub != "base:query"@ {
            Err(CliErr::Unsupported(unknown_subcommand_message(sub)))
        } else {
            match last_value(kv, "file"@) {
                None => Err(CliErr::Missing("file"@)),
                Some(f) => match last_value(kv, "format"@) {
                    Some(x) if x != "csv"@ => Err(CliErr::Unsupported(unsupported_format_message(x))),
                    _ => Ok(CommandV::Query { file: f, vault, view: last_value(kv, "view"@) }),
                },
            }
        }
    }
}

pub open spec fn opt_view(o: Option<String>) -> Option<Seq<char>> {
    match o {
        Some(s) => Some(s@),
        None => None,
    }
}

pub open spec fn command_view(c: Command) -> CommandV {
    match c {
        Command::Views { file, vault } => CommandV::Views { file: file@, vault: opt_view(vault) },
        Command::Bases { vault } => CommandV::Bases { vault: opt_view(vault) },
        Command::Query { file, vault, view } => CommandV::Query {
            file: file@,
            vault: opt_view(vault),
            view: opt_view(view),
        },
    }
}

fn opt_clone(o: Option<&String>) -> (r: Option<String>)
    ensures
        opt_view(r) == match o {
            Some(s) => Some(s@),
            None => None,
        },
{
    match o {
        Some(s) => Some(s.clone()),
        None => None,
    }
}

/// Read the command from the arguments (the program name first).
pub fn parse_command(args: &Vec<String>) -> (r: Result<Command, CrabaseError>)
    ensures
        match command_spec(strs_view(args@)) {
            Ok(c) => r is Ok && command_view(r->Ok_0) == c,
            Err(CliErr::Missing(name)) => r matches Err(CrabaseError::MissingArg(n)) && n@ == name,
            Err(CliErr::Unsupported(msg)) => r matches Err(CrabaseError::Query(m)) && m@ == msg,
        },
{
    if args.len() < 2 {
        return Err(CrabaseError::MissingArg(String::from_str("subcommand")));
    }
    let ghost av = strs_view(args@);
    let mut rest: Vec<String> = Vec::new();
    let mut i: usize = 2;
    assert(av.skip(2).take(0) =~= Seq::<Seq<char>>::empty());
    while i < args.len()
        invariant
            2 <= i <= args.len(),
            av == strs_view(args@),
            strs_view(rest@) == av.skip(2).take(i - 2),
        decreases args.len() - i,
    {
        let ghost before = rest@;
        let a = args[i].clone();
        rest.push(a);
        assert(strs_view(rest@) =~= strs_view(before).push(args@[i as int]@));
        assert(av.skip(2).take(i - 1) =~= av.skip(2).take(i - 2).push(av[i as int]));
        i += 1;
    }
    assert(av.skip(2).take(args.len() - 2) =~= av.skip(2));
    let kv = parse_kv_args(&rest);
    let sub = args[1].as_str();
    assert(av[1] == args@[1]@);
    let vault = opt_clone(kv_get(&kv, "vault"));
    if str_eq(sub, "base:views") {
        return match kv_get(&kv, "file") {
            None => Err(CrabaseError::MissingArg(String::from_str("file"))),
            Some(f) => Ok(Command::Views { file: f.clone(), vault }),
        };
    }
    if str_eq(sub, "bases") {
        return Ok(Command::Bases { vault });
    }
    if !str_eq(sub, "base:query") {
        let mut msg = String::from_str("Unknown subcommand: ");
        msg.append(sub);
        msg.append(". Expected 'base:query', 'base:views', or 'bases'");
        return Err(CrabaseError::Query(msg));
    }
    let file = match kv_get(&kv, "file") {
        None => return Err(CrabaseError::MissingArg(String::from_str("file"))),
        Some(f) => f.clone(),
    };
    if let Some(fmt) = kv_get(&kv, "format") {
        if !str_eq(fmt.as_str(), "csv") {
            let mut msg = String::from_str("Unsupported format: ");
            msg.append(fmt.as_str());
            msg.append(". Only 'csv' is supported");
            return Err(CrabaseError::Query(msg));
        }
    }
    let view = opt_clone(kv_get(&kv, "view"));
    Ok(Command::Query { file, vault, view })
}

} // verus!
