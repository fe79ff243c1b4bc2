use vstd::prelude::*;
use crate::text::{chars_eq, str_chars};

verus! {

/// Configuration subcommands.
#[derive(Clone, Copy, Debug, PartialEq, Eq, Structural)]
pub enum ConfigAction {
    Init,
}

/// The commands of the tool, as parsed from the command line.
#[derive(Clone, Debug)]
pub enum Commands {
    Add { description: String, meal_type: String, day: String, cook: String },
    Edit { description: Option<String>, meal_type: String, day: String, cook: Option<String> },
    Remove { meal_type: String, day: String },
    ExportIcal { output: String },
    ExportJson { output: String },
    Sync { source: Option<String> },
    Config { action: ConfigAction },
}

/// A parsed command line: an optional command and an optional storage path.
#[derive(Clone, Debug)]
pub struct Args {
    pub command: Option<Commands>,
    pub path: Option<String>,
}

#[derive(Clone, Copy, Debug, PartialEq, Eq, Structural)]
pub enum CmdKind {
    AddCmd,
    EditCmd,
    RemoveCmd,
    ExportIcalCmd,
    ExportJsonCmd,
    SyncCmd,
}

#[derive(Clone, Copy, Debug, PartialEq, Eq, Structural)]
pub enum FlagName {
    FlagMealType,
    FlagDay,
    FlagCook,
    FlagOutput,
    FlagSource,
}

/// The option values gathered while walking a command's arguments.
#[derive(Clone, Debug)]
pub struct FlagState {
    pub description: Option<String>,
    pub meal_type: Option<String>,
    pub day: Option<String>,
    pub cook: Option<String>,
    pub output: Option<String>,
    pub source: Option<String>,
}

/// Which option name a token is, under the given command's flag set.
pub open spec fn flag_of(kind: CmdKind, t: Seq<char>) -> Option<FlagName> {
    match kind {
        CmdKind::AddCmd | CmdKind::EditCmd => {
            if t == seq!['-', '-', 'm', 'e', 'a', 'l', '-', 't', 'y', 'p', 'e'] || t == seq![
                '-',
                't',
            ] {
                Some(FlagName::FlagMealType)
            } else if t == seq!['-', '-', 'd', 'a', 'y'] || t == seq!['-', 'd'] {
                Some(FlagName::FlagDay)
            } else if t == seq!['-', '-', 'c', 'o', 'o', 'k'] || t == seq!['-', 'c'] {
                Some(FlagName::FlagCook)
            } else {
                None
            }
        },
        CmdKind::RemoveCmd => {
            if t == seq!['-', '-', 'm', 'e', 'a', 'l', '-', 't', 'y', 'p', 'e'] || t == seq![
                '-',
                'm',
            ] {
                Some(FlagName::FlagMealType)
            } else if t == seq!['-', '-', 'd', 'a', 'y'] || t == seq!['-', 'd'] {
                Some(FlagName::FlagDay)
            } else {
                None
            }
        },
        CmdKind::ExportIcalCmd | CmdKind::ExportJsonCmd => {
            if t == seq!['-', '-', 'o', 'u', 't', 'p', 'u', 't'] || t == seq!['-', 'o'] {
                Some(FlagName::FlagOutput)
            } else {
                None
            }
        },
        CmdKind::SyncCmd => {
            if t == seq!['-', '-', 's', 'o', 'u', 'r', 'c', 'e'] || t == seq!['-', 's'] {
                Some(FlagName::FlagSource)
            } else {
                None
            }
        },
    }
}

pub open spec fn allows_positional(kind: CmdKind) -> bool {
    kind == CmdKind::AddCmd || kind == CmdKind::EditCmd
}

pub open spec fn set_flag(st: FlagState, f: FlagName, v: String) -> FlagState {
    match f {
        FlagName::FlagMealType => FlagState {
            description: st.description,
            meal_type: Some(v),
            day: st.day,
            cook: st.cook,
            output: st.output,
            source: st.source,
        },
        FlagName::FlagDay => FlagState {
            description: st.description,
            meal_type: st.meal_type,
            day: Some(v),
            cook: st.cook,
            output: st.output,
            source: st.source,
        },
        FlagName::FlagCook => FlagState {
            description: st.description,
            meal_type: st.meal_type,
            day: st.day,
            cook: Some(v),
            output: st.output,
            source: st.source,
        },
        FlagName::FlagOutput => FlagState {
            description: st.description,
            meal_type: st.meal_type,
            day: st.day,
            cook: st.cook,
            output: Some(v),
            source: st.source,
        },
        FlagName::FlagSource => FlagState {
            description: st.description,
            meal_type: st.meal_type,
            day: st.day,
            cook: st.cook,
            output: st.output,
            source: Some(v),
        },
    }
}

/// Walks a command's arguments: option pairs in any order, plus at most one
/// positional description where the command takes one.
pub open spec fn parse_opts(toks: Seq<String>, pos: int, kind: CmdKind, st: FlagState) -> Option<
    FlagState,
>
    decreases toks.len() - pos,
{
    if pos >= toks.len() {
        Some(st)
    } else {
        let t = toks[pos]@;
        match flag_of(kind, t) {
            Some(f) => {
                if pos + 1 >= toks.len() {
                    None
                } else {
                    parse_opts(toks, pos + 2, kind, set_flag(st, f, toks[pos + 1]))
                }
            },
            None => {
                if t.len() > 0 && t[0] == '-' {
                    None
                } else if allows_positional(kind) && st.description is None {
                    parse_opts(
                        toks,
                        pos + 1,
                        kind,
                        FlagState {
                            description: Some(toks[pos]),
                            meal_type: st.meal_type,
                            day: st.day,
                            cook: st.cook,
                            output: st.output,
                            source: st.source,
                        },
                    )
                } else {
                    None
                }
            },
        }
    }
}

pub open spec fn empty_flags_spec() -> FlagState {
    FlagState {
        description: None,
        meal_type: None,
        day: None,
        cook: None,
        output: None,
        source: None,
    }
}

/// The whole command line: the program name, an optional
/// `--path <dir>` pair, then an optional command with its arguments.
pub open spec fn spec_parse_args(toks: Seq<String>) -> Option<Args> {
    if toks.len() == 0 {
        None
    } else {
        let has_path = toks.len() >= 3 && (toks[1]@ == seq!['-', '-', 'p', 'a', 't', 'h']
            || toks[1]@ == seq!['-', 'p']);
        let path: Option<String> = if has_path {
            Some(toks[2])
        } else {
            None
        };
        let pos: int = if has_path {
            3
        } else {
            1
        };
        if pos >= toks.len() {
            Some(Args { command: None, path })
        } else {
            let c = toks[pos]@;
            if c == seq!['a', 'd', 'd'] {
                match parse_opts(toks, pos + 1, CmdKind::AddCmd, empty_flags_spec()) {
                    Some(st) => {
                        if st.description is Some && st.meal_type is Some && st.day is Some
                            && st.cook is Some {
                            Some(
                                Args {
                                    command: Some(
                                        Commands::Add {
                                            description: st.description->0,
                                            meal_type: st.meal_type->0,
                                            day: st.day->0,
                                            cook: st.cook->0,
                                        },
                                    ),
                                    path,
                                },
                            )
                        } else {
                            None
                        }
                    },
                    None => None,
                }
            } else if c == seq!['e', 'd', 'i', 't'] {
                match parse_opts(toks, pos + 1, CmdKind::EditCmd, empty_flags_spec()) {
                    Some(st) => {
                        if st.meal_type is Some && st.day is Some {
                            Some(
                                Args {
                                    command: Some(
                                        Commands::Edit {
                                            description: st.description,
                                            meal_type: st.meal_type->0,
                                            day: st.day->0,
                                            cook: st.cook,
                                        },
                                    ),
                                    path,
                                },
                            )
                        } else {
                            None
                        }
                    },
                    None => None,
                }
            } else if c == seq!['r', 'e', 'm', 'o', 'v', 'e'] {
                match parse_opts(toks, pos + 1, CmdKind::RemoveCmd, empty_flags_spec()) {
                    Some(st) => {
                        if st.meal_type is Some && st.day is Some {
                            Some(
                                Args {
                                    command: Some(
                                        Commands::Remove {
                                            meal_type: st.meal_type->0,
                                            day: st.day->0,
                                        },
                                    ),
                                    path,
                                },
                            )
                        } else {
                            None
                        }
                    },
                    None => None,
                }
            } else if c == seq!['e', 'x', 'p', 'o', 'r', 't', '-', 'i', 'c', 'a', 'l'] {
                match parse_opts(toks, pos + 1, CmdKind::ExportIcalCmd, empty_flags_spec()) {
                    Some(st) => {
                        if st.output is Some {
                            Some(
                                Args {
                                    command: Some(Commands::ExportIcal { output: st.output->0 }),
                                    path,
                                },
                            )
                        } else {
                            None
                        }
                    },
                    None => None,
                }
            } else if c == seq!['e', 'x', 'p', 'o', 'r', 't', '-', 'j', 's', 'o', 'n'] {
                match parse_opts(toks, pos + 1, CmdKind::ExportJsonCmd, empty_flags_spec()) {
                    Some(st) => {
                        if st.output is Some {
                            Some(
                                Args {
                                    command: Some(Commands::ExportJson { output: st.output->0 }),
                                    path,
                                },
                            )
                        } else {
                            None
                        }
                    },
                    None => None,
                }
            } else if c == seq!['s', 'y', 'n', 'c'] {
                match parse_opts(toks, pos + 1, CmdKind::SyncCmd, empty_flags_spec()) {
                    Some(st) => Some(
                        Args { command: Some(Commands::Sync { source: st.source }), path },
                    ),
                    None => None,
                }
            } else if c == seq!['c', 'o', 'n', 'f', 'i', 'g'] {
                if toks.len() == pos + 2 && toks[pos + 1]@ == seq!['i', 'n', 'i', 't'] {
                    Some(
                        Args {
                            command: Some(Commands::Config { action: ConfigAction::Init }),
                            path,
                        },
                    )
                } else {
                    None
                }
            } else {
                None
            }
        }
    }
}

fn clone_opt_string(o: &Option<String>) -> (r: Option<String>)
    ensures
        r == *o,
{
    match o {
        Some(s) => Some(s.clone()),
        None => None,
    }
}

fn clone_flag_state(st: &FlagState) -> (r: FlagState)
    ensures
        r == *st,
{
    FlagState {
        description: clone_opt_string(&st.description),
        meal_type: clone_opt_string(&st.meal_type),
        day: clone_opt_string(&st.day),
        cook: clone_opt_string(&st.cook),
        output: clone_opt_string(&st.output),
        source: clone_opt_string(&st.source),
    }
}

/// Does the string hold exactly these characters?
fn text_is(s: &String, tok: &Vec<char>) -> (r: bool)
    ensures
        r == (s@ == tok@),
{
    chars_eq(&str_chars(s.as_str()), tok)
}

fn flag_of_x(kind: CmdKind, t: &String) -> (r: Option<FlagName>)
    ensures
        r == flag_of(kind, t@),
{
    match kind {
        CmdKind::AddCmd | CmdKind::EditCmd => {
            if text_is(t, &vec!['-', '-', 'm', 'e', 'a', 'l', '-', 't', 'y', 'p', 'e']) || text_is(
                t,
                &vec!['-', 't'],
            ) {
                Some(FlagName::FlagMealType)
            } else if text_is(t, &vec!['-', '-', 'd', 'a', 'y']) || text_is(t, &vec!['-', 'd']) {
                Some(FlagName::FlagDay)
            } else if text_is(t, &vec!['-', '-', 'c', 'o', 'o', 'k']) || text_is(
                t,
                &vec!['-', 'c'],
            ) {
                Some(FlagName::FlagCook)
            } else {
                None
            }
        },
        CmdKind::RemoveCmd => {
            if text_is(t, &vec!['-', '-', 'm', 'e', 'a', 'l', '-', 't', 'y', 'p', 'e']) || text_is(
                t,
                &vec!['-', 'm'],
            ) {
                Some(FlagName::FlagMealType)
            } else if text_is(t, &vec!['-', '-', 'd', 'a', 'y']) || text_is(t, &vec!['-', 'd']) {
                Some(FlagName::FlagDay)
            } else {
                None
            }
        },
        CmdKind::ExportIcalCmd | CmdKind::ExportJsonCmd => {
            if text_is(t, &vec!['-', '-', 'o', 'u', 't', 'p', 'u', 't']) || text_is(
                t,
                &vec!['-', 'o'],
            ) {
                Some(FlagName::FlagOutput)
            } else {
                None
            }
        },
        CmdKind::SyncCmd => {
            if text_is(t, &vec!['-', '-', 's', 'o', 'u', 'r', 'c', 'e']) || text_is(
                t,
                &vec!['-', 's'],
            ) {
                Some(FlagName::FlagSource)
            } else {
                None
            }
        },
    }
}

fn set_flag_x(st: FlagState, f: FlagName, v: String) -> (r: FlagState)
    ensures
        r == set_flag(st, f, v),
{
    match f {
        FlagName::FlagMealType => FlagState {
            description: st.description,
            meal_type: Some(v),
            day: st.day,
            cook: st.cook,
            output: st.output,
            source: st.source,
        },
        FlagName::FlagDay => FlagState {
            description: st.description,
            meal_type: st.meal_type,
            day: Some(v),
            cook: st.cook,
            output: st.output,
            source: st.source,
        },
        FlagName::FlagCook => FlagState {
            description: st.description,
            meal_type: st.meal_type,
            day: st.day,
            cook: Some(v),
            output: st.output,
            source: st.source,
        },
        FlagName::FlagOutput => FlagState {
            description: st.description,
            meal_type: st.meal_type,
            day: st.day,
            cook: st.cook,
            output: Some(v),
            source: st.source,
        },
        FlagName::FlagSource => FlagState {
            description: st.description,
            meal_type: st.meal_type,
            day: st.day,
            cook: st.cook,
            output: st.output,
            source: Some(v),
        },
    }
}

fn parse_opts_x(args: &Vec<String>, pos: usize, kind: CmdKind, st0: &FlagState) -> (r: Option<
    FlagState,
>)
    ensures
        r == parse_opts(args@, pos as int, kind, *st0),
{
    let nlen: usize = args.len();
    let mut p: usize = pos;
    let mut st: FlagState = clone_flag_state(st0);
    loop
        invariant
            nlen == args@.len(),
            pos <= p,
            parse_opts(args@, pos as int, kind, *st0) == parse_opts(args@, p as int, kind, st),
        decreases args@.len() + 2 - p,
    {
        if p >= nlen {
            return Some(st);
        }
        let f = flag_of_x(kind, &args[p]);
        match f {
            Some(fl) => {
                if p + 1 >= nlen {
                    return None;
                }
                let val = args[p + 1].clone();
                proof {
                    assert(val == args@[p + 1]);
                }
                st = set_flag_x(st, fl, val);
                p = p + 2;
            },
            None => {
                let tc = str_chars(args[p].as_str());
                if tc.len() > 0 && tc[0] == '-' {
                    return None;
                }
                let positional_ok: bool = match kind {
                    CmdKind::AddCmd | CmdKind::EditCmd => true,
                    _ => false,
                };
                if positional_ok && st.description.is_none() {
                    let v = args[p].clone();
                    proof {
                        assert(v == args@[p as int]);
                    }
                    let FlagState { description: _, meal_type, day, cook, output, source } = st;
                    st = FlagState {
                        description: Some(v),
                        meal_type,
                        day,
                        cook,
                        output,
                        source,
                    };
                    p = p + 1;
                } else {
                    return None;
                }
            },
        }
    }
}

fn empty_flags() -> (r: FlagState)
    ensures
        r == empty_flags_spec(),
{
    FlagState {
        description: None,
        meal_type: None,
        day: None,
        cook: None,
        output: None,
        source: None,
    }
}

impl Args {
    /// Parses a command line, the program name first, as the tool's grammar
    /// reads it. An unparsable line gives None.
    pub fn parse_from(args: &Vec<String>) -> (r: Option<Args>)
        ensures
            r == spec_parse_args(args@),
    {
        let nlen: usize = args.len();
        if nlen == 0 {
            return None;
        }
        let has_path: bool = nlen >= 3 && (text_is(&args[1], &vec!['-', '-', 'p', 'a', 't', 'h'])
            || text_is(&args[1], &vec!['-', 'p']));
        let path: Option<String> = if has_path {
            Some(args[2].clone())
        } else {
            None
        };
        proof {
            if has_path {
                assert(path->0 == args@[2]);
            }
        }
        let pos: usize = if has_path {
            3
        } else {
            1
        };
        if pos >= nlen {
            return Some(Args { command: None, path });
        }
        let c = &args[pos];
        if text_is(c, &vec!['a', 'd', 'd']) {
            match parse_opts_x(args, pos + 1, CmdKind::AddCmd, &empty_flags()) {
                Some(st) => {
                    match (st.description, st.meal_type, st.day, st.cook) {
                        (Some(de), Some(mt), Some(dy), Some(ck)) => Some(
                            Args {
                                command: Some(
                                    Commands::Add {
                                        description: de,
                                        meal_type: mt,
                                        day: dy,
                                        cook: ck,
                                    },
                                ),
                                path,
                            },
                        ),
                        _ => None,
                    }
                },
                None => None,
            }
        } else if text_is(c, &vec!['e', 'd', 'i', 't']) {
            match parse_opts_x(args, pos + 1, CmdKind::EditCmd, &empty_flags()) {
                Some(st) => {
                    match (st.meal_type, st.day) {
                        (Some(mt), Some(dy)) => Some(
                            Args {
                                command: Some(
                                    Commands::Edit {
                                        description: st.description,
                                        meal_type: mt,
                                        day: dy,
                                        cook: st.cook,
                                    },
                                ),
                                path,
                            },
                        ),
                        _ => None,
                    }
                },
                None => None,
            }
        } else if text_is(c, &vec!['r', 'e', 'm', 'o', 'v', 'e']) {
            match parse_opts_x(args, pos + 1, CmdKind::RemoveCmd, &empty_flags()) {
                Some(st) => {
                    match (st.meal_type, st.day) {
                        (Some(mt), Some(dy)) => Some(
                            Args {
                                command: Some(Commands::Remove { meal_type: mt, day: dy }),
                                path,
                            },
                        ),
                        _ => None,
                    }
                },
                None => None,
            }
        } else if text_is(c, &vec!['e', 'x', 'p', 'o', 'r', 't', '-', 'i', 'c', 'a', 'l']) {
            match parse_opts_x(args, pos + 1, CmdKind::ExportIcalCmd, &empty_flags()) {
                Some(st) => {
                    match st.output {
                        Some(o) => Some(
                            Args { command: Some(Commands::ExportIcal { output: o }), path },
                        ),
                        None => None,
                    }
                },
                None => None,
            }
        } else if text_is(c, &vec!['e', 'x', 'p', 'o', 'r', 't', '-', 'j', 's', 'o', 'n']) {
            match parse_opts_x(args, pos + 1, CmdKind::ExportJsonCmd, &empty_flags()) {
                Some(st) => {
                    match st.output {
                        Some(o) => Some(
                            Args { command: Some(Commands::ExportJson { output: o }), path },
                        ),
                        None => None,
                    }
                },
                None => None,
            }
        } else if text_is(c, &vec!['s', 'y', 'n', 'c']) {
            match parse_opts_x(args, pos + 1, CmdKind::SyncCmd, &empty_flags()) {
                Some(st) => Some(Args { command: Some(Commands::Sync { source: st.source }), path }),
                None => None,
            }
        } else if text_is(c, &vec!['c', 'o', 'n', 'f', 'i', 'g']) {
            if nlen == pos + 2 && text_is(&args[pos + 1], &vec!['i', 'n', 'i', 't']) {
                Some(Args { command: Some(Commands::Config { action: ConfigAction::Init }), path })
            } else {
                None
            }
        } else {
            None
        }
    }
}

} // verus!
