//! The command line: a debug switch, a profile to load and the directory
//! that holds the profiles.

use vstd::prelude::*;
use vstd::string::StrSliceExecFns;
use crate::text::{starts_with, str_eq};

verus! {

/// The settings read from the command line.
#[derive(Debug, Clone)]
pub struct CLI {
    pub dbg: bool,
    pub profile: Option<String>,
    pub output_profiles_path: String,
}

/// The settings of the command line as plain values: the debug switch, the
/// profile to load and the profiles directory.
pub type CliState = (bool, Option<Seq<char>>, Seq<char>);

/// Whether `a` begins with the characters of `p`.
pub open spec fn has_prefix(a: Seq<char>, p: Seq<char>) -> bool {
    p.len() <= a.len() && a.subrange(0, p.len() as int) == p
}

/// Whether an argument asks for debug mode.
pub open spec fn is_debug_arg(a: Seq<char>) -> bool {
    a == "-d"@ || a == "--debug"@ || a == " --DEBUG"@ || a == "-D"@
}

/// Whether an argument asks for help.
pub open spec fn is_help_arg(a: Seq<char>) -> bool {
    a == "-h"@ || a == "--help"@ || a == " --HELP"@ || a == "-H"@
}

/// The prefix under which an argument names the profile to load, if any.
pub open spec fn profile_prefix(a: Seq<char>) -> Option<Seq<char>> {
    if has_prefix(a, "--profile="@) {
        Some("--profile="@)
    } else if has_prefix(a, "-p="@) {
        Some("-p="@)
    } else {
        None
    }
}

/// The prefix under which an argument names the profiles directory, if any.
pub open spec fn db_prefix(a: Seq<char>) -> Option<Seq<char>> {
    if has_prefix(a, "--db_path="@) {
        Some("--db_path="@)
    } else if has_prefix(a, "-db="@) {
        Some("-db="@)
    } else {
        None
    }
}

/// What reading the arguments `args`, from the settings `st`, leaves: the
/// settings, and whether help was asked for. Arguments are read in order;
/// a help request, or an argument that is none of the known forms, stops the
/// reading and asks for help.
pub open spec fn parse_outcome(st: CliState, args: Seq<Seq<char>>) -> (CliState, bool)
    decreases args.len(),
{
    if args.len() == 0 {
        (st, false)
    } else {
        let a = args[0];
        let rest = args.drop_first();
        if is_debug_arg(a) {
            parse_outcome((true, st.1, st.2), rest)
        } else if is_help_arg(a) {
            (st, true)
        } else if let Some(p) = profile_prefix(a) {
            parse_outcome((st.0, Some(a.subrange(p.len() as int, a.len() as int)), st.2), rest)
        } else if let Some(p) = db_prefix(a) {
            parse_outcome((st.0, st.1, a.subrange(p.len() as int, a.len() as int)), rest)
        } else {
            (st, true)
        }
    }
}

/// Reading a list that begins with `a` reads `a` first and then the rest.
proof fn lemma_parse_first(st: CliState, a: Seq<char>, rest: Seq<Seq<char>>)
    ensures
        ({
            let args = seq![a] + rest;
            &&& args.len() > 0
            &&& args[0] == a
            &&& args.drop_first() == rest
        }),
{
    assert((seq![a] + rest).drop_first() =~= rest);
}

/// The first characters of a prefixed argument are those of the prefix.
proof fn lemma_prefixed(p: Seq<char>, v: Seq<char>)
    ensures
        has_prefix(p + v, p),
        forall|i: int| 0 <= i < p.len() ==> #[trigger] (p + v)[i] == p[i],
        (p + v).len() == p.len() + v.len(),
        (p + v).subrange(p.len() as int, (p + v).len() as int) == v,
{
    assert((p + v).subrange(0, p.len() as int) =~= p);
    assert((p + v).subrange(p.len() as int, (p + v).len() as int) =~= v);
}

/// Each help argument stops the reading and asks for help, leaving the
/// settings as they were, whatever follows it.
pub proof fn lemma_help_args(st: CliState, rest: Seq<Seq<char>>)
    ensures
        parse_outcome(st, seq!["-h"@] + rest) == (st, true),
        parse_outcome(st, seq!["--help"@] + rest) == (st, true),
        parse_outcome(st, seq![" --HELP"@] + rest) == (st, true),
        parse_outcome(st, seq!["-H"@] + rest) == (st, true),
{
    reveal_strlit("-d");
    reveal_strlit("--debug");
    reveal_strlit(" --DEBUG");
    reveal_strlit("-D");
    reveal_strlit("-h");
    reveal_strlit("--help");
    reveal_strlit(" --HELP");
    reveal_strlit("-H");
    lemma_parse_first(st, "-h"@, rest);
    lemma_parse_first(st, "--help"@, rest);
    lemma_parse_first(st, " --HELP"@, rest);
    lemma_parse_first(st, "-H"@, rest);
    assert("-h"@[1] != "-d"@[1]);
    assert("-h"@[1] != "-D"@[1]);
    assert("--help"@.len() != "--debug"@.len());
    assert("--help"@.len() != " --DEBUG"@.len());
    assert(" --HELP"@[3] != " --DEBUG"@[3]);
    assert(" --HELP"@[0] != "--debug"@[0]);
    assert("-H"@[1] != "-d"@[1]);
    assert("-H"@[1] != "-D"@[1]);
}

/// Each debug argument switches debug mode on, changes nothing else, and the
/// reading goes on with the rest.
pub proof fn lemma_debug_args(st: CliState, rest: Seq<Seq<char>>)
    ensures
        parse_outcome(st, seq!["-d"@] + rest) == parse_outcome((true, st.1, st.2), rest),
        parse_outcome(st, seq!["--debug"@] + rest) == parse_outcome((true, st.1, st.2), rest),
        parse_outcome(st, seq![" --DEBUG"@] + rest) == parse_outcome((true, st.1, st.2), rest),
        parse_outcome(st, seq!["-D"@] + rest) == parse_outcome((true, st.1, st.2), rest),
{
    lemma_parse_first(st, "-d"@, rest);
    lemma_parse_first(st, "--debug"@, rest);
    lemma_parse_first(st, " --DEBUG"@, rest);
    lemma_parse_first(st, "-D"@, rest);
}

/// An argument `--profile=v` or `-p=v` names the profile `v`, and one
/// `--db_path=v` or `-db=v` the profiles directory `v`; nothing else changes,
/// and the reading goes on with the rest.
pub proof fn lemma_value_args(st: CliState, v: Seq<char>, rest: Seq<Seq<char>>)
    ensures
        parse_outcome(st, seq!["--profile="@ + v] + rest) == parse_outcome((st.0, Some(v), st.2), rest),
        parse_outcome(st, seq!["-p="@ + v] + rest) == parse_outcome((st.0, Some(v), st.2), rest),
        parse_outcome(st, seq!["--db_path="@ + v] + rest) == parse_outcome((st.0, st.1, v), rest),
        parse_outcome(st, seq!["-db="@ + v] + rest) == parse_outcome((st.0, st.1, v), rest),
{
    reveal_strlit("-d");
    reveal_strlit("--debug");
    reveal_strlit(" --DEBUG");
    reveal_strlit("-D");
    reveal_strlit("-h");
    reveal_strlit("--help");
    reveal_strlit(" --HELP");
    reveal_strlit("-H");
    reveal_strlit("--profile=");
    reveal_strlit("-p=");
    reveal_strlit("--db_path=");
    reveal_strlit("-db=");
    let a1 = "--profile="@ + v;
    let a2 = "-p="@ + v;
    let a3 = "--db_path="@ + v;
    let a4 = "-db="@ + v;
    lemma_prefixed("--profile="@, v);
    lemma_prefixed("-p="@, v);
    lemma_prefixed("--db_path="@, v);
    lemma_prefixed("-db="@, v);
    lemma_parse_first(st, a1, rest);
    lemma_parse_first(st, a2, rest);
    lemma_parse_first(st, a3, rest);
    lemma_parse_first(st, a4, rest);
    // the profile arguments are no debug or help argument
    assert(a1[9] == '=' && a1.len() >= 10);
    assert(a2[1] == 'p' && a2[2] == '=');
    assert(a3[2] == 'd' && a3[9] == '=' && a3.len() >= 10);
    assert(a4[1] == 'd' && a4[3] == '=');
    assert(!is_debug_arg(a1) && !is_help_arg(a1));
    assert(!is_debug_arg(a2) && !is_help_arg(a2));
    assert(profile_prefix(a2) == Some("-p="@)) by {
        assert(!has_prefix(a2, "--profile="@)) by {
            if has_prefix(a2, "--profile="@) {
                assert(a2.subrange(0, 10)[1] == a2[1]);
            }
        }
    }
    assert(!is_debug_arg(a3) && !is_help_arg(a3));
    assert(profile_prefix(a3) is None) by {
        if has_prefix(a3, "--profile="@) {
            assert(a3.subrange(0, 10)[2] == a3[2]);
        }
        if has_prefix(a3, "-p="@) {
            assert(a3.subrange(0, 3)[1] == a3[1]);
        }
    }
    assert(!is_debug_arg(a4) && !is_help_arg(a4)) by {
        if a4 == "-d"@ || a4 == "-D"@ || a4 == "-h"@ || a4 == "-H"@ {
            assert(a4.len() >= 4);
        }
        if a4 == "--debug"@ || a4 == " --DEBUG"@ || a4 == "--help"@ || a4 == " --HELP"@ {
            assert(a4[1] == 'd');
        }
    }
    assert(profile_prefix(a4) is None) by {
        if has_prefix(a4, "--profile="@) {
            assert(a4.subrange(0, 10)[1] == a4[1]);
        }
        if has_prefix(a4, "-p="@) {
            assert(a4.subrange(0, 3)[1] == a4[1]);
        }
    }
    assert(db_prefix(a4) == Some("-db="@)) by {
        if has_prefix(a4, "--db_path="@) {
            assert(a4.subrange(0, 10)[1] == a4[1]);
        }
    }
}

impl CLI {
    /// The settings as plain values.
    pub open spec fn state(&self) -> CliState {
        (
            self.dbg,
            match self.profile {
                Some(s) => Some(s@),
                None => None,
            },
            self.output_profiles_path@,
        )
    }

    /// The default settings: no debug mode, no profile, and the profiles
    /// directory `.Eqfiles/`.
    pub fn new() -> (r: Self)
        ensures
            r.state() == (false, None::<Seq<char>>, ".Eqfiles/"@),
    {
        CLI { dbg: false, profile: None, output_profiles_path: ".Eqfiles/".to_owned() }
    }

    /// Reads the command-line arguments (without the program name) into the
    /// settings; tells whether help was asked for, in which case the caller
    /// prints the help and leaves.
    #[allow(non_snake_case)]
    pub fn Parse_Args(&mut self, args: &Vec<String>) -> (help: bool)
        ensures
            (final(self).state(), help) == parse_outcome(old(self).state(), args@.map_values(|s: String| s@)),
    {
        let ghost all = args@.map_values(|s: String| s@);
        let mut i: usize = 0;
        proof {
            assert(all.skip(0) =~= all);
        }
        while i < args.len()
            invariant
                i <= args@.len(),
                all == args@.map_values(|s: String| s@),
                parse_outcome(self.state(), all.skip(i as int)) == parse_outcome(old(self).state(), all),
            decreases args@.len() - i,
        {
            let arg = args[i].as_str();
            let ghost rest = all.skip(i as int + 1);
            proof {
                assert(all.skip(i as int)[0] == arg@);
                assert(all.skip(i as int).drop_first() =~= rest);
                reveal_strlit("--profile=");
                reveal_strlit("-p=");
                reveal_strlit("--db_path=");
                reveal_strlit("-db=");
            }
            if str_eq(arg, "-d") || str_eq(arg, "--debug") || str_eq(arg, " --DEBUG") || str_eq(arg, "-D") {
                self.dbg = true;
            } else if str_eq(arg, "-h") || str_eq(arg, "--help") || str_eq(arg, " --HELP") || str_eq(arg, "-H") {
                return true;
            } else if starts_with(arg, "--profile=") {
                self.profile = Some(arg.substring_char(10, arg.unicode_len()).to_owned());
            } else if starts_with(arg, "-p=") {
                self.profile = Some(arg.substring_char(3, arg.unicode_len()).to_owned());
            } else if starts_with(arg, "--db_path=") {
                self.output_profiles_path = arg.substring_char(10, arg.unicode_len()).to_owned();
            } else if starts_with(arg, "-db=") {
                self.output_profiles_path = arg.substring_char(4, arg.unicode_len()).to_owned();
            } else {
                return true;
            }
            i = i + 1;
        }
        proof {
            assert(all.skip(i as int).len() == 0);
        }
        false
    }
}

} // verus!
