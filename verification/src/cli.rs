//! The command-line grammar: argv into positionals and named flags, and the
//! command it asks for. Running the command is the caller's business.

use vstd::prelude::*;
use crate::error::{CmuxError, validation_code};
use crate::templates::DEFAULT;
use crate::text::{
    chars_of, debug_quote, debug_text, parse_unsigned, parse_usize_chars, push_str, split_once,
    split_once_chars, starts_with, str_eq, string_of, strip_prefix_chars, views_of,
};

verus! {

broadcast use vstd::string::group_string_axioms;

/// Parsed argv: positionals + named flags (`--flag value` / `--flag=value` /
/// bare boolean `--flag`). Flags are kept in the order given; for a name given
/// more than once, the last one counts.
pub struct Parsed {
    pub positionals: Vec<String>,
    pub flags: Vec<(String, Option<String>)>,
}

pub type FlagView = (Seq<char>, Option<Seq<char>>);

pub open spec fn opt_string(o: Option<String>) -> Option<Seq<char>> {
    match o {
        Some(s) => Some(s@),
        None => None,
    }
}

pub open spec fn flag_views(f: Seq<(String, Option<String>)>) -> Seq<FlagView> {
    f.map_values(|p: (String, Option<String>)| (p.0@, opt_string(p.1)))
}

/// Flags that consume the following token as a value.
pub open spec fn takes_value_name(name: Seq<char>) -> bool {
    ||| name == "devs"@
    ||| name == "cwd"@
    ||| name == "harness"@
    ||| name == "state-dir"@
    ||| name == "project"@
    ||| name == "specialty"@
    ||| name == "id"@
    ||| name == "seed-prompt"@
    ||| name == "layout"@
}

/// Flags that consume the following token as a value.
pub fn takes_value(name: &str) -> (r: bool)
    ensures
        r == takes_value_name(name@),
{
    str_eq(name, "devs") || str_eq(name, "cwd") || str_eq(name, "harness") || str_eq(name, "state-dir")
        || str_eq(name, "project") || str_eq(name, "specialty") || str_eq(name, "id")
        || str_eq(name, "seed-prompt") || str_eq(name, "layout")
}

/// The parse of `args` from position `i` on, after `pos` and `flags`.
pub open spec fn parse_from(args: Seq<Seq<char>>, i: int, pos: Seq<Seq<char>>, flags: Seq<FlagView>) -> (Seq<Seq<char>>, Seq<FlagView>)
    decreases args.len() - i,
{
    if i < 0 || i >= args.len() {
        (pos, flags)
    } else {
        let a = args[i];
        if starts_with(a, "--"@) {
            let rest = a.subrange(2, a.len() as int);
            match split_once(rest, "="@) {
                Some((name, value)) => parse_from(args, i + 1, pos, flags.push((name, Some(value)))),
                None => if i + 1 < args.len() && takes_value_name(rest) {
                    parse_from(args, i + 2, pos, flags.push((rest, Some(args[i + 1]))))
                } else {
                    parse_from(args, i + 1, pos, flags.push((rest, None)))
                },
            }
        } else if a == "-v"@ || a == "-V"@ || a == "-h"@ {
            parse_from(args, i + 1, pos, flags.push((a, None)))
        } else {
            parse_from(args, i + 1, pos.push(a), flags)
        }
    }
}

/// The flags documented as taking a value.
pub open spec fn documented_value_flag(name: Seq<char>) -> bool {
    ||| name == "devs"@
    ||| name == "cwd"@
    ||| name == "harness"@
    ||| name == "state-dir"@
    ||| name == "project"@
    ||| name == "specialty"@
    ||| name == "id"@
    ||| name == "seed-prompt"@
    ||| name == "layout"@
}

proof fn lemma_no_eq_sign(name: Seq<char>)
    requires
        documented_value_flag(name),
    ensures
        split_once(name, "="@) is None,
        takes_value_name(name),
{
    reveal_strlit("=");
    reveal_strlit("devs");
    reveal_strlit("cwd");
    reveal_strlit("harness");
    reveal_strlit("state-dir");
    reveal_strlit("project");
    reveal_strlit("specialty");
    reveal_strlit("id");
    reveal_strlit("seed-prompt");
    reveal_strlit("layout");
    assert(!name.contains('='));
    assert forall|j: int| 0 <= j implies !crate::text::occurs_at(name, "="@, j) by {
        if crate::text::occurs_at(name, "="@, j) {
            assert(name.subrange(j, j + 1)[0] == name[j]);
            assert(name[j] == '=');
        }
    }
    crate::text::lemma_find_none(name, "="@);
}

/// Only the documented flags take a value.
pub proof fn lemma_takes_value_documented(name: Seq<char>)
    ensures
        takes_value_name(name) <==> documented_value_flag(name),
{
}

/// `--<name>` for any other flag (without `=`) is a bare flag: the next
/// argument stays for the parse, so a positional after it stays a positional.
pub proof fn lemma_bare_flag_keeps_next(
    args: Seq<Seq<char>>,
    i: int,
    name: Seq<char>,
    pos: Seq<Seq<char>>,
    flags: Seq<FlagView>,
)
    requires
        !documented_value_flag(name),
        !name.contains('='),
        0 <= i < args.len(),
        args[i] == "--"@ + name,
    ensures
        parse_from(args, i, pos, flags) == parse_from(args, i + 1, pos, flags.push((name, None))),
{
    reveal_strlit("--");
    reveal_strlit("=");
    let a = args[i];
    assert(a.subrange(0, 2) =~= "--"@);
    assert(a.subrange(2, a.len() as int) =~= name);
    assert forall|j: int| 0 <= j implies !crate::text::occurs_at(name, "="@, j) by {
        if crate::text::occurs_at(name, "="@, j) {
            assert(name.subrange(j, j + 1)[0] == name[j]);
        }
    }
    crate::text::lemma_find_none(name, "="@);
}

/// `--<name> <v>` for a documented value flag takes `v` as the flag's value:
/// the parse goes on after `v` with `(name, Some(v))` added to the flags and
/// `v` not among the positionals.
pub proof fn lemma_value_flag_takes_next(
    args: Seq<Seq<char>>,
    i: int,
    name: Seq<char>,
    pos: Seq<Seq<char>>,
    flags: Seq<FlagView>,
)
    requires
        documented_value_flag(name),
        0 <= i,
        i + 1 < args.len(),
        args[i] == "--"@ + name,
    ensures
        parse_from(args, i, pos, flags) == parse_from(args, i + 2, pos, flags.push((name, Some(args[i + 1])))),
{
    reveal_strlit("--");
    lemma_no_eq_sign(name);
    let a = args[i];
    assert(a.subrange(0, 2) =~= "--"@);
    assert(a.subrange(2, a.len() as int) =~= name);
}

/// `provision <p> ... --cwd <dir>` provisions in `dir`: for every documented
/// value flag given as `--<name> <v>` right after the project, the routed
/// command reads `v` for it and `v` is no positional.
pub proof fn lemma_provision_reads_value_flag(p: Seq<char>, name: Seq<char>, v: Seq<char>)
    requires
        documented_value_flag(name),
        !starts_with(p, "--"@),
        p != "-v"@ && p != "-V"@ && p != "-h"@,
    ensures
        parse_args(seq!["provision"@, p, "--"@ + name, v]).0 == seq!["provision"@, p],
        parse_args(seq!["provision"@, p, "--"@ + name, v]).1 == seq![(name, Some(v))],
{
    reveal_strlit("provision");
    reveal_strlit("--");
    reveal_strlit("-v");
    reveal_strlit("-V");
    reveal_strlit("-h");
    let args = seq!["provision"@, p, "--"@ + name, v];
    let e: Seq<Seq<char>> = Seq::empty();
    let f: Seq<FlagView> = Seq::empty();
    assert(!starts_with("provision"@, "--"@)) by {
        assert("provision"@.subrange(0, 2)[0] == 'p');
    }
    assert(parse_from(args, 0, e, f) == parse_from(args, 1, e.push("provision"@), f));
    assert(parse_from(args, 1, e.push("provision"@), f) == parse_from(args, 2, e.push("provision"@).push(p), f));
    lemma_value_flag_takes_next(args, 2, name, e.push("provision"@).push(p), f);
    assert(parse_from(args, 4, e.push("provision"@).push(p), f.push((name, Some(v))))
        == (e.push("provision"@).push(p), f.push((name, Some(v)))));
    assert(e.push("provision"@).push(p) =~= seq!["provision"@, p]);
    assert(f.push((name, Some(v))) =~= seq![(name, Some(v))]);
}

pub open spec fn parse_args(args: Seq<Seq<char>>) -> (Seq<Seq<char>>, Seq<FlagView>) {
    parse_from(args, 0, Seq::empty(), Seq::empty())
}

/// Not one of the words that ask for help or the version.
pub open spec fn plain_word(w: Seq<char>) -> bool {
    w != "--help"@ && w != "-h"@ && w != "-v"@ && w != "-V"@ && w != "--version"@
}

/// The README's `provision myproj --cwd ~/dev/myproj`, for any project and
/// directory: the crew is provisioned in that directory, with the other
/// settings at their defaults.
pub proof fn lemma_provision_cwd(p: Seq<char>, v: Seq<char>)
    requires
        !starts_with(p, "--"@),
        p != "-v"@ && p != "-V"@ && p != "-h"@,
        plain_word(v),
    ensures
        route_of(seq!["provision"@, p, "--cwd"@, v]) == Ok::<CommandView, Seq<char>>(CommandView::Provision {
            project: p,
            cwd: v,
            harness: "omp"@,
            devs: 2,
            layout: DEFAULT@,
        }),
{
    reveal_strlit("--cwd");
    reveal_strlit("--");
    reveal_strlit("cwd");
    reveal_strlit("--help");
    reveal_strlit("-h");
    reveal_strlit("-v");
    reveal_strlit("-V");
    reveal_strlit("--version");
    reveal_strlit("provision");
    assert("--cwd"@ =~= "--"@ + "cwd"@);
    lemma_provision_reads_value_flag(p, "cwd"@, v);
    let av = seq!["provision"@, p, "--cwd"@, v];
    assert(!asks_help(av)) by {
        if asks_help(av) {
            let i = choose|i: int| 0 <= i < av.len() && (av[i] == "--help"@ || av[i] == "-h"@ || av[i] == "-h"@);
            if i == 0 {
                assert(av[0][0] != "--help"@[0] && av[0][0] != "-h"@[0]);
            } else if i == 1 {
                if p == "--help"@ {
                    assert(p.subrange(0, 2) =~= "--"@);
                }
            } else if i == 2 {
                assert(av[2].len() != "--help"@.len() && av[2].len() != "-h"@.len());
            }
        }
    }
    assert(!asks_version(av)) by {
        if asks_version(av) {
            let i = choose|i: int| 0 <= i < av.len() && (av[i] == "-v"@ || av[i] == "-V"@ || av[i] == "--version"@);
            if i == 0 {
                assert(av[0][0] != "-v"@[0]);
            } else if i == 1 {
                if p == "--version"@ {
                    assert(p.subrange(0, 2) =~= "--"@);
                }
            } else if i == 2 {
                assert(av[2].len() != "-v"@.len() && av[2].len() != "--version"@.len());
                assert(av[2].len() != "-V"@.len());
            }
        }
    }
    let fl = seq![("cwd"@, Some(v))];
    reveal_strlit("harness");
    reveal_strlit("devs");
    reveal_strlit("layout");
    assert(flag_value(fl, "cwd"@) == Some(v));
    assert(fl.drop_last() =~= Seq::<FlagView>::empty());
    assert("cwd"@.len() != "harness"@.len());
    assert("cwd"@.len() != "layout"@.len());
    assert("cwd"@.len() != "devs"@.len());
    assert(flag_value(Seq::<FlagView>::empty(), "harness"@) is None);
    assert(flag_value(Seq::<FlagView>::empty(), "layout"@) is None);
    assert(flag_value(Seq::<FlagView>::empty(), "devs"@) is None);
    assert(flag_value(fl, "harness"@) is None);
    assert(flag_value(fl, "devs"@) is None);
    assert(flag_value(fl, "layout"@) is None);
}

/// A flag of that name was given.
pub open spec fn has_flag(flags: Seq<FlagView>, name: Seq<char>) -> bool {
    exists|i: int| 0 <= i < flags.len() && (#[trigger] flags[i]).0 == name
}

/// The value of the last flag of that name, if it has one.
pub open spec fn flag_value(flags: Seq<FlagView>, name: Seq<char>) -> Option<Seq<char>>
    decreases flags.len(),
{
    if flags.len() == 0 {
        None
    } else if flags.last().0 == name {
        flags.last().1
    } else {
        flag_value(flags.drop_last(), name)
    }
}

impl Parsed {
    pub fn parse(args: &[String]) -> (r: Parsed)
        ensures
            views_of(r.positionals@) == parse_args(views_of(args@)).0,
            flag_views(r.flags@) == parse_args(views_of(args@)).1,
    {
        proof {
            reveal_strlit("--");
            reveal_strlit("=");
        }
        let ghost av = views_of(args@);
        let dash = chars_of("--");
        let eq = chars_of("=");
        let mut positionals: Vec<String> = Vec::new();
        let mut flags: Vec<(String, Option<String>)> = Vec::new();
        let mut i: usize = 0;
        assert(views_of(positionals@) =~= Seq::empty());
        assert(flag_views(flags@) =~= Seq::empty());
        while i < args.len()
            invariant
                i <= args@.len(),
                av == views_of(args@),
                dash@ == "--"@,
                eq@ == "="@,
                parse_args(av) == parse_from(av, i as int, views_of(positionals@), flag_views(flags@)),
            decreases args@.len() - i,
        {
            proof {
                reveal_strlit("--");
            }
            let a = chars_of(args[i].as_str());
            assert(a@ == av[i as int]);
            match strip_prefix_chars(a.as_slice(), dash.as_slice()) {
                Some(rest) => {
                    match split_once_chars(rest.as_slice(), eq.as_slice()) {
                        Some((name, value)) => {
                            let ghost before = flag_views(flags@);
                            flags.push((string_of(name.as_slice()), Some(string_of(value.as_slice()))));
                            assert(flag_views(flags@) =~= before.push((name@, Some(value@))));
                            i = i + 1;
                        },
                        None => {
                            let rest_s = string_of(rest.as_slice());
                            if i + 1 < args.len() && takes_value(rest_s.as_str()) {
                                let ghost before = flag_views(flags@);
                                flags.push((rest_s, Some(args[i + 1].clone())));
                                assert(flag_views(flags@) =~= before.push((rest@, Some(av[i + 1]))));
                                i = i + 2;
                            } else {
                                let ghost before = flag_views(flags@);
                                flags.push((rest_s, None));
                                assert(flag_views(flags@) =~= before.push((rest@, None)));
                                i = i + 1;
                            }
                        },
                    }
                },
                None => {
                    let s = args[i].as_str();
                    if str_eq(s, "-v") || str_eq(s, "-V") || str_eq(s, "-h") {
                        let ghost before = flag_views(flags@);
                        flags.push((args[i].clone(), None));
                        assert(flag_views(flags@) =~= before.push((av[i as int], None)));
                    } else {
                        let ghost before = views_of(positionals@);
                        positionals.push(args[i].clone());
                        assert(views_of(positionals@) =~= before.push(av[i as int]));
                    }
                    i = i + 1;
                },
            }
        }
        Parsed { positionals, flags }
    }

    /// Whether the flag was given.
    pub fn flag(&self, name: &str) -> (r: bool)
        ensures
            r == has_flag(flag_views(self.flags@), name@),
    {
        let ghost fv = flag_views(self.flags@);
        let mut i: usize = 0;
        while i < self.flags.len()
            invariant
                i <= self.flags@.len(),
                fv == flag_views(self.flags@),
                forall|j: int| 0 <= j < i ==> fv[j].0 != name@,
            decreases self.flags@.len() - i,
        {
            if str_eq(self.flags[i].0.as_str(), name) {
                assert(fv[i as int].0 == name@);
                return true;
            }
            i = i + 1;
        }
        false
    }

    /// The flag's value (the last one given), if any.
    pub fn value(&self, name: &str) -> (r: Option<String>)
        ensures
            opt_string(r) == flag_value(flag_views(self.flags@), name@),
    {
        let ghost fv = flag_views(self.flags@);
        let mut i = self.flags.len();
        assert(fv.subrange(0, i as int) =~= fv);
        while i > 0
            invariant
                i <= self.flags@.len(),
                fv == flag_views(self.flags@),
                flag_value(fv, name@) == flag_value(fv.subrange(0, i as int), name@),
            decreases i,
        {
            let ghost pre = fv.subrange(0, i as int);
            assert(pre.drop_last() =~= fv.subrange(0, i - 1));
            assert(pre.last() == fv[i - 1]);
            if str_eq(self.flags[i - 1].0.as_str(), name) {
                return match &self.flags[i - 1].1 {
                    Some(v) => Some(v.clone()),
                    None => None,
                };
            }
            i = i - 1;
        }
        None
    }
}


// ---------------------------------------------------------------------------
// Usage text
// ---------------------------------------------------------------------------

/// The `--help` text.
pub const HELP: &'static str = "usage: cmux-axi [command] [args] [flags]
commands[11]:
  (none)=status dashboard, provision, status, send, read, dev, layout, teardown, setup, version, update
flags: --json (machine-readable), --state-dir <path>, --help, -v/-V/--version
examples:
  cmux-axi provision myproj --devs 2 --cwd ~/dev/myproj [--layout <name>]
  cmux-axi layout list | layout show 2by2
  cmux-axi status --project myproj
  cmux-axi send myproj planner \"plan the next epic\"
  cmux-axi read myproj coordinator
  cmux-axi dev add myproj --specialty node --seed-prompt brief.md
  cmux-axi dev rm myproj dev-1
  cmux-axi teardown myproj
  cmux-axi setup skill [--project] | setup hooks [--project]
  cmux-axi version | update [--check]";

/// The usage text printed by `--help`, `-h` and a bare invocation.
pub fn help() -> (r: String)
    ensures
        r@ == HELP@,
{
    String::from_str(HELP)
}

// ---------------------------------------------------------------------------
// Commands
// ---------------------------------------------------------------------------

/// The command that argv asks for, with the arguments and flags it reads.
#[derive(Debug)]
pub enum Command {
    /// `--help` or `-h`.
    Help,
    /// `-v`, `-V` or `--version`: print the version line only.
    PrintVersion,
    Provision { project: String, cwd: String, harness: String, devs: usize, layout: String },
    LayoutList,
    LayoutShow { name: String },
    Status { project: Option<String> },
    Send { project: String, role: String, text: String },
    Read { project: String, role: String },
    DevAdd {
        project: String,
        cwd: String,
        harness: String,
        specialty: Option<String>,
        id: Option<String>,
        seed_prompt: Option<String>,
        worktree: bool,
    },
    DevRm { project: String, dev_id: String, force: bool },
    Teardown { project: String, force: bool },
    /// The `version` command: the version line, then the update check.
    Version { yes: bool },
    Update { check: bool },
    SetupSkill { global: bool },
    SetupHooks { global: bool },
}

/// A command with the flags that every command reads.
#[derive(Debug)]
pub struct Invocation {
    pub command: Command,
    pub json: bool,
    pub state_dir: Option<String>,
}

/// What a command is, as text and numbers.
pub enum CommandView {
    Help,
    PrintVersion,
    Provision { project: Seq<char>, cwd: Seq<char>, harness: Seq<char>, devs: nat, layout: Seq<char> },
    LayoutList,
    LayoutShow { name: Seq<char> },
    Status { project: Option<Seq<char>> },
    Send { project: Seq<char>, role: Seq<char>, text: Seq<char> },
    Read { project: Seq<char>, role: Seq<char> },
    DevAdd {
        project: Seq<char>,
        cwd: Seq<char>,
        harness: Seq<char>,
        specialty: Option<Seq<char>>,
        id: Option<Seq<char>>,
        seed_prompt: Option<Seq<char>>,
        worktree: bool,
    },
    DevRm { project: Seq<char>, dev_id: Seq<char>, force: bool },
    Teardown { project: Seq<char>, force: bool },
    Version { yes: bool },
    Update { check: bool },
    SetupSkill { global: bool },
    SetupHooks { global: bool },
}

impl View for Command {
    type V = CommandView;

    open spec fn view(&self) -> CommandView {
        match self {
            Command::Help => CommandView::Help,
            Command::PrintVersion => CommandView::PrintVersion,
            Command::Provision { project, cwd, harness, devs, layout } => CommandView::Provision {
                project: project@,
                cwd: cwd@,
                harness: harness@,
                devs: *devs as nat,
                layout: layout@,
            },
            Command::LayoutList => CommandView::LayoutList,
            Command::LayoutShow { name } => CommandView::LayoutShow { name: name@ },
            Command::Status { project } => CommandView::Status { project: opt_string(*project) },
            Command::Send { project, role, text } => CommandView::Send {
                project: project@,
                role: role@,
                text: text@,
            },
            Command::Read { project, role } => CommandView::Read { project: project@, role: role@ },
            Command::DevAdd { project, cwd, harness, specialty, id, seed_prompt, worktree } => CommandView::DevAdd {
                project: project@,
                cwd: cwd@,
                harness: harness@,
                specialty: opt_string(*specialty),
                id: opt_string(*id),
                seed_prompt: opt_string(*seed_prompt),
                worktree: *worktree,
            },
            Command::DevRm { project, dev_id, force } => CommandView::DevRm {
                project: project@,
                dev_id: dev_id@,
                force: *force,
            },
            Command::Teardown { project, force } => CommandView::Teardown { project: project@, force: *force },
            Command::Version { yes } => CommandView::Version { yes: *yes },
            Command::Update { check } => CommandView::Update { check: *check },
            Command::SetupSkill { global } => CommandView::SetupSkill { global: *global },
            Command::SetupHooks { global } => CommandView::SetupHooks { global: *global },
        }
    }
}

// ---------------------------------------------------------------------------
// Routing, as a specification
// ---------------------------------------------------------------------------

/// Some argument is one of the three given words.
pub open spec fn any_of(av: Seq<Seq<char>>, a: Seq<char>, b: Seq<char>, c: Seq<char>) -> bool {
    exists|i: int| 0 <= i < av.len() && (av[i] == a || av[i] == b || av[i] == c)
}

/// A help flag anywhere.
pub open spec fn asks_help(av: Seq<Seq<char>>) -> bool {
    any_of(av, "--help"@, "-h"@, "-h"@)
}

/// A version flag anywhere.
pub open spec fn asks_version(av: Seq<Seq<char>>) -> bool {
    any_of(av, "-v"@, "-V"@, "--version"@)
}

/// Argv names a command: the input on which routing is defined.
pub open spec fn routable(av: Seq<Seq<char>>) -> bool {
    av.len() == 0 || asks_help(av) || asks_version(av) || parse_args(av).0.len() > 0
}

/// The positional argument at `i`, if there is one.
pub open spec fn arg_at(pos: Seq<Seq<char>>, i: int) -> Option<Seq<char>> {
    if 0 <= i < pos.len() { Some(pos[i]) } else { None }
}

/// The error text for a missing positional argument.
pub open spec fn missing(what: Seq<char>) -> Seq<char> {
    "missing "@ + what
}

/// A flag's value, or `d` where the flag has none.
pub open spec fn value_or(fl: Seq<FlagView>, name: Seq<char>, d: Seq<char>) -> Seq<char> {
    match flag_value(fl, name) {
        Some(v) => v,
        None => d,
    }
}

/// `--devs`: its value read as an unsigned number, else 2.
pub open spec fn devs_of(fl: Seq<FlagView>) -> nat {
    match flag_value(fl, "devs"@) {
        Some(d) => match parse_unsigned(d, usize::MAX as nat) {
            Some(n) => n,
            None => 2,
        },
        None => 2,
    }
}

/// The subcommand word: the second positional, or empty.
pub open spec fn sub_of(pos: Seq<Seq<char>>) -> Seq<char> {
    if pos.len() > 1 { pos[1] } else { ""@ }
}

/// The text of the unknown-command error.
pub open spec fn unknown_command(cmd: Seq<char>) -> Seq<char> {
    "unknown command "@ + debug_text(cmd) + " \u{2014} run `cmux-axi --help`"@
}

/// Two positionals after the first `skip` ones, or the error for the first that
/// is missing.
pub open spec fn two_args(pos: Seq<Seq<char>>, skip: int, a: Seq<char>, b: Seq<char>) -> Result<(Seq<char>, Seq<char>), Seq<char>> {
    match arg_at(pos, skip) {
        None => Err(missing(a)),
        Some(x) => match arg_at(pos, skip + 1) {
            None => Err(missing(b)),
            Some(y) => Ok((x, y)),
        },
    }
}

/// What a parsed argv names, or the usage error it gets.
pub open spec fn command_of(pos: Seq<Seq<char>>, fl: Seq<FlagView>) -> Result<CommandView, Seq<char>> {
    let cmd = pos[0];
    let sub = sub_of(pos);
    if cmd == "provision"@ {
        match arg_at(pos, 1) {
            None => Err(missing("project name"@)),
            Some(p) => Ok(CommandView::Provision {
                project: p,
                cwd: value_or(fl, "cwd"@, "."@),
                harness: value_or(fl, "harness"@, "omp"@),
                devs: devs_of(fl),
                layout: value_or(fl, "layout"@, DEFAULT@),
            }),
        }
    } else if cmd == "layout"@ {
        if sub == "list"@ {
            Ok(CommandView::LayoutList)
        } else if sub == "show"@ {
            match arg_at(pos, 2) {
                None => Err(missing("layout name"@)),
                Some(n) => Ok(CommandView::LayoutShow { name: n }),
            }
        } else {
            Err("unknown layout subcommand (list | show)"@)
        }
    } else if cmd == "status"@ {
        Ok(CommandView::Status { project: flag_value(fl, "project"@) })
    } else if cmd == "send"@ {
        match two_args(pos, 1, "project name"@, "role or dev id"@) {
            Err(m) => Err(m),
            Ok((p, r)) => Ok(CommandView::Send {
                project: p,
                role: r,
                text: match arg_at(pos, 3) { Some(t) => t, None => ""@ },
            }),
        }
    } else if cmd == "read"@ {
        match two_args(pos, 1, "project name"@, "role or dev id"@) {
            Err(m) => Err(m),
            Ok((p, r)) => Ok(CommandView::Read { project: p, role: r }),
        }
    } else if cmd == "dev"@ {
        if sub == "add"@ {
            match arg_at(pos, 2) {
                None => Err(missing("project name"@)),
                Some(p) => Ok(CommandView::DevAdd {
                    project: p,
                    cwd: value_or(fl, "cwd"@, "."@),
                    harness: value_or(fl, "harness"@, "omp"@),
                    specialty: flag_value(fl, "specialty"@),
                    id: flag_value(fl, "id"@),
                    seed_prompt: flag_value(fl, "seed-prompt"@),
                    worktree: has_flag(fl, "worktree"@) && !has_flag(fl, "no-worktree"@),
                }),
            }
        } else if sub == "rm"@ {
            match two_args(pos, 2, "project name"@, "dev id"@) {
                Err(m) => Err(m),
                Ok((p, d)) => Ok(CommandView::DevRm { project: p, dev_id: d, force: has_flag(fl, "force"@) }),
            }
        } else {
            Err("unknown dev subcommand (add | rm)"@)
        }
    } else if cmd == "teardown"@ {
        match arg_at(pos, 1) {
            None => Err(missing("project name"@)),
            Some(p) => Ok(CommandView::Teardown { project: p, force: has_flag(fl, "force"@) }),
        }
    } else if cmd == "version"@ {
        Ok(CommandView::Version { yes: has_flag(fl, "yes"@) })
    } else if cmd == "update"@ {
        Ok(CommandView::Update { check: has_flag(fl, "check"@) })
    } else if cmd == "setup"@ {
        let global = !has_flag(fl, "project"@);
        if sub == "skill"@ {
            Ok(CommandView::SetupSkill { global })
        } else if sub == "hooks"@ {
            Ok(CommandView::SetupHooks { global })
        } else {
            Err("unknown setup subcommand (skill | hooks)"@)
        }
    } else {
        Err(unknown_command(cmd))
    }
}

/// What argv asks for: no arguments at all is the status dashboard; otherwise
/// help and version flags come first, then the command.
pub open spec fn route_of(av: Seq<Seq<char>>) -> Result<CommandView, Seq<char>> {
    if av.len() == 0 {
        Ok(CommandView::Status { project: None })
    } else if asks_help(av) {
        Ok(CommandView::Help)
    } else if asks_version(av) {
        Ok(CommandView::PrintVersion)
    } else {
        command_of(parse_args(av).0, parse_args(av).1)
    }
}


// ---------------------------------------------------------------------------
// Routing
// ---------------------------------------------------------------------------

/// Some argument is one of the three given words.
fn any_arg(args: &[String], a: &str, b: &str, c: &str) -> (r: bool)
    ensures
        r == any_of(views_of(args@), a@, b@, c@),
{
    let ghost av = views_of(args@);
    let mut i: usize = 0;
    while i < args.len()
        invariant
            i <= args@.len(),
            av == views_of(args@),
            forall|j: int| 0 <= j < i ==> !(av[j] == a@ || av[j] == b@ || av[j] == c@),
        decreases args@.len() - i,
    {
        let s = args[i].as_str();
        if str_eq(s, a) || str_eq(s, b) || str_eq(s, c) {
            assert(av[i as int] == s@);
            return true;
        }
        i = i + 1;
    }
    false
}

/// The positional argument at `idx`, or the usage error `missing <what>`.
pub fn required(args: &[String], idx: usize, what: &str) -> (r: Result<String, CmuxError>)
    ensures
        match r {
            Ok(s) => arg_at(views_of(args@), idx as int) == Some(s@),
            Err(e) => {
                &&& arg_at(views_of(args@), idx as int) is None
                &&& e.message@ == missing(what@)
                &&& e.code@ == validation_code()
            },
        },
{
    if idx < args.len() {
        Ok(args[idx].clone())
    } else {
        let mut m = String::from_str("missing ");
        push_str(&mut m, what);
        Err(CmuxError::usage(m.as_str()))
    }
}

impl Parsed {
    /// The flag's value, or `d` where it has none.
    pub fn value_or(&self, name: &str, d: &str) -> (r: String)
        ensures
            r@ == value_or(flag_views(self.flags@), name@, d@),
    {
        match self.value(name) {
            Some(v) => v,
            None => String::from_str(d),
        }
    }

    /// `--devs` read as an unsigned number, 2 where it is absent or unreadable.
    pub fn devs(&self) -> (r: usize)
        ensures
            r as nat == devs_of(flag_views(self.flags@)),
    {
        match self.value("devs") {
            Some(d) => {
                let c = chars_of(d.as_str());
                match parse_usize_chars(c.as_slice()) {
                    Some(n) => n,
                    None => 2,
                }
            },
            None => 2,
        }
    }
}

/// The usage error for an unknown command word.
fn unknown_command_error(cmd: &str) -> (e: CmuxError)
    ensures
        e.message@ == unknown_command(cmd@),
        e.code@ == validation_code(),
{
    let mut m = String::from_str("unknown command ");
    let q = debug_quote(cmd);
    push_str(&mut m, q.as_str());
    push_str(&mut m, " \u{2014} run `cmux-axi --help`");
    CmuxError::usage(m.as_str())
}

/// Decide what argv asks for. No arguments at all is the status dashboard;
/// help and version flags win over any command; a missing argument or an
/// unknown word is a usage error.
pub fn route(args: &[String]) -> (r: Result<Invocation, CmuxError>)
    requires
        routable(views_of(args@)),
    ensures
        ({
            let av = views_of(args@);
            let fl = parse_args(av).1;
            match r {
                Ok(inv) => {
                    &&& route_of(av) == Ok::<CommandView, Seq<char>>(inv.command@)
                    &&& inv.json == has_flag(fl, "json"@)
                    &&& opt_string(inv.state_dir) == flag_value(fl, "state-dir"@)
                },
                Err(e) => {
                    &&& route_of(av) == Err::<CommandView, Seq<char>>(e.message@)
                    &&& e.code@ == validation_code()
                },
            }
        }),
{
    proof {
        reveal_strlit("");
    }
    let ghost av = views_of(args@);
    let parsed = Parsed::parse(args);
    let json = parsed.flag("json");
    let state_dir = parsed.value("state-dir");
    if args.len() == 0 {
        return Ok(Invocation { command: Command::Status { project: None }, json, state_dir });
    }
    if any_arg(args, "--help", "-h", "-h") {
        return Ok(Invocation { command: Command::Help, json, state_dir });
    }
    if any_arg(args, "-v", "-V", "--version") {
        return Ok(Invocation { command: Command::PrintVersion, json, state_dir });
    }
    let pos = &parsed.positionals;
    let ghost pv = views_of(pos@);
    assert(pv.len() > 0);
    let cmd = pos[0].as_str();
    assert(cmd@ == pv[0]);
    let sub: &str = if pos.len() > 1 { pos[1].as_str() } else { "" };
    assert(sub@ == sub_of(pv));
    let command = if str_eq(cmd, "provision") {
        let project = match required(pos.as_slice(), 1, "project name") {
            Ok(v) => v,
            Err(e) => return Err(e),
        };
        Command::Provision {
            project,
            cwd: parsed.value_or("cwd", "."),
            harness: parsed.value_or("harness", "omp"),
            devs: parsed.devs(),
            layout: parsed.value_or("layout", DEFAULT),
        }
    } else if str_eq(cmd, "layout") {
        if str_eq(sub, "list") {
            Command::LayoutList
        } else if str_eq(sub, "show") {
            let name = match required(pos.as_slice(), 2, "layout name") {
            Ok(v) => v,
            Err(e) => return Err(e),
        };
            Command::LayoutShow { name }
        } else {
            return Err(CmuxError::usage("unknown layout subcommand (list | show)"));
        }
    } else if str_eq(cmd, "status") {
        Command::Status { project: parsed.value("project") }
    } else if str_eq(cmd, "send") {
        let project = match required(pos.as_slice(), 1, "project name") {
            Ok(v) => v,
            Err(e) => return Err(e),
        };
        let role = match required(pos.as_slice(), 2, "role or dev id") {
            Ok(v) => v,
            Err(e) => return Err(e),
        };
        let text = if pos.len() > 3 {
            let t = pos[3].clone();
            assert(t@ == pv[3]);
            t
        } else {
            assert(""@ =~= Seq::<char>::empty());
            String::new()
        };
        Command::Send { project, role, text }
    } else if str_eq(cmd, "read") {
        let project = match required(pos.as_slice(), 1, "project name") {
            Ok(v) => v,
            Err(e) => return Err(e),
        };
        let role = match required(pos.as_slice(), 2, "role or dev id") {
            Ok(v) => v,
            Err(e) => return Err(e),
        };
        Command::Read { project, role }
    } else if str_eq(cmd, "dev") {
        if str_eq(sub, "add") {
            let project = match required(pos.as_slice(), 2, "project name") {
            Ok(v) => v,
            Err(e) => return Err(e),
        };
            Command::DevAdd {
                project,
                cwd: parsed.value_or("cwd", "."),
                harness: parsed.value_or("harness", "omp"),
                specialty: parsed.value("specialty"),
                id: parsed.value("id"),
                seed_prompt: parsed.value("seed-prompt"),
                worktree: parsed.flag("worktree") && !parsed.flag("no-worktree"),
            }
        } else if str_eq(sub, "rm") {
            let project = match required(pos.as_slice(), 2, "project name") {
            Ok(v) => v,
            Err(e) => return Err(e),
        };
            let dev_id = match required(pos.as_slice(), 3, "dev id") {
            Ok(v) => v,
            Err(e) => return Err(e),
        };
            Command::DevRm { project, dev_id, force: parsed.flag("force") }
        } else {
            return Err(CmuxError::usage("unknown dev subcommand (add | rm)"));
        }
    } else if str_eq(cmd, "teardown") {
        let project = match required(pos.as_slice(), 1, "project name") {
            Ok(v) => v,
            Err(e) => return Err(e),
        };
        Command::Teardown { project, force: parsed.flag("force") }
    } else if str_eq(cmd, "version") {
        Command::Version { yes: parsed.flag("yes") }
    } else if str_eq(cmd, "update") {
        Command::Update { check: parsed.flag("check") }
    } else if str_eq(cmd, "setup") {
        let global = !parsed.flag("project");
        if str_eq(sub, "skill") {
            Command::SetupSkill { global }
        } else if str_eq(sub, "hooks") {
            Command::SetupHooks { global }
        } else {
            return Err(CmuxError::usage("unknown setup subcommand (skill | hooks)"));
        }
    } else {
        return Err(unknown_command_error(cmd));
    };
    Ok(Invocation { command, json, state_dir })
}

} // verus!
