//! The command line.

use vstd::prelude::*;
use vstd::string::*;

use crate::paths;
use crate::text;

verus! {

/// What the command line asks for.
#[derive(Debug, PartialEq, Eq)]
pub enum CliAction {
    /// Print the name and the version of the server.
    Version,
    /// Print the offline report of a directory, given as on the command line.
    Doctor { dir: String },
    /// Serve over standard input and output.
    Serve,
    /// Print a usage error.
    Usage { message: String },
}

/// The model of an action.
pub enum CliActionV {
    Version,
    Doctor(Seq<char>),
    Serve,
    Usage(Seq<char>),
}

impl View for CliAction {
    type V = CliActionV;

    open spec fn view(&self) -> CliActionV {
        match self {
            CliAction::Version => CliActionV::Version,
            CliAction::Doctor { dir } => CliActionV::Doctor(dir@),
            CliAction::Serve => CliActionV::Serve,
            CliAction::Usage { message } => CliActionV::Usage(message@),
        }
    }
}

/// The index of the first argument with the given text, or the number of
/// arguments.
pub open spec fn first_index(args: Seq<Seq<char>>, wanted: Seq<char>) -> int
    decreases args.len(),
{
    if args.len() == 0 || args[0] == wanted {
        0
    } else {
        1 + first_index(args.drop_first(), wanted)
    }
}

/// What a command line asks for. `--version` wins over everything; `--doctor` takes
/// the argument behind it, or the current directory; without arguments the server
/// starts; any other argument is a usage error.
pub open spec fn action_of(args: Seq<Seq<char>>) -> CliActionV {
    let doctor = first_index(args, "--doctor"@);
    if first_index(args, "--version"@) < args.len() {
        CliActionV::Version
    } else if doctor < args.len() {
        CliActionV::Doctor(
            if doctor + 1 < args.len() {
                args[doctor + 1]
            } else {
                "."@
            },
        )
    } else if args.len() == 0 {
        CliActionV::Serve
    } else {
        CliActionV::Usage("unknown arguments: "@ + text::joined(args, " "@))
    }
}

fn find(args: &[String], wanted: &str) -> (index: usize)
    ensures
        index == first_index(text::texts(args@), wanted@),
        index <= args@.len(),
{
    let ghost all = text::texts(args@);
    let mut i: usize = 0;
    assert(all.skip(0) =~= all);
    while i < args.len() && !text::same_text(args[i].as_str(), wanted)
        invariant
            i <= args@.len(),
            all == text::texts(args@),
            first_index(all, wanted@) == i + first_index(all.skip(i as int), wanted@),
        decreases args.len() - i,
    {
        assert(all.skip(i as int).drop_first() =~= all.skip(i + 1));
        i += 1;
    }
    i
}

/// What a command line, without the name of the program, asks for.
pub fn parse_args(args: &[String]) -> (action: CliAction)
    ensures
        action@ == action_of(text::texts(args@)),
{
    if find(args, "--version") < args.len() {
        return CliAction::Version;
    }
    let doctor = find(args, "--doctor");
    if doctor < args.len() {
        let dir = if doctor + 1 < args.len() {
            args[doctor + 1].clone()
        } else {
            ".".to_owned()
        };
        return CliAction::Doctor { dir };
    }
    if args.len() == 0 {
        CliAction::Serve
    } else {
        let mut message = "unknown arguments: ".to_owned();
        text::push_text(&mut message, text::join(args, " ").as_str());
        CliAction::Usage { message }
    }
}

/// The directory of an offline report: below the working directory unless it is
/// absolute, and in normal form.
pub fn resolve_doctor_dir(dir: &str, cwd: &str) -> (resolved: String)
    ensures
        resolved@ == paths::normalized(paths::joined_path(cwd@, dir@)),
{
    paths::normalize(paths::join_path(cwd, dir).as_str())
}

proof fn lemma_first_index(args: Seq<Seq<char>>, wanted: Seq<char>)
    ensures
        0 <= first_index(args, wanted) <= args.len(),
        forall|k: int| 0 <= k < first_index(args, wanted) ==> #[trigger] args[k] != wanted,
        first_index(args, wanted) < args.len() ==> args[first_index(args, wanted)] == wanted,
    decreases args.len(),
{
    if args.len() > 0 && args[0] != wanted {
        let rest = args.drop_first();
        lemma_first_index(rest, wanted);
        assert forall|k: int| 0 <= k < first_index(args, wanted) implies #[trigger] args[k]
            != wanted by {
            if k > 0 {
                assert(rest[k - 1] == args[k]);
            }
        }
    }
}

/// `--version` anywhere asks for the version. Without it, the first `--doctor` asks for the
/// report of the directory behind it, or of the current one where it is the last argument.
/// Without either, no arguments ask to serve, and any others are an error that names each.
pub proof fn law_command_line(args: Seq<Seq<char>>, k: int)
    ensures
        action_of(args) is Version <==> args.contains("--version"@),
        !args.contains("--version"@) && 0 <= k < args.len() && args[k] == "--doctor"@
            && !args.take(k).contains("--doctor"@) ==> action_of(args) == CliActionV::Doctor(
            if k + 1 < args.len() {
                args[k + 1]
            } else {
                "."@
            },
        ),
        action_of(args) is Serve <==> args.len() == 0,
        args.len() > 0 && !args.contains("--version"@) && !args.contains("--doctor"@) ==> (
        action_of(args) matches CliActionV::Usage(message) && text::has_prefix(
            message,
            "unknown arguments: "@,
        ) && forall|i: int|
            0 <= i < args.len() ==> text::occurs(#[trigger] args[i], message)),
{
    lemma_first_index(args, "--version"@);
    lemma_first_index(args, "--doctor"@);
    let doctor = first_index(args, "--doctor"@);
    if 0 <= k < args.len() && args[k] == "--doctor"@ && !args.take(k).contains("--doctor"@) {
        if doctor < k {
            assert(args.take(k)[doctor] == "--doctor"@);
        }
    }
    if args.len() > 0 && !args.contains("--version"@) && !args.contains("--doctor"@) {
        let head = "unknown arguments: "@;
        let list = text::joined(args, " "@);
        let message = head + list;
        assert(message.take(head.len() as int) =~= head);
        text::law_joined_holds_each(args, " "@);
        assert forall|i: int| 0 <= i < args.len() implies text::occurs(
            #[trigger] args[i],
            message,
        ) by {
            text::lemma_occurs(args[i], head, list, Seq::empty());
            assert(head + list + Seq::<char>::empty() =~= message);
        }
    }
}

} // verus!
