//! What the command line asks for.
use crate::text::{join_text, joined_text, same_bytes, text_views, text4, utf8, utf8_of, views};
use crate::update::model::{CommandView, ResultView, UpdateRequest, UpdateResult};
use crate::update::service::RequestView;
use vstd::prelude::*;

verus! {

/// The command line.
pub struct Cli {
    pub command: Command,
}

/// What to do.
pub enum Command {
    /// Create an ordinary Git worktree using filesystem copy-on-write.
    Add(AddArgs),
    /// Probe copy-on-write support on an actual destination filesystem.
    Doctor(DoctorArgs),
    /// Check for or apply an installer-aware update.
    Update(UpdateArgs),
}

impl Command {
    /// The word that stands for the command on the command line.
    pub open spec fn word(self) -> Seq<char> {
        match self {
            Command::Add(_) => "add"@,
            Command::Doctor(_) => "doctor"@,
            Command::Update(_) => "update"@,
        }
    }

    /// The word that stands for the command on the command line.
    pub fn name(&self) -> (r: &'static str)
        ensures
            r@ == self.word(),
    {
        match self {
            Command::Add(_) => "add",
            Command::Doctor(_) => "doctor",
            Command::Update(_) => "update",
        }
    }
}

/// The arguments of `add`.
pub struct AddArgs {
    /// Create a new branch.
    pub branch: Option<String>,
    /// Create a detached worktree.
    pub detach: bool,
    /// Clone the donor's complete lived-in state.
    pub inherit: bool,
    /// Select a registered worktree as the physical donor.
    pub from: Option<Vec<u8>>,
    /// Permit inherited links that resolve inside the donor.
    pub allow_donor_links: bool,
    /// Refuse ordinary-checkout fallback.
    pub require_cow: bool,
    /// Permit physical-copy fallback for inheritance.
    pub allow_copy: bool,
    /// Print one envelope on stdout.
    pub json: bool,
    /// Worktree destination.
    pub path: Vec<u8>,
    /// Branch or commit-ish to check out.
    pub start_point: Option<String>,
}

/// The model of [`AddArgs`].
#[verifier::ext_equal]
pub struct AddView {
    pub branch: Option<Seq<char>>,
    pub detach: bool,
    pub inherit: bool,
    pub from: Option<Seq<u8>>,
    pub allow_donor_links: bool,
    pub require_cow: bool,
    pub allow_copy: bool,
    pub json: bool,
    pub path: Seq<u8>,
    pub start_point: Option<Seq<char>>,
}

impl View for AddArgs {
    type V = AddView;

    open spec fn view(&self) -> AddView {
        AddView {
            branch: crate::update::model::text_option(self.branch),
            detach: self.detach,
            inherit: self.inherit,
            from: crate::host::bytes_if(self.from),
            allow_donor_links: self.allow_donor_links,
            require_cow: self.require_cow,
            allow_copy: self.allow_copy,
            json: self.json,
            path: self.path@,
            start_point: crate::update::model::text_option(self.start_point),
        }
    }
}

/// The arguments of `doctor`.
pub struct DoctorArgs {
    /// Filesystem location to probe.
    pub path: Option<Vec<u8>>,
    /// Print one envelope on stdout.
    pub json: bool,
}

/// The arguments of `update`.
pub struct UpdateArgs {
    /// Check without changing the installation.
    pub check: bool,
    /// Adopt a verified standalone archive installation for managed updates.
    pub adopt: bool,
    /// Print one envelope on stdout.
    pub json: bool,
}

impl UpdateArgs {
    /// The update that the arguments ask for.
    pub fn request(&self, executable: &[u8], version: &str) -> (r: UpdateRequest)
        ensures
            r@ == (RequestView {
                check: self.check,
                adopt: self.adopt,
                executable: executable@,
                current_version: version@,
            }),
    {
        UpdateRequest::new(self.check, executable, version).with_adopt(self.adopt)
    }
}

/// The word for the command in a failure to read the command line: its first
/// argument, where that names a command.
pub open spec fn command_word(arguments: Seq<Seq<u8>>) -> Seq<char> {
    if arguments.len() < 2 {
        "unknown"@
    } else if arguments[1] == utf8("add"@) {
        "add"@
    } else if arguments[1] == utf8("doctor"@) {
        "doctor"@
    } else if arguments[1] == utf8("update"@) {
        "update"@
    } else {
        "unknown"@
    }
}

/// The word for the command in a failure to read the command line.
pub fn command_name(arguments: &Vec<Vec<u8>>) -> (r: &'static str)
    ensures
        r@ == command_word(views(arguments@)),
{
    if arguments.len() < 2 {
        return "unknown";
    }
    let first = arguments[1].as_slice();
    assert(views(arguments@)[1] == first@);
    if same_bytes(first, utf8_of("add")) {
        "add"
    } else if same_bytes(first, utf8_of("doctor")) {
        "doctor"
    } else if same_bytes(first, utf8_of("update")) {
        "update"
    } else {
        "unknown"
    }
}

/// A failure to read the command line is printed as an envelope: it is one,
/// and `--json` stands among the arguments.
pub fn usage_as_json(code: i32, arguments: &Vec<Vec<u8>>) -> (r: bool)
    ensures
        r == (code != 0 && views(arguments@).contains(utf8("--json"@))),
{
    if code == 0 {
        return false;
    }
    for i in 0..arguments.len()
        invariant
            code != 0,
            forall|k: int| 0 <= k < i ==> (#[trigger] views(arguments@)[k]) != utf8("--json"@),
    {
        assert(views(arguments@)[i as int] == arguments@[i as int]@);
        if same_bytes(arguments[i].as_slice(), utf8_of("--json")) {
            return true;
        }
    }
    false
}

/// The status that the program ends with when it could not read its command
/// line: the given one, where a status can be that.
pub fn usage_status(code: i32) -> (r: u8)
    ensures
        r == (if 0 <= code <= 255 {
            code as u8
        } else {
            2
        }),
{
    if 0 <= code && code <= 255 {
        code as u8
    } else {
        2
    }
}

/// A command for the user to run.
pub open spec fn run_line(command: CommandView) -> Seq<char> {
    "run: "@ + command.program + " "@ + joined_text(command.args, " "@)
}

/// What an update prints for a human reader.
pub open spec fn update_text(result: ResultView) -> Seq<Seq<char>> {
    seq![result.message] + result.commands.map_values(|c: CommandView| run_line(c))
}

/// What an update prints for a human reader.
pub fn update_lines(result: &UpdateResult) -> (r: Vec<String>)
    ensures
        text_views(r@) == update_text(result@),
{
    let mut out: Vec<String> = Vec::new();
    out.push(result.message.clone());
    assert(text_views(out@) =~= seq![result@.message]);
    let n: usize = result.commands.len();
    for i in 0..n
        invariant
            n == result.commands@.len(),
            n == result@.commands.len(),
            text_views(out@) == seq![result@.message] + result@.commands.map_values(
                |c: CommandView| run_line(c),
            ).take(i as int),
    {
        let command = &result.commands[i];
        assert(result@.commands[i as int] == command@);
        let line = text4(
            "run: ",
            command.program.as_str(),
            " ",
            join_text(&command.args, " ").as_str(),
        );
        let ghost before = text_views(out@);
        let ghost shown = line@;
        out.push(line);
        let ghost all = result@.commands.map_values(|c: CommandView| run_line(c));
        assert(text_views(out@) =~= before.push(shown));
        assert(shown == all[i as int]);
        assert(all.take(i + 1) =~= all.take(i as int).push(shown));
    }
    let ghost all = result@.commands.map_values(|c: CommandView| run_line(c));
    assert(all.take(n as int) =~= all);
    out
}

} // verus!
