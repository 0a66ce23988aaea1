//! The program-level command: what one invocation asks of the pass file.
//! Reading the raw arguments happens outside this core; the gathered verb
//! and options are interpreted and checked here.

use vstd::prelude::*;
use crate::filepath::SafePath;
use crate::find::{paths_view, MatchKind, RecordPath};
use crate::tui::Config;

verus! {

/// The command to be executed.
pub enum Cmd {
    ShowUsage(Usage),
    ShowVersion(Version),
    HandleFile(FileCmd, SafePath),
}

/// Handling a pass file.
pub enum FileCmd {
    Read(ReadCmd),
    Change(ChangeCmd),
    Create(CreateCmd),
}

/// Reading data from a pass file.
pub enum ReadCmd {
    /// Displaying items' values.
    Show(Vec<RecordPath>, MatchKind),
    /// Copying an item to the clipboard, for the given number of seconds.
    Clip(RecordPath, MatchKind, u64),
    /// Displaying the names of a group's records, or of an item; the root
    /// group if no target is given.
    List(Option<Vec<RecordPath>>, MatchKind),
    /// Displaying a tree of names; the root group if no target is given.
    Tree(Option<Vec<RecordPath>>, MatchKind),
    /// Displaying the data in its interchange form.
    Export,
}

/// Editing a pass file.
pub enum ChangeCmd {
    /// Modifying the data in an editing session.
    Modify(Config),
    /// Changing the password used to access the data.
    ChangePassword,
}

/// Creating a new pass file.
pub enum CreateCmd {
    /// From interchange-form input data.
    Import,
    /// Empty, with the given root group name.
    CreateEmpty(String),
}

/// Asking for the usage text.
pub struct Usage;

/// Asking for version information.
pub struct Version;

#[derive(Debug)]
pub enum Error {
    /// A command that needs a target got none.
    MissingValue,
    /// A command got a target it takes no use of.
    UnexpectedArgument(String),
}

/// The non-algebraic file command, as gathered from the raw arguments.
#[derive(Clone, Copy, PartialEq, Eq, Structural)]
pub enum FileCmdVerb {
    Show,
    Clip,
    List,
    Tree,
    Edit,
    ChangePassword,
    Export,
    Import,
    CreateEmpty,
}

/// Options gathered from the raw arguments, relevant to handling a file.
pub struct FileCmdOpts {
    /// The raw dot-delimited paths of the target records.
    pub record_paths_raw: Vec<String>,
    pub match_kind: MatchKind,
    /// Seconds to keep a clipped value.
    pub clip_time: u64,
    /// The root group name for a newly created file.
    pub root_name: String,
}

impl FileCmdVerb {
    /// Whether `other` cannot logically supersede `self`: true exactly
    /// when `self` was already set to something other than the default
    /// command and `other` differs from it.
    pub fn conflicts_with(self, other: Self) -> (r: bool)
        ensures
            r == (self != other && !(self is Show)),
    {
        let differs = match (self, other) {
            (FileCmdVerb::Show, FileCmdVerb::Show) => false,
            (FileCmdVerb::Clip, FileCmdVerb::Clip) => false,
            (FileCmdVerb::List, FileCmdVerb::List) => false,
            (FileCmdVerb::Tree, FileCmdVerb::Tree) => false,
            (FileCmdVerb::Edit, FileCmdVerb::Edit) => false,
            (FileCmdVerb::ChangePassword, FileCmdVerb::ChangePassword) => false,
            (FileCmdVerb::Export, FileCmdVerb::Export) => false,
            (FileCmdVerb::Import, FileCmdVerb::Import) => false,
            (FileCmdVerb::CreateEmpty, FileCmdVerb::CreateEmpty) => false,
            _ => true,
        };
        let is_default = match self {
            FileCmdVerb::Show => true,
            _ => false,
        };
        differs && !is_default
    }
}

/// Turns raw argument strings into record paths.
fn paths_of(args: Vec<String>) -> (r: Vec<RecordPath>)
    ensures
        r@.len() == args@.len(),
        paths_view(r@) == args.deep_view(),
{
    let mut args = args;
    let ghost dv = args.deep_view();
    let mut out: Vec<RecordPath> = Vec::new();
    let n: usize = args.len();
    let mut i: usize = 0;
    proof {
        assert(dv.len() == n);
    }
    while i < n
        invariant
            dv.len() == n,
            i <= n,
            args@.len() == n - i,
            forall|j: int| 0 <= j < args@.len() ==> #[trigger] args@[j]@ == dv[j + i],
            out@.len() == i,
            forall|j: int| 0 <= j < i ==> (#[trigger] out@[j])@ == dv[j],
        decreases n - i,
    {
        let a = args.remove(0);
        proof {
            assert(a@ == dv[i as int]);
        }
        out.push(RecordPath::from_string(a));
        i = i + 1;
    }
    proof {
        assert(paths_view(out@) =~= dv);
    }
    out
}

/// Converts an empty target list to "no targets given".
pub fn empty_or_some(v: Vec<RecordPath>) -> (r: Option<Vec<RecordPath>>)
    ensures
        r matches Some(w) ==> w == v && v@.len() > 0,
        r is None <==> v@.len() == 0,
{
    if v.len() == 0 {
        None
    } else {
        Some(v)
    }
}

impl FileCmd {
    /// Builds the file command a verb and the gathered options ask for,
    /// checking that the targets fit the verb: showing and clipping need
    /// one, clipping takes at most one, and the editing, password,
    /// import and export commands take none.
    pub fn from_parts(cmd: FileCmdVerb, opts: FileCmdOpts) -> (r: Result<FileCmd, Error>)
        ensures
            r matches Ok(fc) ==> match fc {
                FileCmd::Read(ReadCmd::Show(ps, mk)) => cmd is Show
                    && paths_view(ps@) == opts.record_paths_raw.deep_view() && ps@.len() > 0
                    && mk == opts.match_kind,
                FileCmd::Read(ReadCmd::Clip(p, mk, t)) => cmd is Clip
                    && opts.record_paths_raw@.len() == 1
                    && p@ == opts.record_paths_raw.deep_view()[0] && mk == opts.match_kind
                    && t == opts.clip_time,
                FileCmd::Read(ReadCmd::List(ps, mk)) => cmd is List && mk == opts.match_kind
                    && (ps is None <==> opts.record_paths_raw@.len() == 0)
                    && (ps matches Some(v) ==> paths_view(v@)
                        == opts.record_paths_raw.deep_view()),
                FileCmd::Read(ReadCmd::Tree(ps, mk)) => cmd is Tree && mk == opts.match_kind
                    && (ps is None <==> opts.record_paths_raw@.len() == 0)
                    && (ps matches Some(v) ==> paths_view(v@)
                        == opts.record_paths_raw.deep_view()),
                FileCmd::Read(ReadCmd::Export) => cmd is Export
                    && opts.record_paths_raw@.len() == 0,
                FileCmd::Change(ChangeCmd::Modify(conf)) => cmd is Edit
                    && opts.record_paths_raw@.len() == 0 && conf.match_kind == opts.match_kind
                    && conf.clip_time == opts.clip_time,
                FileCmd::Change(ChangeCmd::ChangePassword) => cmd is ChangePassword
                    && opts.record_paths_raw@.len() == 0,
                FileCmd::Create(CreateCmd::Import) => cmd is Import
                    && opts.record_paths_raw@.len() == 0,
                FileCmd::Create(CreateCmd::CreateEmpty(name)) => cmd is CreateEmpty
                    && name@ == opts.root_name@,
            },
            r matches Err(e) ==> match cmd {
                FileCmdVerb::Show => e is MissingValue && opts.record_paths_raw@.len() == 0,
                FileCmdVerb::Clip => (e is MissingValue && opts.record_paths_raw@.len() == 0)
                    || (e is UnexpectedArgument && opts.record_paths_raw@.len() > 1),
                FileCmdVerb::Edit | FileCmdVerb::ChangePassword | FileCmdVerb::Export
                    | FileCmdVerb::Import => e is UnexpectedArgument
                    && opts.record_paths_raw@.len() > 0,
                _ => false,
            },
    {
        let FileCmdOpts { record_paths_raw, match_kind, clip_time, root_name } = opts;
        let n: usize = record_paths_raw.len();
        match cmd {
            FileCmdVerb::Show => {
                if n == 0 {
                    return Err(Error::MissingValue);
                }
                Ok(FileCmd::Read(ReadCmd::Show(paths_of(record_paths_raw), match_kind)))
            },
            FileCmdVerb::Clip => {
                if n == 0 {
                    return Err(Error::MissingValue);
                }
                if n > 1 {
                    let mut record_paths_raw = record_paths_raw;
                    return Err(Error::UnexpectedArgument(record_paths_raw.remove(1)));
                }
                let mut record_paths_raw = record_paths_raw;
                let p = record_paths_raw.remove(0);
                Ok(FileCmd::Read(ReadCmd::Clip(
                    RecordPath::from_string(p),
                    match_kind,
                    clip_time,
                )))
            },
            FileCmdVerb::List => Ok(FileCmd::Read(ReadCmd::List(
                empty_or_some(paths_of(record_paths_raw)),
                match_kind,
            ))),
            FileCmdVerb::Tree => Ok(FileCmd::Read(ReadCmd::Tree(
                empty_or_some(paths_of(record_paths_raw)),
                match_kind,
            ))),
            FileCmdVerb::Edit => {
                if n > 0 {
                    let mut record_paths_raw = record_paths_raw;
                    return Err(Error::UnexpectedArgument(record_paths_raw.remove(0)));
                }
                Ok(FileCmd::Change(ChangeCmd::Modify(Config { match_kind, clip_time })))
            },
            FileCmdVerb::ChangePassword => {
                if n > 0 {
                    let mut record_paths_raw = record_paths_raw;
                    return Err(Error::UnexpectedArgument(record_paths_raw.remove(0)));
                }
                Ok(FileCmd::Change(ChangeCmd::ChangePassword))
            },
            FileCmdVerb::Export => {
                if n > 0 {
                    let mut record_paths_raw = record_paths_raw;
                    return Err(Error::UnexpectedArgument(record_paths_raw.remove(0)));
                }
                Ok(FileCmd::Read(ReadCmd::Export))
            },
            FileCmdVerb::Import => {
                if n > 0 {
                    let mut record_paths_raw = record_paths_raw;
                    return Err(Error::UnexpectedArgument(record_paths_raw.remove(0)));
                }
                Ok(FileCmd::Create(CreateCmd::Import))
            },
            FileCmdVerb::CreateEmpty => Ok(FileCmd::Create(CreateCmd::CreateEmpty(root_name))),
        }
    }
}

} // verus!
