//! The editing session's command layer: the verb grammar of the line
//! editor, argument arity checks, option values, and the session state
//! that decides when the tree is saved. The interactive loop itself —
//! prompting, reading lines, printing — lives outside this core; it hands
//! each line here and performs what the parsed command asks.

use vstd::prelude::*;
use vstd::string::{StringExecFns, StrSliceExecFns};
use crate::find::{
    lemma_segments_wf, paths_view, seg_ok, segments_of, spec_match_kind, MatchKind, RecordPath,
};
use crate::record::str_eq;

verus! {

/// The command a line of input asks for.
pub enum Cmd {
    Read(ReadCmd),
    Edit(EditCmd),
    Meta(MetaCmd),
}

/// Obtaining or showing data.
pub enum ReadCmd {
    Show(Vec<RecordPath>),
    Clip(RecordPath),
    List(Option<Vec<RecordPath>>),
    Tree(Option<Vec<RecordPath>>),
    Export,
}

/// Editing data.
pub enum EditCmd {
    Remove { paths: Vec<RecordPath> },
    Move { src: RecordPath, dest: RecordPath },
    Copy { src: RecordPath, dest: RecordPath },
    CreateGroup { paths: Vec<SplitPath> },
    CreateItem { paths: Vec<SplitPath> },
    ChangeValue { paths: Vec<RecordPath> },
}

/// Session management and information.
pub enum MetaCmd {
    /// Changes the session's own configuration, not the stored data.
    SetOpt(OptVal),
    ShowConfig,
    ShowUsage(Option<Vec<CmdVerb>>),
    /// Leaves the session, saving changes.
    Exit,
    /// Leaves the session without saving.
    Abort,
}

/// A path split into its parent group and a trailing name, which is
/// guaranteed to carry no delimiter.
pub struct SplitPath {
    pub group: RecordPath,
    pub name: String,
}

/// A configuration option together with its new value.
#[derive(Clone, Copy)]
pub enum OptVal {
    /// Seconds to keep a value in the clipboard.
    ClipTime(u64),
    MatchKind(MatchKind),
}

/// The plain verb of a command, before its arguments are interpreted.
#[derive(Clone, Copy, PartialEq, Eq, Structural)]
pub enum CmdVerb {
    Show,
    Clip,
    List,
    Tree,
    Export,
    Remove,
    Move,
    Copy,
    CreateItem,
    CreateGroup,
    ChangeValue,
    SetOption,
    ShowConfig,
    ShowUsage,
    Exit,
    Abort,
}

#[derive(Debug)]
pub enum Error {
    /// The line could not be split into words.
    InvalidInput,
    /// No verb of this name exists.
    InvalidCmd(String),
    MissingArg,
    ExtraArg(String),
    InvalidArg(String),
    /// The path has no trailing segment to use as a new record name.
    InvalidName(RecordPath),
    InvalidIntArg(String),
}

/// What a line's words may have been, split shell-style. Deterministic in
/// the line; `None` where quoting is mismatched.
pub uninterp spec fn shell_words_of(s: Seq<char>) -> Option<Seq<Seq<char>>>;

/// Relies on shell_words::split: POSIX-shell-style word splitting of one
/// line, a pure function of the string, named `shell_words_of` here; it
/// fails exactly where quoting is mismatched.
#[verifier::external_body]
fn shell_split(s: &str) -> (r: Option<Vec<String>>)
    ensures
        r matches Some(v) ==> shell_words_of(s@) == Some(v.deep_view()),
        r is None ==> shell_words_of(s@) is None,
{
    match shell_words::split(s) {
        Ok(w) => Some(w),
        Err(_) => None,
    }
}

/// The verb each spelling names.
pub open spec fn spec_verb(s: Seq<char>) -> Option<CmdVerb> {
    if s == "sh"@ || s == "show"@ {
        Some(CmdVerb::Show)
    } else if s == "cl"@ || s == "clip"@ {
        Some(CmdVerb::Clip)
    } else if s == "ls"@ || s == "list"@ {
        Some(CmdVerb::List)
    } else if s == "tr"@ || s == "tree"@ {
        Some(CmdVerb::Tree)
    } else if s == "ex"@ || s == "export"@ {
        Some(CmdVerb::Export)
    } else if s == "rm"@ || s == "remove"@ {
        Some(CmdVerb::Remove)
    } else if s == "mv"@ || s == "move"@ {
        Some(CmdVerb::Move)
    } else if s == "cp"@ || s == "copy"@ {
        Some(CmdVerb::Copy)
    } else if s == "mg"@ || s == "mkgrp"@ {
        Some(CmdVerb::CreateGroup)
    } else if s == "mi"@ || s == "mkitm"@ {
        Some(CmdVerb::CreateItem)
    } else if s == "cv"@ || s == "chval"@ {
        Some(CmdVerb::ChangeValue)
    } else if s == "so"@ || s == "setopt"@ {
        Some(CmdVerb::SetOption)
    } else if s == "sc"@ || s == "showconf"@ {
        Some(CmdVerb::ShowConfig)
    } else if s == "hp"@ || s == "help"@ {
        Some(CmdVerb::ShowUsage)
    } else if s == "et"@ || s == "exit"@ {
        Some(CmdVerb::Exit)
    } else if s == "at"@ || s == "abort"@ {
        Some(CmdVerb::Abort)
    } else {
        None
    }
}

impl CmdVerb {
    /// Reads a verb from its short or long spelling.
    pub fn from_str(s: &str) -> (r: Result<CmdVerb, Error>)
        ensures
            r matches Ok(v) ==> spec_verb(s@) == Some(v),
            r matches Err(e) ==> spec_verb(s@) is None && (e matches Error::InvalidCmd(c)
                && c@ == s@),
    {
        if str_eq(s, "sh") || str_eq(s, "show") {
            Ok(CmdVerb::Show)
        } else if str_eq(s, "cl") || str_eq(s, "clip") {
            Ok(CmdVerb::Clip)
        } else if str_eq(s, "ls") || str_eq(s, "list") {
            Ok(CmdVerb::List)
        } else if str_eq(s, "tr") || str_eq(s, "tree") {
            Ok(CmdVerb::Tree)
        } else if str_eq(s, "ex") || str_eq(s, "export") {
            Ok(CmdVerb::Export)
        } else if str_eq(s, "rm") || str_eq(s, "remove") {
            Ok(CmdVerb::Remove)
        } else if str_eq(s, "mv") || str_eq(s, "move") {
            Ok(CmdVerb::Move)
        } else if str_eq(s, "cp") || str_eq(s, "copy") {
            Ok(CmdVerb::Copy)
        } else if str_eq(s, "mg") || str_eq(s, "mkgrp") {
            Ok(CmdVerb::CreateGroup)
        } else if str_eq(s, "mi") || str_eq(s, "mkitm") {
            Ok(CmdVerb::CreateItem)
        } else if str_eq(s, "cv") || str_eq(s, "chval") {
            Ok(CmdVerb::ChangeValue)
        } else if str_eq(s, "so") || str_eq(s, "setopt") {
            Ok(CmdVerb::SetOption)
        } else if str_eq(s, "sc") || str_eq(s, "showconf") {
            Ok(CmdVerb::ShowConfig)
        } else if str_eq(s, "hp") || str_eq(s, "help") {
            Ok(CmdVerb::ShowUsage)
        } else if str_eq(s, "et") || str_eq(s, "exit") {
            Ok(CmdVerb::Exit)
        } else if str_eq(s, "at") || str_eq(s, "abort") {
            Ok(CmdVerb::Abort)
        } else {
            Err(Error::InvalidCmd(s.to_owned()))
        }
    }

    /// Whether an argument list of the given length fits the verb.
    pub open spec fn arity_ok(self, n: nat) -> bool {
        match self {
            CmdVerb::Export | CmdVerb::Exit | CmdVerb::Abort | CmdVerb::ShowConfig => n == 0,
            CmdVerb::Clip => n == 1,
            CmdVerb::Move | CmdVerb::Copy | CmdVerb::SetOption => n == 2,
            CmdVerb::Show | CmdVerb::CreateGroup | CmdVerb::CreateItem | CmdVerb::ChangeValue
                | CmdVerb::Remove => n >= 1,
            CmdVerb::List | CmdVerb::Tree | CmdVerb::ShowUsage => true,
        }
    }

    /// Verifies the number of arguments against the verb, handing the
    /// arguments back unchanged when it fits.
    pub fn check_args(self, a: Vec<String>) -> (r: Result<Vec<String>, Error>)
        ensures
            r matches Ok(b) ==> b == a && self.arity_ok(a@.len()),
            r matches Err(e) ==> !self.arity_ok(a@.len())
                && (e is MissingArg || e is ExtraArg),
    {
        match self {
            CmdVerb::Export | CmdVerb::Exit | CmdVerb::Abort | CmdVerb::ShowConfig => {
                if a.len() == 0 {
                    Ok(a)
                } else {
                    let mut a = a;
                    Err(Error::ExtraArg(a.remove(0)))
                }
            },
            CmdVerb::Clip => {
                if a.len() == 1 {
                    Ok(a)
                } else if a.len() == 0 {
                    Err(Error::MissingArg)
                } else {
                    let mut a = a;
                    Err(Error::ExtraArg(a.remove(1)))
                }
            },
            CmdVerb::Move | CmdVerb::Copy | CmdVerb::SetOption => {
                if a.len() == 2 {
                    Ok(a)
                } else if a.len() < 2 {
                    Err(Error::MissingArg)
                } else {
                    let mut a = a;
                    Err(Error::ExtraArg(a.remove(2)))
                }
            },
            CmdVerb::Show | CmdVerb::CreateGroup | CmdVerb::CreateItem | CmdVerb::ChangeValue
                | CmdVerb::Remove => {
                if a.len() > 0 {
                    Ok(a)
                } else {
                    Err(Error::MissingArg)
                }
            },
            CmdVerb::List | CmdVerb::Tree | CmdVerb::ShowUsage => Ok(a),
        }
    }
}

/// A digit character.
pub open spec fn is_digit(c: char) -> bool {
    '0' <= c <= '9'
}

/// Only digits, and at least one.
pub open spec fn all_digits(s: Seq<char>) -> bool {
    s.len() > 0 && forall|i: int| 0 <= i < s.len() ==> is_digit(#[trigger] s[i])
}

/// The number a digit string denotes.
pub open spec fn dec_val(s: Seq<char>) -> int
    decreases s.len(),
{
    if s.len() == 0 {
        0
    } else {
        dec_val(s.drop_last()) * 10 + (s.last() as int - '0' as int)
    }
}

proof fn lemma_dec_val_nonneg(s: Seq<char>)
    requires
        forall|i: int| 0 <= i < s.len() ==> is_digit(#[trigger] s[i]),
    ensures
        dec_val(s) >= 0,
    decreases s.len(),
{
    if s.len() > 0 {
        assert forall|i: int| 0 <= i < s.drop_last().len()
            implies is_digit(#[trigger] s.drop_last()[i]) by {
            assert(s.drop_last()[i] == s[i]);
        }
        lemma_dec_val_nonneg(s.drop_last());
    }
}

proof fn lemma_dec_val_mono(s: Seq<char>, i: int)
    requires
        0 <= i <= s.len(),
        forall|j: int| 0 <= j < s.len() ==> is_digit(#[trigger] s[j]),
    ensures
        dec_val(s.take(i)) <= dec_val(s),
    decreases s.len() - i,
{
    if i < s.len() {
        lemma_dec_val_mono(s, i + 1);
        assert(s.take(i + 1).drop_last() =~= s.take(i));
        assert(s.take(i + 1).last() == s[i]);
        assert forall|j: int| 0 <= j < s.take(i).len()
            implies is_digit(#[trigger] s.take(i)[j]) by {
            assert(s.take(i)[j] == s[j]);
        }
        lemma_dec_val_nonneg(s.take(i));
        assert(dec_val(s.take(i + 1)) == dec_val(s.take(i)) * 10 + (s[i] as int - '0' as int));
        assert(dec_val(s.take(i)) * 10 >= dec_val(s.take(i))) by (nonlinear_arith)
            requires dec_val(s.take(i)) >= 0;
    } else {
        assert(s.take(i) =~= s);
    }
}

/// Reads an unsigned decimal number; fails on anything but digits, and on
/// a value beyond the 64-bit range.
pub fn parse_u64(s: &str) -> (r: Option<u64>)
    ensures
        r matches Some(v) ==> all_digits(s@) && dec_val(s@) == v,
        r is None ==> s@.len() == 0 || !all_digits(s@) || dec_val(s@) > u64::MAX,
{
    let n: usize = s.unicode_len();
    if n == 0 {
        return None;
    }
    let mut acc: u128 = 0;
    let mut i: usize = 0;
    while i < n
        invariant
            n == s@.len(),
            i <= n,
            forall|j: int| 0 <= j < i ==> is_digit(#[trigger] s@[j]),
            acc == dec_val(s@.take(i as int)),
            acc <= u64::MAX,
        decreases n - i,
    {
        let c = s.get_char(i);
        if c < '0' || c > '9' {
            return None;
        }
        let d: u32 = c as u32;
        let dv: u128 = (d - 48) as u128;
        proof {
            assert(s@.take(i + 1).drop_last() =~= s@.take(i as int));
            assert(s@.take(i + 1).last() == s@[i as int]);
        }
        acc = acc * 10 + dv;
        if acc > u64::MAX as u128 {
            proof {
                assert forall|j: int| 0 <= j < s@.len() implies is_digit(#[trigger] s@[j])
                    || !all_digits(s@) by {}
                if all_digits(s@) {
                    lemma_dec_val_mono(s@, i + 1);
                }
            }
            return None;
        }
        i = i + 1;
    }
    proof {
        assert(s@.take(n as int) =~= s@);
    }
    Some(acc as u64)
}

impl OptVal {
    /// Reads an option setting from its name and its value: the clipboard
    /// time in seconds, or the match kind.
    pub fn new(name: String, val: String) -> (r: Result<OptVal, Error>)
        ensures
            r matches Ok(o) ==> match o {
                OptVal::ClipTime(t) => (name@ == "ct"@ || name@ == "clip-time"@)
                    && all_digits(val@) && dec_val(val@) == t,
                OptVal::MatchKind(k) => (name@ == "mk"@ || name@ == "match-kind"@)
                    && spec_match_kind(val@) == Some(k),
            },
            r matches Err(e) ==> e is InvalidArg || e is InvalidIntArg,
    {
        if str_eq(name.as_str(), "ct") || str_eq(name.as_str(), "clip-time") {
            match parse_u64(val.as_str()) {
                Some(t) => Ok(OptVal::ClipTime(t)),
                None => Err(Error::InvalidIntArg(val)),
            }
        } else if str_eq(name.as_str(), "mk") || str_eq(name.as_str(), "match-kind") {
            match MatchKind::from_str(val.as_str()) {
                Some(k) => Ok(OptVal::MatchKind(k)),
                None => Err(Error::InvalidArg(val)),
            }
        } else {
            Err(Error::InvalidArg(name))
        }
    }
}

/// Splits each path into its parent path and its trailing segment, which
/// becomes the new record's name: non-empty and free of delimiters, so
/// every name created through here is a valid record name. A path without
/// segments has no usable name.
pub fn split_each(paths: Vec<RecordPath>) -> (r: Result<Vec<SplitPath>, Error>)
    ensures
        r matches Ok(v) ==> v@.len() == paths@.len() && forall|i: int|
            0 <= i < v@.len() ==> {
                let segs = #[trigger] segments_of(paths_view(paths@)[i]);
                &&& segs.len() > 0
                &&& v@[i].name@ == segs.last()
                &&& seg_ok(v@[i].name@)
                &&& segments_of(v@[i].group@) == segs.drop_last()
            },
        r matches Err(e) ==> e is InvalidName,
{
    let ghost pv = paths_view(paths@);
    let mut paths = paths;
    let mut out: Vec<SplitPath> = Vec::new();
    let n: usize = paths.len();
    let mut i: usize = 0;
    while i < n
        invariant
            pv.len() == n,
            i <= n,
            paths@.len() == n - i,
            forall|j: int| 0 <= j < n - i ==> #[trigger] paths@[j]@ == pv[j + i],
            out@.len() == i,
            forall|j: int| 0 <= j < i ==> {
                let segs = #[trigger] segments_of(pv[j]);
                &&& segs.len() > 0
                &&& out@[j].name@ == segs.last()
                &&& seg_ok(out@[j].name@)
                &&& segments_of(out@[j].group@) == segs.drop_last()
            },
        decreases n - i,
    {
        let p = paths.remove(0);
        let ghost pview = p@;
        proof {
            assert(pview == pv[i as int]);
            lemma_segments_wf(pview);
        }
        match p.split_last() {
            Ok((leading, trailing)) => {
                proof {
                    assert(segments_of(pview).len() > 0);
                    assert(seg_ok(segments_of(pview).last()));
                }
                let name_str = trailing.into_inner();
                let ghost nm = name_str@;
                let ghost lead_view = leading@;
                let ghost out0 = out@;
                out.push(SplitPath { group: leading, name: name_str });
                proof {
                    assert forall|j: int| 0 <= j < i + 1 implies {
                        let segs = #[trigger] segments_of(pv[j]);
                        &&& segs.len() > 0
                        &&& out@[j].name@ == segs.last()
                        &&& seg_ok(out@[j].name@)
                        &&& segments_of(out@[j].group@) == segs.drop_last()
                    } by {
                        if j < i {
                            assert(out@[j] == out0[j]);
                        } else {
                            assert(segments_of(pv[j]).len() > 0);
                            assert(out@[j].name@ == nm);
                            assert(out@[j].group@ == lead_view);
                        }
                    }
                }
            },
            Err(p) => {
                return Err(Error::InvalidName(p));
            },
        }
        i = i + 1;
    }
    Ok(out)
}

/// Turns plain argument strings into record paths.
fn paths_of(args: Vec<String>) -> (r: Vec<RecordPath>)
    ensures
        r@.len() == args@.len(),
        paths_view(r@) == args.deep_view(),
        forall|i: int| 0 <= i < r@.len() ==> (#[trigger] r@[i])@ == args.deep_view()[i],
{
    let mut args = args;
    let ghost dv = args.deep_view();
    let mut out: Vec<RecordPath> = Vec::new();
    let n: usize = args.len();
    let mut i: usize = 0;
    proof {
        assert(dv.len() == n);
    }
    while i < n
        invariant
            dv.len() == n,
            i <= n,
            args@.len() == n - i,
            forall|j: int| 0 <= j < args@.len() ==> #[trigger] args@[j]@ == dv[j + i],
            out@.len() == i,
            forall|j: int| 0 <= j < i ==> (#[trigger] out@[j])@ == dv[j],
        decreases n - i,
    {
        let a = args.remove(0);
        proof {
            assert(a@ == dv[i as int]);
        }
        out.push(RecordPath::from_string(a));
        i = i + 1;
    }
    proof {
        assert(paths_view(out@) =~= dv);
    }
    out
}

impl Cmd {
    /// Builds the command a verb and its checked arguments ask for.
    pub fn from_parts(verb: CmdVerb, args: Vec<String>) -> (r: Result<Cmd, Error>)
        ensures
            r matches Ok(cmd) ==> verb.arity_ok(args@.len()) && match cmd {
                Cmd::Read(ReadCmd::Export) => verb is Export,
                Cmd::Read(ReadCmd::Show(ps)) => verb is Show
                    && paths_view(ps@) == args.deep_view(),
                Cmd::Read(ReadCmd::Clip(p)) => verb is Clip && p@ == args.deep_view()[0],
                Cmd::Read(ReadCmd::List(ps)) => verb is List
                    && (ps is Some <==> args@.len() > 0)
                    && (ps matches Some(v) ==> paths_view(v@) == args.deep_view()),
                Cmd::Read(ReadCmd::Tree(ps)) => verb is Tree
                    && (ps is Some <==> args@.len() > 0)
                    && (ps matches Some(v) ==> paths_view(v@) == args.deep_view()),
                Cmd::Edit(EditCmd::Remove { paths }) => verb is Remove
                    && paths_view(paths@) == args.deep_view(),
                Cmd::Edit(EditCmd::Move { .. }) => verb is Move,
                Cmd::Edit(EditCmd::Copy { .. }) => verb is Copy,
                Cmd::Edit(EditCmd::CreateGroup { paths }) => verb is CreateGroup
                    && paths@.len() == args@.len(),
                Cmd::Edit(EditCmd::CreateItem { paths }) => verb is CreateItem
                    && paths@.len() == args@.len(),
                Cmd::Edit(EditCmd::ChangeValue { paths }) => verb is ChangeValue
                    && paths_view(paths@) == args.deep_view(),
                Cmd::Meta(MetaCmd::SetOpt(_)) => verb is SetOption,
                Cmd::Meta(MetaCmd::ShowConfig) => verb is ShowConfig,
                Cmd::Meta(MetaCmd::ShowUsage(vs)) => verb is ShowUsage
                    && (vs is Some <==> args@.len() > 0),
                Cmd::Meta(MetaCmd::Exit) => verb is Exit,
                Cmd::Meta(MetaCmd::Abort) => verb is Abort,
            },
            r matches Err(e) ==> match e {
                Error::MissingArg | Error::ExtraArg(_) => !verb.arity_ok(args@.len()),
                Error::InvalidCmd(c) => verb is ShowUsage && spec_verb(c@) is None,
                Error::InvalidName(_) => verb is CreateGroup || verb is CreateItem,
                Error::InvalidArg(_) | Error::InvalidIntArg(_) => verb is SetOption,
                Error::InvalidInput => false,
            },
            verb.arity_ok(args@.len()) && !(verb is ShowUsage) && !(verb is SetOption)
                && !(verb is CreateGroup) && !(verb is CreateItem) ==> r is Ok,
    {
        let have_args: bool = args.len() > 0;
        let mut args = match verb.check_args(args) {
            Ok(a) => a,
            Err(e) => {
                return Err(e);
            },
        };
        match verb {
            CmdVerb::Export => Ok(Cmd::Read(ReadCmd::Export)),
            CmdVerb::Exit => Ok(Cmd::Meta(MetaCmd::Exit)),
            CmdVerb::Abort => Ok(Cmd::Meta(MetaCmd::Abort)),
            CmdVerb::ShowConfig => Ok(Cmd::Meta(MetaCmd::ShowConfig)),
            CmdVerb::Clip => {
                let a = args.remove(0);
                Ok(Cmd::Read(ReadCmd::Clip(RecordPath::from_string(a))))
            },
            CmdVerb::ChangeValue => Ok(Cmd::Edit(EditCmd::ChangeValue { paths: paths_of(args) })),
            CmdVerb::Show => Ok(Cmd::Read(ReadCmd::Show(paths_of(args)))),
            CmdVerb::Remove => Ok(Cmd::Edit(EditCmd::Remove { paths: paths_of(args) })),
            CmdVerb::CreateGroup => match split_each(paths_of(args)) {
                Ok(paths) => Ok(Cmd::Edit(EditCmd::CreateGroup { paths })),
                Err(e) => Err(e),
            },
            CmdVerb::CreateItem => match split_each(paths_of(args)) {
                Ok(paths) => Ok(Cmd::Edit(EditCmd::CreateItem { paths })),
                Err(e) => Err(e),
            },
            CmdVerb::List => Ok(Cmd::Read(ReadCmd::List(
                if have_args {
                    Some(paths_of(args))
                } else {
                    None
                },
            ))),
            CmdVerb::Tree => Ok(Cmd::Read(ReadCmd::Tree(
                if have_args {
                    Some(paths_of(args))
                } else {
                    None
                },
            ))),
            CmdVerb::ShowUsage => {
                if have_args {
                    let mut verbs: Vec<CmdVerb> = Vec::new();
                    let n: usize = args.len();
                    let mut i: usize = 0;
                    while i < n
                        invariant
                            verb is ShowUsage,
                            i <= n,
                            args@.len() == n - i,
                        decreases n - i,
                    {
                        let a = args.remove(0);
                        match CmdVerb::from_str(a.as_str()) {
                            Ok(v) => verbs.push(v),
                            Err(e) => {
                                return Err(e);
                            },
                        }
                        i = i + 1;
                    }
                    Ok(Cmd::Meta(MetaCmd::ShowUsage(Some(verbs))))
                } else {
                    Ok(Cmd::Meta(MetaCmd::ShowUsage(None)))
                }
            },
            CmdVerb::Move => {
                let src = args.remove(0);
                let dest = args.remove(0);
                Ok(Cmd::Edit(EditCmd::Move {
                    src: RecordPath::from_string(src),
                    dest: RecordPath::from_string(dest),
                }))
            },
            CmdVerb::Copy => {
                let src = args.remove(0);
                let dest = args.remove(0);
                Ok(Cmd::Edit(EditCmd::Copy {
                    src: RecordPath::from_string(src),
                    dest: RecordPath::from_string(dest),
                }))
            },
            CmdVerb::SetOption => {
                let name = args.remove(0);
                let val = args.remove(0);
                match OptVal::new(name, val) {
                    Ok(o) => Ok(Cmd::Meta(MetaCmd::SetOpt(o))),
                    Err(e) => Err(e),
                }
            },
        }
    }

    /// Reads a command from one line of input: the line is split into
    /// shell-style words, the first word names the verb, the rest are its
    /// arguments. An empty line asks for nothing.
    pub fn from_str(s: &str) -> (r: Result<Option<Cmd>, Error>)
        ensures
            r matches Ok(None) ==> shell_words_of(s@) == Some(Seq::<Seq<char>>::empty()),
            r matches Ok(Some(_)) ==> (shell_words_of(s@) matches Some(ws) && ws.len() > 0
                && spec_verb(ws[0]) is Some),
            r matches Err(e) ==> (e is InvalidInput <==> shell_words_of(s@) is None),
            r matches Err(e) ==> (e matches Error::InvalidCmd(c) ==> spec_verb(c@) is None),
    {
        let mut words = match shell_split(s) {
            Some(w) => w,
            None => {
                return Err(Error::InvalidInput);
            },
        };
        if words.len() == 0 {
            proof {
                assert(words.deep_view() =~= Seq::<Seq<char>>::empty());
            }
            return Ok(None);
        }
        let ghost ws = words.deep_view();
        let verb_word = words.remove(0);
        proof {
            assert(verb_word@ == ws[0]);
        }
        let verb = match CmdVerb::from_str(verb_word.as_str()) {
            Ok(v) => v,
            Err(e) => {
                return Err(e);
            },
        };
        match Cmd::from_parts(verb, words) {
            Ok(cmd) => Ok(Some(cmd)),
            Err(e) => Err(e),
        }
    }
}

/// How the editing session stands.
#[derive(Clone, Copy, PartialEq, Eq, Structural)]
pub enum Status {
    /// The session is running.
    Running,
    /// The session ended normally: changes may be saved.
    Stopped,
    /// The session ended abnormally: the file must not be written.
    Aborted,
    /// This process holds the clipboard: the file must not be written, so
    /// the parent process alone touches it.
    Clipped,
}

/// The session's configuration: how paths are matched and how long the
/// clipboard holds a value, in seconds.
pub struct Config {
    pub match_kind: MatchKind,
    pub clip_time: u64,
}

impl Config {
    /// Applies one option setting.
    pub fn set(&mut self, opt: OptVal)
        ensures
            match opt {
                OptVal::ClipTime(t) => final(self).clip_time == t
                    && final(self).match_kind == old(self).match_kind,
                OptVal::MatchKind(k) => final(self).match_kind == k
                    && final(self).clip_time == old(self).clip_time,
            },
    {
        match opt {
            OptVal::ClipTime(t) => self.clip_time = t,
            OptVal::MatchKind(k) => self.match_kind = k,
        }
    }
}

/// The editing session's state: its configuration, whether any change was
/// made, and how it stands.
pub struct Tui {
    conf: Config,
    changes_made: bool,
    status: Status,
}

impl Tui {
    pub closed spec fn spec_status(&self) -> Status {
        self.status
    }

    pub closed spec fn spec_changes_made(&self) -> bool {
        self.changes_made
    }

    pub closed spec fn spec_conf(&self) -> Config {
        self.conf
    }

    pub fn new(conf: Config) -> (r: Self)
        ensures
            r.spec_conf() == conf,
            !r.spec_changes_made(),
            r.spec_status() is Stopped,
    {
        Tui { conf, changes_made: false, status: Status::Stopped }
    }

    pub fn status(&self) -> (r: Status)
        ensures
            r == self.spec_status(),
    {
        self.status
    }

    pub fn config(&self) -> (r: &Config)
        ensures
            *r == self.spec_conf(),
    {
        &self.conf
    }

    /// Marks the session running.
    pub fn start(&mut self)
        ensures
            final(self).spec_status() is Running,
            final(self).spec_conf() == old(self).spec_conf(),
            final(self).spec_changes_made() == old(self).spec_changes_made(),
    {
        self.status = Status::Running;
    }

    /// Records the outcome of one command on the session state.
    pub fn set_status(&mut self, status: Status)
        ensures
            final(self).spec_status() == status,
            final(self).spec_conf() == old(self).spec_conf(),
            final(self).spec_changes_made() == old(self).spec_changes_made(),
    {
        self.status = status;
    }

    /// Records that the stored data was changed.
    pub fn mark_changed(&mut self)
        ensures
            final(self).spec_changes_made(),
            final(self).spec_conf() == old(self).spec_conf(),
            final(self).spec_status() == old(self).spec_status(),
    {
        self.changes_made = true;
    }

    /// Applies one option setting to the session's configuration.
    pub fn set_opt(&mut self, opt: OptVal)
        ensures
            final(self).spec_status() == old(self).spec_status(),
            final(self).spec_changes_made() == old(self).spec_changes_made(),
            match opt {
                OptVal::ClipTime(t) => final(self).spec_conf().clip_time == t
                    && final(self).spec_conf().match_kind == old(self).spec_conf().match_kind,
                OptVal::MatchKind(k) => final(self).spec_conf().match_kind == k
                    && final(self).spec_conf().clip_time == old(self).spec_conf().clip_time,
            },
    {
        self.conf.set(opt);
    }

    /// The data is written back exactly when the session ended normally
    /// and some change was made.
    pub fn should_save_data(&self) -> (r: bool)
        ensures
            r == (self.spec_status() is Stopped && self.spec_changes_made()),
    {
        let stopped = match self.status {
            Status::Stopped => true,
            _ => false,
        };
        stopped && self.changes_made
    }
}

/// The character an escape stands for.
pub open spec fn unescape_char(c: char) -> char {
    if c == 'n' {
        '\n'
    } else if c == 'r' {
        '\r'
    } else if c == 't' {
        '\t'
    } else {
        c
    }
}

/// The string with whitespace escapes converted to the whitespace they
/// stand for; a lone trailing backslash is kept unchanged.
pub open spec fn spec_unescape(s: Seq<char>) -> Seq<char>
    decreases s.len(),
{
    if s.len() == 0 {
        Seq::empty()
    } else if s[0] == '\\' {
        if s.len() == 1 {
            seq!['\\']
        } else {
            seq![unescape_char(s[1])] + spec_unescape(s.skip(2))
        }
    } else {
        seq![s[0]] + spec_unescape(s.skip(1))
    }
}

/// Converts whitespace escapes into the whitespace they stand for:
/// `\n`, `\r`, `\t` and `\\`; anything else escaped stands for itself,
/// and a lone trailing backslash is kept.
pub fn unescape(s: &str) -> (r: String)
    ensures
        r@ == spec_unescape(s@),
{
    let n: usize = s.unicode_len();
    let mut out = String::new();
    let mut i: usize = 0;
    let nl = "\n";
    let cr = "\r";
    let tab = "\t";
    let bsl = "\\";
    proof {
        reveal_strlit("\n");
        reveal_strlit("\r");
        reveal_strlit("\t");
        reveal_strlit("\\");
        assert(nl@ =~= seq!['\n']);
        assert(cr@ =~= seq!['\r']);
        assert(tab@ =~= seq!['\t']);
        assert(bsl@ =~= seq!['\\']);
        assert(s@.skip(0) =~= s@);
    }
    while i < n
        invariant
            n == s@.len(),
            i <= n,
            nl@ == seq!['\n'],
            cr@ == seq!['\r'],
            tab@ == seq!['\t'],
            bsl@ == seq!['\\'],
            out@ + spec_unescape(s@.skip(i as int)) == spec_unescape(s@),
        decreases n - i,
    {
        let ghost rest = s@.skip(i as int);
        let c = s.get_char(i);
        proof {
            assert(rest[0] == s@[i as int]);
        }
        if c == '\\' {
            if i + 1 < n {
                let c2 = s.get_char(i + 1);
                proof {
                    assert(rest[1] == s@[i + 1]);
                    assert(rest.skip(2) =~= s@.skip(i + 2));
                }
                if c2 == 'n' {
                    out.append(nl);
                } else if c2 == 'r' {
                    out.append(cr);
                } else if c2 == 't' {
                    out.append(tab);
                } else if c2 == '\\' {
                    out.append(bsl);
                } else {
                    let piece = s.substring_char(i + 1, i + 2);
                    proof {
                        assert(piece@ =~= seq![s@[i + 1]]);
                    }
                    out.append(piece);
                }
                i = i + 2;
            } else {
                out.append(bsl);
                proof {
                    assert(rest.len() == 1);
                    assert(s@.skip(n as int) =~= Seq::<char>::empty());
                }
                i = i + 1;
            }
        } else {
            let piece = s.substring_char(i, i + 1);
            proof {
                assert(piece@ =~= seq![s@[i as int]]);
                assert(rest.skip(1) =~= s@.skip(i + 1));
            }
            out.append(piece);
            i = i + 1;
        }
    }
    proof {
        assert(s@.skip(n as int) =~= Seq::<char>::empty());
        assert(out@ + Seq::<char>::empty() =~= out@);
    }
    out
}

} // verus!
