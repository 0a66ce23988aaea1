//! The backed-up file's two paths, and the derivation of a backup file
//! name from a primary path: an escaping of the absolute path that is
//! injective, so no two distinct primary paths can share a backup file.

use vstd::prelude::*;
use vstd::string::{StringExecFns, StrSliceExecFns};

verus! {

/// A path to a backed-up file: the file itself, and its backup.
pub struct SafePath {
    pub main: String,
    pub backup: String,
}

impl SafePath {
    pub fn new(file_path: String, backup_path: String) -> (r: Self)
        ensures
            r.main@ == file_path@,
            r.backup@ == backup_path@,
    {
        SafePath { main: file_path, backup: backup_path }
    }

    /// The main path, for display.
    pub fn display(&self) -> (r: &str)
        ensures
            r@ == self.main@,
    {
        self.main.as_str()
    }
}

/// The escaping of one path character: the separator and the escape
/// character themselves are written as two-character escapes, everything
/// else as itself. The escapes form a prefix code, which makes the
/// encoding injective.
pub open spec fn esc(c: char) -> Seq<char> {
    if c == '/' {
        seq!['%', '-']
    } else if c == '%' {
        seq!['%', '%']
    } else {
        seq![c]
    }
}

/// A whole path, escaped character by character.
pub open spec fn encode_path(s: Seq<char>) -> Seq<char>
    decreases s.len(),
{
    if s.len() == 0 {
        Seq::empty()
    } else {
        esc(s[0]) + encode_path(s.skip(1))
    }
}

/// The backup file name derived from an absolute path.
pub open spec fn spec_backup_name(s: Seq<char>) -> Seq<char> {
    encode_path(s) + ".bak"@
}

proof fn lemma_encode_injective(a: Seq<char>, b: Seq<char>)
    requires
        encode_path(a) == encode_path(b),
    ensures
        a == b,
    decreases a.len(),
{
    if a.len() == 0 {
        if b.len() > 0 {
            assert(encode_path(b).len() >= esc(b[0]).len());
            assert(false);
        }
        assert(a =~= b);
    } else if b.len() == 0 {
        assert(encode_path(a).len() >= esc(a[0]).len());
        assert(false);
    } else {
        let ea = esc(a[0]);
        let eb = esc(b[0]);
        assert(encode_path(a)[0] == ea[0]);
        assert(encode_path(b)[0] == eb[0]);
        if a[0] != b[0] {
            if ea.len() == 1 && eb.len() == 1 {
                assert(false);
            } else if ea.len() == 2 && eb.len() == 2 {
                assert(encode_path(a)[1] == ea[1]);
                assert(encode_path(b)[1] == eb[1]);
                assert(false);
            } else if ea.len() == 1 {
                assert(ea[0] != '%');
                assert(eb[0] == '%');
                assert(false);
            } else {
                assert(ea[0] == '%');
                assert(eb[0] != '%');
                assert(false);
            }
        }
        assert(ea =~= eb);
        assert(encode_path(a.skip(1)) =~= encode_path(a).skip(ea.len() as int));
        assert(encode_path(b.skip(1)) =~= encode_path(b).skip(eb.len() as int));
        lemma_encode_injective(a.skip(1), b.skip(1));
        assert(a =~= seq![a[0]] + a.skip(1));
        assert(b =~= seq![b[0]] + b.skip(1));
    }
}

/// No two distinct paths derive the same backup file name.
pub proof fn lemma_backup_name_injective(a: Seq<char>, b: Seq<char>)
    requires
        spec_backup_name(a) == spec_backup_name(b),
    ensures
        a == b,
{
    reveal_strlit(".bak");
    assert(spec_backup_name(a) == encode_path(a) + ".bak"@);
    assert(spec_backup_name(b) == encode_path(b) + ".bak"@);
    assert((encode_path(a) + ".bak"@).len() == encode_path(a).len() + ".bak"@.len());
    assert((encode_path(b) + ".bak"@).len() == encode_path(b).len() + ".bak"@.len());
    assert(encode_path(a).len() == encode_path(b).len());
    assert(encode_path(a) =~= spec_backup_name(a).take(encode_path(a).len() as int));
    assert(encode_path(b) =~= spec_backup_name(b).take(encode_path(b).len() as int));
    lemma_encode_injective(a, b);
}

/// The backup file name for a path in its absolute form: the escaped path
/// with a backup suffix, and never containing a separator.
pub fn backup_name_from(path: &str) -> (r: String)
    ensures
        r@ == spec_backup_name(path@),
{
    let n: usize = path.unicode_len();
    let mut out = String::new();
    let mut i: usize = 0;
    let sep_escape = "%-";
    let pct_escape = "%%";
    proof {
        reveal_strlit("%-");
        reveal_strlit("%%");
        assert(sep_escape@ =~= seq!['%', '-']);
        assert(pct_escape@ =~= seq!['%', '%']);
        assert(path@.skip(0) =~= path@);
    }
    while i < n
        invariant
            n == path@.len(),
            i <= n,
            sep_escape@ == seq!['%', '-'],
            pct_escape@ == seq!['%', '%'],
            out@ + encode_path(path@.skip(i as int)) == encode_path(path@),
        decreases n - i,
    {
        let ghost rest = path@.skip(i as int);
        let c = path.get_char(i);
        proof {
            assert(rest[0] == path@[i as int]);
            assert(rest.skip(1) =~= path@.skip(i + 1));
        }
        if c == '/' {
            out.append(sep_escape);
        } else if c == '%' {
            out.append(pct_escape);
        } else {
            let piece = path.substring_char(i, i + 1);
            proof {
                assert(piece@ =~= seq![path@[i as int]]);
            }
            out.append(piece);
        }
        i = i + 1;
    }
    proof {
        assert(path@.skip(n as int) =~= Seq::<char>::empty());
        assert(out@ + Seq::<char>::empty() =~= out@);
    }
    let suffix = ".bak";
    out.append(suffix);
    out
}

/// A path in `backup_dir` suitable for a backup of `file_path`, which
/// must already be in absolute form. Distinct absolute paths always map
/// to distinct backup paths.
pub fn backup_path_from(file_path: &str, backup_dir: &str) -> (r: String)
    ensures
        r@ == backup_dir@ + seq!['/'] + spec_backup_name(file_path@),
{
    let mut out = backup_dir.to_owned();
    let sep = "/";
    proof {
        reveal_strlit("/");
        assert(sep@ =~= seq!['/']);
    }
    out.append(sep);
    let name = backup_name_from(file_path);
    out.append(name.as_str());
    out
}

} // verus!
