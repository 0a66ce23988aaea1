//! Read-only renderings of the record tree: a one-level listing of a
//! group's member names, and a full recursive tree with box-drawing
//! connectors. Neither ever prints an item's value.

use vstd::prelude::*;
use vstd::string::StringExecFns;
use crate::record::{lemma_seq_size_element, seq_size, Group, Record, RecView};

verus! {

/// The one-level listing: an item renders as its name, a group as its
/// members' names, one per line.
pub open spec fn render_list(v: RecView) -> Seq<char> {
    match v {
        RecView::Item { name, .. } => name,
        RecView::Group { members, .. } => join_names(members),
    }
}

/// Names joined by newlines, in member order.
pub open spec fn join_names(ms: Seq<RecView>) -> Seq<char>
    decreases ms.len(),
{
    if ms.len() == 0 {
        Seq::empty()
    } else if ms.len() == 1 {
        ms[0].name()
    } else {
        join_names(ms.drop_last()) + seq!['\n'] + ms.last().name()
    }
}

/// The vertical continuation drawn under a member that has later siblings.
pub open spec fn bar_sym() -> Seq<char> {
    seq!['\u{2502}', ' ', ' ', ' ']
}

/// The blank continuation drawn under the last member.
pub open spec fn space_sym() -> Seq<char> {
    seq![' ', ' ', ' ', ' ']
}

/// The connector drawn before a member that has later siblings.
pub open spec fn fork_sym() -> Seq<char> {
    seq!['\u{251C}', '\u{2500}', '\u{2500}', ' ']
}

/// The connector drawn before the last member.
pub open spec fn fork_end_sym() -> Seq<char> {
    seq!['\u{2514}', '\u{2500}', '\u{2500}', ' ']
}

/// The recursive branch rendering of a forest under the given leading
/// buffer: each member on its own line behind a connector, a group's
/// members indented below it, the last sibling closing the branch.
pub open spec fn render_branch(ms: Seq<RecView>, buf: Seq<char>) -> Seq<char>
    decreases seq_size(ms),
    via render_branch_decreases
{
    if ms.len() == 0 {
        Seq::empty()
    } else {
        let head = ms[0];
        let is_last = ms.len() == 1;
        let connector = if is_last {
            fork_end_sym()
        } else {
            fork_sym()
        };
        let line = seq!['\n'] + buf + connector + head.name();
        let sub = match head {
            RecView::Group { members, .. } => render_branch(
                members,
                buf + (if is_last {
                    space_sym()
                } else {
                    bar_sym()
                }),
            ),
            RecView::Item { .. } => Seq::<char>::empty(),
        };
        line + sub + render_branch(ms.skip(1), buf)
    }
}

#[via_fn]
proof fn render_branch_decreases(ms: Seq<RecView>, buf: Seq<char>) {
    if ms.len() > 0 {
        assert(seq_size(ms) == rv_size_of_group(ms[0]) + seq_size(ms.skip(1)));
        match ms[0] {
            RecView::Group { members, .. } => {
                assert(rv_size_of_group(ms[0]) == 1 + seq_size(members));
            },
            RecView::Item { .. } => {
                assert(rv_size_of_group(ms[0]) == 1);
            },
        }
    }
}

/// The full tree rendering: an item renders as its name; a group as its
/// name followed by its branch.
pub open spec fn render_tree(v: RecView) -> Seq<char> {
    match v {
        RecView::Item { name, .. } => name,
        RecView::Group { name, members } => name + render_branch(members, Seq::empty()),
    }
}

/// Renders the one-level listing of a record, like a plain directory
/// listing: member names only, never values.
pub fn display_list(rec: &Record) -> (r: String)
    ensures
        r@ == render_list(rec@),
{
    match rec.as_group() {
        None => rec.name().clone(),
        Some(g) => {
            let ghost ms = g@.members();
            let mut out = String::new();
            let n: usize = g.len();
            let mut i: usize = 0;
            while i < n
                invariant
                    ms == g@.members(),
                    n == ms.len(),
                    i <= n,
                    out@ == join_names(ms.take(i as int)),
                decreases n - i,
            {
                if i > 0 {
                    let nl = "\n";
                    proof {
                        reveal_strlit("\n");
                        assert(nl@ =~= seq!['\n']);
                    }
                    out.append(nl);
                }
                out.append(g.member_at(i).name().as_str());
                proof {
                    assert(ms.take(i + 1).drop_last() =~= ms.take(i as int));
                    assert(ms.take(i + 1).last() == ms[i as int]);
                }
                i = i + 1;
            }
            proof {
                assert(ms.take(n as int) =~= ms);
            }
            out
        },
    }
}

/// Renders the full tree of a record, connectors and all: names only,
/// never values.
pub fn display_tree(rec: &Record) -> (r: String)
    ensures
        r@ == render_tree(rec@),
{
    match rec.as_group() {
        None => rec.name().clone(),
        Some(g) => {
            let mut out = rec.name().clone();
            let buf = String::new();
            tree_branch(g, &buf, &mut out);
            out
        },
    }
}

/// Appends the branch rendering of `g`'s members behind `buf` to `out`.
fn tree_branch(g: &Group, buf: &String, out: &mut String)
    ensures
        final(out)@ == old(out)@ + render_branch(g@.members(), buf@),
    decreases seq_size(g@.members()),
{
    let ghost ms = g@.members();
    let ghost out0 = old(out)@;
    let n: usize = g.len();
    let mut i: usize = 0;
    proof {
        assert(ms.skip(0) =~= ms);
    }
    while i < n
        invariant
            ms == g@.members(),
            n == ms.len(),
            i <= n,
            out@ + render_branch(ms.skip(i as int), buf@) == out0 + render_branch(ms, buf@),
            seq_size(ms.skip(i as int)) <= seq_size(ms),
        decreases n - i,
    {
        let ghost rest = ms.skip(i as int);
        let is_last: bool = i + 1 == n;
        let nl = "\n";
        let fork = "\u{251C}\u{2500}\u{2500} ";
        let fork_end = "\u{2514}\u{2500}\u{2500} ";
        let bar = "\u{2502}   ";
        let blank = "    ";
        proof {
            reveal_strlit("\n");
            reveal_strlit("\u{251C}\u{2500}\u{2500} ");
            reveal_strlit("\u{2514}\u{2500}\u{2500} ");
            reveal_strlit("\u{2502}   ");
            reveal_strlit("    ");
            assert(nl@ =~= seq!['\n']);
            assert(fork@ =~= fork_sym());
            assert(fork_end@ =~= fork_end_sym());
            assert(bar@ =~= bar_sym());
            assert(blank@ =~= space_sym());
            assert(rest[0] == ms[i as int]);
            assert(rest.len() == 1 <==> is_last);
        }
        out.append(nl);
        out.append(buf.as_str());
        if is_last {
            out.append(fork_end);
        } else {
            out.append(fork);
        }
        let member = g.member_at(i);
        out.append(member.name().as_str());
        match member.as_group() {
            Some(sub) => {
                let mut buf2 = buf.clone();
                if is_last {
                    buf2.append(blank);
                } else {
                    buf2.append(bar);
                }
                proof {
                    lemma_seq_size_element(ms, i as int);
                    assert(seq_size(sub@.members()) < rv_size_of_group(sub@));
                }
                tree_branch(sub, &buf2, out);
            },
            None => {},
        }
        proof {
            assert(rest.skip(1) =~= ms.skip(i + 1));
            assert(seq_size(ms.skip(i + 1)) <= seq_size(ms)) by {
                lemma_skip_size(ms, i + 1);
            }
        }
        i = i + 1;
    }
    proof {
        assert(ms.skip(n as int) =~= Seq::<RecView>::empty());
        assert(out@ + Seq::<char>::empty() =~= out@);
        assert(out0 + render_branch(ms, buf@) =~= out@);
    }
}

/// The size of a group record, named for the termination argument.
pub open spec fn rv_size_of_group(v: RecView) -> nat {
    crate::record::rv_size(v)
}

proof fn lemma_skip_size(ms: Seq<RecView>, i: int)
    requires
        0 <= i <= ms.len(),
    ensures
        seq_size(ms.skip(i)) <= seq_size(ms),
    decreases i,
{
    if i == 0 {
        assert(ms.skip(0) =~= ms);
    } else {
        lemma_skip_size(ms, i - 1);
        if i - 1 < ms.len() {
            assert(ms.skip(i - 1).len() > 0);
            assert(ms.skip(i - 1).skip(1) =~= ms.skip(i));
            assert(seq_size(ms.skip(i - 1)) == rv_size_of_group(ms.skip(i - 1)[0]) + seq_size(
                ms.skip(i),
            ));
        } else {
            assert(ms.skip(i - 1) =~= ms.skip(i));
        }
    }
}

} // verus!
