//! Path-addressed mutation of the record tree: creating, removing and
//! rewriting records named by a dot-delimited path, with the same child
//! selection — exact or fuzzy — as resolution. Every operation either
//! succeeds and reports the exact new shape of the tree, or fails and
//! leaves the tree untouched.

use vstd::prelude::*;
use crate::find::{best_of, resolve, MatchKind, Resolution};
use crate::record::{
    any_match, has_name, has_unique_best, is_unique_best, lemma_group_view, lemma_item_view,
    lemma_lookup_idx, lookup_idx, Record, RecView,
};
use crate::secret::Erase;

verus! {

#[derive(Debug)]
pub enum Error {
    /// No child matched a path segment, or the named record is absent.
    NotFound,
    /// Two or more children tied for the best fuzzy score.
    MultipleMatches,
    /// A sibling of the record to create already carries its name.
    AlreadyExists,
    /// The walk needed a group but found an item.
    NotAGroup,
    /// The target had to be an item but is a group.
    NotAnItem,
    /// The root group itself cannot be removed.
    CannotRemoveRoot,
}

/// The child a single walk step selects, if any.
pub open spec fn step_idx(members: Seq<RecView>, seg: Seq<char>, mk: MatchKind) -> Option<int> {
    match mk {
        MatchKind::Exact => lookup_idx(members, seg),
        MatchKind::Fuzzy => if has_unique_best(seg, members) {
            Some(best_of(seg, members))
        } else {
            None
        },
    }
}

/// The tree after linking `child` into the group at `segs`, if every step
/// succeeds, the path ends at a group, and no sibling has `child`'s name.
pub open spec fn spec_insert_at(
    v: RecView,
    segs: Seq<Seq<char>>,
    mk: MatchKind,
    child: RecView,
) -> Option<RecView>
    decreases segs.len(),
{
    match v {
        RecView::Item { .. } => None,
        RecView::Group { name, members } => if segs.len() == 0 {
            if has_name(members, child.name()) {
                None
            } else {
                Some(RecView::Group { name, members: members.push(child) })
            }
        } else {
            match step_idx(members, segs[0], mk) {
                None => None,
                Some(i) => match spec_insert_at(members[i], segs.skip(1), mk, child) {
                    None => None,
                    Some(sub) => Some(RecView::Group { name, members: members.update(i, sub) }),
                },
            }
        },
    }
}

/// The tree after unlinking the record at `segs`, and that record, if the
/// walk succeeds. The root itself, named by the empty path, cannot be
/// removed.
pub open spec fn spec_remove_at(v: RecView, segs: Seq<Seq<char>>, mk: MatchKind) -> Option<
    (RecView, RecView),
>
    decreases segs.len(),
{
    if segs.len() == 0 {
        None
    } else {
        match v {
            RecView::Item { .. } => None,
            RecView::Group { name, members } => match step_idx(members, segs[0], mk) {
                None => None,
                Some(i) => if segs.len() == 1 {
                    Some((RecView::Group { name, members: members.remove(i) }, members[i]))
                } else {
                    match spec_remove_at(members[i], segs.skip(1), mk) {
                        None => None,
                        Some((sub, removed)) => Some(
                            (RecView::Group { name, members: members.update(i, sub) }, removed),
                        ),
                    }
                },
            },
        }
    }
}

/// The tree after replacing the value of the item at `segs`, if the walk
/// succeeds and ends at an item.
pub open spec fn spec_change_at(
    v: RecView,
    segs: Seq<Seq<char>>,
    mk: MatchKind,
    new_value: Seq<char>,
) -> Option<RecView>
    decreases segs.len(),
{
    if segs.len() == 0 {
        match v {
            RecView::Item { name, .. } => Some(RecView::Item { name, value: new_value }),
            RecView::Group { .. } => None,
        }
    } else {
        match v {
            RecView::Item { .. } => None,
            RecView::Group { name, members } => match step_idx(members, segs[0], mk) {
                None => None,
                Some(i) => match spec_change_at(members[i], segs.skip(1), mk, new_value) {
                    None => None,
                    Some(sub) => Some(RecView::Group { name, members: members.update(i, sub) }),
                },
            },
        }
    }
}

/// Selects the child a walk step takes, exclusively, as a member index.
fn step(g: &crate::record::Group, seg: &String, mk: MatchKind) -> (r: Result<usize, Error>)
    ensures
        r matches Ok(i) ==> step_idx(g@.members(), seg@, mk) == Some(i as int)
            && i < g@.members().len(),
        r matches Err(e) ==> step_idx(g@.members(), seg@, mk) is None
            && (e is NotFound || e is MultipleMatches)
            && (mk is Exact ==> e is NotFound)
            && (mk is Fuzzy ==> (e is NotFound <==> !any_match(seg@, g@.members()))),
        r is Ok <==> step_idx(g@.members(), seg@, mk) is Some,
    {
        match mk {
            MatchKind::Exact => match g.get_idx(seg.as_str()) {
                Ok(i) => {
                    proof {
                        lemma_lookup_idx(g@.members(), seg@);
                    }
                    Ok(i)
                },
                Err(_) => {
                    proof {
                        lemma_lookup_idx(g@.members(), seg@);
                        match lookup_idx(g@.members(), seg@) {
                            Some(k) => {
                                assert(has_name(g@.members(), seg@));
                            },
                            None => {},
                        }
                    }
                    Err(Error::NotFound)
                },
            },
            MatchKind::Fuzzy => match g.get_fuzzy_idx(seg.as_str()) {
                Ok(i) => {
                    proof {
                        assert(is_unique_best(seg@, g@.members(), i as int));
                        assert(is_unique_best(seg@, g@.members(), best_of(seg@, g@.members())));
                        crate::find::lemma_unique_best(
                            seg@,
                            g@.members(),
                            i as int,
                            best_of(seg@, g@.members()),
                        );
                    }
                    Ok(i)
                },
                Err(e) => match e {
                    crate::record::Error::MultipleMatches => Err(Error::MultipleMatches),
                    _ => Err(Error::NotFound),
                },
            },
        }
    }

/// Links `child` into the group at `segs[k..]` under `root`. On failure
/// the tree is untouched and the rejected record is handed back unchanged.
pub fn insert_at(
    root: &mut Record,
    segs: &Vec<String>,
    k: usize,
    mk: MatchKind,
    child: Record,
) -> (r: Result<(), (Error, Record)>)
    requires
        k <= segs@.len(),
    ensures
        r matches Ok(()) ==> spec_insert_at(
            old(root)@,
            segs.deep_view().skip(k as int),
            mk,
            child@,
        ) == Some(final(root)@),
        r matches Err((e, back)) ==> back == child && final(root)@ == old(root)@
            && spec_insert_at(old(root)@, segs.deep_view().skip(k as int), mk, child@) is None
            && match resolve(old(root)@, segs.deep_view().skip(k as int), mk) {
                Resolution::Found(v) => (v is Item && e is NotAGroup) || (v is Group
                    && has_name(v.members(), child@.name()) && e is AlreadyExists),
                Resolution::Missing { .. } => e is NotFound,
                Resolution::Ambiguous { .. } => e is MultipleMatches,
                Resolution::ThroughItem { .. } => e is NotAGroup,
            },
    decreases segs@.len() - k,
{
    broadcast use lemma_group_view, lemma_item_view;
    let ghost rest = segs.deep_view().skip(k as int);
    let r: Result<(), (Error, Record)> = match root.as_group_mut() {
        None => Err((Error::NotAGroup, child)),
        Some(g) => {
            if k == segs.len() {
                proof {
                    assert(rest.len() == 0);
                }
                match g.insert(child) {
                    Ok(()) => Ok(()),
                    Err((_, back)) => Err((Error::AlreadyExists, back)),
                }
            } else {
                let seg: &String = &segs[k];
                proof {
                    assert(seg@ == rest[0]);
                    assert(rest.skip(1) =~= segs.deep_view().skip(k + 1));
                }
                match step(g, seg, mk) {
                    Err(e) => Err((e, child)),
                    Ok(i) => {
                        let sub = g.member_at_mut(i);
                        match insert_at(sub, segs, k + 1, mk, child) {
                            Ok(()) => Ok(()),
                            Err(e) => Err(e),
                        }
                    },
                }
            }
        },
    };
    proof {
        match r {
            Err(_) => {
                assert(root@.members() =~= old(root)@.members());
                assert(root@ =~= old(root)@);
            },
            Ok(_) => {},
        }
    }
    r
}

/// Unlinks and returns the record at `segs[k..]` under `root`. On failure
/// the tree is untouched. The root itself cannot be removed.
pub fn remove_at(root: &mut Record, segs: &Vec<String>, k: usize, mk: MatchKind) -> (r: Result<
    Record,
    Error,
>)
    requires
        k <= segs@.len(),
    ensures
        r matches Ok(removed) ==> spec_remove_at(old(root)@, segs.deep_view().skip(k as int), mk)
            == Some((final(root)@, removed@)),
        r matches Err(e) ==> final(root)@ == old(root)@
            && spec_remove_at(old(root)@, segs.deep_view().skip(k as int), mk) is None
            && (k == segs@.len() ==> e is CannotRemoveRoot)
            && (k < segs@.len() ==> match resolve(
                old(root)@,
                segs.deep_view().skip(k as int),
                mk,
            ) {
                Resolution::Found(_) => false,
                Resolution::Missing { .. } => e is NotFound,
                Resolution::Ambiguous { .. } => e is MultipleMatches,
                Resolution::ThroughItem { .. } => e is NotAGroup,
            }),
    decreases segs@.len() - k,
{
    broadcast use lemma_group_view, lemma_item_view;
    let ghost rest = segs.deep_view().skip(k as int);
    if k == segs.len() {
        proof {
            assert(rest.len() == 0);
        }
        return Err(Error::CannotRemoveRoot);
    }
    let r: Result<Record, Error> = match root.as_group_mut() {
        None => Err(Error::NotAGroup),
        Some(g) => {
            let seg: &String = &segs[k];
            proof {
                assert(seg@ == rest[0]);
                assert(rest.skip(1) =~= segs.deep_view().skip(k + 1));
            }
            match step(g, seg, mk) {
                Err(e) => Err(e),
                Ok(i) => {
                    if k + 1 == segs.len() {
                        proof {
                            assert(rest.len() == 1);
                        }
                        Ok(g.remove_idx(i))
                    } else {
                        let sub = g.member_at_mut(i);
                        match remove_at(sub, segs, k + 1, mk) {
                            Ok(removed) => Ok(removed),
                            Err(e) => Err(e),
                        }
                    }
                },
            }
        },
    };
    proof {
        match r {
            Err(_) => {
                assert(root@.members() =~= old(root)@.members());
                assert(root@ =~= old(root)@);
            },
            Ok(_) => {},
        }
    }
    r
}

/// Replaces the value of the item at `segs[k..]` under `root` with
/// `new_value`, scrubbing the old value in place before it is dropped. On
/// failure the tree is untouched and the new value is handed back.
pub fn change_value_at(
    root: &mut Record,
    segs: &Vec<String>,
    k: usize,
    mk: MatchKind,
    new_value: String,
) -> (r: Result<(), (Error, String)>)
    requires
        k <= segs@.len(),
    ensures
        r matches Ok(()) ==> spec_change_at(
            old(root)@,
            segs.deep_view().skip(k as int),
            mk,
            new_value@,
        ) == Some(final(root)@),
        r matches Err((e, back)) ==> back == new_value && final(root)@ == old(root)@
            && spec_change_at(old(root)@, segs.deep_view().skip(k as int), mk, new_value@)
                is None
            && match resolve(old(root)@, segs.deep_view().skip(k as int), mk) {
                Resolution::Found(v) => v is Group && e is NotAnItem,
                Resolution::Missing { .. } => e is NotFound,
                Resolution::Ambiguous { .. } => e is MultipleMatches,
                Resolution::ThroughItem { .. } => e is NotAGroup,
            },
    decreases segs@.len() - k,
{
    broadcast use lemma_group_view, lemma_item_view;
    let ghost rest = segs.deep_view().skip(k as int);
    if k == segs.len() {
        proof {
            assert(rest.len() == 0);
        }
        match root.as_item_mut() {
            None => Err((Error::NotAnItem, new_value)),
            Some(it) => {
                let ghost name0 = it@.name();
                let v = it.value_mut();
                v.erase();
                *v = new_value;
                Ok(())
            },
        }
    } else {
        let r: Result<(), (Error, String)> = match root.as_group_mut() {
            None => Err((Error::NotAGroup, new_value)),
            Some(g) => {
                let seg: &String = &segs[k];
                proof {
                    assert(seg@ == rest[0]);
                    assert(rest.skip(1) =~= segs.deep_view().skip(k + 1));
                }
                match step(g, seg, mk) {
                    Err(e) => Err((e, new_value)),
                    Ok(i) => {
                        let sub = g.member_at_mut(i);
                        match change_value_at(sub, segs, k + 1, mk, new_value) {
                            Ok(()) => Ok(()),
                            Err(e) => Err(e),
                        }
                    },
                }
            },
        };
        proof {
            match r {
                Err(_) => {
                    assert(root@.members() =~= old(root)@.members());
                    assert(root@ =~= old(root)@);
                },
                Ok(_) => {},
            }
        }
        r
    }
}

} // verus!
