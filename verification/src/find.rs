//! Dot-delimited record paths and their resolution against a record tree.
//! The empty path names the root; `iterate` yields the non-empty segments,
//! ignoring leading, trailing and doubled delimiters. Resolution walks the
//! segments from the root, choosing each child either by exact name or by
//! the best fuzzy score, and fails on ambiguity.

use vstd::prelude::*;
use vstd::string::{StringExecFns, StrSliceExecFns};
use crate::record::{
    any_match, has_name, has_unique_best, is_unique_best, lemma_lookup_idx, lookup_idx,
    member_score, score_lt, Group, Item, Record, RecView,
};

verus! {

/// The path delimiter.
pub const PATH_DELIM: char = '.';

/// A dot-delimited path naming a record; the empty path names the root.
#[derive(Debug)]
pub struct RecordPath(String);

/// The method by which a record is searched for.
#[derive(Debug, Clone, Copy, PartialEq, Eq, Structural)]
pub enum MatchKind {
    /// Matches each element of the path to record names using the fuzzy
    /// scoring of the record layer.
    Fuzzy,
    /// Matches each element of the path to record names exactly.
    Exact,
}

#[derive(Debug)]
pub enum Error {
    /// No record matching `pat` in the group named `in_group`: either
    /// nothing matched, or several matched equally well.
    NotFound { e: crate::record::Error, pat: String, in_group: String },
    /// Expected a group but found the named record; `pat` is absent when
    /// the name itself was matched exactly.
    NotAGroup { name: String, pat: Option<String> },
    /// Expected an item but found the named record.
    NotAnItem { name: String, pat: Option<String> },
}

/// The segments of a path: maximal non-empty runs between delimiters.
/// `cur` carries the run gathered so far.
pub open spec fn segs_rec(s: Seq<char>, cur: Seq<char>) -> Seq<Seq<char>>
    decreases s.len(),
{
    if s.len() == 0 {
        if cur.len() == 0 {
            Seq::empty()
        } else {
            seq![cur]
        }
    } else if s[0] == PATH_DELIM {
        (if cur.len() == 0 {
            Seq::<Seq<char>>::empty()
        } else {
            seq![cur]
        }) + segs_rec(s.skip(1), Seq::empty())
    } else {
        segs_rec(s.skip(1), cur.push(s[0]))
    }
}

/// The non-empty segments of a dot-delimited path, in order.
pub open spec fn segments_of(s: Seq<char>) -> Seq<Seq<char>> {
    segs_rec(s, Seq::empty())
}

/// Segments joined back into a path with single delimiters.
pub open spec fn join_path(qs: Seq<Seq<char>>) -> Seq<char>
    decreases qs.len(),
{
    if qs.len() == 0 {
        Seq::empty()
    } else if qs.len() == 1 {
        qs[0]
    } else {
        qs[0] + seq![PATH_DELIM] + join_path(qs.skip(1))
    }
}

/// What resolving a path against a record comes to.
pub enum Resolution {
    /// The walk ended at this record.
    Found(RecView),
    /// No child of the group named `group` matched `seg`.
    Missing { seg: Seq<char>, group: Seq<char> },
    /// Two or more children of the group named `group` tied for the best
    /// fuzzy score against `seg`.
    Ambiguous { seg: Seq<char>, group: Seq<char> },
    /// The walk hit the item named `name` while `seg` was still to be
    /// matched.
    ThroughItem { name: Seq<char>, seg: Seq<char> },
}

/// The member index that a fuzzy walk selects: the unique best match.
pub open spec fn best_of(pat: Seq<char>, members: Seq<RecView>) -> int {
    choose|i: int| is_unique_best(pat, members, i)
}

/// Resolution of `segs` against `v`: walk the segments from `v`, at each
/// step selecting a child of the current group by the match kind.
pub open spec fn resolve(v: RecView, segs: Seq<Seq<char>>, mk: MatchKind) -> Resolution
    decreases segs.len(),
{
    if segs.len() == 0 {
        Resolution::Found(v)
    } else {
        match v {
            RecView::Item { name, .. } => Resolution::ThroughItem { name, seg: segs[0] },
            RecView::Group { name, members } => {
                let seg = segs[0];
                match mk {
                    MatchKind::Exact => match lookup_idx(members, seg) {
                        Some(i) => resolve(members[i], segs.skip(1), mk),
                        None => Resolution::Missing { seg, group: name },
                    },
                    MatchKind::Fuzzy => if has_unique_best(seg, members) {
                        resolve(members[best_of(seg, members)], segs.skip(1), mk)
                    } else if any_match(seg, members) {
                        Resolution::Ambiguous { seg, group: name }
                    } else {
                        Resolution::Missing { seg, group: name }
                    },
                }
            },
        }
    }
}

/// Two members both strictly best is impossible.
pub proof fn lemma_unique_best(pat: Seq<char>, members: Seq<RecView>, i: int, j: int)
    requires
        is_unique_best(pat, members, i),
        is_unique_best(pat, members, j),
    ensures
        i == j,
{
    if i != j {
        assert(score_lt(member_score(pat, members[i]), member_score(pat, members[j])));
        assert(score_lt(member_score(pat, members[j]), member_score(pat, members[i])));
    }
}

impl View for RecordPath {
    type V = Seq<char>;

    closed spec fn view(&self) -> Seq<char> {
        self.0@
    }
}

impl RecordPath {
    /// The path's segments, as values.
    pub open spec fn spec_segments(&self) -> Seq<Seq<char>> {
        segments_of(self@)
    }

    pub fn from_str(s: &str) -> (r: Self)
        ensures
            r@ == s@,
    {
        RecordPath(s.to_owned())
    }

    pub fn from_string(s: String) -> (r: Self)
        ensures
            r@ == s@,
    {
        RecordPath(s)
    }

    /// Hands the underlying string back.
    pub fn into_inner(self) -> (r: String)
        ensures
            r@ == self@,
    {
        self.0
    }

    pub fn as_str(&self) -> (r: &str)
        ensures
            r@ == self@,
    {
        self.0.as_str()
    }

    /// The path's non-empty segments, in order, ignoring extraneous
    /// delimiters.
    pub fn iter(&self) -> (r: Vec<String>)
        ensures
            r.deep_view() == self.spec_segments(),
    {
        let s: &str = self.0.as_str();
        let n: usize = s.unicode_len();
        let mut out: Vec<String> = Vec::new();
        let mut seg_start: usize = 0;
        let mut i: usize = 0;
        proof {
            assert(s@.skip(0) =~= s@);
            assert(s@.subrange(0, 0) =~= Seq::<char>::empty());
            assert(out.deep_view() =~= Seq::<Seq<char>>::empty());
        }
        while i < n
            invariant
                s@ == self@,
                n == s@.len(),
                seg_start <= i <= n,
                forall|j: int| seg_start <= j < i ==> s@[j] != PATH_DELIM,
                out.deep_view() + segs_rec(s@.skip(i as int), s@.subrange(seg_start as int, i as int))
                    == segments_of(s@),
            decreases n - i,
        {
            let ghost cur = s@.subrange(seg_start as int, i as int);
            let c = s.get_char(i);
            proof {
                assert(s@.skip(i as int)[0] == s@[i as int]);
                assert(s@.skip(i as int).skip(1) =~= s@.skip(i + 1));
            }
            if c == PATH_DELIM {
                if seg_start < i {
                    let seg = s.substring_char(seg_start, i).to_owned();
                    let ghost out0 = out.deep_view();
                    out.push(seg);
                    proof {
                        assert(out.deep_view() =~= out0.push(cur));
                        assert(segs_rec(s@.skip(i as int), cur)
                            =~= seq![cur] + segs_rec(s@.skip(i + 1), Seq::<char>::empty()));
                        assert(out0.push(cur) + segs_rec(s@.skip(i + 1), Seq::<char>::empty())
                            =~= out0 + (seq![cur] + segs_rec(s@.skip(i + 1), Seq::<char>::empty())));
                    }
                } else {
                    proof {
                        assert(cur =~= Seq::<char>::empty());
                        assert(segs_rec(s@.skip(i as int), cur)
                            =~= segs_rec(s@.skip(i + 1), Seq::<char>::empty()));
                    }
                }
                seg_start = i + 1;
                proof {
                    assert(s@.subrange(seg_start as int, i + 1) =~= Seq::<char>::empty());
                }
            } else {
                proof {
                    assert(s@.subrange(seg_start as int, i + 1) =~= cur.push(s@[i as int]));
                }
            }
            i = i + 1;
        }
        let ghost cur = s@.subrange(seg_start as int, n as int);
        proof {
            assert(s@.skip(n as int) =~= Seq::<char>::empty());
        }
        if seg_start < n {
            let seg = s.substring_char(seg_start, n).to_owned();
            let ghost out0 = out.deep_view();
            out.push(seg);
            proof {
                assert(segs_rec(Seq::<char>::empty(), cur) =~= seq![cur]);
                assert(out.deep_view() =~= out0.push(cur));
                assert(out0.push(cur) =~= out0 + seq![cur]);
            }
        } else {
            proof {
                assert(cur =~= Seq::<char>::empty());
                assert(segs_rec(Seq::<char>::empty(), cur) =~= Seq::<Seq<char>>::empty());
                assert(out.deep_view() + Seq::<Seq<char>>::empty() =~= out.deep_view());
            }
        }
        out
    }
}

/// A well-formed path segment: non-empty and free of the delimiter.
pub open spec fn seg_ok(seg: Seq<char>) -> bool {
    seg.len() > 0 && forall|k: int| 0 <= k < seg.len() ==> seg[k] != PATH_DELIM
}

proof fn lemma_segs_rec_wf(s: Seq<char>, cur: Seq<char>)
    requires
        forall|k: int| 0 <= k < cur.len() ==> cur[k] != PATH_DELIM,
    ensures
        forall|i: int| 0 <= i < segs_rec(s, cur).len() ==> seg_ok(#[trigger] segs_rec(s, cur)[i]),
    decreases s.len(),
{
    if s.len() == 0 {
        if cur.len() > 0 {
            assert(segs_rec(s, cur) == seq![cur]);
            assert(segs_rec(s, cur)[0] == cur);
            assert(seg_ok(cur));
        }
    } else if s[0] == PATH_DELIM {
        lemma_segs_rec_wf(s.skip(1), Seq::empty());
        let head: Seq<Seq<char>> = if cur.len() == 0 {
            Seq::empty()
        } else {
            seq![cur]
        };
        assert forall|i: int| 0 <= i < segs_rec(s, cur).len()
            implies seg_ok(#[trigger] segs_rec(s, cur)[i]) by {
            if i < head.len() {
                assert(segs_rec(s, cur)[i] == cur);
            } else {
                assert(segs_rec(s, cur)[i] == segs_rec(s.skip(1), Seq::empty())[i - head.len()]);
            }
        }
    } else {
        assert forall|k: int| 0 <= k < cur.push(s[0]).len()
            implies cur.push(s[0])[k] != PATH_DELIM by {}
        lemma_segs_rec_wf(s.skip(1), cur.push(s[0]));
        assert(segs_rec(s, cur) == segs_rec(s.skip(1), cur.push(s[0])));
        assert forall|i: int| 0 <= i < segs_rec(s, cur).len()
            implies seg_ok(#[trigger] segs_rec(s, cur)[i]) by {
            assert(segs_rec(s, cur)[i] == segs_rec(s.skip(1), cur.push(s[0]))[i]);
        }
    }
}

/// Every segment of a path is non-empty and free of the delimiter.
pub proof fn lemma_segments_wf(s: Seq<char>)
    ensures
        forall|i: int| 0 <= i < segments_of(s).len() ==> seg_ok(#[trigger] segments_of(s)[i]),
{
    lemma_segs_rec_wf(s, Seq::empty());
}

proof fn lemma_segs_absorb(w: Seq<char>, t: Seq<char>, cur: Seq<char>)
    requires
        forall|k: int| 0 <= k < w.len() ==> w[k] != PATH_DELIM,
    ensures
        segs_rec(w + t, cur) == segs_rec(t, cur + w),
    decreases w.len(),
{
    if w.len() == 0 {
        assert(w + t =~= t);
        assert(cur + w =~= cur);
    } else {
        assert((w + t)[0] == w[0]);
        assert((w + t).skip(1) =~= w.skip(1) + t);
        lemma_segs_absorb(w.skip(1), t, cur.push(w[0]));
        assert(cur.push(w[0]) + w.skip(1) =~= cur + w);
        assert(segs_rec(w + t, cur) == segs_rec(w.skip(1) + t, cur.push(w[0])));
    }
}

/// Joining well-formed segments and splitting again is the identity.
pub proof fn lemma_join_segments(qs: Seq<Seq<char>>)
    requires
        forall|i: int| 0 <= i < qs.len() ==> seg_ok(#[trigger] qs[i]),
    ensures
        segments_of(join_path(qs)) == qs,
    decreases qs.len(),
{
    if qs.len() == 0 {
        assert(segments_of(Seq::<char>::empty()) =~= Seq::<Seq<char>>::empty());
    } else if qs.len() == 1 {
        lemma_segs_absorb(qs[0], Seq::empty(), Seq::empty());
        assert(qs[0] + Seq::<char>::empty() =~= qs[0]);
        assert(Seq::<char>::empty() + qs[0] =~= qs[0]);
        assert(segs_rec(Seq::<char>::empty(), qs[0]) =~= seq![qs[0]]);
        assert(segments_of(join_path(qs)) =~= qs);
    } else {
        let w = qs[0];
        let rest = join_path(qs.skip(1));
        let t = seq![PATH_DELIM] + rest;
        lemma_segs_absorb(w, t, Seq::empty());
        assert(w + t =~= join_path(qs));
        assert(Seq::<char>::empty() + w =~= w);
        assert(t[0] == PATH_DELIM);
        assert(t.skip(1) =~= rest);
        assert(segs_rec(t, w) =~= seq![w] + segs_rec(rest, Seq::empty()));
        assert forall|i: int| 0 <= i < qs.skip(1).len() implies seg_ok(#[trigger] qs.skip(1)[i]) by {
            assert(qs.skip(1)[i] == qs[i + 1]);
        }
        lemma_join_segments(qs.skip(1));
        assert(seq![w] + qs.skip(1) =~= qs);
    }
}

proof fn lemma_join_push(qs: Seq<Seq<char>>, x: Seq<char>)
    requires
        qs.len() >= 1,
    ensures
        join_path(qs.push(x)) == join_path(qs) + seq![PATH_DELIM] + x,
    decreases qs.len(),
{
    let e = qs.push(x);
    assert(e[0] == qs[0]);
    if qs.len() == 1 {
        assert(e.skip(1) =~= seq![x]);
        assert(join_path(seq![x]) == x);
        assert(join_path(e) =~= qs[0] + seq![PATH_DELIM] + x);
        assert(join_path(qs) == qs[0]);
    } else {
        assert(e.skip(1) =~= qs.skip(1).push(x));
        lemma_join_push(qs.skip(1), x);
        assert(join_path(e) == e[0] + seq![PATH_DELIM] + join_path(e.skip(1)));
        assert(qs[0] + seq![PATH_DELIM] + (join_path(qs.skip(1)) + seq![PATH_DELIM] + x)
            =~= (qs[0] + seq![PATH_DELIM] + join_path(qs.skip(1))) + seq![PATH_DELIM] + x);
    }
}

impl RecordPath {
    /// Splits the trailing segment off: the parent path and the trailing
    /// segment, which carries no delimiters. The root path has no trailing
    /// segment and is handed back unchanged.
    pub fn split_last(self) -> (r: Result<(RecordPath, RecordPath), RecordPath>)
        ensures
            self.spec_segments().len() == 0 ==> (r matches Err(p) && p@ == self@),
            self.spec_segments().len() > 0 ==> (r matches Ok(pair)
                && pair.1@ == self.spec_segments().last()
                && pair.0.spec_segments() == self.spec_segments().drop_last()
                && pair.1.spec_segments() == seq![self.spec_segments().last()]),
    {
        let ghost all = self.spec_segments();
        let segs = self.iter();
        let n: usize = segs.len();
        if n == 0 {
            return Err(self);
        }
        proof {
            lemma_segments_wf(self@);
        }
        let trailing = segs[n - 1].clone();
        let mut lead = String::new();
        let mut i: usize = 0;
        while i < n - 1
            invariant
                n == segs.len(),
                n >= 1,
                segs.deep_view() == all,
                forall|j: int| 0 <= j < all.len() ==> seg_ok(#[trigger] all[j]),
                i <= n - 1,
                lead@ == join_path(all.take(i as int)),
            decreases n - i,
        {
            if i > 0 {
                let dot = ".";
                proof {
                    reveal_strlit(".");
                    assert(dot@ =~= seq![PATH_DELIM]);
                    lemma_join_push(all.take(i as int), all[i as int]);
                }
                lead.append(dot);
                lead.append(segs[i].as_str());
                proof {
                    assert(all.take(i + 1) =~= all.take(i as int).push(all[i as int]));
                    assert(lead@ =~= join_path(all.take(i + 1)));
                }
            } else {
                lead.append(segs[i].as_str());
                proof {
                    assert(all.take(1) =~= seq![all[0]]);
                    assert(join_path(seq![all[0]]) == all[0]);
                }
            }
            i = i + 1;
        }
        proof {
            assert(all.take(n - 1) =~= all.drop_last());
            assert forall|j: int| 0 <= j < all.drop_last().len()
                implies seg_ok(#[trigger] all.drop_last()[j]) by {
                assert(all.drop_last()[j] == all[j]);
            }
            lemma_join_segments(all.drop_last());
            assert(trailing@ == all.last());
            assert(seg_ok(all.last()));
            lemma_join_segments(seq![all.last()]);
            assert(join_path(seq![all.last()]) == all.last());
        }
        Ok((RecordPath::from_string(lead), RecordPath::from_string(trailing)))
    }
}

/// The views of a sequence of paths, in order.
pub open spec fn paths_view(ps: Seq<RecordPath>) -> Seq<Seq<char>> {
    Seq::new(ps.len(), |i: int| ps[i]@)
}

/// What `MatchKind::from_str` accepts: any prefix of the two kind names,
/// the empty string counting as exact.
pub open spec fn spec_match_kind(s: Seq<char>) -> Option<MatchKind> {
    if s.is_prefix_of("exact"@) {
        Some(MatchKind::Exact)
    } else if s.is_prefix_of("fuzzy"@) {
        Some(MatchKind::Fuzzy)
    } else {
        None
    }
}

impl MatchKind {
    /// Reads a match kind from a prefix of `"exact"` or `"fuzzy"`; the two
    /// are entirely distinct, so no prefix is ambiguous.
    pub fn from_str(s: &str) -> (r: Option<MatchKind>)
        ensures
            r == spec_match_kind(s@),
    {
        if str_is_prefix(s, "exact") {
            Some(MatchKind::Exact)
        } else if str_is_prefix(s, "fuzzy") {
            Some(MatchKind::Fuzzy)
        } else {
            None
        }
    }
}

/// Whether `a` is a prefix of `b`, character for character.
fn str_is_prefix(a: &str, b: &str) -> (r: bool)
    ensures
        r == a@.is_prefix_of(b@),
{
    let na: usize = a.unicode_len();
    let nb: usize = b.unicode_len();
    if na > nb {
        assert(!a@.is_prefix_of(b@));
        return false;
    }
    let mut i: usize = 0;
    while i < na
        invariant
            na == a@.len(),
            nb == b@.len(),
            na <= nb,
            i <= na,
            forall|j: int| 0 <= j < i ==> a@[j] == b@[j],
        decreases na - i,
    {
        if a.get_char(i) != b.get_char(i) {
            assert(!a@.is_prefix_of(b@));
            return false;
        }
        i = i + 1;
    }
    proof {
        assert(a@ =~= b@.subrange(0, na as int));
    }
    true
}

/// The fixed item name that stands in for a group when an item is wanted:
/// a group's default item, looked up by exact match only.
pub fn default_item() -> (r: &'static str)
    ensures
        r@ == "password"@,
{
    "password"
}

/// How a resolution failure is reported: which error each outcome carries.
pub open spec fn error_reflects(res: Resolution, e: Error, mk: MatchKind) -> bool {
    match res {
        Resolution::Found(_) => false,
        Resolution::Missing { seg, group } => e matches Error::NotFound { e: inner, pat, in_group }
            && inner is NotFound && pat@ == seg && in_group@ == group,
        Resolution::Ambiguous { seg, group } => e matches Error::NotFound {
            e: inner,
            pat,
            in_group,
        } && inner is MultipleMatches && pat@ == seg && in_group@ == group,
        Resolution::ThroughItem { name, seg } => e matches Error::NotAGroup { name: n, pat }
            && n@ == name && (match pat {
            Some(p) => mk is Fuzzy && p@ == seg,
            None => mk is Exact,
        }),
    }
}

impl RecordPath {
    /// Walks the path's segments from `rec`, selecting each child by the
    /// match kind. Returns the record reached, together with the pattern
    /// the final step matched — present only for a non-trivial fuzzy walk,
    /// since an exact match equals the record's own name.
    fn find_rec_in<'a>(&self, rec: &'a Record, mk: MatchKind) -> (r: Result<
        (&'a Record, Option<String>),
        Error,
    >)
        ensures
            r matches Ok(p) ==> resolve(rec@, self.spec_segments(), mk)
                == Resolution::Found(p.0@),
            r matches Ok(p) ==> match p.1 {
                Some(pat) => mk is Fuzzy && self.spec_segments().len() > 0
                    && pat@ == self.spec_segments().last(),
                None => mk is Exact || self.spec_segments().len() == 0,
            },
            r is Ok <==> resolve(rec@, self.spec_segments(), mk) is Found,
            r matches Err(e) ==> error_reflects(resolve(rec@, self.spec_segments(), mk), e, mk),
    {
        let ghost all = self.spec_segments();
        let segs = self.iter();
        let nsegs: usize = segs.len();
        let mut cur: &'a Record = rec;
        let mut k: usize = 0;
        proof {
            assert(all.skip(0) =~= all);
        }
        while k < nsegs
            invariant
                all == self.spec_segments(),
                segs.deep_view() == all,
                nsegs == all.len(),
                k <= nsegs,
                resolve(rec@, all, mk) == resolve(cur@, all.skip(k as int), mk),
            decreases nsegs - k,
        {
            let seg: &String = &segs[k];
            let ghost restsegs = all.skip(k as int);
            proof {
                assert(seg@ == all[k as int]);
                assert(restsegs[0] == all[k as int]);
                assert(restsegs.skip(1) =~= all.skip(k + 1));
            }
            match cur.as_group() {
                None => {
                    let pat = match mk {
                        MatchKind::Fuzzy => Some(seg.clone()),
                        MatchKind::Exact => None,
                    };
                    return Err(Error::NotAGroup { name: cur.name().clone(), pat });
                },
                Some(g) => {
                    let found = match mk {
                        MatchKind::Exact => g.get(seg.as_str()),
                        MatchKind::Fuzzy => g.get_fuzzy(seg.as_str()),
                    };
                    match found {
                        Ok(child) => {
                            proof {
                                let ms = g@.members();
                                if mk is Fuzzy {
                                    let wi = choose|i: int|
                                        #[trigger] is_unique_best(seg@, ms, i) && child@ == ms[i];
                                    assert(is_unique_best(seg@, ms, wi));
                                    assert(has_unique_best(seg@, ms));
                                    assert(is_unique_best(seg@, ms, best_of(seg@, ms)));
                                    lemma_unique_best(seg@, ms, wi, best_of(seg@, ms));
                                }
                            }
                            cur = child;
                            k = k + 1;
                        },
                        Err(inner) => {
                            proof {
                                let ms = g@.members();
                                if mk is Exact {
                                    lemma_lookup_idx(ms, seg@);
                                }
                            }
                            return Err(Error::NotFound {
                                e: inner,
                                pat: seg.clone(),
                                in_group: g.name().clone(),
                            });
                        },
                    }
                },
            }
        }
        proof {
            assert(all.skip(nsegs as int) =~= Seq::<Seq<char>>::empty());
        }
        let matched: Option<String> = if nsegs > 0 {
            match mk {
                MatchKind::Fuzzy => Some(segs[nsegs - 1].clone()),
                MatchKind::Exact => None,
            }
        } else {
            None
        };
        Ok((cur, matched))
    }

    /// Resolves the path from `rec` and returns whatever record it names.
    pub fn find_in<'a>(&self, rec: &'a Record, mk: MatchKind) -> (r: Result<&'a Record, Error>)
        ensures
            r matches Ok(found) ==> resolve(rec@, self.spec_segments(), mk)
                == Resolution::Found(found@),
            r is Ok <==> resolve(rec@, self.spec_segments(), mk) is Found,
            r matches Err(e) ==> error_reflects(resolve(rec@, self.spec_segments(), mk), e, mk),
    {
        match self.find_rec_in(rec, mk) {
            Ok((found, _)) => Ok(found),
            Err(e) => Err(e),
        }
    }

    /// Resolves the path and demands the result be a group.
    pub fn find_group_in<'a>(&self, rec: &'a Record, mk: MatchKind) -> (r: Result<
        &'a Group,
        Error,
    >)
        ensures
            r matches Ok(g) ==> resolve(rec@, self.spec_segments(), mk)
                == Resolution::Found(g@) && g@ is Group,
            r is Ok <==> (resolve(rec@, self.spec_segments(), mk) matches Resolution::Found(v)
                && v is Group),
            r matches Err(e) ==> match resolve(rec@, self.spec_segments(), mk) {
                Resolution::Found(v) => v is Item && (e matches Error::NotAGroup { name, pat }
                    && name@ == v.name()
                    && (pat is Some <==> (mk is Fuzzy && self.spec_segments().len() > 0))),
                res => error_reflects(res, e, mk),
            },
    {
        match self.find_rec_in(rec, mk) {
            Ok((found, matched_pat)) => match found.as_group() {
                Some(g) => Ok(g),
                None => Err(Error::NotAGroup { name: found.name().clone(), pat: matched_pat }),
            },
            Err(e) => Err(e),
        }
    }

    /// Resolves the path and demands the result be an item.
    pub fn find_item_in<'a>(&self, rec: &'a Record, mk: MatchKind) -> (r: Result<&'a Item, Error>)
        ensures
            r matches Ok(it) ==> resolve(rec@, self.spec_segments(), mk)
                == Resolution::Found(it@) && it@ is Item,
            r is Ok <==> (resolve(rec@, self.spec_segments(), mk) matches Resolution::Found(v)
                && v is Item),
            r matches Err(e) ==> match resolve(rec@, self.spec_segments(), mk) {
                Resolution::Found(v) => v is Group && (e matches Error::NotAnItem { name, pat }
                    && name@ == v.name()
                    && (pat is Some <==> (mk is Fuzzy && self.spec_segments().len() > 0))),
                res => error_reflects(res, e, mk),
            },
    {
        match self.find_rec_in(rec, mk) {
            Ok((found, matched_pat)) => match found.as_item() {
                Some(it) => Ok(it),
                None => Err(Error::NotAnItem { name: found.name().clone(), pat: matched_pat }),
            },
            Err(e) => Err(e),
        }
    }

    /// Resolves the path to an item; a resolved group stands for its
    /// default item, looked up inside it by exact name.
    pub fn find_item_or_default_in<'a>(&self, rec: &'a Record, mk: MatchKind) -> (r: Result<
        &'a Item,
        Error,
    >)
        ensures
            r matches Ok(it) ==> match resolve(rec@, self.spec_segments(), mk) {
                Resolution::Found(v) => (v is Item && it@ == v) || (v is Group
                    && (lookup_idx(v.members(), "password"@) matches Some(i)
                        && it@ == v.members()[i])),
                _ => false,
            },
            r is Ok <==> (resolve(rec@, self.spec_segments(), mk) matches Resolution::Found(v)
                && (v is Item || (v is Group && (lookup_idx(v.members(), "password"@)
                    matches Some(i) && v.members()[i] is Item)))),
            r matches Err(e) ==> match resolve(rec@, self.spec_segments(), mk) {
                Resolution::Found(v) => v is Group && (match lookup_idx(
                    v.members(),
                    "password"@,
                ) {
                    Some(i) => v.members()[i] is Group && (e matches Error::NotAnItem {
                        name,
                        pat,
                    } && name@ == v.members()[i].name() && pat is None),
                    None => e matches Error::NotFound { e: inner, pat, in_group }
                        && inner is NotFound && pat@ == "password"@ && in_group@ == v.name(),
                }),
                res => error_reflects(res, e, mk),
            },
    {
        match self.find_rec_in(rec, mk) {
            Ok((found, _)) => match found.as_group() {
                None => match found.as_item() {
                    Some(it) => Ok(it),
                    None => Err(Error::NotAnItem { name: found.name().clone(), pat: None }),
                },
                Some(g) => {
                    proof {
                        lemma_lookup_idx(g@.members(), "password"@);
                    }
                    match g.get(default_item()) {
                        Ok(child) => match child.as_item() {
                            Some(it) => Ok(it),
                            None => Err(Error::NotAnItem {
                                name: child.name().clone(),
                                pat: None,
                            }),
                        },
                        Err(inner) => Err(Error::NotFound {
                            e: inner,
                            pat: default_item().to_owned(),
                            in_group: g.name().clone(),
                        }),
                    }
                },
            },
            Err(e) => Err(e),
        }
    }
}

} // verus!
