//! The hierarchical record tree: a record is a group of named records or a
//! named item holding a string value. A group owns its children exclusively
//! and their names are unique among siblings; a removed child is handed
//! back by value, so it is linked nowhere once removed, and the root is
//! owned by the caller and has no parent by construction.

use vstd::prelude::*;
use vstd::string::StrSliceExecFns;
use crate::secret::{atomic_fence, chars_zeroed, Erase};

verus! {

/// The mathematical shape of a record: names, values and child order,
/// free of representation detail.
#[verifier::ext_equal]
pub enum RecView {
    Group { name: Seq<char>, members: Seq<RecView> },
    Item { name: Seq<char>, value: Seq<char> },
}

impl RecView {
    pub open spec fn name(&self) -> Seq<char> {
        match self {
            RecView::Group { name, .. } => *name,
            RecView::Item { name, .. } => *name,
        }
    }

    pub open spec fn members(&self) -> Seq<RecView> {
        match self {
            RecView::Group { members, .. } => *members,
            RecView::Item { .. } => Seq::empty(),
        }
    }

    pub open spec fn value(&self) -> Seq<char> {
        match self {
            RecView::Group { .. } => Seq::empty(),
            RecView::Item { value, .. } => *value,
        }
    }

    /// Sibling names are unique throughout the tree.
    pub open spec fn wf(&self) -> bool
        decreases *self,
    {
        match self {
            RecView::Item { .. } => true,
            RecView::Group { members, .. } => {
                &&& names_unique(*members)
                &&& forall|i: int| 0 <= i < members.len() ==> #[trigger] members[i].wf()
            },
        }
    }
}

/// No two of these records share a name.
pub open spec fn names_unique(members: Seq<RecView>) -> bool {
    forall|i: int, j: int|
        0 <= i < j < members.len() ==> #[trigger] members[i].name() != #[trigger] members[j].name()
}

/// The index of the first record with the given name, if one is there.
pub open spec fn lookup_idx(members: Seq<RecView>, name: Seq<char>) -> Option<int>
    decreases members.len(),
{
    if members.len() == 0 {
        None
    } else if members[0].name() == name {
        Some(0)
    } else {
        match lookup_idx(members.skip(1), name) {
            Some(i) => Some(i + 1),
            None => None,
        }
    }
}

/// Whether some record with the given name is there.
pub open spec fn has_name(members: Seq<RecView>, name: Seq<char>) -> bool {
    exists|i: int| 0 <= i < members.len() && #[trigger] members[i].name() == name
}

pub proof fn lemma_lookup_idx(members: Seq<RecView>, name: Seq<char>)
    ensures
        match lookup_idx(members, name) {
            Some(i) => 0 <= i < members.len() && members[i].name() == name,
            None => !has_name(members, name),
        },
    decreases members.len(),
{
    if members.len() > 0 && members[0].name() != name {
        lemma_lookup_idx(members.skip(1), name);
        match lookup_idx(members.skip(1), name) {
            Some(i) => {},
            None => {
                assert forall|i: int| 0 <= i < members.len()
                    implies #[trigger] members[i].name() != name by {
                    if i > 0 {
                        assert(members.skip(1)[i - 1] == members[i]);
                        assert(!has_name(members.skip(1), name));
                    }
                }
            },
        }
    }
}

/// Shared metadata of a record: its name. A name never contains the path
/// delimiter; the path layer guarantees this for every name it creates.
pub struct Metadata {
    name: String,
}

pub struct Item {
    value: String,
    meta: Metadata,
}

pub struct Group {
    members: Vec<Record>,
    meta: Metadata,
}

pub enum Record {
    Group(Group),
    Item(Item),
}

#[derive(Debug)]
pub enum Error {
    NotFound,
    MultipleMatches,
    AlreadyExists,
}

impl Metadata {
    pub closed spec fn spec_name(&self) -> Seq<char> {
        self.name@
    }

    pub fn new(name: String) -> (r: Self)
        ensures
            r.spec_name() == name@,
    {
        Metadata { name }
    }

    pub fn name(&self) -> (r: &String)
        ensures
            r@ == self.spec_name(),
    {
        &self.name
    }

    /// Takes the metadata apart into the name it holds.
    pub fn into_name(self) -> (r: String)
        ensures
            r@ == self.spec_name(),
    {
        self.name
    }
}

/// The views of a sequence of records, in order.
pub closed spec fn members_view(ms: Seq<Record>) -> Seq<RecView>
    decreases ms,
{
    if ms.len() == 0 {
        Seq::empty()
    } else {
        members_view(ms.drop_last()).push(ms.last()@)
    }
}

impl View for Record {
    type V = RecView;

    closed spec fn view(&self) -> RecView
        decreases *self,
    {
        match self {
            Record::Group(g) => RecView::Group {
                name: g.meta.spec_name(),
                members: members_view(g.members@),
            },
            Record::Item(it) => RecView::Item {
                name: it.meta.spec_name(),
                value: it.value@,
            },
        }
    }
}

impl View for Group {
    type V = RecView;

    closed spec fn view(&self) -> RecView {
        RecView::Group {
            name: self.meta.spec_name(),
            members: members_view(self.members@),
        }
    }
}

impl View for Item {
    type V = RecView;

    closed spec fn view(&self) -> RecView {
        RecView::Item { name: self.meta.spec_name(), value: self.value@ }
    }
}

/// Each record of a sequence contributes exactly its view, in place.
pub broadcast proof fn lemma_members_view(ms: Seq<Record>)
    ensures
        (#[trigger] members_view(ms)).len() == ms.len(),
        forall|i: int| 0 <= i < ms.len() ==> #[trigger] members_view(ms)[i] == ms[i]@,
    decreases ms,
{
    if ms.len() > 0 {
        lemma_members_view(ms.drop_last());
        assert(members_view(ms) == members_view(ms.drop_last()).push(ms.last()@));
        assert forall|i: int| 0 <= i < ms.len()
            implies #[trigger] members_view(ms)[i] == ms[i]@ by {
            if i < ms.len() - 1 {
                assert(ms.drop_last()[i] == ms[i]);
                assert(members_view(ms.drop_last())[i] == ms.drop_last()[i]@);
                assert(members_view(ms)[i] == members_view(ms.drop_last())[i]);
            } else {
                assert(members_view(ms)[i] == ms.last()@);
            }
        }
    }
}

impl Group {
    pub fn new(name: String) -> (r: Self)
        ensures
            r@ == (RecView::Group { name: name@, members: Seq::empty() }),
    {
        broadcast use lemma_members_view;
        let g = Group { members: Vec::new(), meta: Metadata::new(name) };
        proof {
            assert(g@.members() =~= Seq::<RecView>::empty());
        }
        g
    }

    pub fn name(&self) -> (r: &String)
        ensures
            r@ == self@.name(),
    {
        self.meta.name()
    }

    /// How many records the group holds.
    pub fn len(&self) -> (r: usize)
        ensures
            r == self@.members().len(),
    {
        broadcast use lemma_members_view;
        self.members.len()
    }

    /// The record at the given position.
    pub fn member_at(&self, i: usize) -> (r: &Record)
        requires
            i < self@.members().len(),
        ensures
            r@ == self@.members()[i as int],
    {
        broadcast use lemma_members_view;
        &self.members[i]
    }

    /// Builds a group from a name and its member records.
    pub fn from_parts(name: String, members: Vec<Record>) -> (r: Self)
        ensures
            r@ == (RecView::Group { name: name@, members: members_view(members@) }),
    {
        Group { members, meta: Metadata::new(name) }
    }

    /// Wraps the group up as a record.
    pub fn into_record(self) -> (r: Record)
        ensures
            r@ == self@,
    {
        Record::Group(self)
    }

    /// Takes the group apart into its name and its member records.
    pub fn into_parts(self) -> (r: (String, Vec<Record>))
        ensures
            r.0@ == self@.name(),
            members_view(r.1@) == self@.members(),
    {
        let Group { members, meta } = self;
        (meta.into_name(), members)
    }

    /// The record at the given position, exclusively. The group keeps its
    /// name and its other members.
    pub fn member_at_mut(&mut self, i: usize) -> (r: &mut Record)
        requires
            i < old(self)@.members().len(),
        ensures
            (*r)@ == old(self)@.members()[i as int],
            final(self)@.members() == old(self)@.members().update(i as int, final(r)@),
            final(self)@.name() == old(self)@.name(),
    {
        broadcast use lemma_members_view;
        &mut self.members[i]
    }

    /// Exact lookup by name, as a member index.
    pub fn get_idx(&self, name: &str) -> (r: Result<usize, Error>)
        ensures
            r matches Ok(i) ==> lookup_idx(self@.members(), name@) == Some(i as int),
            r matches Err(e) ==> e is NotFound && !has_name(self@.members(), name@),
            r is Ok <==> has_name(self@.members(), name@),
    {
        broadcast use lemma_members_view;
        let ghost ms = self@.members();
        let n: usize = self.members.len();
        let mut i: usize = 0;
        proof {
            lemma_lookup_idx(ms, name@);
        }
        while i < n
            invariant
                n == ms.len(),
                ms == self@.members(),
                n == self.members.len(),
                forall|j: int| 0 <= j < n ==> #[trigger] self.members@[j]@ == ms[j],
                i <= n,
                forall|j: int| 0 <= j < i ==> #[trigger] ms[j].name() != name@,
                match lookup_idx(ms, name@) {
                    Some(k) => 0 <= k < ms.len() && ms[k].name() == name@,
                    None => !has_name(ms, name@),
                },
            decreases n - i,
        {
            if str_eq(record_name(&self.members[i]).as_str(), name) {
                proof {
                    assert(ms[i as int].name() == name@);
                    assert(has_name(ms, name@));
                    lemma_lookup_first(ms, name@, i as int);
                }
                return Ok(i);
            }
            i = i + 1;
        }
        proof {
            match lookup_idx(ms, name@) {
                Some(k) => {
                    assert(ms[k].name() != name@);
                    assert(false);
                },
                None => {},
            }
        }
        Err(Error::NotFound)
    }

    /// Removes and returns the record at the given position.
    pub fn remove_idx(&mut self, i: usize) -> (r: Record)
        requires
            i < old(self)@.members().len(),
        ensures
            r@ == old(self)@.members()[i as int],
            final(self)@.members() == old(self)@.members().remove(i as int),
            final(self)@.name() == old(self)@.name(),
    {
        broadcast use lemma_members_view;
        let ghost oldm = self.members@;
        let removed = self.members.remove(i);
        proof {
            assert forall|j: int| 0 <= j < self.members@.len()
                implies #[trigger] members_view(self.members@)[j]
                    == members_view(oldm).remove(i as int)[j] by {
                assert(members_view(self.members@)[j] == self.members@[j]@);
                if j < i {
                    assert(self.members@[j] == oldm[j]);
                } else {
                    assert(self.members@[j] == oldm[j + 1]);
                }
            }
            assert(self@.members() =~= members_view(oldm).remove(i as int));
        }
        removed
    }

    /// Exact lookup by name: the first record carrying it, which is the
    /// only one wherever sibling names are unique.
    pub fn get(&self, name: &str) -> (r: Result<&Record, Error>)
        ensures
            r matches Ok(rec) ==> lookup_idx(self@.members(), name@) matches Some(i)
                && rec@ == self@.members()[i],
            r matches Err(e) ==> e is NotFound && !has_name(self@.members(), name@),
            r is Ok <==> has_name(self@.members(), name@),
    {
        broadcast use lemma_members_view;
        let ghost ms = self@.members();
        let n: usize = self.members.len();
        let mut i: usize = 0;
        proof {
            lemma_lookup_idx(ms, name@);
        }
        while i < n
            invariant
                n == ms.len(),
                ms == self@.members(),
                n == self.members.len(),
                forall|j: int| 0 <= j < n ==> #[trigger] self.members@[j]@ == ms[j],
                i <= n,
                forall|j: int| 0 <= j < i ==> #[trigger] ms[j].name() != name@,
                match lookup_idx(ms, name@) {
                    Some(k) => 0 <= k < ms.len() && ms[k].name() == name@,
                    None => !has_name(ms, name@),
                },
            decreases n - i,
        {
            let rec = &self.members[i];
            if str_eq(record_name(rec).as_str(), name) {
                proof {
                    assert(has_name(ms, name@));
                    assert forall|j: int| 0 <= j < i implies #[trigger] ms[j].name() != name@ by {}
                    if lookup_idx(ms, name@) matches Some(k) && k != i {
                        lemma_lookup_first(ms, name@, i as int);
                    }
                }
                return Ok(rec);
            }
            i = i + 1;
        }
        Err(Error::NotFound)
    }

    /// Links `rec` into the group, unless a sibling already has its name;
    /// on failure the group is untouched and the rejected record is handed
    /// back unchanged.
    pub fn insert(&mut self, rec: Record) -> (r: Result<(), (Error, Record)>)
        ensures
            r matches Ok(()) ==> !has_name(old(self)@.members(), rec@.name())
                && final(self)@.members() == old(self)@.members().push(rec@)
                && final(self)@.name() == old(self)@.name(),
            r matches Err((e, back)) ==> e is AlreadyExists
                && has_name(old(self)@.members(), rec@.name())
                && back == rec
                && *final(self) == *old(self),
    {
        broadcast use lemma_members_view;
        let ghost ms = self@.members();
        let already = match self.get(record_name(&rec).as_str()) {
            Ok(_) => true,
            Err(_) => false,
        };
        if already {
            Err((Error::AlreadyExists, rec))
        } else {
            self.members.push(rec);
            proof {
                assert(self@.members() =~= ms.push(rec@));
            }
            Ok(())
        }
    }

    /// Unlinks and returns the named record. Once returned it is owned by
    /// the caller alone: nothing in the tree refers to it any longer.
    pub fn remove(&mut self, name: &str) -> (r: Result<Record, Error>)
        ensures
            r matches Ok(rec) ==> lookup_idx(old(self)@.members(), name@) matches Some(i)
                && rec@ == old(self)@.members()[i]
                && final(self)@.members() == old(self)@.members().remove(i)
                && final(self)@.name() == old(self)@.name(),
            r matches Err(e) ==> e is NotFound && !has_name(old(self)@.members(), name@)
                && *final(self) == *old(self),
            r is Ok <==> has_name(old(self)@.members(), name@),
    {
        broadcast use lemma_members_view;
        let ghost ms = self@.members();
        let n: usize = self.members.len();
        let mut i: usize = 0;
        proof {
            lemma_lookup_idx(ms, name@);
        }
        while i < n
            invariant
                *self == *old(self),
                n == ms.len(),
                ms == self@.members(),
                n == self.members.len(),
                forall|j: int| 0 <= j < n ==> #[trigger] self.members@[j]@ == ms[j],
                i <= n,
                forall|j: int| 0 <= j < i ==> #[trigger] ms[j].name() != name@,
                match lookup_idx(ms, name@) {
                    Some(k) => 0 <= k < ms.len() && ms[k].name() == name@,
                    None => !has_name(ms, name@),
                },
            decreases n - i,
        {
            broadcast use lemma_members_view;
            if str_eq(record_name(&self.members[i]).as_str(), name) {
                let ghost oldm = self.members@;
                proof {
                    assert(ms[i as int].name() == name@);
                    assert(has_name(ms, name@));
                    lemma_lookup_first(ms, name@, i as int);
                }
                let removed = self.members.remove(i);
                proof {
                    assert forall|j: int| 0 <= j < self.members@.len()
                        implies #[trigger] members_view(self.members@)[j]
                            == ms.remove(i as int)[j] by {
                        assert(members_view(self.members@)[j] == self.members@[j]@);
                        if j < i {
                            assert(self.members@[j] == oldm[j]);
                            assert(oldm[j]@ == ms[j]);
                        } else {
                            assert(self.members@[j] == oldm[j + 1]);
                            assert(oldm[j + 1]@ == ms[j + 1]);
                        }
                    }
                    assert(self@.members() =~= ms.remove(i as int));
                }
                return Ok(removed);
            }
            i = i + 1;
        }
        proof {
            match lookup_idx(ms, name@) {
                Some(k) => {
                    assert(ms[k].name() != name@);
                    assert(false);
                },
                None => {},
            }
        }
        Err(Error::NotFound)
    }
}

/// Linking a record whose name no sibling carries keeps sibling names
/// unique: the well-formedness that `insert` guards is preserved.
pub proof fn lemma_insert_keeps_names_unique(members: Seq<RecView>, child: RecView)
    requires
        names_unique(members),
        !has_name(members, child.name()),
    ensures
        names_unique(members.push(child)),
{
    let e = members.push(child);
    assert forall|i: int, j: int| 0 <= i < j < e.len()
        implies #[trigger] e[i].name() != #[trigger] e[j].name() by {
        if j < members.len() {
            assert(e[i] == members[i]);
            assert(e[j] == members[j]);
        } else {
            assert(e[i] == members[i]);
            assert(e[j] == child);
            if e[i].name() == child.name() {
                assert(has_name(members, child.name()));
            }
        }
    }
}

/// Unlinking a record keeps the remaining sibling names unique.
pub proof fn lemma_remove_keeps_names_unique(members: Seq<RecView>, i: int)
    requires
        names_unique(members),
        0 <= i < members.len(),
    ensures
        names_unique(members.remove(i)),
{
    let e = members.remove(i);
    assert forall|a: int, b: int| 0 <= a < b < e.len()
        implies #[trigger] e[a].name() != #[trigger] e[b].name() by {
        let a0 = if a < i { a } else { a + 1 };
        let b0 = if b < i { b } else { b + 1 };
        assert(e[a] == members[a0]);
        assert(e[b] == members[b0]);
    }
}

/// A group's view is the group-shaped view of its name and members.
pub broadcast proof fn lemma_group_view(g: &Group)
    ensures
        #[trigger] g@ == (RecView::Group { name: g@.name(), members: g@.members() }),
{
}

/// An item's view is the item-shaped view of its name and value.
pub broadcast proof fn lemma_item_view(it: &Item)
    ensures
        #[trigger] it@ == (RecView::Item { name: it@.name(), value: it@.value() }),
{
}

/// The first hit of a linear scan is the index `lookup_idx` names.
proof fn lemma_lookup_first(members: Seq<RecView>, name: Seq<char>, i: int)
    requires
        0 <= i < members.len(),
        members[i].name() == name,
        forall|j: int| 0 <= j < i ==> #[trigger] members[j].name() != name,
    ensures
        lookup_idx(members, name) == Some(i),
    decreases members.len(),
{
    if i > 0 {
        assert(members[0].name() != name);
        lemma_lookup_first(members.skip(1), name, i - 1);
        assert forall|j: int| 0 <= j < i - 1
            implies #[trigger] members.skip(1)[j].name() != name by {
            assert(members.skip(1)[j] == members[j + 1]);
        }
        assert(members.skip(1)[i - 1] == members[i]);
    }
}

impl Item {
    pub fn new(name: String, value: String) -> (r: Self)
        ensures
            r@ == (RecView::Item { name: name@, value: value@ }),
    {
        Item { value, meta: Metadata::new(name) }
    }

    pub fn name(&self) -> (r: &String)
        ensures
            r@ == self@.name(),
    {
        self.meta.name()
    }

    pub fn value(&self) -> (r: &String)
        ensures
            r@ == self@.value(),
    {
        &self.value
    }

    /// Wraps the item up as a record.
    pub fn into_record(self) -> (r: Record)
        ensures
            r@ == self@,
    {
        Record::Item(self)
    }

    /// Takes the item apart into its name and its value.
    pub fn into_parts(self) -> (r: (String, String))
        ensures
            r.0@ == self@.name(),
            r.1@ == self@.value(),
    {
        let Item { value, meta } = self;
        (meta.into_name(), value)
    }

    pub fn value_mut(&mut self) -> (r: &mut String)
        ensures
            (*r)@ == old(self)@.value(),
            final(self)@ == (RecView::Item { name: old(self)@.name(), value: final(r)@ }),
    {
        &mut self.value
    }
}

impl Record {
    pub fn new_group(name: String) -> (r: Self)
        ensures
            r@ == (RecView::Group { name: name@, members: Seq::empty() }),
    {
        broadcast use lemma_members_view;
        Record::Group(Group::new(name))
    }

    pub fn new_item(name: String, value: String) -> (r: Self)
        ensures
            r@ == (RecView::Item { name: name@, value: value@ }),
    {
        broadcast use lemma_members_view;
        Record::Item(Item::new(name, value))
    }

    pub fn is_group(&self) -> (r: bool)
        ensures
            r == (self@ is Group),
    {
        broadcast use lemma_members_view;
        match self {
            Record::Group(_) => true,
            Record::Item(_) => false,
        }
    }

    /// The record's name, whichever kind it is.
    pub fn name(&self) -> (r: &String)
        ensures
            r@ == self@.name(),
    {
        broadcast use lemma_members_view;
        match self {
            Record::Group(g) => g.name(),
            Record::Item(it) => it.name(),
        }
    }

    /// Takes the record apart into the group or item it is.
    pub fn into_cases(self) -> (r: Result<Group, Item>)
        ensures
            r matches Ok(g) ==> g@ == self@ && self@ is Group,
            r matches Err(it) ==> it@ == self@ && self@ is Item,
    {
        match self {
            Record::Group(g) => Ok(g),
            Record::Item(it) => Err(it),
        }
    }

    /// The record as a group, if it is one.
    pub fn as_group(&self) -> (r: Option<&Group>)
        ensures
            r matches Some(g) ==> g@ == self@,
            r is Some <==> self@ is Group,
    {
        broadcast use lemma_members_view;
        match self {
            Record::Group(g) => Some(g),
            Record::Item(_) => None,
        }
    }

    /// The record as an item, if it is one.
    pub fn as_item(&self) -> (r: Option<&Item>)
        ensures
            r matches Some(it) ==> it@ == self@,
            r is Some <==> self@ is Item,
    {
        broadcast use lemma_members_view;
        match self {
            Record::Group(_) => None,
            Record::Item(it) => Some(it),
        }
    }

    /// The record as a group, exclusively, if it is one.
    pub fn as_group_mut(&mut self) -> (r: Option<&mut Group>)
        ensures
            r matches Some(g) ==> (*g)@ == old(self)@ && final(self)@ == final(g)@,
            r is None ==> *final(self) == *old(self) && old(self)@ is Item,
            r is Some <==> old(self)@ is Group,
    {
        broadcast use lemma_members_view;
        match self {
            Record::Group(g) => Some(g),
            Record::Item(_) => None,
        }
    }

    /// The record as an item, exclusively, if it is one.
    pub fn as_item_mut(&mut self) -> (r: Option<&mut Item>)
        ensures
            r matches Some(it) ==> (*it)@ == old(self)@ && final(self)@ == final(it)@,
            r is None ==> *final(self) == *old(self) && old(self)@ is Group,
            r is Some <==> old(self)@ is Item,
    {
        broadcast use lemma_members_view;
        match self {
            Record::Group(_) => None,
            Record::Item(it) => Some(it),
        }
    }
}

/// The fuzzy match score of a pattern against a candidate name: the
/// case-insensitive subsequence match score, higher is better, `None`
/// where the pattern does not match at all. Deterministic in its two
/// arguments.
pub uninterp spec fn score_of(pat: Seq<char>, target: Seq<char>) -> Option<int>;

/// Strict order on scores: a missing score ranks below every present one.
pub open spec fn score_lt(a: Option<int>, b: Option<int>) -> bool {
    match (a, b) {
        (_, None) => false,
        (None, Some(_)) => true,
        (Some(x), Some(y)) => x < y,
    }
}

/// The score of record `m` against the pattern.
pub open spec fn member_score(pat: Seq<char>, m: RecView) -> Option<int> {
    score_of(pat, m.name())
}

/// Member `i` matches and scores strictly above every other member.
pub open spec fn is_unique_best(pat: Seq<char>, members: Seq<RecView>, i: int) -> bool {
    &&& 0 <= i < members.len()
    &&& member_score(pat, members[i]) is Some
    &&& forall|j: int| 0 <= j < members.len() && j != i
        ==> score_lt(#[trigger] member_score(pat, members[j]), member_score(pat, members[i]))
}

/// Some member matches and scores strictly above every other.
pub open spec fn has_unique_best(pat: Seq<char>, members: Seq<RecView>) -> bool {
    exists|i: int| is_unique_best(pat, members, i)
}

/// Some member matches at all.
pub open spec fn any_match(pat: Seq<char>, members: Seq<RecView>) -> bool {
    exists|i: int| 0 <= i < members.len() && #[trigger] member_score(pat, members[i]) is Some
}

impl Group {
    /// Fuzzy lookup: the record whose name scores strictly highest against
    /// the pattern. Two or more records tied at the top are ambiguous, and
    /// no matching record at all is not found.
    pub fn get_fuzzy(&self, name_pat: &str) -> (r: Result<&Record, Error>)
        ensures
            r matches Ok(rec) ==> exists|i: int|
                #[trigger] is_unique_best(name_pat@, self@.members(), i)
                    && rec@ == self@.members()[i],
            r is Ok <==> has_unique_best(name_pat@, self@.members()),
            r matches Err(e) ==> (e is NotFound <==> !any_match(name_pat@, self@.members()))
                && (e is NotFound || e is MultipleMatches),
    {
        broadcast use lemma_members_view;
        match self.get_fuzzy_idx(name_pat) {
            Ok(i) => {
                proof {
                    assert(is_unique_best(name_pat@, self@.members(), i as int));
                }
                Ok(&self.members[i])
            },
            Err(e) => Err(e),
        }
    }

    /// Fuzzy lookup, as a member index: the unique best match.
    pub fn get_fuzzy_idx(&self, name_pat: &str) -> (r: Result<usize, Error>)
        ensures
            r matches Ok(i) ==> is_unique_best(name_pat@, self@.members(), i as int),
            r is Ok <==> has_unique_best(name_pat@, self@.members()),
            r matches Err(e) ==> (e is NotFound <==> !any_match(name_pat@, self@.members()))
                && (e is NotFound || e is MultipleMatches),
    {
        broadcast use lemma_members_view;
        let ghost ms = self@.members();
        let n: usize = self.members.len();
        let mut i: usize = 0;
        let mut best_idx: usize = 0;
        let mut best_score: i64 = 0;
        let mut have_best: bool = false;
        let mut multiple: bool = false;
        while i < n
            invariant
                n == ms.len(),
                ms == self@.members(),
                n == self.members.len(),
                forall|j: int| 0 <= j < n ==> #[trigger] self.members@[j]@ == ms[j],
                i <= n,
                !have_best ==> forall|j: int| 0 <= j < i
                    ==> #[trigger] member_score(name_pat@, ms[j]) is None,
                !have_best ==> !multiple,
                have_best ==> best_idx < i
                    && member_score(name_pat@, ms[best_idx as int]) == Some(best_score as int),
                have_best ==> forall|j: int| 0 <= j < i && j != best_idx
                    ==> (#[trigger] member_score(name_pat@, ms[j]) is None
                        || member_score(name_pat@, ms[j])->0 <= best_score),
                multiple <==> exists|j: int| 0 <= j < i && j != best_idx
                    && #[trigger] member_score(name_pat@, ms[j]) == Some(best_score as int)
                    && have_best,
            decreases n - i,
        {
            broadcast use lemma_members_view;
            let rec = &self.members[i];
            match fuzzy_score(name_pat, record_name(rec).as_str()) {
                Some(s) => {
                    proof {
                        assert(ms[i as int].name() == rec@.name());
                        assert(member_score(name_pat@, ms[i as int]) == Some(s as int));
                    }
                    if !have_best || s > best_score {
                        proof {
                            assert forall|j: int| 0 <= j < i + 1 && j != i as int
                                implies !(#[trigger] member_score(name_pat@, ms[j])
                                    == Some(s as int)) by {
                                if have_best {
                                    if member_score(name_pat@, ms[j]) is Some {
                                        let v = member_score(name_pat@, ms[j])->0;
                                        assert(j == best_idx ==> v == best_score);
                                        assert(j != best_idx ==> v <= best_score);
                                    }
                                } else {
                                    assert(member_score(name_pat@, ms[j]) is None);
                                }
                            }
                        }
                        best_idx = i;
                        best_score = s;
                        have_best = true;
                        multiple = false;
                    } else if s == best_score {
                        proof {
                            assert(member_score(name_pat@, ms[i as int])
                                == Some(best_score as int));
                            assert(i as int != best_idx);
                        }
                        multiple = true;
                    } else {
                        proof {
                            assert(!(member_score(name_pat@, ms[i as int])
                                == Some(best_score as int)));
                        }
                    }
                },
                None => {
                    proof {
                        assert(ms[i as int].name() == rec@.name());
                        assert(member_score(name_pat@, ms[i as int]) is None);
                    }
                },
            }
            i = i + 1;
        }
        if !have_best {
            proof {
                assert forall|j: int| 0 <= j < n
                    implies !(#[trigger] member_score(name_pat@, ms[j]) is Some) by {}
            }
            Err(Error::NotFound)
        } else if multiple {
            proof {
                let j0 = choose|j: int| 0 <= j < n && j != best_idx
                    && #[trigger] member_score(name_pat@, ms[j]) == Some(best_score as int)
                    && have_best;
                assert forall|u: int| !is_unique_best(name_pat@, ms, u) by {
                    if is_unique_best(name_pat@, ms, u) {
                        if u == best_idx {
                            assert(score_lt(member_score(name_pat@, ms[j0]),
                                member_score(name_pat@, ms[u])));
                        } else if u == j0 {
                            assert(score_lt(member_score(name_pat@, ms[best_idx as int]),
                                member_score(name_pat@, ms[u])));
                        } else {
                            assert(score_lt(member_score(name_pat@, ms[best_idx as int]),
                                member_score(name_pat@, ms[u])));
                        }
                    }
                }
            }
            Err(Error::MultipleMatches)
        } else {
            proof {
                assert(is_unique_best(name_pat@, ms, best_idx as int));
            }
            Ok(best_idx)
        }
    }
}

/// Relies on sublime_fuzzy::best_match: the case-insensitive subsequence
/// match score of a pattern against a target, a pure function of the two
/// strings, named `score_of` here; `None` where nothing matches.
#[verifier::external_body]
fn fuzzy_score(pat: &str, target: &str) -> (r: Option<i64>)
    ensures
        r matches Some(s) ==> score_of(pat@, target@) == Some(s as int),
        r is None ==> score_of(pat@, target@) is None,
{
    match sublime_fuzzy::best_match(pat, target) {
        Some(m) => Some(m.score() as i64),
        None => None,
    }
}

/// The record's name; free form of [`Record::name`] for use on borrowed
/// parts of a match.
fn record_name(rec: &Record) -> (r: &String)
    ensures
        r@ == rec@.name(),
{
    broadcast use lemma_members_view;
    match rec {
        Record::Group(g) => g.name(),
        Record::Item(it) => it.name(),
    }
}

/// The erased state of a record: its name and value scrubbed to zero
/// characters in place, and no children left.
pub open spec fn rv_erased(v: RecView) -> bool {
    chars_zeroed(v.name()) && chars_zeroed(v.value()) && v.members().len() == 0
}

/// The number of records in a tree, the root included.
pub open spec fn rv_size(v: RecView) -> nat
    decreases v,
{
    match v {
        RecView::Item { .. } => 1,
        RecView::Group { members, .. } => 1 + seq_size(members),
    }
}

/// The number of records in a forest.
pub open spec fn seq_size(ms: Seq<RecView>) -> nat
    decreases ms,
{
    if ms.len() == 0 {
        0
    } else {
        rv_size(ms[0]) + seq_size(ms.skip(1))
    }
}

pub proof fn lemma_seq_size_element(ms: Seq<RecView>, i: int)
    requires
        0 <= i < ms.len(),
    ensures
        rv_size(ms[i]) <= seq_size(ms),
    decreases ms.len(),
{
    if i > 0 {
        lemma_seq_size_element(ms.skip(1), i - 1);
        assert(ms.skip(1)[i - 1] == ms[i]);
    }
}

/// Erases one record in place: every name and value is scrubbed and every
/// group emptied, leaf first.
fn erase_record(r: &mut Record)
    ensures
        rv_erased(final(r)@),
    decreases rv_size(r@), 1nat,
{
    match r {
        Record::Group(g) => erase_group(g),
        Record::Item(it) => {
            it.value.erase();
            it.meta.name.erase();
        },
    }
}

/// Erases a group in place: each member is erased and dropped, then the
/// group's own name is scrubbed.
fn erase_group(g: &mut Group)
    ensures
        chars_zeroed(final(g)@.name()),
        final(g)@.members().len() == 0,
    decreases rv_size(g@), 0nat,
{
    broadcast use lemma_members_view;
    let ghost m0 = g.members@;
    let n: usize = g.members.len();
    let mut i: usize = 0;
    while i < n
        invariant
            m0 == old(g).members@,
            rv_size(old(g)@) == 1 + seq_size(members_view(m0)),
            n == g.members@.len(),
            n == m0.len(),
            i <= n,
            forall|j: int| i <= j < n ==> g.members@[j] == m0[j],
        decreases n - i,
    {
        broadcast use lemma_members_view;
        proof {
            lemma_seq_size_element(members_view(m0), i as int);
            assert(members_view(m0)[i as int] == m0[i as int]@);
            assert(rv_size(g.members@[i as int]@) < rv_size(old(g)@));
        }
        erase_record(&mut g.members[i]);
        i = i + 1;
    }
    g.members.clear();
    g.meta.name.erase();
    proof {
        assert(g@.members() =~= Seq::<RecView>::empty());
    }
    atomic_fence();
}

impl Erase for Record {
    open spec fn erased(&self) -> bool {
        rv_erased(self@)
    }

    #[inline(never)]
    fn erase(&mut self) {
        erase_record(self);
    }
}

impl Erase for Group {
    open spec fn erased(&self) -> bool {
        chars_zeroed(self@.name()) && self@.members().len() == 0
    }

    #[inline(never)]
    fn erase(&mut self) {
        erase_group(self);
    }
}

impl Erase for Item {
    open spec fn erased(&self) -> bool {
        chars_zeroed(self@.name()) && chars_zeroed(self@.value())
    }

    #[inline(never)]
    fn erase(&mut self) {
        self.value.erase();
        self.meta.name.erase();
    }
}

impl Erase for Metadata {
    open spec fn erased(&self) -> bool {
        chars_zeroed(self.spec_name())
    }

    #[inline(never)]
    fn erase(&mut self) {
        self.name.erase();
    }
}

/// Character-for-character string comparison.
pub fn str_eq(a: &str, b: &str) -> (r: bool)
    ensures
        r == (a@ == b@),
{
    let na: usize = a.unicode_len();
    let nb: usize = b.unicode_len();
    if na != nb {
        return false;
    }
    let mut i: usize = 0;
    while i < na
        invariant
            na == a@.len() == b@.len(),
            i <= na,
            forall|j: int| 0 <= j < i ==> a@[j] == b@[j],
        decreases na - i,
    {
        if a.get_char(i) != b.get_char(i) {
            return false;
        }
        i = i + 1;
    }
    proof {
        assert(a@ =~= b@);
    }
    true
}

} // verus!
