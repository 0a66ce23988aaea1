//! The interchange form of a record tree, used only at the serialization
//! boundary: a plain recursive value of names, values and children that a
//! serialization collaborator can turn into text and back. Conversions in
//! both directions preserve the tree exactly.

use vstd::prelude::*;
use crate::record::{members_view, Group, Item, Record, RecView};
use crate::secret::{chars_zeroed, Erase};

verus! {

/// The interchange form of a record: a group of children or an item
/// holding a value.
pub enum Ir {
    Group { name: String, members: Vec<Ir> },
    Item { name: String, value: String },
}

/// The mathematical shape of an interchange value.
#[verifier::ext_equal]
pub enum IrView {
    Group { name: Seq<char>, members: Seq<IrView> },
    Item { name: Seq<char>, value: Seq<char> },
}

impl IrView {
    pub open spec fn name(&self) -> Seq<char> {
        match self {
            IrView::Group { name, .. } => *name,
            IrView::Item { name, .. } => *name,
        }
    }
}

/// The views of a sequence of interchange values, in order.
pub closed spec fn irs_view(ms: Seq<Ir>) -> Seq<IrView>
    decreases ms,
{
    if ms.len() == 0 {
        Seq::empty()
    } else {
        irs_view(ms.drop_last()).push(ms.last()@)
    }
}

impl View for Ir {
    type V = IrView;

    closed spec fn view(&self) -> IrView
        decreases *self,
    {
        match self {
            Ir::Group { name, members } => IrView::Group {
                name: name@,
                members: irs_view(members@),
            },
            Ir::Item { name, value } => IrView::Item { name: name@, value: value@ },
        }
    }
}

/// Each interchange value of a sequence contributes exactly its view.
pub broadcast proof fn lemma_irs_view(ms: Seq<Ir>)
    ensures
        (#[trigger] irs_view(ms)).len() == ms.len(),
        forall|i: int| 0 <= i < ms.len() ==> #[trigger] irs_view(ms)[i] == ms[i]@,
    decreases ms,
{
    if ms.len() > 0 {
        lemma_irs_view(ms.drop_last());
        assert(irs_view(ms) == irs_view(ms.drop_last()).push(ms.last()@));
        assert forall|i: int| 0 <= i < ms.len() implies #[trigger] irs_view(ms)[i] == ms[i]@ by {
            if i < ms.len() - 1 {
                assert(ms.drop_last()[i] == ms[i]);
                assert(irs_view(ms.drop_last())[i] == ms.drop_last()[i]@);
                assert(irs_view(ms)[i] == irs_view(ms.drop_last())[i]);
            } else {
                assert(irs_view(ms)[i] == ms.last()@);
            }
        }
    }
}

/// The record a given interchange value stands for.
pub open spec fn rec_of_ir(v: IrView) -> RecView
    decreases v,
{
    match v {
        IrView::Group { name, members } => RecView::Group {
            name,
            members: recs_of_irs(members),
        },
        IrView::Item { name, value } => RecView::Item { name, value },
    }
}

/// The records a sequence of interchange values stands for, in order.
pub open spec fn recs_of_irs(ms: Seq<IrView>) -> Seq<RecView>
    decreases ms,
{
    if ms.len() == 0 {
        Seq::empty()
    } else {
        recs_of_irs(ms.drop_last()).push(rec_of_ir(ms.last()))
    }
}

/// The interchange value standing for a given record.
pub open spec fn ir_of_rec(v: RecView) -> IrView
    decreases v,
{
    match v {
        RecView::Group { name, members } => IrView::Group {
            name,
            members: irs_of_recs(members),
        },
        RecView::Item { name, value } => IrView::Item { name, value },
    }
}

/// The interchange values standing for a sequence of records, in order.
pub open spec fn irs_of_recs(ms: Seq<RecView>) -> Seq<IrView>
    decreases ms,
{
    if ms.len() == 0 {
        Seq::empty()
    } else {
        irs_of_recs(ms.drop_last()).push(ir_of_rec(ms.last()))
    }
}

pub broadcast proof fn lemma_recs_of_irs(ms: Seq<IrView>)
    ensures
        (#[trigger] recs_of_irs(ms)).len() == ms.len(),
        forall|i: int| 0 <= i < ms.len() ==> #[trigger] recs_of_irs(ms)[i] == rec_of_ir(ms[i]),
    decreases ms,
{
    if ms.len() > 0 {
        lemma_recs_of_irs(ms.drop_last());
        assert(recs_of_irs(ms) == recs_of_irs(ms.drop_last()).push(rec_of_ir(ms.last())));
        assert forall|i: int| 0 <= i < ms.len()
            implies #[trigger] recs_of_irs(ms)[i] == rec_of_ir(ms[i]) by {
            if i < ms.len() - 1 {
                assert(ms.drop_last()[i] == ms[i]);
                assert(recs_of_irs(ms.drop_last())[i] == rec_of_ir(ms.drop_last()[i]));
                assert(recs_of_irs(ms)[i] == recs_of_irs(ms.drop_last())[i]);
            } else {
                assert(recs_of_irs(ms)[i] == rec_of_ir(ms.last()));
            }
        }
    }
}

pub broadcast proof fn lemma_irs_of_recs(ms: Seq<RecView>)
    ensures
        (#[trigger] irs_of_recs(ms)).len() == ms.len(),
        forall|i: int| 0 <= i < ms.len() ==> #[trigger] irs_of_recs(ms)[i] == ir_of_rec(ms[i]),
    decreases ms,
{
    if ms.len() > 0 {
        lemma_irs_of_recs(ms.drop_last());
        assert(irs_of_recs(ms) == irs_of_recs(ms.drop_last()).push(ir_of_rec(ms.last())));
        assert forall|i: int| 0 <= i < ms.len()
            implies #[trigger] irs_of_recs(ms)[i] == ir_of_rec(ms[i]) by {
            if i < ms.len() - 1 {
                assert(ms.drop_last()[i] == ms[i]);
                assert(irs_of_recs(ms.drop_last())[i] == ir_of_rec(ms.drop_last()[i]));
                assert(irs_of_recs(ms)[i] == irs_of_recs(ms.drop_last())[i]);
            } else {
                assert(irs_of_recs(ms)[i] == ir_of_rec(ms.last()));
            }
        }
    }
}

/// Converting a record to its interchange form and back is the identity.
pub proof fn lemma_ir_round_trip(v: RecView)
    ensures
        rec_of_ir(ir_of_rec(v)) == v,
    decreases v,
{
    match v {
        RecView::Item { .. } => {},
        RecView::Group { name, members } => {
            lemma_irs_of_recs(members);
            lemma_recs_of_irs(irs_of_recs(members));
            assert forall|i: int| 0 <= i < members.len()
                implies #[trigger] recs_of_irs(irs_of_recs(members))[i] == members[i] by {
                lemma_ir_round_trip(members[i]);
            }
            assert(recs_of_irs(irs_of_recs(members)) =~= members);
        },
    }
}

/// The number of values in an interchange tree, for termination.
pub open spec fn ir_size(v: IrView) -> nat
    decreases v,
{
    match v {
        IrView::Item { .. } => 1,
        IrView::Group { members, .. } => 1 + irs_size(members),
    }
}

pub open spec fn irs_size(ms: Seq<IrView>) -> nat
    decreases ms,
{
    if ms.len() == 0 {
        0
    } else {
        ir_size(ms[0]) + irs_size(ms.skip(1))
    }
}

proof fn lemma_irs_size_element(ms: Seq<IrView>, i: int)
    requires
        0 <= i < ms.len(),
    ensures
        ir_size(ms[i]) <= irs_size(ms),
    decreases ms.len(),
{
    if i > 0 {
        lemma_irs_size_element(ms.skip(1), i - 1);
        assert(ms.skip(1)[i - 1] == ms[i]);
    }
}

impl Ir {
    /// The value's name, whichever kind it is.
    pub fn name(&self) -> (r: &String)
        ensures
            r@ == self@.name(),
    {
        match self {
            Ir::Group { name, .. } => name,
            Ir::Item { name, .. } => name,
        }
    }

    /// The interchange form of a record tree, built without consuming it:
    /// every name and value is copied.
    pub fn clone_from(rec: &Record) -> (r: Ir)
        ensures
            r@ == ir_of_rec(rec@),
        decreases crate::record::rv_size(rec@),
    {
        broadcast use crate::record::lemma_members_view, lemma_irs_view, lemma_irs_of_recs;
        match rec.as_group() {
            None => {
                let name = rec.name().clone();
                let value = match rec.as_item() {
                    Some(it) => it.value().clone(),
                    None => String::new(),
                };
                Ir::Item { name, value }
            },
            Some(g) => {
                let ghost ms = g@.members();
                let n: usize = g.len();
                let mut members: Vec<Ir> = Vec::new();
                let mut i: usize = 0;
                while i < n
                    invariant
                        ms == g@.members(),
                        ms == rec@.members(),
                        rec@ is Group,
                        n == ms.len(),
                        i <= n,
                        irs_view(members@) == irs_of_recs(ms).take(i as int),
                    decreases n - i,
                {
                    broadcast use
                        crate::record::lemma_members_view,
                        lemma_irs_view,
                        lemma_irs_of_recs;

                    proof {
                        crate::record::lemma_seq_size_element(ms, i as int);
                        assert(crate::record::rv_size(rec@)
                            == 1 + crate::record::seq_size(ms));
                    }
                    let child = Ir::clone_from(g.member_at(i));
                    members.push(child);
                    proof {
                        assert(irs_view(members@) =~= irs_of_recs(ms).take(i + 1));
                    }
                    i = i + 1;
                }
                proof {
                    assert(irs_of_recs(ms).take(n as int) =~= irs_of_recs(ms));
                }
                Ir::Group { name: g.name().clone(), members }
            },
        }
    }

    /// The interchange form of a record tree, consuming it: names and
    /// values move over without copies.
    pub fn from(rec: Record) -> (r: Ir)
        ensures
            r@ == ir_of_rec(rec@),
        decreases crate::record::rv_size(rec@),
    {
        broadcast use crate::record::lemma_members_view, lemma_irs_view, lemma_irs_of_recs;
        let ghost rv = rec@;
        match rec.into_cases() {
            Err(it) => {
                let (name, value) = it.into_parts();
                Ir::Item { name, value }
            },
            Ok(g) => {
                let ghost gv = g@;
                let (name, mut recs) = g.into_parts();
                let ghost ms = gv.members();
                let mut members: Vec<Ir> = Vec::new();
                let mut i: usize = 0;
                let n: usize = recs.len();
                let ghost recs0 = recs@;
                proof {
                    assert(recs0.skip(0) =~= recs0);
                    assert(irs_of_recs(ms).take(0) =~= Seq::<IrView>::empty());
                }
                #[verifier::loop_isolation(false)]
                while i < n
                    invariant
                        members_view(recs0) == ms,
                        gv == rv,
                        gv is Group,
                        gv.members() == ms,
                        n == recs0.len(),
                        n == ms.len(),
                        i <= n,
                        recs@ == recs0.skip(i as int),
                        irs_view(members@) == irs_of_recs(ms).take(i as int),
                    decreases n - i,
                {
                    broadcast use
                        crate::record::lemma_members_view,
                        lemma_irs_view,
                        lemma_irs_of_recs;

                    let child_rec = recs.remove(0);
                    proof {
                        assert(child_rec@ == recs0[i as int]@);
                        assert(child_rec@ == ms[i as int]);
                        crate::record::lemma_seq_size_element(ms, i as int);
                        assert(crate::record::rv_size(rv) == 1 + crate::record::seq_size(ms));
                        assert(recs@ =~= recs0.skip(i + 1));
                    }
                    let child = Ir::from(child_rec);
                    members.push(child);
                    proof {
                        assert(irs_view(members@) =~= irs_of_recs(ms).take(i + 1));
                    }
                    i = i + 1;
                }
                proof {
                    assert(irs_of_recs(ms).take(n as int) =~= irs_of_recs(ms));
                }
                Ir::Group { name, members }
            },
        }
    }
}

impl Record {
    /// The record tree a given interchange value stands for, consuming it.
    pub fn from(ir: Ir) -> (r: Record)
        ensures
            r@ == rec_of_ir(ir@),
        decreases ir_size(ir@),
    {
        broadcast use crate::record::lemma_members_view, lemma_irs_view, lemma_recs_of_irs;
        let ghost iv = ir@;
        match ir {
            Ir::Item { name, value } => Record::new_item(name, value),
            Ir::Group { name, members } => {
                let mut members = members;
                let ghost msv = irs_view(members@);
                let ghost members0 = members@;
                let mut recs: Vec<Record> = Vec::new();
                let n: usize = members.len();
                let mut i: usize = 0;
                proof {
                    assert(members0.skip(0) =~= members0);
                    assert(recs_of_irs(msv).take(0) =~= Seq::<RecView>::empty());
                    assert(members_view(recs@) =~= Seq::<RecView>::empty());
                }
                #[verifier::loop_isolation(false)]
                while i < n
                    invariant
                        n == members0.len(),
                        n == msv.len(),
                        i <= n,
                        members@ == members0.skip(i as int),
                        members_view(recs@) == recs_of_irs(msv).take(i as int),
                    decreases n - i,
                {
                    broadcast use
                        crate::record::lemma_members_view,
                        lemma_irs_view,
                        lemma_recs_of_irs;

                    let child_ir = members.remove(0);
                    proof {
                        assert(child_ir@ == members0[i as int]@);
                        assert(child_ir@ == msv[i as int]);
                        lemma_irs_size_element(msv, i as int);
                        assert(ir_size(iv) == 1 + irs_size(msv));
                        assert(members@ =~= members0.skip(i + 1));
                    }
                    let child = Record::from(child_ir);
                    recs.push(child);
                    proof {
                        assert(members_view(recs@) =~= recs_of_irs(msv).take(i + 1));
                    }
                    i = i + 1;
                }
                proof {
                    assert(recs_of_irs(msv).take(n as int) =~= recs_of_irs(msv));
                }
                Group::from_parts(name, recs).into_record()
            },
        }
    }
}

#[derive(Debug)]
pub enum Error {
    /// The root of a stored tree must be a group.
    NotAGroup { name: String },
    /// Two siblings share a name somewhere in the tree.
    DuplicateName,
}

/// No two of these interchange values share a name.
pub open spec fn ir_names_unique(ms: Seq<IrView>) -> bool {
    forall|i: int, j: int|
        0 <= i < j < ms.len() ==> #[trigger] ms[i].name() != #[trigger] ms[j].name()
}

/// Sibling names are unique throughout the interchange tree: the shape a
/// stored tree must have for the record tree it stands for to be well
/// formed.
pub open spec fn ir_wf(v: IrView) -> bool
    decreases v,
{
    match v {
        IrView::Item { .. } => true,
        IrView::Group { members, .. } => {
            &&& ir_names_unique(members)
            &&& forall|i: int| 0 <= i < members.len() ==> ir_wf(#[trigger] members[i])
        },
    }
}

/// A well-formed interchange tree stands for a well-formed record tree.
pub proof fn lemma_rec_of_ir_wf(v: IrView)
    requires
        ir_wf(v),
    ensures
        rec_of_ir(v).wf(),
    decreases v,
{
    match v {
        IrView::Item { .. } => {},
        IrView::Group { name, members } => {
            lemma_recs_of_irs(members);
            let recs = recs_of_irs(members);
            assert forall|i: int, j: int| 0 <= i < j < recs.len()
                implies #[trigger] recs[i].name() != #[trigger] recs[j].name() by {
                assert(recs[i] == rec_of_ir(members[i]));
                assert(recs[j] == rec_of_ir(members[j]));
                assert(recs[i].name() == members[i].name());
                assert(recs[j].name() == members[j].name());
            }
            assert forall|i: int| 0 <= i < recs.len()
                implies (#[trigger] recs[i]).wf() by {
                assert(recs[i] == rec_of_ir(members[i]));
                assert(ir_wf(members[i]));
                lemma_rec_of_ir_wf(members[i]);
            }
        },
    }
}

/// Whether sibling names are unique throughout the tree.
fn ir_wf_check(ir: &Ir) -> (r: bool)
    ensures
        r == ir_wf(ir@),
    decreases ir_size(ir@),
{
    broadcast use lemma_irs_view;
    match ir {
        Ir::Item { .. } => true,
        Ir::Group { members, .. } => {
            let ghost iv = ir@;
            let ghost msv = irs_view(members@);
            let n: usize = members.len();
            let mut i: usize = 0;
            #[verifier::loop_isolation(false)]
            while i < n
                invariant
                    forall|a: int, b: int| 0 <= a < b < i
                        ==> #[trigger] msv[a].name() != #[trigger] msv[b].name(),
                decreases n - i,
            {
                let mut j: usize = 0;
                #[verifier::loop_isolation(false)]
                while j < i
                    invariant
                        j <= i,
                        forall|a: int| 0 <= a < j
                            ==> #[trigger] msv[a].name() != msv[i as int].name(),
                    decreases i - j,
                {
                    if crate::record::str_eq(
                        members[j].name().as_str(),
                        members[i].name().as_str(),
                    ) {
                        proof {
                            assert(msv[j as int].name() == msv[i as int].name());
                            assert(!ir_names_unique(msv));
                        }
                        return false;
                    }
                    j = j + 1;
                }
                i = i + 1;
            }
            let mut i: usize = 0;
            #[verifier::loop_isolation(false)]
            while i < n
                invariant
                    forall|a: int| 0 <= a < i ==> ir_wf(#[trigger] msv[a]),
                decreases n - i,
            {
                proof {
                    lemma_irs_size_element(msv, i as int);
                    assert(msv[i as int] == members@[i as int]@);
                    assert(ir_size(iv) == 1 + irs_size(msv));
                }
                if !ir_wf_check(&members[i]) {
                    return false;
                }
                i = i + 1;
            }
            true
        },
    }
}

/// Checks that an interchange value describes a valid stored tree: the
/// root record must be a group, and sibling names must be unique all the
/// way down, so that the record tree built from it is well formed.
pub fn validate(ir: &Ir) -> (r: Result<(), Error>)
    ensures
        r is Ok <==> ir@ is Group && ir_wf(ir@),
        r matches Err(e) ==> match e {
            Error::NotAGroup { name } => ir@ is Item && name@ == ir@.name(),
            Error::DuplicateName => ir@ is Group && !ir_wf(ir@),
        },
{
    match ir {
        Ir::Item { name, .. } => Err(Error::NotAGroup { name: name.clone() }),
        Ir::Group { .. } => {
            if ir_wf_check(ir) {
                Ok(())
            } else {
                Err(Error::DuplicateName)
            }
        },
    }
}

/// An empty group with the given root name, in interchange form.
pub fn new_empty(name: String) -> (r: Ir)
    ensures
        r@ == (IrView::Group { name: name@, members: Seq::empty() }),
{
    let ir = Ir::Group { name, members: Vec::new() };
    proof {
        assert(irs_view(Seq::<Ir>::empty()) =~= Seq::<IrView>::empty());
    }
    ir
}

/// The erased state of an interchange value: its name and value scrubbed
/// to zero characters in place, and no children left.
pub open spec fn ir_erased(v: IrView) -> bool {
    match v {
        IrView::Group { name, members } => chars_zeroed(name) && members.len() == 0,
        IrView::Item { name, value } => chars_zeroed(name) && chars_zeroed(value),
    }
}

/// Erases one interchange value in place, leaf first.
fn erase_ir(ir: &mut Ir)
    ensures
        ir_erased(final(ir)@),
    decreases ir_size(ir@),
{
    broadcast use lemma_irs_view;
    match ir {
        Ir::Item { name, value } => {
            name.erase();
            value.erase();
        },
        Ir::Group { name, members } => {
            let ghost m0 = members@;
            let ghost iv0 = irs_size(irs_view(m0));
            let n: usize = members.len();
            let mut i: usize = 0;
            #[verifier::loop_isolation(false)]
            while i < n
                invariant
                    n == members@.len(),
                    n == m0.len(),
                    i <= n,
                    forall|j: int| i <= j < n ==> members@[j] == m0[j],
                decreases n - i,
            {
                broadcast use lemma_irs_view;
                proof {
                    lemma_irs_size_element(irs_view(m0), i as int);
                    assert(irs_view(m0)[i as int] == m0[i as int]@);
                }
                erase_ir(&mut members[i]);
                i = i + 1;
            }
            members.clear();
            name.erase();
        },
    }
}

impl Erase for Ir {
    open spec fn erased(&self) -> bool {
        ir_erased(self@)
    }

    #[inline(never)]
    fn erase(&mut self) {
        erase_ir(self);
    }
}

} // verus!
