//! The tree of splits that lays out the panes in the center of a workspace.

use crate::error::Error;
use vstd::prelude::*;

verus! {

#[derive(Clone, Copy, Debug, PartialEq, Eq, Structural)]
pub enum Axis {
    Horizontal,
    Vertical,
}

/// Where a new pane goes beside the pane that is split.
#[derive(Clone, Copy, Debug, PartialEq, Eq, Structural)]
pub enum SplitDirection {
    Up,
    Down,
    Left,
    Right,
}

impl SplitDirection {
    pub open spec fn spec_axis(self) -> Axis {
        match self {
            SplitDirection::Up | SplitDirection::Down => Axis::Vertical,
            SplitDirection::Left | SplitDirection::Right => Axis::Horizontal,
        }
    }

    pub open spec fn spec_increasing(self) -> bool {
        self == SplitDirection::Down || self == SplitDirection::Right
    }

    /// The axis along which the panes end up side by side.
    pub fn axis(self) -> (axis: Axis)
        ensures
            axis == self.spec_axis(),
    {
        match self {
            SplitDirection::Up => Axis::Vertical,
            SplitDirection::Down => Axis::Vertical,
            SplitDirection::Left => Axis::Horizontal,
            SplitDirection::Right => Axis::Horizontal,
        }
    }

    /// Whether the new pane goes behind the one that is split.
    pub fn increasing(self) -> (increasing: bool)
        ensures
            increasing == self.spec_increasing(),
    {
        match self {
            SplitDirection::Down => true,
            SplitDirection::Right => true,
            _ => false,
        }
    }
}

/// The bits of the flex factor one, an even share of the space.
pub const FLEX_ONE: u32 = 0x3f80_0000;

/// Members side by side along an axis, each with the bits of its flex factor.
#[derive(Debug, PartialEq, Eq)]
pub struct PaneAxis {
    pub axis: Axis,
    pub members: Vec<Member>,
    pub flexes: Vec<u32>,
}

/// A pane, or panes split along an axis.
#[derive(Debug, PartialEq, Eq)]
pub enum Member {
    Axis(PaneAxis),
    Pane(u64),
}

#[verifier::ext_equal]
pub enum MemberView {
    Axis { axis: Axis, members: Seq<MemberView>, flexes: Seq<u32> },
    Pane(u64),
}

impl Member {
    pub open spec fn view(&self) -> MemberView
        decreases self,
    {
        match self {
            Member::Axis(axis) => MemberView::Axis {
                axis: axis.axis,
                members: Seq::new(
                    axis.members@.len(),
                    |i: int|
                        if 0 <= i < axis.members@.len() {
                            axis.members@[i].view()
                        } else {
                            arbitrary()
                        },
                ),
                flexes: axis.flexes@,
            },
            Member::Pane(pane) => MemberView::Pane(*pane),
        }
    }
}

/// The views of a list of members.
pub open spec fn member_views(members: Seq<Member>) -> Seq<MemberView> {
    Seq::new(members.len(), |i: int| members[i]@)
}

/// Even shares for `n` members.
pub open spec fn even_flexes(n: nat) -> Seq<u32> {
    Seq::new(n, |i: int| FLEX_ONE)
}

/// Two panes side by side, the new one where `direction` says.
pub open spec fn pair(old_pane: u64, new_pane: u64, direction: SplitDirection) -> MemberView {
    MemberView::Axis {
        axis: direction.spec_axis(),
        members: if direction.spec_increasing() {
            seq![MemberView::Pane(old_pane), MemberView::Pane(new_pane)]
        } else {
            seq![MemberView::Pane(new_pane), MemberView::Pane(old_pane)]
        },
        flexes: even_flexes(2),
    }
}

/// The place, from `i` on, of the first member that holds `pane`; the number of members
/// if none does.
pub open spec fn place_of(members: Seq<MemberView>, pane: u64, i: int) -> int
    decreases members.len() - i,
{
    if i < 0 || i >= members.len() {
        members.len() as int
    } else if members[i].holds(pane) {
        i
    } else {
        place_of(members, pane, i + 1)
    }
}

/// The panes of a list of members, in order.
pub open spec fn leaves_of(members: Seq<MemberView>) -> Seq<u64>
    decreases members,
{
    if members.len() == 0 {
        Seq::empty()
    } else {
        members[0].leaves() + leaves_of(members.drop_first())
    }
}

/// Every member of a list is well formed.
pub open spec fn all_well_formed(members: Seq<MemberView>) -> bool
    decreases members,
{
    members.len() == 0 || (members[0].well_formed() && all_well_formed(members.drop_first()))
}

impl MemberView {
    /// The panes of the tree, in order.
    pub open spec fn leaves(self) -> Seq<u64>
        decreases self,
    {
        match self {
            MemberView::Pane(pane) => seq![pane],
            MemberView::Axis { members, .. } => leaves_of(members),
        }
    }

    /// Whether the pane is somewhere in the tree.
    pub open spec fn holds(self, pane: u64) -> bool {
        self.leaves().contains(pane)
    }

    /// Every axis of the tree has at least two members, and a flex factor for each.
    pub open spec fn well_formed(self) -> bool
        decreases self,
    {
        match self {
            MemberView::Pane(_) => true,
            MemberView::Axis { members, flexes, .. } => {
                &&& members.len() >= 2
                &&& flexes.len() == members.len()
                &&& all_well_formed(members)
            },
        }
    }

    /// The tree in which `new_pane` stands beside `old_pane`, for a tree that holds
    /// `old_pane`: in the axis that holds it if that runs the right way, else in a new
    /// axis in its place.
    pub open spec fn split(self, old_pane: u64, new_pane: u64, direction: SplitDirection) -> MemberView
        decreases self,
    {
        match self {
            MemberView::Pane(_) => pair(old_pane, new_pane, direction),
            MemberView::Axis { axis, members, flexes } => {
                let i = place_of(members, old_pane, 0);
                if !(0 <= i < members.len()) {
                    self
                } else if members[i] is Pane && direction.spec_axis() == axis {
                    let at = if direction.spec_increasing() {
                        i + 1
                    } else {
                        i
                    };
                    MemberView::Axis {
                        axis,
                        members: members.insert(at, MemberView::Pane(new_pane)),
                        flexes: even_flexes(members.len() + 1),
                    }
                } else {
                    MemberView::Axis {
                        axis,
                        members: members.update(i, members[i].split(old_pane, new_pane, direction)),
                        flexes,
                    }
                }
            },
        }
    }

    /// The tree without `pane`, for an axis that holds it; an axis that is left with one
    /// member gives way to that member.
    pub open spec fn remove(self, pane: u64) -> MemberView
        decreases self,
    {
        match self {
            MemberView::Pane(_) => self,
            MemberView::Axis { axis, members, flexes } => {
                let i = place_of(members, pane, 0);
                if !(0 <= i < members.len()) {
                    self
                } else {
                    let kept = if members[i] is Pane {
                        members.remove(i)
                    } else {
                        members.update(i, members[i].remove(pane))
                    };
                    if kept.len() == 1 {
                        kept[0]
                    } else {
                        MemberView::Axis {
                            axis,
                            members: kept,
                            flexes: if members[i] is Pane {
                                even_flexes(kept.len())
                            } else {
                                flexes
                            },
                        }
                    }
                }
            },
        }
    }
}

proof fn lemma_place_of(members: Seq<MemberView>, pane: u64, i: int)
    requires
        0 <= i <= members.len(),
    ensures
        i <= place_of(members, pane, i) <= members.len(),
        place_of(members, pane, i) < members.len() ==> members[place_of(members, pane, i)].holds(pane),
        forall|j: int| i <= j < place_of(members, pane, i) ==> !(#[trigger] members[j]).holds(pane),
    decreases members.len() - i,
{
    if i < members.len() && !members[i].holds(pane) {
        lemma_place_of(members, pane, i + 1);
    }
}

/// The place of the first holder is where a scan from the front finds it.
proof fn lemma_place_found(members: Seq<MemberView>, pane: u64, i: int, k: int)
    requires
        0 <= i <= k < members.len(),
        members[k].holds(pane),
        forall|j: int| i <= j < k ==> !(#[trigger] members[j]).holds(pane),
    ensures
        place_of(members, pane, i) == k,
    decreases k - i,
{
    if i < k {
        assert(!members[i].holds(pane));
        lemma_place_found(members, pane, i + 1, k);
    }
}

proof fn lemma_leaves_member(members: Seq<MemberView>, i: int, pane: u64)
    requires
        0 <= i < members.len(),
        members[i].holds(pane),
    ensures
        leaves_of(members).contains(pane),
    decreases members.len(),
{
    let first = members[0].leaves();
    let rest = leaves_of(members.drop_first());
    if i == 0 {
        let k = first.index_of(pane);
        assert((first + rest)[k] == pane);
    } else {
        assert(members.drop_first()[i - 1] == members[i]);
        lemma_leaves_member(members.drop_first(), i - 1, pane);
        let k = rest.index_of(pane);
        assert((first + rest)[first.len() + k] == pane);
    }
}

proof fn lemma_leaves_none(members: Seq<MemberView>, pane: u64)
    requires
        forall|j: int| 0 <= j < members.len() ==> !(#[trigger] members[j]).holds(pane),
    ensures
        !leaves_of(members).contains(pane),
    decreases members.len(),
{
    if members.len() > 0 {
        let tail = members.drop_first();
        assert(!members[0].holds(pane));
        assert forall|j: int| 0 <= j < tail.len() implies !(#[trigger] tail[j]).holds(pane) by {
            assert(tail[j] == members[j + 1]);
        }
        lemma_leaves_none(tail, pane);
        let first = members[0].leaves();
        let rest = leaves_of(tail);
        if (first + rest).contains(pane) {
            let k = (first + rest).index_of(pane);
            if k < first.len() {
                assert(first[k] == pane);
            } else {
                assert(rest[k - first.len()] == pane);
            }
        }
    }
}

/// An axis holds what one of its members holds.
proof fn lemma_holds(node: MemberView, i: int, pane: u64)
    requires
        node is Axis,
        0 <= i < node->members.len(),
        node->members[i].holds(pane),
    ensures
        node.holds(pane),
{
    lemma_leaves_member(node->members, i, pane);
}

/// A pane holds itself alone.
proof fn lemma_pane_holds(pane: u64, other: u64)
    ensures
        MemberView::Pane(pane).holds(other) <==> pane == other,
{
    assert(MemberView::Pane(pane).leaves()[0] == pane);
}

fn even(n: usize) -> (flexes: Vec<u32>)
    ensures
        flexes@ == even_flexes(n as nat),
{
    let mut flexes: Vec<u32> = Vec::new();
    while flexes.len() < n
        invariant
            flexes.len() <= n,
            forall|j: int| 0 <= j < flexes.len() ==> flexes@[j] == FLEX_ONE,
        decreases n - flexes.len(),
    {
        flexes.push(FLEX_ONE);
    }
    assert(flexes@ =~= even_flexes(n as nat));
    flexes
}

impl PaneAxis {
    /// The axis as a tree of its own.
    pub open spec fn view(&self) -> MemberView {
        MemberView::Axis {
            axis: self.axis,
            members: member_views(self.members@),
            flexes: self.flexes@,
        }
    }
}

/// The view of a member, one level deep.
pub proof fn lemma_member_view(member: Member)
    ensures
        member@ == (match member {
            Member::Axis(axis) => axis@,
            Member::Pane(pane) => MemberView::Pane(pane),
        }),
{
    if let Member::Axis(axis) = member {
        assert(member@->members =~= member_views(axis.members@));
    }
}

impl Member {
    fn new_axis(old_pane: u64, new_pane: u64, direction: SplitDirection) -> (member: Member)
        ensures
            member@ == pair(old_pane, new_pane, direction),
    {
        let mut members: Vec<Member> = Vec::new();
        if direction.increasing() {
            members.push(Member::Pane(old_pane));
            members.push(Member::Pane(new_pane));
        } else {
            members.push(Member::Pane(new_pane));
            members.push(Member::Pane(old_pane));
        }
        let flexes = even(2);
        let member = Member::Axis(PaneAxis { axis: direction.axis(), members, flexes });
        proof {
            lemma_member_view(member);
            lemma_member_view(members@[0]);
            lemma_member_view(members@[1]);
        }
        assert(member@->members =~= pair(old_pane, new_pane, direction)->members);
        member
    }

    fn as_pane(&self) -> (pane: Option<u64>)
        ensures
            pane == (match self@ {
                MemberView::Pane(pane) => Some(pane),
                _ => None,
            }),
            pane matches Some(pane) ==> forall|other: u64| #[trigger]
                self@.holds(other) <==> pane == other,
    {
        proof {
            if let Member::Pane(pane) = *self {
                assert forall|other: u64| #[trigger] self@.holds(other) <==> pane == other by {
                    lemma_pane_holds(pane, other);
                }
            }
        }
        match self {
            Member::Pane(pane) => Some(*pane),
            Member::Axis(_) => None,
        }
    }

    /// The panes of the tree, in order.
    pub fn panes(&self) -> (panes: Vec<u64>)
        ensures
            panes@ == self@.leaves(),
        decreases self@,
    {
        proof {
            lemma_member_view(*self);
        }
        let mut panes: Vec<u64> = Vec::new();
        match self {
            Member::Pane(pane) => {
                panes.push(*pane);
                assert(panes@ =~= self@.leaves());
            },
            Member::Axis(axis) => {
                let ghost members = member_views(axis.members@);
                let mut i: usize = 0;
                assert(members.take(0) =~= Seq::empty());
                while i < axis.members.len()
                    invariant
                        i <= axis.members.len(),
                        *self == Member::Axis(*axis),
                        members == member_views(axis.members@),
                        panes@ == leaves_of(members.take(i as int)),
                    decreases axis.members.len() - i,
                {
                    proof {
                        lemma_member_view(*self);
                        assert(self@->members[i as int] == axis.members@[i as int]@);
                        assert(decreases_to!(self@ => self@->members[i as int]));
                        lemma_leaves_through(members, i as int);
                    }
                    let mut more = axis.members[i].panes();
                    panes.append(&mut more);
                    i += 1;
                }
                assert(members.take(i as int) =~= members);
            },
        }
        panes
    }

    /// Whether the pane is somewhere in the tree.
    pub fn holds_pane(&self, pane: u64) -> (holds: bool)
        ensures
            holds == self@.holds(pane),
    {
        let panes = self.panes();
        let mut i: usize = 0;
        while i < panes.len()
            invariant
                i <= panes.len(),
                panes@ == self@.leaves(),
                forall|j: int| 0 <= j < i ==> panes@[j] != pane,
            decreases panes.len() - i,
        {
            if panes[i] == pane {
                assert(panes@.contains(pane));
                return true;
            }
            i += 1;
        }
        false
    }

    /// Puts `new_pane` beside `old_pane`; tells whether the tree holds `old_pane`, and
    /// leaves it as it was if not.
    pub fn split(&mut self, old_pane: u64, new_pane: u64, direction: SplitDirection) -> (found: bool)
        ensures
            found == old(self)@.holds(old_pane),
            final(self)@ == (if found {
                old(self)@.split(old_pane, new_pane, direction)
            } else {
                old(self)@
            }),
        decreases old(self)@, 1nat,
    {
        proof {
            lemma_member_view(*self);
            if let Member::Pane(pane) = *self {
                lemma_pane_holds(pane, old_pane);
            }
        }
        let found = match self {
            Member::Pane(pane) => {
                if *pane == old_pane {
                    *self = Member::new_axis(old_pane, new_pane, direction);
                    true
                } else {
                    false
                }
            },
            Member::Axis(axis) => axis.split(old_pane, new_pane, direction),
        };
        proof {
            lemma_member_view(*self);
        }
        found
    }
}

impl PaneAxis {
    fn split(&mut self, old_pane: u64, new_pane: u64, direction: SplitDirection) -> (found: bool)
        ensures
            found == old(self)@.holds(old_pane),
            final(self)@ == (if found {
                old(self)@.split(old_pane, new_pane, direction)
            } else {
                old(self)@
            }),
        decreases old(self)@, 0nat,
    {
        let ghost members = member_views(self.members@);
        let mut i: usize = 0;
        while i < self.members.len()
            invariant
                i <= self.members.len(),
                self@ == old(self)@,
                members == self@->members,
                forall|j: int| 0 <= j < i ==> !(#[trigger] members[j]).holds(old_pane),
            decreases self.members.len() - i,
        {
            assert(members[i as int] == self.members@[i as int]@);
            match self.members[i].as_pane() {
                Some(pane) => {
                    if pane == old_pane {
                        proof {
                            assert(members[i as int].holds(old_pane));
                            lemma_holds(old(self)@, i as int, old_pane);
                            lemma_place_found(members, old_pane, 0, i as int);
                        }
                        if direction.axis() == self.axis {
                            let at: usize = if direction.increasing() {
                                i + 1
                            } else {
                                i
                            };
                            self.members.insert(at, Member::Pane(new_pane));
                            self.flexes = even(self.members.len());
                            proof {
                                lemma_member_view(self.members@[at as int]);
                            }
                            assert(self@->members =~= members.insert(
                                at as int,
                                MemberView::Pane(new_pane),
                            ));
                        } else {
                            self.members[i] = Member::new_axis(old_pane, new_pane, direction);
                            assert(self@->members =~= members.update(
                                i as int,
                                pair(old_pane, new_pane, direction),
                            ));
                        }
                        return true;
                    }
                },
                None => {
                    if self.members[i].split(old_pane, new_pane, direction) {
                        proof {
                            assert(members[i as int].holds(old_pane));
                            lemma_holds(old(self)@, i as int, old_pane);
                            lemma_place_found(members, old_pane, 0, i as int);
                        }
                        assert(self@->members =~= members.update(
                            i as int,
                            members[i as int].split(old_pane, new_pane, direction),
                        ));
                        return true;
                    }
                    assert(self@->members =~= members);
                },
            }
            i += 1;
        }
        proof {
            lemma_leaves_none(members, old_pane);
        }
        false
    }
}

impl Member {
    fn remove(&mut self, pane: u64) -> (found: bool)
        requires
            old(self)@ is Axis,
        ensures
            found == old(self)@.holds(pane),
            final(self)@ == (if found {
                old(self)@.remove(pane)
            } else {
                old(self)@
            }),
        decreases old(self)@, 1nat,
    {
        proof {
            lemma_member_view(*self);
        }
        let removal = match self {
            Member::Pane(_) => None,
            Member::Axis(axis) => axis.remove(pane),
        };
        let found = match removal {
            None => false,
            Some(None) => true,
            Some(Some(last)) => {
                *self = last;
                true
            },
        };
        proof {
            lemma_member_view(*self);
        }
        found
    }
}

impl PaneAxis {
    /// Takes `pane` out. `None` if the axis does not hold it; the last member if only one
    /// is left.
    fn remove(&mut self, pane: u64) -> (removal: Option<Option<Member>>)
        ensures
            removal is Some <==> old(self)@.holds(pane),
            match removal {
                None => final(self)@ == old(self)@,
                Some(None) => final(self)@ == old(self)@.remove(pane),
                Some(Some(last)) => last@ == old(self)@.remove(pane),
            },
        decreases old(self)@, 0nat,
    {
        let ghost members = member_views(self.members@);
        let ghost before = self@;
        let mut i: usize = 0;
        let mut found = false;
        let mut taken = false;
        while i < self.members.len()
            invariant_except_break
                !found,
                !taken,
                self@ == before,
            invariant
                before == old(self)@,
                members == before->members,
                before is Axis,
                i <= members.len(),
                forall|j: int| 0 <= j < i ==> !(#[trigger] members[j]).holds(pane),
            ensures
                self.axis == before->axis,
                !found ==> self@ == before && i == members.len() && !taken,
                found ==> i < members.len() && members[i as int].holds(pane),
                found && taken ==> members[i as int] is Pane && self@->members == members.remove(
                    i as int,
                ) && self@->flexes == even_flexes((members.len() - 1) as nat),
                found && !taken ==> members[i as int] is Axis && self@->flexes == before->flexes
                    && self@->members == members.update(i as int, members[i as int].remove(pane)),
            decreases self.members.len() - i,
        {
            assert(members[i as int] == self.members@[i as int]@);
            match self.members[i].as_pane() {
                Some(member) => {
                    if member == pane {
                        self.members.remove(i);
                        self.flexes = even(self.members.len());
                        found = true;
                        taken = true;
                        assert(self@->members =~= members.remove(i as int));
                        break;
                    }
                },
                None => {
                    if self.members[i].remove(pane) {
                        found = true;
                        assert(self@->members =~= members.update(
                            i as int,
                            members[i as int].remove(pane),
                        ));
                        break;
                    }
                    assert(self@->members =~= members);
                },
            }
            i += 1;
        }
        if !found {
            proof {
                lemma_leaves_none(members, pane);
            }
            return None;
        }
        proof {
            lemma_holds(before, i as int, pane);
            lemma_place_found(members, pane, 0, i as int);
        }
        if self.members.len() == 1 {
            let ghost left = self.members@;
            let last = self.members.pop();
            assert(last == Some(left[0]));
            match last {
                Some(member) => {
                    assert(member@ == member_views(left)[0]);
                    self.flexes = even(self.members.len());
                    Some(Some(member))
                },
                None => None,
            }
        } else {
            Some(None)
        }
    }
}

/// The panes in the center of a workspace.
#[derive(Debug, PartialEq, Eq)]
pub struct PaneGroup {
    pub root: Member,
}

impl PaneGroup {
    pub open spec fn view(&self) -> MemberView {
        self.root@
    }

    /// A group of one pane.
    pub fn new(pane: u64) -> (group: PaneGroup)
        ensures
            group@ == MemberView::Pane(pane),
    {
        PaneGroup { root: Member::Pane(pane) }
    }

    /// A group with the given tree.
    pub fn with_root(root: Member) -> (group: PaneGroup)
        ensures
            group@ == root@,
    {
        PaneGroup { root }
    }

    /// Puts `new_pane` beside `old_pane`.
    pub fn split(&mut self, old_pane: u64, new_pane: u64, direction: SplitDirection) -> (result:
        Result<(), Error>)
        ensures
            result == (if old(self)@.holds(old_pane) {
                Ok(())
            } else {
                Err::<(), Error>(Error::PaneNotFound)
            }),
            final(self)@ == (if result is Ok {
                old(self)@.split(old_pane, new_pane, direction)
            } else {
                old(self)@
            }),
    {
        if self.root.split(old_pane, new_pane, direction) {
            Ok(())
        } else {
            Err(Error::PaneNotFound)
        }
    }

    /// Takes a pane out. The last pane of a group stays: then nothing changes, and the
    /// result is `Ok(false)`.
    pub fn remove(&mut self, pane: u64) -> (result: Result<bool, Error>)
        ensures
            result == group_removal(old(self)@, pane),
            final(self)@ == (if result == Ok::<bool, Error>(true) {
                old(self)@.remove(pane)
            } else {
                old(self)@
            }),
    {
        match self.root.as_pane() {
            Some(_) => Ok(false),
            None => {
                if self.root.remove(pane) {
                    Ok(true)
                } else {
                    Err(Error::PaneNotFound)
                }
            },
        }
    }
}

/// What taking `pane` out of a group answers.
pub open spec fn group_removal(group: MemberView, pane: u64) -> Result<bool, Error> {
    if group is Pane {
        Ok(false)
    } else if group.holds(pane) {
        Ok(true)
    } else {
        Err(Error::PaneNotFound)
    }
}

/// `k` is the first place of `x` in `s`.
pub open spec fn first_at(s: Seq<u64>, x: u64, k: int) -> bool {
    &&& 0 <= k < s.len()
    &&& s[k] == x
    &&& forall|j: int| 0 <= j < k ==> s[j] != x
}

proof fn lemma_leaves_concat(a: Seq<MemberView>, b: Seq<MemberView>)
    ensures
        leaves_of(a + b) == leaves_of(a) + leaves_of(b),
    decreases a.len(),
{
    if a.len() == 0 {
        assert(a + b =~= b);
    } else {
        assert((a + b).drop_first() =~= a.drop_first() + b);
        lemma_leaves_concat(a.drop_first(), b);
        assert(leaves_of(a + b) =~= leaves_of(a) + leaves_of(b));
    }
}

proof fn lemma_leaves_one(member: MemberView)
    ensures
        leaves_of(seq![member]) == member.leaves(),
{
    let one = seq![member];
    assert(one.drop_first() =~= Seq::empty());
    assert(leaves_of(one.drop_first()) =~= Seq::empty());
    assert(one[0] == member);
    assert(leaves_of(one) =~= member.leaves());
}

/// The panes of a list, parted at one of its members.
pub proof fn lemma_leaves_parts(members: Seq<MemberView>, i: int)
    requires
        0 <= i < members.len(),
    ensures
        leaves_of(members) == leaves_of(members.take(i)) + members[i].leaves() + leaves_of(
            members.skip(i + 1),
        ),
{
    let one = seq![members[i]];
    assert(members =~= members.take(i) + one + members.skip(i + 1));
    lemma_leaves_concat(members.take(i) + one, members.skip(i + 1));
    lemma_leaves_concat(members.take(i), one);
    lemma_leaves_one(members[i]);
}

/// A well-formed tree has a pane.
pub proof fn lemma_leaves_nonempty(member: MemberView)
    requires
        member.well_formed(),
    ensures
        member.leaves().len() > 0,
    decreases member,
{
    if let MemberView::Axis { members, .. } = member {
        assert(members[0].well_formed());
        lemma_leaves_nonempty(members[0]);
    }
}

/// The first member that holds a pane has its first leaf of that pane, and what stands
/// before that member does not hold it.
proof fn lemma_first_in(members: Seq<MemberView>, pane: u64, i: int, k: int)
    requires
        0 <= i < members.len(),
        forall|j: int| 0 <= j < i ==> !(#[trigger] members[j]).holds(pane),
        first_at(members[i].leaves(), pane, k),
    ensures
        first_at(leaves_of(members), pane, leaves_of(members.take(i)).len() + k),
{
    let head = leaves_of(members.take(i));
    let mid = members[i].leaves();
    let tail = leaves_of(members.skip(i + 1));
    lemma_leaves_parts(members, i);
    assert forall|j: int| 0 <= j < members.take(i).len() implies !(#[trigger] members.take(
        i,
    )[j]).holds(pane) by {
        assert(members.take(i)[j] == members[j]);
    }
    lemma_leaves_none(members.take(i), pane);
    let all = head + mid + tail;
    assert(all[head.len() + k] == mid[k]);
    assert forall|j: int| 0 <= j < head.len() + k implies all[j] != pane by {
        if j < head.len() {
            assert(all[j] == head[j]);
        } else {
            assert(all[j] == mid[j - head.len()]);
        }
    }
}

proof fn lemma_leaves_insert(members: Seq<MemberView>, at: int, pane: u64)
    requires
        0 <= at <= members.len(),
    ensures
        leaves_of(members.insert(at, MemberView::Pane(pane))) == leaves_of(members).insert(
            leaves_of(members.take(at)).len() as int,
            pane,
        ),
{
    let added = members.insert(at, MemberView::Pane(pane));
    lemma_leaves_parts(added, at);
    assert(added.take(at) =~= members.take(at));
    assert(added.skip(at + 1) =~= members.skip(at));
    lemma_leaves_concat(members.take(at), members.skip(at));
    assert(members =~= members.take(at) + members.skip(at));
    assert(MemberView::Pane(pane).leaves() == seq![pane]);
    assert(leaves_of(added) =~= leaves_of(members).insert(
        leaves_of(members.take(at)).len() as int,
        pane,
    ));
}

proof fn lemma_leaves_update(members: Seq<MemberView>, i: int, member: MemberView)
    requires
        0 <= i < members.len(),
    ensures
        leaves_of(members.update(i, member)) == leaves_of(members.take(i)) + member.leaves()
            + leaves_of(members.skip(i + 1)),
{
    let changed = members.update(i, member);
    lemma_leaves_parts(changed, i);
    assert(changed.take(i) =~= members.take(i));
    assert(changed.skip(i + 1) =~= members.skip(i + 1));
}

pub proof fn lemma_leaves_through(members: Seq<MemberView>, i: int)
    requires
        0 <= i < members.len(),
    ensures
        leaves_of(members.take(i + 1)) == leaves_of(members.take(i)) + members[i].leaves(),
{
    assert(members.take(i + 1) =~= members.take(i) + seq![members[i]]);
    lemma_leaves_concat(members.take(i), seq![members[i]]);
    lemma_leaves_one(members[i]);
}

proof fn lemma_insert_between(head: Seq<u64>, mid: Seq<u64>, tail: Seq<u64>, at: int, pane: u64)
    requires
        0 <= at <= mid.len(),
    ensures
        head + mid.insert(at, pane) + tail == (head + mid + tail).insert(head.len() + at, pane),
{
    assert(head + mid.insert(at, pane) + tail =~= (head + mid + tail).insert(
        head.len() + at,
        pane,
    ));
}

proof fn lemma_pair_leaves(old_pane: u64, new_pane: u64, direction: SplitDirection)
    ensures
        pair(old_pane, new_pane, direction).leaves() == seq![old_pane].insert(
            if direction.spec_increasing() {
                1
            } else {
                0
            },
            new_pane,
        ),
{
    let two = pair(old_pane, new_pane, direction)->members;
    assert(two =~= seq![two[0]] + seq![two[1]]);
    lemma_leaves_concat(seq![two[0]], seq![two[1]]);
    lemma_leaves_one(two[0]);
    lemma_leaves_one(two[1]);
    assert(leaves_of(two) =~= two[0].leaves() + two[1].leaves());
    assert(leaves_of(two) =~= seq![old_pane].insert(
        if direction.spec_increasing() {
            1
        } else {
            0
        },
        new_pane,
    ));
}

proof fn lemma_split_leaves(
    tree: MemberView,
    old_pane: u64,
    new_pane: u64,
    direction: SplitDirection,
) -> (k: int)
    requires
        tree.holds(old_pane),
    ensures
        first_at(tree.leaves(), old_pane, k),
        tree.split(old_pane, new_pane, direction).leaves() == tree.leaves().insert(
            if direction.spec_increasing() {
                k + 1
            } else {
                k
            },
            new_pane,
        ),
    decreases tree,
{
    let shift: int = if direction.spec_increasing() {
        1
    } else {
        0
    };
    match tree {
        MemberView::Pane(pane) => {
            lemma_pane_holds(pane, old_pane);
            lemma_pair_leaves(old_pane, new_pane, direction);
            0
        },
        MemberView::Axis { axis, members, flexes } => {
            let i = place_of(members, old_pane, 0);
            lemma_place_of(members, old_pane, 0);
            if i == members.len() {
                lemma_leaves_none(members, old_pane);
            }
            let member = members[i];
            let head = leaves_of(members.take(i));
            let tail = leaves_of(members.skip(i + 1));
            if member is Pane && direction.spec_axis() == axis {
                lemma_pane_holds(member->Pane_0, old_pane);
                lemma_first_in(members, old_pane, i, 0);
                lemma_leaves_insert(members, i + shift, new_pane);
                lemma_leaves_through(members, i);
                head.len() as int
            } else {
                let k = lemma_split_leaves(member, old_pane, new_pane, direction);
                lemma_first_in(members, old_pane, i, k);
                lemma_leaves_parts(members, i);
                lemma_leaves_update(members, i, member.split(old_pane, new_pane, direction));
                lemma_insert_between(head, member.leaves(), tail, k + shift, new_pane);
                head.len() + k
            }
        },
    }
}

/// Splitting a pane puts the new pane right behind or right before it, and leaves every
/// other pane where it was.
pub proof fn law_split_leaves(
    tree: MemberView,
    old_pane: u64,
    new_pane: u64,
    direction: SplitDirection,
)
    requires
        tree.holds(old_pane),
    ensures
        exists|k: int|
            #[trigger] first_at(tree.leaves(), old_pane, k) && tree.leaves().insert(
                if direction.spec_increasing() {
                    k + 1
                } else {
                    k
                },
                new_pane,
            ) == tree.split(old_pane, new_pane, direction).leaves(),
{
    let k = lemma_split_leaves(tree, old_pane, new_pane, direction);
}

proof fn lemma_remove_leaves(tree: MemberView, pane: u64) -> (k: int)
    requires
        tree is Axis,
        tree.well_formed(),
        tree.holds(pane),
    ensures
        first_at(tree.leaves(), pane, k),
        tree.remove(pane).leaves() == tree.leaves().remove(k),
    decreases tree,
{
    let members = tree->members;
    let i = place_of(members, pane, 0);
    lemma_place_of(members, pane, 0);
    if i == members.len() {
        lemma_leaves_none(members, pane);
    }
    let member = members[i];
    let head = leaves_of(members.take(i));
    let tail = leaves_of(members.skip(i + 1));
    lemma_leaves_parts(members, i);
    if member is Pane {
        lemma_pane_holds(member->Pane_0, pane);
        lemma_first_in(members, pane, i, 0);
        let kept = members.remove(i);
        assert(kept =~= members.take(i) + members.skip(i + 1));
        lemma_leaves_concat(members.take(i), members.skip(i + 1));
        assert(leaves_of(kept) =~= leaves_of(members).remove(head.len() as int));
        if kept.len() == 1 {
            assert(kept =~= seq![kept[0]]);
            lemma_leaves_one(kept[0]);
        }
        head.len() as int
    } else {
        lemma_member_well_formed(members, i);
        let k = lemma_remove_leaves(member, pane);
        lemma_first_in(members, pane, i, k);
        let changed = members.update(i, member.remove(pane));
        lemma_leaves_update(members, i, member.remove(pane));
        assert(leaves_of(changed) =~= leaves_of(members).remove(head.len() + k));
        head.len() + k
    }
}

/// Taking a pane out of a group takes out its first leaf and nothing else.
pub proof fn law_remove_leaves(tree: MemberView, pane: u64)
    requires
        tree is Axis,
        tree.well_formed(),
        tree.holds(pane),
    ensures
        exists|k: int|
            #[trigger] first_at(tree.leaves(), pane, k) && tree.leaves().remove(k) == tree.remove(
                pane,
            ).leaves(),
{
    let k = lemma_remove_leaves(tree, pane);
}

proof fn lemma_member_well_formed(members: Seq<MemberView>, i: int)
    requires
        all_well_formed(members),
        0 <= i < members.len(),
    ensures
        members[i].well_formed(),
    decreases members.len(),
{
    if i > 0 {
        assert(members.drop_first()[i - 1] == members[i]);
        lemma_member_well_formed(members.drop_first(), i - 1);
    }
}

proof fn lemma_all_well_formed(members: Seq<MemberView>)
    requires
        forall|i: int| 0 <= i < members.len() ==> (#[trigger] members[i]).well_formed(),
    ensures
        all_well_formed(members),
    decreases members.len(),
{
    if members.len() > 0 {
        let rest = members.drop_first();
        assert forall|i: int| 0 <= i < rest.len() implies (#[trigger] rest[i]).well_formed() by {
            assert(rest[i] == members[i + 1]);
        }
        lemma_all_well_formed(rest);
        assert(members[0].well_formed());
    }
}

/// A split keeps the tree well formed.
pub proof fn law_split_well_formed(
    tree: MemberView,
    old_pane: u64,
    new_pane: u64,
    direction: SplitDirection,
)
    requires
        tree.well_formed(),
    ensures
        tree.split(old_pane, new_pane, direction).well_formed(),
    decreases tree,
{
    match tree {
        MemberView::Pane(_) => {
            let two = pair(old_pane, new_pane, direction)->members;
            assert(two[0].well_formed() && two[1].well_formed());
            lemma_all_well_formed(two);
        },
        MemberView::Axis { axis, members, flexes } => {
            let i = place_of(members, old_pane, 0);
            if 0 <= i < members.len() {
                let next = tree.split(old_pane, new_pane, direction)->members;
                lemma_member_well_formed(members, i);
                law_split_well_formed(members[i], old_pane, new_pane, direction);
                assert forall|j: int| 0 <= j < next.len() implies (#[trigger]
                next[j]).well_formed() by {
                    if next.len() == members.len() {
                        lemma_member_well_formed(members, j);
                    } else {
                        let at = if direction.spec_increasing() {
                            i + 1
                        } else {
                            i
                        };
                        if j < at {
                            lemma_member_well_formed(members, j);
                        } else if j > at {
                            lemma_member_well_formed(members, j - 1);
                        }
                    }
                }
                lemma_all_well_formed(next);
            }
        },
    }
}

/// Taking a pane out keeps the tree well formed.
pub proof fn law_remove_well_formed(tree: MemberView, pane: u64)
    requires
        tree.well_formed(),
    ensures
        tree.remove(pane).well_formed(),
    decreases tree,
{
    if let MemberView::Axis { axis, members, flexes } = tree {
        let i = place_of(members, pane, 0);
        if 0 <= i < members.len() {
            lemma_member_well_formed(members, i);
            let kept = if members[i] is Pane {
                members.remove(i)
            } else {
                members.update(i, members[i].remove(pane))
            };
            assert forall|j: int| 0 <= j < kept.len() implies (#[trigger] kept[j]).well_formed() by {
                if members[i] is Pane {
                    lemma_member_well_formed(
                        members,
                        if j < i {
                            j
                        } else {
                            j + 1
                        },
                    );
                } else {
                    lemma_member_well_formed(members, j);
                    law_remove_well_formed(members[i], pane);
                }
            }
            lemma_all_well_formed(kept);
            if kept.len() == 1 {
                assert(kept[0].well_formed());
            }
        }
    }
}

/// Taking out a pane that was just split off leaves the panes as they were.
pub proof fn law_remove_undoes_split(
    tree: MemberView,
    old_pane: u64,
    new_pane: u64,
    direction: SplitDirection,
)
    requires
        tree.well_formed(),
        tree.holds(old_pane),
        !tree.holds(new_pane),
    ensures
        group_removal(tree.split(old_pane, new_pane, direction), new_pane) == Ok::<bool, Error>(
            true,
        ),
        tree.split(old_pane, new_pane, direction).remove(new_pane).leaves() == tree.leaves(),
{
    let split = tree.split(old_pane, new_pane, direction);
    let leaves = tree.leaves();
    law_split_well_formed(tree, old_pane, new_pane, direction);
    law_split_leaves(tree, old_pane, new_pane, direction);
    let k = choose|k: int|
        #[trigger] first_at(leaves, old_pane, k) && leaves.insert(
            if direction.spec_increasing() {
                k + 1
            } else {
                k
            },
            new_pane,
        ) == split.leaves();
    let at = if direction.spec_increasing() {
        k + 1
    } else {
        k
    };
    assert(split.leaves()[at] == new_pane);
    assert(split is Axis) by {
        if split is Pane {
            assert(split.leaves().len() == 1);
        }
    }
    law_remove_leaves(split, new_pane);
    let j = choose|j: int|
        #[trigger] first_at(split.leaves(), new_pane, j) && split.leaves().remove(j)
            == split.remove(new_pane).leaves();
    assert(j == at) by {
        if j < at {
            assert(leaves[j] == new_pane);
        } else if j > at {
            assert(split.leaves()[at] == new_pane);
        }
    }
    assert(leaves.insert(at, new_pane).remove(at) =~= leaves);
}

/// Up and down split along the vertical axis, left and right along the horizontal one. Down and
/// right put the new pane behind the other, up and left before it.
pub proof fn law_directions(direction: SplitDirection)
    ensures
        direction == SplitDirection::Up || direction == SplitDirection::Down
            <==> direction.spec_axis() == Axis::Vertical,
        direction == SplitDirection::Left || direction == SplitDirection::Right
            <==> direction.spec_axis() == Axis::Horizontal,
        direction == SplitDirection::Down || direction == SplitDirection::Right
            <==> direction.spec_increasing(),
{
}

/// Whether two panes are next to each other along an axis, the first before the second.
pub open spec fn side_by_side(tree: MemberView, first: u64, second: u64, along: Axis) -> bool
    decreases tree,
{
    match tree {
        MemberView::Pane(_) => false,
        MemberView::Axis { axis, members, flexes } => {
            ||| axis == along && exists|k: int|
                0 <= k < members.len() - 1 && (#[trigger] members[k]) == MemberView::Pane(first)
                    && members[k + 1] == MemberView::Pane(second)
            ||| exists|k: int|
                0 <= k < members.len() && side_by_side(#[trigger] members[k], first, second, along)
        },
    }
}

/// A split puts the two panes next to each other along the axis of its direction, in its order.
pub proof fn law_split_side_by_side(
    tree: MemberView,
    old_pane: u64,
    new_pane: u64,
    direction: SplitDirection,
)
    requires
        tree.holds(old_pane),
    ensures
        direction == SplitDirection::Right ==> side_by_side(
            tree.split(old_pane, new_pane, direction),
            old_pane,
            new_pane,
            Axis::Horizontal,
        ),
        direction == SplitDirection::Left ==> side_by_side(
            tree.split(old_pane, new_pane, direction),
            new_pane,
            old_pane,
            Axis::Horizontal,
        ),
        direction == SplitDirection::Down ==> side_by_side(
            tree.split(old_pane, new_pane, direction),
            old_pane,
            new_pane,
            Axis::Vertical,
        ),
        direction == SplitDirection::Up ==> side_by_side(
            tree.split(old_pane, new_pane, direction),
            new_pane,
            old_pane,
            Axis::Vertical,
        ),
    decreases tree,
{
    let after = tree.split(old_pane, new_pane, direction);
    match tree {
        MemberView::Pane(_) => {
            let two = after->members;
            let k: int = 0;
            assert(two[k] == two[0] && two[k + 1] == two[1]);
        },
        MemberView::Axis { axis, members, flexes } => {
            let i = place_of(members, old_pane, 0);
            lemma_place_of(members, old_pane, 0);
            if i == members.len() {
                lemma_leaves_none(members, old_pane);
            }
            if members[i] is Pane && direction.spec_axis() == axis {
                lemma_pane_holds(members[i]->Pane_0, old_pane);
                assert(after->members[i] == after->members[i]);
                assert(after->members[i + 1] == after->members[i + 1]);
            } else {
                law_split_side_by_side(members[i], old_pane, new_pane, direction);
                assert(after->members[i] == members[i].split(old_pane, new_pane, direction));
            }
        },
    }
}

/// A split changes the tree at the split pane alone: a pane on its own gives way to two with
/// even shares; in an axis along the direction the new pane is put in beside it, and all there
/// get even shares; and in an axis across it, the member that holds the pane is split and the
/// others stay with their shares.
pub proof fn law_split_in_place(
    tree: MemberView,
    old_pane: u64,
    new_pane: u64,
    direction: SplitDirection,
    i: int,
)
    requires
        tree matches MemberView::Axis { members, .. } ==> 0 <= i < members.len()
            && members[i].holds(old_pane) && forall|j: int|
            0 <= j < i ==> !(#[trigger] members[j]).holds(old_pane),
    ensures
        ({
            let after = tree.split(old_pane, new_pane, direction);
            match tree {
                MemberView::Pane(_) => after matches MemberView::Axis { members, flexes, .. }
                    && members.len() == 2 && flexes == seq![FLEX_ONE, FLEX_ONE],
                MemberView::Axis { axis, members, flexes } => {
                    &&& after matches MemberView::Axis {
                        axis: new_axis,
                        members: new_members,
                        flexes: new_flexes,
                    }
                    &&& new_axis == axis
                    &&& if members[i] is Pane && direction.spec_axis() == axis {
                        &&& new_members.len() == members.len() + 1
                        &&& new_flexes.len() == new_members.len()
                        &&& forall|j: int|
                            0 <= j < new_flexes.len() ==> #[trigger] new_flexes[j] == FLEX_ONE
                    } else {
                        &&& new_members == members.update(
                            i,
                            members[i].split(old_pane, new_pane, direction),
                        )
                        &&& new_flexes == flexes
                    }
                },
            }
        }),
{
    if let MemberView::Axis { axis, members, flexes } = tree {
        lemma_place_found(members, old_pane, 0, i);
    } else {
        assert(even_flexes(2) =~= seq![FLEX_ONE, FLEX_ONE]);
    }
}

/// Taking a pane out changes the tree at that pane alone: it leaves its axis, whose other
/// members stay in their order with even shares, and an axis that is left with one member gives
/// way to it; a member that holds the pane deeper is changed in its place.
pub proof fn law_remove_in_place(tree: MemberView, pane: u64, i: int)
    requires
        tree matches MemberView::Axis { members, .. } && 0 <= i < members.len()
            && members[i].holds(pane) && forall|j: int|
            0 <= j < i ==> !(#[trigger] members[j]).holds(pane),
    ensures
        ({
            let after = tree.remove(pane);
            let members = tree->members;
            let axis = tree->axis;
            &&& members[i] is Pane && members.len() == 2 ==> after == members[1 - i]
            &&& members[i] is Pane && members.len() > 2 ==> after == MemberView::Axis {
                axis,
                members: members.remove(i),
                flexes: even_flexes((members.len() - 1) as nat),
            }
            &&& members[i] is Axis && members.len() > 1 ==> after == MemberView::Axis {
                axis,
                members: members.update(i, members[i].remove(pane)),
                flexes: tree->flexes,
            }
        }),
{
    lemma_place_found(tree->members, pane, 0, i);
}

/// The panes of a pane are itself, and those of an axis are those of its members, one member
/// after the other. So an axis holds a pane exactly if one of its members does.
pub proof fn law_leaves(axis: Axis, members: Seq<MemberView>, flexes: Seq<u32>, pane: u64, k: int)
    requires
        0 <= k <= members.len(),
    ensures
        MemberView::Pane(pane).leaves() == seq![pane],
        (MemberView::Axis { axis, members, flexes }).leaves() == (MemberView::Axis {
            axis,
            members: members.take(k),
            flexes,
        }).leaves() + (MemberView::Axis { axis, members: members.skip(k), flexes }).leaves(),
        (MemberView::Axis { axis, members, flexes }).holds(pane) <==> exists|i: int|
            0 <= i < members.len() && (#[trigger] members[i]).holds(pane),
        members.len() == 1 ==> (MemberView::Axis { axis, members, flexes }).leaves()
            == members[0].leaves(),
{
    assert(members =~= members.take(k) + members.skip(k));
    lemma_leaves_concat(members.take(k), members.skip(k));
    if exists|i: int| 0 <= i < members.len() && (#[trigger] members[i]).holds(pane) {
        let i = choose|i: int| 0 <= i < members.len() && (#[trigger] members[i]).holds(pane);
        lemma_leaves_member(members, i, pane);
    } else {
        lemma_leaves_none(members, pane);
    }
    if members.len() == 1 {
        assert(members =~= seq![members[0]]);
        lemma_leaves_one(members[0]);
    }
}

/// A tree is well formed exactly if each of its axes has at least two members, a share for each,
/// and members that are well formed.
pub proof fn law_well_formed(axis: Axis, members: Seq<MemberView>, flexes: Seq<u32>, pane: u64)
    ensures
        MemberView::Pane(pane).well_formed(),
        (MemberView::Axis { axis, members, flexes }).well_formed() <==> members.len() >= 2
            && flexes.len() == members.len() && forall|i: int|
            0 <= i < members.len() ==> (#[trigger] members[i]).well_formed(),
{
    if (MemberView::Axis { axis, members, flexes }).well_formed() {
        assert forall|i: int| 0 <= i < members.len() implies (
        #[trigger] members[i]).well_formed() by {
            lemma_member_well_formed(members, i);
        }
    }
    if forall|i: int| 0 <= i < members.len() ==> (#[trigger] members[i]).well_formed() {
        lemma_all_well_formed(members);
    }
}

} // verus!
