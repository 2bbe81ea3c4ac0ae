use crate::person::{Person, PersonRef, PersonView};
use vstd::prelude::*;

verus! {

/// A live place of the graph: the person and the number of holders that own it.
struct Slot {
    holders: usize,
    person: Person,
}

/// What a live place holds, as mathematical values.
pub struct SlotView {
    pub holders: nat,
    pub person: PersonView,
}

/// The owner of a set of people.
///
/// Each person stays alive while at least one holder owns it; once the last
/// holder releases it, its place stays empty for good, so a `PersonRef` to it
/// resolves to nothing and is never confused with a later person.
pub struct PersonGraph {
    slots: Vec<Option<Slot>>,
}

spec fn slot_view(s: Option<Slot>) -> Option<SlotView> {
    match s {
        Some(s) => Some(SlotView { holders: s.holders as nat, person: s.person@ }),
        None => None,
    }
}

impl View for PersonGraph {
    type V = Seq<Option<SlotView>>;

    closed spec fn view(&self) -> Seq<Option<SlotView>> {
        self.slots@.map_values(|s: Option<Slot>| slot_view(s))
    }
}

/// Whether `r` names a person that some holder still owns.
pub open spec fn is_live(g: Seq<Option<SlotView>>, r: PersonRef) -> bool {
    r.id < g.len() && g[r.id as int] is Some
}

/// The person that `r` names, where `r` is live.
pub open spec fn person_of(g: Seq<Option<SlotView>>, r: PersonRef) -> PersonView {
    g[r.id as int]->Some_0.person
}

/// The number of holders that own the person `r` names (0 once it is gone).
pub open spec fn holders_of(g: Seq<Option<SlotView>>, r: PersonRef) -> nat {
    if is_live(g, r) {
        g[r.id as int]->Some_0.holders
    } else {
        0
    }
}

/// The references of `rs` that are still live, in their order.
pub open spec fn live_refs(g: Seq<Option<SlotView>>, rs: Seq<PersonRef>) -> Seq<PersonRef>
    decreases rs.len(),
{
    if rs.len() == 0 {
        Seq::empty()
    } else if is_live(g, rs.last()) {
        live_refs(g, rs.drop_last()).push(rs.last())
    } else {
        live_refs(g, rs.drop_last())
    }
}

/// The people that the live references of `rs` name, in their order.
pub open spec fn resolve_all(g: Seq<Option<SlotView>>, rs: Seq<PersonRef>) -> Seq<PersonView> {
    live_refs(g, rs).map_values(|r: PersonRef| person_of(g, r))
}

/// How `after` follows from `before` when one holder of `r` lets go: a
/// person with one holder is destroyed, one with more loses a holder, and
/// a reference that is not live changes nothing.
pub open spec fn released(
    before: Seq<Option<SlotView>>,
    after: Seq<Option<SlotView>>,
    r: PersonRef,
) -> bool {
    if !is_live(before, r) {
        after == before
    } else if holders_of(before, r) <= 1 {
        after == before.update(r.id as int, None)
    } else {
        after == before.update(
            r.id as int,
            Some(SlotView { holders: (holders_of(before, r) - 1) as nat, person: person_of(before, r) }),
        )
    }
}

/// Resolving one more reference adds its person at the end, or nothing
/// where it is not live.
pub proof fn lemma_resolve_all_push(g: Seq<Option<SlotView>>, rs: Seq<PersonRef>, r: PersonRef)
    ensures
        resolve_all(g, rs.push(r)) == if is_live(g, r) {
            resolve_all(g, rs).push(person_of(g, r))
        } else {
            resolve_all(g, rs)
        },
{
    let t = rs.push(r);
    assert(t.drop_last() =~= rs);
    if is_live(g, r) {
        assert(resolve_all(g, t) =~= resolve_all(g, rs).push(person_of(g, r)));
    }
}

/// How many times `r` appears in `rs`.
pub open spec fn occurrences(rs: Seq<PersonRef>, r: PersonRef) -> nat
    decreases rs.len(),
{
    if rs.len() == 0 {
        0
    } else if rs.last() == r {
        occurrences(rs.drop_last(), r) + 1
    } else {
        occurrences(rs.drop_last(), r)
    }
}

/// A person without children resolves no child.
pub proof fn lemma_no_children(g: Seq<Option<SlotView>>)
    ensures
        resolve_all(g, Seq::<PersonRef>::empty()) == Seq::<PersonView>::empty(),
{
    assert(resolve_all(g, Seq::<PersonRef>::empty()) =~= Seq::<PersonView>::empty());
}

/// Appending a child reference grows the children by exactly one entry,
/// that reference; while its person is live, the resolved children gain
/// exactly that person, at the end.
pub proof fn lemma_add_child_resolves(
    g: Seq<Option<SlotView>>,
    before: PersonView,
    after: PersonView,
    w: PersonRef,
)
    requires
        after.children == before.children.push(w),
    ensures
        after.children.len() == before.children.len() + 1,
        after.children.last() == w,
        is_live(g, w) ==> resolve_all(g, after.children) == resolve_all(g, before.children).push(
            person_of(g, w),
        ),
        is_live(g, w) ==> resolve_all(g, after.children).last() == person_of(g, w),
{
    lemma_resolve_all_push(g, before.children, w);
}

/// While every reference is live, resolving them yields their people in the
/// order the references were added.
pub proof fn lemma_resolve_in_order(g: Seq<Option<SlotView>>, rs: Seq<PersonRef>)
    requires
        forall|i: int| 0 <= i < rs.len() ==> is_live(g, #[trigger] rs[i]),
    ensures
        live_refs(g, rs) == rs,
        resolve_all(g, rs) == rs.map_values(|r: PersonRef| person_of(g, r)),
    decreases rs.len(),
{
    if rs.len() > 0 {
        let init = rs.drop_last();
        assert forall|i: int| 0 <= i < init.len() implies is_live(g, #[trigger] init[i]) by {
            assert(init[i] == rs[i]);
        }
        lemma_resolve_in_order(g, init);
        assert(is_live(g, rs[rs.len() - 1]));
        assert(init.push(rs.last()) =~= rs);
    }
}

/// Destroying the person `c` drops each of its entries from the live
/// references and keeps every other entry.
proof fn lemma_destroyed_drops(
    before: Seq<Option<SlotView>>,
    rs: Seq<PersonRef>,
    c: PersonRef,
)
    requires
        is_live(before, c),
    ensures
        !live_refs(before.update(c.id as int, None), rs).contains(c),
        live_refs(before.update(c.id as int, None), rs).len() + occurrences(rs, c) == live_refs(
            before,
            rs,
        ).len(),
    decreases rs.len(),
{
    let after = before.update(c.id as int, None);
    if rs.len() > 0 {
        let init = rs.drop_last();
        let r = rs.last();
        lemma_destroyed_drops(before, init, c);
        if r == c {
            assert(!is_live(after, r));
        } else {
            assert(r.id != c.id);
            assert(is_live(after, r) == is_live(before, r));
            if is_live(after, r) {
                assert(live_refs(after, rs) == live_refs(after, init).push(r));
                assert forall|i: int| 0 <= i < live_refs(after, rs).len()
                    implies live_refs(after, rs)[i] != c by {
                    if i < live_refs(after, init).len() {
                        assert(live_refs(after, rs)[i] == live_refs(after, init)[i]);
                    }
                }
            }
        }
    }
}

/// Once the sole holder of `c` lets go, a list of references where `c`
/// appears once no longer yields `c`, and resolves to one person fewer.
pub proof fn lemma_release_last_holder(
    before: Seq<Option<SlotView>>,
    after: Seq<Option<SlotView>>,
    kids: Seq<PersonRef>,
    c: PersonRef,
)
    requires
        is_live(before, c),
        holders_of(before, c) == 1,
        released(before, after, c),
        occurrences(kids, c) == 1,
    ensures
        !live_refs(after, kids).contains(c),
        resolve_all(after, kids).len() == resolve_all(before, kids).len() - 1,
{
    lemma_destroyed_drops(before, kids, c);
}

impl PersonGraph {
    /// Every live person has at least one holder.
    pub closed spec fn wf(&self) -> bool {
        forall|i: int|
            0 <= i < self.slots@.len() && #[trigger] self.slots@[i] is Some
                ==> self.slots@[i]->Some_0.holders > 0
    }

    /// An empty graph.
    pub fn new() -> (r: PersonGraph)
        ensures
            r.wf(),
            r@ == Seq::<Option<SlotView>>::empty(),
    {
        let r = PersonGraph { slots: Vec::new() };
        proof {
            assert(r@ =~= Seq::<Option<SlotView>>::empty());
        }
        r
    }

    /// Takes ownership of `p` with one holder and returns a reference to it.
    pub fn insert(&mut self, p: Person) -> (r: PersonRef)
        requires
            old(self).wf(),
            old(self)@.len() < usize::MAX,
        ensures
            final(self).wf(),
            r.id == old(self)@.len(),
            final(self)@ == old(self)@.push(Some(SlotView { holders: 1, person: p@ })),
    {
        let r = PersonRef { id: self.slots.len() };
        let ghost v = old(self)@;
        self.slots.push(Some(Slot { holders: 1, person: p }));
        proof {
            assert(self@ =~= v.push(Some(SlotView { holders: 1, person: p@ })));
        }
        r
    }

    /// Whether `r` names a person that some holder still owns.
    pub fn contains(&self, r: PersonRef) -> (b: bool)
        ensures
            b == is_live(self@, r),
    {
        r.id < self.slots.len() && self.slots[r.id].is_some()
    }

    /// The number of holders that own the person `r` names; 0 once it is gone.
    pub fn holder_count(&self, r: PersonRef) -> (n: usize)
        ensures
            n == holders_of(self@, r),
    {
        if r.id < self.slots.len() {
            match &self.slots[r.id] {
                Some(s) => s.holders,
                None => 0,
            }
        } else {
            0
        }
    }

    /// The person that `r` names, while some holder owns it.
    pub fn resolve(&self, r: PersonRef) -> (o: Option<&Person>)
        ensures
            o is Some <==> is_live(self@, r),
            o is Some ==> o->Some_0@ == person_of(self@, r),
    {
        if r.id < self.slots.len() {
            match &self.slots[r.id] {
                Some(s) => Some(&s.person),
                None => None,
            }
        } else {
            None
        }
    }

    /// Adds one more holder to the person `r` names; false, with nothing
    /// changed, where that person is gone.
    pub fn hold(&mut self, r: PersonRef) -> (b: bool)
        requires
            old(self).wf(),
            holders_of(old(self)@, r) < usize::MAX,
        ensures
            final(self).wf(),
            b == is_live(old(self)@, r),
            b ==> final(self)@ == old(self)@.update(
                r.id as int,
                Some(SlotView { holders: holders_of(old(self)@, r) + 1, person: person_of(old(self)@, r) }),
            ),
            !b ==> final(self)@ == old(self)@,
    {
        if r.id >= self.slots.len() {
            return false;
        }
        match self.slots[r.id].take() {
            Some(s) => {
                let n = s.holders + 1;
                self.slots.set(r.id, Some(Slot { holders: n, person: s.person }));
                true
            }
            None => false,
        }
    }

    /// One holder of the person `r` names lets go; the person is destroyed
    /// when that was its last holder. Returns whether `r` was live.
    pub fn release(&mut self, r: PersonRef) -> (b: bool)
        requires
            old(self).wf(),
        ensures
            final(self).wf(),
            b == is_live(old(self)@, r),
            released(old(self)@, final(self)@, r),
    {
        if r.id >= self.slots.len() {
            return false;
        }
        let ghost v = old(self)@;
        match self.slots[r.id].take() {
            Some(s) => {
                if s.holders > 1 {
                    let n = s.holders - 1;
                    self.slots.set(r.id, Some(Slot { holders: n, person: s.person }));
                    assert(self@ =~= v.update(
                        r.id as int,
                        Some(SlotView { holders: (holders_of(v, r) - 1) as nat, person: person_of(v, r) }),
                    ));
                } else {
                    assert(self@ =~= v.update(r.id as int, None));
                }
                true
            }
            None => {
                assert(self@ =~= v);
                false
            }
        }
    }

    /// Records `child` among the children of the person `parent` names;
    /// false, with nothing changed, where that person is gone.
    pub fn link_child(&mut self, parent: PersonRef, child: PersonRef) -> (b: bool)
        requires
            old(self).wf(),
        ensures
            final(self).wf(),
            b == is_live(old(self)@, parent),
            b ==> final(self)@ == old(self)@.update(
                parent.id as int,
                Some(SlotView {
                    holders: holders_of(old(self)@, parent),
                    person: PersonView {
                        children: person_of(old(self)@, parent).children.push(child),
                        ..person_of(old(self)@, parent)
                    },
                }),
            ),
            !b ==> final(self)@ == old(self)@,
    {
        if parent.id >= self.slots.len() {
            return false;
        }
        match self.slots[parent.id].take() {
            Some(s) => {
                let mut p = s.person;
                p.add_child(child);
                self.slots.set(parent.id, Some(Slot { holders: s.holders, person: p }));
                true
            }
            None => false,
        }
    }

    /// Records `parent` among the parents of the person `child` names;
    /// false, with nothing changed, where that person is gone.
    pub fn link_parent(&mut self, child: PersonRef, parent: PersonRef) -> (b: bool)
        requires
            old(self).wf(),
        ensures
            final(self).wf(),
            b == is_live(old(self)@, child),
            b ==> final(self)@ == old(self)@.update(
                child.id as int,
                Some(SlotView {
                    holders: holders_of(old(self)@, child),
                    person: PersonView {
                        parents: person_of(old(self)@, child).parents.push(parent),
                        ..person_of(old(self)@, child)
                    },
                }),
            ),
            !b ==> final(self)@ == old(self)@,
    {
        if child.id >= self.slots.len() {
            return false;
        }
        match self.slots[child.id].take() {
            Some(s) => {
                let mut p = s.person;
                p.add_parent(parent);
                self.slots.set(child.id, Some(Slot { holders: s.holders, person: p }));
                true
            }
            None => false,
        }
    }
}

} // verus!
