//! The host's catch subscribers: each subscription is registered with an id, the box's table is the
//! union every subscription needs, and a subscription whose frames did not all go out is detached
//! again, with the frames that narrow the box back to the table before it.

use crate::catch::{effective, effective_spec, plan_subscribe, sync_commands, CatchCommand, CatchFilter, FilterSet, SubscribePlan};
use crate::error::Error;
use crate::opcode::CATCH_MAX_ENTRIES;
use vstd::prelude::*;

verus! {

/// Every subscription's filters, in registration order.
pub open spec fn all_filters(subs: Seq<(u64, Seq<CatchFilter>)>) -> Seq<CatchFilter>
    decreases subs.len(),
{
    if subs.len() == 0 {
        Seq::empty()
    } else {
        all_filters(subs.drop_last()) + subs.last().1
    }
}

/// The subscriptions without the one registered as `id`.
pub open spec fn without_id(subs: Seq<(u64, Seq<CatchFilter>)>, id: u64) -> Seq<(u64, Seq<CatchFilter>)>
    decreases subs.len(),
{
    if subs.len() == 0 {
        subs
    } else if subs.last().0 == id {
        without_id(subs.drop_last(), id)
    } else {
        without_id(subs.drop_last(), id).push(subs.last())
    }
}

/// Whether some subscription is registered as `id`.
pub open spec fn has_id(subs: Seq<(u64, Seq<CatchFilter>)>, id: u64) -> bool {
    exists|i: int| 0 <= i < subs.len() && #[trigger] subs[i].0 == id
}

/// Dropping an id nobody holds leaves the subscriptions as they are.
proof fn lemma_without_absent(subs: Seq<(u64, Seq<CatchFilter>)>, id: u64)
    requires
        !has_id(subs, id),
    ensures
        without_id(subs, id) == subs,
    decreases subs.len(),
{
    if subs.len() > 0 {
        let d = subs.drop_last();
        assert(!has_id(d, id)) by {
            if has_id(d, id) {
                let i = choose|i: int| 0 <= i < d.len() && #[trigger] d[i].0 == id;
                assert(subs[i].0 == id);
            }
        }
        lemma_without_absent(d, id);
        assert(subs[subs.len() - 1].0 != id);
        assert(d.push(subs.last()) =~= subs);
    }
}

/// A subscription that joined and then leaves restores the subscriptions before it, and with them
/// the box's table: detaching a just-registered id gives back the union the box held before.
pub proof fn lemma_detach_restores(subs: Seq<(u64, Seq<CatchFilter>)>, id: u64, added: Seq<CatchFilter>)
    requires
        !has_id(subs, id),
    ensures
        without_id(subs.push((id, added)), id) == subs,
        all_filters(without_id(subs.push((id, added)), id)) == all_filters(subs),
        effective_spec(all_filters(without_id(subs.push((id, added)), id))) == effective_spec(all_filters(subs)),
{
    assert(subs.push((id, added)).drop_last() =~= subs);
    lemma_without_absent(subs, id);
}

/// The registered catch subscriptions.
#[derive(Debug)]
pub struct CatchRegistry {
    subs: Vec<(u64, Vec<CatchFilter>)>,
    next_id: u64,
}

/// A subscription's filters as values.
pub open spec fn sub_view(s: (u64, Vec<CatchFilter>)) -> (u64, Seq<CatchFilter>) {
    (s.0, s.1@)
}

impl CatchRegistry {
    /// The subscriptions as values.
    pub closed spec fn view(&self) -> Seq<(u64, Seq<CatchFilter>)> {
        self.subs@.map_values(|s: (u64, Vec<CatchFilter>)| sub_view(s))
    }

    /// The id the next subscription gets.
    pub closed spec fn next_id(&self) -> u64 {
        self.next_id
    }

    /// Every id held is below the next one, so a new id is held by nobody.
    pub closed spec fn wf(&self) -> bool {
        forall|i: int| 0 <= i < self.subs@.len() ==> (#[trigger] self.subs@[i]).0 < self.next_id
    }

    /// No subscriptions.
    pub fn new() -> (r: CatchRegistry)
        ensures
            r.wf(),
            r.view() == Seq::<(u64, Seq<CatchFilter>)>::empty(),
            r.next_id() == 0,
    {
        let r = CatchRegistry { subs: Vec::new(), next_id: 0 };
        assert(r.view() =~= Seq::<(u64, Seq<CatchFilter>)>::empty());
        r
    }

    /// Every subscription's filters, in registration order.
    pub fn filters(&self) -> (v: Vec<CatchFilter>)
        ensures
            v@ == all_filters(self.view()),
    {
        let ghost sv = self.view();
        let mut out: Vec<CatchFilter> = Vec::new();
        let mut i: usize = 0;
        while i < self.subs.len()
            invariant
                i <= self.subs@.len(),
                sv == self.view(),
                out@ == all_filters(sv.take(i as int)),
            decreases self.subs@.len() - i,
        {
            let fs = &self.subs[i].1;
            let ghost before = out@;
            let mut j: usize = 0;
            while j < fs.len()
                invariant
                    j <= fs@.len(),
                    out@ == before + fs@.take(j as int),
                decreases fs@.len() - j,
            {
                out.push(fs[j]);
                assert(fs@.take(j as int + 1) =~= fs@.take(j as int).push(fs@[j as int]));
                assert(out@ =~= before + fs@.take(j as int + 1));
                j = j + 1;
            }
            assert(fs@.take(fs@.len() as int) =~= fs@);
            assert(sv.take(i as int + 1).drop_last() =~= sv.take(i as int));
            assert(sv.take(i as int + 1).last() == sub_view(self.subs@[i as int]));
            i = i + 1;
        }
        assert(sv.take(sv.len() as int) =~= sv);
        out
    }

    /// Register `added` beside every other subscription: refused when the union needs more entries
    /// than the box's table holds, leaving the registry as it was; else the subscription joins under
    /// the next id, with the plan that moves the box to the new union.
    pub fn subscribe(&mut self, added: Vec<CatchFilter>) -> (r: Result<(u64, SubscribePlan), Error>)
        requires
            old(self).wf(),
            old(self).next_id() < u64::MAX,
        ensures
            final(self).wf(),
            effective_spec(all_filters(old(self).view()) + added@).dom().finite(),
            r is Err <==> effective_spec(all_filters(old(self).view()) + added@).dom().len() > CATCH_MAX_ENTRIES,
            r matches Err(e) ==> e == (Error::CatchTableFull {
                needed: effective_spec(all_filters(old(self).view()) + added@).dom().len() as usize,
                limit: CATCH_MAX_ENTRIES,
            }) && final(self).view() == old(self).view() && final(self).next_id() == old(self).next_id(),
            r matches Ok((id, plan)) ==> id == old(self).next_id() && !has_id(old(self).view(), id)
                && final(self).view() == old(self).view().push((id, added@))
                && final(self).next_id() == old(self).next_id() + 1 && plan.effective.wf()
                && plan.effective.map() == effective_spec(all_filters(final(self).view())),
    {
        let existing = self.filters();
        let planned = plan_subscribe(&existing, &added);
        match planned {
            Err(e) => Err(e),
            Ok(plan) => {
                let id = self.next_id;
                proof {
                    if has_id(self.view(), id) {
                        let i = choose|i: int| 0 <= i < self.view().len() && #[trigger] self.view()[i].0 == id;
                        assert(self.view()[i] == sub_view(self.subs@[i]));
                    }
                }
                let ghost before = self.view();
                let ghost added_v = added@;
                self.subs.push((id, added));
                self.next_id = id + 1;
                proof {
                    assert(self.view() =~= before.push((id, added_v)));
                    assert(self.view().drop_last() =~= before);
                }
                Ok((id, plan))
            },
        }
    }

    /// Drop the subscription registered as `id`, returning the union the rest need.
    pub fn detach(&mut self, id: u64) -> (restored: FilterSet)
        requires
            old(self).wf(),
        ensures
            final(self).wf(),
            final(self).view() == without_id(old(self).view(), id),
            final(self).next_id() == old(self).next_id(),
            restored.wf(),
            restored.map() == effective_spec(all_filters(final(self).view())),
    {
        let ghost sv = self.view();
        let mut kept: Vec<(u64, Vec<CatchFilter>)> = Vec::new();
        let mut i: usize = 0;
        while i < self.subs.len()
            invariant
                i <= self.subs@.len(),
                self.wf(),
                sv == self.view(),
                kept@.map_values(|s: (u64, Vec<CatchFilter>)| sub_view(s)) == without_id(sv.take(i as int), id),
                forall|k: int| 0 <= k < kept@.len() ==> (#[trigger] kept@[k]).0 < self.next_id,
            decreases self.subs@.len() - i,
        {
            assert(sv.take(i as int + 1).drop_last() =~= sv.take(i as int));
            assert(sv.take(i as int + 1).last() == sub_view(self.subs@[i as int]));
            if self.subs[i].0 != id {
                let fs = copy_filters(&self.subs[i].1);
                let ghost before = kept@;
                kept.push((self.subs[i].0, fs));
                assert(kept@.map_values(|s: (u64, Vec<CatchFilter>)| sub_view(s)) =~= before.map_values(
                    |s: (u64, Vec<CatchFilter>)| sub_view(s),
                ).push(sub_view(self.subs@[i as int])));
                assert forall|k: int| 0 <= k < kept@.len() implies (#[trigger] kept@[k]).0 < self.next_id by {
                    if k < before.len() {
                        assert(kept@[k] == before[k]);
                    }
                }
            }
            i = i + 1;
        }
        assert(sv.take(sv.len() as int) =~= sv);
        self.subs = kept;
        let all = self.filters();
        effective(&all)
    }

    /// A subscription whose frames did not all go out: detach it again, and return the frames that
    /// narrow the box from `reached` (the table the subscription widened it to) back to the union
    /// the rest need.
    pub fn roll_back(&mut self, id: u64, reached: &FilterSet) -> (r: (FilterSet, Vec<CatchCommand>))
        requires
            old(self).wf(),
            reached.wf(),
        ensures
            final(self).wf(),
            final(self).view() == without_id(old(self).view(), id),
            final(self).next_id() == old(self).next_id(),
            r.0.wf(),
            r.0.map() == effective_spec(all_filters(final(self).view())),
            r.1@ == crate::catch::sync_spec(reached.rows(), reached.map(), r.0.rows(), r.0.map()),
    {
        let restored = self.detach(id);
        let commands = sync_commands(reached, &restored);
        (restored, commands)
    }
}

/// A copy of a filter list.
fn copy_filters(v: &Vec<CatchFilter>) -> (r: Vec<CatchFilter>)
    ensures
        r@ == v@,
{
    let mut out: Vec<CatchFilter> = Vec::new();
    let mut i: usize = 0;
    while i < v.len()
        invariant
            i <= v@.len(),
            out@ == v@.take(i as int),
        decreases v@.len() - i,
    {
        out.push(v[i]);
        assert(v@.take(i as int + 1) =~= v@.take(i as int).push(v@[i as int]));
        i = i + 1;
    }
    assert(v@.take(v@.len() as int) =~= v@);
    out
}

} // verus!
