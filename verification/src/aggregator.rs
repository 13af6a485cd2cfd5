//! The coordinator of the actor-per-pool engine.
//!
//! Once per pass the coordinator asks every registered actor for its
//! aggregate. An actor whose mailbox is closed is dead: it is left out of the
//! pass and reaped from the registry. The snapshot is assembled from the
//! replies that arrived.

use vstd::prelude::*;
use crate::keymap::KeyMap;
use crate::stats::{AllStats, PoolStats, PoolStatsView};

verus! {

/// The names that a sequence of strings holds.
pub open spec fn names_of(v: Seq<String>) -> Seq<Seq<char>> {
    Seq::new(v.len(), |i: int| v[i]@)
}

/// The replies as mathematical values.
pub open spec fn replies_of(v: Seq<Option<PoolStats>>) -> Seq<Option<PoolStatsView>> {
    Seq::new(
        v.len(),
        |i: int|
            match v[i] {
                Some(stats) => Some(stats@),
                None => None,
            },
    )
}

/// The snapshot made of the first `n` names and replies: each name whose
/// reply arrived has that reply's aggregate, and a name that occurs again
/// has the later one.
pub open spec fn assembled_upto(
    names: Seq<Seq<char>>,
    replies: Seq<Option<PoolStatsView>>,
    n: nat,
) -> Map<Seq<char>, PoolStatsView>
    decreases n,
{
    if n == 0 {
        Map::empty()
    } else {
        let rest = assembled_upto(names, replies, (n - 1) as nat);
        match replies[n - 1] {
            Some(stats) => rest.insert(names[n - 1], stats),
            None => rest,
        }
    }
}

/// The snapshot made of names and replies, paired by position as far as
/// both reach.
pub open spec fn assembled(names: Seq<Seq<char>>, replies: Seq<Option<PoolStatsView>>) -> Map<
    Seq<char>,
    PoolStatsView,
> {
    assembled_upto(
        names,
        replies,
        if names.len() <= replies.len() {
            names.len()
        } else {
            replies.len()
        },
    )
}

/// Assembles the snapshot of one pass from the names of the actors that were
/// asked and their replies, paired by position. `None` stands for a reply
/// that never arrived: that pool is left out.
pub fn assemble(names: &Vec<String>, replies: Vec<Option<PoolStats>>) -> (stats: AllStats)
    ensures
        stats.wf(),
        stats@ == assembled(names_of(names@), replies_of(replies@)),
{
    let ghost ns = names_of(names@);
    let ghost rs = replies_of(replies@);
    let mut stats = AllStats::default();
    let mut i: usize = 0;
    for reply in it: replies
        invariant
            it.seq() == replies@,
            ns == names_of(names@),
            rs == replies_of(replies@),
            i == if it.index() <= ns.len() {
                it.index()
            } else {
                ns.len() as int
            },
            stats.wf(),
            stats@ == assembled_upto(ns, rs, i as nat),
    {
        if i < names.len() {
            match reply {
                Some(pool) => {
                    let ghost before = stats;
                    let name = names[i].clone();
                    stats.pools.insert(name, pool);
                    proof {
                        assert(rs[i as int] == Some(pool@));
                        stats.lemma_view_of_insert(&before, ns[i as int], pool);
                    }
                },
                None => {
                    assert(rs[i as int] == None::<PoolStatsView>);
                },
            }
            i = i + 1;
        }
    }
    stats
}

/// Removes the dead actors from the registry.
pub fn reap<H>(registry: &mut KeyMap<H>, dead: &Vec<String>)
    requires
        old(registry).wf(),
    ensures
        final(registry).wf(),
        final(registry).as_map() == old(registry).as_map().remove_keys(names_of(dead@).to_set()),
{
    let ghost ns = names_of(dead@);
    let mut i: usize = 0;
    proof {
        assert(ns.take(0).to_set() =~= Set::empty());
        assert(registry.as_map().remove_keys(Set::empty()) =~= registry.as_map());
    }
    while i < dead.len()
        invariant
            i <= dead.len(),
            ns == names_of(dead@),
            registry.wf(),
            registry.as_map() == old(registry).as_map().remove_keys(ns.take(i as int).to_set()),
        decreases dead.len() - i,
    {
        let ghost before = registry.as_map();
        let _ = registry.remove(dead[i].as_str());
        proof {
            let head = ns.take(i as int);
            let next = ns.take(i + 1);
            let done = head.to_set();
            assert(next =~= head.push(ns[i as int]));
            assert(next.to_set() =~= done.insert(ns[i as int])) by {
                assert forall|k: Seq<char>| next.to_set().contains(k) implies done.insert(
                    ns[i as int],
                ).contains(k) by {
                    let j = choose|j: int| 0 <= j < next.len() && #[trigger] next[j] == k;
                    if j < i {
                        assert(head[j] == k);
                    }
                }
                assert forall|k: Seq<char>| done.insert(ns[i as int]).contains(k) implies next.to_set().contains(
                    k,
                ) by {
                    if k == ns[i as int] {
                        assert(next[i as int] == k);
                    } else {
                        let j = choose|j: int| 0 <= j < head.len() && #[trigger] head[j] == k;
                        assert(next[j] == k);
                    }
                }
            }
            assert(before.remove(ns[i as int]) =~= old(registry).as_map().remove_keys(
                done.insert(ns[i as int]),
            ));
        }
        i = i + 1;
    }
    proof {
        assert(ns.take(dead.len() as int) =~= ns);
    }
}

/// The record of one pass of the coordinator: which actors took the request
/// and which were found dead.
#[derive(Debug)]
pub struct StatsPass {
    asked: Vec<String>,
    dead: Vec<String>,
}

impl StatsPass {
    /// The pools whose actor took the request, in the order of asking.
    pub closed spec fn asked_names(&self) -> Seq<Seq<char>> {
        names_of(self.asked@)
    }

    /// The pools whose actor was found dead, in the order of asking.
    pub closed spec fn dead_names(&self) -> Seq<Seq<char>> {
        names_of(self.dead@)
    }

    /// The record of a pass in which nobody has been asked yet.
    pub fn new() -> (pass: StatsPass)
        ensures
            pass.asked_names() == Seq::<Seq<char>>::empty(),
            pass.dead_names() == Seq::<Seq<char>>::empty(),
    {
        let pass = StatsPass { asked: Vec::new(), dead: Vec::new() };
        assert(pass.asked_names() =~= Seq::empty());
        assert(pass.dead_names() =~= Seq::empty());
        pass
    }

    /// Records how the request to the actor of `pool` went: delivered, or
    /// refused because the actor's mailbox is closed.
    pub fn record(&mut self, pool: String, delivered: bool)
        ensures
            final(self).asked_names() == if delivered {
                old(self).asked_names().push(pool@)
            } else {
                old(self).asked_names()
            },
            final(self).dead_names() == if delivered {
                old(self).dead_names()
            } else {
                old(self).dead_names().push(pool@)
            },
    {
        if delivered {
            self.asked.push(pool);
            assert(self.asked_names() =~= old(self).asked_names().push(pool@));
        } else {
            self.dead.push(pool);
            assert(self.dead_names() =~= old(self).dead_names().push(pool@));
        }
    }

    /// The pools whose actor took the request.
    pub fn asked(&self) -> (names: &Vec<String>)
        ensures
            names_of(names@) == self.asked_names(),
    {
        &self.asked
    }

    /// The pools whose actor was found dead.
    pub fn dead(&self) -> (names: &Vec<String>)
        ensures
            names_of(names@) == self.dead_names(),
    {
        &self.dead
    }

    /// Ends the pass: removes the dead actors from the registry and assembles
    /// the snapshot from the replies of the others, in the order of asking.
    pub fn finish<H>(self, registry: &mut KeyMap<H>, replies: Vec<Option<PoolStats>>) -> (stats:
        AllStats)
        requires
            old(registry).wf(),
        ensures
            final(registry).wf(),
            final(registry).as_map() == old(registry).as_map().remove_keys(
                self.dead_names().to_set(),
            ),
            stats.wf(),
            stats@ == assembled(self.asked_names(), replies_of(replies@)),
    {
        reap(registry, &self.dead);
        assemble(&self.asked, replies)
    }
}

} // verus!
