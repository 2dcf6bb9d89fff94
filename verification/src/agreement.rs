//! The resolver's graph follows the unit store.
//!
//! The unit store tells the resolver of every unit that is loaded, changed
//! or taken out, and the resolver keeps the reverse of what it was told.
//! Between the telling and the hearing lies the queue. What is shown here
//! is that the two never drift apart: at every step of the engine the
//! reverse graph is the inverse of the lists that the resolver has heard
//! of, and once it has heard everything that is on its way, of the lists
//! that are loaded.

use vstd::prelude::*;

use crate::actor::{from_store, Cmd, Msg, Outcome, World};
use crate::dep::{
    is_inverse, law_empty_is_inverse, law_load_keeps_inverse, law_update_keeps_inverse, list,
    names, names_as, names_nobody, Edge, Graph,
};
use crate::store::{needs_of, start_out, wants_of, Order};
use crate::unit::{Deps, Desc};

verus! {

/// The lists of a description.
pub open spec fn lists_of() -> spec_fn(Desc) -> Deps {
    |desc: Desc| desc.common.deps
}

/// The lists of the loaded units.
pub open spec fn deps_of(units: Map<Seq<char>, Desc>) -> Map<Seq<char>, Deps> {
    units.map_values(lists_of())
}

/// Whether in `a` and in `b` the same units name the same units along the
/// same relations.
pub open spec fn same_names(a: Map<Seq<char>, Deps>, b: Map<Seq<char>, Deps>) -> bool {
    forall|u: Seq<char>, v: Seq<char>, edge: Edge| #[trigger]
        names(a, u, v, edge) <==> names(b, u, v, edge)
}

/// Whether `m` tells the resolver of lists.
pub open spec fn tells_lists(m: Msg) -> bool {
    m matches Msg::Store(Order::DepLoad(_, _)) || m matches Msg::Store(Order::DepUpdate(_, _, _))
}

/// The lists that the resolver, which knows `loaded`, knows once it has
/// heard the messages in `queue`.
pub open spec fn heard(loaded: Map<Seq<char>, Deps>, queue: Seq<Msg>) -> Map<Seq<char>, Deps>
    decreases queue.len(),
{
    if queue.len() == 0 {
        loaded
    } else {
        match queue[0] {
            Msg::Store(Order::DepLoad(id, deps)) => heard(
                loaded.insert(id, deps),
                queue.drop_first(),
            ),
            Msg::Store(Order::DepUpdate(id, was, new)) => heard(
                loaded.insert(id, new),
                queue.drop_first(),
            ),
            _ => heard(loaded, queue.drop_first()),
        }
    }
}

/// Whether each message in `queue` that tells the resolver of lists tells
/// it of a unit as the resolver, which knows `loaded`, knows it by then: a
/// loaded unit names nobody so far, and a changed unit names those whom
/// its old lists hold.
pub open spec fn in_tune(loaded: Map<Seq<char>, Deps>, queue: Seq<Msg>) -> bool
    decreases queue.len(),
{
    if queue.len() == 0 {
        true
    } else {
        match queue[0] {
            Msg::Store(Order::DepLoad(id, deps)) => names_nobody(loaded, id) && in_tune(
                loaded.insert(id, deps),
                queue.drop_first(),
            ),
            Msg::Store(Order::DepUpdate(id, was, new)) => names_as(loaded, id, was) && in_tune(
                loaded.insert(id, new),
                queue.drop_first(),
            ),
            _ => in_tune(loaded, queue.drop_first()),
        }
    }
}

/// Whether the engine's resolver follows its unit store: the reverse graph
/// is the inverse of some lists, and the queue brings the resolver from
/// those lists to the loaded ones.
pub open spec fn follows(w: World) -> bool {
    exists|loaded: Map<Seq<char>, Deps>|
        is_inverse(w.graph.reverse, loaded) && in_tune(loaded, w.queue) && same_names(
            #[trigger] heard(loaded, w.queue),
            deps_of(w.units),
        )
}

/// Hearing two queues one after the other is hearing them as one.
proof fn lemma_heard_both(loaded: Map<Seq<char>, Deps>, first: Seq<Msg>, second: Seq<Msg>)
    ensures
        heard(loaded, first + second) == heard(heard(loaded, first), second),
        in_tune(loaded, first + second) == (in_tune(loaded, first) && in_tune(
            heard(loaded, first),
            second,
        )),
    decreases first.len(),
{
    if first.len() == 0 {
        assert(first + second =~= second);
    } else {
        let both = first + second;
        assert(both[0] == first[0]);
        assert(both.drop_first() =~= first.drop_first() + second);
        match first[0] {
            Msg::Store(Order::DepLoad(id, deps)) => {
                lemma_heard_both(loaded.insert(id, deps), first.drop_first(), second);
            },
            Msg::Store(Order::DepUpdate(id, was, new)) => {
                lemma_heard_both(loaded.insert(id, new), first.drop_first(), second);
            },
            _ => {
                lemma_heard_both(loaded, first.drop_first(), second);
            },
        }
    }
}

/// Messages that do not tell of lists teach the resolver nothing.
proof fn lemma_heard_nothing(loaded: Map<Seq<char>, Deps>, queue: Seq<Msg>)
    requires
        forall|i: int| 0 <= i < queue.len() ==> !tells_lists(#[trigger] queue[i]),
    ensures
        heard(loaded, queue) == loaded,
        in_tune(loaded, queue),
    decreases queue.len(),
{
    if queue.len() > 0 {
        assert(!tells_lists(queue[0]));
        let rest = queue.drop_first();
        assert forall|i: int| 0 <= i < rest.len() implies !tells_lists(#[trigger] rest[i]) by {
            assert(rest[i] == queue[i + 1]);
        }
        lemma_heard_nothing(loaded, rest);
    }
}

/// An engine that knows no unit follows.
pub proof fn law_empty_follows()
    ensures
        follows(World::empty()),
{
    law_empty_is_inverse();
    let loaded = Map::<Seq<char>, Deps>::empty();
    assert(is_inverse(World::empty().graph.reverse, loaded));
    assert(same_names(heard(loaded, World::empty().queue), deps_of(World::empty().units)));
}

/// Asking something of the engine leaves it following.
pub proof fn law_asking_keeps_following(w: World, cmd: Cmd)
    requires
        follows(w),
    ensures
        follows(w.asked(cmd)),
{
    let loaded = choose|loaded: Map<Seq<char>, Deps>|
        is_inverse(w.graph.reverse, loaded) && in_tune(loaded, w.queue) && same_names(
            #[trigger] heard(loaded, w.queue),
            deps_of(w.units),
        );
    let one = seq![Msg::Command(cmd)];
    assert(w.asked(cmd).queue =~= w.queue + one);
    lemma_heard_both(loaded, w.queue, one);
    lemma_heard_nothing(heard(loaded, w.queue), one);
    assert(same_names(heard(loaded, w.asked(cmd).queue), deps_of(w.units)));
}

/// Whether `o` leaves the unit store and the reverse graph of `w` as they
/// are and sends nothing that tells of lists.
spec fn leaves_lists(w: World, o: Outcome) -> bool {
    &&& o.units == w.units
    &&& o.graph.reverse == w.graph.reverse
    &&& forall|i: int| 0 <= i < o.sent.len() ==> !tells_lists(#[trigger] o.sent[i])
}

/// An outcome that leaves the lists alone leaves the engine following.
proof fn lemma_quiet_outcome(w: World, o: Outcome, loaded: Map<Seq<char>, Deps>)
    requires
        w.queue.len() > 0,
        !tells_lists(w.queue[0]),
        leaves_lists(w, o),
        is_inverse(w.graph.reverse, loaded),
        in_tune(loaded, w.queue),
        same_names(heard(loaded, w.queue), deps_of(w.units)),
    ensures
        follows(w.after(o)),
{
    let rest = w.queue.drop_first();
    assert(heard(loaded, w.queue) == heard(loaded, rest));
    assert(in_tune(loaded, rest));
    lemma_heard_both(loaded, rest, o.sent);
    lemma_heard_nothing(heard(loaded, rest), o.sent);
    let next = w.after(o);
    assert(next.queue == rest + o.sent);
    assert(same_names(heard(loaded, next.queue), deps_of(next.units)));
}

/// Every step of the engine leaves it following.
pub proof fn law_step_keeps_following(w: World)
    requires
        follows(w),
    ensures
        follows(w.next()),
{
    if w.queue.len() == 0 {
        return ;
    }
    let o = w.outcome(w.queue[0]);
    let loaded = choose|loaded: Map<Seq<char>, Deps>|
        is_inverse(w.graph.reverse, loaded) && in_tune(loaded, w.queue) && same_names(
            #[trigger] heard(loaded, w.queue),
            deps_of(w.units),
        );
    let m = w.queue[0];
    let rest = w.queue.drop_first();
    let next = w.after(o);
    let known = heard(loaded, rest);
    reveal_with_fuel(heard, 3);
    reveal_with_fuel(in_tune, 3);
    match m {
        Msg::Store(Order::DepLoad(id, deps)) => {
            law_load_keeps_inverse(w.graph, loaded, id, deps);
            let now = loaded.insert(id, deps);
            assert(o == w.outcome(m));
            assert(next.queue =~= rest);
            assert(heard(loaded, w.queue) == heard(now, rest));
            assert(in_tune(now, rest));
            assert(is_inverse(next.graph.reverse, now));
            assert(same_names(heard(now, next.queue), deps_of(next.units)));
        },
        Msg::Store(Order::DepUpdate(id, was, new)) => {
            law_update_keeps_inverse(w.graph, loaded, id, was, new);
            let now = loaded.insert(id, new);
            assert(o == w.outcome(m));
            assert(next.queue =~= rest);
            assert(heard(loaded, w.queue) == heard(now, rest));
            assert(in_tune(now, rest));
            assert(is_inverse(next.graph.reverse, now));
            assert(same_names(heard(now, next.queue), deps_of(next.units)));
        },
        Msg::Command(Cmd::Update(desc)) => {
            let id = desc.common.name;
            assert(heard(loaded, w.queue) == known);
            lemma_heard_both(loaded, rest, o.sent);
            let told = o.sent[0];
            assert(o.sent.len() == 1);
            assert(o.sent.drop_first() =~= Seq::<Msg>::empty());
            let after = known.insert(id, desc.common.deps);
            if w.units.contains_key(id) {
                assert(told == Msg::Store(
                    Order::DepUpdate(id, w.units[id].common.deps, desc.common.deps),
                ));
                assert forall|v: Seq<char>, edge: Edge| #[trigger]
                    names(known, id, v, edge) <==> list(w.units[id].common.deps, edge).contains(
                        v,
                    ) by {
                    assert(names(known, id, v, edge) <==> names(deps_of(w.units), id, v, edge));
                }
            } else {
                assert(told == Msg::Store(Order::DepLoad(id, desc.common.deps)));
                assert forall|v: Seq<char>, edge: Edge| !#[trigger] names(known, id, v, edge) by {
                    assert(names(known, id, v, edge) <==> names(deps_of(w.units), id, v, edge));
                }
            }
            assert(heard(known, o.sent) == after);
            assert(in_tune(known, o.sent));
            assert forall|u: Seq<char>, v: Seq<char>, edge: Edge| #[trigger]
                names(after, u, v, edge) <==> names(deps_of(next.units), u, v, edge) by {
                assert(names(known, u, v, edge) <==> names(deps_of(w.units), u, v, edge));
            }
            assert(next.queue == rest + o.sent);
        },
        Msg::Command(Cmd::Remove(id)) => {
            assert(heard(loaded, w.queue) == known);
            lemma_heard_both(loaded, rest, o.sent);
            if w.units.contains_key(id) {
                assert(o.sent.len() == 1);
                assert(o.sent.drop_first() =~= Seq::<Msg>::empty());
                let after = known.insert(id, Deps::none());
                assert(o.sent[0] == Msg::Store(
                    Order::DepUpdate(id, w.units[id].common.deps, Deps::none()),
                ));
                assert forall|v: Seq<char>, edge: Edge| #[trigger]
                    names(known, id, v, edge) <==> list(w.units[id].common.deps, edge).contains(
                        v,
                    ) by {
                    assert(names(known, id, v, edge) <==> names(deps_of(w.units), id, v, edge));
                }
                assert(heard(known, o.sent) == after);
                assert forall|u: Seq<char>, v: Seq<char>, edge: Edge| #[trigger]
                    names(after, u, v, edge) <==> names(deps_of(next.units), u, v, edge) by {
                    assert(names(known, u, v, edge) <==> names(deps_of(w.units), u, v, edge));
                    assert(list(Deps::none(), edge).len() == 0);
                }
            } else {
                assert(o.sent.len() == 0);
                assert(next.units =~= w.units);
                assert forall|u: Seq<char>, v: Seq<char>, edge: Edge| #[trigger]
                    names(known, u, v, edge) <==> names(deps_of(next.units), u, v, edge) by {
                    assert(names(known, u, v, edge) <==> names(deps_of(w.units), u, v, edge));
                }
            }
            assert(next.queue == rest + o.sent);
        },
        Msg::Command(Cmd::Start(id)) => {
            let orders = start_out(w.units, w.guards, id);
            if w.units.contains_key(id) {
                let wants = wants_of(w.units, w.guards, id);
                let needs = needs_of(w.units, w.guards, id);
                assert forall|i: int| 0 <= i < orders.len() implies !tells_lists(
                    #[trigger] o.sent[i],
                ) by {
                    let stops = crate::store::named(w.units, id, Edge::Conflicts).len();
                    if i < stops {
                    } else if i < stops + wants.len() {
                    } else if i < stops + wants.len() + needs.len() {
                    } else {
                    }
                }
            }
            lemma_quiet_outcome(w, o, loaded);
        },
        _ => {
            assert(leaves_lists(w, o));
            lemma_quiet_outcome(w, o, loaded);
        },
    }
}

/// Once nothing that tells of lists is on its way, and so whenever the
/// engine has nothing left to do, the reverse graph is the inverse of the
/// lists of the loaded units.
pub proof fn law_graph_is_inverse_at_rest(w: World)
    requires
        follows(w),
        forall|i: int| 0 <= i < w.queue.len() ==> !tells_lists(#[trigger] w.queue[i]),
    ensures
        is_inverse(w.graph.reverse, deps_of(w.units)),
{
    let loaded = choose|loaded: Map<Seq<char>, Deps>|
        is_inverse(w.graph.reverse, loaded) && in_tune(loaded, w.queue) && same_names(
            #[trigger] heard(loaded, w.queue),
            deps_of(w.units),
        );
    lemma_heard_nothing(loaded, w.queue);
    assert forall|v: Seq<char>, u: Seq<char>, edge: Edge| #[trigger]
        crate::dep::entry(w.graph.reverse, v).get(edge).contains(u) <==> names(
            deps_of(w.units),
            u,
            v,
            edge,
        ) by {
        assert(names(loaded, u, v, edge) <==> names(deps_of(w.units), u, v, edge));
    }
}

} // verus!
