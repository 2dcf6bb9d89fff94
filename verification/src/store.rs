//! The unit store: the description of every loaded unit, and what a start
//! pulls in.

use vstd::prelude::*;

use crate::dep::Edge;
use crate::guard::{has_live, Guard, GuardStore};
use crate::table::Table;
use crate::unit::{Deps, Desc, UnitDeps, UnitDesc, UnitId};

verus! {

/// What the unit store sends out, as plain values.
pub enum Order {
    DepLoad(Seq<char>, Deps),
    DepUpdate(Seq<char>, Deps, Deps),
    GuardStop(Seq<char>),
    GuardInsert(Seq<char>, Deps),
    StartWhenDead(Seq<char>),
}

/// What the unit store sends out.
#[derive(Debug)]
pub enum StoreOut {
    /// To the resolver: this unit was loaded with these lists.
    DepLoad(UnitId, UnitDeps),
    /// To the resolver: the lists of this unit were the first and are now
    /// the second.
    DepUpdate(UnitId, UnitDeps, UnitDeps),
    /// To the guard registry: stop this unit.
    GuardStop(UnitId),
    /// To the guard registry: make a guard for this unit, which has these
    /// lists.
    GuardInsert(UnitId, UnitDeps),
    /// To the state store: watch this unit, and have it started once its
    /// state is a dead one.
    StartWhenDead(UnitId),
}

impl DeepView for StoreOut {
    type V = Order;

    open spec fn deep_view(&self) -> Order {
        match self {
            StoreOut::DepLoad(id, deps) => Order::DepLoad(id@, deps.deep_view()),
            StoreOut::DepUpdate(id, was, new) => Order::DepUpdate(
                id@,
                was.deep_view(),
                new.deep_view(),
            ),
            StoreOut::GuardStop(id) => Order::GuardStop(id@),
            StoreOut::GuardInsert(id, deps) => Order::GuardInsert(id@, deps.deep_view()),
            StoreOut::StartWhenDead(id) => Order::StartWhenDead(id@),
        }
    }
}

/// The units that `u` names along `edge`; none if `u` is not loaded.
pub open spec fn named(units: Map<Seq<char>, Desc>, u: Seq<char>, edge: Edge) -> Seq<Seq<char>> {
    if units.contains_key(u) {
        match edge {
            Edge::Requires => units[u].common.deps.requires,
            Edge::Wants => units[u].common.deps.wants,
            Edge::After => units[u].common.deps.after,
            Edge::Conflicts => units[u].common.deps.conflicts,
        }
    } else {
        Seq::empty()
    }
}

/// Whether a start of `root` can pull `p` in: `p` is another unit, it is
/// loaded, and it has no guard at work.
pub open spec fn pullable(
    units: Map<Seq<char>, Desc>,
    guards: Map<Seq<char>, Guard>,
    root: Seq<char>,
    p: Seq<char>,
) -> bool {
    p != root && units.contains_key(p) && !has_live(guards, p)
}

/// Whether `p` is reached from a member of `roots` by `n + 1` steps along
/// `edge`, each of which ends in a unit that can be pulled in.
pub open spec fn reached(
    units: Map<Seq<char>, Desc>,
    guards: Map<Seq<char>, Guard>,
    root: Seq<char>,
    roots: Seq<Seq<char>>,
    edge: Edge,
    n: nat,
    p: Seq<char>,
) -> bool
    decreases n,
{
    pullable(units, guards, root, p) && if n == 0 {
        exists|r: Seq<char>| roots.contains(r) && #[trigger] named(units, r, edge).contains(p)
    } else {
        exists|q: Seq<char>|
            reached(units, guards, root, roots, edge, (n - 1) as nat, q) && #[trigger] named(
                units,
                q,
                edge,
            ).contains(p)
    }
}

/// Whether a start of `root` pulls `p` in along `edge`, beginning at
/// `roots`: `p` is reached from one of them by steps along `edge`, each of
/// which ends in a unit that can be pulled in.
pub open spec fn pulled(
    units: Map<Seq<char>, Desc>,
    guards: Map<Seq<char>, Guard>,
    root: Seq<char>,
    roots: Seq<Seq<char>>,
    edge: Edge,
    p: Seq<char>,
) -> bool {
    exists|n: nat| reached(units, guards, root, roots, edge, n, p)
}

/// Whether `wants` lists, each once, the units that a start of `root`
/// pulls in as wanted: those reached from `root` along `Wants`.
pub open spec fn is_wants_closure(
    units: Map<Seq<char>, Desc>,
    guards: Map<Seq<char>, Guard>,
    root: Seq<char>,
    wants: Seq<Seq<char>>,
) -> bool {
    &&& wants.no_duplicates()
    &&& forall|p: Seq<char>| #[trigger]
        wants.contains(p) <==> pulled(units, guards, root, seq![root], Edge::Wants, p)
}

/// Whether `needs` lists, each once, the units that a start of `root`
/// pulls in as required, beyond the wanted ones in `wants`: those reached
/// along `Requires` from `root` or from a wanted unit.
pub open spec fn is_requires_closure(
    units: Map<Seq<char>, Desc>,
    guards: Map<Seq<char>, Guard>,
    root: Seq<char>,
    wants: Seq<Seq<char>>,
    needs: Seq<Seq<char>>,
) -> bool {
    &&& needs.no_duplicates()
    &&& forall|p: Seq<char>| #[trigger]
        needs.contains(p) <==> pulled(
            units,
            guards,
            root,
            seq![root] + wants,
            Edge::Requires,
            p,
        ) && !wants.contains(p)
}

/// Whether a search that begins at `root` and leaves out `skip` takes `p`
/// in: `p` can be pulled in and is not left out.
pub open spec fn eligible(
    units: Map<Seq<char>, Desc>,
    guards: Map<Seq<char>, Guard>,
    root: Seq<char>,
    skip: Seq<Seq<char>>,
    p: Seq<char>,
) -> bool {
    pullable(units, guards, root, p) && !skip.contains(p)
}

/// `order` with the members of `from` behind it that the search takes in
/// and that are not in it yet, in the order of `from`.
pub open spec fn taken_in(
    units: Map<Seq<char>, Desc>,
    guards: Map<Seq<char>, Guard>,
    root: Seq<char>,
    skip: Seq<Seq<char>>,
    order: Seq<Seq<char>>,
    from: Seq<Seq<char>>,
) -> Seq<Seq<char>>
    decreases from.len(),
{
    if from.len() == 0 {
        order
    } else {
        let before = taken_in(units, guards, root, skip, order, from.drop_last());
        if eligible(units, guards, root, skip, from.last()) && !before.contains(from.last()) {
            before.push(from.last())
        } else {
            before
        }
    }
}

/// `order` after the search has taken in what the members of `roots` name
/// along `edge`, root by root.
pub open spec fn seeded(
    units: Map<Seq<char>, Desc>,
    guards: Map<Seq<char>, Guard>,
    root: Seq<char>,
    skip: Seq<Seq<char>>,
    edge: Edge,
    order: Seq<Seq<char>>,
    roots: Seq<Seq<char>>,
) -> Seq<Seq<char>>
    decreases roots.len(),
{
    if roots.len() == 0 {
        order
    } else {
        taken_in(
            units,
            guards,
            root,
            skip,
            seeded(units, guards, root, skip, edge, order, roots.drop_last()),
            named(units, roots.last(), edge),
        )
    }
}

/// `order` after the search has gone on from its place `i`: it takes in
/// what the unit at that place names along `edge`, then goes on from the
/// next place, until it has been at every place. It goes to no more than
/// `fuel` places.
pub open spec fn searched(
    units: Map<Seq<char>, Desc>,
    guards: Map<Seq<char>, Guard>,
    root: Seq<char>,
    skip: Seq<Seq<char>>,
    edge: Edge,
    order: Seq<Seq<char>>,
    i: nat,
    fuel: nat,
) -> Seq<Seq<char>>
    decreases fuel,
{
    if fuel == 0 || i >= order.len() {
        order
    } else {
        searched(
            units,
            guards,
            root,
            skip,
            edge,
            taken_in(units, guards, root, skip, order, named(units, order[i as int], edge)),
            i + 1,
            (fuel - 1) as nat,
        )
    }
}

/// The units that a search in breadth along `edge` finds, in the order in
/// which it finds them: it begins with what the members of `roots` name,
/// then looks at what each unit it has found names, and takes in what can
/// be pulled in, is not in `skip` and was not found before. Since it finds
/// only loaded units, each once, it needs to look no further than there are
/// loaded units.
pub open spec fn closure_of(
    units: Map<Seq<char>, Desc>,
    guards: Map<Seq<char>, Guard>,
    root: Seq<char>,
    roots: Seq<Seq<char>>,
    edge: Edge,
    skip: Seq<Seq<char>>,
) -> Seq<Seq<char>> {
    searched(
        units,
        guards,
        root,
        skip,
        edge,
        seeded(units, guards, root, skip, edge, Seq::empty(), roots),
        0,
        units.dom().len(),
    )
}

/// The units that a start of `id` pulls in as wanted, in the order in
/// which the search finds them.
pub open spec fn wants_of(
    units: Map<Seq<char>, Desc>,
    guards: Map<Seq<char>, Guard>,
    id: Seq<char>,
) -> Seq<Seq<char>> {
    closure_of(units, guards, id, seq![id], Edge::Wants, Seq::empty())
}

/// The units that a start of `id` pulls in as required, beyond the wanted
/// ones, in the order in which the search finds them.
pub open spec fn needs_of(
    units: Map<Seq<char>, Desc>,
    guards: Map<Seq<char>, Guard>,
    id: Seq<char>,
) -> Seq<Seq<char>> {
    closure_of(
        units,
        guards,
        id,
        seq![id] + wants_of(units, guards, id),
        Edge::Requires,
        wants_of(units, guards, id),
    )
}

/// The order to stop a unit.
pub open spec fn stop_order() -> spec_fn(Seq<char>) -> Order {
    |p: Seq<char>| Order::GuardStop(p)
}

/// The order to make a guard for a unit, with the lists under which it is
/// loaded.
pub open spec fn insert_order(units: Map<Seq<char>, Desc>) -> spec_fn(Seq<char>) -> Order {
    |p: Seq<char>| Order::GuardInsert(p, units[p].common.deps)
}

/// What a start of the loaded unit `id` sends out when it pulls in `wants`
/// and `needs`: a stop for each unit that `id` lists as a conflict, then a
/// guard for each wanted unit, for each required unit, and last for `id`.
pub open spec fn start_orders(
    units: Map<Seq<char>, Desc>,
    id: Seq<char>,
    wants: Seq<Seq<char>>,
    needs: Seq<Seq<char>>,
) -> Seq<Order> {
    named(units, id, Edge::Conflicts).map_values(stop_order()) + wants.map_values(
        insert_order(units),
    ) + needs.map_values(insert_order(units)) + seq![
        Order::GuardInsert(id, units[id].common.deps),
    ]
}

/// What a start of `id` sends out: nothing if `id` is not loaded, and else
/// its orders for the units that the start pulls in.
pub open spec fn start_out(
    units: Map<Seq<char>, Desc>,
    guards: Map<Seq<char>, Guard>,
    id: Seq<char>,
) -> Seq<Order> {
    if units.contains_key(id) {
        start_orders(units, id, wants_of(units, guards, id), needs_of(units, guards, id))
    } else {
        Seq::empty()
    }
}

/// What goes to the resolver when `desc` is put into the store: its lists
/// as those of a new unit, or as the new lists of a unit that was there.
pub open spec fn update_orders(units: Map<Seq<char>, Desc>, desc: Desc) -> Seq<Order> {
    let id = desc.common.name;
    if units.contains_key(id) {
        seq![Order::DepUpdate(id, units[id].common.deps, desc.common.deps)]
    } else {
        seq![Order::DepLoad(id, desc.common.deps)]
    }
}

/// What goes to the resolver when `id` is taken out of the store: if it
/// was there, that its lists are now empty.
pub open spec fn remove_orders(units: Map<Seq<char>, Desc>, id: Seq<char>) -> Seq<Order> {
    if units.contains_key(id) {
        seq![Order::DepUpdate(id, units[id].common.deps, Deps::none())]
    } else {
        seq![]
    }
}

/// Whether `ids` holds `id`.
pub fn holds(ids: &Vec<UnitId>, id: &UnitId) -> (r: bool)
    ensures
        r == ids.deep_view().contains(id@),
{
    let mut i: usize = 0;
    while i < ids.len()
        invariant
            i <= ids.len(),
            forall|j: int| 0 <= j < i ==> ids.deep_view()[j] != id@,
        decreases ids.len() - i,
    {
        if ids[i].same(id) {
            assert(ids.deep_view()[i as int] == id@);
            return true;
        }
        i += 1;
    }
    false
}

/// A sequence without repetition whose members all lie in a finite set is
/// no longer than the set is large.
proof fn lemma_distinct_within(s: Seq<Seq<char>>, within: Set<Seq<char>>)
    requires
        s.no_duplicates(),
        within.finite(),
        forall|x: Seq<char>| s.contains(x) ==> within.contains(x),
    ensures
        s.len() <= within.len(),
{
    s.unique_seq_to_set();
    assert(s.to_set().subset_of(within)) by {
        assert forall|x: Seq<char>| s.to_set().contains(x) implies within.contains(x) by {
            assert(s.contains(x));
        }
    }
    vstd::set_lib::lemma_len_subset(s.to_set(), within);
}

/// A list that holds, or has in `skip`, whatever can be pulled in by one
/// step from `roots` or from its own members, holds or has in `skip`
/// whatever is reached from `roots` at all.
proof fn lemma_closed_holds_all(
    units: Map<Seq<char>, Desc>,
    guards: Map<Seq<char>, Guard>,
    root: Seq<char>,
    roots: Seq<Seq<char>>,
    edge: Edge,
    skip: Seq<Seq<char>>,
    order: Seq<Seq<char>>,
    n: nat,
    p: Seq<char>,
)
    requires
        forall|x: Seq<char>| skip.contains(x) ==> roots.contains(x),
        forall|r: Seq<char>, x: Seq<char>|
            roots.contains(r) && #[trigger] named(units, r, edge).contains(x) && pullable(
                units,
                guards,
                root,
                x,
            ) ==> order.contains(x) || skip.contains(x),
        forall|q: Seq<char>, x: Seq<char>|
            order.contains(q) && #[trigger] named(units, q, edge).contains(x) && pullable(
                units,
                guards,
                root,
                x,
            ) ==> order.contains(x) || skip.contains(x),
        reached(units, guards, root, roots, edge, n, p),
    ensures
        order.contains(p) || skip.contains(p),
    decreases n,
{
    if n == 0 {
        let r = choose|r: Seq<char>|
            roots.contains(r) && #[trigger] named(units, r, edge).contains(p);
        assert(roots.contains(r) && named(units, r, edge).contains(p));
    } else {
        let q = choose|q: Seq<char>|
            reached(units, guards, root, roots, edge, (n - 1) as nat, q) && #[trigger] named(
                units,
                q,
                edge,
            ).contains(p);
        lemma_closed_holds_all(units, guards, root, roots, edge, skip, order, (n - 1) as nat, q);
        assert(named(units, q, edge).contains(p));
    }
}

/// Whether every member of `order` is one that the search takes in and
/// that is reached from `roots`, and none stands twice.
spec fn sound(
    units: Map<Seq<char>, Desc>,
    guards: Map<Seq<char>, Guard>,
    root: Seq<char>,
    roots: Seq<Seq<char>>,
    edge: Edge,
    skip: Seq<Seq<char>>,
    order: Seq<Seq<char>>,
) -> bool {
    &&& order.no_duplicates()
    &&& forall|j: int|
        0 <= j < order.len() ==> eligible(units, guards, root, skip, #[trigger] order[j])
            && pulled(units, guards, root, roots, edge, order[j])
}

/// Whether `order` holds whatever the search takes in of what `u` names.
spec fn covers(
    units: Map<Seq<char>, Desc>,
    guards: Map<Seq<char>, Guard>,
    root: Seq<char>,
    edge: Edge,
    skip: Seq<Seq<char>>,
    order: Seq<Seq<char>>,
    u: Seq<char>,
) -> bool {
    forall|x: Seq<char>| #[trigger]
        named(units, u, edge).contains(x) && eligible(units, guards, root, skip, x)
            ==> order.contains(x)
}

/// What taking in does: what was there stays where it was, what comes
/// behind it is taken from `from`, and all of `from` that the search takes
/// in is there.
proof fn lemma_taken_in(
    units: Map<Seq<char>, Desc>,
    guards: Map<Seq<char>, Guard>,
    root: Seq<char>,
    skip: Seq<Seq<char>>,
    order: Seq<Seq<char>>,
    from: Seq<Seq<char>>,
)
    requires
        order.no_duplicates(),
    ensures
        taken_in(units, guards, root, skip, order, from).no_duplicates(),
        order.len() <= taken_in(units, guards, root, skip, order, from).len(),
        forall|j: int|
            0 <= j < order.len() ==> #[trigger] taken_in(units, guards, root, skip, order, from)[j]
                == order[j],
        forall|j: int|
            order.len() <= j < taken_in(units, guards, root, skip, order, from).len() ==> {
                let p = #[trigger] taken_in(units, guards, root, skip, order, from)[j];
                from.contains(p) && eligible(units, guards, root, skip, p)
            },
        forall|x: Seq<char>|
            from.contains(x) && eligible(units, guards, root, skip, x) ==> #[trigger] taken_in(
                units,
                guards,
                root,
                skip,
                order,
                from,
            ).contains(x),
        forall|x: Seq<char>|
            order.contains(x) ==> #[trigger] taken_in(
                units,
                guards,
                root,
                skip,
                order,
                from,
            ).contains(x),
    decreases from.len(),
{
    let out = taken_in(units, guards, root, skip, order, from);
    if from.len() > 0 {
        let head = from.drop_last();
        let before = taken_in(units, guards, root, skip, order, head);
        lemma_taken_in(units, guards, root, skip, order, head);
        let p = from.last();
        assert forall|x: Seq<char>| head.contains(x) implies from.contains(x) by {
            let k = choose|k: int| 0 <= k < head.len() && head[k] == x;
            assert(from[k] == x);
        }
        assert(from.contains(p)) by {
            assert(from[from.len() - 1] == p);
        }
        assert forall|x: Seq<char>| before.contains(x) implies out.contains(x) by {
            let k = choose|k: int| 0 <= k < before.len() && before[k] == x;
            assert(out[k] == x);
        }
        assert forall|x: Seq<char>|
            from.contains(x) && eligible(units, guards, root, skip, x) implies out.contains(
            x,
        ) by {
            let k = choose|k: int| 0 <= k < from.len() && from[k] == x;
            if k < head.len() {
                assert(head[k] == x);
                assert(before.contains(x));
            } else if !before.contains(x) {
                assert(out[before.len() as int] == x);
            }
        }
        assert forall|x: Seq<char>| order.contains(x) implies out.contains(x) by {
            assert(before.contains(x));
        }
    } else {
        assert forall|x: Seq<char>| order.contains(x) implies out.contains(x) by {}
    }
}

/// Taking in keeps a sound order sound, if what is taken in is named by a
/// root or by a member of the order, and keeps covered what was covered.
proof fn lemma_taken_in_sound(
    units: Map<Seq<char>, Desc>,
    guards: Map<Seq<char>, Guard>,
    root: Seq<char>,
    roots: Seq<Seq<char>>,
    edge: Edge,
    skip: Seq<Seq<char>>,
    order: Seq<Seq<char>>,
    u: Seq<char>,
)
    requires
        sound(units, guards, root, roots, edge, skip, order),
        roots.contains(u) || order.contains(u),
    ensures
        sound(
            units,
            guards,
            root,
            roots,
            edge,
            skip,
            taken_in(units, guards, root, skip, order, named(units, u, edge)),
        ),
        covers(
            units,
            guards,
            root,
            edge,
            skip,
            taken_in(units, guards, root, skip, order, named(units, u, edge)),
            u,
        ),
        forall|v: Seq<char>|
            covers(units, guards, root, edge, skip, order, v) ==> covers(
                units,
                guards,
                root,
                edge,
                skip,
                taken_in(units, guards, root, skip, order, named(units, u, edge)),
                v,
            ),
{
    let from = named(units, u, edge);
    let out = taken_in(units, guards, root, skip, order, from);
    lemma_taken_in(units, guards, root, skip, order, from);
    assert forall|j: int| 0 <= j < out.len() implies eligible(
        units,
        guards,
        root,
        skip,
        #[trigger] out[j],
    ) && pulled(units, guards, root, roots, edge, out[j]) by {
        let p = out[j];
        if j < order.len() {
            assert(out[j] == order[j]);
        } else {
            assert(from.contains(p));
            if roots.contains(u) {
                assert(reached(units, guards, root, roots, edge, 0, p));
            } else {
                let k = choose|k: int| 0 <= k < order.len() && order[k] == u;
                assert(pulled(units, guards, root, roots, edge, order[k]));
                let n = choose|n: nat| reached(units, guards, root, roots, edge, n, u);
                assert(reached(units, guards, root, roots, edge, n + 1, p));
            }
        }
    }
    assert forall|v: Seq<char>|
        covers(units, guards, root, edge, skip, order, v) implies covers(
        units,
        guards,
        root,
        edge,
        skip,
        out,
        v,
    ) by {
        assert forall|x: Seq<char>| #[trigger]
            named(units, v, edge).contains(x) && eligible(
                units,
                guards,
                root,
                skip,
                x,
            ) implies out.contains(x) by {
            assert(order.contains(x));
        }
    }
}

/// The order with which a search begins is sound and covers its roots.
proof fn lemma_seeded(
    units: Map<Seq<char>, Desc>,
    guards: Map<Seq<char>, Guard>,
    root: Seq<char>,
    all: Seq<Seq<char>>,
    edge: Edge,
    skip: Seq<Seq<char>>,
    roots: Seq<Seq<char>>,
)
    requires
        forall|r: Seq<char>| roots.contains(r) ==> all.contains(r),
    ensures
        sound(
            units,
            guards,
            root,
            all,
            edge,
            skip,
            seeded(units, guards, root, skip, edge, Seq::empty(), roots),
        ),
        forall|r: Seq<char>|
            roots.contains(r) ==> covers(
                units,
                guards,
                root,
                edge,
                skip,
                seeded(units, guards, root, skip, edge, Seq::empty(), roots),
                r,
            ),
    decreases roots.len(),
{
    if roots.len() > 0 {
        let head = roots.drop_last();
        let before = seeded(units, guards, root, skip, edge, Seq::empty(), head);
        let u = roots.last();
        assert forall|r: Seq<char>| head.contains(r) implies roots.contains(r) by {
            let k = choose|k: int| 0 <= k < head.len() && head[k] == r;
            assert(roots[k] == r);
        }
        assert(roots.contains(u)) by {
            assert(roots[roots.len() - 1] == u);
        }
        lemma_seeded(units, guards, root, all, edge, skip, head);
        lemma_taken_in_sound(units, guards, root, all, edge, skip, before, u);
        let out = seeded(units, guards, root, skip, edge, Seq::empty(), roots);
        assert forall|r: Seq<char>| roots.contains(r) implies covers(
            units,
            guards,
            root,
            edge,
            skip,
            out,
            r,
        ) by {
            let k = choose|k: int| 0 <= k < roots.len() && roots[k] == r;
            if k < head.len() {
                assert(head[k] == r);
                assert(head.contains(r));
            }
        }
    }
}

/// A search that has fuel for as many places as there are loaded units
/// ends with a sound order that covers its roots and its own members.
proof fn lemma_searched(
    units: Map<Seq<char>, Desc>,
    guards: Map<Seq<char>, Guard>,
    root: Seq<char>,
    roots: Seq<Seq<char>>,
    edge: Edge,
    skip: Seq<Seq<char>>,
    order: Seq<Seq<char>>,
    i: nat,
    fuel: nat,
)
    requires
        units.dom().finite(),
        i + fuel >= units.dom().len(),
        i <= order.len(),
        sound(units, guards, root, roots, edge, skip, order),
        forall|r: Seq<char>|
            roots.contains(r) ==> covers(units, guards, root, edge, skip, order, r),
        forall|j: int|
            0 <= j < i ==> covers(units, guards, root, edge, skip, order, #[trigger] order[j]),
    ensures
        sound(
            units,
            guards,
            root,
            roots,
            edge,
            skip,
            searched(units, guards, root, skip, edge, order, i, fuel),
        ),
        forall|r: Seq<char>|
            roots.contains(r) ==> covers(
                units,
                guards,
                root,
                edge,
                skip,
                searched(units, guards, root, skip, edge, order, i, fuel),
                r,
            ),
        forall|q: Seq<char>|
            searched(units, guards, root, skip, edge, order, i, fuel).contains(q) ==> covers(
                units,
                guards,
                root,
                edge,
                skip,
                searched(units, guards, root, skip, edge, order, i, fuel),
                q,
            ),
    decreases fuel,
{
    assert forall|x: Seq<char>| order.contains(x) implies units.dom().contains(x) by {
        let k = choose|k: int| 0 <= k < order.len() && order[k] == x;
        assert(eligible(units, guards, root, skip, order[k]));
    }
    lemma_distinct_within(order, units.dom());
    if fuel == 0 || i >= order.len() {
        assert(i == order.len());
        assert forall|q: Seq<char>| order.contains(q) implies covers(
            units,
            guards,
            root,
            edge,
            skip,
            order,
            q,
        ) by {
            let k = choose|k: int| 0 <= k < order.len() && order[k] == q;
            assert(covers(units, guards, root, edge, skip, order, order[k]));
        }
    } else {
        let u = order[i as int];
        let next = taken_in(units, guards, root, skip, order, named(units, u, edge));
        assert(order.contains(u));
        lemma_taken_in_sound(units, guards, root, roots, edge, skip, order, u);
        lemma_taken_in(units, guards, root, skip, order, named(units, u, edge));
        assert forall|j: int| 0 <= j < i + 1 implies covers(
            units,
            guards,
            root,
            edge,
            skip,
            next,
            #[trigger] next[j],
        ) by {
            assert(next[j] == order[j]);
            if j < i {
                assert(covers(units, guards, root, edge, skip, order, order[j]));
            }
        }
        lemma_searched(units, guards, root, roots, edge, skip, next, i + 1, (fuel - 1) as nat);
    }
}

/// What a search in breadth finds: each once, the units that are reached
/// from its roots and are not left out.
proof fn lemma_closure_of(
    units: Map<Seq<char>, Desc>,
    guards: Map<Seq<char>, Guard>,
    root: Seq<char>,
    roots: Seq<Seq<char>>,
    edge: Edge,
    skip: Seq<Seq<char>>,
)
    requires
        units.dom().finite(),
        forall|x: Seq<char>| skip.contains(x) ==> roots.contains(x),
    ensures
        closure_of(units, guards, root, roots, edge, skip).no_duplicates(),
        forall|p: Seq<char>| #[trigger]
            closure_of(units, guards, root, roots, edge, skip).contains(p) <==> pulled(
                units,
                guards,
                root,
                roots,
                edge,
                p,
            ) && !skip.contains(p),
{
    let begun = seeded(units, guards, root, skip, edge, Seq::empty(), roots);
    let fin = closure_of(units, guards, root, roots, edge, skip);
    lemma_seeded(units, guards, root, roots, edge, skip, roots);
    lemma_searched(units, guards, root, roots, edge, skip, begun, 0, units.dom().len());
    assert forall|p: Seq<char>| #[trigger]
        fin.contains(p) <==> pulled(units, guards, root, roots, edge, p) && !skip.contains(p) by {
        if fin.contains(p) {
            let j = choose|j: int| 0 <= j < fin.len() && fin[j] == p;
            assert(eligible(units, guards, root, skip, fin[j]));
        }
        if pulled(units, guards, root, roots, edge, p) && !skip.contains(p) {
            let n = choose|n: nat| reached(units, guards, root, roots, edge, n, p);
            assert forall|r: Seq<char>, x: Seq<char>|
                roots.contains(r) && #[trigger] named(units, r, edge).contains(x) && pullable(
                    units,
                    guards,
                    root,
                    x,
                ) implies fin.contains(x) || skip.contains(x) by {
                assert(covers(units, guards, root, edge, skip, fin, r));
            }
            assert forall|q: Seq<char>, x: Seq<char>|
                fin.contains(q) && #[trigger] named(units, q, edge).contains(x) && pullable(
                    units,
                    guards,
                    root,
                    x,
                ) implies fin.contains(x) || skip.contains(x) by {
                assert(covers(units, guards, root, edge, skip, fin, q));
            }
            lemma_closed_holds_all(units, guards, root, roots, edge, skip, fin, n, p);
        }
    }
}

/// The units that a start pulls in as wanted are, each once, those that
/// are reached from the started unit along `Wants`.
pub proof fn law_wants_are_closure(
    units: Map<Seq<char>, Desc>,
    guards: Map<Seq<char>, Guard>,
    id: Seq<char>,
)
    requires
        units.dom().finite(),
    ensures
        is_wants_closure(units, guards, id, wants_of(units, guards, id)),
{
    lemma_closure_of(units, guards, id, seq![id], Edge::Wants, Seq::empty());
}

/// The units that a start pulls in as required are, each once, those that
/// are reached along `Requires` from the started unit or from a wanted
/// one, and are not wanted themselves.
pub proof fn law_needs_are_closure(
    units: Map<Seq<char>, Desc>,
    guards: Map<Seq<char>, Guard>,
    id: Seq<char>,
)
    requires
        units.dom().finite(),
    ensures
        is_requires_closure(
            units,
            guards,
            id,
            wants_of(units, guards, id),
            needs_of(units, guards, id),
        ),
{
    let wants = wants_of(units, guards, id);
    let roots = seq![id] + wants;
    assert forall|x: Seq<char>| wants.contains(x) implies roots.contains(x) by {
        let j = choose|j: int| 0 <= j < wants.len() && wants[j] == x;
        assert(roots[j + 1] == x);
    }
    lemma_closure_of(units, guards, id, roots, Edge::Requires, wants);
}

/// The description of every loaded unit.
#[derive(Debug)]
pub struct UnitStore {
    map: Table<UnitDesc>,
}

impl View for UnitStore {
    type V = Map<Seq<char>, Desc>;

    closed spec fn view(&self) -> Map<Seq<char>, Desc> {
        self.map@
    }
}

impl UnitStore {
    /// A store without units.
    pub fn new() -> (store: UnitStore)
        ensures
            store@ == Map::<Seq<char>, Desc>::empty(),
    {
        UnitStore { map: Table::new() }
    }

    /// Whether `id` is loaded.
    pub fn contains(&self, id: &UnitId) -> (r: bool)
        ensures
            r == self@.dom().contains(id@),
    {
        self.map.contains_key(id)
    }

    /// The description of `id`, if it is loaded.
    pub fn get(&self, id: &UnitId) -> (r: Option<&UnitDesc>)
        ensures
            match r {
                Some(desc) => self@.contains_key(id@) && desc.deep_view() == self@[id@],
                None => !self@.contains_key(id@),
            },
    {
        self.map.get(id)
    }

    /// The units that `id` names along `edge`; none if it is not loaded.
    fn named(&self, id: &UnitId, edge: Edge) -> (r: Option<&Vec<UnitId>>)
        ensures
            match r {
                Some(ids) => self@.contains_key(id@) && ids.deep_view() == named(self@, id@, edge),
                None => !self@.contains_key(id@),
            },
    {
        match self.map.get(id) {
            Some(desc) => Some(
                match edge {
                    Edge::Requires => &desc.common.deps.requires,
                    Edge::Wants => &desc.common.deps.wants,
                    Edge::After => &desc.common.deps.after,
                    Edge::Conflicts => &desc.common.deps.conflicts,
                },
            ),
            None => None,
        }
    }

    /// Puts behind `order` each member of `from` that the search takes in
    /// and that is not in `order` yet.
    fn pull(
        &self,
        order: &mut Vec<UnitId>,
        from: &Vec<UnitId>,
        root: &UnitId,
        skip: &Vec<UnitId>,
        guards: &GuardStore,
    )
        ensures
            final(order).deep_view() == taken_in(
                self@,
                guards@,
                root@,
                skip.deep_view(),
                old(order).deep_view(),
                from.deep_view(),
            ),
    {
        let ghost start = order.deep_view();
        let ghost src = from.deep_view();
        let mut k: usize = 0;
        assert(src.take(0) =~= Seq::<Seq<char>>::empty());
        while k < from.len()
            invariant
                k <= from.len(),
                src == from.deep_view(),
                order.deep_view() == taken_in(
                    self@,
                    guards@,
                    root@,
                    skip.deep_view(),
                    start,
                    src.take(k as int),
                ),
            decreases from.len() - k,
        {
            let p = &from[k];
            let ghost before = order.deep_view();
            proof {
                assert(src.take(k + 1).drop_last() =~= src.take(k as int));
                assert(src.take(k + 1).last() == p@);
            }
            if !p.same(root) && self.map.contains_key(p) && !guards.is_live(p) && !holds(skip, p)
                && !holds(order, p) {
                order.push(p.clone());
                assert(order.deep_view() =~= before.push(p@));
            }
            k += 1;
        }
        assert(src.take(src.len() as int) =~= src);
    }

    /// The units that a search in breadth along `edge` finds, in the order
    /// in which it finds them.
    fn closure(
        &self,
        root: &UnitId,
        roots: &Vec<UnitId>,
        edge: Edge,
        skip: &Vec<UnitId>,
        guards: &GuardStore,
    ) -> (order: Vec<UnitId>)
        ensures
            self@.dom().finite(),
            order.deep_view() == closure_of(
                self@,
                guards@,
                root@,
                roots.deep_view(),
                edge,
                skip.deep_view(),
            ),
    {
        let ghost units = self@;
        let ghost live = guards@;
        let ghost seeds = roots.deep_view();
        let ghost skipped = skip.deep_view();
        let bound = self.map.len();
        let mut order: Vec<UnitId> = Vec::new();
        let mut r: usize = 0;
        assert(order.deep_view() =~= Seq::<Seq<char>>::empty());
        assert(seeds.take(0) =~= Seq::<Seq<char>>::empty());
        while r < roots.len()
            invariant
                r <= roots.len(),
                units == self@,
                live == guards@,
                seeds == roots.deep_view(),
                skipped == skip.deep_view(),
                order.deep_view() == seeded(
                    units,
                    live,
                    root@,
                    skipped,
                    edge,
                    Seq::empty(),
                    seeds.take(r as int),
                ),
            decreases roots.len() - r,
        {
            proof {
                assert(seeds.take(r + 1).drop_last() =~= seeds.take(r as int));
                assert(seeds.take(r + 1).last() == roots[r as int]@);
            }
            match self.named(&roots[r], edge) {
                Some(ids) => {
                    self.pull(&mut order, ids, root, skip, guards);
                },
                None => {
                    assert(named(units, seeds[r as int], edge) =~= Seq::<Seq<char>>::empty());
                },
            }
            r += 1;
        }
        assert(seeds.take(seeds.len() as int) =~= seeds);
        let mut i: usize = 0;
        while i < order.len() && i < bound
            invariant
                i <= bound,
                bound == units.dom().len(),
                units == self@,
                live == guards@,
                skipped == skip.deep_view(),
                closure_of(units, live, root@, seeds, edge, skipped) == searched(
                    units,
                    live,
                    root@,
                    skipped,
                    edge,
                    order.deep_view(),
                    i as nat,
                    (bound - i) as nat,
                ),
            decreases bound - i,
        {
            let unit = order[i].clone();
            assert(unit@ == order.deep_view()[i as int]);
            match self.named(&unit, edge) {
                Some(ids) => {
                    self.pull(&mut order, ids, root, skip, guards);
                },
                None => {
                    assert(named(units, unit@, edge) =~= Seq::<Seq<char>>::empty());
                },
            }
            i += 1;
        }
        order
    }

    /// Puts the unit into the store, in place of the one of its name if
    /// there is one, and tells the resolver.
    pub fn update(&mut self, desc: UnitDesc) -> (out: Vec<StoreOut>)
        ensures
            final(self)@ == old(self)@.insert(desc.common.name@, desc.deep_view()),
            out.deep_view() == update_orders(old(self)@, desc.deep_view()),
    {
        let id = desc.id();
        let deps = desc.common.deps.dup();
        let mut out: Vec<StoreOut> = Vec::new();
        let was = match self.map.get(&id) {
            Some(found) => Some(found.common.deps.dup()),
            None => None,
        };
        let ghost order = update_orders(self@, desc.deep_view())[0];
        match was {
            Some(was) => {
                out.push(StoreOut::DepUpdate(id.clone(), was, deps));
            },
            None => {
                out.push(StoreOut::DepLoad(id.clone(), deps));
            },
        }
        assert(out.deep_view() =~= seq![order]);
        self.map.insert(id, desc);
        out
    }

    /// Puts a unit into the store. A unit of that name that is there
    /// already is replaced, as by `update`.
    pub fn load(&mut self, desc: UnitDesc) -> (out: Vec<StoreOut>)
        ensures
            final(self)@ == old(self)@.insert(desc.common.name@, desc.deep_view()),
            out.deep_view() == update_orders(old(self)@, desc.deep_view()),
    {
        self.update(desc)
    }

    /// Takes the unit out of the store and tells the resolver that it no
    /// longer names anybody. A guard that the unit has is left at work.
    pub fn remove(&mut self, id: &UnitId) -> (out: Vec<StoreOut>)
        ensures
            final(self)@ == old(self)@.remove(id@),
            out.deep_view() == remove_orders(old(self)@, id@),
    {
        let mut out: Vec<StoreOut> = Vec::new();
        match self.map.remove(id) {
            Some(desc) => {
                let ghost order = remove_orders(old(self)@, id@)[0];
                out.push(StoreOut::DepUpdate(id.clone(), desc.common.deps, UnitDeps::new()));
                assert(out.deep_view() =~= seq![order]);
            },
            None => {
                assert(out.deep_view() =~= Seq::<Order>::empty());
            },
        }
        out
    }

    /// The units that a start of `id` pulls in because they are wanted:
    /// those that are reached from `id` along `Wants`, are loaded and have
    /// no guard at work. Each stands once, in the order in which a search
    /// in breadth finds it.
    pub fn find_wants(&self, id: &UnitId, guards: &GuardStore) -> (wants: Vec<UnitId>)
        ensures
            wants.deep_view() == wants_of(self@, guards@, id@),
            is_wants_closure(self@, guards@, id@, wants.deep_view()),
    {
        let mut roots: Vec<UnitId> = Vec::new();
        roots.push(id.clone());
        assert(roots.deep_view() =~= seq![id@]);
        let skip: Vec<UnitId> = Vec::new();
        assert(skip.deep_view() =~= Seq::<Seq<char>>::empty());
        let wants = self.closure(id, &roots, Edge::Wants, &skip, guards);
        proof {
            law_wants_are_closure(self@, guards@, id@);
        }
        wants
    }

    /// The units that a start of `id` pulls in because they are required,
    /// beyond the wanted ones in `wants`: those that are reached along
    /// `Requires` from `id` or from a wanted unit, are loaded and have no
    /// guard at work. Each stands once, in the order in which a search in
    /// breadth finds it.
    pub fn find_requires(&self, id: &UnitId, wants: &Vec<UnitId>, guards: &GuardStore) -> (needs:
        Vec<UnitId>)
        ensures
            needs.deep_view() == closure_of(
                self@,
                guards@,
                id@,
                seq![id@] + wants.deep_view(),
                Edge::Requires,
                wants.deep_view(),
            ),
            is_requires_closure(self@, guards@, id@, wants.deep_view(), needs.deep_view()),
    {
        let mut roots: Vec<UnitId> = Vec::new();
        roots.push(id.clone());
        let mut i: usize = 0;
        assert(roots.deep_view() =~= seq![id@] + wants.deep_view().take(0));
        while i < wants.len()
            invariant
                i <= wants.len(),
                roots.deep_view() =~= seq![id@] + wants.deep_view().take(i as int),
            decreases wants.len() - i,
        {
            let ghost before = roots.deep_view();
            roots.push(wants[i].clone());
            assert(roots.deep_view() =~= before.push(wants.deep_view()[i as int]));
            i += 1;
        }
        assert(wants.deep_view().take(wants.len() as int) =~= wants.deep_view());
        let needs = self.closure(id, &roots, Edge::Requires, wants, guards);
        proof {
            let all = roots.deep_view();
            assert forall|x: Seq<char>| wants.deep_view().contains(x) implies all.contains(x) by {
                let j = choose|j: int| 0 <= j < wants.len() && wants.deep_view()[j] == x;
                assert(all[j + 1] == x);
            }
            lemma_closure_of(self@, guards@, id@, all, Edge::Requires, wants.deep_view());
        }
        needs
    }

    /// Puts behind `out` the order to make a guard for each of `ids`.
    fn insert_all(&self, ids: &Vec<UnitId>, out: &mut Vec<StoreOut>)
        requires
            forall|j: int|
                0 <= j < ids.len() ==> self@.contains_key(#[trigger] ids.deep_view()[j]),
        ensures
            final(out).deep_view() == old(out).deep_view() + ids.deep_view().map_values(
                insert_order(self@),
            ),
    {
        let ghost start = out.deep_view();
        let ghost make = insert_order(self@);
        let mut i: usize = 0;
        assert(out.deep_view() =~= start + ids.deep_view().take(0).map_values(make));
        while i < ids.len()
            invariant
                i <= ids.len(),
                make == insert_order(self@),
                forall|j: int|
                    0 <= j < ids.len() ==> self@.contains_key(#[trigger] ids.deep_view()[j]),
                out.deep_view() =~= start + ids.deep_view().take(i as int).map_values(make),
            decreases ids.len() - i,
        {
            let ghost before = out.deep_view();
            let p = &ids[i];
            assert(self@.contains_key(ids.deep_view()[i as int]));
            match self.map.get(p) {
                Some(desc) => {
                    out.push(StoreOut::GuardInsert(p.clone(), desc.common.deps.dup()));
                    assert(out.deep_view() =~= before.push(make(p@)));
                },
                None => {},
            }
            i += 1;
        }
        assert(ids.deep_view().take(ids.len() as int) =~= ids.deep_view());
    }

    /// What is to be done to start `id`: nothing if it is not loaded; else
    /// a stop for each unit that it lists as a conflict, then a guard for
    /// each unit that the start pulls in, the wanted ones before the
    /// required ones, and last a guard for `id` itself.
    ///
    /// The order of the guards says nothing about the order of the starts:
    /// that is the resolver's to decide.
    pub fn start(&self, id: &UnitId, guards: &GuardStore) -> (out: Vec<StoreOut>)
        ensures
            out.deep_view() == start_out(self@, guards@, id@),
    {
        let mut out: Vec<StoreOut> = Vec::new();
        let unit = match self.map.get(id) {
            Some(unit) => unit,
            None => {
                assert(out.deep_view() =~= Seq::<Order>::empty());
                return out;
            },
        };
        let wants = self.find_wants(id, guards);
        let needs = self.find_requires(id, &wants, guards);
        let conflicts = &unit.common.deps.conflicts;
        let mut i: usize = 0;
        assert(out.deep_view() =~= conflicts.deep_view().take(0).map_values(stop_order()));
        while i < conflicts.len()
            invariant
                i <= conflicts.len(),
                out.deep_view() =~= conflicts.deep_view().take(i as int).map_values(stop_order()),
            decreases conflicts.len() - i,
        {
            let ghost before = out.deep_view();
            out.push(StoreOut::GuardStop(conflicts[i].clone()));
            assert(out.deep_view() =~= before.push(stop_order()(conflicts.deep_view()[i as int])));
            i += 1;
        }
        assert(conflicts.deep_view().take(conflicts.len() as int) =~= conflicts.deep_view());
        proof {
            assert forall|j: int| 0 <= j < wants.len() implies self@.contains_key(
                #[trigger] wants.deep_view()[j],
            ) by {
                let p = wants.deep_view()[j];
                assert(wants.deep_view().contains(p));
                let n = choose|n: nat|
                    reached(self@, guards@, id@, seq![id@], Edge::Wants, n, p);
                assert(pullable(self@, guards@, id@, p));
            }
            assert forall|j: int| 0 <= j < needs.len() implies self@.contains_key(
                #[trigger] needs.deep_view()[j],
            ) by {
                let p = needs.deep_view()[j];
                assert(needs.deep_view().contains(p));
                let n = choose|n: nat|
                    reached(
                        self@,
                        guards@,
                        id@,
                        seq![id@] + wants.deep_view(),
                        Edge::Requires,
                        n,
                        p,
                    );
                assert(pullable(self@, guards@, id@, p));
            }
        }
        self.insert_all(&wants, &mut out);
        self.insert_all(&needs, &mut out);
        let ghost before = out.deep_view();
        out.push(StoreOut::GuardInsert(id.clone(), unit.common.deps.dup()));
        assert(out.deep_view() =~= before.push(Order::GuardInsert(id@, self@[id@].common.deps)));
        assert(out.deep_view() =~= start_orders(self@, id@, wants.deep_view(), needs.deep_view()));
        out
    }

    /// What is to be done to stop `id`: its guard is told to. Where it
    /// has none, the registry lets the order drop.
    pub fn stop(&self, id: &UnitId) -> (out: Vec<StoreOut>)
        ensures
            out.deep_view() == seq![Order::GuardStop(id@)],
    {
        let mut out: Vec<StoreOut> = Vec::new();
        out.push(StoreOut::GuardStop(id.clone()));
        assert(out.deep_view() =~= seq![Order::GuardStop(id@)]);
        out
    }

    /// What is to be done to restart `id`: it is stopped, and started once
    /// its state is a dead one.
    pub fn restart(&self, id: &UnitId) -> (out: Vec<StoreOut>)
        ensures
            out.deep_view() == seq![Order::GuardStop(id@), Order::StartWhenDead(id@)],
    {
        let mut out: Vec<StoreOut> = Vec::new();
        out.push(StoreOut::GuardStop(id.clone()));
        out.push(StoreOut::StartWhenDead(id.clone()));
        assert(out.deep_view() =~= seq![Order::GuardStop(id@), Order::StartWhenDead(id@)]);
        out
    }
}

/// What is reached from some roots is reached from more roots.
proof fn lemma_reached_from_more(
    units: Map<Seq<char>, Desc>,
    guards: Map<Seq<char>, Guard>,
    root: Seq<char>,
    roots: Seq<Seq<char>>,
    more: Seq<Seq<char>>,
    edge: Edge,
    n: nat,
    p: Seq<char>,
)
    requires
        forall|r: Seq<char>| roots.contains(r) ==> more.contains(r),
        reached(units, guards, root, roots, edge, n, p),
    ensures
        reached(units, guards, root, more, edge, n, p),
    decreases n,
{
    if n == 0 {
        let r = choose|r: Seq<char>|
            roots.contains(r) && #[trigger] named(units, r, edge).contains(p);
        assert(more.contains(r) && named(units, r, edge).contains(p));
    } else {
        let q = choose|q: Seq<char>|
            reached(units, guards, root, roots, edge, (n - 1) as nat, q) && #[trigger] named(
                units,
                q,
                edge,
            ).contains(p);
        lemma_reached_from_more(units, guards, root, roots, more, edge, (n - 1) as nat, q);
        assert(named(units, q, edge).contains(p));
    }
}

/// Where the orders of a start stand: a stop for each listed conflict, a
/// guard for each unit pulled in, and the guard for the unit itself last.
proof fn lemma_start_orders(
    units: Map<Seq<char>, Desc>,
    id: Seq<char>,
    wants: Seq<Seq<char>>,
    needs: Seq<Seq<char>>,
)
    ensures
        forall|c: Seq<char>|
            named(units, id, Edge::Conflicts).contains(c) ==> #[trigger] start_orders(
                units,
                id,
                wants,
                needs,
            ).contains(Order::GuardStop(c)),
        forall|p: Seq<char>|
            wants.contains(p) || needs.contains(p) ==> #[trigger] start_orders(
                units,
                id,
                wants,
                needs,
            ).contains(Order::GuardInsert(p, units[p].common.deps)),
        start_orders(units, id, wants, needs).last() == Order::GuardInsert(
            id,
            units[id].common.deps,
        ),
{
    let conflicts = named(units, id, Edge::Conflicts);
    let a = conflicts.map_values(stop_order());
    let b = wants.map_values(insert_order(units));
    let c = needs.map_values(insert_order(units));
    let all = start_orders(units, id, wants, needs);
    assert forall|x: Seq<char>| conflicts.contains(x) implies #[trigger] all.contains(
        Order::GuardStop(x),
    ) by {
        let i = choose|i: int| 0 <= i < conflicts.len() && conflicts[i] == x;
        assert(all[i] == Order::GuardStop(x));
    }
    assert forall|p: Seq<char>| wants.contains(p) || needs.contains(p) implies #[trigger] all.contains(
        Order::GuardInsert(p, units[p].common.deps),
    ) by {
        if wants.contains(p) {
            let i = choose|i: int| 0 <= i < wants.len() && wants[i] == p;
            assert(all[a.len() + i] == Order::GuardInsert(p, units[p].common.deps));
        } else {
            let i = choose|i: int| 0 <= i < needs.len() && needs[i] == p;
            assert(all[a.len() + b.len() + i] == Order::GuardInsert(p, units[p].common.deps));
        }
    }
}

/// A start pulls in what the unit requires, however far: every unit that
/// is reached from the started one along `Requires`, each step ending in a
/// loaded unit without a guard at work, gets a guard.
pub proof fn law_start_pulls_required(
    units: Map<Seq<char>, Desc>,
    guards: Map<Seq<char>, Guard>,
    id: Seq<char>,
    p: Seq<char>,
)
    requires
        units.dom().finite(),
        units.contains_key(id),
        pulled(units, guards, id, seq![id], Edge::Requires, p),
    ensures
        start_out(units, guards, id).contains(Order::GuardInsert(p, units[p].common.deps)),
{
    let wants = wants_of(units, guards, id);
    let needs = needs_of(units, guards, id);
    law_needs_are_closure(units, guards, id);
    let n = choose|n: nat| reached(units, guards, id, seq![id], Edge::Requires, n, p);
    let more = seq![id] + wants;
    assert forall|r: Seq<char>| seq![id].contains(r) implies more.contains(r) by {
        assert(more[0] == id);
    }
    lemma_reached_from_more(units, guards, id, seq![id], more, Edge::Requires, n, p);
    assert(pulled(units, guards, id, more, Edge::Requires, p));
    assert(needs.contains(p) || wants.contains(p));
    lemma_start_orders(units, id, wants, needs);
}

/// A start pulls in what the unit wants, however far: every unit that is
/// reached from the started one along `Wants`, each step ending in a loaded
/// unit without a guard at work, gets a guard.
pub proof fn law_start_pulls_wanted(
    units: Map<Seq<char>, Desc>,
    guards: Map<Seq<char>, Guard>,
    id: Seq<char>,
    p: Seq<char>,
)
    requires
        units.dom().finite(),
        units.contains_key(id),
        pulled(units, guards, id, seq![id], Edge::Wants, p),
    ensures
        start_out(units, guards, id).contains(Order::GuardInsert(p, units[p].common.deps)),
{
    law_wants_are_closure(units, guards, id);
    assert(wants_of(units, guards, id).contains(p));
    lemma_start_orders(units, id, wants_of(units, guards, id), needs_of(units, guards, id));
}

/// A start asks for a guard only for the started unit and for units that
/// are loaded and have no guard at work, and for none of them twice.
pub proof fn law_start_pulls_each_once(
    units: Map<Seq<char>, Desc>,
    guards: Map<Seq<char>, Guard>,
    id: Seq<char>,
)
    requires
        units.dom().finite(),
    ensures
        (wants_of(units, guards, id) + needs_of(units, guards, id)).no_duplicates(),
        forall|p: Seq<char>| #[trigger]
            (wants_of(units, guards, id) + needs_of(units, guards, id)).contains(p) ==> pullable(
                units,
                guards,
                id,
                p,
            ),
{
    let wants = wants_of(units, guards, id);
    let needs = needs_of(units, guards, id);
    let both = wants + needs;
    law_wants_are_closure(units, guards, id);
    law_needs_are_closure(units, guards, id);
    assert forall|i: int, j: int| 0 <= i < both.len() && 0 <= j < both.len() && i
        != j implies both[i] != both[j] by {
        if i < wants.len() && j >= wants.len() {
            assert(wants.contains(wants[i]));
            assert(needs.contains(needs[j - wants.len()]));
        }
        if j < wants.len() && i >= wants.len() {
            assert(wants.contains(wants[j]));
            assert(needs.contains(needs[i - wants.len()]));
        }
    }
    assert forall|p: Seq<char>| #[trigger] both.contains(p) implies pullable(
        units,
        guards,
        id,
        p,
    ) by {
        let k = choose|k: int| 0 <= k < both.len() && both[k] == p;
        if k < wants.len() {
            assert(wants.contains(wants[k]));
            let n = choose|n: nat| reached(units, guards, id, seq![id], Edge::Wants, n, p);
        } else {
            assert(needs.contains(needs[k - wants.len()]));
            let n = choose|n: nat|
                reached(units, guards, id, seq![id] + wants, Edge::Requires, n, p);
        }
    }
}

/// A start first has every unit stopped that the started one lists as a
/// conflict, and asks last for the guard of the started unit itself.
pub proof fn law_start_stops_conflicts(
    units: Map<Seq<char>, Desc>,
    guards: Map<Seq<char>, Guard>,
    id: Seq<char>,
    c: Seq<char>,
)
    requires
        units.contains_key(id),
        units[id].common.deps.conflicts.contains(c),
    ensures
        start_out(units, guards, id).contains(Order::GuardStop(c)),
        start_out(units, guards, id).last() == Order::GuardInsert(id, units[id].common.deps),
{
    lemma_start_orders(units, id, wants_of(units, guards, id), needs_of(units, guards, id));
}

} // verus!
