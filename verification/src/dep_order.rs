use vstd::prelude::*;
use crate::live_ptr::LiveModuleId;
use crate::live_token::TokenId;
use crate::module_table::{
    distinct_modules, find_module, has_module, lemma_position, lemma_position_is, lemma_position_none, position,
};

verus! {

/// The order after the repair for one dependency of `own`. A dependency that
/// stands behind `own` is taken out and put just in front of it, one that is
/// not in the order yet is put just in front of it, and one that stands in
/// front of it already stays where it is.
pub open spec fn repaired(
    order: Seq<(LiveModuleId, TokenId)>,
    dep: LiveModuleId,
    token: TokenId,
    own: LiveModuleId,
) -> Seq<(LiveModuleId, TokenId)> {
    match position(order, own) {
        None => order,
        Some(own_at) => match position(order, dep) {
            Some(dep_at) => if dep_at > own_at {
                order.remove(dep_at).insert(own_at, (dep, token))
            } else {
                order
            },
            None => order.insert(own_at, (dep, token)),
        },
    }
}

/// Whether module `first` stands somewhere in front of module `second`.
pub open spec fn comes_before(order: Seq<(LiveModuleId, TokenId)>, first: LiveModuleId, second: LiveModuleId) -> bool {
    exists|i: int, j: int|
        0 <= i < j < order.len() && (#[trigger] order[i]).0 == first && (#[trigger] order[j]).0 == second
}

/// Whether the order is a topological order of the edges: for every edge
/// from a module to one of its dependencies, the dependency comes first.
pub open spec fn topological(order: Seq<(LiveModuleId, TokenId)>, edges: Set<(LiveModuleId, LiveModuleId)>) -> bool {
    forall|module: LiveModuleId, dep: LiveModuleId| #[trigger]
        edges.contains((module, dep)) ==> comes_before(order, dep, module)
}

/// Repairs the order for one dependency of `own_module_id`.
pub fn repair_order(
    order: &mut Vec<(LiveModuleId, TokenId)>,
    module_id: LiveModuleId,
    token_id: TokenId,
    own_module_id: LiveModuleId,
)
    requires
        has_module(old(order)@, own_module_id),
    ensures
        final(order)@ == repaired(old(order)@, module_id, token_id, own_module_id),
{
    proof {
        lemma_position(order@, own_module_id);
        lemma_position(order@, module_id);
    }
    match find_module(order, own_module_id) {
        Some(self_index) => {
            match find_module(order, module_id) {
                Some(other_index) => {
                    if other_index > self_index {
                        order.remove(other_index);
                        order.insert(self_index, (module_id, token_id));
                    }
                },
                None => {
                    order.insert(self_index, (module_id, token_id));
                },
            }
        },
        None => {},
    }
}

/// Taking an entry out keeps the other entries in their relative order.
pub proof fn lemma_removed(order: Seq<(LiveModuleId, TokenId)>, at: int)
    requires
        distinct_modules(order),
        0 <= at < order.len(),
    ensures
        distinct_modules(order.remove(at)),
        !has_module(order.remove(at), order[at].0),
        forall|module: LiveModuleId|
            module != order[at].0 ==> (#[trigger] has_module(order.remove(at), module) <==> has_module(
                order,
                module,
            )),
        forall|module: LiveModuleId|
            has_module(order, module) && position(order, module)->0 < at ==> #[trigger] position(
                order.remove(at),
                module,
            ) == position(order, module),
        forall|module: LiveModuleId|
            has_module(order, module) && position(order, module)->0 > at ==> #[trigger] position(
                order.remove(at),
                module,
            ) == Some(position(order, module)->0 - 1),
{
    let cut = order.remove(at);
    order.remove_ensures(at);
    assert forall|i: int, j: int| 0 <= i < j < cut.len() implies (#[trigger] cut[i]).0 != (#[trigger] cut[j]).0 by {
        let from_i = if i < at { i } else { i + 1 };
        let from_j = if j < at { j } else { j + 1 };
        assert(cut[i] == order[from_i] && cut[j] == order[from_j]);
    }
    assert forall|k: int| 0 <= k < cut.len() implies (#[trigger] cut[k]).0 != order[at].0 by {
        let from_k = if k < at { k } else { k + 1 };
        assert(cut[k] == order[from_k]);
    }
    lemma_position_none(cut, order[at].0);
    assert forall|module: LiveModuleId| module != order[at].0 implies (#[trigger] has_module(cut, module)
        <==> has_module(order, module)) by {
        lemma_position(order, module);
        lemma_position(cut, module);
        if has_module(order, module) {
            let k = position(order, module)->0;
            let to_k = if k < at { k } else { k - 1 };
            assert(cut[to_k] == order[k]);
        }
        if has_module(cut, module) {
            let k = position(cut, module)->0;
            let from_k = if k < at { k } else { k + 1 };
            assert(cut[k] == order[from_k]);
        }
    }
    assert forall|module: LiveModuleId| has_module(order, module) && position(order, module)->0 != at implies (
    #[trigger] position(cut, module)) == Some(
        if position(order, module)->0 < at {
            position(order, module)->0
        } else {
            position(order, module)->0 - 1
        },
    ) by {
        lemma_position(order, module);
        let k = position(order, module)->0;
        let to_k = if k < at { k } else { k - 1 };
        assert(cut[to_k] == order[k]);
        assert forall|j: int| 0 <= j < to_k implies (#[trigger] cut[j]).0 != module by {
            let from_j = if j < at { j } else { j + 1 };
            assert(cut[j] == order[from_j]);
        }
        lemma_position_is(cut, module, to_k);
    }
}

/// Putting a new module in at an index keeps the other entries in their
/// relative order.
pub proof fn lemma_inserted(order: Seq<(LiveModuleId, TokenId)>, at: int, entry: (LiveModuleId, TokenId))
    requires
        distinct_modules(order),
        0 <= at <= order.len(),
        !has_module(order, entry.0),
    ensures
        distinct_modules(order.insert(at, entry)),
        position(order.insert(at, entry), entry.0) == Some(at),
        forall|module: LiveModuleId|
            module != entry.0 ==> (#[trigger] has_module(order.insert(at, entry), module) <==> has_module(
                order,
                module,
            )),
        forall|module: LiveModuleId|
            has_module(order, module) && position(order, module)->0 < at ==> #[trigger] position(
                order.insert(at, entry),
                module,
            ) == position(order, module),
        forall|module: LiveModuleId|
            has_module(order, module) && position(order, module)->0 >= at ==> #[trigger] position(
                order.insert(at, entry),
                module,
            ) == Some(position(order, module)->0 + 1),
{
    let after = order.insert(at, entry);
    order.insert_ensures(at, entry);
    lemma_position(order, entry.0);
    assert forall|k: int| 0 <= k < after.len() implies #[trigger] after[k] == (if k < at {
        order[k]
    } else if k == at {
        entry
    } else {
        order[k - 1]
    }) by {
        if k > at {
            assert(after[(k - 1) + 1] == order[k - 1]);
        }
    }
    assert forall|i: int, j: int| 0 <= i < j < after.len() implies (#[trigger] after[i]).0 != (
    #[trigger] after[j]).0 by {
        let from_i = if i < at { i } else { i - 1 };
        let from_j = if j < at { j } else { j - 1 };
        if i != at && j != at {
            assert(after[i] == order[from_i] && after[j] == order[from_j]);
        } else if i == at {
            assert(after[j] == order[from_j]);
        } else {
            assert(after[i] == order[from_i]);
        }
    }
    assert forall|j: int| 0 <= j < at implies (#[trigger] after[j]).0 != entry.0 by {
        assert(after[j] == order[j]);
    }
    lemma_position_is(after, entry.0, at);
    assert forall|module: LiveModuleId| module != entry.0 implies (#[trigger] has_module(after, module)
        <==> has_module(order, module)) by {
        lemma_position(order, module);
        lemma_position(after, module);
        if has_module(order, module) {
            let k = position(order, module)->0;
            let to_k = if k < at { k } else { k + 1 };
            assert(after[to_k] == order[k]);
        }
        if has_module(after, module) {
            let k = position(after, module)->0;
            let from_k = if k < at { k } else { k - 1 };
            assert(after[k] == order[from_k]);
        }
    }
    assert forall|module: LiveModuleId| has_module(order, module) implies (#[trigger] position(after, module))
        == Some(
        if position(order, module)->0 < at {
            position(order, module)->0
        } else {
            position(order, module)->0 + 1
        },
    ) by {
        lemma_position(order, module);
        let k = position(order, module)->0;
        let to_k = if k < at { k } else { k + 1 };
        assert(after[to_k] == order[k]);
        assert forall|j: int| 0 <= j < to_k implies (#[trigger] after[j]).0 != module by {
            if j != at {
                let from_j = if j < at { j } else { j - 1 };
                assert(after[j] == order[from_j]);
            }
        }
        lemma_position_is(after, module, to_k);
    }
}

/// Where distinct modules stand in an order without duplicates, one comes
/// before the other exactly when its position is the smaller one.
pub proof fn lemma_comes_before(order: Seq<(LiveModuleId, TokenId)>, first: LiveModuleId, second: LiveModuleId)
    requires
        distinct_modules(order),
    ensures
        comes_before(order, first, second) <==> (has_module(order, first) && has_module(order, second)
            && position(order, first)->0 < position(order, second)->0),
{
    lemma_position(order, first);
    lemma_position(order, second);
    if comes_before(order, first, second) {
        let (i, j) = choose|i: int, j: int|
            0 <= i < j < order.len() && (#[trigger] order[i]).0 == first && (#[trigger] order[j]).0 == second;
        assert(order[i].0 == first && order[j].0 == second);
        let p = position(order, first)->0;
        let q = position(order, second)->0;
        assert(order[p].0 == first && order[q].0 == second);
        assert(p == i) by {
            if p < i {
                assert(order[p].0 != order[i].0);
            }
        }
        assert(q == j) by {
            if q < j {
                assert(order[q].0 != order[j].0);
            }
        }
    }
    if has_module(order, first) && has_module(order, second) && position(order, first)->0 < position(
        order,
        second,
    )->0 {
        let p = position(order, first)->0;
        let q = position(order, second)->0;
        assert(order[p].0 == first && order[q].0 == second);
    }
}

/// Whether the repair for `dep` changes the order: the dependency is not in
/// the order yet, or it stands behind `own`.
pub open spec fn repair_moves(order: Seq<(LiveModuleId, TokenId)>, dep: LiveModuleId, own: LiveModuleId) -> bool {
    match position(order, dep) {
        Some(dep_at) => dep_at > position(order, own)->0,
        None => true,
    }
}

/// Where a module stands after the repair for `dep`: the dependency takes
/// the place of `own`, the entries from there up to the dependency's old
/// place move one place back, and all others stay.
pub open spec fn position_after_repair(
    order: Seq<(LiveModuleId, TokenId)>,
    dep: LiveModuleId,
    own: LiveModuleId,
    module: LiveModuleId,
) -> Option<int> {
    let own_at = position(order, own)->0;
    if !repair_moves(order, dep, own) {
        position(order, module)
    } else if module == dep {
        Some(own_at)
    } else {
        match position(order, module) {
            Some(at) => if at < own_at || (position(order, dep) is Some && at > position(order, dep)->0) {
                Some(at)
            } else {
                Some(at + 1)
            },
            None => None,
        }
    }
}

/// The repair keeps the order free of duplicates and moves the modules as
/// `position_after_repair` says.
pub proof fn lemma_repaired_positions(
    order: Seq<(LiveModuleId, TokenId)>,
    dep: LiveModuleId,
    token: TokenId,
    own: LiveModuleId,
)
    requires
        distinct_modules(order),
        has_module(order, own),
    ensures
        distinct_modules(repaired(order, dep, token, own)),
        forall|module: LiveModuleId| #[trigger]
            position(repaired(order, dep, token, own), module) == position_after_repair(order, dep, own, module),
{
    let after = repaired(order, dep, token, own);
    lemma_position(order, own);
    lemma_position(order, dep);
    let own_at = position(order, own)->0;
    match position(order, dep) {
        Some(dep_at) => {
            if dep_at > own_at {
                let cut = order.remove(dep_at);
                lemma_removed(order, dep_at);
                order.remove_ensures(dep_at);
                lemma_inserted(cut, own_at, (dep, token));
                assert forall|module: LiveModuleId| #[trigger]
                    position(after, module) == position_after_repair(order, dep, own, module) by {
                    lemma_position(order, module);
                    lemma_position(cut, module);
                    lemma_position(after, module);
                    if module != dep && has_module(order, module) {
                        assert(position(order, module)->0 != dep_at);
                    }
                }
            }
        },
        None => {
            lemma_inserted(order, own_at, (dep, token));
            assert forall|module: LiveModuleId| #[trigger]
                position(after, module) == position_after_repair(order, dep, own, module) by {
                lemma_position(order, module);
                lemma_position(after, module);
            }
        },
    }
}

/// After the repair the dependency stands in front of the module that
/// depends on it, and every module that stood in front of that module
/// still does.
pub proof fn lemma_repair_puts_dependency_first(
    order: Seq<(LiveModuleId, TokenId)>,
    dep: LiveModuleId,
    token: TokenId,
    own: LiveModuleId,
)
    requires
        distinct_modules(order),
        has_module(order, own),
    ensures
        dep != own ==> comes_before(repaired(order, dep, token, own), dep, own),
        forall|module: LiveModuleId|
            comes_before(order, module, own) ==> #[trigger] comes_before(
                repaired(order, dep, token, own),
                module,
                own,
            ),
        has_module(repaired(order, dep, token, own), own),
        forall|module: LiveModuleId|
            has_module(order, module) ==> #[trigger] has_module(repaired(order, dep, token, own), module),
{
    let after = repaired(order, dep, token, own);
    lemma_repaired_positions(order, dep, token, own);
    lemma_position(order, own);
    lemma_position(order, dep);
    assert(position(after, own) == position_after_repair(order, dep, own, own));
    assert(position(after, dep) == position_after_repair(order, dep, own, dep));
    if dep != own {
        lemma_comes_before(after, dep, own);
    }
    assert forall|module: LiveModuleId| comes_before(order, module, own) implies #[trigger] comes_before(
        after,
        module,
        own,
    ) by {
        lemma_comes_before(order, module, own);
        lemma_comes_before(after, module, own);
        assert(position(after, module) == position_after_repair(order, dep, own, module));
    }
    assert forall|module: LiveModuleId| has_module(order, module) implies #[trigger] has_module(
        after,
        module,
    ) by {
        assert(position(after, module) == position_after_repair(order, dep, own, module));
    }
}

/// The repair keeps a topological order topological when the edge from `own`
/// to `dep` joins the edges, provided that a dependency which has to move
/// from behind `own` leaves none of its own dependencies behind: they all
/// stand in front of `own` already. The rule moves the one module only, so
/// without this the moved module would come to stand in front of a module it
/// depends on.
pub proof fn lemma_repair_keeps_topological(
    order: Seq<(LiveModuleId, TokenId)>,
    edges: Set<(LiveModuleId, LiveModuleId)>,
    dep: LiveModuleId,
    token: TokenId,
    own: LiveModuleId,
)
    requires
        distinct_modules(order),
        has_module(order, own),
        dep != own,
        topological(order, edges),
        comes_before(order, own, dep) ==> forall|x: LiveModuleId| #[trigger]
            edges.contains((dep, x)) ==> comes_before(order, x, own),
    ensures
        topological(repaired(order, dep, token, own), edges.insert((own, dep))),
{
    let after = repaired(order, dep, token, own);
    lemma_repaired_positions(order, dep, token, own);
    lemma_position(order, own);
    lemma_position(order, dep);
    lemma_comes_before(order, own, dep);
    assert forall|module: LiveModuleId, d: LiveModuleId| #[trigger]
        edges.insert((own, dep)).contains((module, d)) implies comes_before(after, d, module) by {
        lemma_comes_before(after, d, module);
        assert(position(after, d) == position_after_repair(order, dep, own, d));
        assert(position(after, module) == position_after_repair(order, dep, own, module));
        if module != own || d != dep {
            assert(edges.contains((module, d)));
            lemma_comes_before(order, d, module);
            lemma_position(order, d);
            lemma_position(order, module);
            if repair_moves(order, dep, own) && module == dep {
                assert(comes_before(order, d, own));
                lemma_comes_before(order, d, own);
            }
        }
    }
}

/// Without that proviso the repair breaks the order: where the dependency
/// has to move from behind `own` and one of its own dependencies does not
/// stand in front of `own`, the repaired order is not topological.
pub proof fn lemma_repair_breaks_order(
    order: Seq<(LiveModuleId, TokenId)>,
    edges: Set<(LiveModuleId, LiveModuleId)>,
    dep: LiveModuleId,
    token: TokenId,
    own: LiveModuleId,
    behind: LiveModuleId,
)
    requires
        distinct_modules(order),
        has_module(order, own),
        dep != own,
        topological(order, edges),
        comes_before(order, own, dep),
        edges.contains((dep, behind)),
        !comes_before(order, behind, own),
    ensures
        !topological(repaired(order, dep, token, own), edges.insert((own, dep))),
{
    let after = repaired(order, dep, token, own);
    lemma_repaired_positions(order, dep, token, own);
    lemma_position(order, own);
    lemma_position(order, dep);
    lemma_position(order, behind);
    lemma_comes_before(order, own, dep);
    lemma_comes_before(order, behind, dep);
    lemma_comes_before(order, behind, own);
    lemma_comes_before(after, behind, dep);
    assert(comes_before(order, behind, dep));
    assert(position(after, dep) == position_after_repair(order, dep, own, dep));
    assert(position(after, behind) == position_after_repair(order, dep, own, behind));
    assert(!comes_before(after, behind, dep));
    assert(edges.insert((own, dep)).contains((dep, behind)));
}

} // verus!
