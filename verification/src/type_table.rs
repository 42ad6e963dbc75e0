use vstd::prelude::*;
use crate::live_node::{LiveType, LiveTypeInfo};

verus! {

/// The first index at or after `from` of the shape of the given type.
pub open spec fn type_position_from(table: Seq<LiveTypeInfo>, live_type: LiveType, from: int) -> Option<int>
    decreases table.len() - from,
{
    if from < 0 || from >= table.len() {
        None
    } else if table[from].live_type == live_type {
        Some(from)
    } else {
        type_position_from(table, live_type, from + 1)
    }
}

/// The index of the shape of the given type.
pub open spec fn type_position(table: Seq<LiveTypeInfo>, live_type: LiveType) -> Option<int> {
    type_position_from(table, live_type, 0)
}

/// `type_position_from` gives an index from `from` on that holds a shape of
/// the type, and nothing exactly when no entry from there on holds one.
pub proof fn lemma_type_position_from(table: Seq<LiveTypeInfo>, live_type: LiveType, from: int)
    requires
        0 <= from,
    ensures
        match type_position_from(table, live_type, from) {
            Some(index) => from <= index < table.len() && table[index].live_type == live_type,
            None => forall|j: int| from <= j < table.len() ==> (#[trigger] table[j]).live_type != live_type,
        },
    decreases table.len() - from,
{
    if from < table.len() && table[from].live_type != live_type {
        lemma_type_position_from(table, live_type, from + 1);
    }
}

/// The table with one more shape: in place of the shape recorded for the
/// same type, or as a new last entry.
pub open spec fn with_type(table: Seq<LiveTypeInfo>, info: LiveTypeInfo) -> Seq<LiveTypeInfo> {
    match type_position(table, info.live_type) {
        Some(index) => table.update(index, info),
        None => table.push(info),
    }
}

/// The table after the shapes of a registration were taken in, in order.
pub open spec fn merged_types(table: Seq<LiveTypeInfo>, infos: Seq<LiveTypeInfo>) -> Seq<LiveTypeInfo>
    decreases infos.len(),
{
    if infos.len() == 0 {
        table
    } else {
        with_type(merged_types(table, infos.drop_last()), infos.last())
    }
}

/// Whether a shape names the module that the table has recorded for its
/// type, if it has recorded the type.
pub open spec fn type_agrees(table: Seq<LiveTypeInfo>, info: LiveTypeInfo) -> bool {
    match type_position(table, info.live_type) {
        Some(index) => table[index].module_id == info.module_id,
        None => true,
    }
}

/// Whether each shape of a registration agrees with the table as it is when
/// the shape is taken in.
pub open spec fn types_agree(table: Seq<LiveTypeInfo>, infos: Seq<LiveTypeInfo>) -> bool
    decreases infos.len(),
{
    infos.len() == 0 || (types_agree(table, infos.drop_last()) && type_agrees(
        merged_types(table, infos.drop_last()),
        infos.last(),
    ))
}

/// Whether the table holds no two shapes of the same type.
pub open spec fn distinct_types(table: Seq<LiveTypeInfo>) -> bool {
    forall|i: int, j: int|
        0 <= i < j < table.len() ==> (#[trigger] table[i]).live_type != (#[trigger] table[j]).live_type
}

/// One more shape keeps the table free of duplicates, and keeps the types
/// that it held in their places.
pub proof fn lemma_with_type(table: Seq<LiveTypeInfo>, info: LiveTypeInfo)
    requires
        distinct_types(table),
    ensures
        distinct_types(with_type(table, info)),
        with_type(table, info).len() >= table.len(),
        forall|i: int| 0 <= i < table.len() ==> (#[trigger] with_type(table, info)[i]).live_type == table[i].live_type,
        forall|i: int|
            0 <= i < table.len() && table[i].live_type != info.live_type ==> #[trigger] with_type(table, info)[i]
                == table[i],
        forall|i: int|
            0 <= i < with_type(table, info).len() && (#[trigger] with_type(table, info)[i]).live_type
                == info.live_type ==> with_type(table, info)[i] == info,
        forall|i: int|
            table.len() <= i < with_type(table, info).len() ==> (#[trigger] with_type(table, info)[i]).live_type
                == info.live_type,
        exists|i: int| 0 <= i < with_type(table, info).len() && #[trigger] with_type(table, info)[i] == info,
{
    let after = with_type(table, info);
    lemma_type_position_from(table, info.live_type, 0);
    match type_position(table, info.live_type) {
        Some(at) => {
            assert(after[at] == info);
            assert forall|i: int, j: int| 0 <= i < j < after.len() implies (#[trigger] after[i]).live_type != (
            #[trigger] after[j]).live_type by {
                assert(after[i].live_type == table[i].live_type);
                assert(after[j].live_type == table[j].live_type);
            }
            assert forall|i: int| 0 <= i < after.len() && (#[trigger] after[i]).live_type
                == info.live_type implies after[i] == info by {
                if i != at {
                    assert(table[i].live_type != table[at].live_type);
                }
            }
        },
        None => {
            assert(after[table.len() as int] == info);
            assert forall|i: int, j: int| 0 <= i < j < after.len() implies (#[trigger] after[i]).live_type != (
            #[trigger] after[j]).live_type by {
                assert(after[i] == table[i]);
                if j < table.len() {
                    assert(after[j] == table[j]);
                }
            }
        },
    }
}

/// Taking shapes in keeps the table free of duplicates.
pub proof fn lemma_merged_types_distinct(table: Seq<LiveTypeInfo>, infos: Seq<LiveTypeInfo>)
    requires
        distinct_types(table),
    ensures
        distinct_types(merged_types(table, infos)),
    decreases infos.len(),
{
    if infos.len() > 0 {
        lemma_merged_types_distinct(table, infos.drop_last());
        lemma_with_type(merged_types(table, infos.drop_last()), infos.last());
    }
}

/// The index of the last shape of a type in a list of shapes.
pub open spec fn last_of(infos: Seq<LiveTypeInfo>, live_type: LiveType) -> Option<int>
    decreases infos.len(),
{
    if infos.len() == 0 {
        None
    } else if infos.last().live_type == live_type {
        Some(infos.len() - 1)
    } else {
        last_of(infos.drop_last(), live_type)
    }
}

/// What `last_of` gives is an index of the list that holds a shape of the type.
pub proof fn lemma_last_of(infos: Seq<LiveTypeInfo>, live_type: LiveType)
    ensures
        last_of(infos, live_type) matches Some(k) ==> 0 <= k < infos.len() && infos[k].live_type == live_type,
    decreases infos.len(),
{
    if infos.len() > 0 && infos.last().live_type != live_type {
        lemma_last_of(infos.drop_last(), live_type);
    }
}

/// What the table holds after shapes were taken in: for a type among them
/// its last shape, and for every other type what the table held before.
pub proof fn lemma_merged_types_shape(table: Seq<LiveTypeInfo>, infos: Seq<LiveTypeInfo>)
    requires
        distinct_types(table),
    ensures
        distinct_types(merged_types(table, infos)),
        merged_types(table, infos).len() >= table.len(),
        forall|i: int|
            0 <= i < table.len() ==> (#[trigger] merged_types(table, infos)[i]).live_type == table[i].live_type,
        forall|live_type: LiveType| #[trigger]
            last_of(infos, live_type) matches Some(k) ==> exists|p: int|
                0 <= p < merged_types(table, infos).len() && #[trigger] merged_types(table, infos)[p] == infos[k],
        forall|p: int|
            0 <= p < merged_types(table, infos).len() && last_of(
                infos,
                (#[trigger] merged_types(table, infos)[p]).live_type,
            ) is None ==> p < table.len() && merged_types(table, infos)[p] == table[p],
    decreases infos.len(),
{
    if infos.len() > 0 {
        let rest = infos.drop_last();
        let last = infos.last();
        let middle = merged_types(table, rest);
        let after = with_type(middle, last);
        lemma_merged_types_shape(table, rest);
        lemma_with_type(middle, last);
        assert forall|live_type: LiveType| #[trigger] last_of(infos, live_type) is Some implies exists|p: int|
            0 <= p < after.len() && #[trigger] after[p] == infos[last_of(infos, live_type)->0] by {
            if last.live_type != live_type {
                lemma_last_of(rest, live_type);
                let k = last_of(rest, live_type)->0;
                assert(rest[k] == infos[k]);
                let p = choose|p: int| 0 <= p < middle.len() && #[trigger] middle[p] == rest[k];
                assert(after[p] == middle[p]);
            }
        }
        assert forall|p: int| 0 <= p < after.len() && last_of(infos, (#[trigger] after[p]).live_type) is None implies p
            < table.len() && after[p] == table[p] by {
            assert(after[p].live_type != last.live_type);
            assert(p < middle.len());
            assert(after[p] == middle[p]);
        }
        assert forall|i: int| 0 <= i < table.len() implies (#[trigger] after[i]).live_type
            == table[i].live_type by {
            assert(middle[i].live_type == table[i].live_type);
        }
    }
}

/// Taking the same shapes in a second time changes nothing.
pub proof fn lemma_merged_types_twice(table: Seq<LiveTypeInfo>, infos: Seq<LiveTypeInfo>)
    requires
        distinct_types(table),
    ensures
        merged_types(merged_types(table, infos), infos) == merged_types(table, infos),
{
    let once = merged_types(table, infos);
    let twice = merged_types(once, infos);
    lemma_merged_types_shape(table, infos);
    lemma_merged_types_shape(once, infos);
    assert forall|p: int| 0 <= p < twice.len() implies p < once.len() && twice[p] == once[p] by {
        let live_type = twice[p].live_type;
        lemma_last_of(infos, live_type);
        match last_of(infos, live_type) {
            Some(k) => {
                let q = choose|q: int| 0 <= q < once.len() && #[trigger] once[q] == infos[k];
                let r = choose|r: int| 0 <= r < twice.len() && #[trigger] twice[r] == infos[k];
                assert(twice[q].live_type == once[q].live_type);
                if q != p {
                    if q < p {
                        assert(twice[q].live_type != twice[p].live_type);
                    } else {
                        assert(twice[p].live_type != twice[q].live_type);
                    }
                }
                if r != p {
                    if r < p {
                        assert(twice[r].live_type != twice[p].live_type);
                    } else {
                        assert(twice[p].live_type != twice[r].live_type);
                    }
                }
            },
            None => {},
        }
    }
    if twice.len() > once.len() {
        assert(twice[twice.len() - 1] == once[twice.len() - 1]);
    }
    assert(twice =~= once);
}

/// Finds the shape that the table has recorded for a type.
pub fn find_type(table: &Vec<LiveTypeInfo>, live_type: LiveType) -> (r: Option<usize>)
    ensures
        match r {
            Some(index) => type_position(table@, live_type) == Some(index as int) && index < table@.len(),
            None => type_position(table@, live_type) is None,
        },
{
    let mut index: usize = 0;
    while index < table.len()
        invariant
            type_position_from(table@, live_type, index as int) == type_position(table@, live_type),
        decreases table@.len() - index,
    {
        if table[index].live_type == live_type {
            return Some(index);
        }
        index += 1;
    }
    None
}

/// The shape that the table holds for a type after the shapes of a
/// registration were taken in: the last of them for that type, or else what
/// the table held before.
pub open spec fn recorded(table: Seq<LiveTypeInfo>, infos: Seq<LiveTypeInfo>, live_type: LiveType) -> Option<
    LiveTypeInfo,
> {
    match last_of(infos, live_type) {
        Some(k) => Some(infos[k]),
        None => match type_position(table, live_type) {
            Some(p) => Some(table[p]),
            None => None,
        },
    }
}

/// `recorded` is what the merged table holds.
pub proof fn lemma_recorded(table: Seq<LiveTypeInfo>, infos: Seq<LiveTypeInfo>, live_type: LiveType)
    requires
        distinct_types(table),
    ensures
        match type_position(merged_types(table, infos), live_type) {
            Some(p) => 0 <= p < merged_types(table, infos).len() && recorded(table, infos, live_type) == Some(
                merged_types(table, infos)[p],
            ),
            None => recorded(table, infos, live_type) is None,
        },
{
    let merged = merged_types(table, infos);
    lemma_merged_types_shape(table, infos);
    lemma_type_position_from(merged, live_type, 0);
    lemma_type_position_from(table, live_type, 0);
    lemma_last_of(infos, live_type);
    match last_of(infos, live_type) {
        Some(k) => {
            let q = choose|q: int| 0 <= q < merged.len() && #[trigger] merged[q] == infos[k];
            assert(merged[q].live_type == live_type);
            let p = type_position(merged, live_type)->0;
            if p < q {
                assert(merged[p].live_type != merged[q].live_type);
            } else if q < p {
                assert(merged[q].live_type != merged[p].live_type);
            }
        },
        None => {
            match type_position(merged, live_type) {
                Some(p) => {
                    assert(last_of(infos, merged[p].live_type) is None);
                    assert(p < table.len() && merged[p] == table[p]);
                    let at = type_position(table, live_type)->0;
                    assert(merged[at].live_type == table[at].live_type);
                    if at < p {
                        assert(merged[at].live_type != merged[p].live_type);
                    } else if p < at {
                        assert(merged[p].live_type != merged[at].live_type);
                    }
                },
                None => {
                    if type_position(table, live_type) is Some {
                        let at = type_position(table, live_type)->0;
                        assert(merged[at].live_type == table[at].live_type);
                    }
                },
            }
        },
    }
}

/// Shapes that agree with the table do so up to any point of the list.
pub proof fn lemma_types_agree_prefix(table: Seq<LiveTypeInfo>, infos: Seq<LiveTypeInfo>, end: int)
    requires
        0 <= end <= infos.len(),
        types_agree(table, infos),
    ensures
        types_agree(table, infos.take(end)),
    decreases infos.len(),
{
    if end < infos.len() {
        assert(infos.drop_last().take(end) == infos.take(end));
        lemma_types_agree_prefix(table, infos.drop_last(), end);
    } else {
        assert(infos.take(end) == infos);
    }
}

/// Finds the last shape of a type among the first `end` shapes of a list.
pub fn find_last_type(infos: &Vec<LiveTypeInfo>, live_type: LiveType, end: usize) -> (r: Option<usize>)
    requires
        end <= infos@.len(),
    ensures
        match r {
            Some(k) => last_of(infos@.take(end as int), live_type) == Some(k as int) && k < end,
            None => last_of(infos@.take(end as int), live_type) is None,
        },
{
    let mut k: usize = end;
    while k > 0
        invariant
            k <= end <= infos@.len(),
            last_of(infos@.take(k as int), live_type) == last_of(infos@.take(end as int), live_type),
        decreases k,
    {
        proof {
            assert(infos@.take(k as int).drop_last() == infos@.take(k - 1));
            assert(infos@.take(k as int).last() == infos@[k - 1]);
        }
        if infos[k - 1].live_type == live_type {
            return Some(k - 1);
        }
        k -= 1;
    }
    None
}

/// Whether each shape of a list agrees with the table as it is when the
/// shape is taken in: none names another module for a type than the one
/// recorded for it by then.
pub fn types_fit(table: &Vec<LiveTypeInfo>, infos: &Vec<LiveTypeInfo>) -> (r: bool)
    requires
        distinct_types(table@),
    ensures
        r == types_agree(table@, infos@),
{
    let mut k: usize = 0;
    while k < infos.len()
        invariant
            k <= infos@.len(),
            distinct_types(table@),
            types_agree(table@, infos@.take(k as int)),
        decreases infos@.len() - k,
    {
        let live_type = infos[k].live_type;
        let earlier = match find_last_type(infos, live_type, k) {
            Some(j) => Some(infos[j].module_id),
            None => match find_type(table, live_type) {
                Some(p) => Some(table[p].module_id),
                None => None,
            },
        };
        proof {
            let taken = infos@.take(k + 1);
            assert(taken.drop_last() == infos@.take(k as int));
            assert(taken.last() == infos@[k as int]);
            lemma_recorded(table@, infos@.take(k as int), live_type);
            lemma_last_of(infos@.take(k as int), live_type);
        }
        match earlier {
            Some(module_id) => {
                if module_id != infos[k].module_id {
                    proof {
                        if types_agree(table@, infos@) {
                            lemma_types_agree_prefix(table@, infos@, k + 1);
                        }
                    }
                    return false;
                }
            },
            None => {},
        }
        k += 1;
    }
    proof {
        assert(infos@.take(infos@.len() as int) == infos@);
    }
    true
}

} // verus!
