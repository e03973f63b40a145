//! Facts about join reconstruction, proved over the model in [`crate::join`].

use vstd::prelude::*;
use crate::join::{
    cell, cell_key, column_value, disc, distinct_present, first_present, item_models, keys_in,
    level_objects, members_with, object_of, objects_for, present, JoinError, Level, Model, Record,
    fields_of, entry_value, last_present, record_ids, lemma_objects_for_failure,
    lemma_fields_of_failure, reconstruction, all_rows, Entry,
};
use crate::quantity::Quantity;

verus! {

/// The identities seen over a prefix of the rows come first, in the same
/// order, among the identities seen over all of them.
pub proof fn lemma_keys_prefix(
    rows: Seq<Vec<Option<Record>>>,
    members: Seq<usize>,
    p: int,
    n: int,
)
    requires
        0 <= n <= members.len(),
    ensures
        keys_in(rows, members.take(n), p).len() <= keys_in(rows, members, p).len(),
        keys_in(rows, members.take(n), p) == keys_in(rows, members, p).take(
            keys_in(rows, members.take(n), p).len() as int,
        ),
    decreases members.len() - n,
{
    let all = keys_in(rows, members, p);
    if n == members.len() {
        assert(members.take(n) =~= members);
        assert(all.take(all.len() as int) =~= all);
    } else {
        assert(members.drop_last().take(n) =~= members.take(n));
        lemma_keys_prefix(rows, members.drop_last(), p, n);
        let prev = keys_in(rows, members.drop_last(), p);
        let pre = keys_in(rows, members.take(n), p);
        assert(pre == prev.take(pre.len() as int));
        assert(all.take(pre.len() as int) =~= prev.take(pre.len() as int));
    }
}

/// The objects of a level follow its identities one for one: the object at
/// place `g` is built from the rows of the `g`-th identity.
pub proof fn lemma_objects_follow_keys(
    plan: Seq<Level>,
    rows: Seq<Vec<Option<Record>>>,
    l: int,
    members: Seq<usize>,
    keys: Seq<u64>,
)
    requires
        0 <= l < plan.len(),
        objects_for(plan, rows, l, members, keys) is Ok,
    ensures
        objects_for(plan, rows, l, members, keys).unwrap().len() == keys.len(),
        forall|g: int|
            0 <= g < keys.len() ==> object_of(
                plan,
                rows,
                l,
                members_with(rows, members, disc(plan[l]), #[trigger] keys[g]),
            ) == Ok::<Model, JoinError>(objects_for(plan, rows, l, members, keys).unwrap()[g]),
    decreases keys.len(),
{
    if keys.len() > 0 {
        lemma_objects_follow_keys(plan, rows, l, members, keys.drop_last());
        let prev = objects_for(plan, rows, l, members, keys.drop_last()).unwrap();
        assert forall|g: int| 0 <= g < keys.len() implies object_of(
            plan,
            rows,
            l,
            members_with(rows, members, disc(plan[l]), #[trigger] keys[g]),
        ) == Ok::<Model, JoinError>(objects_for(plan, rows, l, members, keys).unwrap()[g]) by {
            if g < keys.len() - 1 {
                assert(keys.drop_last()[g] == keys[g]);
            }
        }
    }
}

/// Order of first appearance: at a level whose objects are built, the object
/// for an identity first seen at place `i` of the rows stands at the rank of
/// `i` among the first appearances, that is after exactly the identities seen
/// before `i`; and it is built from the rows of that identity.
pub proof fn lemma_first_appearance_order(
    plan: Seq<Level>,
    rows: Seq<Vec<Option<Record>>>,
    l: int,
    members: Seq<usize>,
    i: int,
)
    requires
        0 <= l < plan.len(),
        0 <= i < members.len(),
        cell_key(rows, members[i] as int, disc(plan[l])) is Some,
        !keys_in(rows, members.take(i), disc(plan[l])).contains(
            cell_key(rows, members[i] as int, disc(plan[l])).unwrap(),
        ),
        level_objects(plan, rows, l, members) is Ok,
    ensures
        ({
            let p = disc(plan[l]);
            let k = cell_key(rows, members[i] as int, p).unwrap();
            let rank = keys_in(rows, members.take(i), p).len() as int;
            let objects = level_objects(plan, rows, l, members).unwrap();
            &&& rank < objects.len()
            &&& keys_in(rows, members, p)[rank] == k
            &&& object_of(plan, rows, l, members_with(rows, members, p, k)) == Ok::<
                Model,
                JoinError,
            >(objects[rank])
        }),
{
    let p = disc(plan[l]);
    let k = cell_key(rows, members[i] as int, p).unwrap();
    let before = keys_in(rows, members.take(i), p);
    assert(members.take(i + 1).drop_last() =~= members.take(i));
    assert(keys_in(rows, members.take(i + 1), p) == before.push(k));
    lemma_keys_prefix(rows, members, p, i + 1);
    let all = keys_in(rows, members, p);
    assert(all.take(before.len() + 1 as int)[before.len() as int] == k);
    lemma_objects_follow_keys(plan, rows, l, members, all);
}

/// A group holds exactly the rows whose record at the discriminating
/// position has the group's identity, in their order, however rows of other
/// identities are interleaved with them.
pub proof fn lemma_group_membership(
    rows: Seq<Vec<Option<Record>>>,
    members: Seq<usize>,
    p: int,
    k: u64,
)
    ensures
        forall|m: usize|
            #[trigger] members_with(rows, members, p, k).contains(m) <==> (members.contains(m)
                && cell_key(rows, m as int, p) == Some(k)),
        forall|a: int|
            0 <= a < members_with(rows, members, p, k).len() ==> cell_key(
                rows,
                #[trigger] members_with(rows, members, p, k)[a] as int,
                p,
            ) == Some(k),
    decreases members.len(),
{
    if members.len() > 0 {
        let prev = members_with(rows, members.drop_last(), p, k);
        let cur = members_with(rows, members, p, k);
        let d = members.drop_last();
        let last = members[members.len() - 1];
        lemma_group_membership(rows, d, p, k);
        if cell_key(rows, last as int, p) == Some(k) {
            assert(cur == prev.push(last));
        } else {
            assert(cur == prev);
        }
        assert forall|m: usize| #[trigger] cur.contains(m) <==> (members.contains(m)
            && cell_key(rows, m as int, p) == Some(k)) by {
            if cur.contains(m) {
                let a = choose|a: int| 0 <= a < cur.len() && cur[a] == m;
                if a < prev.len() {
                    assert(prev[a] == m);
                    assert(prev.contains(m));
                    assert(members_with(rows, d, p, k).contains(m));
                    let b = choose|b: int| 0 <= b < d.len() && d[b] == m;
                    assert(members[b] == m);
                } else {
                    assert(members[members.len() - 1] == m);
                }
            }
            if members.contains(m) && cell_key(rows, m as int, p) == Some(k) {
                let b = choose|b: int| 0 <= b < members.len() && members[b] == m;
                if b < members.len() - 1 {
                    assert(d[b] == m);
                    assert(d.contains(m));
                    assert(members_with(rows, d, p, k).contains(m));
                    let a = choose|a: int| 0 <= a < prev.len() && prev[a] == m;
                    assert(cur[a] == m);
                } else {
                    assert(cur[cur.len() - 1] == m);
                }
            }
        }
        assert forall|a: int| 0 <= a < cur.len() implies cell_key(
            rows,
            #[trigger] cur[a] as int,
            p,
        ) == Some(k) by {
            if a < prev.len() {
                assert(cur[a] == prev[a]);
            }
        }
    }
}

/// Where the discriminating record is absent from every row, no identity is
/// seen.
proof fn lemma_absent_everywhere_no_keys(
    rows: Seq<Vec<Option<Record>>>,
    members: Seq<usize>,
    p: int,
)
    requires
        forall|i: int| 0 <= i < members.len() ==> cell(rows, #[trigger] members[i] as int, p) is None,
    ensures
        keys_in(rows, members, p) == Seq::<u64>::empty(),
        distinct_present(rows, members, p) == Seq::<Record>::empty(),
    decreases members.len(),
{
    if members.len() > 0 {
        assert(cell(rows, members[members.len() - 1] as int, p) is None);
        lemma_absent_everywhere_no_keys(rows, members.drop_last(), p);
    }
}

/// A possibly-empty list whose discriminating record is absent from every
/// row is an empty list, not a failure and not a list holding nothing: both
/// for a nested level and for a list column.
pub proof fn lemma_absent_list_is_empty(
    plan: Seq<Level>,
    rows: Seq<Vec<Option<Record>>>,
    l: int,
    members: Seq<usize>,
)
    requires
        0 <= l < plan.len(),
        forall|i: int|
            0 <= i < members.len() ==> cell(rows, #[trigger] members[i] as int, disc(plan[l])) is None,
    ensures
        present(Quantity::AtLeastZero, level_objects(plan, rows, l, members)) == Ok::<
            Model,
            JoinError,
        >(Model::List(Seq::empty())),
        column_value(rows, members, Quantity::AtLeastZero, disc(plan[l])) == Ok::<
            Model,
            JoinError,
        >(Model::List(Seq::empty())),
{
    lemma_absent_everywhere_no_keys(rows, members, disc(plan[l]));
    assert(item_models(Seq::<Record>::empty()) =~= Seq::<Model>::empty());
}

/// An `AssumeOne` column fails with `NullValue` when its record is absent
/// from every row of the group; when it is present in some row, the column
/// takes the record of the first such row.
pub proof fn lemma_assume_one_strict(rows: Seq<Vec<Option<Record>>>, members: Seq<usize>, p: int)
    ensures
        (forall|i: int| 0 <= i < members.len() ==> cell(rows, #[trigger] members[i] as int, p) is None)
            ==> column_value(rows, members, Quantity::AssumeOne, p) == Err::<Model, JoinError>(
            JoinError::NullValue,
        ),
        forall|i: int|
            0 <= i < members.len() && cell(rows, #[trigger] members[i] as int, p) is Some && (forall|
                h: int,
            |
                0 <= h < i ==> cell(rows, #[trigger] members[h] as int, p) is None) ==> column_value(
                rows,
                members,
                Quantity::AssumeOne,
                p,
            ) == Ok::<Model, JoinError>(Model::Item(cell(rows, members[i] as int, p).unwrap())),
    decreases members.len(),
{
    if members.len() > 0 {
        lemma_assume_one_strict(rows, members.drop_last(), p);
        lemma_first_present_prefix(rows, members, p);
    }
}

/// The first present record over the rows is that of the first row holding
/// one; there is none when no row holds one.
proof fn lemma_first_present_prefix(rows: Seq<Vec<Option<Record>>>, members: Seq<usize>, p: int)
    ensures
        (forall|i: int| 0 <= i < members.len() ==> cell(rows, #[trigger] members[i] as int, p) is None)
            ==> first_present(rows, members, p) is None,
        forall|i: int|
            0 <= i < members.len() && cell(rows, #[trigger] members[i] as int, p) is Some && (forall|
                h: int,
            |
                0 <= h < i ==> cell(rows, #[trigger] members[h] as int, p) is None)
                ==> first_present(rows, members, p) == cell(rows, members[i] as int, p),
    decreases members.len(),
{
    if members.len() > 0 {
        let d = members.drop_last();
        lemma_first_present_prefix(rows, d, p);
        assert forall|i: int|
            0 <= i < members.len() && cell(rows, #[trigger] members[i] as int, p) is Some && (forall|
                h: int,
            |
                0 <= h < i ==> cell(rows, #[trigger] members[h] as int, p) is None)
                implies first_present(rows, members, p) == cell(rows, members[i] as int, p) by {
            if i < members.len() - 1 {
                assert(d[i] == members[i]);
                assert forall|h: int| 0 <= h < i implies cell(rows, #[trigger] d[h] as int, p) is None by {
                    assert(d[h] == members[h]);
                }
            } else {
                assert forall|h: int| 0 <= h < d.len() implies cell(rows, #[trigger] d[h] as int, p) is None by {
                    assert(d[h] == members[h]);
                }
            }
        }
        if forall|i: int| 0 <= i < members.len() ==> cell(rows, #[trigger] members[i] as int, p) is None {
            assert forall|h: int| 0 <= h < d.len() implies cell(rows, #[trigger] d[h] as int, p) is None by {
                assert(d[h] == members[h]);
            }
            assert(cell(rows, members[members.len() - 1] as int, p) is None);
        }
    }
}

/// Whether every row of `members` is a copy of `row`.
pub open spec fn rows_all_equal(
    rows: Seq<Vec<Option<Record>>>,
    members: Seq<usize>,
    row: Vec<Option<Record>>,
) -> bool {
    forall|i: int|
        0 <= i < members.len() ==> 0 <= #[trigger] members[i] < rows.len() && rows[members[i] as int]
            == row
}

/// The record at position `p` of one row.
pub open spec fn row_cell(row: Vec<Option<Record>>, p: int) -> Option<Record> {
    if 0 <= p < row@.len() {
        row@[p]
    } else {
        None
    }
}

/// Over copies of one row, each grouping and column reads only that row.
proof fn lemma_copies_read_one_row(
    rows: Seq<Vec<Option<Record>>>,
    members: Seq<usize>,
    row: Vec<Option<Record>>,
    p: int,
)
    requires
        rows_all_equal(rows, members, row),
    ensures
        keys_in(rows, members, p) == (if members.len() > 0 && row_cell(row, p) is Some {
            seq![row_cell(row, p).unwrap().id]
        } else {
            Seq::<u64>::empty()
        }),
        forall|k: u64|
            #[trigger] members_with(rows, members, p, k) == (if row_cell(row, p) is Some
                && row_cell(row, p).unwrap().id == k {
                members
            } else {
                Seq::<usize>::empty()
            }),
        last_present(rows, members, p) == (if members.len() > 0 {
            row_cell(row, p)
        } else {
            None
        }),
        first_present(rows, members, p) == (if members.len() > 0 {
            row_cell(row, p)
        } else {
            None
        }),
        distinct_present(rows, members, p) == (if members.len() > 0 && row_cell(row, p) is Some {
            seq![row_cell(row, p).unwrap()]
        } else {
            Seq::<Record>::empty()
        }),
        members.len() > 0 ==> cell(rows, members[0] as int, p) == row_cell(row, p),
    decreases members.len(),
{
    if members.len() > 0 {
        let d = members.drop_last();
        assert(rows_all_equal(rows, d, row)) by {
            assert forall|i: int| 0 <= i < d.len() implies 0 <= #[trigger] d[i] < rows.len()
                && rows[d[i] as int] == row by {
                assert(d[i] == members[i]);
            }
        }
        lemma_copies_read_one_row(rows, d, row, p);
        let last = members[members.len() - 1];
        assert(cell(rows, last as int, p) == row_cell(row, p));
        assert(cell(rows, members[0] as int, p) == row_cell(row, p));
        assert forall|k: u64|
            #[trigger] members_with(rows, members, p, k) == (if row_cell(row, p) is Some
                && row_cell(row, p).unwrap().id == k {
                members
            } else {
                Seq::<usize>::empty()
            }) by {
            assert(members_with(rows, d, p, k) == (if row_cell(row, p) is Some
                && row_cell(row, p).unwrap().id == k {
                d
            } else {
                Seq::<usize>::empty()
            }));
            assert(d.push(last) =~= members);
        }
        if d.len() > 0 && row_cell(row, p) is Some {
            let c = row_cell(row, p).unwrap();
            assert(seq![c.id].contains(c.id)) by {
                assert(seq![c.id][0] == c.id);
            }
            assert(record_ids(seq![c])[0] == c.id);
        }
        if row_cell(row, p) is Some {
            let c = row_cell(row, p).unwrap();
            assert(Seq::<u64>::empty().push(c.id) =~= seq![c.id]);
            assert(Seq::<Record>::empty().push(c) =~= seq![c]);
        }
    }
}

/// Over two groups of copies of the same row, a column takes the same value.
proof fn lemma_copies_same_column(
    rows1: Seq<Vec<Option<Record>>>,
    members1: Seq<usize>,
    rows2: Seq<Vec<Option<Record>>>,
    members2: Seq<usize>,
    row: Vec<Option<Record>>,
    quantity: Quantity,
    p: int,
)
    requires
        rows_all_equal(rows1, members1, row),
        rows_all_equal(rows2, members2, row),
        members1.len() > 0,
        members2.len() > 0,
    ensures
        column_value(rows1, members1, quantity, p) == column_value(rows2, members2, quantity, p),
{
    lemma_copies_read_one_row(rows1, members1, row, p);
    lemma_copies_read_one_row(rows2, members2, row, p);
}

/// Over two groups of copies of the same row, a level builds the same
/// objects.
proof fn lemma_copies_same_level(
    plan: Seq<Level>,
    rows1: Seq<Vec<Option<Record>>>,
    members1: Seq<usize>,
    rows2: Seq<Vec<Option<Record>>>,
    members2: Seq<usize>,
    row: Vec<Option<Record>>,
    l: int,
)
    requires
        rows_all_equal(rows1, members1, row),
        rows_all_equal(rows2, members2, row),
        members1.len() > 0,
        members2.len() > 0,
    ensures
        level_objects(plan, rows1, l, members1) == level_objects(plan, rows2, l, members2),
    decreases plan.len() - l, 3int, 0int,
{
    if 0 <= l < plan.len() {
        let p = disc(plan[l]);
        lemma_copies_read_one_row(rows1, members1, row, p);
        lemma_copies_read_one_row(rows2, members2, row, p);
        let keys = keys_in(rows1, members1, p);
        if keys.len() > 0 {
            let k = keys[0];
            assert(members_with(rows1, members1, p, k) == members1);
            assert(members_with(rows2, members2, p, k) == members2);
            assert(keys.drop_last() =~= Seq::<u64>::empty());
            lemma_copies_same_object(plan, rows1, members1, rows2, members2, row, l);
        }
    }
}

/// Over two groups of copies of the same row, a level builds the same object.
proof fn lemma_copies_same_object(
    plan: Seq<Level>,
    rows1: Seq<Vec<Option<Record>>>,
    members1: Seq<usize>,
    rows2: Seq<Vec<Option<Record>>>,
    members2: Seq<usize>,
    row: Vec<Option<Record>>,
    l: int,
)
    requires
        rows_all_equal(rows1, members1, row),
        rows_all_equal(rows2, members2, row),
        members1.len() > 0,
        members2.len() > 0,
    ensures
        object_of(plan, rows1, l, members1) == object_of(plan, rows2, l, members2),
    decreases plan.len() - l, 2int, 0int,
{
    if 0 <= l < plan.len() {
        lemma_copies_same_fields(
            plan,
            rows1,
            members1,
            rows2,
            members2,
            row,
            l,
            plan[l].entries@.len() as int,
        );
    }
}

/// Over two groups of copies of the same row, the first `n` fields agree.
proof fn lemma_copies_same_fields(
    plan: Seq<Level>,
    rows1: Seq<Vec<Option<Record>>>,
    members1: Seq<usize>,
    rows2: Seq<Vec<Option<Record>>>,
    members2: Seq<usize>,
    row: Vec<Option<Record>>,
    l: int,
    n: int,
)
    requires
        rows_all_equal(rows1, members1, row),
        rows_all_equal(rows2, members2, row),
        members1.len() > 0,
        members2.len() > 0,
    ensures
        fields_of(plan, rows1, l, members1, n) == fields_of(plan, rows2, l, members2, n),
    decreases plan.len() - l, 1int, n,
{
    if 0 <= l < plan.len() && 0 < n <= plan[l].entries@.len() {
        lemma_copies_same_fields(plan, rows1, members1, rows2, members2, row, l, n - 1);
        lemma_copies_same_entry(
            plan,
            rows1,
            members1,
            rows2,
            members2,
            row,
            l,
            plan[l].entries@[n - 1],
        );
    }
}

/// Over two groups of copies of the same row, an entry takes the same value.
proof fn lemma_copies_same_entry(
    plan: Seq<Level>,
    rows1: Seq<Vec<Option<Record>>>,
    members1: Seq<usize>,
    rows2: Seq<Vec<Option<Record>>>,
    members2: Seq<usize>,
    row: Vec<Option<Record>>,
    l: int,
    e: Entry,
)
    requires
        rows_all_equal(rows1, members1, row),
        rows_all_equal(rows2, members2, row),
        members1.len() > 0,
        members2.len() > 0,
    ensures
        entry_value(plan, rows1, l, members1, e) == entry_value(plan, rows2, l, members2, e),
    decreases plan.len() - l, 0int, 0int,
{
    match e {
        Entry::Column { quantity, position, .. } => {
            lemma_copies_same_column(
                rows1,
                members1,
                rows2,
                members2,
                row,
                quantity,
                position as int,
            );
        },
        Entry::Nested { level, .. } => {
            if l < level < plan.len() {
                lemma_copies_same_level(plan, rows1, members1, rows2, members2, row, level as int);
            }
        },
    }
}

/// Feeding `n` copies of one row gives the same result as feeding that row
/// once: repeated rows add nothing to any list and change no single value.
pub proof fn lemma_duplicate_rows(plan: Seq<Level>, row: Vec<Option<Record>>, n: int)
    requires
        plan.len() > 0,
        n >= 1,
    ensures
        reconstruction(plan, Seq::new(n as nat, |i: int| row)) == reconstruction(plan, seq![row]),
{
    let rows1 = Seq::new(n as nat, |i: int| row);
    let rows2 = seq![row];
    assert(rows_all_equal(rows1, all_rows(n), row));
    assert(rows_all_equal(rows2, all_rows(1), row));
    assert(rows2.len() == 1);
    lemma_copies_same_level(plan, rows1, all_rows(n), rows2, all_rows(1), row, 0);
}

/// At any level, an object fails as soon as one of its entries fails: no
/// partial object is built.
pub proof fn lemma_entry_failure_fails_object(
    plan: Seq<Level>,
    rows: Seq<Vec<Option<Record>>>,
    l: int,
    group: Seq<usize>,
    j: int,
)
    requires
        0 <= l < plan.len(),
        0 <= j < plan[l].entries@.len(),
        entry_value(plan, rows, l, group, plan[l].entries@[j]) is Err,
    ensures
        object_of(plan, rows, l, group) is Err,
{
    assert(fields_of(plan, rows, l, group, j + 1) is Err);
    lemma_fields_of_failure(plan, rows, l, group, j + 1, plan[l].entries@.len() as int);
}

/// At any level, an `AssumeOne` column whose record is absent from every row
/// of an object's group makes that object fail.
pub proof fn lemma_assume_one_fails_object(
    plan: Seq<Level>,
    rows: Seq<Vec<Option<Record>>>,
    l: int,
    group: Seq<usize>,
    j: int,
    p: int,
)
    requires
        0 <= l < plan.len(),
        0 <= j < plan[l].entries@.len(),
        plan[l].entries@[j] matches Entry::Column { quantity: Quantity::AssumeOne, position, .. }
            && position == p,
        forall|i: int| 0 <= i < group.len() ==> cell(rows, #[trigger] group[i] as int, p) is None,
    ensures
        column_value(rows, group, Quantity::AssumeOne, p) == Err::<Model, JoinError>(
            JoinError::NullValue,
        ),
        object_of(plan, rows, l, group) is Err,
{
    lemma_assume_one_strict(rows, group, p);
    lemma_entry_failure_fails_object(plan, rows, l, group, j);
}

/// A level fails as soon as the object of one of its identities fails.
pub proof fn lemma_object_failure_fails_level(
    plan: Seq<Level>,
    rows: Seq<Vec<Option<Record>>>,
    l: int,
    members: Seq<usize>,
    g: int,
)
    requires
        0 <= l < plan.len(),
        0 <= g < keys_in(rows, members, disc(plan[l])).len(),
        object_of(
            plan,
            rows,
            l,
            members_with(
                rows,
                members,
                disc(plan[l]),
                keys_in(rows, members, disc(plan[l]))[g],
            ),
        ) is Err,
    ensures
        level_objects(plan, rows, l, members) is Err,
{
    let keys = keys_in(rows, members, disc(plan[l]));
    assert(keys.take(g + 1).drop_last() =~= keys.take(g));
    assert(keys.take(g + 1).last() == keys[g]);
    assert(objects_for(plan, rows, l, members, keys.take(g + 1)) is Err);
    lemma_objects_for_failure(plan, rows, l, members, keys, g + 1);
}

/// A failing nested level makes the object that holds it fail, so a failure
/// at any depth reaches the root and the whole reconstruction fails.
pub proof fn lemma_nested_failure_fails_parent(
    plan: Seq<Level>,
    rows: Seq<Vec<Option<Record>>>,
    l: int,
    group: Seq<usize>,
    j: int,
)
    requires
        0 <= l < plan.len(),
        0 <= j < plan[l].entries@.len(),
        plan[l].entries@[j] matches Entry::Nested { level, .. } && l < level < plan.len()
            && level_objects(plan, rows, level as int, group) is Err,
    ensures
        object_of(plan, rows, l, group) is Err,
{
    lemma_entry_failure_fails_object(plan, rows, l, group, j);
}

/// A failing root level fails the whole reconstruction.
pub proof fn lemma_root_failure_fails_reconstruction(
    plan: Seq<Level>,
    rows: Seq<Vec<Option<Record>>>,
)
    requires
        plan.len() > 0,
        level_objects(plan, rows, 0, all_rows(rows.len() as int)) is Err,
    ensures
        reconstruction(plan, rows) is Err,
{
}

/// An `AssumeOne` column of the root level whose record is absent from every
/// row makes the whole reconstruction fail, as soon as the root builds any
/// object: no partial result comes back.
pub proof fn lemma_assume_one_fails_reconstruction(
    plan: Seq<Level>,
    rows: Seq<Vec<Option<Record>>>,
    j: int,
    p: int,
)
    requires
        plan.len() > 0,
        0 <= j < plan[0].entries@.len(),
        plan[0].entries@[j] matches Entry::Column { quantity: Quantity::AssumeOne, position, .. }
            && position == p,
        forall|r: int| 0 <= r < rows.len() ==> #[trigger] cell(rows, r, p) is None,
        keys_in(rows, all_rows(rows.len() as int), disc(plan[0])).len() > 0,
    ensures
        reconstruction(plan, rows) is Err,
{
    let members = all_rows(rows.len() as int);
    let keys = keys_in(rows, members, disc(plan[0]));
    let group = members_with(rows, members, disc(plan[0]), keys[0]);
    assert forall|i: int| 0 <= i < group.len() implies cell(rows, #[trigger] group[i] as int, p)
        is None by {
        let r = group[i] as int;
        if 0 <= r < rows.len() {
            assert(cell(rows, r, p) is None);
        }
    }
    lemma_assume_one_fails_object(plan, rows, 0, group, j, p);
    lemma_object_failure_fails_level(plan, rows, 0, members, 0);
    lemma_root_failure_fails_reconstruction(plan, rows);
}

/// Attribution across two levels: the rows of the child with identity `k2`
/// inside the parent with identity `k1` are exactly the rows whose record at
/// the parent's position has identity `k1` and whose record at the child's
/// position has identity `k2`, in their order, however rows of other parents
/// and other children are interleaved with them. Applied once more, the same
/// holds for grandchildren.
pub proof fn lemma_nested_attribution(
    rows: Seq<Vec<Option<Record>>>,
    members: Seq<usize>,
    p1: int,
    k1: u64,
    p2: int,
    k2: u64,
)
    ensures
        forall|m: usize|
            #[trigger] members_with(rows, members_with(rows, members, p1, k1), p2, k2).contains(m)
                <==> (members.contains(m) && cell_key(rows, m as int, p1) == Some(k1) && cell_key(
                rows,
                m as int,
                p2,
            ) == Some(k2)),
{
    lemma_group_membership(rows, members, p1, k1);
    lemma_group_membership(rows, members_with(rows, members, p1, k1), p2, k2);
}

/// The folds over the rows of a group read them one after the other: a
/// common tail keeps equal results equal, and a group of concatenated rows is
/// the concatenation of the groups.
proof fn lemma_folds_over_tail(
    rows: Seq<Vec<Option<Record>>>,
    a1: Seq<usize>,
    a2: Seq<usize>,
    b: Seq<usize>,
    p: int,
)
    ensures
        keys_in(rows, a1, p) == keys_in(rows, a2, p) ==> keys_in(rows, a1 + b, p) == keys_in(
            rows,
            a2 + b,
            p,
        ),
        last_present(rows, a1, p) == last_present(rows, a2, p) ==> last_present(rows, a1 + b, p)
            == last_present(rows, a2 + b, p),
        first_present(rows, a1, p) == first_present(rows, a2, p) ==> first_present(
            rows,
            a1 + b,
            p,
        ) == first_present(rows, a2 + b, p),
        distinct_present(rows, a1, p) == distinct_present(rows, a2, p) ==> distinct_present(
            rows,
            a1 + b,
            p,
        ) == distinct_present(rows, a2 + b, p),
        forall|k: u64|
            #[trigger] members_with(rows, a1 + b, p, k) == members_with(rows, a1, p, k)
                + members_with(rows, b, p, k),
    decreases b.len(),
{
    if b.len() == 0 {
        assert(a1 + b =~= a1);
        assert(a2 + b =~= a2);
        assert forall|k: u64| #[trigger] members_with(rows, a1 + b, p, k) == members_with(rows, a1, p, k)
            + members_with(rows, b, p, k) by {
            assert(members_with(rows, a1, p, k) + Seq::<usize>::empty() =~= members_with(rows, a1, p, k));
        }
    } else {
        lemma_folds_over_tail(rows, a1, a2, b.drop_last(), p);
        assert((a1 + b).drop_last() =~= a1 + b.drop_last());
        assert((a2 + b).drop_last() =~= a2 + b.drop_last());
        assert((a1 + b).last() == b.last());
        assert((a2 + b).last() == b.last());
        assert forall|k: u64| #[trigger] members_with(rows, a1 + b, p, k) == members_with(rows, a1, p, k)
            + members_with(rows, b, p, k) by {
            let x = members_with(rows, a1, p, k);
            let y = members_with(rows, b.drop_last(), p, k);
            assert(members_with(rows, a1 + b.drop_last(), p, k) == x + y);
            assert((x + y).push(b.last()) =~= x + y.push(b.last()));
        }
    }
}

/// `members` with the rows at places `i` and `i + 1` exchanged.
pub open spec fn swap_adjacent(members: Seq<usize>, i: int) -> Seq<usize> {
    members.update(i, members[i + 1]).update(i + 1, members[i])
}

/// Whether exchanging the adjacent rows `x` then `y`, seen after the rows
/// `before`, leaves level `l` unchanged: either their identities at the
/// level's position differ and each was seen before (or is absent), or they
/// share an identity, agree on every column of the level, and the exchange
/// leaves every nested level unchanged inside their group.
pub open spec fn swap_harmless(
    plan: Seq<Level>,
    rows: Seq<Vec<Option<Record>>>,
    l: int,
    x: usize,
    y: usize,
    before: Seq<usize>,
) -> bool
    decreases plan.len() - l, 1int,
{
    if 0 <= l < plan.len() {
        let p = disc(plan[l]);
        let kx = cell_key(rows, x as int, p);
        let ky = cell_key(rows, y as int, p);
        if kx != ky {
            &&& (kx is None || keys_in(rows, before, p).contains(kx.unwrap()))
            &&& (ky is None || keys_in(rows, before, p).contains(ky.unwrap()))
        } else if kx is None {
            true
        } else {
            forall|j: int|
                0 <= j < plan[l].entries@.len() ==> entry_swap_harmless(
                    plan,
                    rows,
                    l,
                    #[trigger] plan[l].entries@[j],
                    x,
                    y,
                    members_with(rows, before, p, kx.unwrap()),
                )
        }
    } else {
        true
    }
}

/// Whether exchanging the adjacent rows `x` then `y` leaves one entry of
/// level `l` unchanged.
pub open spec fn entry_swap_harmless(
    plan: Seq<Level>,
    rows: Seq<Vec<Option<Record>>>,
    l: int,
    e: Entry,
    x: usize,
    y: usize,
    before: Seq<usize>,
) -> bool
    decreases plan.len() - l, 0int,
{
    match e {
        Entry::Column { position, .. } => cell(rows, x as int, position as int) == cell(
            rows,
            y as int,
            position as int,
        ),
        Entry::Nested { level, .. } => l < level < plan.len() ==> swap_harmless(
            plan,
            rows,
            level as int,
            x,
            y,
            before,
        ),
    }
}

/// Two rows, in order.
pub open spec fn pair(x: usize, y: usize) -> Seq<usize> {
    seq![x, y]
}

/// The two rows `x`, `y` read after `pre`, against `y`, `x`.
proof fn lemma_swap_block(
    rows: Seq<Vec<Option<Record>>>,
    pre: Seq<usize>,
    x: usize,
    y: usize,
    p: int,
)
    ensures
        cell_key(rows, x as int, p) == cell_key(rows, y as int, p) ==> keys_in(
            rows,
            pre + pair(x, y),
            p,
        ) == keys_in(rows, pre + pair(y, x), p),
        cell_key(rows, x as int, p) != cell_key(rows, y as int, p) && (cell_key(
            rows,
            x as int,
            p,
        ) is None || keys_in(rows, pre, p).contains(cell_key(rows, x as int, p).unwrap())) && (
        cell_key(rows, y as int, p) is None || keys_in(rows, pre, p).contains(
            cell_key(rows, y as int, p).unwrap(),
        )) ==> keys_in(rows, pre + pair(x, y), p) == keys_in(rows, pre + pair(y, x), p),
        forall|k: u64|
            cell_key(rows, x as int, p) != Some(k) && cell_key(rows, y as int, p) != Some(k)
                ==> #[trigger] members_with(rows, pair(x, y), p, k) == Seq::<usize>::empty(),
        forall|k: u64|
            cell_key(rows, x as int, p) != cell_key(rows, y as int, p) ==> #[trigger] members_with(
                rows,
                pair(x, y),
                p,
                k,
            ) == members_with(rows, pair(y, x), p, k),
        forall|k: u64|
            cell_key(rows, x as int, p) == Some(k) && cell_key(rows, y as int, p) == Some(k)
                ==> #[trigger] members_with(rows, pair(x, y), p, k) == pair(x, y)
                && members_with(rows, pair(y, x), p, k) == pair(y, x),
        cell(rows, x as int, p) == cell(rows, y as int, p) ==> last_present(
            rows,
            pre + pair(x, y),
            p,
        ) == last_present(rows, pre + pair(y, x), p) && first_present(rows, pre + pair(x, y), p)
            == first_present(rows, pre + pair(y, x), p) && distinct_present(
            rows,
            pre + pair(x, y),
            p,
        ) == distinct_present(rows, pre + pair(y, x), p),
{
    reveal_with_fuel(keys_in, 3);
    reveal_with_fuel(members_with, 3);
    reveal_with_fuel(last_present, 3);
    reveal_with_fuel(first_present, 3);
    reveal_with_fuel(distinct_present, 3);
    assert(pair(x, y) == seq![x, y]);
    assert(pair(y, x) == seq![y, x]);
    let a = pre + pair(x, y);
    let b = pre + pair(y, x);
    assert(a.drop_last() =~= pre.push(x));
    assert(b.drop_last() =~= pre.push(y));
    assert(pre.push(x).drop_last() =~= pre);
    assert(pre.push(y).drop_last() =~= pre);
    assert(a.last() == y);
    assert(b.last() == x);
    assert(pair(x, y).drop_last() =~= seq![x]);
    assert(pair(y, x).drop_last() =~= seq![y]);
    assert(seq![x].drop_last() =~= Seq::<usize>::empty());
    assert(seq![y].drop_last() =~= Seq::<usize>::empty());
    let ks = keys_in(rows, pre, p);
    if cell_key(rows, x as int, p) == cell_key(rows, y as int, p) {
        if cell_key(rows, x as int, p) is Some {
            let k = cell_key(rows, x as int, p).unwrap();
            if !ks.contains(k) {
                assert(ks.push(k).contains(k)) by {
                    assert(ks.push(k)[ks.len() as int] == k);
                }
            }
        }
    }
    assert forall|k: u64|
        cell_key(rows, x as int, p) == Some(k) && cell_key(rows, y as int, p) == Some(k)
            implies #[trigger] members_with(rows, pair(x, y), p, k) == pair(x, y)
            && members_with(rows, pair(y, x), p, k) == pair(y, x) by {
        assert(Seq::<usize>::empty().push(x).push(y) =~= pair(x, y));
        assert(Seq::<usize>::empty().push(y).push(x) =~= pair(y, x));
    }
    assert forall|k: u64|
        cell_key(rows, x as int, p) != cell_key(rows, y as int, p) implies #[trigger] members_with(
            rows,
            pair(x, y),
            p,
            k,
        ) == members_with(rows, pair(y, x), p, k) by {
        assert(Seq::<usize>::empty().push(x) =~= seq![x]);
        assert(Seq::<usize>::empty().push(y) =~= seq![y]);
    }
    if cell(rows, x as int, p) == cell(rows, y as int, p) {
        let d = distinct_present(rows, pre, p);
        if cell(rows, x as int, p) is Some {
            let c = cell(rows, x as int, p).unwrap();
            if !record_ids(d).contains(c.id) {
                assert(record_ids(d.push(c)) =~= record_ids(d).push(c.id));
                assert(record_ids(d.push(c))[d.len() as int] == c.id);
            }
        }
    }
}

/// A sequence of rows split around two adjacent places, before and after
/// exchanging them.
proof fn lemma_swap_split(m: Seq<usize>, i: int)
    requires
        0 <= i,
        i + 1 < m.len(),
    ensures
        m == m.take(i) + pair(m[i], m[i + 1]) + m.skip(i + 2),
        swap_adjacent(m, i) == m.take(i) + pair(m[i + 1], m[i]) + m.skip(i + 2),
        swap_adjacent(m, i).len() == m.len(),
{
    assert(m =~= m.take(i) + pair(m[i], m[i + 1]) + m.skip(i + 2));
    assert(swap_adjacent(m, i) =~= m.take(i) + pair(m[i + 1], m[i]) + m.skip(i + 2));
}

/// Exchanging two adjacent rows that agree on a column leaves the column's
/// value unchanged.
proof fn lemma_swap_column(
    rows: Seq<Vec<Option<Record>>>,
    m: Seq<usize>,
    i: int,
    quantity: Quantity,
    p: int,
)
    requires
        0 <= i,
        i + 1 < m.len(),
        cell(rows, m[i] as int, p) == cell(rows, m[i + 1] as int, p),
    ensures
        column_value(rows, m, quantity, p) == column_value(rows, swap_adjacent(m, i), quantity, p),
{
    let pre = m.take(i);
    let post = m.skip(i + 2);
    lemma_swap_split(m, i);
    lemma_swap_block(rows, pre, m[i], m[i + 1], p);
    lemma_folds_over_tail(rows, pre + pair(m[i], m[i + 1]), pre + pair(m[i + 1], m[i]), post, p);
    if i > 0 {
        assert(swap_adjacent(m, i)[0] == m[0]);
    }
}

/// Exchanging two adjacent rows as [`swap_harmless`] allows leaves the
/// objects of level `l` unchanged.
pub proof fn lemma_swap_level(
    plan: Seq<Level>,
    rows: Seq<Vec<Option<Record>>>,
    l: int,
    m: Seq<usize>,
    i: int,
)
    requires
        0 <= i,
        i + 1 < m.len(),
        swap_harmless(plan, rows, l, m[i], m[i + 1], m.take(i)),
    ensures
        level_objects(plan, rows, l, m) == level_objects(plan, rows, l, swap_adjacent(m, i)),
    decreases plan.len() - l, 4int, 0int,
{
    if 0 <= l < plan.len() {
        let p = disc(plan[l]);
        let pre = m.take(i);
        let post = m.skip(i + 2);
        lemma_swap_split(m, i);
        lemma_swap_block(rows, pre, m[i], m[i + 1], p);
        lemma_folds_over_tail(rows, pre + pair(m[i], m[i + 1]), pre + pair(m[i + 1], m[i]), post, p);
        let keys = keys_in(rows, m, p);
        lemma_swap_objects_for(plan, rows, l, m, i, keys);
    }
}

/// The objects for any identities agree before and after the exchange.
proof fn lemma_swap_objects_for(
    plan: Seq<Level>,
    rows: Seq<Vec<Option<Record>>>,
    l: int,
    m: Seq<usize>,
    i: int,
    keys: Seq<u64>,
)
    requires
        0 <= l < plan.len(),
        0 <= i,
        i + 1 < m.len(),
        swap_harmless(plan, rows, l, m[i], m[i + 1], m.take(i)),
    ensures
        objects_for(plan, rows, l, m, keys) == objects_for(
            plan,
            rows,
            l,
            swap_adjacent(m, i),
            keys,
        ),
    decreases plan.len() - l, 3int, keys.len(),
{
    if keys.len() > 0 {
        lemma_swap_objects_for(plan, rows, l, m, i, keys.drop_last());
        let p = disc(plan[l]);
        let k = keys.last();
        let x = m[i];
        let y = m[i + 1];
        let pre = m.take(i);
        let post = m.skip(i + 2);
        let m2 = swap_adjacent(m, i);
        lemma_swap_split(m, i);
        lemma_swap_block(rows, pre, x, y, p);
        lemma_swap_block(rows, pre, y, x, p);
        lemma_folds_over_tail(rows, pre, pre, pair(x, y), p);
        lemma_folds_over_tail(rows, pre, pre, pair(y, x), p);
        lemma_folds_over_tail(rows, pre + pair(x, y), pre + pair(y, x), post, p);
        lemma_folds_over_tail(rows, pre + pair(y, x), pre, post, p);
        let a = members_with(rows, pre, p, k);
        let b = members_with(rows, post, p, k);
        let g = members_with(rows, m, p, k);
        let g2 = members_with(rows, m2, p, k);
        assert(g == a + members_with(rows, pair(x, y), p, k) + b);
        assert(g2 == a + members_with(rows, pair(y, x), p, k) + b);
        if cell_key(rows, x as int, p) == Some(k) && cell_key(rows, y as int, p) == Some(k) {
            let j = a.len() as int;
            assert(g =~= a + pair(x, y) + b);
            assert(g2 =~= a + pair(y, x) + b);
            assert(g[j] == x && g[j + 1] == y);
            assert(g.take(j) =~= a);
            assert(g2 =~= swap_adjacent(g, j));
            assert forall|e: int| 0 <= e < plan[l].entries@.len() implies entry_swap_harmless(
                plan,
                rows,
                l,
                #[trigger] plan[l].entries@[e],
                g[j],
                g[j + 1],
                g.take(j),
            ) by {
                assert(entry_swap_harmless(plan, rows, l, plan[l].entries@[e], x, y, a));
            }
            lemma_swap_object(plan, rows, l, g, j);
        } else {
            if cell_key(rows, x as int, p) == cell_key(rows, y as int, p) {
                assert(members_with(rows, pair(x, y), p, k) == Seq::<usize>::empty());
                assert(members_with(rows, pair(y, x), p, k) == Seq::<usize>::empty());
            }
            assert(g == g2);
        }
    }
}

/// The object of one group agrees before and after the exchange.
proof fn lemma_swap_object(
    plan: Seq<Level>,
    rows: Seq<Vec<Option<Record>>>,
    l: int,
    g: Seq<usize>,
    j: int,
)
    requires
        0 <= l < plan.len(),
        0 <= j,
        j + 1 < g.len(),
        forall|e: int|
            0 <= e < plan[l].entries@.len() ==> entry_swap_harmless(
                plan,
                rows,
                l,
                #[trigger] plan[l].entries@[e],
                g[j],
                g[j + 1],
                g.take(j),
            ),
    ensures
        object_of(plan, rows, l, g) == object_of(plan, rows, l, swap_adjacent(g, j)),
    decreases plan.len() - l, 2int, 0int,
{
    lemma_swap_fields(plan, rows, l, g, j, plan[l].entries@.len() as int);
}

/// The first `n` fields of one group agree before and after the exchange.
proof fn lemma_swap_fields(
    plan: Seq<Level>,
    rows: Seq<Vec<Option<Record>>>,
    l: int,
    g: Seq<usize>,
    j: int,
    n: int,
)
    requires
        0 <= l < plan.len(),
        0 <= j,
        j + 1 < g.len(),
        forall|e: int|
            0 <= e < plan[l].entries@.len() ==> entry_swap_harmless(
                plan,
                rows,
                l,
                #[trigger] plan[l].entries@[e],
                g[j],
                g[j + 1],
                g.take(j),
            ),
    ensures
        fields_of(plan, rows, l, g, n) == fields_of(plan, rows, l, swap_adjacent(g, j), n),
    decreases plan.len() - l, 1int, n,
{
    if 0 < n <= plan[l].entries@.len() {
        lemma_swap_fields(plan, rows, l, g, j, n - 1);
        lemma_swap_entry(plan, rows, l, g, j, plan[l].entries@[n - 1]);
    }
}

/// One entry of one group agrees before and after the exchange.
proof fn lemma_swap_entry(
    plan: Seq<Level>,
    rows: Seq<Vec<Option<Record>>>,
    l: int,
    g: Seq<usize>,
    j: int,
    e: Entry,
)
    requires
        0 <= l < plan.len(),
        0 <= j,
        j + 1 < g.len(),
        entry_swap_harmless(plan, rows, l, e, g[j], g[j + 1], g.take(j)),
    ensures
        entry_value(plan, rows, l, g, e) == entry_value(plan, rows, l, swap_adjacent(g, j), e),
    decreases plan.len() - l, 0int, 0int,
{
    match e {
        Entry::Column { quantity, position, .. } => {
            lemma_swap_column(rows, g, j, quantity, position as int);
        },
        Entry::Nested { level, .. } => {
            if l < level < plan.len() {
                lemma_swap_level(plan, rows, level as int, g, j);
            }
        },
    }
}

/// Reading the input rows with two adjacent ones exchanged, where
/// [`swap_harmless`] allows it, gives the same reconstruction.
proof fn lemma_reading_order(plan: Seq<Level>, rows: Seq<Vec<Option<Record>>>, i: int)
    requires
        plan.len() > 0,
        0 <= i,
        i + 1 < rows.len(),
        swap_harmless(plan, rows, 0, i as usize, (i + 1) as usize, all_rows(i)),
    ensures
        reconstruction(plan, rows) == present(
            plan[0].quantity,
            level_objects(plan, rows, 0, swap_adjacent(all_rows(rows.len() as int), i)),
        ),
{
    let m = all_rows(rows.len() as int);
    assert(m.take(i) =~= all_rows(i));
    lemma_swap_level(plan, rows, 0, m, i);
}

/// Whether the rows `m1` of `rows1` read, one for one, the same records as
/// the rows `m2` of `rows2`.
pub open spec fn same_reading(
    rows1: Seq<Vec<Option<Record>>>,
    m1: Seq<usize>,
    rows2: Seq<Vec<Option<Record>>>,
    m2: Seq<usize>,
) -> bool {
    &&& m1.len() == m2.len()
    &&& forall|j: int, p: int|
        0 <= j < m1.len() ==> #[trigger] cell(rows1, m1[j] as int, p) == cell(
            rows2,
            m2[j] as int,
            p,
        )
}

/// Rows that read the same records give the same groupings and columns.
proof fn lemma_same_reading_folds(
    rows1: Seq<Vec<Option<Record>>>,
    m1: Seq<usize>,
    rows2: Seq<Vec<Option<Record>>>,
    m2: Seq<usize>,
    p: int,
)
    requires
        same_reading(rows1, m1, rows2, m2),
    ensures
        keys_in(rows1, m1, p) == keys_in(rows2, m2, p),
        last_present(rows1, m1, p) == last_present(rows2, m2, p),
        first_present(rows1, m1, p) == first_present(rows2, m2, p),
        distinct_present(rows1, m1, p) == distinct_present(rows2, m2, p),
        forall|k: u64|
            same_reading(
                rows1,
                #[trigger] members_with(rows1, m1, p, k),
                rows2,
                members_with(rows2, m2, p, k),
            ),
    decreases m1.len(),
{
    if m1.len() > 0 {
        let d1 = m1.drop_last();
        let d2 = m2.drop_last();
        assert(same_reading(rows1, d1, rows2, d2)) by {
            assert forall|j: int, q: int| 0 <= j < d1.len() implies #[trigger] cell(
                rows1,
                d1[j] as int,
                q,
            ) == cell(rows2, d2[j] as int, q) by {
                assert(cell(rows1, m1[j] as int, q) == cell(rows2, m2[j] as int, q));
            }
        }
        lemma_same_reading_folds(rows1, d1, rows2, d2, p);
        let n = m1.len() - 1;
        assert(cell(rows1, m1[n] as int, p) == cell(rows2, m2[n] as int, p));
        assert forall|k: u64|
            same_reading(
                rows1,
                #[trigger] members_with(rows1, m1, p, k),
                rows2,
                members_with(rows2, m2, p, k),
            ) by {
            let g1 = members_with(rows1, d1, p, k);
            let g2 = members_with(rows2, d2, p, k);
            assert(same_reading(rows1, g1, rows2, g2));
            if cell_key(rows1, m1[n] as int, p) == Some(k) {
                assert forall|j: int, q: int|
                    0 <= j < g1.len() + 1 implies #[trigger] cell(
                    rows1,
                    g1.push(m1[n])[j] as int,
                    q,
                ) == cell(rows2, g2.push(m2[n])[j] as int, q) by {
                    if j < g1.len() {
                        assert(cell(rows1, g1[j] as int, q) == cell(rows2, g2[j] as int, q));
                    } else {
                        assert(cell(rows1, m1[n] as int, q) == cell(rows2, m2[n] as int, q));
                    }
                }
            }
        }
    }
}

/// Rows that read the same records build the same objects.
proof fn lemma_same_reading_level(
    plan: Seq<Level>,
    rows1: Seq<Vec<Option<Record>>>,
    m1: Seq<usize>,
    rows2: Seq<Vec<Option<Record>>>,
    m2: Seq<usize>,
    l: int,
)
    requires
        same_reading(rows1, m1, rows2, m2),
    ensures
        level_objects(plan, rows1, l, m1) == level_objects(plan, rows2, l, m2),
    decreases plan.len() - l, 4int, 0int,
{
    if 0 <= l < plan.len() {
        lemma_same_reading_folds(rows1, m1, rows2, m2, disc(plan[l]));
        lemma_same_reading_objects(plan, rows1, m1, rows2, m2, l, keys_in(rows1, m1, disc(plan[l])));
    }
}

proof fn lemma_same_reading_objects(
    plan: Seq<Level>,
    rows1: Seq<Vec<Option<Record>>>,
    m1: Seq<usize>,
    rows2: Seq<Vec<Option<Record>>>,
    m2: Seq<usize>,
    l: int,
    keys: Seq<u64>,
)
    requires
        0 <= l < plan.len(),
        same_reading(rows1, m1, rows2, m2),
    ensures
        objects_for(plan, rows1, l, m1, keys) == objects_for(plan, rows2, l, m2, keys),
    decreases plan.len() - l, 3int, keys.len(),
{
    if keys.len() > 0 {
        let p = disc(plan[l]);
        lemma_same_reading_objects(plan, rows1, m1, rows2, m2, l, keys.drop_last());
        lemma_same_reading_folds(rows1, m1, rows2, m2, p);
        let k = keys.last();
        assert(same_reading(rows1, members_with(rows1, m1, p, k), rows2, members_with(rows2, m2, p, k)));
        lemma_same_reading_fields(
            plan,
            rows1,
            members_with(rows1, m1, p, k),
            rows2,
            members_with(rows2, m2, p, k),
            l,
            plan[l].entries@.len() as int,
        );
        assert(object_of(plan, rows1, l, members_with(rows1, m1, p, k)) == object_of(
            plan,
            rows2,
            l,
            members_with(rows2, m2, p, k),
        ));
    }
}

proof fn lemma_same_reading_fields(
    plan: Seq<Level>,
    rows1: Seq<Vec<Option<Record>>>,
    m1: Seq<usize>,
    rows2: Seq<Vec<Option<Record>>>,
    m2: Seq<usize>,
    l: int,
    n: int,
)
    requires
        0 <= l < plan.len(),
        same_reading(rows1, m1, rows2, m2),
    ensures
        fields_of(plan, rows1, l, m1, n) == fields_of(plan, rows2, l, m2, n),
    decreases plan.len() - l, 1int, n,
{
    if 0 < n <= plan[l].entries@.len() {
        lemma_same_reading_fields(plan, rows1, m1, rows2, m2, l, n - 1);
        lemma_same_reading_entry(plan, rows1, m1, rows2, m2, l, plan[l].entries@[n - 1]);
    }
}

proof fn lemma_same_reading_entry(
    plan: Seq<Level>,
    rows1: Seq<Vec<Option<Record>>>,
    m1: Seq<usize>,
    rows2: Seq<Vec<Option<Record>>>,
    m2: Seq<usize>,
    l: int,
    e: Entry,
)
    requires
        0 <= l < plan.len(),
        same_reading(rows1, m1, rows2, m2),
    ensures
        entry_value(plan, rows1, l, m1, e) == entry_value(plan, rows2, l, m2, e),
    decreases plan.len() - l, 0int, 0int,
{
    match e {
        Entry::Column { position, .. } => {
            lemma_same_reading_folds(rows1, m1, rows2, m2, position as int);
            if m1.len() > 0 {
                assert(cell(rows1, m1[0] as int, position as int) == cell(
                    rows2,
                    m2[0] as int,
                    position as int,
                ));
            }
        },
        Entry::Nested { level, .. } => {
            if l < level < plan.len() {
                lemma_same_reading_level(plan, rows1, m1, rows2, m2, level as int);
            }
        },
    }
}

/// Reordered input: exchanging two adjacent rows of the input, where
/// [`swap_harmless`] allows it, leaves the reconstruction unchanged.
/// Repeated, this moves the rows of one child past those of its sibling
/// children (once each has appeared), at any depth: interleaving them changes
/// neither which parent a child or grandchild lands in, nor any order.
pub proof fn lemma_reordered_rows(plan: Seq<Level>, rows: Seq<Vec<Option<Record>>>, i: int)
    requires
        plan.len() > 0,
        0 <= i,
        i + 1 < rows.len() <= usize::MAX,
        swap_harmless(plan, rows, 0, i as usize, (i + 1) as usize, all_rows(i)),
    ensures
        reconstruction(plan, rows.update(i, rows[i + 1]).update(i + 1, rows[i]))
            == reconstruction(plan, rows),
{
    let n = rows.len() as int;
    let rows2 = rows.update(i, rows[i + 1]).update(i + 1, rows[i]);
    let m = all_rows(n);
    let sw = swap_adjacent(m, i);
    assert(same_reading(rows2, m, rows, sw)) by {
        assert forall|j: int, q: int| 0 <= j < m.len() implies #[trigger] cell(
            rows2,
            m[j] as int,
            q,
        ) == cell(rows, sw[j] as int, q) by {
            assert(m[i] == i as usize && m[i + 1] == (i + 1) as usize && m[j] == j as usize);
            if j == i {
                assert(sw[j] as int == i + 1);
            } else if j == i + 1 {
                assert(sw[j] as int == i);
            } else {
                assert(sw[j] as int == j);
            }
        }
    }
    assert(rows2.len() == n);
    lemma_same_reading_level(plan, rows2, m, rows, sw, 0);
    lemma_reading_order(plan, rows, i);
}

} // verus!
