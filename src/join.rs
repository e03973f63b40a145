//! Reconstruction of nested aggregates from the flat rows of a join query.
//!
//! A [`Plan`] describes the target shape: a tree of levels held in one vector,
//! each level naming an output type and its entries. An entry either reads one
//! position of every row (a column) or descends into another level (a nested
//! entry). Rows are grouped at each level by the identity of the record at the
//! level's discriminating position (its first column entry), in order of first
//! appearance; each group becomes one object.

use vstd::prelude::*;
use crate::id_index::{index_entries, index_get, index_insert, new_indexmap};
use crate::quantity::Quantity;

verus! {

/// One sub-record of a joined row: its identity and its payload.
#[derive(Debug, PartialEq, Eq)]
pub struct Record {
    pub id: u64,
    pub data: String,
}

impl Clone for Record {
    fn clone(&self) -> (r: Record)
        ensures
            r == *self,
    {
        Record { id: self.id, data: self.data.clone() }
    }
}

/// One entry of a level: a field name and where its value comes from.
#[derive(Debug, PartialEq, Eq)]
pub enum Entry {
    /// Reads the record at `position` of each row.
    Column { name: String, quantity: Quantity, position: usize },
    /// Builds the objects of another level of the plan.
    Nested { name: String, level: usize },
}

/// One level of the target shape.
#[derive(Debug)]
pub struct Level {
    /// How the objects built at this level are handed to the parent.
    pub quantity: Quantity,
    /// Name of the type of the objects built at this level.
    pub output_type: String,
    pub entries: Vec<Entry>,
}

/// A whole target shape: level 0 is the root, and a nested entry always
/// points to a level further down the vector.
#[derive(Debug)]
pub struct Plan {
    pub levels: Vec<Level>,
}

/// What a reconstruction can fail with.
#[derive(Debug, Clone, Copy, PartialEq, Eq, Structural)]
pub enum JoinError {
    /// A `One` level that must hold an object has none.
    NotFound,
    /// An `AssumeOne` column is absent in every row of its group, or an
    /// `AssumeOne` level holds no object.
    NullValue,
}

/// A reconstructed value.
#[derive(Debug, PartialEq, Eq)]
pub enum Value {
    /// No value: an optional field or level that received nothing.
    Absent,
    /// One record taken from the rows.
    Item(Record),
    /// An ordered list of values.
    List(Vec<Value>),
    /// An object: its type name and its named fields, in declared order.
    Object(String, Vec<(String, Value)>),
}

/// The mathematical form of a [`Value`].
pub enum Model {
    Absent,
    Item(Record),
    List(Seq<Model>),
    Object(String, Seq<(String, Model)>),
}

impl Value {
    /// The mathematical form of the value: its vectors seen as sequences.
    pub open spec fn model(self) -> Model
        decreases self,
    {
        match self {
            Value::Absent => Model::Absent,
            Value::Item(r) => Model::Item(r),
            Value::List(vs) => Model::List(models(vs@)),
            Value::Object(t, fs) => Model::Object(t, field_models(fs@)),
        }
    }
}

/// The models of a sequence of values.
pub open spec fn models(vs: Seq<Value>) -> Seq<Model>
    decreases vs,
{
    if vs.len() == 0 {
        seq![]
    } else {
        models(vs.subrange(0, vs.len() - 1)).push(vs[vs.len() - 1].model())
    }
}

/// The models of a sequence of named values.
pub open spec fn field_models(fs: Seq<(String, Value)>) -> Seq<(String, Model)>
    decreases fs,
{
    if fs.len() == 0 {
        seq![]
    } else {
        field_models(fs.subrange(0, fs.len() - 1)).push(
            (fs[fs.len() - 1].0, fs[fs.len() - 1].1.model()),
        )
    }
}

/// The model of a reconstruction outcome.
pub open spec fn outcome_model(r: Result<Value, JoinError>) -> Result<Model, JoinError> {
    match r {
        Ok(v) => Ok(v.model()),
        Err(e) => Err(e),
    }
}

/// The model of a list outcome.
pub open spec fn list_outcome_model(r: Result<Vec<Value>, JoinError>) -> Result<
    Seq<Model>,
    JoinError,
> {
    match r {
        Ok(vs) => Ok(models(vs@)),
        Err(e) => Err(e),
    }
}

/// The record at position `p` of row `r`, absent outside the rows.
pub open spec fn cell(rows: Seq<Vec<Option<Record>>>, r: int, p: int) -> Option<Record> {
    if 0 <= r < rows.len() && 0 <= p < rows[r]@.len() {
        rows[r]@[p]
    } else {
        None
    }
}

/// The identity of the record at position `p` of row `r`.
pub open spec fn cell_key(rows: Seq<Vec<Option<Record>>>, r: int, p: int) -> Option<u64> {
    match cell(rows, r, p) {
        Some(c) => Some(c.id),
        None => None,
    }
}

/// The distinct identities at position `p` over the rows `members`, in order
/// of first appearance; rows where the record is absent are passed over.
pub open spec fn keys_in(rows: Seq<Vec<Option<Record>>>, members: Seq<usize>, p: int) -> Seq<u64>
    decreases members.len(),
{
    if members.len() == 0 {
        seq![]
    } else {
        let prev = keys_in(rows, members.drop_last(), p);
        match cell_key(rows, members.last() as int, p) {
            Some(k) => if prev.contains(k) {
                prev
            } else {
                prev.push(k)
            },
            None => prev,
        }
    }
}

/// The rows of `members` whose record at position `p` has identity `k`, in
/// order.
pub open spec fn members_with(
    rows: Seq<Vec<Option<Record>>>,
    members: Seq<usize>,
    p: int,
    k: u64,
) -> Seq<usize>
    decreases members.len(),
{
    if members.len() == 0 {
        seq![]
    } else {
        let prev = members_with(rows, members.drop_last(), p, k);
        if cell_key(rows, members.last() as int, p) == Some(k) {
            prev.push(members.last())
        } else {
            prev
        }
    }
}

/// The last present record at position `p` over the rows `members`.
pub open spec fn last_present(rows: Seq<Vec<Option<Record>>>, members: Seq<usize>, p: int) -> Option<
    Record,
>
    decreases members.len(),
{
    if members.len() == 0 {
        None
    } else {
        match cell(rows, members.last() as int, p) {
            Some(c) => Some(c),
            None => last_present(rows, members.drop_last(), p),
        }
    }
}

/// The first present record at position `p` over the rows `members`.
pub open spec fn first_present(rows: Seq<Vec<Option<Record>>>, members: Seq<usize>, p: int) -> Option<
    Record,
>
    decreases members.len(),
{
    if members.len() == 0 {
        None
    } else {
        match first_present(rows, members.drop_last(), p) {
            Some(c) => Some(c),
            None => cell(rows, members.last() as int, p),
        }
    }
}

/// The identities of a sequence of records.
pub open spec fn record_ids(s: Seq<Record>) -> Seq<u64> {
    s.map_values(|c: Record| c.id)
}

/// The present records at position `p` over the rows `members`, one for each
/// identity (the first seen), in order of first appearance.
pub open spec fn distinct_present(
    rows: Seq<Vec<Option<Record>>>,
    members: Seq<usize>,
    p: int,
) -> Seq<Record>
    decreases members.len(),
{
    if members.len() == 0 {
        seq![]
    } else {
        let prev = distinct_present(rows, members.drop_last(), p);
        match cell(rows, members.last() as int, p) {
            Some(c) => if record_ids(prev).contains(c.id) {
                prev
            } else {
                prev.push(c)
            },
            None => prev,
        }
    }
}

/// Items for a sequence of records.
pub open spec fn item_models(s: Seq<Record>) -> Seq<Model> {
    s.map_values(|c: Record| Model::Item(c))
}

/// The value that a column entry takes over the rows of one group.
pub open spec fn column_value(
    rows: Seq<Vec<Option<Record>>>,
    members: Seq<usize>,
    quantity: Quantity,
    p: int,
) -> Result<Model, JoinError> {
    match quantity {
        Quantity::MaybeOne => match last_present(rows, members, p) {
            Some(c) => Ok(Model::Item(c)),
            None => Ok(Model::Absent),
        },
        Quantity::One => {
            let first = if members.len() > 0 {
                cell(rows, members[0] as int, p)
            } else {
                None
            };
            match first {
                Some(c) => Ok(Model::Item(c)),
                None => Ok(Model::Absent),
            }
        },
        Quantity::AssumeOne => match first_present(rows, members, p) {
            Some(c) => Ok(Model::Item(c)),
            None => Err(JoinError::NullValue),
        },
        Quantity::AtLeastZero | Quantity::AtLeastOne => Ok(
            Model::List(item_models(distinct_present(rows, members, p))),
        ),
    }
}

/// The position of the first column entry among `entries`.
pub open spec fn first_column(entries: Seq<Entry>) -> Option<usize>
    decreases entries.len(),
{
    if entries.len() == 0 {
        None
    } else {
        match first_column(entries.drop_last()) {
            Some(p) => Some(p),
            None => match entries.last() {
                Entry::Column { position, .. } => Some(position),
                Entry::Nested { .. } => None,
            },
        }
    }
}

/// The discriminating position of a level.
pub open spec fn disc(level: Level) -> int {
    first_column(level.entries@).unwrap() as int
}

/// How the objects built at a level are handed to the parent: a list level
/// gives them all; a singular level gives its first object (a plan that lets
/// several reach it is inconsistent, and the rest are dropped), or nothing
/// (`MaybeOne`), or fails: with `NotFound` for `One`, and with the
/// null-where-required `NullValue` for `AssumeOne`.
pub open spec fn present(quantity: Quantity, objects: Result<Seq<Model>, JoinError>) -> Result<
    Model,
    JoinError,
> {
    match objects {
        Err(e) => Err(e),
        Ok(os) => match quantity {
            Quantity::AtLeastZero | Quantity::AtLeastOne => Ok(Model::List(os)),
            Quantity::MaybeOne => if os.len() == 0 {
                Ok(Model::Absent)
            } else {
                Ok(os[0])
            },
            Quantity::One => if os.len() == 0 {
                Err(JoinError::NotFound)
            } else {
                Ok(os[0])
            },
            Quantity::AssumeOne => if os.len() == 0 {
                Err(JoinError::NullValue)
            } else {
                Ok(os[0])
            },
        },
    }
}

/// The objects that level `l` builds over the rows `members`: one for each
/// identity at the level's discriminating position, in order of first
/// appearance.
pub open spec fn level_objects(
    plan: Seq<Level>,
    rows: Seq<Vec<Option<Record>>>,
    l: int,
    members: Seq<usize>,
) -> Result<Seq<Model>, JoinError>
    decreases plan.len() - l, 4int, 0int,
{
    if 0 <= l < plan.len() {
        objects_for(plan, rows, l, members, keys_in(rows, members, disc(plan[l])))
    } else {
        Ok(seq![])
    }
}

/// The objects of level `l` for the identities `keys`, in order; the first
/// failure wins.
pub open spec fn objects_for(
    plan: Seq<Level>,
    rows: Seq<Vec<Option<Record>>>,
    l: int,
    members: Seq<usize>,
    keys: Seq<u64>,
) -> Result<Seq<Model>, JoinError>
    decreases plan.len() - l, 3int, keys.len(),
{
    if 0 <= l < plan.len() && keys.len() > 0 {
        match objects_for(plan, rows, l, members, keys.drop_last()) {
            Err(e) => Err(e),
            Ok(prev) => match object_of(
                plan,
                rows,
                l,
                members_with(rows, members, disc(plan[l]), keys.last()),
            ) {
                Err(e) => Err(e),
                Ok(o) => Ok(prev.push(o)),
            },
        }
    } else {
        Ok(seq![])
    }
}

/// The object that level `l` builds from one group of rows.
pub open spec fn object_of(
    plan: Seq<Level>,
    rows: Seq<Vec<Option<Record>>>,
    l: int,
    group: Seq<usize>,
) -> Result<Model, JoinError>
    decreases plan.len() - l, 2int, 0int,
{
    if 0 <= l < plan.len() {
        match fields_of(plan, rows, l, group, plan[l].entries@.len() as int) {
            Err(e) => Err(e),
            Ok(fs) => Ok(Model::Object(plan[l].output_type, fs)),
        }
    } else {
        Ok(Model::Absent)
    }
}

/// The first `n` fields of the object that level `l` builds from a group.
pub open spec fn fields_of(
    plan: Seq<Level>,
    rows: Seq<Vec<Option<Record>>>,
    l: int,
    group: Seq<usize>,
    n: int,
) -> Result<Seq<(String, Model)>, JoinError>
    decreases plan.len() - l, 1int, n,
{
    if 0 <= l < plan.len() && 0 < n <= plan[l].entries@.len() {
        match fields_of(plan, rows, l, group, n - 1) {
            Err(e) => Err(e),
            Ok(prev) => {
                let e = plan[l].entries@[n - 1];
                match entry_value(plan, rows, l, group, e) {
                    Err(err) => Err(err),
                    Ok(v) => Ok(prev.push((entry_name(e), v))),
                }
            },
        }
    } else {
        Ok(seq![])
    }
}

/// The field name of an entry.
pub open spec fn entry_name(e: Entry) -> String {
    match e {
        Entry::Column { name, .. } => name,
        Entry::Nested { name, .. } => name,
    }
}

/// The value of one entry of level `l` over one group.
pub open spec fn entry_value(
    plan: Seq<Level>,
    rows: Seq<Vec<Option<Record>>>,
    l: int,
    group: Seq<usize>,
    e: Entry,
) -> Result<Model, JoinError>
    decreases plan.len() - l, 0int, 0int,
{
    match e {
        Entry::Column { quantity, position, .. } => column_value(
            rows,
            group,
            quantity,
            position as int,
        ),
        Entry::Nested { level, .. } => if l < level < plan.len() {
            present(plan[level as int].quantity, level_objects(plan, rows, level as int, group))
        } else {
            Ok(Model::Absent)
        },
    }
}

/// The indices of all rows, in order.
pub open spec fn all_rows(n: int) -> Seq<usize> {
    Seq::new(n as nat, |i: int| i as usize)
}

/// The result of reconstructing `rows` along `plan`.
pub open spec fn reconstruction(plan: Seq<Level>, rows: Seq<Vec<Option<Record>>>) -> Result<
    Model,
    JoinError,
> {
    present(plan[0].quantity, level_objects(plan, rows, 0, all_rows(rows.len() as int)))
}

/// The record at position `p` of row `r`, if there is one.
fn cell_at(rows: &Vec<Vec<Option<Record>>>, r: usize, p: usize) -> (c: Option<&Record>)
    ensures
        match c {
            Some(x) => cell(rows@, r as int, p as int) == Some(*x),
            None => cell(rows@, r as int, p as int) is None,
        },
{
    if r < rows.len() && p < rows[r].len() {
        match &rows[r][p] {
            Some(x) => Some(x),
            None => None,
        }
    } else {
        None
    }
}

/// The models of `vs` with one more value.
proof fn lemma_models_push(vs: Seq<Value>, v: Value)
    ensures
        models(vs.push(v)) == models(vs).push(v.model()),
{
    assert(vs.push(v).subrange(0, vs.len() as int) =~= vs);
}

/// The field models of `fs` with one more field.
proof fn lemma_field_models_push(fs: Seq<(String, Value)>, f: (String, Value))
    ensures
        field_models(fs.push(f)) == field_models(fs).push((f.0, f.1.model())),
{
    assert(fs.push(f).subrange(0, fs.len() as int) =~= fs);
}

/// The last present record at position `p` over the rows `members`.
fn find_last_present(rows: &Vec<Vec<Option<Record>>>, members: &Vec<usize>, p: usize) -> (r: Option<
    Record,
>)
    ensures
        r == last_present(rows@, members@, p as int),
{
    let mut acc: Option<Record> = None;
    let mut i: usize = 0;
    while i < members.len()
        invariant
            i <= members.len(),
            acc == last_present(rows@, members@.take(i as int), p as int),
        decreases members.len() - i,
    {
        assert(members@.take(i + 1).drop_last() =~= members@.take(i as int));
        match cell_at(rows, members[i], p) {
            Some(c) => {
                acc = Some(c.clone());
            },
            None => {},
        }
        i += 1;
    }
    assert(members@.take(members.len() as int) =~= members@);
    acc
}

/// The first present record at position `p` over the rows `members`.
fn find_first_present(rows: &Vec<Vec<Option<Record>>>, members: &Vec<usize>, p: usize) -> (r: Option<
    Record,
>)
    ensures
        r == first_present(rows@, members@, p as int),
{
    let mut acc: Option<Record> = None;
    let mut i: usize = 0;
    while i < members.len()
        invariant
            i <= members.len(),
            acc == first_present(rows@, members@.take(i as int), p as int),
        decreases members.len() - i,
    {
        assert(members@.take(i + 1).drop_last() =~= members@.take(i as int));
        if acc.is_none() {
            match cell_at(rows, members[i], p) {
                Some(c) => {
                    acc = Some(c.clone());
                },
                None => {},
            }
        }
        i += 1;
    }
    assert(members@.take(members.len() as int) =~= members@);
    acc
}

/// The present records at position `p` over the rows `members`, one item for
/// each identity, in order of first appearance.
fn collect_distinct(rows: &Vec<Vec<Option<Record>>>, members: &Vec<usize>, p: usize) -> (r: Vec<
    Value,
>)
    ensures
        models(r@) == item_models(distinct_present(rows@, members@, p as int)),
{
    let mut out: Vec<Value> = Vec::new();
    let mut seen = new_indexmap();
    let mut i: usize = 0;
    while i < members.len()
        invariant
            i <= members.len(),
            models(out@) == item_models(distinct_present(rows@, members@.take(i as int), p as int)),
            forall|k: u64|
                index_entries(seen).contains_key(k) <==> record_ids(
                    distinct_present(rows@, members@.take(i as int), p as int),
                ).contains(k),
        decreases members.len() - i,
    {
        let ghost prev = distinct_present(rows@, members@.take(i as int), p as int);
        assert(members@.take(i + 1).drop_last() =~= members@.take(i as int));
        match cell_at(rows, members[i], p) {
            Some(c) => {
                if index_get(&seen, c.id).is_none() {
                    index_insert(&mut seen, c.id, out.len());
                    let item = Value::Item(c.clone());
                    proof {
                        lemma_models_push(out@, item);
                        assert(item_models(prev.push(*c)) =~= item_models(prev).push(Model::Item(*c)));
                        assert(record_ids(prev.push(*c)) =~= record_ids(prev).push(c.id));
                        assert forall|k: u64|
                            index_entries(seen).contains_key(k) <==> record_ids(
                                prev.push(*c),
                            ).contains(k) by {
                            if k == c.id {
                                assert(record_ids(prev.push(*c))[prev.len() as int] == k);
                            }
                            if record_ids(prev.push(*c)).contains(k) && k != c.id {
                                let j = choose|j: int|
                                    0 <= j < record_ids(prev.push(*c)).len() && record_ids(
                                        prev.push(*c),
                                    )[j] == k;
                                assert(record_ids(prev)[j] == k);
                            }
                            if record_ids(prev).contains(k) {
                                let j = choose|j: int|
                                    0 <= j < record_ids(prev).len() && record_ids(prev)[j] == k;
                                assert(record_ids(prev.push(*c))[j] == k);
                            }
                        }
                    }
                    out.push(item);
                }
            },
            None => {},
        }
        i += 1;
    }
    assert(members@.take(members.len() as int) =~= members@);
    out
}

/// The value that a column entry takes over the rows of one group.
fn eval_column(
    rows: &Vec<Vec<Option<Record>>>,
    members: &Vec<usize>,
    quantity: Quantity,
    p: usize,
) -> (r: Result<Value, JoinError>)
    ensures
        outcome_model(r) == column_value(rows@, members@, quantity, p as int),
{
    match quantity {
        Quantity::MaybeOne => match find_last_present(rows, members, p) {
            Some(c) => Ok(Value::Item(c)),
            None => Ok(Value::Absent),
        },
        Quantity::One => {
            if members.len() > 0 {
                match cell_at(rows, members[0], p) {
                    Some(c) => Ok(Value::Item(c.clone())),
                    None => Ok(Value::Absent),
                }
            } else {
                Ok(Value::Absent)
            }
        },
        Quantity::AssumeOne => match find_first_present(rows, members, p) {
            Some(c) => Ok(Value::Item(c)),
            None => Err(JoinError::NullValue),
        },
        Quantity::AtLeastZero | Quantity::AtLeastOne => Ok(
            Value::List(collect_distinct(rows, members, p)),
        ),
    }
}

/// An identity that `keys_in` never produced has no rows.
proof fn lemma_unseen_key_has_no_members(
    rows: Seq<Vec<Option<Record>>>,
    members: Seq<usize>,
    p: int,
    k: u64,
)
    requires
        !keys_in(rows, members, p).contains(k),
    ensures
        members_with(rows, members, p, k) == Seq::<usize>::empty(),
    decreases members.len(),
{
    if members.len() > 0 {
        let prev = keys_in(rows, members.drop_last(), p);
        let all = keys_in(rows, members, p);
        if prev.contains(k) {
            let j = choose|j: int| 0 <= j < prev.len() && prev[j] == k;
            assert(all[j] == k);
        }
        if cell_key(rows, members.last() as int, p) == Some(k) {
            assert(all[all.len() - 1] == k);
        }
        lemma_unseen_key_has_no_members(rows, members.drop_last(), p, k);
    }
}

/// Splits the rows `members` into groups by the identity of their record at
/// position `p`, in order of first appearance; rows where that record is
/// absent join no group.
fn group_rows(rows: &Vec<Vec<Option<Record>>>, members: &Vec<usize>, p: usize) -> (r: (
    Vec<u64>,
    Vec<Vec<usize>>,
))
    ensures
        r.0@ == keys_in(rows@, members@, p as int),
        r.1.len() == r.0.len(),
        forall|g: int|
            0 <= g < r.1.len() ==> (#[trigger] r.1[g])@ == members_with(
                rows@,
                members@,
                p as int,
                r.0[g],
            ),
{
    let mut keys: Vec<u64> = Vec::new();
    let mut groups: Vec<Vec<usize>> = Vec::new();
    let mut slots = new_indexmap();
    let mut i: usize = 0;
    while i < members.len()
        invariant
            i <= members.len(),
            keys@ == keys_in(rows@, members@.take(i as int), p as int),
            keys@.no_duplicates(),
            groups.len() == keys.len(),
            forall|g: int|
                0 <= g < groups.len() ==> (#[trigger] groups[g])@ == members_with(
                    rows@,
                    members@.take(i as int),
                    p as int,
                    keys[g],
                ),
            forall|k: u64| index_entries(slots).contains_key(k) <==> keys@.contains(k),
            forall|k: u64|
                index_entries(slots).contains_key(k) ==> index_entries(slots)[k] < keys.len()
                    && keys[index_entries(slots)[k] as int] == k,
        decreases members.len() - i,
    {
        let ghost ms = members@.take(i as int);
        assert(members@.take(i + 1).drop_last() =~= ms);
        let m = members[i];
        assert(members@.take(i + 1).last() == m);
        match cell_at(rows, m, p) {
            Some(c) => {
                let k = c.id;
                match index_get(&slots, k) {
                    Some(g) => {
                        groups[g].push(m);
                    },
                    None => {
                        let ghost old_keys = keys@;
                        proof {
                            lemma_unseen_key_has_no_members(rows@, ms, p as int, k);
                            assert(!old_keys.contains(k));
                        }
                        index_insert(&mut slots, k, keys.len());
                        keys.push(k);
                        groups.push(vec![m]);
                        proof {
                            assert(groups[groups.len() - 1]@ =~= seq![m]);
                            assert forall|k2: u64|
                                index_entries(slots).contains_key(k2) <==> keys@.contains(k2) by {
                                if k2 == k {
                                    assert(keys[keys.len() - 1] == k);
                                }
                                if keys@.contains(k2) && k2 != k {
                                    let j = choose|j: int| 0 <= j < keys.len() && keys[j] == k2;
                                    assert(old_keys[j] == k2);
                                }
                                if old_keys.contains(k2) {
                                    let j = choose|j: int| 0 <= j < old_keys.len() && old_keys[j] == k2;
                                    assert(keys[j] == k2);
                                }
                            }
                            assert forall|a: int, b: int|
                                0 <= a < keys.len() && 0 <= b < keys.len() && a != b
                                    implies keys[a] != keys[b] by {
                                assert(keys@ == old_keys.push(k));
                                if a < old_keys.len() && b < old_keys.len() {
                                    assert(old_keys[a] == keys[a] && old_keys[b] == keys[b]);
                                    assert(old_keys.no_duplicates());
                                }
                                if b == keys.len() - 1 && keys[a] == keys[b] {
                                    assert(old_keys[a] == k);
                                }
                                if a == keys.len() - 1 && keys[a] == keys[b] {
                                    assert(old_keys[b] == k);
                                }
                            }
                        }
                    },
                }
            },
            None => {},
        }
        i += 1;
    }
    assert(members@.take(members.len() as int) =~= members@);
    (keys, groups)
}

/// The position of the first column entry.
fn discriminator(entries: &Vec<Entry>) -> (r: Option<usize>)
    ensures
        r == first_column(entries@),
{
    let mut found: Option<usize> = None;
    let mut j: usize = 0;
    while j < entries.len()
        invariant
            j <= entries.len(),
            found == first_column(entries@.take(j as int)),
        decreases entries.len() - j,
    {
        assert(entries@.take(j + 1).drop_last() =~= entries@.take(j as int));
        if found.is_none() {
            match &entries[j] {
                Entry::Column { position, .. } => {
                    found = Some(*position);
                },
                Entry::Nested { .. } => {},
            }
        }
        j += 1;
    }
    assert(entries@.take(entries.len() as int) =~= entries@);
    found
}

/// Each model is the model of the value at the same place.
proof fn lemma_models_index(vs: Seq<Value>)
    ensures
        models(vs).len() == vs.len(),
        forall|i: int| 0 <= i < vs.len() ==> #[trigger] models(vs)[i] == vs[i].model(),
    decreases vs.len(),
{
    if vs.len() > 0 {
        lemma_models_index(vs.subrange(0, vs.len() - 1));
    }
}

/// Hands the objects built at a level to the parent, as its quantity says.
fn present_objects(quantity: Quantity, objects: Result<Vec<Value>, JoinError>) -> (r: Result<
    Value,
    JoinError,
>)
    ensures
        outcome_model(r) == present(quantity, list_outcome_model(objects)),
{
    match objects {
        Err(e) => Err(e),
        Ok(mut os) => {
            proof {
                lemma_models_index(os@);
            }
            match quantity {
                Quantity::AtLeastZero | Quantity::AtLeastOne => Ok(Value::List(os)),
                Quantity::MaybeOne => if os.len() == 0 {
                    Ok(Value::Absent)
                } else {
                    Ok(os.swap_remove(0))
                },
                Quantity::One => if os.len() == 0 {
                    Err(JoinError::NotFound)
                } else {
                    Ok(os.swap_remove(0))
                },
                Quantity::AssumeOne => if os.len() == 0 {
                    Err(JoinError::NullValue)
                } else {
                    Ok(os.swap_remove(0))
                },
            }
        },
    }
}

/// Once the objects of a prefix of the identities fail, all of them fail
/// the same way.
pub(crate) proof fn lemma_objects_for_failure(
    plan: Seq<Level>,
    rows: Seq<Vec<Option<Record>>>,
    l: int,
    members: Seq<usize>,
    keys: Seq<u64>,
    n: int,
)
    requires
        0 <= n <= keys.len(),
        objects_for(plan, rows, l, members, keys.take(n)) is Err,
    ensures
        objects_for(plan, rows, l, members, keys) == objects_for(
            plan,
            rows,
            l,
            members,
            keys.take(n),
        ),
    decreases keys.len() - n,
{
    if n == keys.len() {
        assert(keys.take(n) =~= keys);
    } else {
        assert(keys.drop_last().take(n) =~= keys.take(n));
        lemma_objects_for_failure(plan, rows, l, members, keys.drop_last(), n);
    }
}

/// Once the first fields fail, the whole object fails the same way.
pub(crate) proof fn lemma_fields_of_failure(
    plan: Seq<Level>,
    rows: Seq<Vec<Option<Record>>>,
    l: int,
    group: Seq<usize>,
    n: int,
    m: int,
)
    requires
        0 <= l < plan.len(),
        0 <= n <= m <= plan[l].entries@.len(),
        fields_of(plan, rows, l, group, n) is Err,
    ensures
        fields_of(plan, rows, l, group, m) == fields_of(plan, rows, l, group, n),
    decreases m - n,
{
    if n < m {
        lemma_fields_of_failure(plan, rows, l, group, n, m - 1);
    }
}

/// Builds the objects of level `l` over the rows `members`.
fn build_level(plan: &Plan, rows: &Vec<Vec<Option<Record>>>, l: usize, members: &Vec<usize>) -> (r:
    Result<Vec<Value>, JoinError>)
    requires
        plan.wf(),
        l < plan.levels@.len(),
    ensures
        list_outcome_model(r) == level_objects(plan.levels@, rows@, l as int, members@),
    decreases plan.levels@.len() - l, 2int,
{
    let level = &plan.levels[l];
    let p = match discriminator(&level.entries) {
        Some(p) => p,
        None => {
            return Ok(Vec::new());
        },
    };
    let (keys, groups) = group_rows(rows, members, p);
    let mut out: Vec<Value> = Vec::new();
    let mut g: usize = 0;
    while g < keys.len()
        invariant
            plan.wf(),
            l < plan.levels@.len(),
            *level == plan.levels@[l as int],
            p == disc(*level),
            g <= keys.len(),
            keys@ == keys_in(rows@, members@, p as int),
            groups.len() == keys.len(),
            forall|h: int|
                0 <= h < groups.len() ==> (#[trigger] groups[h])@ == members_with(
                    rows@,
                    members@,
                    p as int,
                    keys[h],
                ),
            objects_for(plan.levels@, rows@, l as int, members@, keys@.take(g as int)) == Ok::<
                Seq<Model>,
                JoinError,
            >(models(out@)),
        decreases keys.len() - g,
    {
        assert(keys@.take(g + 1).drop_last() =~= keys@.take(g as int));
        match build_object(plan, rows, l, &groups[g]) {
            Ok(o) => {
                proof {
                    lemma_models_push(out@, o);
                }
                out.push(o);
            },
            Err(e) => {
                proof {
                    lemma_objects_for_failure(
                        plan.levels@,
                        rows@,
                        l as int,
                        members@,
                        keys@,
                        g + 1,
                    );
                }
                return Err(e);
            },
        }
        g += 1;
    }
    assert(keys@.take(keys.len() as int) =~= keys@);
    Ok(out)
}

/// Builds the object of level `l` for one group of rows.
fn build_object(plan: &Plan, rows: &Vec<Vec<Option<Record>>>, l: usize, group: &Vec<usize>) -> (r:
    Result<Value, JoinError>)
    requires
        plan.wf(),
        l < plan.levels@.len(),
    ensures
        outcome_model(r) == object_of(plan.levels@, rows@, l as int, group@),
    decreases plan.levels@.len() - l, 1int,
{
    let level = &plan.levels[l];
    let mut fields: Vec<(String, Value)> = Vec::new();
    let mut j: usize = 0;
    while j < level.entries.len()
        invariant
            plan.wf(),
            l < plan.levels@.len(),
            *level == plan.levels@[l as int],
            j <= level.entries.len(),
            fields_of(plan.levels@, rows@, l as int, group@, j as int) == Ok::<
                Seq<(String, Model)>,
                JoinError,
            >(field_models(fields@)),
        decreases level.entries.len() - j,
    {
        match eval_entry(plan, rows, l, group, j) {
            Ok(v) => {
                let name = match &level.entries[j] {
                    Entry::Column { name, .. } => name.clone(),
                    Entry::Nested { name, .. } => name.clone(),
                };
                proof {
                    lemma_field_models_push(fields@, (name, v));
                }
                fields.push((name, v));
            },
            Err(e) => {
                proof {
                    lemma_fields_of_failure(
                        plan.levels@,
                        rows@,
                        l as int,
                        group@,
                        j + 1,
                        level.entries@.len() as int,
                    );
                }
                return Err(e);
            },
        }
        j += 1;
    }
    Ok(Value::Object(level.output_type.clone(), fields))
}

/// The value of entry `j` of level `l` over one group of rows.
fn eval_entry(
    plan: &Plan,
    rows: &Vec<Vec<Option<Record>>>,
    l: usize,
    group: &Vec<usize>,
    j: usize,
) -> (r: Result<Value, JoinError>)
    requires
        plan.wf(),
        l < plan.levels@.len(),
        j < plan.levels@[l as int].entries@.len(),
    ensures
        outcome_model(r) == entry_value(
            plan.levels@,
            rows@,
            l as int,
            group@,
            plan.levels@[l as int].entries@[j as int],
        ),
    decreases plan.levels@.len() - l, 0int,
{
    match &plan.levels[l].entries[j] {
        Entry::Column { quantity, position, .. } => eval_column(rows, group, *quantity, *position),
        Entry::Nested { level, .. } => {
            let c = *level;
            present_objects(plan.levels[c].quantity, build_level(plan, rows, c, group))
        },
    }
}

/// Rebuilds the nested value that `plan` describes from the flat `rows` of a
/// join: a pure function of the two, computed in one pass per level.
pub fn reconstruct(plan: &Plan, rows: &Vec<Vec<Option<Record>>>) -> (r: Result<Value, JoinError>)
    requires
        plan.wf(),
    ensures
        outcome_model(r) == reconstruction(plan.levels@, rows@),
{
    let mut members: Vec<usize> = Vec::new();
    let mut i: usize = 0;
    while i < rows.len()
        invariant
            i <= rows.len(),
            members@ == all_rows(i as int),
        decreases rows.len() - i,
    {
        members.push(i);
        i += 1;
        assert(members@ =~= all_rows(i as int));
    }
    present_objects(plan.levels[0].quantity, build_level(plan, rows, 0, &members))
}

/// Whether a nested entry of level `l` points to a later level among `n`.
pub open spec fn points_forward(n: int, l: int, e: Entry) -> bool {
    match e {
        Entry::Nested { level, .. } => l < level < n,
        Entry::Column { .. } => true,
    }
}

impl Plan {
    /// A plan is well formed when it has a root, every level has a column
    /// entry to discriminate its objects, and every nested entry points to a
    /// later level.
    pub open spec fn wf(self) -> bool {
        &&& self.levels@.len() > 0
        &&& forall|l: int|
            0 <= l < self.levels@.len() ==> first_column(#[trigger] self.levels@[l].entries@) is Some
        &&& forall|l: int, j: int|
            0 <= l < self.levels@.len() && 0 <= j < self.levels@[l].entries@.len()
                ==> points_forward(
                self.levels@.len() as int,
                l,
                #[trigger] self.levels@[l].entries@[j],
            )
    }

    /// Checks that the plan is well formed, as [`reconstruct`] requires.
    pub fn validate(&self) -> (r: bool)
        ensures
            r == self.wf(),
    {
        let n = self.levels.len();
        if n == 0 {
            return false;
        }
        let mut l: usize = 0;
        while l < n
            invariant
                n == self.levels@.len(),
                l <= n,
                forall|a: int| 0 <= a < l ==> first_column(#[trigger] self.levels@[a].entries@) is Some,
                forall|a: int, j: int|
                    0 <= a < l && 0 <= j < self.levels@[a].entries@.len() ==> points_forward(
                        n as int,
                        a,
                        #[trigger] self.levels@[a].entries@[j],
                    ),
            decreases n - l,
        {
            let entries = &self.levels[l].entries;
            if discriminator(entries).is_none() {
                return false;
            }
            let mut j: usize = 0;
            while j < entries.len()
                invariant
                    n == self.levels@.len(),
                    l < n,
                    *entries == self.levels@[l as int].entries,
                    j <= entries.len(),
                    forall|b: int| 0 <= b < j ==> points_forward(
                        n as int,
                        l as int,
                        #[trigger] entries@[b],
                    ),
                decreases entries.len() - j,
            {
                match &entries[j] {
                    Entry::Nested { level, .. } => {
                        if !(l < *level && *level < n) {
                            return false;
                        }
                    },
                    Entry::Column { .. } => {},
                }
                j += 1;
            }
            l += 1;
        }
        true
    }
}

} // verus!
