//! Folds records into buckets of rows that share a month, instructor,
//! school, payment framework and day.

use vstd::prelude::*;
use vstd::string::StringExecFns;
use crate::parser::{RawExcelRow, RecordView};
use crate::text::same_text;

verus! {

/// What stands for an absent instructor name.
pub open spec fn missing_name() -> Seq<char> {
    "<missing_name>"@
}

/// What stands for an absent school.
pub open spec fn missing_school() -> Seq<char> {
    "<missing_school>"@
}

/// The key of a group: month, instructor, school and payment framework.
pub type KeyView = (int, Seq<char>, Seq<char>, Seq<char>);

/// The group a record falls in; an absent name or school is replaced by
/// its placeholder, so records without one still group together.
pub open spec fn key_of(r: RecordView) -> KeyView {
    (
        r.date.month as int,
        match r.instructors_name { Some(n) => n, None => missing_name() },
        match r.instructors_school { Some(s) => s, None => missing_school() },
        r.paying_framework,
    )
}

/// The group of a record.
#[derive(Clone, Debug)]
pub struct GroupKey {
    pub month: i32,
    pub name: String,
    pub school: String,
    pub framework: String,
}

impl View for GroupKey {
    type V = KeyView;

    open spec fn view(&self) -> KeyView {
        (self.month as int, self.name@, self.school@, self.framework@)
    }
}

/// The rows of one group on one day, by their index among the records, in
/// order. Their hours summed in this order are the bucket's total.
#[derive(Clone, Debug)]
pub struct Bucket {
    pub key: GroupKey,
    pub day: i32,
    pub rows: Vec<usize>,
}

/// The indices below `n` of the records in group `key` on `day`, ascending.
pub open spec fn rows_matching(recs: Seq<RecordView>, key: KeyView, day: int, n: nat) -> Seq<usize>
    decreases n,
{
    if n == 0 {
        Seq::empty()
    } else {
        let prev = rows_matching(recs, key, day, (n - 1) as nat);
        if key_of(recs[n - 1]) == key && recs[n - 1].date.day == day {
            prev.push((n - 1) as usize)
        } else {
            prev
        }
    }
}

/// `table` is the aggregation of the first `n` records: one bucket for each
/// group and day that a record has, holding exactly the records that have it.
/// Buckets come in the order their first records do.
pub open spec fn aggregates(recs: Seq<RecordView>, n: nat, table: Seq<Bucket>) -> bool {
    &&& forall|b: int, c: int| 0 <= b < c < table.len() ==>
        !(table[b].key@ == table[c].key@ && table[b].day == table[c].day)
    &&& forall|b: int| 0 <= b < table.len() ==>
        #[trigger] table[b].rows@ == rows_matching(recs, table[b].key@, table[b].day as int, n)
        && table[b].rows@.len() > 0
    &&& forall|j: int| 0 <= j < n ==> exists|b: int| 0 <= b < table.len()
        && table[b].key@ == key_of(#[trigger] recs[j]) && table[b].day == recs[j].date.day
    &&& forall|b: int, c: int| 0 <= b < c < table.len() ==> table[b].rows@[0] < table[c].rows@[0]
}

proof fn lemma_rows_matching_none(recs: Seq<RecordView>, key: KeyView, day: int, n: nat)
    requires
        forall|i: int| 0 <= i < n ==> !(key_of(#[trigger] recs[i]) == key && recs[i].date.day == day),
    ensures
        rows_matching(recs, key, day, n).len() == 0,
    decreases n,
{
    if n > 0 {
        lemma_rows_matching_none(recs, key, day, (n - 1) as nat);
    }
}

fn same_key(b: &Bucket, key: &GroupKey, day: i32) -> (r: bool)
    ensures
        r == (b.key@ == key@ && b.day == day),
{
    b.key.month == key.month && b.day == day && same_text(b.key.name.as_str(), key.name.as_str())
        && same_text(b.key.school.as_str(), key.school.as_str())
        && same_text(b.key.framework.as_str(), key.framework.as_str())
}

/// The group of a record.
pub fn group_key(r: &RawExcelRow) -> (k: GroupKey)
    ensures
        k@ == key_of(r@),
{
    let name = match &r.instructors_name {
        Some(n) => n.clone(),
        None => String::from_str("<missing_name>"),
    };
    let school = match &r.instructors_school {
        Some(s) => s.clone(),
        None => String::from_str("<missing_school>"),
    };
    GroupKey { month: r.date.month, name, school, framework: r.paying_framework.clone() }
}

/// Groups the records by month, instructor, school, payment framework and
/// day. Every record falls in exactly one bucket; no day is checked against
/// the calendar.
pub fn aggregate(records: &Vec<RawExcelRow>) -> (table: Vec<Bucket>)
    ensures
        aggregates(records@.map_values(|r: RawExcelRow| r@), records@.len() as nat, table@),
{
    let ghost recs = records@.map_values(|r: RawExcelRow| r@);
    let mut table: Vec<Bucket> = Vec::new();
    let mut j: usize = 0;
    while j < records.len()
        invariant
            j <= records@.len(),
            recs == records@.map_values(|r: RawExcelRow| r@),
            aggregates(recs, j as nat, table@),
        decreases records@.len() - j,
    {
        let key = group_key(&records[j]);
        let day = records[j].date.day;
        assert(recs[j as int] == records@[j as int]@);
        let mut b: usize = 0;
        while b < table.len() && !same_key(&table[b], &key, day)
            invariant
                b <= table@.len(),
                forall|c: int| 0 <= c < b ==> !(table@[c].key@ == key@ && table@[c].day == day),
            decreases table@.len() - b,
        {
            b = b + 1;
        }
        let ghost old_table = table@;
        if b < table.len() {
            let mut bucket = table.remove(b);
            bucket.rows.push(j);
            table.insert(b, bucket);
            assert(table@ =~= old_table.update(b as int, bucket));
            assert(forall|c: int| 0 <= c < table@.len() ==> table@[c].rows@[0] == old_table[c].rows@[0]);
            assert forall|c: int| 0 <= c < table@.len() implies
                #[trigger] table@[c].rows@ == rows_matching(recs, table@[c].key@, table@[c].day as int, (j + 1) as nat)
                && table@[c].rows@.len() > 0 by {
                if c != b as int {
                    assert(old_table[c].rows@ == rows_matching(recs, old_table[c].key@, old_table[c].day as int, j as nat));
                }
            }
            assert forall|i: int| 0 <= i < j + 1 implies exists|c: int| 0 <= c < table@.len()
                && table@[c].key@ == key_of(#[trigger] recs[i]) && table@[c].day == recs[i].date.day by {
                if i < j {
                    let c = choose|c: int| 0 <= c < old_table.len()
                        && old_table[c].key@ == key_of(recs[i]) && old_table[c].day == recs[i].date.day;
                    assert(table@[c].key@ == old_table[c].key@);
                } else {
                    assert(table@[b as int].key@ == key_of(recs[i]));
                }
            }
        } else {
            proof {
                assert forall|i: int| 0 <= i < j implies !(key_of(#[trigger] recs[i]) == key@ && recs[i].date.day == day) by {
                    if key_of(recs[i]) == key@ && recs[i].date.day == day {
                        let c = choose|c: int| 0 <= c < old_table.len()
                            && old_table[c].key@ == key_of(recs[i]) && old_table[c].day == recs[i].date.day;
                    }
                }
                lemma_rows_matching_none(recs, key@, day as int, j as nat);
            }
            let mut rows: Vec<usize> = Vec::new();
            rows.push(j);
            let ghost new_bucket = Bucket { key, day, rows };
            table.push(Bucket { key, day, rows });
            assert(table@ == old_table.push(new_bucket));
            assert(new_bucket.rows@ =~= rows_matching(recs, key@, day as int, j as nat).push(j));
            assert forall|c: int| 0 <= c < old_table.len() implies old_table[c].rows@[0] < j by {
                assert(old_table[c].rows@ == rows_matching(recs, old_table[c].key@, old_table[c].day as int, j as nat));
                assert(old_table[c].rows@.contains(old_table[c].rows@[0]));
                lemma_rows_matching_contains(recs, old_table[c].key@, old_table[c].day as int, j as nat, old_table[c].rows@[0]);
            }
            assert forall|c: int| 0 <= c < table@.len() implies
                #[trigger] table@[c].rows@ == rows_matching(recs, table@[c].key@, table@[c].day as int, (j + 1) as nat)
                && table@[c].rows@.len() > 0 by {
                if c < old_table.len() {
                    assert(old_table[c].rows@ == rows_matching(recs, old_table[c].key@, old_table[c].day as int, j as nat));
                }
            }
            assert forall|i: int| 0 <= i < j + 1 implies exists|c: int| 0 <= c < table@.len()
                && table@[c].key@ == key_of(#[trigger] recs[i]) && table@[c].day == recs[i].date.day by {
                if i < j {
                    let c = choose|c: int| 0 <= c < old_table.len()
                        && old_table[c].key@ == key_of(recs[i]) && old_table[c].day == recs[i].date.day;
                    assert(table@[c] == old_table[c]);
                } else {
                    assert(table@[old_table.len() as int].key@ == key_of(recs[i]));
                }
            }
        }
        j = j + 1;
    }
    table
}


/// A row index is in `rows_matching` exactly when it is below `n` and its
/// record is in that group on that day.
pub proof fn lemma_rows_matching_contains(recs: Seq<RecordView>, key: KeyView, day: int, n: nat, x: usize)
    requires
        n <= recs.len(),
        n <= usize::MAX,
    ensures
        rows_matching(recs, key, day, n).contains(x)
            <==> (x < n && key_of(recs[x as int]) == key && recs[x as int].date.day == day),
    decreases n,
{
    if n > 0 {
        lemma_rows_matching_contains(recs, key, day, (n - 1) as nat, x);
        let prev = rows_matching(recs, key, day, (n - 1) as nat);
        if key_of(recs[n - 1]) == key && recs[n - 1].date.day == day {
            assert(prev.push((n - 1) as usize)[prev.len() as int] == (n - 1) as usize);
            if prev.contains(x) {
                let i = choose|i: int| 0 <= i < prev.len() && prev[i] == x;
                assert(prev.push((n - 1) as usize)[i] == x);
            }
        }
    }
}

/// Each record is in exactly one bucket: the one of its group and day.
pub proof fn lemma_record_in_one_bucket(recs: Seq<RecordView>, table: Seq<Bucket>, j: int)
    requires
        recs.len() <= usize::MAX,
        aggregates(recs, recs.len() as nat, table),
        0 <= j < recs.len(),
    ensures
        exists|b: int| 0 <= b < table.len() && table[b].key@ == key_of(recs[j])
            && table[b].day == recs[j].date.day && (#[trigger] table[b].rows@).contains(j as usize),
        forall|b: int| 0 <= b < table.len() && (#[trigger] table[b].rows@).contains(j as usize) ==>
            table[b].key@ == key_of(recs[j]) && table[b].day == recs[j].date.day,
{
    let b = choose|b: int| 0 <= b < table.len() && table[b].key@ == key_of(#[trigger] recs[j])
        && table[b].day == recs[j].date.day;
    assert(table[b].rows@ == rows_matching(recs, table[b].key@, table[b].day as int, recs.len() as nat));
    lemma_rows_matching_contains(recs, table[b].key@, table[b].day as int, recs.len() as nat, j as usize);
    assert forall|c: int| 0 <= c < table.len() && (#[trigger] table[c].rows@).contains(j as usize) implies
        table[c].key@ == key_of(recs[j]) && table[c].day == recs[j].date.day by {
        assert(table[c].rows@ == rows_matching(recs, table[c].key@, table[c].day as int, recs.len() as nat));
        lemma_rows_matching_contains(recs, table[c].key@, table[c].day as int, recs.len() as nat, j as usize);
    }
}

/// Two buckets of the same group and day, with the same rows.
pub open spec fn same_bucket(a: Bucket, b: Bucket) -> bool {
    a.key@ == b.key@ && a.day == b.day && a.rows@ == b.rows@
}

/// Aggregating the same records twice gives the same table: bucket for
/// bucket the same group, day and rows in the same order, so the hours they
/// sum to are the same.
pub proof fn lemma_aggregation_deterministic(recs: Seq<RecordView>, t1: Seq<Bucket>, t2: Seq<Bucket>)
    requires
        recs.len() <= usize::MAX,
        aggregates(recs, recs.len() as nat, t1),
        aggregates(recs, recs.len() as nat, t2),
    ensures
        t1.len() == t2.len(),
        forall|b: int| 0 <= b < t1.len() ==> same_bucket(#[trigger] t1[b], t2[b]),
{
    lemma_same_count(recs, t1, t2);
    lemma_prefix_same(recs, t1, t2, t1.len() as int);
}

proof fn lemma_prefix_same(recs: Seq<RecordView>, t1: Seq<Bucket>, t2: Seq<Bucket>, i: int)
    requires
        recs.len() <= usize::MAX,
        aggregates(recs, recs.len() as nat, t1),
        aggregates(recs, recs.len() as nat, t2),
        t1.len() == t2.len(),
        0 <= i <= t1.len(),
    ensures
        forall|b: int| 0 <= b < i ==> same_bucket(#[trigger] t1[b], t2[b]),
    decreases i,
{
    if i > 0 {
        let k = i - 1;
        lemma_prefix_same(recs, t1, t2, k);
        let c = lemma_twin(recs, t1, t2, k);
        if c < k {
            assert(same_bucket(t1[c], t2[c]));
            assert(t1[c].rows@[0] < t1[k].rows@[0]);
        } else if c > k {
            let d = lemma_twin(recs, t2, t1, k);
            assert(t2[k].rows@[0] < t2[c].rows@[0]);
            if d < k {
                assert(same_bucket(t1[d], t2[d]));
                assert(t2[d].rows@[0] < t2[k].rows@[0]);
            } else if d > k {
                assert(t1[k].rows@[0] < t1[d].rows@[0]);
            }
        }
        assert(same_bucket(t1[k], t2[k]));
    }
}

proof fn lemma_twin(recs: Seq<RecordView>, t1: Seq<Bucket>, t2: Seq<Bucket>, b: int) -> (c: int)
    requires
        recs.len() <= usize::MAX,
        aggregates(recs, recs.len() as nat, t1),
        aggregates(recs, recs.len() as nat, t2),
        0 <= b < t1.len(),
    ensures
        0 <= c < t2.len() && t2[c].key@ == t1[b].key@ && t2[c].day == t1[b].day && t2[c].rows@ == t1[b].rows@,
{
    let n = recs.len() as nat;
    assert(t1[b].rows@ == rows_matching(recs, t1[b].key@, t1[b].day as int, n) && t1[b].rows@.len() > 0);
    let x = t1[b].rows@[0];
    assert(t1[b].rows@.contains(x));
    lemma_rows_matching_contains(recs, t1[b].key@, t1[b].day as int, n, x);
    let j = x as int;
    let c = choose|c: int| 0 <= c < t2.len() && t2[c].key@ == key_of(#[trigger] recs[j]) && t2[c].day == recs[j].date.day;
    assert(t2[c].rows@ == rows_matching(recs, t2[c].key@, t2[c].day as int, n));
    c
}

proof fn lemma_same_count(recs: Seq<RecordView>, t1: Seq<Bucket>, t2: Seq<Bucket>)
    requires
        recs.len() <= usize::MAX,
        aggregates(recs, recs.len() as nat, t1),
        aggregates(recs, recs.len() as nat, t2),
    ensures
        t1.len() == t2.len(),
{
    lemma_injects(recs, t1, t2);
    lemma_injects(recs, t2, t1);
}

proof fn lemma_injects(recs: Seq<RecordView>, t1: Seq<Bucket>, t2: Seq<Bucket>)
    requires
        recs.len() <= usize::MAX,
        aggregates(recs, recs.len() as nat, t1),
        aggregates(recs, recs.len() as nat, t2),
    ensures
        t1.len() <= t2.len(),
{
    let f = |b: int| choose|c: int| 0 <= c < t2.len() && t2[c].key@ == t1[b].key@ && t2[c].day == t1[b].day;
    let idx1 = vstd::set_lib::set_int_range(0, t1.len() as int);
    let idx2 = vstd::set_lib::set_int_range(0, t2.len() as int);
    assert forall|b: int| #[trigger] idx1.contains(b) implies idx2.contains(f(b))
        && t2[f(b)].key@ == t1[b].key@ && t2[f(b)].day == t1[b].day by {
        let c = lemma_twin(recs, t1, t2, b);
    }
    assert forall|a: int, b: int| idx1.contains(a) && idx1.contains(b) && #[trigger] f(a) == #[trigger] f(b) implies a == b by {
        if a != b {
            if a < b {
                assert(!(t1[a].key@ == t1[b].key@ && t1[a].day == t1[b].day));
            } else {
                assert(!(t1[b].key@ == t1[a].key@ && t1[b].day == t1[a].day));
            }
        }
    }
    vstd::set_lib::lemma_int_range(0, t1.len() as int);
    vstd::set_lib::lemma_int_range(0, t2.len() as int);
    let image = idx1.map(f);
    assert(vstd::relations::injective_on(f, idx1));
    vstd::set_lib::lemma_map_size(idx1, image, f);
    assert(image.subset_of(idx2));
    vstd::set_lib::lemma_len_subset(image, idx2);
}

/// Two records without an instructor name, of the same month, school and
/// payment framework, fall in the same group.
pub proof fn lemma_missing_names_group_together(r1: RecordView, r2: RecordView)
    requires
        r1.instructors_name is None,
        r2.instructors_name is None,
        r1.instructors_school == r2.instructors_school,
        r1.paying_framework == r2.paying_framework,
        r1.date.month == r2.date.month,
    ensures
        key_of(r1) == key_of(r2),
        key_of(r1).1 == missing_name(),
{
}

} // verus!
