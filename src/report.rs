//! The layout of the report: one sheet per month in ascending order, one row
//! per group, the days of a group in their columns and a formula for the total.

use vstd::prelude::*;
use vstd::string::StringExecFns;
use crate::aggregate::{Bucket, GroupKey};
use crate::text::{append_decimal, decimal, push_char, same_text};

verus! {

/// The English name of a month, empty for a number that names none.
pub open spec fn month_name_of(m: int) -> Seq<char> {
    if m == 1 { "January"@ }
    else if m == 2 { "February"@ }
    else if m == 3 { "March"@ }
    else if m == 4 { "April"@ }
    else if m == 5 { "May"@ }
    else if m == 6 { "June"@ }
    else if m == 7 { "July"@ }
    else if m == 8 { "August"@ }
    else if m == 9 { "September"@ }
    else if m == 10 { "October"@ }
    else if m == 11 { "November"@ }
    else if m == 12 { "December"@ }
    else { Seq::empty() }
}

/// The English name of a month, empty for a number that names none.
pub fn month_name(m: i32) -> (r: String)
    ensures
        r@ == month_name_of(m as int),
{
    if m == 1 { String::from_str("January") }
    else if m == 2 { String::from_str("February") }
    else if m == 3 { String::from_str("March") }
    else if m == 4 { String::from_str("April") }
    else if m == 5 { String::from_str("May") }
    else if m == 6 { String::from_str("June") }
    else if m == 7 { String::from_str("July") }
    else if m == 8 { String::from_str("August") }
    else if m == 9 { String::from_str("September") }
    else if m == 10 { String::from_str("October") }
    else if m == 11 { String::from_str("November") }
    else if m == 12 { String::from_str("December") }
    else { String::new() }
}

pub open spec fn alphabet() -> Seq<char> {
    "ABCDEFGHIJKLMNOPQRSTUVWXYZ"@
}

/// The label of the `n`-th column, counting from one: `A` to `Z`, then `AA`.
pub open spec fn column_label(n: nat) -> Seq<char>
    decreases n,
{
    if n == 0 {
        Seq::empty()
    } else {
        column_label(((n - 1) / 26) as nat).push(alphabet()[(n - 1) % 26])
    }
}

fn append_column_label(s: &mut String, n: usize)
    ensures
        final(s)@ == old(s)@ + column_label(n as nat),
    decreases n,
{
    if n == 0 {
        assert(final(s)@ =~= old(s)@ + column_label(n as nat));
    } else {
        append_column_label(s, (n - 1) / 26);
        let letters = "ABCDEFGHIJKLMNOPQRSTUVWXYZ";
        proof { reveal_strlit("ABCDEFGHIJKLMNOPQRSTUVWXYZ"); }
        push_char(s, letters.get_char((n - 1) % 26));
        assert(final(s)@ =~= old(s)@ + column_label(n as nat));
    }
}

/// The label of the column at `index`, counting from zero: 0 is `A`,
/// 25 is `Z`, 26 is `AA`.
pub fn index_to_excel_column(index: usize) -> (r: String)
    requires
        index < usize::MAX,
    ensures
        r@ == column_label(index as nat + 1),
{
    let mut s = String::new();
    append_column_label(&mut s, index + 1);
    assert(s@ =~= column_label(index as nat + 1));
    s
}

/// The column of the first day; day `d` stands `d - 1` columns right of it.
pub const FIRST_DAY_COLUMN: usize = 3;

/// The column of the row total.
pub const SUM_COLUMN: u16 = 34;

/// The formula that sums the day columns of sheet row `row`, counting from
/// zero (the header is row 0).
pub open spec fn sum_formula_text(row: nat) -> Seq<char> {
    "=SUM("@ + column_label(4) + decimal(row + 1) + ":"@ + column_label(34) + decimal(row + 1) + ")"@
}

/// The formula that sums the day columns of sheet row `row`.
pub fn sum_formula(row: u64) -> (r: String)
    requires
        row < u64::MAX,
    ensures
        r@ == sum_formula_text(row as nat),
{
    let mut s = String::from_str("=SUM(");
    s.append(index_to_excel_column(FIRST_DAY_COLUMN).as_str());
    append_decimal(&mut s, row + 1);
    s.append(":");
    s.append(index_to_excel_column(FIRST_DAY_COLUMN + 30).as_str());
    append_decimal(&mut s, row + 1);
    s.append(")");
    assert(s@ =~= sum_formula_text(row as nat));
    s
}

/// The sheet column of day `d`: two right of the day's number, as a 16-bit
/// column index wraps.
pub open spec fn day_column_of(d: int) -> int {
    (d + 2) % 65536
}

/// The sheet column of a day.
pub fn day_column(d: i32) -> (r: u16)
    ensures
        r as int == day_column_of(d as int),
{
    let v: i64 = d as i64 + 2;
    (((v % 65536) + 65536) % 65536) as u16
}

/// A cell of a sheet's header row: a title, or the number of a day.
#[derive(Clone, Debug)]
pub enum HeaderCell {
    Title(String),
    Day(u16),
}

/// The header cell is the title `t`.
pub open spec fn is_title(c: HeaderCell, t: Seq<char>) -> bool {
    match c {
        HeaderCell::Title(s) => s@ == t,
        HeaderCell::Day(_) => false,
    }
}

/// The header row of every month's sheet, by column: the group's three
/// titles, the days 1 to 31, and the total.
pub fn header_row() -> (r: Vec<HeaderCell>)
    ensures
        r@.len() == SUM_COLUMN + 1,
        is_title(r@[0], "Name"@),
        is_title(r@[1], "School"@),
        is_title(r@[2], "Payment Framework"@),
        forall|c: int| FIRST_DAY_COLUMN <= c < SUM_COLUMN ==> #[trigger] r@[c] == HeaderCell::Day((c - 2) as u16),
        is_title(r@[SUM_COLUMN as int], "SUM"@),
{
    let mut r: Vec<HeaderCell> = Vec::new();
    r.push(HeaderCell::Title(String::from_str("Name")));
    r.push(HeaderCell::Title(String::from_str("School")));
    r.push(HeaderCell::Title(String::from_str("Payment Framework")));
    let mut day: u16 = 1;
    while day <= 31
        invariant
            1 <= day <= 32,
            r@.len() == day + 2,
            is_title(r@[0], "Name"@),
            is_title(r@[1], "School"@),
            is_title(r@[2], "Payment Framework"@),
            forall|c: int| FIRST_DAY_COLUMN <= c < day + 2 ==> #[trigger] r@[c] == HeaderCell::Day((c - 2) as u16),
        decreases 32 - day,
    {
        r.push(HeaderCell::Day(day));
        day = day + 1;
    }
    r.push(HeaderCell::Title(String::from_str("SUM")));
    r
}

/// One row of a month's sheet: a group and its buckets, one for each day.
#[derive(Clone, Debug)]
pub struct ReportRow {
    pub key: GroupKey,
    pub buckets: Vec<usize>,
}

/// One month's sheet.
#[derive(Clone, Debug)]
pub struct MonthSheet {
    pub month: i32,
    pub name: String,
    pub rows: Vec<ReportRow>,
}

/// A bucket below `n` is of month `m`.
pub open spec fn has_month(table: Seq<Bucket>, n: int, m: i32) -> bool {
    exists|b: int| 0 <= b < n && #[trigger] table[b].key.month == m
}

/// The months the table holds, ascending, each once.
pub open spec fn months_of(table: Seq<Bucket>, months: Seq<i32>) -> bool {
    &&& forall|i: int, j: int| 0 <= i < j < months.len() ==> months[i] < months[j]
    &&& forall|i: int| 0 <= i < months.len() ==> has_month(table, table.len() as int, #[trigger] months[i])
    &&& forall|b: int| 0 <= b < table.len() ==> listed(months, #[trigger] table[b].key.month)
}

/// `m` is among `months`.
pub open spec fn listed(months: Seq<i32>, m: i32) -> bool {
    exists|i: int| 0 <= i < months.len() && months[i] == m
}

/// The distinct months of the buckets, ascending.
pub fn sorted_months(table: &Vec<Bucket>) -> (months: Vec<i32>)
    ensures
        months_of(table@, months@),
{
    let mut months: Vec<i32> = Vec::new();
    let mut b: usize = 0;
    while b < table.len()
        invariant
            b <= table@.len(),
            forall|i: int, j: int| 0 <= i < j < months@.len() ==> months@[i] < months@[j],
            forall|i: int| 0 <= i < months@.len() ==> has_month(table@, b as int, #[trigger] months@[i]),
            forall|c: int| 0 <= c < b ==> listed(months@, #[trigger] table@[c].key.month),
        decreases table@.len() - b,
    {
        let m = table[b].key.month;
        let mut p: usize = 0;
        while p < months.len() && months[p] < m
            invariant
                p <= months@.len(),
                forall|i: int| 0 <= i < p ==> months@[i] < m,
            decreases months@.len() - p,
        {
            p = p + 1;
        }
        let ghost before = months@;
        if p < months.len() && months[p] == m {
            assert(months@[p as int] == table@[b as int].key.month);
        } else {
            months.insert(p, m);
            assert(months@ =~= before.insert(p as int, m));
            assert forall|i: int| 0 <= i < months@.len() implies has_month(table@, b + 1, #[trigger] months@[i]) by {
                if i < p {
                    assert(months@[i] == before[i]);
                    assert(has_month(table@, b as int, before[i]));
                } else if i == p {
                    assert(table@[b as int].key.month == months@[i]);
                } else {
                    assert(months@[i] == before[i - 1]);
                    assert(has_month(table@, b as int, before[i - 1]));
                }
            }
            assert forall|c: int| 0 <= c < b + 1 implies listed(months@, #[trigger] table@[c].key.month) by {
                if c < b {
                    let i = choose|i: int| 0 <= i < before.len() && before[i] == table@[c].key.month;
                    if i < p {
                        assert(months@[i] == before[i]);
                    } else {
                        assert(months@[i + 1] == before[i]);
                    }
                } else {
                    assert(months@[p as int] == m);
                }
            }
        }
        b = b + 1;
    }
    assert forall|i: int| 0 <= i < months@.len() implies has_month(table@, table@.len() as int, #[trigger] months@[i]) by {
        assert(has_month(table@, b as int, months@[i]));
    }
    months
}


fn copy_key(k: &GroupKey) -> (r: GroupKey)
    ensures
        r@ == k@,
{
    GroupKey {
        month: k.month,
        name: k.name.clone(),
        school: k.school.clone(),
        framework: k.framework.clone(),
    }
}

fn same_group(a: &GroupKey, b: &GroupKey) -> (r: bool)
    ensures
        r == (a@ == b@),
{
    a.month == b.month && same_text(a.name.as_str(), b.name.as_str())
        && same_text(a.school.as_str(), b.school.as_str())
        && same_text(a.framework.as_str(), b.framework.as_str())
}

/// Bucket `b` is listed in one of the rows.
pub open spec fn placed(rows: Seq<ReportRow>, b: usize) -> bool {
    exists|r: int, k: int| 0 <= r < rows.len() && 0 <= k < rows[r].buckets@.len() && rows[r].buckets@[k] == b
}

/// `rows` are the rows of month `m`: one for each group of that month, each
/// listing the buckets of its group in table order, and every bucket of the
/// month listed. Rows come in the order their groups first appear in the
/// table.
pub open spec fn rows_of_month(table: Seq<Bucket>, m: i32, rows: Seq<ReportRow>) -> bool {
    &&& forall|r: int| 0 <= r < rows.len() ==> (#[trigger] rows[r]).key.month == m
    &&& forall|r: int, q: int| 0 <= r < q < rows.len() ==> rows[r].key@ != rows[q].key@
    &&& forall|r: int, k: int| 0 <= r < rows.len() && 0 <= k < rows[r].buckets@.len() ==>
        (#[trigger] rows[r].buckets@[k]) < table.len() && table[rows[r].buckets@[k] as int].key@ == rows[r].key@
    &&& forall|b: int| 0 <= b < table.len() && #[trigger] table[b].key.month == m ==> placed(rows, b as usize)
    &&& forall|r: int, k1: int, k2: int| 0 <= r < rows.len() && 0 <= k1 < k2 < rows[r].buckets@.len() ==>
        #[trigger] rows[r].buckets@[k1] < #[trigger] rows[r].buckets@[k2]
    &&& forall|r: int| 0 <= r < rows.len() ==> (#[trigger] rows[r]).buckets@.len() > 0
    &&& forall|r: int, q: int| 0 <= r < q < rows.len() ==> rows[r].buckets@[0] < rows[q].buckets@[0]
}

/// The rows of month `m`, in the order their groups first appear.
pub fn rows_for_month(table: &Vec<Bucket>, m: i32) -> (rows: Vec<ReportRow>)
    ensures
        rows_of_month(table@, m, rows@),
{
    let mut rows: Vec<ReportRow> = Vec::new();
    let mut b: usize = 0;
    while b < table.len()
        invariant
            b <= table@.len(),
            forall|r: int| 0 <= r < rows@.len() ==> (#[trigger] rows@[r]).key.month == m,
            forall|r: int, q: int| 0 <= r < q < rows@.len() ==> rows@[r].key@ != rows@[q].key@,
            forall|r: int, k: int| 0 <= r < rows@.len() && 0 <= k < rows@[r].buckets@.len() ==>
                (#[trigger] rows@[r].buckets@[k]) < table@.len() && table@[rows@[r].buckets@[k] as int].key@ == rows@[r].key@,
            forall|c: int| 0 <= c < b && #[trigger] table@[c].key.month == m ==> placed(rows@, c as usize),
            forall|r: int, k1: int, k2: int| 0 <= r < rows@.len() && 0 <= k1 < k2 < rows@[r].buckets@.len() ==>
                #[trigger] rows@[r].buckets@[k1] < #[trigger] rows@[r].buckets@[k2],
            forall|r: int, k: int| 0 <= r < rows@.len() && 0 <= k < rows@[r].buckets@.len() ==>
                #[trigger] rows@[r].buckets@[k] < b,
            forall|r: int| 0 <= r < rows@.len() ==> (#[trigger] rows@[r]).buckets@.len() > 0,
            forall|r: int, q: int| 0 <= r < q < rows@.len() ==> rows@[r].buckets@[0] < rows@[q].buckets@[0],
        decreases table@.len() - b,
    {
        if table[b].key.month == m {
            let mut r: usize = 0;
            while r < rows.len() && !same_group(&rows[r].key, &table[b].key)
                invariant
                    b < table@.len(),
                    r <= rows@.len(),
                    forall|q: int| 0 <= q < r ==> rows@[q].key@ != table@[b as int].key@,
                decreases rows@.len() - r,
            {
                r = r + 1;
            }
            let ghost before = rows@;
            if r < rows.len() {
                let mut row = rows.remove(r);
                let ghost old_buckets = row.buckets@;
                row.buckets.push(b);
                rows.insert(r, row);
                assert(rows@ =~= before.update(r as int, row));
                assert(row.buckets@[0] == old_buckets[0]);
                assert(forall|q: int| 0 <= q < rows@.len() ==> rows@[q].buckets@[0] == before[q].buckets@[0]);
                assert forall|c: int| 0 <= c < b + 1 && #[trigger] table@[c].key.month == m implies placed(rows@, c as usize) by {
                    if c < b {
                        let (r0, k0) = choose|r0: int, k0: int| 0 <= r0 < before.len() && 0 <= k0 < before[r0].buckets@.len() && before[r0].buckets@[k0] == c as usize;
                        if r0 == r as int {
                            assert(rows@[r0].buckets@[k0] == c as usize);
                        } else {
                            assert(rows@[r0] == before[r0]);
                        }
                    } else {
                        assert(rows@[r as int].buckets@[old_buckets.len() as int] == b);
                    }
                }
                assert forall|q: int, k: int| 0 <= q < rows@.len() && 0 <= k < rows@[q].buckets@.len() implies
                    (#[trigger] rows@[q].buckets@[k]) < table@.len() && table@[rows@[q].buckets@[k] as int].key@ == rows@[q].key@
                    && rows@[q].buckets@[k] < b + 1 by {
                    if q == r as int && k < old_buckets.len() {
                        assert(rows@[q].buckets@[k] == before[q].buckets@[k]);
                    }
                }
                assert forall|q: int, k1: int, k2: int| 0 <= q < rows@.len() && 0 <= k1 < k2 < rows@[q].buckets@.len() implies
                    #[trigger] rows@[q].buckets@[k1] < #[trigger] rows@[q].buckets@[k2] by {
                    if q == r as int {
                        assert(rows@[q].buckets@[k1] == before[q].buckets@[k1]);
                        if k2 < old_buckets.len() {
                            assert(rows@[q].buckets@[k2] == before[q].buckets@[k2]);
                        }
                    }
                }
            } else {
                let mut buckets: Vec<usize> = Vec::new();
                buckets.push(b);
                let row = ReportRow { key: copy_key(&table[b].key), buckets };
                rows.push(row);
                assert(rows@ == before.push(row));
                assert(forall|q: int| 0 <= q < before.len() ==> before[q].buckets@[0] < b);
                assert forall|c: int| 0 <= c < b + 1 && #[trigger] table@[c].key.month == m implies placed(rows@, c as usize) by {
                    if c < b {
                        let (r0, k0) = choose|r0: int, k0: int| 0 <= r0 < before.len() && 0 <= k0 < before[r0].buckets@.len() && before[r0].buckets@[k0] == c as usize;
                        assert(rows@[r0] == before[r0]);
                    } else {
                        assert(rows@[before.len() as int].buckets@[0] == b);
                    }
                }
            }
        }
        b = b + 1;
    }
    rows
}

/// The report's sheets: one for each month the table holds, ascending, each
/// named after its month and holding that month's rows.
pub fn build_report(table: &Vec<Bucket>) -> (sheets: Vec<MonthSheet>)
    ensures
        months_of(table@, sheets@.map_values(|s: MonthSheet| s.month)),
        forall|i: int| 0 <= i < sheets@.len() ==> (#[trigger] sheets@[i]).name@ == month_name_of(sheets@[i].month as int)
            && rows_of_month(table@, sheets@[i].month, sheets@[i].rows@),
{
    let months = sorted_months(table);
    let mut sheets: Vec<MonthSheet> = Vec::new();
    let mut i: usize = 0;
    while i < months.len()
        invariant
            i <= months@.len(),
            sheets@.len() == i,
            forall|j: int| 0 <= j < i ==> (#[trigger] sheets@[j]).month == months@[j],
            forall|j: int| 0 <= j < i ==> (#[trigger] sheets@[j]).name@ == month_name_of(sheets@[j].month as int)
                && rows_of_month(table@, sheets@[j].month, sheets@[j].rows@),
        decreases months@.len() - i,
    {
        let m = months[i];
        sheets.push(MonthSheet { month: m, name: month_name(m), rows: rows_for_month(table, m) });
        i = i + 1;
    }
    assert(sheets@.map_values(|s: MonthSheet| s.month) =~= months@);
    sheets
}


/// The position of the last `c` in `s` before `n`, or -1.
pub open spec fn last_index(s: Seq<char>, c: char, n: int) -> int
    decreases n,
{
    if n <= 0 {
        -1
    } else if s[n - 1] == c {
        n - 1
    } else {
        last_index(s, c, n - 1)
    }
}

/// The path without what ends it but names no file: trailing `/`, and a
/// trailing `.` component.
pub open spec fn strip_tail(s: Seq<char>) -> Seq<char>
    decreases s.len(),
{
    if s.len() > 0 && s.last() == '/' {
        strip_tail(s.drop_last())
    } else if s.len() >= 2 && s.last() == '.' && s[s.len() - 2] == '/' {
        strip_tail(s.drop_last())
    } else {
        s
    }
}

/// A path that ends in a spreadsheet extension. The file name is the last
/// component, after trailing `/` and `.` components are set aside; its
/// extension is what follows its last `.`, where that dot is not its first
/// character. A file name with the extension `xlsx` leaves the path as it is;
/// any other extension is replaced, and a name without one gets `.xlsx`, in
/// both cases right after the name. A path whose last component is empty, `.`
/// or `..` names no file and stays as it is.
pub open spec fn with_xlsx_extension(s: Seq<char>) -> Seq<char> {
    let t = strip_tail(s);
    let start = last_index(t, '/', t.len() as int) + 1;
    let name = t.subrange(start, t.len() as int);
    let dot = last_index(t, '.', t.len() as int);
    if name.len() == 0 || name == "."@ || name == ".."@ {
        s
    } else if dot > start {
        if t.subrange(dot + 1, t.len() as int) == "xlsx"@ {
            s
        } else {
            t.subrange(0, dot + 1) + "xlsx"@
        }
    } else {
        t + ".xlsx"@
    }
}

fn strip_len(s: &str) -> (m: usize)
    ensures
        m <= s@.len(),
        s@.subrange(0, m as int) == strip_tail(s@),
{
    let n = s.unicode_len();
    let mut m: usize = n;
    assert(s@.subrange(0, n as int) =~= s@);
    while (m > 0 && s.get_char(m - 1) == '/') || (m >= 2 && s.get_char(m - 1) == '.' && s.get_char(m - 2) == '/')
        invariant
            n == s@.len(),
            m <= n,
            strip_tail(s@) == strip_tail(s@.subrange(0, m as int)),
        decreases m,
    {
        assert(s@.subrange(0, m - 1) =~= s@.subrange(0, m as int).drop_last());
        m = m - 1;
    }
    m
}

proof fn lemma_last_index_range(s: Seq<char>, c: char, n: int)
    requires
        0 <= n <= s.len(),
    ensures
        -1 <= last_index(s, c, n) < n,
        last_index(s, c, n) >= 0 ==> s[last_index(s, c, n)] == c,
    decreases n,
{
    if n > 0 {
        lemma_last_index_range(s, c, n - 1);
    }
}

fn find_last(s: &str, c: char) -> (r: i64)
    requires
        s@.len() < i64::MAX,
    ensures
        r == last_index(s@, c, s@.len() as int),
        -1 <= r < s@.len(),
{
    proof { lemma_last_index_range(s@, c, s@.len() as int); }
    let n = s.unicode_len();
    let mut i: usize = n;
    while i > 0 && s.get_char(i - 1) != c
        invariant
            n == s@.len(),
            i <= n,
            last_index(s@, c, n as int) == last_index(s@, c, i as int),
        decreases i,
    {
        i = i - 1;
    }
    if i == 0 { -1 } else { (i - 1) as i64 }
}

/// The path with a spreadsheet extension, as `with_xlsx_extension` says.
pub fn ensure_xlsx_extension(output_path: &str) -> (r: String)
    requires
        output_path@.len() < i64::MAX,
    ensures
        r@ == with_xlsx_extension(output_path@),
{
    let m = strip_len(output_path);
    let t = output_path.substring_char(0, m);
    let start = (find_last(t, '/') + 1) as usize;
    let dot = find_last(t, '.');
    let name = t.substring_char(start, m);
    if m == start || same_text(name, ".") || same_text(name, "..") {
        return String::from_str(output_path);
    }
    if dot > start as i64 {
        let ext = t.substring_char((dot + 1) as usize, m);
        if same_text(ext, "xlsx") {
            String::from_str(output_path)
        } else {
            let mut s = String::from_str(t.substring_char(0, (dot + 1) as usize));
            s.append("xlsx");
            s
        }
    } else {
        let mut s = String::from_str(t);
        s.append(".xlsx");
        s
    }
}

} // verus!
