use vstd::prelude::*;
use itertools::Itertools;
use crate::condition::Condition;
use crate::condition::CondV;
use crate::condition::spec_eval;
use crate::errors::EvalError;
use crate::errors::EvalErrorV;
use crate::errors::SetOp;
use crate::strings::spec_parse_bool;
use crate::strings::parse_bool;
use crate::strings::pop_char;
use crate::strings::push_char;
use vstd::string::StringExecFns;

verus! {

/// A table: an ordered sequence of rows of string values.  Row 0 is always
/// the header (the column names), every row has the header's width, and
/// `types` tags each column `Integer` or `String`.  The tags are carried
/// along by the algebra, never consulted by it.
#[derive(Debug, Clone)]
pub struct Table {
    pub rows: Vec<Vec<String>>,
    pub types: Vec<String>,
}

/// The mathematical model of a table: every value abstracted to its
/// sequence of characters.
#[verifier::ext_equal]
pub ghost struct TableV {
    pub rows: Seq<Seq<Seq<char>>>,
    pub types: Seq<Seq<char>>,
}

impl View for Table {
    type V = TableV;

    open spec fn view(&self) -> TableV {
        TableV { rows: self.rows.deep_view(), types: self.types.deep_view() }
    }
}

/// Well-formedness: the header is present, every row has its width, and
/// there is one type tag per column.
pub open spec fn table_wf(t: TableV) -> bool {
    &&& t.rows.len() >= 1
    &&& forall|i: int| 0 <= i < t.rows.len() ==> #[trigger] t.rows[i].len() == t.rows[0].len()
    &&& t.types.len() == t.rows[0].len()
}

impl Table {
    /// Well-formedness of this table's model.
    pub open spec fn wf(&self) -> bool {
        table_wf(self@)
    }

    /// Whether this table is well-formed: the header row is present, every
    /// row has the header's width, and there is one type tag per column.
    pub fn check_wf(&self) -> (r: bool)
        ensures
            r == self.wf(),
    {
        if self.rows.len() == 0 {
            return false;
        }
        let width = self.rows[0].len();
        proof {
            assert(self@.rows[0] == self.rows@[0].deep_view());
        }
        if self.types.len() != width {
            return false;
        }
        let mut i: usize = 0;
        while i < self.rows.len()
            invariant
                i <= self.rows.len(),
                self.rows.len() >= 1,
                width == self@.rows[0].len(),
                forall|k: int| 0 <= k < i ==> #[trigger] self@.rows[k].len() == self@.rows[0].len(),
            decreases self.rows.len() - i,
        {
            proof {
                assert(self@.rows[i as int] == self.rows@[i as int].deep_view());
            }
            if self.rows[i].len() != width {
                return false;
            }
            i = i + 1;
        }
        true
    }
}

// ---------------------------------------------------------------------------
// Row helpers
// ---------------------------------------------------------------------------
/// A copy of a row whose elements equal the originals.
pub(crate) fn clone_row(r: &Vec<String>) -> (res: Vec<String>)
    ensures
        res@ == r@,
        res.deep_view() == r.deep_view(),
{
    let mut out: Vec<String> = Vec::new();
    let mut i: usize = 0;
    while i < r.len()
        invariant
            i <= r.len(),
            out@ == r@.take(i as int),
        decreases r.len() - i,
    {
        out.push(r[i].clone());
        proof {
            assert(out@ =~= r@.take(i as int + 1));
        }
        i = i + 1;
    }
    proof {
        assert(r@.take(r@.len() as int) =~= r@);
        assert(out.deep_view() =~= r.deep_view());
    }
    out
}

/// A copy of a sequence of rows with the same model.
pub(crate) fn clone_rows(r: &Vec<Vec<String>>) -> (res: Vec<Vec<String>>)
    ensures
        res.deep_view() == r.deep_view(),
{
    let mut out: Vec<Vec<String>> = Vec::new();
    let mut i: usize = 0;
    while i < r.len()
        invariant
            i <= r.len(),
            out.deep_view() == r.deep_view().take(i as int),
        decreases r.len() - i,
    {
        let row = clone_row(&r[i]);
        let ghost pre = out.deep_view();
        proof {
            assert(r.deep_view()[i as int] == r@[i as int].deep_view());
        }
        let ghost rowdv = row.deep_view();
        out.push(row);
        proof {
            assert(out.deep_view() =~= pre.push(rowdv));
            assert(pre.push(rowdv) =~= r.deep_view().take(i as int + 1));
        }
        i = i + 1;
    }
    proof {
        assert(r.deep_view().take(r@.len() as int) =~= r.deep_view());
    }
    out
}

impl Table {
    /// A copy of this table with the same model.
    pub fn duplicate(&self) -> (t: Table)
        ensures
            t@ == self@,
    {
        let t = Table { rows: clone_rows(&self.rows), types: clone_row(&self.types) };
        proof {
            assert(t@ =~= self@);
        }
        t
    }
}

/// Whether two rows hold the same values.
pub(crate) fn row_eq(a: &Vec<String>, b: &Vec<String>) -> (r: bool)
    ensures
        r == (a.deep_view() == b.deep_view()),
{
    if a.len() != b.len() {
        proof {
            assert(a.deep_view().len() == a@.len());
            assert(b.deep_view().len() == b@.len());
        }
        return false;
    }
    let mut i: usize = 0;
    while i < a.len()
        invariant
            i <= a.len(),
            a.len() == b.len(),
            forall|k: int| 0 <= k < i ==> #[trigger] a.deep_view()[k] == b.deep_view()[k],
        decreases a.len() - i,
    {
        proof {
            assert(a.deep_view()[i as int] == a@[i as int]@);
            assert(b.deep_view()[i as int] == b@[i as int]@);
        }
        if !a[i].eq(&b[i]) {
            return false;
        }
        i = i + 1;
    }
    proof {
        assert(a.deep_view() =~= b.deep_view());
    }
    true
}

/// Whether `rows` holds a row with the same values as `row`.
pub(crate) fn rows_contain(rows: &Vec<Vec<String>>, row: &Vec<String>) -> (r: bool)
    ensures
        r == rows.deep_view().contains(row.deep_view()),
{
    let mut i: usize = 0;
    while i < rows.len()
        invariant
            i <= rows.len(),
            forall|k: int| 0 <= k < i ==> #[trigger] rows.deep_view()[k] != row.deep_view(),
        decreases rows.len() - i,
    {
        proof {
            assert(rows.deep_view()[i as int] == rows@[i as int].deep_view());
        }
        if row_eq(&rows[i], row) {
            return true;
        }
        i = i + 1;
    }
    proof {
        assert(forall|k: int|
            0 <= k < rows.deep_view().len() ==> #[trigger] rows.deep_view()[k]
                != row.deep_view());
    }
    false
}

/// Whether `names` holds a name with the same characters as `name`.
pub(crate) fn names_contain(names: &Vec<String>, name: &String) -> (r: bool)
    ensures
        r == names.deep_view().contains(name@),
{
    let mut i: usize = 0;
    while i < names.len()
        invariant
            i <= names.len(),
            forall|k: int| 0 <= k < i ==> #[trigger] names.deep_view()[k] != name@,
        decreases names.len() - i,
    {
        proof {
            assert(names.deep_view()[i as int] == names@[i as int]@);
        }
        if names[i].eq(name) {
            return true;
        }
        i = i + 1;
    }
    proof {
        assert(forall|k: int|
            0 <= k < names.deep_view().len() ==> #[trigger] names.deep_view()[k] != name@);
    }
    false
}

// ---------------------------------------------------------------------------
// Deduplication
// ---------------------------------------------------------------------------
/// Appends to `acc` those of `rows`, in order, that are not already
/// present in the running result.
pub open spec fn add_unique(acc: Seq<Seq<Seq<char>>>, rows: Seq<Seq<Seq<char>>>) -> Seq<
    Seq<Seq<char>>,
>
    decreases rows.len(),
{
    if rows.len() == 0 {
        acc
    } else {
        let acc2 = if acc.contains(rows[0]) {
            acc
        } else {
            acc.push(rows[0])
        };
        add_unique(acc2, rows.skip(1))
    }
}

/// Relies on itertools' `unique` iterator adaptor: it yields the rows in
/// order, keeping the first occurrence of each distinct row and filtering
/// out every later duplicate (duplicates are detected by row equality).
#[verifier::external_body]
fn dedup_rows(rows: Vec<Vec<String>>) -> (r: Vec<Vec<String>>)
    ensures
        r.deep_view() == add_unique(Seq::empty(), rows.deep_view()),
{
    rows.into_iter().unique().collect()
}

// ---------------------------------------------------------------------------
// The algebra: specifications
// ---------------------------------------------------------------------------
/// Union: requires equal headers; all of `a`'s rows, then each row of `b`
/// not already present in the running result.
pub open spec fn spec_union(a: TableV, b: TableV) -> Result<TableV, EvalErrorV> {
    if a.rows[0] != b.rows[0] {
        Err(EvalErrorV::HeaderMismatch(SetOp::Union))
    } else {
        Ok(TableV { rows: add_unique(a.rows, b.rows.skip(1)), types: a.types })
    }
}

/// The rows of `rows` that appear nowhere in `other`, in order, duplicates
/// kept.
pub open spec fn rows_minus(rows: Seq<Seq<Seq<char>>>, other: Seq<Seq<Seq<char>>>) -> Seq<
    Seq<Seq<char>>,
>
    decreases rows.len(),
{
    if rows.len() == 0 {
        Seq::empty()
    } else {
        let rest = rows_minus(rows.skip(1), other);
        if other.contains(rows[0]) {
            rest
        } else {
            seq![rows[0]] + rest
        }
    }
}

/// Difference: requires equal headers; the data rows of `a` that appear
/// nowhere in `b`.
pub open spec fn spec_minus(a: TableV, b: TableV) -> Result<TableV, EvalErrorV> {
    if a.rows[0] != b.rows[0] {
        Err(EvalErrorV::HeaderMismatch(SetOp::Minus))
    } else {
        Ok(TableV { rows: seq![a.rows[0]] + rows_minus(a.rows.skip(1), b.rows), types: a.types })
    }
}

/// One copy of `r` for every row of `brows` equal to it.
pub open spec fn emit_matches(r: Seq<Seq<char>>, brows: Seq<Seq<Seq<char>>>) -> Seq<Seq<Seq<char>>>
    decreases brows.len(),
{
    if brows.len() == 0 {
        Seq::empty()
    } else {
        (if brows[0] == r {
            seq![r]
        } else {
            Seq::empty()
        }) + emit_matches(r, brows.skip(1))
    }
}

/// For each row of `arows` in order, one copy per equal row of `brows`:
/// the documented pair-emission rule, so a row matching k duplicates
/// appears k times.
pub open spec fn rows_intersect(
    arows: Seq<Seq<Seq<char>>>,
    brows: Seq<Seq<Seq<char>>>,
) -> Seq<Seq<Seq<char>>>
    decreases arows.len(),
{
    if arows.len() == 0 {
        Seq::empty()
    } else {
        emit_matches(arows[0], brows) + rows_intersect(arows.skip(1), brows)
    }
}

/// Intersection: requires equal headers; one output row per matching pair
/// of data rows.
pub open spec fn spec_intersect(a: TableV, b: TableV) -> Result<TableV, EvalErrorV> {
    if a.rows[0] != b.rows[0] {
        Err(EvalErrorV::HeaderMismatch(SetOp::Intersect))
    } else {
        Ok(
            TableV {
                rows: seq![a.rows[0]] + rows_intersect(a.rows.skip(1), b.rows.skip(1)),
                types: a.types,
            },
        )
    }
}

/// `r` prefixed onto every row of `brows`, in order.
pub open spec fn cross_row(r: Seq<Seq<char>>, brows: Seq<Seq<Seq<char>>>) -> Seq<Seq<Seq<char>>>
    decreases brows.len(),
{
    if brows.len() == 0 {
        Seq::empty()
    } else {
        seq![r + brows[0]] + cross_row(r, brows.skip(1))
    }
}

/// Every row of `arows` concatenated with every row of `brows`, `arows`
/// outermost.
pub open spec fn rows_cross(arows: Seq<Seq<Seq<char>>>, brows: Seq<Seq<Seq<char>>>) -> Seq<
    Seq<Seq<char>>,
>
    decreases arows.len(),
{
    if arows.len() == 0 {
        Seq::empty()
    } else {
        cross_row(arows[0], brows) + rows_cross(arows.skip(1), brows)
    }
}

/// Cartesian product: headers concatenated (no collision detection), every
/// data row of `a` concatenated with every data row of `b`, type tags
/// concatenated.
pub open spec fn spec_multiply(a: TableV, b: TableV) -> TableV {
    TableV {
        rows: seq![a.rows[0] + b.rows[0]] + rows_cross(a.rows.skip(1), b.rows.skip(1)),
        types: a.types + b.types,
    }
}

/// Whether one data row satisfies a condition: the condition's value over
/// the row binding, read back as a boolean.
pub open spec fn spec_row_keep(c: CondV, header: Seq<Seq<char>>, row: Seq<Seq<char>>) -> Result<
    bool,
    EvalErrorV,
> {
    match spec_eval(c, header, row) {
        Err(e) => Err(e),
        Ok(v) => match spec_parse_bool(v) {
            None => Err(EvalErrorV::NotBoolean(v)),
            Some(b) => Ok(b),
        },
    }
}

/// The data rows whose condition value is the text `true`, in order; the
/// first row whose value is not a boolean, or does not evaluate, fails the
/// whole selection.
pub open spec fn rows_select(
    header: Seq<Seq<char>>,
    data: Seq<Seq<Seq<char>>>,
    c: CondV,
) -> Result<Seq<Seq<Seq<char>>>, EvalErrorV>
    decreases data.len(),
{
    if data.len() == 0 {
        Ok(Seq::empty())
    } else {
        match spec_row_keep(c, header, data[0]) {
            Err(e) => Err(e),
            Ok(keep) => match rows_select(header, data.skip(1), c) {
                Err(e) => Err(e),
                Ok(rest) => Ok(
                    if keep {
                        seq![data[0]] + rest
                    } else {
                        rest
                    },
                ),
            },
        }
    }
}

/// Selection: header unchanged, keeping each data row whose condition
/// value is the text `true`.
pub open spec fn spec_select(a: TableV, c: CondV) -> Result<TableV, EvalErrorV> {
    match rows_select(a.rows[0], a.rows.skip(1), c) {
        Err(e) => Err(e),
        Ok(rs) => Ok(TableV { rows: seq![a.rows[0]] + rs, types: a.types }),
    }
}

/// The index at or after `i` of the first column of `hdr` named `name`.
pub open spec fn col_index_from(hdr: Seq<Seq<char>>, name: Seq<char>, i: int) -> Option<int>
    decreases hdr.len() - i,
{
    if !(0 <= i < hdr.len()) {
        None
    } else if hdr[i] == name {
        Some(i)
    } else {
        col_index_from(hdr, name, i + 1)
    }
}

/// The index of the first column of `hdr` named `name`.
pub open spec fn find_col(hdr: Seq<Seq<char>>, name: Seq<char>) -> Option<int> {
    col_index_from(hdr, name, 0)
}

/// Every row with position `j` removed.
pub open spec fn rows_remove_at(rows: Seq<Seq<Seq<char>>>, j: int) -> Seq<Seq<Seq<char>>>
    decreases rows.len(),
{
    if rows.len() == 0 {
        Seq::empty()
    } else {
        seq![rows[0].remove(j)] + rows_remove_at(rows.skip(1), j)
    }
}

/// Removing one column by name: the first column of that name leaves every
/// row and the type tags; a table without such a column is unchanged.
pub open spec fn spec_remove_column(t: TableV, name: Seq<char>) -> TableV {
    match find_col(t.rows[0], name) {
        None => t,
        Some(j) => TableV { rows: rows_remove_at(t.rows, j), types: t.types.remove(j) },
    }
}

/// One projection step per column of the original header, in order: a
/// column named in the remaining list keeps its place and uses up the first
/// matching list entry; any other column is removed from the running
/// result.
pub open spec fn project_steps(t: TableV, cols: Seq<Seq<char>>, rem: Seq<Seq<char>>) -> TableV
    decreases rem.len(),
{
    if rem.len() == 0 {
        t
    } else {
        match find_col(cols, rem[0]) {
            Some(j) => project_steps(t, cols.remove(j), rem.skip(1)),
            None => project_steps(spec_remove_column(t, rem[0]), cols, rem.skip(1)),
        }
    }
}

/// Projection: every column not named in `cols` is removed in header
/// order (names in `cols` absent from the header are ignored), then the
/// rows are deduplicated, the first occurrence of each surviving.
pub open spec fn spec_project(t: TableV, cols: Seq<Seq<char>>) -> TableV {
    let stepped = project_steps(t, cols, t.rows[0]);
    TableV { rows: add_unique(Seq::empty(), stepped.rows), types: stepped.types }
}

/// The columns of `ah` whose names do not appear in `bh`, in order.
pub open spec fn excl_cols(ah: Seq<Seq<char>>, bh: Seq<Seq<char>>) -> Seq<Seq<char>>
    decreases ah.len(),
{
    if ah.len() == 0 {
        Seq::empty()
    } else {
        (if bh.contains(ah[0]) {
            Seq::empty()
        } else {
            seq![ah[0]]
        }) + excl_cols(ah.skip(1), bh)
    }
}

/// Division, exactly as composed from the primitives: with `attrs` the
/// columns of `a` not named in `b`,
/// `project(a,attrs) minus project(minus(multiply(project(a,attrs),b),a),attrs)`.
pub open spec fn spec_divide(a: TableV, b: TableV) -> Result<TableV, EvalErrorV> {
    let attrs = excl_cols(a.rows[0], b.rows[0]);
    let pa = spec_project(a, attrs);
    let prod = spec_multiply(pa, b);
    match spec_minus(prod, a) {
        Err(e) => Err(e),
        Ok(m) => {
            let pm = spec_project(m, attrs);
            spec_minus(pa, pm)
        },
    }
}

/// The text of the padding value outer joins use for missing columns.
pub open spec fn null_chars() -> Seq<char> {
    seq!['N', 'u', 'l', 'l']
}

/// The one-data-row padding table for an outer join: the columns of `of`
/// not named in `against`'s header, one `Null` under each, and `of`'s type
/// tags carried along unchanged.
pub open spec fn null_table(of: TableV, against: TableV) -> TableV {
    let nh = excl_cols(of.rows[0], against.rows[0]);
    TableV { rows: seq![nh, Seq::new(nh.len(), |k: int| null_chars())], types: of.types }
}

/// Join: selection over the Cartesian product.
pub open spec fn spec_join(a: TableV, c: CondV, b: TableV) -> Result<TableV, EvalErrorV> {
    spec_select(spec_multiply(a, b), c)
}

/// Left outer join: the join's rows, unioned with the rows of `a` that the
/// join matched nowhere (found by projecting the join down to `a`'s own
/// columns and subtracting), each crossed with the `Null` padding row for
/// `b`'s exclusive columns.
pub open spec fn spec_left_join(a: TableV, c: CondV, b: TableV) -> Result<TableV, EvalErrorV> {
    match spec_join(a, c, b) {
        Err(e) => Err(e),
        Ok(j) => match spec_minus(a, spec_project(j, a.rows[0])) {
            Err(e) => Err(e),
            Ok(m) => spec_union(j, spec_multiply(m, null_table(b, a))),
        },
    }
}

/// Right outer join: symmetric to the left join, preserving `b`'s rows and
/// padding `a`'s exclusive columns, the padding columns leftmost.
pub open spec fn spec_right_join(a: TableV, c: CondV, b: TableV) -> Result<TableV, EvalErrorV> {
    match spec_join(a, c, b) {
        Err(e) => Err(e),
        Ok(j) => match spec_minus(b, spec_project(j, b.rows[0])) {
            Err(e) => Err(e),
            Ok(m) => spec_union(j, spec_multiply(null_table(a, b), m)),
        },
    }
}

/// Full outer join: the union of the left and the right join.
pub open spec fn spec_full_join(a: TableV, c: CondV, b: TableV) -> Result<TableV, EvalErrorV> {
    match spec_left_join(a, c, b) {
        Err(e) => Err(e),
        Ok(l) => match spec_right_join(a, c, b) {
            Err(e) => Err(e),
            Ok(r) => spec_union(l, r),
        },
    }
}

// ---------------------------------------------------------------------------
// Sequence lemmas
// ---------------------------------------------------------------------------
/// Membership splits into the head and the rest.
pub proof fn lemma_contains_skip1<A>(s: Seq<A>, x: A)
    requires
        s.len() > 0,
    ensures
        s.contains(x) == (s[0] == x || s.skip(1).contains(x)),
{
    if s.contains(x) {
        let j = choose|j: int| 0 <= j < s.len() && s[j] == x;
        if j > 0 {
            assert(s.skip(1)[j - 1] == x);
        }
    }
    if s.skip(1).contains(x) {
        let j = choose|j: int| 0 <= j < s.skip(1).len() && s.skip(1)[j] == x;
        assert(s[j + 1] == x);
    }
}

/// Membership in a pushed sequence.
pub proof fn lemma_contains_push<A>(s: Seq<A>, y: A, x: A)
    ensures
        s.push(y).contains(x) == (s.contains(x) || x == y),
{
    if s.push(y).contains(x) {
        let j = choose|j: int| 0 <= j < s.push(y).len() && s.push(y)[j] == x;
        if j < s.len() {
            assert(s[j] == x);
        }
    }
    if s.contains(x) {
        let j = choose|j: int| 0 <= j < s.len() && s[j] == x;
        assert(s.push(y)[j] == x);
    }
    if x == y {
        assert(s.push(y)[s.len() as int] == x);
    }
}

/// Deduplication never shortens the accumulator.
pub proof fn lemma_add_unique_len(acc: Seq<Seq<Seq<char>>>, rows: Seq<Seq<Seq<char>>>)
    ensures
        add_unique(acc, rows).len() >= acc.len(),
    decreases rows.len(),
{
    if rows.len() == 0 {
    } else {
        let acc2 = if acc.contains(rows[0]) {
            acc
        } else {
            acc.push(rows[0])
        };
        lemma_add_unique_len(acc2, rows.skip(1));
    }
}

/// Deduplication keeps exactly the values already present or offered:
/// membership in the result is membership in the accumulator or the input.
pub proof fn lemma_add_unique_contains(
    acc: Seq<Seq<Seq<char>>>,
    rows: Seq<Seq<Seq<char>>>,
    x: Seq<Seq<char>>,
)
    ensures
        add_unique(acc, rows).contains(x) == (acc.contains(x) || rows.contains(x)),
    decreases rows.len(),
{
    if rows.len() == 0 {
        assert(!rows.contains(x));
    } else {
        let acc2 = if acc.contains(rows[0]) {
            acc
        } else {
            acc.push(rows[0])
        };
        lemma_add_unique_contains(acc2, rows.skip(1), x);
        lemma_contains_push(acc, rows[0], x);
        lemma_contains_skip1(rows, x);
    }
}

/// The accumulator stays a prefix of the deduplicated result.
pub proof fn lemma_add_unique_prefix(acc: Seq<Seq<Seq<char>>>, rows: Seq<Seq<Seq<char>>>, k: int)
    requires
        0 <= k < acc.len(),
    ensures
        add_unique(acc, rows).len() >= acc.len(),
        add_unique(acc, rows)[k] == acc[k],
    decreases rows.len(),
{
    lemma_add_unique_len(acc, rows);
    if rows.len() == 0 {
    } else {
        let acc2 = if acc.contains(rows[0]) {
            acc
        } else {
            acc.push(rows[0])
        };
        lemma_add_unique_prefix(acc2, rows.skip(1), k);
    }
}

/// One row's values, each followed by a comma and a space.
pub open spec fn render_row_chars(row: Seq<Seq<char>>) -> Seq<char>
    decreases row.len(),
{
    if row.len() == 0 {
        Seq::empty()
    } else {
        row[0] + seq![',', ' '] + render_row_chars(row.skip(1))
    }
}

/// One character taken off the end; an empty string stays empty.
pub open spec fn drop_last_char(s: Seq<char>) -> Seq<char> {
    if s.len() > 0 {
        s.take(s.len() - 1)
    } else {
        s
    }
}

/// The rendering of the remaining rows after `acc`: each row's values
/// joined by comma-space (two characters dropped at the row's end take the
/// trailing separator back off), one row per line.
pub open spec fn render_rows_chars(acc: Seq<char>, rows: Seq<Seq<Seq<char>>>) -> Seq<char>
    decreases rows.len(),
{
    if rows.len() == 0 {
        acc
    } else {
        render_rows_chars(
            drop_last_char(drop_last_char(acc + render_row_chars(rows[0]))).push('\n'),
            rows.skip(1),
        )
    }
}

/// The deterministic text rendering of a table's rows, header first.
pub open spec fn spec_render(rows: Seq<Seq<Seq<char>>>) -> Seq<char> {
    render_rows_chars(Seq::empty(), rows)
}

// ---------------------------------------------------------------------------
// Well-formedness preservation
// ---------------------------------------------------------------------------
/// Every crossed row of one left row with uniform right rows has the
/// combined width.
pub proof fn lemma_cross_row_width(r: Seq<Seq<char>>, brows: Seq<Seq<Seq<char>>>, wb: int)
    requires
        forall|k: int| 0 <= k < brows.len() ==> #[trigger] brows[k].len() == wb,
    ensures
        cross_row(r, brows).len() == brows.len(),
        forall|k: int|
            0 <= k < cross_row(r, brows).len() ==> #[trigger] cross_row(r, brows)[k].len()
                == r.len() + wb,
    decreases brows.len(),
{
    if brows.len() == 0 {
    } else {
        assert(forall|k: int|
            0 <= k < brows.skip(1).len() ==> #[trigger] brows.skip(1)[k].len() == wb);
        lemma_cross_row_width(r, brows.skip(1), wb);
    }
}

/// Every row of a cross product of uniform operands has the combined width.
pub proof fn lemma_rows_cross_width(
    arows: Seq<Seq<Seq<char>>>,
    brows: Seq<Seq<Seq<char>>>,
    wa: int,
    wb: int,
)
    requires
        forall|k: int| 0 <= k < arows.len() ==> #[trigger] arows[k].len() == wa,
        forall|k: int| 0 <= k < brows.len() ==> #[trigger] brows[k].len() == wb,
    ensures
        forall|k: int|
            0 <= k < rows_cross(arows, brows).len() ==> #[trigger] rows_cross(arows, brows)[k].len()
                == wa + wb,
    decreases arows.len(),
{
    if arows.len() == 0 {
    } else {
        assert(arows[0].len() == wa);
        lemma_cross_row_width(arows[0], brows, wb);
        assert(forall|k: int|
            0 <= k < arows.skip(1).len() ==> #[trigger] arows.skip(1)[k].len() == wa);
        lemma_rows_cross_width(arows.skip(1), brows, wa, wb);
        let whole = rows_cross(arows, brows);
        let head = cross_row(arows[0], brows);
        let tail = rows_cross(arows.skip(1), brows);
        assert forall|k: int| 0 <= k < whole.len() implies #[trigger] whole[k].len() == wa
            + wb by {
            if k < head.len() {
                assert(whole[k] == head[k]);
            } else {
                assert(whole[k] == tail[k - head.len()]);
            }
        }
    }
}

/// The product of well-formed tables is well-formed.
pub proof fn lemma_wf_multiply(a: TableV, b: TableV)
    requires
        table_wf(a),
        table_wf(b),
    ensures
        table_wf(spec_multiply(a, b)),
{
    let wa = a.rows[0].len() as int;
    let wb = b.rows[0].len() as int;
    assert(forall|k: int|
        0 <= k < a.rows.skip(1).len() ==> #[trigger] a.rows.skip(1)[k].len() == wa);
    assert(forall|k: int|
        0 <= k < b.rows.skip(1).len() ==> #[trigger] b.rows.skip(1)[k].len() == wb);
    lemma_rows_cross_width(a.rows.skip(1), b.rows.skip(1), wa, wb);
    let t = spec_multiply(a, b);
    assert forall|i: int| 0 <= i < t.rows.len() implies #[trigger] t.rows[i].len()
        == t.rows[0].len() by {
        if i > 0 {
            assert(t.rows[i] == rows_cross(a.rows.skip(1), b.rows.skip(1))[i - 1]);
        }
    }
}

/// Every row a difference keeps comes from the left operand.
pub proof fn lemma_rows_minus_sub(
    rows: Seq<Seq<Seq<char>>>,
    other: Seq<Seq<Seq<char>>>,
    x: Seq<Seq<char>>,
)
    requires
        rows_minus(rows, other).contains(x),
    ensures
        rows.contains(x),
    decreases rows.len(),
{
    if rows.len() == 0 {
    } else {
        let rest = rows_minus(rows.skip(1), other);
        if other.contains(rows[0]) {
            lemma_rows_minus_sub(rows.skip(1), other, x);
            lemma_contains_skip1(rows, x);
        } else {
            let whole = seq![rows[0]] + rest;
            let j = choose|j: int| 0 <= j < whole.len() && whole[j] == x;
            if j == 0 {
                assert(rows[0] == x);
            } else {
                assert(rest[j - 1] == x);
                lemma_rows_minus_sub(rows.skip(1), other, x);
                lemma_contains_skip1(rows, x);
            }
        }
    }
}

/// The difference of a well-formed table with anything is well-formed.
pub proof fn lemma_wf_minus(a: TableV, b: TableV)
    requires
        table_wf(a),
        spec_minus(a, b) matches Ok(t),
    ensures
        spec_minus(a, b) matches Ok(t) ==> table_wf(t),
{
    let t = spec_minus(a, b)->Ok_0;
    let kept = rows_minus(a.rows.skip(1), b.rows);
    assert forall|i: int| 0 <= i < t.rows.len() implies #[trigger] t.rows[i].len()
        == t.rows[0].len() by {
        if i > 0 {
            assert(kept[i - 1] == t.rows[i]);
            assert(kept.contains(kept[i - 1]));
            lemma_rows_minus_sub(a.rows.skip(1), b.rows, t.rows[i]);
            let j = choose|j: int|
                0 <= j < a.rows.skip(1).len() && a.rows.skip(1)[j] == t.rows[i];
            assert(a.rows[j + 1] == t.rows[i]);
        }
    }
}

/// Every row a selection keeps comes from the data it filtered.
pub proof fn lemma_rows_select_sub(
    header: Seq<Seq<char>>,
    data: Seq<Seq<Seq<char>>>,
    c: CondV,
    x: Seq<Seq<char>>,
)
    requires
        rows_select(header, data, c) matches Ok(kept) && kept.contains(x),
    ensures
        data.contains(x),
    decreases data.len(),
{
    if data.len() == 0 {
    } else {
        let kept = rows_select(header, data, c)->Ok_0;
        let rest = rows_select(header, data.skip(1), c)->Ok_0;
        match spec_row_keep(c, header, data[0]) {
            Err(_) => {},
            Ok(keep) => {
                if keep {
                    let j = choose|j: int| 0 <= j < kept.len() && kept[j] == x;
                    if j == 0 {
                        assert(data[0] == x);
                    } else {
                        assert(rest[j - 1] == x);
                        lemma_rows_select_sub(header, data.skip(1), c, x);
                        lemma_contains_skip1(data, x);
                    }
                } else {
                    lemma_rows_select_sub(header, data.skip(1), c, x);
                    lemma_contains_skip1(data, x);
                }
            },
        }
    }
}

/// A selection of a well-formed table is well-formed.
pub proof fn lemma_wf_select(a: TableV, c: CondV)
    requires
        table_wf(a),
        spec_select(a, c) matches Ok(t),
    ensures
        spec_select(a, c) matches Ok(t) ==> table_wf(t),
{
    let t = spec_select(a, c)->Ok_0;
    let kept = rows_select(a.rows[0], a.rows.skip(1), c)->Ok_0;
    assert forall|i: int| 0 <= i < t.rows.len() implies #[trigger] t.rows[i].len()
        == t.rows[0].len() by {
        if i > 0 {
            assert(kept[i - 1] == t.rows[i]);
            assert(kept.contains(kept[i - 1]));
            lemma_rows_select_sub(a.rows[0], a.rows.skip(1), c, t.rows[i]);
            let j = choose|j: int|
                0 <= j < a.rows.skip(1).len() && a.rows.skip(1)[j] == t.rows[i];
            assert(a.rows[j + 1] == t.rows[i]);
        }
    }
}

/// A union of tables with equal headers and uniform rows is well-formed
/// (only the left operand's type tags survive, so only its tags matter).
pub proof fn lemma_wf_union(a: TableV, b: TableV)
    requires
        table_wf(a),
        b.rows.len() >= 1,
        forall|k: int| 0 <= k < b.rows.len() ==> #[trigger] b.rows[k].len() == b.rows[0].len(),
        spec_union(a, b) matches Ok(t),
    ensures
        spec_union(a, b) matches Ok(t) ==> table_wf(t),
{
    let t = spec_union(a, b)->Ok_0;
    lemma_add_unique_prefix(a.rows, b.rows.skip(1), 0);
    assert(t.rows[0] == a.rows[0]);
    assert forall|i: int| 0 <= i < t.rows.len() implies #[trigger] t.rows[i].len()
        == t.rows[0].len() by {
        let x = t.rows[i];
        assert(t.rows.contains(x));
        lemma_add_unique_contains(a.rows, b.rows.skip(1), x);
        if a.rows.contains(x) {
            let j = choose|j: int| 0 <= j < a.rows.len() && a.rows[j] == x;
            assert(a.rows[j].len() == a.rows[0].len());
        } else {
            let j = choose|j: int| 0 <= j < b.rows.skip(1).len() && b.rows.skip(1)[j] == x;
            assert(b.rows[j + 1] == x);
        }
    }
}

/// A found column index lies in the header and names the column.
pub proof fn lemma_col_index_bounds(hdr: Seq<Seq<char>>, name: Seq<char>, i: int)
    requires
        col_index_from(hdr, name, i) matches Some(j),
    ensures
        col_index_from(hdr, name, i) matches Some(j) ==> i <= j < hdr.len() && hdr[j] == name,
    decreases hdr.len() - i,
{
    if !(0 <= i < hdr.len()) {
    } else if hdr[i] == name {
    } else {
        lemma_col_index_bounds(hdr, name, i + 1);
    }
}

/// Removing a position acts on every row pointwise.
pub proof fn lemma_rows_remove_at_props(rows: Seq<Seq<Seq<char>>>, j: int)
    ensures
        rows_remove_at(rows, j).len() == rows.len(),
        forall|k: int|
            0 <= k < rows.len() ==> #[trigger] rows_remove_at(rows, j)[k] == rows[k].remove(j),
    decreases rows.len(),
{
    if rows.len() == 0 {
    } else {
        lemma_rows_remove_at_props(rows.skip(1), j);
        let whole = rows_remove_at(rows, j);
        assert forall|k: int| 0 <= k < rows.len() implies #[trigger] whole[k] == rows[k].remove(
            j,
        ) by {
            if k > 0 {
                assert(whole[k] == rows_remove_at(rows.skip(1), j)[k - 1]);
                assert(rows.skip(1)[k - 1] == rows[k]);
            }
        }
    }
}

/// Removing a column keeps a table well-formed and its row count.
pub proof fn lemma_wf_remove_column(t: TableV, name: Seq<char>)
    requires
        table_wf(t),
    ensures
        table_wf(spec_remove_column(t, name)),
        spec_remove_column(t, name).rows.len() == t.rows.len(),
{
    match find_col(t.rows[0], name) {
        None => {},
        Some(j) => {
            lemma_col_index_bounds(t.rows[0], name, 0);
            lemma_rows_remove_at_props(t.rows, j);
            let out = spec_remove_column(t, name);
            let w = t.rows[0].len() as int;
            assert forall|k: int| 0 <= k < out.rows.len() implies #[trigger] out.rows[k].len()
                == out.rows[0].len() by {
                t.rows[k].remove_ensures(j);
                t.rows[0].remove_ensures(j);
            }
            t.rows[0].remove_ensures(j);
            t.types.remove_ensures(j);
        },
    }
}

/// Every projection step keeps a table well-formed.
pub proof fn lemma_wf_project_steps(t: TableV, cols: Seq<Seq<char>>, rem: Seq<Seq<char>>)
    requires
        table_wf(t),
    ensures
        table_wf(project_steps(t, cols, rem)),
        project_steps(t, cols, rem).rows.len() == t.rows.len(),
    decreases rem.len(),
{
    if rem.len() == 0 {
    } else {
        match find_col(cols, rem[0]) {
            Some(j) => {
                lemma_col_index_bounds(cols, rem[0], 0);
                lemma_wf_project_steps(t, cols.remove(j), rem.skip(1));
            },
            None => {
                lemma_wf_remove_column(t, rem[0]);
                lemma_wf_project_steps(spec_remove_column(t, rem[0]), cols, rem.skip(1));
            },
        }
    }
}

/// A projection of a well-formed table is well-formed and keeps its header
/// row on top.
pub proof fn lemma_wf_project(t: TableV, cols: Seq<Seq<char>>)
    requires
        table_wf(t),
    ensures
        table_wf(spec_project(t, cols)),
        spec_project(t, cols).rows.len() >= 1,
        spec_project(t, cols).rows[0] == project_steps(t, cols, t.rows[0]).rows[0],
{
    lemma_wf_project_steps(t, cols, t.rows[0]);
    lemma_dedup_wf(project_steps(t, cols, t.rows[0]));
}

/// Every emitted intersection row is the matched left row itself.
pub proof fn lemma_emit_matches_elems(r: Seq<Seq<char>>, brows: Seq<Seq<Seq<char>>>, k: int)
    requires
        0 <= k < emit_matches(r, brows).len(),
    ensures
        emit_matches(r, brows)[k] == r,
    decreases brows.len(),
{
    if brows.len() == 0 {
    } else {
        let head: Seq<Seq<Seq<char>>> = if brows[0] == r {
            seq![r]
        } else {
            Seq::empty()
        };
        if k >= head.len() {
            lemma_emit_matches_elems(r, brows.skip(1), k - head.len());
        }
    }
}

/// Every row an intersection emits comes from the left operand's data.
pub proof fn lemma_rows_intersect_sub(
    arows: Seq<Seq<Seq<char>>>,
    brows: Seq<Seq<Seq<char>>>,
    x: Seq<Seq<char>>,
)
    requires
        rows_intersect(arows, brows).contains(x),
    ensures
        arows.contains(x),
    decreases arows.len(),
{
    if arows.len() == 0 {
    } else {
        let head = emit_matches(arows[0], brows);
        let whole = rows_intersect(arows, brows);
        let j = choose|j: int| 0 <= j < whole.len() && whole[j] == x;
        if j < head.len() {
            assert(head[j] == whole[j]);
            lemma_emit_matches_elems(arows[0], brows, j);
        } else {
            assert(rows_intersect(arows.skip(1), brows)[j - head.len()] == x);
            lemma_rows_intersect_sub(arows.skip(1), brows, x);
            lemma_contains_skip1(arows, x);
        }
    }
}

/// An intersection of a well-formed table with anything is well-formed.
pub proof fn lemma_wf_intersect(a: TableV, b: TableV)
    requires
        table_wf(a),
        spec_intersect(a, b) matches Ok(t),
    ensures
        spec_intersect(a, b) matches Ok(t) ==> table_wf(t),
{
    let t = spec_intersect(a, b)->Ok_0;
    let kept = rows_intersect(a.rows.skip(1), b.rows.skip(1));
    assert forall|i: int| 0 <= i < t.rows.len() implies #[trigger] t.rows[i].len()
        == t.rows[0].len() by {
        if i > 0 {
            assert(kept[i - 1] == t.rows[i]);
            assert(kept.contains(kept[i - 1]));
            lemma_rows_intersect_sub(a.rows.skip(1), b.rows.skip(1), t.rows[i]);
            let j = choose|j: int|
                0 <= j < a.rows.skip(1).len() && a.rows.skip(1)[j] == t.rows[i];
            assert(a.rows[j + 1] == t.rows[i]);
        }
    }
}

/// A division of well-formed tables, where it succeeds, is well-formed.
pub proof fn lemma_wf_divide(a: TableV, b: TableV)
    requires
        table_wf(a),
        table_wf(b),
        spec_divide(a, b) matches Ok(t),
    ensures
        spec_divide(a, b) matches Ok(t) ==> table_wf(t),
{
    let attrs = excl_cols(a.rows[0], b.rows[0]);
    let pa = spec_project(a, attrs);
    lemma_wf_project(a, attrs);
    let prod = spec_multiply(pa, b);
    lemma_wf_multiply(pa, b);
    match spec_minus(prod, a) {
        Err(_) => {},
        Ok(m) => {
            lemma_wf_minus(prod, a);
            lemma_wf_project(m, attrs);
            lemma_wf_minus(pa, spec_project(m, attrs));
        },
    }
}

/// A join of well-formed tables, where it succeeds, is well-formed.
pub proof fn lemma_wf_join(a: TableV, c: CondV, b: TableV)
    requires
        table_wf(a),
        table_wf(b),
        spec_join(a, c, b) matches Ok(t),
    ensures
        spec_join(a, c, b) matches Ok(t) ==> table_wf(t),
{
    lemma_wf_multiply(a, b);
    lemma_wf_select(spec_multiply(a, b), c);
}

/// A left join of well-formed tables, where it succeeds, is well-formed.
pub proof fn lemma_wf_left_join(a: TableV, c: CondV, b: TableV)
    requires
        table_wf(a),
        table_wf(b),
        spec_left_join(a, c, b) matches Ok(t),
    ensures
        spec_left_join(a, c, b) matches Ok(t) ==> table_wf(t),
{
    let j = spec_join(a, c, b)->Ok_0;
    lemma_wf_join(a, c, b);
    match spec_minus(a, spec_project(j, a.rows[0])) {
        Err(_) => {},
        Ok(m) => {
            lemma_wf_minus(a, spec_project(j, a.rows[0]));
            let nt = null_table(b, a);
            let prod = spec_multiply(m, nt);
            assert(forall|k: int|
                0 <= k < nt.rows.len() ==> #[trigger] nt.rows[k].len() == nt.rows[0].len());
            assert(forall|k: int|
                0 <= k < m.rows.skip(1).len() ==> #[trigger] m.rows.skip(1)[k].len()
                    == m.rows[0].len());
            assert(forall|k: int|
                0 <= k < nt.rows.skip(1).len() ==> #[trigger] nt.rows.skip(1)[k].len()
                    == nt.rows[0].len());
            lemma_rows_cross_width(
                m.rows.skip(1),
                nt.rows.skip(1),
                m.rows[0].len() as int,
                nt.rows[0].len() as int,
            );
            assert forall|k: int| 0 <= k < prod.rows.len() implies #[trigger] prod.rows[k].len()
                == prod.rows[0].len() by {
                if k > 0 {
                    assert(prod.rows[k] == rows_cross(m.rows.skip(1), nt.rows.skip(1))[k - 1]);
                }
            }
            lemma_wf_union(j, prod);
        },
    }
}

/// A right join of well-formed tables, where it succeeds, is well-formed.
pub proof fn lemma_wf_right_join(a: TableV, c: CondV, b: TableV)
    requires
        table_wf(a),
        table_wf(b),
        spec_right_join(a, c, b) matches Ok(t),
    ensures
        spec_right_join(a, c, b) matches Ok(t) ==> table_wf(t),
{
    let j = spec_join(a, c, b)->Ok_0;
    lemma_wf_join(a, c, b);
    match spec_minus(b, spec_project(j, b.rows[0])) {
        Err(_) => {},
        Ok(m) => {
            lemma_wf_minus(b, spec_project(j, b.rows[0]));
            let nt = null_table(a, b);
            let prod = spec_multiply(nt, m);
            assert(forall|k: int|
                0 <= k < nt.rows.len() ==> #[trigger] nt.rows[k].len() == nt.rows[0].len());
            assert(forall|k: int|
                0 <= k < m.rows.skip(1).len() ==> #[trigger] m.rows.skip(1)[k].len()
                    == m.rows[0].len());
            assert(forall|k: int|
                0 <= k < nt.rows.skip(1).len() ==> #[trigger] nt.rows.skip(1)[k].len()
                    == nt.rows[0].len());
            lemma_rows_cross_width(
                nt.rows.skip(1),
                m.rows.skip(1),
                nt.rows[0].len() as int,
                m.rows[0].len() as int,
            );
            assert forall|k: int| 0 <= k < prod.rows.len() implies #[trigger] prod.rows[k].len()
                == prod.rows[0].len() by {
                if k > 0 {
                    assert(prod.rows[k] == rows_cross(nt.rows.skip(1), m.rows.skip(1))[k - 1]);
                }
            }
            lemma_wf_union(j, prod);
        },
    }
}

/// A full join of well-formed tables, where it succeeds, is well-formed.
pub proof fn lemma_wf_full_join(a: TableV, c: CondV, b: TableV)
    requires
        table_wf(a),
        table_wf(b),
        spec_full_join(a, c, b) matches Ok(t),
    ensures
        spec_full_join(a, c, b) matches Ok(t) ==> table_wf(t),
{
    match spec_left_join(a, c, b) {
        Err(_) => {},
        Ok(l) => {
            lemma_wf_left_join(a, c, b);
            match spec_right_join(a, c, b) {
                Err(_) => {},
                Ok(r) => {
                    lemma_wf_right_join(a, c, b);
                    lemma_wf_union(l, r);
                },
            }
        },
    }
}

/// Deduplicating a well-formed table's rows keeps it well-formed, with the
/// same header first.
pub proof fn lemma_dedup_wf(t: TableV)
    requires
        table_wf(t),
    ensures
        table_wf(TableV { rows: add_unique(Seq::empty(), t.rows), types: t.types }),
        add_unique(Seq::empty(), t.rows).len() >= 1,
        add_unique(Seq::empty(), t.rows)[0] == t.rows[0],
{
    let acc1 = Seq::<Seq<Seq<char>>>::empty().push(t.rows[0]);
    assert(add_unique(Seq::empty(), t.rows) == add_unique(acc1, t.rows.skip(1)));
    lemma_add_unique_prefix(acc1, t.rows.skip(1), 0);
    let out = add_unique(Seq::empty(), t.rows);
    assert(out[0] == t.rows[0]);
    assert forall|i: int| 0 <= i < out.len() implies #[trigger] out[i].len() == out[0].len() by {
        let x = out[i];
        assert(out.contains(x));
        lemma_add_unique_contains(acc1, t.rows.skip(1), x);
        if acc1.contains(x) {
            let j = choose|j: int| 0 <= j < acc1.len() && acc1[j] == x;
            assert(x == t.rows[0]);
        } else {
            let j = choose|j: int| 0 <= j < t.rows.skip(1).len() && t.rows.skip(1)[j] == x;
            assert(t.rows[j + 1] == x);
        }
    }
}

// ---------------------------------------------------------------------------
// The algebra: executable operations
// ---------------------------------------------------------------------------
/// Resolves a column name to the index of the first column of that name.
fn find_col_exec(names: &Vec<String>, name: &String) -> (r: Option<usize>)
    ensures
        match r {
            Some(j) => find_col(names.deep_view(), name@) == Some(j as int) && j < names.len(),
            None => find_col(names.deep_view(), name@) is None,
        },
{
    let mut i: usize = 0;
    while i < names.len()
        invariant
            i <= names.len(),
            col_index_from(names.deep_view(), name@, 0) == col_index_from(
                names.deep_view(),
                name@,
                i as int,
            ),
        decreases names.len() - i,
    {
        proof {
            assert(names.deep_view()[i as int] == names@[i as int]@);
        }
        if names[i].eq(name) {
            return Some(i);
        }
        i = i + 1;
    }
    None
}
impl Table {
    /// A fresh table holding only the given header row, with no data rows
    /// and no type tags yet.
    pub fn new(headers: Vec<String>) -> (t: Table)
        ensures
            t@.rows == seq![headers.deep_view()],
            t@.types == Seq::<Seq<char>>::empty(),
    {
        let t = Table { rows: vec![headers], types: Vec::new() };
        proof {
            assert(t@.rows =~= seq![t.rows@[0].deep_view()]);
            assert(t@.types =~= Seq::<Seq<char>>::empty());
        }
        t
    }

    /// Union: `self`'s rows, plus each data row of `other` not already
    /// present in the running result.  Fails if and only if the headers
    /// differ.  Operands are untouched.
    pub fn union(&self, other: &Table) -> (r: Result<Table, EvalError>)
        requires
            self@.rows.len() >= 1,
            other@.rows.len() >= 1,
        ensures
            match r {
                Ok(t) => spec_union(self@, other@) == Ok::<TableV, EvalErrorV>(t@),
                Err(e) => spec_union(self@, other@) == Err::<TableV, EvalErrorV>(e@),
            },
    {
        proof {
            assert(self@.rows[0] == self.rows@[0].deep_view());
            assert(other@.rows[0] == other.rows@[0].deep_view());
        }
        if !row_eq(&self.rows[0], &other.rows[0]) {
            return Err(EvalError::HeaderMismatch(SetOp::Union));
        }
        let mut result_rows = clone_rows(&self.rows);
        let mut i: usize = 1;
        while i < other.rows.len()
            invariant
                1 <= i <= other.rows.len(),
                add_unique(self@.rows, other@.rows.skip(1)) == add_unique(
                    result_rows.deep_view(),
                    other@.rows.skip(i as int),
                ),
            decreases other.rows.len() - i,
        {
            let ghost pre = result_rows.deep_view();
            proof {
                assert(other@.rows.skip(i as int)[0] == other.rows@[i as int].deep_view());
                assert(other@.rows.skip(i as int).skip(1) =~= other@.rows.skip(i as int + 1));
            }
            if !rows_contain(&result_rows, &other.rows[i]) {
                let row = clone_row(&other.rows[i]);
                result_rows.push(row);
                proof {
                    assert(result_rows.deep_view() =~= pre.push(
                        other.rows@[i as int].deep_view(),
                    ));
                }
            }
            i = i + 1;
        }
        proof {
            assert(other@.rows.skip(other@.rows.len() as int) =~= Seq::<Seq<Seq<char>>>::empty());
        }
        let t = Table { rows: result_rows, types: clone_row(&self.types) };
        proof {
            assert(t@ =~= TableV {
                rows: add_unique(self@.rows, other@.rows.skip(1)),
                types: self@.types,
            });
        }
        Ok(t)
    }

    /// Difference: the data rows of `self` that appear nowhere in `other`.
    /// Fails if and only if the headers differ.  Operands are untouched.
    pub fn minus(&self, other: &Table) -> (r: Result<Table, EvalError>)
        requires
            self@.rows.len() >= 1,
            other@.rows.len() >= 1,
        ensures
            match r {
                Ok(t) => spec_minus(self@, other@) == Ok::<TableV, EvalErrorV>(t@),
                Err(e) => spec_minus(self@, other@) == Err::<TableV, EvalErrorV>(e@),
            },
    {
        proof {
            assert(self@.rows[0] == self.rows@[0].deep_view());
            assert(other@.rows[0] == other.rows@[0].deep_view());
        }
        if !row_eq(&self.rows[0], &other.rows[0]) {
            return Err(EvalError::HeaderMismatch(SetOp::Minus));
        }
        let mut result_rows: Vec<Vec<String>> = Vec::new();
        result_rows.push(clone_row(&self.rows[0]));
        proof {
            assert(result_rows.deep_view() =~= seq![self@.rows[0]]);
        }
        let mut i: usize = 1;
        while i < self.rows.len()
            invariant
                1 <= i <= self.rows.len(),
                self@.rows.len() >= 1,
                seq![self@.rows[0]] + rows_minus(self@.rows.skip(1), other@.rows)
                    == result_rows.deep_view() + rows_minus(self@.rows.skip(i as int), other@.rows),
            decreases self.rows.len() - i,
        {
            let ghost pre = result_rows.deep_view();
            let ghost cur = self@.rows.skip(i as int);
            proof {
                assert(cur[0] == self.rows@[i as int].deep_view());
                assert(cur.skip(1) =~= self@.rows.skip(i as int + 1));
            }
            if !rows_contain(&other.rows, &self.rows[i]) {
                let row = clone_row(&self.rows[i]);
                result_rows.push(row);
                proof {
                    assert(result_rows.deep_view() =~= pre.push(cur[0]));
                    assert(rows_minus(cur, other@.rows) == seq![cur[0]] + rows_minus(
                        cur.skip(1),
                        other@.rows,
                    ));
                    assert(pre + (seq![cur[0]] + rows_minus(cur.skip(1), other@.rows)) =~= pre.push(
                        cur[0],
                    ) + rows_minus(cur.skip(1), other@.rows));
                }
            }
            i = i + 1;
        }
        proof {
            assert(self@.rows.skip(self@.rows.len() as int) =~= Seq::<Seq<Seq<char>>>::empty());
            assert(result_rows.deep_view() + Seq::<Seq<Seq<char>>>::empty()
                =~= result_rows.deep_view());
        }
        let t = Table { rows: result_rows, types: clone_row(&self.types) };
        proof {
            assert(t@ =~= TableV {
                rows: seq![self@.rows[0]] + rows_minus(self@.rows.skip(1), other@.rows),
                types: self@.types,
            });
        }
        Ok(t)
    }

    /// Intersection: for each data row of `self`, one output row per equal
    /// data row of `other` (pair emission, so duplicates multiply).  Fails
    /// if and only if the headers differ.  Operands are untouched.
    pub fn intersect(&self, other: &Table) -> (r: Result<Table, EvalError>)
        requires
            self@.rows.len() >= 1,
            other@.rows.len() >= 1,
        ensures
            match r {
                Ok(t) => spec_intersect(self@, other@) == Ok::<TableV, EvalErrorV>(t@),
                Err(e) => spec_intersect(self@, other@) == Err::<TableV, EvalErrorV>(e@),
            },
    {
        proof {
            assert(self@.rows[0] == self.rows@[0].deep_view());
            assert(other@.rows[0] == other.rows@[0].deep_view());
        }
        if !row_eq(&self.rows[0], &other.rows[0]) {
            return Err(EvalError::HeaderMismatch(SetOp::Intersect));
        }
        let ghost bdata = other@.rows.skip(1);
        let mut result_rows: Vec<Vec<String>> = Vec::new();
        result_rows.push(clone_row(&self.rows[0]));
        proof {
            assert(result_rows.deep_view() =~= seq![self@.rows[0]]);
        }
        let mut i: usize = 1;
        while i < self.rows.len()
            invariant
                1 <= i <= self.rows.len(),
                self@.rows.len() >= 1,
                other@.rows.len() >= 1,
                bdata == other@.rows.skip(1),
                seq![self@.rows[0]] + rows_intersect(self@.rows.skip(1), bdata)
                    == result_rows.deep_view() + rows_intersect(self@.rows.skip(i as int), bdata),
            decreases self.rows.len() - i,
        {
            let ghost arow = self@.rows.skip(i as int)[0];
            proof {
                assert(arow == self.rows@[i as int].deep_view());
                assert(self@.rows.skip(i as int).skip(1) =~= self@.rows.skip(i as int + 1));
                assert(rows_intersect(self@.rows.skip(i as int), bdata) == emit_matches(
                    arow,
                    bdata,
                ) + rows_intersect(self@.rows.skip(i as int + 1), bdata));
            }
            let mut j: usize = 1;
            while j < other.rows.len()
                invariant
                    1 <= i < self.rows.len(),
                    1 <= j <= other.rows.len(),
                    bdata == other@.rows.skip(1),
                    arow == self.rows@[i as int].deep_view(),
                    seq![self@.rows[0]] + rows_intersect(self@.rows.skip(1), bdata)
                        == result_rows.deep_view() + emit_matches(
                        arow,
                        other@.rows.skip(j as int),
                    ) + rows_intersect(self@.rows.skip(i as int + 1), bdata),
                decreases other.rows.len() - j,
            {
                let ghost brow = other@.rows.skip(j as int)[0];
                let ghost pre = result_rows.deep_view();
                proof {
                    assert(brow == other.rows@[j as int].deep_view());
                    assert(other@.rows.skip(j as int).skip(1) =~= other@.rows.skip(j as int + 1));
                }
                if row_eq(&self.rows[i], &other.rows[j]) {
                    let row = clone_row(&self.rows[i]);
                    result_rows.push(row);
                    proof {
                        assert(result_rows.deep_view() =~= pre.push(arow));
                        assert(emit_matches(arow, other@.rows.skip(j as int)) == seq![arow]
                            + emit_matches(arow, other@.rows.skip(j as int + 1)));
                        assert(pre + (seq![arow] + emit_matches(
                            arow,
                            other@.rows.skip(j as int + 1),
                        )) =~= pre.push(arow) + emit_matches(arow, other@.rows.skip(j as int + 1)));
                        assert(pre + (seq![arow] + emit_matches(
                            arow,
                            other@.rows.skip(j as int + 1),
                        )) + rows_intersect(self@.rows.skip(i as int + 1), bdata) =~= pre.push(arow)
                            + emit_matches(arow, other@.rows.skip(j as int + 1)) + rows_intersect(
                            self@.rows.skip(i as int + 1),
                            bdata,
                        ));
                    }
                } else {
                    proof {
                        assert(emit_matches(arow, other@.rows.skip(j as int)) == emit_matches(
                            arow,
                            other@.rows.skip(j as int + 1),
                        ));
                    }
                }
                j = j + 1;
            }
            proof {
                assert(other@.rows.skip(other@.rows.len() as int)
                    =~= Seq::<Seq<Seq<char>>>::empty());
                assert(result_rows.deep_view() + Seq::<Seq<Seq<char>>>::empty() + rows_intersect(
                    self@.rows.skip(i as int + 1),
                    bdata,
                ) =~= result_rows.deep_view() + rows_intersect(
                    self@.rows.skip(i as int + 1),
                    bdata,
                ));
            }
            i = i + 1;
        }
        proof {
            assert(self@.rows.skip(self@.rows.len() as int) =~= Seq::<Seq<Seq<char>>>::empty());
            assert(result_rows.deep_view() + Seq::<Seq<Seq<char>>>::empty()
                =~= result_rows.deep_view());
        }
        let t = Table { rows: result_rows, types: clone_row(&self.types) };
        proof {
            assert(t@ =~= TableV {
                rows: seq![self@.rows[0]] + rows_intersect(self@.rows.skip(1), other@.rows.skip(1)),
                types: self@.types,
            });
        }
        Ok(t)
    }

    /// Cartesian product: headers concatenated (column names may collide),
    /// every data row of `self` concatenated with every data row of
    /// `other`, type tags concatenated.  Never fails; operands are
    /// untouched.
    pub fn multiply(&self, other: &Table) -> (r: Result<Table, EvalError>)
        requires
            self@.rows.len() >= 1,
            other@.rows.len() >= 1,
        ensures
            match r {
                Ok(t) => t@ == spec_multiply(self@, other@),
                Err(_) => false,
            },
    {
        let ghost bdata = other@.rows.skip(1);
        let mut header = clone_row(&self.rows[0]);
        let mut tail = clone_row(&other.rows[0]);
        header.append(&mut tail);
        proof {
            assert(self@.rows[0] == self.rows@[0].deep_view());
            assert(other@.rows[0] == other.rows@[0].deep_view());
            assert(header.deep_view() =~= self@.rows[0] + other@.rows[0]);
        }
        let mut result_rows: Vec<Vec<String>> = Vec::new();
        result_rows.push(header);
        proof {
            assert(result_rows.deep_view() =~= seq![self@.rows[0] + other@.rows[0]]);
        }
        let mut i: usize = 1;
        while i < self.rows.len()
            invariant
                1 <= i <= self.rows.len(),
                self@.rows.len() >= 1,
                other@.rows.len() >= 1,
                bdata == other@.rows.skip(1),
                seq![self@.rows[0] + other@.rows[0]] + rows_cross(self@.rows.skip(1), bdata)
                    == result_rows.deep_view() + rows_cross(self@.rows.skip(i as int), bdata),
            decreases self.rows.len() - i,
        {
            let ghost arow = self@.rows.skip(i as int)[0];
            proof {
                assert(arow == self.rows@[i as int].deep_view());
                assert(self@.rows.skip(i as int).skip(1) =~= self@.rows.skip(i as int + 1));
                assert(rows_cross(self@.rows.skip(i as int), bdata) == cross_row(arow, bdata)
                    + rows_cross(self@.rows.skip(i as int + 1), bdata));
            }
            let mut j: usize = 1;
            while j < other.rows.len()
                invariant
                    1 <= i < self.rows.len(),
                    1 <= j <= other.rows.len(),
                    bdata == other@.rows.skip(1),
                    arow == self.rows@[i as int].deep_view(),
                    seq![self@.rows[0] + other@.rows[0]] + rows_cross(self@.rows.skip(1), bdata)
                        == result_rows.deep_view() + cross_row(arow, other@.rows.skip(j as int))
                        + rows_cross(self@.rows.skip(i as int + 1), bdata),
                decreases other.rows.len() - j,
            {
                let ghost brow = other@.rows.skip(j as int)[0];
                let ghost pre = result_rows.deep_view();
                proof {
                    assert(brow == other.rows@[j as int].deep_view());
                    assert(other@.rows.skip(j as int).skip(1) =~= other@.rows.skip(j as int + 1));
                }
                let mut new_row = clone_row(&self.rows[i]);
                let mut new_tail = clone_row(&other.rows[j]);
                new_row.append(&mut new_tail);
                proof {
                    assert(new_row.deep_view() =~= arow + brow);
                }
                result_rows.push(new_row);
                proof {
                    assert(result_rows.deep_view() =~= pre.push(arow + brow));
                    assert(cross_row(arow, other@.rows.skip(j as int)) == seq![arow + brow]
                        + cross_row(arow, other@.rows.skip(j as int + 1)));
                    assert(pre + (seq![arow + brow] + cross_row(
                        arow,
                        other@.rows.skip(j as int + 1),
                    )) + rows_cross(self@.rows.skip(i as int + 1), bdata) =~= pre.push(arow + brow)
                        + cross_row(arow, other@.rows.skip(j as int + 1)) + rows_cross(
                        self@.rows.skip(i as int + 1),
                        bdata,
                    ));
                }
                j = j + 1;
            }
            proof {
                assert(other@.rows.skip(other@.rows.len() as int)
                    =~= Seq::<Seq<Seq<char>>>::empty());
                assert(result_rows.deep_view() + Seq::<Seq<Seq<char>>>::empty() + rows_cross(
                    self@.rows.skip(i as int + 1),
                    bdata,
                ) =~= result_rows.deep_view() + rows_cross(self@.rows.skip(i as int + 1), bdata));
            }
            i = i + 1;
        }
        proof {
            assert(self@.rows.skip(self@.rows.len() as int) =~= Seq::<Seq<Seq<char>>>::empty());
            assert(result_rows.deep_view() + Seq::<Seq<Seq<char>>>::empty()
                =~= result_rows.deep_view());
        }
        let mut result_types = clone_row(&self.types);
        let mut types_tail = clone_row(&other.types);
        result_types.append(&mut types_tail);
        let t = Table { rows: result_rows, types: result_types };
        proof {
            assert(t@.types =~= self@.types + other@.types);
            assert(t@ =~= spec_multiply(self@, other@));
        }
        Ok(t)
    }

    /// Whether one data row satisfies the condition, with `header` naming
    /// the columns: the condition's value, read back as a boolean.
    fn row_meets_condition(header: &Vec<String>, row: &Vec<String>, condition: &Condition) -> (r:
        Result<bool, EvalError>)
        ensures
            match r {
                Ok(b) => spec_row_keep(condition@, header.deep_view(), row.deep_view()) == Ok::<
                    bool,
                    EvalErrorV,
                >(b),
                Err(e) => spec_row_keep(condition@, header.deep_view(), row.deep_view()) == Err::<
                    bool,
                    EvalErrorV,
                >(e@),
            },
    {
        let v = match condition.eval(header, row) {
            Ok(v) => v,
            Err(e) => {
                return Err(e);
            },
        };
        match parse_bool(&v) {
            Some(b) => Ok(b),
            None => Err(EvalError::NotBoolean(v)),
        }
    }

    /// Selection: header unchanged, keeping each data row for which the
    /// condition evaluates to the text `true`.  Fails if and only if some
    /// kept-or-dropped decision fails, with that first row's failure.
    /// Operands are untouched.
    pub fn select(&self, condition: &Condition) -> (r: Result<Table, EvalError>)
        requires
            self@.rows.len() >= 1,
        ensures
            match r {
                Ok(t) => spec_select(self@, condition@) == Ok::<TableV, EvalErrorV>(t@),
                Err(e) => spec_select(self@, condition@) == Err::<TableV, EvalErrorV>(e@),
            },
    {
        let ghost hdr = self@.rows[0];
        let ghost c = condition@;
        proof {
            assert(hdr == self.rows@[0].deep_view());
        }
        let mut result_rows: Vec<Vec<String>> = Vec::new();
        result_rows.push(clone_row(&self.rows[0]));
        proof {
            assert(result_rows.deep_view() =~= seq![hdr]);
            assert(result_rows.deep_view().skip(1) =~= Seq::<Seq<Seq<char>>>::empty());
        }
        let mut i: usize = 1;
        while i < self.rows.len()
            invariant
                1 <= i <= self.rows.len(),
                self@.rows.len() >= 1,
                hdr == self@.rows[0],
                c == condition@,
                result_rows.deep_view().len() >= 1,
                result_rows.deep_view()[0] == hdr,
                rows_select(hdr, self@.rows.skip(1), c) == match rows_select(
                    hdr,
                    self@.rows.skip(i as int),
                    c,
                ) {
                    Err(e) => Err(e),
                    Ok(rest) => Ok(result_rows.deep_view().skip(1) + rest),
                },
            decreases self.rows.len() - i,
        {
            let ghost cur = self@.rows.skip(i as int);
            proof {
                assert(cur[0] == self.rows@[i as int].deep_view());
                assert(cur.skip(1) =~= self@.rows.skip(i as int + 1));
            }
            match Self::row_meets_condition(&self.rows[0], &self.rows[i], condition) {
                Err(e) => {
                    return Err(e);
                },
                Ok(keep) => {
                    if keep {
                        let ghost pre = result_rows.deep_view();
                        let row = clone_row(&self.rows[i]);
                        result_rows.push(row);
                        proof {
                            assert(result_rows.deep_view() =~= pre.push(cur[0]));
                            match rows_select(hdr, self@.rows.skip(i as int + 1), c) {
                                Ok(rest) => {
                                    assert(pre.skip(1) + (seq![cur[0]] + rest) =~= pre.push(
                                        cur[0],
                                    ).skip(1) + rest);
                                },
                                Err(_) => {},
                            }
                        }
                    }
                },
            }
            i = i + 1;
        }
        proof {
            assert(self@.rows.skip(self@.rows.len() as int) =~= Seq::<Seq<Seq<char>>>::empty());
            assert(result_rows.deep_view().skip(1) + Seq::<Seq<Seq<char>>>::empty()
                =~= result_rows.deep_view().skip(1));
        }
        let t = Table { rows: result_rows, types: clone_row(&self.types) };
        proof {
            assert(seq![hdr] + t@.rows.skip(1) =~= t@.rows);
            assert(t@ =~= TableV { rows: seq![hdr] + t@.rows.skip(1), types: self@.types });
        }
        Ok(t)
    }

    /// Removes the first column named `column` from the header, every row,
    /// and the type tags; a table without such a column comes back
    /// unchanged.
    fn remove_column(&self, column: &String) -> (t: Table)
        requires
            self.wf(),
        ensures
            t@ == spec_remove_column(self@, column@),
            t.wf(),
            t@.rows.len() == self@.rows.len(),
    {
        proof {
            assert(self@.rows[0] == self.rows@[0].deep_view());
        }
        match find_col_exec(&self.rows[0], column) {
            None => self.duplicate(),
            Some(j) => {
                let ghost w = self@.rows[0].len();
                let mut new_rows: Vec<Vec<String>> = Vec::new();
                proof {
                    assert(new_rows.deep_view() =~= Seq::<Seq<Seq<char>>>::empty());
                    assert(self@.rows.skip(0) =~= self@.rows);
                    assert(Seq::<Seq<Seq<char>>>::empty() + rows_remove_at(self@.rows, j as int)
                        =~= rows_remove_at(self@.rows, j as int));
                }
                let mut i: usize = 0;
                while i < self.rows.len()
                    invariant
                        i <= self.rows.len(),
                        self.wf(),
                        (j as int) < w,
                        w == self@.rows[0].len(),
                        new_rows.deep_view().len() == i,
                        rows_remove_at(self@.rows, j as int) == new_rows.deep_view()
                            + rows_remove_at(self@.rows.skip(i as int), j as int),
                        forall|k: int|
                            0 <= k < i ==> #[trigger] new_rows.deep_view()[k].len() == w - 1,
                    decreases self.rows.len() - i,
                {
                    let ghost cur = self@.rows.skip(i as int);
                    let ghost pre = new_rows.deep_view();
                    proof {
                        assert(cur[0] == self.rows@[i as int].deep_view());
                        assert(cur.skip(1) =~= self@.rows.skip(i as int + 1));
                        assert(self@.rows[i as int].len() == w);
                    }
                    let mut nr = clone_row(&self.rows[i]);
                    nr.remove(j);
                    proof {
                        assert(nr.deep_view() =~= cur[0].remove(j as int));
                        cur[0].remove_ensures(j as int);
                    }
                    new_rows.push(nr);
                    proof {
                        assert(new_rows.deep_view() =~= pre.push(cur[0].remove(j as int)));
                        assert(rows_remove_at(cur, j as int) == seq![cur[0].remove(j as int)]
                            + rows_remove_at(cur.skip(1), j as int));
                        assert(pre + (seq![cur[0].remove(j as int)] + rows_remove_at(
                            cur.skip(1),
                            j as int,
                        )) =~= pre.push(cur[0].remove(j as int)) + rows_remove_at(
                            cur.skip(1),
                            j as int,
                        ));
                    }
                    i = i + 1;
                }
                proof {
                    assert(self@.rows.skip(self@.rows.len() as int) =~= Seq::<
                        Seq<Seq<char>>,
                    >::empty());
                    assert(new_rows.deep_view() + Seq::<Seq<Seq<char>>>::empty()
                        =~= new_rows.deep_view());
                }
                let mut new_types = clone_row(&self.types);
                new_types.remove(j);
                let t = Table { rows: new_rows, types: new_types };
                proof {
                    assert(t@.types =~= self@.types.remove(j as int));
                    assert(t@ =~= TableV {
                        rows: rows_remove_at(self@.rows, j as int),
                        types: self@.types.remove(j as int),
                    });
                    self@.types.remove_ensures(j as int);
                    assert(t@.rows[0] == self@.rows[0].remove(j as int));
                    self@.rows[0].remove_ensures(j as int);
                    assert(table_wf(t@));
                }
                t
            },
        }
    }

    /// Projection: removes, in header order, every column not named in
    /// `columns` (each name in the list accounts for one column; names
    /// absent from the header are ignored), then deduplicates the rows,
    /// keeping each row's first occurrence.  Never fails; operands are
    /// untouched.
    pub fn project(&self, columns: Vec<String>) -> (r: Result<Table, EvalError>)
        requires
            self.wf(),
        ensures
            match r {
                Ok(t) => t@ == spec_project(self@, columns.deep_view()) && t@.rows.len() >= 1
                    && t.wf(),
                Err(_) => false,
            },
    {
        let ghost cols0 = columns.deep_view();
        let ghost hdr = self@.rows[0];
        proof {
            assert(hdr == self.rows@[0].deep_view());
            assert(hdr.skip(0) =~= hdr);
        }
        let mut cols = columns;
        let mut result = self.duplicate();
        let mut i: usize = 0;
        let width = self.rows[0].len();
        while i < width
            invariant
                i <= width,
                self.wf(),
                width == hdr.len(),
                hdr == self@.rows[0],
                result.wf(),
                result@.rows.len() >= 1,
                project_steps(self@, cols0, hdr) == project_steps(
                    result@,
                    cols.deep_view(),
                    hdr.skip(i as int),
                ),
            decreases width - i,
        {
            let ghost cur = hdr.skip(i as int);
            let ghost colsdv = cols.deep_view();
            proof {
                assert(cur[0] == hdr[i as int]);
                assert(hdr[i as int] == self.rows@[0].deep_view()[i as int]);
                assert(self.rows@[0].deep_view()[i as int] == self.rows@[0]@[i as int]@);
                assert(cur.skip(1) =~= hdr.skip(i as int + 1));
            }
            let name = &self.rows[0][i];
            match find_col_exec(&cols, name) {
                Some(j) => {
                    cols.remove(j);
                    proof {
                        assert(cols.deep_view() =~= colsdv.remove(j as int));
                    }
                },
                None => {
                    result = result.remove_column(name);
                },
            }
            i = i + 1;
        }
        proof {
            assert(hdr.skip(width as int) =~= Seq::<Seq<char>>::empty());
        }
        let ghost stepped = result@;
        let Table { rows: srows, types: stypes } = result;
        proof {
            assert(stepped.rows.len() >= 1);
        }
        let deduped = dedup_rows(srows);
        proof {
            lemma_dedup_wf(stepped);
        }
        let t = Table { rows: deduped, types: stypes };
        proof {
            assert(t@ =~= spec_project(self@, cols0));
            assert(t@ =~= TableV { rows: add_unique(Seq::empty(), stepped.rows), types: stepped.types });
        }
        Ok(t)
    }

    /// Division, exactly as composed from the primitives: with `attrs` the
    /// columns of `self` not named in `other`'s header, projects `self` to
    /// `attrs`, crosses that with `other`, subtracts `self`, projects the
    /// remainder back to `attrs`, and subtracts it from `self`'s own
    /// projection.  Fails exactly where that composition's differences
    /// fail.  Operands are untouched.
    pub fn divide(&self, other: &Table) -> (r: Result<Table, EvalError>)
        requires
            self.wf(),
            other.wf(),
        ensures
            match r {
                Ok(t) => spec_divide(self@, other@) == Ok::<TableV, EvalErrorV>(t@),
                Err(e) => spec_divide(self@, other@) == Err::<TableV, EvalErrorV>(e@),
            },
    {
        let ghost ahdr = self@.rows[0];
        let ghost bhdr = other@.rows[0];
        proof {
            assert(ahdr == self.rows@[0].deep_view());
            assert(bhdr == other.rows@[0].deep_view());
            assert(ahdr.skip(0) =~= ahdr);
        }
        let mut attrs: Vec<String> = Vec::new();
        proof {
            assert(attrs.deep_view() =~= Seq::<Seq<char>>::empty());
            assert(Seq::<Seq<char>>::empty() + excl_cols(ahdr, bhdr) =~= excl_cols(ahdr, bhdr));
        }
        let width = self.rows[0].len();
        let mut k: usize = 0;
        while k < width
            invariant
                k <= width,
                width == ahdr.len(),
                ahdr == self@.rows[0],
                bhdr == other@.rows[0],
                self@.rows.len() >= 1,
                other@.rows.len() >= 1,
                excl_cols(ahdr, bhdr) == attrs.deep_view() + excl_cols(ahdr.skip(k as int), bhdr),
            decreases width - k,
        {
            let ghost cur = ahdr.skip(k as int);
            let ghost pre = attrs.deep_view();
            proof {
                assert(cur[0] == ahdr[k as int]);
                assert(ahdr[k as int] == self.rows@[0]@[k as int]@);
                assert(cur.skip(1) =~= ahdr.skip(k as int + 1));
            }
            if !names_contain(&other.rows[0], &self.rows[0][k]) {
                let name = self.rows[0][k].clone();
                attrs.push(name);
                proof {
                    assert(attrs.deep_view() =~= pre.push(cur[0]));
                    assert(pre + (seq![cur[0]] + excl_cols(cur.skip(1), bhdr)) =~= pre.push(cur[0])
                        + excl_cols(cur.skip(1), bhdr));
                }
            }
            k = k + 1;
        }
        proof {
            assert(ahdr.skip(width as int) =~= Seq::<Seq<char>>::empty());
            assert(attrs.deep_view() + Seq::<Seq<char>>::empty() =~= attrs.deep_view());
        }
        let attrs2 = clone_row(&attrs);
        let pa = match self.project(attrs2) {
            Ok(t) => t,
            Err(e) => {
                return Err(e);
            },
        };
        let prod = match pa.multiply(other) {
            Ok(t) => t,
            Err(e) => {
                return Err(e);
            },
        };
        let m = match prod.minus(self) {
            Ok(t) => t,
            Err(e) => {
                return Err(e);
            },
        };
        proof {
            lemma_wf_multiply(pa@, other@);
            lemma_wf_minus(prod@, self@);
        }
        let pm = match m.project(attrs) {
            Ok(t) => t,
            Err(e) => {
                return Err(e);
            },
        };
        pa.minus(&pm)
    }

    /// Join: selection of the condition over the Cartesian product.
    /// Operands are untouched.
    pub fn join(&self, condition: &Condition, other: &Table) -> (r: Result<Table, EvalError>)
        requires
            self@.rows.len() >= 1,
            other@.rows.len() >= 1,
        ensures
            match r {
                Ok(t) => spec_join(self@, condition@, other@) == Ok::<TableV, EvalErrorV>(t@),
                Err(e) => spec_join(self@, condition@, other@) == Err::<TableV, EvalErrorV>(e@),
            },
    {
        let prod = match self.multiply(other) {
            Ok(t) => t,
            Err(e) => {
                return Err(e);
            },
        };
        proof {
            assert(prod@.rows.len() >= 1);
        }
        prod.select(condition)
    }

    /// Builds the `Null` padding table: the columns of `of`'s header not
    /// named in `against`'s, one `Null` under each, `of`'s type tags.
    fn build_null_table(of: &Table, against: &Table) -> (t: Table)
        requires
            of@.rows.len() >= 1,
            against@.rows.len() >= 1,
        ensures
            t@ == null_table(of@, against@),
            t@.rows.len() == 2,
    {
        let ghost ohdr = of@.rows[0];
        let ghost ghdr = against@.rows[0];
        proof {
            assert(ohdr == of.rows@[0].deep_view());
            assert(ghdr == against.rows@[0].deep_view());
            assert(ohdr.skip(0) =~= ohdr);
        }
        let mut null_header: Vec<String> = Vec::new();
        proof {
            assert(null_header.deep_view() =~= Seq::<Seq<char>>::empty());
            assert(Seq::<Seq<char>>::empty() + excl_cols(ohdr, ghdr) =~= excl_cols(ohdr, ghdr));
        }
        let width = of.rows[0].len();
        let mut k: usize = 0;
        while k < width
            invariant
                k <= width,
                width == ohdr.len(),
                ohdr == of@.rows[0],
                ghdr == against@.rows[0],
                of@.rows.len() >= 1,
                against@.rows.len() >= 1,
                excl_cols(ohdr, ghdr) == null_header.deep_view() + excl_cols(
                    ohdr.skip(k as int),
                    ghdr,
                ),
            decreases width - k,
        {
            let ghost cur = ohdr.skip(k as int);
            let ghost pre = null_header.deep_view();
            proof {
                assert(cur[0] == ohdr[k as int]);
                assert(ohdr[k as int] == of.rows@[0]@[k as int]@);
                assert(cur.skip(1) =~= ohdr.skip(k as int + 1));
            }
            if !names_contain(&against.rows[0], &of.rows[0][k]) {
                let name = of.rows[0][k].clone();
                null_header.push(name);
                proof {
                    assert(null_header.deep_view() =~= pre.push(cur[0]));
                    assert(pre + (seq![cur[0]] + excl_cols(cur.skip(1), ghdr)) =~= pre.push(cur[0])
                        + excl_cols(cur.skip(1), ghdr));
                }
            }
            k = k + 1;
        }
        proof {
            assert(ohdr.skip(width as int) =~= Seq::<Seq<char>>::empty());
            assert(null_header.deep_view() + Seq::<Seq<char>>::empty()
                =~= null_header.deep_view());
        }
        let ghost nh = null_header.deep_view();
        let nlen = null_header.len();
        let mut null_vals: Vec<String> = Vec::new();
        proof {
            reveal_strlit("Null");
            assert("Null"@ =~= null_chars());
            assert(null_vals.deep_view() =~= Seq::new(0nat, |k: int| null_chars()));
        }
        let mut v: usize = 0;
        while v < nlen
            invariant
                v <= nlen,
                nlen == nh.len(),
                null_vals.deep_view() == Seq::new(v as nat, |k: int| null_chars()),
            decreases nlen - v,
        {
            let ghost pre = null_vals.deep_view();
            let cell = String::from_str("Null");
            proof {
                reveal_strlit("Null");
                assert(cell@ =~= null_chars());
            }
            let ghost celldv = cell@;
            null_vals.push(cell);
            proof {
                assert(null_vals.deep_view() =~= pre.push(celldv));
                assert(pre.push(celldv) =~= Seq::new((v + 1) as nat, |k: int| null_chars()));
            }
            v = v + 1;
        }
        let t = Table { rows: vec![null_header, null_vals], types: clone_row(&of.types) };
        proof {
            assert(t@.rows =~= seq![nh, Seq::new(nh.len(), |k: int| null_chars())]);
            assert(t@ =~= null_table(of@, against@));
        }
        t
    }

    /// Left outer join: the join's rows plus each unmatched row of `self`,
    /// padded with a `Null` for every column of `other` not already one of
    /// `self`'s.  Fails where the join or the composition's set operations
    /// fail.  Operands are untouched.
    pub fn left_join(&self, condition: &Condition, other: &Table) -> (r: Result<Table, EvalError>)
        requires
            self.wf(),
            other.wf(),
        ensures
            match r {
                Ok(t) => spec_left_join(self@, condition@, other@) == Ok::<TableV, EvalErrorV>(t@),
                Err(e) => spec_left_join(self@, condition@, other@) == Err::<TableV, EvalErrorV>(
                    e@,
                ),
            },
    {
        let j = match self.join(condition, other) {
            Ok(t) => t,
            Err(e) => {
                return Err(e);
            },
        };
        proof {
            lemma_wf_multiply(self@, other@);
            lemma_wf_select(spec_multiply(self@, other@), condition@);
            assert(table_wf(j@));
        }
        let attrs = clone_row(&self.rows[0]);
        proof {
            assert(attrs.deep_view() =~= self@.rows[0]);
        }
        let pj = match j.project(attrs) {
            Ok(t) => t,
            Err(e) => {
                return Err(e);
            },
        };
        let m = match self.minus(&pj) {
            Ok(t) => t,
            Err(e) => {
                return Err(e);
            },
        };
        proof {
            assert(m@.rows.len() >= 1);
        }
        let nt = Self::build_null_table(other, self);
        let prod2 = match m.multiply(&nt) {
            Ok(t) => t,
            Err(e) => {
                return Err(e);
            },
        };
        j.union(&prod2)
    }

    /// Right outer join: symmetric to the left join, preserving `other`'s
    /// rows and padding `self`'s exclusive columns, the padding columns
    /// leftmost.  Operands are untouched.
    pub fn right_join(&self, condition: &Condition, other: &Table) -> (r: Result<Table, EvalError>)
        requires
            self.wf(),
            other.wf(),
        ensures
            match r {
                Ok(t) => spec_right_join(self@, condition@, other@) == Ok::<TableV, EvalErrorV>(
                    t@,
                ),
                Err(e) => spec_right_join(self@, condition@, other@) == Err::<TableV, EvalErrorV>(
                    e@,
                ),
            },
    {
        let j = match self.join(condition, other) {
            Ok(t) => t,
            Err(e) => {
                return Err(e);
            },
        };
        proof {
            lemma_wf_multiply(self@, other@);
            lemma_wf_select(spec_multiply(self@, other@), condition@);
            assert(table_wf(j@));
        }
        let attrs = clone_row(&other.rows[0]);
        proof {
            assert(attrs.deep_view() =~= other@.rows[0]);
        }
        let pj = match j.project(attrs) {
            Ok(t) => t,
            Err(e) => {
                return Err(e);
            },
        };
        let m = match other.minus(&pj) {
            Ok(t) => t,
            Err(e) => {
                return Err(e);
            },
        };
        proof {
            assert(m@.rows.len() >= 1);
        }
        let nt = Self::build_null_table(self, other);
        let prod2 = match nt.multiply(&m) {
            Ok(t) => t,
            Err(e) => {
                return Err(e);
            },
        };
        j.union(&prod2)
    }

    /// Full outer join: the union of the left and the right join.
    /// Operands are untouched.
    pub fn full_join(&self, condition: &Condition, other: &Table) -> (r: Result<Table, EvalError>)
        requires
            self.wf(),
            other.wf(),
        ensures
            match r {
                Ok(t) => spec_full_join(self@, condition@, other@) == Ok::<TableV, EvalErrorV>(t@),
                Err(e) => spec_full_join(self@, condition@, other@) == Err::<TableV, EvalErrorV>(
                    e@,
                ),
            },
    {
        let l = match self.left_join(condition, other) {
            Ok(t) => t,
            Err(e) => {
                return Err(e);
            },
        };
        let rj = match self.right_join(condition, other) {
            Ok(t) => t,
            Err(e) => {
                return Err(e);
            },
        };
        proof {
            let a = self@;
            let b = other@;
            let c = condition@;
            let j = spec_join(a, c, b)->Ok_0;
            assert(j.rows.len() >= 1);
            let m = spec_minus(a, spec_project(j, a.rows[0]))->Ok_0;
            lemma_add_unique_len(j.rows, spec_multiply(m, null_table(b, a)).rows.skip(1));
            assert(l@.rows.len() >= 1);
            let m2 = spec_minus(b, spec_project(j, b.rows[0]))->Ok_0;
            lemma_add_unique_len(j.rows, spec_multiply(null_table(a, b), m2).rows.skip(1));
            assert(rj@.rows.len() >= 1);
        }
        l.union(&rj)
    }

    /// The deterministic text rendering: each row's values joined by
    /// `", "`, one row per line, the header as the first line.
    pub fn render(&self) -> (r: String)
        ensures
            r@ == spec_render(self@.rows),
    {
        let mut out = String::new();
        proof {
            assert(out@ =~= Seq::<char>::empty());
            assert(self@.rows.skip(0) =~= self@.rows);
        }
        let mut i: usize = 0;
        while i < self.rows.len()
            invariant
                i <= self.rows.len(),
                spec_render(self@.rows) == render_rows_chars(out@, self@.rows.skip(i as int)),
            decreases self.rows.len() - i,
        {
            let ghost cur = self@.rows.skip(i as int);
            let ghost entry = out@;
            proof {
                assert(cur[0] == self.rows@[i as int].deep_view());
                assert(cur.skip(1) =~= self@.rows.skip(i as int + 1));
                assert(cur[0].skip(0) =~= cur[0]);
            }
            let row = &self.rows[i];
            let mut j: usize = 0;
            while j < row.len()
                invariant
                    j <= row.len(),
                    cur[0] == row.deep_view(),
                    entry + render_row_chars(cur[0]) == out@ + render_row_chars(
                        row.deep_view().skip(j as int),
                    ),
                decreases row.len() - j,
            {
                let ghost rest = row.deep_view().skip(j as int);
                let ghost outpre = out@;
                proof {
                    assert(rest[0] == row@[j as int]@);
                    assert(rest.skip(1) =~= row.deep_view().skip(j as int + 1));
                    reveal_strlit(", ");
                    assert(", "@ =~= seq![',', ' ']);
                }
                out.append(row[j].as_str());
                out.append(", ");
                proof {
                    assert(out@ =~= outpre + rest[0] + seq![',', ' ']);
                    assert(outpre + (rest[0] + seq![',', ' '] + render_row_chars(rest.skip(1)))
                        =~= (outpre + rest[0] + seq![',', ' ']) + render_row_chars(rest.skip(1)));
                }
                j = j + 1;
            }
            proof {
                assert(row.deep_view().skip(row@.len() as int) =~= Seq::<Seq<char>>::empty());
                assert(out@ + Seq::<char>::empty() =~= out@);
                assert(entry + render_row_chars(cur[0]) == out@);
            }
            pop_char(&mut out);
            pop_char(&mut out);
            push_char(&mut out, '\n');
            proof {
                assert(out@ == drop_last_char(drop_last_char(entry + render_row_chars(cur[0]))).push(
                    '\n',
                ));
            }
            i = i + 1;
        }
        proof {
            assert(self@.rows.skip(self@.rows.len() as int) =~= Seq::<Seq<Seq<char>>>::empty());
        }
        out
    }
}

} // verus!
