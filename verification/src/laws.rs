use vstd::prelude::*;
use crate::condition::CondV;
use crate::condition::spec_eval;
use crate::tokenizer::TokenV;
use crate::errors::EvalErrorV;
use crate::strings::true_chars;
use crate::strings::spec_parse_bool;
use crate::table::TableV;
use crate::table::table_wf;
use crate::table::add_unique;
use crate::table::spec_union;
use crate::table::spec_select;
use crate::table::spec_project;
use crate::table::spec_multiply;
use crate::table::spec_join;
use crate::table::project_steps;
use crate::table::rows_select;
use crate::table::spec_row_keep;
use crate::table::find_col;
use crate::table::col_index_from;
use crate::table::lemma_add_unique_contains;
use crate::table::lemma_contains_skip1;
use crate::table::lemma_dedup_wf;

verus! {

// ---------------------------------------------------------------------------
// Projection onto the full column list
// ---------------------------------------------------------------------------
/// Consuming the column list against an equal header prefix leaves a bare
/// removal pass over the rest.
proof fn lemma_steps_cols_prefix(t: TableV, cols: Seq<Seq<char>>, rest: Seq<Seq<char>>)
    ensures
        project_steps(t, cols, cols + rest) == project_steps(t, Seq::empty(), rest),
    decreases cols.len(),
{
    if cols.len() == 0 {
        assert(cols + rest =~= rest);
        assert(cols =~= Seq::<Seq<char>>::empty());
    } else {
        let rem = cols + rest;
        assert(rem[0] == cols[0]);
        assert(col_index_from(cols, cols[0], 0) == Some(0int));
        assert(find_col(cols, rem[0]) == Some(0int));
        assert(cols.remove(0) =~= cols.skip(1));
        assert(rem.skip(1) =~= cols.skip(1) + rest);
        assert(project_steps(t, cols, rem) == project_steps(t, cols.remove(0), rem.skip(1)));
        lemma_steps_cols_prefix(t, cols.skip(1), rest);
    }
}

/// Round trip: projecting a table onto its own full column list gives the
/// table back, up to row deduplication — the rows are the originals with
/// every later duplicate dropped, the type tags are untouched, and exactly
/// the original rows remain present.
pub proof fn lemma_project_full_columns(t: TableV)
    requires
        table_wf(t),
    ensures
        spec_project(t, t.rows[0]).rows == add_unique(Seq::empty(), t.rows),
        spec_project(t, t.rows[0]).types == t.types,
        spec_project(t, t.rows[0]).rows[0] == t.rows[0],
        forall|r: Seq<Seq<char>>|
            #[trigger] spec_project(t, t.rows[0]).rows.contains(r) == t.rows.contains(r),
{
    lemma_steps_cols_prefix(t, t.rows[0], Seq::empty());
    assert(t.rows[0] + Seq::<Seq<char>>::empty() =~= t.rows[0]);
    assert(project_steps(t, t.rows[0], t.rows[0]) == t);
    lemma_dedup_wf(t);
    assert forall|r: Seq<Seq<char>>| #[trigger] spec_project(t, t.rows[0]).rows.contains(r)
        == t.rows.contains(r) by {
        lemma_add_unique_contains(Seq::empty(), t.rows, r);
    }
}

// ---------------------------------------------------------------------------
// Union commutativity
// ---------------------------------------------------------------------------
/// Union is commutative as a set of rows: both orders succeed together,
/// and their results hold exactly the same rows.
pub proof fn lemma_union_commutative(a: TableV, b: TableV)
    requires
        a.rows.len() >= 1,
        b.rows.len() >= 1,
        spec_union(a, b) matches Ok(u),
    ensures
        spec_union(b, a) matches Ok(v),
        forall|r: Seq<Seq<char>>| #[trigger] (spec_union(a, b)->Ok_0).rows.contains(r) == (
        spec_union(b, a)->Ok_0).rows.contains(r),
{
    let u = spec_union(a, b)->Ok_0;
    let v = spec_union(b, a)->Ok_0;
    assert forall|r: Seq<Seq<char>>| #[trigger] u.rows.contains(r) == v.rows.contains(r) by {
        lemma_add_unique_contains(a.rows, b.rows.skip(1), r);
        lemma_add_unique_contains(b.rows, a.rows.skip(1), r);
        lemma_contains_skip1(a.rows, r);
        lemma_contains_skip1(b.rows, r);
    }
}

// ---------------------------------------------------------------------------
// Selection idempotence
// ---------------------------------------------------------------------------
/// The rows a selection keeps pass the same selection unchanged.
proof fn lemma_rows_select_stable(
    header: Seq<Seq<char>>,
    data: Seq<Seq<Seq<char>>>,
    c: CondV,
)
    requires
        rows_select(header, data, c) matches Ok(kept),
    ensures
        rows_select(header, data, c) matches Ok(kept) ==> rows_select(header, kept, c) == Ok::<
            Seq<Seq<Seq<char>>>,
            EvalErrorV,
        >(kept),
    decreases data.len(),
{
    if data.len() == 0 {
    } else {
        match spec_row_keep(c, header, data[0]) {
            Err(_) => {},
            Ok(keep) => {
                lemma_rows_select_stable(header, data.skip(1), c);
                let rest = rows_select(header, data.skip(1), c)->Ok_0;
                if keep {
                    let kept = seq![data[0]] + rest;
                    assert(kept[0] == data[0]);
                    assert(kept.skip(1) =~= rest);
                }
            },
        }
    }
}

/// Selecting twice with one condition is selecting once: the second pass
/// keeps every row the first pass kept.
pub proof fn lemma_select_idempotent(a: TableV, c: CondV)
    requires
        spec_select(a, c) matches Ok(s),
    ensures
        spec_select(a, c) matches Ok(s) ==> spec_select(s, c) == Ok::<TableV, EvalErrorV>(s),
{
    let s = spec_select(a, c)->Ok_0;
    let kept = rows_select(a.rows[0], a.rows.skip(1), c)->Ok_0;
    assert(s.rows[0] == a.rows[0]);
    assert(s.rows.skip(1) =~= kept);
    lemma_rows_select_stable(a.rows[0], a.rows.skip(1), c);
    assert(seq![s.rows[0]] + s.rows.skip(1) =~= s.rows);
}

// ---------------------------------------------------------------------------
// Counting
// ---------------------------------------------------------------------------
/// How many elements of `s` equal `x`.
pub open spec fn seq_count<A>(s: Seq<A>, x: A) -> nat
    decreases s.len(),
{
    if s.len() == 0 {
        0
    } else {
        (if s[0] == x {
            1nat
        } else {
            0nat
        }) + seq_count(s.skip(1), x)
    }
}

/// Counting a one-element sequence.
proof fn lemma_count_singleton<A>(y: A, x: A)
    ensures
        seq_count(seq![y], x) == if y == x {
            1nat
        } else {
            0nat
        },
{
    assert(seq![y].skip(1) =~= Seq::<A>::empty());
    assert(seq_count(Seq::<A>::empty(), x) == 0);
}

/// Counting distributes over concatenation.
proof fn lemma_count_concat<A>(a: Seq<A>, b: Seq<A>, x: A)
    ensures
        seq_count(a + b, x) == seq_count(a, x) + seq_count(b, x),
    decreases a.len(),
{
    if a.len() == 0 {
        assert(a + b =~= b);
    } else {
        assert((a + b)[0] == a[0]);
        assert((a + b).skip(1) =~= a.skip(1) + b);
        lemma_count_concat(a.skip(1), b, x);
    }
}

/// An element occurs exactly when its count is positive.
proof fn lemma_count_contains<A>(s: Seq<A>, x: A)
    ensures
        s.contains(x) == (seq_count(s, x) > 0),
    decreases s.len(),
{
    if s.len() == 0 {
    } else {
        lemma_count_contains(s.skip(1), x);
        lemma_contains_skip1(s, x);
    }
}

/// Removing one position takes away exactly that element's contribution.
proof fn lemma_count_remove<A>(s: Seq<A>, j: int, x: A)
    requires
        0 <= j < s.len(),
    ensures
        seq_count(s.remove(j), x) + (if s[j] == x {
            1nat
        } else {
            0nat
        }) == seq_count(s, x),
{
    let pre = s.subrange(0, j);
    let mid = seq![s[j]];
    let post = s.subrange(j + 1, s.len() as int);
    assert(s =~= pre + mid + post);
    assert(s.remove(j) =~= pre + post);
    lemma_count_concat(pre, post, x);
    lemma_count_concat(pre + mid, post, x);
    lemma_count_concat(pre, mid, x);
    lemma_count_singleton(s[j], x);
    assert(seq_count(s, x) == seq_count(pre + mid, x) + seq_count(post, x));
}

// ---------------------------------------------------------------------------
// Intersection commutativity
// ---------------------------------------------------------------------------
/// What one left row emits: its count in the right rows, of itself.
proof fn lemma_count_emit(r: Seq<Seq<char>>, bs: Seq<Seq<Seq<char>>>, v: Seq<Seq<char>>)
    ensures
        seq_count(crate::table::emit_matches(r, bs), v) == if v == r {
            seq_count(bs, r)
        } else {
            0nat
        },
    decreases bs.len(),
{
    if bs.len() == 0 {
    } else {
        lemma_count_emit(r, bs.skip(1), v);
        let head: Seq<Seq<Seq<char>>> = if bs[0] == r {
            seq![r]
        } else {
            Seq::empty()
        };
        lemma_count_concat(head, crate::table::emit_matches(r, bs.skip(1)), v);
        if bs[0] == r {
            lemma_count_singleton(r, v);
        } else {
            assert(seq_count(Seq::<Seq<Seq<char>>>::empty(), v) == 0);
        }
    }
}

/// The pair-emission count: the product of the two sides' counts.
proof fn lemma_count_intersect(
    arows: Seq<Seq<Seq<char>>>,
    brows: Seq<Seq<Seq<char>>>,
    v: Seq<Seq<char>>,
)
    ensures
        seq_count(crate::table::rows_intersect(arows, brows), v) == seq_count(arows, v)
            * seq_count(brows, v),
    decreases arows.len(),
{
    if arows.len() == 0 {
        assert(seq_count(crate::table::rows_intersect(arows, brows), v) == 0);
        assert(seq_count(arows, v) == 0);
        assert(seq_count(arows, v) * seq_count(brows, v) == 0) by (nonlinear_arith)
            requires
                seq_count(arows, v) == 0nat,
        ;
    } else {
        lemma_count_intersect(arows.skip(1), brows, v);
        lemma_count_emit(arows[0], brows, v);
        lemma_count_concat(
            crate::table::emit_matches(arows[0], brows),
            crate::table::rows_intersect(arows.skip(1), brows),
            v,
        );
        let e: nat = if arows[0] == v {
            1nat
        } else {
            0nat
        };
        let c1 = seq_count(arows.skip(1), v);
        let cb = seq_count(brows, v);
        let ca = seq_count(arows, v);
        let emitc = seq_count(crate::table::emit_matches(arows[0], brows), v);
        let total = seq_count(crate::table::rows_intersect(arows, brows), v);
        assert(ca == e + c1);
        assert(total == emitc + c1 * cb);
        if arows[0] == v {
            assert(emitc == cb);
        } else {
            assert(emitc == 0);
        }
        assert(total == ca * cb) by (nonlinear_arith)
            requires
                total == emitc + c1 * cb,
                ca == e + c1,
                e == 1nat ==> emitc == cb,
                e == 0nat ==> emitc == 0nat,
                e == 1nat || e == 0nat,
        ;
    }
}

/// Intersection is commutative as a multiset of rows: under the documented
/// pair-emission rule, both orders succeed together and every row appears
/// in each result the same number of times.
pub proof fn lemma_intersect_commutative(a: TableV, b: TableV)
    requires
        a.rows.len() >= 1,
        b.rows.len() >= 1,
        crate::table::spec_intersect(a, b) matches Ok(u),
    ensures
        crate::table::spec_intersect(b, a) matches Ok(v),
        forall|r: Seq<Seq<char>>|
            seq_count(#[trigger] (crate::table::spec_intersect(a, b)->Ok_0).rows, r) == seq_count(
                (crate::table::spec_intersect(b, a)->Ok_0).rows,
                r,
            ),
{
    let u = crate::table::spec_intersect(a, b)->Ok_0;
    let v = crate::table::spec_intersect(b, a)->Ok_0;
    assert forall|r: Seq<Seq<char>>| seq_count(#[trigger] u.rows, r) == seq_count(v.rows, r) by {
        lemma_count_intersect(a.rows.skip(1), b.rows.skip(1), r);
        lemma_count_intersect(b.rows.skip(1), a.rows.skip(1), r);
        lemma_count_concat(seq![a.rows[0]], crate::table::rows_intersect(a.rows.skip(1), b.rows.skip(1)), r);
        lemma_count_concat(seq![b.rows[0]], crate::table::rows_intersect(b.rows.skip(1), a.rows.skip(1)), r);
        lemma_count_singleton(a.rows[0], r);
        lemma_count_singleton(b.rows[0], r);
    }
}

// ---------------------------------------------------------------------------
// Projection idempotence
// ---------------------------------------------------------------------------
/// A present name is found.
proof fn lemma_col_index_some(s: Seq<Seq<char>>, x: Seq<char>, i: int)
    requires
        0 <= i <= s.len(),
        exists|j: int| i <= j < s.len() && s[j] == x,
    ensures
        col_index_from(s, x, i) is Some,
    decreases s.len() - i,
{
    if s[i] == x {
    } else {
        let j = choose|j: int| i <= j < s.len() && s[j] == x;
        assert(i + 1 <= j < s.len() && s[j] == x);
        lemma_col_index_some(s, x, i + 1);
    }
}

/// The found index is the first occurrence.
proof fn lemma_col_index_first(s: Seq<Seq<char>>, x: Seq<char>, i: int, m: int)
    requires
        col_index_from(s, x, i) matches Some(j) && i <= m < j,
    ensures
        s[m] != x,
    decreases m - i,
{
    if m > i {
        lemma_col_index_first(s, x, i + 1, m);
    }
}

/// Where every name of the remaining header fits inside the column list's
/// multiplicities, every step matches and the table is left untouched.
proof fn lemma_steps_keep_all(t: TableV, cols: Seq<Seq<char>>, rem: Seq<Seq<char>>)
    requires
        forall|n: Seq<char>| #[trigger] seq_count(rem, n) <= seq_count(cols, n),
    ensures
        project_steps(t, cols, rem) == t,
    decreases rem.len(),
{
    if rem.len() == 0 {
    } else {
        assert(seq_count(rem, rem[0]) >= 1);
        assert(seq_count(cols, rem[0]) >= 1);
        lemma_count_contains(cols, rem[0]);
        lemma_col_index_some(cols, rem[0], 0);
        let j = find_col(cols, rem[0])->Some_0;
        crate::table::lemma_col_index_bounds(cols, rem[0], 0);
        assert forall|n: Seq<char>| #[trigger] seq_count(rem.skip(1), n) <= seq_count(
            cols.remove(j),
            n,
        ) by {
            lemma_count_remove(cols, j, n);
            assert(seq_count(rem, n) == (if rem[0] == n {
                1nat
            } else {
                0nat
            }) + seq_count(rem.skip(1), n));
        }
        lemma_steps_keep_all(t, cols.remove(j), rem.skip(1));
    }
}

/// Each column name of a projection's result header uses up one entry of
/// the column list: counted together with the unprocessed header part, it
/// never exceeds the original header plus the list.
proof fn lemma_steps_header_bound(t: TableV, cols: Seq<Seq<char>>, rem: Seq<Seq<char>>, n: Seq<char>)
    requires
        table_wf(t),
        rem.len() <= t.rows[0].len(),
        t.rows[0].skip(t.rows[0].len() - rem.len()) == rem,
    ensures
        seq_count(project_steps(t, cols, rem).rows[0], n) + seq_count(rem, n) <= seq_count(
            t.rows[0],
            n,
        ) + seq_count(cols, n),
    decreases rem.len(),
{
    let hdr = t.rows[0];
    let k = hdr.len() - rem.len();
    if rem.len() == 0 {
        assert(seq_count(rem, n) == 0);
    } else {
        assert(hdr[k] == rem[0]) by {
            assert(hdr.skip(k)[0] == hdr[k]);
        }
        match find_col(cols, rem[0]) {
            Some(j) => {
                crate::table::lemma_col_index_bounds(cols, rem[0], 0);
                assert(hdr.skip(k + 1) =~= rem.skip(1));
                lemma_steps_header_bound(t, cols.remove(j), rem.skip(1), n);
                lemma_count_remove(cols, j, n);
                assert(seq_count(rem, n) == (if rem[0] == n {
                    1nat
                } else {
                    0nat
                }) + seq_count(rem.skip(1), n));
            },
            None => {
                let t2 = crate::table::spec_remove_column(t, rem[0]);
                assert(hdr.contains(rem[0])) by {
                    assert(hdr[k] == rem[0]);
                }
                lemma_col_index_some(hdr, rem[0], 0);
                let j2 = find_col(hdr, rem[0])->Some_0;
                crate::table::lemma_col_index_bounds(hdr, rem[0], 0);
                assert(j2 <= k) by {
                    if j2 > k {
                        lemma_col_index_first(hdr, rem[0], 0, k);
                    }
                }
                crate::table::lemma_wf_remove_column(t, rem[0]);
                assert(t2.rows[0] == hdr.remove(j2)) by {
                    crate::table::lemma_rows_remove_at_props(t.rows, j2);
                }
                hdr.remove_ensures(j2);
                assert(t2.rows[0].skip(t2.rows[0].len() - rem.skip(1).len()) =~= rem.skip(1)) by {
                    assert(t2.rows[0].len() - rem.skip(1).len() == k);
                    assert forall|m: int| 0 <= m < rem.skip(1).len() implies t2.rows[0].skip(k)[m]
                        == rem.skip(1)[m] by {
                        assert(t2.rows[0][k + m] == hdr[k + m + 1]);
                        assert(hdr.skip(k)[m + 1] == hdr[k + m + 1]);
                    }
                }
                lemma_steps_header_bound(t2, cols, rem.skip(1), n);
                lemma_count_remove(hdr, j2, n);
                assert(seq_count(rem, n) == (if rem[0] == n {
                    1nat
                } else {
                    0nat
                }) + seq_count(rem.skip(1), n));
            },
        }
    }
}

/// A deduplicated sequence holds no duplicates.
proof fn lemma_add_unique_distinct(acc: Seq<Seq<Seq<char>>>, rows: Seq<Seq<Seq<char>>>)
    requires
        forall|i: int, j: int| 0 <= i < j < acc.len() ==> acc[i] != acc[j],
    ensures
        forall|i: int, j: int|
            0 <= i < j < add_unique(acc, rows).len() ==> add_unique(acc, rows)[i] != add_unique(
                acc,
                rows,
            )[j],
    decreases rows.len(),
{
    if rows.len() == 0 {
    } else {
        if acc.contains(rows[0]) {
            lemma_add_unique_distinct(acc, rows.skip(1));
            assert(add_unique(acc, rows) == add_unique(acc, rows.skip(1)));
        } else {
            let acc2 = acc.push(rows[0]);
            assert forall|i: int, j: int| 0 <= i < j < acc2.len() implies acc2[i] != acc2[j] by {
                if j < acc.len() {
                } else {
                    assert(acc2[j] == rows[0]);
                    assert(acc2[i] == acc[i]);
                    assert(!acc.contains(rows[0]));
                }
            }
            lemma_add_unique_distinct(acc2, rows.skip(1));
            assert(add_unique(acc, rows) == add_unique(acc2, rows.skip(1)));
        }
    }
}

/// Deduplicating rows that are distinct and all new appends them whole.
proof fn lemma_add_unique_disjoint(acc: Seq<Seq<Seq<char>>>, s: Seq<Seq<Seq<char>>>)
    requires
        forall|i: int, j: int| 0 <= i < j < s.len() ==> s[i] != s[j],
        forall|x: Seq<Seq<char>>| s.contains(x) ==> !acc.contains(x),
    ensures
        add_unique(acc, s) == acc + s,
    decreases s.len(),
{
    if s.len() == 0 {
        assert(acc + s =~= acc);
    } else {
        assert(s.contains(s[0]));
        assert(!acc.contains(s[0]));
        let acc2 = acc.push(s[0]);
        assert forall|x: Seq<Seq<char>>| s.skip(1).contains(x) implies !acc2.contains(x) by {
            lemma_contains_skip1(s, x);
            let m = choose|m: int| 0 <= m < s.skip(1).len() && s.skip(1)[m] == x;
            assert(s[m + 1] == x);
            assert(s[0] != x);
            crate::table::lemma_contains_push(acc, s[0], x);
        }
        lemma_add_unique_disjoint(acc2, s.skip(1));
        assert(acc.push(s[0]) + s.skip(1) =~= acc + s);
    }
}

/// Projecting twice onto one column list is projecting once: the first
/// pass leaves no column the list cannot account for and no duplicate
/// rows, so the second pass keeps everything.
pub proof fn lemma_project_idempotent(t: TableV, cols: Seq<Seq<char>>)
    requires
        table_wf(t),
    ensures
        spec_project(spec_project(t, cols), cols) == spec_project(t, cols),
{
    let stepped = project_steps(t, cols, t.rows[0]);
    crate::table::lemma_wf_project_steps(t, cols, t.rows[0]);
    let p = spec_project(t, cols);
    lemma_dedup_wf(stepped);
    crate::table::lemma_wf_project(t, cols);
    assert(p.rows[0] == stepped.rows[0]);
    assert forall|n: Seq<char>| #[trigger] seq_count(p.rows[0], n) <= seq_count(cols, n) by {
        assert(t.rows[0].skip(0) =~= t.rows[0]);
        lemma_steps_header_bound(t, cols, t.rows[0], n);
    }
    lemma_steps_keep_all(p, cols, p.rows[0]);
    assert(project_steps(p, cols, p.rows[0]) == p);
    lemma_add_unique_distinct(Seq::empty(), stepped.rows);
    assert(forall|x: Seq<Seq<char>>|
        p.rows.contains(x) ==> !Seq::<Seq<Seq<char>>>::empty().contains(x));
    lemma_add_unique_disjoint(Seq::empty(), p.rows);
    assert(Seq::<Seq<Seq<char>>>::empty() + p.rows =~= p.rows);
    assert(spec_project(p, cols) =~= p);
}

// ---------------------------------------------------------------------------
// The division law
// ---------------------------------------------------------------------------
/// The values of `vals` at the positions whose `names` entry is not named
/// in `bh`.
spec fn excl_vals(vals: Seq<Seq<char>>, names: Seq<Seq<char>>, bh: Seq<Seq<char>>) -> Seq<Seq<char>>
    decreases names.len(),
{
    if names.len() == 0 {
        Seq::empty()
    } else {
        (if bh.contains(names[0]) {
            Seq::empty()
        } else {
            seq![vals[0]]
        }) + excl_vals(vals.skip(1), names.skip(1), bh)
    }
}

/// Membership in a concatenation.
proof fn lemma_contains_concat<A>(a: Seq<A>, b: Seq<A>, x: A)
    ensures
        (a + b).contains(x) == (a.contains(x) || b.contains(x)),
{
    if (a + b).contains(x) {
        let j = choose|j: int| 0 <= j < (a + b).len() && (a + b)[j] == x;
        if j < a.len() {
            assert(a[j] == x);
        } else {
            assert(b[j - a.len()] == x);
        }
    }
    if a.contains(x) {
        let j = choose|j: int| 0 <= j < a.len() && a[j] == x;
        assert((a + b)[j] == x);
    }
    if b.contains(x) {
        let j = choose|j: int| 0 <= j < b.len() && b[j] == x;
        assert((a + b)[j + a.len()] == x);
    }
}

/// No exclusive column is named in the header it was filtered against.
proof fn lemma_excl_cols_member(ah: Seq<Seq<char>>, bh: Seq<Seq<char>>, x: Seq<char>)
    requires
        crate::table::excl_cols(ah, bh).contains(x),
    ensures
        !bh.contains(x),
        ah.contains(x),
    decreases ah.len(),
{
    if ah.len() == 0 {
    } else {
        let head: Seq<Seq<char>> = if bh.contains(ah[0]) {
            Seq::empty()
        } else {
            seq![ah[0]]
        };
        lemma_contains_concat(head, crate::table::excl_cols(ah.skip(1), bh), x);
        if head.contains(x) {
            assert(x == ah[0]);
        } else {
            lemma_excl_cols_member(ah.skip(1), bh, x);
            lemma_contains_skip1(ah, x);
        }
    }
}

/// Filtering a sequence of names against itself coincides with filtering
/// its values.
proof fn lemma_excl_vals_names(names: Seq<Seq<char>>, bh: Seq<Seq<char>>)
    ensures
        excl_vals(names, names, bh) == crate::table::excl_cols(names, bh),
    decreases names.len(),
{
    if names.len() == 0 {
    } else {
        lemma_excl_vals_names(names.skip(1), bh);
    }
}

/// Projecting onto the exclusive columns acts on every row alike: the
/// values at the positions whose column name is not in `bh` survive, in
/// order.  `rem` is the unprocessed suffix of the header; the already
/// processed columns all have names outside `bh`.
proof fn lemma_steps_excl(t: TableV, rem: Seq<Seq<char>>, bh: Seq<Seq<char>>)
    requires
        table_wf(t),
        rem.len() <= t.rows[0].len(),
        t.rows[0].skip(t.rows[0].len() - rem.len()) == rem,
        forall|m: int|
            0 <= m < t.rows[0].len() - rem.len() ==> !bh.contains(#[trigger] t.rows[0][m]),
    ensures
        project_steps(t, crate::table::excl_cols(rem, bh), rem).rows.len() == t.rows.len(),
        forall|i: int|
            0 <= i < t.rows.len() ==> #[trigger] project_steps(
                t,
                crate::table::excl_cols(rem, bh),
                rem,
            ).rows[i] == t.rows[i].take(t.rows[0].len() - rem.len()) + excl_vals(
                t.rows[i].skip(t.rows[0].len() - rem.len()),
                rem,
                bh,
            ),
    decreases rem.len(),
{
    let hdr = t.rows[0];
    let k = hdr.len() - rem.len();
    let cols = crate::table::excl_cols(rem, bh);
    if rem.len() == 0 {
        assert forall|i: int| 0 <= i < t.rows.len() implies #[trigger] project_steps(
            t,
            cols,
            rem,
        ).rows[i] == t.rows[i].take(k) + excl_vals(t.rows[i].skip(k), rem, bh) by {
            assert(t.rows[i].len() == k);
            assert(excl_vals(t.rows[i].skip(k), rem, bh) =~= Seq::<Seq<char>>::empty());
            assert(t.rows[i].take(k) + Seq::<Seq<char>>::empty() =~= t.rows[i]);
        }
    } else {
        assert(hdr[k] == rem[0]) by {
            assert(hdr.skip(k)[0] == hdr[k]);
        }
        if !bh.contains(rem[0]) {
            // the column is kept: its name heads the list and is consumed
            assert(cols == seq![rem[0]] + crate::table::excl_cols(rem.skip(1), bh));
            assert(cols[0] == rem[0]);
            assert(col_index_from(cols, rem[0], 0) == Some(0int));
            assert(cols.remove(0) =~= crate::table::excl_cols(rem.skip(1), bh));
            assert(project_steps(t, cols, rem) == project_steps(
                t,
                crate::table::excl_cols(rem.skip(1), bh),
                rem.skip(1),
            ));
            assert(hdr.skip(k + 1) =~= rem.skip(1));
            assert forall|m: int| 0 <= m < k + 1 implies !bh.contains(#[trigger] hdr[m]) by {
                if m == k {
                    assert(hdr[k] == rem[0]);
                }
            }
            lemma_steps_excl(t, rem.skip(1), bh);
            let out = project_steps(t, cols, rem);
            assert forall|i: int| 0 <= i < t.rows.len() implies #[trigger] out.rows[i]
                == t.rows[i].take(k) + excl_vals(t.rows[i].skip(k), rem, bh) by {
                let row = t.rows[i];
                assert(row.len() == hdr.len());
                assert(out.rows[i] == row.take(k + 1) + excl_vals(row.skip(k + 1), rem.skip(1), bh));
                assert(row.skip(k)[0] == row[k]);
                assert(row.skip(k).skip(1) =~= row.skip(k + 1));
                assert(excl_vals(row.skip(k), rem, bh) == seq![row[k]] + excl_vals(
                    row.skip(k + 1),
                    rem.skip(1),
                    bh,
                ));
                assert(row.take(k + 1) + excl_vals(row.skip(k + 1), rem.skip(1), bh) =~= row.take(k)
                    + (seq![row[k]] + excl_vals(row.skip(k + 1), rem.skip(1), bh)));
            }
        } else {
            // the column is removed: it is the first of its name
            assert(cols == crate::table::excl_cols(rem.skip(1), bh));
            assert(!cols.contains(rem[0])) by {
                if cols.contains(rem[0]) {
                    lemma_excl_cols_member(rem.skip(1), bh, rem[0]);
                }
            }
            assert(find_col(cols, rem[0]) is None) by {
                if find_col(cols, rem[0]) matches Some(j) {
                    crate::table::lemma_col_index_bounds(cols, rem[0], 0);
                    assert(cols.contains(rem[0]));
                }
            }
            assert(hdr.contains(rem[0])) by {
                assert(hdr[k] == rem[0]);
            }
            lemma_col_index_some(hdr, rem[0], 0);
            let j2 = find_col(hdr, rem[0])->Some_0;
            crate::table::lemma_col_index_bounds(hdr, rem[0], 0);
            assert(j2 == k) by {
                if j2 > k {
                    lemma_col_index_first(hdr, rem[0], 0, k);
                } else if j2 < k {
                    assert(!bh.contains(hdr[j2]));
                }
            }
            let t2 = crate::table::spec_remove_column(t, rem[0]);
            crate::table::lemma_wf_remove_column(t, rem[0]);
            crate::table::lemma_rows_remove_at_props(t.rows, k);
            assert(t2.rows[0] == hdr.remove(k));
            hdr.remove_ensures(k);
            assert(t2.rows[0].len() == hdr.len() - 1);
            assert(t2.rows[0].skip(k) =~= rem.skip(1)) by {
                assert forall|m: int| 0 <= m < rem.skip(1).len() implies t2.rows[0].skip(k)[m]
                    == rem.skip(1)[m] by {
                    assert(t2.rows[0][k + m] == hdr[k + m + 1]);
                    assert(hdr.skip(k)[m + 1] == hdr[k + m + 1]);
                }
            }
            assert forall|m: int| 0 <= m < k implies !bh.contains(#[trigger] t2.rows[0][m]) by {
                assert(t2.rows[0][m] == hdr[m]);
            }
            lemma_steps_excl(t2, rem.skip(1), bh);
            assert(project_steps(t, cols, rem) == project_steps(t2, cols, rem.skip(1)));
            let out = project_steps(t, cols, rem);
            assert forall|i: int| 0 <= i < t.rows.len() implies #[trigger] out.rows[i]
                == t.rows[i].take(k) + excl_vals(t.rows[i].skip(k), rem, bh) by {
                let row = t.rows[i];
                assert(row.len() == hdr.len());
                let row2 = t2.rows[i];
                assert(row2 == row.remove(k));
                row.remove_ensures(k);
                assert(out.rows[i] == row2.take(k) + excl_vals(row2.skip(k), rem.skip(1), bh));
                assert(row2.take(k) =~= row.take(k));
                assert(row2.skip(k) =~= row.skip(k + 1)) by {
                    assert forall|m: int| 0 <= m < row2.len() - k implies row2.skip(k)[m] == row.skip(
                        k + 1,
                    )[m] by {
                        assert(row2[k + m] == row[k + m + 1]);
                    }
                }
                assert(row.skip(k).skip(1) =~= row.skip(k + 1));
                assert(excl_vals(row.skip(k), rem, bh) == excl_vals(row.skip(k + 1), rem.skip(1), bh));
            }
        }
    }
}

/// The exclusive-column filter keeps exactly the left block of a row made
/// of a block named outside `bh` followed by a block named inside it.
proof fn lemma_excl_vals_blocks(
    x: Seq<Seq<char>>,
    y: Seq<Seq<char>>,
    n1: Seq<Seq<char>>,
    n2: Seq<Seq<char>>,
    bh: Seq<Seq<char>>,
)
    requires
        x.len() == n1.len(),
        y.len() == n2.len(),
        forall|m: int| 0 <= m < n1.len() ==> !bh.contains(#[trigger] n1[m]),
        forall|m: int| 0 <= m < n2.len() ==> bh.contains(#[trigger] n2[m]),
    ensures
        excl_vals(x + y, n1 + n2, bh) == x,
    decreases n1.len() + n2.len(),
{
    if n1.len() > 0 {
        assert((n1 + n2)[0] == n1[0]);
        assert((x + y)[0] == x[0]);
        assert((x + y).skip(1) =~= x.skip(1) + y);
        assert((n1 + n2).skip(1) =~= n1.skip(1) + n2);
        lemma_excl_vals_blocks(x.skip(1), y, n1.skip(1), n2, bh);
        assert(seq![x[0]] + x.skip(1) =~= x);
    } else if n2.len() > 0 {
        assert(n1 + n2 =~= n2);
        assert(x + y =~= y);
        assert(x =~= Seq::<Seq<char>>::empty());
        assert(y.skip(1) =~= Seq::<Seq<char>>::empty() + y.skip(1));
        assert(n2.skip(1) =~= Seq::<Seq<char>>::empty() + n2.skip(1));
        lemma_excl_vals_blocks(Seq::empty(), y.skip(1), Seq::empty(), n2.skip(1), bh);
        assert(excl_vals(y, n2, bh) == excl_vals(y.skip(1), n2.skip(1), bh));
    } else {
        assert(n1 + n2 =~= Seq::<Seq<char>>::empty());
        assert(x =~= Seq::<Seq<char>>::empty());
    }
}

/// A row survives a difference exactly when the left rows hold it and the
/// right rows do not.
proof fn lemma_rows_minus_iff(
    rows: Seq<Seq<Seq<char>>>,
    other: Seq<Seq<Seq<char>>>,
    x: Seq<Seq<char>>,
)
    ensures
        crate::table::rows_minus(rows, other).contains(x) == (rows.contains(x)
            && !other.contains(x)),
    decreases rows.len(),
{
    if rows.len() == 0 {
    } else {
        lemma_rows_minus_iff(rows.skip(1), other, x);
        lemma_contains_skip1(rows, x);
        let rest = crate::table::rows_minus(rows.skip(1), other);
        if other.contains(rows[0]) {
        } else {
            lemma_contains_concat(seq![rows[0]], rest, x);
            assert(seq![rows[0]].contains(x) == (x == rows[0])) by {
                if seq![rows[0]].contains(x) {
                    let j = choose|j: int| 0 <= j < 1 && seq![rows[0]][j] == x;
                    assert(j == 0);
                }
                if x == rows[0] {
                    assert(seq![rows[0]][0] == x);
                }
            }
        }
    }
}

/// One row crossed with a present right row appears in the cross product.
proof fn lemma_cross_member(
    arows: Seq<Seq<Seq<char>>>,
    brows: Seq<Seq<Seq<char>>>,
    x: Seq<Seq<char>>,
    y: Seq<Seq<char>>,
)
    requires
        arows.contains(x),
        brows.contains(y),
    ensures
        crate::table::rows_cross(arows, brows).contains(x + y),
    decreases arows.len(),
{
    let j = choose|j: int| 0 <= j < arows.len() && arows[j] == x;
    if j == 0 {
        lemma_cross_row_member(x, brows, y);
        lemma_contains_concat(
            crate::table::cross_row(arows[0], brows),
            crate::table::rows_cross(arows.skip(1), brows),
            x + y,
        );
    } else {
        assert(arows.skip(1)[j - 1] == x);
        lemma_cross_member(arows.skip(1), brows, x, y);
        lemma_contains_concat(
            crate::table::cross_row(arows[0], brows),
            crate::table::rows_cross(arows.skip(1), brows),
            x + y,
        );
    }
}

/// One left row crossed with a present right row appears in its strip.
proof fn lemma_cross_row_member(x: Seq<Seq<char>>, brows: Seq<Seq<Seq<char>>>, y: Seq<Seq<char>>)
    requires
        brows.contains(y),
    ensures
        crate::table::cross_row(x, brows).contains(x + y),
    decreases brows.len(),
{
    let j = choose|j: int| 0 <= j < brows.len() && brows[j] == y;
    if j == 0 {
        assert(crate::table::cross_row(x, brows)[0] == x + y);
    } else {
        assert(brows.skip(1)[j - 1] == y);
        lemma_cross_row_member(x, brows.skip(1), y);
        lemma_contains_concat(
            seq![x + brows[0]],
            crate::table::cross_row(x, brows.skip(1)),
            x + y,
        );
    }
}

/// The division law: every row of `divide(a, b)`, extended with any data
/// row of `b`, appears among `a`'s rows.
pub proof fn lemma_divide_law(a: TableV, b: TableV, r: Seq<Seq<char>>, brow: Seq<Seq<char>>)
    requires
        table_wf(a),
        table_wf(b),
        crate::table::spec_divide(a, b) matches Ok(d) && d.rows.skip(1).contains(r),
        b.rows.skip(1).contains(brow),
    ensures
        a.rows.contains(r + brow),
{
    let bh = b.rows[0];
    let attrs = crate::table::excl_cols(a.rows[0], bh);
    let pa = spec_project(a, attrs);
    let prod = spec_multiply(pa, b);
    let m = crate::table::spec_minus(prod, a)->Ok_0;
    let pm = spec_project(m, attrs);
    let d = crate::table::spec_divide(a, b)->Ok_0;
    // the first pass over `a`: every row filtered to its exclusive columns
    let stepped_a = project_steps(a, attrs, a.rows[0]);
    assert(a.rows[0].skip(0) =~= a.rows[0]);
    lemma_steps_excl(a, a.rows[0], bh);
    crate::table::lemma_wf_project_steps(a, attrs, a.rows[0]);
    lemma_dedup_wf(stepped_a);
    crate::table::lemma_wf_project(a, attrs);
    assert(stepped_a.rows[0] == a.rows[0].take(0) + excl_vals(a.rows[0].skip(0), a.rows[0], bh));
    lemma_excl_vals_names(a.rows[0], bh);
    assert(a.rows[0].take(0) + excl_vals(a.rows[0], a.rows[0], bh) =~= attrs);
    assert(pa.rows[0] == attrs);
    // the headers align: `a` is the exclusive columns followed by `b`'s
    assert(prod.rows[0] == attrs + bh);
    assert(a.rows[0] == attrs + bh);
    // the divided row comes from `pa` and is absent from `pm`
    assert(d.rows.skip(1) =~= crate::table::rows_minus(pa.rows.skip(1), pm.rows));
    lemma_rows_minus_iff(pa.rows.skip(1), pm.rows, r);
    assert(pa.rows.skip(1).contains(r));
    assert(!pm.rows.contains(r));
    lemma_contains_skip1(pa.rows, r);
    // widths
    assert(r.len() == attrs.len()) by {
        let j = choose|j: int| 0 <= j < pa.rows.len() && pa.rows[j] == r;
        assert(pa.rows[j].len() == pa.rows[0].len());
    }
    assert(brow.len() == bh.len()) by {
        let j = choose|j: int| 0 <= j < b.rows.skip(1).len() && b.rows.skip(1)[j] == brow;
        assert(b.rows[j + 1] == brow);
    }
    // the crossed row sits in the product's data
    lemma_cross_member(pa.rows.skip(1), b.rows.skip(1), r, brow);
    assert(prod.rows.skip(1) =~= crate::table::rows_cross(pa.rows.skip(1), b.rows.skip(1)));
    if !a.rows.contains(r + brow) {
        // then it survives the subtraction of `a` and reaches `pm`
        lemma_rows_minus_iff(prod.rows.skip(1), a.rows, r + brow);
        assert(m.rows.skip(1) =~= crate::table::rows_minus(prod.rows.skip(1), a.rows));
        assert(m.rows.skip(1).contains(r + brow));
        lemma_contains_skip1(m.rows, r + brow);
        crate::table::lemma_wf_multiply(pa, b);
        crate::table::lemma_wf_minus(prod, a);
        assert(m.rows[0] == prod.rows[0]);
        assert(crate::table::excl_cols(m.rows[0], bh) == attrs);
        let stepped_m = project_steps(m, attrs, m.rows[0]);
        assert(m.rows[0].skip(0) =~= m.rows[0]);
        lemma_steps_excl(m, m.rows[0], bh);
        let jm = choose|j: int| 0 <= j < m.rows.len() && m.rows[j] == r + brow;
        assert(stepped_m.rows[jm] == m.rows[jm].take(0) + excl_vals(
            m.rows[jm].skip(0),
            m.rows[0],
            bh,
        ));
        assert((r + brow).skip(0) =~= r + brow);
        assert((r + brow).take(0) =~= Seq::<Seq<char>>::empty());
        assert forall|mm: int| 0 <= mm < attrs.len() implies !bh.contains(
            #[trigger] attrs[mm],
        ) by {
            assert(attrs.contains(attrs[mm]));
            lemma_excl_cols_member(a.rows[0], bh, attrs[mm]);
        }
        assert(forall|mm: int| 0 <= mm < bh.len() ==> bh.contains(#[trigger] bh[mm]));
        lemma_excl_vals_blocks(r, brow, attrs, bh, bh);
        assert(Seq::<Seq<char>>::empty() + excl_vals(r + brow, attrs + bh, bh) =~= r);
        assert(stepped_m.rows[jm] == r);
        assert(stepped_m.rows.contains(r));
        assert forall|x: Seq<Seq<char>>| #[trigger] pm.rows.contains(x)
            == stepped_m.rows.contains(x) by {
            lemma_add_unique_contains(Seq::empty(), stepped_m.rows, x);
        }
        assert(pm.rows.contains(r));
        assert(false);
    }
}

// ---------------------------------------------------------------------------
// The vacuous join
// ---------------------------------------------------------------------------
/// A condition that compares a string literal with itself for equality:
/// the literal-text `true` predicate.
pub open spec fn always_true_cond(s: Seq<char>) -> CondV {
    CondV::Binary {
        left: Box::new(CondV::Literal(TokenV::String(s))),
        operator: TokenV::Equals,
        right: Box::new(CondV::Literal(TokenV::String(s))),
    }
}

/// Under a condition that holds of every row, selection keeps every row.
proof fn lemma_rows_select_all(header: Seq<Seq<char>>, data: Seq<Seq<Seq<char>>>, c: CondV)
    requires
        forall|row: Seq<Seq<char>>| #[trigger] spec_row_keep(c, header, row) == Ok::<
            bool,
            EvalErrorV,
        >(true),
    ensures
        rows_select(header, data, c) == Ok::<Seq<Seq<Seq<char>>>, EvalErrorV>(data),
    decreases data.len(),
{
    if data.len() == 0 {
        assert(data =~= Seq::<Seq<Seq<char>>>::empty());
    } else {
        lemma_rows_select_all(header, data.skip(1), c);
        assert(seq![data[0]] + data.skip(1) =~= data);
    }
}

/// Join identity: joining under a vacuous predicate — a string literal
/// compared equal to itself — is exactly the Cartesian product.
pub proof fn lemma_join_vacuous(a: TableV, b: TableV, s: Seq<char>)
    requires
        a.rows.len() >= 1,
        b.rows.len() >= 1,
    ensures
        spec_join(a, always_true_cond(s), b) == Ok::<TableV, EvalErrorV>(spec_multiply(a, b)),
{
    let c = always_true_cond(s);
    let prod = spec_multiply(a, b);
    assert forall|row: Seq<Seq<char>>| #[trigger] spec_row_keep(c, prod.rows[0], row) == Ok::<
        bool,
        EvalErrorV,
    >(true) by {
        let lit = CondV::Literal(TokenV::String(s));
        assert(spec_eval(lit, prod.rows[0], row) == Ok::<Seq<char>, EvalErrorV>(s));
        assert(spec_eval(c, prod.rows[0], row) == Ok::<Seq<char>, EvalErrorV>(true_chars()));
        assert(spec_parse_bool(true_chars()) == Some(true));
    }
    lemma_rows_select_all(prod.rows[0], prod.rows.skip(1), c);
    assert(seq![prod.rows[0]] + prod.rows.skip(1) =~= prod.rows);
    assert(spec_select(prod, c) == Ok::<TableV, EvalErrorV>(
        TableV { rows: seq![prod.rows[0]] + prod.rows.skip(1), types: prod.types },
    ));
    assert(TableV { rows: seq![prod.rows[0]] + prod.rows.skip(1), types: prod.types } =~= prod);
}

} // verus!

