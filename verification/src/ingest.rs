use vstd::prelude::*;
use vstd::string::StringExecFns;
use crate::tokenizer::Token;
use crate::tokenizer::TokenV;
use crate::errors::IngestError;
use crate::errors::IngestErrorV;
use crate::table::Table;
use crate::table::TableV;
use crate::table::table_wf;
use crate::strings::string_eq_lit;

verus! {

// ---------------------------------------------------------------------------
// Collecting the cell tokens of a table literal
// ---------------------------------------------------------------------------
/// The index of the first `{` at or after `i`; the length when there is
/// none.
pub open spec fn skip_to_open(ts: Seq<TokenV>, i: int) -> int
    decreases ts.len() - i,
{
    if !(0 <= i < ts.len()) {
        ts.len() as int
    } else if ts[i] is OpenCurly {
        i
    } else {
        skip_to_open(ts, i + 1)
    }
}

/// Walks the cell tokens from index `i`: a `}` ends the table; commas, the
/// end-of-line sentinels and further `{` are skipped; a literal joins the
/// current row, and the row closes when the next token is not a comma.  A
/// literal as the very last token, or any other token, fails.  Running out
/// of tokens keeps the rows closed so far.
pub open spec fn proc_rows(
    ts: Seq<TokenV>,
    i: int,
    row: Seq<TokenV>,
    acc: Seq<Seq<TokenV>>,
) -> Result<Seq<Seq<TokenV>>, IngestErrorV>
    decreases ts.len() - i,
{
    if !(0 <= i < ts.len()) {
        Ok(acc)
    } else {
        match ts[i] {
            TokenV::CloseCurly => Ok(acc),
            TokenV::Comma => proc_rows(ts, i + 1, row, acc),
            TokenV::EOF => proc_rows(ts, i + 1, row, acc),
            TokenV::OpenCurly => proc_rows(ts, i + 1, row, acc),
            TokenV::Symbol(_) => proc_cell(ts, i, row, acc),
            TokenV::Number(_) => proc_cell(ts, i, row, acc),
            TokenV::String(_) => proc_cell(ts, i, row, acc),
            t => Err(IngestErrorV::UnexpectedTableToken(t)),
        }
    }
}

/// One literal cell at `i`: it joins the row, and the row closes unless a
/// comma follows.
pub open spec fn proc_cell(
    ts: Seq<TokenV>,
    i: int,
    row: Seq<TokenV>,
    acc: Seq<Seq<TokenV>>,
) -> Result<Seq<Seq<TokenV>>, IngestErrorV>
    decreases ts.len() - i, 0int,
{
    if !(0 <= i < ts.len()) {
        Err(IngestErrorV::UnexpectedEnd)
    } else {
        let row2 = row.push(ts[i]);
        if i + 1 >= ts.len() {
            Err(IngestErrorV::UnexpectedEnd)
        } else if ts[i + 1] is Comma {
            proc_rows(ts, i + 1, row2, acc)
        } else {
            proc_rows(ts, i + 1, Seq::empty(), acc.push(row2))
        }
    }
}

/// What collecting the cell tokens of a table literal yields: the token
/// rows between the braces of the flattened input lines, or the first
/// failure.
pub open spec fn spec_process(tokenss: Seq<Seq<TokenV>>) -> Result<Seq<Seq<TokenV>>, IngestErrorV> {
    let flat = tokenss.flatten();
    proc_rows(flat, skip_to_open(flat, 0), Seq::empty(), Seq::empty())
}

/// Collects the cell tokens of a table literal from the given lines of
/// tokens: everything between the first `{` and the first `}` is grouped
/// into rows, a row ending at each literal not followed by a comma.
pub fn process_table_tokens(tokens: Vec<Vec<Token>>) -> (r: Result<Vec<Vec<Token>>, IngestError>)
    ensures
        match r {
            Ok(rows) => spec_process(tokens.deep_view()) == Ok::<Seq<Seq<TokenV>>, IngestErrorV>(
                rows.deep_view(),
            ),
            Err(e) => spec_process(tokens.deep_view()) == Err::<Seq<Seq<TokenV>>, IngestErrorV>(
                e@,
            ),
        },
{
    let ghost dv = tokens.deep_view();
    // flatten the lines into one token sequence
    let mut flat: Vec<Token> = Vec::new();
    proof {
        assert(flat.deep_view() =~= Seq::<TokenV>::empty());
        assert(dv.skip(0) =~= dv);
        assert(Seq::<TokenV>::empty() + dv.flatten() =~= dv.flatten());
    }
    let mut li: usize = 0;
    while li < tokens.len()
        invariant
            li <= tokens.len(),
            dv == tokens.deep_view(),
            dv.flatten() == flat.deep_view() + dv.skip(li as int).flatten(),
        decreases tokens.len() - li,
    {
        let ghost cur = dv.skip(li as int);
        proof {
            assert(cur[0] == tokens@[li as int].deep_view());
            assert(cur.skip(1) =~= dv.skip(li as int + 1));
            assert(cur.drop_first() =~= cur.skip(1));
            assert(cur.first() == cur[0]);
            assert(cur[0].skip(0) =~= cur[0]);
        }
        let line = &tokens[li];
        let mut ti: usize = 0;
        while ti < line.len()
            invariant
                ti <= line.len(),
                cur[0] == line.deep_view(),
                dv.flatten() == flat.deep_view() + cur[0].skip(ti as int) + cur.skip(1).flatten(),
            decreases line.len() - ti,
        {
            let ghost rest = cur[0].skip(ti as int);
            let ghost pre = flat.deep_view();
            proof {
                assert(rest[0] == line@[ti as int]@);
                assert(rest.skip(1) =~= cur[0].skip(ti as int + 1));
            }
            let t = line[ti].dup();
            flat.push(t);
            proof {
                assert(flat.deep_view() =~= pre.push(rest[0]));
                assert(pre + rest + cur.skip(1).flatten() =~= pre.push(rest[0]) + rest.skip(1)
                    + cur.skip(1).flatten());
            }
            ti = ti + 1;
        }
        proof {
            assert(cur[0].skip(line@.len() as int) =~= Seq::<TokenV>::empty());
            assert(flat.deep_view() + Seq::<TokenV>::empty() + cur.skip(1).flatten()
                =~= flat.deep_view() + cur.skip(1).flatten());
        }
        li = li + 1;
    }
    proof {
        assert(dv.skip(dv.len() as int) =~= Seq::<Seq<TokenV>>::empty());
        assert(flat.deep_view() + Seq::<Seq<TokenV>>::empty().flatten() =~= flat.deep_view());
    }
    let ghost fdv = flat.deep_view();
    // skip everything before the first opening brace
    let mut i: usize = 0;
    loop
        invariant
            i <= flat.len(),
            fdv == flat.deep_view(),
            skip_to_open(fdv, 0) == skip_to_open(fdv, i as int),
        ensures
            i <= flat.len(),
            fdv == flat.deep_view(),
            skip_to_open(fdv, 0) == i as int,
        decreases flat.len() - i,
    {
        if i >= flat.len() {
            proof {
                assert(skip_to_open(fdv, i as int) == fdv.len());
            }
            break ;
        }
        proof {
            assert(fdv[i as int] == flat@[i as int]@);
        }
        let is_open = match &flat[i] {
            Token::OpenCurly => true,
            _ => false,
        };
        if is_open {
            break ;
        }
        i = i + 1;
    }
    // group the cell tokens into rows
    let mut result: Vec<Vec<Token>> = Vec::new();
    let mut row: Vec<Token> = Vec::new();
    proof {
        assert(result.deep_view() =~= Seq::<Seq<TokenV>>::empty());
        assert(row.deep_view() =~= Seq::<TokenV>::empty());
    }
    while i < flat.len()
        invariant
            i <= flat.len(),
            fdv == flat.deep_view(),
            dv == tokens.deep_view(),
            fdv == dv.flatten(),
            proc_rows(fdv, skip_to_open(fdv, 0), Seq::empty(), Seq::empty()) == proc_rows(
                fdv,
                i as int,
                row.deep_view(),
                result.deep_view(),
            ),
        decreases flat.len() - i,
    {
        proof {
            assert(fdv[i as int] == flat@[i as int]@);
        }
        let kind: u8 = match &flat[i] {
            Token::CloseCurly => 1,
            Token::Comma => 2,
            Token::EOF => 2,
            Token::OpenCurly => 2,
            Token::Symbol(_) => 3,
            Token::Number(_) => 3,
            Token::String(_) => 3,
            _ => 0,
        };
        if kind == 1 {
            return Ok(result);
        }
        if kind == 3 {
            let ghost rowpre = row.deep_view();
            let ghost respre = result.deep_view();
            proof {
                assert(proc_rows(fdv, i as int, rowpre, respre) == proc_cell(
                    fdv,
                    i as int,
                    rowpre,
                    respre,
                ));
            }
            let t = flat[i].dup();
            row.push(t);
            proof {
                assert(row.deep_view() =~= rowpre.push(fdv[i as int]));
            }
            if i + 1 >= flat.len() {
                proof {
                    assert(proc_cell(fdv, i as int, rowpre, respre) == Err::<
                        Seq<Seq<TokenV>>,
                        IngestErrorV,
                    >(IngestErrorV::UnexpectedEnd));
                }
                return Err(IngestError::UnexpectedEnd);
            }
            proof {
                assert(fdv[i as int + 1] == flat@[i as int + 1]@);
            }
            let comma_next = match &flat[i + 1] {
                Token::Comma => true,
                _ => false,
            };
            if !comma_next {
                let done = row;
                row = Vec::new();
                result.push(done);
                proof {
                    assert(result.deep_view() =~= respre.push(rowpre.push(fdv[i as int])));
                    assert(row.deep_view() =~= Seq::<TokenV>::empty());
                    assert(proc_cell(fdv, i as int, rowpre, respre) == proc_rows(
                        fdv,
                        i as int + 1,
                        row.deep_view(),
                        result.deep_view(),
                    ));
                }
            } else {
                proof {
                    assert(proc_cell(fdv, i as int, rowpre, respre) == proc_rows(
                        fdv,
                        i as int + 1,
                        row.deep_view(),
                        result.deep_view(),
                    ));
                }
            }
        } else if kind == 0 {
            let t = flat[i].dup();
            return Err(IngestError::UnexpectedTableToken(t));
        }
        i = i + 1;
    }
    Ok(result)
}

// ---------------------------------------------------------------------------
// Building a table from its cell tokens
// ---------------------------------------------------------------------------
/// The type tag one cell of the first data row fixes for its column.
pub open spec fn type_tag(t: TokenV) -> Result<Seq<char>, IngestErrorV> {
    match t {
        TokenV::Number(_) => Ok("Integer"@),
        TokenV::String(_) => Ok("String"@),
        t => Err(IngestErrorV::UnknownColumnType(t)),
    }
}

/// The column types fixed by the first data row, from position `i` on.
pub open spec fn build_types(row: Seq<TokenV>, i: int) -> Result<Seq<Seq<char>>, IngestErrorV>
    decreases row.len() - i,
{
    if !(0 <= i < row.len()) {
        Ok(Seq::empty())
    } else {
        match type_tag(row[i]) {
            Err(e) => Err(e),
            Ok(tag) => match build_types(row, i + 1) {
                Err(e) => Err(e),
                Ok(rest) => Ok(seq![tag] + rest),
            },
        }
    }
}

/// One cell's value: a symbol is itself; a number or string must sit in a
/// column of its type.
pub open spec fn cell_value(t: TokenV, types: Seq<Seq<char>>, i: int) -> Result<
    Seq<char>,
    IngestErrorV,
> {
    match t {
        TokenV::Symbol(s) => Ok(s),
        TokenV::Number(s) => if 0 <= i < types.len() && types[i] == "Integer"@ {
            Ok(s)
        } else {
            Err(IngestErrorV::NumberInStringColumn)
        },
        TokenV::String(s) => if 0 <= i < types.len() && types[i] == "String"@ {
            Ok(s)
        } else {
            Err(IngestErrorV::StringInIntegerColumn)
        },
        t => Err(IngestErrorV::BadCellToken(t)),
    }
}

/// One row's values, from position `i` on.
pub open spec fn build_row(row: Seq<TokenV>, types: Seq<Seq<char>>, i: int) -> Result<
    Seq<Seq<char>>,
    IngestErrorV,
>
    decreases row.len() - i,
{
    if !(0 <= i < row.len()) {
        Ok(Seq::empty())
    } else {
        match cell_value(row[i], types, i) {
            Err(e) => Err(e),
            Ok(v) => match build_row(row, types, i + 1) {
                Err(e) => Err(e),
                Ok(rest) => Ok(seq![v] + rest),
            },
        }
    }
}

/// All rows from position `k` on: each must have the header's width, then
/// its cells convert in order.
pub open spec fn build_rows(
    rows: Seq<Seq<TokenV>>,
    types: Seq<Seq<char>>,
    width: int,
    k: int,
) -> Result<Seq<Seq<Seq<char>>>, IngestErrorV>
    decreases rows.len() - k,
{
    if !(0 <= k < rows.len()) {
        Ok(Seq::empty())
    } else if rows[k].len() != width {
        Err(IngestErrorV::WidthMismatch)
    } else {
        match build_row(rows[k], types, 0) {
            Err(e) => Err(e),
            Ok(v) => match build_rows(rows, types, width, k + 1) {
                Err(e) => Err(e),
                Ok(rest) => Ok(seq![v] + rest),
            },
        }
    }
}

/// What building a table from its cell token rows yields: the column types
/// are fixed by the first data row, every row must have the header's
/// width, and each cell must match its column's type.
pub open spec fn spec_build_table(tokenss: Seq<Seq<TokenV>>) -> Result<TableV, IngestErrorV> {
    if tokenss.len() < 2 {
        Err(IngestErrorV::TooFewRows)
    } else {
        match build_types(tokenss[1], 0) {
            Err(e) => Err(e),
            Ok(types) => match build_rows(tokenss, types, tokenss[0].len() as int, 0) {
                Err(e) => Err(e),
                Ok(rows) => Ok(TableV { rows, types }),
            },
        }
    }
}

/// The types a successful first data row fixes: one per cell.
proof fn lemma_build_types_len(row: Seq<TokenV>, i: int)
    requires
        0 <= i <= row.len(),
        build_types(row, i) matches Ok(ts),
    ensures
        build_types(row, i) matches Ok(ts) ==> ts.len() == row.len() - i,
    decreases row.len() - i,
{
    if i < row.len() {
        match type_tag(row[i]) {
            Err(_) => {},
            Ok(_) => {
                lemma_build_types_len(row, i + 1);
            },
        }
    }
}

/// A successfully built row keeps its width.
proof fn lemma_build_row_len(row: Seq<TokenV>, types: Seq<Seq<char>>, i: int)
    requires
        0 <= i <= row.len(),
        build_row(row, types, i) matches Ok(vs),
    ensures
        build_row(row, types, i) matches Ok(vs) ==> vs.len() == row.len() - i,
    decreases row.len() - i,
{
    if i < row.len() {
        match cell_value(row[i], types, i) {
            Err(_) => {},
            Ok(_) => {
                lemma_build_row_len(row, types, i + 1);
            },
        }
    }
}

/// Successfully built rows are one per token row, each of the header's
/// width.
proof fn lemma_build_rows_props(rows: Seq<Seq<TokenV>>, types: Seq<Seq<char>>, width: int, k: int)
    requires
        0 <= k <= rows.len(),
        build_rows(rows, types, width, k) matches Ok(vs),
    ensures
        build_rows(rows, types, width, k) matches Ok(vs) ==> vs.len() == rows.len() - k && forall|
            j: int,
        |
            0 <= j < vs.len() ==> #[trigger] vs[j].len() == width,
        build_rows(rows, types, width, k) matches Ok(vs) ==> forall|j: int|
            k <= j < rows.len() ==> #[trigger] rows[j].len() == width,
    decreases rows.len() - k,
{
    if k < rows.len() {
        if rows[k].len() == width {
            match build_row(rows[k], types, 0) {
                Err(_) => {},
                Ok(v) => {
                    lemma_build_row_len(rows[k], types, 0);
                    match build_rows(rows, types, width, k + 1) {
                        Err(_) => {},
                        Ok(rest) => {
                            lemma_build_rows_props(rows, types, width, k + 1);
                            let vs = build_rows(rows, types, width, k)->Ok_0;
                            assert forall|j: int| 0 <= j < vs.len() implies #[trigger] vs[j].len()
                                == width by {
                                if j > 0 {
                                    assert(vs[j] == rest[j - 1]);
                                }
                            }
                        },
                    }
                },
            }
        }
    }
}

/// Builds a table from the cell token rows of a table literal: the column
/// types come from the first data row (a number fixes `Integer`, a quoted
/// string fixes `String`), every row must have the header's width, and
/// every number or string cell must sit in a column of its type.  The
/// resulting table is well-formed.
pub fn build_table(tokens: Vec<Vec<Token>>) -> (r: Result<Table, IngestError>)
    ensures
        match r {
            Ok(t) => spec_build_table(tokens.deep_view()) == Ok::<TableV, IngestErrorV>(t@)
                && t.wf(),
            Err(e) => spec_build_table(tokens.deep_view()) == Err::<TableV, IngestErrorV>(e@),
        },
{
    let ghost dv = tokens.deep_view();
    if tokens.len() < 2 {
        return Err(IngestError::TooFewRows);
    }
    proof {
        assert(dv[1] == tokens@[1].deep_view());
    }
    // the column types, fixed by the first data row
    let mut types: Vec<String> = Vec::new();
    proof {
        assert(types.deep_view() =~= Seq::<Seq<char>>::empty());
        assert(Seq::<Seq<char>>::empty() + build_types(dv[1], 0)->Ok_0 =~= build_types(
            dv[1],
            0,
        )->Ok_0);
    }
    let tlen = tokens[1].len();
    let mut i: usize = 0;
    while i < tlen
        invariant
            i <= tlen,
            tlen == dv[1].len(),
            1 < dv.len(),
            dv == tokens.deep_view(),
            dv[1] == tokens@[1].deep_view(),
            build_types(dv[1], 0) == match build_types(dv[1], i as int) {
                Err(e) => Err(e),
                Ok(rest) => Ok(types.deep_view() + rest),
            },
        decreases tlen - i,
    {
        let ghost pre = types.deep_view();
        proof {
            assert(dv[1][i as int] == tokens@[1]@[i as int]@);
        }
        let tag: u8 = match &tokens[1][i] {
            Token::Number(_) => 1,
            Token::String(_) => 2,
            _ => 0,
        };
        if tag == 0 {
            return Err(IngestError::UnknownColumnType(tokens[1][i].dup()));
        }
        let name = if tag == 1 {
            String::from_str("Integer")
        } else {
            String::from_str("String")
        };
        let ghost namedv = name@;
        types.push(name);
        proof {
            assert(types.deep_view() =~= pre.push(namedv));
            match build_types(dv[1], i as int + 1) {
                Err(_) => {},
                Ok(rest) => {
                    assert(pre + (seq![namedv] + rest) =~= pre.push(namedv) + rest);
                },
            }
        }
        i = i + 1;
    }
    proof {
        assert(types.deep_view() + Seq::<Seq<char>>::empty() =~= types.deep_view());
    }
    let ghost typesdv = types.deep_view();
    // the rows, checked for width and column types
    let width = tokens[0].len();
    proof {
        assert(dv[0] == tokens@[0].deep_view());
    }
    let mut rows: Vec<Vec<String>> = Vec::new();
    proof {
        assert(rows.deep_view() =~= Seq::<Seq<Seq<char>>>::empty());
        match build_rows(dv, typesdv, width as int, 0) {
            Err(_) => {},
            Ok(all) => {
                assert(Seq::<Seq<Seq<char>>>::empty() + all =~= all);
            },
        }
    }
    let mut k: usize = 0;
    while k < tokens.len()
        invariant
            k <= tokens.len(),
            dv == tokens.deep_view(),
            typesdv == types.deep_view(),
            width == dv[0].len(),
            1 < dv.len(),
            build_types(dv[1], 0) == Ok::<Seq<Seq<char>>, IngestErrorV>(typesdv),
            build_rows(dv, typesdv, width as int, 0) == match build_rows(
                dv,
                typesdv,
                width as int,
                k as int,
            ) {
                Err(e) => Err(e),
                Ok(rest) => Ok(rows.deep_view() + rest),
            },
        decreases tokens.len() - k,
    {
        proof {
            assert(dv[k as int] == tokens@[k as int].deep_view());
        }
        if tokens[k].len() != width {
            return Err(IngestError::WidthMismatch);
        }
        let line = &tokens[k];
        let ghost linedv = dv[k as int];
        let mut new_row: Vec<String> = Vec::new();
        proof {
            assert(new_row.deep_view() =~= Seq::<Seq<char>>::empty());
            match build_row(linedv, typesdv, 0) {
                Err(_) => {},
                Ok(all) => {
                    assert(Seq::<Seq<char>>::empty() + all =~= all);
                },
            }
        }
        let mut ci: usize = 0;
        while ci < line.len()
            invariant
                ci <= line.len(),
                linedv == line.deep_view(),
                typesdv == types.deep_view(),
                dv == tokens.deep_view(),
                width == dv[0].len(),
                1 < dv.len(),
                0 <= k < dv.len(),
                linedv == dv[k as int],
                linedv.len() == width,
                build_types(dv[1], 0) == Ok::<Seq<Seq<char>>, IngestErrorV>(typesdv),
                build_rows(dv, typesdv, width as int, 0) == match build_rows(
                    dv,
                    typesdv,
                    width as int,
                    k as int,
                ) {
                    Err(e) => Err(e),
                    Ok(rest) => Ok(rows.deep_view() + rest),
                },
                build_row(linedv, typesdv, 0) == match build_row(linedv, typesdv, ci as int) {
                    Err(e) => Err(e),
                    Ok(rest) => Ok(new_row.deep_view() + rest),
                },
            decreases line.len() - ci,
        {
            let ghost rowpre = new_row.deep_view();
            proof {
                assert(linedv[ci as int] == line@[ci as int]@);
            }
            let cell: String = match &line[ci] {
                Token::Symbol(s) => s.clone(),
                Token::Number(s) => {
                    let ok = if ci < types.len() {
                        string_eq_lit(&types[ci], "Integer")
                    } else {
                        false
                    };
                    if !ok {
                        return Err(IngestError::NumberInStringColumn);
                    }
                    proof {
                        assert(typesdv[ci as int] == types@[ci as int]@);
                    }
                    s.clone()
                },
                Token::String(s) => {
                    let ok = if ci < types.len() {
                        string_eq_lit(&types[ci], "String")
                    } else {
                        false
                    };
                    if !ok {
                        return Err(IngestError::StringInIntegerColumn);
                    }
                    proof {
                        assert(typesdv[ci as int] == types@[ci as int]@);
                    }
                    s.clone()
                },
                t => {
                    return Err(IngestError::BadCellToken(t.dup()));
                },
            };
            let ghost celldv = cell@;
            proof {
                assert(typesdv.len() == types@.len());
                if ci < types.len() {
                    assert(typesdv[ci as int] == types@[ci as int]@);
                }
                assert(cell_value(linedv[ci as int], typesdv, ci as int) == Ok::<
                    Seq<char>,
                    IngestErrorV,
                >(celldv));
            }
            new_row.push(cell);
            proof {
                assert(new_row.deep_view() =~= rowpre.push(celldv));
                match build_row(linedv, typesdv, ci as int + 1) {
                    Err(_) => {},
                    Ok(rest) => {
                        assert(rowpre + (seq![celldv] + rest) =~= rowpre.push(celldv) + rest);
                    },
                }
            }
            ci = ci + 1;
        }
        proof {
            assert(new_row.deep_view() + Seq::<Seq<char>>::empty() =~= new_row.deep_view());
        }
        let ghost rowspre = rows.deep_view();
        let ghost newrowdv = new_row.deep_view();
        rows.push(new_row);
        proof {
            assert(rows.deep_view() =~= rowspre.push(newrowdv));
            match build_rows(dv, typesdv, width as int, k as int + 1) {
                Err(_) => {},
                Ok(rest) => {
                    assert(rowspre + (seq![newrowdv] + rest) =~= rowspre.push(newrowdv) + rest);
                },
            }
        }
        k = k + 1;
    }
    proof {
        assert(rows.deep_view() + Seq::<Seq<Seq<char>>>::empty() =~= rows.deep_view());
    }
    let t = Table { rows, types };
    proof {
        assert(t@ =~= spec_build_table(dv)->Ok_0);
        lemma_build_rows_props(dv, typesdv, width as int, 0);
        lemma_build_types_len(dv[1], 0);
        assert(table_wf(t@));
    }
    Ok(t)
}

} // verus!
