//! Window functions: ROW_NUMBER, RANK, DENSE_RANK, LAG and LEAD over the
//! partitions of a list of rows, each partition in ORDER BY order.

use vstd::prelude::*;
use crate::catalog::column::{Column, first_column_named};
use crate::catalog::error::DatabaseError;
use crate::catalog::row::Row;
use crate::catalog::value::display_of;
use crate::executor::conditions::{unknown_column, unknown_column_message};
use crate::executor::explain::{first_where, lemma_first_where_found};
use crate::executor::queries::{
    QueryExecutor, SortOrder, deref_rows, first_occurrences, fits, group_keys, lemma_first_occurrences_contains,
    lemma_first_occurrences_distinct, lemma_insert_stable_at, lemma_positions_of_in_range, lemma_positions_of_len,
    lemma_positions_prefix, lemma_sorted_order_in_range, law_sorted_order_is_permutation, positions_of, row_cells, row_keys,
    sorted_order,
};
use crate::executor::system_catalogs::grid;
use crate::text::{chars_less, chars_lt, chars_of, decimal, fmt_usize, string_views};

verus! {

/// A window function.
#[derive(Debug)]
pub enum WindowFunction {
    RowNumber,
    Rank,
    DenseRank,
    /// LAG(column, offset): the value `offset` rows earlier (1 when not given).
    Lag(String, Option<i64>),
    /// LEAD(column, offset): the value `offset` rows later (1 when not given).
    Lead(String, Option<i64>),
}

/// OVER (PARTITION BY ... ORDER BY ...).
#[derive(Debug)]
pub struct WindowSpec {
    pub partition_by: Vec<String>,
    pub order_by: Vec<(String, SortOrder)>,
}

/// Whether, by the ORDER BY keys from position `i` on, key `a` goes after
/// key `b`: the first differing text decides, in its column's direction.
pub open spec fn key_after_from(a: Seq<Seq<char>>, b: Seq<Seq<char>>, dirs: Seq<SortOrder>, i: nat) -> bool
    decreases dirs.len() - i,
{
    if i >= dirs.len() {
        false
    } else if a[i as int] == b[i as int] {
        key_after_from(a, b, dirs, i + 1)
    } else {
        match dirs[i as int] {
            SortOrder::Asc => chars_less(b[i as int], a[i as int]),
            SortOrder::Desc => chars_less(a[i as int], b[i as int]),
        }
    }
}

/// The ORDER BY "goes after" on rendered keys.
pub open spec fn key_after(dirs: Seq<SortOrder>) -> spec_fn(Seq<Seq<char>>, Seq<Seq<char>>) -> bool {
    |a: Seq<Seq<char>>, b: Seq<Seq<char>>| key_after_from(a, b, dirs, 0)
}

/// The positions below `n` whose key is `k`, in order.
pub open spec fn partition_of(keys: Seq<Seq<Seq<char>>>, k: Seq<Seq<char>>, n: nat) -> Seq<usize>
    decreases n,
{
    if n == 0 {
        Seq::empty()
    } else {
        partition_of(keys, k, (n - 1) as nat) + if keys[n - 1] == k { seq![(n - 1) as usize] } else { Seq::empty() }
    }
}

/// The positions of the partition of row `p`, in ORDER BY order (stable).
pub open spec fn ordered_partition(pkeys: Seq<Seq<Seq<char>>>, okeys: Seq<Seq<Seq<char>>>, dirs: Seq<SortOrder>, p: int) -> Seq<usize> {
    let part = partition_of(pkeys, pkeys[p], pkeys.len());
    sorted_order(part.map_values(|q: usize| okeys[q as int]), key_after(dirs), part.len()).map_values(|i: usize| part[i as int])
}

/// RANK at position `r` of ordered keys: ties share the rank of their first.
pub open spec fn rank_at(keys: Seq<Seq<Seq<char>>>, r: int) -> int
    decreases r,
{
    if r <= 0 {
        1
    } else if keys[r - 1] == keys[r] {
        rank_at(keys, r - 1)
    } else {
        r + 1
    }
}

/// DENSE_RANK at position `r` of ordered keys: one more for each new key.
pub open spec fn dense_rank_at(keys: Seq<Seq<Seq<char>>>, r: int) -> int
    decreases r,
{
    if r <= 0 {
        1
    } else if keys[r - 1] == keys[r] {
        dense_rank_at(keys, r - 1)
    } else {
        dense_rank_at(keys, r - 1) + 1
    }
}

/// The offset of LAG or LEAD: 1 when not given, never below 0.
pub open spec fn lag_offset(o: Option<i64>) -> int {
    match o {
        Some(x) => if x < 0 { 0 } else { x as int },
        None => 1,
    }
}

/// The value of the window function at position `r` of an ordered partition
/// `order` (row positions), given the rendered values `cells` of the LAG or
/// LEAD column and the rendered ORDER BY keys.
pub open spec fn window_value(f: WindowFunction, order: Seq<usize>, okeys: Seq<Seq<Seq<char>>>, cells: Seq<Seq<char>>, r: int) -> Seq<char> {
    let ks = order.map_values(|q: usize| okeys[q as int]);
    match f {
        WindowFunction::RowNumber => decimal((r + 1) as nat),
        WindowFunction::Rank => decimal(rank_at(ks, r) as nat),
        WindowFunction::DenseRank => decimal(dense_rank_at(ks, r) as nat),
        WindowFunction::Lag(_, o) => if r < lag_offset(o) { "NULL"@ } else { cells[order[r - lag_offset(o)] as int] },
        WindowFunction::Lead(_, o) => if r + lag_offset(o) >= order.len() { "NULL"@ } else { cells[order[r + lag_offset(o)] as int] },
    }
}

/// LAG and LEAD read a fixed distance away in the ordered partition: with
/// offset `n` (1 when none is given), LEAD at place `r` is the value at place
/// `r + n`, LAG the value at place `r - n`, and NULL where that place lies
/// outside the partition. So LEAD(c) is LEAD(c, 1) and LAG(c) is LAG(c, 1).
pub proof fn law_lag_lead_offsets(c: String, o: Option<i64>, order: Seq<usize>, okeys: Seq<Seq<Seq<char>>>,
    cells: Seq<Seq<char>>, r: int)
    requires
        o matches Some(x) ==> x >= 0,
    ensures
        ({
            let n: int = match o { Some(x) => x as int, None => 1 };
            &&& window_value(WindowFunction::Lead(c, o), order, okeys, cells, r)
                == if r + n < order.len() { cells[order[r + n] as int] } else { "NULL"@ }
            &&& window_value(WindowFunction::Lag(c, o), order, okeys, cells, r)
                == if r - n >= 0 { cells[order[r - n] as int] } else { "NULL"@ }
        }),
        window_value(WindowFunction::Lead(c, None), order, okeys, cells, r)
            == window_value(WindowFunction::Lead(c, Some(1)), order, okeys, cells, r),
        window_value(WindowFunction::Lag(c, None), order, okeys, cells, r)
            == window_value(WindowFunction::Lag(c, Some(1)), order, okeys, cells, r),
{
}

/// The rendered values of column `ci` of the rows.
pub open spec fn column_cells(rows: Seq<Row>, ci: int) -> Seq<Seq<char>> {
    rows.map_values(|row: Row| display_of(row.values@[ci]))
}

/// The column LAG or LEAD reads.
pub open spec fn lag_column(f: WindowFunction) -> Option<Seq<char>> {
    match f {
        WindowFunction::Lag(c, _) => Some(c@),
        WindowFunction::Lead(c, _) => Some(c@),
        _ => None,
    }
}

/// The names of the ORDER BY columns.
pub open spec fn order_names(order_by: Seq<(String, SortOrder)>) -> Seq<Seq<char>> {
    order_by.map_values(|o: (String, SortOrder)| o.0@)
}

/// The directions of the ORDER BY columns.
pub open spec fn order_dirs(order_by: Seq<(String, SortOrder)>) -> Seq<SortOrder> {
    order_by.map_values(|o: (String, SortOrder)| o.1)
}

/// Row `p`'s value is the function's value at its place in its ordered partition.
pub open spec fn placed_at(f: WindowFunction, rows: Seq<Row>, pp: Seq<usize>, op: Seq<usize>, dirs: Seq<SortOrder>, ci: int,
    v: Seq<String>, p: int) -> bool {
    let okeys = row_keys(rows, op);
    let order = ordered_partition(row_keys(rows, pp), okeys, dirs, p);
    exists|k: int| 0 <= k < order.len() && order[k] == p as usize
        && v[p]@ == window_value(f, order, okeys, column_cells(rows, ci), k)
}

/// Every row's value is the function's value at its place in its ordered partition.
pub open spec fn all_placed(f: WindowFunction, rows: Seq<Row>, pp: Seq<usize>, op: Seq<usize>, dirs: Seq<SortOrder>, ci: int,
    v: Seq<String>) -> bool {
    forall|p: int| 0 <= p < rows.len() ==> #[trigger] placed_at(f, rows, pp, op, dirs, ci, v, p)
}

/// What a window function gives for a list of rows: nothing for no rows;
/// else an unknown PARTITION BY column, ORDER BY column, or LAG/LEAD column
/// (in that order) is refused; else, for each row, the function's value at
/// its place in its ordered partition.
pub open spec fn window_result(f: WindowFunction, spec: WindowSpec, rows: Seq<Row>, cols: Seq<Column>,
    r: Result<Vec<String>, DatabaseError>) -> bool {
    if rows.len() == 0 {
        r matches Ok(v) && v@.len() == 0
    } else {
        match positions_of(cols, string_views(spec.partition_by@)) {
            Err(n) => r matches Err(DatabaseError::ParseError(m)) && m@ == unknown_column_message(n),
            Ok(pp) => match positions_of(cols, order_names(spec.order_by@)) {
                Err(n) => r matches Err(DatabaseError::ParseError(m)) && m@ == unknown_column_message(n),
                Ok(op) => {
                    let lag = match lag_column(f) {
                        None => Some(0int),
                        Some(c) => match first_column_named(cols, c) {
                            None => None,
                            Some(ci) => Some(ci),
                        },
                    };
                    match lag {
                        None => r matches Err(DatabaseError::ParseError(m)) && m@ == unknown_column_message(lag_column(f).unwrap()),
                        Some(ci) => r matches Ok(v) && v@.len() == rows.len()
                            && all_placed(f, rows, pp, op, order_dirs(spec.order_by@), ci, v@),
                    }
                },
            },
        }
    }
}

/// Runs window functions.
pub struct WindowFunctionExecutor;

impl WindowFunctionExecutor {
    /// The positions of the named columns; the first unknown name is refused.
    fn column_positions(columns: &Vec<Column>, names: &Vec<&String>) -> (r: Result<Vec<usize>, DatabaseError>)
        ensures
            match positions_of(columns@, names@.map_values(|n: &String| n@)) {
                Err(n) => r matches Err(DatabaseError::ParseError(m)) && m@ == unknown_column_message(n),
                Ok(p) => r matches Ok(v) && v@ == p,
            },
            r matches Ok(v) ==> forall|q: int| 0 <= q < v@.len() ==> (#[trigger] v@[q]) < columns@.len(),
    {
        let ghost cols = columns@;
        let ghost nv = names@.map_values(|n: &String| n@);
        proof {
            lemma_positions_of_in_range(cols, nv);
        }
        let mut out: Vec<usize> = Vec::new();
        let mut k: usize = 0;
        assert(nv.take(0) =~= Seq::<Seq<char>>::empty());
        while k < names.len()
            invariant
                k <= names@.len(),
                cols == columns@,
                nv == names@.map_values(|n: &String| n@),
                positions_of(cols, nv.take(k as int)) == Ok::<Seq<usize>, Seq<char>>(out@),
            decreases names@.len() - k,
        {
            assert(nv.take(k as int + 1).drop_last() =~= nv.take(k as int));
            assert(nv.take(k as int + 1).last() == names@[k as int]@);
            match crate::catalog::column::find_column(columns, names[k].as_str()) {
                Some(ci) => {
                    out.push(ci);
                },
                None => {
                    proof {
                        lemma_positions_prefix(cols, nv, k as int + 1, nv.len() as int);
                        assert(nv.take(nv.len() as int) =~= nv);
                    }
                    return Err(unknown_column(names[k].as_str()));
                },
            }
            k = k + 1;
        }
        assert(nv.take(nv.len() as int) =~= nv);
        proof {
            let pp = positions_of(cols, nv)->Ok_0;
            assert(pp == out@);
            assert(forall|q: int| 0 <= q < pp.len() ==> (#[trigger] pp[q]) < cols.len());
        }
        Ok(out)
    }

    /// Whether key `a` goes after key `b` (see `key_after_from`).
    fn goes_after_key(a: &Vec<String>, b: &Vec<String>, dirs: &Vec<SortOrder>) -> (r: bool)
        requires
            a@.len() == dirs@.len(),
            b@.len() == dirs@.len(),
        ensures
            r == key_after_from(string_views(a@), string_views(b@), dirs@, 0),
    {
        let ghost av = string_views(a@);
        let ghost bv = string_views(b@);
        let mut i: usize = 0;
        while i < dirs.len()
            invariant
                i <= dirs@.len(),
                a@.len() == dirs@.len(),
                b@.len() == dirs@.len(),
                av == string_views(a@),
                bv == string_views(b@),
                key_after_from(av, bv, dirs@, 0) == key_after_from(av, bv, dirs@, i as nat),
            decreases dirs@.len() - i,
        {
            let xs = chars_of(a[i].as_str());
            let ys = chars_of(b[i].as_str());
            assert(xs@ == av[i as int] && ys@ == bv[i as int]);
            if !crate::text::chars_equal(&xs, &ys) {
                return match dirs[i] {
                    SortOrder::Asc => chars_lt(&ys, &xs),
                    SortOrder::Desc => chars_lt(&xs, &ys),
                };
            }
            i = i + 1;
        }
        false
    }

    /// The positions `0..keys.len()` in the stable ORDER BY order of their keys.
    fn sort_key_positions(keys: &Vec<Vec<String>>, dirs: &Vec<SortOrder>) -> (r: Vec<usize>)
        requires
            forall|q: int| 0 <= q < keys@.len() ==> (#[trigger] keys@[q])@.len() == dirs@.len(),
        ensures
            r@ == sorted_order(grid(keys@), key_after(dirs@), keys@.len() as nat),
    {
        let ghost ks = grid(keys@);
        let ghost after = key_after(dirs@);
        let mut out: Vec<usize> = Vec::new();
        let mut x: usize = 0;
        while x < keys.len()
            invariant
                x <= keys@.len(),
                ks == grid(keys@),
                after == key_after(dirs@),
                forall|q: int| 0 <= q < keys@.len() ==> (#[trigger] keys@[q])@.len() == dirs@.len(),
                out@ == sorted_order(ks, after, x as nat),
                forall|m: int| 0 <= m < out@.len() ==> (#[trigger] out@[m]) < x,
            decreases keys@.len() - x,
        {
            let mut j: usize = out.len();
            let mut moving = true;
            while moving
                invariant
                    x < keys@.len(),
                    ks == grid(keys@),
                    after == key_after(dirs@),
                    forall|q: int| 0 <= q < keys@.len() ==> (#[trigger] keys@[q])@.len() == dirs@.len(),
                    j <= out@.len(),
                    forall|m: int| 0 <= m < out@.len() ==> (#[trigger] out@[m]) < x,
                    forall|m: int| j <= m < out@.len() ==> after(ks[#[trigger] out@[m] as int], ks[x as int]),
                    !moving ==> (j == 0 || !after(ks[out@[j - 1] as int], ks[x as int])),
                decreases j + if moving { 1int } else { 0int },
            {
                if j > 0 && Self::goes_after_key(&keys[out[j - 1]], &keys[x], dirs) {
                    j = j - 1;
                } else {
                    moving = false;
                }
            }
            proof {
                lemma_insert_stable_at(out@, x, ks, after, j as int);
            }
            let ghost before = out@;
            out.insert(j, x);
            assert forall|m: int| 0 <= m < out@.len() implies (#[trigger] out@[m]) < x + 1 by {
                if m < j {
                    assert(out@[m] == before[m]);
                } else if m > j {
                    assert(out@[m] == before[m - 1]);
                }
            }
            x = x + 1;
        }
        out
    }
}

impl WindowFunctionExecutor {
    /// The value of the window function at place `r` of the ordered partition `order`.
    fn value_at(function: &WindowFunction, order: &Vec<usize>, okeys: &Vec<Vec<String>>, cells: &Vec<String>, r: usize,
        rank: usize, dense: usize) -> (s: String)
        requires
            r < order@.len(),
            forall|m: int| 0 <= m < order@.len() ==> (#[trigger] order@[m]) < okeys@.len() && order@[m] < cells@.len(),
            rank == rank_at(order@.map_values(|q: usize| grid(okeys@)[q as int]), r as int),
            dense == dense_rank_at(order@.map_values(|q: usize| grid(okeys@)[q as int]), r as int),
        ensures
            s@ == window_value(*function, order@, grid(okeys@), string_views(cells@), r as int),
    {
        match function {
            WindowFunction::RowNumber => {
                let n = order.len();
                assert(r < n);
                fmt_usize(r + 1)
            },
            WindowFunction::Rank => fmt_usize(rank),
            WindowFunction::DenseRank => fmt_usize(dense),
            WindowFunction::Lag(_, o) => {
                let off: u128 = match o {
                    Some(x) => if *x < 0 { 0 } else { *x as u128 },
                    None => 1,
                };
                if (r as u128) < off {
                    "NULL".to_owned()
                } else {
                    let back = (r as u128 - off) as usize;
                    cells[order[back]].clone()
                }
            },
            WindowFunction::Lead(_, o) => {
                let off: u128 = match o {
                    Some(x) => if *x < 0 { 0 } else { *x as u128 },
                    None => 1,
                };
                if (r as u128) + off >= order.len() as u128 {
                    "NULL".to_owned()
                } else {
                    let ahead = ((r as u128) + off) as usize;
                    cells[order[ahead]].clone()
                }
            },
        }
    }
}

/// What a window function's result says of row `p`: its value at its place in
/// its ordered partition.
pub open spec fn placed_value(f: WindowFunction, pkeys: Seq<Seq<Seq<char>>>, okeys: Seq<Seq<Seq<char>>>, dirs: Seq<SortOrder>,
    cells: Seq<Seq<char>>, p: int, v: Seq<char>) -> bool {
    let order = ordered_partition(pkeys, okeys, dirs, p);
    exists|k: int| 0 <= k < order.len() && order[k] == p as usize && v == window_value(f, order, okeys, cells, k)
}

/// The positions below `n` with key `k` are increasing, and are exactly those positions.
pub proof fn lemma_partition_of(keys: Seq<Seq<Seq<char>>>, k: Seq<Seq<char>>, n: nat)
    requires
        n <= usize::MAX,
    ensures
        forall|a: int, b: int| 0 <= a < b < partition_of(keys, k, n).len() ==> partition_of(keys, k, n)[a] < partition_of(keys, k, n)[b],
        forall|a: int| 0 <= a < partition_of(keys, k, n).len() ==> (#[trigger] partition_of(keys, k, n)[a]) < n
            && keys[partition_of(keys, k, n)[a] as int] == k,
        forall|p: usize| (p as int) < n && keys[p as int] == k ==> #[trigger] partition_of(keys, k, n).contains(p),
    decreases n,
{
    if n > 0 {
        let m = (n - 1) as nat;
        lemma_partition_of(keys, k, m);
        let q = partition_of(keys, k, m);
        let t = partition_of(keys, k, n);
        assert forall|p: usize| (p as int) < n && keys[p as int] == k implies #[trigger] t.contains(p) by {
            if (p as int) < m {
                assert(q.contains(p));
                let w = choose|w: int| 0 <= w < q.len() && q[w] == p;
                assert(t[w] == p);
            } else {
                assert(t[q.len() as int] == p);
            }
        }
    }
}

impl WindowFunctionExecutor {
    /// Computes the window function for the rows of partition `j`.
    fn process_partition(function: &WindowFunction, group_of: &Vec<usize>, j: usize, okeys: &Vec<Vec<String>>,
        cells: &Vec<String>, dirs: &Vec<SortOrder>, results: &mut Vec<String>, pkeys: Ghost<Seq<Seq<Seq<char>>>>,
        gk: Ghost<Seq<Seq<Seq<char>>>>)
        requires
            group_of@.len() == pkeys@.len(),
            okeys@.len() == pkeys@.len(),
            cells@.len() == pkeys@.len(),
            old(results)@.len() == pkeys@.len(),
            j < gk@.len(),
            forall|a: int, b: int| 0 <= a < b < gk@.len() ==> gk@[a] != gk@[b],
            forall|p: int| 0 <= p < group_of@.len() ==> (#[trigger] group_of@[p]) < gk@.len() && gk@[group_of@[p] as int] == pkeys@[p],
            forall|q: int| 0 <= q < okeys@.len() ==> (#[trigger] okeys@[q])@.len() == dirs@.len(),
        ensures
            final(results)@.len() == old(results)@.len(),
            forall|p: int| 0 <= p < group_of@.len() && group_of@[p] != j ==> (#[trigger] final(results)@[p]) == old(results)@[p],
            forall|p: int| 0 <= p < group_of@.len() && group_of@[p] == j ==> placed_value(*function, pkeys@, grid(okeys@), dirs@,
                string_views(cells@), p, (#[trigger] final(results)@[p])@),
    {
        let ghost n = pkeys@.len();
        let ghost key = gk@[j as int];
        let ghost ok = grid(okeys@);
        // The positions of the partition, in order.
        let mut part: Vec<usize> = Vec::new();
        let mut m: usize = 0;
        while m < group_of.len()
            invariant
                m <= n,
                n == pkeys@.len(),
                group_of@.len() == n,
                key == gk@[j as int],
                j < gk@.len(),
                forall|a: int, b: int| 0 <= a < b < gk@.len() ==> gk@[a] != gk@[b],
                forall|p: int| 0 <= p < group_of@.len() ==> (#[trigger] group_of@[p]) < gk@.len() && gk@[group_of@[p] as int] == pkeys@[p],
                part@ == partition_of(pkeys@, key, m as nat),
            decreases n - m,
        {
            proof {
                let g = group_of@[m as int] as int;
                if pkeys@[m as int] == key && g != j {
                    if g < j {
                        assert(gk@[g] != gk@[j as int]);
                    } else {
                        assert(gk@[j as int] != gk@[g]);
                    }
                }
            }
            if group_of[m] == j {
                part.push(m);
            }
            m = m + 1;
        }
        proof {
            lemma_partition_of(pkeys@, key, n);
        }
        // Their ORDER BY keys, and their order.
        let mut keys: Vec<Vec<String>> = Vec::new();
        let mut q: usize = 0;
        while q < part.len()
            invariant
                q <= part@.len(),
                part@ == partition_of(pkeys@, key, n),
                forall|a: int| 0 <= a < part@.len() ==> (#[trigger] part@[a]) < n,
                okeys@.len() == n,
                ok == grid(okeys@),
                forall|z: int| 0 <= z < okeys@.len() ==> (#[trigger] okeys@[z])@.len() == dirs@.len(),
                grid(keys@) == part@.map_values(|p: usize| ok[p as int]).take(q as int),
                forall|z: int| 0 <= z < keys@.len() ==> (#[trigger] keys@[z])@.len() == dirs@.len(),
            decreases part@.len() - q,
        {
            let copy = QueryExecutor::copy_row(&okeys[part[q]]);
            let ghost before = grid(keys@);
            let ghost kb = keys@;
            keys.push(copy);
            assert(grid(keys@) =~= before.push(string_views(copy@)));
            assert(grid(keys@) =~= part@.map_values(|p: usize| ok[p as int]).take(q as int + 1));
            assert forall|z: int| 0 <= z < keys@.len() implies (#[trigger] keys@[z])@.len() == dirs@.len() by {
                if z < kb.len() {
                    assert(keys@[z] == kb[z]);
                } else {
                    assert(string_views(copy@).len() == copy@.len());
                    assert(string_views(okeys@[part@[q as int] as int]@).len() == okeys@[part@[q as int] as int]@.len());
                }
            }
            q = q + 1;
        }
        let ghost pk = part@.map_values(|p: usize| ok[p as int]);
        assert(pk.take(part@.len() as int) =~= pk);
        let idx = Self::sort_key_positions(&keys, dirs);
        proof {
            law_sorted_order_is_permutation(pk, key_after(dirs@), pk.len());
            lemma_sorted_order_in_range(pk, key_after(dirs@), pk.len());
        }
        let mut order: Vec<usize> = Vec::new();
        let mut q: usize = 0;
        while q < idx.len()
            invariant
                q <= idx@.len(),
                idx@ == sorted_order(pk, key_after(dirs@), pk.len()),
                idx@.len() == pk.len(),
                pk.len() == part@.len(),
                forall|a: int| 0 <= a < idx@.len() ==> (#[trigger] idx@[a]) < part@.len(),
                order@ == idx@.map_values(|i: usize| part@[i as int]).take(q as int),
            decreases idx@.len() - q,
        {
            order.push(part[idx[q]]);
            assert(order@ =~= idx@.map_values(|i: usize| part@[i as int]).take(q as int + 1));
            q = q + 1;
        }
        assert(idx@.map_values(|i: usize| part@[i as int]).take(idx@.len() as int) =~= idx@.map_values(|i: usize| part@[i as int]));
        let ghost ordv = order@;
        assert forall|a: int, b: int| 0 <= a < b < ordv.len() implies ordv[a] != ordv[b] by {
            assert(idx@[a] != idx@[b]);
            if part@[idx@[a] as int] == part@[idx@[b] as int] {
                let x = idx@[a] as int;
                let y = idx@[b] as int;
                if x < y {
                    assert(part@[x] < part@[y]);
                } else {
                    assert(part@[y] < part@[x]);
                }
            }
        }
        // The values, written at each row's position.
        let ghost before_results = results@;
        let mut rank: usize = 1;
        let mut dense: usize = 1;
        let mut r: usize = 0;
        while r < order.len()
            invariant
                r <= ordv.len(),
                order@ == ordv,
                ordv == idx@.map_values(|i: usize| part@[i as int]),
                forall|a: int, b: int| 0 <= a < b < ordv.len() ==> ordv[a] != ordv[b],
                forall|a: int| 0 <= a < ordv.len() ==> (#[trigger] ordv[a]) < n && group_of@[ordv[a] as int] == j,
                results@.len() == n,
                okeys@.len() == n,
                cells@.len() == n,
                group_of@.len() == n,
                ok == grid(okeys@),
                r == 0 ==> rank == 1 && dense == 1,
                r > 0 ==> rank == rank_at(ordv.map_values(|z: usize| ok[z as int]), r - 1)
                    && dense == dense_rank_at(ordv.map_values(|z: usize| ok[z as int]), r - 1),
                r > 0 ==> rank <= r && dense <= r,
                forall|p: int| 0 <= p < n && group_of@[p] != j ==> results@[p] == before_results[p],
                forall|a: int| 0 <= a < r ==> (#[trigger] results@[ordv[a] as int])@
                    == window_value(*function, ordv, ok, string_views(cells@), a),
            decreases ordv.len() - r,
        {
            let ghost ks = ordv.map_values(|z: usize| ok[z as int]);
            let len = order.len();
            assert(r < len);
            if r > 0 {
                let same = QueryExecutor::rows_equal(&okeys[order[r - 1]], &okeys[order[r]]);
                assert(same == (ks[r - 1] == ks[r as int]));
                if !same {
                    rank = r + 1;
                    dense = dense + 1;
                }
            }
            assert(rank == rank_at(ks, r as int));
            assert(dense == dense_rank_at(ks, r as int));
            let v = Self::value_at(function, &order, okeys, cells, r, rank, dense);
            let ghost prior = results@;
            results.set(order[r], v);
            assert forall|a: int| 0 <= a < r + 1 implies (#[trigger] results@[ordv[a] as int])@
                == window_value(*function, ordv, ok, string_views(cells@), a) by {
                if a < r {
                    assert(ordv[a] != ordv[r as int]);
                    assert(results@[ordv[a] as int] == prior[ordv[a] as int]);
                }
            }
            r = r + 1;
        }
        // Every row of the partition got its value.
        assert forall|p: int| 0 <= p < group_of@.len() && group_of@[p] == j implies placed_value(*function, pkeys@, ok, dirs@,
            string_views(cells@), p, (#[trigger] results@[p])@) by {
            assert(gk@[group_of@[p] as int] == pkeys@[p]);
            assert(pkeys@[p] == key);
            assert(part@.contains(p as usize));
            let i = choose|i: int| 0 <= i < part@.len() && part@[i] == p as usize;
            assert(idx@.contains(i as usize));
            let k = choose|k: int| 0 <= k < idx@.len() && idx@[k] == i as usize;
            assert(ordv[k] == p as usize);
            assert(ordered_partition(pkeys@, ok, dirs@, p) == ordv);
            assert(results@[ordv[k] as int]@ == window_value(*function, ordv, ok, string_views(cells@), k));
        }
    }
}

/// The cells of the LAG or LEAD column do not matter to the other functions.
pub proof fn lemma_window_value_cells(f: WindowFunction, order: Seq<usize>, okeys: Seq<Seq<Seq<char>>>, c1: Seq<Seq<char>>,
    c2: Seq<Seq<char>>, k: int)
    requires
        lag_column(f) is None,
    ensures
        window_value(f, order, okeys, c1, k) == window_value(f, order, okeys, c2, k),
{
}

impl WindowFunctionExecutor {
    /// Runs a window function over `rows`, whose values follow `table_columns`
    /// (see `window_result`): one value per row, in the rows' order.
    pub fn execute(function: &WindowFunction, spec: &WindowSpec, rows: &Vec<&Row>, table_columns: &Vec<Column>)
        -> (r: Result<Vec<String>, DatabaseError>)
        requires
            forall|p: int| 0 <= p < rows@.len() ==> fits(table_columns@, (#[trigger] rows@[p]).values@),
        ensures
            window_result(*function, *spec, deref_rows(rows@), table_columns@, r),
    {
        if rows.len() == 0 {
            return Ok(Vec::new());
        }
        let ghost cols = table_columns@;
        let ghost rs = deref_rows(rows@);
        // PARTITION BY and ORDER BY columns.
        let mut pnames: Vec<&String> = Vec::new();
        let mut k: usize = 0;
        while k < spec.partition_by.len()
            invariant
                k <= spec.partition_by@.len(),
                pnames@.map_values(|n: &String| n@) == string_views(spec.partition_by@).take(k as int),
            decreases spec.partition_by@.len() - k,
        {
            let ghost before = pnames@;
            pnames.push(&spec.partition_by[k]);
            assert(pnames@.map_values(|n: &String| n@) =~= before.map_values(|n: &String| n@).push(spec.partition_by@[k as int]@));
            assert(pnames@.map_values(|n: &String| n@) =~= string_views(spec.partition_by@).take(k as int + 1));
            k = k + 1;
        }
        assert(string_views(spec.partition_by@).take(spec.partition_by@.len() as int) =~= string_views(spec.partition_by@));
        let pp = match Self::column_positions(table_columns, &pnames) {
            Ok(p) => p,
            Err(e) => return Err(e),
        };
        let mut onames: Vec<&String> = Vec::new();
        let mut dirs: Vec<SortOrder> = Vec::new();
        let mut k: usize = 0;
        while k < spec.order_by.len()
            invariant
                k <= spec.order_by@.len(),
                onames@.map_values(|n: &String| n@) == order_names(spec.order_by@).take(k as int),
                dirs@ == order_dirs(spec.order_by@).take(k as int),
            decreases spec.order_by@.len() - k,
        {
            let ghost before = onames@;
            onames.push(&spec.order_by[k].0);
            dirs.push(spec.order_by[k].1);
            assert(onames@.map_values(|n: &String| n@) =~= before.map_values(|n: &String| n@).push(spec.order_by@[k as int].0@));
            assert(onames@.map_values(|n: &String| n@) =~= order_names(spec.order_by@).take(k as int + 1));
            assert(dirs@ =~= order_dirs(spec.order_by@).take(k as int + 1));
            k = k + 1;
        }
        assert(order_names(spec.order_by@).take(spec.order_by@.len() as int) =~= order_names(spec.order_by@));
        assert(order_dirs(spec.order_by@).take(spec.order_by@.len() as int) =~= order_dirs(spec.order_by@));
        let op = match Self::column_positions(table_columns, &onames) {
            Ok(p) => p,
            Err(e) => return Err(e),
        };
        proof {
            lemma_positions_of_len(cols, order_names(spec.order_by@));
        }
        // The LAG or LEAD column.
        let lag_col: Option<&String> = match function {
            WindowFunction::Lag(c, _) => Some(c),
            WindowFunction::Lead(c, _) => Some(c),
            _ => None,
        };
        let ci: usize = match lag_col {
            Some(c) => match crate::catalog::column::find_column(table_columns, c.as_str()) {
                Some(i) => i,
                None => return Err(unknown_column(c.as_str())),
            },
            None => 0,
        };
        // Partitions, ORDER BY keys and the cells LAG and LEAD read.
        assert forall|m: int| 0 <= m < rows@.len() implies forall|q: int| 0 <= q < pp@.len()
            ==> (#[trigger] pp@[q]) < (#[trigger] rows@[m]).values@.len() by {
            assert(fits(cols, rows@[m].values@));
        }
        let (gkeys, group_of) = QueryExecutor::assign_groups(rows, &pp);
        let ghost pkeys = row_keys(rs, pp@);
        proof {
            lemma_first_occurrences_distinct(pkeys);
        }
        let mut okeys: Vec<Vec<String>> = Vec::new();
        let mut cells: Vec<String> = Vec::new();
        let mut results: Vec<String> = Vec::new();
        let ghost spec_cells = column_cells(rs, ci as int);
        let mut m: usize = 0;
        while m < rows.len()
            invariant
                m <= rows@.len(),
                rs == deref_rows(rows@),
                forall|p: int| 0 <= p < rows@.len() ==> fits(cols, (#[trigger] rows@[p]).values@),
                cols == table_columns@,
                forall|q: int| 0 <= q < op@.len() ==> (#[trigger] op@[q]) < cols.len(),
                op@.len() == dirs@.len(),
                lag_col is Some ==> ci < cols.len(),
                spec_cells == column_cells(rs, ci as int),
                grid(okeys@) == row_keys(rs, op@).take(m as int),
                forall|z: int| 0 <= z < okeys@.len() ==> (#[trigger] okeys@[z])@.len() == dirs@.len(),
                cells@.len() == m,
                lag_col is Some ==> string_views(cells@) == spec_cells.take(m as int),
                results@.len() == m,
            decreases rows@.len() - m,
        {
            let row = rows[m];
            assert(fits(cols, row.values@));
            let key = QueryExecutor::render_at(row, &op);
            let ghost kb = okeys@;
            let ghost before = grid(okeys@);
            okeys.push(key);
            assert(grid(okeys@) =~= before.push(string_views(key@)));
            assert(grid(okeys@) =~= row_keys(rs, op@).take(m as int + 1));
            assert forall|z: int| 0 <= z < okeys@.len() implies (#[trigger] okeys@[z])@.len() == dirs@.len() by {
                if z < kb.len() {
                    assert(okeys@[z] == kb[z]);
                } else {
                    assert(string_views(key@).len() == key@.len());
                }
            }
            let cell = match lag_col {
                Some(_) => row.values[ci].to_display_string(),
                None => String::new(),
            };
            let ghost cb = string_views(cells@);
            cells.push(cell);
            assert(string_views(cells@) =~= cb.push(cell@));
            assert(lag_col is Some ==> string_views(cells@) =~= spec_cells.take(m as int + 1));
            results.push(String::new());
            m = m + 1;
        }
        assert(row_keys(rs, op@).take(rows@.len() as int) =~= row_keys(rs, op@));
        assert(lag_col is Some ==> spec_cells.take(rows@.len() as int) =~= spec_cells);
        // Each partition in turn.
        let ghost gk = grid(gkeys@);
        let mut j: usize = 0;
        while j < gkeys.len()
            invariant
                j <= gkeys@.len(),
                gk == grid(gkeys@),
                gk == first_occurrences(pkeys),
                pkeys == row_keys(rs, pp@),
                group_of@.len() == rows@.len(),
                pkeys.len() == rows@.len(),
                okeys@.len() == rows@.len(),
                cells@.len() == rows@.len(),
                results@.len() == rows@.len(),
                forall|a: int, b: int| 0 <= a < b < gk.len() ==> gk[a] != gk[b],
                forall|p: int| 0 <= p < group_of@.len() ==> (#[trigger] group_of@[p]) < gk.len() && gk[group_of@[p] as int] == pkeys[p],
                forall|z: int| 0 <= z < okeys@.len() ==> (#[trigger] okeys@[z])@.len() == dirs@.len(),
                grid(okeys@) == row_keys(rs, op@),
                rs == deref_rows(rows@),
                lag_col is Some ==> string_views(cells@) == spec_cells,
                dirs@ == order_dirs(spec.order_by@),
                forall|p: int| 0 <= p < group_of@.len() && group_of@[p] < j ==> placed_value(*function, pkeys, grid(okeys@), dirs@,
                    string_views(cells@), p, (#[trigger] results@[p])@),
            decreases gkeys@.len() - j,
        {
            let ghost prior = results@;
            Self::process_partition(function, &group_of, j, &okeys, &cells, &dirs, &mut results, Ghost(pkeys), Ghost(gk));
            assert forall|p: int| 0 <= p < group_of@.len() && group_of@[p] < j + 1 implies placed_value(*function, pkeys, grid(okeys@),
                dirs@, string_views(cells@), p, (#[trigger] results@[p])@) by {
                if group_of@[p] < j {
                    assert(results@[p] == prior[p]);
                }
            }
            j = j + 1;
        }
        // The result, row by row.
        proof {
            let ok = grid(okeys@);
            let cl = column_cells(rs, ci as int);
            assert forall|p: int| 0 <= p < rs.len() implies #[trigger] placed_at(*function, rs, pp@, op@, dirs@, ci as int, results@, p) by {
                assert(group_of@[p] < gk.len());
                assert(placed_value(*function, pkeys, ok, dirs@, string_views(cells@), p, results@[p]@));
                let order = ordered_partition(pkeys, ok, dirs@, p);
                let k = choose|k: int| 0 <= k < order.len() && order[k] == p as usize
                    && results@[p]@ == window_value(*function, order, ok, string_views(cells@), k);
                if lag_col is None {
                    lemma_window_value_cells(*function, order, ok, string_views(cells@), cl, k);
                } else {
                    assert(string_views(cells@) == cl);
                }
                assert(order == ordered_partition(row_keys(rs, pp@), row_keys(rs, op@), dirs@, p));
                assert(results@[p]@ == window_value(*function, order, row_keys(rs, op@), column_cells(rs, ci as int), k));
            }
            match lag_column(*function) {
                None => {},
                Some(c) => {
                    assert(first_column_named(cols, c) == Some(ci as int));
                },
            }
            assert(positions_of(cols, string_views(spec.partition_by@)) == Ok::<Seq<usize>, Seq<char>>(pp@));
            assert(positions_of(cols, order_names(spec.order_by@)) == Ok::<Seq<usize>, Seq<char>>(op@));
            assert(all_placed(*function, rs, pp@, op@, dirs@, ci as int, results@));
        }
        Ok(results)
    }
}

} // verus!
