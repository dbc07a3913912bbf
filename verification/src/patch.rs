//! The key patcher: brings the indexed `C` matrix and its value table up to
//! the randomised witness slots without indexing the circuit again. Matrix
//! and table are always renewed together.

use crate::domain::{ceil_power_of_two, domain_ifft, domain_size, ifft_coefficients, max_domain_size};
use crate::error::Failure;
use crate::field::{field_sum, values, Fr};
use crate::poly::{normalize, normalized};
use crate::poso::SLOTS_PER_UNIT;
use std::collections::BTreeMap;
use vstd::prelude::*;

verus! {

broadcast use {vstd::laws_cmp::group_laws_cmp, vstd::std_specs::btree::group_btree_axioms};

/// The rows of a sparse matrix: each entry is a coefficient and the column
/// it stands in.
pub open spec fn rows(c: Seq<Vec<(Fr, usize)>>) -> Seq<Seq<(Fr, usize)>> {
    Seq::new(c.len(), |i: int| c[i]@)
}

/// Whether entry `j` of row `i` belongs to a randomised slot.
pub open spec fn is_affected(i: int, j: int, poso_size: nat) -> bool {
    0 <= i < poso_size && 0 <= j < SLOTS_PER_UNIT
}

/// `new` is `old` with the randomness of slot `j` of unit `i` added to entry
/// `j` of row `i`, and every other entry as it was.
pub open spec fn is_patch_of(
    old_rows: Seq<Seq<(Fr, usize)>>,
    new_rows: Seq<Seq<(Fr, usize)>>,
    poso_size: nat,
    rand: Seq<u16>,
) -> bool {
    &&& new_rows.len() == old_rows.len()
    &&& forall|i: int|
        0 <= i < old_rows.len() ==> (#[trigger] new_rows[i]).len() == old_rows[i].len()
    &&& forall|i: int, j: int|
        0 <= i < old_rows.len() && 0 <= j < old_rows[i].len() ==> {
            let before = old_rows[i][j];
            let after = #[trigger] new_rows[i][j];
            &&& after.1 == before.1
            &&& if is_affected(i, j, poso_size) {
                after.0.value() == field_sum(
                    before.0.value(),
                    rand[i * SLOTS_PER_UNIT + j] as nat,
                )
            } else {
                after.0 == before.0
            }
        }
}

/// Whether the matrix has a row for every unit, each with an entry for
/// every slot, and the randomness a value for each.
pub open spec fn fits_patch(c: Seq<Seq<(Fr, usize)>>, poso_size: nat, rand: Seq<u16>) -> bool {
    &&& rand.len() == poso_size * SLOTS_PER_UNIT as nat
    &&& poso_size <= c.len()
    &&& forall|i: int| 0 <= i < poso_size ==> (#[trigger] c[i]).len() >= SLOTS_PER_UNIT
}

fn patch_row(row: &Vec<(Fr, usize)>, unit: usize, poso_rand: &Vec<u16>) -> (out: Vec<(Fr, usize)>)
    requires
        row@.len() >= SLOTS_PER_UNIT,
        unit * SLOTS_PER_UNIT + SLOTS_PER_UNIT <= poso_rand.len(),
    ensures
        out@.len() == row@.len(),
        forall|j: int|
            0 <= j < row@.len() ==> {
                let before = row@[j];
                let after = #[trigger] out@[j];
                &&& after.1 == before.1
                &&& if j < SLOTS_PER_UNIT {
                    after.0.value() == field_sum(
                        before.0.value(),
                        poso_rand@[unit * SLOTS_PER_UNIT + j] as nat,
                    )
                } else {
                    after.0 == before.0
                }
            },
{
    let base = unit * SLOTS_PER_UNIT;
    let mut out: Vec<(Fr, usize)> = Vec::new();
    let mut j: usize = 0;
    while j < row.len()
        invariant
            j <= row@.len(),
            base == unit * SLOTS_PER_UNIT,
            base + SLOTS_PER_UNIT <= poso_rand.len(),
            out@.len() == j,
            forall|t: int|
                0 <= t < j ==> {
                    let before = row@[t];
                    let after = #[trigger] out@[t];
                    &&& after.1 == before.1
                    &&& if t < SLOTS_PER_UNIT {
                        after.0.value() == field_sum(
                            before.0.value(),
                            poso_rand@[unit * SLOTS_PER_UNIT + t] as nat,
                        )
                    } else {
                        after.0 == before.0
                    }
                },
        decreases row@.len() - j,
    {
        let (coefficient, column) = row[j];
        let patched = if j < SLOTS_PER_UNIT {
            let raise = Fr::from_u64(poso_rand[base + j] as u64);
            coefficient.plus(&raise)
        } else {
            coefficient
        };
        out.push((patched, column));
        j += 1;
    }
    out
}

fn copy_row(row: &Vec<(Fr, usize)>) -> (out: Vec<(Fr, usize)>)
    ensures
        out@ == row@,
{
    let mut out: Vec<(Fr, usize)> = Vec::new();
    let mut j: usize = 0;
    while j < row.len()
        invariant
            j <= row@.len(),
            out@ == row@.subrange(0, j as int),
        decreases row@.len() - j,
    {
        out.push(row[j]);
        j += 1;
        assert(out@ =~= row@.subrange(0, j as int));
    }
    assert(row@.subrange(0, j as int) =~= row@);
    out
}

/// The matrix with the randomness added at the randomised slots. Refused,
/// with nothing computed, where matrix and randomness do not fit.
pub fn patch_matrix(c: &Vec<Vec<(Fr, usize)>>, poso_size: usize, poso_rand: &Vec<u16>) -> (r:
    Result<Vec<Vec<(Fr, usize)>>, Failure>)
    ensures
        r.is_ok() <==> fits_patch(rows(c@), poso_size as nat, poso_rand@),
        r.is_ok() ==> is_patch_of(rows(c@), rows(r.unwrap()@), poso_size as nat, poso_rand@),
        r.is_err() ==> r.unwrap_err() == Failure::MismatchedLengths,
{
    let n = poso_rand.len();
    if n / SLOTS_PER_UNIT != poso_size || n % SLOTS_PER_UNIT != 0 || poso_size > c.len() {
        return Err(Failure::MismatchedLengths);
    }
    assert(n == poso_size * SLOTS_PER_UNIT);
    let mut i: usize = 0;
    while i < poso_size
        invariant
            i <= poso_size <= c@.len(),
            forall|t: int| 0 <= t < i ==> (#[trigger] rows(c@)[t]).len() >= SLOTS_PER_UNIT,
        decreases poso_size - i,
    {
        if c[i].len() < SLOTS_PER_UNIT {
            assert(rows(c@)[i as int].len() < SLOTS_PER_UNIT);
            return Err(Failure::MismatchedLengths);
        }
        i += 1;
    }
    let mut out: Vec<Vec<(Fr, usize)>> = Vec::new();
    let mut i: usize = 0;
    while i < c.len()
        invariant
            i <= c@.len(),
            n == poso_rand@.len(),
            n == poso_size * SLOTS_PER_UNIT,
            poso_size <= c@.len(),
            fits_patch(rows(c@), poso_size as nat, poso_rand@),
            out@.len() == i,
            is_patch_of(
                rows(c@).subrange(0, i as int),
                rows(out@),
                poso_size as nat,
                poso_rand@,
            ),
        decreases c@.len() - i,
    {
        let ghost before = rows(out@);
        let row = if i < poso_size {
            assert(rows(c@)[i as int].len() >= SLOTS_PER_UNIT);
            assert(i * SLOTS_PER_UNIT + SLOTS_PER_UNIT <= n) by (nonlinear_arith)
                requires
                    i < poso_size,
                    n == poso_size * SLOTS_PER_UNIT,
            ;
            patch_row(&c[i], i, poso_rand)
        } else {
            copy_row(&c[i])
        };
        out.push(row);
        proof {
            let old_rows = rows(c@).subrange(0, i + 1);
            let new_rows = rows(out@);
            assert forall|a: int| 0 <= a < old_rows.len() implies (#[trigger] new_rows[a]).len()
                == old_rows[a].len() by {
                if a < i {
                    assert(new_rows[a] == before[a]);
                }
            }
            assert forall|a: int, b: int|
                0 <= a < old_rows.len() && 0 <= b < old_rows[a].len() implies {
                let first = old_rows[a][b];
                let then = #[trigger] new_rows[a][b];
                &&& then.1 == first.1
                &&& if is_affected(a, b, poso_size as nat) {
                    then.0.value() == field_sum(
                        first.0.value(),
                        poso_rand@[a * SLOTS_PER_UNIT + b] as nat,
                    )
                } else {
                    then.0 == first.0
                }
            } by {
                if a < i {
                    assert(new_rows[a] == before[a]);
                    assert(before[a][b] == new_rows[a][b]);
                }
            }
        }
        i += 1;
    }
    assert(rows(c@).subrange(0, i as int) =~= rows(c@));
    Ok(out)
}

/// The coefficient of the last entry of the row that stands in column
/// `column`: what a map keyed by column holds once the row was put into it
/// entry by entry.
pub open spec fn last_with_column(row: Seq<(Fr, usize)>, column: usize) -> Option<Fr>
    decreases row.len(),
{
    if row.len() == 0 {
        None
    } else if row.last().1 == column {
        Some(row.last().0)
    } else {
        last_with_column(row.drop_last(), column)
    }
}

/// What the table holds for one stored entry: the coefficient found under
/// the entry's row and column, zero if there is none.
pub open spec fn looked_up(row: Seq<(Fr, usize)>, column: usize) -> Fr {
    match last_with_column(row, column) {
        Some(v) => v,
        None => Fr::zero_element(),
    }
}

/// The table's part for one row, an element per stored entry.
pub open spec fn row_values(row: Seq<(Fr, usize)>) -> Seq<Fr> {
    Seq::new(row.len(), |e: int| looked_up(row, row[e].1))
}

/// The dense value table of a sparse matrix: row after row, in matrix order.
pub open spec fn value_table(c: Seq<Seq<(Fr, usize)>>) -> Seq<Fr>
    decreases c.len(),
{
    if c.len() == 0 {
        Seq::empty()
    } else {
        value_table(c.drop_last()) + row_values(c.last())
    }
}

/// A row whose columns are all different is its own table.
pub proof fn lemma_row_values_of_distinct_columns(row: Seq<(Fr, usize)>)
    requires
        forall|a: int, b: int| 0 <= a < b < row.len() ==> row[a].1 != row[b].1,
    ensures
        row_values(row) == Seq::new(row.len(), |e: int| row[e].0),
{
    assert forall|e: int| 0 <= e < row.len() implies looked_up(row, row[e].1) == row[e].0 by {
        lemma_last_with_column_distinct(row, e);
    }
    assert(row_values(row) =~= Seq::new(row.len(), |e: int| row[e].0));
}

proof fn lemma_last_with_column_distinct(row: Seq<(Fr, usize)>, e: int)
    requires
        0 <= e < row.len(),
        forall|a: int, b: int| 0 <= a < b < row.len() ==> row[a].1 != row[b].1,
    ensures
        last_with_column(row, row[e].1) == Some(row[e].0),
    decreases row.len(),
{
    if e < row.len() - 1 {
        let shorter = row.drop_last();
        assert(row.last().1 != row[e].1);
        assert(shorter[e] == row[e]);
        lemma_last_with_column_distinct(shorter, e);
    }
}

/// The state of the map while the matrix is put into it: rows before
/// `done_rows` are in whole, row `done_rows` up to entry `done_entries`.
spec fn holds_prefix(
    map: Map<(usize, usize), Fr>,
    c: Seq<Seq<(Fr, usize)>>,
    done_rows: int,
    done_entries: int,
) -> bool {
    forall|r: usize, column: usize|
        {
            let found = if r < done_rows {
                last_with_column(c[r as int], column)
            } else if r == done_rows && done_rows < c.len() {
                last_with_column(c[r as int].subrange(0, done_entries), column)
            } else {
                None
            };
            &&& #[trigger] map.contains_key((r, column)) <==> found.is_some()
            &&& found.is_some() ==> map[(r, column)] == found.unwrap()
        }
}

fn flatten(c: &Vec<Vec<(Fr, usize)>>) -> (map: BTreeMap<(usize, usize), Fr>)
    ensures
        holds_prefix(map@, rows(c@), c@.len() as int, 0),
{
    let mut map: BTreeMap<(usize, usize), Fr> = BTreeMap::new();
    let mut r: usize = 0;
    proof {
        if c@.len() > 0 {
            assert(rows(c@)[0].subrange(0, 0) =~= Seq::empty());
        }
    }
    while r < c.len()
        invariant
            r <= c@.len(),
            holds_prefix(map@, rows(c@), r as int, 0),
        decreases c@.len() - r,
    {
        let row = &c[r];
        let mut e: usize = 0;
        while e < row.len()
            invariant
                r < c@.len(),
                row@ == rows(c@)[r as int],
                e <= row@.len(),
                holds_prefix(map@, rows(c@), r as int, e as int),
            decreases row@.len() - e,
        {
            let (coefficient, column) = row[e];
            let ghost before = map@;
            map.insert((r, column), coefficient);
            proof {
                let shorter = row@.subrange(0, e as int);
                let longer = row@.subrange(0, e + 1);
                assert(longer.drop_last() =~= shorter);
                assert(longer.last() == row@[e as int]);
                assert forall|r2: usize, column2: usize|
                    {
                        let found = if r2 < r {
                            last_with_column(rows(c@)[r2 as int], column2)
                        } else if r2 == r {
                            last_with_column(rows(c@)[r2 as int].subrange(0, e + 1), column2)
                        } else {
                            None
                        };
                        &&& #[trigger] map@.contains_key((r2, column2)) <==> found.is_some()
                        &&& found.is_some() ==> map@[(r2, column2)] == found.unwrap()
                    } by {
                    let earlier = if r2 < r {
                        last_with_column(rows(c@)[r2 as int], column2)
                    } else if r2 == r {
                        last_with_column(shorter, column2)
                    } else {
                        None
                    };
                    assert(before.contains_key((r2, column2)) <==> earlier.is_some());
                    assert(map@ == before.insert((r, column), coefficient));
                    if r2 == r && column2 != column {
                        assert(last_with_column(longer, column2) == earlier);
                    }
                }
                assert(holds_prefix(map@, rows(c@), r as int, e + 1));
            }
            e += 1;
        }
        proof {
            assert(row@.subrange(0, e as int) =~= row@);
            if r + 1 < c@.len() {
                assert(rows(c@)[r + 1].subrange(0, 0) =~= Seq::empty());
            }
            assert forall|r2: usize, column2: usize|
                {
                    let found = if r2 < r + 1 {
                        last_with_column(rows(c@)[r2 as int], column2)
                    } else if r2 == r + 1 && r + 1 < c@.len() {
                        last_with_column(rows(c@)[r2 as int].subrange(0, 0), column2)
                    } else {
                        None
                    };
                    &&& #[trigger] map@.contains_key((r2, column2)) <==> found.is_some()
                    &&& found.is_some() ==> map@[(r2, column2)] == found.unwrap()
                } by {
                let earlier = if r2 < r {
                    last_with_column(rows(c@)[r2 as int], column2)
                } else if r2 == r {
                    last_with_column(rows(c@)[r2 as int].subrange(0, e as int), column2)
                } else {
                    None
                };
                assert(map@.contains_key((r2, column2)) <==> earlier.is_some());
            }
        }
        r += 1;
    }
    map
}

/// The dense value table of the matrix: its entries are put into a map keyed
/// by row and column, and read back in matrix order, zero where the map has
/// nothing.
pub fn dense_values(c: &Vec<Vec<(Fr, usize)>>) -> (table: Vec<Fr>)
    ensures
        table@ == value_table(rows(c@)),
{
    let map = flatten(c);
    let mut table: Vec<Fr> = Vec::new();
    let mut r: usize = 0;
    assert(rows(c@).subrange(0, 0) =~= Seq::empty());
    while r < c.len()
        invariant
            r <= c@.len(),
            holds_prefix(map@, rows(c@), c@.len() as int, 0),
            table@ == value_table(rows(c@).subrange(0, r as int)),
        decreases c@.len() - r,
    {
        let row = &c[r];
        let ghost done = table@;
        let mut e: usize = 0;
        while e < row.len()
            invariant
                r < c@.len(),
                row@ == rows(c@)[r as int],
                e <= row@.len(),
                holds_prefix(map@, rows(c@), c@.len() as int, 0),
                table@ == done + row_values(row@).subrange(0, e as int),
            decreases row@.len() - e,
        {
            let column = row[e].1;
            let key = (r, column);
            assert(map@.contains_key((r, column)) <==> last_with_column(row@, column).is_some());
            let value = match map.get(&key) {
                Some(v) => *v,
                None => Fr::zero(),
            };
            assert(value == looked_up(row@, column));
            table.push(value);
            e += 1;
            assert(table@ =~= done + row_values(row@).subrange(0, e as int));
        }
        proof {
            assert(row_values(row@).subrange(0, e as int) =~= row_values(row@));
            let next = rows(c@).subrange(0, r + 1);
            assert(next.drop_last() =~= rows(c@).subrange(0, r as int));
            assert(next.last() == row@);
        }
        r += 1;
    }
    assert(rows(c@).subrange(0, r as int) =~= rows(c@));
    table
}

/// A patch is determined by the matrix and the randomness: two matrices
/// that both are the patch of `old` are the same, entry for entry. So the
/// table read from the patched matrix is the table of any matrix that was
/// built with the raised coefficients in the first place, and where no entry
/// of a row is randomised, the row's part of the table is as before.
pub proof fn lemma_patch_equivalence(
    old_rows: Seq<Seq<(Fr, usize)>>,
    patched: Seq<Seq<(Fr, usize)>>,
    rebuilt: Seq<Seq<(Fr, usize)>>,
    poso_size: nat,
    rand: Seq<u16>,
)
    requires
        is_patch_of(old_rows, patched, poso_size, rand),
        is_patch_of(old_rows, rebuilt, poso_size, rand),
    ensures
        patched == rebuilt,
        value_table(patched) == value_table(rebuilt),
        forall|i: int|
            poso_size <= i < old_rows.len() ==> #[trigger] patched[i] == old_rows[i]
                && row_values(patched[i]) == row_values(old_rows[i]),
{
    assert forall|i: int| 0 <= i < patched.len() implies patched[i] == rebuilt[i] by {
        assert(patched[i].len() == old_rows[i].len());
        assert(rebuilt[i].len() == old_rows[i].len());
        assert forall|j: int| 0 <= j < patched[i].len() implies patched[i][j] == rebuilt[i][j] by {
            let a = patched[i][j];
            let b = rebuilt[i][j];
            assert(a.1 == old_rows[i][j].1 && b.1 == old_rows[i][j].1);
            if is_affected(i, j, poso_size) {
                crate::field::lemma_value_determines_element(a.0, b.0);
            }
        }
        assert(patched[i] =~= rebuilt[i]);
    }
    assert(patched =~= rebuilt);
    assert forall|i: int| poso_size <= i < old_rows.len() implies #[trigger] patched[i]
        == old_rows[i] && row_values(patched[i]) == row_values(old_rows[i]) by {
        assert(patched[i].len() == old_rows[i].len());
        assert forall|j: int| 0 <= j < patched[i].len() implies patched[i][j] == old_rows[i][j] by {
            let a = patched[i][j];
            assert(!is_affected(i, j, poso_size));
        }
        assert(patched[i] =~= old_rows[i]);
    }
}

/// The number of stored entries of a matrix.
pub open spec fn entry_count(c: Seq<Seq<(Fr, usize)>>) -> nat
    decreases c.len(),
{
    if c.len() == 0 {
        0
    } else {
        entry_count(c.drop_last()) + c.last().len()
    }
}

/// The table has one element per stored entry.
pub proof fn lemma_value_table_len(c: Seq<Seq<(Fr, usize)>>)
    ensures
        value_table(c).len() == entry_count(c),
    decreases c.len(),
{
    if c.len() > 0 {
        lemma_value_table_len(c.drop_last());
    }
}

/// Matrices with rows of the same lengths store the same number of entries.
pub proof fn lemma_entry_count_by_shape(a: Seq<Seq<(Fr, usize)>>, b: Seq<Seq<(Fr, usize)>>)
    requires
        a.len() == b.len(),
        forall|i: int| 0 <= i < a.len() ==> (#[trigger] b[i]).len() == a[i].len(),
    ensures
        entry_count(a) == entry_count(b),
    decreases a.len(),
{
    if a.len() > 0 {
        assert forall|i: int| 0 <= i < a.drop_last().len() implies (#[trigger] b.drop_last()[i]).len()
            == a.drop_last()[i].len() by {
            assert(b.drop_last()[i] == b[i]);
        }
        lemma_entry_count_by_shape(a.drop_last(), b.drop_last());
        assert(b.last() == b[b.len() - 1]);
    }
}

/// What the patcher hands back: the patched matrix together with the value
/// table read from it and the polynomial interpolated from that table.
pub struct PatchedKey {
    /// The patched sparse matrix.
    pub c: Vec<Vec<(Fr, usize)>>,
    /// The value table over the non-zero domain, an element per stored entry.
    pub val_evals: Vec<Fr>,
    /// The value polynomial, without trailing zero coefficients.
    pub val_poly: Vec<Fr>,
}

impl PatchedKey {
    /// Matrix, table and polynomial belong together: the table is read from
    /// the matrix, the polynomial interpolated from the table over the
    /// domain of size `k`.
    pub open spec fn consistent(self, k: nat) -> bool {
        &&& self.val_evals@ == value_table(rows(self.c@))
        &&& values(self.val_poly@) == normalized(ifft_coefficients(k, values(self.val_evals@)))
    }
}

/// Why a key cannot be patched, if it cannot.
pub open spec fn patch_error(
    c: Seq<Seq<(Fr, usize)>>,
    poso_size: nat,
    rand: Seq<u16>,
    num_non_zero: nat,
) -> Option<Failure> {
    if !fits_patch(c, poso_size, rand) {
        Some(Failure::MismatchedLengths)
    } else if num_non_zero > max_domain_size() || ceil_power_of_two(num_non_zero) > usize::MAX {
        Some(Failure::DomainTooLarge)
    } else if entry_count(c) > ceil_power_of_two(num_non_zero) {
        Some(Failure::MismatchedLengths)
    } else {
        None
    }
}

/// Patches a key for one proof: the randomness is added at the randomised
/// slots of the matrix, the value table is read from the patched matrix, and
/// the value polynomial is interpolated from the table over the non-zero
/// domain. The key that was handed in is left as it is.
pub fn patch_key(
    c: &Vec<Vec<(Fr, usize)>>,
    poso_size: usize,
    poso_rand: &Vec<u16>,
    num_non_zero: usize,
) -> (r: Result<PatchedKey, Failure>)
    ensures
        match r {
            Ok(key) => {
                &&& patch_error(
                    rows(c@),
                    poso_size as nat,
                    poso_rand@,
                    num_non_zero as nat,
                ).is_none()
                &&& is_patch_of(rows(c@), rows(key.c@), poso_size as nat, poso_rand@)
                &&& key.consistent(ceil_power_of_two(num_non_zero as nat))
            },
            Err(e) => patch_error(rows(c@), poso_size as nat, poso_rand@, num_non_zero as nat)
                == Some(e),
        },
{
    let patched = match patch_matrix(c, poso_size, poso_rand) {
        Ok(p) => p,
        Err(e) => {
            return Err(e);
        },
    };
    let k = match domain_size(num_non_zero) {
        Some(k) => k,
        None => {
            return Err(Failure::DomainTooLarge);
        },
    };
    let table = dense_values(&patched);
    proof {
        lemma_value_table_len(rows(patched@));
        lemma_entry_count_by_shape(rows(c@), rows(patched@));
    }
    if table.len() > k {
        return Err(Failure::MismatchedLengths);
    }
    let poly = normalize(domain_ifft(k, &table));
    Ok(PatchedKey { c: patched, val_evals: table, val_poly: poly })
}

} // verus!
