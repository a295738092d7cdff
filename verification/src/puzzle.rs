use vstd::prelude::*;

use crate::difficulty::Difficulty;

verus! {

/// The comma that separates grid columns in the serialized form.
pub const COMMA: u8 = 44;

/// The newline that terminates each serialized row.
pub const NEWLINE: u8 = 10;

/// A puzzle record: the service-assigned identifier, the solved grid in
/// row-major order, and the positionally aligned edit mask. A mask value of
/// `true` marks a cell as editable (left blank when serialized); `false`
/// marks it as given (rendered with its solved digit).
#[derive(Clone, Debug, PartialEq, Eq)]
pub struct Puzzle {
    pub difficulty: Difficulty,
    pub id: Vec<u8>,
    pub solution: Vec<u8>,
    pub mask: Vec<bool>,
}

/// The decimal digit bytes of `n`, most significant first.
pub open spec fn dec_bytes(n: nat) -> Seq<u8>
    decreases n,
{
    if n < 10 {
        seq![(48 + n) as u8]
    } else {
        dec_bytes(n / 10).push((48 + n % 10) as u8)
    }
}

/// The bytes one cell contributes to its row's line. An editable cell is
/// blanked: it contributes only the comma that separates it from the next
/// column, and in the last column not even that. A given cell contributes its
/// decimal value followed by a comma, in the last column included, so an
/// all-given row ends in a trailing comma by design.
pub open spec fn cell_bytes(value: u8, editable: bool, last: bool) -> Seq<u8> {
    if editable {
        if last {
            Seq::empty()
        } else {
            seq![COMMA]
        }
    } else {
        dec_bytes(value as nat).push(COMMA)
    }
}

/// The bytes the first `n` cells of a row contribute, in column order.
pub open spec fn cells_prefix(sol: Seq<u8>, mask: Seq<bool>, n: int) -> Seq<u8>
    decreases n,
{
    if n <= 0 {
        Seq::empty()
    } else {
        cells_prefix(sol, mask, n - 1) + cell_bytes(sol[n - 1], mask[n - 1], n - 1 == 8)
    }
}

/// The full line emitted for one row of 9 solution values and 9 mask flags:
/// the nine cells' bytes, then a terminating newline.
pub open spec fn row_bytes(sol: Seq<u8>, mask: Seq<bool>) -> Seq<u8>
    recommends
        sol.len() == 9,
        mask.len() == 9,
{
    cells_prefix(sol, mask, 9).push(NEWLINE)
}

/// The number of complete rows serialization emits: solution and mask are
/// each split into rows of 9, an incomplete trailing row is dropped, and the
/// rows are paired up to the shorter side.
pub open spec fn num_rows(sol: Seq<u8>, mask: Seq<bool>) -> int {
    let a = sol.len() as int / 9;
    let b = mask.len() as int / 9;
    if a <= b {
        a
    } else {
        b
    }
}

/// The bytes of the first `r` emitted rows.
pub open spec fn rows_prefix(sol: Seq<u8>, mask: Seq<bool>, r: int) -> Seq<u8>
    decreases r,
{
    if r <= 0 {
        Seq::empty()
    } else {
        rows_prefix(sol, mask, r - 1) + row_bytes(
            sol.subrange(9 * (r - 1), 9 * r),
            mask.subrange(9 * (r - 1), 9 * r),
        )
    }
}

/// The complete serialized form of a solution/mask pair: one line per
/// complete row pair.
pub open spec fn grid_bytes(sol: Seq<u8>, mask: Seq<bool>) -> Seq<u8> {
    rows_prefix(sol, mask, num_rows(sol, mask))
}

/// Appends the decimal digit bytes of `value` to `out`.
fn push_digits(out: &mut Vec<u8>, value: u8)
    ensures
        final(out)@ == old(out)@ + dec_bytes(value as nat),
{
    if value < 10 {
        out.push(48 + value);
        assert(final(out)@ =~= old(out)@ + dec_bytes(value as nat));
    } else if value < 100 {
        out.push(48 + value / 10);
        out.push(48 + value % 10);
        assert(dec_bytes((value / 10) as nat) == seq![(48 + value / 10) as u8]);
        assert(final(out)@ =~= old(out)@ + dec_bytes(value as nat));
    } else {
        out.push(48 + value / 100);
        out.push(48 + (value / 10) % 10);
        out.push(48 + value % 10);
        assert(value as nat / 10 / 10 == value as nat / 100) by (nonlinear_arith);
        assert(dec_bytes((value / 100) as nat) == seq![(48 + value / 100) as u8]);
        assert(dec_bytes((value as nat / 10) as nat) == seq![
            (48 + value / 100) as u8,
            (48 + (value / 10) % 10) as u8,
        ]);
        assert(final(out)@ =~= old(out)@ + dec_bytes(value as nat));
    }
}

impl Puzzle {
    /// Serializes this record as the masked, comma-delimited grid text:
    /// solution and mask are partitioned into complete rows of 9, paired by
    /// position, and each pair is emitted as one newline-terminated line per
    /// `row_bytes`.
    pub fn write_masked_puzzle(&self) -> (out: Vec<u8>)
        ensures
            out@ == grid_bytes(self.solution@, self.mask@),
    {
        let ghost sol = self.solution@;
        let ghost msk = self.mask@;
        let mut out: Vec<u8> = Vec::new();
        let sol_rows = self.solution.len() / 9;
        let mask_rows = self.mask.len() / 9;
        let nrows = if sol_rows <= mask_rows {
            sol_rows
        } else {
            mask_rows
        };
        proof {
            assert(9 * (sol.len() as int / 9) <= sol.len()) by (nonlinear_arith);
            assert(9 * (msk.len() as int / 9) <= msk.len()) by (nonlinear_arith);
            assert(sol.len() <= usize::MAX);
        }
        let mut r: usize = 0;
        while r < nrows
            invariant
                r <= nrows,
                nrows == num_rows(sol, msk),
                sol == self.solution@,
                msk == self.mask@,
                9 * nrows <= sol.len(),
                9 * nrows <= msk.len(),
                9 * nrows <= usize::MAX,
                out@ == rows_prefix(sol, msk, r as int),
            decreases nrows - r,
        {
            let ghost row_sol = sol.subrange(9 * (r as int), 9 * (r as int) + 9);
            let ghost row_msk = msk.subrange(9 * (r as int), 9 * (r as int) + 9);
            let mut c: usize = 0;
            while c < 9
                invariant
                    c <= 9,
                    r < nrows,
                    nrows == num_rows(sol, msk),
                    sol == self.solution@,
                    msk == self.mask@,
                    9 * nrows <= sol.len(),
                    9 * nrows <= msk.len(),
                    9 * nrows <= usize::MAX,
                    row_sol == sol.subrange(9 * (r as int), 9 * (r as int) + 9),
                    row_msk == msk.subrange(9 * (r as int), 9 * (r as int) + 9),
                    out@ == rows_prefix(sol, msk, r as int) + cells_prefix(row_sol, row_msk, c as int),
                decreases 9 - c,
            {
                let i = 9 * r + c;
                let value = self.solution[i];
                let editable = self.mask[i];
                proof {
                    assert(row_sol[c as int] == sol[9 * (r as int) + c]);
                    assert(row_msk[c as int] == msk[9 * (r as int) + c]);
                }
                if editable {
                    if c != 8 {
                        out.push(COMMA);
                    }
                } else {
                    push_digits(&mut out, value);
                    out.push(COMMA);
                }
                proof {
                    assert(cell_bytes(row_sol[c as int], row_msk[c as int], c == 8) == if editable {
                        if c == 8 {
                            Seq::<u8>::empty()
                        } else {
                            seq![COMMA]
                        }
                    } else {
                        dec_bytes(value as nat).push(COMMA)
                    });
                    assert(out@ =~= rows_prefix(sol, msk, r as int) + cells_prefix(
                        row_sol,
                        row_msk,
                        c as int + 1,
                    ));
                }
                c = c + 1;
            }
            out.push(NEWLINE);
            proof {
                assert(row_bytes(row_sol, row_msk) == cells_prefix(row_sol, row_msk, 9).push(
                    NEWLINE,
                ));
                assert(out@ =~= rows_prefix(sol, msk, r as int + 1));
            }
            r = r + 1;
        }
        out
    }
}

/// How many newline bytes a byte sequence holds: the number of lines it
/// forms, since every emitted line is newline-terminated.
pub open spec fn line_count(s: Seq<u8>) -> nat
    decreases s.len(),
{
    if s.len() == 0 {
        0
    } else {
        line_count(s.drop_last()) + if s.last() == NEWLINE {
            1nat
        } else {
            0nat
        }
    }
}

proof fn lemma_line_count_add(a: Seq<u8>, b: Seq<u8>)
    ensures
        line_count(a + b) == line_count(a) + line_count(b),
    decreases b.len(),
{
    if b.len() == 0 {
        assert(a + b =~= a);
    } else {
        assert((a + b).drop_last() =~= a + b.drop_last());
        assert((a + b).last() == b.last());
        lemma_line_count_add(a, b.drop_last());
    }
}

proof fn lemma_dec_bytes_no_newline(n: nat)
    ensures
        line_count(dec_bytes(n)) == 0,
    decreases n,
{
    reveal_with_fuel(line_count, 3);
    if n < 10 {
        assert(dec_bytes(n).drop_last() =~= Seq::<u8>::empty());
    } else {
        lemma_dec_bytes_no_newline(n / 10);
        assert(dec_bytes(n).drop_last() =~= dec_bytes(n / 10));
    }
}

proof fn lemma_cell_bytes_no_newline(value: u8, editable: bool, last: bool)
    ensures
        line_count(cell_bytes(value, editable, last)) == 0,
{
    reveal_with_fuel(line_count, 3);
    if editable {
        if !last {
            assert(seq![COMMA].drop_last() =~= Seq::<u8>::empty());
        }
    } else {
        lemma_dec_bytes_no_newline(value as nat);
        assert(dec_bytes(value as nat).push(COMMA).drop_last() =~= dec_bytes(value as nat));
    }
}

proof fn lemma_cells_prefix_no_newline(sol: Seq<u8>, mask: Seq<bool>, n: int)
    ensures
        line_count(cells_prefix(sol, mask, n)) == 0,
    decreases n,
{
    if n > 0 {
        lemma_cells_prefix_no_newline(sol, mask, n - 1);
        lemma_cell_bytes_no_newline(sol[n - 1], mask[n - 1], n - 1 == 8);
        lemma_line_count_add(
            cells_prefix(sol, mask, n - 1),
            cell_bytes(sol[n - 1], mask[n - 1], n - 1 == 8),
        );
    }
}

proof fn lemma_row_bytes_one_line(sol: Seq<u8>, mask: Seq<bool>)
    ensures
        line_count(row_bytes(sol, mask)) == 1,
{
    lemma_cells_prefix_no_newline(sol, mask, 9);
    assert(row_bytes(sol, mask).drop_last() =~= cells_prefix(sol, mask, 9));
}

proof fn lemma_rows_prefix_line_count(sol: Seq<u8>, mask: Seq<bool>, r: int)
    ensures
        r >= 0 ==> line_count(rows_prefix(sol, mask, r)) == r,
    decreases r,
{
    if r > 0 {
        lemma_rows_prefix_line_count(sol, mask, r - 1);
        lemma_row_bytes_one_line(
            sol.subrange(9 * (r - 1), 9 * r),
            mask.subrange(9 * (r - 1), 9 * r),
        );
        lemma_line_count_add(
            rows_prefix(sol, mask, r - 1),
            row_bytes(sol.subrange(9 * (r - 1), 9 * r), mask.subrange(9 * (r - 1), 9 * r)),
        );
    }
}

/// The serialized output holds exactly one newline-terminated line per
/// complete row pair: as many lines as rows were paired, nominally 9.
pub proof fn lemma_one_line_per_row(sol: Seq<u8>, mask: Seq<bool>)
    ensures
        line_count(grid_bytes(sol, mask)) == num_rows(sol, mask),
{
    lemma_rows_prefix_line_count(sol, mask, num_rows(sol, mask));
}

/// Serialization is a pure function of the record's solution and mask: two
/// records that agree on them, the same record twice in particular, serialize
/// to byte-identical output.
pub proof fn lemma_serialization_deterministic(a: Puzzle, b: Puzzle)
    requires
        a.solution@ == b.solution@,
        a.mask@ == b.mask@,
    ensures
        grid_bytes(a.solution@, a.mask@) == grid_bytes(b.solution@, b.mask@),
{
}

/// A row whose 9 mask flags are all `false` (all cells given) is emitted as
/// the 9 decimal values, each immediately followed by a comma — the last
/// included — then a newline.
pub proof fn lemma_all_given_row(sol: Seq<u8>, mask: Seq<bool>)
    requires
        sol.len() == 9,
        mask.len() == 9,
        forall|i: int| 0 <= i < 9 ==> !mask[i],
    ensures
        row_bytes(sol, mask) == dec_bytes(sol[0] as nat) + seq![COMMA] + dec_bytes(sol[1] as nat)
            + seq![COMMA] + dec_bytes(sol[2] as nat) + seq![COMMA] + dec_bytes(sol[3] as nat)
            + seq![COMMA] + dec_bytes(sol[4] as nat) + seq![COMMA] + dec_bytes(sol[5] as nat)
            + seq![COMMA] + dec_bytes(sol[6] as nat) + seq![COMMA] + dec_bytes(sol[7] as nat)
            + seq![COMMA] + dec_bytes(sol[8] as nat) + seq![COMMA, NEWLINE],
{
    reveal_with_fuel(cells_prefix, 10);
    assert(row_bytes(sol, mask) =~= dec_bytes(sol[0] as nat) + seq![COMMA] + dec_bytes(
        sol[1] as nat,
    ) + seq![COMMA] + dec_bytes(sol[2] as nat) + seq![COMMA] + dec_bytes(sol[3] as nat)
        + seq![COMMA] + dec_bytes(sol[4] as nat) + seq![COMMA] + dec_bytes(sol[5] as nat)
        + seq![COMMA] + dec_bytes(sol[6] as nat) + seq![COMMA] + dec_bytes(sol[7] as nat)
        + seq![COMMA] + dec_bytes(sol[8] as nat) + seq![COMMA, NEWLINE]);
}

/// A row whose 9 mask flags are all `true` (all cells editable) is emitted as
/// exactly 8 commas and a newline: each of the first 8 columns contributes
/// its separating comma, and the last column contributes nothing.
pub proof fn lemma_all_editable_row(sol: Seq<u8>, mask: Seq<bool>)
    requires
        sol.len() == 9,
        mask.len() == 9,
        forall|i: int| 0 <= i < 9 ==> mask[i],
    ensures
        row_bytes(sol, mask) == seq![
            COMMA,
            COMMA,
            COMMA,
            COMMA,
            COMMA,
            COMMA,
            COMMA,
            COMMA,
            NEWLINE,
        ],
{
    reveal_with_fuel(cells_prefix, 10);
    assert(row_bytes(sol, mask) =~= seq![
        COMMA,
        COMMA,
        COMMA,
        COMMA,
        COMMA,
        COMMA,
        COMMA,
        COMMA,
        NEWLINE,
    ]);
}

} // verus!
