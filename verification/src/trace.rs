//! Shaping a trace: padding its rows to a power of two and laying them out
//! row by row in a matrix.

use vstd::prelude::*;
use vstd::arithmetic::power2::{pow2, lemma2_to64, lemma_pow2_unfold};
use p3_matrix::dense::RowMajorMatrix;

verus! {

#[verifier::external_type_specification]
#[verifier::external_body]
#[verifier::reject_recursive_types(T)]
#[verifier::reject_recursive_types(V)]
pub struct ExDenseMatrix<T, V>(p3_matrix::dense::DenseMatrix<T, V>);

/// The cells of a matrix, row after row.
pub uninterp spec fn matrix_values(m: RowMajorMatrix<u32>) -> Seq<u32>;

/// The number of columns that a matrix was made with.
pub uninterp spec fn matrix_width(m: RowMajorMatrix<u32>) -> nat;

/// The matrix of `width` columns whose rows, one after the other, are
/// `values`.
///
/// Calls `p3_matrix::dense::RowMajorMatrix::new`, which keeps the two as
/// they are given, and which in a debug build does not return where the
/// width does not divide the number of values.
#[verifier::external_body]
pub(crate) fn row_major(values: Vec<u32>, width: usize) -> (m: RowMajorMatrix<u32>)
    requires
        width == 0 || values.len() % width == 0,
    ensures
        matrix_values(m) == values@,
        matrix_width(m) == width,
{
    RowMajorMatrix::new(values, width)
}

/// Appends the elements of `a` to `row`.
pub fn append_array<T: Copy, const N: usize>(a: &[T; N], row: &mut Vec<T>)
    ensures
        final(row)@ == old(row)@ + a@,
{
    let mut i: usize = 0;
    while i < N
        invariant
            i <= N,
            a@.len() == N,
            row@ == old(row)@ + a@.take(i as int),
        decreases N - i,
    {
        row.push(a[i]);
        assert(a@.take(i as int + 1) =~= a@.take(i as int).push(a@[i as int]));
        i += 1;
    }
    assert(a@.take(N as int) =~= a@);
}

/// The `N` cells of `row` from `start` on.
pub fn read_array<T: Copy, const N: usize>(row: &[T], start: usize) -> (a: [T; N])
    requires
        N > 0,
        start + N <= row.len(),
    ensures
        a@ == row@.subrange(start as int, start + N),
{
    let mut a: [T; N] = [row[start];N];
    let mut i: usize = 0;
    while i < N
        invariant
            i <= N,
            start + N <= row.len(),
            forall|j: int| 0 <= j < i ==> a[j] == row[start + j],
        decreases N - i,
    {
        a[i] = row[start + i];
        i += 1;
    }
    assert(a@ =~= row@.subrange(start as int, start + N));
    a
}

/// The least of `c`, `2c`, `4c`, ... that is not below `n`.
pub open spec fn doubled_to(c: nat, n: nat) -> nat
    decreases
            (if c < n {
                n - c
            } else {
                0
            }),
{
    if c >= n || c == 0 {
        c
    } else {
        doubled_to(2 * c, n)
    }
}

/// The number of rows of a trace with `n` real rows: the least power of two
/// that is at least `n` and at least four.
pub open spec fn padded_count(n: nat) -> nat {
    doubled_to(4, n)
}

/// Whether `k` is a power of two.
pub open spec fn is_power_of_two(k: nat) -> bool {
    exists|e: nat| k == pow2(e)
}

proof fn lemma_doubled_to(c: nat, n: nat, e: nat)
    requires
        c == pow2(e),
    ensures
        is_power_of_two(doubled_to(c, n)),
        doubled_to(c, n) >= n,
        doubled_to(c, n) >= c,
        doubled_to(c, n) == c || doubled_to(c, n) < 2 * n,
    decreases
            (if c < n {
                n - c
            } else {
                0
            }),
{
    vstd::arithmetic::power2::lemma_pow2_pos(e);
    if c >= n {
        assert(doubled_to(c, n) == pow2(e));
    } else {
        lemma_pow2_unfold(e + 1);
        lemma_doubled_to(2 * c, n, e + 1);
    }
}

/// The padded number of rows is a power of two, at least four and at least
/// the number of real rows, and the least such.
pub proof fn lemma_padded_count(n: nat)
    ensures
        is_power_of_two(padded_count(n)),
        padded_count(n) >= 4,
        padded_count(n) >= n,
        padded_count(n) == 4 || padded_count(n) < 2 * n,
{
    lemma2_to64();
    lemma_doubled_to(4, n, 2);
}

/// The number of rows of a trace with `n` real rows.
pub fn padded_row_count(n: usize) -> (r: usize)
    requires
        n <= 0x4000_0000,
    ensures
        r == padded_count(n as nat),
{
    let mut c: usize = 4;
    proof {
        lemma2_to64();
        assert(c == pow2(2));
    }
    while c < n
        invariant
            4 <= c <= 0x4000_0000,
            n <= 0x4000_0000,
            doubled_to(c as nat, n as nat) == padded_count(n as nat),
            exists|e: nat| 2 <= e <= 30 && c == #[trigger] pow2(e),
        decreases
                (if c < n {
                    n - c
                } else {
                    0
                }),
    {
        proof {
            let e = choose|e: nat| 2 <= e <= 30 && c == #[trigger] pow2(e);
            lemma_pow2_unfold(e + 1);
            lemma2_to64();
            if e == 30 {
                assert(false);
            }
            assert(2 <= e + 1 <= 30 && 2 * c == pow2(e + 1));
        }
        c = 2 * c;
    }
    c
}

/// Appends copies of `padding` to `rows` until their number is the padded
/// count.
pub fn pad_rows<R: Copy>(rows: &mut Vec<R>, padding: R)
    requires
        old(rows).len() <= 0x4000_0000,
    ensures
        final(rows)@ == old(rows)@ + Seq::new(
            (padded_count(old(rows).len() as nat) - old(rows).len()) as nat,
            |i: int| padding,
        ),
        final(rows).len() == padded_count(old(rows).len() as nat),
{
    let n: usize = rows.len();
    let padded: usize = padded_row_count(n);
    proof {
        lemma_padded_count(n as nat);
    }
    let mut i: usize = n;
    while i < padded
        invariant
            n <= i <= padded,
            rows.len() == i,
            rows@ == old(rows)@ + Seq::new((i - n) as nat, |j: int| padding),
        decreases padded - i,
    {
        rows.push(padding);
        assert(rows@ =~= old(rows)@ + Seq::new((i + 1 - n) as nat, |j: int| padding));
        i += 1;
    }
}

} // verus!
