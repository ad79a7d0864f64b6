//! A buffer of byte rows, flattened to one byte vector or summed.
use vstd::prelude::*;

use crate::sums::{bytes_sum, lemma_bytes_sum_concat, lemma_bytes_sum_nonneg, lemma_bytes_sum_take_next, lemma_wrapping_step, wrap};

verus! {

broadcast use vstd::seq_lib::group_seq_properties;

/// An ordered list of byte rows. The rows usually share one length, but
/// nothing enforces it.
pub struct NestedData {
    pub pixels: Vec<Vec<u8>>,
}

impl View for NestedData {
    type V = Seq<Seq<u8>>;

    open spec fn view(&self) -> Seq<Seq<u8>> {
        self.pixels@.map_values(|row: Vec<u8>| row@)
    }
}

/// Every row has the length of the first one.
pub open spec fn uniform_rows(rows: Seq<Seq<u8>>) -> bool {
    forall|i: int| 0 <= i < rows.len() ==> #[trigger] rows[i].len() == rows[0].len()
}

/// The sum of the row sums.
pub open spec fn rows_sum(rows: Seq<Seq<u8>>) -> int
    decreases rows.len(),
{
    if rows.len() == 0 {
        0
    } else {
        rows_sum(rows.drop_last()) + bytes_sum(rows.last())
    }
}

/// The bytes consumed by a cursor standing at byte `j` of row `i`: every row
/// before `i`, then the first `j` bytes of row `i`.
pub open spec fn consumed(rows: Seq<Seq<u8>>, i: int, j: int) -> Seq<u8> {
    if i < rows.len() {
        rows.take(i).flatten() + rows[i].take(j)
    } else {
        rows.flatten()
    }
}

/// Concatenating the first `i + 1` rows appends row `i` to the first `i`.
proof fn lemma_flatten_take_next(rows: Seq<Seq<u8>>, i: int)
    requires
        0 <= i < rows.len(),
    ensures
        rows.take(i + 1).flatten() == rows.take(i).flatten() + rows[i],
{
    assert(rows.take(i + 1) =~= rows.take(i).push(rows[i]));
    rows.take(i).lemma_flatten_push(rows[i]);
}

/// The number of bytes in rows that all have length `w` is `rows.len() * w`.
pub proof fn lemma_uniform_flatten_len(rows: Seq<Seq<u8>>, w: int)
    requires
        forall|i: int| 0 <= i < rows.len() ==> #[trigger] rows[i].len() == w,
    ensures
        rows.flatten().len() == rows.len() * w,
    decreases rows.len(),
{
    if rows.len() > 0 {
        let q = rows.drop_last();
        assert forall|i: int| 0 <= i < q.len() implies #[trigger] q[i].len() == w by {
            assert(q[i] == rows[i]);
        }
        lemma_uniform_flatten_len(q, w);
        assert(q.push(rows.last()) =~= rows);
        q.lemma_flatten_push(rows.last());
        assert(rows.len() * w == q.len() * w + w) by (nonlinear_arith)
            requires
                rows.len() == q.len() + 1,
        ;
    }
}

/// Summing the concatenated rows gives the sum of the row sums.
pub proof fn lemma_flatten_sum(rows: Seq<Seq<u8>>)
    ensures
        bytes_sum(rows.flatten()) == rows_sum(rows),
    decreases rows.len(),
{
    if rows.len() > 0 {
        let q = rows.drop_last();
        lemma_flatten_sum(q);
        assert(q.push(rows.last()) =~= rows);
        q.lemma_flatten_push(rows.last());
        lemma_bytes_sum_concat(q.flatten(), rows.last());
    }
}

/// For rows of one length, the concatenated rows hold rows times width bytes,
/// the size that the pre-sized variant reserves; and summing row by row agrees
/// with summing the concatenation, before and after wraparound.
pub proof fn lemma_nested_variants_agree(n: NestedData)
    requires
        uniform_rows(n@),
    ensures
        n@.len() > 0 ==> n@.flatten().len() == n@.len() * n@[0].len(),
        bytes_sum(n@.flatten()) == rows_sum(n@),
        wrap(bytes_sum(n@.flatten())) == wrap(rows_sum(n@)),
{
    if n@.len() > 0 {
        lemma_uniform_flatten_len(n@, n@[0].len() as int);
    }
    lemma_flatten_sum(n@);
}

impl NestedData {
    /// Concatenates the rows, appending to a vector that grows as needed.
    pub fn collect_loop(&self) -> (r: Vec<u8>)
        ensures
            r@ == self@.flatten(),
    {
        let mut output: Vec<u8> = Vec::new();
        self.append_rows(&mut output);
        output
    }

    /// Concatenates the rows after reserving rows times the first row's
    /// length. The rows must share one length for that reservation to be
    /// exact.
    pub fn collect_loop_with_prealloc(&self) -> (r: Vec<u8>)
        requires
            uniform_rows(self@),
            self@.flatten().len() <= usize::MAX,
        ensures
            r@ == self@.flatten(),
    {
        let n = self.pixels.len();
        let capacity: usize = if n == 0 {
            0
        } else {
            proof {
                lemma_uniform_flatten_len(self@, self@[0].len() as int);
            }
            n * self.pixels[0].len()
        };
        let mut output: Vec<u8> = Vec::with_capacity(capacity);
        self.append_rows(&mut output);
        output
    }

    /// Appends each row in turn.
    fn append_rows(&self, output: &mut Vec<u8>)
        requires
            old(output)@.len() == 0,
        ensures
            final(output)@ == self@.flatten(),
    {
        let n = self.pixels.len();
        proof {
            assert(self@.take(0) =~= Seq::<Seq<u8>>::empty());
        }
        for i in 0..n
            invariant
                n == self@.len(),
                output@ == self@.take(i as int).flatten(),
        {
            let row = &self.pixels[i];
            let ghost before = output@;
            output.extend_from_slice(row.as_slice());
            proof {
                assert(output@ =~= before + self@[i as int]);
                lemma_flatten_take_next(self@, i as int);
            }
        }
        proof {
            assert(self@.take(n as int) =~= self@);
        }
    }

    /// Concatenates the rows by walking a cursor over row and column,
    /// one byte at a time.
    pub fn collect_with_flatten(&self) -> (r: Vec<u8>)
        ensures
            r@ == self@.flatten(),
    {
        let n = self.pixels.len();
        let mut output: Vec<u8> = Vec::new();
        let mut i: usize = 0;
        let mut j: usize = 0;
        proof {
            assert(self@.take(0) =~= Seq::<Seq<u8>>::empty());
            if n > 0 {
                assert(self@[0].take(0) =~= Seq::<u8>::empty());
            }
        }
        while i < n
            invariant
                n == self@.len(),
                i <= n,
                i < n ==> j <= self@[i as int].len(),
                output@ == consumed(self@, i as int, j as int),
            decreases n - i, if i < n { self@[i as int].len() - j } else { 0 },
        {
            let row = &self.pixels[i];
            if j < row.len() {
                output.push(row[j]);
                proof {
                    assert(self@[i as int].take(j + 1) =~= self@[i as int].take(j as int).push(
                        row@[j as int],
                    ));
                }
                j = j + 1;
            } else {
                proof {
                    assert(self@[i as int].take(j as int) =~= self@[i as int]);
                    lemma_flatten_take_next(self@, i as int);
                    if i + 1 < n {
                        assert(self@[i + 1].take(0) =~= Seq::<u8>::empty());
                    } else {
                        assert(self@.take(n as int) =~= self@);
                    }
                }
                i = i + 1;
                j = 0;
            }
        }
        output
    }

    /// Sums every byte of every row with `u32` wraparound, row by row.
    pub fn iteration_nested_loop(&self) -> (r: u32)
        ensures
            r == wrap(rows_sum(self@)),
    {
        let n = self.pixels.len();
        let mut a: u32 = 0;
        for i in 0..n
            invariant
                n == self@.len(),
                a == wrap(rows_sum(self@.take(i as int))),
                rows_sum(self@.take(i as int)) >= 0,
        {
            let row = &self.pixels[i];
            let ghost base = rows_sum(self@.take(i as int));
            assert(row@.take(0) =~= Seq::<u8>::empty());
            for k in 0..row.len()
                invariant
                    row@ == self@[i as int],
                    base >= 0,
                    a == wrap(base + bytes_sum(row@.take(k as int))),
            {
                proof {
                    lemma_bytes_sum_nonneg(row@.take(k as int));
                    lemma_bytes_sum_take_next(row@, k as int);
                    lemma_wrapping_step(a, base + bytes_sum(row@.take(k as int)), row@[k as int] as u32);
                }
                a = a.wrapping_add(row[k] as u32);
            }
            proof {
                assert(row@.take(row@.len() as int) =~= row@);
                assert(self@.take(i + 1).drop_last() =~= self@.take(i as int));
                lemma_bytes_sum_nonneg(row@);
            }
        }
        proof {
            assert(self@.take(n as int) =~= self@);
        }
        a
    }

    /// Sums every byte with `u32` wraparound, walking the concatenated rows
    /// with a cursor.
    pub fn iteration_flatten(&self) -> (r: u32)
        ensures
            r == wrap(bytes_sum(self@.flatten())),
    {
        let n = self.pixels.len();
        let mut a: u32 = 0;
        let mut i: usize = 0;
        let mut j: usize = 0;
        proof {
            assert(self@.take(0) =~= Seq::<Seq<u8>>::empty());
            if n > 0 {
                assert(self@[0].take(0) =~= Seq::<u8>::empty());
            }
        }
        while i < n
            invariant
                n == self@.len(),
                i <= n,
                i < n ==> j <= self@[i as int].len(),
                a == wrap(bytes_sum(consumed(self@, i as int, j as int))),
            decreases n - i, if i < n { self@[i as int].len() - j } else { 0 },
        {
            let row = &self.pixels[i];
            if j < row.len() {
                let b = row[j];
                proof {
                    let done = consumed(self@, i as int, j as int);
                    assert(consumed(self@, i as int, j + 1) =~= done.push(b));
                    assert(done.push(b).drop_last() =~= done);
                    lemma_bytes_sum_nonneg(done);
                    lemma_wrapping_step(a, bytes_sum(done), b as u32);
                }
                a = a.wrapping_add(b as u32);
                j = j + 1;
            } else {
                proof {
                    assert(self@[i as int].take(j as int) =~= self@[i as int]);
                    lemma_flatten_take_next(self@, i as int);
                    if i + 1 < n {
                        assert(self@[i + 1].take(0) =~= Seq::<u8>::empty());
                        assert(consumed(self@, i + 1, 0) =~= self@.take(i + 1).flatten());
                    } else {
                        assert(self@.take(n as int) =~= self@);
                    }
                }
                i = i + 1;
                j = 0;
            }
        }
        a
    }
}

} // verus!
