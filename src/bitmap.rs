//! A buffer of packed colours, flattened to red-green-blue-alpha bytes or
//! summed channel by channel.
use vstd::prelude::*;

use crate::color::Color;
use crate::sums::{bytes_sum, lemma_bytes_sum_concat, lemma_bytes_sum_nonneg, lemma_bytes_sum_take_next, lemma_wrapping_step, wrap};

verus! {

broadcast use vstd::seq_lib::group_seq_properties;

/// An ordered list of packed colours.
pub struct BitmapData {
    pub pixels: Vec<Color>,
}

impl View for BitmapData {
    type V = Seq<Color>;

    open spec fn view(&self) -> Seq<Color> {
        self.pixels@
    }
}

/// Each colour expanded into its four channels, concatenated in order.
pub open spec fn pixel_bytes(p: Seq<Color>) -> Seq<u8> {
    p.map_values(|c: Color| c.channels()).flatten()
}

/// `out` holds four bytes per colour of `p`, byte `4 i + k` being channel `k`
/// (red, green, blue, alpha) of colour `i`.
pub open spec fn is_rgba_layout(p: Seq<Color>, out: Seq<u8>) -> bool {
    &&& out.len() == 4 * p.len()
    &&& forall|j: int| 0 <= j < out.len() ==> #[trigger] out[j] == p[j / 4].channels()[j % 4]
}

/// The sum of all channels of all colours of `p`.
pub open spec fn pixels_sum(p: Seq<Color>) -> int
    decreases p.len(),
{
    if p.len() == 0 {
        0
    } else {
        pixels_sum(p.drop_last()) + p.last().channel_sum()
    }
}

/// Appending a colour appends its four channels.
pub proof fn lemma_pixel_bytes_push(p: Seq<Color>, c: Color)
    ensures
        pixel_bytes(p.push(c)) == pixel_bytes(p) + c.channels(),
{
    let rows = p.map_values(|x: Color| x.channels());
    assert(p.push(c).map_values(|x: Color| x.channels()) =~= rows.push(c.channels()));
    rows.lemma_flatten_push(c.channels());
}

/// The concatenated channels follow the red-green-blue-alpha layout.
pub proof fn lemma_pixel_bytes_layout(p: Seq<Color>)
    ensures
        is_rgba_layout(p, pixel_bytes(p)),
    decreases p.len(),
{
    if p.len() == 0 {
        assert(p.map_values(|c: Color| c.channels()) =~= Seq::<Seq<u8>>::empty());
    } else {
        let q = p.drop_last();
        let c = p.last();
        lemma_pixel_bytes_layout(q);
        assert(q.push(c) =~= p);
        lemma_pixel_bytes_push(q, c);
        let out = pixel_bytes(p);
        let n = q.len();
        assert forall|j: int| 0 <= j < out.len() implies #[trigger] out[j] == p[j / 4].channels()[j
            % 4] by {
            if j < 4 * n {
                assert(out[j] == pixel_bytes(q)[j]);
                assert(j / 4 < n) by (nonlinear_arith)
                    requires
                        0 <= j < 4 * n,
                ;
            } else {
                assert(j / 4 == n && j % 4 == j - 4 * n) by (nonlinear_arith)
                    requires
                        4 * n <= j < 4 * n + 4,
                ;
            }
        }
    }
}

/// The sum of the four channels of one colour.
pub proof fn lemma_channels_sum(c: Color)
    ensures
        bytes_sum(c.channels()) == c.channel_sum(),
{
    let s = c.channels();
    assert(s.take(0) =~= Seq::<u8>::empty());
    lemma_bytes_sum_take_next(s, 0);
    lemma_bytes_sum_take_next(s, 1);
    lemma_bytes_sum_take_next(s, 2);
    lemma_bytes_sum_take_next(s, 3);
    assert(s.take(4) =~= s);
}

/// Summing the flattened bytes gives the sum of all channels.
pub proof fn lemma_pixel_bytes_sum(p: Seq<Color>)
    ensures
        bytes_sum(pixel_bytes(p)) == pixels_sum(p),
    decreases p.len(),
{
    if p.len() == 0 {
        assert(p.map_values(|c: Color| c.channels()) =~= Seq::<Seq<u8>>::empty());
    } else {
        let q = p.drop_last();
        let c = p.last();
        lemma_pixel_bytes_sum(q);
        assert(q.push(c) =~= p);
        lemma_pixel_bytes_push(q, c);
        lemma_bytes_sum_concat(pixel_bytes(q), c.channels());
        lemma_channels_sum(c);
    }
}

/// The bytes-producing variants agree: the red-green-blue-alpha layout
/// determines the output, and the concatenated channels have that layout.
pub proof fn lemma_flatten_variants_agree(b: BitmapData)
    ensures
        is_rgba_layout(b@, pixel_bytes(b@)),
        forall|out: Seq<u8>| is_rgba_layout(b@, out) ==> out == pixel_bytes(b@),
{
    lemma_pixel_bytes_layout(b@);
    assert forall|out: Seq<u8>| is_rgba_layout(b@, out) implies out == pixel_bytes(b@) by {
        let expected = pixel_bytes(b@);
        assert forall|j: int| 0 <= j < out.len() implies out[j] == expected[j] by {
            assert(out[j] == b@[j / 4].channels()[j % 4]);
            assert(expected[j] == b@[j / 4].channels()[j % 4]);
        }
        assert(out =~= expected);
    }
}

/// The summing variants agree: summing every channel colour by colour gives
/// the sum of the flattened bytes, before and after wraparound.
pub proof fn lemma_aggregate_variants_agree(b: BitmapData)
    ensures
        bytes_sum(pixel_bytes(b@)) == pixels_sum(b@),
        wrap(bytes_sum(pixel_bytes(b@))) == wrap(pixels_sum(b@)),
{
    lemma_pixel_bytes_sum(b@);
}

/// One step of the channel cursor: the byte at position `4 i + k` of the
/// flattened output is channel `k` of colour `i`, and adding it extends the
/// running sum by one byte.
proof fn lemma_cursor_step(p: Seq<Color>, flat: Seq<u8>, a: u32, i: int, k: int, c: u8)
    requires
        is_rgba_layout(p, flat),
        0 <= i < p.len(),
        0 <= k < 4,
        c == p[i].channels()[k],
        a == wrap(bytes_sum(flat.take(4 * i + k))),
    ensures
        a.wrapping_add(c as u32) == wrap(bytes_sum(flat.take(4 * i + k + 1))),
{
    let j = 4 * i + k;
    assert(j / 4 == i && j % 4 == k) by (nonlinear_arith)
        requires
            j == 4 * i + k,
            0 <= k < 4,
    ;
    assert(flat[j] == c);
    lemma_bytes_sum_nonneg(flat.take(j));
    lemma_bytes_sum_take_next(flat, j);
    lemma_wrapping_step(a, bytes_sum(flat.take(j)), c as u32);
}

impl BitmapData {
    /// Flattens into red-green-blue-alpha bytes, appending to a vector that
    /// grows as needed.
    pub fn collect_loop(&self) -> (r: Vec<u8>)
        ensures
            r@ == pixel_bytes(self@),
    {
        let mut output: Vec<u8> = Vec::new();
        self.append_channels(&mut output);
        output
    }

    /// Flattens into red-green-blue-alpha bytes, reserving the exact size
    /// first.
    pub fn collect_loop_with_prealloc(&self) -> (r: Vec<u8>)
        requires
            4 * self@.len() <= usize::MAX,
        ensures
            r@ == pixel_bytes(self@),
    {
        let mut output: Vec<u8> = Vec::with_capacity(self.pixels.len() * 4);
        self.append_channels(&mut output);
        output
    }

    /// Appends the four channels of each colour in turn.
    fn append_channels(&self, output: &mut Vec<u8>)
        requires
            old(output)@.len() == 0,
        ensures
            final(output)@ == pixel_bytes(self@),
    {
        let n = self.pixels.len();
        for i in 0..n
            invariant
                n == self@.len(),
                output@ == pixel_bytes(self@.take(i as int)),
        {
            let p = self.pixels[i];
            let ghost before = output@;
            output.extend_from_slice(&[p.red(), p.green(), p.blue(), p.alpha()]);
            proof {
                assert(output@ =~= before + p.channels());
                assert(self@.take(i + 1) =~= self@.take(i as int).push(p));
                lemma_pixel_bytes_push(self@.take(i as int), p);
            }
        }
        proof {
            assert(self@.take(n as int) =~= self@);
        }
    }

    /// Flattens by walking a cursor over the output positions, one channel at
    /// a time, without building any per-colour group.
    pub fn collect_with_flat_map(&self) -> (r: Vec<u8>)
        ensures
            is_rgba_layout(self@, r@),
            r@ == pixel_bytes(self@),
    {
        let n = self.pixels.len();
        let mut output: Vec<u8> = Vec::new();
        let mut i: usize = 0;
        let mut k: usize = 0;
        while i < n
            invariant
                n == self@.len(),
                i <= n,
                k < 4,
                i == n ==> k == 0,
                output@.len() == 4 * i + k,
                forall|j: int|
                    0 <= j < output@.len() ==> #[trigger] output@[j] == self@[j / 4].channels()[j
                        % 4],
            decreases n - i, 4 - k,
        {
            let c = self.pixels[i].channel(k);
            proof {
                let j = 4 * i + k;
                assert(j / 4 == i && j % 4 == k) by (nonlinear_arith)
                    requires
                        j == 4 * i + k,
                        0 <= k < 4,
                ;
            }
            output.push(c);
            if k == 3 {
                k = 0;
                i = i + 1;
            } else {
                k = k + 1;
            }
        }
        proof {
            lemma_flatten_variants_agree(*self);
        }
        output
    }

    /// Sums every channel of every colour with `u32` wraparound, colour by
    /// colour.
    pub fn iteration_nested_loop(&self) -> (r: u32)
        ensures
            r == wrap(pixels_sum(self@)),
    {
        let n = self.pixels.len();
        let mut a: u32 = 0;
        for i in 0..n
            invariant
                n == self@.len(),
                a == wrap(pixels_sum(self@.take(i as int))),
                pixels_sum(self@.take(i as int)) >= 0,
        {
            let p = self.pixels[i];
            let quad: [u8; 4] = [p.red(), p.green(), p.blue(), p.alpha()];
            let ghost base = pixels_sum(self@.take(i as int));
            assert(p.channels().take(0) =~= Seq::<u8>::empty());
            for k in 0..4
                invariant
                    quad@ == p.channels(),
                    base >= 0,
                    a == wrap(base + bytes_sum(p.channels().take(k as int))),
            {
                proof {
                    lemma_bytes_sum_nonneg(p.channels().take(k as int));
                    lemma_bytes_sum_take_next(p.channels(), k as int);
                    lemma_wrapping_step(a, base + bytes_sum(p.channels().take(k as int)), quad[k as int] as u32);
                }
                a = a.wrapping_add(quad[k] as u32);
            }
            proof {
                assert(p.channels().take(4) =~= p.channels());
                lemma_channels_sum(p);
                assert(self@.take(i + 1).drop_last() =~= self@.take(i as int));
                lemma_bytes_sum_nonneg(p.channels());
            }
        }
        proof {
            assert(self@.take(n as int) =~= self@);
        }
        a
    }

    /// Sums every channel with `u32` wraparound, walking the flattened byte
    /// order with a cursor.
    pub fn loop_flat_map(&self) -> (r: u32)
        ensures
            r == wrap(bytes_sum(pixel_bytes(self@))),
    {
        let n = self.pixels.len();
        let ghost flat = pixel_bytes(self@);
        proof {
            lemma_pixel_bytes_layout(self@);
            assert(flat.take(0) =~= Seq::<u8>::empty());
        }
        let mut a: u32 = 0;
        let mut i: usize = 0;
        let mut k: usize = 0;
        while i < n
            invariant
                n == self@.len(),
                flat == pixel_bytes(self@),
                is_rgba_layout(self@, flat),
                i <= n,
                k < 4,
                i == n ==> k == 0,
                a == wrap(bytes_sum(flat.take(4 * i + k))),
            decreases n - i, 4 - k,
        {
            let c = self.pixels[i].channel(k);
            proof {
                lemma_cursor_step(self@, flat, a, i as int, k as int, c);
            }
            a = a.wrapping_add(c as u32);
            if k == 3 {
                k = 0;
                i = i + 1;
            } else {
                k = k + 1;
            }
        }
        proof {
            assert(flat.take(4 * n) =~= flat);
        }
        a
    }
}

} // verus!
