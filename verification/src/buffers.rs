//! Fixed-width scratch buffers: storage for double-width products and for
//! byte-exact encodings that carry one trailing metadata byte.

use vstd::arithmetic::div_mod::{
    lemma_div_denominator, lemma_fundamental_div_mod_converse, lemma_mod_bound,
};
use vstd::arithmetic::power2::{lemma_pow2_adds, lemma_pow2_pos, lemma_pow2_unfold, pow2};
use vstd::prelude::*;

verus! {

/// Two arrays of `N` limbs each, addressed as one array of `2 * N` limbs.
#[derive(Clone, Copy)]
pub struct MulBuffer<const N: usize> {
    pub b0: [u64; N],
    pub b1: [u64; N],
}

impl<const N: usize> View for MulBuffer<N> {
    type V = Seq<u64>;

    /// The logical array: the first half followed by the second.
    open spec fn view(&self) -> Seq<u64> {
        self.b0@ + self.b1@
    }
}

impl<const N: usize> MulBuffer<N> {
    /// The buffer with the halves `b0` and `b1`.
    pub fn new(b0: [u64; N], b1: [u64; N]) -> (r: Self)
        ensures
            r.b0 == b0,
            r.b1 == b1,
            r@ == b0@ + b1@,
    {
        Self { b0, b1 }
    }

    /// The buffer with every limb zero.
    pub fn zeroed() -> (r: Self)
        ensures
            r@ == Seq::new(2 * N as nat, |i: int| 0u64),
    {
        let b: [u64; N] = [0u64; N];
        let r = Self::new(b, b);
        proof {
            vstd::array::axiom_spec_array_fill_for_copy_type::<u64, N>(0u64);
        }
        assert forall|i: int| 0 <= i < 2 * N implies r@[i] == 0u64 by {
            if i < N {
                assert(r@[i] == b@[i]);
            } else {
                assert(r@[i] == b@[i - N]);
            }
        }
        assert(r@ =~= Seq::new(2 * N as nat, |i: int| 0u64));
        r
    }

    /// Limb `index` of the logical array: of the first half below `N`, of
    /// the second from `N` on.
    pub fn get(&self, index: usize) -> (r: &u64)
        requires
            index < 2 * N,
        ensures
            *r == self@[index as int],
    {
        if index < N {
            &self.b0[index]
        } else {
            &self.b1[index - N]
        }
    }

    /// Limb `index` of the logical array, to be written to.
    pub fn get_mut(&mut self, index: usize) -> (r: &mut u64)
        requires
            index < 2 * N,
        ensures
            *r == old(self)@[index as int],
            final(self)@ == old(self)@.update(index as int, *final(r)),
    {
        if index < N {
            &mut self.b0[index]
        } else {
            &mut self.b1[index - N]
        }
    }
}

impl<const N: usize> vstd::std_specs::core::IndexSpecImpl<usize> for MulBuffer<N> {
    open spec fn index_req(&self, index: &usize) -> bool {
        *index < 2 * N
    }
}

impl<const N: usize> core::ops::Index<usize> for MulBuffer<N> {
    type Output = u64;

    fn index(&self, index: usize) -> (r: &u64)
        ensures
            *r == self@[index as int],
    {
        self.get(index)
    }
}

/// A multi-precision integer of `N` limbs, least significant limb first.
#[derive(Clone, Copy)]
pub struct BigInt<const N: usize>(pub [u64; N]);

impl<const N: usize> BigInt<N> {
    /// The number that the limbs stand for.
    pub open spec fn value_spec(&self) -> nat {
        words_value(self.0@)
    }
}

/// Why a read into a buffer stopped early.
#[derive(Clone, Copy, Debug, PartialEq, Eq, Structural)]
pub enum BufferError {
    /// The source held fewer bytes than were asked for.
    UnexpectedEof,
}

/// `N` limbs of eight bytes each and one trailing metadata byte, addressed as
/// one array of `8 * N + 1` bytes.
#[derive(Clone, Copy)]
pub struct SerBuffer<const N: usize> {
    pub buffers: [[u8; 8]; N],
    pub last: u8,
}

impl<const N: usize> View for SerBuffer<N> {
    type V = Seq<u8>;

    /// The logical byte array: the limbs in order, then the metadata byte.
    open spec fn view(&self) -> Seq<u8> {
        Seq::new(
            (8 * N + 1) as nat,
            |i: int|
                if i == 8 * N {
                    self.last
                } else {
                    self.buffers[i / 8][i % 8]
                },
        )
    }
}

/// What `copy_from_u8_slice` leaves in a buffer of `n` limbs that held `before`,
/// given the source `src`: the source overwrites the limb bytes it reaches, and
/// once it runs past the limbs the first byte of its final chunk of eight
/// becomes the metadata byte.
pub open spec fn bytes_after_copy(before: Seq<u8>, src: Seq<u8>, n: int) -> Seq<u8> {
    Seq::new(
        (8 * n + 1) as nat,
        |p: int|
            if p < 8 * n {
                if p < src.len() {
                    src[p]
                } else {
                    before[p]
                }
            } else if src.len() > 8 * n {
                src[8 * ((src.len() - 1) / 8)]
            } else {
                before[p]
            },
    )
}

/// What `write_up_to` appends: the first `num_bytes` bytes of the buffer.
pub open spec fn bytes_written(buffer: Seq<u8>, num_bytes: int) -> Seq<u8> {
    buffer.take(num_bytes)
}

/// Whether a read of `num_bytes` bytes from `src` succeeds: it does where
/// the source holds that many.
pub open spec fn read_result(src: Seq<u8>, num_bytes: int) -> Result<(), BufferError> {
    if src.len() >= num_bytes {
        Ok(())
    } else {
        Err(BufferError::UnexpectedEof)
    }
}

/// What `read_exact_up_to` leaves in a buffer of `n` limbs that held
/// `before`: the front of the source in place of as many bytes, which are
/// `num_bytes` where the source holds them all.
pub open spec fn bytes_after_read(before: Seq<u8>, src: Seq<u8>, n: int, num_bytes: int) -> Seq<
    u8,
> {
    let stored = if src.len() >= num_bytes {
        num_bytes
    } else {
        bytes_stored_before_eof(n, num_bytes, src.len() as int)
    };
    src.take(stored) + before.skip(stored)
}

/// Reading back what was written brings the first `num_bytes` bytes of the
/// written buffer into the reading one, and so the whole buffer where the
/// two agree on the bytes behind them.
pub proof fn lemma_write_read_round_trip<const N: usize>(
    written: SerBuffer<N>,
    reading: SerBuffer<N>,
    num_bytes: int,
)
    requires
        SerBuffer::<N>::accepts(num_bytes),
    ensures
        read_result(bytes_written(written@, num_bytes), num_bytes) == Ok::<(), BufferError>(()),
        bytes_after_read(reading@, bytes_written(written@, num_bytes), N as int, num_bytes)
            == written@.take(num_bytes) + reading@.skip(num_bytes),
        reading@.skip(num_bytes) == written@.skip(num_bytes) ==> bytes_after_read(
            reading@,
            bytes_written(written@, num_bytes),
            N as int,
            num_bytes,
        ) == written@,
{
    let w = bytes_written(written@, num_bytes);
    assert(w.take(num_bytes) =~= w);
    assert(written@.take(num_bytes) + written@.skip(num_bytes) =~= written@);
}

/// How many leading bytes a failed `read_exact_up_to` has stored: the source
/// is consumed in units (each full limb, then the part of the final limb, then
/// the metadata byte) and a unit is stored only if the source holds all of it.
pub open spec fn bytes_stored_before_eof(n: int, num_bytes: int, available: int) -> int {
    if available < 8 * (n - 1) {
        8 * (available / 8)
    } else if num_bytes > 8 * n && available >= 8 * n {
        8 * n
    } else {
        8 * (n - 1)
    }
}

impl<const N: usize> SerBuffer<N> {
    /// Limb `i` read as a little-endian integer.
    pub open spec fn limb(&self, i: int) -> int {
        le_limb(self.buffers[i]@)
    }

    /// Whether `num_bytes` is a length that partial transfers accept.
    pub open spec fn accepts(num_bytes: int) -> bool {
        N >= 1 && 8 * (N - 1) < num_bytes <= 8 * N + 1
    }

    /// The buffer with every byte zero.
    pub fn zeroed() -> (r: Self)
        ensures
            r@ == Seq::new((8 * N + 1) as nat, |i: int| 0u8),
    {
        let limb: [u8; 8] = [0u8; 8];
        let r = Self { buffers: [limb; N], last: 0u8 };
        proof {
            vstd::array::axiom_spec_array_fill_for_copy_type::<u8, 8>(0u8);
            vstd::array::axiom_spec_array_fill_for_copy_type::<[u8; 8], N>(limb);
        }
        assert forall|i: int| 0 <= i < 8 * N + 1 implies r@[i] == 0u8 by {
            if i < 8 * N {
                assert(r.buffers@[i / 8] == limb);
                assert(limb@[i % 8] == 0u8);
            }
        }
        assert(r@ =~= Seq::new((8 * N + 1) as nat, |i: int| 0u8));
        r
    }

    /// Byte `index` of the logical array: byte `index % 8` of limb
    /// `index / 8`, or the metadata byte at `8 * N`.
    pub fn get(&self, index: usize) -> (r: &u8)
        requires
            index <= 8 * N,
        ensures
            *r == self@[index as int],
    {
        let part = index / 8;
        let in_buffer_index = index % 8;
        if part == N {
            &self.last
        } else {
            &self.buffers[part][in_buffer_index]
        }
    }

    /// Byte `index` of the logical array, to be written to.
    pub fn get_mut(&mut self, index: usize) -> (r: &mut u8)
        requires
            index <= 8 * N,
        ensures
            *r == old(self)@[index as int],
            final(self)@ == old(self)@.update(index as int, *final(r)),
    {
        let part = index / 8;
        let in_buffer_index = index % 8;
        if part == N {
            &mut self.last
        } else {
            &mut self.buffers[part][in_buffer_index]
        }
    }

    /// Fills the buffer from `other`, eight bytes to a limb; a chunk that
    /// lands past the last limb gives its first byte to the metadata byte.
    pub fn copy_from_u8_slice(&mut self, other: &[u8])
        ensures
            final(self)@ == bytes_after_copy(old(self)@, other@, N as int),
    {
        let len = other.len();
        let mut j: usize = 0;
        assert(self@ =~= bytes_after_copy(old(self)@, other@.take(0), N as int));
        while j < len
            invariant
                j <= len,
                len == other@.len(),
                self@ == bytes_after_copy(old(self)@, other@.take(j as int), N as int),
            decreases len - j,
        {
            let part = j / 8;
            let offset = j % 8;
            let ghost before = self@;
            if part < N {
                self.buffers[part][offset] = other[j];
                assert(self@ =~= before.update(j as int, other@[j as int]));
            } else if offset == 0 {
                self.last = other[j];
                assert(self@ =~= before.update(8 * N, other@[j as int]));
            }
            j += 1;
            assert(self@ =~= bytes_after_copy(old(self)@, other@.take(j as int), N as int));
        }
        assert(other@.take(len as int) =~= other@);
    }

    /// Stores each limb of `other` in little-endian byte order; the metadata
    /// byte stays as it is.
    pub fn copy_from_u64_slice(&mut self, other: &[u64; N])
        ensures
            forall|i: int|
                0 <= i < N ==> (#[trigger] final(self).buffers[i])@ == limb_bytes(other[i]),
            forall|i: int| 0 <= i < N ==> #[trigger] final(self).limb(i) == other[i],
            final(self).last == old(self).last,
    {
        let mut i: usize = 0;
        while i < N
            invariant
                i <= N,
                self.last == old(self).last,
                forall|k: int| 0 <= k < i ==> (#[trigger] self.buffers[k])@ == limb_bytes(other[k]),
            decreases N - i,
        {
            self.buffers[i] = u64_to_le_bytes(other[i]);
            i += 1;
        }
        assert forall|k: int| 0 <= k < N implies #[trigger] self.limb(k) == other[k] by {
            lemma_limb_bytes_round_trip(other[k]);
        }
    }

    /// The limbs read as a multi-precision integer; the metadata byte takes
    /// no part.
    pub fn to_bigint(self) -> (r: BigInt<N>)
        ensures
            forall|i: int| 0 <= i < N ==> #[trigger] r.0[i] == self.limb(i),
    {
        let mut limbs: [u64; N] = [0u64; N];
        let mut i: usize = 0;
        while i < N
            invariant
                i <= N,
                forall|k: int| 0 <= k < i ==> #[trigger] limbs[k] == self.limb(k),
            decreases N - i,
        {
            limbs[i] = u64_from_le_bytes(&self.buffers[i]);
            i += 1;
        }
        BigInt(limbs)
    }

    /// Appends the first `num_bytes` bytes of the buffer to `other`: every
    /// limb but the last in full, of the last limb as many bytes as are left,
    /// and the metadata byte only when `num_bytes` reaches past the limbs.
    pub fn write_up_to(&self, other: &mut Vec<u8>, num_bytes: usize)
        requires
            Self::accepts(num_bytes as int),
        ensures
            final(other)@ == old(other)@ + bytes_written(self@, num_bytes as int),
    {
        let mut i: usize = 0;
        assert(other@ =~= old(other)@ + self@.take(0));
        while i < N - 1
            invariant
                N >= 1,
                i <= N - 1,
                8 * (N - 1) < num_bytes,
                other@ == old(other)@ + self@.take(8 * i),
            decreases N - 1 - i,
        {
            let mut k: usize = 0;
            while k < 8
                invariant
                    i < N - 1,
                    k <= 8,
                    8 * (N - 1) < num_bytes,
                    other@ == old(other)@ + self@.take(8 * i + k),
                decreases 8 - k,
            {
                other.push(self.buffers[i][k]);
                assert(self@[8 * i + k] == self.buffers[i as int][k as int]);
                assert(self@.take(8 * i + k + 1) =~= self@.take(8 * i + k).push(self@[8 * i + k]));
                k += 1;
                assert(other@ =~= old(other)@ + self@.take(8 * i + k));
            }
            i += 1;
        }
        let remaining_bytes = num_bytes - 8 * (N - 1);
        let write_last_byte = remaining_bytes > 8;
        let num_last_limb_bytes: usize = if remaining_bytes < 8 {
            remaining_bytes
        } else {
            8
        };
        let mut k: usize = 0;
        while k < num_last_limb_bytes
            invariant
                N >= 1,
                k <= num_last_limb_bytes <= 8,
                other@ == old(other)@ + self@.take(8 * (N - 1) + k),
            decreases num_last_limb_bytes - k,
        {
            other.push(self.buffers[N - 1][k]);
            assert(self@[8 * (N - 1) + k] == self.buffers[N - 1][k as int]);
            assert(self@.take(8 * (N - 1) + k + 1) =~= self@.take(8 * (N - 1) + k).push(
                self@[8 * (N - 1) + k],
            ));
            k += 1;
            assert(other@ =~= old(other)@ + self@.take(8 * (N - 1) + k));
        }
        if write_last_byte {
            other.push(self.last);
            assert(other@ =~= old(other)@ + self@.take(num_bytes as int));
        }
    }

    /// Fills the first `num_bytes` bytes of the buffer from the front of
    /// `other` and leaves the rest as it is. A source that is too short stops
    /// the read at the first unit it cannot fill.
    pub fn read_exact_up_to(&mut self, other: &[u8], num_bytes: usize) -> (r: Result<
        (),
        BufferError,
    >)
        requires
            Self::accepts(num_bytes as int),
        ensures
            r == read_result(other@, num_bytes as int),
            final(self)@ == bytes_after_read(old(self)@, other@, N as int, num_bytes as int),
    {
        let len = other.len();
        let mut i: usize = 0;
        assert(self@ =~= other@.take(0) + old(self)@.skip(0));
        while i < N - 1
            invariant
                N >= 1,
                i <= N - 1,
                len == other@.len(),
                8 * i <= len,
                8 * (N - 1) < num_bytes,
                self@ == other@.take(8 * i) + old(self)@.skip(8 * i),
            decreases N - 1 - i,
        {
            if len - 8 * i < 8 {
                return Err(BufferError::UnexpectedEof);
            }
            let mut k: usize = 0;
            while k < 8
                invariant
                    i < N - 1,
                    k <= 8,
                    len == other@.len(),
                    8 * i + 8 <= len,
                    self@ == other@.take(8 * i + k) + old(self)@.skip(8 * i + k),
                decreases 8 - k,
            {
                let ghost before = self@;
                self.buffers[i][k] = other[8 * i + k];
                assert(self@ =~= before.update(8 * i + k, other@[8 * i + k]));
                k += 1;
                assert(self@ =~= other@.take(8 * i + k) + old(self)@.skip(8 * i + k));
            }
            i += 1;
        }
        let remaining_bytes = num_bytes - 8 * (N - 1);
        let write_last_byte = remaining_bytes > 8;
        let num_last_limb_bytes: usize = if remaining_bytes < 8 {
            remaining_bytes
        } else {
            8
        };
        if len - 8 * (N - 1) < num_last_limb_bytes {
            return Err(BufferError::UnexpectedEof);
        }
        let mut k: usize = 0;
        while k < num_last_limb_bytes
            invariant
                N >= 1,
                k <= num_last_limb_bytes <= 8,
                len == other@.len(),
                8 * (N - 1) + num_last_limb_bytes <= len,
                self@ == other@.take(8 * (N - 1) + k) + old(self)@.skip(8 * (N - 1) + k),
            decreases num_last_limb_bytes - k,
        {
            let ghost before = self@;
            self.buffers[N - 1][k] = other[8 * (N - 1) + k];
            assert(self@ =~= before.update(8 * (N - 1) + k, other@[8 * (N - 1) + k]));
            k += 1;
            assert(self@ =~= other@.take(8 * (N - 1) + k) + old(self)@.skip(8 * (N - 1) + k));
        }
        if write_last_byte {
            if len - 8 * (N - 1) < 9 {
                return Err(BufferError::UnexpectedEof);
            }
            let ghost before = self@;
            self.last = other[8 * (N - 1) + 8];
            assert(self@ =~= before.update(8 * N, other@[8 * N]));
            assert(self@ =~= other@.take(num_bytes as int) + old(self)@.skip(num_bytes as int));
        }
        Ok(())
    }
}

impl<const N: usize> vstd::std_specs::core::IndexSpecImpl<usize> for SerBuffer<N> {
    open spec fn index_req(&self, index: &usize) -> bool {
        *index <= 8 * N
    }
}

impl<const N: usize> core::ops::Index<usize> for SerBuffer<N> {
    type Output = u8;

    fn index(&self, index: usize) -> (r: &u8)
        ensures
            *r == self@[index as int],
    {
        self.get(index)
    }
}

/// Whether bit `b` of `w` is set, where bit 0 is the least significant one.
pub open spec fn word_bit(w: u64, b: int) -> bool {
    (w >> (b as u64)) & 1 == 1
}

/// The leading zeros of a word end at its highest set bit: that bit is set
/// where the word is not zero, and no bit above it is.
pub proof fn lemma_highest_bit(w: u64)
    ensures
        0 <= vstd::std_specs::bits::u64_leading_zeros(w) <= 64,
        w != 0 ==> word_bit(w, 63 - vstd::std_specs::bits::u64_leading_zeros(w)),
        forall|b: int|
            64 - vstd::std_specs::bits::u64_leading_zeros(w) <= b < 64 ==> !word_bit(w, b),
{
    let lz = vstd::std_specs::bits::u64_leading_zeros(w);
    vstd::std_specs::bits::axiom_u64_leading_zeros(w);
    if w != 0 {
        let k = (63 - lz) as u64;
        assert((w >> k) & 1 != 0 ==> (w >> k) & 1 == 1) by (bit_vector);
    }
    assert forall|b: int| 64 - lz <= b < 64 implies !word_bit(w, b) by {
        let j = b as u64;
        assert((w >> j) & 1u64 == 0u64);
    }
}

/// The number that the words stand for, the first of them counting least.
pub open spec fn words_value(w: Seq<u64>) -> nat
    decreases w.len(),
{
    if w.len() == 0 {
        0
    } else {
        w[0] as nat + pow2(64) * words_value(w.drop_first())
    }
}

/// A bit of a word is the matching binary digit of the word.
pub proof fn lemma_word_bit_is_digit(w: u64, b: nat)
    requires
        b < 64,
    ensures
        word_bit(w, b as int) == ((w as nat / pow2(b)) % 2 == 1),
{
    let shift = b as u64;
    vstd::bits::lemma_u64_shr_is_div(w, shift);
    let y = w >> shift;
    assert(y & 1 == y % 2) by (bit_vector);
}

/// Bit `i` of the words, taken from word `i / 64`, is the binary digit `i`
/// of the number that they stand for.
pub proof fn lemma_bit_is_digit(w: Seq<u64>, i: nat)
    requires
        i < 64 * w.len(),
    ensures
        word_bit(w[i as int / 64], i as int % 64) == ((words_value(w) / pow2(i)) % 2 == 1),
    decreases w.len(),
{
    let rest = w.drop_first();
    let low = w[0] as nat;
    let high = words_value(rest);
    let value = words_value(w);
    lemma_pow2_pos(i);
    lemma_pow2_pos(64);
    if i < 64 {
        let up = (64 - i) as nat;
        lemma_word_bit_is_digit(w[0], i);
        lemma_pow2_adds(i, up);
        lemma_pow2_pos(up);
        lemma_pow2_unfold(up);
        let half = pow2((up - 1) as nat);
        // value == low + pow2(i) * (pow2(up) * high), and pow2(up) is even
        let q = low / pow2(i);
        let r = low % pow2(i);
        lemma_mod_bound(low as int, pow2(i) as int);
        assert(low == pow2(i) * q + r) by {
            vstd::arithmetic::div_mod::lemma_fundamental_div_mod(low as int, pow2(i) as int);
        }
        let k = pow2(up) * high;
        assert(value == (q + k) * pow2(i) + r) by (nonlinear_arith)
            requires
                value == low + pow2(64) * high,
                pow2(64) == pow2(i) * pow2(up),
                low == pow2(i) * q + r,
                k == pow2(up) * high,
        ;
        lemma_fundamental_div_mod_converse(value as int, pow2(i) as int, (q + k) as int, r as int);
        assert(k == 2 * (half * high)) by (nonlinear_arith)
            requires
                k == pow2(up) * high,
                pow2(up) == 2 * half,
        ;
        assert((q + k) % 2 == q % 2);
    } else {
        let j = (i - 64) as nat;
        lemma_bit_is_digit(rest, j);
        lemma_pow2_adds(64, j);
        lemma_pow2_pos(j);
        lemma_div_denominator(value as int, pow2(64) as int, pow2(j) as int);
        assert(low < pow2(64)) by {
            vstd::arithmetic::power2::lemma2_to64();
        }
        assert(value == high * pow2(64) + low) by (nonlinear_arith)
            requires
                value == low + pow2(64) * high,
        ;
        lemma_fundamental_div_mod_converse(value as int, pow2(64) as int, high as int, low as int);
        assert(rest[j as int / 64] == w[i as int / 64]);
    }
}

/// One more word at the top adds its value at the weight of the words
/// below it.
pub proof fn lemma_value_of_push(w: Seq<u64>, top: u64)
    ensures
        words_value(w.push(top)) == words_value(w) + pow2(64 * w.len()) * top,
    decreases w.len(),
{
    let all = w.push(top);
    if w.len() == 0 {
        assert(all.drop_first() =~= Seq::<u64>::empty());
        assert(pow2(0) == 1) by {
            vstd::arithmetic::power2::lemma2_to64();
        }
        assert(words_value(all.drop_first()) == 0);
    } else {
        let rest = w.drop_first();
        lemma_value_of_push(rest, top);
        assert(all.drop_first() =~= rest.push(top));
        lemma_pow2_adds(64, 64 * rest.len());
        assert(pow2(64) * (words_value(rest) + pow2(64 * rest.len()) * top) == pow2(64)
            * words_value(rest) + pow2(64 * w.len()) * top) by (nonlinear_arith)
            requires
                pow2(64 * w.len()) == pow2(64) * pow2(64 * rest.len()),
        ;
    }
}

/// The words stand for a number below two to the power of their bits.
pub proof fn lemma_value_bound(w: Seq<u64>)
    ensures
        words_value(w) < pow2(64 * w.len()),
    decreases w.len(),
{
    vstd::arithmetic::power2::lemma2_to64();
    if w.len() > 0 {
        let rest = w.drop_first();
        lemma_value_bound(rest);
        lemma_pow2_adds(64, 64 * rest.len());
        assert(w[0] as nat + pow2(64) * words_value(rest) < pow2(64) * pow2(64 * rest.len()))
            by (nonlinear_arith)
            requires
                w[0] < pow2(64),
                words_value(rest) < pow2(64 * rest.len()),
        ;
    }
}

/// The bit length that `num_bits` gives bounds the number: with `below` the
/// words under the trailing word `top`, the number is below two to the
/// power of the bit length, and at least half of that where `top` is not
/// zero.
pub proof fn lemma_bit_length(below: Seq<u64>, top: u64)
    ensures
        ({
            let zeros = vstd::std_specs::bits::u64_leading_zeros(top);
            let bits = (64 * below.len() + 64 - zeros) as nat;
            let value = words_value(below.push(top));
            &&& value < pow2(bits)
            &&& top != 0 ==> bits >= 1 && value >= pow2((bits - 1) as nat)
        }),
{
    let lz = vstd::std_specs::bits::u64_leading_zeros(top);
    let width = (64 - lz) as nat;
    let base = 64 * below.len();
    let value = words_value(below.push(top));
    vstd::std_specs::bits::axiom_u64_leading_zeros(top);
    lemma_value_of_push(below, top);
    lemma_value_bound(below);
    lemma_pow2_adds(base, width);
    lemma_pow2_pos(base);
    lemma_pow2_pos(width);
    // top < pow2(width)
    assert(top < pow2(width)) by {
        if width < 64 {
            let shift = width as u64;
            vstd::bits::lemma_u64_shr_is_div(top, shift);
            assert(top >> shift == 0);
            lemma_mod_bound(top as int, pow2(width) as int);
            vstd::arithmetic::div_mod::lemma_fundamental_div_mod(top as int, pow2(width) as int);
        } else {
            vstd::arithmetic::power2::lemma2_to64();
        }
    }
    assert(value < pow2(base) * pow2(width)) by (nonlinear_arith)
        requires
            value == words_value(below) + pow2(base) * top,
            words_value(below) < pow2(base),
            top < pow2(width),
    ;
    if top != 0 {
        let high = (width - 1) as nat;
        let shift = high as u64;
        vstd::bits::lemma_u64_shr_is_div(top, shift);
        let y = top >> shift;
        assert(y & 1 != 0 ==> y >= 1) by (bit_vector);
        lemma_pow2_pos(high);
        assert(top >= pow2(high)) by {
            vstd::arithmetic::div_mod::lemma_fundamental_div_mod(top as int, pow2(high) as int);
            lemma_mod_bound(top as int, pow2(high) as int);
            assert(top as nat / pow2(high) >= 1);
            assert(pow2(high) * (top as nat / pow2(high)) >= pow2(high)) by (nonlinear_arith)
                requires
                    top as nat / pow2(high) >= 1,
                    pow2(high) > 0,
            ;
        }
        lemma_pow2_adds(base, high);
        assert(value >= pow2(base) * pow2(high)) by (nonlinear_arith)
            requires
                value == words_value(below) + pow2(base) * top,
                top >= pow2(high),
                pow2(base) > 0,
        ;
    }
}

/// A read-only view of `N` limbs and one trailing word as a string of bits.
pub struct RBuffer<const N: usize>(pub [u64; N], pub u64);

impl<const N: usize> View for RBuffer<N> {
    type V = Seq<u64>;

    /// The words in order of significance: the limbs, then the trailing word.
    open spec fn view(&self) -> Seq<u64> {
        self.0@.push(self.1)
    }
}

impl<const N: usize> RBuffer<N> {
    /// The bit length of the number, counted up to the highest set bit of
    /// the trailing word: the number is below two to that power, and at
    /// least half of it where the trailing word is not zero.
    pub fn num_bits(&self) -> (r: u32)
        requires
            64 * N + 64 <= u32::MAX,
        ensures
            r == 64 * N + 64 - vstd::std_specs::bits::u64_leading_zeros(self.1),
            64 * N <= r <= 64 * N + 64,
            r > 64 * N ==> word_bit(self.1, r - 1 - 64 * N),
            forall|b: int| r - 64 * N <= b < 64 ==> !word_bit(self.1, b),
            words_value(self@) < pow2(r as nat),
            self.1 != 0 ==> words_value(self@) >= pow2((r - 1) as nat),
    {
        proof {
            lemma_highest_bit(self.1);
            lemma_bit_length(self.0@, self.1);
        }
        (N * 64) as u32 + (64 - self.1.leading_zeros())
    }

    /// Bit `i` of the number, where bit 0 is the least significant one: the
    /// binary digit of weight `2^i`.
    pub fn get_bit(&self, i: usize) -> (r: bool)
        requires
            i < 64 * (N + 1),
        ensures
            r == word_bit(self@[i as int / 64], i as int % 64),
            r == ((words_value(self@) / pow2(i as nat)) % 2 == 1),
    {
        proof {
            lemma_bit_is_digit(self@, i as nat);
        }
        let d = i / 64;
        let b = i % 64;
        if d == N {
            (self.1 >> b) & 1 == 1
        } else {
            (self.0[d] >> b) & 1 == 1
        }
    }
}

/// A read-only view of two arrays of `N` limbs and one trailing word as a
/// string of bits.
pub struct R2Buffer<const N: usize>(pub [u64; N], pub [u64; N], pub u64);

impl<const N: usize> View for R2Buffer<N> {
    type V = Seq<u64>;

    /// The words in order of significance: the first array, the second, then
    /// the trailing word.
    open spec fn view(&self) -> Seq<u64> {
        (self.0@ + self.1@).push(self.2)
    }
}

impl<const N: usize> R2Buffer<N> {
    /// The bit length of the number, counted up to the highest set bit of
    /// the trailing word: the number is below two to that power, and at
    /// least half of it where the trailing word is not zero.
    pub fn num_bits(&self) -> (r: u32)
        requires
            128 * N + 64 <= u32::MAX,
        ensures
            r == 128 * N + 64 - vstd::std_specs::bits::u64_leading_zeros(self.2),
            128 * N <= r <= 128 * N + 64,
            r > 128 * N ==> word_bit(self.2, r - 1 - 128 * N),
            forall|b: int| r - 128 * N <= b < 64 ==> !word_bit(self.2, b),
            words_value(self@) < pow2(r as nat),
            self.2 != 0 ==> words_value(self@) >= pow2((r - 1) as nat),
    {
        proof {
            lemma_highest_bit(self.2);
            lemma_bit_length(self.0@ + self.1@, self.2);
        }
        ((2 * N) * 64) as u32 + (64 - self.2.leading_zeros())
    }

    /// Bit `i` of the number, where bit 0 is the least significant one: the
    /// binary digit of weight `2^i`.
    pub fn get_bit(&self, i: usize) -> (r: bool)
        requires
            i < 64 * (2 * N + 1),
        ensures
            r == word_bit(self@[i as int / 64], i as int % 64),
            r == ((words_value(self@) / pow2(i as nat)) % 2 == 1),
    {
        proof {
            lemma_bit_is_digit(self@, i as nat);
        }
        let d = i / 64;
        let b = i % 64;
        if d >= N {
            if d - N == N {
                (self.2 >> b) & 1 == 1
            } else {
                (self.1[d - N] >> b) & 1 == 1
            }
        } else {
            (self.0[d] >> b) & 1 == 1
        }
    }
}

/// Byte `k` of `x`, where byte 0 is the least significant one.
pub open spec fn limb_byte(x: u64, k: int) -> u8 {
    ((x >> ((8 * k) as u64)) & 0xff) as u8
}

/// The integer whose little-endian encoding is the first eight bytes of `b`.
pub open spec fn le_limb(b: Seq<u8>) -> int {
    b[0] + 0x100 * b[1] + 0x1_0000 * b[2] + 0x100_0000 * b[3] + 0x1_0000_0000 * b[4]
        + 0x100_0000_0000 * b[5] + 0x1_0000_0000_0000 * b[6] + 0x100_0000_0000_0000 * b[7]
}

/// The eight bytes of `x` in little-endian order.
pub open spec fn limb_bytes(x: u64) -> Seq<u8> {
    Seq::new(8, |k: int| limb_byte(x, k))
}

/// Decoding the little-endian bytes of a limb gives the limb back.
pub proof fn lemma_limb_bytes_round_trip(x: u64)
    ensures
        le_limb(limb_bytes(x)) == x,
{
    assert(le_limb(limb_bytes(x)) == x) by {
        let b = limb_bytes(x);
        assert(b[0] == ((x >> 0u64) & 0xff) as u8);
        assert(b[1] == ((x >> 8u64) & 0xff) as u8);
        assert(b[2] == ((x >> 16u64) & 0xff) as u8);
        assert(b[3] == ((x >> 24u64) & 0xff) as u8);
        assert(b[4] == ((x >> 32u64) & 0xff) as u8);
        assert(b[5] == ((x >> 40u64) & 0xff) as u8);
        assert(b[6] == ((x >> 48u64) & 0xff) as u8);
        assert(b[7] == ((x >> 56u64) & 0xff) as u8);
        assert(x == ((x >> 0u64) & 0xff) as u8 + 0x100 * (((x >> 8u64) & 0xff) as u8) + 0x1_0000 * (((x
            >> 16u64) & 0xff) as u8) + 0x100_0000 * (((x >> 24u64) & 0xff) as u8) + 0x1_0000_0000 * (((x
            >> 32u64) & 0xff) as u8) + 0x100_0000_0000 * (((x >> 40u64) & 0xff) as u8)
            + 0x1_0000_0000_0000 * (((x >> 48u64) & 0xff) as u8) + 0x100_0000_0000_0000 * (((x
            >> 56u64) & 0xff) as u8)) by (bit_vector);
    }
}

/// The little-endian encoding of one limb.
pub fn u64_to_le_bytes(x: u64) -> (r: [u8; 8])
    ensures
        r@ == limb_bytes(x),
{
    let r: [u8; 8] = [
        (x & 0xff) as u8,
        ((x >> 8) & 0xff) as u8,
        ((x >> 16) & 0xff) as u8,
        ((x >> 24) & 0xff) as u8,
        ((x >> 32) & 0xff) as u8,
        ((x >> 40) & 0xff) as u8,
        ((x >> 48) & 0xff) as u8,
        ((x >> 56) & 0xff) as u8,
    ];
    proof {
        assert(x & 0xff == (x >> 0u64) & 0xff) by (bit_vector);
        assert(r@ =~= limb_bytes(x));
    }
    r
}

/// The limb that eight little-endian bytes encode.
pub fn u64_from_le_bytes(b: &[u8; 8]) -> (r: u64)
    ensures
        r == le_limb(b@),
{
    let b0: u64 = b[0] as u64;
    let b1: u64 = b[1] as u64;
    let b2: u64 = b[2] as u64;
    let b3: u64 = b[3] as u64;
    let b4: u64 = b[4] as u64;
    let b5: u64 = b[5] as u64;
    let b6: u64 = b[6] as u64;
    let b7: u64 = b[7] as u64;
    let r: u64 = b0 | (b1 << 8) | (b2 << 16) | (b3 << 24) | (b4 << 32) | (b5 << 40) | (b6 << 48) | (b7
        << 56);
    assert(r == b0 + 0x100 * b1 + 0x1_0000 * b2 + 0x100_0000 * b3 + 0x1_0000_0000 * b4
        + 0x100_0000_0000 * b5 + 0x1_0000_0000_0000 * b6 + 0x100_0000_0000_0000 * b7) by (bit_vector)
        requires
            r == b0 | (b1 << 8) | (b2 << 16) | (b3 << 24) | (b4 << 32) | (b5 << 40) | (b6 << 48) | (b7
                << 56),
            b0 < 0x100,
            b1 < 0x100,
            b2 < 0x100,
            b3 < 0x100,
            b4 < 0x100,
            b5 < 0x100,
            b6 < 0x100,
            b7 < 0x100,
    ;
    r
}

} // verus!
