//! Bit-packed gene storage.
//!
//! A [`Genes`] value is a fixed-length string of single-bit genes, packed eight
//! to a byte with gene `i` in bit `i % 8` of byte `i / 8`. Its mathematical
//! content is a [`Genome`]; every contract in this module is stated over it.

use vstd::prelude::*;

verus! {

/// Bit `pos` of `byte`, counted from the least significant bit.
pub open spec fn bit_of(byte: u8, pos: u8) -> u8 {
    (byte >> pos) & 1
}

/// `byte` with bit `pos` cleared when `value` is 0 and set otherwise.
pub open spec fn put_bit(byte: u8, pos: u8, value: u8) -> u8 {
    if value == 0 {
        byte & !(1u8 << pos)
    } else {
        byte | (1u8 << pos)
    }
}

/// The number of bytes needed to hold `bits` genes.
pub open spec fn bytes_for(bits: nat) -> nat {
    (bits + 7) / 8
}

/// 256 to the power `k`: the number of values that `k` bytes can take.
pub open spec fn radix_pow(k: nat) -> nat
    decreases k,
{
    if k == 0 {
        1
    } else {
        256 * radix_pow((k - 1) as nat)
    }
}

/// The unsigned value of `bytes`, read with the most significant byte first.
pub open spec fn be_value(bytes: Seq<u8>) -> nat
    decreases bytes.len(),
{
    if bytes.len() == 0 {
        0
    } else {
        256 * be_value(bytes.drop_last()) + bytes.last() as nat
    }
}

/// The mathematical content of a gene buffer: its backing bytes and the number
/// of genes it holds.
pub struct Genome {
    pub bytes: Seq<u8>,
    pub len: nat,
}

impl Genome {
    /// The buffer of `n` genes that are all 0.
    pub open spec fn zeroed(n: nat) -> Genome {
        Genome { bytes: Seq::new(bytes_for(n), |k: int| 0u8), len: n }
    }

    /// The buffer whose genes are all the bits of `bytes`.
    pub open spec fn of_bytes(bytes: Seq<u8>) -> Genome {
        Genome { bytes, len: 8 * bytes.len() }
    }

    /// Every gene has its place in the backing bytes. The buffers that
    /// [`Genes::new`] and [`Genes::new_with_genes`] make are such, and no
    /// operation changes that.
    pub open spec fn wf(self) -> bool {
        self.len <= 8 * self.bytes.len()
    }

    /// Bit `i` of the backing bytes, whether a gene stands there or not.
    pub open spec fn raw_bit(self, i: int) -> u8 {
        bit_of(self.bytes[i / 8], (i % 8) as u8)
    }

    /// Every bit of the backing bytes that stands for no gene is 0, so that
    /// the words read from the buffer hold genes and zeros only.
    pub open spec fn tail_is_clear(self) -> bool {
        forall|i: int| self.len <= i < 8 * self.bytes.len() ==> #[trigger] self.raw_bit(i) == 0
    }

    /// Gene `i` exists: it lies below the gene count and inside the backing
    /// bytes.
    pub open spec fn holds(self, i: int) -> bool {
        0 <= i < self.len && i / 8 < self.bytes.len()
    }

    /// The value of gene `i`. A gene that does not exist reads as 0.
    pub open spec fn bit(self, i: int) -> u8 {
        if self.holds(i) {
            bit_of(self.bytes[i / 8], (i % 8) as u8)
        } else {
            0
        }
    }

    /// The buffer with gene `i` written: 0 when `value` is 0, else 1. Writing a
    /// gene that does not exist changes nothing.
    pub open spec fn with_bit(self, i: int, value: u8) -> Genome {
        if self.holds(i) {
            Genome {
                bytes: self.bytes.update(i / 8, put_bit(self.bytes[i / 8], (i % 8) as u8, value)),
                len: self.len,
            }
        } else {
            self
        }
    }

    /// The buffer with gene `i` inverted.
    pub open spec fn flipped(self, i: int) -> Genome {
        self.with_bit(
            i,
            if self.bit(i) == 0 {
                1
            } else {
                0
            },
        )
    }

    /// The buffer with every byte zeroed; its size is kept.
    pub open spec fn wiped(self) -> Genome {
        Genome { bytes: Seq::new(self.bytes.len(), |k: int| 0u8), len: self.len }
    }

    /// The unsigned integer in slot `slot` of the view that cuts the backing
    /// bytes into words of `width` bytes, most significant byte first. A slot
    /// that reaches past the last byte reads as 0.
    pub open spec fn word(self, width: nat, slot: nat) -> nat {
        if (slot + 1) * width <= self.bytes.len() {
            be_value(self.bytes.subrange((slot * width) as int, ((slot + 1) * width) as int))
        } else {
            0
        }
    }
}

/// A fixed-length string of genes, packed eight to a byte.
pub struct Genes {
    inner: Vec<u8>,
    bit_count: u128,
}

impl View for Genes {
    type V = Genome;

    closed spec fn view(&self) -> Genome {
        Genome { bytes: self.inner@, len: self.bit_count as nat }
    }
}

impl Clone for Genes {
    fn clone(&self) -> (r: Self)
        ensures
            r@ == self@,
    {
        let inner = self.inner.clone();
        assert(inner@ =~= self.inner@);
        Genes { inner, bit_count: self.bit_count }
    }
}

impl Genes {
    /// Creates `n` genes, all 0, in the fewest bytes that hold them.
    pub fn new(n: u32) -> (r: Genes)
        ensures
            r@ == Genome::zeroed(n as nat),
    {
        let whole: u32 = n / 8;
        let count: u32 = if n % 8 == 0 {
            whole
        } else {
            whole + 1
        };
        let inner = vec![0u8; count as usize];
        assert(inner@ =~= Genome::zeroed(n as nat).bytes);
        Genes { inner, bit_count: n as u128 }
    }

    /// Wraps `genes` as they are: every bit of every byte is a gene.
    pub fn new_with_genes(genes: Vec<u8>) -> (r: Genes)
        ensures
            r@ == Genome::of_bytes(genes@),
    {
        let bit_count: u128 = (genes.len() as u128) * 8;
        Genes { inner: genes, bit_count }
    }

    /// The backing bytes.
    pub fn as_bytes(&self) -> (r: &[u8])
        ensures
            r@ == self@.bytes,
    {
        self.inner.as_slice()
    }

    /// Reads gene `idx`: 0 or 1, and 0 where the gene does not exist.
    pub fn get(&self, idx: u32) -> (r: u8)
        ensures
            r == self@.bit(idx as int),
    {
        let bucket = (idx / 8) as usize;
        let loc = (idx % 8) as u8;
        if (idx as u128) < self.bit_count && bucket < self.inner.len() {
            (self.inner[bucket] >> loc) & 1
        } else {
            0
        }
    }

    /// Writes gene `idx`: 0 when `value` is 0, else 1. Nothing changes where the
    /// gene does not exist.
    pub fn assign(&mut self, idx: u32, value: u8)
        ensures
            final(self)@ == old(self)@.with_bit(idx as int, value),
    {
        let bucket = (idx / 8) as usize;
        let loc = (idx % 8) as u8;
        if (idx as u128) < self.bit_count && bucket < self.inner.len() {
            let byte = self.inner[bucket];
            let changed = if value == 0 {
                byte & !(1u8 << loc)
            } else {
                byte | (1u8 << loc)
            };
            self.inner[bucket] = changed;
            assert(self.inner@ =~= old(self).inner@.update(bucket as int, changed));
        }
    }

    /// Sets gene `idx` to 1.
    pub fn set(&mut self, idx: u32)
        ensures
            final(self)@ == old(self)@.with_bit(idx as int, 1),
    {
        self.assign(idx, 1);
    }

    /// Sets gene `idx` to 0.
    pub fn clear(&mut self, idx: u32)
        ensures
            final(self)@ == old(self)@.with_bit(idx as int, 0),
    {
        self.assign(idx, 0);
    }

    /// Inverts gene `idx`.
    pub fn flip(&mut self, idx: u32)
        ensures
            final(self)@ == old(self)@.flipped(idx as int),
    {
        let bucket = (idx / 8) as usize;
        let loc = (idx % 8) as u8;
        if (idx as u128) < self.bit_count && bucket < self.inner.len() {
            let byte = self.inner[bucket];
            let changed = byte ^ (1u8 << loc);
            assert(changed == put_bit(
                byte,
                loc,
                if bit_of(byte, loc) == 0 {
                    1u8
                } else {
                    0u8
                },
            )) by (bit_vector)
                requires
                    changed == byte ^ (1u8 << loc),
                    loc < 8,
            ;
            self.inner[bucket] = changed;
            assert(self.inner@ =~= old(self).inner@.update(bucket as int, changed));
        }
    }

    /// Resets every byte to 0.
    pub fn wipe(&mut self)
        ensures
            final(self)@ == old(self)@.wiped(),
    {
        let n = self.inner.len();
        let mut k: usize = 0;
        while k < n
            invariant
                k <= n,
                n == self.inner@.len(),
                self.bit_count == old(self).bit_count,
                forall|j: int| 0 <= j < k ==> self.inner@[j] == 0u8,
            decreases n - k,
        {
            self.inner[k] = 0;
            k += 1;
        }
        assert(self.inner@ =~= old(self)@.wiped().bytes);
    }

    /// Reads the word of `width` bytes in slot `slot`, most significant byte
    /// first; 0 where the slot reaches past the last byte.
    fn read_word(&self, slot: usize, width: usize) -> (r: u128)
        requires
            1 <= width <= 16,
        ensures
            r == self@.word(width as nat, slot as nat),
            r < radix_pow(width as nat),
    {
        proof {
            lemma_radix_pow_positive(width as nat);
            let (s, w) = (slot as nat, width as nat);
            assert((s + 1) * w == s * w + w) by (nonlinear_arith);
            assert(s * w == slot * width);
        }
        let len = self.inner.len();
        let start = match slot.checked_mul(width) {
            Some(start) => start,
            None => {
                return 0;
            },
        };
        let end = match start.checked_add(width) {
            Some(end) => end,
            None => {
                return 0;
            },
        };
        if end > len {
            return 0;
        }
        let mut acc: u128 = 0;
        let mut k: usize = 0;
        while k < width
            invariant
                k <= width <= 16,
                end == start + width,
                end <= self.inner@.len(),
                acc == be_value(self.inner@.subrange(start as int, start + k)),
                acc < radix_pow(k as nat),
            decreases width - k,
        {
            let byte = self.inner[start + k];
            let next = (acc << 8) | (byte as u128);
            proof {
                lemma_radix_pow_increases(k as nat, 15);
                lemma_radix_pow_small();
                assert(next == 256 * acc + byte) by (bit_vector)
                    requires
                        next == (acc << 8) | (byte as u128),
                        acc < 0x0100_0000_0000_0000_0000_0000_0000_0000u128,
                ;
                let longer = self.inner@.subrange(start as int, start + k + 1);
                assert(longer.drop_last() =~= self.inner@.subrange(start as int, start + k));
                assert(longer.last() == byte);
            }
            acc = next;
            k += 1;
        }
        acc
    }

    /// Reads byte `loc`; 0 where the buffer has no such byte.
    pub fn g8(&self, loc: usize) -> (r: u8)
        ensures
            r == self@.word(1, loc as nat),
    {
        if loc < self.inner.len() {
            proof {
                let one = self.inner@.subrange(loc as int, loc + 1);
                assert(one.drop_last() =~= Seq::<u8>::empty());
                reveal_with_fuel(be_value, 2);
            }
            self.inner[loc]
        } else {
            0
        }
    }

    /// Reads the 16-bit word in slot `loc` (bytes `2 * loc` and the next),
    /// most significant byte first; 0 where the slot reaches past the last byte.
    pub fn g16(&self, loc: usize) -> (r: u16)
        ensures
            r == self@.word(2, loc as nat),
    {
        let word = self.read_word(loc, 2);
        proof {
            reveal_with_fuel(radix_pow, 3);
        }
        word as u16
    }

    /// Reads the 32-bit word in slot `loc` (bytes `4 * loc` and the next three),
    /// most significant byte first; 0 where the slot reaches past the last byte.
    pub fn g32(&self, loc: usize) -> (r: u32)
        ensures
            r == self@.word(4, loc as nat),
    {
        let word = self.read_word(loc, 4);
        proof {
            reveal_with_fuel(radix_pow, 5);
        }
        word as u32
    }

    /// Reads the 64-bit word in slot `loc` (bytes `8 * loc` and the next seven),
    /// most significant byte first; 0 where the slot reaches past the last byte.
    pub fn g64(&self, loc: usize) -> (r: u64)
        ensures
            r == self@.word(8, loc as nat),
    {
        let word = self.read_word(loc, 8);
        proof {
            reveal_with_fuel(radix_pow, 9);
        }
        word as u64
    }

    /// Reads the 128-bit word in slot `loc` (bytes `16 * loc` and the next
    /// fifteen), most significant byte first; 0 where the slot reaches past the
    /// last byte.
    pub fn g128(&self, loc: usize) -> (r: u128)
        ensures
            r == self@.word(16, loc as nat),
    {
        self.read_word(loc, 16)
    }
}

/// Every power of 256 is at least 1.
pub proof fn lemma_radix_pow_positive(k: nat)
    ensures
        radix_pow(k) >= 1,
    decreases k,
{
    if k > 0 {
        lemma_radix_pow_positive((k - 1) as nat);
    }
}

/// The powers of 256 grow with the exponent.
pub proof fn lemma_radix_pow_increases(a: nat, b: nat)
    requires
        a <= b,
    ensures
        radix_pow(a) <= radix_pow(b),
    decreases b,
{
    if a < b {
        lemma_radix_pow_increases(a, (b - 1) as nat);
    }
}

/// Fifteen bytes take fewer than 2 to the power 120 values.
proof fn lemma_radix_pow_small()
    ensures
        radix_pow(15) == 0x0100_0000_0000_0000_0000_0000_0000_0000,
{
    reveal_with_fuel(radix_pow, 16);
}

/// Reading bit `q` of a byte after writing its bit `p`.
proof fn lemma_put_then_read(byte: u8, p: u8, q: u8, value: u8)
    by (bit_vector)
    requires
        p < 8,
        q < 8,
    ensures
        bit_of(put_bit(byte, p, value), q) == if p == q {
            if value == 0 {
                0u8
            } else {
                1u8
            }
        } else {
            bit_of(byte, q)
        },
        bit_of(byte, q) == 0 || bit_of(byte, q) == 1,
{
}

/// Inverting bit `p` of a byte twice gives the byte back.
proof fn lemma_invert_twice(byte: u8, p: u8)
    by (bit_vector)
    requires
        p < 8,
    ensures
        ({
            let once = put_bit(
                byte,
                p,
                if bit_of(byte, p) == 0 {
                    1u8
                } else {
                    0u8
                },
            );
            put_bit(
                once,
                p,
                if bit_of(once, p) == 0 {
                    1u8
                } else {
                    0u8
                },
            )
        }) == byte,
{
}

/// A gene reads as 0 or 1.
pub proof fn lemma_bit_is_binary(g: Genome, i: int)
    ensures
        g.bit(i) == 0 || g.bit(i) == 1,
{
    if g.holds(i) {
        lemma_put_then_read(g.bytes[i / 8], (i % 8) as u8, (i % 8) as u8, 0);
    }
}

/// A buffer made for `n` genes is well formed, holds exactly the genes below
/// `n`, and all of them read 0.
pub proof fn law_zeroed(n: nat, i: int)
    ensures
        Genome::zeroed(n).wf(),
        Genome::zeroed(n).len == n,
        Genome::zeroed(n).holds(i) <==> 0 <= i < n,
        Genome::zeroed(n).bit(i) == 0,
{
    if Genome::zeroed(n).holds(i) {
        let pos = (i % 8) as u8;
        assert(bit_of(0u8, pos) == 0) by (bit_vector);
    }
}

/// A buffer made from bytes is well formed and holds eight genes for each
/// byte.
pub proof fn law_of_bytes(bytes: Seq<u8>, i: int)
    ensures
        Genome::of_bytes(bytes).wf(),
        Genome::of_bytes(bytes).holds(i) <==> 0 <= i < 8 * bytes.len(),
{
}

/// A well-formed buffer holds exactly the genes below its gene count.
pub proof fn law_wf_holds(g: Genome, i: int)
    requires
        g.wf(),
    ensures
        g.holds(i) <==> 0 <= i < g.len,
{
}

/// Writing gene `i` keeps the buffer's size, decides what gene `i` reads from
/// then on, and leaves every other gene as it was.
pub proof fn law_write_then_read(g: Genome, i: int, value: u8, j: int)
    ensures
        g.with_bit(i, value).len == g.len,
        g.with_bit(i, value).bytes.len() == g.bytes.len(),
        g.with_bit(i, value).wf() == g.wf(),
        g.with_bit(i, value).holds(j) == g.holds(j),
        g.with_bit(i, value).bit(j) == if j == i && g.holds(i) {
            if value == 0 {
                0u8
            } else {
                1u8
            }
        } else {
            g.bit(j)
        },
{
    if g.holds(i) && g.holds(j) && i / 8 == j / 8 {
        lemma_put_then_read(g.bytes[i / 8], (i % 8) as u8, (j % 8) as u8, value);
    }
}

/// In a buffer of `n` genes, setting a gene below `n` makes it read 1.
pub proof fn law_set_then_get(g: Genome, i: int)
    requires
        g.wf(),
        0 <= i < g.len,
    ensures
        g.with_bit(i, 1).bit(i) == 1,
{
    law_write_then_read(g, i, 1, i);
}

/// In a buffer of `n` genes, clearing a gene below `n` makes it read 0.
pub proof fn law_clear_then_get(g: Genome, i: int)
    requires
        g.wf(),
        0 <= i < g.len,
    ensures
        g.with_bit(i, 0).bit(i) == 0,
{
    law_write_then_read(g, i, 0, i);
}

/// In a buffer of `n` genes, inverting a gene below `n` swaps 0 and 1 there
/// and leaves every other gene as it was.
pub proof fn law_flip_then_get(g: Genome, i: int, j: int)
    requires
        g.wf(),
        0 <= i < g.len,
    ensures
        g.flipped(i).len == g.len,
        g.flipped(i).wf(),
        g.flipped(i).bit(j) == if j == i {
            (1 - g.bit(i)) as u8
        } else {
            g.bit(j)
        },
{
    lemma_bit_is_binary(g, i);
    law_write_then_read(
        g,
        i,
        if g.bit(i) == 0 {
            1
        } else {
            0
        },
        j,
    );
}

/// Inverting the same gene twice restores the buffer, whichever gene it is.
pub proof fn law_flip_twice(g: Genome, i: int)
    ensures
        g.flipped(i).flipped(i) == g,
{
    if g.holds(i) {
        lemma_invert_twice(g.bytes[i / 8], (i % 8) as u8);
        assert(g.flipped(i).flipped(i).bytes =~= g.bytes);
    }
}

/// In a buffer of `n` genes, every index from `n` on reads 0, and setting,
/// clearing or inverting it leaves the whole buffer as it was.
pub proof fn law_past_the_end(g: Genome, i: int, value: u8)
    requires
        i >= g.len,
    ensures
        g.bit(i) == 0,
        g.with_bit(i, value) == g,
        g.flipped(i) == g,
{
}

/// A gene that does not exist, be it past the gene count or outside the
/// backing bytes, reads 0, and writing or inverting it changes nothing.
pub proof fn law_absent_gene(g: Genome, i: int, value: u8)
    requires
        !g.holds(i),
    ensures
        g.bit(i) == 0,
        g.with_bit(i, value) == g,
        g.flipped(i) == g,
{
}

/// A buffer made for `n` genes has nothing but zeros past its genes, and so
/// has a buffer made from bytes, which has no bits past its genes.
pub proof fn law_fresh_tail_is_clear(n: nat, bytes: Seq<u8>)
    ensures
        Genome::zeroed(n).tail_is_clear(),
        Genome::of_bytes(bytes).tail_is_clear(),
{
    let g = Genome::zeroed(n);
    assert forall|i: int| g.len <= i < 8 * g.bytes.len() implies #[trigger] g.raw_bit(i) == 0 by {
        let pos = (i % 8) as u8;
        assert(bit_of(0u8, pos) == 0) by (bit_vector);
    }
}

/// Writing or inverting a gene leaves the bits past the genes as they were:
/// where they were 0 they stay 0.
pub proof fn law_write_keeps_tail(g: Genome, i: int, value: u8)
    requires
        g.tail_is_clear(),
    ensures
        g.with_bit(i, value).tail_is_clear(),
        g.flipped(i).tail_is_clear(),
{
    lemma_with_bit_keeps_tail(g, i, value);
    lemma_with_bit_keeps_tail(
        g,
        i,
        if g.bit(i) == 0 {
            1
        } else {
            0
        },
    );
}

/// Writing a gene leaves the bits past the genes as they were.
proof fn lemma_with_bit_keeps_tail(g: Genome, i: int, value: u8)
    requires
        g.tail_is_clear(),
    ensures
        g.with_bit(i, value).tail_is_clear(),
{
    let w = g.with_bit(i, value);
    assert forall|j: int| w.len <= j < 8 * w.bytes.len() implies #[trigger] w.raw_bit(j) == 0 by {
        assert(g.raw_bit(j) == 0);
        if g.holds(i) && i / 8 == j / 8 {
            lemma_put_then_read(g.bytes[i / 8], (i % 8) as u8, (j % 8) as u8, value);
        }
    }
}

/// A wiped buffer keeps its size and reads 0 everywhere.
pub proof fn law_wiped(g: Genome, i: int)
    ensures
        g.wiped().len == g.len,
        g.wiped().bytes.len() == g.bytes.len(),
        g.wiped().wf() == g.wf(),
        g.wiped().holds(i) == g.holds(i),
        g.wiped().bit(i) == 0,
{
    if g.wiped().holds(i) {
        let pos = (i % 8) as u8;
        assert(bit_of(0u8, pos) == 0) by (bit_vector);
    }
}

/// The word in a slot is below 256 to the power of its width.
pub proof fn law_word_bound(bytes: Seq<u8>)
    ensures
        be_value(bytes) < radix_pow(bytes.len()),
    decreases bytes.len(),
{
    if bytes.len() > 0 {
        law_word_bound(bytes.drop_last());
    }
}

} // verus!
