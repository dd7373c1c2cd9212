use vstd::prelude::*;
use vstd::string::StringSliceAdditionalSpecFns;
use crate::{numbers_to_hex_string, reverse_circular_vec_segment, reversed_segment, hex_concat};

verus! {

/// The state of a knot ring: its elements, the current position, and the skip size reduced
/// modulo the ring's length.
pub type RingState = (Seq<u8>, nat, nat);

/// A ring of `n` elements numbered from zero (modulo 256), at position zero with skip size zero.
pub open spec fn ring_init(n: nat) -> RingState {
    (Seq::new(n, |k: int| (k % 256) as u8), 0, 0)
}

/// One knot: reverse `length` elements from the position, then move forward by the length
/// plus the skip size, and grow the skip size by one.
pub open spec fn advance_state(st: RingState, length: nat) -> RingState {
    let n = st.0.len();
    (
        reversed_segment(st.0, st.1 as int, length as int),
        ((st.1 + length + st.2) as int % (n as int)) as nat,
        ((st.2 + 1) as int % (n as int)) as nat,
    )
}

/// The knots of `ls`, in order.
pub open spec fn run_lengths(st: RingState, ls: Seq<nat>) -> RingState
    decreases ls.len(),
{
    if ls.len() == 0 {
        st
    } else {
        advance_state(run_lengths(st, ls.drop_last()), ls.last())
    }
}

/// `rounds` passes of the knots of `ls`.
pub open spec fn run_rounds(st: RingState, ls: Seq<nat>, rounds: nat) -> RingState
    decreases rounds,
{
    if rounds == 0 {
        st
    } else {
        run_lengths(run_rounds(st, ls, (rounds - 1) as nat), ls)
    }
}

/// The exclusive or of all the bytes.
pub open spec fn xor_all(s: Seq<u8>) -> u8
    decreases s.len(),
{
    if s.len() == 0 {
        0
    } else {
        xor_all(s.drop_last()) ^ s.last()
    }
}

/// The exclusive or of each block of `b` consecutive bytes; the last block may be shorter.
pub open spec fn dense(s: Seq<u8>, b: nat) -> Seq<u8>
    decreases s.len(),
{
    if s.len() == 0 || b == 0 {
        Seq::empty()
    } else if s.len() <= b {
        seq![xor_all(s)]
    } else {
        seq![xor_all(s.take(b as int))] + dense(s.skip(b as int), b)
    }
}

/// The lengths of a knot hash: the input's bytes followed by 17, 31, 73, 47, 23.
pub open spec fn knot_lengths(bytes: Seq<u8>) -> Seq<nat> {
    bytes.map_values(|b: u8| b as nat) + seq![17nat, 31nat, 73nat, 47nat, 23nat]
}

/// The 16-byte knot hash of `bytes`: 64 rounds on a ring of 256, then blocks of 16.
pub open spec fn knot_hash_spec(bytes: Seq<u8>) -> Seq<u8> {
    dense(run_rounds(ring_init(256), knot_lengths(bytes), 64).0, 16)
}

proof fn lemma_wrap_add(a: int, b: int, n: int)
    requires
        0 <= a < n,
        0 <= b < n,
    ensures
        (if a + b >= n {
            a + b - n
        } else {
            a + b
        }) == (a + b) % n,
{
    if a + b >= n {
        vstd::arithmetic::div_mod::lemma_small_mod((a + b - n) as nat, n as nat);
        vstd::arithmetic::div_mod::lemma_mod_add_multiples_vanish(a + b - n, n);
    } else {
        vstd::arithmetic::div_mod::lemma_small_mod((a + b) as nat, n as nat);
    }
}

pub struct Ring {
    ring: Vec<u8>,
    pos: usize,
    skip_size: usize,
}

impl View for Ring {
    type V = RingState;

    closed spec fn view(&self) -> RingState {
        (self.ring@, self.pos as nat, self.skip_size as nat)
    }
}

impl Ring {
    /// The position and the skip size lie within the ring.
    pub closed spec fn wf(&self) -> bool {
        self.pos < self.ring@.len() && self.skip_size < self.ring@.len()
    }

    /// A ring of `length` elements numbered from zero.
    pub fn new(length: u32) -> (r: Ring)
        ensures
            r@ == ring_init(length as nat),
            length > 0 ==> r.wf(),
    {
        let mut ring: Vec<u8> = Vec::new();
        let mut k: u32 = 0;
        while k < length
            invariant
                k <= length,
                ring@ == Seq::new(k as nat, |i: int| (i % 256) as u8),
            decreases length - k,
        {
            ring.push((k % 256) as u8);
            k += 1;
            assert(ring@ =~= Seq::new(k as nat, |i: int| (i % 256) as u8));
        }
        Ring { ring, pos: 0, skip_size: 0 }
    }

    /// Ties one knot of `length`; returns the product of the ring's first two elements.
    pub fn advance(&mut self, length: usize) -> (r: u32)
        requires
            old(self).wf(),
            old(self)@.0.len() >= 2,
            length <= old(self)@.0.len(),
        ensures
            final(self).wf(),
            final(self)@ == advance_state(old(self)@, length as nat),
            r == final(self)@.0[0] as int * final(self)@.0[1] as int,
    {
        let n = self.ring.len();
        reverse_circular_vec_segment(&mut self.ring, self.pos, length);
        let l = length % n;
        let p1 = if self.pos >= n - l {
            self.pos - (n - l)
        } else {
            self.pos + l
        };
        let s = self.skip_size;
        let p2 = if p1 >= n - s {
            p1 - (n - s)
        } else {
            p1 + s
        };
        proof {
            let (p, q) = (self.pos as int, s as int);
            vstd::arithmetic::div_mod::lemma_add_mod_noop(p, length as int, n as int);
            vstd::arithmetic::div_mod::lemma_small_mod(p as nat, n as nat);
            vstd::arithmetic::div_mod::lemma_small_mod(q as nat, n as nat);
            lemma_wrap_add(p, l as int, n as int);
            assert(p1 == (p + length) % (n as int));
            vstd::arithmetic::div_mod::lemma_add_mod_noop(p + length, q, n as int);
            vstd::arithmetic::div_mod::lemma_small_mod(p1 as nat, n as nat);
            lemma_wrap_add(p1 as int, q, n as int);
            assert(p2 == (p1 + q) % (n as int));
        }
        self.pos = p2;
        self.skip_size = if s + 1 == n {
            0
        } else {
            s + 1
        };
        proof {
            if s + 1 < n {
                vstd::arithmetic::div_mod::lemma_small_mod((s + 1) as nat, n as nat);
            } else {
                vstd::arithmetic::div_mod::lemma_mod_self_0(n as int);
            }
        }
        let a = self.ring[0] as u32;
        let b = self.ring[1] as u32;
        assert(a * b <= 255 * 255) by (nonlinear_arith)
            requires
                a <= 255,
                b <= 255,
        ;
        a * b
    }

    /// The exclusive or of each block of `block_size` consecutive elements.
    pub fn reduce(&self, block_size: usize) -> (r: Vec<u8>)
        requires
            block_size > 0,
        ensures
            r@ == dense(self@.0, block_size as nat),
    {
        let ghost s = self.ring@;
        let n = self.ring.len();
        let mut result: Vec<u8> = Vec::new();
        let mut start: usize = 0;
        assert(s.skip(0) =~= s);
        assert(result@ + dense(s, block_size as nat) =~= dense(s, block_size as nat));
        while start < n
            invariant
                s == self.ring@,
                n == s.len(),
                start <= n,
                block_size > 0,
                result@ + dense(s.skip(start as int), block_size as nat) == dense(s, block_size as nat),
            decreases n - start,
        {
            let end = if block_size >= n - start {
                n
            } else {
                start + block_size
            };
            let mut acc: u8 = 0;
            let mut j: usize = start;
            while j < end
                invariant
                    s == self.ring@,
                    start <= j <= end <= n,
                    n == s.len(),
                    acc == xor_all(s.subrange(start as int, j as int)),
                decreases end - j,
            {
                assert(s.subrange(start as int, j + 1).drop_last() =~= s.subrange(start as int, j as int));
                acc = acc ^ self.ring[j];
                j += 1;
            }
            let ghost rest = s.skip(start as int);
            if block_size >= n - start {
                assert(rest =~= s.subrange(start as int, end as int));
                assert(s.skip(end as int) =~= Seq::<u8>::empty());
                assert(dense(s.skip(end as int), block_size as nat) =~= Seq::<u8>::empty());
                assert(dense(rest, block_size as nat) == seq![acc]);
                assert(seq![acc] + Seq::<u8>::empty() =~= seq![acc]);
            } else {
                assert(rest.take(block_size as int) =~= s.subrange(start as int, end as int));
                assert(rest.skip(block_size as int) =~= s.skip(end as int));
                assert(rest.len() > block_size);
                assert(dense(rest, block_size as nat) == seq![xor_all(rest.take(block_size as int))]
                    + dense(rest.skip(block_size as int), block_size as nat));
            }
            assert(dense(rest, block_size as nat) == seq![acc] + dense(s.skip(end as int), block_size as nat));
            let ghost prev = result@;
            result.push(acc);
            assert(prev + dense(rest, block_size as nat) =~= result@ + dense(s.skip(end as int), block_size as nat));
            assert(result@ + dense(s.skip(end as int), block_size as nat) =~= dense(s, block_size as nat));
            start = end;
        }
        assert(s.skip(start as int) =~= Seq::<u8>::empty());
        assert(result@ + Seq::<u8>::empty() =~= result@);
        result
    }
}

/// The 16-byte knot hash of the bytes of `input`.
pub fn knot_hash(input: &str) -> (r: Vec<u8>)
    ensures
        r@ == knot_hash_spec(input.spec_bytes()),
{
    let bytes = input.as_bytes();
    let suffix: [u8; 5] = [17, 31, 73, 47, 23];
    let ghost ls = knot_lengths(bytes@);
    let ghost init = ring_init(256);
    let mut ring = Ring::new(256);
    let mut round: u32 = 0;
    while round < 64
        invariant
            round <= 64,
            ring.wf(),
            ring@.0.len() == 256,
            ls == knot_lengths(bytes@),
            bytes@ == input.spec_bytes(),
            suffix@ == seq![17u8, 31u8, 73u8, 47u8, 23u8],
            ring@ == run_rounds(init, ls, round as nat),
        decreases 64 - round,
    {
        let ghost before = ring@;
        let blen = bytes.len();
        let mut k: usize = 0;
        assert(ls.take(0) =~= Seq::<nat>::empty());
        while k < blen
            invariant
                k <= blen,
                blen == bytes@.len(),
                ring.wf(),
                ring@.0.len() == 256,
                ls == knot_lengths(bytes@),
                ring@ == run_lengths(before, ls.take(k as int)),
            decreases blen - k,
        {
            let length: u8 = bytes[k];
            assert(ls[k as int] == length as nat);
            assert(ls.take(k + 1).drop_last() =~= ls.take(k as int));
            let _ = ring.advance(length as usize);
            k += 1;
        }
        let mut m: usize = 0;
        while m < 5
            invariant
                m <= 5,
                blen == bytes@.len(),
                ring.wf(),
                ring@.0.len() == 256,
                ls == knot_lengths(bytes@),
                suffix@ == seq![17u8, 31u8, 73u8, 47u8, 23u8],
                ring@ == run_lengths(before, ls.take(blen + m)),
            decreases 5 - m,
        {
            let length: u8 = suffix[m];
            assert(ls[blen + m] == length as nat);
            assert(ls.take(blen + m + 1).drop_last() =~= ls.take(blen + m));
            let _ = ring.advance(length as usize);
            m += 1;
        }
        let ghost total = blen + 5;
        assert(ls.take(total as int) =~= ls);
        round += 1;
    }
    ring.reduce(16)
}

/// The knot hash of `input` as 32 lowercase hexadecimal digits.
pub fn knot_hash_as_hex(input: &str) -> (r: String)
    ensures
        r@ == hex_concat(knot_hash_spec(input.spec_bytes())),
{
    let h = knot_hash(input);
    numbers_to_hex_string(h.as_slice())
}

} // verus!
