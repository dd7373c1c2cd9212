use vstd::prelude::*;
use vstd::std_specs::cmp::PartialEqSpec;

pub mod aocisa;
pub mod knot_hash;
pub mod grid;
pub mod direction;
pub mod onoffpixel;
pub mod bit_iterator;

verus! {

/// Relies on `<[T]>::swap`: exchanges the elements at `a` and `b`.
#[verifier::external_body]
fn swap_elems<T>(v: &mut Vec<T>, a: usize, b: usize)
    requires
        a < old(v)@.len(),
        b < old(v)@.len(),
    ensures
        final(v)@ == old(v)@.update(a as int, old(v)@[b as int]).update(b as int, old(v)@[a as int]),
{
    v.swap(a, b)
}

/// The distance from `start` forward to `p` around a ring of `n` slots.
pub open spec fn ring_offset(p: int, start: int, n: int) -> int {
    if p >= start {
        p - start
    } else {
        p + n - start
    }
}

/// The slot `o` places forward from `start` around a ring of `n` slots.
pub open spec fn ring_pos(start: int, o: int, n: int) -> int {
    if start + o < n {
        start + o
    } else {
        start + o - n
    }
}

/// `s` with the `length` elements that start at `start`, wrapping around its end, in
/// reverse order.
pub open spec fn reversed_segment<T>(s: Seq<T>, start: int, length: int) -> Seq<T> {
    Seq::new(
        s.len(),
        |p: int|
            if ring_offset(p, start, s.len() as int) < length {
                s[ring_pos(start, length - 1 - ring_offset(p, start, s.len() as int), s.len() as int)]
            } else {
                s[p]
            },
    )
}

/// Reverses the `length` elements of `v` from `start_index` on, treating `v` as circular.
pub fn reverse_circular_vec_segment<T>(v: &mut Vec<T>, start_index: usize, length: usize)
    requires
        start_index < old(v)@.len(),
        length <= old(v)@.len(),
    ensures
        final(v)@ == reversed_segment(old(v)@, start_index as int, length as int),
{
    let ghost orig = v@;
    let n = v.len();
    if length == 0 {
        assert(v@ =~= reversed_segment(orig, start_index as int, 0));
        return;
    }
    let mut i: usize = start_index;
    let mut j: usize = if length - 1 >= n - start_index {
        length - 1 - (n - start_index)
    } else {
        start_index + length - 1
    };
    let mut k: usize = 0;
    let half = length / 2;
    while k < half
        invariant
            n == orig.len(),
            v@.len() == n,
            start_index < n,
            0 < length <= n,
            half == length / 2,
            k <= half,
            i == ring_pos(start_index as int, k as int, n as int),
            j == ring_pos(start_index as int, length - 1 - k, n as int),
            forall|p: int|
                0 <= p < n ==> #[trigger] v@[p] == if ring_offset(p, start_index as int, n as int)
                    < length && (ring_offset(p, start_index as int, n as int) < k
                    || ring_offset(p, start_index as int, n as int) >= length - k) {
                    orig[ring_pos(
                        start_index as int,
                        length - 1 - ring_offset(p, start_index as int, n as int),
                        n as int,
                    )]
                } else {
                    orig[p]
                },
        decreases half - k,
    {
        assert(ring_offset(i as int, start_index as int, n as int) == k);
        assert(ring_offset(j as int, start_index as int, n as int) == length - 1 - k);
        swap_elems(v, i, j);
        i = if i == n - 1 {
            0
        } else {
            i + 1
        };
        j = if j == 0 {
            n - 1
        } else {
            j - 1
        };
        k += 1;
    }
    assert forall|p: int| 0 <= p < n implies #[trigger] v@[p] == reversed_segment(
        orig,
        start_index as int,
        length as int,
    )[p] by {
        let o = ring_offset(p, start_index as int, n as int);
        if o < length && !(o < k || o >= length - k) {
            assert(ring_pos(start_index as int, length - 1 - o, n as int) == p);
        }
    }
    assert(v@ =~= reversed_segment(orig, start_index as int, length as int));
}

/// Relies on `String::push`: appends one character.
#[verifier::external_body]
pub(crate) fn push_char(s: &mut String, c: char)
    ensures
        final(s)@ == old(s)@.push(c),
{
    s.push(c)
}

/// An unsigned integer type of a fixed number of bytes.
pub trait FixedWidth: Copy {
    spec fn spec_value(&self) -> nat;

    spec fn spec_bytes() -> nat;

    fn to_u64(&self) -> (r: u64)
        ensures
            r == self.spec_value(),
    ;

    fn byte_width() -> (r: usize)
        ensures
            r == Self::spec_bytes(),
            1 <= r <= 8,
    ;
}

impl FixedWidth for u8 {
    open spec fn spec_value(&self) -> nat {
        *self as nat
    }

    open spec fn spec_bytes() -> nat {
        1
    }

    fn to_u64(&self) -> (r: u64) {
        *self as u64
    }

    fn byte_width() -> (r: usize) {
        1
    }
}

impl FixedWidth for u16 {
    open spec fn spec_value(&self) -> nat {
        *self as nat
    }

    open spec fn spec_bytes() -> nat {
        2
    }

    fn to_u64(&self) -> (r: u64) {
        *self as u64
    }

    fn byte_width() -> (r: usize) {
        2
    }
}

impl FixedWidth for u32 {
    open spec fn spec_value(&self) -> nat {
        *self as nat
    }

    open spec fn spec_bytes() -> nat {
        4
    }

    fn to_u64(&self) -> (r: u64) {
        *self as u64
    }

    fn byte_width() -> (r: usize) {
        4
    }
}

impl FixedWidth for u64 {
    open spec fn spec_value(&self) -> nat {
        *self as nat
    }

    open spec fn spec_bytes() -> nat {
        8
    }

    fn to_u64(&self) -> (r: u64) {
        *self
    }

    fn byte_width() -> (r: usize) {
        8
    }
}

/// The lowercase hexadecimal digit of `d` (0 to 15).
pub open spec fn hex_digit(d: nat) -> char {
    if d < 10 {
        ((d + 48) as u8) as char
    } else {
        ((d + 87) as u8) as char
    }
}

/// The last `width` hexadecimal digits of `v`, most significant first, padded with zeros.
pub open spec fn hex_text(v: nat, width: nat) -> Seq<char>
    decreases width,
{
    if width == 0 {
        Seq::empty()
    } else {
        hex_text(v / 16, (width - 1) as nat).push(hex_digit(v % 16))
    }
}

/// Each number as two hexadecimal digits per byte of its type, one after another.
pub open spec fn hex_concat<T: FixedWidth>(s: Seq<T>) -> Seq<char>
    decreases s.len(),
{
    if s.len() == 0 {
        Seq::empty()
    } else {
        hex_concat(s.drop_last()) + hex_text(s.last().spec_value(), 2 * T::spec_bytes())
    }
}

fn push_hex(out: &mut String, v: u64, width: usize)
    ensures
        final(out)@ == old(out)@ + hex_text(v as nat, width as nat),
    decreases width,
{
    if width > 0 {
        push_hex(out, v / 16, width - 1);
        let d: u8 = (v % 16) as u8;
        let c = if d < 10 {
            (d + 48) as char
        } else {
            (d + 87) as char
        };
        push_char(out, c);
    }
    assert(final(out)@ =~= old(out)@ + hex_text(v as nat, width as nat));
}

/// Formats each number as zero-padded lowercase hexadecimal, two digits per byte of its type.
pub fn numbers_to_hex_string<T: FixedWidth>(nums: &[T]) -> (r: String)
    ensures
        r@ == hex_concat(nums@),
{
    let mut out = String::new();
    let width = 2 * T::byte_width();
    let mut k: usize = 0;
    while k < nums.len()
        invariant
            k <= nums@.len(),
            width == 2 * T::spec_bytes(),
            out@ == hex_concat(nums@.take(k as int)),
        decreases nums@.len() - k,
    {
        push_hex(&mut out, nums[k].to_u64(), width);
        assert(nums@.take(k + 1).drop_last() =~= nums@.take(k as int));
        k += 1;
    }
    assert(nums@.take(k as int) =~= nums@);
    out
}

/// The index of the first element of `items` equal to `item`, if any.
pub fn position_eq<T: PartialEq>(items: &[T], item: &T) -> (r: Option<usize>)
    ensures
        T::obeys_eq_spec() ==> match r {
            Some(k) => k < items@.len() && items@[k as int].eq_spec(item) && forall|j: int|
                0 <= j < k ==> !(#[trigger] items@[j]).eq_spec(item),
            None => forall|j: int| 0 <= j < items@.len() ==> !(#[trigger] items@[j]).eq_spec(item),
        },
{
    let mut k: usize = 0;
    while k < items.len()
        invariant
            k <= items@.len(),
            T::obeys_eq_spec() ==> forall|j: int| 0 <= j < k ==> !(#[trigger] items@[j]).eq_spec(item),
        decreases items@.len() - k,
    {
        if items[k] == *item {
            return Some(k);
        }
        k += 1;
    }
    None
}

/// Whether some element of `items` equals `item`.
pub fn any_eq<T: PartialEq>(items: &[T], item: &T) -> (r: bool)
    ensures
        T::obeys_eq_spec() ==> (r <==> exists|j: int| 0 <= j < items@.len() && (#[trigger] items@[j]).eq_spec(item)),
{
    match position_eq(items, item) {
        Some(k) => {
            assert(T::obeys_eq_spec() ==> items@[k as int].eq_spec(item));
            true
        },
        None => false,
    }
}

} // verus!
