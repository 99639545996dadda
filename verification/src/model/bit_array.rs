use vstd::prelude::*;
use vstd::arithmetic::power2::{lemma2_to64, lemma_pow2_unfold, pow2};
use vstd::std_specs::cmp::PartialEqSpecImpl;

verus! {

/// Bit `j` of the byte `b`, counting from the most significant bit (`j == 0`).
pub open spec fn bit_of(b: u8, j: u8) -> bool {
    b & (128u8 >> j) != 0u8
}

/// Bit number `k` of a byte string read most significant bit first.
pub open spec fn byte_bit(d: Seq<u8>, k: int) -> bool {
    bit_of(d[k / 8], (k % 8) as u8)
}

/// All the bits of a byte string, most significant bit of each byte first.
pub open spec fn bytes_bits(d: Seq<u8>) -> Seq<bool> {
    Seq::new((8 * d.len()) as nat, |k: int| byte_bit(d, k))
}

/// The byte `b` starts with the bits `s` (at most eight) and is clear after them.
pub open spec fn byte_holds(b: u8, s: Seq<bool>) -> bool {
    &&& s.len() <= 8
    &&& forall|j: u8| j < 8 ==> #[trigger] bit_of(b, j) == (j < s.len() && s[j as int])
}

/// The number whose binary digits, most significant first, are `s`.
pub open spec fn bits_value(s: Seq<bool>) -> nat
    decreases s.len(),
{
    if s.len() == 0 {
        0
    } else {
        2 * bits_value(s.drop_last()) + if s.last() {
            1nat
        } else {
            0nat
        }
    }
}

proof fn lemma_bit_zero(j: u8)
    requires
        j < 8,
    ensures
        !bit_of(0u8, j),
{
    assert(!bit_of(0u8, j)) by (bit_vector)
        requires
            j < 8u8,
    ;
}

proof fn lemma_bit_clear_low(b: u8, z: u8, j: u8)
    requires
        z < 8,
        j < 8,
    ensures
        bit_of(((b >> z) << z), j) == (j + z < 8 && bit_of(b, j)),
{
    assert(bit_of(((b >> z) << z), j) == (j + z < 8 && bit_of(b, j))) by (bit_vector)
        requires
            z < 8u8,
            j < 8u8,
    ;
}

proof fn lemma_peek_head(h: u8, hs: u8, n: u8, j: u8)
    requires
        hs < 8,
        1 <= n <= 8,
        hs + n <= 8,
        j < 8,
    ensures
        bit_of(((h << hs) >> ((8 - n) as u8)) << ((8 - n) as u8), j) == (j < n && bit_of(h, (hs + j) as u8)),
{
    assert(bit_of(((h << hs) >> ((8 - n) as u8)) << ((8 - n) as u8), j) == (j < n && bit_of(h, (hs + j) as u8))) by (bit_vector)
        requires
            hs < 8u8,
            1u8 <= n <= 8u8,
            hs + n <= 8u8,
            j < 8u8,
    ;
}

proof fn lemma_peek_tail(h: u8, t: u8, hs: u8, n: u8, j: u8)
    requires
        hs < 8,
        n <= 8,
        hs + n > 8,
        j < 8,
    ensures
        bit_of(
            (h << hs) | ((((t >> ((16 - hs - n) as u8)) << ((16 - hs - n) as u8)) >> ((8 - hs) as u8))),
            j,
        ) == (j < n && if hs + j < 8 {
            bit_of(h, (hs + j) as u8)
        } else {
            bit_of(t, (hs + j - 8) as u8)
        }),
{
    assert(bit_of(
        (h << hs) | ((((t >> ((16 - hs - n) as u8)) << ((16 - hs - n) as u8)) >> ((8 - hs) as u8))),
        j,
    ) == (j < n && if hs + j < 8 {
        bit_of(h, (hs + j) as u8)
    } else {
        bit_of(t, (hs + j - 8) as u8)
    })) by (bit_vector)
        requires
            hs < 8u8,
            n <= 8u8,
            hs + n > 8u8,
            j < 8u8,
    ;
}

proof fn lemma_fill_low(a: u8, c: u8, used: u8, j: u8)
    requires
        1 <= used < 8,
        j < 8,
    ensures
        bit_of((a & (255u8 << ((8 - used) as u8))) | (c >> used), j) == if j < used {
            bit_of(a, j)
        } else {
            bit_of(c, (j - used) as u8)
        },
{
    assert(bit_of((a & (255u8 << ((8 - used) as u8))) | (c >> used), j) == if j < used {
        bit_of(a, j)
    } else {
        bit_of(c, (j - used) as u8)
    }) by (bit_vector)
        requires
            1u8 <= used < 8u8,
            j < 8u8,
    ;
}

proof fn lemma_byte_ext(x: u8, y: u8)
    requires
        forall|j: u8| j < 8 ==> #[trigger] bit_of(x, j) == bit_of(y, j),
    ensures
        x == y,
{
    assert(bit_of(x, 0) == bit_of(y, 0));
    assert(bit_of(x, 1) == bit_of(y, 1));
    assert(bit_of(x, 2) == bit_of(y, 2));
    assert(bit_of(x, 3) == bit_of(y, 3));
    assert(bit_of(x, 4) == bit_of(y, 4));
    assert(bit_of(x, 5) == bit_of(y, 5));
    assert(bit_of(x, 6) == bit_of(y, 6));
    assert(bit_of(x, 7) == bit_of(y, 7));
    assert(x == y) by (bit_vector)
        requires
            bit_of(x, 0) == bit_of(y, 0),
            bit_of(x, 1) == bit_of(y, 1),
            bit_of(x, 2) == bit_of(y, 2),
            bit_of(x, 3) == bit_of(y, 3),
            bit_of(x, 4) == bit_of(y, 4),
            bit_of(x, 5) == bit_of(y, 5),
            bit_of(x, 6) == bit_of(y, 6),
            bit_of(x, 7) == bit_of(y, 7),
    ;
}

/// Two bytes that hold bit strings of one length are equal exactly when the strings are.
proof fn lemma_holds_eq(x: u8, y: u8, s: Seq<bool>, t: Seq<bool>)
    requires
        byte_holds(x, s),
        byte_holds(y, t),
        s.len() == t.len(),
    ensures
        (x == y) == (s == t),
{
    if s =~= t {
        assert forall|j: u8| j < 8 implies #[trigger] bit_of(x, j) == bit_of(y, j) by {}
        lemma_byte_ext(x, y);
    }
    if x == y {
        assert forall|i: int| 0 <= i < s.len() implies s[i] == t[i] by {
            assert(bit_of(x, i as u8) == bit_of(y, i as u8));
        }
        assert(s =~= t);
    }
}

/// The `n` bits of `d` that start at bit `start`.
pub open spec fn bits_from(d: Seq<u8>, start: int, n: int) -> Seq<bool> {
    Seq::new(n as nat, |i: int| byte_bit(d, start + i))
}

/// Writes the bit string held at the top of `chunk` right after the first `end`
/// bits of `data`, where `used` of the last byte's bits are taken, growing
/// `data` by a byte where there are none.
fn append_chunk(
    data: &mut Vec<u8>,
    used: u8,
    chunk: u8,
    num_bits: i32,
    Ghost(end): Ghost<int>,
    Ghost(s): Ghost<Seq<bool>>,
)
    requires
        0 <= end,
        used < 8,
        used == end % 8,
        1 <= num_bits <= 8,
        used != 0 ==> num_bits <= 8 - used,
        old(data)@.len() == (end + 7) / 8,
        byte_holds(chunk, s),
        s.len() == num_bits,
    ensures
        final(data)@.len() == (end + num_bits + 7) / 8,
        forall|k: int| 0 <= k < end ==> #[trigger] byte_bit(final(data)@, k) == byte_bit(old(data)@, k),
        forall|k: int| end <= k < end + num_bits ==> #[trigger] byte_bit(final(data)@, k) == s[k - end],
{
    if used == 0 {
        assert(end == 8 * old(data)@.len());
        data.push(chunk);
        proof {
            assert forall|k: int| end <= k < end + num_bits implies #[trigger] byte_bit(data@, k) == s[k - end] by {
                assert(k / 8 == old(data)@.len());
                assert(bit_of(chunk, (k % 8) as u8) == s[k - end]);
            }
        }
    } else {
        let last_index = data.len() - 1;
        assert(end / 8 == last_index);
        let last = data[last_index];
        data.set(last_index, (last & (255u8 << (8 - used))) | (chunk >> used));
        proof {
            assert forall|k: int| 0 <= k < end + num_bits implies #[trigger] byte_bit(data@, k) == if k < end {
                byte_bit(old(data)@, k)
            } else {
                s[k - end]
            } by {
                if k / 8 == last_index {
                    lemma_fill_low(last, chunk, used, (k % 8) as u8);
                    if k >= end {
                        assert(bit_of(chunk, (k - end) as u8) == s[k - end]);
                    }
                }
            }
        }
    }
}

proof fn lemma_bits_value_step(s: Seq<bool>, k: int)
    requires
        0 <= k < s.len(),
    ensures
        bits_value(s.take(k + 1)) == 2 * bits_value(s.take(k)) + if s[k] {
            1nat
        } else {
            0nat
        },
{
    assert(s.take(k + 1).drop_last() =~= s.take(k));
}

/// The value of a byte is that of its bits.
pub proof fn lemma_byte_value(b: u8, s: Seq<bool>)
    requires
        byte_holds(b, s),
        s.len() == 8,
    ensures
        bits_value(s) == b as nat,
{
    assert(s.take(0) =~= Seq::<bool>::empty());
    lemma_bits_value_step(s, 0);
    lemma_bits_value_step(s, 1);
    lemma_bits_value_step(s, 2);
    lemma_bits_value_step(s, 3);
    lemma_bits_value_step(s, 4);
    lemma_bits_value_step(s, 5);
    lemma_bits_value_step(s, 6);
    lemma_bits_value_step(s, 7);
    assert(s.take(8) =~= s);
    assert(bit_of(b, 0) == s[0]);
    assert(bit_of(b, 1) == s[1]);
    assert(bit_of(b, 2) == s[2]);
    assert(bit_of(b, 3) == s[3]);
    assert(bit_of(b, 4) == s[4]);
    assert(bit_of(b, 5) == s[5]);
    assert(bit_of(b, 6) == s[6]);
    assert(bit_of(b, 7) == s[7]);
    assert(b as int == (if bit_of(b, 0) { 128int } else { 0int }) + (if bit_of(b, 1) { 64int } else { 0int })
        + (if bit_of(b, 2) { 32int } else { 0int }) + (if bit_of(b, 3) { 16int } else { 0int })
        + (if bit_of(b, 4) { 8int } else { 0int }) + (if bit_of(b, 5) { 4int } else { 0int })
        + (if bit_of(b, 6) { 2int } else { 0int }) + (if bit_of(b, 7) { 1int } else { 0int })) by (bit_vector);
}

/// The value of bits followed by eight more.
pub proof fn lemma_bits_value_concat8(a: Seq<bool>, b: Seq<bool>)
    requires
        b.len() == 8,
    ensures
        bits_value(a + b) == 256 * bits_value(a) + bits_value(b),
{
    let c = a + b;
    assert forall|k: int| 0 <= k <= 8 implies #[trigger] bits_value(c.take(a.len() + k)) == pow2(
        k as nat,
    ) * bits_value(a) + bits_value(b.take(k)) by {
        lemma_concat_prefix(a, b, k);
    }
    assert(c.take(a.len() + 8int) =~= c);
    assert(bits_value(c.take(a.len() + 8int)) == pow2(8) * bits_value(a) + bits_value(b.take(8)));
    assert(b.take(8) =~= b);
    lemma2_to64();
}

proof fn lemma_concat_prefix(a: Seq<bool>, b: Seq<bool>, k: int)
    requires
        0 <= k <= b.len(),
    ensures
        bits_value((a + b).take(a.len() + k)) == pow2(k as nat) * bits_value(a) + bits_value(b.take(k)),
    decreases k,
{
    let c = a + b;
    if k == 0 {
        assert(c.take(a.len() as int) =~= a);
        assert(b.take(0) =~= Seq::<bool>::empty());
        lemma2_to64();
        assert(bits_value(b.take(0)) == 0);
        assert(pow2(0) * bits_value(a) == bits_value(a));
    } else {
        lemma_concat_prefix(a, b, k - 1);
        lemma_bits_value_step(c, a.len() + k - 1);
        lemma_bits_value_step(b, k - 1);
        lemma_pow2_unfold(k as nat);
        let p = pow2((k - 1) as nat);
        let x = bits_value(a);
        assert(2 * (p * x) == (2 * p) * x) by (nonlinear_arith);
        assert(c[a.len() + k - 1] == b[k - 1]);
        assert(pow2(k as nat) == 2 * p);
        assert(bits_value(c.take(a.len() + k - 1)) == p * x + bits_value(b.take(k - 1)));
        assert(bits_value(b.take(k)) == 2 * bits_value(b.take(k - 1)) + if b[k - 1] { 1nat } else { 0nat });
        assert(bits_value(c.take(a.len() + k)) == 2 * bits_value(c.take(a.len() + k - 1)) + if b[k - 1] { 1nat } else { 0nat });
    }
}

/// The eight bits of a byte, most significant first.
pub open spec fn byte_bits(b: u8) -> Seq<bool> {
    Seq::new(8, |j: int| bit_of(b, j as u8))
}

/// The sixteen bits of an integer, most significant first.
pub open spec fn u16_bits(v: u16) -> Seq<bool> {
    byte_bits((v / 256) as u8) + byte_bits((v % 256) as u8)
}

proof fn lemma_extend_step(
    d2: Seq<u8>,
    d3: Seq<u8>,
    begin: int,
    cur_end: int,
    n: int,
    len: int,
    want: Seq<bool>,
    o: Seq<bool>,
    other0: Seq<bool>,
)
    requires
        0 <= begin,
        0 <= len,
        begin + len <= cur_end,
        0 <= n <= o.len(),
        o == other0.skip(cur_end - (begin + len)),
        cur_end - (begin + len) + o.len() == other0.len(),
        want.len() == len + other0.len(),
        forall|t: int| 0 <= t < other0.len() ==> want[len + t] == #[trigger] other0[t],
        forall|k: int| begin <= k < cur_end ==> #[trigger] byte_bit(d2, k) == want[k - begin],
        forall|k: int| 0 <= k < cur_end ==> #[trigger] byte_bit(d3, k) == byte_bit(d2, k),
        forall|k: int| cur_end <= k < cur_end + n ==> #[trigger] byte_bit(d3, k) == o.take(n)[k - cur_end],
    ensures
        forall|k: int| begin <= k < cur_end + n ==> #[trigger] byte_bit(d3, k) == want[k - begin],
{
    assert forall|k: int| begin <= k < cur_end + n implies #[trigger] byte_bit(d3, k) == want[k - begin] by {
        if k < cur_end {
            assert(byte_bit(d2, k) == want[k - begin]);
        } else {
            let t = k - (begin + len);
            assert(o.take(n)[k - cur_end] == o[k - cur_end]);
            assert(o[k - cur_end] == other0[t]);
            assert(want[len + t] == other0[t]);
        }
    }
}

/// A string of bits over bytes, read most significant bit first.
///
/// The bits are the `len` bits of `data` that start at bit `bit` of the byte `at`.
#[derive(Debug)]
pub struct BitArray {
    data: Vec<u8>,
    at: usize,
    bit: i32,
    len: i32,
}

impl View for BitArray {
    type V = Seq<bool>;

    closed spec fn view(&self) -> Seq<bool> {
        bits_from(self.data@, 8 * self.at + self.bit, self.len as int)
    }
}

impl BitArray {
    #[verifier::type_invariant]
    spec fn inv(self) -> bool {
        &&& 0 <= self.bit < 8
        &&& 0 <= self.len
        &&& self.at <= self.data@.len()
        &&& self.bit + self.len <= 8 * (self.data@.len() - self.at)
        &&& self.bit + self.len <= i32::MAX
    }

    /// Where the bits begin inside the bytes that hold them.
    pub closed spec fn start(self) -> int {
        8 * self.at + self.bit
    }

    /// All the bits of the bytes that hold the array, the array's among them.
    pub closed spec fn backing(self) -> Seq<bool> {
        bytes_bits(self.data@)
    }

    /// An array with no bits.
    pub fn fresh() -> (r: Self)
        ensures
            r@ == Seq::<bool>::empty(),
            r.start() == 0,
            r.backing() == Seq::<bool>::empty(),
    {
        let r = BitArray { data: Vec::new(), at: 0, bit: 0, len: 0 };
        assert(r@ =~= Seq::<bool>::empty());
        assert(r.backing() =~= Seq::<bool>::empty());
        r
    }

    /// The bits of `data`; with `num_bits`, only the first `num_bits` of them,
    /// the unused low bits of the last byte being cleared.
    pub fn new(data: Vec<u8>, num_bits: Option<i32>) -> (r: Self)
        requires
            8 * data@.len() <= i32::MAX,
            num_bits matches Some(n) ==> data@.len() > 0 && 0 <= n <= 8 * data@.len(),
        ensures
            r@ == bytes_bits(data@).take(
                match num_bits {
                    Some(n) => n as int,
                    None => (8 * data@.len()) as int,
                },
            ),
            r.start() == 0,
    {
        let ghost old_data = data@;
        let mut data = data;
        let len: i32 = match num_bits {
            Some(num_bits) => {
                let data_len = data.len();
                let num_bits_to_zero: u8 = ((8 - (num_bits % 8)) % 8) as u8;
                let last = data[data_len - 1];
                data.set(data_len - 1, (last >> num_bits_to_zero) << num_bits_to_zero);
                proof {
                    assert forall|k: int| 0 <= k < num_bits implies byte_bit(data@, k) == byte_bit(
                        old_data,
                        k,
                    ) by {
                        if k / 8 == data_len - 1 {
                            lemma_bit_clear_low(last, num_bits_to_zero, (k % 8) as u8);
                        }
                    }
                }
                num_bits
            },
            None => (data.len() as i32) * 8,
        };
        let r = BitArray { data, at: 0, bit: 0, len };
        assert(r@ =~= bytes_bits(old_data).take(len as int));
        r
    }

    /// A copy of the array.
    pub fn clone(&self) -> (r: Self)
        ensures
            r@ == self@,
            r.start() == self.start(),
    {
        proof {
            use_type_invariant(self);
        }
        let r = BitArray { data: self.data.clone(), at: self.at, bit: self.bit, len: self.len };
        assert(r.data@ =~= self.data@);
        assert(r@ =~= self@);
        r
    }

    /// The first `num_bits` bits at the top of a byte whose other bits are clear.
    pub fn peek(&self, num_bits: u8) -> (r: u8)
        requires
            num_bits <= 8,
            num_bits <= self@.len(),
        ensures
            byte_holds(r, self@.take(num_bits as int)),
    {
        proof {
            use_type_invariant(self);
        }
        let ghost s = self@.take(num_bits as int);
        let ghost start = 8 * self.at + self.bit;
        if num_bits == 0 {
            proof {
                assert forall|j: u8| j < 8 implies #[trigger] bit_of(0u8, j) == (j < s.len()
                    && s[j as int]) by {
                    lemma_bit_zero(j);
                }
            }
            return 0;
        }
        let p8 = self.at;
        let head_start = self.bit as u8;
        if head_start == 0 && num_bits == 8 {
            let r = self.data[p8];
            proof {
                assert forall|j: u8| j < 8 implies #[trigger] bit_of(r, j) == (j < s.len()
                    && s[j as int]) by {
                    assert(s[j as int] == byte_bit(self.data@, start + j));
                }
            }
            return r;
        }
        let h = self.data[p8];
        let mut head_bits = h << head_start;
        let head_end = head_start + num_bits;
        if head_end > 8 {
            let tail_end = head_end - 8;
            let data_len = self.data.len();
            assert(p8 + 1 < data_len);
            let t = self.data[p8 + 1];
            let tail_bits_to_zero = 8 - tail_end;
            let mut tail_bits = t >> tail_bits_to_zero;
            tail_bits = tail_bits << tail_bits_to_zero;
            tail_bits = tail_bits >> (8 - head_start);
            let r = head_bits | tail_bits;
            proof {
                assert forall|j: u8| j < 8 implies #[trigger] bit_of(r, j) == (j < s.len()
                    && s[j as int]) by {
                    lemma_peek_tail(h, t, head_start, num_bits, j);
                    if j < num_bits {
                        assert(s[j as int] == byte_bit(self.data@, start + j));
                    }
                }
            }
            r
        } else {
            let head_bits_to_zero = 8 - head_end;
            head_bits = head_bits >> (head_start + head_bits_to_zero);
            head_bits = head_bits << (head_start + head_bits_to_zero);
            proof {
                assert forall|j: u8| j < 8 implies #[trigger] bit_of(head_bits, j) == (j < s.len()
                    && s[j as int]) by {
                    lemma_peek_head(h, head_start, num_bits, j);
                    if j < num_bits {
                        assert(s[j as int] == byte_bit(self.data@, start + j));
                    }
                }
            }
            head_bits
        }
    }

    /// Whether the array starts on a byte boundary of the bytes that hold it.
    pub fn clean_offset(&self) -> (r: bool)
        ensures
            r == (self.start() % 8 == 0),
    {
        proof {
            use_type_invariant(self);
        }
        self.bit == 0
    }

    /// Whether the array ends on a byte boundary of the bytes that hold it.
    pub fn clean_end_offset(&self) -> (r: bool)
        ensures
            r == ((self.start() + self@.len()) % 8 == 0),
    {
        proof {
            use_type_invariant(self);
        }
        (self.bit + self.len) % 8 == 0
    }

    /// Splits off the first `num_bits` bits and returns them; `None`, and no
    /// change, where there are fewer bits than that.
    pub fn eat(&mut self, num_bits: i32) -> (r: Option<Self>)
        requires
            num_bits >= 0,
        ensures
            num_bits > old(self)@.len() ==> r is None && *final(self) == *old(self),
            num_bits <= old(self)@.len() ==> {
                &&& r matches Some(e) && e@ == old(self)@.take(num_bits as int)
                    && e.start() == old(self).start() % 8
                    && e.backing() == old(self).backing().subrange(
                        old(self).start() - old(self).start() % 8,
                        8 * ((old(self).start() + num_bits + 7) / 8),
                    )
                &&& final(self)@ == old(self)@.skip(num_bits as int)
                &&& final(self).start() == old(self).start() + num_bits
                &&& final(self).backing() == old(self).backing()
            },
    {
        proof {
            use_type_invariant(&*self);
        }
        if num_bits > self.len {
            return None;
        }
        let ghost old_self = *self;
        let ghost d = self.data@;
        let ghost start = 8 * self.at + self.bit;
        let first = self.at;
        let data_len = self.data.len();
        assert((self.bit + num_bits + 7) / 8 <= data_len - self.at);
        let last = self.at + ((self.bit as i64 + num_bits as i64 + 7) / 8) as usize;
        let mut bytes: Vec<u8> = Vec::new();
        let mut i = first;
        while i < last
            invariant
                first <= i <= last,
                last <= self.data@.len(),
                self.data@ == d,
                bytes@ == d.subrange(first as int, i as int),
            decreases last - i,
        {
            bytes.push(self.data[i]);
            i = i + 1;
            assert(bytes@ =~= d.subrange(first as int, i as int));
        }
        let result = BitArray { data: bytes, at: 0, bit: self.bit, len: num_bits };
        assert forall|k: int| 0 <= k < num_bits implies #[trigger] byte_bit(bytes@, self.bit + k) == byte_bit(
            d,
            start + k,
        ) by {
            assert((self.bit + k) / 8 + first == (start + k) / 8);
        }
        assert(result@ =~= old_self@.take(num_bits as int));
        assert forall|k: int| 0 <= k < 8 * (last - first) implies #[trigger] byte_bit(bytes@, k) == byte_bit(
            d,
            8 * first + k,
        ) by {
            assert((8 * first + k) / 8 == first + k / 8);
            assert((8 * first + k) % 8 == k % 8);
        }
        assert(result.backing() =~= old_self.backing().subrange(8 * first, 8 * last));
        let mut tmp = BitArray::fresh();
        std::mem::swap(&mut tmp, self);
        let BitArray { data, at, bit, len } = tmp;
        let moved = bit + num_bits;
        *self = BitArray { data, at: at + (moved / 8) as usize, bit: moved % 8, len: len - num_bits };
        assert(self@ =~= old_self@.skip(num_bits as int));
        Some(result)
    }

    /// Moves the start of the array `num_bits` further into the bytes that hold it,
    /// keeping its length.
    pub fn advance(&mut self, num_bits: i32)
        requires
            num_bits >= 0,
            old(self).start() + num_bits + old(self)@.len() <= old(self).backing().len(),
            num_bits + old(self)@.len() + 7 <= i32::MAX,
        ensures
            final(self).start() == old(self).start() + num_bits,
            final(self).backing() == old(self).backing(),
            final(self)@ == old(self).backing().subrange(
                old(self).start() + num_bits,
                old(self).start() + num_bits + old(self)@.len(),
            ),
    {
        proof {
            use_type_invariant(&*self);
        }
        let ghost old_self = *self;
        let mut tmp = BitArray::fresh();
        std::mem::swap(&mut tmp, self);
        let BitArray { data, at, bit, len } = tmp;
        let moved = bit + num_bits;
        let data_len = data.len();
        assert(moved / 8 <= data_len - at);
        *self = BitArray { data, at: at + (moved / 8) as usize, bit: moved % 8, len };
        assert(self@ =~= old_self.backing().subrange(
            old_self.start() + num_bits,
            old_self.start() + num_bits + len,
        ));
    }

    /// Appends the bits of `other`.
    #[verifier::rlimit(40)]
    pub fn extend(&mut self, other: &BitArray)
        requires
            old(self)@.len() + other@.len() + 7 <= i32::MAX,
        ensures
            final(self)@ == old(self)@ + other@,
            final(self).start() == old(self).start(),
    {
        proof {
            use_type_invariant(&*self);
            use_type_invariant(other);
        }
        let ghost want = self@ + other@;
        let mut tmp = BitArray::fresh();
        std::mem::swap(&mut tmp, self);
        let BitArray { data, at, bit, len } = tmp;
        let mut data = data;
        let ghost d0 = data@;
        let ghost begin = 8 * at + bit;
        let data_len = data.len();
        assert((bit + len + 7) / 8 <= data_len - at);
        let need = at + ((bit as i64 + len as i64 + 7) / 8) as usize;
        // bytes past the end of the array are not its own
        if data.len() > need {
            data.truncate(need);
        }
        let mut other = other.clone();
        let ghost other0 = other@;
        let other_len = other.len();
        let mut used: u8 = ((bit + len) % 8) as u8;
        let ghost mut cur_end: int = begin + len;
        while other.len() > 0
            invariant
                0 <= bit < 8,
                0 <= len,
                begin == 8 * at + bit,
                bit + len + other_len <= i32::MAX,
                other_len == other0.len(),
                begin + len <= cur_end,
                cur_end - (begin + len) + other@.len() == other_len,
                other@ == other0.skip(cur_end - (begin + len)),
                data@.len() == (cur_end + 7) / 8,
                used == cur_end % 8,
                want == bits_from(d0, begin, len as int) + other0,
                want.len() == len + other0.len(),
                forall|t: int| 0 <= t < other0.len() ==> want[len + t] == #[trigger] other0[t],
                forall|k: int| begin <= k < cur_end ==> #[trigger] byte_bit(data@, k) == want[k - begin],
            decreases other@.len(),
        {
            let room: i32 = if used == 0 {
                8
            } else {
                8 - used as i32
            };
            let num_bits: i32 = if room < other.len() {
                room
            } else {
                other.len()
            };
            let ghost o = other@;
            let chunk = other.eat(num_bits).unwrap().peek(num_bits as u8);
            let ghost d2 = data@;
            append_chunk(&mut data, used, chunk, num_bits, Ghost(cur_end), Ghost(o.take(num_bits as int)));
            proof {
                lemma_extend_step(d2, data@, begin, cur_end, num_bits as int, len as int, want, o, other0);
            }
            used = ((used as i32 + num_bits) % 8) as u8;
            proof {
                assert(other@ =~= other0.skip(cur_end + num_bits - (begin + len)));
                cur_end = cur_end + num_bits;
            }
        }
        let r = BitArray { data, at, bit, len: len + other_len };
        assert(r@ =~= want);
        *self = r;
    }

    /// The bytes that hold the bits, the first bit at the top of the first
    /// byte and the bits after the last one clear.
    pub fn to_bytes(&self) -> (r: Vec<u8>)
        ensures
            r@.len() == (self@.len() + 7) / 8,
            forall|k: int| 0 <= k < 8 * r@.len() ==> #[trigger] byte_bit(r@, k) == (k < self@.len() && self@[k]),
    {
        proof {
            use_type_invariant(self);
        }
        let mut rest = self.clone();
        let mut r: Vec<u8> = Vec::new();
        let ghost all = self@;
        let mut taken: i32 = 0;
        while rest.len() > 0
            invariant
                0 <= taken <= all.len(),
                all.len() <= i32::MAX,
                rest@ == all.skip(taken as int),
                r@.len() == (taken + 7) / 8,
                rest@.len() > 0 ==> taken % 8 == 0,
                forall|k: int| 0 <= k < 8 * r@.len() ==> #[trigger] byte_bit(r@, k) == (k < all.len() && all[k]),
            decreases rest@.len(),
        {
            let num_bits: i32 = if rest.len() > 8 {
                8
            } else {
                rest.len()
            };
            let ghost o = rest@;
            let b = rest.eat(num_bits).unwrap().peek(num_bits as u8);
            let ghost r0 = r@;
            r.push(b);
            proof {
                assert forall|k: int| 0 <= k < 8 * r@.len() implies #[trigger] byte_bit(r@, k) == (k
                    < all.len() && all[k]) by {
                    if k >= 8 * r0.len() {
                        assert(k / 8 == r0.len());
                        assert(bit_of(b, (k % 8) as u8) == ((k % 8) < num_bits && o[k % 8]));
                    } else {
                        assert(byte_bit(r0, k) == (k < all.len() && all[k]));
                    }
                }
            }
            taken = taken + num_bits;
        }
        r
    }

    /// The number of bits.
    pub fn len(&self) -> (r: i32)
        ensures
            r == self@.len(),
            0 <= r,
    {
        proof {
            use_type_invariant(self);
        }
        self.len
    }
}

impl PartialEq for BitArray {
    fn eq(&self, other: &Self) -> (r: bool) {
        proof {
            use_type_invariant(self);
            use_type_invariant(other);
        }
        if self.len() != other.len() {
            return false;
        }
        let mut a = self.clone();
        let mut b = other.clone();
        let ghost n = self@.len();
        while a.len() > 0
            invariant
                a@.len() == b@.len(),
                a@.len() <= n,
                n == self@.len(),
                n == other@.len(),
                a@ == self@.skip(n - a@.len()),
                b@ == other@.skip(n - b@.len()),
                self@.take(n - a@.len()) == other@.take(n - b@.len()),
            decreases a@.len(),
        {
            let a_len = a.len();
            let num_bits: i32 = if a_len > 8 {
                8
            } else {
                a_len
            };
            let ghost k = n - a@.len();
            let ghost a0 = a@;
            let ghost b0 = b@;
            let a_val = a.eat(num_bits).unwrap();
            let b_val = b.eat(num_bits).unwrap();
            let t1 = a_val.peek(num_bits as u8);
            let t2 = b_val.peek(num_bits as u8);
            proof {
                assert(a_val@ == a0.take(num_bits as int));
                assert(b_val@ == b0.take(num_bits as int));
                lemma_holds_eq(
                    t1,
                    t2,
                    a_val@.take(num_bits as int),
                    b_val@.take(num_bits as int),
                );
                assert(a_val@.take(num_bits as int) =~= self@.subrange(k, k + num_bits));
                assert(b_val@.take(num_bits as int) =~= other@.subrange(k, k + num_bits));
            }
            if t1 != t2 {
                proof {
                    assert(self@.subrange(k, k + num_bits) != other@.subrange(k, k + num_bits));
                    if self@ == other@ {
                        assert(self@.subrange(k, k + num_bits) =~= other@.subrange(k, k + num_bits));
                    }
                }
                return false;
            }
            proof {
                assert(self@.take(k + num_bits) =~= self@.take(k) + self@.subrange(k, k + num_bits));
                assert(other@.take(k + num_bits) =~= other@.take(k) + other@.subrange(k, k + num_bits));
            }
        }
        proof {
            assert(self@ =~= self@.take(n as int));
            assert(other@ =~= other@.take(n as int));
        }
        true
    }
}

impl PartialEqSpecImpl for BitArray {
    open spec fn obeys_eq_spec() -> bool {
        true
    }

    open spec fn eq_spec(&self, other: &Self) -> bool {
        self@ == other@
    }
}

/// The bits that `eat` takes, followed by the bits it leaves (as `extend`
/// would put them back), are the bits that were there.
pub proof fn lemma_eat_then_extend(s: Seq<bool>, n: int)
    requires
        0 <= n <= s.len(),
    ensures
        s.take(n) + s.skip(n) == s,
{
    assert(s.take(n) + s.skip(n) =~= s);
}

/// The bytes that `to_bytes` gives, read back by `new` with the array's
/// length, give the array's bits.
pub proof fn lemma_to_bytes_then_new(s: Seq<bool>, bytes: Seq<u8>)
    requires
        bytes.len() == (s.len() + 7) / 8,
        forall|k: int| 0 <= k < 8 * bytes.len() ==> #[trigger] byte_bit(bytes, k) == (k < s.len() && s[k]),
    ensures
        bytes_bits(bytes).take(s.len() as int) == s,
{
    assert(bytes_bits(bytes).take(s.len() as int) =~= s);
}

/// Whole bytes read by `new` and written back by `to_bytes` are the same bytes.
pub proof fn lemma_new_then_to_bytes(d: Seq<u8>, r: Seq<u8>)
    requires
        r.len() == (bytes_bits(d).len() + 7) / 8,
        forall|k: int| 0 <= k < 8 * r.len() ==> #[trigger] byte_bit(r, k) == (k < bytes_bits(d).len() && bytes_bits(d)[k]),
    ensures
        r == d,
{
    assert forall|i: int| 0 <= i < d.len() implies r[i] == d[i] by {
        assert forall|j: u8| j < 8 implies #[trigger] bit_of(r[i], j) == bit_of(d[i], j) by {
            let k = 8 * i + j;
            assert(k / 8 == i && k % 8 == j);
            assert(byte_bit(r, k) == bytes_bits(d)[k]);
        }
        lemma_byte_ext(r[i], d[i]);
    }
    assert(r =~= d);
}

} // verus!
