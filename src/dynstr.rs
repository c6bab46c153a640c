//! A growable byte string: text held as bytes in one owned block, grown by
//! the shared policy, with byte-oriented equality, prefix and search.

use vstd::prelude::*;
use vstd::std_specs::cmp::PartialEqSpec;
use vstd::string::StringSliceAdditionalSpecFns;
use vstd::utf8::valid_utf8;
use crate::storage::{grown_capacity, RawStorage};

verus! {

/// `std::str::Utf8Error`, carried through unopened.
#[verifier::external_type_specification]
#[verifier::external_body]
pub struct ExUtf8Error(std::str::Utf8Error);

/// Relies on `std::str::from_utf8`: it succeeds exactly on well-formed UTF-8
/// and then returns text whose bytes are the input.
#[verifier::external_body]
fn utf8_text(b: &[u8]) -> (r: Result<&str, std::str::Utf8Error>)
    ensures
        r is Ok <==> valid_utf8(b@),
        r matches Ok(s) ==> s.spec_bytes() == b@,
{
    std::str::from_utf8(b)
}

/// The byte that a character is stored as: its code point, truncated to its
/// low eight bits.
pub open spec fn char_byte(c: char) -> u8 {
    (c as u32 % 256) as u8
}

/// Byte `b` reads as the character `c` (code points up to 255 only).
pub open spec fn byte_is_char(b: u8, c: char) -> bool {
    b as u32 == c as u32
}

/// `i` is the first position of `s` that holds `b`.
pub open spec fn is_first_index(s: Seq<u8>, b: u8, i: int) -> bool {
    0 <= i < s.len() && s[i] == b && forall|j: int| 0 <= j < i ==> s[j] != b
}

/// `p` is a non-empty prefix of `s`.
pub open spec fn has_prefix(s: Seq<u8>, p: Seq<u8>) -> bool {
    0 < p.len() <= s.len() && s.subrange(0, p.len() as int) == p
}

/// `p` is non-empty and occurs in `s` where the first byte of `p` first
/// occurs in `s`, without running past the end of `s`.
pub open spec fn found_at_first(s: Seq<u8>, p: Seq<u8>) -> bool {
    p.len() > 0 && exists|i: int|
        is_first_index(s, p[0], i) && i + p.len() <= s.len() && #[trigger] s.subrange(
            i,
            i + p.len(),
        ) == p
}

/// Setting lane `k` of a mask whose lanes from `k` on are clear: lane `k`
/// becomes `bit`, the lanes below keep their value, and those above stay
/// clear.
proof fn lemma_set_lane(m: u32, k: u32, bit: u32, j: u32)
    requires
        k < 8,
        bit <= 1,
        m >> k == 0,
    ensures
        j < k ==> ((m | (bit << k)) >> j) & 1u32 == (m >> j) & 1u32,
        ((m | (bit << k)) >> k) & 1u32 == bit,
        (m | (bit << k)) >> ((k + 1) as u32) == 0,
{
    assert(j < k ==> ((m | (bit << k)) >> j) & 1u32 == (m >> j) & 1u32) by (bit_vector)
        requires
            k < 8,
            bit <= 1,
            m >> k == 0,
    ;
    assert(((m | (bit << k)) >> k) & 1u32 == bit) by (bit_vector)
        requires
            k < 8,
            bit <= 1,
            m >> k == 0,
    ;
    assert((m | (bit << k)) >> ((k + 1) as u32) == 0) by (bit_vector)
        requires
            k < 8,
            bit <= 1,
            m >> k == 0,
    ;
}

/// A set lane of an eight-lane mask lies below lane eight.
proof fn lemma_lane_bound(m: u32, t: u32)
    requires
        m >> 8u32 == 0,
        t < 32,
        (m >> t) & 1u32 == 1u32,
    ensures
        t < 8,
{
    assert(t < 8) by (bit_vector)
        requires
            m >> 8u32 == 0,
            t < 32,
            (m >> t) & 1u32 == 1u32,
    ;
}

/// An empty mask has no lane set.
proof fn lemma_zero_lane(m: u32, k: u32)
    requires
        m == 0,
    ensures
        (m >> k) & 1u32 == 0u32,
{
    assert((m >> k) & 1u32 == 0u32) by (bit_vector)
        requires
            m == 0,
    ;
}

/// A growable string of bytes.
pub struct DynamicString {
    storage: RawStorage<u8>,
}

impl View for DynamicString {
    type V = Seq<u8>;

    /// The live bytes, in order.
    closed spec fn view(&self) -> Seq<u8> {
        self.storage@
    }
}

impl DynamicString {
    /// The number of bytes the block holds without reallocation.
    pub closed spec fn spec_capacity(&self) -> nat {
        self.storage.spec_capacity()
    }

    /// The live bytes never outnumber the slots.
    pub open spec fn wf(&self) -> bool {
        self@.len() <= self.spec_capacity()
    }

    /// A string holding the bytes of `s`, in a block of exactly that size.
    pub fn new(s: &str) -> (r: Self)
        ensures
            r.wf(),
            r@ == s.spec_bytes(),
            r.spec_capacity() == s.spec_bytes().len(),
    {
        let bytes = s.as_bytes();
        let n = bytes.len();
        let mut storage = RawStorage::acquire(n);
        let mut i: usize = 0;
        while i < n
            invariant
                n == bytes@.len(),
                i <= n,
                storage.wf(),
                storage.spec_capacity() == n,
                storage@ == bytes@.subrange(0, i as int),
            decreases n - i,
        {
            storage.write_next(bytes[i]);
            i += 1;
            assert(storage@ =~= bytes@.subrange(0, i as int));
        }
        assert(storage@ =~= bytes@);
        DynamicString { storage }
    }

    pub fn length(&self) -> (r: usize)
        ensures
            r == self@.len(),
    {
        return self.storage.len();
    }

    pub fn capacity(&self) -> (r: usize)
        ensures
            r == self.spec_capacity(),
    {
        self.storage.capacity()
    }

    /// Makes room for `additional` more bytes, by the shared growth policy.
    fn grow_buffer(&mut self, additional: usize)
        requires
            old(self).wf(),
            old(self)@.len() + additional <= usize::MAX,
        ensures
            final(self).wf(),
            final(self)@ == old(self)@,
            final(self).spec_capacity() == grown_capacity(
                old(self).spec_capacity(),
                (old(self)@.len() + additional) as nat,
            ),
    {
        self.storage.grow_to_fit(additional);
    }

    /// Appends the byte of `c` (its code point's low eight bits).
    pub fn append_char(&mut self, c: char)
        requires
            old(self).wf(),
            old(self)@.len() < usize::MAX,
        ensures
            final(self).wf(),
            final(self)@ == old(self)@.push(char_byte(c)),
            final(self).spec_capacity() == grown_capacity(
                old(self).spec_capacity(),
                old(self)@.len() + 1,
            ),
    {
        self.grow_buffer(1);
        let b: u8 = (c as u32 % 256) as u8;
        self.storage.write_next(b);
    }

    /// Appends the bytes of `s`, growing at most once.
    pub fn append_str(&mut self, s: &str)
        requires
            old(self).wf(),
            old(self)@.len() + s.spec_bytes().len() <= usize::MAX,
        ensures
            final(self).wf(),
            final(self)@ == old(self)@ + s.spec_bytes(),
            final(self).spec_capacity() == grown_capacity(
                old(self).spec_capacity(),
                (old(self)@.len() + s.spec_bytes().len()) as nat,
            ),
    {
        let bytes = s.as_bytes();
        self.append_bytes(bytes);
    }

    /// Appends every byte of `other`; `other` is left as it was.
    pub fn append(&mut self, other: &DynamicString)
        requires
            old(self).wf(),
            old(self)@.len() + other@.len() <= usize::MAX,
        ensures
            final(self).wf(),
            final(self)@ == old(self)@ + other@,
            final(self).spec_capacity() == grown_capacity(
                old(self).spec_capacity(),
                (old(self)@.len() + other@.len()) as nat,
            ),
    {
        let bytes = other.storage.as_slice();
        self.append_bytes(bytes);
    }

    fn append_bytes(&mut self, bytes: &[u8])
        requires
            old(self).wf(),
            old(self)@.len() + bytes@.len() <= usize::MAX,
        ensures
            final(self).wf(),
            final(self)@ == old(self)@ + bytes@,
            final(self).spec_capacity() == grown_capacity(
                old(self).spec_capacity(),
                (old(self)@.len() + bytes@.len()) as nat,
            ),
    {
        let n = bytes.len();
        self.grow_buffer(n);
        let ghost start = self@;
        let ghost cap = self.spec_capacity();
        let mut i: usize = 0;
        while i < n
            invariant
                n == bytes@.len(),
                i <= n,
                self.wf(),
                cap == self.spec_capacity(),
                start.len() + n <= cap,
                self@ == start + bytes@.subrange(0, i as int),
            decreases n - i,
        {
            self.storage.write_next(bytes[i]);
            i += 1;
            assert(self@ =~= start + bytes@.subrange(0, i as int));
        }
        assert(bytes@.subrange(0, n as int) =~= bytes@);
    }

    /// The live bytes.
    pub fn as_bytes(&self) -> (r: &[u8])
        ensures
            r@ == self@,
    {
        self.storage.as_slice()
    }

    /// The live bytes read as text.
    pub fn as_str(&self) -> (r: &str)
        requires
            valid_utf8(self@),
        ensures
            r.spec_bytes() == self@,
    {
        match utf8_text(self.storage.as_slice()) {
            Ok(s) => s,
            Err(_) => "",
        }
    }

    /// Removes the last byte.
    pub fn pop(&mut self)
        requires
            old(self).wf(),
            old(self)@.len() > 0,
        ensures
            final(self).wf(),
            final(self)@ == old(self)@.drop_last(),
            final(self).spec_capacity() == old(self).spec_capacity(),
    {
        self.storage.remove_last();
    }

    /// A mask of the eight lanes from `at` on: bit `k` is set exactly where
    /// byte `at + k` of `a` is `b`.
    fn lane_mask(a: &[u8], at: usize, b: u8) -> (m: u32)
        requires
            at + 8 <= a@.len(),
        ensures
            m >> 8u32 == 0,
            forall|k: u32| k < 8 ==> (#[trigger] ((m >> k) & 1u32) == 1u32) == (a@[at + k] == b),
    {
        let n = a.len();
        let mut m: u32 = 0;
        let mut k: u32 = 0;
        assert(m >> k == 0) by (bit_vector)
            requires
                m == 0,
        ;
        while k < 8
            invariant
                n == a@.len(),
                at + 8 <= a@.len(),
                k <= 8,
                m >> k == 0,
                forall|j: u32| j < k ==> (#[trigger] ((m >> j) & 1u32) == 1u32) == (a@[at + j] == b),
            decreases 8 - k,
        {
            let bit: u32 = if a[at + k as usize] == b { 1 } else { 0 };
            let next = m | (bit << k);
            proof {
                assert forall|j: u32| j < k implies #[trigger] ((next >> j) & 1u32) == ((m >> j) & 1u32) by {
                    lemma_set_lane(m, k, bit, j);
                }
                lemma_set_lane(m, k, bit, k);
            }
            m = next;
            k += 1;
        }
        m
    }

    /// The first position holding byte `b`: whole blocks of eight bytes are
    /// tested at once through their lane mask, whose lowest set bit is the
    /// first match in the block; the bytes that remain are tested one by one.
    fn index_of_byte(&self, b: u8) -> (r: Option<usize>)
        ensures
            r matches Some(i) ==> is_first_index(self@, b, i as int),
            r is None ==> forall|j: int| 0 <= j < self@.len() ==> self@[j] != b,
    {
        let bytes = self.storage.as_slice();
        let n = bytes.len();
        let mut i: usize = 0;
        while n - i >= 8
            invariant
                bytes@ == self@,
                n == bytes@.len(),
                i <= n,
                forall|j: int| 0 <= j < i ==> bytes@[j] != b,
            decreases n - i,
        {
            let mask = Self::lane_mask(bytes, i, b);
            if mask != 0 {
                let t = mask.trailing_zeros();
                proof {
                    vstd::std_specs::bits::axiom_u32_trailing_zeros(mask);
                    lemma_lane_bound(mask, t);
                    assert((mask >> t) & 1u32 == 1u32);
                    assert forall|j: int| 0 <= j < i + t implies bytes@[j] != b by {
                        if j >= i {
                            let k = (j - i) as u32;
                            assert((mask >> k) & 1u32 == 0u32);
                        }
                    }
                }
                return Some(i + t as usize);
            }
            proof {
                assert forall|j: int| 0 <= j < i + 8 implies bytes@[j] != b by {
                    if j >= i {
                        let k = (j - i) as u32;
                        lemma_zero_lane(mask, k);
                    }
                }
            }
            i += 8;
        }
        while i < n
            invariant
                bytes@ == self@,
                n == bytes@.len(),
                i <= n,
                forall|j: int| 0 <= j < i ==> bytes@[j] != b,
            decreases n - i,
        {
            if bytes[i] == b {
                return Some(i);
            }
            i += 1;
        }
        None
    }

    /// The first position whose byte reads as `c`; none where no byte does
    /// (always so for a code point above 255).
    pub fn index_of(&self, c: char) -> (r: Option<usize>)
        ensures
            r matches Some(i) ==> i < self@.len() && byte_is_char(self@[i as int], c) && forall|
                j: int,
            |
                0 <= j < i ==> !byte_is_char(#[trigger] self@[j], c),
            r is None ==> forall|j: int|
                0 <= j < self@.len() ==> !byte_is_char(#[trigger] self@[j], c),
    {
        let code = c as u32;
        if code > 255 {
            return None;
        }
        let b = code as u8;
        self.index_of_byte(b)
    }

    /// Whether `pattern` stands where its first byte first occurs.
    pub fn find_pattern(&self, pattern: &str) -> (r: bool)
        ensures
            r == found_at_first(self@, pattern.spec_bytes()),
    {
        let p = pattern.as_bytes();
        let plen = p.len();
        if plen == 0 {
            return false;
        }
        let bytes = self.storage.as_slice();
        let n = bytes.len();
        let index = match self.index_of_byte(p[0]) {
            Some(i) => i,
            None => {
                assert forall|i: int| !is_first_index(self@, p@[0], i) by {}
                return false;
            },
        };
        proof {
            assert forall|k: int| #[trigger] is_first_index(self@, p@[0], k) implies k == index by {
                if k < index {
                    assert(self@[k] == p@[0]);
                } else if k > index {
                    assert(self@[index as int] == p@[0]);
                }
            }
        }
        if plen > n - index {
            return false;
        }
        let mut i: usize = 1;
        while i < plen
            invariant
                bytes@ == self@,
                n == bytes@.len(),
                index + plen <= n,
                plen == p@.len(),
                p@ == pattern.spec_bytes(),
                is_first_index(self@, p@[0], index as int),
                forall|k: int| #[trigger] is_first_index(self@, p@[0], k) ==> k == index,
                1 <= i <= plen,
                p@[0] == bytes@[index as int],
                forall|k: int| 0 <= k < i ==> p@[k] == bytes@[index + k],
            decreases plen - i,
        {
            if p[i] != bytes[index + i] {
                assert(self@.subrange(index as int, index + plen)[i as int] != p@[i as int]);
                return false;
            }
            i += 1;
        }
        assert(self@.subrange(index as int, index + plen) =~= p@);
        true
    }

    /// Whether eight bytes of `a` and `b` from `at` on are all equal.
    fn block_equal(a: &[u8], b: &[u8], at: usize) -> (r: bool)
        requires
            at + 8 <= a@.len(),
            at + 8 <= b@.len(),
        ensures
            r == forall|k: int| at <= k < at + 8 ==> a@[k] == b@[k],
    {
        a[at] == b[at] && a[at + 1] == b[at + 1] && a[at + 2] == b[at + 2] && a[at + 3] == b[at
            + 3] && a[at + 4] == b[at + 4] && a[at + 5] == b[at + 5] && a[at + 6] == b[at + 6]
            && a[at + 7] == b[at + 7]
    }

    /// Byte-wise equality: whole blocks of eight bytes first, stopping at the
    /// first unequal block, then the bytes that remain one by one.
    fn is_eql(&self, other: &Self) -> (r: bool)
        ensures
            r == (self@ == other@),
    {
        let a = self.storage.as_slice();
        let b = other.storage.as_slice();
        let n = a.len();
        if n != b.len() {
            return false;
        }
        let mut i: usize = 0;
        while n - i >= 8
            invariant
                a@ == self@,
                b@ == other@,
                n == a@.len(),
                n == b@.len(),
                i <= n,
                forall|k: int| 0 <= k < i ==> a@[k] == b@[k],
            decreases n - i,
        {
            if !Self::block_equal(a, b, i) {
                return false;
            }
            i += 8;
        }
        while i < n
            invariant
                a@ == self@,
                b@ == other@,
                n == a@.len(),
                n == b@.len(),
                i <= n,
                forall|k: int| 0 <= k < i ==> a@[k] == b@[k],
            decreases n - i,
        {
            if a[i] != b[i] {
                return false;
            }
            i += 1;
        }
        assert(self@ =~= other@);
        true
    }

    /// Whether `pattern` is a non-empty prefix of the live bytes.
    pub fn start_with(&self, pattern: &str) -> (r: bool)
        ensures
            r == has_prefix(self@, pattern.spec_bytes()),
    {
        let p = pattern.as_bytes();
        let plen = p.len();
        let bytes = self.storage.as_slice();
        if plen == 0 || plen > bytes.len() {
            return false;
        }
        let mut i: usize = 0;
        while i < plen
            invariant
                bytes@ == self@,
                plen <= bytes@.len(),
                plen == p@.len(),
                p@ == pattern.spec_bytes(),
                i <= plen,
                forall|k: int| 0 <= k < i ==> p@[k] == bytes@[k],
            decreases plen - i,
        {
            if p[i] != bytes[i] {
                assert(self@.subrange(0, plen as int)[i as int] != p@[i as int]);
                return false;
            }
            i += 1;
        }
        assert(self@.subrange(0, plen as int) =~= p@);
        true
    }
}

impl PartialEq for DynamicString {
    fn eq(&self, other: &Self) -> (r: bool) {
        self.is_eql(other)
    }
}

impl vstd::std_specs::cmp::PartialEqSpecImpl for DynamicString {
    open spec fn obeys_eq_spec() -> bool {
        true
    }

    open spec fn eq_spec(&self, other: &DynamicString) -> bool {
        self@ == other@
    }
}

/// Equality of strings is reflexive and symmetric, and strings of
/// different lengths are never equal.
pub proof fn lemma_equality_laws(a: &DynamicString, b: &DynamicString)
    ensures
        a.eq_spec(a),
        a.eq_spec(b) == b.eq_spec(a),
        a@.len() != b@.len() ==> !a.eq_spec(b),
{
}

impl Eq for DynamicString {

}

} // verus!
