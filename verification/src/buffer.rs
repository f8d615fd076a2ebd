//! A bounds-checked, typed binary cursor over a response buffer.
//!
//! [`Buffer`] owns a byte sequence and a read position. Every read of `N`
//! bytes either fully succeeds — returning the decoded value and advancing
//! the position by exactly `N` — or fails atomically with
//! [`GDError::UnderflowError`], leaving the position unchanged.

use vstd::prelude::*;

use crate::error::{GDError, GDResult};

verus! {

/// `256^n`, the number of values that `n` bytes can hold.
pub open spec fn pow256(n: nat) -> nat
    decreases n,
{
    if n == 0 {
        1
    } else {
        256 * pow256((n - 1) as nat)
    }
}

/// The unsigned value of `s` read in big-endian order (first byte most
/// significant).
pub open spec fn be_value(s: Seq<u8>) -> nat
    decreases s.len(),
{
    if s.len() == 0 {
        0
    } else {
        (256 * be_value(s.drop_last()) + s.last()) as nat
    }
}

/// The unsigned value of `s` read in little-endian order (first byte least
/// significant).
pub open spec fn le_value(s: Seq<u8>) -> nat
    decreases s.len(),
{
    if s.len() == 0 {
        0
    } else {
        (s.first() + 256 * le_value(s.drop_first())) as nat
    }
}

/// Reinterprets the unsigned value `v` of a `w`-byte word as the signed
/// two's-complement value of the same word.
pub open spec fn twos_complement(v: nat, w: nat) -> int {
    if 2 * v < pow256(w) {
        v as int
    } else {
        v as int - pow256(w)
    }
}

/// The concrete sizes of the word widths the cursor reads.
pub proof fn lemma_pow256_values()
    ensures
        pow256(1) == 0x100,
        pow256(2) == 0x10000,
        pow256(4) == 0x100000000,
        pow256(8) == 0x10000000000000000,
        pow256(16) == 0x100000000000000000000000000000000,
{
    assert(pow256(0) == 1);
    assert(pow256(1) == 0x100);
    assert(pow256(2) == 0x10000);
    assert(pow256(3) == 0x1000000);
    assert(pow256(4) == 0x100000000);
    assert(pow256(5) == 0x10000000000);
    assert(pow256(6) == 0x1000000000000);
    assert(pow256(7) == 0x100000000000000);
    assert(pow256(8) == 0x10000000000000000);
    assert(pow256(9) == 0x1000000000000000000);
    assert(pow256(10) == 0x100000000000000000000);
    assert(pow256(11) == 0x10000000000000000000000);
    assert(pow256(12) == 0x1000000000000000000000000);
    assert(pow256(13) == 0x100000000000000000000000000);
    assert(pow256(14) == 0x10000000000000000000000000000);
    assert(pow256(15) == 0x1000000000000000000000000000000);
    assert(pow256(16) == 0x100000000000000000000000000000000);
}

pub proof fn lemma_pow256_le(i: nat, j: nat)
    requires
        i <= j,
    ensures
        pow256(i) <= pow256(j),
    decreases j,
{
    if i < j {
        lemma_pow256_le(i, (j - 1) as nat);
    }
}

pub proof fn lemma_be_value_bound(s: Seq<u8>)
    ensures
        be_value(s) < pow256(s.len()),
    decreases s.len(),
{
    if s.len() > 0 {
        lemma_be_value_bound(s.drop_last());
    }
}

pub proof fn lemma_le_value_bound(s: Seq<u8>)
    ensures
        le_value(s) < pow256(s.len()),
    decreases s.len(),
{
    if s.len() > 0 {
        lemma_le_value_bound(s.drop_first());
    }
}

/// A sequential, position-tracking, bounds-checked byte decoder.
pub struct Buffer {
    inner: Vec<u8>,
    pos: usize,
}

impl Buffer {
    /// The bytes this cursor decodes. They never change after construction.
    pub closed spec fn data(&self) -> Seq<u8> {
        self.inner@
    }

    /// The current read position.
    pub closed spec fn position(&self) -> nat {
        self.pos as nat
    }

    /// The position never passes the end of the data.
    pub open spec fn wf(&self) -> bool {
        self.position() <= self.data().len()
    }

    /// How many bytes are left to read.
    pub open spec fn available_spec(&self) -> nat {
        if self.position() <= self.data().len() {
            (self.data().len() - self.position()) as nat
        } else {
            0
        }
    }

    /// Whether `n` more bytes can be read.
    pub open spec fn can_read(&self, n: nat) -> bool {
        self.position() + n <= self.data().len()
    }

    /// The next `n` bytes, the ones a successful read of `n` consumes.
    pub open spec fn taken(&self, n: nat) -> Seq<u8> {
        self.data().subrange(self.position() as int, (self.position() + n) as int)
    }

    /// The bytes not yet consumed.
    pub open spec fn remaining(&self) -> Seq<u8> {
        self.data().subrange(self.position() as int, self.data().len() as int)
    }

    /// `self` is `prev` after consuming exactly `n` bytes.
    pub open spec fn advanced(&self, prev: Buffer, n: nat) -> bool {
        &&& self.data() == prev.data()
        &&& self.position() == prev.position() + n
    }

    /// `e` is the underflow failure that a read of `n` bytes from `self`
    /// reports: the requested and available counts, plus a diagnostic
    /// snapshot of the position and the whole buffer.
    pub open spec fn underflow_err(&self, e: GDError, n: nat) -> bool {
        e matches GDError::UnderflowError { attempted, available, pos, buffer }
            && attempted == n && available == self.available_spec() && pos == self.position()
            && buffer@ == self.data()
    }

    pub fn new(data: Vec<u8>) -> (r: Buffer)
        ensures
            r.wf(),
            r.data() == data@,
            r.position() == 0,
    {
        Buffer { inner: data, pos: 0 }
    }

    /// How many bytes are left to read.
    pub fn available(&self) -> (r: usize)
        requires
            self.wf(),
        ensures
            r == self.available_spec(),
    {
        self.inner.len() - self.pos
    }

    /// The bytes not yet consumed, copied out.
    pub fn remaining_bytes(&self) -> (r: Vec<u8>)
        requires
            self.wf(),
        ensures
            r@ == self.data().subrange(self.position() as int, self.data().len() as int),
    {
        let s = vstd::slice::slice_subrange(self.inner.as_slice(), self.pos, self.inner.len());
        vstd::slice::slice_to_vec(s)
    }

    /// The shared primitive under every typed read: takes the next `n` bytes
    /// if they are there, else fails with an underflow report and leaves the
    /// position unchanged.
    pub fn _get_inner_slice(&mut self, n: usize) -> (r: GDResult<Vec<u8>>)
        requires
            old(self).wf(),
        ensures
            final(self).wf(),
            final(self).data() == old(self).data(),
            old(self).can_read(n as nat) ==> {
                &&& r is Ok
                &&& r->Ok_0@ == old(self).taken(n as nat)
                &&& final(self).advanced(*old(self), n as nat)
            },
            !old(self).can_read(n as nat) ==> {
                &&& r is Err
                &&& final(self).position() == old(self).position()
                &&& old(self).underflow_err(r->Err_0, n as nat)
            },
    {
        let available: usize = self.inner.len() - self.pos;

        if n > available {
            return Err(GDError::UnderflowError {
                attempted: n,
                available,
                pos: self.pos,
                buffer: vstd::slice::slice_to_vec(self.inner.as_slice()),
            });
        }

        let s = vstd::slice::slice_subrange(self.inner.as_slice(), self.pos, self.pos + n);
        let out = vstd::slice::slice_to_vec(s);
        self.pos = self.pos + n;
        Ok(out)
    }

    /// Reads `n` bytes and folds them most-significant first.
    fn read_be(&mut self, n: usize) -> (r: GDResult<u128>)
        requires
            old(self).wf(),
            n <= 16,
        ensures
            final(self).wf(),
            final(self).data() == old(self).data(),
            old(self).can_read(n as nat) ==> {
                &&& r is Ok
                &&& r->Ok_0 == be_value(old(self).taken(n as nat))
                &&& final(self).advanced(*old(self), n as nat)
            },
            !old(self).can_read(n as nat) ==> {
                &&& r is Err
                &&& final(self).position() == old(self).position()
                &&& old(self).underflow_err(r->Err_0, n as nat)
            },
    {
        match self._get_inner_slice(n) {
            Ok(bytes) => Ok(be_bytes_to_u128(&bytes)),
            Err(e) => Err(e),
        }
    }

    /// Reads `n` bytes and folds them least-significant first.
    fn read_le(&mut self, n: usize) -> (r: GDResult<u128>)
        requires
            old(self).wf(),
            n <= 16,
        ensures
            final(self).wf(),
            final(self).data() == old(self).data(),
            old(self).can_read(n as nat) ==> {
                &&& r is Ok
                &&& r->Ok_0 == le_value(old(self).taken(n as nat))
                &&& final(self).advanced(*old(self), n as nat)
            },
            !old(self).can_read(n as nat) ==> {
                &&& r is Err
                &&& final(self).position() == old(self).position()
                &&& old(self).underflow_err(r->Err_0, n as nat)
            },
    {
        match self._get_inner_slice(n) {
            Ok(bytes) => Ok(le_bytes_to_u128(&bytes)),
            Err(e) => Err(e),
        }
    }
}

/// Folds `b` most-significant byte first into one unsigned value.
fn be_bytes_to_u128(b: &Vec<u8>) -> (r: u128)
    requires
        b@.len() <= 16,
    ensures
        r == be_value(b@),
{
    let n = b.len();
    let mut acc: u128 = 0;
    let mut i: usize = 0;
    proof {
        assert(b@.subrange(0, 0) =~= Seq::<u8>::empty());
    }
    while i < n
        invariant
            0 <= i <= n,
            n == b@.len() <= 16,
            acc == be_value(b@.subrange(0, i as int)),
            acc < pow256(i as nat),
        decreases n - i,
    {
        proof {
            lemma_pow256_le((i + 1) as nat, 16);
            lemma_pow256_values();
            assert(b@.subrange(0, i + 1).drop_last() =~= b@.subrange(0, i as int));
            assert(b@.subrange(0, i + 1).last() == b@[i as int]);
        }
        acc = acc * 256 + (b[i] as u128);
        i = i + 1;
    }
    proof {
        assert(b@.subrange(0, n as int) =~= b@);
    }
    acc
}

/// Folds `b` least-significant byte first into one unsigned value.
fn le_bytes_to_u128(b: &Vec<u8>) -> (r: u128)
    requires
        b@.len() <= 16,
    ensures
        r == le_value(b@),
{
    let n = b.len();
    let mut acc: u128 = 0;
    let mut i: usize = n;
    proof {
        assert(b@.subrange(n as int, n as int) =~= Seq::<u8>::empty());
    }
    while i > 0
        invariant
            0 <= i <= n,
            n == b@.len() <= 16,
            acc == le_value(b@.subrange(i as int, n as int)),
            acc < pow256((n - i) as nat),
        decreases i,
    {
        proof {
            lemma_pow256_le((n - i + 1) as nat, 16);
            lemma_pow256_values();
            assert(b@.subrange(i - 1, n as int).drop_first() =~= b@.subrange(i as int, n as int));
            assert(b@.subrange(i - 1, n as int).first() == b@[i - 1]);
        }
        acc = acc * 256 + (b[i - 1] as u128);
        i = i - 1;
    }
    proof {
        assert(b@.subrange(0, n as int) =~= b@);
    }
    acc
}



/// The unsigned value of the low 32 bits of `v`.
pub open spec fn wrap_u32(v: int) -> nat {
    (v % 0x100000000) as nat
}

/// The signed 32-bit value with the same low 32 bits as `v`.
pub open spec fn wrap_i32(v: int) -> int {
    twos_complement(wrap_u32(v), 4)
}

/// Keeps the low 32 bits of an unsigned 64-bit value.
pub(crate) fn u64_wrap_to_u32(x: u64) -> (r: u32)
    ensures
        r as int == wrap_u32(x as int),
{
    (x % 0x100000000) as u32
}

/// Reduces a signed 64-bit value to the signed 32-bit value with the same
/// low 32 bits.
pub(crate) fn i64_wrap_to_i32(p: i64) -> (r: i32)
    ensures
        r as int == wrap_i32(p as int),
{
    let wide: u64 = if p >= 0 {
        p as u64
    } else {
        ((p as i128) + 0x10000000000000000i128) as u64
    };
    proof {
        if p < 0 {
            assert(wide == p + 0x10000000000000000);
            vstd::arithmetic::div_mod::lemma_mod_multiples_vanish(
                0x100000000,
                p as int,
                0x100000000,
            );
            assert(0x100000000int * 0x100000000int + p == wide as int);
        }
        assert((wide as int) % 0x100000000 == (p as int) % 0x100000000);
    }
    let u: u32 = (wide % 0x100000000) as u32;
    u32_to_i32(u)
}

/// Reinterprets a 1-byte unsigned value as its two's-complement signed
/// reading.
fn u8_to_i8(u: u8) -> (r: i8)
    ensures
        r as int == twos_complement(u as nat, 1),
{
    proof {
        lemma_pow256_values();
    }
    if u < 0x80 {
        u as i8
    } else {
        -((u8::MAX - u) as i8) - 1
    }
}

/// Reinterprets a 2-byte unsigned value as its two's-complement signed
/// reading.
fn u16_to_i16(u: u16) -> (r: i16)
    ensures
        r as int == twos_complement(u as nat, 2),
{
    proof {
        lemma_pow256_values();
    }
    if u < 0x8000 {
        u as i16
    } else {
        -((u16::MAX - u) as i16) - 1
    }
}

/// Reinterprets a 4-byte unsigned value as its two's-complement signed
/// reading.
pub(crate) fn u32_to_i32(u: u32) -> (r: i32)
    ensures
        r as int == twos_complement(u as nat, 4),
{
    proof {
        lemma_pow256_values();
    }
    if u < 0x80000000 {
        u as i32
    } else {
        -((u32::MAX - u) as i32) - 1
    }
}

/// Reinterprets an 8-byte unsigned value as its two's-complement signed
/// reading.
fn u64_to_i64(u: u64) -> (r: i64)
    ensures
        r as int == twos_complement(u as nat, 8),
{
    proof {
        lemma_pow256_values();
    }
    if u < 0x8000000000000000 {
        u as i64
    } else {
        -((u64::MAX - u) as i64) - 1
    }
}

/// Reinterprets a 16-byte unsigned value as its two's-complement signed
/// reading.
fn u128_to_i128(u: u128) -> (r: i128)
    ensures
        r as int == twos_complement(u as nat, 16),
{
    proof {
        lemma_pow256_values();
    }
    if u < 0x80000000000000000000000000000000 {
        u as i128
    } else {
        -((u128::MAX - u) as i128) - 1
    }
}

impl Buffer {
    /// Reads `u8`
    pub fn read_u8(&mut self) -> (r: GDResult<u8>)
        requires
            old(self).wf(),
        ensures
            final(self).wf(),
            final(self).data() == old(self).data(),
            old(self).can_read(1) ==> {
                &&& r is Ok
                &&& r->Ok_0 == be_value(old(self).taken(1))
                &&& final(self).advanced(*old(self), 1)
            },
            !old(self).can_read(1) ==> {
                &&& r is Err
                &&& final(self).position() == old(self).position()
                &&& old(self).underflow_err(r->Err_0, 1)
            },
    {
        let ghost orig = *self;
        match self.read_be(1) {
            Ok(v) => {
                proof {
                    lemma_be_value_bound(orig.taken(1));
                    lemma_pow256_values();
                }
                Ok(v as u8)
            }
            Err(e) => Err(e),
        }
    }

    /// Reads `i8`
    pub fn read_i8(&mut self) -> (r: GDResult<i8>)
        requires
            old(self).wf(),
        ensures
            final(self).wf(),
            final(self).data() == old(self).data(),
            old(self).can_read(1) ==> {
                &&& r is Ok
                &&& r->Ok_0 as int == twos_complement(be_value(old(self).taken(1)), 1)
                &&& final(self).advanced(*old(self), 1)
            },
            !old(self).can_read(1) ==> {
                &&& r is Err
                &&& final(self).position() == old(self).position()
                &&& old(self).underflow_err(r->Err_0, 1)
            },
    {
        let ghost orig = *self;
        match self.read_be(1) {
            Ok(v) => {
                proof {
                    lemma_be_value_bound(orig.taken(1));
                    lemma_pow256_values();
                }
                Ok(u8_to_i8(v as u8))
            }
            Err(e) => Err(e),
        }
    }

    /// Reads `u16` (BE)
    pub fn read_u16_be(&mut self) -> (r: GDResult<u16>)
        requires
            old(self).wf(),
        ensures
            final(self).wf(),
            final(self).data() == old(self).data(),
            old(self).can_read(2) ==> {
                &&& r is Ok
                &&& r->Ok_0 == be_value(old(self).taken(2))
                &&& final(self).advanced(*old(self), 2)
            },
            !old(self).can_read(2) ==> {
                &&& r is Err
                &&& final(self).position() == old(self).position()
                &&& old(self).underflow_err(r->Err_0, 2)
            },
    {
        let ghost orig = *self;
        match self.read_be(2) {
            Ok(v) => {
                proof {
                    lemma_be_value_bound(orig.taken(2));
                    lemma_pow256_values();
                }
                Ok(v as u16)
            }
            Err(e) => Err(e),
        }
    }

    /// Reads `i16` (BE)
    pub fn read_i16_be(&mut self) -> (r: GDResult<i16>)
        requires
            old(self).wf(),
        ensures
            final(self).wf(),
            final(self).data() == old(self).data(),
            old(self).can_read(2) ==> {
                &&& r is Ok
                &&& r->Ok_0 as int == twos_complement(be_value(old(self).taken(2)), 2)
                &&& final(self).advanced(*old(self), 2)
            },
            !old(self).can_read(2) ==> {
                &&& r is Err
                &&& final(self).position() == old(self).position()
                &&& old(self).underflow_err(r->Err_0, 2)
            },
    {
        let ghost orig = *self;
        match self.read_be(2) {
            Ok(v) => {
                proof {
                    lemma_be_value_bound(orig.taken(2));
                    lemma_pow256_values();
                }
                Ok(u16_to_i16(v as u16))
            }
            Err(e) => Err(e),
        }
    }

    /// Reads `u16` (LE)
    pub fn read_u16_le(&mut self) -> (r: GDResult<u16>)
        requires
            old(self).wf(),
        ensures
            final(self).wf(),
            final(self).data() == old(self).data(),
            old(self).can_read(2) ==> {
                &&& r is Ok
                &&& r->Ok_0 == le_value(old(self).taken(2))
                &&& final(self).advanced(*old(self), 2)
            },
            !old(self).can_read(2) ==> {
                &&& r is Err
                &&& final(self).position() == old(self).position()
                &&& old(self).underflow_err(r->Err_0, 2)
            },
    {
        let ghost orig = *self;
        match self.read_le(2) {
            Ok(v) => {
                proof {
                    lemma_le_value_bound(orig.taken(2));
                    lemma_pow256_values();
                }
                Ok(v as u16)
            }
            Err(e) => Err(e),
        }
    }

    /// Reads `i16` (LE)
    pub fn read_i16_le(&mut self) -> (r: GDResult<i16>)
        requires
            old(self).wf(),
        ensures
            final(self).wf(),
            final(self).data() == old(self).data(),
            old(self).can_read(2) ==> {
                &&& r is Ok
                &&& r->Ok_0 as int == twos_complement(le_value(old(self).taken(2)), 2)
                &&& final(self).advanced(*old(self), 2)
            },
            !old(self).can_read(2) ==> {
                &&& r is Err
                &&& final(self).position() == old(self).position()
                &&& old(self).underflow_err(r->Err_0, 2)
            },
    {
        let ghost orig = *self;
        match self.read_le(2) {
            Ok(v) => {
                proof {
                    lemma_le_value_bound(orig.taken(2));
                    lemma_pow256_values();
                }
                Ok(u16_to_i16(v as u16))
            }
            Err(e) => Err(e),
        }
    }

    /// Reads `u32` (BE)
    pub fn read_u32_be(&mut self) -> (r: GDResult<u32>)
        requires
            old(self).wf(),
        ensures
            final(self).wf(),
            final(self).data() == old(self).data(),
            old(self).can_read(4) ==> {
                &&& r is Ok
                &&& r->Ok_0 == be_value(old(self).taken(4))
                &&& final(self).advanced(*old(self), 4)
            },
            !old(self).can_read(4) ==> {
                &&& r is Err
                &&& final(self).position() == old(self).position()
                &&& old(self).underflow_err(r->Err_0, 4)
            },
    {
        let ghost orig = *self;
        match self.read_be(4) {
            Ok(v) => {
                proof {
                    lemma_be_value_bound(orig.taken(4));
                    lemma_pow256_values();
                }
                Ok(v as u32)
            }
            Err(e) => Err(e),
        }
    }

    /// Reads `i32` (BE)
    pub fn read_i32_be(&mut self) -> (r: GDResult<i32>)
        requires
            old(self).wf(),
        ensures
            final(self).wf(),
            final(self).data() == old(self).data(),
            old(self).can_read(4) ==> {
                &&& r is Ok
                &&& r->Ok_0 as int == twos_complement(be_value(old(self).taken(4)), 4)
                &&& final(self).advanced(*old(self), 4)
            },
            !old(self).can_read(4) ==> {
                &&& r is Err
                &&& final(self).position() == old(self).position()
                &&& old(self).underflow_err(r->Err_0, 4)
            },
    {
        let ghost orig = *self;
        match self.read_be(4) {
            Ok(v) => {
                proof {
                    lemma_be_value_bound(orig.taken(4));
                    lemma_pow256_values();
                }
                Ok(u32_to_i32(v as u32))
            }
            Err(e) => Err(e),
        }
    }

    /// Reads `u32` (LE)
    pub fn read_u32_le(&mut self) -> (r: GDResult<u32>)
        requires
            old(self).wf(),
        ensures
            final(self).wf(),
            final(self).data() == old(self).data(),
            old(self).can_read(4) ==> {
                &&& r is Ok
                &&& r->Ok_0 == le_value(old(self).taken(4))
                &&& final(self).advanced(*old(self), 4)
            },
            !old(self).can_read(4) ==> {
                &&& r is Err
                &&& final(self).position() == old(self).position()
                &&& old(self).underflow_err(r->Err_0, 4)
            },
    {
        let ghost orig = *self;
        match self.read_le(4) {
            Ok(v) => {
                proof {
                    lemma_le_value_bound(orig.taken(4));
                    lemma_pow256_values();
                }
                Ok(v as u32)
            }
            Err(e) => Err(e),
        }
    }

    /// Reads `i32` (LE)
    pub fn read_i32_le(&mut self) -> (r: GDResult<i32>)
        requires
            old(self).wf(),
        ensures
            final(self).wf(),
            final(self).data() == old(self).data(),
            old(self).can_read(4) ==> {
                &&& r is Ok
                &&& r->Ok_0 as int == twos_complement(le_value(old(self).taken(4)), 4)
                &&& final(self).advanced(*old(self), 4)
            },
            !old(self).can_read(4) ==> {
                &&& r is Err
                &&& final(self).position() == old(self).position()
                &&& old(self).underflow_err(r->Err_0, 4)
            },
    {
        let ghost orig = *self;
        match self.read_le(4) {
            Ok(v) => {
                proof {
                    lemma_le_value_bound(orig.taken(4));
                    lemma_pow256_values();
                }
                Ok(u32_to_i32(v as u32))
            }
            Err(e) => Err(e),
        }
    }

    /// Reads `u64` (BE)
    pub fn read_u64_be(&mut self) -> (r: GDResult<u64>)
        requires
            old(self).wf(),
        ensures
            final(self).wf(),
            final(self).data() == old(self).data(),
            old(self).can_read(8) ==> {
                &&& r is Ok
                &&& r->Ok_0 == be_value(old(self).taken(8))
                &&& final(self).advanced(*old(self), 8)
            },
            !old(self).can_read(8) ==> {
                &&& r is Err
                &&& final(self).position() == old(self).position()
                &&& old(self).underflow_err(r->Err_0, 8)
            },
    {
        let ghost orig = *self;
        match self.read_be(8) {
            Ok(v) => {
                proof {
                    lemma_be_value_bound(orig.taken(8));
                    lemma_pow256_values();
                }
                Ok(v as u64)
            }
            Err(e) => Err(e),
        }
    }

    /// Reads `i64` (BE)
    pub fn read_i64_be(&mut self) -> (r: GDResult<i64>)
        requires
            old(self).wf(),
        ensures
            final(self).wf(),
            final(self).data() == old(self).data(),
            old(self).can_read(8) ==> {
                &&& r is Ok
                &&& r->Ok_0 as int == twos_complement(be_value(old(self).taken(8)), 8)
                &&& final(self).advanced(*old(self), 8)
            },
            !old(self).can_read(8) ==> {
                &&& r is Err
                &&& final(self).position() == old(self).position()
                &&& old(self).underflow_err(r->Err_0, 8)
            },
    {
        let ghost orig = *self;
        match self.read_be(8) {
            Ok(v) => {
                proof {
                    lemma_be_value_bound(orig.taken(8));
                    lemma_pow256_values();
                }
                Ok(u64_to_i64(v as u64))
            }
            Err(e) => Err(e),
        }
    }

    /// Reads `u64` (LE)
    pub fn read_u64_le(&mut self) -> (r: GDResult<u64>)
        requires
            old(self).wf(),
        ensures
            final(self).wf(),
            final(self).data() == old(self).data(),
            old(self).can_read(8) ==> {
                &&& r is Ok
                &&& r->Ok_0 == le_value(old(self).taken(8))
                &&& final(self).advanced(*old(self), 8)
            },
            !old(self).can_read(8) ==> {
                &&& r is Err
                &&& final(self).position() == old(self).position()
                &&& old(self).underflow_err(r->Err_0, 8)
            },
    {
        let ghost orig = *self;
        match self.read_le(8) {
            Ok(v) => {
                proof {
                    lemma_le_value_bound(orig.taken(8));
                    lemma_pow256_values();
                }
                Ok(v as u64)
            }
            Err(e) => Err(e),
        }
    }

    /// Reads `i64` (LE)
    pub fn read_i64_le(&mut self) -> (r: GDResult<i64>)
        requires
            old(self).wf(),
        ensures
            final(self).wf(),
            final(self).data() == old(self).data(),
            old(self).can_read(8) ==> {
                &&& r is Ok
                &&& r->Ok_0 as int == twos_complement(le_value(old(self).taken(8)), 8)
                &&& final(self).advanced(*old(self), 8)
            },
            !old(self).can_read(8) ==> {
                &&& r is Err
                &&& final(self).position() == old(self).position()
                &&& old(self).underflow_err(r->Err_0, 8)
            },
    {
        let ghost orig = *self;
        match self.read_le(8) {
            Ok(v) => {
                proof {
                    lemma_le_value_bound(orig.taken(8));
                    lemma_pow256_values();
                }
                Ok(u64_to_i64(v as u64))
            }
            Err(e) => Err(e),
        }
    }

    /// Reads `u128` (BE)
    pub fn read_u128_be(&mut self) -> (r: GDResult<u128>)
        requires
            old(self).wf(),
        ensures
            final(self).wf(),
            final(self).data() == old(self).data(),
            old(self).can_read(16) ==> {
                &&& r is Ok
                &&& r->Ok_0 == be_value(old(self).taken(16))
                &&& final(self).advanced(*old(self), 16)
            },
            !old(self).can_read(16) ==> {
                &&& r is Err
                &&& final(self).position() == old(self).position()
                &&& old(self).underflow_err(r->Err_0, 16)
            },
    {
        let ghost orig = *self;
        match self.read_be(16) {
            Ok(v) => {
                proof {
                    lemma_be_value_bound(orig.taken(16));
                    lemma_pow256_values();
                }
                Ok(v as u128)
            }
            Err(e) => Err(e),
        }
    }

    /// Reads `i128` (BE)
    pub fn read_i128_be(&mut self) -> (r: GDResult<i128>)
        requires
            old(self).wf(),
        ensures
            final(self).wf(),
            final(self).data() == old(self).data(),
            old(self).can_read(16) ==> {
                &&& r is Ok
                &&& r->Ok_0 as int == twos_complement(be_value(old(self).taken(16)), 16)
                &&& final(self).advanced(*old(self), 16)
            },
            !old(self).can_read(16) ==> {
                &&& r is Err
                &&& final(self).position() == old(self).position()
                &&& old(self).underflow_err(r->Err_0, 16)
            },
    {
        let ghost orig = *self;
        match self.read_be(16) {
            Ok(v) => {
                proof {
                    lemma_be_value_bound(orig.taken(16));
                    lemma_pow256_values();
                }
                Ok(u128_to_i128(v as u128))
            }
            Err(e) => Err(e),
        }
    }

    /// Reads `u128` (LE)
    pub fn read_u128_le(&mut self) -> (r: GDResult<u128>)
        requires
            old(self).wf(),
        ensures
            final(self).wf(),
            final(self).data() == old(self).data(),
            old(self).can_read(16) ==> {
                &&& r is Ok
                &&& r->Ok_0 == le_value(old(self).taken(16))
                &&& final(self).advanced(*old(self), 16)
            },
            !old(self).can_read(16) ==> {
                &&& r is Err
                &&& final(self).position() == old(self).position()
                &&& old(self).underflow_err(r->Err_0, 16)
            },
    {
        let ghost orig = *self;
        match self.read_le(16) {
            Ok(v) => {
                proof {
                    lemma_le_value_bound(orig.taken(16));
                    lemma_pow256_values();
                }
                Ok(v as u128)
            }
            Err(e) => Err(e),
        }
    }

    /// Reads `i128` (LE)
    pub fn read_i128_le(&mut self) -> (r: GDResult<i128>)
        requires
            old(self).wf(),
        ensures
            final(self).wf(),
            final(self).data() == old(self).data(),
            old(self).can_read(16) ==> {
                &&& r is Ok
                &&& r->Ok_0 as int == twos_complement(le_value(old(self).taken(16)), 16)
                &&& final(self).advanced(*old(self), 16)
            },
            !old(self).can_read(16) ==> {
                &&& r is Err
                &&& final(self).position() == old(self).position()
                &&& old(self).underflow_err(r->Err_0, 16)
            },
    {
        let ghost orig = *self;
        match self.read_le(16) {
            Ok(v) => {
                proof {
                    lemma_le_value_bound(orig.taken(16));
                    lemma_pow256_values();
                }
                Ok(u128_to_i128(v as u128))
            }
            Err(e) => Err(e),
        }
    }
}

} // verus!

