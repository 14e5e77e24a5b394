//! Byte-level codec: a cursor over received bytes, a bounded-read adapter, and
//! the matching write primitives.

use vstd::bytes::*;
use vstd::prelude::*;
use vstd::utf8::*;

verus! {

/// What can go wrong while decoding or encoding a message.
#[derive(Debug, Clone, Copy, PartialEq, Eq, Structural)]
pub enum Error {
    /// The stream ended before the value was complete.
    EOF,
    /// A bounded reader was asked for more than its remaining budget.
    Exhausted,
    /// A string field does not hold valid UTF-8.
    InvalidUtf8,
    /// A length prefix does not match the bytes that follow it.
    SizeMismatch,
    /// A byte or string does not fit in its length prefix.
    TooLong,
    /// No handler is bound to this identifier.
    UnknownIdentifier(u8),
    /// A login result code that the negotiated version does not define.
    UnknownLoginResult(u8),
    /// A security block tag that is not defined.
    UnknownSecurityKind(u8),
    /// The negotiated protocol version is not supported.
    UnsupportedVersion(u8),
    /// A message needs the protocol version before one was negotiated.
    Unversioned,
    /// A handshake tried to change the negotiated version.
    Renegotiation,
    /// A value cannot be written under the negotiated version.
    NotEncodable,
}

/// Little-endian bytes of a 16-bit integer.
pub open spec fn le16(v: u16) -> Seq<u8> {
    spec_u16_to_le_bytes(v)
}

/// Little-endian bytes of a 32-bit integer.
pub open spec fn le32(v: u32) -> Seq<u8> {
    spec_u32_to_le_bytes(v)
}

/// Little-endian bytes of a signed 32-bit integer (two's complement).
pub open spec fn le32_signed(v: i32) -> Seq<u8> {
    spec_u32_to_le_bytes(v as u32)
}

/// Little-endian bytes of a 64-bit integer.
pub open spec fn le64(v: u64) -> Seq<u8> {
    spec_u64_to_le_bytes(v)
}

/// The bytes of a string in UTF-8.
pub open spec fn utf8_of(s: Seq<char>) -> Seq<u8> {
    encode_utf8(s)
}

pub proof fn lemma_le16(v: u16)
    ensures
        le16(v).len() == 2,
        spec_u16_from_le_bytes(le16(v)) == v,
{
    lemma_auto_spec_u16_to_from_le_bytes();
    assert(spec_u16_to_le_bytes(v).len() == 2);
}

pub proof fn lemma_le32(v: u32)
    ensures
        le32(v).len() == 4,
        spec_u32_from_le_bytes(le32(v)) == v,
{
    lemma_auto_spec_u32_to_from_le_bytes();
    assert(spec_u32_to_le_bytes(v).len() == 4);
}

pub proof fn lemma_le32_signed(v: i32)
    ensures
        le32_signed(v).len() == 4,
        #[verifier::truncate] (spec_u32_from_le_bytes(le32_signed(v)) as i32) == v,
{
    lemma_le32(v as u32);
    assert((#[verifier::truncate] ((#[verifier::truncate] (v as u32)) as i32)) == v) by (bit_vector);
}

pub proof fn lemma_le64(v: u64)
    ensures
        le64(v).len() == 8,
        spec_u64_from_le_bytes(le64(v)) == v,
{
    lemma_auto_spec_u64_to_from_le_bytes();
    assert(spec_u64_to_le_bytes(v).len() == 8);
}

/// Strings with equal UTF-8 bytes hold equal characters.
pub proof fn lemma_utf8_injective(a: Seq<char>, b: Seq<char>)
    requires
        utf8_of(a) == utf8_of(b),
    ensures
        a == b,
{
    encode_utf8_decode_utf8(a);
    encode_utf8_decode_utf8(b);
}

/// Relies on `String::from_utf8`: it succeeds exactly on valid UTF-8, and the
/// string then holds the characters those bytes encode.
#[verifier::external_body]
pub(crate) fn string_from_utf8(bytes: Vec<u8>) -> (r: Option<String>)
    ensures
        r is Some <==> valid_utf8(bytes@),
        r matches Some(s) ==> s@ == decode_utf8(bytes@),
{
    String::from_utf8(bytes).ok()
}

/// A cursor over received bytes. Its view is the bytes not yet read.
#[derive(Clone, Copy)]
pub struct Reader<'a> {
    data: &'a [u8],
    pos: usize,
}

impl<'a> View for Reader<'a> {
    type V = Seq<u8>;

    closed spec fn view(&self) -> Seq<u8> {
        self.data@.subrange(self.pos as int, self.data@.len() as int)
    }
}

impl<'a> Reader<'a> {
    #[verifier::type_invariant]
    spec fn inv(&self) -> bool {
        self.pos <= self.data@.len()
    }

    /// How many bytes this cursor has read since it was made.
    pub closed spec fn consumed(&self) -> nat {
        self.pos as nat
    }

    pub fn new(data: &'a [u8]) -> (r: Reader<'a>)
        ensures
            r@ == data@,
            r.consumed() == 0,
    {
        let r = Reader { data, pos: 0 };
        assert(r@ =~= data@);
        r
    }

    /// The number of bytes read so far.
    pub fn position(&self) -> (n: usize)
        ensures
            n == self.consumed(),
    {
        self.pos
    }

    /// The number of bytes left.
    pub fn remaining(&self) -> (n: usize)
        ensures
            n == self@.len(),
    {
        proof {
            use_type_invariant(self);
        }
        self.data.len() - self.pos
    }

    pub fn read_u8(&mut self) -> (r: Result<u8, Error>)
        ensures
            match r {
                Ok(b) => old(self)@.len() >= 1 && b == old(self)@[0]
                    && final(self)@ == old(self)@.skip(1)
                    && final(self).consumed() == old(self).consumed() + 1,
                Err(e) => e == Error::EOF && old(self)@.len() < 1 && *final(self) == *old(self),
            },
    {
        proof {
            use_type_invariant(&*self);
        }
        if self.pos >= self.data.len() {
            return Err(Error::EOF);
        }
        let b = self.data[self.pos];
        self.pos = self.pos + 1;
        assert(self@ =~= old(self)@.skip(1));
        Ok(b)
    }

    /// Reads one byte as a two's-complement signed value.
    pub fn read_i8(&mut self) -> (r: Result<i8, Error>)
        ensures
            match r {
                Ok(x) => old(self)@.len() >= 1 && x as u8 == old(self)@[0]
                    && final(self)@ == old(self)@.skip(1)
                    && final(self).consumed() == old(self).consumed() + 1,
                Err(e) => e == Error::EOF && old(self)@.len() < 1 && *final(self) == *old(self),
            },
    {
        let b = self.read_u8()?;
        let x = b as i8;
        assert((#[verifier::truncate] ((#[verifier::truncate] (b as i8)) as u8)) == b) by (bit_vector);
        Ok(x)
    }

    /// Reads exactly `N` bytes into an array.
    pub fn read_exact_slice<const N: usize>(&mut self) -> (r: Result<[u8; N], Error>)
        ensures
            match r {
                Ok(a) => old(self)@.len() >= N && a@ == old(self)@.take(N as int)
                    && final(self)@ == old(self)@.skip(N as int)
                    && final(self).consumed() == old(self).consumed() + N,
                Err(e) => e == Error::EOF && old(self)@.len() < N && *final(self) == *old(self),
            },
    {
        proof {
            use_type_invariant(&*self);
        }
        if self.data.len() - self.pos < N {
            return Err(Error::EOF);
        }
        let mut a = [0u8; N];
        let mut i: usize = 0;
        while i < N
            invariant
                i <= N,
                self.pos + N <= self.data.len(),
                a@.len() == N,
                forall|j: int| 0 <= j < i ==> a@[j] == self.data@[self.pos + j],
            decreases N - i,
        {
            a[i] = self.data[self.pos + i];
            i = i + 1;
        }
        self.pos = self.pos + N;
        assert(a@ =~= old(self)@.take(N as int));
        assert(self@ =~= old(self)@.skip(N as int));
        Ok(a)
    }

    /// Reads exactly `n` bytes.
    pub fn read_slice(&mut self, n: usize) -> (r: Result<Vec<u8>, Error>)
        ensures
            match r {
                Ok(v) => old(self)@.len() >= n && v@ == old(self)@.take(n as int)
                    && final(self)@ == old(self)@.skip(n as int)
                    && final(self).consumed() == old(self).consumed() + n,
                Err(e) => e == Error::EOF && old(self)@.len() < n && *final(self) == *old(self),
            },
    {
        proof {
            use_type_invariant(&*self);
        }
        if self.data.len() - self.pos < n {
            return Err(Error::EOF);
        }
        let mut v: Vec<u8> = Vec::with_capacity(n);
        let mut i: usize = 0;
        while i < n
            invariant
                i <= n,
                self.pos + n <= self.data.len(),
                v@.len() == i,
                forall|j: int| 0 <= j < i ==> v@[j] == self.data@[self.pos + j],
            decreases n - i,
        {
            v.push(self.data[self.pos + i]);
            i = i + 1;
        }
        self.pos = self.pos + n;
        assert(v@ =~= old(self)@.take(n as int));
        assert(self@ =~= old(self)@.skip(n as int));
        Ok(v)
    }

    pub fn read_u16_le(&mut self) -> (r: Result<u16, Error>)
        ensures
            match r {
                Ok(x) => old(self)@.len() >= 2 && old(self)@.take(2) == le16(x)
                    && final(self)@ == old(self)@.skip(2)
                    && final(self).consumed() == old(self).consumed() + 2,
                Err(e) => e == Error::EOF && old(self)@.len() < 2 && *final(self) == *old(self),
            },
    {
        let a = self.read_exact_slice::<2>()?;
        proof {
            lemma_auto_spec_u16_to_from_le_bytes();
        }
        Ok(u16_from_le_bytes(&a))
    }

    pub fn read_u32_le(&mut self) -> (r: Result<u32, Error>)
        ensures
            match r {
                Ok(x) => old(self)@.len() >= 4 && old(self)@.take(4) == le32(x)
                    && final(self)@ == old(self)@.skip(4)
                    && final(self).consumed() == old(self).consumed() + 4,
                Err(e) => e == Error::EOF && old(self)@.len() < 4 && *final(self) == *old(self),
            },
    {
        let a = self.read_exact_slice::<4>()?;
        proof {
            lemma_auto_spec_u32_to_from_le_bytes();
        }
        Ok(u32_from_le_bytes(&a))
    }

    pub fn read_i32_le(&mut self) -> (r: Result<i32, Error>)
        ensures
            match r {
                Ok(x) => old(self)@.len() >= 4 && old(self)@.take(4) == le32_signed(x)
                    && final(self)@ == old(self)@.skip(4)
                    && final(self).consumed() == old(self).consumed() + 4,
                Err(e) => e == Error::EOF && old(self)@.len() < 4 && *final(self) == *old(self),
            },
    {
        let u = self.read_u32_le()?;
        let x = u as i32;
        assert((#[verifier::truncate] ((#[verifier::truncate] (u as i32)) as u32)) == u) by (bit_vector);
        Ok(x)
    }

    pub fn read_u64_le(&mut self) -> (r: Result<u64, Error>)
        ensures
            match r {
                Ok(x) => old(self)@.len() >= 8 && old(self)@.take(8) == le64(x)
                    && final(self)@ == old(self)@.skip(8)
                    && final(self).consumed() == old(self).consumed() + 8,
                Err(e) => e == Error::EOF && old(self)@.len() < 8 && *final(self) == *old(self),
            },
    {
        let a = self.read_exact_slice::<8>()?;
        proof {
            lemma_auto_spec_u64_to_from_le_bytes();
        }
        Ok(u64_from_le_bytes(&a))
    }

    /// Reads exactly `n` bytes and checks that they are UTF-8. On failure
    /// nothing is consumed.
    pub fn read_string(&mut self, n: usize) -> (r: Result<String, Error>)
        ensures
            match r {
                Ok(s) => old(self)@.len() >= n && utf8_of(s@) == old(self)@.take(n as int)
                    && final(self)@ == old(self)@.skip(n as int)
                    && final(self).consumed() == old(self).consumed() + n,
                Err(e) => *final(self) == *old(self) && (
                    (e == Error::EOF && old(self)@.len() < n)
                    || (e == Error::InvalidUtf8 && old(self)@.len() >= n
                        && !valid_utf8(old(self)@.take(n as int)))),
            },
    {
        let saved = *self;
        let bytes = self.read_slice(n)?;
        let ghost b = bytes@;
        match string_from_utf8(bytes) {
            Some(s) => {
                proof {
                    decode_utf8_encode_utf8(b);
                }
                Ok(s)
            },
            None => {
                *self = saved;
                Err(Error::InvalidUtf8)
            },
        }
    }

    /// Reads a zero-terminated string of at most `max_len` bytes (see
    /// `cstring_split`). On failure nothing is consumed.
    pub fn read_cstring(&mut self, max_len: Option<usize>) -> (r: Result<String, Error>)
        ensures
            r matches Ok(s) ==> cstring_split(old(self)@, max_len, utf8_of(s@).len() as int,
                final(self).consumed() - old(self).consumed())
                && utf8_of(s@) == old(self)@.take(utf8_of(s@).len() as int)
                && final(self)@ == old(self)@.skip(final(self).consumed() - old(self).consumed()),
            r matches Err(e) ==> *final(self) == *old(self) && (e == Error::EOF || e == Error::InvalidUtf8),
            r == Err::<String, Error>(Error::EOF) <==> forall|n: int, c: int| !#[trigger] cstring_split(old(self)@, max_len, n, c),
            r == Err::<String, Error>(Error::InvalidUtf8) <==> exists|n: int, c: int| #[trigger] cstring_split(old(self)@, max_len, n, c)
                && !valid_utf8(old(self)@.take(n)),
    {
        proof {
            use_type_invariant(&*self);
        }
        let ghost bytes0 = self@;
        let avail = self.data.len() - self.pos;
        let mut i: usize = 0;
        while i < avail && (max_len.is_none() || i < max_len.unwrap()) && self.data[self.pos + i] != 0
            invariant
                i <= avail,
                avail == bytes0.len(),
                self.pos + avail == self.data.len(),
                bytes0 == self.data@.subrange(self.pos as int, self.data@.len() as int),
                max_len matches Some(m) ==> i <= m,
                no_zero(bytes0.take(i as int)),
            decreases avail - i,
        {
            assert(bytes0.take(i + 1) =~= bytes0.take(i as int).push(bytes0[i as int]));
            i = i + 1;
        }
        let hit_zero = i < avail && (max_len.is_none() || i < max_len.unwrap());
        let hit_max = match max_len {
            Some(m) => i == m,
            None => false,
        };
        if !hit_zero && !hit_max {
            proof {
                assert(i == avail);
                assert forall|n: int, c: int| !#[trigger] cstring_split(bytes0, max_len, n, c) by {
                    if cstring_split(bytes0, max_len, n, c) {
                        if n < bytes0.len() && bytes0[n] == 0 {
                            assert(bytes0.take(i as int)[n] == bytes0[n]);
                        }
                    }
                }
            }
            return Err(Error::EOF);
        }
        let consumed: usize = if hit_zero { i + 1 } else { i };
        proof {
            assert(cstring_split(bytes0, max_len, i as int, consumed as int));
        }
        let saved = *self;
        let bytes = self.read_slice(i)?;
        let ghost b = bytes@;
        match string_from_utf8(bytes) {
            Some(text) => {
                proof {
                    decode_utf8_encode_utf8(b);
                    assert(utf8_of(text@).len() == i);
                }
                if hit_zero {
                    let _ = self.read_u8();
                    assert(self@ =~= bytes0.skip(consumed as int));
                }
                assert forall|n: int, c: int| #[trigger] cstring_split(bytes0, max_len, n, c) implies valid_utf8(bytes0.take(n)) by {
                    lemma_cstring_split_unique(bytes0, max_len, n, c, i as int, consumed as int);
                }
                Ok(text)
            },
            None => {
                *self = saved;
                assert(cstring_split(bytes0, max_len, i as int, consumed as int) && !valid_utf8(bytes0.take(i as int)));
                Err(Error::InvalidUtf8)
            },
        }
    }

    /// A bounded-read adapter over this cursor's position with a budget of
    /// `limit` bytes. The cursor itself is not moved.
    pub fn take(&self, limit: usize) -> (t: Take<'a>)
        ensures
            t@ == self@,
            t.budget() == limit,
            t.inner() == *self,
    {
        Take { inner: *self, limit }
    }
}

/// No zero byte occurs in `s`.
pub open spec fn no_zero(s: Seq<u8>) -> bool {
    forall|i: int| 0 <= i < s.len() ==> s[i] != 0
}

/// There is at most one zero-terminated string at the front of `s`.
pub proof fn lemma_cstring_split_unique(s: Seq<u8>, max_len: Option<usize>, n1: int, c1: int, n2: int, c2: int)
    requires
        cstring_split(s, max_len, n1, c1),
        cstring_split(s, max_len, n2, c2),
    ensures
        n1 == n2,
        c1 == c2,
{
    if n1 < n2 {
        assert(s.take(n2)[n1] == s[n1]);
    } else if n2 < n1 {
        assert(s.take(n1)[n2] == s[n2]);
    }
}

/// A zero-terminated string at the front of `s`: `n` bytes of text free of
/// zero, and `c` bytes consumed. The text ends at the first zero byte (which
/// is consumed but not part of it), or after `max_len` bytes when no zero
/// came first.
pub open spec fn cstring_split(s: Seq<u8>, max_len: Option<usize>, n: int, c: int) -> bool {
    0 <= n <= s.len() && no_zero(s.take(n)) && (
        (n < s.len() && s[n] == 0 && c == n + 1 && (max_len matches Some(m) ==> n < m))
        || (max_len matches Some(m) && n == m && c == n))
}

/// A bounded-read adapter: reads from an underlying cursor, but never more
/// than a remaining budget. A request above the budget fails with
/// `Error::Exhausted` before the cursor is touched; a successful read takes
/// exactly its size off the budget. Its view is the underlying cursor's
/// remaining bytes.
#[derive(Clone, Copy)]
pub struct Take<'a> {
    inner: Reader<'a>,
    limit: usize,
}

impl<'a> View for Take<'a> {
    type V = Seq<u8>;

    closed spec fn view(&self) -> Seq<u8> {
        self.inner@
    }
}

impl<'a> Take<'a> {
    /// Bytes that may still be read through this adapter.
    pub closed spec fn budget(&self) -> nat {
        self.limit as nat
    }

    /// The underlying cursor in its current position.
    pub closed spec fn inner(&self) -> Reader<'a> {
        self.inner
    }

    /// The remaining budget.
    pub fn limit(&self) -> (n: usize)
        ensures
            n == self.budget(),
    {
        self.limit
    }

    /// Bounds this adapter further: the new one starts at the same position
    /// with the smaller of the two budgets. Hand it back to `resume` to
    /// charge this adapter for what was read through it.
    pub fn take(&self, limit: usize) -> (t: Take<'a>)
        ensures
            t@ == self@,
            t.inner() == self.inner(),
            t.budget() == if limit < self.budget() { limit as nat } else { self.budget() },
    {
        let l = if limit < self.limit { limit } else { self.limit };
        Take { inner: self.inner, limit: l }
    }

    /// Takes back an adapter that `take` made from this one, after reads
    /// through it, and charges this one for them: the cursor moves to where
    /// the nested adapter stands and the budget drops by the bytes it read.
    /// If the nested adapter stands behind this one or read more than this
    /// budget allows, nothing changes and `Error::Exhausted` is returned.
    pub fn resume(&mut self, nested: Take<'a>) -> (r: Result<(), Error>)
        ensures
            ({
                let read = nested.inner().consumed() - old(self).inner().consumed();
                if 0 <= read <= old(self).budget() {
                    r is Ok && final(self).inner() == nested.inner() && final(self)@ == nested@
                        && final(self).budget() == old(self).budget() - read
                } else {
                    r == Err::<(), Error>(Error::Exhausted) && *final(self) == *old(self)
                }
            }),
    {
        let from = self.inner.position();
        let to = nested.inner.position();
        if to < from || to - from > self.limit {
            return Err(Error::Exhausted);
        }
        self.limit = self.limit - (to - from);
        self.inner = nested.inner;
        Ok(())
    }

    /// Gives back the underlying cursor, moved past what this adapter read.
    pub fn into_inner(self) -> (r: Reader<'a>)
        ensures
            r == self.inner(),
            r@ == self@,
    {
        self.inner
    }

    pub fn read_u8(&mut self) -> (r: Result<u8, Error>)
        ensures
            match r {
                Ok(b) => old(self).budget() >= 1 && old(self)@.len() >= 1 && b == old(self)@[0]
                    && final(self)@ == old(self)@.skip(1)
                    && final(self).budget() == old(self).budget() - 1
                    && final(self).inner().consumed() == old(self).inner().consumed() + 1,
                Err(e) => *final(self) == *old(self) && (
                    (e == Error::Exhausted && old(self).budget() < 1)
                    || (e == Error::EOF && old(self).budget() >= 1 && old(self)@.len() < 1)),
            },
    {
        if self.limit < 1 {
            return Err(Error::Exhausted);
        }
        let b = self.inner.read_u8()?;
        self.limit = self.limit - 1;
        Ok(b)
    }

    pub fn read_i8(&mut self) -> (r: Result<i8, Error>)
        ensures
            match r {
                Ok(x) => old(self).budget() >= 1 && old(self)@.len() >= 1 && x as u8 == old(self)@[0]
                    && final(self)@ == old(self)@.skip(1)
                    && final(self).budget() == old(self).budget() - 1
                    && final(self).inner().consumed() == old(self).inner().consumed() + 1,
                Err(e) => *final(self) == *old(self) && (
                    (e == Error::Exhausted && old(self).budget() < 1)
                    || (e == Error::EOF && old(self).budget() >= 1 && old(self)@.len() < 1)),
            },
    {
        if self.limit < 1 {
            return Err(Error::Exhausted);
        }
        let x = self.inner.read_i8()?;
        self.limit = self.limit - 1;
        Ok(x)
    }

    pub fn read_exact_slice<const N: usize>(&mut self) -> (r: Result<[u8; N], Error>)
        ensures
            match r {
                Ok(a) => old(self).budget() >= N && old(self)@.len() >= N
                    && a@ == old(self)@.take(N as int)
                    && final(self)@ == old(self)@.skip(N as int)
                    && final(self).budget() == old(self).budget() - N
                    && final(self).inner().consumed() == old(self).inner().consumed() + N,
                Err(e) => *final(self) == *old(self) && (
                    (e == Error::Exhausted && old(self).budget() < N)
                    || (e == Error::EOF && old(self).budget() >= N && old(self)@.len() < N)),
            },
    {
        if self.limit < N {
            return Err(Error::Exhausted);
        }
        let a = self.inner.read_exact_slice::<N>()?;
        self.limit = self.limit - N;
        Ok(a)
    }

    pub fn read_slice(&mut self, n: usize) -> (r: Result<Vec<u8>, Error>)
        ensures
            match r {
                Ok(v) => old(self).budget() >= n && old(self)@.len() >= n
                    && v@ == old(self)@.take(n as int)
                    && final(self)@ == old(self)@.skip(n as int)
                    && final(self).budget() == old(self).budget() - n
                    && final(self).inner().consumed() == old(self).inner().consumed() + n,
                Err(e) => *final(self) == *old(self) && (
                    (e == Error::Exhausted && old(self).budget() < n)
                    || (e == Error::EOF && old(self).budget() >= n && old(self)@.len() < n)),
            },
    {
        if self.limit < n {
            return Err(Error::Exhausted);
        }
        let v = self.inner.read_slice(n)?;
        self.limit = self.limit - n;
        Ok(v)
    }

    pub fn read_u16_le(&mut self) -> (r: Result<u16, Error>)
        ensures
            match r {
                Ok(x) => old(self).budget() >= 2 && old(self)@.len() >= 2 && old(self)@.take(2) == le16(x)
                    && final(self)@ == old(self)@.skip(2)
                    && final(self).budget() == old(self).budget() - 2
                    && final(self).inner().consumed() == old(self).inner().consumed() + 2,
                Err(e) => *final(self) == *old(self) && (
                    (e == Error::Exhausted && old(self).budget() < 2)
                    || (e == Error::EOF && old(self).budget() >= 2 && old(self)@.len() < 2)),
            },
    {
        if self.limit < 2 {
            return Err(Error::Exhausted);
        }
        let x = self.inner.read_u16_le()?;
        self.limit = self.limit - 2;
        Ok(x)
    }

    pub fn read_u32_le(&mut self) -> (r: Result<u32, Error>)
        ensures
            match r {
                Ok(x) => old(self).budget() >= 4 && old(self)@.len() >= 4 && old(self)@.take(4) == le32(x)
                    && final(self)@ == old(self)@.skip(4)
                    && final(self).budget() == old(self).budget() - 4
                    && final(self).inner().consumed() == old(self).inner().consumed() + 4,
                Err(e) => *final(self) == *old(self) && (
                    (e == Error::Exhausted && old(self).budget() < 4)
                    || (e == Error::EOF && old(self).budget() >= 4 && old(self)@.len() < 4)),
            },
    {
        if self.limit < 4 {
            return Err(Error::Exhausted);
        }
        let x = self.inner.read_u32_le()?;
        self.limit = self.limit - 4;
        Ok(x)
    }

    pub fn read_i32_le(&mut self) -> (r: Result<i32, Error>)
        ensures
            match r {
                Ok(x) => old(self).budget() >= 4 && old(self)@.len() >= 4 && old(self)@.take(4) == le32_signed(x)
                    && final(self)@ == old(self)@.skip(4)
                    && final(self).budget() == old(self).budget() - 4
                    && final(self).inner().consumed() == old(self).inner().consumed() + 4,
                Err(e) => *final(self) == *old(self) && (
                    (e == Error::Exhausted && old(self).budget() < 4)
                    || (e == Error::EOF && old(self).budget() >= 4 && old(self)@.len() < 4)),
            },
    {
        if self.limit < 4 {
            return Err(Error::Exhausted);
        }
        let x = self.inner.read_i32_le()?;
        self.limit = self.limit - 4;
        Ok(x)
    }

    pub fn read_string(&mut self, n: usize) -> (r: Result<String, Error>)
        ensures
            match r {
                Ok(s) => old(self).budget() >= n && old(self)@.len() >= n
                    && utf8_of(s@) == old(self)@.take(n as int)
                    && final(self)@ == old(self)@.skip(n as int)
                    && final(self).budget() == old(self).budget() - n
                    && final(self).inner().consumed() == old(self).inner().consumed() + n,
                Err(e) => *final(self) == *old(self) && (
                    (e == Error::Exhausted && old(self).budget() < n)
                    || (e == Error::EOF && old(self).budget() >= n && old(self)@.len() < n)
                    || (e == Error::InvalidUtf8 && old(self).budget() >= n && old(self)@.len() >= n
                        && !valid_utf8(old(self)@.take(n as int)))),
            },
    {
        if self.limit < n {
            return Err(Error::Exhausted);
        }
        let s = self.inner.read_string(n)?;
        self.limit = self.limit - n;
        Ok(s)
    }
}

/// Appends one byte.
pub fn write_u8(out: &mut Vec<u8>, v: u8)
    ensures
        final(out)@ == old(out)@ + seq![v],
{
    out.push(v);
    assert(out@ =~= old(out)@ + seq![v]);
}

/// Appends one signed byte in two's complement.
pub fn write_i8(out: &mut Vec<u8>, v: i8)
    ensures
        final(out)@ == old(out)@ + seq![v as u8],
{
    write_u8(out, v as u8);
}

/// Appends the bytes of `bytes`.
pub fn write_slice(out: &mut Vec<u8>, bytes: &[u8])
    ensures
        final(out)@ == old(out)@ + bytes@,
{
    let mut i: usize = 0;
    while i < bytes.len()
        invariant
            i <= bytes@.len(),
            out@ == old(out)@ + bytes@.take(i as int),
        decreases bytes@.len() - i,
    {
        out.push(bytes[i]);
        assert(bytes@.take(i + 1) =~= bytes@.take(i as int).push(bytes@[i as int]));
        i = i + 1;
    }
    assert(bytes@.take(i as int) =~= bytes@);
}

pub fn write_u16_le(out: &mut Vec<u8>, v: u16)
    ensures
        final(out)@ == old(out)@ + le16(v),
{
    let b = u16_to_le_bytes(v);
    write_slice(out, b.as_slice());
}

pub fn write_u32_le(out: &mut Vec<u8>, v: u32)
    ensures
        final(out)@ == old(out)@ + le32(v),
{
    let b = u32_to_le_bytes(v);
    write_slice(out, b.as_slice());
}

pub fn write_i32_le(out: &mut Vec<u8>, v: i32)
    ensures
        final(out)@ == old(out)@ + le32_signed(v),
{
    write_u32_le(out, v as u32);
}

pub fn write_u64_le(out: &mut Vec<u8>, v: u64)
    ensures
        final(out)@ == old(out)@ + le64(v),
{
    let b = u64_to_le_bytes(v);
    write_slice(out, b.as_slice());
}

/// Appends the UTF-8 bytes of `s`, with no terminator.
pub fn write_string(out: &mut Vec<u8>, s: &str)
    ensures
        final(out)@ == old(out)@ + utf8_of(s@),
{
    write_slice(out, s.as_bytes());
}

/// Appends the UTF-8 bytes of `s` and a zero byte.
pub fn write_cstring(out: &mut Vec<u8>, s: &str)
    ensures
        final(out)@ == old(out)@ + utf8_of(s@) + seq![0u8],
{
    write_string(out, s);
    write_u8(out, 0);
}

} // verus!
