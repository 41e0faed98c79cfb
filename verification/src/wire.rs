//! The binary wire format that carries instructions, accounts and results
//! across the C interface.
//!
//! All integers are little-endian. Lengths and counts are `u32`, lamports
//! `u64`, flags one byte (any nonzero byte reads as `true`).
//!
//! Instruction: program id (32), data length (4), data, meta count (4), and per
//! meta its address (32), `is_signer` (1) and `is_writable` (1).
//! Instructions: a count (4), then that many instructions.
//! Accounts: a count (4), then per account its address (32), owner (32),
//! lamports (8), data length (4), data and `executable` (1).
use vstd::prelude::*;
use crate::account::{
    Account, AccountMeta, AccountMetaView, AccountView, Instruction, InstructionView,
    accounts_view, instructions_view,
};
use crate::error::{InstructionError, RuntimeProgramError, program_error_try_from, spec_error_name, spec_to_runtime_program_error};
use crate::pubkey::Pubkey;
use crate::svm::ExecutionResult;
use vstd::utf8::encode_utf8;

verus! {

// ---------------------------------------------------------------------------
// Integers as bytes
// ---------------------------------------------------------------------------

/// The `u32` stored little-endian in the four bytes of `s` from offset `at`.
pub open spec fn le_u32(s: Seq<u8>, at: int) -> u32 {
    (s[at] as u32) | ((s[at + 1] as u32) << 8u32) | ((s[at + 2] as u32) << 16u32) | ((s[at
        + 3] as u32) << 24u32)
}

/// The `u64` stored little-endian in the eight bytes of `s` from offset `at`.
pub open spec fn le_u64(s: Seq<u8>, at: int) -> u64 {
    (le_u32(s, at) as u64) | ((le_u32(s, at + 4) as u64) << 32u64)
}

/// The four little-endian bytes of `x`.
pub open spec fn u32_bytes(x: u32) -> Seq<u8> {
    seq![(x & 0xff) as u8, ((x >> 8u32) & 0xff) as u8, ((x >> 16u32) & 0xff) as u8, ((x >> 24u32) & 0xff) as u8]
}

/// The eight little-endian bytes of `x`.
pub open spec fn u64_bytes(x: u64) -> Seq<u8> {
    u32_bytes((x & 0xffff_ffff) as u32) + u32_bytes((x >> 32u64) as u32)
}

/// The byte that stands for a flag.
pub open spec fn bool_byte(b: bool) -> u8 {
    if b {
        1u8
    } else {
        0u8
    }
}

/// Four bytes read back as a `u32` give the value they were written from.
pub proof fn lemma_u32_round_trip(x: u32)
    ensures
        u32_bytes(x).len() == 4,
        le_u32(u32_bytes(x), 0) == x,
{
    let b0 = (x & 0xff) as u8;
    let b1 = ((x >> 8u32) & 0xff) as u8;
    let b2 = ((x >> 16u32) & 0xff) as u8;
    let b3 = ((x >> 24u32) & 0xff) as u8;
    assert(((b0 as u32) | ((b1 as u32) << 8u32) | ((b2 as u32) << 16u32) | ((b3 as u32)
        << 24u32)) == x) by (bit_vector)
        requires
            b0 == (x & 0xff) as u8,
            b1 == ((x >> 8u32) & 0xff) as u8,
            b2 == ((x >> 16u32) & 0xff) as u8,
            b3 == ((x >> 24u32) & 0xff) as u8,
    ;
}

/// Eight bytes read back as a `u64` give the value they were written from.
pub proof fn lemma_u64_round_trip(x: u64)
    ensures
        u64_bytes(x).len() == 8,
        le_u64(u64_bytes(x), 0) == x,
{
    let lo = (x & 0xffff_ffff) as u32;
    let hi = (x >> 32u64) as u32;
    lemma_u32_round_trip(lo);
    lemma_u32_round_trip(hi);
    let s = u64_bytes(x);
    assert(s.subrange(0, 4) =~= u32_bytes(lo));
    assert(s.subrange(4, 8) =~= u32_bytes(hi));
    assert(le_u32(s, 0) == le_u32(u32_bytes(lo), 0));
    assert(le_u32(s, 4) == le_u32(u32_bytes(hi), 0));
    assert(((lo as u64) | ((hi as u64) << 32u64)) == x) by (bit_vector)
        requires
            lo == (x & 0xffff_ffff) as u32,
            hi == (x >> 32u64) as u32,
    ;
}

/// Reading four bytes at `at` of `s` looks only at those bytes.
pub proof fn lemma_le_u32_at(s: Seq<u8>, at: int, t: Seq<u8>)
    requires
        0 <= at,
        at + 4 <= s.len(),
        s.subrange(at, at + 4) == t,
    ensures
        le_u32(s, at) == le_u32(t, 0),
{
    assert(s[at] == t[0]);
    assert(s[at + 1] == t[1]);
    assert(s[at + 2] == t[2]);
    assert(s[at + 3] == t[3]);
}

/// Reading eight bytes at `at` of `s` looks only at those bytes.
pub proof fn lemma_le_u64_at(s: Seq<u8>, at: int, t: Seq<u8>)
    requires
        0 <= at,
        at + 8 <= s.len(),
        s.subrange(at, at + 8) == t,
    ensures
        le_u64(s, at) == le_u64(t, 0),
{
    assert(s.subrange(at, at + 4) =~= t.subrange(0, 4));
    assert(s.subrange(at + 4, at + 8) =~= t.subrange(4, 8));
    lemma_le_u32_at(s, at, t.subrange(0, 4));
    lemma_le_u32_at(t, 0, t.subrange(0, 4));
    lemma_le_u32_at(s, at + 4, t.subrange(4, 8));
    lemma_le_u32_at(t, 4, t.subrange(4, 8));
}

// ---------------------------------------------------------------------------
// Reader
// ---------------------------------------------------------------------------

/// A cursor over a byte string.
pub struct Reader<'a> {
    pub data: &'a [u8],
    pub pos: usize,
}

/// The message of every read past the end of the input.
pub open spec fn end_of_input() -> Seq<char> {
    "unexpected end of input"@
}

impl<'a> Reader<'a> {
    /// The cursor stays within the input.
    pub open spec fn wf(&self) -> bool {
        self.pos <= self.data@.len()
    }

    /// A cursor at the start of `data`.
    pub fn new(data: &'a [u8]) -> (r: Reader<'a>)
        ensures
            r.data@ == data@,
            r.pos == 0,
            r.wf(),
    {
        Reader { data, pos: 0 }
    }

    /// How many bytes are left to read.
    pub fn remaining(&self) -> (n: usize)
        requires
            self.wf(),
        ensures
            n == self.data@.len() - self.pos,
    {
        self.data.len() - self.pos
    }

    /// The next `n` bytes; an error, and no move, when fewer are left.
    pub fn read_bytes(&mut self, n: usize) -> (r: Result<&'a [u8], &'static str>)
        requires
            old(self).wf(),
        ensures
            final(self).wf(),
            final(self).data@ == old(self).data@,
            old(self).pos + n <= old(self).data@.len() ==> (r matches Ok(b) && b@ == old(
                self,
            ).data@.subrange(old(self).pos as int, old(self).pos + n) && final(self).pos
                == old(self).pos + n),
            old(self).pos + n > old(self).data@.len() ==> (r matches Err(e) && e@
                == end_of_input() && final(self).pos == old(self).pos),
    {
        if n > self.data.len() - self.pos {
            return Err("unexpected end of input");
        }
        let d: &'a [u8] = self.data;
        let slice = &d[self.pos..self.pos + n];
        self.pos = self.pos + n;
        Ok(slice)
    }

    /// The next byte.
    pub fn read_u8(&mut self) -> (r: Result<u8, &'static str>)
        requires
            old(self).wf(),
        ensures
            final(self).wf(),
            final(self).data@ == old(self).data@,
            old(self).pos + 1 <= old(self).data@.len() ==> (r == Ok::<u8, &'static str>(
                old(self).data@[old(self).pos as int],
            ) && final(self).pos == old(self).pos + 1),
            old(self).pos + 1 > old(self).data@.len() ==> (r matches Err(e) && e@
                == end_of_input() && final(self).pos == old(self).pos),
    {
        match self.read_bytes(1) {
            Ok(b) => Ok(b[0]),
            Err(e) => Err(e),
        }
    }

    /// The next byte as a flag: any nonzero byte is `true`.
    pub fn read_bool(&mut self) -> (r: Result<bool, &'static str>)
        requires
            old(self).wf(),
        ensures
            final(self).wf(),
            final(self).data@ == old(self).data@,
            old(self).pos + 1 <= old(self).data@.len() ==> (r == Ok::<bool, &'static str>(
                old(self).data@[old(self).pos as int] != 0,
            ) && final(self).pos == old(self).pos + 1),
            old(self).pos + 1 > old(self).data@.len() ==> (r matches Err(e) && e@
                == end_of_input() && final(self).pos == old(self).pos),
    {
        match self.read_u8() {
            Ok(b) => Ok(b != 0),
            Err(e) => Err(e),
        }
    }

    /// The next four bytes as a little-endian `u32`.
    pub fn read_u32(&mut self) -> (r: Result<u32, &'static str>)
        requires
            old(self).wf(),
        ensures
            final(self).wf(),
            final(self).data@ == old(self).data@,
            old(self).pos + 4 <= old(self).data@.len() ==> (r == Ok::<u32, &'static str>(
                le_u32(old(self).data@, old(self).pos as int),
            ) && final(self).pos == old(self).pos + 4),
            old(self).pos + 4 > old(self).data@.len() ==> (r matches Err(e) && e@
                == end_of_input() && final(self).pos == old(self).pos),
    {
        let ghost p = self.pos as int;
        match self.read_bytes(4) {
            Ok(b) => {
                let v = (b[0] as u32) | ((b[1] as u32) << 8u32) | ((b[2] as u32) << 16u32) | ((
                b[3] as u32) << 24u32);
                proof {
                    lemma_le_u32_at(self.data@, p, b@);
                }
                Ok(v)
            },
            Err(e) => Err(e),
        }
    }

    /// The next eight bytes as a little-endian `u64`.
    pub fn read_u64(&mut self) -> (r: Result<u64, &'static str>)
        requires
            old(self).wf(),
        ensures
            final(self).wf(),
            final(self).data@ == old(self).data@,
            old(self).pos + 8 <= old(self).data@.len() ==> (r == Ok::<u64, &'static str>(
                le_u64(old(self).data@, old(self).pos as int),
            ) && final(self).pos == old(self).pos + 8),
            old(self).pos + 8 > old(self).data@.len() ==> (r matches Err(e) && e@
                == end_of_input() && final(self).pos == old(self).pos),
    {
        let ghost p = self.pos as int;
        match self.read_bytes(8) {
            Ok(b) => {
                let lo = (b[0] as u32) | ((b[1] as u32) << 8u32) | ((b[2] as u32) << 16u32) | ((
                b[3] as u32) << 24u32);
                let hi = (b[4] as u32) | ((b[5] as u32) << 8u32) | ((b[6] as u32) << 16u32) | ((
                b[7] as u32) << 24u32);
                proof {
                    lemma_le_u64_at(self.data@, p, b@);
                    assert(lo == le_u32(b@, 0));
                    assert(hi == le_u32(b@, 4));
                }
                Ok((lo as u64) | ((hi as u64) << 32u64))
            },
            Err(e) => Err(e),
        }
    }

    /// The next 32 bytes as an address.
    pub fn read_pubkey(&mut self) -> (r: Result<Pubkey, &'static str>)
        requires
            old(self).wf(),
        ensures
            final(self).wf(),
            final(self).data@ == old(self).data@,
            old(self).pos + 32 <= old(self).data@.len() ==> (r matches Ok(k) && k@ == old(
                self,
            ).data@.subrange(old(self).pos as int, old(self).pos + 32) && final(self).pos
                == old(self).pos + 32),
            old(self).pos + 32 > old(self).data@.len() ==> (r matches Err(e) && e@
                == end_of_input() && final(self).pos == old(self).pos),
    {
        match self.read_bytes(32) {
            Ok(b) => {
                let mut a = [0u8; 32];
                let mut i: usize = 0;
                while i < 32
                    invariant
                        i <= 32,
                        b@.len() == 32,
                        forall|j: int| 0 <= j < i ==> a@[j] == b@[j],
                    decreases 32 - i,
                {
                    a[i] = b[i];
                    i = i + 1;
                }
                proof {
                    assert(a@ =~= b@);
                }
                Ok(Pubkey::new_from_array(a))
            },
            Err(e) => Err(e),
        }
    }
}

/// Where a cursor over `len` bytes stands after reads asking for `sizes`
/// bytes in turn: a read that fits moves it on by what it hands out, one
/// that does not leaves it where it is.
pub open spec fn position_after_reads(len: nat, sizes: Seq<nat>) -> nat
    decreases sizes.len(),
{
    if sizes.len() == 0 {
        0
    } else {
        let p = position_after_reads(len, sizes.drop_last());
        if p + sizes.last() <= len {
            p + sizes.last()
        } else {
            p
        }
    }
}

/// After any reads a cursor stays within its input.
pub proof fn law_reader_position_in_bounds(len: nat, sizes: Seq<nat>)
    ensures
        position_after_reads(len, sizes) <= len,
    decreases sizes.len(),
{
    if sizes.len() > 0 {
        law_reader_position_in_bounds(len, sizes.drop_last());
    }
}

/// A read (whose `ensures` are the `requires` here) moves a cursor that
/// stands where earlier reads left it to where one more read leaves it:
/// from `Reader::new` on, the position is what the successful reads handed
/// out, and `remaining` is what is left of the unchanged input.
pub proof fn law_reader_read_step<'a>(before: Reader<'a>, after: Reader<'a>, sizes: Seq<nat>, n: nat)
    requires
        before.pos == position_after_reads(before.data@.len(), sizes),
        after.data@ == before.data@,
        before.pos + n <= before.data@.len() ==> after.pos == before.pos + n,
        before.pos + n > before.data@.len() ==> after.pos == before.pos,
    ensures
        after.pos == position_after_reads(after.data@.len(), sizes.push(n)),
        after.pos <= after.data@.len(),
{
    assert(sizes.push(n).drop_last() =~= sizes);
    law_reader_position_in_bounds(after.data@.len(), sizes.push(n));
}

// ---------------------------------------------------------------------------
// Writer
// ---------------------------------------------------------------------------

/// A growing byte buffer.
pub struct Writer {
    pub buf: Vec<u8>,
}

impl View for Writer {
    type V = Seq<u8>;

    open spec fn view(&self) -> Seq<u8> {
        self.buf@
    }
}

impl Writer {
    /// An empty buffer.
    pub fn new() -> (w: Writer)
        ensures
            w@ == Seq::<u8>::empty(),
    {
        Writer { buf: Vec::new() }
    }

    /// Appends the four little-endian bytes of a signed integer.
    pub fn write_i32(&mut self, v: i32)
        ensures
            final(self)@ == old(self)@ + u32_bytes(v as u32),
    {
        self.write_u32(v as u32);
    }

    /// Appends the four little-endian bytes of `v`.
    pub fn write_u32(&mut self, v: u32)
        ensures
            final(self)@ == old(self)@ + u32_bytes(v),
    {
        self.buf.push((v & 0xff) as u8);
        self.buf.push(((v >> 8u32) & 0xff) as u8);
        self.buf.push(((v >> 16u32) & 0xff) as u8);
        self.buf.push(((v >> 24u32) & 0xff) as u8);
        proof {
            assert(self@ =~= old(self)@ + u32_bytes(v));
        }
    }

    /// Appends the eight little-endian bytes of `v`.
    pub fn write_u64(&mut self, v: u64)
        ensures
            final(self)@ == old(self)@ + u64_bytes(v),
    {
        self.write_u32((v & 0xffff_ffff) as u32);
        self.write_u32((v >> 32u64) as u32);
        proof {
            assert(self@ =~= old(self)@ + u64_bytes(v));
        }
    }

    /// Appends one byte for a flag: 1 for `true`, 0 for `false`.
    pub fn write_bool(&mut self, v: bool)
        ensures
            final(self)@ == old(self)@.push(bool_byte(v)),
    {
        if v {
            self.buf.push(1u8);
        } else {
            self.buf.push(0u8);
        }
    }

    /// Appends raw bytes.
    pub fn write_bytes(&mut self, data: &[u8])
        ensures
            final(self)@ == old(self)@ + data@,
    {
        let mut i: usize = 0;
        while i < data.len()
            invariant
                i <= data@.len(),
                self@ == old(self)@ + data@.subrange(0, i as int),
            decreases data@.len() - i,
        {
            self.buf.push(data[i]);
            i = i + 1;
            proof {
                assert(self@ =~= old(self)@ + data@.subrange(0, i as int));
            }
        }
        proof {
            assert(data@.subrange(0, data@.len() as int) =~= data@);
        }
    }

    /// Appends the length of `data` as a `u32` (its low 32 bits), then `data`.
    pub fn write_length_prefixed(&mut self, data: &[u8])
        ensures
            final(self)@ == old(self)@ + u32_bytes(data@.len() as u32) + data@,
    {
        self.write_u32(data.len() as u32);
        self.write_bytes(data);
    }

    /// Appends the 32 bytes of an address.
    pub fn write_pubkey(&mut self, pubkey: &Pubkey)
        ensures
            final(self)@ == old(self)@ + pubkey@,
    {
        let b = pubkey.to_bytes();
        self.write_bytes(&b);
    }

    /// The bytes written.
    pub fn into_boxed_slice(self) -> (r: Box<[u8]>)
        ensures
            r@ == self@,
    {
        boxed_bytes(self.buf)
    }
}

/// Calls `Vec::into_boxed_slice`, which keeps the elements.
#[verifier::external_body]
fn boxed_bytes(v: Vec<u8>) -> (r: Box<[u8]>)
    ensures
        r@ == v@,
{
    v.into_boxed_slice()
}


// ---------------------------------------------------------------------------
// The format as mathematics: parsing
// ---------------------------------------------------------------------------

/// The account meta encoded in the 34 bytes of `s` from offset `at`.
pub open spec fn meta_at(s: Seq<u8>, at: int) -> AccountMetaView {
    AccountMetaView {
        pubkey: s.subrange(at, at + 32),
        is_signer: s[at + 32] != 0,
        is_writable: s[at + 33] != 0,
    }
}

/// The instruction encoded in `s` from offset `p`, with the offset just past
/// it, or `None` when the input ends first.
pub open spec fn parse_instruction_at(s: Seq<u8>, p: int) -> Option<(InstructionView, int)> {
    if p + 36 > s.len() {
        None
    } else {
        let q = p + 36 + le_u32(s, p + 32);
        if q + 4 > s.len() {
            None
        } else {
            let n = le_u32(s, q);
            let e = q + 4 + 34 * n;
            if e > s.len() {
                None
            } else {
                Some(
                    (
                        InstructionView {
                            program_id: s.subrange(p, p + 32),
                            accounts: Seq::new(n as nat, |i: int| meta_at(s, q + 4 + 34 * i)),
                            data: s.subrange(p + 36, q),
                        },
                        e,
                    ),
                )
            }
        }
    }
}

/// The first `n` instructions of a count-prefixed list in `s`, with the offset
/// just past them, or `None` when the input ends first.
pub open spec fn parse_instructions(s: Seq<u8>, n: nat) -> Option<(Seq<InstructionView>, int)>
    decreases n,
{
    if n == 0 {
        Some((Seq::empty(), 4))
    } else {
        match parse_instructions(s, (n - 1) as nat) {
            None => None,
            Some((v, p)) => match parse_instruction_at(s, p) {
                None => None,
                Some((ix, e)) => Some((v.push(ix), e)),
            },
        }
    }
}

/// The account encoded in `s` from offset `p`, with the offset just past it,
/// or `None` when the input ends first.
pub open spec fn parse_account_at(s: Seq<u8>, p: int) -> Option<(AccountView, int)> {
    if p + 76 > s.len() {
        None
    } else {
        let q = p + 76 + le_u32(s, p + 72);
        if q + 1 > s.len() {
            None
        } else {
            Some(
                (
                    AccountView {
                        address: s.subrange(p, p + 32),
                        lamports: le_u64(s, p + 64),
                        data: s.subrange(p + 76, q),
                        owner: s.subrange(p + 32, p + 64),
                        executable: s[q] != 0,
                    },
                    q + 1,
                ),
            )
        }
    }
}

/// The first `n` accounts of a count-prefixed list in `s`, with the offset
/// just past them, or `None` when the input ends first.
pub open spec fn parse_accounts(s: Seq<u8>, n: nat) -> Option<(Seq<AccountView>, int)>
    decreases n,
{
    if n == 0 {
        Some((Seq::empty(), 4))
    } else {
        match parse_accounts(s, (n - 1) as nat) {
            None => None,
            Some((v, p)) => match parse_account_at(s, p) {
                None => None,
                Some((a, e)) => Some((v.push(a), e)),
            },
        }
    }
}

/// The message when a single instruction is followed by more bytes.
pub open spec fn trailing_after_instruction() -> Seq<char> {
    "trailing data after instruction"@
}

/// The message when a list of instructions is followed by more bytes.
pub open spec fn trailing_after_instructions() -> Seq<char> {
    "trailing data after instructions"@
}

/// The message when a list of accounts is followed by more bytes.
pub open spec fn trailing_after_accounts() -> Seq<char> {
    "trailing data after accounts"@
}

/// What decoding `s` as one instruction gives.
pub open spec fn decode_instruction(s: Seq<u8>) -> Result<InstructionView, Seq<char>> {
    match parse_instruction_at(s, 0) {
        None => Err(end_of_input()),
        Some((ix, e)) => if e == s.len() {
            Ok(ix)
        } else {
            Err(trailing_after_instruction())
        },
    }
}

/// What decoding `s` as a count-prefixed list of instructions gives.
pub open spec fn decode_instructions(s: Seq<u8>) -> Result<Seq<InstructionView>, Seq<char>> {
    if s.len() < 4 {
        Err(end_of_input())
    } else {
        match parse_instructions(s, le_u32(s, 0) as nat) {
            None => Err(end_of_input()),
            Some((v, e)) => if e == s.len() {
                Ok(v)
            } else {
                Err(trailing_after_instructions())
            },
        }
    }
}

/// What decoding `s` as a count-prefixed list of accounts gives.
pub open spec fn decode_accounts(s: Seq<u8>) -> Result<Seq<AccountView>, Seq<char>> {
    if s.len() < 4 {
        Err(end_of_input())
    } else {
        match parse_accounts(s, le_u32(s, 0) as nat) {
            None => Err(end_of_input()),
            Some((v, e)) => if e == s.len() {
                Ok(v)
            } else {
                Err(trailing_after_accounts())
            },
        }
    }
}

// ---------------------------------------------------------------------------
// Deserialization
// ---------------------------------------------------------------------------

/// Reads one instruction at the cursor.
pub fn read_one_instruction(r: &mut Reader) -> (res: Result<Instruction, &'static str>)
    requires
        old(r).wf(),
    ensures
        final(r).wf(),
        final(r).data@ == old(r).data@,
        match parse_instruction_at(old(r).data@, old(r).pos as int) {
            None => res matches Err(e) && e@ == end_of_input(),
            Some((ix, e)) => res matches Ok(v) && v@ == ix && final(r).pos == e,
        },
{
    let ghost s = r.data@;
    let ghost p = r.pos as int;
    let program_id = match r.read_pubkey() {
        Ok(k) => k,
        Err(e) => {
            return Err(e);
        },
    };
    let data_len = match r.read_u32() {
        Ok(n) => n,
        Err(e) => {
            return Err(e);
        },
    };
    let data_slice = match r.read_bytes(data_len as usize) {
        Ok(b) => b,
        Err(e) => {
            return Err(e);
        },
    };
    let mut data: Vec<u8> = Vec::new();
    let mut i: usize = 0;
    while i < data_slice.len()
        invariant
            i <= data_slice@.len(),
            data@ == data_slice@.subrange(0, i as int),
        decreases data_slice@.len() - i,
    {
        data.push(data_slice[i]);
        i = i + 1;
        proof {
            assert(data@ =~= data_slice@.subrange(0, i as int));
        }
    }
    proof {
        assert(data@ =~= data_slice@);
    }
    let ghost q = r.pos as int;
    let num_metas = match r.read_u32() {
        Ok(n) => n,
        Err(e) => {
            return Err(e);
        },
    };
    let mut accounts: Vec<AccountMeta> = Vec::new();
    let mut k: u32 = 0;
    while k < num_metas
        invariant
            r.wf(),
            r.data@ == s,
            old(r).data@ == s,
            old(r).pos == p,
            q == p + 36 + le_u32(s, p + 32),
            k <= num_metas,
            num_metas == le_u32(s, q),
            q + 4 <= s.len(),
            r.pos == q + 4 + 34 * k,
            accounts@.len() == k,
            forall|j: int| 0 <= j < k ==> #[trigger] accounts@[j]@ == meta_at(s, q + 4 + 34 * j),
        decreases num_metas - k,
    {
        let ghost at = r.pos as int;
        let pubkey = match r.read_pubkey() {
            Ok(key) => key,
            Err(e) => {
                return Err(e);
            },
        };
        let is_signer = match r.read_bool() {
            Ok(b) => b,
            Err(e) => {
                return Err(e);
            },
        };
        let is_writable = match r.read_bool() {
            Ok(b) => b,
            Err(e) => {
                return Err(e);
            },
        };
        accounts.push(AccountMeta { pubkey, is_signer, is_writable });
        proof {
            assert(accounts@[k as int]@ == meta_at(s, at));
        }
        k = k + 1;
    }
    let ix = Instruction { program_id, accounts, data };
    proof {
        assert(ix@.accounts =~= Seq::new(num_metas as nat, |i: int| meta_at(s, q + 4 + 34 * i)));
    }
    Ok(ix)
}

/// Decodes a single instruction; the whole input must be used.
pub fn deserialize_instruction(data: &[u8]) -> (res: Result<Instruction, &'static str>)
    ensures
        match res {
            Ok(ix) => decode_instruction(data@) == Ok::<InstructionView, Seq<char>>(ix@),
            Err(e) => decode_instruction(data@) == Err::<InstructionView, Seq<char>>(e@),
        },
{
    let mut r = Reader::new(data);
    let ix = match read_one_instruction(&mut r) {
        Ok(ix) => ix,
        Err(e) => {
            return Err(e);
        },
    };
    if r.remaining() > 0 {
        return Err("trailing data after instruction");
    }
    Ok(ix)
}

/// Decodes a count-prefixed list of instructions; the whole input must be used.
pub fn deserialize_instructions(data: &[u8]) -> (res: Result<Vec<Instruction>, &'static str>)
    ensures
        match res {
            Ok(ixs) => decode_instructions(data@) == Ok::<Seq<InstructionView>, Seq<char>>(
                instructions_view(ixs@),
            ),
            Err(e) => decode_instructions(data@) == Err::<Seq<InstructionView>, Seq<char>>(e@),
        },
{
    let mut r = Reader::new(data);
    let count = match r.read_u32() {
        Ok(n) => n,
        Err(e) => {
            return Err(e);
        },
    };
    let ghost s = data@;
    let mut instructions: Vec<Instruction> = Vec::new();
    let mut k: u32 = 0;
    while k < count
        invariant
            r.wf(),
            r.data@ == s,
            s == data@,
            s.len() >= 4,
            count == le_u32(s, 0),
            k <= count,
            parse_instructions(s, k as nat) == Some((instructions_view(instructions@), r.pos as int)),
        decreases count - k,
    {
        let ghost before = instructions@;
        let ix = match read_one_instruction(&mut r) {
            Ok(ix) => ix,
            Err(e) => {
                proof {
                    assert(parse_instructions(s, (k + 1) as nat) is None);
                    lemma_parse_instructions_none_grows(s, (k + 1) as nat, count as nat);
                }
                return Err(e);
            },
        };
        instructions.push(ix);
        proof {
            assert(instructions_view(instructions@) =~= instructions_view(before).push(ix@));
        }
        k = k + 1;
    }
    if r.remaining() > 0 {
        return Err("trailing data after instructions");
    }
    Ok(instructions)
}

/// Once a list runs out of input, a longer one does too.
proof fn lemma_parse_instructions_none_grows(s: Seq<u8>, k: nat, n: nat)
    requires
        k <= n,
        parse_instructions(s, k) is None,
    ensures
        parse_instructions(s, n) is None,
    decreases n - k,
{
    if k < n {
        lemma_parse_instructions_none_grows(s, k + 1, n);
    }
}

/// Once a list runs out of input, a longer one does too.
proof fn lemma_parse_accounts_none_grows(s: Seq<u8>, k: nat, n: nat)
    requires
        k <= n,
        parse_accounts(s, k) is None,
    ensures
        parse_accounts(s, n) is None,
    decreases n - k,
{
    if k < n {
        lemma_parse_accounts_none_grows(s, k + 1, n);
    }
}

/// Reads one account at the cursor.
fn read_one_account(r: &mut Reader) -> (res: Result<Account, &'static str>)
    requires
        old(r).wf(),
    ensures
        final(r).wf(),
        final(r).data@ == old(r).data@,
        match parse_account_at(old(r).data@, old(r).pos as int) {
            None => res matches Err(e) && e@ == end_of_input(),
            Some((a, e)) => res matches Ok(v) && v@ == a && final(r).pos == e,
        },
{
    let address = match r.read_pubkey() {
        Ok(k) => k,
        Err(e) => {
            return Err(e);
        },
    };
    let owner = match r.read_pubkey() {
        Ok(k) => k,
        Err(e) => {
            return Err(e);
        },
    };
    let lamports = match r.read_u64() {
        Ok(n) => n,
        Err(e) => {
            return Err(e);
        },
    };
    let data_len = match r.read_u32() {
        Ok(n) => n,
        Err(e) => {
            return Err(e);
        },
    };
    let data_slice = match r.read_bytes(data_len as usize) {
        Ok(b) => b,
        Err(e) => {
            return Err(e);
        },
    };
    let mut data: Vec<u8> = Vec::new();
    let mut i: usize = 0;
    while i < data_slice.len()
        invariant
            i <= data_slice@.len(),
            data@ == data_slice@.subrange(0, i as int),
        decreases data_slice@.len() - i,
    {
        data.push(data_slice[i]);
        i = i + 1;
        proof {
            assert(data@ =~= data_slice@.subrange(0, i as int));
        }
    }
    proof {
        assert(data@ =~= data_slice@);
    }
    let executable = match r.read_bool() {
        Ok(b) => b,
        Err(e) => {
            return Err(e);
        },
    };
    Ok(Account { address, lamports, data, owner, executable })
}

/// Decodes a count-prefixed list of accounts; the whole input must be used.
pub fn deserialize_accounts(data: &[u8]) -> (res: Result<Vec<Account>, &'static str>)
    ensures
        match res {
            Ok(accs) => decode_accounts(data@) == Ok::<Seq<AccountView>, Seq<char>>(
                accounts_view(accs@),
            ),
            Err(e) => decode_accounts(data@) == Err::<Seq<AccountView>, Seq<char>>(e@),
        },
{
    let mut r = Reader::new(data);
    let count = match r.read_u32() {
        Ok(n) => n,
        Err(e) => {
            return Err(e);
        },
    };
    let ghost s = data@;
    let mut accounts: Vec<Account> = Vec::new();
    let mut k: u32 = 0;
    while k < count
        invariant
            r.wf(),
            r.data@ == s,
            s == data@,
            s.len() >= 4,
            count == le_u32(s, 0),
            k <= count,
            parse_accounts(s, k as nat) == Some((accounts_view(accounts@), r.pos as int)),
        decreases count - k,
    {
        let ghost before = accounts@;
        let a = match read_one_account(&mut r) {
            Ok(a) => a,
            Err(e) => {
                proof {
                    assert(parse_accounts(s, (k + 1) as nat) is None);
                    lemma_parse_accounts_none_grows(s, (k + 1) as nat, count as nat);
                }
                return Err(e);
            },
        };
        accounts.push(a);
        proof {
            assert(accounts_view(accounts@) =~= accounts_view(before).push(a@));
        }
        k = k + 1;
    }
    if r.remaining() > 0 {
        return Err("trailing data after accounts");
    }
    Ok(accounts)
}


// ---------------------------------------------------------------------------
// The format as mathematics: encoding, and what decoding gives back of it
// ---------------------------------------------------------------------------

/// The 34 bytes of an account meta.
pub open spec fn encode_meta(m: AccountMetaView) -> Seq<u8> {
    m.pubkey + seq![bool_byte(m.is_signer), bool_byte(m.is_writable)]
}

/// The bytes of a sequence of account metas, one after the other.
pub open spec fn encode_metas(ms: Seq<AccountMetaView>) -> Seq<u8>
    decreases ms.len(),
{
    if ms.len() == 0 {
        Seq::empty()
    } else {
        encode_metas(ms.drop_last()) + encode_meta(ms.last())
    }
}

/// The bytes of one instruction.
pub open spec fn encode_instruction(ix: InstructionView) -> Seq<u8> {
    ix.program_id + u32_bytes(ix.data.len() as u32) + ix.data + u32_bytes(
        ix.accounts.len() as u32,
    ) + encode_metas(ix.accounts)
}

/// The bytes of a sequence of instructions, one after the other, with no count.
pub open spec fn encode_instruction_list(ixs: Seq<InstructionView>) -> Seq<u8>
    decreases ixs.len(),
{
    if ixs.len() == 0 {
        Seq::empty()
    } else {
        encode_instruction_list(ixs.drop_last()) + encode_instruction(ixs.last())
    }
}

/// The bytes of a count-prefixed list of instructions.
pub open spec fn encode_instructions(ixs: Seq<InstructionView>) -> Seq<u8> {
    u32_bytes(ixs.len() as u32) + encode_instruction_list(ixs)
}

/// The bytes of one account.
pub open spec fn encode_account(a: AccountView) -> Seq<u8> {
    a.address + a.owner + u64_bytes(a.lamports) + u32_bytes(a.data.len() as u32) + a.data
        + seq![bool_byte(a.executable)]
}

/// The bytes of a sequence of accounts, one after the other, with no count.
pub open spec fn encode_account_list(accs: Seq<AccountView>) -> Seq<u8>
    decreases accs.len(),
{
    if accs.len() == 0 {
        Seq::empty()
    } else {
        encode_account_list(accs.drop_last()) + encode_account(accs.last())
    }
}

/// The bytes of a count-prefixed list of accounts.
pub open spec fn encode_accounts(accs: Seq<AccountView>) -> Seq<u8> {
    u32_bytes(accs.len() as u32) + encode_account_list(accs)
}

/// An instruction that the format can carry: 32-byte addresses and lengths
/// that fit in a `u32`.
pub open spec fn instruction_encodable(ix: InstructionView) -> bool {
    &&& ix.program_id.len() == 32
    &&& ix.data.len() <= u32::MAX
    &&& ix.accounts.len() <= u32::MAX
    &&& forall|i: int| 0 <= i < ix.accounts.len() ==> (#[trigger] ix.accounts[i]).pubkey.len() == 32
}

/// An account that the format can carry: 32-byte addresses and data whose
/// length fits in a `u32`.
pub open spec fn account_encodable(a: AccountView) -> bool {
    &&& a.address.len() == 32
    &&& a.owner.len() == 32
    &&& a.data.len() <= u32::MAX
}

proof fn lemma_encode_metas_len(ms: Seq<AccountMetaView>)
    requires
        forall|i: int| 0 <= i < ms.len() ==> (#[trigger] ms[i]).pubkey.len() == 32,
    ensures
        encode_metas(ms).len() == 34 * ms.len(),
    decreases ms.len(),
{
    if ms.len() > 0 {
        let init = ms.drop_last();
        assert forall|i: int| 0 <= i < init.len() implies (#[trigger] init[i]).pubkey.len() == 32 by {
            assert(init[i] == ms[i]);
        }
        lemma_encode_metas_len(init);
        assert(ms.last() == ms[ms.len() - 1]);
    }
}

proof fn lemma_metas_at(s: Seq<u8>, off: int, ms: Seq<AccountMetaView>)
    requires
        0 <= off,
        off + 34 * ms.len() <= s.len(),
        forall|i: int| 0 <= i < ms.len() ==> (#[trigger] ms[i]).pubkey.len() == 32,
        s.subrange(off, off + 34 * ms.len()) == encode_metas(ms),
    ensures
        forall|i: int| 0 <= i < ms.len() ==> meta_at(s, off + 34 * i) == #[trigger] ms[i],
    decreases ms.len(),
{
    if ms.len() > 0 {
        let n = ms.len() as int;
        let init = ms.drop_last();
        let last = ms.last();
        assert forall|i: int| 0 <= i < init.len() implies (#[trigger] init[i]).pubkey.len() == 32 by {
            assert(init[i] == ms[i]);
        }
        lemma_encode_metas_len(init);
        assert(s.subrange(off, off + 34 * (n - 1)) =~= s.subrange(off, off + 34 * n).subrange(
            0,
            34 * (n - 1),
        ));
        assert(encode_metas(ms).subrange(0, 34 * (n - 1)) =~= encode_metas(init));
        lemma_metas_at(s, off, init);
        let at = off + 34 * (n - 1);
        assert(encode_metas(ms).subrange(34 * (n - 1), 34 * n) =~= encode_meta(last));
        assert(s.subrange(at, at + 34) =~= s.subrange(off, off + 34 * n).subrange(
            34 * (n - 1),
            34 * n,
        ));
        assert(last == ms[n - 1]);
        assert(s.subrange(at, at + 34) == encode_meta(last));
        assert(s.subrange(at, at + 32) =~= s.subrange(at, at + 34).subrange(0, 32));
        assert(encode_meta(last).subrange(0, 32) =~= last.pubkey);
        assert(s[at + 32] == s.subrange(at, at + 34)[32]);
        assert(s[at + 33] == s.subrange(at, at + 34)[33]);
        assert(meta_at(s, at) == last);
        assert forall|i: int| 0 <= i < ms.len() implies meta_at(s, off + 34 * i) == #[trigger] ms[i] by {
            if i < n - 1 {
                assert(init[i] == ms[i]);
            }
        }
    }
}

proof fn lemma_instruction_at(s: Seq<u8>, p: int, ix: InstructionView)
    requires
        0 <= p,
        instruction_encodable(ix),
        p + encode_instruction(ix).len() <= s.len(),
        s.subrange(p, p + encode_instruction(ix).len() as int) == encode_instruction(ix),
    ensures
        parse_instruction_at(s, p) == Some((ix, p + encode_instruction(ix).len() as int)),
{
    let enc = encode_instruction(ix);
    let dl = ix.data.len() as int;
    let n = ix.accounts.len() as int;
    lemma_u32_round_trip(dl as u32);
    lemma_u32_round_trip(n as u32);
    lemma_encode_metas_len(ix.accounts);
    let q = p + 36 + dl;
    assert(enc.len() == 36 + dl + 4 + 34 * n);
    assert(s.subrange(p + 32, p + 36) =~= enc.subrange(32, 36));
    assert(enc.subrange(32, 36) =~= u32_bytes(dl as u32));
    lemma_le_u32_at(s, p + 32, u32_bytes(dl as u32));
    assert(s.subrange(q, q + 4) =~= enc.subrange(36 + dl, 40 + dl));
    assert(enc.subrange(36 + dl, 40 + dl) =~= u32_bytes(n as u32));
    lemma_le_u32_at(s, q, u32_bytes(n as u32));
    assert(s.subrange(p, p + 32) =~= enc.subrange(0, 32));
    assert(enc.subrange(0, 32) =~= ix.program_id);
    assert(s.subrange(p + 36, q) =~= enc.subrange(36, 36 + dl));
    assert(enc.subrange(36, 36 + dl) =~= ix.data);
    assert(s.subrange(q + 4, q + 4 + 34 * n) =~= enc.subrange(40 + dl, 40 + dl + 34 * n));
    assert(enc.subrange(40 + dl, 40 + dl + 34 * n) =~= encode_metas(ix.accounts));
    lemma_metas_at(s, q + 4, ix.accounts);
    let got = parse_instruction_at(s, p).unwrap().0;
    assert(got.accounts =~= ix.accounts);
}

proof fn lemma_instruction_list(s: Seq<u8>, ixs: Seq<InstructionView>)
    requires
        forall|i: int| 0 <= i < ixs.len() ==> instruction_encodable(#[trigger] ixs[i]),
        4 + encode_instruction_list(ixs).len() <= s.len(),
        s.subrange(4, 4 + encode_instruction_list(ixs).len() as int) == encode_instruction_list(ixs),
    ensures
        parse_instructions(s, ixs.len()) == Some((ixs, 4 + encode_instruction_list(ixs).len() as int)),
    decreases ixs.len(),
{
    if ixs.len() == 0 {
        assert(ixs =~= Seq::<InstructionView>::empty());
    } else {
        let init = ixs.drop_last();
        let last = ixs.last();
        let l1 = encode_instruction_list(init).len() as int;
        let l = encode_instruction_list(ixs).len() as int;
        assert forall|i: int| 0 <= i < init.len() implies instruction_encodable(#[trigger] init[i]) by {
            assert(init[i] == ixs[i]);
        }
        assert(s.subrange(4, 4 + l1) =~= s.subrange(4, 4 + l).subrange(0, l1));
        assert(encode_instruction_list(ixs).subrange(0, l1) =~= encode_instruction_list(init));
        lemma_instruction_list(s, init);
        assert(instruction_encodable(ixs[ixs.len() - 1]));
        assert(s.subrange(4 + l1, 4 + l) =~= s.subrange(4, 4 + l).subrange(l1, l));
        assert(encode_instruction_list(ixs).subrange(l1, l) =~= encode_instruction(last));
        lemma_instruction_at(s, 4 + l1, last);
        assert(init.push(last) =~= ixs);
    }
}

proof fn lemma_account_at(s: Seq<u8>, p: int, a: AccountView)
    requires
        0 <= p,
        account_encodable(a),
        p + encode_account(a).len() <= s.len(),
        s.subrange(p, p + encode_account(a).len() as int) == encode_account(a),
    ensures
        parse_account_at(s, p) == Some((a, p + encode_account(a).len() as int)),
{
    let enc = encode_account(a);
    let dl = a.data.len() as int;
    lemma_u32_round_trip(dl as u32);
    lemma_u64_round_trip(a.lamports);
    let q = p + 76 + dl;
    assert(enc.len() == 77 + dl);
    assert(s.subrange(p + 72, p + 76) =~= enc.subrange(72, 76));
    assert(enc.subrange(72, 76) =~= u32_bytes(dl as u32));
    lemma_le_u32_at(s, p + 72, u32_bytes(dl as u32));
    assert(s.subrange(p + 64, p + 72) =~= enc.subrange(64, 72));
    assert(enc.subrange(64, 72) =~= u64_bytes(a.lamports));
    lemma_le_u64_at(s, p + 64, u64_bytes(a.lamports));
    assert(s.subrange(p, p + 32) =~= enc.subrange(0, 32));
    assert(enc.subrange(0, 32) =~= a.address);
    assert(s.subrange(p + 32, p + 64) =~= enc.subrange(32, 64));
    assert(enc.subrange(32, 64) =~= a.owner);
    assert(s.subrange(p + 76, q) =~= enc.subrange(76, 76 + dl));
    assert(enc.subrange(76, 76 + dl) =~= a.data);
    assert(s[q] == enc[76 + dl]);
}

proof fn lemma_account_list(s: Seq<u8>, accs: Seq<AccountView>)
    requires
        forall|i: int| 0 <= i < accs.len() ==> account_encodable(#[trigger] accs[i]),
        4 + encode_account_list(accs).len() <= s.len(),
        s.subrange(4, 4 + encode_account_list(accs).len() as int) == encode_account_list(accs),
    ensures
        parse_accounts(s, accs.len()) == Some((accs, 4 + encode_account_list(accs).len() as int)),
    decreases accs.len(),
{
    if accs.len() == 0 {
        assert(accs =~= Seq::<AccountView>::empty());
    } else {
        let init = accs.drop_last();
        let last = accs.last();
        let l1 = encode_account_list(init).len() as int;
        let l = encode_account_list(accs).len() as int;
        assert forall|i: int| 0 <= i < init.len() implies account_encodable(#[trigger] init[i]) by {
            assert(init[i] == accs[i]);
        }
        assert(s.subrange(4, 4 + l1) =~= s.subrange(4, 4 + l).subrange(0, l1));
        assert(encode_account_list(accs).subrange(0, l1) =~= encode_account_list(init));
        lemma_account_list(s, init);
        assert(account_encodable(accs[accs.len() - 1]));
        assert(s.subrange(4 + l1, 4 + l) =~= s.subrange(4, 4 + l).subrange(l1, l));
        assert(encode_account_list(accs).subrange(l1, l) =~= encode_account(last));
        lemma_account_at(s, 4 + l1, last);
        assert(init.push(last) =~= accs);
    }
}

/// Decoding the bytes of an instruction gives the instruction back.
pub proof fn law_instruction_round_trip(ix: InstructionView)
    requires
        instruction_encodable(ix),
    ensures
        decode_instruction(encode_instruction(ix)) == Ok::<InstructionView, Seq<char>>(ix),
{
    let s = encode_instruction(ix);
    assert(s.subrange(0, s.len() as int) =~= s);
    lemma_instruction_at(s, 0, ix);
}

/// Decoding the bytes of a list of instructions gives the list back.
pub proof fn law_instructions_round_trip(ixs: Seq<InstructionView>)
    requires
        ixs.len() <= u32::MAX,
        forall|i: int| 0 <= i < ixs.len() ==> instruction_encodable(#[trigger] ixs[i]),
    ensures
        decode_instructions(encode_instructions(ixs)) == Ok::<Seq<InstructionView>, Seq<char>>(
            ixs,
        ),
{
    let s = encode_instructions(ixs);
    let l = encode_instruction_list(ixs).len() as int;
    lemma_u32_round_trip(ixs.len() as u32);
    assert(s.subrange(0, 4) =~= u32_bytes(ixs.len() as u32));
    lemma_le_u32_at(s, 0, u32_bytes(ixs.len() as u32));
    assert(s.subrange(4, 4 + l) =~= encode_instruction_list(ixs));
    lemma_instruction_list(s, ixs);
}

/// Decoding a list of instructions followed by more bytes reports the
/// trailing data.
pub proof fn law_instructions_trailing_data(ixs: Seq<InstructionView>, rest: Seq<u8>)
    requires
        ixs.len() <= u32::MAX,
        forall|i: int| 0 <= i < ixs.len() ==> instruction_encodable(#[trigger] ixs[i]),
        rest.len() > 0,
    ensures
        decode_instructions(encode_instructions(ixs) + rest) == Err::<Seq<InstructionView>, Seq<char>>(
            trailing_after_instructions(),
        ),
{
    let enc = encode_instructions(ixs);
    let s = enc + rest;
    let l = encode_instruction_list(ixs).len() as int;
    lemma_u32_round_trip(ixs.len() as u32);
    assert(s.subrange(0, 4) =~= u32_bytes(ixs.len() as u32));
    lemma_le_u32_at(s, 0, u32_bytes(ixs.len() as u32));
    assert(s.subrange(4, 4 + l) =~= encode_instruction_list(ixs));
    lemma_instruction_list(s, ixs);
}

/// An instruction parsed from `s` at `p` parses the same from the first `m`
/// bytes of `s` when it ends within them, and not at all when it does not.
proof fn lemma_instruction_at_prefix(s: Seq<u8>, m: int, p: int)
    requires
        0 <= p,
        0 <= m <= s.len(),
        parse_instruction_at(s, p) is Some,
    ensures
        parse_instruction_at(s, p).unwrap().1 <= m ==> parse_instruction_at(s.take(m), p) == parse_instruction_at(s, p),
        parse_instruction_at(s, p).unwrap().1 > m ==> parse_instruction_at(s.take(m), p) is None,
{
    let t = s.take(m);
    if p + 36 <= m {
        assert(le_u32(t, p + 32) == le_u32(s, p + 32));
        let q = p + 36 + le_u32(s, p + 32);
        if q + 4 <= m {
            assert(le_u32(t, q) == le_u32(s, q));
            let n = le_u32(s, q);
            let e = q + 4 + 34 * n;
            if e <= m {
                assert(t.subrange(p, p + 32) =~= s.subrange(p, p + 32));
                assert(t.subrange(p + 36, q) =~= s.subrange(p + 36, q));
                let a = Seq::new(n as nat, |i: int| meta_at(t, q + 4 + 34 * i));
                let b = Seq::new(n as nat, |i: int| meta_at(s, q + 4 + 34 * i));
                assert forall|i: int| 0 <= i < n implies #[trigger] a[i] == b[i] by {
                    let at = q + 4 + 34 * i;
                    assert(at + 34 <= e) by (nonlinear_arith)
                        requires
                            0 <= i < n,
                            at == q + 4 + 34 * i,
                            e == q + 4 + 34 * n,
                    ;
                    assert(t.subrange(at, at + 32) =~= s.subrange(at, at + 32));
                }
                assert(a =~= b);
            }
        }
    }
}

/// The offset after each instruction lies past where it starts.
proof fn lemma_instruction_at_grows(s: Seq<u8>, p: int)
    requires
        parse_instruction_at(s, p) is Some,
    ensures
        parse_instruction_at(s, p).unwrap().1 >= p + 40,
{
}

/// The first `k` instructions parsed from `s` parse the same from the first
/// `m` bytes when they end within them, and not at all when they do not.
proof fn lemma_instructions_prefix(s: Seq<u8>, m: int, k: nat)
    requires
        4 <= m <= s.len(),
        parse_instructions(s, k) is Some,
    ensures
        parse_instructions(s, k).unwrap().1 <= m ==> parse_instructions(s.take(m), k) == parse_instructions(s, k),
        parse_instructions(s, k).unwrap().1 > m ==> parse_instructions(s.take(m), k) is None,
    decreases k,
{
    if k > 0 {
        let (v, p) = parse_instructions(s, (k - 1) as nat).unwrap();
        lemma_instructions_prefix(s, m, (k - 1) as nat);
        lemma_instructions_start(s, (k - 1) as nat);
        lemma_instruction_at_grows(s, p);
        if p <= m {
            lemma_instruction_at_prefix(s, m, p);
        }
    }
}

/// Parsed instructions start after the count.
proof fn lemma_instructions_start(s: Seq<u8>, k: nat)
    requires
        parse_instructions(s, k) is Some,
    ensures
        parse_instructions(s, k).unwrap().1 >= 4,
    decreases k,
{
    if k > 0 {
        lemma_instructions_start(s, (k - 1) as nat);
    }
}

/// Decoding a list of instructions that stops short of its end reports the
/// end of the input.
pub proof fn law_instructions_truncated(ixs: Seq<InstructionView>, m: int)
    requires
        ixs.len() <= u32::MAX,
        forall|i: int| 0 <= i < ixs.len() ==> instruction_encodable(#[trigger] ixs[i]),
        0 <= m < encode_instructions(ixs).len(),
    ensures
        decode_instructions(encode_instructions(ixs).take(m)) == Err::<Seq<InstructionView>, Seq<char>>(end_of_input()),
{
    let s = encode_instructions(ixs);
    let t = s.take(m);
    if m >= 4 {
        let l = encode_instruction_list(ixs).len() as int;
        lemma_u32_round_trip(ixs.len() as u32);
        assert(s.subrange(0, 4) =~= u32_bytes(ixs.len() as u32));
        lemma_le_u32_at(s, 0, u32_bytes(ixs.len() as u32));
        assert(le_u32(t, 0) == le_u32(s, 0));
        assert(s.subrange(4, 4 + l) =~= encode_instruction_list(ixs));
        lemma_instruction_list(s, ixs);
        lemma_instructions_prefix(s, m, ixs.len());
    }
}

/// Decoding the bytes of a list of accounts gives the list back.
pub proof fn law_accounts_round_trip(accs: Seq<AccountView>)
    requires
        accs.len() <= u32::MAX,
        forall|i: int| 0 <= i < accs.len() ==> account_encodable(#[trigger] accs[i]),
    ensures
        decode_accounts(encode_accounts(accs)) == Ok::<Seq<AccountView>, Seq<char>>(accs),
{
    let s = encode_accounts(accs);
    let l = encode_account_list(accs).len() as int;
    lemma_u32_round_trip(accs.len() as u32);
    assert(s.subrange(0, 4) =~= u32_bytes(accs.len() as u32));
    lemma_le_u32_at(s, 0, u32_bytes(accs.len() as u32));
    assert(s.subrange(4, 4 + l) =~= encode_account_list(accs));
    lemma_account_list(s, accs);
}


// ---------------------------------------------------------------------------
// Results
// ---------------------------------------------------------------------------

/// The status code of a program error: a custom code as itself, positive
/// (a code above `i32::MAX` is reported as `i32::MAX`; the error message
/// carries it exactly); the builtin errors as distinct negative codes, from
/// -2 on (-1 is left to errors that are not program errors).
pub open spec fn spec_program_error_code(e: RuntimeProgramError) -> i32 {
    match e {
        RuntimeProgramError::Custom(n) => if n <= 0x7fff_ffff {
            n as i32
        } else {
            0x7fff_ffffi32
        },
        RuntimeProgramError::InvalidArgument => -2i32,
        RuntimeProgramError::InvalidInstructionData => -3i32,
        RuntimeProgramError::InvalidAccountData => -4i32,
        RuntimeProgramError::AccountDataTooSmall => -5i32,
        RuntimeProgramError::InsufficientFunds => -6i32,
        RuntimeProgramError::IncorrectProgramId => -7i32,
        RuntimeProgramError::MissingRequiredSignature => -8i32,
        RuntimeProgramError::AccountAlreadyInitialized => -9i32,
        RuntimeProgramError::UninitializedAccount => -10i32,
        RuntimeProgramError::NotEnoughAccountKeys => -11i32,
        RuntimeProgramError::AccountBorrowFailed => -12i32,
        RuntimeProgramError::MaxSeedLengthExceeded => -13i32,
        RuntimeProgramError::InvalidSeeds => -14i32,
        RuntimeProgramError::BorshIoError => -15i32,
        RuntimeProgramError::AccountNotRentExempt => -16i32,
        RuntimeProgramError::UnsupportedSysvar => -17i32,
        RuntimeProgramError::IllegalOwner => -18i32,
        RuntimeProgramError::MaxAccountsDataAllocationsExceeded => -19i32,
        RuntimeProgramError::InvalidRealloc => -20i32,
        RuntimeProgramError::MaxInstructionTraceLengthExceeded => -21i32,
        RuntimeProgramError::BuiltinProgramsMustConsumeComputeUnits => -22i32,
        RuntimeProgramError::InvalidAccountOwner => -23i32,
        RuntimeProgramError::ArithmeticOverflow => -24i32,
        RuntimeProgramError::Immutable => -25i32,
        RuntimeProgramError::IncorrectAuthority => -26i32,
    }
}

/// The status code of a program error.
pub fn program_error_to_i32(err: &RuntimeProgramError) -> (r: i32)
    ensures
        r == spec_program_error_code(*err),
{
    match err {
        RuntimeProgramError::Custom(n) => if *n <= 0x7fff_ffff {
            *n as i32
        } else {
            0x7fff_ffffi32
        },
        RuntimeProgramError::InvalidArgument => -2,
        RuntimeProgramError::InvalidInstructionData => -3,
        RuntimeProgramError::InvalidAccountData => -4,
        RuntimeProgramError::AccountDataTooSmall => -5,
        RuntimeProgramError::InsufficientFunds => -6,
        RuntimeProgramError::IncorrectProgramId => -7,
        RuntimeProgramError::MissingRequiredSignature => -8,
        RuntimeProgramError::AccountAlreadyInitialized => -9,
        RuntimeProgramError::UninitializedAccount => -10,
        RuntimeProgramError::NotEnoughAccountKeys => -11,
        RuntimeProgramError::AccountBorrowFailed => -12,
        RuntimeProgramError::MaxSeedLengthExceeded => -13,
        RuntimeProgramError::InvalidSeeds => -14,
        RuntimeProgramError::BorshIoError => -15,
        RuntimeProgramError::AccountNotRentExempt => -16,
        RuntimeProgramError::UnsupportedSysvar => -17,
        RuntimeProgramError::IllegalOwner => -18,
        RuntimeProgramError::MaxAccountsDataAllocationsExceeded => -19,
        RuntimeProgramError::InvalidRealloc => -20,
        RuntimeProgramError::MaxInstructionTraceLengthExceeded => -21,
        RuntimeProgramError::BuiltinProgramsMustConsumeComputeUnits => -22,
        RuntimeProgramError::InvalidAccountOwner => -23,
        RuntimeProgramError::ArithmeticOverflow => -24,
        RuntimeProgramError::Immutable => -25,
        RuntimeProgramError::IncorrectAuthority => -26,
    }
}

/// Status codes tell program errors apart: a custom error gets a
/// non-negative code, its own number when that fits an `i32`; every builtin
/// program error gets a negative code below -1 that no other error shares.
pub proof fn law_program_error_codes(p: RuntimeProgramError, q: RuntimeProgramError)
    ensures
        p is Custom ==> spec_program_error_code(p) >= 0,
        p matches RuntimeProgramError::Custom(n) ==> (n <= 0x7fff_ffff ==> spec_program_error_code(p) == n),
        !(p is Custom) ==> spec_program_error_code(p) < -1,
        !(p is Custom) && p != q ==> spec_program_error_code(p) != spec_program_error_code(q),
{
}

/// The status of an execution: 0 for success; for an error, the code of the
/// program error it converts to, or -1 when it converts to none.
pub open spec fn result_status(raw: Result<(), InstructionError>) -> i32 {
    match raw {
        Ok(()) => 0i32,
        Err(e) => match spec_to_runtime_program_error(e) {
            Some(p) => spec_program_error_code(p),
            None => -1i32,
        },
    }
}

/// The status is 0 exactly when the execution succeeded, but for a failure
/// with custom error 0, whose status is 0 as well.
pub proof fn law_status_zero_iff_success(raw: Result<(), InstructionError>)
    requires
        raw != Err::<(), InstructionError>(InstructionError::Custom(0)),
    ensures
        (result_status(raw) == 0) <==> raw is Ok,
{
    match raw {
        Ok(()) => {},
        Err(e) => {
            match e {
                InstructionError::Custom(n) => {
                    assert(n != 0);
                },
                _ => {},
            }
        },
    }
}

/// The decimal digits of `n`, as ASCII bytes.
pub open spec fn decimal_bytes(n: nat) -> Seq<u8>
    decreases n,
{
    if n < 10 {
        seq![(48 + n) as u8]
    } else {
        decimal_bytes(n / 10).push((48 + n % 10) as u8)
    }
}

/// The debug text of an instruction error, as bytes: its name, and for a
/// custom error the code in brackets, `Custom(42)`.
pub open spec fn error_message_bytes(e: InstructionError) -> Seq<u8> {
    match e {
        InstructionError::Custom(n) => seq![67u8, 117u8, 115u8, 116u8, 111u8, 109u8, 40u8] + decimal_bytes(n as nat) + seq![41u8],
        _ => encode_utf8(spec_error_name(e)),
    }
}

/// Appends the decimal digits of `n`.
fn write_decimal(w: &mut Writer, n: u32)
    ensures
        final(w)@ == old(w)@ + decimal_bytes(n as nat),
    decreases n,
{
    if n >= 10 {
        write_decimal(w, n / 10);
    }
    w.buf.push((48 + n % 10) as u8);
    proof {
        if n >= 10 {
            assert(final(w)@ =~= old(w)@ + decimal_bytes(n as nat)) by {
                assert(decimal_bytes(n as nat) == decimal_bytes((n / 10) as nat).push((48 + n % 10) as u8));
            }
        }
    }
}

/// The debug text of an instruction error, as bytes.
pub fn error_message(e: &InstructionError) -> (r: Vec<u8>)
    ensures
        r@ == error_message_bytes(*e),
{
    let mut w = Writer::new();
    match e {
        InstructionError::Custom(n) => {
            w.buf.push(67u8);
            w.buf.push(117u8);
            w.buf.push(115u8);
            w.buf.push(116u8);
            w.buf.push(111u8);
            w.buf.push(109u8);
            w.buf.push(40u8);
            proof {
                assert(w@ =~= seq![67u8, 117u8, 115u8, 116u8, 111u8, 109u8, 40u8]);
            }
            write_decimal(&mut w, *n);
            w.buf.push(41u8);
        },
        _ => {
            w.write_bytes(e.name().as_bytes());
        },
    }
    w.buf
}

/// The bytes of a result's accounts, one after the other.
pub open spec fn encode_logs(logs: Seq<Seq<char>>) -> Seq<u8>
    decreases logs.len(),
{
    if logs.len() == 0 {
        Seq::empty()
    } else {
        encode_logs(logs.drop_last()) + u32_bytes(encode_utf8(logs.last()).len() as u32) + encode_utf8(
            logs.last(),
        )
    }
}

/// The bytes of an execution result: status, compute units, time, return
/// data, the resulting accounts, the logs and the error message (its length
/// 0 on success).
pub open spec fn encode_result(
    raw: Result<(), InstructionError>,
    compute_units: u64,
    time_us: u64,
    return_data: Seq<u8>,
    accounts: Seq<AccountView>,
    logs: Seq<Seq<char>>,
) -> Seq<u8> {
    u32_bytes(result_status(raw) as u32) + u64_bytes(compute_units) + u64_bytes(time_us) + u32_bytes(
        return_data.len() as u32,
    ) + return_data + u32_bytes(accounts.len() as u32) + encode_account_list(accounts) + u32_bytes(
        logs.len() as u32,
    ) + encode_logs(logs) + match raw {
        Ok(()) => u32_bytes(0),
        Err(e) => u32_bytes(error_message_bytes(e).len() as u32) + error_message_bytes(e),
    }
}

/// Serializes one account in the layout of an entry of an account list:
/// address, owner, lamports, length-prefixed data, executable flag.
pub fn serialize_account(account: &Account) -> (r: Box<[u8]>)
    ensures
        r@ == encode_account(account@),
{
    let mut w = Writer::new();
    w.write_pubkey(&account.address);
    w.write_pubkey(&account.owner);
    w.write_u64(account.lamports);
    w.write_length_prefixed(account.data.as_slice());
    w.write_bool(account.executable);
    proof {
        assert(w@ =~= encode_account(account@));
    }
    w.into_boxed_slice()
}

/// Serializes an execution result and its logs.
pub fn serialize_result(result: &ExecutionResult, logs: Vec<String>) -> (r: Box<[u8]>)
    ensures
        r@ == encode_result(
            result.raw_result,
            result.compute_units_consumed,
            result.execution_time_us,
            result.return_data@,
            accounts_view(result.accounts@),
            logs@.map_values(|l: String| l@),
        ),
{
    let mut w = Writer::new();
    let (status, message): (i32, Option<Vec<u8>>) = match &result.raw_result {
        Ok(()) => (0i32, None),
        Err(err) => {
            let code = match program_error_try_from(err) {
                Some(pe) => program_error_to_i32(&pe),
                None => -1i32,
            };
            (code, Some(error_message(err)))
        },
    };
    w.write_i32(status);
    w.write_u64(result.compute_units_consumed);
    w.write_u64(result.execution_time_us);
    w.write_length_prefixed(result.return_data.as_slice());
    let ghost av = accounts_view(result.accounts@);
    w.write_u32(result.accounts.len() as u32);
    let ghost start = w@;
    let mut i: usize = 0;
    while i < result.accounts.len()
        invariant
            i <= result.accounts@.len(),
            av == accounts_view(result.accounts@),
            w@ == start + encode_account_list(av.take(i as int)),
        decreases result.accounts@.len() - i,
    {
        let a = &result.accounts[i];
        let ghost before = w@;
        w.write_pubkey(&a.address);
        w.write_pubkey(&a.owner);
        w.write_u64(a.lamports);
        w.write_length_prefixed(a.data.as_slice());
        w.write_bool(a.executable);
        proof {
            assert(av.take(i + 1).drop_last() =~= av.take(i as int));
            assert(av.take(i + 1).last() == a@);
            assert(w@ =~= before + encode_account(a@));
        }
        i = i + 1;
    }
    proof {
        assert(av.take(result.accounts@.len() as int) =~= av);
    }
    let ghost lv = logs@.map_values(|l: String| l@);
    w.write_u32(logs.len() as u32);
    let ghost start2 = w@;
    let mut j: usize = 0;
    while j < logs.len()
        invariant
            j <= logs@.len(),
            lv == logs@.map_values(|l: String| l@),
            w@ == start2 + encode_logs(lv.take(j as int)),
        decreases logs@.len() - j,
    {
        let ghost before = w@;
        w.write_length_prefixed(logs[j].as_str().as_bytes());
        proof {
            assert(lv.take(j + 1).drop_last() =~= lv.take(j as int));
            assert(lv.take(j + 1).last() == logs@[j as int]@);
        }
        j = j + 1;
    }
    proof {
        assert(lv.take(logs@.len() as int) =~= lv);
    }
    match &message {
        Some(m) => w.write_length_prefixed(m.as_slice()),
        None => w.write_u32(0),
    }
    proof {
        assert(status == result_status(result.raw_result));
    }
    w.into_boxed_slice()
}

} // verus!
