//! The fixed-layout record that the kernel-side program emits for each completed call,
//! and its decoding.
use vstd::prelude::*;

verus! {

/// Size of one record: two 8-byte timestamps, a 4-byte process id and a 16-byte name.
pub const RECORD_SIZE: usize = 36;

/// Length of the process name field.
pub const COMM_LEN: usize = 16;

/// The order in which the bytes of a multi-byte field are laid out.
#[derive(Clone, Copy, Debug, PartialEq, Eq, Structural)]
pub enum ByteOrder {
    Little,
    Big,
}

/// One completed call: monotonic entry and exit times in nanoseconds, the calling
/// process and its NUL-padded name.
#[derive(Clone, Copy, Debug)]
pub struct BPFEvent {
    pub timestamp_start: u64,
    pub timestamp_end: u64,
    pub pid: u32,
    pub comm: [u8; 16],
}

/// Why a record could not be decoded.
#[derive(Clone, Copy, Debug, PartialEq, Eq, Structural)]
pub enum DecodeError {
    /// The record is not exactly `RECORD_SIZE` bytes long.
    InvalidSize { len: usize },
}

/// The value of bytes laid out lowest first.
pub open spec fn le_value(b: Seq<u8>) -> nat
    decreases b.len(),
{
    if b.len() == 0 {
        0
    } else {
        (le_value(b.drop_first()) * 256 + b[0]) as nat
    }
}

/// The value of bytes laid out highest first.
pub open spec fn be_value(b: Seq<u8>) -> nat
    decreases b.len(),
{
    if b.len() == 0 {
        0
    } else {
        (be_value(b.drop_last()) * 256 + b.last()) as nat
    }
}

/// The value of a field laid out in `order`.
pub open spec fn field_value(b: Seq<u8>, order: ByteOrder) -> nat {
    match order {
        ByteOrder::Little => le_value(b),
        ByteOrder::Big => be_value(b),
    }
}

/// 256 to the power `k`.
pub open spec fn pow256(k: nat) -> nat
    decreases k,
{
    if k == 0 {
        1
    } else {
        256 * pow256((k - 1) as nat)
    }
}

/// `e` is what the 36-byte record `data` holds when read in `order`.
pub open spec fn decodes_to(data: Seq<u8>, order: ByteOrder, e: BPFEvent) -> bool {
    &&& e.timestamp_start == field_value(data.subrange(0, 8), order)
    &&& e.timestamp_end == field_value(data.subrange(8, 16), order)
    &&& e.pid == field_value(data.subrange(16, 20), order)
    &&& e.comm@ == data.subrange(20, 36)
}

/// The value of `data[start..start + n]` read in `order`.
fn read_field(data: &[u8], start: usize, n: usize, order: ByteOrder) -> (r: u64)
    requires
        n <= 8,
        start + n <= data@.len(),
    ensures
        r == field_value(data@.subrange(start as int, start + n), order),
        r < pow256(n as nat),
{
    let ghost field = data@.subrange(start as int, start + n);
    let mut acc: u64 = 0;
    let ghost mut limit: nat = 1;
    let len = data.len();
    let mut k: usize = 0;
    proof {
        reveal_with_fuel(pow256, 9);
    }
    while k < n
        invariant
            n <= 8,
            start + n <= data@.len(),
            field == data@.subrange(start as int, start + n),
            len == data@.len(),
            k <= n,
            limit == pow256(k as nat),
            acc < limit,
            pow256(n as nat) <= 0x1_0000_0000_0000_0000,
            match order {
                ByteOrder::Little => acc == le_value(field.subrange(n - k, n as int)),
                ByteOrder::Big => acc == be_value(field.subrange(0, k as int)),
            },
        decreases n - k,
    {
        proof {
            lemma_pow256_monotone((k + 1) as nat, n as nat);
        }
        let byte: u8 = match order {
            ByteOrder::Little => data[start + n - 1 - k],
            ByteOrder::Big => data[start + k],
        };
        proof {
            assert((acc + 1) * 256 <= limit * 256) by (nonlinear_arith)
                requires
                    acc < limit,
            ;
        }
        let next: u64 = acc * 256 + byte as u64;
        proof {
            match order {
                ByteOrder::Little => {
                    let s = field.subrange(n - k - 1, n as int);
                    assert(s.drop_first() == field.subrange(n - k, n as int));
                    assert(s[0] == byte);
                },
                ByteOrder::Big => {
                    let s = field.subrange(0, k + 1);
                    assert(s.drop_last() == field.subrange(0, k as int));
                    assert(s.last() == byte);
                },
            }
            limit = limit * 256;
        }
        acc = next;
        k = k + 1;
    }
    proof {
        assert(field.subrange(0, n as int) == field);
        assert(field.subrange(n - k, n as int) == field);
    }
    acc
}

proof fn lemma_pow256_monotone(a: nat, b: nat)
    requires
        a <= b,
    ensures
        pow256(a) <= pow256(b),
    decreases b - a,
{
    if a < b {
        lemma_pow256_monotone(a, (b - 1) as nat);
    }
}

impl BPFEvent {
    /// Decodes a record whose multi-byte fields are laid out in `order`. Only a record of
    /// exactly `RECORD_SIZE` bytes decodes.
    pub fn parse_in(data: &[u8], order: ByteOrder) -> (r: Result<BPFEvent, DecodeError>)
        ensures
            r is Ok <==> data@.len() == RECORD_SIZE,
            r matches Ok(e) ==> decodes_to(data@, order, e),
            r matches Err(DecodeError::InvalidSize { len }) ==> len == data@.len(),
    {
        if data.len() != RECORD_SIZE {
            return Err(DecodeError::InvalidSize { len: data.len() });
        }
        proof {
            reveal_with_fuel(pow256, 5);
        }
        let timestamp_start = read_field(data, 0, 8, order);
        let timestamp_end = read_field(data, 8, 8, order);
        let pid = read_field(data, 16, 4, order) as u32;
        let mut comm: [u8; 16] = [0u8; 16];
        let mut k: usize = 0;
        while k < COMM_LEN
            invariant
                data@.len() == RECORD_SIZE,
                k <= COMM_LEN,
                comm@.len() == COMM_LEN,
                forall|j: int| 0 <= j < k ==> comm@[j] == data@[20 + j],
            decreases COMM_LEN - k,
        {
            comm[k] = data[20 + k];
            k = k + 1;
        }
        let e = BPFEvent { timestamp_start, timestamp_end, pid, comm };
        assert(e.comm@ == data@.subrange(20, 36));
        Ok(e)
    }

    /// Decodes a record laid out in the byte order of this machine. Only a record of
    /// exactly `RECORD_SIZE` bytes decodes.
    pub fn parse(data: &[u8]) -> (r: Result<BPFEvent, DecodeError>)
        ensures
            r is Ok <==> data@.len() == RECORD_SIZE,
            r matches Ok(e) ==> decodes_to(data@, ByteOrder::Little, e) || decodes_to(
                data@,
                ByteOrder::Big,
                e,
            ),
            r matches Err(DecodeError::InvalidSize { len }) ==> len == data@.len(),
    {
        BPFEvent::parse_in(data, native_byte_order())
    }

    /// The process name: the name field up to its first NUL byte.
    pub fn comm_name(&self) -> (r: Vec<u8>)
        ensures
            r@.len() <= COMM_LEN,
            r@ == self.comm@.subrange(0, r@.len() as int),
            forall|i: int| 0 <= i < r@.len() ==> r@[i] != 0,
            r@.len() < COMM_LEN ==> self.comm@[r@.len() as int] == 0,
    {
        let mut r: Vec<u8> = Vec::new();
        let mut k: usize = 0;
        while k < COMM_LEN
            invariant
                k <= COMM_LEN,
                self.comm@.len() == COMM_LEN,
                r@ == self.comm@.subrange(0, k as int),
                forall|i: int| 0 <= i < k ==> r@[i] != 0,
            decreases COMM_LEN - k,
        {
            if self.comm[k] == 0 {
                return r;
            }
            r.push(self.comm[k]);
            assert(r@ == self.comm@.subrange(0, k + 1));
            k = k + 1;
        }
        r
    }
}

/// Relies on u16::from_ne_bytes: the bytes are read in the byte order of the machine,
/// which is one of the two.
#[verifier::external_body]
fn u16_from_native_bytes(bytes: [u8; 2]) -> (r: u16)
    ensures
        r == le_value(bytes@) || r == be_value(bytes@),
{
    u16::from_ne_bytes(bytes)
}

/// The byte order of this machine.
fn native_byte_order() -> ByteOrder {
    if u16_from_native_bytes([1u8, 0u8]) == 1 {
        ByteOrder::Little
    } else {
        ByteOrder::Big
    }
}

} // verus!
