//! Segments: a block of bytes with its length kept beside it.
//!
//! A segment has two regions. The payload region holds the bytes. The
//! length region holds, in four little-endian bytes, how many of them are
//! valid. A write stores the new length first, resizes the payload region to
//! exactly that length, and copies the bytes in.

use crate::utils::le::{
    copy_range, le_bytes, le_value, lemma_le_bytes_len, lemma_le_value_bound,
    lemma_le_value_of_bytes, lemma_pow256_values, push_u32, read_u32,
};
use crate::utils::text::join;
use vstd::prelude::*;

verus! {

/// The length that a segment has when it is created.
pub const INIT_LENGTH: u32 = 4;

/// The number of bytes of a length region.
pub const LENGTH_REGION: usize = 4;

/// Whether every byte of `bytes` is zero.
pub open spec fn all_zero(bytes: Seq<u8>) -> bool {
    forall|i: int| 0 <= i < bytes.len() ==> bytes[i] == 0
}

/// Whether every byte of `bytes` is zero.
pub fn is_all_zero(bytes: &[u8]) -> (r: bool)
    ensures
        r == all_zero(bytes@),
{
    let total: usize = bytes.len();
    let mut i: usize = 0;
    while i < total
        invariant
            i <= total,
            total == bytes@.len(),
            forall|j: int| 0 <= j < i ==> bytes@[j] == 0,
        decreases total - i,
    {
        if bytes[i] != 0 {
            return false;
        }
        i = i + 1;
    }
    true
}

/// The four bytes that a length region holds for the length `len`.
pub fn length_bytes(len: u32) -> (region: Vec<u8>)
    ensures
        region@ == le_bytes(len as nat, 4),
        region@.len() == LENGTH_REGION,
{
    let mut region: Vec<u8> = Vec::new();
    push_u32(&mut region, len);
    proof {
        lemma_le_bytes_len(len as nat, 4);
        assert(region@ =~= le_bytes(len as nat, 4));
    }
    region
}

/// The length that a length region holds.
pub fn stored_length(region: &[u8]) -> (len: u32)
    requires
        region@.len() == LENGTH_REGION,
    ensures
        len == le_value(region@),
{
    proof {
        assert(region@.subrange(0, 4) =~= region@);
    }
    read_u32(region, 0)
}

/// The length of a segment whose length region is `region` when it is
/// opened, and whether the region is yet to be filled in. A region of
/// zeros belongs to a segment that was just created: its length is
/// `INIT_LENGTH`, which is then to be stored. Any other region holds the
/// length that an earlier holder stored.
pub fn init_length(region: &[u8]) -> (r: (u32, bool))
    requires
        region@.len() == LENGTH_REGION,
    ensures
        r.1 == all_zero(region@),
        r.0 == if all_zero(region@) {
            INIT_LENGTH as nat
        } else {
            le_value(region@)
        },
{
    if is_all_zero(region) {
        (INIT_LENGTH, true)
    } else {
        (stored_length(region), false)
    }
}

/// The length of `n` bytes as a segment stores it, or nothing where four
/// bytes cannot hold it.
pub fn checked_length(n: usize) -> (len: Option<u32>)
    ensures
        len == if n <= u32::MAX {
            Some(n as u32)
        } else {
            None
        },
{
    if n <= u32::MAX as usize {
        Some(n as u32)
    } else {
        None
    }
}

/// What a segment offers, wherever its two regions lie.
///
/// `contents` and `wf` are what a verified segment says of itself, as `Mmap`
/// does below. They carry a body so that a segment whose regions lie in
/// memory that is shared between processes can be a `Segment` too: such a
/// segment is reached through foreign calls, is not verified, and has no way
/// to state the two. For it `contents` is some function of the segment that
/// nothing here can read, and the clauses below are what its author answers
/// for: they hold for as long as no other holder writes in between.
pub trait Segment: Sized {
    /// The valid bytes of the payload region.
    open spec fn contents(&self) -> Seq<u8> {
        arbitrary::<spec_fn(Self) -> Seq<u8>>()(*self)
    }

    /// The length region holds the number of valid bytes.
    open spec fn wf(&self) -> bool {
        true
    }

    /// Opens the segment of that name, creating it where there is none.
    fn open(name: &str) -> (segment: Self)
        ensures
            segment.wf(),
    ;

    /// The valid bytes, whose number four bytes can hold.
    fn read(&self) -> (bytes: Vec<u8>)
        requires
            self.wf(),
        ensures
            bytes@ == self.contents(),
            bytes@.len() <= u32::MAX,
    ;

    /// Replaces the valid bytes by `bytes`.
    fn write(&mut self, bytes: &[u8])
        requires
            old(self).wf(),
            bytes@.len() <= u32::MAX,
        ensures
            final(self).wf(),
            final(self).contents() == bytes@,
    ;

    /// The number of valid bytes.
    fn get_length(&self) -> (len: u32)
        requires
            self.wf(),
        ensures
            len == self.contents().len(),
    ;
}

/// The first writer's bytes stay: writes `bytes` to a segment that holds
/// nothing but zeros, as a segment does that was just created, and leaves
/// any other segment as it is. Says whether it wrote.
pub fn write_first<S: Segment>(segment: &mut S, bytes: &[u8]) -> (written: bool)
    requires
        old(segment).wf(),
        bytes@.len() <= u32::MAX,
    ensures
        final(segment).wf(),
        written == all_zero(old(segment).contents()),
        final(segment).contents() == if all_zero(old(segment).contents()) {
            bytes@
        } else {
            old(segment).contents()
        },
{
    let current = segment.read();
    if is_all_zero(current.as_slice()) {
        segment.write(bytes);
        true
    } else {
        false
    }
}

/// A segment whose two regions lie in this process's own memory.
pub struct Mmap {
    name: String,
    length_region: Vec<u8>,
    payload: Vec<u8>,
}

impl Mmap {
    /// The name of the segment's payload region.
    pub closed spec fn name(&self) -> Seq<char> {
        self.name@
    }

    /// The name under which the payload region of the segment `name` is shared.
    pub fn mmap_name(name: &str) -> (full: String)
        ensures
            full@ == "/dk-rinha-2024-mmap-"@ + name@,
    {
        join("/dk-rinha-2024-mmap-", name)
    }

    /// The name under which the length region of the segment `name` is shared.
    pub fn mmap_length_name(name: &str) -> (full: String)
        ensures
            full@ == "/dk-rinha-2024-mmap-len-"@ + name@,
    {
        join("/dk-rinha-2024-mmap-len-", name)
    }

    /// A segment as it is when it is created: `INIT_LENGTH` bytes of zeros.
    pub fn new(name: &str) -> (segment: Mmap)
        ensures
            segment.wf(),
            segment.name() == "/dk-rinha-2024-mmap-"@ + name@,
            segment.contents().len() == INIT_LENGTH,
            all_zero(segment.contents()),
    {
        let zeros: Vec<u8> = vec![0u8, 0u8, 0u8, 0u8];
        let (length, fresh) = init_length(zeros.as_slice());
        assert(fresh);
        let length_region = length_bytes(length);
        let payload: Vec<u8> = vec![0u8, 0u8, 0u8, 0u8];
        proof {
            lemma_pow256_values();
            lemma_le_value_of_bytes(length as nat, 4);
        }
        Mmap { name: Mmap::mmap_name(name), length_region, payload }
    }

    /// Stores `len` in the length region and then makes the payload region
    /// exactly that long: bytes beyond `len` leave, and a longer region is
    /// filled up with zeros.
    pub fn set_length(&mut self, len: u32)
        requires
            old(self).wf(),
        ensures
            final(self).wf(),
            final(self).name() == old(self).name(),
            final(self).contents().len() == len,
            forall|i: int|
                0 <= i < len ==> #[trigger] final(self).contents()[i] == if i < old(
                    self,
                ).contents().len() {
                    old(self).contents()[i]
                } else {
                    0u8
                },
    {
        self.length_region = length_bytes(len);
        proof {
            lemma_pow256_values();
            lemma_le_value_of_bytes(len as nat, 4);
        }
        resize_zeroed(&mut self.payload, len as usize);
    }
}

/// Makes `region` exactly `target` bytes long: bytes beyond that leave, and
/// a longer region is filled up with zeros.
pub fn resize_zeroed(region: &mut Vec<u8>, target: usize)
    ensures
        final(region)@.len() == target,
        forall|i: int|
            0 <= i < target ==> #[trigger] final(region)@[i] == if i < old(region)@.len() {
                old(region)@[i]
            } else {
                0u8
            },
{
    let ghost before = region@;
    if region.len() > target {
        region.truncate(target);
    }
    while region.len() < target
        invariant
            region@.len() <= target,
            before.len() <= target ==> region@.len() >= before.len(),
            before.len() > target ==> region@.len() == target,
            forall|i: int|
                0 <= i < region@.len() ==> #[trigger] region@[i] == if i < before.len() {
                    before[i]
                } else {
                    0u8
                },
        decreases target - region@.len(),
    {
        region.push(0u8);
    }
}

impl Segment for Mmap {
    closed spec fn contents(&self) -> Seq<u8> {
        self.payload@
    }

    closed spec fn wf(&self) -> bool {
        &&& self.length_region@.len() == LENGTH_REGION
        &&& le_value(self.length_region@) == self.payload@.len()
    }

    fn open(name: &str) -> (segment: Mmap) {
        Mmap::new(name)
    }

    fn read(&self) -> (bytes: Vec<u8>) {
        proof {
            lemma_le_value_bound(self.length_region@);
            lemma_pow256_values();
        }
        copy_range(self.payload.as_slice(), 0, self.payload.len())
    }

    fn write(&mut self, bytes: &[u8]) {
        let len: u32 = bytes.len() as u32;
        self.set_length(len);
        let mut i: usize = 0;
        while i < bytes.len()
            invariant
                i <= bytes@.len(),
                bytes@.len() == len,
                self.wf(),
                self.payload@.len() == len,
                forall|j: int| 0 <= j < i ==> self.payload@[j] == bytes@[j],
            decreases bytes@.len() - i,
        {
            self.payload.set(i, bytes[i]);
            i = i + 1;
        }
        proof {
            assert(self.payload@ =~= bytes@);
        }
    }

    fn get_length(&self) -> (len: u32) {
        stored_length(self.length_region.as_slice())
    }
}

} // verus!
