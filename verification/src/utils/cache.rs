//! The process-local cache: keys mapped to segments.
//!
//! The table holds at most one segment per key. The bytes that count are
//! those of the segment; the table only remembers which segments this
//! process has opened.

use crate::client::wire::{dec_client, enc_client, storable};
use crate::client::Client;
use crate::utils::mmap::{all_zero, write_first, Segment};
use crate::utils::text::{join, starts_with};
use vstd::prelude::*;
use vstd::string::StringSliceAdditionalSpecFns;

verus! {

/// One opened segment and the key that it was opened for.
pub struct Entry<S> {
    key: String,
    segment: S,
}

/// The segments that this process has opened, by key.
pub struct Cache<S: Segment> {
    inner: Vec<Entry<S>>,
}

impl<S: Segment> Cache<S> {
    /// Every segment is well-formed, and no key stands twice.
    pub closed spec fn wf(&self) -> bool {
        &&& forall|i: int| 0 <= i < self.inner@.len() ==> (#[trigger] self.inner@[i]).segment.wf()
        &&& forall|i: int, j: int|
            0 <= i < j < self.inner@.len() ==> (#[trigger] self.inner@[i]).key@ != (
            #[trigger] self.inner@[j]).key@
    }

    /// Whether this process has opened the segment of `key`.
    pub closed spec fn is_attached(&self, key: Seq<char>) -> bool {
        exists|i: int| 0 <= i < self.inner@.len() && (#[trigger] self.inner@[i]).key@ == key
    }

    /// The valid bytes of the segment of `key`.
    pub closed spec fn bytes_of(&self, key: Seq<char>) -> Seq<u8> {
        let i = choose|i: int| 0 <= i < self.inner@.len() && (#[trigger] self.inner@[i]).key@ == key;
        self.inner@[i].segment.contents()
    }

    /// Every key but `key` is attached as it was in `before`, with the
    /// bytes that it had there.
    pub open spec fn same_elsewhere(&self, before: &Self, key: Seq<char>) -> bool {
        forall|other: Seq<char>|
            other != key ==> (#[trigger] self.is_attached(other)) == before.is_attached(other) && (
            before.is_attached(other) ==> self.bytes_of(other) == before.bytes_of(other))
    }

    /// Every key is attached as it was in `before`, with the bytes that it
    /// had there.
    pub open spec fn same_as(&self, before: &Self) -> bool {
        forall|other: Seq<char>|
            (#[trigger] self.is_attached(other)) == before.is_attached(other) && (
            before.is_attached(other) ==> self.bytes_of(other) == before.bytes_of(other))
    }

    proof fn lemma_slot(&self, i: int)
        requires
            self.wf(),
            0 <= i < self.inner@.len(),
        ensures
            self.is_attached(self.inner@[i].key@),
            self.bytes_of(self.inner@[i].key@) == self.inner@[i].segment.contents(),
    {
        let key = self.inner@[i].key@;
        let chosen = choose|j: int|
            0 <= j < self.inner@.len() && (#[trigger] self.inner@[j]).key@ == key;
        assert(chosen == i) by {
            if chosen < i {
                assert(self.inner@[chosen].key@ != self.inner@[i].key@);
            } else if i < chosen {
                assert(self.inner@[i].key@ != self.inner@[chosen].key@);
            }
        }
    }

    /// A table in which no segment is opened.
    pub fn new() -> (cache: Self)
        ensures
            cache.wf(),
            forall|key: Seq<char>| !cache.is_attached(key),
    {
        Cache { inner: Vec::new() }
    }

    fn find(&self, key: &str) -> (slot: Option<usize>)
        requires
            self.wf(),
        ensures
            match slot {
                Some(i) => i < self.inner@.len() && self.inner@[i as int].key@ == key@,
                None => !self.is_attached(key@),
            },
    {
        let wanted = String::from_str(key);
        let mut i: usize = 0;
        while i < self.inner.len()
            invariant
                i <= self.inner@.len(),
                wanted@ == key@,
                forall|j: int| 0 <= j < i ==> (#[trigger] self.inner@[j]).key@ != key@,
            decreases self.inner@.len() - i,
        {
            if self.inner[i].key == wanted {
                return Some(i);
            }
            i = i + 1;
        }
        None
    }

    /// The slot of `key`, after its segment has been opened where it was
    /// not yet.
    fn attach(&mut self, key: &str) -> (slot: usize)
        requires
            old(self).wf(),
        ensures
            final(self).wf(),
            slot < final(self).inner@.len(),
            final(self).inner@[slot as int].key@ == key@,
            final(self).same_elsewhere(old(self), key@),
            old(self).is_attached(key@) ==> *final(self) == *old(self),
    {
        match self.find(key) {
            Some(slot) => slot,
            None => {
                let name = join("cache-", key);
                let segment = S::open(name.as_str());
                let ghost before = self.inner@;
                self.inner.push(Entry { key: String::from_str(key), segment });
                proof {
                    let slot = before.len() as int;
                    assert forall|other: Seq<char>| other != key@ implies (
                    #[trigger] self.is_attached(other)) == old(self).is_attached(other) && (old(
                        self,
                    ).is_attached(other) ==> self.bytes_of(other) == old(self).bytes_of(
                        other,
                    )) by {
                        if old(self).is_attached(other) {
                            let i = choose|i: int|
                                0 <= i < before.len() && (#[trigger] before[i]).key@ == other;
                            assert(self.inner@[i] == before[i]);
                            old(self).lemma_slot(i);
                            self.lemma_slot(i);
                        }
                        if self.is_attached(other) {
                            let i = choose|i: int|
                                0 <= i < self.inner@.len() && (#[trigger] self.inner@[i]).key@
                                    == other;
                            assert(i != slot);
                            assert(before[i] == self.inner@[i]);
                        }
                    }
                }
                self.inner.len() - 1
            },
        }
    }

    /// Opens the segment of `key` where it was not yet open. Where `bytes`
    /// are given and the segment holds nothing but zeros, `bytes` are
    /// written: the first writer's bytes stay.
    pub fn init(&mut self, key: &str, bytes: Option<&[u8]>)
        requires
            old(self).wf(),
            bytes matches Some(b) ==> b@.len() <= u32::MAX,
        ensures
            final(self).wf(),
            final(self).is_attached(key@),
            final(self).same_elsewhere(old(self), key@),
            old(self).is_attached(key@) ==> final(self).bytes_of(key@) == if bytes is Some
                && all_zero(old(self).bytes_of(key@)) {
                bytes.unwrap()@
            } else {
                old(self).bytes_of(key@)
            },
            !old(self).is_attached(key@) && bytes is Some ==> final(self).bytes_of(key@)
                == bytes.unwrap()@ || !all_zero(final(self).bytes_of(key@)),
    {
        let slot = self.attach(key);
        proof {
            self.lemma_slot(slot as int);
            if old(self).is_attached(key@) {
                assert(self.bytes_of(key@) == old(self).bytes_of(key@));
            }
        }
        if let Some(b) = bytes {
            self.put_first(slot, b);
        }
    }

    /// Where only the segment in `slot` differs between `before` and
    /// `self`, every other key is attached as it was, with its bytes.
    proof fn lemma_one_slot_changed(&self, before: &Self, slot: int)
        requires
            before.wf(),
            0 <= slot < before.inner@.len(),
            self.inner@.len() == before.inner@.len(),
            self.inner@[slot].key == before.inner@[slot].key,
            self.inner@[slot].segment.wf(),
            forall|i: int|
                0 <= i < before.inner@.len() && i != slot ==> self.inner@[i] == before.inner@[i],
        ensures
            self.wf(),
            self.is_attached(before.inner@[slot].key@),
            self.bytes_of(before.inner@[slot].key@) == self.inner@[slot].segment.contents(),
            self.same_elsewhere(before, before.inner@[slot].key@),
    {
        let key = before.inner@[slot].key@;
        assert forall|i: int| 0 <= i < self.inner@.len() implies (#[trigger] self.inner@[i]).key@
            == before.inner@[i].key@ by {}
        assert(self.wf()) by {
            assert forall|i: int| 0 <= i < self.inner@.len() implies (
            #[trigger] self.inner@[i]).segment.wf() by {
                if i != slot {
                    assert(self.inner@[i] == before.inner@[i]);
                }
            }
            assert forall|i: int, j: int| 0 <= i < j < self.inner@.len() implies (
            #[trigger] self.inner@[i]).key@ != (#[trigger] self.inner@[j]).key@ by {
                assert(before.inner@[i].key@ != before.inner@[j].key@);
            }
        }
        self.lemma_slot(slot);
        assert forall|other: Seq<char>| other != key implies (#[trigger] self.is_attached(
            other,
        )) == before.is_attached(other) && (before.is_attached(other) ==> self.bytes_of(other)
            == before.bytes_of(other)) by {
            if before.is_attached(other) {
                let i = choose|i: int|
                    0 <= i < before.inner@.len() && (#[trigger] before.inner@[i]).key@ == other;
                assert(self.inner@[i].key@ == other);
                before.lemma_slot(i);
                self.lemma_slot(i);
            }
            if self.is_attached(other) {
                let i = choose|i: int|
                    0 <= i < self.inner@.len() && (#[trigger] self.inner@[i]).key@ == other;
                assert(before.inner@[i].key@ == other);
            }
        }
    }

    /// Replaces the bytes of the segment in `slot`.
    fn put(&mut self, slot: usize, bytes: &[u8])
        requires
            old(self).wf(),
            slot < old(self).inner@.len(),
            bytes@.len() <= u32::MAX,
        ensures
            final(self).wf(),
            final(self).inner@.len() == old(self).inner@.len(),
            final(self).inner@[slot as int].key@ == old(self).inner@[slot as int].key@,
            final(self).bytes_of(old(self).inner@[slot as int].key@) == bytes@,
            final(self).is_attached(old(self).inner@[slot as int].key@),
            final(self).same_elsewhere(old(self), old(self).inner@[slot as int].key@),
    {
        let entry = &mut self.inner[slot];
        entry.segment.write(bytes);
        proof {
            self.lemma_one_slot_changed(old(self), slot as int);
        }
    }

    /// Writes `bytes` to the segment in `slot` where it holds nothing but
    /// zeros, and leaves it as it is where it holds anything else.
    fn put_first(&mut self, slot: usize, bytes: &[u8])
        requires
            old(self).wf(),
            slot < old(self).inner@.len(),
            bytes@.len() <= u32::MAX,
        ensures
            final(self).wf(),
            final(self).inner@.len() == old(self).inner@.len(),
            final(self).inner@[slot as int].key@ == old(self).inner@[slot as int].key@,
            final(self).bytes_of(old(self).inner@[slot as int].key@) == if all_zero(
                old(self).bytes_of(old(self).inner@[slot as int].key@),
            ) {
                bytes@
            } else {
                old(self).bytes_of(old(self).inner@[slot as int].key@)
            },
            final(self).is_attached(old(self).inner@[slot as int].key@),
            final(self).same_elsewhere(old(self), old(self).inner@[slot as int].key@),
    {
        proof {
            self.lemma_slot(slot as int);
        }
        let entry = &mut self.inner[slot];
        let _ = write_first(&mut entry.segment, bytes);
        proof {
            self.lemma_one_slot_changed(old(self), slot as int);
        }
    }

    /// The bytes of the segment of `key`, which is opened where it was not
    /// yet.
    pub fn read(&mut self, key: &str) -> (bytes: Vec<u8>)
        requires
            old(self).wf(),
        ensures
            final(self).wf(),
            final(self).is_attached(key@),
            bytes@ == final(self).bytes_of(key@),
            bytes@.len() <= u32::MAX,
            final(self).same_elsewhere(old(self), key@),
            old(self).is_attached(key@) ==> bytes@ == old(self).bytes_of(key@),
    {
        let slot = self.attach(key);
        proof {
            self.lemma_slot(slot as int);
        }
        self.inner[slot].segment.read()
    }

    /// The bytes of the segment of `key` where this process has opened it,
    /// and nothing where it has not. Nothing is opened.
    pub fn peek(&self, key: &str) -> (bytes: Option<Vec<u8>>)
        requires
            self.wf(),
        ensures
            match bytes {
                Some(b) => self.is_attached(key@) && b@ == self.bytes_of(key@) && b@.len()
                    <= u32::MAX,
                None => !self.is_attached(key@),
            },
    {
        match self.find(key) {
            Some(slot) => {
                proof {
                    self.lemma_slot(slot as int);
                }
                Some(self.inner[slot].segment.read())
            },
            None => None,
        }
    }

    /// Replaces the bytes of the segment of `key`, which is opened where it
    /// was not yet, and hands back the bytes that it held.
    pub fn write(&mut self, key: &str, bytes: &[u8]) -> (previous: Vec<u8>)
        requires
            old(self).wf(),
            bytes@.len() <= u32::MAX,
        ensures
            final(self).wf(),
            final(self).is_attached(key@),
            final(self).bytes_of(key@) == bytes@,
            final(self).same_elsewhere(old(self), key@),
            old(self).is_attached(key@) ==> previous@ == old(self).bytes_of(key@),
            previous@.len() <= u32::MAX,
    {
        let slot = self.attach(key);
        let ghost middle = *self;
        proof {
            self.lemma_slot(slot as int);
        }
        let previous = self.inner[slot].segment.read();
        self.put(slot, bytes);
        proof {
            assert forall|other: Seq<char>| other != key@ implies (#[trigger] self.is_attached(
                other,
            )) == old(self).is_attached(other) && (old(self).is_attached(other)
                ==> self.bytes_of(other) == old(self).bytes_of(other)) by {
                assert(middle.is_attached(other) == old(self).is_attached(other));
            }
        }
        previous
    }

    /// The client that is kept under `key`, or nothing where the segment
    /// holds no client. The segment is opened where it was not yet.
    pub fn get(&mut self, key: &str) -> (client: Option<Client>)
        requires
            old(self).wf(),
        ensures
            final(self).wf(),
            final(self).is_attached(key@),
            final(self).same_elsewhere(old(self), key@),
            old(self).is_attached(key@) ==> final(self).bytes_of(key@) == old(self).bytes_of(
                key@,
            ),
            match dec_client(final(self).bytes_of(key@)) {
                Some(x) => client matches Some(c) && c@ == x,
                None => client is None,
            },
    {
        let bytes = self.read(key);
        Client::decode(bytes.as_slice())
    }

    /// Keeps `value` under `key`, and hands back the client that was kept
    /// there, or nothing where the segment held none.
    pub fn insert(&mut self, key: &str, value: &Client) -> (previous: Option<Client>)
        requires
            old(self).wf(),
            storable(value@),
        ensures
            final(self).wf(),
            final(self).is_attached(key@),
            final(self).bytes_of(key@) == enc_client(value@),
            final(self).same_elsewhere(old(self), key@),
            old(self).is_attached(key@) ==> match dec_client(old(self).bytes_of(key@)) {
                Some(x) => previous matches Some(c) && c@ == x,
                None => previous is None,
            },
    {
        let value_bytes = value.encode();
        let before = self.write(key, value_bytes.as_slice());
        Client::decode(before.as_slice())
    }
}

/// Whether a file of the shared-memory directory is left over from an
/// earlier run of the service: a segment or a lock that carries the
/// service's name. Such files are removed before the first segment is opened.
pub fn is_stale_artifact(file_name: &str) -> (stale: bool)
    ensures
        stale == ("dk-rinha".spec_bytes().is_prefix_of(file_name.spec_bytes())
            || "sem.dk-rinha".spec_bytes().is_prefix_of(file_name.spec_bytes())),
{
    starts_with(file_name, "dk-rinha") || starts_with(file_name, "sem.dk-rinha")
}

} // verus!
