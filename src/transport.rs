//! The sample transport: a fixed-capacity ring buffer of samples between one
//! writer and one reader.
//!
//! Writing never blocks. `write` drops the samples that do not fit, so
//! unread samples are never lost; a transport used from one thread can
//! instead `write_overwrite`, which evicts the oldest unread samples. Split
//! into a [`SampleWriter`] and a [`SampleReader`], the two ends can live on
//! different threads without a lock; the writer then drops what does not fit,
//! since only the reader moves the read position, and the reader only ever
//! learns that more samples were appended after the ones it has seen.
use ringbuf::{HeapConsumer, HeapProducer, HeapRb, Rb};
use crate::fifo_queue::keep_last;
use vstd::prelude::*;

verus! {

/// A ring buffer of `ringbuf`, owned whole.
#[verifier::external_body]
pub struct RingBuffer(HeapRb<u32>);

/// The producer end of a `ringbuf` ring buffer.
#[verifier::external_body]
pub struct RingProducer(HeapProducer<u32>);

/// The consumer end of a `ringbuf` ring buffer.
#[verifier::external_body]
pub struct RingConsumer(HeapConsumer<u32>);

/// The items stored in a ring buffer, oldest first.
pub uninterp spec fn rb_items(rb: RingBuffer) -> Seq<u32>;

/// The number of slots a ring buffer was made with.
pub uninterp spec fn rb_capacity(rb: RingBuffer) -> nat;

/// The items written through a producer end since the ring buffer was split,
/// oldest first.
pub uninterp spec fn producer_written(p: RingProducer) -> Seq<u32>;

/// The items that the consumer end has seen to be readable, oldest first.
/// A producer on another thread can only have appended items after them.
pub uninterp spec fn consumer_items(c: RingConsumer) -> Seq<u32>;

/// Relies on `HeapRb::new`: an empty ring buffer with `capacity` slots; it
/// panics when `capacity` is zero.
#[verifier::external_body]
fn rb_new(capacity: usize) -> (rb: RingBuffer)
    requires
        capacity > 0,
    ensures
        rb_items(rb) == Seq::<u32>::empty(),
        rb_capacity(rb) == capacity,
{
    RingBuffer(HeapRb::new(capacity))
}

/// Relies on `Rb::len`: the number of stored items, never more than the
/// capacity.
#[verifier::external_body]
fn rb_len(rb: &RingBuffer) -> (n: usize)
    ensures
        n == rb_items(*rb).len() && n <= rb_capacity(*rb),
{
    rb.0.len()
}

/// Relies on `Rb::free_len`: the number of free slots.
#[verifier::external_body]
fn rb_free_len(rb: &RingBuffer) -> (n: usize)
    ensures
        n == rb_capacity(*rb) - rb_items(*rb).len(),
{
    rb.0.free_len()
}

/// Relies on `Rb::push_slice`: appends `elems` after the stored items; it
/// panics when they outnumber the free slots.
#[verifier::external_body]
fn rb_push_slice(rb: &mut RingBuffer, elems: &[u32])
    requires
        elems@.len() <= rb_capacity(*old(rb)) - rb_items(*old(rb)).len(),
    ensures
        rb_items(*final(rb)) == rb_items(*old(rb)) + elems@,
        rb_capacity(*final(rb)) == rb_capacity(*old(rb)),
{
    rb.0.push_slice(elems)
}

/// Relies on `Rb::as_slices`: the stored items, oldest first, as the part
/// that runs to the end of the storage and the part that wrapped to its start.
#[verifier::external_body]
fn rb_as_slices(rb: &RingBuffer) -> (r: (&[u32], &[u32]))
    ensures
        r.0@ + r.1@ == rb_items(*rb),
{
    rb.0.as_slices()
}

/// Relies on `Rb::skip`: removes the `count` oldest items; it panics when
/// fewer are stored.
#[verifier::external_body]
fn rb_skip(rb: &mut RingBuffer, count: usize)
    requires
        count <= rb_items(*old(rb)).len(),
    ensures
        rb_items(*final(rb)) == rb_items(*old(rb)).skip(count as int),
        rb_capacity(*final(rb)) == rb_capacity(*old(rb)),
{
    rb.0.skip(count);
}

/// Relies on `SharedRb::split`: the producer and the consumer end of the same
/// ring buffer, which keeps the items it held.
#[verifier::external_body]
fn rb_split(rb: RingBuffer) -> (r: (RingProducer, RingConsumer))
    ensures
        producer_written(r.0) == Seq::<u32>::empty(),
        consumer_items(r.1) == rb_items(rb),
{
    let (p, c) = rb.0.split();
    (RingProducer(p), RingConsumer(c))
}

/// Relies on `Producer::push_slice`: copies as many leading items of `elems`
/// as there are free slots, in order and without blocking, and returns how
/// many.
#[verifier::external_body]
fn producer_push_slice(p: &mut RingProducer, elems: &[u32]) -> (n: usize)
    ensures
        n <= elems@.len(),
        producer_written(*final(p)) == producer_written(*old(p)) + elems@.take(n as int),
{
    p.0.push_slice(elems)
}

/// Relies on `Consumer::len`: the number of items readable at the moment of
/// the call; a producer can only have appended items since the last look.
#[verifier::external_body]
fn consumer_len(c: &mut RingConsumer) -> (n: usize)
    ensures
        consumer_items(*old(c)).is_prefix_of(consumer_items(*final(c))),
        n == consumer_items(*final(c)).len(),
{
    c.0.len()
}

/// Relies on `Consumer::as_slices`: the readable items, oldest first, in two
/// parts; those seen before are still at the front.
#[verifier::external_body]
fn consumer_as_slices(c: &RingConsumer) -> (r: (&[u32], &[u32]))
    ensures
        consumer_items(*c).is_prefix_of(r.0@ + r.1@),
{
    c.0.as_slices()
}

/// Relies on `Consumer::skip`: removes `min(count, len)` of the oldest items,
/// which is `count` when no more than the items seen are asked for.
#[verifier::external_body]
fn consumer_skip(c: &mut RingConsumer, count: usize)
    requires
        count <= consumer_items(*old(c)).len(),
    ensures
        consumer_items(*old(c)).skip(count as int).is_prefix_of(consumer_items(*final(c))),
{
    c.0.skip(count);
}

/// The first `len` items of `older` followed by `newer`.
pub fn join_prefix(older: &[u32], newer: &[u32], len: usize) -> (r: Vec<u32>)
    requires
        len <= older@.len() + newer@.len(),
    ensures
        r@ == (older@ + newer@).take(len as int),
{
    let ghost both = older@ + newer@;
    let mut r: Vec<u32> = Vec::with_capacity(len);
    let mut i: usize = 0;
    while i < len && i < older.len()
        invariant
            i <= len,
            i <= older@.len(),
            len <= older@.len() + newer@.len(),
            both == older@ + newer@,
            r@ == both.take(i as int),
        decreases len - i,
    {
        r.push(older[i]);
        i = i + 1;
        assert(r@ =~= both.take(i as int));
    }
    let mut j: usize = 0;
    while i < len
        invariant
            i <= len,
            len <= older@.len() + newer@.len(),
            i < len ==> i == older@.len() + j,
            i == len || i == older@.len() + j,
            j <= newer@.len(),
            both == older@ + newer@,
            r@ == both.take(i as int),
        decreases len - i,
    {
        r.push(newer[j]);
        i = i + 1;
        j = j + 1;
        assert(r@ =~= both.take(i as int));
    }
    r
}

/// How many of `offered` samples a transport holding `held` of `capacity`
/// slots takes: all of them, or as many as there are free slots.
pub open spec fn accepted(held: nat, offered: nat, capacity: nat) -> int {
    if offered + held <= capacity {
        offered as int
    } else {
        capacity - held
    }
}

/// What a transport stores after `samples` were written to it while it held
/// `items`.
pub open spec fn stored_after_write(items: Seq<u32>, samples: Seq<u32>, capacity: nat) -> Seq<
    u32,
> {
    items + samples.take(accepted(items.len(), samples.len(), capacity))
}

/// Samples written to an empty transport with room for them all are stored
/// whole, in order; reading and consuming them a part at a time gives them
/// back in the same order.
pub proof fn lemma_write_read_round_trip(samples: Seq<u32>, capacity: nat, consumed: int)
    requires
        samples.len() <= capacity,
        0 <= consumed <= samples.len(),
    ensures
        stored_after_write(Seq::<u32>::empty(), samples, capacity) == samples,
        stored_after_write(Seq::<u32>::empty(), samples, capacity).skip(consumed) == samples.skip(
            consumed,
        ),
        stored_after_write(Seq::<u32>::empty(), samples, capacity).take(consumed) + samples.skip(
            consumed,
        ) == samples,
{
    assert(stored_after_write(Seq::<u32>::empty(), samples, capacity) =~= samples);
    assert(samples.take(consumed) + samples.skip(consumed) =~= samples);
}

/// The reading side of a transport, as the window scheduler uses it.
pub trait SampleSource {
    /// The samples known to be readable, oldest first.
    spec fn readable(&self) -> Seq<u32>;

    /// Whether no writer can add samples behind the reader's back: then the
    /// readable samples change only by the reader's own calls.
    spec fn is_exclusive(&self) -> bool;

    /// The number of samples readable now; more may have arrived since the
    /// last look, after those already seen.
    fn available_len(&mut self) -> (n: usize)
        ensures
            old(self).readable().is_prefix_of(final(self).readable()),
            n == final(self).readable().len(),
            final(self).is_exclusive() == old(self).is_exclusive(),
            old(self).is_exclusive() ==> final(self).readable() == old(self).readable(),
    ;

    /// The readable samples, oldest first, in at most two contiguous parts.
    fn peek_contiguous(&self) -> (r: (&[u32], &[u32]))
        ensures
            self.readable().is_prefix_of(r.0@ + r.1@),
            self.is_exclusive() ==> r.0@ + r.1@ == self.readable(),
    ;

    /// Consumes the `n` oldest samples, which frees their slots for the
    /// writer.
    fn advance_read(&mut self, n: usize)
        requires
            n <= old(self).readable().len(),
        ensures
            old(self).readable().skip(n as int).is_prefix_of(final(self).readable()),
            final(self).is_exclusive() == old(self).is_exclusive(),
            old(self).is_exclusive() ==> final(self).readable() == old(self).readable().skip(
                n as int,
            ),
    ;
}

/// Both ends of a transport in one value, for use from a single thread.
pub struct SampleTransport {
    rb: RingBuffer,
}

impl SampleTransport {
    /// The stored samples, oldest first.
    pub closed spec fn items(&self) -> Seq<u32> {
        rb_items(self.rb)
    }

    /// The fixed number of slots.
    pub closed spec fn capacity(&self) -> nat {
        rb_capacity(self.rb)
    }

    /// An empty transport with room for `capacity` samples.
    pub fn new(capacity: usize) -> (t: SampleTransport)
        requires
            capacity > 0,
        ensures
            t.items() == Seq::<u32>::empty(),
            t.capacity() == capacity,
    {
        SampleTransport { rb: rb_new(capacity) }
    }

    /// Copies as many leading samples as fit and returns how many; the rest
    /// are dropped.
    pub fn write(&mut self, samples: &[u32]) -> (n: usize)
        ensures
            n == accepted(old(self).items().len(), samples@.len(), old(self).capacity()),
            final(self).items() == stored_after_write(
                old(self).items(),
                samples@,
                old(self).capacity(),
            ),
            final(self).capacity() == old(self).capacity(),
    {
        let free = rb_free_len(&self.rb);
        let n = if samples.len() <= free {
            samples.len()
        } else {
            free
        };
        let part = &samples[0..n];
        assert(part@ =~= samples@.take(n as int));
        rb_push_slice(&mut self.rb, part);
        n
    }

    /// Stores every sample, evicting the oldest unread ones to make room:
    /// afterwards the transport holds the newest `capacity` samples.
    pub fn write_overwrite(&mut self, samples: &[u32])
        ensures
            final(self).items() == keep_last(old(self).items() + samples@, old(self).capacity()),
            final(self).capacity() == old(self).capacity(),
    {
        let ghost all = self.items() + samples@;
        let len = rb_len(&self.rb);
        let free = rb_free_len(&self.rb);
        let m = samples.len();
        if m <= free {
            rb_push_slice(&mut self.rb, samples);
            assert(samples@.take(m as int) =~= samples@);
        } else if m - free < len {
            rb_skip(&mut self.rb, m - free);
            rb_push_slice(&mut self.rb, samples);
            assert(self.items() =~= all.skip(all.len() - self.capacity()));
        } else {
            let capacity = len + free;
            rb_skip(&mut self.rb, len);
            let newest = &samples[m - capacity..m];
            rb_push_slice(&mut self.rb, newest);
            assert(self.items() =~= all.skip(all.len() - self.capacity()));
        }
    }

    /// The number of stored samples.
    pub fn available_len(&self) -> (n: usize)
        ensures
            n == self.items().len(),
            n <= self.capacity(),
    {
        rb_len(&self.rb)
    }

    /// The stored samples, oldest first, in at most two contiguous parts.
    pub fn peek_contiguous(&self) -> (r: (&[u32], &[u32]))
        ensures
            r.0@ + r.1@ == self.items(),
    {
        rb_as_slices(&self.rb)
    }

    /// Consumes the `n` oldest samples.
    pub fn advance_read(&mut self, n: usize)
        requires
            n <= old(self).items().len(),
        ensures
            final(self).items() == old(self).items().skip(n as int),
            final(self).capacity() == old(self).capacity(),
    {
        rb_skip(&mut self.rb, n)
    }

    /// Parts the transport into its writing end and its reading end, which
    /// may then be used from two threads.
    pub fn split(self) -> (r: (SampleWriter, SampleReader))
        ensures
            r.0.written() == Seq::<u32>::empty(),
            r.1.readable() == self.items(),
    {
        let (p, c) = rb_split(self.rb);
        (SampleWriter { producer: p }, SampleReader { consumer: c })
    }
}

impl SampleSource for SampleTransport {
    open spec fn readable(&self) -> Seq<u32> {
        self.items()
    }

    /// Both ends are held here, so nothing is written during a read.
    open spec fn is_exclusive(&self) -> bool {
        true
    }

    fn available_len(&mut self) -> (n: usize) {
        SampleTransport::available_len(&*self)
    }

    fn peek_contiguous(&self) -> (r: (&[u32], &[u32])) {
        SampleTransport::peek_contiguous(self)
    }

    fn advance_read(&mut self, n: usize) {
        SampleTransport::advance_read(self, n)
    }
}

/// The writing end of a split transport.
pub struct SampleWriter {
    producer: RingProducer,
}

impl SampleWriter {
    /// Every sample written through this end, oldest first.
    pub closed spec fn written(&self) -> Seq<u32> {
        producer_written(self.producer)
    }

    /// Copies as many leading samples as there are free slots and returns
    /// how many; the rest are dropped. Never blocks. How many fit depends on
    /// how far the reader, possibly on another thread, has read.
    pub fn write(&mut self, samples: &[u32]) -> (n: usize)
        ensures
            n <= samples@.len(),
            final(self).written() == old(self).written() + samples@.take(n as int),
    {
        producer_push_slice(&mut self.producer, samples)
    }
}

/// The reading end of a split transport.
pub struct SampleReader {
    consumer: RingConsumer,
}

impl SampleSource for SampleReader {
    closed spec fn readable(&self) -> Seq<u32> {
        consumer_items(self.consumer)
    }

    /// The writer may be on another thread.
    open spec fn is_exclusive(&self) -> bool {
        false
    }

    fn available_len(&mut self) -> (n: usize) {
        consumer_len(&mut self.consumer)
    }

    fn peek_contiguous(&self) -> (r: (&[u32], &[u32])) {
        consumer_as_slices(&self.consumer)
    }

    fn advance_read(&mut self, n: usize) {
        consumer_skip(&mut self.consumer, n)
    }
}

} // verus!
