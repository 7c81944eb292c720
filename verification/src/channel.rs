//! The data-plane carrier between nodes.
//!
//! A channel holds one of two interchangeable forms: a handle onto a
//! columnar batch engine, or a lazy record stream — an optional asynchronous
//! producer plus a queue of already-produced records. Both the batch handle
//! and the producer are opaque to this crate; a driver polls the producer
//! and drains the queue, while everything the queue's contents go through is
//! verified here.

use vstd::prelude::*;

use crate::ast::{Object, PlanKind, PlanKindV, PlanType};
use crate::object::{layers_view, LayerV, LazyObject};

verus! {

/// Mathematical view of a stream form.
pub struct StreamV {
    pub has_producer: bool,
    pub queue: Seq<Seq<LayerV>>,
}

/// The in-memory stream form: an optional producer `P` of records and a
/// queue of records already produced. Polling yields the producer's records
/// first; the queue is fed by explicit `extend_one` calls.
pub struct MemoryStream<P, F> {
    producer: Option<P>,
    queue: Vec<LazyObject<F>>,
}

/// The views of a record queue.
pub open spec fn queue_view<F>(q: Seq<LazyObject<F>>) -> Seq<Seq<LayerV>> {
    q.map_values(|o: LazyObject<F>| o@)
}

impl<P, F> View for MemoryStream<P, F> {
    type V = StreamV;

    closed spec fn view(&self) -> StreamV {
        StreamV { has_producer: self.producer is Some, queue: queue_view(self.queue@) }
    }
}

impl<P, F> MemoryStream<P, F> {
    /// An empty stream.
    pub fn empty() -> (r: MemoryStream<P, F>)
        ensures
            !r@.has_producer,
            r@.queue == Seq::<Seq<LayerV>>::empty(),
    {
        let r = MemoryStream { producer: None, queue: Vec::new() };
        proof {
            assert(r@.queue =~= Seq::<Seq<LayerV>>::empty());
        }
        r
    }

    /// A stream fed by a producer.
    pub fn from_stream(producer: P) -> (r: MemoryStream<P, F>)
        ensures
            r@.has_producer,
            r@.queue == Seq::<Seq<LayerV>>::empty(),
    {
        let r = MemoryStream { producer: Some(producer), queue: Vec::new() };
        proof {
            assert(r@.queue =~= Seq::<Seq<LayerV>>::empty());
        }
        r
    }

    /// A stream holding one queued record.
    pub fn from_unit(item: LazyObject<F>) -> (r: MemoryStream<P, F>)
        ensures
            !r@.has_producer,
            r@.queue == seq![item@],
    {
        let mut queue: Vec<LazyObject<F>> = Vec::new();
        queue.push(item);
        let r = MemoryStream { producer: None, queue };
        proof {
            assert(r@.queue =~= seq![item@]);
        }
        r
    }

    /// A stream holding the given records, in order.
    pub fn from_iter(items: Vec<LazyObject<F>>) -> (r: MemoryStream<P, F>)
        ensures
            !r@.has_producer,
            r@.queue == queue_view(items@),
    {
        MemoryStream { producer: None, queue: items }
    }

    /// Queues one more record.
    pub fn extend_one(&mut self, item: LazyObject<F>)
        ensures
            final(self)@.has_producer == old(self)@.has_producer,
            final(self)@.queue == old(self)@.queue.push(item@),
    {
        self.queue.push(item);
        proof {
            assert(self@.queue =~= old(self)@.queue.push(item@));
        }
    }

    /// Takes the producer, leaving the queue.
    pub fn take_producer(&mut self) -> (r: Option<P>)
        ensures
            !final(self)@.has_producer,
            final(self)@.queue == old(self)@.queue,
            r is Some <==> old(self)@.has_producer,
    {
        let mut p: Option<P> = None;
        core::mem::swap(&mut p, &mut self.producer);
        p
    }

    /// Pops the next queued record.
    pub fn next_queued(&mut self) -> (r: Option<LazyObject<F>>)
        ensures
            final(self)@.has_producer == old(self)@.has_producer,
            match r {
                Some(item) => old(self)@.queue.len() > 0 && item@ == old(self)@.queue[0] && final(self)@.queue == old(self)@.queue.drop_first(),
                None => old(self)@.queue.len() == 0 && final(self)@.queue == old(self)@.queue,
            },
    {
        if self.queue.len() == 0 {
            return None;
        }
        let item = self.queue.remove(0);
        proof {
            assert(self@.queue =~= old(self)@.queue.drop_first());
        }
        Some(item)
    }

    pub fn queue_len(&self) -> (r: usize)
        ensures
            r == self@.queue.len(),
    {
        self.queue.len()
    }
}

/// Mathematical view of a channel.
pub struct ChannelV {
    pub has_batch: bool,
    pub stream: StreamV,
}

/// The carrier between nodes: an optional columnar batch handle `B` plus a
/// stream form. Both expose a uniform "drain as records" operation, which
/// the driver performs.
pub struct PipeChannel<B, P, F> {
    batch: Option<B>,
    stream: MemoryStream<P, F>,
}

impl<B, P, F> View for PipeChannel<B, P, F> {
    type V = ChannelV;

    closed spec fn view(&self) -> ChannelV {
        ChannelV { has_batch: self.batch is Some, stream: self.stream@ }
    }
}

impl<B, P, F> PipeChannel<B, P, F> {
    /// An empty channel.
    pub fn empty() -> (r: PipeChannel<B, P, F>)
        ensures
            !r@.has_batch,
            !r@.stream.has_producer,
            r@.stream.queue == Seq::<Seq<LayerV>>::empty(),
    {
        PipeChannel { batch: None, stream: MemoryStream::empty() }
    }

    /// A channel carrying a columnar batch.
    pub fn from_batch(batch: B) -> (r: PipeChannel<B, P, F>)
        ensures
            r@.has_batch,
            !r@.stream.has_producer,
            r@.stream.queue == Seq::<Seq<LayerV>>::empty(),
    {
        PipeChannel { batch: Some(batch), stream: MemoryStream::empty() }
    }

    /// A channel carrying a stream.
    pub fn from_stream(stream: MemoryStream<P, F>) -> (r: PipeChannel<B, P, F>)
        ensures
            !r@.has_batch,
            r@.stream == stream@,
    {
        PipeChannel { batch: None, stream }
    }

    /// A channel carrying one record.
    pub fn from_unit(item: LazyObject<F>) -> (r: PipeChannel<B, P, F>)
        ensures
            !r@.has_batch,
            !r@.stream.has_producer,
            r@.stream.queue == seq![item@],
    {
        PipeChannel { batch: None, stream: MemoryStream::from_unit(item) }
    }

    /// Whether the channel carries a batch.
    pub fn has_batch(&self) -> (r: bool)
        ensures
            r == self@.has_batch,
    {
        match &self.batch {
            Some(_) => true,
            None => false,
        }
    }

    /// Splits the channel into its forms, for the driver to drain.
    pub fn into_parts(self) -> (r: (Option<B>, MemoryStream<P, F>))
        ensures
            r.0 is Some <==> self@.has_batch,
            r.1@ == self@.stream,
    {
        let PipeChannel { batch, stream } = self;
        (batch, stream)
    }
}

/// A built node implementation: a closed tagged variant over the node
/// roles, each arm holding an opaque implementation value.
pub enum PipeNodeImpl<T> {
    Batch(T),
    Func(T),
    Sink(T),
    Src(T),
    Store(T),
    Stream(T),
}

impl<T> PipeNodeImpl<T> {
    /// The role of this implementation.
    pub open spec fn spec_role(&self) -> PlanType {
        match self {
            PipeNodeImpl::Batch(_) => PlanType::Batch,
            PipeNodeImpl::Func(_) => PlanType::Func,
            PipeNodeImpl::Sink(_) => PlanType::Sink,
            PipeNodeImpl::Src(_) => PlanType::Src,
            PipeNodeImpl::Store(_) => PlanType::Store,
            PipeNodeImpl::Stream(_) => PlanType::Stream,
        }
    }

    /// The role of this implementation.
    pub fn role(&self) -> (r: PlanType)
        ensures
            r == self.spec_role(),
    {
        match self {
            PipeNodeImpl::Batch(_) => PlanType::Batch,
            PipeNodeImpl::Func(_) => PlanType::Func,
            PipeNodeImpl::Sink(_) => PlanType::Sink,
            PipeNodeImpl::Src(_) => PlanType::Src,
            PipeNodeImpl::Store(_) => PlanType::Store,
            PipeNodeImpl::Stream(_) => PlanType::Stream,
        }
    }
}

/// One node of a validated sequence: its kind, its arguments, and its
/// built implementation.
pub struct PipeNode<T> {
    pub kind: PlanKind,
    pub args: Object,
    pub imp: PipeNodeImpl<T>,
}

} // verus!
