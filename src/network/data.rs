//! Size-bounded messages exchanged between nodes.
use vstd::prelude::*;

verus! {

/// Type of a communication round identifier.
pub type RoundId = u64;

/// Type of a node identifier.
pub type NodeId = u64;

/// A kilobyte in bytes.
pub const KB: usize = 1024;

/// A megabyte in bytes.
pub const MB: usize = 1048576;

/// A gigabyte in bytes.
pub const GB: usize = 1073741824;

/// The failures of the propagation engine.
#[derive(Debug, Clone, Copy, PartialEq, Eq, Structural)]
pub enum NetworkError {
    /// An insertion went beyond a fixed-size buffer or set bound.
    CapacityExceeded,
    /// A peer id that is not part of the configured topology.
    NeighborNotFound,
    /// Forwarding was asked for an origin whose data was never received.
    MissingOrigin,
}

/// A sequence of at most `CAPACITY` elements. Growing it past that bound is
/// refused with `CapacityExceeded`, never truncated.
pub struct BoundedVec<T, const CAPACITY: usize> {
    items: Vec<T>,
}

impl<T, const CAPACITY: usize> View for BoundedVec<T, CAPACITY> {
    type V = Seq<T>;

    closed spec fn view(&self) -> Seq<T> {
        self.items@
    }
}

impl<T, const CAPACITY: usize> BoundedVec<T, CAPACITY> {
    /// An empty buffer.
    pub fn new() -> (r: Self)
        ensures
            r@ == Seq::<T>::empty(),
    {
        BoundedVec { items: Vec::new() }
    }

    /// The number of elements held.
    pub fn len(&self) -> (r: usize)
        ensures
            r == self@.len(),
    {
        self.items.len()
    }

    /// The largest number of elements the buffer can hold.
    pub fn capacity(&self) -> (r: usize)
        ensures
            r == CAPACITY,
    {
        CAPACITY
    }

    /// The elements, in order.
    pub fn as_slice(&self) -> (r: &[T])
        ensures
            r@ == self@,
    {
        self.items.as_slice()
    }

    /// Appends one element, or fails when the buffer is full.
    pub fn push(&mut self, value: T) -> (r: Result<(), NetworkError>)
        ensures
            r is Ok <==> old(self)@.len() < CAPACITY,
            r is Ok ==> final(self)@ == old(self)@.push(value),
            r is Err ==> r == Err::<(), NetworkError>(NetworkError::CapacityExceeded)
                && final(self)@ == old(self)@,
    {
        if self.items.len() < CAPACITY {
            self.items.push(value);
            Ok(())
        } else {
            Err(NetworkError::CapacityExceeded)
        }
    }
}

impl<T: Copy, const CAPACITY: usize> BoundedVec<T, CAPACITY> {
    /// Appends all of `other`, or fails, unchanged, when the result would
    /// exceed the capacity.
    pub fn extend_from_slice(&mut self, other: &[T]) -> (r: Result<(), NetworkError>)
        ensures
            r is Ok <==> old(self)@.len() + other@.len() <= CAPACITY,
            r is Ok ==> final(self)@ == old(self)@ + other@,
            r is Err ==> r == Err::<(), NetworkError>(NetworkError::CapacityExceeded)
                && final(self)@ == old(self)@,
    {
        if self.items.len() > CAPACITY || other.len() > CAPACITY - self.items.len() {
            return Err(NetworkError::CapacityExceeded);
        }
        let ghost start = self.items@;
        let mut i: usize = 0;
        while i < other.len()
            invariant
                i <= other@.len(),
                start.len() + other@.len() <= CAPACITY,
                self.items@ == start + other@.subrange(0, i as int),
            decreases other@.len() - i,
        {
            self.items.push(other[i]);
            i = i + 1;
            proof {
                assert(self.items@ =~= start + other@.subrange(0, i as int));
            }
        }
        proof {
            assert(other@.subrange(0, other@.len() as int) =~= other@);
        }
        Ok(())
    }

    /// A buffer holding a copy of `items`, or `CapacityExceeded` when they do
    /// not fit.
    pub fn from_slice(items: &[T]) -> (r: Result<Self, NetworkError>)
        ensures
            r is Ok <==> items@.len() <= CAPACITY,
            r matches Ok(b) ==> b@ == items@,
            r is Err ==> r matches Err(NetworkError::CapacityExceeded),
    {
        let mut b = Self::new();
        match b.extend_from_slice(items) {
            Ok(()) => {
                proof {
                    assert(Seq::<T>::empty() + items@ =~= items@);
                }
                Ok(b)
            },
            Err(e) => Err(e),
        }
    }
}

impl<T: Copy, const CAPACITY: usize> Clone for BoundedVec<T, CAPACITY> {
    fn clone(&self) -> (r: Self)
        ensures
            r@ == self@,
    {
        let mut items: Vec<T> = Vec::new();
        let mut i: usize = 0;
        while i < self.items.len()
            invariant
                i <= self.items@.len(),
                items@ == self.items@.subrange(0, i as int),
            decreases self.items@.len() - i,
        {
            items.push(self.items[i]);
            i = i + 1;
            proof {
                assert(items@ =~= self.items@.subrange(0, i as int));
            }
        }
        proof {
            assert(self.items@.subrange(0, self.items@.len() as int) =~= self.items@);
        }
        BoundedVec { items }
    }
}

/// The serialized bytes of one model snapshot, at most `MODEL_SIZE` of them.
pub type ModelBytes<const MODEL_SIZE: usize> = BoundedVec<u8, MODEL_SIZE>;

/// A common header used by requests and responses: the immediate sender and
/// receiver of one hop.
#[derive(Debug, Clone, Copy, PartialEq, Eq, Structural)]
pub struct SimpleHeader {
    pub src: NodeId,
    pub dst: NodeId,
}

/// Asks that `model_bytes` of `round`, which came from `origin`, be
/// propagated to every other node.
pub struct BroadcastReq<const MODEL_SIZE: usize> {
    pub origin: NodeId,
    pub round: RoundId,
    pub model_bytes: ModelBytes<MODEL_SIZE>,
}

impl<const MODEL_SIZE: usize> Clone for BroadcastReq<MODEL_SIZE> {
    fn clone(&self) -> (r: Self)
        ensures
            r.origin == self.origin,
            r.round == self.round,
            r.model_bytes@ == self.model_bytes@,
    {
        BroadcastReq { origin: self.origin, round: self.round, model_bytes: self.model_bytes.clone() }
    }
}

/// Answers a request with the origins whose models the sender knows for
/// `round`.
pub struct BroadcastResp<const NUM_NODES: usize> {
    pub round: RoundId,
    pub knowledge: BoundedVec<NodeId, NUM_NODES>,
}

impl<const NUM_NODES: usize> Clone for BroadcastResp<NUM_NODES> {
    fn clone(&self) -> (r: Self)
        ensures
            r.round == self.round,
            r.knowledge@ == self.knowledge@,
    {
        BroadcastResp { round: self.round, knowledge: self.knowledge.clone() }
    }
}

} // verus!
