//! Pools of byte buffers and of frame lists, for reuse by the transport.
//! A pool is shared among threads; what it holds at a moment is not known to
//! any one of them.

use crossbeam::queue::ArrayQueue;
use std::sync::Arc;
use vstd::prelude::*;
use crate::event::share;

verus! {

/// `crossbeam::queue::ArrayQueue`, of which nothing is known here.
#[verifier::external_type_specification]
#[verifier::external_body]
#[verifier::reject_recursive_types(T)]
pub struct ExArrayQueue<T>(ArrayQueue<T>);

/// Most buffers that a pool can be made for.
pub const POOL_MAX: usize = 1_048_576;

/// Most bytes for which a pool makes room in a buffer.
pub const BUFFER_MAX: usize = 1_073_741_824;

/// Number of buffers that a new pool holds at most.
pub const POOL_FILL: usize = 100;

/// Number of frames for which a new frame list has room.
pub const ENVELOPE_ROOM: usize = 4;

/// Most frames for which a frame list may have room when it is returned.
pub const ENVELOPE_KEEP: usize = 8;

/// The number of buffers for which a queue was made (`ArrayQueue::capacity`).
/// It stays as it is for as long as the queue lives.
pub uninterp spec fn buffer_queue_capacity(q: ArrayQueue<Vec<u8>>) -> usize;

/// The number of frame lists for which a queue was made
/// (`ArrayQueue::capacity`). It stays as it is for as long as the queue
/// lives.
pub uninterp spec fn envelope_queue_capacity(q: ArrayQueue<Vec<Vec<u8>>>) -> usize;

/// `ArrayQueue::new` in an `Arc`, for byte buffers: an empty queue with the
/// capacity `cap`. The capacity must not be zero.
#[verifier::external_body]
fn new_buffer_queue(cap: usize) -> (q: Arc<ArrayQueue<Vec<u8>>>)
    requires
        0 < cap <= POOL_MAX,
    ensures
        buffer_queue_capacity(*q) == cap,
{
    Arc::new(ArrayQueue::new(cap))
}

/// `ArrayQueue::new` in an `Arc`, for frame lists: an empty queue with the
/// capacity `cap`. The capacity must not be zero.
#[verifier::external_body]
fn new_envelope_queue(cap: usize) -> (q: Arc<ArrayQueue<Vec<Vec<u8>>>>)
    requires
        0 < cap <= POOL_MAX,
    ensures
        envelope_queue_capacity(*q) == cap,
{
    Arc::new(ArrayQueue::new(cap))
}

/// `ArrayQueue::push`: puts the item at the end of the queue unless the
/// queue is full. Whether it did depends on what other threads do.
#[verifier::external_body]
fn queue_push<T>(q: &Arc<ArrayQueue<T>>, item: T) -> (taken: bool) {
    q.push(item).is_ok()
}

/// `ArrayQueue::pop`: takes the item at the front of the queue, if there is
/// one. Which it is depends on what other threads do.
#[verifier::external_body]
fn queue_pop<T>(q: &Arc<ArrayQueue<T>>) -> (item: Option<T>) {
    q.pop()
}

/// `Vec::capacity`: the number of items for which the vector has room.
#[verifier::external_body]
fn room_of<T>(v: &Vec<T>) -> (n: usize)
    ensures
        n >= v@.len(),
{
    v.capacity()
}

/// A pool of byte buffers. The room that it gives a new buffer is at most
/// [`BUFFER_MAX`].
pub struct BufferPool {
    pool: Arc<ArrayQueue<Vec<u8>>>,
    default_capacity: usize,
}

/// A pool of frame lists.
pub struct EnvelopePool {
    pool: Arc<ArrayQueue<Vec<Vec<u8>>>>,
}

impl BufferPool {
    /// A pool for `pool_size` buffers, holding [`POOL_FILL`] of them at most
    /// to begin with, each with room for `default_capacity` bytes.
    pub fn new(pool_size: usize, default_capacity: usize) -> (p: BufferPool)
        requires
            0 < pool_size <= POOL_MAX,
            default_capacity <= BUFFER_MAX,
        ensures
            p.default_capacity() == default_capacity,
            p.capacity() == pool_size,
    {
        let pool = new_buffer_queue(pool_size);
        let fill: usize = if pool_size < POOL_FILL {
            pool_size
        } else {
            POOL_FILL
        };
        let mut i: usize = 0;
        while i < fill
            invariant
                i <= fill,
            decreases fill - i,
        {
            let buf: Vec<u8> = Vec::with_capacity(default_capacity);
            queue_push(&pool, buf);
            i += 1;
        }
        BufferPool { pool, default_capacity }
    }

    /// The room that the pool gives a buffer that it makes.
    pub closed spec fn default_capacity(&self) -> usize {
        self.default_capacity
    }

    /// Most buffers that the pool holds: the number that it was made for.
    pub closed spec fn capacity(&self) -> usize {
        buffer_queue_capacity(*self.pool)
    }

    /// The room that the pool gives a buffer is within [`BUFFER_MAX`].
    #[verifier::type_invariant]
    spec fn bounded(&self) -> bool {
        self.default_capacity <= BUFFER_MAX
    }

    /// An empty buffer: one of the pool, or a new one where the pool has
    /// none.
    pub fn get(&self) -> (buf: Vec<u8>)
        ensures
            buf@.len() == 0,
    {
        match queue_pop(&self.pool) {
            Some(b) => {
                let mut b = b;
                b.clear();
                b
            },
            None => Vec::with_capacity(self.default_capacity),
        }
    }

    /// Gives a buffer back. It is emptied; the pool keeps it where it has
    /// room for no more than four times the default and the pool is not
    /// full.
    pub fn put(&self, buf: Vec<u8>) {
        let mut buf = buf;
        buf.clear();
        let small = if self.default_capacity <= usize::MAX / 4 {
            room_of(&buf) <= self.default_capacity * 4
        } else {
            true
        };
        if small {
            queue_push(&self.pool, buf);
        }
    }

    /// Another handle on the same pool.
    pub fn clone_ref(&self) -> (p: BufferPool)
        ensures
            p == *self,
            p.default_capacity() == self.default_capacity(),
    {
        proof {
            use_type_invariant(self);
        }
        BufferPool { pool: share(&self.pool), default_capacity: self.default_capacity }
    }
}

impl EnvelopePool {
    /// A pool for `pool_size` frame lists, holding [`POOL_FILL`] of them at
    /// most to begin with.
    pub fn new(pool_size: usize) -> (p: EnvelopePool)
        requires
            0 < pool_size <= POOL_MAX,
        ensures
            p.capacity() == pool_size,
    {
        let pool = new_envelope_queue(pool_size);
        let fill: usize = if pool_size < POOL_FILL {
            pool_size
        } else {
            POOL_FILL
        };
        let mut i: usize = 0;
        while i < fill
            invariant
                i <= fill,
            decreases fill - i,
        {
            let env: Vec<Vec<u8>> = Vec::with_capacity(ENVELOPE_ROOM);
            queue_push(&pool, env);
            i += 1;
        }
        EnvelopePool { pool }
    }

    /// Most frame lists that the pool holds: the number that it was made
    /// for.
    pub closed spec fn capacity(&self) -> usize {
        envelope_queue_capacity(*self.pool)
    }

    /// An empty frame list: one of the pool, or a new one where the pool
    /// has none.
    pub fn get(&self) -> (env: Vec<Vec<u8>>)
        ensures
            env@.len() == 0,
    {
        match queue_pop(&self.pool) {
            Some(e) => {
                let mut e = e;
                e.clear();
                e
            },
            None => Vec::with_capacity(ENVELOPE_ROOM),
        }
    }

    /// Gives a frame list back. It is emptied; the pool keeps it where it
    /// has room for no more than [`ENVELOPE_KEEP`] frames and the pool is
    /// not full.
    pub fn put(&self, env: Vec<Vec<u8>>) {
        let mut env = env;
        env.clear();
        if room_of(&env) <= ENVELOPE_KEEP {
            queue_push(&self.pool, env);
        }
    }

    /// Another handle on the same pool: what is given back through the one
    /// can be had through the other.
    pub fn clone_ref(&self) -> (p: EnvelopePool)
        ensures
            p == *self,
    {
        EnvelopePool { pool: share(&self.pool) }
    }
}

} // verus!
