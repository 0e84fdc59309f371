//! Accounting for the streaming buffer pool: a fixed number of
//! fixed-size buffers whose total bounds peak streaming memory.
//!
//! The byte buffers and the semaphore that blocks acquirers live at
//! the boundary; the core tracks how many buffers are out and
//! guarantees the memory bound.

use vstd::prelude::*;

use crate::config::StreamingConfig;

verus! {

/// The pool's book-keeping: buffer size, memory cap, slot count, and
/// how many buffers are free.
#[derive(Clone, Copy, Debug, PartialEq, Eq, Structural)]
pub struct BufferPool {
    pub buffer_size: usize,
    pub max_memory: usize,
    pub pool_size: usize,
    pub available: usize,
}

impl BufferPool {
    /// Never more buffers free than slots.
    pub open spec fn wf(&self) -> bool {
        self.available <= self.pool_size
    }

    /// A fresh pool per the streaming settings: the memory cap divided
    /// evenly over the configured number of buffers, all free.
    pub fn new(config: &StreamingConfig) -> (r: BufferPool)
        requires
            config.buffer_pool_size >= 1,
        ensures
            r.wf(),
            r.buffer_size == config.max_buffer_memory / config.buffer_pool_size,
            r.max_memory == config.max_buffer_memory,
            r.pool_size == config.buffer_pool_size,
            r.available == config.buffer_pool_size,
    {
        BufferPool {
            buffer_size: config.max_buffer_memory / config.buffer_pool_size,
            max_memory: config.max_buffer_memory,
            pool_size: config.buffer_pool_size,
            available: config.buffer_pool_size,
        }
    }

    /// Take one buffer when one is free.
    pub fn try_acquire(&mut self) -> (r: bool)
        requires
            old(self).wf(),
        ensures
            final (self).wf(),
            r <==> old(self).available > 0,
            r ==> final (self).available == old(self).available - 1,
            !r ==> *final (self) == *old(self),
            final (self).buffer_size == old(self).buffer_size,
            final (self).max_memory == old(self).max_memory,
            final (self).pool_size == old(self).pool_size,
    {
        if self.available > 0 {
            self.available = self.available - 1;
            true
        } else {
            false
        }
    }

    /// Return one buffer to the pool.
    pub fn return_buffer(&mut self)
        requires
            old(self).wf(),
            old(self).available < old(self).pool_size,
        ensures
            final (self).wf(),
            final (self).available == old(self).available + 1,
            final (self).buffer_size == old(self).buffer_size,
            final (self).max_memory == old(self).max_memory,
            final (self).pool_size == old(self).pool_size,
    {
        self.available = self.available + 1;
    }

    /// The size of each buffer.
    pub fn buffer_size(&self) -> (r: usize)
        ensures
            r == self.buffer_size,
    {
        self.buffer_size
    }

    /// The memory cap for all buffers together.
    pub fn max_memory(&self) -> (r: usize)
        ensures
            r == self.max_memory,
    {
        self.max_memory
    }
}

/// The pool bounds peak streaming memory: all buffers together never
/// exceed the configured cap.
pub proof fn lemma_pool_memory_bound(pool: BufferPool, slots: int)
    requires
        slots >= 1,
        pool.buffer_size == pool.max_memory as int / slots,
        pool.pool_size == slots,
    ensures
        pool.pool_size * pool.buffer_size <= pool.max_memory,
{
    assert(slots * (pool.max_memory as int / slots) <= pool.max_memory) by (nonlinear_arith)
        requires
            slots >= 1,
            pool.max_memory >= 0,
    ;
}

} // verus!
