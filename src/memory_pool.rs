//! Recycling of packet buffers, so that the data plane does not allocate a
//! buffer per packet. Times are milliseconds on one clock.
use vstd::prelude::*;
use crate::clock::wall_clock_ms;

verus! {

/// Age after which a buffer is no longer recycled, in milliseconds.
pub const MAX_BUFFER_AGE_MS: u64 = 300_000;

/// Idle time after which an aged-out pooled buffer is swept, in milliseconds.
pub const MAX_BUFFER_IDLE_MS: u64 = 60_000;

/// Abstract state of a buffer.
pub struct BufferView {
    pub data: Seq<u8>,
    pub size: usize,
    pub id: u64,
    pub created_at: u64,
    pub last_used: u64,
}

/// Time elapsed from `since` to `now` (0 when `now` stands earlier).
pub open spec fn elapsed(since: u64, now: u64) -> u64 {
    if now >= since {
        (now - since) as u64
    } else {
        0
    }
}

/// `n` zero bytes.
pub open spec fn zeros(n: nat) -> Seq<u8> {
    Seq::new(n, |i: int| 0u8)
}

/// A buffer has aged out: it is older than the maximal age.
pub open spec fn aged_out(b: BufferView, now: u64) -> bool {
    elapsed(b.created_at, now) > MAX_BUFFER_AGE_MS
}

/// A buffer has been idle longer than the idle threshold.
pub open spec fn idle(b: BufferView, now: u64) -> bool {
    elapsed(b.last_used, now) > MAX_BUFFER_IDLE_MS
}

/// The buffers that survive a sweep at `now`, in their order.
pub open spec fn swept(s: Seq<BufferView>, now: u64) -> Seq<BufferView>
    decreases s.len(),
{
    if s.len() == 0 {
        s
    } else if aged_out(s.last(), now) && idle(s.last(), now) {
        swept(s.drop_last(), now)
    } else {
        swept(s.drop_last(), now).push(s.last())
    }
}

/// A reusable packet buffer: `data` is its storage, `size` the number of
/// bytes in use.
#[derive(Debug, Clone)]
pub struct PacketBuffer {
    pub data: Vec<u8>,
    pub size: usize,
    pub id: u64,
    pub created_at: u64,
    pub last_used: u64,
}

impl View for PacketBuffer {
    type V = BufferView;

    open spec fn view(&self) -> BufferView {
        BufferView {
            data: self.data@,
            size: self.size,
            id: self.id,
            created_at: self.created_at,
            last_used: self.last_used,
        }
    }
}

fn zero_bytes(n: usize) -> (v: Vec<u8>)
    ensures
        v@ == zeros(n as nat),
{
    let mut v: Vec<u8> = Vec::with_capacity(n);
    let mut i: usize = 0;
    while i < n
        invariant
            i <= n,
            v@ == zeros(i as nat),
        decreases n - i,
    {
        v.push(0u8);
        i = i + 1;
        assert(v@ =~= zeros(i as nat));
    }
    v
}

impl PacketBuffer {
    /// A zero-filled buffer of `size` bytes, all in use, created at `now_ms`.
    pub fn new_at(size: usize, id: u64, now_ms: u64) -> (b: PacketBuffer)
        ensures
            b@ == (BufferView {
                data: zeros(size as nat),
                size,
                id,
                created_at: now_ms,
                last_used: now_ms,
            }),
    {
        PacketBuffer { data: zero_bytes(size), size, id, created_at: now_ms, last_used: now_ms }
    }

    /// A zero-filled buffer of `size` bytes, all in use, created now.
    pub fn new(size: usize, id: u64) -> (b: PacketBuffer)
        ensures
            b.data@ == zeros(size as nat),
            b.size == size,
            b.id == id,
            b.created_at == b.last_used,
    {
        PacketBuffer::new_at(size, id, wall_clock_ms())
    }

    /// The bytes in use.
    pub fn data(&self) -> (r: &[u8])
        requires
            self.size <= self.data@.len(),
        ensures
            r@ == self.data@.subrange(0, self.size as int),
    {
        vstd::slice::slice_subrange(self.data.as_slice(), 0, self.size)
    }

    /// The bytes in use, for writing; marks the buffer used at `now_ms`.
    /// What is written through the result becomes the front of the storage.
    pub fn data_mut(&mut self, now_ms: u64) -> (r: &mut [u8])
        requires
            old(self).size <= old(self).data@.len(),
        ensures
            r@ == old(self).data@.subrange(0, old(self).size as int),
            final(self).data@ == final(r)@ + old(self).data@.subrange(
                old(self).size as int,
                old(self).data@.len() as int,
            ),
            final(self).size == old(self).size,
            final(self).id == old(self).id,
            final(self).created_at == old(self).created_at,
            final(self).last_used == now_ms,
    {
        self.last_used = now_ms;
        let n = self.size;
        let (front, _) = self.data.as_mut_slice().split_at_mut(n);
        front
    }

    /// Copies `src` to the front of the storage and makes it the content in
    /// use.
    pub fn copy_from(&mut self, src: &[u8], now_ms: u64)
        requires
            src@.len() <= old(self).data@.len(),
        ensures
            final(self).data@ == src@ + old(self).data@.subrange(
                src@.len() as int,
                old(self).data@.len() as int,
            ),
            final(self).size == src@.len(),
            final(self).id == old(self).id,
            final(self).created_at == old(self).created_at,
            final(self).last_used == now_ms,
    {
        let n = src.len();
        let mut i: usize = 0;
        while i < n
            invariant
                n == src@.len(),
                n <= self.data@.len(),
                i <= n,
                self.data@.len() == old(self).data@.len(),
                forall|j: int| 0 <= j < i ==> self.data@[j] == src@[j],
                forall|j: int| i <= j < self.data@.len() ==> self.data@[j] == old(self).data@[j],
                self.size == old(self).size,
                self.id == old(self).id,
                self.created_at == old(self).created_at,
            decreases n - i,
        {
            self.data.set(i, src[i]);
            i = i + 1;
        }
        self.size = n;
        self.last_used = now_ms;
        assert(self.data@ =~= src@ + old(self).data@.subrange(
            src@.len() as int,
            old(self).data@.len() as int,
        ));
    }

    /// Sets the number of bytes in use, growing the storage with zeros when
    /// it is too small.
    pub fn resize(&mut self, new_size: usize, now_ms: u64)
        ensures
            final(self).size == new_size,
            old(self).data@.len() >= new_size ==> final(self).data@ == old(self).data@,
            old(self).data@.len() < new_size ==> final(self).data@ == old(self).data@ + zeros(
                (new_size - old(self).data@.len()) as nat,
            ),
            final(self).id == old(self).id,
            final(self).created_at == old(self).created_at,
            final(self).last_used == now_ms,
    {
        let len = self.data.len();
        if new_size > len {
            let mut i: usize = len;
            while i < new_size
                invariant
                    len <= i <= new_size,
                    self.data@ == old(self).data@ + zeros((i - len) as nat),
                    self.id == old(self).id,
                    self.created_at == old(self).created_at,
                decreases new_size - i,
            {
                self.data.push(0u8);
                i = i + 1;
                assert(self.data@ =~= old(self).data@ + zeros((i - len) as nat));
            }
        }
        self.size = new_size;
        self.last_used = now_ms;
    }

    /// The buffer is older than `max_age_ms` at `now_ms`.
    pub fn is_expired(&self, max_age_ms: u64, now_ms: u64) -> (r: bool)
        ensures
            r == (elapsed(self.created_at, now_ms) > max_age_ms),
    {
        let age: u64 = if now_ms >= self.created_at {
            now_ms - self.created_at
        } else {
            0
        };
        age > max_age_ms
    }

    /// The buffer has not been used for longer than `max_idle_ms` at `now_ms`.
    pub fn is_stale(&self, max_idle_ms: u64, now_ms: u64) -> (r: bool)
        ensures
            r == (elapsed(self.last_used, now_ms) > max_idle_ms),
    {
        let idle_for: u64 = if now_ms >= self.last_used {
            now_ms - self.last_used
        } else {
            0
        };
        idle_for > max_idle_ms
    }
}

/// Counters and sizes of a pool at one moment.
#[derive(Debug, Clone, Copy)]
pub struct PoolStats {
    pub pool_size: usize,
    pub max_pool_size: usize,
    pub buffer_size: usize,
    pub created_buffers: usize,
    pub total_allocations: usize,
    pub total_deallocations: usize,
    pub active_buffers: usize,
}

impl PoolStats {
    /// Percentage (rounded down) of allocations served by a pooled buffer.
    pub fn hit_rate(&self) -> (r: usize)
        ensures
            r == (if self.total_allocations == 0 || self.created_buffers
                >= self.total_allocations {
                0
            } else {
                ((self.total_allocations - self.created_buffers) as int * 100
                    / self.total_allocations as int) as usize
            }),
    {
        if self.total_allocations == 0 || self.created_buffers >= self.total_allocations {
            return 0;
        }
        let hits = (self.total_allocations - self.created_buffers) as u128;
        let r = hits * 100 / self.total_allocations as u128;
        assert(r <= 100) by (nonlinear_arith)
            requires
                hits <= self.total_allocations,
                r as int == hits as int * 100 / self.total_allocations as int,
                self.total_allocations > 0,
        ;
        r as usize
    }

    /// Percentage (rounded down) of the pool's capacity that holds buffers.
    pub fn utilization(&self) -> (r: u128)
        ensures
            r == (if self.max_pool_size == 0 {
                0
            } else {
                (self.pool_size as int * 100 / self.max_pool_size as int) as u128
            }),
    {
        if self.max_pool_size == 0 {
            return 0;
        }
        self.pool_size as u128 * 100 / self.max_pool_size as u128
    }
}

/// Abstract state of a pool.
pub struct PoolView {
    pub buffers: Seq<BufferView>,
    pub buffer_size: usize,
    pub max_pool_size: usize,
    pub created_buffers: usize,
    pub total_allocations: usize,
    pub total_deallocations: usize,
}

/// `x + 1`, held at `usize::MAX`.
pub open spec fn inc(x: usize) -> usize {
    if x == usize::MAX {
        x
    } else {
        (x + 1) as usize
    }
}

/// A pooled buffer fits a request of `size` bytes.
pub open spec fn fits(b: BufferView, size: usize) -> bool {
    b.data.len() >= size
}

/// Pool of reusable packet buffers.
pub struct MemoryPool {
    buffers: Vec<PacketBuffer>,
    buffer_size: usize,
    max_pool_size: usize,
    created_buffers: usize,
    total_allocations: usize,
    total_deallocations: usize,
}

impl View for MemoryPool {
    type V = PoolView;

    closed spec fn view(&self) -> PoolView {
        PoolView {
            buffers: self.buffers@.map_values(|b: PacketBuffer| b@),
            buffer_size: self.buffer_size,
            max_pool_size: self.max_pool_size,
            created_buffers: self.created_buffers,
            total_allocations: self.total_allocations,
            total_deallocations: self.total_deallocations,
        }
    }
}

/// What every pooled buffer satisfies: at least the standard storage, all
/// of it zero, the standard size in use.
pub open spec fn pooled_ok(b: BufferView, buffer_size: usize) -> bool {
    &&& b.data.len() >= buffer_size
    &&& b.data == zeros(b.data.len())
    &&& b.size == buffer_size
}

/// Invariant of a pool: never more buffers than its maximum, and every
/// pooled buffer ready for reuse.
pub open spec fn pool_ok(p: PoolView) -> bool {
    &&& p.buffers.len() <= p.max_pool_size
    &&& forall|i: int| 0 <= i < p.buffers.len() ==> pooled_ok(#[trigger] p.buffers[i], p.buffer_size)
}

/// Some pooled buffer can hold `size` bytes.
pub open spec fn has_fit(bufs: Seq<BufferView>, size: usize) -> bool {
    exists|i: int| 0 <= i < bufs.len() && fits(#[trigger] bufs[i], size)
}

/// A lease of `size` bytes fails: no pooled buffer fits and no id is left
/// for a new buffer.
pub open spec fn lease_fails(pre: PoolView, size: usize) -> bool {
    !has_fit(pre.buffers, size) && pre.created_buffers == usize::MAX
}

/// What leasing a buffer of `size` bytes at `now_ms` does: `pre` and `post`
/// are the pool before and after, `r` the result (see
/// `MemoryPool::get_packet_at`).
pub open spec fn leased(
    pre: PoolView,
    post: PoolView,
    size: usize,
    now_ms: u64,
    r: Result<PacketBuffer, String>,
) -> bool {
    &&& post.buffer_size == pre.buffer_size
    &&& post.max_pool_size == pre.max_pool_size
    &&& post.total_deallocations == pre.total_deallocations
    &&& (lease_fails(pre, size) <==> r is Err)
    &&& r is Err ==> post == pre
    &&& (r matches Ok(b) ==> {
        &&& post.total_allocations == inc(pre.total_allocations)
        &&& b.size == size
        &&& b.data@.len() >= size
        &&& b.data@ == zeros(b.data@.len())
        &&& b.last_used == now_ms
        &&& has_fit(pre.buffers, size) ==> exists|i: int|
            0 <= i < pre.buffers.len() && fits(#[trigger] pre.buffers[i], size)
                && (forall|j: int| 0 <= j < i ==> !fits(pre.buffers[j], size))
                && post.buffers == pre.buffers.remove(i)
                && b.data@ == pre.buffers[i].data
                && b.id == pre.buffers[i].id
                && b.created_at == pre.buffers[i].created_at
                && post.created_buffers == pre.created_buffers
        &&& !has_fit(pre.buffers, size) ==> {
            &&& post.buffers == pre.buffers
            &&& b.data@.len() == (if size > pre.buffer_size {
                size
            } else {
                pre.buffer_size
            })
            &&& b.id == pre.created_buffers
            &&& b.created_at == now_ms
            &&& post.created_buffers == pre.created_buffers + 1
        }
    })
}

/// Whether a buffer given back at `now_ms` goes back into the pool: it has
/// not aged out, its storage is at least the standard size, and the pool has
/// room.
pub open spec fn recycles(pre: PoolView, b: BufferView, now_ms: u64) -> bool {
    !aged_out(b, now_ms) && b.data.len() >= pre.buffer_size && pre.buffers.len()
        < pre.max_pool_size
}

/// What giving back buffer `b` at `now_ms` does: one more deallocation, and
/// a recycled buffer appended zero-filled at the standard size (see
/// `MemoryPool::return_packet_at`).
pub open spec fn released(pre: PoolView, post: PoolView, b: BufferView, now_ms: u64) -> bool {
    &&& post.total_deallocations == inc(pre.total_deallocations)
    &&& post.total_allocations == pre.total_allocations
    &&& post.created_buffers == pre.created_buffers
    &&& post.buffer_size == pre.buffer_size
    &&& post.max_pool_size == pre.max_pool_size
    &&& recycles(pre, b, now_ms) ==> post.buffers == pre.buffers.push(
        BufferView {
            data: zeros(b.data.len()),
            size: pre.buffer_size,
            id: b.id,
            created_at: b.created_at,
            last_used: now_ms,
        },
    )
    &&& !recycles(pre, b, now_ms) ==> post.buffers == pre.buffers
}

impl MemoryPool {
    /// An empty pool holding at most `max_pool_size` buffers of a standard
    /// storage of `buffer_size` bytes.
    pub fn new(max_pool_size: usize, buffer_size: usize) -> (p: MemoryPool)
        ensures
            p@ == (PoolView {
                buffers: Seq::empty(),
                buffer_size,
                max_pool_size,
                created_buffers: 0,
                total_allocations: 0,
                total_deallocations: 0,
            }),
            pool_ok(p@),
    {
        let p = MemoryPool {
            buffers: Vec::new(),
            buffer_size,
            max_pool_size,
            created_buffers: 0,
            total_allocations: 0,
            total_deallocations: 0,
        };
        assert(p@.buffers =~= Seq::empty());
        p
    }

    /// Leases a buffer with `size` bytes in use, at `now_ms`. The first
    /// pooled buffer whose storage holds `size` bytes is taken out of the
    /// pool and keeps its id; when there is none a zero-filled buffer with
    /// storage for `max(size, buffer_size)` bytes is made, numbered by the
    /// count of buffers made before it. Fails only when a buffer must be
    /// made and the ids are exhausted.
    pub fn get_packet_at(&mut self, size: usize, now_ms: u64) -> (r: Result<PacketBuffer, String>)
        requires
            pool_ok(old(self)@),
        ensures
            pool_ok(final(self)@),
            leased(old(self)@, final(self)@, size, now_ms, r),
    {
        let ghost old_bufs = self@.buffers;
        let mut i: usize = 0;
        while i < self.buffers.len()
            invariant
                self@ == old(self)@,
                pool_ok(old(self)@),
                old_bufs == old(self)@.buffers,
                self.buffers@.len() == old_bufs.len(),
                i <= self.buffers@.len(),
                forall|j: int| 0 <= j < i ==> !fits(old_bufs[j], size),
            decreases self.buffers@.len() - i,
        {
            assert(self@.buffers[i as int] == self.buffers@[i as int]@);
            if self.buffers[i].data.len() >= size {
                let mut buffer = self.buffers.remove(i);
                buffer.size = size;
                buffer.last_used = now_ms;
                self.total_allocations = if self.total_allocations == usize::MAX {
                    self.total_allocations
                } else {
                    self.total_allocations + 1
                };
                assert(self@.buffers =~= old_bufs.remove(i as int));
                assert forall|k: int| 0 <= k < self@.buffers.len() implies pooled_ok(
                    #[trigger] self@.buffers[k],
                    self.buffer_size,
                ) by {
                    if k < i {
                        assert(self@.buffers[k] == old_bufs[k]);
                        assert(pooled_ok(old(self)@.buffers[k], old(self)@.buffer_size));
                    } else {
                        assert(self@.buffers[k] == old_bufs[k + 1]);
                        assert(pooled_ok(old(self)@.buffers[k + 1], old(self)@.buffer_size));
                    }
                }
                assert(pooled_ok(old_bufs[i as int], self.buffer_size));
                assert(fits(old(self)@.buffers[i as int], size));
                assert(buffer.data@ == old(self)@.buffers[i as int].data);
                assert(has_fit(old(self)@.buffers, size));
                return Ok(buffer);
            }
            i = i + 1;
        }
        assert(!has_fit(old(self)@.buffers, size));
        if self.created_buffers == usize::MAX {
            return Err("memory pool exhausted: no buffer id left".to_string());
        }
        let capacity = if size > self.buffer_size {
            size
        } else {
            self.buffer_size
        };
        let mut buffer = PacketBuffer::new_at(capacity, self.created_buffers as u64, now_ms);
        buffer.size = size;
        self.created_buffers = self.created_buffers + 1;
        self.total_allocations = if self.total_allocations == usize::MAX {
            self.total_allocations
        } else {
            self.total_allocations + 1
        };
        Ok(buffer)
    }

    /// Leases a buffer with `size` bytes in use, now.
    pub fn get_packet(&mut self, size: usize) -> (r: Result<PacketBuffer, String>)
        requires
            pool_ok(old(self)@),
        ensures
            pool_ok(final(self)@),
            exists|now_ms: u64| #[trigger] leased(old(self)@, final(self)@, size, now_ms, r),
    {
        self.get_packet_at(size, wall_clock_ms())
    }

    /// Gives a leased buffer back at `now_ms`. A buffer that has aged out,
    /// whose storage is below the standard size, or that finds the pool full
    /// is discarded; any other is zero-filled, set to the standard size and
    /// put at the back of the pool. Every call counts one deallocation.
    pub fn return_packet_at(&mut self, buffer: PacketBuffer, now_ms: u64)
        requires
            pool_ok(old(self)@),
        ensures
            pool_ok(final(self)@),
            released(old(self)@, final(self)@, buffer@, now_ms),
    {
        self.total_deallocations = if self.total_deallocations == usize::MAX {
            self.total_deallocations
        } else {
            self.total_deallocations + 1
        };
        if buffer.is_expired(MAX_BUFFER_AGE_MS, now_ms) || buffer.data.len() < self.buffer_size {
            return ;
        }
        if self.buffers.len() >= self.max_pool_size {
            return ;
        }
        let ghost orig = buffer@;
        let mut buffer = buffer;
        let n = buffer.data.len();
        let mut i: usize = 0;
        while i < n
            invariant
                n == buffer.data@.len(),
                n == orig.data.len(),
                buffer.id == orig.id,
                buffer.created_at == orig.created_at,
                i <= n,
                forall|j: int| 0 <= j < i ==> buffer.data@[j] == 0u8,
            decreases n - i,
        {
            buffer.data.set(i, 0u8);
            i = i + 1;
        }
        buffer.size = self.buffer_size;
        buffer.last_used = now_ms;
        assert(buffer.data@ =~= zeros(n as nat));
        let ghost before = self@.buffers;
        self.buffers.push(buffer);
        assert(self@.buffers =~= before.push(buffer@));
    }

    /// Gives a leased buffer back, now.
    pub fn return_packet(&mut self, buffer: PacketBuffer)
        requires
            pool_ok(old(self)@),
        ensures
            pool_ok(final(self)@),
            exists|now_ms: u64| #[trigger] released(old(self)@, final(self)@, buffer@, now_ms),
    {
        self.return_packet_at(buffer, wall_clock_ms())
    }

    /// The pool's counters.
    pub fn get_stats(&self) -> (s: PoolStats)
        ensures
            s.pool_size == self@.buffers.len(),
            s.max_pool_size == self@.max_pool_size,
            s.buffer_size == self@.buffer_size,
            s.created_buffers == self@.created_buffers,
            s.total_allocations == self@.total_allocations,
            s.total_deallocations == self@.total_deallocations,
            s.active_buffers == (if self@.total_allocations >= self@.total_deallocations {
                self@.total_allocations - self@.total_deallocations
            } else {
                0
            }),
    {
        PoolStats {
            pool_size: self.buffers.len(),
            max_pool_size: self.max_pool_size,
            buffer_size: self.buffer_size,
            created_buffers: self.created_buffers,
            total_allocations: self.total_allocations,
            total_deallocations: self.total_deallocations,
            active_buffers: if self.total_allocations >= self.total_deallocations {
                self.total_allocations - self.total_deallocations
            } else {
                0
            },
        }
    }

    /// Sweeps out, at `now_ms`, the pooled buffers that have both aged out
    /// and been idle past the idle threshold; the others keep their order.
    pub fn cleanup_at(&mut self, now_ms: u64)
        requires
            pool_ok(old(self)@),
        ensures
            pool_ok(final(self)@),
            final(self)@ == (PoolView { buffers: swept(old(self)@.buffers, now_ms), ..old(self)@ }),
    {
        let ghost old_bufs = self@.buffers;
        let mut old_vec: Vec<PacketBuffer> = Vec::new();
        std::mem::swap(&mut old_vec, &mut self.buffers);
        assert(old_vec@.map_values(|b: PacketBuffer| b@) == old_bufs);
        let mut i: usize = 0;
        while i < old_vec.len()
            invariant
                i <= old_vec@.len(),
                old_vec@.map_values(|b: PacketBuffer| b@) == old_bufs,
                self.buffer_size == old(self).buffer_size,
                self.max_pool_size == old(self).max_pool_size,
                self.created_buffers == old(self).created_buffers,
                self.total_allocations == old(self).total_allocations,
                self.total_deallocations == old(self).total_deallocations,
                self@.buffers == swept(old_bufs.take(i as int), now_ms),
                self@.buffers.len() <= i,
                forall|k: int|
                    0 <= k < self@.buffers.len() ==> pooled_ok(
                        #[trigger] self@.buffers[k],
                        self.buffer_size,
                    ),
                pool_ok(old(self)@),
                old_bufs == old(self)@.buffers,
            decreases old_vec@.len() - i,
        {
            let ghost before = self@.buffers;
            assert(old_bufs.take(i + 1).drop_last() =~= old_bufs.take(i as int));
            assert(old_bufs.take(i + 1).last() == old_bufs[i as int]);
            assert(old_bufs[i as int] == old_vec@[i as int]@);
            let expired = old_vec[i].is_expired(MAX_BUFFER_AGE_MS, now_ms);
            let stale = old_vec[i].is_stale(MAX_BUFFER_IDLE_MS, now_ms);
            if !(expired && stale) {
                let b = old_vec[i].clone_buffer();
                self.buffers.push(b);
                assert(self@.buffers =~= before.push(old_bufs[i as int]));
                assert(pooled_ok(old_bufs[i as int], self.buffer_size));
            }
            i = i + 1;
        }
        assert(old_bufs.take(i as int) =~= old_bufs);
    }

    /// Sweeps the pool now.
    pub fn cleanup(&mut self)
        requires
            pool_ok(old(self)@),
        ensures
            pool_ok(final(self)@),
            final(self)@.buffers.len() <= old(self)@.buffers.len(),
            exists|now_ms: u64|
                final(self)@ == (PoolView {
                    buffers: #[trigger] swept(old(self)@.buffers, now_ms),
                    ..old(self)@
                }),
    {
        let now = wall_clock_ms();
        self.cleanup_at(now);
        proof {
            lemma_swept_len(old(self)@.buffers, now);
        }
    }

    /// Drops every pooled buffer.
    pub fn clear(&mut self)
        requires
            pool_ok(old(self)@),
        ensures
            pool_ok(final(self)@),
            final(self)@ == (PoolView { buffers: Seq::empty(), ..old(self)@ }),
    {
        self.buffers.clear();
        assert(self@.buffers =~= Seq::empty());
    }
}

impl PacketBuffer {
    /// A copy of the buffer.
    pub fn clone_buffer(&self) -> (r: PacketBuffer)
        ensures
            r@ == self@,
    {
        let mut data: Vec<u8> = Vec::with_capacity(self.data.len());
        let mut i: usize = 0;
        while i < self.data.len()
            invariant
                i <= self.data@.len(),
                data@ == self.data@.take(i as int),
            decreases self.data@.len() - i,
        {
            data.push(self.data[i]);
            i = i + 1;
            assert(data@ =~= self.data@.take(i as int));
        }
        assert(data@ =~= self.data@);
        PacketBuffer {
            data,
            size: self.size,
            id: self.id,
            created_at: self.created_at,
            last_used: self.last_used,
        }
    }
}

proof fn lemma_swept_len(s: Seq<BufferView>, now: u64)
    ensures
        swept(s, now).len() <= s.len(),
    decreases s.len(),
{
    if s.len() > 0 {
        lemma_swept_len(s.drop_last(), now);
    }
}

/// A buffer older than the maximal age never goes back into the pool.
pub proof fn aged_buffer_is_never_recycled(
    pre: PoolView,
    post: PoolView,
    b: BufferView,
    now_ms: u64,
)
    requires
        released(pre, post, b, now_ms),
        aged_out(b, now_ms),
    ensures
        post.buffers == pre.buffers,
{
}

/// Any sequence of leases, releases and sweeps keeps the pool within its
/// maximum: each of them keeps `pool_ok`, which bounds the size.
pub proof fn pool_size_within_maximum(p: PoolView)
    requires
        pool_ok(p),
    ensures
        p.buffers.len() <= p.max_pool_size,
{
}

} // verus!
