//! A byte queue of fixed capacity, for handing received bytes from an
//! interrupt handler to the main program.
//!
//! Against a full queue the incoming byte is dropped, and counted: what the
//! consumer takes out is always a prefix of what was sent.
use vstd::prelude::*;

verus! {

/// A capacity that the queue can have: a power of two, at most 256.
pub open spec fn valid_capacity(n: usize) -> bool {
    n == 1 || n == 2 || n == 4 || n == 8 || n == 16 || n == 32 || n == 64 || n == 128 || n == 256
}

/// A first-in first-out byte queue of capacity `N`.
pub struct RxQueue<const N: usize> {
    buf: [u8; N],
    head: u16,
    tail: u16,
    dropped: u8,
}

impl<const N: usize> RxQueue<N> {
    spec fn count(&self) -> int {
        self.head.wrapping_sub(self.tail) as int
    }

    /// The queued bytes, oldest first.
    pub closed spec fn view(&self) -> Seq<u8> {
        Seq::new(self.count() as nat, |i: int| self.buf@[(self.tail + i) % (N as int)])
    }

    /// How many bytes were dropped; it stops counting at 255.
    pub closed spec fn lost(&self) -> u8 {
        self.dropped
    }

    /// The queue has a valid capacity and holds no more than that.
    pub closed spec fn wf(&self) -> bool {
        valid_capacity(N) && self.count() <= N
    }

    /// An empty queue.
    pub fn new() -> (r: Self)
        requires
            valid_capacity(N),
        ensures
            r.wf(),
            r@ == Seq::<u8>::empty(),
            r.lost() == 0,
    {
        RxQueue { buf: [0u8;N], head: 0, tail: 0, dropped: 0 }
    }

    /// The number of queued bytes.
    pub fn len(&self) -> (r: usize)
        requires
            self.wf(),
        ensures
            r == self@.len(),
            r <= N,
    {
        self.head.wrapping_sub(self.tail) as usize
    }

    /// Whether nothing is queued.
    pub fn is_empty(&self) -> (r: bool)
        requires
            self.wf(),
        ensures
            r == (self@.len() == 0),
    {
        self.len() == 0
    }

    /// Appends a byte; against a full queue it is dropped and counted, and the
    /// result is `false`.
    pub fn push(&mut self, byte: u8) -> (r: bool)
        requires
            old(self).wf(),
        ensures
            final(self).wf(),
            r == (old(self)@.len() < N),
            final(self)@ == if r {
                old(self)@.push(byte)
            } else {
                old(self)@
            },
            final(self).lost() == if r || old(self).lost() == u8::MAX {
                old(self).lost() as int
            } else {
                old(self).lost() + 1
            },
    {
        if self.len() == N {
            self.dropped = self.dropped.saturating_add(1);
            return false;
        }
        let head: u16 = self.head;
        let slot: usize = head as usize % N;
        self.buf[slot] = byte;
        self.head = head.wrapping_add(1);
        proof {
            let n = old(self).count();
            lemma_wrap(N, old(self).tail + n);
            lemma_wrap(N, head as int);
            assert(slot as int == (self.tail + n) % (N as int));
            assert forall|i: int| 0 <= i < n implies #[trigger] self@[i] == old(self)@[i] by {
                lemma_apart(N, self.tail + i, n - i);
            }
            assert(self@ =~= old(self)@.push(byte));
        }
        true
    }

    /// Takes the oldest byte.
    pub fn pop(&mut self) -> (r: Option<u8>)
        requires
            old(self).wf(),
        ensures
            final(self).wf(),
            final(self).lost() == old(self).lost(),
            old(self)@.len() == 0 ==> r is None && final(self)@ == old(self)@,
            old(self)@.len() > 0 ==> r == Some(old(self)@.first()) && final(self)@ == old(
                self,
            )@.drop_first(),
    {
        if self.is_empty() {
            return None;
        }
        let tail: u16 = self.tail;
        let byte: u8 = self.buf[tail as usize % N];
        self.tail = tail.wrapping_add(1);
        proof {
            let n = old(self).count();
            assert forall|i: int| 0 <= i < n - 1 implies #[trigger] self@[i] == old(self)@[i + 1] by {
                lemma_wrap(N, self.tail + i);
            }
            assert(self@ =~= old(self)@.drop_first());
        }
        Some(byte)
    }

    /// How many bytes were dropped against a full queue; it stops at 255.
    pub fn dropped(&self) -> (r: u8)
        ensures
            r == self.lost(),
    {
        self.dropped
    }
}

/// Counters that wrap at 2^16 name the same slot before and after.
proof fn lemma_wrap(n: usize, a: int)
    requires
        valid_capacity(n),
    ensures
        (a + 0x1_0000) % (n as int) == a % (n as int),
        (a - 0x1_0000) % (n as int) == a % (n as int),
{
}

/// Counters less than a capacity apart name different slots.
proof fn lemma_apart(n: usize, a: int, d: int)
    requires
        valid_capacity(n),
        0 < d < n,
    ensures
        (a + d) % (n as int) != a % (n as int),
{
    let m = n as int;
    let p = a / m;
    let q = (a + d) / m;
    assert(a == m * p + a % m) by (nonlinear_arith)
        requires
            m > 0,
            p == a / m,
    ;
    assert(a + d == m * q + (a + d) % m) by (nonlinear_arith)
        requires
            m > 0,
            q == (a + d) / m,
    ;
    assert(d != m * q - m * p) by (nonlinear_arith)
        requires
            0 < d < m,
    ;
}

/// What a queue that starts with `held` holds after `sent` is pushed and
/// nothing is taken.
pub open spec fn after_pushes(held: Seq<u8>, sent: Seq<u8>, capacity: nat) -> Seq<u8>
    decreases sent.len(),
{
    if sent.len() == 0 {
        held
    } else {
        let rest = after_pushes(held, sent.drop_last(), capacity);
        if rest.len() < capacity {
            rest.push(sent.last())
        } else {
            rest
        }
    }
}

/// Whatever is sent, the queue holds a prefix of it: the newest bytes are the
/// ones that are lost.
pub proof fn lemma_prefix(sent: Seq<u8>, capacity: nat)
    ensures
        ({
            let held = after_pushes(Seq::empty(), sent, capacity);
            let kept = if sent.len() < capacity {
                sent.len()
            } else {
                capacity
            };
            held =~= sent.take(kept as int)
        }),
    decreases sent.len(),
{
    if sent.len() > 0 {
        lemma_prefix(sent.drop_last(), capacity);
    }
}

/// A queue holds a power of two of bytes, 256 at the most: one, or twice what a
/// smaller one holds.
pub proof fn lemma_capacities(n: usize)
    ensures
        valid_capacity(1),
        n <= 128 && valid_capacity(n) ==> valid_capacity((2 * n) as usize),
        valid_capacity(n) && n != 1 ==> n % 2 == 0 && valid_capacity(n / 2),
        valid_capacity(n) ==> 1 <= n <= 256,
{
}

} // verus!
