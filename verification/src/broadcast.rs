//! Fan-out of the terminal's output: one byte history and a bounded queue of
//! chunks for every subscriber.
//!
//! The history is the tail of everything published, cut at its head where it
//! outgrows its cap. A subscriber is handed the history as a snapshot and
//! from then on every chunk published, in order. One that lets its queue
//! fill loses its oldest chunk once and is closed the next time.

use vstd::prelude::*;
use vstd::slice::slice_subrange;
use vstd::slice::slice_to_vec;
use vstd::utf8::is_continuation_byte;

verus! {

/// The bytes of a run of chunks, one after the other.
pub open spec fn joined(chunks: Seq<Seq<u8>>) -> Seq<u8>
    decreases chunks.len(),
{
    if chunks.len() == 0 {
        Seq::empty()
    } else {
        joined(chunks.drop_last()) + chunks.last()
    }
}

/// First index at or right of `k` whose byte is no continuation byte, or the
/// length of `s` if there is none.
pub open spec fn boundary_from(s: Seq<u8>, k: int) -> int
    decreases s.len() - k,
{
    if 0 <= k < s.len() && is_continuation_byte(s[k]) {
        boundary_from(s, k + 1)
    } else {
        k
    }
}

/// Where a history is cut at its head to fit `cap` bytes: nowhere if it
/// fits, else at the first byte within the last `cap` that does not continue
/// a code point.
pub open spec fn head_cut(s: Seq<u8>, cap: nat) -> int {
    if s.len() <= cap {
        0
    } else {
        boundary_from(s, s.len() - cap)
    }
}

/// A subscriber as a mathematical value.
pub struct SubView {
    /// The chunks that wait to be received, oldest first.
    pub queued: Seq<Seq<u8>>,
    /// A chunk was dropped for this subscriber.
    pub lagged: bool,
    pub closed: bool,
    /// Offset in the published stream at which the snapshot began.
    pub origin: nat,
    /// Offset in the published stream of the first byte still queued.
    pub next: nat,
    /// The snapshot followed by every chunk received since.
    pub seen: Seq<u8>,
}

/// A subscriber after `chunk` was offered to it, the stream being
/// `stream_len` bytes long with the chunk.
pub open spec fn offered(s: SubView, chunk: Seq<u8>, cap: nat, stream_len: nat) -> SubView {
    if s.closed {
        s
    } else if s.queued.len() < cap {
        SubView { queued: s.queued.push(chunk), ..s }
    } else if s.lagged {
        SubView { queued: Seq::empty(), closed: true, ..s }
    } else if s.queued.len() > 0 {
        SubView {
            queued: s.queued.remove(0).push(chunk),
            lagged: true,
            next: s.next + s.queued[0].len(),
            ..s
        }
    } else {
        SubView { lagged: true, next: stream_len, ..s }
    }
}

/// A subscriber after it received the oldest chunk of its queue.
pub open spec fn received(s: SubView) -> SubView
    recommends
        s.queued.len() > 0,
{
    SubView {
        queued: s.queued.remove(0),
        next: s.next + s.queued[0].len(),
        seen: s.seen + s.queued[0],
        ..s
    }
}

/// A subscriber that was closed.
pub open spec fn shut(s: SubView) -> SubView {
    SubView { queued: Seq::empty(), closed: true, ..s }
}

/// What holds of every subscriber of a stream `total`: what it has queued
/// is the rest of the stream, and, unless a chunk was dropped for it, what
/// it has seen is the stream from its snapshot's start up to there.
pub open spec fn sub_wf(s: SubView, total: Seq<u8>, cap: nat) -> bool {
    &&& s.origin <= s.next <= total.len()
    &&& !s.lagged ==> s.seen == total.subrange(s.origin as int, s.next as int)
    &&& s.closed ==> s.queued.len() == 0
    &&& !s.closed ==> s.queued.len() <= cap && joined(s.queued) == total.subrange(
        s.next as int,
        total.len() as int,
    )
}

/// Joining after a push appends the pushed chunk.
pub proof fn lemma_joined_push(chunks: Seq<Seq<u8>>, chunk: Seq<u8>)
    ensures
        joined(chunks.push(chunk)) == joined(chunks) + chunk,
{
    assert(chunks.push(chunk).drop_last() =~= chunks);
}

/// What is joined begins with the first chunk.
pub proof fn lemma_joined_front(chunks: Seq<Seq<u8>>)
    requires
        chunks.len() > 0,
    ensures
        joined(chunks) == chunks[0] + joined(chunks.remove(0)),
    decreases chunks.len(),
{
    if chunks.len() == 1 {
        assert(chunks.drop_last() =~= Seq::<Seq<u8>>::empty());
        assert(chunks.remove(0) =~= Seq::<Seq<u8>>::empty());
        assert(joined(chunks) =~= chunks[0] + joined(chunks.remove(0)));
    } else {
        let front = chunks.drop_last();
        lemma_joined_front(front);
        assert(chunks.remove(0).drop_last() =~= front.remove(0));
        assert(chunks.remove(0).last() == chunks.last());
        assert(joined(chunks) =~= chunks[0] + joined(chunks.remove(0)));
    }
}

/// Where the stream from `next` on is `head` followed by `tail`, `head` is
/// the stream's next stretch and `tail` is what comes after it.
pub proof fn lemma_rest_of_stream(total: Seq<u8>, next: nat, head: Seq<u8>, tail: Seq<u8>)
    requires
        next <= total.len(),
        total.subrange(next as int, total.len() as int) == head + tail,
    ensures
        next + head.len() <= total.len(),
        head == total.subrange(next as int, (next + head.len()) as int),
        tail == total.subrange((next + head.len()) as int, total.len() as int),
{
    let whole = total.subrange(next as int, total.len() as int);
    assert(whole.len() == head.len() + tail.len());
    assert forall|i: int| 0 <= i < head.len() implies head[i] == total[next + i] by {
        assert(whole[i] == head[i]);
    }
    assert forall|i: int| 0 <= i < tail.len() implies tail[i] == total[next + head.len() + i] by {
        assert(whole[head.len() + i] == tail[i]);
    }
    assert(head =~= total.subrange(next as int, (next + head.len()) as int));
    assert(tail =~= total.subrange((next + head.len()) as int, total.len() as int));
}

/// The cut lies within the history, leaves at most `cap` bytes, and where it
/// removes anything what is left does not begin inside a code point.
pub proof fn lemma_head_cut(s: Seq<u8>, cap: nat)
    ensures
        0 <= head_cut(s, cap) <= s.len(),
        s.len() - head_cut(s, cap) <= cap,
        head_cut(s, cap) == 0 || head_cut(s, cap) == s.len() || !is_continuation_byte(
            s[head_cut(s, cap)],
        ),
{
    if s.len() > cap {
        lemma_boundary_from(s, s.len() - cap);
    }
}

proof fn lemma_boundary_from(s: Seq<u8>, k: int)
    requires
        0 <= k <= s.len(),
    ensures
        k <= boundary_from(s, k) <= s.len(),
        boundary_from(s, k) == s.len() || !is_continuation_byte(s[boundary_from(s, k)]),
    decreases s.len() - k,
{
    if k < s.len() && is_continuation_byte(s[k]) {
        lemma_boundary_from(s, k + 1);
    }
}

/// One subscriber: its queue and, as ghost state, where it stands in the
/// published stream.
pub struct Subscriber {
    queue: Vec<Vec<u8>>,
    lagged: bool,
    closed: bool,
    origin: Ghost<nat>,
    next: Ghost<nat>,
    seen: Ghost<Seq<u8>>,
}

impl View for Subscriber {
    type V = SubView;

    closed spec fn view(&self) -> SubView {
        SubView {
            queued: self.queue@.map_values(|c: Vec<u8>| c@),
            lagged: self.lagged,
            closed: self.closed,
            origin: self.origin@,
            next: self.next@,
            seen: self.seen@,
        }
    }
}

impl Subscriber {
    fn offer(&mut self, chunk: &[u8], cap: usize, Ghost(total): Ghost<Seq<u8>>)
        requires
            sub_wf(old(self)@, total, cap as nat),
        ensures
            final(self)@ == offered(old(self)@, chunk@, cap as nat, total.len() + chunk@.len()),
            sub_wf(final(self)@, total + chunk@, cap as nat),
    {
        let ghost before = self@;
        let ghost longer = total + chunk@;
        assert(longer.subrange(before.origin as int, before.next as int) =~= total.subrange(
            before.origin as int,
            before.next as int,
        ));
        if self.closed {
            return ;
        }
        assert(longer.subrange(before.next as int, longer.len() as int) =~= total.subrange(
            before.next as int,
            total.len() as int,
        ) + chunk@);
        if self.queue.len() < cap {
            self.queue.push(slice_to_vec(chunk));
            proof {
                lemma_joined_push(before.queued, chunk@);
                assert(self@.queued =~= before.queued.push(chunk@));
            }
        } else if self.lagged {
            self.queue.clear();
            self.closed = true;
            assert(self@.queued =~= Seq::<Seq<u8>>::empty());
        } else if self.queue.len() > 0 {
            let dropped: Vec<u8> = self.queue.remove(0);
            self.queue.push(slice_to_vec(chunk));
            self.lagged = true;
            self.next = Ghost(before.next + dropped@.len());
            proof {
                let rest = joined(before.queued.remove(0));
                lemma_joined_front(before.queued);
                lemma_joined_push(before.queued.remove(0), chunk@);
                assert(self@.queued =~= before.queued.remove(0).push(chunk@));
                assert(dropped@ == before.queued[0]);
                lemma_rest_of_stream(total, before.next, dropped@, rest);
                assert(longer.subrange(self.next@ as int, longer.len() as int) =~= rest + chunk@);
            }
        } else {
            self.lagged = true;
            self.next = Ghost(longer.len());
            proof {
                assert(self@.queued =~= Seq::<Seq<u8>>::empty());
                assert(longer.subrange(longer.len() as int, longer.len() as int) =~= joined(
                    self@.queued,
                ));
            }
        }
    }

    fn shut(&mut self)
        ensures
            final(self)@ == shut(old(self)@),
    {
        self.queue.clear();
        self.closed = true;
        assert(self@.queued =~= Seq::<Seq<u8>>::empty());
    }
}

/// What a subscriber gets when it asks for its next chunk.
#[derive(Clone, Debug, PartialEq, Eq)]
pub enum Recv {
    /// The oldest chunk of its queue.
    Chunk(Vec<u8>),
    /// Nothing waits for it.
    Empty,
    /// It was closed, or it never subscribed.
    Closed,
}

/// The byte history of a terminal and its subscribers.
pub struct Broadcaster {
    history: Vec<u8>,
    history_cap: usize,
    queue_cap: usize,
    subscribers: Vec<Subscriber>,
    closed: bool,
    total: Ghost<Seq<u8>>,
}

impl Broadcaster {
    /// Everything published so far.
    pub closed spec fn total(&self) -> Seq<u8> {
        self.total@
    }

    /// The tail of the stream that is kept for snapshots.
    pub closed spec fn history(&self) -> Seq<u8> {
        self.history@
    }

    pub closed spec fn history_cap(&self) -> nat {
        self.history_cap as nat
    }

    pub closed spec fn queue_cap(&self) -> nat {
        self.queue_cap as nat
    }

    /// True once the terminal has ended.
    pub closed spec fn is_shut(&self) -> bool {
        self.closed
    }

    /// The number of subscribers that ever joined.
    pub closed spec fn count(&self) -> nat {
        self.subscribers@.len()
    }

    /// The subscriber with the given id.
    pub closed spec fn sub(&self, id: int) -> SubView {
        self.subscribers@[id]@
    }

    /// The history is the tail of the stream within its cap, and
    /// [`sub_wf`] holds of every subscriber.
    pub closed spec fn wf(&self) -> bool {
        &&& self.history@.len() <= self.total@.len()
        &&& self.history@.len() <= self.history_cap
        &&& self.history@ == self.total@.skip(self.total@.len() - self.history@.len())
        &&& forall|id: int|
            0 <= id < self.subscribers@.len() ==> sub_wf(
                #[trigger] self.subscribers@[id]@,
                self.total@,
                self.queue_cap as nat,
            )
    }

    /// A broadcaster with nothing published and nobody subscribed.
    pub fn new(history_cap: usize, queue_cap: usize) -> (b: Broadcaster)
        ensures
            b.wf(),
            b.total() == Seq::<u8>::empty(),
            b.history() == Seq::<u8>::empty(),
            b.history_cap() == history_cap,
            b.queue_cap() == queue_cap,
            b.count() == 0,
            !b.is_shut(),
    {
        let b = Broadcaster {
            history: Vec::new(),
            history_cap,
            queue_cap,
            subscribers: Vec::new(),
            closed: false,
            total: Ghost(Seq::empty()),
        };
        assert(b.total@.skip(0) =~= b.history@);
        b
    }

    pub fn subscriber_count(&self) -> (n: usize)
        ensures
            n == self.count(),
    {
        self.subscribers.len()
    }

    pub fn is_closed(&self) -> (shut: bool)
        ensures
            shut == self.is_shut(),
    {
        self.closed
    }

    /// True when a chunk was dropped for the subscriber.
    pub fn is_lagged(&self, id: usize) -> (lagged: bool)
        ensures
            lagged == (id < self.count() && self.sub(id as int).lagged),
    {
        id < self.subscribers.len() && self.subscribers[id].lagged
    }

    /// Cuts the history at its head where it outgrew its cap.
    fn trim_head(&mut self)
        ensures
            final(self).history@ == old(self).history@.skip(
                head_cut(old(self).history@, old(self).history_cap as nat),
            ),
            final(self).history_cap == old(self).history_cap,
            final(self).queue_cap == old(self).queue_cap,
            final(self).subscribers == old(self).subscribers,
            final(self).closed == old(self).closed,
            final(self).total == old(self).total,
    {
        let n: usize = self.history.len();
        if n <= self.history_cap {
            assert(self.history@.skip(0) =~= self.history@);
            return ;
        }
        let mut k: usize = n - self.history_cap;
        while k < n && self.history[k] >= 0x80 && self.history[k] <= 0xbf
            invariant
                n == self.history@.len(),
                n - self.history_cap <= k <= n,
                boundary_from(self.history@, k as int) == boundary_from(
                    self.history@,
                    n - self.history_cap,
                ),
                *self == *old(self),
            decreases n - k,
        {
            k += 1;
        }
        let kept: Vec<u8> = slice_to_vec(slice_subrange(self.history.as_slice(), k, n));
        assert(kept@ =~= self.history@.skip(k as int));
        self.history = kept;
    }

    /// Publishes one chunk of output: it is added to the stream and to the
    /// history, the history is cut at its head to fit its cap, and the chunk
    /// is offered to every subscriber. After the terminal has ended nothing
    /// is published.
    pub fn publish(&mut self, chunk: &[u8])
        requires
            old(self).wf(),
        ensures
            final(self).wf(),
            final(self).history_cap() == old(self).history_cap(),
            final(self).queue_cap() == old(self).queue_cap(),
            final(self).is_shut() == old(self).is_shut(),
            final(self).count() == old(self).count(),
            old(self).is_shut() ==> {
                &&& final(self).total() == old(self).total()
                &&& final(self).history() == old(self).history()
                &&& forall|id: int|
                    0 <= id < old(self).count() ==> final(self).sub(id) == old(self).sub(id)
            },
            !old(self).is_shut() ==> {
                &&& final(self).total() == old(self).total() + chunk@
                &&& final(self).history() == (old(self).history() + chunk@).skip(
                    head_cut(old(self).history() + chunk@, old(self).history_cap()),
                )
                &&& forall|id: int|
                    0 <= id < old(self).count() ==> final(self).sub(id) == offered(
                        old(self).sub(id),
                        chunk@,
                        old(self).queue_cap(),
                        old(self).total().len() + chunk@.len(),
                    )
            },
    {
        if self.closed {
            return ;
        }
        let ghost before = self.total@;
        let ghost longer = before + chunk@;
        let ghost appended = self.history@ + chunk@;
        self.history.extend_from_slice(chunk);
        assert(self.history@ == appended);
        self.trim_head();
        self.total = Ghost(longer);
        proof {
            lemma_head_cut(appended, self.history_cap as nat);
            assert(appended =~= longer.skip(longer.len() - appended.len()));
            assert(self.history@ =~= longer.skip(longer.len() - self.history@.len()));
        }
        let n: usize = self.subscribers.len();
        let cap: usize = self.queue_cap;
        let mut i: usize = 0;
        while i < n
            invariant
                i <= n,
                n == self.subscribers@.len(),
                n == old(self).subscribers@.len(),
                cap == self.queue_cap,
                old(self).wf(),
                before == old(self).total@,
                longer == before + chunk@,
                self.total@ == longer,
                self.history_cap == old(self).history_cap,
                self.queue_cap == old(self).queue_cap,
                self.closed == old(self).closed,
                self.history@ == appended.skip(head_cut(appended, self.history_cap as nat)),
                appended == old(self).history@ + chunk@,
                self.history@.len() <= self.history_cap,
                self.history@.len() <= longer.len(),
                self.history@ == longer.skip(longer.len() - self.history@.len()),
                forall|j: int|
                    0 <= j < i ==> sub_wf(#[trigger] self.subscribers@[j]@, longer, cap as nat),
                forall|j: int|
                    0 <= j < i ==> (#[trigger] self.subscribers@[j])@ == offered(
                        old(self).subscribers@[j]@,
                        chunk@,
                        cap as nat,
                        before.len() + chunk@.len(),
                    ),
                forall|j: int|
                    i <= j < n ==> #[trigger] self.subscribers@[j] == old(self).subscribers@[j],
            decreases n - i,
        {
            assert(sub_wf(old(self).subscribers@[i as int]@, before, cap as nat));
            self.subscribers[i].offer(chunk, cap, Ghost(before));
            i += 1;
        }
    }

    /// Admits a subscriber: it is handed its id and the history as its
    /// snapshot, and from now on every chunk published is queued for it.
    /// One that joins after the terminal has ended is closed from the start.
    pub fn subscribe(&mut self) -> (res: (usize, Vec<u8>))
        requires
            old(self).wf(),
        ensures
            final(self).wf(),
            final(self).total() == old(self).total(),
            final(self).history() == old(self).history(),
            final(self).history_cap() == old(self).history_cap(),
            final(self).queue_cap() == old(self).queue_cap(),
            final(self).is_shut() == old(self).is_shut(),
            final(self).count() == old(self).count() + 1,
            res.0 == old(self).count(),
            res.1@ == old(self).history(),
            final(self).sub(res.0 as int) == (SubView {
                queued: Seq::empty(),
                lagged: false,
                closed: old(self).is_shut(),
                origin: (old(self).total().len() - old(self).history().len()) as nat,
                next: old(self).total().len(),
                seen: old(self).history(),
            }),
            forall|id: int| 0 <= id < old(self).count() ==> final(self).sub(id) == old(self).sub(id),
    {
        let id: usize = self.subscribers.len();
        let snapshot: Vec<u8> = slice_to_vec(self.history.as_slice());
        let sub = Subscriber {
            queue: Vec::new(),
            lagged: false,
            closed: self.closed,
            origin: Ghost((self.total@.len() - self.history@.len()) as nat),
            next: Ghost(self.total@.len()),
            seen: Ghost(self.history@),
        };
        proof {
            assert(sub@.queued =~= Seq::<Seq<u8>>::empty());
            assert(self.total@.subrange(sub@.origin as int, sub@.next as int) =~= self.history@);
            assert(self.total@.subrange(sub@.next as int, self.total@.len() as int) =~= joined(
                sub@.queued,
            ));
        }
        self.subscribers.push(sub);
        (id, snapshot)
    }

    /// Hands the subscriber the oldest chunk of its queue.
    pub fn recv(&mut self, id: usize) -> (res: Recv)
        requires
            old(self).wf(),
        ensures
            final(self).wf(),
            final(self).total() == old(self).total(),
            final(self).history() == old(self).history(),
            final(self).history_cap() == old(self).history_cap(),
            final(self).queue_cap() == old(self).queue_cap(),
            final(self).is_shut() == old(self).is_shut(),
            final(self).count() == old(self).count(),
            forall|other: int|
                0 <= other < old(self).count() && other != id ==> final(self).sub(other) == old(self).sub(other),
            match res {
                Recv::Chunk(chunk) => {
                    &&& id < old(self).count()
                    &&& !old(self).sub(id as int).closed
                    &&& old(self).sub(id as int).queued.len() > 0
                    &&& chunk@ == old(self).sub(id as int).queued[0]
                    &&& final(self).sub(id as int) == received(old(self).sub(id as int))
                },
                Recv::Empty => {
                    &&& id < old(self).count()
                    &&& !old(self).sub(id as int).closed
                    &&& old(self).sub(id as int).queued.len() == 0
                    &&& final(self).sub(id as int) == old(self).sub(id as int)
                },
                Recv::Closed => {
                    &&& id < old(self).count() ==> old(self).sub(id as int).closed && final(self).sub(id as int) == old(self).sub(id as int)
                },
            },
    {
        if id >= self.subscribers.len() {
            return Recv::Closed;
        }
        if self.subscribers[id].closed {
            return Recv::Closed;
        }
        if self.subscribers[id].queue.len() == 0 {
            assert(self.sub(id as int).queued.len() == 0);
            return Recv::Empty;
        }
        let ghost before = self.subscribers@[id as int]@;
        assert(sub_wf(before, self.total@, self.queue_cap as nat));
        let chunk: Vec<u8> = self.subscribers[id].queue.remove(0);
        self.subscribers[id].next = Ghost(before.next + chunk@.len());
        self.subscribers[id].seen = Ghost(before.seen + chunk@);
        proof {
            let total = self.total@;
            lemma_joined_front(before.queued);
            assert(chunk@ == before.queued[0]);
            assert(self.subscribers@[id as int]@.queued =~= before.queued.remove(0));
            lemma_rest_of_stream(total, before.next, chunk@, joined(before.queued.remove(0)));
            if !before.lagged {
                assert(before.seen + chunk@ =~= total.subrange(
                    before.origin as int,
                    (before.next + chunk@.len()) as int,
                ));
            }
        }
        Recv::Chunk(chunk)
    }

    /// Closes one subscriber: what waits for it is dropped and it receives
    /// nothing more.
    pub fn unsubscribe(&mut self, id: usize)
        requires
            old(self).wf(),
        ensures
            final(self).wf(),
            final(self).total() == old(self).total(),
            final(self).history() == old(self).history(),
            final(self).history_cap() == old(self).history_cap(),
            final(self).queue_cap() == old(self).queue_cap(),
            final(self).is_shut() == old(self).is_shut(),
            final(self).count() == old(self).count(),
            forall|other: int|
                0 <= other < old(self).count() ==> final(self).sub(other) == if other == id {
                    shut(old(self).sub(other))
                } else {
                    old(self).sub(other)
                },
    {
        if id < self.subscribers.len() {
            assert(sub_wf(self.subscribers@[id as int]@, self.total@, self.queue_cap as nat));
            self.subscribers[id].shut();
        }
    }

    /// The terminal has ended: every subscriber is closed and nothing more
    /// is published.
    pub fn close(&mut self)
        requires
            old(self).wf(),
        ensures
            final(self).wf(),
            final(self).is_shut(),
            final(self).total() == old(self).total(),
            final(self).history() == old(self).history(),
            final(self).history_cap() == old(self).history_cap(),
            final(self).queue_cap() == old(self).queue_cap(),
            final(self).count() == old(self).count(),
            forall|id: int|
                0 <= id < old(self).count() ==> final(self).sub(id) == shut(old(self).sub(id)),
    {
        self.closed = true;
        let n: usize = self.subscribers.len();
        let mut i: usize = 0;
        while i < n
            invariant
                i <= n,
                n == self.subscribers@.len(),
                n == old(self).subscribers@.len(),
                old(self).wf(),
                self.closed,
                self.total == old(self).total,
                self.history == old(self).history,
                self.history_cap == old(self).history_cap,
                self.queue_cap == old(self).queue_cap,
                forall|j: int|
                    0 <= j < i ==> (#[trigger] self.subscribers@[j])@ == shut(
                        old(self).subscribers@[j]@,
                    ),
                forall|j: int|
                    i <= j < n ==> #[trigger] self.subscribers@[j] == old(self).subscribers@[j],
            decreases n - i,
        {
            self.subscribers[i].shut();
            i += 1;
        }
        assert forall|id: int| 0 <= id < self.subscribers@.len() implies sub_wf(
            #[trigger] self.subscribers@[id]@,
            self.total@,
            self.queue_cap as nat,
        ) by {
            assert(sub_wf(old(self).subscribers@[id]@, self.total@, self.queue_cap as nat));
        }
    }

    /// What a read from the terminal does: bytes are published, and a read
    /// that yields none ends the terminal.
    pub fn on_read(&mut self, bytes: &[u8])
        requires
            old(self).wf(),
        ensures
            final(self).wf(),
            final(self).history_cap() == old(self).history_cap(),
            final(self).queue_cap() == old(self).queue_cap(),
            final(self).count() == old(self).count(),
            final(self).is_shut() == (old(self).is_shut() || bytes@.len() == 0),
            bytes@.len() == 0 ==> final(self).total() == old(self).total() && forall|id: int|
                0 <= id < old(self).count() ==> final(self).sub(id) == shut(old(self).sub(id)),
            bytes@.len() > 0 && !old(self).is_shut() ==> final(self).total() == old(self).total()
                + bytes@ && forall|id: int|
                0 <= id < old(self).count() ==> final(self).sub(id) == offered(
                    old(self).sub(id),
                    bytes@,
                    old(self).queue_cap(),
                    old(self).total().len() + bytes@.len(),
                ),
    {
        if bytes.len() == 0 {
            self.close();
        } else {
            self.publish(bytes);
        }
    }
}

/// What a subscriber has seen is a stretch of the stream without gap or
/// repeat.
///
/// For a subscriber for which no chunk was dropped, the snapshot followed
/// by the chunks received is the stream from where the snapshot began up to
/// the first byte still queued. What is queued is the rest of the stream,
/// so once the queue is drained the snapshot and the chunks received are
/// the whole stream from the snapshot's start on.
pub proof fn lemma_seen_is_contiguous(b: &Broadcaster, id: int)
    requires
        b.wf(),
        0 <= id < b.count(),
        !b.sub(id).lagged,
    ensures
        b.sub(id).origin <= b.sub(id).next <= b.total().len(),
        b.sub(id).seen == b.total().subrange(b.sub(id).origin as int, b.sub(id).next as int),
        !b.sub(id).closed ==> b.sub(id).seen + joined(b.sub(id).queued) == b.total().skip(
            b.sub(id).origin as int,
        ),
        !b.sub(id).closed && b.sub(id).queued.len() == 0 ==> b.sub(id).seen == b.total().skip(
            b.sub(id).origin as int,
        ),
{
    let s = b.sub(id);
    let total = b.total();
    assert(sub_wf(b.subscribers@[id]@, total, b.queue_cap as nat));
    if !s.closed {
        assert(s.seen + joined(s.queued) =~= total.skip(s.origin as int));
        if s.queued.len() == 0 {
            assert(joined(s.queued) =~= Seq::<u8>::empty());
            assert(s.seen + joined(s.queued) =~= s.seen);
        }
    }
}

/// The history is the tail of the stream and fits its cap.
pub proof fn lemma_history_is_tail(b: &Broadcaster)
    requires
        b.wf(),
    ensures
        b.history().len() <= b.history_cap(),
        b.history().len() <= b.total().len(),
        b.history() == b.total().skip(b.total().len() - b.history().len()),
{
}

} // verus!
