//! The tunnel server's session table: which client connection is attached,
//! and the streams it carries.
//!
//! A newer attach replaces the previous session. Every operation that names
//! a generation acts only while that generation is still the attached one,
//! so frames from an evicted connection can never reach a stream that the
//! new client opened under the same id.
use vstd::prelude::*;

use std::collections::HashMap;

use crate::egress::protocol::ControlMsg;

verus! {

broadcast use vstd::std_specs::hash::group_hash_axioms;

/// Most streams one session carries at a time.
pub const MAX_STREAMS: usize = 256;

/// One relayed stream: where client bytes go, and who waits for `opened`.
pub struct StreamSlot<S, O> {
    pub from_client: S,
    pub opened: Option<O>,
}

/// The stream id after `n` when counting up `j` steps with `u32` wrapping.
pub open spec fn id_after(n: u32, j: int) -> u32 {
    if n + j > u32::MAX {
        (n + j - 0x1_0000_0000) as u32
    } else {
        (n + j) as u32
    }
}

/// The non-zero ids among the first `k` that `alloc_id` tries.
pub open spec fn tried(n: u32, k: nat) -> Set<u32>
    decreases k,
{
    if k == 0 {
        Set::empty()
    } else {
        let s = tried(n, (k - 1) as nat);
        let c = id_after(n, k as int);
        if c == 0 {
            s
        } else {
            s.insert(c)
        }
    }
}

/// `id` is the first id after `last`, counting up with wrapping, that is
/// neither 0 nor in `used`, within the tries that `alloc_id` makes.
pub open spec fn first_free_after(used: Set<u32>, last: u32, id: u32) -> bool {
    &&& id != 0
    &&& !used.contains(id)
    &&& exists|k: int|
        1 <= k <= MAX_STREAMS + 8 && id == #[trigger] id_after(last, k) && forall|j: int|
            1 <= j < k ==> #[trigger] id_after(last, j) == 0 || used.contains(id_after(last, j))
}

pub open spec fn zero_within(n: u32, k: nat) -> bool {
    exists|j: int| 1 <= j <= k && #[trigger] id_after(n, j) == 0
}

proof fn lemma_tried(n: u32, k: nat)
    requires
        k <= 0x1_0000,
    ensures
        tried(n, k).finite(),
        tried(n, k).len() + (if zero_within(n, k) {
            1nat
        } else {
            0nat
        }) == k,
        forall|x: u32| #[trigger] tried(n, k).contains(x) ==> x != 0,
        forall|x: u32| #[trigger]
            tried(n, k).contains(x) ==> exists|j: int| 1 <= j <= k && #[trigger] id_after(n, j) == x,
        forall|j: int| 1 <= j <= k && id_after(n, j) != 0 ==> #[trigger] tried(n, k).contains(
            id_after(n, j),
        ),
    decreases k,
{
    if k > 0 {
        let km = (k - 1) as nat;
        lemma_tried(n, km);
        let c = id_after(n, k as int);
        assert forall|j: int| 1 <= j <= km implies #[trigger] id_after(n, j) != c by {}
        if c != 0 {
            assert(!tried(n, km).contains(c)) by {
                if tried(n, km).contains(c) {
                    let j = choose|j: int| 1 <= j <= km && #[trigger] id_after(n, j) == c;
                    assert(id_after(n, j) != c);
                }
            }
            if zero_within(n, k) {
                let j = choose|j: int| 1 <= j <= k && #[trigger] id_after(n, j) == 0;
                assert(j != k);
                assert(zero_within(n, km));
            }
            if zero_within(n, km) {
                let j = choose|j: int| 1 <= j <= km && #[trigger] id_after(n, j) == 0;
                assert(zero_within(n, k));
            }
        } else {
            assert(zero_within(n, k));
            assert(!zero_within(n, km)) by {
                if zero_within(n, km) {
                    let j = choose|j: int| 1 <= j <= km && #[trigger] id_after(n, j) == 0;
                    assert(id_after(n, j) != c);
                }
            }
        }
        assert forall|j: int| 1 <= j <= k && id_after(n, j) != 0 implies #[trigger] tried(
            n,
            k,
        ).contains(id_after(n, j)) by {
            if j < k {
                assert(tried(n, km).contains(id_after(n, j)));
            }
        }
        assert forall|x: u32| #[trigger] tried(n, k).contains(x) implies exists|j: int|
            1 <= j <= k && #[trigger] id_after(n, j) == x by {
            if tried(n, km).contains(x) {
                let j = choose|j: int| 1 <= j <= km && #[trigger] id_after(n, j) == x;
                assert(1 <= j <= k && id_after(n, j) == x);
            } else {
                assert(id_after(n, k as int) == x);
            }
        }
    }
}

/// One attached client connection.
pub struct ClientSession<S, O, H> {
    generation: u64,
    handle: H,
    streams: HashMap<u32, StreamSlot<S, O>>,
    next_id: u32,
}

impl<S, O, H> ClientSession<S, O, H> {
    /// Which attach this is; later attaches have larger generations.
    pub closed spec fn gen(&self) -> u64 {
        self.generation
    }

    /// What the caller keeps per connection (its outgoing queue and the
    /// signal that evicts it).
    pub closed spec fn owner(&self) -> H {
        self.handle
    }

    pub fn generation(&self) -> (g: u64)
        ensures
            g == self.gen(),
    {
        self.generation
    }

    pub fn handle(&self) -> (h: &H)
        ensures
            *h == self.owner(),
    {
        &self.handle
    }

    /// The streams by id.
    pub closed spec fn slots(&self) -> Map<u32, StreamSlot<S, O>> {
        self.streams@
    }

    /// The last id handed out (0 before the first).
    pub closed spec fn last_id(&self) -> u32 {
        self.next_id
    }

    /// A fresh session with no streams.
    pub fn new(generation: u64, handle: H) -> (s: Self)
        ensures
            s.gen() == generation,
            s.owner() == handle,
            s.slots() == Map::<u32, StreamSlot<S, O>>::empty(),
            s.last_id() == 0,
    {
        ClientSession { generation, handle, streams: HashMap::new(), next_id: 0 }
    }

    /// How many streams are open.
    pub fn stream_count(&self) -> (n: usize)
        ensures
            n == self.slots().len(),
    {
        self.streams.len()
    }

    /// The next free non-zero stream id, counting up from the last one with
    /// wrapping; `None` after `MAX_STREAMS + 8` tries. With fewer than
    /// `MAX_STREAMS` streams open it always finds one.
    pub fn alloc_id(&mut self) -> (r: Option<u32>)
        ensures
            final(self).slots() == old(self).slots(),
            final(self).gen() == old(self).gen(),
            final(self).owner() == old(self).owner(),
            r matches Some(id) ==> first_free_after(old(self).slots().dom(), old(self).last_id(), id)
                && final(self).last_id() == id,
            old(self).slots().len() < MAX_STREAMS ==> r is Some,
    {
        let ghost n0 = self.next_id;
        let mut k: usize = 0;
        proof {
            lemma_tried(n0, 0);
        }
        while k < MAX_STREAMS + 8
            invariant
                k <= MAX_STREAMS + 8,
                self.streams@ == old(self).streams@,
                self.generation == old(self).generation,
                self.handle == old(self).handle,
                n0 == old(self).next_id,
                self.next_id == id_after(n0, k as int),
                tried(n0, k as nat).subset_of(self.streams@.dom()),
            decreases MAX_STREAMS + 8 - k,
        {
            self.next_id = self.next_id.wrapping_add(1);
            k = k + 1;
            proof {
                lemma_tried(n0, k as nat);
                lemma_tried(n0, (k - 1) as nat);
            }
            if self.next_id != 0 {
                if !self.streams.contains_key(&self.next_id) {
                    proof {
                        let kk = k as int;
                        assert forall|j: int| 1 <= j < kk implies #[trigger] id_after(n0, j) == 0
                            || self.streams@.dom().contains(id_after(n0, j)) by {
                            if id_after(n0, j) != 0 {
                                assert(tried(n0, (k - 1) as nat).contains(id_after(n0, j)));
                            }
                        }
                        assert(self.next_id == id_after(n0, kk));
                    }
                    return Some(self.next_id);
                }
            }
        }
        proof {
            lemma_tried(n0, k as nat);
            vstd::set_lib::lemma_len_subset(tried(n0, k as nat), self.streams@.dom());
        }
        None
    }

    /// Where client bytes for stream `id` go.
    pub fn sender(&self, id: u32) -> (r: Option<&S>)
        ensures
            match r {
                Some(s) => self.slots().contains_key(id) && *s == self.slots()[id].from_client,
                None => !self.slots().contains_key(id),
            },
    {
        match self.streams.get(&id) {
            Some(slot) => Some(&slot.from_client),
            None => None,
        }
    }
}

} // verus!

verus! {

/// The attached session, if any, and the count of attaches so far.
pub struct Sessions<S, O, H> {
    generation: u64,
    current: Option<ClientSession<S, O, H>>,
}

impl<S, O, H> Sessions<S, O, H> {
    /// The generation of the attached session.
    pub closed spec fn live(&self) -> Option<u64> {
        match self.current {
            Some(s) => Some(s.generation),
            None => None,
        }
    }

    /// The streams of the attached session; none when detached.
    pub closed spec fn streams(&self) -> Map<u32, StreamSlot<S, O>> {
        match self.current {
            Some(s) => s.streams@,
            None => Map::empty(),
        }
    }

    /// What the attached connection's owner keeps.
    pub closed spec fn owner(&self) -> Option<H> {
        match self.current {
            Some(s) => Some(s.handle),
            None => None,
        }
    }

    /// How many attaches there have been (wrapping).
    pub closed spec fn attaches(&self) -> u64 {
        self.generation
    }

    /// The last stream id the attached session handed out (0 before its
    /// first, and when detached).
    pub closed spec fn last_stream_id(&self) -> u32 {
        match self.current {
            Some(s) => s.next_id,
            None => 0,
        }
    }

    /// No client attached yet.
    pub fn new() -> (t: Self)
        ensures
            t.live() is None,
            t.attaches() == 0,
    {
        Sessions { generation: 0, current: None }
    }

    /// A client is attached.
    pub fn attached(&self) -> (b: bool)
        ensures
            b == self.live() is Some,
    {
        self.current.is_some()
    }

    /// A new connection attaches and replaces the previous session, which is
    /// handed back so its reader can be told to stop.
    pub fn attach(&mut self, handle: H) -> (r: (u64, Option<ClientSession<S, O, H>>))
        ensures
            final(self).attaches() == (if old(self).attaches() == u64::MAX {
                0
            } else {
                old(self).attaches() + 1
            }),
            r.0 == final(self).attaches(),
            final(self).live() == Some(r.0),
            final(self).owner() == Some(handle),
            final(self).streams() == Map::<u32, StreamSlot<S, O>>::empty(),
            final(self).last_stream_id() == 0,
            match r.1 {
                Some(prev) => old(self).live() == Some(prev.gen()) && old(self).streams()
                    == prev.slots(),
                None => old(self).live() is None,
            },
    {
        self.generation = self.generation.wrapping_add(1);
        let g = self.generation;
        let prev = self.current.take();
        self.current = Some(ClientSession::new(g, handle));
        (g, prev)
    }

    /// The connection of generation `gen` is gone: the session is cleared
    /// only while it is still the attached one.
    pub fn detach(&mut self, gen: u64) -> (cleared: bool)
        ensures
            cleared == (old(self).live() == Some(gen)),
            cleared ==> final(self).live() is None,
            !cleared ==> *final(self) == *old(self),
            final(self).attaches() == old(self).attaches(),
    {
        let mine = match &self.current {
            Some(s) => s.generation == gen,
            None => false,
        };
        if mine {
            self.current = None;
        }
        mine
    }

    /// Where bytes from connection `gen` for stream `id` go: only to a
    /// stream of that connection's own session.
    pub fn route(&self, gen: u64, id: u32) -> (r: Option<&S>)
        ensures
            match r {
                Some(s) => self.live() == Some(gen) && self.streams().contains_key(id) && *s
                    == self.streams()[id].from_client,
                None => self.live() != Some(gen) || !self.streams().contains_key(id),
            },
    {
        match &self.current {
            Some(s) => {
                if s.generation == gen {
                    s.sender(id)
                } else {
                    None
                }
            },
            None => None,
        }
    }

    /// The attached connection's handle.
    pub fn current_handle(&self) -> (r: Option<&H>)
        ensures
            match r {
                Some(h) => self.owner() == Some(*h),
                None => self.owner() is None,
            },
    {
        match &self.current {
            Some(s) => Some(&s.handle),
            None => None,
        }
    }

    /// Open a stream on the attached session, if it has room: a fresh id,
    /// with its client queue and its `opened` waiter. Returns the id and the
    /// session's generation.
    pub fn open_stream(&mut self, from_client: S, opened: O) -> (r: Option<(u32, u64)>)
        ensures
            final(self).live() == old(self).live(),
            final(self).owner() == old(self).owner(),
            final(self).attaches() == old(self).attaches(),
            old(self).live() is Some && old(self).streams().len() < MAX_STREAMS ==> r is Some,
            old(self).live() is None ==> r is None,
            old(self).streams().len() >= MAX_STREAMS ==> r is None,
            match r {
                Some((id, g)) => old(self).live() == Some(g) && id != 0
                    && !old(self).streams().contains_key(id) && first_free_after(
                    old(self).streams().dom(),
                    old(self).last_stream_id(),
                    id,
                ) && final(self).last_stream_id() == id && final(self).streams()
                    == old(self).streams().insert(
                    id,
                    StreamSlot { from_client, opened: Some(opened) },
                ),
                None => final(self).streams() == old(self).streams(),
            },
    {
        match self.current.take() {
            None => None,
            Some(mut s) => {
                if s.streams.len() >= MAX_STREAMS {
                    self.current = Some(s);
                    return None;
                }
                let r = match s.alloc_id() {
                    Some(id) => {
                        s.streams.insert(id, StreamSlot { from_client, opened: Some(opened) });
                        Some((id, s.generation))
                    },
                    None => None,
                };
                self.current = Some(s);
                r
            },
        }
    }

    /// Forget stream `id` of connection `gen`; a straggler from an older
    /// connection cannot remove a stream of the current one.
    pub fn drop_stream(&mut self, gen: u64, id: u32)
        ensures
            final(self).live() == old(self).live(),
            final(self).owner() == old(self).owner(),
            final(self).attaches() == old(self).attaches(),
            old(self).live() == Some(gen) ==> final(self).streams() == old(self).streams().remove(
                id,
            ),
            old(self).live() != Some(gen) ==> final(self).streams() == old(self).streams(),
            final(self).last_stream_id() == old(self).last_stream_id(),
    {
        match self.current.take() {
            None => {},
            Some(mut s) => {
                if s.generation == gen {
                    s.streams.remove(&id);
                }
                self.current = Some(s);
            },
        }
    }

    /// A control message from connection `gen`. `opened` wakes the waiter
    /// of that stream with success; `error` wakes it with the message and
    /// forgets the stream; `close` forgets it. Messages from a connection
    /// that is no longer attached change nothing. Returns the waiter to wake
    /// and what to tell it.
    pub fn on_control(&mut self, gen: u64, msg: ControlMsg) -> (r: Option<(O, Result<(), String>)>)
        ensures
            final(self).live() == old(self).live(),
            final(self).last_stream_id() == old(self).last_stream_id(),
            final(self).owner() == old(self).owner(),
            final(self).attaches() == old(self).attaches(),
            old(self).live() != Some(gen) || msg.stream_of() is None ==> r is None && final(self).streams() == old(self).streams(),
            old(self).live() == Some(gen) ==> match msg {
                ControlMsg::Opened { id, .. } => {
                    if old(self).streams().contains_key(id) && old(self).streams()[id].opened is Some {
                        &&& r == Some((old(self).streams()[id].opened->Some_0, Ok::<(), String>(())))
                        &&& final(self).streams() == old(self).streams().insert(
                            id,
                            StreamSlot {
                                from_client: old(self).streams()[id].from_client,
                                opened: None,
                            },
                        )
                    } else {
                        r is None && final(self).streams() == old(self).streams()
                    }
                },
                ControlMsg::Error { id, message, .. } => {
                    &&& final(self).streams() == old(self).streams().remove(id)
                    &&& if old(self).streams().contains_key(id) && old(self).streams()[id].opened is Some {
                        r == Some((old(self).streams()[id].opened->Some_0, Err::<(), String>(message)))
                    } else {
                        r is None
                    }
                },
                ControlMsg::Close { id, .. } => r is None && final(self).streams() == old(self).streams().remove(id),
                _ => r is None && final(self).streams() == old(self).streams(),
            },
    {
        let id = match msg.stream_id() {
            Some(id) => id,
            None => {
                return None;
            },
        };
        let mut s = match self.current.take() {
            Some(s) => s,
            None => {
                return None;
            },
        };
        if s.generation != gen {
            self.current = Some(s);
            return None;
        }
        let r = match msg {
            ControlMsg::Opened { .. } => {
                match s.streams.remove(&id) {
                    Some(slot) => {
                        let StreamSlot { from_client, opened } = slot;
                        s.streams.insert(id, StreamSlot { from_client, opened: None });
                        match opened {
                            Some(tx) => Some((tx, Ok(()))),
                            None => None,
                        }
                    },
                    None => None,
                }
            },
            ControlMsg::Error { message, .. } => {
                match s.streams.remove(&id) {
                    Some(slot) => match slot.opened {
                        Some(tx) => Some((tx, Err(message))),
                        None => None,
                    },
                    None => None,
                }
            },
            ControlMsg::Close { .. } => {
                s.streams.remove(&id);
                None
            },
            _ => None,
        };
        self.current = Some(s);
        r
    }
}

} // verus!
