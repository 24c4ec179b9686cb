//! Data exchanged with front ends, and the bounded buffers that collect captured
//! packets and received text messages between polls.
use vstd::prelude::*;
use std::collections::VecDeque;

verus! {

/// A summary of one captured packet.
pub struct PacketData {
    pub timestamp_ms: u64,
    pub source: String,
    pub source_port: u16,
    pub destination: String,
    pub dest_port: u16,
    pub protocol: String,
    pub flags: String,
    pub length: usize,
}

/// The content of a [`PacketData`], with its strings as character sequences.
pub struct PacketInfo {
    pub timestamp_ms: u64,
    pub source: Seq<char>,
    pub source_port: u16,
    pub destination: Seq<char>,
    pub dest_port: u16,
    pub protocol: Seq<char>,
    pub flags: Seq<char>,
    pub length: nat,
}

impl View for PacketData {
    type V = PacketInfo;

    open spec fn view(&self) -> PacketInfo {
        PacketInfo {
            timestamp_ms: self.timestamp_ms,
            source: self.source@,
            source_port: self.source_port,
            destination: self.destination@,
            dest_port: self.dest_port,
            protocol: self.protocol@,
            flags: self.flags@,
            length: self.length as nat,
        }
    }
}

/// A port scan as a front end asks for it.
pub struct ScanRequest {
    pub host: String,
    pub range: String,
    pub timeout: String,
    pub udp: bool,
    pub concurrency: usize,
}

/// An HTTP request as a front end asks for it.
pub struct HttpRequest {
    pub url: String,
    pub method: String,
    pub body: Option<String>,
    pub headers: Vec<(String, String)>,
    pub repeat: usize,
    pub follow: bool,
    pub max_redirects: usize,
}

/// A text message received by the text listener.
pub struct TextMessage {
    pub timestamp_ms: u64,
    pub peer: String,
    pub message: String,
}

/// How many captured packets are kept between polls.
pub const PACKET_LIMIT: usize = 1000;

/// How many received text messages are kept between polls.
pub const TEXT_LIMIT: usize = 200;

/// A bounded first-in first-out buffer that collects items while a capture runs; when
/// it is full, a new item pushes out the oldest one.
pub struct CaptureBuffer<T> {
    items: VecDeque<T>,
    running: bool,
    limit: usize,
}

/// The content of a buffer after `item` is pushed: appended at the back, and the
/// oldest item dropped when the buffer already held `limit` items.
pub open spec fn pushed<T>(items: Seq<T>, item: T, limit: nat) -> Seq<T> {
    if items.len() >= limit {
        items.drop_first().push(item)
    } else {
        items.push(item)
    }
}

/// The content of a buffer after each of `new_items` is pushed in turn.
pub open spec fn pushed_all<T>(items: Seq<T>, new_items: Seq<T>, limit: nat) -> Seq<T>
    decreases new_items.len(),
{
    if new_items.len() == 0 {
        items
    } else {
        pushed(pushed_all(items, new_items.drop_last(), limit), new_items.last(), limit)
    }
}

/// The number of items a poll for at most `max` items returns.
pub open spec fn poll_count(len: nat, max: nat) -> nat {
    if len < max {
        len
    } else {
        max
    }
}

impl<T> CaptureBuffer<T> {
    /// The buffer's invariant: a positive limit, and no more items than the limit.
    pub open spec fn wf(self) -> bool {
        0 < self.limit() && self.items().len() <= self.limit()
    }

    /// The buffered items, oldest first.
    pub closed spec fn items(self) -> Seq<T> {
        self.items@
    }

    /// Whether the capture that fills the buffer is running.
    pub closed spec fn running(self) -> bool {
        self.running
    }

    /// How many items the buffer keeps.
    pub closed spec fn limit(self) -> nat {
        self.limit as nat
    }

    /// How many items the buffer holds; never more than its limit.
    pub fn len(&self) -> (n: usize)
        requires
            self.wf(),
        ensures
            n == self.items().len(),
            n <= self.limit(),
            0 < self.limit(),
    {
        self.items.len()
    }

    /// An empty, stopped buffer that keeps at most `limit` items.
    pub fn new(limit: usize) -> (b: Self)
        requires
            limit > 0,
        ensures
            b.items() == Seq::<T>::empty(),
            !b.running(),
            b.limit() == limit,
            b.wf(),
    {
        CaptureBuffer { items: VecDeque::new(), running: false, limit }
    }

    /// Whether the capture is running.
    pub fn is_running(&self) -> (r: bool)
        ensures
            r == self.running(),
    {
        self.running
    }

    /// Marks a stopped capture as running and empties its buffer; a running capture is
    /// left as it is. Returns whether the capture was started by this call.
    pub fn begin(&mut self) -> (started: bool)
        requires
            old(self).wf(),
        ensures
            final(self).wf(),
            started == !old(self).running(),
            final(self).running(),
            final(self).limit() == old(self).limit(),
            started ==> final(self).items() == Seq::<T>::empty(),
            !started ==> final(self).items() == old(self).items(),
    {
        if !self.running {
            self.running = true;
            self.items.clear();
            true
        } else {
            false
        }
    }

    /// Marks the capture as stopped; buffered items stay for the next polls.
    pub fn stop(&mut self)
        requires
            old(self).wf(),
        ensures
            final(self).wf(),
            !final(self).running(),
            final(self).items() == old(self).items(),
            final(self).limit() == old(self).limit(),
    {
        self.running = false;
    }

    /// Appends an item, dropping the oldest one when the buffer is full.
    pub fn push_bounded(&mut self, item: T)
        requires
            old(self).wf(),
        ensures
            final(self).wf(),
            final(self).items() == pushed(old(self).items(), item, old(self).limit()),
            final(self).running() == old(self).running(),
            final(self).limit() == old(self).limit(),
    {
        if self.items.len() >= self.limit {
            let _ = self.items.pop_front();
        }
        self.items.push_back(item);
    }

    /// Removes and returns the oldest `max_count` items (all of them if fewer).
    pub fn drain_front(&mut self, max_count: usize) -> (out: Vec<T>)
        requires
            old(self).wf(),
        ensures
            final(self).wf(),
            out@ == old(self).items().take(
                poll_count(old(self).items().len(), max_count as nat) as int,
            ),
            final(self).items() == old(self).items().skip(
                poll_count(old(self).items().len(), max_count as nat) as int,
            ),
            final(self).running() == old(self).running(),
            final(self).limit() == old(self).limit(),
    {
        let ghost orig = self.items@;
        let count = if self.items.len() < max_count {
            self.items.len()
        } else {
            max_count
        };
        let mut out: Vec<T> = Vec::new();
        let mut i: usize = 0;
        while i < count
            invariant
                i <= count <= orig.len(),
                out@ == orig.take(i as int),
                self.items@ == orig.skip(i as int),
                self.running == old(self).running(),
                self.limit == old(self).limit(),
            decreases count - i,
        {
            match self.items.pop_front() {
                Some(x) => {
                    out.push(x);
                },
                None => {},
            }
            i = i + 1;
            assert(out@ =~= orig.take(i as int));
            assert(self.items@ =~= orig.skip(i as int));
        }
        out
    }
}

/// A new packet buffer for the live capture.
pub fn new_packet_capture() -> (b: CaptureBuffer<PacketData>)
    ensures
        b.items() == Seq::<PacketData>::empty(),
        !b.running(),
        b.limit() == PACKET_LIMIT,
        b.wf(),
{
    CaptureBuffer::new(PACKET_LIMIT)
}

/// A new message buffer for the text listener.
pub fn new_text_capture() -> (b: CaptureBuffer<TextMessage>)
    ensures
        b.items() == Seq::<TextMessage>::empty(),
        !b.running(),
        b.limit() == TEXT_LIMIT,
        b.wf(),
{
    CaptureBuffer::new(TEXT_LIMIT)
}

/// Starts the live capture's bookkeeping: returns whether a capture worker must be
/// started (it was not running); the buffer is then empty and running.
pub fn begin_capture(capture: &mut CaptureBuffer<PacketData>) -> (started: bool)
    requires
        old(capture).wf(),
    ensures
        final(capture).wf(),
        started == !old(capture).running(),
        final(capture).running(),
        final(capture).limit() == old(capture).limit(),
        started ==> final(capture).items() == Seq::<PacketData>::empty(),
        !started ==> final(capture).items() == old(capture).items(),
{
    capture.begin()
}

/// Records a captured packet while the capture runs; a stopped capture ignores it.
pub fn add_packet(capture: &mut CaptureBuffer<PacketData>, packet: PacketData)
    requires
        old(capture).wf(),
    ensures
        final(capture).wf(),
        old(capture).running() ==> final(capture).items() == pushed(
            old(capture).items(),
            packet,
            old(capture).limit(),
        ),
        !old(capture).running() ==> final(capture).items() == old(capture).items(),
        final(capture).running() == old(capture).running(),
        final(capture).limit() == old(capture).limit(),
{
    if capture.is_running() {
        capture.push_bounded(packet);
    }
}

/// Hands out the oldest `max_count` captured packets (all of them if fewer), oldest
/// first, and removes them from the buffer.
pub fn poll_packets(capture: &mut CaptureBuffer<PacketData>, max_count: usize) -> (out: Vec<
    PacketData,
>)
    requires
        old(capture).wf(),
    ensures
        final(capture).wf(),
        out@ == old(capture).items().take(
            poll_count(old(capture).items().len(), max_count as nat) as int,
        ),
        final(capture).items() == old(capture).items().skip(
            poll_count(old(capture).items().len(), max_count as nat) as int,
        ),
        final(capture).running() == old(capture).running(),
        final(capture).limit() == old(capture).limit(),
{
    capture.drain_front(max_count)
}

/// Stops the live capture; packets already buffered can still be polled.
pub fn stop_capture(capture: &mut CaptureBuffer<PacketData>)
    requires
        old(capture).wf(),
    ensures
        final(capture).wf(),
        !final(capture).running(),
        final(capture).items() == old(capture).items(),
        final(capture).limit() == old(capture).limit(),
{
    capture.stop()
}

/// Starts the text listener's bookkeeping: returns whether a listener must be started.
pub fn begin_text_listener(capture: &mut CaptureBuffer<TextMessage>) -> (started: bool)
    requires
        old(capture).wf(),
    ensures
        final(capture).wf(),
        started == !old(capture).running(),
        final(capture).running(),
        final(capture).limit() == old(capture).limit(),
        started ==> final(capture).items() == Seq::<TextMessage>::empty(),
        !started ==> final(capture).items() == old(capture).items(),
{
    capture.begin()
}

/// Records a received message, dropping the oldest when the buffer is full. A listener
/// without keep-alive stops after its first message; returns whether to keep listening.
pub fn record_text_message(
    capture: &mut CaptureBuffer<TextMessage>,
    message: TextMessage,
    keep_alive: bool,
) -> (keep_listening: bool)
    requires
        old(capture).wf(),
    ensures
        final(capture).wf(),
        final(capture).items() == pushed(old(capture).items(), message, old(capture).limit()),
        keep_listening == keep_alive,
        final(capture).running() == (old(capture).running() && keep_alive),
        final(capture).limit() == old(capture).limit(),
{
    capture.push_bounded(message);
    if !keep_alive {
        capture.stop();
        false
    } else {
        true
    }
}

/// Hands out the oldest `max_count` received messages, oldest first, and removes them.
pub fn poll_text_messages(capture: &mut CaptureBuffer<TextMessage>, max_count: usize) -> (out:
    Vec<TextMessage>)
    requires
        old(capture).wf(),
    ensures
        final(capture).wf(),
        out@ == old(capture).items().take(
            poll_count(old(capture).items().len(), max_count as nat) as int,
        ),
        final(capture).items() == old(capture).items().skip(
            poll_count(old(capture).items().len(), max_count as nat) as int,
        ),
        final(capture).running() == old(capture).running(),
        final(capture).limit() == old(capture).limit(),
{
    capture.drain_front(max_count)
}

/// Stops the text listener; received messages can still be polled.
pub fn stop_text_listener(capture: &mut CaptureBuffer<TextMessage>)
    requires
        old(capture).wf(),
    ensures
        final(capture).wf(),
        !final(capture).running(),
        final(capture).items() == old(capture).items(),
        final(capture).limit() == old(capture).limit(),
{
    capture.stop()
}

/// A buffer keeps the newest items: pushing `new_items` one by one into a buffer that
/// holds `items` (no more than `limit`) leaves the last `limit` items of `items`
/// followed by `new_items` (all of them if there are fewer), in order.
pub proof fn lemma_buffer_keeps_newest<T>(items: Seq<T>, new_items: Seq<T>, limit: nat)
    requires
        0 < limit,
        items.len() <= limit,
    ensures
        pushed_all(items, new_items, limit) == (items + new_items).skip(
            (items + new_items).len() - poll_count((items + new_items).len(), limit),
        ),
    decreases new_items.len(),
{
    let all = items + new_items;
    let keep = poll_count(all.len(), limit);
    if new_items.len() == 0 {
        assert(all =~= items);
        assert(all.skip(all.len() - keep) =~= items);
    } else {
        let prev = new_items.drop_last();
        lemma_buffer_keeps_newest(items, prev, limit);
        let before = items + prev;
        assert(before =~= all.drop_last());
        let kb = poll_count(before.len(), limit);
        let q = before.skip(before.len() - kb);
        assert(pushed_all(items, new_items, limit) == pushed(q, new_items.last(), limit));
        if q.len() >= limit {
            assert(pushed(q, new_items.last(), limit) =~= all.skip(all.len() - keep));
        } else {
            assert(pushed(q, new_items.last(), limit) =~= all.skip(all.len() - keep));
        }
    }
}

/// Polling hands out a prefix and keeps the rest: what was returned followed by what
/// stays is exactly what the buffer held.
pub proof fn lemma_poll_partitions<T>(items: Seq<T>, max: nat)
    ensures
        items.take(poll_count(items.len(), max) as int) + items.skip(
            poll_count(items.len(), max) as int,
        ) == items,
{
    assert(items.take(poll_count(items.len(), max) as int) + items.skip(
        poll_count(items.len(), max) as int,
    ) =~= items);
}

/// A push never takes a buffer past its limit; into a full buffer it drops the oldest
/// item and appends the new one. With the limit fixed at construction (1000 packets,
/// 200 messages) and kept by every operation, the buffers stay within it.
pub proof fn lemma_pushed_bounded<T>(items: Seq<T>, item: T, limit: nat)
    requires
        0 < limit,
        items.len() <= limit,
    ensures
        pushed(items, item, limit).len() <= limit,
        items.len() == limit ==> pushed(items, item, limit) == items.subrange(1, limit as int).push(
            item,
        ),
        items.len() < limit ==> pushed(items, item, limit) == items.push(item),
{
    if items.len() == limit {
        assert(items.drop_first() =~= items.subrange(1, limit as int));
    }
}

} // verus!
