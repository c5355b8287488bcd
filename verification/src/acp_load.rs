//! The load readings of the cluster gate: peer hops, the owner-to-device
//! segment and the rotation window.

use vstd::prelude::*;
use vstd::string::*;

use crate::acp_cluster::{
    SessionSpan, REQUIRED_ROTATIONS, ROTATION_INTERVAL_SECONDS, SATURATION_THRESHOLD_PERCENT,
    SATURATION_UPLOAD_ATTEMPTS,
};
use crate::acp_real_path::MEMBERSHIP_RESIGN_SPACING_MS;
use crate::acp_wire::{count_method, message_views, typed_id, typed_id_of, with_method};
use crate::error::{ErrorView, HarnessError};
use crate::json::{Json, JsonView};
use crate::ordered::OrderedSet;
use crate::text::{decimal, decimal_text, same_text, views};

verus! {

/// Bytes in flight in both directions of a hop, at one instant.
#[derive(Clone, Copy, Debug, Default, Eq, PartialEq, Structural)]
pub struct HopBytePair {
    pub send_bytes: usize,
    pub receive_bytes: usize,
}

impl HopBytePair {
    /// The smaller half of the pair.
    pub open spec fn least(self) -> usize {
        if self.send_bytes < self.receive_bytes {
            self.send_bytes
        } else {
            self.receive_bytes
        }
    }

    /// The smaller half of the pair.
    pub fn smaller(&self) -> (bytes: usize)
        ensures
            bytes == self.least(),
    {
        if self.send_bytes < self.receive_bytes {
            self.send_bytes
        } else {
            self.receive_bytes
        }
    }
}

/// An idle hop.
pub open spec fn idle() -> HopBytePair {
    HopBytePair { send_bytes: 0, receive_bytes: 0 }
}

/// Of two instants, the better attested: the one whose smaller half is larger,
/// and the first where they are equal.  The pair is kept whole; two maxima of
/// two instants say nothing about one.
pub open spec fn attested(best: HopBytePair, other: HopBytePair) -> HopBytePair {
    if other.least() > best.least() {
        other
    } else {
        best
    }
}

/// Of two instants, the better attested.
pub fn better(best: HopBytePair, other: HopBytePair) -> (pair: HopBytePair)
    ensures
        pair == attested(best, other),
{
    if other.smaller() > best.smaller() {
        other
    } else {
        best
    }
}

/// The larger of two sizes.
pub open spec fn larger(a: usize, b: usize) -> usize {
    if a < b {
        b
    } else {
        a
    }
}

fn max_of(a: usize, b: usize) -> (size: usize)
    ensures
        size == larger(a, b),
{
    if a < b {
        b
    } else {
        a
    }
}

/// The hop figures of one terminated exchange.
pub struct HopRecord {
    pub role: String,
    pub peer_send_in_flight_high_water: usize,
    pub peer_receive_queue_high_water: usize,
    pub peer_window: usize,
    pub peer_coincident: HopBytePair,
}

/// The high-water figures of the exchanges of one role: bytes sent and not
/// consumed, bytes received and not consumed, and the credit window.
pub open spec fn high_water(records: Seq<HopRecord>, role: Seq<char>) -> (usize, usize, usize)
    decreases records.len(),
{
    if records.len() == 0 {
        (0usize, 0usize, 0usize)
    } else {
        let front = high_water(records.drop_last(), role);
        let last = records.last();
        if last.role@ == role {
            (
                larger(front.0, last.peer_send_in_flight_high_water),
                larger(front.1, last.peer_receive_queue_high_water),
                larger(front.2, last.peer_window),
            )
        } else {
            front
        }
    }
}

/// The high-water figures of the exchanges of one role.
pub fn hop_high_water(records: &Vec<HopRecord>, role: &str) -> (figures: (usize, usize, usize))
    ensures
        figures == high_water(records@, role@),
{
    let mut flight: usize = 0;
    let mut queue: usize = 0;
    let mut window: usize = 0;
    let mut i: usize = 0;
    assert(records@.take(0) =~= Seq::<HopRecord>::empty());
    while i < records.len()
        invariant
            i <= records.len(),
            (flight, queue, window) == high_water(records@.take(i as int), role@),
        decreases records.len() - i,
    {
        assert(records@.take(i + 1).drop_last() =~= records@.take(i as int));
        if same_text(records[i].role.as_str(), role) {
            flight = max_of(flight, records[i].peer_send_in_flight_high_water);
            queue = max_of(queue, records[i].peer_receive_queue_high_water);
            window = max_of(window, records[i].peer_window);
        }
        i += 1;
    }
    assert(records@.take(i as int) =~= records@);
    (flight, queue, window)
}

/// The best attested pair of the terminated exchanges of one role.
pub open spec fn best_recorded(records: Seq<HopRecord>, role: Seq<char>) -> HopBytePair
    decreases records.len(),
{
    if records.len() == 0 {
        idle()
    } else {
        let front = best_recorded(records.drop_last(), role);
        if records.last().role@ == role {
            attested(front, records.last().peer_coincident)
        } else {
            front
        }
    }
}

/// The best attested pair of the terminated exchanges of one role.
pub fn recorded_coincident(records: &Vec<HopRecord>, role: &str) -> (pair: HopBytePair)
    ensures
        pair == best_recorded(records@, role@),
{
    let mut best = HopBytePair { send_bytes: 0, receive_bytes: 0 };
    let mut i: usize = 0;
    assert(records@.take(0) =~= Seq::<HopRecord>::empty());
    while i < records.len()
        invariant
            i <= records.len(),
            best == best_recorded(records@.take(i as int), role@),
        decreases records.len() - i,
    {
        assert(records@.take(i + 1).drop_last() =~= records@.take(i as int));
        if same_text(records[i].role.as_str(), role) {
            best = better(best, records[i].peer_coincident);
        }
        i += 1;
    }
    assert(records@.take(i as int) =~= records@);
    best
}

/// The best attested pair was recorded as it is by one exchange of the role,
/// or no exchange of the role loaded both directions; and no exchange of the
/// role attests more.
pub proof fn lemma_best_recorded(records: Seq<HopRecord>, role: Seq<char>)
    ensures
        best_recorded(records, role) == idle() || exists|i: int|
            0 <= i < records.len() && (#[trigger] records[i]).role@ == role
                && records[i].peer_coincident == best_recorded(records, role),
        forall|i: int|
            0 <= i < records.len() && (#[trigger] records[i]).role@ == role
                ==> records[i].peer_coincident.least() <= best_recorded(records, role).least(),
    decreases records.len(),
{
    if records.len() > 0 {
        let front = records.drop_last();
        lemma_best_recorded(front, role);
        let best = best_recorded(records, role);
        let before = best_recorded(front, role);
        assert forall|i: int| 0 <= i < records.len() && (#[trigger] records[i]).role@ == role implies
            records[i].peer_coincident.least() <= best.least() by {
            if i < front.len() {
                assert(front[i] == records[i]);
            }
        }
        if best != before {
            assert(records[records.len() - 1].peer_coincident == best);
        } else if before != idle() {
            let i = choose|i: int|
                0 <= i < front.len() && (#[trigger] front[i]).role@ == role
                    && front[i].peer_coincident == before;
            assert(records[i] == front[i]);
        }
    }
}

/// A hop that is still open.
pub struct LiveHop {
    pub role: String,
    pub live: HopBytePair,
    pub coincident: HopBytePair,
    pub window: usize,
}

/// What the open hops of one role show: the best live pair, the best latched
/// pair and the credit window.
pub open spec fn live_reading(hops: Seq<LiveHop>, role: Seq<char>) -> (
    HopBytePair,
    HopBytePair,
    usize,
)
    decreases hops.len(),
{
    if hops.len() == 0 {
        (idle(), idle(), 0usize)
    } else {
        let front = live_reading(hops.drop_last(), role);
        let last = hops.last();
        if last.role@ == role {
            (
                attested(front.0, last.live),
                attested(front.1, last.coincident),
                larger(front.2, last.window),
            )
        } else {
            front
        }
    }
}

/// What the open hops of one role show.
pub fn hop_live_pair(hops: &Vec<LiveHop>, role: &str) -> (reading: (
    HopBytePair,
    HopBytePair,
    usize,
))
    ensures
        reading == live_reading(hops@, role@),
{
    let mut live = HopBytePair { send_bytes: 0, receive_bytes: 0 };
    let mut coincident = HopBytePair { send_bytes: 0, receive_bytes: 0 };
    let mut window: usize = 0;
    let mut i: usize = 0;
    assert(hops@.take(0) =~= Seq::<LiveHop>::empty());
    while i < hops.len()
        invariant
            i <= hops.len(),
            (live, coincident, window) == live_reading(hops@.take(i as int), role@),
        decreases hops.len() - i,
    {
        assert(hops@.take(i + 1).drop_last() =~= hops@.take(i as int));
        if same_text(hops[i].role.as_str(), role) {
            live = better(live, hops[i].live);
            coincident = better(coincident, hops[i].coincident);
            window = max_of(window, hops[i].window);
        }
        i += 1;
    }
    assert(hops@.take(i as int) =~= hops@);
    (live, coincident, window)
}

/// The sum of a list of sizes.
pub open spec fn total(sizes: Seq<usize>) -> nat
    decreases sizes.len(),
{
    if sizes.len() == 0 {
        0
    } else {
        total(sizes.drop_last()) + sizes.last() as nat
    }
}

proof fn lemma_total_grows(sizes: Seq<usize>, i: int)
    requires
        0 <= i <= sizes.len(),
    ensures
        total(sizes.take(i)) <= total(sizes),
    decreases sizes.len() - i,
{
    if i < sizes.len() {
        assert(sizes.take(i + 1).drop_last() =~= sizes.take(i));
        lemma_total_grows(sizes, i + 1);
    } else {
        assert(sizes.take(i) =~= sizes);
    }
}

fn sum_of(sizes: &Vec<usize>) -> (sum: usize)
    requires
        total(sizes@) <= usize::MAX,
    ensures
        sum == total(sizes@),
{
    let mut sum: usize = 0;
    let mut i: usize = 0;
    assert(sizes@.take(0) =~= Seq::<usize>::empty());
    while i < sizes.len()
        invariant
            i <= sizes.len(),
            total(sizes@) <= usize::MAX,
            sum == total(sizes@.take(i as int)),
        decreases sizes.len() - i,
    {
        proof {
            assert(sizes@.take(i + 1).drop_last() =~= sizes@.take(i as int));
            lemma_total_grows(sizes@, i + 1);
        }
        sum += sizes[i];
        i += 1;
    }
    assert(sizes@.take(i as int) =~= sizes@);
    sum
}

/// The owner's view of the device session in one snapshot pass.
pub struct SegmentSample {
    pub queue_bytes: usize,
    pub data_bytes_high_water: usize,
    pub data_bytes_limit: usize,
    /// Bytes of each stream waiting for send credit, toward the device.
    pub parked_bytes: Vec<usize>,
    /// Bytes of each stream waiting for the reader, from the device.
    pub receive_buffered_bytes: Vec<usize>,
}

/// The sums of a sample fit in their counters.
pub open spec fn sample_fits(sample: SegmentSample) -> bool {
    total(sample.parked_bytes@) <= usize::MAX && total(sample.receive_buffered_bytes@)
        <= usize::MAX
}

/// What the saturation case has seen so far.
#[derive(Clone, Copy, Debug, Eq, PartialEq, Structural)]
pub struct LoadTally {
    /// The best attested instant of the owner-to-device segment: bytes toward
    /// the device and from it.
    pub coherent: HopBytePair,
    pub samples: u64,
    pub queue_peak: usize,
    pub queue_high_water: usize,
    pub queue_limit: usize,
    /// The best live and the best latched pair of the peer hop.
    pub hop_live: HopBytePair,
    pub hop_coincident: HopBytePair,
    pub hop_window: usize,
    pub hop_samples: u64,
}

/// Nothing seen yet.
pub open spec fn no_load() -> LoadTally {
    LoadTally {
        coherent: idle(),
        samples: 0,
        queue_peak: 0,
        queue_high_water: 0,
        queue_limit: 0,
        hop_live: idle(),
        hop_coincident: idle(),
        hop_window: 0,
        hop_samples: 0,
    }
}

/// The tally after one more pass: a reading of the open hops and a sample of
/// the segment.
pub open spec fn after_pass(
    tally: LoadTally,
    reading: (HopBytePair, HopBytePair, usize),
    sample: SegmentSample,
) -> LoadTally {
    LoadTally {
        coherent: attested(
            tally.coherent,
            HopBytePair {
                send_bytes: total(sample.parked_bytes@) as usize,
                receive_bytes: total(sample.receive_buffered_bytes@) as usize,
            },
        ),
        samples: (tally.samples + 1) as u64,
        queue_peak: larger(tally.queue_peak, sample.queue_bytes),
        queue_high_water: sample.data_bytes_high_water,
        queue_limit: sample.data_bytes_limit,
        hop_live: attested(tally.hop_live, reading.0),
        hop_coincident: attested(tally.hop_coincident, reading.1),
        hop_window: larger(tally.hop_window, reading.2),
        hop_samples: (tally.hop_samples + 1) as u64,
    }
}

impl LoadTally {
    /// Nothing seen yet.
    pub fn new() -> (tally: Self)
        ensures
            tally == no_load(),
    {
        let none = HopBytePair { send_bytes: 0, receive_bytes: 0 };
        LoadTally {
            coherent: none,
            samples: 0,
            queue_peak: 0,
            queue_high_water: 0,
            queue_limit: 0,
            hop_live: none,
            hop_coincident: none,
            hop_window: 0,
            hop_samples: 0,
        }
    }

    /// Takes in one pass.
    pub fn observe(
        &mut self,
        reading: (HopBytePair, HopBytePair, usize),
        sample: &SegmentSample,
    )
        requires
            old(self).samples < u64::MAX,
            old(self).hop_samples < u64::MAX,
            sample_fits(*sample),
        ensures
            *final(self) == after_pass(*old(self), reading, *sample),
    {
        let toward = sum_of(&sample.parked_bytes);
        let from = sum_of(&sample.receive_buffered_bytes);
        self.coherent = better(
            self.coherent,
            HopBytePair { send_bytes: toward, receive_bytes: from },
        );
        self.samples = self.samples + 1;
        self.queue_peak = max_of(self.queue_peak, sample.queue_bytes);
        self.queue_high_water = sample.data_bytes_high_water;
        self.queue_limit = sample.data_bytes_limit;
        self.hop_live = better(self.hop_live, reading.0);
        self.hop_coincident = better(self.hop_coincident, reading.1);
        self.hop_window = max_of(self.hop_window, reading.2);
        self.hop_samples = self.hop_samples + 1;
    }
}

/// Whether the case may take one more upload: the budget is not spent and no
/// instant with both directions loaded was seen.
pub fn upload_again(attempts: u64, tally: &LoadTally) -> (again: bool)
    ensures
        again == (attempts < SATURATION_UPLOAD_ATTEMPTS && tally.coherent.least() == 0),
{
    attempts < SATURATION_UPLOAD_ATTEMPTS && tally.coherent.smaller() == 0
}

/// A direction with this many bytes in flight stands at or above the enforced
/// threshold of its window.
pub open spec fn is_saturated(bytes: usize, window: usize) -> bool {
    window > 0 && bytes * 100 >= window * SATURATION_THRESHOLD_PERCENT
}

/// Whether a direction is saturated.
pub fn saturated(bytes: usize, window: usize) -> (answer: bool)
    ensures
        answer == is_saturated(bytes, window),
{
    window > 0 && bytes as u128 * 100 >= window as u128 * SATURATION_THRESHOLD_PERCENT as u128
}

/// A saturated direction stays saturated with more bytes in flight, and a pair
/// is saturated in both directions exactly when its smaller half is.
pub proof fn lemma_saturation(pair: HopBytePair, more: usize, window: usize)
    requires
        pair.least() <= more,
    ensures
        is_saturated(pair.least(), window) ==> is_saturated(more, window),
        is_saturated(pair.least(), window) <==> is_saturated(pair.send_bytes, window)
            && is_saturated(pair.receive_bytes, window),
{
}

/// A part of a window, in whole percent.
pub fn percent_of(bytes: usize, window: usize) -> (percent: u64)
    requires
        bytes * 100 <= u64::MAX,
    ensures
        percent == if window > 0 {
            (bytes * 100) / (window as int)
        } else {
            0int
        },
{
    if window == 0 {
        return 0;
    }
    let hundredfold: u64 = bytes as u64 * 100;
    hundredfold / window as u64
}

/// The window a percentage is stated against: the live hop's where one was
/// seen, or else the terminated record's.
pub fn observed_window(live: usize, recorded: usize) -> (window: usize)
    ensures
        window == if live > 0 {
            live
        } else {
            recorded
        },
{
    if live > 0 {
        live
    } else {
        recorded
    }
}

/// Whether a terminated record already shows the request direction above half
/// of its window, so that the wait for it may end.
pub fn load_shown(in_flight: usize, window: usize) -> (shown: bool)
    ensures
        shown == (window > 0 && in_flight * 2 > window),
{
    window > 0 && in_flight as u128 * 2 > window as u128
}

/// The window is at least as long as the schedule it counts.
pub open spec fn spans_schedule(span_ms: u128) -> bool {
    span_ms >= ROTATION_INTERVAL_SECONDS * REQUIRED_ROTATIONS * 1000
}

/// Whether a rotation window was at least as long as the schedule it counts.
/// A shorter one counted recovery activations, which bump the same counter.
pub fn met_schedule(span_ms: u128) -> (met: bool)
    ensures
        met == spans_schedule(span_ms),
{
    span_ms >= 9000
}

/// The device sockets seen so far.
pub struct SocketTally {
    seen: OrderedSet<String>,
}

impl View for SocketTally {
    type V = Set<Seq<char>>;

    closed spec fn view(&self) -> Set<Seq<char>> {
        self.seen@
    }
}

impl SocketTally {
    /// The addresses are kept in order.
    pub closed spec fn wf(&self) -> bool {
        self.seen.wf()
    }

    /// No socket seen yet.
    pub fn new() -> (tally: Self)
        ensures
            tally.wf(),
            tally@ == Set::<Seq<char>>::empty(),
    {
        SocketTally { seen: OrderedSet::new() }
    }

    /// How many distinct sockets were seen.
    pub fn len(&self) -> (count: usize)
        requires
            self.wf(),
        ensures
            count == self@.len(),
            self@.finite(),
    {
        proof {
            self.seen.lemma_ascending();
        }
        self.seen.len()
    }

    /// Takes in the sockets that are open and returns how many of them had not
    /// been seen.
    pub fn observe(&mut self, open: &Vec<String>) -> (added: usize)
        requires
            old(self).wf(),
        ensures
            final(self).wf(),
            final(self)@ == old(self)@.union(views(open@).to_set()),
            added == final(self)@.len() - old(self)@.len(),
    {
        let before = self.len();
        let ghost first = self@;
        let ghost all = views(open@);
        let mut i: usize = 0;
        assert(first.union(all.take(0).to_set()) =~= first);
        while i < open.len()
            invariant
                i <= open.len(),
                all == views(open@),
                self.wf(),
                self@ == first.union(all.take(i as int).to_set()),
            decreases open.len() - i,
        {
            self.seen.insert(open[i].clone());
            proof {
                assert(all.take(i + 1) =~= all.take(i as int).push(all[i as int]));
                all.take(i as int).lemma_push_to_set_commute(all[i as int]);
                assert(self@ =~= first.union(all.take(i + 1).to_set()));
            }
            i += 1;
        }
        assert(all.take(i as int) =~= all);
        let after = self.len();
        proof {
            vstd::set_lib::lemma_len_subset(first, self@);
        }
        after - before
    }
}

/// How many messages carry an id.
pub open spec fn identified(seen: Seq<JsonView>) -> nat
    decreases seen.len(),
{
    if seen.len() == 0 {
        0
    } else {
        identified(seen.drop_last()) + if typed_id_of(seen.last()) is Some {
            1nat
        } else {
            0
        }
    }
}

/// The ids that the messages carry.
pub open spec fn ids(seen: Seq<JsonView>) -> Set<Seq<char>>
    decreases seen.len(),
{
    if seen.len() == 0 {
        Set::empty()
    } else {
        match typed_id_of(seen.last()) {
            Some(id) => ids(seen.drop_last()).insert(id),
            None => ids(seen.drop_last()),
        }
    }
}

/// A stream never shows more distinct ids than identified messages, and it
/// shows fewer exactly where a message was repeated under an id already seen.
pub proof fn lemma_replay_is_detected(seen: Seq<JsonView>)
    ensures
        ids(seen).finite(),
        ids(seen).len() <= identified(seen),
        ids(seen).len() < identified(seen) <==> exists|i: int, j: int|
            #![trigger seen[i], seen[j]]
            0 <= i < j < seen.len() && typed_id_of(seen[i]) is Some && typed_id_of(seen[i])
                == typed_id_of(seen[j]),
        forall|id: Seq<char>| #[trigger]
            ids(seen).contains(id) <==> exists|i: int|
                #![trigger seen[i]]
                0 <= i < seen.len() && typed_id_of(seen[i]) == Some(id),
    decreases seen.len(),
{
    if seen.len() > 0 {
        let front = seen.drop_last();
        let last = seen.last();
        lemma_replay_is_detected(front);
        assert forall|id: Seq<char>| #[trigger] ids(seen).contains(id) <==> exists|i: int|
            #![trigger seen[i]]
            0 <= i < seen.len() && typed_id_of(seen[i]) == Some(id) by {
            if ids(front).contains(id) {
                let i = choose|i: int|
                    #![trigger front[i]]
                    0 <= i < front.len() && typed_id_of(front[i]) == Some(id);
                assert(seen[i] == front[i]);
            }
            if typed_id_of(last) == Some(id) {
                assert(typed_id_of(seen[seen.len() - 1]) == Some(id));
            }
            if exists|i: int|
                #![trigger seen[i]]
                0 <= i < seen.len() && typed_id_of(seen[i]) == Some(id) {
                let i = choose|i: int|
                    #![trigger seen[i]]
                    0 <= i < seen.len() && typed_id_of(seen[i]) == Some(id);
                if i < front.len() {
                    assert(front[i] == seen[i]);
                }
            }
        }
        if ids(front).len() < identified(front) {
            let (i, j) = choose|i: int, j: int|
                #![trigger front[i], front[j]]
                0 <= i < j < front.len() && typed_id_of(front[i]) is Some && typed_id_of(front[i])
                    == typed_id_of(front[j]);
            assert(seen[i] == front[i] && seen[j] == front[j]);
        }
        if typed_id_of(last) is Some && ids(front).contains(typed_id_of(last)->Some_0) {
            let i = choose|i: int|
                #![trigger front[i]]
                0 <= i < front.len() && typed_id_of(front[i]) == Some(typed_id_of(last)->Some_0);
            assert(seen[i] == front[i]);
            assert(seen[seen.len() - 1] == last);
        }
        if exists|i: int, j: int|
            #![trigger seen[i], seen[j]]
            0 <= i < j < seen.len() && typed_id_of(seen[i]) is Some && typed_id_of(seen[i])
                == typed_id_of(seen[j]) {
            let (i, j) = choose|i: int, j: int|
                #![trigger seen[i], seen[j]]
                0 <= i < j < seen.len() && typed_id_of(seen[i]) is Some && typed_id_of(seen[i])
                    == typed_id_of(seen[j]);
            assert(front[i] == seen[i]);
            if j < front.len() {
                assert(front[j] == seen[j]);
            } else {
                assert(ids(front).contains(typed_id_of(last)->Some_0));
            }
        }
    }
}

fn count_ids(seen: &Vec<Json>) -> (counts: (usize, usize))
    ensures
        counts.0 == identified(message_views(seen@)),
        counts.1 == ids(message_views(seen@)).len(),
{
    let ghost all = message_views(seen@);
    let mut carried: usize = 0;
    let mut distinct: OrderedSet<String> = OrderedSet::new();
    let mut i: usize = 0;
    assert(all.take(0) =~= Seq::<JsonView>::empty());
    while i < seen.len()
        invariant
            i <= seen.len(),
            carried <= i,
            all == message_views(seen@),
            carried == identified(all.take(i as int)),
            distinct.wf(),
            distinct@ == ids(all.take(i as int)),
        decreases seen.len() - i,
    {
        assert(all[i as int] == seen@[i as int]@);
        assert(all.take(i + 1).drop_last() =~= all.take(i as int));
        match typed_id(&seen[i]) {
            Some(id) => {
                carried += 1;
                distinct.insert(id);
            },
            None => {},
        }
        i += 1;
    }
    assert(all.take(i as int) =~= all);
    proof {
        distinct.lemma_ascending();
    }
    (carried, distinct.len())
}

/// What a stream recorded across the rotation window.
pub open spec fn is_span(
    span: SessionSpan,
    session: Seq<char>,
    updates_before: usize,
    seen: Seq<JsonView>,
    stop_reason: Seq<char>,
    alive: bool,
) -> bool {
    &&& span.session@ == session
    &&& span.updates_before == updates_before
    &&& span.callbacks == with_method(seen, "session/request_permission"@)
    &&& span.updates_after == with_method(seen, "session/update"@) - updates_before
    &&& span.stop_reason@ == stop_reason
    &&& span.stream_alive_through_window == alive
    &&& span.distinct_agent_ids == ids(seen).len()
    &&& span.identified_messages == identified(seen)
    &&& span.messages == seen.len()
}

/// Reduces what a session's stream carried to its evidence.  The updates
/// before the window are among those of the whole stream.
pub fn session_span(
    session: &str,
    updates_before: usize,
    seen: &Vec<Json>,
    stop_reason: &str,
    alive: bool,
) -> (span: SessionSpan)
    requires
        updates_before <= with_method(message_views(seen@), "session/update"@),
    ensures
        is_span(span, session@, updates_before, message_views(seen@), stop_reason@, alive),
{
    let updates = count_method(seen, "session/update");
    let callbacks = count_method(seen, "session/request_permission");
    let (identified_messages, distinct_agent_ids) = count_ids(seen);
    SessionSpan {
        session: session.to_owned(),
        updates_before,
        callbacks,
        updates_after: updates - updates_before,
        stop_reason: stop_reason.to_owned(),
        stream_alive_through_window: alive,
        distinct_agent_ids,
        identified_messages,
        messages: seen.len(),
    }
}

/// How many messages carry this number as their id.
pub open spec fn with_number_id(seen: Seq<JsonView>, number: u64) -> nat
    decreases seen.len(),
{
    if seen.len() == 0 {
        0
    } else {
        let here = match seen.last().get("id"@) {
            Some(id) => id.as_u64() == Some(number),
            None => false,
        };
        with_number_id(seen.drop_last(), number) + if here {
            1nat
        } else {
            0
        }
    }
}

/// How many messages carry this number as their id.
pub fn count_number_id(seen: &Vec<Json>, number: u64) -> (count: usize)
    ensures
        count == with_number_id(message_views(seen@), number),
        count <= seen.len(),
{
    let ghost all = message_views(seen@);
    let mut count: usize = 0;
    let mut i: usize = 0;
    assert(all.take(0) =~= Seq::<JsonView>::empty());
    while i < seen.len()
        invariant
            i <= seen.len(),
            count <= i,
            all == message_views(seen@),
            count == with_number_id(all.take(i as int), number),
        decreases seen.len() - i,
    {
        assert(all[i as int] == seen@[i as int]@);
        assert(all.take(i + 1).drop_last() =~= all.take(i as int));
        let here = match seen[i].get("id") {
            Some(id) => match id.as_u64() {
                Some(found) => found == number,
                None => false,
            },
            None => false,
        };
        if here {
            count += 1;
        }
        i += 1;
    }
    assert(all.take(i as int) =~= all);
    count
}

/// Whether each of two callers got its own reply to the shared id, exactly
/// once.  A cross-routed answer would show as two on one stream.
pub fn replies_routed(
    first: &Vec<Json>,
    first_stop: &str,
    second: &Vec<Json>,
    second_stop: &str,
    id: u64,
) -> (routed: bool)
    ensures
        routed == (first_stop@ == "end_turn"@ && second_stop@ == "end_turn"@ && with_number_id(
            message_views(first@),
            id,
        ) == 1 && with_number_id(message_views(second@), id) == 1),
{
    same_text(first_stop, "end_turn") && same_text(second_stop, "end_turn") && count_number_id(
        first,
        id,
    ) == 1 && count_number_id(second, id) == 1
}

/// Whether membership is due to be re-signed at a case boundary.
pub fn resign_due(elapsed_ms: u128) -> (due: bool)
    ensures
        due == (elapsed_ms >= MEMBERSHIP_RESIGN_SPACING_MS),
{
    elapsed_ms >= MEMBERSHIP_RESIGN_SPACING_MS
}

/// What to do after one look at something that settles.
pub enum Settling {
    Settled,
    Again,
    TimedOut(HarnessError),
}

/// Decides on one route probe after a re-sign: a live route answers anything
/// but 503.
pub fn judge_probe(status: u16, past_deadline: bool) -> (settling: Settling)
    ensures
        if status != 503 {
            settling is Settled
        } else if past_deadline {
            settling is TimedOut && settling->TimedOut_0@ == ErrorView::Timeout(
                "the ingress route still answered 503 45s after a membership re-sign"@,
            )
        } else {
            settling is Again
        },
{
    if status != 503 {
        Settling::Settled
    } else if past_deadline {
        Settling::TimedOut(
            HarnessError::timeout(
                "the ingress route still answered 503 45s after a membership re-sign",
            ),
        )
    } else {
        Settling::Again
    }
}

/// What the running relays wait for to come back.
#[derive(Clone, Copy, Debug, Eq, PartialEq, Structural)]
pub enum Readiness {
    /// Their peer runtimes, after a re-sign.
    Peers,
    /// Their membership runtimes, after a key rotation.
    Membership,
}

impl Readiness {
    /// What is said where it did not come back.
    pub open spec fn complaint(self) -> Seq<char> {
        match self {
            Readiness::Peers => "peer readiness did not return after a membership re-sign"@,
            Readiness::Membership =>
                "membership readiness did not return within 20s after the key rotation"@,
        }
    }
}

/// Decides on one look at the readiness of every running relay.
pub fn judge_readiness(what: Readiness, ready: &Vec<bool>, past_deadline: bool) -> (settling:
    Settling)
    ensures
        if forall|i: int| 0 <= i < ready@.len() ==> #[trigger] ready@[i] {
            settling is Settled
        } else if past_deadline {
            settling is TimedOut && settling->TimedOut_0@ == ErrorView::Timeout(what.complaint())
        } else {
            settling is Again
        },
{
    let mut i: usize = 0;
    while i < ready.len()
        invariant
            i <= ready.len(),
            forall|k: int| 0 <= k < i ==> #[trigger] ready@[k],
        decreases ready.len() - i,
    {
        if !ready[i] {
            assert(!ready@[i as int]);
            if !past_deadline {
                return Settling::Again;
            }
            return Settling::TimedOut(
                match what {
                    Readiness::Peers => HarnessError::timeout(
                        "peer readiness did not return after a membership re-sign",
                    ),
                    Readiness::Membership => HarnessError::timeout(
                        "membership readiness did not return within 20s after the key rotation",
                    ),
                },
            );
        }
        i += 1;
    }
    Settling::Settled
}

/// Decides on one look at the device's sockets between rotations: settled is
/// an active session without a candidate and with exactly two sockets.
pub fn judge_sockets(phase: &str, has_candidate: bool, open: usize, past_deadline: bool) -> (settling:
    Settling)
    ensures
        if phase@ == "active"@ && !has_candidate && open == 2 {
            settling is Settled
        } else if past_deadline {
            settling is TimedOut && settling->TimedOut_0@ == ErrorView::Timeout(
                "the device never settled between rotations; "@ + decimal(open as nat)
                    + " sockets open at the bound"@,
            )
        } else {
            settling is Again
        },
{
    if same_text(phase, "active") && !has_candidate && open == 2 {
        Settling::Settled
    } else if past_deadline {
        let count = decimal_text(open as u128);
        Settling::TimedOut(
            HarnessError::Timeout(
                "the device never settled between rotations; ".to_owned().concat(
                    count.as_str(),
                ).concat(" sockets open at the bound"),
            ),
        )
    } else {
        Settling::Again
    }
}

/// The public route of an ACP export at an ingress.
pub open spec fn route_uri(port: u16, device: Seq<char>, service: Seq<char>) -> Seq<char> {
    "https://localhost:"@ + decimal(port as nat) + "/v1/devices/"@ + device + "/services/"@
        + service + "/http/acp"@
}

/// The public route of an ACP export at an ingress.
pub fn acp_route_uri(port: u16, device: &str, service: &str) -> (uri: String)
    ensures
        uri@ == route_uri(port, device@, service@),
{
    let number = decimal_text(port as u128);
    "https://localhost:".to_owned().concat(number.as_str()).concat("/v1/devices/").concat(
        device,
    ).concat("/services/").concat(service).concat("/http/acp")
}

/// Whether the consumer enters at a relay that does not own the device.
pub fn is_non_owner_ingress(owner: &str, ingress: &str) -> (answer: bool)
    ensures
        answer == (owner@ == "relay-a"@ && ingress@ == "relay-c"@),
{
    same_text(owner, "relay-a") && same_text(ingress, "relay-c")
}

/// Records that a case ran to its end: its name, and the age of the membership
/// records in force if that is the greatest so far.
pub fn record_case(
    executed: &mut Vec<String>,
    max_age_ms: &mut u128,
    case: &str,
    membership_age_ms: u128,
)
    ensures
        views(final(executed)@) == views(old(executed)@).push(case@),
        *final(max_age_ms) == if *old(max_age_ms) < membership_age_ms {
            membership_age_ms
        } else {
            *old(max_age_ms)
        },
{
    let ghost before = executed@;
    executed.push(case.to_owned());
    assert(views(executed@) =~= views(before).push(case@));
    if *max_age_ms < membership_age_ms {
        *max_age_ms = membership_age_ms;
    }
}

/// The smaller half of a pair is one of its halves and exceeds neither.
pub proof fn lemma_smaller_half(pair: HopBytePair)
    ensures
        pair.least() <= pair.send_bytes && pair.least() <= pair.receive_bytes,
        pair.least() == pair.send_bytes || pair.least() == pair.receive_bytes,
{
}

/// The better attested of two instants is one of the two as it was seen, loads
/// its weaker direction at least as much as either, and is the first unless the
/// second loads it more.
pub proof fn lemma_better_attested(best: HopBytePair, other: HopBytePair)
    ensures
        attested(best, other) == best || attested(best, other) == other,
        attested(best, other).least() >= best.least(),
        attested(best, other).least() >= other.least(),
        other.least() <= best.least() ==> attested(best, other) == best,
        other.least() > best.least() ==> attested(best, other) == other,
{
}

/// The high-water figures of a role exceed none of those that its exchanges
/// recorded, and each is zero or was recorded by an exchange of the role.
pub proof fn lemma_high_water(records: Seq<HopRecord>, role: Seq<char>)
    ensures
        forall|i: int|
            0 <= i < records.len() && (#[trigger] records[i]).role@ == role ==> {
                &&& records[i].peer_send_in_flight_high_water <= high_water(records, role).0
                &&& records[i].peer_receive_queue_high_water <= high_water(records, role).1
                &&& records[i].peer_window <= high_water(records, role).2
            },
        high_water(records, role).0 == 0 || exists|i: int|
            0 <= i < records.len() && (#[trigger] records[i]).role@ == role
                && records[i].peer_send_in_flight_high_water == high_water(records, role).0,
        high_water(records, role).1 == 0 || exists|i: int|
            0 <= i < records.len() && (#[trigger] records[i]).role@ == role
                && records[i].peer_receive_queue_high_water == high_water(records, role).1,
        high_water(records, role).2 == 0 || exists|i: int|
            0 <= i < records.len() && (#[trigger] records[i]).role@ == role
                && records[i].peer_window == high_water(records, role).2,
    decreases records.len(),
{
    if records.len() > 0 {
        let front = records.drop_last();
        let before = high_water(front, role);
        let now = high_water(records, role);
        lemma_high_water(front, role);
        assert(records[records.len() - 1] == records.last());
        assert forall|i: int| 0 <= i < records.len() && (#[trigger] records[i]).role@ == role implies {
            &&& records[i].peer_send_in_flight_high_water <= now.0
            &&& records[i].peer_receive_queue_high_water <= now.1
            &&& records[i].peer_window <= now.2
        } by {
            if i < front.len() {
                assert(front[i] == records[i]);
            }
        }
        if now.0 == before.0 && now.0 != 0 {
            let i = choose|i: int|
                0 <= i < front.len() && (#[trigger] front[i]).role@ == role
                    && front[i].peer_send_in_flight_high_water == before.0;
            assert(records[i] == front[i]);
        }
        if now.1 == before.1 && now.1 != 0 {
            let i = choose|i: int|
                0 <= i < front.len() && (#[trigger] front[i]).role@ == role
                    && front[i].peer_receive_queue_high_water == before.1;
            assert(records[i] == front[i]);
        }
        if now.2 == before.2 && now.2 != 0 {
            let i = choose|i: int|
                0 <= i < front.len() && (#[trigger] front[i]).role@ == role
                    && front[i].peer_window == before.2;
            assert(records[i] == front[i]);
        }
    }
}

/// What the open hops of a role show covers each of them, and each figure is
/// that of an idle hop or was shown by one hop of the role as it is.
pub proof fn lemma_live_reading(hops: Seq<LiveHop>, role: Seq<char>)
    ensures
        forall|i: int|
            0 <= i < hops.len() && (#[trigger] hops[i]).role@ == role ==> {
                &&& hops[i].live.least() <= live_reading(hops, role).0.least()
                &&& hops[i].coincident.least() <= live_reading(hops, role).1.least()
                &&& hops[i].window <= live_reading(hops, role).2
            },
        live_reading(hops, role).0 == idle() || exists|i: int|
            0 <= i < hops.len() && (#[trigger] hops[i]).role@ == role && hops[i].live
                == live_reading(hops, role).0,
        live_reading(hops, role).1 == idle() || exists|i: int|
            0 <= i < hops.len() && (#[trigger] hops[i]).role@ == role && hops[i].coincident
                == live_reading(hops, role).1,
        live_reading(hops, role).2 == 0 || exists|i: int|
            0 <= i < hops.len() && (#[trigger] hops[i]).role@ == role && hops[i].window
                == live_reading(hops, role).2,
    decreases hops.len(),
{
    if hops.len() > 0 {
        let front = hops.drop_last();
        let before = live_reading(front, role);
        let now = live_reading(hops, role);
        lemma_live_reading(front, role);
        assert(hops[hops.len() - 1] == hops.last());
        assert forall|i: int| 0 <= i < hops.len() && (#[trigger] hops[i]).role@ == role implies {
            &&& hops[i].live.least() <= now.0.least()
            &&& hops[i].coincident.least() <= now.1.least()
            &&& hops[i].window <= now.2
        } by {
            if i < front.len() {
                assert(front[i] == hops[i]);
            }
        }
        if now.0 == before.0 && now.0 != idle() {
            let i = choose|i: int|
                0 <= i < front.len() && (#[trigger] front[i]).role@ == role && front[i].live
                    == before.0;
            assert(hops[i] == front[i]);
        }
        if now.1 == before.1 && now.1 != idle() {
            let i = choose|i: int|
                0 <= i < front.len() && (#[trigger] front[i]).role@ == role && front[i].coincident
                    == before.1;
            assert(hops[i] == front[i]);
        }
        if now.2 == before.2 && now.2 != 0 {
            let i = choose|i: int|
                0 <= i < front.len() && (#[trigger] front[i]).role@ == role && front[i].window
                    == before.2;
            assert(hops[i] == front[i]);
        }
    }
}

/// The sizes of two lists in a row add up, and one size is its own sum.
pub proof fn lemma_total_adds_up(first: Seq<usize>, second: Seq<usize>, one: usize)
    ensures
        total(first + second) == total(first) + total(second),
        total(seq![one]) == one,
    decreases second.len(),
{
    reveal_with_fuel(total, 2);
    assert(seq![one].drop_last() =~= Seq::empty());
    if second.len() == 0 {
        assert(first + second =~= first);
    } else {
        assert((first + second).drop_last() =~= first + second.drop_last());
        lemma_total_adds_up(first, second.drop_last(), one);
    }
}

/// One more pass: it is counted once for the segment and once for the hop, its
/// own sums are one coherent instant of which the tally keeps the better
/// attested, peaks never fall and cover it, and the queue's figures are its own.
pub proof fn lemma_pass_is_taken_in(
    tally: LoadTally,
    reading: (HopBytePair, HopBytePair, usize),
    sample: SegmentSample,
)
    requires
        tally.samples < u64::MAX,
        tally.hop_samples < u64::MAX,
        sample_fits(sample),
    ensures
        ({
            let after = after_pass(tally, reading, sample);
            let toward = total(sample.parked_bytes@);
            let from = total(sample.receive_buffered_bytes@);
            &&& after.samples == tally.samples + 1
            &&& after.hop_samples == tally.hop_samples + 1
            &&& after.queue_high_water == sample.data_bytes_high_water
            &&& after.queue_limit == sample.data_bytes_limit
            &&& after.queue_peak >= tally.queue_peak && after.queue_peak >= sample.queue_bytes
            &&& after.queue_peak == tally.queue_peak || after.queue_peak == sample.queue_bytes
            &&& after.hop_window >= tally.hop_window && after.hop_window >= reading.2
            &&& after.hop_window == tally.hop_window || after.hop_window == reading.2
            &&& after.coherent == tally.coherent || (after.coherent.send_bytes == toward
                && after.coherent.receive_bytes == from)
            &&& after.coherent.least() >= tally.coherent.least()
            &&& toward > tally.coherent.least() && from > tally.coherent.least()
                ==> after.coherent.send_bytes == toward && after.coherent.receive_bytes == from
            &&& after.hop_live == tally.hop_live || after.hop_live == reading.0
            &&& after.hop_live.least() >= tally.hop_live.least()
            &&& after.hop_live.least() >= reading.0.least()
            &&& after.hop_coincident == tally.hop_coincident || after.hop_coincident == reading.1
            &&& after.hop_coincident.least() >= tally.hop_coincident.least()
            &&& after.hop_coincident.least() >= reading.1.least()
        }),
{
}

/// A direction is saturated exactly from nine tenths of its window on, and one
/// without a window never is.
pub proof fn lemma_saturated_from_nine_tenths(bytes: usize, window: usize)
    ensures
        is_saturated(bytes, window) <==> window > 0 && 10 * bytes >= 9 * window,
        window > 0 ==> is_saturated(window, window) && !is_saturated(0, window),
{
}

/// A window spans its schedule exactly from nine seconds on: three rotations,
/// three seconds apart.
pub proof fn lemma_schedule(span_ms: u128)
    ensures
        spans_schedule(span_ms) <==> span_ms >= 9000,
{
}

/// The identified messages of two streams in a row are those of each, and one
/// message counts exactly when it has an id that is a text or a number.
pub proof fn lemma_identified_adds_up(first: Seq<JsonView>, second: Seq<JsonView>, one: JsonView)
    ensures
        identified(first + second) == identified(first) + identified(second),
        identified(seq![one]) == if (one.get("id"@) matches Some(JsonView::Text(_))) || (one.get("id"@) matches Some(
            JsonView::Number(_, _),
        )) {
            1nat
        } else {
            0
        },
    decreases second.len(),
{
    reveal_with_fuel(identified, 2);
    assert(seq![one].drop_last() =~= Seq::empty());
    if second.len() == 0 {
        assert(first + second =~= first);
    } else {
        assert((first + second).drop_last() =~= first + second.drop_last());
        lemma_identified_adds_up(first, second.drop_last(), one);
    }
}

/// The messages with a number as their id add up, and one counts exactly when
/// its id is that number.
pub proof fn lemma_number_ids_add_up(first: Seq<JsonView>, second: Seq<JsonView>, one: JsonView, number: u64)
    ensures
        with_number_id(first + second, number) == with_number_id(first, number) + with_number_id(second, number),
        with_number_id(seq![one], number) == if one.get("id"@) matches Some(JsonView::Number(Some(found), _)) && found == number {
            1nat
        } else {
            0
        },
    decreases second.len(),
{
    reveal_with_fuel(with_number_id, 2);
    assert(seq![one].drop_last() =~= Seq::empty());
    if second.len() == 0 {
        assert(first + second =~= first);
    } else {
        assert((first + second).drop_last() =~= first + second.drop_last());
        lemma_number_ids_add_up(first, second.drop_last(), one, number);
    }
}

/// What a session's evidence says of its stream: every message is counted, and
/// as many identified messages as distinct ids means exactly that no two
/// messages carried the same id.
pub proof fn lemma_span_shows_replays(
    span: SessionSpan,
    session: Seq<char>,
    updates_before: usize,
    seen: Seq<JsonView>,
    stop_reason: Seq<char>,
    alive: bool,
)
    requires
        is_span(span, session, updates_before, seen, stop_reason, alive),
    ensures
        span.messages == seen.len(),
        span.session@ == session,
        span.stop_reason@ == stop_reason,
        span.stream_alive_through_window == alive,
        span.updates_before == updates_before,
        span.updates_before + span.updates_after == with_method(seen, "session/update"@),
        span.callbacks == with_method(seen, "session/request_permission"@),
        span.identified_messages == span.distinct_agent_ids <==> forall|i: int, j: int|
            #![trigger seen[i], seen[j]]
            0 <= i < j < seen.len() && typed_id_of(seen[i]) is Some ==> typed_id_of(seen[i])
                != typed_id_of(seen[j]),
{
    lemma_replay_is_detected(seen);
}

} // verus!
