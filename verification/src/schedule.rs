//! The scanline schedule of a parallel render.
//!
//! Workers share a [`LineCounter`] and claim one row at a time from it; each
//! renders the row it claimed and sends it, with its index, to a
//! [`Collector`], which puts it in its place in the image. Rows may arrive in
//! any order. [`Run`] models every such execution over the views of the two,
//! and [`lemma_every_row_written_once`] states what holds of all of them.

use crate::graphics::Image;
use vstd::prelude::*;

verus! {

/// What a [`LineCounter`] stands for: of `height` rows, the rows below
/// `claimed` have been handed out.
pub struct Counter {
    pub claimed: nat,
    pub height: nat,
}

impl Counter {
    /// The row that the next claim hands out, if any is left: the lowest
    /// row not handed out before.
    pub open spec fn next_row(self) -> Option<nat> {
        if self.claimed < self.height {
            Some(self.claimed)
        } else {
            None
        }
    }

    /// The counter after the next claim.
    pub open spec fn after_claim(self) -> Counter {
        if self.claimed < self.height {
            Counter { claimed: self.claimed + 1, height: self.height }
        } else {
            self
        }
    }
}

/// The work queue: the index of the next row that no worker has claimed yet.
pub struct LineCounter {
    next: usize,
    height: usize,
}

impl View for LineCounter {
    type V = Counter;

    closed spec fn view(&self) -> Counter {
        Counter { claimed: self.next as nat, height: self.height as nat }
    }
}

impl LineCounter {
    #[verifier::type_invariant]
    spec fn inv(&self) -> bool {
        self.next <= self.height
    }

    /// A counter for an image of `height` rows, none of them claimed.
    pub fn new(height: usize) -> (counter: Self)
        ensures
            counter@ == (Counter { claimed: 0, height: height as nat }),
    {
        LineCounter { next: 0, height }
    }

    /// The number of rows claimed so far.
    pub fn claimed(&self) -> (claimed: usize)
        ensures
            claimed == self@.claimed,
            claimed <= self@.height,
    {
        proof {
            use_type_invariant(self);
        }
        self.next
    }

    /// The number of rows of the image.
    pub fn height(&self) -> (height: usize)
        ensures
            height == self@.height,
    {
        self.height
    }

    /// Claims the next row: the lowest row not claimed before, or `None`
    /// once every row has been claimed.
    pub fn claim(&mut self) -> (row: Option<usize>)
        ensures
            final(self)@ == old(self)@.after_claim(),
            match row {
                Some(y) => old(self)@.next_row() == Some(y as nat),
                None => old(self)@.next_row() is None,
            },
    {
        proof {
            use_type_invariant(&*self);
        }
        let y = self.next;
        if y >= self.height {
            return None;
        }
        self.next = y + 1;
        Some(y)
    }
}

/// What a [`Collector`] stands for: the rows of the image as they stand,
/// and the indices of the rows received so far in order of arrival.
pub struct Board<P> {
    pub width: nat,
    pub height: nat,
    pub rows: Seq<Seq<P>>,
    pub written: Seq<nat>,
}

impl<P> Board<P> {
    /// The board before any row has arrived: every pixel is `fill`.
    pub open spec fn blank(width: nat, height: nat, fill: P) -> Board<P> {
        Board {
            width,
            height,
            rows: Seq::new(height, |y: int| Seq::new(width, |x: int| fill)),
            written: Seq::empty(),
        }
    }

    /// The board after `line` has arrived for row `y`: the line stands at
    /// index `y`, whatever stood there, and `y` ends the record.
    pub open spec fn after_receive(self, y: nat, line: Seq<P>) -> Board<P> {
        Board {
            width: self.width,
            height: self.height,
            rows: self.rows.update(y as int, line),
            written: self.written.push(y),
        }
    }

    /// As many rows have arrived as the image has.
    pub open spec fn is_complete(self) -> bool {
        self.written.len() == self.height
    }
}

/// The count of the rows received, with the record of their indices.
struct Log {
    received: usize,
    written: Ghost<Seq<nat>>,
}

impl Log {
    #[verifier::type_invariant]
    spec fn inv(&self) -> bool {
        self.received == self.written@.len()
    }
}

/// The receiving end: the image under construction and the rows put into it
/// so far.
pub struct Collector<P> {
    image: Image<P>,
    log: Log,
}

impl<P> View for Collector<P> {
    type V = Board<P>;

    closed spec fn view(&self) -> Board<P> {
        Board {
            width: self.image.width() as nat,
            height: self.image.height() as nat,
            rows: self.image@,
            written: self.log.written@,
        }
    }
}

impl<P> Collector<P> {
    #[verifier::type_invariant]
    spec fn inv(&self) -> bool {
        self.log.received <= self.image.height()
    }
}

impl<P: Copy> Collector<P> {
    /// A collector for an image of the given size, every pixel `fill`, with
    /// no row received.
    pub fn new(width: usize, height: usize, fill: P) -> (collector: Self)
        requires
            width * height <= usize::MAX,
        ensures
            collector@ == Board::blank(width as nat, height as nat, fill),
    {
        Collector {
            image: Image::new(width, height, fill),
            log: Log { received: 0, written: Ghost(Seq::empty()) },
        }
    }

    /// The number of pixels in a row.
    pub fn width(&self) -> (width: usize)
        ensures
            width == self@.width,
    {
        self.image.width()
    }

    /// The number of rows of the image.
    pub fn height(&self) -> (height: usize)
        ensures
            height == self@.height,
    {
        self.image.height()
    }

    /// The number of rows received so far.
    pub fn received(&self) -> (count: usize)
        ensures
            count == self@.written.len(),
            count <= self@.height,
    {
        proof {
            use_type_invariant(self);
            use_type_invariant(&self.log);
        }
        self.log.received
    }

    /// Whether as many rows have been received as the image has.
    pub fn is_complete(&self) -> (complete: bool)
        ensures
            complete == self@.is_complete(),
    {
        proof {
            use_type_invariant(&self.log);
        }
        self.log.received == self.image.height()
    }

    /// Puts `line` in the image as row `y`, whatever was received before.
    pub fn receive(&mut self, line: Vec<P>, y: usize)
        requires
            y < old(self)@.height,
            line@.len() == old(self)@.width,
            !old(self)@.is_complete(),
        ensures
            final(self)@ == old(self)@.after_receive(y as nat, line@),
    {
        proof {
            use_type_invariant(&*self);
            use_type_invariant(&self.log);
        }
        let received = self.log.received;
        let ghost written = self.log.written@;
        self.image.set_line(line, y);
        self.log = Log { received: received + 1, written: Ghost(written.push(y as nat)) };
    }

    /// Hands over the image as it stands.
    pub fn into_image(self) -> (image: Image<P>)
        ensures
            image.wf(),
            image.width() == self@.width,
            image.height() == self@.height,
            image@ == self@.rows,
    {
        let image = self.image;
        let _ = image.width();
        image
    }
}

/// The number of logical processors of this machine, as `num_cpus::get`
/// reports it. Nothing is claimed of the number.
#[verifier::external_body]
fn logical_cpus() -> usize {
    num_cpus::get()
}

/// The number of workers to start where `reported` processors are
/// available: one for each processor, and one where none is reported, since
/// a render without workers never ends.
pub fn workers_for(reported: usize) -> (workers: usize)
    ensures
        workers == if reported == 0 {
            1
        } else {
            reported
        },
{
    if reported == 0 {
        1
    } else {
        reported
    }
}

/// The number of workers that a render on this machine starts: at least one.
pub fn worker_count() -> (workers: usize)
    ensures
        workers >= 1,
{
    workers_for(logical_cpus())
}

/// What can happen in a parallel render, as the schedule sees it.
pub enum Event<P> {
    /// A worker asks the counter for a row.
    Claim { worker: nat },
    /// A rendered row reaches the collector.
    Deliver { row: nat, line: Seq<P> },
}

/// The state of a parallel render: the counter, the rows that were claimed
/// and have not reached the collector yet, and the collector's board.
pub struct Run<P> {
    pub counter: Counter,
    pub pending: Set<nat>,
    pub board: Board<P>,
}

impl<P> Run<P> {
    /// A render that has not begun: nothing claimed, nothing on its way,
    /// nothing received.
    pub open spec fn is_fresh(self) -> bool {
        &&& self.counter.claimed == 0
        &&& self.counter.height == self.board.height
        &&& self.pending == Set::<nat>::empty()
        &&& self.board.written == Seq::<nat>::empty()
        &&& self.board.rows.len() == self.board.height
    }

    /// The state after `event`, or `None` where the event cannot happen. A
    /// claim is made by one of the `workers`, and the row it gets is on its
    /// way from then on. A delivery brings a row that is on its way, with a
    /// line of the image's width.
    pub open spec fn step(self, workers: nat, event: Event<P>) -> Option<Self> {
        match event {
            Event::Claim { worker } => if worker < workers {
                Some(
                    Run {
                        counter: self.counter.after_claim(),
                        pending: match self.counter.next_row() {
                            Some(row) => self.pending.insert(row),
                            None => self.pending,
                        },
                        board: self.board,
                    },
                )
            } else {
                None
            },
            Event::Deliver { row, line } => if self.pending.contains(row) && line.len()
                == self.board.width {
                Some(
                    Run {
                        counter: self.counter,
                        pending: self.pending.remove(row),
                        board: self.board.after_receive(row, line),
                    },
                )
            } else {
                None
            },
        }
    }

    /// The state after `events` in turn, or `None` where one of them cannot
    /// happen.
    pub open spec fn replay(self, workers: nat, events: Seq<Event<P>>) -> Option<Self>
        decreases events.len(),
    {
        if events.len() == 0 {
            Some(self)
        } else {
            match self.replay(workers, events.drop_last()) {
                Some(before) => before.step(workers, events.last()),
                None => None,
            }
        }
    }

    /// What holds of a run at every moment, given the events behind it: the
    /// rows handed out are those on their way and those received, none of
    /// them twice, and each line received stands at its index.
    pub open spec fn consistent(self, events: Seq<Event<P>>) -> bool {
        let written = self.board.written;
        &&& self.counter.claimed <= self.counter.height == self.board.height
        &&& self.board.rows.len() == self.board.height
        &&& self.pending.finite()
        &&& self.pending.len() + written.len() == self.counter.claimed
        &&& written.no_duplicates()
        &&& forall|y: nat| #[trigger]
            self.pending.contains(y) ==> y < self.counter.claimed && !written.contains(y)
        &&& forall|y: nat| #[trigger] written.contains(y) ==> y < self.counter.claimed
        &&& forall|y: nat|
            #![trigger self.pending.contains(y)]
            #![trigger written.contains(y)]
            y < self.counter.claimed ==> self.pending.contains(y) || written.contains(y)
        &&& forall|i: int|
            0 <= i < events.len() ==> (#[trigger] events[i] matches Event::Deliver { row, line }
                ==> written.contains(row) && self.board.rows[row as int] == line && line.len()
                == self.board.width)
    }
}

/// One event keeps a run consistent.
proof fn lemma_step_keeps_consistent<P>(
    before: Run<P>,
    workers: nat,
    events: Seq<Event<P>>,
    event: Event<P>,
)
    requires
        before.consistent(events),
        before.step(workers, event) is Some,
    ensures
        before.step(workers, event).unwrap().consistent(events.push(event)),
{
    broadcast use vstd::set::group_set_axioms;

    let after = before.step(workers, event).unwrap();
    let all = events.push(event);
    let old_written = before.board.written;
    let new_written = after.board.written;
    assert forall|y: nat| old_written.contains(y) implies new_written.contains(y) by {
        let k = choose|k: int| 0 <= k < old_written.len() && old_written[k] == y;
        if new_written.len() > old_written.len() {
            assert(new_written[k] == y);
        }
    }
    match event {
        Event::Claim { worker } => {
            assert forall|i: int| 0 <= i < all.len() implies (#[trigger] all[i] matches Event::Deliver {
                row,
                line,
            } ==> new_written.contains(row) && after.board.rows[row as int] == line && line.len()
                == after.board.width) by {
                if i < events.len() {
                    assert(all[i] == events[i]);
                }
            }
        },
        Event::Deliver { row, line } => {
            assert(new_written[new_written.len() - 1] == row);
            assert forall|y: nat| new_written.contains(y) implies y == row || old_written.contains(
                y,
            ) by {
                let k = choose|k: int| 0 <= k < new_written.len() && new_written[k] == y;
                if k < old_written.len() {
                    assert(old_written[k] == y);
                }
            }
            assert(new_written.no_duplicates()) by {
                assert forall|i: int, j: int|
                    0 <= i < new_written.len() && 0 <= j < new_written.len() && i
                        != j implies new_written[i] != new_written[j] by {
                    if i < old_written.len() {
                        assert(old_written.contains(old_written[i]));
                    }
                    if j < old_written.len() {
                        assert(old_written.contains(old_written[j]));
                    }
                }
            }
            assert forall|i: int| 0 <= i < all.len() implies (#[trigger] all[i] matches Event::Deliver {
                row: r,
                line: l,
            } ==> new_written.contains(r) && after.board.rows[r as int] == l && l.len()
                == after.board.width) by {
                if i < events.len() {
                    assert(all[i] == events[i]);
                    if let Event::Deliver { row: r, line: l } = events[i] {
                        assert(old_written.contains(r));
                    }
                } else {
                    assert(all[i] == event);
                }
            }
        },
    }
}

/// A fresh render that went through `events` is consistent.
proof fn lemma_replay_keeps_consistent<P>(start: Run<P>, workers: nat, events: Seq<Event<P>>)
    requires
        start.is_fresh(),
        start.replay(workers, events) is Some,
    ensures
        start.replay(workers, events).unwrap().consistent(events),
    decreases events.len(),
{
    broadcast use vstd::set::group_set_axioms;

    if events.len() > 0 {
        let front = events.drop_last();
        lemma_replay_keeps_consistent(start, workers, front);
        let before = start.replay(workers, front).unwrap();
        lemma_step_keeps_consistent(before, workers, front, events.last());
        assert(front.push(events.last()) =~= events);
    }
}

/// The size of the image does not change during a render.
proof fn lemma_replay_keeps_size<P>(start: Run<P>, workers: nat, events: Seq<Event<P>>)
    requires
        start.replay(workers, events) is Some,
    ensures
        start.replay(workers, events).unwrap().board.height == start.board.height,
        start.replay(workers, events).unwrap().board.width == start.board.width,
    decreases events.len(),
{
    if events.len() > 0 {
        lemma_replay_keeps_size(start, workers, events.drop_last());
    }
}

/// Whatever the number of workers, and in whatever order their rows arrive:
/// the image keeps its size, no row is written twice, only rows of the image
/// are written, every line that arrived is a row of the image, stands in the
/// record and stands in the image at its own index with the image's width,
/// and once the collector has received as many rows as the image has, every
/// row of the image has been written.
pub proof fn lemma_every_row_written_once<P>(start: Run<P>, workers: nat, events: Seq<Event<P>>)
    requires
        start.is_fresh(),
        start.replay(workers, events) is Some,
    ensures
        ({
            let end = start.replay(workers, events).unwrap().board;
            &&& end.height == start.board.height
            &&& end.width == start.board.width
            &&& end.rows.len() == end.height
            &&& end.written.no_duplicates()
            &&& forall|y: nat| end.written.contains(y) ==> y < end.height
            &&& end.is_complete() ==> forall|y: nat| y < end.height ==> end.written.contains(y)
            &&& forall|i: int|
                0 <= i < events.len() ==> (#[trigger] events[i] matches Event::Deliver { row, line }
                    ==> {
                    &&& row < end.height
                    &&& end.written.contains(row)
                    &&& end.rows[row as int] == line
                    &&& line.len() == end.width
                })
        }),
{
    broadcast use vstd::set::group_set_axioms;

    lemma_replay_keeps_consistent(start, workers, events);
    lemma_replay_keeps_size(start, workers, events);
    let end = start.replay(workers, events).unwrap();
    if end.board.is_complete() {
        assert(end.pending.len() == 0);
        assert forall|y: nat| y < end.board.height implies end.board.written.contains(y) by {
            if end.pending.contains(y) {
                assert(end.pending.len() != 0);
            }
        }
    }
}

/// A render with at least one worker is never stuck: as long as the
/// collector waits for rows, either a row is on its way and can arrive, or
/// a claim hands out a new row.
pub proof fn lemma_render_can_go_on<P>(start: Run<P>, workers: nat, events: Seq<Event<P>>)
    requires
        start.is_fresh(),
        start.replay(workers, events) is Some,
        !start.replay(workers, events).unwrap().board.is_complete(),
        workers >= 1,
    ensures
        ({
            let now = start.replay(workers, events).unwrap();
            ||| now.counter.next_row() is Some && now.step(workers, Event::Claim { worker: 0 })
                is Some
            ||| exists|row: nat, line: Seq<P>| #[trigger]
                now.step(workers, Event::Deliver { row, line }) is Some
        }),
{
    broadcast use vstd::set::group_set_axioms;

    lemma_replay_keeps_consistent(start, workers, events);
    let now = start.replay(workers, events).unwrap();
    if now.counter.next_row() is None {
        assert(now.pending.len() > 0);
        let row = now.pending.choose();
        let line = Seq::new(now.board.width, |x: int| arbitrary::<P>());
        assert(now.step(workers, Event::Deliver { row, line }) is Some);
    }
}

} // verus!
