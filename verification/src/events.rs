//! A queue of game events delivered to registered observers.

use vstd::prelude::*;
use crate::ecs::Entity;
use crate::fsm::GameState;

verus! {

/// Something that happened in the game.
#[derive(Clone, Copy, Debug)]
pub enum Event {
    EntitySpawned(Entity),
    StateChanged { from: GameState, to: GameState },
    DoorUsed,
    EnemyKilled,
}

/// Something that wants to hear about events.
pub trait Observer {
    /// Whether this observer keeps the record `seen` of what it has been handed.
    ///
    /// An implementation checked by Verus that keeps one says so, as `HudEventLog` does.
    /// By default an observer keeps none, and then `on_event` promises nothing of it.
    closed spec fn keeps_record(&self) -> bool {
        false
    }

    /// Every event this observer has been handed, oldest first; meaningful only for an
    /// observer that keeps a record.
    closed spec fn seen(&self) -> Seq<Event> {
        Seq::empty()
    }

    /// Takes one event; an observer that keeps a record has then been handed that event
    /// once more.
    fn on_event(&mut self, event: &Event)
        ensures
            old(self).keeps_record() ==> final(self).keeps_record() && final(self).seen()
                == old(self).seen().push(*event),
    ;
}

/// Every delivery that dispatching `queue` to `observer_count` observers makes, as
/// `(observer index, event)`: events in queue order, and for each event the observers
/// in registration order.
pub open spec fn deliveries(queue: Seq<Event>, observer_count: nat) -> Seq<(nat, Event)>
    decreases queue.len(),
{
    if queue.len() == 0 {
        Seq::empty()
    } else {
        deliveries(queue.drop_last(), observer_count) + Seq::new(
            observer_count,
            |i: int| (i as nat, queue.last()),
        )
    }
}

/// Queues events and hands them to observers on `dispatch`.
pub struct EventBus {
    observers: Vec<Box<dyn Observer>>,
    queue: Vec<Event>,
    calls: Ghost<Seq<(nat, Event)>>,
}

impl EventBus {
    /// How many observers are registered.
    pub closed spec fn observer_count(&self) -> nat {
        self.observers@.len()
    }

    /// The registered observers, in registration order.
    pub closed spec fn registered(&self) -> Seq<Box<dyn Observer>> {
        self.observers@
    }

    /// Events emitted and not yet dispatched, oldest first.
    pub closed spec fn pending(&self) -> Seq<Event> {
        self.queue@
    }

    /// Every `on_event` call this bus has made, as `(observer index, event)`, in the
    /// order the calls were made.
    pub closed spec fn delivered(&self) -> Seq<(nat, Event)> {
        self.calls@
    }

    /// A bus with no observers and nothing queued.
    pub fn new() -> (bus: Self)
        ensures
            bus.observer_count() == 0,
            bus.pending() == Seq::<Event>::empty(),
            bus.delivered() == Seq::<(nat, Event)>::empty(),
    {
        EventBus { observers: Vec::new(), queue: Vec::new(), calls: Ghost(Seq::empty()) }
    }

    /// Adds an observer after the ones already registered.
    pub fn register(&mut self, observer: Box<dyn Observer>)
        ensures
            final(self).registered() == old(self).registered().push(observer),
            final(self).observer_count() == old(self).observer_count() + 1,
            final(self).pending() == old(self).pending(),
            final(self).delivered() == old(self).delivered(),
    {
        let ghost before = self.observers@;
        self.observers.push(observer);
        assert(self.observers@ == before.push(observer));
        proof {
            vstd::seq::axiom_seq_push_len(before, observer);
        }
    }

    /// Queues an event; no observer hears of it until `dispatch`.
    pub fn emit(&mut self, event: Event)
        ensures
            final(self).registered() == old(self).registered(),
            final(self).observer_count() == old(self).observer_count(),
            final(self).pending() == old(self).pending().push(event),
            final(self).delivered() == old(self).delivered(),
    {
        self.queue.push(event);
    }

    /// Hands every queued event, oldest first, to every observer in registration order,
    /// and empties the queue: the calls go event by event, each event to all observers
    /// before the next, and each observer that keeps a record has then been handed the
    /// whole queue once more.
    pub fn dispatch(&mut self)
        ensures
            final(self).observer_count() == old(self).observer_count(),
            final(self).pending() == Seq::<Event>::empty(),
            final(self).delivered() == old(self).delivered() + deliveries(
                old(self).pending(),
                old(self).observer_count(),
            ),
            forall|i: int|
                0 <= i < old(self).observer_count() && (#[trigger] old(
                    self,
                ).registered()[i]).keeps_record() ==> final(self).registered()[i].keeps_record()
                    && final(self).registered()[i].seen() == old(self).registered()[i].seen()
                    + old(self).pending(),
    {
        let ghost start = self.observers@;
        let ghost calls_before = self.calls@;
        let ghost queue = self.queue@;
        let count = self.observers.len();
        let mut e: usize = 0;
        let qlen = self.queue.len();
        while e < qlen
            invariant
                e <= qlen,
                qlen == queue.len(),
                self.queue@ == queue,
                self.observers@.len() == count,
                start.len() == count,
                self.calls@ == calls_before + deliveries(queue.take(e as int), count as nat),
                forall|j: int|
                    0 <= j < count && (#[trigger] start[j]).keeps_record() ==> self.observers@[j].keeps_record()
                        && self.observers@[j].seen() == start[j].seen() + queue.take(e as int),
            decreases qlen - e,
        {
            let event = self.queue[e];
            let ghost before = self.observers@;
            let ghost calls_mid = self.calls@;
            let mut o: usize = 0;
            while o < count
                invariant
                    o <= count,
                    e < qlen,
                    qlen == queue.len(),
                    self.queue@ == queue,
                    event == queue[e as int],
                    self.observers@.len() == count,
                    before.len() == count,
                    self.calls@ == calls_mid + Seq::new(o as nat, |i: int| (i as nat, event)),
                    forall|j: int|
                        0 <= j < o && (#[trigger] before[j]).keeps_record() ==> self.observers@[j].keeps_record()
                            && self.observers@[j].seen() == before[j].seen().push(event),
                    forall|j: int| o <= j < count ==> #[trigger] self.observers@[j] == before[j],
                decreases count - o,
            {
                self.observers[o].on_event(&event);
                proof {
                    self.calls@ = self.calls@.push((o as nat, event));
                }
                o = o + 1;
                assert(self.calls@ =~= calls_mid + Seq::new(o as nat, |i: int| (i as nat, event)));
            }
            assert(queue.take(e + 1).drop_last() =~= queue.take(e as int));
            assert(queue.take(e + 1).last() == event);
            assert(deliveries(queue.take(e + 1), count as nat) == deliveries(
                queue.take(e as int),
                count as nat,
            ) + Seq::new(count as nat, |i: int| (i as nat, event)));
            assert(self.calls@ =~= calls_before + deliveries(queue.take(e + 1), count as nat));
            assert forall|j: int| 0 <= j < count && (#[trigger] start[j]).keeps_record()
                implies self.observers@[j].keeps_record() && self.observers@[j].seen()
                == start[j].seen() + queue.take(e + 1) by {
                assert(before[j] == before[j]);
                assert(queue.take(e + 1) =~= queue.take(e as int).push(event));
            }
            e = e + 1;
        }
        assert(queue.take(qlen as int) =~= queue);
        self.queue.clear();
    }
}

/// Emitting one more event before a dispatch adds exactly its calls, one per observer
/// in registration order, after the calls for the events already queued.
pub proof fn lemma_emit_then_dispatch(queue: Seq<Event>, event: Event, observer_count: nat)
    ensures
        deliveries(queue.push(event), observer_count) == deliveries(queue, observer_count)
            + Seq::new(observer_count, |i: int| (i as nat, event)),
{
    assert(queue.push(event).drop_last() =~= queue);
}

impl Default for EventBus {
    fn default() -> (bus: Self)
        ensures
            bus.observer_count() == 0,
            bus.pending() == Seq::<Event>::empty(),
            bus.delivered() == Seq::<(nat, Event)>::empty(),
    {
        EventBus::new()
    }
}

/// The text of one decimal digit.
pub open spec fn digit_text(d: nat) -> Seq<char> {
    if d == 0 {
        "0"@
    } else if d == 1 {
        "1"@
    } else if d == 2 {
        "2"@
    } else if d == 3 {
        "3"@
    } else if d == 4 {
        "4"@
    } else if d == 5 {
        "5"@
    } else if d == 6 {
        "6"@
    } else if d == 7 {
        "7"@
    } else if d == 8 {
        "8"@
    } else {
        "9"@
    }
}

/// `n` written in decimal without leading zeros.
pub open spec fn decimal_text(n: nat) -> Seq<char>
    decreases n,
{
    if n < 10 {
        digit_text(n)
    } else {
        decimal_text(n / 10) + digit_text(n % 10)
    }
}

/// The value of a decimal digit character.
pub open spec fn digit_value(c: char) -> int {
    c as int - '0' as int
}

/// Whether every character of `text` is a decimal digit.
pub open spec fn all_digits(text: Seq<char>) -> bool {
    forall|k: int| 0 <= k < text.len() ==> '0' <= #[trigger] text[k] <= '9'
}

/// The number a string of decimal digits reads as, most significant digit first.
pub open spec fn numeral_value(text: Seq<char>) -> int
    decreases text.len(),
{
    if text.len() == 0 {
        0
    } else {
        numeral_value(text.drop_last()) * 10 + digit_value(text.last())
    }
}

/// How many decimal digits `n` has.
pub open spec fn digit_count(n: nat) -> nat
    decreases n,
{
    if n < 10 {
        1
    } else {
        digit_count(n / 10) + 1
    }
}

/// A single digit's text is that one digit character.
proof fn lemma_digit_text(d: nat)
    requires
        d < 10,
    ensures
        digit_text(d).len() == 1,
        '0' <= digit_text(d)[0] <= '9',
        digit_value(digit_text(d)[0]) == d,
{
    reveal_strlit("0");
    reveal_strlit("1");
    reveal_strlit("2");
    reveal_strlit("3");
    reveal_strlit("4");
    reveal_strlit("5");
    reveal_strlit("6");
    reveal_strlit("7");
    reveal_strlit("8");
    reveal_strlit("9");
}

/// `decimal_text(n)` is `n` written in decimal: only digits, as many as `n` has, with no
/// leading zero, and read back as a numeral it gives `n`.
pub proof fn lemma_decimal_text_reads_back(n: nat)
    ensures
        all_digits(decimal_text(n)),
        decimal_text(n).len() == digit_count(n),
        numeral_value(decimal_text(n)) == n,
        n > 0 ==> decimal_text(n)[0] != '0',
    decreases n,
{
    if n < 10 {
        lemma_digit_text(n);
        let t = decimal_text(n);
        assert(t.drop_last() =~= Seq::<char>::empty());
        assert(numeral_value(t.drop_last()) == 0);
        assert(numeral_value(t) == numeral_value(t.drop_last()) * 10 + digit_value(t.last()));
    } else {
        lemma_decimal_text_reads_back(n / 10);
        lemma_digit_text(n % 10);
        let head = decimal_text(n / 10);
        let t = decimal_text(n);
        assert(t == head + digit_text(n % 10));
        assert(t.drop_last() =~= head);
        assert(t.last() == digit_text(n % 10)[0]);
        assert(t[0] == head[0]);
        assert(numeral_value(t) == numeral_value(head) * 10 + digit_value(t.last()));
        assert(n == (n / 10) * 10 + n % 10);
        assert(all_digits(t)) by {
            assert forall|k: int| 0 <= k < t.len() implies '0' <= #[trigger] t[k] <= '9' by {
                if k < head.len() {
                    assert(t[k] == head[k]);
                } else {
                    assert(t[k] == digit_text(n % 10)[0]);
                }
            }
        }
    }
}

/// The name a game state is shown with.
pub open spec fn state_name(state: GameState) -> Seq<char> {
    match state {
        GameState::Boot => "Boot"@,
        GameState::Running => "Running"@,
        GameState::Paused => "Paused"@,
        GameState::Quit => "Quit"@,
    }
}

/// The line the HUD log shows for an event.
pub open spec fn event_line(event: Event) -> Seq<char> {
    match event {
        Event::EntitySpawned(entity) => "spawned entity "@ + decimal_text(entity as nat),
        Event::StateChanged { from, to } => "state: "@ + state_name(from) + " -> "@ + state_name(
            to,
        ),
        Event::DoorUsed => "door interaction"@,
        Event::EnemyKilled => "enemy eliminated"@,
    }
}

/// Most lines the HUD log keeps.
pub const HUD_LOG_LINES: usize = 6;

/// The log after `line` is added: the oldest line goes once there are more than six.
pub open spec fn logged(lines: Seq<Seq<char>>, line: Seq<char>) -> Seq<Seq<char>> {
    let all = lines.push(line);
    if all.len() > HUD_LOG_LINES {
        all.drop_first()
    } else {
        all
    }
}

/// The last (at most six) lines of a history.
pub open spec fn most_recent(history: Seq<Seq<char>>) -> Seq<Seq<char>> {
    if history.len() > HUD_LOG_LINES {
        history.skip(history.len() - HUD_LOG_LINES)
    } else {
        history
    }
}

/// The texts of a list of lines.
pub open spec fn texts(lines: Seq<String>) -> Seq<Seq<char>> {
    lines.map_values(|line: String| line@)
}

fn push_digit(text: &mut String, d: u32)
    requires
        d < 10,
    ensures
        final(text)@ == old(text)@ + digit_text(d as nat),
{
    let digit = match d {
        0 => "0",
        1 => "1",
        2 => "2",
        3 => "3",
        4 => "4",
        5 => "5",
        6 => "6",
        7 => "7",
        8 => "8",
        _ => "9",
    };
    text.append(digit);
}

fn push_decimal(text: &mut String, n: u32)
    ensures
        final(text)@ == old(text)@ + decimal_text(n as nat),
    decreases n,
{
    if n >= 10 {
        push_decimal(text, n / 10);
    }
    push_digit(text, n % 10);
    assert(final(text)@ =~= old(text)@ + decimal_text(n as nat));
}

fn push_state_name(text: &mut String, state: GameState)
    ensures
        final(text)@ == old(text)@ + state_name(state),
{
    match state {
        GameState::Boot => text.append("Boot"),
        GameState::Running => text.append("Running"),
        GameState::Paused => text.append("Paused"),
        GameState::Quit => text.append("Quit"),
    }
}

/// The line the HUD log shows for `event`.
pub fn event_text(event: &Event) -> (line: String)
    ensures
        line@ == event_line(*event),
{
    match event {
        Event::EntitySpawned(entity) => {
            let mut text = String::from_str("spawned entity ");
            push_decimal(&mut text, *entity);
            text
        },
        Event::StateChanged { from, to } => {
            let mut text = String::from_str("state: ");
            push_state_name(&mut text, *from);
            text.append(" -> ");
            push_state_name(&mut text, *to);
            assert(text@ =~= event_line(*event));
            text
        },
        Event::DoorUsed => String::from_str("door interaction"),
        Event::EnemyKilled => String::from_str("enemy eliminated"),
    }
}

/// An observer that keeps the six most recent event lines for the HUD.
pub struct HudEventLog {
    lines: Vec<String>,
    heard: Ghost<Seq<Event>>,
}

impl HudEventLog {
    /// The lines held, oldest first.
    pub closed spec fn shown(&self) -> Seq<Seq<char>> {
        texts(self.lines@)
    }

    /// The lines held, oldest first.
    pub fn lines(&self) -> (lines: &Vec<String>)
        ensures
            texts(lines@) == self.shown(),
    {
        &self.lines
    }
}

impl Default for HudEventLog {
    fn default() -> (log: Self)
        ensures
            log.shown() == Seq::<Seq<char>>::empty(),
            log.seen() == Seq::<Event>::empty(),
    {
        let log = HudEventLog { lines: Vec::new(), heard: Ghost(Seq::empty()) };
        assert(log.shown() =~= Seq::<Seq<char>>::empty());
        log
    }
}

impl Observer for HudEventLog {
    open spec fn keeps_record(&self) -> bool {
        true
    }

    closed spec fn seen(&self) -> Seq<Event> {
        self.heard@
    }

    fn on_event(&mut self, event: &Event)
        ensures
            final(self).shown() == logged(old(self).shown(), event_line(*event)),
    {
        let text = event_text(event);
        let ghost before = self.lines@;
        self.lines.push(text);
        assert(texts(self.lines@) =~= texts(before).push(text@));
        if self.lines.len() > HUD_LOG_LINES {
            let ghost full = self.lines@;
            self.lines.remove(0);
            assert(texts(self.lines@) =~= texts(full).drop_first());
        }
        proof {
            self.heard@ = self.heard@.push(*event);
        }
    }
}

/// Whatever the history of events, the HUD log holds exactly its six most recent lines:
/// logging one more line keeps that true.
pub proof fn lemma_log_keeps_most_recent(history: Seq<Seq<char>>, line: Seq<char>)
    ensures
        logged(most_recent(history), line) == most_recent(history.push(line)),
{
    let h = history.push(line);
    if history.len() > HUD_LOG_LINES {
        assert(logged(most_recent(history), line) =~= most_recent(h));
    } else {
        assert(logged(most_recent(history), line) =~= most_recent(h));
    }
}

} // verus!
