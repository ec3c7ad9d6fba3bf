//! When a stream of lines has stalled: the first line may take as long as the
//! request, each later one a number of seconds.

use vstd::prelude::*;

use crate::text::{decimal, decimal_text};

verus! {

/// How far a stream of lines got.
#[derive(Debug, Clone, Copy, PartialEq, Eq, Structural)]
pub enum LinePhase {
    /// No line came yet.
    First,
    /// A line came.
    Rest,
    /// The stream is over.
    Over,
}

/// What happened while a line was awaited.
#[derive(Debug)]
pub enum LineEvent<E> {
    Line(String),
    Failed(E),
    End,
    TimedOut,
}

/// What to do about it.
#[derive(Debug)]
pub enum LineAction<E> {
    /// Hand the line on and await the next.
    Yield(String),
    /// Hand the error on and stop.
    Fail(E),
    /// Hand on an error with this message and stop.
    Stall(String),
    /// Stop.
    Stop,
}

/// The message for a stream that has stalled.
pub open spec fn stall_message(timeout_secs: nat) -> Seq<char> {
    "Ollama stream stalled: no data received for "@ + decimal(timeout_secs)
        + "s. This may indicate the model is overwhelmed by the request payload. Try a smaller model, reduce the number of tools, or increase the timeout via OLLAMA_STREAM_TIMEOUT, GOOSE_STREAM_TIMEOUT, or OLLAMA_TIMEOUT in your config."@
}

/// How far the stream is after an event.
pub open spec fn phase_after<E>(event: LineEvent<E>) -> LinePhase {
    if event is Line {
        LinePhase::Rest
    } else {
        LinePhase::Over
    }
}

/// Whether an action is the one that an event calls for.
pub open spec fn answers<E>(event: LineEvent<E>, action: LineAction<E>, timeout_secs: u64) -> bool {
    match event {
        LineEvent::Line(line) => action == LineAction::<E>::Yield(line),
        LineEvent::Failed(error) => action == LineAction::Fail(error),
        LineEvent::End => action == LineAction::<E>::Stop,
        LineEvent::TimedOut => action matches LineAction::Stall(message) && message@
            == stall_message(timeout_secs as nat),
    }
}

/// Watches a stream of lines.
#[derive(Debug, Clone, Copy, PartialEq, Eq, Structural)]
pub struct LineTimeout {
    pub timeout_secs: u64,
    pub phase: LinePhase,
}

impl LineTimeout {
    /// A watch over a stream that no line came from yet.
    pub fn new(timeout_secs: u64) -> (res: Self)
        ensures
            res == (LineTimeout { timeout_secs, phase: LinePhase::First }),
    {
        LineTimeout { timeout_secs, phase: LinePhase::First }
    }

    /// The seconds that the next line may take: as many as it likes before the
    /// first one, since the request itself is limited.
    pub open spec fn spec_deadline_secs(self) -> Option<u64> {
        if self.phase == LinePhase::Rest {
            Some(self.timeout_secs)
        } else {
            None
        }
    }

    /// The seconds that the next line may take, if they are limited.
    pub fn deadline_secs(&self) -> (res: Option<u64>)
        ensures
            res == self.spec_deadline_secs(),
    {
        match self.phase {
            LinePhase::Rest => Some(self.timeout_secs),
            _ => None,
        }
    }

    /// What to do about an event. Only a line that was given a time can run out of
    /// it.
    pub fn step<E>(&mut self, event: LineEvent<E>) -> (res: LineAction<E>)
        requires
            old(self).phase != LinePhase::Over,
            event is TimedOut ==> old(self).spec_deadline_secs() is Some,
        ensures
            answers(event, res, old(self).timeout_secs),
            *final(self) == (LineTimeout { phase: phase_after(event), ..*old(self) }),
    {
        match event {
            LineEvent::Line(line) => {
                self.phase = LinePhase::Rest;
                LineAction::Yield(line)
            },
            LineEvent::Failed(error) => {
                self.phase = LinePhase::Over;
                LineAction::Fail(error)
            },
            LineEvent::End => {
                self.phase = LinePhase::Over;
                LineAction::Stop
            },
            LineEvent::TimedOut => {
                self.phase = LinePhase::Over;
                let mut message = "Ollama stream stalled: no data received for ".to_owned();
                let secs = decimal_text(self.timeout_secs);
                message.append(secs.as_str());
                message.append(
                    "s. This may indicate the model is overwhelmed by the request payload. Try a smaller model, reduce the number of tools, or increase the timeout via OLLAMA_STREAM_TIMEOUT, GOOSE_STREAM_TIMEOUT, or OLLAMA_TIMEOUT in your config.",
                );
                LineAction::Stall(message)
            },
        }
    }
}

/// A line is handed on as it is and an error too, the end stops, and only a line that
/// ran out of time stalls, with a message that tells the seconds.
pub proof fn every_event_has_its_answer<E>(event: LineEvent<E>, action: LineAction<E>, timeout_secs: u64)
    requires
        answers(event, action, timeout_secs),
    ensures
        event is Line <==> action is Yield,
        event is Line ==> action->Yield_0 == event->Line_0,
        event is Failed <==> action is Fail,
        event is Failed ==> action->Fail_0 == event->Failed_0,
        event is End <==> action is Stop,
        event is TimedOut <==> action is Stall,
        event is TimedOut ==> action->Stall_0@ == "Ollama stream stalled: no data received for "@
            + decimal(timeout_secs as nat)
            + "s. This may indicate the model is overwhelmed by the request payload. Try a smaller model, reduce the number of tools, or increase the timeout via OLLAMA_STREAM_TIMEOUT, GOOSE_STREAM_TIMEOUT, or OLLAMA_TIMEOUT in your config."@,
{
}

/// There is time without limit before the first line, and the seconds of the watch
/// after each line; a stream is over after anything but a line.
pub proof fn time_starts_with_the_first_line<E>(watch: LineTimeout, event: LineEvent<E>)
    ensures
        watch.phase is First ==> watch.spec_deadline_secs() is None,
        watch.phase is Rest ==> watch.spec_deadline_secs() == Some(watch.timeout_secs),
        phase_after(event) is Rest <==> event is Line,
        phase_after(event) is Over <==> !(event is Line),
{
}

/// Any run of lines can come from a stream, and at its end any event can, but that a
/// line runs out of time before the first one came.
pub proof fn any_lines_can_follow<E>(watch: LineTimeout, lines: Seq<LineEvent<E>>, event: LineEvent<E>)
    requires
        !(watch.phase is Over),
        forall|i: int| 0 <= i < lines.len() ==> (#[trigger] lines[i]) is Line,
        event is TimedOut ==> lines.len() > 0 || watch.phase is Rest,
    ensures
        can_follow(watch, lines),
        can_follow(watch, lines.push(event)),
    decreases lines.len(),
{
    let all = lines.push(event);
    if lines.len() == 0 {
        assert(all[0] == event);
        assert(all.drop_first() =~= Seq::<LineEvent<E>>::empty());
        reveal_with_fuel(can_follow, 2);
    } else {
        assert(lines[0] is Line);
        let next = LineTimeout { phase: phase_after(lines[0]), ..watch };
        assert(all[0] == lines[0]);
        assert(all.drop_first() =~= lines.drop_first().push(event));
        assert forall|i: int| 0 <= i < lines.drop_first().len() implies (
        #[trigger] lines.drop_first()[i]) is Line by {
            assert(lines.drop_first()[i] == lines[i + 1]);
        }
        any_lines_can_follow(next, lines.drop_first(), event);
    }
}

/// Whether events can follow one another on a watch: none after the stream is
/// over, and no line runs out of time before the first one came.
pub open spec fn can_follow<E>(watch: LineTimeout, events: Seq<LineEvent<E>>) -> bool
    decreases events.len(),
{
    events.len() == 0 || {
        &&& watch.phase != LinePhase::Over
        &&& events[0] is TimedOut ==> watch.spec_deadline_secs() is Some
        &&& can_follow(LineTimeout { phase: phase_after(events[0]), ..watch }, events.drop_first())
    }
}

/// A stream never stalls before its first line, hands on its lines and nothing
/// else until its last event, and every event but the last is a line.
pub proof fn lines_come_first<E>(watch: LineTimeout, events: Seq<LineEvent<E>>)
    requires
        can_follow(watch, events),
    ensures
        watch.phase == LinePhase::First && events.len() > 0 ==> !(events[0] is TimedOut),
        forall|i: int| 0 <= i < events.len() - 1 ==> (#[trigger] events[i]) is Line,
    decreases events.len(),
{
    if events.len() > 0 {
        let next = LineTimeout { phase: phase_after(events[0]), ..watch };
        let rest = events.drop_first();
        lines_come_first(next, rest);
        assert forall|i: int| 0 <= i < events.len() - 1 implies (#[trigger] events[i]) is Line by {
            if i == 0 {
                assert(can_follow(next, rest));
            } else {
                assert(rest[i - 1] == events[i]);
            }
        }
    }
}

} // verus!
