//! Whole runs of a session: what holds after any sequence of events.

use crate::config::{packet_bytes_of, Opt};
use crate::orchestrator::{
    lemma_step_keeps_invariant, Action, Ending, Event, Line, OrchestratorModel, Phase, Reaction,
};
use crate::session::{lemma_recorded_counts, recorded, Outcome};
use vstd::prelude::*;

verus! {

/// The state after the events, taken in one after the other, and the
/// answers to them.
pub open spec fn run(m: OrchestratorModel, events: Seq<Event>) -> (OrchestratorModel, Seq<Reaction>)
    decreases events.len(),
{
    if events.len() == 0 {
        (m, Seq::empty())
    } else {
        let (before, reactions) = run(m, events.drop_last());
        let (after, reaction) = before.step(events.last());
        (after, reactions.push(reaction))
    }
}

/// How often the driver was told to stop the pinger.
pub open spec fn stops(reactions: Seq<Reaction>) -> nat
    decreases reactions.len(),
{
    if reactions.len() == 0 {
        0
    } else {
        stops(reactions.drop_last()) + if reactions.last().action is Stop {
            1nat
        } else {
            0nat
        }
    }
}

/// Whether the run of the session is over: the pinger has been told to
/// stop.
pub open spec fn run_over(m: OrchestratorModel) -> bool {
    m.phase is Draining || m.phase is Reporting || (m.phase is Terminated && m.ending != Some(
        Ending::ConstructionFailed,
    ))
}

/// The events of a session that starts and then meets the given
/// outcomes.
pub open spec fn session_events(payload_size: i32, outcomes: Seq<Outcome>) -> Seq<Event> {
    seq![Event::Started { payload_size }] + Seq::new(
        outcomes.len(),
        |i: int| Event::Outcome(outcomes[i]),
    )
}

/// How many of `arrived` outcomes a session with the settings `opt`
/// processes: all of them, or as many as its budget allows.
pub open spec fn processed(opt: Opt, arrived: nat) -> nat {
    if !opt.unbounded() && arrived > opt.max_packets {
        opt.max_packets as nat
    } else {
        arrived
    }
}

/// The action that follows when `count` outcomes have arrived.
pub open spec fn action_after(opt: Opt, count: nat) -> Action {
    if opt.unbounded() || count < opt.max_packets {
        Action::Receive
    } else if count == opt.max_packets {
        Action::Stop
    } else {
        Action::Ignore
    }
}

/// Whatever events come: after each of them the counters agree (no more
/// timeouts than events, one sample for each other event), a run with a
/// budget has not gone past it, no event is counted twice, and there is
/// one answer for each event.
pub proof fn lemma_run_keeps_invariant(m: OrchestratorModel, events: Seq<Event>)
    requires
        m.inv(),
    ensures
        run(m, events).0.inv(),
        run(m, events).0.opt == m.opt,
        run(m, events).1.len() == events.len(),
        run(m, events).0.session.sequence_number <= m.session.sequence_number + events.len(),
        run(m, events).0.session.sequence_number >= m.session.sequence_number,
    decreases events.len(),
{
    if events.len() > 0 {
        lemma_run_keeps_invariant(m, events.drop_last());
        let before = run(m, events.drop_last()).0;
        lemma_step_keeps_invariant(before, events.last());
    }
}

/// Whatever events come: the driver is told to stop the pinger once when
/// the run ends, and neither before nor again.
pub proof fn lemma_one_stop(m: OrchestratorModel, events: Seq<Event>)
    requires
        m.inv(),
    ensures
        stops(run(m, events).1) <= 1,
        stops(run(m, events).1) == 1 <==> (run_over(run(m, events).0) && !run_over(m)),
        run_over(m) ==> run_over(run(m, events).0),
    decreases events.len(),
{
    if events.len() > 0 {
        lemma_one_stop(m, events.drop_last());
        lemma_run_keeps_invariant(m, events.drop_last());
        let (before, reactions) = run(m, events.drop_last());
        let (after, reaction) = before.step(events.last());
        assert(run(m, events).1.drop_last() =~= reactions);
        assert(run(m, events).1.last() == reaction);
    }
}

/// There is one answer for each event.
pub proof fn lemma_run_len(m: OrchestratorModel, events: Seq<Event>)
    ensures
        run(m, events).1.len() == events.len(),
    decreases events.len(),
{
    if events.len() > 0 {
        lemma_run_len(m, events.drop_last());
    }
}

/// A run is taken in event by event: its first `count` answers are the
/// answers to its first `count` events, and the answer after them is the
/// step that the next event causes in the state reached by then.
pub proof fn lemma_run_prefix(m: OrchestratorModel, events: Seq<Event>, count: int)
    requires
        0 <= count <= events.len(),
    ensures
        run(m, events).1.take(count) == run(m, events.take(count)).1,
        count < events.len() ==> run(m, events).1[count] == run(m, events.take(count)).0.step(
            events[count],
        ).1,
    decreases events.len(),
{
    lemma_run_len(m, events);
    if count == events.len() {
        assert(events.take(count) =~= events);
        assert(run(m, events).1.take(count) =~= run(m, events).1);
    } else {
        let front = events.drop_last();
        lemma_run_prefix(m, front, count);
        lemma_run_len(m, front);
        assert(front.take(count) =~= events.take(count));
        assert(run(m, events).1.take(count) =~= run(m, front).1.take(count));
        if count == front.len() {
            assert(front.take(count) =~= front);
        }
    }
}

/// Once the run is over no event changes the counters: what arrives
/// while the pinger stops, or after, is not counted.
pub proof fn lemma_counters_rest_after_run(m: OrchestratorModel, events: Seq<Event>)
    requires
        m.phase is Draining || m.phase is Reporting || m.phase is Terminated,
    ensures
        run(m, events).0.session == m.session,
        run(m, events).0.ending == m.ending,
        run(m, events).0.phase is Draining || run(m, events).0.phase is Reporting || run(
            m,
            events,
        ).0.phase is Terminated,
    decreases events.len(),
{
    if events.len() > 0 {
        lemma_counters_rest_after_run(m, events.drop_last());
    }
}

/// The pinger is stopped before the summary is made. In a session from
/// its beginning, whatever events come, an answer that asks for the
/// summary comes after the one answer that asked for the stop, and the
/// summary is that of the counters as they stood at the stop.
pub proof fn lemma_stop_precedes_report(opt: Opt, events: Seq<Event>, index: int)
    requires
        0 <= index < events.len(),
        run(OrchestratorModel::start(opt), events).1[index].action is Report,
    ensures
        stops(run(OrchestratorModel::start(opt), events).1.take(index)) == 1,
        exists|stop: int|
            0 <= stop < index && (#[trigger] run(
                OrchestratorModel::start(opt),
                events,
            ).1[stop]).action is Stop && run(
                OrchestratorModel::start(opt),
                events,
            ).1[index].action->summary == run(
                OrchestratorModel::start(opt),
                events.take(stop + 1),
            ).0.session.summary(opt),
{
    let begin = OrchestratorModel::start(opt);
    let reactions = run(begin, events).1;
    lemma_run_len(begin, events);
    lemma_run_prefix(begin, events, index);
    let front = events.take(index);
    lemma_run_len(begin, front);
    lemma_run_keeps_invariant(begin, front);
    lemma_one_stop(begin, front);
    let before = run(begin, front).0;
    assert(before.phase is Draining);
    assert(stops(run(begin, front).1) == 1);
    lemma_stop_position(begin, front);
    let stop = choose|stop: int|
        0 <= stop < front.len() && (#[trigger] run(begin, front).1[stop]).action is Stop;
    assert(reactions.take(index)[stop] == reactions[stop]);
    // The state right after the stop, and the events from there on.
    lemma_run_prefix(begin, front, stop);
    let upto = front.take(stop + 1);
    assert(upto =~= events.take(stop + 1));
    assert(upto.drop_last() =~= front.take(stop));
    lemma_run_keeps_invariant(begin, front.take(stop));
    let at_stop = run(begin, upto).0;
    assert(at_stop.phase is Draining);
    let rest = front.skip(stop + 1);
    lemma_run_append(begin, upto, rest);
    assert(upto + rest =~= front);
    lemma_counters_rest_after_run(at_stop, rest);
}

/// Where a stop was asked for, one of the answers asked for it.
proof fn lemma_stop_position(m: OrchestratorModel, events: Seq<Event>)
    requires
        stops(run(m, events).1) >= 1,
    ensures
        exists|stop: int|
            0 <= stop < events.len() && (#[trigger] run(m, events).1[stop]).action is Stop,
    decreases events.len(),
{
    lemma_run_len(m, events);
    if events.len() > 0 {
        let reactions = run(m, events).1;
        let front = events.drop_last();
        lemma_run_len(m, front);
        assert(reactions.drop_last() =~= run(m, front).1);
        if reactions.last().action is Stop {
            assert(reactions[events.len() - 1].action is Stop);
        } else {
            lemma_stop_position(m, front);
            let stop = choose|stop: int|
                0 <= stop < front.len() && (#[trigger] run(m, front).1[stop]).action is Stop;
            assert(reactions[stop] == run(m, front).1[stop]);
        }
    }
}

/// Taking in two sequences of events one after the other is taking in
/// their concatenation.
pub proof fn lemma_run_append(m: OrchestratorModel, first: Seq<Event>, second: Seq<Event>)
    ensures
        run(m, first + second).0 == run(run(m, first).0, second).0,
        run(m, first + second).1 == run(m, first).1 + run(run(m, first).0, second).1,
    decreases second.len(),
{
    if second.len() == 0 {
        assert(first + second =~= first);
        assert(run(m, first).1 + Seq::<Reaction>::empty() =~= run(m, first).1);
    } else {
        lemma_run_append(m, first, second.drop_last());
        assert((first + second).drop_last() =~= first + second.drop_last());
        assert((first + second).last() == second.last());
        let middle = run(m, first).0;
        let (before, answers) = run(middle, second.drop_last());
        let answer = before.step(second.last()).1;
        assert(run(m, first).1 + answers.push(answer) =~= (run(m, first).1 + answers).push(
            answer,
        ));
    }
}

/// The answer to the outcome at `index` in a session that starts and
/// then meets `outcomes`: its line and the next action while the budget
/// lasts, nothing after that.
pub open spec fn reaction_to(opt: Opt, payload_size: i32, outcomes: Seq<Outcome>, index: int)
    -> Reaction {
    if opt.unbounded() || index < opt.max_packets {
        Reaction {
            line: Some(
                Line::Packet(
                    recorded(outcomes.take(index)).status(
                        opt.ttl,
                        packet_bytes_of(payload_size),
                        outcomes[index],
                    ),
                ),
            ),
            action: action_after(opt, (index + 1) as nat),
        }
    } else {
        Reaction { line: None, action: Action::Ignore }
    }
}

/// A session that starts and then meets the given outcomes takes them in
/// one by one, in the order in which they come, until its budget is used
/// up, and ignores the rest. Its counters are those of the outcomes it
/// took in; the opening line answers the start, and each outcome taken
/// in is answered by its own line.
pub proof fn lemma_run_of_outcomes(opt: Opt, payload_size: i32, outcomes: Seq<Outcome>)
    ensures
        ({
            let (m, reactions) = run(
                OrchestratorModel::start(opt),
                session_events(payload_size, outcomes),
            );
            let count = processed(opt, outcomes.len());
            &&& m.inv()
            &&& reactions.len() == outcomes.len() + 1
            &&& m.opt == opt
            &&& m.bytes == packet_bytes_of(payload_size)
            &&& m.session == recorded(outcomes.take(count as int))
            &&& m.session.sequence_number == count
            &&& m.phase == if opt.budget_reached(count) {
                Phase::Draining
            } else {
                Phase::Running
            }
            &&& m.ending == if opt.budget_reached(count) {
                Some(Ending::BudgetReached)
            } else {
                None::<Ending>
            }
            &&& reactions[0] == Reaction {
                line: Some(Line::Banner { target: opt.ip, payload_size }),
                action: action_after(opt, 0),
            }
            &&& forall|i: int|
                0 <= i < outcomes.len() ==> #[trigger] reactions[i + 1] == reaction_to(
                    opt,
                    payload_size,
                    outcomes,
                    i,
                )
        }),
    decreases outcomes.len(),
{
    let begin = OrchestratorModel::start(opt);
    let events = session_events(payload_size, outcomes);
    if outcomes.len() == 0 {
        assert(events.drop_last() =~= Seq::<Event>::empty());
        assert(events.last() == Event::Started { payload_size });
        assert(run(begin, events.drop_last()) == (begin, Seq::<Reaction>::empty()));
        assert(outcomes.take(0) =~= Seq::<Outcome>::empty());
    } else {
        let front = outcomes.drop_last();
        lemma_run_of_outcomes(opt, payload_size, front);
        assert(events.drop_last() =~= session_events(payload_size, front));
        assert(events.last() == Event::Outcome(outcomes.last()));
        let (before, answers) = run(begin, events.drop_last());
        let (after, answer) = before.step(events.last());
        let reactions = run(begin, events).1;
        assert(reactions == answers.push(answer));
        let taken = processed(opt, front.len());
        let count = processed(opt, outcomes.len());
        lemma_recorded_counts(front.take(taken as int));
        lemma_step_keeps_invariant(before, events.last());
        if before.phase is Running {
            assert(taken == front.len());
            assert(count == outcomes.len());
            assert(front.take(taken as int) =~= front);
            assert(outcomes.take(count as int) =~= outcomes);
            assert(outcomes.take(front.len() as int) =~= front);
            assert(answer == reaction_to(opt, payload_size, outcomes, front.len() as int));
        } else {
            assert(count == taken);
            assert(outcomes.take(count as int) =~= front.take(taken as int));
            assert(answer == reaction_to(opt, payload_size, outcomes, front.len() as int));
        }
        assert forall|i: int| 0 <= i < outcomes.len() implies #[trigger] reactions[i + 1]
            == reaction_to(opt, payload_size, outcomes, i) by {
            if i < front.len() {
                assert(reactions[i + 1] == answers[i + 1]);
                assert(outcomes.take(i) =~= front.take(i));
                assert(outcomes[i] == front[i]);
                assert(reaction_to(opt, payload_size, front, i) == reaction_to(
                    opt,
                    payload_size,
                    outcomes,
                    i,
                ));
            }
        }
    }
}

/// A run with a budget ends with it. Where at least as many outcomes
/// come as the budget allows, the session processes exactly that many,
/// answers the last of them by telling the driver to stop the pinger, and
/// tells it so that one time only.
pub proof fn lemma_bounded_run(opt: Opt, payload_size: i32, outcomes: Seq<Outcome>)
    requires
        opt.max_packets >= 0,
        outcomes.len() >= opt.max_packets,
    ensures
        ({
            let (m, reactions) = run(
                OrchestratorModel::start(opt),
                session_events(payload_size, outcomes),
            );
            &&& m.session.sequence_number == opt.max_packets
            &&& m.phase is Draining
            &&& m.ending == Some(Ending::BudgetReached)
            &&& stops(reactions) == 1
            &&& reactions[opt.max_packets as int].action is Stop
            &&& forall|i: int| 0 <= i < opt.max_packets ==> reactions[i].action is Receive
            &&& forall|i: int|
                opt.max_packets < i < reactions.len() ==> reactions[i].action is Ignore
        }),
{
    lemma_run_of_outcomes(opt, payload_size, outcomes);
    let begin = OrchestratorModel::start(opt);
    let events = session_events(payload_size, outcomes);
    lemma_one_stop(begin, events);
    let reactions = run(begin, events).1;
    assert forall|i: int| 0 <= i < opt.max_packets implies reactions[i].action is Receive by {
        if i > 0 {
            assert(reactions[(i - 1) + 1] == reaction_to(opt, payload_size, outcomes, i - 1));
        }
    }
    assert forall|i: int| opt.max_packets < i < reactions.len() implies reactions[i].action
        is Ignore by {
        assert(reactions[(i - 1) + 1] == reaction_to(opt, payload_size, outcomes, i - 1));
    }
    if opt.max_packets > 0 {
        let last = opt.max_packets - 1;
        assert(reactions[last + 1] == reaction_to(opt, payload_size, outcomes, last));
    }
}

/// Events are numbered as they arrive: the outcome that a session takes
/// in at `index`, counted from zero, is reported under the number
/// `index + 1` and with the host that it names, whatever came before it.
pub proof fn lemma_numbers_follow_arrival(
    opt: Opt,
    payload_size: i32,
    outcomes: Seq<Outcome>,
    index: int,
)
    requires
        0 <= index < processed(opt, outcomes.len()),
        index < u32::MAX,
    ensures
        run(
            OrchestratorModel::start(opt),
            session_events(payload_size, outcomes),
        ).1[index + 1].line matches Some(Line::Packet(status)) && status.number() == index + 1
            && status.host() == outcomes[index].host(),
{
    lemma_run_of_outcomes(opt, payload_size, outcomes);
    lemma_recorded_counts(outcomes.take(index));
    let reactions = run(OrchestratorModel::start(opt), session_events(payload_size, outcomes)).1;
    assert(reactions[index + 1] == reaction_to(opt, payload_size, outcomes, index));
}

/// A stream that breaks off ends the run but not the report. From any
/// running session, a broken stream has the pinger stopped; once it has
/// stopped, the summary is due, with the counters of the events that
/// were processed before the break; and the session then ends as failed.
pub proof fn lemma_disconnect_still_reports(m: OrchestratorModel)
    requires
        m.inv(),
        m.phase is Running,
        m.session.sequence_number <= u32::MAX,
    ensures
        ({
            let events = seq![Event::StreamClosed, Event::Stopped, Event::Reported];
            let (end, reactions) = run(m, events);
            let summary = m.session.summary(m.opt);
            &&& reactions =~= seq![
                Reaction { line: None, action: Action::Stop },
                Reaction {
                    line: None,
                    action: Action::Report { summary, ending: Ending::StreamDisconnected },
                },
                Reaction { line: None, action: Action::Exit { ending: Ending::StreamDisconnected } },
            ]
            &&& summary.transmitted == m.session.sequence_number
            &&& summary.received == m.session.sequence_number - m.session.failed_count
            &&& summary.received == m.session.rtt_samples.len()
            &&& end.phase is Terminated
            &&& end.session == m.session
            &&& Ending::StreamDisconnected.fatal()
        }),
{
    let events = seq![Event::StreamClosed, Event::Stopped, Event::Reported];
    let two = events.drop_last();
    let one = two.drop_last();
    assert(one.drop_last() =~= Seq::<Event>::empty());
    assert(one.last() == Event::StreamClosed);
    assert(two.last() == Event::Stopped);
    assert(events.last() == Event::Reported);
    assert(run(m, one.drop_last()) == (m, Seq::<Reaction>::empty()));
    let first = run(m, one);
    assert(first.0 == m.step(Event::StreamClosed).0);
    let second = run(m, two);
    assert(second.0 == first.0.step(Event::Stopped).0);
}

} // verus!
