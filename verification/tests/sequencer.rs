use bevy::ecs::entity::Entity;

use stones::game::actions::agent::{Agent, Directive, Event};
use stones::game::actions::turn::{MovePiece, NextPlayer, SleepPieces, TimerCommand, Wait};
use stones::game::actions::{
    Action, AddOrder, ChainActions, ChainDrop, DeclareWinner, DropReason, PlayerMove, RunSystem,
    SpawnBoardAndPieces, Step, StopReason, UpdateLabels,
};
use stones::game::{setup_state, Hole, Player, PlayerTurn};
use stones::rules::position::Position;
use stones::rules::variants::Index;

fn agent_with(steps: &[char]) -> Agent<char> {
    let mut agent = Agent::new();
    for step in steps {
        agent.add(*step, AddOrder::Back);
    }
    agent
}

/// Drives the agent the way a tick does, with steps that report what
/// `finishes_at_once` says of them, until the agent rests or polls. Returns
/// every call that was made, in order.
fn drive(agent: &mut Agent<char>, first: Event<char>, finishes_at_once: fn(char) -> bool) -> Vec<String> {
    let mut calls = Vec::new();
    let mut directive = agent.handle(first);
    loop {
        let event = match directive {
            Directive::Start(step) => {
                calls.push(format!("start {step}"));
                Event::Started(step, finishes_at_once(step))
            }
            Directive::Stop(step, reason) => {
                calls.push(format!("stop {step} {reason:?}"));
                Event::Stopped(step)
            }
            Directive::Drop(step, reason) => {
                calls.push(format!("drop {step} {reason:?}"));
                Event::Dropped
            }
            Directive::Poll => {
                calls.push("poll".to_string());
                return calls;
            }
            Directive::Rest => {
                calls.push("rest".to_string());
                return calls;
            }
        };
        directive = agent.handle(event);
    }
}

fn piece() -> Entity {
    Entity::from_raw(3)
}

fn place() -> Position {
    Position { x: 1, y: 2, z: 3 }
}

#[test]
fn new_agent_rests() {
    let mut agent: Agent<char> = Agent::new();
    assert_eq!(agent.len(), 0);
    assert!(agent.is_idle());
    assert!(agent.current().is_none());
    assert!(matches!(agent.handle(Event::Wake), Directive::Rest));
    assert!(agent.is_idle());
}

#[test]
fn steps_that_finish_at_once_run_in_order_in_one_go() {
    let mut agent = agent_with(&['a', 'b', 'c']);
    let calls = drive(&mut agent, Event::Wake, |_| true);
    assert_eq!(
        calls,
        vec![
            "start a",
            "stop a Finished",
            "drop a Done",
            "start b",
            "stop b Finished",
            "drop b Done",
            "start c",
            "stop c Finished",
            "drop c Done",
            "rest",
        ]
    );
    assert!(agent.is_idle());
    assert_eq!(agent.len(), 0);
}

#[test]
fn a_step_is_started_only_after_the_one_ahead_has_finished() {
    let mut agent = agent_with(&['a', 'b', 'c']);
    let calls = drive(&mut agent, Event::Wake, |_| false);
    assert_eq!(calls, vec!["start a", "poll"]);
    assert_eq!(agent.current(), Some(&'a'));
    assert_eq!(agent.len(), 2);

    // Waking the agent or polling an unfinished step starts nothing.
    assert_eq!(drive(&mut agent, Event::Wake, |_| false), vec!["poll"]);
    assert_eq!(drive(&mut agent, Event::Polled(false), |_| false), vec!["poll"]);
    assert_eq!(agent.current(), Some(&'a'));

    let calls = drive(&mut agent, Event::Polled(true), |_| false);
    assert_eq!(calls, vec!["stop a Finished", "drop a Done", "start b", "poll"]);
    assert_eq!(agent.current(), Some(&'b'));

    let calls = drive(&mut agent, Event::Polled(true), |step| step == 'c');
    assert_eq!(
        calls,
        vec![
            "stop b Finished",
            "drop b Done",
            "start c",
            "stop c Finished",
            "drop c Done",
            "rest",
        ]
    );
    assert!(agent.is_idle());
}

#[test]
fn a_paused_step_goes_back_to_the_front_and_starts_afresh() {
    let mut agent = agent_with(&['a', 'b']);
    drive(&mut agent, Event::Wake, |_| false);
    let calls = drive(&mut agent, Event::Pause, |_| false);
    assert_eq!(calls, vec!["stop a Paused", "rest"]);
    assert!(agent.is_idle());
    assert_eq!(agent.len(), 2);

    let calls = drive(&mut agent, Event::Wake, |_| false);
    assert_eq!(calls, vec!["start a", "poll"]);
    assert_eq!(agent.len(), 1);
}

#[test]
fn a_canceled_step_is_dropped_and_the_next_waits_to_be_woken() {
    let mut agent = agent_with(&['a', 'b']);
    drive(&mut agent, Event::Wake, |_| false);
    let calls = drive(&mut agent, Event::Cancel, |_| false);
    assert_eq!(calls, vec!["stop a Canceled", "drop a Done", "rest"]);
    assert!(agent.is_idle());
    assert_eq!(agent.len(), 1);

    let calls = drive(&mut agent, Event::Wake, |_| false);
    assert_eq!(calls, vec!["start b", "poll"]);
}

#[test]
fn pause_and_cancel_without_a_running_step_do_nothing() {
    let mut agent = agent_with(&['a']);
    assert!(matches!(agent.handle(Event::Pause), Directive::Rest));
    assert!(matches!(agent.handle(Event::Cancel), Directive::Rest));
    assert!(matches!(agent.handle(Event::Polled(true)), Directive::Rest));
    assert!(matches!(agent.handle(Event::Dropped), Directive::Rest));
    assert!(agent.is_idle());
    assert_eq!(agent.len(), 1);
}

#[test]
fn a_step_that_was_not_asked_for_is_handed_back_as_skipped() {
    let mut agent = agent_with(&['a']);
    let back = agent.handle(Event::Started('x', true));
    assert!(matches!(back, Directive::Drop('x', DropReason::Skipped)));
    let back = agent.handle(Event::Stopped('y'));
    assert!(matches!(back, Directive::Drop('y', DropReason::Skipped)));
    assert!(agent.is_idle());
    assert_eq!(agent.len(), 1);
}

#[test]
fn add_puts_a_step_at_either_end() {
    let mut agent = agent_with(&['b']);
    agent.add('c', AddOrder::Back);
    agent.add('a', AddOrder::Front);
    assert_eq!(agent.clear(), vec!['a', 'b', 'c']);
}

#[test]
fn add_all_keeps_the_order_of_the_steps() {
    let mut agent = agent_with(&['m']);
    agent.add_all(vec!['x', 'y', 'z'], AddOrder::Back);
    agent.add_all(vec!['a', 'b', 'c'], AddOrder::Front);
    agent.add_all(vec![], AddOrder::Front);
    agent.add_all(vec![], AddOrder::Back);
    assert_eq!(agent.len(), 7);
    assert_eq!(agent.clear(), vec!['a', 'b', 'c', 'm', 'x', 'y', 'z']);
    assert_eq!(agent.len(), 0);
}

#[test]
fn skip_takes_the_first_step_that_waits() {
    let mut agent = agent_with(&['a', 'b']);
    assert_eq!(agent.skip(), Some('a'));
    assert_eq!(agent.skip(), Some('b'));
    assert_eq!(agent.skip(), None);
}

#[test]
fn clear_leaves_the_running_step() {
    let mut agent = agent_with(&['a', 'b', 'c']);
    drive(&mut agent, Event::Wake, |_| false);
    assert_eq!(agent.clear(), vec!['b', 'c']);
    assert_eq!(agent.current(), Some(&'a'));
    let calls = drive(&mut agent, Event::Polled(true), |_| false);
    assert_eq!(calls, vec!["stop a Finished", "drop a Done", "rest"]);
}

#[test]
fn steps_added_while_one_runs_wait_their_turn() {
    let mut agent = agent_with(&['a']);
    drive(&mut agent, Event::Wake, |_| false);
    agent.add('b', AddOrder::Back);
    agent.add('c', AddOrder::Front);
    assert_eq!(agent.current(), Some(&'a'));
    let calls = drive(&mut agent, Event::Polled(true), |_| false);
    assert_eq!(calls, vec!["stop a Finished", "drop a Done", "start c", "poll"]);
}

#[test]
fn run_system_is_done_at_once() {
    let labels = UpdateLabels::new();
    assert!(labels.is_finished());
    assert_eq!(labels.on_start(), (&(), true));

    let index = Index::Player(Player(1), Hole(4));
    let player_move = PlayerMove::with_input(index);
    assert_eq!(player_move.input, index);
    assert_eq!(player_move.on_start(), (&index, true));

    let winner = DeclareWinner::with_input(Player(1));
    assert!(winner.is_finished());
    assert_eq!(winner.on_start(), (&Player(1), true));
    assert_eq!(RunSystem::with_input(7u8).input, 7);
}

#[test]
fn wait_without_a_timer_asks_for_one() {
    let wait = Wait::from_millis(250);
    assert_eq!(wait.millis, 250);
    assert_eq!(wait.on_start(None), (TimerCommand::Insert(250), false));
}

#[test]
fn wait_with_a_timer_takes_it_up_again() {
    let wait = Wait::from_millis(250);
    assert_eq!(wait.on_start(Some(false)), (TimerCommand::Unpause, false));
    assert_eq!(wait.on_start(Some(true)), (TimerCommand::Unpause, true));
}

#[test]
fn wait_is_finished_when_the_timer_has_run_out_or_is_gone() {
    let wait = Wait::from_millis(250);
    assert!(wait.is_finished(None));
    assert!(wait.is_finished(Some(true)));
    assert!(!wait.is_finished(Some(false)));
}

#[test]
fn wait_on_stop_holds_or_removes_the_timer() {
    let wait = Wait::from_millis(250);
    let agent = Some(Entity::from_raw(1));
    assert_eq!(wait.on_stop(agent, StopReason::Paused), TimerCommand::Pause);
    assert_eq!(wait.on_stop(agent, StopReason::Finished), TimerCommand::Remove);
    assert_eq!(wait.on_stop(agent, StopReason::Canceled), TimerCommand::Remove);
    assert_eq!(wait.on_stop(None, StopReason::Paused), TimerCommand::Leave);
    assert_eq!(wait.on_stop(None, StopReason::Finished), TimerCommand::Leave);
}

#[test]
fn only_a_wait_is_ever_unfinished() {
    let actions = [
        Action::SpawnBoardAndPieces(SpawnBoardAndPieces),
        Action::UpdateLabels(UpdateLabels::new()),
        Action::PlayerMove(PlayerMove::with_input(Index::Score(Player(0)))),
        Action::MovePiece(MovePiece { stone: piece(), destination: place() }),
        Action::NextPlayer(NextPlayer(Player(0))),
        Action::DeclareWinner(DeclareWinner::with_input(Player(0))),
        Action::SleepPieces(SleepPieces),
    ];
    for action in actions {
        assert!(action.is_finished(Some(false)));
        assert_eq!(action.on_stop(Some(piece()), StopReason::Paused), TimerCommand::Leave);
    }
    let wait = Action::Wait(Wait::from_millis(1));
    assert!(!wait.is_finished(Some(false)));
    assert_eq!(wait.on_stop(Some(piece()), StopReason::Paused), TimerCommand::Pause);
}

#[test]
fn next_player_gives_the_turn_and_queues_the_rest() {
    let mut turn = PlayerTurn::NoOne;
    let step = NextPlayer(Player(1));
    assert!(step.is_finished());
    let (steps, finished) = step.on_start(&mut turn);
    assert!(finished);
    assert_eq!(turn, PlayerTurn::Player(1));
    assert_eq!(
        steps,
        vec![
            Step::Single(Action::UpdateLabels(UpdateLabels::new())),
            Step::Single(Action::Wait(Wait::from_millis(500))),
            Step::Single(Action::SleepPieces(SleepPieces)),
        ]
    );
    assert_eq!(NextPlayer::SETTLE_MILLIS, 500);
}

#[test]
fn player_turn_as_an_option() {
    assert_eq!(Option::<usize>::from(PlayerTurn::Player(1)), Some(1));
    assert_eq!(Option::<usize>::from(PlayerTurn::NoOne), None);
    assert_eq!(PlayerTurn::default(), PlayerTurn::NoOne);
}

#[test]
fn new_chain_begins_with_its_first_action() {
    let chain = MovePiece::new_action(piece(), place());
    assert_eq!(chain.index(), 0);
    assert!(!chain.canceled());
    assert_eq!(chain.current(), &Action::MovePiece(MovePiece { stone: piece(), destination: place() }));
    assert_eq!(chain.actions()[1], Action::Wait(Wait::from_millis(100)));
    assert!(chain.is_finished(Some(false)));
}

#[test]
fn chain_dropped_as_done_asks_to_be_queued_again() {
    let chain = MovePiece::new_action(piece(), place());
    let ChainDrop::Requeue(rest) = chain.on_drop(Some(piece()), DropReason::Done) else {
        panic!("the chain has an action left");
    };
    assert_eq!(rest.index(), 1);
    assert_eq!(rest.current(), &Action::Wait(Wait::from_millis(100)));
    assert!(!rest.is_finished(Some(false)));
    assert!(rest.is_finished(Some(true)));
    assert_eq!(rest.on_drop(Some(piece()), DropReason::Done), ChainDrop::Finished);
}

#[test]
fn chain_that_was_canceled_is_removed() {
    let mut chain = MovePiece::new_action(piece(), place());
    let stopped = chain.on_stop(StopReason::Canceled);
    assert_eq!(stopped, Action::MovePiece(MovePiece { stone: piece(), destination: place() }));
    assert!(chain.canceled());
    let ChainDrop::Remove(rest) = chain.on_drop(Some(piece()), DropReason::Done) else {
        panic!("a canceled chain is removed");
    };
    assert_eq!(rest.index(), 1);
    assert_eq!(rest.actions(), chain.actions());
}

#[test]
fn chain_forgets_a_cancellation_when_it_is_stopped_again() {
    let mut chain = MovePiece::new_action(piece(), place());
    chain.on_stop(StopReason::Canceled);
    chain.on_stop(StopReason::Paused);
    assert!(!chain.canceled());
    chain.on_stop(StopReason::Finished);
    assert!(!chain.canceled());
    assert!(matches!(chain.on_drop(Some(piece()), DropReason::Done), ChainDrop::Requeue(_)));
}

#[test]
fn chain_that_is_skipped_or_cleared_is_removed() {
    let chain = MovePiece::new_action(piece(), place());
    assert!(matches!(chain.on_drop(Some(piece()), DropReason::Skipped), ChainDrop::Remove(_)));
    assert!(matches!(chain.on_drop(Some(piece()), DropReason::Cleared), ChainDrop::Remove(_)));
    assert!(matches!(chain.on_drop(None, DropReason::Cleared), ChainDrop::Remove(_)));
}

#[test]
fn chain_without_an_agent_is_gone() {
    let chain = MovePiece::new_action(piece(), place());
    assert_eq!(chain.on_drop(None, DropReason::Done), ChainDrop::Orphaned);
}

#[test]
fn chain_of_one_is_finished_when_dropped() {
    let chain = ChainActions::new([Action::SleepPieces(SleepPieces)]);
    assert_eq!(chain.on_drop(Some(piece()), DropReason::Skipped), ChainDrop::Finished);
    assert_eq!(chain.on_drop(None, DropReason::Done), ChainDrop::Finished);
}

#[test]
fn step_goes_to_the_action_whose_turn_it_is() {
    let single = Step::Single(Action::SleepPieces(SleepPieces));
    assert_eq!(single.current(), Action::SleepPieces(SleepPieces));
    assert!(single.is_finished(Some(false)));

    let chain = Step::Chain(MovePiece::new_action(piece(), place()));
    assert_eq!(chain.current(), Action::MovePiece(MovePiece { stone: piece(), destination: place() }));
    assert!(chain.is_finished(Some(false)));
}

#[test]
fn step_on_stop_reaches_the_wait_of_a_chain() {
    let ChainDrop::Requeue(rest) =
        MovePiece::new_action(piece(), place()).on_drop(Some(piece()), DropReason::Done)
    else {
        panic!("the chain has an action left");
    };
    let mut step = Step::Chain(rest);
    assert_eq!(step.on_stop(Some(piece()), StopReason::Paused), TimerCommand::Pause);
    assert_eq!(step.on_stop(Some(piece()), StopReason::Canceled), TimerCommand::Remove);
    let Step::Chain(chain) = step else {
        panic!("the step is a chain");
    };
    assert!(chain.canceled());

    let mut single = Step::Single(Action::Wait(Wait::from_millis(5)));
    assert_eq!(single.on_stop(None, StopReason::Finished), TimerCommand::Leave);
    assert_eq!(single, Step::Single(Action::Wait(Wait::from_millis(5))));
}

#[test]
fn dropped_chain_goes_back_in_front_of_the_queue() {
    let mut queue: Agent<Step> = Agent::new();
    queue.add(Step::Single(Action::SleepPieces(SleepPieces)), AddOrder::Back);
    let chain = MovePiece::new_action(piece(), place());

    Step::Chain(chain).on_drop(Some(piece()), &mut queue, DropReason::Done);
    assert_eq!(queue.len(), 2);
    let Some(Step::Chain(rest)) = queue.skip() else {
        panic!("the chain stands in front");
    };
    assert_eq!(rest.index(), 1);

    Step::Chain(rest).on_drop(Some(piece()), &mut queue, DropReason::Done);
    assert_eq!(queue.len(), 1);
    Step::Chain(chain).on_drop(None, &mut queue, DropReason::Done);
    Step::Chain(chain).on_drop(Some(piece()), &mut queue, DropReason::Skipped);
    Step::Single(Action::SleepPieces(SleepPieces)).on_drop(Some(piece()), &mut queue, DropReason::Done);
    assert_eq!(queue.len(), 1);
}

// A move and its rest, played through the queue: the piece is put down at
// once, the rest keeps the queue waiting, and only then comes the next step.
#[test]
fn a_relocation_runs_as_two_steps_of_one() {
    let agent_entity = Some(Entity::from_raw(9));
    let mut queue: Agent<Step> = Agent::new();
    queue.add(Step::Chain(MovePiece::new_action(piece(), place())), AddOrder::Back);
    queue.add(Step::Single(Action::SleepPieces(SleepPieces)), AddOrder::Back);

    let mut timer: Option<bool> = None;
    let mut started = Vec::new();
    let mut directive = queue.handle(Event::Wake);
    loop {
        let event = match directive {
            Directive::Start(step) => {
                let action = step.current();
                started.push(action);
                let finished = match action {
                    Action::Wait(wait) => {
                        let (command, finished) = wait.on_start(timer);
                        assert_eq!(command, TimerCommand::Insert(100));
                        timer = Some(false);
                        finished
                    }
                    _ => true,
                };
                Event::Started(step, finished)
            }
            Directive::Stop(mut step, reason) => {
                if step.on_stop(agent_entity, reason) == TimerCommand::Remove {
                    timer = None;
                }
                Event::Stopped(step)
            }
            Directive::Drop(step, reason) => {
                step.on_drop(agent_entity, &mut queue, reason);
                Event::Dropped
            }
            Directive::Poll => {
                let step = *queue.current().unwrap();
                if timer == Some(true) {
                    assert!(step.is_finished(timer));
                    Event::Polled(true)
                } else {
                    assert!(!step.is_finished(timer));
                    assert_eq!(started.len(), 2);
                    // Time goes by.
                    timer = Some(true);
                    Event::Polled(false)
                }
            }
            Directive::Rest => break,
        };
        directive = queue.handle(event);
    }
    assert_eq!(
        started,
        vec![
            Action::MovePiece(MovePiece { stone: piece(), destination: place() }),
            Action::Wait(Wait::from_millis(100)),
            Action::SleepPieces(SleepPieces),
        ]
    );
    assert_eq!(timer, None);
    assert!(queue.is_idle());
    assert_eq!(queue.len(), 0);
}

#[test]
fn setup_state_queues_the_opening() {
    let mut queue: Agent<Step> = Agent::new();
    queue.add(Step::Single(Action::SleepPieces(SleepPieces)), AddOrder::Back);
    setup_state(&mut queue);
    assert!(queue.is_idle());
    assert_eq!(
        queue.clear(),
        vec![
            Step::Single(Action::SleepPieces(SleepPieces)),
            Step::Single(Action::SpawnBoardAndPieces(SpawnBoardAndPieces)),
            Step::Single(Action::NextPlayer(NextPlayer(Player(1)))),
        ]
    );
}
