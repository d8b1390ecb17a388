use homemon::structures::EnergyUsage;
use homemon::tapo::{
    Command, Delivery, EnergyResult, Session, TapoClient, Worker, WorkerAction, WorkerEvent,
    RETRY_BACKOFF_SECS,
};

fn reading(power: u64) -> EnergyResult {
    Ok(EnergyUsage {
        current_power: Some(power),
        electricity_charge: None,
        local_time: String::new(),
        month_energy: 0,
        month_runtime: 0,
        today_energy: 0,
        today_runtime: 0,
    })
}

fn failure() -> EnergyResult {
    Err("off".to_owned())
}

#[test]
fn polling_asks_and_never_waits() {
    let mut client = TapoClient::new();
    assert_eq!(client.take_command(), Command::Wait);
    assert_eq!(client.poll_energy(), None);
    assert_eq!(client.poll_energy(), None);
    assert_eq!(client.take_command(), Command::Fetch);
    assert_eq!(client.take_command(), Command::Wait);
    assert!(matches!(client.deliver(reading(5)), Delivery::Delivered));
    assert_eq!(client.poll_energy(), Some(reading(5)));
    assert_eq!(client.poll_energy(), None);
    assert_eq!(client.take_command(), Command::Fetch);
}

#[test]
fn reading_waits_until_the_last_was_taken() {
    let mut client = TapoClient::new();
    assert!(matches!(client.deliver(reading(1)), Delivery::Delivered));
    match client.deliver(reading(2)) {
        Delivery::Full(back) => assert_eq!(back, reading(2)),
        other => panic!("{other:?}"),
    }
    assert_eq!(client.poll_energy(), Some(reading(1)));
    assert!(matches!(client.deliver(reading(2)), Delivery::Delivered));
}

#[test]
fn worker_stops_when_the_monitor_has_gone() {
    let mut client = TapoClient::default();
    client.poll_energy();
    client.close();
    assert_eq!(client.take_command(), Command::Fetch);
    assert!(matches!(client.deliver(reading(1)), Delivery::Refused));
    assert_eq!(client.take_command(), Command::Stop);
}

#[test]
fn session_is_held_while_it_works() {
    let mut session: Session<u32> = Session::new();
    assert_eq!(session.begin(), None);
    assert_eq!(session.fetch_energy(7, reading(1)), reading(1));
    assert_eq!(session.begin(), Some(7));
    assert_eq!(session.fetch_energy(7, failure()), failure());
    assert_eq!(session.begin(), None);
}

#[test]
fn request_is_answered_once() {
    let mut worker = Worker::Idle;
    assert!(matches!(worker.step(WorkerEvent::Asked), WorkerAction::Fetch));
    match worker.step(WorkerEvent::Fetched(reading(3))) {
        WorkerAction::Answer(result) => assert_eq!(result, reading(3)),
        other => panic!("{other:?}"),
    }
    assert!(matches!(worker.step(WorkerEvent::Answered { taken: true }), WorkerAction::Wait));
    assert_eq!(worker, Worker::Idle);
}

#[test]
fn failed_attempt_is_made_once_more() {
    let mut worker = Worker::Idle;
    worker.step(WorkerEvent::Asked);
    assert!(matches!(worker.step(WorkerEvent::Fetched(failure())), WorkerAction::Fetch));
    match worker.step(WorkerEvent::Fetched(reading(3))) {
        WorkerAction::Answer(result) => assert_eq!(result, reading(3)),
        other => panic!("{other:?}"),
    }
}

#[test]
fn failure_that_was_answered_is_followed_by_a_pause() {
    let mut worker = Worker::Idle;
    worker.step(WorkerEvent::Asked);
    worker.step(WorkerEvent::Fetched(failure()));
    match worker.step(WorkerEvent::Fetched(failure())) {
        WorkerAction::Answer(result) => assert_eq!(result, failure()),
        other => panic!("{other:?}"),
    }
    assert!(matches!(
        worker.step(WorkerEvent::Answered { taken: true }),
        WorkerAction::Rest { secs: 5 }
    ));
    assert_eq!(RETRY_BACKOFF_SECS, 5);
    assert!(matches!(worker.step(WorkerEvent::Asked), WorkerAction::Nothing));
    assert_eq!(worker, Worker::Resting);
    assert!(matches!(worker.step(WorkerEvent::Rested), WorkerAction::Wait));
    assert!(matches!(worker.step(WorkerEvent::Asked), WorkerAction::Fetch));
}

#[test]
fn worker_stops_when_nobody_takes_the_answer() {
    let mut worker = Worker::Idle;
    worker.step(WorkerEvent::Asked);
    worker.step(WorkerEvent::Fetched(reading(1)));
    assert!(matches!(worker.step(WorkerEvent::Answered { taken: false }), WorkerAction::Stop));
    assert_eq!(worker, Worker::Stopped);
    let mut worker = Worker::Idle;
    assert!(matches!(worker.step(WorkerEvent::Closed), WorkerAction::Stop));
    assert!(matches!(worker.step(WorkerEvent::Asked), WorkerAction::Nothing));
}
