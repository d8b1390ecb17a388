//! The energy plug: what is asked of it, what it has answered, and when it is left alone.

use vstd::prelude::*;

use crate::structures::EnergyUsage;

verus! {

/// How long the worker leaves the plug alone after a reading it could not get.
///
/// A plug that is off refuses the connection straight away, so without this the monitor's requests
/// turn into a tight reconnect loop against nothing.
pub const RETRY_BACKOFF_SECS: u64 = 5;

/// A reading, or what went wrong instead.
pub type EnergyResult = Result<EnergyUsage, String>;

/// What the monitor and the plug's worker hand each other.
///
/// One place each way. The monitor only ever wants the newest reading, so a backlog would do
/// nothing but hand it older ones, and a request that has not been taken up already stands for the
/// next one.
#[derive(Debug)]
pub struct TapoClient {
    request: bool,
    reading: Option<EnergyResult>,
    closed: bool,
}

/// What the worker finds when it looks for a request.
#[derive(Debug, Clone, Copy, PartialEq, Eq, Structural)]
pub enum Command {
    /// A reading is asked for.
    Fetch,
    /// Nothing is asked for yet.
    Wait,
    /// Nothing will be asked for any more.
    Stop,
}

/// What became of a reading that the worker handed over.
#[derive(Debug)]
pub enum Delivery {
    /// It waits for the monitor.
    Delivered,
    /// One that the monitor has not taken yet is in its place.
    Full(EnergyResult),
    /// Nobody will take it.
    Refused,
}

impl TapoClient {
    /// A request waits for the worker.
    pub closed spec fn is_asked(self) -> bool {
        self.request
    }

    /// What waits for the monitor.
    pub closed spec fn waiting(self) -> Option<EnergyResult> {
        self.reading
    }

    /// The monitor has gone.
    pub closed spec fn is_closed(self) -> bool {
        self.closed
    }

    /// Nothing asked, nothing answered.
    pub fn new() -> (client: Self)
        ensures
            !client.is_asked(),
            client.waiting() is None,
            !client.is_closed(),
    {
        TapoClient { request: false, reading: None, closed: false }
    }

    /// Whatever the plug has answered since this was last called, and a request for the next
    /// reading.
    ///
    /// Never waits on the plug: a plug that is slow or gone leaves the energy figure standing still
    /// instead of freezing the whole page. `None` means that no reading arrived since the last
    /// call, not that anything is wrong. A request that waits already is as good as another one.
    pub fn poll_energy(&mut self) -> (latest: Option<EnergyResult>)
        ensures
            latest == old(self).waiting(),
            final(self).waiting() is None,
            final(self).is_asked(),
            final(self).is_closed() == old(self).is_closed(),
    {
        let latest = self.reading.take();
        self.request = true;
        latest
    }

    /// The monitor goes.
    pub fn close(&mut self)
        ensures
            final(self).is_closed(),
            final(self).is_asked() == old(self).is_asked(),
            final(self).waiting() == old(self).waiting(),
    {
        self.closed = true;
    }

    /// The worker looks for a request, and takes the one that it finds. One that was made before
    /// the monitor went is still taken.
    pub fn take_command(&mut self) -> (command: Command)
        ensures
            command == (if old(self).is_asked() {
                Command::Fetch
            } else if old(self).is_closed() {
                Command::Stop
            } else {
                Command::Wait
            }),
            !final(self).is_asked(),
            final(self).waiting() == old(self).waiting(),
            final(self).is_closed() == old(self).is_closed(),
    {
        let asked: bool = self.request;
        self.request = false;
        if asked {
            Command::Fetch
        } else if self.closed {
            Command::Stop
        } else {
            Command::Wait
        }
    }

    /// The worker hands a reading over. It is given back where the last one was not taken yet.
    pub fn deliver(&mut self, result: EnergyResult) -> (delivery: Delivery)
        ensures
            match delivery {
                Delivery::Delivered => !old(self).is_closed() && old(self).waiting() is None
                    && final(self).waiting() == Some(result),
                Delivery::Full(back) => !old(self).is_closed() && old(self).waiting() is Some
                    && back == result && final(self).waiting() == old(self).waiting(),
                Delivery::Refused => old(self).is_closed() && final(self).waiting() == old(
                    self,
                ).waiting(),
            },
            final(self).is_asked() == old(self).is_asked(),
            final(self).is_closed() == old(self).is_closed(),
    {
        if self.closed {
            return Delivery::Refused;
        }
        if self.reading.is_some() {
            return Delivery::Full(result);
        }
        self.reading = Some(result);
        Delivery::Delivered
    }
}

impl Default for TapoClient {
    fn default() -> (client: Self)
        ensures
            !client.is_asked(),
            client.waiting() is None,
            !client.is_closed(),
    {
        TapoClient::new()
    }
}

/// The session with the plug, held only while it works.
#[derive(Debug)]
pub struct Session<H> {
    device: Option<H>,
}

impl<H> Session<H> {
    /// The session that is held.
    pub closed spec fn held(self) -> Option<H> {
        self.device
    }

    /// No session.
    pub fn new() -> (session: Self)
        ensures
            session.held() is None,
    {
        Session { device: None }
    }

    /// The session to ask, or `None` where a fresh one has to be made. It is not held any more
    /// until it has answered: one that fails is forgotten, so that the next attempt handshakes
    /// again instead of retrying against a session that the plug has already forgotten.
    pub fn begin(&mut self) -> (handler: Option<H>)
        ensures
            handler == old(self).held(),
            final(self).held() is None,
    {
        self.device.take()
    }

    /// Takes the session back with what it answered, and holds on to it where that is a reading.
    pub fn fetch_energy(&mut self, handler: H, result: EnergyResult) -> (reading: EnergyResult)
        ensures
            reading == result,
            final(self).held() == (if result is Ok {
                Some(handler)
            } else {
                old(self).held()
            }),
    {
        if result.is_ok() {
            self.device = Some(handler);
        }
        result
    }
}

impl<H> Default for Session<H> {
    fn default() -> (session: Self)
        ensures
            session.held() is None,
    {
        Session::new()
    }
}

/// What the plug's worker is in the middle of.
#[derive(Debug, Clone, Copy, PartialEq, Eq, Structural)]
pub enum Worker {
    /// Waiting for a request.
    Idle,
    /// Asking the plug, for the first or for the second time.
    Fetching { again: bool },
    /// Handing over a reading, or the failure to get one.
    Answering { failed: bool },
    /// Leaving the plug alone.
    Resting,
    /// Done.
    Stopped,
}

/// What happens to the plug's worker.
#[derive(Debug)]
pub enum WorkerEvent {
    /// A reading is asked for.
    Asked,
    /// Nothing will be asked for any more.
    Closed,
    /// The plug has answered, or has not.
    Fetched(EnergyResult),
    /// The reading was taken, or nobody is there to take it.
    Answered { taken: bool },
    /// The pause is over.
    Rested,
}

/// What the plug's worker is to do next.
#[derive(Debug)]
pub enum WorkerAction {
    /// Wait for a request.
    Wait,
    /// Ask the plug.
    Fetch,
    /// Hand this over.
    Answer(EnergyResult),
    /// Leave the plug alone for so many seconds.
    Rest { secs: u64 },
    /// Nothing more.
    Stop,
    /// Carry on: the event is not one for this moment.
    Nothing,
}

impl Worker {
    /// What the worker is in the middle of after an event, and what it is to do.
    ///
    /// Every request is answered exactly once. A second attempt happens at once rather than with
    /// the next request: a plug that has dropped its session fails the first call and answers a
    /// freshly handshaked one fine, and either way whoever asked is owed an answer.
    pub open spec fn after(self, event: WorkerEvent) -> (Worker, WorkerAction) {
        match (self, event) {
            (Worker::Idle, WorkerEvent::Asked) => (
                Worker::Fetching { again: false },
                WorkerAction::Fetch,
            ),
            (Worker::Idle, WorkerEvent::Closed) => (Worker::Stopped, WorkerAction::Stop),
            (Worker::Fetching { again }, WorkerEvent::Fetched(result)) => if result is Err
                && !again {
                (Worker::Fetching { again: true }, WorkerAction::Fetch)
            } else {
                (Worker::Answering { failed: result is Err }, WorkerAction::Answer(result))
            },
            (Worker::Answering { failed }, WorkerEvent::Answered { taken }) => if !taken {
                (Worker::Stopped, WorkerAction::Stop)
            } else if failed {
                (Worker::Resting, WorkerAction::Rest { secs: RETRY_BACKOFF_SECS })
            } else {
                (Worker::Idle, WorkerAction::Wait)
            },
            (Worker::Resting, WorkerEvent::Rested) => (Worker::Idle, WorkerAction::Wait),
            _ => (self, WorkerAction::Nothing),
        }
    }

    /// Takes an event and says what to do.
    pub fn step(&mut self, event: WorkerEvent) -> (action: WorkerAction)
        ensures
            (*final(self), action) == old(self).after(event),
    {
        let state: Worker = *self;
        match (state, event) {
            (Worker::Idle, WorkerEvent::Asked) => {
                *self = Worker::Fetching { again: false };
                WorkerAction::Fetch
            },
            (Worker::Idle, WorkerEvent::Closed) => {
                *self = Worker::Stopped;
                WorkerAction::Stop
            },
            (Worker::Fetching { again }, WorkerEvent::Fetched(result)) => {
                let failed: bool = result.is_err();
                if failed && !again {
                    *self = Worker::Fetching { again: true };
                    WorkerAction::Fetch
                } else {
                    *self = Worker::Answering { failed };
                    WorkerAction::Answer(result)
                }
            },
            (Worker::Answering { failed }, WorkerEvent::Answered { taken }) => {
                if !taken {
                    *self = Worker::Stopped;
                    WorkerAction::Stop
                } else if failed {
                    *self = Worker::Resting;
                    WorkerAction::Rest { secs: RETRY_BACKOFF_SECS }
                } else {
                    *self = Worker::Idle;
                    WorkerAction::Wait
                }
            },
            (Worker::Resting, WorkerEvent::Rested) => {
                *self = Worker::Idle;
                WorkerAction::Wait
            },
            _ => WorkerAction::Nothing,
        }
    }
}

/// What the worker is in the middle of after some events, having started idle.
pub open spec fn worker_after(events: Seq<WorkerEvent>) -> Worker
    decreases events.len(),
{
    if events.len() == 0 {
        Worker::Idle
    } else {
        worker_after(events.drop_last()).after(events.last()).0
    }
}

/// How many requests the worker has taken up over some events.
pub open spec fn requests_taken(events: Seq<WorkerEvent>) -> nat
    decreases events.len(),
{
    if events.len() == 0 {
        0
    } else {
        let before = worker_after(events.drop_last());
        requests_taken(events.drop_last()) + (if before is Idle && events.last() is Asked {
            1nat
        } else {
            0nat
        })
    }
}

/// How many of the worker's actions over some events have been of one kind.
pub open spec fn actions_taken(events: Seq<WorkerEvent>, kind: spec_fn(WorkerAction) -> bool) -> nat
    decreases events.len(),
{
    if events.len() == 0 {
        0
    } else {
        let action = worker_after(events.drop_last()).after(events.last()).1;
        actions_taken(events.drop_last(), kind) + (if kind(action) {
            1nat
        } else {
            0nat
        })
    }
}

/// How many answers the worker has given over some events.
pub open spec fn answers_given(events: Seq<WorkerEvent>) -> nat {
    actions_taken(events, |action: WorkerAction| action is Answer)
}

/// How often the worker has asked the plug over some events.
pub open spec fn attempts_made(events: Seq<WorkerEvent>) -> nat {
    actions_taken(events, |action: WorkerAction| action is Fetch)
}

/// Whatever happens, every request that the worker takes up is answered exactly once, apart from
/// the one it is in the middle of; and no request costs the plug more than two attempts.
pub proof fn law_every_request_is_answered_once(events: Seq<WorkerEvent>)
    ensures
        answers_given(events) + (if worker_after(events) is Fetching {
            1nat
        } else {
            0nat
        }) == requests_taken(events),
        requests_taken(events) <= attempts_made(events) <= 2 * requests_taken(events),
        worker_after(events) == (Worker::Fetching { again: false }) ==> attempts_made(events) < 2
            * requests_taken(events),
    decreases events.len(),
{
    if events.len() > 0 {
        law_every_request_is_answered_once(events.drop_last());
    }
}

/// A failure that was answered is followed by a pause: whatever happens next, the plug is not asked
/// again before the pause is over.
pub proof fn law_failure_is_followed_by_a_pause(event: WorkerEvent)
    ensures
        (Worker::Answering { failed: true }).after(WorkerEvent::Answered { taken: true }) == (
            Worker::Resting,
            WorkerAction::Rest { secs: RETRY_BACKOFF_SECS },
        ),
        !(Worker::Resting.after(event).1 is Fetch),
        Worker::Resting.after(event).0 != Worker::Resting ==> event is Rested,
{
}

/// Whoever asks is handed what the plug said: a reading is answered as soon as it is there, as it
/// is, and a failure is answered once a second attempt has failed too, with what went wrong then.
pub proof fn law_answer_is_what_the_plug_said(result: EnergyResult, again: bool)
    ensures
        Worker::Idle.after(WorkerEvent::Asked) == (
            Worker::Fetching { again: false },
            WorkerAction::Fetch,
        ),
        ({
            let (next, action) = (Worker::Fetching { again }).after(WorkerEvent::Fetched(result));
            &&& result is Ok ==> action == WorkerAction::Answer(result) && next == (
            Worker::Answering { failed: false })
            &&& result is Err && again ==> action == WorkerAction::Answer(result) && next == (
            Worker::Answering { failed: true })
            &&& result is Err && !again ==> action is Fetch && next == (Worker::Fetching {
                again: true,
            })
        }),
{
}

/// The worker goes on as long as somebody is there: after a reading was taken it waits for the next
/// request, after a failure it rests for five seconds and then does. It stops when nothing will be
/// asked for any more, or nobody takes its answer, and not before.
pub proof fn law_worker_goes_on(worker: Worker, event: WorkerEvent)
    ensures
        ({
            let (next, action) = worker.after(event);
            let taken = event == (WorkerEvent::Answered { taken: true });
            let refused = event == (WorkerEvent::Answered { taken: false });
            &&& worker == (Worker::Answering { failed: false }) && taken ==> next is Idle && action
                is Wait
            &&& worker == (Worker::Answering { failed: true }) && taken ==> next is Resting
                && action == (WorkerAction::Rest { secs: 5 })
            &&& worker is Resting && event is Rested ==> next is Idle && action is Wait
            &&& worker is Answering && refused ==> next is Stopped && action is Stop
            &&& worker is Idle && event is Closed ==> next is Stopped && action is Stop
            &&& !(worker is Stopped) && next is Stopped ==> refused || event is Closed
            &&& worker is Stopped ==> next is Stopped && action is Nothing
            &&& action is Answer ==> worker is Fetching
            &&& action is Fetch ==> worker is Idle || worker == (Worker::Fetching { again: false })
        }),
{
}

} // verus!
