use vstd::prelude::*;

verus! {

/// Exit status after setup output, or after a clean client session.
pub const EXIT_OK: i32 = 0;

/// Exit status when the configuration cannot be resolved.
pub const EXIT_CONFIG_ERROR: i32 = 1;

/// Exit status when a runtime directory cannot be provided.
pub const EXIT_DIR_ERROR: i32 = 2;

/// The two directories that must exist before any session starts.
#[derive(Clone, Copy, Debug, PartialEq, Eq, Structural)]
pub enum RuntimeDir {
    Temp,
    Logs,
}

/// Why start-up stopped before any session ran.
#[derive(Clone, Copy, Debug, PartialEq, Eq, Structural)]
pub enum Failure {
    /// The configuration file or the command-line overrides are invalid.
    Config,
    /// The directory could not be created and did not exist before.
    Dir(RuntimeDir),
}

/// Where process bring-up stands.
#[derive(Clone, Copy, Debug, PartialEq, Eq, Structural)]
pub enum Stage {
    Begin,
    PrintingSetup,
    ResolvingConfig,
    Provisioning(RuntimeDir),
    StartingServer,
    RunningClient,
    AwaitingServer { client_status: i32 },
    Done { status: i32 },
}

/// What the surrounding program reports after carrying out an action.
#[derive(Clone, Copy, Debug, PartialEq, Eq, Structural)]
pub enum Event {
    /// The process was invoked; `setup` asks for setup output only.
    Invoked { setup: bool },
    SetupPrinted,
    ConfigResolved,
    ConfigFailed,
    /// The directory exists now, whether it was created or was there.
    DirReady,
    DirFailed,
    /// The server session accepts requests.
    ServerReady,
    ClientFinished { status: i32 },
    /// The server session ended; `clean` tells how, and is not used.
    ServerFinished { clean: bool },
}

/// What the surrounding program is to do next.
#[derive(Clone, Copy, Debug, PartialEq, Eq, Structural)]
pub enum Action {
    PrintSetup,
    ResolveConfig,
    EnsureDir(RuntimeDir),
    StartServer,
    RunClient,
    JoinServer,
    /// Print one diagnostic line for `failure`, then exit with `status`.
    Abort { failure: Failure, status: i32 },
    Exit { status: i32 },
    /// The event does not fit the stage: nothing to do.
    Idle,
}

/// The bring-up rules: from a stage and the event that ended its work, the
/// next stage and the action to carry out.
pub open spec fn step(stage: Stage, event: Event) -> (Stage, Action) {
    match (stage, event) {
        (Stage::Begin, Event::Invoked { setup }) => if setup {
            (Stage::PrintingSetup, Action::PrintSetup)
        } else {
            (Stage::ResolvingConfig, Action::ResolveConfig)
        },
        (Stage::PrintingSetup, Event::SetupPrinted) => (
            Stage::Done { status: EXIT_OK },
            Action::Exit { status: EXIT_OK },
        ),
        (Stage::ResolvingConfig, Event::ConfigResolved) => (
            Stage::Provisioning(RuntimeDir::Temp),
            Action::EnsureDir(RuntimeDir::Temp),
        ),
        (Stage::ResolvingConfig, Event::ConfigFailed) => (
            Stage::Done { status: EXIT_CONFIG_ERROR },
            Action::Abort { failure: Failure::Config, status: EXIT_CONFIG_ERROR },
        ),
        (Stage::Provisioning(RuntimeDir::Temp), Event::DirReady) => (
            Stage::Provisioning(RuntimeDir::Logs),
            Action::EnsureDir(RuntimeDir::Logs),
        ),
        (Stage::Provisioning(RuntimeDir::Logs), Event::DirReady) => (
            Stage::StartingServer,
            Action::StartServer,
        ),
        (Stage::Provisioning(dir), Event::DirFailed) => (
            Stage::Done { status: EXIT_DIR_ERROR },
            Action::Abort { failure: Failure::Dir(dir), status: EXIT_DIR_ERROR },
        ),
        (Stage::StartingServer, Event::ServerReady) => (Stage::RunningClient, Action::RunClient),
        (Stage::RunningClient, Event::ClientFinished { status }) => (
            Stage::AwaitingServer { client_status: status },
            Action::JoinServer,
        ),
        (Stage::AwaitingServer { client_status }, Event::ServerFinished { .. }) => (
            Stage::Done { status: client_status },
            Action::Exit { status: client_status },
        ),
        _ => (stage, Action::Idle),
    }
}

/// Applies the bring-up rules to one event.
pub fn next_step(stage: Stage, event: Event) -> (r: (Stage, Action))
    ensures
        r == step(stage, event),
{
    match (stage, event) {
        (Stage::Begin, Event::Invoked { setup }) => if setup {
            (Stage::PrintingSetup, Action::PrintSetup)
        } else {
            (Stage::ResolvingConfig, Action::ResolveConfig)
        },
        (Stage::PrintingSetup, Event::SetupPrinted) => (
            Stage::Done { status: EXIT_OK },
            Action::Exit { status: EXIT_OK },
        ),
        (Stage::ResolvingConfig, Event::ConfigResolved) => (
            Stage::Provisioning(RuntimeDir::Temp),
            Action::EnsureDir(RuntimeDir::Temp),
        ),
        (Stage::ResolvingConfig, Event::ConfigFailed) => (
            Stage::Done { status: EXIT_CONFIG_ERROR },
            Action::Abort { failure: Failure::Config, status: EXIT_CONFIG_ERROR },
        ),
        (Stage::Provisioning(RuntimeDir::Temp), Event::DirReady) => (
            Stage::Provisioning(RuntimeDir::Logs),
            Action::EnsureDir(RuntimeDir::Logs),
        ),
        (Stage::Provisioning(RuntimeDir::Logs), Event::DirReady) => (
            Stage::StartingServer,
            Action::StartServer,
        ),
        (Stage::Provisioning(dir), Event::DirFailed) => (
            Stage::Done { status: EXIT_DIR_ERROR },
            Action::Abort { failure: Failure::Dir(dir), status: EXIT_DIR_ERROR },
        ),
        (Stage::StartingServer, Event::ServerReady) => (Stage::RunningClient, Action::RunClient),
        (Stage::RunningClient, Event::ClientFinished { status }) => (
            Stage::AwaitingServer { client_status: status },
            Action::JoinServer,
        ),
        (Stage::AwaitingServer { client_status }, Event::ServerFinished { .. }) => (
            Stage::Done { status: client_status },
            Action::Exit { status: client_status },
        ),
        _ => (stage, Action::Idle),
    }
}

/// The stage reached and the actions issued when `events` arrive in turn,
/// starting at `stage`.
pub open spec fn run(stage: Stage, events: Seq<Event>) -> (Stage, Seq<Action>)
    decreases events.len(),
{
    if events.len() == 0 {
        (stage, Seq::empty())
    } else {
        let (next, action) = step(stage, events[0]);
        let (last, rest) = run(next, events.drop_first());
        (last, seq![action] + rest)
    }
}

/// Whether an action provisions a directory or starts, runs or awaits a
/// session.
pub open spec fn touches_sessions(a: Action) -> bool {
    match a {
        Action::EnsureDir(_) | Action::StartServer | Action::RunClient | Action::JoinServer => true,
        _ => false,
    }
}

/// A finished bring-up ignores every further event.
proof fn lemma_done_is_final(status: i32, events: Seq<Event>)
    ensures
        run(Stage::Done { status }, events).0 == (Stage::Done { status }),
        run(Stage::Done { status }, events).1.len() == events.len(),
        forall|i: int|
            0 <= i < events.len() ==> #[trigger] run(Stage::Done { status }, events).1[i]
                == Action::Idle,
    decreases events.len(),
{
    if events.len() > 0 {
        lemma_done_is_final(status, events.drop_first());
        let rest = run(Stage::Done { status }, events.drop_first()).1;
        assert forall|i: int| 0 <= i < events.len() implies #[trigger] run(
            Stage::Done { status },
            events,
        ).1[i] == Action::Idle by {
            if i > 0 {
                assert(run(Stage::Done { status }, events).1[i] == rest[i - 1]);
            }
        }
    }
}

/// A configuration that cannot be resolved ends bring-up with the
/// configuration failure and its status: whatever is reported afterwards, no
/// directory is provisioned and no session is started, run or awaited.
pub proof fn lemma_config_failure_starts_nothing(later: Seq<Event>)
    ensures
        ({
            let (last, actions) = run(Stage::ResolvingConfig, seq![Event::ConfigFailed] + later);
            &&& last == (Stage::Done { status: EXIT_CONFIG_ERROR })
            &&& actions[0] == (Action::Abort {
                failure: Failure::Config,
                status: EXIT_CONFIG_ERROR,
            })
            &&& forall|i: int| 0 <= i < actions.len() ==> !touches_sessions(#[trigger] actions[i])
        }),
{
    let events = seq![Event::ConfigFailed] + later;
    assert(events[0] == Event::ConfigFailed);
    assert(events.drop_first() =~= later);
    lemma_done_is_final(EXIT_CONFIG_ERROR, later);
    let actions = run(Stage::ResolvingConfig, events).1;
    let rest = run(Stage::Done { status: EXIT_CONFIG_ERROR }, later).1;
    assert forall|i: int| 0 <= i < actions.len() implies !touches_sessions(#[trigger] actions[i]) by {
        if i > 0 {
            assert(actions[i] == rest[i - 1]);
        }
    }
}

/// Once the client session finishes with `status`, the next action awaits
/// the server session, and when that ends, however it ends, the process
/// exits with the client's status.
pub proof fn lemma_exit_status_is_client_status(status: i32, clean: bool)
    ensures
        ({
            let (last, actions) = run(
                Stage::RunningClient,
                seq![Event::ClientFinished { status }, Event::ServerFinished { clean }],
            );
            &&& actions =~= seq![Action::JoinServer, Action::Exit { status }]
            &&& last == (Stage::Done { status })
        }),
{
    let events = seq![Event::ClientFinished { status }, Event::ServerFinished { clean }];
    assert(events.drop_first() =~= seq![Event::ServerFinished { clean }]);
    assert(events.drop_first().drop_first() =~= Seq::<Event>::empty());
    reveal_with_fuel(run, 3);
    assert(events[0] == Event::ClientFinished { status });
    assert(events.drop_first()[0] == Event::ServerFinished { clean });
}

/// A normal invocation whose steps all succeed runs through configuration,
/// both directories, the server, the client and the wait for the server, in
/// that order, and exits with the client's status.
pub proof fn lemma_normal_bring_up(status: i32, clean: bool)
    ensures
        ({
            let (last, actions) = run(
                Stage::Begin,
                seq![
                    Event::Invoked { setup: false },
                    Event::ConfigResolved,
                    Event::DirReady,
                    Event::DirReady,
                    Event::ServerReady,
                    Event::ClientFinished { status },
                    Event::ServerFinished { clean },
                ],
            );
            &&& actions =~= seq![
                Action::ResolveConfig,
                Action::EnsureDir(RuntimeDir::Temp),
                Action::EnsureDir(RuntimeDir::Logs),
                Action::StartServer,
                Action::RunClient,
                Action::JoinServer,
                Action::Exit { status },
            ]
            &&& last == (Stage::Done { status })
        }),
{
    let e = seq![
        Event::Invoked { setup: false },
        Event::ConfigResolved,
        Event::DirReady,
        Event::DirReady,
        Event::ServerReady,
        Event::ClientFinished { status },
        Event::ServerFinished { clean },
    ];
    let e1 = e.drop_first();
    let e2 = e1.drop_first();
    let e3 = e2.drop_first();
    let e4 = e3.drop_first();
    let e5 = e4.drop_first();
    assert(e5 =~= seq![Event::ClientFinished { status }, Event::ServerFinished { clean }]);
    lemma_exit_status_is_client_status(status, clean);
    assert(e1[0] == Event::ConfigResolved);
    assert(e2[0] == Event::DirReady);
    assert(e3[0] == Event::DirReady);
    assert(e4[0] == Event::ServerReady);
    reveal_with_fuel(run, 6);
}

} // verus!
