use zellij_tabs::startup::{next_step, Action, Event, Failure, RuntimeDir, Stage};

fn drive(events: &[Event]) -> (Stage, Vec<Action>) {
    let mut stage = Stage::Begin;
    let mut actions = Vec::new();
    for e in events {
        let (next, action) = next_step(stage, *e);
        stage = next;
        actions.push(action);
    }
    (stage, actions)
}

#[test]
fn setup_mode_prints_and_exits_zero() {
    let (stage, actions) = drive(&[Event::Invoked { setup: true }, Event::SetupPrinted]);
    assert_eq!(actions, vec![Action::PrintSetup, Action::Exit { status: 0 }]);
    assert_eq!(stage, Stage::Done { status: 0 });
}

#[test]
fn normal_bring_up_order() {
    let (stage, actions) = drive(&[
        Event::Invoked { setup: false },
        Event::ConfigResolved,
        Event::DirReady,
        Event::DirReady,
        Event::ServerReady,
        Event::ClientFinished { status: 0 },
        Event::ServerFinished { clean: true },
    ]);
    assert_eq!(
        actions,
        vec![
            Action::ResolveConfig,
            Action::EnsureDir(RuntimeDir::Temp),
            Action::EnsureDir(RuntimeDir::Logs),
            Action::StartServer,
            Action::RunClient,
            Action::JoinServer,
            Action::Exit { status: 0 },
        ]
    );
    assert_eq!(stage, Stage::Done { status: 0 });
}

#[test]
fn exit_status_is_the_clients_not_the_servers() {
    let (stage, actions) = drive(&[
        Event::Invoked { setup: false },
        Event::ConfigResolved,
        Event::DirReady,
        Event::DirReady,
        Event::ServerReady,
        Event::ClientFinished { status: 3 },
        Event::ServerFinished { clean: false },
    ]);
    assert_eq!(actions.last(), Some(&Action::Exit { status: 3 }));
    assert_eq!(stage, Stage::Done { status: 3 });
}

#[test]
fn config_failure_starts_nothing() {
    let (stage, actions) = drive(&[
        Event::Invoked { setup: false },
        Event::ConfigFailed,
        Event::DirReady,
        Event::ServerReady,
        Event::ClientFinished { status: 0 },
    ]);
    assert_eq!(
        actions,
        vec![
            Action::ResolveConfig,
            Action::Abort { failure: Failure::Config, status: 1 },
            Action::Idle,
            Action::Idle,
            Action::Idle,
        ]
    );
    assert_eq!(stage, Stage::Done { status: 1 });
}

#[test]
fn directory_failure_is_reported_with_its_directory() {
    let (stage, actions) = drive(&[
        Event::Invoked { setup: false },
        Event::ConfigResolved,
        Event::DirReady,
        Event::DirFailed,
    ]);
    assert_eq!(
        actions[3],
        Action::Abort { failure: Failure::Dir(RuntimeDir::Logs), status: 2 }
    );
    assert_eq!(stage, Stage::Done { status: 2 });
}

#[test]
fn event_out_of_turn_is_ignored() {
    let (stage, actions) = drive(&[Event::ServerReady]);
    assert_eq!(actions, vec![Action::Idle]);
    assert_eq!(stage, Stage::Begin);
}
