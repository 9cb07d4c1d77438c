use gps_sdr::pending::{MotionCommandKind, PendingMotionCommands};

#[test]
fn pending_storage_is_bounded_ordered_and_overwrite_to_tail() {
    let mut pending = PendingMotionCommands::new();
    for (kind, name) in [
        (MotionCommandKind::Position, "Position"),
        (MotionCommandKind::Velocity, "Velocity"),
        (MotionCommandKind::Acceleration, "Acceleration"),
        (MotionCommandKind::HeadingSpeed, "HeadingSpeed"),
        (MotionCommandKind::Stop, "Stop"),
        (MotionCommandKind::Start, "Start"),
        (MotionCommandKind::TargetSpeed, "TargetSpeed"),
        (MotionCommandKind::TargetHeading, "TargetHeading"),
    ] {
        pending.push(kind, name);
    }
    pending.push(MotionCommandKind::Velocity, "Velocity");

    let commands = pending.into_commands();
    assert_eq!(commands.len(), 8);
    assert_eq!(
        commands.iter().map(|(_, name)| *name).collect::<Vec<_>>(),
        vec![
            "Position",
            "Acceleration",
            "HeadingSpeed",
            "Stop",
            "Start",
            "TargetSpeed",
            "TargetHeading",
            "Velocity",
        ]
    );
}

#[test]
fn replacing_a_kind_keeps_the_latest_command() {
    let mut pending = PendingMotionCommands::new();
    pending.push(MotionCommandKind::Stop, 1);
    pending.push(MotionCommandKind::Start, 2);
    pending.push(MotionCommandKind::Stop, 3);
    assert_eq!(pending.len(), 2);
    assert_eq!(
        pending.into_commands(),
        vec![(MotionCommandKind::Start, 2), (MotionCommandKind::Stop, 3)]
    );
}
