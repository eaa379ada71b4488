use otap_tools::chaos::{
    acks_for, config_error, default_check_interval, default_failure_rate, default_log_every_n,
    delay_for, nack_reason, ChaosExporter, ChaosExporterConfig, ControlFile, ControlState, FileRead,
    SimulationMode, CHAOS_EXPORTER_URN,
};
use otap_tools::chaos_session::{can_wait, Action, Event, Notice, Phase, Session};
use otap_tools::rate::{not_a_number, rate_at_most, same_rate};

fn percent(rate: f64) -> String {
    format!("{:.0}", rate * 100.0)
}

fn exporter(check_interval: u128, log_every_n: u64) -> ChaosExporter {
    ChaosExporter::from_config(ChaosExporterConfig {
        control_file: "/tmp/control.json".to_string(),
        check_interval,
        log_every_n,
    })
}

fn state(mode: SimulationMode) -> ControlState {
    ControlState { mode, ..Default::default() }
}

fn parse(text: &str) -> Result<ControlState, String> {
    let json: serde_json::Value = serde_json::from_str(text).map_err(|e| e.to_string())?;
    let fields = json.as_object().ok_or("no object")?;
    let number = |key: &str| match fields.get(key) {
        Some(value) => value.as_u64().ok_or(format!("no number: {value}")),
        None => Ok(0),
    };
    Ok(ControlState {
        mode: match fields.get("mode").map(|value| value.as_str()) {
            None | Some(Some("online")) => SimulationMode::Online,
            Some(Some("offline")) => SimulationMode::Offline,
            Some(Some("flaky")) => SimulationMode::Flaky,
            other => return Err(format!("unknown mode: {other:?}")),
        },
        failure_rate: match fields.get("failure_rate") {
            Some(value) => value.as_f64().ok_or(format!("no number: {value}"))?.to_bits(),
            None => default_failure_rate(),
        },
        latency_ms: number("latency_ms")?,
        jitter_ms: number("jitter_ms")?,
    })
}

#[test]
fn test_control_state_display() {
    let online = ControlState::default();
    assert_eq!(online.description(&percent(0.5)), "ONLINE");

    let offline = ControlState { mode: SimulationMode::Offline, ..Default::default() };
    assert_eq!(offline.description(&percent(0.5)), "OFFLINE");

    let flaky_with_latency = ControlState {
        mode: SimulationMode::Flaky,
        failure_rate: 0.3f64.to_bits(),
        latency_ms: 200,
        jitter_ms: 50,
    };
    assert_eq!(
        flaky_with_latency.description(&percent(f64::from_bits(flaky_with_latency.failure_rate))),
        "FLAKY(fail=30%) +200ms±50ms"
    );

    let online_with_latency = ControlState { latency_ms: 100, ..Default::default() };
    assert_eq!(online_with_latency.description(&percent(0.5)), "ONLINE +100ms");
}

#[test]
fn test_should_ack_online_always_true() {
    let state = ControlState { mode: SimulationMode::Online, ..Default::default() };
    let mut rng = rand::rng();
    for _ in 0..100 {
        assert!(ChaosExporter::should_ack_message(&state, &mut rng));
    }
}

#[test]
fn test_should_ack_offline_always_false() {
    let state = ControlState { mode: SimulationMode::Offline, ..Default::default() };
    let mut rng = rand::rng();
    for _ in 0..100 {
        assert!(!ChaosExporter::should_ack_message(&state, &mut rng));
    }
}

#[test]
fn test_should_ack_flaky_produces_mix() {
    let state = ControlState {
        mode: SimulationMode::Flaky,
        failure_rate: 0.5f64.to_bits(),
        ..Default::default()
    };
    let mut rng = rand::rng();
    let results: Vec<bool> =
        (0..1000).map(|_| ChaosExporter::should_ack_message(&state, &mut rng)).collect();
    let ack_count = results.iter().filter(|&&v| v).count();
    assert!(
        (400..=600).contains(&ack_count),
        "expected ~500 ACKs out of 1000, got {ack_count}"
    );
}

#[test]
fn test_response_delay_zero_when_no_latency() {
    let state = ControlState::default();
    let mut rng = rand::rng();
    assert_eq!(ChaosExporter::compute_response_delay(&state, &mut rng), 0);
}

#[test]
fn test_response_delay_with_latency_and_jitter() {
    let state = ControlState { latency_ms: 100, jitter_ms: 50, ..Default::default() };
    let mut rng = rand::rng();
    for _ in 0..100 {
        let delay = ChaosExporter::compute_response_delay(&state, &mut rng);
        assert!(delay >= 100);
        assert!(delay <= 150);
    }
}

#[test]
fn test_read_control_file_missing_returns_none() {
    assert!(matches!(
        ChaosExporter::read_control_file(&FileRead::NotFound),
        ControlFile::Missing
    ));
}

#[test]
fn test_read_control_file_empty_returns_defaults() {
    let read = FileRead::Contents("".to_string());
    match ChaosExporter::read_control_file(&read) {
        ControlFile::State(state) => assert_eq!(state, ControlState::default()),
        other => panic!("unexpected {other:?}"),
    }
}

#[test]
fn test_read_control_file_invalid_json_returns_error() {
    let read = FileRead::Contents("not json".to_string());
    let text = match ChaosExporter::read_control_file(&read) {
        ControlFile::Json(text) => text,
        other => panic!("unexpected {other:?}"),
    };
    let error = parse(&text).unwrap_err();
    match ChaosExporter::parsed_control_file(parse(&text)) {
        ControlFile::Invalid(message) => {
            assert_eq!(message, format!("invalid control file JSON: {error}"))
        }
        other => panic!("unexpected {other:?}"),
    }
}

#[test]
fn test_read_control_file_valid_json() {
    let read = FileRead::Contents(r#"{"mode":"offline","latency_ms":500}"#.to_string());
    let text = match ChaosExporter::read_control_file(&read) {
        ControlFile::Json(text) => text,
        other => panic!("unexpected {other:?}"),
    };
    match ChaosExporter::parsed_control_file(parse(&text)) {
        ControlFile::State(result) => {
            assert_eq!(result.mode, SimulationMode::Offline);
            assert_eq!(result.latency_ms, 500);
        }
        other => panic!("unexpected {other:?}"),
    }
}

#[test]
fn unknown_modes_are_refused() {
    for text in [r#"{"mode":"broken"}"#, r#"{"mode":1}"#, r#"{"latency_ms":-1}"#, "7"] {
        let file = ChaosExporter::parsed_control_file(parse(text));
        assert!(matches!(&file, ControlFile::Invalid(m) if m.starts_with("invalid control file JSON: ")));
        let (mut session, _) = Session::begin(0, ControlFile::State(state(SimulationMode::Offline)));
        assert!(matches!(session.reload(file), Notice::Kept(_)));
        assert_eq!(session.state, state(SimulationMode::Offline));
    }
}

#[test]
fn control_file_is_trimmed() {
    let read = FileRead::Contents(" \t\r\n\u{a0}\u{3000}{ } \n".to_string());
    match ChaosExporter::read_control_file(&read) {
        ControlFile::Json(text) => assert_eq!(text, "{ }"),
        other => panic!("unexpected {other:?}"),
    }
}

#[test]
fn blank_control_file_means_defaults() {
    let read = FileRead::Contents(" \n\t\u{2003} ".to_string());
    match ChaosExporter::read_control_file(&read) {
        ControlFile::State(state) => assert_eq!(state, ControlState::default()),
        other => panic!("unexpected {other:?}"),
    }
}

#[test]
fn unreadable_control_file_is_reported() {
    let read = FileRead::Failed("permission denied".to_string());
    match ChaosExporter::read_control_file(&read) {
        ControlFile::Invalid(message) => {
            assert_eq!(message, "failed to read control file: permission denied")
        }
        other => panic!("unexpected {other:?}"),
    }
}

#[test]
fn defaults_are_the_documented_ones() {
    assert_eq!(f64::from_bits(default_failure_rate()), 0.5);
    assert_eq!(default_check_interval(), std::time::Duration::from_millis(500).as_nanos());
    assert_eq!(default_log_every_n(), 100);
    let state = ControlState::default();
    assert_eq!(state.mode, SimulationMode::Online);
    assert_eq!(SimulationMode::default(), SimulationMode::Online);
    assert_eq!(f64::from_bits(state.failure_rate), 0.5);
    assert_eq!(state.latency_ms, 0);
    assert_eq!(state.jitter_ms, 0);
    assert_eq!(CHAOS_EXPORTER_URN, "urn:otel:chaos:exporter");
}

#[test]
fn jitter_alone_shows_a_zero_latency() {
    let state = ControlState { jitter_ms: 7, ..Default::default() };
    assert_eq!(state.description("50"), "ONLINE +0ms±7ms");
    let offline = ControlState {
        mode: SimulationMode::Offline,
        latency_ms: u64::MAX,
        ..Default::default()
    };
    assert_eq!(offline.description("50"), "OFFLINE +18446744073709551615ms");
}

#[test]
fn refusals_name_the_state() {
    let state = ControlState { latency_ms: 5, ..state(SimulationMode::Flaky) };
    assert_eq!(nack_reason(&state, "50"), "chaos exporter FLAKY(fail=50%) +5ms");
    assert_eq!(
        config_error("missing field"),
        "Failed to parse chaos-exporter configuration: missing field"
    );
}

#[test]
fn rates_are_compared_as_numbers() {
    let draws = [0u64, 1, 2, 1 << 30, (1 << 51) - 1, 1 << 51, (1 << 51) + 1, (1 << 52) - 1];
    let rates = [
        0.0,
        -0.0,
        1.0,
        -1.0,
        0.5,
        0.3,
        0.1,
        0.999_999_999_999_999_9,
        1e-10,
        2.220446049250313e-16,
        4.440892098500626e-16,
        1e-300,
        5e-324,
        1e300,
        f64::MAX,
        f64::INFINITY,
        f64::NEG_INFINITY,
        f64::NAN,
    ];
    for rate in rates {
        for k in draws {
            let drawn = k as f64 / (1u64 << 52) as f64;
            assert_eq!(rate_at_most(rate.to_bits(), k), drawn >= rate, "{rate} {k}");
        }
        for other in rates {
            assert_eq!(same_rate(rate.to_bits(), other.to_bits()), rate == other);
        }
        assert_eq!(not_a_number(rate.to_bits()), rate.is_nan());
    }
}

#[test]
fn flaky_answers_follow_the_draw() {
    let flaky = state(SimulationMode::Flaky);
    assert!(!acks_for(&flaky, 0));
    assert!(!acks_for(&flaky, (1 << 63) - 1));
    assert!(acks_for(&flaky, 1 << 63));
    assert!(acks_for(&flaky, u64::MAX));
    let always = ControlState { failure_rate: 1.0f64.to_bits(), ..flaky };
    let never = ControlState { failure_rate: 0.0f64.to_bits(), ..flaky };
    for word in [0, 4095, 4096, 1 << 40, u64::MAX] {
        assert!(!acks_for(&always, word));
        assert!(acks_for(&never, word));
        assert!(acks_for(&state(SimulationMode::Online), word));
        assert!(!acks_for(&state(SimulationMode::Offline), word));
    }
}

#[test]
fn states_are_equal_as_numbers() {
    let a = ControlState { failure_rate: 0.0f64.to_bits(), ..Default::default() };
    let b = ControlState { failure_rate: (-0.0f64).to_bits(), ..Default::default() };
    let c = ControlState { failure_rate: f64::NAN.to_bits(), ..Default::default() };
    assert!(a == b);
    assert!(c != c);
    assert!(a != ControlState::default());
    assert!(ControlState { latency_ms: 1, ..a } != a);
    assert!(ControlState { jitter_ms: 1, ..a } != a);
    assert!(ControlState { mode: SimulationMode::Offline, ..a } != a);
}

#[test]
fn session_starts_with_the_file() {
    let (session, notice) = Session::begin(7, ControlFile::State(state(SimulationMode::Offline)));
    assert_eq!(session.state.mode, SimulationMode::Offline);
    assert_eq!((session.last_check, session.ack_count, session.nack_count), (7, 0, 0));
    assert_eq!(session.phase, Phase::Receiving);
    assert!(matches!(notice, Notice::Nothing));

    let (session, notice) = Session::begin(7, ControlFile::Missing);
    assert_eq!(session.state, ControlState::default());
    assert!(matches!(notice, Notice::Nothing));

    let (session, notice) = Session::begin(7, ControlFile::Invalid("why".to_string()));
    assert_eq!(session.state, ControlState::default());
    match notice {
        Notice::Kept(reason) => assert_eq!(reason, "why"),
        other => panic!("unexpected {other:?}"),
    }
}

#[test]
fn online_session_acknowledges_and_reports() {
    let exporter = exporter(1_000, 3);
    let mut rng = rand::rng();
    let (mut session, _) = Session::begin(0, ControlFile::Missing);
    let mut reports = Vec::new();
    for _ in 0..7 {
        let step = session.step(&exporter, Event::Data { now: 999 }, &mut rng);
        match step.action {
            Action::Ack { report } => reports.push(report),
            other => panic!("unexpected {other:?}"),
        }
    }
    assert_eq!(reports, [false, false, true, false, false, true, false]);
    assert_eq!((session.ack_count, session.nack_count), (7, 0));
}

#[test]
fn quiet_session_never_reports() {
    let exporter = exporter(1_000, 0);
    let mut rng = rand::rng();
    let (mut session, _) = Session::begin(0, ControlFile::State(state(SimulationMode::Offline)));
    for _ in 0..5 {
        let step = session.step(&exporter, Event::Data { now: 0 }, &mut rng);
        assert_eq!(step.action, Action::Nack { report: false });
    }
    assert_eq!((session.ack_count, session.nack_count), (0, 5));
}

#[test]
fn control_file_is_read_again_when_due() {
    let exporter = exporter(1_000, 100);
    let mut rng = rand::rng();
    let (mut session, _) = Session::begin(5, ControlFile::Missing);

    let step = session.step(&exporter, Event::Data { now: 1_005 }, &mut rng);
    assert_eq!(step.action, Action::ReadControlFile);
    assert_eq!(session.phase, Phase::Reading);
    assert_eq!(session.last_check, 1_005);

    let offline = ControlFile::State(state(SimulationMode::Offline));
    let step = session.step(&exporter, Event::File(offline), &mut rng);
    assert_eq!(step.action, Action::Nack { report: false });
    match step.notice {
        Notice::Changed(from) => assert_eq!(from, ControlState::default()),
        other => panic!("unexpected {other:?}"),
    }
    assert_eq!(session.phase, Phase::Receiving);

    let step = session.step(&exporter, Event::Data { now: 2_004 }, &mut rng);
    assert_eq!(step.action, Action::Nack { report: false });

    let step = session.step(&exporter, Event::Data { now: 3_000 }, &mut rng);
    assert_eq!(step.action, Action::ReadControlFile);
    let broken = ControlFile::Invalid("broken".to_string());
    let step = session.step(&exporter, Event::File(broken), &mut rng);
    assert_eq!(step.action, Action::Nack { report: false });
    assert!(matches!(step.notice, Notice::Kept(reason) if reason == "broken"));

    let step = session.step(&exporter, Event::Data { now: 4_000 }, &mut rng);
    assert_eq!(step.action, Action::ReadControlFile);
    let step = session.step(&exporter, Event::File(ControlFile::Missing), &mut rng);
    assert_eq!(step.action, Action::Ack { report: false });
    assert!(matches!(step.notice, Notice::Changed(_)));
    assert_eq!(session.state, ControlState::default());
    assert_eq!((session.ack_count, session.nack_count), (1, 3));
}

#[test]
fn answers_wait_for_the_latency() {
    let exporter = exporter(1_000, 100);
    let mut rng = rand::rng();
    let slow = ControlState { latency_ms: 30, jitter_ms: 10, ..Default::default() };
    let (mut session, _) = Session::begin(0, ControlFile::State(slow));
    for n in 1..=20 {
        match session.step(&exporter, Event::Data { now: 10 }, &mut rng).action {
            Action::Sleep(ms) => assert!((30..=40).contains(&ms)),
            other => panic!("unexpected {other:?}"),
        }
        assert_eq!(session.phase, Phase::Sleeping);
        assert_eq!(session.ack_count, n - 1);
        let step = session.step(&exporter, Event::Slept, &mut rng);
        assert_eq!(step.action, Action::Ack { report: false });
        assert_eq!(session.ack_count, n);
    }
}

#[test]
fn other_messages_change_nothing() {
    let exporter = exporter(0, 100);
    let mut rng = rand::rng();
    let (mut session, _) = Session::begin(9, ControlFile::Missing);
    let step = session.step(&exporter, Event::Other, &mut rng);
    assert_eq!(step.action, Action::Receive);
    assert_eq!((session.last_check, session.ack_count, session.phase), (9, 0, Phase::Receiving));
    let step = session.step(&exporter, Event::Shutdown, &mut rng);
    assert_eq!(step.action, Action::Stop);
    assert_eq!(session.phase, Phase::Stopped);
}

#[test]
fn waits_that_cannot_be_counted_are_told() {
    let longest = ControlState { latency_ms: u64::MAX, ..Default::default() };
    assert!(can_wait(&longest));
    assert!(!can_wait(&ControlState { jitter_ms: 1, ..longest }));
}

#[test]
fn shutdown_and_due_messages_need_no_wait() {
    let exporter = exporter(1_000, 100);
    let mut rng = rand::rng();
    let endless = ControlState { latency_ms: u64::MAX, jitter_ms: 1, ..Default::default() };
    let (mut session, _) = Session::begin(0, ControlFile::State(endless));
    assert!(!session.can_step(&exporter, &Event::Data { now: 999 }));
    assert!(session.can_step(&exporter, &Event::Other));
    assert_eq!(session.step(&exporter, Event::Other, &mut rng).action, Action::Receive);
    let due = Event::Data { now: 1_000 };
    assert!(session.can_step(&exporter, &due));
    assert_eq!(session.step(&exporter, due, &mut rng).action, Action::ReadControlFile);
    assert_eq!(session.state, endless);
    assert!(!session.can_step(&exporter, &Event::File(ControlFile::State(endless))));
    assert!(!session.can_step(&exporter, &Event::File(ControlFile::Invalid("broken".to_string()))));
    let missing = Event::File(ControlFile::Missing);
    assert!(session.can_step(&exporter, &missing));
    assert_eq!(session.step(&exporter, missing, &mut rng).action, Action::Ack { report: false });
    assert_eq!(session.state, ControlState::default());
    let (mut session, _) = Session::begin(0, ControlFile::State(endless));
    assert!(session.can_step(&exporter, &Event::Shutdown));
    assert_eq!(session.step(&exporter, Event::Shutdown, &mut rng).action, Action::Stop);
    assert_eq!(session.phase, Phase::Stopped);
}

#[test]
fn answers_that_cannot_be_counted_are_told() {
    let exporter = exporter(1_000, 100);
    let message = Event::Data { now: 0 };
    for (mode, by_acks, by_nacks) in [
        (SimulationMode::Online, false, true),
        (SimulationMode::Offline, true, false),
        (SimulationMode::Flaky, false, false),
    ] {
        let (mut session, _) = Session::begin(0, ControlFile::State(state(mode)));
        assert!(session.can_step(&exporter, &message));
        session.ack_count = u64::MAX;
        assert_eq!(session.can_step(&exporter, &message), by_acks);
        assert_eq!(session.can_step(&exporter, &Event::Slept), by_acks);
        session.ack_count = 0;
        session.nack_count = u64::MAX;
        assert_eq!(session.can_step(&exporter, &message), by_nacks);
        session.ack_count = u64::MAX;
        assert!(session.can_step(&exporter, &Event::Shutdown));
        assert!(session.can_step(&exporter, &Event::Data { now: 1_000 }));
        session.state.latency_ms = 5;
        assert!(session.can_step(&exporter, &message));
        assert!(!session.can_step(&exporter, &Event::Slept));
    }
}

#[test]
fn last_answers_can_be_counted() {
    let exporter = exporter(1_000, u64::MAX);
    let mut rng = rand::rng();
    let (mut session, _) = Session::begin(0, ControlFile::Missing);
    session.ack_count = u64::MAX - 1;
    session.nack_count = u64::MAX;
    let step = session.step(&exporter, Event::Data { now: 0 }, &mut rng);
    assert_eq!(step.action, Action::Ack { report: true });
    assert_eq!(session.ack_count, u64::MAX);
}

#[test]
fn waits_add_up() {
    let slow = ControlState { latency_ms: 30, jitter_ms: 10, ..Default::default() };
    assert_eq!(delay_for(&slow, 0), 30);
    assert_eq!(delay_for(&slow, 7), 37);
}

#[test]
fn responses_follow_what_was_drawn() {
    let exporter = exporter(1_000, 2);
    let (mut session, _) = Session::begin(0, ControlFile::State(state(SimulationMode::Flaky)));
    assert_eq!(session.respond_with(&exporter, 5, true), Action::Sleep(5));
    assert_eq!(session.phase, Phase::Sleeping);
    assert_eq!(session.conclude(&exporter, false), Action::Nack { report: false });
    assert_eq!(session.respond_with(&exporter, 0, false), Action::Nack { report: true });
    assert_eq!(session.respond_with(&exporter, 0, true), Action::Ack { report: false });
    assert_eq!((session.ack_count, session.nack_count), (1, 2));
    assert_eq!(session.phase, Phase::Receiving);
}

#[test]
fn rate_is_the_share_of_refused_draws() {
    let share = |rate: f64| (rate * (1u64 << 52) as f64).ceil() as u64;
    for rate in [0.1, 0.25, 0.3, 0.5, 0.75, 0.9, 1e-12, 0.999_999] {
        let n = share(rate);
        for k in [0, n / 2, n - 1] {
            assert!(!rate_at_most(rate.to_bits(), k));
        }
        for k in [n, n + 1, (1 << 52) - 1] {
            assert!(rate_at_most(rate.to_bits(), k));
        }
    }
}

#[test]
fn progress_counts_all_messages() {
    let exporter = exporter(1_000, 2);
    let (mut session, _) = Session::begin(0, ControlFile::State(state(SimulationMode::Flaky)));
    assert_eq!(session.conclude(&exporter, true), Action::Ack { report: false });
    assert_eq!(session.conclude(&exporter, false), Action::Nack { report: true });
    let mut lines = 1;
    for i in 2..101 {
        match session.conclude(&exporter, i % 3 == 0) {
            Action::Ack { report } | Action::Nack { report } => lines += usize::from(report),
            other => panic!("unexpected {other:?}"),
        }
    }
    assert_eq!(lines, 101 / 2);
}

#[test]
fn white_space_is_cut_off_and_nothing_else() {
    for c in "\u{9}\u{a}\u{b}\u{c}\u{d} \u{85}\u{a0}\u{1680}\u{2000}\u{200a}\u{2028}\u{2029}\u{202f}\u{205f}\u{3000}".chars() {
        let read = FileRead::Contents(c.to_string());
        assert!(matches!(ChaosExporter::read_control_file(&read), ControlFile::State(_)));
    }
    for c in "a{0\u{8}\u{e}\u{180e}\u{200b}\u{feff}".chars() {
        let read = FileRead::Contents(c.to_string());
        assert!(matches!(ChaosExporter::read_control_file(&read), ControlFile::Json(_)));
    }
}
