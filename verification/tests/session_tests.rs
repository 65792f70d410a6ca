use contest_trainer::config::{SimulationSettings, UserSettings};
use contest_trainer::contest::create_contest;
use contest_trainer::cty::CtyDat;
use contest_trainer::messages::{AudioCommand, AudioEvent};
use contest_trainer::session::{
    callsign_similarity, caller_reply, find_similar_caller, typed_callsign, ContestSession, InputField,
    Key, ReplyRolls, Score,
};
use contest_trainer::state::{ActiveCaller, ContestState, QsoContext, StationTxType, UserTxType};
use contest_trainer::messages::{StationId, StationParams};
use contest_trainer::contest::types::{Exchange, SettingValue};

fn quiet_simulation() -> SimulationSettings {
    let mut sim = SimulationSettings::default();
    sim.max_simultaneous_stations = 1;
    sim.station_probability_ppm = 1_000_000;
    sim.agn_request_probability_ppm = 0;
    sim.call_correction.correction_probability_ppm = 0;
    sim
}

fn cwt_session() -> ContestSession {
    let contest = create_contest("cwt", CtyDat::empty()).unwrap();
    let settings = contest.default_settings();
    let source = contest.callsign_source(None);
    let mut user = UserSettings::default();
    user.callsign = "W9XYZ".to_string();
    ContestSession::new(user, quiet_simulation(), contest, settings, source, CtyDat::empty(), 0)
}

fn caller(id: u32, call: &str) -> ActiveCaller {
    ActiveCaller {
        params: StationParams {
            id: StationId(id),
            callsign: call.to_string(),
            exchange: Exchange::new(vec!["BOB".to_string(), "1234".to_string()]),
            frequency_offset_hz: 0,
            wpm: 30,
            amplitude_milli: 800,
            reaction_delay_ms: 200,
        },
    }
}

/// Reports every segment of the messages sent as played.
fn play_segments(s: &mut ContestSession, now: u64) {
    let cmds = s.take_commands();
    for c in &cmds {
        if let AudioCommand::PlayUserMessageSegmented { segments, .. } = c {
            for seg in segments {
                s.process_audio_event(AudioEvent::UserSegmentComplete(seg.segment_type), now);
            }
        }
    }
}

#[test]
fn new_session_is_idle() {
    let s = cwt_session();
    assert_eq!(s.state, ContestState::Idle);
    assert_eq!(s.score.qso_count, 0);
    assert_eq!(s.user_serial, 1);
    assert_eq!(s.current_field, InputField::Callsign);
    assert!(s.session_stats.qsos.is_empty());
}

#[test]
fn f1_calls_cq() {
    let mut s = cwt_session();
    s.handle_key(Key::F1, 0);
    assert_eq!(s.state, ContestState::CallingCq);
    let cmds = s.take_commands();
    assert_eq!(cmds.len(), 2);
    assert!(matches!(cmds[0], AudioCommand::StopAll));
    match &cmds[1] {
        AudioCommand::PlayUserMessage { message, wpm } => {
            assert_eq!(message, "CQ TEST W9XYZ");
            assert_eq!(*wpm, 32);
        }
        _ => panic!("expected the CQ message"),
    }
    assert!(s.take_commands().is_empty());
}

#[test]
fn callers_wait_for_the_pause_after_cq() {
    let mut s = cwt_session();
    s.handle_key(Key::F1, 0);
    s.process_audio_event(AudioEvent::UserMessageComplete, 1000);
    assert_eq!(s.state, ContestState::WaitingForCallers);
    s.maybe_spawn_callers(1100);
    assert_eq!(s.state, ContestState::WaitingForCallers);
}

#[test]
fn a_full_qso_is_logged_and_scored() {
    let mut s = cwt_session();
    let mut t: u64 = 0;
    let mut answered = false;
    for _ in 0..200 {
        s.handle_key(Key::F1, t);
        s.process_audio_event(AudioEvent::UserMessageComplete, t + 1000);
        s.maybe_spawn_callers(t + 1300);
        t += 5000;
        if s.state == ContestState::StationsCalling {
            answered = true;
            break;
        }
    }
    assert!(answered);
    assert_eq!(s.context.active_callers.len(), 1);
    let p = &s.context.active_callers[0].params;
    assert!(-150 <= p.frequency_offset_hz && p.frequency_offset_hz < 150);
    assert!(28 <= p.wpm && p.wpm <= 36);
    assert!(400 <= p.amplitude_milli && p.amplitude_milli < 1000);
    assert!(100 <= p.reaction_delay_ms && p.reaction_delay_ms < 800);
    let station = s.context.active_callers[0].params.callsign.clone();
    let exchange = s.context.active_callers[0].params.exchange.fields.clone();
    s.take_commands();

    s.callsign_input = station.to_lowercase();
    s.handle_key(Key::Enter, t);
    assert_eq!(s.state, ContestState::UserTransmitting { tx_type: UserTxType::Exchange });
    play_segments(&mut s, t + 500);
    s.process_audio_event(AudioEvent::UserMessageComplete, t + 1000);
    assert_eq!(s.state, ContestState::WaitingForStation);
    s.check_waiting_states(t + 1100);
    assert_eq!(s.state, ContestState::WaitingForStation);
    s.check_waiting_states(t + 1250);
    assert_eq!(s.state, ContestState::StationTransmitting { tx_type: StationTxType::SendingExchange });

    s.exchange_inputs = exchange.clone();
    s.current_field = InputField::Exchange(0);
    s.handle_key(Key::Enter, t + 3000);
    assert_eq!(s.state, ContestState::QsoComplete);
    assert_eq!(s.score.qso_count, 1);
    assert_eq!(s.score.total_points, 1);
    assert_eq!(s.user_serial, 2);
    assert_eq!(s.session_stats.qsos.len(), 1);
    let q = &s.session_stats.qsos[0];
    assert!(q.callsign_correct && q.exchange_correct);
    assert_eq!(q.expected_callsign, station);
    let r = s.last_qso_result.as_ref().unwrap();
    assert!(r.callsign_correct && r.exchange_correct);
    assert_eq!(r.points, 1);
    assert_eq!(s.callsign_input, "");
    assert_eq!(s.current_field, InputField::Callsign);
}

#[test]
fn a_wrong_exchange_is_logged_without_points() {
    let mut s = cwt_session();
    let mut t: u64 = 0;
    for _ in 0..200 {
        s.handle_key(Key::F1, t);
        s.process_audio_event(AudioEvent::UserMessageComplete, t + 1000);
        s.maybe_spawn_callers(t + 1300);
        t += 5000;
        if s.state == ContestState::StationsCalling {
            break;
        }
    }
    assert_eq!(s.state, ContestState::StationsCalling);
    let station = s.context.active_callers[0].params.callsign.clone();
    s.callsign_input = station.clone();
    s.handle_key(Key::Enter, t);
    play_segments(&mut s, t + 500);
    s.process_audio_event(AudioEvent::UserMessageComplete, t + 1000);
    s.check_waiting_states(t + 1250);
    s.exchange_inputs = vec!["ZZZ".to_string(), "0".to_string()];
    s.current_field = InputField::Exchange(0);
    s.handle_key(Key::Enter, t + 3000);
    assert_eq!(s.score.qso_count, 1);
    assert_eq!(s.score.total_points, 0);
    let q = &s.session_stats.qsos[0];
    assert!(q.callsign_correct);
    assert!(!q.exchange_correct);
}

#[test]
fn escape_stops_audio_only() {
    let mut s = cwt_session();
    s.handle_key(Key::F1, 0);
    s.take_commands();
    s.handle_key(Key::Escape, 10);
    assert_eq!(s.state, ContestState::CallingCq);
    let cmds = s.take_commands();
    assert_eq!(cmds.len(), 1);
    assert!(matches!(cmds[0], AudioCommand::StopAll));
}

#[test]
fn speed_keys_stay_in_range() {
    let mut s = cwt_session();
    s.handle_key(Key::Up, 0);
    assert_eq!(s.user.wpm, 33);
    s.user.wpm = 50;
    s.handle_key(Key::Up, 0);
    assert_eq!(s.user.wpm, 50);
    s.user.wpm = 15;
    s.handle_key(Key::Down, 0);
    assert_eq!(s.user.wpm, 15);
}

#[test]
fn fields_cycle_with_tab() {
    let mut s = cwt_session();
    s.handle_key(Key::NextField, 0);
    assert_eq!(s.current_field, InputField::Exchange(0));
    s.handle_key(Key::NextField, 0);
    assert_eq!(s.current_field, InputField::Exchange(1));
    s.handle_key(Key::NextField, 0);
    assert_eq!(s.current_field, InputField::Callsign);
    s.handle_key(Key::PreviousField, 0);
    assert_eq!(s.current_field, InputField::Exchange(1));
}

#[test]
fn hourly_rate_after_start() {
    let mut score = Score::new();
    assert_eq!(score.hourly_rate(1_000_000), 0);
    score.add_qso(1, 0);
    score.add_qso(1, 100);
    assert_eq!(score.start_time_ms, Some(0));
    assert_eq!(score.hourly_rate(30_000), 0);
    assert_eq!(score.hourly_rate(3_600_000), 2);
    assert_eq!(score.hourly_rate(1_800_000), 4);
}

#[test]
fn similarity_of_callsigns() {
    let (n, d) = callsign_similarity("W1AW", "W1AW");
    assert_eq!(n, d);
    let (n, _) = callsign_similarity("W1AW", "K3LR");
    assert_eq!(n, 0);
    assert_eq!(callsign_similarity("", "W1AW"), (0, 1));
}

#[test]
fn similar_caller_is_found() {
    let callers = vec![caller(1, "K3LR"), caller(2, "W1AW")];
    assert_eq!(find_similar_caller("W1AX", &callers), Some(1));
    assert_eq!(find_similar_caller("W1AW", &callers), Some(1));
    assert_eq!(find_similar_caller("JA1ZZZ", &callers), None);
}

#[test]
fn typed_callsign_is_trimmed_and_uppercased() {
    assert_eq!(typed_callsign("  w1aw "), "W1AW");
}

#[test]
fn caller_sends_exchange_after_its_callsign() {
    let mut ctx = QsoContext::new();
    ctx.set_callers(vec![caller(1, "W1AW")]);
    ctx.progress.sent_their_call = true;
    ctx.progress.sent_our_exchange = true;
    let rolls = ReplyRolls { ack: false, twice: false, coin: true, agn_roll: 0 };
    let (text, state) = caller_reply(&ctx, "W1AW", "BOB 1234", 0, rolls);
    assert_eq!(text.as_deref(), Some("BOB 1234"));
    assert_eq!(state, ContestState::StationTransmitting { tx_type: StationTxType::SendingExchange });
    let (text, state) = caller_reply(&ctx, "W1AW", "BOB 1234", 1_000_000, rolls);
    assert_eq!(text.as_deref(), Some("AGN"));
    assert_eq!(state, ContestState::StationTransmitting { tx_type: StationTxType::RequestingAgn });
}

#[test]
fn cq_waits_for_valid_serial_settings() {
    let contest = create_contest("cqwpx", CtyDat::empty()).unwrap();
    let mut settings = contest.default_settings();
    settings.insert("serial_min", SettingValue::Int(500));
    settings.insert("serial_max", SettingValue::Int(100));
    let source = contest.callsign_source(None);
    let mut s = ContestSession::new(UserSettings::default(), quiet_simulation(), contest, settings, source, CtyDat::empty(), 0);
    s.handle_key(Key::F1, 0);
    assert_eq!(s.state, ContestState::Idle);
    assert!(s.take_commands().is_empty());
    assert_eq!(
        s.settings_notice.as_deref(),
        Some("Serial Min must be less than or equal to Serial Max.")
    );
}
