use contest_trainer::contest::types::Exchange;
use contest_trainer::messages::{StationId, StationParams};
use contest_trainer::state::{
    ActiveCaller, ContestState, QsoContext, QsoProgress, StationTxType, StatusColor, UserTxType,
};
use contest_trainer::station::caller_manager::CallerResponse;

fn caller(id: u32, call: &str, wpm: u8) -> ActiveCaller {
    ActiveCaller {
        params: StationParams {
            id: StationId(id),
            callsign: call.to_string(),
            exchange: Exchange::new(vec!["5NN".to_string(), "05".to_string()]),
            frequency_offset_hz: 0,
            wpm,
            amplitude_milli: 1000,
            reaction_delay_ms: 0,
        },
    }
}

#[test]
fn test_qso_progress_default() {
    let progress = QsoProgress::new();
    assert!(!progress.sent_their_call);
    assert!(!progress.sent_our_exchange);
    assert!(!progress.received_their_call);
    assert!(!progress.received_their_exchange);
}

#[test]
fn test_qso_progress_reset() {
    let mut progress = QsoProgress::new();
    progress.sent_their_call = true;
    progress.sent_our_exchange = true;
    progress.received_their_call = true;
    progress.received_their_exchange = true;

    progress.reset();

    assert!(!progress.sent_their_call);
    assert!(!progress.sent_our_exchange);
    assert!(!progress.received_their_call);
    assert!(!progress.received_their_exchange);
}

#[test]
fn test_qso_context_callers() {
    let mut context = QsoContext::new();
    let caller1 = caller(1, "W1AW", 25);
    let mut caller2 = caller(2, "K3LR", 30);
    caller2.params.frequency_offset_hz = 100;
    caller2.params.amplitude_milli = 800;

    context.set_callers(vec![caller1.clone()]);
    assert_eq!(context.active_callers.len(), 1);
    assert!(context.current_caller.is_some());
    assert_eq!(context.current_caller.as_ref().unwrap().params.callsign, "W1AW");

    context.set_callers(vec![caller1.clone(), caller2.clone()]);
    assert_eq!(context.active_callers.len(), 2);
    assert!(context.current_caller.is_none());

    context.select_caller(caller2.clone());
    assert!(context.current_caller.is_some());
    assert_eq!(context.current_caller.as_ref().unwrap().params.callsign, "K3LR");

    context.reset();
    assert!(context.active_callers.is_empty());
    assert!(context.current_caller.is_none());
}

#[test]
fn test_caller_response_from_progress() {
    let progress = QsoProgress {
        sent_their_call: false,
        sent_our_exchange: false,
        received_their_call: false,
        received_their_exchange: false,
    };
    assert_eq!(CallerResponse::from_progress(&progress), CallerResponse::Confused);

    let progress = QsoProgress {
        sent_their_call: true,
        sent_our_exchange: false,
        received_their_call: false,
        received_their_exchange: false,
    };
    assert_eq!(CallerResponse::from_progress(&progress), CallerResponse::RequestAgn);

    let progress = QsoProgress {
        sent_their_call: true,
        sent_our_exchange: true,
        received_their_call: false,
        received_their_exchange: false,
    };
    assert_eq!(CallerResponse::from_progress(&progress), CallerResponse::SendExchange);

    let progress = QsoProgress {
        sent_their_call: false,
        sent_our_exchange: true,
        received_their_call: false,
        received_their_exchange: false,
    };
    assert_eq!(CallerResponse::from_progress(&progress), CallerResponse::Confused);
}

#[test]
fn test_caller_response_waits_when_awaiting_exchange() {
    let progress = QsoProgress {
        sent_their_call: true,
        sent_our_exchange: false,
        received_their_call: false,
        received_their_exchange: false,
    };
    let mut context = QsoContext::new();
    context.awaiting_user_exchange = true;

    assert_eq!(
        CallerResponse::from_progress_and_context(&progress, &context),
        CallerResponse::Wait
    );
}

#[test]
fn status_texts() {
    let mut context = QsoContext::new();
    assert_eq!(
        ContestState::Idle.status_text(&context),
        ("Press F1/Enter to call CQ", StatusColor::Gray)
    );
    assert_eq!(
        ContestState::StationsCalling.status_text(&context),
        ("Station calling - enter callsign", StatusColor::Green)
    );
    context.correction_in_progress = true;
    assert_eq!(
        ContestState::StationsCalling.status_text(&context),
        ("Fix callsign and press Enter", StatusColor::Orange)
    );
    assert_eq!(
        ContestState::WaitingForStation.status_text(&context),
        ("Waiting for correction...", StatusColor::LightBlue)
    );
    context.set_callers(vec![caller(1, "W1AW", 30), caller(2, "K3LR", 30)]);
    assert_eq!(
        ContestState::UserTransmitting { tx_type: UserTxType::CallsignOnly }.status_text(&context),
        ("Querying partial...", StatusColor::Yellow)
    );
    assert_eq!(
        ContestState::StationTransmitting { tx_type: StationTxType::RequestingAgn }.status_text(&context),
        ("Station requests repeat - press F2", StatusColor::Orange)
    );
    assert_eq!(
        ContestState::WaitingForTailEnder.status_text(&context),
        ("QSO logged! Waiting...", StatusColor::Green)
    );
}

#[test]
fn wait_timer() {
    let mut context = QsoContext::new();
    assert!(context.wait_elapsed(0));
    context.set_wait(1000, 250);
    assert!(!context.wait_elapsed(1249));
    assert!(context.wait_elapsed(1250));
    context.clear_wait();
    assert!(context.wait_elapsed(0));
}

#[test]
fn f8_target() {
    let mut context = QsoContext::new();
    assert!(context.wants_callsign_repeat());
    context.progress.received_their_call = true;
    assert!(!context.wants_callsign_repeat());
    context.expecting_callsign_repeat = true;
    assert!(context.wants_callsign_repeat());
}
