//! State of a QSO: who is transmitting (`ContestState`), what has been
//! exchanged (`QsoProgress`), and the rest of the QSO's context.

use vstd::prelude::*;
use crate::messages::{SpecParams, StationParams};

verus! {

/// What has been successfully exchanged in the current QSO.
#[derive(Clone, Copy, Debug, PartialEq, Eq, Structural)]
pub struct QsoProgress {
    /// We finished sending the caller's callsign.
    pub sent_their_call: bool,
    /// We finished sending our exchange.
    pub sent_our_exchange: bool,
    /// The user entered the caller's callsign.
    pub received_their_call: bool,
    /// The user entered the caller's exchange.
    pub received_their_exchange: bool,
}

/// Nothing exchanged yet.
pub open spec fn fresh_progress() -> QsoProgress {
    QsoProgress {
        sent_their_call: false,
        sent_our_exchange: false,
        received_their_call: false,
        received_their_exchange: false,
    }
}

impl QsoProgress {
    pub fn new() -> (p: Self)
        ensures
            p == fresh_progress(),
    {
        QsoProgress {
            sent_their_call: false,
            sent_our_exchange: false,
            received_their_call: false,
            received_their_exchange: false,
        }
    }

    /// Back to nothing exchanged, for a new QSO.
    pub fn reset(&mut self)
        ensures
            *final(self) == fresh_progress(),
    {
        *self = QsoProgress::new();
    }
}

impl Default for QsoProgress {
    fn default() -> (p: Self)
        ensures
            p == fresh_progress(),
    {
        QsoProgress::new()
    }
}

/// A station currently in play.
#[derive(Clone, Debug)]
pub struct ActiveCaller {
    pub params: StationParams,
}

/// A caller as plain data.
pub open spec fn caller_view(c: ActiveCaller) -> SpecParams {
    c.params.view_params()
}

/// The callers of a list as plain data.
pub open spec fn callers_view(v: Seq<ActiveCaller>) -> Seq<SpecParams> {
    v.map_values(|c: ActiveCaller| caller_view(c))
}

impl ActiveCaller {
    /// A copy of the caller.
    pub fn clone_caller(&self) -> (r: Self)
        ensures
            caller_view(r) == caller_view(*self),
    {
        ActiveCaller { params: self.params.clone_params() }
    }
}

/// The data of the current QSO beside its state.
#[derive(Debug)]
pub struct QsoContext {
    pub progress: QsoProgress,
    /// The caller being worked.
    pub current_caller: Option<ActiveCaller>,
    /// All callers in play (a pileup when more than one).
    pub active_callers: Vec<ActiveCaller>,
    /// The caller is correcting the callsign the user sent.
    pub correction_in_progress: bool,
    pub correction_attempts: u8,
    /// Times the caller did not hear its callsign.
    pub confused_attempts: u8,
    /// Until when (ms) the current wait lasts.
    pub wait_until: Option<u64>,
    /// The caller should repeat its callsign (after a partial query or F8).
    pub expecting_callsign_repeat: bool,
    /// The caller may answer a correct callsign with "R R".
    pub allow_callsign_repeat_ack: bool,
    /// The caller sent its exchange at least once in this QSO.
    pub caller_exchange_sent_once: bool,
    /// The user is expected to send the exchange next; the caller keeps quiet.
    pub awaiting_user_exchange: bool,
}

impl QsoContext {
    /// The context of a QSO that has not started.
    pub open spec fn is_fresh(&self) -> bool {
        &&& self.progress == fresh_progress()
        &&& self.current_caller is None
        &&& self.active_callers@.len() == 0
        &&& !self.correction_in_progress
        &&& self.correction_attempts == 0
        &&& self.confused_attempts == 0
        &&& self.wait_until is None
        &&& !self.expecting_callsign_repeat
        &&& !self.allow_callsign_repeat_ack
        &&& !self.caller_exchange_sent_once
        &&& !self.awaiting_user_exchange
    }

    pub fn new() -> (c: Self)
        ensures
            c.is_fresh(),
    {
        QsoContext {
            progress: QsoProgress::new(),
            current_caller: None,
            active_callers: Vec::new(),
            correction_in_progress: false,
            correction_attempts: 0,
            confused_attempts: 0,
            wait_until: None,
            expecting_callsign_repeat: false,
            allow_callsign_repeat_ack: false,
            caller_exchange_sent_once: false,
            awaiting_user_exchange: false,
        }
    }

    /// Clears everything for a new QSO.
    pub fn reset(&mut self)
        ensures
            final(self).is_fresh(),
    {
        self.progress.reset();
        self.current_caller = None;
        self.active_callers.clear();
        self.correction_in_progress = false;
        self.correction_attempts = 0;
        self.confused_attempts = 0;
        self.wait_until = None;
        self.expecting_callsign_repeat = false;
        self.allow_callsign_repeat_ack = false;
        self.caller_exchange_sent_once = false;
        self.awaiting_user_exchange = false;
    }

    /// Puts a new set of callers in play; a single caller becomes the
    /// current one, a pileup leaves none selected.
    pub fn set_callers(&mut self, callers: Vec<ActiveCaller>)
        ensures
            final(self).active_callers == callers,
            callers@.len() == 1 ==> (final(self).current_caller matches Some(c) && caller_view(c)
                == caller_view(callers@[0])),
            callers@.len() != 1 ==> final(self).current_caller is None,
            final(self).progress == old(self).progress,
            final(self).correction_in_progress == old(self).correction_in_progress,
            final(self).correction_attempts == old(self).correction_attempts,
            final(self).confused_attempts == old(self).confused_attempts,
            final(self).wait_until == old(self).wait_until,
            final(self).expecting_callsign_repeat == old(self).expecting_callsign_repeat,
            final(self).allow_callsign_repeat_ack == old(self).allow_callsign_repeat_ack,
            final(self).caller_exchange_sent_once == old(self).caller_exchange_sent_once,
            final(self).awaiting_user_exchange == old(self).awaiting_user_exchange,
    {
        self.active_callers = callers;
        if self.active_callers.len() == 1 {
            self.current_caller = Some(self.active_callers[0].clone_caller());
        } else {
            self.current_caller = None;
        }
    }

    /// Selects a caller from the pileup.
    pub fn select_caller(&mut self, caller: ActiveCaller)
        ensures
            final(self).current_caller == Some(caller),
            final(self).active_callers == old(self).active_callers,
            final(self).progress == old(self).progress,
            final(self).correction_in_progress == old(self).correction_in_progress,
            final(self).correction_attempts == old(self).correction_attempts,
            final(self).confused_attempts == old(self).confused_attempts,
            final(self).wait_until == old(self).wait_until,
            final(self).expecting_callsign_repeat == old(self).expecting_callsign_repeat,
            final(self).allow_callsign_repeat_ack == old(self).allow_callsign_repeat_ack,
            final(self).caller_exchange_sent_once == old(self).caller_exchange_sent_once,
            final(self).awaiting_user_exchange == old(self).awaiting_user_exchange,
    {
        self.current_caller = Some(caller);
    }

    /// The caller being worked.
    pub fn get_current_caller(&self) -> (r: Option<&ActiveCaller>)
        ensures
            match r {
                Some(c) => self.current_caller == Some(*c),
                None => self.current_caller is None,
            },
    {
        match &self.current_caller {
            Some(c) => Some(c),
            None => None,
        }
    }

    /// F8 asks for the callsign again (rather than the exchange).
    pub open spec fn wants_callsign_repeat_spec(&self) -> bool {
        self.correction_in_progress || self.expecting_callsign_repeat || !self.progress.received_their_call
    }

    /// Whether F8 asks for the callsign again (rather than the exchange).
    pub fn wants_callsign_repeat(&self) -> (b: bool)
        ensures
            b == self.wants_callsign_repeat_spec(),
    {
        if self.correction_in_progress || self.expecting_callsign_repeat {
            return true;
        }
        !self.progress.received_their_call
    }

    /// Counts a correction attempt.
    pub fn increment_correction_attempt(&mut self)
        requires
            old(self).correction_attempts < 255,
        ensures
            *final(self) == (QsoContext { correction_attempts: (old(self).correction_attempts + 1) as u8, ..*old(self) }),
    {
        self.correction_attempts = self.correction_attempts + 1;
    }

    /// Counts a time the caller did not hear its callsign.
    pub fn increment_confused_attempt(&mut self)
        requires
            old(self).confused_attempts < 255,
        ensures
            *final(self) == (QsoContext { confused_attempts: (old(self).confused_attempts + 1) as u8, ..*old(self) }),
    {
        self.confused_attempts = self.confused_attempts + 1;
    }

    /// Ends the correction flow.
    pub fn end_correction(&mut self)
        ensures
            !final(self).correction_in_progress,
            final(self).correction_attempts == old(self).correction_attempts,
            final(self).current_caller == old(self).current_caller,
            final(self).active_callers == old(self).active_callers,
            final(self).progress == old(self).progress,
            final(self).expecting_callsign_repeat == old(self).expecting_callsign_repeat,
            final(self).awaiting_user_exchange == old(self).awaiting_user_exchange,
            final(self).caller_exchange_sent_once == old(self).caller_exchange_sent_once,
            final(self).wait_until == old(self).wait_until,
    {
        self.correction_in_progress = false;
    }

    /// Waits `duration_ms` from `now_ms`.
    pub fn set_wait(&mut self, now_ms: u64, duration_ms: u64)
        requires
            now_ms + duration_ms <= u64::MAX,
        ensures
            final(self).wait_until == Some((now_ms + duration_ms) as u64),
            final(self).progress == old(self).progress,
            final(self).current_caller == old(self).current_caller,
            final(self).active_callers == old(self).active_callers,
            final(self).correction_in_progress == old(self).correction_in_progress,
            final(self).correction_attempts == old(self).correction_attempts,
            final(self).confused_attempts == old(self).confused_attempts,
            final(self).expecting_callsign_repeat == old(self).expecting_callsign_repeat,
            final(self).allow_callsign_repeat_ack == old(self).allow_callsign_repeat_ack,
            final(self).caller_exchange_sent_once == old(self).caller_exchange_sent_once,
            final(self).awaiting_user_exchange == old(self).awaiting_user_exchange,
    {
        self.wait_until = Some(now_ms + duration_ms);
    }

    /// The wait is over at `now_ms` (no wait is over).
    pub open spec fn wait_elapsed_spec(&self, now_ms: u64) -> bool {
        match self.wait_until {
            Some(until) => now_ms >= until,
            None => true,
        }
    }

    /// Whether the wait is over at `now_ms` (no wait is over).
    pub fn wait_elapsed(&self, now_ms: u64) -> (b: bool)
        ensures
            b == self.wait_elapsed_spec(now_ms),
    {
        match self.wait_until {
            Some(until) => now_ms >= until,
            None => true,
        }
    }

    /// Clears the wait.
    pub fn clear_wait(&mut self)
        ensures
            final(self).wait_until is None,
            final(self).progress == old(self).progress,
            final(self).current_caller == old(self).current_caller,
            final(self).active_callers == old(self).active_callers,
            final(self).correction_in_progress == old(self).correction_in_progress,
            final(self).correction_attempts == old(self).correction_attempts,
            final(self).confused_attempts == old(self).confused_attempts,
            final(self).expecting_callsign_repeat == old(self).expecting_callsign_repeat,
            final(self).allow_callsign_repeat_ack == old(self).allow_callsign_repeat_ack,
            final(self).caller_exchange_sent_once == old(self).caller_exchange_sent_once,
            final(self).awaiting_user_exchange == old(self).awaiting_user_exchange,
    {
        self.wait_until = None;
    }
}

impl Default for QsoContext {
    fn default() -> (c: Self)
        ensures
            c.is_fresh(),
    {
        QsoContext::new()
    }
}

/// What the user is sending.
#[derive(Clone, Copy, Debug, PartialEq, Eq, Structural)]
pub enum UserTxType {
    /// Their callsign and our exchange (Enter in the callsign field).
    Exchange,
    /// Their callsign only (F5).
    CallsignOnly,
    /// Our exchange only (F2).
    ExchangeOnly,
    /// An AGN or `?` request (F8).
    Agn,
    /// TU (F3 or after logging).
    Tu,
}

/// What a station is sending.
#[derive(Clone, Copy, Debug, PartialEq, Eq, Structural)]
pub enum StationTxType {
    /// Its exchange.
    SendingExchange,
    /// "AGN" or "?".
    RequestingAgn,
    /// Its callsign, correcting what the user sent.
    Correction,
}

/// Who is transmitting or being waited for.
#[derive(Clone, Copy, Debug, PartialEq, Eq, Structural)]
pub enum ContestState {
    /// Waiting for the user to start.
    Idle,
    /// The user is calling CQ.
    CallingCq,
    /// CQ finished; waiting for stations to call.
    WaitingForCallers,
    /// Stations are calling (callers in the context).
    StationsCalling,
    /// The user is transmitting.
    UserTransmitting { tx_type: UserTxType },
    /// A short pause before the station answers.
    WaitingForStation,
    /// A station is transmitting.
    StationTransmitting { tx_type: StationTxType },
    /// QSO logged; TU being sent.
    QsoComplete,
    /// A short pause before a tail-ender calls.
    WaitingForTailEnder,
}

/// Colors of the status line.
#[derive(Clone, Copy, Debug, PartialEq, Eq, Structural)]
pub enum StatusColor {
    Gray,
    Yellow,
    LightBlue,
    Green,
    Orange,
}

/// The status line for a state: its text and color. It depends on whether
/// a correction is in progress and on how many callers are in play.
pub open spec fn status_for(state: ContestState, correcting: bool, callers: nat) -> (&'static str, StatusColor) {
    match state {
        ContestState::Idle => ("Press F1/Enter to call CQ", StatusColor::Gray),
        ContestState::CallingCq => ("Calling CQ...", StatusColor::Yellow),
        ContestState::WaitingForCallers => ("Waiting for callers...", StatusColor::LightBlue),
        ContestState::StationsCalling => if correcting {
            ("Fix callsign and press Enter", StatusColor::Orange)
        } else {
            ("Station calling - enter callsign", StatusColor::Green)
        },
        ContestState::UserTransmitting { tx_type } => match tx_type {
            UserTxType::Exchange => ("Sending exchange...", StatusColor::Yellow),
            UserTxType::CallsignOnly => if callers > 1 {
                ("Querying partial...", StatusColor::Yellow)
            } else {
                ("Sending callsign...", StatusColor::Yellow)
            },
            UserTxType::ExchangeOnly => ("Sending exchange...", StatusColor::Yellow),
            UserTxType::Agn => ("Requesting repeat...", StatusColor::Yellow),
            UserTxType::Tu => ("Sending TU...", StatusColor::Yellow),
        },
        ContestState::WaitingForStation => if correcting {
            ("Waiting for correction...", StatusColor::LightBlue)
        } else {
            ("Waiting for response...", StatusColor::LightBlue)
        },
        ContestState::StationTransmitting { tx_type } => match tx_type {
            StationTxType::SendingExchange => ("Receiving exchange - press Enter to log", StatusColor::Green),
            StationTxType::RequestingAgn => ("Station requests repeat - press F2", StatusColor::Orange),
            StationTxType::Correction => ("Station correcting callsign...", StatusColor::Orange),
        },
        ContestState::QsoComplete => ("QSO logged! Press F1 for next", StatusColor::Green),
        ContestState::WaitingForTailEnder => ("QSO logged! Waiting...", StatusColor::Green),
    }
}

impl ContestState {
    /// The status line text and color.
    pub fn status_text(&self, context: &QsoContext) -> (r: (&'static str, StatusColor))
        ensures
            r == status_for(*self, context.correction_in_progress, context.active_callers@.len()),
    {
        match self {
            ContestState::Idle => ("Press F1/Enter to call CQ", StatusColor::Gray),
            ContestState::CallingCq => ("Calling CQ...", StatusColor::Yellow),
            ContestState::WaitingForCallers => ("Waiting for callers...", StatusColor::LightBlue),
            ContestState::StationsCalling => {
                if context.correction_in_progress {
                    ("Fix callsign and press Enter", StatusColor::Orange)
                } else {
                    ("Station calling - enter callsign", StatusColor::Green)
                }
            },
            ContestState::UserTransmitting { tx_type } => match tx_type {
                UserTxType::Exchange => ("Sending exchange...", StatusColor::Yellow),
                UserTxType::CallsignOnly => {
                    if context.active_callers.len() > 1 {
                        ("Querying partial...", StatusColor::Yellow)
                    } else {
                        ("Sending callsign...", StatusColor::Yellow)
                    }
                },
                UserTxType::ExchangeOnly => ("Sending exchange...", StatusColor::Yellow),
                UserTxType::Agn => ("Requesting repeat...", StatusColor::Yellow),
                UserTxType::Tu => ("Sending TU...", StatusColor::Yellow),
            },
            ContestState::WaitingForStation => {
                if context.correction_in_progress {
                    ("Waiting for correction...", StatusColor::LightBlue)
                } else {
                    ("Waiting for response...", StatusColor::LightBlue)
                }
            },
            ContestState::StationTransmitting { tx_type } => match tx_type {
                StationTxType::SendingExchange => ("Receiving exchange - press Enter to log", StatusColor::Green),
                StationTxType::RequestingAgn => ("Station requests repeat - press F2", StatusColor::Orange),
                StationTxType::Correction => ("Station correcting callsign...", StatusColor::Orange),
            },
            ContestState::QsoComplete => ("QSO logged! Press F1 for next", StatusColor::Green),
            ContestState::WaitingForTailEnder => ("QSO logged! Waiting...", StatusColor::Green),
        }
    }
}

} // verus!
