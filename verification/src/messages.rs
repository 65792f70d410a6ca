//! Messages between the contest logic and the audio side: what to play and
//! what finished playing.

use vstd::prelude::*;
use crate::contest::pool::clone_strings;
use crate::contest::types::Exchange;

verus! {

/// Identifies a calling station.
#[derive(Clone, Copy, PartialEq, Eq, Structural, Hash, Debug)]
pub struct StationId(pub u32);

/// Kind of a segment of a user message; each finished segment is reported,
/// which is how the logic learns what the other station has heard.
#[derive(Clone, Copy, PartialEq, Eq, Structural, Debug)]
pub enum MessageSegmentType {
    /// The caller's callsign.
    TheirCallsign,
    /// Our exchange.
    OurExchange,
    /// A CQ call.
    Cq,
    /// Thank you / QSO complete.
    Tu,
    /// An AGN or `?` request.
    Agn,
}

/// A segment of a user message.
#[derive(Clone, Debug)]
pub struct MessageSegment {
    pub content: String,
    pub segment_type: MessageSegmentType,
}

/// A calling station: who it is, what it sends, and how it sounds.
/// The audio offset is in whole hertz and the amplitude in thousandths.
#[derive(Clone, Debug)]
pub struct StationParams {
    pub id: StationId,
    pub callsign: String,
    pub exchange: Exchange,
    pub frequency_offset_hz: i32,
    pub wpm: u8,
    pub amplitude_milli: u32,
    /// Delay in milliseconds before this station starts transmitting.
    pub reaction_delay_ms: u32,
}

/// A station's parameters as plain data.
pub struct SpecParams {
    pub id: u32,
    pub callsign: Seq<char>,
    pub exchange: Seq<Seq<char>>,
    pub frequency_offset_hz: i32,
    pub wpm: u8,
    pub amplitude_milli: u32,
    pub reaction_delay_ms: u32,
}

impl StationParams {
    pub open spec fn view_params(&self) -> SpecParams {
        SpecParams {
            id: self.id.0,
            callsign: self.callsign@,
            exchange: self.exchange.view_fields(),
            frequency_offset_hz: self.frequency_offset_hz,
            wpm: self.wpm,
            amplitude_milli: self.amplitude_milli,
            reaction_delay_ms: self.reaction_delay_ms,
        }
    }

    /// A copy of the parameters.
    pub fn clone_params(&self) -> (r: Self)
        ensures
            r.view_params() == self.view_params(),
    {
        let ex = Exchange::new(clone_strings(&self.exchange.fields));
        assert(ex.view_fields() =~= self.exchange.view_fields());
        StationParams {
            id: self.id,
            callsign: self.callsign.clone(),
            exchange: ex,
            frequency_offset_hz: self.frequency_offset_hz,
            wpm: self.wpm,
            amplitude_milli: self.amplitude_milli,
            reaction_delay_ms: self.reaction_delay_ms,
        }
    }

    /// The same station sending `text` in place of its callsign (a repeat,
    /// a correction, an AGN request, or its exchange).
    pub fn sending(&self, text: String) -> (r: Self)
        ensures
            r.view_params() == (SpecParams { callsign: text@, ..self.view_params() }),
    {
        let mut r = self.clone_params();
        r.callsign = text;
        r
    }
}

/// What the logic asks the audio side to do.
#[derive(Clone, Debug)]
pub enum AudioCommand {
    /// Start playing a station.
    StartStation(StationParams),
    /// Play a user message.
    PlayUserMessage { message: String, wpm: u8 },
    /// Play a user message segment by segment; each segment reports when done.
    PlayUserMessageSegmented { segments: Vec<MessageSegment>, wpm: u8 },
    /// Stop all audio except noise.
    StopAll,
}

/// What the audio side reports back.
#[derive(Clone, Copy, PartialEq, Eq, Structural, Debug)]
pub enum AudioEvent {
    /// A station finished sending.
    StationComplete(StationId),
    /// The user message finished playing.
    UserMessageComplete,
    /// A segment of the user message finished playing (reported before
    /// `UserMessageComplete`).
    UserSegmentComplete(MessageSegmentType),
}

/// A segment as plain data.
pub open spec fn segment_view(s: MessageSegment) -> (Seq<char>, MessageSegmentType) {
    (s.content@, s.segment_type)
}

/// A command as plain data.
pub enum SpecCommand {
    StartStation(SpecParams),
    PlayUserMessage(Seq<char>, u8),
    PlayUserMessageSegmented(Seq<(Seq<char>, MessageSegmentType)>, u8),
    StopAll,
}

pub open spec fn command_view(c: AudioCommand) -> SpecCommand {
    match c {
        AudioCommand::StartStation(p) => SpecCommand::StartStation(p.view_params()),
        AudioCommand::PlayUserMessage { message, wpm } => SpecCommand::PlayUserMessage(message@, wpm),
        AudioCommand::PlayUserMessageSegmented { segments, wpm } => SpecCommand::PlayUserMessageSegmented(
            segments@.map_values(|s: MessageSegment| segment_view(s)),
            wpm,
        ),
        AudioCommand::StopAll => SpecCommand::StopAll,
    }
}

/// Commands as plain data.
pub open spec fn commands_view(v: Seq<AudioCommand>) -> Seq<SpecCommand> {
    v.map_values(|c: AudioCommand| command_view(c))
}

} // verus!
