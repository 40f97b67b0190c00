//! The packet-loop resilience policy: which conditions are retried, skipped,
//! or fatal while packets are read and decoded. The host loop classifies
//! each condition it meets and acts exactly as the returned action says.

use vstd::prelude::*;

verus! {

/// A condition met while reading or decoding one packet.
#[derive(Clone, Copy, PartialEq, Eq, Structural, Debug)]
pub enum StreamEvent {
    /// The decoder asked to be reset before the same position is retried.
    ResetRequired,
    /// Clean end of stream, or an end-of-input read error.
    EndOfInput,
    /// A transient error limited to this packet's data.
    TransientDecodeError,
    /// Any other I/O or format error.
    FatalError,
    /// A packet that belongs to a track other than the selected one.
    ForeignTrackPacket,
    /// A packet decoded into a frame.
    FrameReady,
}

/// What the packet loop does next.
#[derive(Clone, Copy, PartialEq, Eq, Structural, Debug)]
pub enum LoopAction {
    /// Reset the decoder and retry the same position.
    Reset,
    /// Stop the loop; everything decoded so far is used.
    Stop,
    /// Drop this packet and continue with the next one.
    Skip,
    /// Abort the whole decode call; nothing is cached.
    Abort,
    /// Hand the frame to the accumulator and continue.
    Consume,
}

/// The action the packet loop takes for an event. A reset request or a
/// transient per-packet fault never aborts the loop; only an unclassified
/// error does.
pub fn packet_action(ev: StreamEvent) -> (r: LoopAction)
    ensures
        r == (match ev {
            StreamEvent::ResetRequired => LoopAction::Reset,
            StreamEvent::EndOfInput => LoopAction::Stop,
            StreamEvent::TransientDecodeError => LoopAction::Skip,
            StreamEvent::FatalError => LoopAction::Abort,
            StreamEvent::ForeignTrackPacket => LoopAction::Skip,
            StreamEvent::FrameReady => LoopAction::Consume,
        }),
{
    match ev {
        StreamEvent::ResetRequired => LoopAction::Reset,
        StreamEvent::EndOfInput => LoopAction::Stop,
        StreamEvent::TransientDecodeError => LoopAction::Skip,
        StreamEvent::FatalError => LoopAction::Abort,
        StreamEvent::ForeignTrackPacket => LoopAction::Skip,
        StreamEvent::FrameReady => LoopAction::Consume,
    }
}

} // verus!
