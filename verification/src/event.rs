//! The records that travel from the sequence engine to the renderer.

use vstd::prelude::*;

verus! {

/// One visible change of the sequence.
#[derive(Clone, Copy, Debug, PartialEq, Eq, Structural)]
pub enum Event {
    /// The bar at column `index` is created or overwritten with `height`.
    Place { index: u16, height: u16 },
    /// The bars at columns `left` and `right` exchange their heights.
    Swap { left: u16, right: u16 },
    /// The bar at column `index` is confirmed to be in order.
    VerifyStep { index: u16 },
    /// All bars are discarded and the screen is blanked.
    Clear,
}

/// An event together with the time, in milliseconds, that the producer rests
/// after queueing it.
#[derive(Clone, Copy, Debug, PartialEq, Eq, Structural)]
pub struct Emission {
    pub event: Event,
    pub pause_ms: u64,
}

/// Tag of a `Place` record on the wire.
pub const KIND_PLACE: u16 = 0;

/// Tag of a `Swap` record on the wire.
pub const KIND_SWAP: u16 = 1;

/// Tag of a `VerifyStep` record on the wire.
pub const KIND_VERIFY: u16 = 2;

/// Tag of a `Clear` record on the wire.
pub const KIND_CLEAR: u16 = 3;

impl Event {
    /// The fixed-shape record `[kind, first, second]` that stands for this event.
    pub open spec fn wire(self) -> Seq<u16> {
        match self {
            Event::Place { index, height } => seq![KIND_PLACE, index, height],
            Event::Swap { left, right } => seq![KIND_SWAP, left, right],
            Event::VerifyStep { index } => seq![KIND_VERIFY, 0u16, index],
            Event::Clear => seq![KIND_CLEAR, 0u16, 0u16],
        }
    }

    /// The event that a record stands for, if its kind tag is known. A
    /// `VerifyStep` ignores the first number, a `Clear` ignores both.
    pub open spec fn parse(record: Seq<u16>) -> Option<Event> {
        if record.len() != 3 {
            None
        } else if record[0] == KIND_PLACE {
            Some(Event::Place { index: record[1], height: record[2] })
        } else if record[0] == KIND_SWAP {
            Some(Event::Swap { left: record[1], right: record[2] })
        } else if record[0] == KIND_VERIFY {
            Some(Event::VerifyStep { index: record[2] })
        } else if record[0] == KIND_CLEAR {
            Some(Event::Clear)
        } else {
            None
        }
    }

    /// Writes the event as a record for the channel.
    pub fn encode(&self) -> (record: [u16; 3])
        ensures
            record@ == self.wire(),
    {
        let record = match *self {
            Event::Place { index, height } => [KIND_PLACE, index, height],
            Event::Swap { left, right } => [KIND_SWAP, left, right],
            Event::VerifyStep { index } => [KIND_VERIFY, 0u16, index],
            Event::Clear => [KIND_CLEAR, 0u16, 0u16],
        };
        assert(record@ =~= self.wire());
        record
    }

    /// Reads a record from the channel; `None` for an unknown kind tag.
    pub fn decode(record: [u16; 3]) -> (event: Option<Event>)
        ensures
            event == Event::parse(record@),
    {
        let kind = record[0];
        if kind == KIND_PLACE {
            Some(Event::Place { index: record[1], height: record[2] })
        } else if kind == KIND_SWAP {
            Some(Event::Swap { left: record[1], right: record[2] })
        } else if kind == KIND_VERIFY {
            Some(Event::VerifyStep { index: record[2] })
        } else if kind == KIND_CLEAR {
            Some(Event::Clear)
        } else {
            None
        }
    }
}

/// Every event survives the trip through its record: parsing what `wire`
/// wrote gives the event back.
pub proof fn lemma_wire_round_trip(event: Event)
    ensures
        Event::parse(event.wire()) == Some(event),
{
}

} // verus!
