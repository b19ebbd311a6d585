//! One connection of the ingestion server: what a read leads to, and what
//! a decoded line does to the state.

use vstd::prelude::*;
use crate::data_handler::entity::{Device, Entity, EntityView, Experiment};
use crate::data_handler::stamp::is_clock_stamp;
use crate::data_handler::state::{outcome_of, updated, ServerState, UpdateOutcome};
use crate::text::{trim, trimmed};

verus! {

/// What the next thing to do on a connection is, after a read.
#[derive(Debug, PartialEq)]
pub enum ReadStep<'a> {
    /// The peer is gone, or the read failed: end this connection.
    Close,
    /// The line is blank: read on, and answer nothing.
    Skip,
    /// Decode this text, the line without the white space around it.
    Decode(&'a str),
}

/// What to do after a read on a connection. `read` is the number of bytes
/// that the read gave, or nothing if it failed, and `line` is what it read.
/// The end of the input and a failed read end the connection; a blank line
/// is passed over; any other line is to be decoded, without the white space
/// around it.
pub fn read_step<'a>(read: Option<usize>, line: &'a str) -> (step: ReadStep<'a>)
    ensures
        match read {
            None => step is Close,
            Some(n) => if n == 0 {
                step is Close
            } else if trimmed(line@).len() == 0 {
                step is Skip
            } else {
                step matches ReadStep::Decode(text) && text@ == trimmed(line@)
            },
        },
{
    match read {
        None => ReadStep::Close,
        Some(0) => ReadStep::Close,
        Some(_) => {
            let text = trim(line);
            if text.is_empty() {
                ReadStep::Skip
            } else {
                ReadStep::Decode(text)
            }
        },
    }
}

/// What a line was decoded to.
#[derive(Debug, PartialEq)]
pub enum Decoded {
    /// The line has the shape of a device.
    Device(Device),
    /// The line has the shape of a descriptor, and not that of a device.
    Experiment(Experiment),
    /// The line has neither shape; the text says why it is no descriptor.
    Invalid(String),
}

impl Decoded {
    /// What a line is taken for, given the attempt to decode it as a device
    /// and the attempt to decode it as a descriptor: a device wherever the
    /// first attempt succeeds, else a descriptor where the second does,
    /// else invalid, with the second attempt's reason.
    pub fn from_attempts(device: Result<Device, String>, experiment: Result<Experiment, String>) -> (decoded:
        Decoded)
        ensures
            decoded == match (device, experiment) {
                (Ok(d), _) => Decoded::Device(d),
                (Err(_), Ok(e)) => Decoded::Experiment(e),
                (Err(_), Err(why)) => Decoded::Invalid(why),
            },
    {
        match device {
            Ok(d) => Decoded::Device(d),
            Err(_) => match experiment {
                Ok(e) => Decoded::Experiment(e),
                Err(why) => Decoded::Invalid(why),
            },
        }
    }
}

/// What is to be done about a line once it is applied.
#[derive(Debug, PartialEq)]
pub struct LineOutcome {
    /// The answer to write back to the sender, one line.
    pub reply: String,
    /// Whether the accepted line goes out to the observers.
    pub publish: bool,
    /// What became of the update, where the line was one.
    pub update: Option<UpdateOutcome>,
}

/// The name a decoded line is stored under, and what it brings: a device
/// under the name it gives itself, a descriptor under the name of who runs
/// the experiment.
pub open spec fn arrival_of(decoded: Decoded) -> (Seq<char>, EntityView) {
    match decoded {
        Decoded::Device(d) => (d@.device_name, EntityView::Device(d@)),
        Decoded::Experiment(e) => (e@.info.name, EntityView::ExperimentSetup(e@)),
        Decoded::Invalid(_) => (Seq::empty(), arbitrary()),
    }
}

/// The answer to a decoded line.
pub open spec fn reply_to(decoded: Decoded) -> Seq<char> {
    match decoded {
        Decoded::Device(_) => "Device measurements recorded\n"@,
        Decoded::Experiment(_) => "Experiment configuration processed\n"@,
        Decoded::Invalid(why) => "Invalid format: "@ + why@ + "\n"@,
    }
}

/// Applies one decoded line of a connection to the state of the run.
///
/// A device or a descriptor updates the state under its name, is answered
/// with an acknowledgment, and goes out to the observers. A line that is
/// neither changes nothing, is answered with the reason, and does not go
/// out. The connection stays open in every case.
pub fn handle_connection(state: &mut ServerState, decoded: Decoded) -> (outcome: LineOutcome)
    ensures
        final(state).wf(),
        final(state).live() == old(state).live(),
        outcome.reply@ == reply_to(decoded),
        outcome.publish == !(decoded is Invalid),
        match decoded {
            Decoded::Invalid(_) => {
                &&& final(state)@ == old(state)@
                &&& final(state).order() == old(state).order()
                &&& outcome.update is None
            },
            _ => {
                &&& exists|now: Seq<char>|
                    is_clock_stamp(now) && final(state)@ == #[trigger] updated(
                        old(state)@,
                        arrival_of(decoded).0,
                        arrival_of(decoded).1,
                        now,
                    )
                &&& final(state).order() == if old(state)@.contains_key(arrival_of(decoded).0)
                    || final(state)@ == old(state)@ {
                    old(state).order()
                } else {
                    old(state).order().push(arrival_of(decoded).0)
                }
                &&& outcome.update matches Some(u) && outcome_of(
                    old(state)@,
                    arrival_of(decoded).0,
                    arrival_of(decoded).1,
                    u,
                )
            },
        },
{
    match decoded {
        Decoded::Device(device) => {
            let key = device.device_name.clone();
            proof {
                assert(arrival_of(decoded) == (key@, Entity::Device(device)@));
            }
            let update = state.update_entity(key, Entity::Device(device));
            LineOutcome {
                reply: "Device measurements recorded\n".to_owned(),
                publish: true,
                update: Some(update),
            }
        },
        Decoded::Experiment(experiment) => {
            let key = experiment.info.name.clone();
            proof {
                assert(arrival_of(decoded) == (key@, Entity::ExperimentSetup(experiment)@));
            }
            let update = state.update_entity(key, Entity::ExperimentSetup(experiment));
            LineOutcome {
                reply: "Experiment configuration processed\n".to_owned(),
                publish: true,
                update: Some(update),
            }
        },
        Decoded::Invalid(why) => {
            let mut reply = "Invalid format: ".to_owned();
            reply.append(why.as_str());
            reply.append("\n");
            proof {
                use_type_invariant(&*state);
            }
            LineOutcome { reply, publish: false, update: None }
        },
    }
}

} // verus!
