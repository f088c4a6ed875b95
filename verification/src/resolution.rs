//! The course of one resolution.
//!
//! A resolution is a sequence of stages.  Each stage but the last asks its
//! driver for one piece of work on the system's side (look the host up,
//! render the current node of the list, release the list, describe a status
//! code) and moves on with the answer.  The list that a lookup hands over is
//! held from then until the one stage that asks for its release.

use vstd::prelude::*;
use vstd::string::StringSliceAdditionalSpecFns;
use crate::address::{AddressFamily, IpAddress};
use crate::error::{ErrorModel, ResolutionError};
use crate::hint::{build_hints, hint_for, ResolutionHint};
use crate::literal::{address, text_of, to_ip};

verus! {

/// The size in bytes of the buffer that a node is rendered into.
pub const TEXT_CAPACITY: usize = 100;

/// The work that a stage asks of its driver.
#[derive(Clone, Copy, Debug, PartialEq, Eq, Structural)]
pub enum Request {
    /// Call the resolver once, with the host name and this hint.
    Lookup(ResolutionHint),
    /// Render the address of the current node as text into a buffer of
    /// `capacity` bytes; with `numeric_host` set, in numeric form only, with
    /// no name looked up and no service.
    Render { capacity: usize, numeric_host: bool },
    /// Release the list.
    Release,
    /// Ask the system for its description of a status code.
    Describe(i32),
}

/// The answer to a request.
#[derive(Debug, PartialEq, Eq)]
pub enum Reply {
    /// The resolver returned `status`; `list` tells whether it handed over a
    /// list.
    Lookup { status: i32, list: bool },
    /// The rendering returned `status` and left `data` in the buffer; `last`
    /// tells whether the node has no successor.
    Rendered { status: i32, data: Vec<u8>, last: bool },
    /// The list has been released.
    Released,
    /// The system's description of the status code.
    Described(String),
}

/// An answer as a value.
pub enum ReplyModel {
    Lookup { status: i32, list: bool },
    Rendered { status: i32, data: Seq<u8>, last: bool },
    Released,
    Described(Seq<char>),
}

impl View for Reply {
    type V = ReplyModel;

    open spec fn view(&self) -> ReplyModel {
        match *self {
            Reply::Lookup { status, list } => ReplyModel::Lookup { status, list },
            Reply::Rendered { status, data, last } => ReplyModel::Rendered {
                status,
                data: data@,
                last,
            },
            Reply::Released => ReplyModel::Released,
            Reply::Described(message) => ReplyModel::Described(message@),
        }
    }
}

/// Where a resolution stands.
#[derive(Debug, PartialEq, Eq)]
pub enum Stage {
    /// Nothing has been asked of the system yet.
    Lookup(ResolutionHint),
    /// The list is held and its current node awaits rendering; these are the
    /// addresses read from the nodes before it.
    Render(Vec<IpAddress>),
    /// The list is held and must be released now; after that the resolution
    /// ends with these addresses, or goes on to describe this status code.
    Release(Result<Vec<IpAddress>, i32>),
    /// No list is held; the status code awaits its description.
    Describe(i32),
    /// The resolution is over.
    Done(Result<Vec<IpAddress>, ResolutionError>),
}

/// A stage as a value.
pub enum StageModel {
    Lookup(ResolutionHint),
    Render(Seq<IpAddress>),
    Release(Result<Seq<IpAddress>, i32>),
    Describe(i32),
    Done(Result<Seq<IpAddress>, ErrorModel>),
}

impl View for Stage {
    type V = StageModel;

    open spec fn view(&self) -> StageModel {
        match *self {
            Stage::Lookup(hint) => StageModel::Lookup(hint),
            Stage::Render(found) => StageModel::Render(found@),
            Stage::Release(Ok(found)) => StageModel::Release(Ok(found@)),
            Stage::Release(Err(code)) => StageModel::Release(Err(code)),
            Stage::Describe(code) => StageModel::Describe(code),
            Stage::Done(Ok(found)) => StageModel::Done(Ok(found@)),
            Stage::Done(Err(error)) => StageModel::Done(Err(error@)),
        }
    }
}

/// The message of the failure that a lookup without status and without list
/// ends in.
pub open spec fn missing_list() -> Seq<char> {
    "null pointer error"@
}

/// The addresses found so far, with the one that a rendered buffer holds
/// added behind them if its text is an address.
pub open spec fn collected(found: Seq<IpAddress>, data: Seq<u8>) -> Seq<IpAddress> {
    match address(text_of(data)) {
        Some(ip) => found.push(ip),
        None => found,
    }
}

/// What a stage asks for; the last stage asks for nothing.
pub open spec fn request_of(stage: StageModel) -> Option<Request> {
    match stage {
        StageModel::Lookup(hint) => Some(Request::Lookup(hint)),
        StageModel::Render(_) => Some(
            Request::Render { capacity: TEXT_CAPACITY, numeric_host: true },
        ),
        StageModel::Release(_) => Some(Request::Release),
        StageModel::Describe(code) => Some(Request::Describe(code)),
        StageModel::Done(_) => None,
    }
}

/// The stage that follows a stage on an answer.
///
/// A lookup that fails is described, after the release of whatever list it
/// left; one that succeeds without a list fails at once; one that succeeds
/// with a list starts the walk.  A rendering that fails ends the walk: the
/// list is released and the status described.  One that succeeds adds its
/// address, if its text is one, and the walk goes on to the next node or,
/// after the last, to the release.  An answer to a request that the stage
/// did not make changes nothing.
pub open spec fn step(stage: StageModel, reply: ReplyModel) -> StageModel {
    match (stage, reply) {
        (StageModel::Lookup(_), ReplyModel::Lookup { status, list }) => {
            if status != 0 {
                if list {
                    StageModel::Release(Err(status))
                } else {
                    StageModel::Describe(status)
                }
            } else if list {
                StageModel::Render(Seq::empty())
            } else {
                StageModel::Done(Err(ErrorModel::ResolverFailure(missing_list())))
            }
        },
        (StageModel::Render(found), ReplyModel::Rendered { status, data, last }) => {
            if status != 0 {
                StageModel::Release(Err(status))
            } else if last {
                StageModel::Release(Ok(collected(found, data)))
            } else {
                StageModel::Render(collected(found, data))
            }
        },
        (StageModel::Release(Ok(found)), ReplyModel::Released) => StageModel::Done(Ok(found)),
        (StageModel::Release(Err(code)), ReplyModel::Released) => StageModel::Describe(code),
        (StageModel::Describe(_), ReplyModel::Described(message)) => StageModel::Done(
            Err(ErrorModel::ResolverFailure(message)),
        ),
        _ => stage,
    }
}

/// Begins the resolution of a host for a family.  A host name with a zero
/// byte in it is refused here, before anything is asked of the system; any
/// other host name yields the stage that asks for the lookup.
pub fn begin(host: &str, family: AddressFamily) -> (result: Result<Stage, ResolutionError>)
    ensures
        match result {
            Ok(stage) => !host.spec_bytes().contains(0u8) && stage@ == StageModel::Lookup(
                hint_for(family),
            ),
            Err(error) => host.spec_bytes().contains(0u8) && error == ResolutionError::InvalidInput,
        },
{
    let bytes = host.as_bytes();
    let mut i: usize = 0;
    while i < bytes.len()
        invariant
            bytes@ == host.spec_bytes(),
            0 <= i <= bytes@.len(),
            forall|k: int| 0 <= k < i ==> bytes@[k] != 0,
        decreases bytes@.len() - i,
    {
        if bytes[i] == 0 {
            proof {
                assert(host.spec_bytes()[i as int] == 0u8);
            }
            return Err(ResolutionError::InvalidInput);
        }
        i += 1;
    }
    Ok(Stage::Lookup(build_hints(family)))
}

/// Begins a resolution that hints at the IPv4 family.
pub fn system_resolve_ipv4(host: &str) -> (result: Result<Stage, ResolutionError>)
    ensures
        match result {
            Ok(stage) => !host.spec_bytes().contains(0u8) && stage@ == StageModel::Lookup(
                hint_for(AddressFamily::IPv4),
            ),
            Err(error) => host.spec_bytes().contains(0u8) && error == ResolutionError::InvalidInput,
        },
{
    begin(host, AddressFamily::IPv4)
}

/// Begins a resolution that hints at the IPv6 family.
pub fn system_resolve_ipv6(host: &str) -> (result: Result<Stage, ResolutionError>)
    ensures
        match result {
            Ok(stage) => !host.spec_bytes().contains(0u8) && stage@ == StageModel::Lookup(
                hint_for(AddressFamily::IPv6),
            ),
            Err(error) => host.spec_bytes().contains(0u8) && error == ResolutionError::InvalidInput,
        },
{
    begin(host, AddressFamily::IPv6)
}

impl Stage {
    /// What the driver has to do at this stage; nothing once the resolution
    /// is over.
    pub fn request(&self) -> (request: Option<Request>)
        ensures
            request == request_of(self@),
    {
        match self {
            Stage::Lookup(hint) => Some(Request::Lookup(*hint)),
            Stage::Render(_) => Some(
                Request::Render { capacity: TEXT_CAPACITY, numeric_host: true },
            ),
            Stage::Release(_) => Some(Request::Release),
            Stage::Describe(code) => Some(Request::Describe(*code)),
            Stage::Done(_) => None,
        }
    }

    /// Moves on with the driver's answer.
    pub fn advance(self, reply: Reply) -> (next: Stage)
        ensures
            next@ == step(self@, reply@),
    {
        match (self, reply) {
            (Stage::Lookup(_), Reply::Lookup { status, list }) => {
                if status != 0 {
                    if list {
                        Stage::Release(Err(status))
                    } else {
                        Stage::Describe(status)
                    }
                } else if list {
                    Stage::Render(Vec::new())
                } else {
                    Stage::Done(
                        Err(ResolutionError::ResolverFailure("null pointer error".to_owned())),
                    )
                }
            },
            (Stage::Render(found), Reply::Rendered { status, data, last }) => {
                if status != 0 {
                    Stage::Release(Err(status))
                } else {
                    let mut found = found;
                    match to_ip(data.as_slice()) {
                        Some(ip) => {
                            found.push(ip);
                        },
                        None => {},
                    }
                    if last {
                        Stage::Release(Ok(found))
                    } else {
                        Stage::Render(found)
                    }
                }
            },
            (Stage::Release(Ok(found)), Reply::Released) => Stage::Done(Ok(found)),
            (Stage::Release(Err(code)), Reply::Released) => Stage::Describe(code),
            (Stage::Describe(_), Reply::Described(message)) => Stage::Done(
                Err(ResolutionError::ResolverFailure(message)),
            ),
            (stage, _) => stage,
        }
    }
}

} // verus!
