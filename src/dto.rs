//! The data exchanged with clients and with the management tool.
use vstd::prelude::*;
use crate::channel_id::{first_segment, first_segment_of};
use crate::error::{code_of, MegaphoneError};
use crate::service::MessageDeliveryFailure;

verus! {

#[derive(Clone, Copy, Debug, PartialEq, Eq, Structural)]
pub enum OutcomeStatus {
    Success,
}

/// The reply of a management call that has nothing else to say.
pub struct BasicOutcomeDto {
    pub status: OutcomeStatus,
}

impl BasicOutcomeDto {
    pub fn ok() -> (r: Self)
        ensures
            r.status == OutcomeStatus::Success,
    {
        BasicOutcomeDto { status: OutcomeStatus::Success }
    }
}

pub struct AddVirtualAgentReqDto {
    pub name: String,
}

pub struct PipeVirtualAgentReqDto {
    pub name: String,
    pub target: String,
}

/// The reply to channel creation.
pub struct ChannelCreateResDto {
    pub channel_id: String,
    pub agent_name: String,
    pub producer_address: String,
    pub consumer_address: String,
    pub protocols: Vec<String>,
}

pub struct WriteBatchResDto {
    pub failures: Vec<MessageDeliveryFailure>,
}

pub struct ChanExistsReqDto {
    pub channel_ids: Vec<String>,
}

pub struct ChanExistsResDto {
    pub channel_ids: Vec<(String, bool)>,
}

/// Which channels a listing wants.
pub struct ChannelsListParams {
    pub agents: Vec<String>,
    pub skip: usize,
    pub limit: usize,
}

/// The number of channels a listing returns unless told otherwise.
pub fn default_limit() -> (r: usize)
    ensures
        r == 50,
{
    50
}

/// A channel and the agent it belongs to.
pub struct ChannelInfoDto {
    pub channel_id: String,
    pub agent_id: String,
}

impl ChannelInfoDto {
    /// The listing entry of an address: the agent is its first segment.
    pub fn from_full_id(s: &str) -> (r: Self)
        ensures
            r.channel_id@ == s@,
            r.agent_id@ == first_segment(s@),
    {
        ChannelInfoDto {
            channel_id: String::from_str(s),
            agent_id: String::from_str(first_segment_of(s)),
        }
    }
}

/// The envelope of an error sent to a client.
pub struct ErrorDto {
    pub code: String,
    pub message: String,
}

impl ErrorDto {
    pub fn from_error(e: &MegaphoneError, message: String) -> (r: Self)
        ensures
            r.code@ == code_of(e),
            r.message@ == message@,
    {
        ErrorDto { code: String::from_str(e.code()), message }
    }
}

/// What can go wrong while a client waits for a delayed response.
pub enum DelayedResponseError {
    InitializationError(String),
    MissingResponse,
    DeserializationError(String),
}

/// How the management tool prints its results.
#[derive(Clone, Copy, Debug, PartialEq, Eq, Structural)]
pub enum OutFormat {
    Plain,
    Json,
}

pub struct AddAgentArgs {
    pub name: String,
}

impl AddAgentArgs {
    pub fn into_request(self) -> (r: AddVirtualAgentReqDto)
        ensures
            r.name@ == self.name@,
    {
        AddVirtualAgentReqDto { name: self.name }
    }
}

pub struct PipeAgentArgs {
    pub name: String,
    pub target: String,
}

impl PipeAgentArgs {
    pub fn into_request(self) -> (r: PipeVirtualAgentReqDto)
        ensures
            r.name@ == self.name@,
            r.target@ == self.target@,
    {
        PipeVirtualAgentReqDto { name: self.name, target: self.target }
    }
}

pub struct ListChannelsArgs {
    pub skip: Option<usize>,
    pub limit: Option<usize>,
}

pub struct DisposeChannelArgs {
    pub name: String,
}

} // verus!
