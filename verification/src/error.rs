//! The errors of the toolkit.

use crate::text::{concat, to_string};
use vstd::prelude::*;

verus! {

/// What can go wrong when building, converting or routing agent data.
#[derive(Debug)]
pub enum AgentError {
    DuplicateFlowName(String),
    InvalidArrayValue(String),
    InvalidDefinition(String, String),
    InvalidFlowName(String),
    InvalidValue(String),
    MissingDefinition(String, String),
    RenameFlowFailed(String),
    UnknownDefKind(String),
    UnknownDefName(String),
    NotImplemented(String),
    AgentAlreadyExists(String),
    AgentCreationFailed(String),
    AgentNotFound(String),
    SourceAgentNotFound(String),
    EmptySourceHandle,
    EmptyTargetHandle,
    EdgeAlreadyExists,
    EdgeNotFound(String),
    FlowNotFound(String),
    AgentDefinitionNotFound(String),
    AgentTxNotFound(String),
    SendMessageFailed(String),
    SerializationError(String),
    TxNotInitialized,
    IoError(String),
    JsonParseError(String),
    InvalidFileExtension,
    EmptyFileName,
    FileSystemError,
    InvalidConfig(String),
}

/// The model of an error: its variant with the characters of its text.
pub enum ErrorModel {
    DuplicateFlowName(Seq<char>),
    InvalidArrayValue(Seq<char>),
    InvalidDefinition(Seq<char>, Seq<char>),
    InvalidFlowName(Seq<char>),
    InvalidValue(Seq<char>),
    MissingDefinition(Seq<char>, Seq<char>),
    RenameFlowFailed(Seq<char>),
    UnknownDefKind(Seq<char>),
    UnknownDefName(Seq<char>),
    NotImplemented(Seq<char>),
    AgentAlreadyExists(Seq<char>),
    AgentCreationFailed(Seq<char>),
    AgentNotFound(Seq<char>),
    SourceAgentNotFound(Seq<char>),
    EmptySourceHandle,
    EmptyTargetHandle,
    EdgeAlreadyExists,
    EdgeNotFound(Seq<char>),
    FlowNotFound(Seq<char>),
    AgentDefinitionNotFound(Seq<char>),
    AgentTxNotFound(Seq<char>),
    SendMessageFailed(Seq<char>),
    SerializationError(Seq<char>),
    TxNotInitialized,
    IoError(Seq<char>),
    JsonParseError(Seq<char>),
    InvalidFileExtension,
    EmptyFileName,
    FileSystemError,
    InvalidConfig(Seq<char>),
}

impl View for AgentError {
    type V = ErrorModel;

    open spec fn view(&self) -> ErrorModel {
        match self {
            AgentError::DuplicateFlowName(a) => ErrorModel::DuplicateFlowName(a@),
            AgentError::InvalidArrayValue(a) => ErrorModel::InvalidArrayValue(a@),
            AgentError::InvalidDefinition(a, b) => ErrorModel::InvalidDefinition(a@, b@),
            AgentError::InvalidFlowName(a) => ErrorModel::InvalidFlowName(a@),
            AgentError::InvalidValue(a) => ErrorModel::InvalidValue(a@),
            AgentError::MissingDefinition(a, b) => ErrorModel::MissingDefinition(a@, b@),
            AgentError::RenameFlowFailed(a) => ErrorModel::RenameFlowFailed(a@),
            AgentError::UnknownDefKind(a) => ErrorModel::UnknownDefKind(a@),
            AgentError::UnknownDefName(a) => ErrorModel::UnknownDefName(a@),
            AgentError::NotImplemented(a) => ErrorModel::NotImplemented(a@),
            AgentError::AgentAlreadyExists(a) => ErrorModel::AgentAlreadyExists(a@),
            AgentError::AgentCreationFailed(a) => ErrorModel::AgentCreationFailed(a@),
            AgentError::AgentNotFound(a) => ErrorModel::AgentNotFound(a@),
            AgentError::SourceAgentNotFound(a) => ErrorModel::SourceAgentNotFound(a@),
            AgentError::EmptySourceHandle => ErrorModel::EmptySourceHandle,
            AgentError::EmptyTargetHandle => ErrorModel::EmptyTargetHandle,
            AgentError::EdgeAlreadyExists => ErrorModel::EdgeAlreadyExists,
            AgentError::EdgeNotFound(a) => ErrorModel::EdgeNotFound(a@),
            AgentError::FlowNotFound(a) => ErrorModel::FlowNotFound(a@),
            AgentError::AgentDefinitionNotFound(a) => ErrorModel::AgentDefinitionNotFound(a@),
            AgentError::AgentTxNotFound(a) => ErrorModel::AgentTxNotFound(a@),
            AgentError::SendMessageFailed(a) => ErrorModel::SendMessageFailed(a@),
            AgentError::SerializationError(a) => ErrorModel::SerializationError(a@),
            AgentError::TxNotInitialized => ErrorModel::TxNotInitialized,
            AgentError::IoError(a) => ErrorModel::IoError(a@),
            AgentError::JsonParseError(a) => ErrorModel::JsonParseError(a@),
            AgentError::InvalidFileExtension => ErrorModel::InvalidFileExtension,
            AgentError::EmptyFileName => ErrorModel::EmptyFileName,
            AgentError::FileSystemError => ErrorModel::FileSystemError,
            AgentError::InvalidConfig(a) => ErrorModel::InvalidConfig(a@),
        }
    }
}

/// The text that describes an error.
pub open spec fn error_text(e: ErrorModel) -> Seq<char> {
    match e {
        ErrorModel::DuplicateFlowName(a) => "Agent flow "@ + a + " already exists"@,
        ErrorModel::InvalidArrayValue(a) => "Invalid "@ + a + " value in array"@,
        ErrorModel::InvalidDefinition(a, b) => a + ": Agent definition \""@ + b + "\" is invalid"@,
        ErrorModel::InvalidFlowName(a) => "Invalid agent flow name: "@ + a,
        ErrorModel::InvalidValue(a) => "Invalid "@ + a + " value"@,
        ErrorModel::MissingDefinition(a, b) => a + ": Agent definition \""@ + b + "\" is missing"@,
        ErrorModel::RenameFlowFailed(a) => "Failed to rename agent flow: "@ + a,
        ErrorModel::UnknownDefKind(a) => "Unknown agent def kind: "@ + a,
        ErrorModel::UnknownDefName(a) => "Unknown agent def name: "@ + a,
        ErrorModel::NotImplemented(a) => "Agent definition \""@ + a + "\" is not implemented"@,
        ErrorModel::AgentAlreadyExists(a) => "Agent "@ + a + " already exists"@,
        ErrorModel::AgentCreationFailed(a) => "Failed to create agent "@ + a,
        ErrorModel::AgentNotFound(a) => "Agent "@ + a + " not found"@,
        ErrorModel::SourceAgentNotFound(a) => "Source agent "@ + a + " not found"@,
        ErrorModel::EmptySourceHandle => "Source handle is empty"@,
        ErrorModel::EmptyTargetHandle => "Target handle is empty"@,
        ErrorModel::EdgeAlreadyExists => "Edge already exists"@,
        ErrorModel::EdgeNotFound(a) => "Edge "@ + a + " not found"@,
        ErrorModel::FlowNotFound(a) => "Agent flow "@ + a + " not found"@,
        ErrorModel::AgentDefinitionNotFound(a) => "Agent "@ + a + " definition not found"@,
        ErrorModel::AgentTxNotFound(a) => "Agent tx for "@ + a + " not found"@,
        ErrorModel::SendMessageFailed(a) => "Failed to send message: "@ + a,
        ErrorModel::SerializationError(a) => "Failed to serialize/deserialize: "@ + a,
        ErrorModel::TxNotInitialized => "Message sender not initialized"@,
        ErrorModel::IoError(a) => "IO error: "@ + a,
        ErrorModel::JsonParseError(a) => "JSON parsing error: "@ + a,
        ErrorModel::InvalidFileExtension => "Invalid file extension: expected JSON"@,
        ErrorModel::EmptyFileName => "Empty file name"@,
        ErrorModel::FileSystemError => "Failed to get file stem from path"@,
        ErrorModel::InvalidConfig(a) => "Configuration error: "@ + a,
    }
}

impl AgentError {
    /// The text that describes the error.
    pub fn message(&self) -> (r: String)
        ensures
            r@ == error_text(self@),
    {
        match self {
            AgentError::DuplicateFlowName(a) => concat(concat("Agent flow ", a.as_str()).as_str(), " already exists"),
            AgentError::InvalidArrayValue(a) => concat(concat("Invalid ", a.as_str()).as_str(), " value in array"),
            AgentError::InvalidDefinition(a, b) => concat(concat(concat(a.as_str(), ": Agent definition \"").as_str(), b.as_str()).as_str(), "\" is invalid"),
            AgentError::InvalidFlowName(a) => concat("Invalid agent flow name: ", a.as_str()),
            AgentError::InvalidValue(a) => concat(concat("Invalid ", a.as_str()).as_str(), " value"),
            AgentError::MissingDefinition(a, b) => concat(concat(concat(a.as_str(), ": Agent definition \"").as_str(), b.as_str()).as_str(), "\" is missing"),
            AgentError::RenameFlowFailed(a) => concat("Failed to rename agent flow: ", a.as_str()),
            AgentError::UnknownDefKind(a) => concat("Unknown agent def kind: ", a.as_str()),
            AgentError::UnknownDefName(a) => concat("Unknown agent def name: ", a.as_str()),
            AgentError::NotImplemented(a) => concat(concat("Agent definition \"", a.as_str()).as_str(), "\" is not implemented"),
            AgentError::AgentAlreadyExists(a) => concat(concat("Agent ", a.as_str()).as_str(), " already exists"),
            AgentError::AgentCreationFailed(a) => concat("Failed to create agent ", a.as_str()),
            AgentError::AgentNotFound(a) => concat(concat("Agent ", a.as_str()).as_str(), " not found"),
            AgentError::SourceAgentNotFound(a) => concat(concat("Source agent ", a.as_str()).as_str(), " not found"),
            AgentError::EmptySourceHandle => to_string("Source handle is empty"),
            AgentError::EmptyTargetHandle => to_string("Target handle is empty"),
            AgentError::EdgeAlreadyExists => to_string("Edge already exists"),
            AgentError::EdgeNotFound(a) => concat(concat("Edge ", a.as_str()).as_str(), " not found"),
            AgentError::FlowNotFound(a) => concat(concat("Agent flow ", a.as_str()).as_str(), " not found"),
            AgentError::AgentDefinitionNotFound(a) => concat(concat("Agent ", a.as_str()).as_str(), " definition not found"),
            AgentError::AgentTxNotFound(a) => concat(concat("Agent tx for ", a.as_str()).as_str(), " not found"),
            AgentError::SendMessageFailed(a) => concat("Failed to send message: ", a.as_str()),
            AgentError::SerializationError(a) => concat("Failed to serialize/deserialize: ", a.as_str()),
            AgentError::TxNotInitialized => to_string("Message sender not initialized"),
            AgentError::IoError(a) => concat("IO error: ", a.as_str()),
            AgentError::JsonParseError(a) => concat("JSON parsing error: ", a.as_str()),
            AgentError::InvalidFileExtension => to_string("Invalid file extension: expected JSON"),
            AgentError::EmptyFileName => to_string("Empty file name"),
            AgentError::FileSystemError => to_string("Failed to get file stem from path"),
            AgentError::InvalidConfig(a) => concat("Configuration error: ", a.as_str()),
        }
    }
}

} // verus!
