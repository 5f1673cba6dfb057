//! The enumerations of the protocol and their numeric wire codes.

use vstd::prelude::*;
use vstd::std_specs::convert::{FromSpecImpl, TryFromSpecImpl};
use crate::streams::DecodeError;

verus! {

/// The type of a resource record.
#[derive(Clone, Copy, Debug, PartialEq, Eq, Structural)]
pub enum ResourceRecordType {
    /// A host address.
    A,
    /// The OPT pseudo-record.
    Options,
}

impl ResourceRecordType {
    /// The wire code of a record type.
    pub open spec fn wire_code(self) -> u16 {
        match self {
            ResourceRecordType::A => 1,
            ResourceRecordType::Options => 41,
        }
    }

    /// The record type that a wire code stands for, if it is a known one.
    pub open spec fn of_code(code: u16) -> Option<ResourceRecordType> {
        if code == 1 {
            Some(ResourceRecordType::A)
        } else if code == 41 {
            Some(ResourceRecordType::Options)
        } else {
            None
        }
    }

    /// The wire code of this record type.
    pub fn code(self) -> (r: u16)
        ensures
            r == self.wire_code(),
    {
        match self {
            ResourceRecordType::A => 1,
            ResourceRecordType::Options => 41,
        }
    }

    /// The record type with the given wire code, or `None` for a code that
    /// is not known.
    pub fn from_code(code: u16) -> (r: Option<ResourceRecordType>)
        ensures
            r == Self::of_code(code),
    {
        match code {
            1 => Some(ResourceRecordType::A),
            41 => Some(ResourceRecordType::Options),
            _ => None,
        }
    }

    /// A wire code stands for a record type exactly when it is that type's
    /// code.
    pub proof fn lemma_code_round_trip(self, code: u16)
        ensures
            Self::of_code(self.wire_code()) == Some(self),
            Self::of_code(code) == Some(self) <==> code == self.wire_code(),
    {
    }
}

impl From<ResourceRecordType> for u16 {
    /// The wire code of the record type.
    fn from(value: ResourceRecordType) -> (r: u16) {
        value.code()
    }
}

impl FromSpecImpl<ResourceRecordType> for u16 {
    open spec fn obeys_from_spec() -> bool {
        true
    }

    open spec fn from_spec(value: ResourceRecordType) -> u16 {
        value.wire_code()
    }
}

impl From<ResourceRecordType> for u8 {
    /// The wire code of the record type, which fits one octet.
    fn from(value: ResourceRecordType) -> (r: u8) {
        value.code() as u8
    }
}

impl FromSpecImpl<ResourceRecordType> for u8 {
    open spec fn obeys_from_spec() -> bool {
        true
    }

    open spec fn from_spec(value: ResourceRecordType) -> u8 {
        value.wire_code() as u8
    }
}

impl TryFrom<u16> for ResourceRecordType {
    type Error = DecodeError;

    /// The record type with the given wire code, or the error
    /// that names the code where it is not known.
    fn try_from(code: u16) -> (r: Result<ResourceRecordType, DecodeError>) {
        match ResourceRecordType::from_code(code) {
            Some(value) => Ok(value),
            None => Err(DecodeError::UnknownRecordType(code)),
        }
    }
}

impl TryFromSpecImpl<u16> for ResourceRecordType {
    open spec fn obeys_try_from_spec() -> bool {
        true
    }

    open spec fn try_from_spec(code: u16) -> Result<ResourceRecordType, DecodeError> {
        match ResourceRecordType::of_code(code) {
            Some(value) => Ok(value),
            None => Err(DecodeError::UnknownRecordType(code)),
        }
    }
}

impl TryFrom<u8> for ResourceRecordType {
    type Error = DecodeError;

    /// The record type with the given wire code, or the error
    /// that names the code where it is not known.
    fn try_from(code: u8) -> (r: Result<ResourceRecordType, DecodeError>) {
        match ResourceRecordType::from_code(code as u16) {
            Some(value) => Ok(value),
            None => Err(DecodeError::UnknownRecordType(code as u16)),
        }
    }
}

impl TryFromSpecImpl<u8> for ResourceRecordType {
    open spec fn obeys_try_from_spec() -> bool {
        true
    }

    open spec fn try_from_spec(code: u8) -> Result<ResourceRecordType, DecodeError> {
        match ResourceRecordType::of_code(code as u16) {
            Some(value) => Ok(value),
            None => Err(DecodeError::UnknownRecordType(code as u16)),
        }
    }
}

/// The outcome that a response reports.
#[derive(Clone, Copy, Debug, PartialEq, Eq, Structural)]
pub enum ResponseCode {
    NoError,
    FormatError,
    ServerFailure,
    NonExistentDomain,
    NotImplemented,
    Refused,
    NameExists,
    ResourceRecordSet,
    ResourceRecordNotSet,
    NotAuthorized,
    NotInZone,
    DSOTypeNotImplemented,
    BadVersion,
    BadKey,
    BadTime,
    BadMode,
    BadName,
    BadAlgorithm,
    BadTruncation,
    BadCookie,
}

impl ResponseCode {
    /// The wire code of a response code.
    pub open spec fn wire_code(self) -> u16 {
        match self {
            ResponseCode::NoError => 0,
            ResponseCode::FormatError => 1,
            ResponseCode::ServerFailure => 2,
            ResponseCode::NonExistentDomain => 3,
            ResponseCode::NotImplemented => 4,
            ResponseCode::Refused => 5,
            ResponseCode::NameExists => 6,
            ResponseCode::ResourceRecordSet => 7,
            ResponseCode::ResourceRecordNotSet => 8,
            ResponseCode::NotAuthorized => 9,
            ResponseCode::NotInZone => 10,
            ResponseCode::DSOTypeNotImplemented => 11,
            ResponseCode::BadVersion => 16,
            ResponseCode::BadKey => 17,
            ResponseCode::BadTime => 18,
            ResponseCode::BadMode => 19,
            ResponseCode::BadName => 20,
            ResponseCode::BadAlgorithm => 21,
            ResponseCode::BadTruncation => 22,
            ResponseCode::BadCookie => 23,
        }
    }

    /// The response code that a wire code stands for, if it is a known one.
    pub open spec fn of_code(code: u16) -> Option<ResponseCode> {
        if code == 0 {
            Some(ResponseCode::NoError)
        } else if code == 1 {
            Some(ResponseCode::FormatError)
        } else if code == 2 {
            Some(ResponseCode::ServerFailure)
        } else if code == 3 {
            Some(ResponseCode::NonExistentDomain)
        } else if code == 4 {
            Some(ResponseCode::NotImplemented)
        } else if code == 5 {
            Some(ResponseCode::Refused)
        } else if code == 6 {
            Some(ResponseCode::NameExists)
        } else if code == 7 {
            Some(ResponseCode::ResourceRecordSet)
        } else if code == 8 {
            Some(ResponseCode::ResourceRecordNotSet)
        } else if code == 9 {
            Some(ResponseCode::NotAuthorized)
        } else if code == 10 {
            Some(ResponseCode::NotInZone)
        } else if code == 11 {
            Some(ResponseCode::DSOTypeNotImplemented)
        } else if code == 16 {
            Some(ResponseCode::BadVersion)
        } else if code == 17 {
            Some(ResponseCode::BadKey)
        } else if code == 18 {
            Some(ResponseCode::BadTime)
        } else if code == 19 {
            Some(ResponseCode::BadMode)
        } else if code == 20 {
            Some(ResponseCode::BadName)
        } else if code == 21 {
            Some(ResponseCode::BadAlgorithm)
        } else if code == 22 {
            Some(ResponseCode::BadTruncation)
        } else if code == 23 {
            Some(ResponseCode::BadCookie)
        } else {
            None
        }
    }

    /// The wire code of this response code.
    pub fn code(self) -> (r: u16)
        ensures
            r == self.wire_code(),
    {
        match self {
            ResponseCode::NoError => 0,
            ResponseCode::FormatError => 1,
            ResponseCode::ServerFailure => 2,
            ResponseCode::NonExistentDomain => 3,
            ResponseCode::NotImplemented => 4,
            ResponseCode::Refused => 5,
            ResponseCode::NameExists => 6,
            ResponseCode::ResourceRecordSet => 7,
            ResponseCode::ResourceRecordNotSet => 8,
            ResponseCode::NotAuthorized => 9,
            ResponseCode::NotInZone => 10,
            ResponseCode::DSOTypeNotImplemented => 11,
            ResponseCode::BadVersion => 16,
            ResponseCode::BadKey => 17,
            ResponseCode::BadTime => 18,
            ResponseCode::BadMode => 19,
            ResponseCode::BadName => 20,
            ResponseCode::BadAlgorithm => 21,
            ResponseCode::BadTruncation => 22,
            ResponseCode::BadCookie => 23,
        }
    }

    /// The response code with the given wire code, or `None` for a code
    /// that is not known.
    pub fn from_code(code: u16) -> (r: Option<ResponseCode>)
        ensures
            r == Self::of_code(code),
    {
        match code {
            0 => Some(ResponseCode::NoError),
            1 => Some(ResponseCode::FormatError),
            2 => Some(ResponseCode::ServerFailure),
            3 => Some(ResponseCode::NonExistentDomain),
            4 => Some(ResponseCode::NotImplemented),
            5 => Some(ResponseCode::Refused),
            6 => Some(ResponseCode::NameExists),
            7 => Some(ResponseCode::ResourceRecordSet),
            8 => Some(ResponseCode::ResourceRecordNotSet),
            9 => Some(ResponseCode::NotAuthorized),
            10 => Some(ResponseCode::NotInZone),
            11 => Some(ResponseCode::DSOTypeNotImplemented),
            16 => Some(ResponseCode::BadVersion),
            17 => Some(ResponseCode::BadKey),
            18 => Some(ResponseCode::BadTime),
            19 => Some(ResponseCode::BadMode),
            20 => Some(ResponseCode::BadName),
            21 => Some(ResponseCode::BadAlgorithm),
            22 => Some(ResponseCode::BadTruncation),
            23 => Some(ResponseCode::BadCookie),
            _ => None,
        }
    }

    /// A wire code stands for a response code exactly when it is that
    /// response code's code.
    pub proof fn lemma_code_round_trip(self, code: u16)
        ensures
            Self::of_code(self.wire_code()) == Some(self),
            Self::of_code(code) == Some(self) <==> code == self.wire_code(),
    {
    }
}

impl From<ResponseCode> for u16 {
    /// The wire code of the response code.
    fn from(value: ResponseCode) -> (r: u16) {
        value.code()
    }
}

impl FromSpecImpl<ResponseCode> for u16 {
    open spec fn obeys_from_spec() -> bool {
        true
    }

    open spec fn from_spec(value: ResponseCode) -> u16 {
        value.wire_code()
    }
}

impl From<ResponseCode> for u8 {
    /// The wire code of the response code, which fits one octet.
    fn from(value: ResponseCode) -> (r: u8) {
        value.code() as u8
    }
}

impl FromSpecImpl<ResponseCode> for u8 {
    open spec fn obeys_from_spec() -> bool {
        true
    }

    open spec fn from_spec(value: ResponseCode) -> u8 {
        value.wire_code() as u8
    }
}

impl TryFrom<u16> for ResponseCode {
    type Error = DecodeError;

    /// The response code with the given wire code, or the error
    /// that names the code where it is not known.
    fn try_from(code: u16) -> (r: Result<ResponseCode, DecodeError>) {
        match ResponseCode::from_code(code) {
            Some(value) => Ok(value),
            None => Err(DecodeError::UnknownResponseCode(code)),
        }
    }
}

impl TryFromSpecImpl<u16> for ResponseCode {
    open spec fn obeys_try_from_spec() -> bool {
        true
    }

    open spec fn try_from_spec(code: u16) -> Result<ResponseCode, DecodeError> {
        match ResponseCode::of_code(code) {
            Some(value) => Ok(value),
            None => Err(DecodeError::UnknownResponseCode(code)),
        }
    }
}

impl TryFrom<u8> for ResponseCode {
    type Error = DecodeError;

    /// The response code with the given wire code, or the error
    /// that names the code where it is not known.
    fn try_from(code: u8) -> (r: Result<ResponseCode, DecodeError>) {
        match ResponseCode::from_code(code as u16) {
            Some(value) => Ok(value),
            None => Err(DecodeError::UnknownResponseCode(code as u16)),
        }
    }
}

impl TryFromSpecImpl<u8> for ResponseCode {
    open spec fn obeys_try_from_spec() -> bool {
        true
    }

    open spec fn try_from_spec(code: u8) -> Result<ResponseCode, DecodeError> {
        match ResponseCode::of_code(code as u16) {
            Some(value) => Ok(value),
            None => Err(DecodeError::UnknownResponseCode(code as u16)),
        }
    }
}

/// The kind of request that a message makes.
#[derive(Clone, Copy, Debug, PartialEq, Eq, Structural)]
pub enum Operation {
    Query,
    InverseQuery,
    Status,
    Notify,
    Update,
    StatefulOperation,
}

impl Operation {
    /// The wire code of an operation.
    pub open spec fn wire_code(self) -> u16 {
        match self {
            Operation::Query => 0,
            Operation::InverseQuery => 1,
            Operation::Status => 2,
            Operation::Notify => 4,
            Operation::Update => 5,
            Operation::StatefulOperation => 6,
        }
    }

    /// The operation that a wire code stands for, if it is a known one.
    pub open spec fn of_code(code: u16) -> Option<Operation> {
        if code == 0 {
            Some(Operation::Query)
        } else if code == 1 {
            Some(Operation::InverseQuery)
        } else if code == 2 {
            Some(Operation::Status)
        } else if code == 4 {
            Some(Operation::Notify)
        } else if code == 5 {
            Some(Operation::Update)
        } else if code == 6 {
            Some(Operation::StatefulOperation)
        } else {
            None
        }
    }

    /// The wire code of this operation.
    pub fn code(self) -> (r: u16)
        ensures
            r == self.wire_code(),
    {
        match self {
            Operation::Query => 0,
            Operation::InverseQuery => 1,
            Operation::Status => 2,
            Operation::Notify => 4,
            Operation::Update => 5,
            Operation::StatefulOperation => 6,
        }
    }

    /// The operation with the given wire code, or `None` for a code that is
    /// not known.
    pub fn from_code(code: u16) -> (r: Option<Operation>)
        ensures
            r == Self::of_code(code),
    {
        match code {
            0 => Some(Operation::Query),
            1 => Some(Operation::InverseQuery),
            2 => Some(Operation::Status),
            4 => Some(Operation::Notify),
            5 => Some(Operation::Update),
            6 => Some(Operation::StatefulOperation),
            _ => None,
        }
    }

    /// A wire code stands for an operation exactly when it is that
    /// operation's code.
    pub proof fn lemma_code_round_trip(self, code: u16)
        ensures
            Self::of_code(self.wire_code()) == Some(self),
            Self::of_code(code) == Some(self) <==> code == self.wire_code(),
    {
    }
}

impl From<Operation> for u16 {
    /// The wire code of the operation.
    fn from(value: Operation) -> (r: u16) {
        value.code()
    }
}

impl FromSpecImpl<Operation> for u16 {
    open spec fn obeys_from_spec() -> bool {
        true
    }

    open spec fn from_spec(value: Operation) -> u16 {
        value.wire_code()
    }
}

impl From<Operation> for u8 {
    /// The wire code of the operation, which fits one octet.
    fn from(value: Operation) -> (r: u8) {
        value.code() as u8
    }
}

impl FromSpecImpl<Operation> for u8 {
    open spec fn obeys_from_spec() -> bool {
        true
    }

    open spec fn from_spec(value: Operation) -> u8 {
        value.wire_code() as u8
    }
}

impl TryFrom<u16> for Operation {
    type Error = DecodeError;

    /// The operation with the given wire code, or the error
    /// that names the code where it is not known.
    fn try_from(code: u16) -> (r: Result<Operation, DecodeError>) {
        match Operation::from_code(code) {
            Some(value) => Ok(value),
            None => Err(DecodeError::UnknownOperation(code)),
        }
    }
}

impl TryFromSpecImpl<u16> for Operation {
    open spec fn obeys_try_from_spec() -> bool {
        true
    }

    open spec fn try_from_spec(code: u16) -> Result<Operation, DecodeError> {
        match Operation::of_code(code) {
            Some(value) => Ok(value),
            None => Err(DecodeError::UnknownOperation(code)),
        }
    }
}

impl TryFrom<u8> for Operation {
    type Error = DecodeError;

    /// The operation with the given wire code, or the error
    /// that names the code where it is not known.
    fn try_from(code: u8) -> (r: Result<Operation, DecodeError>) {
        match Operation::from_code(code as u16) {
            Some(value) => Ok(value),
            None => Err(DecodeError::UnknownOperation(code as u16)),
        }
    }
}

impl TryFromSpecImpl<u8> for Operation {
    open spec fn obeys_try_from_spec() -> bool {
        true
    }

    open spec fn try_from_spec(code: u8) -> Result<Operation, DecodeError> {
        match Operation::of_code(code as u16) {
            Some(value) => Ok(value),
            None => Err(DecodeError::UnknownOperation(code as u16)),
        }
    }
}

/// The class of a question or record. A code without a name of its own is
/// kept as `Unknown`.
#[derive(Clone, Copy, Debug, PartialEq, Eq, Structural)]
pub enum Class {
    Internet,
    Chaos,
    Hesiod,
    /// The class with code 254, which stands for no class.
    NoClass,
    Any,
    Unknown(u16),
}

impl Class {
    /// The wire code of a class.
    pub open spec fn wire_code(self) -> u16 {
        match self {
            Class::Internet => 1,
            Class::Chaos => 3,
            Class::Hesiod => 4,
            Class::NoClass => 254,
            Class::Any => 255,
            Class::Unknown(x) => x,
        }
    }

    /// The class that a wire code stands for.
    pub open spec fn of_code(code: u16) -> Class {
        if code == 1 {
            Class::Internet
        } else if code == 3 {
            Class::Chaos
        } else if code == 4 {
            Class::Hesiod
        } else if code == 254 {
            Class::NoClass
        } else if code == 255 {
            Class::Any
        } else {
            Class::Unknown(code)
        }
    }

    /// Whether a class is the one that its own code stands for: `Unknown`
    /// holds no code that has a name.
    pub open spec fn canonical(self) -> bool {
        Self::of_code(self.wire_code()) == self
    }

    /// The wire code of this class.
    pub fn code(self) -> (r: u16)
        ensures
            r == self.wire_code(),
    {
        match self {
            Class::Internet => 1,
            Class::Chaos => 3,
            Class::Hesiod => 4,
            Class::NoClass => 254,
            Class::Any => 255,
            Class::Unknown(x) => x,
        }
    }

    /// The class with the given wire code.
    pub fn from_code(code: u16) -> (r: Class)
        ensures
            r == Self::of_code(code),
    {
        match code {
            1 => Class::Internet,
            3 => Class::Chaos,
            4 => Class::Hesiod,
            254 => Class::NoClass,
            255 => Class::Any,
            x => Class::Unknown(x),
        }
    }

    /// Every code stands for a canonical class with that code.
    pub proof fn lemma_code_round_trip(code: u16)
        ensures
            Self::of_code(code).wire_code() == code,
            Self::of_code(code).canonical(),
    {
    }
}

impl From<Class> for u16 {
    /// The wire code of the class.
    fn from(value: Class) -> (r: u16) {
        value.code()
    }
}

impl FromSpecImpl<Class> for u16 {
    open spec fn obeys_from_spec() -> bool {
        true
    }

    open spec fn from_spec(value: Class) -> u16 {
        value.wire_code()
    }
}

impl From<u16> for Class {
    /// The class with the given wire code.
    fn from(code: u16) -> (r: Class) {
        Class::from_code(code)
    }
}

impl FromSpecImpl<u16> for Class {
    open spec fn obeys_from_spec() -> bool {
        true
    }

    open spec fn from_spec(code: u16) -> Class {
        Class::of_code(code)
    }
}
} // verus!
