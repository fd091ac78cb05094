//! Common response types shared by the endpoints.

use vstd::prelude::*;

verus! {

/// Whether a departure runs on time or late.
#[derive(Clone, Copy, Debug, PartialEq, Eq, Structural)]
pub enum ArrivalState {
    Delayed,
    InTime,
}

/// The modes of transport the services report.
#[derive(Clone, Copy, Debug, PartialEq, Eq, Structural)]
#[non_exhaustive]
pub enum Mot {
    Tram,
    Bus,
    CityBus,
    IntercityBus,
    SuburbanRailway,
    Train,
    Cableway,
    Ferry,
    HailedSharedTaxi,
    PlusBus,
    Footpath,
    RapidTransit,
}

/// The outcome codes a response reports.
#[derive(Clone, Copy, Debug, PartialEq, Eq, Structural)]
pub enum StatusCode {
    Okay,
    ValidationError,
    ServiceError,
}

/// A response status: the outcome code and an optional message.
#[derive(Debug)]
pub struct Status {
    code: StatusCode,
    message: Option<String>,
}

impl Status {
    /// A status from its parts.
    pub fn new(code: StatusCode, message: Option<String>) -> (r: Status)
        ensures
            r.spec_code() == code,
            r.spec_message() == message,
    {
        Status { code, message }
    }

    /// The outcome code.
    pub closed spec fn spec_code(&self) -> StatusCode {
        self.code
    }

    /// The optional message.
    pub closed spec fn spec_message(&self) -> Option<String> {
        self.message
    }

    /// The outcome code.
    pub fn code(&self) -> (r: StatusCode)
        ensures
            r == self.spec_code(),
    {
        self.code
    }

    /// The optional message.
    pub fn message(&self) -> (r: &Option<String>)
        ensures
            *r == self.spec_message(),
    {
        &self.message
    }
}

/// An envelope around a response body: the status, an optional expiration
/// time, and the body itself.
#[derive(Debug)]
pub struct DvbResponse<T> {
    pub status: Status,
    pub expiration_time: Option<String>,
    pub content: T,
}

impl<T> DvbResponse<T> {
    /// An envelope from its parts.
    pub fn new(status: Status, expiration_time: Option<String>, content: T) -> (r: DvbResponse<
        T,
    >)
        ensures
            r.status == status,
            r.expiration_time == expiration_time,
            r.content == content,
    {
        DvbResponse { status, expiration_time, content }
    }

    /// A borrow of the body.
    pub fn content(&self) -> (r: &T)
        ensures
            *r == self.content,
    {
        &self.content
    }

    /// The body, surrendering the envelope.
    pub fn into_inner(self) -> (r: T)
        ensures
            r == self.content,
    {
        self.content
    }
}

} // verus!
