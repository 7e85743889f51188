//! Probing a remote file with HTTP range requests, as a state machine: the
//! caller performs each action (a request, or reading a response body) and
//! hands back what happened; the probe decides what comes next.
use vstd::prelude::*;
use crate::error::{ErrorModel, InspectError};
use crate::header::{fault_message, HeaderFault};
use crate::input::{authorization_for, bearer_authorization, optional_text, RemoteUrl};
use crate::inspect::{header_outcome, inspect_remote_header};
use crate::layout::{le_value, HEADER_PREFIX_LEN, MAX_HEADER_SIZE};
use crate::remote::{
    body_outcome, check_header_size, check_partial_content, check_response_bytes,
    content_range_outcome, decode_header_len, header_bytes_range, header_range_outcome,
    parse_total_size, range_header, range_value, PARTIAL_CONTENT,
};
use crate::report::Report;

verus! {

/// Where a remote probe stands.
#[derive(PartialEq, Eq, Structural, Clone, Copy, Debug)]
pub enum ProbeStage {
    /// The request for the length prefix is out.
    Prefix,
    /// The prefix is coming, from a file of `file_size` bytes.
    PrefixBody { file_size: u64 },
    /// The request for the header is out.
    Header { file_size: u64, header_len: usize },
    /// The header is coming.
    HeaderBody { file_size: u64, header_len: usize },
    /// The probe is over.
    Finished,
}

/// What came of the last action of a probe.
pub enum ProbeEvent {
    /// The request failed, for the given reason.
    RequestFailed(String),
    /// A response came, with its status and the bytes of its `Content-Range`
    /// header, where it has one.
    Response { status: u16, content_range: Option<Vec<u8>> },
    /// The body of the response was read: its bytes, or why it could not be.
    Body(Result<Vec<u8>, String>),
}

/// The model of a [`ProbeEvent`].
pub enum EventModel {
    RequestFailed(Seq<char>),
    Response { status: u16, content_range: Option<Seq<u8>> },
    Body(Result<Seq<u8>, Seq<char>>),
}

impl View for ProbeEvent {
    type V = EventModel;

    open spec fn view(&self) -> EventModel {
        match self {
            ProbeEvent::RequestFailed(reason) => EventModel::RequestFailed(reason@),
            ProbeEvent::Response { status, content_range } => EventModel::Response {
                status: *status,
                content_range: match content_range {
                    Some(bytes) => Some(bytes@),
                    None => None,
                },
            },
            ProbeEvent::Body(body) => EventModel::Body(
                match body {
                    Ok(bytes) => Ok(bytes@),
                    Err(reason) => Err(reason@),
                },
            ),
        }
    }
}

/// What the caller is to do next.
pub enum ProbeAction {
    /// Send a GET request for the URL with this `Range` value, and with this
    /// `Authorization` value where there is one.
    Fetch { range: String, authorization: Option<String> },
    /// Read the body of the response that came.
    ReadBody { expected_len: usize },
    /// The probe is over, with the report or the error.
    Finish(Result<Report, InspectError>),
}

/// What a step of a probe decides.
pub enum StepModel {
    Fetch { range: Seq<char>, authorization: Option<Seq<char>> },
    ReadBody { expected_len: usize },
    Fail(ErrorModel),
    /// The header of a file of `file_size` bytes came whole.
    Complete { file_size: u64, header_len: usize, header: Seq<u8> },
}

/// A probe of one remote file.
pub struct RemoteProbe {
    input: String,
    url: RemoteUrl,
    authorization: Option<String>,
    stage: ProbeStage,
}

/// The model of a [`RemoteProbe`]: the input it was given, the URL, the
/// `Authorization` value it sends, and its stage.
pub struct ProbeModel {
    pub input: Seq<char>,
    pub url: (Seq<char>, Seq<char>, Option<Seq<char>>),
    pub authorization: Option<Seq<char>>,
    pub stage: ProbeStage,
}

impl View for RemoteProbe {
    type V = ProbeModel;

    closed spec fn view(&self) -> ProbeModel {
        ProbeModel {
            input: self.input@,
            url: self.url@,
            authorization: optional_text(self.authorization),
            stage: self.stage,
        }
    }
}

/// The events that can follow the action of a stage: a request fails or a
/// response comes; a body is read.
pub open spec fn event_fits(stage: ProbeStage, event: EventModel) -> bool {
    match stage {
        ProbeStage::Prefix | ProbeStage::Header { .. } => event is RequestFailed || event is Response,
        ProbeStage::PrefixBody { .. } | ProbeStage::HeaderBody { .. } => event is Body,
        ProbeStage::Finished => false,
    }
}

/// Ends a probe with an error.
pub open spec fn failed(e: ErrorModel) -> (ProbeStage, StepModel) {
    (ProbeStage::Finished, StepModel::Fail(e))
}

/// The next stage of a probe and what it decides, after `event`.
///
/// The prefix request must be answered with partial content and a
/// `Content-Range` header that gives the file's size; its body must be the
/// eight bytes of the header length, which must fit in a `usize` and be at
/// most `MAX_HEADER_SIZE`. Then the header is asked for, right after the
/// prefix; that answer too must be partial content, and its body must be the
/// whole header. (No other event can follow a stage's action, and `step`
/// takes none; this leaves the probe where it was.)
pub open spec fn probe_next(p: ProbeModel, event: EventModel) -> (ProbeStage, StepModel) {
    let href = p.url.0;
    match (p.stage, event) {
        (ProbeStage::Prefix, EventModel::RequestFailed(reason))
        | (ProbeStage::Header { .. }, EventModel::RequestFailed(reason)) => failed(
            ErrorModel::HttpRequest { url: href, reason },
        ),
        (ProbeStage::Prefix, EventModel::Response { status, content_range }) => {
            if status != PARTIAL_CONTENT {
                failed(ErrorModel::RangeUnsupported(href))
            } else {
                match content_range_outcome(content_range, href) {
                    Err(e) => failed(e),
                    Ok(file_size) => (
                        ProbeStage::PrefixBody { file_size },
                        StepModel::ReadBody { expected_len: 8 },
                    ),
                }
            }
        },
        (ProbeStage::PrefixBody { file_size }, EventModel::Body(body)) => {
            match body_outcome(body, HEADER_PREFIX_LEN as nat, href) {
                Err(e) => failed(e),
                Ok(prefix) => {
                    let header_len = le_value(prefix);
                    if header_len > usize::MAX {
                        failed(
                            ErrorModel::InvalidSafetensors {
                                path: href,
                                reason: fault_message(HeaderFault::TooLarge),
                            },
                        )
                    } else if header_len > MAX_HEADER_SIZE {
                        failed(
                            ErrorModel::InvalidSafetensors {
                                path: p.input,
                                reason: fault_message(HeaderFault::TooLarge),
                            },
                        )
                    } else {
                        match header_range_outcome(header_len, href) {
                            Err(e) => failed(e),
                            Ok((start, end)) => (
                                ProbeStage::Header { file_size, header_len: header_len as usize },
                                StepModel::Fetch {
                                    range: range_value(start as nat, end as nat),
                                    authorization: p.authorization,
                                },
                            ),
                        }
                    }
                },
            }
        },
        (ProbeStage::Header { file_size, header_len }, EventModel::Response { status, .. }) => {
            if status != PARTIAL_CONTENT {
                failed(ErrorModel::RangeUnsupported(href))
            } else {
                (
                    ProbeStage::HeaderBody { file_size, header_len },
                    StepModel::ReadBody { expected_len: header_len },
                )
            }
        },
        (ProbeStage::HeaderBody { file_size, header_len }, EventModel::Body(body)) => {
            match body_outcome(body, header_len as nat, href) {
                Err(e) => failed(e),
                Ok(header) => (ProbeStage::Finished, StepModel::Complete { file_size, header_len, header }),
            }
        },
        _ => (p.stage, StepModel::ReadBody { expected_len: 0 }),
    }
}

/// The action carries out the decision: the same request or read, the
/// error, or the report inspected from a complete header.
pub open spec fn action_follows(action: ProbeAction, decision: StepModel, input: Seq<char>) -> bool {
    match decision {
        StepModel::Fetch { range, authorization } => action matches ProbeAction::Fetch {
            range: r,
            authorization: a,
        } && r@ == range && optional_text(a) == authorization,
        StepModel::ReadBody { expected_len } => action matches ProbeAction::ReadBody {
            expected_len: n,
        } && n == expected_len,
        StepModel::Fail(e) => action matches ProbeAction::Finish(Err(err)) && err@ == e,
        StepModel::Complete { file_size, header_len, header } => action matches ProbeAction::Finish(
            res,
        ) && header_outcome(res, input, file_size, header_len as nat, file_size as nat, header),
    }
}

impl RemoteProbe {
    /// Starts probing `url`, named `input` by the user, with the `HF_TOKEN`
    /// value where one is set: the first action asks for the length prefix.
    pub fn start(input: &str, url: RemoteUrl, token: Option<String>) -> (res: (RemoteProbe, ProbeAction))
        ensures
            res.0@ == (ProbeModel {
                input: input@,
                url: url@,
                authorization: authorization_for(url@, optional_text(token)),
                stage: ProbeStage::Prefix,
            }),
            action_follows(
                res.1,
                StepModel::Fetch {
                    range: range_value(0, 7),
                    authorization: authorization_for(url@, optional_text(token)),
                },
                input@,
            ),
    {
        let authorization = bearer_authorization(&url, token);
        let action = ProbeAction::Fetch {
            range: range_header(0, HEADER_PREFIX_LEN - 1),
            authorization: match &authorization {
                Some(value) => Some(value.clone()),
                None => None,
            },
        };
        let probe = RemoteProbe {
            input: input.to_owned(),
            url,
            authorization,
            stage: ProbeStage::Prefix,
        };
        (probe, action)
    }

    /// The stage the probe stands at.
    pub fn stage(&self) -> (stage: ProbeStage)
        ensures
            stage == self@.stage,
    {
        self.stage
    }

    fn fail(&mut self, error: InspectError) -> (action: ProbeAction)
        ensures
            final(self)@ == (ProbeModel { stage: ProbeStage::Finished, ..old(self)@ }),
            action matches ProbeAction::Finish(Err(err)) && err@ == error@,
    {
        self.stage = ProbeStage::Finished;
        ProbeAction::Finish(Err(error))
    }

    fn fetch_action(&self, range: String) -> (action: ProbeAction)
        ensures
            action matches ProbeAction::Fetch { range: r, authorization: a } && r@ == range@
                && optional_text(a) == self@.authorization,
    {
        ProbeAction::Fetch {
            range,
            authorization: match &self.authorization {
                Some(value) => Some(value.clone()),
                None => None,
            },
        }
    }

    /// Takes what came of the last action and decides the next one.
    pub fn step(&mut self, event: ProbeEvent) -> (action: ProbeAction)
        requires
            event_fits(old(self)@.stage, event@),
        ensures
            final(self)@ == (ProbeModel { stage: probe_next(old(self)@, event@).0, ..old(self)@ }),
            action_follows(action, probe_next(old(self)@, event@).1, old(self)@.input),
    {
        let stage = self.stage;
        match stage {
            ProbeStage::Prefix => match event {
                ProbeEvent::RequestFailed(reason) => {
                    let url = self.url.as_str().to_owned();
                    self.fail(InspectError::HttpRequest { url, reason })
                },
                ProbeEvent::Response { status, content_range } => {
                    match check_partial_content(status, &self.url) {
                        Ok(()) => {},
                        Err(e) => {
                            return self.fail(e);
                        },
                    }
                    let header = match &content_range {
                        Some(bytes) => Some(bytes.as_slice()),
                        None => None,
                    };
                    match parse_total_size(header, &self.url) {
                        Ok(file_size) => {
                            self.stage = ProbeStage::PrefixBody { file_size };
                            ProbeAction::ReadBody { expected_len: HEADER_PREFIX_LEN as usize }
                        },
                        Err(e) => self.fail(e),
                    }
                },
                ProbeEvent::Body(_) => unreached(),
            },
            ProbeStage::PrefixBody { file_size } => match event {
                ProbeEvent::Body(body) => {
                    let prefix = match check_response_bytes(body, HEADER_PREFIX_LEN as usize, &self.url) {
                        Ok(bytes) => bytes,
                        Err(e) => {
                            return self.fail(e);
                        },
                    };
                    let header_len = match decode_header_len(prefix.as_slice(), &self.url) {
                        Ok(len) => len,
                        Err(e) => {
                            return self.fail(e);
                        },
                    };
                    match check_header_size(self.input.as_str(), header_len) {
                        Ok(()) => {},
                        Err(e) => {
                            return self.fail(e);
                        },
                    }
                    match header_bytes_range(header_len, &self.url) {
                        Ok((start, end)) => {
                            self.stage = ProbeStage::Header { file_size, header_len };
                            self.fetch_action(range_header(start, end))
                        },
                        Err(e) => self.fail(e),
                    }
                },
                _ => unreached(),
            },
            ProbeStage::Header { file_size, header_len } => match event {
                ProbeEvent::RequestFailed(reason) => {
                    let url = self.url.as_str().to_owned();
                    self.fail(InspectError::HttpRequest { url, reason })
                },
                ProbeEvent::Response { status, .. } => {
                    match check_partial_content(status, &self.url) {
                        Ok(()) => {},
                        Err(e) => {
                            return self.fail(e);
                        },
                    }
                    self.stage = ProbeStage::HeaderBody { file_size, header_len };
                    ProbeAction::ReadBody { expected_len: header_len }
                },
                ProbeEvent::Body(_) => unreached(),
            },
            ProbeStage::HeaderBody { file_size, header_len } => match event {
                ProbeEvent::Body(body) => {
                    let header = match check_response_bytes(body, header_len, &self.url) {
                        Ok(bytes) => bytes,
                        Err(e) => {
                            return self.fail(e);
                        },
                    };
                    self.stage = ProbeStage::Finished;
                    let report = inspect_remote_header(
                        self.input.as_str(),
                        file_size,
                        header_len,
                        header.as_slice(),
                    );
                    ProbeAction::Finish(report)
                },
                _ => unreached(),
            },
            ProbeStage::Finished => unreached(),
        }
    }
}

} // verus!
