use vstd::prelude::*;

verus! {

/// Why an input could not be inspected. Causes that come from I/O or from the
/// safetensors crate are held as their display text.
#[derive(Debug)]
pub enum InspectError {
    FileNotFound(String),
    CannotRead { path: String, reason: String },
    InvalidSafetensors { path: String, reason: String },
    Overflow { tensor: String },
    MissingTensorInfo { tensor: String },
    UnsupportedUrlScheme(String),
    HttpClient(String),
    HttpRequest { url: String, reason: String },
    RangeUnsupported(String),
    InvalidRemoteResponse { url: String, reason: String },
}

/// The mathematical model of an [`InspectError`]: each text by its characters.
pub enum ErrorModel {
    FileNotFound(Seq<char>),
    CannotRead { path: Seq<char>, reason: Seq<char> },
    InvalidSafetensors { path: Seq<char>, reason: Seq<char> },
    Overflow { tensor: Seq<char> },
    MissingTensorInfo { tensor: Seq<char> },
    UnsupportedUrlScheme(Seq<char>),
    HttpClient(Seq<char>),
    HttpRequest { url: Seq<char>, reason: Seq<char> },
    RangeUnsupported(Seq<char>),
    InvalidRemoteResponse { url: Seq<char>, reason: Seq<char> },
}

impl View for InspectError {
    type V = ErrorModel;

    open spec fn view(&self) -> ErrorModel {
        match self {
            InspectError::FileNotFound(path) => ErrorModel::FileNotFound(path@),
            InspectError::CannotRead { path, reason } => ErrorModel::CannotRead {
                path: path@,
                reason: reason@,
            },
            InspectError::InvalidSafetensors { path, reason } => ErrorModel::InvalidSafetensors {
                path: path@,
                reason: reason@,
            },
            InspectError::Overflow { tensor } => ErrorModel::Overflow { tensor: tensor@ },
            InspectError::MissingTensorInfo { tensor } => ErrorModel::MissingTensorInfo {
                tensor: tensor@,
            },
            InspectError::UnsupportedUrlScheme(scheme) => ErrorModel::UnsupportedUrlScheme(
                scheme@,
            ),
            InspectError::HttpClient(reason) => ErrorModel::HttpClient(reason@),
            InspectError::HttpRequest { url, reason } => ErrorModel::HttpRequest {
                url: url@,
                reason: reason@,
            },
            InspectError::RangeUnsupported(url) => ErrorModel::RangeUnsupported(url@),
            InspectError::InvalidRemoteResponse { url, reason } => ErrorModel::InvalidRemoteResponse {
                url: url@,
                reason: reason@,
            },
        }
    }
}

/// The text that describes an error to the user.
pub open spec fn error_message(e: ErrorModel) -> Seq<char> {
    match e {
        ErrorModel::FileNotFound(path) => "file not found: "@ + path,
        ErrorModel::CannotRead { path, reason } => "failed to read file: "@ + path + " ("@ + reason
            + ")"@,
        ErrorModel::InvalidSafetensors { path, reason } => "invalid safetensors file: "@ + path
            + " ("@ + reason + ")"@,
        ErrorModel::Overflow { tensor } => "tensor is too large to summarize safely: "@ + tensor,
        ErrorModel::MissingTensorInfo { tensor } => "missing tensor metadata for: "@ + tensor,
        ErrorModel::UnsupportedUrlScheme(scheme) => "unsupported URL scheme: "@ + scheme,
        ErrorModel::HttpClient(reason) => "failed to initialize HTTP client ("@ + reason + ")"@,
        ErrorModel::HttpRequest { url, reason } => "failed to fetch remote file: "@ + url + " ("@
            + reason + ")"@,
        ErrorModel::RangeUnsupported(url) => "remote server does not support byte range requests: "@
            + url,
        ErrorModel::InvalidRemoteResponse { url, reason } => "invalid remote response for "@ + url
            + " ("@ + reason + ")"@,
    }
}

impl InspectError {
    /// Describes the error in one line of text.
    pub fn message(&self) -> (text: String)
        ensures
            text@ == error_message(self@),
    {
        let mut out = String::new();
        match self {
            InspectError::FileNotFound(path) => {
                out.append("file not found: ");
                out.append(path.as_str());
            },
            InspectError::CannotRead { path, reason } => {
                out.append("failed to read file: ");
                out.append(path.as_str());
                out.append(" (");
                out.append(reason.as_str());
                out.append(")");
            },
            InspectError::InvalidSafetensors { path, reason } => {
                out.append("invalid safetensors file: ");
                out.append(path.as_str());
                out.append(" (");
                out.append(reason.as_str());
                out.append(")");
            },
            InspectError::Overflow { tensor } => {
                out.append("tensor is too large to summarize safely: ");
                out.append(tensor.as_str());
            },
            InspectError::MissingTensorInfo { tensor } => {
                out.append("missing tensor metadata for: ");
                out.append(tensor.as_str());
            },
            InspectError::UnsupportedUrlScheme(scheme) => {
                out.append("unsupported URL scheme: ");
                out.append(scheme.as_str());
            },
            InspectError::HttpClient(reason) => {
                out.append("failed to initialize HTTP client (");
                out.append(reason.as_str());
                out.append(")");
            },
            InspectError::HttpRequest { url, reason } => {
                out.append("failed to fetch remote file: ");
                out.append(url.as_str());
                out.append(" (");
                out.append(reason.as_str());
                out.append(")");
            },
            InspectError::RangeUnsupported(url) => {
                out.append("remote server does not support byte range requests: ");
                out.append(url.as_str());
            },
            InspectError::InvalidRemoteResponse { url, reason } => {
                out.append("invalid remote response for ");
                out.append(url.as_str());
                out.append(" (");
                out.append(reason.as_str());
                out.append(")");
            },
        }
        out
    }
}

} // verus!
