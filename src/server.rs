//! Settings and response records of the HTTP front end.

use vstd::prelude::*;

verus! {

pub const DEFAULT_PORT: u16 = 8080;

pub const DEFAULT_BIND: &'static str = "127.0.0.1";

pub const DEFAULT_UPLOAD_LIMIT: usize = 500 * 1024 * 1024;

pub const DEFAULT_JOB_TIMEOUT: u64 = 3600;

/// Relies on `num_cpus::get`: the number of logical CPUs this process may
/// use, which its documentation promises is at least one.
#[verifier::external_body]
fn logical_cpus() -> (r: usize)
    ensures
        r >= 1,
{
    num_cpus::get()
}

#[derive(Debug, Clone)]
pub struct ServerConfig {
    pub port: u16,
    pub bind: String,
    pub workers: usize,
    pub upload_limit: usize,
    pub job_timeout: u64,
}

impl Default for ServerConfig {
    /// The default port, bind address, limits, and one worker per logical
    /// CPU.
    fn default() -> (r: ServerConfig)
        ensures
            r.port == DEFAULT_PORT,
            r.bind@ == DEFAULT_BIND@,
            r.upload_limit == DEFAULT_UPLOAD_LIMIT,
            r.job_timeout == DEFAULT_JOB_TIMEOUT,
            r.workers >= 1,
    {
        ServerConfig {
            port: DEFAULT_PORT,
            bind: String::from_str(DEFAULT_BIND),
            workers: logical_cpus(),
            upload_limit: DEFAULT_UPLOAD_LIMIT,
            job_timeout: DEFAULT_JOB_TIMEOUT,
        }
    }
}

impl ServerConfig {
    pub fn with_port(self, port: u16) -> (r: ServerConfig)
        ensures
            r.port == port,
            r.bind == self.bind,
            r.workers == self.workers,
            r.upload_limit == self.upload_limit,
            r.job_timeout == self.job_timeout,
    {
        let mut s = self;
        s.port = port;
        s
    }

    pub fn with_bind(self, bind: &str) -> (r: ServerConfig)
        ensures
            r.bind@ == bind@,
            r.port == self.port,
            r.workers == self.workers,
            r.upload_limit == self.upload_limit,
            r.job_timeout == self.job_timeout,
    {
        let mut s = self;
        s.bind = bind.to_owned();
        s
    }

    pub fn with_upload_limit(self, limit: usize) -> (r: ServerConfig)
        ensures
            r.upload_limit == limit,
            r.port == self.port,
            r.bind == self.bind,
            r.workers == self.workers,
            r.job_timeout == self.job_timeout,
    {
        let mut s = self;
        s.upload_limit = limit;
        s
    }
}

/// The HTTP server as configured; running it is the host's part.
pub struct WebServer {
    config: ServerConfig,
}

impl WebServer {
    pub closed spec fn spec_config(&self) -> ServerConfig {
        self.config
    }

    pub fn new() -> (r: WebServer)
        ensures
            r.spec_config().port == DEFAULT_PORT,
            r.spec_config().bind@ == DEFAULT_BIND@,
            r.spec_config().upload_limit == DEFAULT_UPLOAD_LIMIT,
            r.spec_config().job_timeout == DEFAULT_JOB_TIMEOUT,
    {
        WebServer { config: ServerConfig::default() }
    }

    pub fn with_config(config: ServerConfig) -> (r: WebServer)
        ensures
            r.spec_config() == config,
    {
        WebServer { config }
    }

    pub fn config(&self) -> (r: &ServerConfig)
        ensures
            *r == self.spec_config(),
    {
        &self.config
    }
}

/// Which external tools were found on the search path.
#[derive(Debug, Clone, Copy, PartialEq, Eq)]
pub struct ToolStatus {
    pub poppler: bool,
    pub tesseract: bool,
    pub realesrgan: bool,
}

/// The body of a health check.
#[derive(Debug, Clone)]
pub struct HealthResponse {
    pub status: String,
    pub version: String,
    pub tools: ToolStatus,
}

impl HealthResponse {
    /// A healthy server of the given version with the given tools.
    pub fn healthy(version: &str, tools: ToolStatus) -> (r: HealthResponse)
        ensures
            r.status@ == "healthy"@,
            r.version@ == version@,
            r.tools == tools,
    {
        HealthResponse { status: String::from_str("healthy"), version: version.to_owned(), tools }
    }
}

/// A finished PDF handed to the client.
#[derive(Debug, Clone)]
pub struct PdfDownload {
    pub data: Vec<u8>,
    pub filename: String,
}

/// Errors answered by the HTTP handlers.
#[derive(Debug, Clone, PartialEq, Eq)]
pub enum AppError {
    BadRequest(String),
    NotFound(String),
    Conflict(String),
    Internal(String),
}

impl AppError {
    /// The HTTP status code of the error.
    pub fn status_code(&self) -> (r: u16)
        ensures
            r == match self {
                AppError::BadRequest(_) => 400u16,
                AppError::NotFound(_) => 404u16,
                AppError::Conflict(_) => 409u16,
                AppError::Internal(_) => 500u16,
            },
    {
        match self {
            AppError::BadRequest(_) => 400,
            AppError::NotFound(_) => 404,
            AppError::Conflict(_) => 409,
            AppError::Internal(_) => 500,
        }
    }
}

} // verus!
