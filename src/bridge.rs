//! Settings of the client for the out-of-process inference service. The
//! requests themselves go over the network and are made by the caller.
use vstd::prelude::*;

verus! {

/// The kinds of work the inference service performs.
#[derive(Clone, Copy, Debug, PartialEq, Eq, Structural)]
pub enum InferenceTaskType {
    GenerateEmbedding,
    GenerateResponse,
    AnalyzeEmotion,
    ExtractKeywords,
    CalculateImportance,
}

/// Where the inference service listens and how long a request may take.
#[derive(Debug)]
pub struct PythonInferenceClient {
    python_service_url: String,
    timeout_seconds: u64,
}

impl PythonInferenceClient {
    pub closed spec fn url_view(&self) -> Seq<char> {
        self.python_service_url@
    }

    pub closed spec fn timeout_view(&self) -> u64 {
        self.timeout_seconds
    }

    /// A client for the service at `service_url`.
    pub fn new(service_url: String, timeout_seconds: u64) -> (r: PythonInferenceClient)
        ensures
            r.url_view() == service_url@,
            r.timeout_view() == timeout_seconds,
    {
        PythonInferenceClient { python_service_url: service_url, timeout_seconds }
    }

    /// The service's base address.
    pub fn service_url(&self) -> (r: &String)
        ensures
            r@ == self.url_view(),
    {
        &self.python_service_url
    }

    /// Seconds a request may take.
    pub fn timeout_seconds(&self) -> (r: u64)
        ensures
            r == self.timeout_view(),
    {
        self.timeout_seconds
    }

    /// The address of the service's endpoint `path`.
    pub fn endpoint(&self, path: &str) -> (r: String)
        ensures
            r@ == self.url_view() + "/"@ + path@,
    {
        let mut url = self.python_service_url.clone();
        url.append("/");
        url.append(path);
        url
    }
}

} // verus!
