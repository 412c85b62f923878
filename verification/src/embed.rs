//! Choosing the embedding backend that the configuration asks for.

use vstd::prelude::*;
use crate::text::{opt_text, str_equals};

verus! {

/// The `[embed]` section of the configuration.
#[derive(Debug, Clone)]
pub struct EmbedConfig {
    pub backend: String,
    pub api_endpoint: Option<String>,
    pub api_model: Option<String>,
}

impl Default for EmbedConfig {
    /// The built-in defaults: the local ONNX backend, no API endpoint or
    /// model.
    fn default() -> (r: Self)
        ensures
            r.backend@ == "onnx"@,
            r.api_endpoint is None,
            r.api_model is None,
    {
        EmbedConfig { backend: String::from_str("onnx"), api_endpoint: None, api_model: None }
    }
}

/// The endpoint an API backend uses when the configuration names none.
pub const DEFAULT_API_ENDPOINT: &'static str = "http://localhost:11434/api/embeddings";

/// The embedder to build.
#[derive(Debug)]
pub enum EmbedderBackend {
    /// The local ONNX model.
    Onnx,
    /// An embedding API at `endpoint`, with an optional model name.
    Api { endpoint: String, model: Option<String> },
}

/// Why no embedder can be built.
#[derive(Debug)]
pub enum EmbedError {
    /// The configuration names a backend that does not exist.
    UnsupportedBackend(String),
}

/// Builds the embedder a source of configuration asks for.
pub trait EmbedderFactory {
    fn build(&self) -> Result<EmbedderBackend, EmbedError>;
}

/// A factory that builds the embedder named in a configuration.
#[derive(Clone)]
pub struct ConfiguredEmbedderFactory {
    config: EmbedConfig,
}

impl ConfiguredEmbedderFactory {
    /// A factory for `config`.
    pub fn new(config: EmbedConfig) -> (r: Self)
        ensures
            r.config() == config,
    {
        Self { config }
    }

    /// The configuration the factory builds from.
    pub closed spec fn config(&self) -> EmbedConfig {
        self.config
    }
}

/// A copy of an optional string.
fn clone_opt(o: &Option<String>) -> (r: Option<String>)
    ensures
        opt_text(r) == opt_text(*o),
{
    match o {
        Some(s) => Some(s.clone()),
        None => None,
    }
}

impl EmbedderFactory for ConfiguredEmbedderFactory {
    /// `"onnx"` builds the ONNX embedder; `"api"` an API embedder at the
    /// configured endpoint (the default endpoint where none is set) with the
    /// configured model; any other name is unsupported.
    fn build(&self) -> (r: Result<EmbedderBackend, EmbedError>)
        ensures
            self.config().backend@ == "onnx"@ ==> r matches Ok(EmbedderBackend::Onnx),
            self.config().backend@ == "api"@ ==> (r matches Ok(
                EmbedderBackend::Api { endpoint, model },
            ) && endpoint@ == match self.config().api_endpoint {
                Some(e) => e@,
                None => DEFAULT_API_ENDPOINT@,
            } && opt_text(model) == opt_text(self.config().api_model)),
            self.config().backend@ != "onnx"@ && self.config().backend@ != "api"@ ==> (r matches Err(
                EmbedError::UnsupportedBackend(name),
            ) && name@ == self.config().backend@),
    {
        proof {
            reveal_strlit("onnx");
            reveal_strlit("api");
            assert("onnx"@ != "api"@) by {
                assert("onnx"@.len() != "api"@.len());
            }
        }
        let backend = self.config.backend.as_str();
        if str_equals(backend, "onnx") {
            Ok(EmbedderBackend::Onnx)
        } else if str_equals(backend, "api") {
            let endpoint = match &self.config.api_endpoint {
                Some(e) => e.clone(),
                None => String::from_str(DEFAULT_API_ENDPOINT),
            };
            Ok(EmbedderBackend::Api { endpoint, model: clone_opt(&self.config.api_model) })
        } else {
            Err(EmbedError::UnsupportedBackend(String::from_str(backend)))
        }
    }
}

} // verus!
