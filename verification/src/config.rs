use vstd::prelude::*;

verus! {

/// Default cap on the transcript a notary will process, in bytes.
pub const DEFAULT_MAX_TRANSCRIPT_SIZE: usize = 32768;

/// Configuration of a notary session.
#[derive(Clone, Copy, Debug, PartialEq, Eq, Structural)]
pub struct NotaryConfig {
    pub max_transcript_size: usize,
}

/// Builder for `NotaryConfig`; every field has a default.
#[derive(Clone, Copy, Debug, PartialEq, Eq, Structural)]
pub struct NotaryConfigBuilder {
    pub max_transcript_size: Option<usize>,
}

impl NotaryConfig {
    /// Create a new builder for `NotaryConfig`.
    pub fn builder() -> (r: NotaryConfigBuilder)
        ensures
            r.max_transcript_size is None,
    {
        NotaryConfigBuilder { max_transcript_size: None }
    }

    /// Get the maximum transcript size in bytes.
    ///
    /// This includes the number of bytes sent and received to the server.
    pub fn max_transcript_size(&self) -> (r: usize)
        ensures
            r == self.max_transcript_size,
    {
        self.max_transcript_size
    }

    /// The configured size, for contracts.
    pub open spec fn spec_max_transcript_size(&self) -> usize {
        self.max_transcript_size
    }
}

impl NotaryConfigBuilder {
    /// Set the maximum transcript size in bytes.
    pub fn max_transcript_size(self, value: usize) -> (r: NotaryConfigBuilder)
        ensures
            r.max_transcript_size == Some(value),
    {
        NotaryConfigBuilder { max_transcript_size: Some(value) }
    }

    /// Build the configuration, filling unset fields with their defaults.
    pub fn build(self) -> (r: NotaryConfig)
        ensures
            r.spec_max_transcript_size() == (match self.max_transcript_size {
                Some(v) => v,
                None => DEFAULT_MAX_TRANSCRIPT_SIZE,
            }),
    {
        let size = match self.max_transcript_size {
            Some(v) => v,
            None => DEFAULT_MAX_TRANSCRIPT_SIZE,
        };
        NotaryConfig { max_transcript_size: size }
    }
}

} // verus!
