//! The startup configuration as plain values. Reading and deserializing the
//! configuration file is I/O and lives with the binary; the one rule the
//! library owns is that at least one DNS-over-TLS provider is mandatory.

use vstd::prelude::*;

use crate::error::{Error, ErrorKind};

verus! {

#[derive(Clone, Debug)]
pub struct GeneralOptions {
    pub bind_ip: String,
    pub bind_port: u16,
    pub refresh_blocklists_after: u64,
    pub worker_threads: Option<usize>,
}

#[derive(Clone, Debug)]
pub struct HttpBlockList {
    pub url: String,
}

#[derive(Clone, Debug)]
pub struct FileBlockList {
    pub path: String,
}

#[derive(Clone, Debug)]
pub struct DotProvider {
    pub ip: String,
    pub port: u16,
    pub hostname: String,
}

#[derive(Clone, Debug)]
pub struct Config {
    pub general: GeneralOptions,
    pub http_block_list: Option<Vec<HttpBlockList>>,
    pub file_block_list: Option<Vec<FileBlockList>>,
    pub dot_provider: Vec<DotProvider>,
}

impl Config {
    /// A configuration without a single DNS-over-TLS provider is a
    /// startup-fatal error; anything else passes.
    pub fn validate(&self) -> (r: Result<(), Error>)
        ensures
            r is Ok <==> self.dot_provider@.len() > 0,
            match r {
                Err(e) => e.kind == ErrorKind::NoDotProviders,
                Ok(_) => true,
            },
    {
        if self.dot_provider.is_empty() {
            Err(Error::no_dot_providers())
        } else {
            Ok(())
        }
    }
}

} // verus!
