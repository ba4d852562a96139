//! DNS-over-TLS upstreams: the provider list, the uniformly random
//! per-request selection, and the 2-byte big-endian length framing that the
//! DoT transport puts around every message.

use vstd::prelude::*;

use rand::seq::SliceRandom;

use crate::error::{Error, ErrorKind};

verus! {

/// One DNS-over-TLS provider: where to connect, which hostname to verify
/// the certificate against, and an optional pinned certificate.
#[derive(Clone, Debug)]
pub struct DotProvider {
    pub ip: String,
    pub port: u16,
    pub hostname: String,
    pub cert: Option<Vec<u8>>,
}

impl DotProvider {
    /// A provider as plain values, for stating which provider was picked.
    pub open spec fn model(&self) -> (Seq<char>, u16, Seq<char>, Option<Seq<u8>>) {
        (self.ip@, self.port, self.hostname@, self.cert.deep_view())
    }
}

/// Relies on rand's `SliceRandom::choose` with `rand::thread_rng`: `None`
/// exactly when the slice is empty, otherwise one element of the slice,
/// picked uniformly.
#[verifier::external_body]
fn choose_provider(providers: &Vec<DotProvider>) -> (r: Option<DotProvider>)
    ensures
        r is Some <==> providers@.len() > 0,
        match r {
            Some(p) => exists|k: int|
                0 <= k < providers@.len() && p.model() == providers@[k].model(),
            None => true,
        },
{
    providers.as_slice().choose(&mut rand::thread_rng()).cloned()
}

/// The set of configured upstream providers, loaded once at startup.
pub struct DotProviders {
    pub providers: Vec<DotProvider>,
}

impl DotProviders {
    pub fn new() -> (r: Self)
        ensures
            r.providers@.len() == 0,
    {
        let providers: Vec<DotProvider> = Vec::new();
        DotProviders { providers }
    }

    pub fn add(&mut self, ip: String, port: u16, hostname: String, cert: Option<Vec<u8>>)
        ensures
            final(self).providers@.len() == old(self).providers@.len() + 1,
            final(self).providers@.drop_last() == old(self).providers@,
            final(self).providers@.last().ip == ip,
            final(self).providers@.last().port == port,
            final(self).providers@.last().hostname == hostname,
            final(self).providers@.last().cert == cert,
    {
        let p = DotProvider { ip, port, hostname, cert };
        self.providers.push(p);
        proof {
            assert(self.providers@.drop_last() =~= old(self).providers@);
        }
    }

    pub fn clear(&mut self)
        ensures
            final(self).providers@.len() == 0,
    {
        self.providers = Vec::new();
    }

    /// Uniformly random choice among the configured providers. Fails
    /// cleanly — it never panics — exactly when no provider is configured.
    pub fn get_random(&self) -> (r: Result<DotProvider, Error>)
        ensures
            match r {
                Ok(p) => self.providers@.len() > 0 && (exists|k: int|
                    0 <= k < self.providers@.len() && p.model() == self.providers@[k].model()),
                Err(e) => self.providers@.len() == 0 && e.kind == ErrorKind::NoDotProviders,
            },
    {
        match choose_provider(&self.providers) {
            Some(p) => Ok(p),
            None => Err(Error::no_dot_providers()),
        }
    }
}

/// Frames a message for the DoT transport: a 2-byte big-endian length
/// prefix followed by the message bytes, unchanged.
pub fn encode_frame(msg: &[u8]) -> (r: Vec<u8>)
    requires
        msg@.len() <= 0xFFFF,
    ensures
        r@.len() == msg@.len() + 2,
        r@[0] == msg@.len() / 256,
        r@[1] == msg@.len() % 256,
        r@.skip(2) == msg@,
{
    let mut out: Vec<u8> = Vec::new();
    let len: u16 = msg.len() as u16;
    out.push((len / 256) as u8);
    out.push((len % 256) as u8);
    let mut i: usize = 0;
    while i < msg.len()
        invariant
            i <= msg@.len() <= 0xFFFF,
            out@.len() == i + 2,
            out@[0] == msg@.len() / 256,
            out@[1] == msg@.len() % 256,
            forall|k: int| 0 <= k < i ==> out@[k + 2] == msg@[k],
        decreases msg@.len() - i,
    {
        out.push(msg[i]);
        i += 1;
    }
    proof {
        assert(out@.skip(2) =~= msg@);
    }
    out
}

/// The length carried by a 2-byte big-endian frame header.
pub fn frame_length(hi: u8, lo: u8) -> (r: u16)
    ensures
        r == (hi as int) * 256 + (lo as int),
{
    (hi as u16) * 256 + (lo as u16)
}

} // verus!
