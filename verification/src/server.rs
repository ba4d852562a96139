//! The dispatcher's per-request pipeline and the refresh scheduler's
//! decision, as verified functions from plain values to plain values. The
//! binary owns the UDP socket, the worker pool and the locks; every decision
//! it acts on is computed here.

use vstd::prelude::*;

use crate::block_lists::BlockLists;
use crate::dns_parser;
use crate::dns_parser::{nxdomain_flags, parse_failure, question_name};
use crate::error::Error;

verus! {

/// What the dispatcher should do with one received query.
pub enum QueryOutcome {
    /// Reply directly to the sender with these bytes: the original query
    /// rewritten in place into an NXDOMAIN answer.
    Blocked(Vec<u8>),
    /// Forward these untouched query bytes upstream and relay the answer.
    Forward(Vec<u8>),
    /// Drop the request; nothing is ever reported to the client.
    Invalid(Error),
}

/// Decides one request. `lists` is the cache snapshot when the read lock
/// was available; on contention the dispatcher hands `None` and the check
/// fails open — the domain is treated as not blocked rather than stalling
/// or denying service.
pub fn handle_query(msg: Vec<u8>, lists: Option<&BlockLists>) -> (r: QueryOutcome)
    ensures
        match r {
            QueryOutcome::Blocked(reply) => parse_failure(msg@) is None && (match lists {
                Some(l) => l.blocked_set().contains(question_name(msg@)),
                None => false,
            }) && reply@ == nxdomain_flags(msg@),
            QueryOutcome::Forward(q) => parse_failure(msg@) is None && (match lists {
                Some(l) => !l.blocked_set().contains(question_name(msg@)),
                None => true,
            }) && q@ == msg@,
            QueryOutcome::Invalid(e) => parse_failure(msg@) == Some(e.kind),
        },
{
    let mut msg = msg;
    let hostname: String = match dns_parser::get_requested_domain(msg.as_slice()) {
        Ok(h) => h,
        Err(e) => {
            return QueryOutcome::Invalid(e);
        },
    };
    let should_block: bool = match lists {
        Some(l) => l.check(hostname.as_str()),
        None => false,
    };
    if should_block {
        match dns_parser::tweak_to_nxdomain(&mut msg) {
            Ok(_) => QueryOutcome::Blocked(msg),
            Err(e) => QueryOutcome::Invalid(e),
        }
    } else {
        QueryOutcome::Forward(msg)
    }
}

/// Copies exactly the received byte count out of the reusable receive
/// buffer into a fresh per-request buffer, so no byte of an earlier,
/// longer datagram ever leaks into this request.
pub fn copy_packet(buffer: &[u8], amt: usize) -> (r: Vec<u8>)
    requires
        amt <= buffer@.len(),
    ensures
        r@ == buffer@.take(amt as int),
{
    let mut out: Vec<u8> = Vec::new();
    let mut i: usize = 0;
    while i < amt
        invariant
            i <= amt <= buffer@.len(),
            out@ == buffer@.take(i as int),
        decreases amt - i,
    {
        proof {
            assert(buffer@.take(i as int).push(buffer@[i as int]) =~= buffer@.take(i + 1));
        }
        out.push(buffer[i]);
        i += 1;
    }
    out
}

/// Zeroes the reusable receive buffer between datagrams, keeping its size.
pub fn clear_buffer(buffer: &mut Vec<u8>)
    ensures
        final(buffer)@.len() == old(buffer)@.len(),
        forall|k: int| 0 <= k < final(buffer)@.len() ==> final(buffer)@[k] == 0,
{
    let n: usize = buffer.len();
    let mut i: usize = 0;
    while i < n
        invariant
            i <= n,
            buffer@.len() == n,
            n == old(buffer)@.len(),
            forall|k: int| 0 <= k < i ==> buffer@[k] == 0,
        decreases n - i,
    {
        buffer[i] = 0;
        i += 1;
    }
}

/// The refresh scheduler's decision: a refresh is due once the time elapsed
/// since the last one passes the configured interval, given in minutes.
pub fn refresh_due(elapsed_secs: u64, interval_mins: u64) -> (r: bool)
    ensures
        r == (elapsed_secs > interval_mins * 60),
{
    (elapsed_secs as u128) > (interval_mins as u128) * 60
}

} // verus!
