//! Which way a packet travels: toward the receivers' subnet, or back.
use vstd::prelude::*;
use crate::packet::Pkts;
use crate::pattern::{Pattern, PatternError, regex_compiles, regex_matches};
use crate::text::{dotted_quad, ipv4_text};

verus! {

/// Destination addresses of packets that the senders send, as a regular
/// expression over the dotted-decimal address.
pub const SENDER_DST: &'static str = "192.168.1..";

/// Compiles `SENDER_DST`.
pub fn sender_dst_pattern() -> (r: Result<Pattern, PatternError>)
    ensures
        r is Ok <==> regex_compiles(SENDER_DST@),
        r matches Ok(p) ==> p.text() == SENDER_DST@,
{
    Pattern::new(SENDER_DST)
}

/// Whether `p` goes toward the receivers: its destination address, written in
/// dotted decimal, matches `pattern`.
pub open spec fn toward_receiver(pattern: Seq<char>, p: Pkts) -> bool {
    regex_matches(pattern, dotted_quad(p.ip_p.destination@))
}

/// Whether `p` goes toward the receivers, by `pattern`.
pub fn is_toward_receiver(pattern: &Pattern, p: &Pkts) -> (b: bool)
    ensures
        b == toward_receiver(pattern.text(), *p),
{
    let dst = ipv4_text(p.ip_p.destination);
    pattern.is_match(dst.as_str())
}

} // verus!
