//! Control-plane response bodies: a plain message, or the status snapshot,
//! each with its exact JSON text.

use vstd::prelude::*;
use vstd::string::StrSliceExecFns;
use vstd::string::StringExecFns;
use crate::digits::{spec_num_chars, push_num_chars};
use crate::ident::{spec_ser_uuid, push_uuid};
use crate::net::{spec_ser_dest, push_dest};
use crate::registry::Tunnel;
use crate::strutil::push_char;

verus! {

/// A control-plane response: a message, or the status snapshot mapping each
/// tunnel id to its port and destination, in creation order.
pub enum ProxyResponse {
    Message(String),
    Status { tunnels: Vec<Tunnel> },
}

/// A character as it appears inside a JSON string: quotes and backslashes
/// escaped, everything else as it is.
pub open spec fn spec_escape_char(c: char) -> Seq<char> {
    if c == '"' {
        seq!['\\', '"']
    } else if c == '\\' {
        seq!['\\', '\\']
    } else {
        seq![c]
    }
}

/// A text as it appears inside a JSON string.
pub open spec fn spec_escape(s: Seq<char>) -> Seq<char>
    decreases s.len(),
{
    if s.len() == 0 {
        Seq::empty()
    } else {
        spec_escape(s.drop_last()) + spec_escape_char(s.last())
    }
}

/// The JSON body of a message response.
pub open spec fn spec_body_message(m: Seq<char>) -> Seq<char> {
    "{\"Message\":\""@ + spec_escape(m) + "\"}"@
}

/// One status entry: the id as a key, then the port and the destination's
/// socket-address text.
pub open spec fn spec_ser_entry(t: Tunnel) -> Seq<char> {
    seq!['"'] + spec_ser_uuid(t.id) + "\":["@ + spec_num_chars(t.incoming_port as nat, 10)
        + ",\""@ + spec_ser_dest(t.destination) + "\"]"@
}

/// The status entries, comma separated, in order.
pub open spec fn spec_ser_entries(ts: Seq<Tunnel>) -> Seq<char>
    decreases ts.len(),
{
    if ts.len() == 0 {
        Seq::empty()
    } else if ts.len() == 1 {
        spec_ser_entry(ts[0])
    } else {
        spec_ser_entries(ts.drop_last()) + seq![','] + spec_ser_entry(ts.last())
    }
}

/// The JSON body of a status response.
pub open spec fn spec_body_status(ts: Seq<Tunnel>) -> Seq<char> {
    "{\"Status\":{\"tunnels\":{"@ + spec_ser_entries(ts) + "}}}"@
}

/// Append `s` with JSON string escaping to `out`.
fn push_escaped(out: &mut String, s: &str)
    ensures
        final(out)@ == old(out)@ + spec_escape(s@),
{
    let slen = s.unicode_len();
    let mut k: usize = 0;
    proof {
        assert(old(out)@ + spec_escape(s@.take(0)) =~= old(out)@);
    }
    while k < slen
        invariant
            k <= slen,
            slen == s@.len(),
            out@ == old(out)@ + spec_escape(s@.take(k as int)),
        decreases slen - k,
    {
        let c = s.get_char(k);
        if c == '"' {
            push_char(out, '\\');
            push_char(out, '"');
        } else if c == '\\' {
            push_char(out, '\\');
            push_char(out, '\\');
        } else {
            push_char(out, c);
        }
        proof {
            let pre = s@.take(k as int);
            let post = s@.take(k + 1int);
            assert(post.drop_last() =~= pre);
            assert(post.last() == s@[k as int]);
            assert(out@ =~= old(out)@ + spec_escape(post));
        }
        k = k + 1;
    }
    proof {
        assert(s@.take(slen as int) =~= s@);
    }
}

/// Append one status entry to `out`.
fn push_entry(out: &mut String, t: &Tunnel)
    ensures
        final(out)@ == old(out)@ + spec_ser_entry(*t),
{
    push_char(out, '"');
    push_uuid(out, t.id);
    out.append("\":[");
    push_num_chars(out, t.incoming_port as u64, 10);
    out.append(",\"");
    push_dest(out, &t.destination);
    out.append("\"]");
    proof {
        assert(final(out)@ =~= old(out)@ + spec_ser_entry(*t));
    }
}

/// The exact JSON text of a response.
pub fn serialize_response(r: &ProxyResponse) -> (out: String)
    ensures
        match r {
            ProxyResponse::Message(m) => out@ == spec_body_message(m@),
            ProxyResponse::Status { tunnels } => out@ == spec_body_status(tunnels@),
        },
{
    let mut out = String::new();
    match r {
        ProxyResponse::Message(m) => {
            out.append("{\"Message\":\"");
            push_escaped(&mut out, m.as_str());
            out.append("\"}");
            proof {
                assert(out@ =~= spec_body_message(m@));
            }
        },
        ProxyResponse::Status { tunnels } => {
            out.append("{\"Status\":{\"tunnels\":{");
            let ghost prefix = out@;
            let mut k: usize = 0;
            proof {
                assert(prefix + spec_ser_entries(tunnels@.take(0)) =~= prefix);
            }
            while k < tunnels.len()
                invariant
                    k <= tunnels@.len(),
                    out@ == prefix + spec_ser_entries(tunnels@.take(k as int)),
                decreases tunnels@.len() - k,
            {
                if k > 0 {
                    push_char(&mut out, ',');
                }
                push_entry(&mut out, &tunnels[k]);
                proof {
                    let pre = tunnels@.take(k as int);
                    let post = tunnels@.take(k + 1int);
                    assert(post.drop_last() =~= pre);
                    assert(post.last() == tunnels@[k as int]);
                    if k == 0 {
                        assert(post.len() == 1);
                        assert(post[0] == tunnels@[0]);
                        assert(out@ =~= prefix + spec_ser_entries(post));
                    } else {
                        assert(out@ =~= prefix + spec_ser_entries(post));
                    }
                }
                k = k + 1;
            }
            proof {
                assert(tunnels@.take(tunnels@.len() as int) =~= tunnels@);
            }
            out.append("}}}");
            proof {
                assert(out@ =~= spec_body_status(tunnels@));
            }
        },
    }
    out
}

} // verus!
