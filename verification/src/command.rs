//! Commands and their envelope: the canonical JSON wire form, its parser,
//! and round-trip lemmas.
//!
//! The canonical serialization is deterministic: fields in declaration
//! order, no whitespace, the command variant as a single lower-case key
//! wrapping its fields, `status` carrying an empty object, identifiers in
//! lower-case hex, and the signature as 192 upper-case hex characters. It is
//! the signed surface: the signed message is the canonical command text with
//! the decimal timestamp appended, with no separator. The parser accepts
//! exactly the canonical form.

use vstd::prelude::*;
use vstd::string::StrSliceExecFns;
use vstd::string::StringExecFns;
use crate::digits::{spec_num_chars, spec_parse_num, is_radix_digit, lemma_parse_of_num_chars,
    lemma_parse_num_sound, push_num_chars, parse_num};
use crate::hexstr::{spec_hex_of_bytes, spec_parse_hex_bytes, lemma_parse_of_hex_bytes,
    lemma_parse_hex_bytes_sound, lemma_hex_of_bytes_len, push_hex_of_bytes, parse_hex_bytes};
use crate::ident::{spec_ser_uuid, spec_parse_uuid, lemma_parse_of_uuid, push_uuid, parse_uuid};
use crate::net::{IpAddress, spec_ser_ip, spec_parse_ip, lemma_parse_of_ser_ip, push_ip, parse_ip};
use crate::strutil::push_char;

verus! {

/// A control-plane command.
#[derive(Clone, Copy, PartialEq, Eq, Debug)]
pub enum Command {
    Create { incoming_port: u16, destination_port: u16, destination_ip: IpAddress, id: u128 },
    Modify { destination_port: u16, destination_ip: IpAddress, id: u128 },
    Delete { id: u128 },
    Status,
}

/// A command envelope: the command, an optional unix-seconds timestamp, and
/// an optional raw 96-byte ECDSA P-384 signature.
#[derive(Clone, PartialEq, Eq, Debug)]
pub struct ProxyCommand {
    pub command: Command,
    pub timestamp: Option<u64>,
    pub signature: Option<Vec<u8>>,
}

/// The bytes of an optional signature.
pub open spec fn spec_sig_bytes(sig: Option<Vec<u8>>) -> Option<Seq<u8>> {
    match sig {
        Some(v) => Some(v@),
        None => None,
    }
}

// ------------------------- serialization -------------------------

/// The key and fields of a command, without the surrounding braces of the
/// whole object.
pub open spec fn spec_ser_inner(c: Command) -> Seq<char> {
    match c {
        Command::Create { incoming_port, destination_port, destination_ip, id } => {
            "\"create\":{\"incoming_port\":"@ + spec_num_chars(incoming_port as nat, 10)
                + ",\"destination_port\":"@ + spec_num_chars(destination_port as nat, 10)
                + ",\"destination_ip\":\""@ + spec_ser_ip(destination_ip) + "\",\"id\":\""@
                + spec_ser_uuid(id) + "\"}"@
        },
        Command::Modify { destination_port, destination_ip, id } => {
            "\"modify\":{\"destination_port\":"@ + spec_num_chars(destination_port as nat, 10)
                + ",\"destination_ip\":\""@ + spec_ser_ip(destination_ip) + "\",\"id\":\""@
                + spec_ser_uuid(id) + "\"}"@
        },
        Command::Delete { id } => {
            "\"delete\":{\"id\":\""@ + spec_ser_uuid(id) + "\"}"@
        },
        Command::Status => "\"status\":{}"@,
    }
}

/// Canonical JSON text of a command.
pub open spec fn spec_ser_command(c: Command) -> Seq<char> {
    seq!['{'] + spec_ser_inner(c) + seq!['}']
}

/// The signed surface: the canonical command text with the decimal
/// timestamp appended, no separator.
pub open spec fn spec_signed_message(c: Command, timestamp: u64) -> Seq<char> {
    spec_ser_command(c) + spec_num_chars(timestamp as nat, 10)
}

/// Canonical JSON text of an envelope. Absent timestamp or signature fields
/// are left out altogether.
pub open spec fn spec_ser_envelope(c: Command, ts: Option<u64>, sig: Option<Seq<u8>>) -> Seq<
    char,
> {
    seq!['{'] + spec_ser_inner(c) + (match ts {
        Some(t) => ",\"timestamp\":"@ + spec_num_chars(t as nat, 10),
        None => Seq::empty(),
    }) + (match sig {
        Some(b) => ",\"signature\":\""@ + spec_hex_of_bytes(b) + seq!['"'],
        None => Seq::empty(),
    }) + seq!['}']
}

/// Append the inner key and fields of `c` to `out`.
fn push_inner(out: &mut String, c: &Command)
    ensures
        final(out)@ == old(out)@ + spec_ser_inner(*c),
{
    match c {
        Command::Create { incoming_port, destination_port, destination_ip, id } => {
            out.append("\"create\":{\"incoming_port\":");
            push_num_chars(out, *incoming_port as u64, 10);
            out.append(",\"destination_port\":");
            push_num_chars(out, *destination_port as u64, 10);
            out.append(",\"destination_ip\":\"");
            push_ip(out, destination_ip);
            out.append("\",\"id\":\"");
            push_uuid(out, *id);
            out.append("\"}");
            proof {
                assert(final(out)@ =~= old(out)@ + spec_ser_inner(*c));
            }
        },
        Command::Modify { destination_port, destination_ip, id } => {
            out.append("\"modify\":{\"destination_port\":");
            push_num_chars(out, *destination_port as u64, 10);
            out.append(",\"destination_ip\":\"");
            push_ip(out, destination_ip);
            out.append("\",\"id\":\"");
            push_uuid(out, *id);
            out.append("\"}");
            proof {
                assert(final(out)@ =~= old(out)@ + spec_ser_inner(*c));
            }
        },
        Command::Delete { id } => {
            out.append("\"delete\":{\"id\":\"");
            push_uuid(out, *id);
            out.append("\"}");
            proof {
                assert(final(out)@ =~= old(out)@ + spec_ser_inner(*c));
            }
        },
        Command::Status => {
            out.append("\"status\":{}");
        },
    }
}

/// Canonical JSON text of a command.
pub fn serialize_command(c: &Command) -> (r: String)
    ensures
        r@ == spec_ser_command(*c),
{
    let mut out = String::new();
    push_char(&mut out, '{');
    push_inner(&mut out, c);
    push_char(&mut out, '}');
    proof {
        assert(out@ =~= spec_ser_command(*c));
    }
    out
}

/// The signed surface for a command and timestamp.
pub fn serialize_signed_message(c: &Command, timestamp: u64) -> (r: String)
    ensures
        r@ == spec_signed_message(*c, timestamp),
{
    let mut out = serialize_command(c);
    push_num_chars(&mut out, timestamp, 10);
    out
}

/// Canonical JSON text of an envelope.
pub fn serialize_envelope(pc: &ProxyCommand) -> (r: String)
    ensures
        r@ == spec_ser_envelope(pc.command, pc.timestamp, spec_sig_bytes(pc.signature)),
{
    let mut out = String::new();
    push_char(&mut out, '{');
    push_inner(&mut out, &pc.command);
    match &pc.timestamp {
        Some(t) => {
            out.append(",\"timestamp\":");
            push_num_chars(&mut out, *t, 10);
        },
        None => {},
    }
    match &pc.signature {
        Some(b) => {
            out.append(",\"signature\":\"");
            push_hex_of_bytes(&mut out, b);
            push_char(&mut out, '"');
        },
        None => {},
    }
    push_char(&mut out, '}');
    proof {
        assert(out@ =~= spec_ser_envelope(pc.command, pc.timestamp, spec_sig_bytes(pc.signature)));
    }
    out
}

// ------------------------- parsing -------------------------

/// The fixed text `lit` at position `i`: the position after it, or nothing.
pub open spec fn spec_expect(s: Seq<char>, i: int, lit: Seq<char>) -> Option<int> {
    if 0 <= i && i + lit.len() <= s.len() && s.subrange(i, i + lit.len() as int) == lit {
        Some(i + lit.len() as int)
    } else {
        None
    }
}

/// Match the fixed text `lit` at position `i` of `s`, whose character
/// length is `slen`.
fn expect_lit(s: &str, slen: usize, i: usize, lit: &str) -> (r: Option<usize>)
    requires
        slen == s@.len(),
        i <= slen,
    ensures
        match r {
            Some(j) => spec_expect(s@, i as int, lit@) == Some(j as int) && i <= j <= slen,
            None => spec_expect(s@, i as int, lit@) is None,
        },
{
    let llen = lit.unicode_len();
    if llen > slen - i {
        return None;
    }
    let mut k: usize = 0;
    while k < llen
        invariant
            k <= llen,
            i + llen <= slen,
            slen == s@.len(),
            llen == lit@.len(),
            forall|m: int| 0 <= m < k ==> s@[i + m] == lit@[m],
        decreases llen - k,
    {
        if s.get_char(i + k) != lit.get_char(k) {
            proof {
                assert(s@.subrange(i as int, i + llen as int)[k as int] == s@[i + k]);
            }
            return None;
        }
        k = k + 1;
    }
    proof {
        assert(s@.subrange(i as int, i + llen as int) =~= lit@);
    }
    Some(i + llen)
}

/// Parse of a `create` command's key and fields at position `i`.
pub open spec fn spec_parse_create(s: Seq<char>, i: int) -> Option<(Command, int)> {
    match spec_expect(s, i, "\"create\":{\"incoming_port\":"@) {
        Some(j1) => match spec_parse_num(s, j1, 10, 65535) {
            Some((ip_port, j2)) => match spec_expect(s, j2, ",\"destination_port\":"@) {
                Some(j3) => match spec_parse_num(s, j3, 10, 65535) {
                    Some((dp, j4)) => match spec_expect(s, j4, ",\"destination_ip\":\""@) {
                        Some(j5) => match spec_parse_ip(s, j5) {
                            Some((ip, j6)) => match spec_expect(s, j6, "\",\"id\":\""@) {
                                Some(j7) => match spec_parse_uuid(s, j7) {
                                    Some((id, j8)) => match spec_expect(s, j8, "\"}"@) {
                                        Some(j9) => Some(
                                            (
                                                Command::Create {
                                                    incoming_port: ip_port as u16,
                                                    destination_port: dp as u16,
                                                    destination_ip: ip,
                                                    id: id as u128,
                                                },
                                                j9,
                                            ),
                                        ),
                                        None => None,
                                    },
                                    None => None,
                                },
                                None => None,
                            },
                            None => None,
                        },
                        None => None,
                    },
                    None => None,
                },
                None => None,
            },
            None => None,
        },
        None => None,
    }
}

/// Parse of a `modify` command's key and fields at position `i`.
pub open spec fn spec_parse_modify(s: Seq<char>, i: int) -> Option<(Command, int)> {
    match spec_expect(s, i, "\"modify\":{\"destination_port\":"@) {
        Some(j1) => match spec_parse_num(s, j1, 10, 65535) {
            Some((dp, j2)) => match spec_expect(s, j2, ",\"destination_ip\":\""@) {
                Some(j3) => match spec_parse_ip(s, j3) {
                    Some((ip, j4)) => match spec_expect(s, j4, "\",\"id\":\""@) {
                        Some(j5) => match spec_parse_uuid(s, j5) {
                            Some((id, j6)) => match spec_expect(s, j6, "\"}"@) {
                                Some(j7) => Some(
                                    (
                                        Command::Modify {
                                            destination_port: dp as u16,
                                            destination_ip: ip,
                                            id: id as u128,
                                        },
                                        j7,
                                    ),
                                ),
                                None => None,
                            },
                            None => None,
                        },
                        None => None,
                    },
                    None => None,
                },
                None => None,
            },
            None => None,
        },
        None => None,
    }
}

/// Parse of a `delete` command's key and fields at position `i`.
pub open spec fn spec_parse_delete(s: Seq<char>, i: int) -> Option<(Command, int)> {
    match spec_expect(s, i, "\"delete\":{\"id\":\""@) {
        Some(j1) => match spec_parse_uuid(s, j1) {
            Some((id, j2)) => match spec_expect(s, j2, "\"}"@) {
                Some(j3) => Some((Command::Delete { id: id as u128 }, j3)),
                None => None,
            },
            None => None,
        },
        None => None,
    }
}

/// Parse of a `status` command's key and empty object at position `i`.
pub open spec fn spec_parse_status(s: Seq<char>, i: int) -> Option<(Command, int)> {
    match spec_expect(s, i, "\"status\":{}"@) {
        Some(j) => Some((Command::Status, j)),
        None => None,
    }
}

/// Parse of a command's key and fields: the four variants, tried in order.
pub open spec fn spec_parse_inner(s: Seq<char>, i: int) -> Option<(Command, int)> {
    match spec_parse_create(s, i) {
        Some(r) => Some(r),
        None => match spec_parse_modify(s, i) {
            Some(r) => Some(r),
            None => match spec_parse_delete(s, i) {
                Some(r) => Some(r),
                None => spec_parse_status(s, i),
            },
        },
    }
}

/// Parse of a whole envelope: the braces, the command, the optional
/// timestamp and signature fields, and nothing after the closing brace.
pub open spec fn spec_parse_envelope(s: Seq<char>) -> Option<(Command, Option<u64>, Option<
    Seq<u8>,
>)> {
    match spec_parse_inner(s, 1) {
        Some((c, j)) => {
            if 1 <= s.len() && s[0] == '{' {
                let (ts, j2) = match spec_expect(s, j, ",\"timestamp\":"@) {
                    Some(ja) => match spec_parse_num(s, ja, 10, 0xffffffffffffffff) {
                        Some((t, jb)) => (Some(Some(t as u64)), jb),
                        None => (None, j),
                    },
                    None => (Some(None), j),
                };
                match ts {
                    Some(tso) => {
                        let (sg, j3) = match spec_expect(s, j2, ",\"signature\":\""@) {
                            Some(ja) => match spec_parse_hex_bytes(s, ja, 96) {
                                Some(b) => {
                                    if ja + 192 < s.len() && s[ja + 192] == '"' {
                                        (Some(Some(b)), ja + 193)
                                    } else {
                                        (None, j2)
                                    }
                                },
                                None => (None, j2),
                            },
                            None => (Some(None), j2),
                        };
                        match sg {
                            Some(sgo) => {
                                if j3 + 1 == s.len() && s[j3] == '}' {
                                    Some((c, tso, sgo))
                                } else {
                                    None
                                }
                            },
                            None => None,
                        }
                    },
                    None => None,
                }
            } else {
                None
            }
        },
        None => None,
    }
}

/// Parse a command's key and fields at position `i`.
fn parse_inner(s: &str, slen: usize, i: usize) -> (r: Option<(Command, usize)>)
    requires
        slen == s@.len(),
        i <= slen,
    ensures
        match r {
            Some((c, j)) => spec_parse_inner(s@, i as int) == Some((c, j as int)) && i <= j
                <= slen,
            None => spec_parse_inner(s@, i as int) is None,
        },
{
    match parse_create(s, slen, i) {
        Some(r) => Some(r),
        None => match parse_modify(s, slen, i) {
            Some(r) => Some(r),
            None => match parse_delete(s, slen, i) {
                Some(r) => Some(r),
                None => match expect_lit(s, slen, i, "\"status\":{}") {
                    Some(j) => Some((Command::Status, j)),
                    None => None,
                },
            },
        },
    }
}

/// Parse a `create` command's key and fields at position `i`.
fn parse_create(s: &str, slen: usize, i: usize) -> (r: Option<(Command, usize)>)
    requires
        slen == s@.len(),
        i <= slen,
    ensures
        match r {
            Some((c, j)) => spec_parse_create(s@, i as int) == Some((c, j as int)) && i <= j
                <= slen,
            None => spec_parse_create(s@, i as int) is None,
        },
{
    let j1 = match expect_lit(s, slen, i, "\"create\":{\"incoming_port\":") {
        Some(j) => j,
        None => {
            return None;
        },
    };
    let (ip_port, j2) = match parse_num(s, slen, j1, 10, 65535) {
        Some(r) => r,
        None => {
            return None;
        },
    };
    let j3 = match expect_lit(s, slen, j2, ",\"destination_port\":") {
        Some(j) => j,
        None => {
            return None;
        },
    };
    let (dp, j4) = match parse_num(s, slen, j3, 10, 65535) {
        Some(r) => r,
        None => {
            return None;
        },
    };
    let j5 = match expect_lit(s, slen, j4, ",\"destination_ip\":\"") {
        Some(j) => j,
        None => {
            return None;
        },
    };
    let (ip, j6) = match parse_ip(s, slen, j5) {
        Some(r) => r,
        None => {
            return None;
        },
    };
    let j7 = match expect_lit(s, slen, j6, "\",\"id\":\"") {
        Some(j) => j,
        None => {
            return None;
        },
    };
    let (id, j8) = match parse_uuid(s, slen, j7) {
        Some(r) => r,
        None => {
            return None;
        },
    };
    let j9 = match expect_lit(s, slen, j8, "\"}") {
        Some(j) => j,
        None => {
            return None;
        },
    };
    Some(
        (
            Command::Create {
                incoming_port: ip_port as u16,
                destination_port: dp as u16,
                destination_ip: ip,
                id,
            },
            j9,
        ),
    )
}

/// Parse a `modify` command's key and fields at position `i`.
fn parse_modify(s: &str, slen: usize, i: usize) -> (r: Option<(Command, usize)>)
    requires
        slen == s@.len(),
        i <= slen,
    ensures
        match r {
            Some((c, j)) => spec_parse_modify(s@, i as int) == Some((c, j as int)) && i <= j
                <= slen,
            None => spec_parse_modify(s@, i as int) is None,
        },
{
    let j1 = match expect_lit(s, slen, i, "\"modify\":{\"destination_port\":") {
        Some(j) => j,
        None => {
            return None;
        },
    };
    let (dp, j2) = match parse_num(s, slen, j1, 10, 65535) {
        Some(r) => r,
        None => {
            return None;
        },
    };
    let j3 = match expect_lit(s, slen, j2, ",\"destination_ip\":\"") {
        Some(j) => j,
        None => {
            return None;
        },
    };
    let (ip, j4) = match parse_ip(s, slen, j3) {
        Some(r) => r,
        None => {
            return None;
        },
    };
    let j5 = match expect_lit(s, slen, j4, "\",\"id\":\"") {
        Some(j) => j,
        None => {
            return None;
        },
    };
    let (id, j6) = match parse_uuid(s, slen, j5) {
        Some(r) => r,
        None => {
            return None;
        },
    };
    let j7 = match expect_lit(s, slen, j6, "\"}") {
        Some(j) => j,
        None => {
            return None;
        },
    };
    Some((Command::Modify { destination_port: dp as u16, destination_ip: ip, id }, j7))
}

/// Parse a `delete` command's key and fields at position `i`.
fn parse_delete(s: &str, slen: usize, i: usize) -> (r: Option<(Command, usize)>)
    requires
        slen == s@.len(),
        i <= slen,
    ensures
        match r {
            Some((c, j)) => spec_parse_delete(s@, i as int) == Some((c, j as int)) && i <= j
                <= slen,
            None => spec_parse_delete(s@, i as int) is None,
        },
{
    let j1 = match expect_lit(s, slen, i, "\"delete\":{\"id\":\"") {
        Some(j) => j,
        None => {
            return None;
        },
    };
    let (id, j2) = match parse_uuid(s, slen, j1) {
        Some(r) => r,
        None => {
            return None;
        },
    };
    let j3 = match expect_lit(s, slen, j2, "\"}") {
        Some(j) => j,
        None => {
            return None;
        },
    };
    Some((Command::Delete { id }, j3))
}

/// Parse a whole envelope from its canonical JSON text.
pub fn parse_envelope(s: &str) -> (r: Option<ProxyCommand>)
    ensures
        match r {
            Some(pc) => spec_parse_envelope(s@) == Some(
                (pc.command, pc.timestamp, spec_sig_bytes(pc.signature)),
            ),
            None => spec_parse_envelope(s@) is None,
        },
{
    let slen = s.unicode_len();
    if slen < 1 || s.get_char(0) != '{' {
        return None;
    }
    let (c, j) = match parse_inner(s, slen, 1) {
        Some(r) => r,
        None => {
            return None;
        },
    };
    let (ts, j2): (Option<u64>, usize) = match expect_lit(s, slen, j, ",\"timestamp\":") {
        Some(ja) => {
            match parse_num(s, slen, ja, 10, 18446744073709551615) {
                Some((t, jb)) => (Some(t), jb),
                None => {
                    return None;
                },
            }
        },
        None => (None, j),
    };
    let (sg, j3): (Option<Vec<u8>>, usize) = match expect_lit(s, slen, j2, ",\"signature\":\"") {
        Some(ja) => {
            match parse_hex_bytes(s, slen, ja, 96) {
                Some(b) => {
                    if slen - ja > 192 && s.get_char(ja + 192) == '"' {
                        (Some(b), ja + 193)
                    } else {
                        return None;
                    }
                },
                None => {
                    return None;
                },
            }
        },
        None => (None, j2),
    };
    if j3 == slen - 1 && s.get_char(j3) == '}' {
        Some(ProxyCommand { command: c, timestamp: ts, signature: sg })
    } else {
        None
    }
}

// ------------------------- round-trip lemmas -------------------------

/// Parsing a serialized `create` command gives it back.
#[verifier::rlimit(80)]
proof fn lemma_parse_create_of_ser(s: Seq<char>, i: int, c: Command)
    requires
        c is Create,
        0 <= i,
        i + spec_ser_inner(c).len() <= s.len(),
        s.subrange(i, i + spec_ser_inner(c).len() as int) =~= spec_ser_inner(c),
    ensures
        spec_parse_create(s, i) == Some((c, i + spec_ser_inner(c).len())),
{
    let (incoming_port, destination_port, destination_ip, id) = match c {
        Command::Create { incoming_port, destination_port, destination_ip, id } => (
            incoming_port,
            destination_port,
            destination_ip,
            id,
        ),
        _ => arbitrary(),
    };
    reveal_strlit("\"create\":{\"incoming_port\":");
    reveal_strlit(",\"destination_port\":");
    reveal_strlit(",\"destination_ip\":\"");
    reveal_strlit("\",\"id\":\"");
    reveal_strlit("\"}");
    let l1s = "\"create\":{\"incoming_port\":"@;
    let l2s = ",\"destination_port\":"@;
    let l3s = ",\"destination_ip\":\""@;
    let l4s = "\",\"id\":\""@;
    let l5s = "\"}"@;
    let f1 = spec_num_chars(incoming_port as nat, 10);
    let f2 = spec_num_chars(destination_port as nat, 10);
    let f3 = spec_ser_ip(destination_ip);
    let f4 = spec_ser_uuid(id);
    crate::ident::lemma_ser_uuid_len(id);
    let q1 = l1s;
    let q2 = q1 + f1;
    let q3 = q2 + l2s;
    let q4 = q3 + f2;
    let q5 = q4 + l3s;
    let q6 = q5 + f3;
    let q7 = q6 + l4s;
    let q8 = q7 + f4;
    let t = spec_ser_inner(c);
    assert(t == q8 + l5s);
    let ll = t.len() as int;
    assert(forall|m: int| 0 <= m < ll ==> s[i + m] == #[trigger] t[m]);
    let o1 = i;
    let o2 = o1 + l1s.len() as int;
    let o3 = o2 + f1.len() as int;
    let o4 = o3 + l2s.len() as int;
    let o5 = o4 + f2.len() as int;
    let o6 = o5 + l3s.len() as int;
    let o7 = o6 + f3.len() as int;
    let o8 = o7 + l4s.len() as int;
    let o9 = o8 + 36;
    assert(s.subrange(o1, o1 + l1s.len() as int) =~= l1s) by {
        assert forall|k: int| 0 <= k < l1s.len() implies t[k] == l1s[k] by {
            assert(t[k] == q8[k]);
            assert(q8[k] == q7[k]);
            assert(q7[k] == q6[k]);
            assert(q6[k] == q5[k]);
            assert(q5[k] == q4[k]);
            assert(q4[k] == q3[k]);
            assert(q3[k] == q2[k]);
            assert(q2[k] == q1[k]);
        }
    }
    assert(s.subrange(o2, o2 + f1.len() as int) =~= f1) by {
        assert forall|k: int| 0 <= k < f1.len() implies t[o2 - i + k] == f1[k] by {
            assert(t[o2 - i + k] == q8[o2 - i + k]);
            assert(q8[o2 - i + k] == q7[o2 - i + k]);
            assert(q7[o2 - i + k] == q6[o2 - i + k]);
            assert(q6[o2 - i + k] == q5[o2 - i + k]);
            assert(q5[o2 - i + k] == q4[o2 - i + k]);
            assert(q4[o2 - i + k] == q3[o2 - i + k]);
            assert(q3[o2 - i + k] == q2[o2 - i + k]);
            assert(q2[o2 - i + k] == f1[k]);
        }
    }
    assert(s[o3] == ',') by {
        assert(t[o3 - i] == q8[o3 - i]);
        assert(q8[o3 - i] == q7[o3 - i]);
        assert(q7[o3 - i] == q6[o3 - i]);
        assert(q6[o3 - i] == q5[o3 - i]);
        assert(q5[o3 - i] == q4[o3 - i]);
        assert(q4[o3 - i] == q3[o3 - i]);
        assert(q3[o3 - i] == l2s[0]);
    }
    lemma_parse_of_num_chars(s, o2, incoming_port as nat, 10, 65535);
    assert(s.subrange(o3, o3 + l2s.len() as int) =~= l2s) by {
        assert forall|k: int| 0 <= k < l2s.len() implies t[o3 - i + k] == l2s[k] by {
            assert(t[o3 - i + k] == q8[o3 - i + k]);
            assert(q8[o3 - i + k] == q7[o3 - i + k]);
            assert(q7[o3 - i + k] == q6[o3 - i + k]);
            assert(q6[o3 - i + k] == q5[o3 - i + k]);
            assert(q5[o3 - i + k] == q4[o3 - i + k]);
            assert(q4[o3 - i + k] == q3[o3 - i + k]);
            assert(q3[o3 - i + k] == l2s[k]);
        }
    }
    assert(s.subrange(o4, o4 + f2.len() as int) =~= f2) by {
        assert forall|k: int| 0 <= k < f2.len() implies t[o4 - i + k] == f2[k] by {
            assert(t[o4 - i + k] == q8[o4 - i + k]);
            assert(q8[o4 - i + k] == q7[o4 - i + k]);
            assert(q7[o4 - i + k] == q6[o4 - i + k]);
            assert(q6[o4 - i + k] == q5[o4 - i + k]);
            assert(q5[o4 - i + k] == q4[o4 - i + k]);
            assert(q4[o4 - i + k] == f2[k]);
        }
    }
    assert(s[o5] == ',') by {
        assert(t[o5 - i] == q8[o5 - i]);
        assert(q8[o5 - i] == q7[o5 - i]);
        assert(q7[o5 - i] == q6[o5 - i]);
        assert(q6[o5 - i] == q5[o5 - i]);
        assert(q5[o5 - i] == l3s[0]);
    }
    lemma_parse_of_num_chars(s, o4, destination_port as nat, 10, 65535);
    assert(s.subrange(o5, o5 + l3s.len() as int) =~= l3s) by {
        assert forall|k: int| 0 <= k < l3s.len() implies t[o5 - i + k] == l3s[k] by {
            assert(t[o5 - i + k] == q8[o5 - i + k]);
            assert(q8[o5 - i + k] == q7[o5 - i + k]);
            assert(q7[o5 - i + k] == q6[o5 - i + k]);
            assert(q6[o5 - i + k] == q5[o5 - i + k]);
            assert(q5[o5 - i + k] == l3s[k]);
        }
    }
    assert(s.subrange(o6, o6 + f3.len() as int) =~= f3) by {
        assert forall|k: int| 0 <= k < f3.len() implies t[o6 - i + k] == f3[k] by {
            assert(t[o6 - i + k] == q8[o6 - i + k]);
            assert(q8[o6 - i + k] == q7[o6 - i + k]);
            assert(q7[o6 - i + k] == q6[o6 - i + k]);
            assert(q6[o6 - i + k] == f3[k]);
        }
    }
    assert(s[o7] == '"') by {
        assert(t[o7 - i] == q8[o7 - i]);
        assert(q8[o7 - i] == q7[o7 - i]);
        assert(q7[o7 - i] == l4s[0]);
    }
    assert(!is_radix_digit(s[o6 + f3.len() as int], 10));
    lemma_parse_of_ser_ip(s, o6, destination_ip);
    assert(s.subrange(o7, o7 + l4s.len() as int) =~= l4s) by {
        assert forall|k: int| 0 <= k < l4s.len() implies t[o7 - i + k] == l4s[k] by {
            assert(t[o7 - i + k] == q8[o7 - i + k]);
            assert(q8[o7 - i + k] == q7[o7 - i + k]);
            assert(q7[o7 - i + k] == l4s[k]);
        }
    }
    assert(s.subrange(o8, o8 + 36) =~= f4) by {
        assert forall|k: int| 0 <= k < 36 implies t[o8 - i + k] == f4[k] by {
            assert(t[o8 - i + k] == q8[o8 - i + k]);
            assert(q8[o8 - i + k] == f4[k]);
        }
    }
    lemma_parse_of_uuid(s, o8, id);
    assert(s.subrange(o9, o9 + l5s.len() as int) =~= l5s) by {
        assert forall|k: int| 0 <= k < l5s.len() implies t[o9 - i + k] == l5s[k] by {
            assert(t[o9 - i + k] == l5s[k]);
        }
    }
    assert(spec_parse_create(s, i) == Some((c, i + t.len())));
}

/// Parsing a serialized `modify` command gives it back.
#[verifier::rlimit(80)]
proof fn lemma_parse_modify_of_ser(s: Seq<char>, i: int, c: Command)
    requires
        c is Modify,
        0 <= i,
        i + spec_ser_inner(c).len() <= s.len(),
        s.subrange(i, i + spec_ser_inner(c).len() as int) =~= spec_ser_inner(c),
    ensures
        spec_parse_modify(s, i) == Some((c, i + spec_ser_inner(c).len())),
{
    let (destination_port, destination_ip, id) = match c {
        Command::Modify { destination_port, destination_ip, id } => (
            destination_port,
            destination_ip,
            id,
        ),
        _ => arbitrary(),
    };
    reveal_strlit("\"modify\":{\"destination_port\":");
    reveal_strlit(",\"destination_ip\":\"");
    reveal_strlit("\",\"id\":\"");
    reveal_strlit("\"}");
    let l1s = "\"modify\":{\"destination_port\":"@;
    let l3s = ",\"destination_ip\":\""@;
    let l4s = "\",\"id\":\""@;
    let l5s = "\"}"@;
    let f2 = spec_num_chars(destination_port as nat, 10);
    let f3 = spec_ser_ip(destination_ip);
    let f4 = spec_ser_uuid(id);
    crate::ident::lemma_ser_uuid_len(id);
    let q1 = l1s;
    let q2 = q1 + f2;
    let q3 = q2 + l3s;
    let q4 = q3 + f3;
    let q5 = q4 + l4s;
    let q6 = q5 + f4;
    let t = spec_ser_inner(c);
    assert(t == q6 + l5s);
    let ll = t.len() as int;
    assert(forall|m: int| 0 <= m < ll ==> s[i + m] == #[trigger] t[m]);
    let o1 = i;
    let o2 = o1 + l1s.len() as int;
    let o3 = o2 + f2.len() as int;
    let o4 = o3 + l3s.len() as int;
    let o5 = o4 + f3.len() as int;
    let o6 = o5 + l4s.len() as int;
    let o7 = o6 + 36;
    assert(s.subrange(o1, o1 + l1s.len() as int) =~= l1s) by {
        assert forall|k: int| 0 <= k < l1s.len() implies t[k] == l1s[k] by {
            assert(t[k] == q6[k]);
            assert(q6[k] == q5[k]);
            assert(q5[k] == q4[k]);
            assert(q4[k] == q3[k]);
            assert(q3[k] == q2[k]);
            assert(q2[k] == q1[k]);
        }
    }
    assert(s.subrange(o2, o2 + f2.len() as int) =~= f2) by {
        assert forall|k: int| 0 <= k < f2.len() implies t[o2 - i + k] == f2[k] by {
            assert(t[o2 - i + k] == q6[o2 - i + k]);
            assert(q6[o2 - i + k] == q5[o2 - i + k]);
            assert(q5[o2 - i + k] == q4[o2 - i + k]);
            assert(q4[o2 - i + k] == q3[o2 - i + k]);
            assert(q3[o2 - i + k] == q2[o2 - i + k]);
            assert(q2[o2 - i + k] == f2[k]);
        }
    }
    assert(s[o3] == ',') by {
        assert(t[o3 - i] == q6[o3 - i]);
        assert(q6[o3 - i] == q5[o3 - i]);
        assert(q5[o3 - i] == q4[o3 - i]);
        assert(q4[o3 - i] == q3[o3 - i]);
        assert(q3[o3 - i] == l3s[0]);
    }
    lemma_parse_of_num_chars(s, o2, destination_port as nat, 10, 65535);
    assert(s.subrange(o3, o3 + l3s.len() as int) =~= l3s) by {
        assert forall|k: int| 0 <= k < l3s.len() implies t[o3 - i + k] == l3s[k] by {
            assert(t[o3 - i + k] == q6[o3 - i + k]);
            assert(q6[o3 - i + k] == q5[o3 - i + k]);
            assert(q5[o3 - i + k] == q4[o3 - i + k]);
            assert(q4[o3 - i + k] == q3[o3 - i + k]);
            assert(q3[o3 - i + k] == l3s[k]);
        }
    }
    assert(s.subrange(o4, o4 + f3.len() as int) =~= f3) by {
        assert forall|k: int| 0 <= k < f3.len() implies t[o4 - i + k] == f3[k] by {
            assert(t[o4 - i + k] == q6[o4 - i + k]);
            assert(q6[o4 - i + k] == q5[o4 - i + k]);
            assert(q5[o4 - i + k] == q4[o4 - i + k]);
            assert(q4[o4 - i + k] == f3[k]);
        }
    }
    assert(s[o5] == '"') by {
        assert(t[o5 - i] == q6[o5 - i]);
        assert(q6[o5 - i] == q5[o5 - i]);
        assert(q5[o5 - i] == l4s[0]);
    }
    assert(!is_radix_digit(s[o4 + f3.len() as int], 10));
    lemma_parse_of_ser_ip(s, o4, destination_ip);
    assert(s.subrange(o5, o5 + l4s.len() as int) =~= l4s) by {
        assert forall|k: int| 0 <= k < l4s.len() implies t[o5 - i + k] == l4s[k] by {
            assert(t[o5 - i + k] == q6[o5 - i + k]);
            assert(q6[o5 - i + k] == q5[o5 - i + k]);
            assert(q5[o5 - i + k] == l4s[k]);
        }
    }
    assert(s.subrange(o6, o6 + 36) =~= f4) by {
        assert forall|k: int| 0 <= k < 36 implies t[o6 - i + k] == f4[k] by {
            assert(t[o6 - i + k] == q6[o6 - i + k]);
            assert(q6[o6 - i + k] == f4[k]);
        }
    }
    lemma_parse_of_uuid(s, o6, id);
    assert(s.subrange(o7, o7 + l5s.len() as int) =~= l5s) by {
        assert forall|k: int| 0 <= k < l5s.len() implies t[o7 - i + k] == l5s[k] by {
            assert(t[o7 - i + k] == l5s[k]);
        }
    }
    assert(spec_parse_modify(s, i) == Some((c, i + t.len())));
}

/// Parsing a serialized `delete` command gives it back.
proof fn lemma_parse_delete_of_ser(s: Seq<char>, i: int, c: Command)
    requires
        c is Delete,
        0 <= i,
        i + spec_ser_inner(c).len() <= s.len(),
        s.subrange(i, i + spec_ser_inner(c).len() as int) =~= spec_ser_inner(c),
    ensures
        spec_parse_delete(s, i) == Some((c, i + spec_ser_inner(c).len())),
{
    let id = match c {
        Command::Delete { id } => id,
        _ => arbitrary(),
    };
    reveal_strlit("\"delete\":{\"id\":\"");
    reveal_strlit("\"}");
    let l1s = "\"delete\":{\"id\":\""@;
    let l5s = "\"}"@;
    let f4 = spec_ser_uuid(id);
    crate::ident::lemma_ser_uuid_len(id);
    let q1 = l1s;
    let q2 = q1 + f4;
    let t = spec_ser_inner(c);
    assert(t == q2 + l5s);
    let ll = t.len() as int;
    assert(forall|m: int| 0 <= m < ll ==> s[i + m] == #[trigger] t[m]);
    let o2 = i + l1s.len() as int;
    let o3 = o2 + 36;
    assert(s.subrange(i, i + l1s.len() as int) =~= l1s) by {
        assert forall|k: int| 0 <= k < l1s.len() implies t[k] == l1s[k] by {
            assert(t[k] == q2[k]);
            assert(q2[k] == q1[k]);
        }
    }
    assert(s.subrange(o2, o2 + 36) =~= f4) by {
        assert forall|k: int| 0 <= k < 36 implies t[o2 - i + k] == f4[k] by {
            assert(t[o2 - i + k] == q2[o2 - i + k]);
            assert(q2[o2 - i + k] == f4[k]);
        }
    }
    lemma_parse_of_uuid(s, o2, id);
    assert(s.subrange(o3, o3 + l5s.len() as int) =~= l5s) by {
        assert forall|k: int| 0 <= k < l5s.len() implies t[o3 - i + k] == l5s[k] by {
            assert(t[o3 - i + k] == l5s[k]);
        }
    }
    assert(spec_parse_delete(s, i) == Some((c, i + t.len())));
}

/// A parse of a variant whose leading key character differs fails.
proof fn lemma_parse_create_none(s: Seq<char>, i: int)
    requires
        0 <= i,
        i + 1 < s.len(),
        s[i + 1] != 'c',
    ensures
        spec_parse_create(s, i) is None,
{
    reveal_strlit("\"create\":{\"incoming_port\":");
    let lit = "\"create\":{\"incoming_port\":"@;
    if spec_expect(s, i, lit) is Some {
        assert(s.subrange(i, i + lit.len() as int)[1] == s[i + 1]);
        assert(lit[1] == 'c');
        assert(false);
    }
}

/// A parse of a `modify` key fails when the leading key character differs.
proof fn lemma_parse_modify_none(s: Seq<char>, i: int)
    requires
        0 <= i,
        i + 1 < s.len(),
        s[i + 1] != 'm',
    ensures
        spec_parse_modify(s, i) is None,
{
    reveal_strlit("\"modify\":{\"destination_port\":");
    let lit = "\"modify\":{\"destination_port\":"@;
    if spec_expect(s, i, lit) is Some {
        assert(s.subrange(i, i + lit.len() as int)[1] == s[i + 1]);
        assert(lit[1] == 'm');
        assert(false);
    }
}

/// A parse of a `delete` key fails when the leading key character differs.
proof fn lemma_parse_delete_none(s: Seq<char>, i: int)
    requires
        0 <= i,
        i + 1 < s.len(),
        s[i + 1] != 'd',
    ensures
        spec_parse_delete(s, i) is None,
{
    reveal_strlit("\"delete\":{\"id\":\"");
    let lit = "\"delete\":{\"id\":\""@;
    if spec_expect(s, i, lit) is Some {
        assert(s.subrange(i, i + lit.len() as int)[1] == s[i + 1]);
        assert(lit[1] == 'd');
        assert(false);
    }
}

/// The first character of each serialized command key.
proof fn lemma_inner_key_char(c: Command)
    ensures
        spec_ser_inner(c).len() >= 2,
        c is Create ==> spec_ser_inner(c)[1] == 'c',
        c is Modify ==> spec_ser_inner(c)[1] == 'm',
        c is Delete ==> spec_ser_inner(c)[1] == 'd',
        c is Status ==> spec_ser_inner(c)[1] == 's',
{
    reveal_strlit("\"create\":{\"incoming_port\":");
    reveal_strlit("\"modify\":{\"destination_port\":");
    reveal_strlit("\"delete\":{\"id\":\"");
    reveal_strlit("\"status\":{}");
    let t = spec_ser_inner(c);
    match c {
        Command::Create { incoming_port, destination_port, destination_ip, id } => {
            let q1 = "\"create\":{\"incoming_port\":"@;
            let q2 = q1 + spec_num_chars(incoming_port as nat, 10);
            let q3 = q2 + ",\"destination_port\":"@;
            let q4 = q3 + spec_num_chars(destination_port as nat, 10);
            let q5 = q4 + ",\"destination_ip\":\""@;
            let q6 = q5 + spec_ser_ip(destination_ip);
            let q7 = q6 + "\",\"id\":\""@;
            let q8 = q7 + spec_ser_uuid(id);
            assert(t == q8 + "\"}"@);
            assert(t[1] == q8[1]);
            assert(q8[1] == q7[1]);
            assert(q7[1] == q6[1]);
            assert(q6[1] == q5[1]);
            assert(q5[1] == q4[1]);
            assert(q4[1] == q3[1]);
            assert(q3[1] == q2[1]);
            assert(q2[1] == q1[1]);
        },
        Command::Modify { destination_port, destination_ip, id } => {
            let q1 = "\"modify\":{\"destination_port\":"@;
            let q2 = q1 + spec_num_chars(destination_port as nat, 10);
            let q3 = q2 + ",\"destination_ip\":\""@;
            let q4 = q3 + spec_ser_ip(destination_ip);
            let q5 = q4 + "\",\"id\":\""@;
            let q6 = q5 + spec_ser_uuid(id);
            assert(t == q6 + "\"}"@);
            assert(t[1] == q6[1]);
            assert(q6[1] == q5[1]);
            assert(q5[1] == q4[1]);
            assert(q4[1] == q3[1]);
            assert(q3[1] == q2[1]);
            assert(q2[1] == q1[1]);
        },
        Command::Delete { id } => {
            let q1 = "\"delete\":{\"id\":\""@;
            let q2 = q1 + spec_ser_uuid(id);
            assert(t == q2 + "\"}"@);
            assert(t[1] == q2[1]);
            assert(q2[1] == q1[1]);
        },
        Command::Status => {
        },
    }
}

/// Parsing a serialized command's key and fields gives the command back.
proof fn lemma_parse_inner_of_ser(s: Seq<char>, i: int, c: Command)
    requires
        0 <= i,
        i + spec_ser_inner(c).len() <= s.len(),
        s.subrange(i, i + spec_ser_inner(c).len() as int) =~= spec_ser_inner(c),
    ensures
        spec_parse_inner(s, i) == Some((c, i + spec_ser_inner(c).len())),
{
    let t = spec_ser_inner(c);
    lemma_inner_key_char(c);
    assert(s[i + 1] == t[1]) by {
        assert(s.subrange(i, i + t.len() as int)[1] == s[i + 1]);
    }
    match c {
        Command::Create { .. } => {
            lemma_parse_create_of_ser(s, i, c);
        },
        Command::Modify { .. } => {
            lemma_parse_create_none(s, i);
            lemma_parse_modify_of_ser(s, i, c);
        },
        Command::Delete { .. } => {
            lemma_parse_create_none(s, i);
            lemma_parse_modify_none(s, i);
            lemma_parse_delete_of_ser(s, i, c);
        },
        Command::Status => {
            lemma_parse_create_none(s, i);
            lemma_parse_modify_none(s, i);
            lemma_parse_delete_none(s, i);
            reveal_strlit("\"status\":{}");
            assert(s.subrange(i, i + 11) =~= "\"status\":{}"@);
        },
    }
}

/// A parsed `create` command is the only text it could have been.
#[verifier::rlimit(100)]
proof fn lemma_parse_create_sound(s: Seq<char>, i: int)
    requires
        0 <= i <= s.len(),
        spec_parse_create(s, i) is Some,
    ensures
        ({
            let (c, j) = spec_parse_create(s, i)->Some_0;
            &&& c is Create
            &&& i < j <= s.len()
            &&& j == i + spec_ser_inner(c).len()
            &&& s.subrange(i, j) =~= spec_ser_inner(c)
        }),
{
    let l1s = "\"create\":{\"incoming_port\":"@;
    let l2s = ",\"destination_port\":"@;
    let l3s = ",\"destination_ip\":\""@;
    let l4s = "\",\"id\":\""@;
    let l5s = "\"}"@;
    let j1 = spec_expect(s, i, l1s)->Some_0;
    let (pv, j2) = spec_parse_num(s, j1, 10, 65535)->Some_0;
    lemma_parse_num_sound(s, j1, 10, 65535);
    let j3 = spec_expect(s, j2, l2s)->Some_0;
    let (dv, j4) = spec_parse_num(s, j3, 10, 65535)->Some_0;
    lemma_parse_num_sound(s, j3, 10, 65535);
    let j5 = spec_expect(s, j4, l3s)->Some_0;
    let (ipv, j6) = spec_parse_ip(s, j5)->Some_0;
    crate::net::lemma_parse_ip_sound(s, j5);
    let j7 = spec_expect(s, j6, l4s)->Some_0;
    let (idv, j8) = spec_parse_uuid(s, j7)->Some_0;
    crate::ident::lemma_parse_uuid_sound(s, j7);
    crate::ident::lemma_ser_uuid_len(idv as u128);
    let j9 = spec_expect(s, j8, l5s)->Some_0;
    let c = spec_parse_create(s, i)->Some_0.0;
    let f1 = spec_num_chars(pv as nat, 10);
    let f2 = spec_num_chars(dv as nat, 10);
    let f3 = spec_ser_ip(ipv);
    let f4 = spec_ser_uuid(idv as u128);
    let q1 = l1s;
    let q2 = q1 + f1;
    let q3 = q2 + l2s;
    let q4 = q3 + f2;
    let q5 = q4 + l3s;
    let q6 = q5 + f3;
    let q7 = q6 + l4s;
    let q8 = q7 + f4;
    let t = spec_ser_inner(c);
    assert(t == q8 + l5s);
    assert(s.subrange(i, j9) =~= t) by {
        assert forall|m: int| 0 <= m < j9 - i implies s.subrange(i, j9)[m] == t[m] by {
            assert(s.subrange(i, j9)[m] == s[i + m]);
            if m < j1 - i {
                assert(s[i + m] == s.subrange(i, j1)[m]);
                assert(t[m] == q8[m]);
                assert(q8[m] == q7[m]);
                assert(q7[m] == q6[m]);
                assert(q6[m] == q5[m]);
                assert(q5[m] == q4[m]);
                assert(q4[m] == q3[m]);
                assert(q3[m] == q2[m]);
                assert(q2[m] == q1[m]);
            } else if m < j2 - i {
                assert(s[i + m] == s.subrange(j1, j2)[i + m - j1]);
                assert(t[m] == q8[m]);
                assert(q8[m] == q7[m]);
                assert(q7[m] == q6[m]);
                assert(q6[m] == q5[m]);
                assert(q5[m] == q4[m]);
                assert(q4[m] == q3[m]);
                assert(q3[m] == q2[m]);
                assert(q2[m] == f1[i + m - j1]);
            } else if m < j3 - i {
                assert(s[i + m] == s.subrange(j2, j3)[i + m - j2]);
                assert(t[m] == q8[m]);
                assert(q8[m] == q7[m]);
                assert(q7[m] == q6[m]);
                assert(q6[m] == q5[m]);
                assert(q5[m] == q4[m]);
                assert(q4[m] == q3[m]);
                assert(q3[m] == l2s[i + m - j2]);
            } else if m < j4 - i {
                assert(s[i + m] == s.subrange(j3, j4)[i + m - j3]);
                assert(t[m] == q8[m]);
                assert(q8[m] == q7[m]);
                assert(q7[m] == q6[m]);
                assert(q6[m] == q5[m]);
                assert(q5[m] == q4[m]);
                assert(q4[m] == f2[i + m - j3]);
            } else if m < j5 - i {
                assert(s[i + m] == s.subrange(j4, j5)[i + m - j4]);
                assert(t[m] == q8[m]);
                assert(q8[m] == q7[m]);
                assert(q7[m] == q6[m]);
                assert(q6[m] == q5[m]);
                assert(q5[m] == l3s[i + m - j4]);
            } else if m < j6 - i {
                assert(s[i + m] == s.subrange(j5, j6)[i + m - j5]);
                assert(t[m] == q8[m]);
                assert(q8[m] == q7[m]);
                assert(q7[m] == q6[m]);
                assert(q6[m] == f3[i + m - j5]);
            } else if m < j7 - i {
                assert(s[i + m] == s.subrange(j6, j7)[i + m - j6]);
                assert(t[m] == q8[m]);
                assert(q8[m] == q7[m]);
                assert(q7[m] == l4s[i + m - j6]);
            } else if m < j8 - i {
                assert(s[i + m] == s.subrange(j7, j8)[i + m - j7]);
                assert(t[m] == q8[m]);
                assert(q8[m] == f4[i + m - j7]);
            } else {
                assert(s[i + m] == s.subrange(j8, j9)[i + m - j8]);
                assert(t[m] == l5s[i + m - j8]);
            }
        }
    }
}

/// A parsed `modify` command is the only text it could have been.
#[verifier::rlimit(100)]
proof fn lemma_parse_modify_sound(s: Seq<char>, i: int)
    requires
        0 <= i <= s.len(),
        spec_parse_modify(s, i) is Some,
    ensures
        ({
            let (c, j) = spec_parse_modify(s, i)->Some_0;
            &&& c is Modify
            &&& i < j <= s.len()
            &&& j == i + spec_ser_inner(c).len()
            &&& s.subrange(i, j) =~= spec_ser_inner(c)
        }),
{
    let l1s = "\"modify\":{\"destination_port\":"@;
    let l3s = ",\"destination_ip\":\""@;
    let l4s = "\",\"id\":\""@;
    let l5s = "\"}"@;
    let j1 = spec_expect(s, i, l1s)->Some_0;
    let (dv, j2) = spec_parse_num(s, j1, 10, 65535)->Some_0;
    lemma_parse_num_sound(s, j1, 10, 65535);
    let j3 = spec_expect(s, j2, l3s)->Some_0;
    let (ipv, j4) = spec_parse_ip(s, j3)->Some_0;
    crate::net::lemma_parse_ip_sound(s, j3);
    let j5 = spec_expect(s, j4, l4s)->Some_0;
    let (idv, j6) = spec_parse_uuid(s, j5)->Some_0;
    crate::ident::lemma_parse_uuid_sound(s, j5);
    crate::ident::lemma_ser_uuid_len(idv as u128);
    let j7 = spec_expect(s, j6, l5s)->Some_0;
    let c = spec_parse_modify(s, i)->Some_0.0;
    let f2 = spec_num_chars(dv as nat, 10);
    let f3 = spec_ser_ip(ipv);
    let f4 = spec_ser_uuid(idv as u128);
    let q1 = l1s;
    let q2 = q1 + f2;
    let q3 = q2 + l3s;
    let q4 = q3 + f3;
    let q5 = q4 + l4s;
    let q6 = q5 + f4;
    let t = spec_ser_inner(c);
    assert(t == q6 + l5s);
    assert(s.subrange(i, j7) =~= t) by {
        assert forall|m: int| 0 <= m < j7 - i implies s.subrange(i, j7)[m] == t[m] by {
            assert(s.subrange(i, j7)[m] == s[i + m]);
            if m < j1 - i {
                assert(s[i + m] == s.subrange(i, j1)[m]);
                assert(t[m] == q6[m]);
                assert(q6[m] == q5[m]);
                assert(q5[m] == q4[m]);
                assert(q4[m] == q3[m]);
                assert(q3[m] == q2[m]);
                assert(q2[m] == q1[m]);
            } else if m < j2 - i {
                assert(s[i + m] == s.subrange(j1, j2)[i + m - j1]);
                assert(t[m] == q6[m]);
                assert(q6[m] == q5[m]);
                assert(q5[m] == q4[m]);
                assert(q4[m] == q3[m]);
                assert(q3[m] == q2[m]);
                assert(q2[m] == f2[i + m - j1]);
            } else if m < j3 - i {
                assert(s[i + m] == s.subrange(j2, j3)[i + m - j2]);
                assert(t[m] == q6[m]);
                assert(q6[m] == q5[m]);
                assert(q5[m] == q4[m]);
                assert(q4[m] == q3[m]);
                assert(q3[m] == l3s[i + m - j2]);
            } else if m < j4 - i {
                assert(s[i + m] == s.subrange(j3, j4)[i + m - j3]);
                assert(t[m] == q6[m]);
                assert(q6[m] == q5[m]);
                assert(q5[m] == q4[m]);
                assert(q4[m] == f3[i + m - j3]);
            } else if m < j5 - i {
                assert(s[i + m] == s.subrange(j4, j5)[i + m - j4]);
                assert(t[m] == q6[m]);
                assert(q6[m] == q5[m]);
                assert(q5[m] == l4s[i + m - j4]);
            } else if m < j6 - i {
                assert(s[i + m] == s.subrange(j5, j6)[i + m - j5]);
                assert(t[m] == q6[m]);
                assert(q6[m] == f4[i + m - j5]);
            } else {
                assert(s[i + m] == s.subrange(j6, j7)[i + m - j6]);
                assert(t[m] == l5s[i + m - j6]);
            }
        }
    }
}

/// A parsed `delete` command is the only text it could have been.
#[verifier::rlimit(60)]
proof fn lemma_parse_delete_sound(s: Seq<char>, i: int)
    requires
        0 <= i <= s.len(),
        spec_parse_delete(s, i) is Some,
    ensures
        ({
            let (c, j) = spec_parse_delete(s, i)->Some_0;
            &&& c is Delete
            &&& i < j <= s.len()
            &&& j == i + spec_ser_inner(c).len()
            &&& s.subrange(i, j) =~= spec_ser_inner(c)
        }),
{
    let l1s = "\"delete\":{\"id\":\""@;
    let l5s = "\"}"@;
    let j1 = spec_expect(s, i, l1s)->Some_0;
    let (idv, j2) = spec_parse_uuid(s, j1)->Some_0;
    crate::ident::lemma_parse_uuid_sound(s, j1);
    crate::ident::lemma_ser_uuid_len(idv as u128);
    let j3 = spec_expect(s, j2, l5s)->Some_0;
    let c = spec_parse_delete(s, i)->Some_0.0;
    let f4 = spec_ser_uuid(idv as u128);
    let q1 = l1s;
    let q2 = q1 + f4;
    let t = spec_ser_inner(c);
    assert(t == q2 + l5s);
    assert(s.subrange(i, j3) =~= t) by {
        assert forall|m: int| 0 <= m < j3 - i implies s.subrange(i, j3)[m] == t[m] by {
            assert(s.subrange(i, j3)[m] == s[i + m]);
            if m < j1 - i {
                assert(s[i + m] == s.subrange(i, j1)[m]);
                assert(t[m] == q2[m]);
                assert(q2[m] == q1[m]);
            } else if m < j2 - i {
                assert(s[i + m] == s.subrange(j1, j2)[i + m - j1]);
                assert(t[m] == q2[m]);
                assert(q2[m] == f4[i + m - j1]);
            } else {
                assert(s[i + m] == s.subrange(j2, j3)[i + m - j2]);
                assert(t[m] == l5s[i + m - j2]);
            }
        }
    }
}

/// A parsed command is the only text it could have been: the characters
/// consumed are exactly the command's canonical key and fields.
proof fn lemma_parse_inner_sound(s: Seq<char>, i: int)
    requires
        0 <= i <= s.len(),
        spec_parse_inner(s, i) is Some,
    ensures
        ({
            let (c, j) = spec_parse_inner(s, i)->Some_0;
            &&& i < j <= s.len()
            &&& j == i + spec_ser_inner(c).len()
            &&& s.subrange(i, j) =~= spec_ser_inner(c)
        }),
{
    if spec_parse_create(s, i) is Some {
        lemma_parse_create_sound(s, i);
    } else if spec_parse_modify(s, i) is Some {
        lemma_parse_modify_sound(s, i);
    } else if spec_parse_delete(s, i) is Some {
        lemma_parse_delete_sound(s, i);
    } else {
        reveal_strlit("\"status\":{}");
    }
}

/// Round trip: parsing a serialized envelope yields the original command,
/// timestamp and signature. Canonical text is also byte-stable: it is a
/// function of the envelope alone, so any two serializations of one
/// envelope are equal.
#[verifier::rlimit(100)]
pub proof fn lemma_envelope_round_trip(c: Command, ts: Option<u64>, sig: Option<Seq<u8>>)
    requires
        match sig {
            Some(b) => b.len() == 96,
            None => true,
        },
    ensures
        spec_parse_envelope(spec_ser_envelope(c, ts, sig)) == Some((c, ts, sig)),
{
    reveal_strlit(",\"timestamp\":");
    reveal_strlit(",\"signature\":\"");
    let lts = ",\"timestamp\":"@;
    let lsig = ",\"signature\":\""@;
    let s = spec_ser_envelope(c, ts, sig);
    let inner = spec_ser_inner(c);
    let tss = match ts {
        Some(t) => lts + spec_num_chars(t as nat, 10),
        None => Seq::<char>::empty(),
    };
    let sgs = match sig {
        Some(b) => lsig + spec_hex_of_bytes(b) + seq!['"'],
        None => Seq::<char>::empty(),
    };
    let a1 = seq!['{'] + inner;
    let a2 = a1 + tss;
    let a3 = a2 + sgs;
    assert(s == a3 + seq!['}']);
    if sig is Some {
        lemma_hex_of_bytes_len(sig->Some_0);
    }
    let li = inner.len() as int;
    let jin = 1 + li;
    assert(s[0] == '{') by {
        assert(s[0] == a3[0]);
        assert(a3[0] == a2[0]);
        assert(a2[0] == a1[0]);
    }
    assert(s.subrange(1, 1 + li) =~= inner) by {
        assert forall|k: int| 0 <= k < li implies s[1 + k] == inner[k] by {
            assert(s[1 + k] == a3[1 + k]);
            assert(a3[1 + k] == a2[1 + k]);
            assert(a2[1 + k] == a1[1 + k]);
            assert(a1[1 + k] == inner[k]);
        }
    }
    lemma_parse_inner_of_ser(s, 1, c);
    // The timestamp field.
    let j2: int = match ts {
        Some(t) => {
            let ft = spec_num_chars(t as nat, 10);
            assert(s.subrange(jin, jin + lts.len() as int) =~= lts) by {
                assert forall|k: int| 0 <= k < lts.len() implies s[jin + k] == lts[k] by {
                    assert(s[jin + k] == a3[jin + k]);
                    assert(a3[jin + k] == a2[jin + k]);
                    assert(a2[jin + k] == tss[li + 1 + k - jin + k - k]);
                    assert(tss[k] == lts[k]);
                }
            }
            let ot = jin + lts.len() as int;
            assert(s.subrange(ot, ot + ft.len() as int) =~= ft) by {
                assert forall|k: int| 0 <= k < ft.len() implies s[ot + k] == ft[k] by {
                    assert(s[ot + k] == a3[ot + k]);
                    assert(a3[ot + k] == a2[ot + k]);
                    assert(a2[ot + k] == tss[ot - jin + k]);
                    assert(tss[ot - jin + k] == ft[k]);
                }
            }
            assert(!is_radix_digit(s[ot + ft.len() as int], 10)) by {
                let x = ot + ft.len() as int;
                match sig {
                    Some(b) => {
                        assert(s[x] == a3[x]);
                        assert(a3[x] == sgs[0]);
                        assert(sgs[0] == lsig[0]);
                    },
                    None => {
                        assert(x == a3.len());
                        assert(s[x] == (a3 + seq!['}'])[x]);
                        assert(s[x] == '}');
                    },
                }
            }
            lemma_parse_of_num_chars(s, ot, t as nat, 10, 0xffffffffffffffff);
            ot + ft.len() as int
        },
        None => {
            assert(spec_expect(s, jin, lts) is None) by {
                if spec_expect(s, jin, lts) is Some {
                    match sig {
                        Some(b) => {
                            assert(s.subrange(jin, jin + lts.len() as int)[2] == s[jin + 2]);
                            assert(s[jin + 2] == a3[jin + 2]);
                            assert(a3[jin + 2] == sgs[2]);
                            assert(sgs[2] == (lsig + spec_hex_of_bytes(b))[2]);
                            assert(sgs[2] == lsig[2]);
                            assert(lts[2] != lsig[2]);
                        },
                        None => {
                            assert(s.len() == jin + 1);
                        },
                    }
                }
            }
            jin
        },
    };
    // The signature field.
    let j3: int = match sig {
        Some(b) => {
            let fh = spec_hex_of_bytes(b);
            assert(s.subrange(j2, j2 + lsig.len() as int) =~= lsig) by {
                assert forall|k: int| 0 <= k < lsig.len() implies s[j2 + k] == lsig[k] by {
                    assert(s[j2 + k] == a3[j2 + k]);
                    assert(a3[j2 + k] == sgs[j2 - (a2.len() as int) + k]);
                    assert(sgs[k] == (lsig + fh)[k]);
                    assert(sgs[k] == lsig[k]);
                }
            }
            let oh = j2 + lsig.len() as int;
            assert(s.subrange(oh, oh + 192) =~= fh) by {
                assert forall|k: int| 0 <= k < 192 implies s[oh + k] == fh[k] by {
                    assert(s[oh + k] == a3[oh + k]);
                    assert(a3[oh + k] == sgs[oh - (a2.len() as int) + k]);
                    assert(sgs[lsig.len() + k] == (lsig + fh)[lsig.len() + k]);
                    assert((lsig + fh)[lsig.len() + k] == fh[k]);
                }
            }
            lemma_parse_of_hex_bytes(s, oh, b);
            assert(s[oh + 192] == '"') by {
                assert(s[oh + 192] == a3[oh + 192]);
                assert(a3[oh + 192] == sgs[oh + 192 - (a2.len() as int)]);
                assert(sgs[sgs.len() - 1] == '"');
            }
            oh + 193
        },
        None => {
            assert(spec_expect(s, j2, lsig) is None) by {
                if spec_expect(s, j2, lsig) is Some {
                    assert(s.len() == j2 + 1);
                }
            }
            j2
        },
    };
    assert(j3 == s.len() - 1);
    assert(s[j3] == '}') by {
        assert(s[j3] == (a3 + seq!['}'])[j3]);
    }
}

/// The parser accepts only canonical text: when a whole envelope parses,
/// its text is exactly the canonical serialization of what was parsed, and
/// the parsed signature, if any, holds 96 bytes. Together with the round
/// trip this pins the wire form completely.
#[verifier::rlimit(100)]
pub proof fn lemma_parse_envelope_sound(s: Seq<char>)
    requires
        spec_parse_envelope(s) is Some,
    ensures
        ({
            let (c, ts, sg) = spec_parse_envelope(s)->Some_0;
            &&& s =~= spec_ser_envelope(c, ts, sg)
            &&& match sg {
                Some(b) => b.len() == 96,
                None => true,
            }
        }),
{
    reveal_strlit(",\"timestamp\":");
    reveal_strlit(",\"signature\":\"");
    let lts = ",\"timestamp\":"@;
    let lsig = ",\"signature\":\""@;
    let (c, ts, sg) = spec_parse_envelope(s)->Some_0;
    let (ci, j) = spec_parse_inner(s, 1)->Some_0;
    lemma_parse_inner_sound(s, 1);
    let inner = spec_ser_inner(ci);
    let li = inner.len() as int;
    let j2: int = match spec_expect(s, j, lts) {
        Some(ja) => spec_parse_num(s, ja, 10, 0xffffffffffffffff)->Some_0.1,
        None => j,
    };
    if spec_expect(s, j, lts) is Some {
        lemma_parse_num_sound(s, spec_expect(s, j, lts)->Some_0, 10, 0xffffffffffffffff);
    }
    let j3: int = match spec_expect(s, j2, lsig) {
        Some(ja) => ja + 193,
        None => j2,
    };
    if spec_expect(s, j2, lsig) is Some {
        lemma_parse_hex_bytes_sound(s, spec_expect(s, j2, lsig)->Some_0, 96);
    }
    let tss = match ts {
        Some(t) => lts + spec_num_chars(t as nat, 10),
        None => Seq::<char>::empty(),
    };
    let sgs = match sg {
        Some(b) => lsig + spec_hex_of_bytes(b) + seq!['"'],
        None => Seq::<char>::empty(),
    };
    if sg is Some {
        lemma_hex_of_bytes_len(sg->Some_0);
    }
    let a1 = seq!['{'] + inner;
    let a2 = a1 + tss;
    let a3 = a2 + sgs;
    let t = spec_ser_envelope(c, ts, sg);
    assert(t == a3 + seq!['}']);
    assert(s.len() == j3 + 1);
    assert(j2 - j == tss.len());
    assert(j3 - j2 == sgs.len());
    assert(s =~= t) by {
        assert forall|m: int| 0 <= m < s.len() implies s[m] == t[m] by {
            if m == 0 {
                assert(t[0] == a3[0]);
                assert(a3[0] == a2[0]);
                assert(a2[0] == a1[0]);
            } else if m < j {
                assert(s[m] == s.subrange(1, j)[m - 1]);
                assert(t[m] == a3[m]);
                assert(a3[m] == a2[m]);
                assert(a2[m] == a1[m]);
                assert(a1[m] == inner[m - 1]);
            } else if m < j2 {
                let ja = spec_expect(s, j, lts)->Some_0;
                let ft = spec_num_chars(ts->Some_0 as nat, 10);
                assert(t[m] == a3[m]);
                assert(a3[m] == a2[m]);
                assert(a2[m] == tss[m - j]);
                if m < ja {
                    assert(s[m] == s.subrange(j, ja)[m - j]);
                    assert(tss[m - j] == lts[m - j]);
                } else {
                    assert(s[m] == s.subrange(ja, j2)[m - ja]);
                    assert(s.subrange(ja, j2) =~= ft);
                    assert(tss[m - j] == ft[m - j - 13]);
                }
            } else if m < j3 {
                let ja = spec_expect(s, j2, lsig)->Some_0;
                let fh = spec_hex_of_bytes(sg->Some_0);
                assert(t[m] == a3[m]);
                assert(a3[m] == sgs[m - j2]);
                if m < ja {
                    assert(s[m] == s.subrange(j2, ja)[m - j2]);
                    assert(sgs[m - j2] == (lsig + fh)[m - j2]);
                    assert(sgs[m - j2] == lsig[m - j2]);
                } else if m < ja + 192 {
                    assert(s[m] == s.subrange(ja, ja + 192)[m - ja]);
                    assert(s.subrange(ja, ja + 192) =~= fh);
                    assert(sgs[m - j2] == (lsig + fh)[m - j2]);
                    assert(sgs[m - j2] == fh[m - ja]);
                } else {
                    assert(m == ja + 192);
                    assert(s[m] == '"');
                    assert(sgs[sgs.len() - 1] == '"');
                }
            } else {
                assert(m == j3);
                assert(s[m] == '}');
                assert(t[m] == (a3 + seq!['}'])[a3.len() as int]);
            }
        }
    }
}

/// Canonical serialization is deterministic: any two texts that serialize
/// one command are the same text.
pub proof fn lemma_serialization_deterministic(c: Command, r1: Seq<char>, r2: Seq<char>)
    requires
        r1 == spec_ser_command(c),
        r2 == spec_ser_command(c),
    ensures
        r1 == r2,
{
}

} // verus!
