//! Rendering response frames as the JSON the protocol puts on the wire.
//! One frame per WebSocket message, discriminated by a "type" field.

use vstd::prelude::*;
use crate::protocol::{GrinboxError, GrinboxResponse};
use crate::utils::{hex_char_of, hex_char_exec, push_char};

verus! {

/// The escape of one character inside a JSON string.
pub open spec fn esc_char(c: char) -> Seq<char> {
    if c == '"' {
        seq!['\\', '"']
    } else if c == '\\' {
        seq!['\\', '\\']
    } else if c == '\u{8}' {
        seq!['\\', 'b']
    } else if c == '\t' {
        seq!['\\', 't']
    } else if c == '\n' {
        seq!['\\', 'n']
    } else if c == '\u{c}' {
        seq!['\\', 'f']
    } else if c == '\r' {
        seq!['\\', 'r']
    } else if (c as u32) < 32 {
        seq!['\\', 'u', '0', '0', hex_char_of(((c as u32) >> 4) as u8), hex_char_of(
            ((c as u32) & 15) as u8,
        )]
    } else {
        seq![c]
    }
}

/// A character sequence escaped for a JSON string body.
pub open spec fn json_escape(s: Seq<char>) -> Seq<char>
    decreases s.len(),
{
    if s.len() == 0 {
        Seq::empty()
    } else {
        json_escape(s.drop_last()) + esc_char(s.last())
    }
}

/// A JSON string: quotes around the escaped body.
pub open spec fn enc_str(s: Seq<char>) -> Seq<char> {
    seq!['"'] + json_escape(s) + seq!['"']
}

/// The wire word of an error kind.
pub open spec fn kind_str(k: GrinboxError) -> Seq<char> {
    match k {
        GrinboxError::UnknownError => "UnknownError"@,
        GrinboxError::InvalidRequest => "InvalidRequest"@,
        GrinboxError::InvalidSignature => "InvalidSignature"@,
        GrinboxError::InvalidChallenge => "InvalidChallenge"@,
        GrinboxError::TooManySubscriptions => "TooManySubscriptions"@,
        GrinboxError::InvalidRelayAbbr => "InvalidRelayAbbr"@,
        GrinboxError::Offline => "Offline"@,
    }
}

/// The comma-separated JSON strings of a list (meaningful when non-empty).
pub open spec fn enc_items(v: Seq<Seq<char>>) -> Seq<char>
    decreases v.len(),
{
    if v.len() == 0 {
        Seq::empty()
    } else if v.len() == 1 {
        enc_str(v[0])
    } else {
        enc_items(v.drop_last()) + seq![','] + enc_str(v.last())
    }
}

/// A JSON array of strings.
pub open spec fn enc_str_list(v: Seq<Seq<char>>) -> Seq<char> {
    seq!['['] + enc_items(v) + seq![']']
}

/// The JSON rendering of a response frame.
pub open spec fn spec_encode_response(r: GrinboxResponse) -> Seq<char> {
    match r {
        GrinboxResponse::Okay => "{\"type\":\"Ok\"}"@,
        GrinboxResponse::Error { kind, description } => "{\"type\":\"Error\",\"kind\":\""@
            + kind_str(kind) + "\",\"description\":"@ + enc_str(description@) + seq!['}'],
        GrinboxResponse::Challenge { str } => "{\"type\":\"Challenge\",\"str\":"@ + enc_str(str@)
            + seq!['}'],
        GrinboxResponse::Slate { from, str, signature, challenge } => "{\"type\":\"Slate\",\"from\":"@
            + enc_str(from@) + ",\"str\":"@ + enc_str(str@) + ",\"signature\":"@ + enc_str(
            signature@,
        ) + ",\"challenge\":"@ + enc_str(challenge@) + seq!['}'],
        GrinboxResponse::RelayAddr { abbr, relay_addr } => "{\"type\":\"RelayAddr\",\"abbr\":"@
            + enc_str(abbr@) + ",\"relay_addr\":"@ + enc_str_list(
            crate::directory::strs_view(relay_addr@),
        ) + seq!['}'],
    }
}

/// Append the escape of one character.
fn esc_push(out: &mut String, c: char)
    ensures
        final(out)@ == old(out)@ + esc_char(c),
{
    if c == '"' {
        push_char(out, '\\');
        push_char(out, '"');
    } else if c == '\\' {
        push_char(out, '\\');
        push_char(out, '\\');
    } else if c == '\u{8}' {
        push_char(out, '\\');
        push_char(out, 'b');
    } else if c == '\t' {
        push_char(out, '\\');
        push_char(out, 't');
    } else if c == '\n' {
        push_char(out, '\\');
        push_char(out, 'n');
    } else if c == '\u{c}' {
        push_char(out, '\\');
        push_char(out, 'f');
    } else if c == '\r' {
        push_char(out, '\\');
        push_char(out, 'r');
    } else if (c as u32) < 32 {
        let u = c as u32;
        push_char(out, '\\');
        push_char(out, 'u');
        push_char(out, '0');
        push_char(out, '0');
        proof {
            assert((u >> 5) == 0 ==> (u >> 4) < 16) by (bit_vector);
            assert(u < 32 ==> (u >> 4) < 16) by (bit_vector);
            assert((u & 15) < 16) by (bit_vector);
        }
        push_char(out, hex_char_exec((u >> 4) as u8));
        push_char(out, hex_char_exec((u & 15) as u8));
    } else {
        push_char(out, c);
    }
    proof {
        assert(out@ =~= old(out)@ + esc_char(c));
    }
}

/// Append a string's escaped body.
fn escape_into(out: &mut String, s: &str)
    ensures
        final(out)@ == old(out)@ + json_escape(s@),
{
    let n = s.unicode_len();
    let mut i: usize = 0;
    while i < n
        invariant
            i <= n == s@.len(),
            out@ =~= old(out)@ + json_escape(s@.take(i as int)),
        decreases n - i,
    {
        proof {
            assert(s@.take(i + 1 as int).drop_last() =~= s@.take(i as int));
            assert(s@.take(i + 1 as int).last() == s@[i as int]);
        }
        esc_push(out, s.get_char(i));
        i += 1;
    }
    proof {
        assert(s@.take(n as int) =~= s@);
    }
}

/// Append a JSON string.
fn enc_str_into(out: &mut String, s: &str)
    ensures
        final(out)@ == old(out)@ + enc_str(s@),
{
    push_char(out, '"');
    escape_into(out, s);
    push_char(out, '"');
    proof {
        assert(out@ =~= old(out)@ + enc_str(s@));
    }
}

/// Render a response frame as its JSON wire form.
pub fn encode_response(resp: &GrinboxResponse) -> (r: String)
    ensures
        r@ == spec_encode_response(*resp),
{
    let mut out = String::new();
    match resp {
        GrinboxResponse::Okay => {
            out.append("{\"type\":\"Ok\"}");
            proof {
                assert(out@ =~= spec_encode_response(*resp));
            }
        },
        GrinboxResponse::Error { kind, description } => {
            out.append("{\"type\":\"Error\",\"kind\":\"");
            match kind {
                GrinboxError::UnknownError => out.append("UnknownError"),
                GrinboxError::InvalidRequest => out.append("InvalidRequest"),
                GrinboxError::InvalidSignature => out.append("InvalidSignature"),
                GrinboxError::InvalidChallenge => out.append("InvalidChallenge"),
                GrinboxError::TooManySubscriptions => out.append("TooManySubscriptions"),
                GrinboxError::InvalidRelayAbbr => out.append("InvalidRelayAbbr"),
                GrinboxError::Offline => out.append("Offline"),
            }
            out.append("\",\"description\":");
            enc_str_into(&mut out, description.as_str());
            push_char(&mut out, '}');
            proof {
                assert(out@ =~= spec_encode_response(*resp));
            }
        },
        GrinboxResponse::Challenge { str } => {
            out.append("{\"type\":\"Challenge\",\"str\":");
            enc_str_into(&mut out, str.as_str());
            push_char(&mut out, '}');
            proof {
                assert(out@ =~= spec_encode_response(*resp));
            }
        },
        GrinboxResponse::Slate { from, str, signature, challenge } => {
            out.append("{\"type\":\"Slate\",\"from\":");
            enc_str_into(&mut out, from.as_str());
            out.append(",\"str\":");
            enc_str_into(&mut out, str.as_str());
            out.append(",\"signature\":");
            enc_str_into(&mut out, signature.as_str());
            out.append(",\"challenge\":");
            enc_str_into(&mut out, challenge.as_str());
            push_char(&mut out, '}');
            proof {
                assert(out@ =~= spec_encode_response(*resp));
            }
        },
        GrinboxResponse::RelayAddr { abbr, relay_addr } => {
            out.append("{\"type\":\"RelayAddr\",\"abbr\":");
            enc_str_into(&mut out, abbr.as_str());
            out.append(",\"relay_addr\":");
            push_char(&mut out, '[');
            let ghost base = out@;
            let n = relay_addr.len();
            let mut i: usize = 0;
            while i < n
                invariant
                    i <= n == relay_addr@.len(),
                    out@ =~= base + enc_items(
                        crate::directory::strs_view(relay_addr@.take(i as int)),
                    ),
                decreases n - i,
            {
                proof {
                    let pre = crate::directory::strs_view(relay_addr@.take(i as int));
                    let post = crate::directory::strs_view(relay_addr@.take(i + 1 as int));
                    assert(post.drop_last() =~= pre);
                    assert(post.last() == relay_addr@[i as int]@);
                }
                if i > 0 {
                    push_char(&mut out, ',');
                }
                enc_str_into(&mut out, relay_addr[i].as_str());
                proof {
                    assert(out@ =~= base + enc_items(
                        crate::directory::strs_view(relay_addr@.take(i + 1 as int)),
                    ));
                }
                i += 1;
            }
            proof {
                assert(relay_addr@.take(n as int) =~= relay_addr@);
            }
            push_char(&mut out, ']');
            push_char(&mut out, '}');
            proof {
                assert(out@ =~= spec_encode_response(*resp));
            }
        },
    }
    out
}

} // verus!
