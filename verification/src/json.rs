//! Response envelopes and their byte-exact JSON rendering.

use crate::codec::dec_digits;
use crate::codec::push_dec_u64;
use crate::codec::push_str_bytes;
use crate::store::User;
use vstd::prelude::*;
use vstd::string::StringSliceAdditionalSpecFns;

verus! {

/// A bare envelope: a status text and its numeric code.
pub struct Response {
    pub status: String,
    pub code: u16,
}

/// An envelope carrying the rows of the users table.
pub struct ResponseWithData {
    pub status: String,
    pub code: u16,
    pub data: Vec<User>,
}

/// An envelope carrying an error message.
pub struct ResponseWithErrors {
    pub status: String,
    pub code: u16,
    pub errors: String,
}

/// The decimal rendering of a signed value: a minus sign before the digits
/// of its magnitude when negative.
pub open spec fn dec_i64(n: int) -> Seq<u8> {
    if n < 0 {
        ("-").spec_bytes() + dec_digits((-n) as nat)
    } else {
        dec_digits(n as nat)
    }
}

/// Appends the decimal rendering of `n` to `out`.
pub fn push_dec_i64(out: &mut Vec<u8>, n: i64)
    ensures
        final(out)@ == old(out)@ + dec_i64(n as int),
{
    if n < 0 {
        push_str_bytes(out, "-");
        let m: u64 = if n == i64::MIN {
            0x8000_0000_0000_0000u64
        } else {
            (-n) as u64
        };
        push_dec_u64(out, m);
        assert(out@ =~= old(out)@ + dec_i64(n as int));
    } else {
        push_dec_u64(out, n as u64);
    }
}

/// The lowercase hexadecimal digit for a value below 16.
pub open spec fn hex_digit(n: u8) -> u8 {
    if n < 10 {
        (n + 48) as u8
    } else {
        (n + 87) as u8
    }
}

/// How one byte of a JSON string is written: the quote and the backslash
/// get a backslash, control bytes become their short escape or `\u00xx`,
/// and every other byte stands as itself.
pub open spec fn esc_byte(b: u8) -> Seq<u8> {
    if b == 34 {
        ("\\\"").spec_bytes()
    } else if b == 92 {
        ("\\\\").spec_bytes()
    } else if b == 8 {
        ("\\b").spec_bytes()
    } else if b == 9 {
        ("\\t").spec_bytes()
    } else if b == 10 {
        ("\\n").spec_bytes()
    } else if b == 12 {
        ("\\f").spec_bytes()
    } else if b == 13 {
        ("\\r").spec_bytes()
    } else if b < 32 {
        ("\\u00").spec_bytes() + seq![hex_digit(b / 16), hex_digit(b % 16)]
    } else {
        seq![b]
    }
}

/// A whole byte string escaped for a JSON string literal.
pub open spec fn json_escaped(s: Seq<u8>) -> Seq<u8>
    decreases s.len(),
{
    if s.len() == 0 {
        Seq::empty()
    } else {
        json_escaped(s.drop_last()) + esc_byte(s.last())
    }
}

/// Appends `s` escaped for a JSON string literal to `out`.
pub fn push_json_escaped(out: &mut Vec<u8>, s: &[u8])
    ensures
        final(out)@ == old(out)@ + json_escaped(s@),
{
    let ghost out0 = out@;
    let n = s.len();
    let mut i: usize = 0;
    proof {
        assert(json_escaped(s@.take(0)) =~= Seq::<u8>::empty());
        assert(out@ =~= out0 + json_escaped(s@.take(0)));
    }
    while i < n
        invariant
            i <= n,
            n == s@.len(),
            out@ == out0 + json_escaped(s@.take(i as int)),
        decreases n - i,
    {
        let b = s[i];
        proof {
            assert(s@.take(i + 1).drop_last() =~= s@.take(i as int));
            assert(s@.take(i + 1).last() == s@[i as int]);
        }
        if b == 34 {
            push_str_bytes(out, "\\\"");
        } else if b == 92 {
            push_str_bytes(out, "\\\\");
        } else if b == 8 {
            push_str_bytes(out, "\\b");
        } else if b == 9 {
            push_str_bytes(out, "\\t");
        } else if b == 10 {
            push_str_bytes(out, "\\n");
        } else if b == 12 {
            push_str_bytes(out, "\\f");
        } else if b == 13 {
            push_str_bytes(out, "\\r");
        } else if b < 32 {
            push_str_bytes(out, "\\u00");
            let hi = b / 16;
            let lo = b % 16;
            out.push(if hi < 10 { hi + 48 } else { hi + 87 });
            out.push(if lo < 10 { lo + 48 } else { lo + 87 });
        } else {
            out.push(b);
        }
        proof {
            assert(out@ =~= out0 + json_escaped(s@.take(i + 1)));
        }
        i = i + 1;
    }
    proof {
        assert(s@.take(n as int) =~= s@);
    }
}

/// The JSON body of a bare envelope.
pub open spec fn spec_response_json(status: Seq<char>, code: nat) -> Seq<u8> {
    ("{\"status\":\"").spec_bytes() + json_escaped(vstd::utf8::encode_utf8(status)) + (
    "\",\"code\":").spec_bytes() + dec_digits(code) + ("}").spec_bytes()
}

/// Renders a bare envelope.
pub fn render_response(r: &Response) -> (out: Vec<u8>)
    ensures
        out@ == spec_response_json(r.status@, r.code as nat),
{
    let mut out: Vec<u8> = Vec::new();
    push_str_bytes(&mut out, "{\"status\":\"");
    push_json_escaped(&mut out, r.status.as_str().as_bytes());
    push_str_bytes(&mut out, "\",\"code\":");
    push_dec_u64(&mut out, r.code as u64);
    push_str_bytes(&mut out, "}");
    assert(out@ =~= spec_response_json(r.status@, r.code as nat));
    out
}

/// The JSON body of an error envelope.
pub open spec fn spec_error_json(status: Seq<char>, code: nat, errors: Seq<char>) -> Seq<u8> {
    ("{\"status\":\"").spec_bytes() + json_escaped(vstd::utf8::encode_utf8(status)) + (
    "\",\"code\":").spec_bytes() + dec_digits(code) + (",\"errors\":\"").spec_bytes()
        + json_escaped(vstd::utf8::encode_utf8(errors)) + ("\"}").spec_bytes()
}

/// Renders an error envelope.
pub fn render_response_with_errors(r: &ResponseWithErrors) -> (out: Vec<u8>)
    ensures
        out@ == spec_error_json(r.status@, r.code as nat, r.errors@),
{
    let mut out: Vec<u8> = Vec::new();
    push_str_bytes(&mut out, "{\"status\":\"");
    push_json_escaped(&mut out, r.status.as_str().as_bytes());
    push_str_bytes(&mut out, "\",\"code\":");
    push_dec_u64(&mut out, r.code as u64);
    push_str_bytes(&mut out, ",\"errors\":\"");
    push_json_escaped(&mut out, r.errors.as_str().as_bytes());
    push_str_bytes(&mut out, "\"}");
    assert(out@ =~= spec_error_json(r.status@, r.code as nat, r.errors@));
    out
}

/// The JSON object for one row.
pub open spec fn spec_user_json(u: User) -> Seq<u8> {
    ("{\"id\":").spec_bytes() + dec_i64(u.id as int) + (",\"name\":\"").spec_bytes()
        + json_escaped(vstd::utf8::encode_utf8(u.name@)) + ("\"}").spec_bytes()
}

/// The comma-separated JSON objects of the rows, in order.
pub open spec fn spec_users_json(users: Seq<User>) -> Seq<u8>
    decreases users.len(),
{
    if users.len() == 0 {
        Seq::empty()
    } else if users.len() == 1 {
        spec_user_json(users[0])
    } else {
        spec_users_json(users.drop_last()) + (",").spec_bytes() + spec_user_json(users.last())
    }
}

/// Appends the JSON object for one row to `out`.
fn push_user_json(out: &mut Vec<u8>, u: &User)
    ensures
        final(out)@ == old(out)@ + spec_user_json(*u),
{
    push_str_bytes(out, "{\"id\":");
    push_dec_i64(out, u.id);
    push_str_bytes(out, ",\"name\":\"");
    push_json_escaped(out, u.name.as_str().as_bytes());
    push_str_bytes(out, "\"}");
    assert(out@ =~= old(out)@ + spec_user_json(*u));
}

/// The JSON body of a data envelope.
pub open spec fn spec_data_json(status: Seq<char>, code: nat, users: Seq<User>) -> Seq<u8> {
    ("{\"status\":\"").spec_bytes() + json_escaped(vstd::utf8::encode_utf8(status)) + (
    "\",\"code\":").spec_bytes() + dec_digits(code) + (",\"data\":[").spec_bytes()
        + spec_users_json(users) + ("]}").spec_bytes()
}

/// Renders a data envelope's body from its parts, the rows by reference.
pub fn render_users_payload(status: &str, code: u16, users: &Vec<User>) -> (out: Vec<u8>)
    ensures
        out@ == spec_data_json(status@, code as nat, users@),
{
    let mut out: Vec<u8> = Vec::new();
    push_str_bytes(&mut out, "{\"status\":\"");
    push_json_escaped(&mut out, status.as_bytes());
    push_str_bytes(&mut out, "\",\"code\":");
    push_dec_u64(&mut out, code as u64);
    push_str_bytes(&mut out, ",\"data\":[");
    let ghost mid = out@;
    let n = users.len();
    let mut i: usize = 0;
    proof {
        assert(out@ =~= mid + spec_users_json(users@.take(0)));
    }
    while i < n
        invariant
            i <= n,
            n == users@.len(),
            out@ == mid + spec_users_json(users@.take(i as int)),
        decreases n - i,
    {
        proof {
            assert(users@.take(i + 1).drop_last() =~= users@.take(i as int));
            assert(users@.take(i + 1).last() == users@[i as int]);
        }
        if i > 0 {
            push_str_bytes(&mut out, ",");
        }
        push_user_json(&mut out, &users[i]);
        proof {
            if i == 0 {
                assert(users@.take(1).len() == 1);
                assert(users@.take(1)[0] == users@[0]);
                assert(out@ =~= mid + spec_users_json(users@.take(i + 1)));
            } else {
                assert(out@ =~= mid + spec_users_json(users@.take(i + 1)));
            }
        }
        i = i + 1;
    }
    proof {
        assert(users@.take(n as int) =~= users@);
    }
    push_str_bytes(&mut out, "]}");
    assert(out@ =~= spec_data_json(status@, code as nat, users@));
    out
}

/// Renders a data envelope.
pub fn render_response_with_data(r: &ResponseWithData) -> (out: Vec<u8>)
    ensures
        out@ == spec_data_json(r.status@, r.code as nat, r.data@),
{
    render_users_payload(r.status.as_str(), r.code, &r.data)
}

} // verus!
