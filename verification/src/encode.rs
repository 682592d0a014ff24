//! Encoding of host-to-worker request lines and of the status report.
//!
//! A request is one line of JSON text: the request's identifier, the
//! command's name (escaped as a JSON string), and optionally the caller's
//! arguments as pre-encoded JSON text.
use vstd::prelude::*;
use vstd::string::StrSliceExecFns;
use vstd::string::StringExecFns;

verus! {

/// The decimal digit character for one digit value.
pub open spec fn digit_char(d: nat) -> char {
    if d == 0 {
        '0'
    } else if d == 1 {
        '1'
    } else if d == 2 {
        '2'
    } else if d == 3 {
        '3'
    } else if d == 4 {
        '4'
    } else if d == 5 {
        '5'
    } else if d == 6 {
        '6'
    } else if d == 7 {
        '7'
    } else if d == 8 {
        '8'
    } else {
        '9'
    }
}

/// The decimal digits of a number, most significant first, no sign and no
/// leading zeros (a single zero for zero).
pub open spec fn dec_digits(n: nat) -> Seq<char>
    decreases n,
{
    if n < 10 {
        seq![digit_char(n)]
    } else {
        dec_digits(n / 10) + seq![digit_char(n % 10)]
    }
}

/// The lower-case hexadecimal digit character for one digit value.
pub open spec fn hex_char(d: nat) -> char {
    if d == 0 {
        '0'
    } else if d == 1 {
        '1'
    } else if d == 2 {
        '2'
    } else if d == 3 {
        '3'
    } else if d == 4 {
        '4'
    } else if d == 5 {
        '5'
    } else if d == 6 {
        '6'
    } else if d == 7 {
        '7'
    } else if d == 8 {
        '8'
    } else if d == 9 {
        '9'
    } else if d == 10 {
        'a'
    } else if d == 11 {
        'b'
    } else if d == 12 {
        'c'
    } else if d == 13 {
        'd'
    } else if d == 14 {
        'e'
    } else {
        'f'
    }
}

/// How one character appears inside a JSON string literal: quotes and
/// backslashes are escaped, the common control characters get their short
/// escapes, other control characters the `\u00..` form, and everything
/// else stands as itself.
pub open spec fn escape_char(c: char) -> Seq<char> {
    if c == '"' {
        seq!['\\', '"']
    } else if c == '\\' {
        seq!['\\', '\\']
    } else if c == '\n' {
        seq!['\\', 'n']
    } else if c == '\r' {
        seq!['\\', 'r']
    } else if c == '\t' {
        seq!['\\', 't']
    } else if (c as u32) < 32 {
        seq!['\\', 'u', '0', '0', hex_char((c as u32) as nat / 16), hex_char(
            (c as u32) as nat % 16,
        )]
    } else {
        seq![c]
    }
}

/// A whole string's characters, each escaped for a JSON string literal.
pub open spec fn escape_string(s: Seq<char>) -> Seq<char>
    decreases s.len(),
{
    if s.len() == 0 {
        Seq::empty()
    } else {
        escape_string(s.drop_last()) + escape_char(s.last())
    }
}

/// Relies on String::push: appends one character to the string.
#[verifier::external_body]
fn push_char(s: &mut String, c: char)
    ensures
        final(s)@ == old(s)@ + seq![c],
{
    s.push(c);
}

/// Appends one decimal digit character.
fn push_digit(s: &mut String, d: u64)
    requires
        d < 10,
    ensures
        final(s)@ == old(s)@ + seq![digit_char(d as nat)],
{
    let c: char = if d == 0 {
        '0'
    } else if d == 1 {
        '1'
    } else if d == 2 {
        '2'
    } else if d == 3 {
        '3'
    } else if d == 4 {
        '4'
    } else if d == 5 {
        '5'
    } else if d == 6 {
        '6'
    } else if d == 7 {
        '7'
    } else if d == 8 {
        '8'
    } else {
        '9'
    };
    push_char(s, c);
}

/// Appends one hexadecimal digit character.
fn push_hex(s: &mut String, d: u64)
    requires
        d < 16,
    ensures
        final(s)@ == old(s)@ + seq![hex_char(d as nat)],
{
    let c: char = if d == 0 {
        '0'
    } else if d == 1 {
        '1'
    } else if d == 2 {
        '2'
    } else if d == 3 {
        '3'
    } else if d == 4 {
        '4'
    } else if d == 5 {
        '5'
    } else if d == 6 {
        '6'
    } else if d == 7 {
        '7'
    } else if d == 8 {
        '8'
    } else if d == 9 {
        '9'
    } else if d == 10 {
        'a'
    } else if d == 11 {
        'b'
    } else if d == 12 {
        'c'
    } else if d == 13 {
        'd'
    } else if d == 14 {
        'e'
    } else {
        'f'
    };
    push_char(s, c);
}

/// Appends a number's decimal digits.
pub fn push_dec(s: &mut String, n: u64)
    ensures
        final(s)@ == old(s)@ + dec_digits(n as nat),
    decreases n,
{
    if n < 10 {
        push_digit(s, n);
    } else {
        push_dec(s, n / 10);
        push_digit(s, n % 10);
        proof {
            assert(old(s)@ + dec_digits((n / 10) as nat) + seq![digit_char((n % 10) as nat)]
                =~= old(s)@ + dec_digits(n as nat));
        }
    }
}

/// Appends one character in its JSON string-literal form.
fn push_escaped_char(out: &mut String, c: char)
    ensures
        final(out)@ == old(out)@ + escape_char(c),
{
    if c == '"' {
        out.append("\\\"");
        proof {
            reveal_strlit("\\\"");
            assert(old(out)@ + "\\\""@ =~= old(out)@ + escape_char(c));
        }
    } else if c == '\\' {
        out.append("\\\\");
        proof {
            reveal_strlit("\\\\");
            assert(old(out)@ + "\\\\"@ =~= old(out)@ + escape_char(c));
        }
    } else if c == '\n' {
        out.append("\\n");
        proof {
            reveal_strlit("\\n");
            assert(old(out)@ + "\\n"@ =~= old(out)@ + escape_char(c));
        }
    } else if c == '\r' {
        out.append("\\r");
        proof {
            reveal_strlit("\\r");
            assert(old(out)@ + "\\r"@ =~= old(out)@ + escape_char(c));
        }
    } else if c == '\t' {
        out.append("\\t");
        proof {
            reveal_strlit("\\t");
            assert(old(out)@ + "\\t"@ =~= old(out)@ + escape_char(c));
        }
    } else if (c as u32) < 32 {
        let ghost mid = old(out)@;
        out.append("\\u00");
        let code = c as u32;
        push_hex(out, (code / 16) as u64);
        push_hex(out, (code % 16) as u64);
        proof {
            reveal_strlit("\\u00");
            assert(mid + "\\u00"@ + seq![hex_char((code / 16) as nat)] + seq![
                hex_char((code % 16) as nat),
            ] =~= mid + escape_char(c));
        }
    } else {
        push_char(out, c);
        proof {
            assert(old(out)@ + seq![c] =~= old(out)@ + escape_char(c));
        }
    }
}

/// Appends a whole string in its JSON string-literal form.
pub fn append_escaped(out: &mut String, s: &str)
    ensures
        final(out)@ == old(out)@ + escape_string(s@),
{
    let n = s.unicode_len();
    proof {
        assert(escape_string(s@.take(0)) =~= Seq::<char>::empty());
        assert(out@ + escape_string(s@.take(0)) =~= out@);
    }
    for i in 0..n
        invariant
            n == s@.len(),
            out@ == old(out)@ + escape_string(s@.take(i as int)),
    {
        let c = s.get_char(i);
        push_escaped_char(out, c);
        proof {
            assert(s@.take(i + 1).drop_last() =~= s@.take(i as int));
            assert(s@.take(i + 1).last() == s@[i as int]);
            assert(old(out)@ + escape_string(s@.take(i as int)) + escape_char(s@[i as int])
                =~= old(out)@ + escape_string(s@.take(i + 1)));
        }
    }
    proof {
        assert(s@.take(n as int) =~= s@);
    }
}

/// Whether a line break hides in a string; such text cannot ride on a
/// line-oriented protocol.
pub open spec fn spec_has_line_break(s: Seq<char>) -> bool {
    exists|i: int| 0 <= i < s.len() && (s[i] == '\n' || s[i] == '\r')
}

/// Looks for a line break in a string.
pub fn has_line_break(s: &str) -> (r: bool)
    ensures
        r == spec_has_line_break(s@),
{
    let n = s.unicode_len();
    for i in 0..n
        invariant
            n == s@.len(),
            forall|k: int| 0 <= k < i ==> !(s@[k] == '\n' || s@[k] == '\r'),
    {
        let c = s.get_char(i);
        if c == '\n' || c == '\r' {
            return true;
        }
    }
    false
}

/// The one line that encodes a request: its identifier, its command name
/// escaped as a JSON string, and optionally its arguments as pre-encoded
/// JSON text.
pub open spec fn spec_request_line(id: u64, command: Seq<char>, args: Option<Seq<char>>) -> Seq<
    char,
> {
    "{\"id\":"@ + dec_digits(id as nat) + ",\"command\":\""@ + escape_string(command) + "\""@
        + (match args {
        Some(a) => ",\"args\":"@ + a,
        None => Seq::empty(),
    }) + "}"@
}

/// Encodes one request line.
pub fn encode_request(id: u64, command: &str, args: Option<&str>) -> (r: String)
    ensures
        r@ == spec_request_line(id, command@, match args {
            Some(a) => Some(a@),
            None => None,
        }),
{
    let mut out = String::new();
    out.append("{\"id\":");
    push_dec(&mut out, id);
    out.append(",\"command\":\"");
    append_escaped(&mut out, command);
    out.append("\"");
    match args {
        Some(a) => {
            out.append(",\"args\":");
            out.append(a);
        },
        None => {
        },
    }
    out.append("}");
    proof {
        let ghost argsv: Option<Seq<char>> = match args {
            Some(a) => Some(a@),
            None => None,
        };
        assert(out@ =~= spec_request_line(id, command@, argsv));
    }
    out
}

/// The status report the host shows for a worker that is not yet
/// connected: the device's name and address, and the fixed port and kind.
pub open spec fn spec_status_json(name: Seq<char>, ip: Seq<char>) -> Seq<char> {
    "{\"state\":\"disconnected\",\"device_name\":\""@ + escape_string(name)
        + "\",\"device_type\":\"laptop\",\"port\":52525,\"peer\":null,\"session_id\":null,\"local_info\":{\"name\":\""@
        + escape_string(name) + "\",\"type\":\"laptop\",\"ip\":\""@ + escape_string(ip)
        + "\",\"port\":52525}}"@
}

/// Encodes the status report for a worker that is not yet connected.
pub fn status_json(name: &str, ip: &str) -> (r: String)
    ensures
        r@ == spec_status_json(name@, ip@),
{
    let mut out = String::new();
    out.append("{\"state\":\"disconnected\",\"device_name\":\"");
    append_escaped(&mut out, name);
    out.append("\",\"device_type\":\"laptop\",\"port\":52525,\"peer\":null,\"session_id\":null,\"local_info\":{\"name\":\"");
    append_escaped(&mut out, name);
    out.append("\",\"type\":\"laptop\",\"ip\":\"");
    append_escaped(&mut out, ip);
    out.append("\",\"port\":52525}}");
    proof {
        assert(out@ =~= spec_status_json(name@, ip@));
    }
    out
}

} // verus!
