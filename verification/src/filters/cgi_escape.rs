//! `cgi_escape`: Ruby `CGI.escape` over the UTF-8 bytes of a string.
use vstd::prelude::*;
use crate::bytes::{encode_char, utf8_bytes};
use crate::text::{chars_to_string, str_to_chars};

verus! {

/// Bytes that `CGI.escape` leaves as they are: ASCII letters, digits, `-`, `.`, `_`.
pub open spec fn is_unreserved(b: u8) -> bool {
    ||| (65 <= b && b <= 90)
    ||| (97 <= b && b <= 122)
    ||| (48 <= b && b <= 57)
    ||| b == 45
    ||| b == 46
    ||| b == 95
}

/// Upper-case hexadecimal digit of a nibble.
pub open spec fn hex_upper(n: u8) -> char {
    if n < 10 {
        (48 + n) as char
    } else {
        (55 + n) as char
    }
}

/// What one byte becomes: itself, `+` for a space, or `%XX`.
pub open spec fn escape_byte(b: u8) -> Seq<char> {
    if is_unreserved(b) {
        seq![b as char]
    } else if b == 32 {
        seq!['+']
    } else {
        seq!['%', hex_upper(b / 16), hex_upper(b % 16)]
    }
}

/// The escapes of a byte sequence, concatenated.
pub open spec fn escape_bytes(bs: Seq<u8>) -> Seq<char>
    decreases bs.len(),
{
    if bs.len() == 0 {
        Seq::empty()
    } else {
        escape_bytes(bs.drop_last()) + escape_byte(bs.last())
    }
}

/// `CGI.escape` of a string: the escapes of its UTF-8 bytes, in order.
pub open spec fn cgi_escaped(s: Seq<char>) -> Seq<char>
    decreases s.len(),
{
    if s.len() == 0 {
        Seq::empty()
    } else {
        cgi_escaped(s.drop_last()) + escape_bytes(utf8_bytes(s.last()))
    }
}

/// The characters `CGI.escape` writes: ASCII letters and digits, `-`, `.`,
/// `_`, `+` and `%`.
pub open spec fn cgi_safe(c: char) -> bool {
    ||| ('A' <= c && c <= 'Z')
    ||| ('a' <= c && c <= 'z')
    ||| ('0' <= c && c <= '9')
    ||| c == '-'
    ||| c == '.'
    ||| c == '_'
    ||| c == '+'
    ||| c == '%'
}

/// Every character of `s` is one `CGI.escape` writes.
pub open spec fn all_cgi_safe(s: Seq<char>) -> bool {
    forall|i: int| 0 <= i < s.len() ==> cgi_safe(#[trigger] s[i])
}

proof fn lemma_hex_upper_safe(n: u8)
    requires
        n < 16,
    ensures
        cgi_safe(hex_upper(n)),
{
    if n < 10 {
        assert(('0' <= (48 + n) as char) && ((48 + n) as char <= '9'));
    } else {
        assert(('A' <= (55 + n) as char) && ((55 + n) as char <= 'Z'));
    }
}

proof fn lemma_escape_byte_safe(b: u8)
    ensures
        all_cgi_safe(escape_byte(b)),
{
    if is_unreserved(b) {
        assert(cgi_safe(b as char));
    } else if b == 32 {
    } else {
        lemma_hex_upper_safe(b / 16);
        lemma_hex_upper_safe(b % 16);
    }
}

proof fn lemma_escape_bytes_safe(bs: Seq<u8>)
    ensures
        all_cgi_safe(escape_bytes(bs)),
    decreases bs.len(),
{
    if bs.len() > 0 {
        lemma_escape_bytes_safe(bs.drop_last());
        lemma_escape_byte_safe(bs.last());
        let a = escape_bytes(bs.drop_last());
        let b = escape_byte(bs.last());
        assert forall|i: int| 0 <= i < (a + b).len() implies cgi_safe(#[trigger] (a + b)[i]) by {
            if i < a.len() {
                assert((a + b)[i] == a[i]);
            } else {
                assert((a + b)[i] == b[i - a.len()]);
            }
        }
    }
}

/// `cgi_escape` writes only ASCII letters and digits, `-`, `.`, `_`, `+`
/// and `%`, whatever the input.
pub proof fn lemma_cgi_escaped_safe(s: Seq<char>)
    ensures
        all_cgi_safe(cgi_escaped(s)),
    decreases s.len(),
{
    if s.len() > 0 {
        lemma_cgi_escaped_safe(s.drop_last());
        lemma_escape_bytes_safe(utf8_bytes(s.last()));
        let a = cgi_escaped(s.drop_last());
        let b = escape_bytes(utf8_bytes(s.last()));
        assert forall|i: int| 0 <= i < (a + b).len() implies cgi_safe(#[trigger] (a + b)[i]) by {
            if i < a.len() {
                assert((a + b)[i] == a[i]);
            } else {
                assert((a + b)[i] == b[i - a.len()]);
            }
        }
    }
}

fn hex_digit_upper(n: u8) -> (c: char)
    requires
        n < 16,
    ensures
        c == hex_upper(n),
{
    if n < 10 {
        (48 + n) as char
    } else {
        (55 + n) as char
    }
}

fn push_escaped_byte(out: &mut Vec<char>, b: u8)
    ensures
        final(out)@ == old(out)@ + escape_byte(b),
{
    if (65 <= b && b <= 90) || (97 <= b && b <= 122) || (48 <= b && b <= 57) || b == 45 || b
        == 46 || b == 95 {
        out.push(b as char);
    } else if b == 32 {
        out.push('+');
    } else {
        out.push('%');
        out.push(hex_digit_upper(b / 16));
        out.push(hex_digit_upper(b % 16));
    }
    assert(final(out)@ =~= old(out)@ + escape_byte(b));
}

/// Encodes a string by Ruby's `CGI.escape` rules: letters, digits, `-`, `.`
/// and `_` stay, a space becomes `+`, every other byte becomes `%XX`.
pub fn cgi_escape_string(input: &str) -> (r: String)
    ensures
        r@ == cgi_escaped(input@),
{
    let chars = str_to_chars(input);
    let mut out: Vec<char> = Vec::new();
    let mut i: usize = 0;
    while i < chars.len()
        invariant
            i <= chars.len(),
            out@ == cgi_escaped(chars@.take(i as int)),
        decreases chars.len() - i,
    {
        let bytes = encode_char(chars[i]);
        let ghost before = out@;
        let mut j: usize = 0;
        while j < bytes.len()
            invariant
                j <= bytes.len(),
                out@ == before + escape_bytes(bytes@.take(j as int)),
            decreases bytes.len() - j,
        {
            push_escaped_byte(&mut out, bytes[j]);
            assert(bytes@.take(j + 1).drop_last() =~= bytes@.take(j as int));
            assert(out@ =~= before + escape_bytes(bytes@.take(j + 1)));
            j += 1;
        }
        assert(bytes@.take(bytes.len() as int) =~= bytes@);
        assert(chars@.take(i + 1).drop_last() =~= chars@.take(i as int));
        i += 1;
    }
    assert(chars@.take(chars.len() as int) =~= chars@);
    chars_to_string(&out)
}

/// The `cgi_escape` filter.
pub struct CgiEscape;

impl CgiEscape {
    /// Applies the filter to the rendered input.
    pub fn evaluate(&self, input: &str) -> (r: String)
        ensures
            r@ == cgi_escaped(input@),
    {
        cgi_escape_string(input)
    }
}

} // verus!
