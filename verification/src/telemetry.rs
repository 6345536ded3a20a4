//! The telemetry journal's line format: one JSON object per event, with the
//! event's time, name and details as JSON strings.
use vstd::prelude::*;

use crate::text::{decimal, push_char, push_decimal, push_str};

verus! {

/// The lowercase hexadecimal digit of `n` (below 16).
pub open spec fn hex_digit(n: nat) -> char {
    if n == 0 {
        '0'
    } else if n == 1 {
        '1'
    } else if n == 2 {
        '2'
    } else if n == 3 {
        '3'
    } else if n == 4 {
        '4'
    } else if n == 5 {
        '5'
    } else if n == 6 {
        '6'
    } else if n == 7 {
        '7'
    } else if n == 8 {
        '8'
    } else if n == 9 {
        '9'
    } else if n == 10 {
        'a'
    } else if n == 11 {
        'b'
    } else if n == 12 {
        'c'
    } else if n == 13 {
        'd'
    } else if n == 14 {
        'e'
    } else {
        'f'
    }
}

/// How one character is written inside a JSON string: quotes, backslashes
/// and control characters are escaped, everything else stands as it is.
pub open spec fn json_char(c: char) -> Seq<char> {
    if c == '"' {
        seq!['\\', '"']
    } else if c == '\\' {
        seq!['\\', '\\']
    } else if c == '\n' {
        seq!['\\', 'n']
    } else if c == '\r' {
        seq!['\\', 'r']
    } else if c == '\t' {
        seq!['\\', 't']
    } else if (c as u32) < 0x20 {
        seq!['\\', 'u', '0', '0', hex_digit((c as u32 / 16) as nat), hex_digit((c as u32 % 16) as nat)]
    } else {
        seq![c]
    }
}

/// A text written as the inside of a JSON string.
pub open spec fn json_escaped(s: Seq<char>) -> Seq<char>
    decreases s.len(),
{
    if s.len() == 0 {
        seq![]
    } else {
        json_char(s[0]) + json_escaped(s.drop_first())
    }
}

/// The value of a hexadecimal digit.
pub open spec fn hex_value(c: char) -> nat {
    if '0' <= c && c <= '9' {
        (c as nat - '0' as nat) as nat
    } else if 'a' <= c && c <= 'f' {
        (c as nat - 'a' as nat + 10) as nat
    } else if 'A' <= c && c <= 'F' {
        (c as nat - 'A' as nat + 10) as nat
    } else {
        0
    }
}

/// The character a one-letter escape stands for.
pub open spec fn unescaped_char(e: char) -> char {
    if e == 'n' {
        '\n'
    } else if e == 'r' {
        '\r'
    } else if e == 't' {
        '\t'
    } else if e == 'b' {
        '\u{8}'
    } else if e == 'f' {
        '\u{c}'
    } else {
        e
    }
}

/// What a JSON reader makes of the inside of a string: each escape sequence
/// stands for the character it names (four-digit escapes of characters below
/// U+D800 only), every other character for itself.
pub open spec fn json_unescaped(s: Seq<char>) -> Seq<char>
    decreases s.len(),
{
    if s.len() == 0 {
        seq![]
    } else if s[0] == '\\' && s.len() >= 6 && s[1] == 'u' {
        let v = hex_value(s[2]) * 4096 + hex_value(s[3]) * 256 + hex_value(s[4]) * 16 + hex_value(
            s[5],
        );
        seq![(if v < 0xd800 {
            v
        } else {
            0xfffd
        }) as char] + json_unescaped(s.skip(6))
    } else if s[0] == '\\' && s.len() >= 2 {
        seq![unescaped_char(s[1])] + json_unescaped(s.skip(2))
    } else {
        seq![s[0]] + json_unescaped(s.drop_first())
    }
}

fn hex_digit_char(n: u32) -> (c: char)
    requires
        n < 16,
    ensures
        c == hex_digit(n as nat),
{
    if n == 0 {
        '0'
    } else if n == 1 {
        '1'
    } else if n == 2 {
        '2'
    } else if n == 3 {
        '3'
    } else if n == 4 {
        '4'
    } else if n == 5 {
        '5'
    } else if n == 6 {
        '6'
    } else if n == 7 {
        '7'
    } else if n == 8 {
        '8'
    } else if n == 9 {
        '9'
    } else if n == 10 {
        'a'
    } else if n == 11 {
        'b'
    } else if n == 12 {
        'c'
    } else if n == 13 {
        'd'
    } else if n == 14 {
        'e'
    } else {
        'f'
    }
}

proof fn lemma_json_escaped_push(s: Seq<char>, c: char)
    ensures
        json_escaped(s.push(c)) == json_escaped(s) + json_char(c),
    decreases s.len(),
{
    if s.len() == 0 {
        assert(seq![c].drop_first() =~= Seq::<char>::empty());
        assert(json_escaped(seq![c]) =~= json_char(c) + json_escaped(Seq::<char>::empty()));
        assert(s.push(c) =~= seq![c]);
        assert(json_escaped(s) + json_char(c) =~= json_char(c));
    } else {
        assert(s.push(c).drop_first() =~= s.drop_first().push(c));
        lemma_json_escaped_push(s.drop_first(), c);
        assert(json_escaped(s.push(c)) =~= json_escaped(s) + json_char(c));
    }
}

/// Appends one character as it is written inside a JSON string.
fn push_json_char(out: &mut String, c: char)
    ensures
        final(out)@ == old(out)@ + json_char(c),
{
    if c == '"' {
        push_char(out, '\\');
        push_char(out, '"');
    } else if c == '\\' {
        push_char(out, '\\');
        push_char(out, '\\');
    } else if c == '\n' {
        push_char(out, '\\');
        push_char(out, 'n');
    } else if c == '\r' {
        push_char(out, '\\');
        push_char(out, 'r');
    } else if c == '\t' {
        push_char(out, '\\');
        push_char(out, 't');
    } else if (c as u32) < 0x20 {
        push_char(out, '\\');
        push_char(out, 'u');
        push_char(out, '0');
        push_char(out, '0');
        push_char(out, hex_digit_char(c as u32 / 16));
        push_char(out, hex_digit_char(c as u32 % 16));
    } else {
        push_char(out, c);
    }
    assert(out@ =~= old(out)@ + json_char(c));
}

/// Appends a text as the inside of a JSON string.
pub fn push_json_escaped(out: &mut String, s: &str)
    ensures
        final(out)@ == old(out)@ + json_escaped(s@),
{
    let n = s.unicode_len();
    let mut i: usize = 0;
    assert(s@.take(0) =~= Seq::<char>::empty());
    assert(out@ =~= old(out)@ + json_escaped(s@.take(0)));
    while i < n
        invariant
            n == s@.len(),
            i <= n,
            out@ == old(out)@ + json_escaped(s@.take(i as int)),
        decreases n - i,
    {
        let c = s.get_char(i);
        push_json_char(out, c);
        proof {
            assert(s@.take(i as int).push(c) =~= s@.take(i + 1));
            lemma_json_escaped_push(s@.take(i as int), c);
        }
        assert(out@ =~= old(out)@ + json_escaped(s@.take(i + 1)));
        i = i + 1;
    }
    assert(s@.take(n as int) =~= s@);
}

/// The journal line of one event.
pub open spec fn telemetry_text(ts_us: u64, event: Seq<char>, details: Seq<char>) -> Seq<char> {
    "{\"ts_us\":"@ + decimal(ts_us as nat) + ",\"event\":\""@ + json_escaped(event)
        + "\",\"details\":\""@ + json_escaped(details) + "\"}"@
}

/// Renders the journal line of an event stamped `ts_us`.
pub fn telemetry_line(ts_us: u64, event: &str, details: &str) -> (line: String)
    ensures
        line@ == telemetry_text(ts_us, event@, details@),
{
    let mut line = String::new();
    push_str(&mut line, "{\"ts_us\":");
    push_decimal(&mut line, ts_us as u128);
    push_str(&mut line, ",\"event\":\"");
    push_json_escaped(&mut line, event);
    push_str(&mut line, "\",\"details\":\"");
    push_json_escaped(&mut line, details);
    push_str(&mut line, "\"}");
    assert(line@ =~= telemetry_text(ts_us, event@, details@));
    line
}

proof fn lemma_json_char_reads_back(c: char, rest: Seq<char>)
    ensures
        json_unescaped(json_char(c) + rest) == seq![c] + json_unescaped(rest),
{
    let t = json_char(c) + rest;
    if c == '"' || c == '\\' || c == '\n' || c == '\r' || c == '\t' {
        assert(t.skip(2) =~= rest);
    } else if (c as u32) < 0x20 {
        let hi = (c as u32 / 16) as nat;
        let lo = (c as u32 % 16) as nat;
        assert(hi <= 1);
        assert(hex_value(hex_digit(hi)) == hi);
        assert(hex_value(hex_digit(lo)) == lo);
        assert(hex_value('0') == 0);
        assert(t.skip(6) =~= rest);
        let v = hex_value(t[2]) * 4096 + hex_value(t[3]) * 256 + hex_value(t[4]) * 16 + hex_value(
            t[5],
        );
        assert(v == c as u32);
        assert((v as char) == c);
    } else {
        assert(t.drop_first() =~= rest);
    }
}

/// A JSON reader gives back exactly the text that was written into a journal
/// string.
pub proof fn lemma_json_escaped_reads_back(s: Seq<char>)
    ensures
        json_unescaped(json_escaped(s)) == s,
    decreases s.len(),
{
    if s.len() == 0 {
    } else {
        lemma_json_escaped_reads_back(s.drop_first());
        lemma_json_char_reads_back(s[0], json_escaped(s.drop_first()));
        assert(seq![s[0]] + s.drop_first() =~= s);
    }
}

} // verus!
