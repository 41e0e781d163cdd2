//! Writing text as the body of a JSON string.

use vstd::prelude::*;

verus! {

/// The lower-case hexadecimal digit for `d`, for `0 <= d < 16`.
pub open spec fn hex_digit(d: int) -> Seq<char> {
    if d == 0 {
        "0"@
    } else if d == 1 {
        "1"@
    } else if d == 2 {
        "2"@
    } else if d == 3 {
        "3"@
    } else if d == 4 {
        "4"@
    } else if d == 5 {
        "5"@
    } else if d == 6 {
        "6"@
    } else if d == 7 {
        "7"@
    } else if d == 8 {
        "8"@
    } else if d == 9 {
        "9"@
    } else if d == 10 {
        "a"@
    } else if d == 11 {
        "b"@
    } else if d == 12 {
        "c"@
    } else if d == 13 {
        "d"@
    } else if d == 14 {
        "e"@
    } else {
        "f"@
    }
}

/// How a character is written inside a JSON string: the quote and the
/// backslash behind a backslash, the control characters below U+0020 by their
/// short escapes where JSON has one and as `\u00XX` otherwise, every other
/// character as it is.
pub open spec fn escaped_char(c: char) -> Seq<char> {
    if c == '"' {
        "\\\""@
    } else if c == '\\' {
        "\\\\"@
    } else if c == '\n' {
        "\\n"@
    } else if c == '\r' {
        "\\r"@
    } else if c == '\t' {
        "\\t"@
    } else if c == '\u{8}' {
        "\\b"@
    } else if c == '\u{c}' {
        "\\f"@
    } else if ' ' > c {
        "\\u00"@ + hex_digit((c as u32) as int / 16) + hex_digit((c as u32) as int % 16)
    } else {
        seq![c]
    }
}

/// The text `s` written as the body of a JSON string, character by character.
pub open spec fn json_escaped(s: Seq<char>) -> Seq<char>
    decreases s.len(),
{
    if s.len() == 0 {
        Seq::empty()
    } else {
        json_escaped(s.drop_last()) + escaped_char(s.last())
    }
}

fn hex_digit_text(d: u32) -> (text: &'static str)
    requires
        d < 16,
    ensures
        text@ == hex_digit(d as int),
{
    if d == 0 {
        "0"
    } else if d == 1 {
        "1"
    } else if d == 2 {
        "2"
    } else if d == 3 {
        "3"
    } else if d == 4 {
        "4"
    } else if d == 5 {
        "5"
    } else if d == 6 {
        "6"
    } else if d == 7 {
        "7"
    } else if d == 8 {
        "8"
    } else if d == 9 {
        "9"
    } else if d == 10 {
        "a"
    } else if d == 11 {
        "b"
    } else if d == 12 {
        "c"
    } else if d == 13 {
        "d"
    } else if d == 14 {
        "e"
    } else {
        "f"
    }
}

/// The text `s` written as the body of a JSON string.
pub fn escape_json_string(s: &str) -> (body: String)
    ensures
        body@ == json_escaped(s@),
{
    let n = s.unicode_len();
    let mut body = String::new();
    let mut i: usize = 0;
    while i < n
        invariant
            i <= n,
            n == s@.len(),
            body@ == json_escaped(s@.take(i as int)),
        decreases n - i,
    {
        let c = s.get_char(i);
        let ghost before = body@;
        if c == '"' {
            body.append("\\\"");
        } else if c == '\\' {
            body.append("\\\\");
        } else if c == '\n' {
            body.append("\\n");
        } else if c == '\r' {
            body.append("\\r");
        } else if c == '\t' {
            body.append("\\t");
        } else if c == '\u{8}' {
            body.append("\\b");
        } else if c == '\u{c}' {
            body.append("\\f");
        } else if ' ' > c {
            body.append("\\u00");
            body.append(hex_digit_text((c as u32) / 16));
            body.append(hex_digit_text((c as u32) % 16));
        } else {
            let one = s.substring_char(i, i + 1);
            assert(one@ =~= seq![c]);
            body.append(one);
        }
        assert(body@ =~= before + escaped_char(c));
        assert(s@.take(i + 1).drop_last() =~= s@.take(i as int));
        i += 1;
    }
    assert(s@.take(n as int) =~= s@);
    body
}

/// The value of a hexadecimal digit, or -1 for another character.
pub open spec fn hex_value(c: char) -> int {
    if '0' <= c && c <= '9' {
        c as int - '0' as int
    } else if 'a' <= c && c <= 'f' {
        c as int - 'a' as int + 10
    } else if 'A' <= c && c <= 'F' {
        c as int - 'A' as int + 10
    } else {
        -1
    }
}

/// The character that a short escape `\e` stands for in a JSON string.
pub open spec fn short_escape_meaning(e: char) -> char {
    if e == 'n' {
        '\n'
    } else if e == 'r' {
        '\r'
    } else if e == 't' {
        '\t'
    } else if e == 'b' {
        '\u{8}'
    } else if e == 'f' {
        '\u{c}'
    } else {
        e
    }
}

/// Reads the body of a JSON string back into the text it stands for: a
/// backslash and `u` followed by four hexadecimal digits stand for the
/// character with that code, a backslash and another character for the
/// character that the short escape means (the character itself for `"`, `\`
/// and `/`), and every other character for itself.
pub open spec fn json_unescaped(body: Seq<char>) -> Seq<char>
    decreases body.len(),
{
    if body.len() == 0 {
        Seq::empty()
    } else if body[0] == '\\' && body.len() >= 6 && body[1] == 'u' {
        seq![
            (4096 * hex_value(body[2]) + 256 * hex_value(body[3]) + 16 * hex_value(body[4])
                + hex_value(body[5])) as char,
        ] + json_unescaped(body.skip(6))
    } else if body[0] == '\\' && body.len() >= 2 {
        seq![short_escape_meaning(body[1])] + json_unescaped(body.skip(2))
    } else {
        seq![body[0]] + json_unescaped(body.skip(1))
    }
}

proof fn lemma_escaped_concat(a: Seq<char>, b: Seq<char>)
    ensures
        json_escaped(a + b) == json_escaped(a) + json_escaped(b),
    decreases b.len(),
{
    if b.len() == 0 {
        assert(a + b =~= a);
        assert(json_escaped(a) + json_escaped(b) =~= json_escaped(a));
    } else {
        lemma_escaped_concat(a, b.drop_last());
        assert((a + b).drop_last() =~= a + b.drop_last());
        assert((a + b).last() == b.last());
        assert(json_escaped(a + b) =~= json_escaped(a) + json_escaped(b));
    }
}

proof fn lemma_unescape_after_char(c: char, rest: Seq<char>)
    ensures
        json_unescaped(escaped_char(c) + rest) == seq![c] + json_unescaped(rest),
{
    reveal_strlit("\\\"");
    reveal_strlit("\\\\");
    reveal_strlit("\\n");
    reveal_strlit("\\r");
    reveal_strlit("\\t");
    reveal_strlit("\\b");
    reveal_strlit("\\f");
    reveal_strlit("\\u00");
    reveal_strlit("0");
    reveal_strlit("1");
    reveal_strlit("2");
    reveal_strlit("3");
    reveal_strlit("4");
    reveal_strlit("5");
    reveal_strlit("6");
    reveal_strlit("7");
    reveal_strlit("8");
    reveal_strlit("9");
    reveal_strlit("a");
    reveal_strlit("b");
    reveal_strlit("c");
    reveal_strlit("d");
    reveal_strlit("e");
    reveal_strlit("f");
    let body = escaped_char(c) + rest;
    let n = escaped_char(c).len();
    assert(body.skip(n as int) =~= rest);
    if c != '"' && c != '\\' && c != '\n' && c != '\r' && c != '\t' && c != '\u{8}' && c
        != '\u{c}' && ' ' > c {
        let code = (c as u32) as int;
        let hi = code / 16;
        let lo = code % 16;
        assert(0 <= hi < 2);
        assert(0 <= lo < 16);
        assert(body[2] == '0' && body[3] == '0');
        assert(hex_value(body[4]) == hi);
        assert(hex_value(body[5]) == lo);
        assert(code as char == c);
    }
}

/// Writing a text as the body of a JSON string and reading the body back gives
/// the text itself; a text without quotes, backslashes and control characters
/// is written as it is.
pub proof fn lemma_escape_round_trip(s: Seq<char>)
    ensures
        json_unescaped(json_escaped(s)) == s,
        (forall|i: int|
            0 <= i < s.len() ==> (#[trigger] s[i]) >= ' ' && s[i] != '"' && s[i] != '\\')
            ==> json_escaped(s) == s,
    decreases s.len(),
{
    if s.len() > 0 {
        let rest = s.drop_first();
        assert(s =~= seq![s[0]] + rest);
        lemma_escaped_concat(seq![s[0]], rest);
        assert(seq![s[0]].drop_last() =~= Seq::<char>::empty());
        let one = seq![s[0]];
        assert(one.len() == 1 && one.last() == s[0]);
        assert(json_escaped(one.drop_last()) =~= Seq::<char>::empty());
        assert(json_escaped(one) =~= escaped_char(s[0]));
        lemma_unescape_after_char(s[0], json_escaped(rest));
        lemma_escape_round_trip(rest);
        if forall|i: int|
            0 <= i < s.len() ==> (#[trigger] s[i]) >= ' ' && s[i] != '"' && s[i] != '\\' {
            assert forall|i: int|
                0 <= i < rest.len() implies (#[trigger] rest[i]) >= ' ' && rest[i] != '"'
                && rest[i] != '\\' by {
                assert(rest[i] == s[i + 1]);
            }
            assert(s[0] >= ' ' && s[0] != '"' && s[0] != '\\');
            assert(escaped_char(s[0]) =~= seq![s[0]]);
            assert(json_escaped(rest) == rest);
            assert(json_escaped(s) =~= seq![s[0]] + rest);
        }
    }
}

} // verus!
