//! What the splash window is told while the backend starts: each progress
//! line, and the failure that ends a start. Both travel as scripts the
//! window evaluates, with the text inside a JSON string literal so quotes and
//! newlines in it cannot break out of the JavaScript string.

use vstd::prelude::*;
use serde_json::Error;

verus! {

#[verifier::external_type_specification]
#[verifier::external_body]
pub struct ExJsonError(Error);

/// The hexadecimal digit for `n`, lower case.
pub open spec fn hex_digit(n: int) -> char {
    seq!['0', '1', '2', '3', '4', '5', '6', '7', '8', '9', 'a', 'b', 'c', 'd', 'e', 'f'][n]
}

/// How `serde_json` writes the character `c` inside a string: `"` and `\`
/// escaped by a backslash, backspace, tab, line feed, form feed and carriage
/// return as `\b`, `\t`, `\n`, `\f`, `\r`, any other control character as
/// `\u00` and two hexadecimal digits, and everything else as it is.
pub open spec fn escape_char(c: char) -> Seq<char> {
    if c == '"' {
        seq!['\\', '"']
    } else if c == '\\' {
        seq!['\\', '\\']
    } else if c == '\u{8}' {
        seq!['\\', 'b']
    } else if c == '\t' {
        seq!['\\', 't']
    } else if c == '\n' {
        seq!['\\', 'n']
    } else if c == '\u{c}' {
        seq!['\\', 'f']
    } else if c == '\r' {
        seq!['\\', 'r']
    } else if (c as int) < 0x20 {
        seq!['\\', 'u', '0', '0', hex_digit((c as int) / 16), hex_digit((c as int) % 16)]
    } else {
        seq![c]
    }
}

/// The characters of `text`, each written as `escape_char` writes it.
pub open spec fn escaped(text: Seq<char>) -> Seq<char>
    decreases text.len(),
{
    if text.len() == 0 {
        Seq::empty()
    } else {
        escape_char(text[0]) + escaped(text.drop_first())
    }
}

/// The JSON string literal `serde_json` writes for `text`: the escaped
/// characters between double quotes.
pub open spec fn json_quoted(text: Seq<char>) -> Seq<char> {
    seq!['"'] + escaped(text) + seq!['"']
}

/// `serde_json::to_string` on a string slice. The contract claims that the
/// result is the literal `json_quoted` describes, as serde_json's source
/// writes it (`format_escaped_str` with its `ESCAPE` table), and that the
/// call does not fail: the only errors its source can raise come from the
/// writer, and it writes into a `Vec<u8>`.
#[verifier::external_body]
fn quote(text: &str) -> (r: Result<String, Error>)
    ensures
        r is Ok,
        r matches Ok(s) ==> s@ == json_quoted(text@),
{
    serde_json::to_string(text)
}

/// The script that shows one progress line in the splash window.
pub open spec fn progress_script_text(line: Seq<char>) -> Seq<char> {
    "window.dshProgress && window.dshProgress("@ + json_quoted(line) + ")"@
}

/// The script that shows a failed start in the splash window.
pub open spec fn failure_script_text(message: Seq<char>) -> Seq<char> {
    "window.dshShowError && window.dshShowError("@ + json_quoted(message) + ")"@
}

/// The script that shows `line` as progress, when the line could be quoted.
pub fn progress_script(line: &str) -> (r: Option<String>)
    ensures
        r matches Some(s) && s@ == progress_script_text(line@),
{
    match quote(line) {
        Ok(payload) => {
            let mut s = String::from_str("window.dshProgress && window.dshProgress(");
            s.append(payload.as_str());
            s.append(")");
            Some(s)
        },
        Err(_) => None,
    }
}

/// The script that shows `message` as the reason the start failed; should
/// the message not quote, a fixed one is shown in its place.
pub fn failure_script(message: &str) -> (r: String)
    ensures
        r@ == failure_script_text(message@),
{
    let payload = match quote(message) {
        Ok(p) => p,
        Err(_) => String::from_str("\"the backend failed to start\""),
    };
    let mut s = String::from_str("window.dshShowError && window.dshShowError(");
    s.append(payload.as_str());
    s.append(")");
    s
}

/// The log line recorded for a failed start.
pub fn failure_log_line(message: &str) -> (r: String)
    ensures
        r@ == "dsh-desktop: "@ + message@,
{
    let mut s = String::from_str("dsh-desktop: ");
    s.append(message);
    s
}

/// Where a JavaScript string that has just opened ends in `s`: the position
/// of the first double quote not escaped by a backslash, or the end of `s`.
pub open spec fn string_end(s: Seq<char>) -> int
    decreases s.len(),
{
    if s.len() == 0 {
        0
    } else if s[0] == '"' {
        0
    } else if s[0] == '\\' && s.len() >= 2 {
        2 + string_end(s.skip(2))
    } else {
        1 + string_end(s.skip(1))
    }
}

proof fn lemma_escape_is_skipped(c: char, rest: Seq<char>)
    ensures
        string_end(escape_char(c) + rest) == escape_char(c).len() + string_end(rest),
        !escape_char(c).contains('\n'),
        !escape_char(c).contains('\r'),
{
    let e = escape_char(c);
    let s = e + rest;
    if e.len() == 1 {
        assert(e[0] == c && c != '"' && c != '\\');
        assert(s[0] == c);
        assert(s.skip(1) =~= rest);
        assert(string_end(s) == 1 + string_end(s.skip(1)));
    } else if e.len() == 2 {
        assert(s[0] == '\\');
        assert(s.skip(2) =~= rest);
        assert(string_end(s) == 2 + string_end(s.skip(2)));
    } else {
        let h1 = hex_digit((c as int) / 16);
        let h2 = hex_digit((c as int) % 16);
        assert(0 <= (c as int) / 16 < 2);
        assert(0 <= (c as int) % 16 < 16);
        assert(h1 != '"' && h1 != '\\' && h2 != '"' && h2 != '\\');
        assert(s[0] == '\\');
        let s2 = s.skip(2);
        assert(s2 =~= seq!['0', '0', h1, h2] + rest);
        let s3 = s2.skip(1);
        let s4 = s3.skip(1);
        let s5 = s4.skip(1);
        let s6 = s5.skip(1);
        assert(s3 =~= seq!['0', h1, h2] + rest);
        assert(s4 =~= seq![h1, h2] + rest);
        assert(s5 =~= seq![h2] + rest);
        assert(s6 =~= rest);
        assert(string_end(s5) == 1 + string_end(s6));
        assert(string_end(s4) == 1 + string_end(s5));
        assert(string_end(s3) == 1 + string_end(s4));
        assert(string_end(s2) == 1 + string_end(s3));
        assert(string_end(s) == 2 + string_end(s2));
    }
    assert(!e.contains('\n')) by {
        if e.contains('\n') {
            let k = choose|k: int| 0 <= k < e.len() && e[k] == '\n';
            assert(e[k] == '\n');
        }
    }
    assert(!e.contains('\r')) by {
        if e.contains('\r') {
            let k = choose|k: int| 0 <= k < e.len() && e[k] == '\r';
            assert(e[k] == '\r');
        }
    }
}

proof fn lemma_escaped_is_skipped(text: Seq<char>, rest: Seq<char>)
    ensures
        string_end(escaped(text) + rest) == escaped(text).len() + string_end(rest),
        !escaped(text).contains('\n'),
        !escaped(text).contains('\r'),
    decreases text.len(),
{
    if text.len() == 0 {
        assert(escaped(text) + rest =~= rest);
    } else {
        let e = escape_char(text[0]);
        let t = escaped(text.drop_first());
        lemma_escaped_is_skipped(text.drop_first(), rest);
        lemma_escape_is_skipped(text[0], t + rest);
        assert(escaped(text) + rest =~= e + (t + rest));
        assert(!escaped(text).contains('\n')) by {
            if escaped(text).contains('\n') {
                let k = choose|k: int| 0 <= k < escaped(text).len() && escaped(text)[k] == '\n';
                if k < e.len() {
                    assert(e[k] == '\n');
                } else {
                    assert(t[k - e.len()] == '\n');
                }
            }
        }
        assert(!escaped(text).contains('\r')) by {
            if escaped(text).contains('\r') {
                let k = choose|k: int| 0 <= k < escaped(text).len() && escaped(text)[k] == '\r';
                if k < e.len() {
                    assert(e[k] == '\r');
                } else {
                    assert(t[k - e.len()] == '\r');
                }
            }
        }
    }
}

/// Whatever `text` holds, its JSON literal opens a string that ends exactly
/// at its last character and holds no line break: quotes and newlines in
/// the text cannot break out of the script's string.
pub proof fn lemma_quoted_text_stays_in_its_string(text: Seq<char>)
    ensures
        json_quoted(text)[0] == '"',
        string_end(json_quoted(text).skip(1)) == json_quoted(text).len() - 2,
        !json_quoted(text).contains('\n'),
        !json_quoted(text).contains('\r'),
{
    let q = json_quoted(text);
    let body = escaped(text);
    lemma_escaped_is_skipped(text, seq!['"']);
    assert(q.skip(1) =~= body + seq!['"']);
    assert(string_end(seq!['"']) == 0);
    assert(!q.contains('\n')) by {
        if q.contains('\n') {
            let k = choose|k: int| 0 <= k < q.len() && q[k] == '\n';
            if 0 < k < q.len() - 1 {
                assert(body[k - 1] == '\n');
            }
        }
    }
    assert(!q.contains('\r')) by {
        if q.contains('\r') {
            let k = choose|k: int| 0 <= k < q.len() && q[k] == '\r';
            if 0 < k < q.len() - 1 {
                assert(body[k - 1] == '\r');
            }
        }
    }
}

} // verus!
