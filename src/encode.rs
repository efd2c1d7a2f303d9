use vstd::prelude::*;
use vstd::string::StringExecFns;
use crate::comments::{Comment, CommentKind};

verus! {

/// The decimal digit `d` as a character.
pub open spec fn digit_char(d: nat) -> char {
    if d == 0 {
        '0'
    } else if d == 1 {
        '1'
    } else if d == 2 {
        '2'
    } else if d == 3 {
        '3'
    } else if d == 4 {
        '4'
    } else if d == 5 {
        '5'
    } else if d == 6 {
        '6'
    } else if d == 7 {
        '7'
    } else if d == 8 {
        '8'
    } else {
        '9'
    }
}

/// The decimal notation of `n`, without sign or leading zeros.
pub open spec fn decimal(n: nat) -> Seq<char>
    decreases n,
{
    if n < 10 {
        seq![digit_char(n)]
    } else {
        decimal(n / 10) + seq![digit_char(n % 10)]
    }
}

/// The lower-case hexadecimal digit `d`.
pub open spec fn hex_digit(d: nat) -> char {
    if d < 10 {
        digit_char(d)
    } else if d == 10 {
        'a'
    } else if d == 11 {
        'b'
    } else if d == 12 {
        'c'
    } else if d == 13 {
        'd'
    } else if d == 14 {
        'e'
    } else {
        'f'
    }
}

/// How one character stands inside a JSON string: quote, backslash and the
/// control characters below U+0020 are escaped, the short forms where JSON
/// has one and `\u00XX` otherwise; every other character stands as itself.
pub open spec fn escaped_char(c: char) -> Seq<char> {
    if c == '"' {
        seq!['\\', '"']
    } else if c == '\\' {
        seq!['\\', '\\']
    } else if c == '\u{8}' {
        seq!['\\', 'b']
    } else if c == '\u{c}' {
        seq!['\\', 'f']
    } else if c == '\n' {
        seq!['\\', 'n']
    } else if c == '\r' {
        seq!['\\', 'r']
    } else if c == '\t' {
        seq!['\\', 't']
    } else if (c as u32) < 0x20 {
        seq!['\\', 'u', '0', '0', hex_digit((c as u32) as nat / 16), hex_digit((c as u32) as nat % 16)]
    } else {
        seq![c]
    }
}

/// The JSON string literal, quotes and escapes included, that encodes `s`.
pub open spec fn json_string_of(s: Seq<char>) -> Seq<char> {
    seq!['"'] + s.map_values(|c: char| escaped_char(c)).flatten() + seq!['"']
}

/// The name a comment kind carries in the encoding.
pub open spec fn kind_name(k: CommentKind) -> Seq<char> {
    match k {
        CommentKind::Line => "line"@,
        CommentKind::Block => "block"@,
    }
}

/// One comment as a JSON object, its text already encoded as `quoted`.
pub open spec fn comment_json(c: Comment, quoted: Seq<char>) -> Seq<char> {
    "{\"span\":{\"start\":"@ + decimal(c.span.start as nat) + ",\"end\":"@ + decimal(
        c.span.end as nat,
    ) + "},\"kind\":\""@ + kind_name(c.kind) + "\",\"text\":"@ + quoted + "}"@
}

/// The first `n` comments as JSON objects, separated by commas.
pub open spec fn comment_items(cs: Seq<Comment>, quoted: Seq<Seq<char>>, n: nat) -> Seq<char>
    decreases n,
{
    if n == 0 {
        Seq::empty()
    } else if n == 1 {
        comment_json(cs[0], quoted[0])
    } else {
        comment_items(cs, quoted, (n - 1) as nat) + ","@ + comment_json(
            cs[n - 1],
            quoted[n - 1],
        )
    }
}

/// The comment list as a JSON array, the i-th text encoded as `quoted[i]`.
pub open spec fn comment_list_json(cs: Seq<Comment>, quoted: Seq<Seq<char>>) -> Seq<char> {
    "["@ + comment_items(cs, quoted, cs.len()) + "]"@
}

/// The comment list as a JSON array.
pub open spec fn comments_json(cs: Seq<Comment>) -> Seq<char> {
    comment_list_json(cs, cs.map_values(|c: Comment| json_string_of(c.text@)))
}

/// Relies on serde_json::to_string on a `str`: the JSON string literal of the
/// text, escaped by serde_json's table; writing into its in-memory buffer
/// cannot fail.
#[verifier::external_body]
fn quote_json(s: &str) -> (r: Result<String, serde_json::Error>)
    ensures
        r is Ok,
        r matches Ok(q) ==> q@ == json_string_of(s@),
{
    serde_json::to_string(s)
}

/// serde_json's error type, carried opaque out of `quote_json`.
#[verifier::external_type_specification]
#[verifier::external_body]
pub struct ExJsonError(serde_json::Error);

/// The digit `d` as a one-character string.
fn digit_str(d: u32) -> (r: &'static str)
    requires
        d < 10,
    ensures
        r@ == seq![digit_char(d as nat)],
{
    if d == 0 {
        proof { reveal_strlit("0"); }
        "0"
    } else if d == 1 {
        proof { reveal_strlit("1"); }
        "1"
    } else if d == 2 {
        proof { reveal_strlit("2"); }
        "2"
    } else if d == 3 {
        proof { reveal_strlit("3"); }
        "3"
    } else if d == 4 {
        proof { reveal_strlit("4"); }
        "4"
    } else if d == 5 {
        proof { reveal_strlit("5"); }
        "5"
    } else if d == 6 {
        proof { reveal_strlit("6"); }
        "6"
    } else if d == 7 {
        proof { reveal_strlit("7"); }
        "7"
    } else if d == 8 {
        proof { reveal_strlit("8"); }
        "8"
    } else {
        proof { reveal_strlit("9"); }
        "9"
    }
}

/// Appends the decimal notation of `n` to `out`.
pub fn write_decimal(out: &mut String, n: u32)
    ensures
        final(out)@ == old(out)@ + decimal(n as nat),
    decreases n,
{
    if n >= 10 {
        write_decimal(out, n / 10);
    }
    out.append(digit_str(n % 10));
    proof {
        if n >= 10 {
            assert(final(out)@ =~= old(out)@ + decimal(n as nat));
        }
    }
}

/// The decimal notation of `n`.
pub fn decimal_string(n: u32) -> (r: String)
    ensures
        r@ == decimal(n as nat),
{
    let mut out = String::new();
    write_decimal(&mut out, n);
    proof {
        assert(out@ =~= decimal(n as nat));
    }
    out
}

/// Appends one comment as a JSON object, its text already encoded as `quoted`.
fn write_comment(out: &mut String, c: &Comment, quoted: &String)
    ensures
        final(out)@ == old(out)@ + comment_json(*c, quoted@),
{
    out.append("{\"span\":{\"start\":");
    write_decimal(out, c.span.start);
    out.append(",\"end\":");
    write_decimal(out, c.span.end);
    out.append("},\"kind\":\"");
    match c.kind {
        CommentKind::Line => out.append("line"),
        CommentKind::Block => out.append("block"),
    }
    out.append("\",\"text\":");
    out.append(quoted.as_str());
    out.append("}");
    proof {
        assert(final(out)@ =~= old(out)@ + comment_json(*c, quoted@));
    }
}

/// Encodes the comment list as a JSON array, the i-th text given already
/// encoded as `quoted[i]`.
pub fn comments_json_with(cs: &Vec<Comment>, quoted: &Vec<String>) -> (r: String)
    requires
        cs@.len() == quoted@.len(),
    ensures
        r@ == comment_list_json(cs@, quoted@.map_values(|q: String| q@)),
{
    let ghost qs = quoted@.map_values(|q: String| q@);
    let mut out = String::from_str("[");
    let mut i: usize = 0;
    while i < cs.len()
        invariant
            i <= cs@.len(),
            cs@.len() == quoted@.len(),
            qs == quoted@.map_values(|q: String| q@),
            out@ == "["@ + comment_items(cs@, qs, i as nat),
        decreases cs@.len() - i,
    {
        let ghost prev = out@;
        if i > 0 {
            out.append(",");
        }
        write_comment(&mut out, &cs[i], &quoted[i]);
        proof {
            assert(qs[i as int] == quoted@[i as int]@);
            if i == 0 {
                assert(out@ =~= "["@ + comment_items(cs@, qs, 1));
            } else {
                assert(out@ =~= "["@ + comment_items(cs@, qs, (i + 1) as nat));
            }
        }
        i = i + 1;
    }
    out.append("]");
    out
}

/// Encodes the comment list as a JSON array of
/// `{"span":{"start":..,"end":..},"kind":"line"|"block","text":..}` objects,
/// in list order.
pub fn serialize_comments(cs: &Vec<Comment>) -> (r: String)
    ensures
        r@ == comments_json(cs@),
{
    let mut quoted: Vec<String> = Vec::new();
    let mut i: usize = 0;
    while i < cs.len()
        invariant
            i <= cs@.len(),
            quoted@.len() == i,
            forall|j: int| 0 <= j < i ==> quoted@[j]@ == json_string_of(cs@[j].text@),
        decreases cs@.len() - i,
    {
        match quote_json(cs[i].text.as_str()) {
            Ok(q) => quoted.push(q),
            Err(_) => {},
        }
        i = i + 1;
    }
    let r = comments_json_with(cs, &quoted);
    proof {
        assert(quoted@.map_values(|q: String| q@) =~= cs@.map_values(
            |c: Comment| json_string_of(c.text@),
        ));
    }
    r
}

} // verus!
