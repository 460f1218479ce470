//! The standalone HTML export: one self-contained file holding the viewer
//! and the documentation payload.
use vstd::prelude::*;
use crate::text::{
    chars_eq, chars_of, join, push_chars, push_str, replace_all, replace_all_exec, string_of,
};

verus! {

/// The languages the viewer ships.
pub open spec fn export_languages() -> Seq<Seq<char>> {
    seq!["en"@, "es"@, "it"@, "ja"@, "ko"@, "pt-BR"@, "zh-CN"@, "zh-TW"@]
}

/// The error for a language the viewer does not ship; it lists the valid
/// ones.
pub open spec fn unknown_language_message(lang: Seq<char>) -> Seq<char> {
    "Unknown language \""@ + lang + "\". Valid values: "@ + join(export_languages(), ", "@) + "."@
}

fn export_language_list() -> (r: Vec<Vec<char>>)
    ensures
        crate::text::views(r@) == export_languages(),
{
    let mut r: Vec<Vec<char>> = Vec::new();
    r.push(chars_of("en"));
    r.push(chars_of("es"));
    r.push(chars_of("it"));
    r.push(chars_of("ja"));
    r.push(chars_of("ko"));
    r.push(chars_of("pt-BR"));
    r.push(chars_of("zh-CN"));
    r.push(chars_of("zh-TW"));
    assert(crate::text::views(r@) =~= export_languages());
    r
}

/// `Ok` when the viewer ships `lang`, else the error that names it and
/// lists the valid languages.
pub fn check_language(lang: &str) -> (r: Result<(), String>)
    ensures
        r is Ok <==> export_languages().contains(lang@),
        r matches Err(e) ==> e@ == unknown_language_message(lang@),
{
    let langs = export_language_list();
    let lv = chars_of(lang);
    let n = langs.len();
    for i in 0..n
        invariant
            n == langs@.len(),
            lv@ == lang@,
            crate::text::views(langs@) == export_languages(),
            forall|j: int| 0 <= j < i ==> #[trigger] export_languages()[j] != lang@,
    {
        if chars_eq(&langs[i], &lv) {
            assert(export_languages()[i as int] == lang@);
            return Ok(());
        }
    }
    assert(!export_languages().contains(lang@)) by {
        if export_languages().contains(lang@) {
            let j = choose|j: int| 0 <= j < export_languages().len() && export_languages()[j] == lang@;
            assert(export_languages()[j] != lang@);
        }
    }
    let mut msg = chars_of("Unknown language \"");
    push_chars(&mut msg, &lv);
    push_str(&mut msg, "\". Valid values: ");
    let joined = crate::text::join_exec(&langs, ", ");
    push_chars(&mut msg, &joined);
    push_str(&mut msg, ".");
    Err(string_of(&msg))
}

/// Text escaped for HTML: `&`, `<`, `>` and `"` as entities.
pub open spec fn html_escape_spec(value: Seq<char>) -> Seq<char> {
    replace_all(
        replace_all(replace_all(replace_all(value, "&"@, "&amp;"@), "<"@, "&lt;"@), ">"@, "&gt;"@),
        "\""@,
        "&quot;"@,
    )
}

/// Text escaped for HTML: `&`, `<`, `>` and `"` as entities.
pub fn html_escape(value: &str) -> (r: String)
    ensures
        r@ == html_escape_spec(value@),
{
    proof {
        reveal_strlit("&");
        reveal_strlit("<");
        reveal_strlit(">");
        reveal_strlit("\"");
    }
    let v = chars_of(value);
    let a = replace_all_exec(&v, &chars_of("&"), &chars_of("&amp;"));
    let b = replace_all_exec(&a, &chars_of("<"), &chars_of("&lt;"));
    let c = replace_all_exec(&b, &chars_of(">"), &chars_of("&gt;"));
    let d = replace_all_exec(&c, &chars_of("\""), &chars_of("&quot;"));
    string_of(&d)
}

/// The base64 digit for a 6-bit value (RFC 4648 standard alphabet).
pub open spec fn b64_digit(i: int) -> char {
    if i < 26 {
        ((i + 65) as u8) as char
    } else if i < 52 {
        ((i - 26 + 97) as u8) as char
    } else if i < 62 {
        ((i - 52 + 48) as u8) as char
    } else if i == 62 {
        '+'
    } else {
        '/'
    }
}

/// Standard base64 with `=` padding (RFC 4648, section 4): each group of
/// three bytes becomes four digits; a final group of one or two bytes is
/// padded.
pub open spec fn base64_spec(d: Seq<u8>) -> Seq<char>
    decreases d.len(),
{
    if d.len() == 0 {
        Seq::empty()
    } else if d.len() == 1 {
        let a = d[0] as int;
        seq![b64_digit(a / 4), b64_digit((a % 4) * 16), '=', '=']
    } else if d.len() == 2 {
        let a = d[0] as int;
        let b = d[1] as int;
        seq![b64_digit(a / 4), b64_digit((a % 4) * 16 + b / 16), b64_digit((b % 16) * 4), '=']
    } else {
        let a = d[0] as int;
        let b = d[1] as int;
        let c = d[2] as int;
        seq![
            b64_digit(a / 4),
            b64_digit((a % 4) * 16 + b / 16),
            b64_digit((b % 16) * 4 + c / 64),
            b64_digit(c % 64),
        ] + base64_spec(d.skip(3))
    }
}

/// Calls `base64::Engine::encode` on the `STANDARD` engine of
/// `base64::engine::general_purpose`: the standard alphabet with `=`
/// padding, as `base64_spec` states. The call panics only when the encoded
/// length overflows `usize`, which `requires` rules out.
#[verifier::external_body]
fn encode_base64(data: &[u8]) -> (r: String)
    requires
        data@.len() / 3 * 4 + 4 <= usize::MAX,
    ensures
        r@ == base64_spec(data@),
{
    base64::Engine::encode(&base64::engine::general_purpose::STANDARD, data)
}

/// The HTML document: the shell with the escaped title, the stylesheet,
/// the base64 payload in its own script element, and the viewer script.
pub open spec fn export_html_spec(lang: Seq<char>, title: Seq<char>, encoded: Seq<char>, css: Seq<char>, js: Seq<char>) -> Seq<char> {
    "<!doctype html>\n<html lang=\""@ + lang
        + "\">\n<head>\n<meta charset=\"utf-8\">\n<meta name=\"viewport\" content=\"width=device-width, initial-scale=1\">\n<title>"@
        + title + "</title>\n<style>"@ + css + "</style>\n</head>\n<body>\n<div id=\"app\"></div>\n<script type=\"application/dbx-snapshot\">"@
        + encoded + "</script>\n<script>"@ + js + "</script>\n</body>\n</html>\n"@
}

/// Render the documentation as one self-contained HTML file.
///
/// `payload` is the serialized documentation (snapshot, annotations and
/// language); it travels base64-encoded, whose alphabet cannot contain `<`,
/// so no escaping rule exists to forget. `css` and `js` are the viewer
/// bundle.
pub fn to_standalone_html(project_name: &str, payload: &[u8], lang: &str, css: &str, js: &str) -> (r:
    Result<String, String>)
    requires
        payload@.len() / 3 * 4 + 4 <= usize::MAX,
    ensures
        r is Ok <==> export_languages().contains(lang@),
        r matches Err(e) ==> e@ == unknown_language_message(lang@),
        r matches Ok(html) ==> html@ == export_html_spec(
            lang@,
            html_escape_spec(project_name@),
            base64_spec(payload@),
            css@,
            js@,
        ),
{
    match check_language(lang) {
        Err(e) => {
            return Err(e);
        },
        Ok(()) => {},
    }
    let encoded = encode_base64(payload);
    let title = html_escape(project_name);
    let mut out = chars_of("<!doctype html>\n<html lang=\"");
    push_str(&mut out, lang);
    push_str(
        &mut out,
        "\">\n<head>\n<meta charset=\"utf-8\">\n<meta name=\"viewport\" content=\"width=device-width, initial-scale=1\">\n<title>",
    );
    push_str(&mut out, title.as_str());
    push_str(&mut out, "</title>\n<style>");
    push_str(&mut out, css);
    push_str(
        &mut out,
        "</style>\n</head>\n<body>\n<div id=\"app\"></div>\n<script type=\"application/dbx-snapshot\">",
    );
    push_str(&mut out, encoded.as_str());
    push_str(&mut out, "</script>\n<script>");
    push_str(&mut out, js);
    push_str(&mut out, "</script>\n</body>\n</html>\n");
    Ok(string_of(&out))
}

proof fn lemma_replace_single_lacks(s: Seq<char>, p: Seq<char>, r: Seq<char>, d: char)
    requires
        p.len() == 1,
        !r.contains(d),
        p[0] == d || !s.contains(d),
    ensures
        !replace_all(s, p, r).contains(d),
    decreases s.len(),
{
    if s.len() > 0 {
        let w = s.drop_first();
        assert(!w.contains(d) || p[0] == d) by {
            if w.contains(d) && p[0] != d {
                let j = choose|j: int| 0 <= j < w.len() && w[j] == d;
                assert(s[j + 1] == d);
            }
        }
        lemma_replace_single_lacks(w, p, r, d);
        assert(s.skip(1) =~= w);
        let rest = replace_all(w, p, r);
        if s.subrange(0, 1) == p {
            let out = r + rest;
            assert(!out.contains(d)) by {
                if out.contains(d) {
                    let j = choose|j: int| 0 <= j < out.len() && out[j] == d;
                    if j < r.len() {
                        assert(r[j] == d);
                    } else {
                        assert(rest[j - r.len()] == d);
                    }
                }
            }
        } else {
            assert(s[0] != d) by {
                if s[0] == d {
                    assert(s.contains(d));
                    assert(s.subrange(0, 1) =~= p);
                }
            }
            let out = seq![s[0]] + rest;
            assert(!out.contains(d)) by {
                if out.contains(d) {
                    let j = choose|j: int| 0 <= j < out.len() && out[j] == d;
                    if j > 0 {
                        assert(rest[j - 1] == d);
                    }
                }
            }
        }
    }
}

/// Escaped text holds no `<`, `>` or `"`: the project name cannot open
/// markup in the exported page's title.
pub proof fn lemma_escaped_has_no_markup(v: Seq<char>)
    ensures
        !html_escape_spec(v).contains('<'),
        !html_escape_spec(v).contains('>'),
        !html_escape_spec(v).contains('"'),
{
    reveal_strlit("&");
    reveal_strlit("<");
    reveal_strlit(">");
    reveal_strlit("\"");
    reveal_strlit("&amp;");
    reveal_strlit("&lt;");
    reveal_strlit("&gt;");
    reveal_strlit("&quot;");
    let a = replace_all(v, "&"@, "&amp;"@);
    let b = replace_all(a, "<"@, "&lt;"@);
    let c = replace_all(b, ">"@, "&gt;"@);
    lemma_replace_single_lacks(a, "<"@, "&lt;"@, '<');
    lemma_replace_single_lacks(b, ">"@, "&gt;"@, '<');
    lemma_replace_single_lacks(b, ">"@, "&gt;"@, '>');
    lemma_replace_single_lacks(c, "\""@, "&quot;"@, '<');
    lemma_replace_single_lacks(c, "\""@, "&quot;"@, '>');
    lemma_replace_single_lacks(c, "\""@, "&quot;"@, '"');
}

/// A character of the standard base64 alphabet, or the `=` pad.
pub open spec fn is_base64_char(c: char) -> bool {
    ('A' <= c && c <= 'Z') || ('a' <= c && c <= 'z') || ('0' <= c && c <= '9') || c == '+' || c
        == '/' || c == '='
}

proof fn lemma_b64_digit(i: int)
    requires
        0 <= i < 64,
    ensures
        is_base64_char(b64_digit(i)),
{
}

/// Every character of an encoded payload is a base64 digit or `=`; in
/// particular none is `<`, so the payload can never close the script
/// element that holds it.
pub proof fn lemma_base64_alphabet(d: Seq<u8>)
    ensures
        forall|i: int| 0 <= i < base64_spec(d).len() ==> is_base64_char(#[trigger] base64_spec(d)[i]),
        !base64_spec(d).contains('<'),
    decreases d.len(),
{
    if d.len() > 0 {
        let a = d[0] as int;
        lemma_b64_digit(a / 4);
        if d.len() == 1 {
            lemma_b64_digit((a % 4) * 16);
        } else {
            let b = d[1] as int;
            lemma_b64_digit((a % 4) * 16 + b / 16);
            if d.len() == 2 {
                lemma_b64_digit((b % 16) * 4);
            } else {
                let c = d[2] as int;
                lemma_b64_digit((b % 16) * 4 + c / 64);
                lemma_b64_digit(c % 64);
                lemma_base64_alphabet(d.skip(3));
                let head = seq![
                    b64_digit(a / 4),
                    b64_digit((a % 4) * 16 + b / 16),
                    b64_digit((b % 16) * 4 + c / 64),
                    b64_digit(c % 64),
                ];
                let rest = base64_spec(d.skip(3));
                assert forall|i: int| 0 <= i < base64_spec(d).len() implies is_base64_char(
                    #[trigger] base64_spec(d)[i],
                ) by {
                    if i >= 4 {
                        assert(base64_spec(d)[i] == rest[i - 4]);
                    }
                }
            }
        }
    }
    if base64_spec(d).contains('<') {
        let j = choose|j: int| 0 <= j < base64_spec(d).len() && base64_spec(d)[j] == '<';
        assert(is_base64_char(base64_spec(d)[j]));
    }
}

/// In an exported page neither the title nor the payload can open or
/// close an element, and the payload decodes to exactly the bytes given.
pub proof fn lemma_export_is_inert(project_name: Seq<char>, payload: Seq<u8>)
    ensures
        !html_escape_spec(project_name).contains('<'),
        !html_escape_spec(project_name).contains('>'),
        !base64_spec(payload).contains('<'),
        base64_decode(base64_spec(payload)) == payload,
{
    lemma_escaped_has_no_markup(project_name);
    lemma_base64_alphabet(payload);
    lemma_base64_round_trip(payload);
}

/// The 6-bit value of a base64 digit.
pub open spec fn b64_value(c: char) -> int {
    if 'A' <= c && c <= 'Z' {
        c as int - 65
    } else if 'a' <= c && c <= 'z' {
        c as int - 71
    } else if '0' <= c && c <= '9' {
        c as int + 4
    } else if c == '+' {
        62
    } else {
        63
    }
}

/// Standard padded base64 decoding: each group of four digits gives three
/// bytes, a group ending in `=` or `==` gives two or one.
pub open spec fn base64_decode(s: Seq<char>) -> Seq<u8>
    decreases s.len(),
{
    if s.len() < 4 {
        Seq::empty()
    } else {
        let d0 = b64_value(s[0]);
        let d1 = b64_value(s[1]);
        let d2 = b64_value(s[2]);
        let d3 = b64_value(s[3]);
        let x = (d0 * 4 + d1 / 16) as u8;
        let y = ((d1 % 16) * 16 + d2 / 4) as u8;
        let z = ((d2 % 4) * 64 + d3) as u8;
        if s[2] == '=' {
            seq![x]
        } else if s[3] == '=' {
            seq![x, y]
        } else {
            seq![x, y, z] + base64_decode(s.skip(4))
        }
    }
}

proof fn lemma_b64_value(i: int)
    requires
        0 <= i < 64,
    ensures
        b64_value(b64_digit(i)) == i,
        b64_digit(i) != '=',
{
}

proof fn lemma_byte_split(a: int, b: int, c: int)
    requires
        0 <= a < 256,
        0 <= b < 256,
        0 <= c < 256,
    ensures
        0 <= a / 4 < 64,
        0 <= (a % 4) * 16 + b / 16 < 64,
        0 <= (b % 16) * 4 + c / 64 < 64,
        0 <= c % 64 < 64,
        0 <= (a % 4) * 16 < 64,
        0 <= (b % 16) * 4 < 64,
        (a / 4) * 4 + ((a % 4) * 16 + b / 16) / 16 == a,
        (((a % 4) * 16 + b / 16) % 16) * 16 + ((b % 16) * 4 + c / 64) / 4 == b,
        (((b % 16) * 4 + c / 64) % 4) * 64 + c % 64 == c,
        (a / 4) * 4 + ((a % 4) * 16) / 16 == a,
        (((a % 4) * 16 + b / 16) % 16) * 16 + ((b % 16) * 4) / 4 == b,
{
}

/// Decoding an encoded payload gives back exactly the payload: the page's
/// payload element carries the serialized documentation unchanged.
pub proof fn lemma_base64_round_trip(d: Seq<u8>)
    ensures
        base64_decode(base64_spec(d)) == d,
    decreases d.len(),
{
    if d.len() > 0 {
        let a = d[0] as int;
        let b = if d.len() > 1 { d[1] as int } else { 0 };
        let c = if d.len() > 2 { d[2] as int } else { 0 };
        lemma_byte_split(a, b, c);
        let s = base64_spec(d);
        lemma_b64_value(a / 4);
        if d.len() == 1 {
            lemma_b64_value((a % 4) * 16);
            assert(base64_decode(s) =~= d);
        } else if d.len() == 2 {
            lemma_b64_value((a % 4) * 16 + b / 16);
            lemma_b64_value((b % 16) * 4);
            assert(base64_decode(s) =~= d);
        } else {
            lemma_b64_value((a % 4) * 16 + b / 16);
            lemma_b64_value((b % 16) * 4 + c / 64);
            lemma_b64_value(c % 64);
            lemma_base64_round_trip(d.skip(3));
            assert(s.skip(4) =~= base64_spec(d.skip(3)));
            assert(base64_decode(s) =~= seq![d[0], d[1], d[2]] + d.skip(3));
            assert(seq![d[0], d[1], d[2]] + d.skip(3) =~= d);
        }
    }
}

} // verus!
