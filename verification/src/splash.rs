//! Splash-screen rendering: escapes status text for HTML, wraps it in the
//! splash page template, and packs the page into a base64 data URL that a
//! webview can navigate to.

use vstd::prelude::*;

verus! {

use crate::text::chars_to_string;
use crate::text::str_chars;
use vstd::string::StrSliceExecFns;
use vstd::string::StringExecFns;
use vstd::utf8::encode_utf8;

/// The standard-alphabet, padded base64 rendering of a byte sequence.
pub uninterp spec fn base64_of(bytes: Seq<u8>) -> Seq<char>;

/// Upper bound on the byte size of a page handed to the base64 encoder,
/// so that the encoded length fits the machine word.
pub const SPLASH_MAX_BYTES: u64 = 0x4000_0000_0000_0000;

/// Relies on base64's standard-alphabet padded engine: the encoding
/// depends on the input bytes alone, with four output characters for every
/// three input bytes begun, and panics only when that length overflows.
#[verifier::external_body]
fn base64_encode(bytes: &Vec<u8>) -> (r: String)
    requires
        bytes@.len() < SPLASH_MAX_BYTES,
    ensures
        r@ == base64_of(bytes@),
        r@.len() == 4 * ((bytes@.len() + 2) / 3),
{
    base64::Engine::encode(&base64::engine::general_purpose::STANDARD, bytes.as_slice())
}

/// How one character appears in HTML text: ampersands and angle brackets
/// become entities, carriage returns vanish, everything else stands as it
/// is.
pub open spec fn escape_char(c: char) -> Seq<char> {
    if c == '&' {
        seq!['&', 'a', 'm', 'p', ';']
    } else if c == '<' {
        seq!['&', 'l', 't', ';']
    } else if c == '>' {
        seq!['&', 'g', 't', ';']
    } else if c == '\r' {
        Seq::<char>::empty()
    } else {
        seq![c]
    }
}

/// A whole text escaped for HTML, character by character.
pub open spec fn escape_text(s: Seq<char>) -> Seq<char>
    decreases s.len(),
{
    if s.len() == 0 {
        Seq::<char>::empty()
    } else {
        escape_char(s[0]) + escape_text(s.drop_first())
    }
}

proof fn lemma_escape_push(s: Seq<char>, c: char)
    ensures
        escape_text(s.push(c)) == escape_text(s) + escape_char(c),
    decreases s.len(),
{
    if s.len() == 0 {
        assert(s.push(c)[0] == c);
        assert(s.push(c).drop_first() =~= Seq::<char>::empty());
        assert(escape_text(Seq::<char>::empty()) == Seq::<char>::empty());
        assert(escape_text(s.push(c)) == escape_char(c) + Seq::<char>::empty());
        assert(escape_text(s.push(c)) =~= escape_text(s) + escape_char(c));
    } else {
        assert(s.push(c)[0] == s[0]);
        assert(s.push(c).drop_first() =~= s.drop_first().push(c));
        lemma_escape_push(s.drop_first(), c);
        assert(escape_text(s.push(c)) =~= escape_text(s) + escape_char(c));
    }
}

/// Escapes a text for HTML, matching `escape_text`.
#[verifier::loop_isolation(false)]
fn escape_chars(v: &Vec<char>) -> (r: Vec<char>)
    ensures
        r@ == escape_text(v@),
{
    let mut r: Vec<char> = Vec::new();
    let mut i: usize = 0;
    while i < v.len()
        invariant
            i <= v@.len(),
            r@ == escape_text(v@.take(i as int)),
        decreases v@.len() - i,
    {
        let c = v[i];
        if c == '&' {
            r.push('&');
            r.push('a');
            r.push('m');
            r.push('p');
            r.push(';');
        } else if c == '<' {
            r.push('&');
            r.push('l');
            r.push('t');
            r.push(';');
        } else if c == '>' {
            r.push('&');
            r.push('g');
            r.push('t');
            r.push(';');
        } else if c == '\r' {
        } else {
            r.push(c);
        }
        i = i + 1;
        proof {
            lemma_escape_push(v@.take(i - 1), v@[i - 1]);
            assert(v@.take(i - 1).push(v@[i - 1]) =~= v@.take(i as int));
            assert(r@ =~= escape_text(v@.take(i as int)));
        }
    }
    assert(v@.take(v@.len() as int) =~= v@);
    r
}

/// The part of the splash page that comes before the status text.
pub open spec fn splash_prefix() -> Seq<char> {
    "<!doctype html>\n<html>\n<head>\n<meta charset=\"utf-8\">\n<style>\n  /* fill viewport and hide any scrollbars */\n  html,body{height:100%;margin:0;padding:0;overflow:hidden;background:#fff;color:#111;font-family:system-ui,-apple-system,Segoe UI,Roboto,\"Helvetica Neue\",Arial;}\n  /* make PRE fill the whole page, add inner padding, clip overflow (no scrollbars) */\n  pre{position:fixed;inset:0;margin:0;padding:20px;box-sizing:border-box;background:#f6f8fa;overflow:hidden;white-space:pre-wrap;word-break:break-word;font-family:Menlo,monospace;font-size:13px;line-height:1.45;}\n  /* remove default focus outlines or user agent scrollbars if present */\n  ::-webkit-scrollbar{display:none;}\n</style>\n</head>\n<body><pre>"@
}

/// The part of the splash page that comes after the status text.
pub open spec fn splash_suffix() -> Seq<char> {
    "</pre></body>\n</html>"@
}

/// The whole splash page for a status text.
pub open spec fn splash_html(s: Seq<char>) -> Seq<char> {
    splash_prefix() + escape_text(s) + splash_suffix()
}

/// Renders the splash page for a status text as a base64 data URL. Yields
/// nothing only when the rendered page is too large to encode.
pub fn text_to_splash(s: &str) -> (url: Option<String>)
    ensures
        match url {
            Some(u) => u@ == "data:text/html;charset=utf-8;base64,"@ + base64_of(
                encode_utf8(splash_html(s@)),
            ),
            None => encode_utf8(splash_html(s@)).len() >= SPLASH_MAX_BYTES,
        },
{
    let chars = str_chars(s);
    let escaped = escape_chars(&chars);
    let e = chars_to_string(&escaped);
    let mut html: String =
        "<!doctype html>\n<html>\n<head>\n<meta charset=\"utf-8\">\n<style>\n  /* fill viewport and hide any scrollbars */\n  html,body{height:100%;margin:0;padding:0;overflow:hidden;background:#fff;color:#111;font-family:system-ui,-apple-system,Segoe UI,Roboto,\"Helvetica Neue\",Arial;}\n  /* make PRE fill the whole page, add inner padding, clip overflow (no scrollbars) */\n  pre{position:fixed;inset:0;margin:0;padding:20px;box-sizing:border-box;background:#f6f8fa;overflow:hidden;white-space:pre-wrap;word-break:break-word;font-family:Menlo,monospace;font-size:13px;line-height:1.45;}\n  /* remove default focus outlines or user agent scrollbars if present */\n  ::-webkit-scrollbar{display:none;}\n</style>\n</head>\n<body><pre>".to_owned();
    html.append(e.as_str());
    html.append("</pre></body>\n</html>");
    proof {
        assert(html@ == splash_html(s@));
    }
    let bytes = html.as_str().as_bytes_vec();
    if (bytes.len() as u64) < SPLASH_MAX_BYTES {
        let b64 = base64_encode(&bytes);
        let mut url: String = "data:text/html;charset=utf-8;base64,".to_owned();
        url.append(b64.as_str());
        Some(url)
    } else {
        None
    }
}

} // verus!
