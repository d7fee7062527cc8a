//! The page that a recipient sees: the name and the size of a share, a field for
//! the password where there is one, and a button.

use crate::error::AppError;
use crate::ids::{is_token, law_tokens_are_plain};
use crate::text::{chars_of, is_alphanumeric, signed_decimal, signed_decimal_text};
use vstd::prelude::*;

verus! {

/// Everything before the name in the title.
pub const PAGE_START: &'static str = r#"<!doctype html><html lang="en"><head><meta charset="utf-8">
<meta name="viewport" content="width=device-width,initial-scale=1">
<title>Download "#;

/// Between the name in the title and the name in the page.
pub const PAGE_TO_NAME: &'static str = r#"</title><style>
body{margin:0;background:#0f1117;color:#e6e8ef;font-family:system-ui,sans-serif;display:grid;place-items:center;min-height:100vh}
main{width:min(92vw,460px);background:#171a23;border:1px solid #262b38;border-radius:14px;padding:24px}
h1{font-size:20px;overflow-wrap:anywhere}p{color:#9aa3b7}label{display:block;margin:18px 0 6px}
input{width:100%;box-sizing:border-box;padding:11px;background:#10131b;color:white;border:1px solid #343b4d;border-radius:8px}
button{width:100%;margin-top:16px;padding:12px;border:0;border-radius:8px;background:#5b8def;color:white;font-weight:700;cursor:pointer}
#error{color:#fca5a5;min-height:1.4em}</style></head><body><main>
<p>TempShare file</p><h1>"#;

/// Between the name and the size.
pub const PAGE_TO_SIZE: &'static str = r#"</h1><p>"#;

/// Between the size and the controls.
pub const PAGE_TO_CONTROLS: &'static str = r#" bytes</p>"#;

/// Between the controls and the id.
pub const PAGE_TO_ID: &'static str = r#"<p id="error"></p>
<script>const id="#;

/// Between the id and whether a password is needed.
pub const PAGE_TO_FLAG: &'static str = r#";const protectedShare="#;

/// Everything behind that.
pub const PAGE_END: &'static str = r#";
document.getElementById('download').onclick=async()=>{const error=document.getElementById('error');error.textContent='';
if(protectedShare){const password=document.getElementById('password').value;const response=await fetch('/api/download/'+encodeURIComponent(id)+'/unlock',{method:'POST',headers:{'content-type':'application/json'},body:JSON.stringify({password})});if(!response.ok){const body=await response.json().catch(()=>({}));error.textContent=body.error||'Unable to unlock';return;}}
window.location.assign('/download/'+encodeURIComponent(id));};</script></main></body></html>"#;

/// What a recipient has to fill in where the share has a password.
pub const PASSWORD_CONTROLS: &'static str = r#"<label for="password">Password</label>
        <input id="password" type="password" autocomplete="current-password">
        <button id="download">Unlock and download</button>"#;

/// What a recipient has to press where it has none.
pub const PLAIN_CONTROLS: &'static str = r#"<button id="download">Download</button>"#;

/// What the page may load and run.
pub const CONTENT_SECURITY_POLICY: &'static str = "default-src 'none'; style-src 'unsafe-inline'; script-src 'unsafe-inline'; connect-src 'self'; form-action 'none'; base-uri 'none'";

/// `serde_json` has an error type of its own.
#[verifier::external_type_specification]
#[verifier::external_body]
pub struct ExJsonError(serde_json::Error);

/// A hexadecimal digit, a small letter where it is a letter.
pub open spec fn small_hex_digit(d: int) -> char {
    if d < 10 {
        (d + 48) as char
    } else {
        (d + 87) as char
    }
}

/// A character as it stands in a JSON string.
pub open spec fn json_char(c: char) -> Seq<char> {
    if c == '"' {
        seq!['\\', '"']
    } else if c == '\\' {
        seq!['\\', '\\']
    } else if c == '\u{8}' {
        seq!['\\', 'b']
    } else if c == '\u{9}' {
        seq!['\\', 't']
    } else if c == '\u{a}' {
        seq!['\\', 'n']
    } else if c == '\u{c}' {
        seq!['\\', 'f']
    } else if c == '\u{d}' {
        seq!['\\', 'r']
    } else if c <= '\u{1f}' {
        seq!['\\', 'u', '0', '0', small_hex_digit(c as int / 16), small_hex_digit(c as int % 16)]
    } else {
        seq![c]
    }
}

pub open spec fn json_chars(s: Seq<char>) -> Seq<char>
    decreases s.len(),
{
    if s.len() == 0 {
        Seq::empty()
    } else {
        json_chars(s.drop_last()) + json_char(s.last())
    }
}

/// A text as a JSON string.
pub open spec fn json_string(s: Seq<char>) -> Seq<char> {
    seq!['"'] + json_chars(s) + seq!['"']
}

/// `serde_json::to_string` on a text: the text between quotes, with the quote,
/// the backslash and the control characters below the space escaped. On a text
/// it does not fail.
#[verifier::external_body]
fn to_json(s: &str) -> (r: Result<String, serde_json::Error>)
    ensures
        r is Ok,
        r->Ok_0@ == json_string(s@),
{
    serde_json::to_string(s)
}

/// Writes a text as a JSON string.
fn json_text(s: &str) -> (r: Result<String, AppError>)
    ensures
        r matches Ok(t) && t@ == json_string(s@),
{
    match to_json(s) {
        Ok(t) => Ok(t),
        Err(_) => Err(AppError::Internal("share id could not be written".to_string())),
    }
}

/// A character as it stands in a page.
pub open spec fn html_char(c: char) -> Seq<char> {
    if c == '&' {
        "&amp;"@
    } else if c == '<' {
        "&lt;"@
    } else if c == '>' {
        "&gt;"@
    } else if c == '"' {
        "&quot;"@
    } else if c == '\'' {
        "&#39;"@
    } else {
        seq![c]
    }
}

/// A text as it stands in a page.
pub open spec fn html_chars(s: Seq<char>) -> Seq<char>
    decreases s.len(),
{
    if s.len() == 0 {
        Seq::empty()
    } else {
        html_chars(s.drop_last()) + html_char(s.last())
    }
}

/// Writes a text so that none of it is taken for markup.
pub fn html_escape(value: &str) -> (r: String)
    ensures
        r@ == html_chars(value@),
{
    let chars = chars_of(value);
    let n: usize = chars.len();
    let mut out = String::new();
    assert(value@.take(0) =~= Seq::<char>::empty());
    for i in 0..n
        invariant
            n == chars@.len(),
            chars@ == value@,
            out@ == html_chars(value@.take(i as int)),
    {
        let c = chars[i];
        let ghost before = out@;
        if c == '&' {
            out.append("&amp;");
        } else if c == '<' {
            out.append("&lt;");
        } else if c == '>' {
            out.append("&gt;");
        } else if c == '"' {
            out.append("&quot;");
        } else if c == '\'' {
            out.append("&#39;");
        } else {
            out.push(c);
            assert(out@ =~= before + seq![c]);
        }
        assert(out@ == before + html_char(c));
        assert(value@.take(i + 1).drop_last() =~= value@.take(i as int));
    }
    assert(value@.take(n as int) =~= value@);
    out
}

/// None of the characters that markup is made of, but for the ampersand.
pub open spec fn no_markup(s: Seq<char>) -> bool {
    forall|i: int|
        0 <= i < s.len() ==> #[trigger] s[i] != '<' && s[i] != '>' && s[i] != '"' && s[i] != '\''
}

/// A name in the page opens no tag, closes none, and ends no attribute.
pub proof fn law_names_are_no_markup(s: Seq<char>)
    ensures
        no_markup(html_chars(s)),
    decreases s.len(),
{
    if s.len() > 0 {
        reveal_strlit("&amp;");
        reveal_strlit("&lt;");
        reveal_strlit("&gt;");
        reveal_strlit("&quot;");
        reveal_strlit("&#39;");
        law_names_are_no_markup(s.drop_last());
        let init = html_chars(s.drop_last());
        let last = html_char(s.last());
        let r = html_chars(s);
        assert(no_markup(last));
        assert forall|i: int| 0 <= i < r.len() implies #[trigger] r[i] != '<' && r[i] != '>'
            && r[i] != '"' && r[i] != '\'' by {
            if i < init.len() {
                assert(r[i] == init[i]);
            } else {
                assert(r[i] == last[i - init.len()]);
            }
        }
    }
}

/// The page of a share.
pub open spec fn page(
    id: Seq<char>,
    display_name: Seq<char>,
    size_bytes: i64,
    has_password: bool,
) -> Seq<char> {
    PAGE_START@ + html_chars(display_name) + PAGE_TO_NAME@ + html_chars(display_name)
        + PAGE_TO_SIZE@ + signed_decimal(size_bytes as int) + PAGE_TO_CONTROLS@ + (if has_password {
        PASSWORD_CONTROLS@
    } else {
        PLAIN_CONTROLS@
    }) + PAGE_TO_ID@ + json_string(id) + PAGE_TO_FLAG@ + (if has_password {
        "true"@
    } else {
        "false"@
    }) + PAGE_END@
}

/// Writes the page of a share.
pub fn render_page(id: &str, display_name: &str, size_bytes: i64, has_password: bool) -> (r: Result<
    String,
    AppError,
>)
    ensures
        r matches Ok(html) && html@ == page(id@, display_name@, size_bytes, has_password),
{
    let id_json = match json_text(id) {
        Ok(t) => t,
        Err(e) => {
            return Err(e);
        },
    };
    let name = html_escape(display_name);
    let mut out = PAGE_START.to_string();
    out.append(name.as_str());
    out.append(PAGE_TO_NAME);
    out.append(name.as_str());
    out.append(PAGE_TO_SIZE);
    out.append(signed_decimal_text(size_bytes).as_str());
    out.append(PAGE_TO_CONTROLS);
    out.append(
        if has_password {
            PASSWORD_CONTROLS
        } else {
            PLAIN_CONTROLS
        },
    );
    out.append(PAGE_TO_ID);
    out.append(id_json.as_str());
    out.append(PAGE_TO_FLAG);
    out.append(
        if has_password {
            "true"
        } else {
            "false"
        },
    );
    out.append(PAGE_END);
    Ok(out)
}

proof fn lemma_json_plain(s: Seq<char>)
    requires
        forall|i: int| 0 <= i < s.len() ==> is_alphanumeric(#[trigger] s[i]),
    ensures
        json_chars(s) == s,
    decreases s.len(),
{
    if s.len() > 0 {
        lemma_json_plain(s.drop_last());
        assert(is_alphanumeric(s[s.len() - 1]));
        assert(json_chars(s) =~= s.drop_last().push(s.last()));
        assert(s.drop_last().push(s.last()) =~= s);
    }
}

/// The id of a share stands in the script of its page as it is: it cannot end the
/// string that it stands in, nor the script.
pub proof fn law_share_id_is_plain_in_script(id: Seq<char>, len: int)
    requires
        is_token(id, len),
    ensures
        json_string(id) == seq!['"'] + id + seq!['"'],
        no_markup(id),
{
    law_tokens_are_plain(id, len);
    lemma_json_plain(id);
    assert forall|i: int| 0 <= i < id.len() implies #[trigger] id[i] != '<' && id[i] != '>'
        && id[i] != '"' && id[i] != '\'' by {
        assert(is_alphanumeric(id[i]));
    }
}

} // verus!
