//! What stands in requests and in answers, character by character.

use crate::error::{log_line, status_of, text_told, ErrorView};
use crate::headers::{
    can_be_header, cookie_in, cookie_of, disposition, header_chars, header_of, percent_byte,
    percent_bytes, quotable, range_of,
};
use crate::page::{
    html_chars, json_string, page, PAGE_END, PAGE_START, PAGE_TO_ID, PAGE_TO_NAME,
};
use crate::text::{
    all_digits, cut_at, digits_value, is_digit, lemma_first_index_is, pieces, signed_decimal,
    trimmed,
};
use vstd::prelude::*;
use vstd::utf8::encode_utf8;

verus! {

// ---------------------------------------------------------------------------
// Headers

/// A header value is a text where it is made of visible ASCII, spaces and tabs, and
/// the text has a character for each byte, with the byte's number.
pub proof fn law_header_value_as_a_text(bytes: Vec<u8>)
    ensures
        header_chars(bytes@) is Some <==> forall|i: int|
            0 <= i < bytes@.len() ==> 32 <= #[trigger] bytes@[i] <= 126 || bytes@[i] == 9,
        header_chars(bytes@) is Some ==> {
            &&& header_chars(bytes@)->0.len() == bytes@.len()
            &&& forall|i: int|
                0 <= i < bytes@.len() ==> (#[trigger] header_chars(bytes@)->0[i]) as int
                    == bytes@[i] as int
        },
        header_of(Some(bytes)) == header_chars(bytes@),
        header_of(None) is None,
{
    if forall|i: int|
        0 <= i < bytes@.len() ==> 32 <= #[trigger] bytes@[i] <= 126 || bytes@[i] == 9 {
        assert(forall|i: int|
            0 <= i < bytes@.len() ==> crate::headers::is_header_byte(#[trigger] bytes@[i]));
    } else {
        let i = choose|i: int|
            0 <= i < bytes@.len() && !(32 <= #[trigger] bytes@[i] <= 126 || bytes@[i] == 9);
        assert(!crate::headers::is_header_byte(bytes@[i]));
    }
}

/// A text can stand in a header where it has no control character of ASCII in it but
/// the tab.
pub proof fn law_text_in_a_header(s: Seq<char>)
    ensures
        can_be_header(s) <==> forall|i: int|
            0 <= i < s.len() ==> (#[trigger] s[i]) as int == 9 || (s[i] as int >= 32 && s[i] as int
                != 127),
{
    if can_be_header(s) {
        assert forall|i: int| 0 <= i < s.len() implies (#[trigger] s[i]) as int == 9 || (s[i] as int
            >= 32 && s[i] as int != 127) by {}
    } else {
        let i = choose|i: int|
            0 <= i < s.len() && !(#[trigger] s[i] == '\t' || (s[i] >= ' ' && s[i] != '\u{7f}'));
        assert(!(s[i] as int == 9 || (s[i] as int >= 32 && s[i] as int != 127)));
    }
}

// ---------------------------------------------------------------------------
// Cookies

/// A cookie is found behind the equals sign of the first piece that has its name
/// before it; a piece with another name, or with none, is passed over.
pub proof fn law_cookie_is_the_first_of_its_name(
    first: Seq<char>,
    rest: Seq<Seq<char>>,
    name: Seq<char>,
    value: Seq<char>,
    wanted: Seq<char>,
)
    requires
        forall|i: int| 0 <= i < name.len() ==> #[trigger] name[i] != '=',
    ensures
        cookie_in(Seq::empty(), wanted) is None,
        trimmed(first) == name + seq!['='] + value && name == wanted ==> cookie_in(
            seq![first] + rest,
            wanted,
        ) == Some(value),
        trimmed(first) == name + seq!['='] + value && name != wanted ==> cookie_in(
            seq![first] + rest,
            wanted,
        ) == cookie_in(rest, wanted),
        (forall|i: int| 0 <= i < trimmed(first).len() ==> #[trigger] trimmed(first)[i] != '=')
            ==> cookie_in(seq![first] + rest, wanted) == cookie_in(rest, wanted),
{
    let all = seq![first] + rest;
    assert(all.skip(1) =~= rest);
    let pair = name + seq!['='] + value;
    let n = name.len() as int;
    assert(pair[n] == '=');
    assert forall|j: int| 0 <= j < n implies pair[j] != '=' by {
        assert(pair[j] == name[j]);
    }
    lemma_first_index_is(pair, '=', n);
    assert(pair.take(n) =~= name);
    assert(pair.skip(n + 1) =~= value);
    assert(cut_at(pair, '=') == Some((name, value)));
    let t = trimmed(first);
    if forall|i: int| 0 <= i < t.len() ==> #[trigger] t[i] != '=' {
        lemma_first_index_is(t, '=', t.len() as int);
        assert(cut_at(t, '=') is None);
    }
}

/// The cookies of a request are what stands between its semicolons. A header that is
/// no text has none.
pub proof fn law_cookies_of_a_request(cookie: Option<Vec<u8>>, wanted: Seq<char>)
    ensures
        header_of(cookie) is None ==> cookie_of(cookie, wanted) is None,
        header_of(cookie) is Some ==> cookie_of(cookie, wanted) == cookie_in(
            pieces(header_of(cookie)->0, ';'),
            wanted,
        ),
{
}

// ---------------------------------------------------------------------------
// Ranges

/// What a range asks for, by the numbers in it: from the one to the other, or to the
/// end where it has no second or the file has fewer bytes; without a first, that many
/// at the end. A range that begins behind the file, or ends before it begins, asks
/// for nothing; neither does one of no bytes, or one of an empty file.
pub proof fn law_range_goes_by_its_numbers(from: Seq<char>, to: Seq<char>, len: u64)
    requires
        forall|i: int| 0 <= i < from.len() ==> '0' <= #[trigger] from[i] <= '9',
        forall|i: int| 0 <= i < to.len() ==> '0' <= #[trigger] to[i] <= '9',
    ensures
        ({
            let a = digits_value(from) as int;
            let b = digits_value(to) as int;
            range_of("bytes="@ + from + "-"@ + to, len) == if from.len() == 0 && to.len() == 0 {
                None::<(int, int)>
            } else if from.len() == 0 {
                if b == 0 || b > u64::MAX || len == 0 {
                    None
                } else {
                    Some(
                        (
                            if b < len {
                                len - b
                            } else {
                                0
                            },
                            len - 1,
                        ),
                    )
                }
            } else if to.len() == 0 {
                if a < len {
                    Some((a, len - 1))
                } else {
                    None
                }
            } else if a <= b <= u64::MAX && a < len {
                Some(
                    (
                        a,
                        if b < len {
                            b
                        } else {
                            len - 1
                        },
                    ),
                )
            } else {
                None
            }
        }),
{
    reveal_strlit("bytes=");
    reveal_strlit("-");
    let header = "bytes="@ + from + "-"@ + to;
    let asked = from + "-"@ + to;
    assert(header.take(6) =~= "bytes="@);
    assert(header.skip(6) =~= asked);
    let n = from.len() as int;
    assert forall|i: int| 0 <= i < from.len() implies is_digit(#[trigger] from[i]) by {}
    assert forall|i: int| 0 <= i < to.len() implies is_digit(#[trigger] to[i]) by {}
    assert(all_digits(from) && all_digits(to));
    assert(asked[n] == '-');
    assert forall|i: int| 0 <= i < asked.len() implies asked[i] != ',' && (asked[i] == '-' ==> i
        == n) by {
        if i < n {
            assert(asked[i] == from[i]);
        } else if i > n {
            assert(asked[i] == to[i - n - 1]);
        }
    }
    lemma_first_index_is(asked, '-', n);
    assert(asked.take(n) =~= from);
    assert(asked.skip(n + 1) =~= to);
}

/// A range in another unit than bytes is not served, nor is one without a dash.
pub proof fn law_range_is_of_bytes(header: Seq<char>, len: u64)
    ensures
        header.len() < 6 || header.take(6) != "bytes="@ ==> range_of(header, len) is None,
        (forall|i: int| 6 <= i < header.len() ==> #[trigger] header[i] != '-') ==> range_of(
            header,
            len,
        ) is None,
{
    reveal_strlit("bytes=");
    let asked = header.skip(6);
    if header.len() >= 6 && (forall|i: int|
        6 <= i < header.len() ==> #[trigger] header[i] != '-') {
        assert forall|j: int| 0 <= j < asked.len() implies asked[j] != '-' by {
            assert(asked[j] == header[j + 6]);
        }
        lemma_first_index_is(asked, '-', asked.len() as int);
    }
}

// ---------------------------------------------------------------------------
// The name of a download

/// The header that names a download: first the name between quotes, with an
/// underscore for each character that is not visible ASCII or that would end the
/// quotes, then the name once more with every character.
pub proof fn law_download_is_named_twice(name: Seq<char>)
    ensures
        ({
            let quoted = name.map_values(|c: char| quotable(c));
            &&& disposition(name) == "attachment; filename=\""@ + quoted
                + "\"; filename*=UTF-8''"@ + percent_bytes(encode_utf8(name))
            &&& quoted.len() == name.len()
            &&& forall|i: int|
                0 <= i < name.len() ==> #[trigger] quoted[i] == if 33 <= name[i] as int
                    && name[i] as int <= 126 && name[i] != '"' && name[i] != '\\' {
                    name[i]
                } else {
                    '_'
                }
        }),
{
}

/// A byte of a name stands for itself where it is a letter, a digit or one of
/// ``!#$&+-.^_`|~``; any other is a percent sign and two digits of base sixteen, in
/// capitals.
pub proof fn law_names_are_written_byte_by_byte(bytes: Seq<u8>, b: u8)
    ensures
        percent_bytes(Seq::empty()) == Seq::<char>::empty(),
        percent_bytes(bytes.push(b)) == percent_bytes(bytes) + percent_byte(b),
        ({
            let plain = 48 <= b <= 57 || 65 <= b <= 90 || 97 <= b <= 122 || b == '!' as u8 || b
                == '#' as u8 || b == '$' as u8 || b == '&' as u8 || b == '+' as u8 || b == '-' as u8
                || b == '.' as u8 || b == '^' as u8 || b == '_' as u8 || b == '`' as u8 || b
                == '|' as u8 || b == '~' as u8;
            &&& plain ==> percent_byte(b) == seq![b as char]
            &&& !plain ==> percent_byte(b).len() == 3 && percent_byte(b)[0] == '%' && (percent_byte(
                b,
            )[1] as int == if b / 16 < 10 {
                48 + b / 16
            } else {
                55 + b / 16
            }) && (percent_byte(b)[2] as int == if b % 16 < 10 {
                48 + b % 16
            } else {
                55 + b % 16
            })
        }),
{
    assert(bytes.push(b).drop_last() =~= bytes);
}

// ---------------------------------------------------------------------------
// The page

/// The name in a page is what it was, character by character, but for the five that
/// markup is made of.
pub proof fn law_names_in_a_page(s: Seq<char>, c: char)
    ensures
        html_chars(Seq::empty()) == Seq::<char>::empty(),
        html_chars(s.push(c)) == html_chars(s) + (if c == '&' {
            "&amp;"@
        } else if c == '<' {
            "&lt;"@
        } else if c == '>' {
            "&gt;"@
        } else if c == '"' {
            "&quot;"@
        } else if c == '\'' {
            "&#39;"@
        } else {
            seq![c]
        }),
{
    assert(s.push(c).drop_last() =~= s);
}

/// A name without these characters stands in a page as it is.
pub proof fn law_plain_names_in_a_page(s: Seq<char>)
    requires
        forall|i: int|
            0 <= i < s.len() ==> #[trigger] s[i] != '&' && s[i] != '<' && s[i] != '>' && s[i] != '"'
                && s[i] != '\'',
    ensures
        html_chars(s) == s,
    decreases s.len(),
{
    if s.len() > 0 {
        let init = s.drop_last();
        law_plain_names_in_a_page(init);
        law_names_in_a_page(init, s.last());
        assert(init.push(s.last()) =~= s);
        assert(s[s.len() - 1] == s.last());
        assert(init + seq![s.last()] =~= s);
    }
}

/// The page of a share shows its name, twice, and its size in bytes. It asks for a
/// password where there is one and only there, and its script has the id of the
/// share and whether there is a password. All else is the same in every page.
pub proof fn law_page_shows_the_share(
    id: Seq<char>,
    name: Seq<char>,
    size: i64,
    has_password: bool,
)
    ensures
        page(id, name, size, has_password) == PAGE_START@ + html_chars(name) + PAGE_TO_NAME@
            + html_chars(name) + "</h1><p>"@ + signed_decimal(size as int) + " bytes</p>"@ + (
        if has_password {
            r#"<label for="password">Password</label>
        <input id="password" type="password" autocomplete="current-password">
        <button id="download">Unlock and download</button>"#@
        } else {
            r#"<button id="download">Download</button>"#@
        }) + PAGE_TO_ID@ + json_string(id) + ";const protectedShare="@ + (if has_password {
            "true"@
        } else {
            "false"@
        }) + PAGE_END@,
{
}

// ---------------------------------------------------------------------------
// Errors

/// What a client is answered when something is wrong.
pub proof fn law_what_clients_are_told(m: Seq<char>)
    ensures
        status_of(ErrorView::NotFound) == 404 && text_told(ErrorView::NotFound) == "not found"@,
        status_of(ErrorView::Forbidden) == 403 && text_told(ErrorView::Forbidden) == "forbidden"@,
        status_of(ErrorView::PasswordRequired) == 401 && text_told(ErrorView::PasswordRequired)
            == "password required"@,
        status_of(ErrorView::IncorrectPassword) == 401 && text_told(ErrorView::IncorrectPassword)
            == "incorrect password"@,
        status_of(ErrorView::RateLimited) == 429 && text_told(ErrorView::RateLimited)
            == "too many requests, slow down"@,
        status_of(ErrorView::BadRequest(m)) == 400 && text_told(ErrorView::BadRequest(m)) == m,
        status_of(ErrorView::Internal(m)) == 500 && text_told(ErrorView::Internal(m))
            == "internal server error"@,
        log_line(ErrorView::RateLimited) == "rate limited"@,
        log_line(ErrorView::BadRequest(m)) == "bad request: "@ + m,
        log_line(ErrorView::Internal(m)) == "internal error"@,
        log_line(ErrorView::NotFound) == text_told(ErrorView::NotFound),
        log_line(ErrorView::Forbidden) == text_told(ErrorView::Forbidden),
        log_line(ErrorView::PasswordRequired) == text_told(ErrorView::PasswordRequired),
        log_line(ErrorView::IncorrectPassword) == text_told(ErrorView::IncorrectPassword),
{
}

} // verus!
