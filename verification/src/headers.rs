//! Header values: what is read from a request, and what is written into a
//! response.

use crate::net::IpAddr;
use crate::text::{
    all_digits, bounded_value, chars_of, cut_at, decimal, first_index, graphic, has_prefix,
    index_of, is_digit, is_graphic, lemma_decimal_reads_back, lemma_first_index,
    lemma_first_index_is, parse_bounded, pieces, same_text, split_at_char, starts_with, text_of,
    trim_chars, trim_front, trimmed, views,
};
use vstd::prelude::*;
use vstd::slice::slice_subrange;
use vstd::utf8::{decode_utf8, encode_utf8, encode_utf8_decode_utf8};

verus! {

/// The headers of a request that the server looks at: their bytes, where they are
/// there. The address that a proxy reports is read beforehand.
pub struct RequestHeaders {
    /// `Host`
    pub host: Option<Vec<u8>>,
    /// `Origin`
    pub origin: Option<Vec<u8>>,
    /// `Range`
    pub range: Option<Vec<u8>>,
    /// `Cookie`
    pub cookie: Option<Vec<u8>>,
    /// `X-TempShare-Token`
    pub unlock_token: Option<Vec<u8>>,
    /// `CF-Connecting-IP`, where it holds an address
    pub forwarded_ip: Option<IpAddr>,
}

// ---------------------------------------------------------------------------
// Bytes and texts

/// A byte that a header value may have to be read as a text: visible ASCII, the
/// space, the tab.
pub open spec fn is_header_byte(b: u8) -> bool {
    32 <= b < 127 || b == 9
}

/// The text of a header value, where it has nothing but such bytes.
pub open spec fn header_chars(bytes: Seq<u8>) -> Option<Seq<char>> {
    if forall|i: int| 0 <= i < bytes.len() ==> is_header_byte(#[trigger] bytes[i]) {
        Some(bytes.map_values(|b: u8| b as char))
    } else {
        None
    }
}

/// The text of a header, where it is there and has one.
pub open spec fn header_of(value: Option<Vec<u8>>) -> Option<Seq<char>> {
    match value {
        Some(bytes) => header_chars(bytes@),
        None => None,
    }
}

/// The characters of a header value, where they can be read as a text.
pub fn header_text(value: &Option<Vec<u8>>) -> (r: Option<Vec<char>>)
    ensures
        match r {
            Some(chars) => header_of(*value) == Some(chars@),
            None => header_of(*value) is None,
        },
{
    match value {
        None => None,
        Some(bytes) => {
            let n: usize = bytes.len();
            let mut out: Vec<char> = Vec::new();
            let ghost all = bytes@.map_values(|b: u8| b as char);
            for i in 0..n
                invariant
                    *value == Some(*bytes),
                    n == bytes@.len(),
                    all == bytes@.map_values(|b: u8| b as char),
                    out@ == all.take(i as int),
                    forall|j: int| 0 <= j < i ==> is_header_byte(#[trigger] bytes@[j]),
            {
                let b: u8 = bytes[i];
                if !((b >= 32 && b < 127) || b == 9) {
                    assert(!is_header_byte(bytes@[i as int]));
                    return None;
                }
                out.push(b as char);
                assert(all.take(i + 1) =~= all.take(i as int).push(all[i as int]));
            }
            assert(all.take(n as int) =~= all);
            Some(out)
        },
    }
}

/// A text that can stand in a header: no control character of ASCII but the tab.
pub open spec fn can_be_header(s: Seq<char>) -> bool {
    forall|i: int| 0 <= i < s.len() ==> #[trigger] s[i] == '\t' || (s[i] >= ' ' && s[i] != '\u{7f}')
}

pub fn fits_header(s: &str) -> (r: bool)
    ensures
        r == can_be_header(s@),
{
    let chars = chars_of(s);
    let n: usize = chars.len();
    for i in 0..n
        invariant
            n == chars@.len(),
            chars@ == s@,
            forall|j: int|
                0 <= j < i ==> #[trigger] s@[j] == '\t' || (s@[j] >= ' ' && s@[j] != '\u{7f}'),
    {
        let c = chars[i];
        if !(c == '\t' || (c >= ' ' && c != '\u{7f}')) {
            assert(!(s@[i as int] == '\t' || (s@[i as int] >= ' ' && s@[i as int] != '\u{7f}')));
            return false;
        }
    }
    true
}

// ---------------------------------------------------------------------------
// Cookies

/// The value of the first cookie with this name: of the pieces between the
/// semicolons, without the white space round them, what stands behind the first
/// equals sign of the first one that has the name before it.
pub open spec fn cookie_in(cookies: Seq<Seq<char>>, wanted: Seq<char>) -> Option<Seq<char>>
    decreases cookies.len(),
{
    if cookies.len() == 0 {
        None
    } else {
        match cut_at(trimmed(cookies[0]), '=') {
            Some((name, value)) => if name == wanted {
                Some(value)
            } else {
                cookie_in(cookies.skip(1), wanted)
            },
            None => cookie_in(cookies.skip(1), wanted),
        }
    }
}

/// The value of a cookie in a request.
pub open spec fn cookie_of(cookie: Option<Vec<u8>>, wanted: Seq<char>) -> Option<Seq<char>> {
    match header_of(cookie) {
        Some(text) => cookie_in(pieces(text, ';'), wanted),
        None => None,
    }
}

/// The value of a cookie in a request.
pub fn cookie_value(headers: &RequestHeaders, wanted: &str) -> (r: Option<String>)
    ensures
        match r {
            Some(v) => cookie_of(headers.cookie, wanted@) == Some(v@),
            None => cookie_of(headers.cookie, wanted@) is None,
        },
{
    let text = match header_text(&headers.cookie) {
        Some(text) => text,
        None => {
            return None;
        },
    };
    let cookies = split_at_char(text.as_slice(), ';');
    let n: usize = cookies.len();
    let ghost all = views(cookies@);
    assert(all.skip(0) =~= all);
    for i in 0..n
        invariant
            n == cookies@.len(),
            all == views(cookies@),
            all == pieces(text@, ';'),
            header_of(headers.cookie) == Some(text@),
            cookie_in(all, wanted@) == cookie_in(all.skip(i as int), wanted@),
    {
        assert(all.skip(i as int)[0] == cookies@[i as int]@);
        assert(all.skip(i as int).skip(1) =~= all.skip(i + 1));
        let cookie = trim_chars(cookies[i].as_slice());
        let at: usize = index_of(cookie, '=');
        if at < cookie.len() {
            let name = slice_subrange(cookie, 0, at);
            assert(name@ =~= cookie@.take(at as int));
            if same_text(text_of(name).as_str(), wanted) {
                let value = slice_subrange(cookie, at + 1, cookie.len());
                assert(value@ =~= cookie@.skip(at + 1));
                return Some(text_of(value));
            }
        }
    }
    assert(all.skip(n as int) =~= Seq::<Seq<char>>::empty());
    None
}

/// A text that can be the name or the value of a cookie without being taken apart:
/// visible characters, no semicolon, no equals sign.
pub open spec fn is_cookie_word(s: Seq<char>) -> bool {
    forall|i: int| 0 <= i < s.len() ==> is_graphic(#[trigger] s[i]) && s[i] != ';' && s[i] != '='
}

/// A cookie as it stands in a request.
pub open spec fn cookie_pair(name: Seq<char>, value: Seq<char>) -> Seq<char> {
    name + seq!['='] + value
}

/// A cookie is taken apart into its name and its value, with a space before it or
/// not.
proof fn lemma_cookie_pair(name: Seq<char>, value: Seq<char>)
    requires
        is_cookie_word(name),
        is_cookie_word(value),
    ensures
        cut_at(trimmed(cookie_pair(name, value)), '=') == Some((name, value)),
        cut_at(trimmed(seq![' '] + cookie_pair(name, value)), '=') == Some((name, value)),
        forall|j: int|
            0 <= j < cookie_pair(name, value).len() ==> cookie_pair(name, value)[j] != ';',
{
    let pair = cookie_pair(name, value);
    let n = name.len() as int;
    assert(pair[n] == '=');
    assert forall|j: int| 0 <= j < n implies pair[j] != '=' && is_graphic(pair[j]) && pair[j]
        != ';' by {
        assert(pair[j] == name[j]);
    }
    assert forall|j: int| n < j < pair.len() implies is_graphic(pair[j]) && pair[j] != ';' by {
        assert(pair[j] == value[j - n - 1]);
    }
    assert(is_graphic(pair[0]) && is_graphic(pair.last()));
    assert(trimmed(pair) == pair);
    let spaced = seq![' '] + pair;
    assert(spaced[0] == ' ');
    assert(spaced.skip(1) =~= pair);
    assert(trim_front(spaced) == trim_front(pair));
    lemma_first_index_is(pair, '=', n);
    assert(pair.take(n) =~= name);
    assert(pair.skip(n + 1) =~= value);
}

/// Two cookies that a client sends back are each found under its name.
pub proof fn law_cookies_read_back(
    cookie: Option<Vec<u8>>,
    n1: Seq<char>,
    v1: Seq<char>,
    n2: Seq<char>,
    v2: Seq<char>,
)
    requires
        is_cookie_word(n1),
        is_cookie_word(v1),
        is_cookie_word(n2),
        is_cookie_word(v2),
        n1 != n2,
        header_of(cookie) == Some(cookie_pair(n1, v1) + "; "@ + cookie_pair(n2, v2)),
    ensures
        cookie_of(cookie, n1) == Some(v1),
        cookie_of(cookie, n2) == Some(v2),
{
    reveal_strlit("; ");
    let a = cookie_pair(n1, v1);
    let b = cookie_pair(n2, v2);
    let text = a + "; "@ + b;
    lemma_cookie_pair(n1, v1);
    lemma_cookie_pair(n2, v2);
    let k = a.len() as int;
    assert(text[k] == ';');
    assert forall|j: int| 0 <= j < k implies text[j] != ';' by {
        assert(text[j] == a[j]);
    }
    lemma_first_index_is(text, ';', k);
    assert(text.take(k) =~= a);
    let rest = seq![' '] + b;
    assert(text.skip(k + 1) =~= rest);
    assert forall|j: int| 0 <= j < rest.len() implies rest[j] != ';' by {
        if j > 0 {
            assert(rest[j] == b[j - 1]);
        }
    }
    lemma_first_index_is(rest, ';', rest.len() as int);
    let all = pieces(text, ';');
    assert(pieces(rest, ';') =~= seq![rest]);
    assert(all =~= seq![a, rest]);
    assert(all.skip(1) =~= seq![rest]);
    assert(all.skip(1)[0] == rest);
    assert(cookie_in(all.skip(1), n2) == Some(v2));
}

/// A cookie that a client sends back alone is found under its name.
pub proof fn law_cookie_reads_back(cookie: Option<Vec<u8>>, name: Seq<char>, value: Seq<char>)
    requires
        is_cookie_word(name),
        is_cookie_word(value),
        header_of(cookie) == Some(cookie_pair(name, value)),
    ensures
        cookie_of(cookie, name) == Some(value),
{
    let text = cookie_pair(name, value);
    lemma_cookie_pair(name, value);
    lemma_first_index_is(text, ';', text.len() as int);
    assert(pieces(text, ';') =~= seq![text]);
}

// ---------------------------------------------------------------------------
// Ranges

/// The first and the last byte that a `Range` header asks for, out of a file of
/// `len` bytes. `bytes=a-b` asks for the bytes from `a` to `b`, `bytes=a-` for
/// those from `a` on, `bytes=-n` for the last `n`; a number is made of digits and
/// nothing else. Everything else, and what lies outside the file, is `None`.
pub open spec fn range_of(header: Seq<char>, len: u64) -> Option<(int, int)> {
    let asked = header.skip(6);
    if len == 0 || !has_prefix(header, "bytes="@) || asked.contains(',') {
        None
    } else {
        match cut_at(asked, '-') {
            None => None,
            Some((from, to)) => if from.len() == 0 {
                match bounded_value(to, u64::MAX as int) {
                    None => None,
                    Some(n) => if n == 0 {
                        None
                    } else if n > len {
                        Some((0, len - 1))
                    } else {
                        Some((len - n, len - 1))
                    },
                }
            } else {
                let first = bounded_value(from, u64::MAX as int);
                let last = if to.len() == 0 {
                    Some(len - 1)
                } else {
                    bounded_value(to, u64::MAX as int)
                };
                match (first, last) {
                    (Some(a), Some(b)) => if a >= len || a > b {
                        None
                    } else if b < len {
                        Some((a, b))
                    } else {
                        Some((a, len - 1))
                    },
                    _ => None,
                }
            },
        }
    }
}

/// Reads a `Range` header that asks for one range.
pub fn parse_range(header_val: &str, file_len: u64) -> (r: Option<(u64, u64)>)
    ensures
        match r {
            Some((a, b)) => range_of(header_val@, file_len) == Some((a as int, b as int)),
            None => range_of(header_val@, file_len) is None,
        },
{
    let chars = chars_of(header_val);
    parse_range_chars(chars.as_slice(), file_len)
}

/// Reads a `Range` header that asks for one range.
pub fn parse_range_chars(header: &[char], file_len: u64) -> (r: Option<(u64, u64)>)
    ensures
        match r {
            Some((a, b)) => range_of(header@, file_len) == Some((a as int, b as int)),
            None => range_of(header@, file_len) is None,
        },
{
    if file_len == 0 {
        return None;
    }
    let unit = chars_of("bytes=");
    proof {
        reveal_strlit("bytes=");
    }
    if !starts_with(header, unit.as_slice()) {
        return None;
    }
    let asked = slice_subrange(header, 6, header.len());
    assert(asked@ =~= header@.skip(6));
    proof {
        lemma_first_index(asked@, ',');
    }
    if index_of(asked, ',') < asked.len() {
        assert(asked@.contains(',')) by {
            assert(asked@[first_index(asked@, ',')] == ',');
        }
        return None;
    }
    let dash: usize = index_of(asked, '-');
    if dash == asked.len() {
        return None;
    }
    let from = slice_subrange(asked, 0, dash);
    let to = slice_subrange(asked, dash + 1, asked.len());
    assert(from@ =~= asked@.take(dash as int));
    assert(to@ =~= asked@.skip(dash + 1));
    if from.len() == 0 {
        let n: u64 = match parse_bounded(to, u64::MAX) {
            Some(n) => n,
            None => {
                return None;
            },
        };
        if n == 0 {
            return None;
        }
        if n > file_len {
            return Some((0, file_len - 1));
        }
        return Some((file_len - n, file_len - 1));
    }
    let first: u64 = match parse_bounded(from, u64::MAX) {
        Some(n) => n,
        None => {
            return None;
        },
    };
    let last: u64 = if to.len() == 0 {
        file_len - 1
    } else {
        match parse_bounded(to, u64::MAX) {
            Some(n) => n,
            None => {
                return None;
            },
        }
    };
    if first >= file_len || first > last {
        return None;
    }
    if last < file_len {
        Some((first, last))
    } else {
        Some((first, file_len - 1))
    }
}

/// What a range asks for lies inside the file and is not empty.
pub proof fn law_range_lies_in_file(header: Seq<char>, len: u64)
    ensures
        range_of(header, len) matches Some((a, b)) ==> 0 <= a <= b < len,
{
    let asked = header.skip(6);
    if let Some((from, to)) = cut_at(asked, '-') {
        if to.len() > 0 {
            assert(bounded_value(to, u64::MAX as int) matches Some(n) ==> n >= 0);
        }
    }
}

/// A range that is written out asks for exactly the bytes that it names.
pub proof fn law_range_reads_back(a: u64, b: u64, len: u64)
    requires
        a <= b < len,
    ensures
        range_of("bytes="@ + decimal(a as nat).push('-') + decimal(b as nat), len) == Some(
            (a as int, b as int),
        ),
{
    reveal_strlit("bytes=");
    let from = decimal(a as nat);
    let to = decimal(b as nat);
    let header = "bytes="@ + from.push('-') + to;
    let asked = from.push('-') + to;
    lemma_decimal_reads_back(a as nat);
    lemma_decimal_reads_back(b as nat);
    assert(header.take(6) =~= "bytes="@);
    assert(header.skip(6) =~= asked);
    let n = from.len() as int;
    assert forall|i: int| 0 <= i < asked.len() implies asked[i] != ',' && (asked[i] == '-' ==> i
        == n) by {
        if i < n {
            assert(asked[i] == from[i]);
        } else if i > n {
            assert(asked[i] == to[i - n - 1]);
        }
    }
    assert(asked[n] == '-');
    lemma_first_index_is(asked, '-', n);
    assert(asked.take(n) =~= from);
    assert(asked.skip(n + 1) =~= to);
    assert(bounded_value(from, u64::MAX as int) == Some(a as int));
    assert(bounded_value(to, u64::MAX as int) == Some(b as int));
}

/// A range without an end asks for everything from its start on.
pub proof fn law_open_range_reads_back(a: u64, len: u64)
    requires
        a < len,
    ensures
        range_of("bytes="@ + decimal(a as nat).push('-'), len) == Some((a as int, len - 1)),
{
    reveal_strlit("bytes=");
    let from = decimal(a as nat);
    let asked = from.push('-');
    let header = "bytes="@ + asked;
    lemma_decimal_reads_back(a as nat);
    assert(header.take(6) =~= "bytes="@);
    assert(header.skip(6) =~= asked);
    let n = from.len() as int;
    assert forall|i: int| 0 <= i < asked.len() implies asked[i] != ',' && (asked[i] == '-' ==> i
        == n) by {
        if i < n {
            assert(asked[i] == from[i]);
        }
    }
    lemma_first_index_is(asked, '-', n);
    assert(asked.take(n) =~= from);
    assert(asked.skip(n + 1) =~= Seq::<char>::empty());
    assert(bounded_value(from, u64::MAX as int) == Some(a as int));
}

/// A range without a start asks for that many bytes at the end of the file, or for
/// all of it where it has fewer.
pub proof fn law_suffix_range_reads_back(n: u64, len: u64)
    requires
        0 < n,
        0 < len,
    ensures
        range_of("bytes="@ + seq!['-'] + decimal(n as nat), len) == Some(
            (if n > len {
                0
            } else {
                len - n
            }, len - 1),
        ),
{
    reveal_strlit("bytes=");
    let to = decimal(n as nat);
    let asked = seq!['-'] + to;
    let header = "bytes="@ + seq!['-'] + to;
    lemma_decimal_reads_back(n as nat);
    assert(header.take(6) =~= "bytes="@);
    assert(header.skip(6) =~= asked);
    assert forall|i: int| 0 <= i < asked.len() implies asked[i] != ',' by {
        if i > 0 {
            assert(asked[i] == to[i - 1]);
        }
    }
    assert(asked[0] == '-');
    lemma_first_index_is(asked, '-', 0);
    assert(asked.take(0) =~= Seq::<char>::empty());
    assert(asked.skip(1) =~= to);
    assert(bounded_value(to, u64::MAX as int) == Some(n as int));
}

/// A download that is broken off and resumed behind the last byte that arrived
/// gets the whole file, each byte once.
pub proof fn law_resumed_download_is_whole(k: u64, len: u64)
    requires
        k + 1 < len,
    ensures
        range_of("bytes="@ + decimal(0).push('-') + decimal(k as nat), len) == Some((0int, k as int)),
        range_of("bytes="@ + decimal((k + 1) as nat).push('-'), len) == Some((k + 1, len - 1)),
{
    law_range_reads_back(0, k, len);
    law_open_range_reads_back((k + 1) as u64, len);
}

/// Behind the unit, a header that asks for a range has digits and one dash and
/// nothing else: no sign, no space, no second range.
pub proof fn law_range_is_digits_and_a_dash(header: Seq<char>, len: u64)
    requires
        range_of(header, len) is Some,
    ensures
        exists|dash: int|
            6 <= dash < header.len() && #[trigger] header[dash] == '-' && forall|i: int|
                6 <= i < header.len() && i != dash ==> is_digit(#[trigger] header[i]),
{
    reveal_strlit("bytes=");
    let asked = header.skip(6);
    lemma_first_index(asked, '-');
    let k = first_index(asked, '-');
    let from = asked.take(k);
    let to = asked.skip(k + 1);
    assert(from.len() == 0 || all_digits(from));
    assert(to.len() == 0 || all_digits(to));
    assert(header[6 + k] == asked[k]);
    assert forall|i: int| 6 <= i < header.len() && i != 6 + k implies is_digit(
        #[trigger] header[i],
    ) by {
        assert(header[i] == asked[i - 6]);
        if i < 6 + k {
            assert(from[i - 6] == header[i]);
        } else {
            assert(to[i - 7 - k] == header[i]);
        }
    }
}

/// A request for several ranges at once is not served.
pub proof fn law_several_ranges_are_refused(header: Seq<char>, len: u64, i: int)
    requires
        6 <= i < header.len(),
        header[i] == ',',
    ensures
        range_of(header, len) is None,
{
    assert(header.skip(6)[i - 6] == ',');
}

/// What a range header of a response says of the bytes that it carries.
pub open spec fn content_range(a: int, b: int, len: int) -> Seq<char> {
    "bytes "@ + decimal(a as nat) + "-"@ + decimal(b as nat) + "/"@ + decimal(len as nat)
}

/// What a range header of a response says where nothing can be served.
pub open spec fn unsatisfied_range(len: int) -> Seq<char> {
    "bytes */"@ + decimal(len as nat)
}

// ---------------------------------------------------------------------------
// The name of a download

/// The bytes that may stand for themselves in an extended header parameter.
pub open spec fn is_plain_byte(b: u8) -> bool {
    ||| 48 <= b <= 57
    ||| 65 <= b <= 90
    ||| 97 <= b <= 122
    ||| b == 33  // !
    ||| b == 35  // #
    ||| b == 36  // $
    ||| b == 38  // &
    ||| b == 43  // +
    ||| b == 45  // -
    ||| b == 46  // .
    ||| b == 94  // ^
    ||| b == 95  // _
    ||| b == 96  // `
    ||| b == 124  // |
    ||| b == 126  // ~
}

/// A hexadecimal digit, a capital where it is a letter.
pub open spec fn hex_digit(d: int) -> char {
    if d < 10 {
        (d + 48) as char
    } else {
        (d + 55) as char
    }
}

/// A byte as itself, or as a percent sign and its two hexadecimal digits.
pub open spec fn percent_byte(b: u8) -> Seq<char> {
    if is_plain_byte(b) {
        seq![b as char]
    } else {
        seq!['%', hex_digit(b as int / 16), hex_digit(b as int % 16)]
    }
}

pub open spec fn percent_bytes(bytes: Seq<u8>) -> Seq<char>
    decreases bytes.len(),
{
    if bytes.len() == 0 {
        Seq::empty()
    } else {
        percent_bytes(bytes.drop_last()) + percent_byte(bytes.last())
    }
}

/// A character of a file name, as far as it can stand between quotes.
pub open spec fn quotable(c: char) -> char {
    if is_graphic(c) && c != '"' && c != '\\' {
        c
    } else {
        '_'
    }
}

/// The header that names a download: once in ASCII for clients that know no
/// better, once with every character of the name.
pub open spec fn disposition(name: Seq<char>) -> Seq<char> {
    "attachment; filename=\""@ + name.map_values(|c: char| quotable(c))
        + "\"; filename*=UTF-8''"@ + percent_bytes(encode_utf8(name))
}

fn hex_char(d: u8) -> (r: char)
    requires
        d < 16,
    ensures
        r == hex_digit(d as int),
{
    if d < 10 {
        (d + 48) as char
    } else {
        (d + 55) as char
    }
}

fn plain_byte(b: u8) -> (r: bool)
    ensures
        r == is_plain_byte(b),
{
    (b >= 48 && b <= 57) || (b >= 65 && b <= 90) || (b >= 97 && b <= 122) || b == 33 || b == 35 || b
        == 36 || b == 38 || b == 43 || b == 45 || b == 46 || b == 94 || b == 95 || b == 96 || b
        == 124 || b == 126
}

/// Writes the UTF-8 bytes of a text with percent signs.
pub fn percent_encode_utf8(value: &str) -> (r: String)
    ensures
        r@ == percent_bytes(encode_utf8(value@)),
{
    let bytes = value.as_bytes();
    let n: usize = bytes.len();
    let mut out = String::new();
    assert(bytes@.take(0) =~= Seq::<u8>::empty());
    for i in 0..n
        invariant
            n == bytes@.len(),
            out@ == percent_bytes(bytes@.take(i as int)),
    {
        let b: u8 = bytes[i];
        let ghost before = out@;
        if plain_byte(b) {
            out.push(b as char);
        } else {
            out.push('%');
            out.push(hex_char(b / 16));
            out.push(hex_char(b % 16));
        }
        assert(out@ =~= before + percent_byte(b));
        assert(bytes@.take(i + 1).drop_last() =~= bytes@.take(i as int));
    }
    assert(bytes@.take(n as int) =~= bytes@);
    out
}

/// The header that names a download.
pub fn content_disposition(display_name: &str) -> (r: String)
    ensures
        r@ == disposition(display_name@),
{
    let chars = chars_of(display_name);
    let n: usize = chars.len();
    let mut fallback = String::new();
    let ghost all = display_name@.map_values(|c: char| quotable(c));
    for i in 0..n
        invariant
            n == chars@.len(),
            chars@ == display_name@,
            all == display_name@.map_values(|c: char| quotable(c)),
            fallback@ == all.take(i as int),
    {
        let c = chars[i];
        fallback.push(
            if graphic(c) && c != '"' && c != '\\' {
                c
            } else {
                '_'
            },
        );
        assert(all.take(i + 1) =~= all.take(i as int).push(all[i as int]));
    }
    assert(all.take(n as int) =~= all);
    let encoded = percent_encode_utf8(display_name);
    let mut out = "attachment; filename=\"".to_string();
    out.append(fallback.as_str());
    out.append("\"; filename*=UTF-8''");
    out.append(encoded.as_str());
    out
}

// ---------------------------------------------------------------------------
// What holds of the header that names a download

/// Visible ASCII and the space: what a header value can hold in any client.
pub open spec fn is_header_text(s: Seq<char>) -> bool {
    forall|i: int| 0 <= i < s.len() ==> ' ' <= #[trigger] s[i] <= '~'
}

proof fn lemma_percent_bytes_plain(bytes: Seq<u8>)
    ensures
        is_header_text(percent_bytes(bytes)),
    decreases bytes.len(),
{
    if bytes.len() > 0 {
        let init = percent_bytes(bytes.drop_last());
        let last = percent_byte(bytes.last());
        lemma_percent_bytes_plain(bytes.drop_last());
        let s = percent_bytes(bytes);
        assert forall|i: int| 0 <= i < s.len() implies ' ' <= #[trigger] s[i] <= '~' by {
            if i < init.len() {
                assert(s[i] == init[i]);
            } else {
                assert(s[i] == last[i - init.len()]);
            }
        }
    }
}

/// The header that names a download is a valid header value, whatever the file
/// is called.
pub proof fn law_disposition_is_header(name: Seq<char>)
    ensures
        is_header_text(disposition(name)),
        can_be_header(disposition(name)),
{
    reveal_strlit("attachment; filename=\"");
    reveal_strlit("\"; filename*=UTF-8''");
    lemma_percent_bytes_plain(encode_utf8(name));
    let a = "attachment; filename=\""@;
    let b = name.map_values(|c: char| quotable(c));
    let c = "\"; filename*=UTF-8''"@;
    let d = percent_bytes(encode_utf8(name));
    let s = disposition(name);
    assert(is_header_text(a));
    assert(is_header_text(c));
    assert forall|i: int| 0 <= i < s.len() implies ' ' <= #[trigger] s[i] <= '~' by {
        if i < a.len() {
            assert(s[i] == a[i]);
        } else if i < a.len() + b.len() {
            assert(s[i] == b[i - a.len()]);
        } else if i < a.len() + b.len() + c.len() {
            assert(s[i] == c[i - a.len() - b.len()]);
        } else {
            assert(s[i] == d[i - a.len() - b.len() - c.len()]);
        }
    }
}

pub open spec fn hex_value(c: char) -> int {
    if c <= '9' {
        c as u32 - 48
    } else {
        c as u32 - 55
    }
}

/// The bytes that a text with percent signs stands for.
pub open spec fn percent_decoded(s: Seq<char>) -> Seq<u8>
    decreases s.len(),
{
    if s.len() == 0 {
        Seq::empty()
    } else if s.len() >= 3 && s[0] == '%' {
        seq![(16 * hex_value(s[1]) + hex_value(s[2])) as u8] + percent_decoded(s.skip(3))
    } else {
        seq![s[0] as u8] + percent_decoded(s.skip(1))
    }
}

proof fn lemma_percent_bytes_front(bytes: Seq<u8>)
    requires
        bytes.len() > 0,
    ensures
        percent_bytes(bytes) == percent_byte(bytes[0]) + percent_bytes(bytes.skip(1)),
    decreases bytes.len(),
{
    if bytes.len() == 1 {
        assert(bytes.drop_last() =~= Seq::<u8>::empty());
        assert(bytes.skip(1) =~= Seq::<u8>::empty());
        assert(percent_bytes(bytes) =~= percent_byte(bytes[0]) + percent_bytes(bytes.skip(1)));
    } else {
        lemma_percent_bytes_front(bytes.drop_last());
        assert(bytes.drop_last().skip(1) =~= bytes.skip(1).drop_last());
        assert(percent_bytes(bytes) =~= percent_byte(bytes[0]) + percent_bytes(bytes.skip(1)));
    }
}

proof fn lemma_percent_reads_back(bytes: Seq<u8>)
    ensures
        percent_decoded(percent_bytes(bytes)) == bytes,
    decreases bytes.len(),
{
    if bytes.len() == 0 {
    } else {
        let b = bytes[0];
        let s = percent_bytes(bytes);
        let rest = percent_bytes(bytes.skip(1));
        lemma_percent_bytes_front(bytes);
        lemma_percent_reads_back(bytes.skip(1));
        if is_plain_byte(b) {
            assert(s[0] == b as char);
            assert(s.skip(1) =~= rest);
        } else {
            assert(s[0] == '%');
            assert(s[1] == hex_digit(b as int / 16));
            assert(s[2] == hex_digit(b as int % 16));
            assert(hex_value(s[1]) == b as int / 16);
            assert(hex_value(s[2]) == b as int % 16);
            assert(s.skip(3) =~= rest);
        }
        assert(percent_decoded(s) =~= seq![b] + bytes.skip(1));
        assert(bytes =~= seq![b] + bytes.skip(1));
    }
}

/// Where the last parameter of the header that names a download has its value.
pub open spec fn encoded_name_at(name: Seq<char>) -> int {
    "attachment; filename=\""@.len() + name.len() as int + "\"; filename*=UTF-8''"@.len()
}

/// The header that names a download carries every character of the name: a
/// client that reads what stands behind the last parameter has the name back.
pub proof fn law_disposition_carries_name(name: Seq<char>)
    ensures
        decode_utf8(
            percent_decoded(
                disposition(name).skip(encoded_name_at(name)),
            ),
        ) == name,
{
    let encoded = percent_bytes(encode_utf8(name));
    assert(disposition(name).skip(encoded_name_at(name)) =~= encoded);
    lemma_percent_reads_back(encode_utf8(name));
    encode_utf8_decode_utf8(name);
}

} // verus!
