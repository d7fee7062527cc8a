//! What the management listener lets in. It is for the browser on this machine:
//! a page from elsewhere that gets a request sent to it is turned away.

use crate::headers::{header_of, header_text, RequestHeaders};
use crate::text::{
    chars_of, cut_at, first_index, has_prefix, index_of, lemma_first_index_is, lowercase, same_text,
    starts_with, text_of, to_lowercase,
};
use vstd::prelude::*;
use vstd::slice::slice_subrange;

verus! {

/// An answer that turns a request away.
pub struct Refusal {
    pub status: u16,
    pub message: String,
}

/// The name in a `Host` header, without the port: what stands in brackets, or
/// what stands before the first colon.
pub open spec fn host_name(host: Seq<char>) -> Seq<char> {
    let bracketed = if host.len() > 0 && host[0] == '[' {
        cut_at(host.skip(1), ']')
    } else {
        None
    };
    match bracketed {
        Some((name, _)) => name,
        None => match cut_at(host, ':') {
            Some((name, _)) => name,
            None => host,
        },
    }
}

/// The names that this machine has for itself.
pub open spec fn is_local_name(name: Seq<char>) -> bool {
    lowercase(name) == "127.0.0.1"@ || lowercase(name) == "localhost"@ || lowercase(name)
        == "::1"@
}

/// The origins of the dashboard: this machine, under any port.
pub open spec fn is_local_origin(origin: Seq<char>) -> bool {
    let origin = lowercase(origin);
    has_prefix(origin, "http://127.0.0.1:"@) || has_prefix(origin, "http://localhost:"@)
        || has_prefix(origin, "https://127.0.0.1:"@) || has_prefix(origin, "https://localhost:"@)
}

/// Why a request is turned away, if it is.
pub open spec fn refusal(headers: RequestHeaders) -> Option<Seq<char>> {
    if header_of(headers.host) matches Some(host) && !is_local_name(host_name(host)) {
        Some("management interface is local-only"@)
    } else if header_of(headers.origin) matches Some(origin) && !is_local_origin(origin) {
        Some("cross-origin management request rejected"@)
    } else {
        None
    }
}

/// The name in a `Host` header, without the port.
pub fn hostname(host: &[char]) -> (r: String)
    ensures
        r@ == host_name(host@),
{
    let n: usize = host.len();
    if n > 0 && host[0] == '[' {
        let rest = slice_subrange(host, 1, n);
        assert(rest@ =~= host@.skip(1));
        let end: usize = index_of(rest, ']');
        if end < n - 1 {
            let name = slice_subrange(rest, 0, end);
            assert(name@ =~= rest@.take(end as int));
            return text_of(name);
        }
    }
    let end: usize = index_of(host, ':');
    let name = slice_subrange(host, 0, end);
    assert(name@ =~= host@.take(end as int));
    assert(end == n ==> name@ =~= host@);
    text_of(name)
}

fn local_name(name: &str) -> (r: bool)
    ensures
        r == is_local_name(name@),
{
    let name = to_lowercase(name);
    same_text(name.as_str(), "127.0.0.1") || same_text(name.as_str(), "localhost") || same_text(
        name.as_str(),
        "::1",
    )
}

fn local_origin(origin: &str) -> (r: bool)
    ensures
        r == is_local_origin(origin@),
{
    let origin = chars_of(to_lowercase(origin).as_str());
    starts_with(origin.as_slice(), chars_of("http://127.0.0.1:").as_slice()) || starts_with(
        origin.as_slice(),
        chars_of("http://localhost:").as_slice(),
    ) || starts_with(origin.as_slice(), chars_of("https://127.0.0.1:").as_slice()) || starts_with(
        origin.as_slice(),
        chars_of("https://localhost:").as_slice(),
    )
}

/// Decides on a request to the management listener: `None` lets it in.
pub fn validate_management_request(headers: &RequestHeaders) -> (r: Option<Refusal>)
    ensures
        match r {
            None => refusal(*headers) is None,
            Some(no) => no.status == 403 && refusal(*headers) == Some(no.message@),
        },
{
    if let Some(host) = header_text(&headers.host) {
        let name = hostname(host.as_slice());
        if !local_name(name.as_str()) {
            return Some(
                Refusal { status: 403, message: "management interface is local-only".to_string() },
            );
        }
    }
    if let Some(origin) = header_text(&headers.origin) {
        let origin = text_of(origin.as_slice());
        if !local_origin(origin.as_str()) {
            return Some(
                Refusal {
                    status: 403,
                    message: "cross-origin management request rejected".to_string(),
                },
            );
        }
    }
    None
}

/// A name of another machine in the `Host` header is turned away, whatever the
/// port: a page elsewhere does not reach the dashboard by having its own name
/// point to this machine.
pub proof fn law_foreign_host_is_refused(
    headers: RequestHeaders,
    name: Seq<char>,
    port: Seq<char>,
)
    requires
        header_of(headers.host) == Some(name + port),
        name.len() > 0 ==> name[0] != '[',
        forall|i: int| 0 <= i < name.len() ==> name[i] != ':',
        port.len() > 0 ==> port[0] == ':',
        !is_local_name(name),
    ensures
        refusal(headers) == Some("management interface is local-only"@),
{
    let host = name + port;
    assert(name.len() > 0 ==> host[0] == name[0]);
    assert(name.len() == 0 && port.len() > 0 ==> host[0] == port[0]);
    assert forall|j: int| 0 <= j < name.len() implies host[j] != ':' by {
        assert(host[j] == name[j]);
    }
    lemma_first_index_is(host, ':', name.len() as int);
    assert(host_name(host) =~= name);
}

/// What the first colon of a text is, where the text begins so.
proof fn lemma_colon_of_prefix(s: Seq<char>, prefix: Seq<char>, at: int)
    requires
        has_prefix(s, prefix),
        0 <= at < prefix.len(),
        prefix[at] == ':',
        forall|j: int| 0 <= j < at ==> prefix[j] != ':',
    ensures
        first_index(s, ':') == at,
{
    assert forall|j: int| 0 <= j < prefix.len() implies s[j] == prefix[j] by {
        assert(s.take(prefix.len() as int)[j] == s[j]);
    }
    lemma_first_index_is(s, ':', at);
}

/// An origin of the shape `scheme://name`, with or without a port or a path, whose
/// name is not that of this machine is turned away, where the `Host` header does
/// not turn the request away before.
pub proof fn law_foreign_origin_is_refused(
    headers: RequestHeaders,
    scheme: Seq<char>,
    name: Seq<char>,
    rest: Seq<char>,
)
    requires
        header_of(headers.origin) == Some(scheme + "://"@ + name + rest),
        forall|i: int| 0 <= i < scheme.len() ==> scheme[i] != ':',
        forall|i: int| 0 <= i < name.len() ==> name[i] != ':',
        rest.len() > 0 ==> rest[0] == ':' || rest[0] == '/',
        !is_local_name(name),
    ensures
        refusal(headers) is Some,
        header_of(headers.host) is None ==> refusal(headers) == Some(
            "cross-origin management request rejected"@,
        ),
{
    reveal_strlit("://");
    reveal_strlit("http://127.0.0.1:");
    reveal_strlit("http://localhost:");
    reveal_strlit("https://127.0.0.1:");
    reveal_strlit("https://localhost:");
    reveal_strlit("127.0.0.1");
    reveal_strlit("localhost");
    let origin = scheme + "://"@ + name + rest;
    let low = lowercase(origin);
    let a = scheme.len() as int;
    let b = a + 3;
    assert forall|j: int| 0 <= j < a implies low[j] != ':' by {
        assert(origin[j] == scheme[j]);
    }
    assert(origin[a] == ':' && low[a] == ':');
    lemma_first_index_is(low, ':', a);
    assert forall|j: int| 0 <= j < name.len() implies low[b + j] == lowercase(name)[j] && low[b + j]
        != ':' by {
        assert(origin[b + j] == name[j]);
    }
    if rest.len() > 0 {
        assert(origin[b + name.len()] == rest[0]);
    }
    if is_local_origin(origin) {
        let prefix = if has_prefix(low, "http://127.0.0.1:"@) {
            "http://127.0.0.1:"@
        } else if has_prefix(low, "http://localhost:"@) {
            "http://localhost:"@
        } else if has_prefix(low, "https://127.0.0.1:"@) {
            "https://127.0.0.1:"@
        } else {
            "https://localhost:"@
        };
        let at: int = if prefix[4] == ':' {
            4
        } else {
            5
        };
        lemma_colon_of_prefix(low, prefix, at);
        assert(at == a);
        assert forall|j: int| 0 <= j < prefix.len() implies low[j] == prefix[j] by {
            assert(low.take(prefix.len() as int)[j] == low[j]);
        }
        let n = name.len() as int;
        assert(prefix.len() == b + 10);
        assert(prefix[b + 9] == ':');
        assert(low[b + 9] == ':');
        if n > 9 {
            assert(low[b + 9] == lowercase(name)[9]);
        }
        if n < 9 {
            assert(low[b + n] == prefix[b + n]);
            assert(prefix[b + n] != ':' && prefix[b + n] != '/');
        }
        assert(n == 9);
        assert forall|j: int| 0 <= j < 9 implies lowercase(name)[j] == prefix[b + j] by {
            assert(low[b + j] == lowercase(name)[j]);
        }
        assert(lowercase(name) =~= prefix.subrange(b, b + 9));
        assert(prefix.subrange(b, b + 9) =~= "127.0.0.1"@ || prefix.subrange(b, b + 9)
            =~= "localhost"@);
    }
}

} // verus!
