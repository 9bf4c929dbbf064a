//! URL scheme policy for manifest sources and bundle downloads.

use vstd::prelude::*;
use crate::text::{
    after_last, ascii_lower_code, before_first, eq_ignore_ascii_case, starts_with_ignore_ascii_case, trim,
    equals_ignore_ascii_case, find_after_last, find_first, has_prefix_ignore_ascii_case,
    lemma_after_last_index, lemma_find_char, trim_str,
};

verus! {

pub open spec fn http_prefix() -> Seq<char> {
    seq!['h', 't', 't', 'p', ':', '/', '/']
}

pub open spec fn https_prefix() -> Seq<char> {
    seq!['h', 't', 't', 'p', 's', ':', '/', '/']
}

pub open spec fn file_prefix() -> Seq<char> {
    seq!['f', 'i', 'l', 'e', ':', '/', '/']
}

/// Characters that end the authority of a URL: the start of its path, query or
/// fragment.
pub open spec fn is_authority_end(c: char) -> bool {
    c == '/' || c == '?' || c == '#'
}

/// Index of the first authority-ending character of `s`, or `s.len()`.
pub open spec fn authority_end(s: Seq<char>) -> int
    decreases s.len(),
{
    if s.len() == 0 {
        0
    } else if is_authority_end(s[0]) {
        0
    } else {
        1 + authority_end(s.subrange(1, s.len() as int))
    }
}

/// The host part of an `http://` URL: the authority (the text before the first
/// `/`, `?` or `#`, after any `user@`), then either the text inside `[...]` or
/// the text before the first `:`.
pub open spec fn http_host(url: Seq<char>) -> Seq<char> {
    let suffix = url.subrange(http_prefix().len() as int, url.len() as int);
    let authority = after_last(suffix.subrange(0, authority_end(suffix)), '@');
    if authority.len() > 0 && authority[0] == '[' {
        before_first(authority.subrange(1, authority.len() as int), ']')
    } else {
        before_first(authority, ':')
    }
}

pub open spec fn localhost_name() -> Seq<char> {
    seq!['l', 'o', 'c', 'a', 'l', 'h', 'o', 's', 't']
}

pub open spec fn loopback_v4() -> Seq<char> {
    seq!['1', '2', '7', '.', '0', '.', '0', '.', '1']
}

pub open spec fn loopback_v6() -> Seq<char> {
    seq![':', ':', '1']
}

/// Host names that count as the local machine, compared ignoring ASCII case.
pub open spec fn is_loopback_host(host: Seq<char>) -> bool {
    eq_ignore_ascii_case(host, localhost_name()) || eq_ignore_ascii_case(host, loopback_v4())
        || eq_ignore_ascii_case(host, loopback_v6())
}

/// A plain `http://` URL (scheme in any ASCII case) whose host is the local machine.
pub open spec fn localhost_http(url: Seq<char>) -> bool {
    starts_with_ignore_ascii_case(url, http_prefix()) && is_loopback_host(http_host(url))
}

/// A URL that names a network resource (`http://` or `https://`, in any ASCII
/// case), once trimmed.
pub open spec fn remote_url(url: Seq<char>) -> bool {
    starts_with_ignore_ascii_case(trim(url), http_prefix()) || starts_with_ignore_ascii_case(
        trim(url),
        https_prefix(),
    )
}

/// The scheme policy: an unencrypted `http://` URL is refused unless its host is
/// the local machine; anything else passes.
pub open spec fn scheme_allowed(url: Seq<char>) -> bool {
    !starts_with_ignore_ascii_case(trim(url), http_prefix()) || localhost_http(trim(url))
}

/// The text between the label and the URL in a refusal.
pub open spec fn scheme_refusal_text() -> Seq<char> {
    " 必须使用 https:// 或 file://（仅 localhost 允许 http://）："@
}

proof fn lemma_authority_end(s: Seq<char>, i: int)
    requires
        0 <= i <= s.len(),
        forall|k: int| 0 <= k < i ==> !is_authority_end(#[trigger] s[k]),
        i == s.len() || is_authority_end(s[i]),
    ensures
        authority_end(s) == i,
    decreases s.len(),
{
    if s.len() > 0 && !is_authority_end(s[0]) {
        let t = s.subrange(1, s.len() as int);
        assert forall|k: int| 0 <= k < i - 1 implies !is_authority_end(#[trigger] t[k]) by {
            assert(t[k] == s[k + 1]);
        }
        if i < s.len() {
            assert(t[i - 1] == s[i]);
        }
        lemma_authority_end(t, i - 1);
    }
}

fn ends_authority(c: char) -> (r: bool)
    ensures
        r == is_authority_end(c),
{
    c == '/' || c == '?' || c == '#'
}

/// Index of the first `/`, `?` or `#` of `s`, or its length.
fn find_authority_end(s: &str) -> (r: usize)
    ensures
        r as int == authority_end(s@),
        r <= s@.len(),
{
    let n = s.unicode_len();
    let mut i: usize = 0;
    while i < n && !ends_authority(s.get_char(i))
        invariant
            n == s@.len(),
            i <= n,
            forall|k: int| 0 <= k < i ==> !is_authority_end(#[trigger] s@[k]),
        decreases n - i,
    {
        i = i + 1;
    }
    proof {
        lemma_authority_end(s@, i as int);
    }
    i
}

/// Whether `url` is an `http://` URL whose host is `localhost`, `127.0.0.1` or
/// `[::1]`, with or without user, port, path, query or fragment.
pub fn is_localhost_http_url(url: &str) -> (r: bool)
    ensures
        r == localhost_http(url@),
{
    let http = "http://";
    proof {
        reveal_strlit("http://");
        assert(http@ =~= http_prefix());
    }
    if !has_prefix_ignore_ascii_case(url, http) {
        return false;
    }
    let n = url.unicode_len();
    let suffix = url.substring_char(http.unicode_len(), n);
    let host_port = suffix.substring_char(0, find_authority_end(suffix));
    let authority = host_port.substring_char(find_after_last(host_port, '@'), host_port.unicode_len());
    let alen = authority.unicode_len();
    let host = if alen > 0 && authority.get_char(0) == '[' {
        let inner = authority.substring_char(1, alen);
        inner.substring_char(0, find_first(inner, ']'))
    } else {
        authority.substring_char(0, find_first(authority, ':'))
    };
    let localhost = "localhost";
    let v4 = "127.0.0.1";
    let v6 = "::1";
    proof {
        reveal_strlit("localhost");
        reveal_strlit("127.0.0.1");
        reveal_strlit("::1");
        assert(localhost@ =~= localhost_name());
        assert(v4@ =~= loopback_v4());
        assert(v6@ =~= loopback_v6());
    }
    equals_ignore_ascii_case(host, localhost) || equals_ignore_ascii_case(host, v4)
        || equals_ignore_ascii_case(host, v6)
}

/// Whether `url`, once trimmed, starts with `http://` or `https://` (in any
/// ASCII case).
pub fn is_remote_url(url: &str) -> (r: bool)
    ensures
        r == remote_url(url@),
{
    let t = trim_str(url);
    proof {
        reveal_strlit("http://");
        reveal_strlit("https://");
        assert("http://"@ =~= http_prefix());
        assert("https://"@ =~= https_prefix());
    }
    has_prefix_ignore_ascii_case(t.as_str(), "http://") || has_prefix_ignore_ascii_case(
        t.as_str(),
        "https://",
    )
}

/// Applies the scheme policy to `url` (trimmed first). A refusal names the
/// `label` of what was checked and the trimmed URL.
pub fn validate_remote_url_scheme(url: &str, label: &str) -> (r: Result<(), String>)
    ensures
        r.is_ok() == scheme_allowed(url@),
        r matches Err(m) ==> m@ == label@ + scheme_refusal_text() + trim(url@),
{
    let t = trim_str(url);
    proof {
        reveal_strlit("http://");
        assert("http://"@ =~= http_prefix());
    }
    if has_prefix_ignore_ascii_case(t.as_str(), "http://") && !is_localhost_http_url(t.as_str()) {
        let msg = String::from_str(label).concat(
            " 必须使用 https:// 或 file://（仅 localhost 允许 http://）：",
        ).concat(t.as_str());
        return Err(msg);
    }
    Ok(())
}

/// The scheme policy in full: `https://` and `file://` URLs always pass; an
/// `http://` URL passes exactly when its host is `localhost`, `127.0.0.1` or
/// `[::1]`.
pub proof fn lemma_scheme_policy(url: Seq<char>)
    ensures
        starts_with_ignore_ascii_case(trim(url), https_prefix()) ==> scheme_allowed(url),
        starts_with_ignore_ascii_case(trim(url), file_prefix()) ==> scheme_allowed(url),
        starts_with_ignore_ascii_case(trim(url), http_prefix()) ==> (scheme_allowed(url)
            <==> is_loopback_host(http_host(trim(url)))),
{
    let t = trim(url);
    if starts_with_ignore_ascii_case(t, https_prefix()) {
        assert(t.subrange(0, 8)[4] == t[4]);
        assert(ascii_lower_code(t.subrange(0, 8)[4]) == ascii_lower_code(https_prefix()[4]));
        if starts_with_ignore_ascii_case(t, http_prefix()) {
            assert(t.subrange(0, 7)[4] == t[4]);
            assert(ascii_lower_code(t.subrange(0, 7)[4]) == ascii_lower_code(http_prefix()[4]));
        }
    }
    if starts_with_ignore_ascii_case(t, file_prefix()) {
        assert(t.subrange(0, 7)[0] == t[0]);
        assert(ascii_lower_code(t.subrange(0, 7)[0]) == ascii_lower_code(file_prefix()[0]));
        if starts_with_ignore_ascii_case(t, http_prefix()) {
            assert(ascii_lower_code(t.subrange(0, 7)[0]) == ascii_lower_code(http_prefix()[0]));
        }
    }
}

pub open spec fn bracketed_v6() -> Seq<char> {
    seq!['[', ':', ':', '1', ']']
}

/// A port part: empty, or `:` followed by digits.
pub open spec fn is_port_text(port: Seq<char>) -> bool {
    port.len() == 0 || (port[0] == ':' && forall|i: int|
        1 <= i < port.len() ==> '0' <= #[trigger] port[i] && port[i] <= '9')
}

/// Characters that cannot stand in a host written as `localhost` or `127.0.0.1`.
spec fn is_host_delimiter(c: char) -> bool {
    c == '/' || c == '?' || c == '#' || c == '@' || c == ':' || c == '['
}

proof fn lemma_named_host_chars(h: Seq<char>)
    requires
        eq_ignore_ascii_case(h, localhost_name()) || eq_ignore_ascii_case(h, loopback_v4()),
    ensures
        forall|k: int| 0 <= k < h.len() ==> !is_host_delimiter(#[trigger] h[k]),
{
    assert forall|k: int| 0 <= k < h.len() implies !is_host_delimiter(#[trigger] h[k]) by {
        if eq_ignore_ascii_case(h, localhost_name()) {
            let t = localhost_name();
            assert(ascii_lower_code(h[k]) == ascii_lower_code(t[k]));
            assert(0 <= k < 9);
            assert('a' <= t[k] && t[k] <= 'z') by {
                assert(t[0] == 'l' && t[1] == 'o' && t[2] == 'c' && t[3] == 'a' && t[4] == 'l');
                assert(t[5] == 'h' && t[6] == 'o' && t[7] == 's' && t[8] == 't');
            }
        } else {
            let t = loopback_v4();
            assert(ascii_lower_code(h[k]) == ascii_lower_code(t[k]));
            assert(0 <= k < 9);
            assert(t[k] == '.' || ('0' <= t[k] && t[k] <= '9')) by {
                assert(t[0] == '1' && t[1] == '2' && t[2] == '7' && t[3] == '.' && t[4] == '0');
                assert(t[5] == '.' && t[6] == '0' && t[7] == '.' && t[8] == '1');
            }
        }
    }
}

/// Loopback URLs pass the policy with any port and path: once trimmed,
/// `http://` followed by `localhost` or `127.0.0.1` (in any ASCII case) or
/// `[::1]`, then an optional `:port` and a path that is empty or starts with `/`.
pub proof fn lemma_loopback_urls_allowed(url: Seq<char>, h: Seq<char>, port: Seq<char>, path: Seq<char>)
    requires
        trim(url) == http_prefix() + h + port + path,
        eq_ignore_ascii_case(h, localhost_name()) || eq_ignore_ascii_case(h, loopback_v4()) || h
            == bracketed_v6(),
        is_port_text(port),
        path.len() == 0 || path[0] == '/',
    ensures
        scheme_allowed(url),
{
    let t = trim(url);
    let hp = h + port;
    assert(t.subrange(0, 7) =~= http_prefix());
    assert(eq_ignore_ascii_case(http_prefix(), http_prefix()));
    let suffix = t.subrange(7, t.len() as int);
    assert(suffix =~= hp + path);
    let named = eq_ignore_ascii_case(h, localhost_name()) || eq_ignore_ascii_case(h, loopback_v4());
    if named {
        lemma_named_host_chars(h);
    } else {
        assert(h[0] == '[' && h[1] == ':' && h[2] == ':' && h[3] == '1' && h[4] == ']');
    }
    assert forall|k: int| 0 <= k < hp.len() implies !is_authority_end(#[trigger] suffix[k]) && #[trigger] hp[k]
        != '@' by {
        assert(suffix[k] == hp[k]);
        if k < h.len() {
            assert(hp[k] == h[k]);
        } else {
            assert(hp[k] == port[k - h.len()]);
        }
    }
    if path.len() > 0 {
        assert(suffix[hp.len() as int] == path[0]);
    }
    lemma_authority_end(suffix, hp.len() as int);
    assert(suffix.subrange(0, hp.len() as int) =~= hp);
    lemma_after_last_index(hp, '@', 0);
    let authority = after_last(hp, '@');
    assert(authority =~= hp);
    if named {
        assert(h.len() == 9);
        assert(authority[0] == h[0]);
        assert(authority[0] != '[');
        assert forall|k: int| 0 <= k < h.len() implies hp[k] != ':' by {
            assert(hp[k] == h[k]);
        }
        if port.len() > 0 {
            assert(hp[h.len() as int] == port[0]);
        }
        lemma_find_char(hp, ':', h.len() as int);
        assert(before_first(authority, ':') =~= h);
    } else {
        let inner = authority.subrange(1, authority.len() as int);
        assert(inner[0] == ':' && inner[1] == ':' && inner[2] == '1' && inner[3] == ']');
        lemma_find_char(inner, ']', 3);
        assert(before_first(inner, ']') =~= loopback_v6());
        assert(eq_ignore_ascii_case(loopback_v6(), loopback_v6()));
    }
}

} // verus!
