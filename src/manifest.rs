//! Runtime manifests: their sources, per-platform bundles, and the checks made
//! before a bundle is downloaded.

use vstd::prelude::*;
use crate::scheme::{
    https_prefix, remote_url, scheme_allowed, scheme_refusal_text, is_remote_url, lemma_scheme_policy,
    validate_remote_url_scheme,
};
use crate::text::{starts_with_ignore_ascii_case, trim, str_equals, trim_str};

verus! {

/// One platform's interpreter distribution in a manifest.
#[derive(Clone, Debug)]
pub struct RuntimeManifestBundle {
    /// Platform key, `{os}-{arch}`.
    pub target: String,
    /// Primary download URL.
    pub url: String,
    /// Expected SHA-256 digest of the archive, in hex.
    pub sha256: Option<String>,
    /// Mirror URLs, tried after the primary one.
    pub urls: Option<Vec<String>>,
}

/// A runtime manifest: the bundles it offers.
#[derive(Clone, Debug)]
pub struct RuntimeManifest {
    pub bundles: Vec<RuntimeManifestBundle>,
}

/// The character views of a sequence of strings.
pub open spec fn texts(v: Seq<String>) -> Seq<Seq<char>> {
    v.map_values(|s: String| s@)
}

/// Adds `item`, trimmed, to `acc` unless it is blank or already there.
pub open spec fn add_one(acc: Seq<Seq<char>>, item: Seq<char>) -> Seq<Seq<char>> {
    let t = trim(item);
    if t.len() == 0 || acc.contains(t) {
        acc
    } else {
        acc.push(t)
    }
}

/// Adds each of `items` in order, as [`add_one`] does.
pub open spec fn add_unique(acc: Seq<Seq<char>>, items: Seq<Seq<char>>) -> Seq<Seq<char>>
    decreases items.len(),
{
    if items.len() == 0 {
        acc
    } else {
        add_one(add_unique(acc, items.subrange(0, items.len() - 1)), items[items.len() - 1])
    }
}

/// Separators between manifest sources in a single string.
pub open spec fn is_source_sep(c: char) -> bool {
    c == '\n' || c == ',' || c == ';'
}

/// The pieces of `s` between separators, as `str::split` gives them (one empty
/// piece for an empty string).
pub open spec fn split_sources(s: Seq<char>) -> Seq<Seq<char>>
    decreases s.len(),
{
    if s.len() == 0 {
        seq![Seq::empty()]
    } else {
        let p = split_sources(s.subrange(0, s.len() - 1));
        let c = s[s.len() - 1];
        if is_source_sep(c) {
            p.push(Seq::empty())
        } else {
            p.update(p.len() - 1, p[p.len() - 1].push(c))
        }
    }
}

/// The manifest sources named by a delimited string and a list: the pieces of
/// the string, then the list's items, trimmed, without blanks, each kept once
/// where it is first seen.
pub open spec fn collected_sources(
    manifest_url: Option<Seq<char>>,
    manifest_urls: Option<Seq<Seq<char>>>,
) -> Seq<Seq<char>> {
    let first = match manifest_url {
        Some(s) => split_sources(s),
        None => Seq::empty(),
    };
    let second = match manifest_urls {
        Some(l) => l,
        None => Seq::empty(),
    };
    add_unique(add_unique(Seq::empty(), first), second)
}

/// The URLs to try for a bundle: the trimmed primary URL, then the trimmed,
/// non-blank mirrors not seen before.
pub open spec fn download_urls(b: RuntimeManifestBundle) -> Seq<Seq<char>> {
    let mirrors = match b.urls {
        Some(v) => texts(v@),
        None => Seq::empty(),
    };
    add_unique(seq![trim(b.url@)], mirrors)
}

/// A checksum is present when the field holds a non-blank value.
pub open spec fn has_checksum(b: RuntimeManifestBundle) -> bool {
    match b.sha256 {
        Some(v) => trim(v@).len() > 0,
        None => false,
    }
}

/// A bundle may be downloaded when every URL passes the scheme policy and, if
/// any URL is remote, it carries a checksum.
pub open spec fn download_allowed(b: RuntimeManifestBundle) -> bool {
    let u = download_urls(b);
    (forall|i: int| 0 <= i < u.len() ==> scheme_allowed(#[trigger] u[i])) && ((forall|i: int|
        0 <= i < u.len() ==> !remote_url(#[trigger] u[i])) || has_checksum(b))
}

/// What a download URL is called in a scheme refusal.
pub open spec fn download_url_label() -> Seq<char> {
    "runtime 包下载地址"@
}

/// The refusal of a remote bundle without a checksum.
pub open spec fn missing_checksum_text() -> Seq<char> {
    "远程 runtime 包必须提供 sha256 校验值"@
}

/// Position of the first bundle whose target is `target`, if any.
pub open spec fn is_first_match(bundles: Seq<RuntimeManifestBundle>, target: Seq<char>, i: int) -> bool {
    0 <= i < bundles.len() && bundles[i].target@ == target && forall|j: int|
        0 <= j < i ==> (#[trigger] bundles[j]).target@ != target
}

/// Adds `item`, trimmed, to `ordered` unless it is blank or already there.
fn push_unique(ordered: &mut Vec<String>, item: &str)
    ensures
        texts(final(ordered)@) == add_one(texts(old(ordered)@), item@),
{
    let t = trim_str(item);
    if t.unicode_len() == 0 {
        return;
    }
    let ghost acc = texts(ordered@);
    let mut k: usize = 0;
    while k < ordered.len()
        invariant
            acc == texts(ordered@),
            k <= ordered@.len(),
            t@ == trim(item@),
            forall|j: int| 0 <= j < k ==> acc[j] != t@,
        decreases ordered@.len() - k,
    {
        if ordered[k] == t {
            assert(acc[k as int] == t@);
            return;
        }
        k = k + 1;
    }
    assert(!acc.contains(t@));
    ordered.push(t);
    assert(texts(ordered@) =~= acc.push(t@));
}

/// Adds each of `items` to `ordered` as [`push_unique`] does.
fn push_all_unique(ordered: &mut Vec<String>, items: &Vec<String>)
    ensures
        texts(final(ordered)@) == add_unique(texts(old(ordered)@), texts(items@)),
{
    let ghost start = texts(ordered@);
    let mut i: usize = 0;
    assert(texts(items@).subrange(0, 0) =~= Seq::<Seq<char>>::empty());
    while i < items.len()
        invariant
            i <= items@.len(),
            texts(ordered@) == add_unique(start, texts(items@).subrange(0, i as int)),
        decreases items@.len() - i,
    {
        push_unique(ordered, items[i].as_str());
        let ghost pre = texts(items@).subrange(0, i as int);
        let ghost next = texts(items@).subrange(0, i + 1);
        assert(next.subrange(0, next.len() - 1) =~= pre);
        i = i + 1;
    }
    assert(texts(items@).subrange(0, items@.len() as int) =~= texts(items@));
}

/// The platform key `{os}-{arch}`.
pub fn runtime_target_key(os: &str, arch: &str) -> (r: String)
    ensures
        r@ == os@ + seq!['-'] + arch@,
{
    proof {
        reveal_strlit("-");
    }
    String::from_str(os).concat("-").concat(arch)
}

/// The manifest sources from a string delimited by newlines, commas or
/// semicolons, then from a list: trimmed, blanks dropped, each kept once in the
/// order first seen.
pub fn collect_manifest_sources(manifest_url: Option<String>, manifest_urls: Option<Vec<String>>) -> (r: Vec<String>)
    ensures
        texts(r@) == collected_sources(
            match manifest_url {
                Some(s) => Some(s@),
                None => None,
            },
            match manifest_urls {
                Some(l) => Some(texts(l@)),
                None => None,
            },
        ),
{
    let mut ordered: Vec<String> = Vec::new();
    let ghost mut done: Seq<Seq<char>> = Seq::empty();
    assert(texts(ordered@) =~= Seq::<Seq<char>>::empty());
    match &manifest_url {
        Some(raw) => {
            let s = raw.as_str();
            let n = s.unicode_len();
            let mut start: usize = 0;
            let mut i: usize = 0;
            assert(s@.subrange(0, 0) =~= Seq::<char>::empty());
            while i < n
                invariant
                    n == s@.len(),
                    start <= i <= n,
                    split_sources(s@.subrange(0, i as int)) == done.push(s@.subrange(start as int, i as int)),
                    texts(ordered@) == add_unique(Seq::empty(), done),
                decreases n - i,
            {
                let c = s.get_char(i);
                let ghost prefix = s@.subrange(0, i + 1);
                assert(prefix.subrange(0, prefix.len() - 1) =~= s@.subrange(0, i as int));
                assert(prefix[prefix.len() - 1] == c);
                if c == '\n' || c == ',' || c == ';' {
                    push_unique(&mut ordered, s.substring_char(start, i));
                    proof {
                        let piece = s@.subrange(start as int, i as int);
                        let nd = done.push(piece);
                        assert(nd.subrange(0, nd.len() - 1) =~= done);
                        done = nd;
                        assert(s@.subrange(i + 1, i + 1) =~= Seq::<char>::empty());
                    }
                    start = i + 1;
                } else {
                    assert(s@.subrange(start as int, i + 1) =~= s@.subrange(start as int, i as int).push(c));
                    assert(split_sources(prefix) =~= done.push(s@.subrange(start as int, i + 1)));
                }
                i = i + 1;
            }
            push_unique(&mut ordered, s.substring_char(start, n));
            proof {
                let nd = done.push(s@.subrange(start as int, n as int));
                assert(nd.subrange(0, nd.len() - 1) =~= done);
                assert(s@.subrange(0, n as int) =~= s@);
                done = nd;
            }
        },
        None => {},
    }
    let ghost after_first = texts(ordered@);
    match &manifest_urls {
        Some(list) => {
            push_all_unique(&mut ordered, list);
        },
        None => {
            assert(add_unique(after_first, Seq::empty()) == after_first);
        },
    }
    ordered
}

/// The first bundle of `manifest` whose target is exactly `target`.
pub fn select_manifest_bundle<'a>(manifest: &'a RuntimeManifest, target: &str) -> (r: Option<
    &'a RuntimeManifestBundle,
>)
    ensures
        r.is_none() <==> forall|i: int|
            0 <= i < manifest.bundles@.len() ==> (#[trigger] manifest.bundles@[i]).target@ != target@,
        r matches Some(b) ==> exists|i: int|
            is_first_match(manifest.bundles@, target@, i) && *b == manifest.bundles@[i],
{
    let mut i: usize = 0;
    while i < manifest.bundles.len()
        invariant
            i <= manifest.bundles@.len(),
            forall|j: int| 0 <= j < i ==> (#[trigger] manifest.bundles@[j]).target@ != target@,
        decreases manifest.bundles@.len() - i,
    {
        if str_equals(manifest.bundles[i].target.as_str(), target) {
            assert(is_first_match(manifest.bundles@, target@, i as int));
            return Some(&manifest.bundles[i]);
        }
        i = i + 1;
    }
    None
}

/// The URLs to download a bundle from: its trimmed primary URL first, then its
/// trimmed, non-blank mirrors, each kept once.
pub fn resolve_bundle_download_urls(bundle: &RuntimeManifestBundle) -> (r: Vec<String>)
    ensures
        texts(r@) == download_urls(*bundle),
{
    let mut urls: Vec<String> = Vec::new();
    urls.push(trim_str(bundle.url.as_str()));
    assert(texts(urls@) =~= seq![trim(bundle.url@)]);
    match &bundle.urls {
        Some(extra) => {
            push_all_unique(&mut urls, extra);
        },
        None => {},
    }
    urls
}

/// Whether the bundle's checksum field holds a non-blank value.
pub fn bundle_has_checksum(bundle: &RuntimeManifestBundle) -> (r: bool)
    ensures
        r == has_checksum(*bundle),
{
    match &bundle.sha256 {
        Some(value) => trim_str(value.as_str()).unicode_len() > 0,
        None => false,
    }
}

/// The checks made before any download: every URL passes the scheme policy
/// (the first that does not is named in the error), and a bundle with a remote
/// URL carries a checksum. On success, the URLs to try in order.
pub fn plan_bundle_download(bundle: &RuntimeManifestBundle) -> (r: Result<Vec<String>, String>)
    ensures
        r.is_ok() == download_allowed(*bundle),
        r matches Ok(v) ==> texts(v@) == download_urls(*bundle),
        r matches Err(m) ==> {
            let u = download_urls(*bundle);
            (exists|i: int|
                0 <= i < u.len() && !scheme_allowed(u[i]) && (forall|j: int|
                    0 <= j < i ==> scheme_allowed(#[trigger] u[j])) && m@ == download_url_label()
                    + scheme_refusal_text() + trim(u[i])) || ((forall|j: int|
                0 <= j < u.len() ==> scheme_allowed(#[trigger] u[j])) && m@
                == missing_checksum_text())
        },
{
    let urls = resolve_bundle_download_urls(bundle);
    let ghost u = download_urls(*bundle);
    assert(u.len() == urls@.len());
    let mut any_remote = false;
    let mut i: usize = 0;
    while i < urls.len()
        invariant
            u == download_urls(*bundle),
            texts(urls@) == u,
            i <= urls@.len(),
            forall|j: int| 0 <= j < i ==> scheme_allowed(#[trigger] u[j]),
            any_remote == exists|j: int| 0 <= j < i && remote_url(#[trigger] u[j]),
        decreases urls@.len() - i,
    {
        assert(u[i as int] == urls@[i as int]@);
        match validate_remote_url_scheme(urls[i].as_str(), "runtime 包下载地址") {
            Ok(()) => {},
            Err(m) => {
                return Err(m);
            },
        }
        if is_remote_url(urls[i].as_str()) {
            any_remote = true;
        }
        i = i + 1;
    }
    if any_remote && !bundle_has_checksum(bundle) {
        return Err(String::from_str("远程 runtime 包必须提供 sha256 校验值"));
    }
    Ok(urls)
}

/// What happened to one manifest source.
pub enum SourceAttempt {
    /// The source's scheme was refused (the refusal text); nothing was fetched.
    Refused(String),
    /// Fetching or decoding the manifest failed (the error text).
    LoadFailed(String),
    /// The manifest was loaded.
    Loaded(RuntimeManifest),
}

pub open spec fn missing_target_text(source: Seq<char>, target: Seq<char>) -> Seq<char> {
    "manifest `"@ + source + "` 未包含平台 `"@ + target + "`"@
}

pub open spec fn load_failed_text(source: Seq<char>, err: Seq<char>) -> Seq<char> {
    "manifest `"@ + source + "` 加载失败："@ + err
}

/// The texts of `parts` joined with `sep`.
pub open spec fn joined(parts: Seq<Seq<char>>, sep: Seq<char>) -> Seq<char>
    decreases parts.len(),
{
    if parts.len() == 0 {
        Seq::empty()
    } else if parts.len() == 1 {
        parts[0]
    } else {
        joined(parts.subrange(0, parts.len() - 1), sep) + sep + parts[parts.len() - 1]
    }
}

pub open spec fn install_failure_prefix() -> Seq<char> {
    "自动安装失败："@
}

/// One step of going through the manifest sources in order: a source that
/// yields a bundle for `target` ends the search (its index in the manifest is
/// returned); any other outcome adds its error to `errors` and the search goes
/// on with the next source.
pub fn manifest_source_step(
    errors: &mut Vec<String>,
    source: &str,
    target: &str,
    attempt: &SourceAttempt,
) -> (r: Option<usize>)
    ensures
        attempt matches SourceAttempt::Refused(e) ==> r.is_none() && texts(final(errors)@) == texts(
            old(errors)@,
        ).push(e@),
        attempt matches SourceAttempt::LoadFailed(e) ==> r.is_none() && texts(final(errors)@)
            == texts(old(errors)@).push(load_failed_text(source@, e@)),
        attempt matches SourceAttempt::Loaded(m) ==> match r {
            Some(i) => is_first_match(m.bundles@, target@, i as int) && final(errors)@ == old(
                errors,
            )@,
            None => (forall|j: int|
                0 <= j < m.bundles@.len() ==> (#[trigger] m.bundles@[j]).target@ != target@)
                && texts(final(errors)@) == texts(old(errors)@).push(
                missing_target_text(source@, target@),
            ),
        },
{
    let ghost before = texts(errors@);
    match attempt {
        SourceAttempt::Refused(e) => {
            errors.push(String::from_str(e.as_str()));
            assert(texts(errors@) =~= before.push(e@));
            None
        },
        SourceAttempt::LoadFailed(e) => {
            let msg = String::from_str("manifest `").concat(source).concat("` 加载失败：").concat(
                e.as_str(),
            );
            errors.push(msg);
            assert(texts(errors@) =~= before.push(load_failed_text(source@, e@)));
            None
        },
        SourceAttempt::Loaded(m) => {
            let mut i: usize = 0;
            while i < m.bundles.len()
                invariant
                    i <= m.bundles@.len(),
                    attempt is Loaded,
                    attempt->Loaded_0 == *m,
                    errors@ == old(errors)@,
                    forall|j: int| 0 <= j < i ==> (#[trigger] m.bundles@[j]).target@ != target@,
                decreases m.bundles@.len() - i,
            {
                if str_equals(m.bundles[i].target.as_str(), target) {
                    assert(is_first_match(m.bundles@, target@, i as int));
                    return Some(i);
                }
                i = i + 1;
            }
            let msg = String::from_str("manifest `").concat(source).concat("` 未包含平台 `").concat(
                target,
            ).concat("`");
            errors.push(msg);
            assert(texts(errors@) =~= before.push(missing_target_text(source@, target@)));
            None
        },
    }
}

/// The error reported when no source yields a bundle: every source's error,
/// in order, joined with ` | `.
pub fn install_failure_summary(errors: &Vec<String>) -> (r: String)
    ensures
        r@ == install_failure_prefix() + joined(texts(errors@), " | "@),
{
    let mut body = String::new();
    let mut i: usize = 0;
    assert(texts(errors@).subrange(0, 0) =~= Seq::<Seq<char>>::empty());
    while i < errors.len()
        invariant
            i <= errors@.len(),
            body@ == joined(texts(errors@).subrange(0, i as int), " | "@),
        decreases errors@.len() - i,
    {
        let ghost pre = texts(errors@).subrange(0, i as int);
        let ghost next = texts(errors@).subrange(0, i + 1);
        assert(next.subrange(0, next.len() - 1) =~= pre);
        if i > 0 {
            body = body.concat(" | ");
        } else {
            assert(next.len() == 1);
        }
        body = body.concat(errors[i].as_str());
        assert(next[next.len() - 1] == errors@[i as int]@);
        proof {
            if i == 0 {
                assert(body@ =~= next[0]);
            }
        }
        i = i + 1;
    }
    assert(texts(errors@).subrange(0, errors@.len() as int) =~= texts(errors@));
    String::from_str("自动安装失败：").concat(body.as_str())
}

/// `x` occurs among the trimmed `items` before any occurrence of `y`.
pub open spec fn seen_before(items: Seq<Seq<char>>, x: Seq<char>, y: Seq<char>) -> bool {
    exists|i: int|
        0 <= i < items.len() && trim(#[trigger] items[i]) == x && forall|j: int|
            0 <= j <= i ==> trim(#[trigger] items[j]) != y
}

/// `x` is one of the trimmed, non-blank `items`.
pub open spec fn among_items(items: Seq<Seq<char>>, x: Seq<char>) -> bool {
    x.len() > 0 && exists|i: int| 0 <= i < items.len() && trim(#[trigger] items[i]) == x
}

proof fn lemma_add_unique_concat(acc: Seq<Seq<char>>, a: Seq<Seq<char>>, b: Seq<Seq<char>>)
    ensures
        add_unique(add_unique(acc, a), b) == add_unique(acc, a + b),
    decreases b.len(),
{
    if b.len() == 0 {
        assert(a + b =~= a);
    } else {
        let b0 = b.subrange(0, b.len() - 1);
        lemma_add_unique_concat(acc, a, b0);
        let ab = a + b;
        assert(ab.subrange(0, ab.len() - 1) =~= a + b0);
        assert(ab[ab.len() - 1] == b[b.len() - 1]);
    }
}

/// Adding items to a list without duplicates keeps the list as a prefix, adds
/// each distinct trimmed, non-blank item not already there exactly once, and
/// adds them in the order they are first seen.
pub proof fn lemma_add_unique(acc: Seq<Seq<char>>, items: Seq<Seq<char>>)
    requires
        acc.no_duplicates(),
    ensures
        add_unique(acc, items).no_duplicates(),
        add_unique(acc, items).len() >= acc.len(),
        add_unique(acc, items).subrange(0, acc.len() as int) == acc,
        forall|x: Seq<char>|
            add_unique(acc, items).contains(x) <==> (acc.contains(x) || among_items(items, x)),
        forall|a: int, b: int|
            acc.len() <= a < b < add_unique(acc, items).len() ==> seen_before(
                items,
                #[trigger] add_unique(acc, items)[a],
                #[trigger] add_unique(acc, items)[b],
            ),
    decreases items.len(),
{
    let r = add_unique(acc, items);
    if items.len() == 0 {
        assert(acc.subrange(0, acc.len() as int) =~= acc);
    } else {
        let n = items.len();
        let pre = items.subrange(0, n - 1);
        lemma_add_unique(acc, pre);
        let rp = add_unique(acc, pre);
        let t = trim(items[n - 1]);
        assert forall|x: Seq<char>| among_items(pre, x) implies among_items(items, x) by {
            let i = choose|i: int| 0 <= i < pre.len() && trim(#[trigger] pre[i]) == x;
            assert(items[i] == pre[i]);
        }
        assert forall|x: Seq<char>, y: Seq<char>| seen_before(pre, x, y) implies seen_before(
            items,
            x,
            y,
        ) by {
            let i = choose|i: int|
                0 <= i < pre.len() && trim(#[trigger] pre[i]) == x && forall|j: int|
                    0 <= j <= i ==> trim(#[trigger] pre[j]) != y;
            assert(items[i] == pre[i]);
            assert forall|j: int| 0 <= j <= i implies trim(#[trigger] items[j]) != y by {
                assert(items[j] == pre[j]);
            }
        }
        assert forall|x: Seq<char>| among_items(items, x) implies (among_items(pre, x) || x == t) by {
            let i = choose|i: int| 0 <= i < items.len() && trim(#[trigger] items[i]) == x;
            if i < n - 1 {
                assert(pre[i] == items[i]);
            }
        }
        if t.len() == 0 || rp.contains(t) {
            assert(r == rp);
            assert forall|x: Seq<char>| r.contains(x) <==> (acc.contains(x) || among_items(items, x)) by {
                if among_items(items, x) && !among_items(pre, x) {
                    assert(x == t);
                }
            }
        } else {
            assert(r == rp.push(t));
            assert(r.subrange(0, acc.len() as int) =~= rp.subrange(0, acc.len() as int));
            assert forall|x: Seq<char>| r.contains(x) <==> (acc.contains(x) || among_items(items, x)) by {
                if r.contains(x) {
                    let k = choose|k: int| 0 <= k < r.len() && r[k] == x;
                    if k < rp.len() {
                        assert(rp[k] == x);
                        assert(rp.contains(x));
                    } else {
                        assert(items[n - 1] == items[n - 1]);
                    }
                }
                if among_items(items, x) && !among_items(pre, x) {
                    assert(x == t);
                    assert(r[r.len() - 1] == t);
                }
                if acc.contains(x) || among_items(pre, x) {
                    assert(rp.contains(x));
                    let k = choose|k: int| 0 <= k < rp.len() && rp[k] == x;
                    assert(r[k] == x);
                }
            }
            assert forall|a: int, b: int| 0 <= a < b < r.len() implies r[a] != r[b] by {
                if b < rp.len() {
                    assert(r[a] == rp[a] && r[b] == rp[b]);
                } else {
                    assert(r[a] == rp[a]);
                    assert(rp.contains(rp[a]));
                }
            }
            assert forall|a: int, b: int| acc.len() <= a < b < r.len() implies seen_before(
                items,
                #[trigger] r[a],
                #[trigger] r[b],
            ) by {
                if b < rp.len() {
                    assert(r[a] == rp[a] && r[b] == rp[b]);
                    assert(seen_before(pre, rp[a], rp[b]));
                } else {
                    let x = rp[a];
                    assert(r[a] == x);
                    assert(r[b] == t);
                    assert(rp.contains(x));
                    assert(!acc.contains(x)) by {
                        if acc.contains(x) {
                            let k = choose|k: int| 0 <= k < acc.len() && acc[k] == x;
                            assert(rp.subrange(0, acc.len() as int)[k] == rp[k]);
                            assert(rp[k] == x);
                        }
                    }
                    assert(among_items(pre, x));
                    let i = choose|i: int| 0 <= i < pre.len() && trim(#[trigger] pre[i]) == x;
                    assert(items[i] == pre[i]);
                    assert forall|j: int| 0 <= j <= i implies trim(#[trigger] items[j]) != t by {
                        assert(items[j] == pre[j]);
                        if trim(items[j]) == t {
                            assert(among_items(pre, t));
                        }
                    }
                }
            }
        }
    }
}

/// Merging manifest sources: the result holds each distinct trimmed, non-blank
/// source of the delimited string and of the list exactly once, and nothing
/// else, in the order each is first seen (the string's pieces first).
pub proof fn lemma_collected_sources(manifest_url: Seq<char>, manifest_urls: Seq<Seq<char>>)
    ensures
        ({
            let r = collected_sources(Some(manifest_url), Some(manifest_urls));
            let items = split_sources(manifest_url) + manifest_urls;
            &&& r.no_duplicates()
            &&& forall|x: Seq<char>| r.contains(x) <==> among_items(items, x)
            &&& forall|a: int, b: int|
                0 <= a < b < r.len() ==> seen_before(items, #[trigger] r[a], #[trigger] r[b])
        }),
{
    let items = split_sources(manifest_url) + manifest_urls;
    lemma_add_unique_concat(Seq::empty(), split_sources(manifest_url), manifest_urls);
    assert(Seq::<Seq<char>>::empty().no_duplicates());
    lemma_add_unique(Seq::empty(), items);
}

/// Download URLs: the trimmed primary URL comes first, then each distinct
/// trimmed, non-blank mirror other than it exactly once, in first-seen order.
pub proof fn lemma_download_urls(b: RuntimeManifestBundle)
    ensures
        ({
            let u = download_urls(b);
            let mirrors = match b.urls {
                Some(v) => texts(v@),
                None => Seq::empty(),
            };
            &&& u.len() >= 1
            &&& u[0] == trim(b.url@)
            &&& u.no_duplicates()
            &&& forall|x: Seq<char>| u.contains(x) <==> (x == trim(b.url@) || among_items(mirrors, x))
            &&& forall|i: int, j: int|
                1 <= i < j < u.len() ==> seen_before(mirrors, #[trigger] u[i], #[trigger] u[j])
        }),
{
    let acc = seq![trim(b.url@)];
    let mirrors = match b.urls {
        Some(v) => texts(v@),
        None => Seq::empty(),
    };
    lemma_add_unique(acc, mirrors);
    let u = download_urls(b);
    assert(u.subrange(0, 1)[0] == u[0]);
    assert forall|x: Seq<char>| acc.contains(x) <==> x == trim(b.url@) by {
        if x == trim(b.url@) {
            assert(acc[0] == x);
        }
    }
}

/// A manifest whose only bundle targets the host, with a trimmed `https://`
/// URL, no mirrors and a checksum: that bundle is selected, its URL is the one
/// download candidate, and the download is allowed.
pub proof fn lemma_single_bundle_download(b: RuntimeManifestBundle, target: Seq<char>)
    requires
        b.target@ == target,
        b.urls is None,
        trim(b.url@) == b.url@,
        starts_with_ignore_ascii_case(b.url@, https_prefix()),
        has_checksum(b),
    ensures
        is_first_match(seq![b], target, 0),
        download_urls(b) == seq![b.url@],
        download_allowed(b),
{
    let u = download_urls(b);
    assert(u == seq![trim(b.url@)]);
    lemma_scheme_policy(b.url@);
    assert(scheme_allowed(u[0]));
    assert forall|i: int| 0 <= i < u.len() implies scheme_allowed(#[trigger] u[i]) by {
        assert(i == 0);
    }
}

} // verus!
