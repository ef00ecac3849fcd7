//! Where an upstream's endpoints are.
use crate::endpoints::{
    api_base, base_url_ok, ends_with, last_segment, service_base, url_path,
    version_segment, without_slashes,
};
use crate::text::{all_digits, digit, find, lemma_find_first, lemma_find_is, occurs_at};
use vstd::prelude::*;

verus! {

/// Slashes at the end of a URL make no difference.
pub proof fn law_slashes_at_the_end(url: Seq<char>)
    ensures
        api_base(url.push('/')) == api_base(url),
        service_base(url.push('/')) == service_base(url),
{
    assert(url.push('/').drop_last() =~= url);
    assert(without_slashes(url.push('/')) == without_slashes(url));
}

/// The last segment of a path is what follows its last slash.
pub proof fn law_last_segment(before: Seq<char>, segment: Seq<char>)
    requires
        !segment.contains('/'),
    ensures
        last_segment(before + seq!['/'] + segment) == segment,
    decreases segment.len(),
{
    let whole = before + seq!['/'] + segment;
    if segment.len() == 0 {
        assert(whole.last() == '/');
        assert(last_segment(whole) =~= segment);
    } else {
        let rest = segment.drop_last();
        assert(!rest.contains('/')) by {
            if rest.contains('/') {
                let k = choose|k: int| 0 <= k < rest.len() && rest[k] == '/';
                assert(segment[k] == '/');
            }
        }
        law_last_segment(before, rest);
        assert(whole.drop_last() =~= before + seq!['/'] + rest);
        assert(whole.last() == segment.last());
        assert(segment.last() != '/') by {
            assert(segment.contains(segment[segment.len() - 1]));
        }
        assert(last_segment(whole) =~= segment);
    }
}

/// A version is a "v" and a number.
pub proof fn law_versions(segment: Seq<char>)
    ensures
        version_segment(segment) <==> segment.len() >= 2 && segment[0] == 'v' && forall|i: int|
            1 <= i < segment.len() ==> '0' <= #[trigger] segment[i] <= '9',
{
    let rest = segment.skip(1);
    if version_segment(segment) {
        assert forall|i: int| 1 <= i < segment.len() implies '0' <= #[trigger] segment[i] <= '9' by {
            assert(digit(rest[i - 1]));
        }
    }
    if segment.len() >= 2 && segment[0] == 'v' && forall|i: int|
        1 <= i < segment.len() ==> '0' <= #[trigger] segment[i] <= '9' {
        assert forall|i: int| 0 <= i < rest.len() implies digit(#[trigger] rest[i]) by {
            assert(rest[i] == segment[i + 1]);
        }
        assert(all_digits(rest));
    }
}

/// The path of a URL starts with the first slash behind its host.
pub proof fn law_path_is_behind_the_host(scheme: Seq<char>, host: Seq<char>, path: Seq<char>)
    requires
        forall|i: int| 0 <= i < scheme.len() ==> #[trigger] scheme[i] != ':',
        !host.contains('/'),
        path.len() == 0 || path[0] == '/',
    ensures
        url_path(scheme + "://"@ + host + path) == path,
{
    reveal_strlit("://");
    reveal_strlit("/");
    let mark = "://"@;
    let slash = "/"@;
    let url = scheme + mark + host + path;
    let n = scheme.len() as int;
    assert(url.subrange(n, n + 3) =~= mark);
    assert forall|j: int| 0 <= j < n implies !#[trigger] occurs_at(url, mark, j) by {
        if occurs_at(url, mark, j) {
            assert(url.subrange(j, j + 3)[0] == mark[0]);
            assert(scheme[j] == ':');
        }
    }
    lemma_find_is(url, mark, n);
    let rest = host + path;
    assert(url.skip(n + 3) =~= rest);
    let m = host.len() as int;
    if path.len() == 0 {
        lemma_find_first(rest, slash);
        if find(rest, slash) is Some {
            let i = find(rest, slash)->0;
            assert(rest.subrange(i, i + 1)[0] == slash[0]);
            assert(host[i] == '/');
        }
        assert(url_path(url) =~= path);
    } else {
        assert(rest.subrange(m, m + 1) =~= slash);
        assert forall|j: int| 0 <= j < m implies !#[trigger] occurs_at(rest, slash, j) by {
            if occurs_at(rest, slash, j) {
                assert(rest.subrange(j, j + 1)[0] == slash[0]);
                assert(host[j] == '/');
            }
        }
        lemma_find_is(rest, slash, m);
        assert(rest.skip(m) =~= path);
    }
}

/// Without a scheme the host comes first.
pub proof fn law_path_without_a_scheme(host: Seq<char>, path: Seq<char>)
    requires
        !host.contains('/'),
        path.len() == 0 || path[0] == '/',
        forall|i: int| !#[trigger] occurs_at(host + path, "://"@, i),
    ensures
        url_path(host + path) == path,
{
    reveal_strlit("/");
    let slash = "/"@;
    let url = host + path;
    let m = host.len() as int;
    lemma_find_first(url, "://"@);
    assert(find(url, "://"@) is None);
    assert(url.skip(0) =~= url);
    lemma_find_first(url, slash);
    if path.len() == 0 {
        if find(url, slash) is Some {
            let i = find(url, slash)->0;
            assert(url.subrange(i, i + 1)[0] == slash[0]);
            assert(host[i] == '/');
        }
        assert(url_path(url) =~= path);
    } else {
        assert(url.subrange(m, m + 1) =~= slash);
        assert forall|j: int| 0 <= j < m implies !#[trigger] occurs_at(url, slash, j) by {
            if occurs_at(url, slash, j) {
                assert(url.subrange(j, j + 1)[0] == slash[0]);
                assert(host[j] == '/');
            }
        }
        lemma_find_is(url, slash, m);
        assert(url.skip(m) =~= path);
    }
}

/// A text without a slash is one segment.
pub proof fn law_one_segment(segment: Seq<char>)
    requires
        !segment.contains('/'),
    ensures
        last_segment(segment) == segment,
    decreases segment.len(),
{
    if segment.len() > 0 {
        let rest = segment.drop_last();
        assert(!rest.contains('/')) by {
            if rest.contains('/') {
                let k = choose|k: int| 0 <= k < rest.len() && rest[k] == '/';
                assert(segment[k] == '/');
            }
        }
        law_one_segment(rest);
        assert(segment.contains(segment[segment.len() - 1]));
        assert(rest.push(segment.last()) =~= segment);
    } else {
        assert(last_segment(segment) =~= segment);
    }
}

/// A service has its API under "/v1"; a versioned base is the base; and the service of a versioned
/// base is what stands before the version.
pub proof fn law_base_of_an_api(url: Seq<char>)
    requires
        url.len() > 0,
        url.last() != '/',
        !ends_with(url_path(url), "/chat/completions"@),
    ensures
        ({
            let segment = last_segment(url_path(url));
            &&& !version_segment(segment) ==> api_base(url) == url + "/v1"@
            &&& version_segment(segment) ==> api_base(url) == url
            &&& version_segment(segment) ==> service_base(url) == url.take(
                url.len() - segment.len() - 1,
            )
        }),
{
    assert(without_slashes(url) == url);
}

/// Which URLs are rejected: those with a query or a fragment, and those whose path ends in a part
/// of the chat endpoint.
pub proof fn law_rejected_urls(url: Seq<char>)
    ensures
        url.contains('?') ==> !base_url_ok(url),
        url.contains('#') ==> !base_url_ok(url),
        ends_with(url_path(without_slashes(url)), "/chat"@) ==> !base_url_ok(url),
        ends_with(url_path(without_slashes(url)), "/completions"@) && !ends_with(
            url_path(without_slashes(url)),
            "/chat/completions"@,
        ) ==> !base_url_ok(url),
        !url.contains('?') && !url.contains('#') && !ends_with(
            url_path(without_slashes(url)),
            "/chat"@,
        ) && !ends_with(url_path(without_slashes(url)), "/completions"@) ==> base_url_ok(url),
{
}

/// A text ends with a suffix if and only if it is something and the suffix behind it.
pub proof fn law_ends_with(s: Seq<char>, before: Seq<char>, suffix: Seq<char>)
    ensures
        ends_with(before + suffix, suffix),
        ends_with(s, suffix) ==> s == s.take(s.len() - suffix.len()) + suffix,
{
    let whole = before + suffix;
    let n = before.len() as int;
    assert(whole.subrange(n, n + suffix.len()) =~= suffix);
    if ends_with(s, suffix) {
        let k = s.len() - suffix.len();
        assert(s.subrange(k, k + suffix.len()) == suffix);
        assert(s.take(k) + s.subrange(k, k + suffix.len()) =~= s);
    }
}

} // verus!
