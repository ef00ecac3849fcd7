//! The URLs of an upstream.
use crate::text::{
    all_digits, chars_of, digit, find, find_chars, is_digit, lemma_find_first, occurs_at, stands_at,
    string_from,
};
use vstd::prelude::*;

verus! {

/// A URL without the slashes at its end.
pub open spec fn without_slashes(url: Seq<char>) -> Seq<char>
    decreases url.len(),
{
    if url.len() > 0 && url.last() == '/' {
        without_slashes(url.drop_last())
    } else {
        url
    }
}

/// What follows the last slash of a URL.
pub open spec fn last_segment(url: Seq<char>) -> Seq<char>
    decreases url.len(),
{
    if url.len() == 0 || url.last() == '/' {
        Seq::empty()
    } else {
        last_segment(url.drop_last()).push(url.last())
    }
}

/// A path segment that names a version: a v and a number.
pub open spec fn version_segment(segment: Seq<char>) -> bool {
    segment.len() > 1 && segment[0] == 'v' && all_digits(segment.skip(1))
}

pub open spec fn ends_with(s: Seq<char>, suffix: Seq<char>) -> bool {
    occurs_at(s, suffix, s.len() - suffix.len())
}

/// Where the host of a URL starts, behind its scheme.
pub open spec fn host_start(url: Seq<char>) -> int {
    match find(url, "://"@) {
        Some(i) => i + 3,
        None => 0,
    }
}

/// The path of a URL: what stands behind its host, from the first slash on.
pub open spec fn url_path(url: Seq<char>) -> Seq<char> {
    let rest = url.skip(host_start(url));
    match find(rest, "/"@) {
        Some(i) => rest.skip(i),
        None => Seq::empty(),
    }
}

/// A path that ends in a part of the chat endpoint's path and not in the whole.
pub open spec fn partial_endpoint(path: Seq<char>) -> bool {
    ||| ends_with(path, "/chat"@)
    ||| ends_with(path, "/completions"@) && !ends_with(path, "/chat/completions"@)
}

/// A URL that may be configured: it has neither query nor fragment, and stands for a service, a
/// versioned base or the chat endpoint itself, not for something in between.
pub open spec fn base_url_ok(url: Seq<char>) -> bool {
    &&& !url.contains('?')
    &&& !url.contains('#')
    &&& !partial_endpoint(url_path(without_slashes(url)))
}

/// The versioned base of an API, from any URL that an operator may give: the service, a versioned
/// base, or the chat endpoint itself.
pub open spec fn api_base(url: Seq<char>) -> Seq<char> {
    let base = without_slashes(url);
    let path = url_path(base);
    if ends_with(path, "/chat/completions"@) {
        base.take(base.len() - "/chat/completions"@.len())
    } else if version_segment(last_segment(path)) {
        base
    } else {
        base + "/v1"@
    }
}

/// The service that an API belongs to: its base without the version.
pub open spec fn service_base(url: Seq<char>) -> Seq<char> {
    let base = api_base(url);
    let segment = last_segment(url_path(base));
    if version_segment(segment) {
        base.take(base.len() - segment.len() - 1)
    } else {
        base
    }
}

/// The characters of a URL without the slashes at its end.
fn trimmed(url: &str) -> (chars: Vec<char>)
    ensures
        chars@ == without_slashes(url@),
{
    let mut chars = chars_of(url);
    while chars.len() > 0 && chars[chars.len() - 1] == '/'
        invariant
            without_slashes(url@) == without_slashes(chars@),
        decreases chars@.len(),
    {
        let ghost before = chars@;
        let n = chars.len();
        chars.truncate(n - 1);
        assert(chars@ =~= before.drop_last());
    }
    chars
}

/// The characters from a position on.
fn chars_from(chars: &Vec<char>, start: usize) -> (r: Vec<char>)
    requires
        start <= chars@.len(),
    ensures
        r@ == chars@.skip(start as int),
{
    let n = chars.len();
    let r = chars_of(string_from(chars, start, n).as_str());
    assert(r@ =~= chars@.skip(start as int));
    r
}

/// The path of a URL, which is the end of the URL and starts with a slash.
fn path_of(url: &Vec<char>) -> (path: Vec<char>)
    ensures
        path@ == url_path(url@),
        path@.len() <= url@.len(),
        path@.len() > 0 ==> path@[0] == '/',
{
    let scheme = chars_of("://");
    let slash = chars_of("/");
    proof {
        reveal_strlit("://");
        reveal_strlit("/");
    }
    let n = url.len();
    let start: usize = match find_chars(url, &scheme) {
        Some(i) => {
            assert(i + scheme@.len() <= n);
            i + 3
        },
        None => 0,
    };
    let rest = chars_from(url, start);
    match find_chars(&rest, &slash) {
        Some(i) => {
            let path = chars_from(&rest, i);
            assert(rest@.subrange(i as int, i + 1)[0] == slash@[0]);
            path
        },
        None => Vec::new(),
    }
}

fn path_ends_with(path: &Vec<char>, suffix: &str) -> (r: bool)
    ensures
        r == ends_with(path@, suffix@),
{
    let suffix = chars_of(suffix);
    path.len() >= suffix.len() && stands_at(path, &suffix, path.len() - suffix.len())
}

/// Whether a URL may be configured.
pub fn valid_base_url(url: &str) -> (r: bool)
    ensures
        r == base_url_ok(url@),
{
    let whole = chars_of(url);
    let mut i: usize = 0;
    while i < whole.len()
        invariant
            i <= whole@.len(),
            whole@ == url@,
            forall|j: int| 0 <= j < i ==> #[trigger] whole@[j] != '?' && whole@[j] != '#',
        decreases whole@.len() - i,
    {
        if whole[i] == '?' || whole[i] == '#' {
            assert(url@.contains(whole@[i as int]));
            return false;
        }
        i += 1;
    }
    let path = path_of(&trimmed(url));
    !(path_ends_with(&path, "/chat") || path_ends_with(&path, "/completions") && !path_ends_with(
        &path,
        "/chat/completions",
    ))
}

/// Where the last segment of a URL starts.
fn segment_start(url: &Vec<char>) -> (start: usize)
    ensures
        start <= url@.len(),
        last_segment(url@) == url@.skip(start as int),
        start > 0 ==> url@[start - 1] == '/',
{
    let mut start: usize = url.len();
    let ghost n = url@.len() as int;
    assert(url@.take(n) =~= url@);
    assert(last_segment(url@) =~= last_segment(url@.take(n)) + url@.skip(n));
    while start > 0 && url[start - 1] != '/'
        invariant
            start <= url@.len(),
            last_segment(url@) == last_segment(url@.take(start as int)) + url@.skip(start as int),
        decreases start,
    {
        let ghost here = url@.take(start as int);
        assert(here.drop_last() =~= url@.take(start - 1));
        assert(here.last() == url@[start - 1]);
        assert(last_segment(url@) =~= last_segment(url@.take(start - 1)) + url@.skip(start - 1));
        start -= 1;
    }
    assert(last_segment(url@) =~= url@.skip(start as int));
    start
}

fn is_version_from(url: &Vec<char>, start: usize) -> (r: bool)
    requires
        start <= url@.len(),
    ensures
        r == version_segment(url@.skip(start as int)),
{
    let ghost segment = url@.skip(start as int);
    if url.len() - start < 2 || url[start] != 'v' {
        return false;
    }
    let mut i: usize = start + 1;
    while i < url.len()
        invariant
            start < i <= url@.len(),
            segment == url@.skip(start as int),
            forall|j: int| 0 <= j < i - start - 1 ==> digit(#[trigger] segment.skip(1)[j]),
        decreases url@.len() - i,
    {
        assert(segment.skip(1)[i - start - 1] == url@[i as int]);
        if !is_digit(url[i]) {
            return false;
        }
        i += 1;
    }
    true
}

fn base_of_api(url: &str) -> (r: String)
    ensures
        r@ == api_base(url@),
{
    let chars = trimmed(url);
    let path = path_of(&chars);
    let n = chars.len();
    let endpoint = chars_of("/chat/completions");
    if path_ends_with(&path, "/chat/completions") {
        let base = string_from(&chars, 0, n - endpoint.len());
        assert(base@ =~= chars@.take(n - endpoint@.len()));
        return base;
    }
    let start = segment_start(&path);
    let mut base = string_from(&chars, 0, n);
    assert(base@ =~= chars@);
    if !is_version_from(&path, start) {
        base.append("/v1");
    }
    base
}

/// Where chat requests go.
pub fn chat_completions_url(url: &str) -> (r: String)
    requires
        base_url_ok(url@),
    ensures
        r@ == api_base(url@) + "/chat/completions"@,
{
    let mut base = base_of_api(url);
    base.append("/chat/completions");
    base
}

/// Where the list of models is.
pub fn models_url(url: &str) -> (r: String)
    requires
        base_url_ok(url@),
    ensures
        r@ == api_base(url@) + "/models"@,
{
    let mut base = base_of_api(url);
    base.append("/models");
    base
}

/// Where tokens are counted, which belongs to no version.
pub fn tokenize_url(url: &str) -> (r: String)
    requires
        base_url_ok(url@),
    ensures
        r@ == service_base(url@) + "/tokenize"@,
{
    let base = base_of_api(url);
    let chars = chars_of(base.as_str());
    let path = path_of(&chars);
    let n = chars.len();
    let start = segment_start(&path);
    let end: usize = if is_version_from(&path, start) {
        n - (path.len() - start) - 1
    } else {
        n
    };
    let mut service = string_from(&chars, 0, end);
    assert(service@ =~= service_base(url@));
    service.append("/tokenize");
    service
}

/// The chat endpoint itself is used as it is given.
pub proof fn law_endpoint_is_used_as_given(url: Seq<char>)
    requires
        ends_with(url_path(url), "/chat/completions"@),
    ensures
        api_base(url) + "/chat/completions"@ == url,
{
    reveal_strlit("/chat/completions");
    reveal_strlit("://");
    reveal_strlit("/");
    let endpoint = "/chat/completions"@;
    let path = url_path(url);
    let n = url.len() as int;
    let m = path.len() as int;
    lemma_find_first(url, "://"@);
    let rest = url.skip(host_start(url));
    lemma_find_first(rest, "/"@);
    assert(m >= 17);
    assert(path =~= url.skip(n - m));
    assert(url.subrange(n - 17, n) =~= path.subrange(m - 17, m));
    assert(url.last() == endpoint[16]);
    assert(without_slashes(url) == url);
    assert(url.take(n - 17) + endpoint =~= url);
}

} // verus!
