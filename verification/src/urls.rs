//! URL helpers built on the `url` crate's parser: the base-URL computation
//! used for grouping pages by site, and the normalization applied to user
//! input before the renderer loads it.

use vstd::prelude::*;
use vstd::string::StrSliceExecFns;
use vstd::string::StringExecFns;

verus! {

/// Whether the `url` crate parses `s` as an absolute URL.
pub uninterp spec fn url_parse_ok(s: Seq<char>) -> bool;

/// The host of `s` as the `url` crate reports it: `None` when `s` does not
/// parse or has no host.
pub uninterp spec fn url_host(s: Seq<char>) -> Option<Seq<char>>;

/// Relies on url::Url::parse: whether a string parses is a function of its
/// characters alone.
#[verifier::external_body]
fn url_is_valid(s: &str) -> (r: bool)
    ensures
        r == url_parse_ok(s@),
{
    url::Url::parse(s).is_ok()
}

/// Relies on url::Url::parse and url::Url::host_str: the normalized host of
/// a URL is a function of its characters alone, and is absent exactly when
/// the URL does not parse or has no host.
#[verifier::external_body]
fn host_of(s: &str) -> (r: Option<String>)
    ensures
        r matches Some(h) ==> url_host(s@) == Some(h@),
        r is None ==> url_host(s@) is None,
{
    match url::Url::parse(s) {
        Ok(parsed) => parsed.host_str().map(|h| h.to_string()),
        Err(_) => None,
    }
}

/// How many dots a host contains.
pub open spec fn count_dots(s: Seq<char>) -> int
    decreases s.len(),
{
    if s.len() == 0 {
        0
    } else {
        (if s[0] == '.' {
            1int
        } else {
            0int
        }) + count_dots(s.drop_first())
    }
}

/// A host with its subdomains removed: characters are dropped from the
/// front, each dropped dot shedding one subdomain, until at most one dot —
/// the one before the top-level domain — is left.
pub open spec fn strip_subdomains(host: Seq<char>) -> Seq<char>
    decreases host.len(),
{
    if count_dots(host) <= 1 {
        host
    } else {
        strip_subdomains(host.drop_first())
    }
}

proof fn lemma_count_dots_step(s: Seq<char>, i: int)
    requires
        0 <= i < s.len(),
    ensures
        count_dots(s.skip(i)) == (if s[i] == '.' {
            1int
        } else {
            0int
        }) + count_dots(s.skip(i + 1)),
{
    assert(s.skip(i).drop_first() =~= s.skip(i + 1));
    assert(s.skip(i)[0] == s[i]);
}

fn count_dots_exec(s: &str) -> (count: usize)
    ensures
        count == count_dots(s@),
{
    let n = s.unicode_len();
    let mut count: usize = 0;
    let mut i: usize = 0;
    proof {
        assert(s@.skip(0) =~= s@);
    }
    while i < n
        invariant
            i <= n,
            n == s@.len(),
            count <= i,
            count == count_dots(s@) - count_dots(s@.skip(i as int)),
        decreases n - i,
    {
        proof {
            lemma_count_dots_step(s@, i as int);
        }
        if s.get_char(i) == '.' {
            count += 1;
        }
        i += 1;
    }
    proof {
        assert(s@.skip(n as int) =~= Seq::<char>::empty());
    }
    count
}

fn strip_subdomains_exec(host: &str) -> (r: String)
    ensures
        r@ == strip_subdomains(host@),
{
    let n = host.unicode_len();
    let mut dots = count_dots_exec(host);
    let mut i: usize = 0;
    proof {
        assert(host@.skip(0) =~= host@);
    }
    while dots > 1
        invariant
            i <= n,
            n == host@.len(),
            dots == count_dots(host@.skip(i as int)),
            strip_subdomains(host@) == strip_subdomains(host@.skip(i as int)),
        decreases dots + (n - i),
    {
        proof {
            if i as int == n {
                assert(host@.skip(i as int) =~= Seq::<char>::empty());
            }
            assert(i < n);
            lemma_count_dots_step(host@, i as int);
            assert(host@.skip(i as int).drop_first() =~= host@.skip(i + 1));
            assert(strip_subdomains(host@.skip(i as int)) == strip_subdomains(
                host@.skip(i + 1),
            ));
        }
        if host.get_char(i) == '.' {
            dots -= 1;
        }
        i += 1;
    }
    let r = host.substring_char(i, n).to_owned();
    proof {
        assert(r@ =~= host@.skip(i as int));
    }
    r
}

/// The base URL (domain and top-level domain) of `url`: its host with every
/// subdomain removed. Empty when the URL does not parse or has no host.
pub fn get_base_url(url: &str) -> (r: String)
    ensures
        url_host(url@) matches Some(h) ==> r@ == strip_subdomains(h),
        url_host(url@) is None ==> r@ == Seq::<char>::empty(),
{
    match host_of(url) {
        Some(host) => strip_subdomains_exec(host.as_str()),
        None => String::new(),
    }
}

/// What the renderer is told to load for the input `url`: the input itself
/// when it is a well-formed URL, else the input behind an http:// scheme.
pub fn url_to_load(url: &str) -> (r: String)
    ensures
        url_parse_ok(url@) ==> r@ == url@,
        !url_parse_ok(url@) ==> r@ == "http://"@ + url@,
{
    if url_is_valid(url) {
        url.to_owned()
    } else {
        let mut r = String::from_str("http://");
        r.append(url);
        r
    }
}

} // verus!
