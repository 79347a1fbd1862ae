//! Extracting the owner and the repository name from a repository URL.
//!
//! A repository link such as `https://host/owner/repo.git` is parsed by the
//! `url` crate; the path is then cleaned of `.git` and cut at the slashes,
//! and the first two path segments are the owner and the repository name.

use vstd::prelude::*;

verus! {

/// Why a repository URL yields no owner and repository name.
#[derive(Clone, Copy, PartialEq, Eq, Structural, Debug)]
pub enum UrlError {
    /// The text is not a parsable URL.
    Unparsable,
    /// The URL parsed, but its path has fewer than two segments after the
    /// leading slash.
    TooFewSegments,
}

/// `s` with every occurrence of `pat` removed, scanning left to right and
/// never rescanning removed text, as `str::replace` with an empty
/// replacement does.
pub open spec fn spec_remove_all(s: Seq<char>, pat: Seq<char>) -> Seq<char>
    decreases s.len(),
{
    if pat.len() == 0 || s.len() < pat.len() {
        s
    } else if s.take(pat.len() as int) == pat {
        spec_remove_all(s.skip(pat.len() as int), pat)
    } else {
        seq![s[0]] + spec_remove_all(s.drop_first(), pat)
    }
}

/// `s` cut at every occurrence of `sep`, empty segments kept, as
/// `str::split` does. The result always holds at least one segment.
pub open spec fn spec_split(s: Seq<char>, sep: char) -> Seq<Seq<char>>
    decreases s.len(),
{
    if s.len() == 0 {
        seq![Seq::<char>::empty()]
    } else if s[0] == sep {
        seq![Seq::<char>::empty()] + spec_split(s.drop_first(), sep)
    } else {
        let rest = spec_split(s.drop_first(), sep);
        seq![seq![s[0]] + rest[0]] + rest.drop_first()
    }
}

/// The path component that the `url` crate's parser gives the URL text, or
/// nothing when the text does not parse. Parsing depends on the text alone.
pub uninterp spec fn parsed_path(url: Seq<char>) -> Option<Seq<char>>;

/// Relies on `url::Url::parse` and `url::Url::path`: parsing is a function
/// of the input text alone, and on success `path()` returns the URL's path
/// component, whose characters are handed back.
#[verifier::external_body]
fn parse_url_path(url: &str) -> (r: Option<Vec<char>>)
    ensures
        ({
            match r {
                Some(p) => parsed_path(url@) == Some(p@),
                None => parsed_path(url@) is None,
            }
        }),
{
    match url::Url::parse(url) {
        Ok(parsed) => Some(parsed.path().chars().collect()),
        Err(_) => None,
    }
}

/// Relies on `String::from_iter`: collects exactly the given characters.
#[verifier::external_body]
fn string_from_chars(v: &Vec<char>) -> (r: String)
    ensures
        r@ == v@,
{
    v.iter().collect()
}

/// `v` with every occurrence of `.git` removed, as `spec_remove_all` states.
pub fn strip_git(v: &Vec<char>) -> (r: Vec<char>)
    ensures
        r@ == spec_remove_all(v@, ".git"@),
{
    proof {
        reveal_strlit(".git");
    }
    let ghost pat = ".git"@;
    let mut out: Vec<char> = Vec::new();
    let mut i: usize = 0;
    proof {
        assert(v@.skip(0) =~= v@);
        assert(out@ + spec_remove_all(v@, pat) =~= spec_remove_all(v@, pat));
    }
    while i < v.len()
        invariant
            0 <= i <= v@.len(),
            pat == ".git"@,
            pat.len() == 4,
            pat[0] == '.' && pat[1] == 'g' && pat[2] == 'i' && pat[3] == 't',
            spec_remove_all(v@, pat) == out@ + spec_remove_all(v@.skip(i as int), pat),
        decreases v@.len() - i,
    {
        let ghost s = v@.skip(i as int);
        if v.len() - i >= 4 && v[i] == '.' && v[i + 1] == 'g' && v[i + 2] == 'i' && v[i + 3]
            == 't' {
            proof {
                assert forall|j: int| 0 <= j < 4 implies s.take(4)[j] == pat[j] by {
                    assert(s.take(4)[j] == v@[i + j]);
                };
                assert(s.take(4) =~= pat);
                assert(s.skip(4) =~= v@.skip(i + 4));
                assert(spec_remove_all(s, pat) == spec_remove_all(v@.skip(i + 4), pat));
            }
            i = i + 4;
        } else {
            let ghost prev_out = out@;
            let c = v[i];
            out.push(c);
            proof {
                assert(s[0] == v@[i as int]);
                assert(s.drop_first() =~= v@.skip(i + 1));
                assert(out@ =~= prev_out.push(s[0]));
                if s.len() >= 4 {
                    if v@[i as int] != '.' {
                        assert(s.take(4)[0] != pat[0]);
                    } else if v@[i + 1] != 'g' {
                        assert(s.take(4)[1] != pat[1]);
                    } else if v@[i + 2] != 'i' {
                        assert(s.take(4)[2] != pat[2]);
                    } else {
                        assert(v@[i + 3] != 't');
                        assert(s.take(4)[3] != pat[3]);
                    }
                    assert(s.take(4) != pat);
                    assert(spec_remove_all(s, pat) == seq![s[0]] + spec_remove_all(
                        s.drop_first(),
                        pat,
                    ));
                } else {
                    assert(spec_remove_all(s, pat) == s);
                    assert(spec_remove_all(s.drop_first(), pat) == s.drop_first());
                    assert(s =~= seq![s[0]] + s.drop_first());
                }
                assert(prev_out + (seq![s[0]] + spec_remove_all(s.drop_first(), pat)) =~= out@
                    + spec_remove_all(v@.skip(i + 1), pat));
            }
            i = i + 1;
        }
    }
    proof {
        assert(v@.skip(v@.len() as int) =~= Seq::<char>::empty());
        assert(spec_remove_all(Seq::<char>::empty(), pat) == Seq::<char>::empty());
        assert(out@ + Seq::<char>::empty() =~= out@);
    }
    out
}

/// `v` cut at every occurrence of `sep`, as `spec_split` states.
pub fn split_chars(v: &Vec<char>, sep: char) -> (r: Vec<Vec<char>>)
    ensures
        r@.map_values(|x: Vec<char>| x@) == spec_split(v@, sep),
        r@.len() >= 1,
{
    let mut r: Vec<Vec<char>> = Vec::new();
    r.push(Vec::new());
    let mut i: usize = v.len();
    proof {
        assert(v@.skip(v@.len() as int) =~= Seq::<char>::empty());
        assert(r@.map_values(|x: Vec<char>| x@) =~= seq![Seq::<char>::empty()]);
    }
    while i > 0
        invariant
            0 <= i <= v@.len(),
            r@.len() >= 1,
            r@.map_values(|x: Vec<char>| x@) == spec_split(v@.skip(i as int), sep),
        decreases i,
    {
        i = i - 1;
        let ghost prev = r@;
        let ghost s = v@.skip(i as int);
        proof {
            assert(s[0] == v@[i as int]);
            assert(s.drop_first() =~= v@.skip(i + 1));
        }
        let c = v[i];
        if c == sep {
            r.insert(0, Vec::new());
            proof {
                assert(spec_split(s, sep) == seq![Seq::<char>::empty()] + spec_split(
                    s.drop_first(),
                    sep,
                ));
                let m = r@.map_values(|x: Vec<char>| x@);
                let pm = prev.map_values(|x: Vec<char>| x@);
                assert forall|j: int| 0 <= j < m.len() implies #[trigger] m[j] == spec_split(
                    s,
                    sep,
                )[j] by {
                    assert(m[j] == r@[j]@);
                    if j > 0 {
                        assert(r@[j] == prev[j - 1]);
                        assert(pm[j - 1] == prev[j - 1]@);
                    }
                };
                assert(r@.map_values(|x: Vec<char>| x@) =~= spec_split(s, sep));
            }
        } else {
            let ghost rest = spec_split(v@.skip(i + 1), sep);
            let mut first = r.remove(0);
            first.insert(0, c);
            r.insert(0, first);
            proof {
                assert(spec_split(s, sep) == seq![seq![s[0]] + rest[0]] + rest.drop_first());
                let m = r@.map_values(|x: Vec<char>| x@);
                let pm = prev.map_values(|x: Vec<char>| x@);
                assert(pm[0] == prev[0]@);
                assert(first@ =~= seq![s[0]] + prev[0]@);
                assert(r@ =~= seq![first] + prev.drop_first());
                assert forall|j: int| 0 <= j < m.len() implies #[trigger] m[j] == spec_split(
                    s,
                    sep,
                )[j] by {
                    assert(m[j] == r@[j]@);
                    if j == 0 {
                        assert(r@[0] == first);
                        assert(rest[0] == pm[0]);
                    } else {
                        assert(r@[j] == prev[j]);
                        assert(pm[j] == prev[j]@);
                        assert(spec_split(s, sep)[j] == rest.drop_first()[j - 1]);
                        assert(rest[j] == pm[j]);
                    }
                };
                assert(r@.map_values(|x: Vec<char>| x@) =~= spec_split(s, sep));
            }
        }
    }
    proof {
        assert(v@.skip(0) =~= v@);
    }
    r
}

/// The owner and the repository name of a repository URL: the second and the
/// third slash-separated segment of the URL's path, after every `.git` was
/// removed. An unparsable URL, or a path with too few segments for an owner
/// and a repository, is reported as an error; nothing here panics.
pub fn check_url(url: &str) -> (r: Result<(String, String), UrlError>)
    ensures
        ({
            let p = parsed_path(url@);
            match r {
                Ok(pair) => {
                    &&& p is Some
                    &&& ({
                        let parts = spec_split(spec_remove_all(p.unwrap(), ".git"@), '/');
                        &&& parts.len() >= 3
                        &&& pair.0@ == parts[1]
                        &&& pair.1@ == parts[2]
                    })
                },
                Err(UrlError::Unparsable) => p is None,
                Err(UrlError::TooFewSegments) => {
                    &&& p is Some
                    &&& spec_split(spec_remove_all(p.unwrap(), ".git"@), '/').len() < 3
                },
            }
        }),
{
    let path = match parse_url_path(url) {
        Some(p) => p,
        None => {
            return Err(UrlError::Unparsable);
        },
    };
    let cleaned = strip_git(&path);
    let parts = split_chars(&cleaned, '/');
    if parts.len() < 3 {
        return Err(UrlError::TooFewSegments);
    }
    let owner = string_from_chars(&parts[1]);
    let repo = string_from_chars(&parts[2]);
    Ok((owner, repo))
}

} // verus!
