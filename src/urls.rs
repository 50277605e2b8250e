//! Addressing the server: joining a base URL with an API path, and splitting
//! a repository's `owner/name`.

use vstd::prelude::*;

verus! {

/// `s` without its trailing slashes.
pub open spec fn trim_end_slashes(s: Seq<char>) -> Seq<char>
    decreases s.len(),
{
    if s.len() > 0 && s.last() == '/' {
        trim_end_slashes(s.drop_last())
    } else {
        s
    }
}

/// `s` without its leading slashes.
pub open spec fn trim_start_slashes(s: Seq<char>) -> Seq<char>
    decreases s.len(),
{
    if s.len() > 0 && s[0] == '/' {
        trim_start_slashes(s.drop_first())
    } else {
        s
    }
}

/// Position of the first `/` in `s`, or its length where there is none.
pub open spec fn first_slash(s: Seq<char>) -> nat
    decreases s.len(),
{
    if s.len() == 0 {
        0
    } else if s[0] == '/' {
        0
    } else {
        1 + first_slash(s.drop_first())
    }
}

/// The owner part of `owner/name`: everything before the first `/`.
pub open spec fn repo_owner(s: Seq<char>) -> Seq<char> {
    s.take(first_slash(s) as int)
}

/// The name part of `owner/name`: everything after the first `/`, or
/// `unknown` where there is no `/`.
pub open spec fn repo_name(s: Seq<char>) -> Seq<char> {
    if first_slash(s) < s.len() {
        s.skip(first_slash(s) as int + 1)
    } else {
        "unknown"@
    }
}

proof fn lemma_trim_end(s: Seq<char>, e: int)
    requires
        0 <= e <= s.len(),
        forall|j: int| e <= j < s.len() ==> s[j] == '/',
        e == 0 || s[e - 1] != '/',
    ensures
        trim_end_slashes(s) == s.take(e),
    decreases s.len(),
{
    if s.len() > e {
        lemma_trim_end(s.drop_last(), e);
        assert(s.drop_last().take(e) =~= s.take(e));
    } else {
        assert(s.take(e) =~= s);
    }
}

proof fn lemma_trim_start(s: Seq<char>, b: int)
    requires
        0 <= b <= s.len(),
        forall|j: int| 0 <= j < b ==> s[j] == '/',
        b == s.len() || s[b] != '/',
    ensures
        trim_start_slashes(s) == s.skip(b),
    decreases b,
{
    if b > 0 {
        lemma_trim_start(s.drop_first(), b - 1);
        assert(s.drop_first().skip(b - 1) =~= s.skip(b));
    } else {
        assert(s.skip(0) =~= s);
    }
}

proof fn lemma_first_slash(s: Seq<char>, k: int)
    requires
        0 <= k <= s.len(),
        forall|j: int| 0 <= j < k ==> s[j] != '/',
        k == s.len() || s[k] == '/',
    ensures
        first_slash(s) == k,
    decreases k,
{
    if k > 0 {
        lemma_first_slash(s.drop_first(), k - 1);
    }
}

/// `base` without trailing slashes, one `/`, then `path` without leading slashes.
pub fn endpoint(base: &str, path: &str) -> (r: String)
    ensures
        r@ == trim_end_slashes(base@) + seq!['/'] + trim_start_slashes(path@),
{
    let mut e = base.unicode_len();
    while e > 0 && base.get_char(e - 1) == '/'
        invariant
            e <= base@.len(),
            forall|j: int| e <= j < base@.len() ==> base@[j] == '/',
        decreases e,
    {
        e = e - 1;
    }
    let n = path.unicode_len();
    let mut b: usize = 0;
    while b < n && path.get_char(b) == '/'
        invariant
            b <= n,
            n == path@.len(),
            forall|j: int| 0 <= j < b ==> path@[j] == '/',
        decreases n - b,
    {
        b = b + 1;
    }
    proof {
        lemma_trim_end(base@, e as int);
        lemma_trim_start(path@, b as int);
        reveal_strlit("/");
    }
    let mut text = String::from_str(base.substring_char(0, e));
    text.append("/");
    text.append(path.substring_char(b, n));
    assert(base@.subrange(0, e as int) =~= base@.take(e as int));
    assert(path@.subrange(b as int, n as int) =~= path@.skip(b as int));
    text
}

/// Splits `owner/name` at its first `/`; without a `/` the name is `unknown`.
pub fn split_repo_name(repo: &str) -> (r: (String, String))
    ensures
        r.0@ == repo_owner(repo@),
        r.1@ == repo_name(repo@),
{
    let n = repo.unicode_len();
    let mut k: usize = 0;
    while k < n && repo.get_char(k) != '/'
        invariant
            k <= n,
            n == repo@.len(),
            forall|j: int| 0 <= j < k ==> repo@[j] != '/',
        decreases n - k,
    {
        k = k + 1;
    }
    proof {
        lemma_first_slash(repo@, k as int);
    }
    let owner = String::from_str(repo.substring_char(0, k));
    assert(repo@.subrange(0, k as int) =~= repo@.take(k as int));
    let name = if k < n {
        assert(repo@.subrange(k + 1, n as int) =~= repo@.skip(k + 1));
        String::from_str(repo.substring_char(k + 1, n))
    } else {
        String::from_str("unknown")
    };
    (owner, name)
}

} // verus!
