//! One key for every way of writing the address of a repository.
//!
//! `https://host/owner/repo`, `https://host/owner/repo.git` and
//! `git@host:owner/repo.git` name the same repository; all three have the
//! key `host/owner/repo`.

use vstd::prelude::*;
use vstd::string::*;
use crate::lookup::{first_index, is_first, lemma_first_index_absent, lemma_first_index_found};
use crate::text::{begins_with, ends_with, finishes_with, has_at, starts_with, to_chars};

verus! {

/// `https://`
pub open spec fn https_scheme() -> Seq<char> {
    seq!['h', 't', 't', 'p', 's', ':', '/', '/']
}

/// `http://`
pub open spec fn http_scheme() -> Seq<char> {
    seq!['h', 't', 't', 'p', ':', '/', '/']
}

/// `ssh://`
pub open spec fn ssh_scheme() -> Seq<char> {
    seq!['s', 's', 'h', ':', '/', '/']
}

/// `git://`
pub open spec fn git_scheme() -> Seq<char> {
    seq!['g', 'i', 't', ':', '/', '/']
}

/// `git@`
pub open spec fn git_user() -> Seq<char> {
    seq!['g', 'i', 't', '@']
}

/// `.git`
pub open spec fn git_suffix() -> Seq<char> {
    seq!['.', 'g', 'i', 't']
}

/// The length of the scheme that `url` begins with, or zero.
pub open spec fn scheme_len(url: Seq<char>) -> int {
    if starts_with(url, https_scheme()) {
        8
    } else if starts_with(url, http_scheme()) {
        7
    } else if starts_with(url, ssh_scheme()) || starts_with(url, git_scheme()) {
        6
    } else {
        0
    }
}

/// Whether the user `git@` follows the scheme of `url`.
pub open spec fn names_git_user(url: Seq<char>) -> bool {
    has_at(url, scheme_len(url), git_user())
}

/// Whether `url` is written as `git@host:path`, the form in which a colon
/// parts the host from the path.
pub open spec fn is_scp_form(url: Seq<char>) -> bool {
    scheme_len(url) == 0 && names_git_user(url)
}

/// `url` without its scheme and without the user `git@`.
pub open spec fn host_and_path(url: Seq<char>) -> Seq<char> {
    if names_git_user(url) {
        url.skip(scheme_len(url) + 4)
    } else {
        url.skip(scheme_len(url))
    }
}

/// The condition "is a colon" on characters.
pub open spec fn is_colon() -> spec_fn(char) -> bool {
    |c: char| c == ':'
}

/// `s` with its first colon, if it has one, turned into a slash.
pub open spec fn colon_to_slash(s: Seq<char>) -> Seq<char> {
    match first_index(s, is_colon()) {
        Some(i) => s.update(i, '/'),
        None => s,
    }
}

/// `s` without one trailing `.git`.
pub open spec fn without_git_suffix(s: Seq<char>) -> Seq<char> {
    if ends_with(s, git_suffix()) {
        s.take(s.len() - 4)
    } else {
        s
    }
}

/// The key of a repository address: the address without scheme and without
/// the user `git@`, with host and path parted by a slash, and without a
/// trailing `.git`.
pub open spec fn canonical_key(url: Seq<char>) -> Seq<char> {
    let rest = host_and_path(url);
    without_git_suffix(
        if is_scp_form(url) {
            colon_to_slash(rest)
        } else {
            rest
        },
    )
}

/// Whether two addresses name the same repository.
pub open spec fn same_repository(a: Seq<char>, b: Seq<char>) -> bool {
    canonical_key(a) == canonical_key(b)
}

/// The key under which a repository is found, whatever form its address
/// was written in.
#[derive(Debug)]
pub struct CanonicalKey {
    pub chars: Vec<char>,
}

impl View for CanonicalKey {
    type V = Seq<char>;

    open spec fn view(&self) -> Seq<char> {
        self.chars@
    }
}

impl CanonicalKey {
    /// Whether two keys are the same.
    pub fn matches(&self, other: &CanonicalKey) -> (same: bool)
        ensures
            same == (self@ == other@),
    {
        crate::sorting::same_text(&self.chars, &other.chars)
    }
}

/// The key of the repository address `url`.
pub fn canonicalize(url: &str) -> (key: CanonicalKey)
    ensures
        key@ == canonical_key(url@),
{
    let mut chars = to_chars(url);
    let https = vec!['h', 't', 't', 'p', 's', ':', '/', '/'];
    let http = vec!['h', 't', 't', 'p', ':', '/', '/'];
    let ssh = vec!['s', 's', 'h', ':', '/', '/'];
    let git = vec!['g', 'i', 't', ':', '/', '/'];
    let user = vec!['g', 'i', 't', '@'];
    let suffix = vec!['.', 'g', 'i', 't'];
    proof {
        assert(https@ =~= https_scheme());
        assert(http@ =~= http_scheme());
        assert(ssh@ =~= ssh_scheme());
        assert(git@ =~= git_scheme());
        assert(user@ =~= git_user());
        assert(suffix@ =~= git_suffix());
    }
    let scheme: usize = if begins_with(&chars, &https) {
        8
    } else if begins_with(&chars, &http) {
        7
    } else if begins_with(&chars, &ssh) || begins_with(&chars, &git) {
        6
    } else {
        0
    };
    let with_user = crate::text::holds_at(&chars, scheme, &user);
    let start: usize = if with_user {
        scheme + 4
    } else {
        scheme
    };
    let mut rest = chars.split_off(start);
    assert(rest@ =~= host_and_path(url@));
    if scheme == 0 && with_user {
        let mut i: usize = 0;
        let mut found = false;
        while i < rest.len() && !found
            invariant
                i <= rest.len(),
                rest@ == host_and_path(url@),
                !found ==> forall|k: int| 0 <= k < i ==> !is_colon()(#[trigger] rest@[k]),
                found ==> i < rest.len() && is_first(rest@, is_colon(), i as int),
            decreases rest.len() - i + (if found { 0int } else { 1int }),
        {
            if rest[i] == ':' {
                found = true;
            } else {
                i += 1;
            }
        }
        if found {
            proof {
                lemma_first_index_found(rest@, is_colon(), i as int);
            }
            rest[i] = '/';
        } else {
            proof {
                lemma_first_index_absent(rest@, is_colon());
            }
        }
    }
    if finishes_with(&rest, &suffix) {
        let keep = rest.len() - 4;
        rest.truncate(keep);
    }
    CanonicalKey { chars: rest }
}

/// Whether the addresses `a` and `b` name the same repository.
pub fn names_same_repository(a: &str, b: &str) -> (same: bool)
    ensures
        same == same_repository(a@, b@),
{
    canonicalize(a).matches(&canonicalize(b))
}

/// `host/path`
pub open spec fn plain_form(host: Seq<char>, path: Seq<char>) -> Seq<char> {
    host + seq!['/'] + path
}

/// `https://host/path`
pub open spec fn https_form(host: Seq<char>, path: Seq<char>) -> Seq<char> {
    https_scheme() + plain_form(host, path)
}

/// `https://host/path.git`
pub open spec fn https_git_form(host: Seq<char>, path: Seq<char>) -> Seq<char> {
    https_scheme() + plain_form(host, path) + git_suffix()
}

/// `git@host:path.git`
pub open spec fn scp_form(host: Seq<char>, path: Seq<char>) -> Seq<char> {
    git_user() + host + seq![':'] + path + git_suffix()
}

/// The three usual ways of writing the address of a repository have one
/// key, `host/path`: the HTTPS address, the HTTPS address with `.git`, and
/// the SSH address `git@host:path.git`. This holds for every host without a
/// colon or an at sign and every path such that `host/path` does not itself
/// end in `.git`.
pub proof fn lemma_address_forms_agree(host: Seq<char>, path: Seq<char>)
    requires
        forall|i: int| 0 <= i < host.len() ==> host[i] != ':' && host[i] != '@',
        !ends_with(plain_form(host, path), git_suffix()),
    ensures
        canonical_key(https_form(host, path)) == plain_form(host, path),
        canonical_key(https_git_form(host, path)) == plain_form(host, path),
        canonical_key(scp_form(host, path)) == plain_form(host, path),
        same_repository(https_form(host, path), scp_form(host, path)),
        same_repository(https_form(host, path), https_git_form(host, path)),
{
    let plain = plain_form(host, path);
    let with_git = plain + git_suffix();
    assert(!has_at(plain, 0, git_user())) by {
        if has_at(plain, 0, git_user()) {
            assert(plain.subrange(0, 4)[3] == '@');
            if host.len() > 3 {
                assert(plain[3] == host[3]);
            } else if host.len() == 3 {
                assert(plain[3] == '/');
            } else {
                assert(plain[host.len() as int] == '/');
                assert(plain.subrange(0, 4)[host.len() as int] == '/');
            }
        }
    }
    assert(!has_at(with_git, 0, git_user())) by {
        if has_at(with_git, 0, git_user()) {
            assert(with_git.subrange(0, 4)[3] == '@');
            if host.len() > 3 {
                assert(with_git[3] == host[3]);
            } else if host.len() == 3 {
                assert(with_git[3] == '/');
            } else {
                assert(with_git[host.len() as int] == '/');
                assert(with_git.subrange(0, 4)[host.len() as int] == '/');
            }
        }
    }
    // the HTTPS address
    let a = https_form(host, path);
    assert(a.subrange(0, 8) =~= https_scheme());
    assert(scheme_len(a) == 8);
    assert(a.skip(8) =~= plain);
    assert(has_at(a, 8, git_user()) == has_at(plain, 0, git_user())) by {
        if 12 <= a.len() {
            assert(a.subrange(8, 12) =~= plain.subrange(0, 4));
        }
    }
    assert(host_and_path(a) == plain);
    // the HTTPS address with `.git`
    let b = https_git_form(host, path);
    assert(b.subrange(0, 8) =~= https_scheme());
    assert(scheme_len(b) == 8);
    assert(b.skip(8) =~= with_git);
    assert(has_at(b, 8, git_user()) == has_at(with_git, 0, git_user())) by {
        if 12 <= b.len() {
            assert(b.subrange(8, 12) =~= with_git.subrange(0, 4));
        }
    }
    assert(host_and_path(b) == with_git);
    assert(with_git.subrange(with_git.len() - 4, with_git.len() as int) =~= git_suffix());
    assert(with_git.take(with_git.len() - 4) =~= plain);
    // the SSH address
    let c = scp_form(host, path);
    assert(c.subrange(0, 4) =~= git_user());
    assert(c[0] == 'g' && c[3] == '@');
    assert(!starts_with(c, https_scheme())) by {
        if starts_with(c, https_scheme()) {
            assert(c.subrange(0, 8)[0] == 'h');
        }
    }
    assert(!starts_with(c, http_scheme())) by {
        if starts_with(c, http_scheme()) {
            assert(c.subrange(0, 7)[0] == 'h');
        }
    }
    assert(!starts_with(c, ssh_scheme())) by {
        if starts_with(c, ssh_scheme()) {
            assert(c.subrange(0, 6)[0] == 's');
        }
    }
    assert(!starts_with(c, git_scheme())) by {
        if starts_with(c, git_scheme()) {
            assert(c.subrange(0, 6)[3] == ':');
        }
    }
    assert(scheme_len(c) == 0);
    let colon_form = host + seq![':'] + path + git_suffix();
    assert(c.skip(4) =~= colon_form);
    assert(host_and_path(c) == colon_form);
    assert(is_first(colon_form, is_colon(), host.len() as int)) by {
        assert(colon_form[host.len() as int] == ':');
        assert forall|k: int| 0 <= k < host.len() implies !is_colon()(
            #[trigger] colon_form[k],
        ) by {
            assert(colon_form[k] == host[k]);
        }
    }
    lemma_first_index_found(colon_form, is_colon(), host.len() as int);
    assert(colon_form.update(host.len() as int, '/') =~= with_git);
}

} // verus!
