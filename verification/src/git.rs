//! Remote URL parsing and the git-config changes a profile switch performs.
//!
//! Running `git config` is left to the surrounding binary; this module
//! computes which keys to set or unset, and parses remote URLs into hosts.
use vstd::prelude::*;
use crate::strutil::{find_char, first_idx, starts_with_s};

verus! {

/// Scope for git config operations.
#[derive(Debug, Clone, Copy, PartialEq, Eq, Structural)]
pub enum ConfigScope {
    Local,
    Global,
}

impl ConfigScope {
    /// The command-line flag selecting this scope.
    pub fn flag(&self) -> (r: &'static str)
        ensures
            self is Local ==> r@ == "--local"@,
            self is Global ==> r@ == "--global"@,
    {
        match self {
            ConfigScope::Local => "--local",
            ConfigScope::Global => "--global",
        }
    }
}

/// The host part a raw remote URL names, when the URL is recognized.
///
/// SSH form `user@host:path` keeps what stands between `@` and the first `:`;
/// HTTPS/HTTP form keeps what stands between the scheme and the first `/`.
pub open spec fn spec_parse_host(s: Seq<char>) -> Option<Seq<char>> {
    if "git@"@.is_prefix_of(s) {
        let rest = s.skip("git@"@.len() as int);
        if first_idx(rest, ':') >= 0 {
            Some(rest.take(first_idx(rest, ':')))
        } else {
            None
        }
    } else if "https://"@.is_prefix_of(s) {
        Some(spec_host_until_slash(s.skip("https://"@.len() as int)))
    } else if "http://"@.is_prefix_of(s) {
        Some(spec_host_until_slash(s.skip("http://"@.len() as int)))
    } else {
        None
    }
}

/// Everything before the first `/`, or the whole sequence if there is none.
pub open spec fn spec_host_until_slash(rest: Seq<char>) -> Seq<char> {
    if first_idx(rest, '/') >= 0 {
        rest.take(first_idx(rest, '/'))
    } else {
        rest
    }
}

/// Parsed remote URL information.
#[derive(Debug, Clone)]
pub struct RemoteUrl {
    pub host: String,
}

impl RemoteUrl {
    /// Parse a git remote URL (SSH or HTTPS); `None` if unrecognized.
    pub fn parse(url: &str) -> (r: Option<RemoteUrl>)
        ensures
            match r {
                Some(u) => spec_parse_host(url@) == Some(u.host@),
                None => spec_parse_host(url@) is None,
            },
    {
        let ulen = url.unicode_len();
        if starts_with_s(url, "git@") {
            proof {
                reveal_strlit("git@");
            }
            let rest = url.substring_char(4, ulen);
            proof {
                assert(rest@ =~= url@.skip(4));
            }
            match find_char(rest, ':') {
                Some(i) => {
                    let host = rest.substring_char(0, i);
                    proof {
                        assert(host@ =~= rest@.take(i as int));
                    }
                    Some(RemoteUrl { host: host.to_owned() })
                },
                None => None,
            }
        } else if starts_with_s(url, "https://") {
            proof {
                reveal_strlit("https://");
            }
            Some(Self::host_until_slash(url, 8))
        } else if starts_with_s(url, "http://") {
            proof {
                reveal_strlit("http://");
            }
            Some(Self::host_until_slash(url, 7))
        } else {
            None
        }
    }

    /// Take the host out of `url` after a scheme of `at` characters.
    fn host_until_slash(url: &str, at: usize) -> (r: RemoteUrl)
        requires
            at <= url@.len(),
        ensures
            r.host@ == spec_host_until_slash(url@.skip(at as int)),
    {
        let ulen = url.unicode_len();
        let rest = url.substring_char(at, ulen);
        proof {
            assert(rest@ =~= url@.skip(at as int));
        }
        match find_char(rest, '/') {
            Some(i) => {
                let host = rest.substring_char(0, i);
                proof {
                    assert(host@ =~= rest@.take(i as int));
                }
                RemoteUrl { host: host.to_owned() }
            },
            None => RemoteUrl { host: rest.to_owned() },
        }
    }
}

/// One git-config mutation to perform.
#[derive(Debug, Clone)]
pub enum GitAction {
    SetConfig { key: String, value: String },
    UnsetConfig { key: String },
}

/// The exact git-config changes that switching to an identity performs:
/// set `user.name` and `user.email`; with a GPG key also set
/// `user.signingkey` and `commit.gpgsign`, without one unset both.
pub fn apply_profile(name: &str, email: &str, gpg_key: Option<&str>) -> (r: Vec<GitAction>)
    ensures
        r@.len() == 4,
        r@[0] matches GitAction::SetConfig { key, value } && key@ == "user.name"@ && value@ == name@,
        r@[1] matches GitAction::SetConfig { key, value } && key@ == "user.email"@ && value@
            == email@,
        gpg_key matches Some(k) ==> (r@[2] matches GitAction::SetConfig { key, value } && key@
            == "user.signingkey"@ && value@ == k@),
        gpg_key matches Some(_) ==> (r@[3] matches GitAction::SetConfig { key, value } && key@
            == "commit.gpgsign"@ && value@ == "true"@),
        gpg_key is None ==> (r@[2] matches GitAction::UnsetConfig { key } && key@
            == "user.signingkey"@),
        gpg_key is None ==> (r@[3] matches GitAction::UnsetConfig { key } && key@
            == "commit.gpgsign"@),
{
    let mut r: Vec<GitAction> = Vec::new();
    r.push(GitAction::SetConfig { key: "user.name".to_owned(), value: name.to_owned() });
    r.push(GitAction::SetConfig { key: "user.email".to_owned(), value: email.to_owned() });
    match gpg_key {
        Some(k) => {
            r.push(GitAction::SetConfig { key: "user.signingkey".to_owned(), value: k.to_owned() });
            r.push(GitAction::SetConfig { key: "commit.gpgsign".to_owned(), value: "true".to_owned() });
        },
        None => {
            r.push(GitAction::UnsetConfig { key: "user.signingkey".to_owned() });
            r.push(GitAction::UnsetConfig { key: "commit.gpgsign".to_owned() });
        },
    }
    r
}

} // verus!
