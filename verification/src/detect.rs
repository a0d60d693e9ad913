//! Profile auto-detection: score every profile against every remote host and
//! keep a highest-scoring match.
//!
//! Listing the repository's remotes is left to the surrounding binary, which
//! hands the resolved remote URLs in here.
use vstd::prelude::*;
use crate::config::Config;
use crate::git::{spec_parse_host, RemoteUrl};
use crate::profile::{Platform, Profile};
use crate::strutil::{contains_seq, str_contains, str_eq};

verus! {

/// Detection result with scoring.
#[derive(Debug)]
pub struct DetectionResult {
    pub profile_name: String,
    pub score: u32,
    pub reason: String,
}

/// Points for a remote host equal to the profile's SSH alias.
pub open spec fn spec_alias_points(host: Seq<char>, profile_name: Seq<char>, p: Profile) -> int {
    if host == p.spec_alias(profile_name) {
        100
    } else {
        0
    }
}

/// Points for a `Both` profile whose platform-specific alias the host equals.
pub open spec fn spec_both_alias_points(
    host: Seq<char>,
    profile_name: Seq<char>,
    p: Profile,
) -> int {
    if p.platform is Both && (host == "github-"@ + profile_name || host == "gitlab-"@
        + profile_name) {
        100
    } else {
        0
    }
}

/// Points for a remote host equal to the profile's effective host.
pub open spec fn spec_host_points(host: Seq<char>, p: Profile) -> int {
    if host == p.spec_default_host() {
        50
    } else {
        0
    }
}

/// Points for a host naming the profile's platform.
pub open spec fn spec_platform_points(host: Seq<char>, platform: Platform) -> int {
    let g = contains_seq(host, "github"@);
    let l = contains_seq(host, "gitlab"@);
    match platform {
        Platform::Github => if g {
            20
        } else {
            0
        },
        Platform::Gitlab => if l {
            20
        } else {
            0
        },
        Platform::Both => if g || l {
            15
        } else {
            0
        },
    }
}

/// Points for a host equal to or containing the profile's custom host.
pub open spec fn spec_custom_points(host: Seq<char>, p: Profile) -> int {
    match p.host {
        Some(custom) => if host == custom@ || contains_seq(host, custom@) {
            80
        } else {
            0
        },
        None => 0,
    }
}

/// How well a profile matches a remote host: the sum of all rule bonuses.
pub open spec fn spec_score(host: Seq<char>, profile_name: Seq<char>, p: Profile) -> int {
    spec_alias_points(host, profile_name, p) + spec_both_alias_points(host, profile_name, p)
        + spec_host_points(host, p) + spec_platform_points(host, p.platform)
        + spec_custom_points(host, p)
}

/// Score how well a profile matches a remote URL.
pub fn score_profile(remote_url: &RemoteUrl, profile_name: &str, profile: &Profile) -> (score:
    u32)
    ensures
        score as int == spec_score(remote_url.host@, profile_name@, *profile),
        score <= 350,
{
    let mut score: u32 = 0;
    let remote_host: &str = remote_url.host.as_str();

    let ssh_alias = profile.ssh_host_alias(profile_name);
    if str_eq(remote_host, ssh_alias.as_str()) {
        score += 100;
    }

    if matches!(profile.platform, Platform::Both) {
        let mut gh = String::new();
        gh.append("github-");
        gh.append(profile_name);
        let mut gl = String::new();
        gl.append("gitlab-");
        gl.append(profile_name);
        if str_eq(remote_host, gh.as_str()) || str_eq(remote_host, gl.as_str()) {
            score += 100;
        }
    }

    let profile_host = profile.default_host();
    if str_eq(remote_host, profile_host) {
        score += 50;
    }

    let is_github = str_contains(remote_host, "github");
    let is_gitlab = str_contains(remote_host, "gitlab");
    match profile.platform {
        Platform::Github => if is_github {
            score += 20;
        },
        Platform::Gitlab => if is_gitlab {
            score += 20;
        },
        Platform::Both => if is_github || is_gitlab {
            score += 15;
        },
    }

    match &profile.host {
        Some(custom) => {
            if str_eq(remote_host, custom.as_str()) || str_contains(
                remote_host,
                custom.as_str(),
            ) {
                score += 80;
            }
        },
        None => {},
    }
    score
}

/// The human-readable reason reported for a match: the profile-host phrasing
/// first, then GitHub, then GitLab, else a generic one.
pub open spec fn spec_reason(host: Seq<char>, p: Profile) -> Seq<char> {
    if host == p.spec_default_host() {
        "Remote host '"@ + host + "' matches profile host"@
    } else if contains_seq(host, "github"@) && (p.platform is Github || p.platform is Both) {
        "GitHub repository detected ("@ + host + ")"@
    } else if contains_seq(host, "gitlab"@) && (p.platform is Gitlab || p.platform is Both) {
        "GitLab repository detected ("@ + host + ")"@
    } else {
        "Host '"@ + host + "' matched"@
    }
}

/// Format a human-readable reason for the match.
pub fn format_match_reason(remote_url: &RemoteUrl, profile: &Profile) -> (r: String)
    ensures
        r@ == spec_reason(remote_url.host@, *profile),
{
    let host: &str = remote_url.host.as_str();
    let profile_host = profile.default_host();
    let mut r = String::new();
    if str_eq(host, profile_host) {
        r.append("Remote host '");
        r.append(host);
        r.append("' matches profile host");
        proof {
            assert(r@ =~= "Remote host '"@ + remote_url.host@ + "' matches profile host"@);
        }
    } else if str_contains(host, "github") && (matches!(profile.platform, Platform::Github)
        || matches!(profile.platform, Platform::Both)) {
        r.append("GitHub repository detected (");
        r.append(host);
        r.append(")");
        proof {
            assert(r@ =~= "GitHub repository detected ("@ + remote_url.host@ + ")"@);
        }
    } else if str_contains(host, "gitlab") && (matches!(profile.platform, Platform::Gitlab)
        || matches!(profile.platform, Platform::Both)) {
        r.append("GitLab repository detected (");
        r.append(host);
        r.append(")");
        proof {
            assert(r@ =~= "GitLab repository detected ("@ + remote_url.host@ + ")"@);
        }
    } else {
        r.append("Host '");
        r.append(host);
        r.append("' matched");
        proof {
            assert(r@ =~= "Host '"@ + remote_url.host@ + "' matched"@);
        }
    }
    r
}

/// The score that remote `i` and profile `j` reach together; 0 outside the
/// ranges and for unparseable URLs.
pub open spec fn pair_score(c: Config, urls: Seq<String>, i: int, j: int) -> int {
    if 0 <= i < urls.len() && 0 <= j < c.profiles@.len() {
        match spec_parse_host(urls[i]@) {
            Some(h) => spec_score(h, c.key_at(j), c.profiles@[j].1),
            None => 0,
        }
    } else {
        0
    }
}

/// The given name, score and reason describe remote `i` against profile `j`.
pub open spec fn is_detection(
    c: Config,
    urls: Seq<String>,
    i: int,
    j: int,
    pname: Seq<char>,
    score: int,
    reason: Seq<char>,
) -> bool {
    &&& 0 <= i < urls.len()
    &&& 0 <= j < c.profiles@.len()
    &&& spec_parse_host(urls[i]@) matches Some(h) && pname == c.key_at(j) && score
        == spec_score(h, c.key_at(j), c.profiles@[j].1) && reason == spec_reason(
        h,
        c.profiles@[j].1,
    )
}

/// The pair `(i, j)` scores above zero and no pair scores higher.
pub open spec fn is_best_match(c: Config, urls: Seq<String>, i: int, j: int) -> bool {
    &&& pair_score(c, urls, i, j) > 0
    &&& forall|i2: int, j2: int| pair_score(c, urls, i2, j2) <= pair_score(c, urls, i, j)
}

/// The score currently held by the best candidate, 0 when there is none.
pub open spec fn best_val(b: Option<DetectionResult>) -> int {
    match b {
        Some(d) => d.score as int,
        None => 0,
    }
}

/// Detect the best matching profile for the given remote URLs.
///
/// Returns a highest-scoring pairing of a remote host and a profile, or
/// `None` when nothing scores above zero (no remotes, unparseable URLs, or
/// no profile related to any host).
pub fn detect_profile(config: &Config, remote_urls: &Vec<String>) -> (r: Option<DetectionResult>)
    requires
        config.wf(),
    ensures
        match r {
            Some(d) => d.score > 0 && exists|i: int, j: int|
                is_best_match(*config, remote_urls@, i, j) && is_detection(
                    *config,
                    remote_urls@,
                    i,
                    j,
                    d.profile_name@,
                    d.score as int,
                    d.reason@,
                ),
            None => forall|i: int, j: int| pair_score(*config, remote_urls@, i, j) == 0,
        },
{
    let mut best: Option<DetectionResult> = None;
    let nurls = remote_urls.len();
    let nprof = config.profiles.len();
    let mut i: usize = 0;
    while i < nurls
        invariant
            config.wf(),
            i <= nurls,
            nurls == remote_urls@.len(),
            nprof == config.profiles@.len(),
            forall|i2: int, j2: int|
                i2 < i ==> pair_score(*config, remote_urls@, i2, j2) <= best_val(best),
            best matches Some(d) ==> (d.score > 0 && exists|i2: int, j2: int|
                is_detection(
                    *config,
                    remote_urls@,
                    i2,
                    j2,
                    d.profile_name@,
                    d.score as int,
                    d.reason@,
                )),
        decreases nurls - i,
    {
        let url: &String = &remote_urls[i];
        match RemoteUrl::parse(url.as_str()) {
            Some(remote_url) => {
                let mut j: usize = 0;
                while j < nprof
                    invariant
                        config.wf(),
                        i < nurls,
                        j <= nprof,
                        nurls == remote_urls@.len(),
                        nprof == config.profiles@.len(),
                        spec_parse_host(remote_urls@[i as int]@) == Some(remote_url.host@),
                        forall|i2: int, j2: int|
                            i2 < i ==> pair_score(*config, remote_urls@, i2, j2) <= best_val(
                                best,
                            ),
                        forall|j2: int|
                            j2 < j ==> pair_score(*config, remote_urls@, i as int, j2)
                                <= best_val(best),
                        best matches Some(d) ==> (d.score > 0 && exists|i2: int, j2: int|
                            is_detection(
                                *config,
                                remote_urls@,
                                i2,
                                j2,
                                d.profile_name@,
                                d.score as int,
                                d.reason@,
                            )),
                    decreases nprof - j,
                {
                    let name: &String = &config.profiles[j].0;
                    let prof: &Profile = &config.profiles[j].1;
                    let score = score_profile(&remote_url, name.as_str(), prof);
                    if score > 0 {
                        let replace = match &best {
                            Some(m) => score > m.score,
                            None => true,
                        };
                        if replace {
                            let reason = format_match_reason(&remote_url, prof);
                            let cand = DetectionResult {
                                profile_name: name.clone(),
                                score,
                                reason,
                            };
                            proof {
                                assert(is_detection(
                                    *config,
                                    remote_urls@,
                                    i as int,
                                    j as int,
                                    cand.profile_name@,
                                    cand.score as int,
                                    cand.reason@,
                                ));
                            }
                            best = Some(cand);
                        }
                    }
                    j += 1;
                }
            },
            None => {
                proof {
                    assert(forall|j2: int|
                        pair_score(*config, remote_urls@, i as int, j2) == 0);
                }
            },
        }
        i += 1;
    }
    proof {
        match &best {
            Some(d) => {
                let (i2, j2) = choose|i2: int, j2: int|
                    is_detection(
                        *config,
                        remote_urls@,
                        i2,
                        j2,
                        d.profile_name@,
                        d.score as int,
                        d.reason@,
                    );
                assert(pair_score(*config, remote_urls@, i2, j2) == d.score as int);
                assert forall|a: int, b: int|
                    pair_score(*config, remote_urls@, a, b) <= pair_score(
                        *config,
                        remote_urls@,
                        i2,
                        j2,
                    ) by {
                    if !(0 <= a < remote_urls@.len() && 0 <= b < config.profiles@.len()) {
                        assert(pair_score(*config, remote_urls@, a, b) == 0);
                    }
                }
                assert(is_best_match(*config, remote_urls@, i2, j2));
            },
            None => {
                assert forall|a: int, b: int|
                    pair_score(*config, remote_urls@, a, b) == 0 by {
                    if !(0 <= a < remote_urls@.len() && 0 <= b < config.profiles@.len()) {
                        assert(pair_score(*config, remote_urls@, a, b) == 0);
                    }
                }
            },
        }
    }
    best
}

/// Detect a profile and hand back its name and the match reason.
pub fn detect_and_suggest(config: &Config, remote_urls: &Vec<String>) -> (r: Option<
    (String, String),
>)
    requires
        config.wf(),
    ensures
        match r {
            Some(p) => exists|i: int, j: int|
                is_best_match(*config, remote_urls@, i, j) && is_detection(
                    *config,
                    remote_urls@,
                    i,
                    j,
                    p.0@,
                    pair_score(*config, remote_urls@, i, j),
                    p.1@,
                ),
            None => forall|i: int, j: int| pair_score(*config, remote_urls@, i, j) == 0,
        },
{
    match detect_profile(config, remote_urls) {
        Some(result) => {
            proof {
                let (i2, j2) = choose|i2: int, j2: int|
                    is_best_match(*config, remote_urls@, i2, j2) && is_detection(
                        *config,
                        remote_urls@,
                        i2,
                        j2,
                        result.profile_name@,
                        result.score as int,
                        result.reason@,
                    );
                assert(is_detection(
                    *config,
                    remote_urls@,
                    i2,
                    j2,
                    result.profile_name@,
                    pair_score(*config, remote_urls@, i2, j2),
                    result.reason@,
                ));
            }
            Some((result.profile_name, result.reason))
        },
        None => None,
    }
}

} // verus!
