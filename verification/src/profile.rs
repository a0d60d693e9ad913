//! Identity profiles: a git user name and email bound to a hosting platform,
//! an SSH key, and optional GPG key and custom host.
use vstd::prelude::*;

verus! {

/// The git hosting platform a profile targets.
#[derive(Clone, Copy, Debug, PartialEq, Eq, Structural)]
pub enum Platform {
    Github,
    Gitlab,
    Both,
}

impl Platform {
    /// The lowercase label of this platform.
    pub open spec fn spec_label(self) -> Seq<char> {
        match self {
            Platform::Github => "github"@,
            Platform::Gitlab => "gitlab"@,
            Platform::Both => "both"@,
        }
    }

    /// The prefix used when building SSH host aliases.
    pub open spec fn spec_prefix(self) -> Seq<char> {
        match self {
            Platform::Github => "github"@,
            Platform::Gitlab => "gitlab"@,
            Platform::Both => "git"@,
        }
    }

    /// The lowercase label, as the configuration file stores it.
    pub fn as_str(&self) -> (r: &'static str)
        ensures
            r@ == self.spec_label(),
    {
        match self {
            Platform::Github => "github",
            Platform::Gitlab => "gitlab",
            Platform::Both => "both",
        }
    }
}

/// `a` equals `b` up to ASCII case, where `b` is a lowercase ASCII letter or
/// any exact character.
pub open spec fn eq_ignore_ascii_case_char(a: char, b: char) -> bool {
    a == b || (97 <= b as int <= 122 && a as int + 32 == b as int)
}

/// `s` equals `t` up to ASCII case, `t` being the lowercase reference.
pub open spec fn eq_ignore_ascii_case(s: Seq<char>, t: Seq<char>) -> bool {
    s.len() == t.len() && forall|i: int|
        0 <= i < s.len() ==> eq_ignore_ascii_case_char(s[i], t[i])
}

/// Whether `s` equals the lowercase ASCII string `t` up to ASCII case.
fn str_eq_ignore_case(s: &str, t: &str) -> (r: bool)
    ensures
        r == eq_ignore_ascii_case(s@, t@),
{
    let slen = s.unicode_len();
    if slen != t.unicode_len() {
        return false;
    }
    let mut i: usize = 0;
    while i < slen
        invariant
            i <= slen,
            slen == s@.len(),
            slen == t@.len(),
            forall|j: int| 0 <= j < i ==> eq_ignore_ascii_case_char(s@[j], t@[j]),
        decreases slen - i,
    {
        let cs = s.get_char(i);
        let ct = t.get_char(i);
        let ok = cs == ct || (97 <= ct as u32 && ct as u32 <= 122 && cs as u32 <= 0x10FFFF - 32
            && cs as u32 + 32 == ct as u32);
        if !ok {
            proof {
                assert(!eq_ignore_ascii_case_char(s@[i as int], t@[i as int]));
            }
            return false;
        }
        i += 1;
    }
    true
}

/// Errors raised when a profile is created or parsed.
#[derive(Debug)]
pub enum ProfileError {
    InvalidPlatform(String),
    EmptyName,
    EmptyEmail,
    EmptySshKey,
}

impl ProfileError {
    /// A human-readable description of the error.
    pub fn message(&self) -> (r: String)
        ensures
            self matches ProfileError::InvalidPlatform(s) ==> r@ == "Invalid platform: "@ + s@
                + ". Must be 'github', 'gitlab', or 'both'"@,
            self is EmptyName ==> r@ == "Profile name cannot be empty"@,
            self is EmptyEmail ==> r@ == "Email cannot be empty"@,
            self is EmptySshKey ==> r@ == "SSH key path cannot be empty"@,
    {
        match self {
            ProfileError::InvalidPlatform(s) => {
                let mut m = String::new();
                m.append("Invalid platform: ");
                m.append(s.as_str());
                m.append(". Must be 'github', 'gitlab', or 'both'");
                proof {
                    assert(m@ =~= "Invalid platform: "@ + s@
                        + ". Must be 'github', 'gitlab', or 'both'"@);
                }
                m
            },
            ProfileError::EmptyName => "Profile name cannot be empty".to_owned(),
            ProfileError::EmptyEmail => "Email cannot be empty".to_owned(),
            ProfileError::EmptySshKey => "SSH key path cannot be empty".to_owned(),
        }
    }
}

/// Parse a platform label, ignoring ASCII case.
pub fn parse_platform(s: &str) -> (r: Result<Platform, ProfileError>)
    ensures
        eq_ignore_ascii_case(s@, "github"@) ==> (r matches Ok(p) && p is Github),
        eq_ignore_ascii_case(s@, "gitlab"@) ==> (r matches Ok(p) && p is Gitlab),
        eq_ignore_ascii_case(s@, "both"@) ==> (r matches Ok(p) && p is Both),
        r matches Ok(p) ==> eq_ignore_ascii_case(s@, p.spec_label()),
        r matches Err(e) ==> (!eq_ignore_ascii_case(s@, "github"@) && !eq_ignore_ascii_case(
            s@,
            "gitlab"@,
        ) && !eq_ignore_ascii_case(s@, "both"@) && (e matches ProfileError::InvalidPlatform(raw)
            && raw@ == s@)),
{
    proof {
        reveal_strlit("github");
        reveal_strlit("gitlab");
        reveal_strlit("both");
        assert(!(eq_ignore_ascii_case(s@, "github"@) && eq_ignore_ascii_case(s@, "gitlab"@)))
            by {
            if eq_ignore_ascii_case(s@, "github"@) && eq_ignore_ascii_case(s@, "gitlab"@) {
                assert(eq_ignore_ascii_case_char(s@[3], "github"@[3]));
                assert(eq_ignore_ascii_case_char(s@[3], "gitlab"@[3]));
            }
        }
        assert("github"@.len() != "both"@.len());
        assert("gitlab"@.len() != "both"@.len());
    }
    if str_eq_ignore_case(s, "github") {
        Ok(Platform::Github)
    } else if str_eq_ignore_case(s, "gitlab") {
        Ok(Platform::Gitlab)
    } else if str_eq_ignore_case(s, "both") {
        Ok(Platform::Both)
    } else {
        Err(ProfileError::InvalidPlatform(s.to_owned()))
    }
}

impl core::str::FromStr for Platform {
    type Err = ProfileError;

    fn from_str(s: &str) -> Result<Platform, ProfileError> {
        parse_platform(s)
    }
}

/// The characters `str::trim` removes: Unicode whitespace.
pub open spec fn is_space(c: char) -> bool {
    c == ' ' || c == '\t' || c == '\n' || c == '\r' || c == '\u{000B}' || c == '\u{000C}'
        || c == '\u{0085}' || c == '\u{00A0}' || c == '\u{1680}' || (0x2000 <= c as int
        <= 0x200A) || c == '\u{2028}' || c == '\u{2029}' || c == '\u{202F}' || c == '\u{205F}'
        || c == '\u{3000}'
}

/// `s` is empty or made of whitespace only.
pub open spec fn is_blank(s: Seq<char>) -> bool {
    forall|i: int| 0 <= i < s.len() ==> is_space(s[i])
}

/// Whether the character is Unicode whitespace.
fn is_space_char(c: char) -> (r: bool)
    ensures
        r == is_space(c),
{
    c == ' ' || c == '\t' || c == '\n' || c == '\r' || c == '\u{000B}' || c == '\u{000C}'
        || c == '\u{0085}' || c == '\u{00A0}' || c == '\u{1680}' || (0x2000 <= c as u32 && c
        as u32 <= 0x200A) || c == '\u{2028}' || c == '\u{2029}' || c == '\u{202F}'
        || c == '\u{205F}' || c == '\u{3000}'
}

/// Whether `s` is empty or whitespace only.
pub fn str_is_blank(s: &str) -> (r: bool)
    ensures
        r == is_blank(s@),
{
    let len = s.unicode_len();
    let mut i: usize = 0;
    while i < len
        invariant
            i <= len,
            len == s@.len(),
            forall|j: int| 0 <= j < i ==> is_space(s@[j]),
        decreases len - i,
    {
        if !is_space_char(s.get_char(i)) {
            return false;
        }
        i += 1;
    }
    true
}

/// One named git identity.
#[derive(Debug, Clone)]
pub struct Profile {
    pub name: String,
    pub email: String,
    pub platform: Platform,
    pub ssh_key: String,
    pub gpg_key: Option<String>,
    pub host: Option<String>,
}

impl Profile {
    /// The host a remote must name to match this profile by default: the
    /// custom host when set, else the platform's public host.
    pub open spec fn spec_default_host(self) -> Seq<char> {
        match self.host {
            Some(h) => h@,
            None => match self.platform {
                Platform::Gitlab => "gitlab.com"@,
                _ => "github.com"@,
            },
        }
    }

    /// The SSH `Host` alias for this profile: platform prefix, `-`, name.
    pub open spec fn spec_alias(self, profile_name: Seq<char>) -> Seq<char> {
        self.platform.spec_prefix() + "-"@ + profile_name
    }

    pub fn new(
        name: String,
        email: String,
        platform: Platform,
        ssh_key: String,
        gpg_key: Option<String>,
        host: Option<String>,
    ) -> (p: Profile)
        ensures
            p.name == name,
            p.email == email,
            p.platform == platform,
            p.gpg_key == gpg_key,
            p.host == host,
            p.ssh_key == ssh_key,
    {
        Profile { name, email, platform, ssh_key, gpg_key, host }
    }

    /// Check that name, email and SSH key are non-empty after trimming.
    pub fn validate(&self) -> (r: Result<(), ProfileError>)
        ensures
            is_blank(self.name@) ==> r matches Err(ProfileError::EmptyName),
            !is_blank(self.name@) && is_blank(self.email@) ==> r matches Err(
                ProfileError::EmptyEmail,
            ),
            !is_blank(self.name@) && !is_blank(self.email@) && is_blank(self.ssh_key@)
                ==> r matches Err(ProfileError::EmptySshKey),
            r is Ok <==> (!is_blank(self.name@) && !is_blank(self.email@) && !is_blank(
                self.ssh_key@,
            )),
    {
        if str_is_blank(self.name.as_str()) {
            return Err(ProfileError::EmptyName);
        }
        if str_is_blank(self.email.as_str()) {
            return Err(ProfileError::EmptyEmail);
        }
        if str_is_blank(self.ssh_key.as_str()) {
            return Err(ProfileError::EmptySshKey);
        }
        Ok(())
    }

    /// The effective host for this profile.
    pub fn default_host(&self) -> (r: &str)
        ensures
            r@ == self.spec_default_host(),
            self.host is None && self.platform is Github ==> r@ == "github.com"@,
            self.host is None && self.platform is Gitlab ==> r@ == "gitlab.com"@,
            self.host is None && self.platform is Both ==> r@ == "github.com"@,
            self.host matches Some(h) ==> r@ == h@,
    {
        match &self.host {
            Some(h) => h.as_str(),
            None => match self.platform {
                Platform::Gitlab => "gitlab.com",
                _ => "github.com",
            },
        }
    }

    /// The SSH `Host` alias for this profile under the given store key.
    pub fn ssh_host_alias(&self, profile_name: &str) -> (r: String)
        ensures
            r@ == self.spec_alias(profile_name@),
            self.platform is Github ==> r@ == "github-"@ + profile_name@,
            self.platform is Gitlab ==> r@ == "gitlab-"@ + profile_name@,
            self.platform is Both ==> r@ == "git-"@ + profile_name@,
    {
        let mut r = String::new();
        match self.platform {
            Platform::Github => r.append("github"),
            Platform::Gitlab => r.append("gitlab"),
            Platform::Both => r.append("git"),
        }
        r.append("-");
        r.append(profile_name);
        proof {
            assert(r@ =~= self.platform.spec_prefix() + "-"@ + profile_name@);
            reveal_strlit("github-");
            reveal_strlit("gitlab-");
            reveal_strlit("git-");
            reveal_strlit("github");
            reveal_strlit("gitlab");
            reveal_strlit("git");
            reveal_strlit("-");
            assert("github-"@ =~= "github"@ + "-"@);
            assert("gitlab-"@ =~= "gitlab"@ + "-"@);
            assert("git-"@ =~= "git"@ + "-"@);
        }
        r
    }
}

} // verus!
