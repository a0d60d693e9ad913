//! Classifying SSH key files: which file names can name a private key, what
//! key type a key file holds, and the name a newly generated key gets.
//!
//! Walking `~/.ssh` and running `ssh-keygen` is left to the surrounding
//! binary, which hands file names and first lines in here.
use vstd::prelude::*;
use crate::strutil::{contains_seq, ends_with_s, starts_with_s, str_contains, str_eq};

verus! {

/// File names that may name a private key: not a public key, none of the
/// well-known non-key files, not hidden.
pub open spec fn spec_is_key_candidate(name: Seq<char>) -> bool {
    &&& !(name.len() >= 4 && name.subrange(name.len() - 4, name.len() as int) == ".pub"@)
    &&& name != "config"@
    &&& name != "known_hosts"@
    &&& name != "known_hosts.old"@
    &&& name != "authorized_keys"@
    &&& !("."@.is_prefix_of(name))
}

/// Whether a file in the SSH directory may name a private key.
pub fn is_key_candidate(filename: &str) -> (r: bool)
    ensures
        r == spec_is_key_candidate(filename@),
{
    proof {
        reveal_strlit(".pub");
        assert(".pub"@.len() == 4);
    }
    !ends_with_s(filename, ".pub") && !str_eq(filename, "config") && !str_eq(
        filename,
        "known_hosts",
    ) && !str_eq(filename, "known_hosts.old") && !str_eq(filename, "authorized_keys")
        && !starts_with_s(filename, ".")
}

/// The key type a private key file holds, judged from its first line, its
/// file name, and the first line of the matching public key when one could
/// be read.
pub open spec fn spec_key_type(
    filename: Seq<char>,
    first_line: Seq<char>,
    pub_content: Option<Seq<char>>,
) -> Seq<char> {
    if contains_seq(first_line, "OPENSSH PRIVATE KEY"@) {
        if contains_seq(filename, "ed25519"@) {
            "ed25519"@
        } else if contains_seq(filename, "ecdsa"@) {
            "ecdsa"@
        } else if contains_seq(filename, "rsa"@) {
            "rsa"@
        } else {
            match pub_content {
                Some(p) => if "ssh-ed25519"@.is_prefix_of(p) {
                    "ed25519"@
                } else if "ssh-rsa"@.is_prefix_of(p) {
                    "rsa"@
                } else if "ecdsa-"@.is_prefix_of(p) {
                    "ecdsa"@
                } else {
                    "openssh"@
                },
                None => "openssh"@,
            }
        }
    } else if contains_seq(first_line, "RSA PRIVATE KEY"@) {
        "rsa"@
    } else if contains_seq(first_line, "EC PRIVATE KEY"@) {
        "ecdsa"@
    } else {
        "unknown"@
    }
}

/// Detect the type of an SSH key (ed25519, rsa, ecdsa, ...).
pub fn detect_key_type(filename: &str, first_line: &str, pub_content: Option<&str>) -> (r:
    String)
    ensures
        r@ == spec_key_type(
            filename@,
            first_line@,
            match pub_content {
                Some(p) => Some(p@),
                None => None,
            },
        ),
{
    if str_contains(first_line, "OPENSSH PRIVATE KEY") {
        if str_contains(filename, "ed25519") {
            "ed25519".to_owned()
        } else if str_contains(filename, "ecdsa") {
            "ecdsa".to_owned()
        } else if str_contains(filename, "rsa") {
            "rsa".to_owned()
        } else {
            match pub_content {
                Some(p) => {
                    if starts_with_s(p, "ssh-ed25519") {
                        "ed25519".to_owned()
                    } else if starts_with_s(p, "ssh-rsa") {
                        "rsa".to_owned()
                    } else if starts_with_s(p, "ecdsa-") {
                        "ecdsa".to_owned()
                    } else {
                        "openssh".to_owned()
                    }
                },
                None => "openssh".to_owned(),
            }
        }
    } else if str_contains(first_line, "RSA PRIVATE KEY") {
        "rsa".to_owned()
    } else if str_contains(first_line, "EC PRIVATE KEY") {
        "ecdsa".to_owned()
    } else {
        "unknown".to_owned()
    }
}

/// The file name a newly generated key gets: `id_ed25519_` and the profile
/// name.
pub fn generated_key_filename(profile_name: &str) -> (r: String)
    ensures
        r@ == "id_ed25519_"@ + profile_name@,
{
    let mut r = String::new();
    r.append("id_ed25519_");
    r.append(profile_name);
    r
}

} // verus!
