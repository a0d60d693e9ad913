//! Resolving the live git identity back to a stored profile.
//!
//! Reading `user.name` / `user.email` from git is left to the surrounding
//! binary, which hands both scopes' values in here.
use vstd::prelude::*;
use crate::config::Config;
use crate::profile::Profile;
use crate::strutil::str_eq;

verus! {

/// The profile matches the live identity exactly.
pub open spec fn identity_matches(p: Profile, name: Seq<char>, email: Seq<char>) -> bool {
    p.name@ == name && p.email@ == email
}

/// The identity the resolver goes by: the local scope when it sets either
/// field, else the global scope.
pub open spec fn spec_effective_identity(
    local_name: Option<String>,
    local_email: Option<String>,
    global_name: Option<String>,
    global_email: Option<String>,
) -> (Option<String>, Option<String>) {
    if local_name is None && local_email is None {
        (global_name, global_email)
    } else {
        (local_name, local_email)
    }
}

/// Find the first profile whose name and email equal the live git identity.
///
/// The local values win when either is set; otherwise the global values are
/// used. With no complete identity, or none that any profile matches, the
/// result is `None` (not an error).
pub fn get_current_profile(
    config: &Config,
    local_name: Option<String>,
    local_email: Option<String>,
    global_name: Option<String>,
    global_email: Option<String>,
) -> (r: Option<String>)
    requires
        config.wf(),
    ensures
        ({
            let eff = spec_effective_identity(local_name, local_email, global_name, global_email);
            match r {
                Some(k) => eff.0 matches Some(n) && (eff.1 matches Some(e) && exists|i: int|
                    0 <= i < config.profiles@.len() && identity_matches(
                        config.profiles@[i].1,
                        n@,
                        e@,
                    ) && k@ == config.key_at(i) && (forall|j: int|
                        0 <= j < i ==> !identity_matches(config.profiles@[j].1, n@, e@))),
                None => !(eff.0 is Some && eff.1 is Some) || (forall|i: int|
                    0 <= i < config.profiles@.len() ==> !identity_matches(
                        config.profiles@[i].1,
                        eff.0->0@,
                        eff.1->0@,
                    )),
            }
        }),
{
    let use_local = local_name.is_some() || local_email.is_some();
    let name_opt: &Option<String> = if use_local {
        &local_name
    } else {
        &global_name
    };
    let email_opt: &Option<String> = if use_local {
        &local_email
    } else {
        &global_email
    };
    proof {
        let eff = spec_effective_identity(local_name, local_email, global_name, global_email);
        assert(eff.0 == *name_opt);
        assert(eff.1 == *email_opt);
    }
    match name_opt {
        Some(name) => match email_opt {
            Some(email) => {
            let n = config.profiles.len();
            let mut i: usize = 0;
            while i < n
                invariant
                    i <= n,
                    n == config.profiles@.len(),
                    spec_effective_identity(local_name, local_email, global_name, global_email).0
                        == Some(*name),
                    spec_effective_identity(local_name, local_email, global_name, global_email).1
                        == Some(*email),
                    forall|j: int|
                        0 <= j < i ==> !identity_matches(config.profiles@[j].1, name@, email@),
                decreases n - i,
            {
                let p: &Profile = &config.profiles[i].1;
                if str_eq(p.name.as_str(), name.as_str()) && str_eq(
                    p.email.as_str(),
                    email.as_str(),
                ) {
                    let found = config.profiles[i].0.clone();
                    proof {
                        let eff = spec_effective_identity(
                            local_name,
                            local_email,
                            global_name,
                            global_email,
                        );
                        assert(eff.0 == Some(*name));
                        assert(eff.1 == Some(*email));
                        assert(exists|ii: int|
                            0 <= ii < config.profiles@.len() && identity_matches(
                                config.profiles@[ii].1,
                                name@,
                                email@,
                            ) && found@ == config.key_at(ii) && (forall|j: int|
                                0 <= j < ii ==> !identity_matches(
                                    config.profiles@[j].1,
                                    name@,
                                    email@,
                                ))) by {
                            assert(identity_matches(config.profiles@[i as int].1, name@, email@));
                            assert(found@ == config.key_at(i as int));
                        }
                    }
                    return Some(found);
                }
                i += 1;
            }
            None
            },
            None => None,
        },
        None => None,
    }
}

} // verus!
