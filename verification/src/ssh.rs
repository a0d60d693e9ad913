//! SSH config synchronization: render one `Host` stanza per profile alias,
//! frame them between two sentinel lines, and merge that managed block into
//! existing config content without disturbing what surrounds it.
//!
//! Reading and writing the actual `~/.ssh/config` file is left to the
//! surrounding binary; this module maps old content to new content.
use vstd::prelude::*;
use crate::config::Config;
use crate::profile::{Platform, Profile};
use crate::strutil::find_sub;
use crate::strutil::first_sub;

verus! {

/// The line that opens the managed region.
pub open spec fn spec_start() -> Seq<char> {
    "# === GITID MANAGED START ==="@
}

/// The line that closes the managed region.
pub open spec fn spec_end() -> Seq<char> {
    "# === GITID MANAGED END ==="@
}

/// The sentinel line opening the managed region.
pub fn managed_start() -> (r: &'static str)
    ensures
        r@ == spec_start(),
{
    "# === GITID MANAGED START ==="
}

/// The sentinel line closing the managed region.
pub fn managed_end() -> (r: &'static str)
    ensures
        r@ == spec_end(),
{
    "# === GITID MANAGED END ==="
}

/// One `Host` stanza pointing an alias at a host with a key.
pub open spec fn spec_stanza(alias: Seq<char>, hostname: Seq<char>, key: Seq<char>) -> Seq<
    char,
> {
    "Host "@ + alias + "\n  HostName "@ + hostname + "\n  User git\n  IdentityFile "@ + key
        + "\n  IdentitiesOnly yes\n"@
}

/// The stanzas one profile contributes: its alias stanza, and for `Both`
/// two more pointing `github-<name>` and `gitlab-<name>` at the public hosts.
pub open spec fn spec_host_entry(pname: Seq<char>, p: Profile) -> Seq<char> {
    if p.platform is Both {
        spec_stanza(p.spec_alias(pname), p.spec_default_host(), p.ssh_key@) + "\n"@
            + spec_stanza("github-"@ + pname, "github.com"@, p.ssh_key@) + "\n"@ + spec_stanza(
            "gitlab-"@ + pname,
            "gitlab.com"@,
            p.ssh_key@,
        )
    } else {
        spec_stanza(p.spec_alias(pname), p.spec_default_host(), p.ssh_key@)
    }
}

/// The concatenated stanzas of all entries, in order.
pub open spec fn spec_entries(entries: Seq<(String, Profile)>) -> Seq<char>
    decreases entries.len(),
{
    if entries.len() == 0 {
        Seq::empty()
    } else {
        spec_entries(entries.drop_last()) + spec_host_entry(
            entries.last().0@,
            entries.last().1,
        )
    }
}

/// The whole managed block: start sentinel, newline, stanzas, end sentinel.
pub open spec fn spec_managed_block(c: Config) -> Seq<char> {
    spec_start() + "\n"@ + spec_entries(c.profiles@) + spec_end()
}

/// Append one stanza to `dst`.
fn append_stanza(dst: &mut String, alias: &str, hostname: &str, key: &str)
    ensures
        final(dst)@ == old(dst)@ + spec_stanza(alias@, hostname@, key@),
{
    dst.append("Host ");
    dst.append(alias);
    dst.append("\n  HostName ");
    dst.append(hostname);
    dst.append("\n  User git\n  IdentityFile ");
    dst.append(key);
    dst.append("\n  IdentitiesOnly yes\n");
    proof {
        assert(dst@ =~= old(dst)@ + spec_stanza(alias@, hostname@, key@));
    }
}

/// Generate the SSH `Host` stanzas for one profile.
pub fn generate_host_entry(profile_name: &str, profile: &Profile) -> (r: String)
    ensures
        r@ == spec_host_entry(profile_name@, *profile),
{
    let mut entry = String::new();
    let alias = profile.ssh_host_alias(profile_name);
    let hostname = profile.default_host();
    append_stanza(&mut entry, alias.as_str(), hostname, profile.ssh_key.as_str());
    if matches!(profile.platform, Platform::Both) {
        let mut gh_alias = String::new();
        gh_alias.append("github-");
        gh_alias.append(profile_name);
        let mut gl_alias = String::new();
        gl_alias.append("gitlab-");
        gl_alias.append(profile_name);
        entry.append("\n");
        append_stanza(&mut entry, gh_alias.as_str(), "github.com", profile.ssh_key.as_str());
        entry.append("\n");
        append_stanza(&mut entry, gl_alias.as_str(), "gitlab.com", profile.ssh_key.as_str());
        proof {
            assert(entry@ =~= spec_host_entry(profile_name@, *profile));
        }
    } else {
        proof {
            assert(entry@ =~= spec_host_entry(profile_name@, *profile));
        }
    }
    entry
}

/// Generate the managed block for all profiles, in stored (alphabetical)
/// order.
pub fn generate_managed_block(config: &Config) -> (r: String)
    ensures
        r@ == spec_managed_block(*config),
{
    let mut block = String::new();
    block.append(managed_start());
    block.append("\n");
    let n = config.profiles.len();
    let mut i: usize = 0;
    while i < n
        invariant
            i <= n,
            n == config.profiles@.len(),
            block@ == spec_start() + "\n"@ + spec_entries(config.profiles@.take(i as int)),
        decreases n - i,
    {
        let entry = generate_host_entry(config.profiles[i].0.as_str(), &config.profiles[i].1);
        block.append(entry.as_str());
        proof {
            let taken = config.profiles@.take(i as int + 1);
            assert(taken.drop_last() =~= config.profiles@.take(i as int));
            assert(taken.last() == config.profiles@[i as int]);
            assert(block@ =~= spec_start() + "\n"@ + spec_entries(taken));
        }
        i += 1;
    }
    proof {
        assert(config.profiles@.take(n as int) =~= config.profiles@);
    }
    block.append(managed_end());
    block
}

/// Whether syncing into `cur` replaces an existing block (both sentinels
/// present) rather than appending a new one.
pub open spec fn spec_sync_updates(cur: Seq<char>) -> bool {
    first_sub(cur, spec_start()) >= 0 && first_sub(cur, spec_end()) >= 0
}

/// Content after appending `block` to `cur`: a newline to close an unfinished
/// last line, a blank separator line when `cur` is non-empty, the block, and
/// a final newline.
pub open spec fn spec_append_content(cur: Seq<char>, block: Seq<char>) -> Seq<char> {
    let closed = if cur.len() > 0 && cur.last() != '\n' {
        cur + "\n"@
    } else {
        cur
    };
    let separated = if cur.len() > 0 {
        closed + "\n"@
    } else {
        closed
    };
    separated + block + "\n"@
}

/// Content after syncing `block` into `cur`: replace from the first start
/// sentinel through the first end sentinel when both are present, else
/// append.
pub open spec fn spec_sync_content(cur: Seq<char>, block: Seq<char>) -> Seq<char> {
    if spec_sync_updates(cur) {
        cur.take(first_sub(cur, spec_start())) + block + cur.skip(
            first_sub(cur, spec_end()) + spec_end().len(),
        )
    } else {
        spec_append_content(cur, block)
    }
}

/// Merge the managed block for `config` into the given SSH config content.
///
/// Returns the new content, the number of profiles covered, and whether an
/// existing managed block was replaced (`true`) or a new one appended
/// (`false`). Bytes before the first start sentinel and after the first end
/// sentinel are kept verbatim.
pub fn sync_ssh_config(current_content: &str, config: &Config) -> (r: (String, usize, bool))
    ensures
        r.0@ == spec_sync_content(current_content@, spec_managed_block(*config)),
        r.1 == config.profiles@.len(),
        r.2 == spec_sync_updates(current_content@),
{
    let new_block = generate_managed_block(config);
    let count = config.profiles.len();
    let len = current_content.unicode_len();
    let s_opt = find_sub(current_content, managed_start());
    let e_opt = find_sub(current_content, managed_end());
    match (s_opt, e_opt) {
        (Some(s), Some(e)) => {
            let endlen = managed_end().unicode_len();
            let mut out = current_content.substring_char(0, s).to_owned();
            out.append(new_block.as_str());
            out.append(current_content.substring_char(e + endlen, len));
            proof {
                assert(current_content@.subrange(0, s as int) =~= current_content@.take(
                    s as int,
                ));
                assert(current_content@.subrange(e as int + endlen as int, len as int)
                    =~= current_content@.skip(e as int + endlen as int));
                assert(out@ =~= spec_sync_content(
                    current_content@,
                    spec_managed_block(*config),
                ));
            }
            (out, count, true)
        },
        _ => {
            let mut out = current_content.to_owned();
            if len > 0 {
                if current_content.get_char(len - 1) != '\n' {
                    out.append("\n");
                }
                out.append("\n");
            }
            out.append(new_block.as_str());
            out.append("\n");
            proof {
                assert(out@ =~= spec_append_content(
                    current_content@,
                    spec_managed_block(*config),
                ));
            }
            (out, count, false)
        },
    }
}

} // verus!
