//! Library-wide laws: guaranteed detection scores, and how the SSH config
//! synchronizer behaves when run again over its own output.
use vstd::prelude::*;
use crate::config::Config;
use crate::detect::spec_score;
use crate::profile::Profile;
use crate::ssh::{spec_end, spec_entries, spec_managed_block, spec_start, spec_sync_content,
    spec_sync_updates};
use crate::strutil::{contains_at, contains_seq, first_sub, lemma_first_sub_at,
    lemma_first_sub_none, lemma_first_sub_props};

verus! {

/// A profile whose SSH alias the remote host equals scores at least 100,
/// whatever else holds of it.
pub proof fn lemma_alias_match_scores(host: Seq<char>, profile_name: Seq<char>, p: Profile)
    requires
        host == p.spec_alias(profile_name),
    ensures
        spec_score(host, profile_name, p) >= 100,
{
}

/// A GitHub profile scores above zero against any remote host that contains
/// `github`, even with no alias or host match.
pub proof fn lemma_github_substring_scores(host: Seq<char>, profile_name: Seq<char>, p: Profile)
    requires
        p.platform is Github,
        contains_seq(host, "github"@),
    ensures
        spec_score(host, profile_name, p) >= 20,
{
}

/// Character facts about the start sentinel: `#` only opens it, and it holds
/// no newline.
proof fn lemma_start_chars()
    ensures
        spec_start().len() == 29,
        spec_start()[0] == '#',
        forall|j: int| 1 <= j < 29 ==> spec_start()[j] != '#',
        forall|j: int| 0 <= j < 29 ==> spec_start()[j] != '\n',
{
    reveal_strlit("# === GITID MANAGED START ===");
}

/// Character facts about the end sentinel.
proof fn lemma_end_chars()
    ensures
        spec_end().len() == 27,
        spec_end()[0] == '#',
        forall|j: int| 1 <= j < 27 ==> spec_end()[j] != '#',
        forall|j: int| 0 <= j < 27 ==> spec_end()[j] != '\n',
        spec_start()[20] != spec_end()[20],
{
    reveal_strlit("# === GITID MANAGED START ===");
    reveal_strlit("# === GITID MANAGED END ===");
}

/// `s` holds no `#` character.
pub open spec fn hash_free(s: Seq<char>) -> bool {
    forall|i: int| 0 <= i < s.len() ==> s[i] != '#'
}

/// Every field of every stored profile that reaches the rendered stanzas is
/// free of `#`: the profile names, the SSH key paths, and the custom hosts.
pub open spec fn store_hash_free(c: Config) -> bool {
    forall|i: int|
        0 <= i < c.profiles@.len() ==> (#[trigger] hash_free(c.key_at(i)) && hash_free(
            c.profiles@[i].1.ssh_key@,
        ) && (c.profiles@[i].1.host matches Some(h) ==> hash_free(h@)))
}

proof fn lemma_hash_free_concat(a: Seq<char>, b: Seq<char>)
    requires
        hash_free(a),
        hash_free(b),
    ensures
        hash_free(a + b),
{
    assert forall|i: int| 0 <= i < (a + b).len() implies (a + b)[i] != '#' by {
        if i < a.len() {
            assert((a + b)[i] == a[i]);
        } else {
            assert((a + b)[i] == b[i - a.len()]);
        }
    }
}

/// The fixed text of a stanza holds no `#`, so a stanza over `#`-free parts
/// is `#`-free.
proof fn lemma_stanza_hash_free(alias: Seq<char>, hostname: Seq<char>, key: Seq<char>)
    requires
        hash_free(alias),
        hash_free(hostname),
        hash_free(key),
    ensures
        hash_free(crate::ssh::spec_stanza(alias, hostname, key)),
{
    reveal_strlit("Host ");
    reveal_strlit("\n  HostName ");
    reveal_strlit("\n  User git\n  IdentityFile ");
    reveal_strlit("\n  IdentitiesOnly yes\n");
    assert(hash_free("Host "@));
    assert(hash_free("\n  HostName "@));
    assert(hash_free("\n  User git\n  IdentityFile "@));
    assert(hash_free("\n  IdentitiesOnly yes\n"@));
    lemma_hash_free_concat("Host "@, alias);
    lemma_hash_free_concat("Host "@ + alias, "\n  HostName "@);
    lemma_hash_free_concat("Host "@ + alias + "\n  HostName "@, hostname);
    lemma_hash_free_concat("Host "@ + alias + "\n  HostName "@ + hostname,
        "\n  User git\n  IdentityFile "@);
    lemma_hash_free_concat(
        "Host "@ + alias + "\n  HostName "@ + hostname + "\n  User git\n  IdentityFile "@,
        key,
    );
    lemma_hash_free_concat(
        "Host "@ + alias + "\n  HostName "@ + hostname + "\n  User git\n  IdentityFile "@ + key,
        "\n  IdentitiesOnly yes\n"@,
    );
}

/// A profile with `#`-free fields renders `#`-free stanzas.
proof fn lemma_entry_hash_free(pname: Seq<char>, p: crate::profile::Profile)
    requires
        hash_free(pname),
        hash_free(p.ssh_key@),
        p.host matches Some(h) ==> hash_free(h@),
    ensures
        hash_free(crate::ssh::spec_host_entry(pname, p)),
{
    reveal_strlit("github");
    reveal_strlit("gitlab");
    reveal_strlit("git");
    reveal_strlit("github-");
    reveal_strlit("gitlab-");
    reveal_strlit("-");
    reveal_strlit("github.com");
    reveal_strlit("gitlab.com");
    reveal_strlit("\n");
    assert(hash_free(p.platform.spec_prefix()));
    assert(hash_free("-"@));
    assert(hash_free("github-"@));
    assert(hash_free("gitlab-"@));
    assert(hash_free("github.com"@));
    assert(hash_free("gitlab.com"@));
    assert(hash_free("\n"@));
    lemma_hash_free_concat(p.platform.spec_prefix(), "-"@);
    lemma_hash_free_concat(p.platform.spec_prefix() + "-"@, pname);
    assert(hash_free(p.spec_default_host()));
    let base = crate::ssh::spec_stanza(p.spec_alias(pname), p.spec_default_host(), p.ssh_key@);
    lemma_stanza_hash_free(p.spec_alias(pname), p.spec_default_host(), p.ssh_key@);
    if p.platform is Both {
        lemma_hash_free_concat("github-"@, pname);
        lemma_hash_free_concat("gitlab-"@, pname);
        let gh = crate::ssh::spec_stanza("github-"@ + pname, "github.com"@, p.ssh_key@);
        let gl = crate::ssh::spec_stanza("gitlab-"@ + pname, "gitlab.com"@, p.ssh_key@);
        lemma_stanza_hash_free("github-"@ + pname, "github.com"@, p.ssh_key@);
        lemma_stanza_hash_free("gitlab-"@ + pname, "gitlab.com"@, p.ssh_key@);
        lemma_hash_free_concat(base, "\n"@);
        lemma_hash_free_concat(base + "\n"@, gh);
        lemma_hash_free_concat(base + "\n"@ + gh, "\n"@);
        lemma_hash_free_concat(base + "\n"@ + gh + "\n"@, gl);
    }
}

/// A store with `#`-free fields renders a stanza region that cannot hold
/// the end sentinel, so such a store always meets the synchronizer laws.
pub proof fn lemma_clean_store_entries(c: Config)
    requires
        store_hash_free(c),
    ensures
        !contains_seq(spec_entries(c.profiles@), spec_end()),
{
    lemma_end_chars();
    lemma_entries_hash_free(c, c.profiles@.len() as int);
    assert(c.profiles@.take(c.profiles@.len() as int) =~= c.profiles@);
    let ent = spec_entries(c.profiles@);
    if contains_seq(ent, spec_end()) {
        let o = choose|o: int| contains_at(ent, spec_end(), o);
        assert(ent.subrange(o, o + spec_end().len() as int)[0] == ent[o]);
        assert(ent[o] == spec_end()[0]);
    }
}

/// The first `k` entries of a `#`-free store render `#`-free text.
proof fn lemma_entries_hash_free(c: Config, k: int)
    requires
        store_hash_free(c),
        0 <= k <= c.profiles@.len(),
    ensures
        hash_free(spec_entries(c.profiles@.take(k))),
    decreases k,
{
    if k == 0 {
        assert(c.profiles@.take(0).len() == 0);
    } else {
        lemma_entries_hash_free(c, k - 1);
        let taken = c.profiles@.take(k);
        assert(taken.drop_last() =~= c.profiles@.take(k - 1));
        assert(taken.last() == c.profiles@[k - 1]);
        assert(hash_free(c.key_at(k - 1)));
        lemma_entry_hash_free(c.key_at(k - 1), c.profiles@[k - 1].1);
        lemma_hash_free_concat(
            spec_entries(c.profiles@.take(k - 1)),
            crate::ssh::spec_host_entry(taken.last().0@, taken.last().1),
        );
    }
}

/// An occurrence inside a prefix of `h` is an occurrence in `h`.
proof fn lemma_contains_take(h: Seq<char>, n: Seq<char>, m: int, o: int)
    requires
        0 <= m <= h.len(),
        contains_at(h.take(m), n, o),
    ensures
        contains_at(h, n, o),
{
    assert(h.subrange(o, o + n.len() as int) =~= h.take(m).subrange(o, o + n.len() as int));
}

/// In `x + b + y`: when the first occurrence of `n` within `b` stands at
/// `p`, `n` occurs nowhere in `x`, `b` opens with `n`'s first character, and
/// that character appears in `n` only at its start, the first occurrence of
/// `n` in the whole is at `x.len() + p`.
proof fn lemma_first_sub_concat(x: Seq<char>, b: Seq<char>, y: Seq<char>, n: Seq<char>, p: int)
    requires
        n.len() > 0,
        forall|j: int| 1 <= j < n.len() ==> #[trigger] n[j] != n[0],
        !contains_seq(x, n),
        0 <= p,
        p + n.len() <= b.len(),
        contains_at(b, n, p),
        forall|o: int| 0 <= o < p ==> !contains_at(b, n, o),
        b[0] == n[0],
    ensures
        first_sub(x + b + y, n) == x.len() + p,
{
    let c = x + b + y;
    assert(contains_at(c, n, x.len() + p)) by {
        assert(c.subrange(x.len() + p, x.len() + p + n.len() as int) =~= b.subrange(
            p,
            p + n.len() as int,
        ));
    }
    assert forall|o: int| 0 <= o < x.len() + p implies !contains_at(c, n, o) by {
        if contains_at(c, n, o) {
            if o + n.len() <= x.len() {
                assert(x.subrange(o, o + n.len() as int) =~= c.subrange(o, o + n.len() as int));
                assert(contains_at(x, n, o));
                assert(false);
            } else if o < x.len() {
                let k = x.len() - o;
                assert(c.subrange(o, o + n.len() as int)[k as int] == c[x.len() as int]);
                assert(c[x.len() as int] == b[0]);
                assert(n[k as int] == n[0]);
                assert(false);
            } else {
                let q = o - x.len();
                assert(c.subrange(o, o + n.len() as int) =~= b.subrange(q, q + n.len() as int));
                assert(contains_at(b, n, q));
                assert(false);
            }
        }
    }
    lemma_first_sub_at(c, n, x.len() + p);
}

/// Within a managed block whose stanza text does not contain the end
/// sentinel, the end sentinel occurs exactly once: at the very end.
proof fn lemma_block_end_position(c: Config)
    requires
        !contains_seq(spec_entries(c.profiles@), spec_end()),
    ensures
        ({
            let b = spec_managed_block(c);
            let p = b.len() - spec_end().len();
            &&& b.len() >= spec_start().len() + 1 + spec_end().len()
            &&& b[0] == '#'
            &&& contains_at(b, spec_end(), p as int)
            &&& forall|o: int| 0 <= o < p ==> !contains_at(b, spec_end(), o)
        }),
{
    lemma_start_chars();
    lemma_end_chars();
    reveal_strlit("\n");
    let s1 = spec_start() + "\n"@;
    let ent = spec_entries(c.profiles@);
    let b = spec_managed_block(c);
    let nn = spec_end();
    assert(s1.len() == 30);
    assert(b =~= s1 + ent + nn);
    let p = b.len() - nn.len();
    assert(p == s1.len() + ent.len());
    assert(contains_at(b, nn, p as int)) by {
        assert(b.subrange(p as int, p + nn.len() as int) =~= nn);
    }
    assert(b[p as int] == nn[0]);
    assert forall|o: int| 0 <= o < p implies !contains_at(b, nn, o) by {
        if contains_at(b, nn, o) {
            assert(b.subrange(o, o + nn.len() as int)[0] == b[o]);
            assert(b[o] == nn[0]);
            if o < s1.len() {
                if o == 0 {
                    assert(b.subrange(0, nn.len() as int)[20] == b[20]);
                    assert(b[20] == spec_start()[20]);
                    assert(false);
                } else if o < spec_start().len() {
                    assert(b[o] == spec_start()[o]);
                    assert(false);
                } else {
                    assert(b[o] == '\n');
                    assert(false);
                }
            } else if o + nn.len() <= s1.len() + ent.len() {
                let q = o - s1.len();
                assert(b.subrange(o, o + nn.len() as int) =~= ent.subrange(
                    q,
                    q + nn.len() as int,
                ));
                assert(contains_at(ent, nn, q));
                assert(false);
            } else {
                let k = p - o;
                assert(b.subrange(o, o + nn.len() as int)[k as int] == b[p as int]);
                assert(nn[k as int] == nn[0]);
                assert(false);
            }
        }
    }
}

/// Merge preservation: arbitrary content standing before and after an
/// existing managed block survives a re-sync byte-for-byte; only the block
/// itself is regenerated. The content before the block must not contain a
/// sentinel of its own, and no stanza text may contain the end sentinel.
pub proof fn lemma_sync_preserves_surroundings(
    pre: Seq<char>,
    post: Seq<char>,
    c_old: Config,
    c_new: Config,
)
    requires
        !contains_seq(pre, spec_start()),
        !contains_seq(pre, spec_end()),
        !contains_seq(spec_entries(c_old.profiles@), spec_end()),
    ensures
        spec_sync_updates(pre + spec_managed_block(c_old) + post),
        spec_sync_content(pre + spec_managed_block(c_old) + post, spec_managed_block(c_new))
            == pre + spec_managed_block(c_new) + post,
{
    lemma_start_chars();
    lemma_end_chars();
    let b_old = spec_managed_block(c_old);
    let b_new = spec_managed_block(c_new);
    let cur = pre + b_old + post;
    assert(contains_at(b_old, spec_start(), 0)) by {
        assert(b_old.subrange(0, spec_start().len() as int) =~= spec_start());
    }
    assert(b_old[0] == spec_start()[0]);
    lemma_first_sub_concat(pre, b_old, post, spec_start(), 0);
    lemma_block_end_position(c_old);
    let p = b_old.len() - spec_end().len();
    lemma_first_sub_concat(pre, b_old, post, spec_end(), p as int);
    assert(spec_sync_updates(cur));
    assert(cur.take(pre.len() as int) =~= pre);
    assert(cur.skip(pre.len() + p + spec_end().len() as int) =~= post);
    assert(spec_sync_content(cur, b_new) =~= pre + b_new + post);
}

/// Syncing into content of the shape `x + block + y` — the block freshly
/// generated for this store, `x` free of both sentinels — reproduces the
/// content unchanged.
pub proof fn lemma_sync_canonical(x: Seq<char>, y: Seq<char>, c: Config)
    requires
        !contains_seq(x, spec_start()),
        !contains_seq(x, spec_end()),
        !contains_seq(spec_entries(c.profiles@), spec_end()),
    ensures
        spec_sync_updates(x + spec_managed_block(c) + y),
        spec_sync_content(x + spec_managed_block(c) + y, spec_managed_block(c)) == x
            + spec_managed_block(c) + y,
{
    lemma_sync_preserves_surroundings(x, y, c, c);
}

/// Idempotence: syncing twice in a row with an unchanged store gives the
/// same content as syncing once.
///
/// Excluded inputs: content holding one sentinel without the other (the
/// start line alone, say), or an end sentinel before the first start
/// sentinel, and stores whose stanza text contains the end sentinel; on
/// those the merge has no block-shaped region to settle on.
pub proof fn lemma_sync_idempotent(cur: Seq<char>, c: Config)
    requires
        !contains_seq(spec_entries(c.profiles@), spec_end()),
        contains_seq(cur, spec_start()) <==> contains_seq(cur, spec_end()),
        contains_seq(cur, spec_start()) ==> first_sub(cur, spec_start()) <= first_sub(
            cur,
            spec_end(),
        ),
    ensures
        spec_sync_content(spec_sync_content(cur, spec_managed_block(c)), spec_managed_block(c))
            == spec_sync_content(cur, spec_managed_block(c)),
{
    lemma_start_chars();
    lemma_end_chars();
    let b = spec_managed_block(c);
    if contains_seq(cur, spec_start()) {
        lemma_first_sub_props(cur, spec_start());
        lemma_first_sub_props(cur, spec_end());
        let s = first_sub(cur, spec_start());
        let e = first_sub(cur, spec_end());
        assert(spec_sync_updates(cur));
        let x = cur.take(s);
        let y = cur.skip(e + spec_end().len());
        assert(spec_sync_content(cur, b) =~= x + b + y);
        assert(!contains_seq(x, spec_start())) by {
            if contains_seq(x, spec_start()) {
                let o = choose|o: int| contains_at(x, spec_start(), o);
                lemma_contains_take(cur, spec_start(), s, o);
            }
        }
        assert(!contains_seq(x, spec_end())) by {
            if contains_seq(x, spec_end()) {
                let o = choose|o: int| contains_at(x, spec_end(), o);
                lemma_contains_take(cur, spec_end(), s, o);
            }
        }
        lemma_sync_canonical(x, y, c);
    } else {
        lemma_first_sub_none(cur, spec_start());
        lemma_first_sub_none(cur, spec_end());
        assert(!spec_sync_updates(cur));
        reveal_strlit("\n");
        let closed = if cur.len() > 0 && cur.last() != '\n' {
            cur + "\n"@
        } else {
            cur
        };
        let x2 = if cur.len() > 0 {
            closed + "\n"@
        } else {
            closed
        };
        assert(spec_sync_content(cur, b) =~= x2 + b + "\n"@);
        assert(x2.len() <= cur.len() + 2);
        assert(forall|i: int| 0 <= i < cur.len() ==> x2[i] == cur[i]);
        assert(forall|i: int| cur.len() <= i < x2.len() ==> x2[i] == '\n');
        assert(!contains_seq(x2, spec_start())) by {
            if contains_seq(x2, spec_start()) {
                let o = choose|o: int| contains_at(x2, spec_start(), o);
                if o + spec_start().len() <= cur.len() {
                    assert(cur.subrange(o, o + spec_start().len() as int) =~= x2.subrange(
                        o,
                        o + spec_start().len() as int,
                    ));
                    assert(contains_at(cur, spec_start(), o));
                } else {
                    let k = cur.len() - o;
                    assert(0 < k < spec_start().len());
                    assert(x2.subrange(o, o + spec_start().len() as int)[k as int]
                        == x2[cur.len() as int]);
                    assert(spec_start()[k as int] == '\n');
                }
            }
        }
        assert(!contains_seq(x2, spec_end())) by {
            if contains_seq(x2, spec_end()) {
                let o = choose|o: int| contains_at(x2, spec_end(), o);
                if o + spec_end().len() <= cur.len() {
                    assert(cur.subrange(o, o + spec_end().len() as int) =~= x2.subrange(
                        o,
                        o + spec_end().len() as int,
                    ));
                    assert(contains_at(cur, spec_end(), o));
                } else {
                    let k = cur.len() - o;
                    assert(0 < k < spec_end().len());
                    assert(x2.subrange(o, o + spec_end().len() as int)[k as int]
                        == x2[cur.len() as int]);
                    assert(spec_end()[k as int] == '\n');
                }
            }
        }
        lemma_sync_canonical(x2, "\n"@, c);
    }
}

} // verus!
