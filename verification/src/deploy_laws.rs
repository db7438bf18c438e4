//! What holds of deployments: names that tell agents and remotes apart, and a memory that lasts.

use vstd::prelude::*;

use crate::deploy::{
    agent_bin_of, agent_dir_of, key_of, place_of, staging_of, user_text, DeployerModel,
    DeploymentModel, RemoteModel,
};
use crate::path_laws::law_temp_dir_is_the_build_dirs_parent;
use crate::paths::{is_at_or_below, temp_dir};
use crate::text::{decimal, digit, hex, hex_digit};

verus! {

/// A decimal or lower-case hexadecimal digit.
pub open spec fn is_hex_digit(c: char) -> bool {
    '0' <= c <= '9' || 'a' <= c <= 'f'
}

/// A hash name has 16 characters, all of them hexadecimal digits.
pub proof fn law_hash_name_is_hex(h: u64)
    ensures
        hex(h as nat, 16).len() == 16,
        forall|i: int| 0 <= i < 16 ==> is_hex_digit(#[trigger] hex(h as nat, 16)[i]),
{
    lemma_hex_is_hex(h as nat, 16);
}

/// Different hashes have different names.
pub proof fn law_hash_names_are_distinct(h: u64, g: u64)
    requires
        hex(h as nat, 16) == hex(g as nat, 16),
    ensures
        h == g,
{
    lemma_pow16();
    lemma_hex_low(h as nat, g as nat, 16);
}

/// An agent with another hash is deployed under another name, and has another key.
pub proof fn law_new_agent_gets_new_names(
    remote: RemoteModel,
    build_path: Seq<char>,
    hash: Seq<char>,
    other: Seq<char>,
)
    requires
        hash != other,
    ensures
        agent_bin_of(build_path, hash) != agent_bin_of(build_path, other),
        key_of(remote, hash) != key_of(remote, other),
{
    lemma_suffix(agent_bin_of(build_path, Seq::empty()), hash, other);
    lemma_suffix(key_of(remote, Seq::empty()), hash, other);
    assert(agent_bin_of(build_path, Seq::empty()) + hash =~= agent_bin_of(build_path, hash));
    assert(agent_bin_of(build_path, Seq::empty()) + other =~= agent_bin_of(build_path, other));
    assert(key_of(remote, Seq::empty()) + hash =~= key_of(remote, hash));
    assert(key_of(remote, Seq::empty()) + other =~= key_of(remote, other));
}

/// Remotes that share a deploy key are the same host, port and user. A host name holds no `|`;
/// a missing user counts as an empty one.
pub proof fn law_deploy_key_identifies_the_remote(
    a: RemoteModel,
    b: RemoteModel,
    hash: Seq<char>,
)
    requires
        !a.host.contains('|'),
        !b.host.contains('|'),
        key_of(a, hash) == key_of(b, hash),
    ensures
        a.host == b.host,
        a.port == b.port,
        user_text(a.user) == user_text(b.user),
{
    let bar = seq!['|'];
    let pa = decimal(a.port as nat);
    let pb = decimal(b.port as nat);
    let ra = user_text(a.user) + bar + hash;
    let rb = user_text(b.user) + bar + hash;
    assert(key_of(a, hash) =~= a.host + bar + (pa + bar + ra));
    assert(key_of(b, hash) =~= b.host + bar + (pb + bar + rb));
    lemma_split_at_bar(a.host, pa + bar + ra, b.host, pb + bar + rb);
    lemma_decimal_has_no_bar(a.port as nat);
    lemma_decimal_has_no_bar(b.port as nat);
    lemma_split_at_bar(pa, ra, pb, rb);
    lemma_decimal_injective(a.port as nat, b.port as nat);
    assert(ra.len() == rb.len());
    assert(user_text(a.user) =~= ra.take(user_text(a.user).len() as int));
    assert(user_text(b.user) =~= rb.take(user_text(b.user).len() as int));
}

/// Two processes stage the same agent under different paths.
pub proof fn law_staging_paths_are_distinct(bin: Seq<char>, pid: u32, other: u32)
    requires
        pid != other,
    ensures
        bin + ".tmp."@ + decimal(pid as nat) != bin + ".tmp."@ + decimal(other as nat),
{
    if decimal(pid as nat) == decimal(other as nat) {
        lemma_decimal_injective(pid as nat, other as nat);
    }
    lemma_suffix(bin + ".tmp."@, decimal(pid as nat), decimal(other as nat));
}

/// The agent lives beneath the temp dir.
pub proof fn law_agent_lives_in_the_temp_dir(build_path: Seq<char>, hash: Seq<char>)
    ensures
        is_at_or_below(agent_bin_of(build_path, hash), temp_dir(build_path)),
{
    let dir = temp_dir(build_path);
    let bin = agent_bin_of(build_path, hash);
    reveal_strlit("/.rustle");
    assert(bin.subrange(0, dir.len() as int) =~= dir);
    assert(bin[dir.len() as int] == '/');
}

/// All projects of a temp dir share one agent, however many slashes end their build paths.
pub proof fn law_projects_share_the_agent(
    dir: Seq<char>,
    project: Seq<char>,
    other: Seq<char>,
    slashes: Seq<char>,
    other_slashes: Seq<char>,
    hash: Seq<char>,
)
    requires
        project.len() > 0,
        other.len() > 0,
        !project.contains('/'),
        !other.contains('/'),
        forall|i: int| 0 <= i < slashes.len() ==> (#[trigger] slashes[i]) == '/',
        forall|i: int| 0 <= i < other_slashes.len() ==> (#[trigger] other_slashes[i]) == '/',
    ensures
        agent_bin_of(dir + seq!['/'] + project + slashes, hash) == agent_bin_of(
            dir + seq!['/'] + other + other_slashes,
            hash,
        ),
{
    law_temp_dir_is_the_build_dirs_parent(dir, project, slashes);
    law_temp_dir_is_the_build_dirs_parent(dir, other, other_slashes);
}

/// A deployment that was remembered stays remembered, whatever is deployed later.
pub proof fn law_deployment_is_remembered(
    m: DeployerModel,
    remote: RemoteModel,
    bin: Seq<char>,
    other: RemoteModel,
    other_bin: Seq<char>,
)
    ensures
        m.with(remote, bin).knows(remote, bin),
        m.with(remote, bin).with(other, other_bin).knows(remote, bin),
        m.knows(remote, bin) ==> m.with(other, other_bin).knows(remote, bin),
        m.with(other, other_bin).hash == m.hash,
{
}

/// A deployment at one path says nothing of another path on the same remote: an agent counts as
/// there only where it was found or installed.
pub proof fn law_deployment_is_known_at_its_path_only(
    m: DeployerModel,
    remote: RemoteModel,
    bin: Seq<char>,
    other_bin: Seq<char>,
)
    requires
        bin != other_bin,
        !m.knows(remote, other_bin),
    ensures
        !m.with(remote, bin).knows(remote, other_bin),
{
    lemma_suffix(key_of(remote, m.hash) + seq!['|'], bin, other_bin);
}

/// Builds under different temp dirs of a remote use different agent paths, so a deployment under
/// one is no deployment under the other.
pub proof fn law_temp_dirs_are_deployed_to_separately(
    m: DeployerModel,
    remote: RemoteModel,
    build_path: Seq<char>,
    other_path: Seq<char>,
)
    requires
        temp_dir(build_path) != temp_dir(other_path),
        !m.knows(remote, m.bin(other_path)),
    ensures
        m.bin(build_path) != m.bin(other_path),
        !m.with(remote, m.bin(build_path)).knows(remote, m.bin(other_path)),
{
    let tail = "/.rustle"@ + "/agent-"@ + m.hash;
    assert(m.bin(build_path) =~= temp_dir(build_path) + tail);
    assert(m.bin(other_path) =~= temp_dir(other_path) + tail);
    lemma_prefix(temp_dir(build_path), temp_dir(other_path), tail);
    law_deployment_is_known_at_its_path_only(
        m,
        remote,
        m.bin(build_path),
        m.bin(other_path),
    );
}

/// What becomes known by a deployment is that deployment and no other: the same host, port, user
/// and path. Host and user names hold no `|`; a missing user counts as an empty one.
pub proof fn law_deployment_identifies_its_place(
    m: DeployerModel,
    remote: RemoteModel,
    bin: Seq<char>,
    other: RemoteModel,
    other_bin: Seq<char>,
)
    requires
        !remote.host.contains('|'),
        !other.host.contains('|'),
        !user_text(remote.user).contains('|'),
        !user_text(other.user).contains('|'),
        !m.knows(other, other_bin),
        m.with(remote, bin).knows(other, other_bin),
    ensures
        remote.host == other.host,
        remote.port == other.port,
        user_text(remote.user) == user_text(other.user),
        bin == other_bin,
{
    let bar = seq!['|'];
    let pa = decimal(remote.port as nat);
    let pb = decimal(other.port as nat);
    let ua = user_text(remote.user);
    let ub = user_text(other.user);
    let ra = m.hash + bar + bin;
    let rb = m.hash + bar + other_bin;
    assert(place_of(remote, m.hash, bin) == place_of(other, m.hash, other_bin));
    assert(place_of(remote, m.hash, bin) =~= remote.host + bar + (pa + bar + (ua + bar + ra)));
    assert(place_of(other, m.hash, other_bin) =~= other.host + bar + (pb + bar + (ub + bar + rb)));
    lemma_split_at_bar(remote.host, pa + bar + (ua + bar + ra), other.host, pb + bar + (ub + bar
        + rb));
    lemma_decimal_has_no_bar(remote.port as nat);
    lemma_decimal_has_no_bar(other.port as nat);
    lemma_split_at_bar(pa, ua + bar + ra, pb, ub + bar + rb);
    lemma_decimal_injective(remote.port as nat, other.port as nat);
    lemma_split_at_bar(ua, ra, ub, rb);
    if bin != other_bin {
        lemma_suffix(m.hash + bar, bin, other_bin);
    }
}

/// A deployer that was told of nothing knows of nothing.
pub proof fn law_nothing_is_known_at_first(hash: Seq<char>, remote: RemoteModel, bin: Seq<char>)
    ensures
        !(DeployerModel { hash, deployed: Set::empty() }).knows(remote, bin),
{
}

/// The agent is used at once exactly where it is known to be at the path of this build; otherwise
/// that path is looked at. An agent that was found is used and known; one that was not is
/// installed at that path, in the directory that holds it, and nothing becomes known. Once it is
/// installed, it is used and known.
pub proof fn law_agent_is_found_or_installed(
    m: DeployerModel,
    remote: RemoteModel,
    build_path: Seq<char>,
)
    ensures
        ({
            let bin = agent_bin_of(build_path, m.hash);
            &&& m.knows(remote, bin) ==> m.first_step(remote, build_path) == (
            DeploymentModel::Ready { bin })
            &&& !m.knows(remote, bin) ==> m.first_step(remote, build_path) == (
            DeploymentModel::Probe { bin })
            &&& m.second_step(build_path, true) == (DeploymentModel::Ready { bin })
            &&& m.after_look(remote, build_path, true).knows(remote, bin)
            &&& m.after_look(remote, build_path, true).first_step(remote, build_path) == (
            DeploymentModel::Ready { bin })
            &&& m.after_look(remote, build_path, false) == m
            &&& m.second_step(build_path, false) matches DeploymentModel::Install {
                dir,
                bin: b,
            } && b == bin && b == dir + "/agent-"@ + m.hash
        }),
{
}

/// The agent stands in the directory `.rustle` of the temp dir, under `agent-` and its hash.
pub proof fn law_agent_path(build_path: Seq<char>, hash: Seq<char>)
    ensures
        agent_bin_of(build_path, hash) == temp_dir(build_path) + "/.rustle/agent-"@ + hash,
        agent_dir_of(build_path) == temp_dir(build_path) + "/.rustle"@,
{
    reveal_strlit("/.rustle");
    reveal_strlit("/agent-");
    reveal_strlit("/.rustle/agent-");
    assert("/.rustle/agent-"@ =~= "/.rustle"@ + "/agent-"@);
    assert(agent_bin_of(build_path, hash) =~= temp_dir(build_path) + "/.rustle/agent-"@ + hash);
}

/// The deploy key is the host, the port's decimal numeral, the user and the hash, with bars
/// between; what is remembered goes on with a bar and the path.
pub proof fn law_deploy_key_text(remote: RemoteModel, hash: Seq<char>, bin: Seq<char>)
    ensures
        key_of(remote, hash) == remote.host + ("|"@ + decimal(remote.port as nat)) + ("|"@ + (
        match remote.user {
            Some(user) => user,
            None => Seq::empty(),
        })) + ("|"@ + hash),
        place_of(remote, hash, bin) == key_of(remote, hash) + ("|"@ + bin),
{
    reveal_strlit("|");
    assert("|"@ =~= seq!['|']);
    assert(key_of(remote, hash) =~= remote.host + ("|"@ + decimal(remote.port as nat)) + ("|"@
        + user_text(remote.user)) + ("|"@ + hash));
    assert(place_of(remote, hash, bin) =~= key_of(remote, hash) + ("|"@ + bin));
}

/// A staging path starts with the path that it stands in for and is longer, and no two processes
/// share one.
pub proof fn law_staging_paths(bin: Seq<char>, pid: u32, other: u32)
    ensures
        staging_of(bin, pid).len() > bin.len(),
        staging_of(bin, pid).take(bin.len() as int) == bin,
        staging_of(bin, pid).skip(bin.len() as int) == ".tmp."@ + decimal(pid as nat),
        pid != other ==> staging_of(bin, pid) != staging_of(bin, other),
{
    lemma_decimal_len(pid as nat);
    assert(staging_of(bin, pid).take(bin.len() as int) =~= bin);
    assert(staging_of(bin, pid).skip(bin.len() as int) =~= ".tmp."@ + decimal(pid as nat));
    if pid != other {
        law_staging_paths_are_distinct(bin, pid, other);
    }
}

// --- lemmas --------------------------------------------------------------------------------

proof fn lemma_suffix(front: Seq<char>, a: Seq<char>, b: Seq<char>)
    requires
        a != b,
    ensures
        front + a != front + b,
{
    if front + a == front + b {
        assert((front + a).skip(front.len() as int) =~= a);
        assert((front + b).skip(front.len() as int) =~= b);
    }
}

proof fn lemma_prefix(a: Seq<char>, b: Seq<char>, tail: Seq<char>)
    requires
        a != b,
    ensures
        a + tail != b + tail,
{
    if a + tail == b + tail {
        assert((a + tail).len() == (b + tail).len());
        assert((a + tail).take(a.len() as int) =~= a);
        assert((b + tail).take(b.len() as int) =~= b);
    }
}

proof fn lemma_split_at_bar(a: Seq<char>, x: Seq<char>, b: Seq<char>, y: Seq<char>)
    requires
        !a.contains('|'),
        !b.contains('|'),
        a + seq!['|'] + x == b + seq!['|'] + y,
    ensures
        a == b,
        x == y,
{
    let s = a + seq!['|'] + x;
    let t = b + seq!['|'] + y;
    assert(s[a.len() as int] == '|');
    assert(t[b.len() as int] == '|');
    if a.len() < b.len() {
        assert(b[a.len() as int] == t[a.len() as int]);
        assert(b.contains('|'));
    }
    if b.len() < a.len() {
        assert(a[b.len() as int] == s[b.len() as int]);
        assert(a.contains('|'));
    }
    assert(a =~= s.take(a.len() as int));
    assert(b =~= t.take(b.len() as int));
    assert(x =~= s.skip(a.len() as int + 1));
    assert(y =~= t.skip(b.len() as int + 1));
}

proof fn lemma_decimal_has_no_bar(n: nat)
    ensures
        !decimal(n).contains('|'),
    decreases n,
{
    assert forall|i: int| 0 <= i < decimal(n).len() implies decimal(n)[i] != '|' by {
        if n >= 10 {
            lemma_decimal_has_no_bar(n / 10);
            if i < decimal(n).len() - 1 {
                assert(decimal(n / 10)[i] == decimal(n)[i]);
                assert(decimal(n / 10).contains(decimal(n / 10)[i]));
            }
        }
    }
}

proof fn lemma_decimal_injective(n: nat, m: nat)
    requires
        decimal(n) == decimal(m),
    ensures
        n == m,
    decreases n,
{
    lemma_decimal_len(n);
    lemma_decimal_len(m);
    assert(decimal(n).last() == digit(n % 10));
    assert(decimal(m).last() == digit(m % 10));
    assert(n % 10 == m % 10);
    if n >= 10 && m >= 10 {
        assert(decimal(n).drop_last() =~= decimal(n / 10));
        assert(decimal(m).drop_last() =~= decimal(m / 10));
        lemma_decimal_injective(n / 10, m / 10);
    }
}

proof fn lemma_decimal_len(n: nat)
    ensures
        decimal(n).len() >= 1,
        decimal(n).len() == 1 <==> n < 10,
    decreases n,
{
    if n >= 10 {
        lemma_decimal_len(n / 10);
    }
}

proof fn lemma_hex_is_hex(n: nat, width: nat)
    ensures
        hex(n, width).len() == width,
        forall|i: int| 0 <= i < width ==> is_hex_digit(#[trigger] hex(n, width)[i]),
    decreases width,
{
    if width > 0 {
        lemma_hex_is_hex(n / 16, (width - 1) as nat);
        assert forall|i: int| 0 <= i < width implies is_hex_digit(#[trigger] hex(n, width)[i]) by {
            if i < width - 1 {
                assert(hex(n, width)[i] == hex(n / 16, (width - 1) as nat)[i]);
            } else {
                assert(hex(n, width)[i] == hex_digit(n % 16));
            }
        }
    }
}

spec fn pow16(width: nat) -> nat
    decreases width,
{
    if width == 0 {
        1
    } else {
        16 * pow16((width - 1) as nat)
    }
}

proof fn lemma_pow16()
    ensures
        pow16(16) == 0x1_0000_0000_0000_0000,
{
    reveal_with_fuel(pow16, 17);
}

proof fn lemma_hex_low(n: nat, m: nat, width: nat)
    requires
        hex(n, width) == hex(m, width),
        n < pow16(width),
        m < pow16(width),
    ensures
        n == m,
    decreases width,
{
    if width > 0 {
        let w = (width - 1) as nat;
        assert(hex(n, width).last() == hex_digit(n % 16));
        assert(hex(m, width).last() == hex_digit(m % 16));
        assert(n % 16 == m % 16);
        assert(hex(n, width).drop_last() =~= hex(n / 16, w));
        assert(hex(m, width).drop_last() =~= hex(m / 16, w));
        lemma_hex_low(n / 16, m / 16, w);
    }
}

} // verus!
