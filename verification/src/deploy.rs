//! Getting the bundled agent onto a remote: where it goes, what it is called, and when it has to
//! be uploaded at all.

use std::collections::hash_map::DefaultHasher;
use std::hash::{BuildHasher, BuildHasherDefault};

use vstd::hash_set::StringHashSet;
use vstd::prelude::*;
use vstd::string::StringExecFns;

use crate::paths::{temp_dir, temp_dir_of};
use crate::text::{decimal, hex, push_decimal, push_hex};

verus! {

/// Hashes `bytes` with the standard library's `DefaultHasher`, through `BuildHasher::hash_one`.
/// Nothing is claimed of the result: the algorithm is left open between releases, and the length
/// that is hashed along with the bytes has the machine's word size and byte order.
#[verifier::external_body]
fn default_hash(bytes: &[u8]) -> (h: u64) {
    BuildHasherDefault::<DefaultHasher>::default().hash_one(bytes)
}

/// `name` is a 64-bit hash, written as 16 lower-case hexadecimal digits.
pub open spec fn is_hash_name(name: Seq<char>) -> bool {
    exists|h: u64| name == #[trigger] hex(h as nat, 16)
}

/// The hash `h` as 16 lower-case hexadecimal digits.
pub fn hash_name(h: u64) -> (name: String)
    ensures
        name@ == hex(h as nat, 16),
{
    let mut name = String::new();
    push_hex(&mut name, h, 16);
    assert(name@ =~= hex(h as nat, 16));
    name
}

/// Content hash of an agent binary: the cache key and binary-name suffix, so that a new agent is
/// deployed under a new name. Which hash a binary has depends on the machine and on the standard
/// library's release, and is left open here.
pub fn agent_hash(binary: &[u8]) -> (name: String)
    ensures
        is_hash_name(name@),
{
    let h = default_hash(binary);
    hash_name(h)
}

/// A build host, as far as deployment tells hosts apart.
#[derive(Debug)]
pub struct Remote {
    pub host: String,
    pub port: u16,
    pub user: Option<String>,
}

/// What a [`Remote`] says.
pub struct RemoteModel {
    pub host: Seq<char>,
    pub port: u16,
    pub user: Option<Seq<char>>,
}

impl DeepView for Remote {
    type V = RemoteModel;

    open spec fn deep_view(&self) -> RemoteModel {
        RemoteModel { host: self.host@, port: self.port, user: self.user.deep_view() }
    }
}

/// The user part of a deploy key: empty where there is no user.
pub open spec fn user_text(user: Option<Seq<char>>) -> Seq<char> {
    match user {
        Some(name) => name,
        None => Seq::empty(),
    }
}

/// The key of an agent on a remote: `host|port|user|hash`.
pub open spec fn key_of(remote: RemoteModel, hash: Seq<char>) -> Seq<char> {
    remote.host + seq!['|'] + decimal(remote.port as nat) + seq!['|'] + user_text(remote.user)
        + seq!['|'] + hash
}

pub fn deploy_key(remote: &Remote, hash: &str) -> (key: String)
    ensures
        key@ == key_of(remote.deep_view(), hash@),
{
    let mut key = remote.host.clone();
    key.push('|');
    push_decimal(&mut key, remote.port as u64);
    key.push('|');
    if let Some(user) = &remote.user {
        key.append(user.as_str());
    }
    key.push('|');
    key.append(hash);
    assert(key@ =~= key_of(remote.deep_view(), hash@));
    key
}

/// The directory that holds the agents of a temp dir: `<temp_dir>/.rustle`.
pub open spec fn agent_dir_of(build_path: Seq<char>) -> Seq<char> {
    temp_dir(build_path) + "/.rustle"@
}

/// Where the agent of this hash lives: `<temp_dir>/.rustle/agent-<hash>`.
pub open spec fn agent_bin_of(build_path: Seq<char>, hash: Seq<char>) -> Seq<char> {
    agent_dir_of(build_path) + "/agent-"@ + hash
}

pub fn agent_dir(build_path: &str) -> (dir: String)
    ensures
        dir@ == agent_dir_of(build_path@),
{
    let mut dir = temp_dir_of(build_path);
    dir.append("/.rustle");
    dir
}

pub fn agent_bin(build_path: &str, hash: &str) -> (bin: String)
    ensures
        bin@ == agent_bin_of(build_path@, hash@),
{
    let mut bin = agent_dir(build_path);
    bin.append("/agent-");
    bin.append(hash);
    bin
}

/// The per-process path that the agent is written to.
pub open spec fn staging_of(bin: Seq<char>, pid: u32) -> Seq<char> {
    bin + ".tmp."@ + decimal(pid as nat)
}

/// The per-process path that the agent is written to before it is renamed into place, so that
/// two clients that deploy the same agent never expose a half-written file.
pub fn staging_path(bin: &str, pid: u32) -> (path: String)
    ensures
        path@ == bin@ + ".tmp."@ + decimal(pid as nat),
        path@ == staging_of(bin@, pid),
{
    let mut path = bin.to_owned();
    path.append(".tmp.");
    push_decimal(&mut path, pid as u64);
    path
}

/// What it takes to have the agent on the remote.
#[derive(Debug, PartialEq, Eq)]
pub enum Deployment {
    /// It is there, at `bin`.
    Ready { bin: String },
    /// Look whether a previous run left it at `bin`.
    Probe { bin: String },
    /// Create `dir` and put it at `bin`.
    Install { dir: String, bin: String },
}

/// What a [`Deployment`] says.
pub enum DeploymentModel {
    Ready { bin: Seq<char> },
    Probe { bin: Seq<char> },
    Install { dir: Seq<char>, bin: Seq<char> },
}

impl DeepView for Deployment {
    type V = DeploymentModel;

    open spec fn deep_view(&self) -> DeploymentModel {
        match self {
            Deployment::Ready { bin } => DeploymentModel::Ready { bin: bin@ },
            Deployment::Probe { bin } => DeploymentModel::Probe { bin: bin@ },
            Deployment::Install { dir, bin } => DeploymentModel::Install { dir: dir@, bin: bin@ },
        }
    }
}

/// The bundled agent's hash, and where the agent is known to be.
pub struct DeployerModel {
    pub hash: Seq<char>,
    pub deployed: Set<Seq<char>>,
}

/// What is remembered of a deployment: the deploy key, and the path that the agent is at. One
/// remote can have several temp dirs, each with an agent of its own.
pub open spec fn place_of(remote: RemoteModel, hash: Seq<char>, bin: Seq<char>) -> Seq<char> {
    key_of(remote, hash) + seq!['|'] + bin
}

fn deploy_place(remote: &Remote, hash: &str, bin: &str) -> (place: String)
    ensures
        place@ == place_of(remote.deep_view(), hash@, bin@),
{
    let mut place = deploy_key(remote, hash);
    place.push('|');
    place.append(bin);
    assert(place@ =~= place_of(remote.deep_view(), hash@, bin@));
    place
}

impl DeployerModel {
    /// The agent is known to be on `remote`, at `bin`.
    pub open spec fn knows(self, remote: RemoteModel, bin: Seq<char>) -> bool {
        self.deployed.contains(place_of(remote, self.hash, bin))
    }

    /// The state once the agent is known to be on `remote`, at `bin`.
    pub open spec fn with(self, remote: RemoteModel, bin: Seq<char>) -> DeployerModel {
        DeployerModel { deployed: self.deployed.insert(place_of(remote, self.hash, bin)), ..self }
    }

    pub open spec fn bin(self, build_path: Seq<char>) -> Seq<char> {
        agent_bin_of(build_path, self.hash)
    }

    /// What is to be done first.
    pub open spec fn first_step(
        self,
        remote: RemoteModel,
        build_path: Seq<char>,
    ) -> DeploymentModel {
        if self.knows(remote, self.bin(build_path)) {
            DeploymentModel::Ready { bin: self.bin(build_path) }
        } else {
            DeploymentModel::Probe { bin: self.bin(build_path) }
        }
    }

    /// What is to be done after the look at the remote.
    pub open spec fn second_step(self, build_path: Seq<char>, found: bool) -> DeploymentModel {
        if found {
            DeploymentModel::Ready { bin: self.bin(build_path) }
        } else {
            DeploymentModel::Install {
                dir: agent_dir_of(build_path),
                bin: self.bin(build_path),
            }
        }
    }

    /// What is known after the look at the remote.
    pub open spec fn after_look(
        self,
        remote: RemoteModel,
        build_path: Seq<char>,
        found: bool,
    ) -> DeployerModel {
        if found {
            self.with(remote, self.bin(build_path))
        } else {
            self
        }
    }
}

/// Remembers, for the life of the process, where the bundled agent was deployed. The agent's
/// hash is computed once.
pub struct Deployer {
    hash: String,
    deployed: StringHashSet,
}

impl View for Deployer {
    type V = DeployerModel;

    closed spec fn view(&self) -> DeployerModel {
        DeployerModel { hash: self.hash@, deployed: self.deployed@ }
    }
}

impl Deployer {
    /// A deployer of this agent binary that knows of no deployment.
    pub fn new(binary: &[u8]) -> (d: Deployer)
        ensures
            is_hash_name(d@.hash),
            d@.deployed == Set::<Seq<char>>::empty(),
    {
        Deployer { hash: agent_hash(binary), deployed: StringHashSet::new() }
    }

    /// The bundled agent's hash: the same at every call.
    pub fn agent_hash(&self) -> (hash: &str)
        ensures
            hash@ == self@.hash,
    {
        self.hash.as_str()
    }

    /// The first step to have the agent on `remote`: none where it was found or installed before
    /// in this process, at the path that this build uses; otherwise a look at the remote.
    pub fn ensure_agent(&self, remote: &Remote, build_path: &str) -> (step: Deployment)
        ensures
            step.deep_view() == (if self@.knows(remote.deep_view(), self@.bin(build_path@)) {
                DeploymentModel::Ready { bin: self@.bin(build_path@) }
            } else {
                DeploymentModel::Probe { bin: self@.bin(build_path@) }
            }),
            step.deep_view() == self@.first_step(remote.deep_view(), build_path@),
    {
        let bin = agent_bin(build_path, self.hash.as_str());
        let place = deploy_place(remote, self.hash.as_str(), bin.as_str());
        if self.deployed.contains(place.as_str()) {
            Deployment::Ready { bin }
        } else {
            Deployment::Probe { bin }
        }
    }

    /// The step after the look: an agent that is there is remembered and used, one that is not
    /// is installed.
    pub fn probed(&mut self, remote: &Remote, build_path: &str, found: bool) -> (step: Deployment)
        ensures
            final(self)@ == (if found {
                old(self)@.with(remote.deep_view(), old(self)@.bin(build_path@))
            } else {
                old(self)@
            }),
            step.deep_view() == (if found {
                DeploymentModel::Ready { bin: old(self)@.bin(build_path@) }
            } else {
                DeploymentModel::Install {
                    dir: agent_dir_of(build_path@),
                    bin: old(self)@.bin(build_path@),
                }
            }),
            final(self)@ == old(self)@.after_look(remote.deep_view(), build_path@, found),
            step.deep_view() == old(self)@.second_step(build_path@, found),
    {
        if found {
            self.installed(remote, build_path)
        } else {
            Deployment::Install {
                dir: agent_dir(build_path),
                bin: agent_bin(build_path, self.hash.as_str()),
            }
        }
    }

    /// The step after an installation that succeeded: the agent is remembered and used.
    pub fn installed(&mut self, remote: &Remote, build_path: &str) -> (step: Deployment)
        ensures
            final(self)@ == old(self)@.with(remote.deep_view(), old(self)@.bin(build_path@)),
            step.deep_view() == (DeploymentModel::Ready { bin: old(self)@.bin(build_path@) }),
            final(self)@ == old(self)@.after_look(remote.deep_view(), build_path@, true),
            step.deep_view() == old(self)@.second_step(build_path@, true),
    {
        let bin = agent_bin(build_path, self.hash.as_str());
        let place = deploy_place(remote, self.hash.as_str(), bin.as_str());
        self.deployed.insert(place);
        Deployment::Ready { bin }
    }
}

} // verus!
