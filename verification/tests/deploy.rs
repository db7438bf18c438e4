use rustle::deploy::{
    agent_bin, agent_dir, agent_hash, deploy_key, hash_name, staging_path, Deployer, Deployment,
    Remote,
};

const BINARY: &[u8] = b"\x7fELF agent";

fn remote(host: &str, port: u16, user: Option<&str>) -> Remote {
    Remote { host: host.to_string(), port, user: user.map(|u| u.to_string()) }
}

#[test]
fn agent_hash_is_stable_and_hex() {
    let deployer = Deployer::new(BINARY);
    let h = deployer.agent_hash();
    assert_eq!(h.len(), 16);
    assert!(h.bytes().all(|b| b.is_ascii_hexdigit()));
    assert_eq!(h, deployer.agent_hash());
    assert_eq!(h, agent_hash(BINARY));
}

#[test]
fn another_binary_has_another_hash() {
    assert_ne!(agent_hash(BINARY), agent_hash(b"another agent"));
}

#[test]
fn hash_names_are_padded_lower_case() {
    assert_eq!(hash_name(0), "0000000000000000");
    assert_eq!(hash_name(0xdead_beef), "00000000deadbeef");
    assert_eq!(hash_name(u64::MAX), "ffffffffffffffff");
}

#[test]
fn deploy_keys() {
    assert_eq!(deploy_key(&remote("box", 22, Some("echo")), "00ff"), "box|22|echo|00ff");
    assert_eq!(deploy_key(&remote("box", 6922, None), "00ff"), "box|6922||00ff");
    assert_ne!(
        deploy_key(&remote("box", 22, None), "00ff"),
        deploy_key(&remote("box", 22, None), "00fe")
    );
}

#[test]
fn agent_lives_in_the_sandbox() {
    assert_eq!(agent_dir("~/remote-builds/12345/"), "~/remote-builds/.rustle");
    assert_eq!(agent_bin("~/remote-builds/12345/", "00ff"), "~/remote-builds/.rustle/agent-00ff");
    assert_eq!(agent_bin("~/remote-builds/9", "00ff"), "~/remote-builds/.rustle/agent-00ff");
    assert_eq!(staging_path("b/agent-00ff", 4321), "b/agent-00ff.tmp.4321");
}

#[test]
fn agent_that_is_there_is_remembered() {
    let mut deployer = Deployer::new(BINARY);
    let remote_a = remote("a", 22, None);
    let remote_b = remote("b", 22, None);
    let bin = format!("/tmp/.rustle/agent-{}", deployer.agent_hash());
    assert_eq!(
        deployer.ensure_agent(&remote_a, "/tmp/1/"),
        Deployment::Probe { bin: bin.clone() }
    );
    assert_eq!(
        deployer.probed(&remote_a, "/tmp/1/", true),
        Deployment::Ready { bin: bin.clone() }
    );
    assert_eq!(
        deployer.ensure_agent(&remote_a, "/tmp/1/"),
        Deployment::Ready { bin: bin.clone() }
    );
    assert_eq!(
        deployer.ensure_agent(&remote_b, "/tmp/1/"),
        Deployment::Probe { bin: bin.clone() }
    );
}

#[test]
fn absent_agent_is_installed_and_then_remembered() {
    let mut deployer = Deployer::new(BINARY);
    let r = remote("a", 22, Some("u"));
    let bin = format!("/tmp/.rustle/agent-{}", deployer.agent_hash());
    assert_eq!(
        deployer.probed(&r, "/tmp/1/", false),
        Deployment::Install { dir: "/tmp/.rustle".to_string(), bin: bin.clone() }
    );
    // An installation that failed leaves no trace.
    assert_eq!(deployer.ensure_agent(&r, "/tmp/1/"), Deployment::Probe { bin: bin.clone() });
    assert_eq!(deployer.installed(&r, "/tmp/1/"), Deployment::Ready { bin: bin.clone() });
    assert_eq!(deployer.ensure_agent(&r, "/tmp/1/"), Deployment::Ready { bin });
}

#[test]
fn each_temp_dir_is_deployed_to_by_itself() {
    let mut deployer = Deployer::new(BINARY);
    let r = remote("a", 22, Some("u"));
    let first = format!("/one/.rustle/agent-{}", deployer.agent_hash());
    let second = format!("/two/.rustle/agent-{}", deployer.agent_hash());
    assert_eq!(deployer.installed(&r, "/one/1/"), Deployment::Ready { bin: first.clone() });
    assert_eq!(deployer.ensure_agent(&r, "/one/2/"), Deployment::Ready { bin: first.clone() });
    assert_eq!(deployer.ensure_agent(&r, "/two/1/"), Deployment::Probe { bin: second.clone() });
    assert_eq!(
        deployer.probed(&r, "/two/1/", false),
        Deployment::Install { dir: "/two/.rustle".to_string(), bin: second.clone() }
    );
    deployer.installed(&r, "/two/1/");
    assert_eq!(deployer.ensure_agent(&r, "/two/1/"), Deployment::Ready { bin: second });
    assert_eq!(deployer.ensure_agent(&r, "/one/1/"), Deployment::Ready { bin: first });
}
