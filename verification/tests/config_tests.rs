use daisy::config::{DaisyConfig, HostSpec};
use daisy::Role;

fn host(user: &str, addr: &str) -> HostSpec {
    HostSpec { host_address: String::from(addr), username: String::from(user) }
}

fn chain3(position_index: usize) -> DaisyConfig {
    DaisyConfig {
        position_index,
        destination_command: String::from("cat"),
        destination_command_is_persistent: false,
        hosts: vec![
            host("alice", "a.example"),
            host("bob", "b.example"),
            host("carol", "c.example"),
        ],
    }
}

#[test]
fn parse_token_with_explicit_user() {
    let h = HostSpec::parse("alice@a.example").unwrap();
    assert_eq!(h.username, "alice");
    assert_eq!(h.host_address, "a.example");
}

#[test]
fn parse_splits_at_first_at_sign() {
    let h = HostSpec::parse("alice@b@c").unwrap();
    assert_eq!(h.username, "alice");
    assert_eq!(h.host_address, "b@c");
}

#[test]
fn parse_then_to_token_roundtrip() {
    let token = "alice@a.example";
    let h = HostSpec::parse(token).unwrap();
    assert_eq!(h.to_token(), token);
}

#[test]
fn parse_bare_host_takes_local_user() {
    match uzers::get_current_username().and_then(|n| n.into_string().ok()) {
        Some(local) if !local.is_empty() => {
            let h = HostSpec::parse("a.example").unwrap();
            assert_eq!(h.host_address, "a.example");
            assert_eq!(h.username, local);
        }
        _ => {
            // Without a resolvable local user the token must be rejected,
            // never silently defaulted.
            assert_eq!(
                HostSpec::parse("a.example"),
                Err(daisy::config::Error::UnknownUser)
            );
        }
    }
}

#[test]
fn parse_with_user_bare_host() {
    let h = HostSpec::parse_with_user("a.example", "tester");
    assert_eq!(h.host_address, "a.example");
    assert_eq!(h.username, "tester");
}

#[test]
fn parse_with_user_ignores_fallback_when_user_is_explicit() {
    let h = HostSpec::parse_with_user("alice@a.example", "tester");
    assert_eq!(h.username, "alice");
    assert_eq!(h.host_address, "a.example");
}

#[test]
fn parse_with_user_empty_username_part_takes_fallback() {
    let h = HostSpec::parse_with_user("@a.example", "tester");
    assert_eq!(h.host_address, "a.example");
    assert_eq!(h.username, "tester");
}

#[test]
fn to_token_is_explicit() {
    assert_eq!(host("bob", "b.example").to_token(), "bob@b.example");
}

#[test]
fn next_hop_config_increments_only_the_index() {
    let c = chain3(1);
    let n = c.next_hop_config();
    assert_eq!(n.position_index, 2);
    assert_eq!(n.destination_command, c.destination_command);
    assert_eq!(
        n.destination_command_is_persistent,
        c.destination_command_is_persistent
    );
    assert_eq!(n.hosts.len(), c.hosts.len());
    for i in 0..c.hosts.len() {
        assert_eq!(n.hosts[i].username, c.hosts[i].username);
        assert_eq!(n.hosts[i].host_address, c.hosts[i].host_address);
    }
}

#[test]
fn current_role_boundaries() {
    assert_eq!(chain3(2).current_role(), Role::Forwarder);
    assert_eq!(chain3(3).current_role(), Role::Deliverer);
    assert_eq!(chain3(4).current_role(), Role::Deliverer);
    assert_eq!(chain3(0).current_role(), Role::Forwarder);
}

#[test]
fn three_host_chain_has_three_forwarding_hops() {
    let mut c = chain3(0);
    let mut forwards = 0;
    while c.current_role() == Role::Forwarder {
        forwards += 1;
        c = c.next_hop_config();
    }
    assert_eq!(forwards, 3);
    assert_eq!(c.position_index, 3);
    assert_eq!(c.current_role(), Role::Deliverer);
}
