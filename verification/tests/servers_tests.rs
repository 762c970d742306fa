use openfusion_launcher::servers::{FlatServer, FlatServers, NewServerDetails, Server, ServerError, ServerInfo, Servers};

fn simple(uuid: u128, ip: &str, version: &str) -> Server {
    Server {
        uuid,
        description: Some(format!("server {}", uuid)),
        info: ServerInfo::Simple { ip: ip.to_string(), version: version.to_string() },
    }
}

fn endpoint(uuid: u128, host: &str) -> Server {
    Server {
        uuid,
        description: None,
        info: ServerInfo::Endpoint { endpoint: host.to_string(), preferred_version: Some("v".to_string()) },
    }
}

fn uuids(s: &Servers) -> Vec<u128> {
    s.servers.iter().map(|s| s.uuid).collect()
}

#[test]
fn flat_form_round_trips() {
    let servers = Servers { servers: vec![simple(1, "1.2.3.4:23000", "beta"), endpoint(2, "api.example")], favorites: vec![2] };
    let flat = servers.clone_for_test().to_flat();
    assert_eq!(flat.servers[0].ip.as_deref(), Some("1.2.3.4:23000"));
    assert_eq!(flat.servers[0].endpoint, None);
    assert_eq!(flat.servers[1].ip, None);
    assert_eq!(flat.servers[1].version.as_deref(), Some("v"));
    assert_eq!(flat.servers[1].endpoint.as_deref(), Some("api.example"));
    let back = Servers::from_flat(flat);
    assert_eq!(uuids(&back), vec![1, 2]);
    assert_eq!(back.favorites, vec![2]);
    match &back.servers[0].info {
        ServerInfo::Simple { ip, version } => assert_eq!((ip.as_str(), version.as_str()), ("1.2.3.4:23000", "beta")),
        _ => panic!("expected a plain server"),
    }
    assert_eq!(back.servers[0].get_description().as_deref(), Some("server 1"));
}

trait CloneForTest {
    fn clone_for_test(&self) -> Self;
}

impl CloneForTest for Servers {
    fn clone_for_test(&self) -> Self {
        Servers { servers: self.servers.iter().map(|s| s.clone()).collect(), favorites: self.favorites.clone() }
    }
}

#[test]
fn flat_server_with_endpoint_reads_as_endpoint() {
    let flat = FlatServer { uuid: 9, description: None, ip: Some("x".into()), version: None, endpoint: Some("e".into()) };
    assert!(flat.is_readable());
    let s = Server::from_flat(flat);
    assert!(matches!(s.info, ServerInfo::Endpoint { ref endpoint, preferred_version: None } if endpoint == "e"));
    let unreadable = FlatServer { uuid: 9, description: None, ip: Some("x".into()), version: None, endpoint: None };
    assert!(!unreadable.is_readable());
    let _ = FlatServers { servers: vec![], favorites: vec![] };
}

#[test]
fn merge_adds_only_new_uuids() {
    let mut mine = Servers { servers: vec![simple(1, "a", "v"), simple(2, "b", "v")], favorites: vec![] };
    let other = Servers { servers: vec![simple(2, "z", "v"), simple(3, "c", "v"), simple(3, "d", "v")], favorites: vec![7] };
    assert_eq!(mine.merge(&other), 1);
    assert_eq!(uuids(&mine), vec![1, 2, 3]);
    match &mine.servers[2].info {
        ServerInfo::Simple { ip, .. } => assert_eq!(ip, "c"),
        _ => panic!(),
    }
    assert_eq!(mine.merge(&other), 0);
    assert!(mine.favorites.is_empty());
}

#[test]
fn get_remove_update_entries() {
    let mut s = Servers { servers: vec![simple(1, "a", "v"), simple(2, "b", "v"), simple(1, "c", "v")], favorites: vec![] };
    assert!(matches!(&s.get_entry(1).unwrap().info, ServerInfo::Simple { ip, .. } if ip == "a"));
    assert!(s.get_entry(5).is_none());
    assert_eq!(s.update_entry(simple(1, "new", "w")), Ok(()));
    assert!(matches!(&s.get_entry(1).unwrap().info, ServerInfo::Simple { ip, .. } if ip == "new"));
    assert!(matches!(&s.servers[2].info, ServerInfo::Simple { ip, .. } if ip == "c"));
    assert_eq!(s.update_entry(simple(8, "x", "v")), Err(ServerError::NotFound(8)));
    s.remove_entry(1);
    assert_eq!(uuids(&s), vec![2]);
    assert!(s.get_entry(1).is_none());
}

#[test]
fn add_entry_uses_fresh_uuid() {
    let mut s = Servers::new_empty();
    let id = s.add_entry(NewServerDetails {
        description: "mine".into(),
        ip: Some("127.0.0.1".into()),
        version: Some("beta".into()),
        endpoint: None,
    });
    let id2 = s.add_entry(NewServerDetails { description: "api".into(), ip: None, version: None, endpoint: Some("host".into()) });
    assert_ne!(id, 0);
    assert_ne!(id, id2);
    assert_eq!(s.get_entry(id).unwrap().description.as_deref(), Some("mine"));
    assert!(matches!(&s.get_entry(id2).unwrap().info, ServerInfo::Endpoint { endpoint, preferred_version: None } if endpoint == "host"));
}
