use std::collections::HashMap;
use openfusion_launcher::util::{version_file_name, LegacyVersion};
use openfusion_launcher::versions::{get_version_name, sort_by_name, Version, Versions};

fn v(uuid: u128, name: Option<&str>, url: &str) -> Version {
    Version { uuid, name: name.map(|s| s.to_string()), asset_url: url.to_string() }
}

fn uuids(vs: &[Version]) -> Vec<u128> {
    vs.iter().map(|v| v.uuid).collect()
}

#[test]
fn calculate_merge_skips_known_uuids_and_urls() {
    let a = vec![v(1, Some("a"), "http://a"), v(2, Some("b"), "http://b")];
    let b = vec![v(1, Some("x"), "http://x"), v(3, Some("c"), "http://b"), v(4, Some("d"), "http://d"), v(4, Some("d"), "http://d")];
    let m = Versions::calculate_merge(&a, b);
    assert_eq!(uuids(&m), vec![4, 4]);
}

#[test]
fn versions_entries() {
    let mut vs = Versions { versions: vec![v(1, Some("beta"), "u1"), v(2, None, "u2"), v(3, Some("beta"), "u3")], filenames: HashMap::new() };
    assert_eq!(vs.get_entry(2).unwrap().asset_url, "u2");
    assert_eq!(vs.get_entry_by_name("beta").unwrap().uuid, 1);
    assert!(vs.get_entry_by_name("gamma").is_none());
    vs.remove_entry(1);
    assert_eq!(vs.get_entry_by_name("beta").unwrap().uuid, 3);
    vs.add_entry(v(5, Some("e"), "u5"));
    assert_eq!(uuids(&vs.versions), vec![2, 3, 5]);
    assert!(vs.get_file_names().is_empty());
}

#[test]
fn version_names() {
    assert_eq!(get_version_name(&v(1, Some("beta-20100104"), "u")), "beta-20100104");
    assert_eq!(get_version_name(&v(0x67e55044_10b1_426f_9247_bb680e5fe0c8, None, "u")), "67e55044-10b1-426f-9247-bb680e5fe0c8");
}

#[test]
fn sort_by_name_orders_like_option_str() {
    let vs = vec![v(1, Some("b"), ""), v(2, None, ""), v(3, Some("a"), ""), v(4, Some("ab"), ""), v(5, Some("b"), ""), v(6, Some("B"), "")];
    let sorted = sort_by_name(vs);
    assert_eq!(uuids(&sorted), vec![2, 6, 3, 4, 1, 5]);
}

#[test]
fn assemble_merges_app_data_after_builtins() {
    let builtins = vec![v(1, Some("a"), "ua")];
    let appdata = vec![v(1, Some("dup"), "x"), v(2, Some("b"), "ub")];
    let mut names = HashMap::new();
    names.insert(2u128, "b.json".to_string());
    let vs = Versions::assemble(Some(builtins), Some(appdata), names);
    assert_eq!(uuids(&vs.versions), vec![1, 2]);
    let only = Versions::assemble(None, Some(vec![v(7, None, "u")]), HashMap::new());
    assert_eq!(uuids(&only.versions), vec![7]);
    assert_eq!(version_file_name(2, vs.get_file_names()), "b.json");
    assert_eq!(version_file_name(0x67e55044_10b1_426f_9247_bb680e5fe0c8, vs.get_file_names()), "67e55044-10b1-426f-9247-bb680e5fe0c8.json");
}

#[test]
fn legacy_asset_url_drops_one_trailing_slash() {
    let l = LegacyVersion { name: "n".into(), url: "http://cdn/beta//".into() };
    assert_eq!(l.get_asset_url(), "http://cdn/beta/");
    let m = LegacyVersion { name: "n".into(), url: "http://cdn/beta".into() };
    assert_eq!(m.get_asset_url(), "http://cdn/beta");
}

#[test]
fn removed_version_is_gone_and_added_one_is_found() {
    let mut vs = Versions { versions: vec![v(1, None, "a"), v(2, None, "b"), v(1, None, "c")], filenames: HashMap::new() };
    vs.remove_entry(1);
    assert!(vs.get_entry(1).is_none());
    assert_eq!(uuids(&vs.versions), vec![2]);
    vs.add_entry(v(9, Some("new"), "n"));
    assert_eq!(vs.get_entry(9).unwrap().asset_url, "n");
}

#[test]
fn merging_twice_adds_nothing() {
    let a = vec![v(1, Some("a"), "ua")];
    let b = vec![v(2, Some("b"), "ub"), v(3, Some("c"), "ua")];
    let first = Versions::calculate_merge(&a, b);
    assert_eq!(uuids(&first), vec![2]);
    let mut all = a;
    all.extend(first);
    let again = Versions::calculate_merge(&all, vec![v(2, Some("b"), "ub"), v(3, Some("c"), "ua")]);
    assert!(again.is_empty());
}

#[test]
fn sort_by_name_keeps_order_within_a_name() {
    let vs = vec![v(1, Some("x"), ""), v(2, None, ""), v(3, Some("x"), ""), v(4, None, ""), v(5, Some("a"), "")];
    assert_eq!(uuids(&sort_by_name(vs)), vec![2, 4, 5, 1, 3]);
}
