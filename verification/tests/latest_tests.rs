use std::cmp::Ordering;

use toolpulse::json::{as_str, get_element, get_member, parse_usize, step, JsonValue};
use toolpulse::latest::{
    compare_versions, extract_bespoke_json, extract_json, extract_rust_version, latest_from_json,
    latest_from_text, latest_request, version_order, LatestCache, VersionOrder, CACHE_TTL_MS,
};
use toolpulse::registry::find;

fn s(t: &str) -> JsonValue {
    JsonValue::Str(t.to_string())
}

fn obj(members: Vec<(&str, JsonValue)>) -> JsonValue {
    JsonValue::Object(members.into_iter().map(|(k, v)| (k.to_string(), v)).collect())
}

fn pointer(keys: &[&str]) -> Vec<String> {
    keys.iter().map(|k| k.to_string()).collect()
}

fn node_index() -> JsonValue {
    JsonValue::Array(vec![
        obj(vec![("version", s("v22.3.0")), ("lts", JsonValue::Bool(false))]),
        obj(vec![("version", s("v20.15.0"))]),
    ])
}

#[test]
fn cache_serves_fresh_values() {
    let mut c = LatestCache::new();
    assert_eq!(c.get("node", 0), None);
    c.put("node", "22.3.0".to_string(), 1_000);
    assert_eq!(c.get("node", 1_000), Some("22.3.0".to_string()));
    assert_eq!(c.get("node", 1_000 + CACHE_TTL_MS - 1), Some("22.3.0".to_string()));
    assert_eq!(c.get("go", 1_000), None);
}

#[test]
fn cache_expires_after_an_hour() {
    let mut c = LatestCache::new();
    c.put("node", "22.3.0".to_string(), 1_000);
    assert_eq!(c.get("node", 1_000 + CACHE_TTL_MS), None);
    assert_eq!(CACHE_TTL_MS, 3_600_000);
}

#[test]
fn cache_put_replaces_and_keeps_others() {
    let mut c = LatestCache::new();
    c.put("node", "20.0.0".to_string(), 0);
    c.put("go", "1.22.0".to_string(), 0);
    c.put("node", "22.0.0".to_string(), 10);
    assert_eq!(c.get("node", 10), Some("22.0.0".to_string()));
    assert_eq!(c.get("go", 10), Some("1.22.0".to_string()));
}

#[test]
fn cache_clock_going_back_counts_as_fresh() {
    let mut c = LatestCache::new();
    c.put("node", "22.0.0".to_string(), 5_000);
    assert_eq!(c.get("node", 10), Some("22.0.0".to_string()));
}

#[test]
fn rust_channel_version() {
    let body = "manifest-version = \"2\"\n[pkg.rust]\n  rust_version = \"1.88.0\"\nrust_version = \"2.0\"\n";
    assert_eq!(extract_rust_version(body), Some("1.88.0".to_string()));
    assert_eq!(latest_from_text(body), Some("1.88.0".to_string()));
    assert_eq!(extract_rust_version("rust_version = 1.0\n"), None);
    assert_eq!(extract_rust_version("version = \"1.0\""), None);
}

#[test]
fn json_pointer_walks_objects_and_arrays() {
    let v = node_index();
    assert_eq!(extract_json(&v, &pointer(&["0", "version"])), Some("22.3.0".to_string()));
    assert_eq!(extract_json(&v, &pointer(&["1", "version"])), Some("20.15.0".to_string()));
    assert_eq!(extract_json(&v, &pointer(&["2", "version"])), None);
    assert_eq!(extract_json(&v, &pointer(&["0", "lts"])), None);
    assert_eq!(extract_json(&v, &pointer(&[])), None);
}

#[test]
fn json_lookups() {
    let v = obj(vec![("a", s("x")), ("a", s("y")), ("list", JsonValue::Array(vec![JsonValue::Null, s("z")]))]);
    assert_eq!(as_str(get_member(&v, "a").unwrap()), Some("x"));
    assert!(get_member(&v, "b").is_none());
    let list = get_member(&v, "list").unwrap();
    assert_eq!(as_str(get_element(list, 1).unwrap()), Some("z"));
    assert!(get_element(list, 2).is_none());
    assert_eq!(as_str(step(list, "1").unwrap()), Some("z"));
    assert!(step(list, "x").is_none());
    assert_eq!(parse_usize("+12"), Some(12));
    assert_eq!(parse_usize("-1"), None);
    assert_eq!(parse_usize(""), None);
}

#[test]
fn zig_index_newest_release() {
    let v = obj(vec![
        ("0.14.1", JsonValue::Null),
        ("0.15.1", JsonValue::Null),
        ("0.9.0", JsonValue::Null),
        ("master", JsonValue::Null),
    ]);
    assert_eq!(extract_bespoke_json("zig", &v), Some("0.15.1".to_string()));
    assert_eq!(extract_bespoke_json("node", &v), None);
    assert_eq!(extract_bespoke_json("zig", &obj(vec![("master", JsonValue::Null)])), None);
    assert_eq!(extract_bespoke_json("zig", &s("0.1")), None);
}

#[test]
fn zig_ties_take_the_last_key() {
    let v = obj(vec![("1.0", JsonValue::Null), ("1.0.0", JsonValue::Null)]);
    assert_eq!(extract_bespoke_json("zig", &v), Some("1.0.0".to_string()));
}

#[test]
fn version_comparisons() {
    assert_eq!(compare_versions("0.15.1", "0.9.0"), Ordering::Greater);
    assert_eq!(compare_versions("1.0", "1.0.0"), Ordering::Equal);
    assert_eq!(compare_versions("1.2", "1.10"), Ordering::Less);
    assert_eq!(compare_versions("1.x.5", "1.5"), Ordering::Equal);
    assert_eq!(version_order("2.0", "1.9.9"), VersionOrder::Greater);
    assert_eq!(version_order("a", "b"), VersionOrder::Equal);
}

#[test]
fn version_comparison_is_antisymmetric() {
    let pairs = [("1.2", "1.10"), ("0.15.1", "0.9.0"), ("1.0", "1.0.0")];
    for (a, b) in pairs {
        assert_eq!(compare_versions(a, b), compare_versions(b, a).reverse());
    }
}

#[test]
fn latest_requests() {
    let node = find("node").unwrap();
    let q = latest_request(&node).unwrap();
    assert_eq!(q.url, "https://nodejs.org/dist/index.json");
    assert!(!q.as_text);
    let rust = find("rust").unwrap();
    assert!(latest_request(&rust).unwrap().as_text);
    let bun = find("bun").unwrap();
    let q = latest_request(&bun).unwrap();
    assert_eq!(q.url, "https://api.github.com/repos/oven-sh/bun/releases/latest");
    assert!(!q.as_text);
    assert!(latest_request(&find("python").unwrap()).is_none());
}

#[test]
fn latest_from_json_answers() {
    let node = find("node").unwrap();
    assert_eq!(latest_from_json(&node, &node_index()), Some("22.3.0".to_string()));
    let bun = find("bun").unwrap();
    assert_eq!(latest_from_json(&bun, &obj(vec![("tag_name", s("bun-v1.1.20"))])), Some("1.1.20".to_string()));
    let docker = find("docker").unwrap();
    assert_eq!(latest_from_json(&docker, &obj(vec![("tag_name", s("v27.0.3"))])), Some("27.0.3".to_string()));
    assert_eq!(latest_from_json(&docker, &obj(vec![("name", s("v27.0.3"))])), None);
    let zig = find("zig").unwrap();
    let index = obj(vec![("0.13.0", JsonValue::Null), ("master", JsonValue::Null)]);
    assert_eq!(latest_from_json(&zig, &index), Some("0.13.0".to_string()));
    assert_eq!(latest_from_json(&find("python").unwrap(), &index), None);
}

#[test]
fn version_comparison_is_transitive() {
    let vs = ["0.9.0", "0.10", "0.10.0", "1.x", "1", "0.15.1", "2.0.0.1"];
    for a in vs {
        for b in vs {
            for c in vs {
                if compare_versions(a, b) != Ordering::Greater && compare_versions(b, c) != Ordering::Greater {
                    assert_ne!(compare_versions(a, c), Ordering::Greater);
                }
            }
        }
    }
}
