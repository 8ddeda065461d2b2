use autoreply::bluesky::mst::{
    detect_mst_root, extract_cid_from_cbor, extract_cid_to_rkey_mapping, parse_commit, parse_mst_node,
    parse_tree_entry, walk_mst, TextMap,
};
use autoreply::car::cbor::decode_cbor;
use autoreply::car::error::CarError;
use autoreply::car::reader::format_cid_simple;
use autoreply::car::types::Cid;

// A small CBOR writer for the values these tests need.
enum V {
    Text(String),
    Int(i64),
    Bytes(Vec<u8>),
    Array(Vec<V>),
    Mapping(Vec<(String, V)>),
    Link(Vec<u8>),
    Null,
}

fn head(major: u8, n: u64) -> Vec<u8> {
    let m = major << 5;
    if n < 24 {
        vec![m | n as u8]
    } else if n < 256 {
        vec![m | 24, n as u8]
    } else if n < 65536 {
        vec![m | 25, (n >> 8) as u8, n as u8]
    } else {
        vec![m | 26, (n >> 24) as u8, (n >> 16) as u8, (n >> 8) as u8, n as u8]
    }
}

fn enc(v: &V) -> Vec<u8> {
    match v {
        V::Text(s) => {
            let mut out = head(3, s.len() as u64);
            out.extend_from_slice(s.as_bytes());
            out
        }
        V::Int(i) => {
            if *i >= 0 {
                head(0, *i as u64)
            } else {
                head(1, (-1 - *i) as u64)
            }
        }
        V::Bytes(b) => {
            let mut out = head(2, b.len() as u64);
            out.extend_from_slice(b);
            out
        }
        V::Array(items) => {
            let mut out = head(4, items.len() as u64);
            for item in items {
                out.extend(enc(item));
            }
            out
        }
        V::Mapping(pairs) => {
            let mut out = head(5, pairs.len() as u64);
            for (k, v) in pairs {
                out.extend(enc(&V::Text(k.clone())));
                out.extend(enc(v));
            }
            out
        }
        V::Link(cid) => {
            let mut inner = vec![0u8];
            inner.extend_from_slice(cid);
            let mut out = vec![0xD8, 42];
            out.extend(enc(&V::Bytes(inner)));
            out
        }
        V::Null => vec![0xF6],
    }
}

fn text(s: &str) -> V {
    V::Text(s.to_string())
}

fn map(pairs: Vec<(&str, V)>) -> V {
    V::Mapping(pairs.into_iter().map(|(k, v)| (k.to_string(), v)).collect())
}

fn text_link(cid: &str) -> V {
    map(vec![("$link", text(cid))])
}

fn entry(p: i64, k: &[u8], v: V, t: V) -> V {
    map(vec![("p", V::Int(p)), ("k", V::Bytes(k.to_vec())), ("v", v), ("t", t)])
}

// Raw CID bytes: version 1, dag-cbor, sha2-256, a 32-byte digest of `fill`.
fn cid_bytes(fill: u8) -> Vec<u8> {
    let mut out = vec![1, 0x71, 0x12, 32];
    out.extend(std::iter::repeat(fill).take(32));
    out
}

fn cid_name(fill: u8) -> String {
    format!("v1-c71-d12-{}", format!("{:02x}", fill).repeat(32))
}

fn push_varint(out: &mut Vec<u8>, mut n: usize) {
    loop {
        let b = (n & 0x7F) as u8;
        n >>= 7;
        if n == 0 {
            out.push(b);
            break;
        }
        out.push(b | 0x80);
    }
}

// An archive whose header names `root` and that holds `blocks` in order.
fn car(root: u8, blocks: Vec<(u8, V)>) -> Vec<u8> {
    let header = enc(&map(vec![("version", V::Int(1)), ("roots", V::Array(vec![V::Link(cid_bytes(root))]))]));
    let mut out = Vec::new();
    push_varint(&mut out, header.len());
    out.extend(header);
    for (fill, value) in blocks {
        let cid = cid_bytes(fill);
        let data = enc(&value);
        push_varint(&mut out, cid.len() + data.len());
        out.extend(cid);
        out.extend(data);
    }
    out
}

fn blocks_of(pairs: Vec<(&str, Vec<u8>)>) -> TextMap<Vec<u8>> {
    let mut m = TextMap::new();
    for (k, v) in pairs {
        m.insert(k.to_string(), v);
    }
    m
}

#[test]
fn test_extract_cid_from_cbor_valid() {
    let bytes = enc(&text_link("bafyreicid123"));
    let decoded = decode_cbor(&bytes).unwrap();
    let result = extract_cid_from_cbor(&decoded).unwrap();
    assert_eq!(result, "bafyreicid123");
}

#[test]
fn test_extract_cid_from_cbor_invalid() {
    let bytes = enc(&text("not a map"));
    let decoded = decode_cbor(&bytes).unwrap();
    assert!(extract_cid_from_cbor(&decoded).is_err());

    let bytes = enc(&map(vec![("wrong_key", text("value"))]));
    let decoded = decode_cbor(&bytes).unwrap();
    assert!(extract_cid_from_cbor(&decoded).is_err());

    let bytes = enc(&map(vec![("$link", V::Int(123))]));
    let decoded = decode_cbor(&bytes).unwrap();
    assert!(extract_cid_from_cbor(&decoded).is_err());
}

#[test]
fn extract_cid_from_cbor_reads_tag_links() {
    let bytes = enc(&V::Link(cid_bytes(0xAB)));
    let decoded = decode_cbor(&bytes).unwrap();
    assert_eq!(extract_cid_from_cbor(&decoded).unwrap(), cid_name(0xAB));
}

#[test]
fn test_parse_tree_entry_valid() {
    let bytes = enc(&entry(0, b"app.bsky.feed.post/abc123", text_link("bafyreicidvalue"), V::Null));
    let decoded = decode_cbor(&bytes).unwrap();
    let result = parse_tree_entry(&decoded).unwrap();
    assert_eq!(result.p, 0);
    assert_eq!(result.k, b"app.bsky.feed.post/abc123");
    assert_eq!(result.v, "bafyreicidvalue");
    assert_eq!(result.t, None);
}

#[test]
fn test_parse_tree_entry_with_subtree() {
    let bytes = enc(&entry(5, b"rkey", text_link("value_cid"), text_link("subtree_cid")));
    let decoded = decode_cbor(&bytes).unwrap();
    let result = parse_tree_entry(&decoded).unwrap();
    assert_eq!(result.p, 5);
    assert_eq!(result.t, Some("subtree_cid".to_string()));
}

#[test]
fn test_parse_tree_entry_invalid_structure() {
    let bytes = enc(&text("not a map"));
    let decoded = decode_cbor(&bytes).unwrap();
    assert!(parse_tree_entry(&decoded).is_err());

    let bytes = enc(&map(vec![]));
    let decoded = decode_cbor(&bytes).unwrap();
    assert!(parse_tree_entry(&decoded).is_ok());
}

#[test]
fn parse_tree_entry_reports_a_bad_value_link() {
    let bytes = enc(&map(vec![("v", text("not a link"))]));
    let decoded = decode_cbor(&bytes).unwrap();
    assert!(matches!(parse_tree_entry(&decoded), Err(CarError::InvalidHeader(_))));
}

#[test]
fn test_parse_mst_node_valid() {
    let node = enc(&map(vec![
        ("l", V::Null),
        ("e", V::Array(vec![entry(0, b"test", text_link("cid"), V::Null)])),
    ]));
    let cid_map = blocks_of(vec![("test_cid", node)]);
    let result = parse_mst_node(&cid_map, "test_cid").unwrap();
    assert_eq!(result.l, None);
    assert_eq!(result.e.len(), 1);
}

#[test]
fn test_parse_mst_node_with_left_subtree() {
    let node = enc(&map(vec![("l", text_link("left_cid")), ("e", V::Array(vec![]))]));
    let cid_map = blocks_of(vec![("node_cid", node)]);
    let result = parse_mst_node(&cid_map, "node_cid").unwrap();
    assert_eq!(result.l, Some("left_cid".to_string()));
    assert_eq!(result.e.len(), 0);
}

#[test]
fn test_parse_mst_node_not_found() {
    let cid_map: TextMap<Vec<u8>> = TextMap::new();
    let result = parse_mst_node(&cid_map, "missing_cid");
    assert!(matches!(result, Err(CarError::InvalidHeader(_))));
}

#[test]
fn test_parse_mst_node_invalid_cbor() {
    let cid_map = blocks_of(vec![("bad_cid", vec![0xFF, 0xFF, 0xFF])]);
    let result = parse_mst_node(&cid_map, "bad_cid");
    assert!(matches!(result, Err(CarError::InvalidHeader(_))));
}

#[test]
fn parse_mst_node_rejects_a_non_map() {
    let cid_map = blocks_of(vec![("node", enc(&V::Array(vec![])))]);
    assert!(matches!(parse_mst_node(&cid_map, "node"), Err(CarError::InvalidHeader(_))));
}

#[test]
fn test_parse_commit_valid_structure() {
    let commit = enc(&map(vec![("data", text_link("mst_root_cid"))]));
    let cid_map = blocks_of(vec![("commit_cid", commit)]);
    let result = parse_commit(&cid_map, "commit_cid").unwrap();
    assert_eq!(result, "mst_root_cid");
}

#[test]
fn test_parse_commit_missing_data_field() {
    let commit = enc(&map(vec![("other", text("value"))]));
    let cid_map = blocks_of(vec![("commit_cid", commit)]);
    let result = parse_commit(&cid_map, "commit_cid");
    assert!(matches!(result, Err(CarError::InvalidHeader(_))));
}

#[test]
fn test_parse_commit_not_found() {
    let cid_map: TextMap<Vec<u8>> = TextMap::new();
    let result = parse_commit(&cid_map, "missing_commit");
    assert!(matches!(result, Err(CarError::InvalidHeader(_))));
}

#[test]
fn test_format_cid() {
    let cid = Cid { version: 1, codec: 0x71, digest_type: 0x12, digest: vec![0xAB, 0xCD, 0xEF] };
    let formatted = format_cid_simple(&cid);
    assert!(formatted.starts_with("v1-c71-d12-"));
    assert!(formatted.contains("abcdef"));
}

#[test]
fn mst_test_extract_cid_to_rkey_mapping_empty_car() {
    let car_data: Vec<u8> = Vec::new();
    let result = extract_cid_to_rkey_mapping(&car_data, "app.bsky.feed.post");
    assert!(result.is_err());
}

#[test]
fn test_extract_cid_to_rkey_mapping_invalid_data() {
    let invalid_data = vec![0xFF, 0xFF, 0xFF];
    let result = extract_cid_to_rkey_mapping(&invalid_data, "app.bsky.feed.post");
    assert!(result.is_err());
}

#[test]
fn test_walk_mst_invalid_prefix() {
    let node = enc(&map(vec![
        ("l", V::Null),
        ("e", V::Array(vec![entry(999, b"test", text_link("cid"), V::Null)])),
    ]));
    let cid_map = blocks_of(vec![("node_cid", node)]);
    let mut mappings = TextMap::new();
    let result = walk_mst(&cid_map, "node_cid", "app.bsky.feed.post", &mut mappings);
    assert!(matches!(result, Err(CarError::InvalidHeader(_))));
}

#[test]
fn test_walk_mst_collection_filtering() {
    let node = enc(&map(vec![
        ("l", V::Null),
        (
            "e",
            V::Array(vec![
                entry(0, b"app.bsky.feed.post/abc123", text_link("post_cid"), V::Null),
                entry(8, b".feed.like/xyz789", text_link("like_cid"), V::Null),
            ]),
        ),
    ]));
    let cid_map = blocks_of(vec![("node_cid", node)]);
    let mut mappings = TextMap::new();
    walk_mst(&cid_map, "node_cid", "app.bsky.feed.post", &mut mappings).unwrap();
    assert_eq!(mappings.len(), 1);
    assert!(mappings.contains_key("post_cid"));
    assert!(!mappings.contains_key("like_cid"));
}

#[test]
fn walk_mst_rebuilds_keys_from_shared_prefixes() {
    let node = enc(&map(vec![(
        "e",
        V::Array(vec![
            entry(0, b"app.bsky.feed.like/aaa", text_link("like_cid"), V::Null),
            entry(14, b"post/bbb", text_link("post_one"), V::Null),
            entry(22, b"ccc", text_link("post_two"), V::Null),
        ]),
    )]));
    let cid_map = blocks_of(vec![("node_cid", node)]);
    let mut mappings = TextMap::new();
    walk_mst(&cid_map, "node_cid", "app.bsky.feed.post", &mut mappings).unwrap();
    assert_eq!(mappings.len(), 2);
    assert_eq!(mappings.get("post_one").unwrap(), "app.bsky.feed.post/bbb");
    assert_eq!(mappings.get("post_two").unwrap(), "app.bsky.feed.post/bbbccc");
    assert!(mappings.get("like_cid").is_none());
}

#[test]
fn walk_mst_follows_left_and_entry_subtrees() {
    let left = enc(&map(vec![("e", V::Array(vec![entry(0, b"c/a", text_link("a"), V::Null)]))]));
    let right = enc(&map(vec![("e", V::Array(vec![entry(0, b"c/z", text_link("z"), V::Null)]))]));
    let root = enc(&map(vec![
        ("l", text_link("left")),
        ("e", V::Array(vec![entry(0, b"c/m", text_link("m"), text_link("right"))])),
    ]));
    let cid_map = blocks_of(vec![("left", left), ("right", right), ("root", root)]);
    let mut mappings = TextMap::new();
    walk_mst(&cid_map, "root", "c", &mut mappings).unwrap();
    assert_eq!(mappings.len(), 3);
    assert_eq!(mappings.get("a").unwrap(), "c/a");
    assert_eq!(mappings.get("m").unwrap(), "c/m");
    assert_eq!(mappings.get("z").unwrap(), "c/z");
}

#[test]
fn walk_mst_reports_a_missing_subtree() {
    let root = enc(&map(vec![("l", text_link("nowhere")), ("e", V::Array(vec![]))]));
    let cid_map = blocks_of(vec![("root", root)]);
    let mut mappings = TextMap::new();
    assert!(matches!(walk_mst(&cid_map, "root", "c", &mut mappings), Err(CarError::InvalidHeader(_))));
}

#[test]
fn walk_mst_stops_on_a_cycle() {
    let root = enc(&map(vec![("l", text_link("root")), ("e", V::Array(vec![]))]));
    let cid_map = blocks_of(vec![("root", root)]);
    let mut mappings = TextMap::new();
    assert!(walk_mst(&cid_map, "root", "c", &mut mappings).is_err());
}

#[test]
fn walk_mst_rejects_a_key_that_is_not_utf8() {
    let node = enc(&map(vec![("e", V::Array(vec![entry(0, &[0xFF, 0xFE], text_link("x"), V::Null)]))]));
    let cid_map = blocks_of(vec![("node", node)]);
    let mut mappings = TextMap::new();
    assert!(matches!(walk_mst(&cid_map, "node", "c", &mut mappings), Err(CarError::InvalidHeader(_))));
}

#[test]
fn detect_mst_root_finds_the_unreferenced_node() {
    let leaf = enc(&map(vec![("e", V::Array(vec![]))]));
    let root = enc(&map(vec![("l", text_link("leaf")), ("e", V::Array(vec![]))]));
    let record = enc(&text("hello"));
    let cid_map = blocks_of(vec![("leaf", leaf), ("root", root), ("record", record)]);
    assert_eq!(detect_mst_root(&cid_map), Some("root".to_string()));
    // any map decodes as a node, so a map-shaped record is a second root
    let record_map = enc(&map(vec![("text", text("hello"))]));
    let leaf = enc(&map(vec![("e", V::Array(vec![]))]));
    let root = enc(&map(vec![("l", text_link("leaf")), ("e", V::Array(vec![]))]));
    let cid_map = blocks_of(vec![("leaf", leaf), ("root", root), ("record", record_map)]);
    assert_eq!(detect_mst_root(&cid_map), None);
}

#[test]
fn detect_mst_root_gives_none_for_two_roots() {
    let a = enc(&map(vec![("e", V::Array(vec![]))]));
    let b = enc(&map(vec![("e", V::Array(vec![]))]));
    let cid_map = blocks_of(vec![("a", a), ("b", b)]);
    assert_eq!(detect_mst_root(&cid_map), None);
}

#[test]
fn text_map_insert_replaces_and_counts_keys_once() {
    let mut m = TextMap::new();
    m.insert("a".to_string(), 1u32);
    m.insert("b".to_string(), 2u32);
    m.insert("a".to_string(), 3u32);
    assert_eq!(m.len(), 2);
    assert_eq!(m.get("a"), Some(&3));
    assert_eq!(m.get("b"), Some(&2));
    assert_eq!(m.get("c"), None);
    let mut keys = m.keys();
    keys.sort();
    assert_eq!(keys, vec!["a".to_string(), "b".to_string()]);
}

#[test]
fn extract_cid_to_rkey_mapping_walks_a_whole_archive() {
    let record = map(vec![("$type", text("app.bsky.feed.post")), ("text", text("hi"))]);
    let like = map(vec![("$type", text("app.bsky.feed.like"))]);
    let node = map(vec![
        ("l", V::Null),
        (
            "e",
            V::Array(vec![
                entry(0, b"app.bsky.feed.like/3kaaa", V::Link(cid_bytes(4)), V::Null),
                entry(14, b"post/3kbbb", V::Link(cid_bytes(3)), V::Null),
            ]),
        ),
    ]);
    let commit = map(vec![("did", text("did:plc:abc")), ("data", V::Link(cid_bytes(2))), ("version", V::Int(3))]);
    let bytes = car(1, vec![(1, commit), (2, node), (3, record), (4, like)]);
    let mapping = extract_cid_to_rkey_mapping(&bytes, "app.bsky.feed.post").unwrap();
    assert_eq!(mapping.len(), 1);
    assert_eq!(mapping.get(&cid_name(3)).unwrap(), "app.bsky.feed.post/3kbbb");

    let likes = extract_cid_to_rkey_mapping(&bytes, "app.bsky.feed.like").unwrap();
    assert_eq!(likes.len(), 1);
    assert_eq!(likes.get(&cid_name(4)).unwrap(), "app.bsky.feed.like/3kaaa");
}

#[test]
fn extract_cid_to_rkey_mapping_takes_a_root_that_is_a_node() {
    let node = map(vec![("e", V::Array(vec![entry(0, b"app.bsky.feed.post/x", V::Link(cid_bytes(3)), V::Null)]))]);
    let bytes = car(2, vec![(2, node), (3, map(vec![("text", text("hi"))]))]);
    let mapping = extract_cid_to_rkey_mapping(&bytes, "app.bsky.feed.post").unwrap();
    assert_eq!(mapping.get(&cid_name(3)).unwrap(), "app.bsky.feed.post/x");
}

#[test]
fn extract_cid_to_rkey_mapping_falls_back_to_the_unreferenced_node() {
    // the header names a block that is absent; the one tree node is the root
    let node = map(vec![("e", V::Array(vec![entry(0, b"app.bsky.feed.post/y", V::Link(cid_bytes(3)), V::Null)]))]);
    let bytes = car(9, vec![(2, node), (3, text("hi"))]);
    let mapping = extract_cid_to_rkey_mapping(&bytes, "app.bsky.feed.post").unwrap();
    assert_eq!(mapping.get(&cid_name(3)).unwrap(), "app.bsky.feed.post/y");
}

#[test]
fn extract_cid_to_rkey_mapping_without_a_root_fails() {
    let bytes = car(9, vec![(3, text("hi"))]);
    assert!(matches!(
        extract_cid_to_rkey_mapping(&bytes, "app.bsky.feed.post"),
        Err(CarError::InvalidHeader(_))
    ));
}

#[test]
fn test_extract_cid_to_rkey_mapping_with_collection() {
    let collections = vec!["app.bsky.feed.post", "app.bsky.actor.profile", "app.bsky.feed.like"];
    for collection in collections {
        let invalid_data = vec![0xFF, 0xFF];
        let result = extract_cid_to_rkey_mapping(&invalid_data, collection);
        assert!(result.is_err(), "Should fail with invalid data for collection {}", collection);
    }
}

#[test]
fn test_extract_cid_to_rkey_mapping_empty_collection() {
    let invalid_data = vec![0xFF];
    let result = extract_cid_to_rkey_mapping(&invalid_data, "");
    assert!(result.is_err(), "Should fail with empty collection name");
}

#[test]
fn test_extract_cid_to_rkey_mapping_returns_hashmap() {
    let invalid_data = vec![0x00, 0x01];
    let result = extract_cid_to_rkey_mapping(&invalid_data, "app.bsky.feed.post");
    assert!(result.is_err());
}

#[test]
fn test_extract_cid_to_rkey_mapping_large_collection_name() {
    let invalid_data = vec![0xFF];
    let long_collection = format!("app.bsky.feed.post{}", "x".repeat(1000));
    let result = extract_cid_to_rkey_mapping(&invalid_data, &long_collection);
    assert!(result.is_err());
}

#[test]
fn test_extract_cid_to_rkey_mapping_special_characters() {
    let invalid_data = vec![0xFF];
    let special_collections = vec![
        "app.bsky.feed.post/test",
        "app.bsky.feed.post?query=1",
        "app.bsky.feed.post#fragment",
        "app.bsky.feed.post\nwith\nnewlines",
    ];
    for collection in special_collections {
        let result = extract_cid_to_rkey_mapping(&invalid_data, collection);
        assert!(result.is_err(), "Should fail for collection with special chars: {}", collection);
    }
}

#[test]
fn test_extract_cid_to_rkey_mapping_nil_data() {
    let empty_data: Vec<u8> = vec![];
    let result = extract_cid_to_rkey_mapping(&empty_data, "app.bsky.feed.post");
    assert!(result.is_err(), "Should fail with empty data");
}

#[test]
fn test_extract_cid_to_rkey_mapping_error_propagation() {
    let malformed_data = vec![0x00, 0x01, 0x02];
    let result = extract_cid_to_rkey_mapping(&malformed_data, "app.bsky.feed.post");
    match result {
        Err(e) => {
            let error_msg = format!("{:?}", e);
            assert!(!error_msg.is_empty(), "Error message should not be empty");
        }
        Ok(_) => panic!("Should fail with malformed data"),
    }
}

#[test]
fn test_extract_cid_to_rkey_mapping_multiple_collections() {
    let invalid_data = vec![0xFF, 0xFE];
    let collections = vec!["app.bsky.feed.post", "app.bsky.feed.like", "app.bsky.actor.profile"];
    for collection in collections {
        let result = extract_cid_to_rkey_mapping(&invalid_data, collection);
        assert!(result.is_err(), "Should fail for collection {}", collection);
    }
}

#[test]
fn provider_edge_case_tests_test_extract_cid_to_rkey_mapping_empty_car() {
    let empty_car = vec![];
    let result = extract_cid_to_rkey_mapping(&empty_car, "app.bsky.feed.post");
    assert!(result.is_ok() || result.is_err(), "Should handle empty CAR data");
}
