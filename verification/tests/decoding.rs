use osmpbf_groups::decode::{decode_deltas, indices_in_table, make_lat, make_lon, make_tags};
use osmpbf_groups::dense::{dense_is_resolvable, read_segment, segment_in_table};
use osmpbf_groups::groups::{
    dense_nodes, group_is_resolvable, iter, nodes, nodes_are_resolvable, relations,
    relations_are_resolvable, simple_nodes, simple_nodes_are_resolvable, ways, ways_are_resolvable,
};
use osmpbf_groups::objects::{Node, OsmId, OsmObj, Ref, Tags};
use osmpbf_groups::osmformat;
use osmpbf_groups::osmformat::{MemberType, PrimitiveBlock, PrimitiveGroup};
use osmpbf_groups::records::{
    decode_members, decode_node, decode_relation, decode_way, member_id, node_is_resolvable,
    relation_is_resolvable, roles_in_table, way_is_resolvable,
};
use osmpbf_groups::text::make_string;

fn table(words: &[&str]) -> Vec<Vec<u8>> {
    words.iter().map(|w| w.as_bytes().to_vec()).collect()
}

fn block() -> PrimitiveBlock {
    PrimitiveBlock {
        stringtable: table(&["", "highway", "residential", "name", "Main St", "amenity", "outer", "cafe"]),
        granularity: 100,
        lat_offset: 7,
        lon_offset: -11,
    }
}

fn no_dense() -> osmformat::DenseNodes {
    osmformat::DenseNodes { id: vec![], lat: vec![], lon: vec![], keys_vals: vec![] }
}

fn empty_group() -> PrimitiveGroup {
    PrimitiveGroup { nodes: vec![], dense: no_dense(), ways: vec![], relations: vec![] }
}

fn dense_group(id: Vec<i64>, lat: Vec<i64>, lon: Vec<i64>, keys_vals: Vec<i32>) -> PrimitiveGroup {
    PrimitiveGroup {
        nodes: vec![],
        dense: osmformat::DenseNodes { id, lat, lon, keys_vals },
        ways: vec![],
        relations: vec![],
    }
}

fn all_dense(g: &PrimitiveGroup, b: &PrimitiveBlock) -> Vec<Node> {
    let mut it = dense_nodes(g, b);
    let mut out = Vec::new();
    while let Some(n) = it.next() {
        out.push(n);
    }
    out
}

fn all_objects(g: &PrimitiveGroup, b: &PrimitiveBlock) -> Vec<OsmObj> {
    let mut it = iter(g, b);
    let mut out = Vec::new();
    while let Some(o) = it.next() {
        out.push(o);
    }
    out
}

fn text_of<'a>(tags: &'a Tags, key: &str) -> Option<&'a str> {
    tags.get(key).map(|s| s.as_str())
}

fn mixed_group() -> PrimitiveGroup {
    PrimitiveGroup {
        nodes: vec![osmformat::Node { id: 1, lat: 10, lon: 20, keys: vec![1], vals: vec![2] }],
        dense: osmformat::DenseNodes {
            id: vec![2],
            lat: vec![30],
            lon: vec![40],
            keys_vals: vec![5, 7, 0],
        },
        ways: vec![osmformat::Way { id: 3, refs: vec![1, 1], keys: vec![3], vals: vec![4] }],
        relations: vec![osmformat::Relation {
            id: 4,
            memids: vec![3],
            types: vec![MemberType::Way],
            roles_sid: vec![6],
            keys: vec![],
            vals: vec![],
        }],
    }
}

#[test]
fn string_resolver_returns_table_entry() {
    let b = block();
    assert_eq!(make_string(1, &b), "highway");
    assert_eq!(make_string(4, &b), "Main St");
    assert_eq!(make_string(0, &b), "");
}

#[test]
fn string_resolver_decodes_multibyte_text() {
    let b = PrimitiveBlock {
        stringtable: vec![vec![], vec![0x63, 0x61, 0x66, 0xc3, 0xa9]],
        granularity: 100,
        lat_offset: 0,
        lon_offset: 0,
    };
    assert_eq!(make_string(1, &b), "caf\u{e9}");
}

#[test]
fn string_resolver_replaces_invalid_bytes() {
    let b = PrimitiveBlock {
        stringtable: vec![vec![], vec![0x61, 0xff, 0x62]],
        granularity: 100,
        lat_offset: 0,
        lon_offset: 0,
    };
    assert_eq!(make_string(1, &b), "a\u{fffd}b");
}

#[test]
fn coordinates_are_offset_plus_scaled_value() {
    let b = block();
    assert_eq!(make_lat(123, &b), 12_307);
    assert_eq!(make_lon(123, &b), 12_289);
    assert_eq!(make_lat(-5, &b), -493);
    assert_eq!(make_lat(0, &b), 7);
}

#[test]
fn coordinates_do_not_overflow() {
    let b = PrimitiveBlock {
        stringtable: vec![],
        granularity: i32::MAX,
        lat_offset: i64::MAX,
        lon_offset: i64::MIN,
    };
    let g = i32::MAX as i128;
    assert_eq!(make_lat(i64::MAX, &b), i64::MAX as i128 + g * i64::MAX as i128);
    assert_eq!(make_lon(i64::MIN, &b), i64::MIN as i128 + g * i64::MIN as i128);
}

#[test]
fn tags_insert_get_len() {
    let mut t = Tags::new();
    assert_eq!(t.len(), 0);
    assert!(t.get("a").is_none());
    t.insert("a".to_string(), "1".to_string());
    t.insert("b".to_string(), "2".to_string());
    assert_eq!(t.len(), 2);
    assert_eq!(text_of(&t, "a"), Some("1"));
    assert_eq!(text_of(&t, "b"), Some("2"));
    assert!(t.get("c").is_none());
    t.insert("a".to_string(), "3".to_string());
    assert_eq!(t.len(), 2);
    assert_eq!(text_of(&t, "a"), Some("3"));
    assert_eq!(text_of(&t, "b"), Some("2"));
}

#[test]
fn make_tags_resolves_pairs() {
    let b = block();
    let t = make_tags(&[1, 3], &[2, 4], &b);
    assert_eq!(t.len(), 2);
    assert_eq!(text_of(&t, "highway"), Some("residential"));
    assert_eq!(text_of(&t, "name"), Some("Main St"));
}

#[test]
fn make_tags_uses_overlapping_prefix() {
    let b = block();
    let t = make_tags(&[1, 3, 5], &[2], &b);
    assert_eq!(t.len(), 1);
    assert_eq!(text_of(&t, "highway"), Some("residential"));
    let u = make_tags(&[1], &[2, 4, 7], &b);
    assert_eq!(u.len(), 1);
    assert_eq!(text_of(&u, "highway"), Some("residential"));
    assert_eq!(make_tags(&[], &[2], &b).len(), 0);
}

#[test]
fn make_tags_later_duplicate_key_wins() {
    let b = block();
    let t = make_tags(&[1, 1], &[2, 4], &b);
    assert_eq!(t.len(), 1);
    assert_eq!(text_of(&t, "highway"), Some("Main St"));
}

#[test]
fn simple_node_fields() {
    let b = block();
    let n = decode_node(
        &osmformat::Node { id: 42, lat: 500, lon: -300, keys: vec![5], vals: vec![7] },
        &b,
    );
    assert_eq!(n.id, 42);
    assert_eq!(n.lat_nano, 50_007);
    assert_eq!(n.lon_nano, -30_011);
    assert_eq!(n.tags.len(), 1);
    assert_eq!(text_of(&n.tags, "amenity"), Some("cafe"));
}

#[test]
fn simple_nodes_in_record_order() {
    let b = block();
    let mut g = empty_group();
    g.nodes = vec![
        osmformat::Node { id: 9, lat: 1, lon: 2, keys: vec![], vals: vec![] },
        osmformat::Node { id: 3, lat: 3, lon: 4, keys: vec![], vals: vec![] },
        osmformat::Node { id: 5, lat: 5, lon: 6, keys: vec![], vals: vec![] },
    ];
    let mut it = simple_nodes(&g, &b);
    assert_eq!(it.size_hint(), (3, Some(3)));
    assert_eq!(it.next().unwrap().id, 9);
    assert_eq!(it.size_hint(), (2, Some(2)));
    assert_eq!(it.next().unwrap().id, 3);
    let last = it.next().unwrap();
    assert_eq!((last.id, last.lat_nano, last.lon_nano), (5, 507, 589));
    assert!(it.next().is_none());
    assert!(it.next().is_none());
    assert_eq!(it.size_hint(), (0, Some(0)));
}

#[test]
fn dense_nodes_are_prefix_sums() {
    let b = block();
    let g = dense_group(vec![10, 2, -5], vec![100, 1, 1], vec![-200, -1, 5], vec![]);
    let ns = all_dense(&g, &b);
    assert_eq!(ns.len(), 3);
    let ids: Vec<i64> = ns.iter().map(|n| n.id).collect();
    assert_eq!(ids, vec![10, 12, 7]);
    let lats: Vec<i128> = ns.iter().map(|n| n.lat_nano).collect();
    assert_eq!(lats, vec![10_007, 10_107, 10_207]);
    let lons: Vec<i128> = ns.iter().map(|n| n.lon_nano).collect();
    assert_eq!(lons, vec![-20_011, -20_111, -19_611]);
    assert!(ns.iter().all(|n| n.tags.len() == 0));
}

#[test]
fn dense_tags_split_at_sentinel() {
    let b = block();
    let g = dense_group(vec![1, 1], vec![0, 0], vec![0, 0], vec![5, 7, 0, 3, 4]);
    let ns = all_dense(&g, &b);
    assert_eq!(ns.len(), 2);
    assert_eq!(ns[0].tags.len(), 1);
    assert_eq!(text_of(&ns[0].tags, "amenity"), Some("cafe"));
    assert_eq!(ns[1].tags.len(), 1);
    assert_eq!(text_of(&ns[1].tags, "name"), Some("Main St"));
}

#[test]
fn dense_trailing_key_is_dropped() {
    let b = block();
    let g = dense_group(vec![1], vec![0], vec![0], vec![5, 7, 3]);
    let ns = all_dense(&g, &b);
    assert_eq!(ns.len(), 1);
    assert_eq!(ns[0].tags.len(), 1);
    assert_eq!(text_of(&ns[0].tags, "amenity"), Some("cafe"));
    assert!(ns[0].tags.get("name").is_none());

    let h = dense_group(vec![1], vec![0], vec![0], vec![3]);
    let ms = all_dense(&h, &b);
    assert_eq!(ms.len(), 1);
    assert_eq!(ms[0].tags.len(), 0);
}

#[test]
fn dense_empty_tag_segments() {
    let b = block();
    let g = dense_group(vec![1, 1, 1], vec![0, 0, 0], vec![0, 0, 0], vec![0, 1, 2, 0]);
    let ns = all_dense(&g, &b);
    assert_eq!(ns.len(), 3);
    assert_eq!(ns[0].tags.len(), 0);
    assert_eq!(text_of(&ns[1].tags, "highway"), Some("residential"));
    assert_eq!(ns[2].tags.len(), 0);
}

#[test]
fn dense_value_index_zero_is_a_string() {
    let b = block();
    let g = dense_group(vec![1], vec![0], vec![0], vec![1, 0, 3, 4]);
    let ns = all_dense(&g, &b);
    assert_eq!(ns[0].tags.len(), 2);
    assert_eq!(text_of(&ns[0].tags, "highway"), Some(""));
    assert_eq!(text_of(&ns[0].tags, "name"), Some("Main St"));
}

#[test]
fn dense_stops_at_shortest_array() {
    let b = block();
    let g = dense_group(vec![1, 2, 3], vec![1, 2], vec![1, 2, 3, 4], vec![]);
    let mut it = dense_nodes(&g, &b);
    assert_eq!(it.next().unwrap().id, 1);
    assert_eq!(it.next().unwrap().id, 3);
    assert!(it.next().is_none());
    assert!(it.next().is_none());
}

#[test]
fn dense_zero_nodes() {
    let b = block();
    let g = dense_group(vec![], vec![], vec![], vec![1, 2]);
    assert_eq!(all_dense(&g, &b).len(), 0);
}

#[test]
fn read_segment_reports_next_start() {
    let b = block();
    let kv = [5, 7, 0, 3, 4];
    let (t, next) = read_segment(&kv, 0, &b);
    assert_eq!(next, 3);
    assert_eq!(text_of(&t, "amenity"), Some("cafe"));
    let (u, end) = read_segment(&kv, 3, &b);
    assert_eq!(end, 5);
    assert_eq!(text_of(&u, "name"), Some("Main St"));
    let (v, still) = read_segment(&kv, 5, &b);
    assert_eq!(still, 5);
    assert_eq!(v.len(), 0);
    let (w, past) = read_segment(&kv, 4, &b);
    assert_eq!(past, 5);
    assert_eq!(w.len(), 0);
}

#[test]
fn way_refs_are_running_sums() {
    assert_eq!(decode_deltas(&[3, -1, 2]), vec![3, 2, 4]);
    assert_eq!(decode_deltas(&[]), Vec::<i64>::new());
}

#[test]
fn running_sum_wraps_at_the_bounds() {
    assert_eq!(decode_deltas(&[i64::MAX, 1, -1]), vec![i64::MAX, i64::MIN, i64::MAX]);
}

#[test]
fn way_fields() {
    let b = block();
    let w = decode_way(
        &osmformat::Way { id: 77, refs: vec![3, -1, 2], keys: vec![1], vals: vec![2] },
        &b,
    );
    assert_eq!(w.id, 77);
    assert_eq!(w.nodes, vec![3, 2, 4]);
    assert_eq!(text_of(&w.tags, "highway"), Some("residential"));
}

#[test]
fn way_sums_do_not_carry_over() {
    let b = block();
    let mut g = empty_group();
    g.ways = vec![
        osmformat::Way { id: 1, refs: vec![5, 5], keys: vec![], vals: vec![] },
        osmformat::Way { id: 2, refs: vec![1, 1], keys: vec![], vals: vec![] },
    ];
    let mut it = ways(&g, &b);
    assert_eq!(it.size_hint(), (2, Some(2)));
    assert_eq!(it.next().unwrap().nodes, vec![5, 10]);
    assert_eq!(it.next().unwrap().nodes, vec![1, 2]);
    assert!(it.next().is_none());
}

#[test]
fn member_kinds_map_to_matching_ids() {
    assert_eq!(member_id(MemberType::Node, 5), OsmId::Node(5));
    assert_eq!(member_id(MemberType::Way, 6), OsmId::Way(6));
    assert_eq!(member_id(MemberType::Relation, -7), OsmId::Relation(-7));
}

#[test]
fn relation_members_are_typed_running_sums() {
    let b = block();
    let refs = decode_members(&[10, -4], &[MemberType::Node, MemberType::Way], &[6, 0], &b);
    assert_eq!(
        refs,
        vec![
            Ref { member: OsmId::Node(10), role: "outer".to_string() },
            Ref { member: OsmId::Way(6), role: String::new() },
        ]
    );
}

#[test]
fn relation_members_use_common_prefix() {
    let b = block();
    let refs = decode_members(
        &[1, 1, 1],
        &[MemberType::Relation, MemberType::Node],
        &[6, 6, 6, 6],
        &b,
    );
    assert_eq!(
        refs,
        vec![
            Ref { member: OsmId::Relation(1), role: "outer".to_string() },
            Ref { member: OsmId::Node(2), role: "outer".to_string() },
        ]
    );
    assert!(decode_members(&[1], &[], &[6], &b).is_empty());
}

#[test]
fn relation_fields() {
    let b = block();
    let r = decode_relation(
        &osmformat::Relation {
            id: 8,
            memids: vec![10, -4],
            types: vec![MemberType::Node, MemberType::Way],
            roles_sid: vec![6, 6],
            keys: vec![3],
            vals: vec![4],
        },
        &b,
    );
    assert_eq!(r.id, 8);
    assert_eq!(r.refs.len(), 2);
    assert_eq!(r.refs[0].member, OsmId::Node(10));
    assert_eq!(r.refs[1].member, OsmId::Way(6));
    assert_eq!(text_of(&r.tags, "name"), Some("Main St"));
}

#[test]
fn relations_in_record_order() {
    let b = block();
    let mut g = mixed_group();
    let mut second = g.relations[0].clone();
    second.id = 40;
    g.relations.push(second);
    let mut it = relations(&g, &b);
    assert_eq!(it.size_hint(), (2, Some(2)));
    assert_eq!(it.next().unwrap().id, 4);
    assert_eq!(it.next().unwrap().id, 40);
    assert!(it.next().is_none());
}

#[test]
fn nodes_are_simple_then_dense() {
    let b = block();
    let g = mixed_group();
    let mut it = nodes(&g, &b);
    let first = it.next().unwrap();
    assert_eq!((first.id, first.lat_nano, first.lon_nano), (1, 1_007, 1_989));
    assert_eq!(text_of(&first.tags, "highway"), Some("residential"));
    let second = it.next().unwrap();
    assert_eq!((second.id, second.lat_nano, second.lon_nano), (2, 3_007, 3_989));
    assert_eq!(text_of(&second.tags, "amenity"), Some("cafe"));
    assert!(it.next().is_none());
}

#[test]
fn combined_stream_is_nodes_ways_relations() {
    let b = block();
    let g = mixed_group();
    let objs = all_objects(&g, &b);
    assert_eq!(objs.len(), 4);
    assert!(matches!(&objs[0], OsmObj::Node(n) if n.id == 1));
    assert!(matches!(&objs[1], OsmObj::Node(n) if n.id == 2));
    assert!(matches!(&objs[2], OsmObj::Way(w) if w.id == 3 && w.nodes == vec![1, 2]));
    assert!(matches!(&objs[3], OsmObj::Relation(r) if r.id == 4
        && r.refs == vec![Ref { member: OsmId::Way(3), role: "outer".to_string() }]));
}

#[test]
fn decoding_twice_gives_equal_results() {
    let b = block();
    let g = mixed_group();
    let first = all_objects(&g, &b);
    let second = all_objects(&g, &b);
    assert_eq!(format!("{:?}", first), format!("{:?}", second));
    assert_eq!(first.len(), 4);
}

#[test]
fn empty_group_gives_empty_stream() {
    let b = block();
    let g = empty_group();
    let mut it = iter(&g, &b);
    assert!(it.next().is_none());
    assert!(it.next().is_none());
    assert!(nodes(&g, &b).next().is_none());
    assert!(ways(&g, &b).next().is_none());
    assert!(relations(&g, &b).next().is_none());
}

#[test]
fn collect_gives_what_next_gives() {
    let b = block();
    let g = mixed_group();
    let objs = iter(&g, &b).collect();
    assert_eq!(format!("{:?}", objs), format!("{:?}", all_objects(&g, &b)));
    assert_eq!(objs.len(), 4);
    assert_eq!(nodes(&g, &b).collect().len(), 2);
    assert_eq!(simple_nodes(&g, &b).collect().len(), 1);
    assert_eq!(dense_nodes(&g, &b).collect().len(), 1);
    assert_eq!(ways(&g, &b).collect().len(), 1);
    assert_eq!(relations(&g, &b).collect().len(), 1);
    let mut it = ways(&g, &b);
    assert!(it.next().is_some());
    assert!(it.collect().is_empty());
}

#[test]
fn tags_keep_first_insertion_order() {
    let mut t = Tags::new();
    t.insert("b".to_string(), "1".to_string());
    t.insert("a".to_string(), "2".to_string());
    t.insert("b".to_string(), "3".to_string());
    let pairs: Vec<(&str, &str)> =
        t.as_pairs().iter().map(|(k, v)| (k.as_str(), v.as_str())).collect();
    assert_eq!(pairs, vec![("b", "3"), ("a", "2")]);
}

#[test]
fn resolvable_group_is_accepted() {
    let b = block();
    assert!(group_is_resolvable(&mixed_group(), &b));
    assert!(group_is_resolvable(&empty_group(), &b));
    assert!(nodes_are_resolvable(&mixed_group(), &b));
    assert!(simple_nodes_are_resolvable(&mixed_group(), &b));
    assert!(ways_are_resolvable(&mixed_group(), &b));
    assert!(relations_are_resolvable(&mixed_group(), &b));
}

#[test]
fn index_past_the_table_is_refused() {
    let b = block();
    assert!(indices_in_table(&[7], &[7], &b));
    assert!(!indices_in_table(&[8], &[1], &b));
    assert!(!indices_in_table(&[1], &[8], &b));
    assert!(indices_in_table(&[1, 8], &[2], &b));

    let mut g = mixed_group();
    g.nodes[0].keys = vec![100];
    assert!(!node_is_resolvable(&g.nodes[0], &b));
    assert!(!simple_nodes_are_resolvable(&g, &b));
    assert!(!group_is_resolvable(&g, &b));
    assert!(ways_are_resolvable(&g, &b));

    let mut h = mixed_group();
    h.ways[0].vals = vec![8];
    assert!(!way_is_resolvable(&h.ways[0], &b));
    assert!(!ways_are_resolvable(&h, &b));
    assert!(!group_is_resolvable(&h, &b));

    let mut r = mixed_group();
    r.relations[0].roles_sid = vec![-1];
    assert!(!relation_is_resolvable(&r.relations[0], &b));
    assert!(!relations_are_resolvable(&r, &b));
    assert!(!group_is_resolvable(&r, &b));
    assert!(!roles_in_table(&[1], &[MemberType::Node], &[8], &b));
    assert!(roles_in_table(&[1], &[MemberType::Node], &[7, 8], &b));
}

#[test]
fn dense_index_past_the_table_is_refused() {
    let b = block();
    let ok = osmformat::DenseNodes { id: vec![1, 1], lat: vec![0, 0], lon: vec![0, 0], keys_vals: vec![5, 7, 0, 3, 4] };
    assert!(dense_is_resolvable(&ok, &b));
    let bad_key = osmformat::DenseNodes { keys_vals: vec![5, 7, 0, 9, 4], ..ok.clone() };
    assert!(!dense_is_resolvable(&bad_key, &b));
    let negative = osmformat::DenseNodes { keys_vals: vec![-5, 7], ..ok.clone() };
    assert!(!dense_is_resolvable(&negative, &b));
    let bad_value = osmformat::DenseNodes { keys_vals: vec![5, 8], ..ok.clone() };
    assert!(!dense_is_resolvable(&bad_value, &b));
    // what lies behind the last node's segment is never read
    let unread = osmformat::DenseNodes { keys_vals: vec![0, 0, 99, 99], ..ok.clone() };
    assert!(dense_is_resolvable(&unread, &b));
    // a key that the stream ends on is never resolved
    let dangling = osmformat::DenseNodes { keys_vals: vec![99], ..ok.clone() };
    assert!(dense_is_resolvable(&dangling, &b));
    assert_eq!(segment_in_table(&[5, 7, 0, 3, 4], 0, &b), (true, 3));
    assert_eq!(segment_in_table(&[5, 70, 0, 3, 4], 0, &b), (false, 3));
}
