use screeps_res::totals::{merge_res, ResourceTotals, ShardTotals};

fn s(x: &str) -> String {
    x.to_string()
}

#[test]
fn resource_totals_add_and_get() {
    let mut t = ResourceTotals::new();
    t.add(&s("energy"), 100);
    t.add(&s("energy"), 50);
    t.add(&s("U"), 10);
    assert_eq!(t.get(&s("energy")), 150);
    assert_eq!(t.get(&s("U")), 10);
    assert_eq!(t.get(&s("K")), 0);
    assert!(t.contains(&s("U")));
    assert!(!t.contains(&s("K")));
    assert_eq!(t.len(), 2);
}

#[test]
fn merge_sums_over_shards() {
    let mut st = ShardTotals::new();
    st.push_shard(&s("shard0"));
    st.add_at(0, &s("energy"), 100);
    st.push_shard(&s("shard1"));
    st.add_at(1, &s("energy"), 50);
    st.add_at(1, &s("U"), 10);
    let g = merge_res(&st).unwrap();
    assert_eq!(g.get(&s("energy")), 150);
    assert_eq!(g.get(&s("U")), 10);
    assert_eq!(g.len(), 2);
}

#[test]
fn merge_tolerates_negative_quantities() {
    let mut st = ShardTotals::new();
    st.push_shard(&s("a"));
    st.add_at(0, &s("X"), -5);
    st.push_shard(&s("b"));
    st.add_at(1, &s("X"), 3);
    let g = merge_res(&st).unwrap();
    assert_eq!(g.get(&s("X")), -2);
}

#[test]
fn merge_of_merged_with_empty_shard_is_unchanged() {
    let mut st = ShardTotals::new();
    st.push_shard(&s("shard0"));
    st.add_at(0, &s("energy"), 100);
    st.push_shard(&s("shard1"));
    st.add_at(1, &s("energy"), 50);
    st.add_at(1, &s("U"), 10);
    let g = merge_res(&st).unwrap();

    let mut again = ShardTotals::new();
    again.push_shard(&s("all"));
    for (name, q) in g.entries() {
        again.add_at(0, name, *q);
    }
    again.push_shard(&s("empty"));
    let g2 = merge_res(&again).unwrap();
    assert_eq!(g2.len(), g.len());
    assert_eq!(g2.get(&s("energy")), 150);
    assert_eq!(g2.get(&s("U")), 10);
}

#[test]
fn merge_reports_overflow() {
    let mut st = ShardTotals::new();
    st.push_shard(&s("a"));
    st.add_at(0, &s("energy"), i64::MAX);
    st.push_shard(&s("b"));
    st.add_at(1, &s("energy"), 1);
    assert!(merge_res(&st).is_none());
}

#[test]
fn merge_of_nothing_is_empty() {
    let st = ShardTotals::new();
    let g = merge_res(&st).unwrap();
    assert_eq!(g.len(), 0);
}
