use screeps_res::aggregate::{
    aggregate, check_player, room_targets, AggregateError, ObjectKind, RoomObject, RoomReply,
    RoomShardRef, StoreEntry,
};
use screeps_res::totals::merge_res;

fn s(x: &str) -> String {
    x.to_string()
}

fn object(kind: ObjectKind, store: &[(&str, Option<i32>)]) -> RoomObject {
    RoomObject {
        kind,
        store: store
            .iter()
            .map(|(r, a)| StoreEntry { resource: s(r), amount: *a })
            .collect(),
    }
}

fn listing() -> Vec<(String, Vec<String>)> {
    vec![(s("shard0"), vec![s("roomA")]), (s("shard1"), vec![s("roomB")])]
}

fn reply_for(t: &RoomShardRef) -> Result<RoomReply, String> {
    if t.room == "roomA" {
        Ok(RoomReply {
            ok: true,
            objects: vec![object(ObjectKind::Storage, &[("energy", Some(100))])],
        })
    } else {
        Ok(RoomReply {
            ok: true,
            objects: vec![object(ObjectKind::Terminal, &[("energy", Some(50)), ("U", Some(10))])],
        })
    }
}

#[test]
fn end_to_end_all_shards() {
    let targets = room_targets::<String>(true, &listing(), &s("all")).unwrap();
    assert_eq!(targets.len(), 2);
    let replies: Vec<_> = targets.iter().map(reply_for).collect();
    let st = aggregate(&targets, replies).unwrap();
    assert_eq!(st.len(), 2);
    let s0 = st.get(&s("shard0")).unwrap();
    assert_eq!(s0.get(&s("energy")), 100);
    assert_eq!(s0.len(), 1);
    let s1 = st.get(&s("shard1")).unwrap();
    assert_eq!(s1.get(&s("energy")), 50);
    assert_eq!(s1.get(&s("U")), 10);
    assert_eq!(s1.len(), 2);
    let g = merge_res(&st).unwrap();
    assert_eq!(g.get(&s("energy")), 150);
    assert_eq!(g.get(&s("U")), 10);
    assert_eq!(g.len(), 2);
}

#[test]
fn end_to_end_single_shard() {
    let targets = room_targets::<String>(true, &listing(), &s("shard0")).unwrap();
    assert_eq!(targets.len(), 1);
    assert_eq!(targets[0].room, "roomA");
    assert_eq!(targets[0].shard, "shard0");
    let replies: Vec<_> = targets.iter().map(reply_for).collect();
    let st = aggregate(&targets, replies).unwrap();
    assert_eq!(st.len(), 1);
    assert!(st.get(&s("shard1")).is_none());
    let g = merge_res(&st).unwrap();
    assert_eq!(g.get(&s("energy")), 100);
    assert_eq!(g.get(&s("U")), 0);
}

#[test]
fn logical_failure_is_skipped() {
    let targets = room_targets::<String>(true, &listing(), &s("all")).unwrap();
    let replies = vec![
        Ok(RoomReply { ok: false, objects: vec![] }),
        reply_for(&targets[1]),
    ];
    let st = aggregate(&targets, replies).unwrap();
    assert_eq!(st.len(), 1);
    assert!(st.get(&s("shard0")).is_none());
    assert_eq!(st.get(&s("shard1")).unwrap().get(&s("energy")), 50);
}

#[test]
fn transport_failure_aborts() {
    let targets = room_targets::<String>(true, &listing(), &s("all")).unwrap();
    let replies = vec![reply_for(&targets[0]), Err(s("connection reset"))];
    let r = aggregate(&targets, replies);
    assert_eq!(r.err(), Some(AggregateError::RoomFetchTransport(s("connection reset"))));
}

#[test]
fn first_transport_failure_is_reported() {
    let targets = room_targets::<String>(true, &listing(), &s("all")).unwrap();
    let replies: Vec<Result<RoomReply, String>> = vec![Err(s("first")), Err(s("second"))];
    let r = aggregate(&targets, replies);
    assert_eq!(r.err(), Some(AggregateError::RoomFetchTransport(s("first"))));
}

#[test]
fn only_containers_count_and_missing_amounts_are_zero() {
    let targets = vec![RoomShardRef { room: s("r"), shard: s("shard3") }];
    let replies: Vec<Result<RoomReply, String>> = vec![Ok(RoomReply {
        ok: true,
        objects: vec![
            object(ObjectKind::Storage, &[("energy", Some(7)), ("O", None)]),
            object(ObjectKind::Factory, &[("energy", Some(3)), ("battery", Some(2))]),
            object(ObjectKind::Other, &[("energy", Some(1000))]),
        ],
    })];
    let st = aggregate(&targets, replies).unwrap();
    let t = st.get(&s("shard3")).unwrap();
    assert_eq!(t.get(&s("energy")), 10);
    assert_eq!(t.get(&s("battery")), 2);
    assert!(t.contains(&s("O")));
    assert_eq!(t.get(&s("O")), 0);
    assert_eq!(t.len(), 3);
}

#[test]
fn rooms_of_one_shard_add_up() {
    let targets = vec![
        RoomShardRef { room: s("a"), shard: s("shard0") },
        RoomShardRef { room: s("b"), shard: s("shard0") },
    ];
    let replies: Vec<Result<RoomReply, String>> = vec![
        Ok(RoomReply { ok: true, objects: vec![object(ObjectKind::Storage, &[("H", Some(5))])] }),
        Ok(RoomReply { ok: true, objects: vec![object(ObjectKind::Terminal, &[("H", Some(6))])] }),
    ];
    let st = aggregate(&targets, replies).unwrap();
    assert_eq!(st.len(), 1);
    assert_eq!(st.get(&s("shard0")).unwrap().get(&s("H")), 11);
}

#[test]
fn player_lookup_failure() {
    assert_eq!(check_player::<String>(false), Err(AggregateError::PlayerNotFound));
    assert_eq!(check_player::<String>(true), Ok(()));
}

#[test]
fn room_listing_failure_or_empty() {
    assert_eq!(room_targets::<String>(false, &listing(), &s("all")).err(), Some(AggregateError::NoRooms));
    let empty = vec![(s("shard0"), vec![])];
    assert_eq!(room_targets::<String>(true, &empty, &s("all")).err(), Some(AggregateError::NoRooms));
}

#[test]
fn unknown_shard_filter_selects_nothing() {
    let targets = room_targets::<String>(true, &listing(), &s("shard9")).unwrap();
    assert!(targets.is_empty());
}

#[test]
fn grand_totals_do_not_depend_on_room_order() {
    let forward = vec![
        RoomShardRef { room: s("roomA"), shard: s("shard0") },
        RoomShardRef { room: s("roomB"), shard: s("shard1") },
    ];
    let backward = vec![
        RoomShardRef { room: s("roomB"), shard: s("shard1") },
        RoomShardRef { room: s("roomA"), shard: s("shard0") },
    ];
    let r1: Vec<_> = forward.iter().map(reply_for).collect();
    let r2: Vec<_> = backward.iter().map(reply_for).collect();
    let g1 = merge_res(&aggregate(&forward, r1).unwrap()).unwrap();
    let g2 = merge_res(&aggregate(&backward, r2).unwrap()).unwrap();
    assert_eq!(g1.len(), g2.len());
    assert_eq!(g1.get(&s("energy")), g2.get(&s("energy")));
    assert_eq!(g1.get(&s("U")), g2.get(&s("U")));
    assert_eq!(g2.get(&s("energy")), 150);
}

#[test]
fn room_without_containers_still_records_its_shard() {
    let targets = vec![RoomShardRef { room: s("r"), shard: s("shard2") }];
    let replies: Vec<Result<RoomReply, String>> = vec![Ok(RoomReply {
        ok: true,
        objects: vec![object(ObjectKind::Other, &[("energy", Some(5))])],
    })];
    let st = aggregate(&targets, replies).unwrap();
    assert_eq!(st.len(), 1);
    assert_eq!(st.get(&s("shard2")).unwrap().len(), 0);
}
