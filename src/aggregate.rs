use vstd::prelude::*;
use crate::totals::{fits_i64, get0, grand, lemma_grand_update, matches_map, sums_fit, ShardTotals};

verus! {

/// The kinds of room object that matter here; every other kind is `Other`.
#[derive(PartialEq, Eq, Structural, Clone, Copy, Debug)]
pub enum ObjectKind {
    Storage,
    Terminal,
    Factory,
    Other,
}

/// One inventory line: a resource identifier and its quantity, if the reply gave one.
pub struct StoreEntry {
    pub resource: String,
    pub amount: Option<i32>,
}

/// A room object with its inventory.
pub struct RoomObject {
    pub kind: ObjectKind,
    pub store: Vec<StoreEntry>,
}

/// A transported inventory reply for one room; `ok` is its logical status.
pub struct RoomReply {
    pub ok: bool,
    pub objects: Vec<RoomObject>,
}

/// One inventory query target.
pub struct RoomShardRef {
    pub room: String,
    pub shard: String,
}

/// Why an aggregation failed; `E` is the transport error of the game-data client.
#[derive(PartialEq, Eq, Debug)]
pub enum AggregateError<E> {
    PlayerNotFound,
    NoRooms,
    RoomFetchTransport(E),
}

pub open spec fn is_container(k: ObjectKind) -> bool {
    k == ObjectKind::Storage || k == ObjectKind::Terminal || k == ObjectKind::Factory
}

/// A missing quantity counts as 0.
pub open spec fn entry_pair(e: StoreEntry) -> (Seq<char>, int) {
    (e.resource@, match e.amount { Some(a) => a as int, None => 0 })
}

/// What one object contributes: its inventory if it is a container, else nothing.
pub open spec fn object_pairs(o: RoomObject) -> Seq<(Seq<char>, int)> {
    if is_container(o.kind) {
        o.store@.map_values(|e: StoreEntry| entry_pair(e))
    } else {
        Seq::empty()
    }
}

/// What the objects of one room contribute, object after object.
pub open spec fn room_pairs(objs: Seq<RoomObject>) -> Seq<(Seq<char>, int)>
    decreases objs.len(),
{
    if objs.len() == 0 {
        Seq::empty()
    } else {
        room_pairs(objs.drop_last()) + object_pairs(objs.last())
    }
}

/// `m` with each quantity of `pairs` added to its resource.
pub open spec fn tally(m: Map<Seq<char>, int>, pairs: Seq<(Seq<char>, int)>) -> Map<Seq<char>, int>
    decreases pairs.len(),
{
    if pairs.len() == 0 {
        m
    } else {
        let t = tally(m, pairs.drop_last());
        t.insert(pairs.last().0, get0(t, pairs.last().0) + pairs.last().1)
    }
}

/// A reply that was transported and reports success.
pub open spec fn contributes<E>(r: Result<RoomReply, E>) -> bool {
    r is Ok && r->Ok_0.ok
}

/// The per-shard totals of the first `n` replies.
pub open spec fn shard_view<E>(
    targets: Seq<RoomShardRef>,
    replies: Seq<Result<RoomReply, E>>,
    n: int,
) -> Map<Seq<char>, Map<Seq<char>, int>>
    decreases n,
{
    if n <= 0 {
        Map::empty()
    } else {
        let prev = shard_view(targets, replies, n - 1);
        if contributes(replies[n - 1]) {
            let s = targets[n - 1].shard@;
            let base = if prev.contains_key(s) { prev[s] } else { Map::empty() };
            prev.insert(s, tally(base, room_pairs(replies[n - 1]->Ok_0.objects@)))
        } else {
            prev
        }
    }
}

/// Every quantity that the first `n` replies contribute, over all shards.
pub open spec fn all_pairs<E>(replies: Seq<Result<RoomReply, E>>, n: int) -> Seq<(Seq<char>, int)>
    decreases n,
{
    if n <= 0 {
        Seq::empty()
    } else if contributes(replies[n - 1]) {
        all_pairs(replies, n - 1) + room_pairs(replies[n - 1]->Ok_0.objects@)
    } else {
        all_pairs(replies, n - 1)
    }
}

/// The sum of the quantities in `p` that belong to resource `k`.
pub open spec fn pair_sum(p: Seq<(Seq<char>, int)>, k: Seq<char>) -> int
    decreases p.len(),
{
    if p.len() == 0 {
        0
    } else {
        pair_sum(p.drop_last(), k) + if p.last().0 == k { p.last().1 } else { 0 }
    }
}

pub proof fn lemma_pair_sum_concat(a: Seq<(Seq<char>, int)>, b: Seq<(Seq<char>, int)>, k: Seq<char>)
    ensures
        pair_sum(a + b, k) == pair_sum(a, k) + pair_sum(b, k),
    decreases b.len(),
{
    if b.len() > 0 {
        assert((a + b).drop_last() =~= a + b.drop_last());
        lemma_pair_sum_concat(a, b.drop_last(), k);
    } else {
        assert(a + b =~= a);
    }
}

/// The per-resource sums of quantities do not depend on the order in which the quantities
/// come: two sequences that hold the same pairs, counted with multiplicity, have equal sums.
pub proof fn lemma_pair_sum_order_free(a: Seq<(Seq<char>, int)>, b: Seq<(Seq<char>, int)>, k: Seq<char>)
    requires
        a.to_multiset() == b.to_multiset(),
    ensures
        pair_sum(a, k) == pair_sum(b, k),
    decreases a.len(),
{
    broadcast use vstd::seq_lib::group_to_multiset_ensures;
    if a.len() == 0 {
        assert(b.to_multiset().len() == 0);
        assert(b.len() == 0);
    } else {
        let x = a.last();
        let a1 = a.drop_last();
        assert(a1.push(x) =~= a);
        assert(a.to_multiset().count(x) > 0);
        assert(b.contains(x));
        let idx = choose|idx: int| 0 <= idx < b.len() && b[idx] == x;
        let b1 = b.remove(idx);
        assert(b1.to_multiset() =~= a1.to_multiset());
        lemma_pair_sum_order_free(a1, b1, k);
        assert(b =~= b.take(idx) + (seq![x] + b.skip(idx + 1)));
        assert(b1 =~= b.take(idx) + b.skip(idx + 1));
        lemma_pair_sum_concat(b.take(idx), seq![x] + b.skip(idx + 1), k);
        lemma_pair_sum_concat(seq![x], b.skip(idx + 1), k);
        lemma_pair_sum_concat(b.take(idx), b.skip(idx + 1), k);
        assert(seq![x].drop_last() =~= Seq::<(Seq<char>, int)>::empty());
        assert(pair_sum(Seq::<(Seq<char>, int)>::empty(), k) == 0);
        assert(pair_sum(seq![x], k) == if x.0 == k { x.1 } else { 0 });
        assert(a.drop_last() == a1);
        assert(pair_sum(a, k) == pair_sum(a1, k) + if x.0 == k { x.1 } else { 0 });
    }
}

proof fn lemma_tally_sum(m: Map<Seq<char>, int>, p: Seq<(Seq<char>, int)>, k: Seq<char>)
    ensures
        get0(tally(m, p), k) == get0(m, k) + pair_sum(p, k),
    decreases p.len(),
{
    if p.len() > 0 {
        lemma_tally_sum(m, p.drop_last(), k);
    }
}

pub open spec fn bound() -> int {
    2147483648
}

proof fn lemma_room_pairs_prefix(objs: Seq<RoomObject>, a: int, b: int)
    requires
        0 <= a <= b <= objs.len(),
    ensures
        room_pairs(objs.take(a)).len() <= room_pairs(objs.take(b)).len(),
    decreases b - a,
{
    if a < b {
        lemma_room_pairs_prefix(objs, a, b - 1);
        assert(objs.take(b).drop_last() == objs.take(b - 1));
    }
}

proof fn lemma_all_pairs_prefix<E>(replies: Seq<Result<RoomReply, E>>, a: int, b: int)
    requires
        0 <= a <= b,
    ensures
        all_pairs(replies, a).len() <= all_pairs(replies, b).len(),
    decreases b - a,
{
    if a < b {
        lemma_all_pairs_prefix(replies, a, b - 1);
    }
}

/// Adds what the objects `objs` of one room contribute to the shard at position `j`.
fn add_room(acc: &mut ShardTotals, j: usize, objs: &Vec<RoomObject>, Ghost(cnt): Ghost<int>)
    requires
        old(acc).wf(),
        j < old(acc)@.len(),
        0 <= cnt,
        cnt + room_pairs(objs@).len() <= 4294967295,
        forall|i: int, k: Seq<char>|
            0 <= i < old(acc)@.len() ==> -cnt * bound() <= #[trigger] get0(old(acc)@[i].1, k) <= cnt
                * bound(),
        forall|n: int, k: Seq<char>|
            0 <= n <= old(acc)@.len() ==> -cnt * bound() <= #[trigger] get0(grand(old(acc)@.take(n)), k)
                <= cnt * bound(),
    ensures
        final(acc).wf(),
        final(acc)@ == old(acc)@.update(
            j as int,
            (old(acc)@[j as int].0, tally(old(acc)@[j as int].1, room_pairs(objs@))),
        ),
        forall|i: int, k: Seq<char>|
            0 <= i < final(acc)@.len() ==> -(cnt + room_pairs(objs@).len()) * bound()
                <= #[trigger] get0(final(acc)@[i].1, k) <= (cnt + room_pairs(objs@).len()) * bound(),
        forall|n: int, k: Seq<char>|
            0 <= n <= final(acc)@.len() ==> -(cnt + room_pairs(objs@).len()) * bound()
                <= #[trigger] get0(grand(final(acc)@.take(n)), k) <= (cnt + room_pairs(objs@).len()) * bound(),
{
    let ghost a0 = acc@;
    let ghost name = a0[j as int].0;
    let ghost base = a0[j as int].1;
    let ghost total = room_pairs(objs@).len();
    let mut o: usize = 0;
    assert(objs@.take(0) =~= Seq::<RoomObject>::empty());
    assert(a0 =~= a0.update(j as int, (name, tally(base, room_pairs(objs@.take(0))))));
    while o < objs.len()
        invariant
            acc.wf(),
            o <= objs@.len(),
            a0.len() == acc@.len(),
            j < a0.len(),
            name == a0[j as int].0,
            base == a0[j as int].1,
            total == room_pairs(objs@).len(),
            cnt + total <= 4294967295,
            acc@ == a0.update(j as int, (name, tally(base, room_pairs(objs@.take(o as int))))),
            forall|i: int, k: Seq<char>|
                0 <= i < acc@.len() ==> -(cnt + room_pairs(objs@.take(o as int)).len()) * bound()
                    <= #[trigger] get0(acc@[i].1, k) <= (cnt + room_pairs(objs@.take(o as int)).len()) * bound(),
            forall|n: int, k: Seq<char>|
                0 <= n <= acc@.len() ==> -(cnt + room_pairs(objs@.take(o as int)).len()) * bound()
                    <= #[trigger] get0(grand(acc@.take(n)), k) <= (cnt + room_pairs(objs@.take(o as int)).len()) * bound(),
        decreases objs@.len() - o,
    {
        let obj = &objs[o];
        let ghost prev = room_pairs(objs@.take(o as int));
        let ghost gain = object_pairs(objs@[o as int]);
        proof {
            assert(objs@.take(o + 1).drop_last() =~= objs@.take(o as int));
            assert(room_pairs(objs@.take(o + 1)) == prev + gain);
            lemma_room_pairs_prefix(objs@, o + 1, objs@.len() as int);
            assert(objs@.take(objs@.len() as int) =~= objs@);
        }
        if obj.kind == ObjectKind::Storage || obj.kind == ObjectKind::Terminal || obj.kind
            == ObjectKind::Factory {
            let mut e: usize = 0;
            assert(prev + gain.take(0) =~= prev);
            while e < obj.store.len()
                invariant
                    acc.wf(),
                    e <= obj.store@.len(),
                    a0.len() == acc@.len(),
                    j < a0.len(),
                    gain == obj.store@.map_values(|x: StoreEntry| entry_pair(x)),
                    prev.len() + gain.len() <= total,
                    cnt + total <= 4294967295,
                    acc@ == a0.update(j as int, (name, tally(base, prev + gain.take(e as int)))),
                    forall|i: int, k: Seq<char>|
                        0 <= i < acc@.len() ==> -(cnt + prev.len() + e) * bound()
                            <= #[trigger] get0(acc@[i].1, k) <= (cnt + prev.len() + e) * bound(),
                    forall|n: int, k: Seq<char>|
                        0 <= n <= acc@.len() ==> -(cnt + prev.len() + e) * bound()
                            <= #[trigger] get0(grand(acc@.take(n)), k) <= (cnt + prev.len() + e) * bound(),
                decreases obj.store@.len() - e,
            {
                let entry = &obj.store[e];
                let amount: i64 = match entry.amount {
                    Some(a) => a as i64,
                    None => 0,
                };
                let ghost done = prev + gain.take(e as int);
                let ghost cur = get0(acc@[j as int].1, entry.resource@);
                proof {
                    assert(-(cnt + prev.len() + e) * bound() <= cur <= (cnt + prev.len() + e) * bound());
                    assert(cnt + prev.len() + e + 1 <= 4294967295);
                    assert(-(cnt + prev.len() + e + 1) * bound() <= cur + amount <= (cnt + prev.len() + e + 1) * bound());
                    assert((cnt + prev.len() + e + 1) * bound() <= 4294967295 * 2147483648) by (nonlinear_arith)
                        requires cnt + prev.len() + e + 1 <= 4294967295, bound() == 2147483648;
                }
                let ghost before = acc@;
                acc.add_at(j, &entry.resource, amount);
                proof {
                    assert(gain[e as int] == entry_pair(obj.store@[e as int]));
                    assert(prev + gain.take(e + 1) =~= done.push((entry.resource@, amount as int)));
                    assert(done.push((entry.resource@, amount as int)).drop_last() =~= done);
                    assert(acc@ =~= a0.update(j as int, (name, tally(base, prev + gain.take(e + 1)))));
                    assert forall|i: int, k: Seq<char>|
                        0 <= i < acc@.len() implies -(cnt + prev.len() + e + 1) * bound()
                            <= #[trigger] get0(acc@[i].1, k) <= (cnt + prev.len() + e + 1) * bound() by {
                        if i == j && k == entry.resource@ {
                        } else {
                            assert(get0(acc@[i].1, k) == get0(before[i].1, k));
                        }
                    }
                    let new_m = before[j as int].1.insert(entry.resource@, get0(before[j as int].1, entry.resource@) + amount);
                    assert(acc@ == before.update(j as int, (before[j as int].0, new_m)));
                    assert forall|n: int, k: Seq<char>|
                        0 <= n <= acc@.len() implies -(cnt + prev.len() + e + 1) * bound()
                            <= #[trigger] get0(grand(acc@.take(n)), k) <= (cnt + prev.len() + e + 1) * bound() by {
                        if n <= j {
                            assert(acc@.take(n) =~= before.take(n));
                        } else {
                            assert(acc@.take(n) =~= before.take(n).update(j as int, (before.take(n)[j as int].0, new_m)));
                            lemma_grand_update(before.take(n), j as int, new_m, k);
                        }
                    }
                }
                e = e + 1;
            }
            assert(gain.take(e as int) =~= gain);
        } else {
            assert(gain =~= Seq::<(Seq<char>, int)>::empty());
            assert(prev + gain =~= prev);
        }
        o = o + 1;
    }
    assert(objs@.take(objs@.len() as int) =~= objs@);
}

/// The shard filter that selects every shard.
pub open spec fn is_all(filter: Seq<char>) -> bool {
    filter == seq!['a', 'l', 'l']
}

pub open spec fn selected(shard: Seq<char>, filter: Seq<char>) -> bool {
    is_all(filter) || shard == filter
}

/// The `(room, shard)` targets of a room listing, shard after shard, kept where the filter
/// selects the shard.
pub open spec fn targets_spec(listing: Seq<(String, Vec<String>)>, filter: Seq<char>) -> Seq<
    (Seq<char>, Seq<char>),
>
    decreases listing.len(),
{
    if listing.len() == 0 {
        Seq::empty()
    } else {
        let last = listing.last();
        targets_spec(listing.drop_last(), filter) + if selected(last.0@, filter) {
            last.1@.map_values(|r: String| (r@, last.0@))
        } else {
            Seq::empty()
        }
    }
}

/// Whether some shard of the listing holds a room.
pub open spec fn has_rooms(listing: Seq<(String, Vec<String>)>) -> bool {
    exists|i: int| 0 <= i < listing.len() && (#[trigger] listing[i]).1@.len() > 0
}

pub open spec fn target_view(t: RoomShardRef) -> (Seq<char>, Seq<char>) {
    (t.room@, t.shard@)
}

proof fn lemma_targets_selected(listing: Seq<(String, Vec<String>)>, filter: Seq<char>)
    ensures
        forall|i: int| 0 <= i < targets_spec(listing, filter).len() ==> selected(
            (#[trigger] targets_spec(listing, filter)[i]).1,
            filter,
        ),
    decreases listing.len(),
{
    if listing.len() > 0 {
        lemma_targets_selected(listing.drop_last(), filter);
        let last = listing.last();
        let head = targets_spec(listing.drop_last(), filter);
        let tail = if selected(last.0@, filter) {
            last.1@.map_values(|r: String| (r@, last.0@))
        } else {
            Seq::empty()
        };
        let all = targets_spec(listing, filter);
        assert(all == head + tail);
        assert forall|i: int| 0 <= i < all.len() implies selected((#[trigger] all[i]).1, filter) by {
            if i < head.len() {
                assert(all[i] == head[i]);
            } else {
                assert(all[i] == tail[i - head.len()]);
            }
        }
    }
}

proof fn lemma_shards_from_targets<E>(
    targets: Seq<RoomShardRef>,
    replies: Seq<Result<RoomReply, E>>,
    n: int,
    s: Seq<char>,
)
    requires
        0 <= n <= targets.len(),
        shard_view(targets, replies, n).contains_key(s),
    ensures
        exists|i: int| 0 <= i < n && (#[trigger] targets[i]).shard@ == s,
    decreases n,
{
    if n > 0 {
        let prev = shard_view(targets, replies, n - 1);
        if prev.contains_key(s) {
            lemma_shards_from_targets(targets, replies, n - 1, s);
            let i = choose|i: int| 0 <= i < n - 1 && (#[trigger] targets[i]).shard@ == s;
            assert(0 <= i < n && targets[i].shard@ == s);
        } else {
            assert(targets[n - 1].shard@ == s);
        }
    }
}

/// The shard filter holds of the totals: when the targets are those that `room_targets`
/// selects for `filter`, every shard of the merged totals is one that the filter selects.
pub proof fn lemma_filter_respected<E>(
    listing: Seq<(String, Vec<String>)>,
    filter: Seq<char>,
    targets: Seq<RoomShardRef>,
    replies: Seq<Result<RoomReply, E>>,
    s: Seq<char>,
)
    requires
        targets.map_values(|t: RoomShardRef| target_view(t)) == targets_spec(listing, filter),
        shard_view(targets, replies, targets.len() as int).contains_key(s),
    ensures
        selected(s, filter),
{
    lemma_shards_from_targets(targets, replies, targets.len() as int, s);
    let i = choose|i: int| 0 <= i < targets.len() && (#[trigger] targets[i]).shard@ == s;
    lemma_targets_selected(listing, filter);
    assert(targets.map_values(|t: RoomShardRef| target_view(t))[i] == target_view(targets[i]));
}

/// The player lookup decides: a lookup that reports failure means no such player.
pub fn check_player<E>(ok: bool) -> (r: Result<(), AggregateError<E>>)
    ensures
        ok ==> r is Ok,
        !ok ==> r == Err::<(), AggregateError<E>>(AggregateError::PlayerNotFound),
{
    if ok {
        Ok(())
    } else {
        Err(AggregateError::PlayerNotFound)
    }
}

/// Builds the inventory targets from a room listing (shard name with its rooms) and a shard
/// filter: `all` selects every shard, any other text the shard of that name. A listing that
/// reports failure, or that holds no room at all, gives `NoRooms`.
pub fn room_targets<E>(ok: bool, listing: &Vec<(String, Vec<String>)>, target_shard: &String) -> (r:
    Result<Vec<RoomShardRef>, AggregateError<E>>)
    ensures
        r is Err <==> !ok || !has_rooms(listing@),
        r is Err ==> r == Err::<Vec<RoomShardRef>, AggregateError<E>>(AggregateError::NoRooms),
        r is Ok ==> r->Ok_0@.map_values(|t: RoomShardRef| target_view(t)) == targets_spec(
            listing@,
            target_shard@,
        ),
{
    if !ok {
        return Err(AggregateError::NoRooms);
    }
    let all = String::from_str("all");
    proof {
        reveal_strlit("all");
    }
    assert(all@ == seq!['a', 'l', 'l']);
    let every = *target_shard == all;
    let mut out: Vec<RoomShardRef> = Vec::new();
    let mut any = false;
    let mut i: usize = 0;
    assert(listing@.take(0) =~= Seq::<(String, Vec<String>)>::empty());
    while i < listing.len()
        invariant
            i <= listing@.len(),
            every == is_all(target_shard@),
            out@.map_values(|t: RoomShardRef| target_view(t)) == targets_spec(listing@.take(i as int), target_shard@),
            any <==> exists|x: int| 0 <= x < i && (#[trigger] listing@[x]).1@.len() > 0,
        decreases listing@.len() - i,
    {
        let shard = &listing[i].0;
        let rooms = &listing[i].1;
        if rooms.len() > 0 {
            any = true;
        }
        let ghost before = out@.map_values(|t: RoomShardRef| target_view(t));
        proof {
            assert(listing@.take(i + 1).drop_last() =~= listing@.take(i as int));
        }
        if every || *shard == *target_shard {
            let mut k: usize = 0;
            while k < rooms.len()
                invariant
                    k <= rooms@.len(),
                    out@.map_values(|t: RoomShardRef| target_view(t)) == before + rooms@.take(k as int).map_values(|r: String| (r@, shard@)),
                decreases rooms@.len() - k,
            {
                let t = RoomShardRef { room: rooms[k].clone(), shard: shard.clone() };
                let ghost o0 = out@;
                out.push(t);
                assert(out@ == o0.push(t));
                assert(target_view(t) == (rooms@[k as int]@, shard@));
                assert(rooms@.take(k + 1) =~= rooms@.take(k as int).push(rooms@[k as int]));
                assert(out@.map_values(|t: RoomShardRef| target_view(t)) =~= o0.map_values(|t: RoomShardRef| target_view(t)).push(target_view(t)));
                assert(out@.map_values(|t: RoomShardRef| target_view(t)) =~= before + rooms@.take(k + 1).map_values(|r: String| (r@, shard@)));
                k = k + 1;
            }
            assert(rooms@.take(rooms@.len() as int) =~= rooms@);
            assert(out@.map_values(|t: RoomShardRef| target_view(t)) =~= targets_spec(listing@.take(i + 1), target_shard@));
        } else {
            assert(out@.map_values(|t: RoomShardRef| target_view(t)) =~= targets_spec(listing@.take(i + 1), target_shard@));
        }
        i = i + 1;
    }
    assert(listing@.take(listing@.len() as int) =~= listing@);
    if !any {
        return Err(AggregateError::NoRooms);
    }
    Ok(out)
}

/// Merges the inventory replies, one per target in the same order, into per-shard totals.
///
/// A reply that failed in transport aborts the merge with the first such error. A
/// transported reply that reports failure is skipped. Of a successful reply the storage,
/// terminal and factory inventories are added to the totals of the target's shard, a missing
/// quantity counting as 0; a shard appears once one of its replies succeeded.
pub fn aggregate<E>(targets: &Vec<RoomShardRef>, replies: Vec<Result<RoomReply, E>>) -> (r: Result<
    ShardTotals,
    AggregateError<E>,
>)
    requires
        targets@.len() == replies@.len(),
        all_pairs(replies@, replies@.len() as int).len() <= 4294967295,
    ensures
        r is Err <==> exists|i: int| 0 <= i < replies@.len() && (#[trigger] replies@[i]) is Err,
        r is Err ==> exists|i: int|
            0 <= i < replies@.len() && (#[trigger] replies@[i]) is Err && (forall|j: int|
                0 <= j < i ==> (#[trigger] replies@[j]) is Ok) && r->Err_0
                == AggregateError::RoomFetchTransport(replies@[i]->Err_0),
        r is Ok ==> r->Ok_0.wf() && matches_map(
            r->Ok_0@,
            shard_view(targets@, replies@, replies@.len() as int),
        ),
        r is Ok ==> sums_fit(r->Ok_0@),
        r is Ok ==> forall|k: Seq<char>| #[trigger] get0(grand(r->Ok_0@), k) == pair_sum(
            all_pairs(replies@, replies@.len() as int),
            k,
        ),
{
    let n = replies.len();
    let mut i: usize = 0;
    while i < n
        invariant
            n == replies@.len(),
            i <= n,
            forall|j: int| 0 <= j < i ==> (#[trigger] replies@[j]) is Ok,
        decreases n - i,
    {
        if replies[i].is_err() {
            let mut rest = replies;
            let failed = rest.remove(i);
            match failed {
                Err(e) => {
                    return Err(AggregateError::RoomFetchTransport(e));
                },
                Ok(_) => {
                    return unreached();
                },
            }
        }
        i = i + 1;
    }
    let mut acc = ShardTotals::new();
    let mut i: usize = 0;
    while i < n
        invariant
            n == replies@.len(),
            n == targets@.len(),
            i <= n,
            forall|j: int| 0 <= j < n ==> (#[trigger] replies@[j]) is Ok,
            all_pairs(replies@, n as int).len() <= 4294967295,
            acc.wf(),
            matches_map(acc@, shard_view(targets@, replies@, i as int)),
            forall|k: Seq<char>| #[trigger] get0(grand(acc@), k) == pair_sum(all_pairs(replies@, i as int), k),
            forall|x: int, k: Seq<char>|
                0 <= x < acc@.len() ==> -all_pairs(replies@, i as int).len() * bound()
                    <= #[trigger] get0(acc@[x].1, k) <= all_pairs(replies@, i as int).len() * bound(),
            forall|m: int, k: Seq<char>|
                0 <= m <= acc@.len() ==> -all_pairs(replies@, i as int).len() * bound()
                    <= #[trigger] get0(grand(acc@.take(m)), k) <= all_pairs(replies@, i as int).len() * bound(),
        decreases n - i,
    {
        assert(replies@[i as int] is Ok);
        if let Ok(rep) = &replies[i] {
            if rep.ok {
                let shard = &targets[i].shard;
                let ghost prev = shard_view(targets@, replies@, i as int);
                let ghost a0 = acc@;
                let j = match acc.index_of(shard) {
                    Some(j) => j,
                    None => {
                        acc.push_shard(shard);
                        assert forall|k: Seq<char>| #[trigger] get0(grand(acc@), k) == pair_sum(all_pairs(replies@, i as int), k) by {
                            assert(acc@.drop_last() =~= a0);
                            assert(get0(grand(acc@), k) == get0(grand(a0), k) + get0(Map::<Seq<char>, int>::empty(), k));
                        }
                        assert forall|m: int, k: Seq<char>|
                            0 <= m <= acc@.len() implies -all_pairs(replies@, i as int).len() * bound()
                                <= #[trigger] get0(grand(acc@.take(m)), k) <= all_pairs(replies@, i as int).len() * bound() by {
                            if m < acc@.len() {
                                assert(acc@.take(m) =~= a0.take(m));
                            } else {
                                assert(acc@.take(m) =~= acc@);
                                assert(a0.take(a0.len() as int) =~= a0);
                                assert(acc@.drop_last() =~= a0);
                                assert(get0(grand(acc@), k) == get0(grand(a0), k) + get0(Map::<Seq<char>, int>::empty(), k));
                            }
                        }
                        assert(!prev.contains_key(shard@)) by {
                            if prev.contains_key(shard@) {
                                let x = choose|x: int| 0 <= x < a0.len() && (#[trigger] a0[x]).0 == shard@;
                            }
                        }
                        acc.len() - 1
                    },
                };
                let ghost a1 = acc@;
                let ghost base = if prev.contains_key(shard@) { prev[shard@] } else { Map::<Seq<char>, int>::empty() };
                assert(a1[j as int] == (shard@, base));
                proof {
                    lemma_all_pairs_prefix(replies@, i + 1, n as int);
                }
                add_room(&mut acc, j, &rep.objects, Ghost(all_pairs(replies@, i as int).len() as int));
                proof {
                    let next = shard_view(targets@, replies@, i + 1);
                    acc.lemma_names_distinct();
                    let rp = room_pairs(rep.objects@);
                    assert forall|k: Seq<char>| #[trigger] get0(grand(acc@), k) == pair_sum(all_pairs(replies@, i + 1), k) by {
                        lemma_grand_update(a1, j as int, tally(base, rp), k);
                        lemma_tally_sum(base, rp, k);
                        lemma_pair_sum_concat(all_pairs(replies@, i as int), rp, k);
                        assert(a1.update(j as int, (a1[j as int].0, tally(base, rp))) == acc@);
                    }
                    assert(next == prev.insert(shard@, tally(base, room_pairs(rep.objects@))));
                    assert forall|x: int| 0 <= x < acc@.len() implies next.contains_key((#[trigger] acc@[x]).0)
                        && next[acc@[x].0] == acc@[x].1 by {
                        if x != j {
                            assert(acc@[x] == a1[x]);
                            assert(acc@[x].0 != acc@[j as int].0);
                            assert(x < a0.len());
                            assert(a1[x] == a0[x]);
                        }
                    }
                    assert forall|k: Seq<char>| #[trigger] next.contains_key(k) implies exists|x: int|
                        0 <= x < acc@.len() && (#[trigger] acc@[x]).0 == k by {
                        if k == shard@ {
                            assert(acc@[j as int].0 == k);
                        } else {
                            let x = choose|x: int| 0 <= x < a0.len() && (#[trigger] a0[x]).0 == k;
                            assert(acc@[x].0 == k);
                        }
                    }
                }
            }
        }
        i = i + 1;
    }
    proof {
        assert(all_pairs(replies@, n as int).len() * bound() <= i64::MAX) by (nonlinear_arith)
            requires all_pairs(replies@, n as int).len() <= 4294967295, bound() == 2147483648;
        assert forall|m: int, k: Seq<char>| 0 <= m <= acc@.len() implies fits_i64(#[trigger] get0(grand(acc@.take(m)), k)) by {
            assert(-all_pairs(replies@, n as int).len() * bound() <= get0(grand(acc@.take(m)), k));
        }
    }
    Ok(acc)
}

} // verus!
