use vstd::prelude::*;

verus! {

/// The quantity that `m` records for `k`, or 0 where it records none.
pub open spec fn get0(m: Map<Seq<char>, int>, k: Seq<char>) -> int {
    if m.contains_key(k) { m[k] } else { 0 }
}

pub open spec fn fits_i64(v: int) -> bool {
    i64::MIN <= v <= i64::MAX
}

/// Every key of `g` or of `m`, with the two quantities added.
pub open spec fn add_map(g: Map<Seq<char>, int>, m: Map<Seq<char>, int>) -> Map<Seq<char>, int> {
    Map::new(|k: Seq<char>| g.contains_key(k) || m.contains_key(k), |k: Seq<char>| get0(g, k) + get0(m, k))
}

/// Whether the two quantities for `k` add up to a value in the range of `i64`.
pub open spec fn sum_fits(g: Map<Seq<char>, int>, m: Map<Seq<char>, int>, k: Seq<char>) -> bool {
    fits_i64(get0(g, k) + get0(m, k))
}

/// Quantities per resource identifier; each identifier appears once.
pub struct ResourceTotals {
    entries: Vec<(String, i64)>,
    model: Ghost<Map<Seq<char>, int>>,
}

impl View for ResourceTotals {
    type V = Map<Seq<char>, int>;

    closed spec fn view(&self) -> Map<Seq<char>, int> {
        self.model@
    }
}

impl ResourceTotals {
    pub closed spec fn wf(&self) -> bool {
        &&& forall|i: int, j: int|
            0 <= i < j < self.entries@.len() ==> (#[trigger] self.entries@[i]).0@ != (
            #[trigger] self.entries@[j]).0@
        &&& forall|i: int|
            0 <= i < self.entries@.len() ==> self.model@.contains_key(
                (#[trigger] self.entries@[i]).0@,
            ) && self.model@[self.entries@[i].0@] == self.entries@[i].1 as int
        &&& forall|k: Seq<char>|
            #[trigger] self.model@.contains_key(k) ==> exists|i: int|
                0 <= i < self.entries@.len() && (#[trigger] self.entries@[i]).0@ == k
    }

    /// Totals with no resource recorded.
    pub fn new() -> (r: ResourceTotals)
        ensures
            r.wf(),
            r@ == Map::<Seq<char>, int>::empty(),
    {
        ResourceTotals { entries: Vec::new(), model: Ghost(Map::empty()) }
    }

    proof fn lemma_values_fit(&self)
        requires
            self.wf(),
        ensures
            forall|k: Seq<char>| #[trigger] self@.contains_key(k) ==> fits_i64(self@[k]),
    {
        assert forall|k: Seq<char>| #[trigger] self@.contains_key(k) implies fits_i64(self@[k]) by {
            let i = choose|i: int| 0 <= i < self.entries@.len() && (#[trigger] self.entries@[i]).0@ == k;
            assert(self.model@[self.entries@[i].0@] == self.entries@[i].1 as int);
        }
    }

    fn find(&self, name: &String) -> (r: Option<usize>)
        requires
            self.wf(),
        ensures
            r is None ==> !self@.contains_key(name@),
            r is Some ==> r->Some_0 < self.entries@.len() && self.entries@[r->Some_0 as int].0@
                == name@,
    {
        let mut i: usize = 0;
        while i < self.entries.len()
            invariant
                i <= self.entries@.len(),
                forall|j: int| 0 <= j < i ==> (#[trigger] self.entries@[j]).0@ != name@,
            decreases self.entries@.len() - i,
        {
            if self.entries[i].0 == *name {
                return Some(i);
            }
            i = i + 1;
        }
        None
    }

    /// The quantity recorded for `name`, 0 where none is.
    pub fn get(&self, name: &String) -> (r: i64)
        requires
            self.wf(),
        ensures
            r as int == get0(self@, name@),
    {
        match self.find(name) {
            Some(i) => self.entries[i].1,
            None => 0,
        }
    }

    /// Whether a quantity is recorded for `name`.
    pub fn contains(&self, name: &String) -> (r: bool)
        requires
            self.wf(),
        ensures
            r == self@.contains_key(name@),
    {
        self.find(name).is_some()
    }

    /// The number of resources recorded.
    pub fn len(&self) -> (r: usize)
        requires
            self.wf(),
        ensures
            r == self@.len(),
    {
        proof {
            self.lemma_len();
        }
        self.entries.len()
    }

    proof fn lemma_len(&self)
        requires
            self.wf(),
        ensures
            self@.len() == self.entries@.len(),
            self@.dom().finite(),
    {
        let keys = self.entries@.map_values(|e: (String, i64)| e.0@);
        assert(keys.no_duplicates()) by {
            assert forall|i: int, j: int| 0 <= i < keys.len() && 0 <= j < keys.len() && i != j
                implies keys[i] != keys[j] by {
                if i < j {
                    assert(self.entries@[i].0@ != self.entries@[j].0@);
                } else {
                    assert(self.entries@[j].0@ != self.entries@[i].0@);
                }
            }
        }
        assert(self@.dom() =~= keys.to_set()) by {
            assert forall|k: Seq<char>| self@.dom().contains(k) implies keys.to_set().contains(k) by {
                let i = choose|i: int| 0 <= i < self.entries@.len() && (#[trigger] self.entries@[i]).0@ == k;
                assert(keys[i] == k);
            }
            assert forall|k: Seq<char>| keys.to_set().contains(k) implies self@.dom().contains(k) by {
                let i = choose|i: int| 0 <= i < keys.len() && keys[i] == k;
                assert(self.entries@[i].0@ == k);
            }
        }
        keys.unique_seq_to_set();
    }

    /// Adds `amount` to the quantity recorded for `name`, recording it if it was absent.
    pub fn add(&mut self, name: &String, amount: i64)
        requires
            old(self).wf(),
            fits_i64(get0(old(self)@, name@) + amount),
        ensures
            final(self).wf(),
            final(self)@ == old(self)@.insert(name@, get0(old(self)@, name@) + amount),
    {
        let ghost m0 = self@;
        match self.find(name) {
            Some(i) => {
                let v = self.entries[i].1 + amount;
                let key = self.entries[i].0.clone();
                self.entries.set(i, (key, v));
                self.model = Ghost(m0.insert(name@, v as int));
                assert forall|k: Seq<char>| #[trigger] self.model@.contains_key(k) implies exists|j: int|
                    0 <= j < self.entries@.len() && (#[trigger] self.entries@[j]).0@ == k by {
                    if k != name@ {
                        let j = choose|j: int| 0 <= j < old(self).entries@.len() && (#[trigger] old(self).entries@[j]).0@ == k;
                        assert(self.entries@[j].0@ == k);
                    } else {
                        assert(self.entries@[i as int].0@ == k);
                    }
                }
            },
            None => {
                let key = name.clone();
                self.entries.push((key, amount));
                self.model = Ghost(m0.insert(name@, amount as int));
                let n = self.entries.len() - 1;
                assert forall|k: Seq<char>| #[trigger] self.model@.contains_key(k) implies exists|j: int|
                    0 <= j < self.entries@.len() && (#[trigger] self.entries@[j]).0@ == k by {
                    if k != name@ {
                        let j = choose|j: int| 0 <= j < old(self).entries@.len() && (#[trigger] old(self).entries@[j]).0@ == k;
                        assert(self.entries@[j].0@ == k);
                    } else {
                        assert(self.entries@[n as int].0@ == k);
                    }
                }
            },
        }
    }

    /// Adds every quantity of `other` into these totals; returns false, with these totals
    /// partly changed, where some sum leaves the range of `i64`.
    fn try_add_all(&mut self, other: &ResourceTotals) -> (r: bool)
        requires
            old(self).wf(),
            other.wf(),
        ensures
            final(self).wf(),
            r ==> final(self)@ == add_map(old(self)@, other@),
            r <==> forall|k: Seq<char>| #[trigger] sum_fits(old(self)@, other@, k),
    {
        let ghost m0 = self@;
        let mut e: usize = 0;
        while e < other.entries.len()
            invariant
                self.wf(),
                other.wf(),
                old(self)@ == m0,
                e <= other.entries@.len(),
                self@ == add_map(m0, Map::new(
                    |k: Seq<char>| exists|i: int| 0 <= i < e && (#[trigger] other.entries@[i]).0@ == k,
                    |k: Seq<char>| other@[k],
                )),
                forall|i: int| 0 <= i < e ==> #[trigger] fits_i64(get0(m0, other.entries@[i].0@) + get0(other@, other.entries@[i].0@)),
            decreases other.entries@.len() - e,
        {
            let ghost part = Map::new(
                |k: Seq<char>| exists|i: int| 0 <= i < e && (#[trigger] other.entries@[i]).0@ == k,
                |k: Seq<char>| other@[k],
            );
            let name = &other.entries[e].0;
            let v = other.entries[e].1;
            assert(!part.contains_key(name@)) by {
                if part.contains_key(name@) {
                    let i = choose|i: int| 0 <= i < e && (#[trigger] other.entries@[i]).0@ == name@;
                    assert(other.entries@[i].0@ != other.entries@[e as int].0@);
                }
            }
            let cur = self.get(name);
            assert(cur == get0(m0, name@));
            match cur.checked_add(v) {
                Some(_) => {
                    self.add(name, v);
                    let ghost part2 = Map::new(
                        |k: Seq<char>| exists|i: int| 0 <= i < e + 1 && (#[trigger] other.entries@[i]).0@ == k,
                        |k: Seq<char>| other@[k],
                    );
                    assert(part2 =~= part.insert(name@, other@[name@])) by {
                        assert forall|k: Seq<char>| part2.contains_key(k) implies #[trigger] part.insert(name@, other@[name@]).contains_key(k) by {
                            let i = choose|i: int| 0 <= i < e + 1 && (#[trigger] other.entries@[i]).0@ == k;
                            if i < e {
                                assert(part.contains_key(k));
                            }
                        }
                        assert forall|k: Seq<char>| #[trigger] part.contains_key(k) implies part2.contains_key(k) by {
                            let i = choose|i: int| 0 <= i < e && (#[trigger] other.entries@[i]).0@ == k;
                            assert(0 <= i < e + 1 && other.entries@[i].0@ == k);
                        }
                        assert(other.entries@[e as int].0@ == name@);
                    }
                    assert(self@ =~= add_map(m0, part2));
                    e = e + 1;
                },
                None => {
                    assert(other@.contains_key(name@) && other@[name@] == v as int);
                    assert(!sum_fits(m0, other@, name@));
                    return false;
                },
            }
        }
        let ghost part = Map::new(
            |k: Seq<char>| exists|i: int| 0 <= i < e && (#[trigger] other.entries@[i]).0@ == k,
            |k: Seq<char>| other@[k],
        );
        assert(part =~= other@) by {
            assert forall|k: Seq<char>| #[trigger] other@.contains_key(k) implies part.contains_key(k) by {
                let i = choose|i: int| 0 <= i < other.entries@.len() && (#[trigger] other.entries@[i]).0@ == k;
            }
        }
        assert forall|k: Seq<char>| #[trigger] sum_fits(m0, other@, k) by {
            if other@.contains_key(k) {
                let i = choose|i: int| 0 <= i < other.entries@.len() && (#[trigger] other.entries@[i]).0@ == k;
                assert(fits_i64(get0(m0, other.entries@[i].0@) + get0(other@, other.entries@[i].0@)));
            } else {
                if m0.contains_key(k) {
                    old(self).lemma_values_fit();
                }
            }
        }
        true
    }

    /// The recorded pairs of resource identifier and quantity, in no particular order.
    pub fn entries(&self) -> (r: &Vec<(String, i64)>)
        requires
            self.wf(),
        ensures
            forall|i: int| 0 <= i < r@.len() ==> self@.contains_key((#[trigger] r@[i]).0@)
                && self@[r@[i].0@] == r@[i].1 as int,
            forall|k: Seq<char>| #[trigger] self@.contains_key(k) ==> exists|i: int|
                0 <= i < r@.len() && (#[trigger] r@[i]).0@ == k,
            forall|i: int, j: int| 0 <= i < j < r@.len() ==> (#[trigger] r@[i]).0@ != (#[trigger] r@[j]).0@,
    {
        &self.entries
    }
}

/// Sum, per resource, of the per-shard quantities in `s`; a shard without a resource adds 0.
pub open spec fn grand(s: Seq<(Seq<char>, Map<Seq<char>, int>)>) -> Map<Seq<char>, int>
    decreases s.len(),
{
    if s.len() == 0 {
        Map::empty()
    } else {
        add_map(grand(s.drop_last()), s.last().1)
    }
}

/// Every running sum that `grand` forms, shard after shard, lies in the range of `i64`.
pub open spec fn sums_fit(s: Seq<(Seq<char>, Map<Seq<char>, int>)>) -> bool {
    forall|n: int, k: Seq<char>| 0 <= n <= s.len() ==> fits_i64(#[trigger] get0(grand(s.take(n)), k))
}

/// Merging collapsed totals once more, as one shard beside a shard that holds nothing, gives
/// the same totals back, and no running sum of that merge leaves the range of `i64`.
pub proof fn lemma_merge_idempotent(g: Map<Seq<char>, int>, s1: Seq<char>, s2: Seq<char>)
    requires
        forall|k: Seq<char>| #[trigger] g.contains_key(k) ==> fits_i64(g[k]),
    ensures
        grand(seq![(s1, g), (s2, Map::<Seq<char>, int>::empty())]) == g,
        sums_fit(seq![(s1, g), (s2, Map::<Seq<char>, int>::empty())]),
{
    let s = seq![(s1, g), (s2, Map::<Seq<char>, int>::empty())];
    assert(s.drop_last() =~= seq![(s1, g)]);
    assert(seq![(s1, g)].drop_last() =~= Seq::<(Seq<char>, Map<Seq<char>, int>)>::empty());
    assert(grand(Seq::<(Seq<char>, Map<Seq<char>, int>)>::empty()) == Map::<Seq<char>, int>::empty());
    assert(seq![(s1, g)].last() == (s1, g));
    assert(grand(seq![(s1, g)]) == add_map(Map::<Seq<char>, int>::empty(), g));
    assert(grand(seq![(s1, g)]) =~= g);
    assert(grand(s) =~= g);
    assert forall|n: int, k: Seq<char>| 0 <= n <= s.len() implies fits_i64(#[trigger] get0(grand(s.take(n)), k)) by {
        if n == 0 {
            assert(s.take(0) =~= Seq::<(Seq<char>, Map<Seq<char>, int>)>::empty());
        } else if n == 1 {
            assert(s.take(1) =~= seq![(s1, g)]);
        } else {
            assert(s.take(2) =~= s);
        }
    }
}

/// Replacing the totals of one shard changes every grand total by the difference.
pub proof fn lemma_grand_update(
    s: Seq<(Seq<char>, Map<Seq<char>, int>)>,
    j: int,
    m: Map<Seq<char>, int>,
    k: Seq<char>,
)
    requires
        0 <= j < s.len(),
    ensures
        get0(grand(s.update(j, (s[j].0, m))), k) == get0(grand(s), k) - get0(s[j].1, k) + get0(m, k),
    decreases s.len(),
{
    let t = s.update(j, (s[j].0, m));
    if j < s.len() - 1 {
        assert(t.drop_last() =~= s.drop_last().update(j, (s[j].0, m)));
        lemma_grand_update(s.drop_last(), j, m, k);
    } else {
        assert(t.drop_last() =~= s.drop_last());
    }
}

/// Whether the sequence of shard entries `s`, with distinct shard names, holds exactly the
/// shards of `m` with their totals.
pub open spec fn matches_map(
    s: Seq<(Seq<char>, Map<Seq<char>, int>)>,
    m: Map<Seq<char>, Map<Seq<char>, int>>,
) -> bool {
    &&& forall|i: int| 0 <= i < s.len() ==> m.contains_key((#[trigger] s[i]).0) && m[s[i].0] == s[i].1
    &&& forall|k: Seq<char>| #[trigger] m.contains_key(k) ==> exists|i: int| 0 <= i < s.len() && (#[trigger] s[i]).0 == k
}

/// Totals per shard name; each shard appears once.
pub struct ShardTotals {
    shards: Vec<(String, ResourceTotals)>,
}

impl View for ShardTotals {
    type V = Seq<(Seq<char>, Map<Seq<char>, int>)>;

    closed spec fn view(&self) -> Seq<(Seq<char>, Map<Seq<char>, int>)> {
        self.shards@.map_values(|p: (String, ResourceTotals)| (p.0@, p.1@))
    }
}

impl ShardTotals {
    pub closed spec fn wf(&self) -> bool {
        &&& forall|i: int, j: int|
            0 <= i < j < self.shards@.len() ==> (#[trigger] self.shards@[i]).0@ != (
            #[trigger] self.shards@[j]).0@
        &&& forall|i: int| 0 <= i < self.shards@.len() ==> (#[trigger] self.shards@[i]).1.wf()
    }

    /// Shard names are distinct.
    pub proof fn lemma_names_distinct(&self)
        requires
            self.wf(),
        ensures
            forall|i: int, j: int| 0 <= i < self@.len() && 0 <= j < self@.len() && i != j ==> (
            #[trigger] self@[i]).0 != (#[trigger] self@[j]).0,
    {
        assert forall|i: int, j: int| 0 <= i < self@.len() && 0 <= j < self@.len() && i != j implies (
            #[trigger] self@[i]).0 != (#[trigger] self@[j]).0 by {
            if i < j {
                assert(self.shards@[i].0@ != self.shards@[j].0@);
            } else {
                assert(self.shards@[j].0@ != self.shards@[i].0@);
            }
        }
    }

    /// Totals with no shard.
    pub fn new() -> (r: ShardTotals)
        ensures
            r.wf(),
            r@ == Seq::<(Seq<char>, Map<Seq<char>, int>)>::empty(),
    {
        ShardTotals { shards: Vec::new() }
    }

    /// The number of shards.
    pub fn len(&self) -> (r: usize)
        ensures
            r == self@.len(),
    {
        self.shards.len()
    }

    /// The position of `shard`, if it is present.
    pub fn index_of(&self, shard: &String) -> (r: Option<usize>)
        requires
            self.wf(),
        ensures
            r is None ==> forall|i: int| 0 <= i < self@.len() ==> (#[trigger] self@[i]).0 != shard@,
            r is Some ==> r->Some_0 < self@.len() && self@[r->Some_0 as int].0 == shard@,
    {
        let mut i: usize = 0;
        while i < self.shards.len()
            invariant
                i <= self@.len(),
                self@.len() == self.shards@.len(),
                forall|j: int| 0 <= j < i ==> (#[trigger] self@[j]).0 != shard@,
            decreases self.shards@.len() - i,
        {
            if self.shards[i].0 == *shard {
                return Some(i);
            }
            i = i + 1;
        }
        None
    }

    /// The totals of the shard at position `i`, with its name.
    pub fn at(&self, i: usize) -> (r: &(String, ResourceTotals))
        requires
            self.wf(),
            i < self@.len(),
        ensures
            r.1.wf(),
            r.0@ == self@[i as int].0,
            r.1@ == self@[i as int].1,
    {
        &self.shards[i]
    }

    /// The totals recorded for `shard`, if it is present.
    pub fn get(&self, shard: &String) -> (r: Option<&ResourceTotals>)
        requires
            self.wf(),
        ensures
            r is None ==> forall|i: int| 0 <= i < self@.len() ==> (#[trigger] self@[i]).0 != shard@,
            r is Some ==> r->Some_0.wf() && exists|i: int| 0 <= i < self@.len() && (#[trigger] self@[i]) == (shard@, r->Some_0@),
    {
        match self.index_of(shard) {
            Some(i) => {
                let t = &self.shards[i].1;
                assert(self@[i as int] == (shard@, t@));
                Some(t)
            },
            None => None,
        }
    }

    /// Appends `shard` with empty totals; it must not be present yet.
    pub fn push_shard(&mut self, shard: &String)
        requires
            old(self).wf(),
            forall|i: int| 0 <= i < old(self)@.len() ==> (#[trigger] old(self)@[i]).0 != shard@,
        ensures
            final(self).wf(),
            final(self)@ == old(self)@.push((shard@, Map::<Seq<char>, int>::empty())),
    {
        let name = shard.clone();
        self.shards.push((name, ResourceTotals::new()));
        assert(self@ =~= old(self)@.push((shard@, Map::<Seq<char>, int>::empty())));
        assert forall|i: int, j: int|
            0 <= i < j < self.shards@.len() implies (#[trigger] self.shards@[i]).0@ != (
            #[trigger] self.shards@[j]).0@ by {
            if j == self.shards@.len() - 1 {
                assert(old(self)@[i].0 != shard@);
            }
        }
    }

    /// Adds `amount` to the quantity of `name` in the shard at position `i`.
    pub fn add_at(&mut self, i: usize, name: &String, amount: i64)
        requires
            old(self).wf(),
            i < old(self)@.len(),
            fits_i64(get0(old(self)@[i as int].1, name@) + amount),
        ensures
            final(self).wf(),
            final(self)@ == old(self)@.update(
                i as int,
                (
                    old(self)@[i as int].0,
                    old(self)@[i as int].1.insert(name@, get0(old(self)@[i as int].1, name@) + amount),
                ),
            ),
    {
        let mut entry = self.shards.remove(i);
        entry.1.add(name, amount);
        self.shards.insert(i, entry);
        assert(self.shards@ =~= old(self).shards@.update(i as int, entry));
        assert(self@ =~= old(self)@.update(
            i as int,
            (
                old(self)@[i as int].0,
                old(self)@[i as int].1.insert(name@, get0(old(self)@[i as int].1, name@) + amount),
            ),
        ));
    }
}

/// Collapses per-shard totals into one total per resource, summed over the shards.
/// Returns `None` exactly when a running sum leaves the range of `i64`.
pub fn merge_res(res_map: &ShardTotals) -> (r: Option<ResourceTotals>)
    requires
        res_map.wf(),
    ensures
        r is Some <==> sums_fit(res_map@),
        r is Some ==> r->Some_0.wf() && r->Some_0@ == grand(res_map@),
{
    let ghost s = res_map@;
    let mut acc = ResourceTotals::new();
    let mut j: usize = 0;
    assert(s.take(0) =~= Seq::<(Seq<char>, Map<Seq<char>, int>)>::empty());
    while j < res_map.len()
        invariant
            res_map.wf(),
            s == res_map@,
            j <= s.len(),
            acc.wf(),
            acc@ == grand(s.take(j as int)),
            forall|n: int, k: Seq<char>| 0 <= n <= j ==> fits_i64(#[trigger] get0(grand(s.take(n)), k)),
        decreases s.len() - j,
    {
        let entry = res_map.at(j);
        assert(s.take(j + 1).drop_last() =~= s.take(j as int));
        assert(s.take(j + 1).last() == s[j as int]);
        let ghost before = acc@;
        let ok = acc.try_add_all(&entry.1);
        if !ok {
            proof {
                let k = choose|k: Seq<char>| !#[trigger] sum_fits(before, s[j as int].1, k);
                assert(get0(grand(s.take(j + 1)), k) == get0(before, k) + get0(s[j as int].1, k));
                assert(!fits_i64(get0(grand(s.take(j + 1)), k)));
            }
            return None;
        }
        proof {
            assert forall|n: int, k: Seq<char>| 0 <= n <= j + 1 implies fits_i64(#[trigger] get0(grand(s.take(n)), k)) by {
                if n == j + 1 {
                    assert(sum_fits(before, s[j as int].1, k));
                }
            }
        }
        j = j + 1;
    }
    assert(s.take(s.len() as int) =~= s);
    Some(acc)
}

} // verus!
