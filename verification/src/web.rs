//! Layout of the upgrade web: how many prerequisite steps each upgrade sits
//! below the root upgrade, Tower Damage.

use vstd::prelude::*;
use crate::upgrades::{
    UpgradeState, UpgradeId, Prereq, UPGRADE_COUNT, def_index, def_id_at, def_prereqs, upgrade_def, lemma_def_index,
    lemma_def_id_at, lemma_def_bounds,
};

verus! {

/// The deepest depth, in `d` (indexed by table position), among the
/// upgrades `ps` names.
pub open spec fn prereq_depth(d: Seq<usize>, ps: Seq<Prereq>) -> int
    decreases ps.len(),
{
    if ps.len() == 0 {
        0
    } else {
        let rest = prereq_depth(d, ps.drop_last());
        let last = d[def_index(ps.last().id)] as int;
        if rest >= last {
            rest
        } else {
            last
        }
    }
}

/// The depth rule: the root sits at depth 0, an upgrade without
/// prerequisites at 1, any other one a step below its deepest prerequisite.
pub open spec fn depth_rule(d: Seq<usize>, id: UpgradeId) -> bool {
    d[def_index(id)] == if id == UpgradeId::TowerDamage1 {
        0
    } else if def_prereqs(id).len() == 0 {
        1
    } else {
        prereq_depth(d, def_prereqs(id)) + 1
    }
}

/// Depth of every upgrade, worked out from the prerequisite table.
spec fn web_rank(id: UpgradeId) -> nat {
    match id {
        UpgradeId::TowerDamage1 => 0,
        UpgradeId::HealthStart => 1,
        UpgradeId::VampiricHealing => 2,
        UpgradeId::LifeRegen => 2,
        UpgradeId::FireRate => 1,
        UpgradeId::CritChance => 2,
        UpgradeId::CritDamage => 3,
        UpgradeId::ProjectileSpeed => 2,
        UpgradeId::MiningSpeed => 1,
        UpgradeId::ResourceRecovery => 2,
        UpgradeId::GoldTileChance => 2,
        UpgradeId::GoldTileReward => 3,
        UpgradeId::StartingGold => 2,
        UpgradeId::MiningCrit => 4,
        UpgradeId::KillBounty => 4,
        UpgradeId::BoostColdUnlock => 2,
        UpgradeId::BoostColdFrequency => 3,
        UpgradeId::BoostColdSlowAmount => 3,
        UpgradeId::BoostColdSlowDuration => 4,
        UpgradeId::BoostColdRange => 3,
        UpgradeId::BoostPoisonUnlock => 3,
        UpgradeId::BoostPoisonFrequency => 4,
        UpgradeId::BoostPoisonDamage => 4,
        UpgradeId::BoostPoisonDuration => 5,
        UpgradeId::BoostPoisonRange => 4,
        UpgradeId::BoostFireUnlock => 2,
        UpgradeId::BoostFireFrequency => 3,
        UpgradeId::BoostFireDamage => 3,
        UpgradeId::BoostFireDuration => 4,
        UpgradeId::BoostFireSpread => 4,
        UpgradeId::BoostFireRange => 3,
        UpgradeId::BoostHealingUnlock => 2,
        UpgradeId::BoostHealingFrequency => 3,
        UpgradeId::BoostHealingPower => 3,
        UpgradeId::PlayAreaSize => 2,
        UpgradeId::SplashRadius => 1,
    }
}
/// The depths by table position.
spec fn rank_seq() -> Seq<usize> {
    Seq::new(UPGRADE_COUNT as nat, |k: int| web_rank(def_id_at(k)) as usize)
}

/// With one prerequisite, the deepest prerequisite is that one.
proof fn lemma_prereq_depth_single(d: Seq<usize>, ps: Seq<Prereq>)
    requires
        ps.len() == 1,
    ensures
        prereq_depth(d, ps) == d[def_index(ps[0].id)] as int,
{
    assert(ps.drop_last().len() == 0);
    assert(prereq_depth(d, ps.drop_last()) == 0);
    assert(ps.last() == ps[0]);
}

/// The table's depths follow the depth rule.
proof fn lemma_rank_rule(id: UpgradeId)
    ensures
        depth_rule(rank_seq(), id),
        rank_seq()[def_index(id)] == web_rank(id),
        rank_seq()[def_index(id)] <= 5,
        forall|q: int| 0 <= q < def_prereqs(id).len() ==> web_rank(#[trigger] def_prereqs(id)[q].id) < web_rank(id),
{
    lemma_def_index(id);
    lemma_def_bounds(id);
    let ps = def_prereqs(id);
    if ps.len() == 1 {
        lemma_prereq_depth_single(rank_seq(), ps);
        lemma_def_index(ps[0].id);
    }
}

/// Number of entries not worked out yet.
spec fn open_count(s: Seq<Option<usize>>) -> nat
    decreases s.len(),
{
    if s.len() == 0 {
        0
    } else {
        open_count(s.drop_last()) + if s.last() is None { 1nat } else { 0nat }
    }
}

/// Working out entry `k` leaves one entry fewer open.
proof fn lemma_open_count_set(s: Seq<Option<usize>>, k: int, v: usize)
    requires
        0 <= k < s.len(),
        s[k] is None,
    ensures
        open_count(s.update(k, Some(v))) + 1 == open_count(s),
    decreases s.len(),
{
    let t = s.update(k, Some(v));
    if k < s.len() - 1 {
        assert(t.drop_last() =~= s.drop_last().update(k, Some(v)));
        lemma_open_count_set(s.drop_last(), k, v);
    } else {
        assert(t.drop_last() =~= s.drop_last());
    }
}

/// Entries worked out agree with the table's depths.
spec fn settled(s: Seq<Option<usize>>) -> bool {
    &&& s.len() == UPGRADE_COUNT
    &&& forall|k: int| 0 <= k < UPGRADE_COUNT ==> (#[trigger] s[k] matches Some(v) ==> v == rank_seq()[k])
}

/// Entry `k` is open and waits on an open prerequisite.
spec fn blocked(s: Seq<Option<usize>>, k: int) -> bool {
    exists|q: int|
        0 <= q < def_prereqs(def_id_at(k)).len() && #[trigger] s[def_index(def_prereqs(def_id_at(k))[q].id)] is None
}

/// When every open entry waits on an open prerequisite and the root is
/// worked out, no entry is open.
proof fn lemma_none_open(s: Seq<Option<usize>>, r: nat)
    requires
        settled(s),
        s[0] is Some,
        forall|k: int| 0 < k < UPGRADE_COUNT && #[trigger] s[k] is None ==> blocked(s, k),
    ensures
        forall|k: int| 0 <= k < UPGRADE_COUNT && web_rank(def_id_at(k)) <= r ==> #[trigger] s[k] is Some,
    decreases r,
{
    if r > 0 {
        lemma_none_open(s, (r - 1) as nat);
    }
    assert forall|k: int| 0 <= k < UPGRADE_COUNT && web_rank(def_id_at(k)) <= r implies #[trigger] s[k] is Some by {
        if s[k] is None {
            lemma_def_id_at(k);
            let id = def_id_at(k);
            if k == 0 {
            } else {
                assert(blocked(s, k));
                let q = choose|q: int|
                    0 <= q < def_prereqs(id).len() && #[trigger] s[def_index(def_prereqs(id)[q].id)] is None;
                let p = def_prereqs(id)[q].id;
                lemma_rank_rule(id);
                lemma_def_index(p);
                assert(web_rank(p) < web_rank(id));
                assert(def_id_at(def_index(p)) == p);
            }
        }
    }
}

/// How deep each upgrade sits in the upgrade web, by table position: the
/// root at 0, an upgrade without prerequisites at 1, any other one a step
/// below its deepest prerequisite. Depths are settled by sweeping the table
/// until a sweep changes nothing; an upgrade whose prerequisites never
/// settle would be placed at depth 2.
pub fn compute_depths() -> (r: Vec<usize>)
    ensures
        r@.len() == UPGRADE_COUNT,
        forall|id: UpgradeId| #[trigger] depth_rule(r@, id),
{
    let mut depth: Vec<Option<usize>> = Vec::new();
    let mut k: usize = 0;
    while k < UPGRADE_COUNT
        invariant
            k <= UPGRADE_COUNT,
            depth@.len() == k,
            forall|j: int| 0 <= j < k ==> #[trigger] depth@[j] is None,
        decreases UPGRADE_COUNT - k,
    {
        depth.push(None);
        k += 1;
    }
    proof {
        lemma_rank_rule(UpgradeId::TowerDamage1);
    }
    depth.set(0, Some(0));
    let mut changed = true;
    while changed
        invariant
            settled(depth@),
            depth@[0] is Some,
            !changed ==> forall|j: int| 0 < j < UPGRADE_COUNT && #[trigger] depth@[j] is None ==> blocked(depth@, j),
        decreases open_count(depth@) + if changed { 1nat } else { 0nat },
    {
        changed = false;
        let ghost start = depth@;
        let mut k: usize = 1;
        while k < UPGRADE_COUNT
            invariant
                1 <= k <= UPGRADE_COUNT,
                settled(depth@),
                depth@[0] is Some,
                open_count(depth@) <= open_count(start),
                changed ==> open_count(depth@) < open_count(start),
                !changed ==> depth@ == start,
                !changed ==> forall|j: int| 0 < j < k && #[trigger] depth@[j] is None ==> blocked(depth@, j),
            decreases UPGRADE_COUNT - k,
        {
            let id = UpgradeId::at_def_index(k);
            let def = upgrade_def(id);
            proof {
                lemma_def_id_at(k as int);
                lemma_rank_rule(id);
            }
            let ps = &def.prerequisites;
            let n = ps.len();
            let mut ok = true;
            let mut maxd: usize = 0;
            let mut i: usize = 0;
            while i < n && ok
                invariant
                    i <= n,
                    n == def_prereqs(id).len(),
                    ps@ == def_prereqs(id),
                    settled(depth@),
                    maxd <= 5,
                    ok ==> maxd == prereq_depth(rank_seq(), ps@.take(i as int)),
                    !ok ==> exists|q: int| 0 <= q < n && #[trigger] depth@[def_index(ps@[q].id)] is None,
                decreases n - i,
            {
                let p = ps[i];
                proof {
                    lemma_def_index(p.id);
                    lemma_rank_rule(p.id);
                    assert(ps@.take(i + 1).drop_last() =~= ps@.take(i as int));
                    assert(ps@.take(i + 1).last() == p);
                }
                match depth[p.id.def_index()] {
                    Some(pd) => {
                        if pd > maxd {
                            maxd = pd;
                        }
                    },
                    None => {
                        ok = false;
                    },
                }
                i += 1;
            }
            let d: Option<usize> = if n == 0 {
                Some(1)
            } else if ok {
                proof {
                    assert(ps@.take(n as int) =~= ps@);
                }
                Some(maxd + 1)
            } else {
                None
            };
            proof {
                if let Some(v) = d {
                    assert(v == rank_seq()[k as int]);
                } else {
                    let q = choose|q: int| 0 <= q < n && #[trigger] depth@[def_index(ps@[q].id)] is None;
                    assert(depth@[def_index(def_prereqs(def_id_at(k as int))[q].id)] is None);
                    assert(blocked(depth@, k as int));
                }
            }
            if let Some(v) = d {
                match depth[k] {
                    Some(cur) => {
                        if cur != v {
                            changed = true;
                        }
                        proof {
                            assert(depth@.update(k as int, Some(v)) =~= depth@);
                        }
                    },
                    None => {
                        changed = true;
                        proof {
                            lemma_open_count_set(depth@, k as int, v);
                        }
                    },
                }
                depth.set(k, Some(v));
            }
            k += 1;
        }
    }
    proof {
        lemma_none_open(depth@, 5);
        assert forall|j: int| 0 <= j < UPGRADE_COUNT implies #[trigger] depth@[j] is Some by {
            lemma_def_id_at(j);
            lemma_rank_rule(def_id_at(j));
        }
    }
    let mut r: Vec<usize> = Vec::new();
    let mut k: usize = 0;
    while k < UPGRADE_COUNT
        invariant
            k <= UPGRADE_COUNT,
            settled(depth@),
            forall|j: int| 0 <= j < UPGRADE_COUNT ==> #[trigger] depth@[j] is Some,
            r@.len() == k,
            forall|j: int| 0 <= j < k ==> #[trigger] r@[j] == rank_seq()[j],
        decreases UPGRADE_COUNT - k,
    {
        let v = match depth[k] {
            Some(v) => v,
            None => 2,
        };
        r.push(v);
        k += 1;
    }
    proof {
        assert(r@ =~= rank_seq());
        assert forall|id: UpgradeId| #[trigger] depth_rule(r@, id) by {
            lemma_rank_rule(id);
        }
    }
    r
}

/// The depth of an upgrade in a table of depths by table position.
pub fn depth_of(depths: &Vec<usize>, id: UpgradeId) -> (r: usize)
    requires
        depths@.len() == UPGRADE_COUNT,
    ensures
        r == depths@[def_index(id)],
{
    proof {
        lemma_def_index(id);
    }
    depths[id.def_index()]
}

/// Whether upgrade `id` should show in the web, given which upgrades show
/// (`v`, by table position): the root always does; any other upgrade does
/// when each of its prerequisites is bought to the level asked and shows
/// itself, so the web grows outwards from the root.
pub open spec fn shows(ups: UpgradeState, v: Seq<bool>, id: UpgradeId) -> bool {
    id == UpgradeId::TowerDamage1 || forall|q: int|
        0 <= q < def_prereqs(id).len() ==> ups.level_of(#[trigger] def_prereqs(id)[q].id) >= def_prereqs(id)[q].level
            && v[def_index(def_prereqs(id)[q].id)]
}

/// The visibility rule holds for `id` in `v`.
pub open spec fn visibility_rule(ups: UpgradeState, v: Seq<bool>, id: UpgradeId) -> bool {
    v[def_index(id)] == shows(ups, v, id)
}

/// Which upgrades show in the web, by table position: the root always, and
/// any other upgrade once its prerequisites are bought to the level asked and
/// show themselves. Sweeps of the table settle one more depth each.
pub fn visible_upgrades(ups: &UpgradeState) -> (r: Vec<bool>)
    ensures
        r@.len() == UPGRADE_COUNT,
        forall|id: UpgradeId| #[trigger] visibility_rule(*ups, r@, id),
{
    let mut v: Vec<bool> = Vec::new();
    let mut k: usize = 0;
    while k < UPGRADE_COUNT
        invariant
            k <= UPGRADE_COUNT,
            v@.len() == k,
        decreases UPGRADE_COUNT - k,
    {
        v.push(false);
        k += 1;
    }
    let mut s: usize = 0;
    while s < 6
        invariant
            s <= 6,
            v@.len() == UPGRADE_COUNT,
            forall|j: int| 0 <= j < UPGRADE_COUNT && web_rank(def_id_at(j)) < s ==> #[trigger] visibility_rule(*ups, v@, def_id_at(j)),
        decreases 6 - s,
    {
        let mut nv: Vec<bool> = Vec::new();
        let mut k: usize = 0;
        while k < UPGRADE_COUNT
            invariant
                k <= UPGRADE_COUNT,
                v@.len() == UPGRADE_COUNT,
                nv@.len() == k,
                forall|j: int| 0 <= j < k ==> #[trigger] nv@[j] == shows(*ups, v@, def_id_at(j)),
            decreases UPGRADE_COUNT - k,
        {
            let id = UpgradeId::at_def_index(k);
            let def = upgrade_def(id);
            let ps = &def.prerequisites;
            let mut ok = true;
            let mut i: usize = 0;
            while i < ps.len()
                invariant
                    i <= ps@.len(),
                    ps@ == def_prereqs(id),
                    v@.len() == UPGRADE_COUNT,
                    ok == forall|q: int|
                        0 <= q < i ==> ups.level_of(#[trigger] def_prereqs(id)[q].id) >= def_prereqs(id)[q].level
                            && v@[def_index(def_prereqs(id)[q].id)],
                decreases ps@.len() - i,
            {
                let p = ps[i];
                proof {
                    lemma_def_index(p.id);
                }
                let met = ups.level(p.id) >= p.level && v[p.id.def_index()];
                proof {
                    assert(p == def_prereqs(id)[i as int]);
                }
                ok = ok && met;
                i += 1;
            }
            let val = (k == 0) || ok;
            proof {
                lemma_def_id_at(k as int);
                assert(def_id_at(0) == UpgradeId::TowerDamage1);
                assert((k == 0) == (id == UpgradeId::TowerDamage1)) by {
                    lemma_def_index(UpgradeId::TowerDamage1);
                }
            }
            nv.push(val);
            k += 1;
        }
        proof {
            assert forall|j: int| 0 <= j < UPGRADE_COUNT && web_rank(def_id_at(j)) < s + 1 implies #[trigger] visibility_rule(
                *ups,
                nv@,
                def_id_at(j),
            ) by {
                let id = def_id_at(j);
                lemma_def_id_at(j);
                lemma_rank_rule(id);
                assert forall|q: int| 0 <= q < def_prereqs(id).len() implies nv@[def_index(
                    #[trigger] def_prereqs(id)[q].id,
                )] == v@[def_index(def_prereqs(id)[q].id)] by {
                    let p = def_prereqs(id)[q].id;
                    lemma_def_index(p);
                    assert(def_id_at(def_index(p)) == p);
                    assert(visibility_rule(*ups, v@, def_id_at(def_index(p))));
                }
                assert(shows(*ups, nv@, id) == shows(*ups, v@, id));
            }
        }
        v = nv;
        s += 1;
    }
    proof {
        assert forall|id: UpgradeId| #[trigger] visibility_rule(*ups, v@, id) by {
            lemma_def_index(id);
            lemma_rank_rule(id);
            assert(visibility_rule(*ups, v@, def_id_at(def_index(id))));
        }
    }
    v
}

/// Visibilities that agree on every upgrade up to depth `r`.
proof fn lemma_visibility_agree(ups: UpgradeState, v: Seq<bool>, w: Seq<bool>, r: nat)
    requires
        v.len() == UPGRADE_COUNT,
        w.len() == UPGRADE_COUNT,
        forall|id: UpgradeId| #[trigger] visibility_rule(ups, v, id),
        forall|id: UpgradeId| #[trigger] visibility_rule(ups, w, id),
    ensures
        forall|j: int| 0 <= j < UPGRADE_COUNT && web_rank(def_id_at(j)) <= r ==> #[trigger] v[j] == w[j],
    decreases r,
{
    if r > 0 {
        lemma_visibility_agree(ups, v, w, (r - 1) as nat);
    }
    assert forall|j: int| 0 <= j < UPGRADE_COUNT && web_rank(def_id_at(j)) <= r implies #[trigger] v[j] == w[j] by {
        let id = def_id_at(j);
        lemma_def_id_at(j);
        lemma_rank_rule(id);
        assert(visibility_rule(ups, v, id) && visibility_rule(ups, w, id));
        assert forall|q: int| 0 <= q < def_prereqs(id).len() implies v[def_index(
            #[trigger] def_prereqs(id)[q].id,
        )] == w[def_index(def_prereqs(id)[q].id)] by {
            let p = def_prereqs(id)[q].id;
            lemma_def_index(p);
        }
        assert(shows(ups, v, id) == shows(ups, w, id));
    }
}

/// The visibility rule settles which upgrades show: two tables that both
/// follow it are the same, so `visible_upgrades` gives the only answer.
pub proof fn law_visibility_unique(ups: UpgradeState, v: Seq<bool>, w: Seq<bool>)
    requires
        v.len() == UPGRADE_COUNT,
        w.len() == UPGRADE_COUNT,
        forall|id: UpgradeId| #[trigger] visibility_rule(ups, v, id),
        forall|id: UpgradeId| #[trigger] visibility_rule(ups, w, id),
    ensures
        v == w,
{
    lemma_visibility_agree(ups, v, w, 5);
    assert forall|j: int| 0 <= j < UPGRADE_COUNT implies v[j] == w[j] by {
        lemma_def_id_at(j);
        lemma_rank_rule(def_id_at(j));
        lemma_def_index(def_id_at(j));
    }
    assert(v =~= w);
}

/// `id` is a prerequisite of `x`.
pub open spec fn is_prereq_of(id: UpgradeId, x: UpgradeId) -> bool {
    exists|q: int| 0 <= q < def_prereqs(x).len() && #[trigger] def_prereqs(x)[q].id == id
}

/// The rule for the upgrades at or above `h` (`a`, by table position): `h`
/// itself and every prerequisite of an upgrade marked.
pub open spec fn above_rule(h: UpgradeId, a: Seq<bool>, id: UpgradeId) -> bool {
    a[def_index(id)] == (id == h || exists|x: UpgradeId| #[trigger] is_prereq_of(id, x) && a[def_index(x)])
}

/// The rule for the upgrades at or below `h` (`d`, by table position): `h`
/// itself and every upgrade with a prerequisite marked.
pub open spec fn below_rule(h: UpgradeId, d: Seq<bool>, id: UpgradeId) -> bool {
    d[def_index(id)] == (id == h || exists|q: int|
        0 <= q < def_prereqs(id).len() && d[def_index(#[trigger] def_prereqs(id)[q].id)])
}

/// Table position of the first prerequisite of the upgrade at position
/// `k`, or -1 when it has none.
#[verifier::opaque]
spec fn parent_pos(k: int) -> int {
    let id = def_id_at(k);
    if def_prereqs(id).len() > 0 {
        def_index(def_prereqs(id)[0].id)
    } else {
        -1
    }
}

/// An upgrade has at most one prerequisite, found at `parent_pos`.
proof fn lemma_parent_pos(x: UpgradeId)
    ensures
        -1 <= parent_pos(def_index(x)) < UPGRADE_COUNT,
        parent_pos(def_index(x)) == -1 <==> def_prereqs(x).len() == 0,
        forall|id: UpgradeId| #[trigger] is_prereq_of(id, x) <==> parent_pos(def_index(x)) == def_index(id),
{
    reveal(parent_pos);
    lemma_def_index(x);
    lemma_def_bounds(x);
    if def_prereqs(x).len() == 1 {
        let p = def_prereqs(x)[0].id;
        lemma_def_index(p);
        assert forall|id: UpgradeId| #[trigger] is_prereq_of(id, x) <==> parent_pos(def_index(x)) == def_index(id) by {
            lemma_def_index(id);
            if parent_pos(def_index(x)) == def_index(id) {
                assert(def_prereqs(x)[0].id == id);
            }
        }
    }
}

/// `c` walks up, by table position, from `h` through the prerequisite of
/// each upgrade.
spec fn chain_up(h: UpgradeId, c: Seq<int>) -> bool {
    &&& c.len() >= 1
    &&& c[0] == def_index(h)
    &&& forall|i: int| 0 <= i < c.len() ==> 0 <= #[trigger] c[i] < UPGRADE_COUNT
    &&& forall|i: int| 0 <= i < c.len() - 1 ==> c[i + 1] == parent_pos(#[trigger] c[i])
}

/// `a` marks exactly the positions on `c`.
spec fn marks_chain(a: Seq<bool>, c: Seq<int>) -> bool {
    &&& a.len() == UPGRADE_COUNT
    &&& forall|j: int| 0 <= j < UPGRADE_COUNT ==> (#[trigger] a[j] <==> exists|i: int| 0 <= i < c.len() && #[trigger] c[i] == j)
}

/// Marking a full chain up from `h` follows the rule for upgrades above `h`.
proof fn lemma_chain_above(h: UpgradeId, c: Seq<int>, a: Seq<bool>, id: UpgradeId)
    requires
        chain_up(h, c),
        parent_pos(c.last()) == -1,
        marks_chain(a, c),
    ensures
        above_rule(h, a, id),
{
    lemma_def_index(id);
    lemma_def_index(h);
    if a[def_index(id)] {
        let i = choose|i: int| 0 <= i < c.len() && #[trigger] c[i] == def_index(id);
        if i > 0 {
            let k = c[i - 1];
            let x = def_id_at(k);
            lemma_def_id_at(k);
            lemma_parent_pos(x);
            assert(is_prereq_of(id, x));
            assert(a[def_index(x)]);
        }
    } else if id != h {
        if exists|x: UpgradeId| #[trigger] is_prereq_of(id, x) && a[def_index(x)] {
            let x = choose|x: UpgradeId| #[trigger] is_prereq_of(id, x) && a[def_index(x)];
            lemma_def_index(x);
            lemma_parent_pos(x);
            let i = choose|i: int| 0 <= i < c.len() && #[trigger] c[i] == def_index(x);
            if i < c.len() - 1 {
                assert(c[i + 1] == def_index(id));
            }
        }
    }
}

/// The upgrades at or above `h` in the web, by table position: `h` and its
/// prerequisites, theirs, and so on up to the root.
pub fn upgrades_above(h: UpgradeId) -> (r: Vec<bool>)
    ensures
        r@.len() == UPGRADE_COUNT,
        forall|id: UpgradeId| #[trigger] above_rule(h, r@, id),
{
    let mut a: Vec<bool> = Vec::new();
    let mut k: usize = 0;
    while k < UPGRADE_COUNT
        invariant
            k <= UPGRADE_COUNT,
            a@.len() == k,
            forall|j: int| 0 <= j < k ==> !#[trigger] a@[j],
        decreases UPGRADE_COUNT - k,
    {
        a.push(false);
        k += 1;
    }
    proof {
        lemma_def_index(h);
    }
    let hk = h.def_index();
    a.set(hk, true);
    let ghost mut c: Seq<int> = seq![hk as int];
    let mut cur = h;
    proof {
        assert forall|j: int| 0 <= j < UPGRADE_COUNT implies (#[trigger] a@[j] <==> exists|i: int|
            0 <= i < c.len() && #[trigger] c[i] == j) by {
            if a@[j] {
                assert(c[0] == j);
            }
        }
    }
    loop
        invariant
            chain_up(h, c),
            c.last() == def_index(cur),
            marks_chain(a@, c),
        ensures
            chain_up(h, c),
            marks_chain(a@, c),
            parent_pos(c.last()) == -1,
        decreases web_rank(cur),
    {
        let def = upgrade_def(cur);
        proof {
            lemma_parent_pos(cur);
            lemma_def_bounds(cur);
        }
        if def.prerequisites.len() == 0 {
            break;
        }
        let p = def.prerequisites[0].id;
        proof {
            lemma_def_index(p);
            lemma_rank_rule(cur);
            assert(def_prereqs(cur)[0].id == p);
            assert(is_prereq_of(p, cur));
            assert(web_rank(p) < web_rank(cur));
        }
        let pk = p.def_index();
        let ghost before = a@;
        let ghost c0 = c;
        a.set(pk, true);
        proof {
            c = c.push(pk as int);
            assert forall|i: int| 0 <= i < c.len() - 1 implies c[i + 1] == parent_pos(#[trigger] c[i]) by {
                if i < c0.len() - 1 {
                    assert(c[i] == c0[i] && c[i + 1] == c0[i + 1]);
                }
            }
            assert forall|i: int| 0 <= i < c.len() implies 0 <= #[trigger] c[i] < UPGRADE_COUNT by {
                if i < c0.len() {
                    assert(c[i] == c0[i]);
                }
            }
            assert forall|j: int| 0 <= j < UPGRADE_COUNT implies (#[trigger] a@[j] <==> exists|i: int|
                0 <= i < c.len() && #[trigger] c[i] == j) by {
                if j == pk {
                    assert(c[c0.len() as int] == j);
                } else {
                    assert(a@[j] == before[j]);
                    if before[j] {
                        let i = choose|i: int| 0 <= i < c0.len() && #[trigger] c0[i] == j;
                        assert(c[i] == j);
                    }
                    if exists|i: int| 0 <= i < c.len() && #[trigger] c[i] == j {
                        let i = choose|i: int| 0 <= i < c.len() && #[trigger] c[i] == j;
                        assert(c0[i] == j);
                    }
                }
            }
        }
        cur = p;
    }
    proof {
        assert forall|id: UpgradeId| #[trigger] above_rule(h, a@, id) by {
            lemma_chain_above(h, c, a@, id);
        }
    }
    a
}

/// The upgrades at or below `h` in the web, by table position: `h` and the
/// upgrades that need it, those that need them, and so on. Sweeps of the
/// table settle one more depth each.
pub fn upgrades_below(h: UpgradeId) -> (r: Vec<bool>)
    ensures
        r@.len() == UPGRADE_COUNT,
        forall|id: UpgradeId| #[trigger] below_rule(h, r@, id),
{
    let mut d: Vec<bool> = Vec::new();
    let mut k: usize = 0;
    while k < UPGRADE_COUNT
        invariant
            k <= UPGRADE_COUNT,
            d@.len() == k,
        decreases UPGRADE_COUNT - k,
    {
        d.push(false);
        k += 1;
    }
    let mut s: usize = 0;
    while s < 6
        invariant
            s <= 6,
            d@.len() == UPGRADE_COUNT,
            forall|j: int| 0 <= j < UPGRADE_COUNT && web_rank(def_id_at(j)) < s ==> #[trigger] below_rule(h, d@, def_id_at(j)),
        decreases 6 - s,
    {
        let mut nd: Vec<bool> = Vec::new();
        let mut k: usize = 0;
        while k < UPGRADE_COUNT
            invariant
                k <= UPGRADE_COUNT,
                d@.len() == UPGRADE_COUNT,
                nd@.len() == k,
                forall|j: int| 0 <= j < k ==> #[trigger] nd@[j] == (def_id_at(j) == h || exists|q: int|
                    0 <= q < def_prereqs(def_id_at(j)).len() && d@[def_index(#[trigger] def_prereqs(def_id_at(j))[q].id)]),
            decreases UPGRADE_COUNT - k,
        {
            let id = UpgradeId::at_def_index(k);
            let def = upgrade_def(id);
            let ps = &def.prerequisites;
            let mut any = false;
            let mut i: usize = 0;
            while i < ps.len()
                invariant
                    i <= ps@.len(),
                    ps@ == def_prereqs(id),
                    d@.len() == UPGRADE_COUNT,
                    any == exists|q: int| 0 <= q < i && d@[def_index(#[trigger] def_prereqs(id)[q].id)],
                decreases ps@.len() - i,
            {
                let p = ps[i];
                proof {
                    lemma_def_index(p.id);
                    assert(p == def_prereqs(id)[i as int]);
                }
                let m = d[p.id.def_index()];
                proof {
                    if m {
                        assert(d@[def_index(def_prereqs(id)[i as int].id)]);
                    }
                    if any {
                        let q0 = choose|q: int| 0 <= q < i && d@[def_index(#[trigger] def_prereqs(id)[q].id)];
                        assert(0 <= q0 < i + 1 && d@[def_index(def_prereqs(id)[q0].id)]);
                    }
                }
                any = any || m;
                i += 1;
            }
            let val = id == h || any;
            nd.push(val);
            k += 1;
        }
        proof {
            assert forall|j: int| 0 <= j < UPGRADE_COUNT && web_rank(def_id_at(j)) < s + 1 implies #[trigger] below_rule(
                h,
                nd@,
                def_id_at(j),
            ) by {
                let id = def_id_at(j);
                lemma_def_id_at(j);
                lemma_rank_rule(id);
                assert forall|q: int| 0 <= q < def_prereqs(id).len() implies nd@[def_index(
                    #[trigger] def_prereqs(id)[q].id,
                )] == d@[def_index(def_prereqs(id)[q].id)] by {
                    let p = def_prereqs(id)[q].id;
                    lemma_def_index(p);
                    assert(below_rule(h, d@, def_id_at(def_index(p))));
                }
            }
        }
        d = nd;
        s += 1;
    }
    proof {
        assert forall|id: UpgradeId| #[trigger] below_rule(h, d@, id) by {
            lemma_def_index(id);
            lemma_rank_rule(id);
            assert(below_rule(h, d@, def_id_at(def_index(id))));
        }
    }
    d
}

} // verus!
