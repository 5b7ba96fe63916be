//! Loading notes from disk: their display order, and how a reload merges the
//! files read with the notes already open.

use vstd::prelude::*;

verus! {

/// What a note is ordered by: its creation time, then its id.
#[derive(Debug, Clone, Copy, PartialEq, Eq, Structural)]
pub struct CreationKey {
    /// Seconds of the creation time since the Unix epoch.
    pub secs: i64,
    /// Nanoseconds past `secs`.
    pub nanos: u32,
    /// The note's UUID as a big-endian integer, which orders as `Uuid` does.
    pub id: u128,
}

/// `a` comes strictly before `b`: created earlier, or at the same time with a
/// smaller id.
pub open spec fn key_lt(a: CreationKey, b: CreationKey) -> bool {
    ||| a.secs < b.secs
    ||| (a.secs == b.secs && a.nanos < b.nanos)
    ||| (a.secs == b.secs && a.nanos == b.nanos && a.id < b.id)
}

/// Note `a` is placed before note `b`: by key, and by position for equal
/// keys, as a stable sort leaves them.
pub open spec fn placed_before(keys: Seq<CreationKey>, a: int, b: int) -> bool {
    key_lt(keys[a], keys[b]) || (keys[a] == keys[b] && a < b)
}

/// `order` lists every position of `keys` once, sorted by creation.
pub open spec fn is_creation_order(keys: Seq<CreationKey>, order: Seq<usize>) -> bool {
    &&& order.len() == keys.len()
    &&& forall|k: int| 0 <= k < order.len() ==> order[k] < keys.len()
    &&& forall|a: int, b: int|
        0 <= a < b < order.len() ==> placed_before(keys, #[trigger] order[a] as int, #[trigger] order[b] as int)
}

fn key_less(a: &CreationKey, b: &CreationKey) -> (r: bool)
    ensures
        r == key_lt(*a, *b),
{
    a.secs < b.secs || (a.secs == b.secs && a.nanos < b.nanos) || (a.secs == b.secs && a.nanos
        == b.nanos && a.id < b.id)
}

/// The positions of `keys` in display order: sorted by creation time, then
/// id, notes with equal keys keeping their order (a stable sort).
pub fn creation_order(keys: &Vec<CreationKey>) -> (order: Vec<usize>)
    ensures
        is_creation_order(keys@, order@),
{
    let mut order: Vec<usize> = Vec::new();
    let mut i: usize = 0;
    while i < keys.len()
        invariant
            i <= keys.len(),
            order.len() == i,
            forall|k: int| 0 <= k < order.len() ==> order@[k] < i,
            forall|a: int, b: int|
                0 <= a < b < order.len() ==> placed_before(keys@, #[trigger] order@[a] as int, #[trigger] order@[b] as int),
        decreases keys.len() - i,
    {
        let mut pos: usize = 0;
        while pos < order.len() && !key_less(&keys[i], &keys[order[pos]])
            invariant
                pos <= order.len(),
                order.len() == i,
                i < keys.len(),
                forall|k: int| 0 <= k < order.len() ==> order@[k] < i,
                forall|h: int| 0 <= h < pos ==> !key_lt(keys@[i as int], keys@[#[trigger] order@[h] as int]),
            decreases order.len() - pos,
        {
            pos += 1;
        }
        let ghost before = order@;
        order.insert(pos, i);
        proof {
            assert forall|a: int, b: int|
                0 <= a < b < order.len() implies placed_before(keys@, #[trigger] order@[a] as int, #[trigger] order@[b] as int) by {
                if b == pos {
                    assert(order@[a] == before[a]);
                } else if a == pos {
                    assert(order@[b] == before[b - 1]);
                    let first = before[pos as int] as int;
                    assert(key_lt(keys@[i as int], keys@[first]));
                    if b - 1 > pos {
                        assert(placed_before(keys@, first, before[b - 1] as int));
                    }
                } else {
                    let oa = if a < pos { a } else { a - 1 };
                    let ob = if b < pos { b } else { b - 1 };
                    assert(order@[a] == before[oa]);
                    assert(order@[b] == before[ob]);
                }
            }
        }
        i += 1;
    }
    order
}

/// Two creation orders of the same keys are the same list: the display order
/// is fully determined by the keys.
pub proof fn lemma_creation_order_unique(keys: Seq<CreationKey>, o1: Seq<usize>, o2: Seq<usize>)
    requires
        keys.len() <= usize::MAX,
        is_creation_order(keys, o1),
        is_creation_order(keys, o2),
    ensures
        o1 == o2,
{
    lemma_order_distinct(keys, o1);
    lemma_order_distinct(keys, o2);
    assert forall|k: int| 0 <= k < o1.len() implies o1[k] == o2[k] by {
        lemma_rank(keys, o1, k);
        lemma_rank(keys, o2, k);
        // Both hold the position that exactly k others are placed before.
        if o1[k] != o2[k] {
            let x = o1[k] as int;
            let y = o2[k] as int;
            lemma_placed_total(keys, x, y);
            if placed_before(keys, x, y) {
                lemma_count_mono(keys, x, y);
            } else {
                lemma_count_mono(keys, y, x);
            }
        }
    }
    assert(o1 =~= o2);
}

/// How many positions are placed before `x`.
pub open spec fn rank_of(keys: Seq<CreationKey>, x: int) -> nat {
    Set::new(|y: int| 0 <= y < keys.len() && placed_before(keys, y, x)).len()
}

proof fn lemma_placed_total(keys: Seq<CreationKey>, x: int, y: int)
    requires
        0 <= x < keys.len(),
        0 <= y < keys.len(),
        x != y,
    ensures
        placed_before(keys, x, y) || placed_before(keys, y, x),
{
}

proof fn lemma_order_distinct(keys: Seq<CreationKey>, o: Seq<usize>)
    requires
        is_creation_order(keys, o),
    ensures
        forall|a: int, b: int| 0 <= a < b < o.len() ==> o[a] != o[b],
{
    assert forall|a: int, b: int| 0 <= a < b < o.len() implies o[a] != o[b] by {
        assert(placed_before(keys, o[a] as int, o[b] as int));
    }
}

proof fn lemma_rank(keys: Seq<CreationKey>, o: Seq<usize>, k: int)
    requires
        keys.len() <= usize::MAX,
        is_creation_order(keys, o),
        0 <= k < o.len(),
    ensures
        rank_of(keys, o[k] as int) == k,
{
    lemma_order_distinct(keys, o);
    let x = o[k] as int;
    let s = Set::new(|y: int| 0 <= y < keys.len() && placed_before(keys, y, x));
    let t = Set::new(|y: int| exists|j: int| 0 <= j < k && #[trigger] o[j] as int == y);
    // Every position appears in o (o has no repeats and as many entries as keys).
    lemma_order_covers(keys, o);
    assert forall|y: int| s.contains(y) <==> t.contains(y) by {
        if s.contains(y) {
            assert(o.contains(y as usize));
            let j = choose|j: int| 0 <= j < o.len() && o[j] == y as usize;
            if j >= k {
                if j == k {
                    assert(!placed_before(keys, x, x));
                } else {
                    assert(placed_before(keys, o[k] as int, o[j] as int));
                }
            }
            assert(j < k);
            assert(o[j] as int == y);
            assert(t.contains(y));
        }
        if t.contains(y) {
            let j = choose|j: int| 0 <= j < k && o[j] as int == y;
            assert(placed_before(keys, o[j] as int, o[k] as int));
        }
    }
    assert(s =~= t);
    let m = Seq::new(k as nat, |j: int| o[j] as int);
    assert forall|a: int, b: int| 0 <= a < b < m.len() implies m[a] != m[b] by {}
    m.unique_seq_to_set();
    assert(m.to_set() =~= t) by {
        assert forall|y: int| m.to_set().contains(y) <==> t.contains(y) by {
            if t.contains(y) {
                let j = choose|j: int| 0 <= j < k && o[j] as int == y;
                assert(m[j] == y);
            }
        }
    }
}

proof fn lemma_order_covers(keys: Seq<CreationKey>, o: Seq<usize>)
    requires
        keys.len() <= usize::MAX,
        is_creation_order(keys, o),
    ensures
        forall|y: int| 0 <= y < keys.len() ==> #[trigger] o.contains(y as usize),
{
    lemma_order_distinct(keys, o);
    let m = Seq::new(o.len(), |j: int| o[j] as int);
    assert forall|a: int, b: int| 0 <= a < b < m.len() implies m[a] != m[b] by {}
    m.unique_seq_to_set();
    let full = Set::new(|y: int| 0 <= y < keys.len());
    assert(m.to_set().subset_of(full));
    vstd::set_lib::lemma_int_range(0, keys.len() as int);
    assert(full =~= vstd::set_lib::set_int_range(0, keys.len() as int));
    assert(m.to_set().len() == full.len());
    vstd::set_lib::lemma_subset_equality(m.to_set(), full);
    assert forall|y: int| 0 <= y < keys.len() implies #[trigger] o.contains(y as usize) by {
        assert(full.contains(y));
        assert(m.to_set().contains(y));
        let j = choose|j: int| 0 <= j < m.len() && m[j] == y;
        assert(o[j] as int == y);
        assert(o[j] == y as usize);
    }
}

proof fn lemma_count_mono(keys: Seq<CreationKey>, x: int, y: int)
    requires
        0 <= x < keys.len(),
        0 <= y < keys.len(),
        placed_before(keys, x, y),
    ensures
        rank_of(keys, x) < rank_of(keys, y),
{
    let sx = Set::new(|z: int| 0 <= z < keys.len() && placed_before(keys, z, x));
    let sy = Set::new(|z: int| 0 <= z < keys.len() && placed_before(keys, z, y));
    assert(sx.subset_of(sy));
    assert(sy.contains(x));
    assert(!sx.contains(x));
    let full = vstd::set_lib::set_int_range(0, keys.len() as int);
    vstd::set_lib::lemma_int_range(0, keys.len() as int);
    assert(sy.subset_of(full));
    vstd::set_lib::lemma_len_subset(sy, full);
    assert(sx.subset_of(sy.remove(x)));
    vstd::set_lib::lemma_len_subset(sx, sy.remove(x));
}

/// A note that is open when the notes directory is read again.
#[derive(Debug, Clone, Copy, PartialEq, Eq, Structural)]
pub struct OpenNote {
    pub id: u128,
    /// Being edited or holding unsaved changes: the open copy wins.
    pub keep: bool,
}

/// Where a note of the merged list comes from.
#[derive(Debug, Clone, Copy, PartialEq, Eq, Structural)]
pub enum MergeSource {
    /// The open note at this position, unchanged.
    Open(usize),
    /// The note read from disk at this position, carrying over the runtime
    /// state (delete confirmation, pinning) of the open note it replaces.
    Loaded { loaded: usize, carry_from: Option<usize> },
}

/// The last position before `n` where `ids` holds `id`.
pub open spec fn last_index(ids: Seq<u128>, id: u128, n: int) -> Option<int>
    decreases n,
{
    if n <= 0 {
        None
    } else if ids[n - 1] == id {
        Some(n - 1)
    } else {
        last_index(ids, id, n - 1)
    }
}

/// The open notes after a reload, in their order: a kept note stays; any other
/// is replaced by the file read for its id (the last one read, when read
/// twice), unless an earlier open note already took that id; a note whose file
/// is gone is dropped. Also the ids taken.
pub open spec fn merge_open(open: Seq<OpenNote>, loaded: Seq<u128>) -> (Seq<MergeSource>, Seq<u128>)
    decreases open.len(),
{
    if open.len() == 0 {
        (seq![], seq![])
    } else {
        let (plan, used) = merge_open(open.drop_last(), loaded);
        let c = open.last();
        let ci = (open.len() - 1) as usize;
        if c.keep {
            (plan.push(MergeSource::Open(ci)), used.push(c.id))
        } else if !used.contains(c.id) && last_index(loaded, c.id, loaded.len() as int) is Some {
            (
                plan.push(
                    MergeSource::Loaded {
                        loaded: last_index(loaded, c.id, loaded.len() as int)->0 as usize,
                        carry_from: Some(ci),
                    },
                ),
                used.push(c.id),
            )
        } else {
            (plan, used)
        }
    }
}

/// The notes read from disk that no open note took, one per id (the last
/// read), in reading order.
pub open spec fn leftover(loaded: Seq<u128>, used: Seq<u128>, n: int) -> Seq<MergeSource>
    decreases n,
{
    if n <= 0 {
        seq![]
    } else {
        let j = n - 1;
        let head = leftover(loaded, used, j);
        if last_index(loaded, loaded[j], loaded.len() as int) == Some(j) && !used.contains(loaded[j]) {
            head.push(MergeSource::Loaded { loaded: j as usize, carry_from: None })
        } else {
            head
        }
    }
}

/// The whole merge: the open notes that stay or are replaced, then the new
/// notes read from disk.
pub open spec fn reload_plan_of(open: Seq<OpenNote>, loaded: Seq<u128>) -> Seq<MergeSource> {
    let (plan, used) = merge_open(open, loaded);
    plan + leftover(loaded, used, loaded.len() as int)
}

fn last_index_of(ids: &Vec<u128>, id: u128) -> (r: Option<usize>)
    ensures
        match r {
            Some(j) => last_index(ids@, id, ids.len() as int) == Some(j as int),
            None => last_index(ids@, id, ids.len() as int) is None,
        },
{
    let mut n = ids.len();
    while n > 0
        invariant
            n <= ids.len(),
            last_index(ids@, id, ids.len() as int) == last_index(ids@, id, n as int),
        decreases n,
    {
        if ids[n - 1] == id {
            return Some(n - 1);
        }
        n -= 1;
    }
    None
}

fn contains_id(ids: &Vec<u128>, id: u128) -> (r: bool)
    ensures
        r == ids@.contains(id),
{
    let mut k: usize = 0;
    while k < ids.len()
        invariant
            k <= ids.len(),
            forall|j: int| 0 <= j < k ==> ids@[j] != id,
        decreases ids.len() - k,
    {
        if ids[k] == id {
            return true;
        }
        k += 1;
    }
    false
}

/// How the notes open before a reload and the notes read from disk (ids in
/// reading order) merge into the new list of notes, before it is put in
/// creation order.
pub fn reload_plan(open: &Vec<OpenNote>, loaded: &Vec<u128>) -> (plan: Vec<MergeSource>)
    ensures
        plan@ == reload_plan_of(open@, loaded@),
{
    let mut plan: Vec<MergeSource> = Vec::new();
    let mut used: Vec<u128> = Vec::new();
    let mut c: usize = 0;
    while c < open.len()
        invariant
            c <= open.len(),
            (plan@, used@) == merge_open(open@.take(c as int), loaded@),
        decreases open.len() - c,
    {
        proof {
            assert(open@.take(c + 1).drop_last() =~= open@.take(c as int));
        }
        let note = open[c];
        if note.keep {
            plan.push(MergeSource::Open(c));
            used.push(note.id);
        } else if !contains_id(&used, note.id) {
            if let Some(j) = last_index_of(loaded, note.id) {
                plan.push(MergeSource::Loaded { loaded: j, carry_from: Some(c) });
                used.push(note.id);
            }
        }
        c += 1;
    }
    assert(open@.take(open.len() as int) =~= open@);
    let ghost head = plan@;
    let mut j: usize = 0;
    while j < loaded.len()
        invariant
            j <= loaded.len(),
            (head, used@) == merge_open(open@, loaded@),
            plan@ == head + leftover(loaded@, used@, j as int),
        decreases loaded.len() - j,
    {
        if last_index_of(loaded, loaded[j]) == Some(j) && !contains_id(&used, loaded[j]) {
            plan.push(MergeSource::Loaded { loaded: j, carry_from: None });
            assert(plan@ =~= head + leftover(loaded@, used@, j + 1));
        } else {
            assert(plan@ =~= head + leftover(loaded@, used@, j + 1));
        }
        j += 1;
    }
    plan
}

proof fn lemma_merge_open_facts(open: Seq<OpenNote>, loaded: Seq<u128>)
    requires
        open.len() <= usize::MAX,
    ensures
        forall|c: int|
            0 <= c < open.len() && (#[trigger] open[c]).keep ==> merge_open(open, loaded).0.contains(
                MergeSource::Open(c as usize),
            ),
        forall|x: u128|
            #[trigger] merge_open(open, loaded).1.contains(x) ==> exists|c: int|
                0 <= c < open.len() && (#[trigger] open[c]).id == x,
    decreases open.len(),
{
    if open.len() > 0 {
        let p = open.drop_last();
        lemma_merge_open_facts(p, loaded);
        let (plan, used) = merge_open(p, loaded);
        let (plan2, used2) = merge_open(open, loaded);
        assert forall|c: int|
            0 <= c < open.len() && (#[trigger] open[c]).keep implies plan2.contains(
            MergeSource::Open(c as usize),
        ) by {
            if c == open.len() - 1 {
                assert(plan2[plan2.len() - 1] == MergeSource::Open(c as usize));
            } else {
                assert(open[c] == p[c]);
                assert(plan.contains(MergeSource::Open(c as usize)));
                let k = choose|k: int| 0 <= k < plan.len() && plan[k] == MergeSource::Open(c as usize);
                assert(plan2[k] == plan[k]);
            }
        }
        assert forall|x: u128| #[trigger] used2.contains(x) implies exists|c: int|
            0 <= c < open.len() && (#[trigger] open[c]).id == x by {
            let k = choose|k: int| 0 <= k < used2.len() && used2[k] == x;
            if k < used.len() {
                assert(used2[k] == used[k]);
                assert(used.contains(x));
                let c = choose|c: int| 0 <= c < p.len() && (#[trigger] p[c]).id == x;
                assert(open[c] == p[c]);
            } else {
                assert(open[open.len() - 1].id == x);
            }
        }
    }
}

proof fn lemma_leftover_has(loaded: Seq<u128>, used: Seq<u128>, n: int, j: int)
    requires
        0 <= j < n <= loaded.len(),
        last_index(loaded, loaded[j], loaded.len() as int) == Some(j),
        !used.contains(loaded[j]),
    ensures
        leftover(loaded, used, n).contains(MergeSource::Loaded { loaded: j as usize, carry_from: None }),
    decreases n,
{
    let item = MergeSource::Loaded { loaded: j as usize, carry_from: None };
    if j == n - 1 {
        let l = leftover(loaded, used, n);
        assert(l[l.len() - 1] == item);
    } else {
        lemma_leftover_has(loaded, used, n - 1, j);
        let h = leftover(loaded, used, n - 1);
        let k = choose|k: int| 0 <= k < h.len() && h[k] == item;
        assert(leftover(loaded, used, n)[k] == item);
    }
}

/// A reload never replaces nor drops a note that is being edited or holds
/// unsaved changes, and it adds every note read from disk whose id no open
/// note has (the last file read for that id).
pub proof fn lemma_reload_keeps_edits(open: Seq<OpenNote>, loaded: Seq<u128>)
    requires
        open.len() <= usize::MAX,
        loaded.len() <= usize::MAX,
    ensures
        forall|c: int|
            0 <= c < open.len() && (#[trigger] open[c]).keep ==> reload_plan_of(open, loaded).contains(
                MergeSource::Open(c as usize),
            ),
        forall|j: int|
            0 <= j < loaded.len() && last_index(loaded, #[trigger] loaded[j], loaded.len() as int) == Some(j)
                && (forall|c: int| 0 <= c < open.len() ==> (#[trigger] open[c]).id != loaded[j])
                ==> reload_plan_of(open, loaded).contains(
                MergeSource::Loaded { loaded: j as usize, carry_from: None },
            ),
{
    lemma_merge_open_facts(open, loaded);
    let (plan, used) = merge_open(open, loaded);
    let all = reload_plan_of(open, loaded);
    assert forall|c: int|
        0 <= c < open.len() && (#[trigger] open[c]).keep implies all.contains(MergeSource::Open(c as usize)) by {
        let k = choose|k: int| 0 <= k < plan.len() && plan[k] == MergeSource::Open(c as usize);
        assert(all[k] == plan[k]);
    }
    assert forall|j: int|
        0 <= j < loaded.len() && last_index(loaded, #[trigger] loaded[j], loaded.len() as int) == Some(j)
            && (forall|c: int| 0 <= c < open.len() ==> (#[trigger] open[c]).id != loaded[j])
            implies all.contains(MergeSource::Loaded { loaded: j as usize, carry_from: None }) by {
        if used.contains(loaded[j]) {
            let c = choose|c: int| 0 <= c < open.len() && (#[trigger] open[c]).id == loaded[j];
        }
        lemma_leftover_has(loaded, used, loaded.len() as int, j);
        let item = MergeSource::Loaded { loaded: j as usize, carry_from: None };
        let l = leftover(loaded, used, loaded.len() as int);
        let k = choose|k: int| 0 <= k < l.len() && l[k] == item;
        assert(all[plan.len() + k] == item);
    }
}

/// The ids of the notes read, in reading order.
pub open spec fn ids_of(keys: Seq<CreationKey>) -> Seq<u128> {
    Seq::new(keys.len(), |i: int| keys[i].id)
}

/// The source points at an open note and a note read that exist.
pub open spec fn in_range(s: MergeSource, n_open: int, n_loaded: int) -> bool {
    match s {
        MergeSource::Open(i) => i < n_open,
        MergeSource::Loaded { loaded, carry_from } => loaded < n_loaded && match carry_from {
            Some(c) => c < n_open,
            None => true,
        },
    }
}

/// The creation key of the note a source takes: the open note as it is, or
/// the note read from disk.
pub open spec fn source_key(
    s: MergeSource,
    open_keys: Seq<CreationKey>,
    loaded_keys: Seq<CreationKey>,
) -> CreationKey {
    match s {
        MergeSource::Open(i) => open_keys[i as int],
        MergeSource::Loaded { loaded, .. } => loaded_keys[loaded as int],
    }
}

/// The keys of the notes a merge takes, in merge order.
pub open spec fn plan_keys(
    plan: Seq<MergeSource>,
    open_keys: Seq<CreationKey>,
    loaded_keys: Seq<CreationKey>,
) -> Seq<CreationKey> {
    Seq::new(plan.len(), |k: int| source_key(plan[k], open_keys, loaded_keys))
}

proof fn lemma_last_index_range(ids: Seq<u128>, id: u128, n: int)
    requires
        n <= ids.len(),
    ensures
        last_index(ids, id, n) matches Some(j) ==> 0 <= j < n,
    decreases n,
{
    if n > 0 && ids[n - 1] != id {
        lemma_last_index_range(ids, id, n - 1);
    }
}

proof fn lemma_merge_open_range(open: Seq<OpenNote>, loaded: Seq<u128>)
    requires
        open.len() <= usize::MAX,
    ensures
        forall|k: int|
            0 <= k < merge_open(open, loaded).0.len() ==> in_range(
                #[trigger] merge_open(open, loaded).0[k],
                open.len() as int,
                loaded.len() as int,
            ),
    decreases open.len(),
{
    if open.len() > 0 {
        let p = open.drop_last();
        lemma_merge_open_range(p, loaded);
        lemma_last_index_range(loaded, open.last().id, loaded.len() as int);
        let plan = merge_open(p, loaded).0;
        let plan2 = merge_open(open, loaded).0;
        assert forall|k: int| 0 <= k < plan2.len() implies in_range(
            #[trigger] plan2[k],
            open.len() as int,
            loaded.len() as int,
        ) by {
            if k < plan.len() {
                assert(plan2[k] == plan[k]);
                assert(in_range(plan[k], p.len() as int, loaded.len() as int));
            }
        }
    }
}

proof fn lemma_leftover_range(loaded: Seq<u128>, used: Seq<u128>, n: int)
    requires
        n <= loaded.len(),
    ensures
        forall|k: int|
            0 <= k < leftover(loaded, used, n).len() ==> in_range(
                #[trigger] leftover(loaded, used, n)[k],
                0,
                loaded.len() as int,
            ),
    decreases n,
{
    if n > 0 {
        lemma_leftover_range(loaded, used, n - 1);
        let h = leftover(loaded, used, n - 1);
        let l = leftover(loaded, used, n);
        assert forall|k: int| 0 <= k < l.len() implies in_range(
            #[trigger] l[k],
            0,
            loaded.len() as int,
        ) by {
            if k < h.len() {
                assert(l[k] == h[k]);
            }
        }
    }
}

/// Every source of a merge points at notes that exist.
proof fn lemma_plan_in_range(open: Seq<OpenNote>, loaded: Seq<u128>)
    requires
        open.len() <= usize::MAX,
    ensures
        forall|k: int|
            0 <= k < reload_plan_of(open, loaded).len() ==> in_range(
                #[trigger] reload_plan_of(open, loaded)[k],
                open.len() as int,
                loaded.len() as int,
            ),
{
    lemma_merge_open_range(open, loaded);
    let (plan, used) = merge_open(open, loaded);
    lemma_leftover_range(loaded, used, loaded.len() as int);
    let l = leftover(loaded, used, loaded.len() as int);
    let all = reload_plan_of(open, loaded);
    assert forall|k: int| 0 <= k < all.len() implies in_range(
        #[trigger] all[k],
        open.len() as int,
        loaded.len() as int,
    ) by {
        if k < plan.len() {
            assert(all[k] == plan[k]);
        } else {
            assert(all[k] == l[k - plan.len()]);
        }
    }
}

/// The notes after a reload, in display order: the notes that `reload_plan`
/// merges (open notes kept or replaced by the file read, then the new files),
/// sorted by creation time and id. `open_keys` are the keys of the open
/// notes, `loaded_keys` those of the notes read, in reading order.
pub fn reload_order(
    open: &Vec<OpenNote>,
    open_keys: &Vec<CreationKey>,
    loaded_keys: &Vec<CreationKey>,
) -> (merged: Vec<MergeSource>)
    requires
        open_keys.len() == open.len(),
    ensures
        ({
            let plan = reload_plan_of(open@, ids_of(loaded_keys@));
            exists|o: Seq<usize>|
                is_creation_order(plan_keys(plan, open_keys@, loaded_keys@), o) && merged@
                    == Seq::new(o.len(), |k: int| plan[o[k] as int])
        }),
{
    let mut ids: Vec<u128> = Vec::new();
    let mut i: usize = 0;
    while i < loaded_keys.len()
        invariant
            i <= loaded_keys.len(),
            ids.len() == i,
            forall|j: int| 0 <= j < i ==> ids@[j] == loaded_keys@[j].id,
        decreases loaded_keys.len() - i,
    {
        ids.push(loaded_keys[i].id);
        i += 1;
    }
    assert(ids@ =~= ids_of(loaded_keys@));
    let plan = reload_plan(open, &ids);
    proof {
        lemma_plan_in_range(open@, ids@);
    }
    let ghost want = plan_keys(plan@, open_keys@, loaded_keys@);
    let mut keys: Vec<CreationKey> = Vec::new();
    let mut k: usize = 0;
    while k < plan.len()
        invariant
            k <= plan.len(),
            keys.len() == k,
            open_keys.len() == open.len(),
            ids.len() == loaded_keys.len(),
            plan@ == reload_plan_of(open@, ids@),
            want == plan_keys(plan@, open_keys@, loaded_keys@),
            forall|j: int|
                0 <= j < plan.len() ==> in_range(
                    #[trigger] plan@[j],
                    open.len() as int,
                    ids.len() as int,
                ),
            forall|j: int| 0 <= j < k ==> keys@[j] == want[j],
        decreases plan.len() - k,
    {
        assert(in_range(plan@[k as int], open.len() as int, ids.len() as int));
        match plan[k] {
            MergeSource::Open(c) => keys.push(open_keys[c]),
            MergeSource::Loaded { loaded, .. } => keys.push(loaded_keys[loaded]),
        }
        k += 1;
    }
    assert(keys@ =~= want);
    let order = creation_order(&keys);
    let mut merged: Vec<MergeSource> = Vec::new();
    let mut m: usize = 0;
    while m < order.len()
        invariant
            m <= order.len(),
            merged.len() == m,
            order.len() == keys.len(),
            keys.len() == plan.len(),
            forall|j: int| 0 <= j < order.len() ==> order@[j] < keys.len(),
            forall|j: int| 0 <= j < m ==> merged@[j] == plan@[order@[j] as int],
        decreases order.len() - m,
    {
        merged.push(plan[order[m]]);
        m += 1;
    }
    assert(merged@ =~= Seq::new(order@.len(), |j: int| plan@[order@[j] as int]));
    merged
}

} // verus!
