use vstd::prelude::*;

verus! {

/// The place at or behind `from` of the first entry of `order` whose key is
/// greater than `key`; the length of `order` where none is.
pub open spec fn place_behind(keys: Seq<u32>, order: Seq<usize>, key: u32, from: int) -> int
    decreases order.len() - from,
{
    if from < 0 || from >= order.len() {
        order.len() as int
    } else if keys[order[from] as int] > key {
        from
    } else {
        place_behind(keys, order, key, from + 1)
    }
}

/// The order in which a stable sort visits the first `count` items: their
/// places, by ascending key, and by place where the keys are equal. It is
/// made item by item: each is put in front of the first item whose key is
/// greater.
pub open spec fn stable_order(keys: Seq<u32>, count: nat) -> Seq<usize>
    decreases count,
{
    if count == 0 {
        Seq::empty()
    } else {
        let front = stable_order(keys, (count - 1) as nat);
        front.insert(
            place_behind(keys, front, keys[count - 1], 0),
            (count - 1) as usize,
        )
    }
}

/// `order` visits the first `count` places once each, by ascending key, and
/// by place where the keys are equal.
pub open spec fn is_stable_order(keys: Seq<u32>, order: Seq<usize>, count: nat) -> bool {
    &&& order.len() == count
    &&& forall|i: int| 0 <= i < order.len() ==> (#[trigger] order[i]) < count
    &&& forall|i: int, j: int|
        0 <= i < j < order.len() ==> keys[order[i] as int] < keys[order[j] as int] || (
        keys[order[i] as int] == keys[order[j] as int] && order[i] < order[j])
    &&& forall|p: usize| p < count ==> #[trigger] order.contains(p)
}

/// The stable order of a list of keys is sorted, lists every place once,
/// and keeps items with equal keys in their order.
pub proof fn lemma_stable_order(keys: Seq<u32>, count: nat)
    requires
        count <= keys.len(),
        keys.len() <= usize::MAX,
    ensures
        is_stable_order(keys, stable_order(keys, count), count),
    decreases count,
{
    if count > 0 {
        let front = stable_order(keys, (count - 1) as nat);
        let key = keys[count - 1];
        let item = (count - 1) as usize;
        lemma_stable_order(keys, (count - 1) as nat);
        lemma_place_behind(keys, front, key, 0);
        let at = place_behind(keys, front, key, 0);
        let order = front.insert(at, item);
        assert forall|i: int| 0 <= i < order.len() implies (#[trigger] order[i]) < count by {
            if i < at {
                assert(order[i] == front[i]);
            } else if i > at {
                assert(order[i] == front[i - 1]);
            }
        }
        assert forall|i: int, j: int| 0 <= i < j < order.len() implies keys[order[i] as int]
            < keys[order[j] as int] || (keys[order[i] as int] == keys[order[j] as int] && order[i]
            < order[j]) by {
            let a = if i < at { i } else { i - 1 };
            let b = if j < at { j } else { j - 1 };
            if i != at && j != at {
                assert(order[i] == front[a]);
                assert(order[j] == front[b]);
            } else if i == at {
                assert(order[j] == front[b]);
                assert(keys[front[at] as int] > key);
            } else {
                assert(order[i] == front[a]);
                assert(front[a] < count - 1);
            }
        }
        assert forall|p: usize| p < count implies #[trigger] order.contains(p) by {
            if p < count - 1 {
                assert(front.contains(p));
                let i = choose|i: int| 0 <= i < front.len() && front[i] == p;
                if i < at {
                    assert(order[i] == p);
                } else {
                    assert(order[i + 1] == p);
                }
            } else {
                assert(order[at] == p);
            }
        }
    }
}

/// Before the place that `place_behind` gives no key is greater than `key`;
/// at it, and behind it in a sorted order, every key is.
pub proof fn lemma_place_behind(keys: Seq<u32>, order: Seq<usize>, key: u32, from: int)
    requires
        0 <= from <= order.len(),
        forall|i: int, j: int|
            0 <= i < j < order.len() ==> keys[order[i] as int] <= keys[order[j] as int],
    ensures
        from <= place_behind(keys, order, key, from) <= order.len(),
        forall|i: int|
            from <= i < place_behind(keys, order, key, from) ==> keys[(#[trigger] order[i]) as int]
                <= key,
        forall|i: int|
            place_behind(keys, order, key, from) <= i < order.len() ==> keys[(
            #[trigger] order[i]) as int] > key,
    decreases order.len() - from,
{
    if from < order.len() && keys[order[from] as int] <= key {
        lemma_place_behind(keys, order, key, from + 1);
    }
}

/// The order in which a stable sort by `keys` visits the items.
pub fn sort_order(keys: &Vec<u32>) -> (order: Vec<usize>)
    ensures
        order@ == stable_order(keys@, keys@.len()),
        is_stable_order(keys@, order@, keys@.len()),
{
    let mut order: Vec<usize> = Vec::new();
    let mut count: usize = 0;
    while count < keys.len()
        invariant
            count <= keys@.len(),
            order@ == stable_order(keys@, count as nat),
            is_stable_order(keys@, order@, count as nat),
        decreases keys@.len() - count,
    {
        let key = keys[count];
        let mut at: usize = 0;
        while at < order.len() && keys[order[at]] <= key
            invariant
                count < keys@.len(),
                is_stable_order(keys@, order@, count as nat),
                at <= order@.len(),
                place_behind(keys@, order@, key, 0) == place_behind(keys@, order@, key, at as int),
            decreases order@.len() - at,
        {
            at += 1;
        }
        order.insert(at, count);
        proof {
            lemma_stable_order(keys@, (count + 1) as nat);
        }
        count += 1;
    }
    order
}

} // verus!
