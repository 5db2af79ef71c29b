//! Groups of actors of the same type.

use vstd::prelude::*;
use hashbrown::{HashMap, HashSet};
use crate::models::problem::{Actor, ActorView};

verus! {

/// A set of keys, held in a `HashSet` of the hashbrown crate.
#[verifier::external_body]
pub struct KeySet {
    inner: HashSet<usize>,
}

/// The keys that a set holds.
pub uninterp spec fn key_set_contents(set: KeySet) -> Set<usize>;

/// A map from keys to numbers, held in a `HashMap` of the hashbrown crate.
#[verifier::external_body]
pub struct KeyMap {
    inner: HashMap<usize, usize>,
}

/// The entries that a map holds.
pub uninterp spec fn key_map_contents(map: KeyMap) -> Map<usize, usize>;

/// Calls `HashSet::new` of the hashbrown crate, which creates an empty set.
#[verifier::external_body]
fn new_key_set() -> (r: KeySet)
    ensures
        key_set_contents(r) == Set::<usize>::empty(),
{
    KeySet { inner: HashSet::new() }
}

/// Calls `HashSet::insert` of the hashbrown crate, which adds the value to
/// the set and returns whether the set did not have it.
#[verifier::external_body]
fn insert_key(set: &mut KeySet, key: usize) -> (r: bool)
    ensures
        key_set_contents(*final(set)) == key_set_contents(*old(set)).insert(key),
        r == !key_set_contents(*old(set)).contains(key),
{
    set.inner.insert(key)
}

/// Calls `HashSet::iter` of the hashbrown crate, which visits all elements in
/// arbitrary order: each key of the set comes once, in some order.
#[verifier::external_body]
fn list_keys(set: &KeySet) -> (r: Vec<usize>)
    ensures
        r@.no_duplicates(),
        r@.to_set() == key_set_contents(*set),
{
    set.inner.iter().copied().collect()
}

/// The map without entries.
pub open spec fn no_entries() -> Map<usize, usize> {
    Map::empty()
}

/// Calls `HashMap::new` of the hashbrown crate, which creates an empty map.
#[verifier::external_body]
fn new_key_map() -> (r: KeyMap)
    ensures
        key_map_contents(r) == no_entries(),
{
    KeyMap { inner: HashMap::new() }
}

/// Calls `HashMap::insert` of the hashbrown crate, which puts the value under
/// the key and returns the value that was there, if any.
#[verifier::external_body]
fn insert_entry(map: &mut KeyMap, key: usize, value: usize) -> (r: Option<usize>)
    ensures
        key_map_contents(*final(map)) == key_map_contents(*old(map)).insert(key, value),
        r == (if key_map_contents(*old(map)).contains_key(key) {
            Some(key_map_contents(*old(map))[key])
        } else {
            None
        }),
{
    map.inner.insert(key, value)
}

/// Calls `HashMap::get` of the hashbrown crate, which returns the value
/// under the key, if there is one.
#[verifier::external_body]
fn get_entry(map: &KeyMap, key: usize) -> (r: Option<usize>)
    ensures
        r == (if key_map_contents(*map).contains_key(key) {
            Some(key_map_contents(*map)[key])
        } else {
            None
        }),
{
    map.inner.get(&key).copied()
}

/// Whether two actors are of the same type: their vehicles have the same
/// type, and they work at the same places and times.
pub open spec fn same_type(a: ActorView, b: ActorView) -> bool {
    a.vehicle.dimens.type_id == b.vehicle.dimens.type_id && a.detail == b.detail
}

/// The position of the first actor from `from` on that is of the same type
/// as the actor at position `i`.
pub open spec fn type_key(actors: Seq<ActorView>, i: int, from: int) -> int
    decreases i - from,
{
    if from >= i {
        i
    } else if same_type(actors[from], actors[i]) {
        from
    } else {
        type_key(actors, i, from + 1)
    }
}

/// The views of a sequence of actors.
pub open spec fn actor_views(actors: Seq<Actor>) -> Seq<ActorView> {
    Seq::new(actors.len(), |i: int| actors[i]@)
}

proof fn lemma_type_key(actors: Seq<ActorView>, i: int, from: int)
    requires
        0 <= from <= i < actors.len(),
    ensures
        from <= type_key(actors, i, from) <= i,
        same_type(actors[type_key(actors, i, from)], actors[i]),
        forall|k: int| from <= k < type_key(actors, i, from) ==> !same_type(actors[k], actors[i]),
    decreases i - from,
{
    if from < i && !same_type(actors[from], actors[i]) {
        lemma_type_key(actors, i, from + 1);
    }
}

/// Two actors have the same key exactly when they are of the same type.
proof fn lemma_keys_tell_types(actors: Seq<ActorView>, i: int, j: int)
    requires
        0 <= i < actors.len(),
        0 <= j < actors.len(),
    ensures
        (type_key(actors, i, 0) == type_key(actors, j, 0)) == same_type(actors[i], actors[j]),
{
    lemma_type_key(actors, i, 0);
    lemma_type_key(actors, j, 0);
}

fn is_same_type(a: &Actor, b: &Actor) -> (r: bool)
    ensures
        r == same_type(a@, b@),
{
    let same_id = match (&a.vehicle.dimens.type_id, &b.vehicle.dimens.type_id) {
        (Some(x), Some(y)) => *x == *y,
        (None, None) => true,
        _ => false,
    };
    let same_start = match (a.detail.start, b.detail.start) {
        (Some(x), Some(y)) => x == y,
        (None, None) => true,
        _ => false,
    };
    let same_end = match (a.detail.end, b.detail.end) {
        (Some(x), Some(y)) => x == y,
        (None, None) => true,
        _ => false,
    };
    same_id && same_start && same_end && a.detail.time.start == b.detail.time.start
        && a.detail.time.end == b.detail.time.end
}

/// The groups of a list of actors: for the position of each actor the number
/// of its group, held in a map.
pub struct TypedActorGroups {
    /// The number of the group of the actor at each position.
    pub groups: KeyMap,
    /// The number of actors.
    pub total: usize,
}

impl TypedActorGroups {
    /// Whether the groups are well formed: the actor at each position has a
    /// group.
    pub open spec fn wf(&self) -> bool {
        forall|actor: usize|
            actor < self.total ==> #[trigger] key_map_contents(self.groups).contains_key(actor)
    }

    /// The number of the group of the actor at the given position.
    pub open spec fn group_of(&self, actor: int) -> usize {
        key_map_contents(self.groups)[actor as usize]
    }

    /// Returns the number of the group of the actor at the given position.
    pub fn get(&self, actor: usize) -> (r: usize)
        requires
            self.wf(),
            actor < self.total,
        ensures
            r == self.group_of(actor as int),
    {
        match get_entry(&self.groups, actor) {
            Some(group) => group,
            None => 0,
        }
    }
}

/// Gives each actor the number of its group: actors of the same type, and
/// only those, get the same number. The numbers are below the number of
/// actors; which group gets which number is not told.
pub fn create_typed_actor_groups(actors: &Vec<Actor>) -> (r: TypedActorGroups)
    requires
        forall|i: int| 0 <= i < actors@.len() ==> (#[trigger] actors@[i])@.vehicle.dimens.type_id.is_some(),
    ensures
        r.wf(),
        r.total == actors@.len(),
        forall|i: int, j: int|
            0 <= i < actors@.len() && 0 <= j < actors@.len() ==> (#[trigger] r.group_of(i)
                == #[trigger] r.group_of(j)) == same_type(actors@[i]@, actors@[j]@),
        forall|i: int| 0 <= i < actors@.len() ==> #[trigger] r.group_of(i) < actors@.len(),
{
    let ghost views = actor_views(actors@);
    let total: usize = actors.len();
    // the key of each actor: the position of the first actor of its type
    let mut keys: Vec<usize> = Vec::new();
    let mut unique_type_keys = new_key_set();
    let mut i: usize = 0;
    while i < total
        invariant
            i <= total,
            total == actors@.len(),
            views == actor_views(actors@),
            keys@.len() == i,
            forall|k: int| 0 <= k < i ==> #[trigger] keys@[k] == type_key(views, k, 0),
            forall|k: int| 0 <= k < i ==> key_set_contents(unique_type_keys).contains(#[trigger] keys@[k]),
            forall|key: usize| key_set_contents(unique_type_keys).contains(key) ==> key < total,
        decreases total - i,
    {
        let mut first: usize = 0;
        while first < i && !is_same_type(&actors[first], &actors[i])
            invariant
                first <= i < total,
                total == actors@.len(),
                views == actor_views(actors@),
                type_key(views, i as int, 0) == type_key(views, i as int, first as int),
            decreases i - first,
        {
            first = first + 1;
        }
        let _ = insert_key(&mut unique_type_keys, first);
        keys.push(first);
        i = i + 1;
    }
    let unique = list_keys(&unique_type_keys);
    // the number of each key: its position in the list of keys
    let mut type_key_map = new_key_map();
    let mut n: usize = 0;
    while n < unique.len()
        invariant
            n <= unique@.len(),
            unique@.no_duplicates(),
            forall|k: int|
                0 <= k < n ==> key_map_contents(type_key_map).contains_key(#[trigger] unique@[k])
                    && key_map_contents(type_key_map)[unique@[k]] == k,
        decreases unique@.len() - n,
    {
        let _ = insert_entry(&mut type_key_map, unique[n], n);
        n = n + 1;
    }
    proof {
        assert(unique@.to_set().finite()) by {
            vstd::seq_lib::seq_to_set_is_finite(unique@);
        }
        unique@.unique_seq_to_set();
        assert forall|k: int| 0 <= k < unique@.len() implies #[trigger] unique@[k] < total by {
            assert(unique@.contains(unique@[k]));
            assert(unique@.to_set().contains(unique@[k]));
        }
    }
    // the group of each actor: the number of its key
    let mut groups = new_key_map();
    let mut g: usize = 0;
    while g < total
        invariant
            g <= total,
            total == actors@.len(),
            keys@.len() == total,
            unique@.no_duplicates(),
            forall|k: int| 0 <= k < unique@.len() ==> #[trigger] unique@[k] < total,
            unique@.to_set() == key_set_contents(unique_type_keys),
            forall|k: int| 0 <= k < total ==> key_set_contents(unique_type_keys).contains(#[trigger] keys@[k]),
            forall|k: int|
                0 <= k < unique@.len() ==> key_map_contents(type_key_map).contains_key(
                    #[trigger] unique@[k],
                ) && key_map_contents(type_key_map)[unique@[k]] == k,
            forall|k: usize|
                k < g ==> {
                    &&& #[trigger] key_map_contents(groups).contains_key(k)
                    &&& 0 <= key_map_contents(groups)[k] < unique@.len()
                    &&& unique@[key_map_contents(groups)[k] as int] == keys@[k as int]
                },
        decreases total - g,
    {
        let key = keys[g];
        assert(unique@.to_set().contains(key));
        let ghost at = choose|at: int| 0 <= at < unique@.len() && unique@[at] == key;
        assert(key_map_contents(type_key_map).contains_key(unique@[at]));
        let group = match get_entry(&type_key_map, key) {
            Some(number) => number,
            None => 0,
        };
        assert(group == at);
        let _ = insert_entry(&mut groups, g, group);
        g = g + 1;
    }
    let result = TypedActorGroups { groups, total };
    proof {
        unique@.unique_seq_to_set();
        assert(unique@.len() <= total) by {
            lemma_keys_are_few(unique@, total as int);
        }
        assert forall|i: int, j: int|
            0 <= i < actors@.len() && 0 <= j < actors@.len() implies (#[trigger] result.group_of(i)
            == #[trigger] result.group_of(j)) == same_type(actors@[i]@, actors@[j]@) by {
            lemma_keys_tell_types(views, i, j);
            assert(views[i] == actors@[i]@ && views[j] == actors@[j]@);
            assert(keys@[i] == type_key(views, i, 0) && keys@[j] == type_key(views, j, 0));
            assert(key_map_contents(result.groups).contains_key(i as usize));
            assert(key_map_contents(result.groups).contains_key(j as usize));
        }
        assert forall|i: int| 0 <= i < actors@.len() implies #[trigger] result.group_of(i)
            < actors@.len() by {
            assert(key_map_contents(result.groups).contains_key(i as usize));
        }
    }
    result
}

/// There are no more distinct keys below a bound than the bound.
proof fn lemma_keys_are_few(keys: Seq<usize>, bound: int)
    requires
        keys.no_duplicates(),
        forall|k: int| 0 <= k < keys.len() ==> #[trigger] keys[k] < bound,
        0 <= bound,
    ensures
        keys.len() <= bound,
    decreases bound,
{
    if keys.len() > 0 {
        if bound == 0 {
            assert(keys[0] < bound);
        } else {
            // take the greatest possible key out, if it is there
            let top = (bound - 1) as usize;
            if keys.contains(top) {
                let at = keys.index_of(top);
                let rest = keys.remove(at);
                assert forall|k: int| 0 <= k < rest.len() implies #[trigger] rest[k] < bound - 1 by {
                    let source = if k < at {
                        k
                    } else {
                        k + 1
                    };
                    assert(rest[k] == keys[source]);
                    assert(keys[source] != keys[at]);
                }
                assert(rest.no_duplicates()) by {
                    assert forall|a: int, b: int|
                        0 <= a < rest.len() && 0 <= b < rest.len() && a != b implies rest[a]
                        != rest[b] by {
                        let sa = if a < at {
                            a
                        } else {
                            a + 1
                        };
                        let sb = if b < at {
                            b
                        } else {
                            b + 1
                        };
                        assert(rest[a] == keys[sa] && rest[b] == keys[sb]);
                    }
                }
                lemma_keys_are_few(rest, bound - 1);
            } else {
                assert forall|k: int| 0 <= k < keys.len() implies #[trigger] keys[k] < bound
                    - 1 by {
                    assert(keys.contains(keys[k]));
                }
                lemma_keys_are_few(keys, bound - 1);
            }
        }
    }
}

} // verus!
