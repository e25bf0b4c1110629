//! Maps on the wire: a map is written in ascending order of its keys.

use std::collections::HashMap;
use std::hash::Hash;

use vstd::prelude::*;
use vstd::std_specs::hash::*;

use crate::model::HasModel;

use super::{BinaryData, BinaryReader, BinaryWriter, DecodeFailure, Parsed, ProtoResult};

verus! {

/// A type whose values can be the keys of a map: small values that are the same key if and only
/// if they are equal, and that have a rank by which a map is written in order.
pub trait MapKey: BinaryData<Model = Self> + Copy + Eq + Hash {
    /// The rank of this key among the keys of its type.
    spec fn rank(&self) -> int;

    /// Hashing and comparing keys agrees with equality, a key is its own content, and no two
    /// keys have the same rank.
    proof fn key_laws()
        ensures
            obeys_key_model::<Self>(),
            forall|k: Self| #[trigger] k.model() == k,
            forall|j: Self, k: Self| #[trigger] j.rank() == #[trigger] k.rank() ==> j == k,
    ;

    /// Whether this key ranks before `other`.
    fn before(&self, other: &Self) -> (res: bool)
        ensures
            res == (self.rank() < other.rank()),
    ;
}

impl MapKey for u8 {
    open spec fn rank(&self) -> int {
        *self as int
    }

    proof fn key_laws() {
        broadcast use group_hash_axioms;

    }

    fn before(&self, other: &Self) -> (res: bool) {
        *self < *other
    }
}

impl MapKey for u16 {
    open spec fn rank(&self) -> int {
        *self as int
    }

    proof fn key_laws() {
        broadcast use group_hash_axioms;

    }

    fn before(&self, other: &Self) -> (res: bool) {
        *self < *other
    }
}

impl MapKey for u32 {
    open spec fn rank(&self) -> int {
        *self as int
    }

    proof fn key_laws() {
        broadcast use group_hash_axioms;

    }

    fn before(&self, other: &Self) -> (res: bool) {
        *self < *other
    }
}

impl MapKey for u64 {
    open spec fn rank(&self) -> int {
        *self as int
    }

    proof fn key_laws() {
        broadcast use group_hash_axioms;

    }

    fn before(&self, other: &Self) -> (res: bool) {
        *self < *other
    }
}

impl MapKey for i8 {
    open spec fn rank(&self) -> int {
        *self as int
    }

    proof fn key_laws() {
        broadcast use group_hash_axioms;

    }

    fn before(&self, other: &Self) -> (res: bool) {
        *self < *other
    }
}

impl MapKey for i32 {
    open spec fn rank(&self) -> int {
        *self as int
    }

    proof fn key_laws() {
        broadcast use group_hash_axioms;

    }

    fn before(&self, other: &Self) -> (res: bool) {
        *self < *other
    }
}

impl MapKey for i64 {
    open spec fn rank(&self) -> int {
        *self as int
    }

    proof fn key_laws() {
        broadcast use group_hash_axioms;

    }

    fn before(&self, other: &Self) -> (res: bool) {
        *self < *other
    }
}

/// Whether the keys stand in ascending order, each one once.
pub open spec fn ascending<K: MapKey>(keys: Seq<K>) -> bool {
    forall|i: int, j: int|
        0 <= i < j < keys.len() ==> (#[trigger] keys[i]).rank() < (#[trigger] keys[j]).rank()
}

/// The keys of a set in ascending order.
pub open spec fn sorted_keys<K: MapKey>(keys: Set<K>) -> Seq<K> {
    choose|ks: Seq<K>| ascending(ks) && #[trigger] ks.to_set() == keys
}

/// The entries of a map in ascending order of their keys.
pub open spec fn entries<K: MapKey, V>(m: Map<K, V>) -> Seq<(K, V)> {
    let keys = sorted_keys(m.dom());
    Seq::new(keys.len(), |i: int| (keys[i], m[keys[i]]))
}

/// The map with these entries. Of two entries with the same key the later one counts.
pub open spec fn map_of<K, V>(entries: Seq<(K, V)>) -> Map<K, V>
    decreases entries.len(),
{
    if entries.len() == 0 {
        Map::empty()
    } else {
        map_of(entries.drop_last()).insert(entries.last().0, entries.last().1)
    }
}

pub proof fn lemma_map_of<K, V>(entries: Seq<(K, V)>)
    ensures
        forall|k: K| #[trigger]
            map_of(entries).contains_key(k) <==> exists|i: int|
                0 <= i < entries.len() && (#[trigger] entries[i]).0 == k,
        (forall|i: int, j: int|
            0 <= i < j < entries.len() ==> (#[trigger] entries[i]).0 != (#[trigger] entries[j]).0)
            ==> forall|i: int|
            0 <= i < entries.len() ==> map_of(entries)[(#[trigger] entries[i]).0] == entries[i].1,
    decreases entries.len(),
{
    if entries.len() > 0 {
        let front = entries.drop_last();
        lemma_map_of(front);
        assert forall|k: K| #[trigger] map_of(entries).contains_key(k) implies exists|i: int|
            0 <= i < entries.len() && (#[trigger] entries[i]).0 == k by {
            if k == entries.last().0 {
                assert(entries[entries.len() - 1].0 == k);
            } else {
                assert(map_of(front).contains_key(k));
                let i = choose|i: int| 0 <= i < front.len() && (#[trigger] front[i]).0 == k;
                assert(entries[i].0 == k);
            }
        }
        assert forall|k: K|
            (exists|i: int| 0 <= i < entries.len() && (#[trigger] entries[i]).0
                == k) implies #[trigger] map_of(entries).contains_key(k) by {
            let i = choose|i: int| 0 <= i < entries.len() && (#[trigger] entries[i]).0 == k;
            if i < front.len() {
                assert(front[i].0 == k);
                assert(map_of(front).contains_key(k));
            }
        }
        if forall|i: int, j: int|
            0 <= i < j < entries.len() ==> (#[trigger] entries[i]).0 != (#[trigger] entries[j]).0 {
            assert forall|i: int, j: int| 0 <= i < j < front.len() implies (#[trigger] front[i]).0
                != (#[trigger] front[j]).0 by {
                assert(entries[i].0 != entries[j].0);
            }
            assert forall|i: int| 0 <= i < entries.len() implies map_of(entries)[(
            #[trigger] entries[i]).0] == entries[i].1 by {
                if i < front.len() {
                    assert(entries[i].0 != entries[entries.len() - 1].0);
                    assert(map_of(front)[front[i].0] == front[i].1);
                }
            }
        }
    }
}

/// Two enumerations of a set in ascending order are the same.
proof fn lemma_ascending_unique<K: MapKey>(a: Seq<K>, b: Seq<K>)
    requires
        ascending(a),
        ascending(b),
        a.to_set() == b.to_set(),
    ensures
        a == b,
    decreases a.len(),
{
    assert forall|k: K| a.contains(k) == b.contains(k) by {
        assert(a.to_set().contains(k) <==> a.contains(k));
        assert(b.to_set().contains(k) <==> b.contains(k));
    }
    if a.len() == 0 {
        if b.len() > 0 {
            assert(b.contains(b[0]));
        }
        assert(a =~= b);
    } else if b.len() == 0 {
        assert(a.contains(a[0]));
    } else {
        let x = a.last();
        let y = b.last();
        assert(b.contains(x)) by {
            assert(a.contains(x));
        }
        assert(a.contains(y)) by {
            assert(b.contains(y));
        }
        let i = choose|i: int| 0 <= i < b.len() && b[i] == x;
        let j = choose|j: int| 0 <= j < a.len() && a[j] == y;
        K::key_laws();
        assert(x == y);
        let front_a = a.drop_last();
        let front_b = b.drop_last();
        assert forall|k: K| front_a.to_set().contains(k) == front_b.to_set().contains(k) by {
            if front_a.contains(k) {
                let n = choose|n: int| 0 <= n < front_a.len() && front_a[n] == k;
                assert(a[n].rank() < a[a.len() - 1].rank());
                assert(a.contains(k));
                let m = choose|m: int| 0 <= m < b.len() && b[m] == k;
                assert(front_b[m] == k);
            }
            if front_b.contains(k) {
                let n = choose|n: int| 0 <= n < front_b.len() && front_b[n] == k;
                assert(b[n].rank() < b[b.len() - 1].rank());
                assert(b.contains(k));
                let m = choose|m: int| 0 <= m < a.len() && a[m] == k;
                assert(front_a[m] == k);
            }
        }
        assert(front_a.to_set() =~= front_b.to_set());
        lemma_ascending_unique(front_a, front_b);
        assert(a =~= front_a.push(x));
        assert(b =~= front_b.push(y));
    }
}

/// A key that ranks between two neighbours can be inserted there.
proof fn lemma_insert_key<K: MapKey>(keys: Seq<K>, at: int, k: K)
    requires
        ascending(keys),
        0 <= at <= keys.len(),
        forall|i: int| 0 <= i < at ==> (#[trigger] keys[i]).rank() < k.rank(),
        forall|i: int| at <= i < keys.len() ==> k.rank() < (#[trigger] keys[i]).rank(),
    ensures
        ascending(keys.insert(at, k)),
        keys.insert(at, k).to_set() == keys.to_set().insert(k),
{
    let more = keys.insert(at, k);
    assert forall|i: int, j: int| 0 <= i < j < more.len() implies (#[trigger] more[i]).rank() < (
    #[trigger] more[j]).rank() by {
        let a = if i < at {
            keys[i]
        } else if i == at {
            k
        } else {
            keys[i - 1]
        };
        let b = if j < at {
            keys[j]
        } else if j == at {
            k
        } else {
            keys[j - 1]
        };
        assert(more[i] == a && more[j] == b);
    }
    assert forall|x: K| more.to_set().contains(x) == keys.to_set().insert(k).contains(x) by {
        if more.contains(x) {
            let i = choose|i: int| 0 <= i < more.len() && more[i] == x;
            if i < at {
                assert(keys[i] == x);
            } else if i > at {
                assert(keys[i - 1] == x);
            }
        }
        if keys.contains(x) {
            let i = choose|i: int| 0 <= i < keys.len() && keys[i] == x;
            if i < at {
                assert(more[i] == x);
            } else {
                assert(more[i + 1] == x);
            }
        }
        assert(more[at] == k);
    }
    assert(more.to_set() =~= keys.to_set().insert(k));
}

/// The place of a key among keys in ascending order.
proof fn lemma_place_of_key<K: MapKey>(keys: Seq<K>, k: K) -> (at: int)
    requires
        ascending(keys),
        !keys.contains(k),
    ensures
        0 <= at <= keys.len(),
        forall|i: int| 0 <= i < at ==> (#[trigger] keys[i]).rank() < k.rank(),
        forall|i: int| at <= i < keys.len() ==> k.rank() < (#[trigger] keys[i]).rank(),
    decreases keys.len(),
{
    K::key_laws();
    if keys.len() == 0 {
        0
    } else {
        assert(keys.contains(keys.last()));
        if keys.last().rank() < k.rank() {
            keys.len() as int
        } else {
            let front = keys.drop_last();
            assert forall|i: int, j: int| 0 <= i < j < front.len() implies (
            #[trigger] front[i]).rank() < (#[trigger] front[j]).rank() by {
                assert(keys[i].rank() < keys[j].rank());
            }
            if front.contains(k) {
                let i = choose|i: int| 0 <= i < front.len() && front[i] == k;
                assert(keys[i] == k);
            }
            let at = lemma_place_of_key(front, k);
            assert forall|i: int| 0 <= i < at implies (#[trigger] keys[i]).rank() < k.rank() by {
                assert(front[i].rank() < k.rank());
            }
            assert forall|i: int| at <= i < keys.len() implies k.rank() < (
            #[trigger] keys[i]).rank() by {
                if i < front.len() {
                    assert(k.rank() < front[i].rank());
                }
            }
            at
        }
    }
}

/// Every finite set of keys has an enumeration in ascending order.
pub proof fn lemma_sorted_keys<K: MapKey>(keys: Set<K>)
    requires
        keys.finite(),
    ensures
        ascending(sorted_keys(keys)),
        sorted_keys(keys).to_set() == keys,
    decreases keys.len(),
{
    if keys.len() == 0 {
        let none = Seq::<K>::empty();
        assert(none.to_set() =~= keys);
        assert(ascending(none));
    } else {
        let k = keys.choose();
        let rest = keys.remove(k);
        lemma_sorted_keys(rest);
        let ks = sorted_keys(rest);
        if ks.contains(k) {
            assert(ks.to_set().contains(k));
        }
        let at = lemma_place_of_key(ks, k);
        lemma_insert_key(ks, at, k);
        assert(rest.insert(k) =~= keys);
        assert(ascending(ks.insert(at, k)) && ks.insert(at, k).to_set() == keys);
    }
}

/// The entries of a map are each of its keys once, with the key's value.
proof fn lemma_entries<K: MapKey, V>(m: Map<K, V>)
    requires
        m.dom().finite(),
    ensures
        forall|i: int, j: int|
            0 <= i < j < entries(m).len() ==> (#[trigger] entries(m)[i]).0 != (
            #[trigger] entries(m)[j]).0,
        forall|i: int|
            0 <= i < entries(m).len() ==> m.contains_key((#[trigger] entries(m)[i]).0)
                && m[entries(m)[i].0] == entries(m)[i].1,
        forall|k: K| #[trigger]
            m.contains_key(k) ==> exists|i: int|
                0 <= i < entries(m).len() && (#[trigger] entries(m)[i]).0 == k,
        entries(m).len() == m.dom().len(),
{
    lemma_sorted_keys(m.dom());
    let keys = sorted_keys(m.dom());
    let es = entries(m);
    assert forall|i: int| 0 <= i < es.len() implies m.contains_key((#[trigger] es[i]).0) by {
        assert(keys.contains(keys[i]));
        assert(keys.to_set().contains(keys[i]));
    }
    assert forall|k: K| #[trigger] m.contains_key(k) implies exists|i: int|
        0 <= i < es.len() && (#[trigger] es[i]).0 == k by {
        assert(keys.to_set().contains(k));
        let i = choose|i: int| 0 <= i < keys.len() && keys[i] == k;
        assert(es[i].0 == k);
    }
    assert forall|i: int, j: int| 0 <= i < j < es.len() implies (#[trigger] es[i]).0 != (
    #[trigger] es[j]).0 by {
        assert(keys[i].rank() < keys[j].rank());
    }
    assert(keys.no_duplicates());
    keys.unique_seq_to_set();
}

/// The contents of the entries of a map make up the content of the map.
proof fn lemma_map_of_entries<K: MapKey, V: HasModel>(m: HashMap<K, V>)
    ensures
        map_of(crate::model::models(entries(m@))) == m.model(),
{
    broadcast use group_hash_axioms;

    K::key_laws();
    let es = entries(m@);
    let ms = crate::model::models(es);
    lemma_entries(m@);
    lemma_map_of(ms);
    assert forall|i: int, j: int| 0 <= i < j < ms.len() implies (#[trigger] ms[i]).0 != (
    #[trigger] ms[j]).0 by {
        assert(es[i].0 != es[j].0);
        assert(es[i].0.model() == es[i].0 && es[j].0.model() == es[j].0);
    }
    assert forall|k: K| map_of(ms).contains_key(k) == #[trigger] m.model().contains_key(k) by {
        if map_of(ms).contains_key(k) {
            let i = choose|i: int| 0 <= i < ms.len() && (#[trigger] ms[i]).0 == k;
            assert(es[i].0.model() == es[i].0);
        }
        if m.model().contains_key(k) {
            assert(m@.contains_key(k));
            let i = choose|i: int| 0 <= i < es.len() && (#[trigger] es[i]).0 == k;
            assert(es[i].0.model() == es[i].0);
            assert(ms[i].0 == k);
        }
    }
    assert forall|k: K| #[trigger] m.model().contains_key(k) implies map_of(ms)[k]
        == m.model()[k] by {
        assert(m@.contains_key(k));
        let i = choose|i: int| 0 <= i < es.len() && (#[trigger] es[i]).0 == k;
        assert(es[i].0.model() == es[i].0);
        assert(ms[i].0 == k);
    }
    assert(map_of(ms) =~= m.model());
}

/// The keys of a map in ascending order.
pub(crate) fn keys_in_order<K: MapKey, V>(m: &HashMap<K, V>) -> (keys: Vec<K>)
    ensures
        keys@ == sorted_keys(m@.dom()),
{
    broadcast use group_hash_axioms;

    proof {
        K::key_laws();
    }
    let mut keys: Vec<K> = Vec::new();
    for entry in walk: m.iter()
        invariant
            obeys_key_model::<K>(),
            forall|j: K, k: K| #[trigger] j.rank() == #[trigger] k.rank() ==> j == k,
            walk.seq().no_duplicates(),
            forall|i: int|
                0 <= i < walk.seq().len() ==> m@.contains_key(*(#[trigger] walk.seq()[i]).0)
                    && m@[*walk.seq()[i].0] == *walk.seq()[i].1,
            forall|k: K| #[trigger] m@.contains_key(k) ==> walk.seq().contains((&k, &m@[k])),
            ascending(keys@),
            forall|k: K| #[trigger]
                keys@.contains(k) <==> exists|i: int|
                    0 <= i < walk.index() && *(#[trigger] walk.seq()[i]).0 == k,
    {
        let k: K = *entry.0;
        let ghost at = walk.index();
        assert(!keys@.contains(k)) by {
            if keys@.contains(k) {
                let i = choose|i: int| 0 <= i < at && *(#[trigger] walk.seq()[i]).0 == k;
                assert(walk.seq()[i] == walk.seq()[at]);
            }
        }
        let mut place: usize = 0;
        while place < keys.len() && keys[place].before(&k)
            invariant
                place <= keys.len(),
                forall|i: int| 0 <= i < place ==> (#[trigger] keys@[i]).rank() < k.rank(),
            decreases keys.len() - place,
        {
            place = place + 1;
        }
        let ghost before = keys@;
        proof {
            assert forall|i: int| place <= i < before.len() implies k.rank() < (
            #[trigger] before[i]).rank() by {
                assert(before.contains(before[place as int]));
            }
            lemma_insert_key(before, place as int, k);
        }
        keys.insert(place, k);
        proof {
            assert forall|x: K| #[trigger] keys@.contains(x) <==> exists|i: int|
                0 <= i < at + 1 && *(#[trigger] walk.seq()[i]).0 == x by {
                assert(keys@.to_set().contains(x) == (before.to_set().contains(x) || x == k));
                if x == k {
                    assert(*walk.seq()[at].0 == x);
                }
                if before.contains(x) {
                    let i = choose|i: int| 0 <= i < at && *(#[trigger] walk.seq()[i]).0 == x;
                    assert(*walk.seq()[i].0 == x);
                }
            }
        }
    }
    proof {
        assert(keys@.to_set() =~= m@.dom()) by {
            assert forall|k: K| keys@.to_set().contains(k) == m@.contains_key(k) by {
            }
        }
        lemma_sorted_keys(m@.dom());
        lemma_ascending_unique(keys@, sorted_keys(m@.dom()));
    }
    keys
}

impl<K: MapKey, V: BinaryData> BinaryData for HashMap<K, V> {
    /// The number of entries, and then the entries in ascending order of their keys.
    open spec fn encoding(&self) -> Seq<u8> {
        super::array_encoding(entries(self@))
    }

    /// Of two entries with the same key the later one counts.
    open spec fn parse(data: Seq<u8>, pos: int) -> Parsed<Map<K, V::Model>> {
        super::map_parsed(
            super::parse_array::<(K, V)>(data, pos),
            |items: Seq<(K, V::Model)>| map_of(items),
        )
    }

    open spec fn takes_space() -> bool {
        true
    }

    open spec fn readable(&self) -> bool {
        super::array_readable(entries(self@))
    }

    proof fn parse_advances(data: Seq<u8>, pos: int) {
        super::lemma_array_advances::<(K, V)>(data, pos);
    }

    proof fn parse_extends(data: Seq<u8>, more: Seq<u8>, pos: int) {
        super::lemma_array_extends::<(K, V)>(data, more, pos);
    }

    proof fn encoding_takes_space(&self) {
        super::uleb::lemma_uleb_takes_space(entries(self@).len());
    }

    proof fn parse_inverts(&self, data: Seq<u8>, pos: int) {
        super::lemma_array_inverts(entries(self@), data, pos);
        lemma_map_of_entries(*self);
    }

    fn read_binary(r: &mut BinaryReader<'_>) -> (res: ProtoResult<Self>) {
        let ghost data = r.data();
        let len: u64 = match r.length() {
            Ok(len) => len,
            Err(e) => {
                return Err(e);
            },
        };
        let ghost start = r.pos();
        let ghost mut items: Seq<(K, V::Model)> = Seq::empty();
        let mut map: HashMap<K, V> = HashMap::new();
        let mut count: u64 = 0;
        proof {
            K::key_laws();
        }
        assert(map.model() =~= map_of(items));
        while count < len
            invariant
                obeys_key_model::<K>(),
                builds_valid_hashers::<std::collections::hash_map::RandomState>(),
                forall|k: K| #[trigger] k.model() == k,
                count <= len,
                r.data() == data,
                super::parse_seq::<(K, V)>(data, start, count as nat) == (
                    Ok::<Seq<(K, V::Model)>, DecodeFailure>(items),
                    r.pos(),
                ),
                map.model() == map_of(items),
                data == old(r).data(),
                super::parse_length(data, old(r).pos()) == (
                    Ok::<u64, DecodeFailure>(len),
                    start,
                ),
            decreases len - count,
        {
            match r.read::<(K, V)>() {
                Ok((k, v)) => {
                    let ghost before = map;
                    let ghost item = (k, v.model());
                    map.insert(k, v);
                    proof {
                        assert(map.model() =~= before.model().insert(k, item.1));
                        assert(items.push(item).drop_last() =~= items);
                        items = items.push(item);
                    }
                },
                Err(e) => {
                    proof {
                        super::lemma_seq_fails::<(K, V)>(
                            data,
                            start,
                            (count + 1) as nat,
                            len as nat,
                        );
                    }
                    return Err(e);
                },
            }
            count = count + 1;
        }
        Ok(map)
    }

    fn write_binary(&self, w: &mut BinaryWriter<'_>) -> (res: ProtoResult<()>) {
        broadcast use group_hash_axioms;

        proof {
            K::key_laws();
            lemma_entries(self@);
            lemma_sorted_keys(self@.dom());
        }
        let ghost start = w.0@;
        let ghost es = entries(self@);
        let _ = w.uleb(self.len() as u64);
        let ghost head = w.0@;
        let keys = keys_in_order(self);
        let mut i: usize = 0;
        assert(w.0@ =~= head + super::seq_encoding(es.take(0)));
        while i < keys.len()
            invariant
                obeys_key_model::<K>(),
                i <= keys.len(),
                keys@ == sorted_keys(self@.dom()),
                keys@.to_set() == self@.dom(),
                es == entries(self@),
                w.0@ == head + super::seq_encoding(es.take(i as int)),
                *final(w.0) == *final(old(w).0),
            decreases keys.len() - i,
        {
            let k: K = keys[i];
            assert(self@.contains_key(k)) by {
                assert(keys@.contains(k));
                assert(keys@.to_set().contains(k));
            }
            if let Some(v) = self.get(&k) {
                let _ = k.write_binary(w);
                let _ = v.write_binary(w);
                proof {
                    assert(es[i as int] == (k, *v));
                    assert(es.take(i + 1).drop_last() =~= es.take(i as int));
                    assert(w.0@ =~= head + super::seq_encoding(es.take(i + 1)));
                }
            }
            i = i + 1;
        }
        assert(es.take(es.len() as int) =~= es);
        assert(w.0@ =~= start + self.encoding());
        Ok(())
    }
}

} // verus!
