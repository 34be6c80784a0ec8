//! A bounded memory of the checkout sessions that could not be fulfilled a
//! moment ago, so that asking for the same one again costs nothing.

use crate::text::same;
use vstd::prelude::*;
use vstd::string::*;

verus! {

/// Why a session could not be fulfilled.
#[derive(Clone, Copy, Debug, PartialEq, Eq, Structural)]
pub enum NegEntry {
    /// It exists, but is not paid yet.
    Unpaid,
    /// There is no such session.
    NotFound,
}

/// What is remembered of a session: why it could not be fulfilled, and when
/// that was found, in nanoseconds.
#[derive(Clone, Copy, Debug)]
pub struct Mark {
    pub time: u128,
    pub entry: NegEntry,
}

struct Slot {
    key: String,
    mark: Mark,
}

/// The memory: at most `cap` sessions, or one where `cap` is zero, each
/// believed for less than `ttl` nanoseconds.
pub struct NegCache {
    ttl: u128,
    cap: usize,
    slots: Vec<Slot>,
}

spec fn distinct(slots: Seq<Slot>) -> bool {
    forall|i: int, j: int|
        0 <= i < j < slots.len() ==> (#[trigger] slots[i]).key@ != (#[trigger] slots[j]).key@
}

spec fn slots_map(slots: Seq<Slot>) -> Map<Seq<char>, Mark>
    decreases slots.len(),
{
    if slots.len() == 0 {
        Map::empty()
    } else {
        slots_map(slots.drop_last()).insert(slots.last().key@, slots.last().mark)
    }
}

proof fn lemma_slots_map(slots: Seq<Slot>)
    requires
        distinct(slots),
    ensures
        slots_map(slots).dom().finite(),
        slots_map(slots).len() == slots.len(),
        forall|k: Seq<char>| #[trigger]
            slots_map(slots).contains_key(k) ==> exists|i: int|
                0 <= i < slots.len() && (#[trigger] slots[i]).key@ == k,
        forall|i: int|
            #![trigger slots[i]]
            0 <= i < slots.len() ==> slots_map(slots).contains_key(slots[i].key@) && slots_map(
                slots,
            )[slots[i].key@] == slots[i].mark,
    decreases slots.len(),
{
    if slots.len() > 0 {
        let rest = slots.drop_last();
        assert(distinct(rest)) by {
            assert forall|i: int, j: int| 0 <= i < j < rest.len() implies (
            #[trigger] rest[i]).key@ != (#[trigger] rest[j]).key@ by {
                assert(slots[i].key@ != slots[j].key@);
            }
        }
        lemma_slots_map(rest);
        let last = slots.last();
        assert(!slots_map(rest).contains_key(last.key@)) by {
            if slots_map(rest).contains_key(last.key@) {
                let i = choose|i: int| 0 <= i < rest.len() && (#[trigger] rest[i]).key@ == last.key@;
                assert(slots[i].key@ != slots[slots.len() - 1].key@);
            }
        }
        assert forall|k: Seq<char>| #[trigger] slots_map(slots).contains_key(k) implies exists|
            i: int,
        | 0 <= i < slots.len() && (#[trigger] slots[i]).key@ == k by {
            if k == last.key@ {
                assert(slots[slots.len() - 1].key@ == k);
            } else {
                assert(slots_map(rest).contains_key(k));
                let i = choose|i: int| 0 <= i < rest.len() && (#[trigger] rest[i]).key@ == k;
                assert(slots[i].key@ == k);
            }
        }
        assert forall|i: int|
            #![trigger slots[i]]
            0 <= i < slots.len() implies slots_map(slots).contains_key(slots[i].key@) && slots_map(
            slots,
        )[slots[i].key@] == slots[i].mark by {
            if i < slots.len() - 1 {
                assert(rest[i] == slots[i]);
                assert(slots[i].key@ != slots[slots.len() - 1].key@);
            }
        }
    }
}

/// How long ago something was: nothing, if it is yet to come.
pub open spec fn age(now: u128, then: u128) -> int {
    if now >= then {
        now - then
    } else {
        0
    }
}

/// The part of a memory that is still believed.
pub open spec fn fresh_part(
    m: Map<Seq<char>, Mark>,
    ttl: u128,
    now: u128,
) -> Map<Seq<char>, Mark> {
    m.filter_keys(|k: Seq<char>| age(now, m[k].time) < ttl)
}

/// A memory with room for one more: a full one loses what is no longer
/// believed, and everything if it is still full then.
pub open spec fn with_room(
    m: Map<Seq<char>, Mark>,
    ttl: u128,
    cap: nat,
    now: u128,
) -> Map<Seq<char>, Mark> {
    if m.len() < cap {
        m
    } else if fresh_part(m, ttl, now).len() < cap {
        fresh_part(m, ttl, now)
    } else {
        Map::empty()
    }
}

/// What a memory answers of a session at a time.
pub open spec fn answer(
    m: Map<Seq<char>, Mark>,
    ttl: u128,
    key: Seq<char>,
    now: u128,
) -> Option<NegEntry> {
    if m.contains_key(key) && age(now, m[key].time) < ttl {
        Some(m[key].entry)
    } else {
        None
    }
}

/// What is left of a memory after it was asked of a session at a time.
pub open spec fn once_asked(
    m: Map<Seq<char>, Mark>,
    ttl: u128,
    key: Seq<char>,
    now: u128,
) -> Map<Seq<char>, Mark> {
    if m.contains_key(key) && age(now, m[key].time) >= ttl {
        m.remove(key)
    } else {
        m
    }
}

/// What is remembered is answered until its time to live is over, and not from
/// then on. To ask does not change what is answered, of this session or of
/// another.
pub proof fn lemma_answers_expire(
    m: Map<Seq<char>, Mark>,
    ttl: u128,
    key: Seq<char>,
    other: Seq<char>,
    now: u128,
)
    ensures
        !m.contains_key(key) ==> answer(m, ttl, key, now) is None,
        m.contains_key(key) && m[key].time <= now ==> (answer(m, ttl, key, now) is Some <==> now
            - m[key].time < ttl),
        answer(m, ttl, key, now) is Some ==> answer(m, ttl, key, now) == Some(m[key].entry),
        answer(once_asked(m, ttl, key, now), ttl, other, now) == answer(m, ttl, other, now),
        answer(m, ttl, key, now) is None ==> !once_asked(m, ttl, key, now).contains_key(key),
        answer(m, ttl, key, now) is Some ==> once_asked(m, ttl, key, now) == m,
        other != key ==> once_asked(m, ttl, key, now).get(other) == m.get(other),
{
}

fn is_fresh(now: u128, then: u128, ttl: u128) -> (r: bool)
    ensures
        r == (age(now, then) < ttl),
{
    if now >= then {
        now - then < ttl
    } else {
        0 < ttl
    }
}

fn keep_fresh(slots: Vec<Slot>, ttl: u128, now: u128) -> (r: Vec<Slot>)
    requires
        distinct(slots@),
    ensures
        distinct(r@),
        slots_map(r@) == fresh_part(slots_map(slots@), ttl, now),
{
    let ghost all = slots@;
    let mut kept: Vec<Slot> = Vec::new();
    for slot in it: slots.into_iter()
        invariant
            it.seq() == all,
            distinct(all),
            distinct(kept@),
            forall|a: int|
                0 <= a < kept@.len() ==> age(now, (#[trigger] kept@[a]).mark.time) < ttl && (exists|
                    x: int,
                | 0 <= x < it.index() && #[trigger] all[x] == kept@[a]),
            forall|x: int|
                0 <= x < it.index() && age(now, (#[trigger] all[x]).mark.time) < ttl
                    ==> kept@.contains(all[x]),
    {
        let ghost i = it.index() as int;
        let ghost before = kept@;
        assert(slot == all[i]);
        if is_fresh(now, slot.mark.time, ttl) {
            kept.push(slot);
            proof {
                assert forall|a: int, b: int| 0 <= a < b < kept@.len() implies (
                #[trigger] kept@[a]).key@ != (#[trigger] kept@[b]).key@ by {
                    if b == kept@.len() - 1 {
                        assert(before[a] == kept@[a]);
                        let x = choose|x: int| 0 <= x < i && #[trigger] all[x] == before[a];
                        assert(all[x].key@ != all[i].key@);
                    } else {
                        assert(before[a].key@ != before[b].key@);
                    }
                }
                assert forall|a: int| 0 <= a < kept@.len() implies exists|x: int|
                    0 <= x < i + 1 && #[trigger] all[x] == #[trigger] kept@[a] by {
                    if a < before.len() {
                        assert(before[a] == kept@[a]);
                        let x = choose|x: int| 0 <= x < i && #[trigger] all[x] == before[a];
                        assert(all[x] == kept@[a]);
                    } else {
                        assert(all[i] == kept@[a]);
                    }
                }
                assert forall|x: int|
                    0 <= x < i + 1 && age(now, (#[trigger] all[x]).mark.time)
                        < ttl implies kept@.contains(all[x]) by {
                    if x < i {
                        assert(before.contains(all[x]));
                        let a = before.index_of(all[x]);
                        assert(kept@[a] == all[x]);
                    } else {
                        assert(kept@[before.len() as int] == all[x]);
                    }
                }
            }
        }
    }
    proof {
        lemma_slots_map(all);
        lemma_slots_map(kept@);
        let m = slots_map(all);
        let f = fresh_part(m, ttl, now);
        let n = slots_map(kept@);
        assert forall|k: Seq<char>| n.contains_key(k) <==> f.contains_key(k) by {
            if n.contains_key(k) {
                let a = choose|a: int| 0 <= a < kept@.len() && (#[trigger] kept@[a]).key@ == k;
                let x = choose|x: int| 0 <= x < all.len() && #[trigger] all[x] == kept@[a];
                assert(m[all[x].key@] == all[x].mark);
            }
            if f.contains_key(k) {
                assert(m.contains_key(k));
                let x = choose|x: int| 0 <= x < all.len() && (#[trigger] all[x]).key@ == k;
                assert(kept@.contains(all[x]));
                let a = kept@.index_of(all[x]);
                assert(kept@[a].key@ == k);
            }
        }
        assert forall|k: Seq<char>| n.contains_key(k) implies n[k] == f[k] by {
            let a = choose|a: int| 0 <= a < kept@.len() && (#[trigger] kept@[a]).key@ == k;
            let x = choose|x: int| 0 <= x < all.len() && #[trigger] all[x] == kept@[a];
            assert(m[all[x].key@] == all[x].mark);
        }
        assert(n =~= f);
    }
    kept
}

proof fn lemma_put(before: Seq<Slot>, after: Seq<Slot>, i: int)
    requires
        distinct(before),
        distinct(after),
        0 <= i < after.len(),
        i <= before.len(),
        after.len() == before.len() || i == before.len() && after.len() == before.len() + 1,
        forall|j: int| 0 <= j < before.len() && j != i ==> #[trigger] after[j] == before[j],
        i < before.len() ==> before[i].key@ == after[i].key@,
    ensures
        slots_map(after) == slots_map(before).insert(after[i].key@, after[i].mark),
{
    lemma_slots_map(before);
    lemma_slots_map(after);
    let m = slots_map(before).insert(after[i].key@, after[i].mark);
    let n = slots_map(after);
    assert forall|k: Seq<char>| n.contains_key(k) <==> m.contains_key(k) by {
        if n.contains_key(k) {
            let a = choose|a: int| 0 <= a < after.len() && (#[trigger] after[a]).key@ == k;
            if a != i {
                assert(before[a].key@ == k);
            }
        }
        if m.contains_key(k) {
            if k != after[i].key@ {
                assert(slots_map(before).contains_key(k));
                let a = choose|a: int| 0 <= a < before.len() && (#[trigger] before[a]).key@ == k;
                assert(after[a].key@ == k);
            }
        }
    }
    assert forall|k: Seq<char>| n.contains_key(k) implies n[k] == m[k] by {
        let a = choose|a: int| 0 <= a < after.len() && (#[trigger] after[a]).key@ == k;
        if a != i {
            assert(before[a] == after[a]);
            if a < i {
                assert(after[a].key@ != after[i].key@);
            } else {
                assert(after[i].key@ != after[a].key@);
            }
        }
    }
    assert(n =~= m);
}

fn put(slots: &mut Vec<Slot>, key: String, mark: Mark)
    requires
        distinct(old(slots)@),
    ensures
        distinct(final(slots)@),
        slots_map(final(slots)@) == slots_map(old(slots)@).insert(key@, mark),
        final(slots)@.len() <= old(slots)@.len() + 1,
{
    let ghost before = slots@;
    let total: usize = slots.len();
    for i in 0..total
        invariant
            slots@ == before,
            before == old(slots)@,
            total == before.len(),
            distinct(before),
            forall|j: int| 0 <= j < i ==> (#[trigger] before[j]).key@ != key@,
    {
        if same(&slots[i].key, &key) {
            slots.set(i, Slot { key, mark });
            proof {
                let after = slots@;
                assert forall|a: int, b: int| 0 <= a < b < after.len() implies (
                #[trigger] after[a]).key@ != (#[trigger] after[b]).key@ by {
                    assert(before[a].key@ != before[b].key@);
                }
                lemma_put(before, after, i as int);
            }
            return ;
        }
    }
    slots.push(Slot { key, mark });
    proof {
        let after = slots@;
        assert forall|a: int, b: int| 0 <= a < b < after.len() implies (#[trigger] after[a]).key@
            != (#[trigger] after[b]).key@ by {
            assert(before[a] == after[a]);
            if b < before.len() {
                assert(before[b] == after[b]);
            }
        }
        lemma_put(before, after, before.len() as int);
    }
}

impl NegCache {
    /// What is remembered.
    pub closed spec fn view(&self) -> Map<Seq<char>, Mark> {
        slots_map(self.slots@)
    }

    /// For how long something is believed.
    pub closed spec fn ttl(&self) -> u128 {
        self.ttl
    }

    /// How much is remembered at most.
    pub closed spec fn cap(&self) -> nat {
        self.cap as nat
    }

    #[verifier::type_invariant]
    spec fn wf(self) -> bool {
        distinct(self.slots@) && self.slots@.len() <= if self.cap == 0 {
            1
        } else {
            self.cap as int
        }
    }

    /// An empty memory.
    pub fn new(ttl: u128, cap: usize) -> (r: NegCache)
        ensures
            r@ == Map::<Seq<char>, Mark>::empty(),
            r.ttl() == ttl,
            r.cap() == cap,
    {
        NegCache { ttl, cap, slots: Vec::new() }
    }

    /// How many sessions are remembered: never more than the memory was made
    /// for.
    pub fn len(&self) -> (n: usize)
        ensures
            n == self@.len(),
            self@.dom().finite(),
            n <= self.cap() || n <= 1,
    {
        proof {
            use_type_invariant(self);
            lemma_slots_map(self.slots@);
        }
        self.slots.len()
    }

    fn find(&self, key: &str) -> (r: Option<usize>)
        ensures
            match r {
                Some(i) => i < self.slots@.len() && self.slots@[i as int].key@ == key@,
                None => !self@.contains_key(key@),
            },
    {
        for i in 0..self.slots.len()
            invariant
                forall|j: int| 0 <= j < i ==> (#[trigger] self.slots@[j]).key@ != key@,
        {
            if same(&self.slots[i].key, key) {
                return Some(i);
            }
        }
        proof {
            use_type_invariant(self);
            lemma_slots_map(self.slots@);
        }
        None
    }

    /// What is remembered of a session at a time. What is no longer believed is
    /// forgotten.
    pub fn get(&mut self, key: &str, now: u128) -> (r: Option<NegEntry>)
        ensures
            r == answer(old(self)@, old(self).ttl(), key@, now),
            final(self)@ == once_asked(old(self)@, old(self).ttl(), key@, now),
            final(self).ttl() == old(self).ttl(),
            final(self).cap() == old(self).cap(),
            match old(self)@.get(key@) {
                Some(mark) => if age(now, mark.time) < old(self).ttl() {
                    r == Some(mark.entry) && final(self)@ == old(self)@
                } else {
                    r is None && final(self)@ == old(self)@.remove(key@)
                },
                None => r is None && final(self)@ == old(self)@,
            },
    {
        proof {
            use_type_invariant(&*self);
            lemma_slots_map(self.slots@);
        }
        let i = match self.find(key) {
            Some(i) => i,
            None => return None,
        };
        let mark = self.slots[i].mark;
        if is_fresh(now, mark.time, self.ttl) {
            return Some(mark.entry);
        }
        let ghost before = self.slots@;
        let mut slots: Vec<Slot> = Vec::new();
        std::mem::swap(&mut slots, &mut self.slots);
        let gone = slots.remove(i);
        proof {
            let after = slots@;
            assert(after =~= before.remove(i as int));
            assert forall|a: int, b: int| 0 <= a < b < after.len() implies (
            #[trigger] after[a]).key@ != (#[trigger] after[b]).key@ by {
                let x = if a < i { a } else { a + 1 };
                let y = if b < i { b } else { b + 1 };
                assert(before[x].key@ != before[y].key@);
            }
            lemma_slots_map(after);
            let m = slots_map(before);
            let n = slots_map(after);
            assert forall|k: Seq<char>| n.contains_key(k) <==> m.remove(key@).contains_key(k) by {
                if n.contains_key(k) {
                    let a = choose|a: int| 0 <= a < after.len() && (#[trigger] after[a]).key@ == k;
                    let x = if a < i { a } else { a + 1 };
                    assert(before[x].key@ == k);
                    if x < i {
                        assert(before[x].key@ != before[i as int].key@);
                    } else {
                        assert(before[i as int].key@ != before[x].key@);
                    }
                }
                if m.remove(key@).contains_key(k) {
                    let x = choose|x: int| 0 <= x < before.len() && (#[trigger] before[x]).key@ == k;
                    let a = if x < i { x } else { x - 1 };
                    assert(after[a].key@ == k);
                }
            }
            assert forall|k: Seq<char>| n.contains_key(k) implies n[k] == m.remove(key@)[k] by {
                let a = choose|a: int| 0 <= a < after.len() && (#[trigger] after[a]).key@ == k;
                let x = if a < i { a } else { a + 1 };
                assert(before[x] == after[a]);
            }
            assert(n =~= m.remove(key@));
        }
        self.slots = slots;
        None
    }

    /// Remembers a session, as found at a time. A full memory first makes
    /// room.
    pub fn insert(&mut self, key: String, entry: NegEntry, now: u128)
        ensures
            final(self).ttl() == old(self).ttl(),
            final(self).cap() == old(self).cap(),
            final(self)@ == with_room(old(self)@, old(self).ttl(), old(self).cap(), now).insert(
                key@,
                Mark { time: now, entry },
            ),
    {
        proof {
            use_type_invariant(&*self);
            lemma_slots_map(self.slots@);
        }
        let mut slots: Vec<Slot> = Vec::new();
        std::mem::swap(&mut slots, &mut self.slots);
        if slots.len() >= self.cap {
            slots = keep_fresh(slots, self.ttl, now);
            proof {
                lemma_slots_map(slots@);
            }
            if slots.len() >= self.cap {
                slots = Vec::new();
            }
        }
        put(&mut slots, key, Mark { time: now, entry });
        self.slots = slots;
    }
}

/// A session that was remembered a moment ago is answered as it was found.
pub proof fn lemma_get_after_insert(
    m: Map<Seq<char>, Mark>,
    ttl: u128,
    cap: nat,
    key: Seq<char>,
    entry: NegEntry,
    then: u128,
    now: u128,
)
    requires
        age(now, then) < ttl,
    ensures
        ({
            let found = with_room(m, ttl, cap, then).insert(key, Mark { time: then, entry }).get(
                key,
            );
            found matches Some(mark) && age(now, mark.time) < ttl && mark.entry == entry
        }),
{
}

/// Remembering one session does not change what is known of another, unless
/// the memory was full.
pub proof fn lemma_insert_keeps_others(
    m: Map<Seq<char>, Mark>,
    ttl: u128,
    cap: nat,
    key: Seq<char>,
    mark: Mark,
    other: Seq<char>,
)
    requires
        m.len() < cap,
        other != key,
    ensures
        with_room(m, ttl, cap, mark.time).insert(key, mark).get(other) == m.get(other),
{
}

/// What was found later than now is no time ago, and anything else as long ago
/// as the difference.
pub proof fn lemma_age(now: u128, then: u128)
    ensures
        age(now, then) >= 0,
        now <= then ==> age(now, then) == 0,
        now >= then ==> age(now, then) + then == now,
{
}

/// Making room never changes what is kept, and adds nothing. A memory that is
/// not full keeps everything; a full one keeps what is still believed, unless
/// that fills it too. There is room then.
pub proof fn lemma_room_is_made(
    m: Map<Seq<char>, Mark>,
    ttl: u128,
    cap: nat,
    now: u128,
    key: Seq<char>,
)
    ensures
        with_room(m, ttl, cap, now).contains_key(key) ==> m.contains_key(key) && with_room(
            m,
            ttl,
            cap,
            now,
        )[key] == m[key],
        m.len() < cap ==> with_room(m, ttl, cap, now) == m,
        cap > 0 ==> with_room(m, ttl, cap, now).len() < cap,
        m.len() >= cap && m.contains_key(key) && age(now, m[key].time) >= ttl ==> !with_room(
            m,
            ttl,
            cap,
            now,
        ).contains_key(key),
        fresh_part(m, ttl, now).len() < cap && m.contains_key(key) && age(now, m[key].time) < ttl
            ==> with_room(m, ttl, cap, now).contains_key(key),
{
}

/// What is still believed is what was found less than the time to live ago.
pub proof fn lemma_fresh_part(
    m: Map<Seq<char>, Mark>,
    ttl: u128,
    now: u128,
    key: Seq<char>,
)
    ensures
        fresh_part(m, ttl, now).contains_key(key) <==> m.contains_key(key) && ttl > 0 && (now
            < m[key].time || now - m[key].time < ttl),
        fresh_part(m, ttl, now).contains_key(key) ==> fresh_part(m, ttl, now)[key] == m[key],
{
}

} // verus!
