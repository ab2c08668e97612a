//! Answer popups: the bookkeeping of open popup windows.
//!
//! Every popup gets a fresh decimal id (1, 2, 3, ...), keeps the payload its
//! page asks for, and occupies a place in the stack at the top right of the
//! screen: the lowest place that no other open popup holds.

use vstd::prelude::*;
use crate::text::{decimal, decimal_string, lemma_decimal_injective, text_eq};
use crate::urls::{checked_url, popup_page, popup_page_url};

verus! {

/// One open popup.
struct PopupEntry {
    id: String,
    payload: String,
    slot: usize,
    /// The number whose decimal notation is `id`.
    number: Ghost<nat>,
}

/// The open popups, their payloads, their stack places and the pinned ids.
pub struct PopupStore {
    next_id: u64,
    open: Vec<PopupEntry>,
    pinned: Vec<String>,
}

/// Abstract state of a [`PopupStore`].
pub struct PopupStoreView {
    /// The number of ids handed out so far; the next id is one more.
    pub next_id: nat,
    /// Payload of each open popup, by id.
    pub payloads: Map<Seq<char>, Seq<char>>,
    /// Occupied stack places (0 = top) and the id of the popup in each.
    pub slots: Map<nat, Seq<char>>,
    /// Ids marked as pinned.
    pub pinned: Set<Seq<char>>,
}

spec fn has_id(s: Seq<PopupEntry>, k: Seq<char>) -> bool {
    exists|i: int| 0 <= i < s.len() && #[trigger] s[i].id@ == k
}

spec fn index_of_id(s: Seq<PopupEntry>, k: Seq<char>) -> int {
    choose|i: int| 0 <= i < s.len() && #[trigger] s[i].id@ == k
}

spec fn has_slot(s: Seq<PopupEntry>, v: nat) -> bool {
    exists|i: int| 0 <= i < s.len() && #[trigger] s[i].slot == v
}

spec fn index_of_slot(s: Seq<PopupEntry>, v: nat) -> int {
    choose|i: int| 0 <= i < s.len() && #[trigger] s[i].slot == v
}

spec fn payload_map(s: Seq<PopupEntry>) -> Map<Seq<char>, Seq<char>> {
    Map::new(|k: Seq<char>| has_id(s, k), |k: Seq<char>| s[index_of_id(s, k)].payload@)
}

spec fn slot_map(s: Seq<PopupEntry>) -> Map<nat, Seq<char>> {
    Map::new(|v: nat| has_slot(s, v), |v: nat| s[index_of_slot(s, v)].id@)
}

spec fn pinned_set(p: Seq<String>) -> Set<Seq<char>> {
    Set::new(|k: Seq<char>| exists|i: int| 0 <= i < p.len() && #[trigger] p[i]@ == k)
}


spec fn distinct_ids(s: Seq<PopupEntry>) -> bool {
    forall|i: int, j: int|
        #![trigger s[i], s[j]]
        0 <= i < s.len() && 0 <= j < s.len() && i != j ==> s[i].id@ != s[j].id@
}

spec fn distinct_slots(s: Seq<PopupEntry>) -> bool {
    forall|i: int, j: int|
        #![trigger s[i], s[j]]
        0 <= i < s.len() && 0 <= j < s.len() && i != j ==> s[i].slot != s[j].slot
}

proof fn lemma_index_of_id(s: Seq<PopupEntry>, k: Seq<char>, i: int)
    requires
        distinct_ids(s),
        0 <= i < s.len(),
        s[i].id@ == k,
    ensures
        has_id(s, k),
        index_of_id(s, k) == i,
        payload_map(s).contains_key(k),
        payload_map(s)[k] == s[i].payload@,
{
    assert(has_id(s, k));
    let j = index_of_id(s, k);
    assert(s[j].id@ == k);
    if j != i {
        assert(s[i].id@ != s[j].id@);
    }
}

proof fn lemma_index_of_slot(s: Seq<PopupEntry>, v: nat, i: int)
    requires
        distinct_slots(s),
        0 <= i < s.len(),
        s[i].slot == v,
    ensures
        has_slot(s, v),
        index_of_slot(s, v) == i,
        slot_map(s).contains_key(v),
        slot_map(s)[v] == s[i].id@,
{
    assert(has_slot(s, v));
    let j = index_of_slot(s, v);
    assert(s[j].slot == v);
    if j != i {
        assert(s[i].slot != s[j].slot);
    }
}

/// Among `n` entries some place in `0..=n` is free.
proof fn lemma_free_slot_exists(s: Seq<PopupEntry>)
    ensures
        exists|v: nat| v <= s.len() && !has_slot(s, v),
{
    let sl = s.map_values(|e: PopupEntry| e.slot as nat);
    if forall|v: nat| v <= s.len() ==> has_slot(s, v) {
        let r = Set::<nat>::range(0, s.len() + 1);
        assert(r.subset_of(sl.to_set())) by {
            assert forall|v: nat| r.contains(v) implies sl.to_set().contains(v) by {
                assert(has_slot(s, v));
                let i = choose|i: int| 0 <= i < s.len() && #[trigger] s[i].slot == v;
                assert(sl[i] == v);
            }
        }
        vstd::set_lib::range_set_properties::<nat>(0, s.len() + 1);
        vstd::seq_lib::seq_to_set_is_finite(sl);
        vstd::set_lib::lemma_len_subset(r, sl.to_set());
        sl.lemma_cardinality_of_set();
        assert(false);
    }
}

/// There is a least free place below any free place.
proof fn lemma_least_free_below(m: PopupStoreView, v: nat)
    requires
        !m.slots.contains_key(v),
    ensures
        exists|w: nat| w <= v && m.is_least_free_slot(w),
    decreases v,
{
    if !m.is_least_free_slot(v) {
        let t = choose|t: nat| t < v && !#[trigger] m.slots.contains_key(t);
        lemma_least_free_below(m, t);
    }
}

/// A least free place, where one exists, is the one `least_free_slot` names.
pub proof fn lemma_least_free_is_chosen(m: PopupStoreView, v: nat)
    requires
        m.is_least_free_slot(v),
    ensures
        m.least_free_slot() == v,
{
    let w = m.least_free_slot();
    assert(m.is_least_free_slot(w));
    if w < v {
        assert(m.slots.contains_key(w));
    } else if v < w {
        assert(m.slots.contains_key(v));
    }
}

impl View for PopupStore {
    type V = PopupStoreView;

    closed spec fn view(&self) -> PopupStoreView {
        PopupStoreView {
            next_id: self.next_id as nat,
            payloads: payload_map(self.open@),
            slots: slot_map(self.open@),
            pinned: pinned_set(self.pinned@),
        }
    }
}

impl PopupStoreView {
    /// The invariant every reachable store keeps: every open id is the
    /// decimal notation of a number already handed out, and the stack places
    /// and the open popups correspond one to one.
    pub open spec fn well_formed(self) -> bool {
        &&& self.payloads.dom().finite()
        &&& self.slots.dom().finite()
        &&& forall|k: Seq<char>|
            #[trigger] self.payloads.contains_key(k) ==> exists|n: nat|
                1 <= n <= self.next_id && k == #[trigger] decimal(n)
        &&& forall|v: nat| #[trigger]
            self.slots.contains_key(v) ==> self.payloads.contains_key(self.slots[v])
        &&& forall|k: Seq<char>| #[trigger]
            self.payloads.contains_key(k) ==> exists|v: nat|
                #[trigger] self.slots.contains_key(v) && self.slots[v] == k
        &&& forall|v: nat, w: nat|
            #![trigger self.slots[v], self.slots[w]]
            self.slots.contains_key(v) && self.slots.contains_key(w) && self.slots[v]
                == self.slots[w] ==> v == w
    }

    /// What a lookup of `id` answers.
    pub open spec fn payload_of(self, id: Seq<char>) -> Option<Seq<char>> {
        if self.payloads.contains_key(id) {
            Some(self.payloads[id])
        } else {
            None
        }
    }

    /// `v` is free and every place above it is taken.
    pub open spec fn is_least_free_slot(self, v: nat) -> bool {
        &&& !self.slots.contains_key(v)
        &&& forall|t: nat| t < v ==> #[trigger] self.slots.contains_key(t)
    }

    /// The lowest stack place that no open popup holds.
    pub open spec fn least_free_slot(self) -> nat {
        choose|v: nat| self.is_least_free_slot(v)
    }

    /// Opening a popup: the next id, the payload stored under it, and the
    /// least free stack place taken by it.
    pub open spec fn allocate(self, payload: Seq<char>) -> (PopupStoreView, Seq<char>, nat) {
        let id = decimal(self.next_id + 1);
        let slot = self.least_free_slot();
        (
            PopupStoreView {
                next_id: self.next_id + 1,
                payloads: self.payloads.insert(id, payload),
                slots: self.slots.insert(slot, id),
                pinned: self.pinned,
            },
            id,
            slot,
        )
    }

    /// Closing a popup: its payload, pin mark and stack place are dropped.
    pub open spec fn release(self, id: Seq<char>) -> PopupStoreView {
        PopupStoreView {
            next_id: self.next_id,
            payloads: self.payloads.remove(id),
            slots: Map::new(
                |v: nat| self.slots.contains_key(v) && self.slots[v] != id,
                |v: nat| self.slots[v],
            ),
            pinned: self.pinned.remove(id),
        }
    }

    /// Marking an id as pinned.
    pub open spec fn pin(self, id: Seq<char>) -> PopupStoreView {
        PopupStoreView { pinned: self.pinned.insert(id), ..self }
    }
}

impl PopupStore {
    /// Internal consistency of the representation.
    pub closed spec fn wf(&self) -> bool {
        let s = self.open@;
        let p = self.pinned@;
        &&& forall|i: int|
            #![trigger s[i]]
            0 <= i < s.len() ==> 1 <= s[i].number@ <= self.next_id && s[i].id@ == decimal(
                s[i].number@,
            )
        &&& forall|i: int, j: int|
            #![trigger s[i], s[j]]
            0 <= i < s.len() && 0 <= j < s.len() && i != j ==> s[i].id@ != s[j].id@ && s[i].slot
                != s[j].slot
        &&& forall|i: int, j: int|
            #![trigger p[i], p[j]]
            0 <= i < p.len() && 0 <= j < p.len() && i != j ==> p[i]@ != p[j]@
    }

    /// An empty store: no popup open, no id handed out.
    pub fn new() -> (res: PopupStore)
        ensures
            res.wf(),
            res@.next_id == 0,
            res@.payloads == Map::<Seq<char>, Seq<char>>::empty(),
            res@.slots == Map::<nat, Seq<char>>::empty(),
            res@.pinned == Set::<Seq<char>>::empty(),
    {
        let res = PopupStore { next_id: 0, open: Vec::new(), pinned: Vec::new() };
        assert(res@.payloads =~= Map::<Seq<char>, Seq<char>>::empty());
        assert(res@.slots =~= Map::<nat, Seq<char>>::empty());
        assert(res@.pinned =~= Set::<Seq<char>>::empty());
        res
    }

    fn find_open(&self, id: &str) -> (res: Option<usize>)
        ensures
            match res {
                Some(i) => i < self.open@.len() && self.open@[i as int].id@ == id@,
                None => !has_id(self.open@, id@),
            },
    {
        let mut i: usize = 0;
        while i < self.open.len()
            invariant
                i <= self.open@.len(),
                forall|j: int| 0 <= j < i ==> self.open@[j].id@ != id@,
            decreases self.open@.len() - i,
        {
            if text_eq(self.open[i].id.as_str(), id) {
                return Some(i);
            }
            i = i + 1;
        }
        None
    }

    fn find_pinned(&self, id: &str) -> (res: Option<usize>)
        ensures
            match res {
                Some(i) => i < self.pinned@.len() && self.pinned@[i as int]@ == id@,
                None => !pinned_set(self.pinned@).contains(id@),
            },
    {
        let mut i: usize = 0;
        while i < self.pinned.len()
            invariant
                i <= self.pinned@.len(),
                forall|j: int| 0 <= j < i ==> self.pinned@[j]@ != id@,
            decreases self.pinned@.len() - i,
        {
            if text_eq(self.pinned[i].as_str(), id) {
                return Some(i);
            }
            i = i + 1;
        }
        None
    }

    proof fn lemma_wf_parts(&self)
        requires
            self.wf(),
        ensures
            distinct_ids(self.open@),
            distinct_slots(self.open@),
    {
    }

    /// A consistent representation has a well-formed abstract state.
    pub proof fn lemma_view_well_formed(&self)
        requires
            self.wf(),
        ensures
            self@.well_formed(),
    {
        let s = self.open@;
        let m = self@;
        let ids = s.map_values(|e: PopupEntry| e.id@);
        let sl = s.map_values(|e: PopupEntry| e.slot as nat);
        assert(m.payloads.dom() =~= ids.to_set()) by {
            assert forall|k: Seq<char>| m.payloads.dom().contains(k) implies ids.to_set().contains(k) by {
                let i = choose|i: int| 0 <= i < s.len() && #[trigger] s[i].id@ == k;
                assert(ids[i] == k);
            }
            assert forall|k: Seq<char>| ids.to_set().contains(k) implies m.payloads.dom().contains(k) by {
                let i = choose|i: int| 0 <= i < ids.len() && ids[i] == k;
                assert(s[i].id@ == k);
            }
        }
        assert(m.slots.dom() =~= sl.to_set()) by {
            assert forall|v: nat| m.slots.dom().contains(v) implies sl.to_set().contains(v) by {
                let i = choose|i: int| 0 <= i < s.len() && #[trigger] s[i].slot == v;
                assert(sl[i] == v);
            }
            assert forall|v: nat| sl.to_set().contains(v) implies m.slots.dom().contains(v) by {
                let i = choose|i: int| 0 <= i < sl.len() && sl[i] == v;
                assert(s[i].slot == v);
            }
        }
        vstd::seq_lib::seq_to_set_is_finite(ids);
        vstd::seq_lib::seq_to_set_is_finite(sl);
        assert forall|k: Seq<char>| #[trigger] m.payloads.contains_key(k) implies exists|n: nat|
            1 <= n <= m.next_id && k == #[trigger] decimal(n) by {
            let i = choose|i: int| 0 <= i < s.len() && #[trigger] s[i].id@ == k;
            assert(s[i].id@ == decimal(s[i].number@));
        }
        assert forall|v: nat| #[trigger] m.slots.contains_key(v) implies m.payloads.contains_key(
            m.slots[v],
        ) by {
            let i = index_of_slot(s, v);
            assert(has_id(s, s[i].id@));
        }
        assert forall|k: Seq<char>| #[trigger] m.payloads.contains_key(k) implies exists|v: nat|
            #[trigger] m.slots.contains_key(v) && m.slots[v] == k by {
            let i = index_of_id(s, k);
            lemma_index_of_slot(s, s[i].slot as nat, i);
        }
        assert forall|v: nat, w: nat|
            #![trigger m.slots[v], m.slots[w]]
            m.slots.contains_key(v) && m.slots.contains_key(w) && m.slots[v] == m.slots[w]
            implies v == w by {
            let i = index_of_slot(s, v);
            let j = index_of_slot(s, w);
            if i != j {
                assert(s[i].id@ != s[j].id@);
            }
        }
    }

    /// The lowest free stack place.
    fn least_free_slot(&self) -> (slot: usize)
        requires
            self.wf(),
        ensures
            self@.is_least_free_slot(slot as nat),
            slot <= self.open@.len(),
    {
        let ghost s = self.open@;
        proof {
            lemma_free_slot_exists(s);
        }
        let mut candidate: usize = 0;
        loop
            invariant
                s == self.open@,
                self.wf(),
                candidate <= s.len(),
                forall|t: nat| t < candidate ==> has_slot(s, t),
                exists|v: nat| v <= s.len() && !has_slot(s, v),
            decreases s.len() - candidate,
        {
            let mut i: usize = 0;
            let mut taken = false;
            while i < self.open.len()
                invariant
                    s == self.open@,
                    i <= s.len(),
                    taken ==> has_slot(s, candidate as nat),
                    !taken ==> forall|j: int| 0 <= j < i ==> s[j].slot != candidate,
                decreases s.len() - i,
            {
                if self.open[i].slot == candidate {
                    taken = true;
                    assert(s[i as int].slot == candidate);
                }
                i = i + 1;
            }
            if !taken {
                assert(!has_slot(s, candidate as nat));
                assert forall|t: nat| t < candidate implies #[trigger] self@.slots.contains_key(t) by {
                    assert(has_slot(s, t));
                }
                return candidate;
            }
            if candidate == self.open.len() {
                proof {
                    let v = choose|v: nat| v <= s.len() && !has_slot(s, v);
                    assert(has_slot(s, v));
                }
            }
            candidate = candidate + 1;
        }
    }

    /// Opens a popup: hands out the next id, stores `payload` under it and
    /// gives it the lowest free stack place. Returns the id and the place.
    pub fn allocate(&mut self, payload: String) -> (res: (String, usize))
        requires
            old(self).wf(),
            old(self)@.next_id < u64::MAX,
        ensures
            final(self).wf(),
            (final(self)@, res.0@, res.1 as nat) == old(self)@.allocate(payload@),
    {
        let ghost before = self.open@;
        let ghost old_view = self@;
        let slot: usize = self.least_free_slot();
        proof {
            lemma_least_free_is_chosen(old_view, slot as nat);
            self.lemma_wf_parts();
        }
        self.next_id = self.next_id + 1;
        let number: u64 = self.next_id;
        let id = decimal_string(number);
        proof {
            assert forall|i: int| 0 <= i < before.len() implies before[i].id@ != id@ && before[i].slot
                != slot by {
                assert(before[i].id@ == decimal(before[i].number@));
                if before[i].id@ == id@ {
                    lemma_decimal_injective(before[i].number@, number as nat);
                }
                if before[i].slot == slot {
                    assert(has_slot(before, slot as nat));
                }
            }
        }
        let entry = PopupEntry {
            id: id.clone(),
            payload,
            slot,
            number: Ghost(number as nat),
        };
        self.open.push(entry);
        proof {
            let s = self.open@;
            let n = before.len() as int;
            assert(s[n].id@ == id@);
            assert forall|i: int| 0 <= i < n implies s[i] == before[i] by {}
            assert(distinct_ids(s)) by {
                assert forall|i: int, j: int|
                    0 <= i < s.len() && 0 <= j < s.len() && i != j
                    implies #[trigger] s[i].id@ != #[trigger] s[j].id@ by {
                    if i < n && j < n {
                        assert(before[i].id@ != before[j].id@);
                    }
                }
            }
            assert(distinct_slots(s)) by {
                assert forall|i: int, j: int|
                    0 <= i < s.len() && 0 <= j < s.len() && i != j
                    implies #[trigger] s[i].slot != #[trigger] s[j].slot by {
                    if i < n && j < n {
                        assert(before[i].slot != before[j].slot);
                    }
                }
            }
            let goal = old_view.allocate(payload@).0;
            assert(self@.payloads =~= goal.payloads) by {
                assert forall|k: Seq<char>| #[trigger] goal.payloads.contains_key(k)
                    implies self@.payloads.contains_key(k) && self@.payloads[k] == goal.payloads[k] by {
                    if k == id@ {
                        lemma_index_of_id(s, k, n);
                    } else {
                        let i = index_of_id(before, k);
                        lemma_index_of_id(before, k, i);
                        lemma_index_of_id(s, k, i);
                    }
                }
                assert forall|k: Seq<char>| #[trigger] self@.payloads.contains_key(k)
                    implies goal.payloads.contains_key(k) by {
                    if k != id@ {
                        let i = index_of_id(s, k);
                        assert(i != n);
                        assert(before[i].id@ == k);
                    }
                }
            }
            assert(self@.slots =~= goal.slots) by {
                assert forall|v: nat| #[trigger] goal.slots.contains_key(v)
                    implies self@.slots.contains_key(v) && self@.slots[v] == goal.slots[v] by {
                    if v == slot as nat {
                        lemma_index_of_slot(s, v, n);
                    } else {
                        let i = index_of_slot(before, v);
                        lemma_index_of_slot(before, v, i);
                        lemma_index_of_slot(s, v, i);
                    }
                }
                assert forall|v: nat| #[trigger] self@.slots.contains_key(v)
                    implies goal.slots.contains_key(v) by {
                    if v != slot as nat {
                        let i = index_of_slot(s, v);
                        assert(i != n);
                        assert(before[i].slot == v);
                    }
                }
            }
        }
        (id, slot)
    }

    fn remove_open(&mut self, i: usize)
        requires
            old(self).wf(),
            i < old(self).open@.len(),
        ensures
            final(self).wf(),
            final(self)@.payloads == old(self)@.release(old(self).open@[i as int].id@).payloads,
            final(self)@.slots == old(self)@.release(old(self).open@[i as int].id@).slots,
            final(self).next_id == old(self).next_id,
            final(self).pinned == old(self).pinned,
    {
        let ghost before = self.open@;
        let ghost old_view = self@;
        let ghost id = before[i as int].id@;
        proof {
            self.lemma_wf_parts();
        }
        self.open.remove(i);
        proof {
            let s = self.open@;
            assert forall|j: int| 0 <= j < s.len() implies #[trigger] s[j] == (if j < i {
                before[j]
            } else {
                before[j + 1]
            }) by {}
            assert(distinct_ids(s)) by {
                assert forall|a: int, b: int|
                    0 <= a < s.len() && 0 <= b < s.len() && a != b
                    implies #[trigger] s[a].id@ != #[trigger] s[b].id@ by {
                    let a0 = if a < i { a } else { a + 1 };
                    let b0 = if b < i { b } else { b + 1 };
                    assert(before[a0].id@ != before[b0].id@);
                }
            }
            assert(distinct_slots(s)) by {
                assert forall|a: int, b: int|
                    0 <= a < s.len() && 0 <= b < s.len() && a != b
                    implies #[trigger] s[a].slot != #[trigger] s[b].slot by {
                    let a0 = if a < i { a } else { a + 1 };
                    let b0 = if b < i { b } else { b + 1 };
                    assert(before[a0].slot != before[b0].slot);
                }
            }
            let goal = old_view.release(id);
            assert(self@.payloads =~= goal.payloads) by {
                assert forall|k: Seq<char>| #[trigger] goal.payloads.contains_key(k)
                    implies self@.payloads.contains_key(k) && self@.payloads[k] == goal.payloads[k] by {
                    let j = index_of_id(before, k);
                    lemma_index_of_id(before, k, j);
                    assert(j != i);
                    let j2 = if j < i { j } else { j - 1 };
                    lemma_index_of_id(s, k, j2);
                }
                assert forall|k: Seq<char>| #[trigger] self@.payloads.contains_key(k)
                    implies goal.payloads.contains_key(k) by {
                    let j = index_of_id(s, k);
                    let j0 = if j < i { j } else { j + 1 };
                    lemma_index_of_id(before, k, j0);
                    assert(j0 != i);
                }
            }
            assert(self@.slots =~= goal.slots) by {
                assert forall|v: nat| #[trigger] goal.slots.contains_key(v)
                    implies self@.slots.contains_key(v) && self@.slots[v] == goal.slots[v] by {
                    let j = index_of_slot(before, v);
                    lemma_index_of_slot(before, v, j);
                    assert(j != i);
                    let j2 = if j < i { j } else { j - 1 };
                    lemma_index_of_slot(s, v, j2);
                }
                assert forall|v: nat| #[trigger] self@.slots.contains_key(v)
                    implies goal.slots.contains_key(v) by {
                    let j = index_of_slot(s, v);
                    let j0 = if j < i { j } else { j + 1 };
                    lemma_index_of_slot(before, v, j0);
                    assert(j0 != i);
                }
            }
        }
    }

    fn remove_pinned(&mut self, j: usize)
        requires
            old(self).wf(),
            j < old(self).pinned@.len(),
        ensures
            final(self).wf(),
            final(self).open == old(self).open,
            final(self).next_id == old(self).next_id,
            final(self)@.pinned == old(self)@.pinned.remove(old(self).pinned@[j as int]@),
    {
        let ghost before = self.pinned@;
        let ghost id = before[j as int]@;
        self.pinned.remove(j);
        proof {
            let p = self.pinned@;
            assert forall|a: int| 0 <= a < p.len() implies #[trigger] p[a] == (if a < j {
                before[a]
            } else {
                before[a + 1]
            }) by {}
            assert forall|a: int, b: int|
                0 <= a < p.len() && 0 <= b < p.len() && a != b
                implies #[trigger] p[a]@ != #[trigger] p[b]@ by {
                let a0 = if a < j { a } else { a + 1 };
                let b0 = if b < j { b } else { b + 1 };
                assert(before[a0]@ != before[b0]@);
            }
            assert(pinned_set(p) =~= pinned_set(before).remove(id)) by {
                assert forall|k: Seq<char>| #[trigger] pinned_set(p).contains(k)
                    implies pinned_set(before).remove(id).contains(k) by {
                    let a = choose|a: int| 0 <= a < p.len() && #[trigger] p[a]@ == k;
                    let a0 = if a < j { a } else { a + 1 };
                    assert(before[a0]@ == k);
                    assert(a0 != j);
                    assert(before[a0]@ != before[j as int]@);
                }
                assert forall|k: Seq<char>| #[trigger] pinned_set(before).remove(id).contains(k)
                    implies pinned_set(p).contains(k) by {
                    let a = choose|a: int| 0 <= a < before.len() && #[trigger] before[a]@ == k;
                    assert(a != j);
                    let a2 = if a < j { a } else { a - 1 };
                    assert(p[a2]@ == k);
                }
            }
        }
    }

    /// Closes the popup `id`: drops its payload, its pin mark and its stack
    /// place. Unknown ids leave the store as it is.
    pub fn release(&mut self, id: &str)
        requires
            old(self).wf(),
        ensures
            final(self).wf(),
            final(self)@ == old(self)@.release(id@),
    {
        let ghost old_view = self@;
        match self.find_open(id) {
            Some(i) => {
                self.remove_open(i);
            },
            None => {
                proof {
                    let s = self.open@;
                    self.lemma_view_well_formed();
                    assert(old_view.payloads.remove(id@) =~= old_view.payloads);
                    let goal = old_view.release(id@);
                    assert(goal.slots =~= old_view.slots) by {
                        assert forall|v: nat| #[trigger] old_view.slots.contains_key(v)
                            implies old_view.slots[v] != id@ by {
                            assert(old_view.payloads.contains_key(old_view.slots[v]));
                        }
                    }
                }
            },
        }
        let ghost mid_view = self@;
        match self.find_pinned(id) {
            Some(j) => {
                self.remove_pinned(j);
                assert(self@.payloads == mid_view.payloads);
                assert(self@.slots == mid_view.slots);
            },
            None => {
                assert(mid_view.pinned.remove(id@) =~= mid_view.pinned);
            },
        }
    }

    /// The payload of the open popup `id`, if there is one.
    pub fn payload(&self, id: &str) -> (res: Option<String>)
        requires
            self.wf(),
        ensures
            match res {
                Some(p) => self@.payload_of(id@) == Some(p@),
                None => self@.payload_of(id@) is None,
            },
    {
        match self.find_open(id) {
            Some(i) => {
                let ghost s = self.open@;
                assert(has_id(s, id@));
                let ghost j = index_of_id(s, id@);
                assert(s[j].id@ == id@);
                assert(j == i as int);
                Some(self.open[i].payload.clone())
            },
            None => None,
        }
    }

    /// Whether another id can be handed out.
    pub fn can_allocate(&self) -> (res: bool)
        ensures
            res == (self@.next_id < u64::MAX),
    {
        self.next_id < u64::MAX
    }

    /// Marks `id` as pinned (any id may be marked, open or not).
    pub fn pin(&mut self, id: &str)
        requires
            old(self).wf(),
        ensures
            final(self).wf(),
            final(self)@ == old(self)@.pin(id@),
    {
        match self.find_pinned(id) {
            Some(_) => {
                assert(self@.pinned =~= self@.pinned.insert(id@));
            },
            None => {
                let ghost before = self.pinned@;
                assert forall|i: int| 0 <= i < before.len() implies before[i]@ != id@ by {
                    if before[i]@ == id@ {
                        assert(pinned_set(before).contains(id@));
                    }
                }
                self.pinned.push(id.to_owned());
                assert(self.pinned@[before.len() as int]@ == id@);
                assert forall|i: int, j: int|
                    0 <= i < self.pinned@.len() && 0 <= j < self.pinned@.len() && i != j
                    implies #[trigger] self.pinned@[i]@ != #[trigger] self.pinned@[j]@ by {
                    if i < before.len() && j < before.len() {
                        assert(before[i] == self.pinned@[i] && before[j] == self.pinned@[j]);
                    }
                }
                assert(pinned_set(self.pinned@) =~= pinned_set(before).insert(id@)) by {
                    assert forall|k: Seq<char>| #[trigger] pinned_set(self.pinned@).contains(k)
                        implies pinned_set(before).insert(id@).contains(k) by {
                        let i = choose|i: int| 0 <= i < self.pinned@.len() && #[trigger] self.pinned@[i]@ == k;
                        if i < before.len() {
                            assert(before[i]@ == k);
                        }
                    }
                    assert forall|k: Seq<char>| #[trigger] pinned_set(before).insert(id@).contains(k)
                        implies pinned_set(self.pinned@).contains(k) by {
                        if k != id@ {
                            let i = choose|i: int| 0 <= i < before.len() && #[trigger] before[i]@ == k;
                            assert(self.pinned@[i]@ == k);
                        }
                    }
                }
                assert(self@.payloads == old(self)@.payloads);
                assert(self@.slots == old(self)@.slots);
            },
        }
    }
}

} // verus!

verus! {

/// With finitely many places taken, a least free place exists and is the
/// one `least_free_slot` names.
pub proof fn lemma_least_free_exists(m: PopupStoreView)
    requires
        m.slots.dom().finite(),
    ensures
        m.is_least_free_slot(m.least_free_slot()),
{
    let n = m.slots.dom().len();
    if forall|v: nat| v <= n ==> m.slots.contains_key(v) {
        let r = Set::<nat>::range(0, n + 1);
        vstd::set_lib::range_set_properties::<nat>(0, n + 1);
        assert(r.subset_of(m.slots.dom()));
        vstd::set_lib::lemma_len_subset(r, m.slots.dom());
        assert(false);
    }
    let v = choose|v: nat| v <= n && !m.slots.contains_key(v);
    lemma_least_free_below(m, v);
    let w = choose|w: nat| w <= v && m.is_least_free_slot(w);
    lemma_least_free_is_chosen(m, w);
}

/// A newly opened popup gets an id that no open popup has, and a stack
/// place that no open popup occupies.
pub proof fn law_allocate_is_fresh(m: PopupStoreView, payload: Seq<char>)
    requires
        m.well_formed(),
    ensures
        !m.payloads.contains_key(m.allocate(payload).1),
        !m.slots.contains_key(m.allocate(payload).2),
        forall|v: nat| v < m.allocate(payload).2 ==> #[trigger] m.slots.contains_key(v),
{
    lemma_least_free_exists(m);
    let id = m.allocate(payload).1;
    if m.payloads.contains_key(id) {
        let n = choose|n: nat| 1 <= n <= m.next_id && id == #[trigger] decimal(n);
        lemma_decimal_injective(n, m.next_id + 1);
    }
}

/// Ids are never reused: a new id differs from every id handed out before,
/// whether or not that popup is still open; closing and pinning do not move
/// the id counter.
pub proof fn law_ids_never_reused(m: PopupStoreView, payload: Seq<char>, id: Seq<char>, k: nat)
    requires
        1 <= k <= m.next_id,
    ensures
        m.allocate(payload).1 != decimal(k),
        m.allocate(payload).0.next_id == m.next_id + 1,
        m.release(id).next_id == m.next_id,
        m.pin(id).next_id == m.next_id,
{
    if m.allocate(payload).1 == decimal(k) {
        lemma_decimal_injective(k, m.next_id + 1);
    }
}

/// Opening a popup keeps the store well formed.
pub proof fn law_allocate_keeps_well_formed(m: PopupStoreView, payload: Seq<char>)
    requires
        m.well_formed(),
    ensures
        m.allocate(payload).0.well_formed(),
{
    law_allocate_is_fresh(m, payload);
    let (m1, id, slot) = m.allocate(payload);
    assert forall|k: Seq<char>| #[trigger] m1.payloads.contains_key(k) implies exists|n: nat|
        1 <= n <= m1.next_id && k == #[trigger] decimal(n) by {
        if k == id {
            assert(k == decimal(m1.next_id));
        } else {
            let n = choose|n: nat| 1 <= n <= m.next_id && k == #[trigger] decimal(n);
            assert(k == decimal(n));
        }
    }
    assert forall|k: Seq<char>| #[trigger] m1.payloads.contains_key(k) implies exists|v: nat|
        #[trigger] m1.slots.contains_key(v) && m1.slots[v] == k by {
        if k == id {
            assert(m1.slots.contains_key(slot) && m1.slots[slot] == k);
        } else {
            let v = choose|v: nat| #[trigger] m.slots.contains_key(v) && m.slots[v] == k;
            assert(m1.slots.contains_key(v) && m1.slots[v] == k);
        }
    }
    assert forall|v: nat, w: nat|
        #![trigger m1.slots[v], m1.slots[w]]
        m1.slots.contains_key(v) && m1.slots.contains_key(w) && m1.slots[v] == m1.slots[w]
        implies v == w by {
        if v != slot && w != slot {
            assert(m.slots[v] == m.slots[w]);
        } else if v != slot {
            assert(m.payloads.contains_key(m.slots[v]));
        } else if w != slot {
            assert(m.payloads.contains_key(m.slots[w]));
        }
    }
}

/// What was stored when a popup was opened is what a lookup of its id
/// gives back, and every other id answers as before.
pub proof fn law_read_after_allocate(m: PopupStoreView, payload: Seq<char>, other: Seq<char>)
    ensures
        m.allocate(payload).0.payload_of(m.allocate(payload).1) == Some(payload),
        other != m.allocate(payload).1 ==> m.allocate(payload).0.payload_of(other) == m.payload_of(
            other,
        ),
{
}

/// After a popup is closed, its id has no payload and holds no stack place.
pub proof fn law_release_forgets(m: PopupStoreView, id: Seq<char>)
    ensures
        m.release(id).payload_of(id) is None,
        forall|v: nat| #[trigger] m.release(id).slots.contains_key(v) ==> m.release(id).slots[v] != id,
        !m.release(id).pinned.contains(id),
{
}

/// Closing a popup keeps the store well formed.
pub proof fn law_release_keeps_well_formed(m: PopupStoreView, id: Seq<char>)
    requires
        m.well_formed(),
    ensures
        m.release(id).well_formed(),
{
    let m1 = m.release(id);
    assert(m1.slots.dom() =~= m.slots.dom().filter(|v: nat| m.slots[v] != id));
    vstd::set_lib::lemma_set_subset_finite(m.slots.dom(), m1.slots.dom());
    assert forall|k: Seq<char>| #[trigger] m1.payloads.contains_key(k) implies exists|v: nat|
        #[trigger] m1.slots.contains_key(v) && m1.slots[v] == k by {
        let v = choose|v: nat| #[trigger] m.slots.contains_key(v) && m.slots[v] == k;
        assert(m1.slots.contains_key(v));
    }
    assert forall|k: Seq<char>| #[trigger] m1.payloads.contains_key(k) implies exists|n: nat|
        1 <= n <= m1.next_id && k == #[trigger] decimal(n) by {
        assert(m.payloads.contains_key(k));
    }
    assert forall|v: nat, w: nat|
        #![trigger m1.slots[v], m1.slots[w]]
        m1.slots.contains_key(v) && m1.slots.contains_key(w) && m1.slots[v] == m1.slots[w]
        implies v == w by {
        assert(m.slots[v] == m.slots[w]);
    }
}

/// Pinning keeps the store well formed.
pub proof fn law_pin_keeps_well_formed(m: PopupStoreView, id: Seq<char>)
    requires
        m.well_formed(),
    ensures
        m.pin(id).well_formed(),
{
}

/// Closing a popup right after opening it gives back the store as it was,
/// apart from the id counter and a pin mark that an earlier `pin` may have
/// put on the new id.
pub proof fn law_release_undoes_allocate(m: PopupStoreView, payload: Seq<char>)
    requires
        m.well_formed(),
    ensures
        m.allocate(payload).0.release(m.allocate(payload).1) == (PopupStoreView {
            next_id: m.next_id + 1,
            payloads: m.payloads,
            slots: m.slots,
            pinned: m.pinned.remove(m.allocate(payload).1),
        }),
{
    law_allocate_is_fresh(m, payload);
    let (m1, id, slot) = m.allocate(payload);
    let m2 = m1.release(id);
    assert(m2.payloads =~= m.payloads);
    assert(m2.slots =~= m.slots) by {
        assert forall|v: nat| #[trigger] m.slots.contains_key(v) implies m.slots[v] != id by {
            assert(m.payloads.contains_key(m.slots[v]));
        }
    }
}

/// The stack place of a popup that was opened and closed again is the place
/// the next popup gets.
pub proof fn law_slot_reused(m: PopupStoreView, first: Seq<char>, second: Seq<char>)
    requires
        m.well_formed(),
    ensures
        m.allocate(first).0.release(m.allocate(first).1).allocate(second).2 == m.allocate(first).2,
{
    law_release_undoes_allocate(m, first);
    law_allocate_is_fresh(m, first);
    let m2 = m.allocate(first).0.release(m.allocate(first).1);
    let slot = m.allocate(first).2;
    assert(m2.is_least_free_slot(slot));
    lemma_least_free_is_chosen(m2, slot);
}

/// Opening a popup moves no open popup: every occupied place keeps its
/// popup.
pub proof fn law_open_popups_keep_places(m: PopupStoreView, payload: Seq<char>)
    requires
        m.well_formed(),
    ensures
        forall|v: nat| #[trigger] m.slots.contains_key(v) ==> m.allocate(payload).0.slots.contains_key(v)
            && m.allocate(payload).0.slots[v] == m.slots[v],
{
    law_allocate_is_fresh(m, payload);
}

/// Two popups opened one after the other get different ids and different
/// stack places.
pub proof fn law_consecutive_popups_differ(m: PopupStoreView, first: Seq<char>, second: Seq<char>)
    requires
        m.well_formed(),
    ensures
        m.allocate(first).0.allocate(second).1 != m.allocate(first).1,
        m.allocate(first).0.allocate(second).2 != m.allocate(first).2,
{
    law_allocate_keeps_well_formed(m, first);
    let m1 = m.allocate(first).0;
    law_allocate_is_fresh(m1, second);
}

} // verus!

verus! {

impl Default for PopupStore {
    /// An empty store, as [`PopupStore::new`].
    fn default() -> (res: PopupStore)
        ensures
            res.wf(),
            res@.next_id == 0,
            res@.payloads == Map::<Seq<char>, Seq<char>>::empty(),
            res@.slots == Map::<nat, Seq<char>>::empty(),
            res@.pinned == Set::<Seq<char>>::empty(),
    {
        PopupStore::new()
    }
}

/// Height of a popup window plus the gap below it, in logical pixels.
pub const POPUP_STRIDE: u64 = 252;

/// Margin between the screen edge and the popup stack, in logical pixels.
pub const POPUP_MARGIN: u64 = 16;

/// Distance of the top edge of the popup in stack place `slot` from the top
/// of the screen, in logical pixels.
pub open spec fn popup_top(slot: nat) -> nat {
    (POPUP_MARGIN + slot * POPUP_STRIDE) as nat
}

/// The window label of the popup `id`.
pub open spec fn popup_label(id: Seq<char>) -> Seq<char> {
    "popup-"@ + id
}

/// Top offset of the popup in stack place `slot`.
pub fn popup_top_offset(slot: usize) -> (res: u128)
    ensures
        res == popup_top(slot as nat),
{
    let wide = slot as u128;
    assert(wide * 252 <= 0xFFFF_FFFF_FFFF_FFFFu128 * 252) by (nonlinear_arith)
        requires
            wide <= 0xFFFF_FFFF_FFFF_FFFFu128,
    ;
    POPUP_MARGIN as u128 + wide * (POPUP_STRIDE as u128)
}

/// The window label of the popup `id`.
pub fn popup_window_label(id: &str) -> (res: String)
    ensures
        res@ == popup_label(id@),
{
    let mut label = String::from_str("popup-");
    label.append(id);
    label
}

/// Where and what a newly opened popup window shows.
pub struct PopupPlacement {
    pub id: String,
    pub slot: usize,
    pub window_label: String,
    pub page_url: String,
    pub top: u128,
}

/// Opens a popup for `payload` with its page on `server_url`: the popup is
/// allocated and its window label, page and position are given, or the
/// invalid-URL message if its page address does not parse (the popup then
/// stays allocated).
pub fn open(store: &mut PopupStore, server_url: &str, payload: String) -> (res: Result<
    PopupPlacement,
    String,
>)
    requires
        old(store).wf(),
        old(store)@.next_id < u64::MAX,
    ensures
        final(store).wf(),
        ({
            let (after, id, slot) = old(store)@.allocate(payload@);
            &&& final(store)@ == after
            &&& match res {
                Ok(p) => {
                    &&& p.id@ == id
                    &&& p.slot as nat == slot
                    &&& p.window_label@ == popup_label(id)
                    &&& checked_url(popup_page(server_url@, id)) == Ok::<Seq<char>, Seq<char>>(
                        p.page_url@,
                    )
                    &&& p.top == popup_top(slot)
                },
                Err(e) => checked_url(popup_page(server_url@, id)) == Err::<Seq<char>, Seq<char>>(
                    e@,
                ),
            }
        }),
{
    let (id, slot) = store.allocate(payload);
    match popup_page_url(server_url, id.as_str()) {
        Ok(page_url) => {
            let window_label = popup_window_label(id.as_str());
            let top = popup_top_offset(slot);
            Ok(PopupPlacement { id, slot, window_label, page_url, top })
        },
        Err(e) => Err(e),
    }
}

/// Closes the popup `id`: releases it and returns the label of its window.
pub fn close(store: &mut PopupStore, id: &str) -> (label: String)
    requires
        old(store).wf(),
    ensures
        final(store).wf(),
        final(store)@ == old(store)@.release(id@),
        label@ == popup_label(id@),
{
    store.release(id);
    popup_window_label(id)
}

} // verus!

verus! {

/// One operation on a popup store.
pub enum PopupOp {
    /// Opening a popup with this payload.
    Allocate(Seq<char>),
    /// Closing the popup with this id.
    Release(Seq<char>),
    /// Pinning this id.
    Pin(Seq<char>),
}

impl PopupStoreView {
    /// The store before any operation.
    pub open spec fn empty() -> PopupStoreView {
        PopupStoreView {
            next_id: 0,
            payloads: Map::empty(),
            slots: Map::empty(),
            pinned: Set::empty(),
        }
    }

    /// The store after one operation.
    pub open spec fn step(self, op: PopupOp) -> PopupStoreView {
        match op {
            PopupOp::Allocate(p) => self.allocate(p).0,
            PopupOp::Release(id) => self.release(id),
            PopupOp::Pin(id) => self.pin(id),
        }
    }

    /// The store after a sequence of operations, in order.
    pub open spec fn run(self, ops: Seq<PopupOp>) -> PopupStoreView
        decreases ops.len(),
    {
        if ops.len() == 0 {
            self
        } else {
            self.run(ops.drop_last()).step(ops.last())
        }
    }
}

/// The number of openings in a sequence of operations.
pub open spec fn allocations(ops: Seq<PopupOp>) -> nat
    decreases ops.len(),
{
    if ops.len() == 0 {
        0
    } else {
        allocations(ops.drop_last()) + if ops.last() is Allocate {
            1nat
        } else {
            0nat
        }
    }
}

/// The id that the operation at position `i` gets if it is an opening:
/// one more than the number of openings before it.
pub open spec fn returned_id(ops: Seq<PopupOp>, i: int) -> Seq<char> {
    decimal(allocations(ops.take(i)) + 1)
}

proof fn lemma_allocations_grow(ops: Seq<PopupOp>, i: int, j: int)
    requires
        0 <= i <= j <= ops.len(),
    ensures
        allocations(ops.take(i)) <= allocations(ops.take(j)),
        i < j && ops[i] is Allocate ==> allocations(ops.take(i)) + 1 <= allocations(ops.take(j)),
    decreases j - i,
{
    if i < j {
        lemma_allocations_grow(ops, i, j - 1);
        assert(ops.take(j).drop_last() =~= ops.take(j - 1));
        if i == j - 1 {
            assert(ops.take(j).last() == ops[i]);
        }
    }
}

/// A store reached from the empty one by any operations is well formed, and
/// its id counter is the number of openings.
pub proof fn law_run_well_formed(ops: Seq<PopupOp>)
    ensures
        PopupStoreView::empty().run(ops).well_formed(),
        PopupStoreView::empty().run(ops).next_id == allocations(ops),
    decreases ops.len(),
{
    let e = PopupStoreView::empty();
    if ops.len() == 0 {
        assert(e.payloads.dom() =~= Set::<Seq<char>>::empty());
        assert(e.slots.dom() =~= Set::<nat>::empty());
    } else {
        law_run_well_formed(ops.drop_last());
        let s = e.run(ops.drop_last());
        match ops.last() {
            PopupOp::Allocate(p) => law_allocate_keeps_well_formed(s, p),
            PopupOp::Release(id) => law_release_keeps_well_formed(s, id),
            PopupOp::Pin(id) => law_pin_keeps_well_formed(s, id),
        }
    }
}

/// Ids come in call order: from the empty store, the opening at position
/// `i` gets the decimal of one more than the openings before it (so "1",
/// "2", "3", ...), and two openings never get the same id, whatever was
/// closed or pinned in between.
pub proof fn law_ids_in_call_order(ops: Seq<PopupOp>, i: int, j: int)
    requires
        0 <= i < ops.len(),
        ops[i] is Allocate,
    ensures
        PopupStoreView::empty().run(ops.take(i)).allocate(ops[i]->Allocate_0).1 == returned_id(
            ops,
            i,
        ),
        i < j < ops.len() && ops[j] is Allocate ==> returned_id(ops, i) != returned_id(ops, j),
{
    law_run_well_formed(ops.take(i));
    if i < j < ops.len() && ops[j] is Allocate {
        lemma_allocations_grow(ops, i, j);
        if returned_id(ops, i) == returned_id(ops, j) {
            lemma_decimal_injective(allocations(ops.take(i)) + 1, allocations(ops.take(j)) + 1);
        }
    }
}

/// The payload history: from the empty store, a lookup of `id` gives `p`
/// exactly when an opening with payload `p` got `id` and no closing of `id`
/// came after it.
pub proof fn law_payload_history(ops: Seq<PopupOp>, id: Seq<char>, p: Seq<char>)
    ensures
        PopupStoreView::empty().run(ops).payload_of(id) == Some(p) <==> exists|i: int|
            0 <= i < ops.len() && ops[i] == PopupOp::Allocate(p) && returned_id(ops, i) == id
                && forall|j: int| i < j < ops.len() ==> ops[j] != PopupOp::Release(id),
    decreases ops.len(),
{
    if ops.len() == 0 {
        return;
    }
    let n = ops.len() - 1;
    let prev = ops.drop_last();
    law_payload_history(prev, id, p);
    law_run_well_formed(prev);
    let s = PopupStoreView::empty().run(prev);
    assert forall|i: int| 0 <= i <= n implies #[trigger] ops.take(i) == prev.take(i) by {
        assert(ops.take(i) =~= prev.take(i));
    }
    assert(ops.take(n) =~= prev);
    let after = PopupStoreView::empty().run(ops);
    let found = exists|i: int|
        0 <= i < ops.len() && ops[i] == PopupOp::Allocate(p) && returned_id(ops, i) == id
            && forall|j: int| i < j < ops.len() ==> ops[j] != PopupOp::Release(id);
    let found_prev = exists|i: int|
        0 <= i < prev.len() && prev[i] == PopupOp::Allocate(p) && returned_id(prev, i) == id
            && forall|j: int| i < j < prev.len() ==> prev[j] != PopupOp::Release(id);
    match ops.last() {
        PopupOp::Allocate(q) => {
            let new_id = decimal(s.next_id + 1);
            assert(returned_id(ops, n) == new_id);
            if id == new_id {
                // Only the last opening can have produced this id.
                assert forall|i: int|
                    0 <= i < n && ops[i] is Allocate implies returned_id(ops, i) != id by {
                    lemma_allocations_grow(ops, i, n);
                    if returned_id(ops, i) == id {
                        lemma_decimal_injective(allocations(ops.take(i)) + 1, s.next_id + 1);
                    }
                }
                if after.payload_of(id) == Some(p) {
                    assert(ops[n] == PopupOp::Allocate(p));
                }
                if found {
                    let i = choose|i: int|
                        0 <= i < ops.len() && ops[i] == PopupOp::Allocate(p) && returned_id(ops, i)
                            == id && forall|j: int|
                            i < j < ops.len() ==> ops[j] != PopupOp::Release(id);
                    assert(i == n);
                }
            } else {
                assert(after.payload_of(id) == s.payload_of(id));
                if found {
                    let i = choose|i: int|
                        0 <= i < ops.len() && ops[i] == PopupOp::Allocate(p) && returned_id(ops, i)
                            == id && forall|j: int|
                            i < j < ops.len() ==> ops[j] != PopupOp::Release(id);
                    assert(i != n);
                    assert(prev[i] == ops[i]);
                    assert(returned_id(prev, i) == returned_id(ops, i));
                    assert forall|j: int| i < j < prev.len() implies prev[j] != PopupOp::Release(id) by {
                        assert(prev[j] == ops[j]);
                    }
                }
                if found_prev {
                    let i = choose|i: int|
                        0 <= i < prev.len() && prev[i] == PopupOp::Allocate(p) && returned_id(prev, i)
                            == id && forall|j: int|
                            i < j < prev.len() ==> prev[j] != PopupOp::Release(id);
                    assert(ops[i] == prev[i]);
                    assert(returned_id(prev, i) == returned_id(ops, i));
                    assert forall|j: int| i < j < ops.len() implies ops[j] != PopupOp::Release(id) by {
                        if j < n {
                            assert(prev[j] == ops[j]);
                        }
                    }
                }
            }
        },
        PopupOp::Release(r) => {
            if r == id {
                assert(after.payload_of(id) is None);
                if found {
                    let i = choose|i: int|
                        0 <= i < ops.len() && ops[i] == PopupOp::Allocate(p) && returned_id(ops, i)
                            == id && forall|j: int|
                            i < j < ops.len() ==> ops[j] != PopupOp::Release(id);
                    assert(i != n);
                    assert(ops[n] == PopupOp::Release(id));
                }
            } else {
                assert(after.payload_of(id) == s.payload_of(id));
                if found {
                    let i = choose|i: int|
                        0 <= i < ops.len() && ops[i] == PopupOp::Allocate(p) && returned_id(ops, i)
                            == id && forall|j: int|
                            i < j < ops.len() ==> ops[j] != PopupOp::Release(id);
                    assert(i != n);
                    assert(prev[i] == ops[i]);
                    assert(returned_id(prev, i) == returned_id(ops, i));
                    assert forall|j: int| i < j < prev.len() implies prev[j] != PopupOp::Release(id) by {
                        assert(prev[j] == ops[j]);
                    }
                }
                if found_prev {
                    let i = choose|i: int|
                        0 <= i < prev.len() && prev[i] == PopupOp::Allocate(p) && returned_id(prev, i)
                            == id && forall|j: int|
                            i < j < prev.len() ==> prev[j] != PopupOp::Release(id);
                    assert(ops[i] == prev[i]);
                    assert(returned_id(prev, i) == returned_id(ops, i));
                    assert forall|j: int| i < j < ops.len() implies ops[j] != PopupOp::Release(id) by {
                        if j < n {
                            assert(prev[j] == ops[j]);
                        }
                    }
                }
            }
        },
        PopupOp::Pin(r) => {
            assert(after.payload_of(id) == s.payload_of(id));
            if found {
                let i = choose|i: int|
                    0 <= i < ops.len() && ops[i] == PopupOp::Allocate(p) && returned_id(ops, i)
                        == id && forall|j: int|
                        i < j < ops.len() ==> ops[j] != PopupOp::Release(id);
                assert(i != n);
                assert(prev[i] == ops[i]);
                assert(returned_id(prev, i) == returned_id(ops, i));
                assert forall|j: int| i < j < prev.len() implies prev[j] != PopupOp::Release(id) by {
                    assert(prev[j] == ops[j]);
                }
            }
            if found_prev {
                let i = choose|i: int|
                    0 <= i < prev.len() && prev[i] == PopupOp::Allocate(p) && returned_id(prev, i)
                        == id && forall|j: int|
                        i < j < prev.len() ==> prev[j] != PopupOp::Release(id);
                assert(ops[i] == prev[i]);
                assert(returned_id(prev, i) == returned_id(ops, i));
                assert forall|j: int| i < j < ops.len() implies ops[j] != PopupOp::Release(id) by {
                    if j < n {
                        assert(prev[j] == ops[j]);
                    }
                }
            }
        },
    }
}

} // verus!
