//! Device tags: the numbers under which the multiplexer forwards commands, and whose they are.
use crate::seqs::lemma_push_to_set;
use std::collections::HashMap;
use vstd::prelude::*;

verus! {

broadcast use vstd::std_specs::hash::group_hash_axioms;

/// Identifies a connected client.
pub type ClientId = u64;

/// How many device tags there are: every `u16` but zero.
pub const TAG_COUNT: usize = 65535;

/// A command in flight: who sent it, under which tag of theirs, and what it was.
#[derive(Clone, Copy, Debug, PartialEq, Eq, Structural)]
pub struct Pending {
    pub client_id: ClientId,
    pub upstream_tag: u16,
    pub cmd_type: u8,
}

/// The tag `k` places after `start` in the cycle 1, 2, .., 65535, 1, ..
pub open spec fn tag_after(start: u16, k: nat) -> u16 {
    ((start - 1 + k) % 65535 + 1) as u16
}

/// Whether the first tag from `start` on that `pending` does not hold is `k` places away.
pub open spec fn first_free_at(pending: Map<u16, Pending>, start: u16, k: nat) -> bool {
    &&& !pending.contains_key(tag_after(start, k))
    &&& forall|j: nat| j < k ==> #[trigger] pending.contains_key(tag_after(start, j))
}

/// How far from `start` the first tag is that `pending` does not hold.
pub open spec fn free_distance(pending: Map<u16, Pending>, start: u16) -> nat {
    choose|k: nat| first_free_at(pending, start, k)
}

/// What a [`TagMapper`] holds.
#[verifier::ext_equal]
pub struct TagView {
    pub next: u16,
    pub pending: Map<u16, Pending>,
}

impl TagView {
    /// The tag that the next allocation takes: the first free one from `next` on.
    pub open spec fn fresh_tag(self) -> u16 {
        tag_after(self.next, free_distance(self.pending, self.next))
    }

    /// The mapper after the next allocation.
    pub open spec fn allocated(self, p: Pending) -> TagView {
        TagView {
            next: tag_after(self.next, free_distance(self.pending, self.next) + 1),
            pending: self.pending.insert(self.fresh_tag(), p),
        }
    }

    /// The mapper without the commands of one client.
    pub open spec fn without_client(self, client_id: ClientId) -> TagView {
        TagView {
            next: self.next,
            pending: self.pending.restrict(
                self.pending.dom().filter(|t: u16| self.pending[t].client_id != client_id),
            ),
        }
    }

    /// Zero is neither pending nor next.
    pub open spec fn wf(self) -> bool {
        &&& self.next != 0
        &&& self.pending.dom().finite()
        &&& !self.pending.contains_key(0)
    }

    /// Whether a tag is left to allocate.
    pub open spec fn has_free_tag(self) -> bool {
        self.pending.len() < TAG_COUNT
    }
}

/// Maps device tags back to the commands they were allocated for.
pub struct TagMapper {
    next: u16,
    pending: HashMap<u16, Pending>,
}

impl View for TagMapper {
    type V = TagView;

    closed spec fn view(&self) -> TagView {
        TagView { next: self.next, pending: self.pending@ }
    }
}

impl TagMapper {
    /// A mapper with nothing in flight; the first tag is 1.
    pub fn new() -> (r: Self)
        ensures
            r@ == (TagView { next: 1, pending: Map::empty() }),
            r@.wf(),
    {
        Self { next: 1, pending: HashMap::new() }
    }

    /// Allocates the first device tag from `next` on that is not in flight, and records whose
    /// command it carries. Skips 0 and wraps at `u16::MAX`.
    pub fn allocate(&mut self, client_id: ClientId, upstream_tag: u16, cmd_type: u8) -> (r: u16)
        requires
            old(self)@.wf(),
            old(self)@.has_free_tag(),
        ensures
            r == old(self)@.fresh_tag(),
            final(self)@ == old(self)@.allocated(Pending { client_id, upstream_tag, cmd_type }),
            final(self)@.wf(),
            r != 0,
            !old(self)@.pending.contains_key(r),
            first_free_at(
                old(self)@.pending,
                old(self)@.next,
                free_distance(old(self)@.pending, old(self)@.next),
            ),
            !old(self)@.pending.contains_key(old(self)@.next) ==> r == old(self)@.next,
            final(self)@.next == if r == u16::MAX {
                1
            } else {
                r + 1
            },
    {
        let ghost start = self.next;
        let ghost pending = self.pending@;
        let ghost mut k: nat = 0;
        loop
            invariant
                start != 0,
                self.next == tag_after(start, k),
                self.pending@ == pending,
                old(self)@ == (TagView { next: start, pending }),
                old(self)@.wf(),
                old(self)@.has_free_tag(),
                forall|j: nat| j < k ==> #[trigger] pending.contains_key(tag_after(start, j)),
            decreases TAG_COUNT - k,
        {
            let tag = self.next;
            self.next = self.next.wrapping_add(1);
            if self.next == 0 {
                self.next = 1;
            }
            assert(self.next == tag_after(start, k + 1));
            if tag == 0 || self.pending.contains_key(&tag) {
                proof {
                    lemma_pending_tags_are_many(pending, start, k + 1);
                    k = k + 1;
                }
                continue;
            }
            proof {
                lemma_first_free_is_unique(pending, start, k);
                if k > 0 {
                    assert(pending.contains_key(tag_after(start, 0)));
                }
            }
            self.pending.insert(tag, Pending { client_id, upstream_tag, cmd_type });
            return tag;
        }
    }

    /// Resolves a device tag for good: returns what it stood for, and frees it.
    pub fn take(&mut self, device_tag: u16) -> (r: Option<Pending>)
        requires
            old(self)@.wf(),
        ensures
            r == old(self)@.pending.get(device_tag),
            final(self)@ == (TagView {
                next: old(self)@.next,
                pending: old(self)@.pending.remove(device_tag),
            }),
            final(self)@.wf(),
    {
        self.pending.remove(&device_tag)
    }

    /// What a device tag stands for, which it keeps standing for.
    pub fn peek(&self, device_tag: u16) -> (r: Option<&Pending>)
        ensures
            r is Some <==> self@.pending.contains_key(device_tag),
            r matches Some(p) ==> *p == self@.pending[device_tag],
    {
        self.pending.get(&device_tag)
    }

    /// Frees every device tag of one client.
    pub fn drop_client(&mut self, client_id: ClientId)
        requires
            old(self)@.wf(),
        ensures
            final(self)@ == old(self)@.without_client(client_id),
            final(self)@.wf(),
    {
        let ghost pending = self.pending@;
        let tags = self.tags_of(client_id);
        let mut i: usize = 0;
        while i < tags.len()
            invariant
                i <= tags@.len(),
                self.next == old(self)@.next,
                self.pending@ == pending.remove_keys(tags@.take(i as int).to_set()),
            decreases tags@.len() - i,
        {
            self.pending.remove(&tags[i]);
            proof {
                assert(tags@.take(i + 1) =~= tags@.take(i as int).push(tags@[i as int]));
                lemma_push_to_set(tags@.take(i as int), tags@[i as int]);
                assert(self.pending@ =~= pending.remove_keys(tags@.take(i + 1).to_set()));
            }
            i += 1;
        }
        assert(tags@.take(i as int) =~= tags@);
        assert(self.pending@ =~= old(self)@.without_client(client_id).pending) by {
            assert forall|t: u16| #[trigger] self.pending@.contains_key(t) <==> old(
                self,
            )@.without_client(client_id).pending.contains_key(t) by {
                assert(tags@.to_set().contains(t) <==> tags@.contains(t));
            }
        }
    }

    /// The device tags of one client, in no particular order.
    fn tags_of(&self, client_id: ClientId) -> (r: Vec<u16>)
        ensures
            forall|t: u16| #[trigger]
                r@.contains(t) <==> self.pending@.contains_key(t) && self.pending@[t].client_id
                    == client_id,
    {
        let mut tags: Vec<u16> = Vec::new();
        for entry in it: self.pending.iter()
            invariant
                forall|i: int|
                    0 <= i < tags@.len() ==> self.pending@.contains_key(#[trigger] tags@[i])
                        && self.pending@[tags@[i]].client_id == client_id,
                forall|j: int|
                    0 <= j < it.index() && (#[trigger] it.seq()[j]).1.client_id == client_id
                        ==> tags@.contains(*it.seq()[j].0),
                forall|j: int|
                    0 <= j < it.seq().len() ==> self.pending@.contains_key(
                        *(#[trigger] it.seq()[j]).0,
                    ) && self.pending@[*it.seq()[j].0] == *it.seq()[j].1,
                forall|t: u16| #[trigger]
                    self.pending@.contains_key(t) ==> it.seq().contains((&t, &self.pending@[t])),
        {
            if entry.1.client_id == client_id {
                let ghost before = tags@;
                tags.push(*entry.0);
                proof {
                    lemma_push_to_set(before, *entry.0);
                    assert(tags@.to_set().contains(*entry.0));
                }
            }
        }
        tags
    }

    /// Frees every device tag. Allocation goes on from where it was.
    pub fn clear(&mut self)
        requires
            old(self)@.wf(),
        ensures
            final(self)@ == (TagView { next: old(self)@.next, pending: Map::empty() }),
            final(self)@.wf(),
    {
        self.pending.clear();
    }

    /// How many device tags are in flight.
    pub fn len(&self) -> (r: usize)
        ensures
            r == self@.pending.len(),
    {
        self.pending.len()
    }

    /// Whether a tag is left to allocate.
    pub fn has_free_tag(&self) -> (r: bool)
        ensures
            r == self@.has_free_tag(),
    {
        self.len() < TAG_COUNT
    }
}

/// The tags at the first `n` places of the cycle.
spec fn tags_before(start: u16, n: nat) -> Set<u16>
    decreases n,
{
    if n == 0 {
        Set::empty()
    } else {
        tags_before(start, (n - 1) as nat).insert(tag_after(start, (n - 1) as nat))
    }
}

/// The cycle repeats no tag before it has gone through all of them.
proof fn lemma_tags_before(start: u16, n: nat)
    requires
        start != 0,
        n <= TAG_COUNT,
    ensures
        tags_before(start, n).finite(),
        tags_before(start, n).len() == n,
        forall|t: u16| #[trigger]
            tags_before(start, n).contains(t) ==> exists|j: nat| j < n && t == tag_after(start, j),
    decreases n,
{
    if n > 0 {
        let m = (n - 1) as nat;
        lemma_tags_before(start, m);
        if tags_before(start, m).contains(tag_after(start, m)) {
            let j = choose|j: nat| j < m && tag_after(start, m) == tag_after(start, j);
            assert(false);
        }
        assert forall|t: u16| #[trigger] tags_before(start, n).contains(t) implies exists|j: nat|
            j < n && t == tag_after(start, j) by {
            if t == tag_after(start, m) {
            } else {
                let j = choose|j: nat| j < m && t == tag_after(start, j);
                assert(j < n && t == tag_after(start, j));
            }
        }
    }
}

/// If the first `n` tags of the cycle are in flight, and not all tags are, then `n` is less
/// than the number of tags.
proof fn lemma_pending_tags_are_many(pending: Map<u16, Pending>, start: u16, n: nat)
    requires
        start != 0,
        pending.dom().finite(),
        pending.len() < TAG_COUNT,
        forall|j: nat| j < n ==> #[trigger] pending.contains_key(tag_after(start, j)),
    ensures
        n < TAG_COUNT,
{
    if n >= TAG_COUNT {
        lemma_tags_before(start, TAG_COUNT as nat);
        assert(tags_before(start, TAG_COUNT as nat).subset_of(pending.dom()));
        vstd::set_lib::lemma_len_subset(tags_before(start, TAG_COUNT as nat), pending.dom());
    }
}

/// There is only one first free place.
proof fn lemma_first_free_is_unique(pending: Map<u16, Pending>, start: u16, k: nat)
    requires
        first_free_at(pending, start, k),
    ensures
        free_distance(pending, start) == k,
        first_free_at(pending, start, free_distance(pending, start)),
{
    let d = free_distance(pending, start);
    assert(first_free_at(pending, start, d));
    if d < k {
        assert(pending.contains_key(tag_after(start, d)));
    } else if k < d {
        assert(pending.contains_key(tag_after(start, k)));
    }
}

/// Where a free place is, there is a first one.
proof fn lemma_first_free_exists(pending: Map<u16, Pending>, start: u16, n: nat)
    requires
        !pending.contains_key(tag_after(start, n)),
    ensures
        exists|k: nat| first_free_at(pending, start, k),
    decreases n,
{
    if exists|j: nat| j < n && !pending.contains_key(#[trigger] tag_after(start, j)) {
        let j = choose|j: nat| j < n && !pending.contains_key(#[trigger] tag_after(start, j));
        lemma_first_free_exists(pending, start, j);
    } else {
        assert(first_free_at(pending, start, n));
    }
}

// ---- Laws -----------------------------------------------------------------

/// A fresh tag is never zero, is not in flight, and is the first such tag in the cycle; once it
/// is allocated, it stands for its command, and every other tag for what it stood for. The next
/// one is looked for from the following tag on.
pub proof fn law_fresh_tag(s: TagView, p: Pending)
    requires
        s.wf(),
        s.has_free_tag(),
    ensures
        s.fresh_tag() != 0,
        !s.pending.contains_key(s.fresh_tag()),
        first_free_at(s.pending, s.next, free_distance(s.pending, s.next)),
        !s.pending.contains_key(s.next) ==> s.fresh_tag() == s.next,
        s.allocated(p).next == if s.fresh_tag() == u16::MAX {
            1
        } else {
            s.fresh_tag() + 1
        },
        s.allocated(p).wf(),
        s.allocated(p).pending.get(s.fresh_tag()) == Some(p),
        forall|t: u16|
            t != s.fresh_tag() ==> s.allocated(p).pending.get(t) == #[trigger] s.pending.get(t),
{
    if forall|j: nat| j < TAG_COUNT ==> #[trigger] s.pending.contains_key(tag_after(s.next, j)) {
        lemma_pending_tags_are_many(s.pending, s.next, TAG_COUNT as nat);
    }
    let n = choose|j: nat|
        j < TAG_COUNT && !(#[trigger] s.pending.contains_key(tag_after(s.next, j)));
    lemma_first_free_exists(s.pending, s.next, n);
    let k = choose|k: nat| first_free_at(s.pending, s.next, k);
    lemma_first_free_is_unique(s.pending, s.next, k);
    if k > 0 {
        assert(s.pending.contains_key(tag_after(s.next, 0)));
    }
}

/// Two commands in flight never share a tag: what is allocated while another tag is in flight
/// differs from it.
pub proof fn law_tags_in_flight_differ(s: TagView, p: Pending)
    requires
        s.wf(),
        s.has_free_tag(),
        s.allocated(p).has_free_tag(),
    ensures
        s.allocated(p).fresh_tag() != s.fresh_tag(),
{
    law_fresh_tag(s, p);
    law_fresh_tag(s.allocated(p), p);
}

/// Resolving a tag undoes its allocation: what was in flight before is in flight again.
pub proof fn law_take_undoes_allocate(s: TagView, p: Pending)
    requires
        s.wf(),
        s.has_free_tag(),
    ensures
        s.allocated(p).pending.remove(s.fresh_tag()) == s.pending,
{
    law_fresh_tag(s, p);
    assert(s.allocated(p).pending.remove(s.fresh_tag()) =~= s.pending);
}

/// Dropping a client frees its tags, and no others.
pub proof fn law_drop_client_frees_its_tags(s: TagView, client_id: ClientId, t: u16)
    requires
        s.wf(),
    ensures
        s.without_client(client_id).wf(),
        s.pending.contains_key(t) && s.pending[t].client_id != client_id ==> s.without_client(
            client_id,
        ).pending.get(t) == Some(s.pending[t]),
        s.without_client(client_id).pending.contains_key(t) ==> s.pending.contains_key(t)
            && s.pending[t].client_id != client_id,
{
    let rest = s.without_client(client_id).pending;
    assert(rest.dom().subset_of(s.pending.dom()));
    vstd::set_lib::lemma_set_subset_finite(s.pending.dom(), rest.dom());
}

/// Between the tag where the search starts and the tag that it finds, going up and around past the
/// largest, every tag is in flight.
pub proof fn law_search_passes_over_tags_in_flight(s: TagView, t: u16)
    requires
        s.wf(),
        s.has_free_tag(),
        t != 0,
    ensures
        s.next <= t < s.fresh_tag() ==> s.pending.contains_key(t),
        s.fresh_tag() < s.next && (s.next <= t || t < s.fresh_tag()) ==> s.pending.contains_key(t),
{
    law_fresh_tag(s, Pending { client_id: 0, upstream_tag: 0, cmd_type: 0 });
    let d = free_distance(s.pending, s.next);
    lemma_pending_tags_are_many(s.pending, s.next, d);
    let k: int = if s.next <= t {
        t - s.next
    } else {
        65535 - s.next + t
    };
    assert(tag_after(s.next, k as nat) == t);
    if k < d {
        assert(s.pending.contains_key(tag_after(s.next, k as nat)));
    }
}

/// A tag is left to allocate exactly when some tag but zero is not in flight.
pub proof fn law_has_free_tag(s: TagView)
    requires
        s.wf(),
    ensures
        s.has_free_tag() <==> exists|t: u16| t != 0 && !(#[trigger] s.pending.contains_key(t)),
{
    if s.has_free_tag() {
        law_fresh_tag(s, Pending { client_id: 0, upstream_tag: 0, cmd_type: 0 });
        assert(!s.pending.contains_key(s.fresh_tag()));
    } else if exists|t: u16| t != 0 && !(#[trigger] s.pending.contains_key(t)) {
        let t = choose|t: u16| t != 0 && !(#[trigger] s.pending.contains_key(t));
        let all = tags_before(1, TAG_COUNT as nat);
        lemma_tags_before(1, TAG_COUNT as nat);
        assert forall|x: u16| s.pending.contains_key(x) implies all.remove(t).contains(x) by {
            lemma_tag_is_before(1, TAG_COUNT as nat, (x - 1) as nat);
        }
        lemma_tag_is_before(1, TAG_COUNT as nat, (t - 1) as nat);
        assert(s.pending.dom().subset_of(all.remove(t)));
        vstd::set_lib::lemma_len_subset(s.pending.dom(), all.remove(t));
    }
}

/// The tags at the first `n` places are those at each of them.
proof fn lemma_tag_is_before(start: u16, n: nat, j: nat)
    requires
        j < n,
    ensures
        tags_before(start, n).contains(tag_after(start, j)),
    decreases n,
{
    if j < n - 1 {
        lemma_tag_is_before(start, (n - 1) as nat, j);
    }
}

} // verus!
