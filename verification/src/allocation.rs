use smallvec::SmallVec;
use vstd::prelude::*;

verus! {

/// The most applicants one session can hold.
pub const MAX_TUTORS_PER_SESSION: usize = 5;

/// The applicants assigned to one session, in the order they were added.
/// Held inline in a small vector, which Verus does not look into.
#[verifier::external_body]
#[derive(Debug)]
pub struct SessionAllocation {
    assigned: SmallVec<[u16; MAX_TUTORS_PER_SESSION]>,
}

/// The applicant ids a session's record holds, first to last.
pub uninterp spec fn assigned_ids(a: SessionAllocation) -> Seq<u16>;

/// `SmallVec::new`: the new vector holds nothing.
#[verifier::external_body]
pub(crate) fn small_new() -> (a: SessionAllocation)
    ensures
        assigned_ids(a) == Seq::<u16>::empty(),
{
    SessionAllocation { assigned: SmallVec::new() }
}

/// `SmallVec::len`: the number of items held.
#[verifier::external_body]
pub(crate) fn small_len(a: &SessionAllocation) -> (n: usize)
    ensures
        n == assigned_ids(*a).len(),
{
    a.assigned.len()
}

/// Indexing a `SmallVec` by position: the item at that position. Out of
/// bounds it panics, so the position must be in bounds.
#[verifier::external_body]
pub(crate) fn small_get(a: &SessionAllocation, index: usize) -> (item: u16)
    requires
        index < assigned_ids(*a).len(),
    ensures
        item == assigned_ids(*a)[index as int],
{
    a.assigned[index]
}

/// `SmallVec::push`: the item is appended behind the others, which stay.
#[verifier::external_body]
pub(crate) fn small_push(a: &mut SessionAllocation, item: u16)
    ensures
        assigned_ids(*final(a)) == assigned_ids(*old(a)).push(item),
{
    a.assigned.push(item)
}

/// `SmallVec::remove`: takes out and returns the item at `index`; the items
/// behind it move one place forward. Out of bounds it panics.
#[verifier::external_body]
pub(crate) fn small_remove(a: &mut SessionAllocation, index: usize) -> (item: u16)
    requires
        index < assigned_ids(*old(a)).len(),
    ensures
        item == assigned_ids(*old(a))[index as int],
        assigned_ids(*final(a)) == assigned_ids(*old(a)).remove(index as int),
{
    a.assigned.remove(index)
}

/// `SmallVec::clone`: a vector with the same items in the same order.
#[verifier::external_body]
pub(crate) fn small_clone(a: &SessionAllocation) -> (copy: SessionAllocation)
    ensures
        assigned_ids(copy) == assigned_ids(*a),
{
    SessionAllocation { assigned: a.assigned.clone() }
}

impl View for SessionAllocation {
    type V = Seq<u16>;

    open spec fn view(&self) -> Seq<u16> {
        assigned_ids(*self)
    }
}

impl Clone for SessionAllocation {
    fn clone(&self) -> (copy: Self)
        ensures
            copy@ == self@,
    {
        small_clone(self)
    }
}

impl SessionAllocation {
    /// A session's record is well formed when it holds at most
    /// `MAX_TUTORS_PER_SESSION` applicants and none of them twice.
    pub open spec fn wf(&self) -> bool {
        &&& self@.len() <= MAX_TUTORS_PER_SESSION
        &&& self@.no_duplicates()
    }

    /// A record with nobody assigned.
    pub fn new() -> (a: Self)
        ensures
            a@ == Seq::<u16>::empty(),
            a.wf(),
    {
        small_new()
    }

    /// The number of applicants assigned.
    pub fn len(&self) -> (n: usize)
        ensures
            n == self@.len(),
    {
        small_len(self)
    }

    /// Whether `applicant` is assigned here, found by a scan from the front.
    pub fn contains(&self, applicant: u16) -> (found: bool)
        ensures
            found == self@.contains(applicant),
    {
        let n = small_len(self);
        let mut i: usize = 0;
        while i < n
            invariant
                n == self@.len(),
                i <= n,
                forall|k: int| 0 <= k < i ==> self@[k] != applicant,
            decreases n - i,
        {
            if small_get(self, i) == applicant {
                return true;
            }
            i += 1;
        }
        false
    }

    /// The applicants assigned, in the order they were added.
    pub fn to_vec(&self) -> (ids: Vec<u16>)
        ensures
            ids@ == self@,
    {
        let n = small_len(self);
        let mut ids: Vec<u16> = Vec::new();
        let mut i: usize = 0;
        while i < n
            invariant
                n == self@.len(),
                i <= n,
                ids@ == self@.take(i as int),
            decreases n - i,
        {
            ids.push(small_get(self, i));
            i += 1;
        }
        ids
    }

    /// Assigns `applicant` unless the record is full or holds them already.
    /// Says whether the applicant was added.
    pub fn assign(&mut self, applicant: u16) -> (added: bool)
        requires
            old(self).wf(),
        ensures
            final(self).wf(),
            added == (old(self)@.len() < MAX_TUTORS_PER_SESSION && !old(self)@.contains(applicant)),
            added ==> final(self)@ == old(self)@.push(applicant),
            !added ==> final(self)@ == old(self)@,
    {
        if small_len(self) >= MAX_TUTORS_PER_SESSION || self.contains(applicant) {
            return false;
        }
        small_push(self, applicant);
        proof {
            lemma_push_keeps_distinct(old(self)@, applicant);
        }
        true
    }

    /// Takes out the applicant at `position`, if there is one, and returns
    /// them; those behind move one place forward.
    pub fn unassign_at(&mut self, position: usize) -> (removed: Option<u16>)
        requires
            old(self).wf(),
        ensures
            final(self).wf(),
            position < old(self)@.len() ==> removed == Some(old(self)@[position as int])
                && final(self)@ == old(self)@.remove(position as int),
            position >= old(self)@.len() ==> removed is None && final(self)@ == old(self)@,
    {
        if position >= small_len(self) {
            return None;
        }
        let applicant = small_remove(self, position);
        proof {
            lemma_remove_keeps_distinct(old(self)@, position as int);
        }
        Some(applicant)
    }
}

/// Appending an item that a duplicate-free sequence lacks leaves it
/// duplicate-free.
pub proof fn lemma_push_keeps_distinct(s: Seq<u16>, item: u16)
    requires
        s.no_duplicates(),
        !s.contains(item),
    ensures
        s.push(item).no_duplicates(),
{
    let t = s.push(item);
    assert forall|i: int, j: int| 0 <= i < t.len() && 0 <= j < t.len() && i != j implies t[i]
        != t[j] by {
        if i < s.len() && j < s.len() {
        } else if i < s.len() {
            assert(s.contains(s[i]));
        } else {
            assert(s.contains(s[j]));
        }
    }
}

/// Removing one item from a duplicate-free sequence leaves it duplicate-free.
pub proof fn lemma_remove_keeps_distinct(s: Seq<u16>, position: int)
    requires
        s.no_duplicates(),
        0 <= position < s.len(),
    ensures
        s.remove(position).no_duplicates(),
        !s.remove(position).contains(s[position]),
{
    let t = s.remove(position);
    assert forall|i: int, j: int| 0 <= i < t.len() && 0 <= j < t.len() && i != j implies t[i]
        != t[j] by {
        let oi = if i < position { i } else { i + 1 };
        let oj = if j < position { j } else { j + 1 };
        assert(t[i] == s[oi]);
        assert(t[j] == s[oj]);
    }
    assert forall|i: int| 0 <= i < t.len() implies t[i] != s[position] by {
        let oi = if i < position { i } else { i + 1 };
        assert(t[i] == s[oi]);
    }
}

/// What an allocation assigns: for each session, in order, the ids of its
/// applicants.
pub open spec fn plan(allocation: Seq<SessionAllocation>) -> Seq<Seq<u16>> {
    Seq::new(allocation.len(), |s: int| allocation[s]@)
}

/// `plan` is an allocation state for `sessions` sessions and `applicants`
/// applicants: one record for each session, each with at most
/// `MAX_TUTORS_PER_SESSION` applicants, none of them twice.
pub open spec fn valid_plan(plan: Seq<Seq<u16>>, sessions: nat, applicants: nat) -> bool {
    &&& plan.len() == sessions
    &&& forall|s: int|
        0 <= s < plan.len() ==> (#[trigger] plan[s]).len() <= MAX_TUTORS_PER_SESSION
            && plan[s].no_duplicates()
    &&& forall|s: int, k: int|
        0 <= s < plan.len() && 0 <= k < plan[s].len() ==> (#[trigger] plan[s][k]) < applicants
}

/// Whether the records are an allocation state for `sessions` sessions and
/// `applicants` applicants.
pub fn is_valid_allocation(
    allocations: &[SessionAllocation],
    sessions: usize,
    applicants: usize,
) -> (ok: bool)
    ensures
        ok == valid_plan(plan(allocations@), sessions as nat, applicants as nat),
{
    let ghost p = plan(allocations@);
    if allocations.len() != sessions {
        return false;
    }
    let mut s: usize = 0;
    while s < allocations.len()
        invariant
            p == plan(allocations@),
            s <= allocations@.len(),
            forall|t: int|
                0 <= t < s ==> (#[trigger] p[t]).len() <= MAX_TUTORS_PER_SESSION
                    && p[t].no_duplicates(),
            forall|t: int, k: int|
                0 <= t < s && 0 <= k < p[t].len() ==> (#[trigger] p[t][k])
                    < applicants,
        decreases allocations@.len() - s,
    {
        let record = &allocations[s];
        assert(p[s as int] == record@);
        let count = small_len(record);
        if count > MAX_TUTORS_PER_SESSION {
            return false;
        }
        let mut k: usize = 0;
        while k < count
            invariant
                s < allocations@.len(),
                p == plan(allocations@),
                p[s as int] == record@,
                count == record@.len(),
                k <= count,
                forall|j: int| 0 <= j < k ==> (#[trigger] record@[j]) < applicants,
                forall|i: int, j: int| 0 <= i < j < k ==> record@[i] != record@[j],
            decreases count - k,
        {
            let applicant = small_get(record, k);
            if applicant as usize >= applicants {
                return false;
            }
            let mut j: usize = 0;
            while j < k
                invariant
                    s < allocations@.len(),
                    p == plan(allocations@),
                    p[s as int] == record@,
                    k < count,
                    count == record@.len(),
                    applicant == record@[k as int],
                    j <= k,
                    forall|i: int| 0 <= i < j ==> record@[i] != applicant,
                decreases k - j,
            {
                if small_get(record, j) == applicant {
                    assert(!record@.no_duplicates());
                    return false;
                }
                j += 1;
            }
            k += 1;
        }
        s += 1;
    }
    true
}

/// An allocation with one empty record for each of `sessions` sessions.
pub fn empty_allocation(sessions: usize) -> (allocation: Vec<SessionAllocation>)
    ensures
        allocation@.len() == sessions,
        forall|s: int| 0 <= s < sessions ==> (#[trigger] allocation@[s])@ == Seq::<u16>::empty(),
{
    let mut allocation: Vec<SessionAllocation> = Vec::new();
    let mut s: usize = 0;
    while s < sessions
        invariant
            s <= sessions,
            allocation@.len() == s,
            forall|k: int| 0 <= k < s ==> (#[trigger] allocation@[k])@ == Seq::<u16>::empty(),
        decreases sessions - s,
    {
        allocation.push(SessionAllocation::new());
        s += 1;
    }
    allocation
}

/// A copy of an allocation that assigns the same applicants to the same
/// sessions in the same order.
pub fn copy_allocation(allocation: &Vec<SessionAllocation>) -> (copy: Vec<SessionAllocation>)
    ensures
        plan(copy@) == plan(allocation@),
{
    let mut copy: Vec<SessionAllocation> = Vec::new();
    let mut s: usize = 0;
    while s < allocation.len()
        invariant
            s <= allocation.len(),
            copy@.len() == s,
            forall|k: int| 0 <= k < s ==> (#[trigger] copy@[k])@ == allocation@[k]@,
        decreases allocation.len() - s,
    {
        copy.push(allocation[s].clone());
        s += 1;
    }
    assert(plan(copy@) =~= plan(allocation@));
    copy
}

} // verus!
