//! The pending-sync ledger: the containers that are owed a redraw.

use vstd::prelude::*;
use crate::container::ContainerId;

verus! {

/// A ledger after `c` was marked: unchanged if `c` is in it, else with `c`
/// at its end.
pub open spec fn marked(ledger: Seq<ContainerId>, c: ContainerId) -> Seq<ContainerId> {
    if ledger.contains(c) {
        ledger
    } else {
        ledger.push(c)
    }
}

/// How often `c` occurs in a ledger.
pub open spec fn entries_of(ledger: Seq<ContainerId>, c: ContainerId) -> nat
    decreases ledger.len(),
{
    if ledger.len() == 0 {
        0
    } else {
        entries_of(ledger.drop_last(), c) + (if ledger.last() == c {
            1nat
        } else {
            0nat
        })
    }
}

/// A container that is not in a ledger has no entry in it.
pub proof fn lemma_absent_has_no_entry(ledger: Seq<ContainerId>, c: ContainerId)
    requires
        !ledger.contains(c),
    ensures
        entries_of(ledger, c) == 0,
    decreases ledger.len(),
{
    if ledger.len() > 0 {
        assert(ledger.last() == ledger[ledger.len() - 1]);
        assert forall|i: int| 0 <= i < ledger.drop_last().len() implies ledger.drop_last()[i]
            != c by {
            assert(ledger.drop_last()[i] == ledger[i]);
        }
        lemma_absent_has_no_entry(ledger.drop_last(), c);
    }
}

/// In a ledger without duplicates a container that is in it has exactly one
/// entry.
pub proof fn lemma_present_has_one_entry(ledger: Seq<ContainerId>, c: ContainerId)
    requires
        ledger.no_duplicates(),
        ledger.contains(c),
    ensures
        entries_of(ledger, c) == 1,
    decreases ledger.len(),
{
    let front = ledger.drop_last();
    let at = choose|i: int| 0 <= i < ledger.len() && ledger[i] == c;
    assert forall|i: int, j: int| 0 <= i < front.len() && 0 <= j < front.len() && i != j implies front[i]
        != front[j] by {
        assert(front[i] == ledger[i] && front[j] == ledger[j]);
    }
    if ledger.last() == c {
        assert(!front.contains(c)) by {
            if front.contains(c) {
                let i = choose|i: int| 0 <= i < front.len() && front[i] == c;
                assert(ledger[i] == c && ledger[ledger.len() - 1] == c);
            }
        }
        lemma_absent_has_no_entry(front, c);
    } else {
        assert(front[at] == c);
        lemma_present_has_one_entry(front, c);
    }
}

/// Marking keeps a ledger free of duplicates and leaves the marked container
/// with exactly one entry, however often it is marked.
pub proof fn lemma_marked_once(ledger: Seq<ContainerId>, c: ContainerId)
    requires
        ledger.no_duplicates(),
    ensures
        marked(ledger, c).no_duplicates(),
        marked(ledger, c).contains(c),
        entries_of(marked(ledger, c), c) == 1,
        marked(marked(ledger, c), c) == marked(ledger, c),
{
    let after = marked(ledger, c);
    if !ledger.contains(c) {
        assert(after[ledger.len() as int] == c);
        assert forall|i: int, j: int|
            0 <= i < after.len() && 0 <= j < after.len() && i != j implies after[i]
            != after[j] by {
            if i < ledger.len() {
                assert(ledger.contains(ledger[i]));
            }
            if j < ledger.len() {
                assert(ledger.contains(ledger[j]));
            }
        }
    }
    lemma_present_has_one_entry(after, c);
}

/// The set of containers slated for redraw, in the order in which they were
/// first marked. No container is in it twice.
pub struct PendingSync {
    containers_to_redraw: Vec<ContainerId>,
}

impl View for PendingSync {
    type V = Seq<ContainerId>;

    closed spec fn view(&self) -> Seq<ContainerId> {
        self.containers_to_redraw@
    }
}

impl PendingSync {
    /// The ledger's invariant: no container occurs twice.
    pub open spec fn wf(&self) -> bool {
        self@.no_duplicates()
    }

    /// An empty ledger.
    pub fn new() -> (ledger: Self)
        ensures
            ledger.wf(),
            ledger@ == Seq::<ContainerId>::empty(),
    {
        PendingSync { containers_to_redraw: Vec::new() }
    }

    /// Whether a container is slated for redraw.
    pub fn is_marked(&self, c: ContainerId) -> (b: bool)
        ensures
            b == self@.contains(c),
    {
        let mut i: usize = 0;
        while i < self.containers_to_redraw.len()
            invariant
                i <= self.containers_to_redraw.len(),
                forall|k: int| 0 <= k < i ==> self.containers_to_redraw@[k] != c,
            decreases self.containers_to_redraw.len() - i,
        {
            if self.containers_to_redraw[i] == c {
                return true;
            }
            i += 1;
        }
        false
    }

    /// Number of containers slated for redraw.
    pub fn len(&self) -> (n: usize)
        ensures
            n == self@.len(),
    {
        self.containers_to_redraw.len()
    }

    /// Records a container for redraw. Marking a container that is already
    /// recorded changes nothing.
    pub fn mark_for_redraw(&mut self, c: ContainerId)
        requires
            old(self).wf(),
        ensures
            final(self).wf(),
            final(self)@ == marked(old(self)@, c),
    {
        if !self.is_marked(c) {
            self.containers_to_redraw.push(c);
        }
        proof {
            lemma_marked_once(old(self)@, c);
        }
    }

    /// Hands out the recorded containers, in the order of their first
    /// marking, and empties the ledger.
    pub fn drain(&mut self) -> (out: Vec<ContainerId>)
        ensures
            out@ == old(self)@,
            final(self)@ == Seq::<ContainerId>::empty(),
            final(self).wf(),
    {
        let mut out: Vec<ContainerId> = Vec::new();
        std::mem::swap(&mut out, &mut self.containers_to_redraw);
        out
    }
}

} // verus!
