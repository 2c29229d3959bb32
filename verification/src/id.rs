//! Identifiers and the hander that issues them.
//!
//! A hander walks upwards through the identifiers from its start to its
//! ceiling. It hands each one out at most once and never goes back.

use vstd::prelude::*;

verus! {

/// An opaque identifier.
#[derive(Clone, Copy, Debug, PartialEq, Eq, Structural)]
pub struct Id(pub usize);

impl Id {
    /// The number of the largest identifier there is.
    pub const MAX_ID: usize = usize::MAX;
}

/// A hander as contracts see it.
pub struct HanderView {
    /// The number of the identifier that is handed out next. It is one above
    /// `max` once the hander is exhausted by plain hand-outs.
    pub next: int,
    /// The number of the last identifier that may be handed out.
    pub max: int,
}

impl HanderView {
    /// Whether an identifier is left once `skip` of them are passed over.
    pub open spec fn can_handout(self, skip: int) -> bool {
        self.next + skip <= self.max
    }

    /// The number of the identifier that is handed out when `skip` of them
    /// are passed over first.
    pub open spec fn handed_out(self, skip: int) -> int {
        self.next + skip
    }

    /// The hander after a request that passes over `skip` identifiers and
    /// takes one: unchanged if the request fails.
    pub open spec fn after_handout(self, skip: int) -> HanderView {
        if self.can_handout(skip) {
            HanderView { next: self.next + skip + 1, max: self.max }
        } else {
            self
        }
    }

    /// The number of identifiers that are left to hand out one by one.
    pub open spec fn remaining(self) -> nat {
        if self.next <= self.max {
            (self.max - self.next + 1) as nat
        } else {
            0
        }
    }

    /// The hander after `count` plain hand-outs in a row.
    pub open spec fn after_handouts(self, count: nat) -> HanderView
        decreases count,
    {
        if count == 0 {
            self
        } else {
            self.after_handout(0).after_handouts((count - 1) as nat)
        }
    }

    /// The numbers of the identifiers that a run of requests hands out, in the
    /// order of the requests. `skips` holds for each request how many
    /// identifiers it passes over (none for a plain hand-out); requests that
    /// fail hand out nothing.
    pub open spec fn issued(self, skips: Seq<nat>) -> Seq<int>
        decreases skips.len(),
    {
        if skips.len() == 0 {
            Seq::empty()
        } else if self.can_handout(skips[0] as int) {
            seq![self.handed_out(skips[0] as int)] + self.after_handout(skips[0] as int).issued(
                skips.subrange(1, skips.len() as int),
            )
        } else {
            self.issued(skips.subrange(1, skips.len() as int))
        }
    }
}

/// Every identifier that a run of requests hands out lies between the
/// hander's next identifier and its ceiling.
pub proof fn lemma_issued_within_bounds(hander: HanderView, skips: Seq<nat>)
    ensures
        forall|i: int|
            0 <= i < hander.issued(skips).len() ==> hander.next <= (#[trigger] hander.issued(
                skips,
            )[i]) <= hander.max,
    decreases skips.len(),
{
    if skips.len() > 0 {
        let rest = skips.subrange(1, skips.len() as int);
        if hander.can_handout(skips[0] as int) {
            let then = hander.after_handout(skips[0] as int);
            lemma_issued_within_bounds(then, rest);
            let all = hander.issued(skips);
            assert forall|i: int| 0 <= i < all.len() implies hander.next <= (#[trigger] all[i])
                <= hander.max by {
                if i > 0 {
                    assert(all[i] == then.issued(rest)[i - 1]);
                }
            }
        } else {
            lemma_issued_within_bounds(hander, rest);
            assert(hander.issued(skips) == hander.issued(rest));
        }
    }
}

/// The identifiers that one hander hands out over any run of requests,
/// plain or skipping, strictly increase. So no two of them are equal.
pub proof fn lemma_issued_strictly_increasing(hander: HanderView, skips: Seq<nat>)
    ensures
        forall|i: int, j: int|
            0 <= i < j < hander.issued(skips).len() ==> (#[trigger] hander.issued(skips)[i]) < (
            #[trigger] hander.issued(skips)[j]),
        hander.issued(skips).no_duplicates(),
    decreases skips.len(),
{
    if skips.len() > 0 {
        let rest = skips.subrange(1, skips.len() as int);
        if hander.can_handout(skips[0] as int) {
            let then = hander.after_handout(skips[0] as int);
            lemma_issued_strictly_increasing(then, rest);
            lemma_issued_within_bounds(then, rest);
            let all = hander.issued(skips);
            assert forall|i: int, j: int| 0 <= i < j < all.len() implies (#[trigger] all[i]) < (
            #[trigger] all[j]) by {
                assert(all[j] == then.issued(rest)[j - 1]);
                if i > 0 {
                    assert(all[i] == then.issued(rest)[i - 1]);
                }
            }
        } else {
            lemma_issued_strictly_increasing(hander, rest);
        }
    }
}

/// Plain hand-outs in a row succeed exactly as long as identifiers remain: a
/// hander with ceiling `max` whose next identifier is `next` hands out
/// `next`, `next + 1`, and so on up to `max`, that is `max - next + 1`
/// identifiers, and fails every request after them.
pub proof fn lemma_handouts_until_exhausted(hander: HanderView, count: nat)
    ensures
        hander.after_handouts(count).max == hander.max,
        count <= hander.remaining() ==> hander.after_handouts(count).next == hander.next + count,
        count < hander.remaining() ==> hander.after_handouts(count).can_handout(0)
            && hander.after_handouts(count).handed_out(0) == hander.next + count,
        count >= hander.remaining() ==> !hander.after_handouts(count).can_handout(0),
    decreases count,
{
    if count > 0 {
        lemma_handouts_until_exhausted(hander.after_handout(0), (count - 1) as nat);
    }
}

/// Issues identifiers in rising order, each at most once, up to a ceiling.
pub struct IdHander {
    /// The identifier to hand out next, or nothing once the largest
    /// identifier there is has been handed out.
    next: Option<Id>,
    max: Id,
}

impl View for IdHander {
    type V = HanderView;

    closed spec fn view(&self) -> HanderView {
        HanderView {
            next: match self.next {
                Some(id) => id.0 as int,
                None => usize::MAX + 1,
            },
            max: self.max.0 as int,
        }
    }
}

impl IdHander {
    /// The identifiers of a hander are numbers that an `Id` can hold, and
    /// its next one lies at most one above the largest of them.
    pub proof fn lemma_view_in_range(&self)
        ensures
            0 <= self@.next <= usize::MAX + 1,
            0 <= self@.max <= usize::MAX,
    {
    }

    /// A hander for the identifiers from 0 to `max`.
    pub fn new(max: Id) -> (hander: Self)
        ensures
            hander@ == (HanderView { next: 0, max: max.0 as int }),
    {
        Self { next: Some(Id(0)), max }
    }

    /// A hander for the identifiers from `start` to `max`.
    pub fn new_starting_from(start: Id, max: Id) -> (hander: Self)
        requires
            start.0 <= max.0,
        ensures
            hander@ == (HanderView { next: start.0 as int, max: max.0 as int }),
    {
        Self { next: Some(start), max }
    }

    /// The identifier that would be handed out next. Where the hander has
    /// gone past the largest identifier there is, that largest one.
    pub fn peek_next(&self) -> (id: Id)
        ensures
            self@.next <= usize::MAX ==> id.0 == self@.next,
            self@.next > usize::MAX ==> id.0 == Id::MAX_ID,
    {
        match self.next {
            Some(id) => id,
            None => Id(Id::MAX_ID),
        }
    }

    /// The last identifier that this hander may hand out.
    pub fn max(&self) -> (id: Id)
        ensures
            id.0 == self@.max,
    {
        self.max
    }

    /// Whether a request that passes over `count` identifiers and takes
    /// the one after them would succeed.
    pub fn can_handout(&self, count: usize) -> (yes: bool)
        ensures
            yes == self@.can_handout(count as int),
    {
        match self.next {
            Some(id) => id.0 <= self.max.0 && count <= self.max.0 - id.0,
            None => false,
        }
    }

    /// Hands out the next identifier and steps past it. Fails, and changes
    /// nothing, once the ceiling is passed.
    pub fn handout(&mut self) -> (got: Option<Id>)
        ensures
            got is Some <==> old(self)@.can_handout(0),
            got matches Some(id) ==> id.0 == old(self)@.handed_out(0),
            final(self)@ == old(self)@.after_handout(0),
    {
        self.handout_and_skip(0)
    }

    /// Passes over `count` identifiers, then hands out the one after them
    /// and steps past it. Fails, and changes nothing, where that one would
    /// lie above the ceiling.
    pub fn handout_and_skip(&mut self, count: usize) -> (got: Option<Id>)
        ensures
            got is Some <==> old(self)@.can_handout(count as int),
            got matches Some(id) ==> id.0 == old(self)@.handed_out(count as int),
            final(self)@ == old(self)@.after_handout(count as int),
    {
        if !self.can_handout(count) {
            return None;
        }
        let id = self.peek_next().0 + count;
        self.next = if id < usize::MAX {
            Some(Id(id + 1))
        } else {
            None
        };
        Some(Id(id))
    }
}

} // verus!
