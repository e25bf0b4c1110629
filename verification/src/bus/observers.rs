//! The observers of a server: they may refuse commands, and they hear of events.

use vstd::prelude::*;

use crate::text;

verus! {

/// The observers, each under the name of its kind, in the order in which they are asked.
pub struct Observers<M> {
    list: Vec<(String, M)>,
}

/// Whether one of the observers is of this kind.
pub open spec fn has_kind<M>(list: Seq<(Seq<char>, M)>, kind: Seq<char>) -> bool {
    exists|i: int| 0 <= i < list.len() && (#[trigger] list[i]).0 == kind
}

/// Every observer but those of one kind.
pub open spec fn of_other_kind<M>(kind: Seq<char>) -> spec_fn((Seq<char>, M)) -> bool {
    |entry: (Seq<char>, M)| entry.0 != kind
}

impl<M> View for Observers<M> {
    type V = Seq<(Seq<char>, M)>;

    closed spec fn view(&self) -> Seq<(Seq<char>, M)> {
        Seq::new(self.list@.len(), |i: int| (self.list@[i].0@, self.list@[i].1))
    }
}

impl<M> Observers<M> {
    /// No observers.
    pub fn new() -> (res: Self)
        ensures
            res@ == Seq::<(Seq<char>, M)>::empty(),
    {
        let res = Observers { list: Vec::new() };
        assert(res@ =~= Seq::<(Seq<char>, M)>::empty());
        res
    }

    /// These observers.
    pub fn with_moderators(list: Vec<(String, M)>) -> (res: Self)
        ensures
            res@ == Seq::new(list@.len(), |i: int| (list@[i].0@, list@[i].1)),
    {
        Observers { list }
    }

    /// The number of observers.
    pub fn len(&self) -> (res: usize)
        ensures
            res == self@.len(),
    {
        self.list.len()
    }

    /// One of the observers.
    pub fn get(&self, i: usize) -> (res: &M)
        requires
            i < self@.len(),
        ensures
            *res == self@[i as int].1,
    {
        &self.list[i].1
    }

    /// Adds an observer, unless there is one of its kind.
    pub fn add_moderator(&mut self, kind: String, moderator: M)
        ensures
            final(self)@ == added(old(self)@, kind@, moderator),
    {
        let mut i: usize = 0;
        while i < self.list.len()
            invariant
                i <= self.list.len(),
                *self == *old(self),
                forall|j: int| 0 <= j < i ==> (#[trigger] self@[j]).0 != kind@,
            decreases self.list.len() - i,
        {
            if text::same_text(&self.list[i].0, &kind) {
                assert(self@[i as int].0 == kind@);
                return;
            }
            i = i + 1;
        }
        self.list.push((kind, moderator));
        assert(self@ =~= old(self)@.push((kind@, moderator)));
    }

    /// Removes the observers of a kind, and tells whether there were any.
    pub fn remove_moderator(&mut self, kind: &String) -> (res: bool)
        ensures
            res == has_kind(old(self)@, kind@),
            final(self)@ == old(self)@.filter(of_other_kind(kind@)),
    {
        let ghost start = self@;
        let mut found: bool = false;
        let ghost mut done: int = 0;
        let mut i: usize = 0;
        proof {
            reveal(Seq::filter);
            assert(start.take(0) =~= Seq::empty());
            assert(self@.take(0) =~= Seq::empty());
            assert(self@.skip(0) =~= start.skip(0));
        }
        while i < self.list.len()
            invariant
                0 <= i <= self.list@.len(),
                0 <= done <= start.len(),
                self@.take(i as int) == start.take(done).filter(of_other_kind(kind@)),
                self@.skip(i as int) == start.skip(done),
                found == has_kind(start.take(done), kind@),
            decreases self.list@.len() - i,
        {
            let ghost before = self@;
            proof {
                assert(before.skip(i as int)[0] == start.skip(done)[0]);
                assert(before.skip(i as int).len() == start.skip(done).len());
                lemma_one_more(start, done, kind@);
                assert(before.skip(i as int).drop_first() =~= before.skip(i + 1));
                assert(start.skip(done).drop_first() =~= start.skip(done + 1));
            }
            if text::same_text(&self.list[i].0, kind) {
                let _ = self.list.remove(i);
                found = true;
                assert(self@.take(i as int) =~= before.take(i as int));
                assert(self@.skip(i as int) =~= before.skip(i + 1));
            } else {
                i = i + 1;
                assert(before.take(i as int) =~= before.take(i - 1).push(before[i - 1]));
            }
            proof {
                done = done + 1;
            }
        }
        proof {
            assert(self@.skip(i as int).len() == 0);
            assert(start.take(done) =~= start);
            assert(self@.take(i as int) =~= self@);
        }
        found
    }
}

/// How one more entry changes what is kept and what is found.
proof fn lemma_one_more<M>(list: Seq<(Seq<char>, M)>, done: int, kind: Seq<char>)
    requires
        0 <= done < list.len(),
    ensures
        list.take(done + 1).filter(of_other_kind(kind)) == if list[done].0 == kind {
            list.take(done).filter(of_other_kind(kind))
        } else {
            list.take(done).filter(of_other_kind(kind)).push(list[done])
        },
        has_kind(list.take(done + 1), kind) == (has_kind(list.take(done), kind) || list[done].0
            == kind),
{
    reveal(Seq::filter);
    let more = list.take(done + 1);
    assert(more.drop_last() =~= list.take(done));
    assert(more[done] == list[done]);
    if has_kind(list.take(done), kind) {
        let i = choose|i: int| 0 <= i < done && (#[trigger] list.take(done)[i]).0 == kind;
        assert(more[i].0 == kind);
    }
    if has_kind(more, kind) && list[done].0 != kind {
        let i = choose|i: int| 0 <= i < done + 1 && (#[trigger] more[i]).0 == kind;
        assert(list.take(done)[i].0 == kind);
    }
}

/// The observers after one was added.
pub open spec fn added<M>(list: Seq<(Seq<char>, M)>, kind: Seq<char>, moderator: M) -> Seq<
    (Seq<char>, M),
> {
    if has_kind(list, kind) {
        list
    } else {
        list.push((kind, moderator))
    }
}

/// Whether no two observers are of one kind.
pub open spec fn distinct_kinds<M>(list: Seq<(Seq<char>, M)>) -> bool {
    forall|i: int, j: int|
        0 <= i < j < list.len() ==> (#[trigger] list[i]).0 != (#[trigger] list[j]).0
}

/// An observer that was added is there, and only once: adding one again changes nothing, and no
/// two observers come to be of one kind.
pub proof fn added_once<M>(
    list: Seq<(Seq<char>, M)>,
    kind: Seq<char>,
    moderator: M,
    another: M,
)
    ensures
        has_kind(added(list, kind, moderator), kind),
        added(added(list, kind, moderator), kind, another) == added(list, kind, moderator),
        distinct_kinds(list) ==> distinct_kinds(added(list, kind, moderator)),
{
    if !has_kind(list, kind) {
        assert(list.push((kind, moderator))[list.len() as int].0 == kind);
    }
}

/// No observer of a kind that was removed is left, and the others are.
pub proof fn removed_for_good<M>(list: Seq<(Seq<char>, M)>, kind: Seq<char>, other: Seq<char>)
    ensures
        !has_kind(list.filter(of_other_kind(kind)), kind),
        other != kind ==> has_kind(list.filter(of_other_kind(kind)), other) == has_kind(
            list,
            other,
        ),
    decreases list.len(),
{
    reveal(Seq::filter);
    if list.len() > 0 {
        let n = list.len() - 1;
        removed_for_good(list.drop_last(), kind, other);
        lemma_one_more(list, n, kind);
        lemma_one_more(list, n, other);
        assert(list.take(n) =~= list.drop_last());
        assert(list.take(n + 1) =~= list);
        let kept = list.drop_last().filter(of_other_kind(kind));
        if list[n].0 != kind {
            let after = kept.push(list[n]);
            lemma_one_more(after, kept.len() as int, kind);
            lemma_one_more(after, kept.len() as int, other);
            assert(after.take(kept.len() as int) =~= kept);
            assert(after.take(kept.len() as int + 1) =~= after);
        }
    }
}

} // verus!
