//! What two maps have in common.

use vstd::prelude::*;

verus! {

/// Whether the entries are those of a map: no key is there twice.
pub open spec fn is_map<V>(entries: Seq<(i32, V)>) -> bool {
    forall|i: int, j: int|
        0 <= i < j < entries.len() ==> (#[trigger] entries[i]).0 != (#[trigger] entries[j]).0
}

/// Where the entry with the given key stands, from `from` on.
pub open spec fn place_of<V>(entries: Seq<(i32, V)>, key: i32, from: int) -> Option<int>
    decreases entries.len() - from,
{
    if from < 0 || from >= entries.len() {
        None
    } else if entries[from].0 == key {
        Some(from)
    } else {
        place_of(entries, key, from + 1)
    }
}

pub proof fn lemma_not_placed<V>(entries: Seq<(i32, V)>, key: i32, from: int, i: int)
    requires
        0 <= from <= i < entries.len(),
        place_of(entries, key, from) is None,
    ensures
        entries[i].0 != key,
    decreases i - from,
{
    if from < i {
        lemma_not_placed(entries, key, from + 1, i);
    }
}

pub proof fn lemma_placed<V>(entries: Seq<(i32, V)>, key: i32, from: int)
    requires
        0 <= from,
    ensures
        place_of(entries, key, from) matches Some(i) ==> from <= i < entries.len() && entries[i].0 == key,
    decreases entries.len() - from,
{
    if from < entries.len() {
        lemma_placed(entries, key, from + 1);
    }
}

/// Where the next entry of `left` stands, from `from` on, whose key `right` has
/// too.
pub open spec fn next_common<V1, V2>(
    left: Seq<(i32, V1)>,
    right: Seq<(i32, V2)>,
    from: int,
) -> Option<int>
    decreases left.len() - from,
{
    if from < 0 || from >= left.len() {
        None
    } else if place_of(right, left[from].0, 0) is Some {
        Some(from)
    } else {
        next_common(left, right, from + 1)
    }
}

/// Goes through the keys that two maps have in common.
pub struct Intersection<'a, V1, V2> {
    left: &'a Vec<(i32, V1)>,
    at: usize,
    other: &'a Vec<(i32, V2)>,
}

/// Goes through the keys that both maps have.
pub fn intersection<'a, V1, V2>(
    self_: &'a Vec<(i32, V1)>,
    other: &'a Vec<(i32, V2)>,
) -> (r: Intersection<'a, V1, V2>)
    requires
        is_map(self_@),
        is_map(other@),
    ensures
        r.first() == self_@,
        r.second() == other@,
        r.place() == 0,
        r.wf(),
{
    Intersection { left: self_, at: 0, other }
}

/// Where the entry with the given key stands.
pub fn find_key<V>(entries: &Vec<(i32, V)>, key: i32) -> (r: Option<usize>)
    ensures
        match r {
            Some(i) => place_of(entries@, key, 0) == Some(i as int) && i < entries.len()
                && entries@[i as int].0 == key,
            None => place_of(entries@, key, 0) is None,
        },
{
    for i in 0..entries.len()
        invariant
            place_of(entries@, key, 0) == place_of(entries@, key, i as int),
    {
        if entries[i].0 == key {
            return Some(i);
        }
    }
    None
}

impl<'a, V1, V2> Intersection<'a, V1, V2> {
    /// The map that is gone through.
    pub closed spec fn first(&self) -> Seq<(i32, V1)> {
        self.left@
    }

    /// The other map.
    pub closed spec fn second(&self) -> Seq<(i32, V2)> {
        self.other@
    }

    /// From where on the first map is still to be gone through.
    pub closed spec fn place(&self) -> int {
        self.at as int
    }

    /// Whether both are maps, and this was made by `intersection` and gone through
    /// by `next`.
    pub closed spec fn wf(&self) -> bool {
        &&& is_map(self.left@)
        &&& is_map(self.other@)
        &&& self.at <= self.left.len()
    }

    /// The next key that both maps have, with what each of them has for it.
    pub fn next(&mut self) -> (r: Option<(i32, &'a V1, &'a V2)>)
        requires
            old(self).wf(),
        ensures
            final(self).wf(),
            final(self).first() == old(self).first(),
            final(self).second() == old(self).second(),
            match r {
                Some((key, a, b)) => {
                    let next = next_common(old(self).first(), old(self).second(), old(self).place());
                    &&& next is Some
                    &&& final(self).place() == next->0 + 1
                    &&& key == old(self).first()[next->0].0
                    &&& *a == old(self).first()[next->0].1
                    &&& place_of(old(self).second(), key, 0) matches Some(i) && *b
                        == old(self).second()[i].1
                },
                None => next_common(
                    old(self).first(),
                    old(self).second(),
                    old(self).place(),
                ) is None && final(self).place() == old(self).first().len(),
            },
    {
        let ghost start = self.at as int;
        while self.at < self.left.len()
            invariant
                self.at <= self.left.len(),
                is_map(self.left@),
                is_map(self.other@),
                self.left@ == old(self).left@,
                self.other@ == old(self).other@,
                next_common(self.left@, self.other@, start) == next_common(
                    self.left@,
                    self.other@,
                    self.at as int,
                ),
                start == old(self).at,
            decreases self.left.len() - self.at,
        {
            let entry = &self.left[self.at];
            self.at += 1;
            if let Some(i) = find_key(self.other, entry.0) {
                let found = &self.other[i];
                return Some((entry.0, &entry.1, &found.1));
            }
        }
        None
    }

    /// At least and at most how many keys are still to come.
    pub fn size_hint(&self) -> (r: (usize, Option<usize>))
        requires
            self.wf(),
        ensures
            r.0 == 0,
            r.1 == Some((self.first().len() - self.place()) as usize),
    {
        (0, Some(self.left.len() - self.at))
    }
}

/// What is found under a key is the first entry with that key, and nothing is found
/// only if no entry has it.
pub proof fn law_the_entry_with_the_key_is_found<V>(entries: Seq<(i32, V)>, key: i32, i: int)
    requires
        0 <= i < entries.len(),
    ensures
        entries[i].0 == key && is_map(entries) ==> place_of(entries, key, 0) == Some(i),
        place_of(entries, key, 0) == Some(i) ==> entries[i].0 == key,
        place_of(entries, key, 0) is None ==> entries[i].0 != key,
{
    lemma_placed(entries, key, 0);
    if place_of(entries, key, 0) is None {
        lemma_not_placed(entries, key, 0, i);
    } else {
        let at = place_of(entries, key, 0)->0;
        if entries[i].0 == key && is_map(entries) {
            if at < i {
                assert(entries[at].0 != entries[i].0);
            }
            if i < at {
                assert(entries[i].0 != entries[at].0);
            }
        }
    }
}

/// Going through what two maps have in common meets a key of the first exactly if
/// the second has it too: what is met next is had by both, and what is passed over
/// is not.
pub proof fn law_what_is_met_is_what_both_have<V1, V2>(
    left: Seq<(i32, V1)>,
    right: Seq<(i32, V2)>,
    from: int,
    i: int,
    j: int,
)
    requires
        0 <= from <= i < left.len(),
        0 <= j < right.len(),
    ensures
        match next_common(left, right, from) {
            Some(next) => {
                &&& from <= next < left.len()
                &&& exists|m: int| 0 <= m < right.len() && (#[trigger] right[m]).0 == left[next].0
                &&& i < next ==> left[i].0 != right[j].0
            },
            None => left[i].0 != right[j].0,
        },
    decreases left.len() - from,
{
    let key = left[from].0;
    lemma_placed(right, key, 0);
    if place_of(right, key, 0) is Some {
        let m = place_of(right, key, 0)->0;
        assert(right[m].0 == left[from].0);
    } else {
        lemma_not_placed(right, key, 0, j);
        if from < i {
            law_what_is_met_is_what_both_have(left, right, from + 1, i, j);
        } else if from + 1 < left.len() {
            law_what_is_met_is_what_both_have(left, right, from + 1, from + 1, j);
        }
    }
}

} // verus!
