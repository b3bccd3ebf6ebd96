//! The header fields of a message: a map from name to value.
//!
//! Names are compared character by character, so `Host` and `host` are two
//! names. A name is held once; entering it again replaces its value.

use vstd::prelude::*;
use vstd::std_specs::cmp::PartialEqSpecImpl;
use crate::text::same_text;

verus! {

/// The map that a run of header lines leaves behind: the lines are entered in
/// the order in which they stand, a later line replacing an earlier one of the
/// same name.
pub open spec fn header_map(lines: Seq<(Seq<char>, Seq<char>)>) -> Map<Seq<char>, Seq<char>>
    decreases lines.len(),
{
    if lines.len() == 0 {
        Map::empty()
    } else {
        header_map(lines.drop_last()).insert(lines.last().0, lines.last().1)
    }
}

/// Whether some line carries the name `name`.
pub open spec fn has_name(lines: Seq<(Seq<char>, Seq<char>)>, name: Seq<char>) -> bool {
    exists|i: int| 0 <= i < lines.len() && (#[trigger] lines[i]).0 == name
}

/// Whether no two lines carry the same name.
pub open spec fn names_differ(lines: Seq<(Seq<char>, Seq<char>)>) -> bool {
    forall|i: int, j: int|
        0 <= i < j < lines.len() ==> (#[trigger] lines[i]).0 != (#[trigger] lines[j]).0
}

/// The map of a run of lines holds the names of the lines and no others, and
/// it is finite.
pub proof fn lemma_header_map_names(lines: Seq<(Seq<char>, Seq<char>)>)
    ensures
        header_map(lines).dom().finite(),
        forall|name: Seq<char>| #[trigger]
            header_map(lines).contains_key(name) <==> has_name(lines, name),
    decreases lines.len(),
{
    if lines.len() > 0 {
        let front = lines.drop_last();
        lemma_header_map_names(front);
        assert forall|name: Seq<char>| #[trigger]
            header_map(lines).contains_key(name) <==> has_name(lines, name) by {
            if has_name(lines, name) {
                let i = choose|i: int| 0 <= i < lines.len() && (#[trigger] lines[i]).0 == name;
                if i < lines.len() - 1 {
                    assert(front[i].0 == name);
                    assert(has_name(front, name));
                }
            }
            if header_map(lines).contains_key(name) {
                if name == lines.last().0 {
                    assert(lines[lines.len() - 1].0 == name);
                } else {
                    assert(has_name(front, name));
                    let i = choose|i: int| 0 <= i < front.len() && (#[trigger] front[i]).0 == name;
                    assert(lines[i].0 == name);
                }
            }
        }
    }
}

/// Last write wins: the map gives a name the value of the last line that
/// carries it.
pub proof fn lemma_header_map_last_wins(lines: Seq<(Seq<char>, Seq<char>)>, i: int)
    requires
        0 <= i < lines.len(),
        forall|j: int| i < j < lines.len() ==> (#[trigger] lines[j]).0 != lines[i].0,
    ensures
        header_map(lines).contains_key(lines[i].0),
        header_map(lines)[lines[i].0] == lines[i].1,
    decreases lines.len(),
{
    if i < lines.len() - 1 {
        let front = lines.drop_last();
        assert(front[i] == lines[i]);
        assert forall|j: int| i < j < front.len() implies (#[trigger] front[j]).0 != front[i].0 by {
            assert(front[j] == lines[j]);
        }
        lemma_header_map_last_wins(front, i);
        assert(lines[lines.len() - 1].0 != lines[i].0);
    }
}

/// Where no name stands twice, the map has as many names as there are lines.
pub proof fn lemma_header_map_len(lines: Seq<(Seq<char>, Seq<char>)>)
    requires
        names_differ(lines),
    ensures
        header_map(lines).dom().finite(),
        header_map(lines).dom().len() == lines.len(),
    decreases lines.len(),
{
    lemma_header_map_names(lines);
    if lines.len() > 0 {
        let front = lines.drop_last();
        assert forall|i: int, j: int| 0 <= i < j < front.len() implies (#[trigger] front[i]).0 != (
        #[trigger] front[j]).0 by {
            assert(front[i] == lines[i] && front[j] == lines[j]);
        }
        lemma_header_map_len(front);
        lemma_header_map_names(front);
        if has_name(front, lines.last().0) {
            let i = choose|i: int|
                0 <= i < front.len() && (#[trigger] front[i]).0 == lines.last().0;
            assert(lines[i].0 == lines[lines.len() - 1].0);
        }
        assert(!header_map(front).contains_key(lines.last().0));
    }
}

/// Where no name stands twice, taking a line out takes its name out of the
/// map and leaves the rest as it was.
pub proof fn lemma_header_map_remove(lines: Seq<(Seq<char>, Seq<char>)>, i: int)
    requires
        names_differ(lines),
        0 <= i < lines.len(),
    ensures
        names_differ(lines.remove(i)),
        header_map(lines.remove(i)) == header_map(lines).remove(lines[i].0),
    decreases lines.len(),
{
    let front = lines.drop_last();
    let rest = lines.remove(i);
    assert forall|a: int, b: int| 0 <= a < b < rest.len() implies (#[trigger] rest[a]).0 != (
    #[trigger] rest[b]).0 by {
        let a0 = if a < i { a } else { a + 1 };
        let b0 = if b < i { b } else { b + 1 };
        assert(rest[a] == lines[a0] && rest[b] == lines[b0]);
    }
    assert forall|a: int, b: int| 0 <= a < b < front.len() implies (#[trigger] front[a]).0 != (
    #[trigger] front[b]).0 by {
        assert(front[a] == lines[a] && front[b] == lines[b]);
    }
    if i == lines.len() - 1 {
        assert(rest =~= front);
        lemma_header_map_names(front);
        if has_name(front, lines[i].0) {
            let k = choose|k: int| 0 <= k < front.len() && (#[trigger] front[k]).0 == lines[i].0;
            assert(lines[k].0 == lines[i].0);
        }
        assert(header_map(front) =~= header_map(lines).remove(lines[i].0));
    } else {
        assert(rest.drop_last() =~= front.remove(i));
        assert(rest.last() == lines.last());
        assert(front[i] == lines[i]);
        lemma_header_map_remove(front, i);
        assert(lines[i].0 != lines[lines.len() - 1].0);
        assert(header_map(rest) =~= header_map(lines).remove(lines[i].0));
    }
}

/// What a run of held fields reads as: each name and value by its characters.
spec fn lines_of(entries: Seq<(String, String)>) -> Seq<(Seq<char>, Seq<char>)> {
    Seq::new(entries.len(), |i: int| (entries[i].0@, entries[i].1@))
}

/// The header fields of one message.
#[derive(Debug)]
pub struct HeaderMap {
    entries: Vec<(String, String)>,
}

impl View for HeaderMap {
    type V = Map<Seq<char>, Seq<char>>;

    /// The fields as a map from name to value.
    closed spec fn view(&self) -> Map<Seq<char>, Seq<char>> {
        header_map(self.lines())
    }
}

impl HeaderMap {
    /// The fields as lines of name and value, in the order in which they are held.
    spec fn lines(&self) -> Seq<(Seq<char>, Seq<char>)> {
        lines_of(self.entries@)
    }

    #[verifier::type_invariant]
    spec fn held_once(&self) -> bool {
        names_differ(self.lines())
    }

    /// A map without fields.
    pub fn new() -> (headers: HeaderMap)
        ensures
            headers@ == Map::<Seq<char>, Seq<char>>::empty(),
    {
        let headers = HeaderMap { entries: Vec::new() };
        assert(headers.lines() =~= Seq::empty());
        headers
    }

    /// The number of fields.
    pub fn len(&self) -> (count: usize)
        ensures
            self@.dom().finite(),
            count == self@.dom().len(),
    {
        proof {
            use_type_invariant(self);
            lemma_header_map_len(self.lines());
        }
        self.entries.len()
    }

    /// Where the field named `name` is held, if it is.
    fn position_of(&self, name: &str) -> (found: Option<usize>)
        ensures
            match found {
                Some(i) => i < self.lines().len() && self.lines()[i as int].0 == name@,
                None => !has_name(self.lines(), name@),
            },
    {
        let mut i: usize = 0;
        while i < self.entries.len()
            invariant
                0 <= i <= self.entries@.len(),
                self.lines().len() == self.entries@.len(),
                forall|j: int| 0 <= j < i ==> (#[trigger] self.lines()[j]).0 != name@,
            decreases self.entries@.len() - i,
        {
            if same_text(self.entries[i].0.as_str(), name) {
                return Some(i);
            }
            i = i + 1;
        }
        None
    }

    /// The value of the field named `name`, if there is such a field.
    pub fn get(&self, name: &str) -> (value: Option<&String>)
        ensures
            match value {
                Some(v) => self@.contains_key(name@) && v@ == self@[name@],
                None => !self@.contains_key(name@),
            },
    {
        proof {
            use_type_invariant(self);
            lemma_header_map_names(self.lines());
        }
        match self.position_of(name) {
            Some(i) => {
                proof {
                    lemma_header_map_last_wins(self.lines(), i as int);
                }
                Some(&self.entries[i].1)
            },
            None => None,
        }
    }

    /// The names of the fields, each of them once, in no order that a caller
    /// may rely on.
    pub fn names(&self) -> (names: Vec<String>)
        ensures
            names@.len() == self@.dom().len(),
            forall|i: int| 0 <= i < names@.len() ==> self@.contains_key(#[trigger] names@[i]@),
            forall|i: int, j: int|
                0 <= i < j < names@.len() ==> (#[trigger] names@[i])@ != (#[trigger] names@[j])@,
            forall|name: Seq<char>| #[trigger]
                self@.contains_key(name) ==> exists|i: int|
                    0 <= i < names@.len() && (#[trigger] names@[i])@ == name,
    {
        proof {
            use_type_invariant(self);
            lemma_header_map_len(self.lines());
            lemma_header_map_names(self.lines());
        }
        let mut names: Vec<String> = Vec::new();
        let mut i: usize = 0;
        while i < self.entries.len()
            invariant
                0 <= i <= self.entries@.len(),
                self.lines().len() == self.entries@.len(),
                names@.len() == i,
                forall|j: int| 0 <= j < i ==> (#[trigger] names@[j])@ == self.lines()[j].0,
            decreases self.entries@.len() - i,
        {
            let name = self.entries[i].0.clone();
            names.push(name);
            i = i + 1;
        }
        proof {
            let lines = self.lines();
            assert forall|j: int| 0 <= j < names@.len() implies self@.contains_key(
                #[trigger] names@[j]@,
            ) by {
                assert(lines[j].0 == names@[j]@);
                assert(has_name(lines, names@[j]@));
            }
            assert forall|a: int, b: int| 0 <= a < b < names@.len() implies (#[trigger] names@[a])@
                != (#[trigger] names@[b])@ by {
                assert(lines[a].0 != lines[b].0);
            }
            assert forall|name: Seq<char>| #[trigger] self@.contains_key(name) implies exists|
                i: int,
            |
                0 <= i < names@.len() && (#[trigger] names@[i])@ == name by {
                assert(has_name(lines, name));
                let k = choose|k: int| 0 <= k < lines.len() && (#[trigger] lines[k]).0 == name;
                assert(names@[k]@ == name);
            }
        }
        names
    }

    /// Enters the field `name` with `value`. A field of that name that was
    /// held before is replaced, and its value is handed back.
    pub fn insert(&mut self, name: String, value: String) -> (previous: Option<String>)
        ensures
            final(self)@ == old(self)@.insert(name@, value@),
            match previous {
                Some(p) => old(self)@.contains_key(name@) && p@ == old(self)@[name@],
                None => !old(self)@.contains_key(name@),
            },
    {
        proof {
            use_type_invariant(&*self);
            lemma_header_map_names(self.lines());
        }
        let ghost before = self.lines();
        let found = self.position_of(name.as_str());
        let mut entries: Vec<(String, String)> = Vec::new();
        assert(lines_of(entries@) =~= Seq::empty());
        core::mem::swap(&mut self.entries, &mut entries);
        assert(lines_of(entries@) == before);
        let previous = match found {
            Some(i) => {
                proof {
                    lemma_header_map_last_wins(before, i as int);
                    lemma_header_map_remove(before, i as int);
                }
                let held = entries.remove(i);
                assert(lines_of(entries@) =~= before.remove(i as int));
                Some(held.1)
            },
            None => None,
        };
        let ghost middle = lines_of(entries@);
        proof {
            lemma_header_map_names(middle);
            assert(!has_name(middle, name@));
        }
        entries.push((name, value));
        proof {
            let after = lines_of(entries@);
            assert(after.drop_last() =~= middle);
            assert(after.last() == (name@, value@));
            assert forall|a: int, b: int| 0 <= a < b < after.len() implies (#[trigger] after[a]).0
                != (#[trigger] after[b]).0 by {
                assert(after[a] == middle[a]);
                if b < after.len() - 1 {
                    assert(after[b] == middle[b]);
                }
            }
            assert(header_map(after) =~= header_map(before).insert(name@, value@));
        }
        self.entries = entries;
        previous
    }
}

impl Clone for HeaderMap {
    /// A map of its own that holds the same fields.
    fn clone(&self) -> (copy: HeaderMap)
        ensures
            copy@ == self@,
    {
        proof {
            use_type_invariant(self);
        }
        let mut entries: Vec<(String, String)> = Vec::new();
        let mut i: usize = 0;
        while i < self.entries.len()
            invariant
                0 <= i <= self.entries@.len(),
                entries@ == self.entries@.subrange(0, i as int),
            decreases self.entries@.len() - i,
        {
            let name = self.entries[i].0.clone();
            let value = self.entries[i].1.clone();
            entries.push((name, value));
            assert(entries@ =~= self.entries@.subrange(0, i + 1));
            i = i + 1;
        }
        assert(entries@ =~= self.entries@);
        HeaderMap { entries }
    }
}

impl PartialEq for HeaderMap {
    /// Two maps are equal when they hold the same fields, in whatever order
    /// these were entered.
    fn eq(&self, other: &Self) -> (equal: bool) {
        proof {
            use_type_invariant(self);
            use_type_invariant(other);
            lemma_header_map_len(self.lines());
            lemma_header_map_len(other.lines());
            lemma_header_map_names(self.lines());
            lemma_header_map_names(other.lines());
        }
        if self.entries.len() != other.entries.len() {
            return false;
        }
        let mut i: usize = 0;
        while i < self.entries.len()
            invariant
                0 <= i <= self.entries@.len(),
                self.lines().len() == self.entries@.len(),
                names_differ(self.lines()),
                forall|j: int|
                    0 <= j < i ==> other@.contains_key((#[trigger] self.lines()[j]).0)
                        && other@[self.lines()[j].0] == self.lines()[j].1,
            decreases self.entries@.len() - i,
        {
            proof {
                lemma_header_map_last_wins(self.lines(), i as int);
            }
            match other.get(self.entries[i].0.as_str()) {
                None => {
                    return false;
                },
                Some(value) => {
                    if !(*value == self.entries[i].1) {
                        return false;
                    }
                },
            }
            i = i + 1;
        }
        proof {
            assert forall|name: Seq<char>| self@.contains_key(name) implies other@.contains_key(
                name,
            ) && other@[name] == self@[name] by {
                let j = choose|j: int|
                    0 <= j < self.lines().len() && (#[trigger] self.lines()[j]).0 == name;
                lemma_header_map_last_wins(self.lines(), j);
            }
            assert(self@.dom().subset_of(other@.dom()));
            vstd::set_lib::lemma_subset_equality(self@.dom(), other@.dom());
            assert(self@ =~= other@);
        }
        true
    }
}

impl PartialEqSpecImpl for HeaderMap {
    open spec fn obeys_eq_spec() -> bool {
        true
    }

    open spec fn eq_spec(&self, other: &HeaderMap) -> bool {
        self@ == other@
    }
}

impl Eq for HeaderMap {

}

} // verus!
