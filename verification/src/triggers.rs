//! The configured triggers and the commands they run.
use crate::text::{eq_ignore_ascii_case, folded, same_text, texts_view};
use vstd::prelude::*;
use vstd::string::*;

verus! {

/// Whether a trigger of this name is in `triggers`, whatever its letter case.
pub open spec fn has_name(triggers: Map<Seq<char>, Seq<Seq<char>>>, name: Seq<char>) -> bool {
    exists|key: Seq<char>| #[trigger]
        triggers.dom().contains(key) && folded(key) == folded(name)
}

/// No two names differ only by letter case.
pub open spec fn case_distinct(triggers: Map<Seq<char>, Seq<Seq<char>>>) -> bool {
    forall|a: Seq<char>, b: Seq<char>| #[trigger]
        triggers.dom().contains(a) && #[trigger] triggers.dom().contains(b) && folded(a) == folded(
            b,
        ) ==> a == b
}

/// The map that a list of triggers stands for.
spec fn as_map(entries: Seq<(String, Vec<String>)>) -> Map<Seq<char>, Seq<Seq<char>>>
    decreases entries.len(),
{
    if entries.len() == 0 {
        Map::empty()
    } else {
        as_map(entries.drop_last()).insert(entries.last().0@, texts_view(entries.last().1@))
    }
}

/// No two entries have names that differ only by letter case.
spec fn distinct(entries: Seq<(String, Vec<String>)>) -> bool {
    forall|i: int, j: int|
        0 <= i < j < entries.len() ==> folded(#[trigger] entries[i].0@) != folded(
            #[trigger] entries[j].0@,
        )
}

/// The map holds the entries and nothing else.
proof fn lemma_map(entries: Seq<(String, Vec<String>)>)
    requires
        distinct(entries),
    ensures
        forall|i: int|
            0 <= i < entries.len() ==> {
                &&& as_map(entries).dom().contains(#[trigger] entries[i].0@)
                &&& as_map(entries)[entries[i].0@] == texts_view(entries[i].1@)
            },
        forall|key: Seq<char>| #[trigger]
            as_map(entries).dom().contains(key) ==> exists|i: int|
                0 <= i < entries.len() && #[trigger] entries[i].0@ == key,
    decreases entries.len(),
{
    if entries.len() > 0 {
        let rest = entries.drop_last();
        assert forall|i: int, j: int| 0 <= i < j < rest.len() implies folded(
            #[trigger] rest[i].0@,
        ) != folded(#[trigger] rest[j].0@) by {
            assert(rest[i] == entries[i] && rest[j] == entries[j]);
        }
        lemma_map(rest);
        assert forall|i: int| 0 <= i < entries.len() implies {
            &&& as_map(entries).dom().contains(#[trigger] entries[i].0@)
            &&& as_map(entries)[entries[i].0@] == texts_view(entries[i].1@)
        } by {
            if i < rest.len() {
                assert(rest[i] == entries[i]);
                assert(folded(entries[i].0@) != folded(entries.last().0@));
            }
        }
        assert forall|key: Seq<char>| #[trigger]
            as_map(entries).dom().contains(key) implies exists|i: int|
            0 <= i < entries.len() && #[trigger] entries[i].0@ == key by {
            if key == entries.last().0@ {
                assert(entries[entries.len() - 1].0@ == key);
            } else {
                assert(as_map(rest).dom().contains(key));
                let i = choose|i: int| 0 <= i < rest.len() && #[trigger] rest[i].0@ == key;
                assert(entries[i].0@ == key);
            }
        }
    }
}

/// Map of trigger → command arguments parsed from the config file.
///
/// No two triggers have names that differ only by letter case.
#[derive(Debug)]
pub struct TriggerCommands {
    entries: Vec<(String, Vec<String>)>,
}

impl View for TriggerCommands {
    type V = Map<Seq<char>, Seq<Seq<char>>>;

    closed spec fn view(&self) -> Map<Seq<char>, Seq<Seq<char>>> {
        as_map(self.entries@)
    }
}

impl TriggerCommands {
    #[verifier::type_invariant]
    spec fn wf(self) -> bool {
        distinct(self.entries@)
    }

    /// No triggers at all.
    pub fn new() -> (triggers: TriggerCommands)
        ensures
            triggers@ == Map::<Seq<char>, Seq<Seq<char>>>::empty(),
    {
        TriggerCommands { entries: Vec::new() }
    }

    /// The command of the trigger of exactly this name.
    pub fn get(&self, name: &str) -> (command: Option<&Vec<String>>)
        ensures
            match command {
                Some(command) => self@.dom().contains(name@) && texts_view(command@)
                    == self@[name@],
                None => !self@.dom().contains(name@),
            },
    {
        proof {
            use_type_invariant(self);
            lemma_map(self.entries@);
        }
        let mut i: usize = 0;
        while i < self.entries.len()
            invariant
                i <= self.entries@.len(),
                self@ == as_map(self.entries@),
                forall|j: int| 0 <= j < i ==> #[trigger] self.entries@[j].0@ != name@,
                forall|j: int|
                    0 <= j < self.entries@.len() ==> {
                        &&& self@.dom().contains(#[trigger] self.entries@[j].0@)
                        &&& self@[self.entries@[j].0@] == texts_view(self.entries@[j].1@)
                    },
            decreases self.entries@.len() - i,
        {
            let entry = &self.entries[i];
            if same_text(entry.0.as_str(), name) {
                return Some(&entry.1);
            }
            i += 1;
        }
        None
    }

    /// Adds a trigger. Where one of the same name is there already, whatever
    /// its letter case, nothing changes and the result is `false`.
    pub fn insert(&mut self, name: String, command: Vec<String>) -> (added: bool)
        ensures
            added == !has_name(old(self)@, name@),
            final(self)@ == if added {
                old(self)@.insert(name@, texts_view(command@))
            } else {
                old(self)@
            },
    {
        proof {
            use_type_invariant(&*self);
        }
        if self.find(name.as_str()).is_some() {
            return false;
        }
        proof {
            lemma_map(self.entries@);
        }
        let ghost before = self.entries@;
        let mut entries: Vec<(String, Vec<String>)> = Vec::new();
        std::mem::swap(&mut entries, &mut self.entries);
        entries.push((name, command));
        proof {
            assert(entries@.drop_last() =~= before);
            assert forall|i: int, j: int| 0 <= i < j < entries@.len() implies folded(
                #[trigger] entries@[i].0@,
            ) != folded(#[trigger] entries@[j].0@) by {
                assert(entries@[i] == before[i]);
                if j < before.len() {
                    assert(entries@[j] == before[j]);
                } else {
                    assert(as_map(before).dom().contains(before[i].0@));
                }
            }
        }
        self.entries = entries;
        true
    }

    /// Case-insensitive lookup of a trigger command. At most one trigger can
    /// match `name`.
    pub fn find(&self, name: &str) -> (command: Option<&Vec<String>>)
        ensures
            case_distinct(self@),
            match command {
                Some(command) => exists|key: Seq<char>| #[trigger]
                    self@.dom().contains(key) && folded(key) == folded(name@) && texts_view(
                        command@,
                    ) == self@[key],
                None => !has_name(self@, name@),
            },
    {
        proof {
            use_type_invariant(self);
            lemma_map(self.entries@);
            assert forall|a: Seq<char>, b: Seq<char>| #[trigger]
                self@.dom().contains(a) && #[trigger] self@.dom().contains(b) && folded(a)
                    == folded(b) implies a == b by {
                let i = choose|i: int|
                    0 <= i < self.entries@.len() && #[trigger] self.entries@[i].0@ == a;
                let j = choose|j: int|
                    0 <= j < self.entries@.len() && #[trigger] self.entries@[j].0@ == b;
                if i < j {
                    assert(folded(self.entries@[i].0@) != folded(self.entries@[j].0@));
                } else if j < i {
                    assert(folded(self.entries@[j].0@) != folded(self.entries@[i].0@));
                }
            }
        }
        let mut i: usize = 0;
        while i < self.entries.len()
            invariant
                i <= self.entries@.len(),
                self@ == as_map(self.entries@),
                case_distinct(self@),
                forall|j: int|
                    0 <= j < i ==> folded(#[trigger] self.entries@[j].0@) != folded(name@),
                forall|j: int|
                    0 <= j < self.entries@.len() ==> {
                        &&& self@.dom().contains(#[trigger] self.entries@[j].0@)
                        &&& self@[self.entries@[j].0@] == texts_view(self.entries@[j].1@)
                    },
            decreases self.entries@.len() - i,
        {
            let entry = &self.entries[i];
            if eq_ignore_ascii_case(entry.0.as_str(), name) {
                assert(self@.dom().contains(self.entries@[i as int].0@));
                return Some(&entry.1);
            }
            i += 1;
        }
        None
    }
}

} // verus!
