//! The values that are recorded for the fields of a span or an event.

use vstd::prelude::*;

verus! {

/// The value of a field.
#[derive(Debug)]
pub enum Value {
    /// A string: every field is recorded as its debug text.
    String(String),
}

impl View for Value {
    type V = Seq<char>;

    open spec fn view(&self) -> Seq<char> {
        match self {
            Value::String(text) => text@,
        }
    }
}

/// The values of the fields of a span or an event, each under the name of its field.
#[derive(Debug)]
pub struct FieldValues {
    entries: Vec<(String, Value)>,
}

impl View for FieldValues {
    type V = Map<Seq<char>, Seq<char>>;

    closed spec fn view(&self) -> Map<Seq<char>, Seq<char>> {
        Map::new(
            |name: Seq<char>| self.holds(name),
            |name: Seq<char>| self.entries@[self.place(name)].1@,
        )
    }
}

impl FieldValues {
    spec fn holds(&self, name: Seq<char>) -> bool {
        exists|i: int| 0 <= i < self.entries@.len() && (#[trigger] self.entries@[i]).0@ == name
    }

    spec fn place(&self, name: Seq<char>) -> int {
        choose|i: int| 0 <= i < self.entries@.len() && (#[trigger] self.entries@[i]).0@ == name
    }

    /// No field has two values.
    pub closed spec fn wf(&self) -> bool {
        forall|i: int, j: int|
            0 <= i < j < self.entries@.len() ==> (#[trigger] self.entries@[i]).0@ != (
            #[trigger] self.entries@[j]).0@
    }

    proof fn lemma_entry(&self, i: int)
        requires
            self.wf(),
            0 <= i < self.entries@.len(),
        ensures
            self@.contains_key(self.entries@[i].0@),
            self@[self.entries@[i].0@] == self.entries@[i].1@,
    {
        let name = self.entries@[i].0@;
        assert(self.holds(name));
        assert(self.entries@[self.place(name)].0@ == name);
    }

    /// No values.
    pub fn new() -> (made: FieldValues)
        ensures
            made.wf(),
            made@ == Map::<Seq<char>, Seq<char>>::empty(),
    {
        let made = FieldValues { entries: Vec::new() };
        assert(made@ =~= Map::<Seq<char>, Seq<char>>::empty());
        made
    }

    /// Sets the value of the field `name`, in place of the one that it may have had.
    pub fn insert(&mut self, name: String, value: Value)
        requires
            old(self).wf(),
        ensures
            final(self).wf(),
            final(self)@ == old(self)@.insert(name@, value@),
    {
        let ghost (key, text) = (name@, value@);
        let len: usize = self.entries.len();
        let mut i: usize = 0;
        while i < len && self.entries[i].0 != name
            invariant
                i <= len,
                len == self.entries@.len(),
                forall|j: int| 0 <= j < i ==> (#[trigger] self.entries@[j]).0@ != name@,
            decreases len - i,
        {
            i += 1;
        }
        if i < len {
            self.entries.set(i, (name, value));
        } else {
            self.entries.push((name, value));
        }
        proof {
            let before = old(self);
            assert forall|other: Seq<char>| #[trigger]
                self@.contains_key(other) <==> before@.insert(key, text).contains_key(other) by {
                if before.holds(other) {
                    let j = before.place(other);
                    if other != key {
                        assert(self.entries@[j] == before.entries@[j]);
                    }
                }
                assert(self.entries@[i as int].0@ == key);
                if self.holds(other) && other != key {
                    let j = self.place(other);
                    assert(self.entries@[j] == before.entries@[j]);
                }
            }
            assert forall|other: Seq<char>| #[trigger] self@.contains_key(other) implies self@[other]
                == before@.insert(key, text)[other] by {
                let j = self.place(other);
                self.lemma_entry(j);
                if other != key {
                    assert(self.entries@[j] == before.entries@[j]);
                    before.lemma_entry(j);
                } else {
                    self.lemma_entry(i as int);
                }
            }
            assert(self@ =~= before@.insert(key, text));
        }
    }

    /// The value of the field `name`, if it has one.
    pub fn get(&self, name: &str) -> (value: Option<&Value>)
        requires
            self.wf(),
        ensures
            match value {
                Some(value) => self@.contains_key(name@) && self@[name@] == value@,
                None => !self@.contains_key(name@),
            },
    {
        let sought = name.to_owned();
        let len: usize = self.entries.len();
        let mut i: usize = 0;
        while i < len
            invariant
                self.wf(),
                sought@ == name@,
                i <= len,
                len == self.entries@.len(),
                forall|j: int| 0 <= j < i ==> (#[trigger] self.entries@[j]).0@ != name@,
            decreases len - i,
        {
            if self.entries[i].0 == sought {
                proof {
                    self.lemma_entry(i as int);
                }
                return Some(&self.entries[i].1);
            }
            i += 1;
        }
        None
    }
}

/// What is on record once the fields `fields`, each a name and a debug text, are visited in order.
pub open spec fn recorded(fields: Seq<(String, String)>) -> Map<Seq<char>, Seq<char>>
    decreases fields.len(),
{
    if fields.len() == 0 {
        Map::empty()
    } else {
        recorded(fields.drop_last()).insert(fields.last().0@, fields.last().1@)
    }
}

/// Records the fields of a span or an event as they are visited.
#[derive(Debug)]
pub struct RegistryVisitor {
    values: FieldValues,
}

impl RegistryVisitor {
    /// What has been recorded so far.
    pub closed spec fn values(&self) -> Map<Seq<char>, Seq<char>> {
        self.values@
    }

    /// What has been recorded gives no field two values.
    pub closed spec fn wf(&self) -> bool {
        self.values.wf()
    }

    /// A visitor that has not seen a field yet.
    pub fn new() -> (made: RegistryVisitor)
        ensures
            made.wf(),
            made.values() == Map::<Seq<char>, Seq<char>>::empty(),
    {
        RegistryVisitor { values: FieldValues::new() }
    }

    /// Records the field `field`, whose debug text is `value`, as a string.
    pub fn record_debug(&mut self, field: String, value: String)
        requires
            old(self).wf(),
        ensures
            final(self).wf(),
            final(self).values() == old(self).values().insert(field@, value@),
    {
        self.values.insert(field, Value::String(value));
    }

    /// Gives out what has been recorded.
    pub fn finish(self) -> (values: FieldValues)
        requires
            self.wf(),
        ensures
            values.wf(),
            values@ == self.values(),
    {
        self.values
    }
}

/// Visits `fields` in order and gives out what is then on record.
pub fn record_fields(fields: &Vec<(String, String)>) -> (values: FieldValues)
    ensures
        values.wf(),
        values@ == recorded(fields@),
{
    let mut visitor = RegistryVisitor::new();
    let len: usize = fields.len();
    let mut i: usize = 0;
    assert(recorded(fields@.take(0)) =~= Map::<Seq<char>, Seq<char>>::empty());
    while i < len
        invariant
            visitor.wf(),
            i <= len,
            len == fields@.len(),
            visitor.values() == recorded(fields@.take(i as int)),
        decreases len - i,
    {
        assert(fields@.take(i + 1).drop_last() =~= fields@.take(i as int));
        visitor.record_debug(fields[i].0.clone(), fields[i].1.clone());
        i += 1;
    }
    assert(fields@.take(len as int) =~= fields@);
    visitor.finish()
}

/// Exactly the fields that were visited are on record.
pub proof fn law_recorded_names(fields: Seq<(String, String)>, name: Seq<char>)
    ensures
        recorded(fields).contains_key(name) <==> exists|i: int|
            0 <= i < fields.len() && (#[trigger] fields[i]).0@ == name,
    decreases fields.len(),
{
    if fields.len() > 0 {
        let rest = fields.drop_last();
        law_recorded_names(rest, name);
        if recorded(rest).contains_key(name) {
            let i = choose|i: int| 0 <= i < rest.len() && (#[trigger] rest[i]).0@ == name;
            assert(fields[i].0@ == name);
        }
        if fields.last().0@ == name {
            assert(fields[fields.len() - 1].0@ == name);
        }
        if exists|i: int| 0 <= i < fields.len() && (#[trigger] fields[i]).0@ == name {
            let i = choose|i: int| 0 <= i < fields.len() && (#[trigger] fields[i]).0@ == name;
            if i < rest.len() {
                assert(rest[i].0@ == name);
            }
        }
    }
}

/// Of a field that was visited more than once, the last visit is on record.
pub proof fn law_last_visit_is_recorded(fields: Seq<(String, String)>, i: int)
    requires
        0 <= i < fields.len(),
        forall|j: int| i < j < fields.len() ==> (#[trigger] fields[j]).0@ != fields[i].0@,
    ensures
        recorded(fields).contains_key(fields[i].0@),
        recorded(fields)[fields[i].0@] == fields[i].1@,
    decreases fields.len(),
{
    let rest = fields.drop_last();
    if i < rest.len() {
        assert forall|j: int| i < j < rest.len() implies (#[trigger] rest[j]).0@ != rest[i].0@ by {
            assert(fields[j].0@ != fields[i].0@);
        }
        law_last_visit_is_recorded(rest, i);
        assert(fields[fields.len() - 1].0@ != fields[i].0@);
    }
}

/// The value of a field is the text that was recorded for it, all of it.
pub proof fn law_value_is_its_text(text: String)
    ensures
        Value::String(text)@ == text@,
{
}

} // verus!
