//! The run of lookups that names a set of identifiers: which step comes
//! next, and what each outcome changes.

use vstd::prelude::*;
use crate::identifiers::{text_set, IdentifierSet};
use crate::names::{
    ids_ascending,
    lookup_address,
    lookup_url,
    mapping_text,
    with_name,
    IdToNameTable,
    LOOKUP_DELAY_MS,
};

verus! {

/// What the caller of a run has to do next.
#[derive(Debug, PartialEq, Eq)]
pub enum Action {
    /// Ask the address `url` for the name of `app_id` and report the outcome.
    Lookup { app_id: String, url: String },
    /// Wait for `millis` milliseconds and report that it was done.
    Pause { millis: u64 },
    /// Nothing is left to look up: `mapping` is the table of names as text.
    Finish { mapping: String },
}

/// Mathematical view of an [`Action`].
pub enum ActionModel {
    Lookup { app_id: Seq<char>, url: Seq<char> },
    Pause { millis: u64 },
    Finish { mapping: Seq<char> },
}

impl View for Action {
    type V = ActionModel;

    open spec fn view(&self) -> ActionModel {
        match self {
            Action::Lookup { app_id, url } => ActionModel::Lookup { app_id: app_id@, url: url@ },
            Action::Pause { millis } => ActionModel::Pause { millis: *millis },
            Action::Finish { mapping } => ActionModel::Finish { mapping: mapping@ },
        }
    }
}

/// Mathematical view of a [`LookupRun`].
pub struct RunModel {
    /// The identifiers to look up, in the order of the run.
    pub ids: Seq<Seq<char>>,
    /// How many of them have been looked up.
    pub done: nat,
    /// Whether the pause behind the last lookup has been taken.
    pub rested: bool,
    /// The names found so far, in order of their identifiers.
    pub names: Seq<(Seq<char>, Seq<char>)>,
}

impl RunModel {
    /// Whether every identifier has been looked up.
    pub open spec fn finished(self) -> bool {
        self.done >= self.ids.len()
    }

    /// Whether the run waits for the outcome of a lookup: it is not
    /// finished, and the pause behind the lookup before, if there was one,
    /// has been taken.
    pub open spec fn awaits_lookup(self) -> bool {
        !self.finished() && (self.done == 0 || self.rested)
    }

    /// Whether the run waits for a pause to be taken.
    pub open spec fn awaits_pause(self) -> bool {
        !self.finished() && self.done > 0 && !self.rested
    }

    /// What the caller has to do next.
    pub open spec fn next_action(self) -> ActionModel {
        if self.finished() {
            ActionModel::Finish { mapping: mapping_text(self.names) }
        } else if self.awaits_pause() {
            ActionModel::Pause { millis: LOOKUP_DELAY_MS }
        } else {
            ActionModel::Lookup {
                app_id: self.ids[self.done as int],
                url: lookup_address(self.ids[self.done as int]),
            }
        }
    }

    /// The run after the outcome `found` of the lookup it waits for: a name
    /// that was found is kept, the lookup is counted either way. A run that
    /// does not wait for a lookup stays as it is.
    pub open spec fn after_lookup(self, found: Option<Seq<char>>) -> RunModel {
        if self.awaits_lookup() {
            RunModel {
                ids: self.ids,
                done: self.done + 1,
                rested: false,
                names: match found {
                    Some(name) => with_name(self.names, self.ids[self.done as int], name),
                    None => self.names,
                },
            }
        } else {
            self
        }
    }

    /// The run after a pause was taken. A run that does not wait for a
    /// pause stays as it is.
    pub open spec fn after_pause(self) -> RunModel {
        if self.awaits_pause() {
            RunModel { ids: self.ids, done: self.done, rested: true, names: self.names }
        } else {
            self
        }
    }
}

/// The view of the outcome of a lookup.
pub open spec fn found_model(found: Option<String>) -> Option<Seq<char>> {
    match found {
        Some(name) => Some(name@),
        None => None,
    }
}

/// The views of a list of texts, in order.
pub open spec fn text_models(texts: Seq<String>) -> Seq<Seq<char>> {
    Seq::new(texts.len(), |i: int| texts[i]@)
}

/// A run of lookups over a fixed list of identifiers.
#[derive(Debug)]
pub struct LookupRun {
    ids: Vec<String>,
    done: usize,
    rested: bool,
    table: IdToNameTable,
}

impl View for LookupRun {
    type V = RunModel;

    closed spec fn view(&self) -> RunModel {
        RunModel {
            ids: text_models(self.ids@),
            done: self.done as nat,
            rested: self.rested,
            names: self.table@,
        }
    }
}

impl LookupRun {
    /// No more lookups are counted than there are identifiers.
    #[verifier::type_invariant]
    closed spec fn counted(&self) -> bool {
        self.done <= self.ids.len()
    }

    /// A run that looks up every identifier of `app_ids`, each once, with
    /// nothing looked up yet and no name found.
    pub fn start(app_ids: &IdentifierSet) -> (run: LookupRun)
        ensures
            run@.done == 0,
            !run@.rested,
            run@.names == Seq::<(Seq<char>, Seq<char>)>::empty(),
            run@.ids.no_duplicates(),
            run@.ids.to_set() == app_ids@,
    {
        let ids = app_ids.to_vec();
        let run = LookupRun { ids, done: 0, rested: false, table: IdToNameTable::new() };
        proof {
            let listed = text_models(run.ids@);
            assert(listed.to_set() =~= app_ids@) by {
                assert forall|id: Seq<char>| listed.to_set().contains(id) == app_ids@.contains(
                    id,
                ) by {
                    if listed.to_set().contains(id) {
                        let i = choose|i: int| 0 <= i < listed.len() && listed[i] == id;
                        assert(run.ids@[i]@ == id);
                    }
                    if text_set(run.ids@).contains(id) {
                        let i = choose|i: int| 0 <= i < run.ids@.len() && run.ids@[i]@ == id;
                        assert(listed[i] == id);
                    }
                }
            }
            assert(listed.no_duplicates()) by {
                assert forall|i: int, j: int|
                    0 <= i < listed.len() && 0 <= j < listed.len() && i != j implies listed[i]
                    != listed[j] by {
                    if i < j {
                        assert(run.ids@[i]@ != run.ids@[j]@);
                    } else {
                        assert(run.ids@[j]@ != run.ids@[i]@);
                    }
                }
            }
        }
        run
    }

    /// What the caller has to do next.
    pub fn next_action(&self) -> (action: Action)
        ensures
            action@ == self@.next_action(),
    {
        proof {
            use_type_invariant(self);
        }
        if self.done >= self.ids.len() {
            Action::Finish { mapping: self.table.render_mapping() }
        } else if self.done > 0 && !self.rested {
            Action::Pause { millis: LOOKUP_DELAY_MS }
        } else {
            let app_id = self.ids[self.done].clone();
            let url = lookup_url(app_id.as_str());
            Action::Lookup { app_id, url }
        }
    }

    /// Takes up the outcome of the lookup that the run waits for: the name
    /// found, or `None` where none was found or the lookup failed.
    pub fn looked_up(&mut self, found: Option<String>)
        ensures
            final(self)@ == old(self)@.after_lookup(found_model(found)),
    {
        proof {
            use_type_invariant(&*self);
        }
        if self.done < self.ids.len() && (self.done == 0 || self.rested) {
            let mut table = IdToNameTable::new();
            std::mem::swap(&mut self.table, &mut table);
            match found {
                Some(name) => {
                    table.insert(self.ids[self.done].clone(), name);
                },
                None => {},
            }
            self.table = table;
            self.done = self.done + 1;
            self.rested = false;
        }
    }

    /// Takes up that the pause which the run waits for was taken.
    pub fn paused(&mut self)
        ensures
            final(self)@ == old(self)@.after_pause(),
    {
        proof {
            use_type_invariant(&*self);
        }
        if self.done < self.ids.len() && self.done > 0 && !self.rested {
            self.rested = true;
        }
    }

    /// The names found so far.
    pub fn table(&self) -> (table: &IdToNameTable)
        ensures
            table@ == self@.names,
    {
        &self.table
    }
}

/// A run passes every identifier once: each lookup that is taken up counts
/// one more, and a finished run asks for nothing but the end.
pub proof fn lemma_run_progress(run: RunModel, found: Option<Seq<char>>)
    requires
        run.done <= run.ids.len(),
    ensures
        run.awaits_lookup() ==> run.after_lookup(found).done == run.done + 1,
        run.after_lookup(found).done <= run.ids.len(),
        run.after_lookup(found).ids == run.ids,
        run.after_pause().awaits_lookup() || run.after_pause().finished(),
        run.finished() ==> run.next_action() is Finish,
        run.awaits_lookup() || run.awaits_pause() || run.finished(),
{
}

/// A lookup never removes a name: the table of names only grows, and stays
/// in order of its identifiers.
pub proof fn lemma_names_only_grow(run: RunModel, found: Option<Seq<char>>)
    requires
        ids_ascending(run.names),
    ensures
        run.after_lookup(found).names.len() >= run.names.len(),
        ids_ascending(run.after_lookup(found).names),
        found is None ==> run.after_lookup(found).names == run.names,
{
    if run.awaits_lookup() {
        match found {
            Some(name) => {
                let id = run.ids[run.done as int];
                crate::names::lemma_with_name_keeps_order(run.names, id, name);
            },
            None => {},
        }
    }
}

} // verus!
