//! The bookkeeping of portrait generation: which officer's portrait is
//! being made, which is done and where it lies, which failed and why. The
//! work itself runs elsewhere and reports back with events.

use vstd::prelude::*;
use crate::portraits::{invalid_portrait_id_message, officer_portrait_path_in_data_dir, portrait_path_of, valid_portrait_id};
use crate::text::{owned, str_eq, trim, trimmed};

verus! {

/// Where the portrait of one officer stands.
#[derive(Clone, Debug, PartialEq, Eq)]
pub enum OfficerPortraitTaskState {
    Idle,
    Generating,
    Succeeded { path: String },
    Failed(String),
}

/// A task state with its texts as character sequences.
pub enum TaskStateView {
    Idle,
    Generating,
    Succeeded(Seq<char>),
    Failed(Seq<char>),
}

/// The view of a task state.
pub open spec fn state_view(s: OfficerPortraitTaskState) -> TaskStateView {
    match s {
        OfficerPortraitTaskState::Idle => TaskStateView::Idle,
        OfficerPortraitTaskState::Generating => TaskStateView::Generating,
        OfficerPortraitTaskState::Succeeded { path } => TaskStateView::Succeeded(path@),
        OfficerPortraitTaskState::Failed(e) => TaskStateView::Failed(e@),
    }
}

fn copy_state(s: &OfficerPortraitTaskState) -> (c: OfficerPortraitTaskState)
    ensures
        state_view(c) == state_view(*s),
{
    match s {
        OfficerPortraitTaskState::Idle => OfficerPortraitTaskState::Idle,
        OfficerPortraitTaskState::Generating => OfficerPortraitTaskState::Generating,
        OfficerPortraitTaskState::Succeeded { path } => OfficerPortraitTaskState::Succeeded { path: owned(path.as_str()) },
        OfficerPortraitTaskState::Failed(e) => OfficerPortraitTaskState::Failed(owned(e.as_str())),
    }
}

/// What a finished generation reports.
#[derive(Clone, Debug)]
pub enum OfficerPortraitTaskEvent {
    Succeeded { officer_id: String, path: String },
    Failed { officer_id: String, error: String },
}

/// The task states of the officers, by officer identifier.
#[derive(Debug)]
pub struct OfficerPortraitStore {
    tasks: Vec<(String, OfficerPortraitTaskState)>,
}

impl View for OfficerPortraitStore {
    type V = Map<Seq<char>, TaskStateView>;

    /// The recorded state of each officer; an officer without an entry is idle.
    closed spec fn view(&self) -> Map<Seq<char>, TaskStateView> {
        Map::new(
            |id: Seq<char>| exists|i: int| 0 <= i < self.tasks@.len() && (#[trigger] self.tasks@[i]).0@ == id,
            |id: Seq<char>| {
                let i = choose|i: int| 0 <= i < self.tasks@.len() && (#[trigger] self.tasks@[i]).0@ == id;
                state_view(self.tasks@[i].1)
            },
        )
    }
}

/// The state of officer `id` in store view `m`.
pub open spec fn state_of(m: Map<Seq<char>, TaskStateView>, id: Seq<char>) -> TaskStateView {
    if m.contains_key(id) {
        m[id]
    } else {
        TaskStateView::Idle
    }
}

impl OfficerPortraitStore {
    #[verifier::type_invariant]
    spec fn distinct_ids(self) -> bool {
        forall|i: int, j: int| 0 <= i < j < self.tasks@.len() ==> (#[trigger] self.tasks@[i]).0@ != (#[trigger] self.tasks@[j]).0@
    }

    /// A store where every officer is idle.
    pub fn new() -> (s: Self)
        ensures
            s@ == Map::<Seq<char>, TaskStateView>::empty(),
    {
        let s = OfficerPortraitStore { tasks: Vec::new() };
        assert(s@ =~= Map::<Seq<char>, TaskStateView>::empty());
        s
    }

    fn position(&self, id: &str) -> (r: Option<usize>)
        ensures
            match r {
                Some(i) => i < self.tasks@.len() && self.tasks@[i as int].0@ == id@,
                None => forall|i: int| 0 <= i < self.tasks@.len() ==> (#[trigger] self.tasks@[i]).0@ != id@,
            },
    {
        let mut i: usize = 0;
        while i < self.tasks.len()
            invariant
                i <= self.tasks@.len(),
                forall|k: int| 0 <= k < i ==> (#[trigger] self.tasks@[k]).0@ != id@,
            decreases self.tasks@.len() - i,
        {
            if str_eq(self.tasks[i].0.as_str(), id) {
                return Some(i);
            }
            i = i + 1;
        }
        None
    }

    /// The state of officer `officer_id`: the recorded one, or idle.
    pub fn task_state(&self, officer_id: &str) -> (s: OfficerPortraitTaskState)
        ensures
            state_view(s) == state_of(self@, officer_id@),
    {
        proof {
            use_type_invariant(self);
        }
        match self.position(officer_id) {
            Some(i) => {
                proof {
                    assert(self@.contains_key(officer_id@));
                    let j = choose|j: int| 0 <= j < self.tasks@.len() && (#[trigger] self.tasks@[j]).0@ == officer_id@;
                    if j != i as int {
                        assert(self.tasks@[j].0@ != self.tasks@[i as int].0@);
                    }
                }
                copy_state(&self.tasks[i].1)
            },
            None => OfficerPortraitTaskState::Idle,
        }
    }

    /// Records state `state` for officer `officer_id`.
    fn set_state(&mut self, officer_id: &str, state: OfficerPortraitTaskState)
        ensures
            final(self)@ == old(self)@.insert(officer_id@, state_view(state)),
    {
        proof {
            use_type_invariant(&*self);
        }
        let ghost before = self.tasks@;
        match self.position(officer_id) {
            Some(i) => {
                let mut tasks: Vec<(String, OfficerPortraitTaskState)> = Vec::new();
                std::mem::swap(&mut tasks, &mut self.tasks);
                tasks.set(i, (owned(officer_id), state));
                proof {
                    assert forall|a: int, b: int| 0 <= a < b < tasks@.len() implies (#[trigger] tasks@[a]).0@ != (
                    #[trigger] tasks@[b]).0@ by {
                        assert(before[a].0@ != before[b].0@);
                    }
                }
                self.tasks = tasks;
                proof {
                    assert(self@ =~= old(self)@.insert(officer_id@, state_view(state))) by {
                        assert forall|id: Seq<char>| #[trigger] self@.contains_key(id) == old(self)@.insert(officer_id@, state_view(state)).contains_key(id) by {
                            if id != officer_id@ && old(self)@.contains_key(id) {
                                let k = choose|k: int| 0 <= k < before.len() && (#[trigger] before[k]).0@ == id;
                                assert(self.tasks@[k] == before[k]);
                            }
                            if id == officer_id@ {
                                assert(self.tasks@[i as int].0@ == id);
                            }
                            if self@.contains_key(id) {
                                let k = choose|k: int| 0 <= k < self.tasks@.len() && (#[trigger] self.tasks@[k]).0@ == id;
                                if k != i as int {
                                    assert(self.tasks@[k] == before[k]);
                                }
                            }
                        }
                        assert forall|id: Seq<char>| self@.contains_key(id) implies #[trigger] self@[id] == old(self)@.insert(
                            officer_id@,
                            state_view(state),
                        )[id] by {
                            let k = choose|k: int| 0 <= k < self.tasks@.len() && (#[trigger] self.tasks@[k]).0@ == id;
                            if id == officer_id@ {
                                if k != i as int {
                                    assert(self.tasks@[k].0@ != self.tasks@[i as int].0@);
                                }
                            } else {
                                assert(k != i as int);
                                assert(self.tasks@[k] == before[k]);
                                let k0 = choose|k0: int| 0 <= k0 < before.len() && (#[trigger] before[k0]).0@ == id;
                                if k0 != k {
                                    assert(before[k0].0@ != before[k].0@);
                                }
                            }
                        }
                    }
                }
            },
            None => {
                let mut tasks: Vec<(String, OfficerPortraitTaskState)> = Vec::new();
                std::mem::swap(&mut tasks, &mut self.tasks);
                tasks.push((owned(officer_id), state));
                proof {
                    assert forall|a: int, b: int| 0 <= a < b < tasks@.len() implies (#[trigger] tasks@[a]).0@ != (
                    #[trigger] tasks@[b]).0@ by {
                        if b < before.len() {
                            assert(before[a].0@ != before[b].0@);
                        } else {
                            assert(before[a].0@ != officer_id@);
                        }
                    }
                }
                self.tasks = tasks;
                proof {
                    assert(self@ =~= old(self)@.insert(officer_id@, state_view(state))) by {
                        assert forall|id: Seq<char>| #[trigger] self@.contains_key(id) == old(self)@.insert(officer_id@, state_view(state)).contains_key(id) by {
                            if id != officer_id@ && old(self)@.contains_key(id) {
                                let k = choose|k: int| 0 <= k < before.len() && (#[trigger] before[k]).0@ == id;
                                assert(self.tasks@[k] == before[k]);
                            }
                            if id == officer_id@ {
                                assert(self.tasks@[before.len() as int].0@ == id);
                            }
                            if self@.contains_key(id) && id != officer_id@ {
                                let k = choose|k: int| 0 <= k < self.tasks@.len() && (#[trigger] self.tasks@[k]).0@ == id;
                                assert(k < before.len());
                                assert(self.tasks@[k] == before[k]);
                            }
                        }
                        assert forall|id: Seq<char>| self@.contains_key(id) implies #[trigger] self@[id] == old(self)@.insert(
                            officer_id@,
                            state_view(state),
                        )[id] by {
                            let k = choose|k: int| 0 <= k < self.tasks@.len() && (#[trigger] self.tasks@[k]).0@ == id;
                            if id == officer_id@ {
                                assert(k == before.len());
                            } else {
                                assert(k < before.len());
                                assert(self.tasks@[k] == before[k]);
                                let k0 = choose|k0: int| 0 <= k0 < before.len() && (#[trigger] before[k0]).0@ == id;
                                if k0 != k {
                                    assert(before[k0].0@ != before[k].0@);
                                }
                            }
                        }
                    }
                }
            },
        }
    }

    /// Takes in what a finished generation reported.
    pub fn apply_event(&mut self, event: OfficerPortraitTaskEvent)
        ensures
            final(self)@ == match event {
                OfficerPortraitTaskEvent::Succeeded { officer_id, path } => old(self)@.insert(
                    officer_id@,
                    TaskStateView::Succeeded(path@),
                ),
                OfficerPortraitTaskEvent::Failed { officer_id, error } => old(self)@.insert(
                    officer_id@,
                    TaskStateView::Failed(error@),
                ),
            },
    {
        match event {
            OfficerPortraitTaskEvent::Succeeded { officer_id, path } => {
                self.set_state(officer_id.as_str(), OfficerPortraitTaskState::Succeeded { path });
            },
            OfficerPortraitTaskEvent::Failed { officer_id, error } => {
                self.set_state(officer_id.as_str(), OfficerPortraitTaskState::Failed(error));
            },
        }
    }

    /// Asks for the portrait of officer `officer_id`. Nothing changes while
    /// one is being made. Without an API key, or for an identifier that
    /// cannot name a file, the officer's task fails with the reason.
    /// Otherwise the task is marked as running and the file to write is
    /// handed back for the generation to start.
    pub fn start_generation(
        &mut self,
        officer_id: &str,
        api_key: &str,
        data_dir: &str,
        missing_api_key_message: &str,
    ) -> (spawn: Option<String>)
        ensures
            state_of(old(self)@, officer_id@) is Generating ==> final(self)@ == old(self)@ && spawn is None,
            !(state_of(old(self)@, officer_id@) is Generating) ==> {
                if trimmed(api_key@).len() == 0 {
                    &&& final(self)@ == old(self)@.insert(officer_id@, TaskStateView::Failed(missing_api_key_message@))
                    &&& spawn is None
                } else if !valid_portrait_id(officer_id@) {
                    &&& final(self)@ == old(self)@.insert(officer_id@, TaskStateView::Failed(invalid_portrait_id_message(officer_id@)))
                    &&& spawn is None
                } else {
                    &&& final(self)@ == old(self)@.insert(officer_id@, TaskStateView::Generating)
                    &&& spawn matches Some(p) && portrait_path_of(p@, data_dir@, officer_id@)
                }
            },
    {
        let current = self.task_state(officer_id);
        if let OfficerPortraitTaskState::Generating = current {
            return None;
        }
        let key = trim(api_key);
        if key.as_str().unicode_len() == 0 {
            self.set_state(officer_id, OfficerPortraitTaskState::Failed(owned(missing_api_key_message)));
            return None;
        }
        match officer_portrait_path_in_data_dir(data_dir, officer_id) {
            Ok(path) => {
                self.set_state(officer_id, OfficerPortraitTaskState::Generating);
                Some(path)
            },
            Err(e) => {
                self.set_state(officer_id, OfficerPortraitTaskState::Failed(e));
                None
            },
        }
    }
}

/// After a reported outcome, the store gives that outcome for the officer,
/// and every other officer's state is untouched.
pub proof fn lemma_event_then_state(m: Map<Seq<char>, TaskStateView>, id: Seq<char>, s: TaskStateView, other: Seq<char>)
    requires
        other != id,
    ensures
        state_of(m.insert(id, s), id) == s,
        state_of(m.insert(id, s), other) == state_of(m, other),
{
}

/// The first bytes of every PNG file.
pub open spec fn png_magic() -> Seq<u8> {
    seq![0x89u8, 0x50u8, 0x4eu8, 0x47u8, 0x0du8, 0x0au8, 0x1au8, 0x0au8]
}

/// Whether downloaded `bytes` are a PNG file: they start with its signature.
pub fn is_png(bytes: &Vec<u8>) -> (b: bool)
    ensures
        b == (bytes@.len() >= 8 && bytes@.subrange(0, 8) == png_magic()),
{
    let magic: [u8; 8] = [0x89, 0x50, 0x4e, 0x47, 0x0d, 0x0a, 0x1a, 0x0a];
    if bytes.len() < 8 {
        return false;
    }
    let mut i: usize = 0;
    while i < 8
        invariant
            i <= 8,
            bytes@.len() >= 8,
            magic@ == png_magic(),
            forall|k: int| 0 <= k < i ==> bytes@[k] == png_magic()[k],
        decreases 8 - i,
    {
        if bytes[i] != magic[i] {
            assert(bytes@.subrange(0, 8)[i as int] != png_magic()[i as int]);
            return false;
        }
        i = i + 1;
    }
    assert(bytes@.subrange(0, 8) =~= png_magic());
    true
}


/// What follows the creation of an image task: its result is already there,
/// or the task must be waited for by its identifier, or the service gave no
/// identifier to wait for.
#[derive(Clone, Debug, PartialEq, Eq)]
pub enum ImageTaskFollowUp {
    Finished,
    WaitFor(String),
    MissingTaskId,
}

/// Decides what follows a created image task from whether it finished and
/// the task identifier the service returned.
pub fn image_task_follow_up(finished: bool, task_id: Option<&str>) -> (r: ImageTaskFollowUp)
    ensures
        finished ==> r == ImageTaskFollowUp::Finished,
        !finished ==> match task_id {
            Some(id) => r matches ImageTaskFollowUp::WaitFor(w) && w@ == id@,
            None => r == ImageTaskFollowUp::MissingTaskId,
        },
{
    if finished {
        ImageTaskFollowUp::Finished
    } else {
        match task_id {
            Some(id) => ImageTaskFollowUp::WaitFor(owned(id)),
            None => ImageTaskFollowUp::MissingTaskId,
        }
    }
}

} // verus!
