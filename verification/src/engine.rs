//! Engine processes: the bookkeeping of one process, and the registry that
//! keeps at most one process for each pair of an engine and a session.

use vstd::prelude::*;
use vstd::string::*;
use crate::assoc::{
    entries_map, has_key, keys_distinct, lemma_entries_map, lemma_push_entry, lemma_remove_entry,
    lemma_update_entry,
};
use crate::diagnostics::{most_recent, DiagnosticLog};
use crate::text::str_eq;

verus! {

/// What can go wrong with an engine process.
#[derive(Clone, Copy, Debug, PartialEq, Eq, Structural)]
pub enum EngineError {
    /// The process could not be started. Reported once, never retried.
    SpawnFailure,
    /// The process is gone; a request that relied on it fails.
    ProcessTerminated,
    /// A line could not be written because the process does not run.
    WriteFailure,
}

/// Where a process stands.
#[derive(Clone, Copy, Debug, PartialEq, Eq, Structural)]
pub enum HandleState {
    /// The process is being started by the caller that asked first.
    Starting,
    /// The process runs.
    Running,
    /// The process is gone.
    Exited,
}

/// A process handle by its contents.
pub struct HandleView {
    pub state: HandleState,
    pub log: Seq<Seq<char>>,
    pub log_capacity: usize,
    pub last_command: Option<Seq<char>>,
}

/// The bookkeeping of one engine process: whether it runs, the most recent
/// lines that went to it and came from it, and the last command it got.
pub struct ProcessHandle {
    state: HandleState,
    log: DiagnosticLog,
    last_command: Option<String>,
}

impl View for ProcessHandle {
    type V = HandleView;

    closed spec fn view(&self) -> HandleView {
        HandleView {
            state: self.state,
            log: self.log@,
            log_capacity: self.log.capacity(),
            last_command: match self.last_command {
                Some(command) => Some(command@),
                None => None,
            },
        }
    }
}

impl ProcessHandle {
    /// The handle of a process that is being started, with an empty log
    /// that keeps `log_capacity` lines.
    pub fn starting(log_capacity: usize) -> (handle: ProcessHandle)
        ensures
            handle@ == (HandleView {
                state: HandleState::Starting,
                log: Seq::empty(),
                log_capacity,
                last_command: None,
            }),
    {
        ProcessHandle {
            state: HandleState::Starting,
            log: DiagnosticLog::new(log_capacity),
            last_command: None,
        }
    }

    /// Records that the process was started. Returns whether it was being
    /// started; a handle in another state stays as it is.
    pub fn started(&mut self) -> (was_starting: bool)
        ensures
            was_starting == (old(self)@.state == HandleState::Starting),
            final(self)@ == (HandleView {
                state: if was_starting {
                    HandleState::Running
                } else {
                    old(self)@.state
                },
                ..old(self)@
            }),
    {
        match self.state {
            HandleState::Starting => {
                self.state = HandleState::Running;
                true
            },
            _ => false,
        }
    }

    /// Takes a line for the process. A running process gets it: the line
    /// goes to the log and is the last command from now on. Else nothing
    /// changes and the write fails.
    pub fn send_line(&mut self, text: &str) -> (sent: Result<(), EngineError>)
        ensures
            match sent {
                Ok(_) => old(self)@.state == HandleState::Running && final(self)@ == (HandleView {
                    log: most_recent(old(self)@.log.push(text@), old(self)@.log_capacity as nat),
                    last_command: Some(text@),
                    ..old(self)@
                }),
                Err(e) => e == EngineError::WriteFailure && old(self)@.state != HandleState::Running
                    && final(self)@ == old(self)@,
            },
    {
        match self.state {
            HandleState::Running => {
                self.log.record(text.to_owned());
                self.last_command = Some(text.to_owned());
                Ok(())
            },
            _ => Err(EngineError::WriteFailure),
        }
    }

    /// Records a line that the process wrote.
    pub fn line_read(&mut self, line: &str)
        ensures
            final(self)@ == (HandleView {
                log: most_recent(old(self)@.log.push(line@), old(self)@.log_capacity as nat),
                ..old(self)@
            }),
    {
        self.log.record(line.to_owned());
    }

    /// Ends the process as far as the bookkeeping goes. Returns whether the
    /// process has to be killed and reaped: it does unless it was gone
    /// already, so that a second call changes nothing.
    pub fn terminate(&mut self) -> (kill: bool)
        ensures
            kill == (old(self)@.state != HandleState::Exited),
            final(self)@ == (HandleView { state: HandleState::Exited, ..old(self)@ }),
    {
        match self.state {
            HandleState::Exited => false,
            _ => {
                self.state = HandleState::Exited;
                true
            },
        }
    }

    /// Whether a request can rely on the process: it fails with
    /// `ProcessTerminated` unless the process runs.
    pub fn ensure_running(&self) -> (usable: Result<(), EngineError>)
        ensures
            match usable {
                Ok(_) => self@.state == HandleState::Running,
                Err(e) => e == EngineError::ProcessTerminated && self@.state
                    != HandleState::Running,
            },
    {
        match self.state {
            HandleState::Running => Ok(()),
            _ => Err(EngineError::ProcessTerminated),
        }
    }

    /// Where the process stands.
    pub fn state(&self) -> (state: HandleState)
        ensures
            state == self@.state,
    {
        self.state
    }

    /// The lines of the log, oldest first.
    pub fn logs(&self) -> (lines: Vec<String>)
        ensures
            crate::diagnostics::line_views(lines@) == self@.log,
    {
        self.log.lines()
    }

    /// Empties the log.
    pub fn clear_logs(&mut self)
        ensures
            final(self)@ == (HandleView { log: Seq::empty(), ..old(self)@ }),
    {
        self.log.clear();
    }

    /// The last command that the process got, if any.
    pub fn last_command(&self) -> (command: Option<&String>)
        ensures
            match command {
                Some(c) => self@.last_command == Some(c@),
                None => self@.last_command is None,
            },
    {
        match &self.last_command {
            Some(c) => Some(c),
            None => None,
        }
    }
}

/// What names an engine process: the engine and the session that uses it.
#[derive(Clone, Debug, PartialEq, Eq)]
pub struct EngineKey {
    pub engine_id: String,
    pub session_id: String,
}

impl View for EngineKey {
    type V = (Seq<char>, Seq<char>);

    open spec fn view(&self) -> (Seq<char>, Seq<char>) {
        (self.engine_id@, self.session_id@)
    }
}

impl EngineKey {
    /// Whether two keys name the same engine and session.
    pub fn same(&self, other: &EngineKey) -> (same: bool)
        ensures
            same == (self@ == other@),
    {
        str_eq(self.engine_id.as_str(), other.engine_id.as_str()) && str_eq(
            self.session_id.as_str(),
            other.session_id.as_str(),
        )
    }

    /// A copy of the key.
    pub fn duplicate(&self) -> (copy: EngineKey)
        ensures
            copy@ == self@,
    {
        EngineKey { engine_id: self.engine_id.clone(), session_id: self.session_id.clone() }
    }
}

/// What a caller is told who asks for the process of a key.
#[derive(Clone, Copy, Debug, PartialEq, Eq, Structural)]
pub enum Creation {
    /// The process runs; the caller uses it.
    Existing,
    /// There was no process: the caller starts one and reports how that
    /// went.
    Spawn,
    /// Another caller is starting the process: the caller waits for it.
    Wait,
}

/// The handles of a vector of keyed handles, by their contents.
pub open spec fn keyed_handles(v: Seq<(EngineKey, ProcessHandle)>) -> Seq<
    ((Seq<char>, Seq<char>), HandleView),
> {
    Seq::new(v.len(), |i: int| (v[i].0@, v[i].1@))
}

/// The names of a vector of keys.
pub open spec fn engine_key_views(v: Seq<EngineKey>) -> Seq<(Seq<char>, Seq<char>)> {
    Seq::new(v.len(), |i: int| v[i]@)
}

/// The processes by key. No key has two.
pub struct EngineRegistry {
    entries: Vec<(EngineKey, ProcessHandle)>,
}

impl View for EngineRegistry {
    type V = Map<(Seq<char>, Seq<char>), HandleView>;

    closed spec fn view(&self) -> Map<(Seq<char>, Seq<char>), HandleView> {
        entries_map(keyed_handles(self.entries@))
    }
}

impl EngineRegistry {
    /// The keys in the order in which their processes were asked for.
    pub closed spec fn keys(&self) -> Seq<(Seq<char>, Seq<char>)> {
        Seq::new(self.entries@.len(), |i: int| self.entries@[i].0@)
    }

    /// The invariant of the type: no key is listed twice, and no listed
    /// process is gone.
    #[verifier::type_invariant]
    pub closed spec fn wf(&self) -> bool {
        &&& keys_distinct(keyed_handles(self.entries@))
        &&& forall|i: int|
            0 <= i < self.entries@.len() ==> (#[trigger] keyed_handles(self.entries@)[i]).1.state
                != HandleState::Exited
    }

    /// What the invariant says: the registry holds no process that is gone,
    /// and its keys are exactly the keys of the map.
    pub proof fn lemma_wf(&self)
        requires
            self.wf(),
        ensures
            forall|k: (Seq<char>, Seq<char>)| #[trigger]
                self@.contains_key(k) ==> self@[k].state != HandleState::Exited,
            forall|k: (Seq<char>, Seq<char>)| self@.contains_key(k) <==> self.keys().contains(k),
            self.keys().no_duplicates(),
    {
        let es = keyed_handles(self.entries@);
        lemma_entries_map(es);
        assert forall|k: (Seq<char>, Seq<char>)| #[trigger] self@.contains_key(k) implies self@[k].state
            != HandleState::Exited by {
            let i = choose|i: int| 0 <= i < es.len() && (#[trigger] es[i]).0 == k;
            assert(self@[es[i].0] == es[i].1);
        }
        assert forall|k: (Seq<char>, Seq<char>)| self@.contains_key(k) <==> self.keys().contains(
            k,
        ) by {
            if self@.contains_key(k) {
                let i = choose|i: int| 0 <= i < es.len() && (#[trigger] es[i]).0 == k;
                assert(self.keys()[i] == k);
            }
            if self.keys().contains(k) {
                let i = choose|i: int| 0 <= i < self.keys().len() && self.keys()[i] == k;
                assert(es[i].0 == k);
            }
        }
        assert forall|i: int, j: int|
            0 <= i < self.keys().len() && 0 <= j < self.keys().len() && i != j implies self.keys()[i]
            != self.keys()[j] by {
            if i < j {
                assert(es[i].0 != es[j].0);
            } else {
                assert(es[j].0 != es[i].0);
            }
        }
    }

    /// How `get_or_create` changes a registry: only a key without a process
    /// gets one, which is then being started.
    pub open spec fn after_get_or_create(
        &self,
        after: &EngineRegistry,
        key: &EngineKey,
        log_capacity: usize,
        answer: Creation,
    ) -> bool {
        if self@.contains_key(key@) {
            &&& after@ == self@
            &&& answer == (if self@[key@].state == HandleState::Running {
                Creation::Existing
            } else {
                Creation::Wait
            })
        } else {
            &&& answer == Creation::Spawn
            &&& after@ == self@.insert(
                key@,
                HandleView {
                    state: HandleState::Starting,
                    log: Seq::empty(),
                    log_capacity,
                    last_command: None,
                },
            )
        }
    }

    /// How `spawned` changes a registry: the process of the key runs, if it
    /// was being started.
    pub open spec fn after_spawned(&self, after: &EngineRegistry, key: &EngineKey) -> bool {
        if self@.contains_key(key@) && self@[key@].state == HandleState::Starting {
            after@ == self@.insert(
                key@,
                HandleView { state: HandleState::Running, ..self@[key@] },
            )
        } else {
            after@ == self@
        }
    }

    /// How the end of a process changes a registry, whether it failed to
    /// start, was stopped or exited: its key has no process.
    pub open spec fn after_removed(&self, after: &EngineRegistry, key: &EngineKey) -> bool {
        after@ == self@.remove(key@)
    }

    /// A registry without processes: no key has one, and no key is listed.
    pub fn new() -> (registry: EngineRegistry)
        ensures
            registry@ == Map::<(Seq<char>, Seq<char>), HandleView>::empty(),
            registry.keys() == Seq::<(Seq<char>, Seq<char>)>::empty(),
    {
        let registry = EngineRegistry { entries: Vec::new() };
        proof {
            assert(registry@ =~= Map::<(Seq<char>, Seq<char>), HandleView>::empty());
            assert(registry.keys() =~= Seq::<(Seq<char>, Seq<char>)>::empty());
        }
        registry
    }

    fn position(&self, key: &EngineKey) -> (at: Option<usize>)
        ensures
            match at {
                Some(i) => i < self.entries@.len() && keyed_handles(self.entries@)[i as int].0
                    == key@,
                None => !has_key(keyed_handles(self.entries@), key@),
            },
    {
        let mut i: usize = 0;
        while i < self.entries.len()
            invariant
                i <= self.entries@.len(),
                forall|j: int| 0 <= j < i ==> (#[trigger] keyed_handles(self.entries@)[j]).0 != key@,
            decreases self.entries@.len() - i,
        {
            if self.entries[i].0.same(key) {
                return Some(i);
            }
            i += 1;
        }
        None
    }

    /// Asks for the process of `key`. When there is none, the key gets a
    /// handle that is being started, with a log of `log_capacity` lines, and
    /// the caller is told to start the process. Everybody who asks before
    /// the process runs is told to wait.
    pub fn get_or_create(&mut self, key: &EngineKey, log_capacity: usize) -> (answer: Creation)
        ensures
            old(self).after_get_or_create(final(self), key, log_capacity, answer),
    {
        proof {
            use_type_invariant(&*self);
            lemma_entries_map(keyed_handles(self.entries@));
        }
        let ghost before = keyed_handles(self.entries@);
        match self.position(key) {
            Some(i) => {
                match self.entries[i].1.state() {
                    HandleState::Running => Creation::Existing,
                    _ => Creation::Wait,
                }
            },
            None => {
                let handle = ProcessHandle::starting(log_capacity);
                let mut es: Vec<(EngineKey, ProcessHandle)> = Vec::new();
                std::mem::swap(&mut self.entries, &mut es);
                es.push((key.duplicate(), handle));
                proof {
                    lemma_push_entry(before, key@, handle@);
                    assert(keyed_handles(es@) =~= before.push((key@, handle@)));
                }
                self.entries = es;
                Creation::Spawn
            },
        }
    }

    /// Records that the process of `key` was started. Returns whether it was
    /// being started.
    pub fn spawned(&mut self, key: &EngineKey) -> (was_starting: bool)
        ensures
            was_starting == (old(self)@.contains_key(key@) && old(self)@[key@].state
                == HandleState::Starting),
            old(self).after_spawned(final(self), key),
    {
        proof {
            use_type_invariant(&*self);
            lemma_entries_map(keyed_handles(self.entries@));
        }
        let ghost before = keyed_handles(self.entries@);
        match self.position(key) {
            Some(i) => {
                let mut es: Vec<(EngineKey, ProcessHandle)> = Vec::new();
                std::mem::swap(&mut self.entries, &mut es);
                let (name, mut handle) = es.remove(i);
                let was_starting = handle.started();
                es.insert(i, (name, handle));
                proof {
                    lemma_update_entry(before, i as int, handle@);
                    assert(keyed_handles(es@) =~= before.update(i as int, (key@, handle@)));
                    if !was_starting {
                        assert(handle@ == before[i as int].1);
                        assert(keyed_handles(es@) =~= before);
                    }
                }
                self.entries = es;
                was_starting
            },
            None => false,
        }
    }

    fn take(&mut self, key: &EngineKey) -> (taken: Option<ProcessHandle>)
        ensures
            old(self).after_removed(final(self), key),
            match taken {
                Some(handle) => old(self)@.contains_key(key@) && old(self)@[key@] == handle@,
                None => !old(self)@.contains_key(key@),
            },
    {
        proof {
            use_type_invariant(&*self);
            lemma_entries_map(keyed_handles(self.entries@));
        }
        let ghost before = keyed_handles(self.entries@);
        match self.position(key) {
            Some(i) => {
                let mut es: Vec<(EngineKey, ProcessHandle)> = Vec::new();
                std::mem::swap(&mut self.entries, &mut es);
                let (_, handle) = es.remove(i);
                proof {
                    lemma_remove_entry(before, i as int);
                    assert(keyed_handles(es@) =~= before.remove(i as int));
                    assert forall|j: int| 0 <= j < es@.len() implies (#[trigger] keyed_handles(
                        es@,
                    )[j]).1.state != HandleState::Exited by {
                        let j0 = if j < i {
                            j
                        } else {
                            j + 1
                        };
                        assert(keyed_handles(es@)[j] == before[j0]);
                    }
                }
                self.entries = es;
                Some(handle)
            },
            None => {
                proof {
                    assert(self@.remove(key@) =~= self@);
                }
                None
            },
        }
    }

    /// Records that the process of `key` could not be started: the key has
    /// no process afterwards, and nothing starts one again by itself.
    /// Returns the failure to report, if a process was being started.
    pub fn spawn_failed(&mut self, key: &EngineKey) -> (failure: Option<EngineError>)
        ensures
            old(self).after_removed(final(self), key),
            failure == (if old(self)@.contains_key(key@) {
                Some(EngineError::SpawnFailure)
            } else {
                None
            }),
    {
        match self.take(key) {
            Some(_) => Some(EngineError::SpawnFailure),
            None => None,
        }
    }

    /// Stops the process of `key`: the key has no process afterwards.
    /// Returns the handle of the process to stop, if there was one.
    pub fn stop(&mut self, key: &EngineKey) -> (stopped: Option<ProcessHandle>)
        ensures
            old(self).after_removed(final(self), key),
            match stopped {
                Some(handle) => old(self)@.contains_key(key@) && old(self)@[key@] == handle@,
                None => !old(self)@.contains_key(key@),
            },
    {
        self.take(key)
    }

    /// Records that the process of `key` exited by itself: the key has no
    /// process afterwards. Returns what a request that relied on the process
    /// fails with, if there was a process.
    pub fn process_exited(&mut self, key: &EngineKey) -> (failure: Option<EngineError>)
        ensures
            old(self).after_removed(final(self), key),
            failure == (if old(self)@.contains_key(key@) {
                Some(EngineError::ProcessTerminated)
            } else {
                None
            }),
    {
        match self.take(key) {
            Some(_) => Some(EngineError::ProcessTerminated),
            None => None,
        }
    }

    /// Stops every process: the registry is empty afterwards. Returns the
    /// keys of the processes to stop, in the order in which they were asked
    /// for.
    pub fn stop_all(&mut self) -> (stopped: Vec<EngineKey>)
        ensures
            final(self)@ == Map::<(Seq<char>, Seq<char>), HandleView>::empty(),
            engine_key_views(stopped@) == old(self).keys(),
    {
        let ghost before = self.keys();
        let mut es: Vec<(EngineKey, ProcessHandle)> = Vec::new();
        std::mem::swap(&mut self.entries, &mut es);
        proof {
            assert(self@ =~= Map::<(Seq<char>, Seq<char>), HandleView>::empty());
        }
        let mut stopped: Vec<EngineKey> = Vec::new();
        let mut i: usize = 0;
        while i < es.len()
            invariant
                i <= es@.len(),
                stopped@.len() == i,
                before.len() == es@.len(),
                forall|j: int| 0 <= j < es@.len() ==> before[j] == (#[trigger] es@[j]).0@,
                forall|j: int| 0 <= j < i ==> (#[trigger] stopped@[j])@ == before[j],
            decreases es@.len() - i,
        {
            stopped.push(es[i].0.duplicate());
            i += 1;
        }
        proof {
            assert(engine_key_views(stopped@) =~= before);
        }
        stopped
    }

    /// Whether `key` has a process that runs.
    pub fn is_live(&self, key: &EngineKey) -> (live: bool)
        ensures
            live == (self@.contains_key(key@) && self@[key@].state == HandleState::Running),
    {
        proof {
            use_type_invariant(self);
            lemma_entries_map(keyed_handles(self.entries@));
        }
        match self.position(key) {
            Some(i) => match self.entries[i].1.state() {
                HandleState::Running => true,
                _ => false,
            },
            None => false,
        }
    }

    /// Whether a request for `key` can rely on its process: it fails with
    /// `ProcessTerminated` unless the key has a process that runs.
    pub fn ensure_running(&self, key: &EngineKey) -> (usable: Result<(), EngineError>)
        ensures
            usable == (if self@.contains_key(key@) && self@[key@].state == HandleState::Running {
                Ok::<(), EngineError>(())
            } else {
                Err::<(), EngineError>(EngineError::ProcessTerminated)
            }),
    {
        if self.is_live(key) {
            Ok(())
        } else {
            Err(EngineError::ProcessTerminated)
        }
    }

    /// Takes a line for the process of `key`. A running process gets it,
    /// as `ProcessHandle::send_line` says. A key without a process fails
    /// with `ProcessTerminated`, a process that does not run yet with
    /// `WriteFailure`; neither changes anything.
    pub fn send_line(&mut self, key: &EngineKey, text: &str) -> (sent: Result<(), EngineError>)
        ensures
            match sent {
                Ok(_) => {
                    &&& old(self)@.contains_key(key@)
                    &&& old(self)@[key@].state == HandleState::Running
                    &&& final(self)@ == old(self)@.insert(
                        key@,
                        HandleView {
                            log: most_recent(
                                old(self)@[key@].log.push(text@),
                                old(self)@[key@].log_capacity as nat,
                            ),
                            last_command: Some(text@),
                            ..old(self)@[key@]
                        },
                    )
                },
                Err(e) => {
                    &&& final(self)@ == old(self)@
                    &&& !old(self)@.contains_key(key@) ==> e == EngineError::ProcessTerminated
                    &&& old(self)@.contains_key(key@) ==> e == EngineError::WriteFailure
                        && old(self)@[key@].state != HandleState::Running
                },
            },
    {
        proof {
            use_type_invariant(&*self);
            lemma_entries_map(keyed_handles(self.entries@));
        }
        let ghost before = keyed_handles(self.entries@);
        match self.position(key) {
            Some(i) => {
                let mut es: Vec<(EngineKey, ProcessHandle)> = Vec::new();
                std::mem::swap(&mut self.entries, &mut es);
                let (name, mut handle) = es.remove(i);
                let sent = handle.send_line(text);
                es.insert(i, (name, handle));
                proof {
                    lemma_update_entry(before, i as int, handle@);
                    assert(keyed_handles(es@) =~= before.update(i as int, (key@, handle@)));
                    if sent is Err {
                        assert(keyed_handles(es@) =~= before);
                    }
                }
                self.entries = es;
                sent
            },
            None => Err(EngineError::ProcessTerminated),
        }
    }

    /// Records a line that the process of `key` wrote. Returns whether the
    /// key has a process.
    pub fn line_read(&mut self, key: &EngineKey, line: &str) -> (recorded: bool)
        ensures
            recorded == old(self)@.contains_key(key@),
            final(self)@ == (if recorded {
                old(self)@.insert(
                    key@,
                    HandleView {
                        log: most_recent(
                            old(self)@[key@].log.push(line@),
                            old(self)@[key@].log_capacity as nat,
                        ),
                        ..old(self)@[key@]
                    },
                )
            } else {
                old(self)@
            }),
    {
        proof {
            use_type_invariant(&*self);
            lemma_entries_map(keyed_handles(self.entries@));
        }
        let ghost before = keyed_handles(self.entries@);
        match self.position(key) {
            Some(i) => {
                let mut es: Vec<(EngineKey, ProcessHandle)> = Vec::new();
                std::mem::swap(&mut self.entries, &mut es);
                let (name, mut handle) = es.remove(i);
                handle.line_read(line);
                es.insert(i, (name, handle));
                proof {
                    lemma_update_entry(before, i as int, handle@);
                    assert(keyed_handles(es@) =~= before.update(i as int, (key@, handle@)));
                }
                self.entries = es;
                true
            },
            None => false,
        }
    }

    /// The log of the process of `key`, oldest line first, if the key has
    /// a process.
    pub fn logs(&self, key: &EngineKey) -> (lines: Option<Vec<String>>)
        ensures
            match lines {
                Some(lines) => self@.contains_key(key@) && crate::diagnostics::line_views(lines@)
                    == self@[key@].log,
                None => !self@.contains_key(key@),
            },
    {
        proof {
            use_type_invariant(self);
            lemma_entries_map(keyed_handles(self.entries@));
        }
        match self.position(key) {
            Some(i) => Some(self.entries[i].1.logs()),
            None => None,
        }
    }

    /// Empties the log of the process of `key`. Returns whether the key has
    /// a process.
    pub fn clear_logs(&mut self, key: &EngineKey) -> (cleared: bool)
        ensures
            cleared == old(self)@.contains_key(key@),
            final(self)@ == (if cleared {
                old(self)@.insert(key@, HandleView { log: Seq::empty(), ..old(self)@[key@] })
            } else {
                old(self)@
            }),
    {
        proof {
            use_type_invariant(&*self);
            lemma_entries_map(keyed_handles(self.entries@));
        }
        let ghost before = keyed_handles(self.entries@);
        match self.position(key) {
            Some(i) => {
                let mut es: Vec<(EngineKey, ProcessHandle)> = Vec::new();
                std::mem::swap(&mut self.entries, &mut es);
                let (name, mut handle) = es.remove(i);
                handle.clear_logs();
                es.insert(i, (name, handle));
                proof {
                    lemma_update_entry(before, i as int, handle@);
                    assert(keyed_handles(es@) =~= before.update(i as int, (key@, handle@)));
                }
                self.entries = es;
                true
            },
            None => false,
        }
    }

    /// The number of processes.
    pub fn len(&self) -> (n: usize)
        ensures
            n == self.keys().len(),
    {
        self.entries.len()
    }
}

/// One process for each key: once a caller was told to start the process of
/// a key, everybody who asks for that key is told to wait and changes
/// nothing, and nobody else is told to start it.
pub proof fn lemma_one_spawn_per_key(
    first: EngineRegistry,
    second: EngineRegistry,
    third: EngineRegistry,
    key: EngineKey,
    log_capacity: usize,
    other_capacity: usize,
    answer: Creation,
)
    requires
        first.after_get_or_create(&second, &key, log_capacity, Creation::Spawn),
        second.after_get_or_create(&third, &key, other_capacity, answer),
    ensures
        answer == Creation::Wait,
        third@ == second@,
{
}

/// Both callers get the same process: once the process of a key was
/// started, everybody who asks for that key is given the process that runs,
/// and the registry stays as it is.
pub proof fn lemma_started_process_is_shared(
    first: EngineRegistry,
    second: EngineRegistry,
    third: EngineRegistry,
    fourth: EngineRegistry,
    key: EngineKey,
    log_capacity: usize,
    other_capacity: usize,
    answer: Creation,
)
    requires
        first.after_get_or_create(&second, &key, log_capacity, Creation::Spawn),
        second.after_spawned(&third, &key),
        third.after_get_or_create(&fourth, &key, other_capacity, answer),
    ensures
        answer == Creation::Existing,
        fourth@ == third@,
        fourth@[key@].state == HandleState::Running,
{
}

/// When the process of a key ends, the registry has no process for that
/// key, running or not, and every other key keeps its process as it was.
pub proof fn lemma_ended_process_is_gone(first: EngineRegistry, second: EngineRegistry, key: EngineKey)
    requires
        first.after_removed(&second, &key),
    ensures
        !second@.contains_key(key@),
        forall|k: (Seq<char>, Seq<char>)|
            k != key@ ==> (#[trigger] second@.contains_key(k) <==> first@.contains_key(k)),
        forall|k: (Seq<char>, Seq<char>)|
            k != key@ && first@.contains_key(k) ==> #[trigger] second@[k] == first@[k],
{
}

} // verus!
