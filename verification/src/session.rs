//! The session lifecycle controller: the command surface `start`,
//! `send`, `close` over the registry.
//!
//! Spawning a process, writing to its standard input and terminating
//! it are the embedding application's work; the controller decides, for
//! every state of the registry, what is to be done and how the registry
//! changes, and its answers order that work.  Unknown ids are never
//! errors: `send` and `close` on them are silent no-ops.
//!
//! A session whose process exits on its own stays registered until it
//! is closed: the registry is never pruned behind the caller's back,
//! and the exit event tells the consumer to issue `close` for the id.

use crate::registry::SessionRegistry;
use crate::registry::no_entries;
use crate::resolver::Platform;
use crate::resolver::ShellChoice;
use crate::resolver::chosen_args;
use crate::resolver::chosen_program;
use crate::resolver::resolve_shell;
use vstd::prelude::*;

verus! {

/// One live session: the tokens under which the embedding application
/// knows the session's child-process handle and its standard-input
/// handle.  Both are shared between the controller and the session's
/// output pump; the tokens name them without owning them.
#[derive(Clone, Copy, PartialEq, Eq, Structural, Debug)]
pub struct TerminalSession {
    pub process: u64,
    pub input: u64,
}

/// What `start_shell` asks the embedding application to do next.
pub enum StartStep {
    /// A session already stands under the id: spawn nothing, change
    /// nothing.
    AlreadyRunning,
    /// Spawn this shell with piped standard streams, then hand the new
    /// session to `register_spawned`.
    SpawnShell(ShellChoice),
}

/// The registry content after a whole `start` command: untouched when
/// the id is taken, extended by the new session when it is free.
pub open spec fn registry_after_start(
    m: Map<Seq<char>, (u64, u64)>,
    id: Seq<char>,
    session: (u64, u64),
) -> Map<Seq<char>, (u64, u64)> {
    if m.contains_key(id) {
        m
    } else {
        m.insert(id, session)
    }
}

/// The registry content after a whole `close` command.
pub open spec fn registry_after_close(m: Map<Seq<char>, (u64, u64)>, id: Seq<char>) -> Map<
    Seq<char>,
    (u64, u64),
> {
    m.remove(id)
}

/// The lifecycle controller: the command surface over one registry of
/// live sessions.
pub struct SessionManager {
    registry: SessionRegistry,
}

impl View for SessionManager {
    type V = Map<Seq<char>, (u64, u64)>;

    closed spec fn view(&self) -> Map<Seq<char>, (u64, u64)> {
        self.registry@
    }
}

impl SessionManager {
    /// A controller with no live session.
    pub fn new() -> (r: Self)
        ensures
            r@ == no_entries(),
    {
        SessionManager { registry: SessionRegistry::new() }
    }

    /// Begin `start`: on an id that already has a session, nothing is
    /// spawned and nothing changes; on a fresh id, the shell choice to
    /// spawn.  Spawn failure stays with the embedding application and
    /// touches no other session.
    pub fn start_shell(
        &self,
        session_id: &String,
        platform: Platform,
        shell_var: Option<String>,
        comspec_var: Option<String>,
    ) -> (r: StartStep)
        ensures
            self@.contains_key(session_id@) <==> r is AlreadyRunning,
            r matches StartStep::SpawnShell(choice) ==> choice.program@ == chosen_program(
                platform,
                shell_var.deep_view(),
                comspec_var.deep_view(),
            ) && choice.args@.map_values(|a: String| a@) == chosen_args(
                platform,
                shell_var.deep_view(),
                comspec_var.deep_view(),
            ),
    {
        if self.registry.contains(session_id) {
            StartStep::AlreadyRunning
        } else {
            StartStep::SpawnShell(resolve_shell(platform, shell_var, comspec_var))
        }
    }

    /// Finish `start`: register the spawned session, unless a session
    /// appeared under the id meanwhile.  On `false` the caller must
    /// terminate the process it just spawned: no second live process
    /// is kept and none leaks.
    pub fn register_spawned(&mut self, session_id: &String, session: TerminalSession) -> (registered:
        bool)
        ensures
            registered == !old(self)@.contains_key(session_id@),
            final(self)@ == registry_after_start(
                old(self)@,
                session_id@,
                (session.process, session.input),
            ),
    {
        self.registry.register_if_absent(session_id, (session.process, session.input))
    }

    /// `send`: the session whose standard input the caller's text goes
    /// to, written verbatim under that session's input lock, with no
    /// terminator added.  On an unknown id nothing comes back: the
    /// command is a silent no-op, no error is raised and no event
    /// arises.
    pub fn send_input(&self, session_id: &String) -> (r: Option<TerminalSession>)
        ensures
            self@.contains_key(session_id@) ==> r == Some(
                (TerminalSession { process: self@[session_id@].0, input: self@[session_id@].1 }),
            ),
            !self@.contains_key(session_id@) ==> r is None,
    {
        match self.registry.lookup(session_id) {
            Some(pair) => Some(TerminalSession { process: pair.0, input: pair.1 }),
            None => None,
        }
    }

    /// `close`: take the session out of the registry and hand it back
    /// so the caller issues the termination request to its process;
    /// failure of that request is tolerated.  On an unknown id nothing
    /// changes, nothing comes back, no error is raised and no event
    /// arises.
    pub fn close_shell(&mut self, session_id: &String) -> (r: Option<TerminalSession>)
        ensures
            old(self)@.contains_key(session_id@) ==> r == Some(
                (TerminalSession {
                    process: old(self)@[session_id@].0,
                    input: old(self)@[session_id@].1,
                }),
            ),
            !old(self)@.contains_key(session_id@) ==> r is None,
            final(self)@ == registry_after_close(old(self)@, session_id@),
            !final(self)@.contains_key(session_id@),
    {
        let r = self.registry.remove(session_id);
        proof {
            if !old(self)@.contains_key(session_id@) {
                assert(old(self)@.remove(session_id@) =~= old(self)@);
            }
        }
        match r {
            Some(pair) => Some(TerminalSession { process: pair.0, input: pair.1 }),
            None => None,
        }
    }
}

/// Law: one `start` leaves a session under the id; a second `start`
/// for the same id changes nothing and keeps the first session, so at
/// most one live process ever stands under one id.  (On a registered
/// id `start_shell` answers `AlreadyRunning` before anything is
/// spawned, and a spawn that loses the registration race is ordered
/// terminated by `register_spawned`.)
pub proof fn lemma_start_idempotent(
    m: Map<Seq<char>, (u64, u64)>,
    id: Seq<char>,
    s1: (u64, u64),
    s2: (u64, u64),
)
    ensures
        registry_after_start(m, id, s1).contains_key(id),
        registry_after_start(registry_after_start(m, id, s1), id, s2) == registry_after_start(
            m,
            id,
            s1,
        ),
        registry_after_start(m, id, s1)[id] == (if m.contains_key(id) {
            m[id]
        } else {
            s1
        }),
{
}

/// Law: after `close`, no session stands under the id, and every other
/// id keeps exactly the session it had.
pub proof fn lemma_close_removes(m: Map<Seq<char>, (u64, u64)>, id: Seq<char>)
    ensures
        !registry_after_close(m, id).contains_key(id),
        forall|other: Seq<char>|
            other != id && m.contains_key(other) ==> registry_after_close(m, id).contains_key(
                other,
            ) && registry_after_close(m, id)[other] == m[other],
{
}

} // verus!
