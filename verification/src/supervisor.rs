//! Supervision of the API sidecar process.
//!
//! The host resolves and launches the executable and feeds the events it
//! observes — stdout and stderr chunks, a spawn-stage error, termination —
//! to a [`Drainer`], which decides for each event what to do with it and
//! when the stream is exhausted. Output chunks are decoded permissively:
//! invalid encoding becomes replacement characters, never a failure.

use vstd::prelude::*;
use vstd::string::StringExecFns;

verus! {

/// Why launching the sidecar failed. Spawning fails synchronously: on this
/// error there is no process handle and no event stream.
pub enum SpawnError {
    /// The executable name could not be resolved to a bundled binary.
    ResolutionFailed(String),
    /// The operating system refused to launch the resolved binary.
    LaunchFailed(String),
}

/// An event observed from a supervised process. Payloads of the two output
/// streams are raw byte chunks, not necessarily line- or character-aligned;
/// within each stream events arrive in emission order, across the two
/// streams no order is guaranteed.
pub enum ProcessEvent {
    Stdout(Vec<u8>),
    Stderr(Vec<u8>),
    SpawnError(String),
    Terminated(Option<i32>),
}

/// What the host should do with one observed event. Malformed output is
/// logged, never fatal; only termination ends the draining.
pub enum DrainAction {
    LogStdout(String),
    LogStderr(String),
    LogError(String),
    Stop(Option<i32>),
}

/// The logical name of the bundled API sidecar executable; resolving it to
/// a platform-appropriate binary path is the host's job.
pub fn sidecar_executable() -> (n: String)
    ensures
        n@ == "workany-api"@,
{
    String::from_str("workany-api")
}

/// The environment contract the sidecar is launched with, overlaid onto the
/// inherited environment: the port it must bind, and the node environment.
pub fn sidecar_env() -> (env: Vec<(String, String)>)
    ensures
        env@.len() == 2,
        env@[0].0@ == "PORT"@ && env@[0].1@ == "2620"@,
        env@[1].0@ == "NODE_ENV"@ && env@[1].1@ == "production"@,
{
    let mut env: Vec<(String, String)> = Vec::new();
    env.push((String::from_str("PORT"), String::from_str("2620")));
    env.push((String::from_str("NODE_ENV"), String::from_str("production")));
    env
}

/// What `String::from_utf8_lossy` decodes the given bytes to.
pub uninterp spec fn lossy_decode_of(bytes: Seq<u8>) -> Seq<char>;

/// Relies on `String::from_utf8_lossy`: the decoding depends on the bytes
/// alone, substitutes replacement characters for invalid sequences rather
/// than failing, and decodes nothing to nothing.
#[verifier::external_body]
fn decode_lossy(bytes: &Vec<u8>) -> (r: String)
    ensures
        r@ == lossy_decode_of(bytes@),
        bytes@.len() == 0 ==> r@.len() == 0,
{
    String::from_utf8_lossy(bytes).into_owned()
}

/// The action that answers an event: output is logged on the stream it came
/// from, decoded permissively; a spawn-stage error is logged; termination
/// stops the draining, carrying the exit status.
pub open spec fn action_matches(e: ProcessEvent, a: DrainAction) -> bool {
    match e {
        ProcessEvent::Stdout(b) => a matches DrainAction::LogStdout(s) && s@ == lossy_decode_of(
            b@,
        ),
        ProcessEvent::Stderr(b) => a matches DrainAction::LogStderr(s) && s@ == lossy_decode_of(
            b@,
        ),
        ProcessEvent::SpawnError(m) => a matches DrainAction::LogError(s) && s@ == m@,
        ProcessEvent::Terminated(c) => a matches DrainAction::Stop(c2) && c2 == c,
    }
}

/// One running external process as the supervisor tracks it: its identity,
/// the environment overlay it was launched with, and whether it is still
/// live. The handle is released when the process terminates or the
/// supervisor is torn down.
pub struct SidecarProcessHandle {
    pub pid: u32,
    pub env: Vec<(String, String)>,
    pub terminated: bool,
}

impl SidecarProcessHandle {
    /// A handle to a process that was just launched: live, with the
    /// environment it was given.
    pub fn new(pid: u32, env: Vec<(String, String)>) -> (h: SidecarProcessHandle)
        ensures
            h.pid == pid,
            h.env == env,
            !h.terminated,
    {
        SidecarProcessHandle { pid, env, terminated: false }
    }

    /// The process was observed to terminate; only the status changes.
    pub fn mark_terminated(&mut self)
        ensures
            final(self).pid == old(self).pid,
            final(self).env == old(self).env,
            final(self).terminated,
    {
        self.terminated = true;
    }

    /// Whether the process is still live.
    pub fn is_live(&self) -> (b: bool)
        ensures
            b == !self.terminated,
    {
        !self.terminated
    }
}

/// The single consumer of a process's event stream: takes events one at a
/// time, in the order they are observed, until termination exhausts the
/// stream.
pub struct Drainer {
    exhausted: bool,
}

impl Drainer {
    /// Whether a termination event has been consumed; no further event may
    /// be fed after that.
    pub closed spec fn is_exhausted(self) -> bool {
        self.exhausted
    }

    pub fn new() -> (d: Drainer)
        ensures
            !d.is_exhausted(),
    {
        Drainer { exhausted: false }
    }

    /// Consume the next event of the stream and say what to do with it.
    /// Exactly a termination event exhausts the stream.
    pub fn on_event(&mut self, e: &ProcessEvent) -> (a: DrainAction)
        requires
            !old(self).is_exhausted(),
        ensures
            action_matches(*e, a),
            final(self).is_exhausted() <==> (*e) is Terminated,
    {
        match e {
            ProcessEvent::Stdout(b) => DrainAction::LogStdout(decode_lossy(b)),
            ProcessEvent::Stderr(b) => DrainAction::LogStderr(decode_lossy(b)),
            ProcessEvent::SpawnError(m) => DrainAction::LogError(m.clone()),
            ProcessEvent::Terminated(c) => {
                self.exhausted = true;
                DrainAction::Stop(*c)
            },
        }
    }
}

/// How many events of the stream get consumed: everything up to and
/// including the first termination event, or the whole stream if the
/// process never terminated within it.
pub open spec fn drain_len(events: Seq<ProcessEvent>) -> int
    decreases events.len(),
{
    if events.len() == 0 {
        0
    } else if events[0] is Terminated {
        1
    } else {
        1 + drain_len(events.drop_first())
    }
}

/// The number of consumed events is `i + 1` exactly when the first
/// termination event sits at index `i`, and the stream's length when no
/// event terminates it.
pub proof fn lemma_drain_len_prefix(events: Seq<ProcessEvent>, i: int)
    requires
        0 <= i <= events.len(),
        forall|j: int| 0 <= j < i ==> !((#[trigger] events[j]) is Terminated),
        i == events.len() || events[i] is Terminated,
    ensures
        drain_len(events) == if i < events.len() {
            i + 1
        } else {
            i
        },
    decreases i,
{
    if events.len() == 0 {
    } else if i == 0 {
    } else {
        let rest = events.drop_first();
        assert(forall|j: int| 0 <= j < i - 1 ==> #[trigger] rest[j] == events[j + 1]);
        if i < events.len() {
            assert(rest[i - 1] == events[i]);
        }
        lemma_drain_len_prefix(rest, i - 1);
    }
}

/// Drain a whole event stream: consume events in the order given until the
/// first termination event (inclusive), answering each consumed event with
/// its action. Events are answered in emission order — for a process that
/// writes "A" then "B" and exits, the actions are log "A", log "B", stop —
/// and nothing after the termination event is consumed.
pub fn drain(events: &Vec<ProcessEvent>) -> (actions: Vec<DrainAction>)
    ensures
        actions@.len() == drain_len(events@),
        forall|i: int|
            0 <= i < actions@.len() ==> action_matches(events@[i], #[trigger] actions@[i]),
        forall|i: int| 0 <= i < actions@.len() - 1 ==> !((#[trigger] events@[i]) is Terminated),
        actions@.len() < events@.len() ==> events@[actions@.len() - 1] is Terminated,
{
    let mut d = Drainer::new();
    let mut actions: Vec<DrainAction> = Vec::new();
    let n: usize = events.len();
    let mut i: usize = 0;
    while i < n
        invariant
            n == events@.len(),
            i <= n,
            !d.is_exhausted(),
            actions@.len() == i,
            forall|j: int|
                0 <= j < i ==> action_matches(events@[j], #[trigger] actions@[j]),
            forall|j: int| 0 <= j < i ==> !((#[trigger] events@[j]) is Terminated),
        decreases n - i,
    {
        let a = d.on_event(&events[i]);
        let stop = matches!(a, DrainAction::Stop(_));
        actions.push(a);
        if stop {
            proof {
                lemma_drain_len_prefix(events@, i as int);
            }
            return actions;
        }
        proof {
            assert(!(events@[i as int] is Terminated));
        }
        i = i + 1;
    }
    proof {
        lemma_drain_len_prefix(events@, n as int);
    }
    actions
}

} // verus!
