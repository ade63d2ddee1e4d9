use vstd::prelude::*;
use std::sync::mpsc::{Receiver, Sender};

verus! {

#[verifier::external_type_specification]
#[verifier::external_body]
#[verifier::reject_recursive_types(T)]
pub struct ExSender<T>(Sender<T>);

#[verifier::external_type_specification]
#[verifier::external_body]
#[verifier::reject_recursive_types(T)]
pub struct ExReceiver<T>(Receiver<T>);

/// What the debugger front end asks of a background evaluation.
#[derive(Debug)]
pub enum DebugCommand {
    Evaluate(String),
    Resume,
    StepInto,
    Stop,
}

/// A variable of a paused frame, rendered as text.
#[derive(Debug)]
pub struct SerializedVariable {
    pub name: String,
    pub val_type: String,
    pub val_str: String,
}

/// A frame of a paused evaluation, rendered as text.
#[derive(Debug)]
pub struct SerializedFrame {
    pub name: String,
    pub class_name: String,
    pub receiver_str: String,
    pub args: Vec<SerializedVariable>,
    pub locals: Vec<SerializedVariable>,
    pub source: Option<String>,
}

/// What a background evaluation reports.
#[derive(Debug)]
pub enum DebugEvent {
    Idle,
    Running,
    Paused { stack: Vec<SerializedFrame> },
    Completed { result: String },
    Errored { message: String },
}

/// A user interface that SOM code asked the host to show.
#[derive(Debug)]
pub enum GuiRegistration {
    Snippet { title: String, code: String },
    Class { class_name: String },
}

// ---------------------------------------------------------------------------
// Views
// ---------------------------------------------------------------------------

pub struct VariableV {
    pub name: Seq<char>,
    pub val_type: Seq<char>,
    pub val_str: Seq<char>,
}

pub struct FrameV {
    pub name: Seq<char>,
    pub class_name: Seq<char>,
    pub receiver_str: Seq<char>,
    pub args: Seq<VariableV>,
    pub locals: Seq<VariableV>,
    pub source: Option<Seq<char>>,
}

pub enum EventV {
    Idle,
    Running,
    Paused(Seq<FrameV>),
    Completed(Seq<char>),
    Errored(Seq<char>),
}

pub enum CommandV {
    Evaluate(Seq<char>),
    Resume,
    StepInto,
    Stop,
}

pub enum RegistrationV {
    Snippet(Seq<char>, Seq<char>),
    Class(Seq<char>),
}

impl View for SerializedVariable {
    type V = VariableV;

    open spec fn view(&self) -> VariableV {
        VariableV { name: self.name@, val_type: self.val_type@, val_str: self.val_str@ }
    }
}

pub open spec fn variables_view(v: Seq<SerializedVariable>) -> Seq<VariableV> {
    v.map_values(|x: SerializedVariable| x@)
}

impl View for SerializedFrame {
    type V = FrameV;

    open spec fn view(&self) -> FrameV {
        FrameV {
            name: self.name@,
            class_name: self.class_name@,
            receiver_str: self.receiver_str@,
            args: variables_view(self.args@),
            locals: variables_view(self.locals@),
            source: match self.source {
                Some(s) => Some(s@),
                None => None,
            },
        }
    }
}

pub open spec fn frames_view(v: Seq<SerializedFrame>) -> Seq<FrameV> {
    v.map_values(|f: SerializedFrame| f@)
}

impl View for DebugEvent {
    type V = EventV;

    open spec fn view(&self) -> EventV {
        match self {
            DebugEvent::Idle => EventV::Idle,
            DebugEvent::Running => EventV::Running,
            DebugEvent::Paused { stack } => EventV::Paused(frames_view(stack@)),
            DebugEvent::Completed { result } => EventV::Completed(result@),
            DebugEvent::Errored { message } => EventV::Errored(message@),
        }
    }
}

impl View for DebugCommand {
    type V = CommandV;

    open spec fn view(&self) -> CommandV {
        match self {
            DebugCommand::Evaluate(code) => CommandV::Evaluate(code@),
            DebugCommand::Resume => CommandV::Resume,
            DebugCommand::StepInto => CommandV::StepInto,
            DebugCommand::Stop => CommandV::Stop,
        }
    }
}

impl View for GuiRegistration {
    type V = RegistrationV;

    open spec fn view(&self) -> RegistrationV {
        match self {
            GuiRegistration::Snippet { title, code } => RegistrationV::Snippet(title@, code@),
            GuiRegistration::Class { class_name } => RegistrationV::Class(class_name@),
        }
    }
}

pub open spec fn registrations_view(v: Seq<GuiRegistration>) -> Seq<RegistrationV> {
    v.map_values(|g: GuiRegistration| g@)
}

// ---------------------------------------------------------------------------
// Copies
// ---------------------------------------------------------------------------

impl SerializedVariable {
    pub fn copy(&self) -> (r: SerializedVariable)
        ensures
            r@ == self@,
    {
        SerializedVariable {
            name: self.name.clone(),
            val_type: self.val_type.clone(),
            val_str: self.val_str.clone(),
        }
    }
}

fn copy_variables(v: &Vec<SerializedVariable>) -> (r: Vec<SerializedVariable>)
    ensures
        variables_view(r@) == variables_view(v@),
{
    let mut out: Vec<SerializedVariable> = Vec::new();
    let mut i: usize = 0;
    while i < v.len()
        invariant
            i <= v.len(),
            variables_view(out@) == variables_view(v@.subrange(0, i as int)),
        decreases v.len() - i,
    {
        let c = v[i].copy();
        let ghost before = out@;
        out.push(c);
        assert(variables_view(out@) =~= variables_view(before).push(c@));
        assert(variables_view(v@.subrange(0, i + 1)) =~= variables_view(v@.subrange(0, i as int)).push(
            v@[i as int]@,
        ));
        i = i + 1;
    }
    assert(v@.subrange(0, v.len() as int) =~= v@);
    out
}

impl SerializedFrame {
    pub fn copy(&self) -> (r: SerializedFrame)
        ensures
            r@ == self@,
    {
        let source = match &self.source {
            Some(s) => Some(s.clone()),
            None => None,
        };
        SerializedFrame {
            name: self.name.clone(),
            class_name: self.class_name.clone(),
            receiver_str: self.receiver_str.clone(),
            args: copy_variables(&self.args),
            locals: copy_variables(&self.locals),
            source,
        }
    }
}

fn copy_frames(v: &Vec<SerializedFrame>) -> (r: Vec<SerializedFrame>)
    ensures
        frames_view(r@) == frames_view(v@),
{
    let mut out: Vec<SerializedFrame> = Vec::new();
    let mut i: usize = 0;
    while i < v.len()
        invariant
            i <= v.len(),
            frames_view(out@) == frames_view(v@.subrange(0, i as int)),
        decreases v.len() - i,
    {
        let c = v[i].copy();
        let ghost before = out@;
        out.push(c);
        assert(frames_view(out@) =~= frames_view(before).push(c@));
        assert(frames_view(v@.subrange(0, i + 1)) =~= frames_view(v@.subrange(0, i as int)).push(
            v@[i as int]@,
        ));
        i = i + 1;
    }
    assert(v@.subrange(0, v.len() as int) =~= v@);
    out
}

// ---------------------------------------------------------------------------
// Channels
// ---------------------------------------------------------------------------

/// Sends `cmd` to the evaluation over `tx` (`std::sync::mpsc::Sender::send`).
/// A send fails only when the evaluation has dropped its end; the failure is
/// ignored. Nothing is stated: the command goes to another thread.
#[verifier::external_body]
fn send_on(tx: &Sender<DebugCommand>, cmd: DebugCommand) {
    let _ = tx.send(cmd);
}

/// The events waiting in `rx`, in the order they were sent
/// (`std::sync::mpsc::Receiver::try_iter`). How many have arrived depends on
/// the other thread, so nothing is stated of the result.
#[verifier::external_body]
fn pending_events(rx: &Receiver<DebugEvent>) -> (r: Vec<DebugEvent>) {
    rx.try_iter().collect()
}

// ---------------------------------------------------------------------------
// The runner
// ---------------------------------------------------------------------------

/// What the front end knows of the runner: whether it holds the two ends of
/// a channel pair, the last status reported, the last result, error and
/// stack reported, the output not yet taken, the interfaces registered, and
/// the commands it has sent to evaluations, in order.
pub struct RunnerV {
    pub connected: bool,
    pub listening: bool,
    pub status: EventV,
    pub result: Seq<char>,
    pub error: Seq<char>,
    pub stack: Seq<FrameV>,
    pub output: Seq<char>,
    pub registrations: Seq<RegistrationV>,
    pub sent: Seq<CommandV>,
}

/// The commands sent so far, and `cmd` after them when there is an
/// evaluation to send it to.
pub open spec fn sent_after(v: RunnerV, cmd: CommandV) -> Seq<CommandV> {
    if v.connected {
        v.sent.push(cmd)
    } else {
        v.sent
    }
}

/// The state of a runner that is not evaluating anything.
pub open spec fn idle_runner(v: RunnerV) -> RunnerV {
    RunnerV { connected: false, listening: false, status: EventV::Idle, ..v }
}

/// The state after an event has been received.
pub open spec fn after_event(v: RunnerV, e: EventV) -> RunnerV {
    let v1 = RunnerV { status: e, ..v };
    match e {
        EventV::Completed(r) => RunnerV { result: r, ..v1 },
        EventV::Errored(m) => RunnerV { error: m, ..v1 },
        EventV::Paused(s) => RunnerV { stack: s, ..v1 },
        _ => v1,
    }
}

/// The state after a sequence of events has been received, in order.
pub open spec fn after_events(v: RunnerV, es: Seq<EventV>) -> RunnerV
    decreases es.len(),
{
    if es.len() == 0 {
        v
    } else {
        after_event(after_events(v, es.drop_last()), es.last())
    }
}

/// The name of a status, as the front end shows it.
pub open spec fn status_name(e: EventV) -> Seq<char> {
    match e {
        EventV::Idle => "idle"@,
        EventV::Running => "running"@,
        EventV::Paused(_) => "paused"@,
        EventV::Completed(_) => "completed"@,
        EventV::Errored(_) => "errored"@,
    }
}

/// The state of the debugger front end: the channels to a background
/// evaluation and what it has reported.
pub struct VmRunner {
    cmd_tx: Option<Sender<DebugCommand>>,
    event_rx: Option<Receiver<DebugEvent>>,
    status: DebugEvent,
    last_completed_result: String,
    last_errored_message: String,
    current_stack: Vec<SerializedFrame>,
    output_buffer: String,
    gui_registrations: Vec<GuiRegistration>,
    sent: Ghost<Seq<CommandV>>,
}

impl View for VmRunner {
    type V = RunnerV;

    closed spec fn view(&self) -> RunnerV {
        RunnerV {
            connected: self.cmd_tx is Some,
            listening: self.event_rx is Some,
            status: self.status@,
            result: self.last_completed_result@,
            error: self.last_errored_message@,
            stack: frames_view(self.current_stack@),
            output: self.output_buffer@,
            registrations: registrations_view(self.gui_registrations@),
            sent: self.sent@,
        }
    }
}

impl VmRunner {
    pub fn new() -> (r: Self)
        ensures
            r@ == (RunnerV {
                connected: false,
                listening: false,
                status: EventV::Idle,
                result: Seq::empty(),
                error: Seq::empty(),
                stack: Seq::empty(),
                output: Seq::empty(),
                registrations: Seq::empty(),
                sent: Seq::empty(),
            }),
    {
        let r = VmRunner {
            cmd_tx: None,
            event_rx: None,
            status: DebugEvent::Idle,
            last_completed_result: String::new(),
            last_errored_message: String::new(),
            current_stack: Vec::new(),
            output_buffer: String::new(),
            gui_registrations: Vec::new(),
            sent: Ghost(Seq::empty()),
        };
        assert(frames_view(r.current_stack@) =~= Seq::<FrameV>::empty());
        assert(registrations_view(r.gui_registrations@) =~= Seq::<RegistrationV>::empty());
        r
    }

    /// Takes over the channels of a new background evaluation: the previous
    /// one is told to stop, and what it reported is forgotten.
    pub fn begin_run(&mut self, cmd_tx: Sender<DebugCommand>, event_rx: Receiver<DebugEvent>)
        ensures
            final(self)@ == (RunnerV {
                connected: true,
                listening: true,
                status: EventV::Running,
                result: Seq::empty(),
                error: Seq::empty(),
                stack: Seq::empty(),
                output: Seq::empty(),
                registrations: Seq::empty(),
                sent: sent_after(old(self)@, CommandV::Stop),
            }),
    {
        self.stop();
        self.cmd_tx = Some(cmd_tx);
        self.event_rx = Some(event_rx);
        self.status = DebugEvent::Running;
        self.last_completed_result = String::new();
        self.last_errored_message = String::new();
        self.current_stack = Vec::new();
        self.output_buffer = String::new();
        self.gui_registrations = Vec::new();
        assert(frames_view(self.current_stack@) =~= Seq::<FrameV>::empty());
        assert(registrations_view(self.gui_registrations@) =~= Seq::<RegistrationV>::empty());
    }

    pub fn append_output(&mut self, text: &str)
        ensures
            final(self)@ == (RunnerV { output: old(self)@.output + text@, ..old(self)@ }),
    {
        self.output_buffer.append(text);
    }

    /// The output gathered so far, which is then emptied.
    pub fn take_output(&mut self) -> (r: String)
        ensures
            r@ == old(self)@.output,
            final(self)@ == (RunnerV { output: Seq::empty(), ..old(self)@ }),
    {
        let mut out = String::new();
        std::mem::swap(&mut out, &mut self.output_buffer);
        out
    }

    pub fn register_gui(&mut self, title: String, code: String)
        ensures
            final(self)@ == (RunnerV {
                registrations: old(self)@.registrations.push(RegistrationV::Snippet(title@, code@)),
                ..old(self)@
            }),
    {
        let g = GuiRegistration::Snippet { title, code };
        let ghost before = self.gui_registrations@;
        let ghost gv = g@;
        self.gui_registrations.push(g);
        assert(registrations_view(self.gui_registrations@) =~= registrations_view(before).push(gv));
    }

    pub fn register_gui_class(&mut self, class_name: String)
        ensures
            final(self)@ == (RunnerV {
                registrations: old(self)@.registrations.push(RegistrationV::Class(class_name@)),
                ..old(self)@
            }),
    {
        let g = GuiRegistration::Class { class_name };
        let ghost before = self.gui_registrations@;
        let ghost gv = g@;
        self.gui_registrations.push(g);
        assert(registrations_view(self.gui_registrations@) =~= registrations_view(before).push(gv));
    }

    /// The interfaces registered so far, which are then forgotten.
    pub fn take_gui_registrations(&mut self) -> (r: Vec<GuiRegistration>)
        ensures
            registrations_view(r@) == old(self)@.registrations,
            final(self)@ == (RunnerV { registrations: Seq::empty(), ..old(self)@ }),
    {
        let mut out: Vec<GuiRegistration> = Vec::new();
        std::mem::swap(&mut out, &mut self.gui_registrations);
        assert(registrations_view(self.gui_registrations@) =~= Seq::<RegistrationV>::empty());
        out
    }

    /// Records one event reported by the evaluation.
    pub fn apply_event(&mut self, event: DebugEvent)
        ensures
            final(self)@ == after_event(old(self)@, event@),
    {
        match &event {
            DebugEvent::Completed { result } => {
                self.last_completed_result = result.clone();
            },
            DebugEvent::Errored { message } => {
                self.last_errored_message = message.clone();
            },
            DebugEvent::Paused { stack } => {
                self.current_stack = copy_frames(stack);
            },
            _ => {},
        }
        self.status = event;
    }

    /// Records the events that the evaluation has sent since the last call,
    /// in the order they were sent: those waiting on the runner's own
    /// channel, as `apply_events` records them. Which have arrived depends on
    /// the other thread.
    pub fn poll_events(&mut self)
        ensures
            exists|es: Seq<EventV>| final(self)@ == after_events(old(self)@, es),
            !old(self)@.listening ==> final(self)@ == old(self)@,
    {
        let events = match &self.event_rx {
            Some(rx) => pending_events(rx),
            None => {
                assert(old(self)@ == after_events(old(self)@, Seq::empty()));
                return;
            },
        };
        self.apply_events(events);
    }

    /// Records `events`, in order, as `after_events` says.
    pub fn apply_events(&mut self, events: Vec<DebugEvent>)
        ensures
            final(self)@ == after_events(old(self)@, events@.map_values(|e: DebugEvent| e@)),
    {
        let mut i: usize = 0;
        while i < events.len()
            invariant
                i <= events.len(),
                self@ == after_events(old(self)@, events@.subrange(0, i as int).map_values(|e: DebugEvent| e@)),
            decreases events.len() - i,
        {
            let e = events[i].clone_event();
            let ghost pre = events@.subrange(0, i as int).map_values(|e: DebugEvent| e@);
            let ghost post = events@.subrange(0, i + 1).map_values(|e: DebugEvent| e@);
            assert(post.drop_last() =~= pre);
            assert(post.last() == events@[i as int]@);
            self.apply_event(e);
            i = i + 1;
        }
        assert(events@.subrange(0, events@.len() as int) =~= events@);
    }

    /// Sends `cmd` to the background evaluation, if there is one; the
    /// command is recorded among those sent.
    pub fn send_command(&mut self, cmd: DebugCommand)
        ensures
            final(self)@ == (RunnerV { sent: sent_after(old(self)@, cmd@), ..old(self)@ }),
    {
        let ghost c = cmd@;
        match &self.cmd_tx {
            Some(tx) => {
                send_on(tx, cmd);
                self.sent = Ghost(self.sent@.push(c));
            },
            None => {},
        }
    }

    /// Tells a paused evaluation to go on.
    pub fn resume(&mut self)
        ensures
            final(self)@ == (RunnerV { sent: sent_after(old(self)@, CommandV::Resume), ..old(self)@ }),
    {
        self.send_command(DebugCommand::Resume);
    }

    /// Tells a paused evaluation to run one step.
    pub fn step_into(&mut self)
        ensures
            final(self)@ == (RunnerV { sent: sent_after(old(self)@, CommandV::StepInto), ..old(self)@ }),
    {
        self.send_command(DebugCommand::StepInto);
    }

    /// Tells the background evaluation to stop and lets go of its channels.
    pub fn stop(&mut self)
        ensures
            final(self)@ == idle_runner(RunnerV { sent: sent_after(old(self)@, CommandV::Stop), ..old(self)@ }),
    {
        self.send_command(DebugCommand::Stop);
        self.cmd_tx = None;
        self.event_rx = None;
        self.status = DebugEvent::Idle;
    }

    pub fn get_status_str(&self) -> (r: String)
        ensures
            r@ == status_name(self@.status),
    {
        match &self.status {
            DebugEvent::Idle => String::from_str("idle"),
            DebugEvent::Running => String::from_str("running"),
            DebugEvent::Paused { .. } => String::from_str("paused"),
            DebugEvent::Completed { .. } => String::from_str("completed"),
            DebugEvent::Errored { .. } => String::from_str("errored"),
        }
    }

    pub fn get_result(&self) -> (r: String)
        ensures
            r@ == self@.result,
    {
        self.last_completed_result.clone()
    }

    pub fn get_error(&self) -> (r: String)
        ensures
            r@ == self@.error,
    {
        self.last_errored_message.clone()
    }

    pub fn get_stack(&self) -> (r: Vec<SerializedFrame>)
        ensures
            frames_view(r@) == self@.stack,
    {
        copy_frames(&self.current_stack)
    }
}

impl DebugEvent {
    pub fn clone_event(&self) -> (r: DebugEvent)
        ensures
            r@ == self@,
    {
        match self {
            DebugEvent::Idle => DebugEvent::Idle,
            DebugEvent::Running => DebugEvent::Running,
            DebugEvent::Paused { stack } => DebugEvent::Paused { stack: copy_frames(stack) },
            DebugEvent::Completed { result } => DebugEvent::Completed { result: result.clone() },
            DebugEvent::Errored { message } => DebugEvent::Errored { message: message.clone() },
        }
    }
}

// ---------------------------------------------------------------------------
// Laws
// ---------------------------------------------------------------------------

/// Receiving events never touches the output gathered, the interfaces
/// registered or the channels held.
pub proof fn law_events_keep_output(v: RunnerV, es: Seq<EventV>)
    ensures
        after_events(v, es).output == v.output,
        after_events(v, es).registrations == v.registrations,
        after_events(v, es).connected == v.connected,
        after_events(v, es).listening == v.listening,
    decreases es.len(),
{
    if es.len() > 0 {
        law_events_keep_output(v, es.drop_last());
    }
}

/// After any events, the status is the last event received, if there was one.
pub proof fn law_status_is_last_event(v: RunnerV, es: Seq<EventV>)
    requires
        es.len() > 0,
    ensures
        after_events(v, es).status == es.last(),
{
}

/// A completed evaluation reports its result: the status reads "completed"
/// and the result is the one reported, until another result comes.
pub proof fn law_completion_reported(v: RunnerV, result: Seq<char>)
    ensures
        status_name(after_event(v, EventV::Completed(result)).status) == "completed"@,
        after_event(v, EventV::Completed(result)).result == result,
        after_event(after_event(v, EventV::Completed(result)), EventV::Running).result == result,
{
}

/// Stopping twice is stopping once.
pub proof fn law_stop_idempotent(v: RunnerV)
    ensures
        idle_runner(idle_runner(v)) == idle_runner(v),
        status_name(idle_runner(v).status) == "idle"@,
{
}

} // verus!
