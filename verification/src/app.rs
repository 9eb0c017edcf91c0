//! The shared state store and the dispatcher's transition function, the
//! command builder with its per-process serial counter, and the one-shot
//! latch that guards dispatcher installation. The store is a plain value
//! here; the surrounding process puts it behind a lock and threads, and
//! every mutation goes through the functions of this module.

use crate::codec::encode_spec;
use crate::event::EditorEvent;
use crate::event::EventModel;
use crate::event::EventType;
use crate::event::TagView;
use crate::event::tag_name_spec;
use crate::numbers::int_dec_of;
use crate::numbers::push_i64_dec;
use vstd::prelude::*;
use vstd::string::StringExecFns;

verus! {

broadcast use Seq::<_>::add_empty_left, Seq::<_>::add_empty_right, Seq::<
    _,
>::push_distributes_over_add;

/// The outcome of reading a file during `OpenFileCommand`: its full
/// contents, or the description of the failure.
pub enum FileRead {
    Contents(String),
    Failure(String),
}

/// Mathematical model of a file-read outcome.
pub ghost enum ReadView {
    Contents(Seq<char>),
    Failure(Seq<char>),
}

impl View for FileRead {
    type V = ReadView;

    open spec fn view(&self) -> ReadView {
        match self {
            FileRead::Contents(c) => ReadView::Contents(c@),
            FileRead::Failure(e) => ReadView::Failure(e@),
        }
    }
}

impl DeepView for FileRead {
    type V = ReadView;

    open spec fn deep_view(&self) -> ReadView {
        self.view()
    }
}

/// The shared state store, together with the serial counter of the command
/// builder and the dispatcher installation latch. All fields are written
/// only through the methods below; the interactive loop reads a snapshot.
pub struct EditorApp {
    pub active_file: Option<String>,
    pub buffer: Option<String>,
    pub available_files: Vec<String>,
    pub event_count: i64,
    pub serial: i64,
    pub complete: bool,
}

/// Mathematical model of the store.
#[verifier::ext_equal]
pub ghost struct StateModel {
    pub active_file: Option<Seq<char>>,
    pub buffer: Option<Seq<char>>,
    pub available_files: Seq<Seq<char>>,
    pub event_count: int,
    pub serial: int,
    pub complete: bool,
}

impl View for EditorApp {
    type V = StateModel;

    open spec fn view(&self) -> StateModel {
        StateModel {
            active_file: self.active_file.deep_view(),
            buffer: self.buffer.deep_view(),
            available_files: self.available_files.deep_view(),
            event_count: self.event_count as int,
            serial: self.serial as int,
            complete: self.complete,
        }
    }
}

/// The store at process start: everything empty, both counters at zero,
/// the dispatcher not yet installed.
pub open spec fn initial_state() -> StateModel {
    StateModel {
        active_file: None,
        buffer: None,
        available_files: Seq::empty(),
        event_count: 0,
        serial: 0,
        complete: false,
    }
}

impl Default for EditorApp {
    /// Builds the store in its process-start state.
    fn default() -> (r: Self)
        ensures
            r@ == initial_state(),
    {
        let r = EditorApp {
            active_file: None,
            buffer: None,
            available_files: file_list(),
            event_count: 0,
            serial: 0,
            complete: false,
        };
        proof {
            assert(r@ =~= initial_state());
        }
        r
    }
}

/// The initial available-files listing. Directory walking belongs to the
/// surrounding host, which replaces the listing through
/// `SetAvailableFilesCommand`; the bridge starts with none.
pub fn file_list() -> (r: Vec<String>)
    ensures
        r@ == Seq::<String>::empty(),
{
    Vec::new()
}

/// The view of an optional borrowed file-read outcome.
pub open spec fn read_view(r: Option<&FileRead>) -> Option<ReadView> {
    match r {
        Some(f) => Some(f@),
        None => None,
    }
}

/// The separator in the unknown-message report.
pub open spec fn report_sep() -> Seq<char> {
    seq![',', ' ']
}

/// The payload strings joined with `", "`.
pub open spec fn join_sep(data: Seq<Seq<char>>) -> Seq<char>
    decreases data.len(),
{
    if data.len() == 0 {
        Seq::empty()
    } else if data.len() == 1 {
        data[0]
    } else {
        data[0] + report_sep() + join_sep(data.drop_first())
    }
}

/// What the dispatcher reports about an envelope it does not recognize:
/// the tag name, the joined payload, and the serial, comma separated.
pub open spec fn unknown_message(e: EventModel) -> Seq<char> {
    tag_name_spec(e.typ) + report_sep() + join_sep(e.data) + report_sep() + int_dec_of(e.serial)
}

/// The transition the dispatcher applies for one inbound envelope: the
/// store afterwards and the outbound envelopes produced, in order.
/// `read` is consulted only for `OpenFileCommand`; every transition
/// increments the event count.
pub open spec fn step(st: StateModel, e: EventModel, read: Option<ReadView>) -> (StateModel, Seq<
    EventModel,
>) {
    match e.typ {
        TagView::SetAvailableFilesCommand => (
            StateModel { available_files: e.data, event_count: st.event_count + 1, ..st },
            Seq::empty(),
        ),
        TagView::OpenFileCommand => {
            let opened = StateModel {
                active_file: Some(e.data[0]),
                event_count: st.event_count + 1,
                ..st
            };
            match read {
                Some(ReadView::Contents(c)) => (
                    StateModel { buffer: Some(c), ..opened },
                    Seq::empty(),
                ),
                Some(ReadView::Failure(err)) => (
                    StateModel { serial: st.serial + 1, ..opened },
                    seq![
                        EventModel {
                            typ: TagView::ErrorReadingFile,
                            data: seq![err],
                            serial: st.serial,
                        },
                    ],
                ),
                None => (opened, Seq::empty()),
            }
        },
        TagView::SetBufferCommand => (
            StateModel { buffer: Some(e.data[0]), event_count: st.event_count + 1, ..st },
            Seq::empty(),
        ),
        _ => (
            StateModel { serial: st.serial + 1, event_count: st.event_count + 1, ..st },
            seq![
                EventModel {
                    typ: TagView::DebugGotUnknownMessage,
                    data: seq![unknown_message(e)],
                    serial: st.serial,
                },
            ],
        ),
    }
}

/// Joining one more payload string appends a separator and that string,
/// except before the first.
proof fn lemma_join_sep_snoc(d: Seq<Seq<char>>, k: int)
    requires
        0 <= k < d.len(),
    ensures
        join_sep(d.take(k + 1)) == if k == 0 {
            d[0]
        } else {
            join_sep(d.take(k)) + report_sep() + d[k]
        },
    decreases k,
{
    if k == 0 {
        assert(d.take(1).len() == 1);
        assert(d.take(1)[0] == d[0]);
    } else {
        let dd = d.drop_first();
        lemma_join_sep_snoc(dd, k - 1);
        assert(d.take(k + 1).len() >= 2);
        assert(d.take(k + 1)[0] == d[0]);
        assert(d.take(k + 1).drop_first() =~= dd.take(k));
        assert(dd.take(k)[k - 1] == d[k]);
        if k == 1 {
            assert(d.take(k).len() == 1);
            assert(d.take(k)[0] == d[0]);
            assert(join_sep(d.take(k + 1)) =~= join_sep(d.take(k)) + report_sep() + d[k]);
        } else {
            assert(d.take(k).len() >= 2);
            assert(d.take(k)[0] == d[0]);
            assert(d.take(k).drop_first() =~= dd.take(k - 1));
            assert(join_sep(d.take(k + 1)) =~= join_sep(d.take(k)) + report_sep() + d[k]);
        }
    }
}

/// Joins the payload strings with `", "`.
#[verifier::loop_isolation(false)]
fn join_comma(data: &Vec<String>) -> (r: String)
    ensures
        r@ == join_sep(data.deep_view()),
{
    let mut out = String::new();
    let mut k: usize = 0;
    while k < data.len()
        invariant
            k <= data.len(),
            out@ == join_sep(data.deep_view().take(k as int)),
        decreases data.len() - k,
    {
        if k > 0 {
            out.append(", ");
            proof {
                reveal_strlit(", ");
                assert(", "@ =~= report_sep());
            }
        }
        out.append(data[k].as_str());
        proof {
            lemma_join_sep_snoc(data.deep_view(), k as int);
            assert(data.deep_view()[k as int] == data[k as int]@);
            assert(out@ =~= join_sep(data.deep_view().take(k as int + 1)));
        }
        k = k + 1;
    }
    proof {
        assert(data.deep_view().take(data.len() as int) =~= data.deep_view());
    }
    out
}

/// Builds the report text for an envelope the dispatcher does not
/// recognize.
fn unknown_message_exec(msg: &EditorEvent) -> (r: String)
    ensures
        r@ == unknown_message(msg@),
{
    let mut out = String::new();
    out.append(crate::event::tag_name(&msg.typ));
    out.append(", ");
    let joined = join_comma(&msg.data);
    out.append(joined.as_str());
    out.append(", ");
    push_i64_dec(&mut out, msg.serial);
    proof {
        reveal_strlit(", ");
        assert(", "@ =~= report_sep());
        assert(out@ =~= unknown_message(msg@));
    }
    out
}

/// Copies a vector of strings.
fn clone_string_vec(v: &Vec<String>) -> (r: Vec<String>)
    ensures
        r.deep_view() == v.deep_view(),
{
    let mut r: Vec<String> = Vec::new();
    let mut k: usize = 0;
    while k < v.len()
        invariant
            k <= v.len(),
            r@.len() == k as int,
            forall|m: int| 0 <= m < k ==> (#[trigger] r@[m])@ == v@[m]@,
        decreases v.len() - k,
    {
        r.push(v[k].clone());
        k = k + 1;
    }
    proof {
        assert(r.deep_view() =~~= v.deep_view());
    }
    r
}

impl EditorApp {
    /// Applies one inbound envelope to the store, exactly as `step` says:
    /// replaces the file listing, opens a file from the supplied read
    /// outcome, overrides the buffer, or reports an envelope it does not
    /// recognize; always counts the event. Returns the outbound envelopes
    /// produced, in order.
    pub fn handle_event(&mut self, msg: &EditorEvent, read: Option<&FileRead>) -> (out: Vec<
        EditorEvent,
    >)
        requires
            msg@.typ is OpenFileCommand ==> msg@.data.len() >= 1 && read is Some,
            msg@.typ is SetBufferCommand ==> msg@.data.len() >= 1,
            old(self)@.event_count < i64::MAX,
            old(self)@.serial < i64::MAX,
        ensures
            ({
                let r = step(old(self)@, msg@, read_view(read));
                final(self)@ == r.0 && out.deep_view() == r.1
            }),
    {
        let mut out: Vec<EditorEvent> = Vec::new();
        match &msg.typ {
            EventType::SetAvailableFilesCommand => {
                self.available_files = clone_string_vec(&msg.data);
            },
            EventType::OpenFileCommand => {
                self.active_file = Some(msg.data[0].clone());
                match read {
                    Some(FileRead::Contents(c)) => {
                        self.buffer = Some(c.clone());
                    },
                    Some(FileRead::Failure(err)) => {
                        let env = EditorEvent::new(
                            EventType::ErrorReadingFile,
                            vec![err.clone()],
                            self.serial,
                        );
                        self.serial = self.serial + 1;
                        out.push(env);
                    },
                    None => {
                        proof {
                            assert(false);
                        }
                    },
                }
            },
            EventType::SetBufferCommand => {
                self.buffer = Some(msg.data[0].clone());
            },
            _ => {
                let report = unknown_message_exec(msg);
                let env = EditorEvent::new(
                    EventType::DebugGotUnknownMessage,
                    vec![report],
                    self.serial,
                );
                self.serial = self.serial + 1;
                out.push(env);
            },
        }
        self.event_count = self.event_count + 1;
        proof {
            let r = step(old(self)@, msg@, read_view(read));
            assert(self@ =~~= r.0);
            assert(out.deep_view() =~~= r.1);
        }
        out
    }
}

/// Folding `step` over a sequence of inbound envelopes, in order: the store
/// at the end and all outbound envelopes produced, concatenated in order.
pub open spec fn step_all(
    st: StateModel,
    msgs: Seq<EventModel>,
    reads: Seq<Option<ReadView>>,
) -> (StateModel, Seq<EventModel>)
    decreases msgs.len(),
{
    if msgs.len() == 0 {
        (st, Seq::empty())
    } else {
        let first = step(st, msgs[0], reads[0]);
        let rest = step_all(first.0, msgs.drop_first(), reads.drop_first());
        (rest.0, first.1 + rest.1)
    }
}

/// Every transition counts exactly one event and allocates at most one
/// serial.
proof fn lemma_step_counters(st: StateModel, e: EventModel, read: Option<ReadView>)
    ensures
        step(st, e, read).0.event_count == st.event_count + 1,
        st.serial <= step(st, e, read).0.serial <= st.serial + 1,
{
}

/// No envelope is dropped: a run of the dispatcher counts exactly one
/// event for each envelope of the sequence.
pub proof fn lemma_step_all_counts(st: StateModel, msgs: Seq<EventModel>, reads: Seq<
    Option<ReadView>,
>)
    ensures
        step_all(st, msgs, reads).0.event_count == st.event_count + msgs.len(),
    decreases msgs.len(),
{
    if msgs.len() > 0 {
        let first = step(st, msgs[0], reads[0]);
        lemma_step_all_counts(first.0, msgs.drop_first(), reads.drop_first());
    }
}

/// Whether the supplied read outcomes satisfy what `handle_event` asks of
/// each envelope.
pub open spec fn wf_batch(msgs: Seq<EventModel>, reads: Seq<Option<ReadView>>) -> bool {
    &&& msgs.len() == reads.len()
    &&& forall|i: int|
        0 <= i < msgs.len() ==> ((#[trigger] msgs[i]).typ is OpenFileCommand ==> msgs[i].data.len()
            >= 1 && reads[i] is Some)
    &&& forall|i: int|
        0 <= i < msgs.len() ==> ((#[trigger] msgs[i]).typ is SetBufferCommand
            ==> msgs[i].data.len() >= 1)
}

impl EditorApp {
    /// Applies a sequence of inbound envelopes in exactly the order given:
    /// the store afterwards is the in-order fold of `step`, and the
    /// outbound envelopes come back concatenated in that same order — no
    /// reordering and no drops.
    #[verifier::loop_isolation(false)]
    pub fn handle_events(&mut self, msgs: &Vec<EditorEvent>, reads: &Vec<Option<FileRead>>) -> (out:
        Vec<EditorEvent>)
        requires
            wf_batch(msgs.deep_view(), reads.deep_view()),
            old(self)@.event_count + msgs@.len() <= i64::MAX,
            old(self)@.serial + msgs@.len() <= i64::MAX,
        ensures
            ({
                let r = step_all(old(self)@, msgs.deep_view(), reads.deep_view());
                final(self)@ == r.0 && out.deep_view() == r.1
            }),
    {
        let ghost msgs_m = msgs.deep_view();
        let ghost reads_m = reads.deep_view();
        let mut out: Vec<EditorEvent> = Vec::new();
        let mut i: usize = 0;
        proof {
            assert(msgs_m.skip(0) =~= msgs_m);
            assert(reads_m.skip(0) =~= reads_m);
            assert(out.deep_view() =~= Seq::<EventModel>::empty());
        }
        while i < msgs.len()
            invariant
                i <= msgs.len(),
                self@.event_count == old(self)@.event_count + i,
                old(self)@.serial <= self@.serial <= old(self)@.serial + i,
                ({
                    let rem = step_all(self@, msgs_m.skip(i as int), reads_m.skip(i as int));
                    step_all(old(self)@, msgs_m, reads_m) == (rem.0, out.deep_view() + rem.1)
                }),
            decreases msgs.len() - i,
        {
            proof {
                assert(msgs_m.skip(i as int)[0] == msgs_m[i as int]);
                assert(reads_m.skip(i as int)[0] == reads_m[i as int]);
                assert(msgs_m.skip(i as int).drop_first() =~= msgs_m.skip(i as int + 1));
                assert(reads_m.skip(i as int).drop_first() =~= reads_m.skip(i as int + 1));
                assert(msgs@[i as int]@ == msgs_m[i as int]);
            }
            let ghost pre = self@;
            let read_arg: Option<&FileRead> = reads[i].as_ref();
            proof {
                assert(read_view(read_arg) == reads_m[i as int]);
            }
            let mut produced = self.handle_event(&msgs[i], read_arg);
            proof {
                lemma_step_counters(pre, msgs_m[i as int], reads_m[i as int]);
                let first = step(pre, msgs_m[i as int], reads_m[i as int]);
                let rem_new = step_all(
                    self@,
                    msgs_m.skip(i as int + 1),
                    reads_m.skip(i as int + 1),
                );
                assert(out.deep_view() + (first.1 + rem_new.1) =~= (out.deep_view() + first.1)
                    + rem_new.1);
                assert(out.deep_view() + produced.deep_view() =~~= (out.deep_view()
                    + produced.deep_view()));
            }
            let ghost out_before = out.deep_view();
            out.append(&mut produced);
            proof {
                assert(out.deep_view() =~~= out_before + step(
                    pre,
                    msgs_m[i as int],
                    reads_m[i as int],
                ).1);
            }
            i = i + 1;
        }
        proof {
            assert(msgs_m.skip(msgs.len() as int).len() == 0);
            let rem = step_all(self@, msgs_m.skip(i as int), reads_m.skip(i as int));
            assert(out.deep_view() + rem.1 =~= out.deep_view());
        }
        out
    }

    /// The command builder: allocates the next serial, builds the envelope
    /// to hand to the outbound channel, and advances the counter. No two
    /// envelopes sent through one store carry the same serial.
    pub fn send_event(&mut self, typ: EventType, data: Vec<String>) -> (env: EditorEvent)
        requires
            old(self)@.serial < i64::MAX,
        ensures
            ({
                let r = send_step(old(self)@, typ@, data.deep_view());
                final(self)@ == r.0 && env@ == r.1
            }),
    {
        let mut s = self.serial;
        let env = send_event_selfless(typ, data, &mut s);
        self.serial = s;
        proof {
            assert(self@ =~~= send_step(old(self)@, typ@, env@.data).0);
        }
        env
    }

    /// The installation latch: reports whether the caller is the one that
    /// should start the dispatcher, and leaves the latch set either way.
    /// Set at most once per store: a second call never reports true.
    pub fn install_dispatcher(&mut self) -> (started: bool)
        ensures
            started == !old(self)@.complete,
            final(self)@ == install_step(old(self)@),
    {
        let started = !self.complete;
        self.complete = true;
        proof {
            assert(self@ =~~= install_step(old(self)@));
        }
        started
    }

    /// A copy of the store for the interactive loop to render from.
    pub fn get_snapshot(&self) -> (r: EditorApp)
        ensures
            r@ == self@,
    {
        let active_file = match &self.active_file {
            Some(s) => Some(s.clone()),
            None => None,
        };
        let buffer = match &self.buffer {
            Some(s) => Some(s.clone()),
            None => None,
        };
        let r = EditorApp {
            active_file,
            buffer,
            available_files: clone_string_vec(&self.available_files),
            event_count: self.event_count,
            serial: self.serial,
            complete: self.complete,
        };
        proof {
            assert(r@ =~~= self@);
        }
        r
    }
}

/// What one `send` does: the envelope carries the counter's value and the
/// counter advances by one; nothing else changes.
pub open spec fn send_step(st: StateModel, typ: TagView, data: Seq<Seq<char>>) -> (
    StateModel,
    EventModel,
) {
    (
        StateModel { serial: st.serial + 1, ..st },
        EventModel { typ, data, serial: st.serial },
    )
}

/// Builds the envelope for the next outbound command and advances the
/// serial counter it is given.
pub fn send_event_selfless(typ: EventType, data: Vec<String>, serial: &mut i64) -> (env:
    EditorEvent)
    requires
        *old(serial) < i64::MAX,
    ensures
        env@ == (EventModel { typ: typ@, data: data.deep_view(), serial: *old(serial) as int }),
        *final(serial) == *old(serial) + 1,
{
    let s = *serial;
    *serial = s + 1;
    EditorEvent::new(typ, data, s)
}

/// Folding `send_step` over a sequence of requests: the store at the end
/// and the envelopes built, in order.
pub open spec fn send_all(st: StateModel, reqs: Seq<(TagView, Seq<Seq<char>>)>) -> (
    StateModel,
    Seq<EventModel>,
)
    decreases reqs.len(),
{
    if reqs.len() == 0 {
        (st, Seq::empty())
    } else {
        let first = send_step(st, reqs[0].0, reqs[0].1);
        let rest = send_all(first.0, reqs.drop_first(), );
        (rest.0, seq![first.1] + rest.1)
    }
}

/// The serials of any run of sends count up from the counter's starting
/// value, one each, with no gap and no duplicate: starting from a fresh
/// store they are exactly 0, 1, ..., N-1.
pub proof fn lemma_send_serials(st: StateModel, reqs: Seq<(TagView, Seq<Seq<char>>)>)
    ensures
        send_all(st, reqs).1.len() == reqs.len(),
        send_all(st, reqs).0.serial == st.serial + reqs.len(),
        forall|i: int|
            0 <= i < reqs.len() ==> (#[trigger] send_all(st, reqs).1[i]).serial == st.serial + i,
        forall|i: int, j: int|
            0 <= i < j < reqs.len() ==> send_all(st, reqs).1[i].serial != send_all(
                st,
                reqs,
            ).1[j].serial,
    decreases reqs.len(),
{
    if reqs.len() == 0 {
    } else {
        let first = send_step(st, reqs[0].0, reqs[0].1);
        lemma_send_serials(first.0, reqs.drop_first());
        assert forall|i: int| 0 <= i < reqs.len() implies (#[trigger] send_all(
            st,
            reqs,
        ).1[i]).serial == st.serial + i by {
            if i > 0 {
                assert(send_all(st, reqs).1[i] == send_all(first.0, reqs.drop_first()).1[i - 1]);
            }
        }
    }
}

/// One invocation of the installation hook: the latch is set afterwards,
/// whatever it was.
pub open spec fn install_step(st: StateModel) -> StateModel {
    StateModel { complete: true, ..st }
}

/// How many of `k` successive invocations of the installation hook report
/// that the caller should start the dispatcher.
pub open spec fn installs_granted(st: StateModel, k: nat) -> nat
    decreases k,
{
    if k == 0 {
        0
    } else {
        (if st.complete {
            0nat
        } else {
            1nat
        }) + installs_granted(install_step(st), (k - 1) as nat)
    }
}

/// The store after `k` invocations of the installation hook.
pub open spec fn install_after(st: StateModel, k: nat) -> StateModel
    decreases k,
{
    if k == 0 {
        st
    } else {
        install_after(install_step(st), (k - 1) as nat)
    }
}

/// Installation idempotence: however many times the hook is invoked, it
/// grants the dispatcher start exactly once on a fresh latch and never on
/// a set one, and after any invocation the latch stays set.
pub proof fn lemma_install_idempotent(st: StateModel, k: nat)
    ensures
        installs_granted(st, k) == if !st.complete && k >= 1 {
            1nat
        } else {
            0nat
        },
        install_after(st, k).complete == (st.complete || k >= 1),
        install_after(st, k) == if k == 0 {
            st
        } else {
            install_step(st)
        },
    decreases k,
{
    if k > 0 {
        lemma_install_idempotent(install_step(st), (k - 1) as nat);
        if k > 1 {
            assert(install_step(install_step(st)) =~~= install_step(st));
        }
    }
}

/// The envelopes the outbound writer puts on the wire: one newline-ended
/// line for each, in order.
pub open spec fn outbound_lines(events: Seq<EventModel>) -> Seq<Seq<char>> {
    Seq::new(events.len(), |i: int| encode_spec(events[i]).push('\n'))
}

/// Encodes a batch of outbound envelopes into the newline-ended lines the
/// writer sends, in order.
#[verifier::loop_isolation(false)]
pub fn write_outgoing_events(events: &Vec<EditorEvent>) -> (lines: Vec<String>)
    ensures
        lines.deep_view() == outbound_lines(events.deep_view()),
{
    let mut lines: Vec<String> = Vec::new();
    let mut k: usize = 0;
    while k < events.len()
        invariant
            k <= events.len(),
            lines.deep_view() == outbound_lines(events.deep_view()).take(k as int),
        decreases events.len() - k,
    {
        let mut line = crate::codec::encode_event(&events[k]);
        line.push('\n');
        lines.push(line);
        k = k + 1;
        proof {
            assert(lines.deep_view() =~~= outbound_lines(events.deep_view()).take(k as int));
        }
    }
    proof {
        assert(outbound_lines(events.deep_view()).take(events.len() as int) =~= outbound_lines(
            events.deep_view(),
        ));
    }
    lines
}

/// Replacement semantics of the file listing: the command installs exactly
/// its payload, whatever the listing held before, touches no other field
/// but the event count, and produces no outbound envelope.
pub proof fn lemma_set_available_files_replaces(
    st: StateModel,
    e: EventModel,
    read: Option<ReadView>,
)
    requires
        e.typ is SetAvailableFilesCommand,
    ensures
        step(st, e, read).0.available_files == e.data,
        step(st, e, read).0.active_file == st.active_file,
        step(st, e, read).0.buffer == st.buffer,
        step(st, e, read).0.serial == st.serial,
        step(st, e, read).0.event_count == st.event_count + 1,
        step(st, e, read).1 == Seq::<EventModel>::empty(),
{
}

/// Opening a file: the path becomes the active file either way; a
/// successful read lands in the buffer with no outbound envelope, a failed
/// one leaves the buffer untouched and produces exactly one
/// `ErrorReadingFile` envelope carrying the failure's description.
pub proof fn lemma_open_file(st: StateModel, e: EventModel, read: Option<ReadView>)
    requires
        e.typ is OpenFileCommand,
        e.data.len() >= 1,
        read is Some,
    ensures
        step(st, e, read).0.active_file == Some(e.data[0]),
        step(st, e, read).0.available_files == st.available_files,
        step(st, e, read).0.event_count == st.event_count + 1,
        read matches Some(ReadView::Contents(c)) ==> step(st, e, read).0.buffer == Some(c) && step(
            st,
            e,
            read,
        ).1 == Seq::<EventModel>::empty(),
        read matches Some(ReadView::Failure(err)) ==> {
            &&& step(st, e, read).0.buffer == st.buffer
            &&& step(st, e, read).1.len() == 1
            &&& step(st, e, read).1[0].typ is ErrorReadingFile
            &&& step(st, e, read).1[0].data == seq![err]
            &&& step(st, e, read).1[0].serial == st.serial
        },
{
}

/// An envelope with any other tag mutates no state beyond the counters and
/// produces exactly one `DebugGotUnknownMessage` envelope describing it.
pub proof fn lemma_unknown_tag(st: StateModel, e: EventModel, read: Option<ReadView>)
    requires
        !(e.typ is SetAvailableFilesCommand),
        !(e.typ is OpenFileCommand),
        !(e.typ is SetBufferCommand),
    ensures
        step(st, e, read).0.active_file == st.active_file,
        step(st, e, read).0.buffer == st.buffer,
        step(st, e, read).0.available_files == st.available_files,
        step(st, e, read).0.event_count == st.event_count + 1,
        step(st, e, read).0.serial == st.serial + 1,
        step(st, e, read).1.len() == 1,
        step(st, e, read).1[0].typ is DebugGotUnknownMessage,
        step(st, e, read).1[0].data == seq![unknown_message(e)],
        step(st, e, read).1[0].serial == st.serial,
{
}

} // verus!
