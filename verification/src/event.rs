//! The envelope exchanged over the bridge: a tag out of a closed set, a
//! payload of strings, and a per-process serial number.

use crate::chars::chars_eq_str;
use crate::chars::chars_to_string;
use vstd::prelude::*;

verus! {

/// The tag of an envelope. The named variants form the closed set this
/// process recognizes; a wire tag outside that set still decodes, as
/// `Unknown`, because unrecognized tags are handled by the dispatcher,
/// not rejected by the codec.
#[derive(Clone, Debug, PartialEq, Eq)]
pub enum EventType {
    GuiEvent,
    DebugNoBufferToSave,
    ErrorSwitchToFile,
    DebugGuiGotMessage,
    ErrorReadingFile,
    Exit,
    SetAvailableFilesCommand,
    ClickFileEvent,
    OpenFileCommand,
    SetBufferCommand,
    DebugGotUnknownMessage,
    BufferChanged,
    DebugMessage,
    NavigateUp,
    Unknown(String),
}

/// Mathematical model of a tag: the `Unknown` payload is a character
/// sequence.
pub ghost enum TagView {
    GuiEvent,
    DebugNoBufferToSave,
    ErrorSwitchToFile,
    DebugGuiGotMessage,
    ErrorReadingFile,
    Exit,
    SetAvailableFilesCommand,
    ClickFileEvent,
    OpenFileCommand,
    SetBufferCommand,
    DebugGotUnknownMessage,
    BufferChanged,
    DebugMessage,
    NavigateUp,
    Unknown(Seq<char>),
}

impl View for EventType {
    type V = TagView;

    open spec fn view(&self) -> TagView {
        match self {
            EventType::GuiEvent => TagView::GuiEvent,
            EventType::DebugNoBufferToSave => TagView::DebugNoBufferToSave,
            EventType::ErrorSwitchToFile => TagView::ErrorSwitchToFile,
            EventType::DebugGuiGotMessage => TagView::DebugGuiGotMessage,
            EventType::ErrorReadingFile => TagView::ErrorReadingFile,
            EventType::Exit => TagView::Exit,
            EventType::SetAvailableFilesCommand => TagView::SetAvailableFilesCommand,
            EventType::ClickFileEvent => TagView::ClickFileEvent,
            EventType::OpenFileCommand => TagView::OpenFileCommand,
            EventType::SetBufferCommand => TagView::SetBufferCommand,
            EventType::DebugGotUnknownMessage => TagView::DebugGotUnknownMessage,
            EventType::BufferChanged => TagView::BufferChanged,
            EventType::DebugMessage => TagView::DebugMessage,
            EventType::NavigateUp => TagView::NavigateUp,
            EventType::Unknown(s) => TagView::Unknown(s@),
        }
    }
}

/// The name under which a tag travels on the wire.
pub open spec fn tag_name_spec(t: TagView) -> Seq<char> {
    match t {
        TagView::GuiEvent => "GuiEvent"@,
        TagView::DebugNoBufferToSave => "DebugNoBufferToSave"@,
        TagView::ErrorSwitchToFile => "ErrorSwitchToFile"@,
        TagView::DebugGuiGotMessage => "DebugGuiGotMessage"@,
        TagView::ErrorReadingFile => "ErrorReadingFile"@,
        TagView::Exit => "Exit"@,
        TagView::SetAvailableFilesCommand => "SetAvailableFilesCommand"@,
        TagView::ClickFileEvent => "ClickFileEvent"@,
        TagView::OpenFileCommand => "OpenFileCommand"@,
        TagView::SetBufferCommand => "SetBufferCommand"@,
        TagView::DebugGotUnknownMessage => "DebugGotUnknownMessage"@,
        TagView::BufferChanged => "BufferChanged"@,
        TagView::DebugMessage => "DebugMessage"@,
        TagView::NavigateUp => "NavigateUp"@,
        TagView::Unknown(s) => s,
    }
}

/// The tag a wire name denotes: one of the closed set when the name matches,
/// `Unknown` carrying the name itself otherwise.
pub open spec fn tag_of_name_spec(name: Seq<char>) -> TagView {
    if name == "GuiEvent"@ {
        TagView::GuiEvent
    } else if name == "DebugNoBufferToSave"@ {
        TagView::DebugNoBufferToSave
    } else if name == "ErrorSwitchToFile"@ {
        TagView::ErrorSwitchToFile
    } else if name == "DebugGuiGotMessage"@ {
        TagView::DebugGuiGotMessage
    } else if name == "ErrorReadingFile"@ {
        TagView::ErrorReadingFile
    } else if name == "Exit"@ {
        TagView::Exit
    } else if name == "SetAvailableFilesCommand"@ {
        TagView::SetAvailableFilesCommand
    } else if name == "ClickFileEvent"@ {
        TagView::ClickFileEvent
    } else if name == "OpenFileCommand"@ {
        TagView::OpenFileCommand
    } else if name == "SetBufferCommand"@ {
        TagView::SetBufferCommand
    } else if name == "DebugGotUnknownMessage"@ {
        TagView::DebugGotUnknownMessage
    } else if name == "BufferChanged"@ {
        TagView::BufferChanged
    } else if name == "DebugMessage"@ {
        TagView::DebugMessage
    } else if name == "NavigateUp"@ {
        TagView::NavigateUp
    } else {
        TagView::Unknown(name)
    }
}

/// A tag is well formed when an `Unknown` name really lies outside the
/// closed set, so that the tag and its wire name determine each other.
pub open spec fn wf_tag(t: TagView) -> bool {
    match t {
        TagView::Unknown(s) => tag_of_name_spec(s) == TagView::Unknown(s),
        _ => true,
    }
}

/// A well-formed tag and its wire name determine each other: looking the
/// name of a tag back up yields that tag.
pub proof fn lemma_tag_round_trip(t: TagView)
    requires
        wf_tag(t),
    ensures
        tag_of_name_spec(tag_name_spec(t)) == t,
{
    reveal_strlit("GuiEvent");
    reveal_strlit("DebugNoBufferToSave");
    reveal_strlit("ErrorSwitchToFile");
    reveal_strlit("DebugGuiGotMessage");
    reveal_strlit("ErrorReadingFile");
    reveal_strlit("Exit");
    reveal_strlit("SetAvailableFilesCommand");
    reveal_strlit("ClickFileEvent");
    reveal_strlit("OpenFileCommand");
    reveal_strlit("SetBufferCommand");
    reveal_strlit("DebugGotUnknownMessage");
    reveal_strlit("BufferChanged");
    reveal_strlit("DebugMessage");
    reveal_strlit("NavigateUp");
    // the one pair of names of equal length differs in its first character
    assert("ErrorReadingFile"@ != "SetBufferCommand"@) by {
        assert("ErrorReadingFile"@[0] == 'E');
        assert("SetBufferCommand"@[0] == 'S');
    }
    assert("GuiEvent"@.len() == 8);
    assert("DebugNoBufferToSave"@.len() == 19);
    assert("ErrorSwitchToFile"@.len() == 17);
    assert("DebugGuiGotMessage"@.len() == 18);
    assert("ErrorReadingFile"@.len() == 16);
    assert("Exit"@.len() == 4);
    assert("SetAvailableFilesCommand"@.len() == 24);
    assert("ClickFileEvent"@.len() == 14);
    assert("OpenFileCommand"@.len() == 15);
    assert("SetBufferCommand"@.len() == 16);
    assert("DebugGotUnknownMessage"@.len() == 22);
    assert("BufferChanged"@.len() == 13);
    assert("DebugMessage"@.len() == 12);
    assert("NavigateUp"@.len() == 10);
}

/// One tagged message unit exchanged over the bridge.
#[derive(Clone, Debug, PartialEq, Eq)]
pub struct EditorEvent {
    pub typ: EventType,
    pub data: Vec<String>,
    pub serial: i64,
}

/// Mathematical model of an envelope.
#[verifier::ext_equal]
pub ghost struct EventModel {
    pub typ: TagView,
    pub data: Seq<Seq<char>>,
    pub serial: int,
}

impl View for EditorEvent {
    type V = EventModel;

    open spec fn view(&self) -> EventModel {
        EventModel { typ: self.typ@, data: self.data.deep_view(), serial: self.serial as int }
    }
}

impl DeepView for EditorEvent {
    type V = EventModel;

    open spec fn deep_view(&self) -> EventModel {
        self.view()
    }
}

/// An envelope model that an `EditorEvent` value can carry: its tag is well
/// formed and its serial fits the wire's 64-bit signed integers.
pub open spec fn wf_event(e: EventModel) -> bool {
    &&& wf_tag(e.typ)
    &&& i64::MIN <= e.serial <= i64::MAX
}

/// The name under which a tag travels on the wire, executably.
pub fn tag_name<'a>(t: &'a EventType) -> (r: &'a str)
    ensures
        r@ == tag_name_spec(t@),
{
    match t {
        EventType::GuiEvent => "GuiEvent",
        EventType::DebugNoBufferToSave => "DebugNoBufferToSave",
        EventType::ErrorSwitchToFile => "ErrorSwitchToFile",
        EventType::DebugGuiGotMessage => "DebugGuiGotMessage",
        EventType::ErrorReadingFile => "ErrorReadingFile",
        EventType::Exit => "Exit",
        EventType::SetAvailableFilesCommand => "SetAvailableFilesCommand",
        EventType::ClickFileEvent => "ClickFileEvent",
        EventType::OpenFileCommand => "OpenFileCommand",
        EventType::SetBufferCommand => "SetBufferCommand",
        EventType::DebugGotUnknownMessage => "DebugGotUnknownMessage",
        EventType::BufferChanged => "BufferChanged",
        EventType::DebugMessage => "DebugMessage",
        EventType::NavigateUp => "NavigateUp",
        EventType::Unknown(s) => s.as_str(),
    }
}

/// The tag a wire name denotes, executably.
pub fn tag_from_chars(v: &Vec<char>) -> (t: EventType)
    ensures
        t@ == tag_of_name_spec(v@),
{
    if chars_eq_str(v, "GuiEvent") {
        EventType::GuiEvent
    } else if chars_eq_str(v, "DebugNoBufferToSave") {
        EventType::DebugNoBufferToSave
    } else if chars_eq_str(v, "ErrorSwitchToFile") {
        EventType::ErrorSwitchToFile
    } else if chars_eq_str(v, "DebugGuiGotMessage") {
        EventType::DebugGuiGotMessage
    } else if chars_eq_str(v, "ErrorReadingFile") {
        EventType::ErrorReadingFile
    } else if chars_eq_str(v, "Exit") {
        EventType::Exit
    } else if chars_eq_str(v, "SetAvailableFilesCommand") {
        EventType::SetAvailableFilesCommand
    } else if chars_eq_str(v, "ClickFileEvent") {
        EventType::ClickFileEvent
    } else if chars_eq_str(v, "OpenFileCommand") {
        EventType::OpenFileCommand
    } else if chars_eq_str(v, "SetBufferCommand") {
        EventType::SetBufferCommand
    } else if chars_eq_str(v, "DebugGotUnknownMessage") {
        EventType::DebugGotUnknownMessage
    } else if chars_eq_str(v, "BufferChanged") {
        EventType::BufferChanged
    } else if chars_eq_str(v, "DebugMessage") {
        EventType::DebugMessage
    } else if chars_eq_str(v, "NavigateUp") {
        EventType::NavigateUp
    } else {
        EventType::Unknown(chars_to_string(v))
    }
}

impl EditorEvent {
    /// Builds the envelope out of its three fields.
    pub fn new(typ: EventType, data: Vec<String>, serial: i64) -> (r: Self)
        ensures
            r.typ == typ,
            r.data == data,
            r.serial == serial,
    {
        Self { typ, data, serial }
    }
}

} // verus!
