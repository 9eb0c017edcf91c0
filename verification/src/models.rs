//! A second, smaller envelope family used by one host embedding: its own
//! closed tag set over the same wire format.

use crate::codec::encode_parts;
use crate::codec::encode_parts_exec;
use vstd::prelude::*;

verus! {

/// The closed tag set of this envelope family.
#[derive(Clone, Copy, Debug, PartialEq, Eq, Structural)]
pub enum Typ {
    GuiEvent,
    DebugNoBufferToSave,
    ErrorSwitchToFile,
    DebugGuiGotMessage,
    ErrorReadingFile,
    Error,
    Event,
    Exit,
    TestEvent,
    OpenFileCommand,
}

/// The name under which a tag of this family travels on the wire.
pub open spec fn typ_name_spec(t: Typ) -> Seq<char> {
    match t {
        Typ::GuiEvent => "GuiEvent"@,
        Typ::DebugNoBufferToSave => "DebugNoBufferToSave"@,
        Typ::ErrorSwitchToFile => "ErrorSwitchToFile"@,
        Typ::DebugGuiGotMessage => "DebugGuiGotMessage"@,
        Typ::ErrorReadingFile => "ErrorReadingFile"@,
        Typ::Error => "Error"@,
        Typ::Event => "Event"@,
        Typ::Exit => "Exit"@,
        Typ::TestEvent => "TestEvent"@,
        Typ::OpenFileCommand => "OpenFileCommand"@,
    }
}

/// The name under which a tag of this family travels, executably.
pub fn typ_name(t: &Typ) -> (r: &'static str)
    ensures
        r@ == typ_name_spec(*t),
{
    match t {
        Typ::GuiEvent => "GuiEvent",
        Typ::DebugNoBufferToSave => "DebugNoBufferToSave",
        Typ::ErrorSwitchToFile => "ErrorSwitchToFile",
        Typ::DebugGuiGotMessage => "DebugGuiGotMessage",
        Typ::ErrorReadingFile => "ErrorReadingFile",
        Typ::Error => "Error",
        Typ::Event => "Event",
        Typ::Exit => "Exit",
        Typ::TestEvent => "TestEvent",
        Typ::OpenFileCommand => "OpenFileCommand",
    }
}

/// One envelope of this family.
#[derive(Clone, Debug, PartialEq, Eq)]
pub struct SomeEvent {
    pub typ: Typ,
    pub data: Vec<String>,
    pub serial: i64,
}

impl SomeEvent {
    /// Builds the envelope out of its three fields.
    pub fn new(typ: Typ, data: Vec<String>, serial: i64) -> (r: Self)
        ensures
            r.typ == typ,
            r.data == data,
            r.serial == serial,
    {
        Self { typ, data, serial }
    }

    /// The wire line of this envelope, under the shared line format.
    pub fn to_json(&self) -> (r: String)
        ensures
            r@ == encode_parts(typ_name_spec(self.typ), self.data.deep_view(), self.serial as int),
    {
        encode_parts_exec(typ_name(&self.typ), &self.data, self.serial)
    }
}

/// The wire line of a `TestEvent` envelope carrying `data` alone.
pub fn test_event_json(data: String, serial: i64) -> (r: String)
    ensures
        r@ == encode_parts(typ_name_spec(Typ::TestEvent), seq![data@], serial as int),
{
    let payload = vec![data];
    let r = encode_parts_exec(typ_name(&Typ::TestEvent), &payload, serial);
    proof {
        assert(payload.deep_view() =~= seq![payload@[0]@]);
    }
    r
}

/// The wire line of an `OpenFileCommand` envelope naming one path.
pub fn open_file_command_json(path: String, serial: i64) -> (r: String)
    ensures
        r@ == encode_parts(typ_name_spec(Typ::OpenFileCommand), seq![path@], serial as int),
{
    let payload = vec![path];
    let r = encode_parts_exec(typ_name(&Typ::OpenFileCommand), &payload, serial);
    proof {
        assert(payload.deep_view() =~= seq![payload@[0]@]);
    }
    r
}

} // verus!
