//! The computational half of the host-embedding layer: building the wire
//! line for each command the host sends, and the small value resource the
//! host shares. The host's own plumbing (resource registration, channels,
//! process identifiers) lives outside the library.

use crate::codec::encode_parts;
use crate::codec::encode_parts_exec;
use crate::event::EventType;
use crate::event::TagView;
use crate::event::tag_name;
use vstd::prelude::*;

verus! {

/// A shared value the host can create and read back. The host wraps it in
/// its own reference-counted, lock-protected resource.
pub struct TestResource<T> {
    pub test_field: T,
}

/// Creates a number resource holding `r`.
pub fn make_number(r: i64) -> (t: TestResource<i64>)
    ensures
        t.test_field == r,
{
    TestResource { test_field: r }
}

/// Reads a number resource back.
pub fn read_resource(resource: &TestResource<i64>) -> (r: i64)
    ensures
        r == resource.test_field,
{
    resource.test_field
}

/// The wire line of the envelope with the given tag, payload and serial.
pub open spec fn command_line_spec(typ: TagView, data: Seq<Seq<char>>, serial: int) -> Seq<char> {
    encode_parts(crate::event::tag_name_spec(typ), data, serial)
}

/// The line that replaces the peer's available-files listing with `path`.
pub fn set_available_files_json(path: Vec<String>, serial: i64) -> (r: String)
    ensures
        r@ == command_line_spec(
            TagView::SetAvailableFilesCommand,
            path.deep_view(),
            serial as int,
        ),
{
    encode_parts_exec(tag_name(&EventType::SetAvailableFilesCommand), &path, serial)
}

/// The line that asks the peer to open the file at `location[0]`.
pub fn open_file_json(location: Vec<String>, serial: i64) -> (r: String)
    ensures
        r@ == command_line_spec(TagView::OpenFileCommand, location.deep_view(), serial as int),
{
    encode_parts_exec(tag_name(&EventType::OpenFileCommand), &location, serial)
}

/// The line that overrides the peer's buffer with `buffer`.
pub fn set_buffer_json(buffer: String, serial: i64) -> (r: String)
    ensures
        r@ == command_line_spec(TagView::SetBufferCommand, seq![buffer@], serial as int),
{
    let data = vec![buffer];
    let r = encode_parts_exec(tag_name(&EventType::SetBufferCommand), &data, serial);
    proof {
        assert(data.deep_view() =~= seq![data@[0]@]);
    }
    r
}

} // verus!
