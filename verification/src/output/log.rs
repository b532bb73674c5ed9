//! The log.
use vstd::prelude::*;

use super::OutputContext;
use crate::dns_util::message_to_json;
use crate::entry;
use crate::error::Error;

verus! {

/// Writes structured NDJSON, one line for each packet, whatever its format is
/// called.
pub struct LogOutput {
    pub format: String,
}

impl LogOutput {
    /// A log with a format.
    pub fn new(format: &str) -> (r: LogOutput)
        ensures
            r.format@ == format@,
    {
        LogOutput { format: format.to_owned() }
    }

    /// The name of this kind of output.
    pub fn name(&self) -> (r: &str)
        ensures
            r@ == "log"@,
    {
        "log"
    }

    /// Format the packet as a string (separated from I/O for testability).
    pub fn format_entry(&self, ctx: &OutputContext) -> (r: Result<String, Error>)
        ensures
            r is Ok,
            r->Ok_0@ == entry::entry_text(super::event_entry(ctx.event@, ctx.msg@)),
    {
        let entry = message_to_json(
            ctx.msg,
            ctx.event.interface.as_str(),
            ctx.event.source.text().as_str(),
            ctx.event.data.len(),
            ctx.event.timestamp.as_str(),
        );
        Ok(entry.to_text())
    }
}

} // verus!
