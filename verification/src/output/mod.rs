//! Outputs: what becomes of a packet that a route lets through.
pub mod log;

use vstd::prelude::*;
use vstd::slice::slice_to_vec;

use self::log::LogOutput;
use crate::config::OutputConfig;
use crate::dns_util::{self, EntryView};
use crate::entry;
use crate::error::Error;
use crate::message::{DnsMessage, MessageView};
use crate::receiver::{self, PacketEvent, SocketAddr};
use crate::text;
use crate::value;

verus! {

/// Context passed to outputs for each processed packet.
pub struct OutputContext<'a> {
    pub event: &'a PacketEvent,
    pub msg: &'a DnsMessage,
    pub wire_bytes: &'a [u8],
}

/// What a received packet holds.
pub struct EventView {
    pub data: Seq<u8>,
    pub source: SocketAddr,
    pub interface: Seq<char>,
    pub timestamp: Seq<char>,
}

impl View for PacketEvent {
    type V = EventView;

    open spec fn view(&self) -> EventView {
        EventView {
            data: self.data@,
            source: self.source,
            interface: self.interface@,
            timestamp: self.timestamp@,
        }
    }
}

/// What the log says of a received packet and the message that is made of it.
pub open spec fn event_entry(event: EventView, message: MessageView) -> EntryView {
    EntryView {
        timestamp: event.timestamp,
        interface: event.interface,
        source: receiver::socket_text(event.source),
        packet_size: event.data.len() as usize,
        message: dns_util::message_info(message),
    }
}

/// An output sink: the log, or the multicast group on an interface.
pub enum Sink {
    Log(LogOutput),
    Reflect(String),
}

/// Which sink an output is.
pub enum SinkView {
    Log { format: Seq<char> },
    Reflect(Seq<char>),
}

impl View for Sink {
    type V = SinkView;

    open spec fn view(&self) -> SinkView {
        match self {
            Sink::Log(log) => SinkView::Log { format: log.format@ },
            Sink::Reflect(interface) => SinkView::Reflect(interface@),
        }
    }
}

/// Which sinks some outputs are.
pub open spec fn sink_views(sinks: Seq<Sink>) -> Seq<SinkView> {
    sinks.map_values(|s: Sink| s@)
}

/// The sinks that a configuration asks for.
pub open spec fn config_sinks(config: OutputConfig) -> Seq<SinkView> {
    match config {
        OutputConfig::Log { format } => seq![SinkView::Log { format: format@ }],
        OutputConfig::Reflect { interfaces } => Seq::new(
            interfaces@.len(),
            |i: int| SinkView::Reflect(interfaces@[i]@),
        ),
    }
}

/// The sinks that some configurations ask for, one after the other.
pub open spec fn configured_sinks(configs: Seq<OutputConfig>) -> Seq<SinkView>
    decreases configs.len(),
{
    if configs.len() == 0 {
        Seq::empty()
    } else {
        configured_sinks(configs.drop_last()) + config_sinks(configs.last())
    }
}

/// Build output sinks from config.
pub fn build_outputs(configs: &[OutputConfig]) -> (r: Vec<Sink>)
    ensures
        sink_views(r@) == configured_sinks(configs@),
{
    let mut outputs: Vec<Sink> = Vec::new();
    let mut i: usize = 0;
    assert(sink_views(outputs@) =~= configured_sinks(configs@.take(0)));
    while i < configs.len()
        invariant
            i <= configs@.len(),
            sink_views(outputs@) == configured_sinks(configs@.take(i as int)),
        decreases configs@.len() - i,
    {
        let ghost before = sink_views(outputs@);
        match &configs[i] {
            OutputConfig::Log { format } => {
                outputs.push(Sink::Log(LogOutput::new(format.as_str())));
                assert(sink_views(outputs@) =~= before + config_sinks(configs@[i as int]));
            },
            OutputConfig::Reflect { interfaces } => {
                let ghost wanted = config_sinks(configs@[i as int]);
                let mut k: usize = 0;
                assert(before + wanted.take(0) =~= before);
                while k < interfaces.len()
                    invariant
                        k <= interfaces@.len(),
                        wanted.len() == interfaces@.len(),
                        forall|j: int|
                            0 <= j < wanted.len() ==> #[trigger] wanted[j] == SinkView::Reflect(
                                interfaces@[j]@,
                            ),
                        sink_views(outputs@) == before + wanted.take(k as int),
                    decreases interfaces@.len() - k,
                {
                    let ghost so_far = outputs@;
                    outputs.push(Sink::Reflect(interfaces[k].clone()));
                    proof {
                        assert(sink_views(outputs@) =~= sink_views(so_far).push(wanted[k as int]));
                        assert(wanted.take(k + 1) =~= wanted.take(k as int).push(
                            wanted[k as int],
                        ));
                    }
                    k += 1;
                }
                assert(wanted.take(k as int) =~= wanted);
            },
        }
        proof {
            assert(configs@.take(i + 1).drop_last() =~= configs@.take(i as int));
            assert(configs@.take(i + 1).last() == configs@[i as int]);
        }
        i += 1;
    }
    assert(configs@.take(i as int) =~= configs@);
    outputs
}

/// What a sink is handed: a line for the log, or a packet for an interface.
#[derive(Debug)]
pub enum Delivery {
    Line(String),
    Packet { interface: String, data: Vec<u8> },
}

/// What a delivery holds.
pub enum DeliveryView {
    Line(Seq<char>),
    Packet { interface: Seq<char>, data: Seq<u8> },
}

impl View for Delivery {
    type V = DeliveryView;

    open spec fn view(&self) -> DeliveryView {
        match self {
            Delivery::Line(line) => DeliveryView::Line(line@),
            Delivery::Packet { interface, data } => DeliveryView::Packet {
                interface: interface@,
                data: data@,
            },
        }
    }
}

/// What a sink is handed of a packet.
pub open spec fn delivery(
    sink: SinkView,
    event: EventView,
    message: MessageView,
    wire_bytes: Seq<u8>,
) -> DeliveryView {
    match sink {
        SinkView::Log { .. } => DeliveryView::Line(
            entry::entry_text(event_entry(event, message)),
        ),
        SinkView::Reflect(interface) => DeliveryView::Packet { interface, data: wire_bytes },
    }
}

impl Sink {
    /// What this sink is handed of a packet.
    pub fn deliver(&self, ctx: &OutputContext) -> (r: Result<Delivery, Error>)
        ensures
            r is Ok,
            r->Ok_0@ == delivery(self@, ctx.event@, ctx.msg@, ctx.wire_bytes@),
    {
        match self {
            Sink::Log(log) => match log.format_entry(ctx) {
                Ok(line) => Ok(Delivery::Line(line)),
                Err(e) => Err(e),
            },
            Sink::Reflect(interface) => Ok(
                Delivery::Packet {
                    interface: interface.clone(),
                    data: slice_to_vec(ctx.wire_bytes),
                },
            ),
        }
    }
}

// --- Laws ---

/// A log in a configuration is one more sink, with the format that it was given.
pub proof fn logs_are_sinks(configs: Seq<OutputConfig>, config: OutputConfig)
    ensures
        configured_sinks(Seq::empty()).len() == 0,
        config matches OutputConfig::Log { format } ==> configured_sinks(configs.push(config))
            == configured_sinks(configs).push(SinkView::Log { format: format@ }),
{
    assert(configs.push(config).drop_last() =~= configs);
    assert(config is Log ==> config_sinks(config).len() == 1);
}

/// A reflection in a configuration is a sink for each of its interfaces, in order,
/// behind the sinks of the outputs before it.
pub proof fn reflections_are_sinks(configs: Seq<OutputConfig>, config: OutputConfig, i: int)
    ensures
        config matches OutputConfig::Reflect { interfaces } ==> {
            let before = configured_sinks(configs);
            let all = configured_sinks(configs.push(config));
            &&& all.len() == before.len() + interfaces@.len()
            &&& 0 <= i < before.len() ==> all[i] == before[i]
            &&& 0 <= i < interfaces@.len() ==> all[before.len() + i] == SinkView::Reflect(
                interfaces@[i]@,
            )
        },
{
    assert(configs.push(config).drop_last() =~= configs);
}

/// A log gets a line, and the line shows when, where and from whom the packet came
/// and how large it was, whatever the format of the log is called.
pub proof fn logs_get_lines(
    format: Seq<char>,
    event: EventView,
    message: MessageView,
    wire_bytes: Seq<u8>,
    line: Seq<char>,
)
    requires
        delivery(SinkView::Log { format }, event, message, wire_bytes) == DeliveryView::Line(line),
        event.data.len() <= usize::MAX,
    ensures
        text::contains_text(
            line,
            value::json_quoted("timestamp"@) + ":"@ + value::json_quoted(event.timestamp),
        ),
        text::contains_text(
            line,
            value::json_quoted("interface"@) + ":"@ + value::json_quoted(event.interface),
        ),
        text::contains_text(
            line,
            value::json_quoted("source"@) + ":"@ + value::json_quoted(
                receiver::socket_text(event.source),
            ),
        ),
        text::contains_text(
            line,
            value::json_quoted("packet_size"@) + ":"@ + text::decimal(event.data.len()),
        ),
        text::contains_text(
            line,
            value::json_quoted("message"@) + ":"@ + entry::message_text(
                dns_util::message_info(message),
            ),
        ),
{
    entry::log_lines_show_entries(event_entry(event, message));
}

/// Every log gets a line. Every interface that is reflected to gets the packet,
/// byte for byte, whatever was received and whatever message is in it.
pub proof fn sinks_get_what_they_take(
    sink: SinkView,
    event: EventView,
    message: MessageView,
    wire_bytes: Seq<u8>,
)
    ensures
        sink is Log ==> delivery(sink, event, message, wire_bytes) is Line,
        sink matches SinkView::Reflect(name) ==> delivery(sink, event, message, wire_bytes) == (
        DeliveryView::Packet { interface: name, data: wire_bytes }),
{
}

/// An entry holds what is known of the packet and what its message says.
pub proof fn entries_hold_what_was_received(event: EventView, message: MessageView)
    ensures
        event_entry(event, message).timestamp == event.timestamp,
        event_entry(event, message).interface == event.interface,
        event_entry(event, message).source == receiver::socket_text(event.source),
        event.data.len() <= usize::MAX ==> event_entry(event, message).packet_size
            == event.data.len(),
        event_entry(event, message).message == dns_util::message_info(message),
{
}

/// What a packet, a sink and a delivery hold is what is in their fields.
pub proof fn outputs_hold_their_fields(event: PacketEvent, sink: Sink, handed: Delivery)
    ensures
        event@.data == event.data@,
        event@.source == event.source,
        event@.interface == event.interface@,
        event@.timestamp == event.timestamp@,
        sink matches Sink::Log(log) ==> sink@ == (SinkView::Log { format: log.format@ }),
        sink matches Sink::Reflect(interface) ==> sink@ == SinkView::Reflect(interface@),
        handed matches Delivery::Line(line) ==> handed@ == DeliveryView::Line(line@),
        handed matches Delivery::Packet { interface, data } ==> handed@ == (DeliveryView::Packet {
            interface: interface@,
            data: data@,
        }),
{
}

} // verus!
