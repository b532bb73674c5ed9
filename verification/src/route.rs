//! Routes: input, filter, transforms, outputs.
use vstd::hash_set::StringHashSet;
use vstd::prelude::*;
use vstd::slice::slice_to_vec;

use crate::config::{RouteConfig, RouteFilterCondition, RouteFilterConfig, RouteFilterRule};
use crate::dns_util::{message_to_json, parse_message};
use crate::entry;
use crate::error::{Error, Fault};
use crate::filter::jq::CompiledJq;
use crate::filter::{
    self, Condition, ConditionView, ConfigView, EngineView, FilterConfig, FilterEngine, Rule,
    RuleView,
};
use crate::message::{DnsMessage, MessageView};
use crate::output::{
    self, build_outputs, Delivery, DeliveryView, EventView, OutputContext, Sink, SinkView,
};
use crate::receiver::{self, PacketEvent};
use crate::text::{self, chars_of};
use crate::transform::{self, build_chain, AnyTransform, TransformChain};
use crate::value::{self, Json, Value};
use crate::wire;

verus! {

/// A compiled route: input filter, transforms, outputs.
pub struct Route {
    pub name: String,
    pub input_interfaces: StringHashSet,
    pub filter: Option<FilterEngine>,
    pub transforms: TransformChain,
    pub outputs: Vec<Sink>,
}

/// What a route does.
pub struct RouteView {
    pub inputs: Set<Seq<char>>,
    pub filter: Option<EngineView>,
    pub transforms: Seq<AnyTransform>,
    pub outputs: Seq<SinkView>,
}

impl View for Route {
    type V = RouteView;

    open spec fn view(&self) -> RouteView {
        RouteView {
            inputs: self.input_interfaces@,
            filter: match self.filter {
                Some(engine) => Some(engine@),
                None => None,
            },
            transforms: self.transforms@,
            outputs: output::sink_views(self.outputs@),
        }
    }
}

// --- Building ---

/// What an embedded filter asks on its own.
pub open spec fn inline_view(rfc: RouteFilterConfig) -> ConfigView {
    ConfigView {
        mode: rfc.mode@,
        action: rfc.action@,
        rules: rfc.rule@.map_values(|r: RouteFilterRule| inline_rule(r)),
    }
}

/// What a rule of an embedded filter asks.
pub open spec fn inline_rule(rule: RouteFilterRule) -> RuleView {
    RuleView {
        negate: rule.negate,
        conditions: rule.condition@.map_values(|c: RouteFilterCondition| inline_condition(c)),
    }
}

/// What a condition of an embedded filter asks.
pub open spec fn inline_condition(condition: RouteFilterCondition) -> ConditionView {
    ConditionView {
        path: filter::path::path_steps(condition.path@),
        op: condition.op,
        value: condition.value@,
    }
}

/// The filters of a route: those of its chain of files, and its own if it has
/// rules.
pub open spec fn route_configs(
    rfc: RouteFilterConfig,
    chain: Seq<FilterConfig>,
) -> Seq<ConfigView> {
    if rfc.rule@.len() > 0 {
        filter::configs_view(chain).push(inline_view(rfc))
    } else {
        filter::configs_view(chain)
    }
}

/// A rule of an embedded filter, as one of a filter.
fn convert_rule(rule: &RouteFilterRule) -> (r: Rule)
    ensures
        r@ == inline_rule(*rule),
{
    let mut condition: Vec<Condition> = Vec::new();
    let mut i: usize = 0;
    while i < rule.condition.len()
        invariant
            i <= rule.condition@.len(),
            condition@.len() == i,
            forall|j: int|
                0 <= j < i ==> (#[trigger] condition@[j])@ == inline_condition(
                    rule.condition@[j],
                ),
        decreases rule.condition@.len() - i,
    {
        let c = &rule.condition[i];
        condition.push(Condition { path: c.path.clone(), op: c.op, value: c.value.copy() });
        i += 1;
    }
    let r = Rule { negate: rule.negate, condition };
    assert(r@.conditions =~= inline_rule(*rule).conditions);
    r
}

/// Convert RouteFilterConfig into what FilterEngine::build expects: the loaded
/// chain files first, then the rules of its own.
pub fn build_route_filter(rfc: &RouteFilterConfig, chain_configs: Vec<FilterConfig>) -> (r: Result<
    Option<FilterEngine>,
    Error,
>)
    ensures
        ({
            let configs = route_configs(*rfc, chain_configs@);
            let programs = text::views(rfc.jq@);
            match r {
                Ok(built) => {
                    &&& filter::build_fault(configs, programs) is None
                    &&& match built {
                        Some(engine) => configs.len() + programs.len() > 0 && engine@
                            == filter::engine_of(configs, programs),
                        None => configs.len() + programs.len() == 0,
                    }
                },
                Err(e) => filter::build_fault(configs, programs) == Some(e@),
            }
        }),
{
    let ghost chain = filter::configs_view(chain_configs@);
    let mut all_configs = chain_configs;
    if rfc.rule.len() > 0 {
        let mut rule: Vec<Rule> = Vec::new();
        let mut i: usize = 0;
        while i < rfc.rule.len()
            invariant
                i <= rfc.rule@.len(),
                rule@.len() == i,
                forall|j: int| 0 <= j < i ==> (#[trigger] rule@[j])@ == inline_rule(rfc.rule@[j]),
            decreases rfc.rule@.len() - i,
        {
            rule.push(convert_rule(&rfc.rule[i]));
            i += 1;
        }
        let inline_config = FilterConfig {
            chain: Vec::new(),
            mode: rfc.mode.clone(),
            action: rfc.action.clone(),
            rule,
        };
        assert(inline_config@.rules =~= inline_view(*rfc).rules);
        all_configs.push(inline_config);
        assert(filter::configs_view(all_configs@) =~= chain.push(inline_view(*rfc)));
    }
    FilterEngine::build(all_configs, rfc.jq.as_slice())
}

/// The set of some texts.
pub open spec fn text_set(texts: Seq<Seq<char>>) -> Set<Seq<char>> {
    Set::new(|t: Seq<char>| texts.contains(t))
}

/// The set of some names.
fn collect_names(names: &Vec<String>) -> (r: StringHashSet)
    ensures
        r@ == text_set(text::views(names@)),
{
    let mut set = StringHashSet::new();
    let ghost all = text::views(names@);
    let mut i: usize = 0;
    assert(set@ =~= text_set(all.take(0)));
    while i < names.len()
        invariant
            i <= names@.len(),
            all == text::views(names@),
            set@ == text_set(all.take(i as int)),
        decreases names@.len() - i,
    {
        let ghost before = set@;
        set.insert(names[i].clone());
        proof {
            let next = all.take(i + 1);
            let prev = all.take(i as int);
            assert(next =~= prev.push(all[i as int]));
            assert forall|t: Seq<char>| set@.contains(t) == #[trigger] text_set(next).contains(
                t,
            ) by {
                if prev.contains(t) {
                    let k = choose|k: int| 0 <= k < prev.len() && prev[k] == t;
                    assert(next[k] == t);
                }
                if next.contains(t) {
                    let k = choose|k: int| 0 <= k < next.len() && next[k] == t;
                    if k < i {
                        assert(prev[k] == t);
                    }
                }
                assert(next[i as int] == all[i as int]);
            }
            assert(set@ =~= text_set(next));
        }
        i += 1;
    }
    assert(all.take(i as int) =~= all);
    set
}

/// Why a route cannot be built, if so: the first fault of its filter, or else
/// of its transforms.
pub open spec fn route_fault(config: RouteConfig, chain: Seq<FilterConfig>) -> Option<Fault> {
    transform::first_fault(
        match config.filter {
            Some(rfc) => filter::build_fault(route_configs(rfc, chain), text::views(rfc.jq@)),
            None => None,
        },
        transform::transforms_fault(config.transform@),
    )
}

/// The filter of a route.
pub open spec fn route_filter(config: RouteConfig, chain: Seq<FilterConfig>) -> Option<EngineView> {
    match config.filter {
        Some(rfc) => {
            let configs = route_configs(rfc, chain);
            let programs = text::views(rfc.jq@);
            if configs.len() + programs.len() == 0 {
                None
            } else {
                Some(filter::engine_of(configs, programs))
            }
        },
        None => None,
    }
}

impl Route {
    /// Builds a route, given the filters that the files of its filter's chain
    /// hold.
    pub fn build(config: &RouteConfig, chain_configs: Vec<FilterConfig>) -> (r: Result<
        Route,
        Error,
    >)
        ensures
            match r {
                Ok(route) => {
                    &&& route_fault(*config, chain_configs@) is None
                    &&& route.name@ == config.name@
                    &&& route@.inputs == text_set(text::views(config.input@))
                    &&& route@.filter == route_filter(*config, chain_configs@)
                    &&& route@.transforms.len() == config.transform@.len()
                    &&& forall|i: int|
                        0 <= i < config.transform@.len() ==> transform::plan_of_transform(
                            #[trigger] route@.transforms[i],
                        ) == Some(transform::plan_of_config(config.transform@[i]))
                    &&& route@.outputs == output::configured_sinks(config.output@)
                },
                Err(e) => route_fault(*config, chain_configs@) == Some(e@),
            },
    {
        let input_interfaces = collect_names(&config.input);
        let filter = match &config.filter {
            Some(fc) => match build_route_filter(fc, chain_configs) {
                Ok(engine) => engine,
                Err(e) => {
                    return Err(e);
                },
            },
            None => None,
        };
        let transforms = match build_chain(config.transform.as_slice()) {
            Ok(chain) => chain,
            Err(e) => {
                return Err(e);
            },
        };
        let outputs = build_outputs(config.output.as_slice());
        Ok(Route { name: config.name.clone(), input_interfaces, filter, transforms, outputs })
    }
}

/// Build a route directly from components.
pub fn build_test_route(
    name: &str,
    input_interfaces: Vec<String>,
    filter: Option<FilterEngine>,
    transforms: TransformChain,
    outputs: Vec<Sink>,
) -> (r: Route)
    ensures
        r.name@ == name@,
        r@ == (RouteView {
            inputs: text_set(text::views(input_interfaces@)),
            filter: match filter {
                Some(engine) => Some(engine@),
                None => None,
            },
            transforms: transforms@,
            outputs: output::sink_views(outputs@),
        }),
{
    Route {
        name: name.to_owned(),
        input_interfaces: collect_names(&input_interfaces),
        filter,
        transforms,
        outputs,
    }
}

// --- Processing ---

/// The name of an interface without the part from its first colon on.
pub open spec fn base_name(interface: Seq<char>) -> Seq<char>
    decreases interface.len(),
{
    if interface.len() == 0 || interface[0] == ':' {
        Seq::empty()
    } else {
        seq![interface[0]] + base_name(interface.drop_first())
    }
}

/// A route takes packets from an interface, named in full or by its base name.
pub open spec fn listens(inputs: Set<Seq<char>>, interface: Seq<char>) -> bool {
    inputs.contains(base_name(interface)) || inputs.contains(interface)
}

/// A message without questions and records.
pub open spec fn has_no_content(message: MessageView) -> bool {
    &&& message.queries.len() == 0
    &&& message.answers.len() == 0
    &&& message.authorities.len() == 0
    &&& message.additionals.len() == 0
}

/// What became of a packet.
#[derive(Debug)]
pub enum Processed {
    /// It came from an interface that the route does not listen on.
    Ignored,
    /// It is no DNS message.
    Malformed,
    /// The filter did not admit it.
    Rejected,
    /// Its jq programs have to be asked about its entry, which has this JSON
    /// text.
    Undecided(String),
    /// A transform dropped it.
    Dropped,
    /// The transforms left nothing of it.
    Emptied,
    /// It goes to the outputs, in order.
    Delivered(Vec<Delivery>),
}

/// What became of a packet.
pub enum ProcessedView {
    Ignored,
    Malformed,
    Rejected,
    Undecided(Seq<char>),
    Dropped,
    Emptied,
    Delivered(Seq<DeliveryView>),
}

/// What some deliveries hold.
pub open spec fn delivery_views(deliveries: Seq<Delivery>) -> Seq<DeliveryView> {
    deliveries.map_values(|d: Delivery| d@)
}

impl View for Processed {
    type V = ProcessedView;

    open spec fn view(&self) -> ProcessedView {
        match self {
            Processed::Ignored => ProcessedView::Ignored,
            Processed::Malformed => ProcessedView::Malformed,
            Processed::Rejected => ProcessedView::Rejected,
            Processed::Undecided(text) => ProcessedView::Undecided(text@),
            Processed::Dropped => ProcessedView::Dropped,
            Processed::Emptied => ProcessedView::Emptied,
            Processed::Delivered(deliveries) => ProcessedView::Delivered(
                delivery_views(deliveries@),
            ),
        }
    }
}

/// What a result holds.
pub open spec fn result_view(result: Result<Processed, Error>) -> Result<ProcessedView, Fault> {
    match result {
        Ok(p) => Ok(p@),
        Err(e) => Err(e@),
    }
}

/// What each output is handed of a packet.
pub open spec fn deliveries(
    outputs: Seq<SinkView>,
    event: EventView,
    message: MessageView,
    wire_bytes: Seq<u8>,
) -> Seq<DeliveryView> {
    outputs.map_values(|sink: SinkView| output::delivery(sink, event, message, wire_bytes))
}

/// A packet that was written anew reads back as the message that the
/// transforms made of a message, with the targets of services in lower case, if
/// that is plain and nothing of it had to be left out.
pub open spec fn carries(route: RouteView, message: MessageView, delivery: DeliveryView) -> bool {
    let made = transform::chain_outcome(route.transforms, message).message;
    match delivery {
        DeliveryView::Packet { data, .. } => route.transforms.len() > 0 && wire::is_plain(made)
            && !wire::is_marked_truncated(data) ==> wire::wire_message(data) == Some(
            wire::counted(wire::lowered(made)),
        ),
        DeliveryView::Line(_) => true,
    }
}

/// What a route hands out of a packet carries the message in the packet.
pub open spec fn all_carry(
    route: RouteView,
    event: EventView,
    result: Result<Processed, Error>,
) -> bool {
    result matches Ok(Processed::Delivered(handed)) ==> {
        &&& wire::wire_message(event.data) is Some
        &&& forall|i: int|
            0 <= i < handed@.len() ==> carries(
                route,
                wire::wire_message(event.data)->0,
                (#[trigger] handed@[i])@,
            )
    }
}

/// What becomes of a message after the filter: the transforms are applied,
/// what they leave empty is dropped, and the rest goes to the outputs. Without
/// transforms the packet goes on byte for byte.
pub open spec fn emitted(
    route: RouteView,
    event: EventView,
    message: MessageView,
) -> Result<ProcessedView, Fault> {
    let outcome = transform::chain_outcome(route.transforms, message);
    match outcome.verdict {
        Err(fault) => Err(fault),
        Ok(go_on) => if !go_on {
            Ok(ProcessedView::Dropped)
        } else if route.transforms.len() == 0 {
            Ok(
                ProcessedView::Delivered(
                    deliveries(route.outputs, event, outcome.message, event.data),
                ),
            )
        } else if has_no_content(outcome.message) {
            Ok(ProcessedView::Emptied)
        } else {
            match wire::wire_packet(outcome.message) {
                Ok(packet) => Ok(
                    ProcessedView::Delivered(
                        deliveries(route.outputs, event, outcome.message, packet),
                    ),
                ),
                Err(text) => Err(Fault::Encoding(text)),
            }
        },
    }
}

/// The entry on which the filter of a route decides.
pub open spec fn filtered_entry(event: EventView, message: MessageView) -> Json {
    entry::entry_json(output::event_entry(event, message))
}

/// What the filter of a route decides on a message, given what its jq programs
/// said of the entry. Without a filter every message is admitted.
pub open spec fn decision(
    route_filter: Option<EngineView>,
    event: EventView,
    message: MessageView,
    verdicts: Seq<bool>,
) -> Option<bool> {
    match route_filter {
        None => Some(true),
        Some(engine) => filter::decision(engine, filtered_entry(event, message), verdicts),
    }
}

/// What becomes of a packet, given what the jq programs of the filter said of
/// its entry. The filter decides on a message from an interface that the route
/// listens on, and on nothing else.
pub open spec fn became(
    route: RouteView,
    event: EventView,
    verdicts: Seq<bool>,
) -> Result<ProcessedView, Fault> {
    if !listens(route.inputs, event.interface) {
        Ok(ProcessedView::Ignored)
    } else {
        match wire::wire_message(event.data) {
            None => Ok(ProcessedView::Malformed),
            Some(message) => match decision(route.filter, event, message, verdicts) {
                Some(true) => emitted(route, event, message),
                Some(false) => Ok(ProcessedView::Rejected),
                None => Ok(
                    ProcessedView::Undecided(value::json_text(filtered_entry(event, message))),
                ),
            },
        }
    }
}

/// The jq program of a route to ask next, given what the earlier ones said.
pub open spec fn to_ask(route: RouteView, verdicts: Seq<bool>) -> Option<Seq<char>> {
    match route.filter {
        Some(engine) => filter::to_ask(engine.jq, verdicts),
        None => None,
    }
}

/// The name of an interface without the part from its first colon on.
fn base_of(interface: &str) -> (r: String)
    ensures
        r@ == base_name(interface@),
{
    let chars = chars_of(interface);
    let mut i: usize = 0;
    assert(chars@.skip(0) =~= chars@);
    assert(chars@.take(0) + base_name(chars@) =~= base_name(chars@));
    while i < chars.len() && chars[i] != ':'
        invariant
            chars@ == interface@,
            i <= chars@.len(),
            base_name(interface@) == chars@.take(i as int) + base_name(chars@.skip(i as int)),
        decreases chars@.len() - i,
    {
        proof {
            let rest = chars@.skip(i as int);
            assert(rest[0] == chars@[i as int]);
            assert(rest.drop_first() =~= chars@.skip(i + 1));
            assert(chars@.take(i as int) + (seq![rest[0]] + base_name(chars@.skip(i + 1)))
                =~= chars@.take(i + 1) + base_name(chars@.skip(i + 1)));
        }
        i += 1;
    }
    proof {
        let rest = chars@.skip(i as int);
        assert(rest.len() > 0 ==> rest[0] == chars@[i as int]);
        assert(base_name(rest) =~= Seq::<char>::empty());
        assert(chars@.take(i as int) + base_name(rest) =~= chars@.subrange(0, i as int));
    }
    interface.substring_char(0, i).to_owned()
}

/// The entry on which the filter decides.
fn filtered(event: &PacketEvent, msg: &DnsMessage) -> (r: Value)
    ensures
        r@ == filtered_entry(event@, msg@),
        value::value_text(r) == value::json_text(r@),
{
    let log_entry = message_to_json(
        msg,
        event.interface.as_str(),
        event.source.text().as_str(),
        event.data.len(),
        event.timestamp.as_str(),
    );
    let json_entry = log_entry.to_value();
    proof {
        entry::lemma_entry_float_free(log_entry@);
        value::lemma_value_text(json_entry);
    }
    json_entry
}

impl Route {
    /// Whether the route takes packets from an interface.
    pub fn listens_on(&self, interface: &str) -> (r: bool)
        ensures
            r == listens(self@.inputs, interface@),
    {
        let base = base_of(interface);
        self.input_interfaces.contains(base.as_str()) || self.input_interfaces.contains(interface)
    }

    /// The jq program of the filter to ask next, given what the earlier ones
    /// said.
    pub fn next_program(&self, verdicts: &[bool]) -> (r: Option<&CompiledJq>)
        ensures
            match r {
                Some(program) => to_ask(self@, verdicts@) == Some(program@),
                None => to_ask(self@, verdicts@) is None,
            },
    {
        match &self.filter {
            Some(engine) => engine.next_program(verdicts),
            None => None,
        }
    }

    /// What becomes of a message after the filter.
    pub fn emit(&self, event: &PacketEvent, message: DnsMessage) -> (r: Result<Processed, Error>)
        ensures
            result_view(r) == emitted(self@, event@, message@),
            r matches Ok(Processed::Delivered(handed)) ==> forall|i: int|
                0 <= i < handed@.len() ==> carries(self@, message@, (#[trigger] handed@[i])@),
    {
        let mut msg = message;
        match self.transforms.apply(&mut msg) {
            Ok(true) => {},
            Ok(false) => {
                return Ok(Processed::Dropped);
            },
            Err(e) => {
                return Err(e);
            },
        }
        // Transforms may have stripped all content.
        if !self.transforms.is_empty() && msg.queries.len() == 0 && msg.answers.len() == 0
            && msg.authorities.len() == 0 && msg.additionals.len() == 0 {
            return Ok(Processed::Emptied);
        }
        let wire_bytes = if self.transforms.is_empty() {
            slice_to_vec(event.data.as_slice())
        } else {
            match wire::encode(&msg) {
                Ok(packet) => packet,
                Err(e) => {
                    return Err(e);
                },
            }
        };
        let ctx = OutputContext { event, msg: &msg, wire_bytes: wire_bytes.as_slice() };
        let mut handed: Vec<Delivery> = Vec::new();
        let mut i: usize = 0;
        while i < self.outputs.len()
            invariant
                i <= self.outputs@.len(),
                handed@.len() == i,
                forall|j: int|
                    0 <= j < i ==> (#[trigger] handed@[j])@ == output::delivery(
                        self.outputs@[j]@,
                        ctx.event@,
                        ctx.msg@,
                        ctx.wire_bytes@,
                    ),
            decreases self.outputs@.len() - i,
        {
            match self.outputs[i].deliver(&ctx) {
                Ok(delivery) => handed.push(delivery),
                Err(e) => {
                    return Err(e);
                },
            }
            i += 1;
        }
        proof {
            assert(delivery_views(handed@) =~= deliveries(
                self@.outputs,
                event@,
                msg@,
                wire_bytes@,
            ));
        }
        Ok(Processed::Delivered(handed))
    }

    /// Process a received packet through this route's pipeline. Where the filter
    /// has jq programs that have to be asked, the packet stays undecided.
    pub fn process(&self, event: &PacketEvent) -> (r: Result<Processed, Error>)
        ensures
            result_view(r) == became(self@, event@, Seq::empty()),
            all_carry(self@, event@, r),
    {
        self.conclude(event, &[])
    }

    /// What becomes of a received packet, given what the jq programs of the
    /// filter said of its entry.
    pub fn conclude(&self, event: &PacketEvent, verdicts: &[bool]) -> (r: Result<Processed, Error>)
        ensures
            result_view(r) == became(self@, event@, verdicts@),
            all_carry(self@, event@, r),
    {
        if !self.listens_on(event.interface.as_str()) {
            return Ok(Processed::Ignored);
        }
        let msg = match parse_message(event.data.as_slice()) {
            Ok(m) => m,
            Err(_) => {
                return Ok(Processed::Malformed);
            },
        };
        if let Some(engine) = &self.filter {
            let json_entry = filtered(event, &msg);
            match engine.decide(&json_entry, verdicts) {
                Some(true) => {},
                Some(false) => {
                    return Ok(Processed::Rejected);
                },
                None => {
                    return Ok(Processed::Undecided(json_entry.text()));
                },
            }
        }
        self.emit(event, msg)
    }
}

// --- Laws ---

/// A route with an interface among its inputs takes the packets from that
/// interface, over either version of IP, under whatever label they come. The
/// name may have no colon of its own.
pub proof fn labels_reach_their_route(inputs: Set<Seq<char>>, name: Seq<char>, ipv6: bool)
    requires
        inputs.contains(name),
        !name.contains(':'),
    ensures
        listens(inputs, receiver::interface_label(name, ipv6)),
{
    let suffix = if ipv6 {
        ":v6"@
    } else {
        ":v4"@
    };
    reveal_strlit(":v4");
    reveal_strlit(":v6");
    assert(suffix[0] == ':');
    lemma_base_name(name, suffix);
}

proof fn lemma_base_name(name: Seq<char>, suffix: Seq<char>)
    requires
        !name.contains(':'),
        suffix.len() > 0,
        suffix[0] == ':',
    ensures
        base_name(name + suffix) == name,
    decreases name.len(),
{
    if name.len() == 0 {
        assert(name + suffix =~= suffix);
        assert(base_name(suffix) =~= name);
    } else {
        let rest = name.drop_first();
        assert(name.contains(name[0]));
        assert forall|c: char| rest.contains(c) implies name.contains(c) by {
            let i = choose|i: int| 0 <= i < rest.len() && rest[i] == c;
            assert(name[i + 1] == c);
        }
        lemma_base_name(rest, suffix);
        assert((name + suffix).drop_first() =~= rest + suffix);
        assert((name + suffix)[0] == name[0]);
        assert(seq![name[0]] + rest =~= name);
    }
}

/// An interface under its plain name reaches a route that has that name among
/// its inputs.
pub proof fn full_names_reach_their_route(inputs: Set<Seq<char>>, interface: Seq<char>)
    requires
        inputs.contains(interface),
    ensures
        listens(inputs, interface),
{
}

/// Without transforms a packet is reflected byte for byte.
pub proof fn untransformed_packets_keep_their_bytes(
    route: RouteView,
    event: EventView,
    message: MessageView,
    i: int,
)
    requires
        route.transforms.len() == 0,
        0 <= i < route.outputs.len(),
        route.outputs[i] is Reflect,
    ensures
        emitted(route, event, message) is Ok,
        emitted(route, event, message)->Ok_0 is Delivered,
        emitted(route, event, message)->Ok_0->Delivered_0[i] == (DeliveryView::Packet {
            interface: route.outputs[i]->Reflect_0,
            data: event.data,
        }),
{
}

/// A packet of which the transforms leave neither questions nor records goes
/// nowhere.
pub proof fn emptied_packets_are_dropped(route: RouteView, event: EventView, message: MessageView)
    requires
        route.transforms.len() > 0,
        transform::chain_outcome(route.transforms, message).verdict == Ok::<bool, Fault>(true),
        has_no_content(transform::chain_outcome(route.transforms, message).message),
    ensures
        emitted(route, event, message) == Ok::<ProcessedView, Fault>(ProcessedView::Emptied),
{
}

/// A packet that goes to the outputs goes to every one of them, in order, and
/// they all show the message that the transforms made of it.
pub proof fn every_output_is_served(
    route: RouteView,
    event: EventView,
    message: MessageView,
    handed: Seq<DeliveryView>,
)
    requires
        emitted(route, event, message) == Ok::<ProcessedView, Fault>(
            ProcessedView::Delivered(handed),
        ),
    ensures
        handed.len() == route.outputs.len(),
        forall|i: int|
            0 <= i < handed.len() ==> match route.outputs[i] {
                SinkView::Log { .. } => #[trigger] handed[i] == DeliveryView::Line(
                    entry::entry_text(
                        output::event_entry(
                            event,
                            transform::chain_outcome(route.transforms, message).message,
                        ),
                    ),
                ),
                SinkView::Reflect(interface) => handed[i] is Packet && handed[i]->interface
                    == interface,
            },
        forall|i: int, j: int|
            0 <= i < handed.len() && 0 <= j < handed.len() && #[trigger] handed[i] is Packet
                && #[trigger] handed[j] is Packet ==> handed[i]->data == handed[j]->data,
{
}

/// What the filter does not admit reaches no output.
pub proof fn rejected_packets_reach_no_output(
    route: RouteView,
    event: EventView,
    verdicts: Seq<bool>,
)
    requires
        wire::wire_message(event.data) is Some,
        decision(route.filter, event, wire::wire_message(event.data)->0, verdicts) != Some(true),
    ensures
        became(route, event, verdicts) is Ok,
        !(became(route, event, verdicts)->Ok_0 is Delivered),
{
}

/// Without a filter, or with one that has no jq program, no packet stays
/// undecided.
pub proof fn routes_without_jq_are_decided(
    route: RouteView,
    event: EventView,
    verdicts: Seq<bool>,
)
    requires
        route.filter is Some ==> route.filter->0.jq.len() == 0,
    ensures
        became(route, event, verdicts) is Ok ==> !(became(route, event, verdicts)->Ok_0
            is Undecided),
{
}

/// A packet stays undecided only where there is a jq program to ask.
pub proof fn undecided_packets_have_a_program_to_ask(
    route: RouteView,
    event: EventView,
    verdicts: Seq<bool>,
)
    requires
        became(route, event, verdicts) is Ok,
        became(route, event, verdicts)->Ok_0 is Undecided,
    ensures
        to_ask(route, verdicts) is Some,
{
}

/// Once the jq programs were asked in turn, a message that the route listens to
/// goes on exactly when the filter admits its entry.
pub proof fn answers_decide_packets(
    route: RouteView,
    event: EventView,
    message: MessageView,
    says: spec_fn(Seq<char>) -> bool,
    verdicts: Seq<bool>,
)
    requires
        listens(route.inputs, event.interface),
        wire::wire_message(event.data) == Some(message),
        route.filter is Some,
        filter::are_answers(route.filter->0.jq, says, verdicts),
    ensures
        became(route, event, verdicts) == if filter::admits(
            route.filter->0,
            filtered_entry(event, message),
            says,
        ) {
            emitted(route, event, message)
        } else {
            Ok(ProcessedView::Rejected)
        },
{
    filter::answers_decide(route.filter->0, filtered_entry(event, message), says, verdicts);
}

/// The part of an interface's name from its first colon on makes no difference to
/// a route that has the name before it among its inputs. A name without a colon
/// reaches just the routes that have it among their inputs.
pub proof fn routes_listen_to_their_inputs(
    inputs: Set<Seq<char>>,
    name: Seq<char>,
    rest: Seq<char>,
)
    requires
        !name.contains(':'),
    ensures
        listens(inputs, name) <==> inputs.contains(name),
        listens(inputs, name + ":"@ + rest) <==> inputs.contains(name) || inputs.contains(
            name + ":"@ + rest,
        ),
{
    reveal_strlit(":");
    lemma_base_name(name, ":"@ + rest);
    assert(name + ":"@ + rest =~= name + (":"@ + rest));
    lemma_base_name_whole(name);
}

proof fn lemma_base_name_whole(name: Seq<char>)
    requires
        !name.contains(':'),
    ensures
        base_name(name) == name,
    decreases name.len(),
{
    if name.len() == 0 {
        assert(base_name(name) =~= name);
    } else {
        let rest = name.drop_first();
        assert(name.contains(name[0]));
        assert forall|c: char| rest.contains(c) implies name.contains(c) by {
            let i = choose|i: int| 0 <= i < rest.len() && rest[i] == c;
            assert(name[i + 1] == c);
        }
        lemma_base_name_whole(rest);
        assert(seq![name[0]] + rest =~= name);
    }
}

/// The inputs of a route are the names that it is given, and no others.
pub proof fn inputs_are_the_given_names(names: Seq<Seq<char>>, name: Seq<char>)
    ensures
        text_set(names).contains(name) <==> exists|i: int|
            0 <= i < names.len() && #[trigger] names[i] == name,
{
    if names.contains(name) {
        let i = choose|i: int| 0 <= i < names.len() && names[i] == name;
        assert(names[i] == name);
    }
}

/// A packet is ignored exactly when it comes from an interface that the route does
/// not listen on, whatever is in it.
pub proof fn foreign_interfaces_are_ignored(
    route: RouteView,
    event: EventView,
    verdicts: Seq<bool>,
)
    ensures
        !route.inputs.contains(event.interface) && !route.inputs.contains(
            base_name(event.interface),
        ) ==> became(route, event, verdicts) == Ok::<ProcessedView, Fault>(ProcessedView::Ignored),
        became(route, event, verdicts) == Ok::<ProcessedView, Fault>(ProcessedView::Ignored)
            ==> !route.inputs.contains(event.interface) && !route.inputs.contains(
            base_name(event.interface),
        ),
{
}

/// What is no DNS message gets no further on a route that listens for it, whatever
/// its filter and its transforms are.
pub proof fn malformed_packets_stop(route: RouteView, event: EventView, verdicts: Seq<bool>)
    requires
        listens(route.inputs, event.interface),
        wire::wire_message(event.data) is None,
    ensures
        became(route, event, verdicts) == Ok::<ProcessedView, Fault>(ProcessedView::Malformed),
{
}

/// On a route without a filter every message that it listens for goes on.
pub proof fn routes_without_a_filter_refuse_nothing(
    route: RouteView,
    event: EventView,
    message: MessageView,
    verdicts: Seq<bool>,
)
    requires
        listens(route.inputs, event.interface),
        wire::wire_message(event.data) == Some(message),
        route.filter is None,
    ensures
        became(route, event, verdicts) == emitted(route, event, message),
        route.transforms.len() == 0 ==> became(route, event, verdicts) is Ok && became(
            route,
            event,
            verdicts,
        )->Ok_0 is Delivered,
{
}

/// On a route with a filter a message goes on, is rejected or stays undecided as
/// the filter says of its entry. What stays undecided hands out the text of the
/// entry.
pub proof fn filters_decide_on_routes(
    route: RouteView,
    engine: EngineView,
    event: EventView,
    message: MessageView,
    verdicts: Seq<bool>,
)
    requires
        listens(route.inputs, event.interface),
        wire::wire_message(event.data) == Some(message),
        route.filter == Some(engine),
    ensures
        ({
            let entry = entry::entry_json(output::event_entry(event, message));
            let said = filter::decision(engine, entry, verdicts);
            &&& said == Some(true) ==> became(route, event, verdicts) == emitted(
                route,
                event,
                message,
            )
            &&& said == Some(false) ==> became(route, event, verdicts) == Ok::<
                ProcessedView,
                Fault,
            >(ProcessedView::Rejected)
            &&& said is None ==> became(route, event, verdicts) == Ok::<ProcessedView, Fault>(
                ProcessedView::Undecided(value::json_text(entry)),
            )
        }),
{
}

/// What a transform refuses fails with its fault, what one drops is dropped, and
/// what cannot be written as a packet fails with the reason.
pub proof fn transforms_stop_packets(route: RouteView, event: EventView, message: MessageView)
    ensures
        ({
            let outcome = transform::chain_outcome(route.transforms, message);
            &&& outcome.verdict matches Err(fault) ==> emitted(route, event, message) == Err::<
                ProcessedView,
                Fault,
            >(fault)
            &&& outcome.verdict == Ok::<bool, Fault>(false) ==> emitted(route, event, message)
                == Ok::<ProcessedView, Fault>(ProcessedView::Dropped)
            &&& outcome.verdict == Ok::<bool, Fault>(true) && route.transforms.len() > 0 && (
            outcome.message.queries.len() > 0 || outcome.message.answers.len() > 0
                || outcome.message.authorities.len() > 0 || outcome.message.additionals.len() > 0)
                ==> match wire::wire_packet(outcome.message) {
                Ok(_) => emitted(route, event, message) is Ok && emitted(
                    route,
                    event,
                    message,
                )->Ok_0 is Delivered,
                Err(reason) => emitted(route, event, message) == Err::<ProcessedView, Fault>(
                    Fault::Encoding(reason),
                ),
            }
        }),
{
}

/// After transforms every interface that is reflected to gets the packet that
/// holds the message that the transforms made, and not the one that was received.
pub proof fn transformed_packets_are_written_anew(
    route: RouteView,
    event: EventView,
    message: MessageView,
    handed: Seq<DeliveryView>,
    i: int,
)
    requires
        route.transforms.len() > 0,
        emitted(route, event, message) == Ok::<ProcessedView, Fault>(
            ProcessedView::Delivered(handed),
        ),
        0 <= i < route.outputs.len(),
    ensures
        route.outputs[i] matches SinkView::Reflect(interface) ==> handed[i] is Packet
            && handed[i]->interface == interface && Ok::<Seq<u8>, Seq<char>>(handed[i]->data)
            == wire::wire_packet(transform::chain_outcome(route.transforms, message).message),
{
}

/// A packet is emptied only where the route has transforms and they leave neither
/// questions nor records.
pub proof fn only_transforms_empty_packets(
    route: RouteView,
    event: EventView,
    message: MessageView,
)
    requires
        emitted(route, event, message) == Ok::<ProcessedView, Fault>(ProcessedView::Emptied),
    ensures
        route.transforms.len() > 0,
        transform::chain_outcome(route.transforms, message).message.queries.len() == 0,
        transform::chain_outcome(route.transforms, message).message.answers.len() == 0,
        transform::chain_outcome(route.transforms, message).message.authorities.len() == 0,
        transform::chain_outcome(route.transforms, message).message.additionals.len() == 0,
{
}

/// The filter of a route asks what the files of its chain ask, in order, and then,
/// if it has rules, what these ask, with its own mode and action. The path, the
/// operator and the value of each condition are as they are written.
pub proof fn embedded_filters_ask_what_is_written(
    rfc: RouteFilterConfig,
    chain: Seq<FilterConfig>,
    i: int,
    j: int,
)
    ensures
        ({
            let configs = route_configs(rfc, chain);
            &&& 0 <= i < chain.len() ==> i < configs.len() && configs[i] == chain[i]@
            &&& rfc.rule@.len() == 0 ==> configs.len() == chain.len()
            &&& rfc.rule@.len() > 0 ==> {
                let own = configs[chain.len() as int];
                &&& configs.len() == chain.len() + 1
                &&& own.mode == rfc.mode@
                &&& own.action == rfc.action@
                &&& own.rules.len() == rfc.rule@.len()
                &&& 0 <= i < rfc.rule@.len() ==> {
                    &&& own.rules[i].negate == rfc.rule@[i].negate
                    &&& own.rules[i].conditions.len() == rfc.rule@[i].condition@.len()
                    &&& 0 <= j < rfc.rule@[i].condition@.len() ==> {
                        let asked = own.rules[i].conditions[j];
                        let written = rfc.rule@[i].condition@[j];
                        &&& asked.path == filter::path::path_steps(written.path@)
                        &&& asked.op == written.op
                        &&& asked.value == written.value@
                    }
                }
            }
        }),
{
}

/// A route has a filter exactly when its configuration has one that asks something:
/// a file in its chain, a rule or a jq program.
pub proof fn empty_filters_are_no_filters(config: RouteConfig, chain: Seq<FilterConfig>)
    ensures
        config.filter is None ==> route_filter(config, chain) is None,
        config.filter matches Some(rfc) ==> (route_filter(config, chain) is None <==> (chain.len()
            == 0 && rfc.rule@.len() == 0 && rfc.jq@.len() == 0)),
        config.filter matches Some(rfc) ==> route_filter(config, chain) matches Some(engine)
            ==> engine == filter::engine_of(route_configs(rfc, chain), text::views(rfc.jq@)),
{
}

/// A route is refused for its filter first, and for its transforms only where
/// nothing is wrong with that. It is built where nothing is wrong with either.
pub proof fn filters_are_faulted_first(config: RouteConfig, chain: Seq<FilterConfig>)
    ensures
        config.filter is None ==> route_fault(config, chain) == transform::transforms_fault(
            config.transform@,
        ),
        config.filter matches Some(rfc) ==> {
            let wrong = filter::build_fault(route_configs(rfc, chain), text::views(rfc.jq@));
            &&& wrong is Some ==> route_fault(config, chain) == wrong
            &&& wrong is None ==> route_fault(config, chain) == transform::transforms_fault(
                config.transform@,
            )
        },
{
}

/// A route asks the jq programs of its filter, and none where it has no filter.
pub proof fn routes_ask_their_filter(route: RouteView, verdicts: Seq<bool>)
    ensures
        route.filter is None ==> to_ask(route, verdicts) is None,
        route.filter matches Some(engine) ==> to_ask(route, verdicts) == filter::to_ask(
            engine.jq,
            verdicts,
        ),
{
}

/// What became of a packet is told apart, and what is handed out is told in full.
pub proof fn outcomes_are_told_apart(processed: Processed, i: int)
    ensures
        processed is Ignored <==> processed@ is Ignored,
        processed is Malformed <==> processed@ is Malformed,
        processed is Rejected <==> processed@ is Rejected,
        processed is Dropped <==> processed@ is Dropped,
        processed is Emptied <==> processed@ is Emptied,
        processed matches Processed::Undecided(text) ==> processed@ == ProcessedView::Undecided(
            text@,
        ),
        processed matches Processed::Delivered(handed) ==> {
            &&& processed@ is Delivered
            &&& processed@->Delivered_0.len() == handed@.len()
            &&& 0 <= i < handed@.len() ==> processed@->Delivered_0[i] == handed@[i]@
        },
{
}

/// A route does what is in its fields.
pub proof fn routes_do_what_is_in_them(route: Route, i: int)
    ensures
        route@.inputs == route.input_interfaces@,
        route.filter is None <==> route@.filter is None,
        route.filter matches Some(engine) ==> route@.filter == Some(engine@),
        route@.transforms == route.transforms@,
        route@.outputs.len() == route.outputs@.len(),
        0 <= i < route.outputs@.len() ==> route@.outputs[i] == route.outputs@[i]@,
{
}

/// A result is what became of the packet, or the error.
pub proof fn results_are_told_in_full(result: Result<Processed, Error>)
    ensures
        result matches Ok(processed) ==> result_view(result) == Ok::<ProcessedView, Fault>(
            processed@,
        ),
        result matches Err(e) ==> result_view(result) == Err::<ProcessedView, Fault>(e@),
{
}

} // verus!
