//! The configuration of routes.
use vstd::prelude::*;

use crate::filter::ops::Op;
use crate::text::{self, same_text};
use crate::value::Value;

verus! {

/// A configuration: routes, each from its inputs to its outputs.
pub struct Config {
    pub route: Vec<RouteConfig>,
}

/// The configuration of a route.
pub struct RouteConfig {
    pub name: String,
    /// Input interfaces to listen on
    pub input: Vec<String>,
    /// Filter configuration (same as standalone filter files)
    pub filter: Option<RouteFilterConfig>,
    /// Transform chain (applied in order)
    pub transform: Vec<TransformConfig>,
    /// Output sinks
    pub output: Vec<OutputConfig>,
}

/// Filter config embedded in a route. It mirrors that of standalone files,
/// but also supports jq expressions inline.
pub struct RouteFilterConfig {
    pub chain: Vec<String>,
    pub mode: String,
    pub action: String,
    pub jq: Vec<String>,
    pub rule: Vec<RouteFilterRule>,
}

/// A rule of a filter that is embedded in a route.
pub struct RouteFilterRule {
    pub name: Option<String>,
    pub negate: bool,
    pub condition: Vec<RouteFilterCondition>,
}

/// A condition of a filter that is embedded in a route.
pub struct RouteFilterCondition {
    pub path: String,
    pub op: Op,
    pub value: Value,
}

/// The configuration of a transform.
#[derive(Debug)]
#[allow(inconsistent_fields)]
pub enum TransformConfig {
    RemoveRecords {
        /// "answers", "authorities", "additionals", or "all"
        section: String,
        /// Filter by record type (e.g., "AAAA")
        record_type: Option<String>,
        /// Regex on record name
        match_name: Option<String>,
        /// Regex on rdata string representation
        match_rdata: Option<String>,
    },
    SetTtl { section: String, value: u32, record_type: Option<String> },
    RemoveServices {
        /// Regex on service name
        match_name: String,
    },
}

/// The configuration of an output.
#[derive(Debug)]
pub enum OutputConfig {
    Reflect { interfaces: Vec<String> },
    Log { format: String },
}

/// The mode of a filter that names none.
pub fn default_mode() -> (r: String)
    ensures
        r@ == "any"@,
{
    "any".to_owned()
}

/// The action of a filter that names none.
pub fn default_action() -> (r: String)
    ensures
        r@ == "show"@,
{
    "show".to_owned()
}

/// The section of a transform that names none.
pub fn default_section_all() -> (r: String)
    ensures
        r@ == "all"@,
{
    "all".to_owned()
}

/// The format of a log output that names none.
pub fn default_log_format() -> (r: String)
    ensures
        r@ == "json"@,
{
    "json".to_owned()
}

/// The input interfaces of some routes, route by route.
pub open spec fn inputs(routes: Seq<RouteConfig>) -> Seq<Seq<char>>
    decreases routes.len(),
{
    if routes.len() == 0 {
        Seq::empty()
    } else {
        inputs(routes.drop_last()) + text::views(routes.last().input@)
    }
}

/// The texts in the order in which they first occur, each once.
pub open spec fn distinct(texts: Seq<Seq<char>>) -> Seq<Seq<char>>
    decreases texts.len(),
{
    if texts.len() == 0 {
        Seq::empty()
    } else {
        let before = distinct(texts.drop_last());
        if before.contains(texts.last()) {
            before
        } else {
            before.push(texts.last())
        }
    }
}

/// Whether some text is among some strings.
pub(crate) fn is_listed(strings: &Vec<String>, wanted: &str) -> (r: bool)
    ensures
        r == text::views(strings@).contains(wanted@),
{
    let ghost all = text::views(strings@);
    let mut i: usize = 0;
    while i < strings.len()
        invariant
            i <= strings@.len(),
            all == text::views(strings@),
            forall|j: int| 0 <= j < i ==> #[trigger] all[j] != wanted@,
        decreases strings@.len() - i,
    {
        assert(all[i as int] == strings@[i as int]@);
        if same_text(strings[i].as_str(), wanted) {
            return true;
        }
        i += 1;
    }
    false
}

impl Config {
    /// Collect all unique interface names referenced as inputs across all routes.
    pub fn all_input_interfaces(&self) -> (r: Vec<String>)
        ensures
            text::views(r@) == distinct(inputs(self.route@)),
    {
        let mut result: Vec<String> = Vec::new();
        let ghost mut seen: Seq<Seq<char>> = Seq::empty();
        let mut i: usize = 0;
        assert(text::views(result@) =~= distinct(seen));
        while i < self.route.len()
            invariant
                i <= self.route@.len(),
                seen == inputs(self.route@.take(i as int)),
                text::views(result@) == distinct(seen),
            decreases self.route@.len() - i,
        {
            let names = &self.route[i].input;
            let ghost before = seen;
            let ghost more = text::views(names@);
            let mut k: usize = 0;
            assert(before + more.take(0) =~= before);
            while k < names.len()
                invariant
                    k <= names@.len(),
                    more == text::views(names@),
                    seen == before + more.take(k as int),
                    text::views(result@) == distinct(seen),
                decreases names@.len() - k,
            {
                let ghost next = seen.push(more[k as int]);
                proof {
                    assert(next.drop_last() =~= seen);
                    assert(more.take(k + 1) =~= more.take(k as int).push(more[k as int]));
                    assert(next =~= before + more.take(k + 1));
                }
                if !is_listed(&result, names[k].as_str()) {
                    let ghost so_far = text::views(result@);
                    result.push(names[k].clone());
                    assert(text::views(result@) =~= so_far.push(more[k as int]));
                }
                proof {
                    seen = next;
                }
                k += 1;
            }
            proof {
                assert(more.take(k as int) =~= more);
                assert(self.route@.take(i + 1).drop_last() =~= self.route@.take(i as int));
                assert(self.route@.take(i + 1).last() == self.route@[i as int]);
            }
            i += 1;
        }
        assert(self.route@.take(i as int) =~= self.route@);
        result
    }
}

/// Some output of some route reflects.
pub open spec fn reflects(config: Config) -> bool {
    exists|i: int, j: int|
        0 <= i < config.route@.len() && 0 <= j < config.route@[i].output@.len()
            && #[trigger] config.route@[i].output@[j] is Reflect
}

/// Check if any route has a reflect output (for loop prevention).
pub fn has_reflect_output(cfg: &Config) -> (r: bool)
    ensures
        r == reflects(*cfg),
        r == exists|i: int, j: int|
            0 <= i < cfg.route@.len() && 0 <= j < cfg.route@[i].output@.len()
                && #[trigger] cfg.route@[i].output@[j] is Reflect,
{
    let mut i: usize = 0;
    while i < cfg.route.len()
        invariant
            i <= cfg.route@.len(),
            forall|a: int, b: int|
                0 <= a < i && 0 <= b < cfg.route@[a].output@.len()
                    ==> !(#[trigger] cfg.route@[a].output@[b] is Reflect),
        decreases cfg.route@.len() - i,
    {
        let outputs = &cfg.route[i].output;
        let mut j: usize = 0;
        while j < outputs.len()
            invariant
                i < cfg.route@.len(),
                *outputs == cfg.route@[i as int].output,
                j <= outputs@.len(),
                forall|b: int|
                    0 <= b < j ==> !(#[trigger] cfg.route@[i as int].output@[b] is Reflect),
            decreases outputs@.len() - j,
        {
            if matches!(outputs[j], OutputConfig::Reflect { .. }) {
                assert(cfg.route@[i as int].output@[j as int] is Reflect);
                return true;
            }
            j += 1;
        }
        i += 1;
    }
    false
}

/// The collected input interfaces hold each input of each route, and nothing
/// twice.
pub proof fn interfaces_are_collected_once(texts: Seq<Seq<char>>)
    ensures
        distinct(texts).no_duplicates(),
        forall|t: Seq<char>| #[trigger] distinct(texts).contains(t) <==> texts.contains(t),
    decreases texts.len(),
{
    if texts.len() > 0 {
        let init = texts.drop_last();
        let last = texts.last();
        interfaces_are_collected_once(init);
        let before = distinct(init);
        let all = distinct(texts);
        assert forall|t: Seq<char>| #[trigger] all.contains(t) implies texts.contains(t) by {
            let i = choose|i: int| 0 <= i < all.len() && all[i] == t;
            if i < before.len() {
                assert(before[i] == t);
                assert(before.contains(t));
                let k = choose|k: int| 0 <= k < init.len() && init[k] == t;
                assert(texts[k] == t);
            } else {
                assert(texts[texts.len() - 1] == t);
            }
        }
        assert forall|t: Seq<char>| texts.contains(t) implies #[trigger] all.contains(t) by {
            let k = choose|k: int| 0 <= k < texts.len() && texts[k] == t;
            if k < init.len() {
                assert(init[k] == t);
                assert(before.contains(t));
                let i = choose|i: int| 0 <= i < before.len() && before[i] == t;
                assert(all[i] == t);
            } else if before.contains(last) {
            } else {
                assert(all[all.len() - 1] == t);
            }
        }
        if !before.contains(last) {
            assert forall|i: int, j: int|
                0 <= i < all.len() && 0 <= j < all.len() && i != j implies all[i] != all[j] by {
                if i == before.len() {
                    assert(before.contains(before[j]));
                } else if j == before.len() {
                    assert(before.contains(before[i]));
                }
            }
        }
    }
}

/// A configuration reflects as soon as one output of one of its routes does,
/// whichever it is, and not otherwise.
pub proof fn one_reflecting_output_suffices(config: Config)
    ensures
        forall|i: int, j: int|
            0 <= i < config.route@.len() && 0 <= j < config.route@[i].output@.len()
                && #[trigger] config.route@[i].output@[j] is Reflect ==> reflects(config),
        (forall|i: int, j: int|
            0 <= i < config.route@.len() && 0 <= j < config.route@[i].output@.len()
                ==> !(#[trigger] config.route@[i].output@[j] is Reflect)) ==> !reflects(config),
{
}

/// A further route never turns reflection off, and turns it on exactly where one
/// of its own outputs reflects.
pub proof fn further_routes_keep_reflecting(config: Config, longer: Config, route: RouteConfig)
    requires
        longer.route@ == config.route@.push(route),
    ensures
        reflects(longer) == (reflects(config) || exists|j: int|
            0 <= j < route.output@.len() && #[trigger] route.output@[j] is Reflect),
{
    let n = config.route@.len();
    assert(longer.route@[n as int] == route);
    if reflects(config) {
        let (i, j) = choose|i: int, j: int|
            0 <= i < config.route@.len() && 0 <= j < config.route@[i].output@.len()
                && #[trigger] config.route@[i].output@[j] is Reflect;
        assert(longer.route@[i].output@[j] is Reflect);
    }
    if exists|j: int| 0 <= j < route.output@.len() && #[trigger] route.output@[j] is Reflect {
        let j = choose|j: int| 0 <= j < route.output@.len() && #[trigger] route.output@[j] is Reflect;
        assert(longer.route@[n as int].output@[j] is Reflect);
    }
    if reflects(longer) {
        let (i, j) = choose|i: int, j: int|
            0 <= i < longer.route@.len() && 0 <= j < longer.route@[i].output@.len()
                && #[trigger] longer.route@[i].output@[j] is Reflect;
        if i < n {
            assert(config.route@[i].output@[j] is Reflect);
        } else {
            assert(route.output@[j] is Reflect);
        }
    }
}

/// An interface is collected exactly when it is an input of some route.
pub proof fn inputs_of_every_route_are_collected(routes: Seq<RouteConfig>, name: Seq<char>)
    ensures
        distinct(inputs(routes)).contains(name) <==> exists|i: int, j: int|
            0 <= i < routes.len() && 0 <= j < routes[i].input@.len()
                && #[trigger] routes[i].input@[j]@ == name,
{
    interfaces_are_collected_once(inputs(routes));
    lemma_inputs(routes, name);
}

proof fn lemma_inputs(routes: Seq<RouteConfig>, name: Seq<char>)
    ensures
        inputs(routes).contains(name) <==> exists|i: int, j: int|
            0 <= i < routes.len() && 0 <= j < routes[i].input@.len()
                && #[trigger] routes[i].input@[j]@ == name,
    decreases routes.len(),
{
    if routes.len() > 0 {
        let init = routes.drop_last();
        let last = text::views(routes.last().input@);
        let before = inputs(init);
        let all = inputs(routes);
        lemma_inputs(init, name);
        if all.contains(name) {
            let k = choose|k: int| 0 <= k < all.len() && all[k] == name;
            if k < before.len() {
                assert(before[k] == name);
                let (i, j) = choose|i: int, j: int|
                    0 <= i < init.len() && 0 <= j < init[i].input@.len()
                        && #[trigger] init[i].input@[j]@ == name;
                assert(routes[i].input@[j]@ == name);
            } else {
                assert(last[k - before.len()] == name);
                assert(routes[routes.len() - 1].input@[k - before.len()]@ == name);
            }
        }
        if exists|i: int, j: int|
            0 <= i < routes.len() && 0 <= j < routes[i].input@.len()
                && #[trigger] routes[i].input@[j]@ == name {
            let (i, j) = choose|i: int, j: int|
                0 <= i < routes.len() && 0 <= j < routes[i].input@.len()
                    && #[trigger] routes[i].input@[j]@ == name;
            if i < init.len() {
                assert(init[i].input@[j]@ == name);
                let k = choose|k: int| 0 <= k < before.len() && before[k] == name;
                assert(all[k] == name);
            } else {
                assert(last[j] == name);
                assert(all[before.len() + j] == name);
            }
        }
    }
}

/// The collected interfaces stand in the order in which they are first named: a
/// further name comes last, if it is new.
pub proof fn interfaces_keep_their_order(texts: Seq<Seq<char>>, name: Seq<char>)
    ensures
        distinct(texts.push(name)) == if texts.contains(name) {
            distinct(texts)
        } else {
            distinct(texts).push(name)
        },
{
    interfaces_are_collected_once(texts);
    assert(texts.push(name).drop_last() =~= texts);
}

/// The inputs of one more route follow those of the others, in the order in which
/// the route has them.
pub proof fn inputs_are_collected_in_order(routes: Seq<RouteConfig>, route: RouteConfig, i: int)
    ensures
        inputs(Seq::empty()).len() == 0,
        ({
            let before = inputs(routes);
            let all = inputs(routes.push(route));
            &&& all.len() == before.len() + route.input@.len()
            &&& 0 <= i < before.len() ==> all[i] == before[i]
            &&& 0 <= i < route.input@.len() ==> all[before.len() + i] == route.input@[i]@
        }),
{
    assert(routes.push(route).drop_last() =~= routes);
}

} // verus!
