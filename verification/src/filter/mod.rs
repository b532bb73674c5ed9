//! Packet filters: rules on the JSON form of a packet, and jq programs.
pub mod fields;
pub mod jq;
pub mod loader;
pub mod ops;
pub mod path;

use vstd::prelude::*;

use self::jq::CompiledJq;
use self::ops::{evaluate, Op};
use self::path::{parse_path, resolve, PathSegment, Step};
use crate::error::{Error, Fault};
use crate::text::same_text;
use crate::value::{Json, Value};

verus! {

/// The filter that one file or one route configures.
pub struct FilterConfig {
    /// Chain other filter files (ANDed together with this one)
    pub chain: Vec<String>,
    /// How rules within this file combine: "any" (OR, default) or "all" (AND)
    pub mode: String,
    /// "show" (default) = only print matches, "hide" = suppress matches
    pub action: String,
    /// Filter rules
    pub rule: Vec<Rule>,
}

/// A rule: conditions that must all hold, or, negated, must not all hold.
pub struct Rule {
    pub negate: bool,
    pub condition: Vec<Condition>,
}

/// A condition on the values that a path leads to.
pub struct Condition {
    pub path: String,
    pub op: Op,
    pub value: Value,
}

/// The mode of a filter that names none.
pub fn default_mode() -> (r: String)
    ensures
        r@ == "any"@,
{
    "any".to_owned()
}

/// The action of a filter that names none.
pub fn default_action() -> (r: String)
    ensures
        r@ == "show"@,
{
    "show".to_owned()
}

/// What a condition asks.
pub struct ConditionView {
    pub path: Seq<Step>,
    pub op: Op,
    pub value: Json,
}

/// What a rule asks.
pub struct RuleView {
    pub negate: bool,
    pub conditions: Seq<ConditionView>,
}

/// What one file or one route asks for, with its mode and action by name.
pub struct ConfigView {
    pub mode: Seq<char>,
    pub action: Seq<char>,
    pub rules: Seq<RuleView>,
}

/// What one link of a filter chain asks.
pub struct LinkView {
    pub rules: Seq<RuleView>,
    pub mode: FilterMode,
    pub action: FilterAction,
}

/// What a filter engine asks: that all links pass and all jq programs hold.
pub struct EngineView {
    pub chain: Seq<LinkView>,
    pub jq: Seq<Seq<char>>,
}

/// How the rules of a link combine.
#[derive(Debug, Clone, Copy)]
pub enum FilterMode {
    Any,
    All,
}

/// What happens to a packet that matches.
#[derive(Debug, Clone, Copy)]
pub enum FilterAction {
    Show,
    Hide,
}

/// A condition holds when its operator holds for some value that its path
/// leads to. Where the path leads nowhere, it holds only if it asks for that.
pub open spec fn condition_holds(condition: ConditionView, entry: Json) -> bool {
    let found = path::resolved(entry, condition.path);
    if found.len() == 0 {
        condition.op is Exists && condition.value == Json::Bool(false)
    } else {
        exists|i: int|
            0 <= i < found.len() && ops::holds(condition.op, #[trigger] found[i], condition.value)
    }
}

/// All conditions hold.
pub open spec fn all_hold(conditions: Seq<ConditionView>, entry: Json) -> bool {
    forall|i: int| 0 <= i < conditions.len() ==> condition_holds(#[trigger] conditions[i], entry)
}

/// A rule matches when all its conditions hold, a negated one when they do not.
pub open spec fn rule_matches(rule: RuleView, entry: Json) -> bool {
    all_hold(rule.conditions, entry) != rule.negate
}

/// The rules match in the given mode.
pub open spec fn rules_match(rules: Seq<RuleView>, mode: FilterMode, entry: Json) -> bool {
    match mode {
        FilterMode::Any => exists|i: int|
            0 <= i < rules.len() && rule_matches(#[trigger] rules[i], entry),
        FilterMode::All => forall|i: int|
            0 <= i < rules.len() ==> rule_matches(#[trigger] rules[i], entry),
    }
}

/// A link without rules passes everything, any other what its action says.
pub open spec fn link_passes(link: LinkView, entry: Json) -> bool {
    link.rules.len() == 0 || (rules_match(link.rules, link.mode, entry) == link.action is Show)
}

/// All links pass.
pub open spec fn chain_passes(chain: Seq<LinkView>, entry: Json) -> bool {
    forall|i: int| 0 <= i < chain.len() ==> link_passes(#[trigger] chain[i], entry)
}

/// The jq program to ask next, given what the earlier ones said: they are asked
/// in turn until one refuses.
pub open spec fn to_ask(jq: Seq<Seq<char>>, verdicts: Seq<bool>) -> Option<Seq<char>> {
    if !verdicts.contains(false) && verdicts.len() < jq.len() {
        Some(jq[verdicts.len() as int])
    } else {
        None
    }
}

/// What a filter decides on an entry, given what the jq programs that were asked
/// said of it. An entry that a link or a program refuses is not admitted, one
/// that all links and all programs let pass is. Otherwise a program is still to
/// be asked.
pub open spec fn decision(engine: EngineView, entry: Json, verdicts: Seq<bool>) -> Option<bool> {
    if !chain_passes(engine.chain, entry) || verdicts.contains(false) {
        Some(false)
    } else if verdicts.len() < engine.jq.len() {
        None
    } else {
        Some(true)
    }
}

/// A filter admits an entry when all links pass and all jq programs hold, where
/// `says` is what each program says of the entry.
pub open spec fn admits(
    engine: EngineView,
    entry: Json,
    says: spec_fn(Seq<char>) -> bool,
) -> bool {
    &&& chain_passes(engine.chain, entry)
    &&& forall|i: int| 0 <= i < engine.jq.len() ==> says(#[trigger] engine.jq[i])
}

/// These are the answers of the jq programs, asked in turn as long as there is
/// one to ask.
pub open spec fn are_answers(
    jq: Seq<Seq<char>>,
    says: spec_fn(Seq<char>) -> bool,
    verdicts: Seq<bool>,
) -> bool {
    &&& verdicts.len() <= jq.len()
    &&& forall|i: int| 0 <= i < verdicts.len() ==> #[trigger] verdicts[i] == says(jq[i])
    &&& to_ask(jq, verdicts) is None
}

/// The link that a configuration describes, if it names its mode and action.
pub open spec fn link_of(config: ConfigView) -> LinkView {
    LinkView {
        rules: config.rules,
        mode: if config.mode == "any"@ {
            FilterMode::Any
        } else {
            FilterMode::All
        },
        action: if config.action == "show"@ {
            FilterAction::Show
        } else {
            FilterAction::Hide
        },
    }
}

/// What is wrong with a configuration, if anything is.
pub open spec fn config_fault(config: ConfigView) -> Option<Fault> {
    if config.mode != "any"@ && config.mode != "all"@ {
        Some(Fault::UnknownMode(config.mode))
    } else if config.action != "show"@ && config.action != "hide"@ {
        Some(Fault::UnknownAction(config.action))
    } else {
        None
    }
}

/// The first thing that is wrong with some configurations.
pub open spec fn configs_fault(configs: Seq<ConfigView>) -> Option<Fault>
    decreases configs.len(),
{
    if configs.len() == 0 {
        None
    } else {
        match configs_fault(configs.drop_last()) {
            Some(fault) => Some(fault),
            None => config_fault(configs.last()),
        }
    }
}

/// The first thing that is wrong with some jq expressions.
pub open spec fn expressions_fault(expressions: Seq<Seq<char>>) -> Option<Fault>
    decreases expressions.len(),
{
    if expressions.len() == 0 {
        None
    } else {
        match expressions_fault(expressions.drop_last()) {
            Some(fault) => Some(fault),
            None => jq::expression_fault(expressions.last()),
        }
    }
}

/// Why no filter can be built, if so: the first fault of the configurations,
/// or else of the jq expressions.
pub open spec fn build_fault(
    configs: Seq<ConfigView>,
    expressions: Seq<Seq<char>>,
) -> Option<Fault> {
    match configs_fault(configs) {
        Some(fault) => Some(fault),
        None => expressions_fault(expressions),
    }
}

/// What the configurations and jq expressions together ask.
pub open spec fn engine_of(configs: Seq<ConfigView>, expressions: Seq<Seq<char>>) -> EngineView {
    EngineView { chain: configs.map_values(|c: ConfigView| link_of(c)), jq: expressions }
}

impl View for Condition {
    type V = ConditionView;

    open spec fn view(&self) -> ConditionView {
        ConditionView { path: path::path_steps(self.path@), op: self.op, value: self.value@ }
    }
}

impl View for Rule {
    type V = RuleView;

    open spec fn view(&self) -> RuleView {
        RuleView {
            negate: self.negate,
            conditions: self.condition@.map_values(|c: Condition| c@),
        }
    }
}

impl View for FilterConfig {
    type V = ConfigView;

    open spec fn view(&self) -> ConfigView {
        ConfigView {
            mode: self.mode@,
            action: self.action@,
            rules: self.rule@.map_values(|r: Rule| r@),
        }
    }
}

/// What some configurations ask.
pub open spec fn configs_view(configs: Seq<FilterConfig>) -> Seq<ConfigView> {
    configs.map_values(|c: FilterConfig| c@)
}

/// A compiled condition with pre-parsed path.
struct CompiledCondition {
    segments: Vec<PathSegment>,
    op: Op,
    value: Value,
}

impl View for CompiledCondition {
    type V = ConditionView;

    closed spec fn view(&self) -> ConditionView {
        ConditionView {
            path: path::steps(self.segments@),
            op: self.op,
            value: self.value@,
        }
    }
}

impl CompiledCondition {
    fn compile(condition: &Condition) -> (r: CompiledCondition)
        ensures
            r@ == condition@,
    {
        CompiledCondition {
            segments: parse_path(condition.path.as_str()),
            op: condition.op,
            value: condition.value.copy(),
        }
    }

    fn matches(&self, entry: &Value) -> (r: bool)
        ensures
            r == condition_holds(self@, entry@),
    {
        let found = resolve(entry, self.segments.as_slice());
        let ghost all = path::resolved(entry@, self@.path);
        assert(all == path::jsons(found@));
        if found.len() == 0 {
            return matches!(self.op, Op::Exists) && self.value.equals(&Value::Bool(false));
        }
        let mut i: usize = 0;
        while i < found.len()
            invariant
                i <= found@.len(),
                all == path::jsons(found@),
                all == path::resolved(entry@, self@.path),
                forall|j: int| 0 <= j < i ==> !ops::holds(self@.op, #[trigger] all[j], self@.value),
            decreases found@.len() - i,
        {
            assert(all[i as int] == found@[i as int]@);
            if evaluate(&self.op, found[i], &self.value) {
                return true;
            }
            i += 1;
        }
        false
    }
}

struct CompiledRule {
    negate: bool,
    conditions: Vec<CompiledCondition>,
}

impl View for CompiledRule {
    type V = RuleView;

    closed spec fn view(&self) -> RuleView {
        RuleView {
            negate: self.negate,
            conditions: self.conditions@.map_values(|c: CompiledCondition| c@),
        }
    }
}

impl CompiledRule {
    fn compile(rule: &Rule) -> (r: CompiledRule)
        ensures
            r@ == rule@,
    {
        let mut conditions: Vec<CompiledCondition> = Vec::new();
        let mut i: usize = 0;
        while i < rule.condition.len()
            invariant
                i <= rule.condition@.len(),
                conditions@.len() == i,
                forall|j: int|
                    0 <= j < i ==> (#[trigger] conditions@[j])@ == rule.condition@[j]@,
            decreases rule.condition@.len() - i,
        {
            conditions.push(CompiledCondition::compile(&rule.condition[i]));
            i += 1;
        }
        let r = CompiledRule { negate: rule.negate, conditions };
        assert(r@.conditions =~= rule@.conditions);
        r
    }

    fn matches(&self, entry: &Value) -> (r: bool)
        ensures
            r == rule_matches(self@, entry@),
    {
        let mut i: usize = 0;
        while i < self.conditions.len()
            invariant
                i <= self.conditions@.len(),
                forall|j: int|
                    0 <= j < i ==> condition_holds(#[trigger] self@.conditions[j], entry@),
            decreases self.conditions@.len() - i,
        {
            assert(self@.conditions[i as int] == self.conditions@[i as int]@);
            if !self.conditions[i].matches(entry) {
                assert(!all_hold(self@.conditions, entry@));
                return self.negate;
            }
            i += 1;
        }
        !self.negate
    }
}

/// One link in the filter chain, compiled from a single configuration.
struct ChainLink {
    rules: Vec<CompiledRule>,
    mode: FilterMode,
    action: FilterAction,
}

impl View for ChainLink {
    type V = LinkView;

    closed spec fn view(&self) -> LinkView {
        LinkView {
            rules: self.rules@.map_values(|r: CompiledRule| r@),
            mode: self.mode,
            action: self.action,
        }
    }
}

impl ChainLink {
    fn compile(config: &FilterConfig) -> (r: Result<ChainLink, Error>)
        ensures
            match r {
                Ok(link) => config_fault(config@) is None && link@ == link_of(config@),
                Err(e) => config_fault(config@) == Some(e@),
            },
    {
        let mode = if same_text(config.mode.as_str(), "any") {
            FilterMode::Any
        } else if same_text(config.mode.as_str(), "all") {
            FilterMode::All
        } else {
            return Err(Error::UnknownMode(config.mode.clone()));
        };
        let action = if same_text(config.action.as_str(), "show") {
            FilterAction::Show
        } else if same_text(config.action.as_str(), "hide") {
            FilterAction::Hide
        } else {
            return Err(Error::UnknownAction(config.action.clone()));
        };
        let mut rules: Vec<CompiledRule> = Vec::new();
        let mut i: usize = 0;
        while i < config.rule.len()
            invariant
                i <= config.rule@.len(),
                rules@.len() == i,
                forall|j: int| 0 <= j < i ==> (#[trigger] rules@[j])@ == config.rule@[j]@,
            decreases config.rule@.len() - i,
        {
            rules.push(CompiledRule::compile(&config.rule[i]));
            i += 1;
        }
        let link = ChainLink { rules, mode, action };
        assert(link@.rules =~= config@.rules);
        Ok(link)
    }

    fn should_pass(&self, entry: &Value) -> (r: bool)
        ensures
            r == link_passes(self@, entry@),
    {
        if self.rules.len() == 0 {
            return true;
        }
        // A rule that matches decides in the mode "any", one that does not in the mode "all".
        let deciding = matches!(self.mode, FilterMode::Any);
        let mut matched = !deciding;
        let mut i: usize = 0;
        while i < self.rules.len() && matched != deciding
            invariant
                i <= self.rules@.len(),
                deciding == (self@.mode is Any),
                matched == deciding ==> exists|j: int|
                    0 <= j < self@.rules.len() && rule_matches(#[trigger] self@.rules[j], entry@)
                        == deciding,
                matched != deciding ==> forall|j: int|
                    0 <= j < i ==> rule_matches(#[trigger] self@.rules[j], entry@) != deciding,
            decreases self.rules@.len() - i,
        {
            assert(self@.rules[i as int] == self.rules@[i as int]@);
            matched = self.rules[i].matches(entry);
            i += 1;
        }
        assert(matched == rules_match(self@.rules, self@.mode, entry@));
        match self.action {
            FilterAction::Show => matched,
            FilterAction::Hide => !matched,
        }
    }
}

/// The main filter engine: a chain of rule filters AND'd with jq filters.
pub struct FilterEngine {
    chain: Vec<ChainLink>,
    jq_filters: Vec<CompiledJq>,
}

impl View for FilterEngine {
    type V = EngineView;

    closed spec fn view(&self) -> EngineView {
        EngineView {
            chain: self.chain@.map_values(|l: ChainLink| l@),
            jq: self.jq_filters@.map_values(|q: CompiledJq| q@),
        }
    }
}

impl FilterEngine {
    /// Build a filter engine from all sources. Without any, there is none.
    pub fn build(configs: Vec<FilterConfig>, jq_exprs: &[String]) -> (r: Result<
        Option<FilterEngine>,
        Error,
    >)
        ensures
            match r {
                Ok(built) => {
                    &&& build_fault(configs_view(configs@), crate::text::views(jq_exprs@)) is None
                    &&& match built {
                        Some(engine) => configs@.len() + jq_exprs@.len() > 0 && engine@
                            == engine_of(configs_view(configs@), crate::text::views(jq_exprs@)),
                        None => configs@.len() + jq_exprs@.len() == 0,
                    }
                },
                Err(e) => build_fault(configs_view(configs@), crate::text::views(jq_exprs@))
                    == Some(e@),
            },
    {
        let ghost asked = configs_view(configs@);
        let ghost programs = crate::text::views(jq_exprs@);
        let mut chain: Vec<ChainLink> = Vec::new();
        let mut i: usize = 0;
        while i < configs.len()
            invariant
                i <= configs@.len(),
                asked == configs_view(configs@),
                configs_fault(asked.take(i as int)) is None,
                chain@.len() == i,
                forall|j: int| 0 <= j < i ==> (#[trigger] chain@[j])@ == link_of(asked[j]),
            decreases configs@.len() - i,
        {
            proof {
                assert(asked.take(i + 1).drop_last() =~= asked.take(i as int));
                assert(asked.take(i + 1).last() == configs@[i as int]@);
            }
            match ChainLink::compile(&configs[i]) {
                Ok(link) => chain.push(link),
                Err(e) => {
                    proof {
                        lemma_configs_fault_stays(asked, (i + 1) as nat);
                    }
                    return Err(e);
                },
            }
            i += 1;
        }
        assert(asked.take(i as int) =~= asked);
        let mut jq_filters: Vec<CompiledJq> = Vec::new();
        let mut k: usize = 0;
        while k < jq_exprs.len()
            invariant
                k <= jq_exprs@.len(),
                programs == crate::text::views(jq_exprs@),
                asked == configs_view(configs@),
                configs_fault(asked) is None,
                expressions_fault(programs.take(k as int)) is None,
                jq_filters@.len() == k,
                forall|j: int| 0 <= j < k ==> (#[trigger] jq_filters@[j])@ == programs[j],
            decreases jq_exprs@.len() - k,
        {
            proof {
                assert(programs.take(k + 1).drop_last() =~= programs.take(k as int));
                assert(programs.take(k + 1).last() == jq_exprs@[k as int]@);
            }
            match CompiledJq::compile(jq_exprs[k].as_str()) {
                Ok(jq) => jq_filters.push(jq),
                Err(e) => {
                    proof {
                        lemma_expressions_fault_stays(programs, (k + 1) as nat);
                    }
                    return Err(e);
                },
            }
            k += 1;
        }
        assert(programs.take(k as int) =~= programs);
        if chain.len() == 0 && jq_filters.len() == 0 {
            return Ok(None);
        }
        let engine = FilterEngine { chain, jq_filters };
        proof {
            assert(engine@.chain =~= engine_of(asked, programs).chain);
            assert(engine@.jq =~= programs);
        }
        Ok(Some(engine))
    }

    /// Check if a log entry should be printed. Where that rests on jq programs,
    /// they have to be asked first.
    pub fn should_print(&self, entry: &Value) -> (r: Option<bool>)
        ensures
            r == decision(self@, entry@, Seq::empty()),
    {
        self.decide(entry, &[])
    }

    /// Whether an entry is admitted, given what the jq programs that were asked
    /// said of it, if that decides it.
    pub fn decide(&self, entry: &Value, verdicts: &[bool]) -> (r: Option<bool>)
        ensures
            r == decision(self@, entry@, verdicts@),
    {
        let mut i: usize = 0;
        while i < self.chain.len()
            invariant
                i <= self.chain@.len(),
                forall|j: int| 0 <= j < i ==> link_passes(#[trigger] self@.chain[j], entry@),
            decreases self.chain@.len() - i,
        {
            assert(self@.chain[i as int] == self.chain@[i as int]@);
            if !self.chain[i].should_pass(entry) {
                return Some(false);
            }
            i += 1;
        }
        if some_refused(verdicts) {
            Some(false)
        } else if verdicts.len() < self.jq_filters.len() {
            None
        } else {
            Some(true)
        }
    }

    /// The jq program to ask next, given what the earlier ones said.
    pub fn next_program(&self, verdicts: &[bool]) -> (r: Option<&CompiledJq>)
        ensures
            match r {
                Some(program) => to_ask(self@.jq, verdicts@) == Some(program@),
                None => to_ask(self@.jq, verdicts@) is None,
            },
    {
        if !some_refused(verdicts) && verdicts.len() < self.jq_filters.len() {
            Some(&self.jq_filters[verdicts.len()])
        } else {
            None
        }
    }
}

/// Whether some verdict is a refusal.
fn some_refused(verdicts: &[bool]) -> (r: bool)
    ensures
        r == verdicts@.contains(false),
{
    let mut i: usize = 0;
    while i < verdicts.len()
        invariant
            i <= verdicts@.len(),
            forall|j: int| 0 <= j < i ==> #[trigger] verdicts@[j],
        decreases verdicts@.len() - i,
    {
        if !verdicts[i] {
            assert(verdicts@[i as int] == false);
            return true;
        }
        i += 1;
    }
    false
}

proof fn lemma_configs_fault_stays(configs: Seq<ConfigView>, n: nat)
    requires
        n <= configs.len(),
        configs_fault(configs.take(n as int)) is Some,
    ensures
        configs_fault(configs) == configs_fault(configs.take(n as int)),
    decreases configs.len(),
{
    if n == configs.len() {
        assert(configs.take(n as int) =~= configs);
    } else {
        assert(configs.drop_last().take(n as int) =~= configs.take(n as int));
        lemma_configs_fault_stays(configs.drop_last(), n);
    }
}

proof fn lemma_expressions_fault_stays(expressions: Seq<Seq<char>>, n: nat)
    requires
        n <= expressions.len(),
        expressions_fault(expressions.take(n as int)) is Some,
    ensures
        expressions_fault(expressions) == expressions_fault(expressions.take(n as int)),
    decreases expressions.len(),
{
    if n == expressions.len() {
        assert(expressions.take(n as int) =~= expressions);
    } else {
        assert(expressions.drop_last().take(n as int) =~= expressions.take(n as int));
        lemma_expressions_fault_stays(expressions.drop_last(), n);
    }
}

/// A link with rules that hides passes exactly what it would hold back if it
/// showed.
pub proof fn hide_is_not_show(rules: Seq<RuleView>, mode: FilterMode, entry: Json)
    requires
        rules.len() > 0,
    ensures
        link_passes(LinkView { rules, mode, action: FilterAction::Hide }, entry) == !link_passes(
            LinkView { rules, mode, action: FilterAction::Show },
            entry,
        ),
{
}

/// A link without rules passes every entry.
pub proof fn no_rules_pass_everything(mode: FilterMode, action: FilterAction, entry: Json)
    ensures
        link_passes(LinkView { rules: Seq::empty(), mode, action }, entry),
{
}

/// A rule without conditions matches every entry.
pub proof fn no_conditions_match_everything(entry: Json)
    ensures
        rule_matches(RuleView { negate: false, conditions: Seq::empty() }, entry),
{
}

/// A negated rule matches exactly what the rule itself does not.
pub proof fn negation_inverts(conditions: Seq<ConditionView>, entry: Json)
    ensures
        rule_matches(RuleView { negate: true, conditions }, entry) == !rule_matches(
            RuleView { negate: false, conditions },
            entry,
        ),
{
}

/// An entry passes a longer chain exactly when it passes the chain and the
/// added link: links only ever narrow.
pub proof fn links_narrow(chain: Seq<LinkView>, link: LinkView, entry: Json)
    ensures
        chain_passes(chain.push(link), entry) == (chain_passes(chain, entry) && link_passes(
            link,
            entry,
        )),
{
    let longer = chain.push(link);
    if chain_passes(longer, entry) {
        assert forall|i: int| 0 <= i < chain.len() implies link_passes(
            #[trigger] chain[i],
            entry,
        ) by {
            assert(longer[i] == chain[i]);
        }
        assert(longer[chain.len() as int] == link);
    }
}

/// The order of the links does not matter.
pub proof fn link_order_is_free(first: Seq<LinkView>, second: Seq<LinkView>, entry: Json)
    ensures
        chain_passes(first + second, entry) == chain_passes(second + first, entry),
{
    lemma_chain_concat(first, second, entry);
    lemma_chain_concat(second, first, entry);
}

proof fn lemma_chain_concat(first: Seq<LinkView>, second: Seq<LinkView>, entry: Json)
    ensures
        chain_passes(first + second, entry) == (chain_passes(first, entry) && chain_passes(
            second,
            entry,
        )),
{
    let both = first + second;
    if chain_passes(both, entry) {
        assert forall|i: int| 0 <= i < first.len() implies link_passes(
            #[trigger] first[i],
            entry,
        ) by {
            assert(both[i] == first[i]);
        }
        assert forall|i: int| 0 <= i < second.len() implies link_passes(
            #[trigger] second[i],
            entry,
        ) by {
            assert(both[first.len() + i] == second[i]);
        }
    }
}

/// Without jq programs the chain alone decides.
pub proof fn chain_alone_decides(engine: EngineView, entry: Json)
    requires
        engine.jq.len() == 0,
    ensures
        decision(engine, entry, Seq::empty()) == Some(chain_passes(engine.chain, entry)),
{
}

/// What the chain holds back no jq program lets through, and none need be asked.
pub proof fn jq_only_narrows(engine: EngineView, entry: Json, verdicts: Seq<bool>)
    requires
        !chain_passes(engine.chain, entry),
    ensures
        decision(engine, entry, verdicts) == Some(false),
{
}

/// What one of the jq programs refuses is not admitted: every program must hold.
pub proof fn every_jq_program_must_hold(
    engine: EngineView,
    entry: Json,
    verdicts: Seq<bool>,
    i: int,
)
    requires
        0 <= i < verdicts.len(),
        !verdicts[i],
    ensures
        decision(engine, entry, verdicts) == Some(false),
{
    assert(verdicts[i] == false);
}

/// A filter is undecided only where there is a jq program to ask.
pub proof fn undecided_filters_have_a_program_to_ask(
    engine: EngineView,
    entry: Json,
    verdicts: Seq<bool>,
)
    requires
        decision(engine, entry, verdicts) is None,
    ensures
        to_ask(engine.jq, verdicts) is Some,
{
}

/// Asking the jq programs in turn decides: an entry is admitted exactly when the
/// chain passes it and every program holds, those that were not asked included.
pub proof fn answers_decide(
    engine: EngineView,
    entry: Json,
    says: spec_fn(Seq<char>) -> bool,
    verdicts: Seq<bool>,
)
    requires
        are_answers(engine.jq, says, verdicts),
    ensures
        decision(engine, entry, verdicts) == Some(admits(engine, entry, says)),
{
    if verdicts.contains(false) {
        let i = choose|i: int| 0 <= i < verdicts.len() && verdicts[i] == false;
        assert(!says(engine.jq[i]));
    } else {
        assert forall|i: int| 0 <= i < engine.jq.len() implies says(#[trigger] engine.jq[i]) by {
            assert(verdicts[i] == says(engine.jq[i]));
            if !verdicts[i] {
                assert(verdicts.contains(false));
            }
        }
    }
}

/// A filter of joined parts admits exactly what both parts admit, so that
/// further parts only ever narrow.
pub proof fn joined_filters_admit_what_both_admit(
    configs: Seq<ConfigView>,
    programs: Seq<Seq<char>>,
    more_configs: Seq<ConfigView>,
    more_programs: Seq<Seq<char>>,
    entry: Json,
    says: spec_fn(Seq<char>) -> bool,
)
    ensures
        admits(engine_of(configs + more_configs, programs + more_programs), entry, says) == (admits(
            engine_of(configs, programs),
            entry,
            says,
        ) && admits(engine_of(more_configs, more_programs), entry, says)),
{
    let joined = engine_of(configs + more_configs, programs + more_programs);
    let first = engine_of(configs, programs);
    let second = engine_of(more_configs, more_programs);
    assert(joined.chain =~= first.chain + second.chain);
    lemma_chain_concat(first.chain, second.chain, entry);
    if admits(joined, entry, says) {
        assert forall|i: int| 0 <= i < programs.len() implies says(#[trigger] programs[i]) by {
            assert(joined.jq[i] == programs[i]);
        }
        assert forall|i: int| 0 <= i < more_programs.len() implies says(
            #[trigger] more_programs[i],
        ) by {
            assert(joined.jq[programs.len() + i] == more_programs[i]);
        }
    }
    if admits(first, entry, says) && admits(second, entry, says) {
        assert forall|i: int| 0 <= i < joined.jq.len() implies says(#[trigger] joined.jq[i]) by {
            if i < programs.len() {
                assert(joined.jq[i] == first.jq[i]);
            } else {
                assert(joined.jq[i] == second.jq[i - programs.len()]);
            }
        }
    }
}

/// A condition holds as soon as its operator holds for one of the values that
/// its path leads to.
pub proof fn one_value_suffices(condition: ConditionView, entry: Json, i: int)
    requires
        0 <= i < path::resolved(entry, condition.path).len(),
        ops::holds(condition.op, path::resolved(entry, condition.path)[i], condition.value),
    ensures
        condition_holds(condition, entry),
{
}

/// A condition does not hold where its path leads somewhere and its operator
/// holds for none of the values there.
pub proof fn some_value_is_needed(condition: ConditionView, entry: Json)
    requires
        path::resolved(entry, condition.path).len() > 0,
        forall|i: int|
            0 <= i < path::resolved(entry, condition.path).len() ==> !ops::holds(
                condition.op,
                #[trigger] path::resolved(entry, condition.path)[i],
                condition.value,
            ),
    ensures
        !condition_holds(condition, entry),
{
}

/// Where a path leads nowhere, a condition holds only if it asks for nothing to
/// be there.
pub proof fn missing_values_do_not_exist(condition: ConditionView, entry: Json)
    requires
        path::resolved(entry, condition.path).len() == 0,
    ensures
        condition_holds(condition, entry) <==> (condition.op == Op::Exists && condition.value
            == Json::Bool(false)),
{
}

/// A rule that is not negated does not match where one of its conditions does
/// not hold, and a negated one then does.
pub proof fn one_failed_condition_decides(rule: RuleView, entry: Json, i: int)
    requires
        0 <= i < rule.conditions.len(),
        !condition_holds(rule.conditions[i], entry),
    ensures
        rule_matches(rule, entry) == rule.negate,
{
}

/// A rule all of whose conditions hold matches unless it is negated.
pub proof fn held_conditions_match(rule: RuleView, entry: Json)
    requires
        forall|i: int|
            0 <= i < rule.conditions.len() ==> condition_holds(
                #[trigger] rule.conditions[i],
                entry,
            ),
    ensures
        rule_matches(rule, entry) == !rule.negate,
{
}

/// A further condition only narrows a rule: the longer rule matches what the
/// rule matches and the condition holds for.
pub proof fn conditions_narrow(
    conditions: Seq<ConditionView>,
    condition: ConditionView,
    entry: Json,
)
    ensures
        rule_matches(RuleView { negate: false, conditions: conditions.push(condition) }, entry) == (
        rule_matches(RuleView { negate: false, conditions }, entry) && condition_holds(
            condition,
            entry,
        )),
        rule_matches(RuleView { negate: true, conditions: conditions.push(condition) }, entry) == (
        rule_matches(RuleView { negate: true, conditions }, entry) || !condition_holds(
            condition,
            entry,
        )),
{
    let longer = conditions.push(condition);
    assert(longer[conditions.len() as int] == condition);
    assert forall|i: int| 0 <= i < conditions.len() implies #[trigger] conditions[i]
        == longer[i] by {}
    if all_hold(longer, entry) {
        assert forall|i: int| 0 <= i < conditions.len() implies condition_holds(
            #[trigger] conditions[i],
            entry,
        ) by {
            assert(condition_holds(longer[i], entry));
        }
    }
}

/// A link of a single rule passes, in either mode, what the rule matches, or
/// what it does not match if the link hides.
pub proof fn single_rules_decide_links(rule: RuleView, mode: FilterMode, entry: Json)
    ensures
        link_passes(LinkView { rules: seq![rule], mode, action: FilterAction::Show }, entry)
            == rule_matches(rule, entry),
        link_passes(LinkView { rules: seq![rule], mode, action: FilterAction::Hide }, entry)
            == !rule_matches(rule, entry),
{
    assert(seq![rule][0] == rule);
}

/// In the mode "any" a further rule widens what a link shows, in the mode "all"
/// it narrows it.
pub proof fn further_rules_widen_or_narrow(rules: Seq<RuleView>, rule: RuleView, entry: Json)
    requires
        rules.len() > 0,
    ensures
        link_passes(
            LinkView {
                rules: rules.push(rule),
                mode: FilterMode::Any,
                action: FilterAction::Show,
            },
            entry,
        ) == (link_passes(
            LinkView { rules, mode: FilterMode::Any, action: FilterAction::Show },
            entry,
        ) || rule_matches(rule, entry)),
        link_passes(
            LinkView {
                rules: rules.push(rule),
                mode: FilterMode::All,
                action: FilterAction::Show,
            },
            entry,
        ) == (link_passes(
            LinkView { rules, mode: FilterMode::All, action: FilterAction::Show },
            entry,
        ) && rule_matches(rule, entry)),
{
    let longer = rules.push(rule);
    assert(longer[rules.len() as int] == rule);
    assert forall|i: int| 0 <= i < rules.len() implies #[trigger] rules[i] == longer[i] by {}
    if rules_match(rules, FilterMode::Any, entry) {
        let i = choose|i: int| 0 <= i < rules.len() && rule_matches(#[trigger] rules[i], entry);
        assert(rule_matches(longer[i], entry));
    }
    if rules_match(longer, FilterMode::Any, entry) && !rule_matches(rule, entry) {
        let i = choose|i: int| 0 <= i < longer.len() && rule_matches(#[trigger] longer[i], entry);
        assert(rule_matches(rules[i], entry));
    }
    if rules_match(longer, FilterMode::All, entry) {
        assert forall|i: int| 0 <= i < rules.len() implies rule_matches(
            #[trigger] rules[i],
            entry,
        ) by {
            assert(rule_matches(longer[i], entry));
        }
    }
}

/// A chain without links passes everything, and one with a link that holds an
/// entry back does not pass it.
pub proof fn every_link_must_pass(chain: Seq<LinkView>, entry: Json)
    ensures
        chain.len() == 0 ==> chain_passes(chain, entry),
        forall|i: int|
            0 <= i < chain.len() && !link_passes(#[trigger] chain[i], entry) ==> !chain_passes(
                chain,
                entry,
            ),
{
}

/// An entry that a filter admits was passed by every link, and every jq program
/// was asked about it and held.
pub proof fn admitted_entries_passed_everything(
    engine: EngineView,
    entry: Json,
    verdicts: Seq<bool>,
)
    requires
        decision(engine, entry, verdicts) == Some(true),
    ensures
        forall|i: int| 0 <= i < engine.chain.len() ==> link_passes(#[trigger] engine.chain[i], entry),
        verdicts.len() >= engine.jq.len(),
        forall|i: int| 0 <= i < verdicts.len() ==> #[trigger] verdicts[i],
{
    assert forall|i: int| 0 <= i < verdicts.len() implies #[trigger] verdicts[i] by {
        if !verdicts[i] {
            assert(verdicts.contains(false));
        }
    }
}

/// An entry that a filter does not admit was held back by some link or refused
/// by some jq program.
pub proof fn refused_entries_failed_something(
    engine: EngineView,
    entry: Json,
    verdicts: Seq<bool>,
)
    requires
        decision(engine, entry, verdicts) == Some(false),
    ensures
        (exists|i: int| 0 <= i < engine.chain.len() && !link_passes(#[trigger] engine.chain[i], entry))
            || (exists|i: int| 0 <= i < verdicts.len() && !#[trigger] verdicts[i]),
{
    if verdicts.contains(false) {
        let i = choose|i: int| 0 <= i < verdicts.len() && verdicts[i] == false;
        assert(!verdicts[i]);
    }
}

/// A filter stays undecided exactly as long as every link passes, every program
/// that was asked held, and some program was not asked.
pub proof fn filters_wait_for_their_programs(
    engine: EngineView,
    entry: Json,
    verdicts: Seq<bool>,
)
    requires
        forall|i: int| 0 <= i < engine.chain.len() ==> link_passes(#[trigger] engine.chain[i], entry),
        forall|i: int| 0 <= i < verdicts.len() ==> #[trigger] verdicts[i],
    ensures
        decision(engine, entry, verdicts) == if verdicts.len() < engine.jq.len() {
            None
        } else {
            Some(true)
        },
{
    if verdicts.contains(false) {
        let i = choose|i: int| 0 <= i < verdicts.len() && verdicts[i] == false;
        assert(!verdicts[i]);
    }
}

/// The jq programs are asked one after the other, first to last, and none after
/// one that refused.
pub proof fn programs_are_asked_in_order(jq: Seq<Seq<char>>, verdicts: Seq<bool>)
    ensures
        (forall|i: int| 0 <= i < verdicts.len() ==> #[trigger] verdicts[i]) && verdicts.len()
            < jq.len() ==> to_ask(jq, verdicts) == Some(jq[verdicts.len() as int]),
        verdicts.len() >= jq.len() ==> to_ask(jq, verdicts) is None,
        forall|i: int| 0 <= i < verdicts.len() && !#[trigger] verdicts[i] ==> to_ask(jq, verdicts) is None,
{
    if verdicts.contains(false) {
        let i = choose|i: int| 0 <= i < verdicts.len() && verdicts[i] == false;
        assert(!verdicts[i]);
    }
    assert forall|i: int| 0 <= i < verdicts.len() && !#[trigger] verdicts[i] implies to_ask(
        jq,
        verdicts,
    ) is None by {
        assert(verdicts[i] == false);
        assert(verdicts.contains(false));
    }
}

/// A configuration is accepted exactly when its mode is "any" or "all" and its
/// action "show" or "hide", and is read as these say.
pub proof fn modes_and_actions_are_named(config: ConfigView)
    ensures
        config_fault(config) is None <==> ((config.mode == "any"@ || config.mode == "all"@) && (
        config.action == "show"@ || config.action == "hide"@)),
        config_fault(config) is Some ==> config_fault(config) == Some(
            Fault::UnknownMode(config.mode),
        ) || config_fault(config) == Some(Fault::UnknownAction(config.action)),
        config.mode != "any"@ && config.mode != "all"@ ==> config_fault(config) == Some(
            Fault::UnknownMode(config.mode),
        ),
        config.mode == "any"@ ==> link_of(config).mode == FilterMode::Any,
        config.mode == "all"@ ==> link_of(config).mode == FilterMode::All,
        config.action == "show"@ ==> link_of(config).action == FilterAction::Show,
        config.action == "hide"@ ==> link_of(config).action == FilterAction::Hide,
        link_of(config).rules == config.rules,
{
    reveal_strlit("any");
    reveal_strlit("all");
    reveal_strlit("show");
    reveal_strlit("hide");
    assert("any"@[1] == 'n' && "all"@[1] == 'l');
    assert("show"@[0] == 's' && "hide"@[0] == 'h');
}

/// A filter is built exactly when every configuration is accepted and every jq
/// expression compiles.
pub proof fn filters_are_built_unless_something_is_wrong(
    configs: Seq<ConfigView>,
    expressions: Seq<Seq<char>>,
)
    ensures
        build_fault(configs, expressions) is None <==> ((forall|i: int|
            0 <= i < configs.len() ==> config_fault(#[trigger] configs[i]) is None) && (forall|i: int|
            0 <= i < expressions.len() ==> jq::jq_fault(#[trigger] expressions[i]) is None)),
{
    lemma_configs_fault(configs);
    lemma_expressions_fault(expressions);
}

proof fn lemma_configs_fault(configs: Seq<ConfigView>)
    ensures
        configs_fault(configs) is None <==> (forall|i: int|
            0 <= i < configs.len() ==> config_fault(#[trigger] configs[i]) is None),
    decreases configs.len(),
{
    if configs.len() > 0 {
        let init = configs.drop_last();
        lemma_configs_fault(init);
        assert(configs[configs.len() - 1] == configs.last());
        assert forall|i: int| 0 <= i < init.len() implies #[trigger] init[i] == configs[i] by {}
        if configs_fault(configs) is None {
            assert forall|i: int| 0 <= i < configs.len() implies config_fault(
                #[trigger] configs[i],
            ) is None by {
                if i < init.len() {
                    assert(config_fault(init[i]) is None);
                }
            }
        }
    }
}

proof fn lemma_expressions_fault(expressions: Seq<Seq<char>>)
    ensures
        expressions_fault(expressions) is None <==> (forall|i: int|
            0 <= i < expressions.len() ==> jq::jq_fault(#[trigger] expressions[i]) is None),
    decreases expressions.len(),
{
    if expressions.len() > 0 {
        let init = expressions.drop_last();
        lemma_expressions_fault(init);
        assert(expressions[expressions.len() - 1] == expressions.last());
        assert forall|i: int| 0 <= i < init.len() implies #[trigger] init[i]
            == expressions[i] by {}
        if expressions_fault(expressions) is None {
            assert forall|i: int| 0 <= i < expressions.len() implies jq::jq_fault(
                #[trigger] expressions[i],
            ) is None by {
                if i < init.len() {
                    assert(jq::jq_fault(init[i]) is None);
                }
            }
        }
    }
}

/// The first configuration that is not accepted is the one that is reported.
pub proof fn the_first_fault_is_reported(
    configs: Seq<ConfigView>,
    expressions: Seq<Seq<char>>,
    n: int,
)
    requires
        0 <= n < configs.len(),
        config_fault(configs[n]) is Some,
        forall|i: int| 0 <= i < n ==> config_fault(#[trigger] configs[i]) is None,
    ensures
        build_fault(configs, expressions) == config_fault(configs[n]),
{
    let shown = configs.take(n + 1);
    assert(shown.drop_last() =~= configs.take(n));
    assert forall|i: int| 0 <= i < n implies config_fault(
        #[trigger] configs.take(n)[i],
    ) is None by {
        assert(configs.take(n)[i] == configs[i]);
    }
    lemma_configs_fault(configs.take(n));
    assert(shown.last() == configs[n]);
    lemma_configs_fault_stays(configs, (n + 1) as nat);
}

/// A filter has one link for each configuration, in order, with its rules, mode
/// and action, and the jq expressions as they are.
pub proof fn filters_hold_what_they_are_built_from(
    configs: Seq<ConfigView>,
    expressions: Seq<Seq<char>>,
)
    ensures
        engine_of(configs, expressions).jq == expressions,
        engine_of(configs, expressions).chain.len() == configs.len(),
        forall|i: int|
            0 <= i < configs.len() ==> (#[trigger] engine_of(configs, expressions).chain[i]).rules
                == configs[i].rules && (configs[i].mode == "any"@ ==> engine_of(
                configs,
                expressions,
            ).chain[i].mode == FilterMode::Any) && (configs[i].mode == "all"@ ==> engine_of(
                configs,
                expressions,
            ).chain[i].mode == FilterMode::All) && (configs[i].action == "show"@ ==> engine_of(
                configs,
                expressions,
            ).chain[i].action == FilterAction::Show) && (configs[i].action == "hide"@ ==> engine_of(
                configs,
                expressions,
            ).chain[i].action == FilterAction::Hide),
{
    assert forall|i: int| 0 <= i < configs.len() implies (#[trigger] engine_of(
        configs,
        expressions,
    ).chain[i]).rules == configs[i].rules && (configs[i].mode == "any"@ ==> engine_of(
        configs,
        expressions,
    ).chain[i].mode == FilterMode::Any) && (configs[i].mode == "all"@ ==> engine_of(
        configs,
        expressions,
    ).chain[i].mode == FilterMode::All) && (configs[i].action == "show"@ ==> engine_of(
        configs,
        expressions,
    ).chain[i].action == FilterAction::Show) && (configs[i].action == "hide"@ ==> engine_of(
        configs,
        expressions,
    ).chain[i].action == FilterAction::Hide) by {
        modes_and_actions_are_named(configs[i]);
    }
}

/// A configuration asks what is written in it: each rule with its negation, and
/// each condition with its path, operator and value, in order.
pub proof fn configurations_ask_what_is_written(config: FilterConfig, i: int, j: int)
    requires
        0 <= i < config.rule@.len(),
        0 <= j < config.rule@[i].condition@.len(),
    ensures
        config@.mode == config.mode@,
        config@.action == config.action@,
        config@.rules.len() == config.rule@.len(),
        config@.rules[i].negate == config.rule@[i].negate,
        config@.rules[i].conditions.len() == config.rule@[i].condition@.len(),
        config@.rules[i].conditions[j].op == config.rule@[i].condition@[j].op,
        config@.rules[i].conditions[j].value == config.rule@[i].condition@[j].value@,
        config@.rules[i].conditions[j].path == path::path_steps(
            config.rule@[i].condition@[j].path@,
        ),
{
}

} // verus!
