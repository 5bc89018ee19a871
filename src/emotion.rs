//! The emotional state engine: rule-driven transitions of a bounded affect
//! vector, passive decay toward a floor, and keyword analysis of user input.
use vstd::prelude::*;
use crate::level::{is_level, clamp_spec, clamp_level, add_clamped, scale_spec, scale_delta, LEVEL_ONE};
use crate::types::{EmotionalState, EmotionalStateView, MemoryEntry, MemoryType};
use crate::external::now_millis;

verus! {

/// A discrete event that can change the emotional state.
#[derive(Clone, Copy, Debug, PartialEq, Eq, Hash, Structural)]
pub enum EmotionalTrigger {
    PositiveInteraction,
    NegativeInteraction,
    BeingIgnored,
    BeingPraised,
    BeingCriticized,
    SharingSecret,
    LongConversation,
    UserSadness,
    UserHappiness,
}

/// How a trigger changes the state: a delta for each affect value (in
/// thousandths, scaled by the trigger's intensity), an optional mood that
/// replaces the computed one, and a decay rate.
#[derive(Debug)]
pub struct EmotionalRule {
    pub trigger: EmotionalTrigger,
    pub happiness_delta: i32,
    pub affection_delta: i32,
    pub trust_delta: i32,
    pub dependency_delta: i32,
    pub mood_change: Option<String>,
    pub decay_rate: u32,
}

/// The mathematical value of an `EmotionalRule`.
pub struct EmotionalRuleView {
    pub trigger: EmotionalTrigger,
    pub happiness_delta: i32,
    pub affection_delta: i32,
    pub trust_delta: i32,
    pub dependency_delta: i32,
    pub mood_change: Option<Seq<char>>,
    pub decay_rate: u32,
}

impl View for EmotionalRule {
    type V = EmotionalRuleView;

    open spec fn view(&self) -> EmotionalRuleView {
        EmotionalRuleView {
            trigger: self.trigger,
            happiness_delta: self.happiness_delta,
            affection_delta: self.affection_delta,
            trust_delta: self.trust_delta,
            dependency_delta: self.dependency_delta,
            mood_change: match self.mood_change {
                Some(m) => Some(m@),
                None => None,
            },
            decay_rate: self.decay_rate,
        }
    }
}

/// The mood label for the sum of happiness, affection and trust: the
/// bands are those of their mean at 0.8, 0.6, 0.4 and 0.2.
pub open spec fn mood_for(happiness: int, affection: int, trust: int) -> Seq<char> {
    let total = happiness + affection + trust;
    if total >= 2400 {
        "超级开心"@
    } else if total >= 1800 {
        "开心"@
    } else if total >= 1200 {
        "平静"@
    } else if total >= 600 {
        "有点难过"@
    } else {
        "很难过"@
    }
}

/// The first rule for `trigger`, if any.
pub open spec fn find_rule(rules: Seq<EmotionalRuleView>, trigger: EmotionalTrigger) -> Option<EmotionalRuleView>
    decreases rules.len(),
{
    if rules.len() == 0 {
        None
    } else if rules[0].trigger == trigger {
        Some(rules[0])
    } else {
        find_rule(rules.drop_first(), trigger)
    }
}

/// The state after `rule` fires at a given intensity (a level) at time `now`.
pub open spec fn apply_rule(rule: EmotionalRuleView, s: EmotionalStateView, intensity: int, now: i64) -> EmotionalStateView {
    let h = clamp_spec(s.happiness + scale_spec(rule.happiness_delta as int, intensity));
    let a = clamp_spec(s.affection + scale_spec(rule.affection_delta as int, intensity));
    let t = clamp_spec(s.trust + scale_spec(rule.trust_delta as int, intensity));
    let d = clamp_spec(s.dependency + scale_spec(rule.dependency_delta as int, intensity));
    EmotionalStateView {
        happiness: h as u32,
        affection: a as u32,
        trust: t as u32,
        dependency: d as u32,
        mood: match rule.mood_change {
            Some(m) => m,
            None => mood_for(h, a, t),
        },
        timestamp: now,
    }
}

/// The state after `trigger` arrives with the given intensity: unchanged
/// when no rule handles it; the intensity is first clamped into a level.
pub open spec fn trigger_result(
    rules: Seq<EmotionalRuleView>,
    s: EmotionalStateView,
    trigger: EmotionalTrigger,
    intensity: int,
    now: i64,
) -> EmotionalStateView {
    match find_rule(rules, trigger) {
        Some(rule) => apply_rule(rule, s, clamp_spec(intensity), now),
        None => s,
    }
}

/// The state after the same trigger arrives `n` times.
pub open spec fn repeat_trigger(
    rules: Seq<EmotionalRuleView>,
    s: EmotionalStateView,
    trigger: EmotionalTrigger,
    intensity: int,
    now: i64,
    n: nat,
) -> EmotionalStateView
    decreases n,
{
    if n == 0 {
        s
    } else {
        trigger_result(rules, repeat_trigger(rules, s, trigger, intensity, now, (n - 1) as nat), trigger, intensity, now)
    }
}

/// A trigger keeps a well-formed state well formed: each affect value stays
/// a level whatever rule fires and however strongly.
pub proof fn lemma_trigger_keeps_levels(
    rules: Seq<EmotionalRuleView>,
    s: EmotionalStateView,
    trigger: EmotionalTrigger,
    intensity: int,
    now: i64,
)
    requires
        s.wf(),
    ensures
        trigger_result(rules, s, trigger, intensity, now).wf(),
{
}

/// However many times a trigger arrives, at whatever intensity, no affect
/// value rises above one or falls below zero.
pub proof fn lemma_repeated_trigger_stays_bounded(
    rules: Seq<EmotionalRuleView>,
    s: EmotionalStateView,
    trigger: EmotionalTrigger,
    intensity: int,
    now: i64,
    n: nat,
)
    requires
        s.wf(),
    ensures
        repeat_trigger(rules, s, trigger, intensity, now, n).wf(),
    decreases n,
{
    if n > 0 {
        lemma_repeated_trigger_stays_bounded(rules, s, trigger, intensity, now, (n - 1) as nat);
    }
}

/// The mood label for the given affect values.
pub fn mood_label(happiness: u32, affection: u32, trust: u32) -> (r: String)
    ensures
        r@ == mood_for(happiness as int, affection as int, trust as int),
{
    let total: u64 = happiness as u64 + affection as u64 + trust as u64;
    if total >= 2400 {
        String::from_str("超级开心")
    } else if total >= 1800 {
        String::from_str("开心")
    } else if total >= 1200 {
        String::from_str("平静")
    } else if total >= 600 {
        String::from_str("有点难过")
    } else {
        String::from_str("很难过")
    }
}

/// The emotional engine: its rules, its expression templates and its decay
/// settings.
#[derive(Debug)]
pub struct EmotionalEngine {
    rules: Vec<EmotionalRule>,
    expressions: Vec<(String, EmotionalExpression)>,
    decay_config: EmotionalDecayConfig,
}

/// A template for expressing a mood: its range, phrases to append, and a
/// modifier in thousandths.
#[derive(Debug)]
pub struct EmotionalExpression {
    pub mood_range: (u32, u32),
    pub expressions: Vec<String>,
    pub personality_modifier: u32,
}

/// Settings of passive decay: the rate per interval (a level), the
/// interval in hours, and the floor each affect value decays toward.
#[derive(Debug)]
pub struct EmotionalDecayConfig {
    pub base_decay_rate: u32,
    pub decay_interval_hours: u32,
    pub minimum_values: EmotionalState,
}

impl EmotionalEngine {
    /// No trigger has two rules and no mood two templates, so lookups by
    /// trigger or mood are unambiguous.
    #[verifier::type_invariant]
    spec fn well_formed(self) -> bool {
        &&& unique_triggers(self.rules@.map_values(|r: EmotionalRule| r@))
        &&& unique_moods(phrases_view(self.expressions@))
    }

    pub closed spec fn rules_view(&self) -> Seq<EmotionalRuleView> {
        self.rules@.map_values(|r: EmotionalRule| r@)
    }

    /// Index of the first rule for `trigger`, if any.
    fn find_rule_index(&self, trigger: EmotionalTrigger) -> (r: Option<usize>)
        ensures
            match r {
                Some(i) => i < self.rules.len() && find_rule(self.rules_view(), trigger) == Some(self.rules_view()[i as int]),
                None => find_rule(self.rules_view(), trigger) is None,
            },
    {
        let ghost rules = self.rules_view();
        assert(rules.subrange(0, rules.len() as int) =~= rules);
        let mut i: usize = 0;
        while i < self.rules.len()
            invariant
                i <= self.rules.len(),
                rules == self.rules_view(),
                find_rule(rules, trigger) == find_rule(rules.subrange(i as int, rules.len() as int), trigger),
            decreases self.rules.len() - i,
        {
            proof {
                let rest = rules.subrange(i as int, rules.len() as int);
                assert(rest[0] == rules[i as int]);
                assert(rest.drop_first() =~= rules.subrange(i + 1, rules.len() as int));
            }
            if self.rules[i].trigger == trigger {
                assert(rules[i as int].trigger == trigger);
                return Some(i);
            }
            i += 1;
        }
        None
    }

    /// The state after `trigger` arrives at time `now`; `intensity` is in
    /// thousandths and is clamped into a level first.
    pub fn process_trigger_at(&self, current_state: &EmotionalState, trigger: EmotionalTrigger, intensity: i64, now: i64) -> (r: EmotionalState)
        ensures
            r@ == trigger_result(self.rules_view(), current_state@, trigger, intensity as int, now),
    {
        let intensity = clamp_level(intensity);
        match self.find_rule_index(trigger) {
            Some(i) => {
                let rule = &self.rules[i];
                let h = add_clamped(current_state.happiness, scale_delta(rule.happiness_delta, intensity));
                let a = add_clamped(current_state.affection, scale_delta(rule.affection_delta, intensity));
                let t = add_clamped(current_state.trust, scale_delta(rule.trust_delta, intensity));
                let d = add_clamped(current_state.dependency, scale_delta(rule.dependency_delta, intensity));
                let mood = match &rule.mood_change {
                    Some(m) => m.clone(),
                    None => mood_label(h, a, t),
                };
                EmotionalState { happiness: h, affection: a, trust: t, dependency: d, mood, timestamp: now }
            },
            None => current_state.duplicate(),
        }
    }

    /// The state after `trigger` arrives now.
    pub fn process_trigger(&self, current_state: &EmotionalState, trigger: EmotionalTrigger, intensity: i64) -> (r: EmotionalState)
        ensures
            exists|now: i64| r@ == trigger_result(self.rules_view(), current_state@, trigger, intensity as int, now),
    {
        let now = now_millis();
        self.process_trigger_at(current_state, trigger, intensity, now)
    }
}


/// The mathematical value of an `EmotionalDecayConfig`.
pub struct DecayConfigView {
    pub base_decay_rate: u32,
    pub decay_interval_hours: u32,
    pub minimum_values: EmotionalStateView,
}

impl View for EmotionalDecayConfig {
    type V = DecayConfigView;

    open spec fn view(&self) -> DecayConfigView {
        DecayConfigView {
            base_decay_rate: self.base_decay_rate,
            decay_interval_hours: self.decay_interval_hours,
            minimum_values: self.minimum_values@,
        }
    }
}

/// Milliseconds in one hour.
pub const MILLIS_PER_HOUR: i64 = 3600000;

/// Whole hours from `from` to `to`, rounded toward zero.
pub open spec fn hours_between(from: i64, to: i64) -> int {
    let d = to - from;
    if d >= 0 {
        d / (MILLIS_PER_HOUR as int)
    } else {
        -((-d) / (MILLIS_PER_HOUR as int))
    }
}

/// The fraction (a level) of the distance to the floor that decay covers
/// after `hours`: the base rate per elapsed interval, at most one half.
pub open spec fn decay_factor(cfg: DecayConfigView, hours: int) -> int {
    if cfg.decay_interval_hours == 0 {
        500
    } else {
        let f = cfg.base_decay_rate * hours / (cfg.decay_interval_hours as int);
        if f < 500 { f } else { 500 }
    }
}

/// `current` moved toward `target` by `factor` thousandths of the distance.
pub open spec fn decay_toward(current: int, target: int, factor: int) -> int {
    if current > target {
        clamp_spec(current - (current - target) * factor / (LEVEL_ONE as int))
    } else {
        clamp_spec(current + (target - current) * factor / (LEVEL_ONE as int))
    }
}

/// The state after passive decay is applied at time `now`: unchanged until
/// a whole interval has passed since the state's timestamp.
pub open spec fn decay_result(cfg: DecayConfigView, s: EmotionalStateView, now: i64) -> EmotionalStateView {
    let hours = hours_between(s.timestamp, now);
    if hours < cfg.decay_interval_hours as int {
        s
    } else {
        let f = decay_factor(cfg, hours);
        let m = cfg.minimum_values;
        let h = decay_toward(s.happiness as int, m.happiness as int, f);
        let a = decay_toward(s.affection as int, m.affection as int, f);
        let t = decay_toward(s.trust as int, m.trust as int, f);
        let d = decay_toward(s.dependency as int, m.dependency as int, f);
        EmotionalStateView {
            happiness: h as u32,
            affection: a as u32,
            trust: t as u32,
            dependency: d as u32,
            mood: mood_for(h, a, t),
            timestamp: now,
        }
    }
}

/// Decay never moves a value past its floor, and moves it no farther from
/// the floor than it was.
pub proof fn lemma_decay_toward_floor(current: int, target: int, factor: int)
    requires
        is_level(current),
        is_level(target),
        0 <= factor <= 500,
    ensures
        current >= target ==> target <= decay_toward(current, target, factor) <= current,
        current <= target ==> current <= decay_toward(current, target, factor) <= target,
{
    if current > target {
        assert(0 <= (current - target) * factor / 1000 <= current - target) by (nonlinear_arith)
            requires current - target > 0, 0 <= factor <= 500;
    } else {
        assert(0 <= (target - current) * factor / 1000 <= target - current) by (nonlinear_arith)
            requires target - current >= 0, 0 <= factor <= 500;
    }
}

/// Applying decay a second time at the same moment changes nothing: the
/// first application moved the timestamp to that moment.
pub proof fn lemma_decay_idempotent(cfg: DecayConfigView, s: EmotionalStateView, now: i64)
    requires
        cfg.decay_interval_hours > 0,
    ensures
        decay_result(cfg, decay_result(cfg, s, now), now) == decay_result(cfg, s, now),
{
}

/// The four rules the engine starts with.
pub open spec fn default_rules() -> Seq<EmotionalRuleView> {
    seq![
        EmotionalRuleView {
            trigger: EmotionalTrigger::PositiveInteraction,
            happiness_delta: 100,
            affection_delta: 50,
            trust_delta: 30,
            dependency_delta: 20,
            mood_change: Some("开心"@),
            decay_rate: 20,
        },
        EmotionalRuleView {
            trigger: EmotionalTrigger::BeingPraised,
            happiness_delta: 150,
            affection_delta: 100,
            trust_delta: 50,
            dependency_delta: 30,
            mood_change: Some("害羞"@),
            decay_rate: 10,
        },
        EmotionalRuleView {
            trigger: EmotionalTrigger::NegativeInteraction,
            happiness_delta: -100i32,
            affection_delta: -30i32,
            trust_delta: -50i32,
            dependency_delta: 10,
            mood_change: Some("难过"@),
            decay_rate: 50,
        },
        EmotionalRuleView {
            trigger: EmotionalTrigger::LongConversation,
            happiness_delta: 50,
            affection_delta: 80,
            trust_delta: 20,
            dependency_delta: 50,
            mood_change: Some("满足"@),
            decay_rate: 20,
        },
    ]
}

/// The decay settings the engine starts with: five hundredths per day,
/// toward the floor (0.3, 0.2, 0.2, 0.1).
pub open spec fn default_decay_config(cfg: DecayConfigView) -> bool {
    &&& cfg.base_decay_rate == 50
    &&& cfg.decay_interval_hours == 24
    &&& cfg.minimum_values.happiness == 300
    &&& cfg.minimum_values.affection == 200
    &&& cfg.minimum_values.trust == 200
    &&& cfg.minimum_values.dependency == 100
}

fn rule(
    trigger: EmotionalTrigger,
    happiness_delta: i32,
    affection_delta: i32,
    trust_delta: i32,
    dependency_delta: i32,
    mood: &str,
    decay_rate: u32,
) -> (r: EmotionalRule)
    ensures
        r@ == (EmotionalRuleView {
            trigger,
            happiness_delta,
            affection_delta,
            trust_delta,
            dependency_delta,
            mood_change: Some(mood@),
            decay_rate,
        }),
{
    EmotionalRule {
        trigger,
        happiness_delta,
        affection_delta,
        trust_delta,
        dependency_delta,
        mood_change: Some(String::from_str(mood)),
        decay_rate,
    }
}

impl EmotionalDecayConfig {
    /// The default settings, with the floor stamped at time `now`.
    pub fn default_at(now: i64) -> (r: EmotionalDecayConfig)
        ensures
            default_decay_config(r@),
            r@.minimum_values.wf(),
    {
        EmotionalDecayConfig {
            base_decay_rate: 50,
            decay_interval_hours: 24,
            minimum_values: EmotionalState {
                happiness: 300,
                affection: 200,
                trust: 200,
                dependency: 100,
                mood: String::from_str("平静"),
                timestamp: now,
            },
        }
    }
}

impl Default for EmotionalDecayConfig {
    fn default() -> (r: EmotionalDecayConfig)
        ensures
            default_decay_config(r@),
            r@.minimum_values.wf(),
    {
        EmotionalDecayConfig::default_at(now_millis())
    }
}

impl EmotionalEngine {
    pub closed spec fn decay_view(&self) -> DecayConfigView {
        self.decay_config@
    }

    /// A new engine with the default rules, expressions and decay settings.
    pub fn new() -> (r: EmotionalEngine)
        ensures
            r.rules_view() == default_rules(),
            r.expressions_view() == default_phrases(),
            r.ranges_view() == default_ranges(),
            unique_triggers(r.rules_view()),
            unique_moods(r.expressions_view()),
            default_decay_config(r.decay_view()),
            r.decay_view().minimum_values.wf(),
    {
        let rules = vec![
            rule(EmotionalTrigger::PositiveInteraction, 100, 50, 30, 20, "开心", 20),
            rule(EmotionalTrigger::BeingPraised, 150, 100, 50, 30, "害羞", 10),
            rule(EmotionalTrigger::NegativeInteraction, -100, -30, -50, 10, "难过", 50),
            rule(EmotionalTrigger::LongConversation, 50, 80, 20, 50, "满足", 20),
        ];
        let expressions = default_expressions();
        proof {
            assert(rules@.map_values(|r: EmotionalRule| r@) =~= default_rules());
            lemma_defaults_unique();
        }
        EmotionalEngine { rules, expressions, decay_config: EmotionalDecayConfig::default() }
    }

    /// Moves one affect value toward its floor by `factor` thousandths of
    /// the distance.
    fn apply_decay(current: u32, target: u32, factor: u32) -> (r: u32)
        requires
            factor <= 500,
        ensures
            r as int == decay_toward(current as int, target as int, factor as int),
    {
        let c = current as i64;
        let t = target as i64;
        if c > t {
            assert(0 <= (c - t) * factor <= 4294967295 * 500) by (nonlinear_arith)
                requires 0 < c - t <= 4294967295, 0 <= factor <= 500;
            add_clamped(current, -(((c - t) * factor as i64) / 1000))
        } else {
            assert(0 <= (t - c) * factor <= 4294967295 * 500) by (nonlinear_arith)
                requires 0 <= t - c <= 4294967295, 0 <= factor <= 500;
            add_clamped(current, ((t - c) * factor as i64) / 1000)
        }
    }

    /// The state after passive decay at time `now`.
    pub fn apply_time_decay_at(&self, state: &EmotionalState, now: i64) -> (r: EmotionalState)
        ensures
            r@ == decay_result(self.decay_view(), state@, now),
    {
        let cfg = &self.decay_config;
        let diff: i128 = now as i128 - state.timestamp as i128;
        let hours: i128 = if diff >= 0 {
            diff / (MILLIS_PER_HOUR as i128)
        } else {
            -((-diff) / (MILLIS_PER_HOUR as i128))
        };
        if hours < cfg.decay_interval_hours as i128 {
            return state.duplicate();
        }
        let factor: u32 = if cfg.decay_interval_hours == 0 {
            500
        } else {
            assert(0 <= hours <= 0x1_0000_0000_0000_0000);
            assert(0 <= cfg.base_decay_rate as int * hours <= 0xffff_ffff * 0x1_0000_0000_0000_0000) by (nonlinear_arith)
                requires 0 <= hours <= 0x1_0000_0000_0000_0000, 0 <= cfg.base_decay_rate <= 0xffff_ffff;
            let f: i128 = (cfg.base_decay_rate as i128 * hours) / (cfg.decay_interval_hours as i128);
            if f < 500 { f as u32 } else { 500 }
        };
        let m = &cfg.minimum_values;
        let h = Self::apply_decay(state.happiness, m.happiness, factor);
        let a = Self::apply_decay(state.affection, m.affection, factor);
        let t = Self::apply_decay(state.trust, m.trust, factor);
        let d = Self::apply_decay(state.dependency, m.dependency, factor);
        EmotionalState { happiness: h, affection: a, trust: t, dependency: d, mood: mood_label(h, a, t), timestamp: now }
    }

    /// The state after passive decay now.
    pub fn apply_time_decay(&self, state: &EmotionalState) -> (r: EmotionalState)
        ensures
            exists|now: i64| r@ == decay_result(self.decay_view(), state@, now),
    {
        let now = now_millis();
        self.apply_time_decay_at(state, now)
    }
}

/// `pattern` occurs in `text` as a contiguous run.
pub open spec fn has_substring(text: Seq<char>, pattern: Seq<char>) -> bool {
    exists|i: int| 0 <= i <= text.len() - pattern.len() && #[trigger] text.subrange(i, i + pattern.len()) == pattern
}

/// How many of `keywords` occur in `text`.
pub open spec fn count_hits(text: Seq<char>, keywords: Seq<Seq<char>>) -> nat
    decreases keywords.len(),
{
    if keywords.len() == 0 {
        0
    } else {
        count_hits(text, keywords.drop_last()) + if has_substring(text, keywords.last()) { 1nat } else { 0nat }
    }
}

pub open spec fn positive_keywords() -> Seq<Seq<char>> {
    seq!["喜欢"@, "爱"@, "开心"@, "高兴"@, "棒"@, "好"@, "谢谢"@, "感谢"@]
}

pub open spec fn negative_keywords() -> Seq<Seq<char>> {
    seq!["讨厌"@, "烦"@, "生气"@, "难过"@, "不好"@, "糟糕"@]
}

pub open spec fn praise_keywords() -> Seq<Seq<char>> {
    seq!["聪明"@, "可爱"@, "漂亮"@, "棒"@, "厉害"@, "完美"@]
}

/// More short-term memories than this make a long conversation.
pub const LONG_CONVERSATION_MEMORIES: usize = 10;

/// Number of short-term entries among the given memory types.
pub open spec fn short_term_count(types: Seq<MemoryType>) -> nat {
    types.filter(|t: MemoryType| t == MemoryType::ShortTerm).len()
}

/// One trigger for a keyword category with `hits` matches, or none.
pub open spec fn trigger_if(trigger: EmotionalTrigger, hits: nat, per_hit: int) -> Seq<(EmotionalTrigger, i64)> {
    if hits > 0 {
        seq![(trigger, (hits * per_hit) as i64)]
    } else {
        seq![]
    }
}

/// The triggers found in (already lower-cased) input text given the types
/// of the recent memories, with intensities in thousandths: 0.3 per
/// positive keyword, 0.4 per negative one, 0.5 per praise, and 0.3 for a
/// long conversation.
pub open spec fn interaction_triggers(text: Seq<char>, types: Seq<MemoryType>) -> Seq<(EmotionalTrigger, i64)> {
    trigger_if(EmotionalTrigger::PositiveInteraction, count_hits(text, positive_keywords()), 300)
        + trigger_if(EmotionalTrigger::NegativeInteraction, count_hits(text, negative_keywords()), 400)
        + trigger_if(EmotionalTrigger::BeingPraised, count_hits(text, praise_keywords()), 500)
        + if short_term_count(types) > LONG_CONVERSATION_MEMORIES as nat {
            seq![(EmotionalTrigger::LongConversation, 300i64)]
        } else {
            seq![]
        }
}

/// The characters of a string.
pub fn chars_of(s: &str) -> (r: Vec<char>)
    ensures
        r@ == s@,
{
    let n = s.unicode_len();
    let mut r: Vec<char> = Vec::new();
    let mut i: usize = 0;
    while i < n
        invariant
            n == s@.len(),
            i <= n,
            r@ == s@.take(i as int),
        decreases n - i,
    {
        r.push(s.get_char(i));
        i += 1;
        assert(r@ =~= s@.take(i as int));
    }
    assert(s@.take(n as int) =~= s@);
    r
}

/// Whether `pattern` occurs in `text`.
pub fn contains_chars(text: &Vec<char>, pattern: &Vec<char>) -> (r: bool)
    ensures
        r == has_substring(text@, pattern@),
{
    let n = text.len();
    let m = pattern.len();
    if m > n {
        return false;
    }
    let mut i: usize = 0;
    while i <= n - m
        invariant
            m <= n,
            n == text@.len(),
            m == pattern@.len(),
            i <= n - m + 1,
            forall|k: int| 0 <= k < i ==> #[trigger] text@.subrange(k, k + m) != pattern@,
        decreases n - m + 1 - i,
    {
        let mut j: usize = 0;
        while j < m && text[i + j] == pattern[j]
            invariant
                i <= n - m,
                m <= n,
                n == text@.len(),
                m == pattern@.len(),
                j <= m,
                forall|k: int| 0 <= k < j ==> text@[i + k] == pattern@[k],
            decreases m - j,
        {
            j += 1;
        }
        if j == m {
            assert(text@.subrange(i as int, i + m) =~= pattern@);
            return true;
        }
        assert(text@.subrange(i as int, i + m)[j as int] != pattern@[j as int]);
        i += 1;
    }
    false
}

/// How many of `keywords` occur in `text`.
fn count_keyword_hits(text: &Vec<char>, keywords: &Vec<&str>) -> (r: u64)
    ensures
        r == count_hits(text@, keywords@.map_values(|k: &str| k@)),
        r <= keywords@.len(),
{
    let ghost kws = keywords@.map_values(|k: &str| k@);
    let mut count: u64 = 0;
    let mut i: usize = 0;
    while i < keywords.len()
        invariant
            i <= keywords.len(),
            kws == keywords@.map_values(|k: &str| k@),
            count == count_hits(text@, kws.take(i as int)),
            count <= i,
        decreases keywords.len() - i,
    {
        let k = chars_of(keywords[i]);
        let hit = contains_chars(text, &k);
        proof {
            assert(kws.take(i + 1).drop_last() =~= kws.take(i as int));
            assert(kws.take(i + 1).last() == kws[i as int]);
        }
        if hit {
            count += 1;
        }
        i += 1;
    }
    assert(kws.take(keywords.len() as int) =~= kws);
    count
}

/// Number of short-term entries among `memories`.
fn count_short_term(memories: &[MemoryEntry]) -> (r: usize)
    ensures
        r == short_term_count(memories@.map_values(|m: MemoryEntry| m.memory_type)),
{
    let ghost types = memories@.map_values(|m: MemoryEntry| m.memory_type);
    let mut count: usize = 0;
    let mut i: usize = 0;
    while i < memories.len()
        invariant
            i <= memories@.len(),
            types == memories@.map_values(|m: MemoryEntry| m.memory_type),
            count == short_term_count(types.take(i as int)),
            count <= i,
        decreases memories.len() - i,
    {
        proof {
            assert(types.take(i + 1) =~= types.take(i as int).push(types[i as int]));
            types.take(i as int).lemma_filter_push(types[i as int], |t: MemoryType| t == MemoryType::ShortTerm);
        }
        if memories[i].memory_type == MemoryType::ShortTerm {
            count += 1;
        }
        i += 1;
    }
    assert(types.take(memories.len() as int) =~= types);
    count
}

/// Relies on str::to_lowercase: the lower-case form of a string depends on
/// its characters alone.
pub uninterp spec fn lower_of(s: Seq<char>) -> Seq<char>;

impl EmotionalEngine {
    /// The triggers found in input that is already lower-cased.
    pub fn analyze_lowered(&self, input_lower: &str, memories: &[MemoryEntry]) -> (r: Vec<(EmotionalTrigger, i64)>)
        ensures
            r@ == interaction_triggers(input_lower@, memories@.map_values(|m: MemoryEntry| m.memory_type)),
    {
        let text = chars_of(input_lower);
        let positive: Vec<&str> = vec!["喜欢", "爱", "开心", "高兴", "棒", "好", "谢谢", "感谢"];
        let negative: Vec<&str> = vec!["讨厌", "烦", "生气", "难过", "不好", "糟糕"];
        let praise: Vec<&str> = vec!["聪明", "可爱", "漂亮", "棒", "厉害", "完美"];
        assert(positive@.map_values(|k: &str| k@) =~= positive_keywords());
        assert(negative@.map_values(|k: &str| k@) =~= negative_keywords());
        assert(praise@.map_values(|k: &str| k@) =~= praise_keywords());
        let mut triggers: Vec<(EmotionalTrigger, i64)> = Vec::new();
        let p = count_keyword_hits(&text, &positive);
        if p > 0 {
            triggers.push((EmotionalTrigger::PositiveInteraction, (p * 300) as i64));
        }
        let ghost t1 = triggers@;
        let n = count_keyword_hits(&text, &negative);
        if n > 0 {
            triggers.push((EmotionalTrigger::NegativeInteraction, (n * 400) as i64));
        }
        let ghost t2 = triggers@;
        let q = count_keyword_hits(&text, &praise);
        if q > 0 {
            triggers.push((EmotionalTrigger::BeingPraised, (q * 500) as i64));
        }
        let ghost t3 = triggers@;
        let recent = count_short_term(memories);
        if recent > LONG_CONVERSATION_MEMORIES {
            triggers.push((EmotionalTrigger::LongConversation, 300));
        }
        proof {
            let types = memories@.map_values(|m: MemoryEntry| m.memory_type);
            let a = trigger_if(EmotionalTrigger::PositiveInteraction, count_hits(text@, positive_keywords()), 300);
            let b = trigger_if(EmotionalTrigger::NegativeInteraction, count_hits(text@, negative_keywords()), 400);
            let c = trigger_if(EmotionalTrigger::BeingPraised, count_hits(text@, praise_keywords()), 500);
            assert(t1 =~= a);
            assert(t2 =~= a + b);
            assert(t3 =~= a + b + c);
            assert(triggers@ =~= interaction_triggers(input_lower@, types));
        }
        triggers
    }

    /// The triggers found in user input: the input is lower-cased, then
    /// scanned for positive, negative and praising keywords; many recent
    /// short-term memories add a long-conversation trigger.
    pub fn analyze_interaction(&self, user_input: &str, memories: &[MemoryEntry]) -> (r: Vec<(EmotionalTrigger, i64)>)
        ensures
            r@ == interaction_triggers(lower_of(user_input@), memories@.map_values(|m: MemoryEntry| m.memory_type)),
    {
        let lowered = to_lowercase(user_input);
        self.analyze_lowered(lowered.as_str(), memories)
    }
}

impl Default for EmotionalEngine {
    fn default() -> (r: EmotionalEngine)
        ensures
            r.rules_view() == default_rules(),
            r.expressions_view() == default_phrases(),
            r.ranges_view() == default_ranges(),
            unique_triggers(r.rules_view()),
            unique_moods(r.expressions_view()),
            default_decay_config(r.decay_view()),
    {
        EmotionalEngine::new()
    }
}

/// Relies on str::to_lowercase, whose result is named `lower_of`.
#[verifier::external_body]
fn to_lowercase(s: &str) -> (r: String)
    ensures
        r@ == lower_of(s@),
{
    s.to_lowercase()
}

/// The mood keys and phrases of the expression templates.
pub open spec fn phrases_view(exprs: Seq<(String, EmotionalExpression)>) -> Seq<(Seq<char>, Seq<Seq<char>>)> {
    exprs.map_values(|e: (String, EmotionalExpression)| (e.0@, e.1.expressions@.map_values(|p: String| p@)))
}

/// The phrases of the first template for `mood`, if any.
pub open spec fn find_phrases(exprs: Seq<(Seq<char>, Seq<Seq<char>>)>, mood: Seq<char>) -> Option<Seq<Seq<char>>>
    decreases exprs.len(),
{
    if exprs.len() == 0 {
        None
    } else if exprs[0].0 == mood {
        Some(exprs[0].1)
    } else {
        find_phrases(exprs.drop_first(), mood)
    }
}

/// A response decorated for the state's mood: with the template's first
/// phrase when happiness and affection average above 0.7, with " ^^" when
/// they average above 0.3, and unchanged otherwise or when no template
/// matches the mood.
pub open spec fn expression_text(exprs: Seq<(Seq<char>, Seq<Seq<char>>)>, s: EmotionalStateView, base: Seq<char>) -> Seq<char> {
    match find_phrases(exprs, s.mood) {
        Some(phrases) => {
            let sum = s.happiness + s.affection;
            if sum > 1400 {
                base + " "@ + if phrases.len() > 0 { phrases[0] } else { Seq::empty() }
            } else if sum > 600 {
                base + " ^^"@
            } else {
                base
            }
        },
        None => base,
    }
}

impl EmotionalEngine {
    pub closed spec fn expressions_view(&self) -> Seq<(Seq<char>, Seq<Seq<char>>)> {
        phrases_view(self.expressions@)
    }

    /// The mood range of each expression template, in template order.
    pub closed spec fn ranges_view(&self) -> Seq<(u32, u32)> {
        ranges_of(self.expressions@)
    }

    /// Index of the first template for `mood`, if any.
    fn find_expression_index(&self, mood: &String) -> (r: Option<usize>)
        ensures
            match r {
                Some(i) => i < self.expressions.len() && find_phrases(self.expressions_view(), mood@) == Some(self.expressions_view()[i as int].1),
                None => find_phrases(self.expressions_view(), mood@) is None,
            },
    {
        let ghost exprs = self.expressions_view();
        assert(exprs.subrange(0, exprs.len() as int) =~= exprs);
        let mut i: usize = 0;
        while i < self.expressions.len()
            invariant
                i <= self.expressions.len(),
                exprs == self.expressions_view(),
                exprs.len() == self.expressions.len(),
                find_phrases(exprs, mood@) == find_phrases(exprs.subrange(i as int, exprs.len() as int), mood@),
            decreases self.expressions.len() - i,
        {
            proof {
                let rest = exprs.subrange(i as int, exprs.len() as int);
                assert(rest[0] == exprs[i as int]);
                assert(rest.drop_first() =~= exprs.subrange(i + 1, exprs.len() as int));
            }
            if self.expressions[i].0 == *mood {
                return Some(i);
            }
            i += 1;
        }
        None
    }

    /// Decorates `base_response` according to the state's mood and
    /// intensity.
    pub fn generate_emotional_expression(&self, state: &EmotionalState, base_response: &str) -> (r: String)
        ensures
            r@ == expression_text(self.expressions_view(), state@, base_response@),
    {
        let mut out = String::from_str(base_response);
        match self.find_expression_index(&state.mood) {
            Some(i) => {
                let sum: u64 = state.happiness as u64 + state.affection as u64;
                if sum > 1400 {
                    out.append(" ");
                    let phrases = &self.expressions[i].1.expressions;
                    if phrases.len() > 0 {
                        out.append(phrases[0].as_str());
                    }
                } else if sum > 600 {
                    out.append(" ^^");
                }
            },
            None => {},
        }
        out
    }
}

fn expression(mood_range: (u32, u32), phrases: [&str; 3], personality_modifier: u32) -> (r: EmotionalExpression)
    ensures
        r.mood_range == mood_range,
        r.expressions@.map_values(|p: String| p@) == seq![phrases[0]@, phrases[1]@, phrases[2]@],
{
    let r = EmotionalExpression {
        mood_range,
        expressions: vec![String::from_str(phrases[0]), String::from_str(phrases[1]), String::from_str(phrases[2])],
        personality_modifier,
    };
    assert(r.expressions@.map_values(|p: String| p@) =~= seq![phrases[0]@, phrases[1]@, phrases[2]@]);
    r
}

/// The mood keys and phrases of the templates the engine starts with.
pub open spec fn default_phrases() -> Seq<(Seq<char>, Seq<Seq<char>>)> {
    seq![
        ("开心"@, seq!["(*≧ω≦*)"@, "好开心呀！"@, "\\(^o^)/"@]),
        ("害羞"@, seq!["(//▽//)"@, "害羞~"@, "人家会脸红的..."@]),
        ("难过"@, seq!["(╥﹏╥)"@, "呜呜..."@, "心情不好..."@]),
        ("满足"@, seq!["(´∀｀)"@, "好满足~"@, "和你聊天真开心"@]),
    ]
}

/// No trigger has two rules.
pub open spec fn unique_triggers(rules: Seq<EmotionalRuleView>) -> bool {
    forall|i: int, j: int| 0 <= i < j < rules.len() ==> (#[trigger] rules[i]).trigger != (#[trigger] rules[j]).trigger
}

/// No mood has two templates.
pub open spec fn unique_moods(exprs: Seq<(Seq<char>, Seq<Seq<char>>)>) -> bool {
    forall|i: int, j: int| 0 <= i < j < exprs.len() ==> (#[trigger] exprs[i]).0 != (#[trigger] exprs[j]).0
}

/// The mood ranges of the templates the engine starts with.
pub open spec fn default_ranges() -> Seq<(u32, u32)> {
    seq![(600u32, 1000u32), (400u32, 800u32), (0u32, 400u32), (500u32, 900u32)]
}

/// The mood ranges of expression templates.
pub open spec fn ranges_of(exprs: Seq<(String, EmotionalExpression)>) -> Seq<(u32, u32)> {
    exprs.map_values(|e: (String, EmotionalExpression)| e.1.mood_range)
}

/// The default rules handle four distinct triggers, and the default
/// templates four distinct moods.
pub proof fn lemma_defaults_unique()
    ensures
        unique_triggers(default_rules()),
        unique_moods(default_phrases()),
{
    reveal_strlit("开心");
    reveal_strlit("害羞");
    reveal_strlit("难过");
    reveal_strlit("满足");
    let p = default_phrases();
    assert(p[0].0 != p[1].0 && p[0].0 != p[2].0 && p[0].0 != p[3].0 && p[1].0 != p[2].0 && p[1].0 != p[3].0 && p[2].0 != p[3].0) by {
        assert(p[0].0[0] != p[1].0[0]);
        assert(p[0].0[0] != p[2].0[0]);
        assert(p[0].0[0] != p[3].0[0]);
        assert(p[1].0[0] != p[2].0[0]);
        assert(p[1].0[0] != p[3].0[0]);
        assert(p[2].0[0] != p[3].0[0]);
    }
}

/// The templates the engine starts with, keyed by mood.
fn default_expressions() -> (r: Vec<(String, EmotionalExpression)>)
    ensures
        phrases_view(r@) == default_phrases(),
        ranges_of(r@) == default_ranges(),
{
    let r = vec![
        (String::from_str("开心"), expression((600, 1000), ["(*≧ω≦*)", "好开心呀！", "\\(^o^)/"], 1200)),
        (String::from_str("害羞"), expression((400, 800), ["(//▽//)", "害羞~", "人家会脸红的..."], 1100)),
        (String::from_str("难过"), expression((0, 400), ["(╥﹏╥)", "呜呜...", "心情不好..."], 800)),
        (String::from_str("满足"), expression((500, 900), ["(´∀｀)", "好满足~", "和你聊天真开心"], 1000)),
    ];
    assert(phrases_view(r@) =~= default_phrases());
    assert(ranges_of(r@) =~= default_ranges());
    r
}

} // verus!
