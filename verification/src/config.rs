//! What the operator has configured.
use crate::entries::{distinct_keys, has_key, key_index, lemma_members_after_insert, lemma_same_members};
use crate::models::opt_text;
use crate::text::{
    blank, chars_of, is_blank, number_up_to, parse_up_to, same_text, split, split_once,
    split_once_text, split_text, texts, trim, trim_text,
};
use vstd::prelude::*;

verus! {

// ---------------------------------------------------------------------------------------------
// Names mapped to names.

/// A map from names to names. No name is mapped twice.
#[derive(Debug)]
pub struct StringMap {
    entries: Vec<(String, String)>,
}

impl StringMap {
    pub closed spec fn view(&self) -> Map<Seq<char>, Seq<char>> {
        Map::new(
            |key: Seq<char>| has_key(self.entries@, key),
            |key: Seq<char>| self.entries@[key_index(self.entries@, key)].1@,
        )
    }

    #[verifier::type_invariant]
    spec fn keys_distinct(self) -> bool {
        distinct_keys(self.entries@)
    }

    /// Nothing is mapped.
    pub fn new() -> (map: StringMap)
        ensures
            map@ == Map::<Seq<char>, Seq<char>>::empty(),
    {
        let map = StringMap { entries: Vec::new() };
        assert(map@ =~= Map::<Seq<char>, Seq<char>>::empty());
        map
    }

    fn position(&self, key: &str) -> (r: Option<usize>)
        ensures
            match r {
                Some(i) => i < self.entries@.len() && self.entries@[i as int].0@ == key@,
                None => !has_key(self.entries@, key@),
            },
    {
        let mut i: usize = 0;
        while i < self.entries.len()
            invariant
                i <= self.entries@.len(),
                forall|j: int| 0 <= j < i ==> (#[trigger] self.entries@[j]).0@ != key@,
            decreases self.entries@.len() - i,
        {
            if same_text(self.entries[i].0.as_str(), key) {
                return Some(i);
            }
            i += 1;
        }
        None
    }

    /// What `key` is mapped to.
    pub fn get(&self, key: &str) -> (r: Option<&String>)
        ensures
            match r {
                Some(value) => self@.contains_key(key@) && self@[key@] == value@,
                None => !self@.contains_key(key@),
            },
    {
        match self.position(key) {
            Some(i) => {
                proof {
                    use_type_invariant(self);
                    assert(has_key(self.entries@, key@));
                    assert(key_index(self.entries@, key@) == i);
                }
                Some(&self.entries[i].1)
            },
            None => None,
        }
    }

    /// Maps `key` to `value`.
    pub fn insert(self, key: String, value: String) -> (map: StringMap)
        ensures
            map@ == self@.insert(key@, value@),
    {
        proof {
            use_type_invariant(&self);
        }
        let found = self.position(key.as_str());
        let ghost before = self;
        let mut entries = self.entries;
        match found {
            Some(i) => {
                entries.set(i, (key, value));
            },
            None => {
                entries.push((key, value));
            },
        }
        proof {
            let at = match found {
                Some(i) => i as int,
                None => before.entries@.len() as int,
            };
            assert(entries@[at] == (key, value));
            assert forall|i: int, j: int|
                #![trigger entries@[i], entries@[j]]
                0 <= i < j < entries@.len() implies entries@[i].0@ != entries@[j].0@ by {
                if i != at {
                    assert(entries@[i] == before.entries@[i]);
                }
                if j != at {
                    assert(entries@[j] == before.entries@[j]);
                }
            }
        }
        let map = StringMap { entries };
        proof {
            lemma_members_after_insert(before.entries@, map.entries@, key@, value);
            assert(map@ =~= before@.insert(key@, value@));
        }
        map
    }
}

impl Clone for StringMap {
    fn clone(&self) -> (copy: Self)
        ensures
            copy@ == self@,
    {
        proof {
            use_type_invariant(self);
        }
        let mut copies: Vec<(String, String)> = Vec::new();
        let mut i: usize = 0;
        while i < self.entries.len()
            invariant
                i <= self.entries@.len(),
                copies@.len() == i,
                forall|j: int|
                    0 <= j < i ==> (#[trigger] copies@[j]).0@ == self.entries@[j].0@ && copies@[j].1@
                        == self.entries@[j].1@,
            decreases self.entries@.len() - i,
        {
            copies.push((self.entries[i].0.clone(), self.entries[i].1.clone()));
            i += 1;
        }
        let copy = StringMap { entries: copies };
        proof {
            lemma_same_members(self.entries@, copy.entries@);
            assert(copy@ =~= self@);
        }
        copy
    }
}

/// The map with one more segment, written `source=target`. Any other segment is passed over.
pub open spec fn with_mapping(map: Map<Seq<char>, Seq<char>>, segment: Seq<char>) -> Map<
    Seq<char>,
    Seq<char>,
> {
    match split_once(segment, "="@) {
        Some((source, target)) => if trim(source).len() > 0 && trim(target).len() > 0 {
            map.insert(trim(source), trim(target))
        } else {
            map
        },
        None => map,
    }
}

pub open spec fn with_mappings(segments: Seq<Seq<char>>) -> Map<Seq<char>, Seq<char>>
    decreases segments.len(),
{
    if segments.len() == 0 {
        Map::empty()
    } else {
        with_mapping(with_mappings(segments.drop_last()), segments.last())
    }
}

/// Reads a configured map: segments separated by semicolons, of which a later one counts.
pub fn parse_model_map(text: &str) -> (map: StringMap)
    ensures
        map@ == with_mappings(split(text@, ';')),
{
    let segments = split_text(text, ';');
    let ghost all = texts(segments@);
    let mut map = StringMap::new();
    let mut i: usize = 0;
    assert(all.take(0) =~= Seq::empty());
    while i < segments.len()
        invariant
            i <= segments@.len(),
            all == texts(segments@),
            map@ == with_mappings(all.take(i as int)),
        decreases segments@.len() - i,
    {
        let ghost next = all.take(i + 1);
        assert(next.drop_last() =~= all.take(i as int));
        assert(next.last() == segments@[i as int]@);
        match split_once_text(segments[i].as_str(), "=") {
            Some((source, target)) => {
                let source = trim_text(source.as_str());
                let target = trim_text(target.as_str());
                if !source.as_str().is_empty() && !target.as_str().is_empty() {
                    map = map.insert(source, target);
                }
            },
            None => {},
        }
        i += 1;
    }
    assert(all.take(all.len() as int) =~= all);
    map
}

// ---------------------------------------------------------------------------------------------
// Terms.

/// The trimmed pieces that are not empty, in order.
pub open spec fn trimmed_pieces(pieces: Seq<Seq<char>>) -> Seq<Seq<char>>
    decreases pieces.len(),
{
    if pieces.len() == 0 {
        Seq::empty()
    } else {
        let before = trimmed_pieces(pieces.drop_last());
        if trim(pieces.last()).len() == 0 {
            before
        } else {
            before.push(trim(pieces.last()))
        }
    }
}

/// The terms of each line.
pub open spec fn terms_of_lines(all: Seq<Seq<char>>) -> Seq<Seq<char>>
    decreases all.len(),
{
    if all.len() == 0 {
        Seq::empty()
    } else {
        terms_of_lines(all.drop_last()) + trimmed_pieces(split(all.last(), ';'))
    }
}

fn terms_of_line(line: &str) -> (r: Vec<String>)
    ensures
        texts(r@) == trimmed_pieces(split(line@, ';')),
{
    let pieces = split_text(line, ';');
    let ghost all = texts(pieces@);
    let mut terms: Vec<String> = Vec::new();
    let mut i: usize = 0;
    assert(texts(terms@) =~= trimmed_pieces(all.take(0)));
    while i < pieces.len()
        invariant
            i <= pieces@.len(),
            all == texts(pieces@),
            texts(terms@) == trimmed_pieces(all.take(i as int)),
        decreases pieces@.len() - i,
    {
        let ghost next = all.take(i + 1);
        assert(next.drop_last() =~= all.take(i as int));
        let term = trim_text(pieces[i].as_str());
        if !term.as_str().is_empty() {
            terms.push(term);
        }
        assert(texts(terms@) =~= trimmed_pieces(next));
        i += 1;
    }
    assert(all.take(all.len() as int) =~= all);
    terms
}

/// Reads configured terms, which semicolons and line ends separate.
pub fn parse_terms(text: &str) -> (r: Vec<String>)
    ensures
        texts(r@) == terms_of_lines(split(text@, '\n')),
{
    let lines = split_text(text, '\n');
    let ghost all = texts(lines@);
    let mut terms: Vec<String> = Vec::new();
    let mut i: usize = 0;
    assert(texts(terms@) =~= terms_of_lines(all.take(0)));
    while i < lines.len()
        invariant
            i <= lines@.len(),
            all == texts(lines@),
            texts(terms@) == terms_of_lines(all.take(i as int)),
        decreases lines@.len() - i,
    {
        let ghost next = all.take(i + 1);
        let ghost before = texts(terms@);
        assert(next.drop_last() =~= all.take(i as int));
        let mut found = terms_of_line(lines[i].as_str());
        let ghost added = texts(found@);
        terms.append(&mut found);
        assert(texts(terms@) =~= before + added);
        i += 1;
    }
    assert(all.take(all.len() as int) =~= all);
    terms
}

// ---------------------------------------------------------------------------------------------
// Reasoning effort.

/// A thinking budget above this counts as this.
pub const MAX_BUDGET: u32 = 16384;

/// The effort for thinking budgets up to a limit.
#[derive(Debug)]
pub struct EffortTier {
    pub effort: String,
    pub max_budget: u32,
}

pub ghost struct TierSpec {
    pub effort: Seq<char>,
    pub max_budget: u32,
}

impl EffortTier {
    pub open spec fn view(&self) -> TierSpec {
        TierSpec { effort: self.effort@, max_budget: self.max_budget }
    }
}

pub open spec fn tiers_view(tiers: Seq<EffortTier>) -> Seq<TierSpec> {
    tiers.map_values(|t: EffortTier| t@)
}

/// Tiers for one model.
#[derive(Debug)]
pub struct ModelTiers {
    pub model: String,
    pub tiers: Vec<EffortTier>,
}

impl ModelTiers {
    pub open spec fn view(&self) -> (Seq<char>, Seq<TierSpec>) {
        (self.model@, tiers_view(self.tiers@))
    }
}

/// Which effort a thinking budget asks for: tiers for every model, and tiers of their own for
/// some models.
#[derive(Debug)]
pub struct EffortMap {
    pub global: Vec<EffortTier>,
    pub overrides: Vec<ModelTiers>,
}

pub ghost struct EffortMapSpec {
    pub global: Seq<TierSpec>,
    pub overrides: Seq<(Seq<char>, Seq<TierSpec>)>,
}

impl EffortMap {
    pub open spec fn view(&self) -> EffortMapSpec {
        EffortMapSpec {
            global: tiers_view(self.global@),
            overrides: self.overrides@.map_values(|m: ModelTiers| m@),
        }
    }
}

/// One tier, written `effort:limit`.
pub open spec fn tier_of(text: Seq<char>) -> Option<TierSpec> {
    match split_once(text, ":"@) {
        Some((effort, limit)) => match number_up_to(trim(limit), u32::MAX as nat) {
            Some(n) => if trim(effort).len() > 0 {
                Some(TierSpec { effort: trim(effort), max_budget: n as u32 })
            } else {
                None
            },
            None => None,
        },
        None => None,
    }
}

/// The tiers among the pieces of a list. What is no tier is passed over.
pub open spec fn tiers_among(pieces: Seq<Seq<char>>) -> Seq<TierSpec>
    decreases pieces.len(),
{
    if pieces.len() == 0 {
        Seq::empty()
    } else {
        let before = tiers_among(pieces.drop_last());
        match tier_of(pieces.last()) {
            Some(tier) => before.push(tier),
            None => before,
        }
    }
}

/// The tiers of a list separated by commas.
pub open spec fn tiers_of(text: Seq<char>) -> Seq<TierSpec> {
    tiers_among(split(text, ','))
}

/// The map with one more segment: `model=tiers` for one model, `tiers` for all.
pub open spec fn with_segment(map: EffortMapSpec, segment: Seq<char>) -> EffortMapSpec {
    match split_once(segment, "="@) {
        Some((model, tiers)) => EffortMapSpec {
            global: map.global,
            overrides: map.overrides.push((trim(model), tiers_of(tiers))),
        },
        None => if blank(segment) {
            map
        } else {
            EffortMapSpec { global: tiers_of(segment), overrides: map.overrides }
        },
    }
}

pub open spec fn with_segments(segments: Seq<Seq<char>>) -> EffortMapSpec
    decreases segments.len(),
{
    if segments.len() == 0 {
        EffortMapSpec { global: Seq::empty(), overrides: Seq::empty() }
    } else {
        with_segment(with_segments(segments.drop_last()), segments.last())
    }
}

/// What a configured map says: segments separated by semicolons.
pub open spec fn effort_map_of(text: Seq<char>) -> EffortMapSpec {
    with_segments(split(text, ';'))
}

/// The tiers that hold for a model: the last given for it, or else those for all.
pub open spec fn tiers_for(map: EffortMapSpec, model: Seq<char>) -> Seq<TierSpec>
    decreases map.overrides.len(),
{
    if map.overrides.len() == 0 {
        map.global
    } else if map.overrides.last().0 == model {
        map.overrides.last().1
    } else {
        tiers_for(
            EffortMapSpec { global: map.global, overrides: map.overrides.drop_last() },
            model,
        )
    }
}

/// The first of the highest tiers.
pub open spec fn highest_tier(tiers: Seq<TierSpec>) -> Option<Seq<char>> {
    if tiers.len() == 0 {
        None
    } else {
        Some(tiers[highest_at(tiers)].effort)
    }
}

/// The position of the first of the highest tiers.
pub open spec fn highest_at(tiers: Seq<TierSpec>) -> int
    decreases tiers.len(),
{
    if tiers.len() <= 1 {
        0
    } else {
        let before = highest_at(tiers.drop_last());
        if tiers.last().max_budget > tiers[before].max_budget {
            tiers.len() - 1
        } else {
            before
        }
    }
}

/// The first tier that reaches the budget, or else the highest.
pub open spec fn tier_for(tiers: Seq<TierSpec>, budget: u32) -> Option<Seq<char>> {
    if exists|i: int| 0 <= i < tiers.len() && (#[trigger] tiers[i]).max_budget >= budget {
        let at = choose|i: int| first_reaching(tiers, budget, i);
        Some(tiers[at].effort)
    } else {
        highest_tier(tiers)
    }
}

pub open spec fn first_reaching(tiers: Seq<TierSpec>, budget: u32, i: int) -> bool {
    0 <= i < tiers.len() && tiers[i].max_budget >= budget && forall|j: int|
        0 <= j < i ==> (#[trigger] tiers[j]).max_budget < budget
}

/// The effort that a map gives a model for a thinking budget.
pub open spec fn resolved_effort(map: EffortMapSpec, model: Seq<char>, budget: u32) -> Option<
    Seq<char>,
> {
    tier_for(
        tiers_for(map, model),
        if budget > MAX_BUDGET {
            MAX_BUDGET
        } else {
            budget
        },
    )
}

fn parse_tier(text: &str) -> (r: Option<EffortTier>)
    ensures
        match r {
            Some(tier) => tier_of(text@) == Some(tier@),
            None => tier_of(text@) is None,
        },
{
    match split_once_text(text, ":") {
        Some((effort, limit)) => {
            let digits = chars_of(trim_text(limit.as_str()).as_str());
            let n = digits.len();
            assert(digits@.subrange(0, n as int) =~= digits@);
            match parse_up_to(&digits, 0, n, u32::MAX as u64) {
                Some(max_budget) => {
                    let effort = trim_text(effort.as_str());
                    if effort.as_str().is_empty() {
                        None
                    } else {
                        Some(EffortTier { effort, max_budget: max_budget as u32 })
                    }
                },
                None => None,
            }
        },
        None => None,
    }
}

fn parse_tiers(text: &str) -> (r: Vec<EffortTier>)
    ensures
        tiers_view(r@) == tiers_of(text@),
{
    let pieces = split_text(text, ',');
    let mut tiers: Vec<EffortTier> = Vec::new();
    let mut i: usize = 0;
    let ghost all = texts(pieces@);
    assert(tiers_view(tiers@) =~= tiers_among(all.take(0)));
    while i < pieces.len()
        invariant
            i <= pieces@.len(),
            all == texts(pieces@),
            tiers_view(tiers@) == tiers_among(all.take(i as int)),
        decreases pieces@.len() - i,
    {
        let ghost next = all.take(i + 1);
        assert(next.drop_last() =~= all.take(i as int));
        match parse_tier(pieces[i].as_str()) {
            Some(tier) => {
                tiers.push(tier);
            },
            None => {},
        }
        assert(tiers_view(tiers@) =~= tiers_among(next));
        i += 1;
    }
    assert(all.take(all.len() as int) =~= all);
    tiers
}

impl EffortMap {
    /// Reads a configured map.
    pub fn parse(text: &str) -> (map: EffortMap)
        ensures
            map@ == effort_map_of(text@),
    {
        let segments = split_text(text, ';');
        let mut map = EffortMap { global: Vec::new(), overrides: Vec::new() };
        let mut i: usize = 0;
        let ghost all = texts(segments@);
        proof {
            assert(map@.global =~= Seq::empty());
            assert(map@.overrides =~= Seq::empty());
            assert(all.take(0) =~= Seq::empty());
        }
        while i < segments.len()
            invariant
                i <= segments@.len(),
                all == texts(segments@),
                map@ == with_segments(all.take(i as int)),
            decreases segments@.len() - i,
        {
            let ghost next = all.take(i + 1);
            let ghost before = map@;
            assert(next.drop_last() =~= all.take(i as int));
            assert(next.last() == segments@[i as int]@);
            let segment = segments[i].as_str();
            match split_once_text(segment, "=") {
                Some((model, tiers)) => {
                    let own = ModelTiers {
                        model: trim_text(model.as_str()),
                        tiers: parse_tiers(tiers.as_str()),
                    };
                    map.overrides.push(own);
                    assert(map@.overrides =~= before.overrides.push(own@));
                },
                None => {
                    if !is_blank(segment) {
                        map.global = parse_tiers(segment);
                    }
                },
            }
            i += 1;
        }
        assert(all.take(all.len() as int) =~= all);
        map
    }

    fn tiers_of_model(&self, model: &str) -> (r: &Vec<EffortTier>)
        ensures
            tiers_view(r@) == tiers_for(self@, model@),
    {
        let mut i: usize = self.overrides.len();
        let ghost all = self@.overrides;
        assert(all.take(i as int) =~= all);
        while i > 0
            invariant
                i <= self.overrides@.len(),
                all == self@.overrides,
                tiers_for(self@, model@) == tiers_for(
                    EffortMapSpec { global: self@.global, overrides: all.take(i as int) },
                    model@,
                ),
            decreases i,
        {
            let ghost here = all.take(i as int);
            assert(here.drop_last() =~= all.take(i - 1));
            assert(here.last() == self.overrides@[i - 1]@);
            i -= 1;
            if same_text(self.overrides[i].model.as_str(), model) {
                return &self.overrides[i].tiers;
            }
        }
        &self.global
    }

    /// The effort for a model and a thinking budget; `None` where no tiers are configured.
    pub fn resolve(&self, model: &str, budget: u32) -> (r: Option<String>)
        ensures
            opt_text(r) == resolved_effort(self@, model@, budget),
    {
        let asked = if budget > MAX_BUDGET {
            MAX_BUDGET
        } else {
            budget
        };
        let tiers = self.tiers_of_model(model);
        let ghost view = tiers_view(tiers@);
        if tiers.len() == 0 {
            return None;
        }
        let mut highest: usize = 0;
        let mut i: usize = 0;
        while i < tiers.len()
            invariant
                i <= tiers@.len(),
                tiers@.len() > 0,
                view == tiers_view(tiers@),
                highest < tiers@.len(),
                highest < i || i == 0 && highest == 0,
                highest == highest_at(view.take(i as int)),
                forall|j: int| 0 <= j < i ==> (#[trigger] view[j]).max_budget < asked,
                view == tiers_for(self@, model@),
                asked == if budget > MAX_BUDGET {
                    MAX_BUDGET
                } else {
                    budget
                },
            decreases tiers@.len() - i,
        {
            let ghost next = view.take(i + 1);
            assert(next.drop_last() =~= view.take(i as int));
            assert(view[i as int].max_budget == tiers@[i as int].max_budget);
            if tiers[i].max_budget >= asked {
                proof {
                    assert(first_reaching(view, asked, i as int));
                    let at = choose|k: int| first_reaching(view, asked, k);
                    assert(at == i);
                }
                return Some(tiers[i].effort.clone());
            }
            assert(next[highest as int].max_budget == tiers@[highest as int].max_budget);
            if tiers[i].max_budget > tiers[highest].max_budget {
                highest = i;
            }
            i += 1;
        }
        assert(view.take(view.len() as int) =~= view);
        Some(tiers[highest].effort.clone())
    }
}

/// Of tiers, a budget above the limit asks for what the limit asks for.
pub proof fn law_budget_is_clamped(map: EffortMapSpec, model: Seq<char>, budget: u32)
    requires
        budget >= MAX_BUDGET,
    ensures
        resolved_effort(map, model, budget) == resolved_effort(map, model, MAX_BUDGET),
{
}

/// An effort is given if and only if there are tiers for the model.
pub proof fn law_effort_needs_tiers(map: EffortMapSpec, model: Seq<char>, budget: u32)
    ensures
        resolved_effort(map, model, budget) is Some <==> tiers_for(map, model).len() > 0,
{
}

fn copy_tiers(tiers: &Vec<EffortTier>) -> (copy: Vec<EffortTier>)
    ensures
        tiers_view(copy@) == tiers_view(tiers@),
{
    let mut copy: Vec<EffortTier> = Vec::new();
    let mut i: usize = 0;
    while i < tiers.len()
        invariant
            i <= tiers@.len(),
            copy@.len() == i,
            forall|j: int| 0 <= j < i ==> (#[trigger] copy@[j])@ == tiers@[j]@,
        decreases tiers@.len() - i,
    {
        copy.push(
            EffortTier { effort: tiers[i].effort.clone(), max_budget: tiers[i].max_budget },
        );
        i += 1;
    }
    assert(tiers_view(copy@) =~= tiers_view(tiers@));
    copy
}

impl Clone for EffortMap {
    fn clone(&self) -> (copy: Self)
        ensures
            copy@ == self@,
    {
        let mut overrides: Vec<ModelTiers> = Vec::new();
        let mut i: usize = 0;
        while i < self.overrides.len()
            invariant
                i <= self.overrides@.len(),
                overrides@.len() == i,
                forall|j: int| 0 <= j < i ==> (#[trigger] overrides@[j])@ == self.overrides@[j]@,
            decreases self.overrides@.len() - i,
        {
            overrides.push(
                ModelTiers {
                    model: self.overrides[i].model.clone(),
                    tiers: copy_tiers(&self.overrides[i].tiers),
                },
            );
            i += 1;
        }
        let copy = EffortMap { global: copy_tiers(&self.global), overrides };
        assert(copy@.overrides =~= self@.overrides);
        copy
    }
}

// ---------------------------------------------------------------------------------------------
// The configuration.

#[derive(Debug)]
pub struct Config {
    /// The key for the upstream, where it is not each client's own.
    pub api_key: Option<String>,
    /// Each client's key is handed on.
    pub passthrough_api_key: bool,
    /// The model for requests with extended thinking, where it is not the client's choice.
    pub reasoning_model: Option<String>,
    /// The model for all other requests, where it is not the client's choice.
    pub completion_model: Option<String>,
    /// Models that are replaced by others.
    pub model_map: StringMap,
    pub effort_map: EffortMap,
    /// What is removed from system prompts.
    pub system_prompt_ignore_terms: Vec<String>,
    /// The upstream can count tokens.
    pub upstream_tokenize: bool,
    /// The model that runs web searches; without one there are none.
    pub websearch_model: Option<String>,
    /// Seconds of silence on a stream before a sign of life; 0 for none.
    pub heartbeat_secs: u64,
}

impl Default for Config {
    /// Nothing is configured.
    fn default() -> (config: Self)
        ensures
            config.api_key is None,
            !config.passthrough_api_key,
            config.reasoning_model is None,
            config.completion_model is None,
            config.model_map@ == Map::<Seq<char>, Seq<char>>::empty(),
            config.effort_map@ == (EffortMapSpec {
                global: Seq::empty(),
                overrides: Seq::empty(),
            }),
            config.system_prompt_ignore_terms@.len() == 0,
            !config.upstream_tokenize,
            config.websearch_model is None,
            config.heartbeat_secs == 15,
    {
        let effort_map = EffortMap { global: Vec::new(), overrides: Vec::new() };
        proof {
            assert(effort_map@.global =~= Seq::empty());
            assert(effort_map@.overrides =~= Seq::empty());
        }
        Config {
            api_key: None,
            passthrough_api_key: false,
            reasoning_model: None,
            completion_model: None,
            model_map: StringMap::new(),
            effort_map,
            system_prompt_ignore_terms: Vec::new(),
            upstream_tokenize: false,
            websearch_model: None,
            heartbeat_secs: 15,
        }
    }
}

} // verus!
