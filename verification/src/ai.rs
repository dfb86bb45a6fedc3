//! AI-assisted workflows: building-code rule checks and modelling
//! suggestions derived from the entity graph.
use vstd::prelude::*;
use vstd::string::*;

use crate::entity::{entity_values, Entity, EntityCategory, EntityGraph};

verus! {

/// A building-code rule check that applies to one category.
#[derive(Debug, Clone)]
pub struct RuleCheck {
    pub id: u64,
    pub name: String,
    pub description: String,
    /// Category this rule applies to.
    pub applies_to: EntityCategory,
}

/// Result of a rule check.
#[derive(Debug, Clone)]
pub struct RuleCheckResult {
    pub rule_id: u64,
    pub passed: bool,
    pub message: String,
}

/// The plain content of a rule check result.
pub open spec fn result_view(r: RuleCheckResult) -> (u64, bool, Seq<char>) {
    (r.rule_id, r.passed, r.message@)
}

/// The result of checking any entity against `rule`: every check passes,
/// with the message `<rule name>: passed`.
pub open spec fn check_outcome(rule: RuleCheck) -> (u64, bool, Seq<char>) {
    (rule.id, true, rule.name@ + ": passed"@)
}

impl RuleCheck {
    /// Check an entity against this rule; every check currently passes.
    pub fn check<G, V>(&self, _entity: &Entity<G, V>) -> (r: RuleCheckResult)
        ensures
            result_view(r) == check_outcome(*self),
    {
        let mut message = self.name.clone();
        message.append(": passed");
        RuleCheckResult { rule_id: self.id, passed: true, message }
    }
}

/// The outcomes of checking one entity of category `c`: one per rule that
/// applies to `c`, in rule order.
pub open spec fn rule_outcomes(rules: Seq<RuleCheck>, c: EntityCategory) -> Seq<(u64, bool, Seq<char>)>
    decreases rules.len(),
{
    if rules.len() == 0 {
        Seq::empty()
    } else {
        let prev = rule_outcomes(rules.drop_last(), c);
        if rules.last().applies_to == c {
            prev.push(check_outcome(rules.last()))
        } else {
            prev
        }
    }
}

/// The outcomes of checking entities of categories `cats`, entity by
/// entity.
pub open spec fn check_outcomes(cats: Seq<EntityCategory>, rules: Seq<RuleCheck>) -> Seq<(u64, bool, Seq<char>)>
    decreases cats.len(),
{
    if cats.len() == 0 {
        Seq::empty()
    } else {
        check_outcomes(cats.drop_last(), rules) + rule_outcomes(rules, cats.last())
    }
}

/// The categories of a sequence of entities.
pub open spec fn categories_of<G, V>(es: Seq<Entity<G, V>>) -> Seq<EntityCategory> {
    es.map_values(|e: Entity<G, V>| e.category)
}

/// A modelling suggestion the analysis can make.
#[derive(Debug, Clone, Copy, PartialEq, Eq, Structural)]
pub enum SuggestionKind {
    /// Walls have neither doors nor windows.
    AddDoorsAndWindows,
    /// Walls have doors but no windows.
    AddWindows,
}

impl SuggestionKind {
    /// The text of each suggestion.
    pub open spec fn spec_description(self) -> Seq<char> {
        match self {
            SuggestionKind::AddDoorsAndWindows => "Consider adding doors and windows to the walls"@,
            SuggestionKind::AddWindows => "Consider adding windows for natural lighting"@,
        }
    }

    /// The category each suggestion proposes to add.
    pub open spec fn spec_category(self) -> EntityCategory {
        match self {
            SuggestionKind::AddDoorsAndWindows => EntityCategory::Door,
            SuggestionKind::AddWindows => EntityCategory::Window,
        }
    }

    /// The suggestion's text.
    pub fn description(&self) -> (s: &'static str)
        ensures
            s@ == self.spec_description(),
    {
        match self {
            SuggestionKind::AddDoorsAndWindows => "Consider adding doors and windows to the walls",
            SuggestionKind::AddWindows => "Consider adding windows for natural lighting",
        }
    }

    /// The category the suggestion proposes to add.
    pub fn category(&self) -> (c: EntityCategory)
        ensures
            c == self.spec_category(),
    {
        match self {
            SuggestionKind::AddDoorsAndWindows => EntityCategory::Door,
            SuggestionKind::AddWindows => EntityCategory::Window,
        }
    }
}

/// The suggestions for a model with the given counts of walls, doors and
/// windows.
pub open spec fn suggestions_for(walls: nat, doors: nat, windows: nat) -> Seq<SuggestionKind> {
    let first = if walls > 0 && doors == 0 && windows == 0 {
        seq![SuggestionKind::AddDoorsAndWindows]
    } else {
        Seq::empty()
    };
    if walls > 0 && doors > 0 && windows == 0 {
        first.push(SuggestionKind::AddWindows)
    } else {
        first
    }
}

/// How many entities have category `c`.
pub open spec fn count_of<G, V>(es: Seq<Entity<G, V>>, c: EntityCategory) -> nat {
    es.filter(|e: Entity<G, V>| e.category == c).len()
}

/// The rule-check and suggestion engine.
#[derive(Debug)]
pub struct AiWorkflowEngine {
    rules: Vec<RuleCheck>,
}

impl Default for AiWorkflowEngine {
    /// An engine with no rules.
    fn default() -> (e: Self)
        ensures
            e.rules() == Seq::<RuleCheck>::empty(),
    {
        AiWorkflowEngine { rules: Vec::new() }
    }
}

/// The default rules: wall thickness, door clearance and window sill height.
pub open spec fn default_rules_ok(rules: Seq<RuleCheck>) -> bool {
    &&& rules.len() == 3
    &&& rules[0].id == 1 && rules[0].name@ == "Wall thickness check"@ && rules[0].description@
        == "Walls must be at least 0.1m thick"@ && rules[0].applies_to == EntityCategory::Wall
    &&& rules[1].id == 2 && rules[1].name@ == "Door clearance check"@ && rules[1].description@
        == "Doors must have at least 0.8m clearance"@ && rules[1].applies_to == EntityCategory::Door
    &&& rules[2].id == 3 && rules[2].name@ == "Window sill height"@ && rules[2].description@
        == "Windows must be placed at appropriate sill height"@ && rules[2].applies_to
        == EntityCategory::Window
}

impl AiWorkflowEngine {
    /// The registered rules, in order.
    pub closed spec fn rules(&self) -> Seq<RuleCheck> {
        self.rules@
    }

    /// An engine with the default rules registered.
    pub fn new() -> (e: Self)
        ensures
            default_rules_ok(e.rules()),
    {
        let mut engine = AiWorkflowEngine { rules: Vec::new() };
        engine.register_default_rules();
        engine
    }

    /// Register a rule.
    pub fn register_rule(&mut self, rule: RuleCheck)
        ensures
            final(self).rules() == old(self).rules().push(rule),
    {
        self.rules.push(rule);
    }

    /// Number of registered rules.
    pub fn rule_count(&self) -> (n: usize)
        ensures
            n == self.rules().len(),
    {
        self.rules.len()
    }

    fn register_default_rules(&mut self)
        requires
            old(self).rules() == Seq::<RuleCheck>::empty(),
        ensures
            default_rules_ok(final(self).rules()),
    {
        self.register_rule(
            RuleCheck {
                id: 1,
                name: String::from_str("Wall thickness check"),
                description: String::from_str("Walls must be at least 0.1m thick"),
                applies_to: EntityCategory::Wall,
            },
        );
        self.register_rule(
            RuleCheck {
                id: 2,
                name: String::from_str("Door clearance check"),
                description: String::from_str("Doors must have at least 0.8m clearance"),
                applies_to: EntityCategory::Door,
            },
        );
        self.register_rule(
            RuleCheck {
                id: 3,
                name: String::from_str("Window sill height"),
                description: String::from_str("Windows must be placed at appropriate sill height"),
                applies_to: EntityCategory::Window,
            },
        );
    }

    /// Check every entity against every rule that applies to its category:
    /// entity by entity in graph order, rules in registration order.
    pub fn run_checks<G, V>(&self, graph: &EntityGraph<G, V>) -> (r: Vec<RuleCheckResult>)
        ensures
            r@.map_values(|x: RuleCheckResult| result_view(x)) == check_outcomes(
                categories_of(entity_values(graph.entries())),
                self.rules(),
            ),
    {
        let entities = graph.iter();
        let ghost es = entity_values(graph.entries());
        let ghost cats = categories_of(es);
        let ghost rules = self.rules@;
        let mut results: Vec<RuleCheckResult> = Vec::new();
        let mut i: usize = 0;
        while i < entities.len()
            invariant
                entities@.map_values(|e: &Entity<G, V>| *e) == es,
                cats == categories_of(es),
                rules == self.rules@,
                i <= entities@.len(),
                results@.map_values(|x: RuleCheckResult| result_view(x)) == check_outcomes(
                    cats.take(i as int),
                    rules,
                ),
            decreases entities@.len() - i,
        {
            let entity = entities[i];
            let ghost before = results@.map_values(|x: RuleCheckResult| result_view(x));
            proof {
                assert(cats.take(i + 1).drop_last() =~= cats.take(i as int));
                assert(es[i as int] == *entities@[i as int]);
                assert(cats.take(i + 1).last() == entity.category);
            }
            let mut j: usize = 0;
            while j < self.rules.len()
                invariant
                    rules == self.rules@,
                    j <= rules.len(),
                    results@.map_values(|x: RuleCheckResult| result_view(x)) == before + rule_outcomes(
                        rules.take(j as int),
                        entity.category,
                    ),
                decreases rules.len() - j,
            {
                proof {
                    assert(rules.take(j + 1).drop_last() =~= rules.take(j as int));
                    assert(rules.take(j + 1).last() == rules[j as int]);
                }
                let ghost prev = results@;
                let ghost pv = rule_outcomes(rules.take(j as int), entity.category);
                if self.rules[j].applies_to == entity.category {
                    let res = self.rules[j].check(entity);
                    results.push(res);
                    assert(results@.map_values(|x: RuleCheckResult| result_view(x)) =~= prev.map_values(
                        |x: RuleCheckResult| result_view(x),
                    ).push(result_view(res)));
                    assert(before + pv.push(check_outcome(rules[j as int])) =~= (before + pv).push(
                        check_outcome(rules[j as int]),
                    ));
                }
                assert(results@.map_values(|x: RuleCheckResult| result_view(x)) =~= before + rule_outcomes(
                    rules.take(j + 1),
                    entity.category,
                ));
                j = j + 1;
            }
            assert(rules.take(j as int) =~= rules);
            i = i + 1;
        }
        assert(cats.take(i as int) =~= cats);
        results
    }

    /// Run the rule checks and derive suggestions from how many walls,
    /// doors and windows the graph holds.
    pub fn analyze<G, V>(&self, graph: &EntityGraph<G, V>) -> (r: (Vec<SuggestionKind>, Vec<RuleCheckResult>))
        ensures
            r.1@.map_values(|x: RuleCheckResult| result_view(x)) == check_outcomes(
                categories_of(entity_values(graph.entries())),
                self.rules(),
            ),
            r.0@ == suggestions_for(
                count_of(entity_values(graph.entries()), EntityCategory::Wall),
                count_of(entity_values(graph.entries()), EntityCategory::Door),
                count_of(entity_values(graph.entries()), EntityCategory::Window),
            ),
            (exists|i: int|
                0 <= i < graph.entries().len() && (#[trigger] graph.entries()[i]).1.category == EntityCategory::Window)
                ==> r.0@.len() == 0,
            (forall|i: int|
                0 <= i < graph.entries().len() ==> (#[trigger] graph.entries()[i]).1.category != EntityCategory::Wall)
                ==> r.0@.len() == 0,
    {
        proof {
            let es = entity_values(graph.entries());
            lemma_count_of_exists(es, EntityCategory::Wall);
            lemma_count_of_exists(es, EntityCategory::Window);
            lemma_suggestions(
                count_of(es, EntityCategory::Wall),
                count_of(es, EntityCategory::Door),
                count_of(es, EntityCategory::Window),
            );
            if exists|i: int|
                0 <= i < graph.entries().len() && (#[trigger] graph.entries()[i]).1.category == EntityCategory::Window {
                let i = choose|i: int|
                    0 <= i < graph.entries().len() && (#[trigger] graph.entries()[i]).1.category == EntityCategory::Window;
                assert(es[i].category == EntityCategory::Window);
            }
            if exists|i: int| 0 <= i < es.len() && es[i].category == EntityCategory::Wall {
                let i = choose|i: int| 0 <= i < es.len() && es[i].category == EntityCategory::Wall;
                assert(graph.entries()[i].1.category == EntityCategory::Wall);
            }
        }
        let results = self.run_checks(graph);
        let wall_count = graph.by_category(EntityCategory::Wall).len();
        let door_count = graph.by_category(EntityCategory::Door).len();
        let window_count = graph.by_category(EntityCategory::Window).len();
        let mut suggestions: Vec<SuggestionKind> = Vec::new();
        if wall_count > 0 && door_count == 0 && window_count == 0 {
            suggestions.push(SuggestionKind::AddDoorsAndWindows);
        }
        if wall_count > 0 && door_count > 0 && window_count == 0 {
            suggestions.push(SuggestionKind::AddWindows);
        }
        assert(suggestions@ =~= suggestions_for(
            count_of(entity_values(graph.entries()), EntityCategory::Wall),
            count_of(entity_values(graph.entries()), EntityCategory::Door),
            count_of(entity_values(graph.entries()), EntityCategory::Window),
        ));
        (suggestions, results)
    }
}


/// An empty model gets neither check results nor suggestions.
pub proof fn lemma_empty_model_quiet<G, V>(rules: Seq<RuleCheck>)
    ensures
        check_outcomes(categories_of(Seq::<Entity<G, V>>::empty()), rules).len() == 0,
        count_of(Seq::<Entity<G, V>>::empty(), EntityCategory::Wall) == 0,
        suggestions_for(0, 0, 0).len() == 0,
{
    assert(categories_of(Seq::<Entity<G, V>>::empty()) =~= Seq::<EntityCategory>::empty());
    reveal(Seq::filter);
}

/// A model with walls but neither doors nor windows is told to add doors
/// and windows, and only that.
pub proof fn lemma_walls_only_suggestion(walls: nat)
    requires
        walls > 0,
    ensures
        suggestions_for(walls, 0, 0) == seq![SuggestionKind::AddDoorsAndWindows],
{
}

/// Every check outcome passes.
pub proof fn lemma_all_checks_pass(cats: Seq<EntityCategory>, rules: Seq<RuleCheck>)
    ensures
        forall|i: int| 0 <= i < check_outcomes(cats, rules).len() ==> (#[trigger] check_outcomes(cats, rules)[i]).1,
    decreases cats.len(),
{
    if cats.len() > 0 {
        lemma_all_checks_pass(cats.drop_last(), rules);
        lemma_rule_outcomes_pass(rules, cats.last());
        let a = check_outcomes(cats.drop_last(), rules);
        let b = rule_outcomes(rules, cats.last());
        assert forall|i: int| 0 <= i < (a + b).len() implies (#[trigger] (a + b)[i]).1 by {
            if i < a.len() {
                assert((a + b)[i] == a[i]);
            } else {
                assert((a + b)[i] == b[i - a.len()]);
            }
        }
    }
}

/// Every outcome of one entity's checks passes.
proof fn lemma_rule_outcomes_pass(rules: Seq<RuleCheck>, c: EntityCategory)
    ensures
        forall|i: int| 0 <= i < rule_outcomes(rules, c).len() ==> (#[trigger] rule_outcomes(rules, c)[i]).1,
    decreases rules.len(),
{
    if rules.len() > 0 {
        lemma_rule_outcomes_pass(rules.drop_last(), c);
        let prev = rule_outcomes(rules.drop_last(), c);
        if rules.last().applies_to == c {
            assert(rule_outcomes(rules, c) == prev.push(check_outcome(rules.last())));
            assert forall|i: int| 0 <= i < prev.len() + 1 implies (#[trigger] prev.push(check_outcome(rules.last()))[i]).1 by {
                if i < prev.len() {
                    assert(prev.push(check_outcome(rules.last()))[i] == prev[i]);
                }
            }
        }
    }
}

/// The test for outcomes of the rule with id `id`.
pub open spec fn from_rule(id: u64) -> spec_fn((u64, bool, Seq<char>)) -> bool {
    |o: (u64, bool, Seq<char>)| o.0 == id
}

/// The test for category `c`.
pub open spec fn is_category(c: EntityCategory) -> spec_fn(EntityCategory) -> bool {
    |x: EntityCategory| x == c
}

/// How many of `outs` come from the rule with id `id`.
pub open spec fn count_rule_id(outs: Seq<(u64, bool, Seq<char>)>, id: u64) -> nat {
    outs.filter(from_rule(id)).len()
}

/// How many of `cats` are `c`.
pub open spec fn count_category(cats: Seq<EntityCategory>, c: EntityCategory) -> nat {
    cats.filter(is_category(c)).len()
}

/// No two rules share an id.
pub open spec fn rule_ids_distinct(rules: Seq<RuleCheck>) -> bool {
    forall|i: int, j: int| 0 <= i < j < rules.len() ==> rules[i].id != rules[j].id
}

/// One more rule: an entity's outcomes gain that rule's outcome when it
/// applies to the entity's category.
proof fn lemma_rule_outcomes_push(rules: Seq<RuleCheck>, r: RuleCheck, c: EntityCategory)
    ensures
        rule_outcomes(rules.push(r), c) == if r.applies_to == c {
            rule_outcomes(rules, c).push(check_outcome(r))
        } else {
            rule_outcomes(rules, c)
        },
{
    assert(rules.push(r).drop_last() =~= rules);
}

/// Registering a rule adds one check result for each entity of the
/// category the rule applies to, and no other.
pub proof fn lemma_register_rule_grows(cats: Seq<EntityCategory>, rules: Seq<RuleCheck>, r: RuleCheck)
    ensures
        check_outcomes(cats, rules.push(r)).len() == check_outcomes(cats, rules).len() + count_category(
            cats,
            r.applies_to,
        ),
    decreases cats.len(),
{
    let pred = is_category(r.applies_to);
    if cats.len() == 0 {
        reveal(Seq::filter);
    } else {
        let d = cats.drop_last();
        lemma_register_rule_grows(d, rules, r);
        lemma_rule_outcomes_push(rules, r, cats.last());
        assert(cats =~= d.push(cats.last()));
        d.lemma_filter_len_push(pred, cats.last());
    }
}

/// No outcome of one entity comes from a rule id that no rule has.
proof fn lemma_rule_outcomes_absent(rules: Seq<RuleCheck>, c: EntityCategory, id: u64)
    requires
        forall|i: int| 0 <= i < rules.len() ==> (#[trigger] rules[i]).id != id,
    ensures
        count_rule_id(rule_outcomes(rules, c), id) == 0,
    decreases rules.len(),
{
    let pred = from_rule(id);
    if rules.len() == 0 {
        reveal(Seq::filter);
    } else {
        let rs = rules.drop_last();
        assert forall|i: int| 0 <= i < rs.len() implies (#[trigger] rs[i]).id != id by {
            assert(rs[i] == rules[i]);
        }
        lemma_rule_outcomes_absent(rs, c, id);
        assert(rules =~= rs.push(rules.last()));
        lemma_rule_outcomes_push(rs, rules.last(), c);
        rule_outcomes(rs, c).lemma_filter_len_push(pred, check_outcome(rules.last()));
    }
}

/// With distinct rule ids, one entity gets exactly one outcome from the
/// `j`-th rule when the rule applies to its category, and none otherwise.
proof fn lemma_rule_outcomes_per_rule(rules: Seq<RuleCheck>, c: EntityCategory, j: int)
    requires
        rule_ids_distinct(rules),
        0 <= j < rules.len(),
    ensures
        count_rule_id(rule_outcomes(rules, c), rules[j].id) == if rules[j].applies_to == c {
            1nat
        } else {
            0nat
        },
    decreases rules.len(),
{
    let id = rules[j].id;
    let pred = from_rule(id);
    let rs = rules.drop_last();
    assert(rules =~= rs.push(rules.last()));
    lemma_rule_outcomes_push(rs, rules.last(), c);
    if j == rules.len() - 1 {
        assert forall|i: int| 0 <= i < rs.len() implies (#[trigger] rs[i]).id != id by {
            assert(rs[i] == rules[i]);
        }
        lemma_rule_outcomes_absent(rs, c, id);
    } else {
        assert(rule_ids_distinct(rs)) by {
            assert forall|a: int, b: int| 0 <= a < b < rs.len() implies rs[a].id != rs[b].id by {
                assert(rs[a] == rules[a]);
                assert(rs[b] == rules[b]);
            }
        }
        assert(rs[j] == rules[j]);
        lemma_rule_outcomes_per_rule(rs, c, j);
        assert(rules.last().id != id);
    }
    rule_outcomes(rs, c).lemma_filter_len_push(pred, check_outcome(rules.last()));
}

/// With distinct rule ids, the checks of entities of categories `cats` give
/// as many results from the `j`-th rule as there are entities of the
/// category that rule applies to.
pub proof fn lemma_results_per_rule(cats: Seq<EntityCategory>, rules: Seq<RuleCheck>, j: int)
    requires
        rule_ids_distinct(rules),
        0 <= j < rules.len(),
    ensures
        count_rule_id(check_outcomes(cats, rules), rules[j].id) == count_category(cats, rules[j].applies_to),
    decreases cats.len(),
{
    let id = rules[j].id;
    let pred = from_rule(id);
    let cpred = is_category(rules[j].applies_to);
    if cats.len() == 0 {
        reveal(Seq::filter);
    } else {
        let d = cats.drop_last();
        lemma_results_per_rule(d, rules, j);
        lemma_rule_outcomes_per_rule(rules, cats.last(), j);
        Seq::filter_distributes_over_add(check_outcomes(d, rules), rule_outcomes(rules, cats.last()), pred);
        assert(cats =~= d.push(cats.last()));
        d.lemma_filter_len_push(cpred, cats.last());
    }
}

/// Every outcome comes from one of the rules.
pub proof fn lemma_results_from_rules(cats: Seq<EntityCategory>, rules: Seq<RuleCheck>)
    ensures
        forall|i: int|
            0 <= i < check_outcomes(cats, rules).len() ==> exists|j: int|
                0 <= j < rules.len() && rules[j].id == (#[trigger] check_outcomes(cats, rules)[i]).0,
    decreases cats.len(),
{
    if cats.len() > 0 {
        let d = cats.drop_last();
        lemma_results_from_rules(d, rules);
        lemma_rule_outcomes_from_rules(rules, cats.last());
        let a = check_outcomes(d, rules);
        let b = rule_outcomes(rules, cats.last());
        assert forall|i: int| 0 <= i < (a + b).len() implies exists|j: int|
            0 <= j < rules.len() && rules[j].id == (#[trigger] (a + b)[i]).0 by {
            if i < a.len() {
                assert((a + b)[i] == a[i]);
            } else {
                assert((a + b)[i] == b[i - a.len()]);
            }
        }
    }
}

/// Every outcome of one entity comes from one of the rules.
proof fn lemma_rule_outcomes_from_rules(rules: Seq<RuleCheck>, c: EntityCategory)
    ensures
        forall|i: int|
            0 <= i < rule_outcomes(rules, c).len() ==> exists|j: int|
                0 <= j < rules.len() && rules[j].id == (#[trigger] rule_outcomes(rules, c)[i]).0,
    decreases rules.len(),
{
    if rules.len() > 0 {
        let rs = rules.drop_last();
        lemma_rule_outcomes_from_rules(rs, c);
        assert(rules =~= rs.push(rules.last()));
        lemma_rule_outcomes_push(rs, rules.last(), c);
        let prev = rule_outcomes(rs, c);
        assert forall|i: int| 0 <= i < rule_outcomes(rules, c).len() implies exists|j: int|
            0 <= j < rules.len() && rules[j].id == (#[trigger] rule_outcomes(rules, c)[i]).0 by {
            if i < prev.len() {
                assert(rule_outcomes(rules, c)[i] == prev[i]);
                let j = choose|j: int| 0 <= j < rs.len() && rs[j].id == prev[i].0;
                assert(rules[j] == rs[j]);
            } else {
                assert(rules[rules.len() - 1] == rules.last());
            }
        }
    }
}

/// With the default rules, the checks give one result with rule id 1 per
/// wall, one with id 2 per door and one with id 3 per window; no other id
/// occurs, and every result passes.
pub proof fn lemma_default_rule_results(cats: Seq<EntityCategory>, rules: Seq<RuleCheck>)
    requires
        default_rules_ok(rules),
    ensures
        count_rule_id(check_outcomes(cats, rules), 1) == count_category(cats, EntityCategory::Wall),
        count_rule_id(check_outcomes(cats, rules), 2) == count_category(cats, EntityCategory::Door),
        count_rule_id(check_outcomes(cats, rules), 3) == count_category(cats, EntityCategory::Window),
        forall|i: int|
            0 <= i < check_outcomes(cats, rules).len() ==> {
                let o = #[trigger] check_outcomes(cats, rules)[i];
                &&& o.0 == 1 || o.0 == 2 || o.0 == 3
                &&& o.1
            },
{
    lemma_results_per_rule(cats, rules, 0);
    lemma_results_per_rule(cats, rules, 1);
    lemma_results_per_rule(cats, rules, 2);
    lemma_results_from_rules(cats, rules);
    lemma_all_checks_pass(cats, rules);
}

/// Some entity of `es` has category `c` exactly when `c` is counted at
/// least once.
pub proof fn lemma_count_of_exists<G, V>(es: Seq<Entity<G, V>>, c: EntityCategory)
    ensures
        count_of(es, c) > 0 <==> exists|i: int| 0 <= i < es.len() && es[i].category == c,
{
    let pred = |e: Entity<G, V>| e.category == c;
    assert(count_of(es, c) == es.filter(pred).len());
    if exists|i: int| 0 <= i < es.len() && es[i].category == c {
        let i = choose|i: int| 0 <= i < es.len() && es[i].category == c;
        es.lemma_filter_contains(pred, i);
    }
    if es.filter(pred).len() > 0 {
        es.lemma_filter_pred(pred, 0);
        assert(es.filter(pred).contains(es.filter(pred)[0]));
        es.lemma_filter_contains_rev(pred, es.filter(pred)[0]);
    }
}

/// What the analysis suggests, by the counts of walls, doors and windows:
/// nothing for a model without walls or with any window; for walls with
/// neither doors nor windows, only to add doors and windows; for walls with
/// doors but no windows, only to add windows.
pub proof fn lemma_suggestions(walls: nat, doors: nat, windows: nat)
    ensures
        walls == 0 ==> suggestions_for(walls, doors, windows).len() == 0,
        windows > 0 ==> suggestions_for(walls, doors, windows).len() == 0,
        walls > 0 && doors == 0 && windows == 0 ==> suggestions_for(walls, doors, windows) == seq![
            SuggestionKind::AddDoorsAndWindows,
        ],
        walls > 0 && doors > 0 && windows == 0 ==> suggestions_for(walls, doors, windows) == seq![
            SuggestionKind::AddWindows,
        ],
{
    if walls > 0 && doors > 0 && windows == 0 {
        assert(suggestions_for(walls, doors, windows) =~= seq![SuggestionKind::AddWindows]);
    }
}

} // verus!
