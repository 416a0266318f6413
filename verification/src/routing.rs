//! The trigger's routing table: which message topic serves each function,
//! filled from the rules that the rules server publishes.

use vstd::prelude::*;
use std::collections::hash_map::RandomState;
use dashmap::DashMap;
use std::collections::HashMap;
use crate::json::is_object_of;

verus! {

#[verifier::external_type_specification]
#[verifier::external_body]
#[verifier::reject_recursive_types(K)]
#[verifier::reject_recursive_types(V)]
#[verifier::reject_recursive_types(S)]
pub struct ExDashMap<K, V, S>(DashMap<K, V, S>);

/// A concurrent map from function ids to topics.
pub type TopicMap = DashMap<String, String, RandomState>;

/// The entries that a table of function ids to topics holds.
pub uninterp spec fn table_entries(m: TopicMap) -> Map<Seq<char>, Seq<char>>;

/// `DashMap::new`. Claimed: the map starts empty.
#[verifier::external_body]
fn table_new() -> (fresh: TopicMap)
    ensures
        table_entries(fresh).is_empty(),
{
    DashMap::new()
}

/// `DashMap::get`, with the value copied out of the guard. Claimed: the
/// value stored under the key when there is one (the source finds the
/// entry whose key equals the query by `Eq`, and `String` equality is
/// equality of the characters).
#[verifier::external_body]
fn table_get(m: &TopicMap, key: &str) -> (r: Option<String>)
    ensures
        match r {
            Some(v) => table_entries(*m).contains_key(key@) && v@ == table_entries(*m)[key@],
            None => !table_entries(*m).contains_key(key@),
        },
{
    match m.get(key) {
        Some(entry) => Some(entry.value().clone()),
        None => None,
    }
}

/// `DashMap::contains_key`. Claimed: whether the key has an entry.
#[verifier::external_body]
fn table_contains(m: &TopicMap, key: &str) -> (r: bool)
    ensures
        r == table_entries(*m).contains_key(key@),
{
    m.contains_key(key)
}

/// `DashMap::insert`, called with exclusive access. Claimed: the entry for
/// the key is set to the value and no other entry changes; the previous
/// value is returned.
#[verifier::external_body]
fn table_insert(m: &mut TopicMap, key: String, value: String) -> (r: Option<String>)
    ensures
        table_entries(*final(m)) == table_entries(*old(m)).insert(key@, value@),
        match r {
            Some(v) => table_entries(*old(m)).contains_key(key@) && v@ == table_entries(*old(m))[key@],
            None => !table_entries(*old(m)).contains_key(key@),
        },
{
    m.insert(key, value)
}

/// `serde_json::to_string` of a map of strings, which cannot fail for
/// string keys and values. Claimed: the compact object `{k:v,...}` with
/// one member per entry, each key and value written as `serde_json`'s
/// `format_escaped_str` writes a string, members separated by commas
/// (`serialize_map`, `serialize_key`, `CompactFormatter`). Which order the
/// entries come in is the order in which the `HashMap` is walked; its
/// hasher is seeded per process, so the order is left open: some listing
/// of the entries, each exactly once.
#[verifier::external_body]
fn json_object_text(params: &HashMap<String, String>) -> (text: String)
    ensures
        is_object_of(text@, params@),
{
    serde_json::to_string(params).unwrap()
}

/// How a trigger describes the function it serves.
#[derive(Debug, Clone)]
pub struct Trigger {
    pub trigger_endpoint_type: Vec<String>,
    pub medium: String,
    pub topic: String,
}

/// A routing rule: the function id and the trigger that serves it.
#[derive(Debug, Clone)]
pub struct Rule {
    pub id: String,
    pub rule: Trigger,
}

/// The id and topic that a rule contributes to the table.
pub open spec fn rule_entry(r: Rule) -> (Seq<char>, Seq<char>) {
    (r.id@, r.rule.topic@)
}

/// The entries of a sequence of rules.
pub open spec fn rule_entries(rules: Seq<Rule>) -> Seq<(Seq<char>, Seq<char>)> {
    rules.map_values(|r: Rule| rule_entry(r))
}

/// The table after taking the entries in order, each only when its id has
/// no topic yet.
pub open spec fn merge_entries(
    m: Map<Seq<char>, Seq<char>>,
    es: Seq<(Seq<char>, Seq<char>)>,
) -> Map<Seq<char>, Seq<char>>
    decreases es.len(),
{
    if es.len() == 0 {
        m
    } else {
        let prev = merge_entries(m, es.drop_last());
        let e = es.last();
        if prev.contains_key(e.0) {
            prev
        } else {
            prev.insert(e.0, e.1)
        }
    }
}

/// Why a call could not be routed.
#[derive(Debug, Clone, Copy, PartialEq, Eq, Structural)]
pub enum RouteError {
    /// No rule has named a topic for the function.
    UnknownFunction,
}

/// A message ready to go to the topic that serves a function.
#[derive(Debug, Clone)]
pub struct OutgoingCall {
    pub topic: String,
    pub message: String,
}

/// The table from function ids to the topics that serve them.
pub struct RouteTable {
    routes: TopicMap,
}

impl View for RouteTable {
    type V = Map<Seq<char>, Seq<char>>;

    closed spec fn view(&self) -> Map<Seq<char>, Seq<char>> {
        table_entries(self.routes)
    }
}

impl RouteTable {
    /// An empty table.
    pub fn new() -> (t: RouteTable)
        ensures
            t@ == Map::<Seq<char>, Seq<char>>::empty(),
    {
        RouteTable { routes: table_new() }
    }

    /// Whether a function has a topic.
    pub fn knows(&self, function: &str) -> (b: bool)
        ensures
            b == self@.contains_key(function@),
    {
        table_contains(&self.routes, function)
    }

    /// The topic that serves a function.
    pub fn topic_for(&self, function: &str) -> (r: Result<String, RouteError>)
        ensures
            match r {
                Ok(t) => self@.contains_key(function@) && t@ == self@[function@],
                Err(e) => !self@.contains_key(function@) && e == RouteError::UnknownFunction,
            },
    {
        match table_get(&self.routes, function) {
            Some(t) => Ok(t),
            None => Err(RouteError::UnknownFunction),
        }
    }

    /// A message for a function, addressed to its topic.
    pub fn route(&self, function: &str, message: String) -> (r: Result<OutgoingCall, RouteError>)
        ensures
            match r {
                Ok(c) => self@.contains_key(function@) && c.topic@ == self@[function@]
                    && c.message@ == message@,
                Err(e) => !self@.contains_key(function@) && e == RouteError::UnknownFunction,
            },
    {
        match self.topic_for(function) {
            Ok(topic) => Ok(OutgoingCall { topic, message }),
            Err(e) => Err(e),
        }
    }

    /// A call carrying the query parameters, as a JSON object, to the
    /// function's topic: each parameter once, in the map's walk order.
    pub fn route_query(&self, function: &str, params: &HashMap<String, String>) -> (r: Result<OutgoingCall, RouteError>)
        ensures
            match r {
                Ok(c) => self@.contains_key(function@) && c.topic@ == self@[function@]
                    && is_object_of(c.message@, params@),
                Err(e) => !self@.contains_key(function@) && e == RouteError::UnknownFunction,
            },
    {
        let message = json_object_text(params);
        self.route(function, message)
    }

    /// Takes the rules in order; each adds its id and topic unless the id
    /// already has a topic.
    pub fn add_rules(&mut self, rules: &Vec<Rule>)
        ensures
            final(self)@ == merge_entries(old(self)@, rule_entries(rules@)),
    {
        let ghost es = rule_entries(rules@);
        let mut i: usize = 0;
        assert(es.take(0) =~= Seq::<(Seq<char>, Seq<char>)>::empty());
        while i < rules.len()
            invariant
                i <= rules@.len(),
                es == rule_entries(rules@),
                self@ == merge_entries(old(self)@, es.take(i as int)),
            decreases rules@.len() - i,
        {
            let rule = &rules[i];
            assert(es.take(i + 1).drop_last() =~= es.take(i as int));
            assert(es.take(i + 1).last() == rule_entry(*rule));
            if !table_contains(&self.routes, rule.id.as_str()) {
                let id = rule.id.clone();
                let topic = rule.rule.topic.clone();
                table_insert(&mut self.routes, id, topic);
            }
            i = i + 1;
        }
        assert(es.take(rules@.len() as int) =~= es);
    }
}

/// A topic, once set for a function, is never changed by later rules.
pub proof fn lemma_merge_keeps_existing(m: Map<Seq<char>, Seq<char>>, es: Seq<(Seq<char>, Seq<char>)>)
    ensures
        forall|k: Seq<char>| #[trigger] m.contains_key(k) ==> merge_entries(m, es).contains_key(k)
            && merge_entries(m, es)[k] == m[k],
    decreases es.len(),
{
    if es.len() > 0 {
        lemma_merge_keeps_existing(m, es.drop_last());
    }
}

/// After the rules are taken, every rule's id has a topic, and every
/// function with a topic either had one before or is named by a rule.
pub proof fn lemma_merge_domain(m: Map<Seq<char>, Seq<char>>, es: Seq<(Seq<char>, Seq<char>)>)
    ensures
        forall|i: int| 0 <= i < es.len() ==> merge_entries(m, es).contains_key(#[trigger] es[i].0),
        forall|k: Seq<char>| #[trigger] merge_entries(m, es).contains_key(k) ==> m.contains_key(k)
            || exists|i: int| 0 <= i < es.len() && es[i].0 == k,
    decreases es.len(),
{
    if es.len() > 0 {
        let prev = es.drop_last();
        lemma_merge_domain(m, prev);
        assert forall|i: int| 0 <= i < es.len() implies merge_entries(m, es).contains_key(#[trigger] es[i].0) by {
            if i < es.len() - 1 {
                assert(es[i] == prev[i]);
            }
        }
        assert forall|k: Seq<char>| #[trigger] merge_entries(m, es).contains_key(k) implies m.contains_key(k)
            || exists|i: int| 0 <= i < es.len() && es[i].0 == k by {
            if k == es.last().0 {
                assert(es[es.len() - 1].0 == k);
            } else if !m.contains_key(k) {
                assert(merge_entries(m, prev).contains_key(k));
                let i = choose|i: int| 0 <= i < prev.len() && prev[i].0 == k;
                assert(es[i] == prev[i]);
            }
        }
    }
}

/// A function without a topic gets the topic of the first rule that names
/// it.
pub proof fn lemma_merge_first_rule_wins(m: Map<Seq<char>, Seq<char>>, es: Seq<(Seq<char>, Seq<char>)>, i: int)
    requires
        0 <= i < es.len(),
        !m.contains_key(es[i].0),
        forall|j: int| 0 <= j < i ==> es[j].0 != es[i].0,
    ensures
        merge_entries(m, es).contains_key(es[i].0),
        merge_entries(m, es)[es[i].0] == es[i].1,
    decreases es.len(),
{
    let prev = es.drop_last();
    if i < es.len() - 1 {
        assert(prev[i] == es[i]);
        assert forall|j: int| 0 <= j < i implies prev[j].0 != prev[i].0 by {
            assert(prev[j] == es[j]);
        }
        lemma_merge_first_rule_wins(m, prev, i);
    } else {
        assert(prev.len() == i);
        if merge_entries(m, prev).contains_key(es[i].0) {
            lemma_merge_domain(m, prev);
            let j = choose|j: int| 0 <= j < prev.len() && prev[j].0 == es[i].0;
            assert(es[j] == prev[j]);
        }
    }
}

proof fn lemma_merge_known_is_identity(m: Map<Seq<char>, Seq<char>>, es: Seq<(Seq<char>, Seq<char>)>)
    requires
        forall|i: int| 0 <= i < es.len() ==> m.contains_key(#[trigger] es[i].0),
    ensures
        merge_entries(m, es) == m,
    decreases es.len(),
{
    if es.len() > 0 {
        let prev = es.drop_last();
        assert forall|i: int| 0 <= i < prev.len() implies m.contains_key(#[trigger] prev[i].0) by {
            assert(prev[i] == es[i]);
        }
        lemma_merge_known_is_identity(m, prev);
        assert(m.contains_key(es[es.len() - 1].0));
    }
}

/// Taking the same rules a second time changes nothing: pulling an
/// unchanged rule list again leaves the table as it was.
pub proof fn lemma_merge_idempotent(m: Map<Seq<char>, Seq<char>>, es: Seq<(Seq<char>, Seq<char>)>)
    ensures
        merge_entries(merge_entries(m, es), es) == merge_entries(m, es),
{
    lemma_merge_domain(m, es);
    lemma_merge_known_is_identity(merge_entries(m, es), es);
}

/// What pulling a list of rules does, stated over the rules themselves:
/// a function that had no topic and that a rule names gets the topic of
/// the first rule naming it, under exactly the rule's id; functions that
/// had a topic keep it; and no other function gets one.
pub proof fn lemma_pulled_rules_route(m: Map<Seq<char>, Seq<char>>, rules: Seq<Rule>)
    ensures
        ({
            let t = merge_entries(m, rule_entries(rules));
            &&& forall|i: int| #![trigger rules[i]] 0 <= i < rules.len() && !m.contains_key(rules[i].id@)
                && (forall|j: int| 0 <= j < i ==> rules[j].id@ != rules[i].id@)
                ==> t.contains_key(rules[i].id@) && t[rules[i].id@] == rules[i].rule.topic@
            &&& forall|k: Seq<char>| #[trigger] m.contains_key(k) ==> t.contains_key(k) && t[k] == m[k]
            &&& forall|k: Seq<char>| #[trigger] t.contains_key(k) ==> m.contains_key(k)
                || exists|i: int| 0 <= i < rules.len() && rules[i].id@ == k
        }),
{
    let es = rule_entries(rules);
    assert forall|i: int| 0 <= i < rules.len() implies #[trigger] es[i] == (rules[i].id@, rules[i].rule.topic@) by {}
    lemma_merge_keeps_existing(m, es);
    lemma_merge_domain(m, es);
    let t = merge_entries(m, es);
    assert forall|i: int| #![trigger rules[i]] 0 <= i < rules.len() && !m.contains_key(rules[i].id@)
        && (forall|j: int| 0 <= j < i ==> rules[j].id@ != rules[i].id@)
        implies t.contains_key(rules[i].id@) && t[rules[i].id@] == rules[i].rule.topic@ by {
        assert(es[i] == (rules[i].id@, rules[i].rule.topic@));
        assert forall|j: int| 0 <= j < i implies es[j].0 != es[i].0 by {
            assert(es[j] == (rules[j].id@, rules[j].rule.topic@));
        }
        lemma_merge_first_rule_wins(m, es, i);
    }
    assert forall|k: Seq<char>| #[trigger] t.contains_key(k) implies m.contains_key(k)
        || exists|i: int| 0 <= i < rules.len() && rules[i].id@ == k by {
        if !m.contains_key(k) {
            let i = choose|i: int| 0 <= i < es.len() && es[i].0 == k;
            assert(es[i] == (rules[i].id@, rules[i].rule.topic@));
        }
    }
}

} // verus!
