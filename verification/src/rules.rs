//! Rules: a release whose title begins with a rule's tag is wanted when the
//! number that follows the tag is past the progress the rule records.

use vstd::prelude::*;
use crate::number::{first_number, spec_first_number};

verus! {

/// A rule: a tag that begins the titles it applies to, and the last episode
/// taken.
pub struct RuleEntry {
    tag: Vec<u8>,
    value: u64,
}

/// The rules, in order.
pub struct Rules {
    inner: Vec<RuleEntry>,
}

/// An episode to take for the rule at `index` of the rules it was found in.
pub struct RuleUpdate {
    index: usize,
    episode: u64,
    rules: Ghost<Seq<(Seq<u8>, u64)>>,
}

impl View for RuleEntry {
    type V = (Seq<u8>, u64);

    closed spec fn view(&self) -> (Seq<u8>, u64) {
        (self.tag@, self.value)
    }
}

impl View for Rules {
    type V = Seq<(Seq<u8>, u64)>;

    closed spec fn view(&self) -> Seq<(Seq<u8>, u64)> {
        self.inner@.map_values(|e: RuleEntry| e@)
    }
}

impl View for RuleUpdate {
    type V = (int, u64);

    closed spec fn view(&self) -> (int, u64) {
        (self.index as int, self.episode)
    }
}

/// `s` begins with `prefix`.
pub open spec fn starts_with(s: Seq<u8>, prefix: Seq<u8>) -> bool {
    prefix.len() <= s.len() && s.subrange(0, prefix.len() as int) == prefix
}

/// Whether `s` begins with `prefix`.
pub fn starts_with_exec(s: &[u8], prefix: &[u8]) -> (r: bool)
    ensures
        r == starts_with(s@, prefix@),
{
    if prefix.len() > s.len() {
        return false;
    }
    let mut i: usize = 0;
    while i < prefix.len()
        invariant
            prefix@.len() <= s@.len(),
            i <= prefix@.len(),
            forall|k: int| 0 <= k < i ==> s@[k] == prefix@[k],
        decreases prefix@.len() - i,
    {
        if s[i] != prefix[i] {
            proof {
                assert(s@.subrange(0, prefix@.len() as int)[i as int] != prefix@[i as int]);
            }
            return false;
        }
        i = i + 1;
    }
    proof {
        assert(s@.subrange(0, prefix@.len() as int) =~= prefix@);
    }
    true
}

/// The episode a rule takes from `title`: the title begins with the tag and
/// the first number after the tag is past `value`.
pub open spec fn rule_episode(title: Seq<u8>, rule: (Seq<u8>, u64)) -> Option<u64> {
    if starts_with(title, rule.0) {
        match spec_first_number(title.subrange(rule.0.len() as int, title.len() as int)) {
            Some(ep) if ep > rule.1 => Some(ep),
            _ => None,
        }
    } else {
        None
    }
}

/// The first rule, from `i` on, that takes an episode from `title`.
pub open spec fn first_rule_update(title: Seq<u8>, rules: Seq<(Seq<u8>, u64)>, i: int) -> Option<(int, u64)>
    decreases rules.len() - i,
{
    if i < 0 || i >= rules.len() {
        None
    } else {
        match rule_episode(title, rules[i]) {
            Some(ep) => Some((i, ep)),
            None => first_rule_update(title, rules, i + 1),
        }
    }
}

/// The episode a rule takes from `title`, as `rule_episode` says.
pub fn rule_episode_exec(title: &[u8], tag: &[u8], value: u64) -> (r: Option<u64>)
    ensures
        r == rule_episode(title@, (tag@, value)),
{
    if !starts_with_exec(title, tag) {
        return None;
    }
    let episode = first_number(&title[tag.len()..title.len()])?;
    if episode <= value {
        return None;
    }
    Some(episode)
}

impl RuleEntry {
    /// A rule for titles that begin with `tag`, with `value` taken so far.
    pub fn new(tag: Vec<u8>, value: u64) -> (r: Self)
        ensures
            r@ == (tag@, value),
    {
        RuleEntry { tag, value }
    }

    /// The tag that begins the titles this rule applies to.
    pub fn tag(&self) -> (r: &[u8])
        ensures
            r@ == self@.0,
    {
        self.tag.as_slice()
    }

    /// The last episode taken.
    pub fn value(&self) -> (r: u64)
        ensures
            r == self@.1,
    {
        self.value
    }
}

impl RuleUpdate {
    /// The rule is one of the rules the update was found in, and the episode
    /// is past that rule's progress.
    #[verifier::type_invariant]
    spec fn found_in_rules(&self) -> bool {
        &&& self.index < self.rules@.len()
        &&& self.rules@[self.index as int].1 < self.episode
    }

    /// The rules the update was found in.
    pub closed spec fn spec_rules(&self) -> Seq<(Seq<u8>, u64)> {
        self.rules@
    }

    /// The rule it is for.
    pub fn index(&self) -> (r: usize)
        ensures
            r == self@.0,
    {
        self.index
    }

    /// The episode to take.
    pub fn episode(&self) -> (r: u64)
        ensures
            r == self@.1,
    {
        self.episode
    }

    /// Records this update's episode as the progress of its rule, in the
    /// rules it was found in; the other rules stay as they are. The rule's
    /// progress goes up.
    pub fn execute(self, rules: &mut Rules)
        requires
            self.spec_rules() == old(rules)@,
        ensures
            self@.0 < old(rules)@.len(),
            old(rules)@[self@.0].1 < self@.1,
            final(rules)@ == old(rules)@.update(self@.0, (old(rules)@[self@.0].0, self@.1)),
    {
        proof {
            use_type_invariant(&self);
        }
        let i = self.index;
        rules.inner[i].value = self.episode;
        proof {
            assert(rules@ =~= old(rules)@.update(self@.0, (old(rules)@[self@.0].0, self@.1)));
        }
    }
}

impl Rules {
    /// The rules, in the order given.
    pub fn new(entries: Vec<RuleEntry>) -> (r: Self)
        ensures
            r@ == entries@.map_values(|e: RuleEntry| e@),
    {
        Rules { inner: entries }
    }

    /// The rules.
    pub fn entries(&self) -> (r: &[RuleEntry])
        ensures
            r@.map_values(|e: RuleEntry| e@) == self@,
    {
        self.inner.as_slice()
    }

    /// The update that `title` makes: the first rule whose tag begins the
    /// title and after whose tag the first number is past the rule's
    /// progress, with that number.
    pub fn get_update(&self, title: &[u8]) -> (r: Option<RuleUpdate>)
        ensures
            match first_rule_update(title@, self@, 0) {
                Some(u) => r matches Some(x) && x@ == u && x.spec_rules() == self@,
                None => r is None,
            },
    {
        let mut index: usize = 0;
        while index < self.inner.len()
            invariant
                index <= self@.len(),
                self@ == self.inner@.map_values(|e: RuleEntry| e@),
                first_rule_update(title@, self@, 0) == first_rule_update(title@, self@, index as int),
            decreases self@.len() - index,
        {
            let entry = &self.inner[index];
            proof {
                assert(self@[index as int] == entry@);
            }
            if let Some(episode) = rule_episode_exec(title, entry.tag.as_slice(), entry.value) {
                return Some(RuleUpdate { index, episode, rules: Ghost(self@) });
            }
            index = index + 1;
        }
        None
    }
}

/// An update is past the progress of its rule, and once it is applied the
/// same title no longer makes an update for that rule.
pub proof fn law_applied_update_is_not_offered_again(rules: Seq<(Seq<u8>, u64)>, title: Seq<u8>)
    requires
        first_rule_update(title, rules, 0) is Some,
    ensures
        ({
            let (i, ep) = first_rule_update(title, rules, 0).unwrap();
            &&& 0 <= i < rules.len()
            &&& ep > rules[i].1
            &&& rule_episode(title, rules.update(i, (rules[i].0, ep))[i]) is None
        }),
{
    lemma_first_rule_update(title, rules, 0);
}

/// A found update is in range and is what its rule takes; the rules before
/// it take nothing.
pub proof fn lemma_first_rule_update(title: Seq<u8>, rules: Seq<(Seq<u8>, u64)>, i: int)
    requires
        0 <= i,
    ensures
        first_rule_update(title, rules, i) matches Some((j, ep)) ==> i <= j < rules.len()
            && rule_episode(title, rules[j]) == Some(ep) && forall|k: int| i <= k < j ==> rule_episode(
            title,
            #[trigger] rules[k],
        ) is None,
        first_rule_update(title, rules, i) is None ==> forall|k: int|
            i <= k < rules.len() ==> rule_episode(title, #[trigger] rules[k]) is None,
    decreases rules.len() - i,
{
    if i < rules.len() && rule_episode(title, rules[i]) is None {
        lemma_first_rule_update(title, rules, i + 1);
    }
}

/// A title made of a rule's tag and then `s` gives the rule the first
/// number in `s`, whenever it is past the rule's progress: digits inside
/// the tag never count, and any later episode is taken. A title that does
/// not begin with the tag gives the rule nothing.
pub proof fn law_rule_episode_reads_after_tag(tag: Seq<u8>, s: Seq<u8>, value: u64, title: Seq<u8>)
    ensures
        rule_episode(tag + s, (tag, value)) == match spec_first_number(s) {
            Some(ep) if ep > value => Some(ep),
            _ => None,
        },
        !starts_with(title, tag) ==> rule_episode(title, (tag, value)) is None,
{
    let t = tag + s;
    assert(t.subrange(0, tag.len() as int) =~= tag);
    assert(t.subrange(tag.len() as int, t.len() as int) =~= s);
}

/// The update a title makes is for the first rule that takes an episode
/// from it: that rule's tag begins the title, the episode is the first
/// number after the tag and is past the rule's progress, and no earlier
/// rule takes one. With no such rule there is no update.
pub proof fn law_rule_update_is_first_taking_rule(title: Seq<u8>, rules: Seq<(Seq<u8>, u64)>)
    ensures
        first_rule_update(title, rules, 0) matches Some((i, ep)) ==> {
            &&& 0 <= i < rules.len()
            &&& starts_with(title, rules[i].0)
            &&& spec_first_number(title.subrange(rules[i].0.len() as int, title.len() as int)) == Some(ep)
            &&& ep > rules[i].1
            &&& forall|k: int| 0 <= k < i ==> rule_episode(title, #[trigger] rules[k]) is None
        },
        first_rule_update(title, rules, 0) is None ==> forall|k: int|
            0 <= k < rules.len() ==> rule_episode(title, #[trigger] rules[k]) is None,
{
    lemma_first_rule_update(title, rules, 0);
}

} // verus!
