//! The rules of the downloader, held in memory while a feed is read: each
//! a tag that begins the titles it applies to and the last episode taken.

use vstd::prelude::*;
use crate::number::{first_number_u16, spec_first_number_u16};
use crate::rules::{starts_with, starts_with_exec};

verus! {

/// A rule: a tag and the last episode taken.
pub struct ListEntry {
    tag: Vec<u8>,
    value: u16,
}

/// The rules, and the size limit of the list they were read from.
pub struct Cache {
    inner: Vec<ListEntry>,
    max_size: u64,
}

/// An episode to take for the rule at `index` of the rules it was found in.
pub struct RuleUpdate {
    index: usize,
    episode: u16,
    rules: Ghost<Seq<(Seq<u8>, u16)>>,
}

impl View for ListEntry {
    type V = (Seq<u8>, u16);

    closed spec fn view(&self) -> (Seq<u8>, u16) {
        (self.tag@, self.value)
    }
}

impl View for Cache {
    type V = Seq<(Seq<u8>, u16)>;

    closed spec fn view(&self) -> Seq<(Seq<u8>, u16)> {
        self.inner@.map_values(|e: ListEntry| e@)
    }
}

impl View for RuleUpdate {
    type V = (int, u16);

    closed spec fn view(&self) -> (int, u16) {
        (self.index as int, self.episode)
    }
}

/// The episode that `rule` takes from `title`: the title begins with the
/// tag and the first number after it fits a `u16` and is past the rule's
/// progress.
pub open spec fn cache_episode(title: Seq<u8>, rule: (Seq<u8>, u16)) -> Option<u16> {
    if starts_with(title, rule.0) {
        match spec_first_number_u16(title.subrange(rule.0.len() as int, title.len() as int)) {
            Some(ep) if ep > rule.1 => Some(ep),
            _ => None,
        }
    } else {
        None
    }
}

/// The first rule, from `i` on, that takes an episode from `title`.
pub open spec fn first_cache_update(title: Seq<u8>, rules: Seq<(Seq<u8>, u16)>, i: int) -> Option<(int, u16)>
    decreases rules.len() - i,
{
    if i < 0 || i >= rules.len() {
        None
    } else {
        match cache_episode(title, rules[i]) {
            Some(ep) => Some((i, ep)),
            None => first_cache_update(title, rules, i + 1),
        }
    }
}

/// The first rule whose tag begins `title`, from `i` on.
pub open spec fn first_prefix_rule(title: Seq<u8>, rules: Seq<(Seq<u8>, u16)>, i: int) -> Option<int>
    decreases rules.len() - i,
{
    if i < 0 || i >= rules.len() {
        None
    } else if starts_with(title, rules[i].0) {
        Some(i)
    } else {
        first_prefix_rule(title, rules, i + 1)
    }
}

/// The update that the downloader makes for `title`: only the first rule
/// whose tag begins the title counts, and only when the number after its
/// tag is past its progress.
pub open spec fn download_update(title: Seq<u8>, rules: Seq<(Seq<u8>, u16)>) -> Option<(int, u16)> {
    match first_prefix_rule(title, rules, 0) {
        Some(i) => match cache_episode(title, rules[i]) {
            Some(ep) => Some((i, ep)),
            None => None,
        },
        None => None,
    }
}

/// The episode that a rule takes from `title`, as `cache_episode` says.
fn cache_episode_exec(title: &[u8], tag: &[u8], value: u16) -> (r: Option<u16>)
    ensures
        r == cache_episode(title@, (tag@, value)),
{
    if !starts_with_exec(title, tag) {
        return None;
    }
    let episode = first_number_u16(&title[tag.len()..title.len()])?;
    if episode <= value {
        return None;
    }
    Some(episode)
}

impl ListEntry {
    /// A rule for titles that begin with `tag`, with `value` taken so far.
    pub fn new(tag: Vec<u8>, value: u16) -> (r: Self)
        ensures
            r@ == (tag@, value),
    {
        ListEntry { tag, value }
    }

    /// The tag.
    pub fn tag(&self) -> (r: &[u8])
        ensures
            r@ == self@.0,
    {
        self.tag.as_slice()
    }

    /// The last episode taken.
    pub fn value(&self) -> (r: u16)
        ensures
            r == self@.1,
    {
        self.value
    }
}

impl RuleUpdate {
    /// The rule is one of the rules the update was found in, and the episode
    /// is past that rule's progress.
    #[verifier::type_invariant]
    spec fn found_in_rules(&self) -> bool {
        &&& self.index < self.rules@.len()
        &&& self.rules@[self.index as int].1 < self.episode
    }

    /// The rules the update was found in.
    pub closed spec fn spec_rules(&self) -> Seq<(Seq<u8>, u16)> {
        self.rules@
    }

    /// The rule it is for.
    pub fn index(&self) -> (r: usize)
        ensures
            r == self@.0,
    {
        self.index
    }

    /// The episode to take.
    pub fn episode(&self) -> (r: u16)
        ensures
            r == self@.1,
    {
        self.episode
    }

    /// Records this update's episode as the progress of its rule, in the
    /// rules it was found in; the other rules stay as they are. The rule's
    /// progress goes up.
    pub fn execute(self, cache: &mut Cache)
        requires
            self.spec_rules() == old(cache)@,
        ensures
            self@.0 < old(cache)@.len(),
            old(cache)@[self@.0].1 < self@.1,
            final(cache)@ == applied(old(cache)@, self@),
            final(cache).spec_max_size() == old(cache).spec_max_size(),
    {
        proof {
            use_type_invariant(&self);
        }
        let i = self.index;
        cache.inner[i].value = self.episode;
        proof {
            assert(cache@ =~= old(cache)@.update(self@.0, (old(cache)@[self@.0].0, self@.1)));
        }
    }
}

impl Cache {
    /// The rules read from a list of at most `max_size` bytes.
    pub fn new(entries: Vec<ListEntry>, max_size: u64) -> (r: Self)
        ensures
            r@ == entries@.map_values(|e: ListEntry| e@),
            r.spec_max_size() == max_size,
    {
        Cache { inner: entries, max_size }
    }

    /// The size limit of the list the rules were read from.
    pub closed spec fn spec_max_size(&self) -> u64 {
        self.max_size
    }

    /// The size limit of the list the rules were read from.
    pub fn max_size(&self) -> (r: u64)
        ensures
            r == self.spec_max_size(),
    {
        self.max_size
    }

    /// The rules.
    pub fn entries(&self) -> (r: &[ListEntry])
        ensures
            r@.map_values(|e: ListEntry| e@) == self@,
    {
        self.inner.as_slice()
    }

    /// The update that `title` makes: the first rule whose tag begins the
    /// title and after whose tag the first number is past its progress.
    pub fn get_rule_update(&self, title: &[u8]) -> (r: Option<RuleUpdate>)
        ensures
            match first_cache_update(title@, self@, 0) {
                Some(u) => r matches Some(x) && x@ == u && x.spec_rules() == self@,
                None => r is None,
            },
    {
        let mut index: usize = 0;
        while index < self.inner.len()
            invariant
                index <= self@.len(),
                self@ == self.inner@.map_values(|e: ListEntry| e@),
                first_cache_update(title@, self@, 0) == first_cache_update(title@, self@, index as int),
            decreases self@.len() - index,
        {
            let entry = &self.inner[index];
            proof {
                assert(self@[index as int] == entry@);
            }
            if let Some(episode) = cache_episode_exec(title, entry.tag.as_slice(), entry.value) {
                return Some(RuleUpdate { index, episode, rules: Ghost(self@) });
            }
            index = index + 1;
        }
        None
    }

    /// The update that the downloader makes for `title`: only the first rule
    /// whose tag begins the title is tried.
    pub fn download_update(&self, title: &[u8]) -> (r: Option<RuleUpdate>)
        ensures
            match download_update(title@, self@) {
                Some(u) => r matches Some(x) && x@ == u && x.spec_rules() == self@,
                None => r is None,
            },
    {
        let mut index: usize = 0;
        while index < self.inner.len()
            invariant
                index <= self@.len(),
                self@ == self.inner@.map_values(|e: ListEntry| e@),
                first_prefix_rule(title@, self@, 0) == first_prefix_rule(title@, self@, index as int),
            decreases self@.len() - index,
        {
            let entry = &self.inner[index];
            proof {
                assert(self@[index as int] == entry@);
            }
            if starts_with_exec(title, entry.tag.as_slice()) {
                return match cache_episode_exec(title, entry.tag.as_slice(), entry.value) {
                    Some(episode) => Some(RuleUpdate { index, episode, rules: Ghost(self@) }),
                    None => None,
                };
            }
            index = index + 1;
        }
        None
    }
}

/// A found update is in range and is what its rule takes.
pub proof fn lemma_first_cache_update(title: Seq<u8>, rules: Seq<(Seq<u8>, u16)>, i: int)
    requires
        0 <= i,
    ensures
        first_cache_update(title, rules, i) matches Some((j, ep)) ==> i <= j < rules.len()
            && cache_episode(title, rules[j]) == Some(ep),
    decreases rules.len() - i,
{
    if i < rules.len() && cache_episode(title, rules[i]) is None {
        lemma_first_cache_update(title, rules, i + 1);
    }
}

/// An update is past the progress of its rule, and once applied the same
/// title no longer makes an update for that rule.
pub proof fn law_applied_cache_update_is_not_offered_again(rules: Seq<(Seq<u8>, u16)>, title: Seq<u8>)
    requires
        first_cache_update(title, rules, 0) is Some,
    ensures
        ({
            let (i, ep) = first_cache_update(title, rules, 0).unwrap();
            &&& 0 <= i < rules.len()
            &&& ep > rules[i].1
            &&& cache_episode(title, rules.update(i, (rules[i].0, ep))[i]) is None
        }),
{
    lemma_first_cache_update(title, rules, 0);
}

/// What the downloader takes for a title is also what the cache offers
/// for it when no earlier rule takes one: the downloader only ever takes an
/// update that `get_rule_update` would also find.
pub proof fn law_download_update_is_a_rule_update(rules: Seq<(Seq<u8>, u16)>, title: Seq<u8>)
    requires
        download_update(title, rules) is Some,
    ensures
        first_cache_update(title, rules, 0) == download_update(title, rules),
{
    lemma_first_prefix_rule(title, rules, 0);
    let i = first_prefix_rule(title, rules, 0).unwrap();
    lemma_cache_update_skips(title, rules, 0, i);
}

proof fn lemma_first_prefix_rule(title: Seq<u8>, rules: Seq<(Seq<u8>, u16)>, i: int)
    requires
        0 <= i,
    ensures
        first_prefix_rule(title, rules, i) matches Some(j) ==> i <= j < rules.len() && starts_with(title, rules[j].0)
            && forall|k: int| i <= k < j ==> !starts_with(title, #[trigger] rules[k].0),
    decreases rules.len() - i,
{
    if i < rules.len() && !starts_with(title, rules[i].0) {
        lemma_first_prefix_rule(title, rules, i + 1);
    }
}

proof fn lemma_cache_update_skips(title: Seq<u8>, rules: Seq<(Seq<u8>, u16)>, i: int, j: int)
    requires
        0 <= i <= j < rules.len(),
        forall|k: int| i <= k < j ==> !starts_with(title, #[trigger] rules[k].0),
    ensures
        first_cache_update(title, rules, i) == first_cache_update(title, rules, j),
    decreases j - i,
{
    if i < j {
        assert(!starts_with(title, rules[i].0));
        lemma_cache_update_skips(title, rules, i + 1, j);
    }
}

/// The rules once `u` is executed on them: the progress of rule `u.0`
/// becomes `u.1`.
pub open spec fn applied(rules: Seq<(Seq<u8>, u16)>, u: (int, u16)) -> Seq<(Seq<u8>, u16)> {
    rules.update(u.0, (rules[u.0].0, u.1))
}

/// Once the downloader executes the update a title makes, the same title
/// makes no download update any more.
pub proof fn law_download_update_not_offered_again(rules: Seq<(Seq<u8>, u16)>, title: Seq<u8>)
    requires
        download_update(title, rules) is Some,
    ensures
        download_update(title, applied(rules, download_update(title, rules).unwrap())) is None,
{
    lemma_first_prefix_rule(title, rules, 0);
    let i = first_prefix_rule(title, rules, 0).unwrap();
    let next = applied(rules, download_update(title, rules).unwrap());
    assert forall|k: int| 0 <= k < rules.len() implies #[trigger] next[k].0 == rules[k].0 by {}
    lemma_first_prefix_rule_same_tags(title, rules, next, 0);
}

/// Two lists of rules with the same tags have the same first rule whose tag
/// begins a title.
proof fn lemma_first_prefix_rule_same_tags(
    title: Seq<u8>,
    a: Seq<(Seq<u8>, u16)>,
    b: Seq<(Seq<u8>, u16)>,
    i: int,
)
    requires
        0 <= i,
        a.len() == b.len(),
        forall|k: int| 0 <= k < a.len() ==> #[trigger] a[k].0 == b[k].0,
    ensures
        first_prefix_rule(title, a, i) == first_prefix_rule(title, b, i),
    decreases a.len() - i,
{
    if i < a.len() {
        assert(a[i].0 == b[i].0);
        lemma_first_prefix_rule_same_tags(title, a, b, i + 1);
    }
}

/// What a run of the downloader does over `titles`, in order: the rules it
/// ends with and the updates it executed.
pub open spec fn run(titles: Seq<Seq<u8>>, rules: Seq<(Seq<u8>, u16)>) -> (Seq<(Seq<u8>, u16)>, Seq<(int, u16)>)
    decreases titles.len(),
{
    if titles.len() == 0 {
        (rules, Seq::empty())
    } else {
        let (before, taken) = run(titles.drop_last(), rules);
        match download_update(titles.last(), before) {
            Some(u) => (applied(before, u), taken.push(u)),
            None => (before, taken),
        }
    }
}

/// A download update is for a rule in range, and is past that rule's
/// progress.
proof fn lemma_download_update(title: Seq<u8>, rules: Seq<(Seq<u8>, u16)>)
    ensures
        download_update(title, rules) matches Some((i, ep)) ==> 0 <= i < rules.len() && ep > rules[i].1,
{
    lemma_first_prefix_rule(title, rules, 0);
}

/// Over a run of the downloader, the rules keep their tags, no rule's
/// progress goes back, each executed update is at most the final progress
/// of its rule, and no (rule, episode) is taken twice.
pub proof fn law_run_takes_each_episode_once(titles: Seq<Seq<u8>>, rules: Seq<(Seq<u8>, u16)>)
    ensures
        ({
            let (after, taken) = run(titles, rules);
            &&& after.len() == rules.len()
            &&& forall|k: int| 0 <= k < rules.len() ==> #[trigger] after[k].0 == rules[k].0
            &&& forall|k: int| 0 <= k < rules.len() ==> rules[k].1 <= #[trigger] after[k].1
            &&& forall|j: int|
                0 <= j < taken.len() ==> 0 <= (#[trigger] taken[j]).0 < rules.len() && taken[j].1 <= after[taken[j].0].1
            &&& forall|j: int, l: int| 0 <= j < l < taken.len() ==> #[trigger] taken[j] != #[trigger] taken[l]
        }),
    decreases titles.len(),
{
    if titles.len() > 0 {
        law_run_takes_each_episode_once(titles.drop_last(), rules);
        let (before, taken) = run(titles.drop_last(), rules);
        lemma_download_update(titles.last(), before);
        if let Some(u) = download_update(titles.last(), before) {
            let after = applied(before, u);
            let taken2 = taken.push(u);
            assert forall|j: int| 0 <= j < taken2.len() implies 0 <= (#[trigger] taken2[j]).0 < rules.len()
                && taken2[j].1 <= after[taken2[j].0].1 by {
                if j < taken.len() {
                    assert(taken2[j] == taken[j]);
                }
            }
            assert forall|j: int, l: int| 0 <= j < l < taken2.len() implies #[trigger] taken2[j] != #[trigger] taken2[l] by {
                if l < taken.len() {
                    assert(taken2[j] == taken[j] && taken2[l] == taken[l]);
                } else {
                    assert(taken2[j] == taken[j]);
                    assert(taken[j].1 <= before[taken[j].0].1);
                }
            }
        }
    }
}

/// A title made of a rule's tag and then `s` gives the rule the first
/// number in `s` when it fits a `u16` and is past the rule's progress:
/// digits inside the tag never count, and any later episode is taken, not
/// only the next one. A title that does not begin with the tag gives the
/// rule nothing.
pub proof fn law_cache_episode_reads_after_tag(tag: Seq<u8>, s: Seq<u8>, value: u16, title: Seq<u8>)
    ensures
        cache_episode(tag + s, (tag, value)) == match spec_first_number_u16(s) {
            Some(ep) if ep > value => Some(ep),
            _ => None,
        },
        !starts_with(title, tag) ==> cache_episode(title, (tag, value)) is None,
{
    let t = tag + s;
    assert(t.subrange(0, tag.len() as int) =~= tag);
    assert(t.subrange(tag.len() as int, t.len() as int) =~= s);
}

/// The downloader's update for a title is decided by the first rule whose
/// tag begins the title alone: it is that rule with the first number after
/// its tag, when that number fits a `u16` and is past the rule's progress,
/// and none otherwise. When no tag begins the title there is none.
pub proof fn law_download_update_uses_first_matching_rule(title: Seq<u8>, rules: Seq<(Seq<u8>, u16)>, i: int)
    requires
        0 <= i < rules.len(),
        starts_with(title, rules[i].0),
        forall|k: int| 0 <= k < i ==> !starts_with(title, #[trigger] rules[k].0),
    ensures
        download_update(title, rules) == match spec_first_number_u16(
            title.subrange(rules[i].0.len() as int, title.len() as int),
        ) {
            Some(ep) if ep > rules[i].1 => Some((i, ep)),
            _ => None,
        },
{
    lemma_first_prefix_rule(title, rules, 0);
    lemma_first_prefix_rule_at(title, rules, 0, i);
}

/// When no rule's tag begins a title, the downloader takes nothing for it.
pub proof fn law_download_update_needs_a_matching_tag(title: Seq<u8>, rules: Seq<(Seq<u8>, u16)>)
    requires
        forall|k: int| 0 <= k < rules.len() ==> !starts_with(title, #[trigger] rules[k].0),
    ensures
        download_update(title, rules) is None,
{
    lemma_first_prefix_rule(title, rules, 0);
}

proof fn lemma_first_prefix_rule_at(title: Seq<u8>, rules: Seq<(Seq<u8>, u16)>, j: int, i: int)
    requires
        0 <= j <= i < rules.len(),
        starts_with(title, rules[i].0),
        forall|k: int| 0 <= k < i ==> !starts_with(title, #[trigger] rules[k].0),
    ensures
        first_prefix_rule(title, rules, j) == Some(i),
    decreases i - j,
{
    if j < i {
        assert(!starts_with(title, rules[j].0));
        lemma_first_prefix_rule_at(title, rules, j + 1, i);
    }
}

/// The update `get_rule_update` finds for a title is for the first rule
/// that takes an episode from it: that rule's tag begins the title, the
/// episode is the first number after the tag, fits a `u16` and is past the
/// rule's progress, and no earlier rule takes one. With no such rule there
/// is no update.
pub proof fn law_cache_update_is_first_taking_rule(title: Seq<u8>, rules: Seq<(Seq<u8>, u16)>)
    ensures
        first_cache_update(title, rules, 0) matches Some((i, ep)) ==> {
            &&& 0 <= i < rules.len()
            &&& starts_with(title, rules[i].0)
            &&& spec_first_number_u16(title.subrange(rules[i].0.len() as int, title.len() as int)) == Some(ep)
            &&& ep > rules[i].1
            &&& forall|k: int| 0 <= k < i ==> cache_episode(title, #[trigger] rules[k]) is None
        },
        first_cache_update(title, rules, 0) is None ==> forall|k: int|
            0 <= k < rules.len() ==> cache_episode(title, #[trigger] rules[k]) is None,
{
    lemma_cache_update_earlier(title, rules, 0);
}

proof fn lemma_cache_update_earlier(title: Seq<u8>, rules: Seq<(Seq<u8>, u16)>, i: int)
    requires
        0 <= i,
    ensures
        first_cache_update(title, rules, i) matches Some((j, ep)) ==> i <= j < rules.len()
            && cache_episode(title, rules[j]) == Some(ep) && forall|k: int|
            i <= k < j ==> cache_episode(title, #[trigger] rules[k]) is None,
        first_cache_update(title, rules, i) is None ==> forall|k: int|
            i <= k < rules.len() ==> cache_episode(title, #[trigger] rules[k]) is None,
    decreases rules.len() - i,
{
    if i < rules.len() && cache_episode(title, rules[i]) is None {
        lemma_cache_update_earlier(title, rules, i + 1);
    }
}

} // verus!
