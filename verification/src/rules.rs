//! Ordered rules: a check holds a list of claims in order, and the first that
//! does not hold names itself.

use vstd::prelude::*;

use crate::text::same_text;

verus! {

/// Every rule holds.
pub open spec fn all_hold(rules: Seq<(Seq<char>, bool)>) -> bool {
    forall|i: int| 0 <= i < rules.len() ==> (#[trigger] rules[i]).1
}

/// The claim of the first rule that does not hold, if there is one.
pub open spec fn first_broken(rules: Seq<(Seq<char>, bool)>) -> Option<Seq<char>>
    decreases rules.len(),
{
    if rules.len() == 0 {
        None
    } else if !rules[0].1 {
        Some(rules[0].0)
    } else {
        first_broken(rules.drop_first())
    }
}

/// No rule is named exactly when every rule holds, and a named rule is broken
/// while every rule before it holds.
pub proof fn lemma_first_broken(rules: Seq<(Seq<char>, bool)>)
    ensures
        first_broken(rules) is None <==> all_hold(rules),
        first_broken(rules) matches Some(claim) ==> exists|i: int|
            #![trigger rules[i]]
            0 <= i < rules.len() && !rules[i].1 && rules[i].0 == claim && all_hold(rules.take(i)),
    decreases rules.len(),
{
    if rules.len() > 0 {
        let rest = rules.drop_first();
        if rules[0].1 {
            lemma_first_broken(rest);
            assert(all_hold(rules) == all_hold(rest)) by {
                if all_hold(rest) {
                    assert forall|i: int| 0 <= i < rules.len() implies (#[trigger] rules[i]).1 by {
                        if i > 0 {
                            assert(rules[i] == rest[i - 1]);
                        }
                    }
                }
                if all_hold(rules) {
                    assert forall|i: int| 0 <= i < rest.len() implies (#[trigger] rest[i]).1 by {
                        assert(rest[i] == rules[i + 1]);
                    }
                }
            }
            if first_broken(rest) is Some {
                let claim = first_broken(rest)->Some_0;
                let i = choose|i: int|
                    #![trigger rest[i]]
                    0 <= i < rest.len() && !rest[i].1 && rest[i].0 == claim && all_hold(
                        rest.take(i),
                    );
                assert(rules[i + 1] == rest[i]);
                assert forall|k: int| 0 <= k < i + 1 implies (#[trigger] rules.take(i + 1)[k]).1 by {
                    if k > 0 {
                        assert(rest.take(i)[k - 1] == rules[k]);
                    }
                }
            }
        } else {
            assert(all_hold(rules.take(0)));
        }
    }
}

/// Two lists of rules in a row: the second speaks only where the first is
/// silent.
pub proof fn lemma_first_broken_of_two(
    first: Seq<(Seq<char>, bool)>,
    second: Seq<(Seq<char>, bool)>,
)
    ensures
        first_broken(first + second) == match first_broken(first) {
            Some(claim) => Some(claim),
            None => first_broken(second),
        },
    decreases first.len(),
{
    if first.len() == 0 {
        assert(first + second =~= second);
    } else {
        assert((first + second).drop_first() =~= first.drop_first() + second);
        lemma_first_broken_of_two(first.drop_first(), second);
    }
}

/// The rules of the steps `0..count`, one after the other.
pub open spec fn chained(steps: spec_fn(int) -> Seq<(Seq<char>, bool)>, count: nat) -> Seq<
    (Seq<char>, bool),
>
    decreases count,
{
    if count == 0 {
        Seq::empty()
    } else {
        chained(steps, (count - 1) as nat) + steps(count - 1)
    }
}

/// One more step whose rules hold leaves a chain without a broken rule.
pub proof fn lemma_chained_step(steps: spec_fn(int) -> Seq<(Seq<char>, bool)>, i: nat)
    requires
        first_broken(chained(steps, i)) is None,
    ensures
        first_broken(chained(steps, i + 1)) == first_broken(steps(i as int)),
{
    lemma_first_broken_of_two(chained(steps, i), steps(i as int));
}

/// The first step with a broken rule names what the whole chain names.
pub proof fn lemma_chained_broken(
    steps: spec_fn(int) -> Seq<(Seq<char>, bool)>,
    i: nat,
    count: nat,
)
    requires
        i <= count,
        first_broken(chained(steps, i)) is Some,
    ensures
        first_broken(chained(steps, count)) == first_broken(chained(steps, i)),
    decreases count,
{
    if i < count {
        lemma_chained_broken(steps, i, (count - 1) as nat);
        lemma_first_broken_of_two(chained(steps, (count - 1) as nat), steps(count - 1));
    }
}

/// A chain holds exactly when each of its steps does.
pub proof fn lemma_all_hold_chained(steps: spec_fn(int) -> Seq<(Seq<char>, bool)>, count: nat)
    ensures
        all_hold(chained(steps, count)) <==> forall|i: int|
            0 <= i < count ==> all_hold(#[trigger] steps(i)),
    decreases count,
{
    if count > 0 {
        let before = chained(steps, (count - 1) as nat);
        let last = steps(count - 1);
        let all = chained(steps, count);
        lemma_all_hold_chained(steps, (count - 1) as nat);
        if all_hold(all) {
            assert forall|i: int| 0 <= i < before.len() implies (#[trigger] before[i]).1 by {
                assert(all[i] == before[i]);
            }
            assert forall|i: int| 0 <= i < last.len() implies (#[trigger] last[i]).1 by {
                assert(all[before.len() + i] == last[i]);
            }
            assert(all_hold(last));
            assert(all_hold(before));
        }
        if all_hold(before) && all_hold(last) {
            assert forall|i: int| 0 <= i < all.len() implies (#[trigger] all[i]).1 by {
                if i < before.len() {
                    assert(all[i] == before[i]);
                } else {
                    assert(all[i] == last[i - before.len()]);
                }
            }
        }
    }
}

/// One more rule at the end of a list speaks only where the list is silent.
pub proof fn lemma_first_broken_push(rules: Seq<(Seq<char>, bool)>, rule: (Seq<char>, bool))
    ensures
        first_broken(rules.push(rule)) == match first_broken(rules) {
            Some(claim) => Some(claim),
            None => if rule.1 {
                None
            } else {
                Some(rule.0)
            },
        },
{
    assert(rules.push(rule) =~= rules + seq![rule]);
    lemma_first_broken_of_two(rules, seq![rule]);
    reveal_with_fuel(first_broken, 2);
    assert(seq![rule].drop_first() =~= Seq::<(Seq<char>, bool)>::empty());
}

/// A list of rules under evaluation, in order.  It keeps the claim of the
/// first rule that did not hold.
pub struct Audit {
    broken: Option<&'static str>,
    rules: Ghost<Seq<(Seq<char>, bool)>>,
    evaluated: Ghost<nat>,
}

impl Audit {
    /// The rules to evaluate.
    pub closed spec fn rules(&self) -> Seq<(Seq<char>, bool)> {
        self.rules@
    }

    /// How many of them have been evaluated.
    pub closed spec fn evaluated(&self) -> nat {
        self.evaluated@
    }

    /// The kept claim is that of the first broken rule so far.
    pub closed spec fn wf(&self) -> bool {
        let so_far = self.rules@.take(self.evaluated@ as int);
        &&& self.evaluated@ <= self.rules@.len()
        &&& match self.broken {
            Some(claim) => first_broken(so_far) == Some(claim@),
            None => first_broken(so_far) is None,
        }
    }

    /// Begins the evaluation of `rules`.
    pub fn new(Ghost(rules): Ghost<Seq<(Seq<char>, bool)>>) -> (audit: Self)
        ensures
            audit.wf(),
            audit.rules() == rules,
            audit.evaluated() == 0,
    {
        Audit { broken: None, rules: Ghost(rules), evaluated: Ghost(0) }
    }

    /// Evaluates the next rule.
    pub fn hold(&mut self, claim: &'static str, holds: bool)
        requires
            old(self).wf(),
            old(self).evaluated() < old(self).rules().len(),
            old(self).rules()[old(self).evaluated() as int].0 == claim@,
            old(self).rules()[old(self).evaluated() as int].1 == holds,
        ensures
            final(self).wf(),
            final(self).rules() == old(self).rules(),
            final(self).evaluated() == old(self).evaluated() + 1,
    {
        proof {
            let n = self.evaluated@ as int;
            lemma_first_broken_push(self.rules@.take(n), self.rules@[n]);
            assert(self.rules@.take(n + 1) =~= self.rules@.take(n).push(self.rules@[n]));
        }
        self.evaluated = Ghost(self.evaluated@ + 1);
        if self.broken.is_none() && !holds {
            self.broken = Some(claim);
        }
    }

    /// The claim of the first rule that did not hold.
    pub fn broken(&self) -> (claim: Option<&'static str>)
        requires
            self.wf(),
            self.evaluated() == self.rules().len(),
        ensures
            match claim {
                Some(claim) => first_broken(self.rules()) == Some(claim@),
                None => first_broken(self.rules()) is None && all_hold(self.rules()),
            },
    {
        proof {
            assert(self.rules@.take(self.evaluated@ as int) =~= self.rules@);
            lemma_first_broken(self.rules@);
        }
        self.broken
    }
}

/// The failure of the first step from `from` on that has one.
pub open spec fn first_failure<F>(steps: spec_fn(int) -> Option<F>, from: int, count: int) -> Option<
    F,
>
    decreases count - from,
{
    if from >= count {
        None
    } else {
        match steps(from) {
            Some(failure) => Some(failure),
            None => first_failure(steps, from + 1, count),
        }
    }
}

/// There is no failure exactly when no step has one.
pub proof fn lemma_first_failure<F>(steps: spec_fn(int) -> Option<F>, from: int, count: int)
    ensures
        first_failure(steps, from, count) is None <==> forall|i: int|
            from <= i < count ==> #[trigger] steps(i) is None,
    decreases count - from,
{
    if from < count {
        lemma_first_failure(steps, from + 1, count);
    }
}

/// The first of two failures.
pub open spec fn either<F>(first: Option<F>, second: Option<F>) -> Option<F> {
    if first is Some {
        first
    } else {
        second
    }
}

/// `word` is one of `words`.
pub open spec fn listed(words: Seq<&'static str>, word: Seq<char>) -> bool {
    exists|i: int| 0 <= i < words.len() && (#[trigger] words[i])@ == word
}

/// Whether `word` is one of `words`.
pub fn is_listed(words: &[&'static str], word: &str) -> (found: bool)
    ensures
        found == listed(words@, word@),
{
    let mut i: usize = 0;
    while i < words.len()
        invariant
            i <= words.len(),
            forall|k: int| 0 <= k < i ==> (#[trigger] words@[k])@ != word@,
        decreases words.len() - i,
    {
        if same_text(words[i], word) {
            return true;
        }
        i += 1;
    }
    false
}

/// The failure that is named is that of a step, and no step before it has one.
pub proof fn lemma_named_failure<F>(steps: spec_fn(int) -> Option<F>, from: int, count: int)
    ensures
        first_failure(steps, from, count) matches Some(failure) ==> exists|i: int|
            from <= i < count && #[trigger] steps(i) == Some(failure) && no_failure_before(
                steps,
                from,
                i,
            ),
    decreases count - from,
{
    if from < count && steps(from) is None {
        lemma_named_failure(steps, from + 1, count);
        if first_failure(steps, from, count) is Some {
            let failure = first_failure(steps, from + 1, count)->Some_0;
            let i = choose|i: int|
                from + 1 <= i < count && #[trigger] steps(i) == Some(failure) && no_failure_before(
                    steps,
                    from + 1,
                    i,
                );
            assert(no_failure_before(steps, from, i));
        }
    } else if from < count {
        assert(no_failure_before(steps, from, from));
    }
}

/// No step from `from` to before `to` has a failure.
pub open spec fn no_failure_before<F>(steps: spec_fn(int) -> Option<F>, from: int, to: int) -> bool {
    forall|k: int| from <= k < to ==> #[trigger] steps(k) is None
}

} // verus!
