//! Mutation of one page: the label calls a delta needs, run one at a time.

use vstd::prelude::*;
use crate::resolve::{Delta, Resolution, TagMapping, TagOperation, resolve_spec, present_pairs};

verus! {

/// One call to the remote label endpoints.
#[derive(Clone, Debug)]
pub enum LabelCall {
    Add(String),
    Remove(String),
}

/// One label call, as plain text.
pub enum LabelOp {
    Add(Seq<char>),
    Remove(Seq<char>),
}

impl LabelCall {
    pub open spec fn view(&self) -> LabelOp {
        match self {
            LabelCall::Add(t) => LabelOp::Add(t@),
            LabelCall::Remove(t) => LabelOp::Remove(t@),
        }
    }
}

/// A step of a plan: a call, and whether it runs only when the call
/// before it succeeded.
pub type Step = (LabelOp, bool);

/// One independent call per tag.
pub open spec fn each_tag(tags: Seq<Seq<char>>, add: bool) -> Seq<Step> {
    tags.map_values(|t: Seq<char>| if add { (LabelOp::Add(t), false) } else { (LabelOp::Remove(t), false) })
}

/// Per pair: remove the old tag, then add the new one only if that removal succeeded.
pub open spec fn swap_steps(m: TagMapping) -> Seq<Step>
    decreases m.len(),
{
    if m.len() == 0 {
        seq![]
    } else {
        swap_steps(m.drop_last()) + seq![(LabelOp::Remove(m.last().0), false), (LabelOp::Add(m.last().1), true)]
    }
}

/// The steps that carry out a delta.
pub open spec fn plan_steps(d: Delta) -> Seq<Step> {
    match d {
        Delta::Skip => seq![],
        Delta::Add(t) => each_tag(t, true),
        Delta::Remove(t) => each_tag(t, false),
        Delta::Replace(m) => swap_steps(m),
    }
}

/// The step after `i` once step `i` ended with `ok`: a failed call also
/// passes over the guarded step that follows it.
pub open spec fn step_after(steps: Seq<Step>, i: int, ok: bool) -> int {
    if !ok && i + 1 < steps.len() && steps[i + 1].1 {
        i + 2
    } else {
        i + 1
    }
}

/// The calls of one page's mutation, issued one at a time.
pub struct MutationRun {
    steps: Vec<(LabelCall, bool)>,
    next: usize,
    all_ok: bool,
}

impl MutationRun {
    pub closed spec fn steps(&self) -> Seq<Step> {
        self.steps@.map_values(|s: (LabelCall, bool)| (s.0@, s.1))
    }

    /// Index of the next step to run.
    pub closed spec fn position(&self) -> int {
        self.next as int
    }

    /// No call issued so far has failed.
    pub closed spec fn ok_so_far(&self) -> bool {
        self.all_ok
    }

    pub closed spec fn wf(&self) -> bool {
        self.next <= self.steps@.len()
    }

    /// The run has issued every call it is going to issue.
    pub open spec fn done(&self) -> bool {
        self.position() >= self.steps().len()
    }

    /// The run for a delta, before any call.
    pub fn new(delta: &Resolution) -> (r: MutationRun)
        ensures
            r.wf(),
            r.steps() == plan_steps(delta@),
            r.position() == 0,
            r.ok_so_far(),
    {
        let mut steps: Vec<(LabelCall, bool)> = Vec::new();
        match delta {
            Resolution::Skip => {
                proof {
                    assert(steps@.map_values(|s: (LabelCall, bool)| (s.0@, s.1)) =~= seq![]);
                }
            },
            Resolution::Add(tags) | Resolution::Remove(tags) => {
                let add = matches!(delta, Resolution::Add(_));
                let ghost t = tags.deep_view();
                let mut i: usize = 0;
                while i < tags.len()
                    invariant
                        i <= tags@.len(),
                        t == tags.deep_view(),
                        steps@.map_values(|s: (LabelCall, bool)| (s.0@, s.1)) == each_tag(t.take(i as int), add),
                    decreases tags@.len() - i,
                {
                    let tag = String::from_str(tags[i].as_str());
                    let call = if add { LabelCall::Add(tag) } else { LabelCall::Remove(tag) };
                    let ghost before = steps@.map_values(|s: (LabelCall, bool)| (s.0@, s.1));
                    let ghost one = (call@, false);
                    steps.push((call, false));
                    proof {
                        assert(t[i as int] == tags@[i as int]@);
                        assert(steps@.map_values(|s: (LabelCall, bool)| (s.0@, s.1)) =~= before.push(one));
                        assert(steps@.map_values(|s: (LabelCall, bool)| (s.0@, s.1)) =~= each_tag(t.take(i as int + 1), add));
                    }
                    i = i + 1;
                }
                proof {
                    assert(t.take(tags@.len() as int) =~= t);
                }
            },
            Resolution::Replace(m) => {
                let ghost mv = m.deep_view();
                let mut i: usize = 0;
                proof {
                    assert(steps@.map_values(|s: (LabelCall, bool)| (s.0@, s.1)) =~= swap_steps(mv.take(0)));
                }
                while i < m.len()
                    invariant
                        i <= m@.len(),
                        mv == m.deep_view(),
                        steps@.map_values(|s: (LabelCall, bool)| (s.0@, s.1)) == swap_steps(mv.take(i as int)),
                    decreases m@.len() - i,
                {
                    let old = String::from_str(m[i].0.as_str());
                    let new = String::from_str(m[i].1.as_str());
                    steps.push((LabelCall::Remove(old), false));
                    steps.push((LabelCall::Add(new), true));
                    proof {
                        let pre = mv.take(i as int + 1);
                        assert(pre.drop_last() =~= mv.take(i as int));
                        assert(steps@.map_values(|s: (LabelCall, bool)| (s.0@, s.1)) =~= swap_steps(pre));
                    }
                    i = i + 1;
                }
                proof {
                    assert(mv.take(m@.len() as int) =~= mv);
                }
            },
        }
        MutationRun { steps, next: 0, all_ok: true }
    }

    /// The call to issue next, or `None` once the run is over.
    pub fn next_call(&self) -> (r: Option<LabelCall>)
        requires
            self.wf(),
        ensures
            self.done() <==> r is None,
            r matches Some(c) ==> c@ == self.steps()[self.position()].0,
    {
        if self.next < self.steps.len() {
            let call = match &self.steps[self.next].0 {
                LabelCall::Add(t) => LabelCall::Add(String::from_str(t.as_str())),
                LabelCall::Remove(t) => LabelCall::Remove(String::from_str(t.as_str())),
            };
            Some(call)
        } else {
            None
        }
    }

    /// Records whether the call just issued succeeded.
    pub fn record(&mut self, succeeded: bool)
        requires
            old(self).wf(),
            !old(self).done(),
        ensures
            final(self).wf(),
            final(self).steps() == old(self).steps(),
            final(self).position() == step_after(old(self).steps(), old(self).position(), succeeded),
            final(self).ok_so_far() == (old(self).ok_so_far() && succeeded),
    {
        let n = self.next;
        let len = self.steps.len();
        proof {
            assert(self.steps().len() == self.steps@.len());
            assert(n < len);
        }
        if !succeeded {
            self.all_ok = false;
        }
        if !succeeded && n + 1 < len && self.steps[n + 1].1 {
            self.next = n + 2;
        } else {
            self.next = n + 1;
        }
    }

    /// Whether every call the run issued succeeded.
    pub fn succeeded(&self) -> (r: bool)
        ensures
            r == self.ok_so_far(),
    {
        self.all_ok
    }
}

/// The labels of a page after one call succeeded.
pub open spec fn apply_op(labels: Set<Seq<char>>, op: LabelOp) -> Set<Seq<char>> {
    match op {
        LabelOp::Add(t) => labels.insert(t),
        LabelOp::Remove(t) => labels.remove(t),
    }
}

/// The labels of a page after every step succeeded, in order.
pub open spec fn apply_steps(labels: Set<Seq<char>>, steps: Seq<Step>) -> Set<Seq<char>>
    decreases steps.len(),
{
    if steps.len() == 0 {
        labels
    } else {
        apply_op(apply_steps(labels, steps.drop_last()), steps.last().0)
    }
}

proof fn lemma_apply_adds(labels: Set<Seq<char>>, tags: Seq<Seq<char>>)
    ensures
        apply_steps(labels, each_tag(tags, true)) == labels + tags.to_set(),
    decreases tags.len(),
{
    if tags.len() == 0 {
        assert(labels + tags.to_set() =~= labels);
    } else {
        let rest = tags.drop_last();
        lemma_apply_adds(labels, rest);
        assert(each_tag(tags, true).drop_last() =~= each_tag(rest, true));
        assert(tags.to_set() =~= rest.to_set().insert(tags.last())) by {
            assert forall|x: Seq<char>| tags.to_set().contains(x) implies rest.to_set().insert(tags.last()).contains(x) by {
                let k = choose|k: int| 0 <= k < tags.len() && tags[k] == x;
                if k < rest.len() {
                    assert(rest[k] == x);
                }
            }
            assert forall|x: Seq<char>| rest.to_set().insert(tags.last()).contains(x) implies tags.to_set().contains(x) by {
                if x != tags.last() {
                    let k = choose|k: int| 0 <= k < rest.len() && rest[k] == x;
                    assert(tags[k] == x);
                } else {
                    assert(tags[tags.len() - 1] == x);
                }
            }
        }
        assert(labels + tags.to_set() =~= (labels + rest.to_set()).insert(tags.last()));
    }
}

/// Adding a tag set is idempotent: the calls do not depend on the page's
/// current tags, and when every call succeeds a second run leaves the
/// labels as the first left them.
pub proof fn lemma_add_idempotent(
    op: &TagOperation,
    labels: Set<Seq<char>>,
    current1: Seq<Seq<char>>,
    current2: Seq<Seq<char>>,
)
    requires
        op is Add,
    ensures
        plan_steps(resolve_spec(op, current1)) == plan_steps(resolve_spec(op, current2)),
        ({
            let steps = plan_steps(resolve_spec(op, current1));
            apply_steps(apply_steps(labels, steps), steps) == apply_steps(labels, steps)
        }),
{
    if let TagOperation::Add(t) = op {
        let tags = t.deep_view();
        lemma_apply_adds(labels, tags);
        lemma_apply_adds(labels + tags.to_set(), tags);
        assert(labels + tags.to_set() + tags.to_set() =~= labels + tags.to_set());
    }
}

proof fn lemma_apply_two(labels: Set<Seq<char>>, a: Step, b: Step)
    ensures
        apply_steps(labels, seq![a, b]) == apply_op(apply_op(labels, a.0), b.0),
{
    let two = seq![a, b];
    assert(two.drop_last() =~= seq![a]);
    assert(seq![a].drop_last() =~= Seq::<Step>::empty());
    assert(apply_steps(labels, Seq::<Step>::empty()) == labels);
    assert(seq![a].last() == a);
    assert(apply_steps(labels, seq![a]) == apply_op(labels, a.0));
}

/// The steps of a single literal replacement on a page with current tags `current`.
proof fn lemma_single_replace_steps(old: Seq<char>, new: Seq<char>, current: Seq<Seq<char>>)
    ensures
        plan_steps(Delta::Replace(present_pairs(seq![(old, new)], current))) == if current.contains(old) {
            seq![(LabelOp::Remove(old), false), (LabelOp::Add(new), true)]
        } else {
            seq![]
        },
{
    let m = seq![(old, new)];
    reveal_with_fuel(Seq::filter, 2);
    assert(swap_steps(seq![]) == Seq::<Step>::empty());
    assert(m.drop_last() =~= seq![]);
    let p = present_pairs(m, current);
    if current.contains(old) {
        assert(p =~= m);
        assert(p.drop_last() =~= seq![]);
        assert(swap_steps(p) =~= seq![(LabelOp::Remove(old), false), (LabelOp::Add(new), true)]);
    } else {
        assert(p =~= seq![]);
    }
}

/// Replacing `old` by `new` and then `new` by `old` restores the page's
/// labels, when every call succeeds and the page did not already carry
/// `new` (unless the two are the same tag).
pub proof fn lemma_replace_round_trip(
    old: Seq<char>,
    new: Seq<char>,
    current: Seq<Seq<char>>,
    after: Seq<Seq<char>>,
)
    requires
        !current.contains(new) || old == new,
    ensures
        ({
            let first = plan_steps(Delta::Replace(present_pairs(seq![(old, new)], current)));
            let labels = apply_steps(current.to_set(), first);
            after.to_set() == labels ==> {
                let second = plan_steps(Delta::Replace(present_pairs(seq![(new, old)], after)));
                apply_steps(labels, second) == current.to_set()
            }
        }),
{
    let t = current.to_set();
    lemma_single_replace_steps(old, new, current);
    lemma_single_replace_steps(new, old, after);
    let first = plan_steps(Delta::Replace(present_pairs(seq![(old, new)], current)));
    let labels = apply_steps(t, first);
    if after.to_set() == labels {
        let second = plan_steps(Delta::Replace(present_pairs(seq![(new, old)], after)));
        let two = seq![(LabelOp::Remove(old), false), (LabelOp::Add(new), true)];
        let back = seq![(LabelOp::Remove(new), false), (LabelOp::Add(old), true)];
        lemma_apply_two(t, two[0], two[1]);
        lemma_apply_two(labels, back[0], back[1]);
        if current.contains(old) {
            assert(labels == t.remove(old).insert(new));
            assert(after.to_set().contains(new));
            assert(after.contains(new));
            assert(apply_steps(labels, second) == labels.remove(new).insert(old));
            assert(labels.remove(new).insert(old) =~= t);
        } else {
            assert(labels == t);
            assert(!after.to_set().contains(new) || old == new);
            if old == new {
                assert(!t.contains(old));
            }
            assert(!after.contains(new));
        }
    }
}

} // verus!
