//! Plans built from several setups: `--undo` across every recorded setup,
//! and the re-run that first removes what an earlier setup installed and
//! this one no longer wants.

use vstd::prelude::*;
use crate::setup::model::{steps_v, strs, Plan, PlanV, Resource, ResourceV, SetupContext, Step, StepV};
use crate::setup::parts::push_step;
use crate::setup::plan::{plan, spec_plan};
use crate::setup::undo::{plan_undo, spec_plan_undo};
use crate::text::str_eq;

verus! {

// ─── undo across setups ─────────────────────────────────────────────────────

/// The contexts `--undo` works through: the recorded ones newest first, then
/// the current one.
pub open spec fn undo_sources(current: Option<SetupContext>, recorded: Seq<SetupContext>) -> Seq<SetupContext> {
    Seq::new(recorded.len(), |i: int| recorded[recorded.len() - 1 - i]) + match current {
        Some(c) => seq![c],
        None => Seq::empty(),
    }
}

/// The undo steps of each context in turn.
pub open spec fn undo_steps_of(ctxs: Seq<SetupContext>, managed: Seq<Seq<char>>) -> Seq<StepV>
    decreases ctxs.len(),
{
    if ctxs.len() == 0 {
        Seq::empty()
    } else {
        undo_steps_of(ctxs.drop_last(), managed) + spec_plan_undo(ctxs.last(), managed).steps
    }
}

/// The undo advice of each context in turn.
pub open spec fn undo_notes_of(ctxs: Seq<SetupContext>, managed: Seq<Seq<char>>) -> Seq<Seq<char>>
    decreases ctxs.len(),
{
    if ctxs.len() == 0 {
        Seq::empty()
    } else {
        undo_notes_of(ctxs.drop_last(), managed) + spec_plan_undo(ctxs.last(), managed).manual
    }
}

/// Whether some step in `steps` has the summary `s`.
pub open spec fn has_summary(steps: Seq<StepV>, s: Seq<char>) -> bool {
    exists|i: int| 0 <= i < steps.len() && #[trigger] steps[i].summary == s
}

/// `steps` without every step whose summary an earlier step already has.
pub open spec fn first_by_summary(steps: Seq<StepV>) -> Seq<StepV>
    decreases steps.len(),
{
    if steps.len() == 0 {
        Seq::empty()
    } else {
        let kept = first_by_summary(steps.drop_last());
        if has_summary(kept, steps.last().summary) {
            kept
        } else {
            kept.push(steps.last())
        }
    }
}

/// `lines` without repeats, first occurrences kept.
pub open spec fn distinct_lines(lines: Seq<Seq<char>>) -> Seq<Seq<char>>
    decreases lines.len(),
{
    if lines.len() == 0 {
        Seq::empty()
    } else {
        let kept = distinct_lines(lines.drop_last());
        if kept.contains(lines.last()) {
            kept
        } else {
            kept.push(lines.last())
        }
    }
}

/// The undo plan across setups: every source's undo steps, newest recorded
/// setup first and the current settings last, each step kept only the first
/// time its summary (which names the path or rule it acts on) comes up.
pub open spec fn spec_plan_undo_from(
    current: Option<SetupContext>,
    recorded: Seq<SetupContext>,
    managed: Seq<Seq<char>>,
) -> PlanV {
    let ctxs = undo_sources(current, recorded);
    PlanV {
        steps: first_by_summary(undo_steps_of(ctxs, managed)),
        manual: distinct_lines(undo_notes_of(ctxs, managed)),
    }
}

pub open spec fn opt_ctx(o: Option<&SetupContext>) -> Option<SetupContext> {
    match o {
        Some(c) => Some(*c),
        None => None,
    }
}

/// Whether a step of `steps` has the summary `s`.
fn has_summary_in(steps: &Vec<Step>, s: &str) -> (r: bool)
    ensures
        r == has_summary(steps_v(steps@), s@),
{
    let mut i: usize = 0;
    while i < steps.len()
        invariant
            i <= steps@.len(),
            forall|k: int| 0 <= k < i ==> steps@[k].summary@ != s@,
        decreases steps.len() - i,
    {
        if str_eq(steps[i].summary.as_str(), s) {
            assert(steps_v(steps@)[i as int].summary == s@);
            return true;
        }
        i += 1;
    }
    assert forall|k: int| 0 <= k < steps_v(steps@).len() implies #[trigger] steps_v(steps@)[k].summary != s@ by {
        assert(steps_v(steps@)[k] == steps@[k]@);
    }
    false
}

/// Whether `lines` holds `s`.
fn has_line(lines: &Vec<String>, s: &str) -> (r: bool)
    ensures
        r == strs(lines@).contains(s@),
{
    let mut i: usize = 0;
    while i < lines.len()
        invariant
            i <= lines@.len(),
            forall|k: int| 0 <= k < i ==> lines@[k]@ != s@,
        decreases lines.len() - i,
    {
        if str_eq(lines[i].as_str(), s) {
            assert(strs(lines@)[i as int] == s@);
            return true;
        }
        i += 1;
    }
    assert forall|k: int| 0 <= k < strs(lines@).len() implies strs(lines@)[k] != s@ by {
        assert(strs(lines@)[k] == lines@[k]@);
    }
    false
}

/// Taking the first step off a vector whose steps are `ps[k..]`.
proof fn lemma_take_step(before: Seq<Step>, after: Seq<Step>, s: Step, ps: Seq<StepV>, k: int)
    requires
        before.len() > 0,
        0 <= k <= ps.len(),
        steps_v(before) == ps.subrange(k, ps.len() as int),
        s == before[0],
        after == before.remove(0),
    ensures
        k < ps.len(),
        s@ == ps[k],
        steps_v(after) == ps.subrange(k + 1, ps.len() as int),
{
    assert(steps_v(before).len() == before.len());
    assert(ps.subrange(k, ps.len() as int).len() == ps.len() - k);
    assert(steps_v(before)[0] == before[0]@);
    assert(ps.subrange(k, ps.len() as int)[0] == ps[k]);
    assert forall|x: int| 0 <= x < after.len() implies #[trigger] steps_v(after)[x] == ps.subrange(k + 1, ps.len() as int)[x] by {
        assert(after[x] == before[x + 1]);
        assert(steps_v(before)[x + 1] == before[x + 1]@);
        assert(ps.subrange(k, ps.len() as int)[x + 1] == ps[k + 1 + x]);
    }
    assert(steps_v(after) =~= ps.subrange(k + 1, ps.len() as int));
}

/// Taking the first line off a vector whose lines are `pm[n..]`.
proof fn lemma_take_line(before: Seq<String>, after: Seq<String>, m: String, pm: Seq<Seq<char>>, n: int)
    requires
        before.len() > 0,
        0 <= n <= pm.len(),
        strs(before) == pm.subrange(n, pm.len() as int),
        m == before[0],
        after == before.remove(0),
    ensures
        n < pm.len(),
        m@ == pm[n],
        strs(after) == pm.subrange(n + 1, pm.len() as int),
{
    assert(strs(before).len() == before.len());
    assert(pm.subrange(n, pm.len() as int).len() == pm.len() - n);
    assert(strs(before)[0] == before[0]@);
    assert(pm.subrange(n, pm.len() as int)[0] == pm[n]);
    assert forall|x: int| 0 <= x < after.len() implies #[trigger] strs(after)[x] == pm.subrange(n + 1, pm.len() as int)[x] by {
        assert(after[x] == before[x + 1]);
        assert(strs(before)[x + 1] == before[x + 1]@);
        assert(pm.subrange(n, pm.len() as int)[x + 1] == pm[n + 1 + x]);
    }
    assert(strs(after) =~= pm.subrange(n + 1, pm.len() as int));
}

/// Add the undo plan of `ctx` to `plan`, leaving out every step whose
/// summary `plan` already has and every note it already holds.
fn absorb_undo(
    plan: &mut Plan,
    ctx: &SetupContext,
    managed: &Vec<String>,
    Ghost(seen_steps): Ghost<Seq<StepV>>,
    Ghost(seen_notes): Ghost<Seq<Seq<char>>>,
)
    requires
        old(plan)@.steps == first_by_summary(seen_steps),
        old(plan)@.manual == distinct_lines(seen_notes),
    ensures
        final(plan)@.steps == first_by_summary(seen_steps + spec_plan_undo(*ctx, strs(managed@)).steps),
        final(plan)@.manual == distinct_lines(seen_notes + spec_plan_undo(*ctx, strs(managed@)).manual),
{
    let part = plan_undo(ctx, managed);
    let ghost ps = part@.steps;
    let ghost pm = part@.manual;
    let mut steps = part.steps;
    let mut notes = part.manual;
    let ghost mut k: int = 0;
    while steps.len() > 0
        invariant
            0 <= k <= ps.len(),
            steps_v(steps@) == ps.subrange(k, ps.len() as int),
            plan@.steps == first_by_summary(seen_steps + ps.subrange(0, k)),
            plan@.manual == distinct_lines(seen_notes),
        decreases steps@.len(),
    {
        let ghost before = steps@;
        let s = steps.remove(0);
        proof { lemma_take_step(before, steps@, s, ps, k); }
        let ghost all = seen_steps + ps.subrange(0, k + 1);
        assert(all.drop_last() =~= seen_steps + ps.subrange(0, k));
        assert(all.last() == s@);
        if !has_summary_in(&plan.steps, s.summary.as_str()) {
            push_step(plan, s);
        }
        proof { k = k + 1; }
    }
    assert(ps.subrange(0, k) =~= ps);
    let ghost mut n: int = 0;
    while notes.len() > 0
        invariant
            0 <= n <= pm.len(),
            strs(notes@) == pm.subrange(n, pm.len() as int),
            plan@.steps == first_by_summary(seen_steps + ps),
            plan@.manual == distinct_lines(seen_notes + pm.subrange(0, n)),
        decreases notes@.len(),
    {
        let ghost before = notes@;
        let m = notes.remove(0);
        proof { lemma_take_line(before, notes@, m, pm, n); }
        let ghost all = seen_notes + pm.subrange(0, n + 1);
        assert(all.drop_last() =~= seen_notes + pm.subrange(0, n));
        assert(all.last() == m@);
        if !has_line(&plan.manual, m.as_str()) {
            let ghost mb = plan.manual@;
            plan.manual.push(m);
            assert(strs(plan.manual@) =~= strs(mb).push(all.last()));
        }
        proof { n = n + 1; }
    }
    assert(pm.subrange(0, n) =~= pm);
}

/// The undo plan across every recorded setup and the current settings.
///
/// `recorded` is oldest first; each setup's steps are taken newest first,
/// then those of `current` when there is one, and a step whose summary an
/// earlier one already has is left out. `managed` lists the files carrying
/// pitchfork's header found in the resolver directory.
pub fn plan_undo_from(current: Option<&SetupContext>, recorded: &[SetupContext], managed: &Vec<String>) -> (p: Plan)
    ensures
        p@ == spec_plan_undo_from(opt_ctx(current), recorded@, strs(managed@)),
{
    let ghost m = strs(managed@);
    let ghost rev = undo_sources(None, recorded@);
    let mut plan = Plan { steps: Vec::new(), manual: Vec::new() };
    assert(plan@.steps =~= first_by_summary(Seq::empty()));
    assert(plan@.manual =~= distinct_lines(Seq::empty()));
    let n = recorded.len();
    let mut i: usize = 0;
    while i < n
        invariant
            n == recorded@.len(),
            rev == undo_sources(None, recorded@),
            m == strs(managed@),
            i <= n,
            plan@.steps == first_by_summary(undo_steps_of(rev.subrange(0, i as int), m)),
            plan@.manual == distinct_lines(undo_notes_of(rev.subrange(0, i as int), m)),
        decreases n - i,
    {
        let ctx = &recorded[n - 1 - i];
        assert(rev[i as int] == *ctx);
        absorb_undo(
            &mut plan,
            ctx,
            managed,
            Ghost(undo_steps_of(rev.subrange(0, i as int), m)),
            Ghost(undo_notes_of(rev.subrange(0, i as int), m)),
        );
        assert(rev.subrange(0, i + 1).drop_last() =~= rev.subrange(0, i as int));
        i += 1;
    }
    assert(rev.subrange(0, n as int) =~= rev);
    match current {
        Some(c) => {
            let ghost all = undo_sources(opt_ctx(current), recorded@);
            absorb_undo(&mut plan, c, managed, Ghost(undo_steps_of(rev, m)), Ghost(undo_notes_of(rev, m)));
            assert(all.drop_last() =~= rev);
            assert(all.last() == *c);
        },
        None => {
            assert(undo_sources(opt_ctx(current), recorded@) =~= rev);
        },
    }
    plan
}

/// What [`first_by_summary`] keeps: steps of `steps`, no two with one
/// summary, and one for every summary `steps` has.
pub proof fn lemma_first_by_summary(steps: Seq<StepV>)
    ensures
        forall|i: int, j: int|
            0 <= i < j < first_by_summary(steps).len() ==> first_by_summary(steps)[i].summary
                != first_by_summary(steps)[j].summary,
        forall|k: int| 0 <= k < steps.len() ==> has_summary(first_by_summary(steps), #[trigger] steps[k].summary),
        forall|i: int| 0 <= i < first_by_summary(steps).len() ==> steps.contains(#[trigger] first_by_summary(steps)[i]),
    decreases steps.len(),
{
    if steps.len() > 0 {
        let rest = steps.drop_last();
        lemma_first_by_summary(rest);
        let kept = first_by_summary(rest);
        let out = first_by_summary(steps);
        assert forall|k: int| 0 <= k < steps.len() implies has_summary(out, #[trigger] steps[k].summary) by {
            if k < steps.len() - 1 {
                assert(rest[k] == steps[k]);
                assert(has_summary(kept, rest[k].summary));
                let w = choose|w: int| 0 <= w < kept.len() && #[trigger] kept[w].summary == rest[k].summary;
                assert(out[w] == kept[w]);
            } else if !has_summary(kept, steps.last().summary) {
                assert(out[kept.len() as int] == steps.last());
            }
        }
        assert forall|i: int| 0 <= i < out.len() implies steps.contains(#[trigger] out[i]) by {
            if i < kept.len() {
                assert(out[i] == kept[i]);
                assert(rest.contains(kept[i]));
                let w = choose|w: int| 0 <= w < rest.len() && rest[w] == kept[i];
                assert(steps[w] == rest[w]);
            } else {
                assert(steps[steps.len() - 1] == out[i]);
            }
        }
    }
}

/// Law: the undo plan across setups never lists two steps with one summary,
/// and every step any of its sources would undo is represented by a step
/// with that summary.
pub proof fn law_undo_from_once_per_summary(
    current: Option<SetupContext>,
    recorded: Seq<SetupContext>,
    managed: Seq<Seq<char>>,
)
    ensures
        forall|i: int, j: int|
            0 <= i < j < spec_plan_undo_from(current, recorded, managed).steps.len() ==> spec_plan_undo_from(
                current,
                recorded,
                managed,
            ).steps[i].summary != spec_plan_undo_from(current, recorded, managed).steps[j].summary,
        forall|k: int|
            0 <= k < undo_steps_of(undo_sources(current, recorded), managed).len() ==> has_summary(
                spec_plan_undo_from(current, recorded, managed).steps,
                #[trigger] undo_steps_of(undo_sources(current, recorded), managed)[k].summary,
            ),
{
    lemma_first_by_summary(undo_steps_of(undo_sources(current, recorded), managed));
}

// ─── re-running setup ───────────────────────────────────────────────────────

/// Whether some step in `steps` acts on `r`.
pub open spec fn has_resource(steps: Seq<StepV>, r: ResourceV) -> bool {
    exists|i: int| 0 <= i < steps.len() && #[trigger] steps[i].resource == Some(r)
}

/// Of the undo steps `steps`, those that act on a resource `wanted` does not,
/// each resource taken once, at its first step.
pub open spec fn superseded(steps: Seq<StepV>, wanted: Seq<StepV>) -> Seq<StepV>
    decreases steps.len(),
{
    if steps.len() == 0 {
        Seq::empty()
    } else {
        let kept = superseded(steps.drop_last(), wanted);
        match steps.last().resource {
            Some(r) => if has_resource(wanted, r) || has_resource(kept, r) {
                kept
            } else {
                kept.push(steps.last())
            },
            None => kept,
        }
    }
}

/// The setup plan for `c`, preceded by the removal of every resource a
/// recorded setup installed that this one does not want.
pub open spec fn spec_plan_with_reconcile(c: SetupContext, recorded: Seq<SetupContext>, managed: Seq<Seq<char>>) -> PlanV {
    let forward = spec_plan(c);
    PlanV {
        steps: superseded(undo_steps_of(recorded, managed), forward.steps) + forward.steps,
        manual: forward.manual,
    }
}

/// Whether two resources are the same.
pub fn resource_eq(a: &Resource, b: &Resource) -> (r: bool)
    ensures
        r == (a@ == b@),
{
    match (a, b) {
        (Resource::File(x), Resource::File(y)) => str_eq(x.as_str(), y.as_str()),
        (Resource::Block(x), Resource::Block(y)) => str_eq(x.as_str(), y.as_str()),
        (Resource::Redirect { from: f1, to: t1 }, Resource::Redirect { from: f2, to: t2 }) => *f1 == *f2 && *t1 == *t2,
        (Resource::BindCapability(x), Resource::BindCapability(y)) => str_eq(x.as_str(), y.as_str()),
        (Resource::TrustedCa(x), Resource::TrustedCa(y)) => str_eq(x.as_str(), y.as_str()),
        (Resource::AutoProxy { service: s1, url: u1 }, Resource::AutoProxy { service: s2, url: u2 }) => {
            str_eq(s1.as_str(), s2.as_str()) && str_eq(u1.as_str(), u2.as_str())
        },
        (Resource::ServiceReload(x), Resource::ServiceReload(y)) => str_eq(x.as_str(), y.as_str()),
        _ => false,
    }
}

/// Whether a step of `steps` acts on `r`.
fn has_resource_in(steps: &Vec<Step>, r: &Resource) -> (b: bool)
    ensures
        b == has_resource(steps_v(steps@), r@),
{
    let mut i: usize = 0;
    while i < steps.len()
        invariant
            i <= steps@.len(),
            forall|k: int| 0 <= k < i ==> crate::setup::model::opt_resource(steps@[k].resource) != Some(r@),
        decreases steps.len() - i,
    {
        if let Some(x) = &steps[i].resource {
            if resource_eq(x, r) {
                assert(steps_v(steps@)[i as int] == steps@[i as int]@);
                assert(steps_v(steps@)[i as int].resource == Some(r@));
                return true;
            }
        }
        i += 1;
    }
    assert forall|k: int| 0 <= k < steps_v(steps@).len() implies #[trigger] steps_v(steps@)[k].resource != Some(r@) by {
        assert(steps_v(steps@)[k] == steps@[k]@);
    }
    false
}

/// What [`superseded`] keeps: steps of `steps`, each acting on a resource
/// that `wanted` does not act on, no two on the same resource.
pub proof fn lemma_superseded(steps: Seq<StepV>, wanted: Seq<StepV>)
    ensures
        forall|i: int|
            0 <= i < superseded(steps, wanted).len() ==> {
                let s = #[trigger] superseded(steps, wanted)[i];
                &&& steps.contains(s)
                &&& s.resource is Some
                &&& !has_resource(wanted, s.resource->0)
            },
        forall|i: int, j: int|
            0 <= i < j < superseded(steps, wanted).len() ==> superseded(steps, wanted)[i].resource
                != superseded(steps, wanted)[j].resource,
    decreases steps.len(),
{
    if steps.len() > 0 {
        let rest = steps.drop_last();
        lemma_superseded(rest, wanted);
        let kept = superseded(rest, wanted);
        let out = superseded(steps, wanted);
        assert forall|i: int| 0 <= i < out.len() implies steps.contains(#[trigger] out[i]) by {
            if i < kept.len() {
                assert(out[i] == kept[i]);
                let w = choose|w: int| 0 <= w < rest.len() && rest[w] == kept[i];
                assert(steps[w] == rest[w]);
            } else {
                assert(steps[steps.len() - 1] == out[i]);
            }
        }
        assert forall|i: int, j: int| 0 <= i < j < out.len() implies out[i].resource != out[j].resource by {
            if j >= kept.len() {
                assert(out[i] == kept[i]);
                if out[i].resource == out[j].resource {
                    assert(kept[i].resource == Some(steps.last().resource->0));
                    assert(has_resource(kept, steps.last().resource->0));
                }
            } else {
                assert(out[i] == kept[i]);
                assert(out[j] == kept[j]);
            }
        }
    }
}

/// Law: a re-run of setup never removes a resource its own plan wants (so it
/// cannot untrust the CA it still needs), removes each other resource at
/// most once, and ends with its own plan, unchanged.
pub proof fn law_reconcile_spares_what_it_wants(c: SetupContext, recorded: Seq<SetupContext>, managed: Seq<Seq<char>>)
    ensures
        ({
            let p = spec_plan_with_reconcile(c, recorded, managed);
            let fwd = spec_plan(c);
            let n = p.steps.len() - fwd.steps.len();
            &&& n >= 0
            &&& p.steps.subrange(n, p.steps.len() as int) == fwd.steps
            &&& p.manual == fwd.manual
            &&& forall|i: int|
                0 <= i < n ==> {
                    let s = #[trigger] p.steps[i];
                    &&& undo_steps_of(recorded, managed).contains(s)
                    &&& s.resource is Some
                    &&& !has_resource(fwd.steps, s.resource->0)
                }
            &&& forall|i: int, j: int| 0 <= i < j < n ==> p.steps[i].resource != p.steps[j].resource
        }),
{
    let p = spec_plan_with_reconcile(c, recorded, managed);
    let fwd = spec_plan(c);
    let kept = superseded(undo_steps_of(recorded, managed), fwd.steps);
    lemma_superseded(undo_steps_of(recorded, managed), fwd.steps);
    assert(p.steps.subrange(kept.len() as int, p.steps.len() as int) =~= fwd.steps);
    assert forall|i: int| 0 <= i < kept.len() implies #[trigger] p.steps[i] == kept[i] by {}
}

/// The setup plan, preceded by removal of anything a recorded setup
/// installed that this one supersedes.
///
/// Changing `proxy.port` and running setup again would otherwise leave the
/// old redirect beside the new one. Undo steps are matched by the resource
/// they act on: one this plan wants is kept, each other one is removed
/// once, and a step that acts on nothing durable is dropped.
pub fn plan_with_reconcile(ctx: &SetupContext, recorded: &[SetupContext], managed: &Vec<String>) -> (p: Plan)
    ensures
        p@ == spec_plan_with_reconcile(*ctx, recorded@, strs(managed@)),
{
    let ghost m = strs(managed@);
    let forward = plan(ctx);
    let ghost wanted = forward@.steps;
    let mut reconciled = Plan { steps: Vec::new(), manual: Vec::new() };
    assert(reconciled@.steps =~= superseded(Seq::empty(), wanted));
    let n = recorded.len();
    let mut i: usize = 0;
    while i < n
        invariant
            n == recorded@.len(),
            m == strs(managed@),
            wanted == forward@.steps,
            wanted == spec_plan(*ctx).steps,
            i <= n,
            reconciled@.steps == superseded(undo_steps_of(recorded@.subrange(0, i as int), m), wanted),
        decreases n - i,
    {
        let old = &recorded[i];
        let ghost prefix = undo_steps_of(recorded@.subrange(0, i as int), m);
        let part = plan_undo(old, managed);
        let ghost ps = part@.steps;
        let mut steps = part.steps;
        let ghost mut k: int = 0;
        while steps.len() > 0
            invariant
                0 <= k <= ps.len(),
                steps_v(steps@) == ps.subrange(k, ps.len() as int),
                wanted == forward@.steps,
                reconciled@.steps == superseded(prefix + ps.subrange(0, k), wanted),
            decreases steps@.len(),
        {
            let ghost before = steps@;
            let s = steps.remove(0);
            proof { lemma_take_step(before, steps@, s, ps, k); }
            let ghost all = prefix + ps.subrange(0, k + 1);
            assert(all.drop_last() =~= prefix + ps.subrange(0, k));
            assert(all.last() == s@);
            let keep = match &s.resource {
                Some(r) => !has_resource_in(&forward.steps, r) && !has_resource_in(&reconciled.steps, r),
                None => false,
            };
            if keep {
                let ghost rb = reconciled.steps@;
                reconciled.steps.push(s);
                assert(steps_v(reconciled.steps@) =~= steps_v(rb).push(all.last()));
            }
            proof { k = k + 1; }
        }
        assert(ps.subrange(0, k) =~= ps);
        assert(recorded@.subrange(0, i + 1).drop_last() =~= recorded@.subrange(0, i as int));
        i += 1;
    }
    assert(recorded@.subrange(0, n as int) =~= recorded@);
    let ghost kept = reconciled.steps@;
    let mut fwd = forward.steps;
    reconciled.steps.append(&mut fwd);
    assert(steps_v(reconciled.steps@) =~= steps_v(kept) + wanted);
    reconciled.manual = forward.manual;
    reconciled
}

} // verus!
