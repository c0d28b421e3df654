//! Small constructors the planner is written with.

use vstd::prelude::*;
use crate::setup::model::{note_v, path_join, spec_pac_url, steps_v, strs, Action, Plan, PlanV, Step, StepV};
use crate::text::{chars_of, dec, dec_string, push_char};

verus! {

pub proof fn lemma_plus_assoc(a: PlanV, b: PlanV, c: PlanV)
    ensures
        a.plus(b).plus(c) == a.plus(b.plus(c)),
{
    assert(a.plus(b).plus(c).steps =~= a.plus(b.plus(c)).steps);
    assert(a.plus(b).plus(c).manual =~= a.plus(b.plus(c)).manual);
}

pub proof fn lemma_plus_empty(a: PlanV)
    ensures
        a.plus(PlanV::empty()) == a,
        PlanV::empty().plus(a) == a,
{
    assert(a.plus(PlanV::empty()).steps =~= a.steps);
    assert(a.plus(PlanV::empty()).manual =~= a.manual);
    assert(PlanV::empty().plus(a).steps =~= a.steps);
    assert(PlanV::empty().plus(a).manual =~= a.manual);
}

/// Add a step at the end of `plan`.
pub fn push_step(plan: &mut Plan, s: Step)
    ensures
        final(plan)@ == old(plan)@.plus(PlanV::step(s@)),
{
    let ghost before = plan.steps@;
    plan.steps.push(s);
    assert(steps_v(plan.steps@) =~= steps_v(before) + seq![s@]);
    assert(final(plan)@.manual =~= old(plan)@.manual + Seq::<Seq<char>>::empty()) by {
        assert(plan.manual@ == old(plan).manual@);
    }
}

/// Add a line of advice at the end of `plan`.
pub fn push_manual(plan: &mut Plan, m: String)
    ensures
        final(plan)@ == old(plan)@.plus(PlanV::advice(m@)),
{
    let ghost before = plan.manual@;
    plan.manual.push(m);
    assert(strs(plan.manual@) =~= strs(before) + seq![m@]);
    assert(steps_v(plan.steps@) =~= steps_v(old(plan).steps@) + Seq::<StepV>::empty());
}

/// A note step.
pub fn note(summary: String) -> (s: Step)
    ensures
        s@ == note_v(summary@),
{
    Step { summary, action: Action::Note, resource: None }
}

pub fn str1(a: &str) -> (v: Vec<String>)
    ensures
        strs(v@) == seq![a@],
{
    let mut v: Vec<String> = Vec::new();
    v.push(a.to_owned());
    assert(strs(v@) =~= seq![a@]);
    v
}

pub fn str3(a: &str, b: &str, c: &str) -> (v: Vec<String>)
    ensures
        strs(v@) == seq![a@, b@, c@],
{
    let mut v: Vec<String> = Vec::new();
    v.push(a.to_owned());
    v.push(b.to_owned());
    v.push(c.to_owned());
    assert(strs(v@) =~= seq![a@, b@, c@]);
    v
}

pub fn str4(a: &str, b: &str, c: &str, d: &str) -> (v: Vec<String>)
    ensures
        strs(v@) == seq![a@, b@, c@, d@],
{
    let mut v: Vec<String> = Vec::new();
    v.push(a.to_owned());
    v.push(b.to_owned());
    v.push(c.to_owned());
    v.push(d.to_owned());
    assert(strs(v@) =~= seq![a@, b@, c@, d@]);
    v
}

pub fn str5(a: &str, b: &str, c: &str, d: &str, e: &str) -> (v: Vec<String>)
    ensures
        strs(v@) == seq![a@, b@, c@, d@, e@],
{
    let mut v: Vec<String> = Vec::new();
    v.push(a.to_owned());
    v.push(b.to_owned());
    v.push(c.to_owned());
    v.push(d.to_owned());
    v.push(e.to_owned());
    assert(strs(v@) =~= seq![a@, b@, c@, d@, e@]);
    v
}

/// The decimal spelling of a port.
pub fn port_text(p: u16) -> (s: String)
    ensures
        s@ == dec(p as nat),
{
    dec_string(p as u64)
}

/// [`path_join`] in executable form.
pub fn join_path(dir: &str, name: &str) -> (r: String)
    ensures
        r@ == path_join(dir@, name@),
{
    let n = chars_of(name);
    let d = chars_of(dir);
    if n.len() > 0 && n[0] == '/' {
        return name.to_owned();
    }
    if d.len() == 0 {
        return name.to_owned();
    }
    let mut r = dir.to_owned();
    if d[d.len() - 1] != '/' {
        r.append("/");
    }
    r.append(name);
    r
}

/// The URL of the PAC script at `host:port`.
pub fn pac_url_for(host: &str, port: u16) -> (u: String)
    ensures
        u@ == spec_pac_url(host@, port),
{
    let mut u = String::from_str("http://");
    u.append(host);
    u.append(":");
    u.append(port_text(port).as_str());
    u.append("/proxy.pac");
    u
}

} // verus!
