//! Merging the per-assignment injection decisions of one item into one
//! plan: each injected piece is gated by the assignments that want it, a
//! refusal under any assignment refuses the item (gated by where it
//! happens), and an item none of whose assignments parse reports the parse
//! error.

use vstd::prelude::*;
use crate::cfg_gate::{Gate, gate, gate_holds, full_mask, all_on, none_on};
use crate::inject::{Decision, FieldsToInject, InjectError};

verus! {

/// `g` is the cfg condition of a piece wanted in exactly the assignments where
/// `outcomes` holds.
pub open spec fn gate_for(g: Gate, n_bases: usize, outcomes: Seq<bool>) -> bool {
    &&& all_on(outcomes) ==> g is On
    &&& none_on(outcomes) ==> g is Off
    &&& !all_on(outcomes) && !none_on(outcomes) ==> g is Cfg
    &&& forall|x: u32| x <= full_mask(n_bases) ==> (gate_holds(g, x) <==> outcomes[x as int])
}

/// Field `k` of `f`, in injection order: traces, backtrace, spantrace,
/// timestamp, location.
pub open spec fn field_k(f: FieldsToInject, k: int) -> bool {
    if k == 0 {
        f.traces
    } else if k == 1 {
        f.backtrace
    } else if k == 2 {
        f.spantrace
    } else if k == 3 {
        f.timestamp
    } else {
        f.location
    }
}

/// Under which assignments field `k` is injected.
pub open spec fn wanted(injected: Seq<Option<FieldsToInject>>, k: int) -> Seq<bool> {
    Seq::new(
        injected.len(),
        |x: int|
            match injected[x] {
                Some(f) => field_k(f, k),
                None => false,
            },
    )
}

/// The cfg condition of each injectable field.
#[derive(Debug, Clone)]
pub struct InjectPlan {
    pub traces: Gate,
    pub backtrace: Gate,
    pub spantrace: Gate,
    pub timestamp: Gate,
    pub location: Gate,
}

pub open spec fn plan_gate(p: InjectPlan, k: int) -> Gate {
    if k == 0 {
        p.traces
    } else if k == 1 {
        p.backtrace
    } else if k == 2 {
        p.spantrace
    } else if k == 3 {
        p.timestamp
    } else {
        p.location
    }
}

/// `p` gates each field by the assignments that inject it.
pub open spec fn plan_for(p: InjectPlan, n_bases: usize, injected: Seq<Option<FieldsToInject>>) -> bool {
    forall|k: int| 0 <= k < 5 ==> gate_for(#[trigger] plan_gate(p, k), n_bases, wanted(injected, k))
}

fn outcomes_of(injected: &Vec<Option<FieldsToInject>>, k: usize) -> (r: Vec<bool>)
    requires
        k < 5,
    ensures
        r@ == wanted(injected@, k as int),
{
    let mut r: Vec<bool> = Vec::new();
    let mut x: usize = 0;
    while x < injected.len()
        invariant
            k < 5,
            x <= injected.len(),
            r@ == wanted(injected@, k as int).take(x as int),
        decreases injected.len() - x,
    {
        let v = match &injected[x] {
            Some(f) => if k == 0 {
                f.traces
            } else if k == 1 {
                f.backtrace
            } else if k == 2 {
                f.spantrace
            } else if k == 3 {
                f.timestamp
            } else {
                f.location
            },
            None => false,
        };
        r.push(v);
        x = x + 1;
        assert(r@ =~= wanted(injected@, k as int).take(x as int));
    }
    assert(r@ =~= wanted(injected@, k as int));
    r
}

impl InjectPlan {
    /// Gate each field by the assignments (indexed like `injected`) that
    /// inject it; `None` is an assignment that injects nothing.
    pub fn merge(n_bases: usize, injected: &Vec<Option<FieldsToInject>>) -> (r: InjectPlan)
        requires
            n_bases < 32,
            injected.len() == full_mask(n_bases) + 1,
        ensures
            plan_for(r, n_bases, injected@),
    {
        let o0 = outcomes_of(injected, 0);
        let o1 = outcomes_of(injected, 1);
        let o2 = outcomes_of(injected, 2);
        let o3 = outcomes_of(injected, 3);
        let o4 = outcomes_of(injected, 4);
        let r = InjectPlan {
            traces: gate(n_bases, o0.as_slice()),
            backtrace: gate(n_bases, o1.as_slice()),
            spantrace: gate(n_bases, o2.as_slice()),
            timestamp: gate(n_bases, o3.as_slice()),
            location: gate(n_bases, o4.as_slice()),
        };
        assert forall|k: int| 0 <= k < 5 implies gate_for(#[trigger] plan_gate(r, k), n_bases, wanted(injected@, k)) by {
            if k == 0 {
            } else if k == 1 {
            } else if k == 2 {
            } else if k == 3 {
            } else {
            }
        }
        r
    }

    /// Whether any field is injected under some assignment.
    pub fn any(&self) -> (r: bool)
        ensures
            r == !(self.traces is Off && self.backtrace is Off && self.spantrace is Off
                && self.timestamp is Off && self.location is Off),
    {
        !(self.traces.is_off() && self.backtrace.is_off() && self.spantrace.is_off()
            && self.timestamp.is_off() && self.location.is_off())
    }
}

/// Why an item gets no plan.
#[derive(Debug, Clone)]
pub enum PlanError {
    /// Some assignment refuses the item: the refusal of the first such
    /// assignment, and the cfg condition over every refusing assignment (the message
    /// names it unless it is unconditional).
    Refused(InjectError, Gate),
    /// No assignment's attributes parse: the first parse error.
    Unparsed(String),
}

/// The index of the first refusal in `ds[i..]`, or `ds.len()`.
pub open spec fn first_refusal(ds: Seq<Result<Decision, InjectError>>, i: int) -> int
    decreases ds.len() - i,
{
    if i < 0 || i >= ds.len() {
        ds.len() as int
    } else if ds[i] is Err {
        i
    } else {
        first_refusal(ds, i + 1)
    }
}

pub open spec fn refusals(ds: Seq<Result<Decision, InjectError>>) -> Seq<bool> {
    Seq::new(ds.len(), |x: int| ds[x] is Err)
}

pub open spec fn injected_of(ds: Seq<Result<Decision, InjectError>>) -> Seq<Option<FieldsToInject>> {
    Seq::new(
        ds.len(),
        |x: int|
            match ds[x] {
                Ok(Decision::Inject(f, _)) => Some(f),
                _ => None,
            },
    )
}

pub open spec fn auto_code_of(ds: Seq<Result<Decision, InjectError>>) -> Seq<bool> {
    Seq::new(
        ds.len(),
        |x: int|
            match ds[x] {
                Ok(Decision::Inject(_, a)) => a,
                _ => false,
            },
    )
}

pub open spec fn all_deferred(ds: Seq<Result<Decision, InjectError>>) -> bool {
    forall|x: int| 0 <= x < ds.len() ==> (#[trigger] ds[x] matches Ok(Decision::Deferred(_)))
}

proof fn lemma_first_refusal(ds: Seq<Result<Decision, InjectError>>, i: int)
    requires
        0 <= i <= ds.len(),
    ensures
        i <= first_refusal(ds, i) <= ds.len(),
        first_refusal(ds, i) < ds.len() ==> ds[first_refusal(ds, i)] is Err,
        forall|x: int| i <= x < first_refusal(ds, i) ==> !(#[trigger] ds[x] is Err),
    decreases ds.len() - i,
{
    if i < ds.len() && !(ds[i] is Err) {
        lemma_first_refusal(ds, i + 1);
    }
}

/// The plan for an item from its decision under each assignment (indexed
/// like the assignments of `n_bases` base predicates), and the cfg condition of its
/// generated error code.
pub fn plan_injection(n_bases: usize, decisions: &Vec<Result<Decision, InjectError>>) -> (r: Result<
    (InjectPlan, Gate),
    PlanError,
>)
    requires
        n_bases < 32,
        decisions.len() == full_mask(n_bases) + 1,
    ensures
        ({
            let ds = decisions@;
            let fr = first_refusal(ds, 0);
            if fr < ds.len() {
                r matches Err(PlanError::Refused(e, g)) && ds[fr] == Err::<Decision, InjectError>(e)
                    && gate_for(g, n_bases, refusals(ds))
            } else if all_deferred(ds) {
                r matches Err(PlanError::Unparsed(m)) && ds[0] == Ok::<Decision, InjectError>(
                    Decision::Deferred(m),
                )
            } else {
                r matches Ok((p, g)) && plan_for(p, n_bases, injected_of(ds)) && gate_for(
                    g,
                    n_bases,
                    auto_code_of(ds),
                )
            }
        }),
{
    let ghost ds = decisions@;
    proof {
        lemma_first_refusal(ds, 0);
    }
    let mut refused: Vec<bool> = Vec::new();
    let mut injected: Vec<Option<FieldsToInject>> = Vec::new();
    let mut auto: Vec<bool> = Vec::new();
    let mut first: Option<usize> = None;
    let mut deferred = true;
    let mut x: usize = 0;
    while x < decisions.len()
        invariant
            ds == decisions@,
            x <= decisions.len(),
            refused@ == refusals(ds).take(x as int),
            injected@ == injected_of(ds).take(x as int),
            auto@ == auto_code_of(ds).take(x as int),
            first_refusal(ds, 0) <= ds.len(),
            forall|y: int| 0 <= y < first_refusal(ds, 0) ==> !(#[trigger] ds[y] is Err),
            first_refusal(ds, 0) < ds.len() ==> ds[first_refusal(ds, 0)] is Err,
            match first {
                Some(k) => k == first_refusal(ds, 0) && k < x,
                None => first_refusal(ds, 0) >= x,
            },
            deferred <==> (forall|y: int| 0 <= y < x ==> (#[trigger] ds[y] matches Ok(Decision::Deferred(_)))),
        decreases decisions.len() - x,
    {
        match &decisions[x] {
            Err(_) => {
                refused.push(true);
                injected.push(None);
                auto.push(false);
                if first.is_none() {
                    first = Some(x);
                }
                deferred = false;
            },
            Ok(Decision::Inject(f, a)) => {
                refused.push(false);
                injected.push(Some(*f));
                auto.push(*a);
                deferred = false;
            },
            Ok(Decision::Deferred(_)) => {
                refused.push(false);
                injected.push(None);
                auto.push(false);
            },
        }
        x = x + 1;
        assert(refused@ =~= refusals(ds).take(x as int));
        assert(injected@ =~= injected_of(ds).take(x as int));
        assert(auto@ =~= auto_code_of(ds).take(x as int));
    }
    assert(refused@ =~= refusals(ds));
    assert(injected@ =~= injected_of(ds));
    assert(auto@ =~= auto_code_of(ds));
    if let Some(k) = first {
        let e = match &decisions[k] {
            Err(e) => *e,
            Ok(_) => {
                assert(false);
                return Err(PlanError::Unparsed(String::new()));
            },
        };
        let g = gate(n_bases, refused.as_slice());
        return Err(PlanError::Refused(e, g));
    }
    if deferred {
        assert(ds[0] matches Ok(Decision::Deferred(_)));
        match &decisions[0] {
            Ok(Decision::Deferred(m)) => {
                return Err(PlanError::Unparsed(m.clone()));
            },
            _ => {
                assert(false);
            },
        }
    }
    let plan = InjectPlan::merge(n_bases, &injected);
    let g = gate(n_bases, auto.as_slice());
    Ok((plan, g))
}

} // verus!
