//! The driver's plan: which phases a test type runs, per payload size and
//! in what order. The surrounding binary executes the plan; concurrent
//! steps it starts together and joins.

use crate::config::TestType;
use vstd::prelude::*;

verus! {

/// One step of a test run.
#[derive(Debug, Clone, Copy, PartialEq, Eq, Structural)]
pub enum PhaseStep {
    /// One latency pass over the full duration.
    Latency,
    /// A download pass at the given payload size.
    Download(usize),
    /// An upload pass at the given payload size.
    Upload(usize),
    /// A download and an upload pass at the given payload size, started
    /// concurrently and joined.
    Simultaneous(usize),
}

/// The steps a test type implies for one payload size.
pub open spec fn spec_steps_for_size(t: TestType, size: usize) -> Seq<PhaseStep> {
    match t {
        TestType::LatencyOnly => Seq::empty(),
        TestType::Download => seq![PhaseStep::Download(size)],
        TestType::Upload => seq![PhaseStep::Upload(size)],
        TestType::Bidirectional => seq![PhaseStep::Download(size), PhaseStep::Upload(size)],
        TestType::Simultaneous => seq![PhaseStep::Simultaneous(size)],
    }
}

/// The full plan: the sizes' steps in the sizes' order, or one latency
/// pass.
pub open spec fn spec_phase_plan(t: TestType, sizes: Seq<usize>) -> Seq<PhaseStep>
    decreases sizes.len(),
{
    if t == TestType::LatencyOnly {
        seq![PhaseStep::Latency]
    } else if sizes.len() == 0 {
        Seq::empty()
    } else {
        spec_phase_plan(t, sizes.drop_last()) + spec_steps_for_size(t, sizes.last())
    }
}

/// The ordered list of phases that one test runs: one latency pass for a
/// latency-only test; otherwise, for each payload size in the configured
/// order, the passes its test type implies — download, upload, both in
/// turn, or both concurrently.
pub fn phase_plan(t: TestType, sizes: &Vec<usize>) -> (plan: Vec<PhaseStep>)
    ensures
        plan@ == spec_phase_plan(t, sizes@),
{
    let mut plan: Vec<PhaseStep> = Vec::new();
    if matches!(t, TestType::LatencyOnly) {
        plan.push(PhaseStep::Latency);
        proof {
            assert(plan@ =~= spec_phase_plan(t, sizes@));
        }
        return plan;
    }
    let ghost s = sizes@;
    let mut i: usize = 0;
    proof {
        assert(s.take(0) =~= Seq::<usize>::empty());
    }
    while i < sizes.len()
        invariant
            i <= s.len(),
            sizes@ == s,
            t != TestType::LatencyOnly,
            plan@ == spec_phase_plan(t, s.take(i as int)),
        decreases s.len() - i,
    {
        proof {
            assert(s.take(i as int + 1).drop_last() =~= s.take(i as int));
            assert(s.take(i as int + 1).last() == s[i as int]);
        }
        let size = sizes[i];
        match t {
            TestType::Download => {
                plan.push(PhaseStep::Download(size));
            },
            TestType::Upload => {
                plan.push(PhaseStep::Upload(size));
            },
            TestType::Bidirectional => {
                plan.push(PhaseStep::Download(size));
                plan.push(PhaseStep::Upload(size));
            },
            TestType::Simultaneous => {
                plan.push(PhaseStep::Simultaneous(size));
            },
            TestType::LatencyOnly => {},
        }
        proof {
            assert(plan@ =~= spec_phase_plan(t, s.take(i as int + 1)));
        }
        i = i + 1;
    }
    proof {
        assert(s.take(s.len() as int) =~= s);
    }
    plan
}

/// The download passes of a plan appear once per size, in the sizes'
/// order; so do the upload passes of a bidirectional run.
pub proof fn lemma_plan_download_order(sizes: Seq<usize>)
    ensures
        spec_download_sizes(spec_phase_plan(TestType::Bidirectional, sizes)) == sizes,
        spec_download_sizes(spec_phase_plan(TestType::Download, sizes)) == sizes,
    decreases sizes.len(),
{
    if sizes.len() == 0 {
        assert(spec_download_sizes(Seq::empty()) =~= sizes);
    } else {
        lemma_plan_download_order(sizes.drop_last());
        let b = spec_phase_plan(TestType::Bidirectional, sizes);
        let bp = spec_phase_plan(TestType::Bidirectional, sizes.drop_last());
        let b1 = bp.push(PhaseStep::Download(sizes.last()));
        let b2 = b1.push(PhaseStep::Upload(sizes.last()));
        assert(b =~= b2);
        assert(b2.drop_last() =~= b1);
        assert(spec_download_sizes(b2) == spec_download_sizes(b1));
        assert(b1.drop_last() =~= bp);
        assert(spec_download_sizes(b1) == spec_download_sizes(bp).push(sizes.last()));
        assert(spec_download_sizes(bp).push(sizes.last()) =~= sizes);
        let d = spec_phase_plan(TestType::Download, sizes);
        let dp = spec_phase_plan(TestType::Download, sizes.drop_last());
        let d1 = dp.push(PhaseStep::Download(sizes.last()));
        assert(d =~= d1);
        assert(d1.drop_last() =~= dp);
        assert(spec_download_sizes(d1) == spec_download_sizes(dp).push(sizes.last()));
        assert(spec_download_sizes(dp).push(sizes.last()) =~= sizes);
    }
}

/// A simultaneous test runs exactly one step per payload size, holding
/// that size's download and upload passes; both therefore share one
/// phase's wall-clock window instead of taking one each.
pub proof fn lemma_simultaneous_plan(sizes: Seq<usize>)
    ensures
        spec_phase_plan(TestType::Simultaneous, sizes).len() == sizes.len(),
        forall|i: int|
            0 <= i < sizes.len() ==> spec_phase_plan(TestType::Simultaneous, sizes)[i]
                == PhaseStep::Simultaneous(sizes[i]),
    decreases sizes.len(),
{
    if sizes.len() > 0 {
        lemma_simultaneous_plan(sizes.drop_last());
        let p = spec_phase_plan(TestType::Simultaneous, sizes);
        let pp = spec_phase_plan(TestType::Simultaneous, sizes.drop_last());
        assert(p =~= pp.push(PhaseStep::Simultaneous(sizes.last())));
        assert forall|i: int|
            0 <= i < sizes.len() implies p[i] == PhaseStep::Simultaneous(sizes[i]) by {
            if i < sizes.len() - 1 {
                assert(p[i] == pp[i]);
                assert(sizes.drop_last()[i] == sizes[i]);
            }
        }
    }
}

/// The sizes of the download passes of a plan, in plan order.
pub open spec fn spec_download_sizes(plan: Seq<PhaseStep>) -> Seq<usize>
    decreases plan.len(),
{
    if plan.len() == 0 {
        Seq::empty()
    } else {
        let rest = spec_download_sizes(plan.drop_last());
        match plan.last() {
            PhaseStep::Download(s) => rest.push(s),
            _ => rest,
        }
    }
}

} // verus!
