use vstd::prelude::*;

verus! {

/// The steps of one generation run, in the order they are taken.
#[derive(PartialEq, Eq, Structural, Clone, Copy, Debug)]
pub enum Stage {
    WriteUmbrellaHeader,
    GenerateBindings,
    WriteBindings,
    RewriteBindings,
    WriteModuleStub,
    Finished,
    Aborted,
}

/// The stage that follows `s` once its work has succeeded or failed.
pub open spec fn next_stage(s: Stage, succeeded: bool) -> Stage {
    match s {
        Stage::Finished => Stage::Finished,
        Stage::Aborted => Stage::Aborted,
        _ => if !succeeded {
            Stage::Aborted
        } else {
            match s {
                Stage::WriteUmbrellaHeader => Stage::GenerateBindings,
                Stage::GenerateBindings => Stage::WriteBindings,
                Stage::WriteBindings => Stage::RewriteBindings,
                Stage::RewriteBindings => Stage::WriteModuleStub,
                _ => Stage::Finished,
            }
        },
    }
}

/// Decides the next stage from the current one and the outcome of its work.
pub fn advance(s: Stage, succeeded: bool) -> (r: Stage)
    ensures
        r == next_stage(s, succeeded),
{
    match s {
        Stage::Finished => Stage::Finished,
        Stage::Aborted => Stage::Aborted,
        _ => if !succeeded {
            Stage::Aborted
        } else {
            match s {
                Stage::WriteUmbrellaHeader => Stage::GenerateBindings,
                Stage::GenerateBindings => Stage::WriteBindings,
                Stage::WriteBindings => Stage::RewriteBindings,
                Stage::RewriteBindings => Stage::WriteModuleStub,
                _ => Stage::Finished,
            }
        },
    }
}

/// The stages passed through from `s` when the work of each stage turns out
/// as `outcomes` says, in order (`true` for success).
pub open spec fn trace(s: Stage, outcomes: Seq<bool>) -> Seq<Stage>
    decreases outcomes.len(),
{
    if outcomes.len() == 0 {
        seq![s]
    } else {
        seq![s] + trace(next_stage(s, outcomes[0]), outcomes.drop_first())
    }
}

/// Once aborted, a run stays aborted whatever follows.
pub proof fn lemma_aborted_is_final(outcomes: Seq<bool>)
    ensures
        trace(Stage::Aborted, outcomes).len() == outcomes.len() + 1,
        forall|k: int|
            0 <= k < outcomes.len() + 1 ==> #[trigger] trace(Stage::Aborted, outcomes)[k]
                == Stage::Aborted,
    decreases outcomes.len(),
{
    if outcomes.len() > 0 {
        lemma_aborted_is_final(outcomes.drop_first());
        let t = trace(Stage::Aborted, outcomes);
        assert forall|k: int| 0 <= k < outcomes.len() + 1 implies #[trigger] t[k]
            == Stage::Aborted by {
            if k > 0 {
                assert(t[k] == trace(Stage::Aborted, outcomes.drop_first())[k - 1]);
            }
        }
    }
}

/// When the umbrella header cannot be written, the run aborts before the
/// generator is called, and the bindings file is never written.
pub proof fn lemma_header_failure_stops_generation(outcomes: Seq<bool>)
    requires
        outcomes.len() > 0,
        !outcomes[0],
    ensures
        trace(Stage::WriteUmbrellaHeader, outcomes).last() == Stage::Aborted,
        forall|k: int|
            0 <= k < trace(Stage::WriteUmbrellaHeader, outcomes).len() ==> {
                let s = #[trigger] trace(Stage::WriteUmbrellaHeader, outcomes)[k];
                s != Stage::GenerateBindings && s != Stage::WriteBindings
            },
{
    let rest = outcomes.drop_first();
    lemma_aborted_is_final(rest);
    let t = trace(Stage::WriteUmbrellaHeader, outcomes);
    assert(t == seq![Stage::WriteUmbrellaHeader] + trace(Stage::Aborted, rest));
    assert(t.last() == trace(Stage::Aborted, rest)[rest.len() as int]);
    assert forall|k: int| 0 <= k < t.len() implies #[trigger] t[k] != Stage::GenerateBindings
        && t[k] != Stage::WriteBindings by {
        if k > 0 {
            assert(t[k] == trace(Stage::Aborted, rest)[k - 1]);
        }
    }
}

/// When every step succeeds, the five steps run once each, in order, and the
/// run finishes.
pub proof fn lemma_success_runs_in_order(outcomes: Seq<bool>)
    requires
        outcomes.len() == 5,
        forall|k: int| 0 <= k < 5 ==> #[trigger] outcomes[k],
    ensures
        trace(Stage::WriteUmbrellaHeader, outcomes) == seq![
            Stage::WriteUmbrellaHeader,
            Stage::GenerateBindings,
            Stage::WriteBindings,
            Stage::RewriteBindings,
            Stage::WriteModuleStub,
            Stage::Finished,
        ],
{
    let o1 = outcomes.drop_first();
    let o2 = o1.drop_first();
    let o3 = o2.drop_first();
    let o4 = o3.drop_first();
    let o5 = o4.drop_first();
    assert(outcomes[0] && o1[0] && o2[0] && o3[0] && o4[0]) by {
        assert(o1[0] == outcomes[1]);
        assert(o2[0] == outcomes[2]);
        assert(o3[0] == outcomes[3]);
        assert(o4[0] == outcomes[4]);
    }
    assert(trace(Stage::Finished, o5) == seq![Stage::Finished]);
    assert(trace(Stage::WriteModuleStub, o4) =~= seq![Stage::WriteModuleStub, Stage::Finished]);
    assert(trace(Stage::RewriteBindings, o3) =~= seq![
        Stage::RewriteBindings,
        Stage::WriteModuleStub,
        Stage::Finished,
    ]);
    assert(trace(Stage::WriteBindings, o2) =~= seq![
        Stage::WriteBindings,
        Stage::RewriteBindings,
        Stage::WriteModuleStub,
        Stage::Finished,
    ]);
    assert(trace(Stage::GenerateBindings, o1) =~= seq![
        Stage::GenerateBindings,
        Stage::WriteBindings,
        Stage::RewriteBindings,
        Stage::WriteModuleStub,
        Stage::Finished,
    ]);
    assert(trace(Stage::WriteUmbrellaHeader, outcomes) =~= seq![
        Stage::WriteUmbrellaHeader,
        Stage::GenerateBindings,
        Stage::WriteBindings,
        Stage::RewriteBindings,
        Stage::WriteModuleStub,
        Stage::Finished,
    ]);
}

} // verus!
