use mbedtls_sys_build::pipeline::{advance, Stage};

fn run(outcomes: &[bool]) -> Vec<Stage> {
    let mut s = Stage::WriteUmbrellaHeader;
    let mut seen = vec![s];
    for &ok in outcomes {
        s = advance(s, ok);
        seen.push(s);
    }
    seen
}

#[test]
fn all_steps_in_order() {
    assert_eq!(
        run(&[true, true, true, true, true]),
        vec![
            Stage::WriteUmbrellaHeader,
            Stage::GenerateBindings,
            Stage::WriteBindings,
            Stage::RewriteBindings,
            Stage::WriteModuleStub,
            Stage::Finished,
        ]
    );
}

#[test]
fn unwritable_output_stops_before_generation() {
    let seen = run(&[false, true, true, true, true]);
    assert!(!seen.contains(&Stage::GenerateBindings));
    assert!(!seen.contains(&Stage::WriteBindings));
    assert_eq!(*seen.last().unwrap(), Stage::Aborted);
}

#[test]
fn generator_failure_aborts() {
    assert_eq!(
        run(&[true, false]),
        vec![Stage::WriteUmbrellaHeader, Stage::GenerateBindings, Stage::Aborted]
    );
}

#[test]
fn final_stages_stay() {
    assert_eq!(advance(Stage::Finished, false), Stage::Finished);
    assert_eq!(advance(Stage::Aborted, true), Stage::Aborted);
}
