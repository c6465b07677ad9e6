use btrust::session::{restore_options, Action, Mode, Recovery, RestoreOptions};

fn drive(r: &mut Recovery, outcomes: &[bool]) -> Vec<Action> {
    let mut seen = Vec::new();
    let mut next = outcomes.iter();
    loop {
        let a = r.action();
        seen.push(a);
        match a {
            Action::Finish | Action::Abort => break,
            Action::Restore(_) => {
                let ok = *next.next().unwrap();
                r.advance(ok);
            }
            _ => r.advance(true),
        }
    }
    seen
}

#[test]
fn failed_root_does_not_stop_the_others() {
    let mut r = Recovery::new(Mode::Recover, 1, vec![30, 20, 10]);
    let actions = drive(&mut r, &[true, false, true]);
    assert_eq!(
        actions,
        vec![
            Action::Restore(Some(30)),
            Action::RemoveEmpty,
            Action::Restore(Some(20)),
            Action::Restore(Some(10)),
            Action::RemoveEmpty,
            Action::RemoveEmpty,
            Action::Summarize,
            Action::Finish,
        ]
    );
    assert_eq!(r.failed, vec![20]);
}

#[test]
fn listing_goes_through_every_root() {
    let mut r = Recovery::new(Mode::List, 2, vec![9, 4]);
    let actions = drive(&mut r, &[false, true]);
    assert_eq!(actions, vec![Action::Restore(Some(9)), Action::Restore(Some(4)), Action::Finish]);
    assert_eq!(r.failed, vec![9]);
}

#[test]
fn depth_zero_restores_once_from_the_current_tree() {
    let mut r = Recovery::new(Mode::Recover, 0, vec![1, 2]);
    let actions = drive(&mut r, &[true]);
    assert_eq!(
        actions,
        vec![Action::Restore(None), Action::RemoveEmpty, Action::Summarize, Action::Finish]
    );
}

#[test]
fn depth_zero_failure_aborts() {
    let mut r = Recovery::new(Mode::DryRun, 0, vec![]);
    assert_eq!(drive(&mut r, &[false]), vec![Action::Restore(None), Action::Abort]);
}

#[test]
fn no_roots_is_reported_without_error() {
    let mut r = Recovery::new(Mode::Recover, 1, vec![]);
    assert_eq!(drive(&mut r, &[]), vec![Action::ReportNoRoots, Action::Finish]);
}

#[test]
fn options_follow_the_mode() {
    assert_eq!(
        restore_options(Mode::List, true),
        RestoreOptions { simulate: true, extended: false, select_all: true, into_output: false }
    );
    assert_eq!(
        restore_options(Mode::DryRun, false),
        RestoreOptions { simulate: true, extended: false, select_all: false, into_output: false }
    );
    assert_eq!(
        restore_options(Mode::Recover, true),
        RestoreOptions { simulate: false, extended: true, select_all: false, into_output: true }
    );
    assert_eq!(
        restore_options(Mode::Recover, false),
        RestoreOptions { simulate: false, extended: false, select_all: false, into_output: true }
    );
}
