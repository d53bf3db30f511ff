use cloudkitty_core::action::Action;
use cloudkitty_core::meow::MessageKind;
use cloudkitty_core::seam::{Decision, JointProposal, Provenance};

#[test]
fn the_legacy_mapping_rides_the_channel() {
    // from_legacy lifts the turn-spending meow onto the two-channel
    // shape -- the message rides, the turn is idle -- and leaves
    // everything else silent.
    let d = Decision::from_legacy(Action::Meow {
        message: MessageKind::WantPlay,
    });
    assert_eq!(
        (d.activity, d.message),
        (Action::Idle, Some(MessageKind::WantPlay))
    );
    assert_eq!(
        Decision::from_legacy(Action::Eat),
        Decision::silent(Action::Eat)
    );
    // A bare activity converts silently -- the typed-driver promise.
    assert_eq!(Decision::from(Action::Eat).message, None);
}

#[test]
fn proposal_ids_list_each_kitty_once_ascending() {
    let mut joint = JointProposal::new();
    joint.propose(5, Decision::silent(Action::Eat));
    joint.propose(2, Decision::silent(Action::Idle));
    joint.propose_malformed(9);
    joint.propose(5, Decision::silent(Action::Drink));
    assert_eq!(joint.ids(), vec![2, 5, 9]);
    assert_eq!(joint.len(), 3);
}

#[test]
fn resolution_substitutes_idle_and_reports_strangers() {
    let mut joint = JointProposal::new();
    joint.propose(3, Decision::silent(Action::Eat));
    joint.propose_malformed(1);
    joint.propose(42, Decision::silent(Action::Drink));
    joint.propose(7, Decision::silent(Action::Idle));
    let (decisions, marks, unconsumed) = joint.resolve_for(&[1, 2, 3]);
    assert_eq!(
        decisions,
        vec![
            (1, Decision::silent(Action::Idle)),
            (2, Decision::silent(Action::Idle)),
            (3, Decision::silent(Action::Eat)),
        ]
    );
    assert_eq!(
        marks,
        vec![
            Provenance::SubstitutedIdle,
            Provenance::SubstitutedIdle,
            Provenance::PolicyMade,
        ]
    );
    assert_eq!(unconsumed, vec![7, 42], "strangers come back ascending");
}
