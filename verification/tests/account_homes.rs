use miawk::accounts::{home_after_move, plan_account_home, HomePlan};

// Candidates are [stored home, current home] unless said otherwise.

#[test]
fn a_working_legacy_home_moves_to_the_current_place() {
    // Only the stored (legacy) home can sign in and nothing is at the current place.
    let plan = plan_account_home(&vec![true, false], 1, false);
    assert_eq!(plan, HomePlan::MoveThenSettle(0));
    // The move succeeded: the current home can sign in.
    assert_eq!(home_after_move(1, 0, true), 1);
}

#[test]
fn a_failed_move_keeps_the_working_home() {
    let plan = plan_account_home(&vec![true, false], 1, false);
    assert_eq!(plan, HomePlan::MoveThenSettle(0));
    assert_eq!(home_after_move(1, 0, false), 0);
}

#[test]
fn a_current_home_that_signs_in_is_preferred() {
    assert_eq!(plan_account_home(&vec![true, true], 1, true), HomePlan::Settle(1));
    // Stored and current are the same place.
    assert_eq!(plan_account_home(&vec![true], 0, true), HomePlan::Settle(0));
}

#[test]
fn an_unusable_current_auth_file_is_left_alone() {
    // [stored, current, legacy]: only the legacy home signs in, and an auth
    // file that cannot sign in is already at the current place.
    assert_eq!(plan_account_home(&vec![false, false, true], 1, true), HomePlan::Settle(2));
}

#[test]
fn no_home_that_signs_in_keeps_the_store() {
    assert_eq!(plan_account_home(&vec![false, false, false], 1, false), HomePlan::Keep);
}
