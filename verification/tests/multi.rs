use indicatif::draw::{DrawState, LineAdjust, VisualLines};
use indicatif::multi::{InsertLocation, Membership, MultiProgressAlignment, MultiState};

fn state_with(n: usize) -> MultiState {
    let mut st = MultiState::new();
    for _ in 0..n {
        st.insert(InsertLocation::End);
    }
    st
}

#[test]
fn multi_progress_modifications() {
    let mut st = state_with(4);
    st.remove_idx(2);
    st.remove_idx(1);
    let p4 = st.insert(InsertLocation::Index(1));
    // The slot freed last is reused.
    assert_eq!(st.members_len(), 4);
    assert_eq!(st.len(), 3);
    assert_eq!(st.free_set().last(), Some(&2));
    assert_eq!(st.ordering(), &vec![0, 1, 3]);
    assert!(st.member_at(2).draw_state.is_none());
    assert_eq!(p4, 1);
}

#[test]
fn multi_progress_register_from_back() {
    let mut st = state_with(3);
    assert_eq!(st.insert(InsertLocation::IndexFromBack(1)), 3);
    assert_eq!(st.insert(InsertLocation::IndexFromBack(10)), 4);
    assert_eq!(st.ordering(), &vec![4, 0, 1, 3, 2]);
}

#[test]
fn multi_progress_register_after() {
    let mut st = state_with(3);
    assert_eq!(st.insert(InsertLocation::After(2)), 3);
    assert_eq!(st.insert(InsertLocation::After(0)), 4);
    assert_eq!(st.ordering(), &vec![0, 4, 1, 2, 3]);
}

#[test]
fn multi_progress_register_before() {
    let mut st = state_with(3);
    assert_eq!(st.insert(InsertLocation::Before(0)), 3);
    assert_eq!(st.insert(InsertLocation::Before(2)), 4);
    assert_eq!(st.ordering(), &vec![3, 0, 1, 4, 2]);
}

#[test]
fn multi_progress_register_before_and_after() {
    let mut st = state_with(3);
    let p3 = st.insert(InsertLocation::Before(0));
    st.insert(InsertLocation::After(p3));
    st.insert(InsertLocation::After(p3));
    st.insert(InsertLocation::Before(1));
    assert_eq!(st.ordering(), &vec![3, 5, 4, 0, 6, 1, 2]);
}

#[test]
fn multi_progress_multiple_remove() {
    let mut st = state_with(2);
    st.remove_idx(0);
    st.remove_idx(0);
    st.remove_idx(0);
    assert_eq!(st.members_len(), 2);
    assert_eq!(st.free_set().len(), 1);
    assert_eq!(st.len(), 1);
    assert!(st.member_at(0).draw_state.is_none());
    assert_eq!(st.free_set().last(), Some(&0));
    assert_eq!(st.ordering(), &vec![1]);
}

#[test]
fn index_past_the_end_appends() {
    let mut st = state_with(2);
    assert_eq!(st.insert(InsertLocation::Index(99)), 2);
    assert_eq!(st.ordering(), &vec![0, 1, 2]);
}

#[test]
fn zombie_behind_the_head_is_only_flagged() {
    let mut st = state_with(2);
    assert!(st.mark_zombie(1, Some(80)).is_none());
    assert!(st.member_at(1).is_zombie);
    assert_eq!(st.ordering(), &vec![0, 1]);
}

#[test]
fn zombie_at_the_head_is_reaped_and_its_lines_kept() {
    let mut st = state_with(2);
    st.set_member_lines(0, vec!["a".to_string(), "b".to_string()], 0);
    match st.mark_zombie(0, Some(80)) {
        Some(LineAdjust::Keep(c)) => assert_eq!(c, VisualLines(2)),
        other => panic!("unexpected {:?}", other),
    }
    assert_eq!(st.ordering(), &vec![1]);
    assert_eq!(st.free_set(), &vec![0]);
}

#[test]
fn member_lines_split_off_orphans() {
    let mut st = state_with(1);
    st.set_member_lines(0, vec!["printed".to_string(), "bar".to_string()], 1);
    let lines = st.collect_lines(vec!["extra".to_string()]);
    assert_eq!(lines, vec!["extra".to_string(), "printed".to_string(), "bar".to_string()]);
    // Orphan lines are printed once.
    let again = st.collect_lines(Vec::new());
    assert_eq!(again, vec!["bar".to_string()]);
}

#[test]
fn draw_reaps_leading_zombies() {
    let mut st = state_with(3);
    st.set_member_lines(0, vec!["zero".to_string()], 0);
    st.set_member_lines(1, vec!["one".to_string(), "uno".to_string()], 0);
    st.set_member_lines(2, vec!["two".to_string()], 0);
    st.mark_zombie(1, Some(80));
    // Make slot 0 a zombie only by flag: it is the head, so it is reaped at once.
    st.mark_zombie(0, Some(80));
    assert_eq!(st.ordering(), &vec![1, 2]);
    let prep = st.prepare_draw(false, false, 80);
    assert_eq!(prep.reap_indices, vec![1]);
    assert_eq!(prep.adjust, VisualLines(2));
    assert!(prep.clear.is_none());
    assert!(!prep.force_draw);
    let lines = st.collect_lines(Vec::new());
    assert_eq!(lines, vec!["one".to_string(), "uno".to_string(), "two".to_string()]);
    match st.finish_draw(&prep.reap_indices, prep.adjust, false) {
        Some(LineAdjust::Keep(c)) => assert_eq!(c, VisualLines(2)),
        other => panic!("unexpected {:?}", other),
    }
    assert_eq!(st.ordering(), &vec![2]);
}

#[test]
fn println_draw_clears_zombie_lines() {
    let mut st = state_with(1);
    st.set_member_lines(0, vec!["x".to_string()], 0);
    st.mark_zombie(0, Some(80));
    let prep = st.prepare_draw(false, true, 80);
    assert_eq!(prep.clear, Some(VisualLines(1)));
}

#[test]
fn alignment_is_kept() {
    let mut st = MultiState::new();
    assert_eq!(st.alignment(), MultiProgressAlignment::Top);
    st.set_alignment(MultiProgressAlignment::Bottom);
    assert_eq!(st.alignment(), MultiProgressAlignment::Bottom);
    let d = DrawState::default();
    assert_eq!(d.alignment, MultiProgressAlignment::Top);
}

#[test]
fn adding_a_member_again_changes_nothing() {
    let mut st = state_with(2);
    assert_eq!(st.add_bar(Membership::Member(1), InsertLocation::End), None);
    assert_eq!(st.ordering(), &vec![0, 1]);
    assert_eq!(st.add_bar(Membership::Outside, InsertLocation::Index(0)), Some(2));
    assert_eq!(st.add_bar(Membership::Other, InsertLocation::End), Some(3));
    assert_eq!(st.ordering(), &vec![2, 0, 1, 3]);
}

#[test]
fn removing_a_bar_that_is_no_member_does_nothing() {
    let mut st = state_with(3);
    assert!(!st.remove_bar(Membership::Other));
    assert!(!st.remove_bar(Membership::Outside));
    assert_eq!(st.ordering(), &vec![0, 1, 2]);
    assert!(st.remove_bar(Membership::Member(1)));
    assert_eq!(st.ordering(), &vec![0, 2]);
    assert_eq!(st.free_set(), &vec![1]);
}
