use zellij_tabs::registry::Tabs;
use zellij_tabs::tab::Tab;

fn tab(uid: usize, name: &str) -> Tab {
    Tab::new(uid, name.to_string())
}

#[test]
fn empty_registry_has_free_index_zero() {
    let tabs = Tabs::new();
    assert!(tabs.is_empty());
    assert_eq!(tabs.amount_tabs(), 0);
    assert_eq!(tabs.get_free_tab_index(), 0);
}

#[test]
fn increasing_adds_move_free_index() {
    let mut tabs = Tabs::new();
    tabs.add_tab(tab(0, "a"));
    assert_eq!(tabs.get_free_tab_index(), 1);
    tabs.add_tab(tab(1, "b"));
    assert_eq!(tabs.get_free_tab_index(), 2);
    assert_eq!(tabs.amount_tabs(), 2);
}

#[test]
fn free_index_follows_largest_id_from_a_baseline() {
    let mut tabs = Tabs::new();
    tabs.add_tab(tab(7, "a"));
    tabs.add_tab(tab(9, "b"));
    tabs.add_tab(tab(12, "c"));
    assert_eq!(tabs.get_free_tab_index(), 13);
    assert_eq!(tabs.amount_tabs(), 3);
}

#[test]
fn free_index_uses_the_largest_id_not_the_latest() {
    let mut tabs = Tabs::new();
    tabs.add_tab(tab(5, "a"));
    tabs.add_tab(tab(2, "b"));
    assert_eq!(tabs.get_free_tab_index(), 6);
}

#[test]
fn distinct_ids_are_stored_apart() {
    let mut tabs = Tabs::new();
    tabs.add_tab(tab(0, "first"));
    tabs.add_tab(tab(1, "second"));
    assert_eq!(tabs.amount_tabs(), 2);
    assert_eq!(tabs.get_tab(0).unwrap().name, "first");
    assert_eq!(tabs.get_tab(1).unwrap().name, "second");
}

#[test]
fn client_registered_on_empty_registry_has_no_focus() {
    let mut tabs = Tabs::new();
    tabs.add_key(1);
    assert!(tabs.get_focused_tab(1).is_none());
}

#[test]
fn focus_appears_once_the_tab_is_added() {
    let mut tabs = Tabs::new();
    tabs.add_key(1);
    let id = tabs.get_free_tab_index();
    tabs.add_tab(tab(id, "main"));
    assert_eq!(tabs.get_focused_tab(1).unwrap().uid, 0);
    assert_eq!(tabs.get_focused_tab(1).unwrap().name, "main");
}

#[test]
fn client_registered_after_tabs_focuses_next_id() {
    let mut tabs = Tabs::new();
    tabs.add_tab(tab(0, "a"));
    tabs.add_tab(tab(1, "b"));
    tabs.add_key(4);
    assert!(tabs.get_focused_tab(4).is_none());
    tabs.add_tab(tab(2, "c"));
    assert_eq!(tabs.get_focused_tab(4).unwrap().name, "c");
}

#[test]
fn unregistered_key_is_absent() {
    let mut tabs = Tabs::new();
    tabs.add_tab(tab(0, "a"));
    assert!(tabs.get_focused_tab(3).is_none());
    assert!(tabs.pop_prev_tab(3).is_none());
    assert_eq!(tabs.amount_tabs(), 1);
}

#[test]
fn pop_with_empty_history_is_absent_and_changes_nothing() {
    let mut tabs = Tabs::new();
    tabs.add_key(1);
    tabs.add_tab(tab(0, "a"));
    assert!(tabs.pop_prev_tab(1).is_none());
    assert!(tabs.pop_prev_tab(1).is_none());
    assert_eq!(tabs.amount_tabs(), 1);
    assert_eq!(tabs.get_focused_tab(1).unwrap().uid, 0);
}

#[test]
fn deregistered_client_is_absent_and_others_stay() {
    let mut tabs = Tabs::new();
    tabs.add_key(1);
    tabs.add_tab(tab(0, "a"));
    tabs.add_key(2);
    tabs.add_tab(tab(1, "b"));
    tabs.remove_key(&1);
    assert!(tabs.get_focused_tab(1).is_none());
    assert!(tabs.pop_prev_tab(1).is_none());
    assert_eq!(tabs.amount_tabs(), 2);
    assert_eq!(tabs.get_focused_tab(2).unwrap().uid, 1);
}

#[test]
fn removing_unknown_key_changes_nothing() {
    let mut tabs = Tabs::new();
    tabs.add_key(1);
    tabs.add_tab(tab(0, "a"));
    tabs.remove_key(&9);
    assert_eq!(tabs.get_focused_tab(1).unwrap().uid, 0);
    assert_eq!(tabs.amount_tabs(), 1);
}

#[test]
fn is_empty_matches_count() {
    let mut tabs = Tabs::new();
    assert_eq!(tabs.is_empty(), tabs.amount_tabs() == 0);
    tabs.add_tab(tab(0, "a"));
    assert!(!tabs.is_empty());
    assert_eq!(tabs.is_empty(), tabs.amount_tabs() == 0);
}

#[test]
fn get_tab_changes_the_stored_tab() {
    let mut tabs = Tabs::new();
    tabs.add_key(1);
    tabs.add_tab(tab(0, "old"));
    tabs.get_tab(0).unwrap().name = "new".to_string();
    assert_eq!(tabs.get_focused_tab(1).unwrap().name, "new");
    assert!(tabs.get_tab(5).is_none());
}

#[test]
fn get_mut_tabs_gives_the_whole_collection() {
    let mut tabs = Tabs::new();
    tabs.add_tab(tab(0, "a"));
    tabs.add_tab(tab(1, "b"));
    {
        let all = tabs.get_mut_tabs();
        assert_eq!(all.len(), 2);
        for t in all.values_mut() {
            t.name.push('!');
        }
    }
    assert_eq!(tabs.get_tab(0).unwrap().name, "a!");
    assert_eq!(tabs.get_tab(1).unwrap().name, "b!");
}
