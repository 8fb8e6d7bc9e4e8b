use mechanix_shell::drawer::{action_row, ActionRowItem, CardPlacement, DrawerModel};

fn apps(d: &DrawerModel) -> Vec<(String, Vec<u32>)> {
    d.stacks.iter().map(|s| (s.app_name.clone(), s.cards.clone())).collect()
}

#[test]
fn receive_opens_stack_on_top_and_files_cards_newest_first() {
    let mut d = DrawerModel::new();
    assert_eq!(d.receive("Mail", 1), CardPlacement::Flow);
    assert_eq!(d.receive("Chat", 2), CardPlacement::Flow);
    assert_eq!(d.receive("Mail", 3), CardPlacement::Flow);
    assert_eq!(
        apps(&d),
        vec![("Chat".to_string(), vec![2]), ("Mail".to_string(), vec![3, 1])]
    );
}

#[test]
fn stacked_app_places_cards_on_top() {
    let mut d = DrawerModel::new();
    d.receive("Mail", 1);
    assert!(d.toggle_stacking("Mail"));
    assert!(d.stacked("Mail"));
    assert_eq!(d.receive("Mail", 2), CardPlacement::Stacked { depth: 1 });
    assert_eq!(d.receive("Mail", 3), CardPlacement::Stacked { depth: 2 });
    assert_eq!(d.receive("Chat", 4), CardPlacement::Flow);
}

#[test]
fn toggle_twice_restores_choice() {
    let mut d = DrawerModel::new();
    assert!(!d.stacked("Mail"));
    assert!(d.toggle_stacking("Mail"));
    assert!(!d.toggle_stacking("Mail"));
    assert!(!d.stacked("Mail"));
}

#[test]
fn closing_last_card_removes_stack_and_choice() {
    let mut d = DrawerModel::new();
    d.receive("Mail", 1);
    d.toggle_stacking("Mail");
    d.close_card("Mail", 1);
    assert!(d.stacks.is_empty());
    assert!(!d.stacked("Mail"));
    assert!(d.stacking.is_empty());
}

#[test]
fn closing_one_card_keeps_others() {
    let mut d = DrawerModel::new();
    d.receive("Mail", 1);
    d.receive("Mail", 2);
    d.close_card("Mail", 1);
    assert_eq!(apps(&d), vec![("Mail".to_string(), vec![2])]);
    d.close_card("Mail", 9);
    assert_eq!(apps(&d), vec![("Mail".to_string(), vec![2])]);
    d.close_card("Chat", 2);
    assert_eq!(apps(&d), vec![("Mail".to_string(), vec![2])]);
}

#[test]
fn close_undoes_receive() {
    let mut d = DrawerModel::new();
    d.receive("Mail", 1);
    d.receive("Chat", 2);
    let before = apps(&d);
    d.receive("Mail", 5);
    d.close_card("Mail", 5);
    assert_eq!(apps(&d), before);
    d.receive("Photos", 6);
    d.close_card("Photos", 6);
    assert_eq!(apps(&d), before);
}

#[test]
fn clear_stack_keeps_choice_clear_all_drops_everything() {
    let mut d = DrawerModel::new();
    d.receive("Mail", 1);
    d.receive("Chat", 2);
    d.toggle_stacking("Mail");
    d.clear_stack("Mail");
    assert_eq!(apps(&d), vec![("Chat".to_string(), vec![2])]);
    assert!(d.stacked("Mail"));
    d.clear_all();
    assert!(d.stacks.is_empty());
    assert!(d.stacking.is_empty());
}

#[test]
fn unstack_on_click() {
    let mut d = DrawerModel::new();
    d.receive("Mail", 1);
    assert!(!d.unstack("Mail"));
    d.toggle_stacking("Mail");
    assert!(d.unstack("Mail"));
    assert!(!d.stacked("Mail"));
    assert!(!d.unstack("Mail"));
}

#[test]
fn action_row_alternates_buttons_and_separators() {
    let row = action_row(vec![
        "open".to_string(),
        "Open".to_string(),
        "reply".to_string(),
        "Reply".to_string(),
        "odd".to_string(),
    ]);
    let shown: Vec<String> = row
        .iter()
        .map(|i| match i {
            ActionRowItem::Button { action_id, label } => format!("{}={}", action_id, label),
            ActionRowItem::Separator => "|".to_string(),
        })
        .collect();
    assert_eq!(shown, vec!["open=Open", "|", "reply=Reply"]);
    assert!(action_row(vec!["x".to_string()]).is_empty());
}
