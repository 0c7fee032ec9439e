use ambrosia::input::{input_delta, Input};
use ambrosia::ui::{UiAction, UiAtomic, UiMaster, UiPanel};
use ambrosia::vectors::Vector;

#[test]
fn ui_config_consistency() {
    let panel_a = UiPanel::new(
        vec![("go".to_string(), UiAction::Open { ids: vec!["b".to_string()] })],
        vec![],
        true,
    );
    let panel_b = UiPanel::new(vec![("quit".to_string(), UiAction::Exit)], vec![], false);
    let master = UiMaster::new(
        vec!["a".to_string()],
        vec![("a".to_string(), panel_a), ("b".to_string(), panel_b)],
    );

    assert!(master.verify());
    assert!(master.get_panel(&"a".to_string()).is_some());
    assert!(master.get_panel(&"c".to_string()).is_none());
    assert_eq!(master.open_panels().len(), 1);
    assert!(master.open_panels()[0].clears());

    let dangling = UiPanel::new(
        vec![("go".to_string(), UiAction::Open { ids: vec!["ghost".to_string()] })],
        vec![],
        false,
    );
    let broken = UiMaster::new(vec!["x".to_string()], vec![("x".to_string(), dangling)]);
    assert!(!broken.verify());

    let missing_open = UiMaster::new(vec!["nope".to_string()], vec![]);
    assert!(!missing_open.verify());
}

#[test]
fn ui_referenced_panels_lists_open_targets() {
    let panel = UiPanel::new(
        vec![
            (
                "one".to_string(),
                UiAction::Open { ids: vec!["p".to_string(), "q".to_string()] },
            ),
            ("two".to_string(), UiAction::Replace { ids: vec!["r".to_string()] }),
            ("three".to_string(), UiAction::Exit),
        ],
        vec![],
        false,
    );
    let references: Vec<String> = panel.referenced_panels().into_iter().cloned().collect();
    assert_eq!(references, vec!["p".to_string(), "q".to_string()]);
}

#[test]
fn ui_selection_wraps_at_both_ends() {
    assert_eq!(UiAtomic::step_selection(3, 0, true), 1);
    assert_eq!(UiAtomic::step_selection(3, 2, true), 0);
    assert_eq!(UiAtomic::step_selection(3, 0, false), 2);
    assert_eq!(UiAtomic::step_selection(3, 2, false), 1);
    assert_eq!(UiAtomic::step_selection(1, 0, true), 0);
    assert_eq!(UiAtomic::step_selection(1, 0, false), 0);
}

#[test]
fn input_decodes_to_unit_steps() {
    assert_eq!(input_delta(&Input::Up), Some(Vector { x: 0, y: -1 }));
    assert_eq!(input_delta(&Input::Down), Some(Vector { x: 0, y: 1 }));
    assert_eq!(input_delta(&Input::Left), Some(Vector { x: -1, y: 0 }));
    assert_eq!(input_delta(&Input::Right), Some(Vector { x: 1, y: 0 }));
    assert_eq!(input_delta(&Input::Escape), None);
}
