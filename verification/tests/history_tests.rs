use rust_photo::base::history::{HistoryCommand, HistoryManager, HistoryState, LayerVisibilityCommand};
use std::cell::RefCell;
use std::rc::Rc;

/// A command that records what happens to it in a shared log and can be told to fail.
struct Recorder {
    name: String,
    log: Rc<RefCell<Vec<String>>>,
    succeed: bool,
    undo_ok: bool,
}

impl Recorder {
    fn copy(&self) -> Recorder {
        Recorder { name: self.name.clone(), log: self.log.clone(), succeed: self.succeed, undo_ok: self.undo_ok }
    }
}

impl HistoryCommand for Recorder {
    fn execute_result(&self) -> bool {
        self.succeed
    }

    fn executed(&self) -> Recorder {
        self.copy()
    }

    fn undo_result(&self) -> bool {
        self.undo_ok
    }

    fn undone(&self) -> Recorder {
        self.copy()
    }

    fn redo_result(&self) -> bool {
        self.succeed
    }

    fn name(&self) -> String {
        self.name.clone()
    }

    fn execute(&mut self) -> bool {
        self.log.borrow_mut().push(format!("execute {}", self.name));
        self.succeed
    }

    fn undo(&mut self) -> bool {
        self.log.borrow_mut().push(format!("undo {}", self.name));
        self.undo_ok
    }

    fn redo(&mut self) -> bool {
        self.execute()
    }

    fn get_name(&self) -> String {
        self.name.clone()
    }
}

fn recorder(name: &str, log: &Rc<RefCell<Vec<String>>>) -> Recorder {
    Recorder { name: name.to_string(), log: log.clone(), succeed: true, undo_ok: true }
}

#[test]
fn new_manager_has_nothing_to_undo_or_redo() {
    let manager = HistoryManager::<Recorder>::new();
    assert!(!manager.can_undo());
    assert!(!manager.can_redo());
    assert_eq!(manager.get_undo_name(), None);
    assert_eq!(manager.get_redo_name(), None);
}

#[test]
fn add_command_executes_and_enables_undo() {
    let log = Rc::new(RefCell::new(Vec::new()));
    let mut manager = HistoryManager::<Recorder>::new();
    assert!(manager.add_command(recorder("paint", &log), "doc1".to_string()));
    assert_eq!(log.borrow().clone(), vec!["execute paint".to_string()]);
    assert!(manager.can_undo());
    assert!(!manager.can_redo());
    assert_eq!(manager.get_undo_name(), Some("paint".to_string()));
}

#[test]
fn failed_command_is_not_recorded() {
    let log = Rc::new(RefCell::new(Vec::new()));
    let mut manager = HistoryManager::<Recorder>::new();
    let failing = Recorder { name: "bad".to_string(), log: log.clone(), succeed: false, undo_ok: false };
    assert!(!manager.add_command(failing, "doc1".to_string()));
    assert!(!manager.can_undo());
}

#[test]
fn undo_then_redo_moves_the_command_between_stacks() {
    let log = Rc::new(RefCell::new(Vec::new()));
    let mut manager = HistoryManager::<Recorder>::new();
    manager.add_command(recorder("a", &log), "doc".to_string());
    manager.add_command(recorder("b", &log), "doc".to_string());
    assert!(manager.undo());
    assert_eq!(manager.get_undo_name(), Some("a".to_string()));
    assert_eq!(manager.get_redo_name(), Some("b".to_string()));
    assert!(manager.redo());
    assert_eq!(manager.get_undo_name(), Some("b".to_string()));
    assert!(!manager.can_redo());
    // redo of a command executes it again
    assert_eq!(
        log.borrow().clone(),
        vec!["execute a", "execute b", "undo b", "execute b"].iter().map(|s| s.to_string()).collect::<Vec<_>>()
    );
}

#[test]
fn undo_and_redo_on_empty_stacks_fail() {
    let mut manager = HistoryManager::<Recorder>::new();
    assert!(!manager.undo());
    assert!(!manager.redo());
}

#[test]
fn new_command_clears_redo_stack() {
    let log = Rc::new(RefCell::new(Vec::new()));
    let mut manager = HistoryManager::<Recorder>::new();
    manager.add_command(recorder("a", &log), "doc".to_string());
    manager.undo();
    assert!(manager.can_redo());
    manager.add_command(recorder("b", &log), "doc".to_string());
    assert!(!manager.can_redo());
}

#[test]
fn undo_levels_are_capped() {
    let log = Rc::new(RefCell::new(Vec::new()));
    let mut manager = HistoryManager::<Recorder>::with_max_levels(2);
    manager.add_command(recorder("a", &log), "doc".to_string());
    manager.add_command(recorder("b", &log), "doc".to_string());
    manager.add_command(recorder("c", &log), "doc".to_string());
    assert!(manager.undo());
    assert!(manager.undo());
    assert!(!manager.undo());
    assert_eq!(manager.get_redo_name(), Some("b".to_string()));
}

#[test]
fn lowering_max_levels_drops_oldest_states() {
    let log = Rc::new(RefCell::new(Vec::new()));
    let mut manager = HistoryManager::<Recorder>::new();
    for name in ["a", "b", "c", "d"] {
        manager.add_command(recorder(name, &log), "doc".to_string());
    }
    manager.set_max_undo_levels(2);
    assert_eq!(manager.get_undo_name(), Some("d".to_string()));
    assert!(manager.undo());
    assert!(manager.undo());
    assert!(!manager.undo());
}

#[test]
fn clear_history_empties_both_stacks() {
    let log = Rc::new(RefCell::new(Vec::new()));
    let mut manager = HistoryManager::<Recorder>::new();
    manager.add_command(recorder("a", &log), "doc".to_string());
    manager.add_command(recorder("b", &log), "doc".to_string());
    manager.undo();
    manager.clear_history();
    assert!(!manager.can_undo());
    assert!(!manager.can_redo());
}

#[test]
fn clear_document_history_keeps_other_documents() {
    let log = Rc::new(RefCell::new(Vec::new()));
    let mut manager = HistoryManager::<Recorder>::new();
    manager.add_command(recorder("a1", &log), "one".to_string());
    manager.add_command(recorder("b1", &log), "two".to_string());
    manager.add_command(recorder("a2", &log), "one".to_string());
    manager.clear_document_history("one");
    assert_eq!(manager.get_undo_name(), Some("b1".to_string()));
    assert!(manager.undo());
    assert!(!manager.can_undo());
}

#[test]
fn history_state_forwards_to_its_command() {
    let log = Rc::new(RefCell::new(Vec::new()));
    let mut state = HistoryState::new(recorder("move", &log), "doc7".to_string());
    assert_eq!(state.get_name(), "move");
    assert_eq!(state.get_document_id(), "doc7");
    assert!(state.undo());
    assert!(state.redo());
    assert_eq!(
        log.borrow().clone(),
        vec!["undo move".to_string(), "execute move".to_string()]
    );
}

#[test]
fn layer_visibility_command_undoes_only_after_execute() {
    let mut command = LayerVisibilityCommand::new("layer-1".to_string(), true, false);
    assert_eq!(command.get_name(), "Change Layer Visibility");
    assert!(!command.undo());
    assert!(command.execute());
    assert!(command.undo());
}

#[test]
fn layer_visibility_command_through_manager() {
    let mut manager = HistoryManager::<LayerVisibilityCommand>::new();
    let command = LayerVisibilityCommand::new("layer-1".to_string(), false, true);
    assert!(manager.add_command(command, "doc".to_string()));
    assert_eq!(manager.get_undo_name(), Some("Change Layer Visibility".to_string()));
    assert!(manager.undo());
    assert!(manager.redo());
}

#[test]
fn capped_history_keeps_the_newest_visibility_change() {
    let mut h = HistoryManager::<LayerVisibilityCommand>::with_max_levels(1);
    assert!(h.add_command(LayerVisibilityCommand::new("l1".to_string(), true, false), "doc1".to_string()));
    assert!(h.add_command(LayerVisibilityCommand::new("l2".to_string(), false, true), "doc2".to_string()));
    assert_eq!(h.get_undo_name(), Some("Change Layer Visibility".to_string()));
    assert!(h.undo());
    assert!(!h.can_undo());
    assert!(h.can_redo());
}

#[test]
fn visibility_change_is_undoable_under_its_name() {
    let mut h = HistoryManager::<LayerVisibilityCommand>::new();
    assert!(h.add_command(LayerVisibilityCommand::new("layer1".to_string(), true, false), "doc1".to_string()));
    assert!(h.can_undo());
    assert!(!h.can_redo());
    assert_eq!(h.get_undo_name(), Some("Change Layer Visibility".to_string()));
}

#[test]
fn undo_name_is_the_newest_command() {
    let log = Rc::new(RefCell::new(Vec::new()));
    let mut h = HistoryManager::<Recorder>::new();
    h.add_command(recorder("first", &log), "d".to_string());
    h.add_command(recorder("second", &log), "d".to_string());
    assert_eq!(h.get_undo_name(), Some("second".to_string()));
    assert!(h.undo());
    assert_eq!(h.get_undo_name(), Some("first".to_string()));
    assert_eq!(h.get_redo_name(), Some("second".to_string()));
    assert_eq!(log.borrow().last().unwrap(), "undo second");
}

#[test]
fn unexecuted_state_cannot_be_undone() {
    let mut s = HistoryState::new(LayerVisibilityCommand::new("layer1".to_string(), true, false), "doc1".to_string());
    assert!(!s.undo());
    assert_eq!(s.get_document_id(), "doc1");
    assert_eq!(s.get_name(), "Change Layer Visibility");
}

#[test]
fn failed_undo_keeps_the_state_on_top() {
    let log = Rc::new(RefCell::new(Vec::new()));
    let mut h = HistoryManager::<Recorder>::new();
    h.add_command(recorder("a", &log), "d".to_string());
    let stuck = Recorder { name: "stuck".to_string(), log: log.clone(), succeed: true, undo_ok: false };
    assert!(h.add_command(stuck, "d".to_string()));
    assert!(!h.undo());
    assert_eq!(h.get_undo_name(), Some("stuck".to_string()));
    assert!(!h.can_redo());
    assert!(!h.undo());
    assert_eq!(
        log.borrow().clone(),
        vec!["execute a", "execute stuck", "undo stuck", "undo stuck"].iter().map(|s| s.to_string()).collect::<Vec<_>>()
    );
}

#[test]
fn visibility_change_undo_then_redo_restores_history() {
    let mut h = HistoryManager::<LayerVisibilityCommand>::new();
    assert!(h.add_command(LayerVisibilityCommand::new("l1".to_string(), true, false), "doc".to_string()));
    assert!(h.add_command(LayerVisibilityCommand::new("l2".to_string(), false, true), "doc".to_string()));
    assert!(h.undo());
    assert!(h.redo());
    assert!(h.can_undo());
    assert!(!h.can_redo());
    assert!(h.undo());
    assert!(h.undo());
    assert!(!h.can_undo());
    assert!(h.redo());
    assert!(h.redo());
    assert!(!h.redo());
}
