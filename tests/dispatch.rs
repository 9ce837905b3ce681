use life_core::{
    new, AlertOpereation, App, CellCoord, Completion, CoreError, Effect, Event, ExportOperation,
    Model,
};

fn cells(model: &Model) -> Vec<CellCoord> {
    let mut cells = model.life().state_as_list();
    cells.sort();
    cells
}

#[test]
fn step_and_toggle_render() {
    let mut model = new(&[[0, -1], [0, 0], [0, 1]]);
    let app = App;
    assert_eq!(app.update(Event::Step, &mut model), Ok(vec![Effect::Render]));
    assert_eq!(cells(&model), vec![[-1, 0], [0, 0], [1, 0]]);
    assert_eq!(app.update(Event::ToggleCell([7, 7]), &mut model), Ok(vec![Effect::Render]));
    assert_eq!(cells(&model), vec![[-1, 0], [0, 0], [1, 0], [7, 7]]);
    assert_eq!(app.update(Event::Render, &mut model), Ok(vec![Effect::Render]));
}

#[test]
fn step_refused_near_range_end() {
    let mut model = new(&[[i32::MIN, 0]]);
    let app = App;
    assert_eq!(app.update(Event::Step, &mut model), Err(CoreError::OutOfRange));
    assert_eq!(cells(&model), vec![[i32::MIN, 0]]);
}

#[test]
fn load_world_replaces_board() {
    let mut model = new(&[[9, 9]]);
    let app = App;
    let r = app.update(Event::LoadWorld(b"[[1,2],[3,4]]".to_vec()), &mut model);
    assert_eq!(r, Ok(vec![Effect::Render]));
    assert_eq!(cells(&model), vec![[1, 2], [3, 4]]);
}

#[test]
fn load_world_malformed_keeps_board() {
    let mut model = new(&[[9, 9], [0, 1]]);
    let app = App;
    let r = app.update(Event::LoadWorld(b"[[1,2],oops".to_vec()), &mut model);
    assert_eq!(r, Err(CoreError::DecodeError));
    assert_eq!(cells(&model), vec![[0, 1], [9, 9]]);
}

#[test]
fn save_and_copy_carry_json() {
    let mut model = new(&[[0, -1]]);
    let app = App;
    let r = app.update(Event::SaveWorld, &mut model);
    assert_eq!(r, Ok(vec![Effect::Export(0, ExportOperation::Save(b"[[0,-1]]".to_vec()))]));
    let r = app.update(Event::CopyWorld, &mut model);
    assert_eq!(r, Ok(vec![Effect::Export(1, ExportOperation::Copy(b"[[0,-1]]".to_vec()))]));
    assert_eq!(cells(&model), vec![[0, -1]]);
}

#[test]
fn saved_bytes_load_back() {
    let mut model = new(&[[0, -1], [2, 5], [-4, 3]]);
    let app = App;
    let bytes = match app.update(Event::SaveWorld, &mut model) {
        Ok(effects) => match &effects[0] {
            Effect::Export(_, ExportOperation::Save(b)) => b.clone(),
            other => panic!("unexpected effect {:?}", other),
        },
        Err(e) => panic!("save refused: {:?}", e),
    };
    let mut other = new(&[]);
    assert_eq!(app.update(Event::LoadWorld(bytes), &mut other), Ok(vec![Effect::Render]));
    assert_eq!(cells(&other), cells(&model));
}

#[test]
fn echo_issues_alert_and_completion_releases_it() {
    let mut model = new(&[]);
    let app = App;
    let r = app.update(Event::Echo("hello".to_string()), &mut model);
    assert_eq!(r, Ok(vec![Effect::Alert(0, AlertOpereation::Info("hello".to_string()))]));
    let r = app.update(Event::Completed(0, Completion::Done), &mut model);
    assert_eq!(r, Ok(vec![]));
    let r = app.update(Event::Completed(0, Completion::Done), &mut model);
    assert_eq!(r, Err(CoreError::ProtocolViolation));
}

#[test]
fn unknown_completion_is_refused() {
    let mut model = new(&[[1, 1]]);
    let app = App;
    let r = app.update(Event::Completed(42, Completion::Done), &mut model);
    assert_eq!(r, Err(CoreError::ProtocolViolation));
    assert_eq!(cells(&model), vec![[1, 1]]);
    let r = app.update(Event::SaveWorld, &mut model);
    assert!(matches!(r, Ok(ref v) if matches!(v[0], Effect::Export(0, _))));
}

#[test]
fn failed_completion_notifies() {
    let mut model = new(&[]);
    let app = App;
    let _ = app.update(Event::SaveWorld, &mut model);
    let r = app.update(Event::Completed(0, Completion::Failed("disk full".to_string())), &mut model);
    assert_eq!(r, Ok(vec![Effect::Alert(1, AlertOpereation::Error("disk full".to_string()))]));
    assert_eq!(app.update(Event::Completed(1, Completion::Done), &mut model), Ok(vec![]));
}

#[test]
fn save_writes_compact_json() {
    let mut model = new(&[[-12, 305]]);
    let app = App;
    let r = app.update(Event::SaveWorld, &mut model);
    assert_eq!(r, Ok(vec![Effect::Export(0, ExportOperation::Save(b"[[-12,305]]".to_vec()))]));
    let mut empty = new(&[]);
    let r = app.update(Event::CopyWorld, &mut empty);
    assert_eq!(r, Ok(vec![Effect::Export(0, ExportOperation::Copy(b"[]".to_vec()))]));
}

#[test]
fn failed_completion_releases_its_id_for_good() {
    let mut model = new(&[]);
    let app = App;
    let _ = app.update(Event::Echo("hi".to_string()), &mut model);
    let r = app.update(Event::Completed(0, Completion::Failed("denied".to_string())), &mut model);
    assert_eq!(r, Ok(vec![Effect::Alert(1, AlertOpereation::Error("denied".to_string()))]));
    let r = app.update(Event::Completed(0, Completion::Done), &mut model);
    assert_eq!(r, Err(CoreError::ProtocolViolation));
}
