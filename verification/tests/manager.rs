use archive_manager::error_propagator::ErrorPropagator;
use archive_manager::fields::FieldMap;
use archive_manager::manager::{Action, ArchiveManager, DbMessage};
use archive_manager::model::DynamicModel;
use archive_manager::pages::{
    page_rows, sync_artifact_to_list, ArtifactRow, ExportPager, EXPORT_PAGE, PAGE_SIZE,
};
use archive_manager::plan::plan_migration;
use archive_manager::queries::ArchiveStatus;
use archive_manager::schema::{FeatureMetadata, Schema, UiTypeDef};

fn feature(id: &str, ui_type: UiTypeDef) -> FeatureMetadata {
    FeatureMetadata {
        id: id.to_string(),
        label: id.to_string(),
        ui_type,
        required: false,
        relation: None,
        system_title: None,
    }
}

fn texts(list: &[&str]) -> Vec<String> {
    list.iter().map(|s| s.to_string()).collect()
}

fn schema() -> Schema {
    Schema {
        features: vec![
            feature("title", UiTypeDef::Text),
            feature(
                "size",
                UiTypeDef::Unit { name: "Length".to_string(), options: texts(&["cm", "m"]) },
            ),
        ],
    }
}

fn model(id: &str, title: &str, size: &str) -> DynamicModel {
    let mut fields = FieldMap::new();
    fields.insert("title".to_string(), title.to_string());
    fields.insert("size".to_string(), size.to_string());
    DynamicModel { id: id.to_string(), is_archived: false, fields }
}

fn artifact(id: &str, title: &str, size: &str) -> ArtifactRow {
    ArtifactRow { model: model(id, title, size), selected: false }
}

fn manager() -> ArchiveManager {
    let mut manager = ArchiveManager::new(schema());
    assert!(manager.handle(DbMessage::Connected).is_none());
    manager.archive_name = "Roman".to_string();
    manager
}

fn status(exists: bool, stored: &[&str]) -> DbMessage {
    DbMessage::ArchiveStatus(ArchiveStatus { exists, property_fields: texts(stored) })
}

#[test]
fn nothing_is_asked_without_a_connection() {
    let mut manager = ArchiveManager::new(schema());
    manager.archive_name = "Roman".to_string();
    assert!(!manager.connected);
    assert!(manager.check_archive_op().is_none());
    assert!(manager.open_archive_op(true).is_none());
    assert!(manager.run_migration_op(vec![], vec![]).is_none());
    assert!(manager.search_changed().is_none());
    assert!(manager.save_artifact_edit(&artifact("1", "a", "")).is_none());
    assert!(manager.handle(status(true, &["title", "size"])).is_none());
    assert!(manager.answer_create(true).is_none());
}

#[test]
fn archive_needs_a_name() {
    let mut manager = ArchiveManager::new(schema());
    assert!(!manager.can_open());
    manager.archive_name = "R".to_string();
    assert!(manager.can_open());
    manager.connected = true;
    match manager.check_archive_op() {
        Some(Action::CheckArchive { archive_name }) => assert_eq!(archive_name, "R"),
        _ => panic!("the archive is to be checked"),
    }
}

#[test]
fn missing_archive_is_created_on_consent() {
    let mut manager = manager();
    assert!(manager.handle(status(false, &[])).is_none());
    assert!(manager.show_confirm);
    assert_eq!(manager.create_question(), "Archive label 'Roman' not found. Create it?");
    match manager.answer_create(true) {
        Some(Action::OpenArchive { archive_name, seed }) => {
            assert_eq!(archive_name, "Roman");
            assert!(seed);
        }
        _ => panic!("the archive is to be opened"),
    }
    assert!(!manager.show_confirm);
    manager.show_confirm = true;
    assert!(manager.answer_create(false).is_none());
    assert!(!manager.show_confirm);
}

#[test]
fn matching_archive_is_opened() {
    let mut manager = manager();
    match manager.handle(status(true, &["size", "title"])) {
        Some(Action::OpenArchive { archive_name, seed }) => {
            assert_eq!(archive_name, "Roman");
            assert!(!seed);
        }
        _ => panic!("the archive is to be opened"),
    }
    assert!(!manager.show_confirm);
    assert!(!manager.show_migration_confirm);
}

#[test]
fn missing_fields_are_added_at_once() {
    let mut manager = manager();
    match manager.handle(status(true, &["title"])) {
        Some(Action::RunMigration { archive_name, fields_to_add, fields_to_remove }) => {
            assert_eq!(archive_name, "Roman");
            assert_eq!(fields_to_add, texts(&["size"]));
            assert!(fields_to_remove.is_empty());
        }
        _ => panic!("the archive is to be migrated"),
    }
    assert!(!manager.show_migration_confirm);
}

#[test]
fn extra_fields_are_removed_on_consent_only() {
    let mut manager = manager();
    assert!(manager.handle(status(true, &["title", "weight", "origin"])).is_none());
    assert!(manager.show_migration_confirm);
    assert_eq!(
        manager.mismatch_text(),
        "Archive 'Roman' has a schema mismatch with schema.toml."
    );
    assert_eq!(
        manager.removal_text().unwrap(),
        "DESTRUCTIVE: The following fields will be permanently REMOVED:\nweight, origin"
    );
    assert_eq!(
        manager.addition_text().unwrap(),
        "The following new fields will be added:\nsize"
    );
    match manager.answer_migration(true) {
        Some(Action::RunMigration { archive_name, fields_to_add, fields_to_remove }) => {
            assert_eq!(archive_name, "Roman");
            assert_eq!(fields_to_add, texts(&["size"]));
            assert_eq!(fields_to_remove, texts(&["weight", "origin"]));
        }
        _ => panic!("the archive is to be migrated"),
    }
    assert!(!manager.show_migration_confirm);
    assert_eq!(manager.migration_fields_to_remove, texts(&["weight", "origin"]));
}

#[test]
fn refused_migration_is_forgotten() {
    let mut manager = manager();
    assert!(manager.handle(status(true, &["title", "size", "weight"])).is_none());
    assert!(manager.addition_text().is_none());
    assert!(manager.answer_migration(false).is_none());
    assert!(!manager.show_migration_confirm);
    assert!(manager.removal_text().is_none());
    assert!(manager.migration_fields_to_remove.is_empty());
    assert!(manager.migration_fields_to_add.is_empty());
}

#[test]
fn plan_names_each_field_once() {
    let mut wide = schema();
    wide.features.push(feature("title", UiTypeDef::Text));
    wide.features.push(feature("origin", UiTypeDef::Text));
    let plan = plan_migration(&wide, &texts(&["weight", "size", "weight"]));
    assert_eq!(plan.fields_to_add, texts(&["title", "origin"]));
    assert_eq!(plan.fields_to_remove, texts(&["weight"]));
    let same = plan_migration(&schema(), &texts(&["size", "title", "size"]));
    assert!(same.fields_to_add.is_empty());
    assert!(same.fields_to_remove.is_empty());
}

#[test]
fn opened_archive_is_listed_and_titled_once() {
    let mut manager = manager();
    manager.search_query = "old".to_string();
    assert!(manager.take_title().is_none());
    match manager.handle(DbMessage::Opened) {
        Some(Action::LoadList { archive_name, search }) => {
            assert_eq!(archive_name, "Roman");
            assert_eq!(search, "");
        }
        _ => panic!("the list is to be loaded"),
    }
    assert!(manager.archive_open);
    assert_eq!(manager.take_title().unwrap(), "Graph Archive - Roman");
    assert!(manager.take_title().is_none());
    assert!(manager.archive_open);
}

#[test]
fn search_reloads_the_list() {
    let mut manager = manager();
    manager.toggle_search();
    assert!(manager.search_open);
    manager.search_query = "Shield".to_string();
    match manager.search_changed() {
        Some(Action::LoadList { archive_name, search }) => {
            assert_eq!(archive_name, "Roman");
            assert_eq!(search, "Shield");
        }
        _ => panic!("the list is to be loaded"),
    }
    manager.toggle_search();
    assert!(!manager.search_open);
}

#[test]
fn errors_are_kept_with_ids_of_their_own() {
    let mut manager = manager();
    assert!(manager.handle(DbMessage::Error("first".to_string())).is_none());
    assert!(manager.handle(DbMessage::Error("second".to_string())).is_none());
    assert_eq!(manager.error_propagator.len(), 2);
    assert_eq!(manager.error_propagator.title(0), "Error #0");
    assert_eq!(manager.error_propagator.title(1), "Error #1");
    assert_eq!(manager.error_propagator.message(1), "second");
    assert!(manager.error_propagator.details(0).is_none());
}

#[test]
fn closed_errors_are_removed() {
    let mut errors = ErrorPropagator::new();
    assert!(errors.has_room());
    for (message, details) in [("a", None), ("b", Some("")), ("c", Some("trace")), ("d", None)] {
        errors.push(message.to_string(), details.map(|d| d.to_string()));
    }
    assert!(errors.details(1).is_none());
    assert_eq!(errors.details(2).unwrap(), "trace");
    errors.close(0);
    errors.close(3);
    assert_eq!(errors.len(), 4);
    errors.remove_closed();
    assert_eq!(errors.len(), 2);
    assert_eq!(errors.message(0), "b");
    assert_eq!(errors.title(1), "Error #2");
    errors.push("e".to_string(), None);
    assert_eq!(errors.title(2), "Error #4");
    assert_eq!(errors.clone().len(), 3);
    assert_eq!(ErrorPropagator::default().len(), 0);
}

#[test]
fn edit_of_a_unit_is_split_and_joined() {
    let mut manager = manager();
    let row = artifact("1", "Sword", "90cm");
    manager.open_detail(row.clone());
    manager.begin_edit(&row, 1);
    assert!(manager.is_editing(1));
    assert!(!manager.is_editing(0));
    assert_eq!(manager.detail_edit_buf, "90");
    assert_eq!(manager.detail_edit_unit, "cm");
    manager.detail_edit_buf = "1.5".to_string();
    manager.detail_edit_unit = "m".to_string();
    let committed = manager.commit_edit(&row, 1);
    assert_eq!(committed.model.get_field("size"), "1.5m");
    assert_eq!(committed.model.get_field("title"), "Sword");
    assert_eq!(committed.model.id, "1");
    assert!(!manager.is_editing(1));
    assert_eq!(manager.detail_item.as_ref().unwrap().model.get_field("size"), "1.5m");
    match manager.save_artifact_edit(&committed) {
        Some(Action::SaveArtifact { archive_name, model }) => {
            assert_eq!(archive_name, "Roman");
            assert_eq!(model.get_field("size"), "1.5m");
        }
        _ => panic!("the artifact is to be stored"),
    }
}

#[test]
fn edit_of_a_text_ignores_the_unit() {
    let mut manager = manager();
    let row = artifact("1", "30cm", "");
    manager.detail_edit_unit = "m".to_string();
    manager.begin_edit(&row, 0);
    assert_eq!(manager.detail_edit_buf, "30cm");
    assert_eq!(manager.detail_edit_unit, "");
    manager.detail_edit_unit = "m".to_string();
    assert_eq!(manager.commit_edit(&row, 0).model.get_field("title"), "30cm");
}

#[test]
fn unchanged_edit_keeps_the_value() {
    let mut manager = manager();
    for size in ["", "cm", "12", "12m", "1 cmm"] {
        let row = artifact("1", "x", size);
        manager.begin_edit(&row, 1);
        assert_eq!(manager.commit_edit(&row, 1).model.get_field("size"), size);
    }
}

#[test]
fn closing_the_detail_ends_the_edit() {
    let mut manager = manager();
    let row = artifact("1", "x", "");
    manager.open_detail(row.clone());
    manager.begin_edit(&row, 0);
    manager.close_detail();
    assert!(manager.detail_item.is_none());
    assert!(manager.detail_edit_field.is_none());
}

#[test]
fn changed_artifact_is_mirrored_into_the_list() {
    let mut rows = vec![artifact("1", "a", ""), artifact("2", "b", ""), artifact("1", "c", "")];
    rows[0].toggle_selected();
    sync_artifact_to_list(&mut rows, &model("1", "new", "3m"));
    assert_eq!(rows.len(), 3);
    assert_eq!(rows[0].model.get_field("title"), "new");
    assert!(rows[0].selected);
    assert_eq!(rows[1].model.get_field("title"), "b");
    assert_eq!(rows[2].model.get_field("size"), "3m");
    assert!(!rows[2].selected);
    sync_artifact_to_list(&mut rows, &model("9", "other", ""));
    assert_eq!(rows[1].model.get_field("title"), "b");
}

fn models(n: usize) -> Vec<DynamicModel> {
    (0..n).map(|i| model(&i.to_string(), "t", "")).collect()
}

#[test]
fn full_page_has_a_successor() {
    let (rows, next) = page_rows(50, models(PAGE_SIZE));
    assert_eq!(rows.len(), 25);
    assert_eq!(next, Some(75));
    assert_eq!(rows[24].model.id, "24");
    assert!(!rows[24].selected);
    let (rows, next) = page_rows(50, models(PAGE_SIZE - 1));
    assert_eq!(rows.len(), 24);
    assert_eq!(next, None);
    assert_eq!(page_rows(usize::MAX, vec![]).1, None);
}

#[test]
fn export_asks_until_a_page_is_not_full() {
    let mut pager = ExportPager::new();
    assert_eq!(pager.skip(), 0);
    assert!(!pager.is_done());
    pager = pager.accept(models(EXPORT_PAGE));
    assert_eq!(pager.skip(), 500);
    assert!(!pager.is_done());
    pager = pager.accept(models(EXPORT_PAGE));
    assert_eq!(pager.skip(), 1000);
    pager = pager.accept(models(2));
    assert!(pager.is_done());
    let all = pager.into_models();
    assert_eq!(all.len(), 1002);
    assert_eq!(all[1001].id, "1");
    assert!(ExportPager::new().accept(vec![]).is_done());
}
