//! What the application decides: which step follows a message from the
//! database or an input of the user, and how the open artifact is edited.

use vstd::prelude::*;
use vstd::string::*;

use crate::error_propagator::{ErrorPropagator, ErrorView, ErrorsView};
use crate::fields::value_or_empty;
use crate::model::{DynamicModel, ModelView};
use crate::pages::{ArtifactRow, RowView};
use crate::plan::{
    extra_fields, law_migration_matches_schema, law_missing_and_extra, missing_fields,
    plan_migration,
};
use crate::queries::ArchiveStatus;
use crate::schema::{ids, FeatureView, Schema, UiTypeDef, UiTypeView};
use crate::text::{is_suffix, join, joined, views};
use crate::units::{amount_of, law_split_parts, split_unit, unit_of};

verus! {

/// The field that is being edited in the detail window.
#[derive(Debug)]
pub struct DetailEditField {
    pub id: String,
}

/// The state of the application.
pub struct ArchiveManager {
    pub schema: Schema,
    /// Whether the connection to the database stands.
    pub connected: bool,
    /// The archive that is named in the launcher.
    pub archive_name: String,
    /// Whether the user is asked whether to create the archive.
    pub show_confirm: bool,
    /// Whether the user is asked whether to migrate the archive.
    pub show_migration_confirm: bool,
    pub migration_fields_to_remove: Vec<String>,
    pub migration_fields_to_add: Vec<String>,
    pub archive_open: bool,
    pub search_open: bool,
    pub search_query: String,
    /// Whether the archive has been opened since the window was last titled.
    pub archive_just_opened: bool,
    /// The artifact in the detail window.
    pub detail_item: Option<ArtifactRow>,
    pub detail_edit_field: Option<DetailEditField>,
    pub detail_edit_buf: String,
    pub detail_edit_unit: String,
    pub error_propagator: ErrorPropagator,
}

/// What an [`ArchiveManager`] holds.
pub struct ManagerView {
    pub schema: Seq<FeatureView>,
    pub connected: bool,
    pub archive_name: Seq<char>,
    pub show_confirm: bool,
    pub show_migration_confirm: bool,
    pub fields_to_remove: Seq<Seq<char>>,
    pub fields_to_add: Seq<Seq<char>>,
    pub archive_open: bool,
    pub search_open: bool,
    pub search_query: Seq<char>,
    pub archive_just_opened: bool,
    pub detail_item: Option<RowView>,
    pub detail_edit_field: Option<Seq<char>>,
    pub detail_edit_buf: Seq<char>,
    pub detail_edit_unit: Seq<char>,
    pub errors: ErrorsView,
}

impl View for ArchiveManager {
    type V = ManagerView;

    open spec fn view(&self) -> ManagerView {
        ManagerView {
            schema: self.schema@,
            connected: self.connected,
            archive_name: self.archive_name@,
            show_confirm: self.show_confirm,
            show_migration_confirm: self.show_migration_confirm,
            fields_to_remove: views(self.migration_fields_to_remove@),
            fields_to_add: views(self.migration_fields_to_add@),
            archive_open: self.archive_open,
            search_open: self.search_open,
            search_query: self.search_query@,
            archive_just_opened: self.archive_just_opened,
            detail_item: match self.detail_item {
                Some(row) => Some(row@),
                None => None,
            },
            detail_edit_field: match self.detail_edit_field {
                Some(field) => Some(field.id@),
                None => None,
            },
            detail_edit_buf: self.detail_edit_buf@,
            detail_edit_unit: self.detail_edit_unit@,
            errors: self.error_propagator@,
        }
    }
}

/// A message about what came of a step.
pub enum DbMessage {
    /// The connection stands.
    Connected,
    /// What is known about the archive.
    ArchiveStatus(ArchiveStatus),
    /// The archive is ready.
    Opened,
    /// An error to show to the user.
    Error(String),
}

/// What a [`DbMessage`] holds.
pub enum MessageView {
    Connected,
    ArchiveStatus { found: bool, stored: Seq<Seq<char>> },
    Opened,
    Error(Seq<char>),
}

impl View for DbMessage {
    type V = MessageView;

    open spec fn view(&self) -> MessageView {
        match self {
            DbMessage::Connected => MessageView::Connected,
            DbMessage::ArchiveStatus(status) => MessageView::ArchiveStatus {
                found: status.exists,
                stored: views(status.property_fields@),
            },
            DbMessage::Opened => MessageView::Opened,
            DbMessage::Error(text) => MessageView::Error(text@),
        }
    }
}

/// A step to take with the database.
pub enum Action {
    /// Find out about the archive.
    CheckArchive { archive_name: String },
    /// Remove some fields of the archive and add others, then open it.
    RunMigration {
        archive_name: String,
        fields_to_add: Vec<String>,
        fields_to_remove: Vec<String>,
    },
    /// Open the archive, with the demo data where `seed` is set.
    OpenArchive { archive_name: String, seed: bool },
    /// Load the list of artifacts from its start.
    LoadList { archive_name: String, search: String },
    /// Store an artifact.
    SaveArtifact { archive_name: String, model: DynamicModel },
}

/// What an [`Action`] holds.
pub enum ActionView {
    CheckArchive { archive_name: Seq<char> },
    RunMigration {
        archive_name: Seq<char>,
        fields_to_add: Seq<Seq<char>>,
        fields_to_remove: Seq<Seq<char>>,
    },
    OpenArchive { archive_name: Seq<char>, seed: bool },
    LoadList { archive_name: Seq<char>, search: Seq<char> },
    SaveArtifact { archive_name: Seq<char>, model: ModelView },
}

impl View for Action {
    type V = ActionView;

    open spec fn view(&self) -> ActionView {
        match self {
            Action::CheckArchive { archive_name } => ActionView::CheckArchive {
                archive_name: archive_name@,
            },
            Action::RunMigration { archive_name, fields_to_add, fields_to_remove } =>
                ActionView::RunMigration {
                archive_name: archive_name@,
                fields_to_add: views(fields_to_add@),
                fields_to_remove: views(fields_to_remove@),
            },
            Action::OpenArchive { archive_name, seed } => ActionView::OpenArchive {
                archive_name: archive_name@,
                seed: *seed,
            },
            Action::LoadList { archive_name, search } => ActionView::LoadList {
                archive_name: archive_name@,
                search: search@,
            },
            Action::SaveArtifact { archive_name, model } => ActionView::SaveArtifact {
                archive_name: archive_name@,
                model: model@,
            },
        }
    }
}

/// What a step holds, where there is one.
pub open spec fn action_view(action: Option<Action>) -> Option<ActionView> {
    match action {
        Some(a) => Some(a@),
        None => None,
    }
}

/// A step, which can only be taken while the connection stands.
pub open spec fn if_connected(m: ManagerView, action: ActionView) -> Option<ActionView> {
    if m.connected {
        Some(action)
    } else {
        None
    }
}

impl ManagerView {
    /// What always holds: the user is asked about a migration only if it
    /// removes something, and an archive is open only over a connection.
    pub open spec fn well_formed(self) -> bool {
        &&& self.show_migration_confirm ==> self.fields_to_remove.len() > 0
        &&& self.archive_open ==> self.connected
        &&& self.archive_just_opened ==> self.archive_open
        &&& self.errors.well_formed()
    }

    /// Whether a message can come: an archive has been opened over the
    /// connection, and there is an id left for an error.
    pub open spec fn can_handle(self, message: MessageView) -> bool {
        match message {
            MessageView::Opened => self.connected,
            MessageView::Error(_) => self.errors.next_id < u64::MAX,
            _ => true,
        }
    }
}

/// The state of the application at its start.
pub open spec fn initial(features: Seq<FeatureView>) -> ManagerView {
    ManagerView {
        schema: features,
        connected: false,
        archive_name: Seq::empty(),
        show_confirm: false,
        show_migration_confirm: false,
        fields_to_remove: Seq::empty(),
        fields_to_add: Seq::empty(),
        archive_open: false,
        search_open: false,
        search_query: Seq::empty(),
        archive_just_opened: false,
        detail_item: None,
        detail_edit_field: None,
        detail_edit_buf: Seq::empty(),
        detail_edit_unit: Seq::empty(),
        errors: ErrorsView { errors: Seq::empty(), next_id: 0 },
    }
}

/// The errors with one more.
pub open spec fn with_error(errors: ErrorsView, message: Seq<char>) -> ErrorsView {
    ErrorsView {
        errors: errors.errors.push(
            ErrorView { id: errors.next_id, message, details: None, should_close: false },
        ),
        next_id: (errors.next_id + 1) as u64,
    }
}

/// The state after a message. An archive that does not exist waits for the
/// user to create it. One that stores fields that the schema does not have
/// waits for the user to allow the migration.
pub open spec fn after_message(m: ManagerView, message: MessageView) -> ManagerView {
    match message {
        MessageView::Connected => ManagerView { connected: true, ..m },
        MessageView::ArchiveStatus { found, stored } => if !found {
            ManagerView { show_confirm: true, ..m }
        } else if extra_fields(m.schema, stored).len() > 0 {
            ManagerView {
                fields_to_remove: extra_fields(m.schema, stored),
                fields_to_add: missing_fields(m.schema, stored),
                show_migration_confirm: true,
                ..m
            }
        } else {
            m
        },
        MessageView::Opened => ManagerView { archive_open: true, archive_just_opened: true, ..m },
        MessageView::Error(text) => ManagerView { errors: with_error(m.errors, text), ..m },
    }
}

/// The step that follows a message. An archive that only lacks fields is
/// migrated at once, one that matches its schema is opened.
pub open spec fn step_after(m: ManagerView, message: MessageView) -> Option<ActionView> {
    match message {
        MessageView::ArchiveStatus { found, stored } => if !found || extra_fields(
            m.schema,
            stored,
        ).len() > 0 {
            None
        } else if missing_fields(m.schema, stored).len() > 0 {
            if_connected(
                m,
                ActionView::RunMigration {
                    archive_name: m.archive_name,
                    fields_to_add: missing_fields(m.schema, stored),
                    fields_to_remove: Seq::empty(),
                },
            )
        } else {
            if_connected(
                m,
                ActionView::OpenArchive { archive_name: m.archive_name, seed: false },
            )
        },
        MessageView::Opened => Some(
            ActionView::LoadList { archive_name: m.archive_name, search: Seq::empty() },
        ),
        _ => None,
    }
}

/// The state after the user has been asked whether to migrate the archive.
/// Without consent what was to be removed and added is forgotten.
pub open spec fn after_migration_answer(m: ManagerView, yes: bool) -> ManagerView {
    if yes {
        ManagerView { show_migration_confirm: false, ..m }
    } else {
        ManagerView {
            show_migration_confirm: false,
            fields_to_remove: Seq::empty(),
            fields_to_add: Seq::empty(),
            ..m
        }
    }
}

/// What the edit of a field starts from: its value, split into amount and
/// unit where it has one.
pub open spec fn edit_start(f: FeatureView, fields: Map<Seq<char>, Seq<char>>) -> (
    Seq<char>,
    Seq<char>,
) {
    let stored = value_or_empty(fields, f.id);
    match f.ui_type {
        UiTypeView::Unit { name: _, options } => (
            amount_of(stored, options),
            unit_of(stored, options),
        ),
        _ => (stored, Seq::empty()),
    }
}

/// The value that an edit gives to a field.
pub open spec fn edited_value(f: FeatureView, buf: Seq<char>, unit: Seq<char>) -> Seq<char> {
    match f.ui_type {
        UiTypeView::Unit { name: _, options: _ } => buf + unit,
        _ => buf,
    }
}

/// A row whose artifact has another value in one field.
pub open spec fn with_value(row: RowView, id: Seq<char>, value: Seq<char>) -> RowView {
    RowView {
        model: ModelView { fields: row.model.fields.insert(id, value), ..row.model },
        ..row
    }
}

/// Every message keeps the state well formed.
pub proof fn law_messages_keep_state_well_formed(m: ManagerView, message: MessageView)
    requires
        m.well_formed(),
        m.can_handle(message),
    ensures
        after_message(m, message).well_formed(),
{
    if let MessageView::Error(text) = message {
        let next = after_message(m, message).errors;
        assert forall|i: int, j: int| 0 <= i < j < next.errors.len() implies (
        #[trigger] next.errors[i]).id < (#[trigger] next.errors[j]).id by {
            if j < m.errors.errors.len() {
                assert(next.errors[j] == m.errors.errors[j]);
            }
            assert(next.errors[i] == m.errors.errors[i]);
        }
        assert forall|i: int| 0 <= i < next.errors.len() implies (#[trigger] next.errors[i]).id
            < next.next_id by {
            if i < m.errors.errors.len() {
                assert(next.errors[i] == m.errors.errors[i]);
            }
        }
    }
}

/// No message removes a field of the archive: the step that follows it takes
/// none away.
pub proof fn law_no_removal_unasked(m: ManagerView, message: MessageView)
    ensures
        step_after(m, message) matches Some(
            ActionView::RunMigration { archive_name: _, fields_to_add: _, fields_to_remove },
        ) ==> fields_to_remove.len() == 0,
{
}

/// Where the archive stores fields that the schema does not have, nothing is
/// done before the user has been asked, and what the user is asked about is
/// what makes the archive match the schema.
pub proof fn law_removal_is_asked(m: ManagerView, stored: Seq<Seq<char>>)
    requires
        extra_fields(m.schema, stored).len() > 0,
    ensures
        ({
            let message = MessageView::ArchiveStatus { found: true, stored };
            let next = after_message(m, message);
            &&& step_after(m, message) is None
            &&& next.show_migration_confirm
            &&& forall|x: Seq<char>| #[trigger]
                ids(m.schema).contains(x) <==> (stored.contains(x)
                    && !next.fields_to_remove.contains(x)) || next.fields_to_add.contains(x)
        }),
{
    law_migration_matches_schema(m.schema, stored);
}

/// An edit that changes nothing gives the field the value that it had.
pub proof fn law_unchanged_edit(f: FeatureView, fields: Map<Seq<char>, Seq<char>>)
    ensures
        edited_value(f, edit_start(f, fields).0, edit_start(f, fields).1) == value_or_empty(
            fields,
            f.id,
        ),
{
    if let UiTypeView::Unit { name: _, options } = f.ui_type {
        law_split_parts(value_or_empty(fields, f.id), options);
    }
}

/// An edit changes the value of one field, and neither another field nor
/// anything else about the artifact.
pub proof fn law_edit_changes_one_field(row: RowView, id: Seq<char>, value: Seq<char>)
    ensures
        value_or_empty(with_value(row, id, value).model.fields, id) == value,
        forall|other: Seq<char>|
            other != id ==> #[trigger] value_or_empty(
                with_value(row, id, value).model.fields,
                other,
            ) == value_or_empty(row.model.fields, other),
        with_value(row, id, value).model.fields == row.model.fields.insert(id, value),
        with_value(row, id, value).model.id == row.model.id,
        with_value(row, id, value).model.is_archived == row.model.is_archived,
        with_value(row, id, value).selected == row.selected,
{
}

impl ArchiveManager {
    /// The application at its start, without a connection.
    pub fn new(schema: Schema) -> (manager: ArchiveManager)
        ensures
            manager@ == initial(schema@),
            manager@.well_formed(),
    {
        let manager = ArchiveManager {
            schema,
            connected: false,
            archive_name: String::new(),
            show_confirm: false,
            show_migration_confirm: false,
            migration_fields_to_remove: Vec::new(),
            migration_fields_to_add: Vec::new(),
            archive_open: false,
            search_open: false,
            search_query: String::new(),
            archive_just_opened: false,
            detail_item: None,
            detail_edit_field: None,
            detail_edit_buf: String::new(),
            detail_edit_unit: String::new(),
            error_propagator: ErrorPropagator::new(),
        };
        assert(manager@.fields_to_remove =~= Seq::empty());
        assert(manager@.fields_to_add =~= Seq::empty());
        manager
    }

    /// Takes a message about what came of a step, and gives the step that
    /// follows it.
    pub fn handle(&mut self, message: DbMessage) -> (action: Option<Action>)
        requires
            old(self)@.can_handle(message@),
        ensures
            final(self)@ == after_message(old(self)@, message@),
            action_view(action) == step_after(old(self)@, message@),
            action_view(action) matches Some(
                ActionView::RunMigration { archive_name, fields_to_add, fields_to_remove },
            ) ==> archive_name == old(self)@.archive_name && fields_to_remove.len() == 0 && (
            message@ matches MessageView::ArchiveStatus { found, stored } && found && forall|
                x: Seq<char>,
            | #[trigger]
                ids(old(self)@.schema).contains(x) <==> stored.contains(x)
                    || fields_to_add.contains(x)),
    {
        proof {
            if let MessageView::ArchiveStatus { found, stored } = message@ {
                law_migration_matches_schema(self@.schema, stored);
            }
        }
        match message {
            DbMessage::Connected => {
                self.connected = true;
                None
            },
            DbMessage::ArchiveStatus(status) => {
                if !status.exists {
                    self.show_confirm = true;
                    return None;
                }
                let plan = plan_migration(&self.schema, &status.property_fields);
                if plan.fields_to_remove.len() > 0 {
                    self.migration_fields_to_remove = plan.fields_to_remove;
                    self.migration_fields_to_add = plan.fields_to_add;
                    self.show_migration_confirm = true;
                    None
                } else if plan.fields_to_add.len() > 0 {
                    assert(views(plan.fields_to_remove@) =~= Seq::empty());
                    self.run_migration_op(plan.fields_to_add, plan.fields_to_remove)
                } else {
                    self.open_archive_op(false)
                }
            },
            DbMessage::Opened => {
                self.archive_open = true;
                self.archive_just_opened = true;
                Some(
                    Action::LoadList {
                        archive_name: self.archive_name.clone(),
                        search: String::new(),
                    },
                )
            },
            DbMessage::Error(text) => {
                self.error_propagator.push(text, None);
                None
            },
        }
    }

    /// Asks what is known about the archive.
    pub fn check_archive_op(&self) -> (action: Option<Action>)
        ensures
            action_view(action) == if_connected(
                self@,
                ActionView::CheckArchive { archive_name: self@.archive_name },
            ),
    {
        if !self.connected {
            return None;
        }
        Some(Action::CheckArchive { archive_name: self.archive_name.clone() })
    }

    /// Migrates the archive.
    pub fn run_migration_op(
        &self,
        fields_to_add: Vec<String>,
        fields_to_remove: Vec<String>,
    ) -> (action: Option<Action>)
        ensures
            action_view(action) == if_connected(
                self@,
                ActionView::RunMigration {
                    archive_name: self@.archive_name,
                    fields_to_add: views(fields_to_add@),
                    fields_to_remove: views(fields_to_remove@),
                },
            ),
    {
        if !self.connected {
            return None;
        }
        Some(
            Action::RunMigration {
                archive_name: self.archive_name.clone(),
                fields_to_add,
                fields_to_remove,
            },
        )
    }

    /// Opens the archive, with the demo data where `seed` is set.
    pub fn open_archive_op(&self, seed: bool) -> (action: Option<Action>)
        ensures
            action_view(action) == if_connected(
                self@,
                ActionView::OpenArchive { archive_name: self@.archive_name, seed },
            ),
    {
        if !self.connected {
            return None;
        }
        Some(Action::OpenArchive { archive_name: self.archive_name.clone(), seed })
    }

    /// Stores the artifact of a row.
    pub fn save_artifact_edit(&self, row: &ArtifactRow) -> (action: Option<Action>)
        ensures
            action_view(action) == if_connected(
                self@,
                ActionView::SaveArtifact {
                    archive_name: self@.archive_name,
                    model: row@.model,
                },
            ),
    {
        if !self.connected {
            return None;
        }
        Some(
            Action::SaveArtifact {
                archive_name: self.archive_name.clone(),
                model: row.model.clone(),
            },
        )
    }

    /// Whether an archive has been named that could be opened.
    pub fn can_open(&self) -> (yes: bool)
        ensures
            yes == (self@.archive_name.len() > 0),
    {
        !self.archive_name.as_str().is_empty()
    }

    /// The question whether to create the archive.
    pub fn create_question(&self) -> (text: String)
        ensures
            text@ == "Archive label '"@ + self@.archive_name + "' not found. Create it?"@,
    {
        let mut text = "Archive label '".to_owned();
        text.append(self.archive_name.as_str());
        text.append("' not found. Create it?");
        text
    }

    /// Takes the answer to the question whether to create the archive: with
    /// consent it is opened with the demo data.
    pub fn answer_create(&mut self, yes: bool) -> (action: Option<Action>)
        ensures
            final(self)@ == (ManagerView { show_confirm: false, ..old(self)@ }),
            action_view(action) == if yes {
                if_connected(
                    old(self)@,
                    ActionView::OpenArchive {
                        archive_name: old(self)@.archive_name,
                        seed: true,
                    },
                )
            } else {
                None
            },
    {
        self.show_confirm = false;
        if yes {
            self.open_archive_op(true)
        } else {
            None
        }
    }

    /// What is wrong with an archive that has to be migrated.
    pub fn mismatch_text(&self) -> (text: String)
        ensures
            text@ == "Archive '"@ + self@.archive_name
                + "' has a schema mismatch with schema.toml."@,
    {
        let mut text = "Archive '".to_owned();
        text.append(self.archive_name.as_str());
        text.append("' has a schema mismatch with schema.toml.");
        text
    }

    /// What the migration removes, where it removes anything.
    pub fn removal_text(&self) -> (text: Option<String>)
        ensures
            match text {
                Some(t) => {
                    &&& self@.fields_to_remove.len() > 0
                    &&& t@
                        == "DESTRUCTIVE: The following fields will be permanently REMOVED:\n"@
                        + joined(self@.fields_to_remove, ", "@)
                },
                None => self@.fields_to_remove.len() == 0,
            },
    {
        if self.migration_fields_to_remove.len() == 0 {
            return None;
        }
        let mut text =
            "DESTRUCTIVE: The following fields will be permanently REMOVED:\n".to_owned();
        text.append(join(&self.migration_fields_to_remove, ", ").as_str());
        Some(text)
    }

    /// What the migration adds, where it adds anything.
    pub fn addition_text(&self) -> (text: Option<String>)
        ensures
            match text {
                Some(t) => {
                    &&& self@.fields_to_add.len() > 0
                    &&& t@ == "The following new fields will be added:\n"@ + joined(
                        self@.fields_to_add,
                        ", "@,
                    )
                },
                None => self@.fields_to_add.len() == 0,
            },
    {
        if self.migration_fields_to_add.len() == 0 {
            return None;
        }
        let mut text = "The following new fields will be added:\n".to_owned();
        text.append(join(&self.migration_fields_to_add, ", ").as_str());
        Some(text)
    }

    /// Takes the answer to the question whether to migrate the archive: with
    /// consent, what the question named is removed and added.
    pub fn answer_migration(&mut self, yes: bool) -> (action: Option<Action>)
        ensures
            final(self)@ == after_migration_answer(old(self)@, yes),
            old(self)@.well_formed() ==> final(self)@.well_formed(),
            action_view(action) == if yes {
                if_connected(
                    old(self)@,
                    ActionView::RunMigration {
                        archive_name: old(self)@.archive_name,
                        fields_to_add: old(self)@.fields_to_add,
                        fields_to_remove: old(self)@.fields_to_remove,
                    },
                )
            } else {
                None
            },
    {
        self.show_migration_confirm = false;
        if yes {
            let to_add = copy_of(&self.migration_fields_to_add);
            let to_remove = copy_of(&self.migration_fields_to_remove);
            self.run_migration_op(to_add, to_remove)
        } else {
            self.migration_fields_to_remove = Vec::new();
            self.migration_fields_to_add = Vec::new();
            assert(self@.fields_to_remove =~= Seq::empty());
            assert(self@.fields_to_add =~= Seq::empty());
            None
        }
    }

    /// The title of the window, once after the archive has been opened.
    pub fn take_title(&mut self) -> (title: Option<String>)
        ensures
            final(self)@ == (ManagerView { archive_just_opened: false, ..old(self)@ }),
            match title {
                Some(text) => {
                    &&& old(self)@.archive_just_opened
                    &&& text@ == "Graph Archive - "@ + old(self)@.archive_name
                },
                None => !old(self)@.archive_just_opened,
            },
    {
        if !self.archive_just_opened {
            return None;
        }
        self.archive_just_opened = false;
        let mut title = "Graph Archive - ".to_owned();
        title.append(self.archive_name.as_str());
        Some(title)
    }

    /// Opens the search window, or closes it.
    pub fn toggle_search(&mut self)
        ensures
            final(self)@ == (ManagerView { search_open: !old(self)@.search_open, ..old(self)@ }),
    {
        self.search_open = !self.search_open;
    }

    /// Loads the list anew for what is searched for.
    pub fn search_changed(&self) -> (action: Option<Action>)
        ensures
            action_view(action) == if_connected(
                self@,
                ActionView::LoadList {
                    archive_name: self@.archive_name,
                    search: self@.search_query,
                },
            ),
    {
        if !self.connected {
            return None;
        }
        Some(
            Action::LoadList {
                archive_name: self.archive_name.clone(),
                search: self.search_query.clone(),
            },
        )
    }

    /// Shows an artifact in the detail window.
    pub fn open_detail(&mut self, row: ArtifactRow)
        ensures
            final(self)@ == (ManagerView { detail_item: Some(row@), ..old(self)@ }),
    {
        self.detail_item = Some(row);
    }

    /// Closes the detail window, and with it any edit.
    pub fn close_detail(&mut self)
        ensures
            final(self)@ == (ManagerView {
                detail_item: None,
                detail_edit_field: None,
                ..old(self)@
            }),
    {
        self.detail_item = None;
        self.detail_edit_field = None;
    }

    /// Whether a field is being edited.
    pub fn is_editing(&self, i: usize) -> (yes: bool)
        requires
            i < self@.schema.len(),
        ensures
            yes == (self@.detail_edit_field == Some(self@.schema[i as int].id)),
    {
        match &self.detail_edit_field {
            Some(field) => field.id == self.schema.features[i].id,
            None => false,
        }
    }

    /// Starts to edit a field of an artifact.
    pub fn begin_edit(&mut self, row: &ArtifactRow, i: usize)
        requires
            i < old(self)@.schema.len(),
        ensures
            ({
                let f = old(self)@.schema[i as int];
                final(self)@ == ManagerView {
                    detail_edit_field: Some(f.id),
                    detail_edit_buf: edit_start(f, row@.model.fields).0,
                    detail_edit_unit: edit_start(f, row@.model.fields).1,
                    ..old(self)@
                }
            }),
    {
        let id = self.schema.features[i].id.clone();
        let stored = row.model.get_field(id.as_str());
        let (buf, unit) = match &self.schema.features[i].ui_type {
            UiTypeDef::Unit { name: _, options } => split_unit(
                stored.as_str(),
                options.as_slice(),
            ),
            _ => (stored, String::new()),
        };
        self.detail_edit_field = Some(DetailEditField { id });
        self.detail_edit_buf = buf;
        self.detail_edit_unit = unit;
    }

    /// Ends the edit of a field of an artifact, which then holds the value
    /// that was put in.
    pub fn commit_edit(&mut self, row: &ArtifactRow, i: usize) -> (committed: ArtifactRow)
        requires
            i < old(self)@.schema.len(),
        ensures
            ({
                let f = old(self)@.schema[i as int];
                &&& committed@ == with_value(
                    row@,
                    f.id,
                    edited_value(f, old(self)@.detail_edit_buf, old(self)@.detail_edit_unit),
                )
                &&& final(self)@ == ManagerView {
                    detail_item: Some(committed@),
                    detail_edit_field: None,
                    ..old(self)@
                }
            }),
    {
        let mut value = self.detail_edit_buf.clone();
        if let UiTypeDef::Unit { name: _, options: _ } = &self.schema.features[i].ui_type {
            value.append(self.detail_edit_unit.as_str());
        }
        let mut fields = row.model.fields.clone();
        fields.insert(self.schema.features[i].id.clone(), value);
        let committed = ArtifactRow {
            model: DynamicModel {
                id: row.model.id.clone(),
                is_archived: row.model.is_archived,
                fields,
            },
            selected: row.selected,
        };
        self.detail_edit_field = None;
        self.detail_item = Some(committed.clone());
        committed
    }
}

/// A copy of some texts.
fn copy_of(list: &Vec<String>) -> (copy: Vec<String>)
    ensures
        views(copy@) == views(list@),
{
    let mut copy: Vec<String> = Vec::new();
    let mut i: usize = 0;
    while i < list.len()
        invariant
            i <= list.len(),
            copy@.len() == i,
            forall|j: int| 0 <= j < i ==> (#[trigger] copy@[j])@ == list@[j]@,
        decreases list.len() - i,
    {
        copy.push(list[i].clone());
        i = i + 1;
    }
    assert(views(copy@) =~= views(list@));
    copy
}

/// An archive that stores nothing besides fields of the schema, and lacks some,
/// is migrated at once. Nothing is removed. What is added makes the archive
/// store exactly the fields of the schema, and none is added twice.
pub proof fn law_missing_fields_are_added(m: ManagerView, stored: Seq<Seq<char>>, i: int)
    requires
        m.connected,
        forall|k: int|
            0 <= k < stored.len() ==> exists|j: int|
                0 <= j < m.schema.len() && (#[trigger] m.schema[j]).id == #[trigger] stored[k],
        0 <= i < m.schema.len(),
        !stored.contains(m.schema[i].id),
    ensures
        ({
            let message = MessageView::ArchiveStatus { found: true, stored };
            &&& after_message(m, message) == m
            &&& step_after(m, message) is Some
            &&& match step_after(m, message)->0 {
                ActionView::RunMigration { archive_name, fields_to_add, fields_to_remove } => {
                    &&& archive_name == m.archive_name
                    &&& fields_to_remove.len() == 0
                    &&& fields_to_add.no_duplicates()
                    &&& forall|x: Seq<char>| #[trigger]
                        fields_to_add.contains(x) <==> !stored.contains(x) && exists|j: int|
                            0 <= j < m.schema.len() && (#[trigger] m.schema[j]).id == x
                    &&& forall|x: Seq<char>| #[trigger]
                        ids(m.schema).contains(x) <==> stored.contains(x)
                            || fields_to_add.contains(x)
                },
                _ => false,
            }
        }),
{
    law_missing_and_extra(m.schema, stored);
    law_migration_matches_schema(m.schema, stored);
    let missing = missing_fields(m.schema, stored);
    let extra = extra_fields(m.schema, stored);
    if extra.len() > 0 {
        assert(extra.contains(extra[0]));
        let k = choose|k: int| 0 <= k < stored.len() && stored[k] == extra[0];
        assert(stored[k] == extra[0]);
        let j = choose|j: int|
            0 <= j < m.schema.len() && (#[trigger] m.schema[j]).id == stored[k];
        assert(m.schema[j].id == extra[0]);
    }
    assert(m.schema[i].id == m.schema[i].id);
    assert(missing.contains(m.schema[i].id));
    assert(missing.len() > 0);
    assert forall|x: Seq<char>| !(#[trigger] extra.contains(x)) by {
        assert(extra.len() == 0);
    }
}

/// An archive that stores exactly the fields of the schema is opened as it is,
/// without the demo data.
pub proof fn law_matching_archive_opens(m: ManagerView, stored: Seq<Seq<char>>)
    requires
        m.connected,
        forall|x: Seq<char>| #[trigger]
            stored.contains(x) <==> exists|j: int|
                0 <= j < m.schema.len() && (#[trigger] m.schema[j]).id == x,
    ensures
        ({
            let message = MessageView::ArchiveStatus { found: true, stored };
            &&& after_message(m, message) == m
            &&& step_after(m, message) == Some(
                ActionView::OpenArchive { archive_name: m.archive_name, seed: false },
            )
        }),
{
    law_missing_and_extra(m.schema, stored);
    let missing = missing_fields(m.schema, stored);
    let extra = extra_fields(m.schema, stored);
    if missing.len() > 0 {
        assert(missing.contains(missing[0]));
    }
    if extra.len() > 0 {
        assert(extra.contains(extra[0]));
    }
}

/// An archive that stores a field that the schema does not have waits for the
/// user. What would be removed is all that is extra, what would be added is all
/// that is missing, each once, and nothing else changes.
pub proof fn law_extra_fields_wait(m: ManagerView, stored: Seq<Seq<char>>, k: int)
    requires
        0 <= k < stored.len(),
        forall|j: int| 0 <= j < m.schema.len() ==> (#[trigger] m.schema[j]).id != stored[k],
    ensures
        ({
            let message = MessageView::ArchiveStatus { found: true, stored };
            let next = after_message(m, message);
            &&& step_after(m, message) is None
            &&& next == ManagerView {
                show_migration_confirm: true,
                fields_to_remove: next.fields_to_remove,
                fields_to_add: next.fields_to_add,
                ..m
            }
            &&& next.fields_to_remove.no_duplicates()
            &&& forall|x: Seq<char>| #[trigger]
                next.fields_to_remove.contains(x) <==> stored.contains(x) && !exists|j: int|
                    0 <= j < m.schema.len() && (#[trigger] m.schema[j]).id == x
            &&& next.fields_to_add.no_duplicates()
            &&& forall|x: Seq<char>| #[trigger]
                next.fields_to_add.contains(x) <==> !stored.contains(x) && exists|j: int|
                    0 <= j < m.schema.len() && (#[trigger] m.schema[j]).id == x
        }),
{
    law_missing_and_extra(m.schema, stored);
    assert(stored.contains(stored[k]));
    assert(extra_fields(m.schema, stored).contains(stored[k]));
    assert(extra_fields(m.schema, stored).len() > 0);
}

/// An archive that does not exist waits for the user, whatever is said of its
/// fields, and nothing else changes.
pub proof fn law_unknown_archive_waits(m: ManagerView, stored: Seq<Seq<char>>)
    ensures
        ({
            let message = MessageView::ArchiveStatus { found: false, stored };
            &&& after_message(m, message) == (ManagerView { show_confirm: true, ..m })
            &&& step_after(m, message) is None
        }),
{
}

/// Without a connection no archive is migrated or opened, and where the user
/// need not be asked, nothing changes either.
pub proof fn law_nothing_without_connection(m: ManagerView, found: bool, stored: Seq<Seq<char>>)
    requires
        !m.connected,
    ensures
        step_after(m, MessageView::ArchiveStatus { found, stored }) is None,
        found && (forall|k: int|
            0 <= k < stored.len() ==> exists|j: int|
                0 <= j < m.schema.len() && (#[trigger] m.schema[j]).id == #[trigger] stored[k])
            ==> after_message(m, MessageView::ArchiveStatus { found, stored }) == m,
{
    let extra = extra_fields(m.schema, stored);
    law_missing_and_extra(m.schema, stored);
    if extra.len() > 0 {
        assert(extra.contains(extra[0]));
        let k = choose|k: int| 0 <= k < stored.len() && stored[k] == extra[0];
        assert(stored[k] == extra[0]);
    }
}

/// Every step but the answer to an open archive needs the connection, and is
/// then taken as it is.
pub proof fn law_if_connected(m: ManagerView, action: ActionView)
    ensures
        m.connected ==> if_connected(m, action) == Some(action),
        !m.connected ==> if_connected(m, action) is None,
{
}

/// The connection is noted, and nothing else changes or follows.
pub proof fn law_connected(m: ManagerView)
    ensures
        after_message(m, MessageView::Connected) == (ManagerView { connected: true, ..m }),
        step_after(m, MessageView::Connected) is None,
{
}

/// An archive that has been opened is shown, and the whole of its list is
/// loaded.
pub proof fn law_opened(m: ManagerView)
    ensures
        after_message(m, MessageView::Opened) == (ManagerView {
            archive_open: true,
            archive_just_opened: true,
            ..m
        }),
        step_after(m, MessageView::Opened) is Some,
        match step_after(m, MessageView::Opened)->0 {
            ActionView::LoadList { archive_name, search } => archive_name == m.archive_name
                && search.len() == 0,
            _ => false,
        },
{
}

/// An error goes behind those before it, with the next id and its text, and is
/// not closed. Nothing else changes or follows.
pub proof fn law_error_is_kept(m: ManagerView, text: Seq<char>)
    requires
        m.errors.next_id < u64::MAX,
    ensures
        ({
            let next = after_message(m, MessageView::Error(text));
            let n = m.errors.errors.len() as int;
            &&& step_after(m, MessageView::Error(text)) is None
            &&& next == ManagerView { errors: next.errors, ..m }
            &&& next.errors.next_id == m.errors.next_id + 1
            &&& next.errors.errors.len() == n + 1
            &&& next.errors.errors.take(n) == m.errors.errors
            &&& next.errors.errors[n].id == m.errors.next_id
            &&& next.errors.errors[n].message == text
            &&& next.errors.errors[n].details is None
            &&& !next.errors.errors[n].should_close
        }),
{
    let next = after_message(m, MessageView::Error(text));
    assert(next.errors.errors.take(m.errors.errors.len() as int) =~= m.errors.errors);
}

/// The answer closes the question. What was to be removed and added is kept
/// with consent, and forgotten without it. Nothing else changes.
pub proof fn law_migration_answer(m: ManagerView)
    ensures
        after_migration_answer(m, true) == (ManagerView { show_migration_confirm: false, ..m }),
        ({
            let next = after_migration_answer(m, false);
            &&& next.fields_to_remove.len() == 0
            &&& next.fields_to_add.len() == 0
            &&& next == ManagerView {
                show_migration_confirm: false,
                fields_to_remove: next.fields_to_remove,
                fields_to_add: next.fields_to_add,
                ..m
            }
        }),
{
}

/// A message can come unless an archive would be open without a connection, or
/// there is no id left for an error.
pub proof fn law_can_handle(m: ManagerView, message: MessageView)
    ensures
        !m.can_handle(message) <==> (message is Opened && !m.connected) || (message is Error
            && m.errors.next_id == u64::MAX),
{
}

/// At the start there is no connection, no archive, no question, no search, no
/// edit and no error.
pub proof fn law_initial(features: Seq<FeatureView>)
    ensures
        ({
            let m = initial(features);
            &&& m.schema == features
            &&& !m.connected && !m.archive_open && !m.archive_just_opened && !m.search_open
            &&& !m.show_confirm && !m.show_migration_confirm
            &&& m.archive_name.len() == 0 && m.search_query.len() == 0
            &&& m.fields_to_remove.len() == 0 && m.fields_to_add.len() == 0
            &&& m.detail_item is None && m.detail_edit_field is None
            &&& m.detail_edit_buf.len() == 0 && m.detail_edit_unit.len() == 0
            &&& m.errors.errors.len() == 0 && m.errors.next_id == 0
        }),
{
}

/// An edit starts from the whole value of a field without units. Of a field with
/// a unit it starts from the amount, and from the longest of the options that
/// the value ends with.
pub proof fn law_edit_starts_from_value(f: FeatureView, fields: Map<Seq<char>, Seq<char>>)
    ensures
        ({
            let stored = if fields.contains_key(f.id) {
                fields[f.id]
            } else {
                Seq::empty()
            };
            let (buf, unit) = edit_start(f, fields);
            match f.ui_type {
                UiTypeView::Unit { name: _, options } => {
                    &&& buf + unit == stored
                    &&& unit.len() == 0 || options.contains(unit)
                    &&& forall|k: int|
                        0 <= k < options.len() && (#[trigger] options[k]).is_suffix_of(stored)
                            ==> options[k].len() <= unit.len()
                },
                _ => buf == stored && unit.len() == 0,
            }
        }),
{
    if let UiTypeView::Unit { name: _, options } = f.ui_type {
        let stored = value_or_empty(fields, f.id);
        law_split_parts(stored, options);
        assert forall|k: int|
            0 <= k < options.len() && (#[trigger] options[k]).is_suffix_of(
                stored,
            ) implies options[k].len() <= unit_of(stored, options).len() by {
            let tail = options[k];
            assert(stored.skip(stored.len() - tail.len()) =~= tail);
            assert(is_suffix(tail, stored));
        }
    }
}

/// An edit gives a field what was put in, followed by the unit where the field
/// has one.
pub proof fn law_edit_gives_value(f: FeatureView, buf: Seq<char>, unit: Seq<char>)
    ensures
        f.ui_type is Unit ==> edited_value(f, buf, unit) == buf + unit,
        !(f.ui_type is Unit) ==> edited_value(f, buf, unit) == buf,
{
}

/// What the manager holds is what each of its parts holds.
pub proof fn law_manager_view(m: ArchiveManager)
    ensures
        m@.schema == m.schema@,
        m@.connected == m.connected,
        m@.archive_name == m.archive_name@,
        m@.show_confirm == m.show_confirm,
        m@.show_migration_confirm == m.show_migration_confirm,
        m@.fields_to_remove == views(m.migration_fields_to_remove@),
        m@.fields_to_add == views(m.migration_fields_to_add@),
        m@.archive_open == m.archive_open,
        m@.search_open == m.search_open,
        m@.search_query == m.search_query@,
        m@.archive_just_opened == m.archive_just_opened,
        m.detail_item is Some ==> m@.detail_item == Some(m.detail_item->0@),
        m.detail_item is None ==> m@.detail_item is None,
        m.detail_edit_field is Some ==> m@.detail_edit_field == Some(m.detail_edit_field->0.id@),
        m.detail_edit_field is None ==> m@.detail_edit_field is None,
        m@.detail_edit_buf == m.detail_edit_buf@,
        m@.detail_edit_unit == m.detail_edit_unit@,
        m@.errors == m.error_propagator@,
{
}

/// What a step holds is what each of its parts holds.
pub proof fn law_action_view(action: Action)
    ensures
        action_view(None) is None,
        action_view(Some(action)) == Some(action@),
        match action {
            Action::CheckArchive { archive_name } => action@ == (ActionView::CheckArchive {
                archive_name: archive_name@,
            }),
            Action::RunMigration { archive_name, fields_to_add, fields_to_remove } => action@ == (
            ActionView::RunMigration {
                archive_name: archive_name@,
                fields_to_add: views(fields_to_add@),
                fields_to_remove: views(fields_to_remove@),
            }),
            Action::OpenArchive { archive_name, seed } => action@ == (ActionView::OpenArchive {
                archive_name: archive_name@,
                seed,
            }),
            Action::LoadList { archive_name, search } => action@ == (ActionView::LoadList {
                archive_name: archive_name@,
                search: search@,
            }),
            Action::SaveArtifact { archive_name, model } => action@ == (ActionView::SaveArtifact {
                archive_name: archive_name@,
                model: model@,
            }),
        },
{
}

/// What a message holds is what each of its parts holds.
pub proof fn law_message_view(message: DbMessage)
    ensures
        match message {
            DbMessage::Connected => message@ is Connected,
            DbMessage::ArchiveStatus(status) => message@ == (MessageView::ArchiveStatus {
                found: status.exists,
                stored: views(status.property_fields@),
            }),
            DbMessage::Opened => message@ is Opened,
            DbMessage::Error(text) => message@ == MessageView::Error(text@),
        },
{
}

/// In a well formed state the user is asked about a migration only if it removes
/// something, an archive is open only over a connection, its title is only due
/// while it is open, and the ids of the errors are in order.
pub proof fn law_well_formed(m: ManagerView)
    ensures
        m.well_formed() <==> {
            &&& m.show_migration_confirm ==> m.fields_to_remove.len() > 0
            &&& m.archive_open ==> m.connected
            &&& m.archive_just_opened ==> m.archive_open
            &&& m.errors.well_formed()
        },
{
}

} // verus!
