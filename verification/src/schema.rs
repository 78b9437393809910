//! The schema of an archive: which fields an artifact has.

use vstd::prelude::*;
use vstd::string::*;

use crate::text::{same_text, views};

verus! {

/// How a field is edited.
#[derive(Clone, Debug, PartialEq)]
pub enum UiTypeDef {
    /// Free text.
    Text,
    /// One of a list of options.
    Dropdown { options: Vec<String> },
    /// A value followed by one of a list of units.
    Unit { name: String, options: Vec<String> },
}

/// A relation to a node of its own that holds the value of a field.
#[derive(Clone, Debug, PartialEq)]
pub struct RelationConfig {
    pub rel_type: String,
    pub target_label: String,
}

/// One field of an artifact.
#[derive(Clone, Debug)]
pub struct FeatureMetadata {
    pub id: String,
    pub label: String,
    pub ui_type: UiTypeDef,
    pub required: bool,
    /// Where this is set, the value is stored as a relation and not as a
    /// property of the artifact's node.
    pub relation: Option<RelationConfig>,
    /// Whether this field is the artifact's title.
    pub system_title: Option<bool>,
}

/// The fields of the artifacts of an archive, in order.
#[derive(Clone, Debug)]
pub struct Schema {
    pub features: Vec<FeatureMetadata>,
}

/// What a [`UiTypeDef`] holds.
pub enum UiTypeView {
    Text,
    Dropdown { options: Seq<Seq<char>> },
    Unit { name: Seq<char>, options: Seq<Seq<char>> },
}

/// What a [`RelationConfig`] holds.
pub struct RelationView {
    pub rel_type: Seq<char>,
    pub target_label: Seq<char>,
}

/// What a [`FeatureMetadata`] holds.
pub struct FeatureView {
    pub id: Seq<char>,
    pub label: Seq<char>,
    pub ui_type: UiTypeView,
    pub required: bool,
    pub relation: Option<RelationView>,
    pub system_title: Option<bool>,
}

impl View for UiTypeDef {
    type V = UiTypeView;

    open spec fn view(&self) -> UiTypeView {
        match self {
            UiTypeDef::Text => UiTypeView::Text,
            UiTypeDef::Dropdown { options } => UiTypeView::Dropdown { options: views(options@) },
            UiTypeDef::Unit { name, options } => UiTypeView::Unit {
                name: name@,
                options: views(options@),
            },
        }
    }
}

impl View for RelationConfig {
    type V = RelationView;

    open spec fn view(&self) -> RelationView {
        RelationView { rel_type: self.rel_type@, target_label: self.target_label@ }
    }
}

impl View for FeatureMetadata {
    type V = FeatureView;

    open spec fn view(&self) -> FeatureView {
        FeatureView {
            id: self.id@,
            label: self.label@,
            ui_type: self.ui_type@,
            required: self.required,
            relation: match self.relation {
                Some(r) => Some(r@),
                None => None,
            },
            system_title: self.system_title,
        }
    }
}

impl View for Schema {
    type V = Seq<FeatureView>;

    open spec fn view(&self) -> Seq<FeatureView> {
        self.features@.map_values(|f: FeatureMetadata| f@)
    }
}

impl Default for UiTypeDef {
    fn default() -> (ui_type: UiTypeDef)
        ensures
            ui_type is Text,
    {
        UiTypeDef::Text
    }
}

/// Why a schema is not valid.
#[derive(Debug)]
pub enum SchemaError {
    /// A field has an empty id.
    EmptyId,
    /// A field has the id of an earlier one.
    DuplicateId(String),
    /// No field is the title.
    MissingTitle,
    /// More than one field is the title.
    MultipleTitles,
}

/// What a [`SchemaError`] holds.
pub enum SchemaFault {
    EmptyId,
    DuplicateId(Seq<char>),
    MissingTitle,
    MultipleTitles,
}

impl View for SchemaError {
    type V = SchemaFault;

    open spec fn view(&self) -> SchemaFault {
        match self {
            SchemaError::EmptyId => SchemaFault::EmptyId,
            SchemaError::DuplicateId(id) => SchemaFault::DuplicateId(id@),
            SchemaError::MissingTitle => SchemaFault::MissingTitle,
            SchemaError::MultipleTitles => SchemaFault::MultipleTitles,
        }
    }
}

/// The sentence that tells a user what is wrong.
pub open spec fn fault_message(fault: SchemaFault) -> Seq<char> {
    match fault {
        SchemaFault::EmptyId => "Schema contains a feature with an empty ID!"@,
        SchemaFault::DuplicateId(id) => "Schema contains duplicate feature ID: '"@ + id + "'!"@,
        SchemaFault::MissingTitle =>
            "Schema is missing a required feature marked with system_title = true!"@,
        SchemaFault::MultipleTitles =>
            "Schema is invalid: multiple features are marked with system_title = true! Only one is allowed."@,
    }
}

impl SchemaError {
    /// The sentence that tells a user what is wrong.
    pub fn message(&self) -> (out: String)
        ensures
            out@ == fault_message(self@),
    {
        match self {
            SchemaError::EmptyId => "Schema contains a feature with an empty ID!".to_owned(),
            SchemaError::DuplicateId(id) => {
                let mut out = "Schema contains duplicate feature ID: '".to_owned();
                out.append(id.as_str());
                out.append("'!");
                out
            },
            SchemaError::MissingTitle =>
                "Schema is missing a required feature marked with system_title = true!".to_owned(),
            SchemaError::MultipleTitles =>
                "Schema is invalid: multiple features are marked with system_title = true! Only one is allowed.".to_owned(),
        }
    }
}

/// Whether a field is marked as the title.
pub open spec fn is_title(f: FeatureView) -> bool {
    f.system_title == Some(true)
}

/// The ids of the fields, in order.
pub open spec fn ids(features: Seq<FeatureView>) -> Seq<Seq<char>> {
    features.map_values(|f: FeatureView| f.id)
}

/// The fields that are marked as the title, in order.
pub open spec fn titles(features: Seq<FeatureView>) -> Seq<FeatureView> {
    features.filter(|f: FeatureView| is_title(f))
}

/// What is wrong with the id of the first field whose id is empty or that of
/// an earlier field.
pub open spec fn id_fault(features: Seq<FeatureView>) -> Option<SchemaFault>
    decreases features.len(),
{
    if features.len() == 0 {
        None
    } else {
        let earlier = features.drop_last();
        let id = features.last().id;
        if id_fault(earlier) is Some {
            id_fault(earlier)
        } else if id.len() == 0 {
            Some(SchemaFault::EmptyId)
        } else if ids(earlier).contains(id) {
            Some(SchemaFault::DuplicateId(id))
        } else {
            None
        }
    }
}

/// What is wrong with a schema: its ids come first, then the number of titles.
pub open spec fn schema_fault(features: Seq<FeatureView>) -> Option<SchemaFault> {
    if id_fault(features) is Some {
        id_fault(features)
    } else if titles(features).len() == 0 {
        Some(SchemaFault::MissingTitle)
    } else if titles(features).len() > 1 {
        Some(SchemaFault::MultipleTitles)
    } else {
        None
    }
}

/// The id of the title field, `title` where none is marked.
pub open spec fn title_id(features: Seq<FeatureView>) -> Seq<char> {
    if titles(features).len() > 0 {
        titles(features)[0].id
    } else {
        "title"@
    }
}

/// A fault among the first fields is a fault of the whole list.
proof fn lemma_fault_persists(features: Seq<FeatureView>, k: int)
    requires
        0 <= k <= features.len(),
        id_fault(features.take(k)) is Some,
    ensures
        id_fault(features) == id_fault(features.take(k)),
    decreases features.len(),
{
    if k == features.len() {
        assert(features.take(k) =~= features);
    } else {
        assert(features.drop_last().take(k) =~= features.take(k));
        lemma_fault_persists(features.drop_last(), k);
    }
}

/// One more field adds itself to the titles where it is one.
proof fn lemma_titles_step(features: Seq<FeatureView>, k: int)
    requires
        0 <= k < features.len(),
    ensures
        titles(features.take(k + 1)) == if is_title(features[k]) {
            titles(features.take(k)).push(features[k])
        } else {
            titles(features.take(k))
        },
{
    assert(features.take(k + 1) =~= features.take(k).push(features[k]));
    features.take(k).lemma_filter_push(features[k], |f: FeatureView| is_title(f));
}

/// The titles of the first fields come first among all titles.
proof fn lemma_first_title(features: Seq<FeatureView>, k: int)
    requires
        0 <= k <= features.len(),
        titles(features.take(k)).len() > 0,
    ensures
        titles(features).len() > 0,
        titles(features)[0] == titles(features.take(k))[0],
    decreases features.len() - k,
{
    if k == features.len() {
        assert(features.take(k) =~= features);
    } else {
        lemma_titles_step(features, k);
        lemma_first_title(features, k + 1);
    }
}

impl Schema {
    /// The id of the title field, `title` where none is marked.
    pub fn get_title_field_id(&self) -> (id: String)
        ensures
            id@ == title_id(self@),
    {
        let mut i: usize = 0;
        while i < self.features.len()
            invariant
                i <= self.features.len(),
                titles(self@.take(i as int)).len() == 0,
            decreases self.features.len() - i,
        {
            proof {
                lemma_titles_step(self@, i as int);
            }
            if self.features[i].system_title.unwrap_or(false) {
                proof {
                    lemma_first_title(self@, i + 1);
                }
                return self.features[i].id.clone();
            }
            i = i + 1;
        }
        assert(self@.take(i as int) =~= self@);
        "title".to_owned()
    }

    /// Checks that every id is set and occurs once, and that exactly one field
    /// is the title.
    pub fn validate(&self) -> (result: Result<(), SchemaError>)
        ensures
            match result {
                Ok(()) => schema_fault(self@) is None,
                Err(e) => schema_fault(self@) == Some(e@),
            },
    {
        let mut title_count: usize = 0;
        let mut i: usize = 0;
        while i < self.features.len()
            invariant
                i <= self.features.len(),
                title_count <= i,
                title_count == titles(self@.take(i as int)).len(),
                id_fault(self@.take(i as int)) is None,
            decreases self.features.len() - i,
        {
            let feature = &self.features[i];
            let ghost earlier = self@.take(i as int);
            let ghost upto = self@.take(i + 1);
            assert(upto.drop_last() =~= earlier);
            assert(upto.last() == feature@);
            if feature.id.as_str().is_empty() {
                proof {
                    lemma_fault_persists(self@, i + 1);
                }
                return Err(SchemaError::EmptyId);
            }
            if self.id_among_first(feature.id.as_str(), i) {
                proof {
                    lemma_fault_persists(self@, i + 1);
                }
                return Err(SchemaError::DuplicateId(feature.id.clone()));
            }
            proof {
                lemma_titles_step(self@, i as int);
            }
            if feature.system_title.unwrap_or(false) {
                title_count = title_count + 1;
            }
            i = i + 1;
        }
        assert(self@.take(i as int) =~= self@);
        if title_count == 0 {
            return Err(SchemaError::MissingTitle);
        }
        if title_count > 1 {
            return Err(SchemaError::MultipleTitles);
        }
        Ok(())
    }

    /// Whether one of the first `n` fields has an id.
    fn id_among_first(&self, id: &str, n: usize) -> (found: bool)
        requires
            n <= self.features.len(),
        ensures
            found == ids(self@.take(n as int)).contains(id@),
    {
        let mut i: usize = 0;
        while i < n
            invariant
                i <= n <= self.features.len(),
                forall|j: int| 0 <= j < i ==> (#[trigger] self@[j]).id != id@,
            decreases n - i,
        {
            if same_text(self.features[i].id.as_str(), id) {
                assert(ids(self@.take(n as int))[i as int] == id@);
                return true;
            }
            assert(self@[i as int].id != id@);
            i = i + 1;
        }
        assert forall|j: int| 0 <= j < n implies #[trigger] ids(self@.take(n as int))[j] != id@ by {
            assert(self@[j].id != id@);
        }
        false
    }
}

/// The ids have no fault if and only if none is empty and none occurs twice.
proof fn lemma_sound_ids(features: Seq<FeatureView>)
    ensures
        id_fault(features) is None <==> {
            &&& forall|i: int| 0 <= i < features.len() ==> (#[trigger] features[i]).id.len() > 0
            &&& ids(features).no_duplicates()
        },
    decreases features.len(),
{
    if features.len() > 0 {
        let earlier = features.drop_last();
        let n = features.len() - 1;
        lemma_sound_ids(earlier);
        assert(forall|i: int| 0 <= i < n ==> #[trigger] features[i] == earlier[i]);
        assert(forall|i: int| 0 <= i < n ==> #[trigger] ids(features)[i] == ids(earlier)[i]);
        assert(ids(features)[n] == features.last().id);
        if id_fault(features) is None {
            assert forall|i: int| 0 <= i < n implies ids(features)[i] != ids(features)[n] by {
                assert(ids(earlier)[i] == ids(features)[i]);
            }
        }
        if {
            &&& forall|i: int| 0 <= i < features.len() ==> (#[trigger] features[i]).id.len() > 0
            &&& ids(features).no_duplicates()
        } {
            assert forall|i: int| 0 <= i < n implies (#[trigger] earlier[i]).id.len() > 0 by {
                assert(features[i] == earlier[i]);
            }
            assert forall|i: int, j: int| 0 <= i < n && 0 <= j < n && i != j implies ids(
                earlier,
            )[i] != ids(earlier)[j] by {
                assert(ids(features)[i] != ids(features)[j]);
            }
            assert(features[n].id.len() > 0);
            if ids(earlier).contains(features.last().id) {
                let i = choose|i: int| 0 <= i < n && ids(earlier)[i] == features.last().id;
                assert(ids(features)[i] == ids(features)[n]);
            }
        }
    }
}

/// A schema is valid if and only if every id is set, no id occurs twice, and
/// exactly one field is the title.
pub proof fn law_validity(features: Seq<FeatureView>)
    ensures
        schema_fault(features) is None <==> {
            &&& forall|i: int| 0 <= i < features.len() ==> (#[trigger] features[i]).id.len() > 0
            &&& ids(features).no_duplicates()
            &&& titles(features).len() == 1
        },
{
    lemma_sound_ids(features);
}

/// The title field of a valid schema is one of its fields: the only one that
/// is marked.
pub proof fn law_title_of_valid_schema(features: Seq<FeatureView>)
    requires
        schema_fault(features) is None,
    ensures
        exists|i: int|
            {
                &&& 0 <= i < features.len()
                &&& is_title(#[trigger] features[i])
                &&& features[i].id == title_id(features)
                &&& forall|j: int|
                    0 <= j < features.len() && is_title(#[trigger] features[j]) ==> j == i
            },
{
    let pred = |f: FeatureView| is_title(f);
    let title = titles(features)[0];
    features.lemma_filter_pred(pred, 0);
    assert(titles(features).contains(title));
    features.lemma_filter_contains_rev(pred, title);
    let i = choose|i: int| 0 <= i < features.len() && features[i] == title;
    lemma_sound_ids(features);
    assert forall|j: int| 0 <= j < features.len() && is_title(#[trigger] features[j]) implies j == i by {
        features.lemma_filter_contains(pred, j);
        let k = choose|k: int| 0 <= k < titles(features).len() && titles(features)[k] == features[j];
        assert(k == 0);
        assert(ids(features)[i] == ids(features)[j]);
    }
}

/// What a test keeps of a list stands in the order of the list: an element that
/// is kept comes after those that are kept of what stands before it.
pub proof fn lemma_filter_index<T>(list: Seq<T>, test: spec_fn(T) -> bool, i: int)
    requires
        0 <= i < list.len(),
        test(list[i]),
    ensures
        list.take(i).filter(test).len() < list.filter(test).len(),
        list.filter(test)[list.take(i).filter(test).len() as int] == list[i],
    decreases list.len(),
{
    let front = list.drop_last();
    assert(list =~= front.push(list.last()));
    front.lemma_filter_push(list.last(), test);
    if i == list.len() - 1 {
        assert(list.take(i) =~= front);
    } else {
        assert(front.take(i) =~= list.take(i));
        assert(front[i] == list[i]);
        lemma_filter_index(front, test, i);
    }
}

/// What a test keeps of a list that has nothing to keep is nothing.
proof fn lemma_filter_none<T>(list: Seq<T>, test: spec_fn(T) -> bool)
    requires
        forall|i: int| 0 <= i < list.len() ==> !test(#[trigger] list[i]),
    ensures
        list.filter(test).len() == 0,
{
    if list.filter(test).len() > 0 {
        let kept = list.filter(test)[0];
        list.lemma_filter_pred(test, 0);
        assert(list.filter(test).contains(kept));
        list.lemma_filter_contains_rev(test, kept);
        let i = choose|i: int| 0 <= i < list.len() && list[i] == kept;
        assert(!test(list[i]));
    }
}

/// The ids are those of the fields, in order.
pub proof fn law_ids(features: Seq<FeatureView>)
    ensures
        ids(features).len() == features.len(),
        forall|i: int|
            0 <= i < features.len() ==> #[trigger] ids(features)[i] == features[i].id,
{
}

/// The title field is the first one that is marked with `system_title = true`,
/// and `title` where none is.
pub proof fn law_title_is_first_marked(features: Seq<FeatureView>)
    ensures
        forall|i: int|
            0 <= i < features.len() && (#[trigger] features[i]).system_title == Some(true) && (
            forall|j: int|
                0 <= j < i ==> (#[trigger] features[j]).system_title != Some(true)) ==> title_id(
                features,
            ) == features[i].id,
        (forall|j: int|
            0 <= j < features.len() ==> (#[trigger] features[j]).system_title != Some(true))
            ==> title_id(features) == "title"@,
{
    let test = |f: FeatureView| is_title(f);
    assert forall|i: int|
        0 <= i < features.len() && (#[trigger] features[i]).system_title == Some(true) && (
        forall|j: int| 0 <= j < i ==> (#[trigger] features[j]).system_title != Some(true)) implies title_id(
        features,
    ) == features[i].id by {
        let front = features.take(i);
        assert forall|j: int| 0 <= j < front.len() implies !test(#[trigger] front[j]) by {
            assert(front[j] == features[j]);
        }
        lemma_filter_none(front, test);
        lemma_filter_index(features, test, i);
    }
    if forall|j: int|
        0 <= j < features.len() ==> (#[trigger] features[j]).system_title != Some(true) {
        assert forall|j: int| 0 <= j < features.len() implies !test(#[trigger] features[j]) by {
            assert(features[j].system_title != Some(true));
        }
        lemma_filter_none(features, test);
    }
}

/// The fault of a schema is that of the first field whose id is empty or taken.
pub proof fn law_first_id_fault(features: Seq<FeatureView>, k: int)
    requires
        0 <= k < features.len(),
        forall|i: int| 0 <= i < k ==> (#[trigger] features[i]).id.len() > 0,
        forall|i: int, j: int|
            0 <= i < j < k ==> (#[trigger] features[i]).id != (#[trigger] features[j]).id,
    ensures
        features[k].id.len() == 0 ==> schema_fault(features) == Some(SchemaFault::EmptyId),
        features[k].id.len() > 0 && (exists|i: int|
            0 <= i < k && (#[trigger] features[i]).id == features[k].id) ==> schema_fault(features)
            == Some(SchemaFault::DuplicateId(features[k].id)),
{
    let front = features.take(k);
    let upto = features.take(k + 1);
    assert forall|i: int| 0 <= i < front.len() implies (#[trigger] front[i]).id.len() > 0 by {
        assert(front[i] == features[i]);
    }
    assert forall|i: int, j: int| 0 <= i < front.len() && 0 <= j < front.len() && i != j implies ids(
        front,
    )[i] != ids(front)[j] by {
        assert(ids(front)[i] == features[i].id);
        assert(ids(front)[j] == features[j].id);
    }
    lemma_sound_ids(front);
    assert(upto.drop_last() =~= front);
    assert(upto.last() == features[k]);
    if features[k].id.len() == 0 {
        lemma_fault_persists(features, k + 1);
    } else if exists|i: int| 0 <= i < k && (#[trigger] features[i]).id == features[k].id {
        let i = choose|i: int| 0 <= i < k && (#[trigger] features[i]).id == features[k].id;
        assert(ids(front)[i] == features[k].id);
        lemma_fault_persists(features, k + 1);
    }
}

/// Whether every id is set and occurs once.
pub open spec fn sound_ids(features: Seq<FeatureView>) -> bool {
    &&& forall|i: int| 0 <= i < features.len() ==> (#[trigger] features[i]).id.len() > 0
    &&& forall|i: int, j: int|
        0 <= i < j < features.len() ==> (#[trigger] features[i]).id != (#[trigger] features[j]).id
}

/// Sound ids have no fault.
proof fn lemma_no_id_fault(features: Seq<FeatureView>)
    requires
        sound_ids(features),
    ensures
        id_fault(features) is None,
        ids(features).no_duplicates(),
{
    assert forall|i: int, j: int| 0 <= i < features.len() && 0 <= j < features.len() && i
        != j implies ids(features)[i] != ids(features)[j] by {
        assert(ids(features)[i] == features[i].id);
        assert(ids(features)[j] == features[j].id);
    }
    lemma_sound_ids(features);
}

/// A schema with sound ids lacks a title where no field is marked with
/// `system_title = true`.
pub proof fn law_missing_title(features: Seq<FeatureView>)
    requires
        sound_ids(features),
        forall|i: int|
            0 <= i < features.len() ==> (#[trigger] features[i]).system_title != Some(true),
    ensures
        schema_fault(features) == Some(SchemaFault::MissingTitle),
{
    let test = |f: FeatureView| is_title(f);
    lemma_no_id_fault(features);
    assert forall|i: int| 0 <= i < features.len() implies !test(#[trigger] features[i]) by {
        assert(features[i].system_title != Some(true));
    }
    lemma_filter_none(features, test);
}

/// A schema with sound ids has too many titles where two fields are marked with
/// `system_title = true`.
pub proof fn law_multiple_titles(features: Seq<FeatureView>, i: int, j: int)
    requires
        sound_ids(features),
        0 <= i < j < features.len(),
        features[i].system_title == Some(true),
        features[j].system_title == Some(true),
    ensures
        schema_fault(features) == Some(SchemaFault::MultipleTitles),
{
    let test = |f: FeatureView| is_title(f);
    let front = features.take(j);
    lemma_no_id_fault(features);
    lemma_filter_index(features, test, j);
    assert(front[i] == features[i]);
    lemma_filter_index(front, test, i);
}

/// A schema with sound ids is valid where exactly one field is marked with
/// `system_title = true`.
pub proof fn law_single_title(features: Seq<FeatureView>, i: int)
    requires
        sound_ids(features),
        0 <= i < features.len(),
        features[i].system_title == Some(true),
        forall|j: int|
            0 <= j < features.len() && j != i ==> (#[trigger] features[j]).system_title != Some(
                true,
            ),
    ensures
        schema_fault(features) is None,
        title_id(features) == features[i].id,
{
    let test = |f: FeatureView| is_title(f);
    lemma_no_id_fault(features);
    assert forall|j: int| 0 <= j < features.len() && j != i implies !test(
        #[trigger] features[j],
    ) by {
        assert(features[j].system_title != Some(true));
    }
    lemma_one_kept(features, test, i);
    lemma_filter_index(features, test, i);
}

/// A test that keeps one element alone keeps a list of one.
proof fn lemma_one_kept<T>(list: Seq<T>, test: spec_fn(T) -> bool, i: int)
    requires
        0 <= i < list.len(),
        test(list[i]),
        forall|j: int| 0 <= j < list.len() && j != i ==> !test(#[trigger] list[j]),
    ensures
        list.filter(test).len() == 1,
    decreases list.len(),
{
    let front = list.drop_last();
    assert(list =~= front.push(list.last()));
    front.lemma_filter_push(list.last(), test);
    assert forall|j: int| 0 <= j < front.len() && j != i implies !test(#[trigger] front[j]) by {
        assert(front[j] == list[j]);
    }
    if i == list.len() - 1 {
        lemma_filter_none(front, test);
    } else {
        assert(front[i] == list[i]);
        assert(!test(list[list.len() - 1]));
        lemma_one_kept(front, test, i);
    }
}

/// Each fault has a message of its own, and that of a repeated id names it.
pub proof fn law_fault_messages(id: Seq<char>)
    ensures
        fault_message(SchemaFault::EmptyId) == "Schema contains a feature with an empty ID!"@,
        fault_message(SchemaFault::DuplicateId(id)) == "Schema contains duplicate feature ID: '"@
            + id + "'!"@,
        fault_message(SchemaFault::MissingTitle)
            == "Schema is missing a required feature marked with system_title = true!"@,
        fault_message(SchemaFault::MultipleTitles)
            == "Schema is invalid: multiple features are marked with system_title = true! Only one is allowed."@,
{
}

/// What a schema holds are its fields, in order, each with all that it says.
pub proof fn law_schema_view(schema: Schema, i: int)
    requires
        0 <= i < schema.features@.len(),
    ensures
        ({
            let feature = schema.features@[i];
            let view = schema@[i];
            &&& schema@.len() == schema.features@.len()
            &&& view.id == feature.id@
            &&& view.label == feature.label@
            &&& view.required == feature.required
            &&& view.system_title == feature.system_title
            &&& match feature.relation {
                Some(rel) => {
                    &&& view.relation is Some
                    &&& view.relation->0.rel_type == rel.rel_type@
                    &&& view.relation->0.target_label == rel.target_label@
                },
                None => view.relation is None,
            }
            &&& match feature.ui_type {
                UiTypeDef::Text => view.ui_type is Text,
                UiTypeDef::Dropdown { options } => view.ui_type == UiTypeView::Dropdown {
                    options: views(options@),
                },
                UiTypeDef::Unit { name, options } => view.ui_type == UiTypeView::Unit {
                    name: name@,
                    options: views(options@),
                },
            }
        }),
{
}

} // verus!
