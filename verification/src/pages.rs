//! Pages of artifacts: the rows of the list that is loaded while scrolling,
//! and the full listing for an export.

use vstd::prelude::*;
use vstd::string::*;

use crate::model::{model_views, DynamicModel, ModelView};

verus! {

/// The number of artifacts on a page of the list.
pub const PAGE_SIZE: usize = 25;

/// The number of artifacts on a page of the full listing.
pub const EXPORT_PAGE: usize = 500;

/// One artifact as shown in the list.
#[derive(Debug)]
pub struct ArtifactRow {
    pub model: DynamicModel,
    pub selected: bool,
}

/// What an [`ArtifactRow`] holds.
pub struct RowView {
    pub model: ModelView,
    pub selected: bool,
}

impl View for ArtifactRow {
    type V = RowView;

    open spec fn view(&self) -> RowView {
        RowView { model: self.model@, selected: self.selected }
    }
}

impl Clone for ArtifactRow {
    fn clone(&self) -> (copy: ArtifactRow)
        ensures
            copy@ == self@,
    {
        ArtifactRow { model: self.model.clone(), selected: self.selected }
    }
}

impl ArtifactRow {
    /// Selects the row, or takes the selection back.
    pub fn toggle_selected(&mut self)
        ensures
            final(self)@ == (RowView { selected: !old(self)@.selected, ..old(self)@ }),
    {
        self.selected = !self.selected;
    }
}

/// What some rows hold.
pub open spec fn row_views(rows: Seq<ArtifactRow>) -> Seq<RowView> {
    rows.map_values(|r: ArtifactRow| r@)
}

/// Artifacts as rows that are not selected.
pub open spec fn new_rows(models: Seq<ModelView>) -> Seq<RowView> {
    models.map_values(|m: ModelView| RowView { model: m, selected: false })
}

/// Where the page after a page of `count` artifacts begins, `None` where that
/// page was not full.
pub open spec fn cursor_after(skip: int, count: int) -> Option<int> {
    if count < PAGE_SIZE {
        None
    } else {
        Some(skip + count)
    }
}

/// The rows of a page that begins after the first `skip` artifacts, and where
/// the next page begins.
pub fn page_rows(skip: usize, models: Vec<DynamicModel>) -> (page: (
    Vec<ArtifactRow>,
    Option<usize>,
))
    requires
        models@.len() >= PAGE_SIZE ==> skip + models@.len() <= usize::MAX,
    ensures
        row_views(page.0@) == new_rows(model_views(models@)),
        match page.1 {
            Some(next) => cursor_after(skip as int, models@.len() as int) == Some(next as int),
            None => cursor_after(skip as int, models@.len() as int) is None,
        },
{
    let next = if models.len() < PAGE_SIZE {
        None
    } else {
        Some(skip + models.len())
    };
    let mut rows: Vec<ArtifactRow> = Vec::new();
    let mut i: usize = 0;
    while i < models.len()
        invariant
            i <= models.len(),
            rows@.len() == i,
            forall|j: int|
                0 <= j < i ==> (#[trigger] rows@[j])@ == (RowView {
                    model: models@[j]@,
                    selected: false,
                }),
        decreases models.len() - i,
    {
        rows.push(ArtifactRow { model: models[i].clone(), selected: false });
        i = i + 1;
    }
    assert(row_views(rows@) =~= new_rows(model_views(models@)));
    (rows, next)
}

/// A row after an artifact has changed: the rows with its id hold it.
pub open spec fn synced(row: RowView, updated: ModelView) -> RowView {
    if row.model.id == updated.id {
        RowView { model: updated, ..row }
    } else {
        row
    }
}

/// The rows after an artifact has changed.
pub open spec fn synced_rows(rows: Seq<RowView>, updated: ModelView) -> Seq<RowView> {
    rows.map_values(|r: RowView| synced(r, updated))
}

/// Puts a changed artifact in the place of the one with its id, wherever that
/// stands in the list.
pub fn sync_artifact_to_list(rows: &mut Vec<ArtifactRow>, updated: &DynamicModel)
    ensures
        row_views(final(rows)@) == synced_rows(row_views(old(rows)@), updated@),
{
    let ghost before = rows@;
    let mut i: usize = 0;
    while i < rows.len()
        invariant
            i <= rows.len(),
            rows@.len() == before.len(),
            forall|j: int| 0 <= j < i ==> (#[trigger] rows@[j])@ == synced(before[j]@, updated@),
            forall|j: int| i <= j < before.len() ==> #[trigger] rows@[j] == before[j],
        decreases rows.len() - i,
    {
        if rows[i].model.id == updated.id {
            let selected = rows[i].selected;
            rows[i] = ArtifactRow { model: updated.clone(), selected };
        }
        i = i + 1;
    }
    assert(row_views(rows@) =~= synced_rows(row_views(before), updated@));
}

/// Mirroring a changed artifact into the list keeps its length and what is
/// selected. Each row with the artifact's id holds the artifact, every other
/// row is as before.
pub proof fn law_sync_changes_one_artifact(rows: Seq<RowView>, updated: ModelView)
    ensures
        synced_rows(rows, updated).len() == rows.len(),
        forall|i: int|
            0 <= i < rows.len() ==> {
                let after = #[trigger] synced_rows(rows, updated)[i];
                &&& after.selected == rows[i].selected
                &&& rows[i].model.id == updated.id ==> after.model == updated
                &&& rows[i].model.id != updated.id ==> after == rows[i]
            },
{
}

/// The artifacts of an archive as they come in, page by page.
pub struct ExportPager {
    skip: usize,
    all: Vec<DynamicModel>,
    done: bool,
}

/// What an [`ExportPager`] holds.
pub struct PagerView {
    /// Where the next page begins.
    pub skip: int,
    /// The artifacts so far.
    pub all: Seq<ModelView>,
    /// Whether the last page has come in.
    pub done: bool,
}

impl View for ExportPager {
    type V = PagerView;

    closed spec fn view(&self) -> PagerView {
        PagerView { skip: self.skip as int, all: model_views(self.all@), done: self.done }
    }
}

/// No page has come in.
pub open spec fn no_pages() -> PagerView {
    PagerView { skip: 0, all: Seq::empty(), done: false }
}

/// The listing with one more page: it is the last one if it is not full.
pub open spec fn with_page(pager: PagerView, batch: Seq<ModelView>) -> PagerView {
    let done = batch.len() < EXPORT_PAGE;
    PagerView {
        skip: if done {
            pager.skip
        } else {
            pager.skip + EXPORT_PAGE
        },
        all: pager.all + batch,
        done,
    }
}

impl ExportPager {
    /// No more artifacts are skipped than have come in.
    #[verifier::type_invariant]
    spec fn in_step(self) -> bool {
        self.skip <= self.all@.len()
    }

    /// A listing of which no page has come in.
    pub fn new() -> (pager: ExportPager)
        ensures
            pager@ == no_pages(),
    {
        let pager = ExportPager { skip: 0, all: Vec::new(), done: false };
        assert(pager@.all =~= Seq::empty());
        pager
    }

    /// Where the next page begins.
    pub fn skip(&self) -> (skip: usize)
        ensures
            skip == self@.skip,
    {
        self.skip
    }

    /// Whether the last page has come in.
    pub fn is_done(&self) -> (done: bool)
        ensures
            done == self@.done,
    {
        self.done
    }

    /// Takes the next page.
    pub fn accept(self, batch: Vec<DynamicModel>) -> (next: ExportPager)
        ensures
            next@ == with_page(self@, model_views(batch@)),
    {
        proof {
            use_type_invariant(&self);
        }
        let done = batch.len() < EXPORT_PAGE;
        let mut all = self.all;
        let mut more = batch;
        all.append(&mut more);
        assert(model_views(all@) =~= model_views(self.all@) + model_views(batch@));
        assert(all@.len() == all.len() <= usize::MAX);
        let skip = if done {
            self.skip
        } else {
            self.skip + EXPORT_PAGE
        };
        ExportPager { skip, all, done }
    }

    /// The artifacts that have come in.
    pub fn into_models(self) -> (models: Vec<DynamicModel>)
        ensures
            model_views(models@) == self@.all,
    {
        self.all
    }
}

/// The page of a listing that begins after the first `skip` artifacts.
pub open spec fn page_of(listing: Seq<ModelView>, skip: int, size: int) -> Seq<ModelView> {
    if skip + size < listing.len() {
        listing.subrange(skip, skip + size)
    } else {
        listing.skip(skip)
    }
}

/// Asking for page after page of a listing misses nothing and takes nothing
/// twice: what has come in is the front of the listing up to where the next
/// page begins, and with the last page it is the whole listing.
pub proof fn law_export_covers_listing(pager: PagerView, listing: Seq<ModelView>)
    requires
        0 <= pager.skip <= listing.len(),
        pager.all == listing.take(pager.skip),
    ensures
        ({
            let next = with_page(pager, page_of(listing, pager.skip, EXPORT_PAGE as int));
            if next.done {
                next.all == listing
            } else {
                &&& pager.skip < next.skip <= listing.len()
                &&& next.all == listing.take(next.skip)
            }
        }),
{
    let next = with_page(pager, page_of(listing, pager.skip, EXPORT_PAGE as int));
    if next.done {
        assert(next.all =~= listing);
    } else {
        assert(next.all =~= listing.take(next.skip));
    }
}

/// Scrolling through a listing misses nothing and shows nothing twice: after
/// a page, what has been shown is the front of the listing up to the next
/// cursor, or the whole listing where there is none.
pub proof fn law_scroll_covers_listing(skip: int, listing: Seq<ModelView>)
    requires
        0 <= skip <= listing.len(),
    ensures
        ({
            let page = page_of(listing, skip, PAGE_SIZE as int);
            match cursor_after(skip, page.len() as int) {
                Some(next) => {
                    &&& skip < next <= listing.len()
                    &&& listing.take(skip) + page == listing.take(next)
                },
                None => listing.take(skip) + page == listing,
            }
        }),
{
    let page = page_of(listing, skip, PAGE_SIZE as int);
    match cursor_after(skip, page.len() as int) {
        Some(next) => {
            assert(listing.take(skip) + page =~= listing.take(next));
        },
        None => {
            assert(listing.take(skip) + page =~= listing);
        },
    }
}

/// A page of the list has room for twenty-five artifacts, one of the full
/// listing for five hundred.
pub proof fn law_page_sizes()
    ensures
        PAGE_SIZE == 25,
        EXPORT_PAGE == 500,
{
}

/// What a row holds is its artifact and whether it is selected.
pub proof fn law_row_view(row: ArtifactRow)
    ensures
        row@.model == row.model@,
        row@.selected == row.selected,
{
}

/// What some rows hold is what each of them holds, in order.
pub proof fn law_row_views(rows: Seq<ArtifactRow>)
    ensures
        row_views(rows).len() == rows.len(),
        forall|i: int| 0 <= i < rows.len() ==> #[trigger] row_views(rows)[i] == rows[i]@,
{
}

/// Each artifact has one row, in order, which is not selected.
pub proof fn law_new_rows(models: Seq<ModelView>)
    ensures
        new_rows(models).len() == models.len(),
        forall|i: int|
            0 <= i < models.len() ==> (#[trigger] new_rows(models)[i]).model == models[i]
                && !new_rows(models)[i].selected,
{
}

/// There is another page if and only if this one is full. It begins after what
/// has been shown.
pub proof fn law_cursor(skip: int, count: int)
    ensures
        count < PAGE_SIZE ==> cursor_after(skip, count) is None,
        count >= PAGE_SIZE ==> cursor_after(skip, count) == Some(skip + count),
{
}

/// A page that comes in goes behind what has come in before. The listing is
/// complete if and only if the page is not full.
pub proof fn law_with_page(pager: PagerView, batch: Seq<ModelView>)
    ensures
        with_page(pager, batch).all == pager.all + batch,
        with_page(pager, batch).done <==> batch.len() < EXPORT_PAGE,
        batch.len() < EXPORT_PAGE ==> with_page(pager, batch).skip == pager.skip,
        batch.len() >= EXPORT_PAGE ==> with_page(pager, batch).skip == pager.skip + EXPORT_PAGE,
{
}

/// A listing begins with its first artifact, with nothing in it.
pub proof fn law_no_pages()
    ensures
        no_pages().skip == 0,
        no_pages().all.len() == 0,
        !no_pages().done,
{
}

/// A page has the artifacts from where it begins, as many as it has room for.
pub proof fn law_page_of(listing: Seq<ModelView>, skip: int, size: int)
    requires
        0 <= skip <= listing.len(),
        0 <= size,
    ensures
        page_of(listing, skip, size).len() == if skip + size < listing.len() {
            size
        } else {
            listing.len() - skip
        },
        forall|i: int|
            0 <= i < page_of(listing, skip, size).len() ==> #[trigger] page_of(
                listing,
                skip,
                size,
            )[i] == listing[skip + i],
{
}

} // verus!
