//! Errors that wait to be shown, each in a window of its own.

use vstd::prelude::*;
use vstd::string::*;

use crate::text::{decimal, law_decimal_injective, push_decimal};

verus! {

/// An error that waits to be shown or closed.
struct PendingError {
    id: u64,
    message: String,
    details: Option<String>,
    should_close: bool,
}

/// What an error holds.
pub struct ErrorView {
    pub id: u64,
    pub message: Seq<char>,
    pub details: Option<Seq<char>>,
    pub should_close: bool,
}

impl View for PendingError {
    type V = ErrorView;

    closed spec fn view(&self) -> ErrorView {
        ErrorView {
            id: self.id,
            message: self.message@,
            details: match self.details {
                Some(details) => Some(details@),
                None => None,
            },
            should_close: self.should_close,
        }
    }
}

impl Clone for PendingError {
    fn clone(&self) -> (copy: PendingError)
        ensures
            copy@ == self@,
    {
        PendingError {
            id: self.id,
            message: self.message.clone(),
            details: match &self.details {
                Some(details) => Some(details.clone()),
                None => None,
            },
            should_close: self.should_close,
        }
    }
}

/// What some errors hold.
spec fn error_views(errors: Seq<PendingError>) -> Seq<ErrorView> {
    errors.map_values(|e: PendingError| e@)
}

/// The errors that have not been closed, in the order in which they came.
pub struct ErrorPropagator {
    errors: Vec<PendingError>,
    next_id: u64,
}

/// What an [`ErrorPropagator`] holds.
pub struct ErrorsView {
    pub errors: Seq<ErrorView>,
    pub next_id: u64,
}

impl View for ErrorPropagator {
    type V = ErrorsView;

    closed spec fn view(&self) -> ErrorsView {
        ErrorsView { errors: error_views(self.errors@), next_id: self.next_id }
    }
}

impl ErrorsView {
    /// The ids grow from error to error and have all been given out.
    pub open spec fn well_formed(self) -> bool {
        &&& forall|i: int, j: int|
            0 <= i < j < self.errors.len() ==> (#[trigger] self.errors[i]).id < (
            #[trigger] self.errors[j]).id
        &&& forall|i: int|
            0 <= i < self.errors.len() ==> (#[trigger] self.errors[i]).id < self.next_id
    }
}

/// The title of an error's window.
pub open spec fn error_title(id: u64) -> Seq<char> {
    "Error #"@ + decimal(id as nat)
}

impl ErrorPropagator {
    #[verifier::type_invariant]
    spec fn in_order(self) -> bool {
        self@.well_formed()
    }

    /// No errors.
    pub fn new() -> (propagator: ErrorPropagator)
        ensures
            propagator@ == (ErrorsView { errors: Seq::empty(), next_id: 0 }),
    {
        let errors: Vec<PendingError> = Vec::new();
        assert(error_views(errors@) =~= Seq::empty());
        ErrorPropagator { errors, next_id: 0 }
    }

    /// Whether there is an id left for another error.
    pub fn has_room(&self) -> (yes: bool)
        ensures
            yes == (self@.next_id < u64::MAX),
    {
        self.next_id < u64::MAX
    }

    /// Adds an error, with the next id.
    pub fn push(&mut self, message: String, details: Option<String>)
        requires
            old(self)@.next_id < u64::MAX,
        ensures
            final(self)@ == (ErrorsView {
                errors: old(self)@.errors.push(
                    ErrorView {
                        id: old(self)@.next_id,
                        message: message@,
                        details: match details {
                            Some(text) => Some(text@),
                            None => None,
                        },
                        should_close: false,
                    },
                ),
                next_id: (old(self)@.next_id + 1) as u64,
            }),
    {
        proof {
            use_type_invariant(&*self);
        }
        let id = self.next_id;
        let mut errors: Vec<PendingError> = Vec::new();
        assert(error_views(errors@) =~= Seq::empty());
        std::mem::swap(&mut errors, &mut self.errors);
        let ghost before = errors@;
        errors.push(PendingError { id, message, details, should_close: false });
        assert(error_views(errors@) =~= error_views(before).push(errors@.last()@));
        self.next_id = id + 1;
        self.errors = errors;
    }

    /// The number of errors.
    pub fn len(&self) -> (n: usize)
        ensures
            n == self@.errors.len(),
            self@.well_formed(),
    {
        proof {
            use_type_invariant(self);
        }
        self.errors.len()
    }

    /// The title of the window of an error.
    pub fn title(&self, i: usize) -> (title: String)
        requires
            i < self@.errors.len(),
        ensures
            title@ == error_title(self@.errors[i as int].id),
    {
        let mut title = "Error #".to_owned();
        push_decimal(&mut title, self.errors[i].id);
        title
    }

    /// The message of an error.
    pub fn message(&self, i: usize) -> (message: String)
        requires
            i < self@.errors.len(),
        ensures
            message@ == self@.errors[i as int].message,
    {
        self.errors[i].message.clone()
    }

    /// The details of an error, where there is anything to show.
    pub fn details(&self, i: usize) -> (details: Option<String>)
        requires
            i < self@.errors.len(),
        ensures
            match details {
                Some(text) => self@.errors[i as int].details == Some(text@) && text@.len() > 0,
                None => match self@.errors[i as int].details {
                    Some(text) => text.len() == 0,
                    None => true,
                },
            },
    {
        match &self.errors[i].details {
            Some(text) => if text.as_str().is_empty() {
                None
            } else {
                Some(text.clone())
            },
            None => None,
        }
    }

    /// Marks an error for closing.
    pub fn close(&mut self, i: usize)
        requires
            i < old(self)@.errors.len(),
        ensures
            final(self)@ == (ErrorsView {
                errors: old(self)@.errors.update(
                    i as int,
                    ErrorView { should_close: true, ..old(self)@.errors[i as int] },
                ),
                ..old(self)@
            }),
    {
        proof {
            use_type_invariant(&*self);
        }
        let mut errors: Vec<PendingError> = Vec::new();
        assert(error_views(errors@) =~= Seq::empty());
        std::mem::swap(&mut errors, &mut self.errors);
        let ghost before = errors@;
        let mut closed = errors[i].clone();
        closed.should_close = true;
        errors[i] = closed;
        assert(error_views(errors@) =~= error_views(before).update(
            i as int,
            ErrorView { should_close: true, ..before[i as int]@ },
        ));
        self.errors = errors;
    }

    /// Removes the errors that are marked for closing.
    pub fn remove_closed(&mut self)
        ensures
            final(self)@ == (ErrorsView {
                errors: old(self)@.errors.filter(|e: ErrorView| !e.should_close),
                ..old(self)@
            }),
    {
        proof {
            use_type_invariant(&*self);
        }
        let ghost open = |e: ErrorView| !e.should_close;
        let ghost all = self@.errors;
        let mut errors: Vec<PendingError> = Vec::new();
        let mut i: usize = 0;
        assert(all.take(0) =~= Seq::empty());
        assert(error_views(errors@) =~= all.take(0).filter(open));
        while i < self.errors.len()
            invariant
                i <= self.errors.len(),
                all == error_views(self.errors@),
                self@.well_formed(),
                open == (|e: ErrorView| !e.should_close),
                error_views(errors@) == all.take(i as int).filter(open),
                (ErrorsView { errors: error_views(errors@), next_id: self.next_id }).well_formed(),
                forall|a: int, b: int|
                    0 <= a < errors@.len() && i <= b < all.len() ==> (#[trigger] error_views(
                        errors@,
                    )[a]).id < (#[trigger] all[b]).id,
            decreases self.errors.len() - i,
        {
            let ghost before = error_views(errors@);
            assert(all.take(i + 1) =~= all.take(i as int).push(all[i as int]));
            proof {
                all.take(i as int).lemma_filter_push(all[i as int], open);
            }
            if !self.errors[i].should_close {
                errors.push(self.errors[i].clone());
                assert(error_views(errors@) =~= before.push(all[i as int]));
            }
            i = i + 1;
        }
        assert(all.take(i as int) =~= all);
        self.errors = errors;
    }
}

impl Default for ErrorPropagator {
    fn default() -> (propagator: ErrorPropagator)
        ensures
            propagator@ == (ErrorsView { errors: Seq::empty(), next_id: 0 }),
    {
        ErrorPropagator::new()
    }
}

impl Clone for ErrorPropagator {
    fn clone(&self) -> (copy: ErrorPropagator)
        ensures
            copy@ == self@,
    {
        proof {
            use_type_invariant(self);
        }
        let mut errors: Vec<PendingError> = Vec::new();
        let mut i: usize = 0;
        while i < self.errors.len()
            invariant
                i <= self.errors.len(),
                errors@.len() == i,
                forall|j: int| 0 <= j < i ==> (#[trigger] errors@[j])@ == self.errors@[j]@,
            decreases self.errors.len() - i,
        {
            errors.push(self.errors[i].clone());
            i = i + 1;
        }
        assert(error_views(errors@) =~= error_views(self.errors@));
        ErrorPropagator { errors, next_id: self.next_id }
    }
}

/// No two errors have windows with one title, so that errors that come at the
/// same time are all shown.
pub proof fn law_titles_distinct(view: ErrorsView, i: int, j: int)
    requires
        view.well_formed(),
        0 <= i < j < view.errors.len(),
    ensures
        error_title(view.errors[i].id) != error_title(view.errors[j].id),
{
    let a = view.errors[i].id;
    let b = view.errors[j].id;
    let prefix = "Error #"@.len() as int;
    if error_title(a) == error_title(b) {
        assert(error_title(a).skip(prefix) =~= decimal(a as nat));
        assert(error_title(b).skip(prefix) =~= decimal(b as nat));
        law_decimal_injective(a as nat, b as nat);
    }
}

/// The title of an error's window ends with the decimal digits of its id.
pub proof fn law_error_title(id: u64)
    ensures
        error_title(id) == "Error #"@ + decimal(id as nat),
{
}

/// The ids are in order, so that no two errors have one, and the next id is
/// none of them.
pub proof fn law_ids_in_order(view: ErrorsView)
    ensures
        view.well_formed() <==> {
            &&& forall|i: int, j: int|
                0 <= i < j < view.errors.len() ==> (#[trigger] view.errors[i]).id < (
                #[trigger] view.errors[j]).id
            &&& forall|i: int|
                0 <= i < view.errors.len() ==> (#[trigger] view.errors[i]).id < view.next_id
        },
{
}

} // verus!
