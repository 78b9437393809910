//! How the fields that an archive stores are brought in line with its schema.

use vstd::prelude::*;
use vstd::string::*;

use crate::schema::{ids, FeatureView, Schema};
use crate::text::{same_text, views};

verus! {

/// The elements of `a` that are not in `b`, each once, in the order in which
/// they first come.
pub open spec fn difference(a: Seq<Seq<char>>, b: Seq<Seq<char>>) -> Seq<Seq<char>>
    decreases a.len(),
{
    if a.len() == 0 {
        Seq::empty()
    } else {
        let earlier = difference(a.drop_last(), b);
        if b.contains(a.last()) || a.drop_last().contains(a.last()) {
            earlier
        } else {
            earlier.push(a.last())
        }
    }
}

/// The difference holds exactly what is in the first list and not in the
/// second, and holds nothing twice.
pub proof fn law_difference(a: Seq<Seq<char>>, b: Seq<Seq<char>>)
    ensures
        forall|x: Seq<char>| #[trigger]
            difference(a, b).contains(x) <==> a.contains(x) && !b.contains(x),
        difference(a, b).no_duplicates(),
    decreases a.len(),
{
    if a.len() > 0 {
        let front = a.drop_last();
        let earlier = difference(front, b);
        let all = difference(a, b);
        law_difference(front, b);
        assert forall|x: Seq<char>| #[trigger] all.contains(x) <==> a.contains(x) && !b.contains(
            x,
        ) by {
            if a.contains(x) {
                let i = choose|i: int| 0 <= i < a.len() && a[i] == x;
                if i < front.len() {
                    assert(front[i] == x);
                }
            }
            if front.contains(x) {
                let i = choose|i: int| 0 <= i < front.len() && front[i] == x;
                assert(a[i] == x);
            }
            assert(a[a.len() - 1] == a.last());
            if earlier.contains(x) {
                let i = choose|i: int| 0 <= i < earlier.len() && earlier[i] == x;
                assert(all[i] == x);
            }
            if all.contains(x) {
                let i = choose|i: int| 0 <= i < all.len() && all[i] == x;
                if i < earlier.len() {
                    assert(earlier[i] == x);
                }
            }
            if !b.contains(a.last()) && !front.contains(a.last()) {
                assert(all[earlier.len() as int] == a.last());
            }
        }
        assert forall|i: int, j: int| 0 <= i < j < all.len() implies all[i] != all[j] by {
            if j == earlier.len() {
                assert(earlier.contains(earlier[i]));
            }
        }
    }
}

/// Whether a text is among the first `upto` of a list.
fn holds(list: &Vec<String>, upto: usize, text: &str) -> (found: bool)
    requires
        upto <= list@.len(),
    ensures
        found == views(list@).take(upto as int).contains(text@),
{
    let ghost seen = views(list@).take(upto as int);
    let mut i: usize = 0;
    while i < upto
        invariant
            i <= upto <= list@.len(),
            seen == views(list@).take(upto as int),
            forall|j: int| 0 <= j < i ==> #[trigger] seen[j] != text@,
        decreases upto - i,
    {
        if same_text(list[i].as_str(), text) {
            assert(seen[i as int] == text@);
            return true;
        }
        i = i + 1;
    }
    false
}

/// The texts of `a` that are not in `b`, each once.
fn difference_of(a: &Vec<String>, b: &Vec<String>) -> (out: Vec<String>)
    ensures
        views(out@) == difference(views(a@), views(b@)),
{
    let mut out: Vec<String> = Vec::new();
    let mut i: usize = 0;
    assert(views(b@).take(b@.len() as int) =~= views(b@));
    assert(views(out@) =~= difference(views(a@).take(0), views(b@)));
    while i < a.len()
        invariant
            i <= a.len(),
            views(b@).take(b@.len() as int) == views(b@),
            views(out@) == difference(views(a@).take(i as int), views(b@)),
        decreases a.len() - i,
    {
        let ghost upto = views(a@).take(i + 1);
        let ghost before = views(out@);
        assert(upto.drop_last() =~= views(a@).take(i as int));
        assert(upto.last() == a@[i as int]@);
        if !holds(b, b.len(), a[i].as_str()) && !holds(a, i, a[i].as_str()) {
            out.push(a[i].clone());
            assert(views(out@) =~= before.push(a@[i as int]@));
        }
        i = i + 1;
    }
    assert(views(a@).take(i as int) =~= views(a@));
    out
}

/// The ids of a schema's fields.
fn schema_ids(schema: &Schema) -> (list: Vec<String>)
    ensures
        views(list@) == ids(schema@),
{
    let mut list: Vec<String> = Vec::new();
    let mut i: usize = 0;
    while i < schema.features.len()
        invariant
            i <= schema.features.len(),
            list@.len() == i,
            forall|j: int| 0 <= j < i ==> (#[trigger] list@[j])@ == schema@[j].id,
        decreases schema.features.len() - i,
    {
        list.push(schema.features[i].id.clone());
        i = i + 1;
    }
    assert(views(list@) =~= ids(schema@));
    list
}

/// The fields of the schema that the archive does not store.
pub open spec fn missing_fields(features: Seq<FeatureView>, stored: Seq<Seq<char>>) -> Seq<
    Seq<char>,
> {
    difference(ids(features), stored)
}

/// The fields that the archive stores and the schema does not have.
pub open spec fn extra_fields(features: Seq<FeatureView>, stored: Seq<Seq<char>>) -> Seq<
    Seq<char>,
> {
    difference(stored, ids(features))
}

/// What has to change for the archive to match its schema.
pub struct MigrationPlan {
    pub fields_to_add: Vec<String>,
    pub fields_to_remove: Vec<String>,
}

/// What has to change for an archive that stores some fields to match the
/// schema.
pub fn plan_migration(schema: &Schema, stored: &Vec<String>) -> (plan: MigrationPlan)
    ensures
        views(plan.fields_to_add@) == missing_fields(schema@, views(stored@)),
        views(plan.fields_to_remove@) == extra_fields(schema@, views(stored@)),
{
    let list = schema_ids(schema);
    MigrationPlan {
        fields_to_add: difference_of(&list, stored),
        fields_to_remove: difference_of(stored, &list),
    }
}

/// After the migration the archive stores exactly the fields of the schema,
/// and nothing is both added and removed.
pub proof fn law_migration_matches_schema(features: Seq<FeatureView>, stored: Seq<Seq<char>>)
    ensures
        forall|x: Seq<char>| #[trigger]
            ids(features).contains(x) <==> (stored.contains(x) && !extra_fields(
                features,
                stored,
            ).contains(x)) || missing_fields(features, stored).contains(x),
        forall|x: Seq<char>|
            !(extra_fields(features, stored).contains(x) && #[trigger] missing_fields(
                features,
                stored,
            ).contains(x)),
{
    law_difference(ids(features), stored);
    law_difference(stored, ids(features));
}

/// Nothing changes where the archive stores the fields of the schema already.
pub proof fn law_no_migration_needed(features: Seq<FeatureView>, stored: Seq<Seq<char>>)
    requires
        forall|x: Seq<char>| #[trigger] ids(features).contains(x) <==> stored.contains(x),
    ensures
        missing_fields(features, stored).len() == 0,
        extra_fields(features, stored).len() == 0,
{
    law_difference(ids(features), stored);
    law_difference(stored, ids(features));
    let missing = missing_fields(features, stored);
    let extra = extra_fields(features, stored);
    if missing.len() > 0 {
        assert(missing.contains(missing[0]));
    }
    if extra.len() > 0 {
        assert(extra.contains(extra[0]));
    }
}

/// The difference keeps the order of the first list, and takes each element
/// where it first comes.
pub proof fn law_difference_order(a: Seq<Seq<char>>, b: Seq<Seq<char>>, x: Seq<char>)
    ensures
        difference(Seq::empty(), b).len() == 0,
        b.contains(x) || a.contains(x) ==> difference(a.push(x), b) == difference(a, b),
        !b.contains(x) && !a.contains(x) ==> difference(a.push(x), b) == difference(a, b).push(x),
{
    assert(a.push(x).drop_last() =~= a);
}

/// The fields to add are those of the schema that the archive does not store,
/// the fields to remove are those that it stores and the schema does not have.
/// None is named twice.
pub proof fn law_missing_and_extra(features: Seq<FeatureView>, stored: Seq<Seq<char>>)
    ensures
        forall|x: Seq<char>| #[trigger]
            missing_fields(features, stored).contains(x) <==> !stored.contains(x) && exists|i: int|
                0 <= i < features.len() && (#[trigger] features[i]).id == x,
        forall|x: Seq<char>| #[trigger]
            extra_fields(features, stored).contains(x) <==> stored.contains(x) && !exists|i: int|
                0 <= i < features.len() && (#[trigger] features[i]).id == x,
        missing_fields(features, stored).no_duplicates(),
        extra_fields(features, stored).no_duplicates(),
{
    law_difference(ids(features), stored);
    law_difference(stored, ids(features));
    assert forall|x: Seq<char>| #[trigger] ids(features).contains(x) <==> exists|i: int|
        0 <= i < features.len() && (#[trigger] features[i]).id == x by {
        if ids(features).contains(x) {
            let i = choose|i: int| 0 <= i < ids(features).len() && ids(features)[i] == x;
            assert(features[i].id == x);
        }
        if exists|i: int| 0 <= i < features.len() && (#[trigger] features[i]).id == x {
            let i = choose|i: int| 0 <= i < features.len() && (#[trigger] features[i]).id == x;
            assert(ids(features)[i] == x);
        }
    }
}

/// What is missing comes in the order of the schema.
pub proof fn law_missing_order(features: Seq<FeatureView>, f: FeatureView, stored: Seq<Seq<char>>)
    ensures
        missing_fields(Seq::empty(), stored).len() == 0,
        ({
            let seen = stored.contains(f.id) || exists|i: int|
                0 <= i < features.len() && (#[trigger] features[i]).id == f.id;
            let before = missing_fields(features, stored);
            let after = missing_fields(features.push(f), stored);
            &&& seen ==> after == before
            &&& !seen ==> after == before.push(f.id)
        }),
{
    assert(ids(Seq::<FeatureView>::empty()) =~= Seq::empty());
    assert(ids(features.push(f)) =~= ids(features).push(f.id));
    law_difference_order(ids(features), stored, f.id);
    if ids(features).contains(f.id) {
        let i = choose|i: int| 0 <= i < ids(features).len() && ids(features)[i] == f.id;
        assert(features[i].id == f.id);
    }
    if exists|i: int| 0 <= i < features.len() && (#[trigger] features[i]).id == f.id {
        let i = choose|i: int| 0 <= i < features.len() && (#[trigger] features[i]).id == f.id;
        assert(ids(features)[i] == f.id);
    }
}

/// What is extra comes in the order in which it is stored.
pub proof fn law_extra_order(features: Seq<FeatureView>, stored: Seq<Seq<char>>, x: Seq<char>)
    ensures
        extra_fields(features, Seq::empty()).len() == 0,
        ({
            let known = stored.contains(x) || exists|i: int|
                0 <= i < features.len() && (#[trigger] features[i]).id == x;
            let before = extra_fields(features, stored);
            let after = extra_fields(features, stored.push(x));
            &&& known ==> after == before
            &&& !known ==> after == before.push(x)
        }),
{
    law_difference_order(stored, ids(features), x);
    if ids(features).contains(x) {
        let i = choose|i: int| 0 <= i < ids(features).len() && ids(features)[i] == x;
        assert(features[i].id == x);
    }
    if exists|i: int| 0 <= i < features.len() && (#[trigger] features[i]).id == x {
        let i = choose|i: int| 0 <= i < features.len() && (#[trigger] features[i]).id == x;
        assert(ids(features)[i] == x);
    }
}

} // verus!
