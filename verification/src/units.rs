//! Values with a unit, such as `30cm`.

use vstd::prelude::*;
use vstd::string::*;

use crate::text::{ends_with, is_suffix, views};

verus! {

/// The longest of the options that the value ends with, empty where it ends
/// with none of them.
pub open spec fn unit_of(val: Seq<char>, options: Seq<Seq<char>>) -> Seq<char>
    decreases options.len(),
{
    if options.len() == 0 {
        Seq::empty()
    } else {
        let best = unit_of(val, options.drop_last());
        let last = options.last();
        if is_suffix(last, val) && last.len() > best.len() {
            last
        } else {
            best
        }
    }
}

/// What stands before the unit.
pub open spec fn amount_of(val: Seq<char>, options: Seq<Seq<char>>) -> Seq<char> {
    val.take(val.len() - unit_of(val, options).len())
}

/// The value is its amount followed by its unit, and no option that the value
/// ends with is longer than the unit.
pub proof fn law_split_parts(val: Seq<char>, options: Seq<Seq<char>>)
    ensures
        amount_of(val, options) + unit_of(val, options) == val,
        is_suffix(unit_of(val, options), val),
        unit_of(val, options).len() == 0 || options.contains(unit_of(val, options)),
        forall|i: int|
            0 <= i < options.len() && is_suffix(#[trigger] options[i], val) ==> options[i].len()
                <= unit_of(val, options).len(),
    decreases options.len(),
{
    let unit = unit_of(val, options);
    if options.len() > 0 {
        let earlier = options.drop_last();
        law_split_parts(val, earlier);
        assert forall|i: int|
            0 <= i < options.len() && is_suffix(#[trigger] options[i], val) implies options[i].len()
            <= unit.len() by {
            if i < earlier.len() {
                assert(earlier[i] == options[i]);
            }
        }
        if earlier.contains(unit) {
            let i = choose|i: int| 0 <= i < earlier.len() && earlier[i] == unit;
            assert(options[i] == unit);
        } else if unit.len() > 0 {
            assert(options[options.len() - 1] == unit);
        }
    } else {
        assert(val.skip(val.len() as int) =~= Seq::<char>::empty());
    }
    assert(amount_of(val, options) + unit =~= val);
}

/// Splits a stored value into its amount and its unit.
pub fn split_unit(val: &str, options: &[String]) -> (parts: (String, String))
    ensures
        parts.0@ == amount_of(val@, views(options@)),
        parts.1@ == unit_of(val@, views(options@)),
        parts.0@ + parts.1@ == val@,
{
    let mut unit = String::new();
    let mut i: usize = 0;
    while i < options.len()
        invariant
            i <= options.len(),
            unit@ == unit_of(val@, views(options@).take(i as int)),
        decreases options.len() - i,
    {
        let ghost upto = views(options@).take(i + 1);
        assert(upto.drop_last() =~= views(options@).take(i as int));
        assert(upto.last() == options@[i as int]@);
        if ends_with(val, options[i].as_str()) && options[i].as_str().unicode_len()
            > unit.as_str().unicode_len() {
            unit = options[i].clone();
        }
        i = i + 1;
    }
    assert(views(options@).take(i as int) =~= views(options@));
    proof {
        law_split_parts(val@, views(options@));
    }
    let n = val.unicode_len() - unit.as_str().unicode_len();
    let amount = val.substring_char(0, n);
    assert(amount@ =~= amount_of(val@, views(options@)));
    (amount.to_owned(), unit)
}

} // verus!
