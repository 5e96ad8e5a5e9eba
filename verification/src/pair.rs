//! Coordinate pairs written as text, such as `400x600` or `1.0,0.5`.

use std::str::FromStr;
use vstd::prelude::*;

verus! {

/// Whether `text` is `left`, then one `separator`, then `right`, with no
/// `separator` inside `left`: the split at the first occurrence.
pub open spec fn splits_at_first(
    text: Seq<char>,
    separator: char,
    left: Seq<char>,
    right: Seq<char>,
) -> bool {
    &&& text == left + seq![separator] + right
    &&& !left.contains(separator)
}

/// A text has at most one split at the first `separator`.
pub proof fn lemma_split_is_unique(
    text: Seq<char>,
    separator: char,
    left: Seq<char>,
    right: Seq<char>,
    other_left: Seq<char>,
    other_right: Seq<char>,
)
    requires
        splits_at_first(text, separator, left, right),
        splits_at_first(text, separator, other_left, other_right),
    ensures
        left == other_left,
        right == other_right,
{
    let one = left + seq![separator] + right;
    let two = other_left + seq![separator] + other_right;
    assert(one == two);
    if left.len() < other_left.len() {
        assert(one[left.len() as int] == separator);
        assert(two[left.len() as int] == other_left[left.len() as int]);
        assert(other_left.contains(separator));
    }
    if other_left.len() < left.len() {
        assert(two[other_left.len() as int] == separator);
        assert(one[other_left.len() as int] == left[other_left.len() as int]);
        assert(left.contains(separator));
    }
    assert(one.len() == two.len());
    assert forall|i: int| 0 <= i < left.len() implies left[i] == other_left[i] by {
        assert(one[i] == left[i]);
        assert(two[i] == other_left[i]);
    }
    assert(left =~= other_left);
    assert forall|i: int| 0 <= i < right.len() implies right[i] == other_right[i] by {
        assert(one[left.len() + 1 + i] == right[i]);
        assert(two[left.len() + 1 + i] == other_right[i]);
    }
    assert(right =~= other_right);
}

/// Cuts `text` at the first `separator`, which is dropped.
///
/// Gives nothing exactly when `text` holds no `separator`.
pub fn split_pair<'a>(text: &'a str, separator: char) -> (halves: Option<(&'a str, &'a str)>)
    ensures
        halves is None <==> !text@.contains(separator),
        match halves {
            Some((left, right)) => splits_at_first(text@, separator, left@, right@),
            None => true,
        },
{
    let count: usize = text.unicode_len();
    let mut at: usize = 0;
    while at < count
        invariant
            count == text@.len(),
            at <= count,
            forall|j: int| 0 <= j < at ==> text@[j] != separator,
        decreases count - at,
    {
        if text.get_char(at) == separator {
            let left = text.substring_char(0, at);
            let right = text.substring_char(at + 1, count);
            proof {
                assert(text@ =~= left@ + seq![separator] + right@);
                assert(text@[at as int] == separator);
            }
            return Some((left, right));
        }
        at += 1;
    }
    None
}

/// Reads one value of `T` from `text` with `T`'s own `FromStr::from_str`, and
/// keeps the value where that succeeded. What counts as a well-formed `T` is
/// for `T` to say, so nothing is claimed of the outcome.
#[verifier::external_body]
fn parse_value<T: FromStr>(text: &str) -> (value: Option<T>) {
    match T::from_str(text) {
        Ok(value) => Some(value),
        Err(_) => None,
    }
}

/// The pair of two readings, where both succeeded.
pub open spec fn both<T>(left: Option<T>, right: Option<T>) -> Option<(T, T)> {
    match (left, right) {
        (Some(x), Some(y)) => Some((x, y)),
        _ => None,
    }
}

/// Joins the readings of the two halves: a pair only where both are there.
pub fn pair_of<T>(left: Option<T>, right: Option<T>) -> (pair: Option<(T, T)>)
    ensures
        pair == both(left, right),
{
    match (left, right) {
        (Some(x), Some(y)) => Some((x, y)),
        _ => None,
    }
}

/// Reads `text` as `<left><separator><right>`, where both sides are values of
/// `T` as `T`'s `from_str` reads them. The split is at the first `separator`.
///
/// Without a `separator` in `text` there is no pair. With one, each half is
/// handed to `T` as it stands, and the pair is the two readings joined: there
/// exactly when `T` accepted both halves, and then made of their values.
pub fn parse_pair<T: FromStr>(text: &str, separator: char) -> (pair: Option<(T, T)>)
    ensures
        !text@.contains(separator) ==> pair is None,
        forall|left: Seq<char>, right: Seq<char>| #[trigger]
            splits_at_first(text@, separator, left, right) ==> exists|
                first: Option<T>,
                second: Option<T>,
            |
                is_reading(left, first) && is_reading(right, second) && pair == #[trigger] both(
                    first,
                    second,
                ),
{
    match split_pair(text, separator) {
        None => {
            proof {
                assert forall|l: Seq<char>, r: Seq<char>| #[trigger]
                    splits_at_first(text@, separator, l, r) implies false by {
                    assert(text@[l.len() as int] == separator);
                }
            }
            None
        },
        Some((left, right)) => {
            let first = parse_value::<T>(left);
            let second = parse_value::<T>(right);
            let pair = pair_of(first, second);
            proof {
                assert(is_reading(left@, first));
                assert(is_reading(right@, second));
                assert forall|l: Seq<char>, r: Seq<char>| #[trigger]
                    splits_at_first(text@, separator, l, r) implies l == left@ && r == right@ by {
                    lemma_split_is_unique(text@, separator, l, r, left@, right@);
                }
            }
            pair
        },
    }
}

/// Whether `value` is a reading of `text` as a `T`: what `T`'s `from_str` gave
/// when it was handed `text`, kept where it succeeded. Only a call on `text`
/// shows a reading of it; what `T` accepts is not said here.
pub closed spec fn is_reading<T: FromStr>(text: Seq<char>, value: Option<T>) -> bool {
    exists|written: &str| #[trigger]
        call_ensures(parse_value::<T>, (written,), value) && written@ == text
}

} // verus!
