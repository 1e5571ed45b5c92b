//! What the serialization derive decides for a type: the number that stands
//! on the wire for each variant of an enum, and which variant a number that
//! was read back names.
//!
//! Variants are numbered by position. A variant may ask for a number of its
//! own; it must be above its position, and the variants after it continue
//! from it.

use crate::bytes::{decimal, message_with_number};
use crate::error::ReadingError;
use crate::text::concat_str;
use vstd::prelude::*;

verus! {

/// Whether the number that variant `i` asks for, if any, is above its position.
pub open spec fn override_allowed(overrides: Seq<Option<usize>>, i: int) -> bool {
    overrides[i] matches Some(n) ==> n > i
}

/// The shift in effect after the first `k` variants: set by the last of them
/// that asks for a number, to that number less its position.
pub open spec fn shift_after(overrides: Seq<Option<usize>>, k: nat) -> int
    decreases k,
{
    if k == 0 {
        0
    } else {
        match overrides[k - 1] {
            Some(n) => n - (k - 1),
            None => shift_after(overrides, (k - 1) as nat),
        }
    }
}

/// The number of variant `i`: its position plus the shift in effect after it.
pub open spec fn variant_number(overrides: Seq<Option<usize>>, i: int) -> int {
    i + shift_after(overrides, (i + 1) as nat)
}

/// No variant asks for a number below the one it would take without asking.
pub open spec fn overrides_ascend(overrides: Seq<Option<usize>>) -> bool {
    forall|i: int|
        0 <= i < overrides.len() ==> (#[trigger] overrides[i] matches Some(n) ==> n >= i
            + shift_after(overrides, i as nat))
}

/// The wire number of each variant, where `overrides[i]` is the number that
/// variant `i` asks for. `Err(i)` names the first variant that asks for a
/// number not above its position.
pub fn variant_numbers(overrides: &Vec<Option<usize>>) -> (r: Result<Vec<usize>, usize>)
    requires
        forall|i: int|
            0 <= i < overrides.len() && (#[trigger] overrides@[i]) is Some ==> overrides@[i].unwrap()
                + overrides.len() <= usize::MAX,
    ensures
        match r {
            Ok(numbers) => {
                &&& forall|i: int| 0 <= i < overrides.len() ==> override_allowed(overrides@, i)
                &&& numbers.len() == overrides.len()
                &&& forall|i: int|
                    0 <= i < numbers.len() ==> numbers@[i] == variant_number(overrides@, i)
            },
            Err(i) => {
                &&& i < overrides.len()
                &&& !override_allowed(overrides@, i as int)
                &&& forall|j: int| 0 <= j < i ==> override_allowed(overrides@, j)
            },
        },
{
    let mut numbers: Vec<usize> = Vec::new();
    let mut shift: usize = 0;
    let mut i: usize = 0;
    while i < overrides.len()
        invariant
            i <= overrides.len(),
            numbers.len() == i,
            shift == shift_after(overrides@, i as nat),
            shift + overrides.len() <= usize::MAX,
            forall|j: int| 0 <= j < i ==> override_allowed(overrides@, j),
            forall|j: int| 0 <= j < i ==> numbers@[j] == variant_number(overrides@, j),
            forall|j: int|
                0 <= j < overrides.len() && (#[trigger] overrides@[j]) is Some
                    ==> overrides@[j].unwrap() + overrides.len() <= usize::MAX,
        decreases overrides.len() - i,
    {
        match overrides[i] {
            Some(n) => {
                if n > i {
                    shift = n - i;
                } else {
                    return Err(i);
                }
            },
            None => {},
        }
        numbers.push(i + shift);
        i = i + 1;
    }
    Ok(numbers)
}

/// The first variant whose number is `x`, as the arms of a `match` are tried
/// in order.
pub fn variant_for_number(numbers: &Vec<usize>, x: usize) -> (r: Option<usize>)
    ensures
        match r {
            Some(i) => {
                &&& i < numbers.len()
                &&& numbers@[i as int] == x
                &&& forall|j: int| 0 <= j < i ==> numbers@[j] != x
            },
            None => forall|j: int| 0 <= j < numbers.len() ==> numbers@[j] != x,
        },
{
    let mut i: usize = 0;
    while i < numbers.len()
        invariant
            i <= numbers.len(),
            forall|j: int| 0 <= j < i ==> numbers@[j] != x,
        decreases numbers.len() - i,
    {
        if numbers[i] == x {
            return Some(i);
        }
        i = i + 1;
    }
    None
}

/// Reads a variant: the first variant whose number is `x`, else an error
/// naming the type and the number.
pub fn read_variant(numbers: &Vec<usize>, x: usize, enum_name: &str) -> (r: Result<
    usize,
    ReadingError,
>)
    ensures
        match r {
            Ok(i) => {
                &&& i < numbers.len()
                &&& numbers@[i as int] == x
                &&& forall|j: int| 0 <= j < i ==> numbers@[j] != x
            },
            Err(e) => {
                &&& forall|j: int| 0 <= j < numbers.len() ==> numbers@[j] != x
                &&& e matches ReadingError::Message(m) && m@ == "invalid "@ + enum_name@
                    + " enum index: "@ + decimal(x as nat)
            },
        },
{
    match variant_for_number(numbers, x) {
        Some(i) => Ok(i),
        None => {
            let head = concat_str(String::from_str("invalid "), enum_name);
            let head = concat_str(head, " enum index: ");
            let m = message_with_number(head.as_str(), x);
            Err(ReadingError::Message(m))
        },
    }
}

proof fn lemma_next_number(overrides: Seq<Option<usize>>, j: int)
    requires
        overrides_ascend(overrides),
        0 <= j,
        j + 1 < overrides.len(),
    ensures
        variant_number(overrides, j) < variant_number(overrides, j + 1),
{
    assert(overrides[j + 1] matches Some(n) ==> n >= (j + 1) + shift_after(
        overrides,
        (j + 1) as nat,
    ));
}

/// When no variant asks for a number below the one it would take anyway, the
/// numbers strictly ascend, so no two variants share a number and the number
/// of each variant reads back as that variant.
pub proof fn lemma_variant_numbers_ascend(overrides: Seq<Option<usize>>, numbers: Seq<usize>)
    requires
        overrides_ascend(overrides),
        numbers.len() == overrides.len(),
        forall|i: int| 0 <= i < numbers.len() ==> numbers[i] == variant_number(overrides, i),
    ensures
        forall|i: int, j: int| 0 <= i < j < numbers.len() ==> numbers[i] < numbers[j],
{
    assert forall|i: int, j: int| 0 <= i < j < numbers.len() implies numbers[i] < numbers[j] by {
        lemma_ascend_from(overrides, i, j);
    }
}

proof fn lemma_ascend_from(overrides: Seq<Option<usize>>, i: int, j: int)
    requires
        overrides_ascend(overrides),
        0 <= i < j < overrides.len(),
    ensures
        variant_number(overrides, i) < variant_number(overrides, j),
    decreases j - i,
{
    lemma_next_number(overrides, j - 1);
    if i < j - 1 {
        lemma_ascend_from(overrides, i, j - 1);
    }
}

} // verus!
