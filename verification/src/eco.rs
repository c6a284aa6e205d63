//! What this library relies on from the `ecow` crate: its clone-on-write
//! string and vector, described by the characters and items they hold.

use vstd::prelude::*;
use ecow::{EcoString, EcoVec};

verus! {

/// `ecow::EcoString`, taken as it is: nothing is known of a value but what
/// the items below say.
#[verifier::external_type_specification]
#[verifier::external_body]
pub struct ExEcoString(EcoString);

/// The characters that an `EcoString` holds, in order.
pub uninterp spec fn eco_chars(s: EcoString) -> Seq<char>;

/// `EcoString::new` gives the string without characters.
pub assume_specification[ EcoString::new ]() -> (s: EcoString)
    ensures
        eco_chars(s) == Seq::<char>::empty(),
;

/// `EcoString::as_str` borrows the characters held, unchanged.
pub assume_specification[ EcoString::as_str ](s: &EcoString) -> (r: &str)
    ensures
        r@ == eco_chars(*s),
;

/// `EcoString::push_str` appends the slice's characters behind those held.
pub assume_specification[ EcoString::push_str ](s: &mut EcoString, string: &str)
    ensures
        eco_chars(*final(s)) == eco_chars(*old(s)) + string@,
;

/// Cloning an `EcoString` gives a string of the same characters.
pub assume_specification[ <EcoString as Clone>::clone ](s: &EcoString) -> (r: EcoString)
    ensures
        eco_chars(r) == eco_chars(*s),
;

/// Two `EcoString`s compare equal exactly when they hold the same characters.
pub assume_specification[ <EcoString as PartialEq>::eq ](a: &EcoString, b: &EcoString) -> (r: bool)
    ensures
        r == (eco_chars(*a) == eco_chars(*b)),
;

/// `ecow::EcoVec`, taken as it is: nothing is known of a value but what the
/// items below say.
#[verifier::external_type_specification]
#[verifier::external_body]
#[verifier::reject_recursive_types(T)]
pub struct ExEcoVec<T>(EcoVec<T>);

/// The strings that a list of hints holds, in order, each as its characters.
pub uninterp spec fn eco_items(v: EcoVec<EcoString>) -> Seq<Seq<char>>;

/// Cloning an `EcoVec` gives a list of the same items in the same order.
#[verifier::external_body]
pub(crate) fn hints_clone(v: &EcoVec<EcoString>) -> (r: EcoVec<EcoString>)
    ensures
        eco_items(r) == eco_items(*v),
{
    v.clone()
}

/// `EcoVec::new` gives the list without items.
#[verifier::external_body]
pub(crate) fn hints_new() -> (v: EcoVec<EcoString>)
    ensures
        eco_items(v) == Seq::<Seq<char>>::empty(),
{
    EcoVec::new()
}

/// `EcoVec::push` appends one item behind those held.
#[verifier::external_body]
pub(crate) fn hints_push(v: &mut EcoVec<EcoString>, hint: EcoString)
    ensures
        eco_items(*final(v)) == eco_items(*old(v)).push(eco_chars(hint)),
{
    v.push(hint)
}

/// Two `EcoVec`s compare equal exactly when they hold equal items in the
/// same order.
#[verifier::external_body]
pub(crate) fn hints_eq(a: &EcoVec<EcoString>, b: &EcoVec<EcoString>) -> (r: bool)
    ensures
        r == (eco_items(*a) == eco_items(*b)),
{
    a == b
}

} // verus!
