//! Binding captured path parameters to typed values.
//!
//! A handler declares the type of its parameters; the captured names and
//! values are bound to that type in the order in which the pattern declares
//! them. Binding never panics: every failure is a message.

use crate::table::Table;
use std::borrow::Cow;
use vstd::prelude::*;
use vstd::string::StringExecFns;

verus! {

/// Captured parameters as the binder sees them: names and values, in the
/// order in which the pattern declares them.
pub type Captured = Seq<(Seq<char>, Seq<char>)>;

/// The model of a list of name and value pairs.
pub open spec fn captured(params: Seq<(&str, &str)>) -> Captured {
    params.map_values(|p: (&str, &str)| (p.0@, p.1@))
}

/// A value that can be read from the text of one captured parameter.
pub trait FromValue: Sized {
    /// Why `text` does not convert, if it does not.
    spec fn refusal(text: Seq<char>) -> Option<Seq<char>>;

    /// Whether `text` converts to `value`.
    spec fn converts(text: Seq<char>, value: Self) -> bool;

    /// Converts `text`, or says why it does not convert.
    fn from_value(text: &str) -> (r: Result<Self, String>)
        ensures
            match r {
                Ok(value) => Self::refusal(text@) is None && Self::converts(text@, value),
                Err(message) => Self::refusal(text@) == Some(message@),
            },
    ;
}

impl FromValue for String {
    open spec fn refusal(text: Seq<char>) -> Option<Seq<char>> {
        None
    }

    open spec fn converts(text: Seq<char>, value: Self) -> bool {
        value@ == text
    }

    fn from_value(text: &str) -> (r: Result<Self, String>) {
        Ok(String::from_str(text))
    }
}

/// What `str::parse::<i32>` returns for `text`, an error as the message that
/// it displays.
pub uninterp spec fn parsed_i32(text: Seq<char>) -> Result<i32, Seq<char>>;

/// Calls `str::parse::<i32>` and turns its error into the message that the
/// error displays. The result depends on `text` alone.
#[verifier::external_body]
fn parse_i32(text: &str) -> (r: Result<i32, String>)
    ensures
        match r {
            Ok(value) => parsed_i32(text@) == Ok::<i32, Seq<char>>(value),
            Err(message) => parsed_i32(text@) == Err::<i32, Seq<char>>(message@),
        },
{
    text.parse::<i32>().map_err(|e| e.to_string())
}

impl FromValue for i32 {
    open spec fn refusal(text: Seq<char>) -> Option<Seq<char>> {
        match parsed_i32(text) {
            Ok(_) => None,
            Err(message) => Some(message),
        }
    }

    open spec fn converts(text: Seq<char>, value: Self) -> bool {
        parsed_i32(text) == Ok::<i32, Seq<char>>(value)
    }

    fn from_value(text: &str) -> (r: Result<Self, String>) {
        parse_i32(text)
    }
}

/// What `str::parse::<i64>` returns for `text`, an error as the message that
/// it displays.
pub uninterp spec fn parsed_i64(text: Seq<char>) -> Result<i64, Seq<char>>;

/// Calls `str::parse::<i64>` and turns its error into the message that the
/// error displays. The result depends on `text` alone.
#[verifier::external_body]
fn parse_i64(text: &str) -> (r: Result<i64, String>)
    ensures
        match r {
            Ok(value) => parsed_i64(text@) == Ok::<i64, Seq<char>>(value),
            Err(message) => parsed_i64(text@) == Err::<i64, Seq<char>>(message@),
        },
{
    text.parse::<i64>().map_err(|e| e.to_string())
}

impl FromValue for i64 {
    open spec fn refusal(text: Seq<char>) -> Option<Seq<char>> {
        match parsed_i64(text) {
            Ok(_) => None,
            Err(message) => Some(message),
        }
    }

    open spec fn converts(text: Seq<char>, value: Self) -> bool {
        parsed_i64(text) == Ok::<i64, Seq<char>>(value)
    }

    fn from_value(text: &str) -> (r: Result<Self, String>) {
        parse_i64(text)
    }
}

/// What `str::parse::<u32>` returns for `text`, an error as the message that
/// it displays.
pub uninterp spec fn parsed_u32(text: Seq<char>) -> Result<u32, Seq<char>>;

/// Calls `str::parse::<u32>` and turns its error into the message that the
/// error displays. The result depends on `text` alone.
#[verifier::external_body]
fn parse_u32(text: &str) -> (r: Result<u32, String>)
    ensures
        match r {
            Ok(value) => parsed_u32(text@) == Ok::<u32, Seq<char>>(value),
            Err(message) => parsed_u32(text@) == Err::<u32, Seq<char>>(message@),
        },
{
    text.parse::<u32>().map_err(|e| e.to_string())
}

impl FromValue for u32 {
    open spec fn refusal(text: Seq<char>) -> Option<Seq<char>> {
        match parsed_u32(text) {
            Ok(_) => None,
            Err(message) => Some(message),
        }
    }

    open spec fn converts(text: Seq<char>, value: Self) -> bool {
        parsed_u32(text) == Ok::<u32, Seq<char>>(value)
    }

    fn from_value(text: &str) -> (r: Result<Self, String>) {
        parse_u32(text)
    }
}

/// What `str::parse::<u64>` returns for `text`, an error as the message that
/// it displays.
pub uninterp spec fn parsed_u64(text: Seq<char>) -> Result<u64, Seq<char>>;

/// Calls `str::parse::<u64>` and turns its error into the message that the
/// error displays. The result depends on `text` alone.
#[verifier::external_body]
fn parse_u64(text: &str) -> (r: Result<u64, String>)
    ensures
        match r {
            Ok(value) => parsed_u64(text@) == Ok::<u64, Seq<char>>(value),
            Err(message) => parsed_u64(text@) == Err::<u64, Seq<char>>(message@),
        },
{
    text.parse::<u64>().map_err(|e| e.to_string())
}

impl FromValue for u64 {
    open spec fn refusal(text: Seq<char>) -> Option<Seq<char>> {
        match parsed_u64(text) {
            Ok(_) => None,
            Err(message) => Some(message),
        }
    }

    open spec fn converts(text: Seq<char>, value: Self) -> bool {
        parsed_u64(text) == Ok::<u64, Seq<char>>(value)
    }

    fn from_value(text: &str) -> (r: Result<Self, String>) {
        parse_u64(text)
    }
}

/// Why the value at `index` cannot be bound: it is missing or does not
/// convert.
pub open spec fn slot_failure<A: FromValue>(params: Captured, index: int) -> Option<Seq<char>> {
    if index >= params.len() {
        Some("missing parameter"@)
    } else {
        A::refusal(params[index].1)
    }
}

/// Why more than `arity` parameters cannot be bound.
pub open spec fn excess(params: Captured, arity: int) -> Option<Seq<char>> {
    if params.len() > arity {
        Some("excess parameters"@)
    } else {
        None
    }
}

/// The first of two failures.
pub open spec fn first_of(a: Option<Seq<char>>, b: Option<Seq<char>>) -> Option<Seq<char>> {
    if a is Some {
        a
    } else {
        b
    }
}

/// Converts the value at `index`.
pub fn bind_slot<A: FromValue>(params: &Vec<(&str, &str)>, index: usize) -> (r: Result<
    A,
    Cow<'static, str>,
>)
    ensures
        match r {
            Ok(value) => slot_failure::<A>(captured(params@), index as int) is None && A::converts(
                captured(params@)[index as int].1,
                value,
            ),
            Err(message) => slot_failure::<A>(captured(params@), index as int) == Some(message@),
        },
{
    if index >= params.len() {
        return Err(Cow::Borrowed("missing parameter"));
    }
    match A::from_value(params[index].1) {
        Ok(value) => Ok(value),
        Err(message) => Err(Cow::Owned(message)),
    }
}

/// Refuses parameters beyond the first `arity`.
pub fn check_excess(params: &Vec<(&str, &str)>, arity: usize) -> (r: Result<(), Cow<'static, str>>)
    ensures
        match r {
            Ok(_) => excess(captured(params@), arity as int) is None,
            Err(message) => excess(captured(params@), arity as int) == Some(message@),
        },
{
    if params.len() > arity {
        Err(Cow::Borrowed("excess parameters"))
    } else {
        Ok(())
    }
}

/// A type to which captured parameters can be bound.
pub trait FromParameters: Sized {
    /// Why `params` cannot be bound, if they cannot.
    spec fn failure(params: Captured) -> Option<Seq<char>>;

    /// Whether `params` are bound to `value`.
    spec fn binds(params: Captured, value: Self) -> bool;

    /// Binds `params`, or says why they cannot be bound.
    fn from_parameters(params: Vec<(&str, &str)>) -> (r: Result<Self, Cow<'static, str>>)
        ensures
            match r {
                Ok(value) => Self::failure(captured(params@)) is None && Self::binds(
                    captured(params@),
                    value,
                ),
                Err(message) => Self::failure(captured(params@)) == Some(message@),
            },
    ;
}

/// No parameters: binding succeeds where nothing was captured.
impl FromParameters for () {
    open spec fn failure(params: Captured) -> Option<Seq<char>> {
        excess(params, 0)
    }

    open spec fn binds(params: Captured, value: Self) -> bool {
        true
    }

    fn from_parameters(params: Vec<(&str, &str)>) -> (r: Result<Self, Cow<'static, str>>) {
        check_excess(&params, 0)
    }
}

/// 1 parameter, each converted from the value at its place.
impl<A: FromValue> FromParameters for (A,) {
    open spec fn failure(params: Captured) -> Option<Seq<char>> {
        first_of(
            slot_failure::<A>(params, 0),
            excess(params, 1),
        )
    }

    open spec fn binds(params: Captured, value: Self) -> bool {
        &&& A::converts(params[0].1, value.0)
    }

    fn from_parameters(params: Vec<(&str, &str)>) -> (r: Result<Self, Cow<'static, str>>) {
        let v0 = bind_slot::<A>(&params, 0)?;
        check_excess(&params, 1)?;
        Ok((v0,))
    }
}

/// 2 parameters, each converted from the value at its place.
impl<A: FromValue, B: FromValue> FromParameters for (A, B) {
    open spec fn failure(params: Captured) -> Option<Seq<char>> {
        first_of(
            slot_failure::<A>(params, 0),
            first_of(
                slot_failure::<B>(params, 1),
                excess(params, 2),
            ),
        )
    }

    open spec fn binds(params: Captured, value: Self) -> bool {
        &&& A::converts(params[0].1, value.0)
        &&& B::converts(params[1].1, value.1)
    }

    fn from_parameters(params: Vec<(&str, &str)>) -> (r: Result<Self, Cow<'static, str>>) {
        let v0 = bind_slot::<A>(&params, 0)?;
        let v1 = bind_slot::<B>(&params, 1)?;
        check_excess(&params, 2)?;
        Ok((v0, v1))
    }
}

/// 3 parameters, each converted from the value at its place.
impl<A: FromValue, B: FromValue, C: FromValue> FromParameters for (A, B, C) {
    open spec fn failure(params: Captured) -> Option<Seq<char>> {
        first_of(
            slot_failure::<A>(params, 0),
            first_of(
                slot_failure::<B>(params, 1),
                first_of(
                    slot_failure::<C>(params, 2),
                    excess(params, 3),
                ),
            ),
        )
    }

    open spec fn binds(params: Captured, value: Self) -> bool {
        &&& A::converts(params[0].1, value.0)
        &&& B::converts(params[1].1, value.1)
        &&& C::converts(params[2].1, value.2)
    }

    fn from_parameters(params: Vec<(&str, &str)>) -> (r: Result<Self, Cow<'static, str>>) {
        let v0 = bind_slot::<A>(&params, 0)?;
        let v1 = bind_slot::<B>(&params, 1)?;
        let v2 = bind_slot::<C>(&params, 2)?;
        check_excess(&params, 3)?;
        Ok((v0, v1, v2))
    }
}

/// 4 parameters, each converted from the value at its place.
impl<A: FromValue, B: FromValue, C: FromValue, D: FromValue> FromParameters for (A, B, C, D) {
    open spec fn failure(params: Captured) -> Option<Seq<char>> {
        first_of(
            slot_failure::<A>(params, 0),
            first_of(
                slot_failure::<B>(params, 1),
                first_of(
                    slot_failure::<C>(params, 2),
                    first_of(
                        slot_failure::<D>(params, 3),
                        excess(params, 4),
                    ),
                ),
            ),
        )
    }

    open spec fn binds(params: Captured, value: Self) -> bool {
        &&& A::converts(params[0].1, value.0)
        &&& B::converts(params[1].1, value.1)
        &&& C::converts(params[2].1, value.2)
        &&& D::converts(params[3].1, value.3)
    }

    fn from_parameters(params: Vec<(&str, &str)>) -> (r: Result<Self, Cow<'static, str>>) {
        let v0 = bind_slot::<A>(&params, 0)?;
        let v1 = bind_slot::<B>(&params, 1)?;
        let v2 = bind_slot::<C>(&params, 2)?;
        let v3 = bind_slot::<D>(&params, 3)?;
        check_excess(&params, 4)?;
        Ok((v0, v1, v2, v3))
    }
}

/// 5 parameters, each converted from the value at its place.
impl<A: FromValue, B: FromValue, C: FromValue, D: FromValue, E: FromValue> FromParameters for (
    A,
    B,
    C,
    D,
    E,
) {
    open spec fn failure(params: Captured) -> Option<Seq<char>> {
        first_of(
            slot_failure::<A>(params, 0),
            first_of(
                slot_failure::<B>(params, 1),
                first_of(
                    slot_failure::<C>(params, 2),
                    first_of(
                        slot_failure::<D>(params, 3),
                        first_of(
                            slot_failure::<E>(params, 4),
                            excess(params, 5),
                        ),
                    ),
                ),
            ),
        )
    }

    open spec fn binds(params: Captured, value: Self) -> bool {
        &&& A::converts(params[0].1, value.0)
        &&& B::converts(params[1].1, value.1)
        &&& C::converts(params[2].1, value.2)
        &&& D::converts(params[3].1, value.3)
        &&& E::converts(params[4].1, value.4)
    }

    fn from_parameters(params: Vec<(&str, &str)>) -> (r: Result<Self, Cow<'static, str>>) {
        let v0 = bind_slot::<A>(&params, 0)?;
        let v1 = bind_slot::<B>(&params, 1)?;
        let v2 = bind_slot::<C>(&params, 2)?;
        let v3 = bind_slot::<D>(&params, 3)?;
        let v4 = bind_slot::<E>(&params, 4)?;
        check_excess(&params, 5)?;
        Ok((v0, v1, v2, v3, v4))
    }
}

/// 6 parameters, each converted from the value at its place.
impl<
    A: FromValue, B: FromValue, C: FromValue, D: FromValue, E: FromValue, F: FromValue,
> FromParameters for (A, B, C, D, E, F) {
    open spec fn failure(params: Captured) -> Option<Seq<char>> {
        first_of(
            slot_failure::<A>(params, 0),
            first_of(
                slot_failure::<B>(params, 1),
                first_of(
                    slot_failure::<C>(params, 2),
                    first_of(
                        slot_failure::<D>(params, 3),
                        first_of(
                            slot_failure::<E>(params, 4),
                            first_of(
                                slot_failure::<F>(params, 5),
                                excess(params, 6),
                            ),
                        ),
                    ),
                ),
            ),
        )
    }

    open spec fn binds(params: Captured, value: Self) -> bool {
        &&& A::converts(params[0].1, value.0)
        &&& B::converts(params[1].1, value.1)
        &&& C::converts(params[2].1, value.2)
        &&& D::converts(params[3].1, value.3)
        &&& E::converts(params[4].1, value.4)
        &&& F::converts(params[5].1, value.5)
    }

    fn from_parameters(params: Vec<(&str, &str)>) -> (r: Result<Self, Cow<'static, str>>) {
        let v0 = bind_slot::<A>(&params, 0)?;
        let v1 = bind_slot::<B>(&params, 1)?;
        let v2 = bind_slot::<C>(&params, 2)?;
        let v3 = bind_slot::<D>(&params, 3)?;
        let v4 = bind_slot::<E>(&params, 4)?;
        let v5 = bind_slot::<F>(&params, 5)?;
        check_excess(&params, 6)?;
        Ok((v0, v1, v2, v3, v4, v5))
    }
}

/// 7 parameters, each converted from the value at its place.
impl<
    A: FromValue, B: FromValue, C: FromValue, D: FromValue, E: FromValue, F: FromValue,
    G: FromValue,
> FromParameters for (A, B, C, D, E, F, G) {
    open spec fn failure(params: Captured) -> Option<Seq<char>> {
        first_of(
            slot_failure::<A>(params, 0),
            first_of(
                slot_failure::<B>(params, 1),
                first_of(
                    slot_failure::<C>(params, 2),
                    first_of(
                        slot_failure::<D>(params, 3),
                        first_of(
                            slot_failure::<E>(params, 4),
                            first_of(
                                slot_failure::<F>(params, 5),
                                first_of(
                                    slot_failure::<G>(params, 6),
                                    excess(params, 7),
                                ),
                            ),
                        ),
                    ),
                ),
            ),
        )
    }

    open spec fn binds(params: Captured, value: Self) -> bool {
        &&& A::converts(params[0].1, value.0)
        &&& B::converts(params[1].1, value.1)
        &&& C::converts(params[2].1, value.2)
        &&& D::converts(params[3].1, value.3)
        &&& E::converts(params[4].1, value.4)
        &&& F::converts(params[5].1, value.5)
        &&& G::converts(params[6].1, value.6)
    }

    fn from_parameters(params: Vec<(&str, &str)>) -> (r: Result<Self, Cow<'static, str>>) {
        let v0 = bind_slot::<A>(&params, 0)?;
        let v1 = bind_slot::<B>(&params, 1)?;
        let v2 = bind_slot::<C>(&params, 2)?;
        let v3 = bind_slot::<D>(&params, 3)?;
        let v4 = bind_slot::<E>(&params, 4)?;
        let v5 = bind_slot::<F>(&params, 5)?;
        let v6 = bind_slot::<G>(&params, 6)?;
        check_excess(&params, 7)?;
        Ok((v0, v1, v2, v3, v4, v5, v6))
    }
}

/// 8 parameters, each converted from the value at its place.
impl<
    A: FromValue, B: FromValue, C: FromValue, D: FromValue, E: FromValue, F: FromValue,
    G: FromValue, H: FromValue,
> FromParameters for (A, B, C, D, E, F, G, H) {
    open spec fn failure(params: Captured) -> Option<Seq<char>> {
        first_of(
            slot_failure::<A>(params, 0),
            first_of(
                slot_failure::<B>(params, 1),
                first_of(
                    slot_failure::<C>(params, 2),
                    first_of(
                        slot_failure::<D>(params, 3),
                        first_of(
                            slot_failure::<E>(params, 4),
                            first_of(
                                slot_failure::<F>(params, 5),
                                first_of(
                                    slot_failure::<G>(params, 6),
                                    first_of(
                                        slot_failure::<H>(params, 7),
                                        excess(params, 8),
                                    ),
                                ),
                            ),
                        ),
                    ),
                ),
            ),
        )
    }

    open spec fn binds(params: Captured, value: Self) -> bool {
        &&& A::converts(params[0].1, value.0)
        &&& B::converts(params[1].1, value.1)
        &&& C::converts(params[2].1, value.2)
        &&& D::converts(params[3].1, value.3)
        &&& E::converts(params[4].1, value.4)
        &&& F::converts(params[5].1, value.5)
        &&& G::converts(params[6].1, value.6)
        &&& H::converts(params[7].1, value.7)
    }

    fn from_parameters(params: Vec<(&str, &str)>) -> (r: Result<Self, Cow<'static, str>>) {
        let v0 = bind_slot::<A>(&params, 0)?;
        let v1 = bind_slot::<B>(&params, 1)?;
        let v2 = bind_slot::<C>(&params, 2)?;
        let v3 = bind_slot::<D>(&params, 3)?;
        let v4 = bind_slot::<E>(&params, 4)?;
        let v5 = bind_slot::<F>(&params, 5)?;
        let v6 = bind_slot::<G>(&params, 6)?;
        let v7 = bind_slot::<H>(&params, 7)?;
        check_excess(&params, 8)?;
        Ok((v0, v1, v2, v3, v4, v5, v6, v7))
    }
}

/// 9 parameters, each converted from the value at its place.
impl<
    A: FromValue, B: FromValue, C: FromValue, D: FromValue, E: FromValue, F: FromValue,
    G: FromValue, H: FromValue, I: FromValue,
> FromParameters for (A, B, C, D, E, F, G, H, I) {
    open spec fn failure(params: Captured) -> Option<Seq<char>> {
        first_of(
            slot_failure::<A>(params, 0),
            first_of(
                slot_failure::<B>(params, 1),
                first_of(
                    slot_failure::<C>(params, 2),
                    first_of(
                        slot_failure::<D>(params, 3),
                        first_of(
                            slot_failure::<E>(params, 4),
                            first_of(
                                slot_failure::<F>(params, 5),
                                first_of(
                                    slot_failure::<G>(params, 6),
                                    first_of(
                                        slot_failure::<H>(params, 7),
                                        first_of(
                                            slot_failure::<I>(params, 8),
                                            excess(params, 9),
                                        ),
                                    ),
                                ),
                            ),
                        ),
                    ),
                ),
            ),
        )
    }

    open spec fn binds(params: Captured, value: Self) -> bool {
        &&& A::converts(params[0].1, value.0)
        &&& B::converts(params[1].1, value.1)
        &&& C::converts(params[2].1, value.2)
        &&& D::converts(params[3].1, value.3)
        &&& E::converts(params[4].1, value.4)
        &&& F::converts(params[5].1, value.5)
        &&& G::converts(params[6].1, value.6)
        &&& H::converts(params[7].1, value.7)
        &&& I::converts(params[8].1, value.8)
    }

    fn from_parameters(params: Vec<(&str, &str)>) -> (r: Result<Self, Cow<'static, str>>) {
        let v0 = bind_slot::<A>(&params, 0)?;
        let v1 = bind_slot::<B>(&params, 1)?;
        let v2 = bind_slot::<C>(&params, 2)?;
        let v3 = bind_slot::<D>(&params, 3)?;
        let v4 = bind_slot::<E>(&params, 4)?;
        let v5 = bind_slot::<F>(&params, 5)?;
        let v6 = bind_slot::<G>(&params, 6)?;
        let v7 = bind_slot::<H>(&params, 7)?;
        let v8 = bind_slot::<I>(&params, 8)?;
        check_excess(&params, 9)?;
        Ok((v0, v1, v2, v3, v4, v5, v6, v7, v8))
    }
}

/// 10 parameters, each converted from the value at its place.
impl<
    A: FromValue, B: FromValue, C: FromValue, D: FromValue, E: FromValue, F: FromValue,
    G: FromValue, H: FromValue, I: FromValue, J: FromValue,
> FromParameters for (A, B, C, D, E, F, G, H, I, J) {
    open spec fn failure(params: Captured) -> Option<Seq<char>> {
        first_of(
            slot_failure::<A>(params, 0),
            first_of(
                slot_failure::<B>(params, 1),
                first_of(
                    slot_failure::<C>(params, 2),
                    first_of(
                        slot_failure::<D>(params, 3),
                        first_of(
                            slot_failure::<E>(params, 4),
                            first_of(
                                slot_failure::<F>(params, 5),
                                first_of(
                                    slot_failure::<G>(params, 6),
                                    first_of(
                                        slot_failure::<H>(params, 7),
                                        first_of(
                                            slot_failure::<I>(params, 8),
                                            first_of(
                                                slot_failure::<J>(params, 9),
                                                excess(params, 10),
                                            ),
                                        ),
                                    ),
                                ),
                            ),
                        ),
                    ),
                ),
            ),
        )
    }

    open spec fn binds(params: Captured, value: Self) -> bool {
        &&& A::converts(params[0].1, value.0)
        &&& B::converts(params[1].1, value.1)
        &&& C::converts(params[2].1, value.2)
        &&& D::converts(params[3].1, value.3)
        &&& E::converts(params[4].1, value.4)
        &&& F::converts(params[5].1, value.5)
        &&& G::converts(params[6].1, value.6)
        &&& H::converts(params[7].1, value.7)
        &&& I::converts(params[8].1, value.8)
        &&& J::converts(params[9].1, value.9)
    }

    fn from_parameters(params: Vec<(&str, &str)>) -> (r: Result<Self, Cow<'static, str>>) {
        let v0 = bind_slot::<A>(&params, 0)?;
        let v1 = bind_slot::<B>(&params, 1)?;
        let v2 = bind_slot::<C>(&params, 2)?;
        let v3 = bind_slot::<D>(&params, 3)?;
        let v4 = bind_slot::<E>(&params, 4)?;
        let v5 = bind_slot::<F>(&params, 5)?;
        let v6 = bind_slot::<G>(&params, 6)?;
        let v7 = bind_slot::<H>(&params, 7)?;
        let v8 = bind_slot::<I>(&params, 8)?;
        let v9 = bind_slot::<J>(&params, 9)?;
        check_excess(&params, 10)?;
        Ok((v0, v1, v2, v3, v4, v5, v6, v7, v8, v9))
    }
}

/// The model of captured names and values.
pub open spec fn captured_pairs(params: Seq<(String, String)>) -> Captured {
    params.map_values(|p: (String, String)| (p.0@, p.1@))
}

/// Binds the names and values that dispatch captured to the type that a
/// handler declares.
pub fn bind<P: FromParameters>(params: &Vec<(String, String)>) -> (r: Result<P, Cow<'static, str>>)
    ensures
        match r {
            Ok(value) => P::failure(captured_pairs(params@)) is None && P::binds(
                captured_pairs(params@),
                value,
            ),
            Err(message) => P::failure(captured_pairs(params@)) == Some(message@),
        },
{
    let mut pairs: Vec<(&str, &str)> = Vec::with_capacity(params.len());
    let mut i: usize = 0;
    while i < params.len()
        invariant
            i <= params.len(),
            captured(pairs@) == captured_pairs(params@).take(i as int),
        decreases params.len() - i,
    {
        let ghost before = pairs@;
        let pair = (params[i].0.as_str(), params[i].1.as_str());
        pairs.push(pair);
        assert(captured(before.push(pair)) =~= captured(before).push((pair.0@, pair.1@)));
        i = i + 1;
    }
    assert(captured_pairs(params@).take(i as int) =~= captured_pairs(params@));
    P::from_parameters(pairs)
}

/// Parameters by name, each value converted to `T`.
pub type ParamMap<T> = Table<String, T>;

/// The first refusal among the values of `params`, in order.
pub open spec fn first_refusal<T: FromValue>(params: Captured) -> Option<Seq<char>>
    decreases params.len(),
{
    if params.len() == 0 {
        None
    } else if T::refusal(params[0].1) is Some {
        T::refusal(params[0].1)
    } else {
        first_refusal::<T>(params.skip(1))
    }
}

/// The index of the last of `params` that has `name`, or -1 where none has.
pub open spec fn last_named(params: Captured, name: Seq<char>) -> int
    decreases params.len(),
{
    if params.len() == 0 {
        -1
    } else if params.last().0 == name {
        params.len() - 1
    } else {
        last_named(params.drop_last(), name)
    }
}

/// Whether `map` holds `name` exactly where one of `params` has it, and
/// then with the value converted from the last parameter of that name.
pub open spec fn binds_name<T: FromValue>(
    params: Captured,
    map: Map<Seq<char>, T>,
    name: Seq<char>,
) -> bool {
    let at = last_named(params, name);
    &&& at < params.len()
    &&& map.contains_key(name) <==> at >= 0
    &&& map.contains_key(name) ==> T::converts(params[at].1, map[name])
}

/// Whether `map` holds exactly the names of `params`, each with the value
/// converted from the last parameter of that name.
pub open spec fn binds_by_name<T: FromValue>(params: Captured, map: Map<Seq<char>, T>) -> bool {
    forall|name: Seq<char>| #[trigger] binds_name::<T>(params, map, name)
}

/// Every parameter by its name: each value is converted, and a value that
/// does not convert fails the whole binding. Of two parameters with one
/// name the later stays.
impl<T: FromValue> FromParameters for Table<String, T> {
    open spec fn failure(params: Captured) -> Option<Seq<char>> {
        first_refusal::<T>(params)
    }

    open spec fn binds(params: Captured, value: Self) -> bool {
        value.wf() && binds_by_name::<T>(params, value@)
    }

    fn from_parameters(params: Vec<(&str, &str)>) -> (r: Result<Self, Cow<'static, str>>) {
        let ghost all = captured(params@);
        let mut map: Table<String, T> = Table::new();
        let mut i: usize = 0;
        assert(all.skip(0) =~= all);
        while i < params.len()
            invariant
                i <= params.len(),
                all == captured(params@),
                first_refusal::<T>(all) == first_refusal::<T>(all.skip(i as int)),
                map.wf(),
                binds_by_name::<T>(all.take(i as int), map@),
            decreases params.len() - i,
        {
            let (name, text) = params[i];
            assert(all.skip(i as int).skip(1) =~= all.skip(i + 1));
            let value = match T::from_value(text) {
                Ok(value) => value,
                Err(message) => {
                    return Err(Cow::Owned(message));
                },
            };
            let ghost before = map@;
            map.insert(String::from_str(name), value);
            proof {
                let shorter = all.take(i as int);
                let longer = all.take(i + 1);
                assert(longer.drop_last() =~= shorter);
                assert forall|n: Seq<char>| #[trigger] binds_name::<T>(longer, map@, n) by {
                    assert(binds_name::<T>(shorter, before, n));
                }
            }
            i = i + 1;
        }
        Ok(map)
    }
}

} // verus!
