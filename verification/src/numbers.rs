//! Floating-point numbers, held as their IEEE 754 bits.
//!
//! Reading a number, showing it and computing with it is left to the host,
//! which hands over the bits. Numbers are compared here.

use vstd::prelude::*;

use crate::text::{owned, str_eq};

verus! {

/// The bits of the smallest magnitude that is not finite.
pub const INFINITE_MAGNITUDE: u64 = 0x7ff0_0000_0000_0000;

/// The bit of the sign.
pub const SIGN: u64 = 0x8000_0000_0000_0000;

/// The magnitude of a number: its bits without the sign.
pub open spec fn magnitude(bits: u64) -> int {
    if bits < SIGN {
        bits as int
    } else {
        bits - SIGN
    }
}

/// A number that orders finite numbers by their value, and takes both zeros as
/// one.
pub open spec fn order_key(bits: u64) -> int {
    if bits < SIGN {
        magnitude(bits)
    } else {
        -magnitude(bits)
    }
}

/// Whether the bits stand for a finite number.
pub open spec fn is_finite(bits: u64) -> bool {
    magnitude(bits) < INFINITE_MAGNITUDE
}

/// Whether the bits stand for no number.
pub open spec fn is_nan(bits: u64) -> bool {
    magnitude(bits) > INFINITE_MAGNITUDE
}

/// Whether one number is less than another; none is where either is no number.
pub open spec fn is_less(a: u64, b: u64) -> bool {
    !is_nan(a) && !is_nan(b) && order_key(a) < order_key(b)
}

/// Whether one number is at most another; none is where either is no number.
pub open spec fn is_at_most(a: u64, b: u64) -> bool {
    !is_nan(a) && !is_nan(b) && order_key(a) <= order_key(b)
}

fn magnitude_of(bits: u64) -> (r: u64)
    ensures
        r == magnitude(bits),
{
    if bits < SIGN {
        bits
    } else {
        bits - SIGN
    }
}

fn key_of(bits: u64) -> (r: i128)
    ensures
        r == order_key(bits),
{
    let magnitude = magnitude_of(bits) as i128;
    if bits < SIGN {
        magnitude
    } else {
        -magnitude
    }
}

/// Tests whether the bits stand for a finite number.
pub fn finite(bits: u64) -> (r: bool)
    ensures
        r == is_finite(bits),
{
    magnitude_of(bits) < INFINITE_MAGNITUDE
}

/// Tests whether one number is less than another.
pub fn less_than(a: u64, b: u64) -> (r: bool)
    ensures
        r == is_less(a, b),
{
    magnitude_of(a) <= INFINITE_MAGNITUDE && magnitude_of(b) <= INFINITE_MAGNITUDE && key_of(a)
        < key_of(b)
}

/// Tests whether one number is at most another.
pub fn at_most(a: u64, b: u64) -> (r: bool)
    ensures
        r == is_at_most(a, b),
{
    magnitude_of(a) <= INFINITE_MAGNITUDE && magnitude_of(b) <= INFINITE_MAGNITUDE && key_of(a)
        <= key_of(b)
}

/// A unit of time in which a duration is written.
#[derive(Clone, Copy, Debug, PartialEq, Eq, Structural)]
pub enum DurationUnit {
    Seconds,
    Minutes,
    Hours,
    Milliseconds,
}

/// The unit that a lower-case word stands for; seconds where there is none.
pub open spec fn unit_of(word: Seq<char>) -> Option<DurationUnit> {
    if word == ""@ || word == "s"@ || word == "sec"@ || word == "secs"@ || word == "second"@ || word
        == "seconds"@ {
        Some(DurationUnit::Seconds)
    } else if word == "m"@ || word == "min"@ || word == "mins"@ || word == "minute"@ || word
        == "minutes"@ {
        Some(DurationUnit::Minutes)
    } else if word == "h"@ || word == "hr"@ || word == "hrs"@ || word == "hour"@ || word
        == "hours"@ {
        Some(DurationUnit::Hours)
    } else if word == "ms"@ || word == "millisecond"@ || word == "milliseconds"@ {
        Some(DurationUnit::Milliseconds)
    } else {
        None
    }
}

/// Reads a unit of time.
pub fn read_unit(word: &str) -> (r: Option<DurationUnit>)
    ensures
        r == unit_of(word@),
{
    if str_eq(word, "") || str_eq(word, "s") || str_eq(word, "sec") || str_eq(word, "secs")
        || str_eq(word, "second") || str_eq(word, "seconds") {
        Some(DurationUnit::Seconds)
    } else if str_eq(word, "m") || str_eq(word, "min") || str_eq(word, "mins") || str_eq(
        word,
        "minute",
    ) || str_eq(word, "minutes") {
        Some(DurationUnit::Minutes)
    } else if str_eq(word, "h") || str_eq(word, "hr") || str_eq(word, "hrs") || str_eq(word, "hour")
        || str_eq(word, "hours") {
        Some(DurationUnit::Hours)
    } else if str_eq(word, "ms") || str_eq(word, "millisecond") || str_eq(word, "milliseconds") {
        Some(DurationUnit::Milliseconds)
    } else {
        None
    }
}

/// A stretch of time.
#[derive(Clone, Copy, Debug, PartialEq, Eq, Structural)]
pub struct TimeSpan {
    pub secs: u64,
    pub nanos: u32,
}

impl TimeSpan {
    /// The nanoseconds of the stretch.
    pub open spec fn total(self) -> nat {
        (self.secs * 1_000_000_000 + self.nanos) as nat
    }

    /// The nanoseconds of the stretch.
    pub fn as_nanos(self) -> (r: u128)
        ensures
            r == self.total(),
    {
        self.secs as u128 * 1_000_000_000 + self.nanos as u128
    }
}

/// A number, with what the host knows of it.
#[derive(Debug, PartialEq, Eq)]
pub struct Number {
    pub bits: u64,
    /// The number as the host shows it.
    pub shown: String,
    /// So many units of time, where a unit was asked for.
    pub span: TimeSpan,
    /// The seconds of that time, as the host shows them.
    pub span_shown: String,
}

/// The texts of a [`Number`].
pub struct NumberView {
    pub bits: u64,
    pub shown: Seq<char>,
    pub span: TimeSpan,
    pub span_shown: Seq<char>,
}

impl View for Number {
    type V = NumberView;

    open spec fn view(&self) -> NumberView {
        NumberView {
            bits: self.bits,
            shown: self.shown@,
            span: self.span,
            span_shown: self.span_shown@,
        }
    }
}

impl Clone for Number {
    fn clone(&self) -> (r: Self)
        ensures
            r@ == self@,
    {
        Number {
            bits: self.bits,
            shown: self.shown.clone(),
            span: self.span,
            span_shown: self.span_shown.clone(),
        }
    }
}

/// A text that is to be read as a number, of units of time where one is given.
#[derive(Debug, PartialEq, Eq)]
pub struct NumberRequest {
    pub text: String,
    pub unit: Option<DurationUnit>,
}

/// What a request asks for.
pub type RequestView = (Seq<char>, Option<DurationUnit>);

impl View for NumberRequest {
    type V = RequestView;

    open spec fn view(&self) -> RequestView {
        (self.text@, self.unit)
    }
}

/// The answer to a request: none where the text is no number.
#[derive(Debug, PartialEq, Eq)]
pub struct NumberEntry {
    pub request: NumberRequest,
    pub number: Option<Number>,
}

/// The view of an optional number.
pub open spec fn opt_number(number: Option<Number>) -> Option<NumberView> {
    match number {
        Some(number) => Some(number@),
        None => None,
    }
}

/// The answer to a request, from the first entry on it from `from` on; none
/// where no entry answers it.
pub open spec fn number_at(
    entries: Seq<NumberEntry>,
    request: RequestView,
    from: int,
) -> Option<NumberView>
    decreases entries.len() - from,
{
    if from >= entries.len() {
        None
    } else if entries[from].request@ == request {
        opt_number(entries[from].number)
    } else {
        number_at(entries, request, from + 1)
    }
}

/// The answer to a request.
pub open spec fn number_of(entries: Seq<NumberEntry>, request: RequestView) -> Option<NumberView> {
    number_at(entries, request, 0)
}

fn unit_eq(a: Option<DurationUnit>, b: Option<DurationUnit>) -> (r: bool)
    ensures
        r == (a == b),
{
    match (a, b) {
        (Some(a), Some(b)) => a == b,
        (None, None) => true,
        _ => false,
    }
}

/// Looks a number up.
pub fn find_number(entries: &Vec<NumberEntry>, text: &str, unit: Option<DurationUnit>) -> (r:
    Option<Number>)
    ensures
        opt_number(r) == number_of(entries@, (text@, unit)),
{
    let ghost request = (text@, unit);
    let mut i: usize = 0;
    while i < entries.len()
        invariant
            i <= entries.len(),
            request == (text@, unit),
            number_of(entries@, request) == number_at(entries@, request, i as int),
        decreases entries.len() - i,
    {
        if str_eq(entries[i].request.text.as_str(), text) && unit_eq(
            entries[i].request.unit,
            unit,
        ) {
            return match &entries[i].number {
                Some(number) => Some(number.clone()),
                None => None,
            };
        }
        i += 1;
    }
    None
}

/// Whether the host can have given an entry's answer.
pub open spec fn answers<P: Fn(&str, Option<DurationUnit>) -> Option<Number>>(
    read_number: P,
    entry: NumberEntry,
) -> bool {
    exists|text: &str|
        text@ == entry.request.text@ && #[trigger] call_ensures(
            read_number,
            (text, entry.request.unit),
            entry.number,
        )
}

/// Has each request answered.
pub fn answer_requests<P: Fn(&str, Option<DurationUnit>) -> Option<Number>>(
    requests: Vec<NumberRequest>,
    read_number: &P,
) -> (r: Vec<NumberEntry>)
    requires
        forall|text: &str, unit: Option<DurationUnit>| call_requires(*read_number, (text, unit)),
    ensures
        r@.len() == requests@.len(),
        forall|i: int|
            0 <= i < r@.len() ==> (#[trigger] r@[i]).request@ == requests@[i]@ && answers(
                *read_number,
                r@[i],
            ),
{
    let mut r: Vec<NumberEntry> = Vec::new();
    let mut i: usize = 0;
    while i < requests.len()
        invariant
            i <= requests.len(),
            r@.len() == i,
            forall|text: &str, unit: Option<DurationUnit>|
                call_requires(*read_number, (text, unit)),
            forall|j: int|
                0 <= j < i ==> (#[trigger] r@[j]).request@ == requests@[j]@ && answers(
                    *read_number,
                    r@[j],
                ),
        decreases requests.len() - i,
    {
        let text: &str = requests[i].text.as_str();
        let unit = requests[i].unit;
        let number = read_number(text, unit);
        let entry = NumberEntry { request: NumberRequest { text: owned(text), unit }, number };
        assert(call_ensures(*read_number, (text, entry.request.unit), entry.number));
        assert(answers(*read_number, entry));
        r.push(entry);
        i += 1;
    }
    r
}

/// Of two finite numbers, one is less than the other or they are of one value.
pub proof fn lemma_finite_order(a: u64, b: u64)
    requires
        is_finite(a),
        is_finite(b),
    ensures
        is_less(a, b) <==> !is_at_most(b, a),
{
}

} // verus!
