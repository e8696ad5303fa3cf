//! Decimal numbers with a fraction.
use vstd::prelude::*;

use crate::json::{Json, JsonModel, Number, NumberModel};

verus! {

/// A finite number with a fraction. `order` places it among the others: of two numbers the
/// smaller has the smaller `order`, and equal numbers have the same. `whole` is its integer part,
/// which is 0 for a negative number and at most `u64::MAX`. `json` is the number in JSON notation
/// and `display` in plain decimal notation.
#[derive(Debug)]
pub struct Fraction {
    pub order: i64,
    pub whole: u64,
    pub json: String,
    pub display: String,
}

pub struct FractionModel {
    pub order: i64,
    pub whole: u64,
    pub json: Seq<char>,
    pub display: Seq<char>,
}

impl View for Fraction {
    type V = FractionModel;

    open spec fn view(&self) -> FractionModel {
        FractionModel {
            order: self.order,
            whole: self.whole,
            json: self.json@,
            display: self.display@,
        }
    }
}

/// The places of 0, 1 and 30: the bits of the number as a binary64, which order the numbers that
/// are not negative.
pub const ORDER_ZERO: i64 = 0;

pub const ORDER_ONE: i64 = 0x3ff0_0000_0000_0000;

pub const ORDER_THIRTY: i64 = 0x403e_0000_0000_0000;

/// A copy of a number.
pub fn copy_fraction(x: &Fraction) -> (r: Fraction)
    ensures
        r@ == x@,
{
    Fraction {
        order: x.order,
        whole: x.whole,
        json: x.json.clone(),
        display: x.display.clone(),
    }
}

/// The number with the given place and notations.
pub fn fraction(order: i64, whole: u64, json: &str, display: &str) -> (r: Fraction)
    ensures
        r@ == (FractionModel { order, whole, json: json@, display: display@ }),
{
    Fraction { order, whole, json: json.to_string(), display: display.to_string() }
}

/// The number as a JSON value.
pub open spec fn fraction_value(x: FractionModel) -> JsonModel {
    JsonModel::Number(NumberModel::Float { text: x.json, whole: x.whole })
}

pub fn fraction_json(x: &Fraction) -> (r: Json)
    ensures
        r@ == fraction_value(x@),
{
    Json::Number(Number::Float { text: x.json.clone(), whole: x.whole })
}

/// The number, or the nearer end of the range where it lies outside.
pub open spec fn clamp(x: FractionModel, low: FractionModel, high: FractionModel) -> FractionModel {
    if x.order < low.order {
        low
    } else if x.order > high.order {
        high
    } else {
        x
    }
}

pub fn clamp_fraction(x: Fraction, low: Fraction, high: Fraction) -> (r: Fraction)
    requires
        low.order <= high.order,
    ensures
        r@ == clamp(x@, low@, high@),
{
    if x.order < low.order {
        low
    } else if x.order > high.order {
        high
    } else {
        x
    }
}

} // verus!
