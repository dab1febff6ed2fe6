use vstd::prelude::*;

use crate::text::{digits_value, is_numeral, numeral_digits, parse_decimal};

verus! {

/// Options of the head-of-file printer.
#[derive(Clone, Debug)]
pub struct Config {
    pub files: Vec<String>,
    pub lines: usize,
    pub bytes: Option<usize>,
}

/// Reads a strictly positive count; on failure the error holds the rejected text.
pub fn parse_positive_int(val: &str) -> (r: Result<usize, String>)
    ensures
        r is Ok <==> is_numeral(val@) && 0 < digits_value(numeral_digits(val@)) <= usize::MAX,
        r is Ok ==> r->Ok_0 == digits_value(numeral_digits(val@)),
        r is Err ==> r->Err_0@ == val@,
{
    match parse_decimal(val) {
        Some(n) => {
            if n > 0 {
                Ok(n)
            } else {
                Err(val.to_owned())
            }
        },
        None => Err(val.to_owned()),
    }
}

} // verus!
