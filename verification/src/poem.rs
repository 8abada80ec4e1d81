//! The immutable poem record: one id, its display form, and the paired
//! original-language and translated lines.

use vstd::prelude::*;

use crate::model::PoemM;
use crate::numstr::{dec_digits, grouped_digits, spec_grouped};

verus! {

/// A completed poem, built once from its two matched sections.
#[derive(Debug)]
pub struct Poem {
    pub nn: u32,
    /// `nn` rendered with its decimal digits grouped in threes.
    pub nn_str: String,
    /// The original-language lines, in source order.
    pub en: Vec<String>,
    /// The translated lines, in source order.
    pub ru: Vec<String>,
}

impl View for Poem {
    type V = PoemM;

    open spec fn view(&self) -> PoemM {
        PoemM { nn: self.nn, en: self.en.deep_view(), ru: self.ru.deep_view() }
    }
}

impl Poem {
    /// The display form of the id holds exactly its grouped decimal digits.
    pub open spec fn wf(&self) -> bool {
        self.nn_str@ == spec_grouped(dec_digits(self.nn as nat), " "@)
    }

    /// A poem with id `nn`, original-language lines `en` and translated lines
    /// `ru`; its display id is derived from `nn`.
    pub fn new(nn: u32, en: Vec<String>, ru: Vec<String>) -> (p: Poem)
        ensures
            p@ == (PoemM { nn, en: en.deep_view(), ru: ru.deep_view() }),
            p.wf(),
    {
        Poem { nn, nn_str: Self::nn_str(nn, " "), en, ru }
    }

    /// The decimal digits of `nn` grouped in blocks of three counted from the
    /// least-significant digit, joined with `sep`; the leftmost group may be
    /// shorter than three digits.
    pub fn nn_str(nn: u32, sep: &str) -> (r: String)
        ensures
            r@ == spec_grouped(dec_digits(nn as nat), sep@),
    {
        grouped_digits(nn, sep)
    }
}

} // verus!
