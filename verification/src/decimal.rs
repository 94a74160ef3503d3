use vstd::prelude::*;
use crate::lexical::{is_digit, is_number, is_unsigned_number, lemma_number_start};
use crate::scanner::is_number_text;

verus! {

/// The value of a numeric literal: the sign, the digits read as one natural
/// number, and how many of them stand after the point. The literal denotes
/// `mantissa / 10^scale`, negated where `negative` is set.
pub struct DecimalView {
    pub negative: bool,
    pub mantissa: nat,
    pub scale: nat,
}

/// The value of the digit `c`.
pub open spec fn digit_value(c: char) -> nat
    recommends
        is_digit(c),
{
    (c as nat - '0' as nat) as nat
}

/// The digits of `s` read as one decimal numeral; other characters are passed
/// over.
pub open spec fn digits_value(s: Seq<char>) -> nat
    decreases s.len(),
{
    if s.len() == 0 {
        0
    } else if is_digit(s.last()) {
        digits_value(s.drop_last()) * 10 + digit_value(s.last())
    } else {
        digits_value(s.drop_last())
    }
}

/// How many characters follow the first point of `s`; 0 where it has none.
pub open spec fn fraction_length(s: Seq<char>) -> nat
    decreases s.len(),
{
    if s.len() == 0 {
        0
    } else if s[0] == '.' {
        (s.len() - 1) as nat
    } else {
        fraction_length(s.skip(1))
    }
}

/// The value that the numeric literal `s` denotes.
pub open spec fn decimal_of(s: Seq<char>) -> DecimalView {
    DecimalView {
        negative: s.len() > 0 && s[0] == '-',
        mantissa: digits_value(s),
        scale: fraction_length(s),
    }
}

/// A numeric literal, kept by its spelling so that no digit is lost.
#[derive(Debug, PartialEq, Eq)]
pub struct Decimal {
    text: String,
}

impl View for Decimal {
    type V = DecimalView;

    closed spec fn view(&self) -> DecimalView {
        decimal_of(self.text@)
    }
}

impl Clone for Decimal {
    fn clone(&self) -> (d: Decimal)
        ensures
            d@ == self@,
            d.spelling() == self.spelling(),
    {
        proof {
            use_type_invariant(self);
        }
        Decimal { text: self.text.clone() }
    }
}

impl Decimal {
    #[verifier::type_invariant]
    spec fn well_formed(self) -> bool {
        is_number(self.text@)
    }

    /// The literal as it was written.
    pub closed spec fn spelling(&self) -> Seq<char> {
        self.text@
    }

    /// The number that the lexeme `text` spells.
    pub(crate) fn from_lexeme(text: String) -> (d: Decimal)
        requires
            is_number(text@),
        ensures
            d.spelling() == text@,
            d@ == decimal_of(text@),
    {
        Decimal { text }
    }

    /// The number that `text` spells, or nothing where it spells none.
    pub fn parse(text: &str) -> (r: Option<Decimal>)
        ensures
            r is Some <==> is_number(text@),
            r matches Some(d) ==> d.spelling() == text@ && d@ == decimal_of(text@),
    {
        let chars = crate::text::chars_of(text);
        if is_number_text(&chars) {
            Some(Decimal { text: text.to_owned() })
        } else {
            None
        }
    }

    /// The literal as it was written: a form that every decimal parser reads.
    pub fn text(&self) -> (s: &str)
        ensures
            s@ == self.spelling(),
            is_number(s@),
            decimal_of(s@) == self@,
    {
        proof {
            use_type_invariant(self);
        }
        self.text.as_str()
    }

    /// Whether the literal starts with a minus sign.
    pub fn is_negative(&self) -> (b: bool)
        ensures
            b == self@.negative,
    {
        proof {
            use_type_invariant(self);
            if is_unsigned_number(self.text@) {
                lemma_number_start(self.text@);
            }
        }
        self.text.as_str().get_char(0) == '-'
    }
}

} // verus!
