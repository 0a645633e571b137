//! Literal values and their SQL notation.
use vstd::prelude::*;

use crate::text::{
    denotes_integer, lemma_signed_decimal_is_notation, push_signed_decimal, push_sql_string,
    signed_decimal, sql_string,
};

verus! {

/// A value that can be written into SQL text as a literal.
pub trait Literal {
    /// The SQL notation of this value.
    spec fn literal_text(&self) -> Seq<char>;

    /// Writes the SQL notation of this value to `w`.
    fn write_literal(&self, w: &mut String) -> (r: Result<(), std::fmt::Error>)
        ensures
            r is Ok,
            final(w)@ == old(w)@ + self.literal_text(),
    ;
}

impl Literal for i64 {
    /// The decimal notation, with a minus sign when negative.
    open spec fn literal_text(&self) -> Seq<char> {
        signed_decimal(*self as int)
    }

    fn write_literal(&self, w: &mut String) -> (r: Result<(), std::fmt::Error>) {
        push_signed_decimal(w, *self);
        Ok(())
    }
}

impl Literal for i32 {
    /// The decimal notation, with a minus sign when negative.
    open spec fn literal_text(&self) -> Seq<char> {
        signed_decimal(*self as int)
    }

    fn write_literal(&self, w: &mut String) -> (r: Result<(), std::fmt::Error>) {
        push_signed_decimal(w, *self as i64);
        Ok(())
    }
}

impl Literal for i16 {
    /// The decimal notation, with a minus sign when negative.
    open spec fn literal_text(&self) -> Seq<char> {
        signed_decimal(*self as int)
    }

    fn write_literal(&self, w: &mut String) -> (r: Result<(), std::fmt::Error>) {
        push_signed_decimal(w, *self as i64);
        Ok(())
    }
}

impl Literal for bool {
    /// `TRUE` or `FALSE`.
    open spec fn literal_text(&self) -> Seq<char> {
        if *self { seq!['T', 'R', 'U', 'E'] } else { seq!['F', 'A', 'L', 'S', 'E'] }
    }

    fn write_literal(&self, w: &mut String) -> (r: Result<(), std::fmt::Error>) {
        if *self {
            w.append("TRUE");
            proof { reveal_strlit("TRUE"); }
        } else {
            w.append("FALSE");
            proof { reveal_strlit("FALSE"); }
        }
        Ok(())
    }
}

impl<'a> Literal for &'a str {
    /// A string constant: `'...'`, with each single quote inside doubled.
    open spec fn literal_text(&self) -> Seq<char> {
        sql_string((*self)@)
    }

    fn write_literal(&self, w: &mut String) -> (r: Result<(), std::fmt::Error>) {
        push_sql_string(w, *self);
        Ok(())
    }
}

impl Literal for String {
    /// A string constant: `'...'`, with each single quote inside doubled.
    open spec fn literal_text(&self) -> Seq<char> {
        sql_string(self@)
    }

    fn write_literal(&self, w: &mut String) -> (r: Result<(), std::fmt::Error>) {
        push_sql_string(w, self.as_str());
        Ok(())
    }
}

/// An `i64` literal is written as a notation of its value.
pub proof fn lemma_i64_literal_denotes(x: i64)
    ensures
        denotes_integer(x.literal_text(), x as int),
{
    lemma_signed_decimal_is_notation(x as int);
}

/// An `i32` literal is written as a notation of its value, the same text as
/// the `i64` of the same value.
pub proof fn lemma_i32_literal_denotes(x: i32)
    ensures
        denotes_integer(x.literal_text(), x as int),
        x.literal_text() == (x as i64).literal_text(),
{
    lemma_signed_decimal_is_notation(x as int);
}

/// An `i16` literal is written as a notation of its value, the same text as
/// the `i64` of the same value.
pub proof fn lemma_i16_literal_denotes(x: i16)
    ensures
        denotes_integer(x.literal_text(), x as int),
        x.literal_text() == (x as i64).literal_text(),
{
    lemma_signed_decimal_is_notation(x as int);
}

} // verus!
