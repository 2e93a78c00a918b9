use vstd::prelude::*;
use vstd::string::*;

use crate::text::{decimal, i32_text};

verus! {

/// Something that looks at a value and says what it did with it.
pub trait Visitor<T> {
    spec fn report(&self, value: T) -> Seq<char>;

    fn visit(&self, value: T) -> (r: String)
        ensures
            r@ == self.report(value),
    ;
}

pub struct Printer;

pub struct Handler;

impl<'a> Visitor<&'a i32> for Printer {
    open spec fn report(&self, value: &'a i32) -> Seq<char> {
        "Printing "@ + decimal(*value as int)
    }

    fn visit(&self, value: &'a i32) -> (r: String) {
        proof {
            reveal_strlit("Printing ");
        }
        String::from_str("Printing ").concat(i32_text(*value).as_str())
    }
}

impl<'a> Visitor<&'a i32> for Handler {
    open spec fn report(&self, value: &'a i32) -> Seq<char> {
        "Handling "@ + decimal(*value as int)
    }

    fn visit(&self, value: &'a i32) -> (r: String) {
        proof {
            reveal_strlit("Handling ");
        }
        String::from_str("Handling ").concat(i32_text(*value).as_str())
    }
}

/// Lets `arg` visit a value that lives only inside this call, and returns
/// what it reported.
pub fn process_data<V>(arg: V) -> (r: String)
    where
        V: for<'a> Visitor<&'a i32>,
    ensures
        r@ == arg.report(&10i32),
{
    let local_data: i32 = 10;
    arg.visit(&local_data)
}

} // verus!
