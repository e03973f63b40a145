//! The arity attached to every field that a join reconstruction fills.

use vstd::prelude::*;
use vstd::string::StringExecFns;

verus! {

/// How many values a reconstructed field holds, and how absence is treated.
#[derive(Debug, Copy, Clone, PartialEq, Eq, Structural)]
pub enum Quantity {
    /// An optional single value: the last present value seen is kept.
    MaybeOne,
    /// A single value that is always present.
    One,
    /// A single value from a nullable column that must not be null.
    AssumeOne,
    /// An ordered list without duplicates, possibly empty.
    AtLeastZero,
    /// An ordered list without duplicates, assumed non-empty.
    AtLeastOne,
}

/// The spelling of each quantity in a join template.
pub open spec fn quantity_of_name(name: Seq<char>) -> Option<Quantity> {
    if name == "Option"@ {
        Some(Quantity::MaybeOne)
    } else if name == "One"@ {
        Some(Quantity::One)
    } else if name == "AssumeOne"@ {
        Some(Quantity::AssumeOne)
    } else if name == "Vec0"@ {
        Some(Quantity::AtLeastZero)
    } else if name == "Vec"@ {
        Some(Quantity::AtLeastOne)
    } else {
        None
    }
}

/// Whether two strings hold the same characters.
pub(crate) fn same_text(a: &str, b: &str) -> (r: bool)
    ensures
        r == (a@ == b@),
{
    a.to_owned() == b.to_owned()
}

impl Quantity {
    /// Whether the quantity collects a list.
    pub open spec fn is_list(self) -> bool {
        self is AtLeastZero || self is AtLeastOne
    }

    /// Reads a quantity from its spelling: `Option`, `One`, `AssumeOne`,
    /// `Vec0` or `Vec`. Any other spelling is a usage error whose message
    /// names the accepted ones.
    pub fn parse(name: &str) -> (r: Result<Quantity, String>)
        ensures
            quantity_of_name(name@) is Some ==> r == Ok::<Quantity, String>(
                quantity_of_name(name@).unwrap(),
            ),
            quantity_of_name(name@) is None ==> r is Err && r->Err_0@ == unknown_quantity_text(
                name@,
            ),
    {
        proof {
            reveal_strlit("Option");
            reveal_strlit("One");
            reveal_strlit("AssumeOne");
            reveal_strlit("Vec0");
            reveal_strlit("Vec");
        }
        if same_text(name, "Option") {
            Ok(Quantity::MaybeOne)
        } else if same_text(name, "One") {
            Ok(Quantity::One)
        } else if same_text(name, "AssumeOne") {
            Ok(Quantity::AssumeOne)
        } else if same_text(name, "Vec0") {
            Ok(Quantity::AtLeastZero)
        } else if same_text(name, "Vec") {
            Ok(Quantity::AtLeastOne)
        } else {
            Err(unknown_quantity_message(name))
        }
    }
}

/// The usage message for an unknown quantity spelling: it names the
/// spelling and lists the accepted ones.
pub open spec fn unknown_quantity_text(name: Seq<char>) -> Seq<char> {
    "Unknown quantity `"@ + name + "`. Expected `Option`, `One`, `AssumeOne`, `Vec0` or `Vec`"@
}

/// Writes the usage message for the unknown spelling `name`.
fn unknown_quantity_message(name: &str) -> (r: String)
    ensures
        r@ == unknown_quantity_text(name@),
{
    let mut msg = "Unknown quantity `".to_owned();
    msg.append(name);
    msg.append("`. Expected `Option`, `One`, `AssumeOne`, `Vec0` or `Vec`");
    msg
}

} // verus!
