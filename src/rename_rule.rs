//! Case conventions for the stored names of enum variants.

use vstd::prelude::*;
use heck::{
    ToKebabCase, ToLowerCamelCase, ToPascalCase, ToShoutyKebabCase, ToShoutySnakeCase, ToSnakeCase,
};
use crate::quantity::same_text;

verus! {

/// What `str::to_lowercase` returns.
pub uninterp spec fn lowercase_of(s: Seq<char>) -> Seq<char>;

/// What `str::to_uppercase` returns.
pub uninterp spec fn uppercase_of(s: Seq<char>) -> Seq<char>;

/// What heck's `to_pascal_case` returns.
pub uninterp spec fn pascal_case_of(s: Seq<char>) -> Seq<char>;

/// What heck's `to_lower_camel_case` returns.
pub uninterp spec fn camel_case_of(s: Seq<char>) -> Seq<char>;

/// What heck's `to_snake_case` returns.
pub uninterp spec fn snake_case_of(s: Seq<char>) -> Seq<char>;

/// What heck's `to_shouty_snake_case` returns.
pub uninterp spec fn screaming_snake_case_of(s: Seq<char>) -> Seq<char>;

/// What heck's `to_kebab_case` returns.
pub uninterp spec fn kebab_case_of(s: Seq<char>) -> Seq<char>;

/// What heck's `to_shouty_kebab_case` returns.
pub uninterp spec fn screaming_kebab_case_of(s: Seq<char>) -> Seq<char>;

/// Relies on `str::to_lowercase`: the result depends on the characters alone.
#[verifier::external_body]
fn to_lowercase(s: &str) -> (r: String)
    ensures
        r@ == lowercase_of(s@),
{
    s.to_lowercase()
}

/// Relies on `str::to_uppercase`: the result depends on the characters alone.
#[verifier::external_body]
fn to_uppercase(s: &str) -> (r: String)
    ensures
        r@ == uppercase_of(s@),
{
    s.to_uppercase()
}

/// Relies on heck's `ToPascalCase::to_pascal_case` for `str`.
#[verifier::external_body]
fn to_pascal_case(s: &str) -> (r: String)
    ensures
        r@ == pascal_case_of(s@),
{
    s.to_pascal_case()
}

/// Relies on heck's `ToLowerCamelCase::to_lower_camel_case` for `str`.
#[verifier::external_body]
fn to_camel_case(s: &str) -> (r: String)
    ensures
        r@ == camel_case_of(s@),
{
    s.to_lower_camel_case()
}

/// Relies on heck's `ToSnakeCase::to_snake_case` for `str`.
#[verifier::external_body]
fn to_snake_case(s: &str) -> (r: String)
    ensures
        r@ == snake_case_of(s@),
{
    s.to_snake_case()
}

/// Relies on heck's `ToShoutySnakeCase::to_shouty_snake_case` for `str`.
#[verifier::external_body]
fn to_screaming_snake_case(s: &str) -> (r: String)
    ensures
        r@ == screaming_snake_case_of(s@),
{
    s.to_shouty_snake_case()
}

/// Relies on heck's `ToKebabCase::to_kebab_case` for `str`.
#[verifier::external_body]
fn to_kebab_case(s: &str) -> (r: String)
    ensures
        r@ == kebab_case_of(s@),
{
    s.to_kebab_case()
}

/// Relies on heck's `ToShoutyKebabCase::to_shouty_kebab_case` for `str`.
#[verifier::external_body]
fn to_screaming_kebab_case(s: &str) -> (r: String)
    ensures
        r@ == screaming_kebab_case_of(s@),
{
    s.to_shouty_kebab_case()
}

/// A case convention applied to every variant name of an enum.
#[derive(Debug, Copy, Clone, PartialEq, Eq, Structural)]
pub enum RenameRule {
    /// Names are kept as written.
    Unchanged,
    LowerCase,
    SnakeCase,
    UpperCase,
    PascalCase,
    CamelCase,
    ScreamingSnakeCase,
    KebabCase,
    ScreamingKebabCase,
}

/// The name `s` under `rule`.
pub open spec fn renamed(rule: RenameRule, s: Seq<char>) -> Seq<char> {
    match rule {
        RenameRule::Unchanged => s,
        RenameRule::LowerCase => lowercase_of(s),
        RenameRule::UpperCase => uppercase_of(s),
        RenameRule::PascalCase => pascal_case_of(s),
        RenameRule::CamelCase => camel_case_of(s),
        RenameRule::SnakeCase => snake_case_of(s),
        RenameRule::ScreamingSnakeCase => screaming_snake_case_of(s),
        RenameRule::KebabCase => kebab_case_of(s),
        RenameRule::ScreamingKebabCase => screaming_kebab_case_of(s),
    }
}

/// The rule that each spelling of an enum's `rename_all` setting names.
pub open spec fn rule_of_name(name: Seq<char>) -> Option<RenameRule> {
    if name == "lowercase"@ {
        Some(RenameRule::LowerCase)
    } else if name == "UPPERCASE"@ {
        Some(RenameRule::UpperCase)
    } else if name == "PascalCase"@ {
        Some(RenameRule::PascalCase)
    } else if name == "camelCase"@ {
        Some(RenameRule::CamelCase)
    } else if name == "snake_case"@ {
        Some(RenameRule::SnakeCase)
    } else if name == "SCREAMING_SNAKE_CASE"@ {
        Some(RenameRule::ScreamingSnakeCase)
    } else if name == "kebab-case"@ {
        Some(RenameRule::KebabCase)
    } else if name == "SCREAMING-KEBAB-CASE"@ {
        Some(RenameRule::ScreamingKebabCase)
    } else {
        None
    }
}

impl RenameRule {
    /// Writes `val` under this rule.
    pub fn format(self, val: &str) -> (r: String)
        ensures
            r@ == renamed(self, val@),
    {
        match self {
            RenameRule::Unchanged => val.to_owned(),
            RenameRule::LowerCase => to_lowercase(val),
            RenameRule::UpperCase => to_uppercase(val),
            RenameRule::PascalCase => to_pascal_case(val),
            RenameRule::CamelCase => to_camel_case(val),
            RenameRule::SnakeCase => to_snake_case(val),
            RenameRule::ScreamingSnakeCase => to_screaming_snake_case(val),
            RenameRule::KebabCase => to_kebab_case(val),
            RenameRule::ScreamingKebabCase => to_screaming_kebab_case(val),
        }
    }

    /// Reads a rule from its spelling (`lowercase`, `UPPERCASE`, `PascalCase`,
    /// `camelCase`, `snake_case`, `SCREAMING_SNAKE_CASE`, `kebab-case`,
    /// `SCREAMING-KEBAB-CASE`); any other spelling is refused.
    pub fn parse(name: &str) -> (r: Result<RenameRule, String>)
        ensures
            rule_of_name(name@) is Some ==> r == Ok::<RenameRule, String>(
                rule_of_name(name@).unwrap(),
            ),
            rule_of_name(name@) is None ==> r is Err && r->Err_0@ == "invalid rename rule"@,
    {
        proof {
            reveal_strlit("lowercase");
            reveal_strlit("UPPERCASE");
            reveal_strlit("PascalCase");
            reveal_strlit("camelCase");
            reveal_strlit("snake_case");
            reveal_strlit("SCREAMING_SNAKE_CASE");
            reveal_strlit("kebab-case");
            reveal_strlit("SCREAMING-KEBAB-CASE");
        }
        if same_text(name, "lowercase") {
            Ok(RenameRule::LowerCase)
        } else if same_text(name, "UPPERCASE") {
            Ok(RenameRule::UpperCase)
        } else if same_text(name, "PascalCase") {
            Ok(RenameRule::PascalCase)
        } else if same_text(name, "camelCase") {
            Ok(RenameRule::CamelCase)
        } else if same_text(name, "snake_case") {
            Ok(RenameRule::SnakeCase)
        } else if same_text(name, "SCREAMING_SNAKE_CASE") {
            Ok(RenameRule::ScreamingSnakeCase)
        } else if same_text(name, "kebab-case") {
            Ok(RenameRule::KebabCase)
        } else if same_text(name, "SCREAMING-KEBAB-CASE") {
            Ok(RenameRule::ScreamingKebabCase)
        } else {
            Err("invalid rename rule".to_owned())
        }
    }
}

impl std::str::FromStr for RenameRule {
    type Err = String;

    fn from_str(s: &str) -> Result<RenameRule, String> {
        RenameRule::parse(s)
    }
}

} // verus!
