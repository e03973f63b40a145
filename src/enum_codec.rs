//! The stored text of each variant of a unit-only enum, and the way back.
//!
//! Each variant is stored as its own override when it has one, else as its
//! name under the enum's rename rule. Reading a stored text gives the first
//! variant whose text it is.

use vstd::prelude::*;
use crate::rename_rule::{renamed, RenameRule};

verus! {

/// A variant as declared: its name and an optional stored-name override.
#[derive(Debug, Clone)]
pub struct EnumVariant {
    pub name: String,
    pub rename: Option<String>,
}

/// The stored text of a variant under `rule`.
pub open spec fn stored_text(v: EnumVariant, rule: RenameRule) -> Seq<char> {
    match v.rename {
        Some(r) => r@,
        None => renamed(rule, v.name@),
    }
}

/// The stored text of every variant of an enum, in declaration order.
#[derive(Debug)]
pub struct EnumCodec {
    texts: Vec<String>,
}

impl View for EnumCodec {
    type V = Seq<Seq<char>>;

    closed spec fn view(&self) -> Seq<Seq<char>> {
        self.texts@.map_values(|t: String| t@)
    }
}

/// Whether `i` is the first place of `text` among `texts`.
pub open spec fn first_place_of(texts: Seq<Seq<char>>, text: Seq<char>, i: int) -> bool {
    &&& 0 <= i < texts.len()
    &&& texts[i] == text
    &&& forall|j: int| 0 <= j < i ==> texts[j] != text
}

impl EnumCodec {
    /// The stored texts of `variants` under `rule`.
    pub fn new(variants: &Vec<EnumVariant>, rule: RenameRule) -> (r: EnumCodec)
        ensures
            r@.len() == variants@.len(),
            forall|i: int| 0 <= i < variants@.len() ==> r@[i] == stored_text(variants@[i], rule),
    {
        let mut texts: Vec<String> = Vec::new();
        let mut i: usize = 0;
        while i < variants.len()
            invariant
                i <= variants.len(),
                texts@.len() == i,
                forall|j: int| 0 <= j < i ==> texts@[j]@ == stored_text(variants@[j], rule),
            decreases variants.len() - i,
        {
            let v = &variants[i];
            let text = match &v.rename {
                Some(r) => r.clone(),
                None => rule.format(v.name.as_str()),
            };
            texts.push(text);
            i += 1;
        }
        let r = EnumCodec { texts };
        assert forall|j: int| 0 <= j < variants@.len() implies r@[j] == stored_text(
            variants@[j],
            rule,
        ) by {
            assert(r@[j] == r.texts@[j]@);
        }
        r
    }

    /// The number of variants.
    pub fn len(&self) -> (r: usize)
        ensures
            r == self@.len(),
    {
        self.texts.len()
    }

    /// The stored text of variant `variant`.
    pub fn encode(&self, variant: usize) -> (r: &str)
        requires
            variant < self@.len(),
        ensures
            r@ == self@[variant as int],
    {
        self.texts[variant].as_str()
    }

    /// The first variant whose stored text is `text`; `None` when no variant
    /// is stored that way.
    pub fn decode(&self, text: &str) -> (r: Option<usize>)
        ensures
            r is Some ==> first_place_of(self@, text@, r.unwrap() as int),
            r is None ==> forall|j: int| 0 <= j < self@.len() ==> self@[j] != text@,
    {
        let wanted = text.to_owned();
        let mut i: usize = 0;
        while i < self.texts.len()
            invariant
                i <= self.texts.len(),
                wanted@ == text@,
                forall|j: int| 0 <= j < i ==> self@[j] != text@,
            decreases self.texts.len() - i,
        {
            if self.texts[i] == wanted {
                return Some(i);
            }
            i += 1;
        }
        None
    }
}

/// When no two variants share a stored text, reading the stored text of a
/// variant gives back that same variant.
pub proof fn lemma_decode_of_encode(texts: Seq<Seq<char>>, i: int, j: int)
    requires
        texts.no_duplicates(),
        0 <= i < texts.len(),
        first_place_of(texts, texts[i], j),
    ensures
        j == i,
{
}

} // verus!
