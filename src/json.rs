//! Values stored as JSON text (`json`) or binary JSON (`jsonb`) columns.

use vstd::prelude::*;

verus! {

/// A value stored in a `json` column.
#[derive(Debug, Default, Clone, Copy, PartialEq, Eq, PartialOrd, Ord, Hash)]
pub struct Json<T>(T);

impl<T> Json<T> {
    /// The value held.
    pub closed spec fn value(self) -> T {
        self.0
    }

    /// Wraps `value`.
    pub fn new(value: T) -> (r: Json<T>)
        ensures
            r.value() == value,
    {
        Json(value)
    }

    /// Borrows the value.
    pub fn get(&self) -> (r: &T)
        ensures
            *r == self.value(),
    {
        &self.0
    }

    /// Unwraps the value.
    pub fn into_inner(self) -> (r: T)
        ensures
            r == self.value(),
    {
        self.0
    }
}

impl<T> From<T> for Json<T> {
    fn from(value: T) -> (r: Json<T>) {
        Json(value)
    }
}

impl<T> vstd::std_specs::convert::FromSpecImpl<T> for Json<T> {
    open spec fn obeys_from_spec() -> bool {
        true
    }

    closed spec fn from_spec(value: T) -> Json<T> {
        Json(value)
    }
}

/// A value stored in a `jsonb` column.
#[derive(Debug, Default, Clone, Copy, PartialEq, Eq, PartialOrd, Ord, Hash)]
pub struct Jsonb<T>(T);

impl<T> Jsonb<T> {
    /// The value held.
    pub closed spec fn value(self) -> T {
        self.0
    }

    /// Wraps `value`.
    pub fn new(value: T) -> (r: Jsonb<T>)
        ensures
            r.value() == value,
    {
        Jsonb(value)
    }

    /// Borrows the value.
    pub fn get(&self) -> (r: &T)
        ensures
            *r == self.value(),
    {
        &self.0
    }

    /// Unwraps the value.
    pub fn into_inner(self) -> (r: T)
        ensures
            r == self.value(),
    {
        self.0
    }
}

impl<T> From<T> for Jsonb<T> {
    fn from(value: T) -> (r: Jsonb<T>) {
        Jsonb(value)
    }
}

impl<T> vstd::std_specs::convert::FromSpecImpl<T> for Jsonb<T> {
    open spec fn obeys_from_spec() -> bool {
        true
    }

    closed spec fn from_spec(value: T) -> Jsonb<T> {
        Jsonb(value)
    }
}

/// The version byte that starts every binary JSON payload.
pub const JSONB_VERSION: u8 = 1;

/// Why a binary JSON payload could not be opened.
#[derive(Debug, Clone, Copy, PartialEq, Eq, Structural)]
pub enum JsonbFrameError {
    /// The payload holds no byte at all.
    Empty,
    /// The payload starts with a version byte other than [`JSONB_VERSION`].
    UnsupportedVersion,
}

/// Frames JSON text as a binary JSON payload: the version byte, then the text.
pub fn frame_jsonb(text: &[u8]) -> (r: Vec<u8>)
    ensures
        r@ == seq![JSONB_VERSION].add(text@),
{
    let mut out: Vec<u8> = Vec::new();
    out.push(JSONB_VERSION);
    let mut i: usize = 0;
    while i < text.len()
        invariant
            i <= text.len(),
            out@ == seq![JSONB_VERSION].add(text@.take(i as int)),
        decreases text.len() - i,
    {
        out.push(text[i]);
        i += 1;
        assert(out@ =~= seq![JSONB_VERSION].add(text@.take(i as int)));
    }
    assert(text@.take(text.len() as int) =~= text@);
    out
}

/// Opens a binary JSON payload: checks the version byte and gives back the
/// JSON text after it.
pub fn unframe_jsonb(payload: &[u8]) -> (r: Result<&[u8], JsonbFrameError>)
    ensures
        payload@.len() == 0 ==> r == Err::<&[u8], JsonbFrameError>(JsonbFrameError::Empty),
        payload@.len() > 0 && payload@[0] != JSONB_VERSION ==> r == Err::<&[u8], JsonbFrameError>(
            JsonbFrameError::UnsupportedVersion,
        ),
        payload@.len() > 0 && payload@[0] == JSONB_VERSION ==> r is Ok && r.unwrap()@
            == payload@.drop_first(),
{
    if payload.len() == 0 {
        return Err(JsonbFrameError::Empty);
    }
    if payload[0] != JSONB_VERSION {
        return Err(JsonbFrameError::UnsupportedVersion);
    }
    let (_, rest) = payload.split_at(1);
    Ok(rest)
}

/// Opening a framed payload gives back the framed text.
pub proof fn lemma_jsonb_frame_round_trip(text: Seq<u8>)
    ensures
        seq![JSONB_VERSION].add(text).len() > 0,
        seq![JSONB_VERSION].add(text)[0] == JSONB_VERSION,
        seq![JSONB_VERSION].add(text).drop_first() == text,
{
    assert(seq![JSONB_VERSION].add(text).drop_first() =~= text);
}

} // verus!
