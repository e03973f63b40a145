//! Non-negative integers that fit the positive half of a signed SQL integer
//! column (`SMALLINT`, `INTEGER`, `BIGINT` with a `>= 0` check).

use vstd::prelude::*;
use crate::error::{ParseIntError, TryFromIntError};

verus! {

/// Characters of the decimal digits, indexed by their value.
pub open spec fn digit_char(d: int) -> char {
    seq!['0', '1', '2', '3', '4', '5', '6', '7', '8', '9'][d]
}

/// Value of a decimal digit character.
pub open spec fn digit_value(c: char) -> int {
    c as int - '0' as int
}

/// Whether `s` is a non-empty string of decimal digits.
pub open spec fn is_digits(s: Seq<char>) -> bool {
    s.len() > 0 && forall|i: int| 0 <= i < s.len() ==> '0' <= #[trigger] s[i] <= '9'
}

/// Numeric value of a string of decimal digits, most significant first.
pub open spec fn digits_value(s: Seq<char>) -> int
    decreases s.len(),
{
    if s.len() == 0 {
        0
    } else {
        digits_value(s.drop_last()) * 10 + digit_value(s.last())
    }
}

/// The number written by `s`: an optional leading `+`, then decimal digits.
pub open spec fn decimal_of(s: Seq<char>) -> Option<int> {
    let d = if s.len() > 0 && s[0] == '+' { s.drop_first() } else { s };
    if is_digits(d) {
        Some(digits_value(d))
    } else {
        None
    }
}

/// Shortest decimal text of `n`.
pub open spec fn decimal_text(n: nat) -> Seq<char>
    decreases n,
{
    if n < 10 {
        seq![digit_char(n as int)]
    } else {
        decimal_text(n / 10).push(digit_char((n % 10) as int))
    }
}

/// Relies on `<u16 as FromStr>::from_str`: accepts exactly an optional `+`
/// followed by decimal digits whose value fits in `u16`.
#[verifier::external_body]
fn parse_u16(s: &str) -> (r: Result<u16, std::num::ParseIntError>)
    ensures
        r is Ok <==> (decimal_of(s@) is Some && decimal_of(s@).unwrap() <= u16::MAX),
        r is Ok ==> decimal_of(s@) == Some(r.unwrap() as int),
{
    s.parse::<u16>()
}

/// Relies on `<u16 as Display>`: the shortest decimal text of the number.
#[verifier::external_body]
fn text_u16(n: u16) -> (r: String)
    ensures
        r@ == decimal_text(n as nat),
{
    n.to_string()
}

/// A non-negative `i16`: the range of a `SMALLINT` column with a `>= 0`
/// check, held as a `u16` that never exceeds `i16::MAX`.
#[derive(Debug, Copy, Clone, PartialEq, Eq, Structural, PartialOrd, Ord, Hash)]
pub struct U15(u16);

impl View for U15 {
    type V = nat;

    closed spec fn view(&self) -> nat {
        self.0 as nat
    }
}

impl U15 {
    /// The size of this integer type in bits.
    pub const BITS: u32 = 15;

    #[verifier::type_invariant]
    spec fn inv(self) -> bool {
        self.0 <= 32767
    }

    /// The smallest value that can be represented by this integer type.
    pub fn min_value() -> (r: U15)
        ensures
            r@ == 0,
    {
        U15(0)
    }

    /// The largest value that can be represented by this integer type.
    pub fn max_value() -> (r: U15)
        ensures
            r@ == 32767,
    {
        U15(32767)
    }

    /// Creates a value from an unsigned integer if it is at most `32767`.
    pub fn new(n: u16) -> (r: Option<U15>)
        ensures
            r is Some <==> n <= 32767,
            r is Some ==> r.unwrap()@ == n,
    {
        if n <= 32767 {
            Some(U15(n))
        } else {
            None
        }
    }

    /// Creates a value from a signed integer if it is not negative.
    pub fn new_signed(n: i16) -> (r: Option<U15>)
        ensures
            r is Some <==> n >= 0,
            r is Some ==> r.unwrap()@ == n,
    {
        if n >= 0 {
            Some(U15(n as u16))
        } else {
            None
        }
    }

    /// Returns the value as an unsigned integer.
    pub fn get(self) -> (r: u16)
        ensures
            r == self@,
            r <= 32767,
    {
        proof {
            use_type_invariant(self);
        }
        self.0
    }

    /// Returns the value as a signed integer.
    pub fn get_signed(self) -> (r: i16)
        ensures
            r == self@,
            r >= 0,
    {
        proof {
            use_type_invariant(self);
        }
        self.0 as i16
    }

    /// Computes `self + rhs`, or `None` past the maximum.
    pub fn checked_add(self, rhs: U15) -> (r: Option<U15>)
        ensures
            r is Some <==> self@ + rhs@ <= 32767,
            r is Some ==> r.unwrap()@ == self@ + rhs@,
    {
        match self.get_signed().checked_add(rhs.get_signed()) {
            Some(res) => Some(U15(res as u16)),
            None => None,
        }
    }

    /// Computes `self + rhs`, saturating at the maximum.
    pub fn saturating_add(self, rhs: U15) -> (r: U15)
        ensures
            r@ == if self@ + rhs@ <= 32767 { self@ + rhs@ } else { 32767 },
    {
        match self.checked_add(rhs) {
            Some(res) => res,
            None => U15::max_value(),
        }
    }

    /// Computes `self - rhs`, or `None` below zero.
    pub fn checked_sub(self, rhs: U15) -> (r: Option<U15>)
        ensures
            r is Some <==> rhs@ <= self@,
            r is Some ==> r.unwrap()@ == self@ - rhs@,
    {
        proof {
            use_type_invariant(self);
        }
        match self.get().checked_sub(rhs.get()) {
            Some(res) => Some(U15(res)),
            None => None,
        }
    }

    /// Computes `self - rhs`, saturating at zero.
    pub fn saturating_sub(self, rhs: U15) -> (r: U15)
        ensures
            r@ == if rhs@ <= self@ { self@ - rhs@ } else { 0 },
    {
        match self.checked_sub(rhs) {
            Some(res) => res,
            None => U15::min_value(),
        }
    }

    /// Computes `self * rhs`, or `None` past the maximum.
    pub fn checked_mul(self, rhs: U15) -> (r: Option<U15>)
        ensures
            r is Some <==> self@ * rhs@ <= 32767,
            r is Some ==> r.unwrap()@ == self@ * rhs@,
    {
        match self.get_signed().checked_mul(rhs.get_signed()) {
            Some(res) => Some(U15(res as u16)),
            None => None,
        }
    }

    /// Computes `self * rhs`, saturating at the maximum.
    pub fn saturating_mul(self, rhs: U15) -> (r: U15)
        ensures
            r@ == if self@ * rhs@ <= 32767 { self@ * rhs@ } else { 32767 },
    {
        match self.checked_mul(rhs) {
            Some(res) => res,
            None => U15::max_value(),
        }
    }

    /// Parses an optional `+` followed by decimal digits; the number must not
    /// exceed `32767`.
    pub fn from_decimal(s: &str) -> (r: Result<U15, ParseIntError>)
        ensures
            r is Ok <==> (decimal_of(s@) is Some && decimal_of(s@).unwrap() <= 32767),
            r is Ok ==> decimal_of(s@) == Some(r.unwrap()@ as int),
            r matches Err(ParseIntError::Parse(_)) <==> !(decimal_of(s@) is Some
                && decimal_of(s@).unwrap() <= u16::MAX),
    {
        match parse_u16(s) {
            Ok(v) => match U15::new(v) {
                Some(x) => Ok(x),
                None => Err(ParseIntError::OutOfRange(TryFromIntError)),
            },
            Err(e) => Err(ParseIntError::Parse(e)),
        }
    }

    /// The decimal text of the value.
    pub fn to_string(&self) -> (r: String)
        ensures
            r@ == decimal_text(self@),
    {
        text_u16(self.get())
    }

    /// Computes `self / rhs`, rounding down, or `None` when `rhs` is zero.
    pub fn checked_div(self, rhs: U15) -> (r: Option<U15>)
        ensures
            r is Some <==> rhs@ != 0,
            r is Some ==> r.unwrap()@ == self@ / rhs@,
    {
        proof {
            use_type_invariant(self);
        }
        match self.get().checked_div(rhs.get()) {
            Some(res) => Some(U15(res)),
            None => None,
        }
    }
}

impl std::str::FromStr for U15 {
    type Err = ParseIntError;

    fn from_str(s: &str) -> Result<U15, ParseIntError> {
        U15::from_decimal(s)
    }
}

impl Default for U15 {
    fn default() -> (r: U15)
        ensures
            r@ == 0,
    {
        U15::min_value()
    }
}

impl From<U15> for u16 {
    fn from(v: U15) -> (r: u16) {
        v.get()
    }
}

impl vstd::std_specs::convert::FromSpecImpl<U15> for u16 {
    open spec fn obeys_from_spec() -> bool {
        true
    }

    open spec fn from_spec(v: U15) -> u16 {
        v@ as u16
    }
}

impl From<U15> for i16 {
    fn from(v: U15) -> (r: i16) {
        v.get_signed()
    }
}

impl vstd::std_specs::convert::FromSpecImpl<U15> for i16 {
    open spec fn obeys_from_spec() -> bool {
        true
    }

    open spec fn from_spec(v: U15) -> i16 {
        v@ as i16
    }
}

impl TryFrom<u16> for U15 {
    type Error = TryFromIntError;

    fn try_from(n: u16) -> (r: Result<U15, TryFromIntError>) {
        match U15::new(n) {
            Some(v) => Ok(v),
            None => Err(TryFromIntError),
        }
    }
}

impl vstd::std_specs::convert::TryFromSpecImpl<u16> for U15 {
    open spec fn obeys_try_from_spec() -> bool {
        true
    }

    closed spec fn try_from_spec(n: u16) -> Result<U15, TryFromIntError> {
        if n <= 32767 {
            Ok(U15(n))
        } else {
            Err(TryFromIntError)
        }
    }
}

impl TryFrom<i16> for U15 {
    type Error = TryFromIntError;

    fn try_from(n: i16) -> (r: Result<U15, TryFromIntError>) {
        match U15::new_signed(n) {
            Some(v) => Ok(v),
            None => Err(TryFromIntError),
        }
    }
}

impl vstd::std_specs::convert::TryFromSpecImpl<i16> for U15 {
    open spec fn obeys_try_from_spec() -> bool {
        true
    }

    closed spec fn try_from_spec(n: i16) -> Result<U15, TryFromIntError> {
        if n >= 0 {
            Ok(U15(n as u16))
        } else {
            Err(TryFromIntError)
        }
    }
}

/// Relies on `<u32 as FromStr>::from_str`: accepts exactly an optional `+`
/// followed by decimal digits whose value fits in `u32`.
#[verifier::external_body]
fn parse_u32(s: &str) -> (r: Result<u32, std::num::ParseIntError>)
    ensures
        r is Ok <==> (decimal_of(s@) is Some && decimal_of(s@).unwrap() <= u32::MAX),
        r is Ok ==> decimal_of(s@) == Some(r.unwrap() as int),
{
    s.parse::<u32>()
}

/// Relies on `<u32 as Display>`: the shortest decimal text of the number.
#[verifier::external_body]
fn text_u32(n: u32) -> (r: String)
    ensures
        r@ == decimal_text(n as nat),
{
    n.to_string()
}

/// A non-negative `i32`: the range of an `INTEGER` column with a `>= 0`
/// check, held as a `u32` that never exceeds `i32::MAX`.
#[derive(Debug, Copy, Clone, PartialEq, Eq, Structural, PartialOrd, Ord, Hash)]
pub struct U31(u32);

impl View for U31 {
    type V = nat;

    closed spec fn view(&self) -> nat {
        self.0 as nat
    }
}

impl U31 {
    /// The size of this integer type in bits.
    pub const BITS: u32 = 31;

    #[verifier::type_invariant]
    spec fn inv(self) -> bool {
        self.0 <= 2147483647
    }

    /// The smallest value that can be represented by this integer type.
    pub fn min_value() -> (r: U31)
        ensures
            r@ == 0,
    {
        U31(0)
    }

    /// The largest value that can be represented by this integer type.
    pub fn max_value() -> (r: U31)
        ensures
            r@ == 2147483647,
    {
        U31(2147483647)
    }

    /// Creates a value from an unsigned integer if it is at most `2147483647`.
    pub fn new(n: u32) -> (r: Option<U31>)
        ensures
            r is Some <==> n <= 2147483647,
            r is Some ==> r.unwrap()@ == n,
    {
        if n <= 2147483647 {
            Some(U31(n))
        } else {
            None
        }
    }

    /// Creates a value from a signed integer if it is not negative.
    pub fn new_signed(n: i32) -> (r: Option<U31>)
        ensures
            r is Some <==> n >= 0,
            r is Some ==> r.unwrap()@ == n,
    {
        if n >= 0 {
            Some(U31(n as u32))
        } else {
            None
        }
    }

    /// Returns the value as an unsigned integer.
    pub fn get(self) -> (r: u32)
        ensures
            r == self@,
            r <= 2147483647,
    {
        proof {
            use_type_invariant(self);
        }
        self.0
    }

    /// Returns the value as a signed integer.
    pub fn get_signed(self) -> (r: i32)
        ensures
            r == self@,
            r >= 0,
    {
        proof {
            use_type_invariant(self);
        }
        self.0 as i32
    }

    /// Computes `self + rhs`, or `None` past the maximum.
    pub fn checked_add(self, rhs: U31) -> (r: Option<U31>)
        ensures
            r is Some <==> self@ + rhs@ <= 2147483647,
            r is Some ==> r.unwrap()@ == self@ + rhs@,
    {
        match self.get_signed().checked_add(rhs.get_signed()) {
            Some(res) => Some(U31(res as u32)),
            None => None,
        }
    }

    /// Computes `self + rhs`, saturating at the maximum.
    pub fn saturating_add(self, rhs: U31) -> (r: U31)
        ensures
            r@ == if self@ + rhs@ <= 2147483647 { self@ + rhs@ } else { 2147483647 },
    {
        match self.checked_add(rhs) {
            Some(res) => res,
            None => U31::max_value(),
        }
    }

    /// Computes `self - rhs`, or `None` below zero.
    pub fn checked_sub(self, rhs: U31) -> (r: Option<U31>)
        ensures
            r is Some <==> rhs@ <= self@,
            r is Some ==> r.unwrap()@ == self@ - rhs@,
    {
        proof {
            use_type_invariant(self);
        }
        match self.get().checked_sub(rhs.get()) {
            Some(res) => Some(U31(res)),
            None => None,
        }
    }

    /// Computes `self - rhs`, saturating at zero.
    pub fn saturating_sub(self, rhs: U31) -> (r: U31)
        ensures
            r@ == if rhs@ <= self@ { self@ - rhs@ } else { 0 },
    {
        match self.checked_sub(rhs) {
            Some(res) => res,
            None => U31::min_value(),
        }
    }

    /// Computes `self * rhs`, or `None` past the maximum.
    pub fn checked_mul(self, rhs: U31) -> (r: Option<U31>)
        ensures
            r is Some <==> self@ * rhs@ <= 2147483647,
            r is Some ==> r.unwrap()@ == self@ * rhs@,
    {
        match self.get_signed().checked_mul(rhs.get_signed()) {
            Some(res) => Some(U31(res as u32)),
            None => None,
        }
    }

    /// Computes `self * rhs`, saturating at the maximum.
    pub fn saturating_mul(self, rhs: U31) -> (r: U31)
        ensures
            r@ == if self@ * rhs@ <= 2147483647 { self@ * rhs@ } else { 2147483647 },
    {
        match self.checked_mul(rhs) {
            Some(res) => res,
            None => U31::max_value(),
        }
    }

    /// Parses an optional `+` followed by decimal digits; the number must not
    /// exceed `2147483647`.
    pub fn from_decimal(s: &str) -> (r: Result<U31, ParseIntError>)
        ensures
            r is Ok <==> (decimal_of(s@) is Some && decimal_of(s@).unwrap() <= 2147483647),
            r is Ok ==> decimal_of(s@) == Some(r.unwrap()@ as int),
            r matches Err(ParseIntError::Parse(_)) <==> !(decimal_of(s@) is Some
                && decimal_of(s@).unwrap() <= u32::MAX),
    {
        match parse_u32(s) {
            Ok(v) => match U31::new(v) {
                Some(x) => Ok(x),
                None => Err(ParseIntError::OutOfRange(TryFromIntError)),
            },
            Err(e) => Err(ParseIntError::Parse(e)),
        }
    }

    /// The decimal text of the value.
    pub fn to_string(&self) -> (r: String)
        ensures
            r@ == decimal_text(self@),
    {
        text_u32(self.get())
    }

    /// Computes `self / rhs`, rounding down, or `None` when `rhs` is zero.
    pub fn checked_div(self, rhs: U31) -> (r: Option<U31>)
        ensures
            r is Some <==> rhs@ != 0,
            r is Some ==> r.unwrap()@ == self@ / rhs@,
    {
        proof {
            use_type_invariant(self);
        }
        match self.get().checked_div(rhs.get()) {
            Some(res) => Some(U31(res)),
            None => None,
        }
    }
}

impl std::str::FromStr for U31 {
    type Err = ParseIntError;

    fn from_str(s: &str) -> Result<U31, ParseIntError> {
        U31::from_decimal(s)
    }
}

impl Default for U31 {
    fn default() -> (r: U31)
        ensures
            r@ == 0,
    {
        U31::min_value()
    }
}

impl From<U31> for u32 {
    fn from(v: U31) -> (r: u32) {
        v.get()
    }
}

impl vstd::std_specs::convert::FromSpecImpl<U31> for u32 {
    open spec fn obeys_from_spec() -> bool {
        true
    }

    open spec fn from_spec(v: U31) -> u32 {
        v@ as u32
    }
}

impl From<U31> for i32 {
    fn from(v: U31) -> (r: i32) {
        v.get_signed()
    }
}

impl vstd::std_specs::convert::FromSpecImpl<U31> for i32 {
    open spec fn obeys_from_spec() -> bool {
        true
    }

    open spec fn from_spec(v: U31) -> i32 {
        v@ as i32
    }
}

impl TryFrom<u32> for U31 {
    type Error = TryFromIntError;

    fn try_from(n: u32) -> (r: Result<U31, TryFromIntError>) {
        match U31::new(n) {
            Some(v) => Ok(v),
            None => Err(TryFromIntError),
        }
    }
}

impl vstd::std_specs::convert::TryFromSpecImpl<u32> for U31 {
    open spec fn obeys_try_from_spec() -> bool {
        true
    }

    closed spec fn try_from_spec(n: u32) -> Result<U31, TryFromIntError> {
        if n <= 2147483647 {
            Ok(U31(n))
        } else {
            Err(TryFromIntError)
        }
    }
}

impl TryFrom<i32> for U31 {
    type Error = TryFromIntError;

    fn try_from(n: i32) -> (r: Result<U31, TryFromIntError>) {
        match U31::new_signed(n) {
            Some(v) => Ok(v),
            None => Err(TryFromIntError),
        }
    }
}

impl vstd::std_specs::convert::TryFromSpecImpl<i32> for U31 {
    open spec fn obeys_try_from_spec() -> bool {
        true
    }

    closed spec fn try_from_spec(n: i32) -> Result<U31, TryFromIntError> {
        if n >= 0 {
            Ok(U31(n as u32))
        } else {
            Err(TryFromIntError)
        }
    }
}

/// Relies on `<u64 as FromStr>::from_str`: accepts exactly an optional `+`
/// followed by decimal digits whose value fits in `u64`.
#[verifier::external_body]
fn parse_u64(s: &str) -> (r: Result<u64, std::num::ParseIntError>)
    ensures
        r is Ok <==> (decimal_of(s@) is Some && decimal_of(s@).unwrap() <= u64::MAX),
        r is Ok ==> decimal_of(s@) == Some(r.unwrap() as int),
{
    s.parse::<u64>()
}

/// Relies on `<u64 as Display>`: the shortest decimal text of the number.
#[verifier::external_body]
fn text_u64(n: u64) -> (r: String)
    ensures
        r@ == decimal_text(n as nat),
{
    n.to_string()
}

/// A non-negative `i64`: the range of a `BIGINT` column with a `>= 0`
/// check, held as a `u64` that never exceeds `i64::MAX`.
#[derive(Debug, Copy, Clone, PartialEq, Eq, Structural, PartialOrd, Ord, Hash)]
pub struct U63(u64);

impl View for U63 {
    type V = nat;

    closed spec fn view(&self) -> nat {
        self.0 as nat
    }
}

impl U63 {
    /// The size of this integer type in bits.
    pub const BITS: u32 = 63;

    #[verifier::type_invariant]
    spec fn inv(self) -> bool {
        self.0 <= 9223372036854775807
    }

    /// The smallest value that can be represented by this integer type.
    pub fn min_value() -> (r: U63)
        ensures
            r@ == 0,
    {
        U63(0)
    }

    /// The largest value that can be represented by this integer type.
    pub fn max_value() -> (r: U63)
        ensures
            r@ == 9223372036854775807,
    {
        U63(9223372036854775807)
    }

    /// Creates a value from an unsigned integer if it is at most `9223372036854775807`.
    pub fn new(n: u64) -> (r: Option<U63>)
        ensures
            r is Some <==> n <= 9223372036854775807,
            r is Some ==> r.unwrap()@ == n,
    {
        if n <= 9223372036854775807 {
            Some(U63(n))
        } else {
            None
        }
    }

    /// Creates a value from a signed integer if it is not negative.
    pub fn new_signed(n: i64) -> (r: Option<U63>)
        ensures
            r is Some <==> n >= 0,
            r is Some ==> r.unwrap()@ == n,
    {
        if n >= 0 {
            Some(U63(n as u64))
        } else {
            None
        }
    }

    /// Returns the value as an unsigned integer.
    pub fn get(self) -> (r: u64)
        ensures
            r == self@,
            r <= 9223372036854775807,
    {
        proof {
            use_type_invariant(self);
        }
        self.0
    }

    /// Returns the value as a signed integer.
    pub fn get_signed(self) -> (r: i64)
        ensures
            r == self@,
            r >= 0,
    {
        proof {
            use_type_invariant(self);
        }
        self.0 as i64
    }

    /// Computes `self + rhs`, or `None` past the maximum.
    pub fn checked_add(self, rhs: U63) -> (r: Option<U63>)
        ensures
            r is Some <==> self@ + rhs@ <= 9223372036854775807,
            r is Some ==> r.unwrap()@ == self@ + rhs@,
    {
        match self.get_signed().checked_add(rhs.get_signed()) {
            Some(res) => Some(U63(res as u64)),
            None => None,
        }
    }

    /// Computes `self + rhs`, saturating at the maximum.
    pub fn saturating_add(self, rhs: U63) -> (r: U63)
        ensures
            r@ == if self@ + rhs@ <= 9223372036854775807 { self@ + rhs@ } else { 9223372036854775807 },
    {
        match self.checked_add(rhs) {
            Some(res) => res,
            None => U63::max_value(),
        }
    }

    /// Computes `self - rhs`, or `None` below zero.
    pub fn checked_sub(self, rhs: U63) -> (r: Option<U63>)
        ensures
            r is Some <==> rhs@ <= self@,
            r is Some ==> r.unwrap()@ == self@ - rhs@,
    {
        proof {
            use_type_invariant(self);
        }
        match self.get().checked_sub(rhs.get()) {
            Some(res) => Some(U63(res)),
            None => None,
        }
    }

    /// Computes `self - rhs`, saturating at zero.
    pub fn saturating_sub(self, rhs: U63) -> (r: U63)
        ensures
            r@ == if rhs@ <= self@ { self@ - rhs@ } else { 0 },
    {
        match self.checked_sub(rhs) {
            Some(res) => res,
            None => U63::min_value(),
        }
    }

    /// Computes `self * rhs`, or `None` past the maximum.
    pub fn checked_mul(self, rhs: U63) -> (r: Option<U63>)
        ensures
            r is Some <==> self@ * rhs@ <= 9223372036854775807,
            r is Some ==> r.unwrap()@ == self@ * rhs@,
    {
        match self.get_signed().checked_mul(rhs.get_signed()) {
            Some(res) => Some(U63(res as u64)),
            None => None,
        }
    }

    /// Computes `self * rhs`, saturating at the maximum.
    pub fn saturating_mul(self, rhs: U63) -> (r: U63)
        ensures
            r@ == if self@ * rhs@ <= 9223372036854775807 { self@ * rhs@ } else { 9223372036854775807 },
    {
        match self.checked_mul(rhs) {
            Some(res) => res,
            None => U63::max_value(),
        }
    }

    /// Parses an optional `+` followed by decimal digits; the number must not
    /// exceed `9223372036854775807`.
    pub fn from_decimal(s: &str) -> (r: Result<U63, ParseIntError>)
        ensures
            r is Ok <==> (decimal_of(s@) is Some && decimal_of(s@).unwrap() <= 9223372036854775807),
            r is Ok ==> decimal_of(s@) == Some(r.unwrap()@ as int),
            r matches Err(ParseIntError::Parse(_)) <==> !(decimal_of(s@) is Some
                && decimal_of(s@).unwrap() <= u64::MAX),
    {
        match parse_u64(s) {
            Ok(v) => match U63::new(v) {
                Some(x) => Ok(x),
                None => Err(ParseIntError::OutOfRange(TryFromIntError)),
            },
            Err(e) => Err(ParseIntError::Parse(e)),
        }
    }

    /// The decimal text of the value.
    pub fn to_string(&self) -> (r: String)
        ensures
            r@ == decimal_text(self@),
    {
        text_u64(self.get())
    }

    /// Computes `self / rhs`, rounding down, or `None` when `rhs` is zero.
    pub fn checked_div(self, rhs: U63) -> (r: Option<U63>)
        ensures
            r is Some <==> rhs@ != 0,
            r is Some ==> r.unwrap()@ == self@ / rhs@,
    {
        proof {
            use_type_invariant(self);
        }
        match self.get().checked_div(rhs.get()) {
            Some(res) => Some(U63(res)),
            None => None,
        }
    }
}

impl std::str::FromStr for U63 {
    type Err = ParseIntError;

    fn from_str(s: &str) -> Result<U63, ParseIntError> {
        U63::from_decimal(s)
    }
}

impl Default for U63 {
    fn default() -> (r: U63)
        ensures
            r@ == 0,
    {
        U63::min_value()
    }
}

impl From<U63> for u64 {
    fn from(v: U63) -> (r: u64) {
        v.get()
    }
}

impl vstd::std_specs::convert::FromSpecImpl<U63> for u64 {
    open spec fn obeys_from_spec() -> bool {
        true
    }

    open spec fn from_spec(v: U63) -> u64 {
        v@ as u64
    }
}

impl From<U63> for i64 {
    fn from(v: U63) -> (r: i64) {
        v.get_signed()
    }
}

impl vstd::std_specs::convert::FromSpecImpl<U63> for i64 {
    open spec fn obeys_from_spec() -> bool {
        true
    }

    open spec fn from_spec(v: U63) -> i64 {
        v@ as i64
    }
}

impl TryFrom<u64> for U63 {
    type Error = TryFromIntError;

    fn try_from(n: u64) -> (r: Result<U63, TryFromIntError>) {
        match U63::new(n) {
            Some(v) => Ok(v),
            None => Err(TryFromIntError),
        }
    }
}

impl vstd::std_specs::convert::TryFromSpecImpl<u64> for U63 {
    open spec fn obeys_try_from_spec() -> bool {
        true
    }

    closed spec fn try_from_spec(n: u64) -> Result<U63, TryFromIntError> {
        if n <= 9223372036854775807 {
            Ok(U63(n))
        } else {
            Err(TryFromIntError)
        }
    }
}

impl TryFrom<i64> for U63 {
    type Error = TryFromIntError;

    fn try_from(n: i64) -> (r: Result<U63, TryFromIntError>) {
        match U63::new_signed(n) {
            Some(v) => Ok(v),
            None => Err(TryFromIntError),
        }
    }
}

impl vstd::std_specs::convert::TryFromSpecImpl<i64> for U63 {
    open spec fn obeys_try_from_spec() -> bool {
        true
    }

    closed spec fn try_from_spec(n: i64) -> Result<U63, TryFromIntError> {
        if n >= 0 {
            Ok(U63(n as u64))
        } else {
            Err(TryFromIntError)
        }
    }
}

impl From<U15> for U31 {
    fn from(v: U15) -> (r: U31)
        ensures
            r@ == v@,
    {
        U31(v.get() as u32)
    }
}

impl vstd::std_specs::convert::FromSpecImpl<U15> for U31 {
    open spec fn obeys_from_spec() -> bool {
        true
    }

    closed spec fn from_spec(v: U15) -> U31 {
        U31(v@ as u32)
    }
}

impl From<U15> for U63 {
    fn from(v: U15) -> (r: U63)
        ensures
            r@ == v@,
    {
        U63(v.get() as u64)
    }
}

impl vstd::std_specs::convert::FromSpecImpl<U15> for U63 {
    open spec fn obeys_from_spec() -> bool {
        true
    }

    closed spec fn from_spec(v: U15) -> U63 {
        U63(v@ as u64)
    }
}

impl From<U31> for U63 {
    fn from(v: U31) -> (r: U63)
        ensures
            r@ == v@,
    {
        U63(v.get() as u64)
    }
}

impl vstd::std_specs::convert::FromSpecImpl<U31> for U63 {
    open spec fn obeys_from_spec() -> bool {
        true
    }

    closed spec fn from_spec(v: U31) -> U63 {
        U63(v@ as u64)
    }
}

} // verus!
