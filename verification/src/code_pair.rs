//! Code pairs, the group code and value lines that a DXF file is made of.

use vstd::prelude::*;

use crate::decimal::Real;
use crate::error::{DxfError, DxfResult};

verus! {

/// The value of a code pair.
#[derive(Clone, Debug, PartialEq)]
pub enum CodePairValue {
    Boolean(i16),
    Integer(i32),
    Long(i64),
    Short(i16),
    Double(Real),
    Str(String),
}

/// One code pair of a DXF file: a group code and its value.
#[derive(Clone, Debug, PartialEq)]
pub struct CodePair {
    pub code: i32,
    pub value: CodePairValue,
}

/// What a code pair's value holds.
pub enum ValueView {
    Boolean(i16),
    Integer(i32),
    Long(i64),
    Short(i16),
    Double(Real),
    Str(Seq<char>),
}

/// What a code pair holds.
pub struct PairView {
    pub code: i32,
    pub value: ValueView,
}

impl vstd::view::View for CodePairValue {
    type V = ValueView;

    open spec fn view(&self) -> ValueView {
        match self {
            CodePairValue::Boolean(b) => ValueView::Boolean(*b),
            CodePairValue::Integer(i) => ValueView::Integer(*i),
            CodePairValue::Long(l) => ValueView::Long(*l),
            CodePairValue::Short(s) => ValueView::Short(*s),
            CodePairValue::Double(d) => ValueView::Double(*d),
            CodePairValue::Str(s) => ValueView::Str(s@),
        }
    }
}

impl vstd::view::View for CodePair {
    type V = PairView;

    open spec fn view(&self) -> PairView {
        PairView { code: self.code, value: self.value@ }
    }
}

/// The views of a sequence of code pairs.
pub open spec fn pairs_view(s: Seq<CodePair>) -> Seq<PairView> {
    s.map_values(|p: CodePair| p@)
}

/// A pair with a text value.
pub open spec fn str_pair(code: i32, s: Seq<char>) -> PairView {
    PairView { code, value: ValueView::Str(s) }
}

/// A pair with a 16-bit value.
pub open spec fn short_pair(code: i32, v: i16) -> PairView {
    PairView { code, value: ValueView::Short(v) }
}

/// A pair with a 32-bit value.
pub open spec fn int_pair(code: i32, v: i32) -> PairView {
    PairView { code, value: ValueView::Integer(v) }
}

/// A pair with a real value.
pub open spec fn real_pair(code: i32, v: Real) -> PairView {
    PairView { code, value: ValueView::Double(v) }
}

impl CodePair {
    /// A pair with a text value.
    pub fn new_str(code: i32, val: &str) -> (p: CodePair)
        ensures
            p@ == str_pair(code, val@),
    {
        CodePair { code, value: CodePairValue::Str(val.to_string()) }
    }

    /// A pair with a text value.
    pub fn new_string(code: i32, val: &String) -> (p: CodePair)
        ensures
            p@ == str_pair(code, val@),
    {
        CodePair { code, value: CodePairValue::Str(val.clone()) }
    }

    /// A pair with a 16-bit value.
    pub fn new_i16(code: i32, val: i16) -> (p: CodePair)
        ensures
            p@ == short_pair(code, val),
    {
        CodePair { code, value: CodePairValue::Short(val) }
    }

    /// A pair with a 32-bit value.
    pub fn new_i32(code: i32, val: i32) -> (p: CodePair)
        ensures
            p@ == int_pair(code, val),
    {
        CodePair { code, value: CodePairValue::Integer(val) }
    }

    /// A pair with a real value.
    pub fn new_real(code: i32, val: Real) -> (p: CodePair)
        ensures
            p@ == real_pair(code, val),
    {
        CodePair { code, value: CodePairValue::Double(val) }
    }

    /// The pair's real value; an error where the value is not a real.
    pub fn assert_real(&self) -> (r: DxfResult<Real>)
        ensures
            match self.value@ {
                ValueView::Double(d) => r == Ok::<Real, DxfError>(d),
                _ => r == Err::<Real, DxfError>(DxfError::WrongValueType(self.code)),
            },
    {
        match &self.value {
            CodePairValue::Double(d) => Ok(*d),
            _ => Err(DxfError::WrongValueType(self.code)),
        }
    }

    /// The pair's 16-bit value; an error where the value is not one.
    pub fn assert_i16(&self) -> (r: DxfResult<i16>)
        ensures
            match self.value@ {
                ValueView::Short(s) => r == Ok::<i16, DxfError>(s),
                _ => r == Err::<i16, DxfError>(DxfError::WrongValueType(self.code)),
            },
    {
        match &self.value {
            CodePairValue::Short(s) => Ok(*s),
            _ => Err(DxfError::WrongValueType(self.code)),
        }
    }

    /// The pair's text value; an error where the value is not a text.
    pub fn assert_string(&self) -> (r: DxfResult<String>)
        ensures
            match self.value@ {
                ValueView::Str(s) => r matches Ok(t) && t@ == s,
                _ => r == Err::<String, DxfError>(DxfError::WrongValueType(self.code)),
            },
    {
        match &self.value {
            CodePairValue::Str(s) => Ok(s.clone()),
            _ => Err(DxfError::WrongValueType(self.code)),
        }
    }
}

/// Appends a pair to a list of pairs.
pub(crate) fn push_pair(pairs: &mut Vec<CodePair>, p: CodePair)
    ensures
        pairs_view(final(pairs)@) == pairs_view(old(pairs)@).push(p@),
{
    pairs.push(p);
    proof {
        assert(pairs_view(pairs@) =~= pairs_view(old(pairs)@).push(p@));
    }
}

} // verus!

verus! {

impl CodePair {
    /// A copy of the pair.
    pub fn duplicate(&self) -> (p: CodePair)
        ensures
            p@ == self@,
    {
        let value = match &self.value {
            CodePairValue::Boolean(b) => CodePairValue::Boolean(*b),
            CodePairValue::Integer(i) => CodePairValue::Integer(*i),
            CodePairValue::Long(l) => CodePairValue::Long(*l),
            CodePairValue::Short(s) => CodePairValue::Short(*s),
            CodePairValue::Double(d) => CodePairValue::Double(*d),
            CodePairValue::Str(s) => CodePairValue::Str(s.clone()),
        };
        CodePair { code: self.code, value }
    }
}

} // verus!
