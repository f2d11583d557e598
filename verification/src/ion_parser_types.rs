//! Ion values, their mathematical model, and the errors of the value parser.

use crate::binary_parser_types::ParsingError;
use crate::numbers::BigInt;
use vstd::prelude::*;

verus! {

/// The type of a typed null.
#[derive(Debug, Clone, Copy, PartialEq, Eq, Structural)]
pub enum NullIonValue {
    Null,
    Bool,
    Integer,
    Float,
    Decimal,
    Timestamp,
    Symbol,
    String,
    Clob,
    Blob,
    List,
    SExp,
    Struct,
}

/// A decimal number `coefficient * 10^exponent`. The coefficient keeps its
/// sign also where it is zero.
#[derive(Debug, PartialEq, Eq)]
pub struct Decimal {
    pub coefficient: BigInt,
    pub exponent: i32,
}

/// How far a timestamp is spelled out.
#[derive(Debug, Clone, Copy, PartialEq, Eq, Structural)]
pub enum TimestampPrecision {
    Year,
    Month,
    Day,
    Minute,
    Second,
    Fraction,
}

/// A point in time, in UTC, as far as it is spelled out, with the offset of
/// the local time it was written in. A field counts only where all the fields
/// before it are there.
#[derive(Debug, PartialEq, Eq)]
pub struct Timestamp {
    /// Minutes east of UTC; `None` where the offset is unknown.
    pub offset: Option<i64>,
    pub year: u64,
    pub month: Option<u64>,
    pub day: Option<u64>,
    /// Hour and minute, which come together.
    pub time: Option<(u64, u64)>,
    pub second: Option<u64>,
    /// Fractions of the second.
    pub fraction: Option<Decimal>,
}

/// An Ion value.
#[derive(Debug, PartialEq, Eq)]
pub enum IonValue {
    Null(NullIonValue),
    Bool(bool),
    Integer(i64),
    /// An integer outside the range of `Integer`.
    BigInteger(BigInt),
    /// The bits of an IEEE-754 binary64 number.
    Float(u64),
    Decimal(Decimal),
    Timestamp(Timestamp),
    Symbol(String),
    String(String),
    Clob(Vec<u8>),
    Blob(Vec<u8>),
    List(Vec<IonValue>),
    SExp(Vec<IonValue>),
    /// Fields in the order in which they were written; a name may occur twice.
    Struct(Vec<(String, IonValue)>),
    /// One or more annotations and the value that carries them.
    Annotation(Vec<String>, Box<IonValue>),
}

/// The model of a `Decimal`.
pub struct DecimalView {
    pub negative: bool,
    pub magnitude: nat,
    pub exponent: i32,
}

/// The model of a `Timestamp`.
pub struct TimestampView {
    pub offset: Option<i64>,
    pub year: u64,
    pub month: Option<u64>,
    pub day: Option<u64>,
    pub time: Option<(u64, u64)>,
    pub second: Option<u64>,
    pub fraction: Option<DecimalView>,
}

/// The model of an `IonValue`: the same tree over mathematical sequences,
/// texts and numbers.
pub enum IonValueView {
    Null(NullIonValue),
    Bool(bool),
    Integer(i64),
    BigInteger(bool, nat),
    Float(u64),
    Decimal(DecimalView),
    Timestamp(TimestampView),
    Symbol(Seq<char>),
    String(Seq<char>),
    Clob(Seq<u8>),
    Blob(Seq<u8>),
    List(Seq<IonValueView>),
    SExp(Seq<IonValueView>),
    Struct(Seq<(Seq<char>, IonValueView)>),
    Annotation(Seq<Seq<char>>, Box<IonValueView>),
}

impl View for Decimal {
    type V = DecimalView;

    open spec fn view(&self) -> DecimalView {
        DecimalView {
            negative: self.coefficient.negative,
            magnitude: self.coefficient.magnitude@,
            exponent: self.exponent,
        }
    }
}

impl View for Timestamp {
    type V = TimestampView;

    open spec fn view(&self) -> TimestampView {
        TimestampView {
            offset: self.offset,
            year: self.year,
            month: self.month,
            day: self.day,
            time: self.time,
            second: self.second,
            fraction: match self.fraction {
                Some(f) => Some(f@),
                None => None,
            },
        }
    }
}

impl TimestampView {
    /// The deepest field that is there with all the fields before it.
    pub open spec fn precision(&self) -> TimestampPrecision {
        if self.month is None {
            TimestampPrecision::Year
        } else if self.day is None {
            TimestampPrecision::Month
        } else if self.time is None {
            TimestampPrecision::Day
        } else if self.second is None {
            TimestampPrecision::Minute
        } else if self.fraction is None {
            TimestampPrecision::Second
        } else {
            TimestampPrecision::Fraction
        }
    }
}

impl Timestamp {
    /// How far the timestamp is spelled out.
    pub fn precision(&self) -> (r: TimestampPrecision)
        ensures
            r == self@.precision(),
    {
        if self.month.is_none() {
            TimestampPrecision::Year
        } else if self.day.is_none() {
            TimestampPrecision::Month
        } else if self.time.is_none() {
            TimestampPrecision::Day
        } else if self.second.is_none() {
            TimestampPrecision::Minute
        } else if self.fraction.is_none() {
            TimestampPrecision::Second
        } else {
            TimestampPrecision::Fraction
        }
    }
}

/// The texts of a list of strings.
pub open spec fn texts(names: Seq<String>) -> Seq<Seq<char>> {
    Seq::new(names.len(), |i: int| names[i]@)
}

impl IonValue {
    /// The model of the value.
    pub open spec fn model(&self) -> IonValueView
        decreases self,
    {
        match self {
            IonValue::Null(kind) => IonValueView::Null(*kind),
            IonValue::Bool(b) => IonValueView::Bool(*b),
            IonValue::Integer(i) => IonValueView::Integer(*i),
            IonValue::BigInteger(i) => IonValueView::BigInteger(i.negative, i.magnitude@),
            IonValue::Float(bits) => IonValueView::Float(*bits),
            IonValue::Decimal(d) => IonValueView::Decimal(d@),
            IonValue::Timestamp(t) => IonValueView::Timestamp(t@),
            IonValue::Symbol(s) => IonValueView::Symbol(s@),
            IonValue::String(s) => IonValueView::String(s@),
            IonValue::Clob(b) => IonValueView::Clob(b@),
            IonValue::Blob(b) => IonValueView::Blob(b@),
            IonValue::List(items) => IonValueView::List(
                Seq::new(
                    items@.len(),
                    |i: int|
                        if 0 <= i < items@.len() {
                            items@[i].model()
                        } else {
                            IonValueView::Bool(false)
                        },
                ),
            ),
            IonValue::SExp(items) => IonValueView::SExp(
                Seq::new(
                    items@.len(),
                    |i: int|
                        if 0 <= i < items@.len() {
                            items@[i].model()
                        } else {
                            IonValueView::Bool(false)
                        },
                ),
            ),
            IonValue::Struct(fields) => IonValueView::Struct(
                Seq::new(
                    fields@.len(),
                    |i: int|
                        if 0 <= i < fields@.len() {
                            (fields@[i].0@, fields@[i].1.model())
                        } else {
                            (Seq::empty(), IonValueView::Bool(false))
                        },
                ),
            ),
            IonValue::Annotation(names, value) => IonValueView::Annotation(
                texts(names@),
                Box::new(value.model()),
            ),
        }
    }
}

impl View for IonValue {
    type V = IonValueView;

    open spec fn view(&self) -> IonValueView {
        self.model()
    }
}

impl Clone for Decimal {
    fn clone(&self) -> (r: Self)
        ensures
            r@ == self@,
    {
        Decimal { coefficient: self.coefficient.clone(), exponent: self.exponent }
    }
}

impl Clone for Timestamp {
    fn clone(&self) -> (r: Self)
        ensures
            r@ == self@,
    {
        Timestamp {
            offset: self.offset,
            year: self.year,
            month: self.month,
            day: self.day,
            time: self.time,
            second: self.second,
            fraction: match &self.fraction {
                Some(f) => Some(f.clone()),
                None => None,
            },
        }
    }
}

/// A copy of a list of strings.
pub fn clone_strings(names: &Vec<String>) -> (r: Vec<String>)
    ensures
        texts(r@) == texts(names@),
{
    let mut out: Vec<String> = Vec::new();
    let mut i: usize = 0;
    while i < names.len()
        invariant
            i <= names.len(),
            out@.len() == i,
            forall|j: int| 0 <= j < i ==> out@[j]@ == names@[j]@,
        decreases names.len() - i,
    {
        out.push(names[i].clone());
        i += 1;
    }
    assert(texts(out@) =~= texts(names@));
    out
}

impl Clone for IonValue {
    /// A copy that is the same value: it has the same model.
    fn clone(&self) -> (r: Self)
        ensures
            r@ == self@,
        decreases self,
    {
        match self {
            IonValue::Null(kind) => IonValue::Null(*kind),
            IonValue::Bool(b) => IonValue::Bool(*b),
            IonValue::Integer(i) => IonValue::Integer(*i),
            IonValue::BigInteger(i) => IonValue::BigInteger(i.clone()),
            IonValue::Float(bits) => IonValue::Float(*bits),
            IonValue::Decimal(d) => IonValue::Decimal(d.clone()),
            IonValue::Timestamp(t) => IonValue::Timestamp(t.clone()),
            IonValue::Symbol(s) => IonValue::Symbol(s.clone()),
            IonValue::String(s) => IonValue::String(s.clone()),
            IonValue::Clob(b) => IonValue::Clob(b.clone()),
            IonValue::Blob(b) => IonValue::Blob(b.clone()),
            IonValue::List(items) => {
                let mut out: Vec<IonValue> = Vec::new();
                let mut i: usize = 0;
                while i < items.len()
                    invariant
                        self matches IonValue::List(v) && v == items,
                        i <= items.len(),
                        out@.len() == i,
                        forall|j: int| 0 <= j < i ==> out@[j]@ == items@[j]@,
                    decreases items.len() - i,
                {
                    out.push((&items[i]).clone());
                    i += 1;
                }
                let r = IonValue::List(out);
                assert(r@ =~= self@) by {
                    assert(r@->List_0 =~= self@->List_0);
                }
                r
            },
            IonValue::SExp(items) => {
                let mut out: Vec<IonValue> = Vec::new();
                let mut i: usize = 0;
                while i < items.len()
                    invariant
                        self matches IonValue::SExp(v) && v == items,
                        i <= items.len(),
                        out@.len() == i,
                        forall|j: int| 0 <= j < i ==> out@[j]@ == items@[j]@,
                    decreases items.len() - i,
                {
                    out.push((&items[i]).clone());
                    i += 1;
                }
                let r = IonValue::SExp(out);
                assert(r@ =~= self@) by {
                    assert(r@->SExp_0 =~= self@->SExp_0);
                }
                r
            },
            IonValue::Struct(fields) => {
                let mut out: Vec<(String, IonValue)> = Vec::new();
                let mut i: usize = 0;
                while i < fields.len()
                    invariant
                        self matches IonValue::Struct(v) && v == fields,
                        i <= fields.len(),
                        out@.len() == i,
                        forall|j: int|
                            0 <= j < i ==> out@[j].0@ == fields@[j].0@ && out@[j].1@
                                == fields@[j].1@,
                    decreases fields.len() - i,
                {
                    out.push((fields[i].0.clone(), (&fields[i].1).clone()));
                    i += 1;
                }
                let r = IonValue::Struct(out);
                assert(r@ =~= self@) by {
                    assert(r@->Struct_0 =~= self@->Struct_0);
                }
                r
            },
            IonValue::Annotation(names, value) => IonValue::Annotation(
                clone_strings(names),
                Box::new((&**value).clone()),
            ),
        }
    }
}

/// The models of a list of values.
pub open spec fn views(items: Seq<IonValue>) -> Seq<IonValueView> {
    Seq::new(items.len(), |i: int| items[i]@)
}

/// The models of a list of fields.
pub open spec fn field_views(fields: Seq<(String, IonValue)>) -> Seq<(Seq<char>, IonValueView)> {
    Seq::new(fields.len(), |i: int| (fields[i].0@, fields[i].1@))
}

/// What can go wrong while decoding a value.
#[derive(Debug, Clone, Copy, PartialEq, Eq, Structural)]
pub enum IonParserError {
    /// Kept for kinds of value that a decoder does not cover; this one covers all.
    Unimplemented,
    /// A field inside a value reaches beyond the value's declared length.
    BadFormatLengthFound,
    /// A string whose bytes are not UTF-8.
    BadFormatUtf8,
    /// An annotation header with the null length code.
    NullAnnotationFound,
    /// An annotation wrapper without annotations.
    EmptyAnnotationFound,
    /// A symbol ID that no table assigns a text to.
    SymbolNotFound(u64),
    /// A negative integer without a magnitude.
    InvalidNegativeInt,
    /// A decimal exponent outside 32 bits.
    DecimalExponentTooBig,
    /// A symbol ID wider than 64 bits.
    SymbolIdTooBig,
    /// A local symbol table whose annotation wraps no struct.
    LocalSymbolTableWithoutStruct,
    /// Containers nested deeper than the decoder follows.
    DepthLimitExceeded,
    /// The source ended where a value would start.
    EndOfStream,
    /// An error of the primitive decoder.
    BinaryError(ParsingError),
}

} // verus!
