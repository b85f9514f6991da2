//! Errors, encodings, buffer types and column handles.

use vstd::prelude::*;

verus! {

/// Why planning or assembling a result failed.
#[derive(Clone, Copy, Debug, PartialEq, Eq, Structural)]
pub enum QueryError {
    /// An expression refers to a column that the partition does not have.
    NoSuchColumn,
    /// No kernel exists for the operand types of an operator.
    TypeError,
    /// A case that is recognized but not supported.
    NotImplemented,
    /// An invariant of the executor or of a result does not hold.
    FatalError,
}

/// The physical representation of a buffer.
#[derive(Clone, Copy, Debug, PartialEq, Eq, Structural)]
pub enum EncodingType {
    Null,
    U8,
    U16,
    U32,
    U64,
    I64,
    USize,
    Str,
    NullableU8,
    NullableI64,
    NullableStr,
    ScalarI64,
    ScalarStr,
}

impl EncodingType {
    /// A single value rather than one value per row.
    pub open spec fn is_scalar(self) -> bool {
        self == EncodingType::ScalarI64 || self == EncodingType::ScalarStr
    }

    /// Integers without nulls, scalar or per row.
    pub open spec fn is_integer(self) -> bool {
        self == EncodingType::U8 || self == EncodingType::U16 || self == EncodingType::U32
            || self == EncodingType::U64 || self == EncodingType::I64 || self
            == EncodingType::USize || self == EncodingType::ScalarI64
    }

    /// Integers with nulls.
    pub open spec fn is_nullable_integer(self) -> bool {
        self == EncodingType::NullableU8 || self == EncodingType::NullableI64
    }

    /// Strings without nulls, scalar or per row.
    pub open spec fn is_string(self) -> bool {
        self == EncodingType::Str || self == EncodingType::ScalarStr
    }

    /// Boolean masks, with or without nulls.
    pub open spec fn is_mask(self) -> bool {
        self == EncodingType::U8 || self == EncodingType::NullableU8
    }

    /// Whether the encoding is scalar.
    pub fn scalar(self) -> (r: bool)
        ensures
            r == self.is_scalar(),
    {
        match self {
            EncodingType::ScalarI64 => true,
            EncodingType::ScalarStr => true,
            _ => false,
        }
    }

    /// Whether the encoding holds integers without nulls.
    pub fn integer(self) -> (r: bool)
        ensures
            r == self.is_integer(),
    {
        match self {
            EncodingType::U8 => true,
            EncodingType::U16 => true,
            EncodingType::U32 => true,
            EncodingType::U64 => true,
            EncodingType::I64 => true,
            EncodingType::USize => true,
            EncodingType::ScalarI64 => true,
            _ => false,
        }
    }

    /// Whether the encoding holds integers with nulls.
    pub fn nullable_integer(self) -> (r: bool)
        ensures
            r == self.is_nullable_integer(),
    {
        match self {
            EncodingType::NullableU8 => true,
            EncodingType::NullableI64 => true,
            _ => false,
        }
    }

    /// Whether the encoding holds strings without nulls.
    pub fn string(self) -> (r: bool)
        ensures
            r == self.is_string(),
    {
        match self {
            EncodingType::Str => true,
            EncodingType::ScalarStr => true,
            _ => false,
        }
    }

    /// Whether the encoding is a boolean mask.
    pub fn mask(self) -> (r: bool)
        ensures
            r == self.is_mask(),
    {
        match self {
            EncodingType::U8 => true,
            EncodingType::NullableU8 => true,
            _ => false,
        }
    }
}

/// Decodes the physical values of one column into logical values.
#[derive(Clone, Copy, Debug, PartialEq, Eq, Structural)]
pub struct Codec {
    /// Position of the column that the codec belongs to.
    pub column: usize,
    /// Encoding of the decoded values.
    pub decoded: EncodingType,
}

/// What the planner knows of a buffer.
#[derive(Clone, Copy, Debug, PartialEq, Eq, Structural)]
pub struct Type {
    /// The physical representation.
    pub encoding: EncodingType,
    /// How to decode the buffer, where it is not in logical form.
    pub codec: Option<Codec>,
    /// Whether the order of the encoded values is that of the logical ones.
    pub order_preserving: bool,
    /// Whether every value is known to be at least zero.
    pub positive: bool,
}

impl Type {
    /// The type of a buffer in logical form whose values may be negative.
    pub open spec fn plain(encoding: EncodingType) -> Type {
        Type { encoding, codec: None, order_preserving: true, positive: false }
    }

    /// The type of a buffer in logical form whose values are at least zero.
    pub open spec fn unsigned(encoding: EncodingType) -> Type {
        Type { encoding, codec: None, order_preserving: true, positive: true }
    }

    /// The type of the decoded buffer.
    pub open spec fn decoded_type(self) -> Type {
        match self.codec {
            Some(codec) => Type::plain(codec.decoded),
            None => self,
        }
    }

    /// Whether the buffer holds integers that are at least zero.
    pub open spec fn positive_integer(self) -> bool {
        self.positive && self.encoding.is_integer()
    }

    /// Builds the type of a buffer in logical form.
    pub fn new(encoding: EncodingType, positive: bool) -> (t: Type)
        ensures
            t == if positive {
                Type::unsigned(encoding)
            } else {
                Type::plain(encoding)
            },
    {
        Type { encoding, codec: None, order_preserving: true, positive }
    }

    /// The physical representation.
    pub fn encoding_type(&self) -> (e: EncodingType)
        ensures
            e == self.encoding,
    {
        self.encoding
    }

    /// Whether a codec is needed to read the buffer.
    pub fn is_encoded(&self) -> (r: bool)
        ensures
            r == self.codec.is_some(),
    {
        self.codec.is_some()
    }

    /// Whether sorting the encoded values sorts the logical ones.
    pub fn is_order_preserving(&self) -> (r: bool)
        ensures
            r == self.order_preserving,
    {
        self.order_preserving
    }

    /// Whether the buffer holds integers that are at least zero.
    pub fn is_positive_integer(&self) -> (r: bool)
        ensures
            r == self.positive_integer(),
    {
        self.positive && self.encoding.integer()
    }

    /// The type after decoding.
    pub fn decoded(&self) -> (t: Type)
        ensures
            t == self.decoded_type(),
    {
        match self.codec {
            Some(codec) => Type {
                encoding: codec.decoded,
                codec: None,
                order_preserving: true,
                positive: false,
            },
            None => *self,
        }
    }
}

/// A read-only handle on one column of a partition.
#[derive(Debug)]
pub struct Column {
    pub name: String,
    /// Number of rows.
    pub len: usize,
    /// How the values are stored.
    pub encoding: EncodingType,
    /// The encoding of the logical values, where it differs from the stored
    /// one and a codec has to decode.
    pub decoded: Option<EncodingType>,
    /// Whether the order of the stored values is that of the logical ones.
    pub order_preserving: bool,
    /// Least and greatest stored value, where the stored values are integers
    /// and the bounds are known.
    pub range: Option<(i64, i64)>,
}

impl Clone for Column {
    fn clone(&self) -> (r: Self)
        ensures
            r@ == self@,
    {
        Column {
            name: self.name.clone(),
            len: self.len,
            encoding: self.encoding,
            decoded: self.decoded,
            order_preserving: self.order_preserving,
            range: self.range,
        }
    }
}

/// The view of a column handle.
pub struct ColumnModel {
    pub name: Seq<char>,
    pub len: usize,
    pub encoding: EncodingType,
    pub decoded: Option<EncodingType>,
    pub order_preserving: bool,
    pub range: Option<(i64, i64)>,
}

impl View for Column {
    type V = ColumnModel;

    open spec fn view(&self) -> ColumnModel {
        ColumnModel {
            name: self.name@,
            len: self.len,
            encoding: self.encoding,
            decoded: self.decoded,
            order_preserving: self.order_preserving,
            range: self.range,
        }
    }
}

impl ColumnModel {
    /// The type of the column at position `index` as it is stored.
    pub open spec fn stored_type(self, index: usize) -> Type {
        Type {
            encoding: self.encoding,
            codec: match self.decoded {
                Some(decoded) => Some(Codec { column: index, decoded }),
                None => None,
            },
            order_preserving: self.order_preserving,
            positive: match self.range {
                Some(range) => range.0 >= 0,
                None => false,
            },
        }
    }
}

/// The views of the columns of a partition.
pub open spec fn columns_model(columns: Seq<Column>) -> Seq<ColumnModel> {
    Seq::new(columns.len(), |i: int| columns[i]@)
}

/// The position of the first column called `name` among the first `n`.
pub open spec fn find_column(columns: Seq<ColumnModel>, name: Seq<char>, n: nat) -> Option<usize>
    decreases n,
{
    if n == 0 {
        None
    } else {
        match find_column(columns, name, (n - 1) as nat) {
            Some(i) => Some(i),
            None => if columns[n - 1].name == name {
                Some((n - 1) as usize)
            } else {
                None
            },
        }
    }
}

/// What `find_column` finds is a column of that name, and it finds one
/// whenever there is one.
pub proof fn lemma_find_column(columns: Seq<ColumnModel>, name: Seq<char>, n: nat)
    requires
        n <= columns.len(),
        n <= usize::MAX,
    ensures
        match find_column(columns, name, n) {
            Some(i) => i < n && columns[i as int].name == name && forall|j: int|
                0 <= j < i ==> columns[j].name != name,
            None => forall|j: int| 0 <= j < n ==> columns[j].name != name,
        },
    decreases n,
{
    if n > 0 {
        lemma_find_column(columns, name, (n - 1) as nat);
    }
}

/// Looks a column up by name.
pub fn lookup(columns: &Vec<Column>, name: &String) -> (r: Option<usize>)
    ensures
        r == find_column(columns_model(columns@), name@, columns@.len()),
{
    let ghost model = columns_model(columns@);
    let mut i: usize = 0;
    while i < columns.len()
        invariant
            i <= columns.len(),
            model == columns_model(columns@),
            find_column(model, name@, i as nat) is None,
        decreases columns.len() - i,
    {
        if columns[i].name == *name {
            proof {
                lemma_find_rest(model, name@, (i + 1) as nat, columns@.len());
            }
            return Some(i);
        }
        i += 1;
    }
    None
}

proof fn lemma_find_rest(columns: Seq<ColumnModel>, name: Seq<char>, m: nat, n: nat)
    requires
        m <= n,
        find_column(columns, name, m) is Some,
    ensures
        find_column(columns, name, n) == find_column(columns, name, m),
    decreases n,
{
    if m < n {
        lemma_find_rest(columns, name, m, (n - 1) as nat);
    }
}

} // verus!
