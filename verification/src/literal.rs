//! SQL literals for column values: the text that stands for a value in an
//! `INSERT` statement, chosen by the declared type of its column.

use crate::literal_laws::{lemma_boolean_text, lemma_quote_round_trip, unquoted};
use crate::text::{decimal, push_decimal, push_signed_decimal, same_text, signed_decimal};
use vstd::prelude::*;
use vstd::string::*;

verus! {

/// What one character of a text becomes inside a string literal: a single
/// quote is doubled, a backslash is doubled, a line feed and a carriage
/// return are written as a backslash and a letter.
pub open spec fn escaped_char(c: char) -> Seq<char> {
    if c == '\'' {
        seq!['\'', '\'']
    } else if c == '\\' {
        seq!['\\', '\\']
    } else if c == '\n' {
        seq!['\\', 'n']
    } else if c == '\r' {
        seq!['\\', 'r']
    } else {
        seq![c]
    }
}

/// The text with every character escaped, in order.
pub open spec fn escaped(s: Seq<char>) -> Seq<char>
    decreases s.len(),
{
    if s.len() == 0 {
        Seq::empty()
    } else {
        escaped_char(s.first()) + escaped(s.drop_first())
    }
}

/// The string literal that stands for the text `s`.
pub open spec fn quoted(s: Seq<char>) -> Seq<char> {
    seq!['\''] + escaped(s) + seq!['\'']
}

/// Escaping a text with one more character at its end adds the escaped
/// character at the end.
pub proof fn lemma_escaped_push(s: Seq<char>, c: char)
    ensures
        escaped(s.push(c)) == escaped(s) + escaped_char(c),
    decreases s.len(),
{
    if s.len() == 0 {
        assert(s.push(c).drop_first() =~= Seq::<char>::empty());
        assert(escaped(s.push(c).drop_first()) =~= Seq::<char>::empty());
        assert(escaped(s.push(c)) =~= escaped(s) + escaped_char(c));
    } else {
        lemma_escaped_push(s.drop_first(), c);
        assert(s.push(c).drop_first() =~= s.drop_first().push(c));
        assert(escaped(s.push(c)) =~= escaped(s) + escaped_char(c));
    }
}

/// Wraps a text in single quotes and escapes what would end the literal or
/// break the line. Nothing of the text is lost: reading the literal back
/// gives the text.
pub fn quote(str: String) -> (literal: String)
    ensures
        literal@ == quoted(str@),
        unquoted(literal@) == str@,
{
    let mut out = String::new();
    out.push('\'');
    for c in it: str.as_str().chars()
        invariant
            it.seq() == str@,
            out@ == seq!['\''] + escaped(str@.take(it.index())),
    {
        if c == '\'' {
            out.push('\'');
            out.push('\'');
        } else if c == '\\' {
            out.push('\\');
            out.push('\\');
        } else if c == '\n' {
            out.push('\\');
            out.push('n');
        } else if c == '\r' {
            out.push('\\');
            out.push('r');
        } else {
            out.push(c);
        }
        proof {
            let k = it.index();
            lemma_escaped_push(str@.take(k), c);
            assert(str@.take(k + 1) =~= str@.take(k).push(c));
            assert(out@ =~= seq!['\''] + escaped(str@.take(k + 1)));
        }
    }
    proof {
        assert(str@.take(str@.len() as int) =~= str@);
        lemma_quote_round_trip(str@);
    }
    out.push('\'');
    out
}

/// A cell as the driver decoded it. Floating-point, fixed-precision and
/// temporal values come as the text that the decoder printed.
#[derive(Debug, Clone, PartialEq, Eq)]
pub enum RawValue {
    /// No value: SQL NULL, or a cell that could not be decoded.
    Absent,
    /// A boolean or a bit: the number 1 where it is set, 0 where it is not.
    Bool(bool),
    Signed(i64),
    Unsigned(u64),
    Text(String),
}

/// The number that a boolean stands for.
pub open spec fn bit_of(b: bool) -> nat {
    if b {
        1
    } else {
        0
    }
}

/// The text of a value before any quoting: of a number its decimal text, of
/// a boolean the decimal text of the number that it stands for, of a text
/// the text itself. An absent value has none.
pub open spec fn text_of(value: RawValue) -> Option<Seq<char>> {
    match value {
        RawValue::Absent => None,
        RawValue::Bool(b) => Some(decimal(bit_of(b))),
        RawValue::Signed(i) => Some(signed_decimal(i as int)),
        RawValue::Unsigned(u) => Some(decimal(u as nat)),
        RawValue::Text(s) => Some(s@),
    }
}

/// The literal of a value that is written as it reads (`q` false) or as a
/// quoted string (`q` true).
pub open spec fn literal_of(value: RawValue, q: bool) -> Option<Seq<char>> {
    match text_of(value) {
        Some(t) => Some(
            if q {
                quoted(t)
            } else {
                t
            },
        ),
        None => None,
    }
}

/// Whether a text ends with the zone marker `UTC`.
pub open spec fn ends_with_utc(t: Seq<char>) -> bool {
    t.len() >= 3 && t.subrange(t.len() - 3, t.len() as int) == seq!['U', 'T', 'C']
}

/// A temporal text without its zone: a trailing `UTC` goes, and with it the
/// character that parts it from the time.
pub open spec fn without_zone(t: Seq<char>) -> Seq<char> {
    if ends_with_utc(t) {
        if t.len() >= 4 {
            t.take(t.len() - 4)
        } else {
            Seq::empty()
        }
    } else {
        t
    }
}

/// The literal of a temporal value: its text without the zone, between
/// single quotes.
pub open spec fn temporal_literal_of(value: RawValue) -> Option<Seq<char>> {
    match text_of(value) {
        Some(t) => Some(seq!['\''] + without_zone(t) + seq!['\'']),
        None => None,
    }
}

fn raw_text(n: &RawValue) -> (text: Option<String>)
    ensures
        text.deep_view() == text_of(*n),
{
    match n {
        RawValue::Absent => None,
        RawValue::Bool(b) => {
            let mut out = String::new();
            push_decimal(
                &mut out,
                if *b {
                    1
                } else {
                    0
                },
            );
            assert(out@ =~= decimal(bit_of(*b)));
            Some(out)
        },
        RawValue::Signed(i) => {
            let mut out = String::new();
            push_signed_decimal(&mut out, *i);
            assert(out@ =~= signed_decimal(*i as int));
            Some(out)
        },
        RawValue::Unsigned(u) => {
            let mut out = String::new();
            push_decimal(&mut out, *u);
            assert(out@ =~= decimal(*u as nat));
            Some(out)
        },
        RawValue::Text(s) => Some(s.clone()),
    }
}

/// The literal of a value, quoted if `q` is set; `None` for an absent value.
pub fn to_string(n: &RawValue, q: bool) -> (literal: Option<String>)
    ensures
        literal.deep_view() == literal_of(*n, q),
{
    match raw_text(n) {
        Some(v) => Some(
            if q {
                quote(v)
            } else {
                v
            },
        ),
        None => None,
    }
}

/// The literal of a temporal value; `None` for an absent value.
pub fn to_date_string(n: &RawValue) -> (literal: Option<String>)
    ensures
        literal.deep_view() == temporal_literal_of(*n),
{
    match raw_text(n) {
        Some(v) => {
            let s = v.as_str();
            let len = s.unicode_len();
            let zoned = len >= 3 && s.get_char(len - 3) == 'U' && s.get_char(len - 2) == 'T'
                && s.get_char(len - 1) == 'C';
            proof {
                if len >= 3 {
                    assert(s@.subrange(len - 3, len as int) =~= seq![
                        s@[len - 3],
                        s@[len - 2],
                        s@[len - 1],
                    ]);
                }
                assert(zoned == ends_with_utc(s@));
            }
            let kept = if zoned {
                if len >= 4 {
                    s.substring_char(0, len - 4)
                } else {
                    s.substring_char(0, 0)
                }
            } else {
                s
            };
            proof {
                assert(kept@ =~= without_zone(s@));
            }
            let mut out = String::from_str("'");
            out.append(kept);
            out.append("'");
            proof {
                reveal_strlit("'");
                assert(out@ =~= seq!['\''] + without_zone(s@) + seq!['\'']);
            }
            Some(out)
        },
        None => None,
    }
}

/// The declared type of a column, by the name that the engine gives it.
#[derive(Debug, Clone, Copy, PartialEq, Eq, Structural)]
pub enum ColumnType {
    Boolean,
    TinyInt,
    Bit,
    SmallInt,
    Int,
    BigInt,
    TinyIntUnsigned,
    SmallIntUnsigned,
    IntUnsigned,
    BigIntUnsigned,
    Float,
    Double,
    Char,
    VarChar,
    Text,
    Timestamp,
    DateTime,
    Date,
    Time,
    Decimal,
    Enum,
    VarBinary,
    Binary,
    Blob,
    /// Any other type name.
    Unknown,
}

/// How the literal of a value is formed.
#[derive(Debug, Clone, Copy, PartialEq, Eq, Structural)]
pub enum Encoding {
    /// The text of the value as it reads: booleans and numbers.
    Plain,
    /// The text of the value as a quoted, escaped string.
    Quoted,
    /// The text of the value without its zone, between single quotes.
    Temporal,
    /// Always NULL: binary data.
    Null,
    /// No literal can be formed.
    Unsupported,
}

/// The type that a type name stands for. Names are matched as they are
/// written, in capital letters.
pub open spec fn column_type(name: Seq<char>) -> ColumnType {
    if name == "BOOLEAN"@ {
        ColumnType::Boolean
    } else if name == "TINYINT"@ {
        ColumnType::TinyInt
    } else if name == "BIT"@ {
        ColumnType::Bit
    } else if name == "SMALLINT"@ {
        ColumnType::SmallInt
    } else if name == "INT"@ {
        ColumnType::Int
    } else if name == "BIGINT"@ {
        ColumnType::BigInt
    } else if name == "TINYINT UNSIGNED"@ {
        ColumnType::TinyIntUnsigned
    } else if name == "SMALLINT UNSIGNED"@ {
        ColumnType::SmallIntUnsigned
    } else if name == "INT UNSIGNED"@ {
        ColumnType::IntUnsigned
    } else if name == "BIGINT UNSIGNED"@ {
        ColumnType::BigIntUnsigned
    } else if name == "FLOAT"@ {
        ColumnType::Float
    } else if name == "DOUBLE"@ {
        ColumnType::Double
    } else if name == "CHAR"@ {
        ColumnType::Char
    } else if name == "VARCHAR"@ {
        ColumnType::VarChar
    } else if name == "TEXT"@ {
        ColumnType::Text
    } else if name == "TIMESTAMP"@ {
        ColumnType::Timestamp
    } else if name == "DATETIME"@ {
        ColumnType::DateTime
    } else if name == "DATE"@ {
        ColumnType::Date
    } else if name == "TIME"@ {
        ColumnType::Time
    } else if name == "DECIMAL"@ {
        ColumnType::Decimal
    } else if name == "ENUM"@ {
        ColumnType::Enum
    } else if name == "VARBINARY"@ {
        ColumnType::VarBinary
    } else if name == "BINARY"@ {
        ColumnType::Binary
    } else if name == "BLOB"@ {
        ColumnType::Blob
    } else {
        ColumnType::Unknown
    }
}

/// How values of a type are written.
pub open spec fn encoding_of(t: ColumnType) -> Encoding {
    match t {
        ColumnType::Boolean
        | ColumnType::TinyInt
        | ColumnType::Bit
        | ColumnType::SmallInt
        | ColumnType::Int
        | ColumnType::BigInt
        | ColumnType::TinyIntUnsigned
        | ColumnType::SmallIntUnsigned
        | ColumnType::IntUnsigned
        | ColumnType::BigIntUnsigned
        | ColumnType::Float
        | ColumnType::Double
        | ColumnType::Decimal => Encoding::Plain,
        ColumnType::Char | ColumnType::VarChar | ColumnType::Text | ColumnType::Enum => Encoding::Quoted,
        ColumnType::Timestamp | ColumnType::DateTime | ColumnType::Date | ColumnType::Time => Encoding::Temporal,
        ColumnType::VarBinary | ColumnType::Binary | ColumnType::Blob => Encoding::Null,
        ColumnType::Unknown => Encoding::Unsupported,
    }
}

impl ColumnType {
    /// The type that a type name stands for.
    pub fn from_name(name: &str) -> (t: ColumnType)
        ensures
            t == column_type(name@),
    {
        if same_text(name, "BOOLEAN") {
            ColumnType::Boolean
        } else if same_text(name, "TINYINT") {
            ColumnType::TinyInt
        } else if same_text(name, "BIT") {
            ColumnType::Bit
        } else if same_text(name, "SMALLINT") {
            ColumnType::SmallInt
        } else if same_text(name, "INT") {
            ColumnType::Int
        } else if same_text(name, "BIGINT") {
            ColumnType::BigInt
        } else if same_text(name, "TINYINT UNSIGNED") {
            ColumnType::TinyIntUnsigned
        } else if same_text(name, "SMALLINT UNSIGNED") {
            ColumnType::SmallIntUnsigned
        } else if same_text(name, "INT UNSIGNED") {
            ColumnType::IntUnsigned
        } else if same_text(name, "BIGINT UNSIGNED") {
            ColumnType::BigIntUnsigned
        } else if same_text(name, "FLOAT") {
            ColumnType::Float
        } else if same_text(name, "DOUBLE") {
            ColumnType::Double
        } else if same_text(name, "CHAR") {
            ColumnType::Char
        } else if same_text(name, "VARCHAR") {
            ColumnType::VarChar
        } else if same_text(name, "TEXT") {
            ColumnType::Text
        } else if same_text(name, "TIMESTAMP") {
            ColumnType::Timestamp
        } else if same_text(name, "DATETIME") {
            ColumnType::DateTime
        } else if same_text(name, "DATE") {
            ColumnType::Date
        } else if same_text(name, "TIME") {
            ColumnType::Time
        } else if same_text(name, "DECIMAL") {
            ColumnType::Decimal
        } else if same_text(name, "ENUM") {
            ColumnType::Enum
        } else if same_text(name, "VARBINARY") {
            ColumnType::VarBinary
        } else if same_text(name, "BINARY") {
            ColumnType::Binary
        } else if same_text(name, "BLOB") {
            ColumnType::Blob
        } else {
            ColumnType::Unknown
        }
    }

    /// How values of this type are written.
    pub fn encoding(&self) -> (e: Encoding)
        ensures
            e == encoding_of(*self),
    {
        match self {
            ColumnType::Boolean
            | ColumnType::TinyInt
            | ColumnType::Bit
            | ColumnType::SmallInt
            | ColumnType::Int
            | ColumnType::BigInt
            | ColumnType::TinyIntUnsigned
            | ColumnType::SmallIntUnsigned
            | ColumnType::IntUnsigned
            | ColumnType::BigIntUnsigned
            | ColumnType::Float
            | ColumnType::Double
            | ColumnType::Decimal => Encoding::Plain,
            ColumnType::Char | ColumnType::VarChar | ColumnType::Text | ColumnType::Enum => Encoding::Quoted,
            ColumnType::Timestamp | ColumnType::DateTime | ColumnType::Date | ColumnType::Time => Encoding::Temporal,
            ColumnType::VarBinary | ColumnType::Binary | ColumnType::Blob => Encoding::Null,
            ColumnType::Unknown => Encoding::Unsupported,
        }
    }
}

/// A column whose declared type has no literal form.
#[derive(Debug, Clone, PartialEq, Eq)]
pub struct UnsupportedType {
    /// The type name as the engine gave it.
    pub declared_type: String,
}

/// The words of the failure, with the type name in them.
pub open spec fn unsupported_message(declared_type: Seq<char>) -> Seq<char> {
    "The database type "@ + declared_type
        + " is not implemented in this version of dbdump. Please try to download a more recent version or report a bug if you are on the most recent version"@
}

impl UnsupportedType {
    /// What to tell the user: the message names the type.
    pub fn message(&self) -> (text: String)
        ensures
            text@ == unsupported_message(self.declared_type@),
    {
        let mut text = String::from_str("The database type ");
        text.append(self.declared_type.as_str());
        text.append(
            " is not implemented in this version of dbdump. Please try to download a more recent version or report a bug if you are on the most recent version",
        );
        text
    }
}

/// The outcome of serializing one cell: the literal, `None` for NULL, or the
/// name of the type that has no literal form.
pub open spec fn cast(declared_type: Seq<char>, value: RawValue, skip_unknown: bool) -> Result<
    Option<Seq<char>>,
    Seq<char>,
> {
    match encoding_of(column_type(declared_type)) {
        Encoding::Plain => Ok(literal_of(value, false)),
        Encoding::Quoted => Ok(literal_of(value, true)),
        Encoding::Temporal => Ok(temporal_literal_of(value)),
        Encoding::Null => Ok(None),
        Encoding::Unsupported => if skip_unknown {
            Ok(None)
        } else {
            Err(declared_type)
        },
    }
}

/// An outcome of `cast_data` as `cast` states it.
pub open spec fn cast_view(outcome: Result<Option<String>, UnsupportedType>) -> Result<
    Option<Seq<char>>,
    Seq<char>,
> {
    match outcome {
        Ok(literal) => Ok(literal.deep_view()),
        Err(e) => Err(e.declared_type@),
    }
}

/// Serializes one cell. The declared type of the column alone decides how:
/// numbers as they read, booleans and bits as `1` and `0`, character data
/// quoted and escaped, temporal values quoted without their zone, binary
/// data as NULL. An absent value is NULL
/// under every type that has a literal form. A type without one is an error
/// that names it, or NULL where `skip_unknown_datatypes` is set.
pub fn cast_data(declared_type: &str, value: &RawValue, skip_unknown_datatypes: bool) -> (outcome:
    Result<Option<String>, UnsupportedType>)
    ensures
        cast_view(outcome) == cast(declared_type@, *value, skip_unknown_datatypes),
        *value is Absent && (skip_unknown_datatypes || !(column_type(declared_type@) is Unknown))
            ==> outcome matches Ok(None),
        column_type(declared_type@) is Unknown && skip_unknown_datatypes ==> outcome matches Ok(None),
        column_type(declared_type@) is Unknown && !skip_unknown_datatypes ==> (outcome matches Err(e)
            && e.declared_type@ == declared_type@),
        (column_type(declared_type@) is Boolean || column_type(declared_type@) is Bit)
            && *value is Bool ==> (outcome matches Ok(Some(literal)) && literal@ == seq![
            if value->Bool_0 {
                '1'
            } else {
                '0'
            },
        ]),
{
    proof {
        lemma_boolean_text(true);
        lemma_boolean_text(false);
    }
    match ColumnType::from_name(declared_type).encoding() {
        Encoding::Plain => Ok(to_string(value, false)),
        Encoding::Quoted => Ok(to_string(value, true)),
        Encoding::Temporal => Ok(to_date_string(value)),
        Encoding::Null => Ok(None),
        Encoding::Unsupported => {
            if skip_unknown_datatypes {
                Ok(None)
            } else {
                Err(UnsupportedType { declared_type: String::from_str(declared_type) })
            }
        },
    }
}

} // verus!
