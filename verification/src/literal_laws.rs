//! What holds of every literal.

use crate::literal::{bit_of, cast, column_type, encoding_of, escaped, escaped_char, quoted,
    text_of, ColumnType, Encoding, RawValue};
use crate::text::decimal;
use vstd::prelude::*;

verus! {

/// The text that an escaped text stands for: read from the left, a doubled
/// single quote is one, a doubled backslash is one, a backslash and `n` is a
/// line feed, a backslash and `r` is a carriage return, and any other
/// character is itself.
pub open spec fn unescaped(s: Seq<char>) -> Seq<char>
    decreases s.len(),
{
    if s.len() == 0 {
        Seq::empty()
    } else if s.len() >= 2 && s[0] == '\'' && s[1] == '\'' {
        seq!['\''] + unescaped(s.skip(2))
    } else if s.len() >= 2 && s[0] == '\\' && s[1] == '\\' {
        seq!['\\'] + unescaped(s.skip(2))
    } else if s.len() >= 2 && s[0] == '\\' && s[1] == 'n' {
        seq!['\n'] + unescaped(s.skip(2))
    } else if s.len() >= 2 && s[0] == '\\' && s[1] == 'r' {
        seq!['\r'] + unescaped(s.skip(2))
    } else {
        seq![s[0]] + unescaped(s.skip(1))
    }
}

/// The text that a string literal stands for: what is between its quotes,
/// unescaped.
pub open spec fn unquoted(literal: Seq<char>) -> Seq<char> {
    unescaped(literal.subrange(1, literal.len() - 1))
}

/// Escaping loses nothing: undoing the four substitutions gives the text
/// back, whatever it holds.
pub proof fn lemma_escape_round_trip(s: Seq<char>)
    ensures
        unescaped(escaped(s)) == s,
    decreases s.len(),
{
    if s.len() > 0 {
        let c = s.first();
        let rest = escaped(s.drop_first());
        lemma_escape_round_trip(s.drop_first());
        let e = escaped(s);
        assert(e == escaped_char(c) + rest);
        if c == '\'' || c == '\\' || c == '\n' || c == '\r' {
            assert(e.skip(2) =~= rest);
        } else {
            assert(e.skip(1) =~= rest);
        }
        assert(unescaped(e) =~= seq![c] + s.drop_first());
        assert(seq![c] + s.drop_first() =~= s);
    }
}

/// The literal of a text stands for that text.
pub proof fn lemma_quote_round_trip(s: Seq<char>)
    ensures
        unquoted(quoted(s)) == s,
{
    lemma_escape_round_trip(s);
    let q = quoted(s);
    assert(q.subrange(1, q.len() - 1) =~= escaped(s));
}

/// A literal stays on one line: it holds no line feed and no carriage
/// return.
pub proof fn lemma_quoted_is_one_line(s: Seq<char>, i: int)
    requires
        0 <= i < quoted(s).len(),
    ensures
        quoted(s)[i] != '\n',
        quoted(s)[i] != '\r',
{
    lemma_escaped_is_one_line(s);
}

proof fn lemma_escaped_is_one_line(s: Seq<char>)
    ensures
        forall|i: int| 0 <= i < escaped(s).len() ==> escaped(s)[i] != '\n' && escaped(s)[i] != '\r',
    decreases s.len(),
{
    if s.len() > 0 {
        lemma_escaped_is_one_line(s.drop_first());
        let head = escaped_char(s.first());
        let rest = escaped(s.drop_first());
        assert forall|i: int| 0 <= i < escaped(s).len() implies escaped(s)[i] != '\n' && escaped(
            s,
        )[i] != '\r' by {
            if i < head.len() {
                assert(escaped(s)[i] == head[i]);
            } else {
                assert(escaped(s)[i] == rest[i - head.len()]);
            }
        }
    }
}

/// The text of a boolean is the one digit of the number that it stands
/// for: `1` where it is set, `0` where it is not.
pub proof fn lemma_boolean_text(b: bool)
    ensures
        text_of(RawValue::Bool(b)) == Some(
            seq![
                if b {
                    '1'
                } else {
                    '0'
                },
            ],
        ),
{
    assert(decimal(bit_of(b)) =~= seq![
        if b {
            '1'
        } else {
            '0'
        },
    ]);
}

/// A boolean or bit cell is written as a number without quotes: `1` where
/// it is set and `0` where it is not, whether or not unknown types are
/// skipped.
pub proof fn lemma_boolean_is_numeric(declared_type: Seq<char>, b: bool, skip_unknown: bool)
    requires
        column_type(declared_type) is Boolean || column_type(declared_type) is Bit,
    ensures
        cast(declared_type, RawValue::Bool(b), skip_unknown) == Ok::<Option<Seq<char>>, Seq<char>>(
            Some(
                seq![
                    if b {
                        '1'
                    } else {
                        '0'
                    },
                ],
            ),
        ),
{
    lemma_boolean_text(b);
}

/// An absent value is NULL under every declared type that has a literal
/// form, binary types among them, and under every declared type where
/// types without one are skipped.
pub proof fn lemma_absent_is_null(declared_type: Seq<char>, skip_unknown: bool)
    requires
        skip_unknown || !(column_type(declared_type) is Unknown),
    ensures
        cast(declared_type, RawValue::Absent, skip_unknown) == Ok::<Option<Seq<char>>, Seq<char>>(
            None,
        ),
{
}

/// A value of a binary type is NULL, whatever it holds and whether or not
/// unknown types are skipped.
pub proof fn lemma_binary_is_null(declared_type: Seq<char>, value: RawValue, skip_unknown: bool)
    requires
        encoding_of(column_type(declared_type)) is Null,
    ensures
        cast(declared_type, value, skip_unknown) == Ok::<Option<Seq<char>>, Seq<char>>(None),
{
}

/// A value of a declared type that is not recognized is NULL where such
/// types are skipped, and a failure that names the type where they are not.
pub proof fn lemma_unknown_type_toggle(declared_type: Seq<char>, value: RawValue)
    requires
        column_type(declared_type) is Unknown,
    ensures
        cast(declared_type, value, true) == Ok::<Option<Seq<char>>, Seq<char>>(None),
        cast(declared_type, value, false) == Err::<Option<Seq<char>>, Seq<char>>(declared_type),
{
}

} // verus!
