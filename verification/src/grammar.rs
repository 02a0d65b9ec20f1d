//! Character-level grammar of sample lines.
//!
//! A sample line is either unlabeled, `name value`, or labeled,
//! `name{k1="v1",k2="v2"} value`.  The value is the literal numeric text
//! (optionally signed, digits and dots, an optional exponent) or `NaN`.

use vstd::prelude::*;

verus! {

/// A decimal digit.
pub open spec fn is_digit(c: char) -> bool {
    48 <= c as u32 && c as u32 <= 57
}

/// A character that may open a metric identifier: a letter, `_` or `:`.
pub open spec fn is_ident_start(c: char) -> bool {
    ||| (65 <= c as u32 && c as u32 <= 90)
    ||| (97 <= c as u32 && c as u32 <= 122)
    ||| c == '_'
    ||| c == ':'
}

/// A character that may continue a metric identifier.
pub open spec fn is_ident_char(c: char) -> bool {
    is_ident_start(c) || is_digit(c)
}

/// A metric identifier: nonempty, an opening character followed by
/// identifier characters.
pub open spec fn is_ident(s: Seq<char>) -> bool {
    &&& s.len() > 0
    &&& is_ident_start(s[0])
    &&& forall|i: int| 1 <= i < s.len() ==> is_ident_char(#[trigger] s[i])
}

/// A character allowed in a label name: a letter, digit, `_` or `:`.
pub open spec fn is_label_name_char(c: char) -> bool {
    is_ident_char(c)
}

/// A label name: any run (possibly empty) of label-name characters.
pub open spec fn is_label_name(s: Seq<char>) -> bool {
    forall|i: int| 0 <= i < s.len() ==> is_label_name_char(#[trigger] s[i])
}

/// A mantissa character: a digit or a dot.
pub open spec fn is_mantissa_char(c: char) -> bool {
    is_digit(c) || c == '.'
}

/// The mantissa of a value: an optional leading `-`, then a nonempty run of
/// digits and dots.
pub open spec fn is_mantissa(s: Seq<char>) -> bool {
    if s.len() > 0 && s[0] == '-' {
        &&& s.len() > 1
        &&& forall|i: int| 1 <= i < s.len() ==> is_mantissa_char(#[trigger] s[i])
    } else {
        &&& s.len() > 0
        &&& forall|i: int| 0 <= i < s.len() ==> is_mantissa_char(#[trigger] s[i])
    }
}

/// The exponent part of a value: `e`, an optional `-`, then nonempty digits.
pub open spec fn is_exponent(s: Seq<char>) -> bool {
    &&& s.len() >= 2
    &&& s[0] == 'e'
    &&& if s[1] == '-' {
        &&& s.len() >= 3
        &&& forall|i: int| 2 <= i < s.len() ==> is_digit(#[trigger] s[i])
    } else {
        forall|i: int| 1 <= i < s.len() ==> is_digit(#[trigger] s[i])
    }
}

/// The smallest index `i >= from` with `s[i] == c`, or `-1` if there is none.
pub open spec fn index_of_from(s: Seq<char>, from: int, c: char) -> int
    decreases s.len() - from,
{
    if !(0 <= from < s.len()) {
        -1
    } else if s[from] == c {
        from
    } else {
        index_of_from(s, from + 1, c)
    }
}

/// What `index_of_from` returns: the first occurrence at or after `from`.
pub proof fn lemma_index_of_from(s: Seq<char>, from: int, c: char)
    requires
        0 <= from,
    ensures
        ({
            let r = index_of_from(s, from, c);
            &&& r == -1 || (from <= r < s.len() && s[r] == c)
            &&& r == -1 ==> forall|i: int| from <= i < s.len() ==> s[i] != c
            &&& r >= 0 ==> forall|i: int| from <= i < r ==> s[i] != c
        }),
    decreases s.len() - from,
{
    if 0 <= from < s.len() && s[from] != c {
        lemma_index_of_from(s, from + 1, c);
    }
}

/// The largest index with `s[i] == c`, or `-1` if there is none.
pub open spec fn last_index_of(s: Seq<char>, c: char) -> int
    decreases s.len(),
{
    if s.len() == 0 {
        -1
    } else if s[s.len() - 1] == c {
        s.len() - 1
    } else {
        last_index_of(s.drop_last(), c)
    }
}

/// What `last_index_of` returns: the last occurrence, with nothing after it.
pub proof fn lemma_last_index_of(s: Seq<char>, c: char)
    ensures
        ({
            let r = last_index_of(s, c);
            &&& -1 <= r < s.len()
            &&& r >= 0 ==> s[r] == c
            &&& forall|i: int| r < i < s.len() ==> s[i] != c
        }),
    decreases s.len(),
{
    if s.len() > 0 && s[s.len() - 1] != c {
        lemma_last_index_of(s.drop_last(), c);
        let r = last_index_of(s.drop_last(), c);
        if r >= 0 {
            assert(s.drop_last()[r] == s[r]);
        }
        assert forall|i: int| r < i < s.len() implies s[i] != c by {
            if i < s.len() - 1 {
                assert(s.drop_last()[i] == s[i]);
            }
        }
    }
}

/// The value text of a sample: `NaN`, or a mantissa with an optional
/// exponent.  Since no mantissa character is an `e`, the exponent begins at
/// the first `e` of the text.
pub open spec fn is_value(s: Seq<char>) -> bool {
    ||| s == "NaN"@
    ||| ({
        let k = index_of_from(s, 0, 'e');
        if k == -1 {
            is_mantissa(s)
        } else {
            is_mantissa(s.take(k)) && is_exponent(s.skip(k))
        }
    })
}

/// `p` is a prefix of `s`.
pub open spec fn starts_with(s: Seq<char>, p: Seq<char>) -> bool {
    s.len() >= p.len() && s.take(p.len() as int) == p
}

/// The label fragments of the text between the braces of a labeled line,
/// read from position `pos` on: a list of `name="value"` pairs separated by
/// commas, where a value is a nonempty run of non-quote characters.
/// `None` when the text does not have that shape.
pub open spec fn frags_from(s: Seq<char>, pos: int) -> Option<Seq<(Seq<char>, Seq<char>)>>
    decreases s.len() - pos,
    when 0 <= pos
    via frags_from_dec
{
    let e = index_of_from(s, pos, '=');
    if e == -1 {
        None
    } else if !is_label_name(s.subrange(pos, e)) {
        None
    } else if !(e + 1 < s.len() && s[e + 1] == '"') {
        None
    } else {
        let q = index_of_from(s, e + 2, '"');
        if q == -1 || q == e + 2 {
            None
        } else {
            let name = s.subrange(pos, e);
            let val = s.subrange(e + 2, q);
            if q + 1 == s.len() {
                Some(seq![(name, val)])
            } else if s[q + 1] == ',' {
                match frags_from(s, q + 2) {
                    None => None,
                    Some(fs) => Some(seq![(name, val)] + fs),
                }
            } else {
                None
            }
        }
    }
}

#[via_fn]
proof fn frags_from_dec(s: Seq<char>, pos: int) {
    lemma_index_of_from(s, pos, '=');
    let e = index_of_from(s, pos, '=');
    if e >= 0 {
        lemma_index_of_from(s, e + 2, '"');
    }
}

/// The label fragments of a whole brace interior; an empty interior is an
/// empty list.
pub open spec fn spec_frags(s: Seq<char>) -> Option<Seq<(Seq<char>, Seq<char>)>> {
    if s.len() == 0 {
        Some(Seq::empty())
    } else {
        frags_from(s, 0)
    }
}

/// The label set denoted by a fragment list: later fragments of the same
/// name win.
pub open spec fn labels_of_frags(frags: Seq<(Seq<char>, Seq<char>)>) -> Map<Seq<char>, Seq<char>>
    decreases frags.len(),
{
    if frags.len() == 0 {
        Map::empty()
    } else {
        labels_of_frags(frags.drop_last()).insert(frags.last().0, frags.last().1)
    }
}

/// The classification of one sample line.
pub ghost enum LineShape {
    /// `name value`: a metric identifier, one space, a value.
    Unlabeled { value: Seq<char> },
    /// `name{fragments} value`.
    Labeled { value: Seq<char>, frags: Seq<(Seq<char>, Seq<char>)> },
    /// Neither shape.
    Invalid,
}

/// Classify one sample line.  The value is the text after the last space of
/// the line; what precedes that space is either a bare metric identifier or
/// an identifier followed by a brace-enclosed fragment list.
pub open spec fn spec_classify(line: Seq<char>) -> LineShape {
    let p = last_index_of(line, ' ');
    if p == -1 {
        LineShape::Invalid
    } else {
        let name_part = line.take(p);
        let value = line.skip(p + 1);
        if !is_value(value) {
            LineShape::Invalid
        } else if is_ident(name_part) {
            LineShape::Unlabeled { value }
        } else {
            let q = index_of_from(name_part, 0, '{');
            if q >= 1 && q + 1 <= name_part.len() - 1 && name_part.last() == '}' && is_ident(
                name_part.take(q),
            ) {
                match spec_frags(name_part.subrange(q + 1, name_part.len() - 1)) {
                    None => LineShape::Invalid,
                    Some(fs) => LineShape::Labeled { value, frags: fs },
                }
            } else {
                LineShape::Invalid
            }
        }
    }
}

} // verus!
