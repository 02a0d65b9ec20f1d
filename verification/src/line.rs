//! The line classifier: executable recognition of sample lines.
//!
//! A line is split at its last space into a name part and a value.  The
//! name part is either a bare metric identifier or an identifier followed
//! by a brace-enclosed list of `name="value"` fragments.

use vstd::prelude::*;

use crate::error::ParseError;
use crate::error::ParseErrorView;
use crate::grammar::frags_from;
use crate::grammar::index_of_from;
use crate::grammar::is_digit;
use crate::grammar::is_exponent;
use crate::grammar::is_ident;
use crate::grammar::is_ident_char;
use crate::grammar::is_ident_start;
use crate::grammar::is_label_name_char;
use crate::grammar::is_mantissa;
use crate::grammar::is_mantissa_char;
use crate::grammar::is_value;
use crate::grammar::last_index_of;
use crate::grammar::lemma_last_index_of;
use crate::grammar::spec_classify;
use crate::grammar::starts_with;
use crate::grammar::spec_frags;
use crate::grammar::LineShape;
use crate::labels::pairs_view;
use vstd::string::StrSliceExecFns;

verus! {

fn is_digit_x(c: char) -> (b: bool)
    ensures
        b == is_digit(c),
{
    let u = c as u32;
    48 <= u && u <= 57
}

fn is_ident_start_x(c: char) -> (b: bool)
    ensures
        b == is_ident_start(c),
{
    let u = c as u32;
    (65 <= u && u <= 90) || (97 <= u && u <= 122) || c == '_' || c == ':'
}

fn is_ident_char_x(c: char) -> (b: bool)
    ensures
        b == is_ident_char(c),
{
    is_ident_start_x(c) || is_digit_x(c)
}

fn is_mantissa_char_x(c: char) -> (b: bool)
    ensures
        b == is_mantissa_char(c),
{
    is_digit_x(c) || c == '.'
}

/// The first occurrence of `c` in `s` at or after `from`.
#[verifier::loop_isolation(false)]
pub(crate) fn find_char(s: &str, from: usize, c: char) -> (r: Option<usize>)
    ensures
        match r {
            Some(i) => from <= i < s@.len() && s@[i as int] == c && index_of_from(
                s@,
                from as int,
                c,
            ) == i,
            None => index_of_from(s@, from as int, c) == -1,
        },
{
    let n = s.unicode_len();
    let mut i = from;
    while i < n
        invariant
            from <= i,
            n == s@.len(),
            index_of_from(s@, from as int, c) == index_of_from(s@, i as int, c),
        decreases n - i,
    {
        if s.get_char(i) == c {
            return Some(i);
        }
        i = i + 1;
    }
    None
}

/// The last occurrence of `c` in `s`.
#[verifier::loop_isolation(false)]
pub(crate) fn rfind_char(s: &str, c: char) -> (r: Option<usize>)
    ensures
        match r {
            Some(i) => i < s@.len() && last_index_of(s@, c) == i,
            None => last_index_of(s@, c) == -1,
        },
{
    proof {
        lemma_last_index_of(s@, c);
    }
    let n = s.unicode_len();
    let mut i = n;
    while i > 0
        invariant
            i <= n,
            n == s@.len(),
            forall|j: int| i <= j < n ==> s@[j] != c,
        decreases i,
    {
        i = i - 1;
        if s.get_char(i) == c {
            proof {
                let r = last_index_of(s@, c);
                if r < i {
                    assert(s@[i as int] != c);
                }
                if r > i {
                    assert(s@[r] != c);
                }
            }
            return Some(i);
        }
    }
    None
}

/// Whether `s` is a metric identifier.
#[verifier::loop_isolation(false)]
pub(crate) fn check_ident(s: &str) -> (b: bool)
    ensures
        b == is_ident(s@),
{
    let n = s.unicode_len();
    if n == 0 {
        return false;
    }
    if !is_ident_start_x(s.get_char(0)) {
        return false;
    }
    let mut i: usize = 1;
    while i < n
        invariant
            1 <= i <= n,
            n == s@.len(),
            forall|j: int| 1 <= j < i ==> is_ident_char(#[trigger] s@[j]),
        decreases n - i,
    {
        if !is_ident_char_x(s.get_char(i)) {
            return false;
        }
        i = i + 1;
    }
    true
}

/// Whether `s` is a value text: `NaN`, or a mantissa with an optional
/// exponent.
#[verifier::loop_isolation(false)]
pub(crate) fn check_value(v: &str) -> (b: bool)
    ensures
        b == is_value(v@),
{
    let n = v.unicode_len();
    if n == 3 && v.get_char(0) == 'N' && v.get_char(1) == 'a' && v.get_char(2) == 'N' {
        proof {
            reveal_strlit("NaN");
            assert(v@ =~= "NaN"@);
        }
        return true;
    }
    proof {
        reveal_strlit("NaN");
        assert(v@ != "NaN"@);
    }
    let kk: usize = match find_char(v, 0, 'e') {
        Some(k) => k,
        None => n,
    };
    let start: usize = if kk > 0 && v.get_char(0) == '-' {
        1
    } else {
        0
    };
    if kk <= start {
        return false;
    }
    let mut i = start;
    while i < kk
        invariant
            start <= i <= kk,
            kk <= n,
            n == v@.len(),
            forall|j: int| start <= j < i ==> is_mantissa_char(#[trigger] v@[j]),
        decreases kk - i,
    {
        if !is_mantissa_char_x(v.get_char(i)) {
            proof {
                assert(v@.take(kk as int)[i as int] == v@[i as int]);
            }
            return false;
        }
        i = i + 1;
    }
    proof {
        assert forall|j: int| start <= j < kk implies is_mantissa_char(
            #[trigger] v@.take(kk as int)[j],
        ) by {
            assert(v@.take(kk as int)[j] == v@[j]);
        }
        assert(is_mantissa(v@.take(kk as int)));
    }
    if kk == n {
        proof {
            assert(v@.take(n as int) =~= v@);
        }
        return true;
    }
    let k = kk;
    if n - k < 2 {
        return false;
    }
    let dstart: usize = if v.get_char(k + 1) == '-' {
        if n - k < 3 {
            return false;
        }
        k + 2
    } else {
        k + 1
    };
    let mut i = dstart;
    while i < n
        invariant
            dstart <= i <= n,
            n == v@.len(),
            forall|j: int| dstart <= j < i ==> is_digit(#[trigger] v@[j]),
        decreases n - i,
    {
        if !is_digit_x(v.get_char(i)) {
            proof {
                assert(v@.skip(k as int)[i - k] == v@[i as int]);
            }
            return false;
        }
        i = i + 1;
    }
    proof {
        assert forall|j: int| dstart - k <= j < n - k implies is_digit(
            #[trigger] v@.skip(k as int)[j],
        ) by {
            assert(v@.skip(k as int)[j] == v@[j + k]);
        }
        assert(v@.skip(k as int)[0] == v@[k as int]);
        if dstart == k + 2 {
            assert(v@.skip(k as int)[1] == v@[k as int + 1]);
        }
        assert(is_exponent(v@.skip(k as int)));
    }
    true
}

/// Parse the interior of the braces of a labeled line into its fragments.
#[verifier::loop_isolation(false)]
pub(crate) fn parse_frags(inner: &str) -> (r: Option<Vec<(String, String)>>)
    ensures
        match r {
            Some(v) => spec_frags(inner@) == Some(pairs_view(v@)),
            None => spec_frags(inner@) is None,
        },
{
    let n = inner.unicode_len();
    let mut acc: Vec<(String, String)> = Vec::new();
    if n == 0 {
        proof {
            assert(pairs_view(acc@) =~= Seq::<(Seq<char>, Seq<char>)>::empty());
        }
        return Some(acc);
    }
    let mut pos: usize = 0;
    loop
        invariant
            n == inner@.len(),
            n > 0,
            pos <= n,
            spec_frags(inner@) == match frags_from(inner@, pos as int) {
                None => None::<Seq<(Seq<char>, Seq<char>)>>,
                Some(fs) => Some(pairs_view(acc@) + fs),
            },
        decreases n - pos,
    {
        let e = match find_char(inner, pos, '=') {
            None => {
                return None;
            },
            Some(e) => e,
        };
        let mut i = pos;
        while i < e
            invariant
                pos <= i <= e,
                e < n,
                n == inner@.len(),
                forall|j: int| pos <= j < i ==> is_label_name_char(#[trigger] inner@[j]),
            decreases e - i,
        {
            if !is_label_name_char_x(inner.get_char(i)) {
                proof {
                    assert(inner@.subrange(pos as int, e as int)[i - pos] == inner@[i as int]);
                }
                return None;
            }
            i = i + 1;
        }
        proof {
            assert forall|j: int| 0 <= j < e - pos implies is_label_name_char(
                #[trigger] inner@.subrange(pos as int, e as int)[j],
            ) by {
                assert(inner@.subrange(pos as int, e as int)[j] == inner@[pos + j]);
            }
        }
        if e + 1 >= n {
            return None;
        }
        if inner.get_char(e + 1) != '"' {
            return None;
        }
        let q = match find_char(inner, e + 2, '"') {
            None => {
                return None;
            },
            Some(q) => q,
        };
        if q == e + 2 {
            return None;
        }
        let name = inner.substring_char(pos, e).to_owned();
        let val = inner.substring_char(e + 2, q).to_owned();
        let ghost old_acc = acc@;
        let ghost p = (inner@.subrange(pos as int, e as int), inner@.subrange(e + 2, q as int));
        acc.push((name, val));
        proof {
            assert(pairs_view(acc@) =~= pairs_view(old_acc).push(p));
        }
        if q + 1 == n {
            proof {
                assert(frags_from(inner@, pos as int) == Some(seq![p]));
                assert(pairs_view(old_acc) + seq![p] =~= pairs_view(acc@));
            }
            return Some(acc);
        }
        if inner.get_char(q + 1) != ',' {
            return None;
        }
        let ghost old_pos = pos as int;
        pos = q + 2;
        proof {
            match frags_from(inner@, pos as int) {
                None => {
                    assert(frags_from(inner@, old_pos) is None);
                },
                Some(fs) => {
                    assert(frags_from(inner@, old_pos) == Some(seq![p] + fs));
                    assert(pairs_view(old_acc) + (seq![p] + fs) =~= pairs_view(acc@) + fs);
                },
            }
        }
    }
}

/// Classify one sample line, yielding its value text and, for a labeled
/// line, its label fragments in source order.
pub(crate) fn classify(s: &str) -> (r: Result<(String, Option<Vec<(String, String)>>), ParseError>)
    ensures
        match r {
            Ok(p) => match spec_classify(s@) {
                LineShape::Unlabeled { value } => p.0@ == value && p.1 is None,
                LineShape::Labeled { value, frags } => p.0@ == value && (match p.1 {
                    Some(v) => pairs_view(v@) == frags,
                    None => false,
                }),
                LineShape::Invalid => false,
            },
            Err(e) => spec_classify(s@) == LineShape::Invalid && e@ == ParseErrorView::MalformedLine(
                s@,
            ),
        },
{
    let n = s.unicode_len();
    let p = match rfind_char(s, ' ') {
        None => {
            return Err(ParseError::MalformedLine(s.to_owned()));
        },
        Some(p) => p,
    };
    let name_part = s.substring_char(0, p);
    let value_str = s.substring_char(p + 1, n);
    proof {
        assert(name_part@ =~= s@.take(p as int));
        assert(value_str@ =~= s@.skip(p as int + 1));
    }
    if !check_value(value_str) {
        return Err(ParseError::MalformedLine(s.to_owned()));
    }
    if check_ident(name_part) {
        return Ok((value_str.to_owned(), None));
    }
    let q = match find_char(name_part, 0, '{') {
        None => {
            return Err(ParseError::MalformedLine(s.to_owned()));
        },
        Some(q) => q,
    };
    if q < 1 || q + 1 > p - 1 {
        return Err(ParseError::MalformedLine(s.to_owned()));
    }
    if name_part.get_char(p - 1) != '}' {
        return Err(ParseError::MalformedLine(s.to_owned()));
    }
    let head = name_part.substring_char(0, q);
    proof {
        assert(head@ =~= s@.take(p as int).take(q as int));
    }
    if !check_ident(head) {
        return Err(ParseError::MalformedLine(s.to_owned()));
    }
    let inner = name_part.substring_char(q + 1, p - 1);
    proof {
        assert(inner@ =~= s@.take(p as int).subrange(q + 1, p - 1));
    }
    match parse_frags(inner) {
        None => Err(ParseError::MalformedLine(s.to_owned())),
        Some(v) => Ok((value_str.to_owned(), Some(v))),
    }
}

/// Whether `p` is a prefix of `s`.
#[verifier::loop_isolation(false)]
pub(crate) fn starts_with_x(s: &str, p: &str) -> (b: bool)
    ensures
        b == starts_with(s@, p@),
{
    let np = p.unicode_len();
    let ns = s.unicode_len();
    if ns < np {
        return false;
    }
    let mut i: usize = 0;
    while i < np
        invariant
            i <= np,
            forall|j: int| 0 <= j < i ==> s@[j] == p@[j],
        decreases np - i,
    {
        if s.get_char(i) != p.get_char(i) {
            proof {
                assert(s@.take(np as int)[i as int] == s@[i as int]);
            }
            return false;
        }
        i = i + 1;
    }
    proof {
        assert(s@.take(np as int) =~= p@);
    }
    true
}

fn is_label_name_char_x(c: char) -> (b: bool)
    ensures
        b == is_label_name_char(c),
{
    is_ident_char_x(c)
}

} // verus!
