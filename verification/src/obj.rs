//! Reading the face lines of a polygon mesh in text form.
//!
//! A face line lists the corners of a face, separated by white space. A
//! corner is a vertex number, optionally followed by a texture number and a
//! normal number, separated by `/`. The numbers count from one.

use vstd::prelude::*;

verus! {

/// Why a face line could not be read.
#[derive(Debug, Clone, Copy, PartialEq, Eq, Structural)]
pub enum ObjError {
    /// One of the first three fields of a corner is not an unsigned number
    /// that fits the machine's word.
    InvalidNumber,
    /// One of the first three fields of a corner is zero, and numbers count
    /// from one.
    ZeroIndex,
    /// The line has fewer than three corners.
    TooFewCorners,
}

/// Whether a byte is ASCII white space: a tab, a line feed, a form feed, a
/// carriage return or a space.
pub open spec fn is_space(b: u8) -> bool {
    b == 9 || b == 10 || b == 12 || b == 13 || b == 32
}

/// Whether a byte is an ASCII digit.
pub open spec fn is_digit(b: u8) -> bool {
    48 <= b <= 57
}

/// The value of a digit, and zero for any other byte.
pub open spec fn digit(b: u8) -> nat {
    if is_digit(b) {
        (b - 48) as nat
    } else {
        0
    }
}

/// The first place at or after `i` that holds no white space, or the end.
pub open spec fn skip_spaces(s: Seq<u8>, i: int) -> int
    decreases s.len() - i,
{
    if 0 <= i < s.len() && is_space(s[i]) {
        skip_spaces(s, i + 1)
    } else {
        i
    }
}

/// The first place at or after `i` that holds white space, or the end.
pub open spec fn word_end(s: Seq<u8>, i: int) -> int
    decreases s.len() - i,
{
    if 0 <= i < s.len() && !is_space(s[i]) {
        word_end(s, i + 1)
    } else {
        i
    }
}

/// The first place at or after `i` that holds a `/`, or the end.
pub open spec fn field_end(s: Seq<u8>, i: int) -> int
    decreases s.len() - i,
{
    if 0 <= i < s.len() && s[i] != 47 {
        field_end(s, i + 1)
    } else {
        i
    }
}

/// The number that a run of digits stands for, in base ten.
pub open spec fn digits_value(s: Seq<u8>) -> nat
    decreases s.len(),
{
    if s.len() == 0 {
        0
    } else {
        digits_value(s.drop_last()) * 10 + digit(s.last())
    }
}

/// Whether every byte is a digit.
pub open spec fn all_digits(s: Seq<u8>) -> bool {
    forall|i: int| 0 <= i < s.len() ==> is_digit(#[trigger] s[i])
}

/// The unsigned number that a field stands for: an optional `+`, then one
/// or more digits, whose value fits the machine's word. Anything else is no
/// number.
pub open spec fn unsigned(s: Seq<u8>) -> Option<usize> {
    let digits = if s.len() > 0 && s[0] == 43 {
        s.skip(1)
    } else {
        s
    };
    if digits.len() > 0 && all_digits(digits) && digits_value(digits) <= usize::MAX {
        Some(digits_value(digits) as usize)
    } else {
        None
    }
}

/// Checks the fields of a corner from place `i` on, at most `count` of
/// them: the first field that is no number or is zero gives the error.
pub open spec fn check_fields(t: Seq<u8>, i: int, count: int) -> Result<(), ObjError>
    decreases count,
{
    if count <= 0 {
        Ok(())
    } else {
        let e = field_end(t, i);
        match unsigned(t.subrange(i, e)) {
            None => Err(ObjError::InvalidNumber),
            Some(v) => if v == 0 {
                Err(ObjError::ZeroIndex)
            } else if e < t.len() {
                check_fields(t, e + 1, count - 1)
            } else {
                Ok(())
            },
        }
    }
}

/// The vertex that a corner names, counted from zero: its first field less
/// one, once its first three fields are checked.
pub open spec fn corner(t: Seq<u8>) -> Result<usize, ObjError> {
    match check_fields(t, 0, 3) {
        Err(e) => Err(e),
        Ok(_) => Ok((unsigned(t.subrange(0, field_end(t, 0))).unwrap() - 1) as usize),
    }
}

/// The vertices of the corners from place `i` of a line on, or the error of
/// the first corner that has one.
pub open spec fn corners_from(s: Seq<u8>, i: int) -> Result<Seq<usize>, ObjError>
    decreases s.len() - i,
{
    let a = skip_spaces(s, i);
    if 0 <= i && a < s.len() {
        let b = word_end(s, a);
        proof {
            lemma_skip_spaces(s, i);
            lemma_word_end(s, a);
        }
        match corner(s.subrange(a, b)) {
            Err(e) => Err(e),
            Ok(c) => match corners_from(s, b) {
                Err(e) => Err(e),
                Ok(rest) => Ok(seq![c] + rest),
            },
        }
    } else {
        Ok(Seq::empty())
    }
}

/// The three vertices of the face that a line describes: those of its first
/// three corners, once every corner of the line is checked.
pub open spec fn face(s: Seq<u8>) -> Result<Seq<usize>, ObjError> {
    match corners_from(s, 0) {
        Err(e) => Err(e),
        Ok(corners) => if corners.len() < 3 {
            Err(ObjError::TooFewCorners)
        } else {
            Ok(corners.subrange(0, 3))
        },
    }
}

/// Skipping white space goes forward, stays inside the line, and stops at a
/// byte that is no white space.
pub proof fn lemma_skip_spaces(s: Seq<u8>, i: int)
    requires
        0 <= i,
    ensures
        i <= skip_spaces(s, i),
        i <= s.len() ==> skip_spaces(s, i) <= s.len(),
        skip_spaces(s, i) < s.len() ==> !is_space(s[skip_spaces(s, i)]),
    decreases s.len() - i,
{
    if i < s.len() && is_space(s[i]) {
        lemma_skip_spaces(s, i + 1);
    }
}

/// A word that starts at a byte that is no white space has at least that
/// byte, and ends inside the line.
pub proof fn lemma_word_end(s: Seq<u8>, i: int)
    requires
        0 <= i,
    ensures
        i <= word_end(s, i),
        i <= s.len() ==> word_end(s, i) <= s.len(),
        i < s.len() && !is_space(s[i]) ==> i < word_end(s, i),
    decreases s.len() - i,
{
    if i < s.len() && !is_space(s[i]) {
        lemma_word_end(s, i + 1);
    }
}

/// A run of digits is worth at least as much as any run that it starts with.
pub proof fn lemma_digits_value_grows(s: Seq<u8>, k: int)
    requires
        0 <= k <= s.len(),
    ensures
        digits_value(s.subrange(0, k)) <= digits_value(s),
    decreases s.len() - k,
{
    if k == s.len() {
        assert(s.subrange(0, k) =~= s);
    } else {
        lemma_digits_value_grows(s.drop_last(), k);
        assert(s.drop_last().subrange(0, k) =~= s.subrange(0, k));
    }
}

/// Reads an unsigned number: an optional `+`, then digits.
fn parse_unsigned(field: &[u8]) -> (res: Option<usize>)
    ensures
        res == unsigned(field@),
{
    let n = field.len();
    let start: usize = if n > 0 && field[0] == 43 {
        1
    } else {
        0
    };
    let ghost digits = field@.subrange(start as int, n as int);
    assert(digits =~= if start == 1 {
        field@.skip(1)
    } else {
        field@
    });
    if start == n {
        return None;
    }
    let mut value: usize = 0;
    let mut i: usize = start;
    assert(digits.subrange(0, 0) =~= Seq::<u8>::empty());
    while i < n
        invariant
            start <= i <= n,
            n == field@.len(),
            digits == field@.subrange(start as int, n as int),
            digits == (if field@.len() > 0 && field@[0] == 43 {
                field@.skip(1)
            } else {
                field@
            }),
            digits.len() == n - start,
            all_digits(digits.subrange(0, i - start)),
            value == digits_value(digits.subrange(0, i - start)),
        decreases n - i,
    {
        let b = field[i];
        let ghost taken = digits.subrange(0, i - start);
        let ghost next = digits.subrange(0, i + 1 - start);
        assert(next.drop_last() =~= taken);
        assert(next.last() == b);
        assert(digits[i - start] == b);
        if b < 48 || b > 57 {
            assert(!is_digit(digits[i - start]));
            return None;
        }
        proof {
            lemma_digits_value_grows(digits, i + 1 - start);
            assert(digits_value(next) == digits_value(taken) * 10 + digit(b));
        }
        let tens = match value.checked_mul(10) {
            Some(v) => v,
            None => {
                return None;
            },
        };
        value = match tens.checked_add((b - 48) as usize) {
            Some(v) => v,
            None => {
                return None;
            },
        };
        assert forall|k: int| 0 <= k < next.len() implies is_digit(#[trigger] next[k]) by {
            if k < taken.len() {
                assert(taken[k] == next[k]);
            }
        }
        i += 1;
    }
    assert(digits.subrange(0, n - start) =~= digits);
    Some(value)
}

/// Finds the end of the field that starts at `i`.
fn find_field_end(token: &[u8], i: usize) -> (e: usize)
    requires
        i <= token@.len(),
    ensures
        e == field_end(token@, i as int),
        i <= e <= token@.len(),
{
    let mut e = i;
    while e < token.len() && token[e] != 47
        invariant
            i <= e <= token@.len(),
            field_end(token@, i as int) == field_end(token@, e as int),
        decreases token@.len() - e,
    {
        e += 1;
    }
    e
}

/// Reads a corner: checks its first three fields and gives the vertex that
/// its first field names, counted from zero.
fn parse_corner(token: &[u8]) -> (res: Result<usize, ObjError>)
    ensures
        res == corner(token@),
{
    let mut first: usize = 0;
    let mut i: usize = 0;
    let mut fields: usize = 0;
    let mut more = true;
    while more && fields < 3
        invariant
            i <= token@.len(),
            fields <= 3,
            fields == 0 ==> more && i == 0,
            fields > 0 ==> first > 0 && Some(first) == unsigned(
                token@.subrange(0, field_end(token@, 0)),
            ),
            check_fields(token@, 0, 3) == if more {
                check_fields(token@, i as int, 3 - fields)
            } else {
                Ok(())
            },
        decreases (if more { 1int } else { 0int }), 3 - fields,
    {
        let e = find_field_end(token, i);
        let value = match parse_unsigned(vstd::slice::slice_subrange(token, i, e)) {
            Some(v) => v,
            None => {
                return Err(ObjError::InvalidNumber);
            },
        };
        if value == 0 {
            return Err(ObjError::ZeroIndex);
        }
        if fields == 0 {
            first = value;
        }
        fields += 1;
        if e < token.len() {
            i = e + 1;
        } else {
            more = false;
        }
    }
    Ok(first - 1)
}

/// The corners read so far, followed by what the rest of the line gives.
spec fn corners_then(head: Seq<usize>, rest: Result<Seq<usize>, ObjError>) -> Result<
    Seq<usize>,
    ObjError,
> {
    match rest {
        Ok(r) => Ok(head + r),
        Err(e) => Err(e),
    }
}

/// The vertices that were read, or the error.
pub open spec fn face_value(res: Result<Vec<usize>, ObjError>) -> Result<Seq<usize>, ObjError> {
    match res {
        Ok(f) => Ok(f@),
        Err(e) => Err(e),
    }
}

/// Reads the face that a line describes: the vertices, counted from zero,
/// that its first three corners name.
///
/// Every corner of the line is checked, also those after the third.
///
/// ## errors
///
/// - `InvalidNumber` or `ZeroIndex`, whichever comes first in the line, if
///   one of the first three fields of a corner is no number or is zero
/// - `TooFewCorners` if the line has fewer than three corners
pub fn parse_face(line: &[u8]) -> (res: Result<Vec<usize>, ObjError>)
    ensures
        face_value(res) == face(line@),
{
    let n = line.len();
    let mut corners: Vec<usize> = Vec::new();
    let mut i: usize = 0;
    assert(corners_from(line@, 0) == corners_then(corners@, corners_from(line@, 0))) by {
        match corners_from(line@, 0) {
            Ok(r) => {
                assert(corners@ + r =~= r);
            },
            Err(_) => {},
        }
    }
    loop
        invariant
            n == line@.len(),
            i <= n,
            corners_from(line@, 0) == corners_then(corners@, corners_from(line@, i as int)),
        ensures
            corners_from(line@, 0) == Ok::<Seq<usize>, ObjError>(corners@),
        decreases n - i,
    {
        let ghost before = corners@;
        let ghost from = i as int;
        while i < n && (line[i] == 9 || line[i] == 10 || line[i] == 12 || line[i] == 13
            || line[i] == 32)
            invariant
                n == line@.len(),
                from <= i <= n,
                skip_spaces(line@, from) == skip_spaces(line@, i as int),
            decreases n - i,
        {
            i += 1;
        }
        if i >= n {
            assert(corners@ + Seq::<usize>::empty() =~= corners@);
            break;
        }
        let start = i;
        while i < n && !(line[i] == 9 || line[i] == 10 || line[i] == 12 || line[i] == 13
            || line[i] == 32)
            invariant
                n == line@.len(),
                start <= i <= n,
                word_end(line@, start as int) == word_end(line@, i as int),
            decreases n - i,
        {
            i += 1;
        }
        proof {
            lemma_word_end(line@, start as int);
        }
        let c = match parse_corner(vstd::slice::slice_subrange(line, start, i)) {
            Ok(c) => c,
            Err(e) => {
                return Err(e);
            },
        };
        corners.push(c);
        proof {
            match corners_from(line@, i as int) {
                Ok(r) => {
                    assert(before + (seq![c] + r) =~= (before + seq![c]) + r);
                    assert(corners@ =~= before + seq![c]);
                },
                Err(_) => {},
            }
        }
    }
    if corners.len() < 3 {
        return Err(ObjError::TooFewCorners);
    }
    corners.truncate(3);
    Ok(corners)
}

} // verus!
