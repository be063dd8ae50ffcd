//! Classifies a raw line into a record identifier.
//!
//! A mapper is compiled from a configuration string of the shape
//! `type:<n> map:<spec>`:
//!
//! * `type:0 map:<literal>` always gives the literal;
//! * `type:1 map:<a>..<b>` gives the bytes `a .. b` of the line;
//! * `type:2 map:<a>..<b>,<c>..<d>` gives the bytes `a .. b` followed by the bytes `c .. d`.
//!
//! Between `type:<n>` and `map:` stand one or more blanks; blanks may surround the
//! spec, which holds none itself.
use vstd::prelude::*;
use vstd::string::StringSliceAdditionalSpecFns;
use vstd::utf8::{encode_utf8, is_continuation_byte};

use crate::text::{
    all_digits, decimal_of, is_blank, is_digit, parse_decimal, str_eq, trim_blanks, trimmed,
};

verus! {

broadcast use vstd::utf8::encode_utf8_valid_utf8, vstd::utf8::is_char_boundary_start_end_of_seq,
    vstd::utf8::is_char_boundary_iff_not_is_continuation_byte;

/// The ways a line can be mapped to a record identifier.
#[derive(Debug)]
pub enum MapperKind {
    /// The line itself
    Identity,
    /// A fixed identifier
    Constant(String),
    /// The bytes `a .. b` of the line
    Range(usize, usize),
    /// The bytes `a .. b` followed by the bytes `c .. d`
    DualRange(usize, usize, usize, usize),
}

/// Why a configuration string was refused.
#[derive(Debug, Clone, Copy, PartialEq, Eq, Structural)]
pub enum MapperError {
    /// The string does not have the shape `type:<n> map:<spec>`, or the spec does
    /// not suit the kind
    Malformed,
    /// The kind `<n>` is not 0, 1 or 2
    UnknownKind,
}

/// Maps each line of a file to the identifier of its record.
#[derive(Debug)]
pub struct RecordMapper {
    pub kind: MapperKind,
}

/// What a mapper does, as plain values.
pub enum MapperModel {
    Identity,
    Constant(Seq<char>),
    Range(usize, usize),
    DualRange(usize, usize, usize, usize),
}

impl View for MapperKind {
    type V = MapperModel;

    open spec fn view(&self) -> MapperModel {
        match self {
            MapperKind::Identity => MapperModel::Identity,
            MapperKind::Constant(c) => MapperModel::Constant(c@),
            MapperKind::Range(a, b) => MapperModel::Range(*a, *b),
            MapperKind::DualRange(a, b, c, d) => MapperModel::DualRange(*a, *b, *c, *d),
        }
    }
}

pub open spec fn has_no_blank(v: Seq<char>) -> bool {
    forall|i: int| 0 <= i < v.len() ==> !is_blank(#[trigger] v[i])
}

/// What follows the kind digit, without its surrounding blanks.
pub open spec fn config_body(s: Seq<char>) -> Seq<char> {
    trimmed(s.subrange(6, s.len() as int))
}

/// The spec that follows `map:`, without its surrounding blanks.
pub open spec fn config_spec(s: Seq<char>) -> Seq<char> {
    let body = config_body(s);
    trimmed(body.subrange(4, body.len() as int))
}

/// `s` reads `type:<digit>`, blanks, `map:`, and a non-empty spec with no blank inside.
pub open spec fn well_shaped(s: Seq<char>) -> bool {
    &&& s.len() > 6
    &&& s.subrange(0, 5) == "type:"@
    &&& is_digit(s[5])
    &&& is_blank(s[6])
    &&& config_body(s).len() >= 4
    &&& config_body(s).subrange(0, 4) == "map:"@
    &&& config_spec(s).len() > 0
    &&& has_no_blank(config_spec(s))
}

/// `v` reads `<a>..<b>` with the dots at `i`.
pub open spec fn range_at(v: Seq<char>, i: int) -> bool {
    &&& 0 < i
    &&& i + 2 < v.len()
    &&& v[i] == '.'
    &&& v[i + 1] == '.'
    &&& decimal_of(v.subrange(0, i)) is Some
    &&& decimal_of(v.subrange(i + 2, v.len() as int)) is Some
}

/// The pair `(a, b)` that `v` writes as `<a>..<b>`.
pub open spec fn range_of(v: Seq<char>) -> Option<(usize, usize)> {
    if exists|i: int| range_at(v, i) {
        let i = choose|i: int| range_at(v, i);
        Some(
            (
                decimal_of(v.subrange(0, i))->Some_0,
                decimal_of(v.subrange(i + 2, v.len() as int))->Some_0,
            ),
        )
    } else {
        None
    }
}

/// `v` reads `<a>..<b>,<c>..<d>` with the comma at `j`.
pub open spec fn dual_range_at(v: Seq<char>, j: int) -> bool {
    &&& 0 <= j < v.len()
    &&& v[j] == ','
    &&& range_of(v.subrange(0, j)) is Some
    &&& range_of(v.subrange(j + 1, v.len() as int)) is Some
}

/// The four bounds that `v` writes as `<a>..<b>,<c>..<d>`.
pub open spec fn dual_range_of(v: Seq<char>) -> Option<(usize, usize, usize, usize)> {
    if exists|j: int| dual_range_at(v, j) {
        let j = choose|j: int| dual_range_at(v, j);
        let (a, b) = range_of(v.subrange(0, j))->Some_0;
        let (c, d) = range_of(v.subrange(j + 1, v.len() as int))->Some_0;
        Some((a, b, c, d))
    } else {
        None
    }
}

/// The mapper that a configuration string describes.
pub open spec fn mapper_of(s: Seq<char>) -> Result<MapperModel, MapperError> {
    if !well_shaped(s) {
        Err(MapperError::Malformed)
    } else if s[5] == '0' {
        Ok(MapperModel::Constant(config_spec(s)))
    } else if s[5] == '1' {
        match range_of(config_spec(s)) {
            Some((a, b)) => Ok(MapperModel::Range(a, b)),
            None => Err(MapperError::Malformed),
        }
    } else if s[5] == '2' {
        match dual_range_of(config_spec(s)) {
            Some((a, b, c, d)) => Ok(MapperModel::DualRange(a, b, c, d)),
            None => Err(MapperError::Malformed),
        }
    } else {
        Err(MapperError::UnknownKind)
    }
}

/// `i` is a character boundary of the UTF-8 bytes `bytes`.
pub open spec fn at_boundary(bytes: Seq<u8>, i: int) -> bool {
    i == 0 || i == bytes.len() || (0 < i < bytes.len() && !is_continuation_byte(bytes[i]))
}

/// The bytes `a .. b` can be cut out of `bytes` as a string.
pub open spec fn slice_fits(bytes: Seq<u8>, a: int, b: int) -> bool {
    a <= b <= bytes.len() && at_boundary(bytes, a) && at_boundary(bytes, b)
}

/// The bytes `a .. b` of `line`, when they fall on character boundaries.
fn byte_slice(line: &str, a: usize, b: usize) -> (r: Option<&str>)
    ensures
        r is Some <==> slice_fits(line.spec_bytes(), a as int, b as int),
        r matches Some(m) ==> m.spec_bytes() == line.spec_bytes().subrange(a as int, b as int),
{
    let ghost bytes = line.spec_bytes();
    let len = line.as_bytes().len();
    if b > len || a > b {
        return None;
    }
    if !line.is_char_boundary(b) {
        return None;
    }
    let (left, _) = line.split_at(b);
    assert(left.spec_bytes() == bytes.subrange(0, b as int));
    if !left.is_char_boundary(a) {
        proof {
            if a < b {
                assert(left.spec_bytes()[a as int] == bytes[a as int]);
            }
        }
        return None;
    }
    proof {
        if a < b {
            assert(left.spec_bytes()[a as int] == bytes[a as int]);
        }
    }
    let (_, mid) = left.split_at(a);
    assert(mid.spec_bytes() =~= bytes.subrange(a as int, b as int));
    Some(mid)
}

/// Encoding two character sequences one after the other encodes their concatenation.
proof fn lemma_encode_concat(x: Seq<char>, y: Seq<char>)
    ensures
        encode_utf8(x + y) == encode_utf8(x) + encode_utf8(y),
    decreases x.len(),
{
    if x.len() == 0 {
        assert(x + y =~= y);
        assert(encode_utf8(x) + encode_utf8(y) =~= encode_utf8(y));
    } else {
        lemma_encode_concat(x.drop_first(), y);
        assert((x + y).drop_first() =~= x.drop_first() + y);
        assert((x + y)[0] == x[0]);
        assert(vstd::utf8::encode_scalar(x[0] as u32) + encode_utf8(x.drop_first()) + encode_utf8(y)
            =~= vstd::utf8::encode_scalar(x[0] as u32) + (encode_utf8(x.drop_first()) + encode_utf8(y)));
    }
}

/// Position of the first `c` in `v`, or `v`'s length when there is none.
fn find_char(v: &str, c: char) -> (r: usize)
    ensures
        r <= v@.len(),
        r < v@.len() ==> v@[r as int] == c,
        forall|k: int| 0 <= k < r ==> v@[k] != c,
{
    let n = v.unicode_len();
    let mut i: usize = 0;
    while i < n
        invariant
            n == v@.len(),
            i <= n,
            forall|k: int| 0 <= k < i ==> v@[k] != c,
        decreases n - i,
    {
        if v.get_char(i) == c {
            return i;
        }
        i = i + 1;
    }
    i
}

/// Reads `<a>..<b>`.
fn parse_range(v: &str) -> (r: Option<(usize, usize)>)
    ensures
        r == range_of(v@),
{
    let n = v.unicode_len();
    let i = find_char(v, '.');
    let ok = 0 < i && i < n && n - i > 2 && v.get_char(i + 1) == '.';
    let first = if ok {
        parse_decimal(v.substring_char(0, i))
    } else {
        None
    };
    let second = if ok {
        parse_decimal(v.substring_char(i + 2, n))
    } else {
        None
    };
    proof {
        assert forall|j: int| range_at(v@, j) implies j == i by {
            let p = v@.subrange(0, j);
            assert(all_digits(p));
            if i < j {
                assert(p[i as int] == v@[i as int]);
                assert(is_digit(p[i as int]));
            }
        }
    }
    match (first, second) {
        (Some(a), Some(b)) => {
            assert(range_at(v@, i as int));
            Some((a, b))
        },
        _ => None,
    }
}

/// Reads `<a>..<b>,<c>..<d>`.
fn parse_dual_range(v: &str) -> (r: Option<(usize, usize, usize, usize)>)
    ensures
        r == dual_range_of(v@),
{
    let n = v.unicode_len();
    let j = find_char(v, ',');
    if j >= n {
        proof {
            assert forall|k: int| !dual_range_at(v@, k) by {}
        }
        return None;
    }
    let left = parse_range(v.substring_char(0, j));
    let right = parse_range(v.substring_char(j + 1, n));
    proof {
        assert forall|k: int| dual_range_at(v@, k) implies k == j by {
            if j < k {
                let p = v@.subrange(0, k);
                let i = choose|i: int| range_at(p, i);
                lemma_range_has_no_comma(p, i, j as int);
                assert(p[j as int] == v@[j as int]);
            }
        }
    }
    match (left, right) {
        (Some((a, b)), Some((c, d))) => {
            assert(dual_range_at(v@, j as int));
            Some((a, b, c, d))
        },
        _ => None,
    }
}

/// A string that reads `<a>..<b>` holds no comma.
proof fn lemma_range_has_no_comma(p: Seq<char>, i: int, k: int)
    requires
        range_at(p, i),
        0 <= k < p.len(),
    ensures
        p[k] != ',',
{
    if k < i {
        assert(p.subrange(0, i)[k] == p[k]);
        assert(is_digit(p.subrange(0, i)[k]));
    } else if k >= i + 2 {
        let q = p.subrange(i + 2, p.len() as int);
        assert(q[k - i - 2] == p[k]);
        assert(is_digit(q[k - i - 2]));
    }
}

/// Whether `v` holds no blank.
fn no_blank(v: &str) -> (r: bool)
    ensures
        r == has_no_blank(v@),
{
    let n = v.unicode_len();
    let mut i: usize = 0;
    while i < n
        invariant
            n == v@.len(),
            i <= n,
            forall|k: int| 0 <= k < i ==> !is_blank(#[trigger] v@[k]),
        decreases n - i,
    {
        if crate::text::char_is_blank(v.get_char(i)) {
            return false;
        }
        i = i + 1;
    }
    true
}

impl RecordMapper {
    /// Compiles a configuration string `type:<n> map:<spec>`.
    pub fn from(config: &str) -> (r: Result<RecordMapper, MapperError>)
        ensures
            match (r, mapper_of(config@)) {
                (Ok(m), Ok(model)) => m.kind@ == model,
                (Err(e), Err(f)) => e == f,
                _ => false,
            },
    {
        let s = config;
        let n = s.unicode_len();
        proof {
            reveal_strlit("type:");
            reveal_strlit("map:");
        }
        if n <= 6 || !str_eq(s.substring_char(0, 5), "type:") {
            return Err(MapperError::Malformed);
        }
        let digit = s.get_char(5);
        if !('0' <= digit && digit <= '9') || !crate::text::char_is_blank(s.get_char(6)) {
            return Err(MapperError::Malformed);
        }
        let body = trim_blanks(s.substring_char(6, n));
        let bn = body.as_str().unicode_len();
        if bn < 4 || !str_eq(body.as_str().substring_char(0, 4), "map:") {
            return Err(MapperError::Malformed);
        }
        let spec = trim_blanks(body.as_str().substring_char(4, bn));
        if spec.as_str().unicode_len() == 0 || !no_blank(spec.as_str()) {
            return Err(MapperError::Malformed);
        }
        assert(well_shaped(s@));
        if digit == '0' {
            Ok(RecordMapper { kind: MapperKind::Constant(spec) })
        } else if digit == '1' {
            match parse_range(spec.as_str()) {
                Some((a, b)) => Ok(RecordMapper { kind: MapperKind::Range(a, b) }),
                None => Err(MapperError::Malformed),
            }
        } else if digit == '2' {
            match parse_dual_range(spec.as_str()) {
                Some((a, b, c, d)) => Ok(RecordMapper { kind: MapperKind::DualRange(a, b, c, d) }),
                None => Err(MapperError::Malformed),
            }
        } else {
            Err(MapperError::UnknownKind)
        }
    }

    /// The record identifier of `line`, or `None` when a range of the mapper does
    /// not fall on character boundaries of the line.
    pub fn hasher(&self, line: &str) -> (r: Option<String>)
        ensures
            match self.kind@ {
                MapperModel::Identity => r matches Some(s) && s@ == line@,
                MapperModel::Constant(c) => r matches Some(s) && s@ == c,
                MapperModel::Range(a, b) => {
                    &&& r is Some <==> slice_fits(line.spec_bytes(), a as int, b as int)
                    &&& r matches Some(s) ==> encode_utf8(s@) == line.spec_bytes().subrange(
                        a as int,
                        b as int,
                    )
                },
                MapperModel::DualRange(a, b, c, d) => {
                    &&& r is Some <==> slice_fits(line.spec_bytes(), a as int, b as int)
                        && slice_fits(line.spec_bytes(), c as int, d as int)
                    &&& r matches Some(s) ==> encode_utf8(s@) == line.spec_bytes().subrange(
                        a as int,
                        b as int,
                    ) + line.spec_bytes().subrange(c as int, d as int)
                },
            },
    {
        match &self.kind {
            MapperKind::Identity => Some(line.to_owned()),
            MapperKind::Constant(c) => Some(c.clone()),
            MapperKind::Range(a, b) => match byte_slice(line, *a, *b) {
                Some(m) => Some(m.to_owned()),
                None => None,
            },
            MapperKind::DualRange(a, b, c, d) => {
                let first = byte_slice(line, *a, *b);
                let second = byte_slice(line, *c, *d);
                match (first, second) {
                    (Some(m1), Some(m2)) => {
                        let mut s = m1.to_owned();
                        s.append(m2);
                        proof {
                            lemma_encode_concat(m1@, m2@);
                        }
                        Some(s)
                    },
                    _ => None,
                }
            },
        }
    }
}

impl Default for RecordMapper {
    /// The identity mapper: a line is its own identifier.
    fn default() -> (r: RecordMapper)
        ensures
            r.kind@ == MapperModel::Identity,
    {
        RecordMapper { kind: MapperKind::Identity }
    }
}

} // verus!
