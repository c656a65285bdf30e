use vstd::prelude::*;
use vstd::string::StringSliceAdditionalSpecFns;
use vstd::utf8::{encode_utf8, is_char_boundary, is_continuation_byte, valid_utf8};

verus! {

broadcast use vstd::utf8::encode_utf8_valid_utf8, vstd::utf8::is_char_boundary_iff_not_is_continuation_byte, vstd::utf8::is_char_boundary_start_end_of_seq, vstd::utf8::valid_utf8_split;

/// One end of a record range over a table.
#[derive(Debug, PartialEq)]
pub enum Bound {
    Unbounded,
    Inclusive(String),
    Exclusive(String),
}

/// The target of a CRUD call: a whole table, a single record, or a range of
/// records over a table. Which one a resource string names is decided by
/// its shape, range syntax being recognized before a plain identifier.
#[derive(Debug, PartialEq)]
pub enum Resource {
    Table(String),
    Record { table: String, id: String },
    Range { table: String, begin: Bound, end: Bound },
}

/// The UTF-8 encoding of a string's contents.
pub open spec fn bytes_of(s: String) -> Seq<u8> {
    encode_utf8(s@)
}

/// Index of the first occurrence of byte `x` at or after `lo`.
pub open spec fn find_byte_from(b: Seq<u8>, x: u8, lo: int) -> Option<int>
    decreases b.len() - lo,
    when 0 <= lo <= b.len()
{
    if lo >= b.len() {
        Option::None
    } else if b[lo] == x {
        Option::Some(lo)
    } else {
        find_byte_from(b, x, lo + 1)
    }
}

/// Index of the first occurrence of two consecutive `.` bytes at or after
/// `lo`: the range marker of a resource string.
pub open spec fn find_dots_from(b: Seq<u8>, lo: int) -> Option<int>
    decreases b.len() - lo,
    when 0 <= lo <= b.len()
{
    if lo >= b.len() {
        Option::None
    } else if b[lo] == 46 && lo + 1 < b.len() && b[lo + 1] == 46 {
        Option::Some(lo)
    } else {
        find_dots_from(b, lo + 1)
    }
}

/// A resource string is range syntax when a `..` marker follows the first
/// `:` separator.
pub open spec fn is_range_syntax(b: Seq<u8>) -> bool {
    match find_byte_from(b, 58, 0) {
        Option::None => false,
        Option::Some(c) => find_dots_from(b, c + 1) is Some,
    }
}

/// `bound` is the reading of the raw bytes before the `..` marker: empty
/// means unbounded, a trailing `>` means exclusive, anything else is an
/// inclusive identifier.
pub open spec fn begin_bound_rel(raw: Seq<u8>, bound: Bound) -> bool {
    match bound {
        Bound::Unbounded => raw.len() == 0,
        Bound::Exclusive(x) => raw.len() > 0 && raw.last() == 62 && bytes_of(x) == raw.drop_last(),
        Bound::Inclusive(x) => raw.len() > 0 && raw.last() != 62 && bytes_of(x) == raw,
    }
}

/// `bound` is the reading of the raw bytes after the `..` marker: empty
/// means unbounded, a leading `=` means inclusive, anything else is an
/// exclusive identifier.
pub open spec fn end_bound_rel(raw: Seq<u8>, bound: Bound) -> bool {
    match bound {
        Bound::Unbounded => raw.len() == 0,
        Bound::Inclusive(x) => raw.len() > 0 && raw.first() == 61 && bytes_of(x)
            == raw.drop_first(),
        Bound::Exclusive(x) => raw.len() > 0 && raw.first() != 61 && bytes_of(x) == raw,
    }
}

/// `r` is the reading of the resource string whose UTF-8 bytes are `b`: no
/// `:` separator names a whole table, a `..` marker after the separator
/// names a range, and anything else names a single record.
pub open spec fn resource_rel(b: Seq<u8>, r: Resource) -> bool {
    match r {
        Resource::Table(t) => find_byte_from(b, 58, 0) is None && bytes_of(t) == b,
        Resource::Record { table, id } => find_byte_from(b, 58, 0) is Some && {
            let c = find_byte_from(b, 58, 0)->0;
            &&& find_dots_from(b, c + 1) is None
            &&& bytes_of(table) == b.subrange(0, c)
            &&& bytes_of(id) == b.subrange(c + 1, b.len() as int)
        },
        Resource::Range { table, begin, end } => find_byte_from(b, 58, 0) is Some && {
            let c = find_byte_from(b, 58, 0)->0;
            &&& find_dots_from(b, c + 1) is Some
            &&& {
                let d = find_dots_from(b, c + 1)->0;
                &&& bytes_of(table) == b.subrange(0, c)
                &&& begin_bound_rel(b.subrange(c + 1, d), begin)
                &&& end_bound_rel(b.subrange(d + 2, b.len() as int), end)
            }
        },
    }
}

proof fn lemma_find_byte_found(b: Seq<u8>, x: u8, lo: int, i: int)
    requires
        0 <= lo <= i < b.len(),
        b[i] == x,
        forall|j: int| lo <= j < i ==> b[j] != x,
    ensures
        find_byte_from(b, x, lo) == Option::Some(i),
    decreases i - lo,
{
    if lo < i {
        lemma_find_byte_found(b, x, lo + 1, i);
    }
}

proof fn lemma_find_byte_none(b: Seq<u8>, x: u8, lo: int)
    requires
        0 <= lo <= b.len(),
        forall|j: int| lo <= j < b.len() ==> b[j] != x,
    ensures
        find_byte_from(b, x, lo) is None,
    decreases b.len() - lo,
{
    if lo < b.len() {
        lemma_find_byte_none(b, x, lo + 1);
    }
}

proof fn lemma_find_dots_found(b: Seq<u8>, lo: int, i: int)
    requires
        0 <= lo <= i,
        i + 1 < b.len(),
        b[i] == 46,
        b[i + 1] == 46,
        forall|j: int| lo <= j < i ==> !((#[trigger] b[j]) == 46 && j + 1 < b.len() && b[j + 1] == 46),
    ensures
        find_dots_from(b, lo) == Option::Some(i),
    decreases i - lo,
{
    if lo < i {
        lemma_find_dots_found(b, lo + 1, i);
    }
}

proof fn lemma_find_dots_none(b: Seq<u8>, lo: int)
    requires
        0 <= lo <= b.len(),
        forall|j: int| lo <= j < b.len() ==> !((#[trigger] b[j]) == 46 && j + 1 < b.len() && b[j + 1] == 46),
    ensures
        find_dots_from(b, lo) is None,
    decreases b.len() - lo,
{
    if lo < b.len() {
        lemma_find_dots_none(b, lo + 1);
    }
}

/// In valid UTF-8, an index holding an ASCII byte is a character boundary,
/// and so is the index after it.
proof fn lemma_ascii_boundary(b: Seq<u8>, i: int)
    requires
        valid_utf8(b),
        0 <= i < b.len(),
        b[i] < 0x80,
    ensures
        is_char_boundary(b, i),
        is_char_boundary(b, i + 1),
{
    assert(!is_continuation_byte(b[i]));
    assert(is_char_boundary(b, i));
    if i + 1 == b.len() {
        assert(is_char_boundary(b, b.len() as int));
    } else {
        let tail = b.subrange(i, b.len() as int);
        assert(valid_utf8(tail));
        assert(tail[0] == b[i]);
        assert(vstd::utf8::is_leading_byte_width_1(tail[0]));
        assert(vstd::utf8::length_of_first_scalar(tail) == 1);
        assert(valid_utf8(vstd::utf8::pop_first_scalar(tail)));
        assert(is_char_boundary(tail, 1)) by {
            reveal_with_fuel(is_char_boundary, 2);
        }
        assert(tail.len() > 1);
        assert(!is_continuation_byte(tail[1]));
        assert(tail[1] == b[i + 1]);
        assert(is_char_boundary(b, i + 1));
    }
}

/// A resource string in range syntax is always read as a range, never as a
/// plain table or record locator, even when the same text would also be a
/// well-formed plain identifier.
pub proof fn lemma_range_syntax_never_plain(b: Seq<u8>, r: Resource)
    requires
        resource_rel(b, r),
        is_range_syntax(b),
    ensures
        r is Range,
{
}

/// Equality of bound readings up to string contents.
pub open spec fn bound_eq(a: Bound, b: Bound) -> bool {
    match (a, b) {
        (Bound::Unbounded, Bound::Unbounded) => true,
        (Bound::Inclusive(x), Bound::Inclusive(y)) => x@ == y@,
        (Bound::Exclusive(x), Bound::Exclusive(y)) => x@ == y@,
        _ => false,
    }
}

/// Equality of resource readings up to string contents.
pub open spec fn resource_eq(a: Resource, b: Resource) -> bool {
    match (a, b) {
        (Resource::Table(x), Resource::Table(y)) => x@ == y@,
        (
            Resource::Record { table: t1, id: i1 },
            Resource::Record { table: t2, id: i2 },
        ) => t1@ == t2@ && i1@ == i2@,
        (
            Resource::Range { table: t1, begin: b1, end: e1 },
            Resource::Range { table: t2, begin: b2, end: e2 },
        ) => t1@ == t2@ && bound_eq(b1, b2) && bound_eq(e1, e2),
        _ => false,
    }
}

proof fn lemma_encode_utf8_injective(a: Seq<char>, b: Seq<char>)
    requires
        encode_utf8(a) == encode_utf8(b),
    ensures
        a == b,
{
    broadcast use vstd::utf8::encode_utf8_decode_utf8;

    assert(vstd::utf8::decode_utf8(encode_utf8(a)) == a);
    assert(vstd::utf8::decode_utf8(encode_utf8(b)) == b);
}

proof fn lemma_bound_reading_unambiguous_begin(raw: Seq<u8>, a: Bound, b: Bound)
    requires
        begin_bound_rel(raw, a),
        begin_bound_rel(raw, b),
    ensures
        bound_eq(a, b),
{
    match (a, b) {
        (Bound::Inclusive(x), Bound::Inclusive(y)) => {
            lemma_encode_utf8_injective(x@, y@);
        },
        (Bound::Exclusive(x), Bound::Exclusive(y)) => {
            lemma_encode_utf8_injective(x@, y@);
        },
        _ => {},
    }
}

proof fn lemma_bound_reading_unambiguous_end(raw: Seq<u8>, a: Bound, b: Bound)
    requires
        end_bound_rel(raw, a),
        end_bound_rel(raw, b),
    ensures
        bound_eq(a, b),
{
    match (a, b) {
        (Bound::Inclusive(x), Bound::Inclusive(y)) => {
            lemma_encode_utf8_injective(x@, y@);
        },
        (Bound::Exclusive(x), Bound::Exclusive(y)) => {
            lemma_encode_utf8_injective(x@, y@);
        },
        _ => {},
    }
}

/// Reading a resource string is unambiguous: two resources read from the
/// same bytes are the same, so each string names exactly one target.
pub proof fn lemma_resource_reading_unambiguous(b: Seq<u8>, r1: Resource, r2: Resource)
    requires
        resource_rel(b, r1),
        resource_rel(b, r2),
    ensures
        resource_eq(r1, r2),
{
    match (r1, r2) {
        (Resource::Table(x), Resource::Table(y)) => {
            lemma_encode_utf8_injective(x@, y@);
        },
        (
            Resource::Record { table: t1, id: i1 },
            Resource::Record { table: t2, id: i2 },
        ) => {
            lemma_encode_utf8_injective(t1@, t2@);
            lemma_encode_utf8_injective(i1@, i2@);
        },
        (
            Resource::Range { table: t1, begin: b1, end: e1 },
            Resource::Range { table: t2, begin: b2, end: e2 },
        ) => {
            let c = find_byte_from(b, 58, 0)->0;
            let d = find_dots_from(b, c + 1)->0;
            lemma_encode_utf8_injective(t1@, t2@);
            lemma_bound_reading_unambiguous_begin(b.subrange(c + 1, d), b1, b2);
            lemma_bound_reading_unambiguous_end(b.subrange(d + 2, b.len() as int), e1, e2);
        },
        _ => {},
    }
}

fn find_byte(bytes: &[u8], x: u8) -> (r: Option<usize>)
    ensures
        match r {
            Some(i) => i < bytes@.len() && bytes@[i as int] == x && find_byte_from(bytes@, x, 0)
                == Option::Some(i as int),
            None => find_byte_from(bytes@, x, 0) is None,
        },
{
    let mut i: usize = 0;
    while i < bytes.len()
        invariant
            0 <= i <= bytes@.len(),
            forall|j: int| 0 <= j < i ==> bytes@[j] != x,
        decreases bytes@.len() - i,
    {
        if bytes[i] == x {
            proof {
                lemma_find_byte_found(bytes@, x, 0, i as int);
            }
            return Some(i);
        }
        i += 1;
    }
    proof {
        lemma_find_byte_none(bytes@, x, 0);
    }
    None
}

fn find_dots(bytes: &[u8], lo: usize) -> (r: Option<usize>)
    requires
        lo <= bytes@.len(),
    ensures
        match r {
            Some(i) => lo <= i && i + 1 < bytes@.len() && bytes@[i as int] == 46 && bytes@[i as int
                + 1] == 46 && find_dots_from(bytes@, lo as int) == Option::Some(i as int),
            None => find_dots_from(bytes@, lo as int) is None,
        },
{
    let mut i: usize = lo;
    while i < bytes.len()
        invariant
            lo <= i <= bytes@.len(),
            forall|j: int|
                lo <= j < i ==> !((#[trigger] bytes@[j]) == 46 && j + 1 < bytes@.len()
                    && bytes@[j + 1] == 46),
        decreases bytes@.len() - i,
    {
        if bytes[i] == 46 && i + 1 < bytes.len() && bytes[i + 1] == 46 {
            proof {
                lemma_find_dots_found(bytes@, lo as int, i as int);
            }
            return Some(i);
        }
        i += 1;
    }
    proof {
        lemma_find_dots_none(bytes@, lo as int);
    }
    None
}

fn parse_begin_bound(raw: &str) -> (bound: Bound)
    ensures
        begin_bound_rel(raw.spec_bytes(), bound),
{
    let rb = raw.as_bytes();
    let n = rb.len();
    if n == 0 {
        Bound::Unbounded
    } else if rb[n - 1] == 62 {
        proof {
            lemma_ascii_boundary(raw.spec_bytes(), n - 1);
        }
        let (ident, _) = raw.split_at(n - 1);
        proof {
            assert(raw.spec_bytes().subrange(0, n - 1) =~= raw.spec_bytes().drop_last());
        }
        Bound::Exclusive(ident.to_owned())
    } else {
        Bound::Inclusive(raw.to_owned())
    }
}

fn parse_end_bound(raw: &str) -> (bound: Bound)
    ensures
        end_bound_rel(raw.spec_bytes(), bound),
{
    let rb = raw.as_bytes();
    if rb.len() == 0 {
        Bound::Unbounded
    } else if rb[0] == 61 {
        proof {
            lemma_ascii_boundary(raw.spec_bytes(), 0);
        }
        let (_, ident) = raw.split_at(1);
        proof {
            assert(raw.spec_bytes().subrange(1, raw.spec_bytes().len() as int)
                =~= raw.spec_bytes().drop_first());
        }
        Bound::Inclusive(ident.to_owned())
    } else {
        Bound::Exclusive(raw.to_owned())
    }
}

/// Reads a resource string. Range syntax is recognized first; a string
/// without it is a plain record or table locator. Every string names some
/// resource, so nothing is rejected here; a target the engine does not know
/// is the engine's own error to report.
pub fn parse_resource(s: &str) -> (r: Resource)
    ensures
        resource_rel(s.spec_bytes(), r),
{
    let bytes = s.as_bytes();
    let ghost b = s.spec_bytes();
    let n = bytes.len();
    match find_byte(bytes, 58) {
        None => Resource::Table(s.to_owned()),
        Some(c) => {
            match find_dots(bytes, c + 1) {
                None => {
                    proof {
                        lemma_ascii_boundary(b, c as int);
                    }
                    let (table_str, rest) = s.split_at(c);
                    proof {
                        assert(rest.spec_bytes() =~= b.subrange(c as int, b.len() as int));
                        assert(rest.spec_bytes()[0] == b[c as int]);
                        lemma_ascii_boundary(rest.spec_bytes(), 0);
                    }
                    let (_, id_str) = rest.split_at(1);
                    proof {
                        assert(id_str.spec_bytes() =~= b.subrange(
                            c as int,
                            b.len() as int,
                        ).subrange(1, b.len() - c));
                        assert(b.subrange(c as int, b.len() as int).subrange(1, b.len() - c)
                            =~= b.subrange(c + 1, b.len() as int));
                    }
                    Resource::Record { table: table_str.to_owned(), id: id_str.to_owned() }
                },
                Some(d) => {
                    proof {
                        lemma_ascii_boundary(b, c as int);
                    }
                    let (table_str, _) = s.split_at(c);
                    let (_, after_colon) = s.split_at(c + 1);
                    let ghost ab = after_colon.spec_bytes();
                    proof {
                        assert(ab =~= b.subrange(c + 1, b.len() as int));
                    }
                    let p1 = d - (c + 1);
                    proof {
                        assert(ab[p1 as int] == b[d as int]);
                        lemma_ascii_boundary(ab, p1 as int);
                    }
                    let (begin_str, _) = after_colon.split_at(p1);
                    let p2 = p1 + 2;
                    proof {
                        assert(ab[p2 - 1] == b[d + 1]);
                        lemma_ascii_boundary(ab, p2 - 1);
                    }
                    let (_, end_str) = after_colon.split_at(p2);
                    let begin = parse_begin_bound(begin_str);
                    let end = parse_end_bound(end_str);
                    proof {
                        assert(begin_str.spec_bytes() =~= ab.subrange(0, p1 as int));
                        assert(ab.subrange(0, p1 as int) =~= b.subrange(c + 1, d as int));
                        assert(end_str.spec_bytes() =~= ab.subrange(p2 as int, ab.len() as int));
                        assert(ab.subrange(p2 as int, ab.len() as int) =~= b.subrange(
                            d + 2,
                            b.len() as int,
                        ));
                    }
                    Resource::Range { table: table_str.to_owned(), begin, end }
                },
            }
        },
    }
}

} // verus!
