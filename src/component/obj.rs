//! Lines of Wavefront OBJ text: vertex lines, face lines, and the rest.

use vstd::prelude::*;

verus! {

/// ASCII whitespace as `str::split_whitespace` treats it: space and `\t` through `\r`.
pub open spec fn is_space(b: u8) -> bool {
    b == 32 || (9 <= b && b <= 13)
}

pub open spec fn is_digit(b: u8) -> bool {
    48 <= b && b <= 57
}

/// The first position at or after `i` that holds no whitespace, or the end of `s`.
pub open spec fn skip_space(s: Seq<u8>, i: int) -> int
    decreases s.len() - i,
{
    if 0 <= i < s.len() && is_space(s[i]) {
        skip_space(s, i + 1)
    } else {
        i
    }
}

/// The first position at or after `i` that holds whitespace, or the end of `s`.
pub open spec fn skip_word(s: Seq<u8>, i: int) -> int
    decreases s.len() - i,
{
    if 0 <= i < s.len() && !is_space(s[i]) {
        skip_word(s, i + 1)
    } else {
        i
    }
}

/// Start and end of the `k`-th whitespace-separated word at or after position `i`.
pub open spec fn word_from(s: Seq<u8>, i: int, k: nat) -> Option<(int, int)>
    decreases k,
{
    let start = skip_space(s, i);
    if start >= s.len() {
        None
    } else if k == 0 {
        Some((start, skip_word(s, start)))
    } else {
        word_from(s, skip_word(s, start), (k - 1) as nat)
    }
}

/// Start and end of the `k`-th word of line `s`, counting from 0.
pub open spec fn word(s: Seq<u8>, k: nat) -> Option<(int, int)> {
    word_from(s, 0, k)
}

/// The number that a run of decimal digits spells.
pub open spec fn decimal(t: Seq<u8>) -> int
    decreases t.len(),
{
    if t.len() == 0 {
        0
    } else {
        decimal(t.drop_last()) * 10 + (t.last() - 48)
    }
}

/// The 0-based vertex index that the word from `start` to `end` of `s` names in a face line:
/// the word is a decimal from 1 to `usize::MAX`, counted from 1.
pub open spec fn face_index(s: Seq<u8>, start: int, end: int) -> Option<int> {
    let t = s.subrange(start, end);
    if (forall|j: int| 0 <= j < t.len() ==> is_digit(#[trigger] t[j])) && 1 <= decimal(t)
        <= usize::MAX {
        Some(decimal(t) - 1)
    } else {
        None
    }
}

/// The face index named by the `k`-th word of line `s`.
pub open spec fn face_word(s: Seq<u8>, k: nat) -> Option<int> {
    match word(s, k) {
        Some(w) => face_index(s, w.0, w.1),
        None => None,
    }
}

/// What a line of an OBJ file holds.
#[derive(Debug, PartialEq, Eq, Clone, Copy)]
pub enum ObjLine {
    /// A vertex (first byte `v`): start and end of its three coordinate words.
    Vertex([(usize, usize); 3]),
    /// A face (first byte `f`): its three vertex indices, 0-based.
    Face([usize; 3]),
    /// Any other line.
    Other,
    /// A vertex or face line with fewer than three words after the first, or a face line
    /// whose index words are not all decimals from 1 to `usize::MAX`.
    Malformed,
}

proof fn lemma_skip_space_bounds(s: Seq<u8>, i: int)
    requires
        0 <= i <= s.len(),
    ensures
        i <= skip_space(s, i) <= s.len(),
        skip_space(s, i) < s.len() ==> !is_space(s[skip_space(s, i)]),
    decreases s.len() - i,
{
    if i < s.len() && is_space(s[i]) {
        lemma_skip_space_bounds(s, i + 1);
    }
}

proof fn lemma_skip_word_bounds(s: Seq<u8>, i: int)
    requires
        0 <= i <= s.len(),
    ensures
        i <= skip_word(s, i) <= s.len(),
    decreases s.len() - i,
{
    if i < s.len() && !is_space(s[i]) {
        lemma_skip_word_bounds(s, i + 1);
    }
}

fn is_space_byte(b: u8) -> (r: bool)
    ensures
        r == is_space(b),
{
    b == 32 || (9 <= b && b <= 13)
}

/// Start and end of the first word at or after `i`; the start is the end of `line` when no
/// word is left.
fn next_word(line: &[u8], i: usize) -> (r: (usize, usize))
    requires
        i <= line.len(),
    ensures
        r.0 == skip_space(line@, i as int),
        r.1 == skip_word(line@, r.0 as int),
        i <= r.0 <= r.1 <= line.len(),
{
    let mut start = i;
    while start < line.len() && is_space_byte(line[start])
        invariant
            i <= start <= line.len(),
            skip_space(line@, start as int) == skip_space(line@, i as int),
        decreases line.len() - start,
    {
        start += 1;
    }
    let mut end = start;
    while end < line.len() && !is_space_byte(line[end])
        invariant
            start <= end <= line.len(),
            skip_word(line@, end as int) == skip_word(line@, start as int),
        decreases line.len() - end,
    {
        end += 1;
    }
    (start, end)
}

proof fn lemma_decimal_grows(s: Seq<u8>, lo: int, i: int, j: int)
    requires
        0 <= lo <= i <= j <= s.len(),
        forall|k: int| lo <= k < j ==> is_digit(#[trigger] s[k]),
    ensures
        0 <= decimal(s.subrange(lo, i)) <= decimal(s.subrange(lo, j)),
    decreases j - lo,
{
    if j > lo {
        assert(s.subrange(lo, j).drop_last() =~= s.subrange(lo, j - 1));
        if i < j {
            lemma_decimal_grows(s, lo, i, j - 1);
        } else {
            lemma_decimal_grows(s, lo, j - 1, j - 1);
        }
    }
}

/// The decimal that bytes `start..end` of `line` spell, when they are all digits and it fits
/// in a `usize`.
fn parse_decimal(line: &[u8], start: usize, end: usize) -> (r: Option<usize>)
    requires
        start <= end <= line.len(),
    ensures
        ({
            let t = line@.subrange(start as int, end as int);
            r == if (forall|j: int| 0 <= j < t.len() ==> is_digit(#[trigger] t[j])) && 0 <= decimal(
                t,
            ) <= usize::MAX {
                Some(decimal(t) as usize)
            } else {
                None::<usize>
            }
        }),
{
    let ghost s = line@;
    let ghost t = s.subrange(start as int, end as int);
    let mut value: usize = 0;
    let mut i = start;
    while i < end
        invariant
            start <= i <= end <= line.len(),
            s == line@,
            t == s.subrange(start as int, end as int),
            forall|k: int| start <= k < i ==> is_digit(#[trigger] s[k]),
            value == decimal(s.subrange(start as int, i as int)),
        decreases end - i,
    {
        let b = line[i];
        if !(48 <= b && b <= 57) {
            assert(!is_digit(t[i - start]));
            return None;
        }
        let next = value as u128 * 10 + (b - 48) as u128;
        assert(s.subrange(start as int, i + 1).drop_last() =~= s.subrange(start as int, i as int));
        if next > usize::MAX as u128 {
            let mut k = i + 1;
            while k < end
                invariant
                    start <= i < k <= end <= line.len(),
                    s == line@,
                    t == s.subrange(start as int, end as int),
                    forall|m: int| start <= m < k ==> is_digit(#[trigger] s[m]),
                    decimal(s.subrange(start as int, i + 1)) > usize::MAX,
                decreases end - k,
            {
                let c = line[k];
                if !(48 <= c && c <= 57) {
                    assert(!is_digit(t[k - start]));
                    return None;
                }
                k += 1;
            }
            proof {
                lemma_decimal_grows(s, start as int, i + 1, end as int);
                assert(s.subrange(start as int, end as int) == t);
            }
            return None;
        }
        value = next as usize;
        i += 1;
    }
    proof {
        assert forall|j: int| 0 <= j < t.len() implies is_digit(#[trigger] t[j]) by {
            assert(t[j] == s[start + j]);
        }
    }
    Some(value)
}

/// The 0-based index that the word from `start` to `end` names in a face line.
fn parse_face_index(line: &[u8], start: usize, end: usize) -> (r: Option<usize>)
    requires
        start <= end <= line.len(),
    ensures
        face_index(line@, start as int, end as int) == match r {
            Some(v) => Some(v as int),
            None => None::<int>,
        },
{
    match parse_decimal(line, start, end) {
        Some(v) => {
            if v == 0 {
                None
            } else {
                Some(v - 1)
            }
        },
        None => None,
    }
}

/// Reads one line of an OBJ file, without its line break. Only the first byte decides the
/// kind: `v` a vertex, `f` a face; the words after the first give the data, and words after
/// the fourth are ignored.
pub fn parse_obj_line(line: &[u8]) -> (r: ObjLine)
    ensures
        line@.len() == 0 || (line@[0] != 118 && line@[0] != 102) ==> r == ObjLine::Other,
        line@.len() > 0 && line@[0] == 118 ==> if word(line@, 3) is Some {
            &&& r is Vertex
            &&& forall|j: int|
                0 <= j < 3 ==> word(line@, (j + 1) as nat) == Some(
                    (#[trigger] r->Vertex_0[j].0 as int, r->Vertex_0[j].1 as int),
                )
        } else {
            r == ObjLine::Malformed
        },
        line@.len() > 0 && line@[0] == 102 ==> if face_word(line@, 1) is Some && face_word(line@, 2) is Some
            && face_word(line@, 3) is Some {
            &&& r is Face
            &&& forall|j: int|
                0 <= j < 3 ==> face_word(line@, (j + 1) as nat) == Some(#[trigger] r->Face_0[j] as int)
        } else {
            r == ObjLine::Malformed
        },
{
    let ghost s = line@;
    if line.len() == 0 || (line[0] != 118 && line[0] != 102) {
        return ObjLine::Other;
    }
    let n = line.len();
    let w0 = next_word(line, 0);
    let w1 = next_word(line, w0.1);
    let w2 = next_word(line, w1.1);
    let w3 = next_word(line, w2.1);
    proof {
        lemma_skip_space_bounds(s, 0);
        assert(w0.0 == 0);
        lemma_skip_word_bounds(s, 0);
        reveal_with_fuel(word_from, 4);
        assert(word(s, 0) == Some((w0.0 as int, w0.1 as int)));
        if w1.0 < n {
            assert(word(s, 1) == Some((w1.0 as int, w1.1 as int)));
            if w2.0 < n {
                assert(word(s, 2) == Some((w2.0 as int, w2.1 as int)));
                if w3.0 < n {
                    assert(word(s, 3) == Some((w3.0 as int, w3.1 as int)));
                } else {
                    assert(word(s, 3) is None);
                }
            } else {
                assert(word(s, 2) is None);
                assert(word(s, 3) is None);
            }
        } else {
            assert(word(s, 1) is None);
            assert(word(s, 2) is None);
            assert(word(s, 3) is None);
        }
    }
    if w3.0 >= n {
        return ObjLine::Malformed;
    }
    if line[0] == 118 {
        let r = ObjLine::Vertex([w1, w2, w3]);
        assert(r->Vertex_0[0] == w1 && r->Vertex_0[1] == w2 && r->Vertex_0[2] == w3);
        r
    } else {
        let a = parse_face_index(line, w1.0, w1.1);
        let b = parse_face_index(line, w2.0, w2.1);
        let c = parse_face_index(line, w3.0, w3.1);
        match (a, b, c) {
            (Some(a), Some(b), Some(c)) => {
                let r = ObjLine::Face([a, b, c]);
                assert(r->Face_0[0] == a && r->Face_0[1] == b && r->Face_0[2] == c);
                r
            },
            _ => ObjLine::Malformed,
        }
    }
}

} // verus!
